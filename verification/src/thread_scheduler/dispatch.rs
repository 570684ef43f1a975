//! Choosing what runs, and lending classes along chains of owners.
use vstd::prelude::*;

use super::policy::{ClassPolicy, SchedulerKey, SchedulingClass, CLASS_COUNT};
use super::scheduler::{
    among, chain_error, lemma_chain_error_stays, lemma_same_keys, same, sound_chain, Dispatch,
    DonationError, RunDisposition, SchedulerError, ThreadScheduler,
};
use super::table::{
    budgeted, charged, dispatched, effective, holds, least, lemma_maintain_first, lemma_maintain_keys,
    lemma_place, lemma_remove_value, lookup, place, queued, sorted, sound, DonationChain,
    maintained, capped_sum, DonationToken, Table, Thread, ThreadMetrics, ThreadState,
};

verus! {

/// The donations that have not expired.
pub open spec fn unexpired<K>(donations: Seq<DonationChain<K>>, now: u64) -> Seq<DonationChain<K>> {
    donations.filter(|donation: DonationChain<K>| donation.expires_at_ns > now)
}

/// The donation with this token stands at `at`.
pub open spec fn donation_at<K>(
    donations: Seq<DonationChain<K>>,
    token: DonationToken,
    at: int,
) -> bool {
    0 <= at < donations.len() && donations[at].token == token
}

/// A sequence without the element at `at`; the last element takes its place.
pub open spec fn without<A>(all: Seq<A>, at: int) -> Seq<A> {
    all.update(at, all.last()).drop_last()
}

/// Nothing that `filter` keeps is new, and order is kept.
proof fn lemma_filtered<A>(all: Seq<A>, keep: spec_fn(A) -> bool)
    ensures
        all.filter(keep).len() <= all.len(),
        forall|i: int|
            0 <= i < all.filter(keep).len() ==> exists|j: int|
                i <= j < all.len() && #[trigger] all[j] == #[trigger] all.filter(keep)[i],
        forall|i: int, k: int|
            0 <= i < k < all.filter(keep).len() ==> exists|j: int, l: int|
                0 <= j < l < all.len() && #[trigger] all[j] == (#[trigger] all.filter(keep)[i])
                    && #[trigger] all[l] == (#[trigger] all.filter(keep)[k]),
    decreases all.len(),
{
    reveal(Seq::filter);
    if all.len() > 0 {
        let rest = all.drop_last();
        lemma_filtered(rest, keep);
        let kept = all.filter(keep);
        let before = rest.filter(keep);
        assert forall|i: int| 0 <= i < kept.len() implies exists|j: int|
            i <= j < all.len() && #[trigger] all[j] == #[trigger] kept[i] by {
            if i < before.len() {
                let j = choose|j: int| i <= j < rest.len() && #[trigger] rest[j] == before[i];
                assert(all[j] == kept[i]);
            } else {
                assert(all[all.len() - 1] == kept[i]);
            }
        }
        assert forall|i: int, k: int| 0 <= i < k < kept.len() implies exists|j: int, l: int|
            0 <= j < l < all.len() && #[trigger] all[j] == (#[trigger] kept[i]) && #[trigger] all[l] == (
            #[trigger] kept[k]) by {
            if k < before.len() {
                let (j, l) = choose|j: int, l: int|
                    0 <= j < l < rest.len() && #[trigger] rest[j] == before[i] && #[trigger] rest[l]
                        == before[k];
                assert(all[j] == kept[i] && all[l] == kept[k]);
            } else {
                let j = choose|j: int| i <= j < rest.len() && #[trigger] rest[j] == before[i];
                assert(all[j] == kept[i] && all[all.len() - 1] == kept[k]);
            }
        }
    }
}

impl<K: SchedulerKey> ThreadScheduler<K> {
    /// Drops the donations that have expired.
    fn expire_donations(&mut self, now_ns: u64)
        requires
            old(self).wf(),
        ensures
            final(self).wf(),
            final(self).donations@ == unexpired(old(self).donations@, now_ns),
            *final(self) == (ThreadScheduler { donations: final(self).donations, ..*old(self) }),
    {
        let ghost all = self.donations@;
        let ghost keep = |donation: DonationChain<K>| donation.expires_at_ns > now_ns;
        let ghost mut seen: int = 0;
        let mut index: usize = 0;
        assert(all.take(0).filter(keep) =~= Seq::<DonationChain<K>>::empty()) by {
            reveal(Seq::filter);
        }
        assert(self.donations@ =~= all.take(0).filter(keep) + all.skip(0));
        while index < self.donations.len()
            invariant
                0 <= seen <= all.len(),
                keep == (|donation: DonationChain<K>| donation.expires_at_ns > now_ns),
                index == all.take(seen).filter(keep).len(),
                self.donations@ == all.take(seen).filter(keep) + all.skip(seen),
                *self == (ThreadScheduler { donations: self.donations, ..*old(self) }),
            decreases all.len() - seen,
        {
            let ghost prefix = all.take(seen);
            proof {
                assert(seen < all.len());
                assert(self.donations@[index as int] == all[seen]);
                prefix.lemma_filter_push(all[seen], keep);
                assert(all.take(seen + 1) =~= prefix.push(all[seen]));
            }
            if self.donations[index].expires_at_ns > now_ns {
                index += 1;
                assert(self.donations@ =~= all.take(seen + 1).filter(keep) + all.skip(seen + 1));
            } else {
                let expired: DonationChain<K> = self.donations.remove(index);
                assert(self.donations@ =~= all.take(seen + 1).filter(keep) + all.skip(seen + 1));
            }
            proof {
                seen = seen + 1;
            }
        }
        proof {
            assert(seen == all.len());
            assert(all.take(seen) =~= all);
            assert(self.donations@ =~= unexpired(all, now_ns));
            lemma_filtered(all, keep);
            assert forall|i: int| 0 <= i < self.donations@.len() implies ({
                &&& sound_chain(#[trigger] self.donations@[i], self.config.max_donation_depth)
                &&& self.donations@[i].token.0 < self.next_donation_token
                &&& holds(self.threads@, self.donations@[i].root)
            }) by {
                let j = choose|j: int|
                    i <= j < all.len() && #[trigger] all[j] == self.donations@[i];
                assert(sound_chain(all[j], self.config.max_donation_depth));
            }
            assert forall|i: int, k: int| 0 <= i < k < self.donations@.len() implies (
            #[trigger] self.donations@[i]).token != (#[trigger] self.donations@[k]).token
                && self.donations@[i].root != self.donations@[k].root by {
                let (j, l) = choose|j: int, l: int|
                    0 <= j < l < all.len() && #[trigger] all[j] == self.donations@[i]
                        && #[trigger] all[l] == self.donations@[k];
                assert(all[j].token != all[l].token);
            }
        }
    }

    /// Drops expired donations and brings every thread up to `now_ns`.
    ///
    /// Afterwards each thread has the strongest of its base class and the classes
    /// that live donations lend it.
    pub fn maintain(&mut self, now_ns: u64)
        requires
            old(self).wf(),
        ensures
            final(self).wf(),
            final(self).donations@ == unexpired(old(self).donations@, now_ns),
            final(self).table() == old(self).table().maintain_first(
                final(self).donations@,
                old(self).config,
                now_ns,
                old(self).threads@.len(),
            ),
            forall|key: K| #[trigger]
                holds(final(self).threads@, key) ==> final(self).thread_of(
                    key,
                )->Some_0.effective_class == effective(
                    final(self).donations@,
                    key,
                    final(self).thread_of(key)->Some_0.base_class,
                ),
            *final(self) == (ThreadScheduler {
                threads: final(self).threads,
                queues: final(self).queues,
                donations: final(self).donations,
                ..*old(self)
            }),
    {
        self.expire_donations(now_ns);
        let ghost start = *self;
        let mut index: usize = 0;
        while index < self.threads.len()
            invariant
                start.wf(),
                self.threads@.len() == start.threads@.len(),
                index <= self.threads@.len(),
                self.table().wf(),
                self.table() == start.table().maintain_first(
                    start.donations@,
                    start.config,
                    now_ns,
                    index as nat,
                ),
                *self == (ThreadScheduler {
                    threads: self.threads,
                    queues: self.queues,
                    ..start
                }),
            decreases self.threads@.len() - index,
        {
            self.maintain_at(index, now_ns);
            proof {
                lemma_maintain_first(
                    start.table(),
                    start.donations@,
                    start.config,
                    now_ns,
                    (index + 1) as nat,
                );
            }
            index += 1;
        }
        proof {
            let count = start.threads@.len();
            lemma_maintain_first(start.table(), start.donations@, start.config, now_ns, count);
            assert forall|i: int| 0 <= i < count implies (#[trigger] self.threads@[i]).0
                == start.threads@[i].0 by {
                assert(self.table().threads[i].0 == start.table().threads[i].0);
            }
            lemma_same_keys(start.threads@, self.threads@);
            assert forall|key: K| #[trigger] holds(self.threads@, key) implies self.thread_of(
                key,
            )->Some_0.effective_class == effective(
                self.donations@,
                key,
                self.thread_of(key)->Some_0.base_class,
            ) by {
                let p = place(self.threads@, key);
                assert(self.threads@[p].0 == key);
                assert(self.table().threads[p] == self.threads@[p]);
            }
        }
    }

    /// Whether the head of a class has waited beyond the starvation bound.
    fn is_starved(&self, order: usize, now_ns: u64) -> (starved: bool)
        requires
            self.wf(),
            order < CLASS_COUNT,
        ensures
            starved == self.table().starved(self.config, order as int, now_ns),
    {
        assert(self.table().queues[order as int] == self.queues@[order as int]@);
        if self.queues[order].len() == 0 {
            return false;
        }
        let key: K = self.queues[order][0];
        proof {
            assert(self.table().queues[order as int].contains(key));
        }
        match self.thread_index(key) {
            Err(_) => false,
            Ok(index) => {
                let waited: u64 = match self.threads[index].1.runnable_since_ns {
                    Some(since) => now_ns.saturating_sub(since),
                    None => 0,
                };
                waited >= self.config.classes[order].starvation_ns
            },
        }
    }

    /// The class to run.
    fn select_class(&self, now_ns: u64) -> (class: Option<SchedulingClass>)
        requires
            self.wf(),
        ensures
            class == self.table().choice(self.config, now_ns),
    {
        let mut order: usize = CLASS_COUNT;
        while order > 0
            invariant
                self.wf(),
                order <= CLASS_COUNT,
                forall|c: int|
                    order <= c < 5 ==> !#[trigger] self.table().starved(self.config, c, now_ns),
            decreases order,
        {
            order -= 1;
            if self.is_starved(order, now_ns) {
                return Some(SchedulingClass::at(order));
            }
        }
        let mut rank: usize = 0;
        while rank < CLASS_COUNT
            invariant
                self.wf(),
                rank <= CLASS_COUNT,
                forall|c: int|
                    0 <= c < 5 ==> !#[trigger] self.table().starved(self.config, c, now_ns),
                forall|c: int| 0 <= c < rank ==> (#[trigger] self.table().queues[c]).len() == 0,
            decreases CLASS_COUNT - rank,
        {
            assert(self.table().queues[rank as int] == self.queues@[rank as int]@);
            if self.queues[rank].len() > 0 {
                return Some(SchedulingClass::at(rank));
            }
            rank += 1;
        }
        None
    }

    /// `after` and `dispatch` are what the choice of the next thread makes of this scheduler.
    pub open spec fn dispatches(
        self,
        after: ThreadScheduler<K>,
        now_ns: u64,
        dispatch: Option<Dispatch<K>>,
    ) -> bool {
        &&& after.donations@ == unexpired(self.donations@, now_ns)
        &&& after == (ThreadScheduler {
            threads: after.threads,
            queues: after.queues,
            donations: after.donations,
            ..self
        })
        &&& ({
            let current = self.table().maintain_first(
                after.donations@,
                self.config,
                now_ns,
                self.threads@.len(),
            );
            match current.choice(self.config, now_ns) {
                None => dispatch is None && after.table() == current,
                Some(class) => {
                    let key = current.queues[class.order()][0];
                    let thread = lookup(current.threads, key)->Some_0;
                    let limits = self.config.limits(class);
                    &&& dispatch == Some(
                        Dispatch {
                            key,
                            class,
                            quantum_ns: least(limits.quantum_ns, thread.budget_remaining_ns),
                        },
                    )
                    &&& dispatch->Some_0.quantum_ns > 0
                    &&& lookup(current.threads, key) is Some
                    &&& thread.state == ThreadState::Runnable
                    &&& thread.effective_class == class
                    &&& after.table() == current.settle(
                        place(current.threads, key),
                        dispatched(thread, limits, now_ns),
                    )
                    &&& after.table().queues[class.order()]
                        == current.queues[class.order()].drop_first()
                },
            }
        })
    }

    /// Brings everything up to `now_ns`, then chooses one thread and marks it running.
    ///
    /// The strongest class with work wins, unless the head of some class has waited
    /// beyond its starvation bound: then the weakest such class wins. Within a class
    /// the thread that was queued first runs first.
    pub fn next_dispatch(&mut self, now_ns: u64) -> (dispatch: Option<Dispatch<K>>)
        requires
            old(self).wf(),
        ensures
            final(self).wf(),
            old(self).dispatches(*final(self), now_ns, dispatch),
    {
        self.maintain(now_ns);
        let ghost current = self.table();
        let class: SchedulingClass = match self.select_class(now_ns) {
            None => {
                return None;
            },
            Some(class) => class,
        };
        let order: usize = class.index();
        assert(current.queues[order as int] == self.queues@[order as int]@);
        let key: K = self.queues[order][0];
        let policy: ClassPolicy = self.policy(class);
        proof {
            assert(current.queues[order as int].contains(key));
            assert(queued(current.threads, key, order as int));
            assert(self.config.classes@[order as int].usable());
            lemma_remove_value(current.queues[order as int], key);
            assert(current.queues[order as int].remove(0)
                =~= current.queues[order as int].drop_first());
        }
        let index: usize = match self.thread_index(key) {
            Err(_) => {
                return None;
            },
            Ok(index) => index,
        };
        let before: Thread = self.threads[index].1;
        proof {
            assert(sound(current.threads[index as int].1));
        }
        let mut thread: Thread = before;
        if let Some(since) = before.runnable_since_ns {
            thread.metrics.runnable_wait_ns = thread.metrics.runnable_wait_ns.saturating_add(
                now_ns.saturating_sub(since),
            );
        }
        thread.runnable_since_ns = None;
        if let Some(woke_at) = before.pending_wake_ns {
            let latency: u64 = now_ns.saturating_sub(woke_at);
            thread.metrics.wake_latency_ns = thread.metrics.wake_latency_ns.saturating_add(latency);
            if thread.metrics.maximum_wake_latency_ns < latency {
                thread.metrics.maximum_wake_latency_ns = latency;
            }
            thread.metrics.wake_latency_samples =
            thread.metrics.wake_latency_samples.saturating_add(1);
            if latency > policy.wake_latency_target_ns {
                thread.metrics.wake_latency_target_misses =
                thread.metrics.wake_latency_target_misses.saturating_add(1);
            }
        }
        thread.pending_wake_ns = None;
        if let Some(deadline) = before.deadline_ns {
            if now_ns > deadline {
                thread.metrics.deadline_misses = thread.metrics.deadline_misses.saturating_add(1);
                thread.deadline_ns = None;
            }
        }
        thread.state = ThreadState::Running;
        thread.metrics.context_switches = thread.metrics.context_switches.saturating_add(1);
        assert(thread == dispatched(before, policy, now_ns));
        let quantum_ns: u64 = if policy.quantum_ns < thread.budget_remaining_ns {
            policy.quantum_ns
        } else {
            thread.budget_remaining_ns
        };
        self.settle(index, thread);
        proof {
            lemma_same_keys(current.threads, self.threads@);
        }
        Some(Dispatch { key, class, quantum_ns })
    }

    /// `after` and `result` are what the end of a run makes of this scheduler.
    pub open spec fn finishes(
        self,
        after: ThreadScheduler<K>,
        key: K,
        elapsed_ns: u64,
        now_ns: u64,
        disposition: RunDisposition,
        result: Result<(), SchedulerError>,
    ) -> bool {
        &&& after == (ThreadScheduler {
            threads: after.threads,
            queues: after.queues,
            ..self
        })
        &&& match self.thread_of(key) {
            None => result == Err::<(), SchedulerError>(SchedulerError::UnknownKey)
                && after.table() == self.table(),
            Some(thread) => if thread.state == ThreadState::Running {
                &&& result == Ok::<(), SchedulerError>(())
                &&& after.table() == self.table().settle(
                    place(self.threads@, key),
                    charged(
                        thread,
                        elapsed_ns,
                        now_ns,
                        disposition == RunDisposition::Blocked,
                    ),
                )
            } else {
                &&& result == Err::<(), SchedulerError>(SchedulerError::InvalidState)
                &&& after.table() == self.table()
            },
        }
    }

    /// Charges the time that a thread ran and takes it off the processor.
    ///
    /// Time beyond the quantum is charged too, so a late timer cannot evade throttling.
    pub fn finish_dispatch(
        &mut self,
        key: K,
        elapsed_ns: u64,
        now_ns: u64,
        disposition: RunDisposition,
    ) -> (result: Result<(), SchedulerError>)
        requires
            old(self).wf(),
        ensures
            final(self).wf(),
            old(self).finishes(*final(self), key, elapsed_ns, now_ns, disposition, result),
    {
        let index: usize = match self.thread_index(key) {
            Err(_) => {
                return Err(SchedulerError::UnknownKey);
            },
            Ok(index) => index,
        };
        let before: Thread = self.threads[index].1;
        if before.state != ThreadState::Running {
            return Err(SchedulerError::InvalidState);
        }
        assert(sound(self.table().threads[index as int].1));
        let mut thread: Thread = before;
        thread.metrics.cpu_time_ns = thread.metrics.cpu_time_ns.saturating_add(elapsed_ns);
        thread.budget_remaining_ns = thread.budget_remaining_ns.saturating_sub(elapsed_ns);
        match disposition {
            RunDisposition::Blocked => {
                thread.state = ThreadState::Blocked;
                thread.runnable_since_ns = None;
            },
            RunDisposition::Runnable => {
                thread.runnable_since_ns = Some(now_ns);
                if thread.budget_remaining_ns == 0 {
                    thread.state = ThreadState::Throttled;
                    thread.throttled_since_ns = Some(now_ns);
                    thread.metrics.throttling_events =
                    thread.metrics.throttling_events.saturating_add(1);
                } else {
                    thread.state = ThreadState::Runnable;
                }
            },
        }
        assert(thread == charged(
            before,
            elapsed_ns,
            now_ns,
            disposition == RunDisposition::Blocked,
        ));
        self.settle(index, thread);
        proof {
            lemma_same_keys(old(self).threads@, self.threads@);
        }
        Ok(())
    }

    /// Brings the threads with these keys up to `now_ns`.
    fn maintain_keys(&mut self, keys: &[K], now_ns: u64)
        requires
            old(self).config.problem() is None,
            old(self).table().wf(),
        ensures
            final(self).table() == old(self).table().maintain_keys(
                old(self).donations@,
                old(self).config,
                keys@,
                now_ns,
                keys@.len(),
            ),
            *final(self) == (ThreadScheduler {
                threads: final(self).threads,
                queues: final(self).queues,
                ..*old(self)
            }),
    {
        let mut index: usize = 0;
        while index < keys.len()
            invariant
                index <= keys@.len(),
                self.config.problem() is None,
                self.table().wf(),
                self.table() == old(self).table().maintain_keys(
                    old(self).donations@,
                    old(self).config,
                    keys@,
                    now_ns,
                    index as nat,
                ),
                *self == (ThreadScheduler {
                    threads: self.threads,
                    queues: self.queues,
                    ..*old(self)
                }),
            decreases keys@.len() - index,
        {
            let found: Result<usize, SchedulerError> = self.maintain_thread(keys[index], now_ns);
            index += 1;
        }
    }

    /// Why a donation is refused, if it is.
    pub open spec fn donation_error(
        &self,
        donor: K,
        chain: Seq<K>,
        expires_at_ns: u64,
        now_ns: u64,
    ) -> Option<DonationError> {
        if chain.len() == 0 {
            Some(DonationError::EmptyChain)
        } else if chain.len() > self.config.max_donation_depth {
            Some(DonationError::ChainTooDeep)
        } else if expires_at_ns <= now_ns {
            Some(DonationError::Expired)
        } else if expires_at_ns - now_ns > self.config.max_donation_ns {
            Some(DonationError::DurationTooLong)
        } else if exists|i: int|
            0 <= i < self.donations@.len() && (#[trigger] self.donations@[i]).root == donor {
            Some(DonationError::DonorAlreadyDonating)
        } else if self.donations@.len() == self.capacity {
            Some(DonationError::CapacityReached)
        } else if !holds(self.threads@, donor) {
            Some(DonationError::UnknownKey)
        } else {
            match chain_error(self.threads@, donor, chain, chain.len()) {
                Some(error) => Some(error),
                None => if self.next_donation_token == u64::MAX {
                    Some(DonationError::TokenExhausted)
                } else {
                    None
                },
            }
        }
    }

    /// `after` and `result` are what a donation makes of this scheduler.
    pub open spec fn donates(
        self,
        after: ThreadScheduler<K>,
        donor: K,
        chain: Seq<K>,
        expires_at_ns: u64,
        now_ns: u64,
        result: Result<DonationToken, DonationError>,
    ) -> bool {
        &&& match self.donation_error(donor, chain, expires_at_ns, now_ns) {
            Some(error) => result == Err::<DonationToken, DonationError>(error)
                && after == self,
            None => {
                let token = DonationToken(self.next_donation_token);
                &&& result == Ok::<DonationToken, DonationError>(token)
                &&& after.next_donation_token == self.next_donation_token + 1
                &&& after.donations@.len() == self.donations@.len() + 1
                &&& after.donations@.drop_last() == self.donations@
                &&& after.donations@.last().token == token
                &&& after.donations@.last().root == donor
                &&& after.donations@.last().class == self.thread_of(
                    donor,
                )->Some_0.effective_class
                &&& after.donations@.last().expires_at_ns == expires_at_ns
                &&& after.donations@.last().recipients@ == chain
                &&& after.table() == self.table().maintain_keys(
                    after.donations@,
                    self.config,
                    chain,
                    now_ns,
                    chain.len(),
                )
                &&& after == (ThreadScheduler {
                    threads: after.threads,
                    queues: after.queues,
                    donations: after.donations,
                    next_donation_token: after.next_donation_token,
                    ..self
                })
            },
        }
    }

    /// Lends the donor's class to every recipient of `chain` until `expires_at_ns`.
    ///
    /// `chain[0]` owns what blocks the donor, later entries are nested owners. One
    /// token covers the chain, so it is always unwound as a whole.
    pub fn donate_chain(&mut self, donor: K, chain: &[K], expires_at_ns: u64, now_ns: u64) -> (result:
        Result<DonationToken, DonationError>)
        requires
            old(self).wf(),
        ensures
            final(self).wf(),
            old(self).donates(*final(self), donor, chain@, expires_at_ns, now_ns, result),
    {
        if chain.len() == 0 {
            return Err(DonationError::EmptyChain);
        }
        if chain.len() > self.config.max_donation_depth {
            return Err(DonationError::ChainTooDeep);
        }
        if expires_at_ns <= now_ns {
            return Err(DonationError::Expired);
        }
        if expires_at_ns - now_ns > self.config.max_donation_ns {
            return Err(DonationError::DurationTooLong);
        }
        let mut index: usize = 0;
        while index < self.donations.len()
            invariant
                index <= self.donations@.len(),
                *self == *old(self),
                0 < chain@.len() <= self.config.max_donation_depth,
                now_ns < expires_at_ns,
                expires_at_ns - now_ns <= self.config.max_donation_ns,
                self.wf(),
                forall|i: int| 0 <= i < index ==> (#[trigger] self.donations@[i]).root != donor,
            decreases self.donations@.len() - index,
        {
            if same(self.donations[index].root, donor) {
                assert(self.donations@[index as int].root == donor);
                return Err(DonationError::DonorAlreadyDonating);
            }
            index += 1;
        }
        if self.donations.len() == self.capacity {
            return Err(DonationError::CapacityReached);
        }
        let class: SchedulingClass = match self.thread_index(donor) {
            Err(_) => {
                return Err(DonationError::UnknownKey);
            },
            Ok(at) => self.threads[at].1.effective_class,
        };
        let mut recipients: Vec<K> = Vec::new();
        let mut next: usize = 0;
        while next < chain.len()
            invariant
                next <= chain@.len(),
                *self == *old(self),
                sorted(self.threads@),
                recipients@ == chain@.take(next as int),
                recipients@.no_duplicates(),
                !recipients@.contains(donor),
                chain_error(self.threads@, donor, chain@, next as nat) is None,
                old(self).wf(),
                old(self).donation_error(donor, chain@, expires_at_ns, now_ns) == (match chain_error(
                    self.threads@,
                    donor,
                    chain@,
                    chain@.len(),
                ) {
                    Some(error) => Some(error),
                    None => if self.next_donation_token == u64::MAX {
                        Some(DonationError::TokenExhausted)
                    } else {
                        None
                    },
                }),
            decreases chain@.len() - next,
        {
            let key: K = chain[next];
            if same(key, donor) || among(chain, next, key) {
                proof {
                    lemma_chain_error_stays(
                        self.threads@,
                        donor,
                        chain@,
                        (next + 1) as nat,
                        chain@.len(),
                    );
                }
                return Err(DonationError::Cycle);
            }
            if self.thread_index(key).is_err() {
                proof {
                    lemma_chain_error_stays(
                        self.threads@,
                        donor,
                        chain@,
                        (next + 1) as nat,
                        chain@.len(),
                    );
                }
                return Err(DonationError::UnknownKey);
            }
            proof {
                super::table::lemma_push_value(recipients@, key);
            }
            recipients.push(key);
            next += 1;
            assert(recipients@ =~= chain@.take(next as int));
        }
        assert(chain@.take(next as int) =~= chain@);
        let token = DonationToken(self.next_donation_token);
        if self.next_donation_token == u64::MAX {
            return Err(DonationError::TokenExhausted);
        }
        self.donations.push(
            DonationChain { token, root: donor, class, expires_at_ns, recipients },
        );
        self.next_donation_token = self.next_donation_token + 1;
        let ghost ready = *self;
        self.maintain_keys(chain, now_ns);
        proof {
            lemma_maintain_keys(
                ready.table(),
                ready.donations@,
                ready.config,
                chain@,
                now_ns,
                chain@.len(),
            );
            assert forall|i: int| 0 <= i < ready.threads@.len() implies (
            #[trigger] self.threads@[i]).0 == ready.threads@[i].0 by {
                assert(self.table().threads[i].0 == ready.table().threads[i].0);
            }
            lemma_same_keys(ready.threads@, self.threads@);
            assert(self.donations@.drop_last() =~= old(self).donations@);
        }
        Ok(token)
    }

    /// `after` is this scheduler once the donation at `at` was unwound.
    pub open spec fn unwinds(&self, after: ThreadScheduler<K>, at: int, now_ns: u64) -> bool {
        &&& after.donations@ == without(self.donations@, at)
        &&& after.table() == self.table().maintain_keys(
            after.donations@,
            self.config,
            self.donations@[at].recipients@,
            now_ns,
            self.donations@[at].recipients@.len(),
        )
        &&& after == (ThreadScheduler {
            threads: after.threads,
            queues: after.queues,
            donations: after.donations,
            ..*self
        })
    }

    /// Unwinds a chain: its recipients get the class that the other donations lend them.
    pub fn cancel_donation(&mut self, token: DonationToken, now_ns: u64) -> (found: bool)
        requires
            old(self).wf(),
        ensures
            final(self).wf(),
            found == exists|at: int| donation_at(old(self).donations@, token, at),
            !found ==> *final(self) == *old(self),
            forall|at: int| #[trigger]
                donation_at(old(self).donations@, token, at) ==> old(self).unwinds(
                    *final(self),
                    at,
                    now_ns,
                ),
    {
        let mut index: usize = 0;
        while index < self.donations.len()
            invariant
                index <= self.donations@.len(),
                *self == *old(self),
                self.wf(),
                forall|i: int| 0 <= i < index ==> (#[trigger] self.donations@[i]).token != token,
            decreases self.donations@.len() - index,
        {
            if self.donations[index].token == token {
                let ghost before = *self;
                let removed: DonationChain<K> = self.donations.swap_remove(index);
                assert(self.donations@ =~= without(before.donations@, index as int));
                let ghost ready = *self;
                self.maintain_keys(removed.recipients.as_slice(), now_ns);
                proof {
                    assert(donation_at(before.donations@, token, index as int));
                    lemma_maintain_keys(
                        ready.table(),
                        ready.donations@,
                        ready.config,
                        removed.recipients@,
                        now_ns,
                        removed.recipients@.len(),
                    );
                    assert forall|i: int| 0 <= i < ready.threads@.len() implies (
                    #[trigger] self.threads@[i]).0 == ready.threads@[i].0 by {
                        assert(self.table().threads[i].0 == ready.table().threads[i].0);
                    }
                    lemma_same_keys(ready.threads@, self.threads@);
                    assert(before.table() =~= ready.table());
                    lemma_without(before, *self, index as int);
                    assert forall|at: int| #[trigger]
                        donation_at(before.donations@, token, at) implies at == index by {
                        if at < index {
                            assert(before.donations@[at].token != before.donations@[index as int].token);
                        }
                        if index < at {
                            assert(before.donations@[index as int].token != before.donations@[at].token);
                        }
                    }
                    assert(before.unwinds(*self, index as int, now_ns));
                }
                return true;
            }
            index += 1;
        }
        assert(forall|at: int| !donation_at(self.donations@, token, at));
        false
    }

    /// Unwinds the chain of a donor that leaves; says how many there were.
    pub fn cancel_donations_from(&mut self, donor: K, now_ns: u64) -> (count: usize)
        requires
            old(self).wf(),
        ensures
            final(self).wf(),
            count == (if exists|i: int|
                0 <= i < old(self).donations@.len() && (#[trigger] old(self).donations@[i]).root
                    == donor {
                1usize
            } else {
                0
            }),
            count == 0 ==> *final(self) == *old(self),
            forall|at: int|
                0 <= at < old(self).donations@.len() && (#[trigger] old(self).donations@[at]).root
                    == donor ==> old(self).unwinds(*final(self), at, now_ns),
            forall|i: int|
                0 <= i < final(self).donations@.len() ==> (#[trigger] final(self).donations@[i]).root != donor,
    {
        let mut index: usize = 0;
        while index < self.donations.len()
            invariant
                index <= self.donations@.len(),
                *self == *old(self),
                self.wf(),
                forall|i: int| 0 <= i < index ==> (#[trigger] self.donations@[i]).root != donor,
            decreases self.donations@.len() - index,
        {
            if same(self.donations[index].root, donor) {
                let token: DonationToken = self.donations[index].token;
                let ghost before = *self;
                proof {
                    assert(donation_at(before.donations@, token, index as int));
                }
                let found: bool = self.cancel_donation(token, now_ns);
                proof {
                    assert(before.unwinds(*self, index as int, now_ns));
                    assert forall|at: int|
                        0 <= at < before.donations@.len() && (#[trigger] before.donations@[at]).root
                            == donor implies at == index by {
                        if index < at {
                            assert(before.donations@[index as int].root
                                != before.donations@[at].root);
                        }
                    }
                    assert forall|i: int| 0 <= i < self.donations@.len() implies (
                    #[trigger] self.donations@[i]).root != donor by {
                        let all = before.donations@;
                        if i == index {
                            assert(self.donations@[i] == all[all.len() - 1]);
                            assert(all[index as int].root != all[all.len() - 1].root);
                        } else {
                            assert(self.donations@[i] == all[i]);
                        }
                    }
                }
                return 1;
            }
            index += 1;
        }
        0
    }

    /// Removes a thread and unwinds the chain that it donates.
    pub fn remove_thread(&mut self, key: K, now_ns: u64) -> (result: Result<
        ThreadMetrics,
        SchedulerError,
    >)
        requires
            old(self).wf(),
        ensures
            final(self).wf(),
            match old(self).thread_of(key) {
                None => result == Err::<ThreadMetrics, SchedulerError>(SchedulerError::UnknownKey)
                    && *final(self) == *old(self),
                Some(_) => exists|middle: ThreadScheduler<K>| #[trigger]
                    old(self).leaves(middle, key, now_ns) && result == Ok::<
                        ThreadMetrics,
                        SchedulerError,
                    >(lookup(middle.threads@, key)->Some_0.metrics) && final(self).donations@
                        == middle.donations@ && final(self).table() == middle.table().removed(
                        place(middle.threads@, key),
                    ) && *final(self) == (ThreadScheduler {
                        threads: final(self).threads,
                        queues: final(self).queues,
                        donations: final(self).donations,
                        ..*old(self)
                    }) && !holds(final(self).threads@, key),
            },
    {
        let index: usize = match self.thread_index(key) {
            Err(_) => {
                return Err(SchedulerError::UnknownKey);
            },
            Ok(index) => index,
        };
        let count: usize = self.cancel_donations_from(key, now_ns);
        let ghost middle = *self;
        proof {
            if count == 0 {
                assert(old(self).leaves(middle, key, now_ns));
            } else {
                let at = choose|at: int|
                    0 <= at < old(self).donations@.len() && (#[trigger] old(
                        self,
                    ).donations@[at]).root == key;
                assert(old(self).unwinds(middle, at, now_ns));
                let keys = old(self).donations@[at].recipients@;
                lemma_maintain_keys(
                    old(self).table(),
                    middle.donations@,
                    old(self).config,
                    keys,
                    now_ns,
                    keys.len(),
                );
                assert(middle.table().threads[index as int].0 == old(
                    self,
                ).table().threads[index as int].0);
                assert(old(self).leaves(middle, key, now_ns));
            }
            assert(middle.threads@[index as int].0 == key);
            lemma_place(middle.threads@, index as int);
        }
        let mut order: usize = 0;
        while order < CLASS_COUNT
            invariant
                order <= CLASS_COUNT,
                middle.wf(),
                self.queues@.len() == 5,
                forall|c: int|
                    0 <= c < 5 ==> (#[trigger] self.queues@[c])@ == (if c < order {
                        middle.queues@[c]@.remove_value(key)
                    } else {
                        middle.queues@[c]@
                    }),
                *self == (ThreadScheduler { queues: self.queues, ..middle }),
            decreases CLASS_COUNT - order,
        {
            assert(middle.table().queues[order as int].no_duplicates());
            let ghost before = *self;
            self.remove_from_queue(SchedulingClass::at(order), key);
            assert forall|c: int| 0 <= c < 5 implies (#[trigger] self.queues@[c])@ == (if c < order
                + 1 {
                middle.queues@[c]@.remove_value(key)
            } else {
                middle.queues@[c]@
            }) by {
                assert(self.table().queues[c] == self.queues@[c]@);
                assert(before.table().queues[c] == before.queues@[c]@);
            }
            order += 1;
        }
        let removed: (K, Thread) = self.threads.remove(index);
        proof {
            assert(self.table().queues =~= middle.table().removed(index as int).queues);
            assert(self.table() =~= middle.table().removed(index as int));
            lemma_removed(middle.table(), index as int);
            assert forall|i: int| 0 <= i < self.donations@.len() implies holds(
                self.threads@,
                (#[trigger] self.donations@[i]).root,
            ) by {
                let root = self.donations@[i].root;
                assert(holds(middle.threads@, root));
                assert(root != key);
            }
        }
        Ok(removed.1.metrics)
    }

    /// `middle` is this scheduler once the chain of `key`, if there is one, was unwound.
    pub open spec fn leaves(&self, middle: ThreadScheduler<K>, key: K, now_ns: u64) -> bool {
        &&& (forall|i: int|
            0 <= i < self.donations@.len() ==> (#[trigger] self.donations@[i]).root != key)
            ==> middle == *self
        &&& forall|at: int|
            0 <= at < self.donations@.len() && (#[trigger] self.donations@[at]).root == key
                ==> self.unwinds(middle, at, now_ns)
    }
}

/// Donations that stay keep their tokens and donors apart.
proof fn lemma_without<K: SchedulerKey>(
    before: ThreadScheduler<K>,
    after: ThreadScheduler<K>,
    at: int,
)
    requires
        before.wf(),
        0 <= at < before.donations@.len(),
        after.donations@ == without(before.donations@, at),
        after.config == before.config,
        after.capacity == before.capacity,
        after.next_donation_token == before.next_donation_token,
        after.threads@.len() == before.threads@.len(),
        after.table().wf(),
        budgeted(after.threads@, after.config),
        forall|key: K| #[trigger] holds(after.threads@, key) <==> holds(before.threads@, key),
    ensures
        after.wf(),
{
    let all = before.donations@;
    let rest = after.donations@;
    assert forall|i: int| 0 <= i < rest.len() implies ({
        &&& sound_chain(#[trigger] rest[i], after.config.max_donation_depth)
        &&& rest[i].token.0 < after.next_donation_token
        &&& holds(after.threads@, rest[i].root)
    }) by {
        if i == at {
            assert(rest[i] == all[all.len() - 1]);
        } else {
            assert(rest[i] == all[i]);
        }
    }
    assert forall|i: int, j: int| 0 <= i < j < rest.len() implies (#[trigger] rest[i]).token != (
    #[trigger] rest[j]).token && rest[i].root != rest[j].root by {
        let last = all.len() - 1;
        if i == at {
            assert(rest[i] == all[last] && rest[j] == all[j]);
            assert(all[j].token != all[last].token);
        } else if j == at {
            assert(rest[i] == all[i] && rest[j] == all[last]);
            assert(all[i].token != all[last].token);
        } else {
            assert(rest[i] == all[i] && rest[j] == all[j]);
        }
    }
}

/// Removing a thread keeps a table well formed.
proof fn lemma_removed<K: SchedulerKey>(table: Table<K>, at: int)
    requires
        table.wf(),
        0 <= at < table.threads.len(),
    ensures
        table.removed(at).wf(),
        forall|key: K| #[trigger]
            holds(table.removed(at).threads, key) <==> key != table.threads[at].0 && holds(
                table.threads,
                key,
            ),
{
    let before = table.threads;
    let key = before[at].0;
    let after = table.removed(at);
    before.remove_ensures(at);
    lemma_place(before, at);
    assert forall|i: int, j: int| 0 <= i < j < after.threads.len() implies (
    #[trigger] after.threads[i]).0.rank() < (#[trigger] after.threads[j]).0.rank() by {
        let bi = if i < at {
            i
        } else {
            i + 1
        };
        let bj = if j < at {
            j
        } else {
            j + 1
        };
        assert(after.threads[i] == before[bi]);
        assert(after.threads[j] == before[bj]);
    }
    assert forall|other: K, c: int|
        (#[trigger] queued(after.threads, other, c) <==> other != key && queued(before, other, c))
            && (holds(after.threads, other) <==> other != key && holds(before, other)) by {
        if holds(before, other) && other != key {
            let p = place(before, other);
            assert(before[p].0 == other);
            let q = if p < at {
                p
            } else {
                p - 1
            };
            assert(after.threads[q] == before[p]);
            lemma_place(after.threads, q);
        }
        if holds(after.threads, other) {
            let q = place(after.threads, other);
            assert(after.threads[q].0 == other);
            let p = if q < at {
                q
            } else {
                q + 1
            };
            assert(before[p] == after.threads[q]);
            lemma_place(before, p);
        }
    }
    assert forall|other: K| #[trigger] holds(after.threads, other) <==> other != key && holds(
        before,
        other,
    ) by {
        assert(queued(after.threads, other, 0) <==> other != key && queued(before, other, 0));
    }
    assert forall|c: int| 0 <= c < 5 implies (#[trigger] after.queues[c]).no_duplicates() by {
        lemma_remove_value(table.queues[c], key);
    }
    assert forall|c: int, other: K| 0 <= c < 5 implies (#[trigger] after.queues[c].contains(other)
        <==> queued(after.threads, other, c)) by {
        lemma_remove_value(table.queues[c], key);
        assert(table.queues[c].contains(other) <==> queued(before, other, c));
    }
    assert forall|i: int| 0 <= i < after.threads.len() implies sound(
        (#[trigger] after.threads[i]).1,
    ) by {
        if i < at {
            assert(after.threads[i] == before[i]);
        } else {
            assert(after.threads[i] == before[i + 1]);
        }
    }
}

/// Unwinding a chain leaves every recipient with the class that its base class and the
/// remaining donations give it, and changes no other thread's class.
pub proof fn law_unwinding_restores_classes<K: SchedulerKey>(
    before: ThreadScheduler<K>,
    after: ThreadScheduler<K>,
    at: int,
    now_ns: u64,
    i: int,
)
    requires
        before.wf(),
        0 <= at < before.donations@.len(),
        before.unwinds(after, at, now_ns),
        0 <= i < before.threads@.len(),
    ensures
        after.threads@.len() == before.threads@.len(),
        after.threads@[i].0 == before.threads@[i].0,
        after.threads@[i].1.base_class == before.threads@[i].1.base_class,
        after.threads@[i].1.effective_class == (if before.donations@[at].recipients@.contains(
            before.threads@[i].0,
        ) {
            effective(
                after.donations@,
                before.threads@[i].0,
                before.threads@[i].1.base_class,
            )
        } else {
            before.threads@[i].1.effective_class
        }),
{
    let keys = before.donations@[at].recipients@;
    lemma_maintain_keys(
        before.table(),
        after.donations@,
        before.config,
        keys,
        now_ns,
        keys.len(),
    );
    assert(keys.take(keys.len() as int) =~= keys);
    assert(after.table().threads[i] == after.threads@[i]);
}

/// A thread that used up its budget does not run again until its period is over; then
/// it is ready with a full budget.
pub proof fn law_budget_is_enforced(
    thread: Thread,
    elapsed: u64,
    finished: u64,
    class: SchedulingClass,
    limits: ClassPolicy,
    now: u64,
)
    requires
        limits.usable(),
        elapsed >= thread.budget_remaining_ns,
    ensures
        ({
            let after = charged(thread, elapsed, finished, false);
            let later = maintained(after, class, limits, now);
            &&& after.state == ThreadState::Throttled
            &&& now < capped_sum(thread.period_started_ns, limits.period_ns) ==> later.state
                == ThreadState::Throttled && later.budget_remaining_ns == 0
            &&& now >= capped_sum(thread.period_started_ns, limits.period_ns) ==> later.state
                == ThreadState::Runnable && later.budget_remaining_ns == limits.budget_ns
        }),
{
}

/// A live donation ends within the configured time of its start, and an expired one is
/// gone after maintenance.
pub proof fn law_donations_are_bounded<K: SchedulerKey>(
    scheduler: ThreadScheduler<K>,
    donor: K,
    chain: Seq<K>,
    expires_at_ns: u64,
    now_ns: u64,
    later: u64,
    i: int,
)
    requires
        scheduler.wf(),
        0 <= i < unexpired(scheduler.donations@, later).len(),
    ensures
        scheduler.donation_error(donor, chain, expires_at_ns, now_ns) is None ==> now_ns
            < expires_at_ns <= now_ns + scheduler.config.max_donation_ns && chain.len()
            <= scheduler.config.max_donation_depth,
        unexpired(scheduler.donations@, later)[i].expires_at_ns > later,
{
    broadcast use vstd::seq_lib::group_filter_ensures;

}

} // verus!
