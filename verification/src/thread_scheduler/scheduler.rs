//! The scheduler itself.
use std::collections::VecDeque;

use vstd::prelude::*;

use crate::storage::{reserve_exact, reserve_queue_exact};

use super::policy::{
    Authority, ClassPolicy, ConfigError, OpaqueThreadKey, SchedulerConfig, SchedulerKey,
    SchedulingClass, CLASS_COUNT,
};
use super::table::{
    budgeted, donated_class, effective, holds, law_donation_never_weakens, least, lemma_maintain_at, lemma_maintained_is_sound,
    lemma_place, lemma_push_value, lemma_remove_value, lemma_settle, lookup, maintained, no_metrics,
    place, queued, sorted, sound, woken, DonationChain, Table, Thread, ThreadMetrics, ThreadState,
};

verus! {

/// What a caller may know of a thread.
#[derive(Clone, Copy, Debug, PartialEq, Eq, Structural)]
pub struct ThreadSnapshot {
    pub base_class: SchedulingClass,
    pub effective_class: SchedulingClass,
    pub authority: Authority,
    pub state: ThreadState,
    pub budget_remaining_ns: u64,
    pub next_replenishment_ns: u64,
    pub deadline_ns: Option<u64>,
    pub metrics: ThreadMetrics,
}

/// A thread to run for at most `quantum_ns`.
#[derive(Clone, Copy, Debug, PartialEq, Eq)]
pub struct Dispatch<K> {
    pub key: K,
    pub class: SchedulingClass,
    pub quantum_ns: u64,
}

/// What becomes of a thread that gives the processor back.
#[derive(Clone, Copy, Debug, PartialEq, Eq, Structural)]
pub enum RunDisposition {
    /// It is queued again.
    Runnable,
    /// It stays blocked until it is woken.
    Blocked,
}

/// Why a scheduler operation was refused.
#[derive(Clone, Copy, Debug, PartialEq, Eq, Structural)]
pub enum SchedulerError {
    DuplicateKey,
    CapacityReached,
    UnknownKey,
    UnauthorizedClass(SchedulingClass),
    InvalidState,
}

/// Why a donation was refused.
#[derive(Clone, Copy, Debug, PartialEq, Eq, Structural)]
pub enum DonationError {
    UnknownKey,
    EmptyChain,
    CapacityReached,
    DonorAlreadyDonating,
    ChainTooDeep,
    Cycle,
    Expired,
    DurationTooLong,
    TokenExhausted,
}

/// Why a scheduler could not be made.
#[derive(Clone, Copy, Debug, PartialEq, Eq, Structural)]
pub enum SchedulerInitError {
    InvalidConfig(ConfigError),
    InvalidCapacity,
    OutOfMemory,
}

/// Scheduling policy over bounded storage.
///
/// Running threads are in no queue, so a caller may have more than one
/// outstanding dispatch. Timestamps should not go back; if they do, accounting
/// treats the time between as zero.
pub struct ThreadScheduler<K: SchedulerKey = OpaqueThreadKey> {
    pub config: SchedulerConfig,
    pub capacity: usize,
    pub threads: Vec<(K, Thread)>,
    pub queues: Vec<VecDeque<K>>,
    pub donations: Vec<DonationChain<K>>,
    pub next_donation_token: u64,
}

/// A thread that was just added.
pub open spec fn fresh(
    class: SchedulingClass,
    authority: Authority,
    limits: ClassPolicy,
    now: u64,
) -> Thread {
    Thread {
        base_class: class,
        effective_class: class,
        authority,
        state: ThreadState::Runnable,
        budget_remaining_ns: limits.budget_ns,
        period_started_ns: now,
        runnable_since_ns: Some(now),
        pending_wake_ns: None,
        throttled_since_ns: None,
        deadline_ns: None,
        metrics: no_metrics(),
    }
}

/// The first reason why one of the first `count` recipients cannot take part.
pub open spec fn chain_error<K>(
    threads: Seq<(K, Thread)>,
    donor: K,
    chain: Seq<K>,
    count: nat,
) -> Option<DonationError>
    decreases count,
{
    if count == 0 {
        None
    } else {
        match chain_error(threads, donor, chain, (count - 1) as nat) {
            Some(error) => Some(error),
            None => if chain[count - 1] == donor || chain.take(count - 1).contains(
                chain[count - 1],
            ) {
                Some(DonationError::Cycle)
            } else if !holds(threads, chain[count - 1]) {
                Some(DonationError::UnknownKey)
            } else {
                None
            },
        }
    }
}

/// The first error stays the first error of a longer prefix.
pub(crate) proof fn lemma_chain_error_stays<K>(
    threads: Seq<(K, Thread)>,
    donor: K,
    chain: Seq<K>,
    short: nat,
    long: nat,
)
    requires
        short <= long,
        chain_error(threads, donor, chain, short) is Some,
    ensures
        chain_error(threads, donor, chain, long) == chain_error(threads, donor, chain, short),
    decreases long,
{
    if short < long {
        lemma_chain_error_stays(threads, donor, chain, short, (long - 1) as nat);
    }
}

/// Whether two keys are one.
pub(crate) fn same<K: SchedulerKey>(left: K, right: K) -> (result: bool)
    ensures
        result == (left == right),
{
    let before: bool = left.precedes(&right);
    let after: bool = right.precedes(&left);
    proof {
        if !before && !after {
            K::lemma_rank_identifies(left, right);
        }
    }
    !before && !after
}

/// Whether a key is among `keys`.
pub(crate) fn among<K: SchedulerKey>(keys: &[K], count: usize, key: K) -> (found: bool)
    requires
        count <= keys@.len(),
    ensures
        found == keys@.take(count as int).contains(key),
{
    let mut index: usize = 0;
    while index < count
        invariant
            index <= count <= keys@.len(),
            forall|i: int| 0 <= i < index ==> #[trigger] keys@[i] != key,
        decreases count - index,
    {
        if same(keys[index], key) {
            assert(keys@.take(count as int)[index as int] == key);
            return true;
        }
        index += 1;
    }
    false
}

/// The recipients of a chain are different live threads other than the donor.
pub open spec fn sound_chain<K: SchedulerKey>(chain: DonationChain<K>, depth: usize) -> bool {
    &&& 0 < chain.recipients@.len() <= depth
    &&& chain.recipients@.no_duplicates()
    &&& !chain.recipients@.contains(chain.root)
}

impl<K: SchedulerKey> ThreadScheduler<K> {
    /// Threads and queues.
    pub open spec fn table(&self) -> Table<K> {
        Table {
            threads: self.threads@,
            queues: Seq::new(self.queues@.len(), |c: int| self.queues@[c]@),
        }
    }

    /// The thread with this key.
    pub open spec fn thread_of(&self, key: K) -> Option<Thread> {
        lookup(self.threads@, key)
    }

    /// The configuration is usable, nothing exceeds the capacity, threads and queues
    /// agree, and every donation has its own token and its own live donor.
    pub open spec fn wf(&self) -> bool {
        &&& self.config.problem() is None
        &&& self.threads@.len() <= self.capacity
        &&& self.donations@.len() <= self.capacity
        &&& self.table().wf()
        &&& budgeted(self.threads@, self.config)
        &&& forall|i: int|
            0 <= i < self.donations@.len() ==> {
                &&& sound_chain(#[trigger] self.donations@[i], self.config.max_donation_depth)
                &&& self.donations@[i].token.0 < self.next_donation_token
                &&& holds(self.threads@, self.donations@[i].root)
            }
        &&& forall|i: int, j: int|
            0 <= i < j < self.donations@.len() ==> (#[trigger] self.donations@[i]).token != (
            #[trigger] self.donations@[j]).token && self.donations@[i].root
                != self.donations@[j].root
    }

    /// A scheduler for at most `capacity` threads.
    pub fn try_new(config: SchedulerConfig, capacity: usize) -> (result: Result<
        Self,
        SchedulerInitError,
    >)
        ensures
            match result {
                Ok(scheduler) => {
                    &&& config.problem() is None && capacity > 0
                    &&& scheduler.wf()
                    &&& scheduler.config == config
                    &&& scheduler.capacity == capacity
                    &&& scheduler.threads@.len() == 0
                    &&& scheduler.donations@.len() == 0
                    &&& scheduler.next_donation_token == 1
                },
                Err(error) => match config.problem() {
                    Some(problem) => error == SchedulerInitError::InvalidConfig(problem),
                    None => error == (if capacity == 0 {
                        SchedulerInitError::InvalidCapacity
                    } else {
                        SchedulerInitError::OutOfMemory
                    }),
                },
            },
    {
        match config.validate() {
            Ok(()) => {},
            Err(error) => {
                return Err(SchedulerInitError::InvalidConfig(error));
            },
        }
        if capacity == 0 {
            return Err(SchedulerInitError::InvalidCapacity);
        }
        let mut threads: Vec<(K, Thread)> = Vec::new();
        if !reserve_exact(&mut threads, capacity) {
            return Err(SchedulerInitError::OutOfMemory);
        }
        let mut queues: Vec<VecDeque<K>> = Vec::new();
        let mut index: usize = 0;
        while index < CLASS_COUNT
            invariant
                index <= CLASS_COUNT,
                queues@.len() == index,
                config.problem() is None,
                capacity > 0,
                forall|c: int| 0 <= c < index ==> (#[trigger] queues@[c])@.len() == 0,
            decreases CLASS_COUNT - index,
        {
            let mut queue: VecDeque<K> = VecDeque::new();
            if !reserve_queue_exact(&mut queue, capacity) {
                return Err(SchedulerInitError::OutOfMemory);
            }
            queues.push(queue);
            index += 1;
        }
        let mut donations: Vec<DonationChain<K>> = Vec::new();
        if !reserve_exact(&mut donations, capacity) {
            return Err(SchedulerInitError::OutOfMemory);
        }
        Ok(
            ThreadScheduler {
                config,
                capacity,
                threads,
                queues,
                donations,
                next_donation_token: 1,
            },
        )
    }

    /// A scheduler with the default limits.
    pub fn try_with_default_policy(capacity: usize) -> (result: Result<Self, SchedulerInitError>)
        ensures
            match result {
                Ok(scheduler) => {
                    &&& capacity > 0
                    &&& scheduler.wf()
                    &&& forall|i: int|
                        0 <= i < 5 ==> #[trigger] scheduler.config.classes@[i]
                            == super::policy::default_limits(i)
                    &&& scheduler.config.max_donation_depth
                        == super::policy::DEFAULT_MAX_DONATION_DEPTH
                    &&& scheduler.config.max_donation_ns == super::policy::DEFAULT_MAX_DONATION_NS
                    &&& scheduler.capacity == capacity
                    &&& scheduler.threads@.len() == 0
                    &&& scheduler.donations@.len() == 0
                    &&& scheduler.next_donation_token == 1
                },
                Err(error) => error == (if capacity == 0 {
                    SchedulerInitError::InvalidCapacity
                } else {
                    SchedulerInitError::OutOfMemory
                }),
            },
    {
        Self::try_new(SchedulerConfig::default(), capacity)
    }

    /// Finds a thread, or where it belongs.
    pub(crate) fn thread_index(&self, key: K) -> (result: Result<usize, usize>)
        requires
            sorted(self.threads@),
        ensures
            match result {
                Ok(index) => {
                    &&& index < self.threads@.len()
                    &&& self.threads@[index as int].0 == key
                    &&& holds(self.threads@, key)
                    &&& place(self.threads@, key) == index
                },
                Err(index) => {
                    &&& index <= self.threads@.len()
                    &&& !holds(self.threads@, key)
                    &&& forall|i: int|
                        0 <= i < index ==> (#[trigger] self.threads@[i]).0.rank() < key.rank()
                    &&& forall|i: int|
                        index <= i < self.threads@.len() ==> key.rank() < (
                        #[trigger] self.threads@[i]).0.rank()
                },
            },
    {
        let mut low: usize = 0;
        let mut high: usize = self.threads.len();
        while low < high
            invariant
                low <= high <= self.threads@.len(),
                sorted(self.threads@),
                forall|i: int| 0 <= i < low ==> (#[trigger] self.threads@[i]).0.rank() < key.rank(),
                forall|i: int|
                    high <= i < self.threads@.len() ==> key.rank() < (
                    #[trigger] self.threads@[i]).0.rank(),
            decreases high - low,
        {
            let middle: usize = low + (high - low) / 2;
            let candidate: K = self.threads[middle].0;
            if candidate.precedes(&key) {
                low = middle + 1;
            } else if key.precedes(&candidate) {
                high = middle;
            } else {
                proof {
                    K::lemma_rank_identifies(candidate, key);
                    lemma_place(self.threads@, middle as int);
                }
                return Ok(middle);
            }
        }
        Err(low)
    }

    /// The configuration.
    pub fn config(&self) -> (config: &SchedulerConfig)
        ensures
            *config == self.config,
    {
        &self.config
    }

    /// Number of threads.
    pub fn len(&self) -> (count: usize)
        ensures
            count == self.threads@.len(),
    {
        self.threads.len()
    }

    /// Whether there is no thread.
    pub fn is_empty(&self) -> (empty: bool)
        ensures
            empty == (self.threads@.len() == 0),
    {
        self.threads.len() == 0
    }

    /// Takes a key out of a queue.
    pub(crate) fn remove_from_queue(&mut self, class: SchedulingClass, key: K)
        requires
            old(self).queues@.len() == 5,
            old(self).queues@[class.order()]@.no_duplicates(),
        ensures
            final(self).queues@.len() == 5,
            final(self).table() == old(self).table().dequeue(class, key),
            *final(self) == (ThreadScheduler { queues: final(self).queues, ..*old(self) }),
    {
        let at: usize = class.index();
        let ghost queue = self.queues@[at as int]@;
        proof {
            lemma_remove_value(queue, key);
        }
        let mut index: usize = 0;
        while index < self.queues[at].len()
            invariant
                at == class.order(),
                *self == *old(self),
                self.queues@.len() == 5,
                0 <= at < 5,
                queue == self.queues@[at as int]@,
                index <= queue.len(),
                forall|i: int| 0 <= i < index ==> #[trigger] queue[i] != key,
                forall|i: int|
                    0 <= i < queue.len() && #[trigger] queue[i] == key ==> queue.remove_value(key)
                        == queue.remove(i),
            decreases queue.len() - index,
        {
            if same(self.queues[at][index], key) {
                self.queues[at].remove(index);
                assert(self.table().queues =~= old(self).table().dequeue(class, key).queues);
                return;
            }
            index += 1;
        }
        assert(self.table().queues =~= old(self).table().dequeue(class, key).queues);
    }

    /// Replaces a thread and moves its key between queues as its state asks.
    pub(crate) fn settle(&mut self, index: usize, thread: Thread)
        requires
            old(self).table().wf(),
            index < old(self).threads@.len(),
            sound(thread),
        ensures
            final(self).table().wf(),
            final(self).table() == old(self).table().settle(index as int, thread),
            final(self).threads@ == old(self).threads@.update(
                index as int,
                (old(self).threads@[index as int].0, thread),
            ),
            *final(self) == (ThreadScheduler {
                threads: final(self).threads,
                queues: final(self).queues,
                ..*old(self)
            }),
    {
        let ghost before_table = self.table();
        proof {
            lemma_settle(self.table(), index as int, thread);
        }
        let (key, before): (K, Thread) = self.threads[index];
        let was: bool = before.state == ThreadState::Runnable;
        let is: bool = thread.state == ThreadState::Runnable;
        assert(before_table.queues[before.effective_class.order()].no_duplicates());
        if was && is && before.effective_class == thread.effective_class {
            self.threads[index] = (key, thread);
            assert(self.table() =~= before_table.settle(index as int, thread));
        } else {
            if was {
                self.remove_from_queue(before.effective_class, key);
            }
            let ghost left = self.table();
            self.threads[index] = (key, thread);
            let ghost replaced = self.table();
            assert(replaced =~= left.with(index as int, thread));
            if is {
                let at: usize = thread.effective_class.index();
                self.queues[at].push_back(key);
                assert(self.table() =~= replaced.enqueue(thread.effective_class, key));
            }
            assert(self.table() =~= before_table.settle(index as int, thread));
        }
    }

    /// `after` and `result` are what adding a thread makes of this scheduler.
    pub open spec fn adds(
        self,
        after: ThreadScheduler<K>,
        key: K,
        base_class: SchedulingClass,
        authority: Authority,
        now_ns: u64,
        result: Result<(), SchedulerError>,
    ) -> bool {
        &&& if holds(self.threads@, key) {
            result == Err::<(), SchedulerError>(SchedulerError::DuplicateKey)
        } else if self.threads@.len() == self.capacity {
            result == Err::<(), SchedulerError>(SchedulerError::CapacityReached)
        } else if !authority.permits(base_class) {
            result == Err::<(), SchedulerError>(SchedulerError::UnauthorizedClass(base_class))
        } else {
            result == Ok::<(), SchedulerError>(())
        }
        &&& match result {
            Err(_) => after == self,
            Ok(()) => {
                let limits = self.config.limits(base_class);
                &&& exists|at: int|
                    0 <= at <= self.threads@.len() && after.threads@
                        == #[trigger] self.threads@.insert(
                        at,
                        (key, fresh(base_class, authority, limits, now_ns)),
                    )
                &&& after.table().queues == self.table().enqueue(
                    base_class,
                    key,
                ).queues
                &&& after == (ThreadScheduler {
                    threads: after.threads,
                    queues: after.queues,
                    ..self
                })
            },
        }
    }

    /// Adds a thread, ready to run, in a class that its authority permits.
    pub fn add_thread(
        &mut self,
        key: K,
        base_class: SchedulingClass,
        authority: Authority,
        now_ns: u64,
    ) -> (result: Result<(), SchedulerError>)
        requires
            old(self).wf(),
        ensures
            final(self).wf(),
            old(self).adds(*final(self), key, base_class, authority, now_ns, result),
    {
        let insertion: usize = match self.thread_index(key) {
            Ok(_) => {
                return Err(SchedulerError::DuplicateKey);
            },
            Err(insertion) => insertion,
        };
        if self.threads.len() == self.capacity {
            return Err(SchedulerError::CapacityReached);
        }
        if !authority.allows(base_class) {
            return Err(SchedulerError::UnauthorizedClass(base_class));
        }
        let policy: ClassPolicy = self.policy(base_class);
        assert(self.config.classes@[base_class.order()].usable());
        let thread = Thread {
            base_class,
            effective_class: base_class,
            authority,
            state: ThreadState::Runnable,
            budget_remaining_ns: policy.budget_ns,
            period_started_ns: now_ns,
            runnable_since_ns: Some(now_ns),
            pending_wake_ns: None,
            throttled_since_ns: None,
            deadline_ns: None,
            metrics: ThreadMetrics::default(),
        };
        let ghost before = self.table();
        self.threads.insert(insertion, (key, thread));
        let at: usize = base_class.index();
        self.queues[at].push_back(key);
        proof {
            assert(self.table().queues =~= before.enqueue(base_class, key).queues);
            lemma_insert(before, insertion as int, key, thread);
            assert(self.table() =~= before.inserted(insertion as int, key, thread));
            assert forall|i: int| 0 <= i < self.donations@.len() implies holds(
                self.threads@,
                (#[trigger] self.donations@[i]).root,
            ) by {
                let root = self.donations@[i].root;
                let p = place(before.threads, root);
                if p < insertion {
                    assert(self.threads@[p].0 == root);
                } else {
                    assert(self.threads@[p + 1].0 == root);
                }
            }
            assert(self.threads@ == old(self).threads@.insert(
                insertion as int,
                (key, fresh(base_class, authority, policy, now_ns)),
            ));
        }
        Ok(())
    }

    /// The limits of a class.
    pub(crate) fn policy(&self, class: SchedulingClass) -> (policy: ClassPolicy)
        ensures
            policy == self.config.limits(class),
    {
        self.config.classes[class.index()]
    }

    /// What is known of a thread.
    pub fn snapshot(&self, key: K) -> (snapshot: Option<ThreadSnapshot>)
        requires
            self.wf(),
        ensures
            snapshot == (match self.thread_of(key) {
                None => None,
                Some(thread) => Some(
                    ThreadSnapshot {
                        base_class: thread.base_class,
                        effective_class: thread.effective_class,
                        authority: thread.authority,
                        state: thread.state,
                        budget_remaining_ns: thread.budget_remaining_ns,
                        next_replenishment_ns: super::table::capped_sum(
                            thread.period_started_ns,
                            self.config.limits(thread.effective_class).period_ns,
                        ),
                        deadline_ns: thread.deadline_ns,
                        metrics: thread.metrics,
                    },
                ),
            }),
    {
        match self.thread_index(key) {
            Err(_) => None,
            Ok(index) => {
                let thread: Thread = self.threads[index].1;
                let policy: ClassPolicy = self.policy(thread.effective_class);
                Some(
                    ThreadSnapshot {
                        base_class: thread.base_class,
                        effective_class: thread.effective_class,
                        authority: thread.authority,
                        state: thread.state,
                        budget_remaining_ns: thread.budget_remaining_ns,
                        next_replenishment_ns: thread.period_started_ns.saturating_add(
                            policy.period_ns,
                        ),
                        deadline_ns: thread.deadline_ns,
                        metrics: thread.metrics,
                    },
                )
            },
        }
    }

    /// The class of a key under the donations.
    fn effective_class_for(&self, key: K, base_class: SchedulingClass) -> (class: SchedulingClass)
        ensures
            class == effective(self.donations@, key, base_class),
    {
        let mut class: SchedulingClass = base_class;
        let mut index: usize = 0;
        while index < self.donations.len()
            invariant
                index <= self.donations@.len(),
                class == donated_class(self.donations@, key, base_class, index as nat),
            decreases self.donations@.len() - index,
        {
            let donation: &DonationChain<K> = &self.donations[index];
            let found: bool = among(donation.recipients.as_slice(), donation.recipients.len(), key);
            assert(donation.recipients@.take(donation.recipients@.len() as int)
                =~= donation.recipients@);
            if found {
                class = class.higher(donation.class);
            }
            index += 1;
        }
        class
    }

    /// Brings a thread up to `now_ns`: its class, its period and its budget.
    pub(crate) fn maintain_at(&mut self, index: usize, now_ns: u64)
        requires
            old(self).config.problem() is None,
            old(self).table().wf(),
            index < old(self).threads@.len(),
        ensures
            final(self).table().wf(),
            final(self).table() == old(self).table().maintain_at(
                old(self).donations@,
                old(self).config,
                index as int,
                now_ns,
            ),
            *final(self) == (ThreadScheduler {
                threads: final(self).threads,
                queues: final(self).queues,
                ..*old(self)
            }),
    {
        let (key, before): (K, Thread) = self.threads[index];
        let class: SchedulingClass = self.effective_class_for(key, before.base_class);
        let policy: ClassPolicy = self.policy(class);
        proof {
            assert(self.config.classes@[class.order()].usable());
            assert(sound(self.table().threads[index as int].1));
            law_donation_never_weakens(
                self.donations@,
                key,
                before.base_class,
                self.donations@.len(),
            );
            lemma_maintained_is_sound(before, class, policy, now_ns);
        }
        let mut thread: Thread = before;
        thread.effective_class = class;
        let period_end: u64 = thread.period_started_ns.saturating_add(policy.period_ns);
        if now_ns >= period_end {
            let elapsed: u64 = now_ns.saturating_sub(thread.period_started_ns);
            let periods: u64 = elapsed / policy.period_ns;
            proof {
                vstd::arithmetic::div_mod::lemma_fundamental_div_mod(
                    elapsed as int,
                    policy.period_ns as int,
                );
                vstd::arithmetic::mul::lemma_mul_is_commutative(
                    policy.period_ns as int,
                    periods as int,
                );
                assert(periods * policy.period_ns >= 0) by (nonlinear_arith);
            }
            thread.period_started_ns = thread.period_started_ns + periods * policy.period_ns;
            thread.budget_remaining_ns = policy.budget_ns;
            if thread.state == ThreadState::Throttled {
                if let Some(since) = thread.throttled_since_ns {
                    thread.metrics.throttled_time_ns = thread.metrics.throttled_time_ns.saturating_add(
                        now_ns.saturating_sub(since),
                    );
                }
                thread.throttled_since_ns = None;
                thread.state = ThreadState::Runnable;
                if thread.runnable_since_ns.is_none() {
                    thread.runnable_since_ns = Some(now_ns);
                }
            }
        } else if thread.budget_remaining_ns > policy.budget_ns {
            thread.budget_remaining_ns = policy.budget_ns;
        }
        assert(thread == maintained(before, class, policy, now_ns));
        self.settle(index, thread);
    }

    /// Brings the thread with this key up to `now_ns`, if there is one.
    pub(crate) fn maintain_thread(&mut self, key: K, now_ns: u64) -> (result: Result<usize, SchedulerError>)
        requires
            old(self).config.problem() is None,
            old(self).table().wf(),
        ensures
            final(self).table().wf(),
            result == (if holds(old(self).threads@, key) {
                Ok(place(old(self).threads@, key) as usize)
            } else {
                Err(SchedulerError::UnknownKey)
            }),
            holds(old(self).threads@, key) ==> 0 <= place(old(self).threads@, key) < old(
                self,
            ).threads@.len() && old(self).threads@[place(old(self).threads@, key)].0 == key,
            final(self).table() == old(self).table().maintain_key(
                old(self).donations@,
                old(self).config,
                key,
                now_ns,
            ),
            *final(self) == (ThreadScheduler {
                threads: final(self).threads,
                queues: final(self).queues,
                ..*old(self)
            }),
    {
        match self.thread_index(key) {
            Err(_) => Err(SchedulerError::UnknownKey),
            Ok(index) => {
                self.maintain_at(index, now_ns);
                Ok(index)
            },
        }
    }

    /// `after` and `result` are what setting the class of a thread makes of this scheduler.
    pub open spec fn reclasses(
        self,
        after: ThreadScheduler<K>,
        key: K,
        class: SchedulingClass,
        now_ns: u64,
        result: Result<(), SchedulerError>,
    ) -> bool {
        &&& after == (ThreadScheduler {
            threads: after.threads,
            queues: after.queues,
            ..self
        })
        &&& match self.thread_of(key) {
            None => result == Err::<(), SchedulerError>(SchedulerError::UnknownKey)
                && after.table() == self.table(),
            Some(before) => {
                let at = place(self.threads@, key);
                let current = self.table().maintain_at(
                    self.donations@,
                    self.config,
                    at,
                    now_ns,
                );
                if !before.authority.permits(class) {
                    &&& result == Err::<(), SchedulerError>(
                        SchedulerError::UnauthorizedClass(class),
                    )
                    &&& after.table() == current
                } else {
                    let new_class = effective(self.donations@, key, class);
                    &&& result == Ok::<(), SchedulerError>(())
                    &&& after.table() == current.settle(
                        at,
                        Thread {
                            base_class: class,
                            effective_class: new_class,
                            budget_remaining_ns: least(
                                current.threads[at].1.budget_remaining_ns,
                                self.config.limits(new_class).budget_ns,
                            ),
                            ..current.threads[at].1
                        },
                    )
                }
            },
        }
    }

    /// Sets the base class of a thread, as its authority permits.
    pub fn set_base_class(&mut self, key: K, class: SchedulingClass, now_ns: u64) -> (result:
        Result<(), SchedulerError>)
        requires
            old(self).wf(),
        ensures
            final(self).wf(),
            old(self).reclasses(*final(self), key, class, now_ns, result),
    {
        let index: usize = match self.maintain_thread(key, now_ns) {
            Err(error) => {
                return Err(error);
            },
            Ok(index) => index,
        };
        proof {
            lemma_maintain_at(
                old(self).table(),
                old(self).donations@,
                old(self).config,
                index as int,
                now_ns,
            );
            lemma_same_keys(old(self).threads@, self.threads@);
        }
        let mut thread: Thread = self.threads[index].1;
        if !thread.authority.allows(class) {
            return Err(SchedulerError::UnauthorizedClass(class));
        }
        let new_class: SchedulingClass = self.effective_class_for(key, class);
        let policy: ClassPolicy = self.policy(new_class);
        proof {
            assert(self.config.classes@[new_class.order()].usable());
            assert(sound(self.table().threads[index as int].1));
            law_donation_never_weakens(self.donations@, key, class, self.donations@.len());
        }
        thread.base_class = class;
        thread.effective_class = new_class;
        if thread.budget_remaining_ns > policy.budget_ns {
            thread.budget_remaining_ns = policy.budget_ns;
        }
        let ghost current = self.threads@;
        self.settle(index, thread);
        proof {
            lemma_same_keys(current, self.threads@);
        }
        Ok(())
    }

    /// Replaces a thread without touching its state or class.
    fn replace(&mut self, index: usize, thread: Thread)
        requires
            old(self).wf(),
            index < old(self).threads@.len(),
            sound(thread),
            thread.budget_remaining_ns == old(self).threads@[index as int].1.budget_remaining_ns,
            thread.state == old(self).threads@[index as int].1.state,
            thread.effective_class == old(self).threads@[index as int].1.effective_class,
        ensures
            final(self).wf(),
            final(self).threads@ == old(self).threads@.update(
                index as int,
                (old(self).threads@[index as int].0, thread),
            ),
            final(self).table().queues == old(self).table().queues,
            *final(self) == (ThreadScheduler {
                threads: final(self).threads,
                queues: final(self).queues,
                ..*old(self)
            }),
    {
        self.settle(index, thread);
        proof {
            lemma_same_keys(old(self).threads@, self.threads@);
        }
    }

    /// Sets the deadline of a thread.
    pub fn set_deadline(&mut self, key: K, deadline_ns: u64) -> (result: Result<
        (),
        SchedulerError,
    >)
        requires
            old(self).wf(),
        ensures
            final(self).wf(),
            old(self).changes_thread(
                *final(self),
                result,
                key,
                |thread: Thread| Thread { deadline_ns: Some(deadline_ns), ..thread },
            ),
    {
        match self.thread_index(key) {
            Err(_) => Err(SchedulerError::UnknownKey),
            Ok(index) => {
                let mut thread: Thread = self.threads[index].1;
                assert(sound(self.table().threads[index as int].1));
                thread.deadline_ns = Some(deadline_ns);
                self.replace(index, thread);
                Ok(())
            },
        }
    }

    /// Clears the deadline of a thread.
    pub fn clear_deadline(&mut self, key: K) -> (result: Result<(), SchedulerError>)
        requires
            old(self).wf(),
        ensures
            final(self).wf(),
            old(self).changes_thread(
                *final(self),
                result,
                key,
                |thread: Thread| Thread { deadline_ns: None, ..thread },
            ),
    {
        match self.thread_index(key) {
            Err(_) => Err(SchedulerError::UnknownKey),
            Ok(index) => {
                let mut thread: Thread = self.threads[index].1;
                assert(sound(self.table().threads[index as int].1));
                thread.deadline_ns = None;
                self.replace(index, thread);
                Ok(())
            },
        }
    }

    /// Counts a missed deadline of a thread.
    pub fn record_deadline_miss(&mut self, key: K) -> (result: Result<(), SchedulerError>)
        requires
            old(self).wf(),
        ensures
            final(self).wf(),
            old(self).changes_thread(
                *final(self),
                result,
                key,
                |thread: Thread|
                    Thread {
                        metrics: ThreadMetrics {
                            deadline_misses: super::table::capped_sum(
                                thread.metrics.deadline_misses,
                                1,
                            ),
                            ..thread.metrics
                        },
                        ..thread
                    },
            ),
    {
        match self.thread_index(key) {
            Err(_) => Err(SchedulerError::UnknownKey),
            Ok(index) => {
                let mut thread: Thread = self.threads[index].1;
                assert(sound(self.table().threads[index as int].1));
                thread.metrics.deadline_misses = thread.metrics.deadline_misses.saturating_add(1);
                self.replace(index, thread);
                Ok(())
            },
        }
    }

    /// Only the thread with this key changes, by `change`; without one nothing does.
    pub open spec fn changes_thread(
        &self,
        after: ThreadScheduler<K>,
        result: Result<(), SchedulerError>,
        key: K,
        change: spec_fn(Thread) -> Thread,
    ) -> bool {
        match self.thread_of(key) {
            None => result == Err::<(), SchedulerError>(SchedulerError::UnknownKey) && after
                == *self,
            Some(thread) => {
                &&& result == Ok::<(), SchedulerError>(())
                &&& after.threads@ == self.threads@.update(
                    place(self.threads@, key),
                    (key, change(thread)),
                )
                &&& after.table().queues == self.table().queues
                &&& after == (ThreadScheduler {
                    threads: after.threads,
                    queues: after.queues,
                    ..*self
                })
            },
        }
    }

    /// `after` and `result` are what blocking a thread makes of this scheduler.
    pub open spec fn blocks(
        self,
        after: ThreadScheduler<K>,
        key: K,
        result: Result<(), SchedulerError>,
    ) -> bool {
        &&& after == (ThreadScheduler {
            threads: after.threads,
            queues: after.queues,
            ..self
        })
        &&& match self.thread_of(key) {
            None => result == Err::<(), SchedulerError>(SchedulerError::UnknownKey)
                && after.table() == self.table(),
            Some(thread) => if thread.state == ThreadState::Runnable || thread.state
                == ThreadState::Running {
                &&& result == Ok::<(), SchedulerError>(())
                &&& after.table() == self.table().settle(
                    place(self.threads@, key),
                    Thread { state: ThreadState::Blocked, runnable_since_ns: None, ..thread },
                )
            } else {
                &&& result == Err::<(), SchedulerError>(SchedulerError::InvalidState)
                &&& after.table() == self.table()
            },
        }
    }

    /// Blocks a thread that is ready or running.
    pub fn block(&mut self, key: K) -> (result: Result<(), SchedulerError>)
        requires
            old(self).wf(),
        ensures
            final(self).wf(),
            old(self).blocks(*final(self), key, result),
    {
        let index: usize = match self.thread_index(key) {
            Err(_) => {
                return Err(SchedulerError::UnknownKey);
            },
            Ok(index) => index,
        };
        let mut thread: Thread = self.threads[index].1;
        if thread.state != ThreadState::Runnable && thread.state != ThreadState::Running {
            return Err(SchedulerError::InvalidState);
        }
        assert(sound(self.table().threads[index as int].1));
        thread.state = ThreadState::Blocked;
        thread.runnable_since_ns = None;
        self.settle(index, thread);
        proof {
            lemma_same_keys(old(self).threads@, self.threads@);
        }
        Ok(())
    }

    /// `after` and `result` are what waking a thread makes of this scheduler.
    pub open spec fn wakes(
        self,
        after: ThreadScheduler<K>,
        key: K,
        now_ns: u64,
        result: Result<(), SchedulerError>,
    ) -> bool {
        &&& after == (ThreadScheduler {
            threads: after.threads,
            queues: after.queues,
            ..self
        })
        &&& match self.thread_of(key) {
            None => result == Err::<(), SchedulerError>(SchedulerError::UnknownKey)
                && after.table() == self.table(),
            Some(before) => {
                let at = place(self.threads@, key);
                let current = self.table().maintain_at(
                    self.donations@,
                    self.config,
                    at,
                    now_ns,
                );
                if before.state == ThreadState::Blocked {
                    &&& result == Ok::<(), SchedulerError>(())
                    &&& after.table() == current.settle(
                        at,
                        woken(current.threads[at].1, now_ns),
                    )
                } else {
                    &&& result == Err::<(), SchedulerError>(SchedulerError::InvalidState)
                    &&& after.table() == current
                }
            },
        }
    }

    /// Wakes a blocked thread; without budget it is throttled until it has some.
    pub fn wake(&mut self, key: K, now_ns: u64) -> (result: Result<(), SchedulerError>)
        requires
            old(self).wf(),
        ensures
            final(self).wf(),
            old(self).wakes(*final(self), key, now_ns, result),
    {
        let index: usize = match self.maintain_thread(key, now_ns) {
            Err(error) => {
                return Err(error);
            },
            Ok(index) => index,
        };
        proof {
            lemma_maintain_at(
                old(self).table(),
                old(self).donations@,
                old(self).config,
                index as int,
                now_ns,
            );
            lemma_same_keys(old(self).threads@, self.threads@);
        }
        let mut thread: Thread = self.threads[index].1;
        if thread.state != ThreadState::Blocked {
            return Err(SchedulerError::InvalidState);
        }
        assert(sound(self.table().threads[index as int].1));
        thread.pending_wake_ns = Some(now_ns);
        thread.runnable_since_ns = Some(now_ns);
        if thread.budget_remaining_ns == 0 {
            thread.state = ThreadState::Throttled;
            if thread.throttled_since_ns.is_none() {
                thread.throttled_since_ns = Some(now_ns);
            }
        } else {
            thread.state = ThreadState::Runnable;
        }
        let ghost current = self.threads@;
        self.settle(index, thread);
        proof {
            lemma_same_keys(current, self.threads@);
        }
        Ok(())
    }
}

/// Threads keep their keys where they stand.
pub(crate) proof fn lemma_same_keys<K: SchedulerKey>(before: Seq<(K, Thread)>, after: Seq<(K, Thread)>)
    requires
        sorted(before),
        before.len() == after.len(),
        forall|i: int| 0 <= i < before.len() ==> (#[trigger] after[i]).0 == before[i].0,
    ensures
        sorted(after),
        forall|key: K| #[trigger] holds(after, key) <==> holds(before, key),
        forall|key: K| #[trigger] holds(before, key) ==> place(after, key) == place(before, key),
{
    assert forall|i: int, j: int| 0 <= i < j < after.len() implies (#[trigger] after[i]).0.rank()
        < (#[trigger] after[j]).0.rank() by {
        assert(before[i].0.rank() < before[j].0.rank());
    }
    assert forall|key: K| #[trigger] holds(after, key) <==> holds(before, key) by {
        if holds(after, key) {
            let p = place(after, key);
            assert(after[p].0 == key);
            assert(before[p].0 == key);
        }
        if holds(before, key) {
            let p = place(before, key);
            assert(before[p].0 == key);
            assert(after[p].0 == key);
        }
    }
    assert forall|key: K| #[trigger] holds(before, key) implies place(after, key) == place(
        before,
        key,
    ) by {
        let p = place(before, key);
        assert(before[p].0 == key);
        assert(after[p].0 == key);
        lemma_place(after, p);
    }
}

impl<K: SchedulerKey> Table<K> {
    /// The table with one more ready thread.
    pub open spec fn inserted(self, at: int, key: K, thread: Thread) -> Table<K> {
        Table {
            threads: self.threads.insert(at, (key, thread)),
            queues: self.enqueue(thread.effective_class, key).queues,
        }
    }

    /// The table without the thread at `at`.
    pub open spec fn removed(self, at: int) -> Table<K> {
        Table {
            threads: self.threads.remove(at),
            queues: Seq::new(
                self.queues.len(),
                |c: int| self.queues[c].remove_value(self.threads[at].0),
            ),
        }
    }
}

/// Adding a ready thread keeps a table well formed.
proof fn lemma_insert<K: SchedulerKey>(table: Table<K>, at: int, key: K, thread: Thread)
    requires
        table.wf(),
        0 <= at <= table.threads.len(),
        !holds(table.threads, key),
        sound(thread),
        thread.state == ThreadState::Runnable,
        forall|i: int| 0 <= i < at ==> (#[trigger] table.threads[i]).0.rank() < key.rank(),
        forall|i: int|
            at <= i < table.threads.len() ==> key.rank() < (#[trigger] table.threads[i]).0.rank(),
    ensures
        table.inserted(at, key, thread).wf(),
{
    let after = table.inserted(at, key, thread);
    let before = table.threads;
    before.insert_ensures(at, (key, thread));
    assert forall|i: int, j: int| 0 <= i < j < after.threads.len() implies (
    #[trigger] after.threads[i]).0.rank() < (#[trigger] after.threads[j]).0.rank() by {
        let bi = if i < at {
            i
        } else {
            i - 1
        };
        let bj = if j < at {
            j
        } else {
            j - 1
        };
        if i != at {
            assert(after.threads[i] == before[bi]);
        }
        if j != at {
            assert(after.threads[j] == before[bj]);
        }
    }
    assert(after.threads[at] == (key, thread));
    lemma_place(after.threads, at);
    assert forall|other: K, c: int| other != key implies (#[trigger] queued(after.threads, other, c)
        <==> queued(before, other, c)) by {
        if holds(before, other) {
            let p = place(before, other);
            assert(before[p].0 == other);
            let q = if p < at {
                p
            } else {
                p + 1
            };
            assert(after.threads[q] == before[p]);
            lemma_place(after.threads, q);
        }
        if holds(after.threads, other) {
            let q = place(after.threads, other);
            assert(after.threads[q].0 == other);
            let p = if q < at {
                q
            } else {
                q - 1
            };
            assert(before[p] == after.threads[q]);
            lemma_place(before, p);
        }
    }
    let order = thread.effective_class.order();
    assert(!table.queues[order].contains(key));
    lemma_push_value(table.queues[order], key);
    assert forall|c: int, other: K| 0 <= c < 5 implies (#[trigger] after.queues[c].contains(other)
        <==> queued(after.threads, other, c)) by {
        assert(table.queues[c].contains(other) <==> queued(before, other, c));
        assert(queued(after.threads, other, c) <==> (if other == key {
            c == order
        } else {
            queued(before, other, c)
        }));
    }
    assert forall|i: int| 0 <= i < after.threads.len() implies sound(
        (#[trigger] after.threads[i]).1,
    ) by {
        if i < at {
            assert(after.threads[i] == before[i]);
        } else if i > at {
            assert(after.threads[i] == before[i - 1]);
        }
    }
}

} // verus!
