//! What a caller sees of runs, waits and donations.
use vstd::prelude::*;

use super::policy::{default_limits, Authority, ClassPolicy, SchedulerConfig, SchedulerKey, SchedulingClass};
use super::scheduler::{
    Dispatch, DonationError, RunDisposition, SchedulerError, ThreadScheduler,
};
use super::table::{
    charged, dispatched, effective, holds, law_choice_has_work, lemma_maintain_at,
    lemma_maintain_first, lemma_maintain_keys, lemma_place, lemma_settle, lemma_with, lookup,
    law_donation_never_weakens, maintained, place, sound, woken, DonationToken, Table, Thread,
    ThreadState,
};

verus! {

/// Settling a thread changes that thread and no other.
proof fn lemma_settled_alone<K: SchedulerKey>(table: Table<K>, key: K, thread: Thread)
    requires
        table.wf(),
        holds(table.threads, key),
        sound(thread),
    ensures
        ({
            let after = table.settle(place(table.threads, key), thread);
            &&& after.wf()
            &&& lookup(after.threads, key) == Some(thread)
            &&& forall|other: K|
                other != key ==> #[trigger] lookup(after.threads, other) == lookup(
                    table.threads,
                    other,
                )
        }),
{
    let at = place(table.threads, key);
    assert(table.threads[at].0 == key);
    lemma_settle(table, at, thread);
    lemma_with(table.threads, at, thread);
    let after = table.settle(at, thread);
    assert(holds(after.threads, key) <==> holds(table.threads, key));
    assert forall|other: K| other != key implies #[trigger] lookup(after.threads, other) == lookup(
        table.threads,
        other,
    ) by {
        if holds(table.threads, other) {
            assert(holds(after.threads, other));
            assert(table.threads[place(table.threads, other)].0 == other);
        } else {
            assert(!holds(after.threads, other));
        }
    }
}

/// Whichever way a running thread gives the processor back, the time that it ran is taken off
/// its budget, down to nothing, and added to its processor time; a thread that blocks stays
/// blocked, and one that stays ready runs again only while it has budget. No other thread is
/// touched.
pub proof fn law_runs_are_charged_however_they_end<K: SchedulerKey>(
    before: ThreadScheduler<K>,
    after: ThreadScheduler<K>,
    key: K,
    elapsed_ns: u64,
    now_ns: u64,
    disposition: RunDisposition,
)
    requires
        before.wf(),
        before.finishes(
            after,
            key,
            elapsed_ns,
            now_ns,
            disposition,
            Ok::<(), SchedulerError>(()),
        ),
    ensures
        ({
            &&& before.thread_of(key) matches Some(ran)
            &&& after.thread_of(key) matches Some(left)
            &&& ran.state == ThreadState::Running
            &&& left.budget_remaining_ns == if elapsed_ns < ran.budget_remaining_ns {
                ran.budget_remaining_ns - elapsed_ns
            } else {
                0
            }
            &&& left.metrics.cpu_time_ns == if ran.metrics.cpu_time_ns + elapsed_ns <= u64::MAX {
                ran.metrics.cpu_time_ns + elapsed_ns
            } else {
                u64::MAX as int
            }
            &&& left.state == (if disposition == RunDisposition::Blocked {
                ThreadState::Blocked
            } else if elapsed_ns < ran.budget_remaining_ns {
                ThreadState::Runnable
            } else {
                ThreadState::Throttled
            })
            &&& left.base_class == ran.base_class
            &&& left.effective_class == ran.effective_class
            &&& left.authority == ran.authority
            &&& left.period_started_ns == ran.period_started_ns
            &&& left.deadline_ns == ran.deadline_ns
            &&& left.pending_wake_ns == ran.pending_wake_ns
            &&& left.runnable_since_ns == (if disposition == RunDisposition::Blocked {
                None
            } else {
                Some(now_ns)
            })
            &&& left.metrics.throttling_events == ran.metrics.throttling_events + (if left.state
                == ThreadState::Throttled && ran.metrics.throttling_events < u64::MAX {
                1int
            } else {
                0
            })
            &&& forall|other: K|
                other != key ==> #[trigger] after.thread_of(other) == before.thread_of(other)
        }),
{
    let ran = before.thread_of(key)->Some_0;
    let left = charged(ran, elapsed_ns, now_ns, disposition == RunDisposition::Blocked);
    assert(before.table().threads[place(before.threads@, key)].0 == key);
    assert(sound(before.table().threads[place(before.threads@, key)].1));
    lemma_settled_alone(before.table(), key, left);
    assert(after.table().threads == after.threads@);
    assert forall|other: K| other != key implies #[trigger] after.thread_of(other)
        == before.thread_of(other) by {
        assert(lookup(after.table().threads, other) == lookup(before.table().threads, other));
    }
}

/// Two runs are charged as one run of their times together.
pub proof fn law_charges_add_up(
    thread: Thread,
    first: u64,
    second: u64,
    middle: u64,
    now: u64,
    blocks: bool,
    blocked: bool,
)
    requires
        first + second <= u64::MAX,
        thread.metrics.cpu_time_ns + first + second <= u64::MAX,
    ensures
        ({
            let once = charged(thread, (first + second) as u64, now, blocked);
            let twice = charged(charged(thread, first, middle, blocks), second, now, blocked);
            &&& twice.budget_remaining_ns == once.budget_remaining_ns
            &&& twice.metrics.cpu_time_ns == once.metrics.cpu_time_ns
            &&& twice.state == once.state
        }),
{
}

/// Blocking does not evade the budget: a thread that ran for at least its budget, then blocked,
/// and is woken before its period ends is throttled, with no budget; woken later, it is ready
/// with a full one.
pub proof fn law_blocking_does_not_evade_the_budget<K: SchedulerKey>(
    before: ThreadScheduler<K>,
    asleep: ThreadScheduler<K>,
    after: ThreadScheduler<K>,
    key: K,
    elapsed_ns: u64,
    finished_ns: u64,
    now_ns: u64,
)
    requires
        before.wf(),
        asleep.wf(),
        before.finishes(
            asleep,
            key,
            elapsed_ns,
            finished_ns,
            RunDisposition::Blocked,
            Ok::<(), SchedulerError>(()),
        ),
        asleep.wakes(after, key, now_ns, Ok::<(), SchedulerError>(())),
        elapsed_ns >= before.thread_of(key)->Some_0.budget_remaining_ns,
    ensures
        ({
            let ran = before.thread_of(key)->Some_0;
            &&& asleep.thread_of(key) matches Some(left) && left.budget_remaining_ns == 0
                && left.state == ThreadState::Blocked
            &&& after.thread_of(key) matches Some(woken)
            &&& {
                let limits = before.config.classes@[woken.effective_class.order()];
                let ends = ran.period_started_ns + limits.period_ns;
                &&& now_ns < ends && ends <= u64::MAX ==> woken.state == ThreadState::Throttled
                    && woken.budget_remaining_ns == 0
                &&& now_ns >= ends ==> woken.state == ThreadState::Runnable
                    && woken.budget_remaining_ns == limits.budget_ns
            }
        }),
{
    law_runs_are_charged_however_they_end(
        before,
        asleep,
        key,
        elapsed_ns,
        finished_ns,
        RunDisposition::Blocked,
    );
    law_wakes_give_what_the_budget_allows(asleep, after, key, now_ns);
}

/// A blocked thread that is woken is ready if its budget allows it, and throttled else; its
/// budget is what was left of it, or a full one where its period is over. It counts as woken
/// now, keeps its class, and no other thread is touched.
pub proof fn law_wakes_give_what_the_budget_allows<K: SchedulerKey>(
    before: ThreadScheduler<K>,
    after: ThreadScheduler<K>,
    key: K,
    now_ns: u64,
)
    requires
        before.wf(),
        before.wakes(after, key, now_ns, Ok::<(), SchedulerError>(())),
    ensures
        ({
            &&& before.thread_of(key) matches Some(slept)
            &&& after.thread_of(key) matches Some(woken)
            &&& slept.state == ThreadState::Blocked
            &&& woken.base_class == slept.base_class
            &&& woken.authority == slept.authority
            &&& woken.pending_wake_ns == Some(now_ns)
            &&& woken.runnable_since_ns == Some(now_ns)
            &&& woken.deadline_ns == slept.deadline_ns
            &&& woken.metrics == slept.metrics
            &&& {
                let limits = before.config.classes@[woken.effective_class.order()];
                let ends = slept.period_started_ns + limits.period_ns;
                let over = now_ns >= ends || now_ns == u64::MAX;
                &&& woken.budget_remaining_ns == (if over {
                    limits.budget_ns
                } else if slept.budget_remaining_ns < limits.budget_ns {
                    slept.budget_remaining_ns
                } else {
                    limits.budget_ns
                })
                &&& woken.state == (if woken.budget_remaining_ns > 0 {
                    ThreadState::Runnable
                } else {
                    ThreadState::Throttled
                })
                &&& woken.state == ThreadState::Runnable ==> after.table().queues[
                    woken.effective_class.order()
                ].contains(key)
            }
            &&& forall|other: K|
                other != key ==> #[trigger] after.thread_of(other) == before.thread_of(other)
        }),
{
    let at = place(before.threads@, key);
    assert(before.table().threads[at].0 == key);
    let slept = before.thread_of(key)->Some_0;
    let current = before.table().maintain_at(before.donations@, before.config, at, now_ns);
    lemma_maintain_at(before.table(), before.donations@, before.config, at, now_ns);
    let class = effective(before.donations@, key, slept.base_class);
    assert(before.config.classes@[class.order()].usable());
    let ready = maintained(slept, class, before.config.limits(class), now_ns);
    assert(current.threads[at] == (key, ready));
    lemma_place(current.threads, at);
    assert(sound(current.threads[at].1));
    let awake = woken(ready, now_ns);
    lemma_settled_alone(current, key, awake);
    assert(after.table().threads == after.threads@);
    assert(lookup(after.table().threads, key) == Some(awake));
    assert forall|other: K| other != key implies #[trigger] after.thread_of(other)
        == before.thread_of(other) by {
        assert(lookup(after.table().threads, other) == lookup(current.threads, other));
        lemma_same_lookup(before.table().threads, current.threads, at, other);
    }
    if awake.state == ThreadState::Runnable {
        assert(lookup(after.table().threads, key) is Some);
        assert(super::table::queued(after.table().threads, key, class.order()));
        assert(after.table().queues[class.order()].contains(key));
    }
}

/// Threads of which only one differs find every other key alike.
proof fn lemma_same_lookup<K: SchedulerKey>(
    before: Seq<(K, Thread)>,
    after: Seq<(K, Thread)>,
    at: int,
    other: K,
)
    requires
        super::table::sorted(before),
        super::table::sorted(after),
        0 <= at < before.len(),
        before.len() == after.len(),
        before[at].0 == after[at].0,
        forall|j: int| 0 <= j < before.len() && j != at ==> #[trigger] after[j] == before[j],
        other != before[at].0,
    ensures
        lookup(after, other) == lookup(before, other),
{
    if holds(before, other) {
        let p = place(before, other);
        assert(before[p].0 == other);
        assert(after[p] == before[p]);
        lemma_place(after, p);
    }
    if holds(after, other) {
        let p = place(after, other);
        assert(after[p].0 == other);
        assert(before[p] == after[p]);
        lemma_place(before, p);
    }
}

/// Blocking a thread takes it out of its queue and leaves its budget and its period.
pub proof fn law_blocking_keeps_the_budget<K: SchedulerKey>(
    before: ThreadScheduler<K>,
    after: ThreadScheduler<K>,
    key: K,
)
    requires
        before.wf(),
        before.blocks(after, key, Ok::<(), SchedulerError>(())),
    ensures
        ({
            &&& before.thread_of(key) matches Some(ready)
            &&& after.thread_of(key) matches Some(left)
            &&& ready.state == ThreadState::Runnable || ready.state == ThreadState::Running
            &&& left.state == ThreadState::Blocked
            &&& left.budget_remaining_ns == ready.budget_remaining_ns
            &&& left.period_started_ns == ready.period_started_ns
            &&& left.base_class == ready.base_class
            &&& left.metrics == ready.metrics
            &&& forall|c: int| 0 <= c < 5 ==> !(#[trigger] after.table().queues[c]).contains(key)
            &&& forall|other: K|
                other != key ==> #[trigger] after.thread_of(other) == before.thread_of(other)
        }),
{
    let ready = before.thread_of(key)->Some_0;
    let at = place(before.threads@, key);
    assert(before.table().threads[at].0 == key);
    assert(sound(before.table().threads[at].1));
    let left = Thread { state: ThreadState::Blocked, runnable_since_ns: None, ..ready };
    lemma_settled_alone(before.table(), key, left);
    assert(after.table().threads == after.threads@);
    assert(lookup(after.table().threads, key) == Some(left));
    assert forall|other: K| other != key implies #[trigger] after.thread_of(other)
        == before.thread_of(other) by {
        assert(lookup(after.table().threads, other) == lookup(before.table().threads, other));
    }
    assert forall|c: int| 0 <= c < 5 implies !(#[trigger] after.table().queues[c]).contains(key) by {
        assert(after.table().queues[c].contains(key) <==> super::table::queued(
            after.table().threads,
            key,
            c,
        ));
    }
}

/// A thread that is chosen was ready, is the first of the queue of its class, runs now, and may
/// run for as long as its class and what is left of its budget both allow. Nothing is chosen
/// exactly where, once all periods are brought up to now, no thread is ready.
pub proof fn law_dispatch_runs_a_ready_thread<K: SchedulerKey>(
    before: ThreadScheduler<K>,
    after: ThreadScheduler<K>,
    now_ns: u64,
    dispatch: Option<Dispatch<K>>,
)
    requires
        before.wf(),
        before.dispatches(after, now_ns, dispatch),
    ensures
        ({
            let current = before.table().maintain_first(
                after.donations@,
                before.config,
                now_ns,
                before.threads@.len(),
            );
            match dispatch {
                None => forall|key: K|
                    (#[trigger] after.thread_of(key)) matches Some(thread) ==> thread.state
                        != ThreadState::Runnable,
                Some(chosen) => {
                    &&& lookup(current.threads, chosen.key) matches Some(ready)
                    &&& after.thread_of(chosen.key) matches Some(runs)
                    &&& ready.state == ThreadState::Runnable
                    &&& runs.state == ThreadState::Running
                    &&& chosen.class == ready.effective_class
                    &&& current.queues[chosen.class.order()][0] == chosen.key
                    &&& 0 < chosen.quantum_ns <= ready.budget_remaining_ns
                    &&& chosen.quantum_ns <= before.config.classes@[
                        chosen.class.order()
                    ].quantum_ns
                    &&& chosen.quantum_ns == ready.budget_remaining_ns || chosen.quantum_ns
                        == before.config.classes@[chosen.class.order()].quantum_ns
                    &&& runs.budget_remaining_ns == ready.budget_remaining_ns
                    &&& runs.period_started_ns == ready.period_started_ns
                    &&& runs.base_class == ready.base_class
                    &&& runs.pending_wake_ns is None
                    &&& runs.runnable_since_ns is None
                    &&& ready.metrics.context_switches < u64::MAX
                        ==> runs.metrics.context_switches == ready.metrics.context_switches + 1
                    &&& runs.metrics.cpu_time_ns == ready.metrics.cpu_time_ns
                },
            }
        }),
{
    let current = before.table().maintain_first(
        after.donations@,
        before.config,
        now_ns,
        before.threads@.len(),
    );
    lemma_maintain_first(
        before.table(),
        after.donations@,
        before.config,
        now_ns,
        before.threads@.len(),
    );
    law_choice_has_work(current, before.config, now_ns);
    assert(after.table().threads == after.threads@);
    match current.choice(before.config, now_ns) {
        None => {
            assert forall|key: K|
                (#[trigger] after.thread_of(key)) matches Some(thread) ==> thread.state
                    != ThreadState::Runnable by {
                if after.thread_of(key) is Some && after.thread_of(key)->Some_0.state
                    == ThreadState::Runnable {
                    let order = after.thread_of(key)->Some_0.effective_class.order();
                    assert(super::table::queued(current.threads, key, order));
                    assert(current.queues[order].contains(key));
                    assert(current.queues[order].len() == 0);
                }
            }
        },
        Some(class) => {
            let chosen = dispatch->Some_0;
            let ready = lookup(current.threads, chosen.key)->Some_0;
            let at = place(current.threads, chosen.key);
            assert(current.threads[at].0 == chosen.key);
            assert(sound(current.threads[at].1));
            lemma_settled_alone(
                current,
                chosen.key,
                dispatched(ready, before.config.limits(class), now_ns),
            );
            assert(lookup(after.table().threads, chosen.key) is Some);
        },
    }
}

/// A thread that starts to run after its deadline has missed it once, and is rid of it; one
/// that starts in time keeps it and has missed nothing.
pub proof fn law_late_starts_miss_their_deadline(thread: Thread, limits: ClassPolicy, now: u64)
    ensures
        ({
            let runs = dispatched(thread, limits, now);
            match thread.deadline_ns {
                None => runs.deadline_ns is None && runs.metrics.deadline_misses
                    == thread.metrics.deadline_misses,
                Some(deadline) => if now <= deadline {
                    runs.deadline_ns == Some(deadline) && runs.metrics.deadline_misses
                        == thread.metrics.deadline_misses
                } else {
                    runs.deadline_ns is None && (thread.metrics.deadline_misses < u64::MAX
                        ==> runs.metrics.deadline_misses == thread.metrics.deadline_misses + 1)
                },
            }
        }),
{
}

/// The time that a thread waited to run, and the time from its wake to its run, are counted
/// when it runs; a wake that took longer than the class aims for is counted as such.
pub proof fn law_waits_are_counted(
    thread: Thread,
    limits: ClassPolicy,
    since: u64,
    woke: u64,
    now: u64,
)
    requires
        since <= now,
        woke <= now,
        thread.runnable_since_ns == Some(since),
        thread.pending_wake_ns == Some(woke),
        thread.metrics.runnable_wait_ns + (now - since) <= u64::MAX,
        thread.metrics.wake_latency_ns + (now - woke) <= u64::MAX,
        thread.metrics.wake_latency_target_misses < u64::MAX,
    ensures
        ({
            let runs = dispatched(thread, limits, now).metrics;
            &&& runs.runnable_wait_ns == thread.metrics.runnable_wait_ns + (now - since)
            &&& runs.wake_latency_ns == thread.metrics.wake_latency_ns + (now - woke)
            &&& runs.maximum_wake_latency_ns >= now - woke
            &&& runs.wake_latency_target_misses == thread.metrics.wake_latency_target_misses + (
            if now - woke > limits.wake_latency_target_ns {
                1int
            } else {
                0
            })
        }),
{
}

/// When a period is over, the next one begins on the grid of periods, at most one period ago,
/// and the budget is full again; before, neither moves. A throttled thread is ready again only
/// then, and the time that it was throttled is counted.
pub proof fn law_budgets_are_replenished_by_the_period(
    thread: Thread,
    class: SchedulingClass,
    limits: ClassPolicy,
    now: u64,
)
    requires
        limits.usable(),
        thread.period_started_ns + limits.period_ns <= u64::MAX,
    ensures
        ({
            let later = maintained(thread, class, limits, now);
            &&& later.effective_class == class
            &&& later.base_class == thread.base_class
            &&& if now < thread.period_started_ns + limits.period_ns {
                &&& later.period_started_ns == thread.period_started_ns
                &&& later.state == thread.state
                &&& later.budget_remaining_ns <= thread.budget_remaining_ns
                &&& thread.budget_remaining_ns <= limits.budget_ns ==> later.budget_remaining_ns
                    == thread.budget_remaining_ns
                &&& later.metrics == thread.metrics
            } else {
                &&& later.budget_remaining_ns == limits.budget_ns
                &&& later.period_started_ns <= now < later.period_started_ns + limits.period_ns
                &&& (later.period_started_ns - thread.period_started_ns) % limits.period_ns as int == 0
                &&& later.state == (if thread.state == ThreadState::Throttled {
                    ThreadState::Runnable
                } else {
                    thread.state
                })
                &&& thread.state == ThreadState::Throttled && thread.throttled_since_ns is Some
                    && thread.throttled_since_ns->Some_0 <= now
                    && thread.metrics.throttled_time_ns + (now
                    - thread.throttled_since_ns->Some_0) <= u64::MAX
                    ==> later.metrics.throttled_time_ns == thread.metrics.throttled_time_ns + (now
                    - thread.throttled_since_ns->Some_0)
            }
        }),
{
    let start = thread.period_started_ns as int;
    let period = limits.period_ns as int;
    if now >= start + period {
        let elapsed = now - start;
        let periods = elapsed / period;
        vstd::arithmetic::div_mod::lemma_fundamental_div_mod(elapsed, period);
        vstd::arithmetic::div_mod::lemma_mod_bound(elapsed, period);
        vstd::arithmetic::mul::lemma_mul_is_commutative(period, periods);
        vstd::arithmetic::div_mod::lemma_div_pos_is_pos(elapsed, period);
        vstd::arithmetic::div_mod::lemma_mod_multiples_basic(periods, period);
        assert(periods * period >= 0) by (nonlinear_arith)
            requires
                periods >= 0,
                period >= 0,
        ;
    }
}

/// A new thread is ready in the class that it was given, with a full budget for a period that
/// begins now, behind all others of its class; it is refused a class that its authority does
/// not permit.
pub proof fn law_new_threads_begin_a_full_period<K: SchedulerKey>(
    before: ThreadScheduler<K>,
    after: ThreadScheduler<K>,
    key: K,
    class: SchedulingClass,
    authority: Authority,
    now_ns: u64,
    result: Result<(), SchedulerError>,
)
    requires
        before.wf(),
        after.wf(),
        before.adds(after, key, class, authority, now_ns, result),
    ensures
        result is Ok ==> {
            &&& after.thread_of(key) matches Some(thread)
            &&& thread.base_class == class
            &&& thread.effective_class == class
            &&& thread.authority == authority
            &&& thread.state == ThreadState::Runnable
            &&& thread.budget_remaining_ns == before.config.classes@[class.order()].budget_ns
            &&& thread.period_started_ns == now_ns
            &&& thread.runnable_since_ns == Some(now_ns)
            &&& thread.deadline_ns is None
            &&& thread.metrics.cpu_time_ns == 0
            &&& after.table().queues[class.order()].last() == key
            &&& authority.permits(class)
        },
        result is Err ==> after == before,
        !authority.permits(class) ==> result is Err,
        before.thread_of(key) is Some ==> result == Err::<(), SchedulerError>(
            SchedulerError::DuplicateKey,
        ),
{
    if result is Ok {
        let limits = before.config.limits(class);
        let thread = super::scheduler::fresh(class, authority, limits, now_ns);
        let at = choose|at: int|
            0 <= at <= before.threads@.len() && after.threads@ == #[trigger] before.threads@.insert(
                at,
                (key, thread),
            );
        before.threads@.insert_ensures(at, (key, thread));
        assert(after.threads@[at] == (key, thread));
        assert(after.table().threads == after.threads@);
        lemma_place(after.threads@, at);
        assert(before.table().queues[class.order()].push(key).last() == key);
    }
}

/// A donation lends the class that the donor runs in: until it ends, every recipient runs in
/// that class or a more urgent one. It ends when it was asked to, within the longest time and
/// over no longer a chain than is allowed, and its token was never handed out before.
pub proof fn law_donations_lend_the_class_of_the_donor<K: SchedulerKey>(
    before: ThreadScheduler<K>,
    after: ThreadScheduler<K>,
    donor: K,
    chain: Seq<K>,
    expires_at_ns: u64,
    now_ns: u64,
    token: DonationToken,
    recipient: int,
)
    requires
        before.wf(),
        before.donates(
            after,
            donor,
            chain,
            expires_at_ns,
            now_ns,
            Ok::<DonationToken, DonationError>(token),
        ),
        0 <= recipient < chain.len(),
    ensures
        before.thread_of(donor) is Some,
        before.thread_of(chain[recipient]) is Some,
        chain[recipient] != donor,
        after.thread_of(chain[recipient]) matches Some(thread)
            && thread.effective_class.order() <= before.thread_of(
            donor,
        )->Some_0.effective_class.order() && thread.base_class == before.thread_of(
            chain[recipient],
        )->Some_0.base_class,
        now_ns < expires_at_ns <= now_ns + before.config.max_donation_ns,
        chain.len() <= before.config.max_donation_depth,
        forall|i: int|
            0 <= i < before.donations@.len() ==> (#[trigger] before.donations@[i]).token != token,
        after.donations@.last().token == token,
        after.donations@.last().expires_at_ns == expires_at_ns,
{
    let key = chain[recipient];
    let table = before.table();
    lemma_maintain_keys(table, after.donations@, before.config, chain, now_ns, chain.len());
    lemma_chain_is_known(before.threads@, donor, chain, chain.len(), recipient);
    let at = place(before.threads@, key);
    assert(table.threads[at].0 == key);
    assert(chain.take(chain.len() as int) =~= chain);
    assert(chain.contains(key));
    let last = after.donations@.len() - 1;
    assert(after.donations@[last] == after.donations@.last());
    law_donation_never_weakens(
        after.donations@,
        key,
        table.threads[at].1.base_class,
        after.donations@.len(),
    );
    assert(after.donations@[last].recipients@.contains(key));
    assert(after.table().threads == after.threads@);
    assert(after.threads@[at].0 == key);
    lemma_place(after.threads@, at);
}

/// A chain that is taken names live threads other than the donor.
proof fn lemma_chain_is_known<K: SchedulerKey>(
    threads: Seq<(K, Thread)>,
    donor: K,
    chain: Seq<K>,
    count: nat,
    i: int,
)
    requires
        super::scheduler::chain_error(threads, donor, chain, count) is None,
        0 <= i < count <= chain.len(),
    ensures
        holds(threads, chain[i]),
        chain[i] != donor,
    decreases count,
{
    if i < count - 1 {
        lemma_chain_is_known(threads, donor, chain, (count - 1) as nat, i);
    }
}

/// Classes are ranked from the most urgent to the least, and each rank is that of one class.
/// A user may have the two least urgent, the system all but the most urgent, the kernel all.
pub proof fn law_classes_are_ranked_and_guarded(class: SchedulingClass, other: SchedulingClass)
    ensures
        SchedulingClass::Critical.order() < SchedulingClass::Audio.order()
            < SchedulingClass::Interactive.order() < SchedulingClass::Normal.order()
            < SchedulingClass::Background.order(),
        0 <= class.order() < 5,
        class.order() == other.order() <==> class == other,
        SchedulingClass::of_order(class.order()) == class,
        class.stronger(other).order() <= class.order(),
        class.stronger(other).order() <= other.order(),
        class.stronger(other) == class || class.stronger(other) == other,
        Authority::User.permits(class) <==> class.order() >= SchedulingClass::Normal.order(),
        Authority::System.permits(class) <==> class.order() >= SchedulingClass::Audio.order(),
        Authority::Kernel.permits(class),
{
}

/// A class is starved when its first thread has waited for as long as the class bears.
pub proof fn law_starvation_is_a_wait_too_long<K: SchedulerKey>(
    table: Table<K>,
    config: SchedulerConfig,
    order: int,
    now: u64,
    since: u64,
)
    requires
        table.wf(),
        0 <= order < 5,
        table.queues[order].len() > 0,
        lookup(table.threads, table.queues[order][0]) matches Some(thread)
            && thread.runnable_since_ns == Some(since),
        since <= now,
    ensures
        table.starved(config, order, now) <==> now - since >= config.classes@[order].starvation_ns,
{
}

/// A thread is given the class that it asks for where its authority permits that, and no more
/// budget than the class it then runs in has; where it is not permitted, its class stays.
pub proof fn law_classes_are_given_by_authority<K: SchedulerKey>(
    before: ThreadScheduler<K>,
    after: ThreadScheduler<K>,
    key: K,
    class: SchedulingClass,
    now_ns: u64,
    result: Result<(), SchedulerError>,
)
    requires
        before.wf(),
        before.reclasses(after, key, class, now_ns, result),
    ensures
        !holds(before.threads@, key) ==> result is Err && result->Err_0
            == SchedulerError::UnknownKey,
        lookup(before.threads@, key) matches Some(thread) ==> {
            &&& result is Ok <==> thread.authority.permits(class)
            &&& result is Err ==> result->Err_0 == SchedulerError::UnauthorizedClass(class)
            &&& result is Ok ==> {
                let changed = lookup(after.threads@, key)->Some_0;
                &&& lookup(after.threads@, key) is Some
                &&& changed.base_class == class
                &&& changed.effective_class == effective(before.donations@, key, class)
                &&& changed.authority == thread.authority
                &&& changed.budget_remaining_ns
                    <= before.config.limits(changed.effective_class).budget_ns
            }
        },
        after.donations@ == before.donations@,
        after.config == before.config,
{
    if holds(before.threads@, key) {
        let at = place(before.threads@, key);
        assert(before.table().threads[at].0 == key);
        let found = before.thread_of(key)->Some_0;
        let current = before.table().maintain_at(before.donations@, before.config, at, now_ns);
        lemma_maintain_at(before.table(), before.donations@, before.config, at, now_ns);
        let held = effective(before.donations@, key, found.base_class);
        assert(before.config.classes@[held.order()].usable());
        let ready = maintained(found, held, before.config.limits(held), now_ns);
        assert(current.threads[at] == (key, ready));
        lemma_place(current.threads, at);
        assert(sound(current.threads[at].1));
        if found.authority.permits(class) {
            let new_class = effective(before.donations@, key, class);
            let limit = before.config.limits(new_class).budget_ns;
            let changed = Thread {
                base_class: class,
                effective_class: new_class,
                budget_remaining_ns: if ready.budget_remaining_ns <= limit {
                    ready.budget_remaining_ns
                } else {
                    limit
                },
                ..ready
            };
            assert(before.config.classes@[new_class.order()].usable());
            law_donation_never_weakens(before.donations@, key, class, before.donations@.len());
            lemma_settled_alone(current, key, changed);
            assert(after.table().threads == after.threads@);
        }
    }
}

/// What each class has by default: the higher it ranks, the sooner it is to run, and the
/// shorter it may run at once.
pub proof fn law_default_limits_follow_the_rank(higher: int, lower: int)
    requires
        0 <= higher < lower <= 4,
    ensures
        default_limits(higher).usable(),
        default_limits(lower).usable(),
        default_limits(higher).quantum_ns < default_limits(lower).quantum_ns,
        default_limits(higher).period_ns < default_limits(lower).period_ns,
        default_limits(higher).starvation_ns < default_limits(lower).starvation_ns,
        default_limits(higher).wake_latency_target_ns
            < default_limits(lower).wake_latency_target_ns,
        default_limits(higher).quantum_ns == (if higher == 0 {
            250_000
        } else if higher == 1 {
            1_000_000
        } else if higher == 2 {
            2_000_000
        } else {
            4_000_000u64
        }),
        default_limits(higher).budget_ns == (if higher == 0 {
            1_000_000
        } else if higher == 1 {
            3_000_000
        } else if higher == 2 {
            6_000_000
        } else {
            8_000_000u64
        }),
        default_limits(lower).period_ns == (if lower == 1 {
            10_000_000
        } else if lower == 2 {
            16_000_000
        } else if lower == 3 {
            20_000_000
        } else {
            25_000_000u64
        }),
        default_limits(lower).starvation_ns == (if lower == 1 {
            4_000_000
        } else if lower == 2 {
            8_000_000
        } else if lower == 3 {
            20_000_000
        } else {
            50_000_000u64
        }),
        default_limits(lower).wake_latency_target_ns == (if lower == 1 {
            1_000_000
        } else if lower == 2 {
            2_000_000
        } else if lower == 3 {
            5_000_000
        } else {
            20_000_000u64
        }),
{
}

/// A change of one thread is that change and nothing else: every other thread and every queue
/// stay, and a key that no thread has changes nothing.
pub proof fn law_changes_touch_one_thread<K: SchedulerKey>(
    before: ThreadScheduler<K>,
    after: ThreadScheduler<K>,
    result: Result<(), SchedulerError>,
    key: K,
    change: spec_fn(Thread) -> Thread,
    other: K,
)
    requires
        before.wf(),
        other != key,
        before.changes_thread(after, result, key, change),
    ensures
        result is Ok <==> holds(before.threads@, key),
        result is Err ==> result->Err_0 == SchedulerError::UnknownKey && after == before,
        result is Ok ==> after.thread_of(key) == Some(change(before.thread_of(key)->Some_0)),
        after.thread_of(other) == before.thread_of(other),
        after.table().queues == before.table().queues,
        after.donations@ == before.donations@,
{
    if holds(before.threads@, key) {
        let at = place(before.threads@, key);
        assert(before.table().threads[at].0 == key);
        let thread = change(before.thread_of(key)->Some_0);
        assert(after.threads@[at] == (key, thread));
        assert(super::table::sorted(after.threads@)) by {
            assert(super::table::sorted(before.threads@));
        }
        lemma_place(after.threads@, at);
        lemma_same_lookup(before.threads@, after.threads@, at, other);
    }
}

} // verus!
