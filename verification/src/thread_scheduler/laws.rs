//! What holds of the scheduler over several calls.
use vstd::prelude::*;

use super::dispatch::unexpired;
use super::policy::{ClassPolicy, SchedulerConfig, SchedulerKey, SchedulingClass};
use super::scheduler::ThreadScheduler;
use super::table::{
    capped_sum, dispatched, effective, holds, lemma_maintain_at, lemma_maintain_first, lemma_place,
    lookup, maintained, place, sorted, sound, span, woken, DonationChain, Table, Thread,
    ThreadState,
};

verus! {

/// Whatever was called before, a live thread has a class that its authority permits and runs in
/// that class or a more urgent one; its budget is at most that of the class it runs in, is used
/// up while it is throttled, and is not while it runs or waits to run.
pub proof fn law_threads_are_sound<K: SchedulerKey>(scheduler: ThreadScheduler<K>, key: K)
    requires
        scheduler.wf(),
    ensures
        scheduler.thread_of(key) is Some <==> holds(scheduler.threads@, key),
        scheduler.thread_of(key) matches Some(thread) ==> {
            &&& thread.authority.permits(thread.base_class)
            &&& thread.effective_class.order() <= thread.base_class.order()
            &&& thread.budget_remaining_ns <= scheduler.config.limits(
                thread.effective_class,
            ).budget_ns
            &&& thread.state == ThreadState::Throttled ==> thread.budget_remaining_ns == 0
            &&& thread.state == ThreadState::Runnable || thread.state == ThreadState::Running
                ==> thread.budget_remaining_ns > 0
        },
{
    if holds(scheduler.threads@, key) {
        let at = place(scheduler.threads@, key);
        assert(scheduler.threads@[at].0 == key);
        assert(sound(scheduler.table().threads[at].1));
    }
}

/// What a second maintenance of a thread at the same time finds.
proof fn lemma_maintained_twice(
    thread: Thread,
    class: SchedulingClass,
    limits: ClassPolicy,
    now: u64,
)
    requires
        limits.usable(),
    ensures
        ({
            let once = maintained(thread, class, limits, now);
            &&& maintained(once, class, limits, now) == once
            &&& now < u64::MAX ==> capped_sum(once.period_started_ns, limits.period_ns) > now
        }),
{
    let once = maintained(thread, class, limits, now);
    let start = thread.period_started_ns as int;
    let period = limits.period_ns as int;
    if now >= capped_sum(thread.period_started_ns, limits.period_ns) {
        let elapsed = span(thread.period_started_ns, now) as int;
        let periods = elapsed / period;
        vstd::arithmetic::div_mod::lemma_fundamental_div_mod(elapsed, period);
        vstd::arithmetic::div_mod::lemma_mod_bound(elapsed, period);
        vstd::arithmetic::mul::lemma_mul_is_commutative(period, periods);
        vstd::arithmetic::div_mod::lemma_div_pos_is_pos(elapsed, period);
        assert(periods * period >= 0) by (nonlinear_arith)
            requires
                periods >= 0,
                period >= 0,
        ;
        assert(once.period_started_ns == start + periods * period);
        assert(now - once.period_started_ns == elapsed % period);
        vstd::arithmetic::div_mod::lemma_basic_div(elapsed % period, period);
        assert(span(once.period_started_ns, now) as int / period == 0);
        assert(0 * period == 0);
    }
}

/// A thread that is up to date stays as it is.
proof fn lemma_settled<K: SchedulerKey>(
    table: Table<K>,
    donations: Seq<DonationChain<K>>,
    config: SchedulerConfig,
    now: u64,
    count: nat,
)
    requires
        count <= table.threads.len(),
        forall|j: int|
            0 <= j < count ==> {
                let (key, thread) = #[trigger] table.threads[j];
                let class = effective(donations, key, thread.base_class);
                maintained(thread, class, config.limits(class), now) == thread
            },
    ensures
        table.maintain_first(donations, config, now, count) == table,
    decreases count,
{
    if count > 0 {
        lemma_settled(table, donations, config, now, (count - 1) as nat);
        let (key, thread) = table.threads[count - 1];
        assert(table.threads.update(count - 1, (key, thread)) =~= table.threads);
        assert(table.with(count - 1, thread) == table);
    }
}

/// Maintenance at one time brings everything up to that time: a second one changes nothing, and
/// the next replenishment of every thread lies ahead.
///
/// At the last nanosecond that can be told no later time is left.
pub proof fn law_maintenance_is_complete<K: SchedulerKey>(
    table: Table<K>,
    donations: Seq<DonationChain<K>>,
    config: SchedulerConfig,
    now: u64,
)
    requires
        table.wf(),
        config.problem() is None,
    ensures
        ({
            let live = unexpired(donations, now);
            let once = table.maintain_first(live, config, now, table.threads.len());
            &&& unexpired(live, now) == live
            &&& once.threads.len() == table.threads.len()
            &&& once.maintain_first(unexpired(live, now), config, now, once.threads.len()) == once
            &&& now < u64::MAX ==> forall|i: int|
                0 <= i < once.threads.len() ==> capped_sum(
                    (#[trigger] once.threads[i]).1.period_started_ns,
                    config.limits(once.threads[i].1.effective_class).period_ns,
                ) > now
        }),
{
    let kept = |donation: DonationChain<K>| donation.expires_at_ns > now;
    let live = unexpired(donations, now);
    lemma_filter_again(donations, kept);
    lemma_maintain_first(table, live, config, now, table.threads.len());
    let once = table.maintain_first(live, config, now, table.threads.len());
    assert forall|j: int| 0 <= j < once.threads.len() implies {
        let (key, thread) = #[trigger] once.threads[j];
        let class = effective(live, key, thread.base_class);
        &&& maintained(thread, class, config.limits(class), now) == thread
        &&& thread.effective_class == class
        &&& now < u64::MAX ==> capped_sum(
            thread.period_started_ns,
            config.limits(class).period_ns,
        ) > now
    } by {
        let (key, thread) = table.threads[j];
        let class = effective(live, key, thread.base_class);
        assert(config.classes@[class.order()].usable());
        lemma_maintained_twice(thread, class, config.limits(class), now);
    }
    lemma_settled(once, live, config, now, once.threads.len());
}

/// What a filter kept, it keeps.
proof fn lemma_filter_again<A>(all: Seq<A>, kept: spec_fn(A) -> bool)
    ensures
        all.filter(kept).filter(kept) == all.filter(kept),
{
    let once = all.filter(kept);
    assert forall|i: int| 0 <= i < once.len() implies kept(#[trigger] once[i]) by {
        all.lemma_filter_pred(kept, i);
    }
    lemma_all_kept(once, kept);
}

/// A filter keeps a sequence of what it keeps.
proof fn lemma_all_kept<A>(all: Seq<A>, kept: spec_fn(A) -> bool)
    requires
        forall|i: int| 0 <= i < all.len() ==> kept(#[trigger] all[i]),
    ensures
        all.filter(kept) == all,
    decreases all.len(),
{
    reveal(Seq::filter);
    if all.len() > 0 {
        lemma_all_kept(all.drop_last(), kept);
        assert(kept(all[all.len() - 1]));
        assert(all.drop_last().push(all.last()) =~= all);
    }
}

/// The thread with this key is blocked.
pub open spec fn blocked<K>(table: Table<K>, key: K) -> bool {
    lookup(table.threads, key) matches Some(thread) && thread.state == ThreadState::Blocked
}

/// A thread that stays blocked under another thread's change.
proof fn lemma_stays_blocked<K: SchedulerKey>(table: Table<K>, at: int, thread: Thread, key: K)
    requires
        sorted(table.threads),
        0 <= at < table.threads.len(),
        blocked(table, key),
        table.threads[at].0 == key ==> thread.state == ThreadState::Blocked,
    ensures
        blocked(table.settle(at, thread), key),
{
    let after = table.settle(at, thread);
    let here = place(table.threads, key);
    assert(table.threads[here].0 == key);
    assert(after.threads =~= table.threads.update(at, (table.threads[at].0, thread)));
    assert(sorted(after.threads)) by {
        assert forall|i: int, j: int| 0 <= i < j < after.threads.len() implies (
        #[trigger] after.threads[i]).0.rank() < (#[trigger] after.threads[j]).0.rank() by {
            assert(after.threads[i].0 == table.threads[i].0);
            assert(after.threads[j].0 == table.threads[j].0);
        }
    }
    assert(after.threads[here].0 == key);
    lemma_place(after.threads, here);
    if at != here && table.threads[at].0 == key {
        lemma_place(table.threads, at);
    }
}

/// Maintenance of one thread leaves a blocked thread blocked.
proof fn lemma_maintained_blocked<K: SchedulerKey>(
    table: Table<K>,
    donations: Seq<DonationChain<K>>,
    config: SchedulerConfig,
    at: int,
    now: u64,
    key: K,
)
    requires
        table.wf(),
        config.problem() is None,
        0 <= at < table.threads.len(),
        blocked(table, key),
    ensures
        table.maintain_at(donations, config, at, now).wf(),
        blocked(table.maintain_at(donations, config, at, now), key),
{
    lemma_maintain_at(table, donations, config, at, now);
    let (other, thread) = table.threads[at];
    let class = effective(donations, other, thread.base_class);
    if other == key {
        lemma_place(table.threads, at);
    }
    lemma_stays_blocked(table, at, maintained(thread, class, config.limits(class), now), key);
}

/// Maintenance of the first threads leaves a blocked thread blocked.
proof fn lemma_first_blocked<K: SchedulerKey>(
    table: Table<K>,
    donations: Seq<DonationChain<K>>,
    config: SchedulerConfig,
    now: u64,
    count: nat,
    key: K,
)
    requires
        table.wf(),
        config.problem() is None,
        count <= table.threads.len(),
        blocked(table, key),
    ensures
        table.maintain_first(donations, config, now, count).wf(),
        blocked(table.maintain_first(donations, config, now, count), key),
    decreases count,
{
    if count > 0 {
        lemma_first_blocked(table, donations, config, now, (count - 1) as nat, key);
        lemma_maintain_first(table, donations, config, now, (count - 1) as nat);
        let before = table.maintain_first(donations, config, now, (count - 1) as nat);
        lemma_maintained_blocked(before, donations, config, count - 1, now, key);
    }
}

/// Maintenance of some threads leaves a blocked thread blocked.
proof fn lemma_keys_blocked<K: SchedulerKey>(
    table: Table<K>,
    donations: Seq<DonationChain<K>>,
    config: SchedulerConfig,
    keys: Seq<K>,
    now: u64,
    count: nat,
    key: K,
)
    requires
        table.wf(),
        config.problem() is None,
        count <= keys.len(),
        blocked(table, key),
    ensures
        table.maintain_keys(donations, config, keys, now, count).wf(),
        blocked(table.maintain_keys(donations, config, keys, now, count), key),
    decreases count,
{
    if count > 0 {
        lemma_keys_blocked(table, donations, config, keys, now, (count - 1) as nat, key);
        let before = table.maintain_keys(donations, config, keys, now, (count - 1) as nat);
        if holds(before.threads, keys[count - 1]) {
            let at = place(before.threads, keys[count - 1]);
            assert(before.threads[at].0 == keys[count - 1]);
            lemma_maintained_blocked(before, donations, config, at, now, key);
        }
    }
}

/// A blocked thread is never chosen to run. Neither the passing of time, nor a donation that
/// begins or ends, nor what is done to another thread ends its wait; only its own wake does.
pub proof fn law_blocked_threads_are_not_dispatched<K: SchedulerKey>(
    table: Table<K>,
    donations: Seq<DonationChain<K>>,
    config: SchedulerConfig,
    keys: Seq<K>,
    now: u64,
    other: int,
    thread: Thread,
    key: K,
)
    requires
        table.wf(),
        config.problem() is None,
        blocked(table, key),
    ensures
        ({
            let current = table.maintain_first(donations, config, now, table.threads.len());
            &&& blocked(current, key)
            &&& current.choice(config, now) matches Some(class) ==> current.queues[class.order()][0]
                != key
        }),
        blocked(table.maintain_keys(donations, config, keys, now, keys.len()), key),
        0 <= other < table.threads.len() && table.threads[other].0 != key ==> blocked(
            table.settle(other, thread),
            key,
        ),
{
    lemma_first_blocked(table, donations, config, now, table.threads.len(), key);
    lemma_keys_blocked(table, donations, config, keys, now, keys.len(), key);
    if 0 <= other < table.threads.len() && table.threads[other].0 != key {
        lemma_stays_blocked(table, other, thread, key);
    }
    let current = table.maintain_first(donations, config, now, table.threads.len());
    if let Some(class) = current.choice(config, now) {
        super::table::law_choice_has_work(current, config, now);
        let queue = current.queues[class.order()];
        assert(0 <= class.order() < 5);
        assert(queue[0] == queue[0] && queue.contains(queue[0]));
    }
}

/// A thread after it was brought up to date several times.
pub open spec fn caught_up(thread: Thread, times: Seq<(SchedulingClass, ClassPolicy, u64)>) -> Thread
    decreases times.len(),
{
    if times.len() == 0 {
        thread
    } else {
        let (class, limits, now) = times.last();
        maintained(caught_up(thread, times.drop_last()), class, limits, now)
    }
}

/// The dispatch after a wake adds exactly the time since the wake to the latency, to the largest
/// latency and to the samples, however often the thread is brought up to date in between.
pub proof fn law_wake_latency_is_measured(
    thread: Thread,
    woke: u64,
    times: Seq<(SchedulingClass, ClassPolicy, u64)>,
    limits: ClassPolicy,
    now: u64,
)
    ensures
        ({
            let before = thread.metrics;
            let ready = caught_up(woken(thread, woke), times);
            let running = dispatched(ready, limits, now);
            &&& ready.pending_wake_ns == Some(woke)
            &&& ready.metrics.wake_latency_ns == before.wake_latency_ns
            &&& ready.metrics.maximum_wake_latency_ns == before.maximum_wake_latency_ns
            &&& ready.metrics.wake_latency_samples == before.wake_latency_samples
            &&& running.pending_wake_ns is None
            &&& running.metrics.wake_latency_ns == capped_sum(
                before.wake_latency_ns,
                span(woke, now),
            )
            &&& running.metrics.maximum_wake_latency_ns == (if before.maximum_wake_latency_ns
                < span(woke, now) {
                span(woke, now)
            } else {
                before.maximum_wake_latency_ns
            })
            &&& running.metrics.wake_latency_samples == capped_sum(before.wake_latency_samples, 1)
        }),
    decreases times.len(),
{
    if times.len() > 0 {
        law_wake_latency_is_measured(thread, woke, times.drop_last(), limits, now);
    }
}

} // verus!
