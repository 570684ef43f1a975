//! Threads, run queues and donations, and how they belong together.
use vstd::prelude::*;

use super::policy::{Authority, ClassPolicy, SchedulerConfig, SchedulerKey, SchedulingClass};

verus! {

/// What a thread is doing.
#[derive(Clone, Copy, Debug, PartialEq, Eq, Structural)]
pub enum ThreadState {
    Runnable,
    Running,
    Blocked,
    Throttled,
}

/// Saturating lifetime counters; times are in nanoseconds.
#[derive(Clone, Copy, Debug, PartialEq, Eq, Structural)]
pub struct ThreadMetrics {
    pub cpu_time_ns: u64,
    pub runnable_wait_ns: u64,
    pub wake_latency_ns: u64,
    pub maximum_wake_latency_ns: u64,
    pub wake_latency_samples: u64,
    pub wake_latency_target_misses: u64,
    pub context_switches: u64,
    pub deadline_misses: u64,
    pub throttling_events: u64,
    pub throttled_time_ns: u64,
}

/// Counters of a thread that has not run.
pub open spec fn no_metrics() -> ThreadMetrics {
    ThreadMetrics {
        cpu_time_ns: 0,
        runnable_wait_ns: 0,
        wake_latency_ns: 0,
        maximum_wake_latency_ns: 0,
        wake_latency_samples: 0,
        wake_latency_target_misses: 0,
        context_switches: 0,
        deadline_misses: 0,
        throttling_events: 0,
        throttled_time_ns: 0,
    }
}

impl Default for ThreadMetrics {
    fn default() -> (metrics: Self)
        ensures
            metrics == no_metrics(),
    {
        ThreadMetrics {
            cpu_time_ns: 0,
            runnable_wait_ns: 0,
            wake_latency_ns: 0,
            maximum_wake_latency_ns: 0,
            wake_latency_samples: 0,
            wake_latency_target_misses: 0,
            context_switches: 0,
            deadline_misses: 0,
            throttling_events: 0,
            throttled_time_ns: 0,
        }
    }
}

/// The scheduling state of one thread.
#[derive(Clone, Copy, Debug, PartialEq, Eq, Structural)]
pub struct Thread {
    pub base_class: SchedulingClass,
    pub effective_class: SchedulingClass,
    pub authority: Authority,
    pub state: ThreadState,
    pub budget_remaining_ns: u64,
    pub period_started_ns: u64,
    pub runnable_since_ns: Option<u64>,
    pub pending_wake_ns: Option<u64>,
    pub throttled_since_ns: Option<u64>,
    pub deadline_ns: Option<u64>,
    pub metrics: ThreadMetrics,
}

/// Names one donation chain.
#[derive(Clone, Copy, Debug, PartialEq, Eq, Structural)]
pub struct DonationToken(pub u64);

impl DonationToken {
    /// The number of this token.
    pub fn raw(self) -> (raw: u64)
        ensures
            raw == self.0,
    {
        self.0
    }
}

/// One donor's class, lent to a chain of recipients.
#[derive(Debug)]
pub struct DonationChain<K> {
    pub token: DonationToken,
    pub root: K,
    pub class: SchedulingClass,
    pub expires_at_ns: u64,
    pub recipients: Vec<K>,
}

/// The sum, or the largest number.
pub open spec fn capped_sum(left: u64, right: u64) -> u64 {
    if left + right > u64::MAX {
        u64::MAX
    } else {
        (left + right) as u64
    }
}

/// The time from `start` to `end`, zero if the clock went back.
pub open spec fn span(start: u64, end: u64) -> u64 {
    if end >= start {
        (end - start) as u64
    } else {
        0
    }
}

/// The smaller of two numbers.
pub open spec fn least(left: u64, right: u64) -> u64 {
    if left < right {
        left
    } else {
        right
    }
}

/// The class of `key`: its base class, or the strongest one donated to it.
pub open spec fn donated_class<K>(
    donations: Seq<DonationChain<K>>,
    key: K,
    base: SchedulingClass,
    count: nat,
) -> SchedulingClass
    decreases count,
{
    if count == 0 {
        base
    } else {
        let rest = donated_class(donations, key, base, (count - 1) as nat);
        if donations[count - 1].recipients@.contains(key) {
            rest.stronger(donations[count - 1].class)
        } else {
            rest
        }
    }
}

/// The class of `key` under all donations.
pub open spec fn effective<K>(
    donations: Seq<DonationChain<K>>,
    key: K,
    base: SchedulingClass,
) -> SchedulingClass {
    donated_class(donations, key, base, donations.len())
}

/// A donation never weakens, and what is effective is the base class or was donated.
pub proof fn law_donation_never_weakens<K>(
    donations: Seq<DonationChain<K>>,
    key: K,
    base: SchedulingClass,
    count: nat,
)
    requires
        count <= donations.len(),
    ensures
        donated_class(donations, key, base, count).order() <= base.order(),
        forall|i: int|
            0 <= i < count && (#[trigger] donations[i]).recipients@.contains(key)
                ==> donated_class(donations, key, base, count).order()
                <= donations[i].class.order(),
        donated_class(donations, key, base, count) == base || exists|i: int|
            0 <= i < count && (#[trigger] donations[i]).recipients@.contains(key) && donated_class(
                donations,
                key,
                base,
                count,
            ) == donations[i].class,
    decreases count,
{
    if count > 0 {
        law_donation_never_weakens(donations, key, base, (count - 1) as nat);
    }
}

/// A thread after its class was set to `class` and its period was brought up to `now`.
pub open spec fn maintained(
    thread: Thread,
    class: SchedulingClass,
    limits: ClassPolicy,
    now: u64,
) -> Thread {
    if now >= capped_sum(thread.period_started_ns, limits.period_ns) {
        let periods = span(thread.period_started_ns, now) as int / limits.period_ns as int;
        let replenished = Thread {
            effective_class: class,
            period_started_ns: (thread.period_started_ns + periods * limits.period_ns) as u64,
            budget_remaining_ns: limits.budget_ns,
            ..thread
        };
        if thread.state == ThreadState::Throttled {
            Thread {
                state: ThreadState::Runnable,
                runnable_since_ns: Some(
                    match thread.runnable_since_ns {
                        Some(since) => since,
                        None => now,
                    },
                ),
                throttled_since_ns: None,
                metrics: match thread.throttled_since_ns {
                    Some(since) => ThreadMetrics {
                        throttled_time_ns: capped_sum(
                            thread.metrics.throttled_time_ns,
                            span(since, now),
                        ),
                        ..thread.metrics
                    },
                    None => thread.metrics,
                },
                ..replenished
            }
        } else {
            replenished
        }
    } else {
        Thread {
            effective_class: class,
            budget_remaining_ns: least(thread.budget_remaining_ns, limits.budget_ns),
            ..thread
        }
    }
}

/// A thread after it was chosen to run at `now`.
pub open spec fn dispatched(thread: Thread, limits: ClassPolicy, now: u64) -> Thread {
    let waited = match thread.runnable_since_ns {
        Some(since) => capped_sum(thread.metrics.runnable_wait_ns, span(since, now)),
        None => thread.metrics.runnable_wait_ns,
    };
    let late = thread.deadline_ns is Some && now > thread.deadline_ns->Some_0;
    let base = ThreadMetrics {
        runnable_wait_ns: waited,
        deadline_misses: if late {
            capped_sum(thread.metrics.deadline_misses, 1)
        } else {
            thread.metrics.deadline_misses
        },
        context_switches: capped_sum(thread.metrics.context_switches, 1),
        ..thread.metrics
    };
    Thread {
        state: ThreadState::Running,
        runnable_since_ns: None,
        pending_wake_ns: None,
        deadline_ns: if late {
            None
        } else {
            thread.deadline_ns
        },
        metrics: match thread.pending_wake_ns {
            None => base,
            Some(woke) => {
                let latency = span(woke, now);
                ThreadMetrics {
                    wake_latency_ns: capped_sum(base.wake_latency_ns, latency),
                    maximum_wake_latency_ns: if base.maximum_wake_latency_ns < latency {
                        latency
                    } else {
                        base.maximum_wake_latency_ns
                    },
                    wake_latency_samples: capped_sum(base.wake_latency_samples, 1),
                    wake_latency_target_misses: if latency > limits.wake_latency_target_ns {
                        capped_sum(base.wake_latency_target_misses, 1)
                    } else {
                        base.wake_latency_target_misses
                    },
                    ..base
                }
            },
        },
        ..thread
    }
}

/// A thread after it ran for `elapsed` and gave the processor back at `now`.
pub open spec fn charged(thread: Thread, elapsed: u64, now: u64, blocks: bool) -> Thread {
    let budget = span(elapsed, thread.budget_remaining_ns);
    let metrics = ThreadMetrics {
        cpu_time_ns: capped_sum(thread.metrics.cpu_time_ns, elapsed),
        ..thread.metrics
    };
    if blocks {
        Thread {
            state: ThreadState::Blocked,
            runnable_since_ns: None,
            budget_remaining_ns: budget,
            metrics,
            ..thread
        }
    } else if budget == 0 {
        Thread {
            state: ThreadState::Throttled,
            runnable_since_ns: Some(now),
            throttled_since_ns: Some(now),
            budget_remaining_ns: 0,
            metrics: ThreadMetrics {
                throttling_events: capped_sum(metrics.throttling_events, 1),
                ..metrics
            },
            ..thread
        }
    } else {
        Thread {
            state: ThreadState::Runnable,
            runnable_since_ns: Some(now),
            budget_remaining_ns: budget,
            metrics,
            ..thread
        }
    }
}

/// A blocked thread after it was woken at `now`.
pub open spec fn woken(thread: Thread, now: u64) -> Thread {
    let base = Thread {
        pending_wake_ns: Some(now),
        runnable_since_ns: Some(now),
        ..thread
    };
    if thread.budget_remaining_ns == 0 {
        Thread {
            state: ThreadState::Throttled,
            throttled_since_ns: Some(
                match thread.throttled_since_ns {
                    Some(since) => since,
                    None => now,
                },
            ),
            ..base
        }
    } else {
        Thread { state: ThreadState::Runnable, ..base }
    }
}

/// Threads in the order of their keys, and the queue of each class.
#[verifier::ext_equal]
pub struct Table<K> {
    pub threads: Seq<(K, Thread)>,
    pub queues: Seq<Seq<K>>,
}

/// There is a thread with this key.
pub open spec fn holds<K>(threads: Seq<(K, Thread)>, key: K) -> bool {
    exists|i: int| 0 <= i < threads.len() && (#[trigger] threads[i]).0 == key
}

/// Where the thread with this key stands.
pub open spec fn place<K>(threads: Seq<(K, Thread)>, key: K) -> int {
    choose|i: int| 0 <= i < threads.len() && (#[trigger] threads[i]).0 == key
}

/// The thread with this key.
pub open spec fn lookup<K>(threads: Seq<(K, Thread)>, key: K) -> Option<Thread> {
    if holds(threads, key) {
        Some(threads[place(threads, key)].1)
    } else {
        None
    }
}

/// Threads stand in the order of their keys.
pub open spec fn sorted<K: SchedulerKey>(threads: Seq<(K, Thread)>) -> bool {
    forall|i: int, j: int|
        0 <= i < j < threads.len() ==> (#[trigger] threads[i]).0.rank() < (
        #[trigger] threads[j]).0.rank()
}

/// The thread with this key waits in the queue of the class of rank `order`.
pub open spec fn queued<K>(threads: Seq<(K, Thread)>, key: K, order: int) -> bool {
    &&& holds(threads, key)
    &&& threads[place(threads, key)].1.state == ThreadState::Runnable
    &&& threads[place(threads, key)].1.effective_class.order() == order
}

/// A thread has a class that its authority permits, and runs in that one or a more urgent one;
/// it has budget left while it runs or waits to run, and none while it is throttled.
pub open spec fn sound(thread: Thread) -> bool {
    &&& thread.authority.permits(thread.base_class)
    &&& thread.effective_class.order() <= thread.base_class.order()
    &&& thread.state == ThreadState::Runnable ==> thread.budget_remaining_ns > 0
    &&& thread.state == ThreadState::Running ==> thread.budget_remaining_ns > 0
    &&& thread.state == ThreadState::Throttled ==> thread.budget_remaining_ns == 0
}

/// No thread has more budget than its class gives.
pub open spec fn budgeted<K>(threads: Seq<(K, Thread)>, config: SchedulerConfig) -> bool {
    forall|i: int|
        0 <= i < threads.len() ==> (#[trigger] threads[i]).1.budget_remaining_ns <= config.limits(
            threads[i].1.effective_class,
        ).budget_ns
}

/// Where a thread stands is determined by its key.
pub proof fn lemma_place<K: SchedulerKey>(threads: Seq<(K, Thread)>, i: int)
    requires
        sorted(threads),
        0 <= i < threads.len(),
    ensures
        holds(threads, threads[i].0),
        place(threads, threads[i].0) == i,
{
    let key = threads[i].0;
    let p = place(threads, key);
    assert(threads[p].0 == key);
    if p < i {
        assert(threads[p].0.rank() < threads[i].0.rank());
    }
    if i < p {
        assert(threads[i].0.rank() < threads[p].0.rank());
    }
}

impl<K: SchedulerKey> Table<K> {
    /// Keys are unique and ordered, every thread is sound, and each queue holds
    /// exactly the threads of its class that are ready to run, each once.
    pub open spec fn wf(self) -> bool {
        &&& sorted(self.threads)
        &&& self.queues.len() == 5
        &&& forall|i: int| 0 <= i < self.threads.len() ==> sound((#[trigger] self.threads[i]).1)
        &&& forall|c: int| 0 <= c < 5 ==> (#[trigger] self.queues[c]).no_duplicates()
        &&& forall|c: int, key: K|
            0 <= c < 5 ==> (#[trigger] self.queues[c].contains(key) <==> queued(
                self.threads,
                key,
                c,
            ))
    }

    /// Replaces the thread at `i`.
    pub open spec fn with(self, i: int, thread: Thread) -> Table<K> {
        Table { threads: self.threads.update(i, (self.threads[i].0, thread)), ..self }
    }

    /// Appends a key to the queue of a class.
    pub open spec fn enqueue(self, class: SchedulingClass, key: K) -> Table<K> {
        Table {
            queues: self.queues.update(class.order(), self.queues[class.order()].push(key)),
            ..self
        }
    }

    /// Takes a key out of the queue of a class.
    pub open spec fn dequeue(self, class: SchedulingClass, key: K) -> Table<K> {
        Table {
            queues: self.queues.update(
                class.order(),
                self.queues[class.order()].remove_value(key),
            ),
            ..self
        }
    }

    /// Replaces the thread at `i` and moves its key between queues as its state asks.
    pub open spec fn settle(self, i: int, thread: Thread) -> Table<K> {
        let (key, before) = self.threads[i];
        let was = before.state == ThreadState::Runnable;
        let is = thread.state == ThreadState::Runnable;
        if was && is && before.effective_class == thread.effective_class {
            self.with(i, thread)
        } else {
            let left = if was {
                self.dequeue(before.effective_class, key)
            } else {
                self
            };
            if is {
                left.with(i, thread).enqueue(thread.effective_class, key)
            } else {
                left.with(i, thread)
            }
        }
    }

    /// Brings the thread at `i` up to `now`.
    pub open spec fn maintain_at(
        self,
        donations: Seq<DonationChain<K>>,
        config: SchedulerConfig,
        i: int,
        now: u64,
    ) -> Table<K> {
        let (key, thread) = self.threads[i];
        let class = effective(donations, key, thread.base_class);
        self.settle(i, maintained(thread, class, config.limits(class), now))
    }

    /// Brings the first `count` threads up to `now`, in the order of their keys.
    pub open spec fn maintain_first(
        self,
        donations: Seq<DonationChain<K>>,
        config: SchedulerConfig,
        now: u64,
        count: nat,
    ) -> Table<K>
        decreases count,
    {
        if count == 0 {
            self
        } else {
            self.maintain_first(donations, config, now, (count - 1) as nat).maintain_at(
                donations,
                config,
                count - 1,
                now,
            )
        }
    }

    /// Brings the thread with this key up to `now`, if there is one.
    pub open spec fn maintain_key(
        self,
        donations: Seq<DonationChain<K>>,
        config: SchedulerConfig,
        key: K,
        now: u64,
    ) -> Table<K> {
        if holds(self.threads, key) {
            self.maintain_at(donations, config, place(self.threads, key), now)
        } else {
            self
        }
    }

    /// Brings the threads with the first `count` of these keys up to `now`.
    pub open spec fn maintain_keys(
        self,
        donations: Seq<DonationChain<K>>,
        config: SchedulerConfig,
        keys: Seq<K>,
        now: u64,
        count: nat,
    ) -> Table<K>
        decreases count,
    {
        if count == 0 {
            self
        } else {
            self.maintain_keys(donations, config, keys, now, (count - 1) as nat).maintain_key(
                donations,
                config,
                keys[count - 1],
                now,
            )
        }
    }

    /// The head of a class has waited for at least the starvation bound of the class.
    pub open spec fn starved(self, config: SchedulerConfig, order: int, now: u64) -> bool {
        &&& self.queues[order].len() > 0
        &&& ({
            let since = lookup(self.threads, self.queues[order][0])->Some_0.runnable_since_ns;
            (match since {
                Some(since) => span(since, now),
                None => 0,
            }) >= config.classes@[order].starvation_ns
        })
    }

    /// The class to run: the weakest starved one, else the strongest that has work.
    pub open spec fn choice(self, config: SchedulerConfig, now: u64) -> Option<SchedulingClass> {
        if self.starved(config, 4, now) {
            Some(SchedulingClass::Background)
        } else if self.starved(config, 3, now) {
            Some(SchedulingClass::Normal)
        } else if self.starved(config, 2, now) {
            Some(SchedulingClass::Interactive)
        } else if self.starved(config, 1, now) {
            Some(SchedulingClass::Audio)
        } else if self.starved(config, 0, now) {
            Some(SchedulingClass::Critical)
        } else if self.queues[0].len() > 0 {
            Some(SchedulingClass::Critical)
        } else if self.queues[1].len() > 0 {
            Some(SchedulingClass::Audio)
        } else if self.queues[2].len() > 0 {
            Some(SchedulingClass::Interactive)
        } else if self.queues[3].len() > 0 {
            Some(SchedulingClass::Normal)
        } else if self.queues[4].len() > 0 {
            Some(SchedulingClass::Background)
        } else {
            None
        }
    }
}

/// Taking a value out of a sequence that holds it at most once.
pub proof fn lemma_remove_value<K>(queue: Seq<K>, key: K)
    requires
        queue.no_duplicates(),
    ensures
        queue.remove_value(key).no_duplicates(),
        forall|other: K| #[trigger]
            queue.remove_value(key).contains(other) <==> other != key && queue.contains(other),
        !queue.contains(key) ==> queue.remove_value(key) == queue,
        forall|i: int|
            0 <= i < queue.len() && #[trigger] queue[i] == key ==> queue.remove_value(key)
                == queue.remove(i),
{
    queue.index_of_first_ensures(key);
    let rest = queue.remove_value(key);
    if queue.contains(key) {
        let at = queue.index_of_first(key)->Some_0;
        assert forall|other: K| #[trigger] rest.contains(other) implies other != key
            && queue.contains(other) by {
            let j = choose|j: int| 0 <= j < rest.len() && rest[j] == other;
            if j < at {
                assert(queue[j] == other);
            } else {
                assert(queue[j + 1] == other);
            }
        }
        assert forall|other: K| other != key && queue.contains(other) implies #[trigger] rest.contains(
            other,
        ) by {
            let j = choose|j: int| 0 <= j < queue.len() && queue[j] == other;
            if j < at {
                assert(rest[j] == other);
            } else {
                assert(rest[j - 1] == other);
            }
        }
    } else {
        assert forall|other: K| #[trigger] rest.contains(other) implies other != key by {}
    }
}

/// Appending a value that a sequence does not hold.
pub proof fn lemma_push_value<K>(queue: Seq<K>, key: K)
    requires
        queue.no_duplicates(),
        !queue.contains(key),
    ensures
        queue.push(key).no_duplicates(),
        forall|other: K| #[trigger]
            queue.push(key).contains(other) <==> other == key || queue.contains(other),
{
    let longer = queue.push(key);
    assert forall|other: K| #[trigger] longer.contains(other) implies other == key
        || queue.contains(other) by {
        let j = choose|j: int| 0 <= j < longer.len() && longer[j] == other;
        if j < queue.len() {
            assert(queue[j] == other);
        }
    }
    assert forall|other: K| other == key || queue.contains(other) implies #[trigger] longer.contains(
        other,
    ) by {
        if other == key {
            assert(longer[queue.len() as int] == key);
        } else {
            let j = choose|j: int| 0 <= j < queue.len() && queue[j] == other;
            assert(longer[j] == other);
        }
    }
    assert forall|i: int, j: int| 0 <= i < longer.len() && 0 <= j < longer.len() && i != j implies longer[i]
        != longer[j] by {
        if i < queue.len() {
            assert(queue.contains(queue[i]));
        }
        if j < queue.len() {
            assert(queue.contains(queue[j]));
        }
    }
}

/// Replacing a thread changes no other thread and no key.
pub proof fn lemma_with<K: SchedulerKey>(threads: Seq<(K, Thread)>, i: int, thread: Thread)
    requires
        sorted(threads),
        0 <= i < threads.len(),
    ensures
        ({
            let after = threads.update(i, (threads[i].0, thread));
            &&& sorted(after)
            &&& forall|key: K| #[trigger] holds(after, key) <==> holds(threads, key)
            &&& forall|key: K|
                #[trigger] holds(threads, key) ==> place(after, key) == place(threads, key)
            &&& forall|key: K, c: int| #[trigger]
                queued(after, key, c) <==> (if key == threads[i].0 {
                    thread.state == ThreadState::Runnable && thread.effective_class.order() == c
                } else {
                    queued(threads, key, c)
                })
        }),
{
    let after = threads.update(i, (threads[i].0, thread));
    assert forall|a: int, b: int| 0 <= a < b < after.len() implies (#[trigger] after[a]).0.rank()
        < (#[trigger] after[b]).0.rank() by {
        assert(threads[a].0.rank() < threads[b].0.rank());
    }
    assert forall|key: K| #[trigger] holds(after, key) <==> holds(threads, key) by {
        if holds(after, key) {
            let p = place(after, key);
            assert(threads[p].0 == key);
        }
        if holds(threads, key) {
            let p = place(threads, key);
            assert(after[p].0 == key);
        }
    }
    assert forall|key: K| #[trigger] holds(threads, key) implies place(after, key) == place(
        threads,
        key,
    ) by {
        let p = place(threads, key);
        assert(after[p].0 == key);
        lemma_place(after, p);
    }
    assert forall|key: K, c: int| #[trigger] queued(after, key, c) <==> (if key == threads[i].0 {
        thread.state == ThreadState::Runnable && thread.effective_class.order() == c
    } else {
        queued(threads, key, c)
    }) by {
        lemma_place(threads, i);
        if holds(threads, key) {
            let p = place(threads, key);
            assert(threads[p].0 == key);
            if key != threads[i].0 {
                assert(p != i);
            }
        }
    }
}

/// Settling a sound thread keeps a table well formed.
pub proof fn lemma_settle<K: SchedulerKey>(table: Table<K>, i: int, thread: Thread)
    requires
        table.wf(),
        0 <= i < table.threads.len(),
        sound(thread),
    ensures
        table.settle(i, thread).wf(),
        table.settle(i, thread).threads == table.threads.update(i, (table.threads[i].0, thread)),
{
    let (key, before) = table.threads[i];
    let after = table.settle(i, thread);
    lemma_with(table.threads, i, thread);
    lemma_place(table.threads, i);
    let was = before.state == ThreadState::Runnable;
    let is = thread.state == ThreadState::Runnable;
    let old_order = before.effective_class.order();
    let new_order = thread.effective_class.order();
    assert(table.queues[old_order].contains(key) <==> was);
    assert(table.queues[new_order].contains(key) <==> was && old_order == new_order);
    lemma_remove_value(table.queues[old_order], key);
    if is {
        if was && old_order == new_order {
        } else {
            lemma_push_value(table.queues[new_order], key);
        }
    }
    assert forall|c: int, other: K| 0 <= c < 5 implies (#[trigger] after.queues[c].contains(other)
        <==> queued(after.threads, other, c)) by {
        assert(table.queues[c].contains(other) <==> queued(table.threads, other, c));
        assert(table.queues[c].contains(key) <==> queued(table.threads, key, c));
    }
    assert forall|j: int| 0 <= j < after.threads.len() implies sound(
        (#[trigger] after.threads[j]).1,
    ) by {
        assert(sound(table.threads[j].1));
    }
}

/// A maintained thread is sound.
pub proof fn lemma_maintained_is_sound(
    thread: Thread,
    class: SchedulingClass,
    limits: ClassPolicy,
    now: u64,
)
    requires
        sound(thread),
        limits.usable(),
        class.order() <= thread.base_class.order(),
    ensures
        sound(maintained(thread, class, limits, now)),
        maintained(thread, class, limits, now).budget_remaining_ns <= limits.budget_ns,
        maintained(thread, class, limits, now).base_class == thread.base_class,
        maintained(thread, class, limits, now).effective_class == class,
{
}

/// Bringing a thread up to date keeps a table well formed and gives the thread the
/// class that its donations ask for.
pub proof fn lemma_maintain_at<K: SchedulerKey>(
    table: Table<K>,
    donations: Seq<DonationChain<K>>,
    config: SchedulerConfig,
    i: int,
    now: u64,
)
    requires
        table.wf(),
        config.problem() is None,
        0 <= i < table.threads.len(),
    ensures
        table.maintain_at(donations, config, i, now).wf(),
        budgeted(table.threads, config) ==> budgeted(
            table.maintain_at(donations, config, i, now).threads,
            config,
        ),
        table.maintain_at(donations, config, i, now).threads.len() == table.threads.len(),
        forall|j: int|
            0 <= j < table.threads.len() && j != i ==> #[trigger] table.maintain_at(
                donations,
                config,
                i,
                now,
            ).threads[j] == table.threads[j],
        ({
            let (key, before) = table.threads[i];
            let class = effective(donations, key, before.base_class);
            table.maintain_at(donations, config, i, now).threads[i] == (
                key,
                maintained(before, class, config.limits(class), now),
            )
        }),
{
    let (key, thread) = table.threads[i];
    let class = effective(donations, key, thread.base_class);
    assert(config.classes@[class.order()].usable());
    law_donation_never_weakens(donations, key, thread.base_class, donations.len());
    lemma_maintained_is_sound(thread, class, config.limits(class), now);
    lemma_settle(table, i, maintained(thread, class, config.limits(class), now));
}

/// Bringing the first threads up to date keeps a table well formed; each gets the
/// class that its donations ask for, and keeps its key and base class.
pub proof fn lemma_maintain_first<K: SchedulerKey>(
    table: Table<K>,
    donations: Seq<DonationChain<K>>,
    config: SchedulerConfig,
    now: u64,
    count: nat,
)
    requires
        table.wf(),
        config.problem() is None,
        count <= table.threads.len(),
    ensures
        ({
            let after = table.maintain_first(donations, config, now, count);
            &&& after.wf()
            &&& budgeted(table.threads, config) ==> budgeted(after.threads, config)
            &&& after.threads.len() == table.threads.len()
            &&& forall|j: int|
                count <= j < table.threads.len() ==> #[trigger] after.threads[j]
                    == table.threads[j]
            &&& forall|j: int|
                0 <= j < count ==> (#[trigger] after.threads[j]) == (
                    table.threads[j].0,
                    maintained(
                        table.threads[j].1,
                        effective(donations, table.threads[j].0, table.threads[j].1.base_class),
                        config.limits(
                            effective(donations, table.threads[j].0, table.threads[j].1.base_class),
                        ),
                        now,
                    ),
                )
        }),
    decreases count,
{
    if count > 0 {
        let before = table.maintain_first(donations, config, now, (count - 1) as nat);
        lemma_maintain_first(table, donations, config, now, (count - 1) as nat);
        lemma_maintain_at(before, donations, config, count - 1, now);
        assert(before.threads[count - 1] == table.threads[count - 1]);
        let after = table.maintain_first(donations, config, now, count);
        assert(after == before.maintain_at(donations, config, count - 1, now));
        assert forall|j: int| 0 <= j < count implies (#[trigger] after.threads[j]) == (
            table.threads[j].0,
            maintained(
                table.threads[j].1,
                effective(donations, table.threads[j].0, table.threads[j].1.base_class),
                config.limits(
                    effective(donations, table.threads[j].0, table.threads[j].1.base_class),
                ),
                now,
            ),
        ) by {
            if j < count - 1 {
                assert(after.threads[j] == before.threads[j]);
            }
        }
    }
}

/// Bringing threads up to date by their keys keeps a table well formed and keeps every
/// key and base class; those named get the class that their donations ask for.
pub proof fn lemma_maintain_keys<K: SchedulerKey>(
    table: Table<K>,
    donations: Seq<DonationChain<K>>,
    config: SchedulerConfig,
    keys: Seq<K>,
    now: u64,
    count: nat,
)
    requires
        table.wf(),
        config.problem() is None,
        count <= keys.len(),
    ensures
        ({
            let after = table.maintain_keys(donations, config, keys, now, count);
            &&& after.wf()
            &&& budgeted(table.threads, config) ==> budgeted(after.threads, config)
            &&& after.threads.len() == table.threads.len()
            &&& forall|j: int|
                0 <= j < table.threads.len() ==> (#[trigger] after.threads[j]).0
                    == table.threads[j].0 && after.threads[j].1.base_class
                    == table.threads[j].1.base_class
            &&& forall|j: int|
                0 <= j < table.threads.len() ==> (#[trigger] after.threads[j]).1.effective_class
                    == (if keys.take(count as int).contains(table.threads[j].0) {
                    effective(donations, table.threads[j].0, table.threads[j].1.base_class)
                } else {
                    table.threads[j].1.effective_class
                })
        }),
    decreases count,
{
    if count > 0 {
        let before = table.maintain_keys(donations, config, keys, now, (count - 1) as nat);
        lemma_maintain_keys(table, donations, config, keys, now, (count - 1) as nat);
        let key = keys[count - 1];
        let after = table.maintain_keys(donations, config, keys, now, count);
        if holds(before.threads, key) {
            let p = place(before.threads, key);
            assert(before.threads[p].0 == key);
            lemma_maintain_at(before, donations, config, p, now);
        }
        let shorter = keys.take(count - 1);
        let longer = keys.take(count as int);
        assert forall|other: K| #[trigger] longer.contains(other) <==> shorter.contains(other)
            || other == key by {
            if longer.contains(other) {
                let j = choose|j: int| 0 <= j < longer.len() && longer[j] == other;
                if j < count - 1 {
                    assert(shorter[j] == other);
                }
            }
            if shorter.contains(other) {
                let j = choose|j: int| 0 <= j < shorter.len() && shorter[j] == other;
                assert(longer[j] == other);
            }
            assert(longer[count - 1] == key);
        }
        assert forall|j: int| 0 <= j < table.threads.len() implies (
        #[trigger] after.threads[j]).1.effective_class == (if longer.contains(table.threads[j].0) {
            effective(donations, table.threads[j].0, table.threads[j].1.base_class)
        } else {
            table.threads[j].1.effective_class
        }) by {
            assert(before.threads[j].0 == table.threads[j].0);
            if table.threads[j].0 == key {
                lemma_place(before.threads, j);
            } else if holds(before.threads, key) {
                let p = place(before.threads, key);
                assert(before.threads[p].0 == key);
                assert(p != j);
            }
        }
        assert forall|j: int| 0 <= j < table.threads.len() implies (#[trigger] after.threads[j]).0
            == table.threads[j].0 && after.threads[j].1.base_class
            == table.threads[j].1.base_class by {
            assert(before.threads[j].0 == table.threads[j].0);
            if holds(before.threads, key) {
                let p = place(before.threads, key);
                if p != j {
                    assert(after.threads[j] == before.threads[j]);
                }
            }
        }
    }
}

/// Whatever is chosen has work; nothing is chosen only if there is none.
pub proof fn law_choice_has_work<K: SchedulerKey>(
    table: Table<K>,
    config: SchedulerConfig,
    now: u64,
)
    requires
        table.wf(),
    ensures
        match table.choice(config, now) {
            Some(class) => table.queues[class.order()].len() > 0,
            None => forall|c: int| 0 <= c < 5 ==> (#[trigger] table.queues[c]).len() == 0,
        },
{
}

/// A starved class is never passed over for a stronger one; without a starved class
/// the strongest class with work is chosen.
pub proof fn law_choice_is_bounded_priority<K: SchedulerKey>(
    table: Table<K>,
    config: SchedulerConfig,
    now: u64,
    order: int,
)
    requires
        table.wf(),
        0 <= order < 5,
        table.choice(config, now) is Some,
    ensures
        table.starved(config, order, now) ==> table.choice(config, now)->Some_0.order() >= order
            && table.starved(config, table.choice(config, now)->Some_0.order(), now),
        (forall|c: int| 0 <= c < 5 ==> !#[trigger] table.starved(config, c, now))
            && table.queues[order].len() > 0 ==> table.choice(config, now)->Some_0.order()
            <= order,
{
}

/// Where the key at `at` stands once another key left the queue.
pub open spec fn moved_up<K>(queue: Seq<K>, at: int, leaving: K) -> int {
    if queue.contains(leaving) && queue.index_of(leaving) < at {
        at - 1
    } else {
        at
    }
}

/// Whoever was queued first in a class stays ahead, whatever other key joins a queue or
/// leaves one; and a key that joins stands behind all others.
pub proof fn law_queues_are_first_in_first_out<K: SchedulerKey>(
    table: Table<K>,
    class: SchedulingClass,
    key: K,
    order: int,
    ahead: int,
    behind: int,
)
    requires
        table.wf(),
        0 <= order < 5,
        0 <= ahead < behind < table.queues[order].len(),
        key != table.queues[order][ahead],
        key != table.queues[order][behind],
    ensures
        table.enqueue(class, key).queues[class.order()].last() == key,
        table.enqueue(class, key).queues[order][ahead] == table.queues[order][ahead],
        table.enqueue(class, key).queues[order][behind] == table.queues[order][behind],
        ({
            let queue = table.queues[order];
            let left = table.dequeue(class, key).queues[order];
            let (first, second) = if class.order() == order {
                (moved_up(queue, ahead, key), moved_up(queue, behind, key))
            } else {
                (ahead, behind)
            };
            &&& 0 <= first < second < left.len()
            &&& left[first] == queue[ahead]
            &&& left[second] == queue[behind]
        }),
{
    let queue = table.queues[order];
    if class.order() == order && queue.contains(key) {
        queue.index_of_first_ensures(key);
        let at = queue.index_of(key);
        assert(queue[at] == key);
    } else if class.order() == order {
        queue.index_of_first_ensures(key);
    }
}

} // verus!
