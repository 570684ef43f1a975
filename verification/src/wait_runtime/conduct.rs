//! What holds of a wait from its registration to its end.
use vstd::prelude::*;

use crate::thread_scheduler::policy::SchedulerKey;

use super::deadlines::{same_waits, WaitSlot};
use super::observer::{
    index_of, law_token_round_trip, lemma_active_bounds, lemma_filter_none, lemma_filter_one,
    token_of, ObserverState, ReadyRecord, WaitKind, WaitRuntimeDiagnostics, WaitRuntimeError,
    WaitToken, WakeCause,
};
use super::runtime::{first_deadline, first_of_key, first_vacant, WaitRuntime, WaitWake};

verus! {

/// A counter that was raised once, and that stops at its largest value.
pub open spec fn raised(value: u64) -> u64 {
    if value == 0xffff_ffff_ffff_ffff {
        value
    } else {
        (value + 1) as u64
    }
}

/// Where a token points, counted from one in its lower half.
pub open spec fn slot_of(token: WaitToken) -> int {
    token.0 as int % 0x1_0000_0000 - 1
}

/// The waits but one are as they were.
pub open spec fn other_waits_stay<K: SchedulerKey>(
    before: WaitRuntime<K>,
    after: WaitRuntime<K>,
    at: int,
) -> bool {
    &&& before.waits.slots@.len() == after.waits.slots@.len()
    &&& forall|i: int|
        0 <= i < before.waits.slots@.len() && i != at ==> {
            let slot = #[trigger] after.waits.slots@[i];
            let old_slot = before.waits.slots@[i];
            &&& slot.key == old_slot.key
            &&& slot.kind == old_slot.kind
            &&& slot.deadline_ns == old_slot.deadline_ns
            &&& slot.generation == old_slot.generation
            &&& slot.retired == old_slot.retired
        }
}

/// A registered wait stands in the lowest slot that was free, with the key, the kind and the
/// deadline that were given, and its token names the slot in the lower half and the slot's
/// generation in the upper; it is active and not ready.
pub proof fn law_registered_waits_hold_what_was_given<K: SchedulerKey>(
    before: WaitRuntime<K>,
    after: WaitRuntime<K>,
    key: K,
    kind: WaitKind,
    deadline_ns: Option<u64>,
    token: WaitToken,
)
    requires
        before.wf(),
        before.registers(after, key, kind, deadline_ns, Ok(token)),
    ensures
        0 <= slot_of(token) < before.waits.slots@.len(),
        before.waits.slots@[slot_of(token)].key is None,
        !before.waits.slots@[slot_of(token)].retired,
        forall|i: int|
            0 <= i < slot_of(token) ==> (#[trigger] before.waits.slots@[i]).key is Some
                || before.waits.slots@[i].retired,
        after.waits.slots@[slot_of(token)].key == Some(key),
        after.waits.slots@[slot_of(token)].kind == kind,
        after.waits.slots@[slot_of(token)].deadline_ns == deadline_ns,
        after.waits.slots@[slot_of(token)].generation
            == before.waits.slots@[slot_of(token)].generation,
        token.0 as int / 0x1_0000_0000 == before.waits.slots@[slot_of(token)].generation,
        other_waits_stay(before, after, slot_of(token)),
        after.observer.ready@ == before.observer.ready@,
        after.observer.diagnostics.active == before.observer.diagnostics.active + 1,
        after.observer.diagnostics.peak_active >= before.observer.diagnostics.active + 1,
        after.observer.diagnostics.peak_active == before.observer.diagnostics.peak_active
            || after.observer.diagnostics.peak_active == after.observer.diagnostics.active,
        after.observer.diagnostics.queue_peak == before.observer.diagnostics.queue_peak,
        after.observer.diagnostics.cancellations == before.observer.diagnostics.cancellations,
        after.observer.diagnostics.deadline_wakes == before.observer.diagnostics.deadline_wakes,
{
    let slots = before.waits.slots@;
    let at = choose|at: int| #[trigger]
        first_vacant(slots, at) && token == token_of(at, slots[at].generation) && same_waits(
            after.waits.slots@,
            slots.update(at, WaitSlot { key: Some(key), kind, deadline_ns, ..slots[at] }),
        );
    law_token_round_trip(at, slots[at].generation);
    assert(slot_of(token) == at);
    let observed = before.observer.slots@;
    lemma_active_bounds(observed, observed.len());
    assert(!observed[at].active) by {
        assert(slots[at].key is None);
    }
}

/// A runtime is full only when every slot is taken or used up, and is then left alone.
pub proof fn law_full_runtimes_refuse<K: SchedulerKey>(
    before: WaitRuntime<K>,
    after: WaitRuntime<K>,
    key: K,
    kind: WaitKind,
    deadline_ns: Option<u64>,
    error: WaitRuntimeError,
)
    requires
        before.registers(after, key, kind, deadline_ns, Err(error)),
    ensures
        error == WaitRuntimeError::CapacityReached,
        after == before,
        forall|i: int|
            0 <= i < before.waits.slots@.len() ==> (#[trigger] before.waits.slots@[i]).key is Some
                || before.waits.slots@[i].retired,
{
}

/// The wait of a slot is over: the slot is empty, no token of it is good any more, and what was
/// ready of it is gone, while all else stays ready in its order.
pub open spec fn wait_is_over<K: SchedulerKey>(
    before: WaitRuntime<K>,
    after: WaitRuntime<K>,
    at: int,
) -> bool {
    let slot = after.waits.slots@[at];
    let generation = before.waits.slots@[at].generation;
    let ready = before.observer.ready@;
    &&& other_waits_stay(before, after, at)
    &&& slot.key is None
    &&& slot.deadline_ns is None
    &&& generation < 0xffff_ffff ==> slot.generation == generation + 1 && !slot.retired
    &&& generation == 0xffff_ffff ==> slot.generation == generation && slot.retired
    &&& forall|r: int|
        0 <= r < ready.len() && slot_of((#[trigger] ready[r]).token) == at
            ==> after.observer.ready@ == ready.remove(r)
    &&& (forall|r: int| 0 <= r < ready.len() ==> slot_of((#[trigger] ready[r]).token) != at)
        ==> after.observer.ready@ == ready
}

/// Ending a wait ends it in every respect.
proof fn lemma_ends<K: SchedulerKey>(
    before: WaitRuntime<K>,
    after: WaitRuntime<K>,
    at: int,
    diagnostics: WaitRuntimeDiagnostics,
)
    requires
        before.wf(),
        0 <= at < before.waits.slots@.len(),
        before.ends(after, at, diagnostics),
    ensures
        wait_is_over(before, after, at),
{
    let ready = before.observer.ready@;
    assert forall|r: int|
        0 <= r < ready.len() && slot_of((#[trigger] ready[r]).token)
            == at implies after.observer.ready@ == ready.remove(r) by {
        lemma_filter_one(ready, r);
        assert(index_of(ready[r].token) == at);
    }
    if forall|r: int| 0 <= r < ready.len() ==> slot_of((#[trigger] ready[r]).token) != at {
        assert forall|r: int| 0 <= r < ready.len() implies index_of((#[trigger] ready[r]).token)
            != at by {
            assert(slot_of(ready[r].token) != at);
        }
        lemma_filter_none(ready, at);
    }
}

/// Only the wait that a token was given for can be canceled with it; it is over then, and
/// counted once.
pub proof fn law_cancel_ends_the_tokens_wait<K: SchedulerKey>(
    before: WaitRuntime<K>,
    after: WaitRuntime<K>,
    token: WaitToken,
    canceled: bool,
)
    requires
        before.wf(),
        before.cancels(after, token, canceled),
    ensures
        ({
            let at = slot_of(token);
            canceled <==> 0 <= at < before.waits.slots@.len() && token.0 >= 0x1_0000_0000
                && before.waits.slots@[at].key is Some && before.waits.slots@[at].generation
                == token.0 as int / 0x1_0000_0000
        }),
        !canceled ==> after == before,
        canceled ==> wait_is_over(before, after, slot_of(token)),
        canceled ==> after.observer.diagnostics == (WaitRuntimeDiagnostics {
            cancellations: raised(before.observer.diagnostics.cancellations),
            active: (before.observer.diagnostics.active - 1) as usize,
            ..before.observer.diagnostics
        }),
{
    assert(slot_of(token) == index_of(token));
    if canceled {
        lemma_ends(before, after, slot_of(token), after.observer.diagnostics);
    }
}

/// Canceling by key ends the wait of that key in the lowest slot.
pub proof fn law_cancel_by_key_ends_the_first<K: SchedulerKey>(
    before: WaitRuntime<K>,
    after: WaitRuntime<K>,
    key: K,
    at: int,
)
    requires
        before.wf(),
        before.cancels_key(after, key, true),
        0 <= at < before.waits.slots@.len(),
        before.waits.slots@[at].key == Some(key),
        forall|i: int| 0 <= i < at ==> (#[trigger] before.waits.slots@[i]).key != Some(key),
    ensures
        wait_is_over(before, after, at),
        after.observer.diagnostics == (WaitRuntimeDiagnostics {
            cancellations: raised(before.observer.diagnostics.cancellations),
            active: (before.observer.diagnostics.active - 1) as usize,
            ..before.observer.diagnostics
        }),
{
    let first = choose|first: int| #[trigger]
        first_of_key(before.waits.slots@, key, first) && before.ends(
            after,
            first,
            after.observer.diagnostics,
        );
    assert(exists|first: int| #[trigger]
        first_of_key(before.waits.slots@, key, first) && before.ends(
            after,
            first,
            after.observer.diagnostics,
        ));
    if first < at {
        assert(before.waits.slots@[first].key == Some(key));
    }
    lemma_ends(before, after, at, after.observer.diagnostics);
}

/// What is reported of a wait is what was registered.
pub open spec fn reports_the_wait<K: SchedulerKey>(
    before: WaitRuntime<K>,
    wake: WaitWake<K>,
    at: int,
) -> bool {
    &&& 0 <= at < before.waits.slots@.len()
    &&& before.waits.slots@[at].key == Some(wake.key)
    &&& wake.kind == before.waits.slots@[at].kind
    &&& wake.deadline_ns == before.waits.slots@[at].deadline_ns
    &&& slot_of(wake.token) == at
    &&& wake.token.0 as int / 0x1_0000_0000 == before.waits.slots@[at].generation
}

/// Notifications are answered before deadlines, in the order in which they came, with the
/// cause of the first one; the wait is over, and no deadline is counted.
pub proof fn law_notified_waits_wake_in_order<K: SchedulerKey>(
    before: WaitRuntime<K>,
    after: WaitRuntime<K>,
    now_ns: u64,
    wake: Option<WaitWake<K>>,
)
    requires
        before.wf(),
        before.observer.ready@.len() > 0,
        before.wakes(after, now_ns, wake),
    ensures
        wake is Some,
        wake->Some_0.token == before.observer.ready@[0].token,
        wake->Some_0.cause == before.observer.ready@[0].cause,
        reports_the_wait(before, wake->Some_0, slot_of(wake->Some_0.token)),
        wait_is_over(before, after, slot_of(wake->Some_0.token)),
        after.observer.ready@ == before.observer.ready@.subrange(
            1,
            before.observer.ready@.len() as int,
        ),
        after.observer.diagnostics == (WaitRuntimeDiagnostics {
            active: (before.observer.diagnostics.active - 1) as usize,
            ..before.observer.diagnostics
        }),
{
    let record = before.observer.ready@[0];
    let at = index_of(record.token);
    law_token_round_trip(at, before.waits.slots@[at].generation);
    lemma_ends(before, after, at, before.one_less());
}

/// Where nothing was notified, the earliest deadline that has come ends its wait, and none
/// that has not come does.
pub proof fn law_deadlines_wake_when_they_come<K: SchedulerKey>(
    before: WaitRuntime<K>,
    after: WaitRuntime<K>,
    now_ns: u64,
    wake: Option<WaitWake<K>>,
)
    requires
        before.wf(),
        before.observer.ready@.len() == 0,
        before.wakes(after, now_ns, wake),
    ensures
        wake is Some <==> exists|i: int|
            0 <= i < before.waits.slots@.len() && comes_by(#[trigger] before.waits.slots@[i], now_ns),
        wake is None ==> after == before,
        wake matches Some(found) ==> {
            &&& found.cause == WakeCause::Deadline
            &&& reports_the_wait(before, found, slot_of(found.token))
            &&& found.deadline_ns is Some && found.deadline_ns->Some_0 <= now_ns
            &&& forall|i: int|
                0 <= i < before.waits.slots@.len() && (#[trigger] before.waits.slots@[i]).key is Some
                    && before.waits.slots@[i].deadline_ns is Some
                    ==> before.waits.slots@[i].deadline_ns->Some_0 >= found.deadline_ns->Some_0
            &&& wait_is_over(before, after, slot_of(found.token))
            &&& after.observer.diagnostics == (WaitRuntimeDiagnostics {
                deadline_wakes: raised(before.observer.diagnostics.deadline_wakes),
                active: (before.observer.diagnostics.active - 1) as usize,
                ..before.observer.diagnostics
            })
        },
{
    let slots = before.waits.slots@;
    if let Some(found) = wake {
        let at = choose|at: int| #[trigger]
            first_deadline(slots, at) && slots[at].deadline_ns->Some_0 <= now_ns && found
                == before.wake_of(at, WakeCause::Deadline) && before.ends(
                after,
                at,
                after.observer.diagnostics,
            );
        assert(exists|at: int| #[trigger]
            first_deadline(slots, at) && slots[at].deadline_ns->Some_0 <= now_ns && found
                == before.wake_of(at, WakeCause::Deadline) && before.ends(
                after,
                at,
                after.observer.diagnostics,
            ));
        law_token_round_trip(at, slots[at].generation);
        lemma_ends(before, after, at, after.observer.diagnostics);
        assert(comes_by(slots[at], now_ns));
        assert forall|i: int|
            0 <= i < slots.len() && (#[trigger] slots[i]).key is Some
                && slots[i].deadline_ns is Some implies slots[i].deadline_ns->Some_0
            >= found.deadline_ns->Some_0 by {
            assert(super::runtime::due(slots[i]));
        }
    } else {
        assert forall|i: int| 0 <= i < slots.len() implies !comes_by(#[trigger] slots[i], now_ns) by {
            if comes_by(slots[i], now_ns) {
                assert(super::runtime::due(slots[i]));
            }
        }
    }
}

/// A wait whose deadline is not later than the time.
pub open spec fn comes_by<K: SchedulerKey>(slot: WaitSlot<K>, now_ns: u64) -> bool {
    slot.key is Some && slot.deadline_ns is Some && !(slot.deadline_ns->Some_0 > now_ns)
}

/// A notification: a token that is not good any more is only counted as stale; a wait that is
/// ready already is counted once more and keeps its place and its first cause; any other goes
/// behind those that are ready.
pub proof fn law_notifications_queue_once(
    before: ObserverState,
    after: ObserverState,
    token: WaitToken,
    cause: WakeCause,
)
    requires
        before.notified(after, token, cause),
        cause != WakeCause::Deadline,
    ensures
        ({
            let at = slot_of(token);
            let good = 0 <= at < before.slots@.len() && token.0 >= 0x1_0000_0000
                && before.slots@[at].active && before.slots@[at].generation == token.0 as int
                / 0x1_0000_0000;
            let old_counts = before.diagnostics;
            let counts = after.diagnostics;
            &&& !good ==> after.slots@ == before.slots@ && after.ready@ == before.ready@ && counts
                == (WaitRuntimeDiagnostics {
                stale_notifications: raised(old_counts.stale_notifications),
                ..old_counts
            })
            &&& good ==> {
                &&& counts.stale_notifications == old_counts.stale_notifications
                &&& cause == WakeCause::Object ==> counts.object_notifications == raised(
                    old_counts.object_notifications,
                ) && counts.dependency_notifications == old_counts.dependency_notifications
                &&& cause == WakeCause::Dependency ==> counts.dependency_notifications == raised(
                    old_counts.dependency_notifications,
                ) && counts.object_notifications == old_counts.object_notifications
                &&& counts.active == old_counts.active
                &&& counts.peak_active == old_counts.peak_active
                &&& counts.cancellations == old_counts.cancellations
                &&& counts.deadline_wakes == old_counts.deadline_wakes
            }
            &&& good && before.slots@[at].queued ==> {
                &&& after.ready@ == before.ready@
                &&& after.slots@ == before.slots@
                &&& counts.coalesced_notifications == raised(old_counts.coalesced_notifications)
                &&& counts.queue_peak == old_counts.queue_peak
            }
            &&& good && !before.slots@[at].queued ==> {
                &&& after.ready@ == before.ready@ + seq![ReadyRecord { token, cause }]
                &&& after.slots@[at].queued
                &&& after.slots@[at].active
                &&& after.slots@[at].generation == before.slots@[at].generation
                &&& forall|i: int|
                    0 <= i < before.slots@.len() && i != at ==> #[trigger] after.slots@[i]
                        == before.slots@[i]
                &&& counts.coalesced_notifications == old_counts.coalesced_notifications
                &&& after.ready@.len() <= usize::MAX ==> counts.queue_peak >= after.ready@.len()
                    && counts.queue_peak >= old_counts.queue_peak && (counts.queue_peak
                    == old_counts.queue_peak || counts.queue_peak == after.ready@.len())
            }
        }),
{
    assert(slot_of(token) == index_of(token));
}

} // verus!
