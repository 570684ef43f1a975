//! Tokens, and the queue of registrations that are ready.
use std::collections::VecDeque;

use vstd::prelude::*;

verus! {

/// What a registration waits for.
#[derive(Clone, Copy, Debug, PartialEq, Eq, Structural)]
pub enum WaitKind {
    WaitMany,
    Sleep,
    Join,
    Request,
    ProcessTermination,
}

/// What completed a registration.
#[derive(Clone, Copy, Debug, PartialEq, Eq, Structural)]
pub enum WakeCause {
    Object,
    Dependency,
    Deadline,
}

/// Why a runtime or a registration could not be made.
#[derive(Clone, Copy, Debug, PartialEq, Eq, Structural)]
pub enum WaitRuntimeError {
    InvalidCapacity,
    CapacityTooLarge,
    CapacityReached,
    OutOfMemory,
}

/// Counters of a runtime.
#[derive(Clone, Copy, Debug, PartialEq, Eq, Structural)]
pub struct WaitRuntimeDiagnostics {
    pub active: usize,
    pub peak_active: usize,
    pub object_notifications: u64,
    pub dependency_notifications: u64,
    pub coalesced_notifications: u64,
    pub stale_notifications: u64,
    pub deadline_wakes: u64,
    pub cancellations: u64,
    pub queue_peak: usize,
}

/// Counters of a runtime that has done nothing.
pub open spec fn no_diagnostics() -> WaitRuntimeDiagnostics {
    WaitRuntimeDiagnostics {
        active: 0,
        peak_active: 0,
        object_notifications: 0,
        dependency_notifications: 0,
        coalesced_notifications: 0,
        stale_notifications: 0,
        deadline_wakes: 0,
        cancellations: 0,
        queue_peak: 0,
    }
}

impl Default for WaitRuntimeDiagnostics {
    fn default() -> (diagnostics: Self)
        ensures
            diagnostics == no_diagnostics(),
    {
        WaitRuntimeDiagnostics {
            active: 0,
            peak_active: 0,
            object_notifications: 0,
            dependency_notifications: 0,
            coalesced_notifications: 0,
            stale_notifications: 0,
            deadline_wakes: 0,
            cancellations: 0,
            queue_peak: 0,
        }
    }
}

/// Names a registration; never zero.
#[derive(Clone, Copy, Debug, PartialEq, Eq, Structural)]
pub struct WaitToken(pub u64);

impl WaitToken {
    /// A token of this number, unless it is zero.
    pub fn from_raw(raw: u64) -> (token: Option<WaitToken>)
        ensures
            token == (if raw == 0 {
                None
            } else {
                Some(WaitToken(raw))
            }),
    {
        if raw == 0 {
            None
        } else {
            Some(WaitToken(raw))
        }
    }

    /// The number of this token.
    pub fn raw(self) -> (raw: u64)
        ensures
            raw == self.0,
    {
        self.0
    }
}

/// The token of a slot and its generation.
pub open spec fn token_of(index: int, generation: u32) -> WaitToken {
    WaitToken((generation * 0x1_0000_0000 + index + 1) as u64)
}

/// The slot that a token names; one less than its low half.
pub open spec fn index_of(token: WaitToken) -> int {
    token.0 % 0x1_0000_0000 - 1
}

/// The generation that a token names; its high half.
pub open spec fn generation_of(token: WaitToken) -> int {
    token.0 as int / 0x1_0000_0000
}

/// A token names a slot of a runtime and a generation.
pub open spec fn well_made(token: WaitToken, capacity: int) -> bool {
    0 <= index_of(token) < capacity && generation_of(token) > 0
}

/// A slot and a generation are recovered from their token.
pub proof fn law_token_round_trip(index: int, generation: u32)
    requires
        0 <= index < u32::MAX,
    ensures
        index_of(token_of(index, generation)) == index,
        generation_of(token_of(index, generation)) == generation,
        token_of(index, generation).0 != 0,
{
}

/// Tokens of different slots or generations are different.
pub proof fn law_tokens_identify(left: int, left_generation: u32, right: int, right_generation: u32)
    requires
        0 <= left < u32::MAX,
        0 <= right < u32::MAX,
        token_of(left, left_generation) == token_of(right, right_generation),
    ensures
        left == right,
        left_generation == right_generation,
{
    law_token_round_trip(left, left_generation);
    law_token_round_trip(right, right_generation);
}

/// The slot and the generation of a token.
pub fn decode_token(token: WaitToken, capacity: usize) -> (decoded: Option<(usize, u32)>)
    requires
        capacity <= u32::MAX,
    ensures
        match decoded {
            Some((index, generation)) => well_made(token, capacity as int) && index == index_of(
                token,
            ) && generation == generation_of(token) && token == token_of(index as int, generation),
            None => !well_made(token, capacity as int),
        },
{
    let low: u64 = token.0 % 0x1_0000_0000;
    let high: u64 = token.0 / 0x1_0000_0000;
    if low == 0 || high == 0 {
        return None;
    }
    let index: u64 = low - 1;
    if index >= capacity as u64 {
        return None;
    }
    Some((index as usize, high as u32))
}

/// The token of a slot and a generation.
pub fn encode_token(index: usize, generation: u32) -> (token: WaitToken)
    requires
        index < u32::MAX,
    ensures
        token == token_of(index as int, generation),
{
    WaitToken(generation as u64 * 0x1_0000_0000 + index as u64 + 1)
}

/// The generation after this one, and whether there is none.
pub open spec fn generation_after(generation: u32) -> (u32, bool) {
    if generation == u32::MAX {
        (generation, true)
    } else {
        ((generation + 1) as u32, false)
    }
}

/// The generation after this one; the slot is retired when there is none.
pub fn advanced_generation(generation: u32) -> (next: (u32, bool))
    ensures
        next == generation_after(generation),
{
    if generation == u32::MAX {
        (generation, true)
    } else {
        (generation + 1, false)
    }
}

/// What the observer knows of a slot.
#[derive(Clone, Copy, Debug, PartialEq, Eq, Structural)]
pub struct ObserverSlot {
    pub generation: u32,
    pub retired: bool,
    pub active: bool,
    pub queued: bool,
}

/// A registration that is ready.
#[derive(Clone, Copy, Debug, PartialEq, Eq, Structural)]
pub struct ReadyRecord {
    pub token: WaitToken,
    pub cause: WakeCause,
}

/// The side of the runtime that notifications reach.
pub struct ObserverState {
    pub slots: Vec<ObserverSlot>,
    pub ready: VecDeque<ReadyRecord>,
    pub diagnostics: WaitRuntimeDiagnostics,
}

/// Active slots among the first `count`.
pub open spec fn active_slots(slots: Seq<ObserverSlot>, count: nat) -> nat
    decreases count,
{
    if count == 0 {
        0
    } else {
        active_slots(slots, (count - 1) as nat) + if slots[count - 1].active {
            1nat
        } else {
            0
        }
    }
}

/// Replacing a slot changes the number of active slots accordingly.
pub(crate) proof fn lemma_active_update(
    slots: Seq<ObserverSlot>,
    count: nat,
    at: int,
    slot: ObserverSlot,
)
    requires
        count <= slots.len(),
        0 <= at < slots.len(),
    ensures
        active_slots(slots.update(at, slot), count) == active_slots(slots, count) + (if at < count
            && slot.active {
            1int
        } else {
            0
        }) - (if at < count && slots[at].active {
            1int
        } else {
            0
        }),
    decreases count,
{
    if count > 0 {
        lemma_active_update(slots, (count - 1) as nat, at, slot);
    }
}

/// Bounds on the number of active slots.
pub(crate) proof fn lemma_active_bounds(slots: Seq<ObserverSlot>, count: nat)
    requires
        count <= slots.len(),
    ensures
        active_slots(slots, count) <= count,
        forall|i: int| 0 <= i < count && (#[trigger] slots[i]).active ==> active_slots(slots, count) > 0,
        forall|i: int|
            0 <= i < count && !(#[trigger] slots[i]).active ==> active_slots(slots, count) < count,
        (forall|i: int| 0 <= i < count ==> !(#[trigger] slots[i]).active) ==> active_slots(
            slots,
            count,
        ) == 0,
    decreases count,
{
    if count > 0 {
        lemma_active_bounds(slots, (count - 1) as nat);
    }
}

/// One more, up to the largest number.
pub open spec fn counted(value: u64) -> u64 {
    if value < u64::MAX {
        (value + 1) as u64
    } else {
        u64::MAX
    }
}

impl ObserverState {
    /// A token names an active registration.
    pub open spec fn current(&self, token: WaitToken) -> bool {
        &&& well_made(token, self.slots@.len() as int)
        &&& self.slots@[index_of(token)].active
        &&& self.slots@[index_of(token)].generation == generation_of(token)
    }

    /// The queue holds exactly the queued registrations, each once, and all of them
    /// are active.
    pub open spec fn wf(&self) -> bool {
        &&& self.slots@.len() <= u32::MAX
        &&& self.diagnostics.active == active_slots(self.slots@, self.slots@.len())
        &&& self.diagnostics.active <= self.diagnostics.peak_active
        &&& forall|i: int|
            0 <= i < self.slots@.len() ==> {
                &&& (#[trigger] self.slots@[i]).generation > 0
                &&& self.slots@[i].active ==> !self.slots@[i].retired
                &&& self.slots@[i].queued ==> self.slots@[i].active
                &&& self.slots@[i].queued ==> exists|r: int|
                    0 <= r < self.ready@.len() && index_of((#[trigger] self.ready@[r]).token) == i
            }
        &&& forall|r: int|
            0 <= r < self.ready@.len() ==> {
                &&& self.current((#[trigger] self.ready@[r]).token)
                &&& self.slots@[index_of(self.ready@[r].token)].queued
                &&& self.ready@[r].cause != WakeCause::Deadline
            }
        &&& forall|r: int, s: int|
            0 <= r < s < self.ready@.len() ==> index_of((#[trigger] self.ready@[r]).token)
                != index_of((#[trigger] self.ready@[s]).token)
    }

    /// What a notification of `token` makes of this observer.
    pub open spec fn notified(&self, after: ObserverState, token: WaitToken, cause: WakeCause) -> bool {
        if !self.current(token) {
            &&& after.slots@ == self.slots@
            &&& after.ready@ == self.ready@
            &&& after.diagnostics == (WaitRuntimeDiagnostics {
                stale_notifications: counted(self.diagnostics.stale_notifications),
                ..self.diagnostics
            })
        } else {
            let index = index_of(token);
            let seen = WaitRuntimeDiagnostics {
                object_notifications: if cause == WakeCause::Object {
                    counted(self.diagnostics.object_notifications)
                } else {
                    self.diagnostics.object_notifications
                },
                dependency_notifications: if cause == WakeCause::Dependency {
                    counted(self.diagnostics.dependency_notifications)
                } else {
                    self.diagnostics.dependency_notifications
                },
                ..self.diagnostics
            };
            if self.slots@[index].queued {
                &&& after.slots@ == self.slots@
                &&& after.ready@ == self.ready@
                &&& after.diagnostics == (WaitRuntimeDiagnostics {
                    coalesced_notifications: counted(seen.coalesced_notifications),
                    ..seen
                })
            } else {
                &&& after.slots@ == self.slots@.update(
                    index,
                    ObserverSlot { queued: true, ..self.slots@[index] },
                )
                &&& after.ready@ == self.ready@.push(ReadyRecord { token, cause })
                &&& after.diagnostics == (WaitRuntimeDiagnostics {
                    queue_peak: if seen.queue_peak < self.ready@.len() + 1 {
                        (self.ready@.len() + 1) as usize
                    } else {
                        seen.queue_peak
                    },
                    ..seen
                })
            }
        }
    }

    /// Queues a registration once; `false` if the token is stale.
    pub fn notify(&mut self, token: WaitToken, cause: WakeCause) -> (known: bool)
        requires
            old(self).wf(),
            cause != WakeCause::Deadline,
        ensures
            final(self).wf(),
            known == old(self).current(token),
            old(self).notified(*final(self), token, cause),
    {
        let (index, generation): (usize, u32) = match decode_token(token, self.slots.len()) {
            Some(decoded) => decoded,
            None => {
                self.diagnostics.stale_notifications =
                self.diagnostics.stale_notifications.saturating_add(1);
                return false;
            },
        };
        let slot: ObserverSlot = self.slots[index];
        if !slot.active || slot.retired || slot.generation != generation {
            self.diagnostics.stale_notifications =
            self.diagnostics.stale_notifications.saturating_add(1);
            return false;
        }
        match cause {
            WakeCause::Object => {
                self.diagnostics.object_notifications =
                self.diagnostics.object_notifications.saturating_add(1);
            },
            _ => {
                self.diagnostics.dependency_notifications =
                self.diagnostics.dependency_notifications.saturating_add(1);
            },
        }
        if slot.queued {
            self.diagnostics.coalesced_notifications =
            self.diagnostics.coalesced_notifications.saturating_add(1);
            return true;
        }
        let ghost before = *self;
        self.slots[index] = ObserverSlot {
            generation: slot.generation,
            retired: slot.retired,
            active: slot.active,
            queued: true,
        };
        self.ready.push_back(ReadyRecord { token, cause });
        let length: usize = self.ready.len();
        if self.diagnostics.queue_peak < length {
            self.diagnostics.queue_peak = length;
        }
        proof {
            lemma_active_update(
                before.slots@,
                before.slots@.len(),
                index as int,
                self.slots@[index as int],
            );
            let last = before.ready@.len() as int;
            assert(self.ready@[last] == (ReadyRecord { token, cause }));
            assert forall|i: int| 0 <= i < self.slots@.len() && (
            #[trigger] self.slots@[i]).queued implies exists|r: int|
                0 <= r < self.ready@.len() && index_of((#[trigger] self.ready@[r]).token) == i by {
                if i == index {
                    assert(index_of(self.ready@[last].token) == i);
                } else {
                    assert(before.slots@[i].queued);
                    let r = choose|r: int|
                        0 <= r < before.ready@.len() && index_of(
                            (#[trigger] before.ready@[r]).token,
                        ) == i;
                    assert(self.ready@[r] == before.ready@[r]);
                }
            }
            assert forall|r: int, s: int| 0 <= r < s < self.ready@.len() implies index_of(
                (#[trigger] self.ready@[r]).token,
            ) != index_of((#[trigger] self.ready@[s]).token) by {
                assert(self.ready@[r] == before.ready@[r]);
                assert(before.slots@[index_of(before.ready@[r].token)].queued);
            }
            assert forall|r: int| 0 <= r < self.ready@.len() implies {
                &&& self.current((#[trigger] self.ready@[r]).token)
                &&& self.slots@[index_of(self.ready@[r].token)].queued
                &&& self.ready@[r].cause != WakeCause::Deadline
            } by {
                if r < last {
                    assert(self.ready@[r] == before.ready@[r]);
                    assert(before.current(before.ready@[r].token));
                }
            }
        }
        true
    }

    /// The queue without the records of a slot.
    pub open spec fn ready_without(ready: Seq<ReadyRecord>, index: int) -> Seq<ReadyRecord> {
        ready.filter(|record: ReadyRecord| index_of(record.token) != index)
    }

    /// Takes a registration out of the queue and ends it.
    ///
    /// The slot continues with the next generation, or is retired.
    pub fn deactivate(&mut self, index: usize, generation: u32, retired: bool)
        requires
            old(self).wf(),
            index < old(self).slots@.len(),
            old(self).slots@[index as int].active,
            generation > 0,
        ensures
            final(self).wf(),
            final(self).slots@ == old(self).slots@.update(
                index as int,
                ObserverSlot { generation, retired, active: false, queued: false },
            ),
            final(self).ready@ == ObserverState::ready_without(old(self).ready@, index as int),
            final(self).diagnostics == (WaitRuntimeDiagnostics {
                active: (old(self).diagnostics.active - 1) as usize,
                ..old(self).diagnostics
            }),
    {
        let ghost before = *self;
        proof {
            lemma_active_bounds(self.slots@, self.slots@.len());
            assert(self.slots@[index as int].active);
        }
        let slot: ObserverSlot = self.slots[index];
        let ghost mut found: Option<int> = None;
        if slot.queued {
            let mut position: usize = 0;
            while position < self.ready.len()
                invariant
                    *self == before,
                    before.wf(),
                    position <= self.ready@.len(),
                    index < self.slots@.len(),
                    self.slots@[index as int].queued,
                    slot == self.slots@[index as int],
                    forall|r: int|
                        0 <= r < position ==> index_of((#[trigger] self.ready@[r]).token) != index,
                ensures
                    *self == before,
                    position < self.ready@.len(),
                    index_of(self.ready@[position as int].token) == index,
                decreases self.ready@.len() - position,
            {
                let record: ReadyRecord = self.ready[position];
                assert(self.current(self.ready@[position as int].token));
                if record.token.0 % 0x1_0000_0000 - 1 == index as u64 {
                    break;
                }
                position += 1;
            }
            proof {
                lemma_filter_one(before.ready@, position as int);
                found = Some(position as int);
            }
            self.ready.remove(position);
        } else {
            proof {
                assert forall|r: int| 0 <= r < before.ready@.len() implies index_of(
                    (#[trigger] before.ready@[r]).token,
                ) != index by {
                    assert(before.slots@[index_of(before.ready@[r].token)].queued);
                }
                lemma_filter_none(before.ready@, index as int);
            }
        }
        self.slots[index] = ObserverSlot { generation, retired, active: false, queued: false };
        self.diagnostics.active = self.diagnostics.active - 1;
        proof {
            lemma_active_update(
                before.slots@,
                before.slots@.len(),
                index as int,
                self.slots@[index as int],
            );
            lemma_deactivated(before, *self, index as int, found);
        }
    }

    /// Begins a registration in a slot.
    pub fn activate(&mut self, index: usize)
        requires
            old(self).wf(),
            index < old(self).slots@.len(),
            !old(self).slots@[index as int].active,
            !old(self).slots@[index as int].retired,
        ensures
            final(self).wf(),
            final(self).slots@ == old(self).slots@.update(
                index as int,
                ObserverSlot { active: true, ..old(self).slots@[index as int] },
            ),
            final(self).ready@ == old(self).ready@,
            final(self).diagnostics == (WaitRuntimeDiagnostics {
                active: (old(self).diagnostics.active + 1) as usize,
                peak_active: if old(self).diagnostics.peak_active < old(self).diagnostics.active + 1 {
                    (old(self).diagnostics.active + 1) as usize
                } else {
                    old(self).diagnostics.peak_active
                },
                ..old(self).diagnostics
            }),
    {
        let ghost before = *self;
        proof {
            lemma_active_bounds(self.slots@, self.slots@.len());
            assert(!self.slots@[index as int].active);
        }
        let slot: ObserverSlot = self.slots[index];
        self.slots[index] = ObserverSlot {
            generation: slot.generation,
            retired: slot.retired,
            active: true,
            queued: slot.queued,
        };
        assert(self.slots.len() == before.slots@.len());
        self.diagnostics.active = self.diagnostics.active + 1;
        if self.diagnostics.peak_active < self.diagnostics.active {
            self.diagnostics.peak_active = self.diagnostics.active;
        }
        proof {
            lemma_active_update(
                before.slots@,
                before.slots@.len(),
                index as int,
                self.slots@[index as int],
            );
            assert forall|r: int| 0 <= r < self.ready@.len() implies self.current(
                (#[trigger] self.ready@[r]).token,
            ) by {
                assert(before.current(before.ready@[r].token));
            }
            assert forall|i: int| 0 <= i < self.slots@.len() && (
            #[trigger] self.slots@[i]).queued implies exists|r: int|
                0 <= r < self.ready@.len() && index_of((#[trigger] self.ready@[r]).token) == i by {
                assert(before.slots@[i].queued);
            }
        }
    }
}

/// Where a slot has one record, leaving it out removes that record.
pub(crate) proof fn lemma_filter_one(ready: Seq<ReadyRecord>, at: int)
    requires
        0 <= at < ready.len(),
        forall|r: int, s: int|
            0 <= r < s < ready.len() ==> index_of((#[trigger] ready[r]).token) != index_of(
                (#[trigger] ready[s]).token,
            ),
    ensures
        ObserverState::ready_without(ready, index_of(ready[at].token)) == ready.remove(at),
    decreases ready.len(),
{
    let index = index_of(ready[at].token);
    let keep = |record: ReadyRecord| index_of(record.token) != index;
    reveal(Seq::filter);
    let rest = ready.drop_last();
    if at == ready.len() - 1 {
        lemma_filter_none(rest, index);
        assert(ready.remove(at) =~= rest);
    } else {
        lemma_filter_one(rest, at);
        assert(rest[at] == ready[at]);
        assert(ready.remove(at) =~= rest.remove(at).push(ready.last()));
    }
}

/// Where a slot has no record, leaving it out changes nothing.
pub(crate) proof fn lemma_filter_none(ready: Seq<ReadyRecord>, index: int)
    requires
        forall|r: int| 0 <= r < ready.len() ==> index_of((#[trigger] ready[r]).token) != index,
    ensures
        ObserverState::ready_without(ready, index) == ready,
    decreases ready.len(),
{
    reveal(Seq::filter);
    if ready.len() > 0 {
        let rest = ready.drop_last();
        assert forall|r: int| 0 <= r < rest.len() implies index_of((#[trigger] rest[r]).token)
            != index by {
            assert(rest[r] == ready[r]);
        }
        lemma_filter_none(rest, index);
        assert(rest.push(ready.last()) =~= ready);
    }
}

/// Ending a registration and taking its record out of the queue keeps an observer well formed.
proof fn lemma_deactivated(
    before: ObserverState,
    after: ObserverState,
    index: int,
    found: Option<int>,
)
    requires
        before.wf(),
        0 <= index < before.slots@.len(),
        after.slots@ == before.slots@.update(index, after.slots@[index]),
        !after.slots@[index].active,
        !after.slots@[index].queued,
        after.slots@[index].generation > 0,
        after.diagnostics.active == active_slots(after.slots@, after.slots@.len()),
        after.diagnostics.active <= after.diagnostics.peak_active,
        match found {
            Some(at) => 0 <= at < before.ready@.len() && index_of(before.ready@[at].token) == index
                && after.ready@ == before.ready@.remove(at),
            None => after.ready@ == before.ready@ && forall|r: int|
                0 <= r < before.ready@.len() ==> index_of((#[trigger] before.ready@[r]).token)
                    != index,
        },
    ensures
        after.wf(),
{
    let all = before.ready@;
    let rest = after.ready@;
    assert forall|r: int| 0 <= r < rest.len() implies {
        &&& after.current((#[trigger] rest[r]).token)
        &&& after.slots@[index_of(rest[r].token)].queued
        &&& rest[r].cause != WakeCause::Deadline
    } by {
        let s = if found is Some && r >= found->Some_0 {
            r + 1
        } else {
            r
        };
        assert(rest[r] == all[s]);
        assert(before.current(all[s].token));
        if found is Some {
            let at = found->Some_0;
            if s < at {
                assert(index_of(all[s].token) != index_of(all[at].token));
            } else {
                assert(index_of(all[at].token) != index_of(all[s].token));
            }
        }
    }
    assert forall|r: int, t: int| 0 <= r < t < rest.len() implies index_of(
        (#[trigger] rest[r]).token,
    ) != index_of((#[trigger] rest[t]).token) by {
        let s = if found is Some && r >= found->Some_0 {
            r + 1
        } else {
            r
        };
        let u = if found is Some && t >= found->Some_0 {
            t + 1
        } else {
            t
        };
        assert(rest[r] == all[s]);
        assert(rest[t] == all[u]);
    }
    assert forall|i: int| 0 <= i < after.slots@.len() implies {
        &&& (#[trigger] after.slots@[i]).generation > 0
        &&& after.slots@[i].active ==> !after.slots@[i].retired
        &&& after.slots@[i].queued ==> after.slots@[i].active
        &&& after.slots@[i].queued ==> exists|r: int|
            0 <= r < rest.len() && index_of((#[trigger] rest[r]).token) == i
    } by {
        if i != index {
            assert(after.slots@[i] == before.slots@[i]);
            if before.slots@[i].queued {
                let s = choose|s: int|
                    0 <= s < all.len() && index_of((#[trigger] all[s]).token) == i;
                let r = if found is Some && s > found->Some_0 {
                    s - 1
                } else {
                    s
                };
                assert(rest[r] == all[s]);
            }
        }
    }
}

} // verus!
