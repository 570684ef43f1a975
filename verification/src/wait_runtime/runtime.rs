//! The runtime: registering, cancelling and waking.
use std::collections::VecDeque;

use vstd::prelude::*;

use crate::storage::{reserve_exact, reserve_queue_exact};
use crate::thread_scheduler::policy::SchedulerKey;
use crate::thread_scheduler::scheduler::same;

use super::deadlines::{lemma_first_is_least, same_wait, same_waits, DeadlineEntry, WaitSlot, Waits};
use super::observer::{
    advanced_generation, counted, decode_token, encode_token, generation_after, generation_of,
    index_of, law_token_round_trip, lemma_active_bounds, no_diagnostics, token_of, well_made,
    ObserverSlot, ObserverState, ReadyRecord, WaitKind, WaitRuntimeDiagnostics, WaitRuntimeError,
    WaitToken, WakeCause,
};

verus! {

/// A completed wait.
#[derive(Clone, Copy, Debug, PartialEq, Eq)]
pub struct WaitWake<K> {
    pub token: WaitToken,
    pub key: K,
    pub kind: WaitKind,
    pub cause: WakeCause,
    pub deadline_ns: Option<u64>,
}

/// Maps opaque tokens to scheduler keys, with a fixed capacity.
///
/// All storage is reserved when the runtime is made.
pub struct WaitRuntime<K: SchedulerKey> {
    pub waits: Waits<K>,
    pub observer: ObserverState,
}

/// A slot can take a registration.
pub open spec fn vacant<K>(slot: WaitSlot<K>) -> bool {
    slot.key is None && !slot.retired
}

/// The first slot that can take a registration.
pub open spec fn first_vacant<K>(slots: Seq<WaitSlot<K>>, at: int) -> bool {
    &&& 0 <= at < slots.len()
    &&& vacant(slots[at])
    &&& forall|i: int| 0 <= i < at ==> !vacant(#[trigger] slots[i])
}

/// The first slot that a key occupies.
pub open spec fn first_of_key<K>(slots: Seq<WaitSlot<K>>, key: K, at: int) -> bool {
    &&& 0 <= at < slots.len()
    &&& slots[at].key == Some(key)
    &&& forall|i: int| 0 <= i < at ==> (#[trigger] slots[i]).key != Some(key)
}

/// The slot at `at` has the deadline that comes first.
pub open spec fn first_deadline<K>(slots: Seq<WaitSlot<K>>, at: int) -> bool {
    &&& 0 <= at < slots.len()
    &&& due(slots[at])
    &&& forall|i: int|
        0 <= i < slots.len() && due(#[trigger] slots[i]) ==> !deadline_entry(slots, i).before(
            deadline_entry(slots, at),
        )
}

/// The slot holds a registration with a deadline.
pub open spec fn due<K>(slot: WaitSlot<K>) -> bool {
    slot.key is Some && slot.deadline_ns is Some
}

/// The deadline of a slot with its token.
pub open spec fn deadline_entry<K>(slots: Seq<WaitSlot<K>>, at: int) -> DeadlineEntry {
    DeadlineEntry {
        deadline_ns: slots[at].deadline_ns->Some_0,
        token: token_of(at, slots[at].generation),
    }
}

/// A slot after its registration ended.
pub open spec fn vacated<K>(slot: WaitSlot<K>) -> WaitSlot<K> {
    WaitSlot {
        generation: generation_after(slot.generation).0,
        retired: generation_after(slot.generation).1,
        key: None,
        deadline_ns: None,
        ..slot
    }
}

impl<K: SchedulerKey> WaitRuntime<K> {
    /// Slots, heap and observer agree.
    pub open spec fn wf(&self) -> bool {
        &&& self.waits.wf()
        &&& self.observer.wf()
        &&& self.waits.slots@.len() == self.observer.slots@.len()
        &&& forall|i: int|
            0 <= i < self.waits.slots@.len() ==> agree(
                #[trigger] self.waits.slots@[i],
                self.observer.slots@[i],
            )
    }

    /// A token names an active registration.
    pub open spec fn current(&self, token: WaitToken) -> bool {
        &&& well_made(token, self.waits.slots@.len() as int)
        &&& self.waits.slots@[index_of(token)].key is Some
        &&& self.waits.slots@[index_of(token)].generation == generation_of(token)
    }

    /// The registration at `at` ended; `diagnostics` are the counters afterwards.
    pub open spec fn ends(
        &self,
        after: WaitRuntime<K>,
        at: int,
        diagnostics: WaitRuntimeDiagnostics,
    ) -> bool {
        &&& same_waits(
            after.waits.slots@,
            self.waits.slots@.update(at, vacated(self.waits.slots@[at])),
        )
        &&& after.observer.ready@ == ObserverState::ready_without(self.observer.ready@, at)
        &&& after.observer.diagnostics == diagnostics
    }

    /// The counters with one registration less.
    pub open spec fn one_less(&self) -> WaitRuntimeDiagnostics {
        WaitRuntimeDiagnostics {
            active: (self.observer.diagnostics.active - 1) as usize,
            ..self.observer.diagnostics
        }
    }

    /// A runtime for at most `capacity` registrations at a time.
    pub fn try_new(capacity: usize) -> (result: Result<Self, WaitRuntimeError>)
        ensures
            match result {
                Ok(runtime) => {
                    &&& 0 < capacity <= u32::MAX
                    &&& runtime.wf()
                    &&& runtime.waits.slots@.len() == capacity
                    &&& runtime.observer.ready@.len() == 0
                    &&& runtime.observer.diagnostics == no_diagnostics()
                    &&& forall|i: int|
                        0 <= i < capacity ==> vacant(#[trigger] runtime.waits.slots@[i])
                            && runtime.waits.slots@[i].generation == 1
                },
                Err(error) => error == (if capacity == 0 {
                    WaitRuntimeError::InvalidCapacity
                } else if capacity > u32::MAX {
                    WaitRuntimeError::CapacityTooLarge
                } else {
                    WaitRuntimeError::OutOfMemory
                }),
            },
    {
        if capacity == 0 {
            return Err(WaitRuntimeError::InvalidCapacity);
        }
        if capacity > 0xffff_ffff {
            return Err(WaitRuntimeError::CapacityTooLarge);
        }
        let mut slots: Vec<WaitSlot<K>> = Vec::new();
        if !reserve_exact(&mut slots, capacity) {
            return Err(WaitRuntimeError::OutOfMemory);
        }
        let mut deadlines: Vec<DeadlineEntry> = Vec::new();
        if !reserve_exact(&mut deadlines, capacity) {
            return Err(WaitRuntimeError::OutOfMemory);
        }
        let mut observed: Vec<ObserverSlot> = Vec::new();
        if !reserve_exact(&mut observed, capacity) {
            return Err(WaitRuntimeError::OutOfMemory);
        }
        let mut ready: VecDeque<ReadyRecord> = VecDeque::new();
        if !reserve_queue_exact(&mut ready, capacity) {
            return Err(WaitRuntimeError::OutOfMemory);
        }
        let mut index: usize = 0;
        while index < capacity
            invariant
                index <= capacity,
                slots@.len() == index,
                observed@.len() == index,
                forall|i: int|
                    0 <= i < index ==> {
                        &&& vacant(#[trigger] slots@[i])
                        &&& slots@[i].generation == 1
                        &&& slots@[i].deadline_ns is None
                        &&& slots@[i].heap_index is None
                    },
                forall|i: int|
                    0 <= i < index ==> #[trigger] observed@[i] == (ObserverSlot {
                        generation: 1,
                        retired: false,
                        active: false,
                        queued: false,
                    }),
            decreases capacity - index,
        {
            slots.push(
                WaitSlot {
                    generation: 1,
                    retired: false,
                    key: None,
                    kind: WaitKind::WaitMany,
                    deadline_ns: None,
                    heap_index: None,
                },
            );
            observed.push(
                ObserverSlot { generation: 1, retired: false, active: false, queued: false },
            );
            index += 1;
        }
        proof {
            lemma_active_bounds(observed@, observed@.len());
        }
        Ok(
            WaitRuntime {
                waits: Waits { slots, deadlines },
                observer: ObserverState {
                    slots: observed,
                    ready,
                    diagnostics: WaitRuntimeDiagnostics::default(),
                },
            },
        )
    }

    /// Number of slots.
    pub fn capacity(&self) -> (capacity: usize)
        ensures
            capacity == self.waits.slots@.len(),
    {
        self.waits.slots.len()
    }

    /// The side that notifications reach.
    pub fn observer(&self) -> (observer: &ObserverState)
        ensures
            *observer == self.observer,
    {
        &self.observer
    }

    /// The counters.
    pub fn diagnostics(&self) -> (diagnostics: WaitRuntimeDiagnostics)
        ensures
            diagnostics == self.observer.diagnostics,
    {
        self.observer.diagnostics
    }

    /// Registers a key in the first vacant slot.
    pub fn register(&mut self, key: K, kind: WaitKind, deadline_ns: Option<u64>) -> (result: Result<
        WaitToken,
        WaitRuntimeError,
    >)
        requires
            old(self).wf(),
        ensures
            final(self).wf(),
            old(self).registers(*final(self), key, kind, deadline_ns, result),
    {
        let mut index: usize = 0;
        while index < self.waits.slots.len()
            invariant
                *self == *old(self),
                self.wf(),
                index <= self.waits.slots@.len(),
                forall|i: int| 0 <= i < index ==> !vacant(#[trigger] self.waits.slots@[i]),
            decreases self.waits.slots@.len() - index,
        {
            let slot: WaitSlot<K> = self.waits.slots[index];
            if slot.key.is_none() && !slot.retired {
                let token: WaitToken = encode_token(index, slot.generation);
                assert(agree(self.waits.slots@[index as int], self.observer.slots@[index as int]));
                assert(first_vacant(old(self).waits.slots@, index as int));
                self.waits.occupy(index, key, kind, deadline_ns);
                self.observer.activate(index);
                proof {
                    assert forall|i: int| 0 <= i < self.waits.slots@.len() implies agree(
                        #[trigger] self.waits.slots@[i],
                        self.observer.slots@[i],
                    ) by {
                        assert(agree(old(self).waits.slots@[i], old(self).observer.slots@[i]));
                    }
                }
                return Ok(token);
            }
            index += 1;
        }
        Err(WaitRuntimeError::CapacityReached)
    }

    /// Takes a notification of an object; `false` if the token is stale.
    pub fn notify_object(&mut self, token: WaitToken) -> (known: bool)
        requires
            old(self).wf(),
        ensures
            final(self).wf(),
            known == old(self).current(token),
            final(self).waits == old(self).waits,
            old(self).observer.notified(final(self).observer, token, WakeCause::Object),
    {
        self.notify(token, WakeCause::Object)
    }

    /// Takes a notification of a dependency; `false` if the token is stale.
    pub fn notify_dependency(&mut self, token: WaitToken) -> (known: bool)
        requires
            old(self).wf(),
        ensures
            final(self).wf(),
            known == old(self).current(token),
            final(self).waits == old(self).waits,
            old(self).observer.notified(final(self).observer, token, WakeCause::Dependency),
    {
        self.notify(token, WakeCause::Dependency)
    }

    /// Takes a notification.
    fn notify(&mut self, token: WaitToken, cause: WakeCause) -> (known: bool)
        requires
            old(self).wf(),
            cause != WakeCause::Deadline,
        ensures
            final(self).wf(),
            known == old(self).current(token),
            final(self).waits == old(self).waits,
            old(self).observer.notified(final(self).observer, token, cause),
    {
        let ghost before = *self;
        let known: bool = self.observer.notify(token, cause);
        proof {
            if well_made(token, before.waits.slots@.len() as int) {
                assert(agree(
                    before.waits.slots@[index_of(token)],
                    before.observer.slots@[index_of(token)],
                ));
            }
            assert forall|i: int| 0 <= i < self.waits.slots@.len() implies agree(
                #[trigger] self.waits.slots@[i],
                self.observer.slots@[i],
            ) by {
                assert(agree(before.waits.slots@[i], before.observer.slots@[i]));
            }
        }
        known
    }

    /// The token of the first registration of a key.
    pub fn token_for_key(&self, key: K) -> (token: Option<WaitToken>)
        requires
            self.wf(),
        ensures
            match token {
                Some(token) => exists|at: int| #[trigger]
                    first_of_key(self.waits.slots@, key, at) && token == token_of(
                        at,
                        self.waits.slots@[at].generation,
                    ) && self.current(token) && index_of(token) == at,
                None => forall|i: int|
                    0 <= i < self.waits.slots@.len() ==> (#[trigger] self.waits.slots@[i]).key
                        != Some(key),
            },
    {
        let mut index: usize = 0;
        while index < self.waits.slots.len()
            invariant
                self.wf(),
                index <= self.waits.slots@.len(),
                forall|i: int|
                    0 <= i < index ==> (#[trigger] self.waits.slots@[i]).key != Some(key),
            decreases self.waits.slots@.len() - index,
        {
            let slot: WaitSlot<K> = self.waits.slots[index];
            if let Some(own) = slot.key {
                if same(own, key) {
                    proof {
                        assert(self.waits.slot_ok(index as int));
                        law_token_round_trip(index as int, slot.generation);
                        assert(first_of_key(self.waits.slots@, key, index as int));
                    }
                    return Some(encode_token(index, slot.generation));
                }
            }
            index += 1;
        }
        None
    }

    /// Ends the registration in a slot.
    fn end(&mut self, index: usize)
        requires
            old(self).wf(),
            index < old(self).waits.slots@.len(),
            old(self).waits.slots@[index as int].key is Some,
        ensures
            final(self).wf(),
            old(self).ends(*final(self), index as int, old(self).one_less()),
    {
        let ghost before = *self;
        proof {
            assert(agree(self.waits.slots@[index as int], self.observer.slots@[index as int]));
            assert(self.waits.slot_ok(index as int));
        }
        let generation: u32 = self.waits.slots[index].generation;
        let (next, retired): (u32, bool) = advanced_generation(generation);
        self.observer.deactivate(index, next, retired);
        self.waits.vacate(index, next, retired);
        proof {
            assert forall|i: int| 0 <= i < self.waits.slots@.len() implies agree(
                #[trigger] self.waits.slots@[i],
                self.observer.slots@[i],
            ) by {
                assert(agree(before.waits.slots@[i], before.observer.slots@[i]));
            }
        }
    }

    /// Ends a registration; `false` if the token is stale.
    pub fn cancel(&mut self, token: WaitToken) -> (canceled: bool)
        requires
            old(self).wf(),
        ensures
            final(self).wf(),
            old(self).cancels(*final(self), token, canceled),
    {
        let (index, generation): (usize, u32) = match decode_token(token, self.waits.slots.len()) {
            Some(decoded) => decoded,
            None => {
                return false;
            },
        };
        let slot: WaitSlot<K> = self.waits.slots[index];
        if slot.key.is_none() || slot.generation != generation {
            return false;
        }
        self.end(index);
        let ghost ended = *self;
        self.observer.diagnostics.cancellations =
        self.observer.diagnostics.cancellations.saturating_add(1);
        proof {
            lemma_counters_do_not_matter(ended.observer, self.observer);
        }
        true
    }

    /// Ends the first registration of a key; `false` if there is none.
    pub fn cancel_key(&mut self, key: K) -> (canceled: bool)
        requires
            old(self).wf(),
        ensures
            final(self).wf(),
            old(self).cancels_key(*final(self), key, canceled),
    {
        match self.token_for_key(key) {
            Some(token) => {
                proof {
                    let at = choose|at: int| #[trigger]
                        first_of_key(self.waits.slots@, key, at) && token == token_of(
                            at,
                            self.waits.slots@[at].generation,
                        ) && index_of(token) == at;
                    assert(self.waits.slots@[at].key == Some(key));
                }
                self.cancel(token)
            },
            None => false,
        }
    }

    /// A wait was registered in the first vacant slot, unless there is none.
    pub open spec fn registers(
        &self,
        after: WaitRuntime<K>,
        key: K,
        kind: WaitKind,
        deadline_ns: Option<u64>,
        result: Result<WaitToken, WaitRuntimeError>,
    ) -> bool {
        match result {
            Err(error) => {
                &&& error == WaitRuntimeError::CapacityReached
                &&& forall|i: int|
                    0 <= i < self.waits.slots@.len() ==> !vacant(#[trigger] self.waits.slots@[i])
                &&& after == *self
            },
            Ok(token) => {
                let active = self.observer.diagnostics.active + 1;
                &&& exists|at: int| #[trigger]
                    first_vacant(self.waits.slots@, at) && token == token_of(
                        at,
                        self.waits.slots@[at].generation,
                    ) && same_waits(
                        after.waits.slots@,
                        self.waits.slots@.update(
                            at,
                            WaitSlot {
                                key: Some(key),
                                kind,
                                deadline_ns,
                                ..self.waits.slots@[at]
                            },
                        ),
                    )
                &&& after.observer.ready@ == self.observer.ready@
                &&& after.observer.diagnostics == (WaitRuntimeDiagnostics {
                    active: active as usize,
                    peak_active: if self.observer.diagnostics.peak_active < active {
                        active as usize
                    } else {
                        self.observer.diagnostics.peak_active
                    },
                    ..self.observer.diagnostics
                })
            },
        }
    }

    /// The wait of a token was canceled, if it is current.
    pub open spec fn cancels(&self, after: WaitRuntime<K>, token: WaitToken, canceled: bool) -> bool {
        &&& canceled == self.current(token)
        &&& !canceled ==> after == *self
        &&& canceled ==> self.ends(
            after,
            index_of(token),
            WaitRuntimeDiagnostics {
                cancellations: counted(self.observer.diagnostics.cancellations),
                ..self.one_less()
            },
        )
    }

    /// The first wait of a key was canceled, if there is one.
    pub open spec fn cancels_key(&self, after: WaitRuntime<K>, key: K, canceled: bool) -> bool {
        &&& canceled == exists|i: int|
            0 <= i < self.waits.slots@.len() && (#[trigger] self.waits.slots@[i]).key == Some(key)
        &&& !canceled ==> after == *self
        &&& canceled ==> exists|at: int| #[trigger]
            first_of_key(self.waits.slots@, key, at) && self.ends(
                after,
                at,
                WaitRuntimeDiagnostics {
                    cancellations: counted(self.observer.diagnostics.cancellations),
                    ..self.one_less()
                },
            )
    }

    /// The next wake was taken: of the oldest notification, or of the first deadline that has
    /// come.
    pub open spec fn wakes(
        &self,
        after: WaitRuntime<K>,
        now_ns: u64,
        wake: Option<WaitWake<K>>,
    ) -> bool {
        match wake {
            None => {
                &&& self.observer.ready@.len() == 0
                &&& forall|i: int|
                    0 <= i < self.waits.slots@.len() && due(#[trigger] self.waits.slots@[i])
                        ==> self.waits.slots@[i].deadline_ns->Some_0 > now_ns
                &&& after == *self
            },
            Some(found) => if self.observer.ready@.len() > 0 {
                let record = self.observer.ready@[0];
                let at = index_of(record.token);
                &&& self.current(record.token)
                &&& found == self.wake_of(at, record.cause)
                &&& found.token == record.token
                &&& self.ends(after, at, self.one_less())
                &&& after.observer.ready@ == self.observer.ready@.drop_first()
            } else {
                exists|at: int| #[trigger]
                    first_deadline(self.waits.slots@, at)
                        && self.waits.slots@[at].deadline_ns->Some_0 <= now_ns && found
                        == self.wake_of(at, WakeCause::Deadline) && self.ends(
                        after,
                        at,
                        WaitRuntimeDiagnostics {
                            deadline_wakes: counted(self.observer.diagnostics.deadline_wakes),
                            ..self.one_less()
                        },
                    )
            },
        }
    }

    /// What a wake of the registration at `at` reports.
    pub open spec fn wake_of(&self, at: int, cause: WakeCause) -> WaitWake<K> {
        WaitWake {
            token: token_of(at, self.waits.slots@[at].generation),
            key: self.waits.slots@[at].key->Some_0,
            kind: self.waits.slots@[at].kind,
            cause,
            deadline_ns: self.waits.slots@[at].deadline_ns,
        }
    }

    /// The next registration that is ready, or else the first whose deadline is reached.
    ///
    /// The registration ends with its wake.
    pub fn next_wake(&mut self, now_ns: u64) -> (wake: Option<WaitWake<K>>)
        requires
            old(self).wf(),
        ensures
            final(self).wf(),
            old(self).wakes(*final(self), now_ns, wake),
    {
        if self.observer.ready.len() > 0 {
            let record: ReadyRecord = self.observer.ready[0];
            proof {
                assert(self.observer.current(self.observer.ready@[0].token));
                let at = index_of(record.token);
                assert(agree(self.waits.slots@[at], self.observer.slots@[at]));
                super::observer::lemma_filter_one(self.observer.ready@, 0);
                assert(self.observer.ready@.remove(0) =~= self.observer.ready@.drop_first());
            }
            if let Some((index, _generation)) = decode_token(
                record.token,
                self.waits.slots.len(),
            ) {
                let slot: WaitSlot<K> = self.waits.slots[index];
                if let Some(key) = slot.key {
                    self.end(index);
                    return Some(
                        WaitWake {
                            token: record.token,
                            key,
                            kind: slot.kind,
                            cause: record.cause,
                            deadline_ns: slot.deadline_ns,
                        },
                    );
                }
            }
        }
        if self.waits.deadlines.len() == 0 {
            proof {
                assert forall|i: int|
                    0 <= i < self.waits.slots@.len() && due(
                        #[trigger] self.waits.slots@[i],
                    ) implies self.waits.slots@[i].deadline_ns->Some_0 > now_ns by {
                    assert(self.waits.slot_ok(i));
                }
            }
            return None;
        }
        let entry: DeadlineEntry = self.waits.deadlines[0];
        proof {
            self.lemma_first_deadline();
        }
        if entry.deadline_ns > now_ns {
            return None;
        }
        proof {
            assert(self.waits.entry_ok(0));
        }
        if let Some((index, _generation)) = decode_token(entry.token, self.waits.slots.len()) {
            let slot: WaitSlot<K> = self.waits.slots[index];
            if let Some(key) = slot.key {
                self.end(index);
                let ghost ended = *self;
                self.observer.diagnostics.deadline_wakes =
                self.observer.diagnostics.deadline_wakes.saturating_add(1);
                proof {
                    lemma_counters_do_not_matter(ended.observer, self.observer);
                }
                return Some(
                    WaitWake {
                        token: entry.token,
                        key,
                        kind: slot.kind,
                        cause: WakeCause::Deadline,
                        deadline_ns: slot.deadline_ns,
                    },
                );
            }
        }
        None
    }

    /// The head of the heap is the first deadline of all registrations.
    proof fn lemma_first_deadline(&self)
        requires
            self.wf(),
            self.waits.deadlines@.len() > 0,
        ensures
            first_deadline(self.waits.slots@, index_of(self.waits.deadlines@[0].token)),
            deadline_entry(self.waits.slots@, index_of(self.waits.deadlines@[0].token))
                == self.waits.deadlines@[0],
            forall|i: int|
                0 <= i < self.waits.slots@.len() && due(#[trigger] self.waits.slots@[i])
                    ==> self.waits.slots@[i].deadline_ns->Some_0
                    >= self.waits.deadlines@[0].deadline_ns,
    {
        let heap = self.waits.deadlines@;
        let slots = self.waits.slots@;
        assert(self.waits.entry_ok(0));
        assert forall|i: int| 0 <= i < slots.len() && due(#[trigger] slots[i]) implies !deadline_entry(
            slots,
            i,
        ).before(heap[0]) by {
            assert(self.waits.slot_ok(i));
            let h = slots[i].heap_index->Some_0 as int;
            assert(self.waits.entry_ok(h));
            law_token_round_trip(i, slots[i].generation);
            assert(deadline_entry(slots, i) == heap[h]);
            lemma_first_is_least(heap, h);
        }
    }

    /// The first deadline of all registrations.
    pub fn next_deadline_ns(&self) -> (deadline: Option<u64>)
        requires
            self.wf(),
        ensures
            match deadline {
                None => forall|i: int|
                    0 <= i < self.waits.slots@.len() ==> !due(#[trigger] self.waits.slots@[i]),
                Some(deadline) => exists|at: int| #[trigger]
                    first_deadline(self.waits.slots@, at) && self.waits.slots@[at].deadline_ns
                        == Some(deadline),
            },
    {
        if self.waits.deadlines.len() == 0 {
            proof {
                assert forall|i: int| 0 <= i < self.waits.slots@.len() implies !due(
                    #[trigger] self.waits.slots@[i],
                ) by {
                    assert(self.waits.slot_ok(i));
                }
            }
            return None;
        }
        proof {
            self.lemma_first_deadline();
            assert(self.waits.entry_ok(0));
        }
        Some(self.waits.deadlines[0].deadline_ns)
    }

    /// Continues a vacant slot with this or a later generation.
    pub fn restart_generation(&mut self, index: usize, generation: u32)
        requires
            old(self).wf(),
            index < old(self).waits.slots@.len(),
            old(self).waits.slots@[index as int].key is None,
            !old(self).waits.slots@[index as int].retired,
            generation >= old(self).waits.slots@[index as int].generation,
        ensures
            final(self).wf(),
            same_waits(
                final(self).waits.slots@,
                old(self).waits.slots@.update(
                    index as int,
                    WaitSlot {
                        generation,
                        deadline_ns: None,
                        ..old(self).waits.slots@[index as int]
                    },
                ),
            ),
            final(self).observer.ready@ == old(self).observer.ready@,
            final(self).observer.diagnostics == old(self).observer.diagnostics,
    {
        let ghost before = *self;
        assert(agree(self.waits.slots@[index as int], self.observer.slots@[index as int]));
        self.waits.vacate(index, generation, false);
        self.observer.slots[index] = ObserverSlot {
            generation,
            retired: false,
            active: false,
            queued: false,
        };
        proof {
            super::observer::lemma_active_update(
                before.observer.slots@,
                before.observer.slots@.len(),
                index as int,
                self.observer.slots@[index as int],
            );
            assert forall|r: int| 0 <= r < self.observer.ready@.len() implies self.observer.current(
                (#[trigger] self.observer.ready@[r]).token,
            ) && self.observer.slots@[index_of(self.observer.ready@[r].token)].queued by {
                assert(before.observer.current(before.observer.ready@[r].token));
            }
            assert forall|i: int| 0 <= i < self.observer.slots@.len() && (
            #[trigger] self.observer.slots@[i]).queued implies exists|r: int|
                0 <= r < self.observer.ready@.len() && index_of(
                    (#[trigger] self.observer.ready@[r]).token,
                ) == i by {
                assert(before.observer.slots@[i].queued);
            }
            assert forall|i: int| 0 <= i < self.waits.slots@.len() implies agree(
                #[trigger] self.waits.slots@[i],
                self.observer.slots@[i],
            ) by {
                assert(agree(before.waits.slots@[i], before.observer.slots@[i]));
            }
        }
    }
}

/// Both sides know the same of a slot.
pub open spec fn agree<K>(slot: WaitSlot<K>, observed: ObserverSlot) -> bool {
    &&& slot.generation == observed.generation
    &&& slot.retired == observed.retired
    &&& observed.active == slot.key is Some
}

/// Counters other than those of active registrations play no part in an observer's order.
proof fn lemma_counters_do_not_matter(before: ObserverState, after: ObserverState)
    requires
        before.wf(),
        after.slots == before.slots,
        after.ready == before.ready,
        after.diagnostics.active == before.diagnostics.active,
        after.diagnostics.peak_active == before.diagnostics.peak_active,
    ensures
        after.wf(),
{
    assert forall|r: int| 0 <= r < after.ready@.len() implies after.current(
        (#[trigger] after.ready@[r]).token,
    ) by {
        assert(before.current(before.ready@[r].token));
    }
}

/// A token of an ended registration names nothing any more, and never will in that slot:
/// later generations are larger, and a slot that has no later one is retired.
pub proof fn law_ended_tokens_are_stale<K: SchedulerKey>(
    before: WaitRuntime<K>,
    after: WaitRuntime<K>,
    token: WaitToken,
    diagnostics: WaitRuntimeDiagnostics,
)
    requires
        before.wf(),
        after.wf(),
        before.current(token),
        before.ends(after, index_of(token), diagnostics),
    ensures
        !after.current(token),
        after.waits.slots@[index_of(token)].retired || after.waits.slots@[index_of(
            token,
        )].generation > generation_of(token),
{
    let at = index_of(token);
    assert(same_wait(
        after.waits.slots@[at],
        before.waits.slots@.update(at, vacated(before.waits.slots@[at]))[at],
    ));
}

/// Different places below `limit` are at most `limit`.
proof fn lemma_places_fit(places: Seq<int>, limit: int)
    requires
        0 <= limit,
        places.no_duplicates(),
        forall|i: int| 0 <= i < places.len() ==> 0 <= #[trigger] places[i] < limit,
    ensures
        places.len() <= limit,
{
    places.unique_seq_to_set();
    vstd::set_lib::lemma_int_range(0, limit);
    assert(places.to_set().subset_of(vstd::set_lib::set_int_range(0, limit)));
    vstd::set_lib::lemma_len_subset(places.to_set(), vstd::set_lib::set_int_range(0, limit));
}

/// Each slot has at most one ready record.
proof fn lemma_ready_fits(observer: ObserverState)
    requires
        observer.wf(),
    ensures
        observer.ready@.len() <= observer.slots@.len(),
{
    let ready = observer.ready@;
    let places = ready.map_values(|record: ReadyRecord| index_of(record.token));
    assert forall|r: int| 0 <= r < places.len() implies 0 <= #[trigger] places[r]
        < observer.slots@.len() by {
        assert(observer.current(ready[r].token));
    }
    assert(places.no_duplicates()) by {
        assert forall|r: int, s: int| 0 <= r < s < ready.len() implies places[r] != places[s] by {
            assert(index_of(ready[r].token) != index_of(ready[s].token));
        }
    }
    lemma_places_fit(places, observer.slots@.len() as int);
}

/// Each slot has at most one deadline in the heap.
proof fn lemma_deadlines_fit<K: SchedulerKey>(waits: Waits<K>)
    requires
        forall|i: int| 0 <= i < waits.deadlines@.len() ==> #[trigger] waits.entry_ok(i),
    ensures
        waits.deadlines@.len() <= waits.slots@.len(),
{
    let deadlines = waits.deadlines@;
    assert(deadlines.len() == waits.deadlines.len());
    let places = deadlines.map_values(|entry: DeadlineEntry| index_of(entry.token));
    assert forall|i: int| 0 <= i < places.len() implies 0 <= #[trigger] places[i]
        < waits.slots@.len() by {
        assert(waits.entry_ok(i));
    }
    assert(places.no_duplicates()) by {
        assert forall|i: int, j: int| 0 <= i < j < deadlines.len() implies places[i]
            != places[j] by {
            assert(waits.entry_ok(i));
            assert(waits.entry_ok(j));
        }
    }
    lemma_places_fit(places, waits.slots@.len() as int);
}

/// What a runtime holds never outgrows the storage that was reserved for it: there are no more
/// ready records and no more deadlines than slots.
pub proof fn law_waits_fit_their_storage<K: SchedulerKey>(runtime: WaitRuntime<K>)
    requires
        runtime.wf(),
    ensures
        runtime.observer.slots@.len() == runtime.waits.slots@.len(),
        runtime.observer.ready@.len() <= runtime.waits.slots@.len(),
        runtime.waits.deadlines@.len() <= runtime.waits.slots@.len(),
{
    lemma_ready_fits(runtime.observer);
    lemma_deadlines_fit(runtime.waits);
}

} // verus!
