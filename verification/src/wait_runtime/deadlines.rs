//! Registrations and the heap of their deadlines.
use vstd::prelude::*;

use super::observer::{
    decode_token, generation_of, index_of, law_token_round_trip, token_of, well_made, WaitKind,
    WaitToken,
};

verus! {

/// A place for one registration.
#[derive(Clone, Copy)]
pub struct WaitSlot<K> {
    pub generation: u32,
    pub retired: bool,
    pub key: Option<K>,
    pub kind: WaitKind,
    pub deadline_ns: Option<u64>,
    /// Where the deadline stands in the heap.
    pub heap_index: Option<usize>,
}

/// A deadline in the heap.
#[derive(Clone, Copy, Debug, PartialEq, Eq, Structural)]
pub struct DeadlineEntry {
    pub deadline_ns: u64,
    pub token: WaitToken,
}

impl DeadlineEntry {
    /// This deadline comes before another: it is earlier, or as early with a smaller token.
    pub open spec fn before(self, other: DeadlineEntry) -> bool {
        self.deadline_ns < other.deadline_ns || (self.deadline_ns == other.deadline_ns
            && self.token.0 < other.token.0)
    }

    /// Whether this deadline comes before another.
    pub fn precedes(&self, other: &DeadlineEntry) -> (result: bool)
        ensures
            result == self.before(*other),
    {
        self.deadline_ns < other.deadline_ns || (self.deadline_ns == other.deadline_ns
            && self.token.0 < other.token.0)
    }
}

/// Registrations and their deadlines.
pub struct Waits<K> {
    pub slots: Vec<WaitSlot<K>>,
    pub deadlines: Vec<DeadlineEntry>,
}

/// The place above `i` in a heap.
pub open spec fn parent(i: int) -> int {
    (i - 1) / 2
}

/// Nothing comes before what stands above it.
pub open spec fn heap_ordered(heap: Seq<DeadlineEntry>) -> bool {
    forall|i: int| 0 < i < heap.len() ==> !(#[trigger] heap[i]).before(heap[parent(i)])
}

/// A heap but for what stands at `at` and what is above it.
pub open spec fn rising(heap: Seq<DeadlineEntry>, at: int) -> bool {
    &&& forall|i: int|
        0 < i < heap.len() && i != at ==> !(#[trigger] heap[i]).before(heap[parent(i)])
    &&& forall|i: int|
        0 < i < heap.len() && parent(i) == at && at > 0 ==> !(#[trigger] heap[i]).before(
            heap[parent(at)],
        )
}

/// A heap but for what stands at `at` and what is below it.
pub open spec fn sinking(heap: Seq<DeadlineEntry>, at: int) -> bool {
    &&& forall|i: int|
        0 < i < heap.len() && parent(i) != at ==> !(#[trigger] heap[i]).before(heap[parent(i)])
    &&& forall|i: int|
        0 < i < heap.len() && parent(i) == at && at > 0 ==> !(#[trigger] heap[i]).before(
            heap[parent(at)],
        )
}

/// Nothing in a heap comes before its first deadline.
pub proof fn lemma_first_is_least(heap: Seq<DeadlineEntry>, i: int)
    requires
        heap_ordered(heap),
        0 <= i < heap.len(),
    ensures
        !heap[i].before(heap[0]),
    decreases i,
{
    if i > 0 {
        lemma_first_is_least(heap, parent(i));
        assert(!heap[i].before(heap[parent(i)]));
    }
}

/// Two slots are one registration, wherever their deadlines stand in the heap.
pub open spec fn same_wait<K>(left: WaitSlot<K>, right: WaitSlot<K>) -> bool {
    &&& left.generation == right.generation
    &&& left.retired == right.retired
    &&& left.key == right.key
    &&& left.kind == right.kind
    &&& left.deadline_ns == right.deadline_ns
}

/// All slots are the same registrations.
pub open spec fn same_waits<K>(left: Seq<WaitSlot<K>>, right: Seq<WaitSlot<K>>) -> bool {
    left.len() == right.len() && forall|i: int|
        0 <= i < left.len() ==> same_wait(#[trigger] left[i], right[i])
}

impl<K: Copy> Waits<K> {
    /// The heap entry at `i` is the deadline of the slot that it names.
    pub open spec fn entry_ok(&self, i: int) -> bool {
        let entry = self.deadlines@[i];
        let at = index_of(entry.token);
        &&& well_made(entry.token, self.slots@.len() as int)
        &&& self.slots@[at].generation == generation_of(entry.token)
        &&& self.slots@[at].key is Some
        &&& self.slots@[at].deadline_ns == Some(entry.deadline_ns)
        &&& self.slots@[at].heap_index == Some(i as usize)
    }

    /// The slot at `at` knows where its deadline stands in the heap.
    pub open spec fn slot_ok(&self, at: int) -> bool {
        &&& self.slots@[at].generation > 0
        &&& match self.slots@[at].heap_index {
            Some(i) => i < self.deadlines@.len() && self.deadlines@[i as int].token == token_of(
                at,
                self.slots@[at].generation,
            ),
            None => true,
        }
    }

    /// Slots and heap refer to each other.
    pub open spec fn linked(&self) -> bool {
        &&& self.slots@.len() <= u32::MAX
        &&& forall|i: int| 0 <= i < self.deadlines@.len() ==> #[trigger] self.entry_ok(i)
        &&& forall|at: int| 0 <= at < self.slots@.len() ==> #[trigger] self.slot_ok(at)
    }

    /// Exactly the active registrations with a deadline stand in the heap.
    pub open spec fn complete(&self) -> bool {
        forall|at: int|
            0 <= at < self.slots@.len() ==> ((#[trigger] self.slots@[at]).heap_index is Some <==> (
            self.slots@[at].key is Some && self.slots@[at].deadline_ns is Some))
    }

    /// The heap holds exactly the deadlines of the active registrations, in heap order.
    pub open spec fn wf(&self) -> bool {
        self.linked() && self.complete() && heap_ordered(self.deadlines@)
    }

    /// Records where the deadline at `heap_index` stands.
    fn set_heap_index(&mut self, heap_index: usize)
        requires
            heap_index < old(self).deadlines@.len(),
            old(self).slots@.len() <= u32::MAX,
            well_made(
                old(self).deadlines@[heap_index as int].token,
                old(self).slots@.len() as int,
            ),
        ensures
            final(self).deadlines == old(self).deadlines,
            ({
                let at = index_of(old(self).deadlines@[heap_index as int].token);
                final(self).slots@ == old(self).slots@.update(
                    at,
                    WaitSlot { heap_index: Some(heap_index), ..old(self).slots@[at] },
                )
            }),
    {
        let token: WaitToken = self.deadlines[heap_index].token;
        if let Some((index, _generation)) = decode_token(token, self.slots.len()) {
            let slot: WaitSlot<K> = self.slots[index];
            self.slots[index] = WaitSlot { heap_index: Some(heap_index), ..slot };
        }
    }

    /// Entries of different places belong to different slots.
    proof fn lemma_entries_differ(&self, i: int, j: int)
        requires
            self.linked(),
            0 <= i < self.deadlines@.len(),
            0 <= j < self.deadlines@.len(),
            i != j,
        ensures
            index_of(self.deadlines@[i].token) != index_of(self.deadlines@[j].token),
    {
        assert(self.entry_ok(i));
        assert(self.entry_ok(j));
        assert(self.deadlines.len() == self.deadlines@.len());
    }

    /// Swaps two deadlines.
    fn swap_deadlines(&mut self, left: usize, right: usize)
        requires
            old(self).linked(),
            left < old(self).deadlines@.len(),
            right < old(self).deadlines@.len(),
            left != right,
        ensures
            final(self).linked(),
            final(self).deadlines@ == old(self).deadlines@.update(
                left as int,
                old(self).deadlines@[right as int],
            ).update(right as int, old(self).deadlines@[left as int]),
            same_waits(final(self).slots@, old(self).slots@),
            old(self).complete() ==> final(self).complete(),
    {
        let ghost before = *self;
        proof {
            assert(before.entry_ok(left as int));
            assert(before.entry_ok(right as int));
            before.lemma_entries_differ(left as int, right as int);
        }
        let first: DeadlineEntry = self.deadlines[left];
        let second: DeadlineEntry = self.deadlines[right];
        self.deadlines[left] = second;
        self.deadlines[right] = first;
        self.set_heap_index(left);
        self.set_heap_index(right);
        proof {
            assert forall|i: int| 0 <= i < self.deadlines@.len() implies #[trigger] self.entry_ok(
                i,
            ) by {
                assert(before.entry_ok(i));
                if i != left && i != right {
                    before.lemma_entries_differ(i, left as int);
                    before.lemma_entries_differ(i, right as int);
                }
            }
            assert forall|at: int| 0 <= at < self.slots@.len() implies #[trigger] self.slot_ok(
                at,
            ) by {
                assert(before.slot_ok(at));
                law_token_round_trip(at, before.slots@[at].generation);
            }
        }
    }

    /// Moves a deadline up to where it belongs.
    fn sift_deadline_up(&mut self, start: usize)
        requires
            old(self).linked(),
            old(self).complete(),
            start < old(self).deadlines@.len(),
            rising(old(self).deadlines@, start as int),
        ensures
            final(self).wf(),
            final(self).deadlines@.len() == old(self).deadlines@.len(),
            same_waits(final(self).slots@, old(self).slots@),
    {
        let mut index: usize = start;
        while index > 0
            invariant
                self.linked(),
                self.complete(),
                index < self.deadlines@.len(),
                self.deadlines@.len() == old(self).deadlines@.len(),
                rising(self.deadlines@, index as int),
                same_waits(self.slots@, old(self).slots@),
            decreases index,
        {
            let above: usize = (index - 1) / 2;
            if !self.deadlines[index].precedes(&self.deadlines[above]) {
                assert(heap_ordered(self.deadlines@));
                return;
            }
            let ghost before = self.deadlines@;
            self.swap_deadlines(above, index);
            proof {
                lemma_raise(before, index as int);
            }
            index = above;
        }
    }

    /// Moves a deadline down to where it belongs.
    fn sift_deadline_down(&mut self, start: usize)
        requires
            old(self).linked(),
            old(self).complete(),
            start < old(self).deadlines@.len(),
            sinking(old(self).deadlines@, start as int),
        ensures
            final(self).wf(),
            final(self).deadlines@.len() == old(self).deadlines@.len(),
            same_waits(final(self).slots@, old(self).slots@),
    {
        let mut index: usize = start;
        while index < self.deadlines.len() / 2
            invariant
                self.linked(),
                self.complete(),
                index < self.deadlines@.len(),
                self.deadlines@.len() == old(self).deadlines@.len(),
                sinking(self.deadlines@, index as int),
                same_waits(self.slots@, old(self).slots@),
            decreases self.deadlines@.len() - index,
        {
            let left: usize = index * 2 + 1;
            let right: usize = left + 1;
            let smallest: usize = if right < self.deadlines.len()
                && self.deadlines[right].precedes(&self.deadlines[left]) {
                right
            } else {
                left
            };
            if !self.deadlines[smallest].precedes(&self.deadlines[index]) {
                proof {
                    let heap = self.deadlines@;
                    assert forall|i: int| 0 < i < heap.len() implies !(#[trigger] heap[i]).before(
                        heap[parent(i)],
                    ) by {
                        if parent(i) == index {
                            assert(i == left || i == right);
                        }
                    }
                }
                return;
            }
            let ghost before = self.deadlines@;
            self.swap_deadlines(index, smallest);
            proof {
                lemma_sink(before, index as int, smallest as int);
            }
            index = smallest;
        }
        proof {
            let heap = self.deadlines@;
            assert forall|i: int| 0 < i < heap.len() implies !(#[trigger] heap[i]).before(
                heap[parent(i)],
            ) by {
                assert(parent(i) != index);
            }
        }
    }

    /// Begins a registration in a vacant slot.
    pub fn occupy(&mut self, index: usize, key: K, kind: WaitKind, deadline_ns: Option<u64>)
        requires
            old(self).wf(),
            index < old(self).slots@.len(),
            old(self).slots@[index as int].key is None,
        ensures
            final(self).wf(),
            same_waits(
                final(self).slots@,
                old(self).slots@.update(
                    index as int,
                    WaitSlot {
                        key: Some(key),
                        kind,
                        deadline_ns,
                        ..old(self).slots@[index as int]
                    },
                ),
            ),
    {
        let ghost before = *self;
        assert(before.slot_ok(index as int));
        let slot: WaitSlot<K> = self.slots[index];
        assert(slot.heap_index is None);
        self.slots[index] = WaitSlot {
            generation: slot.generation,
            retired: slot.retired,
            key: Some(key),
            kind,
            deadline_ns,
            heap_index: None,
        };
        proof {
            assert forall|i: int| 0 <= i < self.deadlines@.len() implies #[trigger] self.entry_ok(
                i,
            ) by {
                assert(before.entry_ok(i));
            }
            assert forall|at: int| 0 <= at < self.slots@.len() implies #[trigger] self.slot_ok(
                at,
            ) by {
                assert(before.slot_ok(at));
            }
        }
        if let Some(deadline) = deadline_ns {
            let ghost ready = *self;
            let token: WaitToken = super::observer::encode_token(index, slot.generation);
            proof {
                law_token_round_trip(index as int, slot.generation);
            }
            let place: usize = self.deadlines.len();
            self.deadlines.push(DeadlineEntry { deadline_ns: deadline, token });
            self.set_heap_index(place);
            proof {
                assert forall|i: int|
                    0 <= i < self.deadlines@.len() implies #[trigger] self.entry_ok(i) by {
                    if i < place {
                        assert(ready.entry_ok(i));
                        assert(self.deadlines@[i] == ready.deadlines@[i]);
                    }
                }
                assert forall|at: int| 0 <= at < self.slots@.len() implies #[trigger] self.slot_ok(
                    at,
                ) by {
                    assert(ready.slot_ok(at));
                }
                let heap = self.deadlines@;
                assert forall|i: int|
                    0 < i < heap.len() && i != place implies !(#[trigger] heap[i]).before(
                    heap[parent(i)],
                ) by {
                    assert(heap[i] == ready.deadlines@[i]);
                    assert(heap[parent(i)] == ready.deadlines@[parent(i)]);
                }
                assert(rising(heap, place as int));
            }
            self.sift_deadline_up(place);
        }
    }

    /// Ends a registration; the slot continues with the next generation, or is retired.
    pub fn vacate(&mut self, index: usize, generation: u32, retired: bool)
        requires
            old(self).wf(),
            index < old(self).slots@.len(),
            generation > 0,
        ensures
            final(self).wf(),
            same_waits(
                final(self).slots@,
                old(self).slots@.update(
                    index as int,
                    WaitSlot {
                        generation,
                        retired,
                        key: None,
                        deadline_ns: None,
                        ..old(self).slots@[index as int]
                    },
                ),
            ),
    {
        let ghost before = *self;
        assert(before.slot_ok(index as int));
        let slot: WaitSlot<K> = self.slots[index];
        self.slots[index] = WaitSlot {
            generation,
            retired,
            key: None,
            kind: slot.kind,
            deadline_ns: None,
            heap_index: None,
        };
        proof {
            law_token_round_trip(index as int, slot.generation);
        }
        if let Some(place) = slot.heap_index {
            let ghost last = self.deadlines@.len() - 1;
            proof {
                assert(before.entry_ok(place as int));
                assert(before.entry_ok(last));
            }
            let removed: DeadlineEntry = self.deadlines.swap_remove(place);
            if place < self.deadlines.len() {
                proof {
                    before.lemma_entries_differ(place as int, last);
                }
                self.set_heap_index(place);
                proof {
                    lemma_unlinked(before, *self, index as int, place as int);
                    lemma_replace(before.deadlines@, self.deadlines@, place as int);
                }
                if place > 0 && self.deadlines[place].precedes(&self.deadlines[(place - 1) / 2]) {
                    self.sift_deadline_up(place);
                } else {
                    self.sift_deadline_down(place);
                }
            } else {
                proof {
                    lemma_unlinked(before, *self, index as int, place as int);
                    assert forall|i: int| 0 < i < self.deadlines@.len() implies !(
                    #[trigger] self.deadlines@[i]).before(self.deadlines@[parent(i)]) by {
                        assert(self.deadlines@[i] == before.deadlines@[i]);
                        assert(self.deadlines@[parent(i)] == before.deadlines@[parent(i)]);
                    }
                }
            }
        } else {
            proof {
                assert forall|i: int|
                    0 <= i < self.deadlines@.len() implies #[trigger] self.entry_ok(i) by {
                    assert(before.entry_ok(i));
                }
                assert forall|at: int| 0 <= at < self.slots@.len() implies #[trigger] self.slot_ok(
                    at,
                ) by {
                    assert(before.slot_ok(at));
                }
            }
        }
    }
}

/// Slots and heap still refer to each other once a registration left both.
proof fn lemma_unlinked<K: Copy>(before: Waits<K>, after: Waits<K>, index: int, place: int)
    requires
        before.linked(),
        before.complete(),
        0 <= index < before.slots@.len(),
        before.slots@[index].heap_index == Some(place as usize),
        0 <= place < before.deadlines@.len(),
        after.deadlines@ == before.deadlines@.update(
            place,
            before.deadlines@.last(),
        ).drop_last(),
        after.slots@.len() == before.slots@.len(),
        after.slots@[index].key is None,
        after.slots@[index].deadline_ns is None,
        after.slots@[index].heap_index is None,
        after.slots@[index].generation > 0,
        forall|at: int|
            0 <= at < before.slots@.len() && at != index ==> #[trigger] after.slots@[at] == (if place
                < before.deadlines@.len() - 1 && at == index_of(before.deadlines@.last().token) {
                WaitSlot { heap_index: Some(place as usize), ..before.slots@[at] }
            } else {
                before.slots@[at]
            }),
    ensures
        after.linked(),
        after.complete(),
{
    let last = before.deadlines@.len() - 1;
    assert(before.deadlines.len() == before.deadlines@.len());
    assert(before.slot_ok(index));
    law_token_round_trip(index, before.slots@[index].generation);
    assert(before.entry_ok(place));
    assert(before.entry_ok(last));
    assert forall|i: int| 0 <= i < after.deadlines@.len() implies #[trigger] after.entry_ok(i) by {
        assert(before.entry_ok(i));
        if i == place {
            before.lemma_entries_differ(last, place);
        } else {
            before.lemma_entries_differ(i, place);
            before.lemma_entries_differ(i, last);
        }
    }
    assert forall|at: int| 0 <= at < after.slots@.len() implies #[trigger] after.slot_ok(at) by {
        assert(before.slot_ok(at));
        law_token_round_trip(at, before.slots@[at].generation);
        if at != index {
            if let Some(i) = before.slots@[at].heap_index {
                assert(before.entry_ok(i as int));
                assert(i != place);
            }
        }
    }
}

/// Moving the last deadline into the place of another leaves a heap but for that place.
proof fn lemma_replace(before: Seq<DeadlineEntry>, after: Seq<DeadlineEntry>, at: int)
    requires
        heap_ordered(before),
        0 <= at < before.len() - 1,
        after == before.update(at, before.last()).drop_last(),
    ensures
        at > 0 && after[at].before(after[parent(at)]) ==> rising(after, at),
        !(at > 0 && after[at].before(after[parent(at)])) ==> sinking(after, at),
{
    assert forall|i: int| 0 < i < after.len() && i != at && parent(i) != at implies !(
    #[trigger] after[i]).before(after[parent(i)]) by {
        assert(after[i] == before[i]);
        assert(after[parent(i)] == before[parent(i)]);
    }
    assert forall|i: int| 0 < i < after.len() && parent(i) == at && at > 0 implies !(
    #[trigger] after[i]).before(after[parent(at)]) by {
        assert(after[i] == before[i]);
        assert(!before[i].before(before[at]));
        assert(!before[at].before(before[parent(at)]));
        assert(after[parent(at)] == before[parent(at)]);
    }
}

/// Swapping a deadline with the later one above it moves the gap up.
proof fn lemma_raise(heap: Seq<DeadlineEntry>, at: int)
    requires
        rising(heap, at),
        0 < at < heap.len(),
        heap[at].before(heap[parent(at)]),
    ensures
        rising(heap.update(parent(at), heap[at]).update(at, heap[parent(at)]), parent(at)),
{
    let above = parent(at);
    let after = heap.update(above, heap[at]).update(at, heap[above]);
    assert forall|i: int| 0 < i < after.len() && i != above implies !(#[trigger] after[i]).before(
        after[parent(i)],
    ) by {
        if i == at {
        } else if parent(i) == at {
            assert(after[i] == heap[i]);
            assert(!heap[i].before(heap[above]));
        } else if parent(i) == above {
            assert(after[i] == heap[i]);
            assert(!heap[i].before(heap[above]));
        } else {
            assert(after[i] == heap[i]);
            assert(after[parent(i)] == heap[parent(i)]);
        }
    }
    assert forall|i: int| 0 < i < after.len() && parent(i) == above && above > 0 implies !(
    #[trigger] after[i]).before(after[parent(above)]) by {
        assert(!heap[above].before(heap[parent(above)]));
        if i != at {
            assert(after[i] == heap[i]);
            assert(!heap[i].before(heap[above]));
        }
    }
}

/// Swapping a deadline with the earlier one of those below it moves the gap down.
proof fn lemma_sink(heap: Seq<DeadlineEntry>, at: int, below: int)
    requires
        sinking(heap, at),
        0 <= at < heap.len(),
        0 < below < heap.len(),
        parent(below) == at,
        heap[below].before(heap[at]),
        forall|i: int|
            0 < i < heap.len() && parent(i) == at ==> !(#[trigger] heap[i]).before(heap[below]),
    ensures
        sinking(heap.update(at, heap[below]).update(below, heap[at]), below),
{
    let after = heap.update(at, heap[below]).update(below, heap[at]);
    assert forall|i: int| 0 < i < after.len() && parent(i) != below implies !(
    #[trigger] after[i]).before(after[parent(i)]) by {
        if i == below {
        } else if i == at {
            assert(!heap[below].before(heap[parent(at)]));
            assert(after[parent(at)] == heap[parent(at)]);
        } else if parent(i) == at {
            assert(after[i] == heap[i]);
        } else {
            assert(after[i] == heap[i]);
            assert(after[parent(i)] == heap[parent(i)]);
        }
    }
    assert forall|i: int| 0 < i < after.len() && parent(i) == below && below > 0 implies !(
    #[trigger] after[i]).before(after[parent(below)]) by {
        assert(after[i] == heap[i]);
        assert(!heap[i].before(heap[parent(i)]));
    }
}

} // verus!
