//! An open-addressed table from blocks to cache entries.
use vstd::prelude::*;

use crate::storage::reserve_exact;

verus! {

/// One place of the table.
#[derive(Clone, Copy, Debug, PartialEq, Eq, Structural)]
pub enum LookupSlot {
    Empty,
    /// A block was removed here; searches go on beyond it.
    Tombstone,
    Occupied { block: u64, entry: usize },
}

/// A table from blocks to entries.
pub struct LookupTable {
    pub slots: Vec<LookupSlot>,
    pub tombstones: usize,
}

/// Mixes the bits of a block number.
pub open spec fn hash_of(block: u64) -> u64 {
    let first = (block ^ (block >> 30)).wrapping_mul(0xbf58_476d_1ce4_e5b9);
    let second = (first ^ (first >> 27)).wrapping_mul(0x94d0_49bb_1331_11eb);
    second ^ (second >> 31)
}

/// Mixes the bits of a block number.
pub fn hash_block(block: u64) -> (hash: u64)
    ensures
        hash == hash_of(block),
{
    let first: u64 = (block ^ (block >> 30)).wrapping_mul(0xbf58_476d_1ce4_e5b9);
    let second: u64 = (first ^ (first >> 27)).wrapping_mul(0x94d0_49bb_1331_11eb);
    second ^ (second >> 31)
}

/// Where the search for a block begins.
pub open spec fn home(block: u64, size: int) -> int {
    hash_of(block) as int % size
}

/// The place `steps` places after `start` in a table of `size`.
pub open spec fn probe(start: int, steps: int, size: int) -> int {
    if start + steps < size {
        start + steps
    } else {
        start + steps - size
    }
}

/// Steps from `start` to `place`.
pub open spec fn steps_to(start: int, place: int, size: int) -> int {
    if place >= start {
        place - start
    } else {
        place - start + size
    }
}

/// Occupied places among the first `count`.
pub open spec fn occupied(slots: Seq<LookupSlot>, count: nat) -> nat
    decreases count,
{
    if count == 0 {
        0
    } else {
        occupied(slots, (count - 1) as nat) + if slots[count - 1] is Occupied {
            1nat
        } else {
            0
        }
    }
}

/// Tombstones among the first `count`.
pub open spec fn buried(slots: Seq<LookupSlot>, count: nat) -> nat
    decreases count,
{
    if count == 0 {
        0
    } else {
        buried(slots, (count - 1) as nat) + if slots[count - 1] is Tombstone {
            1nat
        } else {
            0
        }
    }
}

/// The place at `at` holds `block`.
pub open spec fn stands_at(slots: Seq<LookupSlot>, block: u64, at: int) -> bool {
    &&& 0 <= at < slots.len()
    &&& slots[at] matches LookupSlot::Occupied { block: stored, entry } && stored == block
}

/// The first place on the way of a block that is not occupied is `steps` steps away.
pub open spec fn free_after(slots: Seq<LookupSlot>, block: u64, steps: int) -> bool {
    let size = slots.len() as int;
    let start = home(block, size);
    &&& 0 <= steps < size
    &&& !(slots[probe(start, steps, size)] is Occupied)
    &&& forall|k: int| 0 <= k < steps ==> slots[#[trigger] probe(start, k, size)] is Occupied
}

/// A table after a block was put into it, in the first place on its way that is not occupied.
pub open spec fn with_block(slots: Seq<LookupSlot>, block: u64, entry: usize) -> Seq<LookupSlot> {
    if exists|steps: int| free_after(slots, block, steps) {
        let steps = choose|steps: int| free_after(slots, block, steps);
        let size = slots.len() as int;
        slots.update(
            probe(home(block, size), steps, size),
            LookupSlot::Occupied { block, entry },
        )
    } else {
        slots
    }
}

/// A table after a block was taken out of it; a tombstone stays.
pub open spec fn without_block(slots: Seq<LookupSlot>, block: u64) -> Seq<LookupSlot> {
    if exists|at: int| stands_at(slots, block, at) {
        slots.update(choose|at: int| stands_at(slots, block, at), LookupSlot::Tombstone)
    } else {
        slots
    }
}

/// The first free place on the way of a block is one place.
proof fn lemma_free_after(slots: Seq<LookupSlot>, block: u64, steps: int, entry: usize)
    requires
        free_after(slots, block, steps),
    ensures
        with_block(slots, block, entry) == slots.update(
            probe(home(block, slots.len() as int), steps, slots.len() as int),
            LookupSlot::Occupied { block, entry },
        ),
{
    let size = slots.len() as int;
    let found = choose|steps: int| free_after(slots, block, steps);
    assert(free_after(slots, block, found));
    if found < steps {
        assert(slots[probe(home(block, size), found, size)] is Occupied);
    }
    if steps < found {
        assert(slots[probe(home(block, size), steps, size)] is Occupied);
    }
}

/// Putting blocks in and taking them out leaves the number of places.
pub(crate) proof fn lemma_places_stay(slots: Seq<LookupSlot>, block: u64, entry: usize)
    ensures
        with_block(slots, block, entry).len() == slots.len(),
        without_block(slots, block).len() == slots.len(),
{
    let size = slots.len() as int;
    if exists|steps: int| free_after(slots, block, steps) {
        let steps = choose|steps: int| free_after(slots, block, steps);
        assert(free_after(slots, block, steps));
        assert(0 <= home(block, size) < size) by {
            vstd::arithmetic::div_mod::lemma_mod_bound(hash_of(block) as int, size);
        }
    }
}

/// Replacing a place changes the counts accordingly.
proof fn lemma_counts_update(slots: Seq<LookupSlot>, count: nat, at: int, slot: LookupSlot)
    requires
        count <= slots.len(),
        0 <= at < slots.len(),
    ensures
        occupied(slots.update(at, slot), count) == occupied(slots, count) + (if at < count
            && slot is Occupied {
            1int
        } else {
            0
        }) - (if at < count && slots[at] is Occupied {
            1int
        } else {
            0
        }),
        buried(slots.update(at, slot), count) == buried(slots, count) + (if at < count
            && slot is Tombstone {
            1int
        } else {
            0
        }) - (if at < count && slots[at] is Tombstone {
            1int
        } else {
            0
        }),
    decreases count,
{
    if count > 0 {
        lemma_counts_update(slots, (count - 1) as nat, at, slot);
    }
}

/// Bounds on the counts.
proof fn lemma_counts(slots: Seq<LookupSlot>, count: nat)
    requires
        count <= slots.len(),
    ensures
        occupied(slots, count) + buried(slots, count) <= count,
        occupied(slots, count) < count ==> exists|i: int|
            0 <= i < count && !(#[trigger] slots[i] is Occupied),
        forall|i: int| 0 <= i < count && #[trigger] slots[i] is Occupied ==> occupied(slots, count) > 0,
        forall|i: int| 0 <= i < count && #[trigger] slots[i] is Tombstone ==> buried(slots, count) > 0,
        (forall|i: int| 0 <= i < count ==> #[trigger] slots[i] is Empty) ==> occupied(slots, count)
            == 0 && buried(slots, count) == 0,
    decreases count,
{
    if count > 0 {
        lemma_counts(slots, (count - 1) as nat);
    }
}

impl LookupTable {
    /// The place at `at` holds `block`.
    pub open spec fn holds_at(&self, block: u64, at: int) -> bool {
        &&& 0 <= at < self.slots@.len()
        &&& self.slots@[at] matches LookupSlot::Occupied { block: stored, entry } && stored == block
    }

    /// The entry of each block.
    pub open spec fn entry_of(&self, block: u64) -> Option<usize> {
        if exists|at: int| self.holds_at(block, at) {
            let at = choose|at: int| self.holds_at(block, at);
            Some(self.slots@[at]->entry)
        } else {
            None
        }
    }

    /// Number of blocks in the table.
    pub open spec fn len(&self) -> nat {
        occupied(self.slots@, self.slots@.len())
    }

    /// A block stands at most once, and no empty place lies between where its search
    /// begins and where it stands.
    pub open spec fn wf(&self) -> bool {
        &&& self.slots@.len() > 0
        &&& self.tombstones == buried(self.slots@, self.slots@.len())
        &&& forall|block: u64, at: int, other: int|
            #![trigger self.holds_at(block, at), self.holds_at(block, other)]
            self.holds_at(block, at) && self.holds_at(block, other) ==> at == other
        &&& forall|block: u64, at: int, k: int|
            #![trigger self.holds_at(block, at), probe(home(block, self.slots@.len() as int), k, self.slots@.len() as int)]
            self.holds_at(block, at) && 0 <= k < steps_to(
                home(block, self.slots@.len() as int),
                at,
                self.slots@.len() as int,
            ) ==> !(self.slots@[probe(
                home(block, self.slots@.len() as int),
                k,
                self.slots@.len() as int,
            )] is Empty)
    }

    /// What stands in the table is found.
    pub proof fn lemma_entry(&self, block: u64, at: int)
        requires
            self.wf(),
            self.holds_at(block, at),
        ensures
            self.entry_of(block) == Some(self.slots@[at]->entry),
    {
        let found = choose|found: int| self.holds_at(block, found);
        assert(self.holds_at(block, found));
    }

    /// A table of `size` places that holds nothing.
    pub open spec fn vacant(&self, size: int) -> bool {
        &&& self.wf()
        &&& self.slots@.len() == size
        &&& self.tombstones == 0
        &&& self.len() == 0
        &&& forall|i: int| 0 <= i < size ==> #[trigger] self.slots@[i] is Empty
        &&& forall|block: u64| #[trigger] self.entry_of(block) is None
    }

    /// An empty table of `size` places, if there is room for one.
    ///
    /// Whether there is room depends on the allocator; what follows from its answer is said
    /// by `in_storage`.
    pub fn try_new(size: usize) -> (table: Option<LookupTable>)
        requires
            size > 0,
        ensures
            table matches Some(made) ==> made.vacant(size as int),
    {
        let mut storage: Vec<LookupSlot> = Vec::new();
        let reserved: bool = reserve_exact(&mut storage, size);
        LookupTable::in_storage(storage, reserved, size)
    }

    /// An empty table of `size` places in `storage`, exactly where the storage was reserved.
    pub fn in_storage(storage: Vec<LookupSlot>, reserved: bool, size: usize) -> (table: Option<
        LookupTable,
    >)
        requires
            size > 0,
            storage@.len() == 0,
        ensures
            match table {
                Some(made) => reserved && made.vacant(size as int),
                None => !reserved,
            },
    {
        if !reserved {
            return None;
        }
        let mut slots: Vec<LookupSlot> = storage;
        let mut index: usize = 0;
        while index < size
            invariant
                index <= size,
                slots@.len() == index,
                forall|i: int| 0 <= i < index ==> #[trigger] slots@[i] is Empty,
            decreases size - index,
        {
            slots.push(LookupSlot::Empty);
            index += 1;
        }
        proof {
            lemma_counts(slots@, slots@.len());
        }
        let table = LookupTable { slots, tombstones: 0 };
        assert forall|block: u64, at: int| !table.holds_at(block, at) by {}
        Some(table)
    }

    /// Where the search for a block begins.
    fn start(&self, block: u64) -> (place: usize)
        requires
            self.slots@.len() > 0,
        ensures
            place == home(block, self.slots@.len() as int),
            place < self.slots@.len(),
    {
        let size: u64 = self.slots.len() as u64;
        (hash_block(block) % size) as usize
    }

    /// The place after this one.
    fn following(&self, place: usize) -> (next: usize)
        requires
            place < self.slots@.len(),
        ensures
            next == probe(place as int, 1, self.slots@.len() as int),
            next < self.slots@.len(),
    {
        if place < self.slots.len() - 1 {
            place + 1
        } else {
            0
        }
    }

    /// Finds the place of a block.
    fn find(&self, block: u64) -> (place: Option<usize>)
        requires
            self.wf(),
        ensures
            match place {
                Some(place) => self.holds_at(block, place as int),
                None => forall|at: int| !self.holds_at(block, at),
            },
    {
        let ghost size = self.slots@.len() as int;
        let ghost first = home(block, size);
        let mut place: usize = self.start(block);
        let mut steps: usize = 0;
        while steps < self.slots.len()
            invariant
                self.wf(),
                size == self.slots@.len(),
                first == home(block, size),
                0 <= first < size,
                steps <= size,
                steps < size ==> place == probe(first, steps as int, size),
                place < size,
                forall|k: int|
                    0 <= k < steps ==> !self.holds_at(block, #[trigger] probe(first, k, size)),
            decreases size - steps,
        {
            match self.slots[place] {
                LookupSlot::Empty => {
                    proof {
                        assert forall|at: int| !self.holds_at(block, at) by {
                            if self.holds_at(block, at) {
                                let k = steps_to(first, at, size);
                                assert(probe(first, k, size) == at);
                                assert(k >= steps);
                                if k > steps {
                                    assert(!(self.slots@[probe(first, steps as int, size)] is Empty));
                                }
                            }
                        }
                    }
                    return None;
                },
                LookupSlot::Occupied { block: stored, entry: _ } => {
                    if stored == block {
                        assert(self.holds_at(block, place as int));
                        return Some(place);
                    }
                },
                LookupSlot::Tombstone => {},
            }
            place = self.following(place);
            steps += 1;
        }
        proof {
            assert forall|at: int| !self.holds_at(block, at) by {
                if self.holds_at(block, at) {
                    let k = steps_to(first, at, size);
                    assert(probe(first, k, size) == at);
                }
            }
        }
        None
    }

    /// The entry of a block.
    pub fn get(&self, block: u64) -> (entry: Option<usize>)
        requires
            self.wf(),
        ensures
            entry == self.entry_of(block),
    {
        match self.find(block) {
            None => None,
            Some(place) => {
                proof {
                    self.lemma_entry(block, place as int);
                }
                match self.slots[place] {
                    LookupSlot::Occupied { block: _, entry } => Some(entry),
                    _ => None,
                }
            },
        }
    }

    /// Puts a block into the table, into the first tombstone on its way if there is one.
    pub fn insert(&mut self, block: u64, entry: usize)
        requires
            old(self).wf(),
            old(self).entry_of(block) is None,
            old(self).len() < old(self).slots@.len(),
        ensures
            final(self).wf(),
            final(self).slots@.len() == old(self).slots@.len(),
            final(self).len() == old(self).len() + 1,
            final(self).slots@ == with_block(old(self).slots@, block, entry),
            forall|other: u64| #[trigger]
                final(self).entry_of(other) == (if other == block {
                    Some(entry)
                } else {
                    old(self).entry_of(other)
                }),
    {
        let ghost size = self.slots@.len() as int;
        let ghost first = home(block, size);
        let mut place: usize = self.start(block);
        let mut steps: usize = 0;
        let mut target: Option<usize> = None;
        proof {
            lemma_counts(self.slots@, self.slots@.len());
        }
        while steps < self.slots.len()
            invariant
                *self == *old(self),
                self.wf(),
                self.len() < size,
                self.entry_of(block) is None,
                size == self.slots@.len(),
                first == home(block, size),
                0 <= first < size,
                steps <= size,
                steps < size ==> place == probe(first, steps as int, size),
                place < size,
                forall|k: int|
                    0 <= k < steps ==> !(self.slots@[#[trigger] probe(first, k, size)] is Empty),
                match target {
                    Some(found) => found < size && self.slots@[found as int] is Tombstone && ({
                        let k = steps_to(first, found as int, size);
                        0 <= k < steps && probe(first, k, size) == found && forall|j: int|
                            0 <= j < k ==> self.slots@[#[trigger] probe(
                                first,
                                j,
                                size,
                            )] is Occupied
                    }),
                    None => forall|k: int|
                        0 <= k < steps ==> self.slots@[#[trigger] probe(first, k, size)] is Occupied,
                },
            decreases size - steps,
        {
            match self.slots[place] {
                LookupSlot::Empty => {
                    let found: usize = match target {
                        Some(found) => found,
                        None => place,
                    };
                    proof {
                        let k = steps_to(first, found as int, size);
                        assert(probe(first, k, size) == found);
                        lemma_free_after(self.slots@, block, k, entry);
                    }
                    self.place(block, entry, found);
                    return;
                },
                LookupSlot::Tombstone => {
                    if target.is_none() {
                        target = Some(place);
                    }
                },
                LookupSlot::Occupied { block: _, entry: _ } => {},
            }
            place = self.following(place);
            steps += 1;
        }
        match target {
            Some(found) => {
                proof {
                    let k = steps_to(first, found as int, size);
                    assert(probe(first, k, size) == found);
                    lemma_free_after(self.slots@, block, k, entry);
                }
                self.place(block, entry, found);
            },
            None => {
                proof {
                    let free = choose|i: int|
                        0 <= i < size && !(#[trigger] self.slots@[i] is Occupied);
                    assert(probe(first, steps_to(first, free, size), size) == free);
                    assert(false);
                }
            },
        }
    }

    /// Writes a block into a free place that its search reaches.
    fn place(&mut self, block: u64, entry: usize, at: usize)
        requires
            old(self).wf(),
            old(self).entry_of(block) is None,
            at < old(self).slots@.len(),
            !(old(self).slots@[at as int] is Occupied),
            ({
                let size = old(self).slots@.len() as int;
                forall|k: int|
                    0 <= k < steps_to(home(block, size), at as int, size) ==> !(old(
                        self,
                    ).slots@[#[trigger] probe(home(block, size), k, size)] is Empty)
            }),
        ensures
            final(self).wf(),
            final(self).slots@.len() == old(self).slots@.len(),
            final(self).len() == old(self).len() + 1,
            final(self).slots@ == old(self).slots@.update(
                at as int,
                LookupSlot::Occupied { block, entry },
            ),
            forall|other: u64| #[trigger]
                final(self).entry_of(other) == (if other == block {
                    Some(entry)
                } else {
                    old(self).entry_of(other)
                }),
    {
        let ghost before = *self;
        proof {
            lemma_counts_update(
                before.slots@,
                before.slots@.len(),
                at as int,
                LookupSlot::Occupied { block, entry },
            );
            lemma_counts(before.slots@, before.slots@.len());
        }
        let buried_here: bool = match self.slots[at] {
            LookupSlot::Tombstone => true,
            _ => false,
        };
        if buried_here {
            self.tombstones = self.tombstones - 1;
        }
        self.slots[at] = LookupSlot::Occupied { block, entry };
        proof {
            assert(self.slots@ =~= before.slots@.update(
                at as int,
                LookupSlot::Occupied { block, entry },
            ));
            assert forall|other: u64, place: int| #[trigger]
                self.holds_at(other, place) == (if place == at {
                    other == block
                } else {
                    before.holds_at(other, place)
                }) by {}
            assert forall|place: int| !before.holds_at(block, place) by {
                if before.holds_at(block, place) {
                    before.lemma_entry(block, place);
                }
            }
            lemma_table_order(before, *self, block, at as int);
            assert forall|other: u64| #[trigger]
                self.entry_of(other) == (if other == block {
                    Some(entry)
                } else {
                    before.entry_of(other)
                }) by {
                lemma_same_entry(before, *self, other, block, at as int);
            }
        }
    }

    /// Takes a block out of the table.
    pub fn remove(&mut self, block: u64)
        requires
            old(self).wf(),
            old(self).entry_of(block) is Some,
        ensures
            final(self).wf(),
            final(self).slots@.len() == old(self).slots@.len(),
            final(self).len() == old(self).len() - 1,
            final(self).slots@ == without_block(old(self).slots@, block),
            forall|other: u64| #[trigger]
                final(self).entry_of(other) == (if other == block {
                    None
                } else {
                    old(self).entry_of(other)
                }),
    {
        match self.find(block) {
            Some(at) => {
                let ghost before = *self;
                proof {
                    lemma_counts(before.slots@, before.slots@.len());
                    lemma_counts_update(
                        before.slots@,
                        before.slots@.len(),
                        at as int,
                        LookupSlot::Tombstone,
                    );
                    assert(before.slots.len() == before.slots@.len());
                    lemma_counts(
                        before.slots@.update(at as int, LookupSlot::Tombstone),
                        before.slots@.len(),
                    );
                }
                self.slots[at] = LookupSlot::Tombstone;
                self.tombstones = self.tombstones + 1;
                proof {
                    assert(self.slots@ =~= before.slots@.update(
                        at as int,
                        LookupSlot::Tombstone,
                    ));
                    assert(stands_at(before.slots@, block, at as int));
                    let stood = choose|stood: int| stands_at(before.slots@, block, stood);
                    assert(stands_at(before.slots@, block, stood));
                    assert(before.holds_at(block, stood) && before.holds_at(block, at as int));
                    assert forall|other: u64, place: int| #[trigger]
                        self.holds_at(other, place) == (place != at && before.holds_at(
                            other,
                            place,
                        )) by {}
                    let size = self.slots@.len() as int;
                    assert forall|other: u64, place: int, k: int|
                        #![trigger self.holds_at(other, place), probe(home(other, size), k, size)]
                        self.holds_at(other, place) && 0 <= k < steps_to(
                            home(other, size),
                            place,
                            size,
                        ) implies !(self.slots@[probe(home(other, size), k, size)] is Empty) by {
                        assert(before.holds_at(other, place));
                        assert(!(before.slots@[probe(home(other, size), k, size)] is Empty));
                    }
                    assert forall|other: u64, place: int, twin: int|
                        #![trigger self.holds_at(other, place), self.holds_at(other, twin)]
                        self.holds_at(other, place) && self.holds_at(other, twin) implies place
                        == twin by {
                        assert(before.holds_at(other, place));
                        assert(before.holds_at(other, twin));
                    }
                    assert(self.wf());
                    assert forall|other: u64| #[trigger]
                        self.entry_of(other) == (if other == block {
                            None
                        } else {
                            before.entry_of(other)
                        }) by {
                        lemma_removed_entry(before, *self, other, block, at as int);
                    }
                }
            },
            None => {},
        }
    }
}

/// A block written into a free place that its search reaches keeps the table in order.
proof fn lemma_table_order(before: LookupTable, after: LookupTable, block: u64, at: int)
    requires
        before.wf(),
        0 <= at < before.slots@.len(),
        !(before.slots@[at] is Occupied),
        after.slots@.len() == before.slots@.len(),
        after.slots@[at] is Occupied,
        after.tombstones == buried(after.slots@, after.slots@.len()),
        forall|i: int|
            0 <= i < before.slots@.len() && i != at ==> #[trigger] after.slots@[i]
                == before.slots@[i],
        forall|other: u64, place: int| #[trigger]
            after.holds_at(other, place) == (if place == at {
                other == block
            } else {
                before.holds_at(other, place)
            }),
        forall|place: int| !before.holds_at(block, place),
        ({
            let size = before.slots@.len() as int;
            forall|k: int|
                0 <= k < steps_to(home(block, size), at, size) ==> !(before.slots@[#[trigger] probe(
                    home(block, size),
                    k,
                    size,
                )] is Empty)
        }),
    ensures
        after.wf(),
{
    let size = after.slots@.len() as int;
    assert forall|other: u64, place: int, k: int|
        #![trigger after.holds_at(other, place), probe(home(other, size), k, size)]
        after.holds_at(other, place) && 0 <= k < steps_to(
            home(other, size),
            place,
            size,
        ) implies !(after.slots@[probe(home(other, size), k, size)] is Empty) by {
        let p = probe(home(other, size), k, size);
        assert(0 <= p < size);
        if p != at {
            assert(after.slots@[p] == before.slots@[p]);
            if place != at {
                assert(before.holds_at(other, place));
            }
        }
    }
}

/// Other blocks keep their entries when one is added.
proof fn lemma_same_entry(
    before: LookupTable,
    after: LookupTable,
    other: u64,
    block: u64,
    at: int,
)
    requires
        before.wf(),
        after.wf(),
        0 <= at < before.slots@.len(),
        !(before.slots@[at] is Occupied),
        after.slots@.len() == before.slots@.len(),
        after.holds_at(block, at),
        forall|i: int|
            0 <= i < before.slots@.len() && i != at ==> #[trigger] after.slots@[i]
                == before.slots@[i],
        forall|place: int| !before.holds_at(block, place),
    ensures
        after.entry_of(other) == (if other == block {
            Some(after.slots@[at]->entry)
        } else {
            before.entry_of(other)
        }),
{
    if other == block {
        after.lemma_entry(block, at);
    } else {
        if exists|place: int| before.holds_at(other, place) {
            let place = choose|place: int| before.holds_at(other, place);
            assert(place != at);
            assert(after.holds_at(other, place));
            after.lemma_entry(other, place);
            before.lemma_entry(other, place);
        } else {
            assert forall|place: int| !after.holds_at(other, place) by {
                if after.holds_at(other, place) && place != at {
                    assert(before.holds_at(other, place));
                }
            }
        }
    }
}

/// Other blocks keep their entries when one is removed.
proof fn lemma_removed_entry(
    before: LookupTable,
    after: LookupTable,
    other: u64,
    block: u64,
    at: int,
)
    requires
        before.wf(),
        after.wf(),
        before.holds_at(block, at),
        after.slots@.len() == before.slots@.len(),
        forall|name: u64, place: int| #[trigger]
            after.holds_at(name, place) == (place != at && before.holds_at(name, place)),
        forall|i: int|
            0 <= i < before.slots@.len() && i != at ==> #[trigger] after.slots@[i]
                == before.slots@[i],
    ensures
        after.entry_of(other) == (if other == block {
            None
        } else {
            before.entry_of(other)
        }),
{
    if other == block {
        assert forall|place: int| !after.holds_at(other, place) by {
            if after.holds_at(other, place) {
                assert(before.holds_at(block, place));
            }
        }
    } else if exists|place: int| before.holds_at(other, place) {
        let place = choose|place: int| before.holds_at(other, place);
        assert(before.holds_at(other, place));
        assert(after.holds_at(other, place));
        after.lemma_entry(other, place);
        before.lemma_entry(other, place);
    } else {
        assert forall|place: int| !after.holds_at(other, place) by {
            if after.holds_at(other, place) {
                assert(before.holds_at(other, place));
            }
        }
    }
}

} // verus!
