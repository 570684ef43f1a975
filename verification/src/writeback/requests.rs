//! Taking writes into the cache and serving reads from it.
use vstd::prelude::*;

use super::cache::{copy_bytes, fill_block, transfer_spec, validate_transfer, Cache, CacheEntry};
use super::model::{
    caches, counted, counted_by, find, first_vacant, lemma_first_vacant_stays, lemma_reusable,
    lemma_state_bounds, lemma_state_update, oldest_clean, reusable, CacheModel, DiskError,
    EntryState, Slot, WriteBackMetrics, EAGAIN, EIO, ENOSPC, EROFS, READ_AHEAD_BLOCKS,
    WRITEBACK_BLOCK_SIZE,
};
use super::transfer::{lemma_find, lemma_replaced, lemma_same_blocks};

verus! {

/// Block `index` of a run of bytes.
pub open spec fn chunk(bytes: Seq<u8>, index: int) -> Seq<u8> {
    bytes.subrange(index * 4096, index * 4096 + 4096)
}

/// Blocks from `block` on that are not cached, among the first `count`.
pub open spec fn uncached(entries: Seq<Slot>, block: u64, count: nat) -> nat
    decreases count,
{
    if count == 0 {
        0
    } else {
        uncached(entries, block, (count - 1) as nat) + if find(
            entries,
            (block + count - 1) as u64,
        ) is None {
            1nat
        } else {
            0
        }
    }
}

/// A block of the range is held for an outstanding ticket.
pub open spec fn crosses_barrier(model: CacheModel, block: u64, count: int) -> bool {
    model.tickets.len() > 0 && exists|offset: int|
        0 <= offset < count && held_for_ticket(model, #[trigger] target_of(block, offset))
}

/// The block `offset` blocks after `block`.
pub open spec fn target_of(block: u64, offset: int) -> u64 {
    (block + offset) as u64
}

/// A dirty block whose oldest write is within the requested sequence.
pub open spec fn held_for_ticket(model: CacheModel, block: u64) -> bool {
    match find(model.entries, block) {
        Some(at) => model.entries[at].state == EntryState::Dirty && model.entries[at].first
            <= model.requested,
        None => false,
    }
}

/// The entry can be given to another block without touching the range.
pub open spec fn free_for(slot: Slot, start: int, end: int) -> bool {
    slot.state == EntryState::Vacant || (slot.state == EntryState::Clean && !(start <= slot.block
        < end))
}

/// Entries among the first `count` that can be given to other blocks.
pub open spec fn free_entries(entries: Seq<Slot>, start: int, end: int, count: nat) -> nat
    decreases count,
{
    if count == 0 {
        0
    } else {
        free_entries(entries, start, end, (count - 1) as nat) + if free_for(
            entries[count - 1],
            start,
            end,
        ) {
            1nat
        } else {
            0
        }
    }
}

/// After the first `count` blocks of a write were taken; `false` once an entry was wanting.
pub open spec fn taken(model: CacheModel, block: u64, bytes: Seq<u8>, count: nat) -> (
    CacheModel,
    bool,
)
    decreases count,
{
    if count == 0 {
        (model, true)
    } else {
        let (before, fits) = taken(model, block, bytes, (count - 1) as nat);
        if !fits {
            (before, false)
        } else {
            let numbered = CacheModel { written: (before.written + 1) as u64, ..before };
            match numbered.accepted(
                target_of(block, count - 1),
                chunk(bytes, count - 1),
                numbered.written,
            ) {
                Some(after) => (after, true),
                None => (numbered.accessed(), false),
            }
        }
    }
}

impl CacheModel {
    /// A write was refused and counted as backpressure.
    pub open spec fn refused(self, pressure: bool) -> CacheModel {
        CacheModel {
            metrics: WriteBackMetrics {
                rejected_writes: counted(self.metrics.rejected_writes),
                backpressure_events: if pressure {
                    counted(self.metrics.backpressure_events)
                } else {
                    self.metrics.backpressure_events
                },
                ..self.metrics
            },
            ..self
        }
    }

    /// The first check of a write: what it needs, or why it is refused.
    pub open spec fn write_checked(self, block: u64, count: usize) -> (
        CacheModel,
        Result<usize, DiskError>,
    ) {
        if self.read_only() {
            (self.refused(false), Err(DiskError { errno: EROFS }))
        } else if count > self.entries.len() {
            (self.refused(true), Err(DiskError { errno: ENOSPC }))
        } else if self.written + count > u64::MAX {
            (self, Err(DiskError { errno: EIO }))
        } else if crosses_barrier(self, block, count as int) {
            (self.refused(true), Err(DiskError { errno: EAGAIN }))
        } else {
            (self, Ok(uncached(self.entries, block, count as nat) as usize))
        }
    }

    /// After a pressure step that freed entries, or none.
    pub open spec fn pressed(self, before: usize, after: usize) -> CacheModel {
        if after <= before {
            CacheModel {
                metrics: WriteBackMetrics {
                    pressure_stalls: counted(self.metrics.pressure_stalls),
                    ..self.refused(true).metrics
                },
                ..self
            }
        } else {
            CacheModel {
                metrics: WriteBackMetrics {
                    pressure_entries_freed: counted_by(
                        self.metrics.pressure_entries_freed,
                        after - before,
                    ),
                    ..self.metrics
                },
                ..self
            }
        }
    }
}

/// A read in progress.
#[derive(Debug)]
pub struct ReadJob {
    pub block: u64,
    pub count: usize,
    /// Blocks that were read.
    pub offset: usize,
    /// Their bytes.
    pub output: Vec<u8>,
}

impl ReadJob {
    /// What was read is whole blocks of the request.
    pub open spec fn wf(&self) -> bool {
        &&& self.offset <= self.count
        &&& self.block + self.count <= u64::MAX
        &&& self.count * 4096 <= usize::MAX
        &&& self.output@.len() == self.offset * 4096
    }
}

/// Serves cached blocks from `offset` on, until one is not cached.
pub open spec fn served(
    model: CacheModel,
    block: u64,
    offset: int,
    count: int,
    output: Seq<u8>,
) -> (CacheModel, int, Seq<u8>)
    decreases count - offset,
{
    if offset >= count {
        (model, offset, output)
    } else {
        match find(model.entries, target_of(block, offset)) {
            None => (model, offset, output),
            Some(at) => served(
                model.hit(at),
                block,
                offset + 1,
                count,
                output + model.entries[at].data,
            ),
        }
    }
}

/// Consecutive blocks from `offset` on that are not cached.
pub open spec fn miss_run(entries: Seq<Slot>, block: u64, offset: int, count: int) -> int
    decreases count - offset,
{
    if offset >= count || find(entries, target_of(block, offset)) is Some {
        0
    } else {
        1 + miss_run(entries, block, offset + 1, count)
    }
}

/// After the first `count` blocks that were read were offered to the cache.
pub open spec fn admitted_first(model: CacheModel, block: u64, bytes: Seq<u8>, count: nat) -> CacheModel
    decreases count,
{
    if count == 0 {
        model
    } else {
        admitted_first(model, block, bytes, (count - 1) as nat).admitted(
            target_of(block, count - 1),
            chunk(bytes, count - 1),
        )
    }
}

/// After the blocks behind the first one were offered to the cache.
pub open spec fn admitted_ahead(model: CacheModel, block: u64, bytes: Seq<u8>, count: nat) -> CacheModel
    decreases count,
{
    if count <= 1 {
        model
    } else {
        admitted_ahead(model, block, bytes, (count - 1) as nat).admitted(
            target_of(block, count - 1),
            chunk(bytes, count - 1),
        )
    }
}

impl CacheModel {
    /// A read failed.
    pub open spec fn read_failed(self) -> CacheModel {
        CacheModel {
            metrics: WriteBackMetrics {
                read_errors: counted(self.metrics.read_errors),
                ..self.metrics
            },
            ..self
        }
    }
}

impl Cache {
    /// The next access time.
    fn next_access(&mut self) -> (access: u64)
        requires
            old(self).wf(),
        ensures
            final(self).wf(),
            final(self).model() == old(self).model().accessed(),
            access == final(self).access_clock,
            *final(self) == (Cache { access_clock: access, ..*old(self) }),
    {
        self.access_clock = self.access_clock.saturating_add(1);
        proof {
            self.lemma_same_entries(*old(self));
        }
        self.access_clock
    }

    /// The entry that a new block takes.
    fn reusable_entry(&self) -> (entry: Option<usize>)
        requires
            self.wf(),
        ensures
            match reusable(self.slots()) {
                Some(at) => entry matches Some(found) && found == at && 0 <= at
                    < self.entries@.len() && self.slots()[at].state != EntryState::Dirty,
                None => entry is None,
            },
    {
        let ghost slots = self.slots();
        let mut index: usize = 0;
        while index < self.entries.len()
            invariant
                index <= self.entries@.len(),
                slots == self.slots(),
                first_vacant(slots, index as nat) is None,
            decreases self.entries@.len() - index,
        {
            assert(slots[index as int] == self.entries@[index as int].slot());
            if self.entries[index].state == EntryState::Vacant {
                proof {
                    lemma_first_vacant_stays(slots, (index + 1) as nat, slots.len());
                }
                return Some(index);
            }
            index += 1;
        }
        let mut selected: Option<usize> = None;
        let mut other: usize = 0;
        while other < self.entries.len()
            invariant
                other <= self.entries@.len(),
                slots == self.slots(),
                match oldest_clean(slots, other as nat) {
                    Some(at) => selected matches Some(found) && found == at && 0 <= at < other,
                    None => selected is None,
                },
            decreases self.entries@.len() - other,
        {
            let entry: &CacheEntry = &self.entries[other];
            assert(slots[other as int] == entry.slot());
            if entry.state == EntryState::Clean {
                match selected {
                    Some(at) => {
                        assert(slots[at as int] == self.entries@[at as int].slot());
                        if entry.last_used < self.entries[at].last_used {
                            selected = Some(other);
                        }
                    },
                    None => {
                        selected = Some(other);
                    },
                }
            }
            other += 1;
        }
        proof {
            lemma_reusable(slots, slots.len());
        }
        selected
    }

    /// Gives an entry to a block.
    fn prepare_entry(
        &mut self,
        index: usize,
        block: u64,
        bytes: &[u8],
        from: usize,
        state: EntryState,
        sequence: u64,
        access: u64,
    )
        requires
            old(self).wf(),
            index < old(self).entries@.len(),
            old(self).slots()[index as int].state != EntryState::Dirty,
            find(old(self).slots(), block) is None,
            from + WRITEBACK_BLOCK_SIZE <= bytes.len(),
            state != EntryState::Vacant,
            access <= old(self).access_clock,
            state == EntryState::Dirty ==> old(self).durable_sequence < sequence <= old(
                self,
            ).write_sequence,
            state == EntryState::Dirty ==> forall|i: int|
                0 <= i < old(self).slots().len() && (#[trigger] old(self).slots()[i]).state
                    == EntryState::Dirty ==> old(self).slots()[i].first != sequence,
        ensures
            final(self).wf(),
            final(self).model() == old(self).model().prepared(
                Slot {
                    block,
                    data: bytes@.subrange(from as int, from + WRITEBACK_BLOCK_SIZE),
                    state,
                    first: sequence,
                    last: sequence,
                    used: access,
                },
                index as int,
            ),
    {
        let ghost before = *self;
        let ghost slots = self.slots();
        let ghost slot = Slot {
            block,
            data: bytes@.subrange(from as int, from + WRITEBACK_BLOCK_SIZE),
            state,
            first: sequence,
            last: sequence,
            used: access,
        };
        proof {
            assert(slots[index as int] == self.entries@[index as int].slot());
            lemma_state_bounds(slots, EntryState::Vacant, slots.len());
            lemma_state_bounds(slots, EntryState::Dirty, slots.len());
            lemma_state_update(slots, EntryState::Vacant, slots.len(), index as int, slot);
            lemma_state_update(slots, EntryState::Dirty, slots.len(), index as int, slot);
            lemma_state_bounds(
                slots.update(index as int, slot),
                EntryState::Dirty,
                slots.len(),
            );
            lemma_replaced(slots, index as int, slot);
            assert(self.lookup.entry_of(block) is None);
            assert(self.entries.len() == self.entries@.len());
        }
        let evicts: bool = self.entries[index].state == EntryState::Clean;
        if evicts {
            let old_block: u64 = self.entries[index].block;
            proof {
                assert(caches(slots, old_block, index as int));
                lemma_find(slots, old_block, index as int);
                assert(self.lookup.entry_of(old_block) is Some);
            }
            self.lookup.remove(old_block);
            self.metrics.clean_evictions = self.metrics.clean_evictions.saturating_add(1);
            self.metrics.lookup_tombstones_created =
            self.metrics.lookup_tombstones_created.saturating_add(1);
        } else {
            self.resident_count = self.resident_count + 1;
        }
        assert(self.lookup.entry_of(block) is None);
        self.lookup.insert(block, index);
        self.metrics.cache_insertions = self.metrics.cache_insertions.saturating_add(1);
        self.entries[index].block = block;
        fill_block(&mut self.entries[index].data, bytes, from);
        self.entries[index].state = state;
        self.entries[index].first_sequence = sequence;
        self.entries[index].last_sequence = sequence;
        self.entries[index].last_used = access;
        if state == EntryState::Dirty {
            self.dirty_count = self.dirty_count + 1;
        }
        proof {
            let now = self.slots();
            assert(now =~= slots.update(index as int, slot));
            assert(self.model().tickets =~= before.model().tickets);
            assert forall|other: u64| match #[trigger] self.lookup.entry_of(other) {
                Some(entry) => find(now, other) == Some(entry as int),
                None => find(now, other) is None,
            } by {
                let was = before.lookup.entry_of(other);
                assert(find(now, other) == (if other == block {
                    Some(index as int)
                } else if caches(slots, other, index as int) {
                    None
                } else {
                    find(slots, other)
                }));
            }
            assert(self.model() =~= before.model().prepared(slot, index as int));
            assert forall|i: int| 0 <= i < now.len() implies ({
                let each = #[trigger] now[i];
                &&& each.data.len() == WRITEBACK_BLOCK_SIZE
                &&& each.used <= self.access_clock
                &&& each.state == EntryState::Dirty ==> self.durable_sequence < each.first
                    <= each.last <= self.write_sequence
            }) by {
                let each = before.model().entries[i];
            }
            assert forall|i: int, j: int|
                0 <= i < j < now.len() && (#[trigger] now[i]).state == EntryState::Dirty && (
                #[trigger] now[j]).state == EntryState::Dirty implies now[i].first
                != now[j].first by {
                let left = before.model().entries[i];
                let right = before.model().entries[j];
                assert(slots[i] == left && slots[j] == right);
            }
        }
    }

    /// Takes a write of one block.
    fn accept_block(&mut self, block: u64, bytes: &[u8], from: usize, sequence: u64) -> (result: Result<
        (),
        DiskError,
    >)
        requires
            old(self).wf(),
            from + WRITEBACK_BLOCK_SIZE <= bytes.len(),
            old(self).durable_sequence < sequence == old(self).write_sequence,
            forall|i: int|
                0 <= i < old(self).slots().len() && (#[trigger] old(self).slots()[i]).state
                    == EntryState::Dirty ==> old(self).slots()[i].first < sequence,
        ensures
            final(self).wf(),
            match old(self).model().accepted(
                block,
                bytes@.subrange(from as int, from + WRITEBACK_BLOCK_SIZE),
                sequence,
            ) {
                Some(after) => result == Ok::<(), DiskError>(()) && final(self).model() == after,
                None => result == Err::<(), DiskError>(DiskError { errno: EAGAIN }) && final(self).model() == old(self).model().accessed(),
            },
    {
        let ghost start = *self;
        let access: u64 = self.next_access();
        let ghost before = *self;
        let ghost slots = self.slots();
        let ghost data = bytes@.subrange(from as int, from + WRITEBACK_BLOCK_SIZE);
        assert(slots =~= start.slots());
        if let Some(index) = self.lookup_entry(block) {
            let dirty: bool = self.entries[index].state == EntryState::Dirty;
            proof {
                assert(slots[index as int] == self.entries@[index as int].slot());
                lemma_state_bounds(slots, EntryState::Dirty, slots.len());
                assert(self.entries.len() == self.entries@.len());
            }
            if dirty {
                self.metrics.coalesced_writes = self.metrics.coalesced_writes.saturating_add(1);
            } else {
                self.entries[index].state = EntryState::Dirty;
                self.entries[index].first_sequence = sequence;
                self.dirty_count = self.dirty_count + 1;
            }
            fill_block(&mut self.entries[index].data, bytes, from);
            self.entries[index].last_sequence = sequence;
            self.entries[index].last_used = access;
            proof {
                let slot = self.entries@[index as int].slot();
                let now = self.slots();
                assert(now =~= slots.update(index as int, slot));
                lemma_state_update(slots, EntryState::Dirty, slots.len(), index as int, slot);
                lemma_same_blocks(slots, now);
                assert(self.model().tickets =~= before.model().tickets);
                assert forall|other: u64| match #[trigger] self.lookup.entry_of(other) {
                    Some(entry) => find(now, other) == Some(entry as int),
                    None => find(now, other) is None,
                } by {
                    assert(find(now, other) == find(slots, other));
                    let was = before.lookup.entry_of(other);
                }
                assert forall|i: int| 0 <= i < now.len() implies ({
                    let each = #[trigger] now[i];
                    &&& each.data.len() == WRITEBACK_BLOCK_SIZE
                    &&& each.used <= self.access_clock
                    &&& each.state == EntryState::Dirty ==> self.durable_sequence < each.first
                        <= each.last <= self.write_sequence
                }) by {
                    let each = before.model().entries[i];
                    assert(each == slots[i]);
                }
                assert forall|i: int, j: int|
                    0 <= i < j < now.len() && (#[trigger] now[i]).state == EntryState::Dirty && (
                    #[trigger] now[j]).state == EntryState::Dirty implies now[i].first
                    != now[j].first by {
                    let left = before.model().entries[i];
                    let right = before.model().entries[j];
                    assert(slots[i] == left && slots[j] == right);
                    assert(start.slots()[i] == left && start.slots()[j] == right);
                }
                assert(self.model() =~= start.model().accepted(block, data, sequence)->Some_0);
            }
            return Ok(());
        }
        match self.reusable_entry() {
            None => Err(DiskError { errno: EAGAIN }),
            Some(index) => {
                proof {
                    assert forall|i: int|
                        0 <= i < self.slots().len() && (#[trigger] self.slots()[i]).state
                            == EntryState::Dirty implies self.slots()[i].first != sequence by {
                        assert(start.slots()[i] == self.slots()[i]);
                    }
                }
                self.prepare_entry(
                    index,
                    block,
                    bytes,
                    from,
                    EntryState::Dirty,
                    sequence,
                    access,
                );
                let ghost placed = *self;
                if self.metrics.dirty_high_watermark < self.dirty_count {
                    self.metrics.dirty_high_watermark = self.dirty_count;
                }
                proof {
                    self.lemma_same_entries(placed);
                    assert(self.model() =~= start.model().accepted(block, data, sequence)->Some_0);
                }
                Ok(())
            },
        }
    }

    /// Offers a block that was read to the cache.
    fn admit_clean(&mut self, block: u64, bytes: &[u8], from: usize)
        requires
            old(self).wf(),
            from + WRITEBACK_BLOCK_SIZE <= bytes.len(),
        ensures
            final(self).wf(),
            final(self).model() == old(self).model().admitted(
                block,
                bytes@.subrange(from as int, from + WRITEBACK_BLOCK_SIZE),
            ),
    {
        if self.lookup_entry(block).is_some() {
            return;
        }
        match self.reusable_entry() {
            None => {
                self.metrics.read_cache_admission_failures =
                self.metrics.read_cache_admission_failures.saturating_add(1);
                proof {
                    self.lemma_same_entries(*old(self));
                }
            },
            Some(index) => {
                let access: u64 = self.next_access();
                assert(self.slots() =~= old(self).slots());
                self.prepare_entry(index, block, bytes, from, EntryState::Clean, 0, access);
            },
        }
    }
}

impl Cache {
    /// Begins a write: its number of blocks, if it is made of whole blocks.
    pub fn begin_write(&mut self, block: u64, byte_len: usize) -> (result: Result<usize, DiskError>)
        requires
            old(self).wf(),
        ensures
            final(self).wf(),
            result == transfer_spec(block, byte_len as int),
            final(self).model() == (if result is Ok {
                CacheModel {
                    metrics: WriteBackMetrics {
                        write_requests: counted(old(self).metrics.write_requests),
                        ..old(self).metrics
                    },
                    ..old(self).model()
                }
            } else {
                old(self).model()
            }),
    {
        match validate_transfer(block, byte_len) {
            Err(error) => Err(error),
            Ok(count) => {
                self.metrics.write_requests = self.metrics.write_requests.saturating_add(1);
                proof {
                    self.lemma_same_entries(*old(self));
                }
                Ok(count)
            },
        }
    }

    /// Counts a refused write.
    fn refuse(&mut self, pressure: bool)
        requires
            old(self).wf(),
        ensures
            final(self).wf(),
            final(self).model() == old(self).model().refused(pressure),
    {
        self.metrics.rejected_writes = self.metrics.rejected_writes.saturating_add(1);
        if pressure {
            self.metrics.backpressure_events = self.metrics.backpressure_events.saturating_add(1);
        }
        proof {
            self.lemma_same_entries(*old(self));
        }
    }

    /// Checks a write and counts the entries that it needs.
    pub fn check_write(&mut self, block: u64, count: usize) -> (result: Result<usize, DiskError>)
        requires
            old(self).wf(),
            block + count <= u64::MAX,
        ensures
            final(self).wf(),
            result == old(self).model().write_checked(block, count).1,
            final(self).model() == old(self).model().write_checked(block, count).0,
    {
        if self.quiesced || self.failure.is_some() {
            self.refuse(false);
            return Err(DiskError { errno: EROFS });
        }
        if count > self.entries.len() {
            self.refuse(true);
            return Err(DiskError { errno: ENOSPC });
        }
        if self.write_sequence > u64::MAX - count as u64 {
            return Err(DiskError { errno: EIO });
        }
        let barrier: bool = self.flush_ticket_len != 0;
        let mut new_entries: usize = 0;
        let mut offset: usize = 0;
        while offset < count
            invariant
                *self == *old(self),
                self.wf(),
                offset <= count,
                count <= self.entries@.len(),
                block + count <= u64::MAX,
                !self.model().read_only(),
                self.write_sequence + count <= u64::MAX,
                barrier == (self.model().tickets.len() > 0),
                new_entries == uncached(self.slots(), block, offset as nat),
                new_entries <= offset,
                barrier ==> forall|k: int|
                    0 <= k < offset ==> !held_for_ticket(
                        self.model(),
                        #[trigger] target_of(block, k),
                    ),
            decreases count - offset,
        {
            let target: u64 = block + offset as u64;
            assert(target == target_of(block, offset as int));
            match self.lookup_entry(target) {
                Some(index) => {
                    assert(self.slots()[index as int] == self.entries@[index as int].slot());
                    let entry: &CacheEntry = &self.entries[index];
                    if barrier && entry.state == EntryState::Dirty && entry.first_sequence
                        <= self.requested_sequence {
                        assert(held_for_ticket(self.model(), target_of(block, offset as int)));
                        self.refuse(true);
                        return Err(DiskError { errno: EAGAIN });
                    }
                },
                None => {
                    new_entries += 1;
                },
            }
            offset += 1;
        }
        Ok(new_entries)
    }

    /// Entries that can be given to other blocks without touching the range.
    pub fn reusable_count(&self, start: u64, end: u64) -> (count: usize)
        ensures
            count == free_entries(self.slots(), start as int, end as int, self.entries@.len()),
            count <= self.entries@.len(),
    {
        let mut count: usize = 0;
        let mut index: usize = 0;
        while index < self.entries.len()
            invariant
                index <= self.entries@.len(),
                count <= index,
                count == free_entries(self.slots(), start as int, end as int, index as nat),
            decreases self.entries@.len() - index,
        {
            let entry: &CacheEntry = &self.entries[index];
            assert(self.slots()[index as int] == entry.slot());
            if entry.state == EntryState::Vacant || (entry.state == EntryState::Clean && !(
            entry.block >= start && entry.block < end)) {
                count += 1;
            }
            index += 1;
        }
        count
    }

    /// Counts a writeback step that a write forces.
    pub fn begin_pressure(&mut self)
        requires
            old(self).wf(),
        ensures
            final(self).wf(),
            final(self).model() == (CacheModel {
                metrics: WriteBackMetrics {
                    pressure_writeback_steps: counted(old(self).metrics.pressure_writeback_steps),
                    ..old(self).metrics
                },
                ..old(self).model()
            }),
    {
        self.metrics.pressure_writeback_steps =
        self.metrics.pressure_writeback_steps.saturating_add(1);
        proof {
            self.lemma_same_entries(*old(self));
        }
    }

    /// Judges a forced writeback step by the entries that it freed.
    pub fn end_pressure(&mut self, before: usize, after: usize) -> (result: Result<(), DiskError>)
        requires
            old(self).wf(),
        ensures
            final(self).wf(),
            final(self).model() == old(self).model().pressed(before, after),
            result == (if after <= before {
                Err(DiskError { errno: EAGAIN })
            } else {
                Ok(())
            }),
    {
        if after <= before {
            self.refuse(true);
            let ghost refused = *self;
            self.metrics.pressure_stalls = self.metrics.pressure_stalls.saturating_add(1);
            proof {
                self.lemma_same_entries(refused);
            }
            return Err(DiskError { errno: EAGAIN });
        }
        self.metrics.pressure_entries_freed = self.metrics.pressure_entries_freed.saturating_add(
            (after - before) as u64,
        );
        proof {
            self.lemma_same_entries(*old(self));
        }
        Ok(())
    }

    /// Takes the blocks of a checked write, each under its own sequence.
    pub fn take_write(&mut self, block: u64, bytes: &[u8]) -> (result: Result<(), DiskError>)
        requires
            old(self).wf(),
            bytes@.len() % 4096 == 0,
            block + bytes@.len() / 4096 <= u64::MAX,
            old(self).write_sequence + bytes@.len() / 4096 <= u64::MAX,
        ensures
            final(self).wf(),
            ({
                let count = (bytes@.len() / 4096) as nat;
                let (after, fits) = taken(old(self).model(), block, bytes@, count);
                if fits {
                    &&& result == Ok::<(), DiskError>(())
                    &&& final(self).model() == (CacheModel {
                        metrics: WriteBackMetrics {
                            write_blocks_accepted: counted_by(
                                after.metrics.write_blocks_accepted,
                                count as int,
                            ),
                            ..after.metrics
                        },
                        ..after
                    })
                } else {
                    &&& result == Err::<(), DiskError>(DiskError { errno: EAGAIN })
                    &&& final(self).model() == after
                }
            }),
    {
        let count: usize = bytes.len() / WRITEBACK_BLOCK_SIZE;
        let mut offset: usize = 0;
        while offset < count
            invariant
                self.wf(),
                offset <= count,
                count * 4096 == bytes@.len(),
                bytes@.len() == bytes.len(),
                block + count <= u64::MAX,
                taken(old(self).model(), block, bytes@, offset as nat) == (self.model(), true),
                self.write_sequence == old(self).write_sequence + offset,
                old(self).write_sequence + count <= u64::MAX,
            decreases count - offset,
        {
            let ghost before = *self;
            self.write_sequence = self.write_sequence + 1;
            let sequence: u64 = self.write_sequence;
            proof {
                assert(self.slots() =~= before.slots());
                assert(self.model().tickets =~= before.model().tickets);
                assert forall|i: int| 0 <= i < self.slots().len() implies ({
                    let each = #[trigger] self.slots()[i];
                    &&& each.data.len() == WRITEBACK_BLOCK_SIZE
                    &&& each.used <= self.access_clock
                    &&& each.state == EntryState::Dirty ==> self.durable_sequence < each.first
                        <= each.last <= before.write_sequence
                }) by {
                    let each = before.model().entries[i];
                }
                assert(self.model() =~= (CacheModel {
                    written: (before.model().written + 1) as u64,
                    ..before.model()
                }));
                assert(bytes@.subrange(
                    offset * 4096,
                    offset * 4096 + WRITEBACK_BLOCK_SIZE,
                ) == chunk(bytes@, offset as int));
                lemma_product(offset as int, count as int);
            }
            let ghost numbered = *self;
            let from: usize = offset * WRITEBACK_BLOCK_SIZE;
            match self.accept_block(block + offset as u64, bytes, from, sequence) {
                Ok(()) => {},
                Err(error) => {
                    proof {
                        lemma_taken_stays(
                            old(self).model(),
                            block,
                            bytes@,
                            (offset + 1) as nat,
                            count as nat,
                        );
                    }
                    return Err(error);
                },
            }
            offset += 1;
            proof {
                assert(self.write_sequence == self.model().written);
                lemma_accepted_keeps_sequence(
                    numbered.model(),
                    target_of(block, offset - 1),
                    chunk(bytes@, offset - 1),
                    sequence,
                );
            }
        }
        let ghost last = *self;
        self.metrics.write_blocks_accepted = self.metrics.write_blocks_accepted.saturating_add(
            count as u64,
        );
        proof {
            self.lemma_same_entries(last);
        }
        Ok(())
    }

    /// Begins a read.
    pub fn begin_read(&mut self, block: u64, byte_len: usize) -> (result: Result<ReadJob, DiskError>)
        requires
            old(self).wf(),
        ensures
            final(self).wf(),
            match transfer_spec(block, byte_len as int) {
                Err(error) => result matches Err(found) && found == error && final(self).model()
                    == old(self).model(),
                Ok(count) => {
                    &&& result matches Ok(job)
                    &&& job.wf()
                    &&& job.block == block
                    &&& job.count == count
                    &&& job.offset == 0
                    &&& final(self).model() == (CacheModel {
                        metrics: WriteBackMetrics {
                            read_requests: counted(old(self).metrics.read_requests),
                            read_blocks: counted_by(old(self).metrics.read_blocks, count as int),
                            ..old(self).metrics
                        },
                        ..old(self).model()
                    })
                },
            },
    {
        match validate_transfer(block, byte_len) {
            Err(error) => Err(error),
            Ok(count) => {
                self.metrics.read_requests = self.metrics.read_requests.saturating_add(1);
                self.metrics.read_blocks = self.metrics.read_blocks.saturating_add(count as u64);
                proof {
                    self.lemma_same_entries(*old(self));
                }
                Ok(ReadJob { block, count, offset: 0, output: Vec::new() })
            },
        }
    }

    /// Serves what is cached, until a block is not.
    ///
    /// Returns the number of consecutive blocks that are to be read from the backing
    /// disk next, zero once the read is complete.
    pub fn continue_read(&mut self, job: &mut ReadJob) -> (missing: usize)
        requires
            old(self).wf(),
            old(job).wf(),
        ensures
            final(self).wf(),
            final(job).wf(),
            final(job).block == old(job).block,
            final(job).count == old(job).count,
            ({
                let (after, offset, output) = served(
                    old(self).model(),
                    old(job).block,
                    old(job).offset as int,
                    old(job).count as int,
                    old(job).output@,
                );
                &&& final(job).offset == offset
                &&& final(job).output@ == output
                &&& missing == miss_run(
                    after.entries,
                    old(job).block,
                    offset,
                    old(job).count as int,
                )
                &&& missing == 0 <==> offset == old(job).count
                &&& offset + missing <= old(job).count
                &&& final(self).model() == (if missing == 0 {
                    after
                } else {
                    CacheModel {
                        metrics: WriteBackMetrics {
                            read_misses: counted_by(after.metrics.read_misses, missing as int),
                            underlying_reads: counted(after.metrics.underlying_reads),
                            ..after.metrics
                        },
                        ..after
                    }
                })
            }),
    {
        let ghost goal = served(
            old(self).model(),
            old(job).block,
            old(job).offset as int,
            old(job).count as int,
            old(job).output@,
        );
        let mut searching: bool = true;
        while searching && job.offset < job.count
            invariant
                self.wf(),
                job.wf(),
                job.block == old(job).block,
                job.count == old(job).count,
                searching ==> goal == served(
                    self.model(),
                    job.block,
                    job.offset as int,
                    job.count as int,
                    job.output@,
                ),
                !searching ==> goal == (self.model(), job.offset as int, job.output@)
                    && job.offset < job.count && find(
                    self.slots(),
                    target_of(job.block, job.offset as int),
                ) is None,
            decreases job.count - job.offset, if searching {
                1int
            } else {
                0
            },
        {
            let target: u64 = job.block + job.offset as u64;
            match self.lookup_entry(target) {
                None => {
                    searching = false;
                },
                Some(index) => {
                    let ghost before = *self;
                    let access: u64 = self.next_access();
                    let ghost now = *self;
                    let ghost slots = self.slots();
                    assert(slots =~= before.slots());
                    assert(slots[index as int] == self.entries@[index as int].slot());
                    let dirty: bool = self.entries[index].state == EntryState::Dirty;
                    let mut data: Vec<u8> = copy_bytes(
                        self.entries[index].data.as_slice(),
                        0,
                        self.entries[index].data.len(),
                    );
                    assert(data@ =~= slots[index as int].data);
                    job.output.append(&mut data);
                    self.entries[index].last_used = access;
                    self.metrics.read_hits = self.metrics.read_hits.saturating_add(1);
                    if dirty {
                        self.metrics.dirty_read_hits =
                        self.metrics.dirty_read_hits.saturating_add(1);
                    } else {
                        self.metrics.clean_read_hits =
                        self.metrics.clean_read_hits.saturating_add(1);
                    }
                    job.offset = job.offset + 1;
                    proof {
                        assert(self.slots() =~= slots.update(
                            index as int,
                            Slot { used: now.access_clock, ..slots[index as int] },
                        ));
                        lemma_used(now, *self, index as int);
                        assert(self.model() =~= before.model().hit(index as int));
                    }
                },
            }
        }
        let mut missing: usize = 0;
        if job.offset < job.count {
            let ghost slots = self.slots();
            while job.offset + missing < job.count && self.lookup_entry(
                job.block + (job.offset + missing) as u64,
            ).is_none()
                invariant
                    self.wf(),
                    job.wf(),
                    slots == self.slots(),
                    job.offset + missing <= job.count,
                    miss_run(slots, job.block, job.offset as int, job.count as int) == missing
                        + miss_run(
                        slots,
                        job.block,
                        job.offset + missing,
                        job.count as int,
                    ),
                decreases job.count - job.offset - missing,
            {
                missing += 1;
            }
            let ghost before = *self;
            self.metrics.read_misses = self.metrics.read_misses.saturating_add(missing as u64);
            self.metrics.underlying_reads = self.metrics.underlying_reads.saturating_add(1);
            proof {
                self.lemma_same_entries(before);
            }
        }
        missing
    }

    /// Blocks that a single miss reads: the window ahead, as far as disk and cache go.
    pub fn window(&self, job: &ReadJob, backing_bytes: u64) -> (blocks: usize)
        requires
            self.wf(),
            job.wf(),
        ensures
            blocks == window_spec(
                self.entries@.len() as int,
                job.block + job.offset,
                backing_bytes as int,
            ),
            blocks <= READ_AHEAD_BLOCKS,
            job.block + job.offset + blocks <= u64::MAX,
    {
        let backing_blocks: u64 = backing_bytes / 4096;
        let target: u64 = job.block + job.offset as u64;
        let ahead: u64 = backing_blocks.saturating_sub(target);
        let limit: usize = if self.entries.len() < READ_AHEAD_BLOCKS {
            self.entries.len()
        } else {
            READ_AHEAD_BLOCKS
        };
        if ahead < limit as u64 {
            ahead as usize
        } else {
            limit
        }
    }

    /// Counts a failed read.
    pub fn fail_read(&mut self)
        requires
            old(self).wf(),
        ensures
            final(self).wf(),
            final(self).model() == old(self).model().read_failed(),
    {
        self.metrics.read_errors = self.metrics.read_errors.saturating_add(1);
        proof {
            self.lemma_same_entries(*old(self));
        }
    }

    /// Takes the blocks that were read for a run of misses.
    pub fn supply_run(&mut self, job: &mut ReadJob, missing: usize, outcome: Result<Vec<u8>, i32>) -> (result:
        Result<(), DiskError>)
        requires
            old(self).wf(),
            old(job).wf(),
            old(job).offset + missing <= old(job).count,
        ensures
            final(self).wf(),
            final(job).wf(),
            final(job).block == old(job).block,
            final(job).count == old(job).count,
            match outcome {
                Ok(bytes) => if bytes@.len() == missing * 4096 {
                    &&& result == Ok::<(), DiskError>(())
                    &&& final(job).offset == old(job).offset + missing
                    &&& final(job).output@ == old(job).output@ + bytes@
                    &&& final(self).model() == admitted_first(
                        old(self).model(),
                        target_of(old(job).block, old(job).offset as int),
                        bytes@,
                        missing as nat,
                    )
                } else {
                    &&& result == Err::<(), DiskError>(DiskError { errno: EIO })
                    &&& final(job).offset == old(job).offset
                    &&& final(job).output@ == old(job).output@
                    &&& final(self).model() == old(self).model().read_failed()
                },
                Err(errno) => {
                    &&& result == Err::<(), DiskError>(DiskError { errno })
                    &&& final(job).offset == old(job).offset
                    &&& final(job).output@ == old(job).output@
                    &&& final(self).model() == old(self).model().read_failed()
                },
            },
    {
        proof {
            lemma_product(missing as int, old(job).count as int);
        }
        let expected: usize = missing * WRITEBACK_BLOCK_SIZE;
        match outcome {
            Err(errno) => {
                self.fail_read();
                Err(DiskError { errno })
            },
            Ok(bytes) => {
                if bytes.len() != expected {
                    self.fail_read();
                    return Err(DiskError { errno: EIO });
                }
                let first: u64 = job.block + job.offset as u64;
                let mut index: usize = 0;
                while index < missing
                    invariant
                        self.wf(),
                        index <= missing,
                        bytes@.len() == missing * 4096,
                        bytes@.len() == bytes.len(),
                        first + missing <= u64::MAX,
                        self.model() == admitted_first(
                            old(self).model(),
                            first,
                            bytes@,
                            index as nat,
                        ),
                    decreases missing - index,
                {
                    proof {
                        lemma_product(index as int, missing as int);
                        assert(bytes@.subrange(
                            index * 4096,
                            index * 4096 + WRITEBACK_BLOCK_SIZE,
                        ) == chunk(bytes@, index as int));
                    }
                    self.admit_clean(
                        first + index as u64,
                        bytes.as_slice(),
                        index * WRITEBACK_BLOCK_SIZE,
                    );
                    index += 1;
                }
                let mut bytes = bytes;
                job.output.append(&mut bytes);
                job.offset = job.offset + missing;
                Ok(())
            },
        }
    }

    /// Takes the window that was read for a single miss.
    ///
    /// The blocks ahead are offered to the cache first, then the one that was asked for.
    pub fn supply_window(&mut self, job: &mut ReadJob, blocks: usize, outcome: Result<Vec<u8>, i32>) -> (result:
        Result<(), DiskError>)
        requires
            old(self).wf(),
            old(job).wf(),
            old(job).offset < old(job).count,
            1 < blocks <= READ_AHEAD_BLOCKS,
            old(job).block + old(job).offset + blocks <= u64::MAX,
        ensures
            final(self).wf(),
            final(job).wf(),
            final(job).block == old(job).block,
            final(job).count == old(job).count,
            match outcome {
                Ok(bytes) => if bytes@.len() == blocks * 4096 {
                    let first = target_of(old(job).block, old(job).offset as int);
                    let ahead = admitted_ahead(old(self).model(), first, bytes@, blocks as nat);
                    let after = ahead.admitted(first, chunk(bytes@, 0));
                    &&& result == Ok::<(), DiskError>(())
                    &&& final(job).offset == old(job).offset + 1
                    &&& final(job).output@ == old(job).output@ + chunk(bytes@, 0)
                    &&& final(self).model() == (CacheModel {
                        metrics: WriteBackMetrics {
                            read_ahead_requests: counted(after.metrics.read_ahead_requests),
                            read_ahead_blocks: counted_by(
                                after.metrics.read_ahead_blocks,
                                blocks as int,
                            ),
                            ..after.metrics
                        },
                        ..after
                    })
                } else {
                    &&& result == Err::<(), DiskError>(DiskError { errno: EIO })
                    &&& final(job).offset == old(job).offset
                    &&& final(job).output@ == old(job).output@
                    &&& final(self).model() == old(self).model().read_failed()
                },
                Err(errno) => {
                    &&& result == Err::<(), DiskError>(DiskError { errno })
                    &&& final(job).offset == old(job).offset
                    &&& final(job).output@ == old(job).output@
                    &&& final(self).model() == old(self).model().read_failed()
                },
            },
    {
        let expected: usize = blocks * WRITEBACK_BLOCK_SIZE;
        match outcome {
            Err(errno) => {
                self.fail_read();
                Err(DiskError { errno })
            },
            Ok(bytes) => {
                if bytes.len() != expected {
                    self.fail_read();
                    return Err(DiskError { errno: EIO });
                }
                let first: u64 = job.block + job.offset as u64;
                let mut ahead: usize = 1;
                while ahead < blocks
                    invariant
                        self.wf(),
                        1 <= ahead <= blocks <= READ_AHEAD_BLOCKS,
                        bytes@.len() == blocks * 4096,
                        bytes@.len() == bytes.len(),
                        first + blocks <= u64::MAX,
                        self.model() == admitted_ahead(
                            old(self).model(),
                            first,
                            bytes@,
                            ahead as nat,
                        ),
                    decreases blocks - ahead,
                {
                    assert(bytes@.subrange(
                        ahead * 4096,
                        ahead * 4096 + WRITEBACK_BLOCK_SIZE,
                    ) == chunk(bytes@, ahead as int));
                    self.admit_clean(
                        first + ahead as u64,
                        bytes.as_slice(),
                        ahead * WRITEBACK_BLOCK_SIZE,
                    );
                    ahead += 1;
                }
                assert(bytes@.subrange(0, WRITEBACK_BLOCK_SIZE as int) == chunk(bytes@, 0));
                self.admit_clean(first, bytes.as_slice(), 0);
                let ghost last = *self;
                self.metrics.read_ahead_requests =
                self.metrics.read_ahead_requests.saturating_add(1);
                self.metrics.read_ahead_blocks = self.metrics.read_ahead_blocks.saturating_add(
                    blocks as u64,
                );
                proof {
                    self.lemma_same_entries(last);
                }
                let mut data: Vec<u8> = copy_bytes(bytes.as_slice(), 0, WRITEBACK_BLOCK_SIZE);
                job.output.append(&mut data);
                job.offset = job.offset + 1;
                Ok(())
            },
        }
    }
}

/// Blocks that a single miss reads.
pub open spec fn window_spec(entries: int, target: int, backing_bytes: int) -> int {
    let ahead = if backing_bytes / 4096 > target {
        backing_bytes / 4096 - target
    } else {
        0
    };
    let limit = if entries < READ_AHEAD_BLOCKS {
        entries
    } else {
        READ_AHEAD_BLOCKS as int
    };
    if ahead < limit {
        ahead
    } else {
        limit
    }
}

/// Block offsets keep their order in bytes.
proof fn lemma_product(small: int, large: int)
    ensures
        0 <= small <= large ==> small * 4096 <= large * 4096,
        0 <= small < large ==> small * 4096 + 4096 <= large * 4096,
{
}

/// Noting when an entry was used keeps a cache in order.
proof fn lemma_used(before: Cache, after: Cache, at: int)
    requires
        before.wf(),
        0 <= at < before.entries@.len(),
        after.slots() == before.slots().update(
            at,
            Slot { used: before.access_clock, ..before.slots()[at] },
        ),
        after.entries@.len() == before.entries@.len(),
        after == (Cache { entries: after.entries, metrics: after.metrics, ..before }),
    ensures
        after.wf(),
        after.model().tickets == before.model().tickets,
{
    let entries = before.slots();
    let now = after.slots();
    lemma_same_blocks(entries, now);
    lemma_state_update(
        entries,
        EntryState::Dirty,
        entries.len(),
        at,
        Slot { used: before.access_clock, ..entries[at] },
    );
    assert forall|block: u64| match #[trigger] after.lookup.entry_of(block) {
        Some(entry) => find(now, block) == Some(entry as int),
        None => find(now, block) is None,
    } by {
        assert(find(now, block) == find(entries, block));
        let entry = before.lookup.entry_of(block);
    }
    assert(after.model().tickets =~= before.model().tickets);
    assert forall|i: int| 0 <= i < now.len() implies ({
        let slot = #[trigger] now[i];
        &&& slot.data.len() == WRITEBACK_BLOCK_SIZE
        &&& slot.used <= after.access_clock
        &&& slot.state == EntryState::Dirty ==> after.durable_sequence < slot.first <= slot.last
            <= after.write_sequence
    }) by {
        let slot = before.model().entries[i];
    }
    assert forall|i: int, j: int|
        0 <= i < j < now.len() && (#[trigger] now[i]).state == EntryState::Dirty && (
        #[trigger] now[j]).state == EntryState::Dirty implies now[i].first != now[j].first by {
        assert(before.model().entries[i].first != before.model().entries[j].first);
    }
}

/// A write that found no entry stays refused.
proof fn lemma_taken_stays(model: CacheModel, block: u64, bytes: Seq<u8>, short: nat, long: nat)
    requires
        short <= long,
        !taken(model, block, bytes, short).1,
    ensures
        taken(model, block, bytes, long) == taken(model, block, bytes, short),
    decreases long,
{
    if short < long {
        lemma_taken_stays(model, block, bytes, short, (long - 1) as nat);
    }
}

/// Taking a block leaves the sequence as it is.
proof fn lemma_accepted_keeps_sequence(
    model: CacheModel,
    block: u64,
    data: Seq<u8>,
    sequence: u64,
)
    ensures
        model.accepted(block, data, sequence) matches Some(after) ==> after.written
            == model.written,
{
}

} // verus!
