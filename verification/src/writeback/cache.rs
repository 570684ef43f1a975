//! The cache itself: entries, sequences and flush tickets.
use vstd::prelude::*;

use crate::storage::reserve_exact;

use super::lookup::LookupTable;
use super::model::{
    caches, counted, dirty_entries, extend_run, find, lemma_next_dirty, lemma_state_bounds,
    next_dirty, no_metrics, resident_entries, run_bytes, CacheModel, Decision, DiskError,
    EntryState, Slot, WriteBackConfigError, WriteBackFailure, WriteBackMetrics, EINVAL,
    MAX_WRITEBACK_BATCH_BLOCKS, WRITEBACK_BLOCK_SIZE,
};

verus! {

/// An entry of the cache.
#[derive(Debug)]
pub struct CacheEntry {
    pub block: u64,
    pub data: Vec<u8>,
    pub state: EntryState,
    pub first_sequence: u64,
    pub last_sequence: u64,
    pub last_used: u64,
}

impl CacheEntry {
    /// What this entry holds.
    pub open spec fn slot(&self) -> Slot {
        Slot {
            block: self.block,
            data: self.data@,
            state: self.state,
            first: self.first_sequence,
            last: self.last_sequence,
            used: self.last_used,
        }
    }
}

/// A write-back cache.
pub struct Cache {
    pub entries: Vec<CacheEntry>,
    pub lookup: LookupTable,
    pub flush_tickets: Vec<u64>,
    pub flush_ticket_head: usize,
    pub flush_ticket_len: usize,
    pub resident_count: usize,
    pub dirty_count: usize,
    pub writeback_batch_blocks: usize,
    pub access_clock: u64,
    pub write_sequence: u64,
    pub requested_sequence: u64,
    pub durable_sequence: u64,
    pub async_writeback_enabled: bool,
    pub quiesced: bool,
    pub failure: Option<WriteBackFailure>,
    pub metrics: WriteBackMetrics,
}

/// The place `offset` places after `head` in a ring of `size`.
pub open spec fn ring(head: int, offset: int, size: int) -> int {
    if head + offset < size {
        head + offset
    } else {
        head + offset - size
    }
}

/// A power of two.
pub open spec fn power_of_two(value: int) -> bool {
    exists|k: nat| value == #[trigger] vstd::arithmetic::power2::pow2(k)
}

/// The smallest power of two that is not below `value`, if it is representable.
fn next_power_of_two(value: usize) -> (result: Option<usize>)
    ensures
        match result {
            Some(power) => power_of_two(power as int) && power >= value && (power == 1 || power / 2
                < value),
            None => value > usize::MAX / 2,
        },
{
    let mut power: usize = 1;
    let ghost mut k: nat = 0;
    proof {
        vstd::arithmetic::power2::lemma2_to64();
    }
    while power < value
        invariant
            power == vstd::arithmetic::power2::pow2(k),
            power >= 1,
            power == 1 || power / 2 < value,
        decreases usize::MAX - power,
    {
        if power > usize::MAX / 2 {
            return None;
        }
        proof {
            vstd::arithmetic::power2::lemma_pow2_unfold(k + 1);
            k = k + 1;
        }
        power = power * 2;
    }
    Some(power)
}

/// Copies a block of bytes.
pub(crate) fn copy_bytes(bytes: &[u8], from: usize, to: usize) -> (copy: Vec<u8>)
    requires
        from <= to <= bytes@.len(),
    ensures
        copy@ == bytes@.subrange(from as int, to as int),
{
    let mut copy: Vec<u8> = Vec::new();
    let mut index: usize = from;
    while index < to
        invariant
            from <= index <= to <= bytes@.len(),
            copy@ == bytes@.subrange(from as int, index as int),
        decreases to - index,
    {
        copy.push(bytes[index]);
        index += 1;
        assert(copy@ =~= bytes@.subrange(from as int, index as int));
    }
    copy
}

/// Overwrites a block of bytes in place.
pub(crate) fn fill_block(data: &mut Vec<u8>, bytes: &[u8], from: usize)
    requires
        old(data)@.len() == WRITEBACK_BLOCK_SIZE,
        from + WRITEBACK_BLOCK_SIZE <= bytes.len(),
    ensures
        final(data)@ == bytes@.subrange(from as int, from + WRITEBACK_BLOCK_SIZE),
{
    let mut index: usize = 0;
    while index < WRITEBACK_BLOCK_SIZE
        invariant
            index <= WRITEBACK_BLOCK_SIZE,
            data@.len() == WRITEBACK_BLOCK_SIZE,
            from + WRITEBACK_BLOCK_SIZE <= bytes.len(),
            forall|i: int| 0 <= i < index ==> #[trigger] data@[i] == bytes@[from + i],
        decreases WRITEBACK_BLOCK_SIZE - index,
    {
        data[index] = bytes[from + index];
        index += 1;
    }
    assert(data@ =~= bytes@.subrange(from as int, from + WRITEBACK_BLOCK_SIZE));
}

/// What a writeback step is to do.
#[derive(Debug)]
pub enum WritebackAction {
    Failed(i32),
    Idle,
    Flush(u64),
    /// Write these bytes from this block on; the entries are those of the run.
    Write { block: u64, bytes: Vec<u8>, run: Vec<usize> },
}

/// Blocks of a transfer, or why it is refused.
pub open spec fn transfer_spec(block: u64, byte_len: int) -> Result<usize, DiskError> {
    if byte_len % 4096 != 0 || block + byte_len / 4096 > u64::MAX {
        Err(DiskError { errno: EINVAL })
    } else {
        Ok((byte_len / 4096) as usize)
    }
}

/// Checks that a transfer is made of whole blocks within the address space.
pub fn validate_transfer(block: u64, byte_len: usize) -> (result: Result<usize, DiskError>)
    ensures
        result == transfer_spec(block, byte_len as int),
{
    if byte_len % WRITEBACK_BLOCK_SIZE != 0 {
        return Err(DiskError { errno: EINVAL });
    }
    let blocks: usize = byte_len / WRITEBACK_BLOCK_SIZE;
    if blocks as u64 > u64::MAX - block {
        return Err(DiskError { errno: EINVAL });
    }
    Ok(blocks)
}

/// Indices as numbers.
pub open spec fn indices(run: Seq<usize>) -> Seq<int> {
    Seq::new(run.len(), |i: int| run[i] as int)
}

impl Cache {
    /// What this cache holds.
    pub open spec fn model(&self) -> CacheModel {
        CacheModel {
            entries: self.slots(),
            lookup: self.lookup.slots@,
            tickets: Seq::new(
                self.flush_ticket_len as nat,
                |i: int|
                    self.flush_tickets@[ring(
                        self.flush_ticket_head as int,
                        i,
                        self.flush_tickets@.len() as int,
                    )],
            ),
            ticket_slots: self.flush_tickets@.len(),
            batch: self.writeback_batch_blocks as nat,
            clock: self.access_clock,
            written: self.write_sequence,
            requested: self.requested_sequence,
            durable: self.durable_sequence,
            background: self.async_writeback_enabled,
            quiesced: self.quiesced,
            failure: self.failure,
            metrics: self.metrics,
        }
    }

    /// The entries.
    pub open spec fn slots(&self) -> Seq<Slot> {
        Seq::new(self.entries@.len(), |i: int| self.entries@[i].slot())
    }

    /// Entries and lookup table agree.
    pub open spec fn indexed(&self) -> bool {
        let entries = self.slots();
        &&& self.lookup.wf()
        &&& self.lookup.slots@.len() >= 2 * entries.len()
        &&& self.lookup.len() == resident_entries(entries)
        &&& forall|block: u64|
            match #[trigger] self.lookup.entry_of(block) {
                Some(entry) => find(entries, block) == Some(entry as int),
                None => find(entries, block) is None,
            }
    }

    /// The cache is consistent.
    pub open spec fn wf(&self) -> bool {
        &&& self.entries@.len() > 0
        &&& self.indexed()
        &&& self.resident_count == resident_entries(self.slots())
        &&& self.dirty_count == dirty_entries(self.slots())
        &&& self.flush_tickets@.len() == self.entries@.len() + 1
        &&& self.flush_ticket_head < self.flush_tickets@.len()
        &&& self.flush_ticket_len <= self.flush_tickets@.len()
        &&& 1 <= self.writeback_batch_blocks <= MAX_WRITEBACK_BATCH_BLOCKS
        &&& self.model().ordered()
    }

    /// Makes a cache with `entry_count` entries and a lookup table that is at most half full.
    pub fn try_new(entry_count: usize, writeback_batch_blocks: usize) -> (result: Result<
        Self,
        WriteBackConfigError,
    >)
        ensures
            match result {
                Ok(cache) => {
                    &&& entry_count > 0
                    &&& 1 <= writeback_batch_blocks <= MAX_WRITEBACK_BATCH_BLOCKS
                    &&& cache.wf()
                    &&& cache.entries@.len() == entry_count
                    &&& cache.writeback_batch_blocks == writeback_batch_blocks
                    &&& power_of_two(cache.lookup.slots@.len() as int)
                    &&& cache.lookup.slots@.len() / 2 < 2 * entry_count
                    &&& cache.lookup.tombstones == 0
                    &&& resident_entries(cache.slots()) == 0
                    &&& cache.model().tickets.len() == 0
                    &&& cache.write_sequence == 0
                    &&& cache.requested_sequence == 0
                    &&& cache.durable_sequence == 0
                    &&& cache.access_clock == 0
                    &&& !cache.async_writeback_enabled
                    &&& !cache.quiesced
                    &&& cache.failure is None
                    &&& cache.metrics == no_metrics()
                },
                Err(error) => if entry_count == 0 {
                    error == WriteBackConfigError::ZeroCapacity
                } else if writeback_batch_blocks == 0 || writeback_batch_blocks
                    > MAX_WRITEBACK_BATCH_BLOCKS {
                    error == WriteBackConfigError::InvalidWritebackBatch
                } else {
                    ||| error == WriteBackConfigError::CapacityOverflow && entry_count
                        > usize::MAX / 4
                    ||| error == WriteBackConfigError::AllocationFailed
                },
            },
    {
        if entry_count == 0 {
            return Err(WriteBackConfigError::ZeroCapacity);
        }
        if writeback_batch_blocks == 0 || writeback_batch_blocks > MAX_WRITEBACK_BATCH_BLOCKS {
            return Err(WriteBackConfigError::InvalidWritebackBatch);
        }
        if entry_count > usize::MAX / 2 {
            return Err(WriteBackConfigError::CapacityOverflow);
        }
        let lookup_count: usize = match next_power_of_two(entry_count * 2) {
            Some(count) => count,
            None => {
                return Err(WriteBackConfigError::CapacityOverflow);
            },
        };
        let flush_ticket_count: usize = entry_count + 1;
        let mut entries: Vec<CacheEntry> = Vec::new();
        if !reserve_exact(&mut entries, entry_count) {
            return Err(WriteBackConfigError::AllocationFailed);
        }
        let mut index: usize = 0;
        while index < entry_count
            invariant
                index <= entry_count,
                entries@.len() == index,
                forall|i: int|
                    0 <= i < index ==> (#[trigger] entries@[i]).state == EntryState::Vacant
                        && entries@[i].data@.len() == WRITEBACK_BLOCK_SIZE && entries@[i].last_used
                        == 0,
            decreases entry_count - index,
        {
            let mut data: Vec<u8> = Vec::new();
            data.resize(WRITEBACK_BLOCK_SIZE, 0);
            entries.push(
                CacheEntry {
                    block: 0,
                    data,
                    state: EntryState::Vacant,
                    first_sequence: 0,
                    last_sequence: 0,
                    last_used: 0,
                },
            );
            index += 1;
        }
        let lookup: LookupTable = match LookupTable::try_new(lookup_count) {
            Some(table) => table,
            None => {
                return Err(WriteBackConfigError::AllocationFailed);
            },
        };
        let mut flush_tickets: Vec<u64> = Vec::new();
        if !reserve_exact(&mut flush_tickets, flush_ticket_count) {
            return Err(WriteBackConfigError::AllocationFailed);
        }
        flush_tickets.resize(flush_ticket_count, 0);
        let cache = Cache {
            entries,
            lookup,
            flush_tickets,
            flush_ticket_head: 0,
            flush_ticket_len: 0,
            resident_count: 0,
            dirty_count: 0,
            writeback_batch_blocks,
            access_clock: 0,
            write_sequence: 0,
            requested_sequence: 0,
            durable_sequence: 0,
            async_writeback_enabled: false,
            quiesced: false,
            failure: None,
            metrics: WriteBackMetrics::default(),
        };
        proof {
            let slots = cache.slots();
            assert forall|i: int| 0 <= i < slots.len() implies (#[trigger] slots[i]).state
                == EntryState::Vacant by {
                assert(cache.entries@[i].state == EntryState::Vacant);
            }
            lemma_state_bounds(slots, EntryState::Vacant, slots.len());
            lemma_state_bounds(slots, EntryState::Dirty, slots.len());
            assert forall|block: u64, at: int| !caches(slots, block, at) by {}
            assert forall|i: int| 0 <= i < slots.len() implies ({
                let slot = #[trigger] slots[i];
                &&& slot.data.len() == WRITEBACK_BLOCK_SIZE
                &&& slot.used <= 0
                &&& slot.state != EntryState::Dirty
            }) by {
                assert(cache.entries@[i].state == EntryState::Vacant);
            }
        }
        Ok(cache)
    }

    /// The entry that holds a block.
    pub fn lookup_entry(&self, block: u64) -> (entry: Option<usize>)
        requires
            self.wf(),
        ensures
            match find(self.slots(), block) {
                Some(at) => entry matches Some(found) && found == at && caches(
                    self.slots(),
                    block,
                    at,
                ),
                None => entry is None,
            },
    {
        let entry: Option<usize> = self.lookup.get(block);
        proof {
            if exists|at: int| caches(self.slots(), block, at) {
                let at = choose|at: int| caches(self.slots(), block, at);
                assert(caches(self.slots(), block, at));
            }
        }
        entry
    }

    /// The oldest outstanding ticket.
    fn current_flush_ticket(&self) -> (ticket: Option<u64>)
        requires
            self.wf(),
        ensures
            ticket == self.model().ticket(),
    {
        if self.flush_ticket_len != 0 {
            Some(self.flush_tickets[self.flush_ticket_head])
        } else {
            None
        }
    }

    /// The dirty entry with the lowest sequence above a bound.
    fn next_dirty_above(&self, above: u64) -> (entry: Option<usize>)
        ensures
            match next_dirty(self.slots(), above as int, self.entries@.len()) {
                Some(at) => entry matches Some(found) && found == at && at < self.entries@.len(),
                None => entry is None,
            },
    {
        let mut selected: Option<usize> = None;
        let mut index: usize = 0;
        while index < self.entries.len()
            invariant
                index <= self.entries@.len(),
                match next_dirty(self.slots(), above as int, index as nat) {
                    Some(at) => selected matches Some(found) && found == at && 0 <= at < index,
                    None => selected is None,
                },
            decreases self.entries@.len() - index,
        {
            let entry: &CacheEntry = &self.entries[index];
            assert(self.slots()[index as int] == entry.slot());
            if entry.state == EntryState::Dirty && entry.first_sequence > above {
                match selected {
                    Some(at) => {
                        assert(self.slots()[at as int] == self.entries@[at as int].slot());
                        if entry.first_sequence < self.entries[at].first_sequence {
                            selected = Some(index);
                        }
                    },
                    None => {
                        selected = Some(index);
                    },
                }
            }
            index += 1;
        }
        selected
    }

    /// Begins a writeback step: says what the backing disk is to do.
    pub fn begin_step(&mut self) -> (action: WritebackAction)
        requires
            old(self).wf(),
        ensures
            final(self).wf(),
            final(self).model() == (CacheModel {
                metrics: WriteBackMetrics {
                    writeback_steps: counted(old(self).metrics.writeback_steps),
                    ..old(self).metrics
                },
                ..old(self).model()
            }),
            match old(self).model().decision() {
                Decision::Failed(errno) => action == WritebackAction::Failed(errno),
                Decision::Idle => action == WritebackAction::Idle,
                Decision::Flush(ticket) => action == WritebackAction::Flush(ticket),
                Decision::Write(expected) => action matches WritebackAction::Write {
                    block,
                    bytes,
                    run,
                } && indices(run@) == expected && run@.len() > 0 && block == old(
                    self,
                ).slots()[expected[0]].block && bytes@ == run_bytes(
                    old(self).slots(),
                    expected,
                    expected.len(),
                ) && valid_run(old(self).slots(), expected) && expected.len() <= old(
                    self,
                ).writeback_batch_blocks,
            },
    {
        self.metrics.writeback_steps = self.metrics.writeback_steps.saturating_add(1);
        proof {
            self.lemma_same_entries(*old(self));
        }
        if let Some(failure) = self.failure {
            return WritebackAction::Failed(failure.errno);
        }
        let dirty: Option<usize> = self.next_dirty_above(0);
        proof {
            lemma_next_dirty(self.slots(), 0, self.entries@.len());
            assert(self.slots().len() == self.entries@.len());
            assert(self.model().entries == old(self).model().entries);
            if let Some(at) = dirty {
                assert(self.slots()[at as int] == self.entries@[at as int].slot());
            }
        }
        let ticket: Option<u64> = self.current_flush_ticket();
        if let Some(ticket) = ticket {
            let ready: bool = match dirty {
                Some(at) => self.entries[at].first_sequence > ticket,
                None => true,
            };
            if ready {
                return WritebackAction::Flush(ticket);
            }
        }
        let first: usize = match dirty {
            Some(at) => at,
            None => {
                return WritebackAction::Idle;
            },
        };
        let mut run: Vec<usize> = Vec::new();
        run.push(first);
        let mut bytes: Vec<u8> = copy_bytes(
            self.entries[first].data.as_slice(),
            0,
            self.entries[first].data.len(),
        );
        let ghost slots = self.slots();
        let ghost start = seq![first as int];
        let ghost limit = self.writeback_batch_blocks as nat;
        proof {
            assert(slots[first as int] == self.entries@[first as int].slot());
            assert(indices(run@) =~= start);
            assert(bytes@ =~= slots[first as int].data);
            assert(run_bytes(slots, start, 0) =~= Seq::<u8>::empty());
            assert(run_bytes(slots, start, 1) =~= slots[first as int].data);
            assert(valid_run(slots, start));
        }
        let mut more: bool = true;
        while more && run.len() < self.writeback_batch_blocks
            invariant
                self.wf(),
                slots == self.slots(),
                limit == self.writeback_batch_blocks,
                ticket == self.model().ticket(),
                run@.len() > 0,
                run@.len() <= limit,
                run@[0] == first,
                valid_run(slots, indices(run@)),
                bytes@ == run_bytes(slots, indices(run@), run@.len()),
                more ==> extend_run(slots, indices(run@), ticket, limit) == extend_run(
                    slots,
                    start,
                    ticket,
                    limit,
                ),
                !more ==> indices(run@) == extend_run(slots, start, ticket, limit),
            decreases limit - run@.len(), if more {
                1int
            } else {
                0
            },
        {
            let previous: usize = run[run.len() - 1];
            assert(indices(run@).last() == previous);
            let previous_first: u64 = self.entries[previous].first_sequence;
            let previous_block: u64 = self.entries[previous].block;
            assert(slots[previous as int] == self.entries@[previous as int].slot());
            proof {
                lemma_next_dirty(slots, previous_first as int, slots.len());
            }
            match self.next_dirty_above(previous_first) {
                None => {
                    more = false;
                },
                Some(at) => {
                    assert(slots[at as int] == self.entries@[at as int].slot());
                    assert(slots[at as int].state == EntryState::Dirty);
                    let beyond: bool = match ticket {
                        Some(ticket) => self.entries[at].first_sequence > ticket,
                        None => false,
                    };
                    if self.entries[at].block != previous_block.saturating_add(1) || beyond {
                        more = false;
                    } else {
                        let ghost before = run@;
                        let mut data: Vec<u8> = copy_bytes(
                            self.entries[at].data.as_slice(),
                            0,
                            self.entries[at].data.len(),
                        );
                        proof {
                            assert(data@ =~= slots[at as int].data);
                        }
                        bytes.append(&mut data);
                        run.push(at);
                        proof {
                            assert(indices(run@) =~= indices(before).push(at as int));
                            lemma_run_bytes_prefix(
                                slots,
                                indices(before),
                                indices(run@),
                                before.len(),
                            );
                            lemma_run_grows(slots, indices(before), at as int);
                        }
                    }
                },
            }
        }
        let block: u64 = self.entries[first].block;
        assert(slots[first as int] == self.entries@[first as int].slot());
        assert(indices(run@)[0] == first);
        WritebackAction::Write { block, bytes, run }
    }

    /// Entries and lookup table are untouched.
    pub(crate) proof fn lemma_same_entries(&self, before: Cache)
        requires
            before.wf(),
            self.entries == before.entries,
            self.lookup == before.lookup,
            self.flush_tickets == before.flush_tickets,
            self.flush_ticket_head == before.flush_ticket_head,
            self.flush_ticket_len == before.flush_ticket_len,
            self.resident_count == before.resident_count,
            self.dirty_count == before.dirty_count,
            self.writeback_batch_blocks == before.writeback_batch_blocks,
            self.access_clock >= before.access_clock,
            self.write_sequence == before.write_sequence,
            self.requested_sequence == before.requested_sequence,
            self.durable_sequence == before.durable_sequence,
        ensures
            self.wf(),
            self.slots() == before.slots(),
            self.model().tickets == before.model().tickets,
    {
        assert(self.slots() =~= before.slots());
        assert(self.model().tickets =~= before.model().tickets);
    }
}

/// A run of different dirty entries with rising sequences.
pub open spec fn valid_run(entries: Seq<Slot>, run: Seq<int>) -> bool {
    &&& run.len() > 0
    &&& forall|i: int|
        0 <= i < run.len() ==> 0 <= #[trigger] run[i] < entries.len() && entries[run[i]].state
            == EntryState::Dirty
    &&& forall|i: int, j: int|
        0 <= i < j < run.len() ==> entries[#[trigger] run[i]].first
            < entries[#[trigger] run[j]].first
}

/// The bytes of a run depend only on its entries.
proof fn lemma_run_bytes_prefix(entries: Seq<Slot>, short: Seq<int>, long: Seq<int>, count: nat)
    requires
        count <= short.len() <= long.len(),
        forall|i: int| 0 <= i < short.len() ==> short[i] == #[trigger] long[i],
    ensures
        run_bytes(entries, short, count) == run_bytes(entries, long, count),
    decreases count,
{
    if count > 0 {
        lemma_run_bytes_prefix(entries, short, long, (count - 1) as nat);
    }
}

/// A run stays valid when a later dirty entry follows.
proof fn lemma_run_grows(entries: Seq<Slot>, run: Seq<int>, at: int)
    requires
        valid_run(entries, run),
        0 <= at < entries.len(),
        entries[at].state == EntryState::Dirty,
        entries[at].first > entries[run.last()].first,
    ensures
        valid_run(entries, run.push(at)),
{
    let longer = run.push(at);
    assert forall|i: int, j: int| 0 <= i < j < longer.len() implies entries[#[trigger] longer[i]].first
        < entries[#[trigger] longer[j]].first by {
        if j == run.len() {
            if i < run.len() - 1 {
                assert(entries[run[i]].first < entries[run[run.len() - 1]].first);
            }
        }
    }
}

} // verus!
