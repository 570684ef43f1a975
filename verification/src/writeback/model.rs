//! What the cache holds, and what each operation makes of it.
use vstd::prelude::*;

use super::lookup::{with_block, without_block, LookupSlot};

verus! {

/// Bytes of a block.
pub const WRITEBACK_BLOCK_SIZE: usize = 4096;

/// Blocks that one miss reads at most.
pub const READ_AHEAD_BLOCKS: usize = 4;

/// Blocks that one writeback step writes at most, unless configured.
pub const DEFAULT_WRITEBACK_BATCH_BLOCKS: usize = 2;

/// Blocks that one writeback step may be configured to write.
pub const MAX_WRITEBACK_BATCH_BLOCKS: usize = 4;

/// Input or output failed.
pub const EIO: i32 = 5;

/// Try again later.
pub const EAGAIN: i32 = 11;

/// Invalid argument.
pub const EINVAL: i32 = 22;

/// No space left.
pub const ENOSPC: i32 = 28;

/// Read-only file system.
pub const EROFS: i32 = 30;

/// A disk operation failed.
#[derive(Clone, Copy, Debug, PartialEq, Eq, Structural)]
pub struct DiskError {
    pub errno: i32,
}

/// Why a cache could not be made.
#[derive(Clone, Copy, Debug, PartialEq, Eq, Structural)]
pub enum WriteBackConfigError {
    ZeroCapacity,
    InvalidWritebackBatch,
    CapacityOverflow,
    AllocationFailed,
}

/// What failed during writeback.
#[derive(Clone, Copy, Debug, PartialEq, Eq, Structural)]
pub enum WriteBackFailureOperation {
    Write { block: u64, first_sequence: u64, last_sequence: u64 },
    Flush { requested_sequence: u64 },
}

/// A writeback failure; it stays until a retry succeeds.
#[derive(Clone, Copy, Debug, PartialEq, Eq, Structural)]
pub struct WriteBackFailure {
    pub errno: i32,
    pub operation: WriteBackFailureOperation,
}

/// What a writeback step did.
#[derive(Clone, Copy, Debug, PartialEq, Eq, Structural)]
pub enum WriteBackProgress {
    Idle,
    WroteBlock { block: u64, first_sequence: u64, last_sequence: u64 },
    Flushed { durable_sequence: u64 },
}

/// What a drain did.
#[derive(Clone, Copy, Debug, PartialEq, Eq, Structural)]
pub struct DrainReport {
    pub ticket: u64,
    pub durable_sequence: u64,
    pub dirty_remaining: usize,
    pub steps: usize,
    pub complete: bool,
}

/// Saturating counters.
#[derive(Clone, Copy, Debug, PartialEq, Eq, Structural)]
pub struct WriteBackMetrics {
    pub read_requests: u64,
    pub read_blocks: u64,
    pub read_hits: u64,
    pub dirty_read_hits: u64,
    pub clean_read_hits: u64,
    pub read_misses: u64,
    pub underlying_reads: u64,
    pub read_errors: u64,
    pub read_cache_admission_failures: u64,
    pub read_ahead_requests: u64,
    pub read_ahead_blocks: u64,
    pub write_requests: u64,
    pub write_blocks_accepted: u64,
    pub coalesced_writes: u64,
    pub rejected_writes: u64,
    pub backpressure_events: u64,
    pub pressure_writeback_steps: u64,
    pub pressure_entries_freed: u64,
    pub pressure_stalls: u64,
    pub cache_insertions: u64,
    pub clean_evictions: u64,
    pub lookup_tombstones_created: u64,
    pub flush_requests: u64,
    pub flush_backpressure_events: u64,
    pub synchronous_flush_drains: u64,
    pub synchronous_flush_incomplete: u64,
    pub async_writeback_enables: u64,
    pub writeback_steps: u64,
    pub blocks_written_back: u64,
    pub bytes_written_back: u64,
    pub underlying_flushes: u64,
    pub writeback_errors: u64,
    pub retries: u64,
    pub dirty_high_watermark: usize,
}

/// Counters of a cache that has done nothing.
pub open spec fn no_metrics() -> WriteBackMetrics {
    WriteBackMetrics {
        read_requests: 0,
        read_blocks: 0,
        read_hits: 0,
        dirty_read_hits: 0,
        clean_read_hits: 0,
        read_misses: 0,
        underlying_reads: 0,
        read_errors: 0,
        read_cache_admission_failures: 0,
        read_ahead_requests: 0,
        read_ahead_blocks: 0,
        write_requests: 0,
        write_blocks_accepted: 0,
        coalesced_writes: 0,
        rejected_writes: 0,
        backpressure_events: 0,
        pressure_writeback_steps: 0,
        pressure_entries_freed: 0,
        pressure_stalls: 0,
        cache_insertions: 0,
        clean_evictions: 0,
        lookup_tombstones_created: 0,
        flush_requests: 0,
        flush_backpressure_events: 0,
        synchronous_flush_drains: 0,
        synchronous_flush_incomplete: 0,
        async_writeback_enables: 0,
        writeback_steps: 0,
        blocks_written_back: 0,
        bytes_written_back: 0,
        underlying_flushes: 0,
        writeback_errors: 0,
        retries: 0,
        dirty_high_watermark: 0,
    }
}

impl Default for WriteBackMetrics {
    fn default() -> (metrics: Self)
        ensures
            metrics == no_metrics(),
    {
        WriteBackMetrics {
            read_requests: 0,
            read_blocks: 0,
            read_hits: 0,
            dirty_read_hits: 0,
            clean_read_hits: 0,
            read_misses: 0,
            underlying_reads: 0,
            read_errors: 0,
            read_cache_admission_failures: 0,
            read_ahead_requests: 0,
            read_ahead_blocks: 0,
            write_requests: 0,
            write_blocks_accepted: 0,
            coalesced_writes: 0,
            rejected_writes: 0,
            backpressure_events: 0,
            pressure_writeback_steps: 0,
            pressure_entries_freed: 0,
            pressure_stalls: 0,
            cache_insertions: 0,
            clean_evictions: 0,
            lookup_tombstones_created: 0,
            flush_requests: 0,
            flush_backpressure_events: 0,
            synchronous_flush_drains: 0,
            synchronous_flush_incomplete: 0,
            async_writeback_enables: 0,
            writeback_steps: 0,
            blocks_written_back: 0,
            bytes_written_back: 0,
            underlying_flushes: 0,
            writeback_errors: 0,
            retries: 0,
            dirty_high_watermark: 0,
        }
    }
}

/// The state of a cache at one time.
#[derive(Clone, Copy, Debug, PartialEq, Eq, Structural)]
pub struct WriteBackStatus {
    pub write_sequence: u64,
    pub requested_sequence: u64,
    pub durable_sequence: u64,
    pub dirty_count: usize,
    pub resident_count: usize,
    pub entry_count: usize,
    pub lookup_slot_count: usize,
    pub flush_ticket_slot_count: usize,
    pub pending_flush_tickets: usize,
    pub entry_allocation_capacity: usize,
    pub lookup_allocation_capacity: usize,
    pub flush_ticket_allocation_capacity: usize,
    pub lookup_tombstones: usize,
    pub writeback_batch_blocks: usize,
    pub async_writeback_enabled: bool,
    pub quiesced: bool,
    pub read_only: bool,
    pub failure: Option<WriteBackFailure>,
}

/// What an entry of the cache holds.
#[derive(Clone, Copy, Debug, PartialEq, Eq, Structural)]
pub enum EntryState {
    Vacant,
    /// What the backing disk holds.
    Clean,
    /// What has yet to be written to the backing disk.
    Dirty,
}

/// An entry of the cache.
#[verifier::ext_equal]
pub struct Slot {
    pub block: u64,
    pub data: Seq<u8>,
    pub state: EntryState,
    /// Sequence of the oldest write that the entry holds and the disk does not.
    pub first: u64,
    /// Sequence of the newest write that the entry holds.
    pub last: u64,
    /// When the entry was last used.
    pub used: u64,
}

/// A cache.
#[verifier::ext_equal]
pub struct CacheModel {
    pub entries: Seq<Slot>,
    /// The lookup table.
    pub lookup: Seq<LookupSlot>,
    /// Outstanding flush tickets, oldest first.
    pub tickets: Seq<u64>,
    pub ticket_slots: nat,
    pub batch: nat,
    pub clock: u64,
    pub written: u64,
    pub requested: u64,
    pub durable: u64,
    pub background: bool,
    pub quiesced: bool,
    pub failure: Option<WriteBackFailure>,
    pub metrics: WriteBackMetrics,
}

/// One more, up to the largest number.
pub open spec fn counted(value: u64) -> u64 {
    counted_by(value, 1)
}

/// `more` more, up to the largest number.
pub open spec fn counted_by(value: u64, more: int) -> u64 {
    if value + more > u64::MAX {
        u64::MAX
    } else {
        (value + more) as u64
    }
}

/// Entries in a state among the first `count`.
pub open spec fn in_state(entries: Seq<Slot>, state: EntryState, count: nat) -> nat
    decreases count,
{
    if count == 0 {
        0
    } else {
        in_state(entries, state, (count - 1) as nat) + if entries[count - 1].state == state {
            1nat
        } else {
            0
        }
    }
}

/// Dirty entries.
pub open spec fn dirty_entries(entries: Seq<Slot>) -> nat {
    in_state(entries, EntryState::Dirty, entries.len())
}

/// Entries that hold a block.
pub open spec fn resident_entries(entries: Seq<Slot>) -> int {
    entries.len() - in_state(entries, EntryState::Vacant, entries.len())
}

/// Replacing an entry changes a count accordingly.
pub(crate) proof fn lemma_state_update(
    entries: Seq<Slot>,
    state: EntryState,
    count: nat,
    at: int,
    slot: Slot,
)
    requires
        count <= entries.len(),
        0 <= at < entries.len(),
    ensures
        in_state(entries.update(at, slot), state, count) == in_state(entries, state, count) + (if at
            < count && slot.state == state {
            1int
        } else {
            0
        }) - (if at < count && entries[at].state == state {
            1int
        } else {
            0
        }),
    decreases count,
{
    if count > 0 {
        lemma_state_update(entries, state, (count - 1) as nat, at, slot);
    }
}

/// Bounds on a count.
pub(crate) proof fn lemma_state_bounds(entries: Seq<Slot>, state: EntryState, count: nat)
    requires
        count <= entries.len(),
    ensures
        in_state(entries, state, count) <= count,
        forall|i: int|
            0 <= i < count && (#[trigger] entries[i]).state == state ==> in_state(
                entries,
                state,
                count,
            ) > 0,
        forall|i: int|
            0 <= i < count && (#[trigger] entries[i]).state != state ==> in_state(
                entries,
                state,
                count,
            ) < count,
        (forall|i: int| 0 <= i < count ==> (#[trigger] entries[i]).state == state) ==> in_state(
            entries,
            state,
            count,
        ) == count,
        (forall|i: int| 0 <= i < count ==> (#[trigger] entries[i]).state != state) ==> in_state(
            entries,
            state,
            count,
        ) == 0,
    decreases count,
{
    if count > 0 {
        lemma_state_bounds(entries, state, (count - 1) as nat);
    }
}

/// The entry at `at` holds `block`.
pub open spec fn caches(entries: Seq<Slot>, block: u64, at: int) -> bool {
    0 <= at < entries.len() && entries[at].state != EntryState::Vacant && entries[at].block == block
}

/// The entry that holds a block.
pub open spec fn find(entries: Seq<Slot>, block: u64) -> Option<int> {
    if exists|at: int| caches(entries, block, at) {
        Some(choose|at: int| caches(entries, block, at))
    } else {
        None
    }
}

/// No block stands in two entries.
pub open spec fn distinct_blocks(entries: Seq<Slot>) -> bool {
    forall|block: u64, i: int, j: int|
        #![trigger caches(entries, block, i), caches(entries, block, j)]
        caches(entries, block, i) && caches(entries, block, j) ==> i == j
}

/// The first vacant entry among the first `count`.
pub open spec fn first_vacant(entries: Seq<Slot>, count: nat) -> Option<int>
    decreases count,
{
    if count == 0 {
        None
    } else {
        match first_vacant(entries, (count - 1) as nat) {
            Some(at) => Some(at),
            None => if entries[count - 1].state == EntryState::Vacant {
                Some(count - 1)
            } else {
                None
            },
        }
    }
}

/// The clean entry among the first `count` that was used the longest time ago.
pub open spec fn oldest_clean(entries: Seq<Slot>, count: nat) -> Option<int>
    decreases count,
{
    if count == 0 {
        None
    } else {
        let last = count - 1;
        match oldest_clean(entries, last as nat) {
            Some(at) => if entries[last].state == EntryState::Clean && entries[last].used
                < entries[at].used {
                Some(last)
            } else {
                Some(at)
            },
            None => if entries[last].state == EntryState::Clean {
                Some(last)
            } else {
                None
            },
        }
    }
}

/// The entry that a new block takes: a vacant one, else the oldest clean one.
pub open spec fn reusable(entries: Seq<Slot>) -> Option<int> {
    match first_vacant(entries, entries.len()) {
        Some(at) => Some(at),
        None => oldest_clean(entries, entries.len()),
    }
}

/// What a new block takes is in range and not dirty; only dirty entries take none.
pub(crate) proof fn lemma_reusable(entries: Seq<Slot>, count: nat)
    requires
        count <= entries.len(),
    ensures
        match first_vacant(entries, count) {
            Some(at) => 0 <= at < count && entries[at].state == EntryState::Vacant,
            None => forall|i: int|
                0 <= i < count ==> (#[trigger] entries[i]).state != EntryState::Vacant,
        },
        match oldest_clean(entries, count) {
            Some(at) => 0 <= at < count && entries[at].state == EntryState::Clean,
            None => forall|i: int|
                0 <= i < count ==> (#[trigger] entries[i]).state != EntryState::Clean,
        },
    decreases count,
{
    if count > 0 {
        lemma_reusable(entries, (count - 1) as nat);
    }
}

/// The first vacant entry is found from any longer prefix.
pub(crate) proof fn lemma_first_vacant_stays(entries: Seq<Slot>, short: nat, long: nat)
    requires
        short <= long,
        first_vacant(entries, short) is Some,
    ensures
        first_vacant(entries, long) == first_vacant(entries, short),
    decreases long,
{
    if short < long {
        lemma_first_vacant_stays(entries, short, (long - 1) as nat);
    }
}

/// The dirty entry among the first `count` whose oldest write has the lowest sequence
/// above `above`.
pub open spec fn next_dirty(entries: Seq<Slot>, above: int, count: nat) -> Option<int>
    decreases count,
{
    if count == 0 {
        None
    } else {
        let last = count - 1;
        let fits = entries[last].state == EntryState::Dirty && entries[last].first > above;
        match next_dirty(entries, above, last as nat) {
            Some(at) => if fits && entries[last].first < entries[at].first {
                Some(last)
            } else {
                Some(at)
            },
            None => if fits {
                Some(last)
            } else {
                None
            },
        }
    }
}

/// What `next_dirty` finds is dirty, above the bound, and lowest.
pub proof fn lemma_next_dirty(entries: Seq<Slot>, above: int, count: nat)
    requires
        count <= entries.len(),
    ensures
        match next_dirty(entries, above, count) {
            Some(at) => {
                &&& 0 <= at < count
                &&& entries[at].state == EntryState::Dirty
                &&& entries[at].first > above
                &&& forall|i: int|
                    0 <= i < count && (#[trigger] entries[i]).state == EntryState::Dirty
                        && entries[i].first > above ==> entries[at].first <= entries[i].first
            },
            None => forall|i: int|
                0 <= i < count && (#[trigger] entries[i]).state == EntryState::Dirty
                    ==> entries[i].first <= above,
        },
    decreases count,
{
    if count > 0 {
        lemma_next_dirty(entries, above, (count - 1) as nat);
    }
}

/// The next block, up to the largest number.
pub open spec fn block_after(block: u64) -> u64 {
    if block == u64::MAX {
        u64::MAX
    } else {
        (block + 1) as u64
    }
}

/// Extends a run of entries by those that follow in sequence and in block, within the
/// ticket, up to `batch` entries.
pub open spec fn extend_run(
    entries: Seq<Slot>,
    run: Seq<int>,
    ticket: Option<u64>,
    batch: nat,
) -> Seq<int>
    decreases batch - run.len(),
{
    if run.len() == 0 || run.len() >= batch {
        run
    } else {
        let previous = entries[run.last()];
        match next_dirty(entries, previous.first as int, entries.len()) {
            None => run,
            Some(at) => if entries[at].block != block_after(previous.block) || (ticket is Some
                && entries[at].first > ticket->Some_0) {
                run
            } else {
                extend_run(entries, run.push(at), ticket, batch)
            },
        }
    }
}

/// The bytes of the first `count` entries of a run.
pub open spec fn run_bytes(entries: Seq<Slot>, run: Seq<int>, count: nat) -> Seq<u8>
    decreases count,
{
    if count == 0 {
        Seq::empty()
    } else {
        run_bytes(entries, run, (count - 1) as nat) + entries[run[count - 1]].data
    }
}

/// The newest sequence of the first `count` entries of a run.
pub open spec fn run_last(entries: Seq<Slot>, run: Seq<int>, count: nat) -> u64
    decreases count,
{
    if count <= 1 {
        entries[run[0]].last
    } else {
        let rest = run_last(entries, run, (count - 1) as nat);
        if rest < entries[run[count - 1]].last {
            entries[run[count - 1]].last
        } else {
            rest
        }
    }
}

/// The entries with the first `count` of a run marked clean.
pub open spec fn cleaned(entries: Seq<Slot>, run: Seq<int>, count: nat) -> Seq<Slot>
    decreases count,
{
    if count == 0 {
        entries
    } else {
        let before = cleaned(entries, run, (count - 1) as nat);
        before.update(run[count - 1], Slot { state: EntryState::Clean, ..before[run[count - 1]] })
    }
}

/// What a writeback step is to do.
#[verifier::ext_equal]
pub enum Decision {
    Failed(i32),
    Idle,
    Flush(u64),
    Write(Seq<int>),
}

impl CacheModel {
    /// Sequences, tickets and dirty entries are in order.
    pub open spec fn ordered(self) -> bool {
        &&& self.durable <= self.requested <= self.written
        &&& self.tickets.len() <= self.ticket_slots
        &&& self.tickets.len() == 0 ==> self.requested == self.durable
        &&& self.tickets.len() > 0 ==> self.tickets.last() == self.requested && self.tickets[0]
            > self.durable
        &&& forall|i: int, j: int|
            0 <= i < j < self.tickets.len() ==> #[trigger] self.tickets[i]
                < #[trigger] self.tickets[j]
        &&& distinct_blocks(self.entries)
        &&& forall|i: int|
            0 <= i < self.entries.len() ==> {
                let slot = #[trigger] self.entries[i];
                &&& slot.data.len() == WRITEBACK_BLOCK_SIZE
                &&& slot.used <= self.clock
                &&& slot.state == EntryState::Dirty ==> self.durable < slot.first <= slot.last
                    <= self.written
            }
        &&& forall|i: int, j: int|
            0 <= i < j < self.entries.len() && (#[trigger] self.entries[i]).state
                == EntryState::Dirty && (#[trigger] self.entries[j]).state == EntryState::Dirty
                ==> self.entries[i].first != self.entries[j].first
    }

    /// New writes are refused.
    pub open spec fn read_only(self) -> bool {
        self.quiesced || self.failure is Some
    }

    /// The oldest outstanding ticket.
    pub open spec fn ticket(self) -> Option<u64> {
        if self.tickets.len() > 0 {
            Some(self.tickets[0])
        } else {
            None
        }
    }

    /// With one more access counted.
    pub open spec fn accessed(self) -> CacheModel {
        CacheModel { clock: counted(self.clock), ..self }
    }

    /// What a writeback step is to do: flush once every write up to the oldest ticket is
    /// written, else write the oldest dirty entry and those that follow it.
    pub open spec fn decision(self) -> Decision {
        let dirty = next_dirty(self.entries, 0, self.entries.len());
        if self.failure is Some {
            Decision::Failed(self.failure->Some_0.errno)
        } else if self.ticket() is Some && (dirty is None || self.entries[dirty->Some_0].first
            > self.ticket()->Some_0) {
            Decision::Flush(self.ticket()->Some_0)
        } else if dirty is None {
            Decision::Idle
        } else {
            Decision::Write(
                extend_run(self.entries, seq![dirty->Some_0], self.ticket(), self.batch),
            )
        }
    }

    /// After a writeback operation failed.
    pub open spec fn failed(self, errno: i32, operation: WriteBackFailureOperation) -> CacheModel {
        CacheModel {
            failure: if self.failure is None {
                Some(WriteBackFailure { errno, operation })
            } else {
                self.failure
            },
            metrics: WriteBackMetrics {
                writeback_errors: counted(self.metrics.writeback_errors),
                ..self.metrics
            },
            ..self
        }
    }

    /// After the backing disk was flushed for the oldest ticket.
    pub open spec fn flushed(self) -> CacheModel {
        CacheModel {
            durable: self.tickets[0],
            tickets: self.tickets.drop_first(),
            metrics: WriteBackMetrics {
                underlying_flushes: counted(self.metrics.underlying_flushes),
                ..self.metrics
            },
            ..self
        }
    }

    /// After a run was written to the backing disk.
    pub open spec fn wrote(self, run: Seq<int>) -> CacheModel {
        CacheModel {
            entries: cleaned(self.entries, run, run.len()),
            metrics: WriteBackMetrics {
                blocks_written_back: counted_by(
                    self.metrics.blocks_written_back,
                    run.len() as int,
                ),
                bytes_written_back: counted_by(
                    self.metrics.bytes_written_back,
                    (run.len() * 4096) as int,
                ),
                ..self.metrics
            },
            ..self
        }
    }

    /// A block takes an entry, which is cleared of what it held.
    pub open spec fn prepared(self, slot: Slot, at: int) -> CacheModel {
        let evicts = self.entries[at].state == EntryState::Clean;
        let looked_up = if evicts {
            without_block(self.lookup, self.entries[at].block)
        } else {
            self.lookup
        };
        CacheModel {
            entries: self.entries.update(at, slot),
            lookup: with_block(looked_up, slot.block, at as usize),
            metrics: WriteBackMetrics {
                clean_evictions: if evicts {
                    counted(self.metrics.clean_evictions)
                } else {
                    self.metrics.clean_evictions
                },
                lookup_tombstones_created: if evicts {
                    counted(self.metrics.lookup_tombstones_created)
                } else {
                    self.metrics.lookup_tombstones_created
                },
                cache_insertions: counted(self.metrics.cache_insertions),
                ..self.metrics
            },
            ..self
        }
    }

    /// After a write of one block was taken, or refused for want of an entry.
    pub open spec fn accepted(self, block: u64, data: Seq<u8>, sequence: u64) -> Option<CacheModel> {
        let now = self.accessed();
        match find(self.entries, block) {
            Some(at) => {
                let slot = self.entries[at];
                if slot.state == EntryState::Dirty {
                    Some(
                        CacheModel {
                            entries: self.entries.update(
                                at,
                                Slot { data, last: sequence, used: now.clock, ..slot },
                            ),
                            metrics: WriteBackMetrics {
                                coalesced_writes: counted(self.metrics.coalesced_writes),
                                ..self.metrics
                            },
                            ..now
                        },
                    )
                } else {
                    Some(
                        CacheModel {
                            entries: self.entries.update(
                                at,
                                Slot {
                                    data,
                                    state: EntryState::Dirty,
                                    first: sequence,
                                    last: sequence,
                                    used: now.clock,
                                    ..slot
                                },
                            ),
                            ..now
                        },
                    )
                }
            },
            None => match reusable(self.entries) {
                None => None,
                Some(at) => {
                    let placed = now.prepared(
                        Slot {
                            block,
                            data,
                            state: EntryState::Dirty,
                            first: sequence,
                            last: sequence,
                            used: now.clock,
                        },
                        at,
                    );
                    let dirty = dirty_entries(placed.entries);
                    Some(
                        CacheModel {
                            metrics: WriteBackMetrics {
                                dirty_high_watermark: if placed.metrics.dirty_high_watermark
                                    < dirty {
                                    dirty as usize
                                } else {
                                    placed.metrics.dirty_high_watermark
                                },
                                ..placed.metrics
                            },
                            ..placed
                        },
                    )
                },
            },
        }
    }

    /// After a block that was read from the backing disk was offered to the cache.
    pub open spec fn admitted(self, block: u64, data: Seq<u8>) -> CacheModel {
        if find(self.entries, block) is Some {
            self
        } else {
            match reusable(self.entries) {
                None => CacheModel {
                    metrics: WriteBackMetrics {
                        read_cache_admission_failures: counted(
                            self.metrics.read_cache_admission_failures,
                        ),
                        ..self.metrics
                    },
                    ..self
                },
                Some(at) => {
                    let now = self.accessed();
                    now.prepared(
                        Slot {
                            block,
                            data,
                            state: EntryState::Clean,
                            first: 0,
                            last: 0,
                            used: now.clock,
                        },
                        at,
                    )
                },
            }
        }
    }

    /// After a cached block was read.
    pub open spec fn hit(self, at: int) -> CacheModel {
        let now = self.accessed();
        let dirty = self.entries[at].state == EntryState::Dirty;
        CacheModel {
            entries: self.entries.update(at, Slot { used: now.clock, ..self.entries[at] }),
            metrics: WriteBackMetrics {
                read_hits: counted(self.metrics.read_hits),
                dirty_read_hits: if dirty {
                    counted(self.metrics.dirty_read_hits)
                } else {
                    self.metrics.dirty_read_hits
                },
                clean_read_hits: if dirty {
                    self.metrics.clean_read_hits
                } else {
                    counted(self.metrics.clean_read_hits)
                },
                ..self.metrics
            },
            ..now
        }
    }

    /// After durability of every accepted write was requested.
    pub open spec fn durability_requested(self) -> (CacheModel, Result<u64, DiskError>) {
        let noted = WriteBackMetrics {
            flush_requests: counted(self.metrics.flush_requests),
            ..self.metrics
        };
        if self.failure is Some {
            (self, Err(DiskError { errno: self.failure->Some_0.errno }))
        } else if self.written == self.requested {
            (CacheModel { metrics: noted, ..self }, Ok(self.requested))
        } else if self.tickets.len() == self.ticket_slots {
            (
                CacheModel {
                    metrics: WriteBackMetrics {
                        flush_backpressure_events: counted(self.metrics.flush_backpressure_events),
                        ..self.metrics
                    },
                    ..self
                },
                Err(DiskError { errno: EAGAIN }),
            )
        } else {
            (
                CacheModel {
                    tickets: self.tickets.push(self.written),
                    requested: self.written,
                    metrics: noted,
                    ..self
                },
                Ok(self.written),
            )
        }
    }
}

} // verus!
