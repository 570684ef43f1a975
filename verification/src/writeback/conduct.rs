//! What the cache does with single blocks, tickets, runs, reads and writes, and what it
//! counts while doing so.
use vstd::prelude::*;

use super::access::{
    law_write_with_room_is_taken, read_answered, read_counted, room, write_answered, write_counted,
};
use super::cache::{transfer_spec, valid_run};
use super::disk::{
    drain_counted, drained, drained_along, enabled, flush_answered, flushes, forgiven,
    lemma_drain_keeps, made, quieted, resumed, shut_down, stepped, BackingDisk, BackingRequest,
    DiskModel, WriteBackDisk,
};
use super::laws::{
    law_checked_write_is_taken_whole, law_writes_are_ordered, law_written_blocks_are_cached,
};
use super::lookup::hash_of;
use super::model::{
    caches, dirty_entries, find, first_vacant, lemma_next_dirty, lemma_reusable, oldest_clean,
    resident_entries, reusable, run_bytes, run_last, CacheModel, Decision, DiskError, DrainReport,
    EntryState, Slot, WriteBackConfigError, WriteBackFailure, WriteBackFailureOperation,
    WriteBackMetrics, WriteBackProgress,
};
use super::reading::{fetched, missed, MissReply, Reading};
use super::requests::{
    admitted_ahead, free_entries, held_for_ticket, miss_run, taken, target_of, uncached,
    window_spec,
};
use super::transfer::lemma_cleaned;

verus! {

/// A counter that was raised, and that stops at its largest value.
pub open spec fn raised(value: u64, by: int) -> u64 {
    if value + by >= 0xffff_ffff_ffff_ffff {
        0xffff_ffff_ffff_ffff
    } else {
        (value + by) as u64
    }
}

/// Every entry but one is as it was.
pub open spec fn others_stay(before: Seq<Slot>, after: Seq<Slot>, at: int) -> bool {
    &&& before.len() == after.len()
    &&& forall|i: int| 0 <= i < before.len() && i != at ==> #[trigger] after[i] == before[i]
}

/// A read hit serves what is there: only the entry's age changes, and the counter of its kind
/// goes up beside the one of all hits.
pub proof fn law_hits_count_by_kind(model: CacheModel, at: int)
    requires
        0 <= at < model.entries.len(),
    ensures
        ({
            let after = model.hit(at);
            let slot = model.entries[at];
            &&& others_stay(model.entries, after.entries, at)
            &&& after.entries[at].data == slot.data
            &&& after.entries[at].block == slot.block
            &&& after.entries[at].state == slot.state
            &&& after.entries[at].first == slot.first
            &&& after.entries[at].last == slot.last
            &&& after.entries[at].used == after.clock
            &&& after.clock == raised(model.clock, 1)
            &&& slot.state == EntryState::Dirty ==> after.metrics == (WriteBackMetrics {
                read_hits: raised(model.metrics.read_hits, 1),
                dirty_read_hits: raised(model.metrics.dirty_read_hits, 1),
                ..model.metrics
            })
            &&& slot.state != EntryState::Dirty ==> after.metrics == (WriteBackMetrics {
                read_hits: raised(model.metrics.read_hits, 1),
                clean_read_hits: raised(model.metrics.clean_read_hits, 1),
                ..model.metrics
            })
        }),
{
}

/// Where a new block goes: into the first vacant entry, or else into the clean entry that was
/// not used for longest, the first of them where several are as old.
pub proof fn law_the_least_recently_used_clean_entry_goes(entries: Seq<Slot>)
    ensures
        match reusable(entries) {
            Some(at) => {
                &&& 0 <= at < entries.len()
                &&& entries[at].state == EntryState::Vacant ==> forall|i: int|
                    0 <= i < at ==> (#[trigger] entries[i]).state != EntryState::Vacant
                &&& entries[at].state != EntryState::Vacant ==> entries[at].state
                    == EntryState::Clean && forall|i: int|
                    0 <= i < entries.len() ==> {
                        let slot = #[trigger] entries[i];
                        &&& slot.state != EntryState::Vacant
                        &&& slot.state == EntryState::Clean ==> entries[at].used <= slot.used
                        &&& slot.state == EntryState::Clean && i < at ==> entries[at].used
                            < slot.used
                    }
            },
            None => forall|i: int|
                0 <= i < entries.len() ==> (#[trigger] entries[i]).state == EntryState::Dirty,
        },
{
    lemma_reusable(entries, entries.len());
    lemma_reuse_order(entries, entries.len());
}

/// The first vacant entry, and the oldest of the clean ones.
proof fn lemma_reuse_order(entries: Seq<Slot>, count: nat)
    requires
        count <= entries.len(),
    ensures
        first_vacant(entries, count) matches Some(at) ==> forall|i: int|
            0 <= i < at ==> (#[trigger] entries[i]).state != EntryState::Vacant,
        oldest_clean(entries, count) matches Some(at) ==> forall|i: int|
            0 <= i < count && (#[trigger] entries[i]).state == EntryState::Clean
                ==> entries[at].used <= entries[i].used && (i < at ==> entries[at].used
                < entries[i].used),
    decreases count,
{
    if count > 0 {
        lemma_reuse_order(entries, (count - 1) as nat);
        lemma_reusable(entries, (count - 1) as nat);
    }
}

/// A block that is written: a dirty entry keeps its oldest sequence and takes the newest one,
/// a clean one becomes dirty at this sequence, and a block that was not cached takes a free
/// entry, whose clean block, if any, is evicted.
pub proof fn law_written_blocks_keep_their_oldest_sequence(
    model: CacheModel,
    block: u64,
    data: Seq<u8>,
    sequence: u64,
    at: int,
)
    requires
        find(model.entries, block) == Some(at),
    ensures
        ({
            let slot = model.entries[at];
            let taken = model.accepted(block, data, sequence);
            let after = taken->Some_0;
            &&& taken is Some
            &&& others_stay(model.entries, after.entries, at)
            &&& after.entries[at].block == block
            &&& after.entries[at].data == data
            &&& after.entries[at].state == EntryState::Dirty
            &&& after.entries[at].last == sequence
            &&& after.entries[at].used == raised(model.clock, 1)
            &&& after.clock == raised(model.clock, 1)
            &&& after.lookup == model.lookup
            &&& slot.state == EntryState::Dirty ==> after.entries[at].first == slot.first
                && after.metrics == (WriteBackMetrics {
                coalesced_writes: raised(model.metrics.coalesced_writes, 1),
                ..model.metrics
            })
            &&& slot.state != EntryState::Dirty ==> after.entries[at].first == sequence
                && after.metrics == model.metrics
        }),
{
    assert(caches(model.entries, block, at));
}

/// A written block that was not cached is held, dirty, in the entry that was free for it.
pub proof fn law_new_blocks_take_a_free_entry(
    model: CacheModel,
    block: u64,
    data: Seq<u8>,
    sequence: u64,
)
    requires
        find(model.entries, block) is None,
    ensures
        ({
            let taken = model.accepted(block, data, sequence);
            let after = taken->Some_0;
            let at = reusable(model.entries)->Some_0;
            let evicts = model.entries[at].state == EntryState::Clean;
            &&& taken is Some <==> exists|i: int|
                0 <= i < model.entries.len() && (#[trigger] model.entries[i]).state
                    != EntryState::Dirty
            &&& taken is Some ==> {
                &&& others_stay(model.entries, after.entries, at)
                &&& after.entries[at] == (Slot {
                    block,
                    data,
                    state: EntryState::Dirty,
                    first: sequence,
                    last: sequence,
                    used: raised(model.clock, 1),
                })
                &&& after.clock == raised(model.clock, 1)
                &&& after.tickets == model.tickets
                &&& after.written == model.written
                &&& after.metrics.cache_insertions == raised(model.metrics.cache_insertions, 1)
                &&& after.metrics.clean_evictions == raised(
                    model.metrics.clean_evictions,
                    if evicts {
                        1
                    } else {
                        0
                    },
                )
                &&& after.metrics.lookup_tombstones_created == raised(
                    model.metrics.lookup_tombstones_created,
                    if evicts {
                        1
                    } else {
                        0
                    },
                )
                &&& after.metrics.dirty_high_watermark == (if model.metrics.dirty_high_watermark
                    < dirty_entries(after.entries) {
                    dirty_entries(after.entries) as usize
                } else {
                    model.metrics.dirty_high_watermark
                })
                &&& after.metrics.coalesced_writes == model.metrics.coalesced_writes
            }
        }),
{
    lemma_reusable(model.entries, model.entries.len());
}

/// A block that was read is offered to the cache: it is kept clean, with no sequence, unless
/// it is cached already or every entry is dirty.
pub proof fn law_offered_blocks_are_kept_clean(model: CacheModel, block: u64, data: Seq<u8>)
    ensures
        ({
            let after = model.admitted(block, data);
            let at = reusable(model.entries)->Some_0;
            &&& find(model.entries, block) is Some ==> after == model
            &&& find(model.entries, block) is None && reusable(model.entries) is None ==> after == (
            CacheModel {
                metrics: WriteBackMetrics {
                    read_cache_admission_failures: raised(
                        model.metrics.read_cache_admission_failures,
                        1,
                    ),
                    ..model.metrics
                },
                ..model
            })
            &&& find(model.entries, block) is None && reusable(model.entries) is Some ==> {
                &&& others_stay(model.entries, after.entries, at)
                &&& after.entries[at] == (Slot {
                    block,
                    data,
                    state: EntryState::Clean,
                    first: 0,
                    last: 0,
                    used: raised(model.clock, 1),
                })
                &&& after.clock == raised(model.clock, 1)
                &&& after.metrics.cache_insertions == raised(model.metrics.cache_insertions, 1)
                &&& after.metrics.dirty_high_watermark == model.metrics.dirty_high_watermark
                &&& after.metrics.read_cache_admission_failures
                    == model.metrics.read_cache_admission_failures
            }
        }),
{
    lemma_reusable(model.entries, model.entries.len());
}

/// A request for durability: an answer that names the newest write, a ticket only where
/// something was written since the last one, and a refusal where a writeback failed or the
/// tickets are used up.
pub proof fn law_durability_covers_every_write(model: CacheModel)
    ensures
        ({
            let (after, answer) = model.durability_requested();
            &&& model.failure is Some ==> answer == Err::<u64, DiskError>(
                DiskError { errno: model.failure->Some_0.errno },
            ) && after == model
            &&& model.failure is None ==> {
                &&& model.written == model.requested ==> answer == Ok::<u64, DiskError>(
                    model.written,
                ) && after.tickets == model.tickets && after.requested == model.requested
                    && after.metrics.flush_requests == raised(model.metrics.flush_requests, 1)
                &&& model.written != model.requested && model.tickets.len() == model.ticket_slots
                    ==> answer == Err::<u64, DiskError>(DiskError { errno: 11 })
                    && after.tickets == model.tickets && after.requested == model.requested
                    && after.metrics.flush_requests == model.metrics.flush_requests
                    && after.metrics.flush_backpressure_events == raised(
                    model.metrics.flush_backpressure_events,
                    1,
                )
                &&& model.written != model.requested && model.tickets.len() != model.ticket_slots
                    ==> answer == Ok::<u64, DiskError>(model.written) && after.requested
                    == model.written && after.tickets == model.tickets.push(model.written)
                    && after.metrics.flush_requests == raised(model.metrics.flush_requests, 1)
                    && after.metrics.flush_backpressure_events
                    == model.metrics.flush_backpressure_events
            }
            &&& after.entries == model.entries
            &&& after.written == model.written
            &&& after.durable == model.durable
            &&& after.clock == model.clock
            &&& after.quiesced == model.quiesced
            &&& after.background == model.background
        }),
{
}

/// Whether a write may go on: not to a cache that was stopped or that failed, not of more
/// blocks than there are entries, not beyond the last sequence, and not over a block that an
/// outstanding ticket still has to see written.
pub proof fn law_writes_are_refused_for_a_reason(model: CacheModel, block: u64, count: usize)
    ensures
        ({
            let (after, answer) = model.write_checked(block, count);
            let stopped = model.quiesced || model.failure is Some;
            let held = model.tickets.len() > 0 && exists|offset: int|
                0 <= offset < count && caught(model, #[trigger] target_of(block, offset));
            &&& stopped ==> answer == Err::<usize, DiskError>(DiskError { errno: 30 })
                && after.metrics == (WriteBackMetrics {
                rejected_writes: raised(model.metrics.rejected_writes, 1),
                ..model.metrics
            })
            &&& !stopped && count > model.entries.len() ==> answer == Err::<usize, DiskError>(
                DiskError { errno: 28 },
            ) && after.metrics == (WriteBackMetrics {
                rejected_writes: raised(model.metrics.rejected_writes, 1),
                backpressure_events: raised(model.metrics.backpressure_events, 1),
                ..model.metrics
            })
            &&& !stopped && count <= model.entries.len() ==> {
                &&& model.written + count > 0xffff_ffff_ffff_ffff ==> answer == Err::<
                    usize,
                    DiskError,
                >(DiskError { errno: 5 }) && after == model
                &&& model.written + count <= 0xffff_ffff_ffff_ffff && held ==> answer == Err::<
                    usize,
                    DiskError,
                >(DiskError { errno: 11 }) && after.metrics == (WriteBackMetrics {
                    rejected_writes: raised(model.metrics.rejected_writes, 1),
                    backpressure_events: raised(model.metrics.backpressure_events, 1),
                    ..model.metrics
                })
                &&& model.written + count <= 0xffff_ffff_ffff_ffff && !held ==> answer is Ok
                    && after == model
            }
            &&& after.entries == model.entries
            &&& after.written == model.written
        }),
{
    let stopped = model.quiesced || model.failure is Some;
    if !stopped && count <= model.entries.len() {
        assert forall|offset: int| 0 <= offset < count implies caught(
            model,
            #[trigger] target_of(block, offset),
        ) == held_for_ticket(model, target_of(block, offset)) by {}
    }
}

/// The block is dirty with a write that an outstanding ticket covers.
pub open spec fn caught(model: CacheModel, block: u64) -> bool {
    match find(model.entries, block) {
        Some(at) => model.entries[at].state == EntryState::Dirty && !(model.entries[at].first
            > model.requested),
        None => false,
    }
}

/// Which transfers are whole blocks that exist.
pub proof fn law_transfers_are_whole_blocks(block: u64, byte_len: int)
    requires
        0 <= byte_len <= usize::MAX,
    ensures
        transfer_spec(block, byte_len) == (if byte_len % 4096 == 0 && block + byte_len / 4096
            <= 0xffff_ffff_ffff_ffff {
            Ok::<usize, DiskError>((byte_len / 4096) as usize)
        } else {
            Err(DiskError { errno: 22 })
        }),
        transfer_spec(block, byte_len) matches Ok(count) ==> count * 4096 == byte_len,
{
}

/// The bytes of a run are those of its entries, in the run's order.
pub proof fn law_runs_hold_their_entries_in_order(entries: Seq<Slot>, run: Seq<int>, k: int)
    requires
        valid_run(entries, run),
        0 <= k < run.len(),
        forall|i: int| 0 <= i < entries.len() ==> (#[trigger] entries[i]).data.len() == 4096,
    ensures
        run_bytes(entries, run, run.len()).len() == run.len() * 4096,
        run_bytes(entries, run, run.len()).subrange(k * 4096, k * 4096 + 4096)
            == entries[run[k]].data,
{
    lemma_run_bytes(entries, run, run.len(), k);
}

/// Bytes of the first entries of a run.
proof fn lemma_run_bytes(entries: Seq<Slot>, run: Seq<int>, count: nat, k: int)
    requires
        valid_run(entries, run),
        count <= run.len(),
        forall|i: int| 0 <= i < entries.len() ==> (#[trigger] entries[i]).data.len() == 4096,
    ensures
        run_bytes(entries, run, count).len() == count * 4096,
        0 <= k < count ==> run_bytes(entries, run, count).subrange(k * 4096, k * 4096 + 4096)
            == entries[run[k]].data,
    decreases count,
{
    if count > 0 {
        let shorter = (count - 1) as nat;
        lemma_run_bytes(entries, run, shorter, k);
        let before = run_bytes(entries, run, shorter);
        let last = entries[run[count - 1]].data;
        assert(last.len() == 4096);
        let whole = run_bytes(entries, run, count);
        assert(whole == before + last);
        if 0 <= k < shorter {
            assert(whole.subrange(k * 4096, k * 4096 + 4096) =~= before.subrange(
                k * 4096,
                k * 4096 + 4096,
            ));
        } else if k == shorter {
            assert(whole.subrange(k * 4096, k * 4096 + 4096) =~= last);
        }
    }
}

/// The last sequence of a run is the largest of its entries' last ones.
proof fn lemma_run_last(entries: Seq<Slot>, run: Seq<int>, count: nat)
    requires
        1 <= count <= run.len(),
    ensures
        forall|k: int| 0 <= k < count ==> entries[#[trigger] run[k]].last <= run_last(
            entries,
            run,
            count,
        ),
        exists|k: int|
            0 <= k < count && entries[#[trigger] run[k]].last == run_last(entries, run, count),
    decreases count,
{
    if count > 1 {
        let shorter = (count - 1) as nat;
        lemma_run_last(entries, run, shorter);
        let k = choose|k: int|
            0 <= k < shorter && entries[#[trigger] run[k]].last == run_last(entries, run, shorter);
        if run_last(entries, run, count) == run_last(entries, run, shorter) {
            assert(entries[run[k]].last == run_last(entries, run, count));
        } else {
            assert(entries[run[count - 1]].last == run_last(entries, run, count));
        }
    } else {
        assert(entries[run[0]].last == run_last(entries, run, count));
    }
}

/// The entries of a run and of none other are clean.
pub open spec fn run_is_clean(before: Seq<Slot>, after: Seq<Slot>, run: Seq<int>) -> bool {
    &&& after.len() == before.len()
    &&& forall|i: int|
        0 <= i < before.len() ==> {
            let slot = #[trigger] after[i];
            &&& run.contains(i) ==> slot.state == EntryState::Clean
            &&& !run.contains(i) ==> slot.state == before[i].state
            &&& slot.block == before[i].block
            &&& slot.data == before[i].data
            &&& slot.first == before[i].first
            &&& slot.last == before[i].last
            &&& slot.used == before[i].used
        }
}

/// A step of writeback that writes: the run goes to the disk in one request, from the block of
/// its first entry on; when all of it was written its entries are clean and its blocks and
/// bytes are counted, and otherwise the failure is kept and nothing becomes clean.
pub proof fn law_a_step_writes_one_run(
    before: DiskModel,
    result: Result<WriteBackProgress, DiskError>,
    after: DiskModel,
    run: Seq<int>,
)
    requires
        before.cache.ordered(),
        before.cache.batch >= 1,
        before.cache.decision() == Decision::Write(run),
        stepped(before, result, after),
    ensures
        ({
            let entries = before.cache.entries;
            let request = after.issued.last();
            let metrics = before.cache.metrics;
            let done = request->Write_reply == Ok::<usize, i32>((run.len() * 4096) as usize);
            &&& after.issued.len() == before.issued.len() + 1
            &&& request is Write
            &&& request->Write_block == entries[run[0]].block
            &&& request->bytes.len() == run.len() * 4096
            &&& forall|k: int|
                0 <= k < run.len() ==> request->bytes.subrange(k * 4096, k * 4096 + 4096)
                    == entries[#[trigger] run[k]].data
            &&& done ==> {
                &&& run_is_clean(entries, after.cache.entries, run)
                &&& after.cache.failure == before.cache.failure
                &&& after.cache.metrics == (WriteBackMetrics {
                    writeback_steps: raised(metrics.writeback_steps, 1),
                    blocks_written_back: raised(metrics.blocks_written_back, run.len() as int),
                    bytes_written_back: raised(
                        metrics.bytes_written_back,
                        run.len() as int * 4096,
                    ),
                    ..metrics
                })
                &&& result is Ok
                &&& reports_run(result->Ok_0, entries, run)
            }
            &&& !done ==> {
                &&& result is Err
                &&& after.cache.entries == entries
                &&& after.cache.failure is Some
                &&& after.cache.failure->Some_0.errno == result->Err_0.errno
                &&& request->Write_reply is Err ==> result->Err_0.errno
                    == request->Write_reply->Err_0
                &&& request->Write_reply is Ok ==> result->Err_0.errno == 5
                &&& blames_run(after.cache.failure->Some_0.operation, entries, run)
                &&& after.cache.metrics == (WriteBackMetrics {
                    writeback_steps: raised(metrics.writeback_steps, 1),
                    writeback_errors: raised(metrics.writeback_errors, 1),
                    ..metrics
                })
            }
            &&& after.cache.durable == before.cache.durable
            &&& after.cache.tickets == before.cache.tickets
        }),
{
    let entries = before.cache.entries;
    law_writes_are_ordered(before.cache, run);
    lemma_cleaned(entries, run, run.len());
    assert(run.take(run.len() as int) =~= run);
    lemma_run_last(entries, run, run.len());
    lemma_run_bytes(entries, run, run.len(), 0);
    assert forall|k: int| 0 <= k < run.len() implies after.issued.last()->bytes.subrange(
        k * 4096,
        k * 4096 + 4096,
    ) == entries[#[trigger] run[k]].data by {
        lemma_run_bytes(entries, run, run.len(), k);
    }
}

/// The largest of the last sequences of a run.
pub open spec fn newest_of(entries: Seq<Slot>, run: Seq<int>, sequence: u64) -> bool {
    &&& forall|k: int| 0 <= k < run.len() ==> entries[#[trigger] run[k]].last <= sequence
    &&& exists|k: int| 0 <= k < run.len() && entries[#[trigger] run[k]].last == sequence
}

/// A report on the run: its first block, its oldest and its newest sequence.
pub open spec fn reports_run(
    progress: WriteBackProgress,
    entries: Seq<Slot>,
    run: Seq<int>,
) -> bool {
    match progress {
        WriteBackProgress::WroteBlock { block, first_sequence, last_sequence } => {
            &&& block == entries[run[0]].block
            &&& first_sequence == entries[run[0]].first
            &&& newest_of(entries, run, last_sequence)
        },
        _ => false,
    }
}

/// A failure of the run: its first block, its oldest and its newest sequence.
pub open spec fn blames_run(
    operation: WriteBackFailureOperation,
    entries: Seq<Slot>,
    run: Seq<int>,
) -> bool {
    match operation {
        WriteBackFailureOperation::Write { block, first_sequence, last_sequence } => {
            &&& block == entries[run[0]].block
            &&& first_sequence == entries[run[0]].first
            &&& newest_of(entries, run, last_sequence)
        },
        _ => false,
    }
}

/// A step of writeback that flushes: the oldest ticket is durable and gone when the disk
/// flushed, and otherwise the failure is kept and the ticket stays.
pub proof fn law_a_step_flushes_the_oldest_ticket(
    before: DiskModel,
    result: Result<WriteBackProgress, DiskError>,
    after: DiskModel,
    ticket: u64,
)
    requires
        before.cache.ordered(),
        before.cache.decision() == Decision::Flush(ticket),
        stepped(before, result, after),
    ensures
        ({
            let request = after.issued.last();
            let metrics = before.cache.metrics;
            let tickets = before.cache.tickets;
            &&& tickets.len() > 0
            &&& ticket == tickets[0]
            &&& after.issued.len() == before.issued.len() + 1
            &&& request is Flush
            &&& after.cache.entries == before.cache.entries
            &&& request->Flush_reply is Ok ==> {
                &&& after.cache.durable == tickets[0]
                &&& after.cache.tickets == tickets.subrange(1, tickets.len() as int)
                &&& result == Ok::<WriteBackProgress, DiskError>(
                    WriteBackProgress::Flushed { durable_sequence: tickets[0] },
                )
                &&& after.cache.failure == before.cache.failure
                &&& after.cache.metrics == (WriteBackMetrics {
                    writeback_steps: raised(metrics.writeback_steps, 1),
                    underlying_flushes: raised(metrics.underlying_flushes, 1),
                    ..metrics
                })
            }
            &&& request->Flush_reply is Err ==> {
                &&& result == Err::<WriteBackProgress, DiskError>(
                    DiskError { errno: request->Flush_reply->Err_0 },
                )
                &&& after.cache.durable == before.cache.durable
                &&& after.cache.tickets == tickets
                &&& after.cache.failure == Some(
                    WriteBackFailure {
                        errno: request->Flush_reply->Err_0,
                        operation: WriteBackFailureOperation::Flush {
                            requested_sequence: tickets[0],
                        },
                    },
                )
                &&& after.cache.metrics == (WriteBackMetrics {
                    writeback_steps: raised(metrics.writeback_steps, 1),
                    writeback_errors: raised(metrics.writeback_errors, 1),
                    ..metrics
                })
            }
        }),
{
}

/// What a step does: nothing but repeat the error of a cache that failed; a flush once no
/// write up to the oldest ticket is dirty; a write while something is; nothing otherwise.
pub proof fn law_a_step_does_what_is_due(
    before: DiskModel,
    result: Result<WriteBackProgress, DiskError>,
    after: DiskModel,
)
    requires
        before.cache.ordered(),
        before.cache.batch >= 1,
        stepped(before, result, after),
    ensures
        ({
            let cache = before.cache;
            let dirty = exists|i: int|
                0 <= i < cache.entries.len() && (#[trigger] cache.entries[i]).state
                    == EntryState::Dirty;
            let due = cache.tickets.len() > 0 && forall|i: int|
                0 <= i < cache.entries.len() && (#[trigger] cache.entries[i]).state
                    == EntryState::Dirty ==> cache.entries[i].first > cache.tickets[0];
            &&& cache.failure is Some ==> result == Err::<WriteBackProgress, DiskError>(
                DiskError { errno: cache.failure->Some_0.errno },
            ) && after.issued == before.issued
            &&& cache.failure is None && due ==> cache.decision() == Decision::Flush(
                cache.tickets[0],
            )
            &&& cache.failure is None && !due && dirty ==> cache.decision() is Write
            &&& cache.failure is None && !due && !dirty ==> result == Ok::<
                WriteBackProgress,
                DiskError,
            >(WriteBackProgress::Idle) && after.issued == before.issued
            &&& after.cache.metrics.writeback_steps == raised(cache.metrics.writeback_steps, 1)
        }),
{
    lemma_next_dirty(before.cache.entries, 0, before.cache.entries.len());
}

/// A drain: it makes steps while its ticket is not durable and steps are left, and says how
/// far it came.
pub proof fn law_drains_report_how_far_they_came(
    before: DiskModel,
    ticket: u64,
    max_steps: usize,
    report: DrainReport,
    after: DiskModel,
)
    requires
        drained(before, ticket, max_steps, Ok(report), after),
    ensures
        report.ticket == ticket,
        report.durable_sequence == after.cache.durable,
        report.complete <==> after.cache.durable >= ticket,
        report.dirty_remaining == dirty_entries(after.cache.entries),
        report.steps <= max_steps,
        before.cache.durable >= ticket ==> report.steps == 0 && after == before,
        max_steps == 0 ==> after == before,
{
    let trace = choose|trace: Seq<DiskModel>|
        #[trigger] drained_along(trace, before, ticket, max_steps, Ok(report), after);
    if before.cache.durable >= ticket && trace.len() > 1 {
        assert(trace[0].cache.durable < ticket);
    }
}

/// What a flush answers once it drained: an error of the writeback is an input or output
/// error, an incomplete drain asks to come again and is counted.
pub proof fn law_flushes_answer_for_their_drain(
    report: Result<DrainReport, DiskError>,
    reached: DiskModel,
    result: Result<(), DiskError>,
    after: DiskModel,
)
    requires
        flush_answered(report, reached, result, after),
    ensures
        report is Err ==> result is Err && result->Err_0.errno == 5 && after == reached,
        report is Ok && report->Ok_0.complete ==> result is Ok && after == reached,
        report is Ok && !report->Ok_0.complete ==> {
            &&& result is Err
            &&& result->Err_0.errno == 11
            &&& after.issued == reached.issued
            &&& after.cache == (CacheModel {
                metrics: WriteBackMetrics {
                    synchronous_flush_incomplete: raised(
                        reached.cache.metrics.synchronous_flush_incomplete,
                        1,
                    ),
                    ..reached.cache.metrics
                },
                ..reached.cache
            })
        },
{
}

/// A shutdown stops writes before it asks for durability, and drains up to the newest write.
pub proof fn law_shutdown_drains_to_the_newest_write(
    before: DiskModel,
    max_steps: usize,
    report: DrainReport,
    after: DiskModel,
)
    requires
        shut_down(before, max_steps, Ok(report), after),
    ensures
        before.cache.failure is None,
        report.ticket == before.cache.written,
        report.complete <==> after.cache.durable >= before.cache.written,
        after.cache.quiesced,
        report.steps <= max_steps,
{
    let stopped = CacheModel { quiesced: true, ..before.cache };
    let (requested, ticket) = stopped.durability_requested();
    let asked = DiskModel { cache: requested, ..before };
    law_drains_report_how_far_they_came(asked, ticket->Ok_0, max_steps, report, after);
    lemma_drain_keeps(asked, ticket->Ok_0, max_steps, Ok(report), after);
}

/// A new cache is empty, in memory and on the record.
pub proof fn law_new_caches_are_empty<D: BackingDisk>(
    inner: D,
    entry_count: usize,
    batch: usize,
    result: Result<WriteBackDisk<D>, WriteBackConfigError>,
)
    requires
        made(inner, entry_count, batch, result),
    ensures
        entry_count == 0 ==> result is Err && result->Err_0 == WriteBackConfigError::ZeroCapacity,
        entry_count > 0 && (batch == 0 || batch > 4) ==> result is Err && result->Err_0
            == WriteBackConfigError::InvalidWritebackBatch,
        result matches Ok(disk) ==> {
            let cache = disk.model().cache;
            &&& cache.entries.len() == entry_count
            &&& cache.batch == batch
            &&& cache.ticket_slots == entry_count + 1
            &&& disk.inner == inner
            &&& disk.issued@.len() == 0
            &&& resident_entries(cache.entries) == 0
            &&& cache.tickets.len() == 0
            &&& cache.written == 0 && cache.requested == 0 && cache.durable == 0
            &&& !cache.background && !cache.quiesced
            &&& cache.failure is None
            &&& cache.metrics.read_requests == 0 && cache.metrics.read_hits == 0
            &&& cache.metrics.write_requests == 0 && cache.metrics.writeback_steps == 0
            &&& cache.metrics.dirty_high_watermark == 0
        },
{
}

/// Leaving flushes to a worker is for good, and counted the first time only.
pub proof fn law_background_writeback_is_enabled_once(
    before: DiskModel,
    first: bool,
    after: DiskModel,
)
    requires
        enabled(before, first, after),
    ensures
        after.cache.background,
        first <==> !before.cache.background,
        !first ==> after == before,
        first ==> after.cache.metrics == (WriteBackMetrics {
            async_writeback_enables: raised(before.cache.metrics.async_writeback_enables, 1),
            ..before.cache.metrics
        }),
        after.cache.entries == before.cache.entries,
        after.cache.tickets == before.cache.tickets,
        after.issued == before.issued,
{
}

/// Stopping writes stops them, whatever comes of the durability that is asked for with it;
/// resuming takes them again unless writeback failed.
pub proof fn law_writes_stop_and_resume(
    before: DiskModel,
    stopped: Result<u64, DiskError>,
    between: DiskModel,
    result: Result<(), DiskError>,
    after: DiskModel,
)
    requires
        quieted(before, stopped, between),
        resumed(between, result, after),
    ensures
        between.cache.quiesced,
        before.cache.failure is None ==> result is Ok && !after.cache.quiesced,
        before.cache.failure is Some ==> result is Err && after.cache.quiesced && result->Err_0.errno
            == before.cache.failure->Some_0.errno,
        stopped matches Ok(ticket) ==> ticket == before.cache.written,
        after.cache.entries == before.cache.entries,
        after.cache.written == before.cache.written,
        after.cache.durable == before.cache.durable,
        after.issued == before.issued,
{
}

/// A retry forgets the failure first, and counts itself only where there was one.
pub proof fn law_retries_forget_the_failure(before: DiskModel)
    ensures
        forgiven(before).cache.failure is None,
        before.cache.failure is Some ==> forgiven(before).cache.metrics == (WriteBackMetrics {
            retries: raised(before.cache.metrics.retries, 1),
            ..before.cache.metrics
        }),
        before.cache.failure is None ==> forgiven(before) == before,
        forgiven(before).cache.entries == before.cache.entries,
        forgiven(before).cache.tickets == before.cache.tickets,
        forgiven(before).issued == before.issued,
{
}

/// A flush that a worker takes over only asks; any other one has every write durable when it
/// succeeds.
pub proof fn law_flushes_make_every_write_durable(
    before: DiskModel,
    result: Result<(), DiskError>,
    after: DiskModel,
)
    requires
        flushes(before, result, after),
    ensures
        before.cache.failure is Some ==> result == Err::<(), DiskError>(
            DiskError { errno: before.cache.failure->Some_0.errno },
        ),
        before.cache.background ==> after.issued == before.issued && after.cache.entries
            == before.cache.entries && after.cache.durable == before.cache.durable,
        before.cache.background && result is Ok ==> after.cache.requested == before.cache.written,
        !before.cache.background && result is Ok ==> after.cache.durable >= before.cache.written,
        result is Err && before.cache.failure is None ==> result->Err_0.errno == 11
            || result->Err_0.errno == 5,
{
    let (requested, ticket) = before.cache.durability_requested();
    if ticket is Ok && !before.cache.background {
        let started = DiskModel { cache: drain_counted(requested), ..before };
        let max_steps = (before.cache.entries.len() + 1) as usize;
        let (report, reached) = choose|report: Result<DrainReport, DiskError>, reached: DiskModel|
            #[trigger] drained(started, ticket->Ok_0, max_steps, report, reached)
                && #[trigger] flush_answered(report, reached, result, after);
        if let Ok(done) = report {
            law_drains_report_how_far_they_came(started, ticket->Ok_0, max_steps, done, reached);
        }
    }
}

/// A forced step is judged by what it freed: one that freed nothing stalls and refuses the
/// write, and any other one counts the entries that became free.
pub proof fn law_forced_steps_are_judged_by_what_they_free(
    model: CacheModel,
    before: usize,
    after: usize,
)
    ensures
        ({
            let judged = model.pressed(before, after);
            &&& judged.entries == model.entries
            &&& judged.written == model.written
            &&& after <= before ==> judged.metrics == (WriteBackMetrics {
                pressure_stalls: raised(model.metrics.pressure_stalls, 1),
                rejected_writes: raised(model.metrics.rejected_writes, 1),
                backpressure_events: raised(model.metrics.backpressure_events, 1),
                ..model.metrics
            })
            &&& after > before ==> judged.metrics == (WriteBackMetrics {
                pressure_entries_freed: raised(
                    model.metrics.pressure_entries_freed,
                    after - before,
                ),
                ..model.metrics
            })
        }),
{
}

/// Taking blocks numbers each of them, and only that.
proof fn lemma_taken_counts(model: CacheModel, block: u64, bytes: Seq<u8>, count: nat)
    requires
        taken(model, block, bytes, count).1,
        model.written + count <= u64::MAX,
    ensures
        ({
            let after = taken(model, block, bytes, count).0;
            &&& after.written == model.written + count
            &&& after.requested == model.requested
            &&& after.durable == model.durable
            &&& after.tickets == model.tickets
            &&& after.failure == model.failure
            &&& after.metrics.write_requests == model.metrics.write_requests
            &&& after.metrics.write_blocks_accepted == model.metrics.write_blocks_accepted
            &&& after.metrics.rejected_writes == model.metrics.rejected_writes
        }),
    decreases count,
{
    if count > 0 {
        lemma_taken_counts(model, block, bytes, (count - 1) as nat);
    }
}

/// A write for which there is room: every block is cached and dirty with its part of the
/// bytes, numbered and counted, and the answer is the number of bytes.
pub proof fn law_writes_are_cached_and_counted(
    before: DiskModel,
    block: u64,
    bytes: Seq<u8>,
    result: Result<usize, DiskError>,
    after: DiskModel,
    k: int,
)
    requires
        before.cache.ordered(),
        bytes.len() <= usize::MAX,
        bytes.len() > 0,
        bytes.len() % 4096 == 0,
        block + bytes.len() / 4096 <= u64::MAX,
        bytes.len() / 4096 <= before.cache.entries.len(),
        !before.cache.quiesced,
        before.cache.failure is None,
        before.cache.written + bytes.len() / 4096 <= u64::MAX,
        before.cache.tickets.len() == 0,
        uncached(before.cache.entries, block, bytes.len() / 4096) <= room(
            before.cache,
            block,
            (bytes.len() / 4096) as usize,
        ),
        before.cache.entries.len() <= usize::MAX,
        write_answered(before, block, bytes, result, after),
        0 <= k < bytes.len() / 4096,
    ensures
        result == Ok::<usize, DiskError>(bytes.len() as usize),
        after.issued == before.issued,
        after.cache.written == before.cache.written + bytes.len() / 4096,
        after.cache.durable == before.cache.durable,
        after.cache.metrics.write_requests == raised(before.cache.metrics.write_requests, 1),
        after.cache.metrics.write_blocks_accepted == raised(
            before.cache.metrics.write_blocks_accepted,
            bytes.len() as int / 4096,
        ),
        exists|at: int|
            0 <= at < after.cache.entries.len() && holds_dirty(
                #[trigger] after.cache.entries[at],
                block + k,
                bytes.subrange(k * 4096, k * 4096 + 4096),
            ),
{
    let count = (bytes.len() / 4096) as usize;
    let begun = write_counted(before.cache);
    lemma_uncached_bound(before.cache.entries, block, count as nat);
    let need = uncached(before.cache.entries, block, count as nat) as usize;
    assert(begun.write_checked(block, count) == (begun, Ok::<usize, DiskError>(need)));
    let ready = DiskModel { cache: begun, ..before };
    assert(room(begun, block, count) == room(before.cache, block, count));
    law_write_with_room_is_taken(ready, block, bytes, count, need, result, after);
    lemma_free_bound(begun.entries, block as int, block + count, begun.entries.len());
    law_checked_write_is_taken_whole(begun, block, bytes, count as nat, count as nat);
    lemma_taken_counts(begun, block, bytes, count as nat);
    law_written_blocks_are_cached(begun, block, bytes, count as nat, k);
    let at = find(after.cache.entries, target_of(block, k))->Some_0;
    assert(holds_dirty(
        after.cache.entries[at],
        block + k,
        bytes.subrange(k * 4096, k * 4096 + 4096),
    ));
}

/// The entry holds these bytes of this block, which have yet to be written back.
pub open spec fn holds_dirty(slot: Slot, block: int, data: Seq<u8>) -> bool {
    slot.block == block && slot.data == data && slot.state == EntryState::Dirty
}

/// No more blocks are uncached than there are.
proof fn lemma_uncached_bound(entries: Seq<Slot>, block: u64, count: nat)
    ensures
        uncached(entries, block, count) <= count,
    decreases count,
{
    if count > 0 {
        lemma_uncached_bound(entries, block, (count - 1) as nat);
    }
}

/// No more entries are free than there are.
proof fn lemma_free_bound(entries: Seq<Slot>, start: int, end: int, count: nat)
    ensures
        free_entries(entries, start, end, count) <= count,
    decreases count,
{
    if count > 0 {
        lemma_free_bound(entries, start, end, (count - 1) as nat);
    }
}

/// How a write and a read of no whole number of blocks, or beyond the last block, are answered.
pub proof fn law_transfers_of_parts_are_refused(
    before: DiskModel,
    block: u64,
    bytes: Seq<u8>,
    written: Result<usize, DiskError>,
    after_write: DiskModel,
    read: Result<Seq<u8>, DiskError>,
    after_read: DiskModel,
)
    requires
        bytes.len() <= usize::MAX,
        bytes.len() % 4096 != 0 || block + bytes.len() / 4096 > u64::MAX,
        write_answered(before, block, bytes, written, after_write),
        read_answered(before, block, bytes.len() as usize, read, after_read),
    ensures
        written == Err::<usize, DiskError>(DiskError { errno: 22 }),
        after_write == before,
        read == Err::<Seq<u8>, DiskError>(DiskError { errno: 22 }),
        after_read == before,
{
}

/// How far ahead a single missing block is read: four blocks, unless the cache has fewer
/// entries or the disk ends before.
pub proof fn law_reads_go_ahead_to_the_end(entries: int, target: int, backing_bytes: int)
    requires
        entries > 0,
        target >= 0,
        backing_bytes >= 0,
    ensures
        ({
            let window = window_spec(entries, target, backing_bytes);
            &&& 0 <= window <= 4
            &&& window <= entries
            &&& window > 0 ==> (target + window) * 4096 <= backing_bytes
            &&& window < 4 && window < entries ==> (target + window + 1) * 4096 > backing_bytes
        }),
{
}

/// What a miss asks of the disk, and what comes of it: for one missing block the size of the
/// disk first; then as many blocks from the first missing one on as are missing, or as are
/// read ahead; every one of them is asked for at its own place, and what came goes on with the
/// output.
pub proof fn law_misses_read_from_the_missing_block(
    at: Reading,
    block: u64,
    count: int,
    reply: MissReply,
    missing: int,
)
    requires
        0 <= at.offset < count,
        block + count <= u64::MAX,
        missing == miss_run(at.disk.cache.entries, block, at.offset, count),
        missing > 0,
        fetched(at, block, count, reply).1 is Ok,
    ensures
        ({
            let after = fetched(at, block, count, reply).0;
            let issued = after.disk.issued;
            let old_issued = at.disk.issued;
            let bytes = reply.data->Ok_0;
            let blocks = bytes.len() as int / 4096;
            &&& reply.data is Ok
            &&& missing == 1 ==> issued.len() == old_issued.len() + 2
                && issued[old_issued.len() as int] == (BackingRequest::Size { reply: reply.size })
                && reply.size is Ok
            &&& missing > 1 ==> issued.len() == old_issued.len() + 1 && blocks == missing
            &&& issued.last() == (BackingRequest::Read {
                block: (block + at.offset) as u64,
                length: bytes.len(),
                reply: reply.data,
            })
            &&& bytes.len() % 4096 == 0
            &&& blocks >= missing
            &&& blocks > missing ==> missing == 1 && (block + at.offset + blocks) * 4096
                <= reply.size->Ok_0 && blocks <= 4
            &&& after.offset == at.offset + missing
            &&& after.output == at.output + bytes.subrange(0, missing * 4096)
            &&& blocks > missing ==> after.disk.cache.metrics.read_ahead_requests == raised(
                before_ahead(at, block, bytes).metrics.read_ahead_requests,
                1,
            )
        }),
{
    let bytes = reply.data->Ok_0;
    assert(bytes.subrange(0, bytes.len() as int) =~= bytes);
}

/// The cache once everything that was read ahead was offered to it.
pub open spec fn before_ahead(at: Reading, block: u64, bytes: Seq<u8>) -> CacheModel {
    let target = target_of(block, at.offset);
    admitted_ahead(at.disk.cache, target, bytes, (bytes.len() / 4096) as nat).admitted(
        target,
        bytes.subrange(0, 4096),
    )
}

/// A miss that fails is counted, changes nothing else of the cache, and is told: an error of
/// the disk as it is, and a reply of the wrong length as an input or output error.
pub proof fn law_failed_misses_are_counted(
    at: Reading,
    block: u64,
    count: int,
    reply: MissReply,
)
    requires
        fetched(at, block, count, reply).1 is Err,
    ensures
        ({
            let (after, result) = fetched(at, block, count, reply);
            &&& after.disk.cache == (CacheModel {
                metrics: WriteBackMetrics {
                    read_errors: raised(at.disk.cache.metrics.read_errors, 1),
                    ..at.disk.cache.metrics
                },
                ..at.disk.cache
            })
            &&& after.offset == at.offset
            &&& after.output == at.output
            &&& {
                ||| reply.size is Err && result->Err_0.errno == reply.size->Err_0
                ||| reply.data is Err && result->Err_0.errno == reply.data->Err_0
                ||| reply.data is Ok && result->Err_0.errno == 5
            }
        }),
{
}

/// What a read counts: itself and its blocks when it begins, and every run of misses as one
/// read of the disk.
pub proof fn law_reads_count_their_blocks(cache: CacheModel, count: usize, missing: int)
    requires
        missing >= 0,
    ensures
        read_counted(cache, count) == (CacheModel {
            metrics: WriteBackMetrics {
                read_requests: raised(cache.metrics.read_requests, 1),
                read_blocks: raised(cache.metrics.read_blocks, count as int),
                ..cache.metrics
            },
            ..cache
        }),
        missed(cache, missing) == (CacheModel {
            metrics: WriteBackMetrics {
                read_misses: raised(cache.metrics.read_misses, missing),
                underlying_reads: raised(cache.metrics.underlying_reads, 1),
                ..cache.metrics
            },
            ..cache
        }),
{
}

/// Misses run from the first block that is not cached to the next one that is.
pub proof fn law_misses_run_to_the_next_cached_block(
    entries: Seq<Slot>,
    block: u64,
    offset: int,
    count: int,
)
    requires
        0 <= offset <= count,
    ensures
        ({
            let missing = miss_run(entries, block, offset, count);
            &&& 0 <= missing <= count - offset
            &&& forall|k: int|
                offset <= k < offset + missing ==> find(entries, #[trigger] target_of(block, k))
                    is None
            &&& offset + missing < count ==> find(entries, target_of(block, offset + missing))
                is Some
        }),
    decreases count - offset,
{
    if offset < count && find(entries, target_of(block, offset)) is None {
        law_misses_run_to_the_next_cached_block(entries, block, offset + 1, count);
    }
}

/// The number that scatters blocks over the lookup table.
pub proof fn law_blocks_are_scattered(block: u64)
    ensures
        ({
            let first = block ^ (block >> 30);
            let mixed = (first * 0xbf58_476d_1ce4_e5b9 % 0x1_0000_0000_0000_0000) as u64;
            let second = mixed ^ (mixed >> 27);
            let last = (second * 0x94d0_49bb_1331_11eb % 0x1_0000_0000_0000_0000) as u64;
            hash_of(block) == last ^ (last >> 31)
        }),
{
}

} // verus!
