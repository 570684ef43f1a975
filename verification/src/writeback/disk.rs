//! A write-back cache in front of a backing disk.
use vstd::prelude::*;

use crate::storage::allocated;

use super::cache::{indices, power_of_two, Cache, WritebackAction};

use super::lookup::buried;

use super::model::{
    counted, dirty_entries, no_metrics, resident_entries, run_bytes, CacheModel, Decision,
    DiskError, DrainReport, WriteBackConfigError, WriteBackFailure, WriteBackFailureOperation,
    WriteBackMetrics, WriteBackProgress, WriteBackStatus, DEFAULT_WRITEBACK_BATCH_BLOCKS, EAGAIN,
    EIO, MAX_WRITEBACK_BATCH_BLOCKS,
};

use super::transfer::{run_failure, run_report};

verus! {

/// A disk that holds the blocks.
///
/// Errors are error numbers.
pub trait BackingDisk: Sized {
    /// The disk may reply so, and be as it is after. One that does not say may reply in any way.
    open spec fn answers(before: Self, request: BackingRequest, after: Self) -> bool {
        true
    }

    /// Reads `length` bytes from a block on; a short reply is a failed read.
    fn read_at(&mut self, block: u64, length: usize) -> (outcome: Result<Vec<u8>, i32>)
        ensures
            Self::answers(
                *old(self),
                BackingRequest::Read { block, length: length as nat, reply: bytes_of(outcome) },
                *final(self),
            ),
    ;

    /// Writes bytes from a block on and says how many were written.
    fn write_at(&mut self, block: u64, bytes: &[u8]) -> (outcome: Result<usize, i32>)
        ensures
            Self::answers(
                *old(self),
                BackingRequest::Write { block, bytes: bytes@, reply: outcome },
                *final(self),
            ),
    ;

    /// Makes what was written durable.
    fn flush(&mut self) -> (outcome: Result<(), i32>)
        ensures
            Self::answers(*old(self), BackingRequest::Flush { reply: outcome }, *final(self)),
    ;

    /// Bytes of the disk.
    fn size(&mut self) -> (outcome: Result<u64, i32>)
        ensures
            Self::answers(*old(self), BackingRequest::Size { reply: outcome }, *final(self)),
    ;
}

/// The bytes of a reply.
pub open spec fn bytes_of(outcome: Result<Vec<u8>, i32>) -> Result<Seq<u8>, i32> {
    match outcome {
        Ok(bytes) => Ok(bytes@),
        Err(errno) => Err(errno),
    }
}

/// Asked these requests one after the other, a disk gave the replies in them and is `to` after.
pub open spec fn answered_along<D: BackingDisk>(
    from: D,
    requests: Seq<BackingRequest>,
    to: D,
) -> bool
    decreases requests.len(),
{
    if requests.len() == 0 {
        from == to
    } else {
        exists|middle: D| #[trigger]
            D::answers(middle, requests.last(), to) && answered_along(
                from,
                requests.drop_last(),
                middle,
            )
    }
}

/// Of two states of a disk and of the log of what was asked of it, the second comes after the
/// first by what the log has more.
pub open spec fn asked<D: BackingDisk>(
    before: (D, Seq<BackingRequest>),
    after: (D, Seq<BackingRequest>),
) -> bool {
    &&& before.1.is_prefix_of(after.1)
    &&& answered_along(before.0, after.1.skip(before.1.len() as int), after.0)
}

/// The disk was asked at most once.
pub open spec fn asked_once<D: BackingDisk>(
    before: (D, Seq<BackingRequest>),
    after: (D, Seq<BackingRequest>),
) -> bool {
    ||| after == before
    ||| after.1 == before.1.push(after.1.last()) && D::answers(before.0, after.1.last(), after.0)
}

/// Nothing asked is nothing more in the log.
pub(crate) proof fn lemma_asked_nothing<D: BackingDisk>(at: (D, Seq<BackingRequest>))
    ensures
        asked(at, at),
{
    assert(at.1 =~= at.1.subrange(0, at.1.len() as int));
    assert(at.1.skip(at.1.len() as int).len() == 0);
}

/// One more request is one more in the log.
pub(crate) proof fn lemma_asked_more<D: BackingDisk>(
    start: (D, Seq<BackingRequest>),
    before: (D, Seq<BackingRequest>),
    after: (D, Seq<BackingRequest>),
)
    requires
        asked(start, before),
        asked_once(before, after),
    ensures
        asked(start, after),
{
    if after != before {
        let base = start.1.len() as int;
        assert(start.1 =~= after.1.subrange(0, base)) by {
            assert forall|i: int| 0 <= i < base implies start.1[i] == #[trigger] after.1[i] by {
                assert(start.1[i] == before.1.subrange(0, base)[i]);
            }
        }
        let more = after.1.skip(base);
        assert(more.drop_last() =~= before.1.skip(base));
        assert(more.last() == after.1.last());
        assert(more.len() > 0);
        assert(answered_along(start.0, more.drop_last(), before.0));
        assert(D::answers(before.0, more.last(), after.0));
        assert(answered_along(start.0, more, after.0));
        assert(start.1.is_prefix_of(after.1));
    }
}

/// What was asked of the backing disk, and what it replied.
#[verifier::ext_equal]
pub enum BackingRequest {
    Read { block: u64, length: nat, reply: Result<Seq<u8>, i32> },
    Write { block: u64, bytes: Seq<u8>, reply: Result<usize, i32> },
    Flush { reply: Result<(), i32> },
    Size { reply: Result<u64, i32> },
}

/// A cache and what was asked of its backing disk.
#[verifier::ext_equal]
pub struct DiskModel {
    pub cache: CacheModel,
    pub issued: Seq<BackingRequest>,
}

/// A disk whose writes are taken by a cache and written back later.
pub struct WriteBackDisk<D> {
    pub inner: D,
    pub cache: Cache,
    pub issued: Ghost<Seq<BackingRequest>>,
}

/// With one more writeback step counted.
pub open spec fn begun(cache: CacheModel) -> CacheModel {
    CacheModel {
        metrics: WriteBackMetrics {
            writeback_steps: counted(cache.metrics.writeback_steps),
            ..cache.metrics
        },
        ..cache
    }
}

/// A writeback step: what was asked of the backing disk, and what its reply made of it.
pub open spec fn stepped(
    before: DiskModel,
    result: Result<WriteBackProgress, DiskError>,
    after: DiskModel,
) -> bool {
    let started = begun(before.cache);
    match before.cache.decision() {
        Decision::Failed(errno) => {
            &&& result == Err::<WriteBackProgress, DiskError>(DiskError { errno })
            &&& after == (DiskModel { cache: started, ..before })
        },
        Decision::Idle => {
            &&& result == Ok::<WriteBackProgress, DiskError>(WriteBackProgress::Idle)
            &&& after == (DiskModel { cache: started, ..before })
        },
        Decision::Flush(ticket) => {
            &&& after.issued == before.issued.push(after.issued.last())
            &&& after.issued.last() matches BackingRequest::Flush { reply }
            &&& match reply {
                Ok(()) => {
                    &&& result == Ok::<WriteBackProgress, DiskError>(
                        WriteBackProgress::Flushed { durable_sequence: ticket },
                    )
                    &&& after.cache == started.flushed()
                },
                Err(errno) => {
                    &&& result == Err::<WriteBackProgress, DiskError>(DiskError { errno })
                    &&& after.cache == started.failed(
                        errno,
                        WriteBackFailureOperation::Flush { requested_sequence: ticket },
                    )
                },
            }
        },
        Decision::Write(run) => {
            let entries = before.cache.entries;
            &&& after.issued == before.issued.push(after.issued.last())
            &&& after.issued.last() matches BackingRequest::Write { block, bytes, reply }
            &&& block == entries[run[0]].block
            &&& bytes == run_bytes(entries, run, run.len())
            &&& if reply == Ok::<usize, i32>((run.len() * 4096) as usize) {
                &&& result == Ok::<WriteBackProgress, DiskError>(run_report(entries, run))
                &&& after.cache == started.wrote(run)
            } else {
                let errno = match reply {
                    Ok(_) => EIO,
                    Err(errno) => errno,
                };
                &&& result == Err::<WriteBackProgress, DiskError>(DiskError { errno })
                &&& after.cache == started.failed(errno, run_failure(entries, run))
            }
        },
    }
}

/// A step that wrote or flushed.
pub open spec fn worked(before: DiskModel, after: DiskModel) -> bool {
    exists|progress: WriteBackProgress|
        progress != WriteBackProgress::Idle && #[trigger] stepped(before, Ok(progress), after)
}

/// States between the steps of a drain that has not reached its ticket.
pub open spec fn drain_trace(trace: Seq<DiskModel>, before: DiskModel, ticket: u64) -> bool {
    &&& trace.len() > 0
    &&& trace[0] == before
    &&& forall|i: int, j: int|
        0 <= i && j == i + 1 && j < trace.len() ==> worked(#[trigger] trace[i], #[trigger] trace[j])
    &&& forall|i: int|
        0 <= i < trace.len() - 1 ==> (#[trigger] trace[i]).cache.durable < ticket
}

/// A drain along the states of `trace`.
pub open spec fn drained_along(
    trace: Seq<DiskModel>,
    before: DiskModel,
    ticket: u64,
    max_steps: usize,
    result: Result<DrainReport, DiskError>,
    after: DiskModel,
) -> bool {
    let last = trace.last();
    let steps = trace.len() - 1;
    &&& drain_trace(trace, before, ticket)
    &&& steps <= max_steps
    &&& match result {
        Ok(report) => {
            &&& report.ticket == ticket
            &&& report.steps == steps
            &&& report.durable_sequence == after.cache.durable
            &&& report.dirty_remaining == dirty_entries(after.cache.entries)
            &&& report.complete == (after.cache.durable >= ticket)
            &&& if steps < max_steps && last.cache.durable < ticket {
                stepped(last, Ok(WriteBackProgress::Idle), after)
            } else {
                after == last
            }
        },
        Err(error) => steps < max_steps && last.cache.durable < ticket && stepped(
            last,
            Err(error),
            after,
        ),
    }
}

/// A drain: steps until the ticket is durable, nothing is left to do, a step fails, or
/// there were `max_steps`.
pub open spec fn drained(
    before: DiskModel,
    ticket: u64,
    max_steps: usize,
    result: Result<DrainReport, DiskError>,
    after: DiskModel,
) -> bool {
    exists|trace: Seq<DiskModel>|
        #[trigger] drained_along(trace, before, ticket, max_steps, result, after)
}

/// With one more drain for a flush counted.
pub open spec fn drain_counted(cache: CacheModel) -> CacheModel {
    CacheModel {
        metrics: WriteBackMetrics {
            synchronous_flush_drains: counted(cache.metrics.synchronous_flush_drains),
            ..cache.metrics
        },
        ..cache
    }
}

/// With one more incomplete drain for a flush counted.
pub open spec fn incomplete_counted(cache: CacheModel) -> CacheModel {
    CacheModel {
        metrics: WriteBackMetrics {
            synchronous_flush_incomplete: counted(cache.metrics.synchronous_flush_incomplete),
            ..cache.metrics
        },
        ..cache
    }
}

/// What a flush makes of the result of its drain.
pub open spec fn flush_answered(
    report: Result<DrainReport, DiskError>,
    drained: DiskModel,
    result: Result<(), DiskError>,
    after: DiskModel,
) -> bool {
    match report {
        Err(_) => {
            &&& result == Err::<(), DiskError>(DiskError { errno: EIO })
            &&& after == drained
        },
        Ok(report) => if report.complete {
            &&& result == Ok::<(), DiskError>(())
            &&& after == drained
        } else {
            &&& result == Err::<(), DiskError>(DiskError { errno: EAGAIN })
            &&& after == (DiskModel { cache: incomplete_counted(drained.cache), ..drained })
        },
    }
}

/// A synchronous flush: a drain, and the answer to it.
pub open spec fn flushed_by(
    before: DiskModel,
    ticket: u64,
    max_steps: usize,
    result: Result<(), DiskError>,
    after: DiskModel,
) -> bool {
    exists|report: Result<DrainReport, DiskError>, reached: DiskModel|
        #[trigger] drained(before, ticket, max_steps, report, reached) && #[trigger] flush_answered(
            report,
            reached,
            result,
            after,
        )
}

/// What a step leaves alone.
pub(crate) proof fn lemma_step_keeps(
    before: DiskModel,
    result: Result<WriteBackProgress, DiskError>,
    after: DiskModel,
)
    requires
        stepped(before, result, after),
    ensures
        after.cache.written == before.cache.written,
        after.cache.requested == before.cache.requested,
        after.cache.background == before.cache.background,
        after.cache.quiesced == before.cache.quiesced,
        before.issued.is_prefix_of(after.issued),
{
    assert(before.issued =~= after.issued.subrange(0, before.issued.len() as int));
}

/// One more step of a drain.
proof fn lemma_trace_grows(
    trace: Seq<DiskModel>,
    before: DiskModel,
    ticket: u64,
    progress: WriteBackProgress,
    next: DiskModel,
)
    requires
        drain_trace(trace, before, ticket),
        trace.last().cache.durable < ticket,
        progress != WriteBackProgress::Idle,
        stepped(trace.last(), Ok(progress), next),
    ensures
        drain_trace(trace.push(next), before, ticket),
{
    let longer = trace.push(next);
    assert(worked(trace.last(), next));
    assert forall|i: int, j: int| 0 <= i && j == i + 1 && j < longer.len() implies worked(
        #[trigger] longer[i],
        #[trigger] longer[j],
    ) by {
        if j < trace.len() {
            assert(worked(trace[i], trace[j]));
        }
    }
}

/// A drain keeps the write sequence and what is configured.
pub proof fn law_drain_keeps_sequence(
    trace: Seq<DiskModel>,
    before: DiskModel,
    ticket: u64,
    at: int,
)
    requires
        drain_trace(trace, before, ticket),
        0 <= at < trace.len(),
    ensures
        trace[at].cache.written == before.cache.written,
        trace[at].cache.requested == before.cache.requested,
        trace[at].cache.background == before.cache.background,
        trace[at].cache.quiesced == before.cache.quiesced,
        before.issued.is_prefix_of(trace[at].issued),
    decreases at,
{
    if at > 0 {
        law_drain_keeps_sequence(trace, before, ticket, at - 1);
        assert(worked(trace[at - 1], trace[at]));
        let progress = choose|progress: WriteBackProgress|
            progress != WriteBackProgress::Idle && #[trigger] stepped(
                trace[at - 1],
                Ok(progress),
                trace[at],
            );
        lemma_step_keeps(trace[at - 1], Ok(progress), trace[at]);
    } else {
        assert(before.issued =~= before.issued.subrange(0, before.issued.len() as int));
    }
}

impl<D: BackingDisk> WriteBackDisk<D> {
    /// The cache and what was asked of the backing disk.
    pub open spec fn model(&self) -> DiskModel {
        DiskModel { cache: self.cache.model(), issued: self.issued@ }
    }

    /// The backing disk, and what was asked of it.
    pub open spec fn history(&self) -> (D, Seq<BackingRequest>) {
        (self.inner, self.issued@)
    }

    /// The cache is consistent.
    pub open spec fn wf(&self) -> bool {
        self.cache.wf()
    }

    /// Puts a cache of `entry_count` blocks in front of a disk.
    pub fn new(inner: D, entry_count: usize) -> (result: Result<Self, WriteBackConfigError>)
        ensures
            made(inner, entry_count, DEFAULT_WRITEBACK_BATCH_BLOCKS, result),
    {
        Self::try_new(inner, entry_count)
    }

    /// Puts a cache of `entry_count` blocks in front of a disk.
    pub fn try_new(inner: D, entry_count: usize) -> (result: Result<Self, WriteBackConfigError>)
        ensures
            made(inner, entry_count, DEFAULT_WRITEBACK_BATCH_BLOCKS, result),
    {
        Self::try_new_with_writeback_batch(inner, entry_count, DEFAULT_WRITEBACK_BATCH_BLOCKS)
    }

    /// Puts a cache of `entry_count` blocks in front of a disk, with the number of blocks
    /// that one writeback step writes at most.
    pub fn try_new_with_writeback_batch(
        inner: D,
        entry_count: usize,
        writeback_batch_blocks: usize,
    ) -> (result: Result<Self, WriteBackConfigError>)
        ensures
            made(inner, entry_count, writeback_batch_blocks, result),
    {
        match Cache::try_new(entry_count, writeback_batch_blocks) {
            Err(error) => Err(error),
            Ok(cache) => Ok(WriteBackDisk { inner, cache, issued: Ghost(Seq::empty()) }),
        }
    }

    /// The backing disk.
    pub fn inner(&self) -> (inner: &D)
        ensures
            *inner == self.inner,
    {
        &self.inner
    }

    /// The backing disk, to be changed. What is written to it directly goes past the cache.
    pub fn inner_mut(&mut self) -> (inner: &mut D)
        ensures
            *inner == old(self).inner,
            *final(self) == (WriteBackDisk { inner: *final(inner), ..*old(self) }),
    {
        &mut self.inner
    }

    /// Gives the backing disk back. What is still dirty is lost.
    pub fn into_inner(self) -> (inner: D)
        ensures
            inner == self.inner,
    {
        self.inner
    }

    /// The newest write whose durability was requested.
    pub fn requested_sequence(&self) -> (sequence: u64)
        ensures
            sequence == self.model().cache.requested,
    {
        self.cache.requested_sequence
    }

    /// The newest write that is durable.
    pub fn durable_sequence(&self) -> (sequence: u64)
        ensures
            sequence == self.model().cache.durable,
    {
        self.cache.durable_sequence
    }

    /// The newest write whose durability was requested.
    pub fn requested_flush_sequence(&self) -> (sequence: u64)
        ensures
            sequence == self.model().cache.requested,
    {
        self.cache.requested_sequence
    }

    /// The newest write that is durable.
    pub fn durable_flush_sequence(&self) -> (sequence: u64)
        ensures
            sequence == self.model().cache.durable,
    {
        self.cache.durable_sequence
    }

    /// Blocks that have yet to be written back.
    pub fn dirty_count(&self) -> (count: usize)
        requires
            self.wf(),
        ensures
            count == dirty_entries(self.model().cache.entries),
    {
        self.cache.dirty_count
    }

    /// Switches flushes for good to writeback by a worker; `true` for the first call only.
    pub fn enable_async_writeback(&mut self) -> (first: bool)
        requires
            old(self).wf(),
        ensures
            final(self).wf(),
            final(self).inner == old(self).inner,
            enabled(old(self).model(), first, final(self).model()),
    {
        if self.cache.async_writeback_enabled {
            return false;
        }
        self.cache.async_writeback_enabled = true;
        self.cache.metrics.async_writeback_enables =
        self.cache.metrics.async_writeback_enables.saturating_add(1);
        proof {
            self.cache.lemma_same_entries(old(self).cache);
        }
        true
    }

    /// Flushes are left to a worker.
    pub fn async_writeback_enabled(&self) -> (enabled: bool)
        ensures
            enabled == self.model().cache.background,
    {
        self.cache.async_writeback_enabled
    }

    /// Flushes are left to a worker.
    pub fn is_async_writeback_enabled(&self) -> (enabled: bool)
        ensures
            enabled == self.model().cache.background,
    {
        self.cache.async_writeback_enabled
    }

    /// New writes were stopped.
    pub fn is_quiesced(&self) -> (quiesced: bool)
        ensures
            quiesced == self.model().cache.quiesced,
    {
        self.cache.quiesced
    }

    /// New writes are refused.
    pub fn is_read_only(&self) -> (read_only: bool)
        ensures
            read_only == self.model().cache.read_only(),
    {
        self.cache.quiesced || self.cache.failure.is_some()
    }

    /// The writeback failure that has yet to be retried.
    pub fn failure(&self) -> (failure: Option<WriteBackFailure>)
        ensures
            failure == self.model().cache.failure,
    {
        self.cache.failure
    }

    /// What was counted so far.
    pub fn metrics(&self) -> (metrics: WriteBackMetrics)
        ensures
            metrics == self.model().cache.metrics,
    {
        self.cache.metrics
    }

    /// The state of the cache.
    pub fn status(&self) -> (status: WriteBackStatus)
        requires
            self.wf(),
        ensures
            ({
                let cache = self.model().cache;
                &&& status.write_sequence == cache.written
                &&& status.requested_sequence == cache.requested
                &&& status.durable_sequence == cache.durable
                &&& status.dirty_count == dirty_entries(cache.entries)
                &&& status.resident_count == resident_entries(cache.entries)
                &&& status.entry_count == cache.entries.len()
                &&& status.lookup_slot_count == cache.lookup.len()
                &&& status.flush_ticket_slot_count == cache.ticket_slots
                &&& status.pending_flush_tickets == cache.tickets.len()
                &&& status.entry_allocation_capacity >= cache.entries.len()
                &&& status.lookup_allocation_capacity >= cache.lookup.len()
                &&& status.flush_ticket_allocation_capacity >= cache.ticket_slots
                &&& status.lookup_tombstones == buried(cache.lookup, cache.lookup.len())
                &&& status.writeback_batch_blocks == cache.batch
                &&& status.async_writeback_enabled == cache.background
                &&& status.quiesced == cache.quiesced
                &&& status.read_only == cache.read_only()
                &&& status.failure == cache.failure
            }),
    {
        WriteBackStatus {
            write_sequence: self.cache.write_sequence,
            requested_sequence: self.cache.requested_sequence,
            durable_sequence: self.cache.durable_sequence,
            dirty_count: self.cache.dirty_count,
            resident_count: self.cache.resident_count,
            entry_count: self.cache.entries.len(),
            lookup_slot_count: self.cache.lookup.slots.len(),
            flush_ticket_slot_count: self.cache.flush_tickets.len(),
            pending_flush_tickets: self.cache.flush_ticket_len,
            entry_allocation_capacity: allocated(&self.cache.entries),
            lookup_allocation_capacity: allocated(&self.cache.lookup.slots),
            flush_ticket_allocation_capacity: allocated(&self.cache.flush_tickets),
            lookup_tombstones: self.cache.lookup.tombstones,
            writeback_batch_blocks: self.cache.writeback_batch_blocks,
            async_writeback_enabled: self.cache.async_writeback_enabled,
            quiesced: self.cache.quiesced,
            read_only: self.is_read_only(),
            failure: self.cache.failure,
        }
    }

    /// Stops new writes and requests durability of every accepted write.
    pub fn quiesce(&mut self) -> (result: Result<u64, DiskError>)
        requires
            old(self).wf(),
        ensures
            final(self).wf(),
            final(self).inner == old(self).inner,
            quieted(old(self).model(), result, final(self).model()),
    {
        self.cache.quiesced = true;
        proof {
            self.cache.lemma_same_entries(old(self).cache);
        }
        self.cache.request_durability()
    }

    /// Accepts writes again, unless writeback failed.
    pub fn resume_after_quiesce(&mut self) -> (result: Result<(), DiskError>)
        requires
            old(self).wf(),
        ensures
            final(self).wf(),
            final(self).inner == old(self).inner,
            resumed(old(self).model(), result, final(self).model()),
    {
        if let Some(failure) = self.cache.failure {
            return Err(DiskError { errno: failure.errno });
        }
        self.cache.quiesced = false;
        proof {
            self.cache.lemma_same_entries(old(self).cache);
        }
        Ok(())
    }

    /// Performs one writeback step: writes the oldest dirty blocks, or flushes once the
    /// oldest ticket has reached its barrier.
    pub fn writeback_step(&mut self) -> (result: Result<WriteBackProgress, DiskError>)
        requires
            old(self).wf(),
        ensures
            final(self).wf(),
            stepped(old(self).model(), result, final(self).model()),
            asked_once(old(self).history(), final(self).history()),
    {
        let ghost before = self.model();
        match self.cache.begin_step() {
            WritebackAction::Failed(errno) => Err(DiskError { errno }),
            WritebackAction::Idle => Ok(WriteBackProgress::Idle),
            WritebackAction::Flush(ticket) => {
                let outcome: Result<(), i32> = self.inner.flush();
                self.issued = Ghost(self.issued@.push(BackingRequest::Flush { reply: outcome }));
                assert(self.issued@.last() == BackingRequest::Flush { reply: outcome });
                assert(self.cache.model().decision() == before.cache.decision());
                self.cache.finish_flush(ticket, outcome)
            },
            WritebackAction::Write { block, bytes, run } => {
                let outcome: Result<usize, i32> = self.inner.write_at(block, bytes.as_slice());
                self.issued =
                Ghost(
                    self.issued@.push(
                        BackingRequest::Write { block, bytes: bytes@, reply: outcome },
                    ),
                );
                assert(self.issued@.last() == BackingRequest::Write {
                    block,
                    bytes: bytes@,
                    reply: outcome,
                });
                assert(run@.len() == indices(run@).len());
                self.cache.finish_write(&run, outcome)
            },
        }
    }

    /// Forgets a writeback failure and retries one step.
    pub fn retry_writeback_step(&mut self) -> (result: Result<WriteBackProgress, DiskError>)
        requires
            old(self).wf(),
        ensures
            final(self).wf(),
            stepped(
                forgiven(old(self).model()),
                result,
                final(self).model(),
            ),
            asked_once(old(self).history(), final(self).history()),
    {
        if self.cache.failure.is_some() {
            self.cache.failure = None;
            self.cache.metrics.retries = self.cache.metrics.retries.saturating_add(1);
            proof {
                self.cache.lemma_same_entries(old(self).cache);
            }
        }
        self.writeback_step()
    }

    /// Advances a requested ticket by at most `max_steps` steps.
    pub fn drain_ticket(&mut self, ticket: u64, max_steps: usize) -> (result: Result<
        DrainReport,
        DiskError,
    >)
        requires
            old(self).wf(),
        ensures
            final(self).wf(),
            drained(old(self).model(), ticket, max_steps, result, final(self).model()),
            asked(old(self).history(), final(self).history()),
    {
        proof {
            lemma_asked_nothing(self.history());
        }
        let ghost before = self.model();
        let ghost mut trace = seq![before];
        assert(drain_trace(trace, before, ticket));
        let mut steps: usize = 0;
        while steps < max_steps && self.cache.durable_sequence < ticket
            invariant_except_break
                trace.last() == self.model(),
            invariant
                self.wf(),
                asked(old(self).history(), self.history()),
                before == old(self).model(),
                steps <= max_steps,
                trace.len() == steps + 1,
                drain_trace(trace, before, ticket),
            ensures
                self.wf(),
                asked(old(self).history(), self.history()),
                steps <= max_steps,
                trace.len() == steps + 1,
                drain_trace(trace, before, ticket),
                if steps < max_steps && trace.last().cache.durable < ticket {
                    stepped(trace.last(), Ok(WriteBackProgress::Idle), self.model())
                } else {
                    self.model() == trace.last()
                },
            decreases max_steps - steps,
        {
            let ghost earlier = self.history();
            let result: Result<WriteBackProgress, DiskError> = self.writeback_step();
            proof {
                lemma_asked_more(old(self).history(), earlier, self.history());
            }
            match result {
                Err(error) => {
                    let answer: Result<DrainReport, DiskError> = Err(error);
                    assert(drained_along(trace, before, ticket, max_steps, answer, self.model()));
                    return answer;
                },
                Ok(WriteBackProgress::Idle) => {
                    break ;
                },
                Ok(progress) => {
                    proof {
                        lemma_trace_grows(trace, before, ticket, progress, self.model());
                        trace = trace.push(self.model());
                    }
                    steps += 1;
                },
            }
        }
        let answer: Result<DrainReport, DiskError> = Ok(
            DrainReport {
                ticket,
                durable_sequence: self.cache.durable_sequence,
                dirty_remaining: self.cache.dirty_count,
                steps,
                complete: self.cache.durable_sequence >= ticket,
            },
        );
        assert(drained_along(trace, before, ticket, max_steps, answer, self.model()));
        answer
    }

    /// Stops new writes and drains what was accepted, within `max_steps` steps.
    ///
    /// Writes stay stopped, whatever comes of it.
    pub fn shutdown_drain(&mut self, max_steps: usize) -> (result: Result<DrainReport, DiskError>)
        requires
            old(self).wf(),
        ensures
            final(self).wf(),
            shut_down(old(self).model(), max_steps, result, final(self).model()),
            asked(old(self).history(), final(self).history()),
            final(self).model().cache.quiesced,
    {
        proof {
            lemma_asked_nothing(self.history());
        }
        match self.quiesce() {
            Err(error) => Err(error),
            Ok(ticket) => {
                let ghost stopped = self.model();
                let result: Result<DrainReport, DiskError> = self.drain_ticket(ticket, max_steps);
                proof {
                    lemma_drain_keeps(stopped, ticket, max_steps, result, self.model());
                }
                result
            },
        }
    }

    /// Stops new writes and drains what was accepted, within `max_steps` steps.
    pub fn quiesce_and_drain(&mut self, max_steps: usize) -> (result: Result<
        DrainReport,
        DiskError,
    >)
        requires
            old(self).wf(),
        ensures
            final(self).wf(),
            shut_down(old(self).model(), max_steps, result, final(self).model()),
            asked(old(self).history(), final(self).history()),
            final(self).model().cache.quiesced,
    {
        self.shutdown_drain(max_steps)
    }

    /// Requests durability of every accepted write and, unless a worker writes back,
    /// drains within as many steps as there are blocks, and one for the flush.
    pub fn flush(&mut self) -> (result: Result<(), DiskError>)
        requires
            old(self).wf(),
        ensures
            final(self).wf(),
            flushes(old(self).model(), result, final(self).model()),
            asked(old(self).history(), final(self).history()),
            result is Ok && !old(self).model().cache.background ==> final(self).model().cache.durable == old(self).model().cache.written,
    {
        proof {
            lemma_asked_nothing(self.history());
        }
        let ticket: u64 = match self.cache.request_durability() {
            Err(error) => {
                return Err(error);
            },
            Ok(ticket) => ticket,
        };
        if self.cache.async_writeback_enabled {
            return Ok(());
        }
        let ghost asked = *self;
        self.cache.metrics.synchronous_flush_drains =
        self.cache.metrics.synchronous_flush_drains.saturating_add(1);
        proof {
            self.cache.lemma_same_entries(asked.cache);
        }
        assert(self.cache.flush_tickets.len() == self.cache.entries@.len() + 1);
        let max_steps: usize = self.cache.entries.len() + 1;
        let ghost started = self.model();
        let report: Result<DrainReport, DiskError> = self.drain_ticket(ticket, max_steps);
        let ghost reached = self.model();
        proof {
            lemma_drain_keeps(started, ticket, max_steps, report, reached);
        }
        match report {
            Err(_) => {
                assert(flush_answered(
                    report,
                    reached,
                    Err::<(), DiskError>(DiskError { errno: EIO }),
                    self.model(),
                ));
                Err(DiskError { errno: EIO })
            },
            Ok(done) => {
                if done.complete {
                    assert(flush_answered(report, reached, Ok::<(), DiskError>(()), self.model()));
                    Ok(())
                } else {
                    let ghost incomplete = *self;
                    self.cache.metrics.synchronous_flush_incomplete =
                    self.cache.metrics.synchronous_flush_incomplete.saturating_add(1);
                    proof {
                        self.cache.lemma_same_entries(incomplete.cache);
                    }
                    assert(flush_answered(
                        report,
                        reached,
                        Err::<(), DiskError>(DiskError { errno: EAGAIN }),
                        self.model(),
                    ));
                    Err(DiskError { errno: EAGAIN })
                }
            },
        }
    }

    /// Bytes of the backing disk.
    pub fn size(&mut self) -> (result: Result<u64, DiskError>)
        requires
            old(self).wf(),
        ensures
            final(self).wf(),
            final(self).cache == old(self).cache,
            asked_once(old(self).history(), final(self).history()),
            ({
                let issued = final(self).issued@;
                &&& issued == old(self).issued@.push(issued.last())
                &&& issued.last() matches BackingRequest::Size { reply }
                &&& result == (match reply {
                    Ok(bytes) => Ok(bytes),
                    Err(errno) => Err(DiskError { errno }),
                })
            }),
    {
        let outcome: Result<u64, i32> = self.inner.size();
        self.issued = Ghost(self.issued@.push(BackingRequest::Size { reply: outcome }));
        assert(self.issued@.last() == BackingRequest::Size { reply: outcome });
        match outcome {
            Ok(bytes) => Ok(bytes),
            Err(errno) => Err(DiskError { errno }),
        }
    }
}

/// Flushes are left to a worker from now on; `first` tells whether they were not before.
pub open spec fn enabled(before: DiskModel, first: bool, after: DiskModel) -> bool {
    &&& first == !before.cache.background
    &&& after == (if first {
        DiskModel {
            cache: CacheModel {
                background: true,
                metrics: WriteBackMetrics {
                    async_writeback_enables: counted(before.cache.metrics.async_writeback_enables),
                    ..before.cache.metrics
                },
                ..before.cache
            },
            ..before
        }
    } else {
        before
    })
}

/// New writes are stopped, and durability is requested.
pub open spec fn quieted(
    before: DiskModel,
    result: Result<u64, DiskError>,
    after: DiskModel,
) -> bool {
    let stopped = CacheModel { quiesced: true, ..before.cache };
    &&& result == stopped.durability_requested().1
    &&& after == (DiskModel { cache: stopped.durability_requested().0, ..before })
}

/// Writes are accepted again, unless writeback failed.
pub open spec fn resumed(
    before: DiskModel,
    result: Result<(), DiskError>,
    after: DiskModel,
) -> bool {
    match before.cache.failure {
        Some(failure) => {
            &&& result == Err::<(), DiskError>(DiskError { errno: failure.errno })
            &&& after == before
        },
        None => {
            &&& result == Ok::<(), DiskError>(())
            &&& after == (DiskModel {
                cache: CacheModel { quiesced: false, ..before.cache },
                ..before
            })
        },
    }
}

/// A failure is forgotten, to try again.
pub open spec fn forgiven(before: DiskModel) -> DiskModel {
    if before.cache.failure is Some {
        DiskModel {
            cache: CacheModel {
                failure: None,
                metrics: WriteBackMetrics {
                    retries: counted(before.cache.metrics.retries),
                    ..before.cache.metrics
                },
                ..before.cache
            },
            ..before
        }
    } else {
        before
    }
}

/// Durability is requested and, unless a worker writes back, its ticket is drained.
pub open spec fn flushes(
    before: DiskModel,
    result: Result<(), DiskError>,
    after: DiskModel,
) -> bool {
    let (requested, ticket) = before.cache.durability_requested();
    let asked = DiskModel { cache: requested, ..before };
    match ticket {
        Err(error) => {
            &&& result == Err::<(), DiskError>(error)
            &&& after == asked
        },
        Ok(ticket) => if before.cache.background {
            &&& result == Ok::<(), DiskError>(())
            &&& after == asked
        } else {
            flushed_by(
                DiskModel { cache: drain_counted(requested), ..asked },
                ticket,
                (before.cache.entries.len() + 1) as usize,
                result,
                after,
            )
        },
    }
}

/// Making a cache: an empty one, or why there is none.
pub open spec fn made<D: BackingDisk>(
    inner: D,
    entry_count: usize,
    batch: usize,
    result: Result<WriteBackDisk<D>, WriteBackConfigError>,
) -> bool {
    match result {
        Ok(disk) => {
            let cache = disk.model().cache;
            &&& entry_count > 0
            &&& 1 <= batch <= MAX_WRITEBACK_BATCH_BLOCKS
            &&& disk.wf()
            &&& disk.inner == inner
            &&& disk.issued@.len() == 0
            &&& cache.entries.len() == entry_count
            &&& cache.batch == batch
            &&& resident_entries(cache.entries) == 0
            &&& cache.tickets.len() == 0
            &&& cache.written == 0
            &&& cache.requested == 0
            &&& cache.durable == 0
            &&& !cache.background
            &&& !cache.quiesced
            &&& cache.failure is None
            &&& cache.metrics == no_metrics()
            &&& power_of_two(cache.lookup.len() as int)
            &&& cache.lookup.len() / 2 < 2 * entry_count <= cache.lookup.len()
            &&& buried(cache.lookup, cache.lookup.len()) == 0
        },
        Err(error) => if entry_count == 0 {
            error == WriteBackConfigError::ZeroCapacity
        } else if batch == 0 || batch > MAX_WRITEBACK_BATCH_BLOCKS {
            error == WriteBackConfigError::InvalidWritebackBatch
        } else {
            ||| error == WriteBackConfigError::CapacityOverflow && entry_count > usize::MAX / 4
            ||| error == WriteBackConfigError::AllocationFailed
        },
    }
}

/// A shutdown: new writes are stopped, durability is requested, and the ticket is drained.
pub open spec fn shut_down(
    before: DiskModel,
    max_steps: usize,
    result: Result<DrainReport, DiskError>,
    after: DiskModel,
) -> bool {
    let stopped = CacheModel { quiesced: true, ..before.cache };
    let (requested, ticket) = stopped.durability_requested();
    let asked = DiskModel { cache: requested, ..before };
    match ticket {
        Err(error) => {
            &&& result == Err::<DrainReport, DiskError>(error)
            &&& after == asked
        },
        Ok(ticket) => drained(asked, ticket, max_steps, result, after),
    }
}

/// What a drain leaves alone.
pub(crate) proof fn lemma_drain_keeps(
    before: DiskModel,
    ticket: u64,
    max_steps: usize,
    result: Result<DrainReport, DiskError>,
    after: DiskModel,
)
    requires
        drained(before, ticket, max_steps, result, after),
    ensures
        after.cache.written == before.cache.written,
        after.cache.quiesced == before.cache.quiesced,
{
    let trace = choose|trace: Seq<DiskModel>|
        #[trigger] drained_along(trace, before, ticket, max_steps, result, after);
    law_drain_keeps_sequence(trace, before, ticket, trace.len() - 1);
    match result {
        Ok(_) => if trace.len() - 1 < max_steps && trace.last().cache.durable < ticket {
            lemma_step_keeps(trace.last(), Ok(WriteBackProgress::Idle), after);
        },
        Err(error) => {
            lemma_step_keeps(trace.last(), Err(error), after);
        },
    }
}

} // verus!
