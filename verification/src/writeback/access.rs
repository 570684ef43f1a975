//! Reads and writes of a disk behind its cache.
use vstd::prelude::*;

use super::cache::transfer_spec;
use super::disk::{
    asked, asked_once, bytes_of, lemma_asked_more, lemma_asked_nothing, stepped, BackingDisk, BackingRequest, DiskModel, WriteBackDisk};
use super::laws::{
    law_admission_keeps_dirty_entries, law_checked_write_is_taken_whole, law_dirty_data_is_served,
    law_step_keeps_data, same_dirty,
};
use super::model::{
    caches, counted, counted_by, find, lemma_reusable, reusable, CacheModel, DiskError, EntryState,
    Slot, WriteBackMetrics, WriteBackProgress, EAGAIN, EIO,
};
use super::reading::{fetched, reached, read_followed, read_progress, MissReply, Reading};
use super::requests::{
    admitted_ahead, admitted_first, chunk, free_entries, miss_run, served, taken, target_of,
    uncached, ReadJob,
};
use super::transfer::lemma_same_blocks;

verus! {

/// With one more write counted.
pub open spec fn write_counted(cache: CacheModel) -> CacheModel {
    CacheModel {
        metrics: WriteBackMetrics {
            write_requests: counted(cache.metrics.write_requests),
            ..cache.metrics
        },
        ..cache
    }
}

/// With one more writeback step counted that a write forced.
pub open spec fn pressure_counted(model: DiskModel) -> DiskModel {
    DiskModel {
        cache: CacheModel {
            metrics: WriteBackMetrics {
                pressure_writeback_steps: counted(model.cache.metrics.pressure_writeback_steps),
                ..model.cache.metrics
            },
            ..model.cache
        },
        ..model
    }
}

/// Entries that a write from `block` on may take.
pub open spec fn room(cache: CacheModel, block: u64, count: usize) -> usize {
    free_entries(cache.entries, block as int, block + count, cache.entries.len()) as usize
}

/// A step that a write forced, and the entries that it freed.
pub open spec fn pressed_by(
    before: DiskModel,
    block: u64,
    count: usize,
    progress: WriteBackProgress,
    reached: DiskModel,
    after: DiskModel,
) -> bool {
    &&& stepped(pressure_counted(before), Ok(progress), reached)
    &&& after == (DiskModel {
        cache: reached.cache.pressed(
            room(before.cache, block, count),
            room(reached.cache, block, count),
        ),
        ..reached
    })
}

/// A forced step that freed entries.
pub open spec fn relieved(before: DiskModel, block: u64, count: usize, after: DiskModel) -> bool {
    exists|progress: WriteBackProgress, reached: DiskModel|
        #[trigger] pressed_by(before, block, count, progress, reached, after) && room(
            reached.cache,
            block,
            count,
        ) > room(before.cache, block, count)
}

/// States between the steps that a write forced.
pub open spec fn pressure_trace(
    trace: Seq<DiskModel>,
    before: DiskModel,
    block: u64,
    count: usize,
    need: usize,
) -> bool {
    &&& trace.len() > 0
    &&& trace[0] == before
    &&& forall|i: int, j: int|
        0 <= i && j == i + 1 && j < trace.len() ==> relieved(
            #[trigger] trace[i],
            block,
            count,
            #[trigger] trace[j],
        )
    &&& forall|i: int|
        0 <= i < trace.len() - 1 ==> room((#[trigger] trace[i]).cache, block, count) < need
}

/// The forced step that a write failed at.
pub open spec fn pressure_failed(
    last: DiskModel,
    block: u64,
    count: usize,
    error: DiskError,
    after: DiskModel,
) -> bool {
    ||| stepped(pressure_counted(last), Err(error), after)
    ||| error.errno == EAGAIN && exists|progress: WriteBackProgress, reached: DiskModel|
        #[trigger] pressed_by(last, block, count, progress, reached, after) && room(
            reached.cache,
            block,
            count,
        ) <= room(last.cache, block, count)
}

/// After the blocks of a write were taken.
pub open spec fn stored(cache: CacheModel, block: u64, bytes: Seq<u8>, count: usize) -> CacheModel {
    let after = taken(cache, block, bytes, count as nat).0;
    CacheModel {
        metrics: WriteBackMetrics {
            write_blocks_accepted: counted_by(
                after.metrics.write_blocks_accepted,
                count as int,
            ),
            ..after.metrics
        },
        ..after
    }
}

/// A write along the states of `trace`: taken whole once there is room, else the error of
/// the step that was to make room.
pub open spec fn written_along(
    trace: Seq<DiskModel>,
    before: DiskModel,
    block: u64,
    bytes: Seq<u8>,
    count: usize,
    need: usize,
    result: Result<usize, DiskError>,
    after: DiskModel,
) -> bool {
    let last = trace.last();
    &&& pressure_trace(trace, before, block, count, need)
    &&& match result {
        Ok(length) => {
            &&& length == bytes.len()
            &&& room(last.cache, block, count) >= need
            &&& after == (DiskModel { cache: stored(last.cache, block, bytes, count), ..last })
        },
        Err(error) => room(last.cache, block, count) < need && pressure_failed(
            last,
            block,
            count,
            error,
            after,
        ),
    }
}

/// A checked write that needs `need` entries.
pub open spec fn written(
    before: DiskModel,
    block: u64,
    bytes: Seq<u8>,
    count: usize,
    need: usize,
    result: Result<usize, DiskError>,
    after: DiskModel,
) -> bool {
    exists|trace: Seq<DiskModel>|
        #[trigger] written_along(trace, before, block, bytes, count, need, result, after)
}

/// What a write returns and leaves.
pub open spec fn write_answered(
    before: DiskModel,
    block: u64,
    bytes: Seq<u8>,
    result: Result<usize, DiskError>,
    after: DiskModel,
) -> bool {
    match transfer_spec(block, bytes.len() as int) {
        Err(error) => {
            &&& result == Err::<usize, DiskError>(error)
            &&& after == before
        },
        Ok(count) => {
            let begun = write_counted(before.cache);
            if count == 0 {
                &&& result == Ok::<usize, DiskError>(0)
                &&& after == (DiskModel { cache: begun, ..before })
            } else {
                let (checked, answer) = begun.write_checked(block, count);
                let ready = DiskModel { cache: checked, ..before };
                match answer {
                    Err(error) => {
                        &&& result == Err::<usize, DiskError>(error)
                        &&& after == ready
                    },
                    Ok(need) => written(ready, block, bytes, count, need, result, after),
                }
            }
        },
    }
}

/// One more forced step.
proof fn lemma_pressure_grows(
    trace: Seq<DiskModel>,
    before: DiskModel,
    block: u64,
    count: usize,
    need: usize,
    next: DiskModel,
)
    requires
        pressure_trace(trace, before, block, count, need),
        room(trace.last().cache, block, count) < need,
        relieved(trace.last(), block, count, next),
    ensures
        pressure_trace(trace.push(next), before, block, count, need),
{
    let longer = trace.push(next);
    assert forall|i: int, j: int| 0 <= i && j == i + 1 && j < longer.len() implies relieved(
        #[trigger] longer[i],
        block,
        count,
        #[trigger] longer[j],
    ) by {
        if j < trace.len() {
            assert(relieved(trace[i], block, count, trace[j]));
        }
    }
}

/// The uncached blocks of a range are those of the blocks that are found.
proof fn lemma_uncached_same(before: Seq<Slot>, after: Seq<Slot>, block: u64, count: nat)
    requires
        forall|other: u64| #[trigger] find(after, other) == find(before, other),
    ensures
        uncached(after, block, count) == uncached(before, block, count),
    decreases count,
{
    if count > 0 {
        lemma_uncached_same(before, after, block, (count - 1) as nat);
    }
}

/// A write that needs no more entries than are free forces no step.
pub proof fn law_write_with_room_is_taken(
    before: DiskModel,
    block: u64,
    bytes: Seq<u8>,
    count: usize,
    need: usize,
    result: Result<usize, DiskError>,
    after: DiskModel,
)
    requires
        written(before, block, bytes, count, need, result, after),
        room(before.cache, block, count) >= need,
    ensures
        result == Ok::<usize, DiskError>(bytes.len() as usize),
        after == (DiskModel { cache: stored(before.cache, block, bytes, count), ..before }),
{
    let trace = choose|trace: Seq<DiskModel>|
        #[trigger] written_along(trace, before, block, bytes, count, need, result, after);
    assert(trace.len() == 1) by {
        if trace.len() > 1 {
            assert(room(trace[0].cache, block, count) < need);
        }
    }
}

impl<D: BackingDisk> WriteBackDisk<D> {
    /// Takes a write into the cache; where it is full, writes back first.
    pub fn write_at(&mut self, block: u64, bytes: &[u8]) -> (result: Result<usize, DiskError>)
        requires
            old(self).wf(),
        ensures
            final(self).wf(),
            write_answered(old(self).model(), block, bytes@, result, final(self).model()),
            asked(old(self).history(), final(self).history()),
    {
        proof {
            lemma_asked_nothing(self.history());
        }
        let count: usize = match self.cache.begin_write(block, bytes.len()) {
            Err(error) => {
                return Err(error);
            },
            Ok(count) => count,
        };
        if count == 0 {
            return Ok(0);
        }
        let need: usize = match self.cache.check_write(block, count) {
            Err(error) => {
                return Err(error);
            },
            Ok(need) => need,
        };
        let ghost ready = self.model();
        let ghost mut trace = seq![ready];
        let end: u64 = block + count as u64;
        proof {
            lemma_uncached_bound(self.cache.slots(), block, count as nat);
            assert(pressure_trace(trace, ready, block, count, need));
        }
        let mut reusable: usize = self.cache.reusable_count(block, end);
        while reusable < need
            invariant
                self.wf(),
                asked(old(self).history(), self.history()),
                count > 0,
                bytes@.len() == count * 4096,
                end == block + count,
                write_answered_by(old(self).model(), block, bytes@, count, need, ready),
                pressure_trace(trace, ready, block, count, need),
                trace.last() == self.model(),
                reusable == room(self.model().cache, block, count),
                reusable == free_entries(
                    self.model().cache.entries,
                    block as int,
                    end as int,
                    self.model().cache.entries.len(),
                ),
                self.model().cache.written == ready.cache.written,
                ready.cache.written + count <= u64::MAX,
                uncached(self.model().cache.entries, block, count as nat) == need,
            decreases
                    if need > reusable {
                        need - reusable
                    } else {
                        0
                    },
        {
            let before: usize = reusable;
            let ghost last = self.model();
            self.cache.begin_pressure();
            let ghost counted = self.model();
            let ghost earlier = self.history();
            let step: Result<WriteBackProgress, DiskError> = self.writeback_step();
            proof {
                lemma_asked_more(old(self).history(), earlier, self.history());
                law_step_keeps_data(counted, step, self.model());
                lemma_same_blocks(counted.cache.entries, self.model().cache.entries);
                lemma_uncached_same(
                    counted.cache.entries,
                    self.model().cache.entries,
                    block,
                    count as nat,
                );
            }
            match step {
                Err(error) => {
                    let answer: Result<usize, DiskError> = Err(error);
                    assert(written_along(
                        trace,
                        ready,
                        block,
                        bytes@,
                        count,
                        need,
                        answer,
                        self.model(),
                    ));
                    return answer;
                },
                Ok(progress) => {
                    let ghost reached = self.model();
                    reusable = self.cache.reusable_count(block, end);
                    let outcome: Result<(), DiskError> = self.cache.end_pressure(before, reusable);
                    assert(pressed_by(last, block, count, progress, reached, self.model()));
                    match outcome {
                        Err(error) => {
                            let answer: Result<usize, DiskError> = Err(error);
                            assert(written_along(
                                trace,
                                ready,
                                block,
                                bytes@,
                                count,
                                need,
                                answer,
                                self.model(),
                            ));
                            return answer;
                        },
                        Ok(()) => {
                            proof {
                                assert(relieved(last, block, count, self.model()));
                                lemma_pressure_grows(
                                    trace,
                                    ready,
                                    block,
                                    count,
                                    need,
                                    self.model(),
                                );
                                trace = trace.push(self.model());
                            }
                        },
                    }
                },
            }
        }
        proof {
            law_checked_write_is_taken_whole(
                self.model().cache,
                block,
                bytes@,
                count as nat,
                count as nat,
            );
        }
        let outcome: Result<(), DiskError> = self.cache.take_write(block, bytes);
        let answer: Result<usize, DiskError> = Ok(bytes.len());
        assert(written_along(trace, ready, block, bytes@, count, need, answer, self.model()));
        answer
    }
}

/// With a read of `count` blocks counted.
pub open spec fn read_counted(cache: CacheModel, count: usize) -> CacheModel {
    CacheModel {
        metrics: WriteBackMetrics {
            read_requests: counted(cache.metrics.read_requests),
            read_blocks: counted_by(cache.metrics.read_blocks, count as int),
            ..cache.metrics
        },
        ..cache
    }
}

/// The backing disk replied with `data` for `block`.
pub open spec fn supplies(request: BackingRequest, block: u64, data: Seq<u8>) -> bool {
    match request {
        BackingRequest::Read { block: first, reply: Ok(bytes), .. } => {
            &&& first <= block
            &&& (block - first) * 4096 + 4096 <= bytes.len()
            &&& data == chunk(bytes, block - first)
        },
        _ => false,
    }
}

/// `data` is what the cache held for `block`, or what the backing disk replied.
pub open spec fn sourced(
    entries: Seq<Slot>,
    issued: Seq<BackingRequest>,
    from: nat,
    block: u64,
    data: Seq<u8>,
) -> bool {
    ||| exists|i: int| #[trigger] caches(entries, block, i) && entries[i].data == data
    ||| exists|j: int| from <= j < issued.len() && #[trigger] supplies(issued[j], block, data)
}

/// Every cached block is what the cache held, or what the backing disk replied.
pub open spec fn all_sourced(
    entries: Seq<Slot>,
    issued: Seq<BackingRequest>,
    from: nat,
    now: Seq<Slot>,
) -> bool {
    forall|i: int|
        0 <= i < now.len() && (#[trigger] now[i]).state != EntryState::Vacant ==> sourced(
            entries,
            issued,
            from,
            now[i].block,
            now[i].data,
        )
}

/// Requests that read, or ask for the size.
pub open spec fn only_reads(issued: Seq<BackingRequest>, from: nat) -> bool {
    forall|j: int|
        from <= j < issued.len() ==> (#[trigger] issued[j]) is Read || issued[j] is Size
}

/// What a read changes: clean entries and counters; dirty entries, sequences, tickets and
/// failures stay.
pub open spec fn read_keeps(before: DiskModel, after: DiskModel) -> bool {
    &&& same_dirty(before.cache.entries, after.cache.entries)
    &&& after.cache.tickets == before.cache.tickets
    &&& after.cache.written == before.cache.written
    &&& after.cache.requested == before.cache.requested
    &&& after.cache.durable == before.cache.durable
    &&& after.cache.background == before.cache.background
    &&& after.cache.quiesced == before.cache.quiesced
    &&& after.cache.failure == before.cache.failure
    &&& before.issued.is_prefix_of(after.issued)
    &&& only_reads(after.issued, before.issued.len())
    &&& all_sourced(
        before.cache.entries,
        after.issued,
        before.issued.len(),
        after.cache.entries,
    )
}

/// The first `count` blocks of what was read are what the cache held or the backing disk
/// replied, and what was written where the block was dirty.
pub open spec fn read_from(
    before: DiskModel,
    after: DiskModel,
    block: u64,
    count: int,
    output: Seq<u8>,
) -> bool {
    forall|k: int|
        0 <= k < count ==> {
            let data = #[trigger] chunk(output, k);
            &&& sourced(
                before.cache.entries,
                after.issued,
                before.issued.len(),
                target_of(block, k),
                data,
            )
            &&& forall|i: int|
                #[trigger] caches(before.cache.entries, target_of(block, k), i)
                    && before.cache.entries[i].state == EntryState::Dirty ==> data
                    == before.cache.entries[i].data
        }
}

/// What a read returns and leaves.
pub open spec fn read_answered(
    before: DiskModel,
    block: u64,
    byte_len: usize,
    result: Result<Seq<u8>, DiskError>,
    after: DiskModel,
) -> bool {
    match transfer_spec(block, byte_len as int) {
        Err(error) => {
            &&& result == Err::<Seq<u8>, DiskError>(error)
            &&& after == before
        },
        Ok(count) => {
            let begun = read_counted(before.cache, count);
            let (hit, reached, bytes) = served(begun, block, 0, count as int, Seq::empty());
            &&& read_keeps(before, after)
            &&& reached == count ==> result == Ok::<Seq<u8>, DiskError>(bytes) && after == (
            DiskModel { cache: hit, ..before })
            &&& exists|replies: Seq<MissReply>| #[trigger]
                read_followed(
                    Reading {
                        disk: DiskModel { cache: begun, ..before },
                        offset: 0,
                        output: Seq::empty(),
                    },
                    block,
                    count as int,
                    replies,
                    result,
                    after,
                )
            &&& match result {
                Ok(output) => output.len() == byte_len && read_from(
                    before,
                    after,
                    block,
                    count as int,
                    output,
                ),
                Err(error) => failed_read(before, after, error),
            }
        },
    }
}

/// A read in progress.
pub open spec fn reading(disk: DiskModel, job: ReadJob) -> Reading {
    Reading { disk, offset: job.offset as int, output: job.output@ }
}

/// A read fails only where the backing disk's last reply was an error or short.
pub open spec fn failed_read(before: DiskModel, after: DiskModel, error: DiskError) -> bool {
    &&& after.issued.len() > before.issued.len()
    &&& match after.issued.last() {
        BackingRequest::Read { reply: Err(errno), .. } => error.errno == errno,
        BackingRequest::Read { length, reply: Ok(bytes), .. } => bytes.len() != length
            && error.errno == EIO,
        BackingRequest::Size { reply: Err(errno) } => error.errno == errno,
        _ => false,
    }
}

/// More replies leave what was sourced sourced.
proof fn lemma_sourced_stays(
    entries: Seq<Slot>,
    issued: Seq<BackingRequest>,
    from: nat,
    more: BackingRequest,
    block: u64,
    data: Seq<u8>,
)
    requires
        sourced(entries, issued, from, block, data),
    ensures
        sourced(entries, issued.push(more), from, block, data),
{
    let longer = issued.push(more);
    if exists|i: int| #[trigger] caches(entries, block, i) && entries[i].data == data {
    } else {
        let j = choose|j: int|
            from <= j < issued.len() && #[trigger] supplies(issued[j], block, data);
        assert(supplies(longer[j], block, data));
    }
}

/// One more request that reads.
proof fn lemma_request_added(
    before: DiskModel,
    after: DiskModel,
    more: BackingRequest,
    block: u64,
    count: int,
    output: Seq<u8>,
)
    requires
        read_keeps(before, after),
        read_from(before, after, block, count, output),
        more is Read || more is Size,
    ensures
        read_keeps(before, DiskModel { issued: after.issued.push(more), ..after }),
        read_from(
            before,
            DiskModel { issued: after.issued.push(more), ..after },
            block,
            count,
            output,
        ),
{
    let longer = after.issued.push(more);
    let from = before.issued.len();
    assert(before.issued =~= longer.subrange(0, before.issued.len() as int)) by {
        assert(before.issued =~= after.issued.subrange(0, before.issued.len() as int));
        assert forall|j: int| 0 <= j < before.issued.len() implies before.issued[j]
            == longer[j] by {
            assert(before.issued[j] == after.issued.subrange(
                0,
                before.issued.len() as int,
            )[j]);
        }
    }
    assert forall|i: int|
        0 <= i < after.cache.entries.len() && (#[trigger] after.cache.entries[i]).state
            != EntryState::Vacant implies sourced(
        before.cache.entries,
        longer,
        from,
        after.cache.entries[i].block,
        after.cache.entries[i].data,
    ) by {
        lemma_sourced_stays(
            before.cache.entries,
            after.issued,
            from,
            more,
            after.cache.entries[i].block,
            after.cache.entries[i].data,
        );
    }
    assert forall|k: int| 0 <= k < count implies sourced(
        before.cache.entries,
        longer,
        from,
        target_of(block, k),
        #[trigger] chunk(output, k),
    ) by {
        lemma_sourced_stays(
            before.cache.entries,
            after.issued,
            from,
            more,
            target_of(block, k),
            chunk(output, k),
        );
    }
}

/// A block that the backing disk replied was offered to the cache.
proof fn lemma_admitted_keeps(before: DiskModel, after: DiskModel, block: u64, data: Seq<u8>)
    requires
        read_keeps(before, after),
        sourced(before.cache.entries, after.issued, before.issued.len(), block, data),
    ensures
        read_keeps(before, DiskModel { cache: after.cache.admitted(block, data), ..after }),
{
    law_admission_keeps_dirty_entries(after.cache, block, data);
    lemma_reusable(after.cache.entries, after.cache.entries.len());
    lemma_dirty_chain(
        before.cache.entries,
        after.cache.entries,
        after.cache.admitted(block, data).entries,
    );
}

/// Dirty entries that stay twice stay.
proof fn lemma_dirty_chain(first: Seq<Slot>, second: Seq<Slot>, third: Seq<Slot>)
    requires
        same_dirty(first, second),
        same_dirty(second, third),
    ensures
        same_dirty(first, third),
{
    assert forall|i: int| 0 <= i < first.len() implies ((#[trigger] third[i]).state
        == EntryState::Dirty <==> first[i].state == EntryState::Dirty) && (third[i].state
        == EntryState::Dirty ==> third[i].block == first[i].block && third[i].data
        == first[i].data && third[i].first == first[i].first && third[i].last
        == first[i].last) by {
        let middle = second[i];
    }
}

/// The blocks of a reply were offered to the cache in order.
proof fn lemma_admitted_first_keeps(
    before: DiskModel,
    after: DiskModel,
    block: u64,
    bytes: Seq<u8>,
    count: nat,
)
    requires
        read_keeps(before, after),
        after.issued.len() > before.issued.len(),
        after.issued.last() matches BackingRequest::Read { block: first, reply: Ok(found), .. }
            && first == block && found == bytes,
        count * 4096 <= bytes.len(),
        block + count <= u64::MAX,
    ensures
        read_keeps(
            before,
            DiskModel { cache: admitted_first(after.cache, block, bytes, count), ..after },
        ),
    decreases count,
{
    if count > 0 {
        lemma_admitted_first_keeps(before, after, block, bytes, (count - 1) as nat);
        let so_far = DiskModel {
            cache: admitted_first(after.cache, block, bytes, (count - 1) as nat),
            ..after
        };
        lemma_supplied(before, after, block, bytes, count - 1);
        lemma_admitted_keeps(
            before,
            so_far,
            target_of(block, count - 1),
            chunk(bytes, count - 1),
        );
    }
}

/// A block of a reply is what the backing disk replied.
proof fn lemma_supplied(before: DiskModel, after: DiskModel, block: u64, bytes: Seq<u8>, k: int)
    requires
        after.issued.len() > before.issued.len(),
        after.issued.last() matches BackingRequest::Read { block: first, reply: Ok(found), .. }
            && first == block && found == bytes,
        0 <= k,
        k * 4096 + 4096 <= bytes.len(),
        block + k <= u64::MAX,
    ensures
        sourced(
            before.cache.entries,
            after.issued,
            before.issued.len(),
            target_of(block, k),
            chunk(bytes, k),
        ),
{
    let last = after.issued.len() - 1;
    assert(supplies(after.issued[last], target_of(block, k), chunk(bytes, k)));
}

/// The blocks behind the first one of a reply were offered to the cache in order.
proof fn lemma_admitted_ahead_keeps(
    before: DiskModel,
    after: DiskModel,
    block: u64,
    bytes: Seq<u8>,
    count: nat,
)
    requires
        read_keeps(before, after),
        after.issued.len() > before.issued.len(),
        after.issued.last() matches BackingRequest::Read { block: first, reply: Ok(found), .. }
            && first == block && found == bytes,
        count * 4096 <= bytes.len(),
        block + count <= u64::MAX,
    ensures
        read_keeps(
            before,
            DiskModel { cache: admitted_ahead(after.cache, block, bytes, count), ..after },
        ),
    decreases count,
{
    if count > 1 {
        lemma_admitted_ahead_keeps(before, after, block, bytes, (count - 1) as nat);
        let so_far = DiskModel {
            cache: admitted_ahead(after.cache, block, bytes, (count - 1) as nat),
            ..after
        };
        lemma_supplied(before, after, block, bytes, count - 1);
        lemma_admitted_keeps(
            before,
            so_far,
            target_of(block, count - 1),
            chunk(bytes, count - 1),
        );
    }
}

/// The blocks of a run of misses are not cached.
proof fn lemma_missing(entries: Seq<Slot>, block: u64, offset: int, count: int)
    ensures
        forall|k: int|
            offset <= k < offset + miss_run(entries, block, offset, count) ==> find(
                entries,
                #[trigger] target_of(block, k),
            ) is None,
    decreases count - offset,
{
    if offset < count && find(entries, target_of(block, offset)) is None {
        lemma_missing(entries, block, offset + 1, count);
    }
}

/// Serving from the cache.
proof fn lemma_served_keeps(
    before: DiskModel,
    after: DiskModel,
    block: u64,
    offset: int,
    count: int,
    output: Seq<u8>,
)
    requires
        after.cache.ordered(),
        read_keeps(before, after),
        read_from(before, after, block, offset, output),
        0 <= offset <= count,
        block + count <= u64::MAX,
        output.len() == offset * 4096,
    ensures
        ({
            let (hit, reached, bytes) = served(after.cache, block, offset, count, output);
            &&& read_keeps(before, DiskModel { cache: hit, ..after })
            &&& read_from(before, DiskModel { cache: hit, ..after }, block, reached, bytes)
        }),
    decreases count - offset,
{
    if offset < count {
        if let Some(at) = find(after.cache.entries, target_of(block, offset)) {
            let target = target_of(block, offset);
            assert(caches(after.cache.entries, target, at));
            let entry = after.cache.entries[at];
            let next = DiskModel { cache: after.cache.hit(at), ..after };
            let longer = output + entry.data;
            super::laws::lemma_hit_is_ordered(after.cache, at);
            lemma_dirty_chain(
                before.cache.entries,
                after.cache.entries,
                next.cache.entries,
            );
            assert(all_sourced(
                before.cache.entries,
                after.issued,
                before.issued.len(),
                next.cache.entries,
            )) by {
                assert forall|i: int|
                    0 <= i < next.cache.entries.len() && (#[trigger] next.cache.entries[i]).state
                        != EntryState::Vacant implies sourced(
                    before.cache.entries,
                    after.issued,
                    before.issued.len(),
                    next.cache.entries[i].block,
                    next.cache.entries[i].data,
                ) by {
                    let same = after.cache.entries[i];
                }
            }
            assert(read_from(before, next, block, offset + 1, longer)) by {
                assert forall|k: int| 0 <= k < offset + 1 implies ({
                    let data = #[trigger] chunk(longer, k);
                    &&& sourced(
                        before.cache.entries,
                        after.issued,
                        before.issued.len(),
                        target_of(block, k),
                        data,
                    )
                    &&& forall|i: int|
                        #[trigger] caches(before.cache.entries, target_of(block, k), i)
                            && before.cache.entries[i].state == EntryState::Dirty ==> data
                            == before.cache.entries[i].data
                }) by {
                    if k < offset {
                        assert(chunk(longer, k) =~= chunk(output, k));
                    } else {
                        assert(chunk(longer, k) =~= entry.data);
                        assert forall|i: int|
                            #[trigger] caches(before.cache.entries, target, i)
                                && before.cache.entries[i].state
                                == EntryState::Dirty implies entry.data
                            == before.cache.entries[i].data by {
                            let now = after.cache.entries[i];
                            assert(caches(after.cache.entries, target, i));
                            assert(i == at);
                        }
                    }
                }
            }
            lemma_served_keeps(before, next, block, offset + 1, count, longer);
        }
    }
}

/// A run of misses was supplied.
proof fn lemma_run_supplied(
    before: DiskModel,
    after: DiskModel,
    block: u64,
    offset: int,
    missing: int,
    output: Seq<u8>,
    bytes: Seq<u8>,
)
    requires
        read_keeps(before, after),
        read_from(before, after, block, offset, output),
        0 <= offset,
        0 <= missing,
        output.len() == offset * 4096,
        bytes.len() >= missing * 4096,
        block + offset + missing <= u64::MAX,
        after.issued.len() > before.issued.len(),
        after.issued.last() matches BackingRequest::Read { block: first, reply: Ok(found), .. }
            && first == target_of(block, offset) && found == bytes,
        forall|k: int|
            offset <= k < offset + missing ==> find(
                after.cache.entries,
                #[trigger] target_of(block, k),
            ) is None,
    ensures
        read_from(
            before,
            after,
            block,
            offset + missing,
            output + bytes.subrange(0, missing * 4096),
        ),
{
    let longer = output + bytes.subrange(0, missing * 4096);
    assert forall|k: int| 0 <= k < offset + missing implies ({
        let data = #[trigger] chunk(longer, k);
        &&& sourced(
            before.cache.entries,
            after.issued,
            before.issued.len(),
            target_of(block, k),
            data,
        )
        &&& forall|i: int|
            #[trigger] caches(before.cache.entries, target_of(block, k), i)
                && before.cache.entries[i].state == EntryState::Dirty ==> data
                == before.cache.entries[i].data
    }) by {
        if k < offset {
            assert(chunk(longer, k) =~= chunk(output, k));
        } else {
            let at = k - offset;
            assert(at * 4096 + 4096 <= missing * 4096);
            assert(chunk(longer, k) =~= chunk(bytes, at));
            let first = target_of(block, offset);
            assert(target_of(first, at) == target_of(block, k));
            lemma_supplied(before, after, first, bytes, at);
            assert forall|i: int|
                #[trigger] caches(before.cache.entries, target_of(block, k), i)
                    && before.cache.entries[i].state == EntryState::Dirty implies false by {
                let now = after.cache.entries[i];
                assert(caches(after.cache.entries, target_of(block, k), i));
            }
        }
    }
}

impl<D: BackingDisk> WriteBackDisk<D> {
    /// Asks the backing disk for blocks.
    fn fetch(&mut self, block: u64, length: usize) -> (outcome: Result<Vec<u8>, i32>)
        ensures
            final(self).cache == old(self).cache,
            asked_once(old(self).history(), final(self).history()),
            final(self).issued@ == old(self).issued@.push(
                BackingRequest::Read { block, length: length as nat, reply: bytes_of(outcome) },
            ),
    {
        let outcome: Result<Vec<u8>, i32> = self.inner.read_at(block, length);
        self.issued =
        Ghost(
            self.issued@.push(
                BackingRequest::Read { block, length: length as nat, reply: bytes_of(outcome) },
            ),
        );
        outcome
    }

    /// Reads what is missing next from the backing disk and takes it into the cache.
    fn fetch_missing(
        &mut self,
        job: &mut ReadJob,
        missing: usize,
        Ghost(before): Ghost<DiskModel>,
        Ghost(start): Ghost<(D, Seq<BackingRequest>)>,
    ) -> (result: Result<(), DiskError>)
        requires
            old(self).wf(),
            asked(start, old(self).history()),
            old(job).wf(),
            missing > 0,
            missing == miss_run(
                old(self).cache.slots(),
                old(job).block,
                old(job).offset as int,
                old(job).count as int,
            ),
            old(job).offset + missing <= old(job).count,
            read_keeps(before, old(self).model()),
            read_from(
                before,
                old(self).model(),
                old(job).block,
                old(job).offset as int,
                old(job).output@,
            ),
        ensures
            final(self).wf(),
            final(job).wf(),
            final(job).block == old(job).block,
            final(job).count == old(job).count,
            asked(start, final(self).history()),
            read_keeps(before, final(self).model()),
            exists|reply: MissReply| #[trigger]
                fetched(
                    reading(old(self).model(), *old(job)),
                    old(job).block,
                    old(job).count as int,
                    reply,
                ) == (reading(final(self).model(), *final(job)), result),
            match result {
                Ok(()) => final(job).offset > old(job).offset && read_from(
                    before,
                    final(self).model(),
                    final(job).block,
                    final(job).offset as int,
                    final(job).output@,
                ),
                Err(error) => failed_read(before, final(self).model(), error),
            },
    {
        let block: u64 = job.block;
        let target: u64 = block + job.offset as u64;
        let ghost job_before = *job;
        let ghost at = reading(self.model(), *job);
        let ghost mut sized: Result<u64, i32> = Ok(0);
        let mut window: usize = 0;
        if missing == 1 {
            let ghost asking = self.model();
            let ghost earlier = self.history();
            let size: Result<u64, DiskError> = self.size();
            proof {
                lemma_asked_more(start, earlier, self.history());
                lemma_request_added(
                    before,
                    asking,
                    self.issued@.last(),
                    block,
                    job.offset as int,
                    job.output@,
                );
            }
            proof {
                sized = self.issued@.last()->Size_reply;
            }
            match size {
                Err(error) => {
                    self.cache.fail_read();
                    proof {
                        let reply = MissReply { size: sized, data: Err(0) };
                        let end = fetched(at, block, job.count as int, reply);
                        assert(end.0 =~= reading(self.model(), *job));
                    }
                    return Err(error);
                },
                Ok(backing_bytes) => {
                    window = self.cache.window(job, backing_bytes);
                },
            }
        }
        proof {
            lemma_missing(self.cache.slots(), block, job.offset as int, job.count as int);
        }
        let ghost asking = self.model();
        let blocks: usize = if window > 1 {
            window
        } else {
            missing
        };
        proof {
            assert(blocks * 4096 <= usize::MAX) by {
                if window <= 1 {
                    assert(missing <= job.count);
                }
            }
        }
        let ghost earlier = self.history();
        let outcome: Result<Vec<u8>, i32> = self.fetch(target, blocks * 4096);
        let ghost reply = bytes_of(outcome);
        let ghost replied_to = self.model();
        proof {
            lemma_asked_more(start, earlier, self.history());
            lemma_request_added(
                before,
                asking,
                self.issued@.last(),
                block,
                job.offset as int,
                job.output@,
            );
        }
        let supplied: Result<(), DiskError> = if window > 1 {
            self.cache.supply_window(job, window, outcome)
        } else {
            self.cache.supply_run(job, missing, outcome)
        };
        proof {
            let replied = MissReply { size: sized, data: reply };
            let end = fetched(at, block, job.count as int, replied);
            assert(end.0 =~= reading(self.model(), *job));
            assert(end.1 == supplied);
        }
        if let Err(error) = supplied {
            return Err(error);
        }
        proof {
            let bytes = reply->Ok_0;
            if window > 1 {
                lemma_admitted_ahead_keeps(before, replied_to, target, bytes, window as nat);
                let ahead = DiskModel {
                    cache: admitted_ahead(replied_to.cache, target, bytes, window as nat),
                    ..replied_to
                };
                lemma_supplied(before, replied_to, target, bytes, 0);
                assert(target_of(target, 0) == target);
                lemma_admitted_keeps(before, ahead, target, chunk(bytes, 0));
                lemma_run_supplied(
                    before,
                    replied_to,
                    block,
                    job_before.offset as int,
                    1,
                    job_before.output@,
                    bytes,
                );
                assert(chunk(bytes, 0) =~= bytes.subrange(0, 4096));
            } else {
                lemma_admitted_first_keeps(before, replied_to, target, bytes, missing as nat);
                lemma_run_supplied(
                    before,
                    replied_to,
                    block,
                    job_before.offset as int,
                    missing as int,
                    job_before.output@,
                    bytes,
                );
                assert(bytes.subrange(0, missing * 4096) =~= bytes);
            }
        }
        Ok(())
    }

    /// Reads `byte_len` bytes: from the cache what it holds, the rest from the backing disk.
    ///
    /// A single missing block is read together with those ahead of it.
    pub fn read_at(&mut self, block: u64, byte_len: usize) -> (result: Result<Vec<u8>, DiskError>)
        requires
            old(self).wf(),
        ensures
            final(self).wf(),
            read_answered(
                old(self).model(),
                block,
                byte_len,
                read_bytes(result),
                final(self).model(),
            ),
            asked(old(self).history(), final(self).history()),
    {
        let ghost before = self.model();
        proof {
            lemma_asked_nothing(self.history());
        }
        let mut job: ReadJob = match self.cache.begin_read(block, byte_len) {
            Err(error) => {
                return Err(error);
            },
            Ok(job) => job,
        };
        let ghost begun = self.model().cache;
        let ghost first = served(begun, block, 0, job.count as int, Seq::empty());
        let ghost start = reading(self.model(), job);
        let ghost mut replies: Seq<MissReply> = Seq::empty();
        proof {
            assert(job.output@ =~= Seq::empty());
            lemma_read_starts(before, self.model(), block);
            law_dirty_data_is_served(begun, block, 0, job.count as int, Seq::empty());
        }
        let mut missing: usize = self.cache.continue_read(&mut job);
        proof {
            lemma_served_keeps(
                before,
                DiskModel { cache: begun, ..before },
                block,
                0,
                job.count as int,
                Seq::empty(),
            );
            lemma_missing(self.cache.slots(), block, job.offset as int, job.count as int);
            assert(reached(start, block, job.count as int) =~= reading(self.model(), job));
        }
        while missing > 0
            invariant
                self.wf(),
                asked(old(self).history(), self.history()),
                job.wf(),
                job.block == block,
                job.count * 4096 == byte_len,
                start == (Reading {
                    disk: DiskModel { cache: begun, ..before },
                    offset: 0,
                    output: Seq::empty(),
                }),
                read_progress(start, block, job.count as int, replies) == Some(
                    reading(self.model(), job),
                ),
                transfer_spec(block, byte_len as int) == Ok::<usize, DiskError>(job.count),
                before == old(self).model(),
                begun == read_counted(before.cache, job.count),
                first == served(begun, block, 0, job.count as int, Seq::empty()),
                missing > 0 ==> first.1 < job.count,
                missing == 0 && first.1 == job.count ==> self.model() == (DiskModel {
                    cache: first.0,
                    ..before
                }) && job.output@ == first.2,
                missing == miss_run(
                    self.cache.slots(),
                    block,
                    job.offset as int,
                    job.count as int,
                ),
                missing == 0 <==> job.offset == job.count,
                job.offset + missing <= job.count,
                read_keeps(before, self.model()),
                read_from(before, self.model(), block, job.offset as int, job.output@),
                first.1 < job.count ==> first.1 <= job.offset,
            decreases job.count - job.offset,
        {
            let ghost at = reading(self.model(), job);
            let supplied: Result<(), DiskError> = self.fetch_missing(
                &mut job,
                missing,
                Ghost(before),
                Ghost(old(self).history()),
            );
            proof {
                let reply = choose|reply: MissReply| #[trigger]
                    fetched(at, block, job.count as int, reply) == (
                        reading(self.model(), job),
                        supplied,
                    );
                let earlier = replies;
                replies = earlier.push(reply);
                assert(replies.drop_last() =~= earlier);
                assert(supplied matches Err(error) ==> read_followed(
                    start,
                    block,
                    job.count as int,
                    replies,
                    Err(error),
                    self.model(),
                ));
            }
            if let Err(error) = supplied {
                return Err(error);
            }
            let ghost supplied_to = self.model();
            let ghost served_from = job;
            missing = self.cache.continue_read(&mut job);
            proof {
                lemma_served_keeps(
                    before,
                    supplied_to,
                    block,
                    served_from.offset as int,
                    job.count as int,
                    served_from.output@,
                );
                law_dirty_data_is_served(
                    supplied_to.cache,
                    block,
                    served_from.offset as int,
                    job.count as int,
                    served_from.output@,
                );
                assert(reached(reading(supplied_to, served_from), block, job.count as int)
                    =~= reading(self.model(), job));
            }
        }
        assert(read_followed(
            start,
            block,
            job.count as int,
            replies,
            Ok(job.output@),
            self.model(),
        ));
        Ok(job.output)
    }
}

/// The bytes of what was read.
pub open spec fn read_bytes(result: Result<Vec<u8>, DiskError>) -> Result<Seq<u8>, DiskError> {
    match result {
        Ok(bytes) => Ok(bytes@),
        Err(error) => Err(error),
    }
}

/// Before anything was read.
proof fn lemma_read_starts(before: DiskModel, after: DiskModel, block: u64)
    requires
        after.cache.entries == before.cache.entries,
        after.cache.tickets == before.cache.tickets,
        after.cache.written == before.cache.written,
        after.cache.requested == before.cache.requested,
        after.cache.durable == before.cache.durable,
        after.cache.background == before.cache.background,
        after.cache.quiesced == before.cache.quiesced,
        after.cache.failure == before.cache.failure,
        after.issued == before.issued,
    ensures
        read_keeps(before, after),
        read_from(before, after, block, 0, Seq::empty()),
{
    assert(before.issued =~= before.issued.subrange(0, before.issued.len() as int));
    assert forall|i: int|
        0 <= i < after.cache.entries.len() && (#[trigger] after.cache.entries[i]).state
            != EntryState::Vacant implies sourced(
        before.cache.entries,
        after.issued,
        before.issued.len(),
        after.cache.entries[i].block,
        after.cache.entries[i].data,
    ) by {
        assert(caches(before.cache.entries, after.cache.entries[i].block, i));
    }
}

/// The write came as far as forcing steps.
spec fn write_answered_by(
    before: DiskModel,
    block: u64,
    bytes: Seq<u8>,
    count: usize,
    need: usize,
    ready: DiskModel,
) -> bool {
    let begun = write_counted(before.cache);
    &&& transfer_spec(block, bytes.len() as int) == Ok::<usize, DiskError>(count)
    &&& count > 0
    &&& begun.write_checked(block, count) == (ready.cache, Ok::<usize, DiskError>(need))
    &&& ready.issued == before.issued
}

/// No more blocks are uncached than there are.
proof fn lemma_uncached_bound(entries: Seq<Slot>, block: u64, count: nat)
    ensures
        uncached(entries, block, count) <= count,
    decreases count,
{
    if count > 0 {
        lemma_uncached_bound(entries, block, (count - 1) as nat);
    }
}

} // verus!
