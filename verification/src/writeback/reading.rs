//! How a read goes on from miss to miss.
use vstd::prelude::*;

use super::disk::{BackingRequest, DiskModel};
use super::model::{counted, counted_by, CacheModel, DiskError, WriteBackMetrics, EIO};
use super::requests::{
    admitted_ahead, admitted_first, chunk, miss_run, served, target_of, window_spec,
};

verus! {

/// A read in progress: the disk, the blocks that were read, and their bytes.
#[verifier::ext_equal]
pub struct Reading {
    pub disk: DiskModel,
    pub offset: int,
    pub output: Seq<u8>,
}

/// What the backing disk replied at a miss.
pub struct MissReply {
    /// Its size, asked for at a single missing block only.
    pub size: Result<u64, i32>,
    /// The blocks.
    pub data: Result<Seq<u8>, i32>,
}

/// With a run of `missing` blocks counted that the backing disk has to supply.
pub open spec fn missed(cache: CacheModel, missing: int) -> CacheModel {
    CacheModel {
        metrics: WriteBackMetrics {
            read_misses: counted_by(cache.metrics.read_misses, missing),
            underlying_reads: counted(cache.metrics.underlying_reads),
            ..cache.metrics
        },
        ..cache
    }
}

/// With blocks counted that were read ahead.
pub open spec fn read_ahead(cache: CacheModel, blocks: int) -> CacheModel {
    CacheModel {
        metrics: WriteBackMetrics {
            read_ahead_requests: counted(cache.metrics.read_ahead_requests),
            read_ahead_blocks: counted_by(cache.metrics.read_ahead_blocks, blocks),
            ..cache.metrics
        },
        ..cache
    }
}

/// After the cache served what it holds: all blocks are read, or the next is missing.
pub open spec fn reached(from: Reading, block: u64, count: int) -> Reading {
    let (hit, offset, output) = served(
        from.disk.cache,
        block,
        from.offset,
        count,
        from.output,
    );
    let missing = miss_run(hit.entries, block, offset, count);
    Reading {
        disk: DiskModel {
            cache: if missing == 0 {
                hit
            } else {
                missed(hit, missing)
            },
            ..from.disk
        },
        offset,
        output,
    }
}

/// A read that failed at `at`.
pub open spec fn fetch_failed(at: Reading, issued: Seq<BackingRequest>, errno: i32) -> (
    Reading,
    Result<(), DiskError>,
) {
    (
        Reading { disk: DiskModel { cache: at.disk.cache.read_failed(), issued }, ..at },
        Err(DiskError { errno }),
    )
}

/// Reads what is missing next, where the backing disk's replies are `reply`.
///
/// A single missing block is read together with those ahead of it, as far as the disk and the
/// cache go: the blocks ahead are offered to the cache first. A longer run is read alone.
pub open spec fn fetched(at: Reading, block: u64, count: int, reply: MissReply) -> (
    Reading,
    Result<(), DiskError>,
) {
    let missing = miss_run(at.disk.cache.entries, block, at.offset, count);
    let target = target_of(block, at.offset);
    let sized = if missing == 1 {
        at.disk.issued.push(BackingRequest::Size { reply: reply.size })
    } else {
        at.disk.issued
    };
    if missing == 1 && reply.size is Err {
        fetch_failed(at, sized, reply.size->Err_0)
    } else {
        let window = if missing == 1 {
            window_spec(
                at.disk.cache.entries.len() as int,
                block + at.offset,
                reply.size->Ok_0 as int,
            )
        } else {
            0
        };
        let blocks = if window > 1 {
            window
        } else {
            missing
        };
        let issued = sized.push(
            BackingRequest::Read {
                block: target,
                length: (blocks * 4096) as nat,
                reply: reply.data,
            },
        );
        match reply.data {
            Err(errno) => fetch_failed(at, issued, errno),
            Ok(bytes) => if bytes.len() != blocks * 4096 {
                fetch_failed(at, issued, EIO)
            } else if window > 1 {
                let ahead = admitted_ahead(at.disk.cache, target, bytes, window as nat);
                let cache = read_ahead(ahead.admitted(target, chunk(bytes, 0)), window);
                (
                    Reading {
                        disk: DiskModel { cache, issued },
                        offset: at.offset + 1,
                        output: at.output + chunk(bytes, 0),
                    },
                    Ok(()),
                )
            } else {
                let cache = admitted_first(at.disk.cache, target, bytes, missing as nat);
                (
                    Reading {
                        disk: DiskModel { cache, issued },
                        offset: at.offset + missing,
                        output: at.output + bytes,
                    },
                    Ok(()),
                )
            },
        }
    }
}

/// How far a read came after misses that the backing disk answered with `replies`; `None` where
/// it ended before the last of them.
pub open spec fn read_progress(
    start: Reading,
    block: u64,
    count: int,
    replies: Seq<MissReply>,
) -> Option<Reading>
    decreases replies.len(),
{
    if replies.len() == 0 {
        Some(reached(start, block, count))
    } else {
        match read_progress(start, block, count, replies.drop_last()) {
            None => None,
            Some(at) => if at.offset >= count {
                None
            } else {
                match fetched(at, block, count, replies.last()) {
                    (after, Ok(_)) => Some(reached(after, block, count)),
                    (_, Err(_)) => None,
                }
            },
        }
    }
}

/// What a read returns and leaves where the backing disk's replies are `replies`: it goes on
/// until all blocks are read or a miss cannot be filled.
pub open spec fn read_followed(
    start: Reading,
    block: u64,
    count: int,
    replies: Seq<MissReply>,
    result: Result<Seq<u8>, DiskError>,
    after: DiskModel,
) -> bool {
    match result {
        Ok(output) => {
            &&& read_progress(start, block, count, replies) matches Some(end)
            &&& end.offset == count
            &&& end.output == output
            &&& end.disk == after
        },
        Err(error) => {
            &&& replies.len() > 0
            &&& read_progress(start, block, count, replies.drop_last()) matches Some(at)
            &&& at.offset < count
            &&& fetched(at, block, count, replies.last()).1 == Err::<(), DiskError>(error)
            &&& fetched(at, block, count, replies.last()).0.disk == after
        },
    }
}

} // verus!
