//! What holds of the cache as a whole.
use vstd::prelude::*;

use super::model::{
    block_after, cleaned, DiskError, WriteBackProgress, caches, distinct_blocks, extend_run, find,
    lemma_next_dirty, lemma_reusable, next_dirty, reusable, CacheModel, Decision, EntryState, Slot,
};
use super::cache::valid_run;
use super::disk::{stepped, DiskModel};
use super::lookup::{lemma_places_stay, without_block};
use super::requests::{
    chunk, free_entries, free_for, served, taken, target_of, uncached,
};
use super::transfer::{lemma_find, lemma_replaced, lemma_same_blocks};

verus! {

/// No collection of a cache outgrew what was reserved for it.
pub open spec fn same_storage(before: CacheModel, after: CacheModel) -> bool {
    &&& after.entries.len() == before.entries.len()
    &&& after.lookup.len() == before.lookup.len()
    &&& after.ticket_slots == before.ticket_slots
    &&& after.tickets.len() <= after.ticket_slots
}

/// Dirty entries are where they were and hold what they held.
pub open spec fn same_dirty(before: Seq<Slot>, after: Seq<Slot>) -> bool {
    &&& before.len() == after.len()
    &&& forall|i: int|
        0 <= i < before.len() ==> ((#[trigger] after[i]).state == EntryState::Dirty
            <==> before[i].state == EntryState::Dirty)
    &&& forall|i: int|
        0 <= i < before.len() && (#[trigger] after[i]).state == EntryState::Dirty ==> after[i].block
            == before[i].block && after[i].data == before[i].data && after[i].first
            == before[i].first && after[i].last == before[i].last
}

/// Offering a block to the cache touches no dirty entry.
pub proof fn law_admission_keeps_dirty_entries(model: CacheModel, block: u64, data: Seq<u8>)
    ensures
        same_dirty(model.entries, model.admitted(block, data).entries),
{
    lemma_reusable(model.entries, model.entries.len());
}

/// Serving cached blocks touches no dirty entry, and what it serves of a dirty block is
/// what was written.
pub proof fn law_dirty_data_is_served(
    model: CacheModel,
    block: u64,
    offset: int,
    count: int,
    output: Seq<u8>,
)
    requires
        model.ordered(),
        0 <= offset <= count,
        block + count <= u64::MAX,
        output.len() == offset * 4096,
    ensures
        ({
            let (after, reached, bytes) = served(model, block, offset, count, output);
            &&& same_dirty(model.entries, after.entries)
            &&& distinct_blocks(after.entries)
            &&& offset <= reached <= count
            &&& bytes.len() == reached * 4096
            &&& output.is_prefix_of(bytes)
            &&& reached < count ==> find(after.entries, target_of(block, reached)) is None
            &&& forall|k: int, i: int|
                offset <= k < reached && 0 <= i < model.entries.len() && (
                #[trigger] model.entries[i]).state == EntryState::Dirty && model.entries[i].block
                    == target_of(block, k) ==> #[trigger] chunk(bytes, k) == model.entries[i].data
        }),
    decreases count - offset,
{
    assert(output =~= output.subrange(0, output.len() as int));
    if offset < count {
        if let Some(at) = find(model.entries, target_of(block, offset)) {
            let target = target_of(block, offset);
            assert(caches(model.entries, target, at));
            let next = model.hit(at);
            let longer = output + model.entries[at].data;
            assert(model.entries[at].data.len() == 4096);
            lemma_hit_is_ordered(model, at);
            law_dirty_data_is_served(next, block, offset + 1, count, longer);
            let (after, reached, bytes) = served(next, block, offset + 1, count, longer);
            assert(served(model, block, offset, count, output) == (after, reached, bytes));
            assert(chunk(bytes, offset) =~= model.entries[at].data) by {
                assert forall|j: int| 0 <= j < 4096 implies chunk(bytes, offset)[j]
                    == model.entries[at].data[j] by {
                    assert(bytes[offset * 4096 + j] == longer[offset * 4096 + j]) by {
                        assert(longer =~= bytes.subrange(0, longer.len() as int));
                        assert(longer[offset * 4096 + j] == bytes.subrange(
                            0,
                            longer.len() as int,
                        )[offset * 4096 + j]);
                    }
                }
            }
            assert(output.is_prefix_of(bytes)) by {
                assert forall|j: int| 0 <= j < output.len() implies output[j] == bytes[j] by {
                    assert(longer =~= bytes.subrange(0, longer.len() as int));
                    assert(longer[j] == bytes.subrange(0, longer.len() as int)[j]);
                }
                assert(output =~= bytes.subrange(0, output.len() as int));
            }
            assert forall|k: int, i: int|
                offset <= k < reached && 0 <= i < model.entries.len() && (
                #[trigger] model.entries[i]).state == EntryState::Dirty && model.entries[i].block
                    == target_of(block, k) implies #[trigger] chunk(bytes, k)
                == model.entries[i].data by {
                if k == offset {
                    assert(caches(model.entries, target, i));
                    assert(i == at);
                } else {
                    assert(next.entries[i].state == EntryState::Dirty);
                    assert(next.entries[i].data == model.entries[i].data);
                    assert(next.entries[i].block == target_of(block, k));
                }
            }
        }
    }
}

/// Noting a hit keeps a cache in order.
pub(crate) proof fn lemma_hit_is_ordered(model: CacheModel, at: int)
    requires
        model.ordered(),
        0 <= at < model.entries.len(),
    ensures
        model.hit(at).ordered(),
        same_dirty(model.entries, model.hit(at).entries),
{
    let after = model.hit(at);
    lemma_same_blocks(model.entries, after.entries);
    assert forall|i: int| 0 <= i < after.entries.len() implies ({
        let slot = #[trigger] after.entries[i];
        &&& slot.data.len() == 4096
        &&& slot.used <= after.clock
        &&& slot.state == EntryState::Dirty ==> after.durable < slot.first <= slot.last
            <= after.written
    }) by {
        let slot = model.entries[i];
    }
    assert forall|i: int, j: int|
        0 <= i < j < after.entries.len() && (#[trigger] after.entries[i]).state
            == EntryState::Dirty && (#[trigger] after.entries[j]).state
            == EntryState::Dirty implies after.entries[i].first != after.entries[j].first by {
        assert(model.entries[i].first != model.entries[j].first);
    }
}

/// A flush is issued only when every write up to its ticket is on the backing disk.
pub proof fn law_flush_waits_for_its_writes(model: CacheModel, ticket: u64, i: int)
    requires
        model.ordered(),
        model.decision() == Decision::Flush(ticket),
        0 <= i < model.entries.len(),
        model.entries[i].state == EntryState::Dirty,
    ensures
        model.entries[i].first > ticket,
        model.ticket() == Some(ticket),
{
    lemma_next_dirty(model.entries, 0, model.entries.len());
}

/// Every block of a run is the one after the block before it.
pub open spec fn contiguous(entries: Seq<Slot>, run: Seq<int>) -> bool {
    forall|j: int, k: int|
        0 <= j && k == j + 1 && k < run.len() ==> entries[#[trigger] run[k]].block == block_after(
            entries[#[trigger] run[j]].block,
        )
}

/// Writes are issued oldest first, and none beyond an outstanding ticket before its flush.
pub proof fn law_writes_are_ordered(model: CacheModel, run: Seq<int>)
    requires
        model.ordered(),
        model.batch >= 1,
        model.decision() == Decision::Write(run),
    ensures
        valid_run(model.entries, run),
        run.len() <= model.batch,
        forall|i: int|
            0 <= i < model.entries.len() && (#[trigger] model.entries[i]).state == EntryState::Dirty
                ==> model.entries[run[0]].first <= model.entries[i].first,
        model.ticket() is Some ==> forall|k: int|
            0 <= k < run.len() ==> model.entries[#[trigger] run[k]].first
                <= model.ticket()->Some_0,
        contiguous(model.entries, run),
{
    lemma_next_dirty(model.entries, 0, model.entries.len());
    let first = next_dirty(model.entries, 0, model.entries.len())->Some_0;
    let start = seq![first];
    assert(valid_run(model.entries, start));
    lemma_run(model.entries, start, model.ticket(), model.batch);
}

/// What extends a run keeps it a run.
proof fn lemma_run(entries: Seq<Slot>, run: Seq<int>, ticket: Option<u64>, batch: nat)
    requires
        valid_run(entries, run),
        run.len() <= batch,
        ticket is Some ==> forall|k: int|
            0 <= k < run.len() ==> entries[#[trigger] run[k]].first <= ticket->Some_0,
        contiguous(entries, run),
    ensures
        ({
            let longer = extend_run(entries, run, ticket, batch);
            &&& valid_run(entries, longer)
            &&& longer.len() <= batch
            &&& longer[0] == run[0]
            &&& ticket is Some ==> forall|k: int|
                0 <= k < longer.len() ==> entries[#[trigger] longer[k]].first <= ticket->Some_0
            &&& contiguous(entries, longer)
        }),
    decreases batch - run.len(),
{
    if run.len() < batch {
        let previous = entries[run.last()];
        lemma_next_dirty(entries, previous.first as int, entries.len());
        if let Some(at) = next_dirty(entries, previous.first as int, entries.len()) {
            if entries[at].block == block_after(previous.block) && !(ticket is Some
                && entries[at].first > ticket->Some_0) {
                let longer = run.push(at);
                assert forall|i: int, j: int|
                    0 <= i < j < longer.len() implies entries[#[trigger] longer[i]].first
                    < entries[#[trigger] longer[j]].first by {
                    if j == run.len() && i < run.len() - 1 {
                        assert(entries[run[i]].first < entries[run[run.len() - 1]].first);
                    }
                }
                lemma_run(entries, longer, ticket, batch);
            }
        }
    }
}

/// A writeback step takes nothing from the cache: every entry keeps its block and its
/// data, only a write of all its bytes makes it clean, and what is durable stays so.
pub proof fn law_step_keeps_data(
    before: DiskModel,
    result: Result<WriteBackProgress, DiskError>,
    after: DiskModel,
)
    requires
        before.cache.ordered(),
        before.cache.batch >= 1,
        stepped(before, result, after),
    ensures
        after.cache.written == before.cache.written,
        before.cache.durable <= after.cache.durable <= after.cache.requested,
        after.cache.entries.len() == before.cache.entries.len(),
        forall|i: int|
            0 <= i < before.cache.entries.len() ==> (#[trigger] after.cache.entries[i]).block
                == before.cache.entries[i].block && after.cache.entries[i].data
                == before.cache.entries[i].data && (after.cache.entries[i].state
                == EntryState::Vacant <==> before.cache.entries[i].state == EntryState::Vacant),
        result is Err ==> after.cache.entries == before.cache.entries && after.cache.durable
            == before.cache.durable,
        before.issued.is_prefix_of(after.issued),
{
    assert(before.issued =~= before.issued.subrange(0, before.issued.len() as int));
    match before.cache.decision() {
        Decision::Write(run) => {
            assert(before.issued =~= after.issued.subrange(0, before.issued.len() as int));
            law_writes_are_ordered(before.cache, run);
            lemma_cleaned_keeps(before.cache.entries, run, run.len());
        },
        Decision::Flush(ticket) => {
            assert(before.issued =~= after.issued.subrange(0, before.issued.len() as int));
        },
        _ => {},
    }
}

/// Marking entries clean keeps what they hold.
proof fn lemma_cleaned_keeps(entries: Seq<Slot>, run: Seq<int>, count: nat)
    requires
        valid_run(entries, run),
        count <= run.len(),
    ensures
        cleaned(entries, run, count).len() == entries.len(),
        forall|i: int|
            0 <= i < entries.len() ==> (#[trigger] cleaned(entries, run, count)[i]).block
                == entries[i].block && cleaned(entries, run, count)[i].data == entries[i].data && (
            cleaned(entries, run, count)[i].state == EntryState::Vacant <==> entries[i].state
                == EntryState::Vacant),
    decreases count,
{
    if count > 0 {
        lemma_cleaned_keeps(entries, run, (count - 1) as nat);
    }
}

/// After a flush, exactly the writes above the durable sequence are still dirty.
pub proof fn law_durable_writes_are_clean(model: CacheModel, i: int)
    requires
        model.ordered(),
        0 <= i < model.entries.len(),
        model.entries[i].state == EntryState::Dirty,
    ensures
        model.entries[i].first > model.durable,
{
}

/// Uncached blocks of a range, counted from its first block on.
proof fn lemma_uncached_first(entries: Seq<Slot>, block: u64, count: nat)
    requires
        count > 0,
        block + count <= u64::MAX,
    ensures
        uncached(entries, block, count) == uncached(
            entries,
            (block + 1) as u64,
            (count - 1) as nat,
        ) + if find(entries, block) is None {
            1nat
        } else {
            0
        },
    decreases count,
{
    if count > 1 {
        lemma_uncached_first(entries, block, (count - 1) as nat);
    } else {
        assert(uncached(entries, block, 0) == 0);
    }
}

/// A block came in and another may have gone out.
proof fn lemma_uncached_change(
    before: Seq<Slot>,
    after: Seq<Slot>,
    block: u64,
    count: nat,
    gone: Option<u64>,
)
    requires
        block + count <= u64::MAX,
        gone matches Some(other) ==> find(before, other) is Some,
        forall|other: u64|
            block <= other < block + count ==> (#[trigger] find(after, other) is None <==> (gone
                == Some(other) || find(before, other) is None)),
    ensures
        uncached(after, block, count) == uncached(before, block, count) + (if gone is Some && block
            <= gone->Some_0 < block + count {
            1nat
        } else {
            0
        }),
    decreases count,
{
    if count > 0 {
        lemma_uncached_change(before, after, block, (count - 1) as nat, gone);
        let last = (block + count - 1) as u64;
        assert(find(after, last) is None <==> (gone == Some(last) || find(before, last) is None));
    }
}

/// Replacing an entry changes the number of free entries accordingly.
proof fn lemma_free_update(entries: Seq<Slot>, start: int, end: int, count: nat, at: int, slot: Slot)
    requires
        count <= entries.len(),
        0 <= at < entries.len(),
    ensures
        free_entries(entries.update(at, slot), start, end, count) == free_entries(
            entries,
            start,
            end,
            count,
        ) + (if at < count && free_for(slot, start, end) {
            1int
        } else {
            0
        }) - (if at < count && free_for(entries[at], start, end) {
            1int
        } else {
            0
        }),
    decreases count,
{
    if count > 0 {
        lemma_free_update(entries, start, end, (count - 1) as nat, at, slot);
    }
}

/// Where no clean entry holds the first block of a range, the range may begin after it.
proof fn lemma_free_narrow(entries: Seq<Slot>, start: int, end: int, count: nat)
    requires
        count <= entries.len(),
        forall|i: int|
            0 <= i < entries.len() && (#[trigger] entries[i]).state == EntryState::Clean
                ==> entries[i].block != start,
    ensures
        free_entries(entries, start + 1, end, count) == free_entries(entries, start, end, count),
    decreases count,
{
    if count > 0 {
        lemma_free_narrow(entries, start, end, (count - 1) as nat);
    }
}

/// Free entries are there if they are counted.
proof fn lemma_free_exists(entries: Seq<Slot>, start: int, end: int, count: nat)
    requires
        count <= entries.len(),
        free_entries(entries, start, end, count) > 0,
    ensures
        exists|i: int| 0 <= i < count && free_for(#[trigger] entries[i], start, end),
    decreases count,
{
    if count > 0 {
        if !free_for(entries[count - 1], start, end) {
            lemma_free_exists(entries, start, end, (count - 1) as nat);
        }
    }
}

/// Taking one block of a write leaves enough free entries for the rest.
proof fn lemma_room_remains(model: CacheModel, block: u64, data: Seq<u8>, sequence: u64, count: nat)
    requires
        distinct_blocks(model.entries),
        count > 0,
        block + count <= u64::MAX,
        free_entries(model.entries, block as int, block + count, model.entries.len()) >= uncached(
            model.entries,
            block,
            count,
        ),
    ensures
        model.accepted(block, data, sequence) matches Some(after) && distinct_blocks(after.entries)
            && free_entries(after.entries, block + 1, block + count, after.entries.len())
            >= uncached(after.entries, (block + 1) as u64, (count - 1) as nat),
{
    let entries = model.entries;
    let size = entries.len();
    let end = block + count;
    lemma_uncached_first(entries, block, count);
    match find(entries, block) {
        Some(at) => {
            assert(caches(entries, block, at));
            let after = model.accepted(block, data, sequence)->Some_0;
            let slot = after.entries[at];
            assert(after.entries =~= entries.update(at, slot));
            lemma_same_blocks(entries, after.entries);
            lemma_free_update(entries, block as int, end, size, at, slot);
            assert forall|i: int| 0 <= i < size && (#[trigger] after.entries[i]).state
                == EntryState::Clean implies after.entries[i].block != block by {
                if after.entries[i].block == block {
                    assert(caches(entries, block, i));
                }
            }
            lemma_free_narrow(after.entries, block as int, end, size);
            lemma_uncached_change(
                entries,
                after.entries,
                (block + 1) as u64,
                (count - 1) as nat,
                None,
            );
        },
        None => {
            lemma_free_exists(entries, block as int, end, size);
            lemma_reusable(entries, size);
            let at = reusable(entries)->Some_0;
            let after = model.accepted(block, data, sequence)->Some_0;
            let slot = after.entries[at];
            assert(after.entries =~= entries.update(at, slot));
            lemma_replaced(entries, at, slot);
            lemma_free_update(entries, block as int, end, size, at, slot);
            assert forall|i: int| 0 <= i < size && (#[trigger] after.entries[i]).state
                == EntryState::Clean implies after.entries[i].block != block by {
                if after.entries[i].block == block {
                    assert(caches(entries, block, i));
                }
            }
            lemma_free_narrow(after.entries, block as int, end, size);
            let gone = if entries[at].state == EntryState::Clean {
                Some(entries[at].block)
            } else {
                None
            };
            if gone is Some {
                assert(caches(entries, entries[at].block, at));
                lemma_find(entries, entries[at].block, at);
            }
            assert forall|other: u64|
                block + 1 <= other < end implies (#[trigger] find(after.entries, other) is None
                <==> (gone == Some(other) || find(entries, other) is None)) by {
                if caches(entries, other, at) {
                    assert(gone == Some(other));
                }
            }
            lemma_uncached_change(
                entries,
                after.entries,
                (block + 1) as u64,
                (count - 1) as nat,
                gone,
            );
        },
    }
}

/// A write for which there are enough free entries is taken whole.
pub proof fn law_checked_write_is_taken_whole(
    model: CacheModel,
    block: u64,
    bytes: Seq<u8>,
    taken_blocks: nat,
    count: nat,
)
    requires
        distinct_blocks(model.entries),
        taken_blocks <= count,
        block + count <= u64::MAX,
        free_entries(model.entries, block as int, block + count, model.entries.len()) >= uncached(
            model.entries,
            block,
            count,
        ),
    ensures
        ({
            let (after, fits) = taken(model, block, bytes, taken_blocks);
            &&& fits
            &&& distinct_blocks(after.entries)
            &&& free_entries(
                after.entries,
                block + taken_blocks,
                block + count,
                after.entries.len(),
            ) >= uncached(
                after.entries,
                target_of(block, taken_blocks as int),
                (count - taken_blocks) as nat,
            )
        }),
    decreases taken_blocks,
{
    if taken_blocks > 0 {
        let k = (taken_blocks - 1) as nat;
        law_checked_write_is_taken_whole(model, block, bytes, k, count);
        let (before, fits) = taken(model, block, bytes, k);
        let numbered = CacheModel { written: (before.written + 1) as u64, ..before };
        lemma_room_remains(
            numbered,
            target_of(block, k as int),
            chunk(bytes, k as int),
            numbered.written,
            (count - k) as nat,
        );
    }
}

/// What was written is what the cache holds: every block of a taken write is cached and
/// dirty, with the bytes that were written.
pub proof fn law_written_blocks_are_cached(
    model: CacheModel,
    block: u64,
    bytes: Seq<u8>,
    count: nat,
    k: int,
)
    requires
        distinct_blocks(model.entries),
        taken(model, block, bytes, count).1,
        0 <= k < count,
        block + count <= u64::MAX,
    ensures
        ({
            let after = taken(model, block, bytes, count).0;
            let at = find(after.entries, target_of(block, k));
            &&& distinct_blocks(after.entries)
            &&& at is Some
            &&& caches(after.entries, target_of(block, k), at->Some_0)
            &&& after.entries[at->Some_0].state == EntryState::Dirty
            &&& after.entries[at->Some_0].data == chunk(bytes, k)
        }),
    decreases count,
{
    let last = (count - 1) as nat;
    let (before, fits) = taken(model, block, bytes, last);
    let numbered = CacheModel { written: (before.written + 1) as u64, ..before };
    let target = target_of(block, last as int);
    lemma_taken_is_distinct(model, block, bytes, last);
    lemma_taken_is_distinct(model, block, bytes, count);
    let after = taken(model, block, bytes, count).0;
    lemma_accepted_block(numbered, target, chunk(bytes, last as int), numbered.written);
    if k < last {
        law_written_blocks_are_cached(model, block, bytes, last, k);
        let at = find(before.entries, target_of(block, k))->Some_0;
        assert(caches(before.entries, target_of(block, k), at));
        assert(target_of(block, k) != target);
        assert(after.entries[at] == before.entries[at]);
        assert(caches(after.entries, target_of(block, k), at));
        lemma_find(after.entries, target_of(block, k), at);
    }
}

/// What was written is read back: a read of the blocks of a taken write is served whole
/// from the cache, with the bytes that were written.
pub proof fn law_read_returns_what_was_written(
    model: CacheModel,
    block: u64,
    bytes: Seq<u8>,
    count: nat,
)
    requires
        distinct_blocks(model.entries),
        taken(model, block, bytes, count).1,
        bytes.len() == count * 4096,
        block + count <= u64::MAX,
    ensures
        ({
            let after = taken(model, block, bytes, count).0;
            let (read, reached, output) = served(after, block, 0, count as int, Seq::empty());
            &&& reached == count
            &&& output == bytes
            &&& same_dirty(after.entries, read.entries)
        }),
{
    let after = taken(model, block, bytes, count).0;
    lemma_taken_is_distinct(model, block, bytes, count);
    assert forall|k: int| 0 <= k < count implies holds_chunk(
        after.entries,
        #[trigger] target_of(block, k),
        chunk(bytes, k),
    ) by {
        law_written_blocks_are_cached(model, block, bytes, count, k);
    }
    assert(bytes.subrange(0, 0) =~= Seq::empty());
    lemma_served_whole(after, block, bytes, 0, count);
    assert(bytes.subrange(0, count as int * 4096) =~= bytes);
}

/// The block is cached with these bytes.
spec fn holds_chunk(entries: Seq<Slot>, block: u64, data: Seq<u8>) -> bool {
    match find(entries, block) {
        Some(at) => caches(entries, block, at) && entries[at].data == data,
        None => false,
    }
}

/// Cached blocks are served to the end.
proof fn lemma_served_whole(model: CacheModel, block: u64, bytes: Seq<u8>, offset: int, count: nat)
    requires
        distinct_blocks(model.entries),
        0 <= offset <= count,
        bytes.len() == count * 4096,
        forall|k: int|
            0 <= k < count ==> holds_chunk(
                model.entries,
                #[trigger] target_of(block, k),
                chunk(bytes, k),
            ),
    ensures
        ({
            let (read, reached, output) = served(
                model,
                block,
                offset,
                count as int,
                bytes.subrange(0, offset * 4096),
            );
            &&& reached == count
            &&& output == bytes.subrange(0, count as int * 4096)
            &&& same_dirty(model.entries, read.entries)
        }),
    decreases count - offset,
{
    if offset < count {
        assert(holds_chunk(model.entries, target_of(block, offset), chunk(bytes, offset)));
        let at = find(model.entries, target_of(block, offset))->Some_0;
        let next = model.hit(at);
        lemma_same_blocks(model.entries, next.entries);
        assert(bytes.subrange(0, offset * 4096) + chunk(bytes, offset) =~= bytes.subrange(
            0,
            (offset + 1) * 4096,
        ));
        assert forall|k: int| 0 <= k < count implies holds_chunk(
            next.entries,
            #[trigger] target_of(block, k),
            chunk(bytes, k),
        ) by {
            assert(holds_chunk(model.entries, target_of(block, k), chunk(bytes, k)));
        }
        lemma_served_whole(next, block, bytes, offset + 1, count);
        let after = served(
            next,
            block,
            offset + 1,
            count as int,
            bytes.subrange(0, (offset + 1) * 4096),
        ).0;
        assert(same_dirty(model.entries, after.entries)) by {
            assert forall|i: int| 0 <= i < model.entries.len() implies ((
            #[trigger] after.entries[i]).state == EntryState::Dirty <==> model.entries[i].state
                == EntryState::Dirty) && (after.entries[i].state == EntryState::Dirty
                ==> after.entries[i].block == model.entries[i].block && after.entries[i].data
                == model.entries[i].data && after.entries[i].first == model.entries[i].first
                && after.entries[i].last == model.entries[i].last) by {
                let middle = next.entries[i];
            }
        }
    }
}

/// Taking a block caches it and leaves every other dirty entry alone.
proof fn lemma_accepted_block(model: CacheModel, block: u64, data: Seq<u8>, sequence: u64)
    requires
        distinct_blocks(model.entries),
        model.accepted(block, data, sequence) is Some,
    ensures
        ({
            let after = model.accepted(block, data, sequence)->Some_0;
            &&& distinct_blocks(after.entries)
            &&& after.entries.len() == model.entries.len()
            &&& find(after.entries, block) matches Some(at) && caches(after.entries, block, at)
                && after.entries[at].state == EntryState::Dirty && after.entries[at].data == data
            &&& forall|i: int|
                0 <= i < model.entries.len() && model.entries[i].state == EntryState::Dirty
                    && model.entries[i].block != block ==> #[trigger] after.entries[i]
                    == model.entries[i]
        }),
{
    let entries = model.entries;
    let after = model.accepted(block, data, sequence)->Some_0;
    match find(entries, block) {
        Some(at) => {
            assert(caches(entries, block, at));
            assert(after.entries =~= entries.update(at, after.entries[at]));
            lemma_same_blocks(entries, after.entries);
            assert(caches(after.entries, block, at));
            lemma_find(after.entries, block, at);
        },
        None => {
            lemma_reusable(entries, entries.len());
            let at = reusable(entries)->Some_0;
            assert(after.entries =~= entries.update(at, after.entries[at]));
            lemma_replaced(entries, at, after.entries[at]);
            assert(caches(after.entries, block, at));
        },
    }
}

/// Taking blocks keeps every block in one entry.
proof fn lemma_taken_is_distinct(model: CacheModel, block: u64, bytes: Seq<u8>, count: nat)
    requires
        distinct_blocks(model.entries),
    ensures
        distinct_blocks(taken(model, block, bytes, count).0.entries),
    decreases count,
{
    if count > 0 {
        lemma_taken_is_distinct(model, block, bytes, (count - 1) as nat);
        let (before, fits) = taken(model, block, bytes, (count - 1) as nat);
        if fits {
            let numbered = CacheModel { written: (before.written + 1) as u64, ..before };
            if numbered.accepted(
                target_of(block, count - 1),
                chunk(bytes, count - 1),
                numbered.written,
            ) is Some {
                lemma_accepted_block(
                    numbered,
                    target_of(block, count - 1),
                    chunk(bytes, count - 1),
                    numbered.written,
                );
            }
        }
    }
}

/// Nothing that is done to a cache grows a collection: its entries and the places of its lookup
/// table stay as many, and its tickets fit the slots that were reserved for them.
pub proof fn law_storage_is_fixed(
    cache: CacheModel,
    block: u64,
    data: Seq<u8>,
    sequence: u64,
    at: int,
    run: Seq<int>,
)
    requires
        cache.ordered(),
        0 <= at < cache.entries.len(),
        valid_run(cache.entries, run),
    ensures
        cache.tickets.len() <= cache.ticket_slots,
        same_storage(cache, cache.hit(at)),
        same_storage(cache, cache.admitted(block, data)),
        cache.accepted(block, data, sequence) matches Some(taken) ==> same_storage(cache, taken),
        same_storage(cache, cache.wrote(run)),
        cache.tickets.len() > 0 ==> same_storage(cache, cache.flushed()),
        same_storage(cache, cache.durability_requested().0),
{
    lemma_reusable(cache.entries, cache.entries.len());
    lemma_cleaned_keeps(cache.entries, run, run.len());
    if let Some(free) = reusable(cache.entries) {
        let old_block = cache.entries[free].block;
        lemma_places_stay(cache.lookup, old_block, free as usize);
        lemma_places_stay(cache.lookup, block, free as usize);
        lemma_places_stay(without_block(cache.lookup, old_block), block, free as usize);
    }
}

} // verus!
