//! Completing writeback, taking writes and serving reads.
use vstd::prelude::*;

use super::cache::{indices, valid_run, Cache};
use super::model::{
    caches, cleaned, dirty_entries, distinct_blocks, find, in_state, lemma_next_dirty,
    lemma_state_bounds, lemma_state_update, resident_entries, run_last, Decision, DiskError,
    EntryState, Slot, WriteBackFailure, WriteBackFailureOperation, WriteBackProgress, EAGAIN, EIO,
    WRITEBACK_BLOCK_SIZE,
};

verus! {

/// A block stands where it is found.
pub(crate) proof fn lemma_find(entries: Seq<Slot>, block: u64, at: int)
    requires
        distinct_blocks(entries),
        caches(entries, block, at),
    ensures
        find(entries, block) == Some(at),
{
    let found = choose|found: int| caches(entries, block, found);
    assert(caches(entries, block, found));
}

/// Entries that keep their blocks are found as before.
pub(crate) proof fn lemma_same_blocks(before: Seq<Slot>, after: Seq<Slot>)
    requires
        distinct_blocks(before),
        before.len() == after.len(),
        forall|i: int|
            0 <= i < before.len() ==> (#[trigger] after[i]).block == before[i].block && (
            after[i].state == EntryState::Vacant <==> before[i].state == EntryState::Vacant),
    ensures
        distinct_blocks(after),
        forall|block: u64| #[trigger] find(after, block) == find(before, block),
        resident_entries(after) == resident_entries(before),
{
    assert forall|block: u64, at: int| #[trigger] caches(after, block, at) == caches(
        before,
        block,
        at,
    ) by {}
    assert forall|block: u64, i: int, j: int|
        #![trigger caches(after, block, i), caches(after, block, j)]
        caches(after, block, i) && caches(after, block, j) implies i == j by {
        assert(caches(before, block, i));
        assert(caches(before, block, j));
    }
    assert forall|block: u64| #[trigger] find(after, block) == find(before, block) by {
        if exists|at: int| caches(before, block, at) {
            let at = choose|at: int| caches(before, block, at);
            assert(caches(after, block, at));
            lemma_find(before, block, at);
            lemma_find(after, block, at);
        } else {
            assert forall|at: int| !caches(after, block, at) by {
                assert(caches(after, block, at) == caches(before, block, at));
            }
        }
    }
    lemma_same_vacancy(before, after, before.len());
}

/// Entries that are vacant alike are counted alike.
proof fn lemma_same_vacancy(before: Seq<Slot>, after: Seq<Slot>, count: nat)
    requires
        count <= before.len(),
        before.len() == after.len(),
        forall|i: int|
            0 <= i < before.len() ==> ((#[trigger] after[i]).state == EntryState::Vacant
                <==> before[i].state == EntryState::Vacant),
    ensures
        in_state(after, EntryState::Vacant, count) == in_state(before, EntryState::Vacant, count),
    decreases count,
{
    if count > 0 {
        lemma_same_vacancy(before, after, (count - 1) as nat);
        assert(after[count - 1].state == EntryState::Vacant <==> before[count - 1].state
            == EntryState::Vacant);
    }
}

/// A block takes an entry; the block that stood there is no longer found.
pub(crate) proof fn lemma_replaced(entries: Seq<Slot>, at: int, slot: Slot)
    requires
        distinct_blocks(entries),
        0 <= at < entries.len(),
        slot.state != EntryState::Vacant,
        find(entries, slot.block) is None,
    ensures
        distinct_blocks(entries.update(at, slot)),
        forall|block: u64| #[trigger]
            find(entries.update(at, slot), block) == (if block == slot.block {
                Some(at)
            } else if caches(entries, block, at) {
                None
            } else {
                find(entries, block)
            }),
{
    let after = entries.update(at, slot);
    assert forall|i: int| !caches(entries, slot.block, i) by {}
    assert forall|block: u64, i: int| #[trigger] caches(after, block, i) == (if i == at {
        block == slot.block
    } else {
        caches(entries, block, i)
    }) by {}
    assert forall|block: u64, i: int, j: int|
        #![trigger caches(after, block, i), caches(after, block, j)]
        caches(after, block, i) && caches(after, block, j) implies i == j by {
        if i != at {
            assert(caches(entries, block, i));
        }
        if j != at {
            assert(caches(entries, block, j));
        }
    }
    assert forall|block: u64| #[trigger] find(after, block) == (if block == slot.block {
        Some(at)
    } else if caches(entries, block, at) {
        None
    } else {
        find(entries, block)
    }) by {
        if block == slot.block {
            assert(caches(after, block, at));
            lemma_find(after, block, at);
        } else if caches(entries, block, at) {
            assert forall|i: int| !caches(after, block, i) by {
                if i != at && caches(after, block, i) {
                    assert(caches(entries, block, i));
                }
            }
        } else if exists|i: int| caches(entries, block, i) {
            let i = choose|i: int| caches(entries, block, i);
            assert(caches(entries, block, i));
            assert(caches(after, block, i));
            lemma_find(entries, block, i);
            lemma_find(after, block, i);
        } else {
            assert forall|i: int| !caches(after, block, i) by {
                assert(caches(after, block, i) == (if i == at {
                    block == slot.block
                } else {
                    caches(entries, block, i)
                }));
            }
        }
    }
}

/// What a writeback run reports.
pub open spec fn run_report(entries: Seq<Slot>, run: Seq<int>) -> WriteBackProgress {
    WriteBackProgress::WroteBlock {
        block: entries[run[0]].block,
        first_sequence: entries[run[0]].first,
        last_sequence: run_last(entries, run, run.len()),
    }
}

/// What a failed writeback run reports.
pub open spec fn run_failure(entries: Seq<Slot>, run: Seq<int>) -> WriteBackFailureOperation {
    WriteBackFailureOperation::Write {
        block: entries[run[0]].block,
        first_sequence: entries[run[0]].first,
        last_sequence: run_last(entries, run, run.len()),
    }
}

/// Marking a run clean touches only the state of its entries.
pub(crate) proof fn lemma_cleaned(entries: Seq<Slot>, run: Seq<int>, count: nat)
    requires
        count <= run.len(),
        valid_run(entries, run),
    ensures
        cleaned(entries, run, count).len() == entries.len(),
        forall|i: int|
            0 <= i < entries.len() ==> (#[trigger] cleaned(entries, run, count)[i]) == (if run.take(
                count as int,
            ).contains(i) {
                Slot { state: EntryState::Clean, ..entries[i] }
            } else {
                entries[i]
            }),
        dirty_entries(cleaned(entries, run, count)) == dirty_entries(entries) - count,
    decreases count,
{
    if count > 0 {
        let before = cleaned(entries, run, (count - 1) as nat);
        let at = run[count - 1];
        lemma_cleaned(entries, run, (count - 1) as nat);
        let shorter = run.take(count - 1);
        let longer = run.take(count as int);
        assert(longer =~= shorter.push(at));
        assert(!shorter.contains(at)) by {
            if shorter.contains(at) {
                let i = choose|i: int| 0 <= i < shorter.len() && shorter[i] == at;
                assert(entries[run[i]].first < entries[run[count - 1]].first);
            }
        }
        assert(before[at] == entries[at]);
        let slot = Slot { state: EntryState::Clean, ..before[at] };
        lemma_state_update(before, EntryState::Dirty, before.len(), at, slot);
        assert forall|i: int| 0 <= i < entries.len() implies (#[trigger] cleaned(
            entries,
            run,
            count,
        )[i]) == (if longer.contains(i) {
            Slot { state: EntryState::Clean, ..entries[i] }
        } else {
            entries[i]
        }) by {
            if longer.contains(i) && i != at {
                let k = choose|k: int| 0 <= k < longer.len() && longer[k] == i;
                assert(shorter[k] == i);
            }
            if shorter.contains(i) {
                let k = choose|k: int| 0 <= k < shorter.len() && shorter[k] == i;
                assert(longer[k] == i);
            }
            if i == at {
                assert(longer[count - 1] == at);
            }
        }
    }
}

impl Cache {
    /// Records a writeback failure; the first one stays.
    fn record_failure(&mut self, errno: i32, operation: WriteBackFailureOperation)
        requires
            old(self).wf(),
        ensures
            final(self).wf(),
            final(self).model() == old(self).model().failed(errno, operation),
    {
        if self.failure.is_none() {
            self.failure = Some(WriteBackFailure { errno, operation });
        }
        self.metrics.writeback_errors = self.metrics.writeback_errors.saturating_add(1);
        proof {
            self.lemma_same_entries(*old(self));
        }
    }

    /// Completes a flush of the backing disk for the oldest ticket.
    pub fn finish_flush(&mut self, ticket: u64, outcome: Result<(), i32>) -> (result: Result<
        WriteBackProgress,
        DiskError,
    >)
        requires
            old(self).wf(),
            old(self).model().decision() == Decision::Flush(ticket),
        ensures
            final(self).wf(),
            match outcome {
                Ok(()) => {
                    &&& result == Ok::<WriteBackProgress, DiskError>(
                        WriteBackProgress::Flushed { durable_sequence: ticket },
                    )
                    &&& final(self).model() == old(self).model().flushed()
                },
                Err(errno) => {
                    &&& result == Err::<WriteBackProgress, DiskError>(DiskError { errno })
                    &&& final(self).model() == old(self).model().failed(
                        errno,
                        WriteBackFailureOperation::Flush { requested_sequence: ticket },
                    )
                },
            },
    {
        match outcome {
            Ok(()) => {
                let ghost before = *self;
                proof {
                    lemma_next_dirty(self.slots(), 0, self.entries@.len());
                    assert(self.model().tickets[0] == ticket);
                }
                self.durable_sequence = ticket;
                self.flush_ticket_head = if self.flush_ticket_head < self.flush_tickets.len() - 1 {
                    self.flush_ticket_head + 1
                } else {
                    0
                };
                self.flush_ticket_len = self.flush_ticket_len - 1;
                self.metrics.underlying_flushes = self.metrics.underlying_flushes.saturating_add(1);
                proof {
                    assert(self.slots() =~= before.slots());
                    assert(self.model().tickets =~= before.model().tickets.drop_first());
                    let after = self.model();
                    let tickets = before.model().tickets;
                    assert forall|i: int, j: int|
                        0 <= i < j < after.tickets.len() implies #[trigger] after.tickets[i]
                        < #[trigger] after.tickets[j] by {
                        assert(tickets[i + 1] < tickets[j + 1]);
                    }
                    if after.tickets.len() > 0 {
                        assert(tickets[0] < tickets[1]);
                        assert(after.tickets.last() == tickets.last());
                    }
                    assert forall|i: int| 0 <= i < after.entries.len() implies ({
                        let slot = #[trigger] after.entries[i];
                        &&& slot.data.len() == WRITEBACK_BLOCK_SIZE
                        &&& slot.used <= after.clock
                        &&& slot.state == EntryState::Dirty ==> after.durable < slot.first
                            <= slot.last <= after.written
                    }) by {
                        let slot = before.model().entries[i];
                        assert(slot == after.entries[i]);
                    }
                }
                Ok(WriteBackProgress::Flushed { durable_sequence: ticket })
            },
            Err(errno) => {
                self.record_failure(
                    errno,
                    WriteBackFailureOperation::Flush { requested_sequence: ticket },
                );
                Err(DiskError { errno })
            },
        }
    }

    /// The newest sequence of a run.
    fn newest_of_run(&self, run: &Vec<usize>) -> (sequence: u64)
        requires
            run@.len() > 0,
            forall|i: int| 0 <= i < run@.len() ==> #[trigger] run@[i] < self.entries@.len(),
        ensures
            sequence == run_last(self.slots(), indices(run@), run@.len()),
    {
        let first: usize = run[0];
        let mut newest: u64 = self.entries[first].last_sequence;
        let mut index: usize = 1;
        assert(indices(run@)[0] == first);
        assert(self.slots()[first as int] == self.entries@[first as int].slot());
        while index < run.len()
            invariant
                1 <= index <= run@.len(),
                forall|i: int| 0 <= i < run@.len() ==> #[trigger] run@[i] < self.entries@.len(),
                newest == run_last(self.slots(), indices(run@), index as nat),
            decreases run@.len() - index,
        {
            let at: usize = run[index];
            assert(indices(run@)[index as int] == at);
            assert(self.slots()[at as int] == self.entries@[at as int].slot());
            if newest < self.entries[at].last_sequence {
                newest = self.entries[at].last_sequence;
            }
            index += 1;
        }
        newest
    }

    /// Completes a write of a run to the backing disk.
    ///
    /// The entries are clean only if every byte was written.
    pub fn finish_write(&mut self, run: &Vec<usize>, outcome: Result<usize, i32>) -> (result: Result<
        WriteBackProgress,
        DiskError,
    >)
        requires
            old(self).wf(),
            valid_run(old(self).slots(), indices(run@)),
            run@.len() <= 4,
        ensures
            final(self).wf(),
            ({
                let run = indices(run@);
                let entries = old(self).slots();
                match outcome {
                    Ok(written) => if written == run.len() * 4096 {
                        &&& result == Ok::<WriteBackProgress, DiskError>(run_report(entries, run))
                        &&& final(self).model() == old(self).model().wrote(run)
                    } else {
                        &&& result == Err::<WriteBackProgress, DiskError>(DiskError { errno: EIO })
                        &&& final(self).model() == old(self).model().failed(
                            EIO,
                            run_failure(entries, run),
                        )
                    },
                    Err(errno) => {
                        &&& result == Err::<WriteBackProgress, DiskError>(DiskError { errno })
                        &&& final(self).model() == old(self).model().failed(
                            errno,
                            run_failure(entries, run),
                        )
                    },
                }
            }),
    {
        let ghost expected = indices(run@);
        let ghost entries = self.slots();
        proof {
            assert forall|i: int| 0 <= i < run@.len() implies #[trigger] run@[i]
                < self.entries@.len() by {
                assert(expected[i] == run@[i]);
            }
            assert(expected[0] == run@[0]);
            assert(entries[expected[0]] == self.entries@[run@[0] as int].slot());
        }
        let first: usize = run[0];
        let block: u64 = self.entries[first].block;
        let first_sequence: u64 = self.entries[first].first_sequence;
        let last_sequence: u64 = self.newest_of_run(run);
        let byte_len: usize = run.len() * WRITEBACK_BLOCK_SIZE;
        let operation = WriteBackFailureOperation::Write { block, first_sequence, last_sequence };
        match outcome {
            Ok(written) => {
                if written != byte_len {
                    self.record_failure(EIO, operation);
                    return Err(DiskError { errno: EIO });
                }
                let ghost before = *self;
                let mut index: usize = 0;
                while index < run.len()
                    invariant
                        index <= run@.len(),
                        before.wf(),
                        before.slots() == entries,
                        expected == indices(run@),
                        valid_run(entries, expected),
                        self.slots() == cleaned(entries, expected, index as nat),
                        *self == (Cache { entries: self.entries, ..before }),
                    decreases run@.len() - index,
                {
                    let at: usize = run[index];
                    let ghost now = self.slots();
                    proof {
                        assert(expected[index as int] == at);
                        lemma_cleaned(entries, expected, index as nat);
                        assert(now.len() == self.entries@.len());
                        assert(now[at as int] == self.entries@[at as int].slot());
                    }
                    self.entries[at].state = EntryState::Clean;
                    assert(self.slots() =~= now.update(
                        at as int,
                        Slot { state: EntryState::Clean, ..now[at as int] },
                    ));
                    index += 1;
                }
                proof {
                    lemma_cleaned(entries, expected, expected.len());
                    lemma_state_bounds(self.slots(), EntryState::Dirty, self.slots().len());
                    lemma_cleaned_is_ordered(before, *self, expected);
                }
                self.dirty_count = self.dirty_count - run.len();
                self.metrics.blocks_written_back = self.metrics.blocks_written_back.saturating_add(
                    run.len() as u64,
                );
                self.metrics.bytes_written_back = self.metrics.bytes_written_back.saturating_add(
                    byte_len as u64,
                );
                proof {
                    assert(self.model().tickets =~= before.model().tickets);
                    assert(self.model() =~= before.model().wrote(expected));
                }
                Ok(WriteBackProgress::WroteBlock { block, first_sequence, last_sequence })
            },
            Err(errno) => {
                self.record_failure(errno, operation);
                Err(DiskError { errno })
            },
        }
    }

    /// Requests durability of every accepted write.
    pub fn request_durability(&mut self) -> (result: Result<u64, DiskError>)
        requires
            old(self).wf(),
        ensures
            final(self).wf(),
            result == old(self).model().durability_requested().1,
            final(self).model() == old(self).model().durability_requested().0,
    {
        if let Some(failure) = self.failure {
            return Err(DiskError { errno: failure.errno });
        }
        if self.write_sequence == self.requested_sequence {
            self.metrics.flush_requests = self.metrics.flush_requests.saturating_add(1);
            proof {
                self.lemma_same_entries(*old(self));
            }
            return Ok(self.requested_sequence);
        }
        if self.flush_ticket_len == self.flush_tickets.len() {
            self.metrics.flush_backpressure_events =
            self.metrics.flush_backpressure_events.saturating_add(1);
            proof {
                self.lemma_same_entries(*old(self));
            }
            return Err(DiskError { errno: EAGAIN });
        }
        let ghost before = *self;
        let room: usize = self.flush_tickets.len() - self.flush_ticket_head;
        let tail: usize = if self.flush_ticket_len < room {
            self.flush_ticket_head + self.flush_ticket_len
        } else {
            self.flush_ticket_len - room
        };
        self.flush_tickets[tail] = self.write_sequence;
        self.flush_ticket_len = self.flush_ticket_len + 1;
        self.requested_sequence = self.write_sequence;
        self.metrics.flush_requests = self.metrics.flush_requests.saturating_add(1);
        proof {
            assert(self.slots() =~= before.slots());
            assert(self.model().tickets =~= before.model().tickets.push(before.write_sequence));
            let tickets = self.model().tickets;
            assert forall|i: int, j: int| 0 <= i < j < tickets.len() implies #[trigger] tickets[i]
                < #[trigger] tickets[j] by {
                let old_tickets = before.model().tickets;
                assert(old_tickets.len() > 0 ==> old_tickets.last() == before.requested_sequence);
                if j == old_tickets.len() {
                    if i < old_tickets.len() - 1 {
                        assert(old_tickets[i] < old_tickets[old_tickets.len() - 1]);
                    }
                }
            }
            assert(self.model() =~= before.model().durability_requested().0);
        }
        Ok(self.requested_sequence)
    }
}

/// Marking a run clean keeps a cache in order.
proof fn lemma_cleaned_is_ordered(before: Cache, after: Cache, run: Seq<int>)
    requires
        before.wf(),
        valid_run(before.slots(), run),
        after == (Cache { entries: after.entries, ..before }),
        after.slots() == cleaned(before.slots(), run, run.len()),
    ensures
        after.indexed(),
        after.entries@.len() == before.entries@.len(),
        resident_entries(after.slots()) == resident_entries(before.slots()),
        after.model().ordered(),
{
    let entries = before.slots();
    let now = after.slots();
    lemma_cleaned(entries, run, run.len());
    assert(run.take(run.len() as int) =~= run);
    assert forall|i: int| 0 <= i < entries.len() implies (#[trigger] now[i]).block
        == entries[i].block && (now[i].state == EntryState::Vacant <==> entries[i].state
        == EntryState::Vacant) by {
        if run.contains(i) {
            let k = choose|k: int| 0 <= k < run.len() && run[k] == i;
            assert(entries[run[k]].state == EntryState::Dirty);
        }
    }
    lemma_same_blocks(entries, now);
    assert forall|block: u64| match #[trigger] after.lookup.entry_of(block) {
        Some(entry) => find(now, block) == Some(entry as int),
        None => find(now, block) is None,
    } by {
        assert(find(now, block) == find(entries, block));
        let entry = before.lookup.entry_of(block);
    }
    assert(after.model().tickets =~= before.model().tickets);
    assert forall|i: int| 0 <= i < now.len() implies ({
        let slot = #[trigger] now[i];
        &&& slot.data.len() == WRITEBACK_BLOCK_SIZE
        &&& slot.used <= after.access_clock
        &&& slot.state == EntryState::Dirty ==> after.durable_sequence < slot.first <= slot.last
            <= after.write_sequence
    }) by {
        let slot = before.model().entries[i];
    }
    assert forall|i: int, j: int|
        0 <= i < j < now.len() && (#[trigger] now[i]).state == EntryState::Dirty && (
        #[trigger] now[j]).state == EntryState::Dirty implies now[i].first != now[j].first by {
        assert(before.model().entries[i].first != before.model().entries[j].first);
    }
}

} // verus!
