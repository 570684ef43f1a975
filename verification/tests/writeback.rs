use ginkgo_kernel::writeback::disk::{BackingDisk, WriteBackDisk};
use ginkgo_kernel::writeback::lookup::{LookupSlot, LookupTable};
use ginkgo_kernel::writeback::model::{
    WriteBackConfigError, WriteBackFailureOperation, WriteBackProgress, EAGAIN, EINVAL, EIO,
    ENOSPC, EROFS, MAX_WRITEBACK_BATCH_BLOCKS, READ_AHEAD_BLOCKS, WRITEBACK_BLOCK_SIZE,
};

#[derive(Clone, Copy, Debug, Eq, PartialEq)]
enum Event {
    Write(u64, u8),
    Flush,
}

struct FakeDisk {
    data: Vec<u8>,
    events: Vec<Event>,
    reads: usize,
    fail_flushes: usize,
    fail_writes: usize,
}

impl FakeDisk {
    fn new(blocks: usize) -> Self {
        let mut data = vec![0; blocks * WRITEBACK_BLOCK_SIZE];
        for block in 0..blocks {
            data[block * WRITEBACK_BLOCK_SIZE..(block + 1) * WRITEBACK_BLOCK_SIZE]
                .fill(block as u8);
        }
        Self {
            data,
            events: Vec::new(),
            reads: 0,
            fail_flushes: 0,
            fail_writes: 0,
        }
    }
}

impl BackingDisk for FakeDisk {
    fn read_at(&mut self, block: u64, length: usize) -> Result<Vec<u8>, i32> {
        self.reads += 1;
        let start = block as usize * WRITEBACK_BLOCK_SIZE;
        let end = start.checked_add(length).ok_or(EIO)?;
        let source = self.data.get(start..end).ok_or(EIO)?;
        Ok(source.to_vec())
    }

    fn write_at(&mut self, block: u64, buffer: &[u8]) -> Result<usize, i32> {
        if self.fail_writes != 0 {
            self.fail_writes -= 1;
            return Err(EIO);
        }
        let start = block as usize * WRITEBACK_BLOCK_SIZE;
        let end = start.checked_add(buffer.len()).ok_or(EIO)?;
        let destination = self.data.get_mut(start..end).ok_or(EIO)?;
        destination.copy_from_slice(buffer);
        self.events.push(Event::Write(block, buffer[0]));
        Ok(buffer.len())
    }

    fn flush(&mut self) -> Result<(), i32> {
        if self.fail_flushes != 0 {
            self.fail_flushes -= 1;
            return Err(EIO);
        }
        self.events.push(Event::Flush);
        Ok(())
    }

    fn size(&mut self) -> Result<u64, i32> {
        Ok(self.data.len() as u64)
    }
}

fn block(byte: u8) -> Vec<u8> {
    vec![byte; WRITEBACK_BLOCK_SIZE]
}

#[test]
fn writeback_batch_limit_is_bounded_and_configurable() {
    assert!(matches!(
        WriteBackDisk::try_new_with_writeback_batch(FakeDisk::new(4), 2, 0),
        Err(WriteBackConfigError::InvalidWritebackBatch)
    ));
    assert!(matches!(
        WriteBackDisk::try_new_with_writeback_batch(
            FakeDisk::new(4),
            2,
            MAX_WRITEBACK_BATCH_BLOCKS + 1,
        ),
        Err(WriteBackConfigError::InvalidWritebackBatch)
    ));

    let mut disk = WriteBackDisk::try_new_with_writeback_batch(FakeDisk::new(4), 2, 1).unwrap();
    disk.write_at(0, &vec![0x77; 2 * WRITEBACK_BLOCK_SIZE])
        .unwrap();
    disk.writeback_step().unwrap();
    assert_eq!(disk.status().writeback_batch_blocks, 1);
    assert_eq!(disk.dirty_count(), 1);
    assert_eq!(disk.inner().events, vec![Event::Write(0, 0x77)]);
}

#[test]
fn reads_miss_then_hit_and_dirty_data_wins() {
    let mut disk = WriteBackDisk::new(FakeDisk::new(8), 2).unwrap();
    let mut output = block(0xff);
    output = disk.read_at(3, output.len()).unwrap();
    assert_eq!(output[0], 3);
    output = disk.read_at(3, output.len()).unwrap();
    assert_eq!(disk.inner().reads, 1);

    disk.write_at(3, &block(0xa5)).unwrap();
    output.fill(0);
    output = disk.read_at(3, output.len()).unwrap();
    assert_eq!(output[0], 0xa5);
    let metrics = disk.metrics();
    assert_eq!(metrics.read_misses, 1);
    assert_eq!(metrics.clean_read_hits, 1);
    assert_eq!(metrics.dirty_read_hits, 1);
}

#[test]
fn single_block_miss_reads_a_bounded_adjacent_window() {
    let mut disk = WriteBackDisk::new(FakeDisk::new(8), 4).unwrap();
    let mut output = block(0xff);

    output = disk.read_at(0, output.len()).unwrap();
    assert!(output.iter().all(|byte| *byte == 0));
    assert_eq!(disk.inner().reads, 1);
    assert_eq!(disk.metrics().read_ahead_requests, 1);
    assert_eq!(disk.metrics().read_ahead_blocks, READ_AHEAD_BLOCKS as u64);

    output = disk.read_at(1, output.len()).unwrap();
    assert!(output.iter().all(|byte| *byte == 1));
    assert_eq!(disk.inner().reads, 1);
    assert_eq!(disk.metrics().clean_read_hits, 1);
}

#[test]
fn adjacent_cache_misses_use_one_backing_read_per_run() {
    let mut disk = WriteBackDisk::new(FakeDisk::new(8), 4).unwrap();
    disk.write_at(2, &block(0xa5)).unwrap();
    let mut output = vec![0; 4 * WRITEBACK_BLOCK_SIZE];

    output = disk.read_at(0, output.len()).unwrap();

    assert_eq!(disk.inner().reads, 2);
    assert_eq!(disk.metrics().underlying_reads, 2);
    assert_eq!(disk.metrics().read_misses, 3);
    assert_eq!(disk.metrics().dirty_read_hits, 1);
    assert!(output[..WRITEBACK_BLOCK_SIZE].iter().all(|byte| *byte == 0));
    assert!(output[WRITEBACK_BLOCK_SIZE..2 * WRITEBACK_BLOCK_SIZE]
        .iter()
        .all(|byte| *byte == 1));
    assert!(output[2 * WRITEBACK_BLOCK_SIZE..3 * WRITEBACK_BLOCK_SIZE]
        .iter()
        .all(|byte| *byte == 0xa5));
    assert!(output[3 * WRITEBACK_BLOCK_SIZE..]
        .iter()
        .all(|byte| *byte == 3));
}

#[test]
fn coalesces_rewrites_without_losing_sequence_order() {
    let mut disk = WriteBackDisk::new(FakeDisk::new(8), 3).unwrap();
    disk.write_at(2, &block(0x12)).unwrap();
    disk.write_at(3, &block(0x23)).unwrap();
    disk.write_at(2, &block(0x34)).unwrap();

    assert_eq!(
        disk.writeback_step().unwrap(),
        WriteBackProgress::WroteBlock {
            block: 2,
            first_sequence: 1,
            last_sequence: 3,
        }
    );
    disk.writeback_step().unwrap();
    assert_eq!(disk.inner().events, vec![Event::Write(2, 0x34)]);
    assert_eq!(disk.metrics().coalesced_writes, 1);
}

#[test]
fn evicts_clean_entries_and_applies_bounded_backpressure() {
    let mut disk = WriteBackDisk::new(FakeDisk::new(16), 2).unwrap();
    assert!(disk.enable_async_writeback());
    let mut output = block(0);
    output = disk.read_at(0, output.len()).unwrap();
    output = disk.read_at(1, output.len()).unwrap();
    output = disk.read_at(2, output.len()).unwrap();
    assert!(disk.metrics().clean_evictions >= 1);
    assert!(disk.status().lookup_tombstones <= disk.status().lookup_slot_count);

    disk.write_at(8, &block(8)).unwrap();
    disk.write_at(9, &block(9)).unwrap();
    disk.flush().unwrap();
    disk.write_at(10, &block(10)).unwrap();
    disk.write_at(11, &block(11)).unwrap();
    let error = disk.write_at(12, &block(12)).unwrap_err();
    assert_eq!(error.errno, EAGAIN);
    disk.write_at(12, &block(12)).unwrap();
    let error = disk
        .write_at(13, &vec![1; 3 * WRITEBACK_BLOCK_SIZE])
        .unwrap_err();
    assert_eq!(error.errno, ENOSPC);
    assert_eq!(disk.dirty_count(), 1);
    assert_eq!(disk.metrics().pressure_stalls, 1);
}

#[test]
fn boot_flush_is_durable_and_releases_same_block_barrier() {
    let mut disk = WriteBackDisk::new(FakeDisk::new(8), 2).unwrap();
    let before = disk.status();
    assert!(!disk.async_writeback_enabled());

    disk.write_at(3, &block(0x31)).unwrap();
    disk.flush().unwrap();
    assert_eq!(disk.requested_sequence(), 1);
    assert_eq!(disk.durable_sequence(), 1);
    assert_eq!(disk.dirty_count(), 0);
    assert_eq!(
        disk.inner().events,
        vec![Event::Write(3, 0x31), Event::Flush]
    );

    disk.write_at(3, &block(0x32)).unwrap();
    disk.flush().unwrap();
    assert_eq!(disk.requested_sequence(), 2);
    assert_eq!(disk.durable_sequence(), 2);
    assert_eq!(
        disk.inner().events,
        vec![
            Event::Write(3, 0x31),
            Event::Flush,
            Event::Write(3, 0x32),
            Event::Flush
        ]
    );
    let after = disk.status();
    assert_eq!(
        after.entry_allocation_capacity,
        before.entry_allocation_capacity
    );
    assert_eq!(
        after.lookup_allocation_capacity,
        before.lookup_allocation_capacity
    );
    assert_eq!(
        after.flush_ticket_allocation_capacity,
        before.flush_ticket_allocation_capacity
    );
}

#[test]
fn async_mode_flush_returns_pending_and_steps_make_it_durable() {
    let mut disk = WriteBackDisk::new(FakeDisk::new(8), 2).unwrap();
    let before = disk.status();
    assert!(disk.enable_async_writeback());
    assert!(!disk.enable_async_writeback());
    assert!(disk.is_async_writeback_enabled());

    disk.write_at(4, &block(0x44)).unwrap();
    disk.flush().unwrap();
    assert_eq!(disk.requested_sequence(), 1);
    assert_eq!(disk.durable_sequence(), 0);
    assert_eq!(disk.status().pending_flush_tickets, 1);
    assert!(disk.inner().events.is_empty());

    assert!(matches!(
        disk.writeback_step().unwrap(),
        WriteBackProgress::WroteBlock { block: 4, .. }
    ));
    assert_eq!(disk.durable_sequence(), 0);
    assert!(matches!(
        disk.writeback_step().unwrap(),
        WriteBackProgress::Flushed {
            durable_sequence: 1
        }
    ));
    assert_eq!(disk.durable_sequence(), 1);
    assert_eq!(disk.status().pending_flush_tickets, 0);
    assert_eq!(
        disk.inner().events,
        vec![Event::Write(4, 0x44), Event::Flush]
    );

    let after = disk.status();
    assert_eq!(
        after.entry_allocation_capacity,
        before.entry_allocation_capacity
    );
    assert_eq!(
        after.lookup_allocation_capacity,
        before.lookup_allocation_capacity
    );
    assert_eq!(
        after.flush_ticket_allocation_capacity,
        before.flush_ticket_allocation_capacity
    );
    assert_eq!(disk.metrics().async_writeback_enables, 1);
}

#[test]
fn flush_ticket_excludes_later_dispatch_and_barrier_crossing_rewrite() {
    let mut disk = WriteBackDisk::new(FakeDisk::new(8), 3).unwrap();
    assert!(disk.enable_async_writeback());
    disk.write_at(1, &block(0x11)).unwrap();
    disk.flush().unwrap();
    let ticket = disk.requested_sequence();
    assert_eq!(ticket, 1);

    let error = disk.write_at(1, &block(0x22)).unwrap_err();
    assert_eq!(error.errno, EAGAIN);
    disk.write_at(2, &block(0x33)).unwrap();
    disk.flush().unwrap();
    assert_eq!(disk.requested_sequence(), 2);

    disk.writeback_step().unwrap();
    disk.writeback_step().unwrap();
    assert_eq!(disk.durable_sequence(), ticket);
    assert_eq!(
        disk.inner().events,
        vec![Event::Write(1, 0x11), Event::Flush]
    );
    disk.writeback_step().unwrap();
    assert_eq!(
        disk.inner().events,
        vec![Event::Write(1, 0x11), Event::Flush, Event::Write(2, 0x33)]
    );
    disk.writeback_step().unwrap();
    assert_eq!(disk.durable_sequence(), 2);
    assert_eq!(disk.inner().events.last(), Some(&Event::Flush));
}

#[test]
fn flush_failure_is_sticky_read_only_and_can_be_retried() {
    let mut inner = FakeDisk::new(8);
    inner.fail_flushes = 1;
    let mut disk = WriteBackDisk::new(inner, 2).unwrap();
    assert!(disk.enable_async_writeback());
    disk.write_at(1, &block(0x44)).unwrap();
    disk.flush().unwrap();
    disk.writeback_step().unwrap();
    assert_eq!(disk.writeback_step().unwrap_err().errno, EIO);
    assert!(disk.is_read_only());
    assert!(matches!(
        disk.failure().unwrap().operation,
        WriteBackFailureOperation::Flush { .. }
    ));
    assert_eq!(disk.writeback_step().unwrap_err().errno, EIO);
    assert_eq!(
        disk.write_at(2, &block(2)).unwrap_err().errno,
        EROFS
    );

    assert!(matches!(
        disk.retry_writeback_step().unwrap(),
        WriteBackProgress::Flushed {
            durable_sequence: 1
        }
    ));
    assert!(!disk.is_read_only());
    assert_eq!(disk.durable_sequence(), 1);
    disk.write_at(2, &block(2)).unwrap();
}

#[test]
fn accepts_and_writes_back_transfers_larger_than_4k() {
    let mut disk = WriteBackDisk::new(FakeDisk::new(8), 4).unwrap();
    let mut input = vec![0; 3 * WRITEBACK_BLOCK_SIZE];
    input[..WRITEBACK_BLOCK_SIZE].fill(0x51);
    input[WRITEBACK_BLOCK_SIZE..2 * WRITEBACK_BLOCK_SIZE].fill(0x52);
    input[2 * WRITEBACK_BLOCK_SIZE..].fill(0x53);
    assert_eq!(disk.write_at(2, &input).unwrap(), input.len());

    let mut output = vec![0; input.len()];
    output = disk.read_at(2, output.len()).unwrap();
    assert_eq!(output, input);
    assert_eq!(disk.inner().reads, 0);
    disk.writeback_step().unwrap();
    disk.writeback_step().unwrap();
    assert_eq!(
        disk.inner().events,
        vec![Event::Write(2, 0x51), Event::Write(4, 0x53)]
    );
    assert_eq!(disk.dirty_count(), 0);
    for (offset, expected) in [0x51, 0x52, 0x53].into_iter().enumerate() {
        let start = (2 + offset) * WRITEBACK_BLOCK_SIZE;
        assert!(disk.inner().data[start..start + WRITEBACK_BLOCK_SIZE]
            .iter()
            .all(|byte| *byte == expected));
    }
}

#[test]
fn quiesce_and_shutdown_drain_are_bounded() {
    let mut disk = WriteBackDisk::new(FakeDisk::new(8), 3).unwrap();
    disk.write_at(0, &block(1)).unwrap();
    disk.write_at(1, &block(2)).unwrap();
    let first = disk.shutdown_drain(2).unwrap();
    assert!(first.complete);
    assert_eq!(first.steps, 2);
    assert_eq!(first.dirty_remaining, 0);
    assert!(disk.is_quiesced());
    assert_eq!(
        disk.write_at(2, &block(3)).unwrap_err().errno,
        EROFS
    );

    let second = disk.shutdown_drain(1).unwrap();
    assert!(second.complete);
    assert_eq!(second.steps, 0);
    assert_eq!(second.ticket, 2);
    assert_eq!(disk.inner().events.last(), Some(&Event::Flush));
}

const CACHE_ENTRIES: usize = 3;
const BLOCKS_WRITTEN: usize = 8;

#[test]
fn pressure_writes_more_unique_blocks_than_capacity_without_a_worker() {
    let mut disk = WriteBackDisk::new(FakeDisk::new(16), CACHE_ENTRIES).unwrap();
    let before = disk.status();
    for target in 0..BLOCKS_WRITTEN {
        disk.write_at(target as u64, &block(0x40 + target as u8))
            .unwrap();
        if target < CACHE_ENTRIES {
            assert!(disk.inner().events.is_empty());
        }
    }

    assert_eq!(
        disk.inner().events,
        vec![
            Event::Write(0, 0x40),
            Event::Write(2, 0x42),
            Event::Write(4, 0x44)
        ]
    );
    for target in 0..BLOCKS_WRITTEN {
        let mut output = block(0);
        output = disk.read_at(target as u64, output.len()).unwrap();
        assert!(output.iter().all(|byte| *byte == 0x40 + target as u8));
    }

    let after_pressure = disk.status();
    assert_eq!(after_pressure.entry_count, before.entry_count);
    assert_eq!(after_pressure.lookup_slot_count, before.lookup_slot_count);
    assert_eq!(
        after_pressure.entry_allocation_capacity,
        before.entry_allocation_capacity
    );
    assert_eq!(
        after_pressure.lookup_allocation_capacity,
        before.lookup_allocation_capacity
    );
    assert_eq!(
        after_pressure.flush_ticket_allocation_capacity,
        before.flush_ticket_allocation_capacity
    );
    assert_eq!(disk.metrics().pressure_writeback_steps, 3);
    assert_eq!(disk.metrics().pressure_entries_freed, 6);

    disk.flush().unwrap();
    while disk.durable_sequence() < disk.requested_sequence() {
        disk.writeback_step().unwrap();
    }
    assert_eq!(
        disk.inner().events,
        vec![
            Event::Write(0, 0x40),
            Event::Write(2, 0x42),
            Event::Write(4, 0x44),
            Event::Write(6, 0x46),
            Event::Flush
        ]
    );
    for target in 0..BLOCKS_WRITTEN {
        let start = target * WRITEBACK_BLOCK_SIZE;
        assert!(disk.inner().data[start..start + WRITEBACK_BLOCK_SIZE]
            .iter()
            .all(|byte| *byte == 0x40 + target as u8));
    }
}

#[test]
fn operation_paths_never_grow_preallocated_storage() {
    let mut disk = WriteBackDisk::new(FakeDisk::new(64), 4).unwrap();
    let before = disk.status();
    let mut output = block(0);
    for target in 0..24 {
        output = disk.read_at(target, output.len()).unwrap();
    }
    for target in 24..28 {
        disk.write_at(target, &block(target as u8)).unwrap();
    }
    disk.flush().unwrap();
    while disk.durable_sequence() < disk.requested_sequence() {
        disk.writeback_step().unwrap();
    }
    let after = disk.status();
    assert_eq!(after.entry_count, before.entry_count);
    assert_eq!(after.lookup_slot_count, before.lookup_slot_count);
    assert_eq!(
        after.flush_ticket_slot_count,
        before.flush_ticket_slot_count
    );
    assert_eq!(
        after.entry_allocation_capacity,
        before.entry_allocation_capacity
    );
    assert_eq!(
        after.lookup_allocation_capacity,
        before.lookup_allocation_capacity
    );
    assert_eq!(
        after.flush_ticket_allocation_capacity,
        before.flush_ticket_allocation_capacity
    );
}

#[test]
fn rejects_partial_blocks_without_mutating_sequences() {
    let mut disk = WriteBackDisk::new(FakeDisk::new(4), 2).unwrap();
    assert_eq!(disk.write_at(0, &[1]).unwrap_err().errno, EINVAL);
    assert_eq!(disk.status().write_sequence, 0);
    let mut short = [0; 1];
    assert_eq!(
        disk.read_at(0, short.len()).unwrap_err().errno,
        EINVAL
    );
}

#[test]
fn write_failure_retries_the_same_dirty_block() {
    let mut inner = FakeDisk::new(4);
    inner.fail_writes = 1;
    let mut disk = WriteBackDisk::new(inner, 1).unwrap();
    disk.write_at(1, &block(0x77)).unwrap();
    assert_eq!(disk.writeback_step().unwrap_err().errno, EIO);
    assert_eq!(disk.dirty_count(), 1);
    assert!(matches!(
        disk.retry_writeback_step().unwrap(),
        WriteBackProgress::WroteBlock { block: 1, .. }
    ));
    assert_eq!(disk.dirty_count(), 0);
    assert_eq!(disk.inner().events, vec![Event::Write(1, 0x77)]);
}

#[test]
fn what_was_written_is_read_before_and_after_writeback() {
    let mut disk = WriteBackDisk::new(FakeDisk::new(8), 2).unwrap();
    disk.write_at(5, &block(0x5a)).unwrap();
    assert_eq!(disk.read_at(5, WRITEBACK_BLOCK_SIZE).unwrap(), block(0x5a));
    disk.flush().unwrap();
    assert_eq!(disk.read_at(5, WRITEBACK_BLOCK_SIZE).unwrap(), block(0x5a));
    assert_eq!(disk.inner().data[5 * WRITEBACK_BLOCK_SIZE], 0x5a);
}

#[test]
fn a_cache_without_entries_is_refused() {
    assert!(matches!(
        WriteBackDisk::try_new(FakeDisk::new(4), 0),
        Err(WriteBackConfigError::ZeroCapacity)
    ));
}

#[test]
fn writes_resume_after_a_quiesce() {
    let mut disk = WriteBackDisk::new(FakeDisk::new(8), 2).unwrap();
    disk.quiesce().unwrap();
    assert_eq!(disk.write_at(1, &block(1)).unwrap_err().errno, EROFS);
    let report = disk.quiesce_and_drain(4).unwrap();
    assert!(report.complete);
    disk.resume_after_quiesce().unwrap();
    disk.write_at(1, &block(1)).unwrap();
    assert_eq!(disk.size().unwrap(), 8 * WRITEBACK_BLOCK_SIZE as u64);
    assert_eq!(disk.into_inner().events, vec![]);
}

#[test]
fn a_lookup_table_stands_exactly_in_reserved_storage() {
    assert!(LookupTable::in_storage(Vec::new(), false, 4).is_none());
    let table = LookupTable::in_storage(Vec::new(), true, 4).unwrap();
    assert_eq!(table.slots, vec![LookupSlot::Empty; 4]);
    assert_eq!(table.tombstones, 0);
    assert_eq!(LookupTable::try_new(8).unwrap().slots.len(), 8);
}

#[test]
fn a_block_goes_to_the_first_place_on_its_way_that_is_not_occupied() {
    let mut table = LookupTable::try_new(8).unwrap();
    table.insert(4, 0);
    table.insert(5, 1);
    table.insert(6, 2);
    let occupied = |block, entry| LookupSlot::Occupied { block, entry };
    assert_eq!(table.slots[4], occupied(4, 0));
    assert_eq!(table.slots[5], occupied(5, 1));
    assert_eq!(table.slots[6], occupied(6, 2));

    table.remove(5);
    table.remove(4);
    assert_eq!(table.slots[4], LookupSlot::Tombstone);
    assert_eq!(table.slots[5], LookupSlot::Tombstone);
    assert_eq!(table.tombstones, 2);
    assert_eq!(table.get(6), Some(2));

    table.insert(7, 3);
    assert_eq!(table.slots[4], occupied(7, 3));
    assert_eq!(table.tombstones, 1);
    assert_eq!(table.get(4), None);
    assert_eq!(table.get(7), Some(3));
}

#[test]
fn an_eviction_leaves_a_tombstone_unless_its_place_is_taken() {
    let mut disk = WriteBackDisk::new(FakeDisk::new(16), 1).unwrap();
    assert_eq!(disk.status().lookup_slot_count, 2);
    disk.read_at(4, WRITEBACK_BLOCK_SIZE).unwrap();
    assert_eq!(disk.status().lookup_tombstones, 0);
    disk.read_at(5, WRITEBACK_BLOCK_SIZE).unwrap();
    assert_eq!(disk.status().lookup_tombstones, 0);
    disk.read_at(9, WRITEBACK_BLOCK_SIZE).unwrap();
    assert_eq!(disk.status().lookup_tombstones, 1);
    assert_eq!(disk.metrics().lookup_tombstones_created, 2);
}
