use ginkgo_kernel::virtio_blk::device::{
    capacity_from_words, check_queue_frame, msix_entry, negotiate_features, queue_frame,
    DispatchCommand, HardwareStatus, VirtioBlk, POLL_LIMIT,
};
use ginkgo_kernel::virtio_blk::queue::{
    descriptor_head, descriptor_plan, io_bar_base, mapped_slot_for_used,
    release_slots_after_verified_reset, slot_count_for_queue, transfer_range,
    transitional_config_base, used_index_distance, validate_operational_status, BlockOperation,
    DmaSegment, PciScan, QueueLayout, RequestSlot, SlotState, TransferRange, VirtioBlkError,
    INVALID_SLOT, MAX_QUEUE_SIZE, MAX_SLOTS, READY_STATUS, SECTOR_SIZE, STATUS_DEVICE_NEEDS_RESET,
    STATUS_FAILED,
};
use ginkgo_kernel::virtio_blk::synchronous::{SyncReply, SyncRequest, Synchronous};
use ginkgo_kernel::virtio_blk::transfer::ResetProgress;

#[test]
fn queue_layout_matches_legacy_split_ring_rules() {
    let layout = QueueLayout::new(128).unwrap();
    assert_eq!(layout.descriptors, 0);
    assert_eq!(layout.available, 2048);
    assert_eq!(layout.used, 4096);
    assert_eq!(layout.bytes, 5126);
    assert_eq!(layout.pages, 2);
    assert_eq!(slot_count_for_queue(128), Ok(12));
}

#[test]
fn queue_layout_rejects_sizes_without_one_full_slot() {
    assert_eq!(QueueLayout::new(8), Err(VirtioBlkError::InvalidQueueSize));
    assert_eq!(QueueLayout::new(7), Err(VirtioBlkError::InvalidQueueSize));
    assert_eq!(QueueLayout::new(512), Err(VirtioBlkError::InvalidQueueSize));
    assert_eq!(slot_count_for_queue(16), Ok(1));
    assert_eq!(slot_count_for_queue(32), Ok(3));
}

#[test]
fn descriptor_plans_validate_operations_and_used_lengths() {
    let read = descriptor_plan(BlockOperation::Read, 4096, 8).unwrap();
    assert_eq!(read.data_count, 8);
    assert!(read.device_writes_data);
    assert_eq!(read.descriptor_count, 10);
    assert_eq!(read.expected_used_len, 4097);

    let write = descriptor_plan(BlockOperation::Write, 4096, 2).unwrap();
    assert!(!write.device_writes_data);
    assert_eq!(write.expected_used_len, 1);

    let flush = descriptor_plan(BlockOperation::Flush, 0, 0).unwrap();
    assert_eq!(flush.descriptor_count, 2);
    assert_eq!(flush.expected_used_len, 1);
    assert_eq!(
        descriptor_plan(BlockOperation::Read, 512, 9),
        Err(VirtioBlkError::TooManySegments)
    );
    assert_eq!(
        descriptor_plan(BlockOperation::Write, 513, 1),
        Err(VirtioBlkError::InvalidRequest)
    );
}

#[test]
fn multi_sg_chain_stays_inside_its_fixed_descriptor_block() {
    let plan = descriptor_plan(BlockOperation::Read, 4096, 8).unwrap();
    assert_eq!(plan.chain_indices(0), [0, 1, 2, 3, 4, 5, 6, 7, 8, 9]);
    assert_eq!(
        plan.chain_indices(1),
        [10, 11, 12, 13, 14, 15, 16, 17, 18, 19]
    );
    let flush = descriptor_plan(BlockOperation::Flush, 0, 0).unwrap();
    assert_eq!(flush.chain_indices(2)[..2], [20, 29]);
}

#[test]
fn head_mapping_accepts_out_of_order_used_completions() {
    let mut slots = vec![RequestSlot::empty(); MAX_SLOTS];
    let mut heads = [INVALID_SLOT; MAX_QUEUE_SIZE as usize];
    for slot in 0..2 {
        heads[usize::from(descriptor_head(slot))] = slot as u8;
    }
    slots[0]
        .start(Some(11), false, BlockOperation::Read, 512, 513)
        .unwrap();
    slots[1]
        .start(Some(22), false, BlockOperation::Write, 512, 1)
        .unwrap();

    assert_eq!(mapped_slot_for_used(&heads, &slots, 2, 10), Ok(1));
    slots[1].release();
    assert_eq!(mapped_slot_for_used(&heads, &slots, 2, 0), Ok(0));
    slots[0].release();
    assert_eq!(
        mapped_slot_for_used(&heads, &slots, 2, 10),
        Err(VirtioBlkError::InvalidUsedRing)
    );
}

#[test]
fn used_index_distance_handles_wrap_and_rejects_impossible_jumps() {
    assert_eq!(used_index_distance(u16::MAX - 1, 1, 128), Ok(3));
    assert_eq!(used_index_distance(42, 42, 128), Ok(0));
    assert_eq!(
        used_index_distance(0, 129, 128),
        Err(VirtioBlkError::InvalidUsedRing)
    );
}

#[test]
fn cancellation_is_exact_and_does_not_release_ownership() {
    let mut slot = RequestSlot::empty();
    slot.start(Some(7), false, BlockOperation::Read, 512, 513)
        .unwrap();
    assert!(!slot.request_cancel(8));
    assert!(slot.request_cancel(7));
    assert_eq!(slot.state, SlotState::CancelPending);
    assert_eq!(slot.token, Some(7));
    let first_generation = slot.generation;
    slot.release();
    slot.start(Some(9), false, BlockOperation::Read, 512, 513)
        .unwrap();
    assert!(slot.generation > first_generation);
    assert!(!slot.request_cancel(7));
    assert_eq!(slot.token, Some(9));
}

#[test]
fn reset_releases_slots_only_after_status_zero_is_observed() {
    let mut slots = vec![RequestSlot::empty(); MAX_SLOTS];
    slots[0]
        .start(Some(1), false, BlockOperation::Read, 512, 513)
        .unwrap();
    assert!(!release_slots_after_verified_reset(
        &mut slots,
        1,
        READY_STATUS
    ));
    assert_eq!(slots[0].state, SlotState::InFlight);
    assert!(release_slots_after_verified_reset(&mut slots, 1, 0));
    assert_eq!(slots[0].state, SlotState::Free);
}

#[test]
fn transitional_configuration_base_shifts_for_msix() {
    assert_eq!(transitional_config_base(false), 0x14);
    assert_eq!(transitional_config_base(true), 0x18);
}

#[test]
fn transfer_range_accepts_edge_and_rejects_invalid_ranges() {
    assert_eq!(
        transfer_range(8, 1024, 10),
        Ok(TransferRange {
            first_sector: 8,
            sector_count: 2,
        })
    );
    assert_eq!(
        transfer_range(0, SECTOR_SIZE - 1, 10),
        Err(VirtioBlkError::Misaligned)
    );
    assert_eq!(
        transfer_range(9, 2 * SECTOR_SIZE, 10),
        Err(VirtioBlkError::OutOfBounds)
    );
    assert_eq!(
        transfer_range(u64::MAX, SECTOR_SIZE, u64::MAX),
        Err(VirtioBlkError::AddressOverflow)
    );
}

#[test]
fn io_bar_validation_masks_flags_and_checks_port_space() {
    assert_eq!(io_bar_base(0xc001), Ok(0xc000));
    assert_eq!(io_bar_base(0xc000), Err(VirtioBlkError::InvalidIoBar));
    assert_eq!(io_bar_base(1), Err(VirtioBlkError::InvalidIoBar));
    assert_eq!(io_bar_base(0x1_0001), Err(VirtioBlkError::InvalidIoBar));
    assert_eq!(io_bar_base(0xfff1), Err(VirtioBlkError::InvalidIoBar));
}

#[test]
fn device_status_reports_reset_failure_and_disappearance() {
    assert_eq!(
        validate_operational_status(READY_STATUS, READY_STATUS),
        Ok(())
    );
    assert_eq!(
        validate_operational_status(0, READY_STATUS),
        Err(VirtioBlkError::DeviceReset)
    );
    assert_eq!(
        validate_operational_status(READY_STATUS | STATUS_DEVICE_NEEDS_RESET, READY_STATUS),
        Err(VirtioBlkError::DeviceNeedsReset)
    );
    assert_eq!(
        validate_operational_status(READY_STATUS | STATUS_FAILED, READY_STATUS),
        Err(VirtioBlkError::DeviceFailed)
    );
    assert_eq!(
        validate_operational_status(u8::MAX, READY_STATUS),
        Err(VirtioBlkError::DeviceNotPresent)
    );
}

fn device() -> VirtioBlk {
    let mut device = VirtioBlk::new(128, 0x10_0000, 1000, 0x200, true).unwrap();
    assert_eq!(device.enable_msix_begin(), Ok(true));
    device.enable_msix_end(Ok(())).unwrap();
    device
}

fn read_command(token: u64, lba: u64) -> DispatchCommand {
    DispatchCommand {
        token,
        operation: BlockOperation::Read,
        lba,
        byte_len: 512,
        segments: vec![DmaSegment {
            physical_address: 0x20_0000,
            length: 512,
        }],
    }
}

#[test]
fn a_submitted_request_completes_once_with_its_status() {
    let mut device = device();
    let submission = device.submit(&read_command(7, 4)).unwrap().unwrap();
    assert_eq!(submission.slot, 0);
    assert_eq!(device.pending_used(1), Ok(1));
    let (slot, status_offset) = device.accept_used(0, 513).unwrap();
    assert_eq!(status_offset, 16);
    device.finish_used(slot, 0).unwrap();
    let completion = device.pop_completion().unwrap();
    assert_eq!(completion.token, 7);
    assert_eq!(completion.status, HardwareStatus::Success);
    assert_eq!(device.pop_completion(), None);
}

#[test]
fn a_used_entry_that_nobody_owns_is_fatal() {
    let mut device = device();
    device.submit(&read_command(7, 4)).unwrap();
    assert_eq!(device.pending_used(1), Ok(1));
    assert_eq!(device.accept_used(55, 513), Err(VirtioBlkError::InvalidUsedRing));
    assert_eq!(
        device.submit(&read_command(8, 4)),
        Err(VirtioBlkError::InvalidUsedRing)
    );
}

#[test]
fn requests_past_the_end_are_refused() {
    let mut device = device();
    assert_eq!(
        device.submit(&read_command(7, 1000)),
        Err(VirtioBlkError::OutOfBounds)
    );
    let mut polled = VirtioBlk::new(128, 0x10_0000, 1000, 0x220, false).unwrap();
    assert_eq!(polled.read_sectors(999, 1024), Err(VirtioBlkError::OutOfBounds));
    assert_eq!(polled.write_sectors(0, 512), Err(VirtioBlkError::ReadOnly));
    assert_eq!(
        polled.submit(&read_command(7, 4)),
        Err(VirtioBlkError::AsyncNotEnabled)
    );
}

#[test]
fn chunks_cover_a_transfer_without_gaps() {
    let mut device = VirtioBlk::new(128, 0x10_0000, 1000, 0, false).unwrap();
    let chunks = device.read_sectors(8, 4096 + 512).unwrap();
    assert_eq!(chunks.len(), 2);
    assert_eq!((chunks[0].sector, chunks[0].offset, chunks[0].length), (8, 0, 4096));
    assert_eq!((chunks[1].sector, chunks[1].offset, chunks[1].length), (16, 4096, 512));
}

#[test]
fn a_reset_waits_for_status_zero() {
    let mut device = device();
    device.submit(&read_command(7, 4)).unwrap();
    device.reset_begin();
    device.reset_written(Ok(())).unwrap();
    assert_eq!(device.reset_observed(READY_STATUS), ResetProgress::Pending);
    assert_eq!(device.slots[0].state, SlotState::InFlight);
    assert_eq!(device.reset_observed(0), ResetProgress::Released);
    assert_eq!(device.slots[0].state, SlotState::Free);
    assert_eq!(
        device.submit(&read_command(7, 4)),
        Err(VirtioBlkError::DeviceReset)
    );
}

#[test]
fn setup_words_are_exact() {
    assert_eq!(negotiate_features(0xffff_ffff), 0x220);
    assert_eq!(queue_frame(0x5000), Ok(5));
    assert_eq!(queue_frame(0x1000_0000_0000), Err(VirtioBlkError::UnsupportedDmaAddress));
    assert_eq!(check_queue_frame(5, 6), Err(VirtioBlkError::InvalidQueueLayout));
    assert_eq!(capacity_from_words(2, 1), 0x1_0000_0002);
    assert_eq!(msix_entry(3, 0x41), (0xfee0_3000, 0, 0x41));
}

#[test]
fn the_bus_scan_skips_functions_that_cannot_be() {
    let mut scan = PciScan::new();
    assert_eq!(scan.current(), Some((0, 0, 0)));
    scan.advance(None);
    assert_eq!(scan.current(), Some((0, 1, 0)));
    scan.advance(Some(0x80));
    assert_eq!(scan.current(), Some((0, 1, 1)));
}

fn begin_read(device: &mut VirtioBlk) -> (Synchronous, SyncRequest) {
    let segments = vec![DmaSegment {
        physical_address: 0x20_0000,
        length: 512,
    }];
    let (mut flow, request) = Synchronous::new(BlockOperation::Read, 4, 512, segments);
    assert!(matches!(request, SyncRequest::Drain { pause: false }));
    let request = flow.step(device, SyncReply::Drained(Ok(())));
    let slot = match &request {
        SyncRequest::Publish(submission) => submission.slot,
        other => panic!("the request was not published: {other:?}"),
    };
    assert_eq!(slot, 0);
    let request = flow.step(device, SyncReply::Published(Ok(())));
    (flow, request)
}

#[test]
fn a_synchronous_request_waits_for_its_outcome() {
    let mut device = VirtioBlk::new(128, 0x10_0000, 1000, 0, true).unwrap();
    let (mut flow, request) = begin_read(&mut device);
    assert!(matches!(request, SyncRequest::Drain { pause: false }));
    let request = flow.step(&mut device, SyncReply::Drained(Ok(())));
    assert!(matches!(request, SyncRequest::Drain { pause: true }));
    assert_eq!(device.pending_used(1), Ok(1));
    let (slot, _) = device.accept_used(0, 513).unwrap();
    device.finish_used(slot, 0).unwrap();
    let request = flow.step(&mut device, SyncReply::Drained(Ok(())));
    assert!(matches!(request, SyncRequest::Finished(Ok(()))));
    assert_eq!(device.slots[0].state, SlotState::Free);
}

#[test]
fn a_synchronous_request_is_given_up_after_the_limit() {
    let mut device = VirtioBlk::new(128, 0x10_0000, 1000, 0, true).unwrap();
    let (mut flow, mut request) = begin_read(&mut device);
    let mut drains = 0;
    while matches!(request, SyncRequest::Drain { .. }) {
        drains += 1;
        request = flow.step(&mut device, SyncReply::Drained(Ok(())));
    }
    assert_eq!(drains, POLL_LIMIT);
    assert!(matches!(
        request,
        SyncRequest::Finished(Err(VirtioBlkError::TimedOut))
    ));
    assert_eq!(device.slots[0].state, SlotState::CancelPending);
    assert_eq!(device.diagnostics.errors, 1);
}

#[test]
fn a_ring_that_cannot_be_drained_ends_a_synchronous_request() {
    let mut device = VirtioBlk::new(128, 0x10_0000, 1000, 0, true).unwrap();
    let (mut flow, _) = begin_read(&mut device);
    let request = flow.step(
        &mut device,
        SyncReply::Drained(Err(VirtioBlkError::InvalidUsedRing)),
    );
    assert!(matches!(
        request,
        SyncRequest::Finished(Err(VirtioBlkError::InvalidUsedRing))
    ));
    assert_eq!(device.slots[0].state, SlotState::CancelPending);
    assert_eq!(device.diagnostics.errors, 0);
}
