//! How the device is set up and its interrupts are programmed, and what becomes of requests that
//! end, that are canceled or that are waited for.
use vstd::prelude::*;

use super::device::{HardwareStatus, ResetState, VirtioBlk};
use super::queue::{
    plan_spec, range_spec, segment_total, segments_error, status_error, BlockOperation,
    used_distance, DmaSegment, RequestSlot, SlotState, VirtioBlkError,
};
use super::setup::{
    after_reply, asks, msix_program_spec, msix_unmask_spec, MsixStep, Setup, SetupReply,
    SetupRequest, SetupStep,
};
use super::synchronous::{sync_post, SyncReply, SyncRequest, Synchronous};
use super::transfer::{carries, first_free, hardware_status};

verus! {

/// Each step of the setup asks the registers that are for it. The device is reset, acknowledged,
/// driven and then set ready by the values of its status register; the driver takes of the features
/// that the device offers those for read-only and flushing devices and no others; the one queue is
/// selected, and its memory is handed over by the number of its page.
#[verifier::rlimit(40)]
pub proof fn law_setup_steps_ask_the_registers_that_are_for_them(setup: Setup)
    ensures
        setup.step is Bar0 ==> asks(setup) == (SetupRequest::PciRead32 { offset: 16 }),
        setup.step is ReadCommand ==> asks(setup) == (SetupRequest::PciRead16 { offset: 4 }),
        setup.step is WriteCommand ==> (asks(setup) matches SetupRequest::PciWrite16 { offset, value }
            && offset == 4 && value & 7 == 7 && value & 0xfff8 == setup.command & 0xfff8),
        setup.step is Identity ==> asks(setup) == (SetupRequest::PciRead32 { offset: 0 }),
        setup.step is MaskMsix ==> asks(setup) == (SetupRequest::MsixControl {
            enabled: false,
            masked: true,
        }),
        setup.step is OpenPorts ==> asks(setup) == (SetupRequest::OpenPorts { base: setup.base }),
        setup.step is Reset ==> asks(setup) == (SetupRequest::Write8 { register: 18, value: 0 }),
        setup.step is Acknowledge ==> asks(setup) == (SetupRequest::Write8 {
            register: 18,
            value: 1,
        }),
        setup.step is Driver ==> asks(setup) == (SetupRequest::Write8 { register: 18, value: 3 }),
        setup.step is Features ==> asks(setup) == (SetupRequest::Write8 {
            register: 18,
            value: 11,
        }),
        setup.step is Ready ==> asks(setup) == (SetupRequest::Write8 { register: 18, value: 15 }),
        setup.step is ResetRead || setup.step is AcknowledgeRead || setup.step is DriverRead
            || setup.step is FeaturesRead || setup.step is FeaturesCheck || setup.step is ReadyRead
            || setup.step is ReadyCheck ==> asks(setup) == (SetupRequest::Read8 { register: 18 }),
        setup.step is HostFeatures ==> asks(setup) == (SetupRequest::Read32 { register: 0 }),
        setup.step is GuestFeatures ==> (asks(setup) matches SetupRequest::Write32 { register, word }
            && register == 4 && word == setup.host_features & 0x220),
        setup.step is SelectQueue ==> asks(setup) == (SetupRequest::Write16 {
            register: 14,
            value: 0,
        }),
        setup.step is OldFrame || setup.step is FrameRead ==> asks(setup)
            == (SetupRequest::Read32 { register: 8 }),
        setup.step is QueueSize ==> asks(setup) == (SetupRequest::Read16 { register: 12 }),
        setup.step is Frame ==> (asks(setup) matches SetupRequest::Write32 { register, word }
            && register == 8 && (setup.queue / 4096 <= u32::MAX ==> word == setup.queue / 4096)),
        setup.step is CapacityLow ==> asks(setup) == (SetupRequest::Read32 { register: 20 }),
        setup.step is CapacityHigh ==> asks(setup) == (SetupRequest::Read32 { register: 24 }),
        setup.step is RequestMemory || setup.step is DataMemory ==> asks(setup)
            == (SetupRequest::Allocate { pages: 1 }),
        setup.step is Finished ==> asks(setup) is Finished,
        setup.step matches SetupStep::Failed { error, marked } ==> (
        asks(setup) matches SetupRequest::Failed { error: told, status } && told == error && (marked
            ==> status == Some(139u8)) && (!marked ==> status is None)),
{
    let command = setup.command;
    assert((command | 7) & 7 == 7 && (command | 7) & 0xfff8 == command & 0xfff8) by (bit_vector);
}

/// What the device answers is kept where it belongs and decides what comes next: a device that does
/// not read back what was written to it is given up, as is one that is not the device that is
/// driven, and the memory that came is used for the queue, the requests and the data, in this order.
#[verifier::rlimit(40)]
pub proof fn law_setup_goes_by_what_the_device_answers(setup: Setup, word: u32, physical: u64)
    ensures
        ({
            let next = after_reply(setup, SetupReply::Word(word));
            let given = after_reply(setup, SetupReply::Memory(physical));
            let low = word % 256;
            let half = word % 0x1_0000;
            &&& setup.step is Bar0 && next.step is FindMsix ==> next.base == word / 4 * 4 && word % 2
                == 1 && 0 < word / 4 * 4 <= 0xffe0
            &&& setup.step is ReadCommand ==> next.command == half && next.step is WriteCommand
            &&& setup.step is Identity && !(next.step is Failed) ==> half == 0x1af4 && word / 0x1_0000
                == 0x1001
            &&& setup.step is ResetRead ==> (next.step is Acknowledge <==> low == 0)
            &&& setup.step is AcknowledgeRead && next.step is Driver ==> low & 1 == 1 && low != 255
            &&& setup.step is DriverRead && next.step is HostFeatures ==> low & 3 == 3 && low != 255
            &&& setup.step is HostFeatures ==> next.host_features == word && next.step
                is GuestFeatures
            &&& setup.step is FeaturesCheck ==> (next.step is SelectQueue <==> low / 8 % 2 == 1)
            &&& setup.step is OldFrame ==> (next.step is QueueSize <==> word == 0)
            &&& setup.step is QueueSize && next.step is QueueMemory ==> next.queue_size == half && (
            half == 16 || half == 32 || half == 64 || half == 128 || half == 256)
            &&& setup.step is FrameRead ==> (next.step is CapacityLow <==> word == setup.queue / 4096)
            &&& setup.step is CapacityLow ==> next.capacity_low == word && next.capacity_high
                == setup.capacity_high
            &&& setup.step is CapacityHigh ==> next.capacity_high == word && next.capacity_low
                == setup.capacity_low
            &&& setup.step is UsedIndex ==> next.used_index == half
            &&& setup.step is AvailableIndex ==> (next.step is Ready <==> setup.used_index == 0
                && half == 0)
            &&& setup.step is QueueMemory && given.step is RequestMemory ==> given.queue == physical
                && physical % 4096 == 0 && given.requests == setup.requests
            &&& setup.step is RequestMemory && given.step is DataMemory ==> given.requests == physical
                && given.queue == setup.queue
            &&& setup.step is DataMemory && given.step is Frame ==> given.data == physical
                && given.requests == setup.requests
        }),
{
    let low = (word % 256) as u8;
    assert(low & 1 != 1 || low & 1 == 1);
    assert((low as u32) & 1 == (low & 1) as u32 && (low as u32) & 3 == (low & 3) as u32)
        by (bit_vector);
    assert(low as u32 == word % 256);
}

/// The setup goes from each access to the next in this order.
pub proof fn law_setup_steps_follow_one_another(setup: Setup)
    ensures
        ({
            let next = after_reply(setup, SetupReply::Done).step;
            &&& setup.step is MaskMsix ==> next is ReadCommand
            &&& setup.step is WriteCommand ==> next is Identity
            &&& setup.step is MapTable ==> next is MaskVector
            &&& setup.step is MaskVector ==> next is OpenPorts
            &&& setup.step is OpenPorts ==> next is Reset
            &&& setup.step is Reset ==> next is ResetRead
            &&& setup.step is Acknowledge ==> next is AcknowledgeRead
            &&& setup.step is Driver ==> next is DriverRead
            &&& setup.step is GuestFeatures ==> next is Features
            &&& setup.step is Features ==> next is FeaturesRead
            &&& setup.step is SelectQueue ==> next is OldFrame
            &&& setup.step is Frame ==> next is FrameRead
            &&& setup.step is Ready ==> next is ReadyRead
        }),
{
}

/// The first entry of the interrupt table is programmed with the processor and the vector, masked
/// while that is done, and assigned to the queue and to nothing else.
pub proof fn law_interrupts_reach_the_processor(table: u32, apic: u8, vector: u8)
    ensures
        ({
            let steps = msix_program_spec(table, apic, vector);
            &&& steps.len() == 9
            &&& steps[0] == MsixStep::Table { offset: (table + 12) as u64, word: 1 }
            &&& steps[1] == MsixStep::Table {
                offset: table as u64,
                word: (0xfee0_0000 + 0x1000 * apic) as u32,
            }
            &&& steps[2] == MsixStep::Table { offset: (table + 4) as u64, word: 0 }
            &&& steps[3] == MsixStep::Table { offset: (table + 8) as u64, word: vector as u32 }
            &&& steps[4] is Fence
            &&& steps[5] == MsixStep::Control { enabled: true, masked: true }
            &&& steps[6] == MsixStep::Vector { register: 20, value: 0xffff }
            &&& steps[7] == MsixStep::Vector { register: 14, value: 0 }
            &&& steps[8] == MsixStep::Vector { register: 22, value: 0 }
        }),
        ({
            let steps = msix_unmask_spec(table);
            &&& steps.len() == 4
            &&& steps[0] == MsixStep::Table { offset: (table + 12) as u64, word: 0 }
            &&& steps[1] is Fence
            &&& steps[2] == MsixStep::Control { enabled: true, masked: false }
            &&& steps[3] is Acknowledge
        }),
{
}

/// A request that the device has done frees its slot and is told as what the device made of it: to
/// the one that waits for it, or under its own token. One that was canceled is told to nobody who
/// waits.
pub proof fn law_finished_requests_are_told_as_they_ended(
    driver: VirtioBlk,
    after: VirtioBlk,
    slot: int,
    status: HardwareStatus,
)
    requires
        0 <= slot < driver.slots@.len(),
        driver.finishes(after, slot, status),
        driver.diagnostics.in_flight > 0,
    ensures
        ({
            let done = driver.slots@[slot];
            &&& after.slots@[slot].state is Free
            &&& after.slots@[slot].token is None
            &&& after.slots@[slot].generation == done.generation
            &&& forall|i: int|
                0 <= i < driver.slots@.len() && i != slot ==> #[trigger] after.slots@[i]
                    == driver.slots@[i]
            &&& after.used_index == (driver.used_index + 1) % 0x1_0000
            &&& after.diagnostics.in_flight == driver.diagnostics.in_flight - 1
            &&& !done.synchronous ==> after.finished().len() == driver.finished().len() + 1
                && after.finished().last().token == done.token->Some_0 && after.finished().last().status
                == status && after.sync_completion == driver.sync_completion
            &&& done.synchronous ==> after.finished() == driver.finished()
            &&& done.synchronous && !(done.state is CancelPending) ==> {
                &&& status is Success ==> (after.sync_completion matches Some(told) && told is Ok)
                &&& status is IoError ==> after.sync_completion == Some(
                    Err::<(), VirtioBlkError>(VirtioBlkError::DeviceIo),
                )
                &&& status is Unsupported ==> after.sync_completion == Some(
                    Err::<(), VirtioBlkError>(VirtioBlkError::UnsupportedRequest),
                )
            }
            &&& done.synchronous && done.state is CancelPending ==> after.sync_completion
                == driver.sync_completion
        }),
{
}

/// The device says by a byte how a request ended.
pub proof fn law_status_bytes_mean_what_the_device_says(status: u8)
    ensures
        hardware_status(status) == Some(HardwareStatus::Success) <==> status == 0,
        hardware_status(status) == Some(HardwareStatus::IoError) <==> status == 1,
        hardware_status(status) == Some(HardwareStatus::Unsupported) <==> status == 2,
        hardware_status(status) is None <==> status > 2,
{
}

/// A request is planned by what it is: reads and writes move whole sectors, from the device or to
/// it, and a flush or a barrier moves nothing.
pub proof fn law_requests_are_planned_by_what_they_are(
    operation: BlockOperation,
    byte_len: u32,
    segments: int,
)
    requires
        0 <= segments,
        byte_len < u32::MAX,
    ensures
        ({
            let moves = operation is Read || operation is Write;
            let plan = plan_spec(operation, byte_len, segments);
            &&& plan is Ok <==> segments <= 8 && if moves {
                byte_len > 0 && byte_len % 512 == 0 && segments > 0
            } else {
                byte_len == 0 && segments == 0
            }
            &&& plan matches Ok(plan) ==> {
                &&& operation is Read ==> plan.request_type == 0 && plan.device_writes_data
                    && plan.expected_used_len == byte_len + 1
                &&& operation is Write ==> plan.request_type == 1 && !plan.device_writes_data
                    && plan.expected_used_len == 1
                &&& !moves ==> plan.request_type == 4 && plan.expected_used_len == 1
                &&& plan.data_count == segments && plan.descriptor_count == segments + 2
            }
        }),
{
}

/// Segments are taken only if each holds something and together they hold what is to be moved.
pub proof fn law_segments_hold_what_is_moved(segments: Seq<DmaSegment>, byte_len: u32, i: int)
    requires
        segments_error(segments, byte_len) is None,
        0 <= i < segments.len(),
    ensures
        segments.len() <= 8,
        segments[i].length > 0,
        segments[i].physical_address + segments[i].length - 1 <= u64::MAX,
        segment_total(segments, segments.len()) == byte_len,
{
    lemma_each_segment(segments, segments.len(), i);
}

/// Segments that are taken are taken one by one.
proof fn lemma_each_segment(segments: Seq<DmaSegment>, count: nat, i: int)
    requires
        super::queue::first_segment_error(segments, count) is None,
        0 <= i < count <= segments.len(),
    ensures
        super::queue::segment_error(segments[i]) is None,
    decreases count,
{
    if i < count - 1 {
        lemma_each_segment(segments, (count - 1) as nat, i);
    }
}

/// A transfer stays within the device and moves whole sectors.
pub proof fn law_ranges_stay_within_the_device(first: u64, byte_len: int, capacity: u64)
    requires
        0 <= byte_len,
    ensures
        range_spec(first, byte_len, capacity) is Ok <==> byte_len % 512 == 0 && first + byte_len / 512
            <= capacity,
        range_spec(first, byte_len, capacity) matches Ok(range) ==> range.first_sector == first
            && 512 * range.sector_count == byte_len,
        byte_len % 512 != 0 ==> range_spec(first, byte_len, capacity) == Err::<
            super::queue::TransferRange,
            VirtioBlkError,
        >(VirtioBlkError::Misaligned),
{
}

/// A device that is gone, was reset, has failed or asks to be reset is not used.
pub proof fn law_only_ready_devices_are_used(status: u8)
    ensures
        status_error(status, 15) is None <==> status != 255 && status / 128 == 0 && status / 64 % 2
            == 0 && status % 16 == 15,
        status == 0 ==> status_error(status, 15) == Some(VirtioBlkError::DeviceReset),
        status == 255 ==> status_error(status, 15) == Some(VirtioBlkError::DeviceNotPresent),
        128 <= status < 255 ==> status_error(status, 15) == Some(VirtioBlkError::DeviceFailed),
        status / 64 == 1 ==> status_error(status, 15) == Some(VirtioBlkError::DeviceNeedsReset),
{
    assert(status & 128 != 0 <==> status / 128 == 1) by (bit_vector);
    assert(status & 64 != 0 <==> status / 64 % 2 == 1) by (bit_vector);
    assert(status & 15 == 15 <==> status % 16 == 15) by (bit_vector);
}

/// A cancellation reaches the request that carries the token and no other; the device keeps it.
pub proof fn law_cancellations_reach_the_token(
    driver: VirtioBlk,
    after: Seq<RequestSlot>,
    token: u64,
    i: int,
)
    requires
        driver.cancels(after, token),
        0 <= i < driver.slots@.len(),
        driver.slot_count <= driver.slots@.len(),
    ensures
        after.len() == driver.slots@.len(),
        after[i] != driver.slots@[i] ==> driver.slots@[i].token == Some(token)
            && !(driver.slots@[i].state is Free) && after[i].state is CancelPending
            && after[i].token == Some(token),
        i < driver.slot_count && driver.slots@[i].token == Some(token) && !(
        driver.slots@[i].state is Free) ==> exists|k: int|
            0 <= k <= i && (#[trigger] after[k]).state is CancelPending && after[k].token == Some(
                token,
            ),
{
    if i < driver.slot_count && carries(driver.slots@[i], token) {
        let slot = choose|slot: int|
            #![trigger driver.slots@[slot]]
            0 <= slot < driver.slot_count && carries(driver.slots@[slot], token) && (forall|j: int|
                0 <= j < slot ==> !carries(#[trigger] driver.slots@[j], token)) && after
                == driver.slots@.update(
                slot,
                RequestSlot { state: SlotState::CancelPending, ..driver.slots@[slot] },
            );
        assert(after[slot].state is CancelPending);
    }
}

/// The slot that is taken is free, and the first that is.
pub proof fn law_the_first_free_slot_is_taken(slots: Seq<RequestSlot>, count: nat)
    requires
        count <= slots.len(),
    ensures
        match first_free(slots, count) {
            Some(slot) => 0 <= slot < count && slots[slot].state is Free && forall|i: int|
                0 <= i < slot ==> !((#[trigger] slots[i]).state is Free),
            None => forall|i: int| 0 <= i < count ==> !((#[trigger] slots[i]).state is Free),
        },
    decreases count,
{
    if count > 0 {
        law_the_first_free_slot_is_taken(slots, (count - 1) as nat);
    }
}

/// A request that is waited for ends as the device says, once it has said so. It is given up after
/// the device was asked a million times, and then stays with the device; and it is not begun while
/// another is under way.
#[verifier::rlimit(40)]
pub proof fn law_waits_end_as_the_device_says(
    before: Synchronous,
    after: Synchronous,
    device: VirtioBlk,
    left_device: VirtioBlk,
    reply: SyncReply,
    request: SyncRequest,
)
    requires
        sync_post(before, after, device, left_device, reply, request),
        before.slot < device.slots@.len(),
    ensures
        reply matches SyncReply::Drained(Err(error)) ==> request == SyncRequest::Finished(
            Err(error),
        ),
        reply matches SyncReply::Published(Err(error)) ==> request == SyncRequest::Finished(
            Err(error),
        ),
        reply is Drained && reply->Drained_0 is Ok && before.phase is Polling && device.sync_completion is Some
            ==> request == SyncRequest::Finished(device.sync_completion->Some_0)
            && left_device.sync_completion is None,
        reply is Drained && reply->Drained_0 is Ok && before.phase is Polling && device.sync_completion is None
            && before.left == 0 ==> request == SyncRequest::Finished(
            Err(VirtioBlkError::TimedOut),
        ) && (device.slots@[before.slot as int].state is InFlight && device.slots@[before.slot as int].synchronous
            ==> left_device.slots@[before.slot as int].state is CancelPending),
        reply is Drained && reply->Drained_0 is Ok && before.phase is Polling && device.sync_completion is None
            && before.left > 0 ==> request == (SyncRequest::Drain { pause: true }) && after.left
            == before.left - 1,
        reply is Published && reply->Published_0 is Ok && device.sync_completion is None ==> request
            == (SyncRequest::Drain { pause: false }) && after.left == 999_999,
        reply is Drained && reply->Drained_0 is Ok && before.phase is Clearing
            && device.diagnostics.in_flight != 0 ==> request == SyncRequest::Finished(
            Err(VirtioBlkError::Busy),
        ),
{
}

/// The used index counts modulo its sixteen bits: going on from what was consumed by the
/// distance comes to what was observed.
pub proof fn law_used_entries_are_counted_round(consumed: u16, observed: u16)
    ensures
        ({
            let distance = used_distance(consumed as int, observed as int);
            &&& 0 <= distance <= 0xffff
            &&& (consumed + distance) % 0x1_0000 == observed
        }),
{
}

/// Synchronous requests are refused on a driver that stopped, with its error, and on one that
/// serves asynchronous ones, which is busy.
pub proof fn law_synchronous_requests_come_first(driver: VirtioBlk)
    ensures
        driver.reset_state != ResetState::Running ==> driver.bootstrap_error() == Some(
            VirtioBlkError::DeviceReset,
        ),
        driver.reset_state == ResetState::Running && driver.terminal_error is Some
            ==> driver.bootstrap_error() == driver.terminal_error,
        driver.reset_state == ResetState::Running && driver.terminal_error is None ==> (
        driver.bootstrap_error() == Some(VirtioBlkError::Busy)
            <==> driver.diagnostics.async_enabled) && (driver.bootstrap_error() is None
            <==> !driver.diagnostics.async_enabled),
{
}

} // verus!
