//! Queue layout, request slots and descriptor chains.
use vstd::prelude::*;

verus! {

pub const VIRTIO_VENDOR_ID: u16 = 0x1af4;

pub const VIRTIO_BLK_TRANSITIONAL_DEVICE_ID: u16 = 0x1001;

pub const PCI_COMMAND_IO_SPACE: u16 = 0x1;

pub const PCI_COMMAND_MEMORY_SPACE: u16 = 0x2;

pub const PCI_COMMAND_BUS_MASTER: u16 = 0x4;

pub const LEGACY_IO_BYTES: u16 = 0x20;

pub const REG_HOST_FEATURES: u16 = 0x00;

pub const REG_GUEST_FEATURES: u16 = 0x04;

pub const REG_QUEUE_PFN: u16 = 0x08;

pub const REG_QUEUE_SIZE: u16 = 0x0c;

pub const REG_QUEUE_SELECT: u16 = 0x0e;

pub const REG_QUEUE_NOTIFY: u16 = 0x10;

pub const REG_DEVICE_STATUS: u16 = 0x12;

pub const REG_ISR_STATUS: u16 = 0x13;

pub const REG_MSIX_CONFIG_VECTOR: u16 = 0x14;

pub const REG_MSIX_QUEUE_VECTOR: u16 = 0x16;

pub const STATUS_ACKNOWLEDGE: u8 = 1;

pub const STATUS_DRIVER: u8 = 2;

pub const STATUS_DRIVER_OK: u8 = 4;

pub const STATUS_FEATURES_OK: u8 = 8;

pub const STATUS_DEVICE_NEEDS_RESET: u8 = 64;

pub const STATUS_FAILED: u8 = 128;

/// The status of a device that the driver operates.
pub const READY_STATUS: u8 = 15;

pub const VIRTIO_BLK_F_RO: u32 = 0x20;

pub const VIRTIO_BLK_F_FLUSH: u32 = 0x200;

pub const SUPPORTED_FEATURES: u32 = 0x220;

pub const VIRTIO_BLK_T_IN: u32 = 0;

pub const VIRTIO_BLK_T_OUT: u32 = 1;

pub const VIRTIO_BLK_T_FLUSH: u32 = 4;

pub const VIRTIO_BLK_S_OK: u8 = 0;

pub const VIRTIO_BLK_S_IOERR: u8 = 1;

pub const VIRTIO_BLK_S_UNSUPP: u8 = 2;

pub const DESC_F_NEXT: u16 = 1;

pub const DESC_F_WRITE: u16 = 2;

pub const DESCRIPTOR_BYTES: usize = 16;

pub const USED_ELEMENT_BYTES: usize = 8;

pub const MAX_QUEUE_SIZE: u16 = 256;

/// Most scatter-gather segments of one request.
pub const MAX_SG_SEGMENTS: usize = 8;

/// Descriptors reserved for one request: header, segments and status.
pub const DESCRIPTORS_PER_SLOT: u16 = 10;

/// Most requests in flight.
pub const MAX_SLOTS: usize = 16;

/// Marks a descriptor that heads no slot.
pub const INVALID_SLOT: u8 = 255;

pub const REQUEST_HEADER_BYTES: u32 = 16;

pub const REQUEST_STATUS_OFFSET: usize = 16;

pub const REQUEST_STRIDE: usize = 32;

pub const SECTOR_SIZE: usize = 512;

pub const PAGE_SIZE: usize = 4096;

pub const MSIX_NO_VECTOR: u16 = 0xffff;

pub const MSIX_TABLE_ENTRY_BYTES: u64 = 16;

pub const MSI_ADDRESS_BASE: u32 = 0xfee0_0000;

pub const MAX_MSIX_BAR_SIZE: u64 = 16 * 1024 * 1024;

/// Why a block operation failed.
///
/// PCI, port, paging and frame-allocator failures carry the code of the
/// subsystem that reported them.
#[derive(Clone, Copy, Debug, PartialEq, Eq, Structural)]
pub enum VirtioBlkError {
    Pci(u32),
    Io(u32),
    Mapping(u32),
    FrameAllocator(u32),
    DeviceNotPresent,
    InvalidIoBar,
    InvalidMsixTable,
    MsixUnavailable,
    MsixRejected,
    InvalidQueueSize,
    InvalidQueueLayout,
    UnsupportedDmaAddress,
    AddressOverflow,
    OutOfFrames,
    FeatureNegotiationFailed,
    ReadOnly,
    Misaligned,
    OutOfBounds,
    TimedOut,
    Busy,
    QueueFull,
    AsyncNotEnabled,
    TooManySegments,
    InvalidRequest,
    GenerationExhausted,
    CompletionQueueFull,
    DeviceNeedsReset,
    DeviceReset,
    DeviceFailed,
    DeviceIo,
    UnsupportedRequest,
    InvalidDeviceStatus(u8),
    InvalidUsedRing,
    InvalidDescriptorChain,
}

/// What a request asks of the device.
#[derive(Clone, Copy, Debug, PartialEq, Eq, Structural)]
pub enum BlockOperation {
    Read,
    Write,
    Flush,
    Barrier,
}

/// One physically contiguous part of a request's data.
#[derive(Clone, Copy, Debug, PartialEq, Eq, Structural)]
pub struct DmaSegment {
    pub physical_address: u64,
    pub length: u32,
}

/// Offsets and sizes of a split virtqueue.
#[derive(Clone, Copy, Debug, PartialEq, Eq, Structural)]
pub struct QueueLayout {
    pub descriptors: usize,
    pub available: usize,
    pub used: usize,
    pub bytes: usize,
    pub pages: usize,
}

/// A queue size that the driver can use: a power of two that holds one slot.
pub open spec fn usable_queue_size(size: int) -> bool {
    size == 16 || size == 32 || size == 64 || size == 128 || size == 256
}

/// `value` rounded up to whole pages.
pub open spec fn page_round(value: int) -> int {
    (value + 4095) / 4096 * 4096
}

/// The legacy split-ring layout: the used ring starts on a page of its own.
pub open spec fn layout_spec(size: int) -> QueueLayout {
    let used = page_round(16 * size + 6 + 2 * size);
    QueueLayout {
        descriptors: 0,
        available: (16 * size) as usize,
        used: used as usize,
        bytes: (used + 6 + 8 * size) as usize,
        pages: (page_round(used + 6 + 8 * size) / 4096) as usize,
    }
}

impl QueueLayout {
    /// The layout of a queue of `size` descriptors.
    pub fn new(size: u16) -> (result: Result<Self, VirtioBlkError>)
        ensures
            result == (if usable_queue_size(size as int) {
                Ok(layout_spec(size as int))
            } else {
                Err(VirtioBlkError::InvalidQueueSize)
            }),
    {
        if size != 16 && size != 32 && size != 64 && size != 128 && size != 256 {
            return Err(VirtioBlkError::InvalidQueueSize);
        }
        let entries: usize = size as usize;
        let available: usize = entries * 16;
        let used: usize = (available + 6 + entries * 2 + 4095) / 4096 * 4096;
        let bytes: usize = used + 6 + entries * 8;
        Ok(QueueLayout { descriptors: 0, available, used, bytes, pages: (bytes + 4095) / 4096 })
    }
}

/// `value` rounded up to a multiple of `alignment`.
pub fn align_up(value: usize, alignment: usize) -> (result: Result<usize, VirtioBlkError>)
    ensures
        result == (if alignment == 0 || !exists|k: nat|
            alignment == #[trigger] vstd::arithmetic::power2::pow2(k) {
            Err(VirtioBlkError::InvalidQueueLayout)
        } else if value + alignment - 1 > usize::MAX {
            Err(VirtioBlkError::AddressOverflow)
        } else {
            Ok(((value + alignment - 1) / alignment as int * alignment) as usize)
        }),
{
    if !is_power_of_two(alignment) {
        return Err(VirtioBlkError::InvalidQueueLayout);
    }
    proof {
        let k = choose|k: nat| alignment == #[trigger] vstd::arithmetic::power2::pow2(k);
        vstd::arithmetic::power2::lemma_pow2_pos(k);
    }
    match value.checked_add(alignment - 1) {
        None => Err(VirtioBlkError::AddressOverflow),
        Some(sum) => {
            proof {
                vstd::arithmetic::div_mod::lemma_fundamental_div_mod(sum as int, alignment as int);
                assert(sum as int / alignment as int * alignment as int == sum - sum as int
                    % alignment as int) by (nonlinear_arith)
                    requires
                        sum as int == alignment as int * (sum as int / alignment as int) + sum as int
                            % alignment as int,
                ;
            }
            Ok(sum - sum % alignment)
        },
    }
}

/// Whether a number is a power of two.
fn is_power_of_two(value: usize) -> (result: bool)
    ensures
        result == exists|k: nat| value == #[trigger] vstd::arithmetic::power2::pow2(k),
    decreases value,
{
    proof {
        vstd::arithmetic::power2::lemma2_to64();
    }
    if value == 0 {
        proof {
            assert forall|k: nat| value != #[trigger] vstd::arithmetic::power2::pow2(k) by {
                vstd::arithmetic::power2::lemma_pow2_pos(k);
            }
        }
        return false;
    }
    if value == 1 {
        assert(vstd::arithmetic::power2::pow2(0) == value);
        return true;
    }
    if value % 2 == 1 {
        proof {
            assert forall|k: nat| value != #[trigger] vstd::arithmetic::power2::pow2(k) by {
                if k > 0 {
                    vstd::arithmetic::power2::lemma_pow2_unfold(k);
                }
            }
        }
        return false;
    }
    let half: bool = is_power_of_two(value / 2);
    proof {
        if half {
            let k = choose|k: nat| value / 2 == #[trigger] vstd::arithmetic::power2::pow2(k);
            vstd::arithmetic::power2::lemma_pow2_unfold(k + 1);
            assert(vstd::arithmetic::power2::pow2(k + 1) == value);
        } else {
            assert forall|k: nat| value != #[trigger] vstd::arithmetic::power2::pow2(k) by {
                if k > 0 {
                    vstd::arithmetic::power2::lemma_pow2_unfold(k);
                    assert(value / 2 != vstd::arithmetic::power2::pow2((k - 1) as nat));
                }
            }
        }
    }
    half
}

/// Requests that a queue can hold.
pub open spec fn slot_count_spec(queue_size: int) -> int {
    if queue_size / 10 < MAX_SLOTS {
        queue_size / 10
    } else {
        MAX_SLOTS as int
    }
}

/// Requests that a queue can hold.
pub fn slot_count_for_queue(queue_size: u16) -> (result: Result<u16, VirtioBlkError>)
    ensures
        result == (if queue_size < DESCRIPTORS_PER_SLOT {
            Err(VirtioBlkError::InvalidQueueSize)
        } else {
            Ok(slot_count_spec(queue_size as int) as u16)
        }),
{
    if queue_size < DESCRIPTORS_PER_SLOT {
        return Err(VirtioBlkError::InvalidQueueSize);
    }
    let count: u16 = queue_size / DESCRIPTORS_PER_SLOT;
    Ok(
        if count < MAX_SLOTS as u16 {
            count
        } else {
            MAX_SLOTS as u16
        },
    )
}

/// The first descriptor of a slot.
pub fn descriptor_head(slot: usize) -> (head: u16)
    requires
        slot <= 6553,
    ensures
        head == slot * 10,
{
    slot as u16 * DESCRIPTORS_PER_SLOT
}

/// Offset of a slot's request header in the request page.
pub fn request_offset(slot: usize) -> (result: Result<usize, VirtioBlkError>)
    ensures
        result == (if slot * 32 > usize::MAX {
            Err(VirtioBlkError::AddressOverflow)
        } else if slot * 32 + 32 > PAGE_SIZE {
            Err(VirtioBlkError::InvalidQueueLayout)
        } else {
            Ok((slot * 32) as usize)
        }),
{
    match slot.checked_mul(REQUEST_STRIDE) {
        None => Err(VirtioBlkError::AddressOverflow),
        Some(offset) => if offset > PAGE_SIZE - REQUEST_STRIDE {
            Err(VirtioBlkError::InvalidQueueLayout)
        } else {
            Ok(offset)
        },
    }
}

/// Who owns a slot.
#[derive(Clone, Copy, Debug, PartialEq, Eq, Structural)]
pub enum SlotState {
    Free,
    InFlight,
    /// Canceled, but still owned by the device.
    CancelPending,
}

/// One request that the device may own.
#[derive(Clone, Copy, Debug, PartialEq, Eq, Structural)]
pub struct RequestSlot {
    pub state: SlotState,
    pub generation: u32,
    pub token: Option<u64>,
    pub synchronous: bool,
    pub operation: BlockOperation,
    pub byte_len: u32,
    pub expected_used_len: u32,
}

/// A free slot of the given generation.
pub open spec fn free_slot(generation: u32) -> RequestSlot {
    RequestSlot {
        state: SlotState::Free,
        generation,
        token: None,
        synchronous: false,
        operation: BlockOperation::Flush,
        byte_len: 0,
        expected_used_len: 0,
    }
}

impl RequestSlot {
    /// A slot that was never used.
    pub fn empty() -> (slot: Self)
        ensures
            slot == free_slot(0),
    {
        RequestSlot {
            state: SlotState::Free,
            generation: 0,
            token: None,
            synchronous: false,
            operation: BlockOperation::Flush,
            byte_len: 0,
            expected_used_len: 0,
        }
    }

    /// Claims a free slot; its generation never repeats.
    pub fn start(
        &mut self,
        token: Option<u64>,
        synchronous: bool,
        operation: BlockOperation,
        byte_len: u32,
        expected_used_len: u32,
    ) -> (result: Result<(), VirtioBlkError>)
        ensures
            if old(self).state != SlotState::Free {
                result == Err::<(), VirtioBlkError>(VirtioBlkError::Busy) && *final(self) == *old(
                    self,
                )
            } else if old(self).generation == u32::MAX {
                result == Err::<(), VirtioBlkError>(VirtioBlkError::GenerationExhausted)
                    && *final(self) == *old(self)
            } else {
                result == Ok::<(), VirtioBlkError>(()) && *final(self) == (RequestSlot {
                    state: SlotState::InFlight,
                    generation: (old(self).generation + 1) as u32,
                    token,
                    synchronous,
                    operation,
                    byte_len,
                    expected_used_len,
                })
            },
    {
        if self.state != SlotState::Free {
            return Err(VirtioBlkError::Busy);
        }
        let generation: u32 = self.generation.wrapping_add(1);
        if generation == 0 {
            return Err(VirtioBlkError::GenerationExhausted);
        }
        self.generation = generation;
        self.token = token;
        self.synchronous = synchronous;
        self.operation = operation;
        self.byte_len = byte_len;
        self.expected_used_len = expected_used_len;
        self.state = SlotState::InFlight;
        Ok(())
    }

    /// Marks the request with this token as canceled; the device keeps the slot.
    pub fn request_cancel(&mut self, token: u64) -> (matched: bool)
        ensures
            matched == (old(self).token == Some(token) && old(self).state != SlotState::Free),
            *final(self) == (if matched {
                RequestSlot { state: SlotState::CancelPending, ..*old(self) }
            } else {
                *old(self)
            }),
    {
        let matched: bool = match self.token {
            Some(own) => own == token && self.state != SlotState::Free,
            None => false,
        };
        if matched {
            self.state = SlotState::CancelPending;
        }
        matched
    }

    /// Marks a synchronous request as given up; the device keeps the slot.
    pub fn cancel_synchronous(&mut self)
        ensures
            *final(self) == (if old(self).synchronous && old(self).state != SlotState::Free {
                RequestSlot { state: SlotState::CancelPending, ..*old(self) }
            } else {
                *old(self)
            }),
    {
        if self.synchronous && self.state != SlotState::Free {
            self.state = SlotState::CancelPending;
        }
    }

    /// Returns the slot to the driver.
    pub fn release(&mut self)
        ensures
            *final(self) == free_slot(old(self).generation),
    {
        self.state = SlotState::Free;
        self.token = None;
        self.synchronous = false;
        self.operation = BlockOperation::Flush;
        self.byte_len = 0;
        self.expected_used_len = 0;
    }
}

/// A canceled request still owns its slot: only a release frees it.
pub proof fn law_cancellation_keeps_ownership(slot: RequestSlot)
    requires
        slot.state != SlotState::Free,
    ensures
        (RequestSlot { state: SlotState::CancelPending, ..slot }).state != SlotState::Free,
        (RequestSlot { state: SlotState::CancelPending, ..slot }).token == slot.token,
{
}

/// How a request is laid out as a descriptor chain.
#[derive(Clone, Copy, Debug, PartialEq, Eq, Structural)]
pub struct DescriptorPlan {
    pub request_type: u32,
    pub data_count: u8,
    pub device_writes_data: bool,
    pub descriptor_count: u8,
    pub expected_used_len: u32,
}

/// The chain for an operation, or why there is none.
pub open spec fn plan_spec(operation: BlockOperation, byte_len: u32, segments: int) -> Result<
    DescriptorPlan,
    VirtioBlkError,
> {
    if segments > MAX_SG_SEGMENTS {
        Err(VirtioBlkError::TooManySegments)
    } else {
        match operation {
            BlockOperation::Read | BlockOperation::Write => if byte_len == 0 || byte_len % 512 != 0
                || segments == 0 {
                Err(VirtioBlkError::InvalidRequest)
            } else {
                let reads = operation == BlockOperation::Read;
                Ok(
                    DescriptorPlan {
                        request_type: if reads {
                            VIRTIO_BLK_T_IN
                        } else {
                            VIRTIO_BLK_T_OUT
                        },
                        data_count: segments as u8,
                        device_writes_data: reads,
                        descriptor_count: (segments + 2) as u8,
                        expected_used_len: if reads {
                            (byte_len + 1) as u32
                        } else {
                            1
                        },
                    },
                )
            },
            BlockOperation::Flush | BlockOperation::Barrier => if byte_len != 0 || segments != 0 {
                Err(VirtioBlkError::InvalidRequest)
            } else {
                Ok(
                    DescriptorPlan {
                        request_type: VIRTIO_BLK_T_FLUSH,
                        data_count: 0,
                        device_writes_data: false,
                        descriptor_count: 2,
                        expected_used_len: 1,
                    },
                )
            },
        }
    }
}

/// Plans the chain of a request.
pub fn descriptor_plan(operation: BlockOperation, byte_len: u32, segment_count: usize) -> (result:
    Result<DescriptorPlan, VirtioBlkError>)
    ensures
        result == plan_spec(operation, byte_len, segment_count as int),
{
    if segment_count > MAX_SG_SEGMENTS {
        return Err(VirtioBlkError::TooManySegments);
    }
    match operation {
        BlockOperation::Read | BlockOperation::Write => {
            if byte_len == 0 || byte_len % 512 != 0 || segment_count == 0 {
                return Err(VirtioBlkError::InvalidRequest);
            }
            let device_writes_data: bool = match operation {
                BlockOperation::Read => true,
                _ => false,
            };
            Ok(
                DescriptorPlan {
                    request_type: if device_writes_data {
                        VIRTIO_BLK_T_IN
                    } else {
                        VIRTIO_BLK_T_OUT
                    },
                    data_count: segment_count as u8,
                    device_writes_data,
                    descriptor_count: segment_count as u8 + 2,
                    expected_used_len: if device_writes_data {
                        byte_len + 1
                    } else {
                        1
                    },
                },
            )
        },
        BlockOperation::Flush | BlockOperation::Barrier => {
            if byte_len != 0 || segment_count != 0 {
                return Err(VirtioBlkError::InvalidRequest);
            }
            Ok(
                DescriptorPlan {
                    request_type: VIRTIO_BLK_T_FLUSH,
                    data_count: 0,
                    device_writes_data: false,
                    descriptor_count: 2,
                    expected_used_len: 1,
                },
            )
        },
    }
}

impl DescriptorPlan {
    /// The plan fits the descriptor block of a slot.
    pub open spec fn wf(&self) -> bool {
        self.data_count <= MAX_SG_SEGMENTS && self.descriptor_count == self.data_count + 2
    }

    /// Descriptor `i` of the chain: header, data in order, then the status at the
    /// end of the block; unused places hold the largest number.
    pub open spec fn chain_index(&self, slot: int, i: int) -> u16 {
        if i == self.descriptor_count - 1 {
            (10 * slot + 9) as u16
        } else if i <= self.data_count {
            (10 * slot + i) as u16
        } else {
            u16::MAX
        }
    }

    /// The descriptors that a request in `slot` uses.
    pub fn chain_indices(self, slot: usize) -> (indices: Vec<u16>)
        requires
            self.wf(),
            slot < MAX_SLOTS,
        ensures
            indices@ == Seq::new(10, |i: int| self.chain_index(slot as int, i)),
    {
        let head: u16 = descriptor_head(slot);
        let mut indices: Vec<u16> = Vec::new();
        let mut index: u16 = 0;
        while index < DESCRIPTORS_PER_SLOT
            invariant
                index <= 10,
                self.wf(),
                slot < MAX_SLOTS,
                head == 10 * slot,
                indices@ == Seq::new(index as nat, |i: int| self.chain_index(slot as int, i)),
            decreases 10 - index,
        {
            let value: u16 = if index == self.descriptor_count as u16 - 1 {
                head + 9
            } else if index <= self.data_count as u16 {
                head + index
            } else {
                u16::MAX
            };
            indices.push(value);
            index += 1;
            assert(indices@ =~= Seq::new(
                index as nat,
                |i: int| self.chain_index(slot as int, i),
            ));
        }
        indices
    }
}

/// A chain stays inside the descriptor block of its slot.
pub proof fn law_chain_stays_in_its_block(plan: DescriptorPlan, slot: int, i: int)
    requires
        plan.wf(),
        0 <= slot < MAX_SLOTS,
        0 <= i < plan.descriptor_count,
    ensures
        10 * slot <= plan.chain_index(slot, i) < 10 * slot + 10,
{
}

/// The bytes of the first `count` segments.
pub open spec fn segment_total(segments: Seq<DmaSegment>, count: nat) -> int
    decreases count,
{
    if count == 0 {
        0
    } else {
        segment_total(segments, (count - 1) as nat) + segments[count - 1].length
    }
}

/// A segment holds at least one byte and does not wrap around.
pub open spec fn segment_error(segment: DmaSegment) -> Option<VirtioBlkError> {
    if segment.length == 0 {
        Some(VirtioBlkError::InvalidRequest)
    } else if segment.physical_address + segment.length - 1 > u64::MAX {
        Some(VirtioBlkError::AddressOverflow)
    } else {
        None
    }
}

/// The error of the first unusable segment among the first `count`.
pub open spec fn first_segment_error(segments: Seq<DmaSegment>, count: nat) -> Option<VirtioBlkError>
    decreases count,
{
    if count == 0 {
        None
    } else {
        match first_segment_error(segments, (count - 1) as nat) {
            Some(error) => Some(error),
            None => segment_error(segments[count - 1]),
        }
    }
}

/// Why the segments do not make up `byte_len` bytes.
pub open spec fn segments_error(segments: Seq<DmaSegment>, byte_len: u32) -> Option<VirtioBlkError> {
    if segments.len() > MAX_SG_SEGMENTS {
        Some(VirtioBlkError::TooManySegments)
    } else {
        match first_segment_error(segments, segments.len()) {
            Some(error) => Some(error),
            None => if segment_total(segments, segments.len()) != byte_len {
                Some(VirtioBlkError::InvalidRequest)
            } else {
                None
            },
        }
    }
}

/// The first error stays the first error of a longer prefix.
proof fn lemma_first_error_stays(segments: Seq<DmaSegment>, short: nat, long: nat)
    requires
        short <= long,
        first_segment_error(segments, short) is Some,
    ensures
        first_segment_error(segments, long) == first_segment_error(segments, short),
    decreases long,
{
    if short < long {
        lemma_first_error_stays(segments, short, (long - 1) as nat);
    }
}

/// Checks that the segments are usable and make up `byte_len` bytes.
pub fn validate_segments(segments: &[DmaSegment], byte_len: u32) -> (result: Result<
    (),
    VirtioBlkError,
>)
    ensures
        result == (match segments_error(segments@, byte_len) {
            Some(error) => Err(error),
            None => Ok(()),
        }),
{
    if segments.len() > MAX_SG_SEGMENTS {
        return Err(VirtioBlkError::TooManySegments);
    }
    let mut total: u64 = 0;
    let mut index: usize = 0;
    while index < segments.len()
        invariant
            index <= segments@.len() <= MAX_SG_SEGMENTS,
            first_segment_error(segments@, index as nat) is None,
            total == segment_total(segments@, index as nat),
            total <= index * 0xffff_ffff,
        decreases segments@.len() - index,
    {
        let segment: DmaSegment = segments[index];
        if segment.length == 0 {
            proof {
                lemma_first_error_stays(segments@, (index + 1) as nat, segments@.len());
            }
            return Err(VirtioBlkError::InvalidRequest);
        }
        if segment.physical_address > u64::MAX - (segment.length as u64 - 1) {
            proof {
                lemma_first_error_stays(segments@, (index + 1) as nat, segments@.len());
            }
            return Err(VirtioBlkError::AddressOverflow);
        }
        total = total + segment.length as u64;
        index += 1;
    }
    if total != byte_len as u64 {
        return Err(VirtioBlkError::InvalidRequest);
    }
    Ok(())
}

/// The slot of a used-ring entry: `id` must head a chain that the device owns.
pub open spec fn used_slot_spec(
    head_to_slot: Seq<u8>,
    slots: Seq<RequestSlot>,
    slot_count: u16,
    id: int,
) -> Option<int> {
    if id < head_to_slot.len() && head_to_slot[id] != INVALID_SLOT && head_to_slot[id] < slot_count
        && slots[head_to_slot[id] as int].state != SlotState::Free && head_to_slot[id] * 10 == id {
        Some(head_to_slot[id] as int)
    } else {
        None
    }
}

/// Finds the slot of a used-ring entry.
pub fn mapped_slot_for_used(
    head_to_slot: &[u8],
    slots: &[RequestSlot],
    slot_count: u16,
    id: u32,
) -> (result: Result<usize, VirtioBlkError>)
    requires
        slot_count <= slots@.len(),
    ensures
        result == (match used_slot_spec(head_to_slot@, slots@, slot_count, id as int) {
            Some(slot) => Ok(slot as usize),
            None => Err(VirtioBlkError::InvalidUsedRing),
        }),
{
    let id: usize = id as usize;
    if id >= head_to_slot.len() {
        return Err(VirtioBlkError::InvalidUsedRing);
    }
    let mapped: u8 = head_to_slot[id];
    if mapped == INVALID_SLOT || mapped as u16 >= slot_count {
        return Err(VirtioBlkError::InvalidUsedRing);
    }
    let slot: usize = mapped as usize;
    if slots[slot].state == SlotState::Free || descriptor_head(slot) as usize != id {
        return Err(VirtioBlkError::InvalidUsedRing);
    }
    Ok(slot)
}

/// Entries between two readings of the 16-bit used index.
pub open spec fn used_distance(consumed: int, observed: int) -> int {
    if observed >= consumed {
        observed - consumed
    } else {
        observed - consumed + 0x1_0000
    }
}

/// Entries that the device added since the last drain.
pub fn used_index_distance(consumed: u16, observed: u16, queue_size: u16) -> (result: Result<
    u16,
    VirtioBlkError,
>)
    ensures
        result == (if used_distance(consumed as int, observed as int) > queue_size {
            Err(VirtioBlkError::InvalidUsedRing)
        } else {
            Ok(used_distance(consumed as int, observed as int) as u16)
        }),
{
    let distance: u16 = observed.wrapping_sub(consumed);
    if distance > queue_size {
        Err(VirtioBlkError::InvalidUsedRing)
    } else {
        Ok(distance)
    }
}

/// Frees the first `slot_count` slots, but only when the device reports a finished reset.
pub fn release_slots_after_verified_reset(
    slots: &mut Vec<RequestSlot>,
    slot_count: u16,
    observed_status: u8,
) -> (released: bool)
    requires
        slot_count <= old(slots)@.len(),
    ensures
        released == (observed_status == 0),
        final(slots)@ == (if released {
            Seq::new(
                old(slots)@.len(),
                |i: int|
                    if i < slot_count {
                        free_slot(old(slots)@[i].generation)
                    } else {
                        old(slots)@[i]
                    },
            )
        } else {
            old(slots)@
        }),
{
    if observed_status != 0 {
        return false;
    }
    let mut index: usize = 0;
    while index < slot_count as usize
        invariant
            index <= slot_count <= slots@.len(),
            slots@.len() == old(slots)@.len(),
            forall|i: int|
                0 <= i < slots@.len() ==> #[trigger] slots@[i] == (if i < index {
                    free_slot(old(slots)@[i].generation)
                } else {
                    old(slots)@[i]
                }),
        decreases slot_count - index,
    {
        slots[index].release();
        index += 1;
    }
    assert(slots@ =~= Seq::new(
        old(slots)@.len(),
        |i: int|
            if i < slot_count {
                free_slot(old(slots)@[i].generation)
            } else {
                old(slots)@[i]
            },
    ));
    true
}

/// A range of sectors.
#[derive(Clone, Copy, Debug, PartialEq, Eq, Structural)]
pub struct TransferRange {
    pub first_sector: u64,
    pub sector_count: u64,
}

/// The sectors of a transfer, or why they are refused.
pub open spec fn range_spec(first_sector: u64, byte_len: int, capacity: u64) -> Result<
    TransferRange,
    VirtioBlkError,
> {
    if byte_len % 512 != 0 {
        Err(VirtioBlkError::Misaligned)
    } else if first_sector + byte_len / 512 > u64::MAX {
        Err(VirtioBlkError::AddressOverflow)
    } else if first_sector + byte_len / 512 > capacity {
        Err(VirtioBlkError::OutOfBounds)
    } else {
        Ok(TransferRange { first_sector, sector_count: (byte_len / 512) as u64 })
    }
}

/// Checks a transfer against the capacity of the device.
pub fn transfer_range(first_sector: u64, byte_len: usize, capacity_sectors: u64) -> (result: Result<
    TransferRange,
    VirtioBlkError,
>)
    ensures
        result == range_spec(first_sector, byte_len as int, capacity_sectors),
{
    if byte_len % SECTOR_SIZE != 0 {
        return Err(VirtioBlkError::Misaligned);
    }
    let sector_count: u64 = (byte_len / SECTOR_SIZE) as u64;
    match first_sector.checked_add(sector_count) {
        None => Err(VirtioBlkError::AddressOverflow),
        Some(end) => if end > capacity_sectors {
            Err(VirtioBlkError::OutOfBounds)
        } else {
            Ok(TransferRange { first_sector, sector_count })
        },
    }
}

/// The port base of an I/O base address register.
pub fn io_bar_base(raw: u32) -> (result: Result<u16, VirtioBlkError>)
    ensures
        result == (if raw % 2 == 0 || raw - raw % 4 > 0xffff || raw - raw % 4 == 0 || raw - raw % 4
            + LEGACY_IO_BYTES > 0x1_0000 {
            Err(VirtioBlkError::InvalidIoBar)
        } else {
            Ok((raw - raw % 4) as u16)
        }),
{
    if raw % 2 == 0 {
        return Err(VirtioBlkError::InvalidIoBar);
    }
    let address: u32 = raw - raw % 4;
    if address > 0xffff {
        return Err(VirtioBlkError::InvalidIoBar);
    }
    if address == 0 || address + LEGACY_IO_BYTES as u32 > 0x1_0000 {
        return Err(VirtioBlkError::InvalidIoBar);
    }
    Ok(address as u16)
}

/// Where the device configuration starts; enabling MSI-X moves it.
pub fn transitional_config_base(msix_enabled: bool) -> (base: u16)
    ensures
        base == (if msix_enabled {
            0x18u16
        } else {
            0x14u16
        }),
{
    if msix_enabled {
        0x18
    } else {
        0x14
    }
}

/// What a device status other than an operational one means.
pub open spec fn status_error(status: u8, required: u8) -> Option<VirtioBlkError> {
    if status == u8::MAX {
        Some(VirtioBlkError::DeviceNotPresent)
    } else if status == 0 {
        Some(VirtioBlkError::DeviceReset)
    } else if status & STATUS_FAILED != 0 {
        Some(VirtioBlkError::DeviceFailed)
    } else if status & STATUS_DEVICE_NEEDS_RESET != 0 {
        Some(VirtioBlkError::DeviceNeedsReset)
    } else if status & required != required {
        Some(VirtioBlkError::DeviceReset)
    } else {
        None
    }
}

/// Checks that the device is operational.
pub fn validate_operational_status(status: u8, required: u8) -> (result: Result<
    (),
    VirtioBlkError,
>)
    ensures
        result == (match status_error(status, required) {
            Some(error) => Err(error),
            None => Ok(()),
        }),
{
    if status == u8::MAX {
        return Err(VirtioBlkError::DeviceNotPresent);
    }
    if status == 0 {
        return Err(VirtioBlkError::DeviceReset);
    }
    if status & STATUS_FAILED != 0 {
        return Err(VirtioBlkError::DeviceFailed);
    }
    if status & STATUS_DEVICE_NEEDS_RESET != 0 {
        return Err(VirtioBlkError::DeviceNeedsReset);
    }
    if status & required != required {
        return Err(VirtioBlkError::DeviceReset);
    }
    Ok(())
}

/// Checks what the device status reads as after `status` was written.
pub fn check_status_write(status: u8, observed: u8) -> (result: Result<(), VirtioBlkError>)
    ensures
        result == (if observed == u8::MAX {
            Err(VirtioBlkError::DeviceNotPresent)
        } else if observed & status != status {
            Err(VirtioBlkError::DeviceReset)
        } else {
            Ok(())
        }),
{
    if observed == u8::MAX {
        return Err(VirtioBlkError::DeviceNotPresent);
    }
    if observed & status != status {
        return Err(VirtioBlkError::DeviceReset);
    }
    Ok(())
}

/// Checks that the first MSI-X table entry lies in its window.
pub fn validate_msix_table(table_size: u16, table_offset: u32, bar_size: u64) -> (result: Result<
    (),
    VirtioBlkError,
>)
    ensures
        result == (if table_size == 0 || bar_size == 0 || bar_size > MAX_MSIX_BAR_SIZE
            || table_offset + MSIX_TABLE_ENTRY_BYTES > bar_size {
            Err(VirtioBlkError::InvalidMsixTable)
        } else {
            Ok(())
        }),
{
    if table_size == 0 || bar_size == 0 || bar_size > MAX_MSIX_BAR_SIZE {
        return Err(VirtioBlkError::InvalidMsixTable);
    }
    if table_offset as u64 + MSIX_TABLE_ENTRY_BYTES > bar_size {
        return Err(VirtioBlkError::InvalidMsixTable);
    }
    Ok(())
}

/// The pages that the MSI-X window covers: first page, offset in it, mapped bytes.
pub fn plan_msix_window(address: u64, size: u64) -> (result: Result<
    (u64, u64, u64),
    VirtioBlkError,
>)
    ensures
        result == (if size == 0 || size > MAX_MSIX_BAR_SIZE {
            Err(VirtioBlkError::InvalidMsixTable)
        } else {
            Ok(
                (
                    (address - address % 4096) as u64,
                    address % 4096,
                    page_round(address as int % 4096 + size) as u64,
                ),
            )
        }),
{
    if size == 0 || size > MAX_MSIX_BAR_SIZE {
        return Err(VirtioBlkError::InvalidMsixTable);
    }
    let page_offset: u64 = address % 4096;
    Ok((address - page_offset, page_offset, (page_offset + size + 4095) / 4096 * 4096))
}

/// A scan over PCI functions in bus, device, function order.
#[derive(Clone, Copy, Debug, PartialEq, Eq)]
pub struct PciScan {
    pub bus: u16,
    pub device: u8,
    pub function: u8,
}

impl PciScan {
    pub open spec fn wf(&self) -> bool {
        self.bus <= 256 && self.device < 32 && self.function < 8 && (self.bus == 256 ==> self.device
            == 0 && self.function == 0)
    }

    /// Functions before this one.
    pub open spec fn position(&self) -> int {
        (self.bus * 32 + self.device) * 8 + self.function
    }

    /// Starts at the first function.
    pub fn new() -> (scan: Self)
        ensures
            scan.wf(),
            scan.position() == 0,
    {
        PciScan { bus: 0, device: 0, function: 0 }
    }

    /// The function to look at; `None` when the scan is over.
    pub fn current(&self) -> (address: Option<(u8, u8, u8)>)
        requires
            self.wf(),
        ensures
            address == (if self.bus == 256 {
                None
            } else {
                Some((self.bus as u8, self.device, self.function))
            }),
    {
        if self.bus == 256 {
            None
        } else {
            Some((self.bus as u8, self.device, self.function))
        }
    }

    /// Steps on, given the header type of the current function or `None` when it is absent.
    ///
    /// An absent first function, or a single-function one, ends its device.
    pub fn advance(&mut self, header_type: Option<u8>)
        requires
            old(self).wf(),
            old(self).bus < 256,
        ensures
            final(self).wf(),
            final(self).position() == (if old(self).function == 0 && (header_type is None
                || header_type->Some_0 < 0x80) {
                old(self).position() + 8
            } else {
                old(self).position() + 1
            }),
    {
        let skip_device: bool = self.function == 0 && match header_type {
            None => true,
            Some(header) => header < 0x80,
        };
        if skip_device || self.function == 7 {
            self.function = 0;
            if self.device == 31 {
                self.device = 0;
                self.bus += 1;
            } else {
                self.device += 1;
            }
        } else {
            self.function += 1;
        }
    }
}

/// Whether a PCI function is a transitional virtio block device.
pub fn is_virtio_blk(vendor_id: u16, device_id: u16) -> (result: bool)
    ensures
        result == (vendor_id == VIRTIO_VENDOR_ID && device_id == VIRTIO_BLK_TRANSITIONAL_DEVICE_ID),
{
    vendor_id == VIRTIO_VENDOR_ID && device_id == VIRTIO_BLK_TRANSITIONAL_DEVICE_ID
}

} // verus!
