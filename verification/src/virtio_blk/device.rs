//! The state of one virtio-blk function and the decisions of its driver.
use vstd::prelude::*;

use super::queue::{
    free_slot, layout_spec, range_spec, slot_count_for_queue, slot_count_spec, transfer_range,
    usable_queue_size, BlockOperation, DescriptorPlan, DmaSegment, QueueLayout, RequestSlot,
    SlotState, VirtioBlkError, DESC_F_NEXT, DESC_F_WRITE, INVALID_SLOT, MAX_SLOTS,
    MSIX_NO_VECTOR, MSI_ADDRESS_BASE, REQUEST_HEADER_BYTES, STATUS_FAILED, SUPPORTED_FEATURES,
};

verus! {

/// Polls without an interrupt before the used ring is drained anyway.
pub const INTERRUPT_WATCHDOG_POLLS: u16 = 64;

/// Drains that a synchronous request waits for.
pub const POLL_LIMIT: usize = 1_000_000;

/// How the device finished a request.
#[derive(Clone, Copy, Debug, PartialEq, Eq, Structural)]
pub enum HardwareStatus {
    Success,
    IoError,
    Unsupported,
}

/// A finished asynchronous request.
#[derive(Clone, Copy, Debug, PartialEq, Eq, Structural)]
pub struct DriverCompletion {
    pub token: u64,
    pub status: HardwareStatus,
}

/// An asynchronous request.
#[derive(Debug, PartialEq, Eq)]
pub struct DispatchCommand {
    pub token: u64,
    pub operation: BlockOperation,
    pub lba: u64,
    pub byte_len: u32,
    pub segments: Vec<DmaSegment>,
}

/// Counters of the driver.
#[derive(Clone, Copy, Debug, PartialEq, Eq, Structural)]
pub struct VirtioBlkDiagnostics {
    pub async_enabled: bool,
    pub msix_enabled: bool,
    pub interrupts: u64,
    pub watchdog_polls: u64,
    pub submissions: u64,
    pub completions: u64,
    pub in_flight: u16,
    pub in_flight_high_water: u16,
    pub invalid_used_ids: u64,
    pub errors: u64,
    pub resets: u64,
}

impl Default for VirtioBlkDiagnostics {
    fn default() -> (diagnostics: Self)
        ensures
            diagnostics == no_diagnostics(),
    {
        VirtioBlkDiagnostics {
            async_enabled: false,
            msix_enabled: false,
            interrupts: 0,
            watchdog_polls: 0,
            submissions: 0,
            completions: 0,
            in_flight: 0,
            in_flight_high_water: 0,
            invalid_used_ids: 0,
            errors: 0,
            resets: 0,
        }
    }
}

/// Counters that have counted nothing.
pub open spec fn no_diagnostics() -> VirtioBlkDiagnostics {
    VirtioBlkDiagnostics {
        async_enabled: false,
        msix_enabled: false,
        interrupts: 0,
        watchdog_polls: 0,
        submissions: 0,
        completions: 0,
        in_flight: 0,
        in_flight_high_water: 0,
        invalid_used_ids: 0,
        errors: 0,
        resets: 0,
    }
}

/// How far a reset has come.
#[derive(Clone, Copy, Debug, PartialEq, Eq, Structural)]
pub enum ResetState {
    Running,
    WaitingForZero,
    Complete,
}

/// One store into the request page or the queue memory.
#[derive(Clone, Copy, Debug, PartialEq, Eq, Structural)]
pub enum DmaStore {
    RequestByte { offset: usize, value: u8 },
    RequestWord { offset: usize, word: u32 },
    RequestDouble { offset: usize, double: u64 },
    QueueHalf { offset: usize, half: u16 },
    QueueWord { offset: usize, word: u32 },
    QueueDouble { offset: usize, double: u64 },
}

/// Part of a transfer that fits the bounce page.
#[derive(Clone, Copy, Debug, PartialEq, Eq, Structural)]
pub struct SectorChunk {
    pub sector: u64,
    /// Offset in the caller's buffer.
    pub offset: usize,
    pub length: usize,
}

/// A request to hand to the device: store the chain, then the ring entry, then
/// the index, and notify queue zero.
#[derive(Debug, PartialEq, Eq)]
pub struct Submission {
    pub slot: usize,
    pub chain: Vec<DmaStore>,
    pub ring_entry: DmaStore,
    pub ring_index: DmaStore,
}

/// One exclusively owned transitional virtio-blk function.
#[derive(Debug)]
pub struct VirtioBlk {
    pub layout: QueueLayout,
    pub queue_size: u16,
    pub slot_count: u16,
    pub slots: Vec<RequestSlot>,
    pub head_to_slot: Vec<u8>,
    /// Finished asynchronous requests, a ring of `slot_count` places.
    pub completions: Vec<Option<DriverCompletion>>,
    pub completion_head: u8,
    pub completion_tail: u8,
    pub completion_count: u8,
    pub requests_physical: u64,
    pub capacity_sectors: u64,
    pub read_only: bool,
    pub flush_supported: bool,
    pub msix_available: bool,
    pub available_index: u16,
    pub used_index: u16,
    pub watchdog_countdown: u16,
    pub sync_completion: Option<Result<(), VirtioBlkError>>,
    pub reset_state: ResetState,
    pub terminal_error: Option<VirtioBlkError>,
    /// The device has yet to be told that the driver gave up.
    pub failure_mark: bool,
    pub diagnostics: VirtioBlkDiagnostics,
}

/// Slots among the first `count` that the device owns.
pub open spec fn owned(slots: Seq<RequestSlot>, count: nat) -> nat
    decreases count,
{
    if count == 0 {
        0
    } else {
        owned(slots, (count - 1) as nat) + if slots[count - 1].state != SlotState::Free {
            1nat
        } else {
            0
        }
    }
}

/// Replacing a slot changes the number of owned slots accordingly.
pub(crate) proof fn lemma_owned_update(slots: Seq<RequestSlot>, count: nat, index: int, slot: RequestSlot)
    requires
        0 <= index < slots.len(),
        count <= slots.len(),
    ensures
        index < count ==> owned(slots.update(index, slot), count) == owned(slots, count) - (if slots[index].state
            != SlotState::Free {
            1int
        } else {
            0
        }) + (if slot.state != SlotState::Free {
            1int
        } else {
            0
        }),
        index >= count ==> owned(slots.update(index, slot), count) == owned(slots, count),
    decreases count,
{
    if count > 0 {
        lemma_owned_update(slots, (count - 1) as nat, index, slot);
    }
}

/// Where every slot is free, none is owned; where one is owned, the count shows it.
pub(crate) proof fn lemma_owned_bounds(slots: Seq<RequestSlot>, count: nat)
    requires
        count <= slots.len(),
    ensures
        owned(slots, count) <= count,
        (forall|i: int| 0 <= i < count ==> (#[trigger] slots[i]).state == SlotState::Free)
            ==> owned(slots, count) == 0,
        owned(slots, count) < count ==> exists|i: int|
            0 <= i < count && (#[trigger] slots[i]).state == SlotState::Free,
        forall|i: int|
            0 <= i < count && (#[trigger] slots[i]).state != SlotState::Free ==> owned(slots, count)
                > 0,
    decreases count,
{
    if count > 0 {
        lemma_owned_bounds(slots, (count - 1) as nat);
    }
}

/// `place` places after `start` in a ring of `size`.
pub open spec fn ring_place(start: int, place: int, size: int) -> int {
    if start + place < size {
        start + place
    } else {
        start + place - size
    }
}

/// The stores of one descriptor.
pub open spec fn descriptor_stores(index: int, address: u64, length: u32, flags: u16, next: int) -> Seq<
    DmaStore,
> {
    seq![
        DmaStore::QueueDouble { offset: (16 * index) as usize, double: address },
        DmaStore::QueueWord { offset: (16 * index + 8) as usize, word: length },
        DmaStore::QueueHalf { offset: (16 * index + 12) as usize, half: flags },
        DmaStore::QueueHalf { offset: (16 * index + 14) as usize, half: next as u16 },
    ]
}

/// The stores of the first `count` data descriptors of a chain.
pub open spec fn data_stores(
    head: int,
    segments: Seq<DmaSegment>,
    device_writes: bool,
    count: nat,
) -> Seq<DmaStore>
    decreases count,
{
    if count == 0 {
        Seq::empty()
    } else {
        let i = count - 1;
        data_stores(head, segments, device_writes, i as nat) + descriptor_stores(
            head + 1 + i,
            segments[i].physical_address,
            segments[i].length,
            if device_writes {
                3
            } else {
                1
            },
            if i + 1 == segments.len() {
                head + 9
            } else {
                head + 2 + i
            },
        )
    }
}

/// The stores that lay out a request: header and status byte, then the chain
/// header, data, status.
pub open spec fn chain_stores(
    requests: u64,
    slot: int,
    sector: u64,
    segments: Seq<DmaSegment>,
    plan: DescriptorPlan,
) -> Seq<DmaStore> {
    let at = 32 * slot;
    let head = 10 * slot;
    seq![
        DmaStore::RequestWord { offset: at as usize, word: plan.request_type },
        DmaStore::RequestWord { offset: (at + 4) as usize, word: 0 },
        DmaStore::RequestDouble { offset: (at + 8) as usize, double: sector },
        DmaStore::RequestByte { offset: (at + 16) as usize, value: 0xff },
    ] + descriptor_stores(
        head,
        (requests + at) as u64,
        REQUEST_HEADER_BYTES,
        DESC_F_NEXT,
        if segments.len() == 0 {
            head + 9
        } else {
            head + 1
        },
    ) + data_stores(head, segments, plan.device_writes_data, segments.len()) + descriptor_stores(
        head + 9,
        (requests + at + 16) as u64,
        1,
        DESC_F_WRITE,
        0,
    )
}

/// Appends the stores of one descriptor.
pub(crate) fn push_descriptor(
    stores: &mut Vec<DmaStore>,
    index: u16,
    address: u64,
    length: u32,
    flags: u16,
    next: u16,
)
    requires
        index < 256,
    ensures
        final(stores)@ == old(stores)@ + descriptor_stores(
            index as int,
            address,
            length,
            flags,
            next as int,
        ),
{
    let offset: usize = index as usize * 16;
    stores.push(DmaStore::QueueDouble { offset, double: address });
    stores.push(DmaStore::QueueWord { offset: offset + 8, word: length });
    stores.push(DmaStore::QueueHalf { offset: offset + 12, half: flags });
    stores.push(DmaStore::QueueHalf { offset: offset + 14, half: next });
    assert(stores@ =~= old(stores)@ + descriptor_stores(
        index as int,
        address,
        length,
        flags,
        next as int,
    ));
}

/// What a block transfer of `length` bytes from `sector` is split into, from `offset` on.
pub open spec fn chunks_from(sector: int, offset: int, length: int) -> Seq<SectorChunk>
    decreases length - offset,
{
    if offset >= length {
        Seq::empty()
    } else {
        let part = if length - offset < 4096 {
            length - offset
        } else {
            4096
        };
        seq![
            SectorChunk {
                sector: (sector + offset / 512) as u64,
                offset: offset as usize,
                length: part as usize,
            },
        ] + chunks_from(sector, offset + part, length)
    }
}

/// Splits a checked transfer into pieces of at most one page.
fn split_chunks(first_sector: u64, length: usize) -> (chunks: Vec<SectorChunk>)
    requires
        length % 512 == 0,
        first_sector + length / 512 <= u64::MAX,
    ensures
        chunks@ == chunks_from(first_sector as int, 0, length as int),
{
    let mut chunks: Vec<SectorChunk> = Vec::new();
    let mut offset: usize = 0;
    let mut sector: u64 = first_sector;
    while offset < length
        invariant
            offset <= length,
            length % 512 == 0,
            offset % 512 == 0,
            sector == first_sector + offset / 512,
            first_sector + length / 512 <= u64::MAX,
            chunks@ + chunks_from(first_sector as int, offset as int, length as int) == chunks_from(
                first_sector as int,
                0,
                length as int,
            ),
        decreases length - offset,
    {
        let remaining: usize = length - offset;
        let part: usize = if remaining < 4096 {
            remaining
        } else {
            4096
        };
        let chunk = SectorChunk { sector, offset, length: part };
        let ghost before = chunks@;
        chunks.push(chunk);
        proof {
            assert(before.push(chunk) + chunks_from(
                first_sector as int,
                offset + part,
                length as int,
            ) =~= before + chunks_from(first_sector as int, offset as int, length as int));
        }
        sector = sector + (part / 512) as u64;
        offset = offset + part;
    }
    assert(chunks@ + chunks_from(first_sector as int, offset as int, length as int) =~= chunks@);
    chunks
}

/// The pieces of a transfer follow one another and cover it.
pub proof fn law_chunks_cover_the_transfer(sector: int, offset: int, length: int)
    requires
        0 <= offset <= length <= usize::MAX,
        offset % 512 == 0,
        length % 512 == 0,
        0 <= sector,
        sector + length / 512 <= u64::MAX,
    ensures
        forall|i: int|
            #![trigger chunks_from(sector, offset, length)[i]]
            0 <= i < chunks_from(sector, offset, length).len() ==> {
                let chunk = chunks_from(sector, offset, length)[i];
                &&& 0 < chunk.length <= 4096
                &&& chunk.length % 512 == 0
                &&& chunk.sector == sector + chunk.offset / 512
                &&& chunk.offset + chunk.length <= length
                &&& i == 0 ==> chunk.offset == offset
                &&& i + 1 == chunks_from(sector, offset, length).len() ==> chunk.offset
                    + chunk.length == length
                &&& i > 0 ==> chunk.offset == chunks_from(sector, offset, length)[i - 1].offset
                    + chunks_from(sector, offset, length)[i - 1].length
            },
        offset < length ==> chunks_from(sector, offset, length).len() > 0,
    decreases length - offset,
{
    if offset < length {
        let part = if length - offset < 4096 {
            length - offset
        } else {
            4096
        };
        law_chunks_cover_the_transfer(sector, offset + part, length);
        let all = chunks_from(sector, offset, length);
        let rest = chunks_from(sector, offset + part, length);
        assert forall|i: int| #![trigger all[i]] 0 <= i < all.len() implies ({
            let chunk = all[i];
            &&& 0 < chunk.length <= 4096
            &&& chunk.length % 512 == 0
            &&& chunk.sector == sector + chunk.offset / 512
            &&& chunk.offset + chunk.length <= length
            &&& i == 0 ==> chunk.offset == offset
            &&& i + 1 == all.len() ==> chunk.offset + chunk.length == length
            &&& i > 0 ==> chunk.offset == all[i - 1].offset + all[i - 1].length
        }) by {
            if i > 0 {
                assert(all[i] == rest[i - 1]);
                if i > 1 {
                    assert(all[i - 1] == rest[i - 2]);
                }
            }
        }
    }
}

impl VirtioBlk {
    /// Slots, rings and counters agree with one another.
    pub open spec fn wf(&self) -> bool {
        &&& usable_queue_size(self.queue_size as int)
        &&& self.layout == layout_spec(self.queue_size as int)
        &&& self.slot_count == slot_count_spec(self.queue_size as int)
        &&& self.slots@.len() == MAX_SLOTS
        &&& self.head_to_slot@ == head_map(self.slot_count)
        &&& self.completions@.len() == MAX_SLOTS
        &&& self.completion_head < self.slot_count
        &&& self.completion_tail == ring_place(
            self.completion_head as int,
            self.completion_count as int,
            self.slot_count as int,
        )
        &&& self.completion_count <= self.slot_count
        &&& forall|i: int|
            0 <= i < self.completion_count ==> self.completions@[#[trigger] ring_place(
                self.completion_head as int,
                i,
                self.slot_count as int,
            )] is Some
        &&& self.requests_physical <= u64::MAX - 4095
        &&& self.diagnostics.in_flight == owned(self.slots@, self.slot_count as nat)
        &&& self.completion_count + self.diagnostics.in_flight <= self.slot_count
        &&& !self.diagnostics.async_enabled ==> self.completion_count == 0
        &&& self.diagnostics.async_enabled ==> self.diagnostics.msix_enabled
        &&& forall|i: int|
            0 <= i < self.slot_count && (#[trigger] self.slots@[i]).state != SlotState::Free
                && !self.slots@[i].synchronous ==> self.slots@[i].token is Some
                && self.diagnostics.async_enabled
    }

    /// The finished requests, oldest first.
    pub open spec fn finished(&self) -> Seq<DriverCompletion> {
        Seq::new(
            self.completion_count as nat,
            |i: int|
                self.completions@[ring_place(
                    self.completion_head as int,
                    i,
                    self.slot_count as int,
                )]->Some_0,
        )
    }

    /// Why the device cannot be used, if it cannot.
    pub open spec fn stopped(&self) -> Option<VirtioBlkError> {
        if self.reset_state != ResetState::Running {
            Some(VirtioBlkError::DeviceReset)
        } else {
            self.terminal_error
        }
    }

    /// This driver after counting one error.
    pub open spec fn with_error(self) -> VirtioBlk {
        VirtioBlk {
            diagnostics: VirtioBlkDiagnostics {
                errors: if self.diagnostics.errors < u64::MAX {
                    (self.diagnostics.errors + 1) as u64
                } else {
                    u64::MAX
                },
                ..self.diagnostics
            },
            ..self
        }
    }

    /// This driver after giving up with `error`, unless it had given up before.
    pub open spec fn with_fatal(self, error: VirtioBlkError) -> VirtioBlk {
        let counted = self.with_error();
        if self.terminal_error is None {
            VirtioBlk { terminal_error: Some(error), failure_mark: true, ..counted }
        } else {
            counted
        }
    }

    /// A driver for an initialized device.
    pub fn new(
        queue_size: u16,
        requests_physical: u64,
        capacity_sectors: u64,
        host_features: u32,
        msix_available: bool,
    ) -> (result: Result<Self, VirtioBlkError>)
        requires
            requests_physical <= u64::MAX - 4095,
        ensures
            match result {
                Err(error) => !usable_queue_size(queue_size as int) && error
                    == VirtioBlkError::InvalidQueueSize,
                Ok(device) => {
                    &&& usable_queue_size(queue_size as int)
                    &&& device.wf()
                    &&& device.queue_size == queue_size
                    &&& device.requests_physical == requests_physical
                    &&& device.capacity_sectors == capacity_sectors
                    &&& device.read_only == (host_features as int / 0x20 % 2 == 1)
                    &&& device.flush_supported == (host_features as int / 0x200 % 2 == 1)
                    &&& device.msix_available == msix_available
                    &&& device.available_index == 0
                    &&& device.used_index == 0
                    &&& device.watchdog_countdown == INTERRUPT_WATCHDOG_POLLS
                    &&& device.sync_completion is None
                    &&& device.reset_state == ResetState::Running
                    &&& device.terminal_error is None
                    &&& !device.failure_mark
                    &&& device.diagnostics == no_diagnostics()
                    &&& device.completion_count == 0
                    &&& forall|i: int|
                        0 <= i < MAX_SLOTS ==> #[trigger] device.slots@[i] == free_slot(0)
                },
            },
    {
        let layout: QueueLayout = match QueueLayout::new(queue_size) {
            Ok(layout) => layout,
            Err(error) => {
                return Err(error);
            },
        };
        let slot_count: u16 = match slot_count_for_queue(queue_size) {
            Ok(count) => count,
            Err(error) => {
                return Err(error);
            },
        };
        let mut slots: Vec<RequestSlot> = Vec::new();
        let mut completions: Vec<Option<DriverCompletion>> = Vec::new();
        let mut index: usize = 0;
        while index < MAX_SLOTS
            invariant
                index <= MAX_SLOTS,
                slots@.len() == index,
                completions@.len() == index,
                forall|i: int| 0 <= i < index ==> #[trigger] slots@[i] == free_slot(0),
            decreases MAX_SLOTS - index,
        {
            slots.push(RequestSlot::empty());
            completions.push(None);
            index += 1;
        }
        let head_to_slot: Vec<u8> = map_heads(slot_count);
        proof {
            lemma_owned_bounds(slots@, slot_count as nat);
        }
        Ok(
            VirtioBlk {
                layout,
                queue_size,
                slot_count,
                slots,
                head_to_slot,
                completions,
                completion_head: 0,
                completion_tail: 0,
                completion_count: 0,
                requests_physical,
                capacity_sectors,
                read_only: host_features / 0x20 % 2 == 1,
                flush_supported: host_features / 0x200 % 2 == 1,
                msix_available,
                available_index: 0,
                used_index: 0,
                watchdog_countdown: INTERRUPT_WATCHDOG_POLLS,
                sync_completion: None,
                reset_state: ResetState::Running,
                terminal_error: None,
                failure_mark: false,
                diagnostics: VirtioBlkDiagnostics::default(),
            },
        )
    }

    /// Capacity in sectors.
    pub fn capacity_sectors(&self) -> (sectors: u64)
        ensures
            sectors == self.capacity_sectors,
    {
        self.capacity_sectors
    }

    /// Capacity in bytes, where that fits.
    pub fn capacity_bytes(&self) -> (bytes: Option<u64>)
        ensures
            bytes == (if self.capacity_sectors * 512 > u64::MAX {
                None
            } else {
                Some((self.capacity_sectors * 512) as u64)
            }),
    {
        self.capacity_sectors.checked_mul(512)
    }

    /// The counters.
    pub fn diagnostics(&self) -> (diagnostics: VirtioBlkDiagnostics)
        ensures
            diagnostics == self.diagnostics,
    {
        self.diagnostics
    }

    pub(crate) fn ensure_running(&self) -> (result: Result<(), VirtioBlkError>)
        ensures
            result == (match self.stopped() {
                Some(error) => Err(error),
                None => Ok(()),
            }),
    {
        if self.reset_state != ResetState::Running {
            return Err(VirtioBlkError::DeviceReset);
        }
        match self.terminal_error {
            Some(error) => Err(error),
            None => Ok(()),
        }
    }

    pub(crate) fn reject(&mut self, error: VirtioBlkError) -> (returned: VirtioBlkError)
        ensures
            returned == error,
            *final(self) == old(self).with_error(),
            old(self).wf() ==> final(self).wf(),
    {
        self.diagnostics.errors = self.diagnostics.errors.saturating_add(1);
        error
    }

    /// Gives up on the device.
    pub fn fatal(&mut self, error: VirtioBlkError) -> (returned: VirtioBlkError)
        ensures
            returned == error,
            *final(self) == old(self).with_fatal(error),
            old(self).wf() ==> final(self).wf(),
    {
        self.diagnostics.errors = self.diagnostics.errors.saturating_add(1);
        if self.terminal_error.is_none() {
            self.terminal_error = Some(error);
            self.failure_mark = true;
        }
        error
    }

    /// The status that tells the device that the driver gave up, if it is still there.
    ///
    /// `status` is what the device status reads as. The mark is made once.
    pub fn failure_status(&mut self, status: u8) -> (write: Option<u8>)
        requires
            old(self).wf(),
        ensures
            final(self).wf(),
            *final(self) == (VirtioBlk { failure_mark: false, ..*old(self) }),
            write == (if old(self).failure_mark && status != u8::MAX && status != 0 {
                Some(status | STATUS_FAILED)
            } else {
                None
            }),
    {
        let marked: bool = self.failure_mark;
        self.failure_mark = false;
        if marked && status != u8::MAX && status != 0 {
            Some(status | STATUS_FAILED)
        } else {
            None
        }
    }

    /// Synchronous requests are served until asynchronous ones are enabled.
    pub open spec fn bootstrap_error(&self) -> Option<VirtioBlkError> {
        match self.stopped() {
            Some(error) => Some(error),
            None => if self.diagnostics.async_enabled {
                Some(VirtioBlkError::Busy)
            } else {
                None
            },
        }
    }

    pub(crate) fn ensure_bootstrap_mode(&mut self) -> (result: Result<(), VirtioBlkError>)
        ensures
            result == (match old(self).bootstrap_error() {
                Some(error) => Err(error),
                None => Ok(()),
            }),
            *final(self) == (if old(self).stopped() is None && old(self).diagnostics.async_enabled {
                old(self).with_error()
            } else {
                *old(self)
            }),
            old(self).wf() ==> final(self).wf(),
    {
        match self.ensure_running() {
            Err(error) => {
                return Err(error);
            },
            Ok(()) => {},
        }
        if self.diagnostics.async_enabled {
            return Err(self.reject(VirtioBlkError::Busy));
        }
        Ok(())
    }

    /// Asynchronous requests need both interrupts and the asynchronous mode.
    pub open spec fn async_error(&self) -> Option<VirtioBlkError> {
        match self.stopped() {
            Some(error) => Some(error),
            None => if !self.diagnostics.async_enabled || !self.diagnostics.msix_enabled {
                Some(VirtioBlkError::AsyncNotEnabled)
            } else {
                None
            },
        }
    }

    pub(crate) fn ensure_async_mode(&mut self) -> (result: Result<(), VirtioBlkError>)
        ensures
            result == (match old(self).async_error() {
                Some(error) => Err(error),
                None => Ok(()),
            }),
            *final(self) == (if old(self).stopped() is None && old(self).async_error() is Some {
                old(self).with_error()
            } else {
                *old(self)
            }),
            old(self).wf() ==> final(self).wf(),
    {
        match self.ensure_running() {
            Err(error) => {
                return Err(error);
            },
            Ok(()) => {},
        }
        if !self.diagnostics.async_enabled || !self.diagnostics.msix_enabled {
            return Err(self.reject(VirtioBlkError::AsyncNotEnabled));
        }
        Ok(())
    }

    /// Plans a synchronous read of `byte_len` bytes: each piece goes through the bounce page.
    pub fn read_sectors(&mut self, first_sector: u64, byte_len: usize) -> (result: Result<
        Vec<SectorChunk>,
        VirtioBlkError,
    >)
        requires
            old(self).wf(),
        ensures
            final(self).wf(),
            match old(self).bootstrap_error() {
                Some(error) => {
                    &&& result matches Err(found) && found == error
                    &&& *final(self) == (if old(self).stopped() is None {
                        old(self).with_error()
                    } else {
                        *old(self)
                    })
                },
                None => {
                    &&& *final(self) == *old(self)
                    &&& match range_spec(first_sector, byte_len as int, old(self).capacity_sectors) {
                        Err(error) => result matches Err(found) && found == error,
                        Ok(range) => result matches Ok(chunks) && chunks@ == chunks_from(
                            first_sector as int,
                            0,
                            byte_len as int,
                        ),
                    }
                },
            },
    {
        match self.ensure_bootstrap_mode() {
            Err(error) => {
                return Err(error);
            },
            Ok(()) => {},
        }
        match transfer_range(first_sector, byte_len, self.capacity_sectors) {
            Err(error) => Err(error),
            Ok(range) => Ok(split_chunks(range.first_sector, byte_len)),
        }
    }

    /// Plans a synchronous write of `byte_len` bytes.
    pub fn write_sectors(&mut self, first_sector: u64, byte_len: usize) -> (result: Result<
        Vec<SectorChunk>,
        VirtioBlkError,
    >)
        requires
            old(self).wf(),
        ensures
            final(self).wf(),
            match old(self).bootstrap_error() {
                Some(error) => {
                    &&& result matches Err(found) && found == error
                    &&& *final(self) == (if old(self).stopped() is None {
                        old(self).with_error()
                    } else {
                        *old(self)
                    })
                },
                None => if old(self).read_only && byte_len > 0 {
                    &&& result matches Err(found) && found == VirtioBlkError::ReadOnly
                    &&& *final(self) == old(self).with_error()
                } else {
                    &&& *final(self) == *old(self)
                    &&& match range_spec(first_sector, byte_len as int, old(self).capacity_sectors) {
                        Err(error) => result matches Err(found) && found == error,
                        Ok(range) => result matches Ok(chunks) && chunks@ == chunks_from(
                            first_sector as int,
                            0,
                            byte_len as int,
                        ),
                    }
                },
            },
    {
        match self.ensure_bootstrap_mode() {
            Err(error) => {
                return Err(error);
            },
            Ok(()) => {},
        }
        if self.read_only && byte_len > 0 {
            return Err(self.reject(VirtioBlkError::ReadOnly));
        }
        match transfer_range(first_sector, byte_len, self.capacity_sectors) {
            Err(error) => Err(error),
            Ok(range) => Ok(split_chunks(range.first_sector, byte_len)),
        }
    }

    /// Whether a synchronous flush has to be sent; a device without flush needs none.
    pub fn flush(&mut self) -> (result: Result<bool, VirtioBlkError>)
        requires
            old(self).wf(),
        ensures
            final(self).wf(),
            match old(self).bootstrap_error() {
                Some(error) => {
                    &&& result == Err::<bool, VirtioBlkError>(error)
                    &&& *final(self) == (if old(self).stopped() is None {
                        old(self).with_error()
                    } else {
                        *old(self)
                    })
                },
                None => result == Ok::<bool, VirtioBlkError>(old(self).flush_supported)
                    && *final(self) == *old(self),
            },
    {
        match self.ensure_bootstrap_mode() {
            Err(error) => Err(error),
            Ok(()) => Ok(self.flush_supported),
        }
    }
}

/// The slot that each descriptor heads.
pub open spec fn head_map(slot_count: u16) -> Seq<u8> {
    Seq::new(
        256,
        |i: int|
            if i % 10 == 0 && i / 10 < slot_count {
                (i / 10) as u8
            } else {
                INVALID_SLOT
            },
    )
}

/// Builds the table from descriptors to slots.
fn map_heads(slot_count: u16) -> (map: Vec<u8>)
    requires
        slot_count <= MAX_SLOTS,
    ensures
        map@ == head_map(slot_count),
{
    let mut map: Vec<u8> = Vec::new();
    let mut index: usize = 0;
    while index < 256
        invariant
            index <= 256,
            slot_count <= MAX_SLOTS,
            map@ == head_map(slot_count).take(index as int),
        decreases 256 - index,
    {
        let value: u8 = if index % 10 == 0 && index / 10 < slot_count as usize {
            (index / 10) as u8
        } else {
            INVALID_SLOT
        };
        map.push(value);
        index += 1;
        assert(map@ =~= head_map(slot_count).take(index as int));
    }
    assert(head_map(slot_count).take(256) =~= head_map(slot_count));
    map
}

/// The features that the driver accepts of those that the device offers.
pub fn negotiate_features(host_features: u32) -> (negotiated: u32)
    ensures
        negotiated == host_features & SUPPORTED_FEATURES,
{
    host_features & SUPPORTED_FEATURES
}

/// Judges the device status after features were written.
pub fn check_features(status: u8) -> (result: Result<(), VirtioBlkError>)
    ensures
        result == (if status / 8 % 2 == 1 {
            Ok(())
        } else {
            Err(VirtioBlkError::FeatureNegotiationFailed)
        }),
{
    if status / 8 % 2 == 1 {
        Ok(())
    } else {
        Err(VirtioBlkError::FeatureNegotiationFailed)
    }
}

/// The page number under which the queue memory is handed to the device.
pub fn queue_frame(physical: u64) -> (result: Result<u32, VirtioBlkError>)
    ensures
        result == (if physical % 4096 != 0 || physical / 4096 > u32::MAX {
            Err(VirtioBlkError::UnsupportedDmaAddress)
        } else {
            Ok((physical / 4096) as u32)
        }),
{
    if physical % 4096 != 0 || physical / 4096 > 0xffff_ffff {
        Err(VirtioBlkError::UnsupportedDmaAddress)
    } else {
        Ok((physical / 4096) as u32)
    }
}

/// Checks that the device took the queue that it was given.
pub fn check_queue_frame(written: u32, observed: u32) -> (result: Result<(), VirtioBlkError>)
    ensures
        result == (if observed == written {
            Ok(())
        } else {
            Err(VirtioBlkError::InvalidQueueLayout)
        }),
{
    if observed == written {
        Ok(())
    } else {
        Err(VirtioBlkError::InvalidQueueLayout)
    }
}

/// The capacity from its two configuration words.
pub fn capacity_from_words(low: u32, high: u32) -> (sectors: u64)
    ensures
        sectors == low + high * 0x1_0000_0000,
{
    low as u64 + high as u64 * 0x1_0000_0000
}

/// Checks that the rings of a fresh queue are empty.
pub fn check_fresh_rings(used_index: u16, available_index: u16) -> (result: Result<
    (),
    VirtioBlkError,
>)
    ensures
        result == (if used_index == 0 && available_index == 0 {
            Ok(())
        } else {
            Err(VirtioBlkError::InvalidUsedRing)
        }),
{
    if used_index != 0 || available_index != 0 {
        Err(VirtioBlkError::InvalidUsedRing)
    } else {
        Ok(())
    }
}

/// The words of an interrupt table entry: address, upper address, data.
pub fn msix_entry(destination_apic_id: u8, vector: u8) -> (entry: (u32, u32, u32))
    ensures
        entry == ((MSI_ADDRESS_BASE + destination_apic_id * 4096) as u32, 0u32, vector as u32),
{
    (MSI_ADDRESS_BASE + destination_apic_id as u32 * 4096, 0, vector as u32)
}

/// Checks that the device took the interrupt vectors: none for configuration
/// changes, the first for the queue.
pub fn check_msix_vectors(config: u16, queue: u16) -> (result: Result<(), VirtioBlkError>)
    ensures
        result == (if config == MSIX_NO_VECTOR && queue == 0 {
            Ok(())
        } else {
            Err(VirtioBlkError::MsixRejected)
        }),
{
    if config != MSIX_NO_VECTOR || queue != 0 {
        Err(VirtioBlkError::MsixRejected)
    } else {
        Ok(())
    }
}

} // verus!
