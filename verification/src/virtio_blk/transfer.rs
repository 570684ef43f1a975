//! Submission, completion, cancellation and reset of block requests.
use vstd::prelude::*;

use super::device::{
    chain_stores, data_stores, lemma_owned_bounds, lemma_owned_update, owned,
    push_descriptor, ring_place, DispatchCommand, DmaStore, DriverCompletion, HardwareStatus,
    ResetState, Submission, VirtioBlk, VirtioBlkDiagnostics, INTERRUPT_WATCHDOG_POLLS,
};
use super::queue::{
    descriptor_head, descriptor_plan, free_slot, mapped_slot_for_used, plan_spec, range_spec,
    release_slots_after_verified_reset, segments_error, status_error,
    transfer_range, used_distance, used_index_distance, used_slot_spec,
    validate_operational_status, validate_segments, BlockOperation, DescriptorPlan, DmaSegment,
    RequestSlot, SlotState, VirtioBlkError, DESC_F_NEXT, DESC_F_WRITE, MAX_SLOTS, READY_STATUS,
    REQUEST_HEADER_BYTES, VIRTIO_BLK_S_IOERR, VIRTIO_BLK_S_OK, VIRTIO_BLK_S_UNSUPP,
};

verus! {

/// One more, up to the largest number.
pub open spec fn counted(value: u64) -> u64 {
    if value < u64::MAX {
        (value + 1) as u64
    } else {
        u64::MAX
    }
}

/// The first free slot among the first `count`.
pub open spec fn first_free(slots: Seq<RequestSlot>, count: nat) -> Option<int>
    decreases count,
{
    if count == 0 {
        None
    } else {
        match first_free(slots, (count - 1) as nat) {
            Some(slot) => Some(slot),
            None => if slots[count - 1].state == SlotState::Free {
                Some(count - 1)
            } else {
                None
            },
        }
    }
}

/// What `first_free` finds is free, and nothing before it is.
pub(crate) proof fn lemma_first_free(slots: Seq<RequestSlot>, count: nat)
    requires
        count <= slots.len(),
    ensures
        match first_free(slots, count) {
            Some(slot) => {
                &&& 0 <= slot < count
                &&& slots[slot].state == SlotState::Free
                &&& forall|i: int| 0 <= i < slot ==> (#[trigger] slots[i]).state != SlotState::Free
            },
            None => forall|i: int|
                0 <= i < count ==> (#[trigger] slots[i]).state != SlotState::Free,
        },
    decreases count,
{
    if count > 0 {
        lemma_first_free(slots, (count - 1) as nat);
    }
}

/// The first free slot is found from any longer prefix.
proof fn lemma_first_free_stays(slots: Seq<RequestSlot>, slot: int, count: nat)
    requires
        0 <= slot < count <= slots.len(),
        slots[slot].state == SlotState::Free,
        forall|i: int| 0 <= i < slot ==> (#[trigger] slots[i]).state != SlotState::Free,
    ensures
        first_free(slots, count) == Some(slot),
    decreases count,
{
    lemma_first_free(slots, (count - 1) as nat);
    if slot < count - 1 {
        lemma_first_free_stays(slots, slot, (count - 1) as nat);
    }
}

/// The slot of a started request.
pub open spec fn started(
    before: RequestSlot,
    token: Option<u64>,
    synchronous: bool,
    operation: BlockOperation,
    byte_len: u32,
    expected_used_len: u32,
) -> RequestSlot {
    RequestSlot {
        state: SlotState::InFlight,
        generation: (before.generation + 1) as u32,
        token,
        synchronous,
        operation,
        byte_len,
        expected_used_len,
    }
}

/// What the device reports for a request.
pub open spec fn hardware_status(status: u8) -> Option<HardwareStatus> {
    if status == VIRTIO_BLK_S_OK {
        Some(HardwareStatus::Success)
    } else if status == VIRTIO_BLK_S_IOERR {
        Some(HardwareStatus::IoError)
    } else if status == VIRTIO_BLK_S_UNSUPP {
        Some(HardwareStatus::Unsupported)
    } else {
        None
    }
}

/// How far a reset has come after the device status was read.
#[derive(Clone, Copy, Debug, PartialEq, Eq, Structural)]
pub enum ResetProgress {
    /// The device has not finished.
    Pending,
    /// The device is gone.
    Failed(VirtioBlkError),
    /// Slots are free again; interrupts are to be disabled.
    Released,
}

/// What block requests the device takes.
#[derive(Clone, Copy, Debug, PartialEq, Eq, Structural)]
pub struct BlockDeviceConfig {
    pub capacity_sectors: u64,
    pub queue_depth: u16,
    pub supports_flush: bool,
    pub address_bits: u8,
    pub address_alignment: u32,
    pub max_segments: u8,
    pub max_segment_len: u32,
}

impl VirtioBlk {
    /// The counters after a request was handed to the device.
    pub open spec fn published_diagnostics(&self) -> VirtioBlkDiagnostics {
        VirtioBlkDiagnostics {
            submissions: counted(self.diagnostics.submissions),
            in_flight: (self.diagnostics.in_flight + 1) as u16,
            in_flight_high_water: if self.diagnostics.in_flight_high_water
                < self.diagnostics.in_flight + 1 {
                (self.diagnostics.in_flight + 1) as u16
            } else {
                self.diagnostics.in_flight_high_water
            },
            ..self.diagnostics
        }
    }

    /// Claims a slot for a request and lays out its chain.
    ///
    /// A slot whose generations are used up refuses the request.
    fn prepare(
        &mut self,
        token: Option<u64>,
        synchronous: bool,
        operation: BlockOperation,
        sector: u64,
        byte_len: u32,
        segments: &[DmaSegment],
        plan: DescriptorPlan,
    ) -> (result: Result<Submission, VirtioBlkError>)
        requires
            old(self).wf(),
            segments@.len() <= 8,
            old(self).completion_count + old(self).diagnostics.in_flight < old(self).slot_count,
            !synchronous ==> token is Some && old(self).diagnostics.async_enabled,
        ensures
            final(self).wf(),
            old(self).starts(*final(self), result, token, synchronous, operation, sector, byte_len, segments@, plan),
    {
        proof {
            lemma_owned_bounds(self.slots@, self.slot_count as nat);
        }
        let mut slot: usize = 0;
        while slot < self.slot_count as usize && self.slots[slot].state != SlotState::Free
            invariant
                slot <= self.slot_count <= self.slots@.len(),
                *self == *old(self),
                forall|i: int| 0 <= i < slot ==> (#[trigger] self.slots@[i]).state != SlotState::Free,
            decreases self.slot_count - slot,
        {
            slot += 1;
        }
        proof {
            lemma_first_free_stays(self.slots@, slot as int, self.slot_count as nat);
        }
        if self.slots[slot].generation == u32::MAX {
            return Err(VirtioBlkError::GenerationExhausted);
        }
        let chain: Vec<DmaStore> = self.slot_chain(slot, sector, segments, plan);
        let ghost before = self.slots@;
        let started_slot: Result<(), VirtioBlkError> = self.slots[slot].start(
            token,
            synchronous,
            operation,
            byte_len,
            plan.expected_used_len,
        );
        proof {
            lemma_owned_update(before, self.slot_count as nat, slot as int, self.slots@[slot as int]);
            assert(self.slots@ =~= before.update(slot as int, self.slots@[slot as int]));
        }
        let place: u16 = self.available_index % self.queue_size;
        let ring_entry = DmaStore::QueueHalf {
            offset: self.layout.available + 4 + place as usize * 2,
            half: descriptor_head(slot),
        };
        let next: u16 = self.available_index.wrapping_add(1);
        let ring_index = DmaStore::QueueHalf { offset: self.layout.available + 2, half: next };
        self.available_index = next;
        self.diagnostics.submissions = self.diagnostics.submissions.saturating_add(1);
        self.diagnostics.in_flight = self.diagnostics.in_flight + 1;
        if self.diagnostics.in_flight_high_water < self.diagnostics.in_flight {
            self.diagnostics.in_flight_high_water = self.diagnostics.in_flight;
        }
        Ok(Submission { slot, chain, ring_entry, ring_index })
    }

    /// `after` and `result` are what handing the request to the device makes of this driver.
    pub open spec fn starts(
        self,
        after: VirtioBlk,
        result: Result<Submission, VirtioBlkError>,
        token: Option<u64>,
        synchronous: bool,
        operation: BlockOperation,
        sector: u64,
        byte_len: u32,
        segments: Seq<DmaSegment>,
        plan: DescriptorPlan,
    ) -> bool {
        let slot = first_free(self.slots@, self.slot_count as nat)->Some_0;
        &&& first_free(self.slots@, self.slot_count as nat) is Some
        &&& if self.slots@[slot].generation == u32::MAX {
            result matches Err(error) && error == VirtioBlkError::GenerationExhausted && after
                == self
        } else {
            &&& result matches Ok(submission)
            &&& submission.slot == slot
            &&& submission.chain@ == chain_stores(
                self.requests_physical,
                slot,
                sector,
                segments,
                plan,
            )
            &&& submission.ring_entry == (DmaStore::QueueHalf {
                offset: (self.layout.available + 4 + 2 * (self.available_index as int
                    % self.queue_size as int)) as usize,
                half: (10 * slot) as u16,
            })
            &&& submission.ring_index == (DmaStore::QueueHalf {
                offset: (self.layout.available + 2) as usize,
                half: after.available_index,
            })
            &&& after.available_index == (self.available_index + 1) % 0x1_0000
            &&& after.slots@ == self.slots@.update(
                slot,
                started(
                    self.slots@[slot],
                    token,
                    synchronous,
                    operation,
                    byte_len,
                    plan.expected_used_len,
                ),
            )
            &&& after == (VirtioBlk {
                slots: after.slots,
                available_index: after.available_index,
                diagnostics: self.published_diagnostics(),
                ..self
            })
        }
    }

    /// Lays out the request header, its status byte and its descriptors.
    fn slot_chain(&self, slot: usize, sector: u64, segments: &[DmaSegment], plan: DescriptorPlan) -> (chain:
        Vec<DmaStore>)
        requires
            self.wf(),
            slot < MAX_SLOTS,
            segments@.len() <= 8,
        ensures
            chain@ == chain_stores(self.requests_physical, slot as int, sector, segments@, plan),
    {
        let at: usize = slot * 32;
        let head: u16 = descriptor_head(slot);
        let status: u16 = head + 9;
        let mut chain: Vec<DmaStore> = Vec::new();
        chain.push(DmaStore::RequestWord { offset: at, word: plan.request_type });
        chain.push(DmaStore::RequestWord { offset: at + 4, word: 0 });
        chain.push(DmaStore::RequestDouble { offset: at + 8, double: sector });
        chain.push(DmaStore::RequestByte { offset: at + 16, value: 0xff });
        let ghost header = chain@;
        let first: u16 = if segments.len() == 0 {
            status
        } else {
            head + 1
        };
        push_descriptor(
            &mut chain,
            head,
            self.requests_physical + at as u64,
            REQUEST_HEADER_BYTES,
            DESC_F_NEXT,
            first,
        );
        let ghost base = chain@;
        let flags: u16 = if plan.device_writes_data {
            3
        } else {
            1
        };
        let mut index: usize = 0;
        while index < segments.len()
            invariant
                index <= segments@.len() <= 8,
                head == 10 * slot,
                slot < MAX_SLOTS,
                status == head + 9,
                flags == (if plan.device_writes_data {
                    3u16
                } else {
                    1
                }),
                chain@ == base + data_stores(
                    head as int,
                    segments@,
                    plan.device_writes_data,
                    index as nat,
                ),
            decreases segments@.len() - index,
        {
            let segment: DmaSegment = segments[index];
            let descriptor: u16 = head + 1 + index as u16;
            let next: u16 = if index + 1 == segments.len() {
                status
            } else {
                descriptor + 1
            };
            push_descriptor(
                &mut chain,
                descriptor,
                segment.physical_address,
                segment.length,
                flags,
                next,
            );
            index += 1;
            assert(chain@ =~= base + data_stores(
                head as int,
                segments@,
                plan.device_writes_data,
                index as nat,
            ));
        }
        push_descriptor(
            &mut chain,
            status,
            self.requests_physical + at as u64 + 16,
            1,
            DESC_F_WRITE,
            0,
        );
        assert(chain@ =~= chain_stores(
            self.requests_physical,
            slot as int,
            sector,
            segments@,
            plan,
        ));
        chain
    }

    /// Starts a synchronous request, once the used ring was drained.
    pub fn start_synchronous(
        &mut self,
        operation: BlockOperation,
        sector: u64,
        byte_len: u32,
        segments: &[DmaSegment],
    ) -> (result: Result<Submission, VirtioBlkError>)
        requires
            old(self).wf(),
            !old(self).diagnostics.async_enabled,
        ensures
            final(self).wf(),
            if old(self).diagnostics.in_flight != 0 {
                &&& result matches Err(error) && error == VirtioBlkError::Busy
                &&& *final(self) == old(self).with_error()
            } else {
                let ready = VirtioBlk { sync_completion: None, ..*old(self) };
                match plan_spec(operation, byte_len, segments@.len() as int) {
                    Err(error) => result matches Err(found) && found == error && *final(self)
                        == ready,
                    Ok(plan) => match segments_error(segments@, byte_len) {
                        Some(error) => result matches Err(found) && found == error && *final(self)
                            == ready,
                        None => ready.starts(
                            *final(self),
                            result,
                            None,
                            true,
                            operation,
                            sector,
                            byte_len,
                            segments@,
                            plan,
                        ),
                    },
                }
            },
    {
        if self.diagnostics.in_flight != 0 {
            return Err(self.reject(VirtioBlkError::Busy));
        }
        self.sync_completion = None;
        let plan: DescriptorPlan = match descriptor_plan(operation, byte_len, segments.len()) {
            Ok(plan) => plan,
            Err(error) => {
                return Err(error);
            },
        };
        match validate_segments(segments, byte_len) {
            Ok(()) => {},
            Err(error) => {
                return Err(error);
            },
        }
        self.prepare(None, true, operation, sector, byte_len, segments, plan)
    }

    /// Takes the outcome of the synchronous request, if it has come.
    pub fn take_synchronous(&mut self) -> (outcome: Option<Result<(), VirtioBlkError>>)
        requires
            old(self).wf(),
        ensures
            final(self).wf(),
            outcome == old(self).sync_completion,
            *final(self) == (VirtioBlk { sync_completion: None, ..*old(self) }),
    {
        let outcome: Option<Result<(), VirtioBlkError>> = self.sync_completion;
        self.sync_completion = None;
        outcome
    }

    /// Gives up waiting for a synchronous request; the device keeps its slot.
    pub fn abandon_synchronous(&mut self, slot: usize, timed_out: bool)
        requires
            old(self).wf(),
            slot < old(self).slot_count,
        ensures
            final(self).wf(),
            final(self).slots@ == old(self).slots@.update(
                slot as int,
                if old(self).slots@[slot as int].state == SlotState::InFlight && old(
                    self,
                ).slots@[slot as int].synchronous {
                    RequestSlot {
                        state: SlotState::CancelPending,
                        ..old(self).slots@[slot as int]
                    }
                } else {
                    old(self).slots@[slot as int]
                },
            ),
            *final(self) == (VirtioBlk {
                slots: final(self).slots,
                ..(if timed_out {
                    old(self).with_error()
                } else {
                    *old(self)
                })
            }),
    {
        let ghost before = self.slots@;
        self.slots[slot].cancel_synchronous();
        proof {
            lemma_owned_update(before, self.slot_count as nat, slot as int, self.slots@[slot as int]);
            assert(self.slots@ =~= before.update(slot as int, self.slots@[slot as int]));
        }
        if timed_out {
            self.diagnostics.errors = self.diagnostics.errors.saturating_add(1);
        }
    }

    /// Why an asynchronous request is refused, before a slot is sought.
    pub open spec fn submit_error(&self, command: DispatchCommand) -> Option<VirtioBlkError> {
        match self.async_error() {
            Some(error) => Some(error),
            None => match plan_spec(
                command.operation,
                command.byte_len,
                command.segments@.len() as int,
            ) {
                Err(error) => Some(error),
                Ok(plan) => if self.read_only && command.operation == BlockOperation::Write {
                    Some(VirtioBlkError::ReadOnly)
                } else if (command.operation == BlockOperation::Read || command.operation
                    == BlockOperation::Write) && range_spec(
                    command.lba,
                    command.byte_len as int,
                    self.capacity_sectors,
                ) is Err {
                    Some(
                        range_spec(
                            command.lba,
                            command.byte_len as int,
                            self.capacity_sectors,
                        )->Err_0,
                    )
                } else {
                    match segments_error(command.segments@, command.byte_len) {
                        Some(error) => Some(error),
                        None => if self.completion_count + self.diagnostics.in_flight
                            >= self.slot_count {
                            Some(VirtioBlkError::QueueFull)
                        } else {
                            None
                        },
                    }
                },
            },
        }
    }

    /// Starts an asynchronous request.
    ///
    /// A flush on a device without one is finished at once and needs no submission.
    pub fn submit(&mut self, command: &DispatchCommand) -> (result: Result<
        Option<Submission>,
        VirtioBlkError,
    >)
        requires
            old(self).wf(),
        ensures
            final(self).wf(),
            match old(self).submit_error(*command) {
                Some(error) => {
                    &&& result matches Err(found) && found == error
                    &&& *final(self) == (if old(self).stopped() is Some {
                        *old(self)
                    } else {
                        old(self).with_error()
                    })
                },
                None => if (command.operation == BlockOperation::Flush || command.operation
                    == BlockOperation::Barrier) && !old(self).flush_supported {
                    &&& result matches Ok(None)
                    &&& final(self).finished() == old(self).finished().push(
                        DriverCompletion {
                            token: command.token,
                            status: HardwareStatus::Success,
                        },
                    )
                    &&& *final(self) == (VirtioBlk {
                        completions: final(self).completions,
                        completion_tail: final(self).completion_tail,
                        completion_count: (old(self).completion_count + 1) as u8,
                        diagnostics: VirtioBlkDiagnostics {
                            submissions: counted(old(self).diagnostics.submissions),
                            completions: counted(old(self).diagnostics.completions),
                            ..old(self).diagnostics
                        },
                        ..*old(self)
                    })
                } else {
                    old(self).starts(
                        *final(self),
                        match result {
                            Ok(submission) => Ok(submission->Some_0),
                            Err(error) => Err(error),
                        },
                        Some(command.token),
                        false,
                        command.operation,
                        command.lba,
                        command.byte_len,
                        command.segments@,
                        plan_spec(
                            command.operation,
                            command.byte_len,
                            command.segments@.len() as int,
                        )->Ok_0,
                    ) && !(result matches Ok(None))
                },
            },
    {
        match self.ensure_async_mode() {
            Ok(()) => {},
            Err(error) => {
                return Err(error);
            },
        }
        let plan: DescriptorPlan = match descriptor_plan(
            command.operation,
            command.byte_len,
            command.segments.len(),
        ) {
            Ok(plan) => plan,
            Err(error) => {
                return Err(self.reject(error));
            },
        };
        if self.read_only && command.operation == BlockOperation::Write {
            return Err(self.reject(VirtioBlkError::ReadOnly));
        }
        if command.operation == BlockOperation::Read || command.operation == BlockOperation::Write {
            match transfer_range(command.lba, command.byte_len as usize, self.capacity_sectors) {
                Ok(_range) => {},
                Err(error) => {
                    return Err(self.reject(error));
                },
            }
        }
        match validate_segments(command.segments.as_slice(), command.byte_len) {
            Ok(()) => {},
            Err(error) => {
                return Err(self.reject(error));
            },
        }
        if self.completion_count as usize + self.diagnostics.in_flight as usize
            >= self.slot_count as usize {
            return Err(self.reject(VirtioBlkError::QueueFull));
        }
        if (command.operation == BlockOperation::Flush || command.operation
            == BlockOperation::Barrier) && !self.flush_supported {
            self.diagnostics.submissions = self.diagnostics.submissions.saturating_add(1);
            self.diagnostics.completions = self.diagnostics.completions.saturating_add(1);
            self.push_completion(
                DriverCompletion { token: command.token, status: HardwareStatus::Success },
            );
            return Ok(None);
        }
        match self.prepare(
            Some(command.token),
            false,
            command.operation,
            command.lba,
            command.byte_len,
            command.segments.as_slice(),
            plan,
        ) {
            Ok(submission) => Ok(Some(submission)),
            Err(error) => Err(error),
        }
    }

    /// Appends a finished request; there is always room for one.
    fn push_completion(&mut self, completion: DriverCompletion)
        requires
            old(self).wf(),
            old(self).diagnostics.async_enabled,
            old(self).completion_count + old(self).diagnostics.in_flight < old(self).slot_count,
        ensures
            final(self).wf(),
            final(self).finished() == old(self).finished().push(completion),
            *final(self) == (VirtioBlk {
                completions: final(self).completions,
                completion_tail: final(self).completion_tail,
                completion_count: (old(self).completion_count + 1) as u8,
                ..*old(self)
            }),
    {
        let index: usize = self.completion_tail as usize;
        let ghost before = *self;
        self.completions[index] = Some(completion);
        self.completion_tail = if index + 1 < self.slot_count as usize {
            self.completion_tail + 1
        } else {
            0
        };
        self.completion_count = self.completion_count + 1;
        proof {
            assert forall|i: int| 0 <= i < before.completion_count implies #[trigger] ring_place(
                before.completion_head as int,
                i,
                before.slot_count as int,
            ) != index by {}
            assert(self.finished() =~= before.finished().push(completion));
        }
    }

    /// Takes the oldest finished request.
    pub fn pop_completion(&mut self) -> (completion: Option<DriverCompletion>)
        requires
            old(self).wf(),
        ensures
            final(self).wf(),
            if old(self).finished().len() == 0 {
                completion is None && *final(self) == *old(self)
            } else {
                &&& completion == Some(old(self).finished()[0])
                &&& final(self).finished() == old(self).finished().drop_first()
                &&& *final(self) == (VirtioBlk {
                    completions: final(self).completions,
                    completion_head: final(self).completion_head,
                    completion_count: (old(self).completion_count - 1) as u8,
                    ..*old(self)
                })
            },
    {
        if self.completion_count == 0 {
            return None;
        }
        let ghost before = *self;
        let index: usize = self.completion_head as usize;
        proof {
            assert(ring_place(before.completion_head as int, 0, before.slot_count as int) == index);
            assert(before.finished()[0] == before.completions@[index as int]->Some_0);
        }
        let completion: Option<DriverCompletion> = self.completions[index];
        self.completions[index] = None;
        self.completion_head = if index + 1 < self.slot_count as usize {
            self.completion_head + 1
        } else {
            0
        };
        self.completion_count = self.completion_count - 1;
        proof {
            assert forall|i: int| 0 <= i < self.completion_count implies {
                let place = #[trigger] ring_place(
                    self.completion_head as int,
                    i,
                    self.slot_count as int,
                );
                &&& place == ring_place(
                    before.completion_head as int,
                    i + 1,
                    before.slot_count as int,
                )
                &&& place != index
                &&& self.completions@[place] == before.completions@[place]
                &&& self.completions@[place] is Some
            } by {
                assert(before.completions@[ring_place(
                    before.completion_head as int,
                    i + 1,
                    before.slot_count as int,
                )] is Some);
            }
            assert(self.finished() =~= before.finished().drop_first());
        }
        completion
    }

    /// Judges the device status before the used ring is read.
    pub fn check_status(&mut self, status: u8) -> (result: Result<(), VirtioBlkError>)
        requires
            old(self).wf(),
        ensures
            final(self).wf(),
            match status_error(status, READY_STATUS) {
                Some(error) => result == Err::<(), VirtioBlkError>(error) && *final(self) == old(
                    self,
                ).with_fatal(error),
                None => result == Ok::<(), VirtioBlkError>(()) && *final(self) == *old(self),
            },
    {
        match validate_operational_status(status, READY_STATUS) {
            Ok(()) => Ok(()),
            Err(error) => Err(self.fatal(error)),
        }
    }

    /// Entries of the used ring to read, from the index that the device published.
    pub fn pending_used(&mut self, observed: u16) -> (result: Result<u16, VirtioBlkError>)
        requires
            old(self).wf(),
        ensures
            final(self).wf(),
            ({
                let distance = used_distance(old(self).used_index as int, observed as int);
                if distance > old(self).queue_size || distance > old(self).diagnostics.in_flight {
                    &&& result == Err::<u16, VirtioBlkError>(VirtioBlkError::InvalidUsedRing)
                    &&& *final(self) == old(self).with_fatal(VirtioBlkError::InvalidUsedRing)
                } else {
                    result == Ok::<u16, VirtioBlkError>(distance as u16) && *final(self) == *old(
                        self,
                    )
                }
            }),
    {
        match used_index_distance(self.used_index, observed, self.queue_size) {
            Err(error) => Err(self.fatal(error)),
            Ok(pending) => if pending > self.diagnostics.in_flight {
                Err(self.fatal(VirtioBlkError::InvalidUsedRing))
            } else {
                Ok(pending)
            },
        }
    }

    /// Where the next entry of the used ring lies in the queue memory.
    pub fn next_used_offset(&self) -> (offset: usize)
        requires
            self.wf(),
        ensures
            offset == self.layout.used + 4 + 8 * (self.used_index as int % self.queue_size as int),
            offset + 8 <= self.layout.pages * 4096,
    {
        let place: u16 = self.used_index % self.queue_size;
        self.layout.used + 4 + place as usize * 8
    }

    /// `after` and `result` are what an element of the used ring makes of this driver.
    pub open spec fn accepts(
        self,
        after: VirtioBlk,
        id: u32,
        length: u32,
        result: Result<(usize, usize), VirtioBlkError>,
    ) -> bool {
        match used_slot_spec(
            self.head_to_slot@,
            self.slots@,
            self.slot_count,
            id as int,
        ) {
            None => {
                &&& result == Err::<(usize, usize), VirtioBlkError>(
                    VirtioBlkError::InvalidUsedRing,
                )
                &&& after == (VirtioBlk {
                    diagnostics: VirtioBlkDiagnostics {
                        invalid_used_ids: counted(self.diagnostics.invalid_used_ids),
                        ..self.diagnostics
                    },
                    ..self
                }).with_fatal(VirtioBlkError::InvalidUsedRing)
            },
            Some(slot) => if length != self.slots@[slot].expected_used_len {
                &&& result == Err::<(usize, usize), VirtioBlkError>(
                    VirtioBlkError::InvalidUsedRing,
                )
                &&& after == self.with_fatal(VirtioBlkError::InvalidUsedRing)
            } else {
                &&& result == Ok::<(usize, usize), VirtioBlkError>(
                    (slot as usize, (32 * slot + 16) as usize),
                )
                &&& slot < self.slot_count
                &&& after == self
            },
        }
    }

    /// Judges an entry of the used ring; gives its slot and where its status byte lies.
    pub fn accept_used(&mut self, id: u32, length: u32) -> (result: Result<
        (usize, usize),
        VirtioBlkError,
    >)
        requires
            old(self).wf(),
        ensures
            final(self).wf(),
            old(self).accepts(*final(self), id, length, result),
    {
        match mapped_slot_for_used(
            self.head_to_slot.as_slice(),
            self.slots.as_slice(),
            self.slot_count,
            id,
        ) {
            Err(error) => {
                self.diagnostics.invalid_used_ids =
                self.diagnostics.invalid_used_ids.saturating_add(1);
                Err(self.fatal(error))
            },
            Ok(slot) => if length != self.slots[slot].expected_used_len {
                Err(self.fatal(VirtioBlkError::InvalidUsedRing))
            } else {
                Ok((slot, slot * 32 + 16))
            },
        }
    }

    /// This driver after its slot was given back by the device, with the completion reported.
    pub open spec fn finishes(self, after: VirtioBlk, slot: int, status: HardwareStatus) -> bool {
        let done = self.slots@[slot];
        &&& after.slots@ == self.slots@.update(slot, free_slot(done.generation))
        &&& after.used_index == (self.used_index + 1) % 0x1_0000
        &&& if done.synchronous {
            &&& after.finished() == self.finished()
            &&& after.sync_completion == (if done.state == SlotState::CancelPending {
                self.sync_completion
            } else {
                Some(
                    match status {
                        HardwareStatus::Success => Ok(()),
                        HardwareStatus::IoError => Err(VirtioBlkError::DeviceIo),
                        HardwareStatus::Unsupported => Err(VirtioBlkError::UnsupportedRequest),
                    },
                )
            })
        } else {
            &&& after.finished() == self.finished().push(
                DriverCompletion { token: done.token->Some_0, status },
            )
            &&& after.sync_completion == self.sync_completion
        }
        &&& after == (VirtioBlk {
            slots: after.slots,
            completions: after.completions,
            completion_tail: after.completion_tail,
            completion_count: after.completion_count,
            sync_completion: after.sync_completion,
            used_index: after.used_index,
            diagnostics: VirtioBlkDiagnostics {
                in_flight: (self.diagnostics.in_flight - 1) as u16,
                completions: counted(self.diagnostics.completions),
                errors: if status == HardwareStatus::Success {
                    self.diagnostics.errors
                } else {
                    counted(self.diagnostics.errors)
                },
                ..self.diagnostics
            },
            ..self
        })
    }

    /// Finishes the request in `slot` with the status that the device wrote.
    ///
    /// A canceled synchronous request is dropped; every asynchronous one is reported.
    pub fn finish_used(&mut self, slot: usize, request_status: u8) -> (result: Result<
        (),
        VirtioBlkError,
    >)
        requires
            old(self).wf(),
            slot < old(self).slot_count,
            old(self).slots@[slot as int].state != SlotState::Free,
        ensures
            final(self).wf(),
            match hardware_status(request_status) {
                None => {
                    &&& result == Err::<(), VirtioBlkError>(
                        VirtioBlkError::InvalidDeviceStatus(request_status),
                    )
                    &&& *final(self) == old(self).with_fatal(
                        VirtioBlkError::InvalidDeviceStatus(request_status),
                    )
                },
                Some(status) => {
                    &&& result == Ok::<(), VirtioBlkError>(())
                    &&& old(self).finishes(*final(self), slot as int, status)
                },
            },
    {
        let status: HardwareStatus = if request_status == VIRTIO_BLK_S_OK {
            HardwareStatus::Success
        } else if request_status == VIRTIO_BLK_S_IOERR {
            HardwareStatus::IoError
        } else if request_status == VIRTIO_BLK_S_UNSUPP {
            HardwareStatus::Unsupported
        } else {
            return Err(self.fatal(VirtioBlkError::InvalidDeviceStatus(request_status)));
        };
        let ghost before = *self;
        proof {
            lemma_owned_bounds(self.slots@, self.slot_count as nat);
        }
        if status != HardwareStatus::Success {
            self.diagnostics.errors = self.diagnostics.errors.saturating_add(1);
        }
        self.used_index = self.used_index.wrapping_add(1);
        let done: RequestSlot = self.slots[slot];
        self.slots[slot].release();
        self.diagnostics.in_flight = self.diagnostics.in_flight - 1;
        self.diagnostics.completions = self.diagnostics.completions.saturating_add(1);
        proof {
            lemma_owned_update(
                before.slots@,
                before.slot_count as nat,
                slot as int,
                self.slots@[slot as int],
            );
            assert(self.slots@ =~= before.slots@.update(slot as int, self.slots@[slot as int]));
        }
        if done.synchronous {
            if done.state != SlotState::CancelPending {
                self.sync_completion = Some(
                    match status {
                        HardwareStatus::Success => Ok(()),
                        HardwareStatus::IoError => Err(VirtioBlkError::DeviceIo),
                        HardwareStatus::Unsupported => Err(VirtioBlkError::UnsupportedRequest),
                    },
                );
            }
            assert(self.finished() =~= before.finished());
        } else if let Some(token) = done.token {
            assert(self.finished() =~= before.finished());
            self.push_completion(DriverCompletion { token, status });
        }
        Ok(())
    }

    /// What a poll answers before the device is looked at.
    pub fn poll_begin(&mut self) -> (answer: Option<Result<DriverCompletion, VirtioBlkError>>)
        requires
            old(self).wf(),
        ensures
            final(self).wf(),
            if old(self).finished().len() > 0 {
                &&& answer == Some(Ok::<DriverCompletion, VirtioBlkError>(old(self).finished()[0]))
                &&& final(self).finished() == old(self).finished().drop_first()
                &&& *final(self) == (VirtioBlk {
                    completions: final(self).completions,
                    completion_head: final(self).completion_head,
                    completion_count: (old(self).completion_count - 1) as u8,
                    ..*old(self)
                })
            } else {
                &&& answer == (match old(self).terminal_error {
                    Some(error) => Some(Err::<DriverCompletion, VirtioBlkError>(error)),
                    None => if old(self).reset_state != ResetState::Running {
                        Some(Err::<DriverCompletion, VirtioBlkError>(VirtioBlkError::DeviceReset))
                    } else {
                        None
                    },
                })
                &&& *final(self) == *old(self)
            },
    {
        match self.pop_completion() {
            Some(completion) => {
                return Some(Ok(completion));
            },
            None => {},
        }
        if let Some(error) = self.terminal_error {
            return Some(Err(error));
        }
        if self.reset_state != ResetState::Running {
            return Some(Err(VirtioBlkError::DeviceReset));
        }
        None
    }

    /// Whether a poll drains the used ring: on an interrupt, or when the watchdog ran out.
    pub fn poll_interrupt(&mut self, interrupted: bool) -> (drain: bool)
        requires
            old(self).wf(),
        ensures
            final(self).wf(),
            drain == (interrupted || (old(self).diagnostics.in_flight != 0 && old(
                self,
            ).watchdog_countdown <= 1)),
            *final(self) == (VirtioBlk {
                watchdog_countdown: if drain {
                    INTERRUPT_WATCHDOG_POLLS
                } else if old(self).diagnostics.in_flight == 0 {
                    old(self).watchdog_countdown
                } else {
                    (old(self).watchdog_countdown - 1) as u16
                },
                diagnostics: VirtioBlkDiagnostics {
                    interrupts: if interrupted {
                        counted(old(self).diagnostics.interrupts)
                    } else {
                        old(self).diagnostics.interrupts
                    },
                    watchdog_polls: if drain && !interrupted {
                        counted(old(self).diagnostics.watchdog_polls)
                    } else {
                        old(self).diagnostics.watchdog_polls
                    },
                    ..old(self).diagnostics
                },
                ..*old(self)
            }),
    {
        if interrupted {
            self.diagnostics.interrupts = self.diagnostics.interrupts.saturating_add(1);
            self.watchdog_countdown = INTERRUPT_WATCHDOG_POLLS;
            true
        } else if self.diagnostics.in_flight == 0 {
            false
        } else if self.watchdog_countdown > 1 {
            self.watchdog_countdown = self.watchdog_countdown - 1;
            false
        } else {
            self.watchdog_countdown = INTERRUPT_WATCHDOG_POLLS;
            self.diagnostics.watchdog_polls = self.diagnostics.watchdog_polls.saturating_add(1);
            true
        }
    }

    /// Marks the request with this token as canceled, if the device still owns it.
    pub fn request_cancel(&mut self, token: u64) -> (result: Result<(), VirtioBlkError>)
        requires
            old(self).wf(),
        ensures
            final(self).wf(),
            match old(self).async_error() {
                Some(error) => {
                    &&& result == Err::<(), VirtioBlkError>(error)
                    &&& *final(self) == (if old(self).stopped() is Some {
                        *old(self)
                    } else {
                        old(self).with_error()
                    })
                },
                None => {
                    &&& result == Ok::<(), VirtioBlkError>(())
                    &&& *final(self) == (VirtioBlk { slots: final(self).slots, ..*old(self) })
                    &&& old(self).cancels(final(self).slots@, token)
                },
            },
    {
        match self.ensure_async_mode() {
            Ok(()) => {},
            Err(error) => {
                return Err(error);
            },
        }
        let mut index: usize = 0;
        while index < self.slot_count as usize
            invariant
                index <= self.slot_count,
                self.wf(),
                old(self).async_error() is None,
                *self == (VirtioBlk { slots: self.slots, ..*old(self) }),
                self.slots@ == old(self).slots@,
                forall|i: int| 0 <= i < index ==> !carries(#[trigger] self.slots@[i], token),
            decreases self.slot_count - index,
        {
            let ghost before = self.slots@;
            let matched: bool = self.slots[index].request_cancel(token);
            proof {
                lemma_owned_update(
                    before,
                    self.slot_count as nat,
                    index as int,
                    self.slots@[index as int],
                );
                assert(self.slots@ =~= before.update(index as int, self.slots@[index as int]));
            }
            if matched {
                assert(carries(old(self).slots@[index as int], token));
                return Ok(());
            }
            index += 1;
        }
        Ok(())
    }

    /// `after` marks the first owned slot that carries `token`, if there is one.
    pub open spec fn cancels(&self, after: Seq<RequestSlot>, token: u64) -> bool {
        ||| after == self.slots@ && forall|i: int|
            0 <= i < self.slot_count ==> !carries(#[trigger] self.slots@[i], token)
        ||| exists|slot: int|
            #![trigger self.slots@[slot]]
            0 <= slot < self.slot_count && carries(self.slots@[slot], token) && (forall|i: int|
                0 <= i < slot ==> !carries(#[trigger] self.slots@[i], token)) && after
                == self.slots@.update(
                slot,
                RequestSlot { state: SlotState::CancelPending, ..self.slots@[slot] },
            )
    }

    /// Whether a request can be taken now; `None` while the device is full.
    pub fn poll_ready(&mut self) -> (answer: Option<Result<(), VirtioBlkError>>)
        requires
            old(self).wf(),
        ensures
            final(self).wf(),
            match old(self).async_error() {
                Some(error) => {
                    &&& answer == Some(Err::<(), VirtioBlkError>(error))
                    &&& *final(self) == (if old(self).stopped() is Some {
                        *old(self)
                    } else {
                        old(self).with_error()
                    })
                },
                None => {
                    &&& answer == (if old(self).completion_count + old(self).diagnostics.in_flight
                        >= old(self).slot_count {
                        None
                    } else {
                        Some(Ok::<(), VirtioBlkError>(()))
                    })
                    &&& *final(self) == *old(self)
                },
            },
    {
        match self.ensure_async_mode() {
            Ok(()) => {},
            Err(error) => {
                return Some(Err(error));
            },
        }
        if self.completion_count as usize + self.diagnostics.in_flight as usize
            >= self.slot_count as usize {
            None
        } else {
            Some(Ok(()))
        }
    }

    /// What requests the device takes.
    pub fn config(&self) -> (config: BlockDeviceConfig)
        ensures
            config == (BlockDeviceConfig {
                capacity_sectors: self.capacity_sectors,
                queue_depth: self.slot_count,
                supports_flush: self.flush_supported,
                address_bits: 64,
                address_alignment: 1,
                max_segments: 8,
                max_segment_len: u32::MAX,
            }),
    {
        BlockDeviceConfig {
            capacity_sectors: self.capacity_sectors,
            queue_depth: self.slot_count,
            supports_flush: self.flush_supported,
            address_bits: 64,
            address_alignment: 1,
            max_segments: 8,
            max_segment_len: u32::MAX,
        }
    }

    /// Whether interrupts are to be programmed; not when they are enabled already.
    pub fn enable_msix_begin(&mut self) -> (result: Result<bool, VirtioBlkError>)
        requires
            old(self).wf(),
        ensures
            final(self).wf(),
            match old(self).stopped() {
                Some(error) => result == Err::<bool, VirtioBlkError>(error) && *final(self) == *old(
                    self,
                ),
                None => if old(self).diagnostics.msix_enabled {
                    result == Ok::<bool, VirtioBlkError>(false) && *final(self) == *old(self)
                } else if !old(self).msix_available {
                    result == Err::<bool, VirtioBlkError>(VirtioBlkError::MsixUnavailable)
                        && *final(self) == old(self).with_error()
                } else {
                    result == Ok::<bool, VirtioBlkError>(true) && *final(self) == *old(self)
                },
            },
    {
        match self.ensure_running() {
            Ok(()) => {},
            Err(error) => {
                return Err(error);
            },
        }
        if self.diagnostics.msix_enabled {
            return Ok(false);
        }
        if !self.msix_available {
            return Err(self.reject(VirtioBlkError::MsixUnavailable));
        }
        Ok(true)
    }

    /// Switches to asynchronous requests once interrupts are programmed.
    ///
    /// `result` is how programming them went; on an error the device stays synchronous.
    pub fn enable_msix_end(&mut self, result: Result<(), VirtioBlkError>) -> (answer: Result<
        (),
        VirtioBlkError,
    >)
        requires
            old(self).wf(),
            !old(self).diagnostics.msix_enabled,
        ensures
            final(self).wf(),
            answer == result,
            match result {
                Ok(()) => *final(self) == (VirtioBlk {
                    watchdog_countdown: INTERRUPT_WATCHDOG_POLLS,
                    diagnostics: VirtioBlkDiagnostics {
                        msix_enabled: true,
                        async_enabled: true,
                        ..old(self).diagnostics
                    },
                    ..*old(self)
                }),
                Err(error) => *final(self) == (VirtioBlk {
                    diagnostics: VirtioBlkDiagnostics {
                        msix_enabled: false,
                        async_enabled: false,
                        ..old(self).diagnostics
                    },
                    ..*old(self)
                }).with_error(),
            },
    {
        match result {
            Ok(()) => {
                self.diagnostics.msix_enabled = true;
                self.diagnostics.async_enabled = true;
                self.watchdog_countdown = INTERRUPT_WATCHDOG_POLLS;
            },
            Err(error) => {
                self.diagnostics.msix_enabled = false;
                self.diagnostics.async_enabled = false;
                self.reject(error);
            },
        }
        result
    }

    /// Begins a reset; says whether the device status is to be cleared.
    ///
    /// `None` once the reset is over.
    pub fn reset_begin(&mut self) -> (write: Option<bool>)
        requires
            old(self).wf(),
        ensures
            final(self).wf(),
            match old(self).reset_state {
                ResetState::Complete => write is None && *final(self) == *old(self),
                ResetState::WaitingForZero => write == Some(false) && *final(self) == *old(self),
                ResetState::Running => write == Some(true) && *final(self) == (VirtioBlk {
                    diagnostics: VirtioBlkDiagnostics {
                        resets: counted(old(self).diagnostics.resets),
                        ..old(self).diagnostics
                    },
                    ..*old(self)
                }),
            },
    {
        match self.reset_state {
            ResetState::Complete => None,
            ResetState::WaitingForZero => Some(false),
            ResetState::Running => {
                self.diagnostics.resets = self.diagnostics.resets.saturating_add(1);
                Some(true)
            },
        }
    }

    /// The device status was cleared, or clearing it failed.
    pub fn reset_written(&mut self, result: Result<(), VirtioBlkError>) -> (answer: Result<
        (),
        VirtioBlkError,
    >)
        requires
            old(self).wf(),
        ensures
            final(self).wf(),
            answer == result,
            *final(self) == (match result {
                Ok(()) => VirtioBlk { reset_state: ResetState::WaitingForZero, ..*old(self) },
                Err(error) => old(self).with_error(),
            }),
    {
        match result {
            Ok(()) => {
                self.reset_state = ResetState::WaitingForZero;
            },
            Err(error) => {
                self.reject(error);
            },
        }
        result
    }

    /// Judges the device status during a reset; slots are freed only when it reads as zero.
    pub fn reset_observed(&mut self, observed: u8) -> (progress: ResetProgress)
        requires
            old(self).wf(),
        ensures
            final(self).wf(),
            if observed == u8::MAX {
                &&& progress == ResetProgress::Failed(VirtioBlkError::DeviceNotPresent)
                &&& *final(self) == old(self).with_error()
            } else if observed != 0 {
                progress == ResetProgress::Pending && *final(self) == *old(self)
            } else {
                &&& progress == ResetProgress::Released
                &&& final(self).finished().len() == 0
                &&& final(self).slots@.len() == old(self).slots@.len()
                &&& forall|i: int|
                    0 <= i < old(self).slots@.len() ==> #[trigger] final(self).slots@[i] == (if i
                        < old(self).slot_count {
                        free_slot(old(self).slots@[i].generation)
                    } else {
                        old(self).slots@[i]
                    })
                &&& *final(self) == (VirtioBlk {
                    slots: final(self).slots,
                    completions: final(self).completions,
                    completion_head: 0,
                    completion_tail: 0,
                    completion_count: 0,
                    sync_completion: None,
                    terminal_error: Some(VirtioBlkError::DeviceReset),
                    reset_state: ResetState::Complete,
                    diagnostics: VirtioBlkDiagnostics {
                        in_flight: 0,
                        async_enabled: false,
                        ..old(self).diagnostics
                    },
                    ..*old(self)
                })
            },
    {
        if observed == u8::MAX {
            return ResetProgress::Failed(self.reject(VirtioBlkError::DeviceNotPresent));
        }
        if observed != 0 {
            return ResetProgress::Pending;
        }
        let released: bool = release_slots_after_verified_reset(
            &mut self.slots,
            self.slot_count,
            observed,
        );
        self.diagnostics.in_flight = 0;
        let mut index: usize = 0;
        let ghost before = *self;
        while index < MAX_SLOTS
            invariant
                index <= MAX_SLOTS,
                self.completions@.len() == MAX_SLOTS,
                *self == (VirtioBlk { completions: self.completions, ..before }),
            decreases MAX_SLOTS - index,
        {
            self.completions[index] = None;
            index += 1;
        }
        self.completion_head = 0;
        self.completion_tail = 0;
        self.completion_count = 0;
        self.sync_completion = None;
        self.terminal_error = Some(VirtioBlkError::DeviceReset);
        self.reset_state = ResetState::Complete;
        self.diagnostics.async_enabled = false;
        proof {
            lemma_owned_bounds(self.slots@, self.slot_count as nat);
        }
        ResetProgress::Released
    }

    /// Interrupts were disabled after a reset, or disabling them failed.
    pub fn reset_msix(&mut self, result: Result<(), VirtioBlkError>) -> (answer: Result<
        (),
        VirtioBlkError,
    >)
        requires
            old(self).wf(),
            !old(self).diagnostics.async_enabled,
        ensures
            final(self).wf(),
            answer == result,
            *final(self) == (match result {
                Ok(()) => VirtioBlk {
                    diagnostics: VirtioBlkDiagnostics {
                        msix_enabled: false,
                        ..old(self).diagnostics
                    },
                    ..*old(self)
                },
                Err(error) => old(self).with_error(),
            }),
    {
        match result {
            Ok(()) => {
                self.diagnostics.msix_enabled = false;
            },
            Err(error) => {
                self.reject(error);
            },
        }
        result
    }
}

/// The device owns a request with this token.
pub open spec fn carries(slot: RequestSlot, token: u64) -> bool {
    slot.token == Some(token) && slot.state != SlotState::Free
}

/// Whatever a well-formed driver has in flight, there is room to report it.
pub proof fn law_completion_queue_never_overflows(driver: VirtioBlk)
    requires
        driver.wf(),
    ensures
        driver.finished().len() + owned(driver.slots@, driver.slot_count as nat)
            <= driver.slot_count,
{
}

} // verus!
