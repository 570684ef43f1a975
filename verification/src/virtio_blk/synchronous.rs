//! One request at a time: the driver waits until the device is done with it.
use vstd::prelude::*;

use super::device::{Submission, VirtioBlk, POLL_LIMIT};
use super::queue::{
    plan_spec, segments_error, BlockOperation, DmaSegment, RequestSlot, SlotState, VirtioBlkError,
};
use super::transfer::lemma_first_free;

verus! {

/// Where a synchronous request stands.
#[derive(Clone, Copy, Debug, PartialEq, Eq, Structural)]
pub enum SyncPhase {
    /// What the device finished earlier is taken in first.
    Clearing,
    /// The request is made visible to the device.
    Publishing,
    /// The device is asked again and again.
    Polling,
    Ended,
}

/// What has to be done next.
#[derive(Debug)]
pub enum SyncRequest {
    /// Drain the used ring; after a pause, if the device was asked before.
    Drain { pause: bool },
    /// Store the chain and the ring entries, and notify the device.
    Publish(Submission),
    Finished(Result<(), VirtioBlkError>),
}

/// What came of it.
#[derive(Clone, Copy, Debug, PartialEq, Eq)]
pub enum SyncReply {
    Drained(Result<(), VirtioBlkError>),
    Published(Result<(), VirtioBlkError>),
}

/// A synchronous request in progress.
#[derive(Debug)]
pub struct Synchronous {
    pub phase: SyncPhase,
    pub operation: BlockOperation,
    pub sector: u64,
    pub byte_len: u32,
    pub segments: Vec<DmaSegment>,
    /// The slot of the request, once it has one.
    pub slot: usize,
    /// How often the device is still asked.
    pub left: usize,
}

/// The reply is one that the phase can receive.
pub open spec fn sync_reply_fits(phase: SyncPhase, reply: SyncReply) -> bool {
    match reply {
        SyncReply::Drained(_) => phase == SyncPhase::Clearing || phase == SyncPhase::Polling,
        SyncReply::Published(_) => phase == SyncPhase::Publishing,
    }
}

/// A driver that gave up waiting for the request in `slot`.
pub open spec fn abandoned(
    before: VirtioBlk,
    after: VirtioBlk,
    slot: int,
    timed_out: bool,
) -> bool {
    &&& after.slots@ == before.slots@.update(
        slot,
        if before.slots@[slot].state == SlotState::InFlight && before.slots@[slot].synchronous {
            RequestSlot { state: SlotState::CancelPending, ..before.slots@[slot] }
        } else {
            before.slots@[slot]
        },
    )
    &&& after == (VirtioBlk {
        slots: after.slots,
        ..(if timed_out {
            before.with_error()
        } else {
            before
        })
    })
}

/// The end of a request.
pub open spec fn sync_ends(
    before: Synchronous,
    after: Synchronous,
    request: SyncRequest,
    result: Result<(), VirtioBlkError>,
) -> bool {
    &&& after == (Synchronous { phase: SyncPhase::Ended, ..before })
    &&& request == SyncRequest::Finished(result)
}

/// The outcome is taken if it has come; else the device is asked again, as long as the limit
/// lasts, and then the request is given up.
pub open spec fn sync_polls(
    before: Synchronous,
    after: Synchronous,
    device: VirtioBlk,
    left_device: VirtioBlk,
    pause: bool,
    request: SyncRequest,
) -> bool {
    let taken = VirtioBlk { sync_completion: None, ..device };
    match device.sync_completion {
        Some(outcome) => sync_ends(before, after, request, outcome) && left_device == taken,
        None => if before.left == 0 {
            &&& sync_ends(before, after, request, Err(VirtioBlkError::TimedOut))
            &&& abandoned(taken, left_device, before.slot as int, true)
        } else {
            &&& left_device == taken
            &&& after == (Synchronous {
                phase: SyncPhase::Polling,
                left: (before.left - 1) as usize,
                ..before
            })
            &&& request == (SyncRequest::Drain { pause })
        },
    }
}

/// What a reply leads to.
pub open spec fn sync_post(
    before: Synchronous,
    after: Synchronous,
    device: VirtioBlk,
    left_device: VirtioBlk,
    reply: SyncReply,
    request: SyncRequest,
) -> bool {
    match reply {
        SyncReply::Drained(Err(error)) => {
            &&& sync_ends(before, after, request, Err(error))
            &&& if before.phase == SyncPhase::Polling {
                abandoned(device, left_device, before.slot as int, false)
            } else {
                left_device == device
            }
        },
        SyncReply::Drained(Ok(_)) => if before.phase == SyncPhase::Polling {
            sync_polls(before, after, device, left_device, true, request)
        } else {
            sync_begins(before, after, device, left_device, request)
        },
        SyncReply::Published(Err(error)) => {
            &&& sync_ends(before, after, request, Err(error))
            &&& left_device == device
        },
        SyncReply::Published(Ok(_)) => sync_polls(
            Synchronous { left: POLL_LIMIT, ..before },
            after,
            device,
            left_device,
            false,
            request,
        ),
    }
}

/// The request gets a slot and its chain, or is refused.
pub open spec fn sync_begins(
    before: Synchronous,
    after: Synchronous,
    device: VirtioBlk,
    left_device: VirtioBlk,
    request: SyncRequest,
) -> bool {
    if device.diagnostics.in_flight != 0 {
        &&& sync_ends(before, after, request, Err(VirtioBlkError::Busy))
        &&& left_device == device.with_error()
    } else {
        let ready = VirtioBlk { sync_completion: None, ..device };
        match plan_spec(before.operation, before.byte_len, before.segments@.len() as int) {
            Err(error) => sync_ends(before, after, request, Err(error)) && left_device == ready,
            Ok(plan) => match segments_error(before.segments@, before.byte_len) {
                Some(error) => sync_ends(before, after, request, Err(error)) && left_device
                    == ready,
                None => exists|result: Result<Submission, VirtioBlkError>| #[trigger]
                    ready.starts(
                        left_device,
                        result,
                        None,
                        true,
                        before.operation,
                        before.sector,
                        before.byte_len,
                        before.segments@,
                        plan,
                    ) && match result {
                        Err(error) => sync_ends(before, after, request, Err(error)),
                        Ok(submission) => {
                            &&& after == (Synchronous {
                                phase: SyncPhase::Publishing,
                                slot: submission.slot,
                                ..before
                            })
                            &&& request == SyncRequest::Publish(submission)
                        },
                    },
            },
        }
    }
}

impl Synchronous {
    /// Begins a request.
    pub fn new(
        operation: BlockOperation,
        sector: u64,
        byte_len: u32,
        segments: Vec<DmaSegment>,
    ) -> (result: (Synchronous, SyncRequest))
        ensures
            result.0 == (Synchronous {
                phase: SyncPhase::Clearing,
                operation,
                sector,
                byte_len,
                segments,
                slot: 0,
                left: 0,
            }),
            result.1 == (SyncRequest::Drain { pause: false }),
    {
        (
            Synchronous {
                phase: SyncPhase::Clearing,
                operation,
                sector,
                byte_len,
                segments,
                slot: 0,
                left: 0,
            },
            SyncRequest::Drain { pause: false },
        )
    }

    fn end(&mut self, result: Result<(), VirtioBlkError>) -> (request: SyncRequest)
        ensures
            sync_ends(*old(self), *final(self), request, result),
    {
        self.phase = SyncPhase::Ended;
        SyncRequest::Finished(result)
    }

    fn poll(&mut self, device: &mut VirtioBlk, pause: bool) -> (request: SyncRequest)
        requires
            old(device).wf(),
            old(self).slot < old(device).slot_count,
        ensures
            final(device).wf(),
            final(device).slot_count == old(device).slot_count,
            sync_polls(*old(self), *final(self), *old(device), *final(device), pause, request),
    {
        if let Some(outcome) = device.take_synchronous() {
            return self.end(outcome);
        }
        if self.left == 0 {
            device.abandon_synchronous(self.slot, true);
            return self.end(Err(VirtioBlkError::TimedOut));
        }
        self.left = self.left - 1;
        self.phase = SyncPhase::Polling;
        SyncRequest::Drain { pause }
    }

    fn begin(&mut self, device: &mut VirtioBlk) -> (request: SyncRequest)
        requires
            old(device).wf(),
            !old(device).diagnostics.async_enabled,
        ensures
            final(device).wf(),
            final(device).slot_count == old(device).slot_count,
            request is Publish ==> final(self).slot < final(device).slot_count,
            sync_begins(*old(self), *final(self), *old(device), *final(device), request),
    {
        proof {
            lemma_first_free(device.slots@, device.slot_count as nat);
        }
        match device.start_synchronous(
            self.operation,
            self.sector,
            self.byte_len,
            self.segments.as_slice(),
        ) {
            Err(error) => self.end(Err(error)),
            Ok(submission) => {
                self.slot = submission.slot;
                self.phase = SyncPhase::Publishing;
                SyncRequest::Publish(submission)
            },
        }
    }

    /// Takes what came of the last request, and says what has to be done next.
    ///
    /// The used ring is drained before a request is started, and then again and again until the
    /// outcome has come. A request that the device does not finish within the limit, or behind
    /// which the ring cannot be drained, is given up; the device keeps its slot.
    pub fn step(&mut self, device: &mut VirtioBlk, reply: SyncReply) -> (request: SyncRequest)
        requires
            old(device).wf(),
            sync_reply_fits(old(self).phase, reply),
            old(self).phase == SyncPhase::Clearing ==> !old(device).diagnostics.async_enabled,
            old(self).phase != SyncPhase::Clearing ==> old(self).slot < old(device).slot_count,
        ensures
            final(device).wf(),
            final(device).slot_count == old(device).slot_count,
            final(self).phase == SyncPhase::Publishing || final(self).phase == SyncPhase::Polling
                ==> final(self).slot < final(device).slot_count,
            sync_post(*old(self), *final(self), *old(device), *final(device), reply, request),
    {
        match reply {
            SyncReply::Drained(Err(error)) => {
                if self.phase == SyncPhase::Polling {
                    device.abandon_synchronous(self.slot, false);
                }
                self.end(Err(error))
            },
            SyncReply::Drained(Ok(())) => {
                if self.phase == SyncPhase::Polling {
                    self.poll(device, true)
                } else {
                    self.begin(device)
                }
            },
            SyncReply::Published(Err(error)) => self.end(Err(error)),
            SyncReply::Published(Ok(())) => {
                self.left = POLL_LIMIT;
                self.poll(device, false)
            },
        }
    }
}

/// A request that was published asks the device at most as often as the limit says: every
/// further drain leaves one less.
pub proof fn law_polling_is_bounded(
    before: Synchronous,
    after: Synchronous,
    device: VirtioBlk,
    left_device: VirtioBlk,
    reply: SyncReply,
    request: SyncRequest,
)
    requires
        sync_post(before, after, device, left_device, reply, request),
        sync_reply_fits(before.phase, reply),
        after.phase == SyncPhase::Polling,
    ensures
        request is Drain,
        before.phase == SyncPhase::Publishing ==> after.left == POLL_LIMIT - 1,
        before.phase == SyncPhase::Polling ==> after.left == before.left - 1,
{
}

} // verus!
