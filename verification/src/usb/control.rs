//! Control transfers and the requests that enumerate a device.
use vstd::prelude::*;

use super::descriptors::{
    change_feature_spec, has_bit, hub_change_feature, hub_child_speed, HubPortStatus,
    ParsedHubDescriptor, USB_PORT_STATUS_CONNECTION, USB_PORT_STATUS_ENABLE,
    USB_PORT_STATUS_HIGH_SPEED, USB_PORT_STATUS_LOW_SPEED, USB_PORT_STATUS_RESET,
};
use super::device::HubState;
use super::error::UsbError;
use super::page::{PageWrite, PAGE_SIZE};
use super::ring::{
    append_writes, trb_control, trb_control_spec, ProducerRing, Trb, UnpublishedTrb,
    COMPLETION_SHORT_PACKET, COMPLETION_SUCCESS, RING_LINK_INDEX, TRB_TYPE_DATA_STAGE,
    TRB_TYPE_SETUP_STAGE, TRB_TYPE_STATUS_STAGE, TRB_TYPE_TRANSFER_EVENT,
};
use vstd::arithmetic::power2::pow2;

verus! {

pub const USB_REQUEST_GET_STATUS: u8 = 0;

pub const USB_REQUEST_CLEAR_FEATURE: u8 = 1;

pub const USB_REQUEST_SET_FEATURE: u8 = 3;

pub const USB_REQUEST_GET_DESCRIPTOR: u8 = 6;

pub const USB_PORT_FEATURE_RESET: u16 = 4;

pub const USB_PORT_FEATURE_POWER: u16 = 8;

/// One control request.
#[derive(Clone, Copy, Debug, PartialEq, Eq, Structural)]
pub struct ControlRequest {
    pub request_type: u8,
    pub request: u8,
    pub value: u16,
    pub index: u16,
    /// Bytes of the data stage, zero for none.
    pub length: u16,
    /// Whether the device sends the data stage.
    pub data_in: bool,
}

/// A request that reads `length` bytes from the device.
pub fn control_in(request_type: u8, request: u8, value: u16, index: u16, length: usize) -> (result:
    Result<ControlRequest, UsbError>)
    ensures
        result == (if length > PAGE_SIZE {
            Err(UsbError::ReportTooLarge)
        } else {
            Ok(
                ControlRequest {
                    request_type,
                    request,
                    value,
                    index,
                    length: length as u16,
                    data_in: true,
                },
            )
        }),
{
    if length > PAGE_SIZE {
        return Err(UsbError::ReportTooLarge);
    }
    Ok(
        ControlRequest {
            request_type,
            request,
            value,
            index,
            length: length as u16,
            data_in: true,
        },
    )
}

/// A request without a data stage.
pub open spec fn no_data_spec(request_type: u8, request: u8, value: u16, index: u16) -> ControlRequest {
    ControlRequest { request_type, request, value, index, length: 0, data_in: false }
}

/// A request without a data stage.
pub fn control_no_data(request_type: u8, request: u8, value: u16, index: u16) -> (built:
    ControlRequest)
    ensures
        built == no_data_spec(request_type, request, value, index),
{
    ControlRequest { request_type, request, value, index, length: 0, data_in: false }
}

/// The setup stage of a request.
pub open spec fn setup_trb(r: ControlRequest) -> Trb {
    let transfer_type = if r.length == 0 {
        0int
    } else if r.data_in {
        3
    } else {
        2
    };
    Trb {
        parameter: (r.request_type + 0x100 * r.request + 0x1_0000 * r.value + 0x1_0000_0000
            * r.index + 0x1_0000_0000_0000 * r.length) as u64,
        status: 8,
        control: (trb_control_spec(TRB_TYPE_SETUP_STAGE as int) + 0x40 + 0x1_0000 * transfer_type)
            as u32,
    }
}

/// The data stage of a request.
pub open spec fn data_trb(r: ControlRequest, buffer: u64) -> Trb {
    Trb {
        parameter: buffer,
        status: r.length as u32,
        control: (trb_control_spec(TRB_TYPE_DATA_STAGE as int) + 0x20 + 0x4 + if r.data_in {
            0x1_0000int
        } else {
            0
        }) as u32,
    }
}

/// The status stage of a request, which runs against the data stage.
pub open spec fn status_trb(r: ControlRequest) -> Trb {
    Trb {
        parameter: 0,
        status: 0,
        control: (trb_control_spec(TRB_TYPE_STATUS_STAGE as int) + 0x20 + if r.length == 0
            || !r.data_in {
            0x1_0000int
        } else {
            0
        }) as u32,
    }
}

/// The slot after `index` of a producer ring.
pub open spec fn ring_next(index: int) -> int {
    if index + 1 == RING_LINK_INDEX {
        0
    } else {
        index + 1
    }
}

/// The cycle bit after appending at `index`.
pub open spec fn ring_cycle(index: int, cycle: bool) -> bool {
    cycle != (index + 1 == RING_LINK_INDEX)
}

/// Where the status stage of a control transfer stands, and its cycle bit.
pub open spec fn status_place(ring: ProducerRing, r: ControlRequest) -> (int, bool) {
    let i1 = ring_next(ring.enqueue_index as int);
    let c1 = ring_cycle(ring.enqueue_index as int, ring.cycle);
    if r.length == 0 {
        (i1, c1)
    } else {
        (ring_next(i1), ring_cycle(i1, c1))
    }
}

/// The stores of one control transfer: the setup stage is held back until the
/// data and status stages are in place.
pub open spec fn control_writes(ring: ProducerRing, r: ControlRequest, buffer: u64) -> Seq<PageWrite> {
    let physical = ring.page.physical;
    let i0 = ring.enqueue_index as int;
    let c0 = ring.cycle;
    let i1 = ring_next(i0);
    let c1 = ring_cycle(i0, c0);
    let (i2, c2) = status_place(ring, r);
    let data = if r.length == 0 {
        Seq::empty()
    } else {
        append_writes(physical, i1, c1, data_trb(r, buffer).with_cycle_spec(c1))
    };
    append_writes(physical, i0, c0, setup_trb(r).with_cycle_spec(!c0)) + data + append_writes(
        physical,
        i2,
        c2,
        status_trb(r).with_cycle_spec(c2),
    ) + seq![
        PageWrite::Word {
            offset: (16 * i0 + 12) as usize,
            value: setup_trb(r).with_cycle_spec(c0).control,
        },
    ]
}

/// A control transfer in progress.
#[derive(Clone, Copy, Debug, PartialEq, Eq)]
pub struct ControlWait {
    pub slot_id: u8,
    pub length: u16,
    pub data_pointer: Option<u64>,
    pub status_pointer: u64,
    pub actual: u16,
    pub data_complete: bool,
    pub status_complete: bool,
}

/// What an event means to a control transfer.
#[derive(Clone, Copy, Debug, PartialEq, Eq)]
pub enum ControlEvent {
    /// The event is another's: keep it for later.
    Defer,
    /// The transfer goes on.
    Continue,
    /// The transfer moved this many bytes.
    Complete(usize),
    /// The transfer failed with this completion code.
    Failed(u8),
}

/// Queues the stages of a control request.
pub fn begin_control(
    ring: &mut ProducerRing,
    slot_id: u8,
    buffer: u64,
    request: ControlRequest,
) -> (wait: ControlWait)
    requires
        old(ring).wf(),
    ensures
        final(ring).wf(),
        final(ring).page.extends(old(ring).page, control_writes(*old(ring), request, buffer)),
        ({
            let (i2, c2) = status_place(*old(ring), request);
            &&& final(ring).enqueue_index == ring_next(i2)
            &&& final(ring).cycle == ring_cycle(i2, c2)
        }),
        wait == ({
            let i1 = ring_next(old(ring).enqueue_index as int);
            ControlWait {
                slot_id,
                length: request.length,
                data_pointer: if request.length == 0 {
                    None
                } else {
                    Some((old(ring).page.physical + 16 * i1) as u64)
                },
                status_pointer: (old(ring).page.physical + 16 * if request.length == 0 {
                    i1
                } else {
                    ring_next(i1)
                }) as u64,
                actual: request.length,
                data_complete: request.length == 0,
                status_complete: false,
            }
        }),
{
    let ghost r0 = *ring;
    let transfer_type: u32 = if request.length == 0 {
        0
    } else if request.data_in {
        3
    } else {
        2
    };
    let setup = Trb::new(
        request.request_type as u64 + request.request as u64 * 0x100 + request.value as u64
            * 0x1_0000 + request.index as u64 * 0x1_0000_0000 + request.length as u64
            * 0x1_0000_0000_0000,
        8,
        trb_control(TRB_TYPE_SETUP_STAGE) + 0x40 + transfer_type * 0x1_0000,
    );
    let unpublished: UnpublishedTrb = ring.enqueue_unpublished(setup);
    let ghost r1 = *ring;
    let data_pointer: Option<u64> = if request.length != 0 {
        let direction: u32 = if request.data_in {
            0x1_0000
        } else {
            0
        };
        Some(
            ring.enqueue(
                Trb::new(
                    buffer,
                    request.length as u32,
                    trb_control(TRB_TYPE_DATA_STAGE) + 0x20 + 0x4 + direction,
                ),
            ),
        )
    } else {
        None
    };
    let ghost r2 = *ring;
    let status_direction: u32 = if request.length == 0 || !request.data_in {
        0x1_0000
    } else {
        0
    };
    let status_pointer: u64 = ring.enqueue(
        Trb::new(0, 0, trb_control(TRB_TYPE_STATUS_STAGE) + 0x20 + status_direction),
    );
    let ghost r3 = *ring;
    ring.publish(unpublished);
    proof {
        let physical = r0.page.physical;
        let i0 = r0.enqueue_index as int;
        let c0 = r0.cycle;
        let i1 = r1.enqueue_index as int;
        let w1 = append_writes(physical, i0, c0, setup.with_cycle_spec(!c0));
        let w2 = if request.length == 0 {
            Seq::empty()
        } else {
            append_writes(physical, i1, r1.cycle, data_trb(request, buffer).with_cycle_spec(r1.cycle))
        };
        let w3 = append_writes(
            physical,
            r2.enqueue_index as int,
            r2.cycle,
            status_trb(request).with_cycle_spec(r2.cycle),
        );
        let w4 = seq![
            PageWrite::Word { offset: (16 * i0 + 12) as usize, value: setup.with_cycle_spec(c0).control },
        ];
        if request.length == 0 {
            super::page::lemma_apply_concat(r0.page.words@, w1, w2);
            assert(w1 + w2 =~= w1);
        } else {
            super::page::lemma_extends_trans(r0.page, r1.page, r2.page, w1, w2);
        }
        super::page::lemma_extends_trans(r0.page, r2.page, r3.page, w1 + w2, w3);
        super::page::lemma_extends_trans(r0.page, r3.page, ring.page, w1 + w2 + w3, w4);
    }
    ControlWait {
        slot_id,
        length: request.length,
        data_pointer,
        status_pointer,
        actual: request.length,
        data_complete: data_pointer.is_none(),
        status_complete: false,
    }
}

/// `pointer` without its low four bits.
pub open spec fn block_of(pointer: int) -> int {
    pointer - pointer % 16
}

impl ControlWait {
    pub open spec fn wf(&self) -> bool {
        self.actual <= self.length
    }

    /// The event belongs to the control endpoint of the slot.
    pub open spec fn owns(&self, event: Trb) -> bool {
        &&& event.type_spec() == TRB_TYPE_TRANSFER_EVENT
        &&& event.slot_spec() == self.slot_id
        &&& event.endpoint_spec() == 1
    }

    /// The event reports success or a short packet.
    pub open spec fn moved(event: Trb) -> bool {
        event.completion_spec() == COMPLETION_SUCCESS || event.completion_spec()
            == COMPLETION_SHORT_PACKET
    }

    /// The event reports the data stage.
    pub open spec fn reports_data(&self, event: Trb) -> bool {
        self.data_pointer matches Some(pointer) && block_of(pointer as int) == event.pointer_spec()
    }

    /// The state after an event of this transfer.
    pub open spec fn after(&self, event: Trb) -> ControlWait {
        ControlWait {
            actual: if self.reports_data(event) {
                (if event.residual_spec() > self.length {
                    0
                } else {
                    self.length - event.residual_spec()
                }) as u16
            } else {
                self.actual
            },
            data_complete: self.data_complete || self.reports_data(event),
            status_complete: self.status_complete || block_of(self.status_pointer as int)
                == event.pointer_spec(),
            ..*self
        }
    }

    /// Accounts for one event.
    pub fn on_event(&mut self, event: Trb) -> (outcome: ControlEvent)
        requires
            old(self).wf(),
        ensures
            final(self).wf(),
            if !old(self).owns(event) {
                outcome == ControlEvent::Defer && *final(self) == *old(self)
            } else if !Self::moved(event) {
                outcome == ControlEvent::Failed(event.completion_spec() as u8) && *final(self)
                    == *old(self)
            } else {
                &&& *final(self) == old(self).after(event)
                &&& outcome == (if final(self).data_complete && final(self).status_complete {
                    ControlEvent::Complete(final(self).actual as usize)
                } else {
                    ControlEvent::Continue
                })
            },
    {
        if event.trb_type() != TRB_TYPE_TRANSFER_EVENT || event.slot_id() != self.slot_id
            || event.endpoint_id() != 1 {
            return ControlEvent::Defer;
        }
        let completion: u8 = event.completion_code();
        if completion != COMPLETION_SUCCESS && completion != COMPLETION_SHORT_PACKET {
            return ControlEvent::Failed(completion);
        }
        let pointer: u64 = event.pointer();
        if let Some(data) = self.data_pointer {
            if data - data % 16 == pointer {
                let residual: u32 = event.residual();
                self.actual = if residual > self.length as u32 {
                    0
                } else {
                    self.length - residual as u16
                };
                self.data_complete = true;
            }
        }
        if self.status_pointer - self.status_pointer % 16 == pointer {
            self.status_complete = true;
        }
        if self.data_complete && self.status_complete {
            return ControlEvent::Complete(self.actual as usize);
        }
        ControlEvent::Continue
    }
}

/// A control transfer never reports more bytes than were asked for.
pub proof fn law_control_transfer_is_bounded(wait: ControlWait, event: Trb)
    requires
        wait.wf(),
    ensures
        wait.after(event).actual <= wait.length,
{
}

/// The request that reads a hub descriptor of `length` bytes.
pub open spec fn reads_hub(superspeed: bool, length: int) -> ControlRequest {
    ControlRequest {
        request_type: 0xa0,
        request: USB_REQUEST_GET_DESCRIPTOR,
        value: if superspeed {
            0x2a00
        } else {
            0x2900
        },
        index: 0,
        length: length as u16,
        data_in: true,
    }
}

/// The request that reads a hub descriptor of `length` bytes.
pub fn hub_descriptor_request(superspeed: bool, length: usize) -> (request: ControlRequest)
    requires
        length <= 255,
    ensures
        request == reads_hub(superspeed, length as int),
{
    ControlRequest {
        request_type: 0xa0,
        request: USB_REQUEST_GET_DESCRIPTOR,
        value: if superspeed {
            0x2a00
        } else {
            0x2900
        },
        index: 0,
        length: length as u16,
        data_in: true,
    }
}

/// The length of the shortest hub descriptor, which is read first.
pub fn hub_descriptor_minimum(superspeed: bool) -> (length: usize)
    ensures
        length == super::descriptors::hub_minimum(superspeed),
{
    if superspeed {
        12
    } else {
        7
    }
}

/// The length to read again with when a hub descriptor is longer than was read.
pub fn hub_descriptor_retry(bytes: &[u8]) -> (length: Option<usize>)
    ensures
        length == (if bytes@.len() > 0 && bytes@[0] > bytes@.len() {
            Some(bytes@[0] as usize)
        } else {
            None
        }),
{
    if bytes.len() == 0 {
        return None;
    }
    let declared: usize = bytes[0] as usize;
    if declared > bytes.len() {
        Some(declared)
    } else {
        None
    }
}

/// The state of a hub that has just been powered.
pub open spec fn powered_hub(
    descriptor: ParsedHubDescriptor,
    superspeed: bool,
    protocol: u8,
) -> HubState {
    HubState {
        ports: descriptor.ports,
        superspeed,
        protocol,
        characteristics: descriptor.characteristics,
        next_port: 1,
    }
}

/// The state of a hub that has just been powered.
pub fn hub_state(descriptor: ParsedHubDescriptor, superspeed: bool, protocol: u8) -> (hub: HubState)
    ensures
        hub == powered_hub(descriptor, superspeed, protocol),
{
    HubState {
        ports: descriptor.ports,
        superspeed,
        protocol,
        characteristics: descriptor.characteristics,
        next_port: 1,
    }
}

/// The request that sets a feature of a hub port.
pub fn set_port_feature(feature: u16, port: u8) -> (request: ControlRequest)
    ensures
        request == no_data_spec(0x23, USB_REQUEST_SET_FEATURE, feature, port as u16),
{
    control_no_data(0x23, USB_REQUEST_SET_FEATURE, feature, port as u16)
}

/// The request that clears a feature of a hub port.
pub fn clear_port_feature(feature: u16, port: u8) -> (request: ControlRequest)
    ensures
        request == no_data_spec(0x23, USB_REQUEST_CLEAR_FEATURE, feature, port as u16),
{
    control_no_data(0x23, USB_REQUEST_CLEAR_FEATURE, feature, port as u16)
}

/// The request that reads the status of a hub port.
pub open spec fn status_request(port: u8) -> ControlRequest {
    ControlRequest {
        request_type: 0xa3,
        request: USB_REQUEST_GET_STATUS,
        value: 0,
        index: port as u16,
        length: 4,
        data_in: true,
    }
}

/// The request that reads the status of a hub port.
pub fn get_port_status(port: u8) -> (request: ControlRequest)
    ensures
        request == status_request(port),
{
    ControlRequest {
        request_type: 0xa3,
        request: USB_REQUEST_GET_STATUS,
        value: 0,
        index: port as u16,
        length: 4,
        data_in: true,
    }
}

/// The features that acknowledge the change bits below `limit`, in bit order.
pub open spec fn acknowledging_features(superspeed: bool, change: u16, limit: nat) -> Seq<u16>
    decreases limit,
{
    if limit == 0 {
        Seq::empty()
    } else {
        let before = acknowledging_features(superspeed, change, (limit - 1) as nat);
        if has_bit(change as int, pow2((limit - 1) as nat) as int) {
            match change_feature_spec(superspeed, limit - 1) {
                Some(feature) => before.push(feature),
                None => before,
            }
        } else {
            before
        }
    }
}

/// The features to clear after a port status was read.
pub fn pending_features(status: HubPortStatus, superspeed: bool) -> (features: Vec<u16>)
    ensures
        features@ == acknowledging_features(superspeed, status.change, 16),
{
    let mut features: Vec<u16> = Vec::new();
    let mut bit: u16 = 0;
    while bit < 16
        invariant
            bit <= 16,
            features@ == acknowledging_features(superspeed, status.change, bit as nat),
        decreases 16 - bit,
    {
        if status.changed(bit) {
            if let Some(feature) = hub_change_feature(superspeed, bit) {
                features.push(feature);
            }
        }
        bit += 1;
    }
    features
}

/// What a port status says of a hub port reset; `Ok(None)` while it is running.
pub open spec fn reset_progress(status: HubPortStatus, parent_speed: u8) -> Result<
    Option<u8>,
    UsbError,
> {
    if !has_bit(status.status as int, USB_PORT_STATUS_CONNECTION as int) {
        Err(UsbError::PortDisconnected)
    } else if has_bit(status.status as int, USB_PORT_STATUS_RESET as int) || !has_bit(
        status.status as int,
        USB_PORT_STATUS_ENABLE as int,
    ) {
        Ok(None)
    } else {
        Ok(
            Some(
                if parent_speed >= 4 {
                    parent_speed
                } else if has_bit(status.status as int, USB_PORT_STATUS_HIGH_SPEED as int) {
                    3u8
                } else if has_bit(status.status as int, USB_PORT_STATUS_LOW_SPEED as int) {
                    2u8
                } else {
                    1u8
                },
            ),
        )
    }
}

/// Judges a port status during a hub port reset.
///
/// `Ok(None)` means that the reset is still running.
pub fn hub_reset_progress(status: HubPortStatus, parent_speed: u8) -> (result: Result<
    Option<u8>,
    UsbError,
>)
    ensures
        result == reset_progress(status, parent_speed),
{
    if !status.connected() {
        return Err(UsbError::PortDisconnected);
    }
    if status.reset_complete() {
        return Ok(Some(hub_child_speed(status, parent_speed)));
    }
    Ok(None)
}

} // verus!
