//! Enumeration of an addressed device, one controller request at a time.
//!
//! [`Population`] decides what to ask of the device and the controller; its
//! caller performs each request and hands the reply back.
use vstd::prelude::*;

use super::contexts::{
    build_configure_endpoint_context, configurable, configure_word, ep0_update_word,
    hub_update_word, update_ep0_context, update_hub_slot_context, valid_context_size,
    with_endpoints,
};
use super::control::{control_in, control_no_data, no_data_spec, ControlRequest};
use super::descriptors::{
    configuration_spec, descriptor_ep0_packet_size, endpoint_id, endpoint_id_spec,
    endpoint_interval, ep0_packet_spec, initial_ep0_packet_size, initial_packet_spec,
    parse_configuration_descriptor, DescriptorError, ParsedHidInterface,
    MAX_CONFIGURATION_DESCRIPTOR,
};
use super::device::{
    interface_kind, interface_kind_spec, HidInterfaceId, HidInterfaceInfo, HidInterfaceState,
    HubState, UsbDevice,
};
use super::error::UsbError;
use super::page::{DmaPage, PAGE_SIZE, PAGE_WORDS};
use super::ring::{link_spec, trb_writes, ProducerRing, RING_LINK_INDEX};
use crate::bytes::{le16_at, read_u16};
use vstd::arithmetic::power2::pow2;

verus! {

/// Most HID interfaces of all devices together.
pub const MAX_HID_INTERFACES: usize = 32;

/// Largest input report in bytes.
pub const MAX_REPORT_SIZE: usize = 1024;

/// What the enumeration waits for.
#[derive(Clone, Copy, Debug, PartialEq, Eq, Structural)]
pub enum Phase {
    /// The first eight bytes of the device descriptor.
    Header,
    /// The controller's evaluation of the control packet size.
    PacketEvaluated,
    /// The device descriptor.
    Device,
    /// The first nine bytes of the configuration descriptor.
    ConfigurationHeader,
    /// The whole configuration.
    Configuration,
    /// The device's acknowledgement of its configuration.
    Configured,
    /// The description of a hub.
    HubDescribed,
    /// The controller's evaluation of the hub context.
    HubEvaluated,
    /// A HID report descriptor.
    Report,
    /// The acknowledgement of the report protocol.
    Protocol,
    /// A page for an endpoint ring.
    Ring,
    /// A page for an endpoint buffer.
    Buffer,
    /// The controller's configuration of the endpoints.
    Endpoints,
    /// Nothing: the enumeration has ended.
    Ended,
}

/// What the caller has to do next.
#[derive(Debug)]
pub enum PopulateRequest {
    Control(ControlRequest),
    /// Evaluate the input context of the device.
    EvaluateContext,
    /// Read the hub descriptor and power the ports.
    DescribeHub { superspeed: bool, protocol: u8 },
    AcquirePage,
    /// Configure the endpoints from the input context of the device.
    ConfigureEndpoints,
    Finished,
    /// Enumeration failed; a page that was not attached to the device comes back.
    Failed { error: UsbError, returned: Option<DmaPage> },
}

/// How a request turned out.
#[derive(Debug)]
pub enum PopulateReply {
    Bytes(Vec<u8>),
    Done,
    Hub(HubState),
    Page(DmaPage),
    Failed(UsbError),
}

/// Vendor, product, class and protocol of a device.
#[derive(Clone, Copy, Debug, PartialEq, Eq, Structural)]
pub struct DeviceIdentity {
    pub vendor_id: u16,
    pub product_id: u16,
    pub class: u8,
    pub protocol: u8,
}

/// The enumeration of one device.
#[derive(Debug)]
pub struct Population {
    pub phase: Phase,
    pub context_size: usize,
    /// HID interfaces of the devices that are already attached.
    pub installed_interfaces: usize,
    pub identity: DeviceIdentity,
    pub hub_protocol: Option<u8>,
    pub hub: Option<HubState>,
    pub interfaces: Vec<ParsedHidInterface>,
    pub device_id: u32,
    /// Index of the interface that is being set up.
    pub next: usize,
    pub report_descriptor: Vec<u8>,
    pub ring: Option<ProducerRing>,
}

/// The device can take part in enumeration.
pub open spec fn enumerable(device: UsbDevice) -> bool {
    &&& device.wf()
    &&& forall|i: int|
        0 <= i < device.interfaces@.len() ==> (#[trigger] device.interfaces@[i]).max_esit_payload
            <= 0xffff
}

/// Only the input context of the device changed.
pub open spec fn same_but_input(after: UsbDevice, before: UsbDevice) -> bool {
    after == (UsbDevice { input_context: after.input_context, ..before })
}

/// The control packet size that the descriptor header gives.
pub open spec fn header_spec(bytes: Seq<u8>, speed: u8) -> Result<u16, UsbError> {
    if bytes.len() < 8 || bytes[1] != 1 {
        Err(UsbError::Descriptor(DescriptorError::InvalidType))
    } else {
        ep0_packet_spec(speed as int, bytes[7] as int)
    }
}

/// What the device descriptor says of the device.
pub open spec fn identity_spec(bytes: Seq<u8>) -> Result<DeviceIdentity, UsbError> {
    if bytes.len() < 18 || bytes[0] < 18 || bytes[1] != 1 {
        Err(UsbError::Descriptor(DescriptorError::InvalidType))
    } else {
        Ok(
            DeviceIdentity {
                vendor_id: le16_at(bytes, 8) as u16,
                product_id: le16_at(bytes, 10) as u16,
                class: bytes[4],
                protocol: bytes[6],
            },
        )
    }
}

/// The length of the whole configuration.
pub open spec fn total_length_spec(bytes: Seq<u8>) -> Result<usize, UsbError> {
    if bytes.len() < 9 || bytes[1] != 2 {
        Err(UsbError::Descriptor(DescriptorError::InvalidType))
    } else if le16_at(bytes, 2) < 9 || le16_at(bytes, 2) > MAX_CONFIGURATION_DESCRIPTOR {
        Err(UsbError::Descriptor(DescriptorError::TooLarge))
    } else {
        Ok(le16_at(bytes, 2) as usize)
    }
}

/// The hub protocol: a hub-class device states it in its device descriptor.
pub open spec fn hub_protocol_spec(identity: DeviceIdentity, parsed: Option<u8>) -> Option<u8> {
    if identity.class == 9 {
        Some(identity.protocol)
    } else {
        parsed
    }
}

/// A request that reads from the device.
pub open spec fn reads(request_type: u8, value: u16, index: u16, length: int) -> ControlRequest {
    ControlRequest {
        request_type,
        request: 6,
        value,
        index,
        length: length as u16,
        data_in: true,
    }
}

/// The interface follows the HID boot protocol.
pub open spec fn is_boot(hid: ParsedHidInterface) -> bool {
    hid.subclass == 1 && (hid.protocol == 1 || hid.protocol == 2)
}

/// The interface has a report size that the driver can receive.
pub open spec fn receivable(hid: ParsedHidInterface) -> bool {
    0 < hid.max_esit_payload <= MAX_REPORT_SIZE
}

/// The request is the failure `error` and nothing comes back.
pub open spec fn failed_with(request: PopulateRequest, error: UsbError) -> bool {
    request == (PopulateRequest::Failed { error, returned: None })
}

/// Enumeration stopped with `error` and left the device as it was.
pub open spec fn stopped(
    before: Population,
    after: Population,
    old_device: UsbDevice,
    device: UsbDevice,
    request: PopulateRequest,
    error: UsbError,
) -> bool {
    &&& failed_with(request, error)
    &&& after == (Population { phase: Phase::Ended, ..before })
    &&& device == old_device
}

/// The descriptor of the interface that is being set up is asked for, or the
/// endpoints are configured once there is none left.
pub open spec fn continues_with_interface(
    after: Population,
    old_device: UsbDevice,
    device: UsbDevice,
    request: PopulateRequest,
) -> bool {
    if after.next < after.interfaces@.len() {
        let hid = after.interfaces@[after.next as int];
        &&& device == old_device
        &&& if hid.report_descriptor_length > PAGE_SIZE {
            after.phase == Phase::Ended && failed_with(request, UsbError::ReportTooLarge)
        } else {
            &&& after.phase == Phase::Report
            &&& request == PopulateRequest::Control(
                reads(
                    0x81,
                    0x2200,
                    hid.interface_number as u16,
                    hid.report_descriptor_length as int,
                ),
            )
        }
    } else if old_device.interfaces@.len() == 0 {
        after.phase == Phase::Ended && request == PopulateRequest::Finished && device == old_device
    } else {
        &&& same_but_input(device, old_device)
        &&& if forall|i: int|
            0 <= i < old_device.interfaces@.len() ==> configurable(
                #[trigger] old_device.interfaces@[i],
            ) {
            &&& after.phase == Phase::Endpoints
            &&& request == PopulateRequest::ConfigureEndpoints
            &&& device.input_context.words@ == with_endpoints(
                Seq::new(
                    PAGE_WORDS as nat,
                    |i: int|
                        configure_word(
                            after.context_size as int,
                            old_device.output_context.words@,
                            old_device.interfaces@,
                            i,
                        ),
                ),
                after.context_size as int,
                old_device.interfaces@,
                old_device.interfaces@.len(),
            )
        } else {
            after.phase == Phase::Ended && failed_with(request, UsbError::InvalidEndpoint)
        }
    }
}

/// After the header: the packet size is checked and, where it differs, evaluated.
pub open spec fn header_post(
    before: Population,
    after: Population,
    old_device: UsbDevice,
    device: UsbDevice,
    bytes: Seq<u8>,
    request: PopulateRequest,
) -> bool {
    match header_spec(bytes, old_device.speed) {
        Err(error) => stopped(before, after, old_device, device, request, error),
        Ok(packet) => if packet == initial_packet_spec(old_device.speed as int) {
            &&& after == (Population { phase: Phase::Device, ..before })
            &&& device == old_device
            &&& request == PopulateRequest::Control(reads(0x80, 0x0100, 0, 18))
        } else {
            &&& after == (Population { phase: Phase::PacketEvaluated, ..before })
            &&& same_but_input(device, old_device)
            &&& device.input_context.words@ == Seq::new(
                PAGE_WORDS as nat,
                |i: int|
                    ep0_update_word(
                        before.context_size as int,
                        old_device.output_context.words@,
                        packet,
                        i,
                    ),
            )
            &&& request == PopulateRequest::EvaluateContext
        },
    }
}

/// After the device descriptor: identity is kept and the configuration is asked for.
pub open spec fn device_post(
    before: Population,
    after: Population,
    old_device: UsbDevice,
    device: UsbDevice,
    bytes: Seq<u8>,
    request: PopulateRequest,
) -> bool {
    match identity_spec(bytes) {
        Err(error) => stopped(before, after, old_device, device, request, error),
        Ok(identity) => {
            &&& after == (Population { phase: Phase::ConfigurationHeader, identity, ..before })
            &&& device == old_device
            &&& request == PopulateRequest::Control(reads(0x80, 0x0200, 0, 9))
        },
    }
}

/// After the configuration header: the whole configuration is asked for.
pub open spec fn configuration_header_post(
    before: Population,
    after: Population,
    old_device: UsbDevice,
    device: UsbDevice,
    bytes: Seq<u8>,
    request: PopulateRequest,
) -> bool {
    match total_length_spec(bytes) {
        Err(error) => stopped(before, after, old_device, device, request, error),
        Ok(total) => {
            &&& after == (Population { phase: Phase::Configuration, ..before })
            &&& device == old_device
            &&& request == PopulateRequest::Control(reads(0x80, 0x0200, 0, total as int))
        },
    }
}

/// After the configuration: it is parsed, bounded and selected.
pub open spec fn configuration_post(
    before: Population,
    after: Population,
    old_device: UsbDevice,
    device: UsbDevice,
    bytes: Seq<u8>,
    request: PopulateRequest,
) -> bool {
    match configuration_spec(bytes) {
        Err(error) => stopped(
            before,
            after,
            old_device,
            device,
            request,
            UsbError::Descriptor(error),
        ),
        Ok((value, hub_protocol, interfaces)) => if interfaces.len() + before.installed_interfaces
            > MAX_HID_INTERFACES {
            stopped(before, after, old_device, device, request, UsbError::TooManyInterfaces)
        } else {
            &&& after.interfaces@ == interfaces
            &&& after == (Population {
                phase: Phase::Configured,
                hub_protocol: hub_protocol_spec(before.identity, hub_protocol),
                interfaces: after.interfaces,
                ..before
            })
            &&& device == old_device
            &&& request == PopulateRequest::Control(no_data_spec(0x00, 9, value as u16, 0))
        },
    }
}

/// The interfaces are set up under a fresh device number.
pub open spec fn interfaces_begin(
    before: Population,
    after: Population,
    old_device: UsbDevice,
    device: UsbDevice,
    old_id: u32,
    id: u32,
    request: PopulateRequest,
) -> bool {
    &&& id == (if old_id == u32::MAX {
        0
    } else {
        old_id + 1
    })
    &&& after == (Population { phase: after.phase, device_id: old_id, next: 0, ..before })
    &&& continues_with_interface(after, old_device, device, request)
}

/// After selection: a hub is described, anything else goes on to its interfaces.
pub open spec fn configured_post(
    before: Population,
    after: Population,
    old_device: UsbDevice,
    device: UsbDevice,
    old_id: u32,
    id: u32,
    request: PopulateRequest,
) -> bool {
    match before.hub_protocol {
        Some(protocol) => {
            &&& after == (Population { phase: Phase::HubDescribed, ..before })
            &&& device == old_device
            &&& id == old_id
            &&& request == (PopulateRequest::DescribeHub {
                superspeed: old_device.speed >= 4,
                protocol,
            })
        },
        None => interfaces_begin(before, after, old_device, device, old_id, id, request),
    }
}

/// After the hub was described: its slot context is evaluated.
pub open spec fn hub_post(
    before: Population,
    after: Population,
    old_device: UsbDevice,
    device: UsbDevice,
    hub: HubState,
    request: PopulateRequest,
) -> bool {
    &&& after == (Population { phase: Phase::HubEvaluated, hub: Some(hub), ..before })
    &&& same_but_input(device, old_device)
    &&& device.input_context.words@ == Seq::new(
        PAGE_WORDS as nat,
        |i: int|
            hub_update_word(
                before.context_size as int,
                old_device.output_context.words@,
                old_device.speed,
                hub,
                i,
            ),
    )
    &&& request == PopulateRequest::EvaluateContext
}

/// After a report descriptor: boot interfaces are switched to the report protocol.
pub open spec fn report_post(
    before: Population,
    after: Population,
    old_device: UsbDevice,
    device: UsbDevice,
    bytes: Seq<u8>,
    request: PopulateRequest,
) -> bool {
    let hid = before.interfaces@[before.next as int];
    &&& device == old_device
    &&& if bytes.len() == 0 {
        stopped(
            before,
            after,
            old_device,
            device,
            request,
            UsbError::Descriptor(DescriptorError::MissingHidReportDescriptor),
        )
    } else {
        &&& after.report_descriptor@ == bytes
        &&& after == (Population {
            phase: after.phase,
            report_descriptor: after.report_descriptor,
            ..before
        })
        &&& if is_boot(hid) {
            &&& after.phase == Phase::Protocol
            &&& request == PopulateRequest::Control(
                no_data_spec(0x21, 0x0b, 1, hid.interface_number as u16),
            )
        } else {
            endpoint_post(hid, after.phase, request)
        }
    }
}

/// Before pages are taken, the endpoint and its report size are checked.
pub open spec fn endpoint_post(hid: ParsedHidInterface, phase: Phase, request: PopulateRequest) -> bool {
    match endpoint_id_spec(hid.endpoint_address as int) {
        Err(error) => phase == Phase::Ended && failed_with(request, error),
        Ok(_) => if !receivable(hid) {
            phase == Phase::Ended && failed_with(request, UsbError::ReportTooLarge)
        } else {
            phase == Phase::Ring && request == PopulateRequest::AcquirePage
        },
    }
}

/// The interface `state` was set up from `hid` with the given pages.
pub open spec fn attached(
    state: HidInterfaceState,
    hid: ParsedHidInterface,
    population: Population,
    device: UsbDevice,
    buffer: DmaPage,
) -> bool {
    &&& state.info == (HidInterfaceInfo {
        id: HidInterfaceId { device: population.device_id, interface: hid.interface_number },
        slot_id: device.slot_id,
        root_port: device.path.root_port,
        vendor_id: population.identity.vendor_id,
        product_id: population.identity.product_id,
        interface_subclass: hid.subclass,
        interface_protocol: hid.protocol,
        endpoint_address: hid.endpoint_address,
        kind: interface_kind_spec(hid.subclass as int, hid.protocol as int),
    })
    &&& state.report_descriptor@ == population.report_descriptor@
    &&& endpoint_id_spec(hid.endpoint_address as int) == Ok::<u8, UsbError>(state.endpoint_id)
    &&& device.speed >= 3 ==> state.interval == (if hid.interval == 0 {
        0
    } else if hid.interval > 16 {
        15
    } else {
        hid.interval - 1
    })
    &&& device.speed < 3 ==> pow2(state.interval as nat) <= 8 * (if hid.interval == 0 {
        1
    } else {
        hid.interval as int
    }) < pow2((state.interval + 1) as nat)
    &&& state.max_packet_size == hid.max_packet_size
    &&& state.max_burst == hid.max_burst
    &&& state.max_esit_payload == hid.max_esit_payload
    &&& population.ring == Some(state.ring)
    &&& state.buffer == buffer
    &&& state.buffer_len == hid.max_esit_payload
    &&& state.queued_trb == 0
    &&& state.transfer_error is None
    &&& state.active
}

/// After the buffer page: the interface is attached and the next one begins.
pub open spec fn buffer_post(
    before: Population,
    after: Population,
    old_device: UsbDevice,
    device: UsbDevice,
    buffer: DmaPage,
    request: PopulateRequest,
) -> bool {
    exists|grown: UsbDevice|
        {
            &&& #[trigger] grew(old_device, grown)
            &&& attached(
                grown.interfaces@.last(),
                before.interfaces@[before.next as int],
                before,
                old_device,
                buffer,
            )
            &&& after == (Population {
                phase: after.phase,
                next: (before.next + 1) as usize,
                report_descriptor: after.report_descriptor,
                ring: None,
                ..before
            })
            &&& after.report_descriptor@.len() == 0
            &&& continues_with_interface(after, grown, device, request)
        }
}

/// `grown` is `device` with one more interface.
pub open spec fn grew(device: UsbDevice, grown: UsbDevice) -> bool {
    &&& grown == (UsbDevice { interfaces: grown.interfaces, ..device })
    &&& grown.interfaces@ == device.interfaces@.push(grown.interfaces@.last())
    &&& grown.interfaces@.len() == device.interfaces@.len() + 1
}

/// The reply is one that the phase can receive.
pub open spec fn reply_fits(phase: Phase, reply: PopulateReply) -> bool {
    match reply {
        PopulateReply::Bytes(_) => phase == Phase::Header || phase == Phase::Device || phase
            == Phase::ConfigurationHeader || phase == Phase::Configuration || phase
            == Phase::Report,
        PopulateReply::Done => phase == Phase::PacketEvaluated || phase == Phase::Configured
            || phase == Phase::HubEvaluated || phase == Phase::Protocol || phase
            == Phase::Endpoints,
        PopulateReply::Hub(_) => phase == Phase::HubDescribed,
        PopulateReply::Page(page) => (phase == Phase::Ring || phase == Phase::Buffer)
            && page.wf(),
        PopulateReply::Failed(_) => phase != Phase::Ended,
    }
}

/// What a reply leads to while a device is enumerated.
pub open spec fn populate_post(
    before: Population,
    after: Population,
    old_device: UsbDevice,
    device: UsbDevice,
    old_id: u32,
    next_id: u32,
    reply: PopulateReply,
    request: PopulateRequest,
) -> bool {
    match reply {
        PopulateReply::Failed(error) => {
            &&& device == old_device
            &&& next_id == old_id
            &&& after.phase == Phase::Ended
            &&& request == (PopulateRequest::Failed {
                error,
                returned: if before.phase == Phase::Buffer {
                    Some(before.ring->Some_0.page)
                } else {
                    None
                },
            })
        },
        PopulateReply::Bytes(bytes) => {
            &&& next_id == old_id
            &&& before.phase == Phase::Header ==> header_post(
                before,
                after,
                old_device,
                device,
                bytes@,
                request,
            )
            &&& before.phase == Phase::Device ==> device_post(
                before,
                after,
                old_device,
                device,
                bytes@,
                request,
            )
            &&& before.phase == Phase::ConfigurationHeader ==> configuration_header_post(
                before,
                after,
                old_device,
                device,
                bytes@,
                request,
            )
            &&& before.phase == Phase::Configuration ==> configuration_post(
                before,
                after,
                old_device,
                device,
                bytes@,
                request,
            )
            &&& before.phase == Phase::Report ==> report_post(
                before,
                after,
                old_device,
                device,
                bytes@,
                request,
            )
        },
        PopulateReply::Done => match before.phase {
            Phase::PacketEvaluated => {
                &&& next_id == old_id
                &&& device == old_device
                &&& after == (Population { phase: Phase::Device, ..before })
                &&& request == PopulateRequest::Control(reads(0x80, 0x0100, 0, 18))
            },
            Phase::Configured => configured_post(
                before,
                after,
                old_device,
                device,
                old_id,
                next_id,
                request,
            ),
            Phase::HubEvaluated => interfaces_begin(
                before,
                after,
                UsbDevice { hub: before.hub, ..old_device },
                device,
                old_id,
                next_id,
                request,
            ),
            Phase::Protocol => {
                &&& next_id == old_id
                &&& device == old_device
                &&& after == (Population { phase: after.phase, ..before })
                &&& endpoint_post(
                    before.interfaces@[before.next as int],
                    after.phase,
                    request,
                )
            },
            _ => {
                &&& next_id == old_id
                &&& device == old_device
                &&& after == (Population { phase: Phase::Ended, ..before })
                &&& request == PopulateRequest::Finished
            },
        },
        PopulateReply::Hub(hub) => {
            &&& next_id == old_id
            &&& hub_post(
                before,
                after,
                old_device,
                device,
                hub,
                request,
            )
        },
        PopulateReply::Page(page) => {
            &&& next_id == old_id
            &&& before.phase == Phase::Ring ==> {
                &&& device == old_device
                &&& after.phase == Phase::Buffer
                &&& after == (Population {
                    phase: Phase::Buffer,
                    ring: after.ring,
                    ..before
                })
                &&& after.ring matches Some(ring) && ring.enqueue_index == 0
                    && ring.cycle && ring.page.extends(
                    page,
                    trb_writes(RING_LINK_INDEX as int, link_spec(page.physical, true)),
                )
                &&& request == PopulateRequest::AcquirePage
            }
            &&& before.phase == Phase::Buffer ==> buffer_post(
                before,
                after,
                old_device,
                device,
                page,
                request,
            )
        },
    }
}

impl Population {
    /// The stored state is what the phase relies on.
    pub open spec fn wf(&self) -> bool {
        &&& valid_context_size(self.context_size as int)
        &&& match self.phase {
            Phase::Report => self.next < self.interfaces@.len(),
            Phase::Protocol => self.next < self.interfaces@.len() && is_boot(
                self.interfaces@[self.next as int],
            ),
            Phase::Ring => {
                &&& self.next < self.interfaces@.len()
                &&& receivable(self.interfaces@[self.next as int])
                &&& endpoint_id_spec(
                    self.interfaces@[self.next as int].endpoint_address as int,
                ) is Ok
            },
            Phase::Buffer => {
                &&& self.next < self.interfaces@.len()
                &&& receivable(self.interfaces@[self.next as int])
                &&& endpoint_id_spec(
                    self.interfaces@[self.next as int].endpoint_address as int,
                ) is Ok
                &&& self.ring matches Some(ring) && ring.wf()
            },
            _ => true,
        }
    }

    /// Begins the enumeration of an addressed device.
    pub fn new(context_size: usize, installed_interfaces: usize) -> (result: (
        Population,
        PopulateRequest,
    ))
        requires
            valid_context_size(context_size as int),
        ensures
            result.0.wf(),
            result.0.phase == Phase::Header,
            result.0.context_size == context_size,
            result.0.installed_interfaces == installed_interfaces,
            result.0.hub_protocol is None,
            result.0.hub is None,
            result.0.interfaces@ == Seq::<ParsedHidInterface>::empty(),
            result.0.device_id == 0,
            result.0.next == 0,
            result.0.report_descriptor@ == Seq::<u8>::empty(),
            result.0.ring is None,
            result.1 == PopulateRequest::Control(reads(0x80, 0x0100, 0, 8)),
    {
        (
            Population {
                phase: Phase::Header,
                context_size,
                installed_interfaces,
                identity: DeviceIdentity { vendor_id: 0, product_id: 0, class: 0, protocol: 0 },
                hub_protocol: None,
                hub: None,
                interfaces: Vec::new(),
                device_id: 0,
                next: 0,
                report_descriptor: Vec::new(),
                ring: None,
            },
            PopulateRequest::Control(read_request(0x80, 0x0100, 0, 8)),
        )
    }

    fn stop(&mut self, error: UsbError) -> (request: PopulateRequest)
        ensures
            *final(self) == (Population { phase: Phase::Ended, ..*old(self) }),
            failed_with(request, error),
    {
        self.phase = Phase::Ended;
        PopulateRequest::Failed { error, returned: None }
    }

    fn on_header(&mut self, device: &mut UsbDevice, bytes: &Vec<u8>) -> (request: PopulateRequest)
        requires
            old(self).wf(),
            enumerable(*old(device)),
        ensures
            final(self).wf(),
            enumerable(*final(device)),
            header_post(
                *old(self),
                *final(self),
                *old(device),
                *final(device),
                bytes@,
                request,
            ),
    {
        if bytes.len() < 8 || bytes[1] != 1 {
            return self.stop(UsbError::Descriptor(DescriptorError::InvalidType));
        }
        let packet_size: u16 = match descriptor_ep0_packet_size(device.speed, bytes[7]) {
            Ok(size) => size,
            Err(error) => {
                return self.stop(error);
            },
        };
        if packet_size != initial_ep0_packet_size(device.speed) {
            update_ep0_context(
                &mut device.input_context,
                &device.output_context,
                self.context_size,
                packet_size,
            );
            self.phase = Phase::PacketEvaluated;
            return PopulateRequest::EvaluateContext;
        }
        self.phase = Phase::Device;
        PopulateRequest::Control(read_request(0x80, 0x0100, 0, 18))
    }

    fn on_device(&mut self, bytes: &Vec<u8>, device: Ghost<UsbDevice>) -> (request: PopulateRequest)
        requires
            old(self).wf(),
        ensures
            final(self).wf(),
            device_post(*old(self), *final(self), device@, device@, bytes@, request),
    {
        if bytes.len() < 18 || bytes[0] < 18 || bytes[1] != 1 {
            return self.stop(UsbError::Descriptor(DescriptorError::InvalidType));
        }
        self.identity = DeviceIdentity {
            vendor_id: read_u16(bytes.as_slice(), 8),
            product_id: read_u16(bytes.as_slice(), 10),
            class: bytes[4],
            protocol: bytes[6],
        };
        self.phase = Phase::ConfigurationHeader;
        PopulateRequest::Control(read_request(0x80, 0x0200, 0, 9))
    }

    fn on_configuration_header(&mut self, bytes: &Vec<u8>, device: Ghost<UsbDevice>) -> (request:
        PopulateRequest)
        requires
            old(self).wf(),
        ensures
            final(self).wf(),
            configuration_header_post(*old(self), *final(self), device@, device@, bytes@, request),
    {
        if bytes.len() < 9 || bytes[1] != 2 {
            return self.stop(UsbError::Descriptor(DescriptorError::InvalidType));
        }
        let total_length: usize = read_u16(bytes.as_slice(), 2) as usize;
        if total_length < 9 || total_length > MAX_CONFIGURATION_DESCRIPTOR {
            return self.stop(UsbError::Descriptor(DescriptorError::TooLarge));
        }
        self.phase = Phase::Configuration;
        PopulateRequest::Control(read_request(0x80, 0x0200, 0, total_length))
    }

    fn on_configuration(&mut self, bytes: &Vec<u8>, device: Ghost<UsbDevice>) -> (request:
        PopulateRequest)
        requires
            old(self).wf(),
        ensures
            final(self).wf(),
            configuration_post(*old(self), *final(self), device@, device@, bytes@, request),
    {
        let parsed = match parse_configuration_descriptor(bytes.as_slice()) {
            Ok(parsed) => parsed,
            Err(error) => {
                return self.stop(UsbError::Descriptor(error));
            },
        };
        if self.installed_interfaces > MAX_HID_INTERFACES || parsed.interfaces.len()
            > MAX_HID_INTERFACES - self.installed_interfaces {
            return self.stop(UsbError::TooManyInterfaces);
        }
        self.hub_protocol = if self.identity.class == 9 {
            Some(self.identity.protocol)
        } else {
            parsed.hub_protocol
        };
        self.interfaces = parsed.interfaces;
        self.phase = Phase::Configured;
        PopulateRequest::Control(control_no_data(0x00, 9, parsed.configuration_value as u16, 0))
    }

    fn on_hub(&mut self, device: &mut UsbDevice, hub: HubState) -> (request: PopulateRequest)
        requires
            old(self).wf(),
            enumerable(*old(device)),
        ensures
            final(self).wf(),
            enumerable(*final(device)),
            hub_post(*old(self), *final(self), *old(device), *final(device), hub, request),
    {
        update_hub_slot_context(
            &mut device.input_context,
            &device.output_context,
            self.context_size,
            device.speed,
            hub,
        );
        self.hub = Some(hub);
        self.phase = Phase::HubEvaluated;
        PopulateRequest::EvaluateContext
    }

    fn begin_interfaces(&mut self, device: &mut UsbDevice, next_device_id: &mut u32) -> (request:
        PopulateRequest)
        requires
            old(self).wf(),
            enumerable(*old(device)),
        ensures
            final(self).wf(),
            enumerable(*final(device)),
            interfaces_begin(
                *old(self),
                *final(self),
                *old(device),
                *final(device),
                *old(next_device_id),
                *final(next_device_id),
                request,
            ),
    {
        self.device_id = *next_device_id;
        *next_device_id = next_device_id.wrapping_add(1);
        self.next = 0;
        self.phase = Phase::Ended;
        self.continue_interfaces(device)
    }

    fn continue_interfaces(&mut self, device: &mut UsbDevice) -> (request: PopulateRequest)
        requires
            valid_context_size(old(self).context_size as int),
            enumerable(*old(device)),
        ensures
            final(self).wf(),
            enumerable(*final(device)),
            *final(self) == (Population { phase: final(self).phase, ..*old(self) }),
            continues_with_interface(*final(self), *old(device), *final(device), request),
    {
        if self.next < self.interfaces.len() {
            let hid: ParsedHidInterface = self.interfaces[self.next];
            match control_in(
                0x81,
                6,
                0x2200,
                hid.interface_number as u16,
                hid.report_descriptor_length,
            ) {
                Err(error) => self.stop(error),
                Ok(request) => {
                    self.phase = Phase::Report;
                    PopulateRequest::Control(request)
                },
            }
        } else if device.interfaces.len() == 0 {
            self.phase = Phase::Ended;
            PopulateRequest::Finished
        } else {
            match build_configure_endpoint_context(
                &mut device.input_context,
                &device.output_context,
                self.context_size,
                &device.interfaces,
            ) {
                Err(error) => self.stop(error),
                Ok(()) => {
                    self.phase = Phase::Endpoints;
                    PopulateRequest::ConfigureEndpoints
                },
            }
        }
    }

    fn on_report(&mut self, bytes: Vec<u8>, device: Ghost<UsbDevice>) -> (request: PopulateRequest)
        requires
            old(self).wf(),
            old(self).phase == Phase::Report,
        ensures
            final(self).wf(),
            report_post(*old(self), *final(self), device@, device@, bytes@, request),
    {
        if bytes.len() == 0 {
            return self.stop(UsbError::Descriptor(DescriptorError::MissingHidReportDescriptor));
        }
        let hid: ParsedHidInterface = self.interfaces[self.next];
        self.report_descriptor = bytes;
        if hid.subclass == 1 && (hid.protocol == 1 || hid.protocol == 2) {
            self.phase = Phase::Protocol;
            return PopulateRequest::Control(
                control_no_data(0x21, 0x0b, 1, hid.interface_number as u16),
            );
        }
        self.check_endpoint()
    }

    fn check_endpoint(&mut self) -> (request: PopulateRequest)
        requires
            valid_context_size(old(self).context_size as int),
            old(self).next < old(self).interfaces@.len(),
        ensures
            final(self).wf(),
            *final(self) == (Population { phase: final(self).phase, ..*old(self) }),
            endpoint_post(
                old(self).interfaces@[old(self).next as int],
                final(self).phase,
                request,
            ),
    {
        let hid: ParsedHidInterface = self.interfaces[self.next];
        match endpoint_id(hid.endpoint_address) {
            Err(error) => self.stop(error),
            Ok(_) => {
                let length: usize = hid.max_esit_payload;
                if length == 0 || length > MAX_REPORT_SIZE || length > PAGE_SIZE {
                    return self.stop(UsbError::ReportTooLarge);
                }
                self.phase = Phase::Ring;
                PopulateRequest::AcquirePage
            },
        }
    }

    fn on_buffer(&mut self, device: &mut UsbDevice, buffer: DmaPage) -> (request: PopulateRequest)
        requires
            old(self).wf(),
            old(self).phase == Phase::Buffer,
            enumerable(*old(device)),
            buffer.wf(),
        ensures
            final(self).wf(),
            enumerable(*final(device)),
            buffer_post(*old(self), *final(self), *old(device), *final(device), buffer, request),
    {
        let hid: ParsedHidInterface = self.interfaces[self.next];
        match (self.ring.take(), endpoint_id(hid.endpoint_address)) {
            (Some(ring), Ok(endpoint)) => {
                let mut report_descriptor: Vec<u8> = Vec::new();
                report_descriptor.append(&mut self.report_descriptor);
                let state = HidInterfaceState {
                    info: HidInterfaceInfo {
                        id: HidInterfaceId {
                            device: self.device_id,
                            interface: hid.interface_number,
                        },
                        slot_id: device.slot_id,
                        root_port: device.path.root_port,
                        vendor_id: self.identity.vendor_id,
                        product_id: self.identity.product_id,
                        interface_subclass: hid.subclass,
                        interface_protocol: hid.protocol,
                        endpoint_address: hid.endpoint_address,
                        kind: interface_kind(hid.subclass, hid.protocol),
                    },
                    report_descriptor,
                    endpoint_id: endpoint,
                    interval: endpoint_interval(device.speed, hid.interval),
                    max_packet_size: hid.max_packet_size,
                    max_burst: hid.max_burst,
                    max_esit_payload: hid.max_esit_payload,
                    ring,
                    buffer,
                    buffer_len: hid.max_esit_payload,
                    queued_trb: 0,
                    transfer_error: None,
                    active: true,
                };
                assert(state.report_descriptor@ =~= old(self).report_descriptor@);
                let ghost attached_state = state;
                device.interfaces.push(state);
                proof {
                    assert(device.interfaces@.last() == attached_state);
                    assert(attached(
                        attached_state,
                        old(self).interfaces@[old(self).next as int],
                        *old(self),
                        *old(device),
                        buffer,
                    ));
                    assert(grew(*old(device), *device));
                }
                assert(self.next < self.interfaces.len());
                self.next += 1;
                self.continue_interfaces(device)
            },
            _ => {
                assert(false);
                self.stop(UsbError::InvalidEndpoint)
            },
        }
    }

    /// Performs one step of the enumeration.
    pub fn step(
        &mut self,
        device: &mut UsbDevice,
        next_device_id: &mut u32,
        reply: PopulateReply,
    ) -> (request: PopulateRequest)
        requires
            old(self).wf(),
            enumerable(*old(device)),
            reply_fits(old(self).phase, reply),
        ensures
            final(self).wf(),
            enumerable(*final(device)),
            populate_post(
                *old(self),
                *final(self),
                *old(device),
                *final(device),
                *old(next_device_id),
                *final(next_device_id),
                reply,
                request,
            ),
            request matches PopulateRequest::Failed { error, returned } ==> (returned matches Some(
                page,
            ) ==> page.wf()),
    {
        let ghost start = *device;
        match reply {
            PopulateReply::Failed(error) => {
                let in_buffer: bool = match self.phase {
                    Phase::Buffer => true,
                    _ => false,
                };
                self.phase = Phase::Ended;
                let returned: Option<DmaPage> = if in_buffer {
                    match self.ring.take() {
                        Some(ring) => Some(ring.into_inner()),
                        None => None,
                    }
                } else {
                    None
                };
                PopulateRequest::Failed { error, returned }
            },
            PopulateReply::Bytes(bytes) => match self.phase {
                Phase::Header => self.on_header(device, &bytes),
                Phase::Device => self.on_device(&bytes, Ghost(start)),
                Phase::ConfigurationHeader => self.on_configuration_header(&bytes, Ghost(start)),
                Phase::Configuration => self.on_configuration(&bytes, Ghost(start)),
                _ => self.on_report(bytes, Ghost(start)),
            },
            PopulateReply::Done => match self.phase {
                Phase::PacketEvaluated => {
                    self.phase = Phase::Device;
                    PopulateRequest::Control(read_request(0x80, 0x0100, 0, 18))
                },
                Phase::Configured => match self.hub_protocol {
                    Some(protocol) => {
                        self.phase = Phase::HubDescribed;
                        PopulateRequest::DescribeHub { superspeed: device.speed >= 4, protocol }
                    },
                    None => self.begin_interfaces(device, next_device_id),
                },
                Phase::HubEvaluated => {
                    device.hub = self.hub;
                    self.begin_interfaces(device, next_device_id)
                },
                Phase::Protocol => self.check_endpoint(),
                _ => {
                    self.phase = Phase::Ended;
                    PopulateRequest::Finished
                },
            },
            PopulateReply::Hub(hub) => self.on_hub(device, hub),
            PopulateReply::Page(page) => match self.phase {
                Phase::Ring => {
                    self.ring = Some(ProducerRing::new(page));
                    self.phase = Phase::Buffer;
                    PopulateRequest::AcquirePage
                },
                _ => self.on_buffer(device, page),
            },
        }
    }
}

/// A request that reads from the device.
fn read_request(request_type: u8, value: u16, index: u16, length: usize) -> (request: ControlRequest)
    requires
        length <= PAGE_SIZE,
    ensures
        request == reads(request_type, value, index, length as int),
{
    ControlRequest {
        request_type,
        request: 6,
        value,
        index,
        length: length as u16,
        data_in: true,
    }
}

/// Only boot interfaces are told to change their protocol; a generic joystick
/// never is, since the request can stall its control endpoint.
pub proof fn law_only_boot_interfaces_change_protocol(
    before: Population,
    after: Population,
    device: UsbDevice,
    bytes: Seq<u8>,
    request: PopulateRequest,
)
    requires
        report_post(before, after, device, device, bytes, request),
        request matches PopulateRequest::Control(r) && r.request == 0x0b,
    ensures
        is_boot(before.interfaces@[before.next as int]),
{
}

/// A configuration that is accepted keeps all devices together within the interface limit.
pub proof fn law_interface_limit_is_kept(
    before: Population,
    after: Population,
    device: UsbDevice,
    bytes: Seq<u8>,
    request: PopulateRequest,
)
    requires
        configuration_post(before, after, device, device, bytes, request),
        after.phase == Phase::Configured,
    ensures
        after.interfaces@.len() + before.installed_interfaces <= MAX_HID_INTERFACES,
{
}

} // verus!
