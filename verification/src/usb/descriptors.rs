//! USB configuration, hub and endpoint descriptors.
use vstd::arithmetic::power2::pow2;
use vstd::prelude::*;

use super::error::UsbError;
use crate::bytes::{le16_at, read_u16};

verus! {

/// Largest accepted configuration descriptor in bytes.
pub const MAX_CONFIGURATION_DESCRIPTOR: usize = 4096;

/// Largest accepted HID report descriptor in bytes.
pub const MAX_REPORT_DESCRIPTOR: usize = 4096;

/// Why a descriptor was refused.
#[derive(Clone, Copy, Debug, PartialEq, Eq, Structural)]
pub enum DescriptorError {
    TooShort,
    InvalidLength,
    InvalidType,
    LengthOverflow,
    TooLarge,
    MissingConfigurationValue,
    MissingHidReportDescriptor,
    MissingInterruptInEndpoint,
}

/// One HID interface of a configuration.
#[derive(Clone, Copy, Debug, PartialEq, Eq)]
pub struct ParsedHidInterface {
    pub interface_number: u8,
    pub subclass: u8,
    pub protocol: u8,
    pub report_descriptor_length: usize,
    pub endpoint_address: u8,
    pub max_packet_size: u16,
    pub max_burst: u8,
    pub max_esit_payload: usize,
    pub interval: u8,
}

/// A configuration with its HID interfaces in descriptor order.
#[derive(Debug, PartialEq, Eq)]
pub struct ParsedConfiguration {
    pub configuration_value: u8,
    pub hub_protocol: Option<u8>,
    pub interfaces: Vec<ParsedHidInterface>,
}

/// The interrupt-IN endpoint chosen for an interface.
#[derive(Clone, Copy, Debug, PartialEq, Eq)]
pub struct InterruptEndpoint {
    pub address: u8,
    pub max_packet_size: u16,
    pub max_burst: u8,
    pub max_esit_payload: usize,
    pub interval: u8,
}

/// A HID interface whose class and endpoint descriptors are still arriving.
#[derive(Clone, Copy, Debug, PartialEq, Eq)]
pub struct PendingInterface {
    pub number: u8,
    pub subclass: u8,
    pub protocol: u8,
    pub report_length: Option<usize>,
    pub endpoint: Option<InterruptEndpoint>,
}

/// What has been gathered from the descriptors before some offset.
pub struct ScanState {
    pub hub_protocol: Option<u8>,
    pub pending: Option<PendingInterface>,
    pub finished: Seq<ParsedHidInterface>,
}

/// The interface list after the pending interface is closed.
pub open spec fn finish_spec(
    pending: Option<PendingInterface>,
    finished: Seq<ParsedHidInterface>,
) -> Result<Seq<ParsedHidInterface>, DescriptorError> {
    match pending {
        None => Ok(finished),
        Some(p) => match (p.report_length, p.endpoint) {
            (None, _) => Err(DescriptorError::MissingHidReportDescriptor),
            (Some(_), None) => Err(DescriptorError::MissingInterruptInEndpoint),
            (Some(report), Some(e)) => Ok(
                finished.push(
                    ParsedHidInterface {
                        interface_number: p.number,
                        subclass: p.subclass,
                        protocol: p.protocol,
                        report_descriptor_length: report,
                        endpoint_address: e.address,
                        max_packet_size: e.max_packet_size,
                        max_burst: e.max_burst,
                        max_esit_payload: e.max_esit_payload,
                        interval: e.interval,
                    },
                ),
            ),
        },
    }
}

/// An interface descriptor closes the pending interface and may open a new one.
pub open spec fn interface_step(state: ScanState, d: Seq<u8>) -> Result<ScanState, DescriptorError> {
    match finish_spec(state.pending, state.finished) {
        Err(error) => Err(error),
        Ok(finished) => if d.len() < 9 {
            Err(DescriptorError::InvalidLength)
        } else {
            Ok(
                ScanState {
                    hub_protocol: if d[5] == 9 && d[3] == 0 {
                        Some(d[7])
                    } else {
                        state.hub_protocol
                    },
                    pending: if d[5] == 3 && d[3] == 0 {
                        Some(
                            PendingInterface {
                                number: d[2],
                                subclass: d[6],
                                protocol: d[7],
                                report_length: None,
                                endpoint: None,
                            },
                        )
                    } else {
                        None
                    },
                    finished,
                },
            )
        },
    }
}

/// The report length that the first `count` class descriptors of `d` leave in force.
pub open spec fn report_length_after(
    d: Seq<u8>,
    count: nat,
    before: Option<usize>,
) -> Result<Option<usize>, DescriptorError>
    decreases count,
{
    if count == 0 {
        Ok(before)
    } else {
        match report_length_after(d, (count - 1) as nat, before) {
            Err(error) => Err(error),
            Ok(previous) => {
                let at = 6 + 3 * (count - 1);
                let length = le16_at(d, at + 1);
                if d[at] != 0x22 {
                    Ok(previous)
                } else if length == 0 || length > MAX_REPORT_DESCRIPTOR {
                    Err(DescriptorError::TooLarge)
                } else {
                    Ok(Some(length as usize))
                }
            },
        }
    }
}

/// A HID descriptor names the report descriptor of the pending interface.
pub open spec fn hid_step(state: ScanState, d: Seq<u8>) -> Result<ScanState, DescriptorError> {
    match state.pending {
        None => Ok(state),
        Some(p) => if d.len() < 6 || 6 + 3 * d[5] > d.len() {
            Err(DescriptorError::InvalidLength)
        } else {
            match report_length_after(d, d[5] as nat, p.report_length) {
                Err(error) => Err(error),
                Ok(report_length) => Ok(
                    ScanState {
                        pending: Some(PendingInterface { report_length, ..p }),
                        ..state
                    },
                ),
            }
        },
    }
}

/// The first interrupt-IN endpoint descriptor belongs to the pending interface.
pub open spec fn endpoint_step(state: ScanState, d: Seq<u8>) -> Result<ScanState, DescriptorError> {
    match state.pending {
        None => Ok(state),
        Some(p) => if d.len() < 7 {
            Err(DescriptorError::InvalidLength)
        } else if d[2] < 0x80 || d[3] % 4 != 3 || p.endpoint is Some {
            Ok(state)
        } else {
            let packet = le16_at(d, 4) % 0x800;
            let burst = le16_at(d, 4) / 0x800 % 4;
            if packet == 0 || burst == 3 {
                Err(DescriptorError::InvalidLength)
            } else {
                Ok(
                    ScanState {
                        pending: Some(
                            PendingInterface {
                                endpoint: Some(
                                    InterruptEndpoint {
                                        address: d[2],
                                        max_packet_size: packet as u16,
                                        max_burst: burst as u8,
                                        max_esit_payload: (packet * (burst + 1)) as usize,
                                        interval: d[6],
                                    },
                                ),
                                ..p
                            },
                        ),
                        ..state
                    },
                )
            }
        },
    }
}

/// A SuperSpeed companion descriptor refines the endpoint of the pending interface.
pub open spec fn companion_step(state: ScanState, d: Seq<u8>) -> Result<ScanState, DescriptorError> {
    if d.len() < 6 {
        Err(DescriptorError::InvalidLength)
    } else {
        match state.pending {
            None => Ok(state),
            Some(p) => match p.endpoint {
                None => Ok(state),
                Some(e) => if d[2] > 15 {
                    Err(DescriptorError::InvalidLength)
                } else {
                    Ok(
                        ScanState {
                            pending: Some(
                                PendingInterface {
                                    endpoint: Some(
                                        InterruptEndpoint {
                                            max_burst: d[2],
                                            max_esit_payload: if le16_at(d, 4) != 0 {
                                                le16_at(d, 4) as usize
                                            } else {
                                                e.max_esit_payload
                                            },
                                            ..e
                                        },
                                    ),
                                    ..p
                                },
                            ),
                            ..state
                        },
                    )
                },
            },
        }
    }
}

/// What one complete descriptor does to the gathered state.
pub open spec fn descriptor_step(state: ScanState, d: Seq<u8>) -> Result<
    ScanState,
    DescriptorError,
> {
    if d[1] == 4 {
        interface_step(state, d)
    } else if d[1] == 0x21 {
        hid_step(state, d)
    } else if d[1] == 5 {
        endpoint_step(state, d)
    } else if d[1] == 0x30 {
        companion_step(state, d)
    } else {
        Ok(state)
    }
}

/// The state after every descriptor of `bytes` from `offset` on.
pub open spec fn scan_from(bytes: Seq<u8>, offset: int, state: ScanState) -> Result<
    ScanState,
    DescriptorError,
>
    decreases bytes.len() - offset,
{
    if offset < 0 || offset >= bytes.len() {
        Ok(state)
    } else if bytes.len() - offset < 2 {
        Err(DescriptorError::TooShort)
    } else if bytes[offset] < 2 {
        Err(DescriptorError::InvalidLength)
    } else if offset + bytes[offset] > bytes.len() {
        Err(DescriptorError::TooShort)
    } else {
        match descriptor_step(state, bytes.subrange(offset, offset + bytes[offset])) {
            Err(error) => Err(error),
            Ok(next) => scan_from(bytes, offset + bytes[offset], next),
        }
    }
}

/// Value, hub protocol and HID interfaces that a configuration descriptor declares.
pub open spec fn configuration_spec(bytes: Seq<u8>) -> Result<
    (u8, Option<u8>, Seq<ParsedHidInterface>),
    DescriptorError,
> {
    if bytes.len() < 9 {
        Err(DescriptorError::TooShort)
    } else if bytes[0] < 9 || bytes[1] != 2 {
        Err(DescriptorError::InvalidType)
    } else if le16_at(bytes, 2) < 9 || le16_at(bytes, 2) > bytes.len() {
        Err(DescriptorError::InvalidLength)
    } else if bytes[5] == 0 {
        Err(DescriptorError::MissingConfigurationValue)
    } else {
        let start = ScanState { hub_protocol: None, pending: None, finished: Seq::empty() };
        match scan_from(bytes.take(le16_at(bytes, 2)), 0, start) {
            Err(error) => Err(error),
            Ok(end) => match finish_spec(end.pending, end.finished) {
                Err(error) => Err(error),
                Ok(interfaces) => Ok((bytes[5], end.hub_protocol, interfaces)),
            },
        }
    }
}

impl ParsedConfiguration {
    /// The plain values of the configuration.
    pub open spec fn model(&self) -> (u8, Option<u8>, Seq<ParsedHidInterface>) {
        (self.configuration_value, self.hub_protocol, self.interfaces@)
    }
}

/// Closes the pending interface, if there is one.
fn finish(
    pending: Option<PendingInterface>,
    interfaces: &mut Vec<ParsedHidInterface>,
) -> (result: Result<(), DescriptorError>)
    ensures
        match finish_spec(pending, old(interfaces)@) {
            Ok(finished) => result is Ok && final(interfaces)@ == finished,
            Err(error) => result == Err::<(), DescriptorError>(error) && final(interfaces)@ == old(
                interfaces,
            )@,
        },
{
    let Some(pending) = pending else {
        return Ok(());
    };
    let Some(report_descriptor_length) = pending.report_length else {
        return Err(DescriptorError::MissingHidReportDescriptor);
    };
    let Some(endpoint) = pending.endpoint else {
        return Err(DescriptorError::MissingInterruptInEndpoint);
    };
    interfaces.push(
        ParsedHidInterface {
            interface_number: pending.number,
            subclass: pending.subclass,
            protocol: pending.protocol,
            report_descriptor_length,
            endpoint_address: endpoint.address,
            max_packet_size: endpoint.max_packet_size,
            max_burst: endpoint.max_burst,
            max_esit_payload: endpoint.max_esit_payload,
            interval: endpoint.interval,
        },
    );
    Ok(())
}

/// Reads the class descriptor list of one HID descriptor.
fn hid_report_length(descriptor: &[u8], before: Option<usize>) -> (result: Result<
    Option<usize>,
    DescriptorError,
>)
    ensures
        result == (if descriptor@.len() < 6 || 6 + 3 * descriptor@[5] > descriptor@.len() {
            Err(DescriptorError::InvalidLength)
        } else {
            report_length_after(descriptor@, descriptor@[5] as nat, before)
        }),
{
    let length: usize = descriptor.len();
    if length < 6 {
        return Err(DescriptorError::InvalidLength);
    }
    let count: usize = descriptor[5] as usize;
    if 6 + count * 3 > length {
        return Err(DescriptorError::InvalidLength);
    }
    let mut current: Option<usize> = before;
    let mut item: usize = 0;
    while item < count
        invariant
            item <= count,
            count == descriptor@[5],
            6 + count * 3 <= descriptor@.len(),
            report_length_after(descriptor@, item as nat, before) == Ok::<
                Option<usize>,
                DescriptorError,
            >(current),
        decreases count - item,
    {
        let at: usize = 6 + item * 3;
        if descriptor[at] == 0x22 {
            let report_length: usize = read_u16(descriptor, at + 1) as usize;
            if report_length == 0 || report_length > MAX_REPORT_DESCRIPTOR {
                proof {
                    lemma_report_error_stays(descriptor@, (item + 1) as nat, count as nat, before);
                }
                return Err(DescriptorError::TooLarge);
            }
            current = Some(report_length);
        }
        item += 1;
    }
    Ok(current)
}

/// The list is refused for one reason only, and a refusal lasts.
proof fn lemma_report_error_stays(d: Seq<u8>, n: nat, m: nat, before: Option<usize>)
    requires
        n <= m,
    ensures
        report_length_after(d, m, before) is Err ==> report_length_after(d, m, before) == Err::<
            Option<usize>,
            DescriptorError,
        >(DescriptorError::TooLarge),
        report_length_after(d, n, before) is Err ==> report_length_after(d, m, before) is Err,
    decreases m,
{
    if m > 0 {
        if n == m {
            lemma_report_error_stays(d, (n - 1) as nat, (m - 1) as nat, before);
        } else {
            lemma_report_error_stays(d, n, (m - 1) as nat, before);
        }
    }
}

/// Parses a configuration descriptor and the descriptors that follow it.
///
/// Bytes after the declared total length are ignored.
pub fn parse_configuration_descriptor(bytes: &[u8]) -> (result: Result<
    ParsedConfiguration,
    DescriptorError,
>)
    ensures
        match configuration_spec(bytes@) {
            Ok(expected) => result matches Ok(parsed) && parsed.model() == expected,
            Err(error) => result matches Err(found) && found == error,
        },
{
    if bytes.len() < 9 {
        return Err(DescriptorError::TooShort);
    }
    if bytes[0] < 9 || bytes[1] != 2 {
        return Err(DescriptorError::InvalidType);
    }
    let declared: usize = read_u16(bytes, 2) as usize;
    if declared < 9 || declared > bytes.len() {
        return Err(DescriptorError::InvalidLength);
    }
    let configuration_value: u8 = bytes[5];
    if configuration_value == 0 {
        return Err(DescriptorError::MissingConfigurationValue);
    }
    let mut interfaces: Vec<ParsedHidInterface> = Vec::new();
    let mut hub_protocol: Option<u8> = None;
    let mut pending: Option<PendingInterface> = None;
    let mut offset: usize = 0;
    let ghost all = bytes@.take(declared as int);
    let ghost start = ScanState { hub_protocol: None, pending: None, finished: Seq::empty() };
    proof {
        assert(interfaces@ =~= start.finished);
    }
    while offset < declared
        invariant
            offset <= declared <= bytes@.len(),
            all == bytes@.take(declared as int),
            scan_from(all, 0, start) == scan_from(
                all,
                offset as int,
                ScanState { hub_protocol, pending, finished: interfaces@ },
            ),
            bytes@.len() >= 9,
            configuration_spec(bytes@) == (match scan_from(all, 0, start) {
                Err(error) => Err(error),
                Ok(end) => match finish_spec(end.pending, end.finished) {
                    Err(error) => Err(error),
                    Ok(interfaces) => Ok((configuration_value, end.hub_protocol, interfaces)),
                },
            }),
        decreases declared - offset,
    {
        let ghost before = ScanState { hub_protocol, pending, finished: interfaces@ };
        if declared - offset < 2 {
            return Err(DescriptorError::TooShort);
        }
        let length: usize = bytes[offset] as usize;
        if length < 2 {
            return Err(DescriptorError::InvalidLength);
        }
        if length > declared - offset {
            return Err(DescriptorError::TooShort);
        }
        let end: usize = offset + length;
        let descriptor: &[u8] = vstd::slice::slice_subrange(bytes, offset, end);
        proof {
            assert(all.subrange(offset as int, end as int) =~= descriptor@);
        }
        let kind: u8 = descriptor[1];
        if kind == 4 {
            match finish(pending, &mut interfaces) {
                Err(error) => {
                    return Err(error);
                },
                Ok(()) => {},
            }
            pending = None;
            if length < 9 {
                return Err(DescriptorError::InvalidLength);
            }
            if descriptor[5] == 9 && descriptor[3] == 0 {
                hub_protocol = Some(descriptor[7]);
            }
            if descriptor[5] == 3 && descriptor[3] == 0 {
                pending = Some(
                    PendingInterface {
                        number: descriptor[2],
                        subclass: descriptor[6],
                        protocol: descriptor[7],
                        report_length: None,
                        endpoint: None,
                    },
                );
            }
        } else if kind == 0x21 {
            if let Some(current) = pending {
                match hid_report_length(descriptor, current.report_length) {
                    Err(error) => {
                        return Err(error);
                    },
                    Ok(report_length) => {
                        pending = Some(PendingInterface { report_length, ..current });
                    },
                }
            }
        } else if kind == 5 {
            if let Some(current) = pending {
                if length < 7 {
                    return Err(DescriptorError::InvalidLength);
                }
                if descriptor[2] >= 0x80 && descriptor[3] % 4 == 3 && current.endpoint.is_none() {
                    let encoded: u16 = read_u16(descriptor, 4);
                    let packet: u16 = encoded % 0x800;
                    let burst: u16 = encoded / 0x800 % 4;
                    if packet == 0 || burst == 3 {
                        return Err(DescriptorError::InvalidLength);
                    }
                    assert(packet * (burst + 1) <= 0x800 * 4) by (nonlinear_arith)
                        requires
                            packet < 0x800,
                            burst < 4,
                    ;
                    pending = Some(
                        PendingInterface {
                            endpoint: Some(
                                InterruptEndpoint {
                                    address: descriptor[2],
                                    max_packet_size: packet,
                                    max_burst: burst as u8,
                                    max_esit_payload: packet as usize * (burst as usize + 1),
                                    interval: descriptor[6],
                                },
                            ),
                            ..current
                        },
                    );
                }
            }
        } else if kind == 0x30 {
            if length < 6 {
                return Err(DescriptorError::InvalidLength);
            }
            if let Some(current) = pending {
                if let Some(endpoint) = current.endpoint {
                    let bytes_per_interval: usize = read_u16(descriptor, 4) as usize;
                    if descriptor[2] > 15 {
                        return Err(DescriptorError::InvalidLength);
                    }
                    let max_esit_payload: usize = if bytes_per_interval != 0 {
                        bytes_per_interval
                    } else {
                        endpoint.max_esit_payload
                    };
                    pending = Some(
                        PendingInterface {
                            endpoint: Some(
                                InterruptEndpoint {
                                    max_burst: descriptor[2],
                                    max_esit_payload,
                                    ..endpoint
                                },
                            ),
                            ..current
                        },
                    );
                }
            }
        }
        proof {
            let after = ScanState { hub_protocol, pending, finished: interfaces@ };
            assert(descriptor_step(before, descriptor@) == Ok::<ScanState, DescriptorError>(after));
        }
        offset = end;
    }
    match finish(pending, &mut interfaces) {
        Err(error) => Err(error),
        Ok(()) => Ok(ParsedConfiguration { configuration_value, hub_protocol, interfaces }),
    }
}

/// The fields of a hub class descriptor that the driver uses.
#[derive(Clone, Copy, Debug, PartialEq, Eq)]
pub struct ParsedHubDescriptor {
    pub ports: u8,
    pub characteristics: u16,
    pub power_good_ms: u16,
}

/// Shortest hub descriptor of each bus generation.
pub open spec fn hub_minimum(superspeed: bool) -> int {
    if superspeed {
        12
    } else {
        7
    }
}

/// The descriptor type of a hub of each bus generation.
pub open spec fn hub_descriptor_type(superspeed: bool) -> int {
    if superspeed {
        0x2a
    } else {
        0x29
    }
}

/// What a hub descriptor says.
pub open spec fn hub_descriptor_spec(bytes: Seq<u8>, superspeed: bool) -> Result<
    ParsedHubDescriptor,
    DescriptorError,
> {
    if bytes.len() < hub_minimum(superspeed) {
        Err(DescriptorError::TooShort)
    } else if bytes[0] < hub_minimum(superspeed) || bytes[0] > bytes.len() {
        Err(DescriptorError::InvalidLength)
    } else if bytes[1] != hub_descriptor_type(superspeed) {
        Err(DescriptorError::InvalidType)
    } else if bytes[2] == 0 {
        Err(DescriptorError::InvalidLength)
    } else {
        Ok(
            ParsedHubDescriptor {
                ports: bytes[2],
                characteristics: le16_at(bytes, 3) as u16,
                power_good_ms: (2 * bytes[5]) as u16,
            },
        )
    }
}

/// Parses the class descriptor of a USB 2 or SuperSpeed hub.
pub fn parse_hub_descriptor(bytes: &[u8], superspeed: bool) -> (result: Result<
    ParsedHubDescriptor,
    DescriptorError,
>)
    ensures
        result == hub_descriptor_spec(bytes@, superspeed),
{
    let minimum: usize = if superspeed {
        12
    } else {
        7
    };
    let expected_type: u8 = if superspeed {
        0x2a
    } else {
        0x29
    };
    if bytes.len() < minimum {
        return Err(DescriptorError::TooShort);
    }
    let declared: usize = bytes[0] as usize;
    if declared < minimum || declared > bytes.len() {
        return Err(DescriptorError::InvalidLength);
    }
    if bytes[1] != expected_type {
        return Err(DescriptorError::InvalidType);
    }
    let ports: u8 = bytes[2];
    if ports == 0 {
        return Err(DescriptorError::InvalidLength);
    }
    Ok(
        ParsedHubDescriptor {
            ports,
            characteristics: read_u16(bytes, 3),
            power_good_ms: bytes[5] as u16 * 2,
        },
    )
}

/// A hub port's status word and its pending change bits.
#[derive(Clone, Copy, Debug, PartialEq, Eq)]
pub struct HubPortStatus {
    pub status: u16,
    pub change: u16,
}

/// Port status bit: a device is attached.
pub const USB_PORT_STATUS_CONNECTION: u16 = 0x1;

/// Port status bit: the port is enabled.
pub const USB_PORT_STATUS_ENABLE: u16 = 0x2;

/// Port status bit: a reset is in progress.
pub const USB_PORT_STATUS_RESET: u16 = 0x10;

/// Port status bit: a low-speed device is attached.
pub const USB_PORT_STATUS_LOW_SPEED: u16 = 0x200;

/// Port status bit: a high-speed device is attached.
pub const USB_PORT_STATUS_HIGH_SPEED: u16 = 0x400;

/// Whether the bit of weight `weight` is set in `word`.
pub open spec fn has_bit(word: int, weight: int) -> bool {
    word / weight % 2 == 1
}

impl HubPortStatus {
    /// Whether a device is attached to the port.
    pub fn connected(self) -> (result: bool)
        ensures
            result == has_bit(self.status as int, USB_PORT_STATUS_CONNECTION as int),
    {
        self.status % 2 == 1
    }

    /// Whether the port finished its reset and is enabled.
    pub fn reset_complete(self) -> (result: bool)
        ensures
            result == (!has_bit(self.status as int, USB_PORT_STATUS_RESET as int) && has_bit(
                self.status as int,
                USB_PORT_STATUS_ENABLE as int,
            )),
    {
        self.status / USB_PORT_STATUS_RESET % 2 == 0 && self.status / USB_PORT_STATUS_ENABLE % 2
            == 1
    }

    /// Whether change bit `bit` is pending.
    pub fn changed(self, bit: u16) -> (result: bool)
        requires
            bit < 16,
        ensures
            result == has_bit(self.change as int, pow2(bit as nat) as int),
    {
        let mut weight: u16 = 1;
        let mut index: u16 = 0;
        proof {
            vstd::arithmetic::power2::lemma2_to64();
        }
        while index < bit
            invariant
                index <= bit < 16,
                weight == pow2(index as nat),
            decreases bit - index,
        {
            proof {
                vstd::arithmetic::power2::lemma2_to64();
                vstd::arithmetic::power2::lemma_pow2_unfold((index + 1) as nat);
                if index < 15 {
                    if index + 1 < 15 {
                        vstd::arithmetic::power2::lemma_pow2_strictly_increases((index + 1) as nat, 15);
                    }
                }
            }
            weight = weight * 2;
            index += 1;
        }
        proof {
            vstd::arithmetic::power2::lemma_pow2_pos(bit as nat);
        }
        self.change / weight % 2 == 1
    }
}

/// Decodes the four bytes of a hub port status request.
pub fn parse_hub_port_status(bytes: &[u8]) -> (result: Result<HubPortStatus, UsbError>)
    ensures
        result == (if bytes@.len() < 4 {
            Err(UsbError::Descriptor(DescriptorError::TooShort))
        } else {
            Ok(
                HubPortStatus {
                    status: le16_at(bytes@, 0) as u16,
                    change: le16_at(bytes@, 2) as u16,
                },
            )
        }),
{
    if bytes.len() < 4 {
        return Err(UsbError::Descriptor(DescriptorError::TooShort));
    }
    Ok(HubPortStatus { status: read_u16(bytes, 0), change: read_u16(bytes, 2) })
}

/// The speed code of a device behind a hub port.
pub fn hub_child_speed(status: HubPortStatus, parent_speed: u8) -> (speed: u8)
    ensures
        speed == (if parent_speed >= 4 {
            parent_speed
        } else if has_bit(status.status as int, USB_PORT_STATUS_HIGH_SPEED as int) {
            3u8
        } else if has_bit(status.status as int, USB_PORT_STATUS_LOW_SPEED as int) {
            2u8
        } else {
            1u8
        }),
{
    if parent_speed >= 4 {
        parent_speed
    } else if status.status / USB_PORT_STATUS_HIGH_SPEED % 2 == 1 {
        3
    } else if status.status / USB_PORT_STATUS_LOW_SPEED % 2 == 1 {
        2
    } else {
        1
    }
}

/// The class feature that acknowledges change bit `change_bit`.
pub open spec fn change_feature_spec(superspeed: bool, change_bit: int) -> Option<u16> {
    if !superspeed {
        if change_bit <= 4 {
            Some((16 + change_bit) as u16)
        } else {
            None
        }
    } else if change_bit == 0 {
        Some(16)
    } else if change_bit == 3 {
        Some(19)
    } else if change_bit == 4 {
        Some(20)
    } else if change_bit == 5 {
        Some(29)
    } else if change_bit == 6 {
        Some(25)
    } else if change_bit == 7 {
        Some(26)
    } else {
        None
    }
}

/// Maps a change bit to the feature that clears it.
pub fn hub_change_feature(superspeed: bool, change_bit: u16) -> (feature: Option<u16>)
    ensures
        feature == change_feature_spec(superspeed, change_bit as int),
{
    if !superspeed {
        return if change_bit <= 4 {
            Some(16 + change_bit)
        } else {
            None
        };
    }
    match change_bit {
        0 => Some(16),
        3 => Some(19),
        4 => Some(20),
        5 => Some(29),
        6 => Some(25),
        7 => Some(26),
        _ => None,
    }
}

/// The transaction translator that serves a low- or full-speed device.
#[derive(Clone, Copy, Debug, PartialEq, Eq)]
pub struct TtInfo {
    pub hub_slot_id: u8,
    pub port: u8,
}

/// Selects the transaction translator of a device behind a hub.
///
/// Only low- and full-speed devices have one. A high-speed USB 2 hub provides
/// it, per port when it is a multi-TT hub; any other parent passes on its own.
pub fn derive_child_tt(
    parent_speed: u8,
    parent_slot_id: u8,
    parent_usb2_hub_protocol: Option<u8>,
    inherited_tt: Option<TtInfo>,
    port: u8,
    child_speed: u8,
) -> (tt: Option<TtInfo>)
    ensures
        tt == (if child_speed > 2 {
            None
        } else if parent_speed == 3 && parent_usb2_hub_protocol is Some {
            Some(
                TtInfo {
                    hub_slot_id: parent_slot_id,
                    port: if parent_usb2_hub_protocol == Some(2u8) {
                        port
                    } else {
                        0
                    },
                },
            )
        } else {
            inherited_tt
        }),
{
    if child_speed > 2 {
        return None;
    }
    match parent_usb2_hub_protocol {
        Some(protocol) if parent_speed == 3 => Some(
            TtInfo {
                hub_slot_id: parent_slot_id,
                port: if protocol == 2 {
                    port
                } else {
                    0
                },
            },
        ),
        _ => inherited_tt,
    }
}

/// Default control packet size of a freshly reset device.
pub open spec fn initial_packet_spec(speed: int) -> u16 {
    if speed == 3 {
        64
    } else if speed == 4 || speed == 5 {
        512
    } else {
        8
    }
}

/// Default control packet size of a freshly reset device.
pub fn initial_ep0_packet_size(speed: u8) -> (size: u16)
    ensures
        size == initial_packet_spec(speed as int),
{
    match speed {
        3 => 64,
        4 | 5 => 512,
        _ => 8,
    }
}

/// Whether a control endpoint may have packets of `size` bytes.
pub open spec fn control_packet_size(size: int) -> bool {
    size == 8 || size == 16 || size == 32 || size == 64 || size == 512
}

/// The control packet size that a device descriptor encodes.
///
/// SuperSpeed devices encode a power of two.
pub open spec fn ep0_packet_spec(speed: int, encoded: int) -> Result<u16, UsbError> {
    let size = if speed >= 4 {
        pow2(encoded as nat) as int
    } else {
        encoded
    };
    if control_packet_size(size) {
        Ok(size as u16)
    } else {
        Err(UsbError::Descriptor(DescriptorError::InvalidLength))
    }
}

/// Decodes the control packet size of a device descriptor.
pub fn descriptor_ep0_packet_size(speed: u8, encoded: u8) -> (result: Result<u16, UsbError>)
    ensures
        result == ep0_packet_spec(speed as int, encoded as int),
{
    proof {
        vstd::arithmetic::power2::lemma2_to64();
        if encoded > 9 {
            vstd::arithmetic::power2::lemma_pow2_strictly_increases(9, encoded as nat);
        }
    }
    if speed >= 4 {
        match encoded {
            3 => Ok(8),
            4 => Ok(16),
            5 => Ok(32),
            6 => Ok(64),
            9 => Ok(512),
            _ => Err(UsbError::Descriptor(DescriptorError::InvalidLength)),
        }
    } else {
        match encoded {
            8 | 16 | 32 | 64 => Ok(encoded as u16),
            _ => Err(UsbError::Descriptor(DescriptorError::InvalidLength)),
        }
    }
}

/// The device context index of the endpoint at `address`.
pub open spec fn endpoint_id_spec(address: int) -> Result<u8, UsbError> {
    if address >= 0x80 && address % 16 != 0 {
        Ok((address % 16 * 2 + 1) as u8)
    } else {
        Err(UsbError::InvalidEndpoint)
    }
}

/// The device context index of an IN endpoint.
pub fn endpoint_id(endpoint_address: u8) -> (result: Result<u8, UsbError>)
    ensures
        result == endpoint_id_spec(endpoint_address as int),
{
    if endpoint_address < 0x80 {
        return Err(UsbError::InvalidEndpoint);
    }
    let number: u8 = endpoint_address % 16;
    if number == 0 {
        return Err(UsbError::InvalidEndpoint);
    }
    Ok(number * 2 + 1)
}

/// The exponent of an endpoint's service period, in units of 125 microseconds.
///
/// High-speed and faster devices state the exponent themselves. For slower
/// ones it is that of the largest power of two that does not exceed the period.
pub fn endpoint_interval(speed: u8, interval: u8) -> (exponent: u8)
    ensures
        speed >= 3 ==> exponent == (if interval == 0 {
            0
        } else if interval > 16 {
            15
        } else {
            interval - 1
        }),
        speed < 3 ==> pow2(exponent as nat) <= 8 * (if interval == 0 {
            1
        } else {
            interval as int
        }) < pow2((exponent + 1) as nat),
{
    if speed >= 3 {
        let exponent: u8 = interval.saturating_sub(1);
        if exponent < 15 {
            exponent
        } else {
            15
        }
    } else {
        let frames: u16 = if interval == 0 {
            1
        } else {
            interval as u16
        };
        let microframes: u16 = frames * 8;
        let mut exponent: u8 = 0;
        let mut value: u16 = 1;
        proof {
            vstd::arithmetic::power2::lemma2_to64();
        }
        while value <= microframes / 2 && exponent < 15
            invariant
                value == pow2(exponent as nat),
                value <= microframes,
                1 <= microframes <= 2040,
                exponent <= 11,
            decreases 15 - exponent,
        {
            proof {
                vstd::arithmetic::power2::lemma_pow2_unfold((exponent + 1) as nat);
                vstd::arithmetic::power2::lemma2_to64();
            }
            value = value * 2;
            exponent += 1;
            assert(exponent <= 11) by {
                if exponent > 11 {
                    assert(exponent == 12);
                }
            }
        }
        proof {
            vstd::arithmetic::power2::lemma_pow2_unfold((exponent + 1) as nat);
        }
        exponent
    }
}

} // verus!
