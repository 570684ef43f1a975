//! What descriptors and flows on the bus come to.
use vstd::prelude::*;

use crate::bytes::le16_at;

use super::descriptors::{
    configuration_spec, descriptor_step, endpoint_id_spec, endpoint_step, finish_spec, hid_step,
    hub_descriptor_spec, interface_step, report_length_after, scan_from, DescriptorError,
    InterruptEndpoint, ParsedHidInterface, PendingInterface, ScanState,
};
use super::device::{interface_kind_spec, HidInterfaceKind};

verus! {

/// At this place stand an interface descriptor of class HID, the HID descriptor with the
/// length of its report descriptor, and the descriptor of an interrupt endpoint towards the
/// host.
pub open spec fn hid_function_at(bytes: Seq<u8>, at: int) -> bool {
    &&& at + 25 <= bytes.len()
    &&& bytes[at] == 9 && bytes[at + 1] == 4 && bytes[at + 3] == 0 && bytes[at + 5] == 3
    &&& bytes[at + 9] == 9 && bytes[at + 10] == 0x21 && bytes[at + 14] == 1 && bytes[at + 15] == 0x22
    &&& 0 < le16_at(bytes, at + 16) <= 4096
    &&& bytes[at + 18] == 7 && bytes[at + 19] == 5
    &&& bytes[at + 20] >= 0x80 && bytes[at + 21] % 4 == 3
    &&& le16_at(bytes, at + 22) % 2048 != 0
    &&& le16_at(bytes, at + 22) / 2048 % 4 != 3
}

/// The interface is the one that stands at this place: each of its values is that of the byte
/// that the bus assigns to it.
pub open spec fn reads_as(bytes: Seq<u8>, at: int, interface: ParsedHidInterface) -> bool {
    &&& interface.interface_number == bytes[at + 2]
    &&& interface.subclass == bytes[at + 6]
    &&& interface.protocol == bytes[at + 7]
    &&& interface.report_descriptor_length == bytes[at + 16] + 256 * bytes[at + 17]
    &&& interface.endpoint_address == bytes[at + 20]
    &&& interface.max_packet_size == (bytes[at + 22] + 256 * bytes[at + 23]) % 2048
    &&& interface.max_burst == (bytes[at + 22] + 256 * bytes[at + 23]) / 2048 % 4
    &&& interface.max_esit_payload == interface.max_packet_size * (interface.max_burst + 1)
    &&& interface.interval == bytes[at + 24]
}

/// One HID function takes the scan past it: what was pending is finished, and the function is
/// pending.
proof fn lemma_function(bytes: Seq<u8>, at: int, state: ScanState, finished: Seq<ParsedHidInterface>)
    requires
        0 <= at,
        hid_function_at(bytes, at),
        finish_spec(state.pending, state.finished) == Ok::<
            Seq<ParsedHidInterface>,
            DescriptorError,
        >(finished),
    ensures
        ({
            let packet = le16_at(bytes, at + 22) % 2048;
            let burst = le16_at(bytes, at + 22) / 2048 % 4;
            let next = ScanState {
                hub_protocol: state.hub_protocol,
                pending: Some(
                    PendingInterface {
                        number: bytes[at + 2],
                        subclass: bytes[at + 6],
                        protocol: bytes[at + 7],
                        report_length: Some(le16_at(bytes, at + 16) as usize),
                        endpoint: Some(
                            InterruptEndpoint {
                                address: bytes[at + 20],
                                max_packet_size: packet as u16,
                                max_burst: burst as u8,
                                max_esit_payload: (packet * (burst + 1)) as usize,
                                interval: bytes[at + 24],
                            },
                        ),
                    },
                ),
                finished,
            };
            scan_from(bytes, at, state) == scan_from(bytes, at + 25, next)
        }),
{
    let first = bytes.subrange(at, at + 9);
    let second = bytes.subrange(at + 9, at + 18);
    let third = bytes.subrange(at + 18, at + 25);
    let one = interface_step(state, first)->Ok_0;
    assert(descriptor_step(state, first) == Ok::<ScanState, DescriptorError>(one));
    assert(scan_from(bytes, at, state) == scan_from(bytes, at + 9, one));
    assert(le16_at(second, 7) == le16_at(bytes, at + 16));
    assert(second[5] == 1);
    assert(second[6] == 0x22);
    assert(report_length_after(second, 0, None) == Ok::<Option<usize>, DescriptorError>(None));
    assert(report_length_after(second, 1, None) == Ok::<Option<usize>, DescriptorError>(
        Some(le16_at(bytes, at + 16) as usize),
    ));
    let two = hid_step(one, second)->Ok_0;
    assert(descriptor_step(one, second) == Ok::<ScanState, DescriptorError>(two));
    assert(scan_from(bytes, at + 9, one) == scan_from(bytes, at + 18, two));
    assert(le16_at(third, 4) == le16_at(bytes, at + 22));
    let three = endpoint_step(two, third)->Ok_0;
    assert(descriptor_step(two, third) == Ok::<ScanState, DescriptorError>(three));
    assert(scan_from(bytes, at + 18, two) == scan_from(bytes, at + 25, three));
}

/// The scan from one function on.
proof fn lemma_functions(bytes: Seq<u8>, count: int, from: int, state: ScanState, finished: Seq<ParsedHidInterface>)
    requires
        0 <= from <= count,
        bytes.len() == 9 + 25 * count,
        forall|i: int| 0 <= i < count ==> #[trigger] hid_function_at(bytes, 9 + 25 * i),
        finish_spec(state.pending, state.finished) == Ok::<
            Seq<ParsedHidInterface>,
            DescriptorError,
        >(finished),
        finished.len() == from,
        forall|i: int| 0 <= i < from ==> reads_as(bytes, 9 + 25 * i, #[trigger] finished[i]),
    ensures
        ({
            let end = scan_from(bytes, 9 + 25 * from, state);
            &&& end matches Ok(end)
            &&& end.hub_protocol == state.hub_protocol
            &&& finish_spec(end.pending, end.finished) matches Ok(interfaces)
            &&& interfaces.len() == count
            &&& forall|i: int|
                0 <= i < count ==> reads_as(bytes, 9 + 25 * i, #[trigger] interfaces[i])
        }),
    decreases count - from,
{
    if from < count {
        let at = 9 + 25 * from;
        assert(hid_function_at(bytes, at));
        lemma_function(bytes, at, state, finished);
        let packet = le16_at(bytes, at + 22) % 2048;
        let burst = le16_at(bytes, at + 22) / 2048 % 4;
        let next = ScanState {
            hub_protocol: state.hub_protocol,
            pending: Some(
                PendingInterface {
                    number: bytes[at + 2],
                    subclass: bytes[at + 6],
                    protocol: bytes[at + 7],
                    report_length: Some(le16_at(bytes, at + 16) as usize),
                    endpoint: Some(
                        InterruptEndpoint {
                            address: bytes[at + 20],
                            max_packet_size: packet as u16,
                            max_burst: burst as u8,
                            max_esit_payload: (packet * (burst + 1)) as usize,
                            interval: bytes[at + 24],
                        },
                    ),
                },
            ),
            finished,
        };
        let more = finish_spec(next.pending, finished)->Ok_0;
        assert(0 < packet * (burst + 1) <= 2047 * 4) by (nonlinear_arith)
            requires
                0 < packet <= 2047,
                0 <= burst <= 3,
        ;
        assert(more.len() == from + 1);
        assert forall|i: int| 0 <= i < from + 1 implies reads_as(
            bytes,
            9 + 25 * i,
            #[trigger] more[i],
        ) by {
            if i < from {
                assert(more[i] == finished[i]);
            }
        }
        lemma_functions(bytes, count, from + 1, next, more);
    }
}

/// A configuration that is made of HID functions, however many, is read back as it stands:
/// each interface in its order, with its number, subclass and protocol, the length of its
/// report descriptor and its interrupt endpoint taken from the bytes that the bus assigns to
/// them. What follows the length that the configuration declares does not matter.
pub proof fn law_configurations_read_as_they_stand(bytes: Seq<u8>, count: int)
    requires
        0 <= count,
        bytes.len() >= 9 + 25 * count,
        bytes[0] == 9,
        bytes[1] == 2,
        bytes[2] + 256 * bytes[3] == 9 + 25 * count,
        bytes[5] != 0,
        forall|i: int| 0 <= i < count ==> #[trigger] hid_function_at(bytes, 9 + 25 * i),
    ensures
        configuration_spec(bytes) matches Ok(parsed) && {
            &&& parsed.0 == bytes[5]
            &&& parsed.1 is None
            &&& parsed.2.len() == count
            &&& forall|i: int|
                0 <= i < count ==> reads_as(bytes, 9 + 25 * i, #[trigger] parsed.2[i])
        },
{
    let all = bytes.take(9 + 25 * count);
    let start = ScanState { hub_protocol: None, pending: None, finished: Seq::empty() };
    let first = all.subrange(0, 9);
    assert(descriptor_step(start, first) == Ok::<ScanState, DescriptorError>(start));
    assert(scan_from(all, 0, start) == scan_from(all, 9, start));
    assert forall|i: int| 0 <= i < count implies #[trigger] hid_function_at(all, 9 + 25 * i) by {
        assert(hid_function_at(bytes, 9 + 25 * i));
    }
    lemma_functions(all, count, 0, start, Seq::empty());
    let parsed = configuration_spec(bytes)->Ok_0;
    assert forall|i: int| 0 <= i < count implies reads_as(
        bytes,
        9 + 25 * i,
        #[trigger] parsed.2[i],
    ) by {
        assert(reads_as(all, 9 + 25 * i, parsed.2[i]));
    }
}

/// The interface of a boot mouse is a mouse, that of a boot keyboard a keyboard, and no other
/// interface is either.
pub proof fn law_boot_interfaces_are_told_apart(bytes: Seq<u8>, count: int, i: int)
    requires
        0 <= i < count,
        bytes.len() >= 9 + 25 * count,
        bytes[0] == 9,
        bytes[1] == 2,
        bytes[2] + 256 * bytes[3] == 9 + 25 * count,
        bytes[5] != 0,
        forall|j: int| 0 <= j < count ==> #[trigger] hid_function_at(bytes, 9 + 25 * j),
    ensures
        ({
            let interface = configuration_spec(bytes)->Ok_0.2[i];
            let kind = interface_kind_spec(interface.subclass as int, interface.protocol as int);
            let at = 9 + 25 * i;
            &&& kind == HidInterfaceKind::Mouse <==> bytes[at + 6] == 1 && bytes[at + 7] == 2
            &&& kind == HidInterfaceKind::Keyboard <==> bytes[at + 6] == 1 && bytes[at + 7] == 1
        }),
{
    law_configurations_read_as_they_stand(bytes, count);
    assert(reads_as(bytes, 9 + 25 * i, configuration_spec(bytes)->Ok_0.2[i]));
}

/// A configuration whose only interface is that of a hub tells the protocol of the hub.
pub proof fn law_hub_configurations_tell_their_protocol(bytes: Seq<u8>)
    requires
        bytes.len() >= 18,
        bytes[0] == 9,
        bytes[1] == 2,
        bytes[2] == 18 && bytes[3] == 0,
        bytes[5] != 0,
        bytes[9] == 9,
        bytes[10] == 4,
        bytes[12] == 0,
        bytes[14] == 9,
    ensures
        configuration_spec(bytes) matches Ok(parsed) && {
            &&& parsed.0 == bytes[5]
            &&& parsed.1 == Some(bytes[16])
            &&& parsed.2.len() == 0
        },
{
    let all = bytes.take(18);
    let start = ScanState { hub_protocol: None, pending: None, finished: Seq::empty() };
    assert(descriptor_step(start, all.subrange(0, 9)) == Ok::<ScanState, DescriptorError>(start));
    assert(scan_from(all, 0, start) == scan_from(all, 9, start));
    let second = all.subrange(9, 18);
    let one = interface_step(start, second)->Ok_0;
    assert(descriptor_step(start, second) == Ok::<ScanState, DescriptorError>(one));
    assert(scan_from(all, 9, start) == scan_from(all, 18, one));
    assert(scan_from(all, 18, one) == Ok::<ScanState, DescriptorError>(one));
}

/// A hub descriptor that is taken tells the number of ports, the characteristics and the time
/// that power takes from the bytes that the bus assigns to them, two milliseconds a step; it is
/// taken exactly where it is long enough, of the type of its kind of hub, and has ports.
pub proof fn law_hub_descriptors_read_as_they_stand(bytes: Seq<u8>, superspeed: bool)
    ensures
        ({
            let least = if superspeed {
                12int
            } else {
                7
            };
            let kind = if superspeed {
                0x2aint
            } else {
                0x29
            };
            &&& hub_descriptor_spec(bytes, superspeed) is Ok <==> bytes.len() >= least && least
                <= bytes[0] <= bytes.len() && bytes[1] == kind && bytes[2] > 0
            &&& hub_descriptor_spec(bytes, superspeed) matches Ok(hub) ==> {
                &&& hub.ports == bytes[2]
                &&& hub.characteristics == bytes[3] + 256 * bytes[4]
                &&& hub.power_good_ms == 2 * bytes[5]
            }
        }),
{
}

/// An endpoint towards the host has the odd number after twice its own; two of them have one
/// number exactly where they are one.
pub proof fn law_endpoints_are_numbered_apart(left: int, right: int)
    requires
        0 <= left < 256,
        0 <= right < 256,
    ensures
        endpoint_id_spec(left) is Ok <==> left >= 128 && left % 16 != 0,
        endpoint_id_spec(left) is Ok ==> endpoint_id_spec(left)->Ok_0 == 2 * (left % 16) + 1,
        endpoint_id_spec(left) is Ok && endpoint_id_spec(right) is Ok ==> (endpoint_id_spec(left)
            == endpoint_id_spec(right) <==> left % 16 == right % 16),
{
}

} // verus!
