//! What the steps by which a controller is brought up and devices and hubs are enumerated ask for,
//! by the bytes and words that they are answered with.
use vstd::prelude::*;


use super::bringup::{bringup_post, Bringup, BringupReply, BringupRequest};
use super::controller::{
    bit_set, detected_frequency, CpuidFrequency, PortStatus, RegisterStep, TimestampClock,
    PORT_CONNECTED, PORT_ENABLED, PORT_POWER,
};
use super::descriptors::{
    configuration_spec, endpoint_id_spec, hub_descriptor_spec, DescriptorError,
};
use super::device::UsbDevice;
use super::error::UsbError;
use super::host::UsbHost;
use super::hub::{
    describe_post, visit_begun, visit_post, DescribeRequest, HubDescription, HubReply, HubVisit,
    HubWalk, VisitRequest,
};
use super::page::{apply_writes, DmaPage, PageWrite, PAGE_WORDS};
use super::path::{
    child_spec, deepest_first, descends, is_teardown_order, subtree_keys, UsbPath,
};
use super::populate::{populate_post, PopulateReply, PopulateRequest, Population};
use super::slot::{slot_post, SlotReply, SlotRequest, SlotSetup};

verus! {

/// The request reads a descriptor of this kind: so many bytes, of the device or of an interface.
pub open spec fn reads_descriptor(
    request: PopulateRequest,
    interface: bool,
    kind: int,
    index: int,
    length: int,
) -> bool {
    &&& request matches PopulateRequest::Control(r)
    &&& r.request_type == (if interface {
        0x81int
    } else {
        0x80
    })
    &&& r.request == 6
    &&& r.value == 256 * kind
    &&& r.index == index
    &&& r.length == length
    &&& r.data_in
}

/// The request has no data: what it is for, what it asks, its value and its index.
pub open spec fn orders(
    request: PopulateRequest,
    request_type: int,
    asked: int,
    value: int,
    index: int,
) -> bool {
    &&& request matches PopulateRequest::Control(r)
    &&& r.request_type == request_type
    &&& r.request == asked
    &&& r.value == value
    &&& r.index == index
    &&& r.length == 0
    &&& !r.data_in
}

/// A device is asked for its device descriptor, first the part that tells its packets and then
/// whole, for its configuration, first the part that tells its length and then whole, and is then
/// set to that configuration. What identifies it is taken from where its descriptor holds it.
#[verifier::rlimit(40)]
pub proof fn law_devices_are_asked_what_they_are(
    before: Population,
    after: Population,
    old_device: UsbDevice,
    device: UsbDevice,
    old_id: u32,
    next_id: u32,
    reply: PopulateReply,
    request: PopulateRequest,
)
    requires
        populate_post(before, after, old_device, device, old_id, next_id, reply, request),
    ensures
        reply matches PopulateReply::Bytes(bytes) ==> {
            let b = bytes@;
            &&& next_id == old_id
            &&& before.phase is Header && (b.len() < 8 || b[1] != 1) ==> request
                == (PopulateRequest::Failed {
                error: UsbError::Descriptor(DescriptorError::InvalidType),
                returned: None,
            })
            &&& before.phase is Header && after.phase is Device ==> reads_descriptor(
                request,
                false,
                1,
                0,
                18,
            ) && b.len() >= 8 && b[1] == 1
            &&& before.phase is Header && after.phase is PacketEvaluated ==> request
                is EvaluateContext && b.len() >= 8 && b[1] == 1
            &&& before.phase is Device && after.phase is ConfigurationHeader ==> {
                &&& reads_descriptor(request, false, 2, 0, 9)
                &&& b.len() >= 18 && b[0] >= 18 && b[1] == 1
                &&& after.identity.class == b[4]
                &&& after.identity.protocol == b[6]
                &&& after.identity.vendor_id == b[8] + 256 * b[9]
                &&& after.identity.product_id == b[10] + 256 * b[11]
            }
            &&& before.phase is Device && !(after.phase is ConfigurationHeader) ==> request
                is Failed && (b.len() < 18 || b[0] < 18 || b[1] != 1)
            &&& before.phase is ConfigurationHeader && after.phase is Configuration ==> {
                &&& b.len() >= 9 && b[1] == 2
                &&& reads_descriptor(request, false, 2, 0, b[2] + 256 * b[3])
                &&& b[2] + 256 * b[3] >= 9
            }
            &&& before.phase is Configuration && after.phase is Configured ==> {
                &&& configuration_spec(b) matches Ok(parsed)
                &&& orders(request, 0, 9, parsed.0 as int, 0)
                &&& after.interfaces@ == parsed.2
                &&& after.hub_protocol == if before.identity.class == 9 {
                    Some(before.identity.protocol)
                } else {
                    parsed.1
                }
                &&& parsed.2.len() + before.installed_interfaces <= 32
            }
            &&& before.phase is Report && !(request is Failed) ==> {
                let hid = before.interfaces@[before.next as int];
                &&& b.len() > 0
                &&& after.report_descriptor@ == b
                &&& hid.subclass == 1 && (hid.protocol == 1 || hid.protocol == 2) ==> orders(
                    request,
                    0x21,
                    11,
                    1,
                    hid.interface_number as int,
                ) && after.phase is Protocol
                &&& !(hid.subclass == 1 && (hid.protocol == 1 || hid.protocol == 2)) ==> request
                    is AcquirePage && after.phase is Ring
            }
        },
        reply is Done && before.phase is PacketEvaluated ==> reads_descriptor(request, false, 1, 0, 18),
        reply matches PopulateReply::Failed(error) ==> (request matches PopulateRequest::Failed {
            error: told,
            returned,
        } && told == error && (returned is Some <==> before.phase is Buffer) && (
        before.phase is Buffer ==> returned->Some_0 == before.ring->Some_0.page)),
{
}

/// A hub that is configured is described before its interfaces are; every other device goes on to
/// its interfaces, under a number of its own. The report descriptor of an interface is read in the
/// length that its configuration gives.
#[verifier::rlimit(40)]
pub proof fn law_configured_devices_go_on_to_their_interfaces(
    before: Population,
    after: Population,
    old_device: UsbDevice,
    device: UsbDevice,
    old_id: u32,
    next_id: u32,
    request: PopulateRequest,
)
    requires
        populate_post(
            before,
            after,
            old_device,
            device,
            old_id,
            next_id,
            PopulateReply::Done,
            request,
        ),
        before.phase is Configured,
    ensures
        before.hub_protocol matches Some(protocol) ==> request == (PopulateRequest::DescribeHub {
            superspeed: old_device.speed >= 4,
            protocol,
        }) && next_id == old_id && device == old_device,
        before.hub_protocol is None ==> {
            &&& after.device_id == old_id
            &&& next_id == (old_id + 1) % 0x1_0000_0000
            &&& after.next == 0
            &&& after.interfaces == before.interfaces
            &&& before.interfaces@.len() > 0 && before.interfaces@[0].report_descriptor_length
                <= 4096 ==> reads_descriptor(
                request,
                true,
                0x22,
                before.interfaces@[0].interface_number as int,
                before.interfaces@[0].report_descriptor_length as int,
            ) && after.phase is Report
            &&& before.interfaces@.len() == 0 && old_device.interfaces@.len() == 0 ==> request
                is Finished
        },
{
}

/// An interface that is attached is told of by what its device and its configuration say of it,
/// and receives into the page that came for it.
#[verifier::rlimit(40)]
pub proof fn law_attached_interfaces_are_what_was_configured(
    before: Population,
    after: Population,
    old_device: UsbDevice,
    device: UsbDevice,
    old_id: u32,
    next_id: u32,
    page: DmaPage,
    request: PopulateRequest,
)
    requires
        populate_post(
            before,
            after,
            old_device,
            device,
            old_id,
            next_id,
            PopulateReply::Page(page),
            request,
        ),
        before.phase is Buffer,
        before.next < usize::MAX,
    ensures
        ({
            let hid = before.interfaces@[before.next as int];
            let place = old_device.interfaces@.len() as int;
            let state = device.interfaces@[place];
            &&& device.interfaces@.len() == place + 1
            &&& forall|i: int|
                0 <= i < place ==> #[trigger] device.interfaces@[i] == old_device.interfaces@[i]
            &&& after.next == before.next + 1
            &&& state.info.id.device == before.device_id
            &&& state.info.id.interface == hid.interface_number
            &&& state.info.slot_id == old_device.slot_id
            &&& state.info.root_port == old_device.path.root_port
            &&& state.info.vendor_id == before.identity.vendor_id
            &&& state.info.product_id == before.identity.product_id
            &&& state.info.interface_subclass == hid.subclass
            &&& state.info.interface_protocol == hid.protocol
            &&& state.info.endpoint_address == hid.endpoint_address
            &&& state.info.kind is Keyboard <==> hid.subclass == 1 && hid.protocol == 1
            &&& state.info.kind is Mouse <==> hid.subclass == 1 && hid.protocol == 2
            &&& state.report_descriptor@ == before.report_descriptor@
            &&& endpoint_id_spec(hid.endpoint_address as int) == Ok::<u8, UsbError>(
                state.endpoint_id,
            )
            &&& state.max_packet_size == hid.max_packet_size
            &&& state.max_burst == hid.max_burst
            &&& state.max_esit_payload == hid.max_esit_payload
            &&& state.buffer == page
            &&& state.buffer_len == hid.max_esit_payload
            &&& Some(state.ring) == before.ring
            &&& state.active
            &&& device.slot_id == old_device.slot_id && device.path == old_device.path
            &&& device.speed >= 3 && hid.interval >= 1 && hid.interval <= 16 ==> state.interval
                == hid.interval - 1
        }),
{
    let grown = choose|grown: UsbDevice|
        {
            &&& #[trigger] super::populate::grew(old_device, grown)
            &&& super::populate::attached(
                grown.interfaces@.last(),
                before.interfaces@[before.next as int],
                before,
                old_device,
                page,
            )
            &&& after == (Population {
                phase: after.phase,
                next: (before.next + 1) as usize,
                report_descriptor: after.report_descriptor,
                ring: None,
                ..before
            })
            &&& after.report_descriptor@.len() == 0
            &&& super::populate::continues_with_interface(after, grown, device, request)
        };
    assert(super::populate::grew(old_device, grown));
    assert(grown.interfaces@.last() == grown.interfaces@[old_device.interfaces@.len() as int]);
}

/// The command is one of this kind for this slot.
pub open spec fn commands(request: SlotRequest, kind: int, slot: u8) -> bool {
    request matches SlotRequest::Command(trb) && trb.control as int / 0x400 % 64 == kind
        && trb.control as int / 0x100_0000 == slot
}

/// A slot is given back where it cannot be used. One that can is given four pages, and its device
/// is then addressed by the context that the second of them holds, once the controller was told
/// where its own is, in the place of the slot.
#[verifier::rlimit(60)]
pub proof fn law_slots_are_filled_or_given_back<P>(
    before: SlotSetup,
    after: SlotSetup,
    hosts: (UsbHost<P>, UsbHost<P>),
    tables: (DmaPage, DmaPage),
    reply: SlotReply,
    request: SlotRequest,
)
    requires
        slot_post(before, after, hosts, tables, reply, request),
        tables.0.words@.len() == PAGE_WORDS,
        hosts.0.layout.max_slots <= 16,
    ensures
        ({
            let max_slots = hosts.0.layout.max_slots;
            &&& before is Enable ==> (reply matches SlotReply::Completed(slot) ==> {
                &&& slot == 0 ==> request == SlotRequest::Failed(UsbError::InvalidSlot)
                &&& slot > max_slots ==> commands(request, 10, slot) && after is Refuse
                &&& 0 < slot <= max_slots ==> request is AcquirePage && (
                after matches SlotSetup::Pages { placement, slot: own, pages } && own == slot
                    && pages@.len() == 0 && placement == before->Enable_placement)
            })
            &&& reply matches SlotReply::Failed(error) ==> {
                &&& before is Enable ==> request == SlotRequest::Failed(error)
                &&& before matches SlotSetup::Pages { slot, .. } ==> commands(request, 10, slot)
                &&& before matches SlotSetup::Address { device } ==> commands(
                    request,
                    10,
                    device.slot_id,
                )
                &&& before matches SlotSetup::AbandonSlot { slot, error: first } ==> request
                    == SlotRequest::Failed(first) && hosts.1.quarantined_slots@
                    == hosts.0.quarantined_slots@.push(slot) && tables.1 == tables.0
                &&& before matches SlotSetup::AbandonDevice { device, error: first } ==> request
                    == SlotRequest::Failed(first) && hosts.1.quarantined_devices@
                    == hosts.0.quarantined_devices@.push(device) && tables.1 == tables.0
            }
            &&& before is Pages ==> (reply matches SlotReply::Page(page) ==> {
                let slot = before->Pages_slot;
                let pages = before->Pages_pages@.push(page);
                &&& pages.len() < 4 ==> request is AcquirePage && tables.1 == tables.0
                &&& pages.len() == 4 && 0 < slot <= max_slots ==> {
                    &&& commands(request, 11, slot)
                    &&& request->Command_0.parameter == pages[1].physical
                    &&& tables.1.words@[2 * slot as int] + 0x1_0000_0000 * tables.1.words@[2
                        * slot as int + 1] == pages[0].physical
                    &&& forall|i: int|
                        0 <= i < PAGE_WORDS && i != 2 * slot && i != 2 * slot + 1
                            ==> #[trigger] tables.1.words@[i] == tables.0.words@[i]
                    &&& after matches SlotSetup::Address { device }
                    &&& device.slot_id == slot
                    &&& device.output_context == pages[0]
                    &&& device.control_buffer == pages[2]
                    &&& device.ep0_ring.page.physical == pages[3].physical
                    &&& device.path == before->Pages_placement.path
                    &&& device.speed == before->Pages_placement.speed
                    &&& device.parent_slot_id == before->Pages_placement.parent_slot_id
                    &&& device.parent_port == before->Pages_placement.parent_port
                    &&& device.tt == before->Pages_placement.tt
                }
            })
            &&& before matches SlotSetup::Address { device } ==> (reply is Completed ==> (
            after matches SlotSetup::Populate { device: same, population } && same == device
                && population.phase is Header && population.installed_interfaces
                == hosts.0.active().len()) && (request matches SlotRequest::Populate(asked)
                && reads_descriptor(asked, false, 1, 0, 8)))
            &&& before matches SlotSetup::AbandonDevice { device, error } ==> (reply is Completed
                ==> hosts.1.dma_pool.pages@ == hosts.0.dma_pool.pages@ + device.pages() && request
                == SlotRequest::Failed(error))
        }),
{
    if before is Pages && reply is Page {
        let slot = before->Pages_slot;
        let pages = before->Pages_pages@.push(reply->Page_0);
        if pages.len() == 4 && 0 < slot <= hosts.0.layout.max_slots {
            let write = PageWrite::Double { offset: (8 * slot) as usize, wide: pages[0].physical };
            let writes = seq![write];
            assert(writes.drop_last() =~= Seq::<PageWrite>::empty());
            assert(writes.last() == write);
            assert(apply_writes(tables.0.words@, writes.drop_last()) == tables.0.words@);
            assert(tables.1.words@ == super::page::apply_write(tables.0.words@, write));
        }
    }
}

/// A controller is claimed from the firmware if that has it, and its legacy interrupts are switched
/// off; each of its protocols tells the slot type of its ports; its capabilities follow one another
/// until the last. It is then stopped and reset.
#[verifier::rlimit(60)]
pub proof fn law_capabilities_are_walked_in_order(
    before: Bringup,
    after: Bringup,
    word: u32,
    request: BringupRequest,
)
    requires
        bringup_post(before, after, BringupReply::Word(word), request),
        before.walk.offset <= 0x10_0000,
        before.walk.visited < 64,
        before.layout.operational <= 0xff,
    ensures
        ({
            let here = before.walk.offset;
            let next = here + 4 * (word as int / 0x100 % 256);
            &&& before.phase is Header && word % 256 == 1 ==> {
                &&& request matches BringupRequest::Run(steps)
                &&& steps@.len() == 2
                &&& steps@[0] matches RegisterStep::Write { offset, value } && offset == here
                    && value / 0x100_0000 % 2 == 1 && value % 0x100_0000 == word % 0x100_0000
                &&& word as int / 0x1_0000 % 2 == 1 ==> after.phase is Claim && steps@[1]
                    == RegisterStep::Settle { offset: here, mask: 0x1_0000, set: false }
                &&& word as int / 0x1_0000 % 2 == 0 ==> after.phase is Disown && steps@[1]
                    == RegisterStep::Write { offset: (here + 4) as u64, value: 0 }
            }
            &&& before.phase is Header && word % 256 == 2 ==> request == (BringupRequest::Read {
                offset: (here + 8) as u64,
            }) && after.phase is Ports
            &&& before.phase is Header && word % 256 > 2 && word as int / 0x100 % 256 != 0
                && before.walk.visited < 63 ==> request == (BringupRequest::Read {
                offset: next as u64,
            }) && after.phase is Header && after.walk.visited == before.walk.visited + 1
            &&& before.phase is Header && word % 256 > 2 && word as int / 0x100 % 256 == 0
                ==> request == (BringupRequest::Read { offset: before.layout.operational })
                && after.phase is Command
            &&& before.phase is Ports ==> request == (BringupRequest::Read {
                offset: (here + 12) as u64,
            }) && after.ports == word
            &&& before.phase is SlotType ==> after.port_slot_types@.len() == before.layout.max_ports
                && forall|i: int|
                0 <= i < before.layout.max_ports && before.ports as int % 256 <= i + 1 && i + 1
                    < before.ports as int % 256 + before.ports as int / 256 % 256 && i + 1 < 255
                    ==> #[trigger] after.port_slot_types@[i] == word % 32
            &&& before.phase is PageSize && word % 2 == 0 ==> request == BringupRequest::Failed(
                UsbError::UnsupportedPageSize,
            )
            &&& before.phase is PageSize && word % 2 == 1 ==> request is AcquirePage
                && after.phase is Dcbaa
            &&& before.phase is Claimed && word as int / 0x1_0000 % 2 == 1 ==> request
                == BringupRequest::Failed(UsbError::ControllerTimeout)
        }),
{
    assert((word | (1u32 << 24)) / 0x100_0000 % 2 == 1 && (word | (1u32 << 24)) % 0x100_0000
        == word % 0x100_0000) by (bit_vector);
}

/// The pages that come for a controller are used in this order: its array of contexts, the ring of
/// its commands, the ring of its events, the segments of that, and its scratchpads.
#[verifier::rlimit(40)]
pub proof fn law_pages_go_where_they_are_needed(
    before: Bringup,
    after: Bringup,
    page: DmaPage,
    request: BringupRequest,
)
    requires
        bringup_post(before, after, BringupReply::Page(page), request),
    ensures
        before.phase is Dcbaa ==> after.dcbaa == Some(page) && after.phase is CommandRing,
        before.phase is CommandRing ==> (after.command_ring matches Some(ring) && ring.page.physical
            == page.physical && ring.enqueue_index == 0 && ring.cycle) && after.phase is EventRing
            && after.dcbaa == before.dcbaa,
        before.phase is EventRing ==> (after.event_ring matches Some(ring) && ring.page == page
            && ring.dequeue_index == 0 && ring.cycle) && after.phase is Segments,
        before.phase is Segments ==> (after.segments matches Some(table) && table.physical
            == page.physical),
        before.phase is ScratchArray ==> after.scratch_array == Some(page),
        before.phase is Scratchpad ==> after.scratchpads@ == before.scratchpads@.push(page),
        before.phase is Dcbaa || before.phase is CommandRing || before.phase is EventRing
            || before.phase is ScratchArray ==> request is AcquirePage,
        before.phase is Scratchpad && before.scratchpads@.len() + 1 < before.scratchpad_count
            ==> request is AcquirePage,
        before.phase is Scratchpad && before.scratchpads@.len() + 1 >= before.scratchpad_count
            ==> request is Run && after.phase is Program,
{
}

/// A hub is asked for its whole descriptor once it has told the length of it; then each of its ports
/// is powered, from the first to the last, and the hub is ready once the power is good.
#[verifier::rlimit(40)]
pub proof fn law_hubs_are_powered_port_by_port(
    before: HubDescription,
    after: HubDescription,
    clock: TimestampClock,
    now: u64,
    reply: HubReply,
    request: DescribeRequest,
)
    requires
        describe_post(before, after, clock, now, reply, request),
    ensures
        ({
            let powers = |port: int|
                request matches DescribeRequest::Control(r) && r.request_type == 0x23 && r.request
                    == 3 && r.value == 8 && r.index == port && r.length == 0 && !r.data_in;
            &&& reply matches HubReply::Bytes(bytes) ==> {
                let more = before.phase is Short && bytes@.len() > 0 && bytes@[0] > bytes@.len();
                &&& more ==> (request matches DescribeRequest::Control(r) && r.request_type == 0xa0
                    && r.request == 6 && r.length == bytes@[0] && r.data_in && r.value == (
                if before.superspeed {
                    0x2a00int
                } else {
                    0x2900
                }))
                &&& !more && hub_descriptor_spec(bytes@, before.superspeed) is Ok ==> powers(1)
                    && after.port == 1 && after.phase is Power && after.descriptor
                    == hub_descriptor_spec(bytes@, before.superspeed)->Ok_0
                &&& !more && hub_descriptor_spec(bytes@, before.superspeed) is Err ==> request
                    is Failed
            }
            &&& reply is Done && !(before.phase is Settle) && before.port < before.descriptor.ports
                ==> powers(before.port + 1) && after.port == before.port + 1
            &&& reply is Done && !(before.phase is Settle) && before.port >= before.descriptor.ports
                ==> after.phase is Settle && (request matches DescribeRequest::WaitUntil(time) && (
            now + clock.frequency * before.descriptor.power_good_ms / 1000 <= u64::MAX
                && clock.frequency * before.descriptor.power_good_ms <= u64::MAX ==> time == now
                + clock.frequency * before.descriptor.power_good_ms / 1000))
            &&& reply is Done && before.phase is Settle ==> (request matches DescribeRequest::Finished(
                hub,
            ) && hub.ports == before.descriptor.ports && hub.characteristics
                == before.descriptor.characteristics && hub.superspeed == before.superspeed
                && hub.protocol == before.protocol && hub.next_port == 1)
            &&& reply matches HubReply::Failed(error) ==> request == DescribeRequest::Failed(error)
        }),
{
}

/// A visit to a port of a hub first asks for its status. Each of its changes is acknowledged at that
/// port. A port that has lost its device has it taken down; one that has gained one is reset, and
/// asked for its status until it is enabled; what is then enumerated stands at the path of the port,
/// below the hub.
#[verifier::rlimit(60)]
pub proof fn law_visits_follow_the_port<P>(
    before: HubVisit,
    after: HubVisit,
    hosts: (UsbHost<P>, UsbHost<P>),
    clock: TimestampClock,
    now: u64,
    reply: HubReply,
    request: VisitRequest,
)
    requires
        visit_post(before, after, hosts, clock, now, reply, request),
    ensures
        ({
            let hub = hosts.0.devices@[before.hub_index as int];
            let asks = |asked: int, value: int|
                request matches VisitRequest::Control(r) && r.request_type == 0x23 && r.request
                    == asked && r.value == value && r.index == before.port && r.length == 0
                    && !r.data_in;
            &&& reply matches HubReply::Bytes(bytes) ==> {
                let b = bytes@;
                &&& b.len() < 4 ==> request is Finished
                &&& b.len() >= 4 ==> after.status.status == b[0] + 256 * b[1]
                    && after.status.change == b[2] + 256 * b[3]
                &&& b.len() >= 4 && after.features@.len() > 0 ==> asks(1, after.features@[0] as int)
                &&& b.len() >= 4 && after.features@.len() == 0 && !before.resetting ==> {
                    let connected = b[0] % 2 == 1;
                    let present = hosts.0.has_child(hub.slot_id, before.port);
                    &&& !connected && present ==> request == VisitRequest::Teardown(before.path)
                    &&& !connected && !present ==> request is Finished
                    &&& connected && present ==> request is Finished
                    &&& connected && !present && before.resources && hosts.0.occupied() < 16
                        ==> asks(3, 4) && after.phase is Reset
                }
            }
            &&& reply is Done && !(before.phase is Clear) && now < super::hub::too_long_at(clock, now)
                ==> after.resetting && (request matches VisitRequest::Control(r) && r.request_type
                == 0xa3 && r.request == 0 && r.index == before.port && r.length == 4 && r.data_in)
            &&& request matches VisitRequest::Enumerate(placement) ==> {
                &&& placement.path == before.path
                &&& placement.parent_slot_id == Some(hub.slot_id)
                &&& placement.parent_port == Some(before.port)
                &&& placement.speed > 2 ==> placement.tt is None
            }
        }),
{
}

/// A visit begins at the port of the hub that it is for, with that port's status.
pub proof fn law_visits_begin_with_the_status<P>(
    visit: HubVisit,
    hosts: (UsbHost<P>, UsbHost<P>),
    hub_index: usize,
    port: u8,
    resources: bool,
    request: VisitRequest,
)
    requires
        visit_begun(visit, hosts, hub_index, port, resources, request),
        hub_index < hosts.0.devices@.len(),
        child_spec(hosts.0.devices@[hub_index as int].path, port) is Ok,
    ensures
        request matches VisitRequest::Control(r) && r.request_type == 0xa3 && r.request == 0
            && r.value == 0 && r.index == port && r.length == 4 && r.data_in,
        visit.hub_index == hub_index,
        visit.port == port,
        Ok::<super::path::UsbPath, UsbError>(visit.path) == child_spec(
            hosts.0.devices@[hub_index as int].path,
            port,
        ),
        visit.resources == resources,
        !visit.resetting,
{
}

/// What a root port's status says: bit 0 that a device is there, bit 1 that the port is
/// enabled, bit 9 that it has power, and four bits from bit 10 on how fast the device is.
pub proof fn law_port_status_reads_bit_by_bit(status: PortStatus)
    ensures
        PORT_CONNECTED == 1 && PORT_ENABLED == 2 && PORT_POWER == 512,
        bit_set(status.bits, PORT_CONNECTED) <==> status.bits & 1 != 0,
        0 <= status.speed_spec() < 16,
        status.bits as int / 1024 == status.bits as int / 16384 * 16 + status.speed_spec(),
{
}

/// The frequency of the time-stamp counter: the crystal's by the ratio, where the processor
/// tells all three, or else its base frequency in megahertz.
pub proof fn law_frequency_is_crystal_by_ratio(cpu: CpuidFrequency)
    ensures
        ({
            let told = cpu.maximum_leaf >= 21 && cpu.ratio_denominator != 0 && cpu.ratio_numerator
                != 0 && cpu.crystal_hz != 0;
            &&& told ==> (detected_frequency(cpu) matches Some(frequency) ==> frequency > 0
                && frequency * cpu.ratio_denominator <= cpu.crystal_hz * cpu.ratio_numerator
                && cpu.crystal_hz * cpu.ratio_numerator < (frequency + 1) * cpu.ratio_denominator)
            &&& told && cpu.crystal_hz * cpu.ratio_numerator >= cpu.ratio_denominator
                ==> detected_frequency(cpu) is Some
            &&& !told && cpu.maximum_leaf >= 22 && cpu.processor_mhz != 0 ==> detected_frequency(cpu)
                is Some && detected_frequency(cpu)->Some_0 == cpu.processor_mhz * 1_000_000
            &&& !told && (cpu.maximum_leaf < 22 || cpu.processor_mhz == 0) ==> detected_frequency(
                cpu,
            ) is None
        }),
{
    let product = cpu.crystal_hz * cpu.ratio_numerator;
    let divisor = cpu.ratio_denominator as int;
    assert(0 <= product <= 0xffff_ffff * 0xffff_ffff) by (nonlinear_arith)
        requires
            product == cpu.crystal_hz * cpu.ratio_numerator,
            0 <= cpu.crystal_hz <= 0xffff_ffff,
            0 <= cpu.ratio_numerator <= 0xffff_ffff,
    ;
    if divisor != 0 {
        let quotient = product / divisor;
        assert(quotient * divisor <= product < (quotient + 1) * divisor && 0 <= quotient <= product)
            by (nonlinear_arith)
            requires
                quotient == product / divisor,
                divisor > 0,
                product >= 0,
        ;
        assert(product >= divisor ==> quotient > 0) by (nonlinear_arith)
            requires
                product < (quotient + 1) * divisor,
                divisor > 0,
        ;
    }
}

/// A walk visits the ports of a hub one by one from the first to the last, and then goes on
/// with the next device that has ports.
pub proof fn law_walks_visit_every_port_in_order(
    before: HubWalk,
    after: HubWalk,
    devices: Seq<UsbDevice>,
    found: Option<(usize, u8)>,
)
    requires
        before.walks(after, devices, false, found),
        devices.len() <= usize::MAX,
    ensures
        before.port < before.ports ==> found == Some((before.hub, (before.port + 1) as u8))
            && after.port == before.port + 1 && after.hub == before.hub && after.next == before.next,
        before.port >= before.ports ==> match found {
            Some((hub, port)) => {
                &&& before.next <= hub < devices.len()
                &&& devices[hub as int].hub is Some
                &&& devices[hub as int].hub->Some_0.ports > 0
                &&& port == 1 && after.port == 1
                &&& after.hub == hub
                &&& after.ports == devices[hub as int].hub->Some_0.ports
                &&& after.next == hub + 1
                &&& forall|i: int|
                    before.next <= i < hub ==> (#[trigger] devices[i]).hub is None
                        || devices[i].hub->Some_0.ports == 0
            },
            None => forall|i: int|
                before.next <= i < devices.len() ==> (#[trigger] devices[i]).hub is None
                    || devices[i].hub->Some_0.ports == 0,
        },
{
    assert forall|i: int|
        before.next <= i < devices.len() && super::hub::ports_of(devices[i]) == 0 implies (
    #[trigger] devices[i]).hub is None || devices[i].hub->Some_0.ports == 0 by {}
    if before.port >= before.ports {
        if let Some((hub, port)) = found {
            assert forall|i: int| before.next <= i < hub implies (#[trigger] devices[i]).hub is None
                || devices[i].hub->Some_0.ports == 0 by {
                assert(super::hub::ports_of(devices[i]) == 0);
            }
        } else {
            assert forall|i: int| before.next <= i < devices.len() implies (
            #[trigger] devices[i]).hub is None || devices[i].hub->Some_0.ports == 0 by {
                assert(super::hub::ports_of(devices[i]) == 0);
            }
        }
    }
}

/// Devices are torn down from the leaves to the root: none before one that is deeper, and
/// among those of one depth the one with the higher slot first.
pub proof fn law_leaves_are_torn_down_first(
    slots: Seq<u8>,
    entries: Seq<(UsbPath, u8)>,
    path: UsbPath,
)
    requires
        is_teardown_order(slots, entries, path),
    ensures
        exists|order: Seq<(u8, u8)>|
            {
                &&& #[trigger] order.len() == slots.len()
                &&& forall|i: int| 0 <= i < slots.len() ==> slots[i] == (#[trigger] order[i]).1
                &&& forall|i: int, j: int|
                    0 <= i < j < order.len() ==> (#[trigger] order[i]).0 >= (
                    #[trigger] order[j]).0 && (order[i].0 == order[j].0 ==> order[i].1
                        >= order[j].1)
                &&& order.to_multiset() == entries.filter(
                    |e: (UsbPath, u8)| descends(e.0, path),
                ).map_values(|e: (UsbPath, u8)| (e.0.depth, e.1)).to_multiset()
            },
{
    let order = choose|order: Seq<(u8, u8)>|
        #![trigger deepest_first(order)]
        {
            &&& deepest_first(order)
            &&& order.to_multiset() == subtree_keys(entries, path).to_multiset()
            &&& slots == order.map_values(|key: (u8, u8)| key.1)
        };
    assert(subtree_keys(entries, path) =~= entries.filter(
        |e: (UsbPath, u8)| descends(e.0, path),
    ).map_values(|e: (UsbPath, u8)| (e.0.depth, e.1)));
    assert(order.len() == slots.len());
}

} // verus!
