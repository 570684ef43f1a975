//! What comes of the events of a controller, of polls and of devices that go away.
use vstd::prelude::*;

use super::device::{HidInterfaceState, UsbDevice};
use super::error::UsbError;
use super::host::{
    announce, bounded_push, child_tt_spec, port_action_spec, topology_entry, PortAction, UsbHost,
    UsbLifecycleEvent,
};
use super::lifecycle::{
    after_polling, first_listener, port_to_poll, report_bytes, start_doorbells, EventAction,
};
use super::page::DmaPage;
use super::path::UsbPath;
use super::poll::{poll_post, PollFlow, PollReply, PollRequest};
use super::ring::Trb;
use super::teardown::{next_teardown, retry_post, teardown_post, Retry, Teardown};

verus! {

/// A report is the bytes that came into the buffer of its interface, in their order and without
/// those that did not come.
pub proof fn law_reports_are_the_bytes_that_came(interface: HidInterfaceState, left: int, k: int)
    requires
        0 <= left <= interface.buffer_len,
    ensures
        report_bytes(interface, left).len() == interface.buffer_len - left,
        0 <= k < interface.buffer_len - left ==> report_bytes(interface, left)[k] == (if k % 4 == 0 {
            interface.buffer.words@[k / 4] as int % 256
        } else if k % 4 == 1 {
            interface.buffer.words@[k / 4] as int / 0x100 % 256
        } else if k % 4 == 2 {
            interface.buffer.words@[k / 4] as int / 0x1_0000 % 256
        } else {
            interface.buffer.words@[k / 4] as int / 0x100_0000 % 256
        }),
{
}

/// A transfer that came for the buffer that an interface waits with is handed on as the report of
/// that interface, and the next is asked for. One that failed takes the interface away, which is
/// announced. One for another buffer changes nothing. A port that changed is looked at.
#[verifier::rlimit(40)]
pub proof fn law_events_reach_the_interface_that_waits<P>(
    before: UsbHost<P>,
    after: UsbHost<P>,
    event: Trb,
    collected: usize,
    action: EventAction,
)
    requires
        after.event_handled(before, event, collected, action),
    ensures
        ({
            let kind = event.control as int / 0x400 % 64;
            let slot = event.control as int / 0x100_0000;
            let endpoint = event.control as int / 0x1_0000 % 32;
            let code = event.status as int / 0x100_0000;
            let port = event.parameter as int / 0x100_0000 % 256;
            &&& kind != 32 ==> after == before
            &&& kind == 34 && 1 <= port <= before.layout.max_ports ==> action
                == EventAction::ServicePort(port as u8)
            &&& kind != 32 && (kind != 34 || port == 0 || port > before.layout.max_ports) ==> action
                is Nothing
            &&& action matches EventAction::Ring { slot: rung, endpoint: told, report } ==> {
                &&& kind == 32 && (code == 1 || code == 13)
                &&& rung == slot && told == endpoint
                &&& report is Some <==> collected < 64
                &&& report matches Some(report) ==> exists|d: int, i: int|
                    {
                        let interface = before.devices@[d].interfaces@[i];
                        &&& #[trigger] first_listener(
                            before.devices@,
                            slot as u8,
                            endpoint as u8,
                            d,
                            i,
                        )
                        &&& before.devices@[d].slot_id == slot
                        &&& interface.endpoint_id == endpoint && interface.active
                        &&& report.interface == interface.info.id
                        &&& report.bytes@ == report_bytes(
                            interface,
                            event.status as int % 0x100_0000,
                        )
                        &&& event.parameter as int / 16 * 16 == interface.queued_trb
                    }
            }
            &&& kind == 32 && code != 1 && code != 13 && after != before ==> {
                &&& action is Nothing
                &&& exists|d: int, i: int|
                    {
                        &&& #[trigger] first_listener(
                            before.devices@,
                            slot as u8,
                            endpoint as u8,
                            d,
                            i,
                        )
                        &&& !after.devices@[d].interfaces@[i].active
                        &&& after.devices@[d].interfaces@[i].transfer_error == Some(code as u8)
                        &&& after.lifecycle_events@.last() == UsbLifecycleEvent::InterfaceRemoved(
                            before.devices@[d].interfaces@[i].info,
                        )
                    }
            }
        }),
{
    let slot = event.slot_spec() as u8;
    let endpoint = event.endpoint_spec() as u8;
    if event.type_spec() == 32 && !before.unheard(event) {
        let (d, i) = choose|d: int, i: int|
            {
                &&& #[trigger] first_listener(before.devices@, slot, endpoint, d, i)
                &&& before.transfer_post(after, event, collected, d, i, action)
            };
        assert(first_listener(before.devices@, slot, endpoint, d, i));
    }
}

/// A ring of reports is asked for one buffer at a time: the buffer, its length and that its end is
/// to be reported.
pub proof fn law_report_requests_name_the_buffer(buffer: u64, length: u32)
    requires
        length <= 0x1_ffff,
    ensures
        ({
            let trb = super::device::report_trb(buffer, length);
            &&& trb.parameter == buffer
            &&& trb.status == length
            &&& trb.control as int / 0x400 % 64 == 1
            &&& trb.control as int / 0x20 % 2 == 1
            &&& trb.control as int / 0x4 % 2 == 1
        }),
{
}

/// The ports of a hub take turns, from the first to the last and over again.
pub proof fn law_hub_ports_take_turns(device: UsbDevice)
    requires
        device.hub is Some,
        1 <= device.hub->Some_0.next_port <= device.hub->Some_0.ports,
    ensures
        ({
            let hub = device.hub->Some_0;
            let next = after_polling(device).hub->Some_0;
            &&& port_to_poll(hub) == hub.next_port
            &&& next.next_port == hub.next_port as int % hub.ports as int + 1
            &&& next.ports == hub.ports && next.superspeed == hub.superspeed
        }),
{
    let hub = device.hub->Some_0;
    if hub.next_port < hub.ports {
        vstd::arithmetic::div_mod::lemma_small_mod(hub.next_port as nat, hub.ports as nat);
    } else {
        vstd::arithmetic::div_mod::lemma_mod_self_0(hub.ports as int);
    }
}

/// The root ports take turns, from the first to the last and over again.
pub proof fn law_root_ports_take_turns<P>(before: UsbHost<P>, after: UsbHost<P>, port: u8)
    requires
        after.root_port_taken(before, port),
        1 <= before.root_cursor <= before.layout.max_ports,
    ensures
        port == before.root_cursor,
        after.root_cursor == before.root_cursor as int % before.layout.max_ports as int + 1,
{
    if before.root_cursor < before.layout.max_ports {
        vstd::arithmetic::div_mod::lemma_small_mod(
            before.root_cursor as nat,
            before.layout.max_ports as nat,
        );
    } else {
        vstd::arithmetic::div_mod::lemma_mod_self_0(before.layout.max_ports as int);
    }
}

/// What is attached to a port is enumerated if it is new and there is room and memory for it, and
/// taken down if it is gone.
pub proof fn law_ports_are_enumerated_when_new(
    path: UsbPath,
    connected: bool,
    present: bool,
    full: bool,
    resources: bool,
)
    ensures
        port_action_spec(path, connected, present, full, resources) == PortAction::Enumerate(path)
            <==> connected && !present && !full && resources,
        port_action_spec(path, connected, present, full, resources) == PortAction::Teardown(path)
            <==> !connected && present,
{
}

/// A device at low or full speed below a hub at high speed goes through the translator of that
/// hub, at its port if the hub has one for each; below any other hub it goes through the one that
/// the hub goes through, and a faster device through none.
pub proof fn law_slow_devices_go_through_a_translator(parent: UsbDevice, port: u8, speed: u8)
    ensures
        speed > 2 ==> child_tt_spec(parent, port, speed) is None,
        speed <= 2 && parent.speed == 3 && (parent.hub is Some && !parent.hub->Some_0.superspeed) ==> (
        child_tt_spec(parent, port, speed) matches Some(tt) && tt.hub_slot_id == parent.slot_id && (
        parent.hub->Some_0.protocol == 2 ==> tt.port == port) && (parent.hub->Some_0.protocol != 2
            ==> tt.port == 0)),
        speed <= 2 && parent.speed != 3 ==> child_tt_spec(parent, port, speed) == parent.tt,
{
}

/// What is told of a device is what the device is.
pub proof fn law_topologies_tell_what_devices_are(device: UsbDevice)
    ensures
        ({
            let entry = topology_entry(device);
            &&& entry.path == device.path
            &&& entry.slot_id == device.slot_id
            &&& entry.parent_slot_id == device.parent_slot_id
            &&& entry.parent_port == device.parent_port
            &&& entry.speed == device.speed
            &&& entry.is_hub <==> device.hub is Some
            &&& device.hub matches Some(hub) ==> entry.hub_port_count == hub.ports
            &&& device.hub is None ==> entry.hub_port_count == 0
        }),
{
}

/// Lists that are bounded lose their oldest entry, never the newest.
pub proof fn law_bounded_lists_keep_the_newest<T>(list: Seq<T>, capacity: nat, value: T)
    requires
        0 < capacity,
        list.len() <= capacity,
    ensures
        bounded_push(list, capacity, value).len() <= capacity,
        bounded_push(list, capacity, value).last() == value,
        list.len() < capacity ==> bounded_push(list, capacity, value) == list.push(value),
        list.len() == capacity ==> bounded_push(list, capacity, value).drop_last()
            == list.subrange(1, list.len() as int),
{
    if list.len() == capacity {
        assert(list.skip(1).push(value).drop_last() =~= list.subrange(1, list.len() as int));
    }
}

/// Where there is room, every interface that comes or goes is announced, in order.
pub proof fn law_interfaces_are_announced_in_order(
    events: Seq<UsbLifecycleEvent>,
    infos: Seq<super::device::HidInterfaceInfo>,
    added: bool,
)
    requires
        events.len() + infos.len() <= 128,
    ensures
        announce(events, infos, added).len() == events.len() + infos.len(),
        forall|i: int|
            0 <= i < events.len() ==> #[trigger] announce(events, infos, added)[i] == events[i],
        forall|i: int|
            0 <= i < infos.len() ==> announce(events, infos, added)[events.len() + i] == if added {
                UsbLifecycleEvent::InterfaceAdded(#[trigger] infos[i])
            } else {
                UsbLifecycleEvent::InterfaceRemoved(infos[i])
            },
    decreases infos.len(),
{
    if infos.len() > 0 {
        let front = infos.drop_last();
        law_interfaces_are_announced_in_order(events, front, added);
        assert forall|i: int| 0 <= i < infos.len() implies announce(events, infos, added)[events.len()
            + i] == if added {
            UsbLifecycleEvent::InterfaceAdded(#[trigger] infos[i])
        } else {
            UsbLifecycleEvent::InterfaceRemoved(infos[i])
        } by {
            if i < front.len() {
                assert(front[i] == infos[i]);
            }
        }
    }
}

/// A subtree is taken down slot by slot. A slot that the controller gives back is cleared and its
/// device is forgotten, with its pages kept for others; a failure ends the teardown and is noted.
#[verifier::rlimit(40)]
pub proof fn law_teardowns_forget_what_was_given_back<P>(
    before: Teardown,
    after: Teardown,
    hosts: (UsbHost<P>, UsbHost<P>),
    tables: (DmaPage, DmaPage),
    result: Result<(), UsbError>,
    command: Option<Trb>,
)
    requires
        teardown_post(before, after, hosts, tables, result, command),
        before.next < before.slots@.len(),
    ensures
        after.slots == before.slots,
        result is Err ==> command is None && tables.1 == tables.0 && hosts.1.devices@
            == hosts.0.devices@,
        result is Ok ==> {
            &&& after.next > before.next
            &&& hosts.1.devices@.len() == hosts.0.devices@.len() - 1
            &&& exists|index: int|
                {
                    &&& #[trigger] hosts.0.first_in_slot(before.slots@[before.next as int], index)
                    &&& hosts.0.devices@[index].slot_id == before.slots@[before.next as int]
                    &&& hosts.1.devices@ == hosts.0.devices@.remove(index)
                    &&& hosts.1.dma_pool.pages@ == hosts.0.dma_pool.pages@
                        + hosts.0.devices@[index].pages()
                }
        },
        command matches Some(trb) ==> {
            &&& after.next < after.slots@.len()
            &&& trb.control as int / 0x400 % 64 == 10
            &&& trb.control as int / 0x100_0000 == after.slots@[after.next as int]
        },
{
    let index = choose|index: int|
        {
            &&& #[trigger] hosts.0.first_in_slot(before.slots@[before.next as int], index)
            &&& match result {
                Err(error) => {
                    &&& hosts.1.noted(hosts.0, hosts.0.devices@[index].path, error)
                    &&& tables.1 == tables.0
                    &&& after.next == after.slots@.len()
                    &&& command is None
                },
                Ok(()) => {
                    &&& exists|noted: UsbHost<P>| #[trigger]
                        super::teardown::slot_released(hosts, tables, index, noted)
                    &&& next_teardown(hosts.1, after, before.next + 1, command)
                },
            }
        };
    assert(hosts.0.first_in_slot(before.slots@[before.next as int], index));
    if result is Ok {
        let noted = choose|noted: UsbHost<P>| #[trigger]
            super::teardown::slot_released(hosts, tables, index, noted);
        assert(super::teardown::slot_released(hosts, tables, index, noted));
        assert(noted.devices@ == hosts.0.devices@);
    }
}

/// A slot that could not be given back is tried again by its own number, and is kept no longer once
/// the controller has given it back.
#[verifier::rlimit(30)]
pub proof fn law_retries_are_for_what_is_kept<P>(
    before: Retry,
    after: Retry,
    hosts: (UsbHost<P>, UsbHost<P>),
    tables: (DmaPage, DmaPage),
    disabled: bool,
    command: Option<Trb>,
)
    requires
        before.pending(hosts.0),
        retry_post(before, after, hosts, tables, disabled, command),
        before.index < usize::MAX,
    ensures
        !disabled ==> hosts.1 == hosts.0 && tables.1 == tables.0,
        disabled && before.devices ==> hosts.1.quarantined_devices@
            == hosts.0.quarantined_devices@.remove(before.index as int)
            && hosts.1.dma_pool.pages@ == hosts.0.dma_pool.pages@
            + hosts.0.quarantined_devices@[before.index as int].pages(),
        disabled && !before.devices ==> hosts.1.quarantined_slots@
            == hosts.0.quarantined_slots@.remove(before.index as int),
        command matches Some(trb) ==> trb.control as int / 0x400 % 64 == 10 && trb.control as int
            / 0x100_0000 == if after.devices {
            hosts.1.quarantined_devices@[after.index as int].slot_id
        } else {
            hosts.1.quarantined_slots@[after.index as int]
        },
        command is None ==> after.devices && after.index >= hosts.1.quarantined_devices@.len(),
{
}

/// A poll stops at a controller that has failed. Else it handles the events of the controller, each
/// with what the device that it names has sent, until none is left or enough were handled;
/// acknowledges the interrupt if there is one; tries again what could not be given back; looks at
/// one root port and at some ports of hubs; and hands over the reports that came, in order.
#[verifier::rlimit(40)]
pub proof fn law_polls_go_step_by_step<P>(
    before: PollFlow,
    after: PollFlow,
    hosts: (UsbHost<P>, UsbHost<P>),
    reply: PollReply,
    request: PollRequest,
)
    requires
        poll_post(before, after, hosts, reply, request),
    ensures
        reply matches PollReply::Failed(error) ==> request == PollRequest::Failed(error) && hosts.1
            == hosts.0,
        reply matches PollReply::Word(status) ==> {
            let bad = status % 2 == 1 || status / 4 % 2 == 1 || status / 0x1000 % 2 == 1;
            &&& bad ==> request == PollRequest::Failed(UsbError::ControllerError)
            &&& !bad ==> request is TakeInterrupt && after.phase is Interrupt && after.reports
                == before.reports
        },
        reply matches PollReply::Interrupt(pending) && pending && before.events_left > 0 ==> request
            is NextEvent || request is LoadBuffers,
        reply matches PollReply::Event(Some(event)) ==> after.event == event && (
        request matches PollRequest::LoadBuffers { slot } && slot == event.control as int
            / 0x100_0000),
        reply == PollReply::Event(None) ==> if hosts.0.msi_enabled {
            request is Acknowledge && after.phase is Acknowledge
        } else {
            request is Retry && after.phase is Retry
        },
        reply is Done && before.phase is Ring ==> after.reports@ == match before.report {
            Some(report) => before.reports@.push(report),
            None => before.reports@,
        },
        reply is Done && (before.phase is Ring || before.phase is Port) && before.events_left > 0
            ==> request is NextEvent || request is LoadBuffers,
        reply is Done && (before.phase is Ring || before.phase is Port) && before.events_left == 0
            ==> request is Acknowledge || request is Retry,
        reply is Done && before.phase is Acknowledge ==> request is Retry && after.reports
            == before.reports,
        reply is Done && before.phase is Retry ==> (request matches PollRequest::ServicePort {
            port,
            resources,
        } && resources == before.resources && (1 <= hosts.0.root_cursor ==> port
            == hosts.0.root_cursor)),
        reply is Done && (before.phase is Root || before.phase is Hub) && before.hubs_left == 0
            ==> request == PollRequest::Finished(before.reports),
        reply is Done && (before.phase is Root || before.phase is Hub) ==> (
        request matches PollRequest::VisitHub { resources, .. } ==> resources == before.resources
            && after.hubs_left == before.hubs_left - 1),
{
    if reply is Word {
        let status = reply->Word_0;
        assert(status & (1u32 | 4u32 | 0x1000u32) != 0 <==> status % 2 == 1 || status / 4 % 2 == 1
            || status / 0x1000 % 2 == 1) by (bit_vector);
    }
}

/// Devices that begin to report are rung at their own doorbell, once for each endpoint that is in
/// use, by its number.
pub proof fn law_doorbells_are_those_of_the_device(device: UsbDevice, doorbells: int, count: nat)
    requires
        count <= device.interfaces@.len(),
        0 <= doorbells <= u32::MAX,
    ensures
        forall|k: int|
            0 <= k < start_doorbells(device, doorbells, count).len() ==> {
                let rung = #[trigger] start_doorbells(device, doorbells, count)[k];
                &&& rung.0 == doorbells + 4 * device.slot_id
                &&& exists|i: int|
                    0 <= i < count && (#[trigger] device.interfaces@[i]).active
                        && device.interfaces@[i].endpoint_id == rung.1
            },
        forall|i: int|
            0 <= i < count && (#[trigger] device.interfaces@[i]).active ==> exists|k: int|
                0 <= k < start_doorbells(device, doorbells, count).len() && (
                #[trigger] start_doorbells(device, doorbells, count)[k]).1
                    == device.interfaces@[i].endpoint_id,
    decreases count,
{
    if count > 0 {
        let before = (count - 1) as nat;
        law_doorbells_are_those_of_the_device(device, doorbells, before);
        let early = start_doorbells(device, doorbells, before);
        let all = start_doorbells(device, doorbells, count);
        assert forall|k: int| 0 <= k < all.len() implies {
            let rung = #[trigger] all[k];
            &&& rung.0 == doorbells + 4 * device.slot_id
            &&& exists|i: int|
                0 <= i < count && (#[trigger] device.interfaces@[i]).active
                    && device.interfaces@[i].endpoint_id == rung.1
        } by {
            if k < early.len() {
                assert(all[k] == early[k]);
                let i = choose|i: int|
                    0 <= i < before && (#[trigger] device.interfaces@[i]).active
                        && device.interfaces@[i].endpoint_id == early[k].1;
                assert(device.interfaces@[i].active);
            } else {
                assert(device.interfaces@[count - 1].active);
            }
        }
        assert forall|i: int| 0 <= i < count && (
        #[trigger] device.interfaces@[i]).active implies exists|k: int|
            0 <= k < all.len() && (#[trigger] all[k]).1 == device.interfaces@[i].endpoint_id by {
            if i < before {
                let k = choose|k: int|
                    0 <= k < early.len() && (#[trigger] early[k]).1
                        == device.interfaces@[i].endpoint_id;
                assert(all[k] == early[k]);
            } else {
                assert(all[early.len() as int].1 == device.interfaces@[i].endpoint_id);
            }
        }
    }
}

} // verus!
