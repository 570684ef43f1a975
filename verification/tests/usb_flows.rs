use ginkgo_kernel::usb::bringup::{
    Bringup, BringupPhase, BringupReply, BringupRequest, FIRMWARE_OWNED,
};
use ginkgo_kernel::usb::control::{
    begin_control, clear_port_feature, control_in, control_no_data, get_port_status,
    hub_descriptor_request, set_port_feature,
    USB_PORT_FEATURE_POWER, USB_PORT_FEATURE_RESET,
};
use ginkgo_kernel::usb::controller::{
    address_device_command, disable_slot_command, enable_slot_command, CapabilityRegisters,
    PortStatus, RegisterStep, TimestampClock, XhciLayout,
};
use ginkgo_kernel::usb::descriptors::DescriptorError;
use ginkgo_kernel::usb::device::{HubState, UsbDevice};
use ginkgo_kernel::usb::error::UsbError;
use ginkgo_kernel::usb::host::{InitialAction, TopologyFailure, UsbHost};
use ginkgo_kernel::usb::hub::{
    DescribeRequest, HubDescription, HubReply, HubVisit, HubWalk, Placement, VisitRequest,
};
use ginkgo_kernel::usb::page::DmaPage;
use ginkgo_kernel::usb::path::UsbPath;
use ginkgo_kernel::usb::poll::{PollFlow, PollReply, PollRequest};
use ginkgo_kernel::usb::populate::{PopulateReply, PopulateRequest};
use ginkgo_kernel::usb::ring::{
    trb_control, ProducerRing, Trb, TRB_TYPE_PORT_STATUS_CHANGE_EVENT,
};
use ginkgo_kernel::usb::slot::{SlotReply, SlotRequest, SlotSetup};
use ginkgo_kernel::usb::teardown::{Retry, Teardown};
use ginkgo_kernel::window::{controller_windows, window_page, WindowSearch};

fn layout() -> XhciLayout {
    XhciLayout {
        operational: 0x20,
        runtime: 0x1000,
        doorbells: 0x2000,
        max_slots: 16,
        max_ports: 2,
        context_size: 32,
        address_64: true,
    }
}

fn host() -> UsbHost<u8> {
    UsbHost::new(3, layout(), vec![0, 5])
}

fn device(slot_id: u8, path: UsbPath, parent: Option<(u8, u8)>, hub: bool) -> UsbDevice {
    let page = |index: u64| DmaPage::new(0x10_0000 * u64::from(slot_id) + 0x1000 * index);
    UsbDevice {
        output_context: page(0),
        input_context: page(1),
        control_buffer: page(2),
        ep0_ring: ProducerRing::new(page(3)),
        slot_id,
        path,
        parent_slot_id: parent.map(|(slot, _)| slot),
        parent_port: parent.map(|(_, port)| port),
        speed: 3,
        tt: None,
        hub: hub.then_some(HubState {
            ports: 4,
            superspeed: false,
            protocol: 0,
            characteristics: 0,
            next_port: 1,
        }),
        interfaces: Vec::new(),
    }
}

fn capabilities() -> CapabilityRegisters {
    CapabilityRegisters {
        capability_length: 0x20,
        hcsparams1: 0x0200_0010,
        hcsparams2: 0x1000_0000,
        hccparams1: 0x0100_0001,
        doorbell_offset: 0x2000,
        runtime_offset: 0x1000,
    }
}

fn read(request: BringupRequest) -> u64 {
    match request {
        BringupRequest::Read { offset } => offset,
        other => panic!("not a read: {other:?}"),
    }
}

fn steps(request: BringupRequest) -> Vec<RegisterStep> {
    match request {
        BringupRequest::Run(steps) => steps,
        other => panic!("not steps: {other:?}"),
    }
}

#[test]
fn a_controller_is_brought_up_in_order() {
    let (mut bringup, first) = Bringup::new();
    assert!(matches!(first, BringupRequest::ReadCapabilities));
    let next = bringup.step(BringupReply::Capabilities(capabilities(), 0x4000));
    assert_eq!(read(next), 0x400);

    // A legacy capability that firmware still owns.
    let next = bringup.step(BringupReply::Word(0x0001_0401));
    assert_eq!(
        steps(next),
        vec![
            RegisterStep::Write {
                offset: 0x400,
                value: 0x0101_0401
            },
            RegisterStep::Settle {
                offset: 0x400,
                mask: FIRMWARE_OWNED,
                set: false
            },
        ]
    );
    assert_eq!(read(bringup.step(BringupReply::Done)), 0x400);
    let next = bringup.step(BringupReply::Word(0x0100_0401));
    assert_eq!(
        steps(next),
        vec![RegisterStep::Write {
            offset: 0x404,
            value: 0
        }]
    );

    // A protocol whose second port has slot type five.
    assert_eq!(read(bringup.step(BringupReply::Done)), 0x410);
    assert_eq!(read(bringup.step(BringupReply::Word(0x0000_0002))), 0x418);
    assert_eq!(read(bringup.step(BringupReply::Word(0x0102))), 0x41c);
    assert_eq!(read(bringup.step(BringupReply::Word(5))), 0x20);
    assert_eq!(bringup.port_slot_types, vec![0, 5]);

    assert_eq!(steps(bringup.step(BringupReply::Word(1))).len(), 5);
    assert_eq!(read(bringup.step(BringupReply::Done)), 0x28);
    let mut next = bringup.step(BringupReply::Word(1));
    // Device contexts, command ring, event ring, segments, the scratchpad array and two pages.
    for index in 1..=7_u64 {
        assert!(matches!(next, BringupRequest::AcquirePage));
        next = bringup.step(BringupReply::Page(DmaPage::new(0x1000 * index)));
    }
    let program = steps(next);
    assert_eq!(
        program[0],
        RegisterStep::WriteWide {
            offset: 0x50,
            wide: 0x1000
        }
    );
    assert_eq!(
        program[1],
        RegisterStep::WriteWide {
            offset: 0x38,
            wide: 0x2001
        }
    );
    assert_eq!(bringup.dcbaa.as_ref().unwrap().words[0], 0x5000);
    let array = bringup.scratch_array.as_ref().unwrap();
    assert_eq!((array.words[0], array.words[2]), (0x6000, 0x7000));
    assert_eq!(bringup.segments.as_ref().unwrap().words[..4], [0x3000, 0, 256, 0]);

    assert_eq!(read(bringup.step(BringupReply::Done)), 0x20);
    assert_eq!(
        steps(bringup.step(BringupReply::Word(4)))[0],
        RegisterStep::Write {
            offset: 0x20,
            value: 1
        }
    );
    assert!(matches!(
        bringup.step(BringupReply::Done),
        BringupRequest::Finished
    ));
    assert_eq!(bringup.phase, BringupPhase::Finished);
}

#[test]
fn a_controller_that_firmware_keeps_is_not_used() {
    let (mut bringup, _) = Bringup::new();
    bringup.step(BringupReply::Capabilities(capabilities(), 0x4000));
    bringup.step(BringupReply::Word(0x0001_0401));
    bringup.step(BringupReply::Done);
    assert!(matches!(
        bringup.step(BringupReply::Word(0x0101_0401)),
        BringupRequest::Failed(UsbError::ControllerTimeout)
    ));
}

#[test]
fn a_controller_with_bad_registers_is_not_used() {
    let (mut bringup, _) = Bringup::new();
    assert!(matches!(
        bringup.step(BringupReply::Capabilities(capabilities(), 0x1000)),
        BringupRequest::Failed(UsbError::MmioOutOfRange)
    ));
    let (mut bringup, _) = Bringup::new();
    let mut raw = capabilities();
    raw.hccparams1 = 1;
    assert_eq!(read(bringup.step(BringupReply::Capabilities(raw, 0x4000))), 0x20);
    bringup.step(BringupReply::Word(0));
    bringup.step(BringupReply::Done);
    assert!(matches!(
        bringup.step(BringupReply::Word(2)),
        BringupRequest::Failed(UsbError::UnsupportedPageSize)
    ));
}

#[test]
fn capability_lists_that_never_end_are_refused() {
    let (mut bringup, _) = Bringup::new();
    let mut next = bringup.step(BringupReply::Capabilities(capabilities(), 0x4000));
    let mut visited = 0;
    while matches!(next, BringupRequest::Read { .. }) {
        visited += 1;
        next = bringup.step(BringupReply::Word(0x0000_0103));
    }
    assert_eq!(visited, 64);
    assert!(matches!(
        next,
        BringupRequest::Failed(UsbError::InvalidCapability)
    ));
}

#[test]
fn a_hub_is_read_again_when_its_descriptor_is_longer() {
    let clock = TimestampClock { frequency: 1000 };
    let (mut hub, first) = HubDescription::new(false, 1);
    assert_eq!(
        first,
        DescribeRequest::Control(hub_descriptor_request(false, 7))
    );
    let short = vec![9, 0x29, 2, 0, 0, 50, 0];
    assert_eq!(
        hub.step(&clock, 0, HubReply::Bytes(short)),
        DescribeRequest::Control(hub_descriptor_request(false, 9))
    );
    let full = vec![9, 0x29, 2, 0, 0, 50, 0, 0, 0];
    assert_eq!(
        hub.step(&clock, 0, HubReply::Bytes(full)),
        DescribeRequest::Control(set_port_feature(USB_PORT_FEATURE_POWER, 1))
    );
    assert_eq!(
        hub.step(&clock, 0, HubReply::Done),
        DescribeRequest::Control(set_port_feature(USB_PORT_FEATURE_POWER, 2))
    );
    assert_eq!(
        hub.step(&clock, 7, HubReply::Done),
        DescribeRequest::WaitUntil(107)
    );
    assert_eq!(
        hub.step(&clock, 107, HubReply::Done),
        DescribeRequest::Finished(HubState {
            ports: 2,
            superspeed: false,
            protocol: 1,
            characteristics: 0,
            next_port: 1,
        })
    );
}

#[test]
fn a_hub_without_ports_is_refused() {
    let clock = TimestampClock { frequency: 1000 };
    let (mut hub, _) = HubDescription::new(false, 0);
    let bytes = vec![7, 0x29, 0, 0, 0, 50, 0];
    assert_eq!(
        hub.step(&clock, 0, HubReply::Bytes(bytes)),
        DescribeRequest::Failed(UsbError::Descriptor(DescriptorError::InvalidLength))
    );
}

#[test]
fn a_new_device_on_a_hub_is_reset_and_then_enumerated() {
    let clock = TimestampClock { frequency: 1000 };
    let mut host = host();
    host.add_device(device(1, UsbPath::root(1), None, true));
    let (mut visit, first) = HubVisit::new(&mut host, 0, 2, true);
    assert_eq!(first, VisitRequest::Control(get_port_status(2)));
    let connected = vec![1, 0, 1, 0];
    assert_eq!(
        visit.step(&mut host, &clock, 0, HubReply::Bytes(connected)),
        VisitRequest::Control(clear_port_feature(16, 2))
    );
    assert_eq!(
        visit.step(&mut host, &clock, 0, HubReply::Done),
        VisitRequest::Control(set_port_feature(USB_PORT_FEATURE_RESET, 2))
    );
    assert_eq!(
        visit.step(&mut host, &clock, 0, HubReply::Done),
        VisitRequest::Control(get_port_status(2))
    );
    let resetting = vec![0x11, 0, 0, 0];
    assert_eq!(
        visit.step(&mut host, &clock, 1, HubReply::Bytes(resetting)),
        VisitRequest::Control(get_port_status(2))
    );
    let enabled = vec![0x03, 2, 0, 0];
    assert_eq!(
        visit.step(&mut host, &clock, 2, HubReply::Bytes(enabled)),
        VisitRequest::Enumerate(Placement {
            path: UsbPath::root(1).child(2).unwrap(),
            speed: 2,
            parent_slot_id: Some(1),
            parent_port: Some(2),
            tt: host.child_tt(0, 2, 2),
        })
    );
    assert!(host.topology_failures().is_empty());
}

#[test]
fn a_hub_port_that_never_comes_up_is_a_failure() {
    let clock = TimestampClock { frequency: 1000 };
    let mut host = host();
    host.add_device(device(1, UsbPath::root(1), None, true));
    let (mut visit, _) = HubVisit::new(&mut host, 0, 2, true);
    visit.step(&mut host, &clock, 0, HubReply::Bytes(vec![1, 0, 0, 0]));
    visit.step(&mut host, &clock, 0, HubReply::Done);
    let resetting = vec![0x11, 0, 0, 0];
    assert_eq!(
        visit.step(&mut host, &clock, 5000, HubReply::Bytes(resetting)),
        VisitRequest::Finished
    );
    assert_eq!(
        host.topology_failures(),
        &[TopologyFailure {
            path: UsbPath::root(1).child(2).unwrap(),
            error: UsbError::PortResetFailed,
        }]
    );
}

#[test]
fn a_device_that_left_a_hub_is_torn_down() {
    let clock = TimestampClock { frequency: 1000 };
    let mut host = host();
    let child = UsbPath::root(1).child(2).unwrap();
    host.add_device(device(1, UsbPath::root(1), None, true));
    host.add_device(device(2, child, Some((1, 2)), false));
    let (mut visit, _) = HubVisit::new(&mut host, 0, 2, false);
    assert_eq!(
        visit.step(&mut host, &clock, 0, HubReply::Bytes(vec![0, 0, 0, 0])),
        VisitRequest::Teardown(child)
    );
    let (_, outside) = HubVisit::new(&mut host, 7, 1, false);
    assert_eq!(outside, VisitRequest::Finished);
}

fn placement() -> Placement {
    Placement {
        path: UsbPath::root(2),
        speed: 3,
        parent_slot_id: None,
        parent_port: None,
        tt: None,
    }
}

#[test]
fn a_device_gets_a_slot_and_is_addressed() {
    let mut host = host();
    let mut dcbaa = DmaPage::new(0x9000);
    let (mut setup, first) = SlotSetup::new(&host, placement());
    assert!(matches!(first, SlotRequest::Command(trb) if trb == enable_slot_command(5)));
    let mut next;
    (setup, next) = setup.step(&mut host, &mut dcbaa, SlotReply::Completed(4));
    for index in 1..=4_u64 {
        assert!(matches!(next, SlotRequest::AcquirePage));
        let page = DmaPage::new(0x1000 * index);
        (setup, next) = setup.step(&mut host, &mut dcbaa, SlotReply::Page(page));
    }
    assert!(matches!(next, SlotRequest::Command(trb) if trb == address_device_command(4, 0x2000)));
    assert_eq!(dcbaa.words[8], 0x1000);
    (setup, next) = setup.step(&mut host, &mut dcbaa, SlotReply::Completed(4));
    assert!(matches!(
        next,
        SlotRequest::Populate(PopulateRequest::Control(_))
    ));

    // What the device says is no descriptor, so everything is given back.
    let nonsense = SlotReply::Populated(PopulateReply::Bytes(vec![0; 8]));
    (setup, next) = setup.step(&mut host, &mut dcbaa, nonsense);
    assert!(matches!(next, SlotRequest::Command(trb) if trb == disable_slot_command(4)));
    (setup, next) = setup.step(&mut host, &mut dcbaa, SlotReply::Completed(4));
    assert!(matches!(
        next,
        SlotRequest::Failed(UsbError::Descriptor(DescriptorError::InvalidType))
    ));
    assert!(matches!(setup, SlotSetup::Ended));
    assert_eq!(dcbaa.words[8], 0);
    assert_eq!(host.recycled_dma_pages(), 4);
}

#[test]
fn a_slot_that_cannot_be_given_back_is_kept_out_of_use() {
    let mut host = host();
    let mut dcbaa = DmaPage::new(0x9000);
    let (setup, _) = SlotSetup::new(&host, placement());
    let (setup, _) = setup.step(&mut host, &mut dcbaa, SlotReply::Completed(4));
    let page = SlotReply::Page(DmaPage::new(0x1000));
    let (setup, _) = setup.step(&mut host, &mut dcbaa, page);
    let missing = SlotReply::Failed(UsbError::OutOfFrames);
    let (setup, next) = setup.step(&mut host, &mut dcbaa, missing);
    assert!(matches!(next, SlotRequest::Command(_)));
    assert_eq!(host.recycled_dma_pages(), 1);
    let late = SlotReply::Failed(UsbError::ControllerTimeout);
    let (_, next) = setup.step(&mut host, &mut dcbaa, late);
    assert!(matches!(next, SlotRequest::Failed(UsbError::OutOfFrames)));
    assert_eq!(host.quarantined_slots, vec![4]);

    let (retry, command) = Retry::new(&host);
    assert_eq!(command, Some(disable_slot_command(4)));
    let (_, command) = retry.step(&mut host, &mut dcbaa, true);
    assert_eq!(command, None);
    assert!(host.quarantined_slots.is_empty());
}

#[test]
fn slots_beyond_those_in_use_are_given_back() {
    let mut host = host();
    let mut dcbaa = DmaPage::new(0x9000);
    let (setup, _) = SlotSetup::new(&host, placement());
    let (setup, next) = setup.step(&mut host, &mut dcbaa, SlotReply::Completed(17));
    assert!(matches!(next, SlotRequest::Command(trb) if trb == disable_slot_command(17)));
    let (_, next) = setup.step(&mut host, &mut dcbaa, SlotReply::Completed(17));
    assert!(matches!(next, SlotRequest::Failed(UsbError::InvalidSlot)));
}

#[test]
fn a_subtree_is_taken_down_leaves_first() {
    let mut host = host();
    let mut dcbaa = DmaPage::new(0x9000);
    let child = UsbPath::root(1).child(2).unwrap();
    host.add_device(device(1, UsbPath::root(1), None, true));
    host.add_device(device(2, child, Some((1, 2)), false));
    host.add_device(device(3, UsbPath::root(2), None, false));
    let (mut teardown, command) = Teardown::new(&host, UsbPath::root(1));
    assert_eq!(command, Some(disable_slot_command(2)));
    let command = teardown.step(&mut host, &mut dcbaa, Ok(()));
    assert_eq!(command, Some(disable_slot_command(1)));
    let command = teardown.step(&mut host, &mut dcbaa, Ok(()));
    assert_eq!(command, None);
    assert_eq!(host.devices.len(), 1);
    assert_eq!(host.devices[0].slot_id, 3);
    assert_eq!(host.recycled_dma_pages(), 8);
}

#[test]
fn a_subtree_stays_where_a_slot_cannot_be_given_back() {
    let mut host = host();
    let mut dcbaa = DmaPage::new(0x9000);
    let child = UsbPath::root(1).child(2).unwrap();
    host.add_device(device(1, UsbPath::root(1), None, true));
    host.add_device(device(2, child, Some((1, 2)), false));
    let (mut teardown, _) = Teardown::new(&host, UsbPath::root(1));
    let command = teardown.step(&mut host, &mut dcbaa, Err(UsbError::ControllerTimeout));
    assert_eq!(command, None);
    assert_eq!(host.devices.len(), 2);
    assert_eq!(
        host.topology_failures(),
        &[TopologyFailure {
            path: child,
            error: UsbError::ControllerTimeout,
        }]
    );
}

#[test]
fn slow_devices_are_enumerated_before_fast_ones() {
    let host = host();
    let slow = PortStatus { bits: 1 | 3 << 10 };
    let fast = PortStatus { bits: 1 | 4 << 10 };
    let empty = PortStatus { bits: 3 << 10 };
    let root = InitialAction::Enumerate(UsbPath::root(1));
    assert_eq!(host.initial_port_action(1, slow, true), root);
    assert_eq!(host.initial_port_action(1, slow, false), InitialAction::Skip);
    assert_eq!(host.initial_port_action(1, fast, true), InitialAction::Skip);
    assert_eq!(host.initial_port_action(1, fast, false), root);
    assert_eq!(host.initial_port_action(1, empty, true), InitialAction::Skip);
}

#[test]
fn the_first_free_window_is_found() {
    let mut search = WindowSearch::new(controller_windows(), 0x2000);
    assert_eq!(search.probe(), Some(0xffff_c000_0000_0000));
    search.answer(false);
    assert_eq!(search.probe(), Some(0xffff_c000_0000_1000));
    search.answer(true);
    assert_eq!(search.probe(), Some(0xffff_d000_0000_0000));
    search.answer(false);
    assert_eq!(search.found(), None);
    search.answer(false);
    assert_eq!(search.probe(), None);
    assert_eq!(search.found(), Some(0xffff_d000_0000_0000));

    let mut taken = WindowSearch::new(controller_windows(), 0x1000);
    while taken.probe().is_some() {
        taken.answer(true);
    }
    assert_eq!(taken.found(), None);
}

#[test]
fn window_pages_stay_in_the_address_space() {
    assert_eq!(window_page(0x1000, 0x8000, 0x2000), Some((0x3000, 0xa000)));
    assert_eq!(window_page(u64::MAX, 0, 1), None);
    assert_eq!(window_page(0, u64::MAX, 1), None);
}

/// Answers a poll until it asks for something that ends it.
fn run_poll(
    host: &mut UsbHost<u8>,
    mut flow: PollFlow,
    mut request: PollRequest,
    mut events: Vec<Trb>,
) -> (Vec<String>, PollRequest) {
    let mut asked = Vec::new();
    loop {
        let reply = match &request {
            PollRequest::Finished(_) | PollRequest::Failed(_) => return (asked, request),
            PollRequest::ReadStatus => PollReply::Word(0),
            PollRequest::TakeInterrupt => PollReply::Interrupt(true),
            PollRequest::NextEvent => PollReply::Event(events.pop()),
            _ => PollReply::Done,
        };
        asked.push(format!("{request:?}"));
        (flow, request) = flow.step(host, reply);
    }
}

fn port_event(port: u64) -> Trb {
    Trb::new(
        port << 24,
        0,
        trb_control(TRB_TYPE_PORT_STATUS_CHANGE_EVENT),
    )
}

#[test]
fn a_poll_drains_events_and_then_looks_at_ports() {
    let mut host = host();
    host.add_device(device(1, UsbPath::root(1), None, true));
    host.deferred_events.push_back(port_event(2));
    let (flow, request) = host.poll_with_resources();
    let (asked, end) = run_poll(&mut host, flow, request, vec![port_event(1)]);
    assert!(matches!(end, PollRequest::Finished(reports) if reports.is_empty()));
    assert_eq!(
        asked,
        vec![
            "ReadStatus",
            "TakeInterrupt",
            "LoadBuffers { slot: 0 }",
            "ServicePort { port: 2, resources: false }",
            "NextEvent",
            "LoadBuffers { slot: 0 }",
            "ServicePort { port: 1, resources: false }",
            "NextEvent",
            "Retry",
            "ServicePort { port: 1, resources: true }",
            "VisitHub { hub_index: 0, port: 1, resources: true }",
            "VisitHub { hub_index: 0, port: 2, resources: true }",
            "VisitHub { hub_index: 0, port: 3, resources: true }",
            "VisitHub { hub_index: 0, port: 4, resources: true }",
        ]
    );
}

#[test]
fn a_poll_handles_a_bounded_number_of_events() {
    let mut host = host();
    host.msi_enabled = true;
    let (flow, request) = host.poll();
    let (asked, _) = run_poll(&mut host, flow, request, vec![port_event(9); 300]);
    let events = asked.iter().filter(|asked| *asked == "NextEvent").count();
    assert_eq!(events, 256);
    assert!(asked.iter().any(|asked| asked == "Acknowledge"));
}

#[test]
fn a_halted_controller_is_not_polled() {
    let mut host = host();
    let (flow, _) = host.poll();
    let (_, request) = flow.step(&mut host, PollReply::Word(1));
    assert!(matches!(
        request,
        PollRequest::Failed(UsbError::ControllerError)
    ));
}

#[test]
fn the_first_walk_visits_every_hub_port() {
    let mut host = host();
    host.devices.push(device(1, UsbPath::root(1), None, true));
    host.devices.push(device(2, UsbPath::root(2), None, false));
    host.devices.push(device(3, UsbPath::root(3), None, true));
    let ports = host.devices[0].hub.unwrap().ports;
    let mut walk = HubWalk::new();
    for hub in [0, 2] {
        for port in 1..=ports {
            assert_eq!(walk.next_port(&host), Some((hub, port)));
        }
    }
    assert_eq!(walk.next_port(&host), None);
}

#[test]
fn a_control_transfer_leaves_the_ring_behind_its_status() {
    let mut ring = ProducerRing::new(DmaPage::new(0x4000));
    let read = control_in(0x80, 6, 0x0100, 0, 18).unwrap();
    begin_control(&mut ring, 1, 0x5000, read);
    assert_eq!(ring.enqueue_index, 3);
    assert!(ring.cycle);
    let wait = begin_control(&mut ring, 1, 0x5000, control_no_data(0, 9, 1, 0));
    assert_eq!(wait.status_pointer, 0x4000 + 16 * 4);
    assert_eq!(ring.enqueue_index, 5);
    assert!(ring.cycle);
}
