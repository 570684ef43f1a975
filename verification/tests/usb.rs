use std::collections::VecDeque;

use ginkgo_kernel::usb::contexts::{build_address_context, update_hub_slot_context, AddressContext};
use ginkgo_kernel::usb::control::{
    USB_REQUEST_CLEAR_FEATURE, USB_REQUEST_GET_DESCRIPTOR, USB_REQUEST_SET_FEATURE,
};
use ginkgo_kernel::usb::controller::{
    defer_lossless, disable_slot_command, enable_slot_command, iman_write_value, next_deferred,
    push_bounded, reserve_lossless_slot, scratchpad_count,
};
use ginkgo_kernel::usb::descriptors::{
    derive_child_tt, endpoint_id, hub_change_feature, hub_child_speed, DescriptorError,
    parse_configuration_descriptor, parse_hub_descriptor, parse_hub_port_status, HubPortStatus,
    ParsedHubDescriptor, TtInfo, USB_PORT_STATUS_CONNECTION, USB_PORT_STATUS_LOW_SPEED,
};
use ginkgo_kernel::usb::device::{
    retire_interface, HidInterfaceId, HidInterfaceInfo, HidInterfaceKind, HidInterfaceState,
    HubState, UsbDevice,
};
use ginkgo_kernel::usb::error::UsbError;
use ginkgo_kernel::usb::page::{DmaPage, UsbDmaPool};
use ginkgo_kernel::usb::path::{teardown_slot_order, UsbPath};
use ginkgo_kernel::usb::ring::{
    trb_control, EventRing, ProducerRing, Trb, RING_TRBS, TRB_TYPE_DATA_STAGE,
    TRB_TYPE_SETUP_STAGE, TRB_TYPE_STATUS_STAGE, TRB_TYPE_TRANSFER_EVENT,
};

#[test]
fn trb_fields_round_trip() {
    let trb = Trb::new(0x1234_5678_9abc_def0, 0x1122, trb_control(12));
    assert_eq!(trb.parameter(), 0x1234_5678_9abc_def0);
    assert_eq!(trb.trb_type(), 12);
}

#[test]
fn parses_keyboard_and_joystick_hid_interfaces() {
    let descriptor = [
        9, 2, 59, 0, 2, 1, 0, 0x80, 50, // configuration
        9, 4, 0, 0, 1, 3, 1, 1, 0, // keyboard interface
        9, 0x21, 0x11, 0x01, 0, 1, 0x22, 63, 0, // HID
        7, 5, 0x81, 3, 8, 0, 10, // endpoint
        9, 4, 1, 0, 1, 3, 0, 0, 0, // generic HID interface
        9, 0x21, 0x11, 0x01, 0, 1, 0x22, 48, 0, // HID
        7, 5, 0x82, 3, 16, 0, 4, // endpoint
    ];
    let parsed = parse_configuration_descriptor(&descriptor).unwrap();
    assert_eq!(parsed.configuration_value, 1);
    assert_eq!(parsed.interfaces.len(), 2);
    assert_eq!(parsed.interfaces[0].report_descriptor_length, 63);
    assert_eq!(parsed.interfaces[1].endpoint_address, 0x82);
}

#[test]
fn rejects_zero_length_descriptor_without_looping() {
    let descriptor = [9, 2, 11, 0, 0, 1, 0, 0x80, 50, 0, 4];
    assert_eq!(
        parse_configuration_descriptor(&descriptor),
        Err(DescriptorError::InvalidLength)
    );
}

#[test]
fn publishes_a_complete_td_by_releasing_its_first_trb_last() {
    let mut ring = ProducerRing::new(DmaPage::new(0x1000));
    let first = ring.enqueue_unpublished(Trb::new(1, 2, trb_control(TRB_TYPE_SETUP_STAGE)));
    ring.enqueue(Trb::new(3, 4, trb_control(TRB_TYPE_DATA_STAGE)));
    ring.enqueue(Trb::new(5, 6, trb_control(TRB_TYPE_STATUS_STAGE)));

    assert_eq!(ring.page.read_u32(12).unwrap() & 1, 0);
    assert_eq!(ring.page.read_u32(28).unwrap() & 1, 1);
    assert_eq!(ring.page.read_u32(44).unwrap() & 1, 1);
    ring.publish(first);
    assert_eq!(ring.page.read_u32(12).unwrap() & 1, 1);
}

#[test]
fn endpoint_ids_follow_xhci_direction_encoding() {
    assert_eq!(endpoint_id(0x81), Ok(3));
    assert_eq!(endpoint_id(0x8f), Ok(31));
    assert_eq!(endpoint_id(0x01), Err(UsbError::InvalidEndpoint));
}

#[test]
fn route_strings_pack_five_tiers_in_parent_first_order() {
    let root = UsbPath::root(4);
    let path = root
        .child(2)
        .unwrap()
        .child(15)
        .unwrap()
        .child(3)
        .unwrap()
        .child(4)
        .unwrap()
        .child(5)
        .unwrap();
    assert_eq!(path.route_string, 0x5_4_3_f_2);
    assert_eq!(path.depth, 5);
    assert_eq!(path.child(1), Err(UsbError::InvalidPort));
    assert_eq!(root.child(0), Err(UsbError::InvalidPort));
    assert_eq!(root.child(16), Err(UsbError::InvalidPort));
}

#[test]
fn descendant_matching_does_not_cross_sibling_routes() {
    let hub = UsbPath::root(1).child(2).unwrap();
    let child = hub.child(3).unwrap();
    let grandchild = child.child(4).unwrap();
    let sibling = hub.child(5).unwrap();
    assert!(hub.is_descendant_of(hub));
    assert!(grandchild.is_descendant_of(hub));
    assert!(!sibling.is_descendant_of(child));
    assert!(!UsbPath::root(2).is_descendant_of(UsbPath::root(1)));
}

#[test]
fn parses_usb2_and_usb3_hub_descriptors() {
    let usb2 = [9, 0x29, 4, 0, 0, 25, 0, 0, 0xff];
    assert_eq!(
        parse_hub_descriptor(&usb2, false),
        Ok(ParsedHubDescriptor {
            ports: 4,
            characteristics: 0,
            power_good_ms: 50,
        })
    );
    let usb3 = [12, 0x2a, 8, 0, 0, 10, 0, 0, 0, 0, 0, 0];
    assert_eq!(
        parse_hub_descriptor(&usb3, true),
        Ok(ParsedHubDescriptor {
            ports: 8,
            characteristics: 0,
            power_good_ms: 20,
        })
    );
}

#[test]
fn rejects_truncated_or_mismatched_hub_descriptors() {
    assert_eq!(
        parse_hub_descriptor(&[9, 0x29, 4, 0, 0, 1, 0], false),
        Err(DescriptorError::InvalidLength)
    );
    assert_eq!(
        parse_hub_descriptor(&[12, 0x29, 4, 0, 0, 1, 0, 0, 0, 0, 0, 0], true),
        Err(DescriptorError::InvalidType)
    );
    assert_eq!(
        parse_hub_descriptor(&[7, 0x29, 0, 0, 0, 1, 0], false),
        Err(DescriptorError::InvalidLength)
    );
}

#[test]
fn recognizes_hub_interfaces_without_requiring_hid_descriptors() {
    let descriptor = [
        9, 2, 18, 0, 1, 1, 0, 0x80, 50, // configuration
        9, 4, 0, 0, 0, 9, 0, 0, 0, // hub interface
    ];
    let parsed = parse_configuration_descriptor(&descriptor).unwrap();
    assert_eq!(parsed.hub_protocol, Some(0));
    assert!(parsed.interfaces.is_empty());
}

#[test]
fn hub_port_status_and_speed_are_decoded_without_hardware() {
    let status = parse_hub_port_status(&[0x03, 0x04, 0x11, 0]).unwrap();
    assert!(status.connected());
    assert_eq!(status.change, 0x11);
    assert_eq!(hub_child_speed(status, 3), 3);
    assert_eq!(hub_child_speed(status, 4), 4);
    let low = HubPortStatus {
        status: USB_PORT_STATUS_CONNECTION | USB_PORT_STATUS_LOW_SPEED,
        change: 0,
    };
    assert_eq!(hub_child_speed(low, 3), 2);
}

#[test]
fn maps_usb2_and_usb3_change_bits_to_class_features() {
    assert_eq!(hub_change_feature(false, 0), Some(16));
    assert_eq!(hub_change_feature(false, 4), Some(20));
    assert_eq!(hub_change_feature(false, 5), None);
    assert_eq!(hub_change_feature(true, 5), Some(29));
    assert_eq!(hub_change_feature(true, 6), Some(25));
    assert_eq!(hub_change_feature(true, 7), Some(26));
}

#[test]
fn child_address_context_contains_route_and_parent_hub_fields() {
    let mut input = DmaPage::new(0x1000);
    let path = UsbPath::root(7).child(2).unwrap().child(3).unwrap();
    build_address_context(
        &mut input,
        32,
        AddressContext {
            path,
            speed: 2,
            packet_size: 8,
            ep0_ring: 0x3000,
            tt: Some(TtInfo {
                hub_slot_id: 11,
                port: 3,
            }),
        },
    );
    assert_eq!(input.read_u32(32).unwrap() & 0x000f_ffff, 0x32);
    assert_eq!((input.read_u32(32).unwrap() >> 20) & 0xf, 2);
    assert_eq!((input.read_u32(36).unwrap() >> 16) as u8, 7);
    assert_eq!(input.read_u32(40).unwrap() & 0xffff, 0x030b);
}

#[test]
fn hub_slot_update_preserves_route_and_sets_hub_port_count() {
    let mut input = DmaPage::new(0x1000);
    let mut output = DmaPage::new(0x2000);
    output.write_u32(0, 0x12345 | (3 << 20)).unwrap();
    output.write_u32(4, 5 << 16).unwrap();
    update_hub_slot_context(
        &mut input,
        &output,
        32,
        3,
        HubState {
            ports: 8,
            superspeed: false,
            protocol: 2,
            characteristics: 3 << 5,
            next_port: 1,
        },
    );
    assert_eq!(input.read_u32(32).unwrap() & 0x000f_ffff, 0x12345);
    assert_ne!(input.read_u32(32).unwrap() & (1 << 25), 0);
    assert_ne!(input.read_u32(32).unwrap() & (1 << 26), 0);
    assert_eq!((input.read_u32(36).unwrap() >> 24) as u8, 8);
    assert_eq!((input.read_u32(40).unwrap() >> 16) & 3, 3);
}

#[test]
fn tt_targets_follow_single_multi_and_inherited_semantics() {
    let inherited = TtInfo {
        hub_slot_id: 7,
        port: 2,
    };
    assert_eq!(
        derive_child_tt(3, 11, Some(1), None, 4, 1),
        Some(TtInfo {
            hub_slot_id: 11,
            port: 0,
        })
    );
    assert_eq!(
        derive_child_tt(3, 11, Some(2), None, 4, 1),
        Some(TtInfo {
            hub_slot_id: 11,
            port: 4,
        })
    );
    assert_eq!(
        derive_child_tt(1, 12, Some(0), Some(inherited), 5, 2),
        Some(inherited)
    );
    assert_eq!(derive_child_tt(3, 11, Some(2), None, 4, 3), None);
    assert_eq!(derive_child_tt(4, 11, None, Some(inherited), 4, 4), None);
}

#[test]
fn high_speed_child_context_keeps_tt_fields_zero() {
    let mut input = DmaPage::new(0x1000);
    build_address_context(
        &mut input,
        32,
        AddressContext {
            path: UsbPath::root(1).child(2).unwrap(),
            speed: 3,
            packet_size: 64,
            ep0_ring: 0x2000,
            tt: None,
        },
    );
    assert_eq!(input.read_u32(40).unwrap() & 0x0003_ffff, 0);
}

#[test]
fn non_high_speed_hub_context_clears_mtt_and_ttt() {
    let mut input = DmaPage::new(0x1000);
    let mut output = DmaPage::new(0x2000);
    output.write_u32(0, 1 << 25).unwrap();
    output.write_u32(8, 3 << 16).unwrap();
    update_hub_slot_context(
        &mut input,
        &output,
        32,
        4,
        HubState {
            ports: 4,
            superspeed: true,
            protocol: 2,
            characteristics: 3 << 5,
            next_port: 1,
        },
    );
    assert_eq!(input.read_u32(32).unwrap() & (1 << 25), 0);
    assert_eq!(input.read_u32(40).unwrap() & (3 << 16), 0);
}

#[test]
fn deferred_transfer_events_are_lossless_and_fifo() {
    let mut queue = VecDeque::with_capacity(64);
    for index in 0..(RING_TRBS * 4) {
        reserve_lossless_slot(&mut queue).unwrap();
        defer_lossless(
            &mut queue,
            Trb::new(index as u64, 0, trb_control(TRB_TYPE_TRANSFER_EVENT)),
        );
    }
    assert_eq!(queue.len(), RING_TRBS * 4);
    for index in 0..(RING_TRBS * 4) {
        let event = next_deferred(&mut queue).unwrap();
        assert_eq!(event.trb_type(), TRB_TYPE_TRANSFER_EVENT);
        assert_eq!(event.parameter(), index as u64);
    }
    assert_eq!(next_deferred(&mut queue), None);
}

#[test]
fn iman_writes_clear_pending_and_preserve_requested_enable_state() {
    assert_eq!(iman_write_value(false), 1);
    assert_eq!(iman_write_value(true), 3);
}

#[test]
fn dma_pool_reuses_and_clears_the_same_page_repeatedly() {
    let mut pool = UsbDmaPool::new();
    pool.recycle(DmaPage::new(0x5000));
    for _ in 0..128 {
        let mut page = pool.take_recycled().unwrap();
        assert_eq!(page.physical, 0x5000);
        assert_eq!(page.read_u32(0).unwrap(), 0);
        page.write_u32(0, 0xfeed_beef).unwrap();
        pool.recycle(page);
    }
    assert_eq!(pool.len(), 1);
}

fn keyboard() -> (HidInterfaceInfo, HidInterfaceState) {
    let info = HidInterfaceInfo {
        id: HidInterfaceId {
            device: 1,
            interface: 0,
        },
        slot_id: 1,
        root_port: 1,
        vendor_id: 1,
        product_id: 2,
        interface_subclass: 1,
        interface_protocol: 1,
        endpoint_address: 0x81,
        kind: HidInterfaceKind::Keyboard,
    };
    let interface = HidInterfaceState {
        info,
        report_descriptor: vec![0],
        endpoint_id: 3,
        interval: 1,
        max_packet_size: 8,
        max_burst: 0,
        max_esit_payload: 8,
        ring: ProducerRing::new(DmaPage::new(0x5000)),
        buffer: DmaPage::new(0x6000),
        buffer_len: 8,
        queued_trb: 0,
        transfer_error: None,
        active: true,
    };
    (info, interface)
}

#[test]
fn complete_device_returns_all_dma_pages_and_retires_interface_once() {
    let (info, mut interface) = keyboard();
    assert_eq!(retire_interface(&mut interface, 6), Some(info));
    assert_eq!(retire_interface(&mut interface, 6), None);
    assert!(!interface.active);
    assert_eq!(interface.transfer_error, Some(6));

    let device = UsbDevice {
        output_context: DmaPage::new(0x1000),
        input_context: DmaPage::new(0x2000),
        control_buffer: DmaPage::new(0x3000),
        ep0_ring: ProducerRing::new(DmaPage::new(0x4000)),
        slot_id: 1,
        path: UsbPath::root(1),
        parent_slot_id: None,
        parent_port: None,
        speed: 3,
        tt: None,
        hub: None,
        interfaces: vec![interface],
    };
    let pages = device.into_dma_pages();
    assert_eq!(pages.len(), 6);
    assert_eq!(
        pages.iter().map(|page| page.physical).collect::<Vec<_>>(),
        vec![0x1000, 0x2000, 0x3000, 0x4000, 0x5000, 0x6000]
    );
}

#[test]
fn teardown_model_is_child_first_and_scoped_to_one_subtree() {
    let root = UsbPath::root(1);
    let hub = root.child(2).unwrap();
    let child = hub.child(3).unwrap();
    let sibling = root.child(4).unwrap();
    let entries = [(root, 1), (hub, 2), (child, 3), (sibling, 4)];
    assert_eq!(teardown_slot_order(&entries, hub), vec![3, 2]);
    assert_eq!(teardown_slot_order(&entries, root), vec![3, 4, 2, 1]);
}

#[test]
fn bounded_queue_preserves_recent_events_and_reports_drops() {
    let mut queue = VecDeque::new();
    assert!(!push_bounded(&mut queue, 2, 1));
    assert!(!push_bounded(&mut queue, 2, 2));
    assert!(push_bounded(&mut queue, 2, 3));
    assert_eq!(queue.into_iter().collect::<Vec<_>>(), vec![2, 3]);
}

#[derive(Clone, Copy, Debug, Eq, PartialEq)]
enum Event {
    Added(u32),
    Removed(u32),
}

#[test]
fn lifecycle_model_reconnects_without_leaking_live_interfaces() {
    let mut live = Vec::new();
    let mut events = VecDeque::new();
    for id in 1..=8 {
        live.push(id);
        push_bounded(&mut events, 32, Event::Added(id));
        let removed = live.remove(0);
        push_bounded(&mut events, 32, Event::Removed(removed));
    }
    assert!(live.is_empty());
    assert_eq!(events.len(), 16);
    assert_eq!(events.front(), Some(&Event::Added(1)));
    assert_eq!(events.back(), Some(&Event::Removed(8)));
}

#[test]
fn descriptor_errors_name_the_first_problem() {
    assert_eq!(
        parse_configuration_descriptor(&[9, 2, 9]),
        Err(DescriptorError::TooShort)
    );
    assert_eq!(
        parse_configuration_descriptor(&[9, 3, 9, 0, 0, 1, 0, 0x80, 50]),
        Err(DescriptorError::InvalidType)
    );
    assert_eq!(
        parse_hub_port_status(&[1, 2, 3]),
        Err(UsbError::Descriptor(DescriptorError::TooShort))
    );
}

#[test]
fn a_queued_report_request_names_the_buffer_of_its_interface() {
    let (_, mut interface) = keyboard();
    interface.queue_next().unwrap();
    assert_eq!(interface.queued_trb, 0x5000);
    assert_eq!(interface.ring.page.read_u32(0).unwrap(), 0x6000);
    assert_eq!(interface.ring.page.read_u32(8).unwrap(), 8);
}

#[test]
fn a_ring_wraps_at_its_link_and_flips_the_cycle() {
    let mut ring = ProducerRing::new(DmaPage::new(0x1000));
    for index in 0..(RING_TRBS as u64 - 1) {
        assert_eq!(ring.enqueue(Trb::new(index, 0, trb_control(1))), 0x1000 + index * 16);
    }
    assert_eq!(ring.enqueue(Trb::new(7, 0, trb_control(1))), 0x1000);
    assert_eq!(ring.page.read_u32(12).unwrap() & 1, 0);
}

#[test]
fn the_event_ring_hands_out_what_the_controller_wrote() {
    let mut ring = EventRing::new(DmaPage::new(0x1000));
    assert_eq!(ring.next(), None);
    ring.page.write_u64(0, 0x4000).unwrap();
    ring.page.write_u32(12, trb_control(TRB_TYPE_TRANSFER_EVENT) | 1).unwrap();
    let event = ring.next().unwrap();
    assert_eq!(event.parameter(), 0x4000);
    assert_eq!(event.trb_type(), TRB_TYPE_TRANSFER_EVENT);
    assert_eq!(ring.dequeue_pointer(), 0x1010);
    assert_eq!(ring.next(), None);
}

#[test]
fn slot_commands_carry_the_slot() {
    assert_eq!(enable_slot_command(3).control, trb_control(9) | (3 << 16));
    assert_eq!(disable_slot_command(5).slot_id(), 5);
}

#[test]
fn scratchpad_counts_are_bounded() {
    assert_eq!(scratchpad_count(0), Ok(0));
    assert_eq!(scratchpad_count(4 << 27), Ok(4));
    assert_eq!(scratchpad_count(1 << 21), Ok(32));
    assert_eq!(scratchpad_count(0xffff_ffff), Err(UsbError::InvalidCapability));
}

#[test]
fn standard_requests_keep_their_numbers() {
    assert_eq!(USB_REQUEST_CLEAR_FEATURE, 1);
    assert_eq!(USB_REQUEST_SET_FEATURE, 3);
    assert_eq!(USB_REQUEST_GET_DESCRIPTOR, 6);
}
