//! What a device and a host controller read in the requests, the commands and the contexts that
//! are written for them, field by field.
use vstd::prelude::*;

use super::contexts::{
    add_flags, address_word, configurable, ep0_update_word, hub_update_word, last_context,
    valid_context_size, with_endpoint, AddressContext,
};
use super::control::{
    acknowledging_features, control_writes, data_trb, no_data_spec, reads_hub, reset_progress,
    ring_cycle, ring_next, setup_trb, status_place, status_request, status_trb, ControlRequest,
    ControlWait,
};
use super::controller::{
    enable_slot_spec, layout_spec, program_steps_spec, protocol_covers, reset_steps_spec,
    scratchpads_spec, segment_writes, slot_command, CapabilityRegisters, ControllerTables,
    RegisterStep, XhciLayout,
};
use super::descriptors::{change_feature_spec, has_bit, HubPortStatus};
use super::device::{HidInterfaceState, HubState};
use super::error::UsbError;
use super::page::{apply_write, apply_writes, PageWrite, PAGE_WORDS};
use super::ring::{law_trb_round_trip, link_spec, trb_at, trb_writes, ProducerRing, Trb};

verus! {

/// The setup stage of a control transfer carries the eight bytes of the request in the order of
/// the bus: what it is for, what it asks, its value, its index and the length of its data. It is
/// written as data of its own, and says whether data follow and which way they go.
pub proof fn law_setup_stages_carry_the_request(r: ControlRequest)
    ensures
        ({
            let trb = setup_trb(r);
            let p = trb.parameter as int;
            &&& p % 0x100 == r.request_type
            &&& p / 0x100 % 0x100 == r.request
            &&& p / 0x1_0000 % 0x1_0000 == r.value
            &&& p / 0x1_0000_0000 % 0x1_0000 == r.index
            &&& p / 0x1_0000_0000_0000 == r.length
            &&& trb.status == 8
            &&& trb.control as int / 0x400 % 64 == 2
            &&& trb.control as int / 0x40 % 2 == 1
            &&& trb.control as int / 0x20 % 2 == 0
            &&& trb.control as int / 0x1_0000 == (if r.length == 0 {
                0int
            } else if r.data_in {
                3
            } else {
                2
            })
        }),
{
}

/// The data stage of a control transfer names the buffer and its length and says which way the
/// data go; the status stage goes the other way, and only it and the data stage report their end.
pub proof fn law_data_and_status_go_opposite_ways(r: ControlRequest, buffer: u64)
    ensures
        ({
            let data = data_trb(r, buffer);
            let status = status_trb(r);
            &&& data.parameter == buffer
            &&& data.status == r.length
            &&& data.control as int / 0x400 % 64 == 3
            &&& data.control as int / 0x20 % 2 == 1
            &&& data.control as int / 0x4 % 2 == 1
            &&& data.control as int / 0x40 % 2 == 0
            &&& data.control as int / 0x1_0000 == (if r.data_in {
                1int
            } else {
                0
            })
            &&& status.parameter == 0
            &&& status.status == 0
            &&& status.control as int / 0x400 % 64 == 4
            &&& status.control as int / 0x20 % 2 == 1
            &&& r.length > 0 ==> status.control as int / 0x1_0000 == 1 - data.control as int / 0x1_0000
            &&& r.length == 0 ==> status.control as int / 0x1_0000 == 1
        }),
{
}

/// A ring is filled one place after the other. Its last place leads back to the first, and the
/// mark that says which entries are new turns over there.
pub proof fn law_rings_turn_over_at_their_end(ring: ProducerRing, r: ControlRequest)
    requires
        ring.wf(),
    ensures
        ({
            let at = ring.enqueue_index as int;
            &&& ring_next(at) == (at + 1) % 255
            &&& ring_cycle(at, ring.cycle) == if at == 254 {
                !ring.cycle
            } else {
                ring.cycle
            }
            &&& status_place(ring, r).0 == if r.length == 0 {
                (at + 1) % 255
            } else {
                (at + 2) % 255
            }
            &&& at < 253 ==> status_place(ring, r).1 == ring.cycle
        }),
{
}

/// Writes after writes.
proof fn lemma_writes_add(words: Seq<u32>, first: Seq<PageWrite>, second: Seq<PageWrite>)
    ensures
        apply_writes(words, first + second) == apply_writes(apply_writes(words, first), second),
    decreases second.len(),
{
    if second.len() == 0 {
        assert(first + second =~= first);
    } else {
        lemma_writes_add(words, first, second.drop_last());
        assert((first + second).drop_last() =~= first + second.drop_last());
        assert((first + second).last() == second.last());
    }
}

/// A control transfer that fits before the end of its ring stands in it as its stages in order:
/// the request, the data if there are any, and the status. Until the last write the controller
/// sees none of it, as the first stage is written as old and made new at the end.
#[verifier::rlimit(60)]
pub proof fn law_control_transfers_stand_in_the_ring(
    ring: ProducerRing,
    r: ControlRequest,
    buffer: u64,
)
    requires
        ring.wf(),
        ring.page.words@.len() == PAGE_WORDS,
        ring.enqueue_index < 252,
    ensures
        ({
            let at = ring.enqueue_index as int;
            let writes = control_writes(ring, r, buffer);
            let end = apply_writes(ring.page.words@, writes);
            let early = apply_writes(ring.page.words@, writes.drop_last());
            let last = if r.length == 0 {
                at + 1
            } else {
                at + 2
            };
            &&& trb_at(end, at) == setup_trb(r).with_cycle_spec(ring.cycle)
            &&& r.length > 0 ==> trb_at(end, at + 1) == data_trb(r, buffer).with_cycle_spec(
                ring.cycle,
            )
            &&& trb_at(end, last) == status_trb(r).with_cycle_spec(ring.cycle)
            &&& trb_at(early, at).control % 2 == (if ring.cycle {
                0int
            } else {
                1
            })
            &&& writes.last() matches PageWrite::Word { offset, value } && offset == 16 * at + 12
        }),
{
    let words = ring.page.words@;
    let at = ring.enqueue_index as int;
    let cycle = ring.cycle;
    let held = trb_writes(at, setup_trb(r).with_cycle_spec(!cycle));
    let data = if r.length == 0 {
        Seq::empty()
    } else {
        trb_writes(at + 1, data_trb(r, buffer).with_cycle_spec(cycle))
    };
    let place = if r.length == 0 {
        at + 1
    } else {
        at + 2
    };
    let status = trb_writes(place, status_trb(r).with_cycle_spec(cycle));
    let release = PageWrite::Word {
        offset: (16 * at + 12) as usize,
        value: setup_trb(r).with_cycle_spec(cycle).control,
    };
    let writes = control_writes(ring, r, buffer);
    assert(writes =~= held + data + status + seq![release]);
    assert(writes.drop_last() =~= held + data + status);
    assert(writes.last() == release);
    let one = apply_writes(words, held);
    let two = apply_writes(one, data);
    let three = apply_writes(two, status);
    lemma_writes_add(words, held, data);
    lemma_writes_add(words, held + data, status);
    law_trb_round_trip(words, at, setup_trb(r).with_cycle_spec(!cycle));
    if r.length > 0 {
        law_trb_round_trip(one, at + 1, data_trb(r, buffer).with_cycle_spec(cycle));
    }
    law_trb_round_trip(two, place, status_trb(r).with_cycle_spec(cycle));
    let end = apply_write(three, release);
    assert(apply_writes(words, writes) == end);
    assert(trb_at(three, at) == trb_at(one, at));
    let kept = setup_trb(r).with_cycle_spec(!cycle);
    let shown = setup_trb(r).with_cycle_spec(cycle);
    assert(kept.parameter == shown.parameter && kept.status == shown.status);
    assert(end[4 * at] == three[4 * at] && end[4 * at + 1] == three[4 * at + 1]);
    assert(end[4 * at + 2] == three[4 * at + 2] && end[4 * at + 3] == shown.control);
    assert(trb_at(end, place) == trb_at(three, place));
    if r.length > 0 {
        assert(trb_at(three, at + 1) == trb_at(two, at + 1));
        assert(trb_at(end, at + 1) == trb_at(three, at + 1));
    }
}

/// A transfer goes by the events for its own slot and its control endpoint. The event for its data
/// tells how many bytes did not come; the transfer is over once its status has come, and, if it
/// has data, once they have.
pub proof fn law_control_events_tell_what_was_moved(wait: ControlWait, event: Trb)
    ensures
        ({
            let next = wait.after(event);
            let pointer = event.parameter as int - event.parameter as int % 16;
            let left = event.status as int % 0x100_0000;
            let for_data = wait.data_pointer is Some && wait.data_pointer->Some_0 as int
                - wait.data_pointer->Some_0 as int % 16 == pointer;
            let for_status = wait.status_pointer as int - wait.status_pointer as int % 16 == pointer;
            &&& wait.owns(event) <==> event.control as int / 0x400 % 64 == 32 && event.control as int
                / 0x100_0000 == wait.slot_id && event.control as int / 0x1_0000 % 32 == 1
            &&& ControlWait::moved(event) <==> event.status as int / 0x100_0000 == 1
                || event.status as int / 0x100_0000 == 13
            &&& for_data && left <= wait.length ==> next.actual == wait.length - left
            &&& for_data && left > wait.length ==> next.actual == 0
            &&& !for_data ==> next.actual == wait.actual
            &&& next.data_complete <==> wait.data_complete || for_data
            &&& next.status_complete <==> wait.status_complete || for_status
            &&& next.slot_id == wait.slot_id && next.length == wait.length
            &&& next.data_pointer == wait.data_pointer && next.status_pointer == wait.status_pointer
        }),
{
}

/// Hubs are asked for their descriptor and their ports in the words of the bus: a class request to
/// the device for the descriptor, and class requests to a port for its status and its features.
pub proof fn law_hub_requests_are_those_of_the_bus(
    superspeed: bool,
    length: int,
    port: u8,
    request: u8,
    feature: u16,
)
    requires
        0 <= length <= 255,
    ensures
        ({
            let asks = reads_hub(superspeed, length);
            &&& asks.request_type == 0xa0 && asks.request == 6 && asks.index == 0 && asks.length
                == length && asks.data_in
            &&& superspeed ==> asks.value == 0x2a00
            &&& !superspeed ==> asks.value == 0x2900
        }),
        ({
            let asks = status_request(port);
            &&& asks.request_type == 0xa3 && asks.request == 0 && asks.value == 0
            &&& asks.index == port && asks.length == 4 && asks.data_in
        }),
        ({
            let sets = no_data_spec(0x23, request, feature, port as u16);
            &&& sets.request_type == 0x23 && sets.request == request && sets.value == feature
            &&& sets.index == port && sets.length == 0 && !sets.data_in
        }),
{
}

/// A change of a port is acknowledged by the feature that the bus assigns to it.
pub proof fn law_changes_are_acknowledged_by_their_features(superspeed: bool, bit: int)
    requires
        0 <= bit < 16,
    ensures
        bit == 0 ==> change_feature_spec(superspeed, bit) == Some(16u16),
        bit == 3 ==> change_feature_spec(superspeed, bit) == Some(19u16),
        bit == 4 ==> change_feature_spec(superspeed, bit) == Some(20u16),
        bit == 1 && !superspeed ==> change_feature_spec(superspeed, bit) == Some(17u16),
        bit == 2 && !superspeed ==> change_feature_spec(superspeed, bit) == Some(18u16),
        bit == 5 && superspeed ==> change_feature_spec(superspeed, bit) == Some(29u16),
        bit == 6 && superspeed ==> change_feature_spec(superspeed, bit) == Some(25u16),
        bit == 7 && superspeed ==> change_feature_spec(superspeed, bit) == Some(26u16),
        (bit == 1 || bit == 2) && superspeed ==> change_feature_spec(superspeed, bit) is None,
        bit >= 5 && !superspeed ==> change_feature_spec(superspeed, bit) is None,
        bit >= 8 ==> change_feature_spec(superspeed, bit) is None,
{
}

/// The feature is that of one of the first changes of a port.
pub open spec fn changed(superspeed: bool, change: u16, limit: nat, feature: u16) -> bool {
    exists|bit: int|
        0 <= bit < limit && #[trigger] has_bit(
            change as int,
            vstd::arithmetic::power2::pow2(bit as nat) as int,
        ) && change_feature_spec(superspeed, bit) == Some(feature)
}

/// Every change that has a feature is acknowledged, and no other.
pub proof fn law_all_changes_are_acknowledged(superspeed: bool, change: u16, limit: nat)
    requires
        limit <= 16,
    ensures
        forall|bit: int|
            0 <= bit < limit && #[trigger] has_bit(
                change as int,
                vstd::arithmetic::power2::pow2(bit as nat) as int,
            ) && change_feature_spec(superspeed, bit) is Some ==> acknowledging_features(
                superspeed,
                change,
                limit,
            ).contains(change_feature_spec(superspeed, bit)->Some_0),
        forall|k: int|
            0 <= k < acknowledging_features(superspeed, change, limit).len() ==> changed(
                superspeed,
                change,
                limit,
                #[trigger] acknowledging_features(superspeed, change, limit)[k],
            ),
    decreases limit,
{
    if limit > 0 {
        let last = (limit - 1) as nat;
        law_all_changes_are_acknowledged(superspeed, change, last);
        let before = acknowledging_features(superspeed, change, last);
        let all = acknowledging_features(superspeed, change, limit);
        let taken = has_bit(change as int, vstd::arithmetic::power2::pow2(last) as int)
            && change_feature_spec(superspeed, last as int) is Some;
        assert(all == if taken {
            before.push(change_feature_spec(superspeed, last as int)->Some_0)
        } else {
            before
        });
        assert forall|bit: int|
            0 <= bit < limit && #[trigger] has_bit(
                change as int,
                vstd::arithmetic::power2::pow2(bit as nat) as int,
            ) && change_feature_spec(superspeed, bit) is Some implies all.contains(
            change_feature_spec(superspeed, bit)->Some_0,
        ) by {
            let feature = change_feature_spec(superspeed, bit)->Some_0;
            if bit < last {
                assert(before.contains(feature));
                let k = choose|k: int| 0 <= k < before.len() && before[k] == feature;
                assert(all[k] == feature);
            } else {
                assert(all[before.len() as int] == feature);
            }
        }
        assert forall|k: int| 0 <= k < all.len() implies changed(
            superspeed,
            change,
            limit,
            #[trigger] all[k],
        ) by {
            if k < before.len() {
                assert(all[k] == before[k]);
                assert(changed(superspeed, change, last, before[k]));
                let bit = choose|bit: int|
                    0 <= bit < last && #[trigger] has_bit(
                        change as int,
                        vstd::arithmetic::power2::pow2(bit as nat) as int,
                    ) && change_feature_spec(superspeed, bit) == Some(before[k]);
                assert(has_bit(
                    change as int,
                    vstd::arithmetic::power2::pow2(bit as nat) as int,
                ));
            } else {
                assert(has_bit(
                    change as int,
                    vstd::arithmetic::power2::pow2(last) as int,
                ));
            }
        }
    }
}

/// A port that is being reset is ready once it is connected, enabled and no longer in reset. What
/// is attached to it is as fast as the hub from the fourth speed on, and else as fast as the port
/// says.
pub proof fn law_resets_end_at_an_enabled_port(status: HubPortStatus, parent_speed: u8)
    ensures
        ({
            let s = status.status as int;
            let done = reset_progress(status, parent_speed);
            &&& s % 2 == 0 <==> done == Err::<Option<u8>, UsbError>(UsbError::PortDisconnected)
            &&& s % 2 == 1 && (s / 16 % 2 == 1 || s / 2 % 2 == 0) ==> done == Ok::<
                Option<u8>,
                UsbError,
            >(None)
            &&& s % 2 == 1 && s / 16 % 2 == 0 && s / 2 % 2 == 1 ==> {
                &&& done matches Ok(Some(speed))
                &&& parent_speed >= 4 ==> speed == parent_speed
                &&& parent_speed < 4 && s / 0x400 % 2 == 1 ==> speed == 3
                &&& parent_speed < 4 && s / 0x400 % 2 == 0 && s / 0x200 % 2 == 1 ==> speed == 2
                &&& parent_speed < 4 && s / 0x400 % 2 == 0 && s / 0x200 % 2 == 0 ==> speed == 1
            }
        }),
{
}

/// Commands name what they are, the slot that they are for and the context that they point at.
pub proof fn law_commands_name_their_slot(pointer: u64, slot: u8, slot_type: u8)
    ensures
        ({
            let kind = |trb: Trb| trb.control as int / 0x400 % 64;
            let target = |trb: Trb| trb.control as int / 0x100_0000;
            let disable = slot_command(super::ring::TRB_TYPE_DISABLE_SLOT_COMMAND, 0, slot);
            let address = slot_command(super::ring::TRB_TYPE_ADDRESS_DEVICE_COMMAND, pointer, slot);
            let evaluate = slot_command(
                super::ring::TRB_TYPE_EVALUATE_CONTEXT_COMMAND,
                pointer,
                slot,
            );
            let configure = slot_command(
                super::ring::TRB_TYPE_CONFIGURE_ENDPOINT_COMMAND,
                pointer,
                slot,
            );
            let enable = enable_slot_spec(slot_type);
            &&& kind(enable) == 9 && enable.control as int / 0x1_0000 % 32 == slot_type % 32
            &&& kind(disable) == 10 && target(disable) == slot
            &&& kind(address) == 11 && target(address) == slot && address.parameter == pointer
            &&& kind(configure) == 12 && target(configure) == slot && configure.parameter == pointer
            &&& kind(evaluate) == 13 && target(evaluate) == slot && evaluate.parameter == pointer
        }),
{
}

/// A link leads back to the start of its own ring and turns the mark over.
pub proof fn law_links_lead_back(physical: u64, cycle: bool)
    ensures
        ({
            let link = link_spec(physical, cycle);
            &&& link.parameter == physical
            &&& link.status == 0
            &&& link.control as int / 0x400 % 64 == 6
            &&& link.control as int / 2 % 2 == 1
            &&& link.control as int % 2 == (if cycle {
                1int
            } else {
                0
            })
        }),
{
}

/// The bits of the first word of a slot context.
proof fn lemma_slot_word(route: u32, speed: u32)
    by (bit_vector)
    requires
        speed <= 15,
    ensures
        ((route & 0x000f_ffff) | (speed << 20) | (1u32 << 27)) % 0x10_0000 == route % 0x10_0000,
        ((route & 0x000f_ffff) | (speed << 20) | (1u32 << 27)) / 0x10_0000 % 16 == speed,
        ((route & 0x000f_ffff) | (speed << 20) | (1u32 << 27)) / 0x800_0000 == 1,
        ((route & 0x000f_ffff) | (speed << 20) | (1u32 << 27)) / 0x200_0000 % 4 == 0,
{
}

/// The lowest bit of a pointer marks which entries are new.
proof fn lemma_marked(low: u32)
    by (bit_vector)
    requires
        low % 16 == 0,
    ensures
        (low | 1) == low + 1,
{
}

/// The context that addresses a device tells the controller which contexts it holds, the route,
/// the speed and the port of the device, the translator that it is behind, and the packets and the
/// ring of its control endpoint.
pub proof fn law_address_contexts_describe_the_device(size: int, address: AddressContext)
    requires
        valid_context_size(size),
        address.speed <= 15,
        address.ep0_ring % 16 == 0,
    ensures
        ({
            let word = |i: int| address_word(size, address, i) as int;
            let slot = size / 4;
            let ep0 = size / 2;
            &&& word(0) == 0
            &&& word(1) == 3
            &&& word(slot) % 0x10_0000 == address.path.route_string % 0x10_0000
            &&& word(slot) / 0x10_0000 % 16 == address.speed
            &&& word(slot) / 0x800_0000 == 1
            &&& word(slot + 1) == 0x1_0000 * address.path.root_port
            &&& address.tt matches Some(tt) ==> word(slot + 2) % 256 == tt.hub_slot_id && word(
                slot + 2,
            ) / 256 == tt.port
            &&& address.tt is None ==> word(slot + 2) == 0
            &&& word(ep0) == 0
            &&& word(ep0 + 1) / 2 % 4 == 3
            &&& word(ep0 + 1) / 8 % 8 == 4
            &&& word(ep0 + 1) / 0x1_0000 == address.packet_size
            &&& word(ep0 + 2) + 0x1_0000_0000 * word(ep0 + 3) == address.ep0_ring + 1
            &&& word(ep0 + 4) == 8
        }),
{
    lemma_slot_word(address.path.route_string, address.speed as u32);
    let low = (address.ep0_ring as int % 0x1_0000_0000) as u32;
    assert(low % 16 == 0);
    lemma_marked(low);
    assert((low | 1) == low + 1);
}

/// The context that changes the packets of a control endpoint is that of the controller but for
/// the packet size.
pub proof fn law_packet_changes_keep_the_rest(
    size: int,
    output: Seq<u32>,
    packet_size: u16,
    index: int,
)
    requires
        valid_context_size(size),
        output.len() == PAGE_WORDS,
    ensures
        ({
            let word = |i: int| ep0_update_word(size, output, packet_size, i);
            &&& word(1) == 2
            &&& word(size / 2 + 1) as int / 0x1_0000 == packet_size
            &&& word(size / 2 + 1) as int % 0x1_0000 == output[size / 4 + 1] as int % 0x1_0000
            &&& 0 <= index < size / 4 && index != 1 ==> word(size / 2 + index) == output[size / 4
                + index]
        }),
{
}

/// The bits of the first word of a hub's slot context.
proof fn lemma_hub_word(word: u32)
    by (bit_vector)
    ensures
        ((word & !(1u32 << 25)) | (1u32 << 25) | (1u32 << 26)) / 0x200_0000 % 4 == 3,
        ((word & !(1u32 << 25)) | 0u32 | (1u32 << 26)) / 0x200_0000 % 4 == 2,
        ((word & !(1u32 << 25)) | (1u32 << 25) | (1u32 << 26)) % 0x200_0000 == word % 0x200_0000,
        ((word & !(1u32 << 25)) | 0u32 | (1u32 << 26)) % 0x200_0000 == word % 0x200_0000,
        ((word & !(1u32 << 25)) | (1u32 << 25) | (1u32 << 26)) / 0x800_0000 == word / 0x800_0000,
        ((word & !(1u32 << 25)) | 0u32 | (1u32 << 26)) / 0x800_0000 == word / 0x800_0000,
{
}

/// The bits of the third word of a hub's slot context.
proof fn lemma_think_word(word: u32, time: u32)
    by (bit_vector)
    requires
        time <= 3,
    ensures
        ((word & !(3u32 << 16)) | (time * 0x1_0000) as u32) / 0x1_0000 % 4 == time,
        ((word & !(3u32 << 16)) | (time * 0x1_0000) as u32) % 0x1_0000 == word % 0x1_0000,
{
}

/// The context of a hub is that of the controller, marked as a hub, with the number of its ports;
/// one at high speed tells whether it has a translator for each port and how long they think.
pub proof fn law_hub_contexts_describe_the_hub(
    size: int,
    output: Seq<u32>,
    speed: u8,
    hub: HubState,
)
    requires
        valid_context_size(size),
        output.len() == PAGE_WORDS,
    ensures
        ({
            let word = |i: int| hub_update_word(size, output, speed, hub, i) as int;
            let slot = size / 4;
            &&& word(1) == 1
            &&& word(slot) / 0x400_0000 % 2 == 1
            &&& word(slot) / 0x200_0000 % 2 == (if speed == 3 && hub.protocol == 2 {
                1int
            } else {
                0
            })
            &&& word(slot) % 0x200_0000 == output[0] % 0x200_0000
            &&& word(slot + 1) / 0x100_0000 == hub.ports
            &&& word(slot + 1) % 0x100_0000 == output[1] % 0x100_0000
            &&& word(slot + 2) / 0x1_0000 % 4 == (if speed == 3 {
                hub.characteristics as int / 32 % 4
            } else {
                0
            })
            &&& word(slot + 2) % 0x1_0000 == output[2] % 0x1_0000
            &&& word(slot + 3) == output[3]
        }),
{
    lemma_hub_word(output[0]);
    let time = (if speed == 3 {
        hub.characteristics as int / 32 % 4
    } else {
        0
    }) as u32;
    lemma_think_word(output[2], time);
}

/// A bit that was added stays, and no other is added with it.
proof fn lemma_added(flags: u32, bit: u32, other: u32)
    by (bit_vector)
    requires
        bit <= 31,
        other <= 31,
    ensures
        ((flags | (1u32 << bit)) >> bit) & 1 == 1,
        other != bit ==> ((flags | (1u32 << bit)) >> other) & 1 == (flags >> other) & 1,
        (1u32 >> other) & 1 == if other == 0 { 1u32 } else { 0u32 },
{
}

/// The contexts that are added are that of the slot and those of the endpoints of the interfaces,
/// and no others; the slot tells the last of them.
pub proof fn law_all_endpoints_are_added(interfaces: Seq<HidInterfaceState>, count: nat, bit: u32)
    requires
        count <= interfaces.len(),
        bit <= 31,
        forall|i: int| 0 <= i < interfaces.len() ==> configurable(#[trigger] interfaces[i]),
    ensures
        (add_flags(interfaces, count) >> bit) & 1 == 1 <==> bit == 0 || exists|i: int|
            0 <= i < count && (#[trigger] interfaces[i]).endpoint_id == bit,
        forall|i: int|
            0 <= i < count ==> (#[trigger] interfaces[i]).endpoint_id <= last_context(
                interfaces,
                count,
            ),
        last_context(interfaces, count) == 1 || exists|i: int|
            0 <= i < count && (#[trigger] interfaces[i]).endpoint_id == last_context(
                interfaces,
                count,
            ),
    decreases count,
{
    if count == 0 {
        lemma_added(1, 0, bit);
    } else {
        let before = (count - 1) as nat;
        law_all_endpoints_are_added(interfaces, before, bit);
        assert(configurable(interfaces[count - 1]));
        lemma_added(
            add_flags(interfaces, before),
            interfaces[count - 1].endpoint_id as u32,
            bit,
        );
    }
}

/// The context of an endpoint tells the controller its interval, that it is one for interrupts
/// towards the host, its burst, its packets, its ring and what it moves at most.
pub proof fn law_endpoint_contexts_describe_the_endpoint(
    words: Seq<u32>,
    size: int,
    interface: HidInterfaceState,
)
    requires
        words.len() == PAGE_WORDS,
        valid_context_size(size),
        configurable(interface),
        interface.ring.page.physical % 16 == 0,
        interface.max_esit_payload <= 0xffff,
    ensures
        ({
            let after = with_endpoint(words, size, interface);
            let at = (interface.endpoint_id + 1) * size / 4;
            &&& after.len() == words.len()
            &&& after[at] == 0x1_0000 * interface.interval
            &&& after[at + 1] as int / 2 % 4 == 3
            &&& after[at + 1] as int / 8 % 8 == 7
            &&& after[at + 1] as int / 0x100 % 256 == interface.max_burst
            &&& after[at + 1] as int / 0x1_0000 == interface.max_packet_size
            &&& after[at + 2] + 0x1_0000_0000 * after[at + 3] == interface.ring.page.physical + 1
            &&& after[at + 4] as int % 0x1_0000 == interface.max_esit_payload
            &&& after[at + 4] as int / 0x1_0000 == interface.max_esit_payload
            &&& forall|i: int|
                0 <= i < words.len() && !(at <= i < at + 5) ==> #[trigger] after[i] == words[i]
        }),
{
    let low = (interface.ring.page.physical as int % 0x1_0000_0000) as u32;
    assert(low % 16 == 0);
    lemma_marked(low);
    let at = (interface.endpoint_id + 1) * size / 4;
    assert(0 <= at && at + 5 <= PAGE_WORDS) by (nonlinear_arith)
        requires
            at == (interface.endpoint_id + 1) * size / 4,
            1 <= interface.endpoint_id <= 31,
            size == 32 || size == 64,
            PAGE_WORDS == 1024,
    ;
}

/// The registers of a controller are where its capabilities say; it is asked for no more slots
/// than the driver can hold.
pub proof fn law_layouts_follow_the_capabilities(raw: CapabilityRegisters)
    ensures
        ({
            let layout = layout_spec(raw);
            &&& layout.operational == raw.capability_length
            &&& layout.runtime == raw.runtime_offset as int / 32 * 32
            &&& layout.doorbells == raw.doorbell_offset as int / 4 * 4
            &&& layout.max_slots <= 16
            &&& layout.max_slots == raw.hcsparams1 % 256 || (layout.max_slots == 16 && raw.hcsparams1
                % 256 > 16)
            &&& layout.max_ports == raw.hcsparams1 as int / 0x100_0000
            &&& layout.context_size == 64 <==> raw.hccparams1 as int / 4 % 2 == 1
            &&& layout.context_size == 32 <==> raw.hccparams1 as int / 4 % 2 == 0
            &&& layout.address_64 <==> raw.hccparams1 % 2 == 1
            &&& scratchpads_spec(raw.hcsparams2 as int) == 32 * (raw.hcsparams2 as int / 0x20_0000
                % 32) + raw.hcsparams2 as int / 0x800_0000
        }),
{
}

/// A controller is stopped before it is reset, and is not used before it is ready.
pub proof fn law_controllers_are_stopped_and_reset(operational: u64, command: u32)
    requires
        operational <= 0xff,
    ensures
        ({
            let steps = reset_steps_spec(operational, command);
            &&& steps.len() == 5
            &&& steps[0] matches RegisterStep::Write { offset, value } && offset == operational
                && value % 2 == 0 && value / 2 == command / 2
            &&& steps[1] == RegisterStep::Wait {
                offset: (operational + 4) as u64,
                mask: 1,
                set: true,
            }
            &&& steps[2] matches RegisterStep::Write { offset, value } && offset == operational
                && value & 2 == 2 && value % 2 == 0
            &&& steps[3] == RegisterStep::Wait { offset: operational, mask: 2, set: false }
            &&& steps[4] == RegisterStep::Wait {
                offset: (operational + 4) as u64,
                mask: 0x800,
                set: false,
            }
        }),
{
    let halted = (command - command % 2) as u32;
    assert(halted % 2 == 0);
    assert((halted | 2) & 2 == 2 && (halted % 2 == 0 ==> (halted | 2) % 2 == 0)) by (bit_vector);
}

/// A controller is handed its tables in the registers that are for them: the array of contexts,
/// the ring of commands, the number of slots, and the segments and the place of the event ring.
pub proof fn law_controllers_are_handed_their_tables(layout: XhciLayout, tables: ControllerTables)
    requires
        layout.operational <= 0xff,
        layout.runtime <= u32::MAX,
    ensures
        ({
            let steps = program_steps_spec(layout, tables);
            let base = layout.operational;
            let first = layout.runtime + 0x20;
            &&& steps.len() == 7
            &&& steps[0] == RegisterStep::WriteWide {
                offset: (base + 48) as u64,
                wide: tables.dcbaa,
            }
            &&& steps[1] matches RegisterStep::WriteWide { offset, wide } && offset == base + 24
                && wide & 1 == 1 && (tables.command_ring % 2 == 0 ==> wide == tables.command_ring
                + 1)
            &&& steps[2] == RegisterStep::Write {
                offset: (base + 56) as u64,
                value: layout.max_slots as u32,
            }
            &&& steps[3] == RegisterStep::Write { offset: first as u64, value: 1 }
            &&& steps[4] == RegisterStep::Write { offset: (first + 8) as u64, value: 1 }
            &&& steps[5] == RegisterStep::WriteWide {
                offset: (first + 16) as u64,
                wide: tables.event_segments,
            }
            &&& steps[6] == RegisterStep::WriteWide {
                offset: (first + 24) as u64,
                wide: tables.event_ring,
            }
        }),
{
    let ring = tables.command_ring;
    assert((ring | 1) & 1 == 1 && (ring % 2 == 0 ==> (ring | 1) == ring + 1)) by (bit_vector);
}

/// The segment table of the event ring names the one ring and its two hundred and fifty-six
/// places.
pub proof fn law_segment_tables_name_the_ring(words: Seq<u32>, event_ring: u64)
    requires
        words.len() == PAGE_WORDS,
    ensures
        ({
            let after = apply_writes(words, segment_writes(event_ring));
            &&& after[0] + 0x1_0000_0000 * after[1] == event_ring
            &&& after[2] == 256
            &&& after[3] == 0
        }),
{
    let writes = segment_writes(event_ring);
    let two = writes.drop_last();
    let one = two.drop_last();
    assert(one.drop_last() =~= Seq::<PageWrite>::empty());
    assert(writes.last() == PageWrite::Word { offset: 12, value: 0 });
    assert(two.last() == PageWrite::Word { offset: 8, value: 256 });
    assert(one.last() == PageWrite::Double { offset: 0, wide: event_ring });
    assert(apply_writes(words, one.drop_last()) == words);
    assert(apply_writes(words, one) == apply_write(words, one.last()));
    assert(apply_writes(words, two) == apply_write(apply_writes(words, one), two.last()));
}

/// A protocol covers the ports from its first on, as many as it says.
pub proof fn law_protocols_cover_their_ports(ports: int, max_ports: int, port: int)
    requires
        0 <= ports,
        ports % 256 + ports / 256 % 256 <= 255,
        1 <= port <= max_ports,
    ensures
        protocol_covers(ports, max_ports, port) <==> ports % 256 <= port < ports % 256 + ports / 256
            % 256,
{
}

} // verus!
