//! Events, attachment and removal of USB devices.
use vstd::prelude::*;

use super::control::ControlWait;
use super::controller::MAX_DEVICES;
use super::device::{
    interface_pages, report_trb, retire_interface, HidInterfaceInfo, HidInterfaceState, HubState,
    UsbDevice,
};
use super::error::UsbError;
use super::host::{
    active_of, announce, HidReport, UsbHost, UsbLifecycleEvent, MAX_REPORTS_PER_POLL,
};
use super::page::{DmaPage, PAGE_SIZE};
use super::path::{is_teardown_order, teardown_slot_order, UsbPath};
use super::ring::{
    Trb, COMPLETION_SHORT_PACKET, COMPLETION_SUCCESS, TRB_TYPE_PORT_STATUS_CHANGE_EVENT,
    TRB_TYPE_TRANSFER_EVENT,
};
use crate::bytes::le_byte;

verus! {

/// What the caller has to do for an event.
#[derive(Debug)]
pub enum EventAction {
    Nothing,
    /// Ring the doorbell of this slot and endpoint; a report may have arrived.
    Ring { slot: u8, endpoint: u8, report: Option<HidReport> },
    /// Look at this root port.
    ServicePort(u8),
    Failed(UsbError),
}

/// The hub at `index` has a port to poll.
pub open spec fn pollable(device: UsbDevice) -> bool {
    device.hub matches Some(hub) && hub.ports > 0
}

/// The port of `hub` to poll now.
pub open spec fn port_to_poll(hub: HubState) -> u8 {
    if hub.next_port < 1 {
        1
    } else if hub.next_port > hub.ports {
        hub.ports
    } else {
        hub.next_port
    }
}

/// `device` after its port to poll was handed out.
pub open spec fn after_polling(device: UsbDevice) -> UsbDevice {
    let hub = device.hub->Some_0;
    let port = port_to_poll(hub);
    UsbDevice {
        hub: Some(
            HubState {
                next_port: if port == hub.ports {
                    1
                } else {
                    (port + 1) as u8
                },
                ..hub
            },
        ),
        ..device
    }
}

/// Interface `i` of device `d` listens on `endpoint` of `slot`.
pub open spec fn listens(devices: Seq<UsbDevice>, slot: u8, endpoint: u8, d: int, i: int) -> bool {
    &&& 0 <= d < devices.len()
    &&& 0 <= i < devices[d].interfaces@.len()
    &&& devices[d].slot_id == slot
    &&& devices[d].interfaces@[i].active
    &&& devices[d].interfaces@[i].endpoint_id == endpoint
}

/// Interface `i` of device `d` is the first that listens on `endpoint` of `slot`.
pub open spec fn first_listener(
    devices: Seq<UsbDevice>,
    slot: u8,
    endpoint: u8,
    d: int,
    i: int,
) -> bool {
    &&& listens(devices, slot, endpoint, d, i)
    &&& forall|e: int, j: int|
        #![trigger devices[e].interfaces@[j]]
        (0 <= e < d && 0 <= j < devices[e].interfaces@.len()) || (e == d && 0 <= j < i)
            ==> !listens(devices, slot, endpoint, e, j)
}

/// `after` is `before` with interface `i` of device `d` replaced.
pub open spec fn one_interface_changed(
    before: Seq<UsbDevice>,
    after: Seq<UsbDevice>,
    d: int,
    i: int,
) -> bool {
    &&& after.len() == before.len()
    &&& forall|e: int| 0 <= e < before.len() && e != d ==> #[trigger] after[e] == before[e]
    &&& after[d] == (UsbDevice { interfaces: after[d].interfaces, ..before[d] })
    &&& after[d].interfaces@ == before[d].interfaces@.update(i, after[d].interfaces@[i])
}

/// The bytes that a transfer of `residual` missing bytes left in the buffer.
pub open spec fn report_bytes(interface: HidInterfaceState, residual: int) -> Seq<u8> {
    Seq::new(
        (if residual > interface.buffer_len {
            0
        } else {
            interface.buffer_len - residual
        }) as nat,
        |k: int| le_byte(interface.buffer.words@[k / 4] as int, k % 4),
    )
}

/// The root port that a port event names.
pub open spec fn event_port(event: Trb) -> int {
    event.parameter as int / 0x100_0000 % 256
}

impl<P> UsbHost<P> {
    /// This host is `before` with its next hub port handed out, if there is one.
    pub open spec fn hub_port_taken(&self, before: Self, found: Option<(usize, u8)>) -> bool {
        &&& match found {
            None => {
                &&& *self == before
                &&& forall|i: int|
                    0 <= i < before.devices@.len() ==> !pollable(
                        #[trigger] before.devices@[i],
                    )
            },
            Some((index, port)) => {
                let count = before.devices@.len() as int;
                &&& index < count
                &&& pollable(before.devices@[index as int])
                &&& exists|offset: int|
                    #![trigger ((before.hub_cursor + offset) % count)]
                    {
                        &&& 0 <= offset < count
                        &&& index == (before.hub_cursor + offset) % count
                        &&& forall|k: int|
                            0 <= k < offset ==> !pollable(
                                before.devices@[#[trigger] ((before.hub_cursor + k)
                                    % count)],
                            )
                    }
                &&& port == port_to_poll(before.devices@[index as int].hub->Some_0)
                &&& self.hub_cursor == (index + 1) % count
                &&& self.devices@ == before.devices@.update(
                    index as int,
                    after_polling(before.devices@[index as int]),
                )
                &&& *self == (UsbHost {
                    hub_cursor: self.hub_cursor,
                    devices: self.devices,
                    ..before
                })
            },
        }
    }

    /// The next hub port to poll, taking hubs and ports in turn.
    pub fn next_hub_port(&mut self) -> (found: Option<(usize, u8)>)
        requires
            old(self).wf(),
        ensures
            final(self).wf(),
            final(self).hub_port_taken(*old(self), found),
    {
        let count: usize = self.devices.len();
        if count == 0 {
            return None;
        }
        let mut offset: usize = 0;
        while offset < count
            invariant
                count == self.devices@.len(),
                *self == *old(self),
                self.wf(),
                0 < count <= MAX_DEVICES,
                offset <= count,
                forall|k: int|
                    0 <= k < offset ==> !pollable(
                        self.devices@[#[trigger] ((self.hub_cursor + k) % count as int)],
                    ),
            decreases count - offset,
        {
            let index: usize = (self.hub_cursor + offset) % count;
            if let Some(hub) = self.devices[index].hub {
                if hub.ports != 0 {
                    let port: u8 = if hub.next_port < 1 {
                        1
                    } else if hub.next_port > hub.ports {
                        hub.ports
                    } else {
                        hub.next_port
                    };
                    let next_port: u8 = if port == hub.ports {
                        1
                    } else {
                        port + 1
                    };
                    proof {
                        assert(self.devices@[index as int].wf());
                        let k = offset as int;
                        assert(index == (old(self).hub_cursor + k) % (count as int));
                    }
                    self.devices[index].hub = Some(HubState { next_port, ..hub });
                    self.hub_cursor = (index + 1) % count;
                    proof {
                        assert(self.devices@ =~= old(self).devices@.update(
                            index as int,
                            after_polling(old(self).devices@[index as int]),
                        ));
                    }
                    return Some((index, port));
                }
            }
            proof {
                assert(!pollable(self.devices@[(self.hub_cursor + offset) % count as int]));
            }
            offset += 1;
        }
        proof {
            assert forall|i: int| 0 <= i < self.devices@.len() implies !pollable(
                #[trigger] self.devices@[i],
            ) by {
                let c = count as int;
                let start = self.hub_cursor as int % c;
                let k = if i >= start {
                    i - start
                } else {
                    i - start + c
                };
                assert((self.hub_cursor + k) % c == i) by {
                    let q = self.hub_cursor as int / c;
                    assert(self.hub_cursor == c * q + start) by {
                        vstd::arithmetic::div_mod::lemma_fundamental_div_mod(
                            self.hub_cursor as int,
                            c,
                        );
                    }
                    if i >= start {
                        vstd::arithmetic::div_mod::lemma_fundamental_div_mod_converse(
                            self.hub_cursor + k,
                            c,
                            q,
                            i,
                        );
                    } else {
                        assert(c * (q + 1) == c * q + c) by (nonlinear_arith);
                        vstd::arithmetic::div_mod::lemma_fundamental_div_mod_converse(
                            self.hub_cursor + k,
                            c,
                            q + 1,
                            i,
                        );
                    }
                }
                assert(!pollable(self.devices@[(self.hub_cursor + k) % c]));
            }
        }
        None
    }

    fn find_endpoint_indexes(&self, slot: u8, endpoint: u8) -> (found: Option<(usize, usize)>)
        ensures
            match found {
                Some((d, i)) => first_listener(self.devices@, slot, endpoint, d as int, i as int),
                None => forall|d: int, i: int|
                    #![trigger self.devices@[d].interfaces@[i]]
                    0 <= d < self.devices@.len() && 0 <= i < self.devices@[d].interfaces@.len()
                        ==> !listens(self.devices@, slot, endpoint, d, i),
            },
    {
        let mut d: usize = 0;
        while d < self.devices.len()
            invariant
                d <= self.devices@.len(),
                forall|e: int, j: int|
                    #![trigger self.devices@[e].interfaces@[j]]
                    0 <= e < d && 0 <= j < self.devices@[e].interfaces@.len() ==> !listens(
                        self.devices@,
                        slot,
                        endpoint,
                        e,
                        j,
                    ),
            decreases self.devices@.len() - d,
        {
            let device: &UsbDevice = &self.devices[d];
            if device.slot_id == slot {
                let mut i: usize = 0;
                while i < device.interfaces.len()
                    invariant
                        d < self.devices@.len(),
                        *device == self.devices@[d as int],
                        device.slot_id == slot,
                        i <= device.interfaces@.len(),
                        forall|e: int, j: int|
                            #![trigger self.devices@[e].interfaces@[j]]
                            (0 <= e < d && 0 <= j < self.devices@[e].interfaces@.len()) || (e == d
                                && 0 <= j < i) ==> !listens(self.devices@, slot, endpoint, e, j),
                    decreases device.interfaces@.len() - i,
                {
                    let interface: &HidInterfaceState = &device.interfaces[i];
                    if interface.active && interface.endpoint_id == endpoint {
                        return Some((d, i));
                    }
                    i += 1;
                }
            }
            d += 1;
        }
        None
    }

    /// No interface listens for the event.
    pub open spec fn unheard(&self, event: Trb) -> bool {
        forall|d: int, i: int|
            #![trigger self.devices@[d].interfaces@[i]]
            0 <= d < self.devices@.len() && 0 <= i < self.devices@[d].interfaces@.len()
                ==> !listens(
                self.devices@,
                event.slot_spec() as u8,
                event.endpoint_spec() as u8,
                d,
                i,
            )
    }

    /// Handles one transfer event for the interface that listens for it.
    ///
    /// `after` is the host afterwards and `collected` the reports of this poll so far.
    pub open spec fn transfer_post(
        &self,
        after: Self,
        event: Trb,
        collected: usize,
        d: int,
        i: int,
        action: EventAction,
    ) -> bool {
        let interface = self.devices@[d].interfaces@[i];
        let next = after.devices@[d].interfaces@[i];
        if !ControlWait::moved(event) {
            // The endpoint halted: the interface is gone.
            &&& action == EventAction::Nothing
            &&& one_interface_changed(self.devices@, after.devices@, d, i)
            &&& next == (HidInterfaceState {
                transfer_error: Some(event.completion_spec() as u8),
                active: false,
                ..interface
            })
            &&& after.lifecycle_events@ == super::host::bounded_push(
                self.lifecycle_events@,
                super::host::LIFECYCLE_EVENT_CAPACITY as nat,
                UsbLifecycleEvent::InterfaceRemoved(interface.info),
            )
            &&& after == (UsbHost {
                devices: after.devices,
                lifecycle_events: after.lifecycle_events,
                ..*self
            })
        } else if event.pointer_spec() != interface.queued_trb {
            action == EventAction::Nothing && after == *self
        } else if report_bytes(interface, event.residual_spec()).len() > PAGE_SIZE {
            action == EventAction::Failed(UsbError::AddressOverflow) && after == *self
        } else if interface.buffer_len > u32::MAX {
            &&& action == EventAction::Failed(UsbError::ReportTooLarge)
            &&& after.devices@ == self.devices@
            &&& after == (UsbHost { devices: after.devices, ..*self })
        } else {
            // A report arrived: the next one is asked for.
            &&& one_interface_changed(self.devices@, after.devices@, d, i)
            &&& next.same_but_queue(interface)
            &&& next.queued_trb == interface.ring.page.physical + 16 * interface.ring.enqueue_index
            &&& next.ring.appended(
                interface.ring,
                report_trb(interface.buffer.physical, interface.buffer_len as u32).with_cycle_spec(
                    interface.ring.cycle,
                ),
            )
            &&& after == (UsbHost { devices: after.devices, ..*self })
            &&& action matches EventAction::Ring { slot, endpoint, report }
            &&& slot == self.devices@[d].slot_id
            &&& endpoint == interface.endpoint_id
            &&& match report {
                Some(report) => {
                    &&& collected < MAX_REPORTS_PER_POLL
                    &&& report.interface == interface.info.id
                    &&& report.bytes@ == report_bytes(interface, event.residual_spec())
                },
                None => collected >= MAX_REPORTS_PER_POLL,
            }
        }
    }

    /// This host is `before` after an event, which calls for `action`.
    pub open spec fn event_handled(&self, before: Self, event: Trb, collected: usize, action: EventAction) -> bool {
        &&& if event.type_spec() == TRB_TYPE_TRANSFER_EVENT {
            if before.unheard(event) {
                action == EventAction::Nothing && *self == before
            } else {
                exists|d: int, i: int|
                    {
                        &&& #[trigger] first_listener(
                            before.devices@,
                            event.slot_spec() as u8,
                            event.endpoint_spec() as u8,
                            d,
                            i,
                        )
                        &&& before.transfer_post(*self, event, collected, d, i, action)
                    }
            }
        } else {
            &&& *self == before
            &&& action == (if event.type_spec() == TRB_TYPE_PORT_STATUS_CHANGE_EVENT && 1
                <= event_port(event) <= before.layout.max_ports {
                EventAction::ServicePort(event_port(event) as u8)
            } else {
                EventAction::Nothing
            })
        }
    }

    /// Handles one controller event.
    pub fn process_event(&mut self, event: Trb, collected: usize) -> (action: EventAction)
        requires
            old(self).wf(),
        ensures
            final(self).wf(),
            final(self).event_handled(*old(self), event, collected, action),
    {
        let kind: u32 = event.trb_type();
        if kind == TRB_TYPE_TRANSFER_EVENT {
            let completion: u8 = event.completion_code();
            let residual: usize = event.residual() as usize;
            let (d, i): (usize, usize) = match self.find_endpoint_indexes(
                event.slot_id(),
                event.endpoint_id(),
            ) {
                Some(found) => found,
                None => {
                    return EventAction::Nothing;
                },
            };
            assert(listens(self.devices@, event.slot_spec() as u8, event.endpoint_spec() as u8, d as int, i as int));
            assert(!self.unheard(event)) by {
                let witness = self.devices@[d as int].interfaces@[i as int];
            }
            assert(self.devices@[d as int].wf());
            assert(self.devices@[d as int].interfaces@[i as int].wf());
            if completion != COMPLETION_SUCCESS && completion != COMPLETION_SHORT_PACKET {
                let retired = retire_interface(&mut self.devices[d].interfaces[i], completion);
                proof {
                    lemma_changed_devices_wf(old(self).devices@, self.devices@, d as int, i as int);
                }
                if let Some(info) = retired {
                    self.push_lifecycle(UsbLifecycleEvent::InterfaceRemoved(info));
                }
                return EventAction::Nothing;
            }
            if event.pointer() != self.devices[d].interfaces[i].queued_trb {
                return EventAction::Nothing;
            }
            let buffer_len: usize = self.devices[d].interfaces[i].buffer_len;
            let actual: usize = if residual > buffer_len {
                0
            } else {
                buffer_len - residual
            };
            let bytes: Vec<u8> = match self.devices[d].interfaces[i].buffer.read_bytes(actual) {
                Ok(bytes) => bytes,
                Err(error) => {
                    return EventAction::Failed(error);
                },
            };
            assert(bytes@ =~= report_bytes(
                old(self).devices@[d as int].interfaces@[i as int],
                event.residual_spec(),
            ));
            match self.devices[d].interfaces[i].queue_next() {
                Ok(()) => {},
                Err(error) => {
                    proof {
                        assert(self.devices@[d as int].interfaces@ =~= old(self).devices@[d as int].interfaces@);
                        lemma_changed_devices_wf(
                            old(self).devices@,
                            self.devices@,
                            d as int,
                            i as int,
                        );
                    }
                    return EventAction::Failed(error);
                },
            }
            proof {
                lemma_changed_devices_wf(old(self).devices@, self.devices@, d as int, i as int);
            }
            let slot: u8 = self.devices[d].slot_id;
            let endpoint: u8 = self.devices[d].interfaces[i].endpoint_id;
            let report: Option<HidReport> = if collected < MAX_REPORTS_PER_POLL {
                Some(HidReport { interface: self.devices[d].interfaces[i].info.id, bytes })
            } else {
                None
            };
            return EventAction::Ring { slot, endpoint, report };
        }
        if kind == TRB_TYPE_PORT_STATUS_CHANGE_EVENT {
            let port: u8 = (event.parameter() / 0x100_0000 % 256) as u8;
            if port != 0 && port <= self.layout.max_ports {
                return EventAction::ServicePort(port);
            }
        }
        EventAction::Nothing
    }
}

/// Replacing one interface by a usable one keeps the devices usable.
proof fn lemma_changed_devices_wf(before: Seq<UsbDevice>, after: Seq<UsbDevice>, d: int, i: int)
    requires
        0 <= d < before.len(),
        0 <= i < before[d].interfaces@.len(),
        one_interface_changed(before, after, d, i),
        after[d].interfaces@[i].wf(),
        forall|e: int| 0 <= e < before.len() ==> (#[trigger] before[e]).wf(),
        forall|e: int| 0 <= e < before.len() ==> (#[trigger] before[e]).path.depth < 8,
        forall|e: int|
            0 <= e < before.len() ==> (#[trigger] before[e]).interfaces@.len() <= 0xffff,
    ensures
        forall|e: int| 0 <= e < after.len() ==> (#[trigger] after[e]).wf(),
        forall|e: int| 0 <= e < after.len() ==> (#[trigger] after[e]).path.depth < 8,
        forall|e: int| 0 <= e < after.len() ==> (#[trigger] after[e]).interfaces@.len() <= 0xffff,
{
    assert forall|e: int| 0 <= e < after.len() implies (#[trigger] after[e]).wf() by {
        assert(before[e].wf());
        if e == d {
            assert forall|j: int| 0 <= j < after[d].interfaces@.len() implies (
            #[trigger] after[d].interfaces@[j]).wf() by {
                if j != i {
                    assert(after[d].interfaces@[j] == before[d].interfaces@[j]);
                }
            }
        }
    }
    assert forall|e: int| 0 <= e < after.len() implies (#[trigger] after[e]).path.depth < 8 by {
        assert(before[e].path.depth < 8);
    }
    assert forall|e: int| 0 <= e < after.len() implies (#[trigger] after[e]).interfaces@.len()
        <= 0xffff by {
        assert(before[e].interfaces@.len() <= 0xffff);
    }
}

/// The doorbell writes that start the active interfaces among the first `count`.
pub open spec fn start_doorbells(device: UsbDevice, doorbells: int, count: nat) -> Seq<(u64, u32)>
    decreases count,
{
    if count == 0 {
        Seq::empty()
    } else {
        let before = start_doorbells(device, doorbells, (count - 1) as nat);
        let interface = device.interfaces@[count - 1];
        if interface.active {
            before.push(
                ((doorbells + device.slot_id * 4) as u64, interface.endpoint_id as u32),
            )
        } else {
            before
        }
    }
}

/// The interface can be started on a controller with these slots.
pub open spec fn startable(interface: HidInterfaceState, slot: u8, max_slots: u8) -> bool {
    interface.active ==> interface.buffer_len <= u32::MAX && slot <= max_slots
        && interface.endpoint_id <= 31
}

/// `after` is `before` with its first report asked for, where it is active.
pub open spec fn started(before: HidInterfaceState, after: HidInterfaceState) -> bool {
    if before.active {
        &&& after.same_but_queue(before)
        &&& after.queued_trb == before.ring.page.physical + 16 * before.ring.enqueue_index
        &&& after.ring.appended(
            before.ring,
            report_trb(before.buffer.physical, before.buffer_len as u32).with_cycle_spec(
                before.ring.cycle,
            ),
        )
    } else {
        after == before
    }
}

impl<P> UsbHost<P> {
    /// Attaches an enumerated device.
    pub fn add_device(&mut self, device: UsbDevice) -> (index: usize)
        requires
            old(self).wf(),
            old(self).devices@.len() < MAX_DEVICES,
            device.wf(),
            device.path.depth < 8,
            device.interfaces@.len() <= 0xffff,
        ensures
            final(self).wf(),
            index == old(self).devices@.len(),
            final(self).devices@ == old(self).devices@.push(device),
            *final(self) == (UsbHost { devices: final(self).devices, ..*old(self) }),
    {
        let index: usize = self.devices.len();
        self.devices.push(device);
        proof {
            assert forall|i: int| 0 <= i < self.devices@.len() implies (
            #[trigger] self.devices@[i]).wf() by {
                if i < index {
                    assert(old(self).devices@[i].wf());
                }
            }
            assert forall|i: int| 0 <= i < self.devices@.len() implies (
            #[trigger] self.devices@[i]).path.depth < 8 by {
                if i < index {
                    assert(old(self).devices@[i].path.depth < 8);
                }
            }
            assert forall|i: int| 0 <= i < self.devices@.len() implies (
            #[trigger] self.devices@[i]).interfaces@.len() <= 0xffff by {
                if i < index {
                    assert(old(self).devices@[i].interfaces@.len() <= 0xffff);
                }
            }
        }
        index
    }

    /// Asks every active interface of a device for its first report.
    ///
    /// On success the result lists the doorbells to ring, in interface order.
    pub fn start_device(&mut self, index: usize) -> (result: Result<Vec<(u64, u32)>, UsbError>)
        requires
            old(self).wf(),
            index < old(self).devices@.len(),
            old(self).layout.doorbells <= u32::MAX,
        ensures
            final(self).wf(),
            *final(self) == (UsbHost { devices: final(self).devices, ..*old(self) }),
            final(self).devices@.len() == old(self).devices@.len(),
            forall|e: int|
                0 <= e < old(self).devices@.len() && e != index ==> #[trigger] final(self).devices@[e] == old(self).devices@[e],
            ({
                let before = old(self).devices@[index as int];
                let after = final(self).devices@[index as int];
                let max_slots = old(self).layout.max_slots;
                &&& after == (UsbDevice { interfaces: after.interfaces, ..before })
                &&& after.interfaces@.len() == before.interfaces@.len()
                &&& match result {
                    Ok(doorbells) => {
                        &&& forall|i: int|
                            0 <= i < before.interfaces@.len() ==> startable(
                                #[trigger] before.interfaces@[i],
                                before.slot_id,
                                max_slots,
                            )
                        &&& forall|i: int|
                            0 <= i < before.interfaces@.len() ==> started(
                                #[trigger] before.interfaces@[i],
                                after.interfaces@[i],
                            )
                        &&& doorbells@ == start_doorbells(
                            before,
                            old(self).layout.doorbells as int,
                            before.interfaces@.len(),
                        )
                    },
                    Err(error) => exists|i: int|
                        {
                            &&& 0 <= i < before.interfaces@.len()
                            &&& !startable(
                                #[trigger] before.interfaces@[i],
                                before.slot_id,
                                max_slots,
                            )
                            &&& error == (if before.interfaces@[i].buffer_len > u32::MAX {
                                UsbError::ReportTooLarge
                            } else {
                                UsbError::InvalidEndpoint
                            })
                            &&& forall|j: int|
                                0 <= j < i ==> startable(
                                    #[trigger] before.interfaces@[j],
                                    before.slot_id,
                                    max_slots,
                                ) && started(before.interfaces@[j], after.interfaces@[j])
                            &&& if before.interfaces@[i].buffer_len > u32::MAX {
                                after.interfaces@[i] == before.interfaces@[i]
                            } else {
                                started(before.interfaces@[i], after.interfaces@[i])
                            }
                            &&& forall|j: int|
                                i < j < before.interfaces@.len() ==> #[trigger] after.interfaces@[j]
                                    == before.interfaces@[j]
                        },
                }
            }),
    {
        let mut doorbells: Vec<(u64, u32)> = Vec::new();
        let mut at: usize = 0;
        let slot: u8 = self.devices[index].slot_id;
        let count: usize = self.devices[index].interfaces.len();
        let ghost before = self.devices@[index as int];
        while at < count
            invariant
                self.wf(),
                *self == (UsbHost { devices: self.devices, ..*old(self) }),
                self.devices@.len() == old(self).devices@.len(),
                index < self.devices@.len(),
                before == old(self).devices@[index as int],
                count == before.interfaces@.len(),
                slot == before.slot_id,
                at <= count,
                self.layout.doorbells <= u32::MAX,
                forall|e: int|
                    0 <= e < self.devices@.len() && e != index ==> #[trigger] self.devices@[e]
                        == old(self).devices@[e],
                self.devices@[index as int] == (UsbDevice {
                    interfaces: self.devices@[index as int].interfaces,
                    ..before
                }),
                self.devices@[index as int].interfaces@.len() == count,
                forall|i: int|
                    at <= i < count ==> #[trigger] self.devices@[index as int].interfaces@[i]
                        == before.interfaces@[i],
                forall|i: int|
                    0 <= i < at ==> startable(
                        #[trigger] before.interfaces@[i],
                        slot,
                        self.layout.max_slots,
                    ) && started(
                        before.interfaces@[i],
                        self.devices@[index as int].interfaces@[i],
                    ),
                doorbells@ == start_doorbells(before, self.layout.doorbells as int, at as nat),
            decreases count - at,
        {
            let ghost step = self.devices@;
            assert(step[index as int].wf());
            assert(step[index as int].interfaces@[at as int].wf());
            if self.devices[index].interfaces[at].active {
                match self.devices[index].interfaces[at].queue_next() {
                    Err(error) => {
                        proof {
                            assert(self.devices@[index as int].interfaces@
                                =~= step[index as int].interfaces@);
                            lemma_changed_devices_wf(step, self.devices@, index as int, at as int);
                            assert(!startable(
                                before.interfaces@[at as int],
                                slot,
                                self.layout.max_slots,
                            ));
                        }
                        return Err(error);
                    },
                    Ok(()) => {},
                }
                proof {
                    lemma_changed_devices_wf(step, self.devices@, index as int, at as int);
                }
                let endpoint: u8 = self.devices[index].interfaces[at].endpoint_id;
                match self.layout.doorbell(slot, endpoint) {
                    Err(error) => {
                        assert(!startable(
                            before.interfaces@[at as int],
                            slot,
                            self.layout.max_slots,
                        ));
                        return Err(error);
                    },
                    Ok(write) => {
                        doorbells.push(write);
                    },
                }
            }
            at += 1;
        }
        Ok(doorbells)
    }

    /// Announces the active interfaces of a device.
    pub fn announce_device(&mut self, index: usize)
        requires
            old(self).wf(),
            index < old(self).devices@.len(),
        ensures
            final(self).wf(),
            final(self).lifecycle_events@ == announce(
                old(self).lifecycle_events@,
                active_of(
                    old(self).devices@[index as int].interfaces@,
                    old(self).devices@[index as int].interfaces@.len(),
                ),
                true,
            ),
            final(self).same_but_events(*old(self)),
    {
        let count: usize = self.devices[index].interfaces.len();
        let mut at: usize = 0;
        while at < count
            invariant
                self.wf(),
                self.same_but_events(*old(self)),
                index < self.devices@.len(),
                count == self.devices@[index as int].interfaces@.len(),
                at <= count,
                self.lifecycle_events@ == announce(
                    old(self).lifecycle_events@,
                    active_of(self.devices@[index as int].interfaces@, at as nat),
                    true,
                ),
            decreases count - at,
        {
            if self.devices[index].interfaces[at].active {
                let info: HidInterfaceInfo = self.devices[index].interfaces[at].info;
                let ghost shown = active_of(self.devices@[index as int].interfaces@, at as nat);
                self.push_lifecycle(UsbLifecycleEvent::InterfaceAdded(info));
                assert(shown.push(info).drop_last() =~= shown);
            }
            at += 1;
        }
    }

    /// The slots to disable when the device at `path` goes away.
    pub fn teardown_order(&self, path: UsbPath) -> (slots: Vec<u8>)
        requires
            path.depth < 8,
        ensures
            is_teardown_order(
                slots@,
                self.devices@.map_values(|d: UsbDevice| (d.path, d.slot_id)),
                path,
            ),
    {
        let mut entries: Vec<(UsbPath, u8)> = Vec::new();
        let mut index: usize = 0;
        while index < self.devices.len()
            invariant
                index <= self.devices@.len(),
                entries@ == self.devices@.take(index as int).map_values(
                    |d: UsbDevice| (d.path, d.slot_id),
                ),
            decreases self.devices@.len() - index,
        {
            entries.push((self.devices[index].path, self.devices[index].slot_id));
            index += 1;
            assert(entries@ =~= self.devices@.take(index as int).map_values(
                |d: UsbDevice| (d.path, d.slot_id),
            ));
        }
        assert(self.devices@.take(index as int) =~= self.devices@);
        teardown_slot_order(entries.as_slice(), path)
    }

    /// Device `index` is the first in slot `slot`.
    pub open spec fn first_in_slot(&self, slot: u8, index: int) -> bool {
        &&& 0 <= index < self.devices@.len()
        &&& self.devices@[index].slot_id == slot
        &&& forall|i: int| 0 <= i < index ==> (#[trigger] self.devices@[i]).slot_id != slot
    }

    /// The device in `slot`.
    pub fn device_in_slot(&self, slot: u8) -> (found: Option<usize>)
        ensures
            match found {
                Some(index) => self.first_in_slot(slot, index as int),
                None => forall|i: int|
                    0 <= i < self.devices@.len() ==> (#[trigger] self.devices@[i]).slot_id != slot,
            },
    {
        let mut index: usize = 0;
        while index < self.devices.len()
            invariant
                index <= self.devices@.len(),
                forall|i: int| 0 <= i < index ==> (#[trigger] self.devices@[i]).slot_id != slot,
            decreases self.devices@.len() - index,
        {
            if self.devices[index].slot_id == slot {
                return Some(index);
            }
            index += 1;
        }
        None
    }

    /// This host is `before` without the device at `index`, whose active interfaces were reported as
    /// removed and whose pages are reused.
    pub open spec fn forgot(&self, before: Self, index: int) -> bool {
        let device = before.devices@[index];
        &&& self.devices@ == before.devices@.remove(index)
        &&& self.lifecycle_events@ == announce(
            before.lifecycle_events@,
            active_of(device.interfaces@, device.interfaces@.len()),
            false,
        )
        &&& self.dma_pool.pages@ == before.dma_pool.pages@ + device.pages()
        &&& *self == (UsbHost {
            devices: self.devices,
            lifecycle_events: self.lifecycle_events,
            dma_pool: self.dma_pool,
            ..before
        })
    }

    /// Forgets a device whose slot has been disabled.
    ///
    /// Its active interfaces are reported as removed and its pages are reused.
    pub fn remove_device(&mut self, index: usize)
        requires
            old(self).wf(),
            index < old(self).devices@.len(),
        ensures
            final(self).wf(),
            final(self).forgot(*old(self), index as int),
    {
        let ghost removed = self.devices@[index as int];
        assert(removed.wf());
        let count: usize = self.devices[index].interfaces.len();
        let mut at: usize = 0;
        while at < count
            invariant
                self.wf(),
                self.same_but_events(*old(self)),
                index < self.devices@.len(),
                removed == self.devices@[index as int],
                count == removed.interfaces@.len(),
                at <= count,
                self.lifecycle_events@ == announce(
                    old(self).lifecycle_events@,
                    active_of(removed.interfaces@, at as nat),
                    false,
                ),
            decreases count - at,
        {
            if self.devices[index].interfaces[at].active {
                let info: HidInterfaceInfo = self.devices[index].interfaces[at].info;
                let ghost shown = active_of(removed.interfaces@, at as nat);
                self.push_lifecycle(UsbLifecycleEvent::InterfaceRemoved(info));
                assert(shown.push(info).drop_last() =~= shown);
            }
            at += 1;
        }
        let ghost full = self.devices@;
        let device: UsbDevice = self.devices.remove(index);
        proof {
            lemma_remove_keeps_wf(full, index as int);
        }
        self.recycle_device(device);
    }

    /// Reuses the pages of a device.
    pub fn recycle_device(&mut self, device: UsbDevice)
        requires
            old(self).wf(),
            device.wf(),
        ensures
            final(self).wf(),
            final(self).dma_pool.pages@ == old(self).dma_pool.pages@ + device.pages(),
            *final(self) == (UsbHost { dma_pool: final(self).dma_pool, ..*old(self) }),
    {
        let mut pages: Vec<DmaPage> = device.into_dma_pages();
        self.recycle_pages(pages);
    }

    /// Reuses a list of pages.
    pub fn recycle_pages(&mut self, pages: Vec<DmaPage>)
        requires
            old(self).wf(),
            forall|i: int| 0 <= i < pages@.len() ==> (#[trigger] pages@[i]).wf(),
        ensures
            final(self).wf(),
            final(self).dma_pool.pages@ == old(self).dma_pool.pages@ + pages@,
            *final(self) == (UsbHost { dma_pool: final(self).dma_pool, ..*old(self) }),
    {
        let mut pages: Vec<DmaPage> = pages;
        let ghost given = pages@;
        self.dma_pool.pages.append(&mut pages);
        proof {
            assert forall|i: int| 0 <= i < self.dma_pool.pages@.len() implies (
            #[trigger] self.dma_pool.pages@[i]).wf() by {
                if i < old(self).dma_pool.pages@.len() {
                    assert(old(self).dma_pool.pages@[i].wf());
                } else {
                    assert(given[i - old(self).dma_pool.pages@.len()].wf());
                }
            }
        }
    }

    /// Keeps a slot that could not be disabled out of use.
    pub fn quarantine_slot(&mut self, slot: u8)
        requires
            old(self).wf(),
            old(self).quarantined_slots@.len() < MAX_DEVICES,
        ensures
            final(self).wf(),
            final(self).quarantined_slots@ == old(self).quarantined_slots@.push(slot),
            *final(self) == (UsbHost {
                quarantined_slots: final(self).quarantined_slots,
                ..*old(self)
            }),
    {
        self.quarantined_slots.push(slot);
    }

    /// Keeps a device whose slot could not be disabled, with its pages, out of use.
    pub fn quarantine_device(&mut self, device: UsbDevice)
        requires
            old(self).wf(),
            old(self).quarantined_devices@.len() < MAX_DEVICES,
            device.wf(),
        ensures
            final(self).wf(),
            final(self).quarantined_devices@ == old(self).quarantined_devices@.push(device),
            *final(self) == (UsbHost {
                quarantined_devices: final(self).quarantined_devices,
                ..*old(self)
            }),
    {
        self.quarantined_devices.push(device);
        proof {
            assert forall|i: int| 0 <= i < self.quarantined_devices@.len() implies (
            #[trigger] self.quarantined_devices@[i]).wf() by {
                if i < old(self).quarantined_devices@.len() {
                    assert(old(self).quarantined_devices@[i].wf());
                }
            }
        }
    }

    /// Releases a quarantined slot that has been disabled at last.
    pub fn release_quarantined_slot(&mut self, index: usize)
        requires
            old(self).wf(),
            index < old(self).quarantined_slots@.len(),
        ensures
            final(self).wf(),
            final(self).quarantined_slots@ == old(self).quarantined_slots@.remove(index as int),
            *final(self) == (UsbHost {
                quarantined_slots: final(self).quarantined_slots,
                ..*old(self)
            }),
    {
        let _slot: u8 = self.quarantined_slots.remove(index);
    }

    /// Releases a quarantined device whose slot has been disabled at last.
    pub fn release_quarantined_device(&mut self, index: usize)
        requires
            old(self).wf(),
            index < old(self).quarantined_devices@.len(),
        ensures
            final(self).wf(),
            final(self).quarantined_devices@ == old(self).quarantined_devices@.remove(
                index as int,
            ),
            final(self).dma_pool.pages@ == old(self).dma_pool.pages@ + old(self).quarantined_devices@[index as int].pages(),
            *final(self) == (UsbHost {
                quarantined_devices: final(self).quarantined_devices,
                dma_pool: final(self).dma_pool,
                ..*old(self)
            }),
    {
        assert(self.quarantined_devices@[index as int].wf());
        let device: UsbDevice = self.quarantined_devices.remove(index);
        proof {
            assert forall|i: int| 0 <= i < self.quarantined_devices@.len() implies (
            #[trigger] self.quarantined_devices@[i]).wf() by {
                let source = if i < index {
                    i
                } else {
                    i + 1
                };
                assert(old(self).quarantined_devices@[source].wf());
            }
        }
        self.recycle_device(device);
    }
}

/// Removing a device keeps the others usable.
proof fn lemma_remove_keeps_wf(devices: Seq<UsbDevice>, index: int)
    requires
        0 <= index < devices.len(),
        forall|e: int| 0 <= e < devices.len() ==> (#[trigger] devices[e]).wf(),
        forall|e: int| 0 <= e < devices.len() ==> (#[trigger] devices[e]).path.depth < 8,
        forall|e: int|
            0 <= e < devices.len() ==> (#[trigger] devices[e]).interfaces@.len() <= 0xffff,
    ensures
        forall|e: int|
            0 <= e < devices.remove(index).len() ==> (#[trigger] devices.remove(index)[e]).wf(),
        forall|e: int|
            0 <= e < devices.remove(index).len() ==> (#[trigger] devices.remove(index)[e]).path.depth
                < 8,
        forall|e: int|
            0 <= e < devices.remove(index).len() ==> (
            #[trigger] devices.remove(index)[e]).interfaces@.len() <= 0xffff,
{
    let rest = devices.remove(index);
    assert forall|e: int| 0 <= e < rest.len() implies (#[trigger] rest[e]).wf() && rest[e].path.depth
        < 8 && rest[e].interfaces@.len() <= 0xffff by {
        let source = if e < index {
            e
        } else {
            e + 1
        };
        assert(devices[source].wf());
        assert(devices[source].path.depth < 8);
        assert(devices[source].interfaces@.len() <= 0xffff);
    }
}

/// Removing a device gives all of its pages back and forgets none of the others.
pub proof fn law_removal_conserves_pages(device: UsbDevice)
    ensures
        device.pages().len() == 4 + 2 * device.interfaces@.len(),
{
    lemma_interface_page_count(device.interfaces@, device.interfaces@.len());
}

/// Pages of the first interfaces.
proof fn lemma_interface_page_count(interfaces: Seq<HidInterfaceState>, count: nat)
    ensures
        interface_pages(interfaces, count).len() == 2 * count,
    decreases count,
{
    if count > 0 {
        lemma_interface_page_count(interfaces, (count - 1) as nat);
    }
}

} // verus!
