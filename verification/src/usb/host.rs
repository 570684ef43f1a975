//! The USB host: attached devices, their topology and their life cycle.
//!
//! [`UsbHost`] holds the driver's state and makes its decisions. Register and
//! memory accesses are its caller's: methods take what was read and return what
//! has to be written.
use std::collections::VecDeque;

use vstd::prelude::*;

use super::controller::{bit_set, push_bounded, PortStatus, XhciLayout, MAX_DEVICES, PORT_CONNECTED};
use super::descriptors::{derive_child_tt, has_bit, HubPortStatus, TtInfo, USB_PORT_STATUS_CONNECTION};
use super::device::{HidInterfaceId, HidInterfaceInfo, HidInterfaceState, UsbDevice};
use super::error::UsbError;
use super::page::{DmaPage, UsbDmaPool};
use super::path::{child_spec, UsbPath};
use super::ring::Trb;

verus! {

/// Most reports that one poll returns.
pub const MAX_REPORTS_PER_POLL: usize = 64;

/// Most events that one poll handles.
pub const POLL_EVENT_BUDGET: usize = 256;

/// Events that are kept for whoever follows the device list.
pub const LIFECYCLE_EVENT_CAPACITY: usize = 128;

/// Failures that are kept for diagnosis.
pub const FAILURE_CAPACITY: usize = 128;

/// Hub ports that one poll inspects.
pub const HUB_PORTS_PER_POLL: usize = 4;

/// Polls between two event-ring checks that no interrupt asked for.
pub const INTERRUPT_WATCHDOG_POLLS: u64 = 64;

/// One input report.
#[derive(Clone, Debug, PartialEq, Eq)]
pub struct HidReport {
    pub interface: HidInterfaceId,
    pub bytes: Vec<u8>,
}

/// A root port whose device could not be used.
#[derive(Clone, Copy, Debug, PartialEq, Eq)]
pub struct PortFailure {
    pub root_port: u8,
    pub error: UsbError,
}

/// A path whose device could not be used.
#[derive(Clone, Copy, Debug, PartialEq, Eq)]
pub struct TopologyFailure {
    pub path: UsbPath,
    pub error: UsbError,
}

/// An interface came or went.
#[derive(Clone, Copy, Debug, PartialEq, Eq)]
pub enum UsbLifecycleEvent {
    InterfaceAdded(HidInterfaceInfo),
    InterfaceRemoved(HidInterfaceInfo),
}

/// One device in the topology.
#[derive(Clone, Copy, Debug, PartialEq, Eq)]
pub struct UsbTopologyEntry {
    pub path: UsbPath,
    pub slot_id: u8,
    pub parent_slot_id: Option<u8>,
    pub parent_port: Option<u8>,
    pub speed: u8,
    pub is_hub: bool,
    pub hub_port_count: u8,
    pub interface_count: usize,
}

/// How events have been delivered.
#[derive(Clone, Copy, Debug, PartialEq, Eq)]
pub struct XhciInterruptDiagnostics {
    pub msi_enabled: bool,
    pub interrupts_observed: u64,
    pub watchdog_polls: u64,
    pub deferred_events: usize,
    pub dropped_deferred_events: u64,
}

impl Default for XhciInterruptDiagnostics {
    fn default() -> (diagnostics: Self)
        ensures
            diagnostics == (XhciInterruptDiagnostics {
                msi_enabled: false,
                interrupts_observed: 0,
                watchdog_polls: 0,
                deferred_events: 0,
                dropped_deferred_events: 0,
            }),
    {
        XhciInterruptDiagnostics {
            msi_enabled: false,
            interrupts_observed: 0,
            watchdog_polls: 0,
            deferred_events: 0,
            dropped_deferred_events: 0,
        }
    }
}

/// An xHCI USB host with bounded polling and optional interrupt delivery.
///
/// `P` describes the controller's PCI function.
#[derive(Debug)]
pub struct UsbHost<P> {
    pub pci_device: P,
    pub layout: XhciLayout,
    pub port_slot_types: Vec<u8>,
    pub deferred_events: VecDeque<Trb>,
    pub msi_enabled: bool,
    pub interrupts_observed: u64,
    pub watchdog_polls: u64,
    pub devices: Vec<UsbDevice>,
    pub failures: Vec<PortFailure>,
    pub topology_failures: Vec<TopologyFailure>,
    pub lifecycle_events: VecDeque<UsbLifecycleEvent>,
    pub next_device_id: u32,
    pub root_cursor: u8,
    pub poll_sequence: u64,
    pub hub_cursor: usize,
    pub dma_pool: UsbDmaPool,
    pub quarantined_slots: Vec<u8>,
    pub quarantined_devices: Vec<UsbDevice>,
}

/// The active interfaces among the first `count` of a device.
pub open spec fn active_of(interfaces: Seq<HidInterfaceState>, count: nat) -> Seq<HidInterfaceInfo>
    decreases count,
{
    if count == 0 {
        Seq::empty()
    } else {
        let before = active_of(interfaces, (count - 1) as nat);
        if interfaces[count - 1].active {
            before.push(interfaces[count - 1].info)
        } else {
            before
        }
    }
}

/// The active interfaces of the first `count` devices, in device order.
pub open spec fn active_in(devices: Seq<UsbDevice>, count: nat) -> Seq<HidInterfaceInfo>
    decreases count,
{
    if count == 0 {
        Seq::empty()
    } else {
        active_in(devices, (count - 1) as nat) + active_of(
            devices[count - 1].interfaces@,
            devices[count - 1].interfaces@.len(),
        )
    }
}

/// A longer prefix has at least as many active interfaces, in the same order.
proof fn lemma_active_of_prefix(interfaces: Seq<HidInterfaceState>, short: nat, long: nat)
    requires
        short <= long,
    ensures
        active_of(interfaces, short).len() <= active_of(interfaces, long).len(),
        active_of(interfaces, long).len() <= active_of(interfaces, short).len() + (long - short),
        forall|i: int|
            0 <= i < active_of(interfaces, short).len() ==> #[trigger] active_of(
                interfaces,
                long,
            )[i] == active_of(interfaces, short)[i],
    decreases long,
{
    if short < long {
        lemma_active_of_prefix(interfaces, short, (long - 1) as nat);
    }
}

/// A longer prefix of devices continues the list of active interfaces.
proof fn lemma_active_in_prefix(devices: Seq<UsbDevice>, short: nat, long: nat)
    requires
        short <= long,
    ensures
        active_in(devices, short).len() <= active_in(devices, long).len(),
        forall|i: int|
            0 <= i < active_in(devices, short).len() ==> #[trigger] active_in(devices, long)[i]
                == active_in(devices, short)[i],
    decreases long,
{
    if short < long {
        lemma_active_in_prefix(devices, short, (long - 1) as nat);
    }
}

/// What the topology shows of a device.
pub open spec fn topology_entry(device: UsbDevice) -> UsbTopologyEntry {
    UsbTopologyEntry {
        path: device.path,
        slot_id: device.slot_id,
        parent_slot_id: device.parent_slot_id,
        parent_port: device.parent_port,
        speed: device.speed,
        is_hub: device.hub is Some,
        hub_port_count: match device.hub {
            Some(hub) => hub.ports,
            None => 0,
        },
        interface_count: active_of(device.interfaces@, device.interfaces@.len()).len() as usize,
    }
}

/// A bounded list after one more entry: the oldest entry makes room.
pub open spec fn bounded_push<T>(list: Seq<T>, capacity: nat, value: T) -> Seq<T> {
    if list.len() == capacity {
        list.skip(1).push(value)
    } else {
        list.push(value)
    }
}

/// The event queue after one event per entry of `infos`.
pub open spec fn announce(
    events: Seq<UsbLifecycleEvent>,
    infos: Seq<HidInterfaceInfo>,
    added: bool,
) -> Seq<UsbLifecycleEvent>
    decreases infos.len(),
{
    if infos.len() == 0 {
        events
    } else {
        bounded_push(
            announce(events, infos.drop_last(), added),
            LIFECYCLE_EVENT_CAPACITY as nat,
            if added {
                UsbLifecycleEvent::InterfaceAdded(infos.last())
            } else {
                UsbLifecycleEvent::InterfaceRemoved(infos.last())
            },
        )
    }
}

/// Counts the active interfaces of a device.
fn count_active(interfaces: &Vec<HidInterfaceState>) -> (count: usize)
    ensures
        count == active_of(interfaces@, interfaces@.len()).len(),
        count <= interfaces@.len(),
{
    let mut count: usize = 0;
    let mut index: usize = 0;
    while index < interfaces.len()
        invariant
            index <= interfaces@.len(),
            count == active_of(interfaces@, index as nat).len(),
            count <= index,
        decreases interfaces@.len() - index,
    {
        if interfaces[index].active {
            count += 1;
        }
        index += 1;
    }
    count
}

/// What the caller has to do for a root port.
#[derive(Clone, Copy, Debug, PartialEq, Eq)]
pub enum PortAction {
    Nothing,
    /// The device went away: tear its subtree down.
    Teardown(UsbPath),
    /// A new device: reset the port and enumerate.
    Enumerate(UsbPath),
}

/// What the caller has to do for a root port of a controller that has just started.
#[derive(Clone, Copy, Debug, PartialEq, Eq)]
pub enum InitialAction {
    Skip,
    /// No more devices can be addressed in this pass.
    Stop,
    Enumerate(UsbPath),
}

/// The decision for a port from what is known of it.
pub open spec fn port_action_spec(
    path: UsbPath,
    connected: bool,
    present: bool,
    full: bool,
    resources: bool,
) -> PortAction {
    if !connected {
        if present {
            PortAction::Teardown(path)
        } else {
            PortAction::Nothing
        }
    } else if present || full || !resources {
        PortAction::Nothing
    } else {
        PortAction::Enumerate(path)
    }
}

/// The transaction translator of a device on port `port` of the hub `parent`.
pub open spec fn child_tt_spec(parent: UsbDevice, port: u8, speed: u8) -> Option<TtInfo> {
    if speed > 2 {
        None
    } else if parent.speed == 3 && parent.hub is Some && !parent.hub->Some_0.superspeed {
        Some(
            TtInfo {
                hub_slot_id: parent.slot_id,
                port: if parent.hub->Some_0.protocol == 2 {
                    port
                } else {
                    0
                },
            },
        )
    } else {
        parent.tt
    }
}

impl<P> UsbHost<P> {
    /// The lists stay within their bounds and every page is usable.
    pub open spec fn wf(&self) -> bool {
        &&& self.topology_failures@.len() <= FAILURE_CAPACITY
        &&& self.failures@.len() <= FAILURE_CAPACITY
        &&& self.lifecycle_events@.len() <= LIFECYCLE_EVENT_CAPACITY
        &&& self.dma_pool.wf()
        &&& self.devices@.len() <= MAX_DEVICES
        &&& self.hub_cursor <= MAX_DEVICES
        &&& self.quarantined_slots@.len() <= MAX_DEVICES
        &&& self.quarantined_devices@.len() <= MAX_DEVICES
        &&& forall|i: int| 0 <= i < self.devices@.len() ==> (#[trigger] self.devices@[i]).wf()
        &&& forall|i: int|
            0 <= i < self.devices@.len() ==> (#[trigger] self.devices@[i]).path.depth < 8
        &&& forall|i: int|
            0 <= i < self.devices@.len() ==> (#[trigger] self.devices@[i]).interfaces@.len()
                <= 0xffff
        &&& forall|i: int|
            0 <= i < self.quarantined_devices@.len() ==> (
            #[trigger] self.quarantined_devices@[i]).wf()
    }

    /// Devices and slots that occupy the device limit.
    pub open spec fn occupied(&self) -> nat {
        self.devices@.len() + self.quarantined_slots@.len() + self.quarantined_devices@.len()
    }

    /// All active interfaces, in device order.
    pub open spec fn active(&self) -> Seq<HidInterfaceInfo> {
        active_in(self.devices@, self.devices@.len())
    }

    /// A host without devices.
    pub fn new(pci_device: P, layout: XhciLayout, port_slot_types: Vec<u8>) -> (host: Self)
        ensures
            host.wf(),
            host.occupied() == 0,
            host.pci_device == pci_device,
            host.layout == layout,
            host.port_slot_types == port_slot_types,
            host.deferred_events@ == Seq::<Trb>::empty(),
            host.lifecycle_events@ == Seq::<UsbLifecycleEvent>::empty(),
            host.failures@ == Seq::<PortFailure>::empty(),
            host.topology_failures@ == Seq::<TopologyFailure>::empty(),
            host.dma_pool.pages@ == Seq::<DmaPage>::empty(),
            host.next_device_id == 1,
            host.root_cursor == 1,
            host.poll_sequence == 0,
            host.hub_cursor == 0,
            !host.msi_enabled,
            host.interrupts_observed == 0,
            host.watchdog_polls == 0,
    {
        UsbHost {
            pci_device,
            layout,
            port_slot_types,
            deferred_events: VecDeque::with_capacity(256),
            msi_enabled: false,
            interrupts_observed: 0,
            watchdog_polls: 0,
            devices: Vec::new(),
            failures: Vec::new(),
            topology_failures: Vec::new(),
            lifecycle_events: VecDeque::with_capacity(LIFECYCLE_EVENT_CAPACITY),
            next_device_id: 1,
            root_cursor: 1,
            poll_sequence: 0,
            hub_cursor: 0,
            dma_pool: UsbDmaPool::new(),
            quarantined_slots: Vec::new(),
            quarantined_devices: Vec::new(),
        }
    }

    /// The controller's PCI function.
    pub fn controller_pci_device(&self) -> (device: P)
        where P: Copy
        ensures
            device == self.pci_device,
    {
        self.pci_device
    }

    /// Active HID interfaces of all devices.
    pub fn interface_count(&self) -> (count: usize)
        requires
            self.wf(),
        ensures
            count == self.active().len(),
    {
        let mut count: usize = 0;
        let mut index: usize = 0;
        while index < self.devices.len()
            invariant
                self.wf(),
                index <= self.devices@.len(),
                count == active_in(self.devices@, index as nat).len(),
                count <= index * 0xffff,
            decreases self.devices@.len() - index,
        {
            assert(self.devices@[index as int].interfaces@.len() <= 0xffff);
            count = count + count_active(&self.devices[index].interfaces);
            index += 1;
        }
        count
    }

    /// The `index`-th active HID interface.
    pub fn interface_info(&self, index: usize) -> (info: Option<&HidInterfaceInfo>)
        ensures
            info == (if index < self.active().len() {
                Some(&self.active()[index as int])
            } else {
                None
            }),
    {
        let mut seen: usize = 0;
        let mut at: usize = 0;
        while at < self.devices.len()
            invariant
                at <= self.devices@.len(),
                seen == active_in(self.devices@, at as nat).len(),
                seen <= index,
            decreases self.devices@.len() - at,
        {
            let device: &UsbDevice = &self.devices[at];
            let mut inner: usize = 0;
            let ghost base = seen as nat;
            while inner < device.interfaces.len()
                invariant
                    at < self.devices@.len(),
                    *device == self.devices@[at as int],
                    inner <= device.interfaces@.len(),
                    base == active_in(self.devices@, at as nat).len(),
                    seen == base + active_of(device.interfaces@, inner as nat).len(),
                    seen <= index,
                decreases device.interfaces@.len() - inner,
            {
                if device.interfaces[inner].active {
                    if seen == index {
                        proof {
                            lemma_active_of_prefix(
                                device.interfaces@,
                                (inner + 1) as nat,
                                device.interfaces@.len(),
                            );
                            lemma_active_in_prefix(
                                self.devices@,
                                (at + 1) as nat,
                                self.devices@.len(),
                            );
                            let own = active_of(device.interfaces@, device.interfaces@.len());
                            let upto = active_in(self.devices@, (at + 1) as nat);
                            assert(active_of(device.interfaces@, (inner + 1) as nat)[seen - base]
                                == device.interfaces@[inner as int].info);
                            assert(own[seen - base] == device.interfaces@[inner as int].info);
                            assert(upto[seen as int] == own[seen - base]);
                            assert(self.active()[seen as int] == upto[seen as int]);
                        }
                        return Some(&device.interfaces[inner].info);
                    }
                    seen += 1;
                }
                inner += 1;
            }
            at += 1;
        }
        None
    }

    /// The report descriptor of an active interface.
    pub fn report_descriptor(&self, id: HidInterfaceId) -> (descriptor: Option<&Vec<u8>>)
        ensures
            match descriptor {
                Some(bytes) => exists|d: int, i: int|
                    self.first_named(id, d, i, true) && bytes
                        == self.devices@[d].interfaces@[i].report_descriptor,
                None => forall|d: int, i: int|
                    #![trigger self.devices@[d].interfaces@[i]]
                    0 <= d < self.devices@.len() && 0 <= i < self.devices@[d].interfaces@.len()
                        ==> !(self.devices@[d].interfaces@[i].active
                        && self.devices@[d].interfaces@[i].info.id == id),
            },
    {
        match self.find_interface(id, true) {
            Some((d, i)) => {
                assert(self.first_named(id, d as int, i as int, true));
                Some(&self.devices[d].interfaces[i].report_descriptor)
            },
            None => None,
        }
    }

    /// Interface `i` of device `d` is named `id`, and active where `active_only` asks for it.
    pub open spec fn named(&self, id: HidInterfaceId, d: int, i: int, active_only: bool) -> bool {
        &&& 0 <= d < self.devices@.len()
        &&& 0 <= i < self.devices@[d].interfaces@.len()
        &&& self.devices@[d].interfaces@[i].info.id == id
        &&& active_only ==> self.devices@[d].interfaces@[i].active
    }

    /// Interface `i` of device `d` is the first that is named `id`.
    pub open spec fn first_named(
        &self,
        id: HidInterfaceId,
        d: int,
        i: int,
        active_only: bool,
    ) -> bool {
        &&& self.named(id, d, i, active_only)
        &&& forall|e: int, j: int|
            #![trigger self.devices@[e].interfaces@[j]]
            (0 <= e < d && 0 <= j < self.devices@[e].interfaces@.len()) || (e == d && 0 <= j < i)
                ==> !self.named(id, e, j, active_only)
    }

    fn find_interface(&self, id: HidInterfaceId, active_only: bool) -> (found: Option<
        (usize, usize),
    >)
        ensures
            match found {
                Some((d, i)) => self.first_named(id, d as int, i as int, active_only),
                None => forall|d: int, i: int|
                    #![trigger self.devices@[d].interfaces@[i]]
                    0 <= d < self.devices@.len() && 0 <= i < self.devices@[d].interfaces@.len()
                        ==> !self.named(id, d, i, active_only),
            },
    {
        let mut d: usize = 0;
        while d < self.devices.len()
            invariant
                d <= self.devices@.len(),
                forall|e: int, j: int|
                    #![trigger self.devices@[e].interfaces@[j]]
                    0 <= e < d && 0 <= j < self.devices@[e].interfaces@.len() ==> !self.named(
                        id,
                        e,
                        j,
                        active_only,
                    ),
            decreases self.devices@.len() - d,
        {
            let device: &UsbDevice = &self.devices[d];
            let mut i: usize = 0;
            while i < device.interfaces.len()
                invariant
                    d < self.devices@.len(),
                    *device == self.devices@[d as int],
                    i <= device.interfaces@.len(),
                    forall|e: int, j: int|
                        #![trigger self.devices@[e].interfaces@[j]]
                        (0 <= e < d && 0 <= j < self.devices@[e].interfaces@.len()) || (e == d && 0
                            <= j < i) ==> !self.named(id, e, j, active_only),
                decreases device.interfaces@.len() - i,
            {
                let interface: &HidInterfaceState = &device.interfaces[i];
                if interface.info.id == id && (interface.active || !active_only) {
                    return Some((d, i));
                }
                i += 1;
            }
            d += 1;
        }
        None
    }

    /// The completion code that retired an interface's input endpoint.
    pub fn interface_transfer_error(&self, id: HidInterfaceId) -> (code: Option<u8>)
        ensures
            match code {
                Some(code) => exists|d: int, i: int|
                    self.first_named(id, d, i, false)
                        && self.devices@[d].interfaces@[i].transfer_error == Some(code),
                None => {
                    ||| exists|d: int, i: int|
                        self.first_named(id, d, i, false)
                            && self.devices@[d].interfaces@[i].transfer_error is None
                    ||| forall|d: int, i: int|
                        #![trigger self.devices@[d].interfaces@[i]]
                        0 <= d < self.devices@.len() && 0 <= i < self.devices@[d].interfaces@.len()
                            ==> self.devices@[d].interfaces@[i].info.id != id
                },
            },
    {
        match self.find_interface(id, false) {
            Some((d, i)) => {
                assert(self.first_named(id, d as int, i as int, false));
                self.devices[d].interfaces[i].transfer_error
            },
            None => {
                assert forall|d: int, i: int|
                    #![trigger self.devices@[d].interfaces@[i]]
                    0 <= d < self.devices@.len() && 0 <= i
                        < self.devices@[d].interfaces@.len() implies self.devices@[d].interfaces@[i].info.id
                    != id by {
                    assert(!self.named(id, d, i, false));
                }
                None
            },
        }
    }

    /// Failures on root ports, oldest first.
    pub fn enumeration_failures(&self) -> (failures: &[PortFailure])
        ensures
            failures@ == self.failures@,
    {
        self.failures.as_slice()
    }

    /// Failures anywhere in the topology, oldest first.
    pub fn topology_failures(&self) -> (failures: &[TopologyFailure])
        ensures
            failures@ == self.topology_failures@,
    {
        self.topology_failures.as_slice()
    }

    /// The attached devices in the order in which they were found.
    pub fn topology_snapshot(&self) -> (entries: Vec<UsbTopologyEntry>)
        ensures
            entries@ == self.devices@.map_values(|d: UsbDevice| topology_entry(d)),
    {
        let mut entries: Vec<UsbTopologyEntry> = Vec::new();
        let mut index: usize = 0;
        while index < self.devices.len()
            invariant
                index <= self.devices@.len(),
                entries@ == self.devices@.take(index as int).map_values(
                    |d: UsbDevice| topology_entry(d),
                ),
            decreases self.devices@.len() - index,
        {
            let device: &UsbDevice = &self.devices[index];
            let hub_port_count: u8 = match device.hub {
                Some(hub) => hub.ports,
                None => 0,
            };
            entries.push(
                UsbTopologyEntry {
                    path: device.path,
                    slot_id: device.slot_id,
                    parent_slot_id: device.parent_slot_id,
                    parent_port: device.parent_port,
                    speed: device.speed,
                    is_hub: device.hub.is_some(),
                    hub_port_count,
                    interface_count: count_active(&device.interfaces),
                },
            );
            index += 1;
            assert(entries@ =~= self.devices@.take(index as int).map_values(
                |d: UsbDevice| topology_entry(d),
            ));
        }
        assert(self.devices@.take(index as int) =~= self.devices@);
        entries
    }

    /// Takes the oldest life-cycle event.
    pub fn pop_lifecycle_event(&mut self) -> (event: Option<UsbLifecycleEvent>)
        requires
            old(self).wf(),
        ensures
            final(self).wf(),
            event == (if old(self).lifecycle_events@.len() > 0 {
                Some(old(self).lifecycle_events@[0])
            } else {
                None
            }),
            final(self).lifecycle_events@ == (if old(self).lifecycle_events@.len() > 0 {
                old(self).lifecycle_events@.skip(1)
            } else {
                old(self).lifecycle_events@
            }),
            final(self).same_but_events(*old(self)),
    {
        let event = self.lifecycle_events.pop_front();
        proof {
            if old(self).lifecycle_events@.len() > 0 {
                assert(self.lifecycle_events@ =~= old(self).lifecycle_events@.skip(1));
            }
        }
        event
    }

    /// Everything but the life-cycle queue is as in `before`.
    pub open spec fn same_but_events(&self, before: Self) -> bool {
        *self == (UsbHost { lifecycle_events: self.lifecycle_events, ..before })
    }

    /// Pages that wait to be reused.
    pub fn recycled_dma_pages(&self) -> (count: usize)
        ensures
            count == self.dma_pool.pages@.len(),
    {
        self.dma_pool.len()
    }

    /// How events have been delivered.
    pub fn interrupt_diagnostics(&self) -> (diagnostics: XhciInterruptDiagnostics)
        ensures
            diagnostics == (XhciInterruptDiagnostics {
                msi_enabled: self.msi_enabled,
                interrupts_observed: self.interrupts_observed,
                watchdog_polls: self.watchdog_polls,
                deferred_events: self.deferred_events@.len() as usize,
                dropped_deferred_events: 0,
            }),
    {
        XhciInterruptDiagnostics {
            msi_enabled: self.msi_enabled,
            interrupts_observed: self.interrupts_observed,
            watchdog_polls: self.watchdog_polls,
            deferred_events: self.deferred_events.len(),
            dropped_deferred_events: 0,
        }
    }

    /// This host is `before` with one more poll counted, which drains or not.
    pub open spec fn poll_begun(&self, before: Self, interrupt_pending: bool, drain: bool) -> bool {
        &&& self.poll_sequence == (if before.poll_sequence == u64::MAX {
            0
        } else {
            before.poll_sequence + 1
        })
        &&& ({
            let watchdog = !before.msi_enabled || self.poll_sequence
                % INTERRUPT_WATCHDOG_POLLS == 0;
            &&& drain == (interrupt_pending || watchdog || before.deferred_events@.len() > 0)
            &&& self.interrupts_observed == (if interrupt_pending && before.interrupts_observed < u64::MAX {
                before.interrupts_observed + 1
            } else {
                before.interrupts_observed as int
            })
            &&& self.watchdog_polls == (if watchdog && before.msi_enabled
                && !interrupt_pending && before.watchdog_polls < u64::MAX {
                before.watchdog_polls + 1
            } else {
                before.watchdog_polls as int
            })
        })
        &&& *self == (UsbHost {
            poll_sequence: self.poll_sequence,
            interrupts_observed: self.interrupts_observed,
            watchdog_polls: self.watchdog_polls,
            ..before
        })
    }

    /// Begins a poll; the result says whether the event ring has to be drained.
    ///
    /// Without interrupts every poll drains. With them a poll drains when an
    /// interrupt arrived, when events were deferred, and every 64th time anyway.
    pub fn begin_poll(&mut self, interrupt_pending: bool) -> (drain: bool)
        requires
            old(self).wf(),
        ensures
            final(self).wf(),
            final(self).poll_begun(*old(self), interrupt_pending, drain),
    {
        self.poll_sequence = self.poll_sequence.wrapping_add(1);
        if interrupt_pending {
            self.interrupts_observed = self.interrupts_observed.saturating_add(1);
        }
        let watchdog: bool = !self.msi_enabled || self.poll_sequence % INTERRUPT_WATCHDOG_POLLS
            == 0;
        if watchdog && self.msi_enabled && !interrupt_pending {
            self.watchdog_polls = self.watchdog_polls.saturating_add(1);
        }
        interrupt_pending || watchdog || self.deferred_events.len() > 0
    }

    /// Whether the device limit is reached.
    pub fn slot_capacity_reached(&self) -> (full: bool)
        requires
            self.wf(),
        ensures
            full == (self.occupied() >= MAX_DEVICES),
    {
        self.devices.len() + self.quarantined_slots.len() + self.quarantined_devices.len()
            >= MAX_DEVICES
    }

    /// This host is `before` with one more failure kept.
    pub open spec fn noted(&self, before: Self, path: UsbPath, error: UsbError) -> bool {
        &&& self.topology_failures@ == bounded_push(
            before.topology_failures@,
            FAILURE_CAPACITY as nat,
            TopologyFailure { path, error },
        )
        &&& self.failures@ == (if path.depth == 0 {
            bounded_push(
                before.failures@,
                FAILURE_CAPACITY as nat,
                PortFailure { root_port: path.root_port, error },
            )
        } else {
            before.failures@
        })
        &&& *self == (UsbHost {
            topology_failures: self.topology_failures,
            failures: self.failures,
            ..before
        })
    }

    /// Keeps a failure for diagnosis; root-port failures are also listed apart.
    pub fn record_path_failure(&mut self, path: UsbPath, error: UsbError)
        requires
            old(self).wf(),
        ensures
            final(self).wf(),
            final(self).noted(*old(self), path, error),
    {
        push_limited(&mut self.topology_failures, FAILURE_CAPACITY, TopologyFailure { path, error });
        if path.depth == 0 {
            push_limited(
                &mut self.failures,
                FAILURE_CAPACITY,
                PortFailure { root_port: path.root_port, error },
            );
        }
    }

    /// Keeps a failure of a root port.
    pub fn record_failure(&mut self, port: u8, error: UsbError)
        requires
            old(self).wf(),
        ensures
            final(self).wf(),
            final(self).topology_failures@ == bounded_push(
                old(self).topology_failures@,
                FAILURE_CAPACITY as nat,
                TopologyFailure {
                    path: UsbPath { root_port: port, route_string: 0, depth: 0 },
                    error,
                },
            ),
            final(self).failures@ == bounded_push(
                old(self).failures@,
                FAILURE_CAPACITY as nat,
                PortFailure { root_port: port, error },
            ),
            *final(self) == (UsbHost {
                topology_failures: final(self).topology_failures,
                failures: final(self).failures,
                ..*old(self)
            }),
    {
        self.record_path_failure(UsbPath::root(port), error);
    }

    pub(crate) fn push_lifecycle(&mut self, event: UsbLifecycleEvent)
        requires
            old(self).wf(),
        ensures
            final(self).wf(),
            final(self).lifecycle_events@ == bounded_push(
                old(self).lifecycle_events@,
                LIFECYCLE_EVENT_CAPACITY as nat,
                event,
            ),
            final(self).same_but_events(*old(self)),
    {
        let _dropped = push_bounded(&mut self.lifecycle_events, LIFECYCLE_EVENT_CAPACITY, event);
    }

    /// This host is `before` with its next root port handed out.
    pub open spec fn root_port_taken(&self, before: Self, port: u8) -> bool {
        &&& port == (if before.root_cursor == 0 {
            1
        } else {
            before.root_cursor
        })
        &&& self.root_cursor == (if port >= before.layout.max_ports {
            1
        } else {
            port + 1
        })
        &&& *self == (UsbHost { root_cursor: self.root_cursor, ..before })
    }

    /// The root port to look at in this poll; the next poll looks at the next one.
    pub fn next_root_port(&mut self) -> (port: u8)
        requires
            old(self).wf(),
        ensures
            final(self).wf(),
            final(self).root_port_taken(*old(self), port),
    {
        let port: u8 = if self.root_cursor == 0 {
            1
        } else {
            self.root_cursor
        };
        self.root_cursor = if port >= self.layout.max_ports {
            1
        } else {
            port + 1
        };
        port
    }

    /// A device sits at `path`.
    pub open spec fn present(&self, path: UsbPath) -> bool {
        exists|i: int| 0 <= i < self.devices@.len() && (#[trigger] self.devices@[i]).path == path
    }

    /// Decides what a root port with this status needs.
    pub fn root_port_action(&self, port: u8, status: PortStatus, resources: bool) -> (action:
        PortAction)
        requires
            self.wf(),
        ensures
            ({
                let path = UsbPath { root_port: port, route_string: 0, depth: 0 };
                action == port_action_spec(
                    path,
                    bit_set(status.bits, PORT_CONNECTED),
                    self.present(path),
                    self.occupied() >= MAX_DEVICES,
                    resources,
                )
            }),
    {
        let path: UsbPath = UsbPath::root(port);
        let mut present: bool = false;
        let mut index: usize = 0;
        while index < self.devices.len()
            invariant
                index <= self.devices@.len(),
                present == exists|i: int|
                    0 <= i < index && (#[trigger] self.devices@[i]).path == path,
            decreases self.devices@.len() - index,
        {
            if self.devices[index].path == path {
                present = true;
            }
            index += 1;
        }
        if !status.connected() {
            if present {
                return PortAction::Teardown(path);
            }
            return PortAction::Nothing;
        }
        if present || self.slot_capacity_reached() || !resources {
            return PortAction::Nothing;
        }
        PortAction::Enumerate(path)
    }

    /// Decides what a root port needs when the controller has just started.
    ///
    /// Slow devices are enumerated in a first pass and SuperSpeed devices in a second one.
    pub fn initial_port_action(&self, port: u8, status: PortStatus, slow_pass: bool) -> (action:
        InitialAction)
        requires
            self.wf(),
        ensures
            action == (if !bit_set(status.bits, PORT_CONNECTED) || (status.speed_spec() <= 3)
                != slow_pass {
                InitialAction::Skip
            } else if self.occupied() >= MAX_DEVICES {
                InitialAction::Stop
            } else {
                InitialAction::Enumerate(UsbPath { root_port: port, route_string: 0, depth: 0 })
            }),
    {
        if !status.connected() || (status.speed() <= 3) != slow_pass {
            return InitialAction::Skip;
        }
        if self.slot_capacity_reached() {
            return InitialAction::Stop;
        }
        InitialAction::Enumerate(UsbPath::root(port))
    }

    /// A device hangs on port `port` of the hub in slot `slot`.
    pub open spec fn has_child(&self, slot: u8, port: u8) -> bool {
        exists|i: int|
            0 <= i < self.devices@.len() && (#[trigger] self.devices@[i]).parent_slot_id == Some(
                slot,
            ) && self.devices@[i].parent_port == Some(port)
    }

    /// The path of port `port` of the hub at `hub_index`.
    pub fn hub_port_path(&self, hub_index: usize, port: u8) -> (result: Result<UsbPath, UsbError>)
        requires
            hub_index < self.devices@.len(),
        ensures
            result == child_spec(self.devices@[hub_index as int].path, port),
    {
        self.devices[hub_index].path.child(port)
    }

    /// Decides what a hub port with this status needs.
    pub fn hub_port_action(
        &self,
        hub_index: usize,
        port: u8,
        path: UsbPath,
        status: HubPortStatus,
        resources: bool,
    ) -> (action: PortAction)
        requires
            self.wf(),
            hub_index < self.devices@.len(),
        ensures
            action == port_action_spec(
                path,
                has_bit(status.status as int, USB_PORT_STATUS_CONNECTION as int),
                self.has_child(self.devices@[hub_index as int].slot_id, port),
                self.occupied() >= MAX_DEVICES,
                resources,
            ),
    {
        let parent_slot: u8 = self.devices[hub_index].slot_id;
        let mut child: bool = false;
        let mut index: usize = 0;
        while index < self.devices.len()
            invariant
                index <= self.devices@.len(),
                child == exists|i: int|
                    0 <= i < index && (#[trigger] self.devices@[i]).parent_slot_id == Some(
                        parent_slot,
                    ) && self.devices@[i].parent_port == Some(port),
            decreases self.devices@.len() - index,
        {
            match (self.devices[index].parent_slot_id, self.devices[index].parent_port) {
                (Some(slot), Some(own)) if slot == parent_slot && own == port => {
                    assert(self.devices@[index as int].parent_slot_id == Some(parent_slot));
                    child = true;
                },
                _ => {},
            }
            index += 1;
        }
        if !status.connected() {
            if child {
                return PortAction::Teardown(path);
            }
            return PortAction::Nothing;
        }
        if child || self.slot_capacity_reached() || !resources {
            return PortAction::Nothing;
        }
        PortAction::Enumerate(path)
    }

    /// The transaction translator of a device on port `port` of the hub at `hub_index`.
    pub fn child_tt(&self, hub_index: usize, port: u8, speed: u8) -> (tt: Option<TtInfo>)
        requires
            hub_index < self.devices@.len(),
        ensures
            tt == child_tt_spec(self.devices@[hub_index as int], port, speed),
    {
        let parent: &UsbDevice = &self.devices[hub_index];
        let protocol: Option<u8> = match parent.hub {
            Some(hub) if !hub.superspeed => Some(hub.protocol),
            _ => None,
        };
        derive_child_tt(parent.speed, parent.slot_id, protocol, parent.tt, port, speed)
    }

    /// The slot type for a device at `path`, zero when the port is unknown.
    pub fn slot_type(&self, path: UsbPath) -> (slot_type: u8)
        requires
            path.root_port >= 1,
        ensures
            slot_type == (if path.root_port <= self.port_slot_types@.len() {
                self.port_slot_types@[path.root_port - 1]
            } else {
                0
            }),
    {
        let index: usize = path.root_port as usize - 1;
        if index < self.port_slot_types.len() {
            self.port_slot_types[index]
        } else {
            0
        }
    }
}

/// Appends to a bounded list, dropping the oldest entry of a full one.
fn push_limited<T>(list: &mut Vec<T>, capacity: usize, value: T)
    requires
        capacity > 0,
        old(list)@.len() <= capacity,
    ensures
        final(list)@ == bounded_push(old(list)@, capacity as nat, value),
        final(list)@.len() <= capacity,
{
    if list.len() == capacity {
        let _oldest = list.remove(0);
        assert(list@ =~= old(list)@.skip(1));
    }
    list.push(value);
}

} // verus!
