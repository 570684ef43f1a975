//! Devices, their HID interfaces and the pages that they own.
use vstd::prelude::*;

use super::descriptors::TtInfo;
use super::error::UsbError;
use super::page::DmaPage;
use super::path::UsbPath;
use super::ring::{trb_control, trb_control_spec, ProducerRing, Trb, TRB_TYPE_NORMAL};

verus! {

/// Names one HID interface of one device.
#[derive(Clone, Copy, Debug, PartialEq, Eq, PartialOrd, Ord, Structural)]
pub struct HidInterfaceId {
    pub device: u32,
    pub interface: u8,
}

/// The boot protocol of a HID interface.
#[derive(Clone, Copy, Debug, PartialEq, Eq, Structural)]
pub enum HidInterfaceKind {
    Keyboard,
    Mouse,
    Other,
}

/// What is known of a HID interface.
#[derive(Clone, Copy, Debug, PartialEq, Eq, Structural)]
pub struct HidInterfaceInfo {
    pub id: HidInterfaceId,
    pub slot_id: u8,
    pub root_port: u8,
    pub vendor_id: u16,
    pub product_id: u16,
    pub interface_subclass: u8,
    pub interface_protocol: u8,
    pub endpoint_address: u8,
    pub kind: HidInterfaceKind,
}

/// The kind that a subclass and protocol declare.
pub open spec fn interface_kind_spec(subclass: int, protocol: int) -> HidInterfaceKind {
    if subclass == 1 && protocol == 1 {
        HidInterfaceKind::Keyboard
    } else if subclass == 1 && protocol == 2 {
        HidInterfaceKind::Mouse
    } else {
        HidInterfaceKind::Other
    }
}

/// The kind that a subclass and protocol declare.
pub fn interface_kind(subclass: u8, protocol: u8) -> (kind: HidInterfaceKind)
    ensures
        kind == interface_kind_spec(subclass as int, protocol as int),
{
    if subclass == 1 && protocol == 1 {
        HidInterfaceKind::Keyboard
    } else if subclass == 1 && protocol == 2 {
        HidInterfaceKind::Mouse
    } else {
        HidInterfaceKind::Other
    }
}

/// A hub's port count, generation and polling position.
#[derive(Clone, Copy, Debug, PartialEq, Eq)]
pub struct HubState {
    pub ports: u8,
    pub superspeed: bool,
    pub protocol: u8,
    pub characteristics: u16,
    pub next_port: u8,
}

/// One HID interface with its interrupt-IN endpoint.
#[derive(Debug)]
pub struct HidInterfaceState {
    pub info: HidInterfaceInfo,
    pub report_descriptor: Vec<u8>,
    pub endpoint_id: u8,
    pub interval: u8,
    pub max_packet_size: u16,
    pub max_burst: u8,
    pub max_esit_payload: usize,
    pub ring: ProducerRing,
    pub buffer: DmaPage,
    pub buffer_len: usize,
    pub queued_trb: u64,
    pub transfer_error: Option<u8>,
    pub active: bool,
}

/// The block that asks for one input report.
pub open spec fn report_trb(buffer: u64, length: u32) -> Trb {
    Trb {
        parameter: buffer,
        status: length,
        control: (trb_control_spec(TRB_TYPE_NORMAL as int) + 0x20 + 0x4) as u32,
    }
}

impl HidInterfaceState {
    pub open spec fn wf(&self) -> bool {
        self.ring.wf() && self.buffer.wf()
    }

    /// Everything but the ring and the queued block is as in `before`.
    pub open spec fn same_but_queue(&self, before: HidInterfaceState) -> bool {
        &&& self.info == before.info
        &&& self.report_descriptor == before.report_descriptor
        &&& self.endpoint_id == before.endpoint_id
        &&& self.interval == before.interval
        &&& self.max_packet_size == before.max_packet_size
        &&& self.max_burst == before.max_burst
        &&& self.max_esit_payload == before.max_esit_payload
        &&& self.buffer == before.buffer
        &&& self.buffer_len == before.buffer_len
        &&& self.transfer_error == before.transfer_error
        &&& self.active == before.active
    }

    /// Asks the controller for the next report.
    pub fn queue_next(&mut self) -> (result: Result<(), UsbError>)
        requires
            old(self).wf(),
        ensures
            final(self).wf(),
            final(self).same_but_queue(*old(self)),
            if old(self).buffer_len > u32::MAX {
                &&& result == Err::<(), UsbError>(UsbError::ReportTooLarge)
                &&& *final(self) == *old(self)
            } else {
                &&& result == Ok::<(), UsbError>(())
                &&& final(self).queued_trb == old(self).ring.page.physical + 16 * old(
                    self,
                ).ring.enqueue_index
                &&& final(self).ring.appended(
                    old(self).ring,
                    report_trb(
                        old(self).buffer.physical,
                        old(self).buffer_len as u32,
                    ).with_cycle_spec(old(self).ring.cycle),
                )
            },
    {
        if self.buffer_len > u32::MAX as usize {
            return Err(UsbError::ReportTooLarge);
        }
        let trb = Trb::new(
            self.buffer.physical,
            self.buffer_len as u32,
            trb_control(TRB_TYPE_NORMAL) + 0x20 + 0x4,
        );
        self.queued_trb = self.ring.enqueue(trb);
        Ok(())
    }
}

/// Stops an interface after a failed transfer; `None` when it had stopped before.
pub fn retire_interface(interface: &mut HidInterfaceState, completion: u8) -> (retired: Option<
    HidInterfaceInfo,
>)
    ensures
        if old(interface).active {
            &&& retired == Some(old(interface).info)
            &&& *final(interface) == (HidInterfaceState {
                transfer_error: Some(completion),
                active: false,
                ..*old(interface)
            })
        } else {
            retired is None && *final(interface) == *old(interface)
        },
{
    if !interface.active {
        return None;
    }
    interface.transfer_error = Some(completion);
    interface.active = false;
    Some(interface.info)
}

/// One addressed device.
#[derive(Debug)]
pub struct UsbDevice {
    pub output_context: DmaPage,
    pub input_context: DmaPage,
    pub control_buffer: DmaPage,
    pub ep0_ring: ProducerRing,
    pub slot_id: u8,
    pub path: UsbPath,
    pub parent_slot_id: Option<u8>,
    pub parent_port: Option<u8>,
    pub speed: u8,
    pub tt: Option<TtInfo>,
    pub hub: Option<HubState>,
    pub interfaces: Vec<HidInterfaceState>,
}

/// The pages of the first `count` interfaces, ring before buffer.
pub open spec fn interface_pages(interfaces: Seq<HidInterfaceState>, count: nat) -> Seq<DmaPage>
    decreases count,
{
    if count == 0 {
        Seq::empty()
    } else {
        interface_pages(interfaces, (count - 1) as nat).push(
            interfaces[count - 1].ring.page,
        ).push(interfaces[count - 1].buffer)
    }
}

impl UsbDevice {
    pub open spec fn wf(&self) -> bool {
        &&& self.output_context.wf()
        &&& self.input_context.wf()
        &&& self.control_buffer.wf()
        &&& self.ep0_ring.wf()
        &&& forall|i: int| 0 <= i < self.interfaces@.len() ==> (#[trigger] self.interfaces@[i]).wf()
    }

    /// Every page that the device owns, in release order.
    pub open spec fn pages(&self) -> Seq<DmaPage> {
        seq![
            self.output_context,
            self.input_context,
            self.control_buffer,
            self.ep0_ring.page,
        ] + interface_pages(self.interfaces@, self.interfaces@.len())
    }

    /// Dissolves the device into the pages that it owned.
    pub fn into_dma_pages(self) -> (pages: Vec<DmaPage>)
        requires
            self.wf(),
        ensures
            pages@ == self.pages(),
            forall|i: int| 0 <= i < pages@.len() ==> (#[trigger] pages@[i]).wf(),
    {
        let ghost original = self;
        let UsbDevice {
            output_context,
            input_context,
            control_buffer,
            ep0_ring,
            interfaces,
            slot_id: _,
            path: _,
            parent_slot_id: _,
            parent_port: _,
            speed: _,
            tt: _,
            hub: _,
        } = self;
        let mut pages: Vec<DmaPage> = Vec::new();
        pages.push(output_context);
        pages.push(input_context);
        pages.push(control_buffer);
        pages.push(ep0_ring.into_inner());
        let ghost head = pages@;
        let ghost all = interfaces@;
        let mut remaining: Vec<HidInterfaceState> = Vec::new();
        let mut source: Vec<HidInterfaceState> = interfaces;
        // Reverse once so that popping walks the interfaces in order.
        while source.len() > 0
            invariant
                remaining@.len() + source@.len() == all.len(),
                source@ == all.take(source@.len() as int),
                forall|i: int|
                    0 <= i < remaining@.len() ==> #[trigger] remaining@[i] == all[all.len() - 1
                        - i],
            decreases source@.len(),
        {
            let count: usize = source.len();
            match source.pop() {
                Some(interface) => {
                    proof {
                        assert(interface == all[count - 1]);
                        assert(source@ =~= all.take(count - 1));
                    }
                    remaining.push(interface);
                },
                None => {},
            }
        }
        let ghost mut done: nat = 0;
        while remaining.len() > 0
            invariant
                done + remaining@.len() == all.len(),
                forall|i: int|
                    0 <= i < remaining@.len() ==> #[trigger] remaining@[i] == all[all.len() - 1
                        - i],
                pages@ == head + interface_pages(all, done),
                forall|i: int| 0 <= i < pages@.len() ==> (#[trigger] pages@[i]).wf(),
                forall|i: int| 0 <= i < all.len() ==> (#[trigger] all[i]).wf(),
            decreases remaining@.len(),
        {
            match remaining.pop() {
                Some(interface) => {
                    proof {
                        assert(interface == all[done as int]);
                        assert(all[done as int].wf());
                    }
                    pages.push(interface.ring.into_inner());
                    pages.push(interface.buffer);
                    proof {
                        done = done + 1;
                        assert(pages@ =~= head + interface_pages(all, done));
                    }
                },
                None => {},
            }
        }
        proof {
            assert(head =~= seq![
                original.output_context,
                original.input_context,
                original.control_buffer,
                original.ep0_ring.page,
            ]);
        }
        pages
    }
}

} // verus!
