//! Slots: how a device gets one, and how it is given back.
//!
//! The caller performs each request and hands back what came of it.
use vstd::prelude::*;

use super::contexts::{address_word, build_address_context, valid_context_size, AddressContext};
use super::controller::{
    address_device_command, disable_slot_command, enable_slot_command, enable_slot_spec,
    judge_slot, set_dcbaa_entry, slot_command, SlotGrant, MAX_DEVICES,
};
use super::descriptors::{initial_ep0_packet_size, initial_packet_spec};
use super::device::UsbDevice;
use super::error::UsbError;
use super::host::UsbHost;
use super::hub::Placement;
use super::page::{DmaPage, PageWrite, PAGE_WORDS};

use super::populate::{
    enumerable, populate_post, reads, reply_fits, Phase, PopulateReply, PopulateRequest,
    Population,
};
use super::ring::{
    link_spec, trb_writes, ProducerRing, Trb, RING_LINK_INDEX, TRB_TYPE_ADDRESS_DEVICE_COMMAND,
    TRB_TYPE_DISABLE_SLOT_COMMAND,
};

verus! {

/// A device that is being given a slot.
#[derive(Debug)]
pub enum SlotSetup {
    /// A slot was asked for.
    Enable { placement: Placement },
    /// A slot beyond those in use is being given back.
    Refuse,
    /// The pages of the device are being collected.
    Pages { placement: Placement, slot: u8, pages: Vec<DmaPage> },
    /// The device is being addressed.
    Address { device: UsbDevice },
    /// The device is being asked what it is.
    Populate { device: UsbDevice, population: Population },
    /// The slot is being given back before there was a device.
    AbandonSlot { slot: u8, error: UsbError },
    /// The slot of a device is being given back.
    AbandonDevice { device: UsbDevice, error: UsbError },
    /// Nothing is left to do.
    Ended,
}

/// What the caller has to do next for a slot.
#[derive(Debug)]
pub enum SlotRequest {
    Command(Trb),
    AcquirePage,
    Populate(PopulateRequest),
    /// The device is ready.
    Finished(UsbDevice),
    Failed(UsbError),
}

/// What came of a request for a slot.
#[derive(Debug)]
pub enum SlotReply {
    /// The command completed, for this slot.
    Completed(u8),
    Page(DmaPage),
    Populated(PopulateReply),
    Failed(UsbError),
}

/// The reply answers what a state waits for.
pub open spec fn slot_reply_fits(state: SlotSetup, reply: SlotReply) -> bool {
    match reply {
        SlotReply::Completed(_) => match state {
            SlotSetup::Enable { .. } | SlotSetup::Refuse | SlotSetup::Address { .. }
            | SlotSetup::AbandonSlot { .. } | SlotSetup::AbandonDevice { .. } => true,
            _ => false,
        },
        SlotReply::Page(page) => state is Pages && page.wf(),
        SlotReply::Populated(reply) => state is Populate && reply_fits(
            state->population.phase,
            reply,
        ),
        SlotReply::Failed(_) => !(state is Populate) && !(state is Ended),
    }
}

/// The command that gives a slot back.
pub open spec fn disables(slot: u8) -> SlotRequest {
    SlotRequest::Command(slot_command(TRB_TYPE_DISABLE_SLOT_COMMAND, 0, slot))
}

/// `after` is the device context array `before` with the entry of `slot` set.
pub open spec fn points_at(before: DmaPage, after: DmaPage, slot: u8, value: u64) -> bool {
    after.extends(before, seq![PageWrite::Double { offset: (8 * slot) as usize, wide: value }])
}

/// The entry of `slot` is cleared, if the array has one.
pub open spec fn entry_cleared(
    tables: (DmaPage, DmaPage),
    max_slots: u8,
    slot: u8,
) -> bool {
    if slot == 0 || slot > max_slots {
        tables.1 == tables.0
    } else {
        points_at(tables.0, tables.1, slot, 0)
    }
}

/// The device on four pages, before it is addressed.
pub open spec fn unaddressed(
    device: UsbDevice,
    pages: Seq<DmaPage>,
    placement: Placement,
    slot: u8,
) -> bool {
    &&& device.output_context == pages[0]
    &&& device.control_buffer == pages[2]
    &&& device.ep0_ring.enqueue_index == 0
    &&& device.ep0_ring.cycle
    &&& device.ep0_ring.page.extends(
        pages[3],
        trb_writes(RING_LINK_INDEX as int, link_spec(pages[3].physical, true)),
    )
    &&& device.slot_id == slot
    &&& device.path == placement.path
    &&& device.parent_slot_id == placement.parent_slot_id
    &&& device.parent_port == placement.parent_port
    &&& device.speed == placement.speed
    &&& device.tt == placement.tt
    &&& device.hub is None
    &&& device.interfaces@.len() == 0
}

/// What the Address Device command is to install for a device.
pub open spec fn address_of(device: UsbDevice) -> AddressContext {
    AddressContext {
        path: device.path,
        speed: device.speed,
        packet_size: initial_packet_spec(device.speed as int),
        ep0_ring: device.ep0_ring.page.physical,
        tt: device.tt,
    }
}

/// The last page was found: the device is addressed.
pub open spec fn addresses(
    placement: Placement,
    slot: u8,
    pages: Seq<DmaPage>,
    max_slots: u8,
    context_size: usize,
    after: SlotSetup,
    tables: (DmaPage, DmaPage),
    request: SlotRequest,
) -> bool {
    if slot == 0 || slot > max_slots {
        &&& after matches SlotSetup::AbandonDevice { device, error } && error
            == UsbError::InvalidSlot && unaddressed(device, pages, placement, slot)
            && device.input_context == pages[1]
        &&& tables.1 == tables.0
        &&& request == disables(slot)
    } else {
        &&& after matches SlotSetup::Address { device } && unaddressed(
            device,
            pages,
            placement,
            slot,
        ) && device.input_context.continues(pages[1]) && device.input_context.words@ == Seq::new(
            PAGE_WORDS as nat,
            |i: int| address_word(context_size as int, address_of(device), i),
        )
        &&& points_at(tables.0, tables.1, slot, pages[0].physical)
        &&& request == SlotRequest::Command(
            slot_command(TRB_TYPE_ADDRESS_DEVICE_COMMAND, pages[1].physical, slot),
        )
    }
}

/// What a page leads to.
pub open spec fn page_collected<P>(
    placement: Placement,
    slot: u8,
    pages: Seq<DmaPage>,
    host: UsbHost<P>,
    after: SlotSetup,
    tables: (DmaPage, DmaPage),
    request: SlotRequest,
) -> bool {
    if pages.len() < 4 {
        &&& after matches SlotSetup::Pages { placement: still, slot: own, pages: collected }
            && still == placement && own == slot && collected@ == pages
        &&& tables.1 == tables.0
        &&& request == SlotRequest::AcquirePage
    } else {
        addresses(
            placement,
            slot,
            pages,
            host.layout.max_slots,
            host.layout.context_size,
            after,
            tables,
            request,
        )
    }
}

/// What the slot that was granted leads to.
pub open spec fn slot_granted(
    placement: Placement,
    slot: u8,
    max_slots: u8,
    after: SlotSetup,
    request: SlotRequest,
) -> bool {
    if slot == 0 {
        after is Ended && request == SlotRequest::Failed(UsbError::InvalidSlot)
    } else if slot > max_slots {
        after is Refuse && request == disables(slot)
    } else {
        &&& after matches SlotSetup::Pages { placement: still, slot: own, pages } && still
            == placement && own == slot && pages@.len() == 0
        &&& request == SlotRequest::AcquirePage
    }
}

/// The enumeration of a device asks this next, whatever else it keeps in mind.
pub open spec fn asked_to(
    before: Population,
    old_device: UsbDevice,
    device: UsbDevice,
    old_id: u32,
    next_id: u32,
    reply: PopulateReply,
    asked: PopulateRequest,
) -> bool {
    exists|population: Population| #[trigger]
        populate_post(before, population, old_device, device, old_id, next_id, reply, asked)
}

/// The enumeration of a device failed; `returned` is reused.
pub open spec fn gives_back_page(
    device: (Population, UsbDevice, UsbDevice),
    ids: (u32, u32),
    pools: (Seq<DmaPage>, Seq<DmaPage>),
    reply: PopulateReply,
    error: UsbError,
    returned: Option<DmaPage>,
) -> bool {
    &&& asked_to(
        device.0,
        device.1,
        device.2,
        ids.0,
        ids.1,
        reply,
        PopulateRequest::Failed { error, returned },
    )
    &&& pools.1 == (match returned {
        Some(page) => pools.0.push(page),
        None => pools.0,
    })
}

/// The enumeration of a device failed; a page that the device has not got is reused.
pub open spec fn gives_back(
    device: (Population, UsbDevice, UsbDevice),
    ids: (u32, u32),
    pools: (Seq<DmaPage>, Seq<DmaPage>),
    reply: PopulateReply,
    error: UsbError,
) -> bool {
    exists|returned: Option<DmaPage>| #[trigger]
        gives_back_page(device, ids, pools, reply, error, returned)
}

/// What a reply leads to while a device is asked what it is.
pub open spec fn populates<P>(
    old_device: UsbDevice,
    before: Population,
    after: SlotSetup,
    hosts: (UsbHost<P>, UsbHost<P>),
    reply: PopulateReply,
    request: SlotRequest,
) -> bool {
    let old_id = hosts.0.next_device_id;
    let next_id = hosts.1.next_device_id;
    match request {
        SlotRequest::Populate(asked) => {
            &&& !(asked is Finished) && !(asked is Failed)
            &&& after matches SlotSetup::Populate { device, population } && populate_post(
                before,
                population,
                old_device,
                device,
                old_id,
                next_id,
                reply,
                asked,
            )
            &&& hosts.1 == (UsbHost { next_device_id: next_id, ..hosts.0 })
        },
        SlotRequest::Finished(device) => {
            &&& after is Ended
            &&& asked_to(
                before,
                old_device,
                device,
                old_id,
                next_id,
                reply,
                PopulateRequest::Finished,
            )
            &&& hosts.1 == (UsbHost { next_device_id: next_id, ..hosts.0 })
        },
        SlotRequest::Command(_) => {
            &&& request == disables(old_device.slot_id)
            &&& after matches SlotSetup::AbandonDevice { device, error } && gives_back(
                (before, old_device, device),
                (old_id, next_id),
                (hosts.0.dma_pool.pages@, hosts.1.dma_pool.pages@),
                reply,
                error,
            )
            &&& hosts.1 == (UsbHost {
                next_device_id: next_id,
                dma_pool: hosts.1.dma_pool,
                ..hosts.0
            })
        },
        _ => false,
    }
}

/// What a reply leads to while a device is given a slot.
pub open spec fn slot_post<P>(
    before: SlotSetup,
    after: SlotSetup,
    hosts: (UsbHost<P>, UsbHost<P>),
    tables: (DmaPage, DmaPage),
    reply: SlotReply,
    request: SlotRequest,
) -> bool {
    let layout = hosts.0.layout;
    match before {
        SlotSetup::Enable { placement } => {
            &&& hosts.1 == hosts.0 && tables.1 == tables.0
            &&& match reply {
                SlotReply::Completed(slot) => slot_granted(
                    placement,
                    slot,
                    layout.max_slots,
                    after,
                    request,
                ),
                SlotReply::Failed(error) => after is Ended && request == SlotRequest::Failed(
                    error,
                ),
                _ => false,
            }
        },
        SlotSetup::Refuse => {
            &&& hosts.1 == hosts.0 && tables.1 == tables.0
            &&& after is Ended && request == SlotRequest::Failed(UsbError::InvalidSlot)
        },
        SlotSetup::Pages { placement, slot, pages } => match reply {
            SlotReply::Page(page) => {
                &&& hosts.1 == hosts.0
                &&& page_collected(
                    placement,
                    slot,
                    pages@.push(page),
                    hosts.0,
                    after,
                    tables,
                    request,
                )
            },
            SlotReply::Failed(error) => {
                &&& hosts.1.dma_pool.pages@ == hosts.0.dma_pool.pages@ + pages@
                &&& hosts.1 == (UsbHost { dma_pool: hosts.1.dma_pool, ..hosts.0 })
                &&& tables.1 == tables.0
                &&& after == (SlotSetup::AbandonSlot { slot, error })
                &&& request == disables(slot)
            },
            _ => false,
        },
        SlotSetup::Address { device } => {
            &&& hosts.1 == hosts.0 && tables.1 == tables.0
            &&& match reply {
                SlotReply::Completed(_) => {
                    &&& after matches SlotSetup::Populate { device: same, population } && same
                        == device && population.wf() && population.phase
                        == Phase::Header && population.context_size
                        == layout.context_size && population.installed_interfaces
                        == hosts.0.active().len()
                    &&& request == SlotRequest::Populate(
                        PopulateRequest::Control(reads(0x80, 0x0100, 0, 8)),
                    )
                },
                SlotReply::Failed(error) => {
                    &&& after == (SlotSetup::AbandonDevice { device, error })
                    &&& request == disables(device.slot_id)
                },
                _ => false,
            }
        },
        SlotSetup::Populate { device, population } => {
            &&& tables.1 == tables.0
            &&& reply matches SlotReply::Populated(inner) && populates(
                device,
                population,
                after,
                hosts,
                inner,
                request,
            )
        },
        SlotSetup::AbandonSlot { slot, error } => {
            &&& after is Ended && request == SlotRequest::Failed(error)
            &&& if reply is Completed {
                hosts.1 == hosts.0 && entry_cleared(tables, layout.max_slots, slot)
            } else {
                &&& tables.1 == tables.0
                &&& hosts.1.quarantined_slots@ == hosts.0.quarantined_slots@.push(slot)
                &&& hosts.1 == (UsbHost {
                    quarantined_slots: hosts.1.quarantined_slots,
                    ..hosts.0
                })
            }
        },
        SlotSetup::AbandonDevice { device, error } => {
            &&& after is Ended && request == SlotRequest::Failed(error)
            &&& if reply is Completed {
                &&& entry_cleared(tables, layout.max_slots, device.slot_id)
                &&& hosts.1.dma_pool.pages@ == hosts.0.dma_pool.pages@ + device.pages()
                &&& hosts.1 == (UsbHost { dma_pool: hosts.1.dma_pool, ..hosts.0 })
            } else {
                &&& tables.1 == tables.0
                &&& hosts.1.quarantined_devices@ == hosts.0.quarantined_devices@.push(device)
                &&& hosts.1 == (UsbHost {
                    quarantined_devices: hosts.1.quarantined_devices,
                    ..hosts.0
                })
            }
        },
        SlotSetup::Ended => false,
    }
}

impl SlotSetup {
    /// Every page and device that a state holds is usable.
    pub open spec fn wf(&self) -> bool {
        match *self {
            SlotSetup::Pages { placement, slot, pages } => {
                &&& pages@.len() < 4
                &&& forall|i: int| 0 <= i < pages@.len() ==> (#[trigger] pages@[i]).wf()
            },
            SlotSetup::Address { device } => enumerable(device),
            SlotSetup::Populate { device, population } => enumerable(device) && population.wf(),
            SlotSetup::AbandonDevice { device, error } => device.wf(),
            _ => true,
        }
    }

    /// Asks for a slot for a device.
    pub fn new<P>(host: &UsbHost<P>, placement: Placement) -> (result: (SlotSetup, SlotRequest))
        requires
            placement.path.root_port >= 1,
        ensures
            result.0.wf(),
            result.0 == (SlotSetup::Enable { placement }),
            result.1 == SlotRequest::Command(
                enable_slot_spec(
                    if placement.path.root_port <= host.port_slot_types@.len() {
                        host.port_slot_types@[placement.path.root_port - 1]
                    } else {
                        0
                    },
                ),
            ),
    {
        let slot_type: u8 = host.slot_type(placement.path);
        (SlotSetup::Enable { placement }, SlotRequest::Command(enable_slot_command(slot_type)))
    }

    /// Takes what came of the last request and says what to do next.
    pub fn step<P>(self, host: &mut UsbHost<P>, dcbaa: &mut DmaPage, reply: SlotReply) -> (result: (
        SlotSetup,
        SlotRequest,
    ))
        requires
            self.wf(),
            old(host).wf(),
            old(host).occupied() < MAX_DEVICES,
            valid_context_size(old(host).layout.context_size as int),
            old(dcbaa).wf(),
            slot_reply_fits(self, reply),
        ensures
            result.0.wf(),
            final(host).wf(),
            final(dcbaa).wf(),
            slot_post(
                self,
                result.0,
                (*old(host), *final(host)),
                (*old(dcbaa), *final(dcbaa)),
                reply,
                result.1,
            ),
            result.1 matches SlotRequest::Finished(device) ==> enumerable(device),
    {
        match self {
            SlotSetup::Enable { placement } => match reply {
                SlotReply::Completed(slot) => on_granted(placement, slot, host.layout.max_slots),
                SlotReply::Failed(error) => (SlotSetup::Ended, SlotRequest::Failed(error)),
                _ => (SlotSetup::Ended, SlotRequest::AcquirePage),
            },
            SlotSetup::Refuse => (SlotSetup::Ended, SlotRequest::Failed(UsbError::InvalidSlot)),
            SlotSetup::Pages { placement, slot, pages } => match reply {
                SlotReply::Page(page) => {
                    let mut pages: Vec<DmaPage> = pages;
                    pages.push(page);
                    if pages.len() < 4 {
                        return (
                            SlotSetup::Pages { placement, slot, pages },
                            SlotRequest::AcquirePage,
                        );
                    }
                    address(host, dcbaa, placement, slot, pages)
                },
                SlotReply::Failed(error) => {
                    host.recycle_pages(pages);
                    (
                        SlotSetup::AbandonSlot { slot, error },
                        SlotRequest::Command(disable_slot_command(slot)),
                    )
                },
                _ => (SlotSetup::Ended, SlotRequest::AcquirePage),
            },
            SlotSetup::Address { device } => match reply {
                SlotReply::Completed(_) => {
                    let (population, asked): (Population, PopulateRequest) = Population::new(
                        host.layout.context_size,
                        host.interface_count(),
                    );
                    (SlotSetup::Populate { device, population }, SlotRequest::Populate(asked))
                },
                SlotReply::Failed(error) => {
                    let slot: u8 = device.slot_id;
                    (
                        SlotSetup::AbandonDevice { device, error },
                        SlotRequest::Command(disable_slot_command(slot)),
                    )
                },
                _ => (SlotSetup::Ended, SlotRequest::AcquirePage),
            },
            SlotSetup::Populate { device, population } => match reply {
                SlotReply::Populated(inner) => on_populated(host, device, population, inner),
                _ => (SlotSetup::Ended, SlotRequest::AcquirePage),
            },
            SlotSetup::AbandonSlot { slot, error } => {
                match reply {
                    SlotReply::Completed(_) => {
                        let _cleared = set_dcbaa_entry(dcbaa, host.layout.max_slots, slot, 0);
                    },
                    _ => {
                        host.quarantine_slot(slot);
                    },
                }
                (SlotSetup::Ended, SlotRequest::Failed(error))
            },
            SlotSetup::AbandonDevice { device, error } => {
                match reply {
                    SlotReply::Completed(_) => {
                        let _cleared = set_dcbaa_entry(
                            dcbaa,
                            host.layout.max_slots,
                            device.slot_id,
                            0,
                        );
                        host.recycle_device(device);
                    },
                    _ => {
                        host.quarantine_device(device);
                    },
                }
                (SlotSetup::Ended, SlotRequest::Failed(error))
            },
            SlotSetup::Ended => (SlotSetup::Ended, SlotRequest::AcquirePage),
        }
    }
}

/// Judges the slot that was granted.
fn on_granted(placement: Placement, slot: u8, max_slots: u8) -> (result: (SlotSetup, SlotRequest))
    ensures
        result.0.wf(),
        slot_granted(placement, slot, max_slots, result.0, result.1),
        !(result.1 is Finished),
{
    match judge_slot(slot, max_slots) {
        SlotGrant::Missing => (SlotSetup::Ended, SlotRequest::Failed(UsbError::InvalidSlot)),
        SlotGrant::OutOfRange => (
            SlotSetup::Refuse,
            SlotRequest::Command(disable_slot_command(slot)),
        ),
        SlotGrant::Usable => (
            SlotSetup::Pages { placement, slot, pages: Vec::new() },
            SlotRequest::AcquirePage,
        ),
    }
}

/// Makes a device of four pages and addresses it.
fn address<P>(
    host: &UsbHost<P>,
    dcbaa: &mut DmaPage,
    placement: Placement,
    slot: u8,
    pages: Vec<DmaPage>,
) -> (result: (SlotSetup, SlotRequest))
    requires
        valid_context_size(host.layout.context_size as int),
        old(dcbaa).wf(),
        pages@.len() == 4,
        forall|i: int| 0 <= i < pages@.len() ==> (#[trigger] pages@[i]).wf(),
    ensures
        result.0.wf(),
        final(dcbaa).wf(),
        addresses(
            placement,
            slot,
            pages@,
            host.layout.max_slots,
            host.layout.context_size,
            result.0,
            (*old(dcbaa), *final(dcbaa)),
            result.1,
        ),
        !(result.1 is Finished),
{
    let mut pages: Vec<DmaPage> = pages;
    let ghost given = pages@;
    assert(given[0].wf() && given[1].wf() && given[2].wf() && given[3].wf());
    let ring_page: DmaPage = pages.remove(3);
    let control_buffer: DmaPage = pages.remove(2);
    let input_context: DmaPage = pages.remove(1);
    let output_context: DmaPage = pages.remove(0);
    let output: u64 = output_context.physical;
    let input: u64 = input_context.physical;
    let ep0_ring: ProducerRing = ProducerRing::new(ring_page);
    let mut device = UsbDevice {
        output_context,
        input_context,
        control_buffer,
        ep0_ring,
        slot_id: slot,
        path: placement.path,
        parent_slot_id: placement.parent_slot_id,
        parent_port: placement.parent_port,
        speed: placement.speed,
        tt: placement.tt,
        hub: None,
        interfaces: Vec::new(),
    };
    match set_dcbaa_entry(dcbaa, host.layout.max_slots, slot, output) {
        Err(error) => {
            return (
                SlotSetup::AbandonDevice { device, error },
                SlotRequest::Command(disable_slot_command(slot)),
            );
        },
        Ok(()) => {},
    }
    let context = AddressContext {
        path: device.path,
        speed: device.speed,
        packet_size: initial_ep0_packet_size(device.speed),
        ep0_ring: device.ep0_ring.physical(),
        tt: device.tt,
    };
    build_address_context(&mut device.input_context, host.layout.context_size, context);
    assert(context == address_of(device));
    (
        SlotSetup::Address { device },
        SlotRequest::Command(address_device_command(slot, input)),
    )
}

/// Goes on with the enumeration of an addressed device.
fn on_populated<P>(
    host: &mut UsbHost<P>,
    device: UsbDevice,
    population: Population,
    reply: PopulateReply,
) -> (result: (SlotSetup, SlotRequest))
    requires
        old(host).wf(),
        enumerable(device),
        population.wf(),
        reply_fits(population.phase, reply),
    ensures
        result.0.wf(),
        final(host).wf(),
        populates(device, population, result.0, (*old(host), *final(host)), reply, result.1),
        result.1 matches SlotRequest::Finished(device) ==> enumerable(device),
{
    let ghost before = population;
    let ghost given = device;
    let mut device: UsbDevice = device;
    let mut population: Population = population;
    let slot: u8 = device.slot_id;
    let mut next_id: u32 = host.next_device_id;
    let asked: PopulateRequest = population.step(&mut device, &mut next_id, reply);
    host.next_device_id = next_id;
    assert(asked_to(
        before,
        given,
        device,
        old(host).next_device_id,
        host.next_device_id,
        reply,
        asked,
    ));
    match asked {
        PopulateRequest::Finished => {
            (SlotSetup::Ended, SlotRequest::Finished(device))
        },
        PopulateRequest::Failed { error, returned } => {
            let ghost kept = returned;
            if let Some(page) = returned {
                host.dma_pool.recycle(page);
            }
            proof {
                assert(gives_back_page(
                    (before, given, device),
                    (old(host).next_device_id, host.next_device_id),
                    (old(host).dma_pool.pages@, host.dma_pool.pages@),
                    reply,
                    error,
                    kept,
                ));
            }
            (
                SlotSetup::AbandonDevice { device, error },
                SlotRequest::Command(disable_slot_command(slot)),
            )
        },
        asked => (SlotSetup::Populate { device, population }, SlotRequest::Populate(asked)),
    }
}

} // verus!
