//! Bringing a controller up, one access at a time.
//!
//! The caller performs each request and hands back what came of it.
use vstd::prelude::*;

use super::contexts::valid_context_size;
use super::controller::{
    assign_slot_types, capability_kind, check_page_size, decode_capabilities, fill_segment_table,
    layout_spec, program_steps, program_steps_spec, protocol_covers, registers_fit, reset_steps,
    reset_steps_spec, scratchpad_count, scratchpads_spec, segment_writes, set_scratchpad,
    start_steps, start_steps_spec, CapabilityKind, CapabilityRegisters, CapabilityWalk,
    ControllerTables, RegisterStep, XhciLayout, MAX_EXTENDED_CAPABILITIES, MAX_SCRATCHPADS,
};
use super::error::UsbError;
use super::page::{lemma_one_write, DmaPage, PageWrite};
use super::ring::{link_spec, trb_writes, EventRing, ProducerRing, RING_LINK_INDEX};

verus! {

/// The bit by which firmware says that it still owns the controller.
pub const FIRMWARE_OWNED: u32 = 0x1_0000;

/// What bringing the controller up waits for.
#[derive(Clone, Copy, Debug, PartialEq, Eq, Structural)]
pub enum BringupPhase {
    /// The capability registers.
    Capabilities,
    /// The header of an extended capability.
    Header,
    /// The controller to be claimed from the firmware.
    Claim,
    /// The header of the legacy capability after the claim.
    Claimed,
    /// The firmware's interrupts to be switched off.
    Disown,
    /// The ports of a protocol.
    Ports,
    /// The slot type of a protocol.
    SlotType,
    /// The command register.
    Command,
    /// The reset.
    Reset,
    /// The supported page sizes.
    PageSize,
    /// A page for the device context array.
    Dcbaa,
    /// A page for the command ring.
    CommandRing,
    /// A page for the event ring.
    EventRing,
    /// A page for the segment table of the event ring.
    Segments,
    /// A page for the scratchpad array.
    ScratchArray,
    /// A scratchpad page.
    Scratchpad,
    /// The tables to be handed to the controller.
    Program,
    /// The command register, before the start.
    Start,
    /// The start.
    Running,
    /// Nothing: the controller runs.
    Finished,
    /// Nothing: the controller cannot be used.
    Failed,
}

/// What the caller has to do next.
#[derive(Debug)]
pub enum BringupRequest {
    ReadCapabilities,
    Read { offset: u64 },
    Run(Vec<RegisterStep>),
    AcquirePage,
    Finished,
    Failed(UsbError),
}

/// What came of a request.
#[derive(Debug)]
pub enum BringupReply {
    /// The capability registers, and the length of the register window.
    Capabilities(CapabilityRegisters, u64),
    Word(u32),
    Done,
    Page(DmaPage),
    Failed(UsbError),
}

/// A controller that is being brought up.
#[derive(Debug)]
pub struct Bringup {
    pub phase: BringupPhase,
    pub registers: CapabilityRegisters,
    pub layout: XhciLayout,
    pub walk: CapabilityWalk,
    pub header: u32,
    pub ports: u32,
    pub port_slot_types: Vec<u8>,
    pub dcbaa: Option<DmaPage>,
    pub command_ring: Option<ProducerRing>,
    pub event_ring: Option<EventRing>,
    pub segments: Option<DmaPage>,
    pub scratch_array: Option<DmaPage>,
    pub scratchpads: Vec<DmaPage>,
    pub scratchpad_count: u32,
}

/// How many of the tables are there in a phase.
pub open spec fn tables_in(phase: BringupPhase) -> int {
    match phase {
        BringupPhase::CommandRing => 1,
        BringupPhase::EventRing => 2,
        BringupPhase::Segments => 3,
        BringupPhase::ScratchArray => 4,
        BringupPhase::Scratchpad => 5,
        BringupPhase::Program | BringupPhase::Start | BringupPhase::Running
        | BringupPhase::Finished => 6,
        _ => 0,
    }
}

/// An extended capability is being looked at in this phase.
pub open spec fn looks_at_capability(phase: BringupPhase) -> bool {
    match phase {
        BringupPhase::Header | BringupPhase::Claim | BringupPhase::Claimed | BringupPhase::Disown
        | BringupPhase::Ports | BringupPhase::SlotType => true,
        _ => false,
    }
}

/// The reply answers what a phase waits for.
pub open spec fn bringup_reply_fits(phase: BringupPhase, reply: BringupReply) -> bool {
    match reply {
        BringupReply::Capabilities(_, _) => phase == BringupPhase::Capabilities,
        BringupReply::Word(_) => match phase {
            BringupPhase::Header | BringupPhase::Claimed | BringupPhase::Ports
            | BringupPhase::SlotType | BringupPhase::Command | BringupPhase::PageSize
            | BringupPhase::Start => true,
            _ => false,
        },
        BringupReply::Done => match phase {
            BringupPhase::Claim | BringupPhase::Disown | BringupPhase::Reset
            | BringupPhase::Program | BringupPhase::Running => true,
            _ => false,
        },
        BringupReply::Page(page) => page.wf() && match phase {
            BringupPhase::Dcbaa | BringupPhase::CommandRing | BringupPhase::EventRing
            | BringupPhase::Segments | BringupPhase::ScratchArray | BringupPhase::Scratchpad => true,
            _ => false,
        },
        BringupReply::Failed(_) => phase != BringupPhase::Finished && phase
            != BringupPhase::Failed,
    }
}

/// The request runs these steps.
pub open spec fn runs(request: BringupRequest, steps: Seq<RegisterStep>) -> bool {
    request matches BringupRequest::Run(listed) && listed@ == steps
}

/// Bringing up ended with an error; nothing else changed.
pub open spec fn gave_up(
    before: Bringup,
    after: Bringup,
    request: BringupRequest,
    error: UsbError,
) -> bool {
    &&& request == BringupRequest::Failed(error)
    &&& after == (Bringup { phase: BringupPhase::Failed, ..before })
}

/// The walk after a capability.
pub open spec fn walked(walk: CapabilityWalk, header: u32) -> CapabilityWalk {
    CapabilityWalk {
        offset: if header as int / 0x100 % 256 == 0 {
            0
        } else {
            (walk.offset + header as int / 0x100 % 256 * 4) as u64
        },
        visited: (walk.visited + 1) as usize,
    }
}

/// The next capability is looked at, or the controller is reset after the last.
pub open spec fn walks_on(before: Bringup, after: Bringup, request: BringupRequest) -> bool {
    if before.walk.offset == 0 {
        &&& request == BringupRequest::Read { offset: before.layout.operational }
        &&& after == (Bringup { phase: BringupPhase::Command, ..before })
    } else if before.walk.visited >= MAX_EXTENDED_CAPABILITIES {
        gave_up(before, after, request, UsbError::InvalidCapability)
    } else {
        &&& request == BringupRequest::Read { offset: before.walk.offset }
        &&& after == (Bringup { phase: BringupPhase::Header, ..before })
    }
}

/// What the capability registers lead to.
pub open spec fn capabilities_post(
    before: Bringup,
    after: Bringup,
    raw: CapabilityRegisters,
    window: u64,
    request: BringupRequest,
) -> bool {
    if raw.capability_length < 0x20 || raw.hcsparams1 % 256 == 0 || raw.hcsparams1 / 0x100_0000
        == 0 {
        gave_up(before, after, request, UsbError::InvalidCapability)
    } else if !registers_fit(layout_spec(raw), window as int) {
        gave_up(before, after, request, UsbError::MmioOutOfRange)
    } else {
        &&& after.port_slot_types@ == Seq::new(layout_spec(raw).max_ports as nat, |i: int| 0u8)
        &&& walks_on(
            Bringup {
                registers: raw,
                layout: layout_spec(raw),
                walk: CapabilityWalk {
                    offset: (raw.hccparams1 as int / 0x1_0000 * 4) as u64,
                    visited: 0,
                },
                port_slot_types: after.port_slot_types,
                ..before
            },
            after,
            request,
        )
    }
}

/// What the header of a capability leads to.
pub open spec fn header_post(
    before: Bringup,
    after: Bringup,
    header: u32,
    request: BringupRequest,
) -> bool {
    let offset = before.walk.offset;
    let seen = Bringup { header, ..before };
    if header % 256 == 1 {
        let claim = RegisterStep::Write { offset, value: header | (1u32 << 24) };
        if header as int / 0x1_0000 % 2 == 1 {
            &&& runs(
                request,
                seq![claim, RegisterStep::Settle { offset, mask: FIRMWARE_OWNED, set: false }],
            )
            &&& after == (Bringup { phase: BringupPhase::Claim, ..seen })
        } else {
            &&& runs(
                request,
                seq![claim, RegisterStep::Write { offset: (offset + 4) as u64, value: 0 }],
            )
            &&& after == (Bringup { phase: BringupPhase::Disown, ..seen })
        }
    } else if header % 256 == 2 {
        &&& request == BringupRequest::Read { offset: (offset + 8) as u64 }
        &&& after == (Bringup { phase: BringupPhase::Ports, ..seen })
    } else {
        walks_on(Bringup { walk: walked(before.walk, header), ..seen }, after, request)
    }
}

/// What the legacy capability leads to after the claim.
pub open spec fn claimed_post(
    before: Bringup,
    after: Bringup,
    observed: u32,
    request: BringupRequest,
) -> bool {
    if observed as int / 0x1_0000 % 2 == 1 {
        gave_up(before, after, request, UsbError::ControllerTimeout)
    } else {
        &&& runs(
            request,
            seq![RegisterStep::Write { offset: (before.walk.offset + 4) as u64, value: 0 }],
        )
        &&& after == (Bringup { phase: BringupPhase::Disown, ..before })
    }
}

/// The slot types after one more protocol.
pub open spec fn slot_types_after(
    types: Seq<u8>,
    ports: u32,
    slot_word: u32,
    max_ports: u8,
) -> Seq<u8> {
    Seq::new(
        max_ports as nat,
        |i: int|
            if protocol_covers(ports as int, max_ports as int, i + 1) {
                (slot_word as int % 32) as u8
            } else {
                types[i]
            },
    )
}

/// What a word of a register leads to.
pub open spec fn word_post(
    before: Bringup,
    after: Bringup,
    word: u32,
    request: BringupRequest,
) -> bool {
    let layout = before.layout;
    match before.phase {
        BringupPhase::Header => header_post(before, after, word, request),
        BringupPhase::Claimed => claimed_post(before, after, word, request),
        BringupPhase::Ports => {
            &&& request == BringupRequest::Read { offset: (before.walk.offset + 12) as u64 }
            &&& after == (Bringup { phase: BringupPhase::SlotType, ports: word, ..before })
        },
        BringupPhase::SlotType => {
            &&& after.port_slot_types@ == slot_types_after(
                before.port_slot_types@,
                before.ports,
                word,
                layout.max_ports,
            )
            &&& walks_on(
                Bringup {
                    walk: walked(before.walk, before.header),
                    port_slot_types: after.port_slot_types,
                    ..before
                },
                after,
                request,
            )
        },
        BringupPhase::Command => {
            &&& runs(request, reset_steps_spec(layout.operational, word))
            &&& after == (Bringup { phase: BringupPhase::Reset, ..before })
        },
        BringupPhase::PageSize => if word % 2 == 0 {
            gave_up(before, after, request, UsbError::UnsupportedPageSize)
        } else {
            &&& request == BringupRequest::AcquirePage
            &&& after == (Bringup { phase: BringupPhase::Dcbaa, ..before })
        },
        _ => {
            &&& runs(request, start_steps_spec(layout.operational, word))
            &&& after == (Bringup { phase: BringupPhase::Running, ..before })
        },
    }
}

/// What comes after steps that were run.
pub open spec fn done_post(before: Bringup, after: Bringup, request: BringupRequest) -> bool {
    let layout = before.layout;
    match before.phase {
        BringupPhase::Claim => {
            &&& request == BringupRequest::Read { offset: before.walk.offset }
            &&& after == (Bringup { phase: BringupPhase::Claimed, ..before })
        },
        BringupPhase::Disown => walks_on(
            Bringup { walk: walked(before.walk, before.header), ..before },
            after,
            request,
        ),
        BringupPhase::Reset => {
            &&& request == BringupRequest::Read { offset: (layout.operational + 8) as u64 }
            &&& after == (Bringup { phase: BringupPhase::PageSize, ..before })
        },
        BringupPhase::Program => {
            &&& request == BringupRequest::Read { offset: layout.operational }
            &&& after == (Bringup { phase: BringupPhase::Start, ..before })
        },
        _ => {
            &&& request == BringupRequest::Finished
            &&& after == (Bringup { phase: BringupPhase::Finished, ..before })
        },
    }
}

/// The addresses of the tables.
pub open spec fn tables_of(state: Bringup) -> ControllerTables {
    ControllerTables {
        dcbaa: state.dcbaa->Some_0.physical,
        command_ring: state.command_ring->Some_0.page.physical,
        event_ring: state.event_ring->Some_0.page.physical,
        event_segments: state.segments->Some_0.physical,
    }
}

/// The tables are handed to the controller.
pub open spec fn programs(before: Bringup, after: Bringup, request: BringupRequest) -> bool {
    &&& runs(request, program_steps_spec(before.layout, tables_of(before)))
    &&& after == (Bringup { phase: BringupPhase::Program, ..before })
}

/// What a page for the segment table leads to.
pub open spec fn segments_post(
    before: Bringup,
    after: Bringup,
    page: DmaPage,
    request: BringupRequest,
) -> bool {
    let count = scratchpads_spec(before.registers.hcsparams2 as int);
    let filled = Bringup { segments: after.segments, ..before };
    &&& after.segments matches Some(segments) && segments.extends(
        page,
        segment_writes(before.event_ring->Some_0.page.physical),
    )
    &&& if count > MAX_SCRATCHPADS {
        gave_up(filled, after, request, UsbError::InvalidCapability)
    } else if count == 0 {
        programs(filled, after, request)
    } else {
        &&& request == BringupRequest::AcquirePage
        &&& after == (Bringup {
            phase: BringupPhase::ScratchArray,
            scratchpad_count: count as u32,
            ..filled
        })
    }
}

/// What a scratchpad page leads to.
pub open spec fn scratchpad_post(
    before: Bringup,
    after: Bringup,
    page: DmaPage,
    request: BringupRequest,
) -> bool {
    let index = before.scratchpads@.len();
    &&& after.scratchpads@ == before.scratchpads@.push(page)
    &&& after.scratch_array matches Some(array) && array.extends(
        before.scratch_array->Some_0,
        seq![PageWrite::Double { offset: (8 * index) as usize, wide: page.physical }],
    )
    &&& if index + 1 < before.scratchpad_count {
        &&& request == BringupRequest::AcquirePage
        &&& after == (Bringup {
            scratchpads: after.scratchpads,
            scratch_array: after.scratch_array,
            ..before
        })
    } else {
        &&& after.dcbaa matches Some(dcbaa) && dcbaa.extends(
            before.dcbaa->Some_0,
            seq![PageWrite::Double { offset: 0, wide: before.scratch_array->Some_0.physical }],
        )
        &&& programs(
            Bringup {
                scratchpads: after.scratchpads,
                scratch_array: after.scratch_array,
                dcbaa: after.dcbaa,
                ..before
            },
            after,
            request,
        )
    }
}

/// What a page leads to.
pub open spec fn page_post(
    before: Bringup,
    after: Bringup,
    page: DmaPage,
    request: BringupRequest,
) -> bool {
    match before.phase {
        BringupPhase::Dcbaa => {
            &&& request == BringupRequest::AcquirePage
            &&& after == (Bringup { phase: BringupPhase::CommandRing, dcbaa: Some(page), ..before })
        },
        BringupPhase::CommandRing => {
            &&& request == BringupRequest::AcquirePage
            &&& after.command_ring matches Some(ring) && ring.enqueue_index == 0 && ring.cycle
                && ring.page.extends(
                page,
                trb_writes(RING_LINK_INDEX as int, link_spec(page.physical, true)),
            )
            &&& after == (Bringup {
                phase: BringupPhase::EventRing,
                command_ring: after.command_ring,
                ..before
            })
        },
        BringupPhase::EventRing => {
            &&& request == BringupRequest::AcquirePage
            &&& after == (Bringup {
                phase: BringupPhase::Segments,
                event_ring: Some(EventRing { page, dequeue_index: 0, cycle: true }),
                ..before
            })
        },
        BringupPhase::Segments => segments_post(before, after, page, request),
        BringupPhase::ScratchArray => {
            &&& request == BringupRequest::AcquirePage
            &&& after == (Bringup {
                phase: BringupPhase::Scratchpad,
                scratch_array: Some(page),
                ..before
            })
        },
        _ => scratchpad_post(before, after, page, request),
    }
}

/// What a reply leads to.
pub open spec fn bringup_post(
    before: Bringup,
    after: Bringup,
    reply: BringupReply,
    request: BringupRequest,
) -> bool {
    match reply {
        BringupReply::Capabilities(raw, window) => capabilities_post(
            before,
            after,
            raw,
            window,
            request,
        ),
        BringupReply::Word(word) => word_post(before, after, word, request),
        BringupReply::Done => done_post(before, after, request),
        BringupReply::Page(page) => page_post(before, after, page, request),
        BringupReply::Failed(error) => gave_up(before, after, request, error),
    }
}

/// The address in entry `index` of a table of addresses.
pub open spec fn address_at(words: Seq<u32>, index: int) -> int {
    words[2 * index] + 0x1_0000_0000 * words[2 * index + 1]
}

/// The array lists the scratchpad pages in order.
pub open spec fn lists_scratchpads(array: DmaPage, pages: Seq<DmaPage>) -> bool {
    forall|i: int|
        0 <= i < pages.len() ==> address_at(array.words@, i) == (#[trigger] pages[i]).physical
}

impl Bringup {
    /// Everything that a phase relies on is there.
    pub open spec fn wf(&self) -> bool {
        &&& self.phase != BringupPhase::Capabilities && self.phase != BringupPhase::Failed ==> {
            &&& self.layout.operational <= 0xff
            &&& self.layout.runtime <= u32::MAX
            &&& self.layout.doorbells <= u32::MAX
            &&& self.layout.max_ports >= 1
            &&& valid_context_size(self.layout.context_size as int)
            &&& self.port_slot_types@.len() == self.layout.max_ports
            &&& self.walk.wf()
        }
        &&& looks_at_capability(self.phase) ==> self.walk.visited < MAX_EXTENDED_CAPABILITIES
        &&& tables_in(self.phase) >= 1 ==> (self.dcbaa matches Some(page) && page.wf())
        &&& tables_in(self.phase) >= 2 ==> (self.command_ring matches Some(ring) && ring.wf())
        &&& tables_in(self.phase) >= 3 ==> (self.event_ring matches Some(ring) && ring.wf())
        &&& tables_in(self.phase) >= 4 ==> (self.segments matches Some(page) && page.wf())
        &&& tables_in(self.phase) == 5 ==> {
            &&& self.scratch_array matches Some(page) && page.wf()
            &&& self.scratchpads@.len() < self.scratchpad_count
            &&& lists_scratchpads(self.scratch_array->Some_0, self.scratchpads@)
        }
        &&& tables_in(self.phase) == 6 ==> {
            &&& self.scratchpads@.len() == self.scratchpad_count
            &&& self.scratchpad_count > 0 ==> {
                &&& self.scratch_array is Some
                &&& lists_scratchpads(self.scratch_array->Some_0, self.scratchpads@)
                &&& address_at(self.dcbaa->Some_0.words@, 0)
                    == self.scratch_array->Some_0.physical
            }
        }
        &&& tables_in(self.phase) < 5 && self.phase != BringupPhase::Failed
            ==> self.scratchpads@.len() == 0
        &&& tables_in(self.phase) < 4 && self.phase != BringupPhase::Failed
            ==> self.scratchpad_count == 0
        &&& self.phase == BringupPhase::ScratchArray ==> self.scratchpad_count > 0
        &&& self.scratchpad_count <= MAX_SCRATCHPADS
    }

    /// Begins with nothing known of the controller.
    pub fn new() -> (result: (Bringup, BringupRequest))
        ensures
            result.0.wf(),
            result.0.phase == BringupPhase::Capabilities,
            result.0.port_slot_types@ == Seq::<u8>::empty(),
            result.0.dcbaa is None,
            result.0.command_ring is None,
            result.0.event_ring is None,
            result.0.segments is None,
            result.0.scratch_array is None,
            result.0.scratchpads@ == Seq::<DmaPage>::empty(),
            result.0.scratchpad_count == 0,
            result.1 == BringupRequest::ReadCapabilities,
    {
        let registers = CapabilityRegisters {
            capability_length: 0,
            hcsparams1: 0,
            hcsparams2: 0,
            hccparams1: 0,
            doorbell_offset: 0,
            runtime_offset: 0,
        };
        let layout = XhciLayout {
            operational: 0,
            runtime: 0,
            doorbells: 0,
            max_slots: 0,
            max_ports: 0,
            context_size: 32,
            address_64: false,
        };
        let state = Bringup {
            phase: BringupPhase::Capabilities,
            registers,
            layout,
            walk: CapabilityWalk { offset: 0, visited: 0 },
            header: 0,
            ports: 0,
            port_slot_types: Vec::new(),
            dcbaa: None,
            command_ring: None,
            event_ring: None,
            segments: None,
            scratch_array: None,
            scratchpads: Vec::new(),
            scratchpad_count: 0,
        };
        (state, BringupRequest::ReadCapabilities)
    }

    fn give_up(&mut self, error: UsbError) -> (request: BringupRequest)
        ensures
            gave_up(*old(self), *final(self), request, error),
    {
        self.phase = BringupPhase::Failed;
        BringupRequest::Failed(error)
    }

    fn walk_on(&mut self) -> (request: BringupRequest)
        requires
            old(self).walk.wf(),
        ensures
            walks_on(*old(self), *final(self), request),
    {
        match self.walk.current() {
            Err(error) => self.give_up(error),
            Ok(None) => {
                self.phase = BringupPhase::Command;
                BringupRequest::Read { offset: self.layout.operational }
            },
            Ok(Some(offset)) => {
                self.phase = BringupPhase::Header;
                BringupRequest::Read { offset }
            },
        }
    }

    fn on_capabilities(&mut self, raw: CapabilityRegisters, window: u64) -> (request:
        BringupRequest)
        requires
            old(self).wf(),
            old(self).phase == BringupPhase::Capabilities,
        ensures
            final(self).wf(),
            capabilities_post(*old(self), *final(self), raw, window, request),
    {
        let layout: XhciLayout = match decode_capabilities(raw, window) {
            Ok(layout) => layout,
            Err(error) => {
                return self.give_up(error);
            },
        };
        let mut types: Vec<u8> = Vec::new();
        while types.len() < layout.max_ports as usize
            invariant
                types@.len() <= layout.max_ports,
                forall|i: int| 0 <= i < types@.len() ==> types@[i] == 0u8,
            decreases layout.max_ports - types@.len(),
        {
            types.push(0);
        }
        assert(types@ =~= Seq::new(layout.max_ports as nat, |i: int| 0u8));
        self.registers = raw;
        self.layout = layout;
        self.walk = CapabilityWalk::new(raw.hccparams1);
        self.port_slot_types = types;
        self.walk_on()
    }

    fn on_header(&mut self, header: u32) -> (request: BringupRequest)
        requires
            old(self).wf(),
            old(self).phase == BringupPhase::Header,
        ensures
            final(self).wf(),
            header_post(*old(self), *final(self), header, request),
    {
        let offset: u64 = self.walk.offset;
        self.header = header;
        match capability_kind(header) {
            CapabilityKind::Legacy { claim, firmware_owns } => {
                let mut steps: Vec<RegisterStep> = Vec::new();
                steps.push(RegisterStep::Write { offset, value: claim });
                if firmware_owns {
                    steps.push(
                        RegisterStep::Settle { offset, mask: FIRMWARE_OWNED, set: false },
                    );
                    self.phase = BringupPhase::Claim;
                } else {
                    steps.push(RegisterStep::Write { offset: offset + 4, value: 0 });
                    self.phase = BringupPhase::Disown;
                }
                assert(steps@ =~= seq![steps@[0], steps@[1]]);
                BringupRequest::Run(steps)
            },
            CapabilityKind::Protocol => {
                self.phase = BringupPhase::Ports;
                BringupRequest::Read { offset: offset + 8 }
            },
            CapabilityKind::Other => {
                self.walk.advance(header);
                self.walk_on()
            },
        }
    }

    fn on_claimed(&mut self, observed: u32) -> (request: BringupRequest)
        requires
            old(self).wf(),
            old(self).phase == BringupPhase::Claimed,
        ensures
            final(self).wf(),
            claimed_post(*old(self), *final(self), observed, request),
    {
        if observed / 0x1_0000 % 2 == 1 {
            return self.give_up(UsbError::ControllerTimeout);
        }
        let mut steps: Vec<RegisterStep> = Vec::new();
        steps.push(RegisterStep::Write { offset: self.walk.offset + 4, value: 0 });
        self.phase = BringupPhase::Disown;
        assert(steps@ =~= seq![steps@[0]]);
        BringupRequest::Run(steps)
    }

    fn on_word(&mut self, word: u32) -> (request: BringupRequest)
        requires
            old(self).wf(),
            bringup_reply_fits(old(self).phase, BringupReply::Word(word)),
        ensures
            final(self).wf(),
            word_post(*old(self), *final(self), word, request),
    {
        match self.phase {
            BringupPhase::Header => self.on_header(word),
            BringupPhase::Claimed => self.on_claimed(word),
            BringupPhase::Ports => {
                self.ports = word;
                self.phase = BringupPhase::SlotType;
                BringupRequest::Read { offset: self.walk.offset + 12 }
            },
            BringupPhase::SlotType => {
                assign_slot_types(
                    &mut self.port_slot_types,
                    self.ports,
                    word,
                    self.layout.max_ports,
                );
                self.walk.advance(self.header);
                self.walk_on()
            },
            BringupPhase::Command => {
                self.phase = BringupPhase::Reset;
                BringupRequest::Run(reset_steps(self.layout.operational, word))
            },
            BringupPhase::PageSize => match check_page_size(word) {
                Err(error) => self.give_up(error),
                Ok(()) => {
                    self.phase = BringupPhase::Dcbaa;
                    BringupRequest::AcquirePage
                },
            },
            _ => {
                self.phase = BringupPhase::Running;
                BringupRequest::Run(start_steps(self.layout.operational, word))
            },
        }
    }

    fn on_done(&mut self) -> (request: BringupRequest)
        requires
            old(self).wf(),
            bringup_reply_fits(old(self).phase, BringupReply::Done),
        ensures
            final(self).wf(),
            done_post(*old(self), *final(self), request),
    {
        match self.phase {
            BringupPhase::Claim => {
                self.phase = BringupPhase::Claimed;
                BringupRequest::Read { offset: self.walk.offset }
            },
            BringupPhase::Disown => {
                self.walk.advance(self.header);
                self.walk_on()
            },
            BringupPhase::Reset => {
                self.phase = BringupPhase::PageSize;
                BringupRequest::Read { offset: self.layout.operational + 8 }
            },
            BringupPhase::Program => {
                self.phase = BringupPhase::Start;
                BringupRequest::Read { offset: self.layout.operational }
            },
            _ => {
                self.phase = BringupPhase::Finished;
                BringupRequest::Finished
            },
        }
    }

    fn program(&mut self) -> (request: BringupRequest)
        requires
            old(self).layout.operational <= 0xff,
            old(self).layout.runtime <= u32::MAX,
            old(self).dcbaa is Some,
            old(self).command_ring is Some,
            old(self).event_ring is Some,
            old(self).segments is Some,
        ensures
            programs(*old(self), *final(self), request),
    {
        let dcbaa: u64 = match &self.dcbaa {
            Some(page) => page.physical,
            None => 0,
        };
        let command_ring: u64 = match &self.command_ring {
            Some(ring) => ring.physical(),
            None => 0,
        };
        let event_ring: u64 = match &self.event_ring {
            Some(ring) => ring.physical(),
            None => 0,
        };
        let event_segments: u64 = match &self.segments {
            Some(page) => page.physical,
            None => 0,
        };
        self.phase = BringupPhase::Program;
        BringupRequest::Run(
            program_steps(
                self.layout,
                ControllerTables { dcbaa, command_ring, event_ring, event_segments },
            ),
        )
    }

    fn on_segments(&mut self, page: DmaPage) -> (request: BringupRequest)
        requires
            old(self).wf(),
            old(self).phase == BringupPhase::Segments,
            page.wf(),
        ensures
            final(self).wf(),
            segments_post(*old(self), *final(self), page, request),
    {
        let event_ring: u64 = match &self.event_ring {
            Some(ring) => ring.physical(),
            None => 0,
        };
        let mut table: DmaPage = page;
        fill_segment_table(&mut table, event_ring);
        self.segments = Some(table);
        match scratchpad_count(self.registers.hcsparams2) {
            Err(error) => self.give_up(error),
            Ok(count) => {
                if count == 0 {
                    return self.program();
                }
                self.scratchpad_count = count;
                self.phase = BringupPhase::ScratchArray;
                BringupRequest::AcquirePage
            },
        }
    }

    fn on_scratchpad(&mut self, page: DmaPage) -> (request: BringupRequest)
        requires
            old(self).wf(),
            old(self).phase == BringupPhase::Scratchpad,
            page.wf(),
        ensures
            final(self).wf(),
            scratchpad_post(*old(self), *final(self), page, request),
    {
        let index: u32 = self.scratchpads.len() as u32;
        let mut address: u64 = 0;
        if let Some(array) = self.scratch_array.take() {
            let mut array: DmaPage = array;
            address = array.physical;
            set_scratchpad(&mut array, index, page.physical);
            self.scratch_array = Some(array);
        }
        proof {
            let write = PageWrite::Double { offset: (8 * index) as usize, wide: page.physical };
            lemma_one_write(old(self).scratch_array->Some_0.words@, write);
        }
        self.scratchpads.push(page);
        assert(lists_scratchpads(self.scratch_array->Some_0, self.scratchpads@));
        if index + 1 < self.scratchpad_count {
            return BringupRequest::AcquirePage;
        }
        if let Some(dcbaa) = self.dcbaa.take() {
            let mut dcbaa: DmaPage = dcbaa;
            let _entry = dcbaa.write_u64(0, address);
            self.dcbaa = Some(dcbaa);
        }
        proof {
            let write = PageWrite::Double { offset: 0, wide: address };
            lemma_one_write(old(self).dcbaa->Some_0.words@, write);
        }
        self.program()
    }

    fn on_page(&mut self, page: DmaPage) -> (request: BringupRequest)
        requires
            old(self).wf(),
            bringup_reply_fits(old(self).phase, BringupReply::Page(page)),
        ensures
            final(self).wf(),
            page_post(*old(self), *final(self), page, request),
    {
        match self.phase {
            BringupPhase::Dcbaa => {
                self.dcbaa = Some(page);
                self.phase = BringupPhase::CommandRing;
                BringupRequest::AcquirePage
            },
            BringupPhase::CommandRing => {
                self.command_ring = Some(ProducerRing::new(page));
                self.phase = BringupPhase::EventRing;
                BringupRequest::AcquirePage
            },
            BringupPhase::EventRing => {
                self.event_ring = Some(EventRing::new(page));
                self.phase = BringupPhase::Segments;
                BringupRequest::AcquirePage
            },
            BringupPhase::Segments => self.on_segments(page),
            BringupPhase::ScratchArray => {
                self.scratch_array = Some(page);
                self.phase = BringupPhase::Scratchpad;
                BringupRequest::AcquirePage
            },
            _ => self.on_scratchpad(page),
        }
    }

    /// Takes what came of the last request and says what to do next.
    pub fn step(&mut self, reply: BringupReply) -> (request: BringupRequest)
        requires
            old(self).wf(),
            bringup_reply_fits(old(self).phase, reply),
        ensures
            final(self).wf(),
            bringup_post(*old(self), *final(self), reply, request),
    {
        match reply {
            BringupReply::Capabilities(raw, window) => self.on_capabilities(raw, window),
            BringupReply::Word(word) => self.on_word(word),
            BringupReply::Done => self.on_done(),
            BringupReply::Page(page) => self.on_page(page),
            BringupReply::Failed(error) => self.give_up(error),
        }
    }
}

} // verus!
