//! Transfer request blocks and the rings that carry them.
use vstd::prelude::*;

use super::page::{
    apply_writes, lemma_extends_trans, lemma_one_write, DmaPage, PageWrite, PAGE_WORDS,
};

verus! {

/// Request blocks of one ring page.
pub const RING_TRBS: usize = 256;

/// The slot that holds the link back to the start of a producer ring.
pub const RING_LINK_INDEX: usize = 255;

pub const TRB_TYPE_NORMAL: u32 = 1;

pub const TRB_TYPE_SETUP_STAGE: u32 = 2;

pub const TRB_TYPE_DATA_STAGE: u32 = 3;

pub const TRB_TYPE_STATUS_STAGE: u32 = 4;

pub const TRB_TYPE_LINK: u32 = 6;

pub const TRB_TYPE_ENABLE_SLOT_COMMAND: u32 = 9;

pub const TRB_TYPE_DISABLE_SLOT_COMMAND: u32 = 10;

pub const TRB_TYPE_ADDRESS_DEVICE_COMMAND: u32 = 11;

pub const TRB_TYPE_CONFIGURE_ENDPOINT_COMMAND: u32 = 12;

pub const TRB_TYPE_EVALUATE_CONTEXT_COMMAND: u32 = 13;

pub const TRB_TYPE_TRANSFER_EVENT: u32 = 32;

pub const TRB_TYPE_COMMAND_COMPLETION_EVENT: u32 = 33;

pub const TRB_TYPE_PORT_STATUS_CHANGE_EVENT: u32 = 34;

/// Completion code of a successful transfer or command.
pub const COMPLETION_SUCCESS: u8 = 1;

/// Completion code of a transfer that moved less than was asked for.
pub const COMPLETION_SHORT_PACKET: u8 = 13;

/// One transfer request block: four words, the first two forming `parameter`.
#[derive(Clone, Copy, Debug, PartialEq, Eq, Structural)]
pub struct Trb {
    pub parameter: u64,
    pub status: u32,
    pub control: u32,
}

impl Default for Trb {
    fn default() -> (trb: Self)
        ensures
            trb == (Trb { parameter: 0, status: 0, control: 0 }),
    {
        Trb { parameter: 0, status: 0, control: 0 }
    }
}

impl Trb {
    /// The block type in the control word.
    pub open spec fn type_spec(self) -> int {
        self.control as int / 0x400 % 64
    }

    /// The completion code in the status word.
    pub open spec fn completion_spec(self) -> int {
        self.status as int / 0x100_0000
    }

    /// The slot of an event or command.
    pub open spec fn slot_spec(self) -> int {
        self.control as int / 0x100_0000
    }

    /// The endpoint of a transfer event.
    pub open spec fn endpoint_spec(self) -> int {
        self.control as int / 0x1_0000 % 32
    }

    /// The bytes that a transfer did not move.
    pub open spec fn residual_spec(self) -> int {
        self.status as int % 0x100_0000
    }

    /// The block that an event points at: its parameter without the low four bits.
    pub open spec fn pointer_spec(self) -> int {
        self.parameter as int - self.parameter as int % 16
    }

    pub fn new(parameter: u64, status: u32, control: u32) -> (trb: Self)
        ensures
            trb == (Trb { parameter, status, control }),
    {
        Trb { parameter, status, control }
    }

    pub fn parameter(self) -> (value: u64)
        ensures
            value == self.parameter,
    {
        self.parameter
    }

    pub fn trb_type(self) -> (value: u32)
        ensures
            value == self.type_spec(),
    {
        self.control / 0x400 % 64
    }

    pub fn completion_code(self) -> (value: u8)
        ensures
            value == self.completion_spec(),
    {
        (self.status / 0x100_0000) as u8
    }

    pub fn slot_id(self) -> (value: u8)
        ensures
            value == self.slot_spec(),
    {
        (self.control / 0x100_0000) as u8
    }

    pub fn endpoint_id(self) -> (value: u8)
        ensures
            value == self.endpoint_spec(),
    {
        (self.control / 0x1_0000 % 32) as u8
    }

    pub fn residual(self) -> (value: u32)
        ensures
            value == self.residual_spec(),
    {
        self.status % 0x100_0000
    }

    pub fn pointer(self) -> (value: u64)
        ensures
            value == self.pointer_spec(),
    {
        self.parameter - self.parameter % 16
    }

    /// This block with its cycle bit set to `cycle`.
    pub open spec fn with_cycle_spec(self, cycle: bool) -> Trb {
        Trb {
            control: (self.control - self.control % 2 + if cycle {
                1int
            } else {
                0
            }) as u32,
            ..self
        }
    }

    /// This block with its cycle bit set to `cycle`.
    pub fn with_cycle(self, cycle: bool) -> (trb: Self)
        ensures
            trb == self.with_cycle_spec(cycle),
    {
        let bit: u32 = if cycle {
            1
        } else {
            0
        };
        Trb { control: self.control - self.control % 2 + bit, ..self }
    }
}

/// The control word of a block of type `trb_type`.
pub open spec fn trb_control_spec(trb_type: int) -> int {
    trb_type % 0x40_0000 * 0x400
}

/// The control word of a block of type `trb_type`.
pub fn trb_control(trb_type: u32) -> (control: u32)
    ensures
        control == trb_control_spec(trb_type as int),
{
    trb_type % 0x40_0000 * 0x400
}

/// The stores that place `trb` at slot `index`, control word last.
pub open spec fn trb_writes(index: int, trb: Trb) -> Seq<PageWrite> {
    seq![
        PageWrite::Word {
            offset: (16 * index) as usize,
            value: (trb.parameter as int % 0x1_0000_0000) as u32,
        },
        PageWrite::Word {
            offset: (16 * index + 4) as usize,
            value: (trb.parameter as int / 0x1_0000_0000) as u32,
        },
        PageWrite::Word { offset: (16 * index + 8) as usize, value: trb.status },
        PageWrite::Word { offset: (16 * index + 12) as usize, value: trb.control },
    ]
}

/// The block at slot `index` of a ring page.
pub open spec fn trb_at(words: Seq<u32>, index: int) -> Trb {
    Trb {
        parameter: (words[4 * index] + 0x1_0000_0000 * words[4 * index + 1]) as u64,
        status: words[4 * index + 2],
        control: words[4 * index + 3],
    }
}

impl DmaPage {
    /// Places a block, publishing its control word last.
    pub fn write_trb(&mut self, index: usize, trb: Trb)
        requires
            old(self).wf(),
            index < RING_TRBS,
        ensures
            final(self).wf(),
            final(self).extends(*old(self), trb_writes(index as int, trb)),
    {
        let offset: usize = index * 16;
        let ghost p0 = *self;
        let low: u32 = (trb.parameter % 0x1_0000_0000) as u32;
        let high: u32 = (trb.parameter / 0x1_0000_0000) as u32;
        let _first = self.write_u32(offset, low);
        let ghost p1 = *self;
        let _second = self.write_u32(offset + 4, high);
        let ghost p2 = *self;
        let _third = self.write_u32(offset + 8, trb.status);
        let ghost p3 = *self;
        let _fourth = self.write_u32(offset + 12, trb.control);
        proof {
            let all = trb_writes(index as int, trb);
            lemma_extends_trans(p0, p1, p2, seq![all[0]], seq![all[1]]);
            lemma_extends_trans(p0, p2, p3, seq![all[0]] + seq![all[1]], seq![all[2]]);
            lemma_extends_trans(
                p0,
                p3,
                *self,
                seq![all[0]] + seq![all[1]] + seq![all[2]],
                seq![all[3]],
            );
            assert(all =~= seq![all[0]] + seq![all[1]] + seq![all[2]] + seq![all[3]]);
        }
    }

    /// Reads a block.
    pub fn read_trb(&self, index: usize) -> (trb: Trb)
        requires
            self.wf(),
            index < RING_TRBS,
        ensures
            trb == trb_at(self.words@, index as int),
    {
        let low: u64 = self.words[index * 4] as u64;
        let high: u64 = self.words[index * 4 + 1] as u64;
        Trb {
            parameter: low + high * 0x1_0000_0000,
            status: self.words[index * 4 + 2],
            control: self.words[index * 4 + 3],
        }
    }
}

/// Placing a block changes the words of its slot only, and it reads back.
pub proof fn law_trb_round_trip(words: Seq<u32>, index: int, trb: Trb)
    requires
        words.len() == PAGE_WORDS,
        0 <= index < RING_TRBS,
    ensures
        apply_writes(words, trb_writes(index, trb)).len() == PAGE_WORDS,
        trb_at(apply_writes(words, trb_writes(index, trb)), index) == trb,
        forall|i: int|
            0 <= i < PAGE_WORDS && !(4 * index <= i < 4 * index + 4) ==> #[trigger] apply_writes(
                words,
                trb_writes(index, trb),
            )[i] == words[i],
{
    let all = trb_writes(index, trb);
    reveal_with_fuel(apply_writes, 5);
    assert(all.drop_last().drop_last().drop_last().drop_last() =~= Seq::empty());
    assert(all.last() == all[3]);
    assert(all.drop_last().last() == all[2]);
    assert(all.drop_last().drop_last().last() == all[1]);
    assert(all.drop_last().drop_last().drop_last().last() == all[0]);
    assert((16 * index) / 4 == 4 * index);
    assert((16 * index + 4) / 4 == 4 * index + 1);
    assert((16 * index + 8) / 4 == 4 * index + 2);
    assert((16 * index + 12) / 4 == 4 * index + 3);
}

/// The first block of a transfer, placed with the wrong cycle bit.
#[derive(Debug)]
pub struct UnpublishedTrb {
    pub index: usize,
    pub control: u32,
}

/// A ring that the driver fills and the controller consumes.
#[derive(Debug)]
pub struct ProducerRing {
    pub page: DmaPage,
    pub enqueue_index: usize,
    pub cycle: bool,
}

/// The link block of the ring at `physical`.
pub open spec fn link_spec(physical: u64, cycle: bool) -> Trb {
    Trb {
        parameter: physical,
        status: 0,
        control: (trb_control_spec(TRB_TYPE_LINK as int) + 2 + if cycle {
            1int
        } else {
            0
        }) as u32,
    }
}

/// The stores that append `trb` to a ring at `index`.
pub open spec fn append_writes(physical: u64, index: int, cycle: bool, trb: Trb) -> Seq<PageWrite> {
    if index + 1 == RING_LINK_INDEX {
        trb_writes(index, trb) + trb_writes(RING_LINK_INDEX as int, link_spec(physical, cycle))
    } else {
        trb_writes(index, trb)
    }
}

impl ProducerRing {
    /// The next free slot is one before the link.
    pub open spec fn wf(&self) -> bool {
        self.page.wf() && self.enqueue_index < RING_LINK_INDEX
    }

    /// This ring is `before` with `trb` appended as given.
    pub open spec fn appended(&self, before: ProducerRing, trb: Trb) -> bool {
        let last = before.enqueue_index + 1 == RING_LINK_INDEX;
        &&& self.page.extends(
            before.page,
            append_writes(before.page.physical, before.enqueue_index as int, before.cycle, trb),
        )
        &&& self.enqueue_index == (if last {
            0
        } else {
            before.enqueue_index + 1
        })
        &&& self.cycle == (before.cycle != last)
    }

    /// An empty ring on `page`, linked to its own start.
    pub fn new(page: DmaPage) -> (ring: Self)
        requires
            page.wf(),
        ensures
            ring.wf(),
            ring.enqueue_index == 0,
            ring.cycle,
            ring.page.extends(
                page,
                trb_writes(RING_LINK_INDEX as int, link_spec(page.physical, true)),
            ),
    {
        let mut ring = ProducerRing { page, enqueue_index: 0, cycle: true };
        ring.write_link();
        ring
    }

    pub fn physical(&self) -> (address: u64)
        ensures
            address == self.page.physical,
    {
        self.page.physical
    }

    /// Gives the page back.
    pub fn into_inner(self) -> (page: DmaPage)
        ensures
            page == self.page,
    {
        self.page
    }

    /// Appends a block that the controller may consume at once.
    pub fn enqueue(&mut self, trb: Trb) -> (address: u64)
        requires
            old(self).wf(),
        ensures
            final(self).wf(),
            final(self).appended(*old(self), trb.with_cycle_spec(old(self).cycle)),
            address == old(self).page.physical + 16 * old(self).enqueue_index,
    {
        let index: usize = self.enqueue_index;
        let address: u64 = self.page.physical + (index * 16) as u64;
        self.write_and_advance(trb.with_cycle(self.cycle));
        address
    }

    /// Appends a block that the controller does not own until it is published.
    pub fn enqueue_unpublished(&mut self, trb: Trb) -> (unpublished: UnpublishedTrb)
        requires
            old(self).wf(),
        ensures
            final(self).wf(),
            final(self).appended(*old(self), trb.with_cycle_spec(!old(self).cycle)),
            unpublished.index == old(self).enqueue_index,
            unpublished.control == trb.with_cycle_spec(old(self).cycle).control,
    {
        let producer_cycle: bool = self.cycle;
        let index: usize = self.enqueue_index;
        self.write_and_advance(trb.with_cycle(!producer_cycle));
        UnpublishedTrb { index, control: trb.with_cycle(producer_cycle).control }
    }

    /// Hands an unpublished block to the controller.
    pub fn publish(&mut self, unpublished: UnpublishedTrb)
        requires
            old(self).wf(),
            unpublished.index < RING_TRBS,
        ensures
            final(self).wf(),
            final(self).enqueue_index == old(self).enqueue_index,
            final(self).cycle == old(self).cycle,
            final(self).page.extends(
                old(self).page,
                seq![
                    PageWrite::Word {
                        offset: (16 * unpublished.index + 12) as usize,
                        value: unpublished.control,
                    },
                ],
            ),
    {
        let _stored = self.page.write_u32(unpublished.index * 16 + 12, unpublished.control);
    }

    /// Places a block in the next slot and steps over the link.
    fn write_and_advance(&mut self, trb: Trb)
        requires
            old(self).wf(),
        ensures
            final(self).wf(),
            final(self).appended(*old(self), trb),
    {
        let index: usize = self.enqueue_index;
        let ghost before = self.page;
        self.page.write_trb(index, trb);
        self.enqueue_index = index + 1;
        if self.enqueue_index == RING_LINK_INDEX {
            let ghost middle = self.page;
            self.write_link();
            proof {
                lemma_extends_trans(
                    before,
                    middle,
                    self.page,
                    trb_writes(index as int, trb),
                    trb_writes(RING_LINK_INDEX as int, link_spec(before.physical, self.cycle)),
                );
            }
            self.enqueue_index = 0;
            self.cycle = !self.cycle;
        }
    }

    /// Writes the link block with the current cycle bit.
    fn write_link(&mut self)
        requires
            old(self).page.wf(),
        ensures
            final(self).page.wf(),
            final(self).enqueue_index == old(self).enqueue_index,
            final(self).cycle == old(self).cycle,
            final(self).page.extends(
                old(self).page,
                trb_writes(
                    RING_LINK_INDEX as int,
                    link_spec(old(self).page.physical, old(self).cycle),
                ),
            ),
    {
        let cycle: u32 = if self.cycle {
            1
        } else {
            0
        };
        let link = Trb::new(self.page.physical, 0, trb_control(TRB_TYPE_LINK) + 2 + cycle);
        self.page.write_trb(RING_LINK_INDEX, link);
    }
}

/// Until it is published, the first block of a transfer belongs to the driver:
/// its cycle bit differs from that of the blocks appended after it, and
/// publishing is the store that makes it equal.
pub proof fn law_transfer_is_released_last(
    start: ProducerRing,
    held: ProducerRing,
    filled: ProducerRing,
    released: DmaPage,
    first: Trb,
    second: Trb,
    control: u32,
)
    requires
        start.wf(),
        held.wf(),
        start.enqueue_index + 2 < RING_LINK_INDEX,
        held.appended(start, first.with_cycle_spec(!start.cycle)),
        filled.appended(held, second.with_cycle_spec(held.cycle)),
        control == first.with_cycle_spec(start.cycle).control,
        released.extends(
            filled.page,
            seq![
                PageWrite::Word {
                    offset: (16 * start.enqueue_index + 12) as usize,
                    value: control,
                },
            ],
        ),
    ensures
        trb_at(filled.page.words@, start.enqueue_index as int) == first.with_cycle_spec(
            !start.cycle,
        ),
        trb_at(filled.page.words@, start.enqueue_index + 1) == second.with_cycle_spec(start.cycle),
        trb_at(released.words@, start.enqueue_index as int) == first.with_cycle_spec(start.cycle),
        trb_at(released.words@, start.enqueue_index + 1) == second.with_cycle_spec(start.cycle),
{
    let index = start.enqueue_index as int;
    let one = first.with_cycle_spec(!start.cycle);
    let two = second.with_cycle_spec(start.cycle);
    law_trb_round_trip(start.page.words@, index, one);
    law_trb_round_trip(held.page.words@, index + 1, two);
    let store = PageWrite::Word { offset: (16 * index + 12) as usize, value: control };
    lemma_one_write(filled.page.words@, store);
    assert((16 * index + 12) / 4 == 4 * index + 3);
    let words = filled.page.words@;
    assert(words[4 * index] == held.page.words@[4 * index]);
    assert(words[4 * index + 1] == held.page.words@[4 * index + 1]);
    assert(words[4 * index + 2] == held.page.words@[4 * index + 2]);
    assert(words[4 * index + 3] == held.page.words@[4 * index + 3]);
}

/// A ring that the controller fills and the driver consumes.
#[derive(Debug)]
pub struct EventRing {
    pub page: DmaPage,
    pub dequeue_index: usize,
    pub cycle: bool,
}

impl EventRing {
    pub open spec fn wf(&self) -> bool {
        self.page.wf() && self.dequeue_index < RING_TRBS
    }

    /// The block at the dequeue position belongs to the driver.
    pub open spec fn ready(&self) -> bool {
        (trb_at(self.page.words@, self.dequeue_index as int).control % 2 == 1) == self.cycle
    }

    pub fn new(page: DmaPage) -> (ring: Self)
        requires
            page.wf(),
        ensures
            ring.wf(),
            ring == (EventRing { page, dequeue_index: 0, cycle: true }),
    {
        EventRing { page, dequeue_index: 0, cycle: true }
    }

    pub fn physical(&self) -> (address: u64)
        ensures
            address == self.page.physical,
    {
        self.page.physical
    }

    /// The address of the next event.
    pub fn dequeue_pointer(&self) -> (address: u64)
        requires
            self.wf(),
        ensures
            address == self.page.physical + 16 * self.dequeue_index,
    {
        self.page.physical + (self.dequeue_index * 16) as u64
    }

    /// Takes the next event, if the controller has produced one.
    pub fn next(&mut self) -> (event: Option<Trb>)
        requires
            old(self).wf(),
        ensures
            final(self).wf(),
            final(self).page == old(self).page,
            event == (if old(self).ready() {
                Some(trb_at(old(self).page.words@, old(self).dequeue_index as int))
            } else {
                None
            }),
            final(self).dequeue_index == (if !old(self).ready() {
                old(self).dequeue_index as int
            } else if old(self).dequeue_index + 1 == RING_TRBS {
                0
            } else {
                old(self).dequeue_index + 1
            }),
            final(self).cycle == (old(self).cycle != (old(self).ready() && old(self).dequeue_index
                + 1 == RING_TRBS)),
    {
        let event: Trb = self.page.read_trb(self.dequeue_index);
        if (event.control % 2 == 1) != self.cycle {
            return None;
        }
        self.dequeue_index += 1;
        if self.dequeue_index == RING_TRBS {
            self.dequeue_index = 0;
            self.cycle = !self.cycle;
        }
        Some(event)
    }
}

} // verus!
