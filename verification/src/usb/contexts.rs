//! Device contexts that the controller reads.
use vstd::prelude::*;

use super::descriptors::TtInfo;
use super::device::{HidInterfaceState, HubState};
use super::error::UsbError;
use super::page::{
    lemma_extends_trans, lemma_one_write, zero_words, DmaPage, PageWrite, PAGE_WORDS,
};
use super::path::UsbPath;

verus! {

/// The controller uses one of two context sizes.
pub open spec fn valid_context_size(size: int) -> bool {
    size == 32 || size == 64
}

/// Stores a word at an offset that is known to lie in the page.
fn put(page: &mut DmaPage, offset: usize, value: u32)
    requires
        old(page).wf(),
        offset % 4 == 0,
        offset <= 4092,
    ensures
        final(page).wf(),
        final(page).continues(*old(page)),
        final(page).physical == old(page).physical,
        final(page).words@ == old(page).words@.update(offset as int / 4, value),
{
    let _stored = page.write_u32(offset, value);
    proof {
        let write = PageWrite::Word { offset, value };
        lemma_one_write(old(page).words@, write);
        assert(page.extends(*old(page), seq![write]));
    }
}

/// Zeroes a page.
fn wipe(page: &mut DmaPage)
    requires
        old(page).wf(),
    ensures
        final(page).wf(),
        final(page).continues(*old(page)),
        final(page).physical == old(page).physical,
        final(page).words@ == zero_words(),
{
    page.clear();
    proof {
        lemma_one_write(old(page).words@, PageWrite::Clear);
        assert(page.extends(*old(page), seq![PageWrite::Clear]));
    }
}

/// Stores compose.
proof fn lemma_continues_trans(a: DmaPage, b: DmaPage, c: DmaPage)
    requires
        b.continues(a),
        c.continues(b),
    ensures
        c.continues(a),
{
    let first = choose|w: Seq<PageWrite>| #[trigger] b.extends(a, w);
    let second = choose|w: Seq<PageWrite>| #[trigger] c.extends(b, w);
    lemma_extends_trans(a, b, c, first, second);
}

/// The state that the Address Device command installs.
#[derive(Clone, Copy, Debug, PartialEq, Eq)]
pub struct AddressContext {
    pub path: UsbPath,
    pub speed: u8,
    pub packet_size: u16,
    pub ep0_ring: u64,
    pub tt: Option<TtInfo>,
}

/// Route string, speed and context count of a slot context.
pub open spec fn slot_word0(address: AddressContext) -> u32 {
    (address.path.route_string & 0x000f_ffff) | ((address.speed as u32) << 20) | (1u32 << 27)
}

/// The translator fields of a slot context.
pub open spec fn slot_word2(tt: Option<TtInfo>) -> u32 {
    match tt {
        Some(tt) => (tt.hub_slot_id + 0x100 * tt.port) as u32,
        None => 0,
    }
}

/// The word at `index` of the input context for the Address Device command.
pub open spec fn address_word(size: int, address: AddressContext, index: int) -> u32 {
    let slot = size / 4;
    let ep0 = size / 2;
    if index == 1 {
        3
    } else if index == slot {
        slot_word0(address)
    } else if index == slot + 1 {
        (0x1_0000 * address.path.root_port) as u32
    } else if index == slot + 2 {
        slot_word2(address.tt)
    } else if index == ep0 + 1 {
        (38 + 0x1_0000 * address.packet_size) as u32
    } else if index == ep0 + 2 {
        ((address.ep0_ring as int % 0x1_0000_0000) as u32) | 1
    } else if index == ep0 + 3 {
        (address.ep0_ring as int / 0x1_0000_0000) as u32
    } else if index == ep0 + 4 {
        8
    } else {
        0
    }
}

/// Builds the input context of the Address Device command.
pub fn build_address_context(input: &mut DmaPage, context_size: usize, address: AddressContext)
    requires
        old(input).wf(),
        valid_context_size(context_size as int),
    ensures
        final(input).wf(),
        final(input).continues(*old(input)),
        final(input).words@ == Seq::new(
            PAGE_WORDS as nat,
            |i: int| address_word(context_size as int, address, i),
        ),
{
    let ghost p0 = *input;
    wipe(input);
    let ghost p1 = *input;
    put(input, 4, 3);
    let ghost p2 = *input;
    let slot: usize = context_size;
    put(
        input,
        slot,
        (address.path.route_string & 0x000f_ffff) | ((address.speed as u32) << 20) | (1u32 << 27),
    );
    let ghost p3 = *input;
    put(input, slot + 4, address.path.root_port as u32 * 0x1_0000);
    let ghost p4 = *input;
    let translator: u32 = match address.tt {
        Some(tt) => tt.hub_slot_id as u32 + tt.port as u32 * 0x100,
        None => 0,
    };
    put(input, slot + 8, translator);
    let ghost p5 = *input;
    let ep0: usize = context_size * 2;
    put(input, ep0 + 4, 38 + address.packet_size as u32 * 0x1_0000);
    let ghost p6 = *input;
    put(input, ep0 + 8, ((address.ep0_ring % 0x1_0000_0000) as u32) | 1);
    let ghost p7 = *input;
    put(input, ep0 + 12, (address.ep0_ring / 0x1_0000_0000) as u32);
    let ghost p8 = *input;
    put(input, ep0 + 16, 8);
    proof {
        lemma_continues_trans(p0, p1, p2);
        lemma_continues_trans(p0, p2, p3);
        lemma_continues_trans(p0, p3, p4);
        lemma_continues_trans(p0, p4, p5);
        lemma_continues_trans(p0, p5, p6);
        lemma_continues_trans(p0, p6, p7);
        lemma_continues_trans(p0, p7, p8);
        lemma_continues_trans(p0, p8, *input);
        assert(input.words@ =~= Seq::new(
            PAGE_WORDS as nat,
            |i: int| address_word(context_size as int, address, i),
        ));
    }
}

/// The page whose words from `target` on are `length` words of `source`, and zero elsewhere
/// but for the control word.
pub open spec fn copied_word(
    flags: u32,
    source: Seq<u32>,
    from: int,
    target: int,
    length: int,
    index: int,
) -> u32 {
    if index == 1 {
        flags
    } else if target <= index < target + length {
        source[from + (index - target)]
    } else {
        0
    }
}

/// Clears `input`, sets its add flags and copies one context into it.
fn start_from_output(
    input: &mut DmaPage,
    output: &DmaPage,
    context_size: usize,
    flags: u32,
    from: usize,
    target: usize,
)
    requires
        old(input).wf(),
        output.wf(),
        valid_context_size(context_size as int),
        from <= 64,
        from % 4 == 0,
        target <= 128,
        target % 4 == 0,
        target >= 8,
    ensures
        final(input).wf(),
        final(input).continues(*old(input)),
        final(input).words@ == Seq::new(
            PAGE_WORDS as nat,
            |i: int|
                copied_word(
                    flags,
                    output.words@,
                    from as int / 4,
                    target as int / 4,
                    context_size as int / 4,
                    i,
                ),
        ),
{
    let ghost p0 = *input;
    wipe(input);
    let ghost p1 = *input;
    put(input, 4, flags);
    proof {
        lemma_continues_trans(p0, p1, *input);
    }
    let count: usize = context_size / 4;
    let mut word: usize = 0;
    while word < count
        invariant
            word <= count,
            count == context_size / 4,
            valid_context_size(context_size as int),
            input.wf(),
            output.wf(),
            input.continues(p0),
            from <= 64,
            from % 4 == 0,
            target <= 128,
            target % 4 == 0,
            target >= 8,
            input.words@ == Seq::new(
                PAGE_WORDS as nat,
                |i: int|
                    copied_word(
                        flags,
                        output.words@,
                        from as int / 4,
                        target as int / 4,
                        word as int,
                        i,
                    ),
            ),
        decreases count - word,
    {
        let ghost before = *input;
        let value: u32 = output.words[from / 4 + word];
        put(input, target + word * 4, value);
        proof {
            lemma_continues_trans(p0, before, *input);
            assert((target + word * 4) / 4 == target / 4 + word);
        }
        word += 1;
        assert(input.words@ =~= Seq::new(
            PAGE_WORDS as nat,
            |i: int|
                copied_word(
                    flags,
                    output.words@,
                    from as int / 4,
                    target as int / 4,
                    word as int,
                    i,
                ),
        ));
    }
}

/// The word at `index` of the input context that changes the control packet size.
pub open spec fn ep0_update_word(
    size: int,
    output: Seq<u32>,
    packet_size: u16,
    index: int,
) -> u32 {
    let word = copied_word(2, output, size / 4, size / 2, size / 4, index);
    if index == size / 2 + 1 {
        (word % 0x1_0000 + 0x1_0000 * packet_size) as u32
    } else {
        word
    }
}

/// Builds the input context that changes the control packet size.
pub fn update_ep0_context(
    input: &mut DmaPage,
    output: &DmaPage,
    context_size: usize,
    packet_size: u16,
)
    requires
        old(input).wf(),
        output.wf(),
        valid_context_size(context_size as int),
    ensures
        final(input).wf(),
        final(input).continues(*old(input)),
        final(input).words@ == Seq::new(
            PAGE_WORDS as nat,
            |i: int| ep0_update_word(context_size as int, output.words@, packet_size, i),
        ),
{
    let ghost p0 = *input;
    let target: usize = context_size * 2;
    start_from_output(input, output, context_size, 2, context_size, target);
    let ghost p1 = *input;
    let dword1: u32 = input.words[target / 4 + 1];
    put(input, target + 4, dword1 % 0x1_0000 + packet_size as u32 * 0x1_0000);
    proof {
        lemma_continues_trans(p0, p1, *input);
        assert(input.words@ =~= Seq::new(
            PAGE_WORDS as nat,
            |i: int| ep0_update_word(context_size as int, output.words@, packet_size, i),
        ));
    }
}

/// Slot word 0 of a hub: the hub bit, and the multi-TT bit of a high-speed multi-TT hub.
pub open spec fn hub_word0(word: u32, speed: u8, hub: HubState) -> u32 {
    (word & !(1u32 << 25)) | (if speed == 3 && hub.protocol == 2 {
        1u32 << 25
    } else {
        0
    }) | (1u32 << 26)
}

/// Slot word 2 of a hub: the think time of a high-speed hub.
pub open spec fn hub_word2(word: u32, speed: u8, hub: HubState) -> u32 {
    (word & !(3u32 << 16)) | (if speed == 3 {
        ((hub.characteristics as int / 32 % 4) * 0x1_0000) as u32
    } else {
        0
    })
}

/// The word at `index` of the input context that declares a hub.
pub open spec fn hub_update_word(
    size: int,
    output: Seq<u32>,
    speed: u8,
    hub: HubState,
    index: int,
) -> u32 {
    let word = copied_word(1, output, 0, size / 4, size / 4, index);
    if index == size / 4 {
        hub_word0(word, speed, hub)
    } else if index == size / 4 + 1 {
        (word % 0x100_0000 + 0x100_0000 * hub.ports) as u32
    } else if index == size / 4 + 2 {
        hub_word2(word, speed, hub)
    } else {
        word
    }
}

/// Builds the input context that declares a hub.
pub fn update_hub_slot_context(
    input: &mut DmaPage,
    output: &DmaPage,
    context_size: usize,
    speed: u8,
    hub: HubState,
)
    requires
        old(input).wf(),
        output.wf(),
        valid_context_size(context_size as int),
    ensures
        final(input).wf(),
        final(input).continues(*old(input)),
        final(input).words@ == Seq::new(
            PAGE_WORDS as nat,
            |i: int| hub_update_word(context_size as int, output.words@, speed, hub, i),
        ),
{
    let ghost p0 = *input;
    let target: usize = context_size;
    start_from_output(input, output, context_size, 1, 0, target);
    let ghost p1 = *input;
    let dword0: u32 = input.words[target / 4];
    let multi: u32 = if speed == 3 && hub.protocol == 2 {
        1u32 << 25
    } else {
        0
    };
    put(input, target, (dword0 & !(1u32 << 25)) | multi | (1u32 << 26));
    let ghost p2 = *input;
    let dword1: u32 = input.words[target / 4 + 1];
    put(input, target + 4, dword1 % 0x100_0000 + hub.ports as u32 * 0x100_0000);
    let ghost p3 = *input;
    let dword2: u32 = input.words[target / 4 + 2];
    let think: u32 = if speed == 3 {
        (hub.characteristics / 32 % 4) as u32 * 0x1_0000
    } else {
        0
    };
    put(input, target + 8, (dword2 & !(3u32 << 16)) | think);
    proof {
        lemma_continues_trans(p0, p1, p2);
        lemma_continues_trans(p0, p2, p3);
        lemma_continues_trans(p0, p3, *input);
        assert(input.words@ =~= Seq::new(
            PAGE_WORDS as nat,
            |i: int| hub_update_word(context_size as int, output.words@, speed, hub, i),
        ));
    }
}

/// The add flags for the slot and the first `count` endpoints.
pub open spec fn add_flags(interfaces: Seq<HidInterfaceState>, count: nat) -> u32
    decreases count,
{
    if count == 0 {
        1
    } else {
        add_flags(interfaces, (count - 1) as nat) | (1u32 << (
        interfaces[count - 1].endpoint_id as u32))
    }
}

/// The highest context index among the slot and the first `count` endpoints.
pub open spec fn last_context(interfaces: Seq<HidInterfaceState>, count: nat) -> int
    decreases count,
{
    if count == 0 {
        1
    } else {
        let before = last_context(interfaces, (count - 1) as nat);
        if before < interfaces[count - 1].endpoint_id {
            interfaces[count - 1].endpoint_id as int
        } else {
            before
        }
    }
}

/// An interface has an endpoint index that a context can hold.
pub open spec fn configurable(interface: HidInterfaceState) -> bool {
    1 <= interface.endpoint_id <= 31
}

/// The page `words` with the endpoint context of `interface` filled in.
pub open spec fn with_endpoint(
    words: Seq<u32>,
    size: int,
    interface: HidInterfaceState,
) -> Seq<u32> {
    let at = (interface.endpoint_id + 1) * size / 4;
    let physical = interface.ring.page.physical as int;
    words.update(at, (0x1_0000 * interface.interval) as u32).update(
        at + 1,
        (62 + 0x100 * interface.max_burst + 0x1_0000 * interface.max_packet_size) as u32,
    ).update(at + 2, ((physical % 0x1_0000_0000) as u32) | 1).update(
        at + 3,
        (physical / 0x1_0000_0000) as u32,
    ).update(
        at + 4,
        (interface.max_esit_payload + 0x1_0000 * interface.max_esit_payload) as u32,
    )
}

/// The page `words` with the endpoint contexts of the first `count` interfaces.
pub open spec fn with_endpoints(
    words: Seq<u32>,
    size: int,
    interfaces: Seq<HidInterfaceState>,
    count: nat,
) -> Seq<u32>
    decreases count,
{
    if count == 0 {
        words
    } else {
        with_endpoint(
            with_endpoints(words, size, interfaces, (count - 1) as nat),
            size,
            interfaces[count - 1],
        )
    }
}

/// The word at `index` of the input context before the endpoint contexts are filled in.
pub open spec fn configure_word(
    size: int,
    output: Seq<u32>,
    interfaces: Seq<HidInterfaceState>,
    index: int,
) -> u32 {
    let word = copied_word(
        add_flags(interfaces, interfaces.len()),
        output,
        0,
        size / 4,
        size / 4,
        index,
    );
    if index == size / 4 {
        (word % 0x800_0000 + 0x800_0000 * last_context(interfaces, interfaces.len())) as u32
    } else {
        word
    }
}

/// Builds the input context of the Configure Endpoint command.
///
/// An interface without a usable endpoint index leaves the page zeroed.
pub fn build_configure_endpoint_context(
    input: &mut DmaPage,
    output: &DmaPage,
    context_size: usize,
    interfaces: &Vec<HidInterfaceState>,
) -> (result: Result<(), UsbError>)
    requires
        old(input).wf(),
        output.wf(),
        valid_context_size(context_size as int),
        forall|i: int|
            0 <= i < interfaces@.len() ==> (#[trigger] interfaces@[i]).max_esit_payload <= 0xffff,
    ensures
        final(input).wf(),
        final(input).continues(*old(input)),
        if forall|i: int| 0 <= i < interfaces@.len() ==> configurable(#[trigger] interfaces@[i]) {
            &&& result == Ok::<(), UsbError>(())
            &&& final(input).words@ == with_endpoints(
                Seq::new(
                    PAGE_WORDS as nat,
                    |i: int| configure_word(context_size as int, output.words@, interfaces@, i),
                ),
                context_size as int,
                interfaces@,
                interfaces@.len(),
            )
        } else {
            &&& result == Err::<(), UsbError>(UsbError::InvalidEndpoint)
            &&& final(input).words@ == zero_words()
        },
{
    let ghost p0 = *input;
    wipe(input);
    let ghost p1 = *input;
    let mut flags: u32 = 1;
    let mut last: u8 = 1;
    let mut index: usize = 0;
    while index < interfaces.len()
        invariant
            index <= interfaces@.len(),
            flags == add_flags(interfaces@, index as nat),
            last == last_context(interfaces@, index as nat),
            1 <= last <= 31,
            forall|i: int| 0 <= i < index ==> configurable(#[trigger] interfaces@[i]),
            *input == p1,
            p1.wf(),
            p1.continues(p0),
            p1.words@ == zero_words(),
            p0 == *old(input),
        decreases interfaces@.len() - index,
    {
        let endpoint: u8 = interfaces[index].endpoint_id;
        if endpoint == 0 || endpoint > 31 {
            assert(!configurable(interfaces@[index as int]));
            return Err(UsbError::InvalidEndpoint);
        }
        flags = flags | (1u32 << (endpoint as u32));
        if last < endpoint {
            last = endpoint;
        }
        index += 1;
    }
    start_from_output(input, output, context_size, flags, 0, context_size);
    let ghost p2 = *input;
    let slot0: u32 = input.words[context_size / 4];
    put(input, context_size, slot0 % 0x800_0000 + last as u32 * 0x800_0000);
    let ghost base = Seq::new(
        PAGE_WORDS as nat,
        |i: int| configure_word(context_size as int, output.words@, interfaces@, i),
    );
    proof {
        lemma_continues_trans(p0, p1, p2);
        lemma_continues_trans(p0, p2, *input);
        assert(input.words@ =~= base);
    }
    let mut next: usize = 0;
    while next < interfaces.len()
        invariant
            next <= interfaces@.len(),
            input.wf(),
            input.continues(p0),
            valid_context_size(context_size as int),
            forall|i: int| 0 <= i < interfaces@.len() ==> configurable(#[trigger] interfaces@[i]),
            forall|i: int|
                0 <= i < interfaces@.len() ==> (#[trigger] interfaces@[i]).max_esit_payload
                    <= 0xffff,
            input.words@ == with_endpoints(
                base,
                context_size as int,
                interfaces@,
                next as nat,
            ),
        decreases interfaces@.len() - next,
    {
        put_endpoint(input, context_size, &interfaces[next], Ghost(p0));
        next += 1;
    }
    Ok(())
}

/// Fills in one endpoint context.
fn put_endpoint(
    input: &mut DmaPage,
    context_size: usize,
    interface: &HidInterfaceState,
    start: Ghost<DmaPage>,
)
    requires
        old(input).wf(),
        old(input).continues(start@),
        valid_context_size(context_size as int),
        configurable(*interface),
        interface.max_esit_payload <= 0xffff,
    ensures
        final(input).wf(),
        final(input).continues(start@),
        final(input).words@ == with_endpoint(old(input).words@, context_size as int, *interface),
{
    let ghost p0 = *input;
    let offset: usize = (interface.endpoint_id as usize + 1) * context_size;
    assert(offset <= 32 * 64 && offset % 32 == 0) by (nonlinear_arith)
        requires
            offset == (interface.endpoint_id + 1) * context_size,
            interface.endpoint_id <= 31,
            context_size == 32 || context_size == 64,
    ;
    put(input, offset, interface.interval as u32 * 0x1_0000);
    let ghost p1 = *input;
    put(
        input,
        offset + 4,
        62 + interface.max_burst as u32 * 0x100 + interface.max_packet_size as u32 * 0x1_0000,
    );
    let ghost p2 = *input;
    let physical: u64 = interface.ring.physical();
    put(input, offset + 8, ((physical % 0x1_0000_0000) as u32) | 1);
    let ghost p3 = *input;
    put(input, offset + 12, (physical / 0x1_0000_0000) as u32);
    let ghost p4 = *input;
    let payload: u32 = interface.max_esit_payload as u32;
    put(input, offset + 16, payload + payload * 0x1_0000);
    proof {
        lemma_continues_trans(start@, p0, p1);
        lemma_continues_trans(start@, p1, p2);
        lemma_continues_trans(start@, p2, p3);
        lemma_continues_trans(start@, p3, p4);
        lemma_continues_trans(start@, p4, *input);
    }
}

} // verus!
