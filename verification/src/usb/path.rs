//! Topology paths of USB devices.
use vstd::prelude::*;

use super::error::UsbError;

verus! {

/// Deepest hub tier below a root port.
pub const MAX_HUB_DEPTH: u8 = 5;

/// A stable, controller-independent USB topology path.
#[derive(Clone, Copy, Debug, PartialEq, Eq, PartialOrd, Ord, Structural)]
pub struct UsbPath {
    pub root_port: u8,
    /// xHCI's packed four-bit downstream port numbers.
    pub route_string: u32,
    pub depth: u8,
}

impl Default for UsbPath {
    fn default() -> (path: Self)
        ensures
            path == (UsbPath { root_port: 0, route_string: 0, depth: 0 }),
    {
        UsbPath { root_port: 0, route_string: 0, depth: 0 }
    }
}

/// The weight of route digit `depth`.
pub open spec fn route_weight(depth: int) -> int {
    if depth <= 0 {
        1
    } else if depth == 1 {
        0x10
    } else if depth == 2 {
        0x100
    } else if depth == 3 {
        0x1000
    } else if depth == 4 {
        0x1_0000
    } else if depth == 5 {
        0x10_0000
    } else if depth == 6 {
        0x100_0000
    } else {
        0x1000_0000
    }
}

/// `path` lies in the subtree below `ancestor`, or is `ancestor`.
pub open spec fn descends(path: UsbPath, ancestor: UsbPath) -> bool {
    &&& path.root_port == ancestor.root_port
    &&& path.depth >= ancestor.depth
    &&& path.route_string as int % route_weight(ancestor.depth as int)
        == ancestor.route_string as int % route_weight(ancestor.depth as int)
}

/// The downstream port `port` of the device at `path`.
pub open spec fn child_spec(path: UsbPath, port: u8) -> Result<UsbPath, UsbError> {
    if path.depth >= MAX_HUB_DEPTH || port == 0 || port > 15 {
        Err(UsbError::InvalidPort)
    } else {
        Ok(
            UsbPath {
                root_port: path.root_port,
                route_string: path.route_string | ((port as u32) << (4 * path.depth) as u32),
                depth: (path.depth + 1) as u8,
            },
        )
    }
}

impl UsbPath {
    /// The route digits beyond the depth are zero.
    pub open spec fn well_formed(self) -> bool {
        self.depth <= MAX_HUB_DEPTH && self.route_string < route_weight(self.depth as int)
    }

    /// The path of root port `root_port`.
    pub fn root(root_port: u8) -> (path: Self)
        ensures
            path == (UsbPath { root_port, route_string: 0, depth: 0 }),
            path.well_formed(),
    {
        UsbPath { root_port, route_string: 0, depth: 0 }
    }

    /// The path of downstream port `port` of the hub at this path.
    pub fn child(self, port: u8) -> (result: Result<Self, UsbError>)
        ensures
            result == child_spec(self, port),
    {
        if self.depth >= MAX_HUB_DEPTH || port == 0 || port > 15 {
            return Err(UsbError::InvalidPort);
        }
        let shift: u32 = self.depth as u32 * 4;
        Ok(
            UsbPath {
                root_port: self.root_port,
                route_string: self.route_string | ((port as u32) << shift),
                depth: self.depth + 1,
            },
        )
    }

    /// Whether this path lies in the subtree of `ancestor`.
    pub fn is_descendant_of(self, ancestor: Self) -> (result: bool)
        requires
            self.root_port == ancestor.root_port && self.depth >= ancestor.depth ==> ancestor.depth
                < 8,
        ensures
            result == descends(self, ancestor),
    {
        if self.root_port != ancestor.root_port || self.depth < ancestor.depth {
            return false;
        }
        let weight: u32 = match ancestor.depth {
            0 => 1,
            1 => 0x10,
            2 => 0x100,
            3 => 0x1000,
            4 => 0x1_0000,
            5 => 0x10_0000,
            6 => 0x100_0000,
            _ => 0x1000_0000,
        };
        self.route_string % weight == ancestor.route_string % weight
    }
}

/// Packing a port below a path appends one route digit and keeps those before it.
pub proof fn law_child_appends_digit(path: UsbPath, port: u8)
    requires
        path.well_formed(),
        path.depth < MAX_HUB_DEPTH,
        1 <= port <= 15,
    ensures
        child_spec(path, port) matches Ok(child) && {
            &&& child.well_formed()
            &&& child.route_string == path.route_string + port * route_weight(path.depth as int)
            &&& child.depth == path.depth + 1
            &&& descends(child, path)
        },
{
    let r = path.route_string;
    let p = port as u32;
    if path.depth == 0 {
        assert(r < 1 && p <= 15 ==> r | (p << 0u32) == r + p) by (bit_vector);
    } else if path.depth == 1 {
        assert(r < 0x10 && p <= 15 ==> r | (p << 4u32) == r + p * 0x10) by (bit_vector);
    } else if path.depth == 2 {
        assert(r < 0x100 && p <= 15 ==> r | (p << 8u32) == r + p * 0x100) by (bit_vector);
    } else if path.depth == 3 {
        assert(r < 0x1000 && p <= 15 ==> r | (p << 12u32) == r + p * 0x1000) by (bit_vector);
    } else {
        assert(path.depth == 4);
        assert(r < 0x1_0000 && p <= 15 ==> r | (p << 16u32) == r + p * 0x1_0000) by (bit_vector);
    }
    let child = child_spec(path, port)->Ok_0;
    let weight = route_weight(path.depth as int);
    assert(child.route_string == r + port * weight);
    vstd::arithmetic::div_mod::lemma_mod_multiples_vanish(port as int, r as int, weight);
    assert(weight * port + r == child.route_string) by (nonlinear_arith)
        requires
            child.route_string == r + port * weight,
    ;
    vstd::arithmetic::div_mod::lemma_small_mod(r as nat, weight as nat);
}

/// Distinct ports of one hub lead to disjoint subtrees.
pub proof fn law_siblings_are_disjoint(hub: UsbPath, first: u8, second: u8, device: UsbPath)
    requires
        hub.well_formed(),
        hub.depth < MAX_HUB_DEPTH,
        1 <= first <= 15,
        1 <= second <= 15,
        first != second,
        child_spec(hub, first) matches Ok(child) && descends(device, child),
    ensures
        child_spec(hub, second) matches Ok(other) && !descends(device, other),
{
    law_child_appends_digit(hub, first);
    law_child_appends_digit(hub, second);
    let a = child_spec(hub, first)->Ok_0;
    let b = child_spec(hub, second)->Ok_0;
    let weight = route_weight(a.depth as int);
    vstd::arithmetic::div_mod::lemma_small_mod(a.route_string as nat, weight as nat);
    vstd::arithmetic::div_mod::lemma_small_mod(b.route_string as nat, weight as nat);
    let digit = route_weight(hub.depth as int);
    assert(first * digit != second * digit) by (nonlinear_arith)
        requires
            first != second,
            digit > 0,
    ;
}

/// A subtree contains the subtrees of its members.
pub proof fn law_descent_is_transitive(device: UsbPath, middle: UsbPath, top: UsbPath)
    requires
        device.well_formed(),
        middle.well_formed(),
        top.well_formed(),
        descends(device, middle),
        descends(middle, top),
    ensures
        descends(device, top),
{
    let d = device.route_string as int;
    let m = middle.route_string as int;
    let wide = route_weight(middle.depth as int);
    let narrow = route_weight(top.depth as int);
    assert(wide % narrow == 0 && wide / narrow * narrow == wide && wide > 0 && narrow > 0);
    vstd::arithmetic::div_mod::lemma_mod_mod(d, narrow, wide / narrow);
    vstd::arithmetic::div_mod::lemma_mod_mod(m, narrow, wide / narrow);
    assert(narrow * (wide / narrow) == wide) by (nonlinear_arith)
        requires
            wide / narrow * narrow == wide,
    ;
}

/// A device to tear down: its depth, then its slot.
pub open spec fn teardown_key(entry: (UsbPath, u8)) -> (u8, u8) {
    (entry.0.depth, entry.1)
}

/// `a` is torn down no later than `b`.
pub open spec fn not_before(a: (u8, u8), b: (u8, u8)) -> bool {
    a.0 > b.0 || (a.0 == b.0 && a.1 >= b.1)
}

/// Every key comes no later than those after it.
pub open spec fn deepest_first(order: Seq<(u8, u8)>) -> bool {
    forall|i: int, j: int| 0 <= i < j < order.len() ==> not_before(#[trigger] order[i], #[trigger] order[j])
}

/// The keys of the devices in the subtree of `path`.
pub open spec fn subtree_keys(entries: Seq<(UsbPath, u8)>, path: UsbPath) -> Seq<(u8, u8)> {
    entries.filter(|e: (UsbPath, u8)| descends(e.0, path)).map_values(
        |e: (UsbPath, u8)| teardown_key(e),
    )
}

/// `slots` lists the slots of the subtree of `path`, deepest device first and
/// higher slot first among devices of one depth.
pub open spec fn is_teardown_order(
    slots: Seq<u8>,
    entries: Seq<(UsbPath, u8)>,
    path: UsbPath,
) -> bool {
    exists|order: Seq<(u8, u8)>|
        #![trigger deepest_first(order)]
        {
            &&& deepest_first(order)
            &&& order.to_multiset() == subtree_keys(entries, path).to_multiset()
            &&& slots == order.map_values(|key: (u8, u8)| key.1)
        }
}

/// Inserts a key behind every key that precedes it.
fn insert_key(order: &mut Vec<(u8, u8)>, key: (u8, u8))
    requires
        deepest_first(old(order)@),
    ensures
        deepest_first(final(order)@),
        final(order)@.to_multiset() == old(order)@.to_multiset().insert(key),
{
    let mut at: usize = 0;
    while at < order.len() && (order[at].0 > key.0 || (order[at].0 == key.0 && order[at].1
        >= key.1))
        invariant
            at <= order.len(),
            forall|i: int| 0 <= i < at ==> not_before(#[trigger] order@[i], key),
        decreases order.len() - at,
    {
        at += 1;
    }
    let ghost before = order@;
    order.insert(at, key);
    proof {
        before.insert_ensures(at as int, key);
        vstd::seq_lib::to_multiset_insert(before, at as int, key);
        assert forall|i: int, j: int| 0 <= i < j < order@.len() implies not_before(
            #[trigger] order@[i],
            #[trigger] order@[j],
        ) by {
            let i0 = if i <= at { i } else { i - 1 };
            let j0 = if j <= at { j } else { j - 1 };
            if i != at && j != at {
                assert(not_before(before[i0], before[j0]));
            } else if i == at {
                assert(order@[j] == before[j - 1]);
                if j - 1 > at {
                    assert(not_before(before[at as int], before[j - 1]));
                }
            }
        }
    }
}

/// Slots to disable for the subtree of `path`, children before their hubs.
pub fn teardown_slot_order(entries: &[(UsbPath, u8)], path: UsbPath) -> (slots: Vec<u8>)
    requires
        path.depth < 8,
    ensures
        is_teardown_order(slots@, entries@, path),
{
    let mut order: Vec<(u8, u8)> = Vec::new();
    let mut index: usize = 0;
    let ghost below = |e: (UsbPath, u8)| descends(e.0, path);
    let ghost key_of = |e: (UsbPath, u8)| teardown_key(e);
    proof {
        assert(entries@.take(0).filter(below) =~= Seq::empty()) by {
            reveal(Seq::filter);
        }
        assert(subtree_keys(entries@.take(0), path) =~= Seq::empty());
        assert(order@ =~= Seq::empty());
    }
    while index < entries.len()
        invariant
            index <= entries.len(),
            path.depth < 8,
            deepest_first(order@),
            order@.to_multiset() == subtree_keys(entries@.take(index as int), path).to_multiset(),
            below == (|e: (UsbPath, u8)| descends(e.0, path)),
            key_of == (|e: (UsbPath, u8)| teardown_key(e)),
        decreases entries.len() - index,
    {
        let (candidate, slot): (UsbPath, u8) = entries[index];
        let ghost shorter = entries@.take(index as int);
        proof {
            assert(entries@.take(index + 1) =~= shorter.push(entries@[index as int]));
            shorter.lemma_filter_push(entries@[index as int], below);
        }
        if candidate.is_descendant_of(path) {
            insert_key(&mut order, (candidate.depth, slot));
            proof {
                let kept = shorter.filter(below);
                kept.lemma_push_map_commute(key_of, entries@[index as int]);
                vstd::seq_lib::to_multiset_build(
                    subtree_keys(shorter, path),
                    (candidate.depth, slot),
                );
            }
        }
        index += 1;
    }
    proof {
        assert(entries@.take(index as int) =~= entries@);
    }
    let mut slots: Vec<u8> = Vec::new();
    let mut next: usize = 0;
    while next < order.len()
        invariant
            next <= order.len(),
            slots@ == order@.take(next as int).map_values(|key: (u8, u8)| key.1),
        decreases order.len() - next,
    {
        slots.push(order[next].1);
        next += 1;
        assert(slots@ =~= order@.take(next as int).map_values(|key: (u8, u8)| key.1));
    }
    assert(order@.take(next as int) =~= order@);
    slots
}

} // verus!
