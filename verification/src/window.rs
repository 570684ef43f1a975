//! Where device memory is mapped.
//!
//! The caller looks each address up and says whether something is mapped there.
use vstd::prelude::*;

verus! {

pub const WINDOW_PAGE_SIZE: u64 = 4096;

/// What a caller said of addresses: the address, and whether something is mapped there.
#[derive(Clone, Copy, Debug, PartialEq, Eq, Structural)]
pub struct Lookup {
    pub address: u64,
    pub mapped: bool,
}

/// Something is mapped in the window of `length` bytes at `base`, as far as is known.
pub open spec fn known_mapped(lookups: Seq<Lookup>, base: u64, length: u64) -> bool {
    exists|i: int|
        0 <= i < lookups.len() && (#[trigger] lookups[i]).mapped && base <= lookups[i].address < base
            + length
}

/// Nothing is mapped in the first `length` bytes at `base`.
pub open spec fn known_free(lookups: Seq<Lookup>, base: u64, length: u64) -> bool {
    forall|page: int|
        0 <= page < length as int / 4096 ==> #[trigger] is_free(lookups, base + page * 4096)
}

/// Nothing is mapped at `address`.
pub open spec fn is_free(lookups: Seq<Lookup>, address: int) -> bool {
    lookups.contains(Lookup { address: address as u64, mapped: false })
}

/// A search for the first of some windows in which nothing is mapped.
pub struct WindowSearch {
    pub candidates: Vec<u64>,
    pub length: u64,
    /// The candidate that is being looked at.
    pub index: usize,
    /// How much of it is known to be free.
    pub offset: u64,
    pub lookups: Ghost<Seq<Lookup>>,
}

/// More lookups leave what is known.
proof fn lemma_lookups_accumulate(lookups: Seq<Lookup>, next: Lookup)
    ensures
        forall|base: u64, length: u64|
            #[trigger] known_mapped(lookups, base, length) ==> known_mapped(
                lookups.push(next),
                base,
                length,
            ),
        forall|address: int| #[trigger]
            is_free(lookups, address) ==> is_free(lookups.push(next), address),
{
    let longer = lookups.push(next);
    assert forall|base: u64, length: u64| #[trigger]
        known_mapped(lookups, base, length) implies known_mapped(longer, base, length) by {
        let i = choose|i: int|
            0 <= i < lookups.len() && (#[trigger] lookups[i]).mapped && base <= lookups[i].address
                < base + length;
        assert(longer[i] == lookups[i]);
    }
    assert forall|address: int| #[trigger] is_free(lookups, address) implies is_free(
        longer,
        address,
    ) by {
        let wanted = Lookup { address: address as u64, mapped: false };
        let i = choose|i: int| 0 <= i < lookups.len() && lookups[i] == wanted;
        assert(longer[i] == wanted);
    }
}

impl WindowSearch {
    /// The candidates before the one that is looked at are taken; the first pages of it are free.
    pub open spec fn wf(&self) -> bool {
        &&& self.length % 4096 == 0
        &&& self.length > 0
        &&& self.offset % 4096 == 0
        &&& self.offset <= self.length
        &&& self.index <= self.candidates@.len()
        &&& forall|i: int|
            0 <= i < self.candidates@.len() ==> #[trigger] self.candidates@[i] <= u64::MAX
                - self.length
        &&& forall|i: int|
            0 <= i < self.index ==> known_mapped(
                self.lookups@,
                #[trigger] self.candidates@[i],
                self.length,
            )
        &&& self.index < self.candidates@.len() ==> known_free(
            self.lookups@,
            self.candidates@[self.index as int],
            self.offset,
        )
    }

    /// Begins with the first candidate.
    pub fn new(candidates: Vec<u64>, length: u64) -> (search: WindowSearch)
        requires
            length % 4096 == 0,
            length > 0,
            forall|i: int|
                0 <= i < candidates@.len() ==> #[trigger] candidates@[i] <= u64::MAX - length,
        ensures
            search.wf(),
            search.candidates == candidates,
            search.length == length,
            search.lookups@ == Seq::<Lookup>::empty(),
    {
        WindowSearch { candidates, length, index: 0, offset: 0, lookups: Ghost(Seq::empty()) }
    }

    /// The address to look up next; `None` once the search is over.
    pub fn probe(&self) -> (address: Option<u64>)
        requires
            self.wf(),
        ensures
            address == (if self.index < self.candidates@.len() && self.offset < self.length {
                Some((self.candidates@[self.index as int] + self.offset) as u64)
            } else {
                None
            }),
    {
        if self.index < self.candidates.len() && self.offset < self.length {
            Some(self.candidates[self.index] + self.offset)
        } else {
            None
        }
    }

    /// Takes whether something is mapped at the address to look up.
    pub fn answer(&mut self, mapped: bool)
        requires
            old(self).wf(),
            old(self).index < old(self).candidates@.len(),
            old(self).offset < old(self).length,
        ensures
            final(self).wf(),
            final(self).candidates == old(self).candidates,
            final(self).length == old(self).length,
            final(self).lookups@ == old(self).lookups@.push(
                Lookup {
                    address: (old(self).candidates@[old(self).index as int] + old(self).offset)
                        as u64,
                    mapped,
                },
            ),
            final(self).index == (if mapped {
                old(self).index + 1
            } else {
                old(self).index as int
            }),
            final(self).offset == (if mapped {
                0
            } else {
                old(self).offset + 4096
            }),
    {
        let ghost base = self.candidates@[self.index as int];
        let ghost at = self.offset;
        let ghost known = self.lookups@;
        let ghost next = Lookup { address: (base + at) as u64, mapped };
        proof {
            lemma_lookups_accumulate(known, next);
        }
        self.lookups = Ghost(self.lookups@.push(next));
        assert(self.lookups@[known.len() as int] == next);
        if mapped {
            assert(known_mapped(self.lookups@, base, self.length));
            assert(self.index < self.candidates.len());
            self.index += 1;
            self.offset = 0;
        } else {
            self.offset += WINDOW_PAGE_SIZE;
            proof {
                assert forall|page: int| 0 <= page < self.offset as int / 4096 implies #[trigger]
                    is_free(self.lookups@, base + page * 4096) by {
                    if page < at as int / 4096 {
                        assert(is_free(known, base + page * 4096));
                    } else {
                        assert(base + page * 4096 == next.address);
                    }
                }
            }
        }
    }

    /// The window that was found, once the search is over.
    ///
    /// It is the first candidate in which nothing is mapped.
    pub fn found(&self) -> (base: Option<u64>)
        requires
            self.wf(),
        ensures
            match base {
                Some(base) => {
                    &&& self.offset == self.length
                    &&& self.index < self.candidates@.len()
                    &&& base == self.candidates@[self.index as int]
                    &&& known_free(self.lookups@, base, self.length)
                    &&& forall|i: int|
                        0 <= i < self.index ==> known_mapped(
                            self.lookups@,
                            #[trigger] self.candidates@[i],
                            self.length,
                        )
                },
                None => self.index == self.candidates@.len() || self.offset < self.length,
            },
    {
        if self.index < self.candidates.len() && self.offset == self.length {
            Some(self.candidates[self.index])
        } else {
            None
        }
    }
}

/// Where the page at `offset` of a window goes: its own address and that of the memory behind it.
///
/// `None` where either lies beyond the address space.
pub fn window_page(base: u64, physical: u64, offset: u64) -> (page: Option<(u64, u64)>)
    ensures
        page == (if base + offset <= u64::MAX && physical + offset <= u64::MAX {
            Some(((base + offset) as u64, (physical + offset) as u64))
        } else {
            None
        }),
{
    if offset > u64::MAX - base || offset > u64::MAX - physical {
        return None;
    }
    Some((base + offset, physical + offset))
}

/// Where controller registers may be mapped, in order of preference.
pub fn controller_windows() -> (windows: Vec<u64>)
    ensures
        windows@ == seq![
            0xffff_c000_0000_0000u64,
            0xffff_d000_0000_0000,
            0xffff_e000_0000_0000,
            0xffff_f000_0000_0000,
            0xffff_ff00_0000_0000,
        ],
{
    let mut windows: Vec<u64> = Vec::new();
    windows.push(0xffff_c000_0000_0000);
    windows.push(0xffff_d000_0000_0000);
    windows.push(0xffff_e000_0000_0000);
    windows.push(0xffff_f000_0000_0000);
    windows.push(0xffff_ff00_0000_0000);
    windows
}

/// Where an interrupt table may be mapped, in order of preference.
pub fn interrupt_table_windows() -> (windows: Vec<u64>)
    ensures
        windows@ == seq![
            0xffff_ac00_0000_0000u64,
            0xffff_ad00_0000_0000,
            0xffff_ae00_0000_0000,
            0xffff_af00_0000_0000,
        ],
{
    let mut windows: Vec<u64> = Vec::new();
    windows.push(0xffff_ac00_0000_0000);
    windows.push(0xffff_ad00_0000_0000);
    windows.push(0xffff_ae00_0000_0000);
    windows.push(0xffff_af00_0000_0000);
    windows
}

/// A window that is found overlaps nothing that was mapped when it was looked at.
pub proof fn law_found_windows_are_free(search: WindowSearch, address: int)
    requires
        search.wf(),
        search.index < search.candidates@.len(),
        search.offset == search.length,
        search.candidates@[search.index as int] <= address < search.candidates@[search.index as int]
            + search.length,
    ensures
        is_free(
            search.lookups@,
            search.candidates@[search.index as int] + (address - search.candidates@[search.index as int])
                / 4096 * 4096,
        ),
{
    let base = search.candidates@[search.index as int];
    let page = (address - base) / 4096;
    assert(is_free(search.lookups@, base + page * 4096));
}

} // verus!
