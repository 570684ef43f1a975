//! DMA pages shared with the controller.
//!
//! A [`DmaPage`] holds the driver's image of one page together with the stores
//! that the image has received and the device has not: whoever owns the memory
//! drains the journal in order, and loads the image where the device wrote.
use vstd::prelude::*;

use super::error::UsbError;
use crate::bytes::le_byte;

verus! {

/// Bytes of one page.
pub const PAGE_SIZE: usize = 4096;

/// 32-bit words of one page.
pub const PAGE_WORDS: usize = 1024;

/// One store into a page.
#[derive(Clone, Copy, Debug, PartialEq, Eq)]
pub enum PageWrite {
    /// A 32-bit store at a byte offset.
    Word { offset: usize, value: u32 },
    /// A 64-bit store at a byte offset.
    Double { offset: usize, wide: u64 },
    /// Zeroes the page.
    Clear,
}

/// The words of a zeroed page.
pub open spec fn zero_words() -> Seq<u32> {
    Seq::new(PAGE_WORDS as nat, |i: int| 0u32)
}

/// The words of a page after one store.
pub open spec fn apply_write(words: Seq<u32>, write: PageWrite) -> Seq<u32> {
    match write {
        PageWrite::Word { offset, value } => words.update(offset as int / 4, value),
        PageWrite::Double { offset, wide } => words.update(
            offset as int / 4,
            (wide as int % 0x1_0000_0000) as u32,
        ).update(offset as int / 4 + 1, (wide as int / 0x1_0000_0000) as u32),
        PageWrite::Clear => zero_words(),
    }
}

/// The words of a page after a list of stores.
pub open spec fn apply_writes(words: Seq<u32>, writes: Seq<PageWrite>) -> Seq<u32>
    decreases writes.len(),
{
    if writes.len() == 0 {
        words
    } else {
        apply_write(apply_writes(words, writes.drop_last()), writes.last())
    }
}

/// One page of DMA memory.
#[derive(Debug, PartialEq, Eq)]
pub struct DmaPage {
    pub physical: u64,
    pub words: Vec<u32>,
    pub journal: Vec<PageWrite>,
}

/// The range of `length` bytes at `offset` lies in the page.
pub open spec fn in_page(offset: int, length: int) -> bool {
    offset + length <= PAGE_SIZE
}

impl DmaPage {
    /// The image covers the page.
    pub open spec fn wf(&self) -> bool {
        &&& self.words@.len() == PAGE_WORDS
        &&& self.physical <= u64::MAX - PAGE_SIZE
    }

    /// This page is `before` after exactly the stores `writes`.
    pub open spec fn extends(&self, before: DmaPage, writes: Seq<PageWrite>) -> bool {
        &&& self.physical == before.physical
        &&& self.journal@ == before.journal@ + writes
        &&& self.words@ == apply_writes(before.words@, writes)
        &&& self.words@.len() == before.words@.len()
    }

    /// This page is `before` after some stores.
    pub open spec fn continues(&self, before: DmaPage) -> bool {
        exists|writes: Seq<PageWrite>| #[trigger] self.extends(before, writes)
    }

    /// A zeroed page at `physical`.
    pub fn new(physical: u64) -> (page: Self)
        requires
            physical <= u64::MAX - PAGE_SIZE,
        ensures
            page.wf(),
            page.physical == physical,
            page.words@ == zero_words(),
            page.journal@ == seq![PageWrite::Clear],
    {
        let mut journal: Vec<PageWrite> = Vec::new();
        journal.push(PageWrite::Clear);
        let page = DmaPage { physical, words: zeroed_words(), journal };
        assert(page.journal@ =~= seq![PageWrite::Clear]);
        page
    }

    /// Hands out the stores that the device has not received yet.
    pub fn drain_journal(&mut self) -> (writes: Vec<PageWrite>)
        ensures
            writes@ == old(self).journal@,
            final(self).journal@ == Seq::<PageWrite>::empty(),
            final(self).physical == old(self).physical,
            final(self).words == old(self).words,
    {
        let mut writes: Vec<PageWrite> = Vec::new();
        writes.append(&mut self.journal);
        assert(writes@ =~= old(self).journal@);
        writes
    }

    /// Replaces the image by what the device left in memory.
    pub fn load(&mut self, words: Vec<u32>)
        requires
            words@.len() == PAGE_WORDS,
            old(self).wf(),
        ensures
            final(self).wf(),
            final(self).words@ == words@,
            final(self).physical == old(self).physical,
            final(self).journal == old(self).journal,
    {
        self.words = words;
    }

    /// Zeroes the page.
    pub fn clear(&mut self)
        requires
            old(self).wf(),
        ensures
            final(self).wf(),
            final(self).extends(*old(self), seq![PageWrite::Clear]),
    {
        self.words = zeroed_words();
        self.journal.push(PageWrite::Clear);
        proof {
            lemma_one_write(old(self).words@, PageWrite::Clear);
            assert(self.journal@ =~= old(self).journal@ + seq![PageWrite::Clear]);
        }
    }

    /// Reads a word.
    pub fn read_u32(&self, offset: usize) -> (result: Result<u32, UsbError>)
        requires
            self.wf(),
        ensures
            result == (if in_page(offset as int, 4) && offset % 4 == 0 {
                Ok(self.words@[offset as int / 4])
            } else {
                Err(UsbError::AddressOverflow)
            }),
    {
        if offset > PAGE_SIZE - 4 || offset % 4 != 0 {
            return Err(UsbError::AddressOverflow);
        }
        Ok(self.words[offset / 4])
    }

    /// Stores a word.
    pub fn write_u32(&mut self, offset: usize, value: u32) -> (result: Result<(), UsbError>)
        requires
            old(self).wf(),
        ensures
            final(self).wf(),
            if in_page(offset as int, 4) && offset % 4 == 0 {
                result == Ok::<(), UsbError>(()) && final(self).extends(
                    *old(self),
                    seq![PageWrite::Word { offset, value }],
                )
            } else {
                result == Err::<(), UsbError>(UsbError::AddressOverflow) && *final(self) == *old(
                    self,
                )
            },
    {
        if offset > PAGE_SIZE - 4 || offset % 4 != 0 {
            return Err(UsbError::AddressOverflow);
        }
        self.words.set(offset / 4, value);
        self.journal.push(PageWrite::Word { offset, value });
        proof {
            let write = PageWrite::Word { offset, value };
            lemma_one_write(old(self).words@, write);
            assert(self.journal@ =~= old(self).journal@ + seq![write]);
        }
        Ok(())
    }

    /// Stores a double word.
    pub fn write_u64(&mut self, offset: usize, value: u64) -> (result: Result<(), UsbError>)
        requires
            old(self).wf(),
        ensures
            final(self).wf(),
            if in_page(offset as int, 8) && offset % 8 == 0 {
                result == Ok::<(), UsbError>(()) && final(self).extends(
                    *old(self),
                    seq![PageWrite::Double { offset, wide: value }],
                )
            } else {
                result == Err::<(), UsbError>(UsbError::AddressOverflow) && *final(self) == *old(
                    self,
                )
            },
    {
        if offset > PAGE_SIZE - 8 || offset % 8 != 0 {
            return Err(UsbError::AddressOverflow);
        }
        self.words.set(offset / 4, (value % 0x1_0000_0000) as u32);
        self.words.set(offset / 4 + 1, (value / 0x1_0000_0000) as u32);
        self.journal.push(PageWrite::Double { offset, wide: value });
        proof {
            let write = PageWrite::Double { offset, wide: value };
            lemma_one_write(old(self).words@, write);
            assert(self.journal@ =~= old(self).journal@ + seq![write]);
        }
        Ok(())
    }

    /// Copies the first `length` bytes of the page.
    pub fn read_bytes(&self, length: usize) -> (result: Result<Vec<u8>, UsbError>)
        requires
            self.wf(),
        ensures
            match result {
                Ok(bytes) => length <= PAGE_SIZE && bytes@ == Seq::new(
                    length as nat,
                    |i: int| le_byte(self.words@[i / 4] as int, i % 4),
                ),
                Err(error) => length > PAGE_SIZE && error == UsbError::AddressOverflow,
            },
    {
        if length > PAGE_SIZE {
            return Err(UsbError::AddressOverflow);
        }
        let mut bytes: Vec<u8> = Vec::new();
        let mut index: usize = 0;
        while index < length
            invariant
                index <= length <= PAGE_SIZE,
                self.wf(),
                bytes@ == Seq::new(
                    index as nat,
                    |i: int| le_byte(self.words@[i / 4] as int, i % 4),
                ),
            decreases length - index,
        {
            let word: u32 = self.words[index / 4];
            let byte: u8 = match index % 4 {
                0 => (word % 256) as u8,
                1 => (word / 0x100 % 256) as u8,
                2 => (word / 0x1_0000 % 256) as u8,
                _ => (word / 0x100_0000 % 256) as u8,
            };
            bytes.push(byte);
            index += 1;
            assert(bytes@ =~= Seq::new(
                index as nat,
                |i: int| le_byte(self.words@[i / 4] as int, i % 4),
            ));
        }
        Ok(bytes)
    }
}

/// The words of a zeroed page.
fn zeroed_words() -> (words: Vec<u32>)
    ensures
        words@ == zero_words(),
{
    let mut words: Vec<u32> = Vec::new();
    words.resize(PAGE_WORDS, 0);
    assert(words@ =~= zero_words());
    words
}

/// A list of one store applies that store.
pub proof fn lemma_one_write(words: Seq<u32>, write: PageWrite)
    ensures
        apply_writes(words, seq![write]) == apply_write(words, write),
{
    let one = seq![write];
    assert(one.drop_last() =~= Seq::empty());
    assert(apply_writes(words, one.drop_last()) == words);
}

/// Stores compose.
pub proof fn lemma_apply_concat(words: Seq<u32>, first: Seq<PageWrite>, second: Seq<PageWrite>)
    ensures
        apply_writes(words, first + second) == apply_writes(apply_writes(words, first), second),
    decreases second.len(),
{
    if second.len() == 0 {
        assert(first + second =~= first);
    } else {
        assert((first + second).drop_last() =~= first + second.drop_last());
        lemma_apply_concat(words, first, second.drop_last());
    }
}

/// Two runs of stores make one.
pub proof fn lemma_extends_trans(
    a: DmaPage,
    b: DmaPage,
    c: DmaPage,
    first: Seq<PageWrite>,
    second: Seq<PageWrite>,
)
    requires
        b.extends(a, first),
        c.extends(b, second),
    ensures
        c.extends(a, first + second),
{
    lemma_apply_concat(a.words@, first, second);
    assert(c.journal@ =~= a.journal@ + (first + second));
}

/// Pages that are reused instead of being returned to the frame allocator.
#[derive(Debug)]
pub struct UsbDmaPool {
    pub pages: Vec<DmaPage>,
}

impl UsbDmaPool {
    /// Every pooled page is usable.
    pub open spec fn wf(&self) -> bool {
        forall|i: int| 0 <= i < self.pages@.len() ==> (#[trigger] self.pages@[i]).wf()
    }

    /// An empty pool.
    pub fn new() -> (pool: Self)
        ensures
            pool.wf(),
            pool.pages@ == Seq::<DmaPage>::empty(),
    {
        UsbDmaPool { pages: Vec::new() }
    }

    /// Takes the page that was returned last and zeroes it.
    ///
    /// `None` means that the pool is empty and a frame has to be allocated.
    pub fn take_recycled(&mut self) -> (taken: Option<DmaPage>)
        requires
            old(self).wf(),
        ensures
            final(self).wf(),
            match taken {
                Some(page) => {
                    &&& old(self).pages@.len() > 0
                    &&& page.wf()
                    &&& page.extends(old(self).pages@.last(), seq![PageWrite::Clear])
                    &&& final(self).pages@ == old(self).pages@.drop_last()
                },
                None => old(self).pages@.len() == 0 && final(self).pages@ == old(self).pages@,
            },
    {
        match self.pages.pop() {
            None => None,
            Some(returned) => {
                let mut page = returned;
                assert(page == old(self).pages@.last());
                assert(self.pages@ =~= old(self).pages@.drop_last());
                page.clear();
                Some(page)
            },
        }
    }

    /// Returns a page to the pool.
    pub fn recycle(&mut self, page: DmaPage)
        requires
            old(self).wf(),
            page.wf(),
        ensures
            final(self).wf(),
            final(self).pages@ == old(self).pages@.push(page),
    {
        self.pages.push(page);
    }

    /// Pages in the pool.
    pub fn len(&self) -> (count: usize)
        ensures
            count == self.pages@.len(),
    {
        self.pages.len()
    }
}

/// A recycled page is the page that was returned last, zeroed.
pub proof fn law_recycled_page_is_zeroed(pool: UsbDmaPool, page: DmaPage)
    requires
        pool.pages@.len() > 0,
        page.extends(pool.pages@.last(), seq![PageWrite::Clear]),
    ensures
        page.physical == pool.pages@.last().physical,
        page.words@ == zero_words(),
{
    lemma_one_write(pool.pages@.last().words@, PageWrite::Clear);
}

} // verus!
