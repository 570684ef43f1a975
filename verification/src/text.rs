//! Text in byte strings: characters, and the parts between separators.
use vstd::prelude::*;
use vstd::utf8::{decode_utf8, encode_utf8_decode_utf8, valid_utf8};

verus! {

/// Calls `core::str::from_utf8`: the text that `bytes` encode, if they are UTF-8.
#[verifier::external_body]
pub(crate) fn utf8_text(bytes: &[u8]) -> (text: Option<&str>)
    ensures
        match text {
            Some(text) => valid_utf8(bytes@) && text@ == decode_utf8(bytes@)
                && vstd::utf8::encode_utf8(text@) == bytes@,
            None => !valid_utf8(bytes@),
        },
{
    core::str::from_utf8(bytes).ok()
}

/// A control character of Unicode: general category Cc.
pub open spec fn control(character: char) -> bool {
    character as u32 <= 0x1f || 0x7f <= character as u32 <= 0x9f
}

/// A character of Unicode with the White_Space property.
pub open spec fn white_space(character: char) -> bool {
    let code = character as u32;
    ||| 0x9 <= code <= 0xd
    ||| code == 0x20
    ||| code == 0x85
    ||| code == 0xa0
    ||| code == 0x1680
    ||| 0x2000 <= code <= 0x200a
    ||| code == 0x2028
    ||| code == 0x2029
    ||| code == 0x202f
    ||| code == 0x205f
    ||| code == 0x3000
}

/// Whether a character is a control character.
pub fn is_control(character: char) -> (result: bool)
    ensures
        result == control(character),
{
    let code: u32 = character as u32;
    code <= 0x1f || (0x7f <= code && code <= 0x9f)
}

/// Whether a character is white space.
pub fn is_white_space(character: char) -> (result: bool)
    ensures
        result == white_space(character),
{
    let code: u32 = character as u32;
    (0x9 <= code && code <= 0xd) || code == 0x20 || code == 0x85 || code == 0xa0 || code == 0x1680
        || (0x2000 <= code && code <= 0x200a) || code == 0x2028 || code == 0x2029 || code == 0x202f
        || code == 0x205f || code == 0x3000
}

/// Some character is a control character.
pub open spec fn has_control(text: Seq<char>) -> bool {
    exists|i: int| 0 <= i < text.len() && control(#[trigger] text[i])
}

/// Every character is white space.
pub open spec fn blank(text: Seq<char>) -> bool {
    forall|i: int| 0 <= i < text.len() ==> white_space(#[trigger] text[i])
}

/// Whether some character is a control character.
pub fn contains_control(text: &str) -> (result: bool)
    ensures
        result == has_control(text@),
{
    let mut found: bool = false;
    for character in iter: text.chars()
        invariant
            iter.seq() == text@,
            found == exists|i: int| 0 <= i < iter.index() && control(#[trigger] text@[i]),
    {
        if is_control(character) {
            assert(control(text@[iter.index() as int]));
            found = true;
        }
    }
    found
}

/// Whether every character is white space.
pub fn is_blank(text: &str) -> (result: bool)
    ensures
        result == blank(text@),
{
    let mut all: bool = true;
    for character in iter: text.chars()
        invariant
            iter.seq() == text@,
            all == forall|i: int| 0 <= i < iter.index() ==> white_space(#[trigger] text@[i]),
    {
        if !is_white_space(character) {
            assert(!white_space(text@[iter.index() as int]));
            all = false;
        }
    }
    all
}

/// Whether two byte strings are equal.
pub fn same_bytes(left: &[u8], right: &[u8]) -> (same: bool)
    ensures
        same == (left@ == right@),
{
    if left.len() != right.len() {
        return false;
    }
    let mut index: usize = 0;
    while index < left.len()
        invariant
            index <= left@.len() == right@.len(),
            forall|i: int| 0 <= i < index ==> left@[i] == #[trigger] right@[i],
        decreases left@.len() - index,
    {
        if left[index] != right[index] {
            return false;
        }
        index += 1;
    }
    assert(left@ =~= right@);
    true
}

/// The bytes from `from` to `to` are one of the parts that `separator` divides `bytes` into.
pub open spec fn part(bytes: Seq<u8>, separator: u8, from: int, to: int) -> bool {
    &&& 0 <= from <= to <= bytes.len()
    &&& from == 0 || bytes[from - 1] == separator
    &&& to == bytes.len() || bytes[to] == separator
    &&& forall|i: int| from <= i < to ==> #[trigger] bytes[i] != separator
}

/// A part of a path that names something: not empty, and neither `.` nor `..`.
pub open spec fn plain_part(bytes: Seq<u8>, from: int, to: int) -> bool {
    &&& from < to
    &&& !(to == from + 1 && bytes[from] == 0x2e)
    &&& !(to == from + 2 && bytes[from] == 0x2e && bytes[from + 1] == 0x2e)
}

/// Every part between slashes names something.
pub open spec fn plain_parts(bytes: Seq<u8>) -> bool {
    forall|from: int, to: int| #[trigger]
        part(bytes, 0x2f, from, to) ==> plain_part(bytes, from, to)
}

/// Parts that begin at one place are one part.
pub(crate) proof fn lemma_part_is_unique(bytes: Seq<u8>, separator: u8, from: int, to: int, end: int)
    requires
        part(bytes, separator, from, to),
        part(bytes, separator, from, end),
    ensures
        to == end,
{
    if to < end {
        assert(bytes[to] != separator);
    }
    if end < to {
        assert(bytes[end] != separator);
    }
}

/// Whether every part between slashes names something.
pub fn has_plain_parts(bytes: &[u8]) -> (result: bool)
    ensures
        result == plain_parts(bytes@),
{
    let mut from: usize = 0;
    let mut index: usize = 0;
    while index < bytes.len()
        invariant
            from <= index <= bytes@.len(),
            from == 0 || bytes@[from - 1] == 0x2f,
            forall|i: int| from <= i < index ==> #[trigger] bytes@[i] != 0x2f,
            forall|start: int, end: int|
                start < from && #[trigger] part(bytes@, 0x2f, start, end) ==> plain_part(
                    bytes@,
                    start,
                    end,
                ),
        decreases bytes@.len() - index,
    {
        if bytes[index] == 0x2f {
            proof {
                assert(part(bytes@, 0x2f, from as int, index as int));
            }
            if !names_something(bytes, from, index) {
                return false;
            }
            proof {
                assert forall|start: int, end: int|
                    start < index + 1 && #[trigger] part(bytes@, 0x2f, start, end) implies plain_part(
                    bytes@,
                    start,
                    end,
                ) by {
                    if start == from {
                        lemma_part_is_unique(bytes@, 0x2f, start, end, index as int);
                    } else if start > from {
                        assert(bytes@[start - 1] != 0x2f);
                    }
                }
            }
            from = index + 1;
        }
        index += 1;
    }
    proof {
        assert(part(bytes@, 0x2f, from as int, index as int));
        assert forall|start: int, end: int| #[trigger]
            part(bytes@, 0x2f, start, end) && start >= from implies start == from && end
            == index by {
            if start > from {
                assert(bytes@[start - 1] != 0x2f);
            }
            lemma_part_is_unique(bytes@, 0x2f, from as int, end, index as int);
        }
    }
    names_something(bytes, from, index)
}

/// Whether a part names something.
fn names_something(bytes: &[u8], from: usize, to: usize) -> (result: bool)
    requires
        from <= to <= bytes@.len(),
    ensures
        result == plain_part(bytes@, from as int, to as int),
{
    let length: usize = to - from;
    if length == 0 {
        false
    } else if length == 1 {
        bytes[from] != 0x2e
    } else if length == 2 {
        bytes[from] != 0x2e || bytes[from + 1] != 0x2e
    } else {
        true
    }
}

/// Whether a byte occurs.
pub fn contains_byte(bytes: &[u8], byte: u8) -> (found: bool)
    ensures
        found == bytes@.contains(byte),
{
    let mut index: usize = 0;
    while index < bytes.len()
        invariant
            index <= bytes@.len(),
            forall|i: int| 0 <= i < index ==> #[trigger] bytes@[i] != byte,
        decreases bytes@.len() - index,
    {
        if bytes[index] == byte {
            assert(bytes@[index as int] == byte);
            return true;
        }
        index += 1;
    }
    false
}

/// The characters of a string are what its bytes decode to.
pub(crate) proof fn lemma_text_of_bytes(text: &str)
    ensures
        decode_utf8(vstd::utf8::encode_utf8(text@)) == text@,
        valid_utf8(vstd::utf8::encode_utf8(text@)),
{
    encode_utf8_decode_utf8(text@);
    vstd::utf8::encode_utf8_valid_utf8(text@);
}

} // verus!
