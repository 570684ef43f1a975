//! Little-endian integer fields inside byte buffers.
use vstd::prelude::*;

verus! {

/// The little-endian value of two bytes.
pub open spec fn le16(b0: u8, b1: u8) -> int {
    b0 + 0x100 * b1
}

/// The little-endian value of four bytes of `s` that start at `at`.
pub open spec fn le32_at(s: Seq<u8>, at: int) -> int {
    s[at] + 0x100 * s[at + 1] + 0x1_0000 * s[at + 2] + 0x100_0000 * s[at + 3]
}

/// The little-endian value of two bytes of `s` that start at `at`.
pub open spec fn le16_at(s: Seq<u8>, at: int) -> int {
    le16(s[at], s[at + 1])
}

/// The little-endian value of eight bytes of `s` that start at `at`.
pub open spec fn le64_at(s: Seq<u8>, at: int) -> int {
    le32_at(s, at) + 0x1_0000_0000 * le32_at(s, at + 4)
}

/// Byte `index` of the little-endian form of `value`.
pub open spec fn le_byte(value: int, index: int) -> u8 {
    if index == 0 {
        (value % 256) as u8
    } else if index == 1 {
        (value / 0x100 % 256) as u8
    } else if index == 2 {
        (value / 0x1_0000 % 256) as u8
    } else if index == 3 {
        (value / 0x100_0000 % 256) as u8
    } else if index == 4 {
        (value / 0x1_0000_0000 % 256) as u8
    } else if index == 5 {
        (value / 0x100_0000_0000 % 256) as u8
    } else if index == 6 {
        (value / 0x1_0000_0000_0000 % 256) as u8
    } else {
        (value / 0x100_0000_0000_0000 % 256) as u8
    }
}

/// The `width` low bytes of `value`, least significant first.
pub open spec fn le_bytes(value: int, width: nat) -> Seq<u8> {
    Seq::new(width, |i: int| le_byte(value, i))
}

/// Reads a little-endian `u16` at `offset`.
pub fn read_u16(bytes: &[u8], offset: usize) -> (value: u16)
    requires
        offset + 2 <= bytes.len(),
    ensures
        value == le16_at(bytes@, offset as int),
{
    let low: u16 = bytes[offset] as u16;
    let high: u16 = bytes[offset + 1] as u16;
    low + high * 0x100
}

/// Reads a little-endian `u32` at `offset`.
pub fn read_u32(bytes: &[u8], offset: usize) -> (value: u32)
    requires
        offset + 4 <= bytes.len(),
    ensures
        value == le32_at(bytes@, offset as int),
{
    let b0: u32 = bytes[offset] as u32;
    let b1: u32 = bytes[offset + 1] as u32;
    let b2: u32 = bytes[offset + 2] as u32;
    let b3: u32 = bytes[offset + 3] as u32;
    b0 + b1 * 0x100 + b2 * 0x1_0000 + b3 * 0x100_0000
}

/// Reads a little-endian `u64` at `offset`.
pub fn read_u64(bytes: &[u8], offset: usize) -> (value: u64)
    requires
        offset + 8 <= bytes.len(),
    ensures
        value == le64_at(bytes@, offset as int),
{
    let low: u64 = read_u32(bytes, offset) as u64;
    let high: u64 = read_u32(bytes, offset + 4) as u64;
    low + high * 0x1_0000_0000
}

/// The signed reading of a 64-bit pattern.
pub open spec fn signed64(raw: int) -> int {
    if raw < 0x8000_0000_0000_0000 {
        raw
    } else {
        raw - 0x1_0000_0000_0000_0000
    }
}

/// Reinterprets a 64-bit pattern as a signed integer.
pub fn to_signed(raw: u64) -> (value: i64)
    ensures
        value == signed64(raw as int),
{
    if raw < 0x8000_0000_0000_0000 {
        raw as i64
    } else {
        let magnitude: u64 = u64::MAX - raw;
        -(magnitude as i64) - 1
    }
}

/// Reads a little-endian `i64` at `offset`.
pub fn read_i64(bytes: &[u8], offset: usize) -> (value: i64)
    requires
        offset + 8 <= bytes.len(),
    ensures
        value == signed64(le64_at(bytes@, offset as int)),
{
    to_signed(read_u64(bytes, offset))
}

/// `before` with the bytes of `part` written over it from `offset` on.
pub open spec fn overwrite(before: Seq<u8>, offset: int, part: Seq<u8>) -> Seq<u8> {
    Seq::new(
        before.len(),
        |i: int|
            if offset <= i < offset + part.len() {
                part[i - offset]
            } else {
                before[i]
            },
    )
}

/// Writes a little-endian `u16` at `offset`.
pub fn put_u16(bytes: &mut Vec<u8>, offset: usize, value: u16)
    requires
        offset + 2 <= old(bytes).len(),
    ensures
        final(bytes)@ == overwrite(old(bytes)@, offset as int, le_bytes(value as int, 2)),
{
    bytes.set(offset, (value % 256) as u8);
    bytes.set(offset + 1, (value / 0x100 % 256) as u8);
}

/// Writes a little-endian `u32` at `offset`.
pub fn put_u32(bytes: &mut Vec<u8>, offset: usize, value: u32)
    requires
        offset + 4 <= old(bytes).len(),
    ensures
        final(bytes)@ == overwrite(old(bytes)@, offset as int, le_bytes(value as int, 4)),
{
    bytes.set(offset, (value % 256) as u8);
    bytes.set(offset + 1, (value / 0x100 % 256) as u8);
    bytes.set(offset + 2, (value / 0x1_0000 % 256) as u8);
    bytes.set(offset + 3, (value / 0x100_0000 % 256) as u8);
}

/// Writes a little-endian `u64` at `offset`.
pub fn put_u64(bytes: &mut Vec<u8>, offset: usize, value: u64)
    requires
        offset + 8 <= old(bytes).len(),
    ensures
        final(bytes)@ == overwrite(old(bytes)@, offset as int, le_bytes(value as int, 8)),
{
    bytes.set(offset, (value % 256) as u8);
    bytes.set(offset + 1, (value / 0x100 % 256) as u8);
    bytes.set(offset + 2, (value / 0x1_0000 % 256) as u8);
    bytes.set(offset + 3, (value / 0x100_0000 % 256) as u8);
    bytes.set(offset + 4, (value / 0x1_0000_0000 % 256) as u8);
    bytes.set(offset + 5, (value / 0x100_0000_0000 % 256) as u8);
    bytes.set(offset + 6, (value / 0x1_0000_0000_0000 % 256) as u8);
    bytes.set(offset + 7, (value / 0x100_0000_0000_0000 % 256) as u8);
}

/// Appends a little-endian `u16`.
pub fn push_u16(bytes: &mut Vec<u8>, value: u16)
    ensures
        final(bytes)@ == old(bytes)@ + le_bytes(value as int, 2),
{
    bytes.push((value % 256) as u8);
    bytes.push((value / 0x100 % 256) as u8);
    assert(bytes@ =~= old(bytes)@ + le_bytes(value as int, 2));
}

/// Appends a little-endian `u32`.
pub fn push_u32(bytes: &mut Vec<u8>, value: u32)
    ensures
        final(bytes)@ == old(bytes)@ + le_bytes(value as int, 4),
{
    bytes.push((value % 256) as u8);
    bytes.push((value / 0x100 % 256) as u8);
    bytes.push((value / 0x1_0000 % 256) as u8);
    bytes.push((value / 0x100_0000 % 256) as u8);
    assert(bytes@ =~= old(bytes)@ + le_bytes(value as int, 4));
}

/// Appends a little-endian `u64`.
pub fn push_u64(bytes: &mut Vec<u8>, value: u64)
    ensures
        final(bytes)@ == old(bytes)@ + le_bytes(value as int, 8),
{
    bytes.push((value % 256) as u8);
    bytes.push((value / 0x100 % 256) as u8);
    bytes.push((value / 0x1_0000 % 256) as u8);
    bytes.push((value / 0x100_0000 % 256) as u8);
    bytes.push((value / 0x1_0000_0000 % 256) as u8);
    bytes.push((value / 0x100_0000_0000 % 256) as u8);
    bytes.push((value / 0x1_0000_0000_0000 % 256) as u8);
    bytes.push((value / 0x100_0000_0000_0000 % 256) as u8);
    assert(bytes@ =~= old(bytes)@ + le_bytes(value as int, 8));
}

/// The pattern of a signed 32-bit number.
pub open spec fn pattern32(value: int) -> int {
    if value < 0 {
        value + 0x1_0000_0000
    } else {
        value
    }
}

/// Appends a little-endian `i32`.
pub fn push_i32(bytes: &mut Vec<u8>, value: i32)
    ensures
        final(bytes)@ == old(bytes)@ + le_bytes(pattern32(value as int), 4),
{
    let pattern: u32 = if value < 0 {
        u32::MAX - (-(value as i64) - 1) as u32
    } else {
        value as u32
    };
    push_u32(bytes, pattern);
}

/// `count` zero bytes.
pub open spec fn zeros(count: nat) -> Seq<u8> {
    Seq::new(count, |i: int| 0u8)
}

/// Appends zero bytes.
pub fn push_zeros(bytes: &mut Vec<u8>, count: usize)
    ensures
        final(bytes)@ == old(bytes)@ + zeros(count as nat),
{
    let mut added: usize = 0;
    assert(bytes@ =~= old(bytes)@ + zeros(0));
    while added < count
        invariant
            added <= count,
            bytes@ == old(bytes)@ + zeros(added as nat),
        decreases count - added,
    {
        bytes.push(0);
        added += 1;
        assert(bytes@ =~= old(bytes)@ + zeros(added as nat));
    }
}

/// Appends bytes.
pub fn push_bytes(bytes: &mut Vec<u8>, more: &[u8])
    ensures
        final(bytes)@ == old(bytes)@ + more@,
{
    let mut index: usize = 0;
    assert(bytes@ =~= old(bytes)@ + more@.subrange(0, 0));
    while index < more.len()
        invariant
            index <= more@.len(),
            bytes@ == old(bytes)@ + more@.subrange(0, index as int),
        decreases more@.len() - index,
    {
        bytes.push(more[index]);
        index += 1;
        assert(bytes@ =~= old(bytes)@ + more@.subrange(0, index as int));
    }
    assert(more@.subrange(0, more@.len() as int) =~= more@);
}

/// Part of a slice, as a slice.
pub fn part_of(bytes: &[u8], from: usize, to: usize) -> (part: &[u8])
    requires
        from <= to <= bytes@.len(),
    ensures
        part@ == bytes@.subrange(from as int, to as int),
{
    vstd::slice::slice_subrange(bytes, from, to)
}

/// A 32-bit value is the sum of its four weighted bytes.
#[verifier::spinoff_prover]
proof fn lemma_four_bytes(value: int)
    requires
        0 <= value < 0x1_0000_0000,
    ensures
        value == value % 256 + 0x100 * (value / 0x100 % 256) + 0x1_0000 * (value / 0x1_0000 % 256)
            + 0x100_0000 * (value / 0x100_0000 % 256),
{
    let q1 = value / 0x100;
    let q2 = value / 0x1_0000;
    let q3 = value / 0x100_0000;
    assert(q2 == q1 / 0x100);
    assert(q3 == q2 / 0x100);
    assert(q3 < 0x100);
}

/// A 32-bit field reads back as it was written.
pub proof fn law_u32_round_trip(before: Seq<u8>, offset: int, value: u32)
    requires
        0 <= offset,
        offset + 4 <= before.len(),
    ensures
        le32_at(overwrite(before, offset, le_bytes(value as int, 4)), offset) == value,
{
    lemma_four_bytes(value as int);
    let part = le_bytes(value as int, 4);
    let written = overwrite(before, offset, part);
    assert(written[offset] == part[0]);
    assert(written[offset + 1] == part[1]);
    assert(written[offset + 2] == part[2]);
    assert(written[offset + 3] == part[3]);
}

/// A byte of the low half.
#[verifier::spinoff_prover]
proof fn lemma_low_byte(value: int, unit: int, rest: int)
    requires
        0 <= value,
        unit == 1 && rest == 0x1_0000_0000 || unit == 0x100 && rest == 0x100_0000 || unit
            == 0x1_0000 && rest == 0x1_0000 || unit == 0x100_0000 && rest == 0x100,
    ensures
        value / unit % 256 == value % 0x1_0000_0000 / unit % 256,
{
    let low = value % 0x1_0000_0000;
    let high = value / 0x1_0000_0000;
    assert(value == 0x1_0000_0000 * high + low);
    if unit == 1 {
        assert(value / 1 == value);
        assert(low / 1 == low);
    } else if unit == 0x100 {
        assert(value / 0x100 == 0x100_0000 * high + low / 0x100);
    } else if unit == 0x1_0000 {
        assert(value / 0x1_0000 == 0x1_0000 * high + low / 0x1_0000);
    } else {
        assert(value / 0x100_0000 == 0x100 * high + low / 0x100_0000);
    }
}

/// A byte of the high half.
#[verifier::spinoff_prover]
proof fn lemma_high_byte(value: int)
    requires
        0 <= value,
    ensures
        value / 0x100_0000_0000 == value / 0x1_0000_0000 / 0x100,
        value / 0x1_0000_0000_0000 == value / 0x1_0000_0000 / 0x1_0000,
        value / 0x100_0000_0000_0000 == value / 0x1_0000_0000 / 0x100_0000,
{
    vstd::arithmetic::div_mod::lemma_div_denominator(value, 0x1_0000_0000, 0x100);
    vstd::arithmetic::div_mod::lemma_div_denominator(value, 0x1_0000_0000, 0x1_0000);
    vstd::arithmetic::div_mod::lemma_div_denominator(value, 0x1_0000_0000, 0x100_0000);
}

/// The bytes of a 64-bit value are those of its two halves.
proof fn lemma_halves(value: int)
    requires
        0 <= value < 0x1_0000_0000_0000_0000,
    ensures
        forall|i: int| 0 <= i < 4 ==> #[trigger] le_byte(value, i) == le_byte(value % 0x1_0000_0000, i),
        forall|i: int|
            4 <= i < 8 ==> #[trigger] le_byte(value, i) == le_byte(value / 0x1_0000_0000, i - 4),
{
    lemma_low_byte(value, 1, 0x1_0000_0000);
    lemma_low_byte(value, 0x100, 0x100_0000);
    lemma_low_byte(value, 0x1_0000, 0x1_0000);
    lemma_low_byte(value, 0x100_0000, 0x100);
    lemma_high_byte(value);
}

/// A 64-bit field reads back as it was written.
pub proof fn law_u64_round_trip(before: Seq<u8>, offset: int, value: u64)
    requires
        0 <= offset,
        offset + 8 <= before.len(),
    ensures
        le64_at(overwrite(before, offset, le_bytes(value as int, 8)), offset) == value,
{
    let v = value as int;
    let low = v % 0x1_0000_0000;
    let high = v / 0x1_0000_0000;
    lemma_halves(v);
    let written = overwrite(before, offset, le_bytes(v, 8));
    let first = overwrite(before, offset, le_bytes(low, 4));
    let second = overwrite(before, offset + 4, le_bytes(high, 4));
    law_u32_round_trip(before, offset, low as u32);
    law_u32_round_trip(before, offset + 4, high as u32);
    assert forall|i: int| 0 <= i < 4 implies #[trigger] written[offset + i] == first[offset + i] by {
        assert(le_byte(v, i) == le_byte(low, i));
    }
    assert forall|i: int| 0 <= i < 4 implies #[trigger] written[offset + 4 + i] == second[offset + 4
        + i] by {
        assert(le_byte(v, i + 4) == le_byte(high, i));
    }
    assert(le32_at(written, offset) == le32_at(first, offset)) by {
        assert(written[offset + 0] == first[offset + 0]);
        assert(written[offset + 1] == first[offset + 1]);
        assert(written[offset + 2] == first[offset + 2]);
        assert(written[offset + 3] == first[offset + 3]);
    }
    assert(le32_at(written, offset + 4) == le32_at(second, offset + 4)) by {
        assert(written[offset + 4 + 0] == second[offset + 4 + 0]);
        assert(written[offset + 4 + 1] == second[offset + 4 + 1]);
        assert(written[offset + 4 + 2] == second[offset + 4 + 2]);
        assert(written[offset + 4 + 3] == second[offset + 4 + 3]);
    }
}

/// A 32-bit field that holds the bytes of a number reads as the number.
pub proof fn lemma_field32(bytes: Seq<u8>, at: int, value: int)
    requires
        0 <= value <= u32::MAX,
        0 <= at,
        at + 4 <= bytes.len(),
        bytes.subrange(at, at + 4) == le_bytes(value, 4),
    ensures
        le32_at(bytes, at) == value,
{
    law_u32_round_trip(bytes, at, value as u32);
    let part = bytes.subrange(at, at + 4);
    assert(bytes[at] == part[0] && bytes[at + 1] == part[1]);
    assert(bytes[at + 2] == part[2] && bytes[at + 3] == part[3]);
    assert(overwrite(bytes, at, le_bytes(value, 4)) =~= bytes);
}

/// A 64-bit field that holds the bytes of a number reads as the number.
pub proof fn lemma_field64(bytes: Seq<u8>, at: int, value: int)
    requires
        0 <= value <= u64::MAX,
        0 <= at,
        at + 8 <= bytes.len(),
        bytes.subrange(at, at + 8) == le_bytes(value, 8),
    ensures
        le64_at(bytes, at) == value,
{
    law_u64_round_trip(bytes, at, value as u64);
    let part = bytes.subrange(at, at + 8);
    assert forall|i: int| 0 <= i < bytes.len() implies #[trigger] overwrite(
        bytes,
        at,
        le_bytes(value, 8),
    )[i] == bytes[i] by {
        if at <= i < at + 8 {
            assert(part[i - at] == bytes[i]);
        }
    }
    assert(overwrite(bytes, at, le_bytes(value, 8)) =~= bytes);
}

/// Fields are written with their low byte first, and the byte at a place counts for as much as
/// the places before it can tell apart.
pub proof fn law_low_bytes_come_first(bytes: Seq<u8>, at: int, value: int, width: nat)
    requires
        0 < width <= 8,
        0 <= value,
    ensures
        le_bytes(value, width).len() == width,
        le_bytes(value, width)[0] == value % 256,
        width > 1 ==> le_bytes(value, width)[1] == value / 256 % 256,
        le16_at(bytes, at) == bytes[at] + 256 * bytes[at + 1],
        le32_at(bytes, at) == le16_at(bytes, at) + 65536 * le16_at(bytes, at + 2),
        le64_at(bytes, at) == le32_at(bytes, at) + 4294967296 * le32_at(bytes, at + 4),
{
}

} // verus!
