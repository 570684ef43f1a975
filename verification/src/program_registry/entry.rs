//! Entries, their fields and what makes them valid.
use vstd::prelude::*;
use vstd::utf8::{decode_utf8, encode_utf8};

use crate::text::{
    blank, contains_byte, contains_control, has_control, has_plain_parts, is_blank,
    lemma_part_is_unique, lemma_text_of_bytes, part, plain_parts,
};

verus! {

/// The format version.
pub const VERSION: u16 = 1;

/// Size of the file header.
pub const HEADER_SIZE: usize = 12;

/// Size of an entry header.
pub const ENTRY_HEADER_SIZE: usize = 8;

/// Most entries of one registry.
pub const MAX_ENTRIES: u32 = 1024;

/// Longest app identifier.
pub const MAX_APP_ID_LEN: usize = 255;

/// Longest display name.
pub const MAX_DISPLAY_NAME_LEN: usize = 255;

/// Longest executable path.
pub const MAX_EXECUTABLE_PATH_LEN: usize = 4096;

/// A field of an entry.
#[derive(Clone, Copy, Debug, PartialEq, Eq, Structural)]
pub enum Field {
    AppId,
    DisplayName,
    ExecutablePath,
}

/// Flags of an entry.
#[derive(Clone, Copy, Debug, PartialEq, Eq, Structural, Hash)]
pub struct EntryFlags(u16);

impl EntryFlags {
    /// Only known bits are set.
    #[verifier::type_invariant]
    spec fn known(self) -> bool {
        self.0 <= 1
    }

    /// The bits of these flags.
    pub closed spec fn raw(self) -> u16 {
        self.0
    }

    /// No special behaviour.
    pub fn empty() -> (flags: Self)
        ensures
            flags.raw() == 0,
    {
        EntryFlags(0)
    }

    /// Excludes an application from launcher listings.
    pub fn hidden() -> (flags: Self)
        ensures
            flags.raw() == 1,
    {
        EntryFlags(1)
    }

    /// Flags, if every bit is known.
    pub fn from_bits(bits: u16) -> (flags: Option<Self>)
        ensures
            match flags {
                Some(flags) => bits <= 1 && flags.raw() == bits,
                None => bits > 1,
            },
    {
        if bits <= 1 {
            Some(EntryFlags(bits))
        } else {
            None
        }
    }

    /// The bits as they stand in a file.
    pub fn bits(self) -> (bits: u16)
        ensures
            bits == self.raw(),
            bits <= 1,
    {
        proof {
            use_type_invariant(&self);
        }
        self.0
    }

    /// Whether all bits of `other` are set.
    pub fn contains(self, other: Self) -> (result: bool)
        ensures
            result == (self.raw() & other.raw() == other.raw()),
    {
        self.0 & other.0 == other.0
    }

    /// Whether no bit is set.
    pub fn is_empty(self) -> (result: bool)
        ensures
            result == (self.raw() == 0),
    {
        self.0 == 0
    }

    /// The bits of either.
    pub fn union(self, other: Self) -> (flags: Self)
        ensures
            flags.raw() == self.raw() | other.raw(),
    {
        proof {
            use_type_invariant(&self);
            use_type_invariant(&other);
            let left = self.0;
            let right = other.0;
            assert(left <= 1 && right <= 1 ==> left | right <= 1) by (bit_vector);
        }
        EntryFlags(self.0 | other.0)
    }
}

impl Default for EntryFlags {
    fn default() -> (flags: Self)
        ensures
            flags.raw() == 0,
    {
        EntryFlags(0)
    }
}

/// A validated launcher entry.
#[derive(Clone, Copy, Debug, PartialEq, Eq)]
pub struct Entry<'a> {
    pub app_id: &'a str,
    pub display_name: &'a str,
    pub executable_path: &'a str,
    pub flags: EntryFlags,
}

/// What an entry holds, as bytes.
#[verifier::ext_equal]
pub struct EntryModel {
    pub app_id: Seq<u8>,
    pub display_name: Seq<u8>,
    pub executable_path: Seq<u8>,
    pub flags: u16,
}

impl EntryModel {
    /// The entry is in launcher listings.
    pub open spec fn visible(self) -> bool {
        self.flags & 1 != 1
    }
}

impl Entry<'_> {
    /// What this entry holds.
    pub open spec fn model(self) -> EntryModel {
        EntryModel {
            app_id: encode_utf8(self.app_id@),
            display_name: encode_utf8(self.display_name@),
            executable_path: encode_utf8(self.executable_path@),
            flags: self.flags.raw(),
        }
    }

    /// Whether this entry is in launcher listings.
    pub fn is_visible(&self) -> (visible: bool)
        ensures
            visible == self.model().visible(),
    {
        !self.flags.contains(EntryFlags::hidden())
    }
}

/// Why a registry is not valid.
#[derive(Clone, Copy, Debug, PartialEq, Eq, Structural)]
pub enum ParseError {
    TruncatedHeader,
    BadMagic,
    UnsupportedVersion(u16),
    UnknownHeaderFlags(u16),
    TooManyEntries { count: u32, maximum: u32 },
    TruncatedEntryHeader { index: usize },
    TruncatedEntryData { index: usize },
    FieldTooLong { index: usize, field: Field, length: usize, maximum: usize },
    InvalidUtf8 { index: usize, field: Field },
    InvalidAppId { index: usize },
    InvalidDisplayName { index: usize },
    InvalidExecutablePath { index: usize },
    UnknownEntryFlags { index: usize, bits: u16 },
    DuplicateAppId { first_index: usize, duplicate_index: usize },
    TrailingData,
}

/// A lowercase letter.
pub open spec fn lower(byte: u8) -> bool {
    0x61 <= byte <= 0x7a
}

/// A digit.
pub open spec fn digit(byte: u8) -> bool {
    0x30 <= byte <= 0x39
}

/// A part of an app identifier: at most 63 lowercase letters, digits and hyphens that
/// begin with a letter and do not end with a hyphen.
pub open spec fn id_part(bytes: Seq<u8>, from: int, to: int) -> bool {
    &&& 1 <= to - from <= 63
    &&& lower(bytes[from])
    &&& bytes[to - 1] != 0x2d
    &&& forall|i: int|
        from <= i < to ==> lower(#[trigger] bytes[i]) || digit(bytes[i]) || bytes[i] == 0x2d
}

/// A valid app identifier: dot-separated parts.
pub open spec fn app_id_ok(bytes: Seq<u8>) -> bool {
    &&& bytes.len() <= MAX_APP_ID_LEN
    &&& forall|from: int, to: int| #[trigger]
        part(bytes, 0x2e, from, to) ==> id_part(bytes, from, to)
}

/// A valid display name: not blank, without control characters.
pub open spec fn display_name_ok(bytes: Seq<u8>) -> bool {
    &&& bytes.len() <= MAX_DISPLAY_NAME_LEN
    &&& !blank(decode_utf8(bytes))
    &&& !has_control(decode_utf8(bytes))
}

/// A valid executable path: absolute and normalized, without backslashes and control
/// characters.
pub open spec fn path_ok(bytes: Seq<u8>) -> bool {
    &&& 2 <= bytes.len() <= MAX_EXECUTABLE_PATH_LEN
    &&& bytes[0] == 0x2f
    &&& !bytes.contains(0x5c)
    &&& !has_control(decode_utf8(bytes))
    &&& plain_parts(bytes.skip(1))
}

/// Whether a part of an app identifier is valid.
fn valid_id_part(bytes: &[u8], from: usize, to: usize) -> (result: bool)
    requires
        from <= to <= bytes@.len(),
    ensures
        result == id_part(bytes@, from as int, to as int),
{
    let length: usize = to - from;
    if length == 0 || length > 63 {
        return false;
    }
    let mut index: usize = from;
    while index < to
        invariant
            from <= index <= to <= bytes@.len(),
            forall|i: int|
                from <= i < index ==> lower(#[trigger] bytes@[i]) || digit(bytes@[i]) || bytes@[i]
                    == 0x2d,
        decreases to - index,
    {
        let byte: u8 = bytes[index];
        if !((0x61 <= byte && byte <= 0x7a) || (0x30 <= byte && byte <= 0x39) || byte == 0x2d) {
            return false;
        }
        index += 1;
    }
    0x61 <= bytes[from] && bytes[from] <= 0x7a && bytes[to - 1] != 0x2d
}

/// Whether an app identifier is valid.
pub fn valid_app_id(app_id: &str) -> (result: bool)
    ensures
        result == app_id_ok(encode_utf8(app_id@)),
{
    let bytes: &[u8] = app_id.as_bytes();
    if bytes.len() > MAX_APP_ID_LEN {
        return false;
    }
    let mut from: usize = 0;
    let mut index: usize = 0;
    while index < bytes.len()
        invariant
            from <= index <= bytes@.len(),
            from == 0 || bytes@[from - 1] == 0x2e,
            bytes@ == encode_utf8(app_id@),
            forall|i: int| from <= i < index ==> #[trigger] bytes@[i] != 0x2e,
            forall|start: int, end: int|
                start < from && #[trigger] part(bytes@, 0x2e, start, end) ==> id_part(
                    bytes@,
                    start,
                    end,
                ),
        decreases bytes@.len() - index,
    {
        if bytes[index] == 0x2e {
            assert(part(bytes@, 0x2e, from as int, index as int));
            if !valid_id_part(bytes, from, index) {
                return false;
            }
            proof {
                assert forall|start: int, end: int|
                    start < index + 1 && #[trigger] part(bytes@, 0x2e, start, end) implies id_part(
                    bytes@,
                    start,
                    end,
                ) by {
                    if start == from {
                        lemma_part_is_unique(bytes@, 0x2e, start, end, index as int);
                    } else if start > from {
                        assert(bytes@[start - 1] != 0x2e);
                    }
                }
            }
            from = index + 1;
        }
        index += 1;
    }
    proof {
        assert(part(bytes@, 0x2e, from as int, index as int));
        assert forall|start: int, end: int| #[trigger]
            part(bytes@, 0x2e, start, end) && start >= from implies start == from && end
            == index by {
            if start > from {
                assert(bytes@[start - 1] != 0x2e);
            }
            lemma_part_is_unique(bytes@, 0x2e, from as int, end, index as int);
        }
    }
    valid_id_part(bytes, from, index)
}

/// Whether a display name is valid.
pub fn valid_display_name(display_name: &str) -> (result: bool)
    ensures
        result == display_name_ok(encode_utf8(display_name@)),
{
    proof {
        lemma_text_of_bytes(display_name);
    }
    display_name.as_bytes().len() <= MAX_DISPLAY_NAME_LEN && !is_blank(display_name)
        && !contains_control(display_name)
}

/// Whether an executable path is valid.
pub fn valid_executable_path(path: &str) -> (result: bool)
    ensures
        result == path_ok(encode_utf8(path@)),
{
    proof {
        lemma_text_of_bytes(path);
    }
    let bytes: &[u8] = path.as_bytes();
    if bytes.len() < 2 || bytes.len() > MAX_EXECUTABLE_PATH_LEN || bytes[0] != 0x2f
        || contains_byte(bytes, 0x5c) || contains_control(path) {
        return false;
    }
    let rest: &[u8] = vstd::slice::slice_subrange(bytes, 1, bytes.len());
    assert(rest@ =~= bytes@.skip(1));
    has_plain_parts(rest)
}

/// A path that ends with a slash is not valid.
pub proof fn law_valid_path_does_not_end_with_a_slash(bytes: Seq<u8>)
    requires
        path_ok(bytes),
    ensures
        bytes.last() != 0x2f,
{
    let rest = bytes.skip(1);
    if bytes.last() == 0x2f {
        assert(part(rest, 0x2f, rest.len() as int, rest.len() as int));
    }
}

/// Why the fields of an entry are not valid.
pub open spec fn fields_error(
    index: usize,
    app_id: Seq<u8>,
    display_name: Seq<u8>,
    executable_path: Seq<u8>,
) -> Option<ParseError> {
    if !app_id_ok(app_id) {
        Some(ParseError::InvalidAppId { index })
    } else if !display_name_ok(display_name) {
        Some(ParseError::InvalidDisplayName { index })
    } else if !path_ok(executable_path) {
        Some(ParseError::InvalidExecutablePath { index })
    } else {
        None
    }
}

/// Checks the fields of an entry.
pub fn validate_entry(index: usize, app_id: &str, display_name: &str, executable_path: &str) -> (result:
    Result<(), ParseError>)
    ensures
        result == (match fields_error(
            index,
            encode_utf8(app_id@),
            encode_utf8(display_name@),
            encode_utf8(executable_path@),
        ) {
            Some(error) => Err(error),
            None => Ok(()),
        }),
{
    if !valid_app_id(app_id) {
        return Err(ParseError::InvalidAppId { index });
    }
    if !valid_display_name(display_name) {
        return Err(ParseError::InvalidDisplayName { index });
    }
    if !valid_executable_path(executable_path) {
        return Err(ParseError::InvalidExecutablePath { index });
    }
    Ok(())
}

/// Why the lengths of the fields are not valid.
pub open spec fn lengths_error(
    index: usize,
    app_id: int,
    display_name: int,
    executable_path: int,
) -> Option<ParseError> {
    if app_id > MAX_APP_ID_LEN {
        Some(
            ParseError::FieldTooLong {
                index,
                field: Field::AppId,
                length: app_id as usize,
                maximum: MAX_APP_ID_LEN,
            },
        )
    } else if display_name > MAX_DISPLAY_NAME_LEN {
        Some(
            ParseError::FieldTooLong {
                index,
                field: Field::DisplayName,
                length: display_name as usize,
                maximum: MAX_DISPLAY_NAME_LEN,
            },
        )
    } else if executable_path > MAX_EXECUTABLE_PATH_LEN {
        Some(
            ParseError::FieldTooLong {
                index,
                field: Field::ExecutablePath,
                length: executable_path as usize,
                maximum: MAX_EXECUTABLE_PATH_LEN,
            },
        )
    } else {
        None
    }
}

/// Checks the lengths of the fields of an entry.
pub fn check_lengths(index: usize, app_id: usize, display_name: usize, executable_path: usize) -> (result:
    Result<(), ParseError>)
    ensures
        result == (match lengths_error(
            index,
            app_id as int,
            display_name as int,
            executable_path as int,
        ) {
            Some(error) => Err(error),
            None => Ok(()),
        }),
{
    match check_length(index, Field::AppId, app_id, MAX_APP_ID_LEN) {
        Err(error) => {
            return Err(error);
        },
        Ok(()) => {},
    }
    match check_length(index, Field::DisplayName, display_name, MAX_DISPLAY_NAME_LEN) {
        Err(error) => {
            return Err(error);
        },
        Ok(()) => {},
    }
    check_length(index, Field::ExecutablePath, executable_path, MAX_EXECUTABLE_PATH_LEN)
}

/// Checks the length of a field.
pub fn check_length(index: usize, field: Field, length: usize, maximum: usize) -> (result: Result<
    (),
    ParseError,
>)
    ensures
        result == (if length > maximum {
            Err(ParseError::FieldTooLong { index, field, length, maximum })
        } else {
            Ok(())
        }),
{
    if length > maximum {
        Err(ParseError::FieldTooLong { index, field, length, maximum })
    } else {
        Ok(())
    }
}

} // verus!
