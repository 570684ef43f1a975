//! Where the fields of a registry stand, and which fields and headers are refused.
use vstd::prelude::*;

use crate::text::{part, plain_parts};

use super::entry::{
    app_id_ok, fields_error, lengths_error, path_ok, EntryModel, Field, ParseError,
};
use super::parsing::{
    cursor_of, entry_count, entry_error, first_error, models, repeats_id, structure_error,
};

verus! {

/// Where a registry holds what it says: a header of twelve bytes, and then the entries, each
/// right behind the one before it, up to the end. Every entry has the lengths of its three
/// texts and its flags in front, two bytes each, and then the texts in the same order.
pub proof fn law_registries_hold_their_entries_in_a_row(bytes: Seq<u8>, index: nat)
    requires
        structure_error(bytes) is None,
        index < entry_count(bytes),
    ensures
        bytes.subrange(0, 4) == seq![0x47u8, 0x4b, 0x52, 0],
        bytes[4] == 1 && bytes[5] == 0,
        bytes[6] == 0 && bytes[7] == 0,
        entry_count(bytes) == bytes[8] + 0x100 * bytes[9] + 0x1_0000 * bytes[10] + 0x100_0000
            * bytes[11],
        entry_count(bytes) <= 1024,
        cursor_of(bytes, 0) == 12,
        models(bytes).len() == entry_count(bytes),
        ({
            let at = cursor_of(bytes, index);
            let id = bytes[at] + 256 * bytes[at + 1];
            let name = bytes[at + 2] + 256 * bytes[at + 3];
            let path = bytes[at + 4] + 256 * bytes[at + 5];
            let end = at + 8 + id + name + path;
            let entry = models(bytes)[index as int];
            &&& 12 <= at
            &&& end <= bytes.len()
            &&& id <= 255 && name <= 255 && path <= 4096
            &&& bytes[at + 6] <= 1 && bytes[at + 7] == 0
            &&& entry.flags == bytes[at + 6]
            &&& entry.app_id == bytes.subrange(at + 8, at + 8 + id)
            &&& entry.display_name == bytes.subrange(at + 8 + id, at + 8 + id + name)
            &&& entry.executable_path == bytes.subrange(at + 8 + id + name, end)
            &&& index + 1 < entry_count(bytes) ==> cursor_of(bytes, index + 1) == end
            &&& index + 1 == entry_count(bytes) ==> bytes.len() == end
        }),
{
    assert(bytes.subrange(0, 4) =~= seq![0x47u8, 0x4b, 0x52, 0]);
    lemma_entries_are_good(bytes, entry_count(bytes) as nat, index);
}

/// Every entry of an accepted registry is good.
proof fn lemma_entries_are_good(bytes: Seq<u8>, count: nat, index: nat)
    requires
        first_error(bytes, count) is None,
        index < count,
    ensures
        entry_error(bytes, cursor_of(bytes, index), index as usize) is None,
        cursor_of(bytes, index) >= 12,
    decreases count,
{
    if index + 1 < count {
        lemma_entries_are_good(bytes, (count - 1) as nat, index);
    }
    if index > 0 {
        lemma_entries_are_good(bytes, (count - 1) as nat, (index - 1) as nat);
    }
}

/// How a registry's header is refused, by the first thing that is wrong with it.
pub proof fn law_bad_headers_are_named(bytes: Seq<u8>)
    ensures
        bytes.len() < 12 ==> structure_error(bytes) == Some(ParseError::TruncatedHeader),
        bytes.len() >= 12 ==> {
            let magic = bytes[0] == 0x47 && bytes[1] == 0x4b && bytes[2] == 0x52 && bytes[3] == 0;
            let version = bytes[4] + 256 * bytes[5];
            let flags = bytes[6] + 256 * bytes[7];
            let count = bytes[8] + 0x100 * bytes[9] + 0x1_0000 * bytes[10] + 0x100_0000
                * bytes[11];
            &&& !magic ==> structure_error(bytes) == Some(ParseError::BadMagic)
            &&& magic && version != 1 ==> structure_error(bytes) == Some(
                ParseError::UnsupportedVersion(version as u16),
            )
            &&& magic && version == 1 && flags != 0 ==> structure_error(bytes) == Some(
                ParseError::UnknownHeaderFlags(flags as u16),
            )
            &&& magic && version == 1 && flags == 0 && count > 1024 ==> structure_error(bytes)
                == Some(ParseError::TooManyEntries { count: count as u32, maximum: 1024 })
            &&& magic && version == 1 && flags == 0 && count == 0 && bytes.len() == 12
                ==> structure_error(bytes) is None
        },
{
}

/// Which of an entry's texts is too long, and by which limit.
pub proof fn law_long_fields_are_named(index: usize, id: usize, name: usize, path: usize)
    ensures
        ({
            let error = lengths_error(index, id as int, name as int, path as int);
            &&& id > 255 ==> error == Some(
                ParseError::FieldTooLong { index, field: Field::AppId, length: id, maximum: 255 },
            )
            &&& id <= 255 && name > 255 ==> error == Some(
                ParseError::FieldTooLong {
                    index,
                    field: Field::DisplayName,
                    length: name,
                    maximum: 255,
                },
            )
            &&& id <= 255 && name <= 255 && path > 4096 ==> error == Some(
                ParseError::FieldTooLong {
                    index,
                    field: Field::ExecutablePath,
                    length: path,
                    maximum: 4096,
                },
            )
            &&& id <= 255 && name <= 255 && path <= 4096 ==> error is None
        }),
{
}

/// An entry is named by the first of its texts that is not valid: the identifier, the name
/// that is shown, the path.
pub proof fn law_invalid_fields_are_named_in_order(
    index: usize,
    id: Seq<u8>,
    name: Seq<u8>,
    path: Seq<u8>,
)
    ensures
        ({
            let error = fields_error(index, id, name, path);
            &&& error matches Some(ParseError::InvalidAppId { index: at }) ==> at == index
                && !app_id_ok(id)
            &&& !app_id_ok(id) ==> error == Some(ParseError::InvalidAppId { index })
            &&& app_id_ok(id) && name.len() > 255 ==> error == Some(
                ParseError::InvalidDisplayName { index },
            )
            &&& error is None ==> app_id_ok(id) && name.len() <= 255 && path_ok(path)
            &&& error == Some(ParseError::InvalidExecutablePath { index }) ==> app_id_ok(id)
                && !path_ok(path)
        }),
{
}

/// Where the part around a byte begins.
spec fn part_start(bytes: Seq<u8>, separator: u8, at: int) -> int
    decreases at,
{
    if at <= 0 || bytes[at - 1] == separator {
        at
    } else {
        part_start(bytes, separator, at - 1)
    }
}

/// Where the part around a byte ends.
spec fn part_end(bytes: Seq<u8>, separator: u8, at: int) -> int
    decreases bytes.len() - at,
{
    if at >= bytes.len() || bytes[at] == separator {
        at
    } else {
        part_end(bytes, separator, at + 1)
    }
}

/// Every byte that does not separate lies in a part.
proof fn lemma_part_around(bytes: Seq<u8>, separator: u8, at: int)
    requires
        0 <= at < bytes.len(),
        bytes[at] != separator,
    ensures
        ({
            let from = part_start(bytes, separator, at);
            let to = part_end(bytes, separator, at);
            part(bytes, separator, from, to) && from <= at < to
        }),
{
    lemma_part_start(bytes, separator, at);
    lemma_part_end(bytes, separator, at);
    let from = part_start(bytes, separator, at);
    let to = part_end(bytes, separator, at);
    assert forall|i: int| from <= i < to implies #[trigger] bytes[i] != separator by {
        if i > at {
            assert(at <= i < to);
        }
    }
}

/// What lies between a byte and the beginning of its part.
proof fn lemma_part_start(bytes: Seq<u8>, separator: u8, at: int)
    requires
        0 <= at < bytes.len(),
        bytes[at] != separator,
    ensures
        ({
            let from = part_start(bytes, separator, at);
            &&& 0 <= from <= at
            &&& from == 0 || bytes[from - 1] == separator
            &&& forall|i: int| from <= i <= at ==> #[trigger] bytes[i] != separator
        }),
    decreases at,
{
    if at > 0 && bytes[at - 1] != separator {
        lemma_part_start(bytes, separator, at - 1);
    }
}

/// What lies between a byte and the end of its part.
proof fn lemma_part_end(bytes: Seq<u8>, separator: u8, at: int)
    requires
        0 <= at <= bytes.len(),
    ensures
        ({
            let to = part_end(bytes, separator, at);
            &&& at <= to <= bytes.len()
            &&& to == bytes.len() || bytes[to] == separator
            &&& forall|i: int| at <= i < to ==> #[trigger] bytes[i] != separator
            &&& at < bytes.len() && bytes[at] != separator ==> at < to
        }),
    decreases bytes.len() - at,
{
    if at < bytes.len() && bytes[at] != separator {
        lemma_part_end(bytes, separator, at + 1);
    }
}

/// An identifier is made of lower-case letters, digits, dots and hyphens; it and what follows
/// a dot begin with a letter, and no hyphen stands before a dot or at the end.
pub proof fn law_identifiers_are_dotted_words(bytes: Seq<u8>, at: int)
    requires
        app_id_ok(bytes),
        0 <= at < bytes.len(),
    ensures
        bytes.len() <= 255,
        0x61 <= bytes[at] <= 0x7a || 0x30 <= bytes[at] <= 0x39 || bytes[at] == 0x2d || bytes[at]
            == 0x2e,
        0x61 <= bytes[0] <= 0x7a,
        bytes.last() != 0x2e && bytes.last() != 0x2d,
        bytes[at] == 0x2e ==> at + 1 < bytes.len() && 0x61 <= bytes[at + 1] <= 0x7a && bytes[at - 1]
            != 0x2d,
{
    if bytes[at] != 0x2e {
        lemma_part_around(bytes, 0x2e, at);
    } else {
        lemma_part_end(bytes, 0x2e, at + 1);
        assert(part(bytes, 0x2e, at + 1, part_end(bytes, 0x2e, at + 1)));
        if at == 0 {
            assert(part(bytes, 0x2e, 0, 0));
        } else if bytes[at - 1] == 0x2d {
            lemma_part_around(bytes, 0x2e, at - 1);
            assert(part_end(bytes, 0x2e, at - 1) == at) by {
                lemma_part_end(bytes, 0x2e, at - 1);
                if part_end(bytes, 0x2e, at - 1) > at {
                    assert(bytes[at] != 0x2e);
                }
            }
        }
    }
    lemma_part_end(bytes, 0x2e, 0);
    assert(part(bytes, 0x2e, 0, part_end(bytes, 0x2e, 0)));
    let last = bytes.len() - 1;
    if bytes[last] == 0x2e {
        assert(part(bytes, 0x2e, last + 1, last + 1));
    } else {
        lemma_part_around(bytes, 0x2e, last);
        assert(part_end(bytes, 0x2e, last) == last + 1);
    }
}

/// No identifier is empty.
pub proof fn law_identifiers_are_not_empty(bytes: Seq<u8>)
    requires
        app_id_ok(bytes),
    ensures
        bytes.len() > 0,
{
    if bytes.len() == 0 {
        assert(part(bytes, 0x2e, 0, 0));
    }
}

/// No part of an identifier is longer than a label may be.
pub proof fn law_identifier_words_are_short(bytes: Seq<u8>, from: int, to: int)
    requires
        app_id_ok(bytes),
        part(bytes, 0x2e, from, to),
    ensures
        1 <= to - from <= 63,
{
}

/// The path of an executable is absolute and names something at every step: no two slashes
/// follow each other, none ends it, no step is one or two dots, and no backslash occurs.
pub proof fn law_paths_are_absolute_and_plain(bytes: Seq<u8>, at: int)
    requires
        path_ok(bytes),
        0 <= at < bytes.len(),
    ensures
        2 <= bytes.len() <= 4096,
        bytes[0] == 0x2f,
        bytes[at] != 0x5c,
        bytes[at] == 0x2f ==> at + 1 < bytes.len() && bytes[at + 1] != 0x2f,
        bytes[at] == 0x2f && bytes[at + 1] == 0x2e ==> at + 2 < bytes.len() && bytes[at + 2]
            != 0x2f,
        bytes[at] == 0x2f && bytes[at + 1] == 0x2e && bytes[at + 2] == 0x2e ==> at + 3
            < bytes.len() && bytes[at + 3] != 0x2f,
{
    assert(bytes.contains(bytes[at]));
    let rest = bytes.skip(1);
    assert forall|i: int| 0 <= i < rest.len() implies #[trigger] rest[i] == bytes[i + 1] by {}
    if bytes[at] == 0x2f {
        lemma_step_is_plain(rest, at);
    }
}

/// What begins behind a slash is a step that names something.
proof fn lemma_step_is_plain(rest: Seq<u8>, from: int)
    requires
        plain_parts(rest),
        0 <= from <= rest.len(),
        from == 0 || rest[from - 1] == 0x2f,
    ensures
        from < rest.len() && rest[from] != 0x2f,
        rest[from] == 0x2e ==> from + 1 < rest.len() && rest[from + 1] != 0x2f,
        rest[from] == 0x2e && rest[from + 1] == 0x2e ==> from + 2 < rest.len() && rest[from + 2]
            != 0x2f,
{
    lemma_part_end(rest, 0x2f, from);
    let to = part_end(rest, 0x2f, from);
    assert(part(rest, 0x2f, from, to));
}

/// The first identifier that repeats is named, with the entry that it repeats.
pub proof fn law_repeated_identifiers_are_named(
    entries: Seq<EntryModel>,
    first: int,
    duplicate: int,
    i: int,
    j: int,
)
    requires
        repeats_id(entries, first, duplicate),
    ensures
        0 <= first < duplicate < entries.len(),
        entries[first].app_id == entries[duplicate].app_id,
        0 <= i < j < entries.len() && entries[i].app_id == entries[j].app_id ==> duplicate <= j,
{
}

} // verus!
