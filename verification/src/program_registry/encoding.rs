//! Writing a registry.
use vstd::prelude::*;
use vstd::utf8::{encode_utf8, valid_utf8};

use crate::bytes::{le16_at, le32_at, le_bytes};
use crate::text::{lemma_text_of_bytes, same_bytes};

use super::entry::{
    check_lengths, fields_error, lengths_error, validate_entry, EntryFlags, EntryModel, ParseError,
    MAX_ENTRIES, VERSION,
};
use super::parsing::{
    cursor_of, entry_end, entry_error, entry_model, first_error, id_len, lemma_cursor, magic_ok, models, name_len,
    path_len, unique_ids, valid_registry,
};

verus! {

/// An entry to write.
#[derive(Clone, Copy, Debug, PartialEq, Eq)]
pub struct EncodeEntry<'a> {
    pub app_id: &'a str,
    pub display_name: &'a str,
    pub executable_path: &'a str,
    pub flags: EntryFlags,
}

impl EncodeEntry<'_> {
    /// What this entry holds.
    pub open spec fn model(self) -> EntryModel {
        EntryModel {
            app_id: encode_utf8(self.app_id@),
            display_name: encode_utf8(self.display_name@),
            executable_path: encode_utf8(self.executable_path@),
            flags: self.flags.raw(),
        }
    }
}

/// What the entries hold.
pub open spec fn contents(entries: Seq<EncodeEntry<'_>>) -> Seq<EntryModel> {
    Seq::new(entries.len(), |i: int| entries[i].model())
}

/// Why entry `index` cannot be written after the ones before it.
pub open spec fn write_error(entries: Seq<EntryModel>, index: int) -> Option<ParseError> {
    let entry = entries[index];
    let lengths = lengths_error(
        index as usize,
        entry.app_id.len() as int,
        entry.display_name.len() as int,
        entry.executable_path.len() as int,
    );
    let fields = fields_error(
        index as usize,
        entry.app_id,
        entry.display_name,
        entry.executable_path,
    );
    if lengths is Some {
        lengths
    } else if fields is Some {
        fields
    } else if exists|first: int| 0 <= first < index && entries[first].app_id == entry.app_id {
        let first = choose|first: int| 0 <= first < index && entries[first].app_id == entry.app_id;
        Some(
            ParseError::DuplicateAppId {
                first_index: first as usize,
                duplicate_index: index as usize,
            },
        )
    } else {
        None
    }
}

/// The first reason why one of the first `count` entries cannot be written.
pub open spec fn first_write_error(entries: Seq<EntryModel>, count: nat) -> Option<ParseError>
    decreases count,
{
    if count == 0 {
        None
    } else {
        match first_write_error(entries, (count - 1) as nat) {
            Some(error) => Some(error),
            None => write_error(entries, count - 1),
        }
    }
}

/// An entry as it stands in a file.
pub open spec fn entry_bytes(entry: EntryModel) -> Seq<u8> {
    le_bytes(entry.app_id.len() as int, 2) + le_bytes(entry.display_name.len() as int, 2)
        + le_bytes(entry.executable_path.len() as int, 2) + le_bytes(entry.flags as int, 2)
        + entry.app_id + entry.display_name + entry.executable_path
}

/// The first `count` entries as they stand in a file.
pub open spec fn body(entries: Seq<EntryModel>, count: nat) -> Seq<u8>
    decreases count,
{
    if count == 0 {
        Seq::empty()
    } else {
        body(entries, (count - 1) as nat) + entry_bytes(entries[count - 1])
    }
}

/// The header of a registry.
pub open spec fn header(count: int) -> Seq<u8> {
    seq![0x47u8, 0x4bu8, 0x52u8, 0u8] + le_bytes(1, 2) + le_bytes(0, 2) + le_bytes(count, 4)
}

/// A registry as it stands in a file.
pub open spec fn encoded(entries: Seq<EntryModel>) -> Seq<u8> {
    header(entries.len() as int) + body(entries, entries.len())
}

/// Appends a little-endian `u16`.
fn push_u16(output: &mut Vec<u8>, value: u16)
    ensures
        final(output)@ == old(output)@ + le_bytes(value as int, 2),
{
    output.push((value % 256) as u8);
    output.push((value / 256) as u8);
    assert(output@ =~= old(output)@ + le_bytes(value as int, 2));
}

/// Appends bytes.
fn push_bytes(output: &mut Vec<u8>, bytes: &[u8])
    ensures
        final(output)@ == old(output)@ + bytes@,
{
    let mut index: usize = 0;
    while index < bytes.len()
        invariant
            index <= bytes@.len(),
            output@ == old(output)@ + bytes@.take(index as int),
        decreases bytes@.len() - index,
    {
        output.push(bytes[index]);
        index += 1;
        assert(output@ =~= old(output)@ + bytes@.take(index as int));
    }
    assert(bytes@.take(index as int) =~= bytes@);
}

/// The first error stays the first error of more entries.
proof fn lemma_first_write_error_stays(entries: Seq<EntryModel>, short: nat, long: nat)
    requires
        short <= long,
        first_write_error(entries, short) is Some,
    ensures
        first_write_error(entries, long) == first_write_error(entries, short),
    decreases long,
{
    if short < long {
        lemma_first_write_error_stays(entries, short, (long - 1) as nat);
    }
}

/// Entries that can be written have different app identifiers.
proof fn lemma_written_ids_differ(entries: Seq<EntryModel>, count: nat)
    requires
        first_write_error(entries, count) is None,
        count <= entries.len(),
    ensures
        unique_ids(entries, count as int),
        forall|i: int| 0 <= i < count ==> #[trigger] write_error(entries, i) is None,
    decreases count,
{
    if count > 0 {
        lemma_written_ids_differ(entries, (count - 1) as nat);
        assert(write_error(entries, count - 1) is None);
        assert forall|i: int, j: int| 0 <= i < j < count implies (#[trigger] entries[i]).app_id != (
        #[trigger] entries[j]).app_id by {
            if j == count - 1 {
                assert(!(0 <= i < j && entries[i].app_id == entries[j].app_id));
            }
        }
    }
}

/// Writes a registry.
pub fn encode(entries: &[EncodeEntry<'_>]) -> (result: Result<Vec<u8>, ParseError>)
    ensures
        if entries@.len() > MAX_ENTRIES {
            result matches Err(error) && error == (ParseError::TooManyEntries {
                count: if entries@.len() > u32::MAX {
                    u32::MAX
                } else {
                    entries@.len() as u32
                },
                maximum: MAX_ENTRIES,
            })
        } else {
            match first_write_error(contents(entries@), entries@.len()) {
                Some(error) => result matches Err(found) && found == error,
                None => {
                    &&& result matches Ok(output)
                    &&& output@ == encoded(contents(entries@))
                    &&& valid_registry(output@)
                    &&& models(output@) == contents(entries@)
                },
            }
        },
{
    if entries.len() > MAX_ENTRIES as usize {
        let count: u32 = if entries.len() > 0xffff_ffff {
            u32::MAX
        } else {
            entries.len() as u32
        };
        return Err(ParseError::TooManyEntries { count, maximum: MAX_ENTRIES });
    }
    let ghost all = contents(entries@);
    let mut output: Vec<u8> = Vec::new();
    output.push(0x47);
    output.push(0x4b);
    output.push(0x52);
    output.push(0);
    assert(output@ =~= seq![0x47u8, 0x4bu8, 0x52u8, 0u8]);
    push_u16(&mut output, VERSION);
    push_u16(&mut output, 0);
    let count: u16 = entries.len() as u16;
    output.push((count % 256) as u8);
    output.push((count / 256) as u8);
    output.push(0);
    output.push(0);
    assert(output@ =~= header(entries@.len() as int));
    let mut index: usize = 0;
    while index < entries.len()
        invariant
            index <= entries@.len() <= MAX_ENTRIES,
            all == contents(entries@),
            first_write_error(all, index as nat) is None,
            output@ == header(entries@.len() as int) + body(all, index as nat),
            forall|i: int| 0 <= i < index ==> (#[trigger] all[i]).flags <= 1,
        decreases entries@.len() - index,
    {
        let entry: EncodeEntry<'_> = entries[index];
        assert(all[index as int] == entry.model());
        let app_id: &[u8] = entry.app_id.as_bytes();
        let display_name: &[u8] = entry.display_name.as_bytes();
        let executable_path: &[u8] = entry.executable_path.as_bytes();
        match check_lengths(index, app_id.len(), display_name.len(), executable_path.len()) {
            Err(error) => {
                proof {
                    lemma_first_write_error_stays(all, (index + 1) as nat, entries@.len());
                }
                return Err(error);
            },
            Ok(()) => {},
        }
        match validate_entry(index, entry.app_id, entry.display_name, entry.executable_path) {
            Err(error) => {
                proof {
                    lemma_first_write_error_stays(all, (index + 1) as nat, entries@.len());
                }
                return Err(error);
            },
            Ok(()) => {},
        }
        let mut first: usize = 0;
        while first < index
            invariant
                first <= index < entries@.len() <= MAX_ENTRIES,
                all == contents(entries@),
                first_write_error(all, index as nat) is None,
                entry == entries@[index as int],
                app_id@ == all[index as int].app_id,
                lengths_error(
                    index,
                    all[index as int].app_id.len() as int,
                    all[index as int].display_name.len() as int,
                    all[index as int].executable_path.len() as int,
                ) is None,
                fields_error(
                    index,
                    all[index as int].app_id,
                    all[index as int].display_name,
                    all[index as int].executable_path,
                ) is None,
                forall|i: int|
                    0 <= i < first ==> (#[trigger] all[i]).app_id != all[index as int].app_id,
            decreases index - first,
        {
            assert(all[first as int] == entries@[first as int].model());
            if same_bytes(entries[first].app_id.as_bytes(), app_id) {
                proof {
                    lemma_written_ids_differ(all, index as nat);
                    let found = choose|i: int|
                        0 <= i < index && all[i].app_id == all[index as int].app_id;
                    assert(all[first as int].app_id == all[index as int].app_id);
                    assert(found == first) by {
                        if found < first {
                            assert(all[found].app_id != all[first as int].app_id);
                        }
                        if first < found {
                            assert(all[first as int].app_id != all[found].app_id);
                        }
                    }
                    lemma_first_write_error_stays(all, (index + 1) as nat, entries@.len());
                }
                return Err(
                    ParseError::DuplicateAppId { first_index: first, duplicate_index: index },
                );
            }
            first += 1;
        }
        let ghost before = output@;
        push_u16(&mut output, app_id.len() as u16);
        push_u16(&mut output, display_name.len() as u16);
        push_u16(&mut output, executable_path.len() as u16);
        push_u16(&mut output, entry.flags.bits());
        push_bytes(&mut output, app_id);
        push_bytes(&mut output, display_name);
        push_bytes(&mut output, executable_path);
        assert(output@ =~= before + entry_bytes(all[index as int]));
        index += 1;
        assert(output@ =~= header(entries@.len() as int) + body(all, index as nat));
    }
    proof {
        assert forall|i: int| 0 <= i < all.len() implies {
            let entry = #[trigger] all[i];
            valid_utf8(entry.app_id) && valid_utf8(entry.display_name) && valid_utf8(
                entry.executable_path,
            )
        } by {
            lemma_text_of_bytes(entries@[i].app_id);
            lemma_text_of_bytes(entries@[i].display_name);
            lemma_text_of_bytes(entries@[i].executable_path);
        }
        law_encoding_round_trip(all);
    }
    Ok(output)
}

/// Two bytes of a little-endian number.
proof fn lemma_two_bytes(value: int)
    requires
        0 <= value < 0x1_0000,
    ensures
        le_bytes(value, 2)[0] + 0x100 * le_bytes(value, 2)[1] == value,
{
}

/// An entry that stands somewhere in a file is read as it was written.
proof fn lemma_entry_is_read(before: Seq<u8>, entry: EntryModel, after: Seq<u8>)
    requires
        entry.app_id.len() <= 255,
        entry.display_name.len() <= 255,
        entry.executable_path.len() <= 4096,
    ensures
        ({
            let bytes = before + entry_bytes(entry) + after;
            let cursor = before.len() as int;
            &&& entry_model(bytes, cursor) == entry
            &&& entry_end(bytes, cursor) == cursor + entry_bytes(entry).len()
            &&& id_len(bytes, cursor) == entry.app_id.len()
            &&& name_len(bytes, cursor) == entry.display_name.len()
            &&& path_len(bytes, cursor) == entry.executable_path.len()
        }),
{
    let bytes = before + entry_bytes(entry) + after;
    let cursor = before.len() as int;
    let middle = entry_bytes(entry);
    lemma_two_bytes(entry.app_id.len() as int);
    lemma_two_bytes(entry.display_name.len() as int);
    lemma_two_bytes(entry.executable_path.len() as int);
    lemma_two_bytes(entry.flags as int);
    assert(forall|i: int| 0 <= i < middle.len() ==> #[trigger] bytes[cursor + i] == middle[i]);
    assert(bytes[cursor + 0] == middle[0]);
    assert(bytes[cursor + 1] == middle[1]);
    assert(bytes[cursor + 2] == middle[2]);
    assert(bytes[cursor + 3] == middle[3]);
    assert(bytes[cursor + 4] == middle[4]);
    assert(bytes[cursor + 5] == middle[5]);
    assert(bytes[cursor + 6] == middle[6]);
    assert(bytes[cursor + 7] == middle[7]);
    assert(middle[0] == le_bytes(entry.app_id.len() as int, 2)[0]);
    assert(middle[1] == le_bytes(entry.app_id.len() as int, 2)[1]);
    assert(middle[2] == le_bytes(entry.display_name.len() as int, 2)[0]);
    assert(middle[3] == le_bytes(entry.display_name.len() as int, 2)[1]);
    assert(middle[4] == le_bytes(entry.executable_path.len() as int, 2)[0]);
    assert(middle[5] == le_bytes(entry.executable_path.len() as int, 2)[1]);
    assert(middle[6] == le_bytes(entry.flags as int, 2)[0]);
    assert(middle[7] == le_bytes(entry.flags as int, 2)[1]);
    let read = entry_model(bytes, cursor);
    assert(read.app_id =~= entry.app_id);
    assert(read.display_name =~= entry.display_name);
    assert(read.executable_path =~= entry.executable_path);
    assert(read.flags == entry.flags);
}

/// The first entries of a file are the beginning of all of them.
proof fn lemma_body_begins(entries: Seq<EntryModel>, short: nat, long: nat)
    requires
        short <= long,
    ensures
        body(entries, short).is_prefix_of(body(entries, long)),
    decreases long,
{
    if short < long {
        lemma_body_begins(entries, short, (long - 1) as nat);
        let middle = body(entries, (long - 1) as nat);
        assert forall|i: int| 0 <= i < body(entries, short).len() implies body(entries, short)[i]
            == body(entries, long)[i] by {
            assert(middle[i] == body(entries, short)[i]);
        }
        assert(body(entries, short) =~= body(entries, long).subrange(
            0,
            body(entries, short).len() as int,
        ));
    } else {
        assert(body(entries, short) =~= body(entries, short).subrange(
            0,
            body(entries, short).len() as int,
        ));
    }
}

/// The first entries of a written file are read without error.
proof fn lemma_entries_are_read(entries: Seq<EntryModel>, count: nat)
    requires
        entries.len() <= MAX_ENTRIES,
        first_write_error(entries, entries.len()) is None,
        count <= entries.len(),
        forall|i: int|
            0 <= i < entries.len() ==> {
                let entry = #[trigger] entries[i];
                valid_utf8(entry.app_id) && valid_utf8(entry.display_name) && valid_utf8(
                    entry.executable_path,
                ) && entry.flags <= 1
            },
    ensures
        first_error(encoded(entries), count) is None,
        cursor_of(encoded(entries), count) == 12 + body(entries, count).len(),
        count < entries.len() ==> entry_model(encoded(entries), cursor_of(encoded(entries), count))
            == entries[count as int],
    decreases count,
{
    let bytes = encoded(entries);
    lemma_written_ids_differ(entries, entries.len());
    if count > 0 {
        lemma_entries_are_read(entries, (count - 1) as nat);
        let index = count - 1;
        lemma_slot(entries, index as nat);
        assert(write_error(entries, index) is None);
        let entry = entries[index];
        let cursor = cursor_of(bytes, index as nat);
        assert(entry_model(bytes, cursor) == entry);
        assert(entry_end(bytes, cursor) == cursor + entry_bytes(entry).len());
        lemma_body_begins(entries, count, entries.len());
        assert(entry_end(bytes, cursor) <= bytes.len());
        assert(entry_error(bytes, cursor, index as usize) is None);
    }
    if count < entries.len() {
        lemma_slot(entries, count);
    }
}

/// What stands in a written file where entry `index` belongs.
proof fn lemma_slot(entries: Seq<EntryModel>, index: nat)
    requires
        index < entries.len(),
        first_write_error(entries, entries.len()) is None,
    ensures
        ({
            let bytes = encoded(entries);
            let cursor = 12 + body(entries, index).len();
            let entry = entries[index as int];
            &&& entry_model(bytes, cursor as int) == entry
            &&& entry_end(bytes, cursor as int) == cursor + entry_bytes(entry).len()
            &&& id_len(bytes, cursor as int) == entry.app_id.len()
            &&& name_len(bytes, cursor as int) == entry.display_name.len()
            &&& path_len(bytes, cursor as int) == entry.executable_path.len()
            &&& cursor + entry_bytes(entry).len() <= bytes.len()
        }),
{
    let bytes = encoded(entries);
    let before = header(entries.len() as int) + body(entries, index);
    let entry = entries[index as int];
    let all = body(entries, entries.len());
    let until = body(entries, index + 1);
    let after = all.skip(until.len() as int);
    assert(until == body(entries, index) + entry_bytes(entry));
    assert(all == until + after) by {
        lemma_body_begins(entries, index + 1, entries.len());
        assert(all =~= until + after);
    }
    lemma_splice(header(entries.len() as int), body(entries, index), entry_bytes(entry), after);
    assert(before.len() == 12 + body(entries, index).len());
    lemma_written_lengths(entries, index as int);
    lemma_entry_is_read(before, entry, after);
}

/// Concatenation may be grouped either way.
proof fn lemma_splice(first: Seq<u8>, second: Seq<u8>, third: Seq<u8>, fourth: Seq<u8>)
    ensures
        first + (second + third + fourth) == (first + second) + third + fourth,
{
    assert(first + (second + third + fourth) =~= (first + second) + third + fourth);
}

/// Entries that can be written are short enough.
proof fn lemma_written_lengths(entries: Seq<EntryModel>, index: int)
    requires
        0 <= index < entries.len(),
        first_write_error(entries, entries.len()) is None,
    ensures
        entries[index].app_id.len() <= 255,
        entries[index].display_name.len() <= 255,
        entries[index].executable_path.len() <= 4096,
{
    lemma_written_ids_differ(entries, entries.len());
    assert(write_error(entries, index) is None);
}

/// Entries that can be written: they are not too many, none has an error, and they hold text
/// and known flags.
pub open spec fn writable(entries: Seq<EntryModel>) -> bool {
    &&& entries.len() <= MAX_ENTRIES
    &&& first_write_error(entries, entries.len()) is None
    &&& forall|i: int|
        0 <= i < entries.len() ==> {
            let entry = #[trigger] entries[i];
            valid_utf8(entry.app_id) && valid_utf8(entry.display_name) && valid_utf8(
                entry.executable_path,
            ) && entry.flags <= 1
        }
}

/// Reading what was written gives back the entries.
pub proof fn law_encoding_round_trip(entries: Seq<EntryModel>)
    requires
        writable(entries),
    ensures
        valid_registry(encoded(entries)),
        models(encoded(entries)) == entries,
{
    let bytes = encoded(entries);
    let count = entries.len() as int;
    let head = header(count);
    assert(head.len() == 12);
    assert(forall|i: int| 0 <= i < 12 ==> #[trigger] bytes[i] == head[i]);
    assert(head[4] == le_bytes(1, 2)[0] && head[5] == le_bytes(1, 2)[1]);
    assert(head[6] == le_bytes(0, 2)[0] && head[7] == le_bytes(0, 2)[1]);
    assert(head[8] == le_bytes(count, 4)[0] && head[9] == le_bytes(count, 4)[1] && head[10]
        == le_bytes(count, 4)[2] && head[11] == le_bytes(count, 4)[3]);
    assert(magic_ok(bytes));
    assert(le16_at(bytes, 4) == 1);
    assert(le16_at(bytes, 6) == 0);
    assert(le32_at(bytes, 8) == count);
    lemma_entries_are_read(entries, entries.len());
    lemma_written_ids_differ(entries, entries.len());
    assert forall|i: int| 0 <= i < count implies models(bytes)[i] == entries[i] by {
        lemma_entries_are_read(entries, i as nat);
    }
    assert(models(bytes) =~= entries);
}

/// Two bytes are the little-endian form of the number that they hold.
proof fn lemma_number_of_two(bytes: Seq<u8>, at: int)
    requires
        0 <= at,
        at + 2 <= bytes.len(),
    ensures
        le_bytes(le16_at(bytes, at), 2) == bytes.subrange(at, at + 2),
{
    let low = bytes[at] as int;
    let high = bytes[at + 1] as int;
    assert((low + 0x100 * high) % 256 == low);
    assert((low + 0x100 * high) / 256 == high);
    assert(le_bytes(le16_at(bytes, at), 2) =~= bytes.subrange(at, at + 2));
}

/// Four bytes are the little-endian form of the number that they hold.
proof fn lemma_number_of_four(bytes: Seq<u8>, at: int)
    requires
        0 <= at,
        at + 4 <= bytes.len(),
    ensures
        le_bytes(le32_at(bytes, at), 4) == bytes.subrange(at, at + 4),
{
    let b0 = bytes[at] as int;
    let b1 = bytes[at + 1] as int;
    let b2 = bytes[at + 2] as int;
    let b3 = bytes[at + 3] as int;
    let value = b0 + 0x100 * b1 + 0x1_0000 * b2 + 0x100_0000 * b3;
    assert(value == le32_at(bytes, at));
    assert(value / 0x100 == b1 + 0x100 * b2 + 0x1_0000 * b3);
    assert(value / 0x1_0000 == b2 + 0x100 * b3);
    assert(value / 0x100_0000 == b3);
    assert(le_bytes(value, 4) =~= bytes.subrange(at, at + 4));
}

/// A valid entry stands in a file as it would be written.
proof fn lemma_entry_is_written(bytes: Seq<u8>, cursor: int, index: usize)
    requires
        0 <= cursor,
        entry_error(bytes, cursor, index) is None,
    ensures
        entry_bytes(entry_model(bytes, cursor)) == bytes.subrange(
            cursor,
            entry_end(bytes, cursor),
        ),
{
    lemma_number_of_two(bytes, cursor);
    lemma_number_of_two(bytes, cursor + 2);
    lemma_number_of_two(bytes, cursor + 4);
    lemma_number_of_two(bytes, cursor + 6);
    let entry = entry_model(bytes, cursor);
    assert(entry.app_id.len() == id_len(bytes, cursor));
    assert(entry.display_name.len() == name_len(bytes, cursor));
    assert(entry.executable_path.len() == path_len(bytes, cursor));
    assert(entry.flags as int == le16_at(bytes, cursor + 6));
    assert(entry_bytes(entry) =~= bytes.subrange(cursor, entry_end(bytes, cursor)));
}

/// The first entries of a valid registry stand there as they would be written.
proof fn lemma_body_is_written(bytes: Seq<u8>, count: nat)
    requires
        valid_registry(bytes),
        count <= models(bytes).len(),
    ensures
        12 <= cursor_of(bytes, count) <= bytes.len(),
        body(models(bytes), count) == bytes.subrange(12, cursor_of(bytes, count)),
        first_write_error(models(bytes), count) is None,
    decreases count,
{
    let all = models(bytes);
    lemma_cursor(bytes, count, all.len());
    if count == 0 {
        assert(bytes.subrange(12, 12) =~= Seq::<u8>::empty());
    } else {
        let index = (count - 1) as nat;
        lemma_body_is_written(bytes, index);
        lemma_cursor(bytes, index, all.len());
        let cursor = cursor_of(bytes, index);
        lemma_entry_is_written(bytes, cursor, index as usize);
        assert(all[index as int] == entry_model(bytes, cursor));
        assert(body(all, count) =~= bytes.subrange(12, cursor_of(bytes, count)));
        assert(write_error(all, index as int) is None) by {
            assert(all[index as int].app_id.len() == id_len(bytes, cursor));
            assert(all[index as int].display_name.len() == name_len(bytes, cursor));
            assert(all[index as int].executable_path.len() == path_len(bytes, cursor));
            if exists|first: int|
                0 <= first < index && all[first].app_id == all[index as int].app_id {
                let first = choose|first: int|
                    0 <= first < index && all[first].app_id == all[index as int].app_id;
                assert(all[first].app_id != all[index as int].app_id);
            }
        }
    }
}

/// A valid registry is what writing its entries gives, byte for byte.
pub proof fn law_registry_is_its_encoding(bytes: Seq<u8>)
    requires
        valid_registry(bytes),
    ensures
        writable(models(bytes)),
        encoded(models(bytes)) == bytes,
{
    let all = models(bytes);
    let count = all.len() as int;
    lemma_body_is_written(bytes, all.len());
    assert forall|i: int| 0 <= i < all.len() implies {
        let entry = #[trigger] all[i];
        valid_utf8(entry.app_id) && valid_utf8(entry.display_name) && valid_utf8(
            entry.executable_path,
        ) && entry.flags <= 1
    } by {
        lemma_cursor(bytes, i as nat, all.len());
    }
    lemma_number_of_two(bytes, 4);
    lemma_number_of_two(bytes, 6);
    lemma_number_of_four(bytes, 8);
    assert(header(count) =~= bytes.take(12));
    assert(encoded(all) =~= bytes);
}

/// The registries that are accepted are exactly those that can be written.
pub proof fn law_accepted_registries_are_encodings(bytes: Seq<u8>)
    ensures
        valid_registry(bytes) <==> exists|entries: Seq<EntryModel>| #[trigger]
            writable(entries) && encoded(entries) == bytes,
{
    if valid_registry(bytes) {
        law_registry_is_its_encoding(bytes);
        assert(writable(models(bytes)));
    }
    if exists|entries: Seq<EntryModel>| #[trigger] writable(entries) && encoded(entries) == bytes {
        let entries = choose|entries: Seq<EntryModel>| #[trigger]
            writable(entries) && encoded(entries) == bytes;
        law_encoding_round_trip(entries);
    }
}

} // verus!
