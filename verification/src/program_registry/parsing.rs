//! Reading a registry.
use vstd::prelude::*;
use vstd::utf8::valid_utf8;

use crate::bytes::{le16_at, le32_at, read_u16, read_u32};
use crate::text::{same_bytes, utf8_text};

use super::entry::{
    check_lengths, fields_error, lengths_error, validate_entry, Entry, EntryFlags, EntryModel,
    Field, ParseError, ENTRY_HEADER_SIZE, HEADER_SIZE, MAX_ENTRIES, VERSION,
};

verus! {

/// The bytes begin with the signature of a registry.
pub open spec fn magic_ok(bytes: Seq<u8>) -> bool {
    bytes[0] == 0x47 && bytes[1] == 0x4b && bytes[2] == 0x52 && bytes[3] == 0
}

/// Length of the app identifier of the entry at `cursor`.
pub open spec fn id_len(bytes: Seq<u8>, cursor: int) -> int {
    le16_at(bytes, cursor)
}

/// Length of the display name of the entry at `cursor`.
pub open spec fn name_len(bytes: Seq<u8>, cursor: int) -> int {
    le16_at(bytes, cursor + 2)
}

/// Length of the executable path of the entry at `cursor`.
pub open spec fn path_len(bytes: Seq<u8>, cursor: int) -> int {
    le16_at(bytes, cursor + 4)
}

/// Where the entry at `cursor` ends.
pub open spec fn entry_end(bytes: Seq<u8>, cursor: int) -> int {
    cursor + 8 + id_len(bytes, cursor) + name_len(bytes, cursor) + path_len(bytes, cursor)
}

/// What the entry at `cursor` holds.
pub open spec fn entry_model(bytes: Seq<u8>, cursor: int) -> EntryModel {
    let id = cursor + 8;
    let name = id + id_len(bytes, cursor);
    let path = name + name_len(bytes, cursor);
    EntryModel {
        app_id: bytes.subrange(id, name),
        display_name: bytes.subrange(name, path),
        executable_path: bytes.subrange(path, entry_end(bytes, cursor)),
        flags: le16_at(bytes, cursor + 6) as u16,
    }
}

/// Why the entry at `cursor` is not valid; `index` is its number.
pub open spec fn entry_error(bytes: Seq<u8>, cursor: int, index: usize) -> Option<ParseError> {
    let model = entry_model(bytes, cursor);
    if cursor + 8 > bytes.len() {
        Some(ParseError::TruncatedEntryHeader { index })
    } else if lengths_error(
        index,
        id_len(bytes, cursor),
        name_len(bytes, cursor),
        path_len(bytes, cursor),
    ) is Some {
        lengths_error(
            index,
            id_len(bytes, cursor),
            name_len(bytes, cursor),
            path_len(bytes, cursor),
        )
    } else if entry_end(bytes, cursor) > bytes.len() {
        Some(ParseError::TruncatedEntryData { index })
    } else if !valid_utf8(model.app_id) {
        Some(ParseError::InvalidUtf8 { index, field: Field::AppId })
    } else if !valid_utf8(model.display_name) {
        Some(ParseError::InvalidUtf8 { index, field: Field::DisplayName })
    } else if !valid_utf8(model.executable_path) {
        Some(ParseError::InvalidUtf8 { index, field: Field::ExecutablePath })
    } else if model.flags > 1 {
        Some(ParseError::UnknownEntryFlags { index, bits: model.flags })
    } else {
        fields_error(index, model.app_id, model.display_name, model.executable_path)
    }
}

/// Where entry `index` begins.
pub open spec fn cursor_of(bytes: Seq<u8>, index: nat) -> int
    decreases index,
{
    if index == 0 {
        12
    } else {
        entry_end(bytes, cursor_of(bytes, (index - 1) as nat))
    }
}

/// The first error among the first `count` entries.
pub open spec fn first_error(bytes: Seq<u8>, count: nat) -> Option<ParseError>
    decreases count,
{
    if count == 0 {
        None
    } else {
        match first_error(bytes, (count - 1) as nat) {
            Some(error) => Some(error),
            None => entry_error(
                bytes,
                cursor_of(bytes, (count - 1) as nat),
                (count - 1) as usize,
            ),
        }
    }
}

/// Number of entries that the header announces.
pub open spec fn entry_count(bytes: Seq<u8>) -> int {
    le32_at(bytes, 8)
}

/// The entries of a registry.
pub open spec fn models(bytes: Seq<u8>) -> Seq<EntryModel> {
    Seq::new(
        entry_count(bytes) as nat,
        |i: int| entry_model(bytes, cursor_of(bytes, i as nat)),
    )
}

/// Why a registry is not valid, apart from app identifiers that occur twice.
pub open spec fn structure_error(bytes: Seq<u8>) -> Option<ParseError> {
    if bytes.len() < 12 {
        Some(ParseError::TruncatedHeader)
    } else if !magic_ok(bytes) {
        Some(ParseError::BadMagic)
    } else if le16_at(bytes, 4) != VERSION {
        Some(ParseError::UnsupportedVersion(le16_at(bytes, 4) as u16))
    } else if le16_at(bytes, 6) != 0 {
        Some(ParseError::UnknownHeaderFlags(le16_at(bytes, 6) as u16))
    } else if entry_count(bytes) > MAX_ENTRIES {
        Some(
            ParseError::TooManyEntries { count: entry_count(bytes) as u32, maximum: MAX_ENTRIES },
        )
    } else if first_error(bytes, entry_count(bytes) as nat) is Some {
        first_error(bytes, entry_count(bytes) as nat)
    } else if cursor_of(bytes, entry_count(bytes) as nat) != bytes.len() {
        Some(ParseError::TrailingData)
    } else {
        None
    }
}

/// No two of the first `count` entries have one app identifier.
pub open spec fn unique_ids(entries: Seq<EntryModel>, count: int) -> bool {
    forall|i: int, j: int|
        0 <= i < j < count ==> (#[trigger] entries[i]).app_id != (#[trigger] entries[j]).app_id
}

/// The entry at `duplicate` is the first to repeat an app identifier, that of `first`.
pub open spec fn repeats_id(entries: Seq<EntryModel>, first: int, duplicate: int) -> bool {
    &&& 0 <= first < duplicate < entries.len()
    &&& entries[first].app_id == entries[duplicate].app_id
    &&& unique_ids(entries, duplicate)
}

/// A valid registry.
pub open spec fn valid_registry(bytes: Seq<u8>) -> bool {
    structure_error(bytes) is None && unique_ids(models(bytes), models(bytes).len() as int)
}

/// Entries without error lie one after the other within the bytes.
pub(crate) proof fn lemma_cursor(bytes: Seq<u8>, index: nat, count: nat)
    requires
        first_error(bytes, count) is None,
        index <= count,
        bytes.len() >= 12,
    ensures
        12 <= cursor_of(bytes, index) <= bytes.len(),
        first_error(bytes, index) is None,
        index < count ==> entry_error(bytes, cursor_of(bytes, index), index as usize) is None,
    decreases count,
{
    if index < count {
        lemma_cursor(bytes, index, (count - 1) as nat);
    } else if index > 0 {
        lemma_cursor(bytes, (index - 1) as nat, (count - 1) as nat);
    }
}

/// The first error stays the first error of more entries.
proof fn lemma_first_error_stays(bytes: Seq<u8>, short: nat, long: nat)
    requires
        short <= long,
        first_error(bytes, short) is Some,
    ensures
        first_error(bytes, long) == first_error(bytes, short),
    decreases long,
{
    if short < long {
        lemma_first_error_stays(bytes, short, (long - 1) as nat);
    }
}

/// The number of an entry matters only for what an error says.
proof fn lemma_error_at_any_index(bytes: Seq<u8>, cursor: int, index: usize, other: usize)
    ensures
        entry_error(bytes, cursor, index) is None <==> entry_error(bytes, cursor, other) is None,
{
}

/// Reads the entry at `cursor`.
fn parse_entry<'a>(bytes: &'a [u8], cursor: usize, index: usize) -> (result: Result<
    (Entry<'a>, usize),
    ParseError,
>)
    ensures
        match entry_error(bytes@, cursor as int, index) {
            Some(error) => result matches Err(found) && found == error,
            None => result matches Ok((entry, end)) && end == entry_end(bytes@, cursor as int)
                && entry.model() == entry_model(bytes@, cursor as int),
        },
{
    if bytes.len() < ENTRY_HEADER_SIZE || cursor > bytes.len() - ENTRY_HEADER_SIZE {
        return Err(ParseError::TruncatedEntryHeader { index });
    }
    let header_end: usize = cursor + ENTRY_HEADER_SIZE;
    let app_id_len: usize = read_u16(bytes, cursor) as usize;
    let display_name_len: usize = read_u16(bytes, cursor + 2) as usize;
    let executable_path_len: usize = read_u16(bytes, cursor + 4) as usize;
    let flag_bits: u16 = read_u16(bytes, cursor + 6);
    match check_lengths(index, app_id_len, display_name_len, executable_path_len) {
        Err(error) => {
            return Err(error);
        },
        Ok(()) => {},
    }
    let fields_len: usize = app_id_len + display_name_len + executable_path_len;
    if fields_len > bytes.len() - header_end {
        return Err(ParseError::TruncatedEntryData { index });
    }
    let entry_end: usize = header_end + fields_len;
    let display_start: usize = header_end + app_id_len;
    let path_start: usize = display_start + display_name_len;
    let id_bytes: &[u8] = vstd::slice::slice_subrange(bytes, header_end, display_start);
    let name_bytes: &[u8] = vstd::slice::slice_subrange(bytes, display_start, path_start);
    let path_bytes: &[u8] = vstd::slice::slice_subrange(bytes, path_start, entry_end);
    let app_id: &str = match utf8_text(id_bytes) {
        Some(text) => text,
        None => {
            return Err(ParseError::InvalidUtf8 { index, field: Field::AppId });
        },
    };
    let display_name: &str = match utf8_text(name_bytes) {
        Some(text) => text,
        None => {
            return Err(ParseError::InvalidUtf8 { index, field: Field::DisplayName });
        },
    };
    let executable_path: &str = match utf8_text(path_bytes) {
        Some(text) => text,
        None => {
            return Err(ParseError::InvalidUtf8 { index, field: Field::ExecutablePath });
        },
    };
    let flags: EntryFlags = match EntryFlags::from_bits(flag_bits) {
        Some(flags) => flags,
        None => {
            return Err(ParseError::UnknownEntryFlags { index, bits: flag_bits });
        },
    };
    match validate_entry(index, app_id, display_name, executable_path) {
        Err(error) => {
            return Err(error);
        },
        Ok(()) => {},
    }
    Ok((Entry { app_id, display_name, executable_path, flags }, entry_end))
}

/// A validated registry.
#[derive(Clone, Copy, Debug, PartialEq, Eq)]
pub struct Registry<'a> {
    bytes: &'a [u8],
    entry_count: usize,
}

impl<'a> Registry<'a> {
    /// The bytes of this registry.
    pub closed spec fn source(self) -> Seq<u8> {
        self.bytes@
    }

    /// Every registry that exists is valid.
    #[verifier::type_invariant]
    spec fn valid(self) -> bool {
        valid_registry(self.bytes@) && self.entry_count == crate::program_registry::parsing::entry_count(
            self.bytes@,
        )
    }

    /// Reads and validates a registry completely.
    pub fn parse(bytes: &'a [u8]) -> (result: Result<Self, ParseError>)
        ensures
            match result {
                Ok(registry) => valid_registry(bytes@) && registry.source() == bytes@,
                Err(error) => match structure_error(bytes@) {
                    Some(found) => error == found,
                    None => error matches ParseError::DuplicateAppId {
                        first_index,
                        duplicate_index,
                    } && repeats_id(models(bytes@), first_index as int, duplicate_index as int),
                },
            },
            result is Ok <==> valid_registry(bytes@),
    {
        if bytes.len() < HEADER_SIZE {
            return Err(ParseError::TruncatedHeader);
        }
        if !(bytes[0] == 0x47 && bytes[1] == 0x4b && bytes[2] == 0x52 && bytes[3] == 0) {
            return Err(ParseError::BadMagic);
        }
        let version: u16 = read_u16(bytes, 4);
        if version != VERSION {
            return Err(ParseError::UnsupportedVersion(version));
        }
        let header_flags: u16 = read_u16(bytes, 6);
        if header_flags != 0 {
            return Err(ParseError::UnknownHeaderFlags(header_flags));
        }
        let count: u32 = read_u32(bytes, 8);
        if count > MAX_ENTRIES {
            return Err(ParseError::TooManyEntries { count, maximum: MAX_ENTRIES });
        }
        let total: usize = count as usize;
        let mut cursor: usize = HEADER_SIZE;
        let mut index: usize = 0;
        while index < total
            invariant
                index <= total,
                total == entry_count(bytes@),
                total <= MAX_ENTRIES,
                bytes@.len() >= 12,
                magic_ok(bytes@),
                le16_at(bytes@, 4) == VERSION,
                le16_at(bytes@, 6) == 0,
                first_error(bytes@, index as nat) is None,
                cursor == cursor_of(bytes@, index as nat),
            decreases total - index,
        {
            match parse_entry(bytes, cursor, index) {
                Err(error) => {
                    proof {
                        lemma_first_error_stays(bytes@, (index + 1) as nat, total as nat);
                    }
                    return Err(error);
                },
                Ok((_, next)) => {
                    cursor = next;
                },
            }
            index += 1;
        }
        if cursor != bytes.len() {
            return Err(ParseError::TrailingData);
        }
        let mut later: usize = HEADER_SIZE;
        let mut duplicate: usize = 0;
        while duplicate < total
            invariant
                duplicate <= total,
                total == entry_count(bytes@),
                structure_error(bytes@) is None,
                later == cursor_of(bytes@, duplicate as nat),
                unique_ids(models(bytes@), duplicate as int),
            decreases total - duplicate,
        {
            proof {
                lemma_cursor(bytes@, duplicate as nat, total as nat);
            }
            let (entry, next): (Entry<'a>, usize) = match parse_entry(bytes, later, duplicate) {
                Err(error) => {
                    return Err(error);
                },
                Ok(parsed) => parsed,
            };
            let mut earlier: usize = HEADER_SIZE;
            let mut first: usize = 0;
            while first < duplicate
                invariant
                    first <= duplicate < total,
                    total == entry_count(bytes@),
                    structure_error(bytes@) is None,
                    earlier == cursor_of(bytes@, first as nat),
                    entry.model() == models(bytes@)[duplicate as int],
                    unique_ids(models(bytes@), duplicate as int),
                    forall|i: int|
                        0 <= i < first ==> (#[trigger] models(bytes@)[i]).app_id != models(
                            bytes@,
                        )[duplicate as int].app_id,
                decreases duplicate - first,
            {
                proof {
                    lemma_cursor(bytes@, first as nat, total as nat);
                }
                let (previous, following): (Entry<'a>, usize) = match parse_entry(
                    bytes,
                    earlier,
                    first,
                ) {
                    Err(error) => {
                        return Err(error);
                    },
                    Ok(parsed) => parsed,
                };
                assert(previous.model() == models(bytes@)[first as int]);
                if same_bytes(previous.app_id.as_bytes(), entry.app_id.as_bytes()) {
                    assert(repeats_id(models(bytes@), first as int, duplicate as int));
                    assert(!unique_ids(models(bytes@), total as int)) by {
                        assert(models(bytes@)[first as int].app_id
                            == models(bytes@)[duplicate as int].app_id);
                    }
                    return Err(
                        ParseError::DuplicateAppId {
                            first_index: first,
                            duplicate_index: duplicate,
                        },
                    );
                }
                earlier = following;
                first += 1;
            }
            later = next;
            duplicate += 1;
        }
        Ok(Registry { bytes, entry_count: total })
    }

    /// The format version.
    pub fn version(&self) -> (version: u16)
        ensures
            version == VERSION,
    {
        VERSION
    }

    /// Number of entries, hidden ones too.
    pub fn len(&self) -> (count: usize)
        ensures
            count == models(self.source()).len(),
    {
        proof {
            use_type_invariant(self);
        }
        self.entry_count
    }

    /// Whether there is no entry.
    pub fn is_empty(&self) -> (empty: bool)
        ensures
            empty == (models(self.source()).len() == 0),
    {
        proof {
            use_type_invariant(self);
        }
        self.entry_count == 0
    }

    /// All entries, in the order of the file.
    pub fn entries(&self) -> (entries: Entries<'a>)
        ensures
            entries.ahead() == models(self.source()),
    {
        proof {
            use_type_invariant(self);
            lemma_cursor(self.bytes@, 0, self.entry_count as nat);
        }
        let entries: Entries<'a> = Entries {
            bytes: self.bytes,
            cursor: HEADER_SIZE,
            remaining: self.entry_count,
        };
        assert(entries.ahead() =~= models(self.source()));
        entries
    }

    /// The entries that are not hidden, in the order of the file.
    pub fn visible_entries(&self) -> (entries: VisibleEntries<'a>)
        ensures
            entries.ahead() == models(self.source()).filter(|entry: EntryModel| entry.visible()),
    {
        VisibleEntries { entries: self.entries() }
    }
}

/// Walks over the entries of a registry.
#[derive(Debug)]
pub struct Entries<'a> {
    bytes: &'a [u8],
    cursor: usize,
    remaining: usize,
}

impl<'a> Entries<'a> {
    /// Number of the next entry.
    spec fn position(self) -> int {
        entry_count(self.bytes@) - self.remaining
    }

    /// The walk is within a valid registry.
    #[verifier::type_invariant]
    spec fn valid(self) -> bool {
        &&& valid_registry(self.bytes@)
        &&& self.remaining <= entry_count(self.bytes@)
        &&& self.cursor == cursor_of(self.bytes@, self.position() as nat)
    }

    /// The entries that are still to come.
    pub closed spec fn ahead(self) -> Seq<EntryModel> {
        models(self.bytes@).skip(self.position())
    }

    /// Number of entries that are still to come.
    pub fn len(&self) -> (count: usize)
        ensures
            count == self.ahead().len(),
    {
        proof {
            use_type_invariant(self);
        }
        self.remaining
    }

    /// The next entry.
    pub fn next(&mut self) -> (entry: Option<Entry<'a>>)
        ensures
            match entry {
                Some(entry) => old(self).ahead().len() > 0 && entry.model() == old(self).ahead()[0]
                    && final(self).ahead() == old(self).ahead().drop_first(),
                None => old(self).ahead().len() == 0 && *final(self) == *old(self),
            },
    {
        proof {
            use_type_invariant(&*self);
        }
        if self.remaining == 0 {
            return None;
        }
        let ghost before = *self;
        let bytes: &'a [u8] = self.bytes;
        let cursor: usize = self.cursor;
        let remaining: usize = self.remaining;
        proof {
            let at = before.position();
            lemma_cursor(bytes@, at as nat, entry_count(bytes@) as nat);
            lemma_error_at_any_index(bytes@, cursor as int, at as usize, 0);
        }
        match parse_entry(bytes, cursor, 0) {
            Err(_) => None,
            Ok((entry, next)) => {
                *self = Entries { bytes, cursor: next, remaining: (remaining - 1) as usize };
                assert(self.ahead() =~= before.ahead().drop_first());
                Some(entry)
            },
        }
    }

    /// The entries that are still to come.
    pub fn collect(self) -> (entries: Vec<Entry<'a>>)
        ensures
            entries@.len() == self.ahead().len(),
            forall|i: int|
                0 <= i < entries@.len() ==> (#[trigger] entries@[i]).model() == self.ahead()[i],
    {
        let mut walk: Entries<'a> = self;
        let mut entries: Vec<Entry<'a>> = Vec::new();
        let ghost all = self.ahead();
        assert(all.skip(0) =~= all);
        while walk.len() > 0
            invariant
                entries@.len() <= all.len(),
                walk.ahead() == all.skip(entries@.len() as int),
                forall|i: int|
                    0 <= i < entries@.len() ==> (#[trigger] entries@[i]).model() == all[i],
            decreases walk.ahead().len(),
        {
            if let Some(entry) = walk.next() {
                entries.push(entry);
                assert(walk.ahead() =~= all.skip(entries@.len() as int));
            }
        }
        entries
    }
}

impl<'a> Clone for Entries<'a> {
    /// A walk that has the same entries to come.
    fn clone(&self) -> (walk: Self)
        ensures
            walk == *self,
    {
        proof {
            use_type_invariant(self);
        }
        Entries { bytes: self.bytes, cursor: self.cursor, remaining: self.remaining }
    }
}

/// Walks over the entries that are not hidden.
#[derive(Debug)]
pub struct VisibleEntries<'a> {
    entries: Entries<'a>,
}

impl<'a> Clone for VisibleEntries<'a> {
    /// A walk that has the same entries to come.
    fn clone(&self) -> (walk: Self)
        ensures
            walk == *self,
    {
        VisibleEntries { entries: self.entries.clone() }
    }
}

impl<'a> VisibleEntries<'a> {
    /// The entries that are still to come.
    pub closed spec fn ahead(self) -> Seq<EntryModel> {
        self.entries.ahead().filter(|entry: EntryModel| entry.visible())
    }

    /// The next entry that is not hidden.
    pub fn next(&mut self) -> (entry: Option<Entry<'a>>)
        ensures
            match entry {
                Some(entry) => old(self).ahead().len() > 0 && entry.model() == old(self).ahead()[0]
                    && final(self).ahead() == old(self).ahead().drop_first(),
                None => old(self).ahead().len() == 0 && final(self).ahead() == old(self).ahead(),
            },
    {
        let ghost visible = |entry: EntryModel| entry.visible();
        while self.entries.len() > 0
            invariant
                visible == (|entry: EntryModel| entry.visible()),
                self.entries.ahead().filter(visible) == old(self).entries.ahead().filter(visible),
            decreases self.entries.ahead().len(),
        {
            let ghost before = self.entries.ahead();
            if let Some(entry) = self.entries.next() {
                proof {
                    assert(before =~= seq![before[0]] + self.entries.ahead());
                    lemma_filter_first(before[0], self.entries.ahead(), visible);
                }
                if entry.is_visible() {
                    assert(self.entries.ahead().filter(visible) =~= before.filter(
                        visible,
                    ).drop_first());
                    return Some(entry);
                }
            }
        }
        assert(self.entries.ahead().filter(visible) =~= Seq::<EntryModel>::empty()) by {
            reveal(Seq::filter);
        }
        None
    }

    /// The entries that are still to come.
    pub fn collect(self) -> (entries: Vec<Entry<'a>>)
        ensures
            entries@.len() == self.ahead().len(),
            forall|i: int|
                0 <= i < entries@.len() ==> (#[trigger] entries@[i]).model() == self.ahead()[i],
    {
        let mut walk: VisibleEntries<'a> = self;
        let mut entries: Vec<Entry<'a>> = Vec::new();
        let ghost all = self.ahead();
        assert(all.skip(0) =~= all);
        loop
            invariant
                entries@.len() <= all.len(),
                walk.ahead() == all.skip(entries@.len() as int),
                forall|i: int|
                    0 <= i < entries@.len() ==> (#[trigger] entries@[i]).model() == all[i],
            ensures
                entries@.len() == all.len(),
                forall|i: int|
                    0 <= i < entries@.len() ==> (#[trigger] entries@[i]).model() == all[i],
            decreases walk.ahead().len(),
        {
            match walk.next() {
                Some(entry) => {
                    entries.push(entry);
                    assert(walk.ahead() =~= all.skip(entries@.len() as int));
                },
                None => {
                    break;
                },
            }
        }
        entries
    }
}

/// Filtering a sequence treats its first element on its own.
proof fn lemma_filter_first<A>(first: A, rest: Seq<A>, keep: spec_fn(A) -> bool)
    ensures
        (seq![first] + rest).filter(keep) == (if keep(first) {
            seq![first] + rest.filter(keep)
        } else {
            rest.filter(keep)
        }),
{
    Seq::filter_distributes_over_add(seq![first], rest, keep);
    assert(seq![first].drop_last() =~= Seq::<A>::empty());
    reveal_with_fuel(Seq::filter, 2);
    assert(seq![first].filter(keep) =~= if keep(first) {
        seq![first]
    } else {
        Seq::<A>::empty()
    });
    assert((seq![first] + rest).filter(keep) =~= seq![first].filter(keep) + rest.filter(keep));
}

/// Bytes beyond an entry do not matter to it.
proof fn lemma_entry_of_prefix(short: Seq<u8>, long: Seq<u8>, cursor: int, index: usize)
    requires
        short.is_prefix_of(long),
        0 <= cursor,
        entry_error(short, cursor, index) is None,
    ensures
        entry_end(long, cursor) == entry_end(short, cursor),
        entry_model(long, cursor) == entry_model(short, cursor),
        entry_error(long, cursor, index) is None,
{
    assert(forall|i: int| 0 <= i < short.len() ==> short[i] == #[trigger] long[i]);
    let small = entry_model(short, cursor);
    let large = entry_model(long, cursor);
    assert(small.app_id =~= large.app_id);
    assert(small.display_name =~= large.display_name);
    assert(small.executable_path =~= large.executable_path);
}

/// Bytes beyond the first entries do not matter to them.
proof fn lemma_entries_of_prefix(short: Seq<u8>, long: Seq<u8>, count: nat)
    requires
        short.is_prefix_of(long),
        short.len() >= 12,
        first_error(short, count) is None,
    ensures
        first_error(long, count) is None,
        cursor_of(long, count) == cursor_of(short, count),
    decreases count,
{
    if count > 0 {
        let before = (count - 1) as nat;
        lemma_entries_of_prefix(short, long, before);
        lemma_cursor(short, before, count);
        lemma_entry_of_prefix(short, long, cursor_of(short, before), before as usize);
    }
}

/// An entry that lies whole in the beginning of a file is read there as in the file.
proof fn lemma_entry_in_prefix(short: Seq<u8>, long: Seq<u8>, cursor: int, index: usize)
    requires
        short.is_prefix_of(long),
        0 <= cursor,
        entry_error(long, cursor, index) is None,
        entry_end(long, cursor) <= short.len(),
    ensures
        entry_end(short, cursor) == entry_end(long, cursor),
        entry_error(short, cursor, index) is None,
{
    assert(forall|i: int| 0 <= i < short.len() ==> short[i] == #[trigger] long[i]);
    let small = entry_model(short, cursor);
    let large = entry_model(long, cursor);
    assert(small.app_id =~= large.app_id);
    assert(small.display_name =~= large.display_name);
    assert(small.executable_path =~= large.executable_path);
}

/// The entries that lie whole in the beginning of a file are read there as in the file.
proof fn lemma_entries_in_prefix(short: Seq<u8>, long: Seq<u8>, index: nat, count: nat)
    requires
        short.is_prefix_of(long),
        12 <= short.len(),
        first_error(long, count) is None,
        index <= count,
        cursor_of(long, index) <= short.len(),
    ensures
        first_error(short, index) is None,
        cursor_of(short, index) == cursor_of(long, index),
    decreases index,
{
    if index > 0 {
        let before = (index - 1) as nat;
        lemma_cursor(long, before, count);
        lemma_entries_in_prefix(short, long, before, count);
        lemma_entry_in_prefix(short, long, cursor_of(long, before), before as usize);
    }
}

/// The first `end` bytes of a file hold `index` entries whole, and not the next.
pub open spec fn whole_entries(bytes: Seq<u8>, end: int, index: nat) -> bool {
    &&& index < entry_count(bytes)
    &&& cursor_of(bytes, index) <= end < cursor_of(bytes, index + 1)
}

/// Some number of entries lies whole in the beginning of a file.
proof fn lemma_whole_entries(bytes: Seq<u8>, end: int, count: nat)
    requires
        valid_registry(bytes),
        count <= entry_count(bytes),
        12 <= end < cursor_of(bytes, count),
    ensures
        exists|index: nat| whole_entries(bytes, end, index),
    decreases count,
{
    if count > 0 {
        let before = (count - 1) as nat;
        if end < cursor_of(bytes, before) {
            lemma_whole_entries(bytes, end, before);
        } else {
            assert(whole_entries(bytes, end, before));
        }
    }
}

/// No proper prefix of a valid registry is valid, and the error tells what is missing: of the
/// header, of the header of an entry, or of its fields.
pub proof fn law_truncation_is_rejected(bytes: Seq<u8>, end: int)
    requires
        valid_registry(bytes),
        0 <= end < bytes.len(),
    ensures
        !valid_registry(bytes.take(end)),
        end < 12 ==> structure_error(bytes.take(end)) == Some(ParseError::TruncatedHeader),
        end >= 12 ==> exists|index: nat| #[trigger]
            whole_entries(bytes, end, index) && structure_error(bytes.take(end)) == Some(
                if end < cursor_of(bytes, index) + 8 {
                    ParseError::TruncatedEntryHeader { index: index as usize }
                } else {
                    ParseError::TruncatedEntryData { index: index as usize }
                },
            ),
{
    let short = bytes.take(end);
    if end >= 12 {
        assert(forall|i: int| 0 <= i < short.len() ==> short[i] == #[trigger] bytes[i]);
        let count = entry_count(bytes) as nat;
        lemma_whole_entries(bytes, end, count);
        let index = choose|index: nat| whole_entries(bytes, end, index);
        assert(short.is_prefix_of(bytes)) by {
            assert(short =~= bytes.subrange(0, end));
        }
        lemma_entries_in_prefix(short, bytes, index, count);
        lemma_cursor(bytes, index, count);
        assert(entry_error(short, cursor_of(short, index), index as usize) == Some(
            if end < cursor_of(bytes, index) + 8 {
                ParseError::TruncatedEntryHeader { index: index as usize }
            } else {
                ParseError::TruncatedEntryData { index: index as usize }
            },
        ));
        assert(entry_count(short) == entry_count(bytes));
        lemma_first_error_stays(short, index + 1, count);
    }
}

/// Bytes behind a valid registry are told as such.
pub proof fn law_trailing_data_is_rejected(bytes: Seq<u8>, extra: Seq<u8>)
    requires
        valid_registry(bytes),
        extra.len() > 0,
    ensures
        structure_error(bytes + extra) == Some(ParseError::TrailingData),
{
    let long = bytes + extra;
    assert(forall|i: int| 0 <= i < bytes.len() ==> bytes[i] == #[trigger] long[i]);
    assert(bytes.is_prefix_of(long)) by {
        assert(bytes =~= long.subrange(0, bytes.len() as int));
    }
    assert(entry_count(long) == entry_count(bytes));
    lemma_entries_of_prefix(bytes, long, entry_count(bytes) as nat);
}

} // verus!
