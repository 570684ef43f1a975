//! Paths of files and the records of the file system calls.
use vstd::prelude::*;
use vstd::utf8::encode_utf8;

use crate::bytes::{
    le32_at, le64_at, le_bytes, part_of, push_bytes, push_u16, push_u32, push_u64, push_zeros,
    read_u32, read_u64, zeros,
};
use crate::text::same_bytes;

use super::abi::{
    checked_bits, contains_bits, has_any, has_bits, intersects_bits, within, Abi, Handle, Status,
};

verus! {

pub const FILESYSTEM_OPEN_ARGS_SIZE: usize = 24;

pub const FILESYSTEM_READ_OUTPUT_SIZE: usize = 8;

pub const FILESYSTEM_STAT_SIZE: usize = 24;

pub const FILESYSTEM_OPEN_DIRECTORY_ARGS_SIZE: usize = 32;

pub const FILESYSTEM_CREATE_DIRECTORY_ARGS_SIZE: usize = 24;

pub const FILESYSTEM_REMOVE_DIRECTORY_ARGS_SIZE: usize = 24;

pub const FILESYSTEM_RENAME_ARGS_SIZE: usize = 48;

pub const FILESYSTEM_SYNC_ARGS_SIZE: usize = 8;

pub const FILESYSTEM_GET_INFO_ARGS_SIZE: usize = 16;

pub const FILESYSTEM_INFO_SIZE: usize = 64;

pub const FILESYSTEM_GET_METADATA_ARGS_SIZE: usize = 32;

pub const FILESYSTEM_METADATA_SIZE: usize = 64;

pub const FILESYSTEM_READ_DIRECTORY2_ARGS_SIZE: usize = 24;

pub const FILESYSTEM_DIRECTORY_ENTRY2_SIZE: usize = 288;

/// Bytes of the longest path: components of the longest name, and what separates them.
pub open spec fn path_limit(abi: Abi) -> int {
    if abi.limits.traversal_depth == 0 {
        0
    } else {
        abi.limits.traversal_depth * abi.limits.filesystem_name + (abi.limits.traversal_depth - 1)
    }
}

/// Bytes of the longest path.
pub fn path_max(abi: &Abi) -> (limit: u64)
    ensures
        limit == path_limit(*abi),
{
    if abi.limits.traversal_depth == 0 {
        return 0;
    }
    let depth: u64 = abi.limits.traversal_depth as u64;
    let name: u64 = abi.limits.filesystem_name as u64;
    assert(depth * name <= 0xffff_ffff * 0xffff_ffff) by (nonlinear_arith)
        requires
            depth <= 0xffff_ffff,
            name <= 0xffff_ffff,
    ;
    depth * name + (depth - 1)
}

/// Where the component that starts at `from` ends.
pub open spec fn component_end(path: Seq<u8>, from: int) -> int
    decreases path.len() - from,
{
    if from >= path.len() || path[from] == 0x2f {
        from
    } else {
        component_end(path, from + 1)
    }
}

/// The component is not the name of a file or directory.
pub open spec fn bad_component(abi: Abi, name: Seq<u8>) -> bool {
    ||| name.len() == 0
    ||| name == seq![0x2eu8]
    ||| name == seq![0x2eu8, 0x2e]
    ||| name.len() > abi.limits.filesystem_name
    ||| name.contains(0x3a)
    ||| name.contains(0x5c)
    ||| name.contains(0)
}

/// Components from `from` on, of which `depth` came before.
pub open spec fn components_checked(abi: Abi, path: Seq<u8>, from: int, depth: int) -> Result<
    (),
    Status,
>
    decreases path.len() - from,
{
    let end = component_end(path, from);
    if from > path.len() || from < 0 || bad_component(abi, path.subrange(from, end)) {
        Err(Status::InvalidArgument)
    } else if depth + 1 > abi.limits.traversal_depth {
        Err(Status::OutOfRange)
    } else if from <= end < path.len() {
        components_checked(abi, path, end + 1, depth + 1)
    } else {
        Ok(())
    }
}

/// A relative path of names, not too long and not too deep.
pub open spec fn path_checked(abi: Abi, path: Seq<u8>) -> Result<(), Status> {
    if path.len() == 0 || path.len() > path_limit(abi) || path[0] == 0x2f || path[0] == 0x5c {
        Err(Status::InvalidArgument)
    } else {
        components_checked(abi, path, 0, 0)
    }
}

/// A component ends at or after its start, within the path.
proof fn lemma_component_end(path: Seq<u8>, from: int)
    requires
        0 <= from <= path.len(),
    ensures
        from <= component_end(path, from) <= path.len(),
        component_end(path, from) < path.len() ==> path[component_end(path, from)] == 0x2f,
        forall|i: int| from <= i < component_end(path, from) ==> path[i] != 0x2f,
    decreases path.len() - from,
{
    if from < path.len() && path[from] != 0x2f {
        lemma_component_end(path, from + 1);
    }
}

/// Finds where the component that starts at `from` ends.
pub fn find_component_end(path: &[u8], from: usize) -> (end: usize)
    requires
        from <= path@.len(),
    ensures
        end == component_end(path@, from as int),
        from <= end <= path@.len(),
{
    let mut end: usize = from;
    while end < path.len() && path[end] != 0x2f
        invariant
            from <= end <= path@.len(),
            component_end(path@, end as int) == component_end(path@, from as int),
        decreases path@.len() - end,
    {
        end += 1;
    }
    end
}

/// A byte is among others.
fn holds_byte(bytes: &[u8], byte: u8) -> (found: bool)
    ensures
        found == bytes@.contains(byte),
{
    let mut index: usize = 0;
    while index < bytes.len()
        invariant
            index <= bytes@.len(),
            forall|i: int| 0 <= i < index ==> bytes@[i] != byte,
        decreases bytes@.len() - index,
    {
        if bytes[index] == byte {
            assert(bytes@[index as int] == byte);
            return true;
        }
        index += 1;
    }
    false
}

/// The component is not the name of a file or directory.
fn is_bad_component(abi: &Abi, name: &[u8]) -> (bad: bool)
    ensures
        bad == bad_component(*abi, name@),
{
    if name.len() == 0 {
        return true;
    }
    if name.len() == 1 && name[0] == 0x2e {
        assert(name@ =~= seq![0x2eu8]);
        return true;
    }
    if name.len() == 2 && name[0] == 0x2e && name[1] == 0x2e {
        assert(name@ =~= seq![0x2eu8, 0x2e]);
        return true;
    }
    proof {
        assert(name@ != seq![0x2eu8]) by {
            if name@ == seq![0x2eu8] {
                assert(name@[0] == 0x2e);
            }
        }
        assert(name@ != seq![0x2eu8, 0x2e]) by {
            if name@ == seq![0x2eu8, 0x2e] {
                assert(name@[0] == 0x2e && name@[1] == 0x2e);
            }
        }
    }
    name.len() as u64 > abi.limits.filesystem_name as u64 || holds_byte(name, 0x3a) || holds_byte(
        name,
        0x5c,
    ) || holds_byte(name, 0)
}

/// Checks a path: relative, not too long, not too deep, without traversal.
pub fn validate_filesystem_path(abi: &Abi, path: &[u8]) -> (result: Result<(), Status>)
    ensures
        result == path_checked(*abi, path@),
{
    if path.len() == 0 || path.len() as u64 > path_max(abi) || path[0] == 0x2f || path[0] == 0x5c {
        return Err(Status::InvalidArgument);
    }
    let mut from: usize = 0;
    let mut depth: u32 = 0;
    loop
        invariant
            from <= path@.len(),
            depth <= abi.limits.traversal_depth,
            components_checked(*abi, path@, from as int, depth as int) == path_checked(
                *abi,
                path@,
            ),
        decreases path@.len() - from,
    {
        let end: usize = find_component_end(path, from);
        proof {
            lemma_component_end(path@, from as int);
        }
        if is_bad_component(abi, part_of(path, from, end)) {
            return Err(Status::InvalidArgument);
        }
        if depth >= abi.limits.traversal_depth {
            return Err(Status::OutOfRange);
        }
        depth += 1;
        if end < path.len() {
            from = end + 1;
        } else {
            return Ok(());
        }
    }
}

/// The name belongs to the system.
pub open spec fn protected_name(name: Seq<u8>) -> bool {
    ||| name == encode_utf8("system"@)
    ||| name == encode_utf8("desktop.elf"@)
    ||| name == encode_utf8("minimal-client.elf"@)
    ||| name == encode_utf8("file-navigator.elf"@)
    ||| name == encode_utf8("text-editor.elf"@)
    ||| name == encode_utf8("terminal.elf"@)
    ||| name == encode_utf8("programs.gkr"@)
    ||| name == encode_utf8("system.log"@)
    ||| name == encode_utf8("console"@)
    ||| name == encode_utf8("input"@)
}

/// The name belongs to the system.
pub fn is_protected_system_file(name: &[u8]) -> (result: bool)
    ensures
        result == protected_name(name@),
{
    same_bytes(name, "system".as_bytes()) || same_bytes(name, "desktop.elf".as_bytes())
        || same_bytes(name, "minimal-client.elf".as_bytes()) || same_bytes(
        name,
        "file-navigator.elf".as_bytes(),
    ) || same_bytes(name, "text-editor.elf".as_bytes()) || same_bytes(
        name,
        "terminal.elf".as_bytes(),
    ) || same_bytes(name, "programs.gkr".as_bytes()) || same_bytes(name, "system.log".as_bytes())
        || same_bytes(name, "console".as_bytes()) || same_bytes(name, "input".as_bytes())
}

/// The first component of the path belongs to the system.
pub open spec fn protected_path(path: Seq<u8>) -> bool {
    protected_name(path.subrange(0, component_end(path, 0)))
}

/// The first component of the path belongs to the system.
pub fn is_protected_system_path(path: &[u8]) -> (result: bool)
    ensures
        result == protected_path(path@),
{
    let end: usize = find_component_end(path, 0);
    is_protected_system_file(part_of(path, 0, end))
}

/// Everything below a name of the system belongs to it.
pub proof fn law_protection_covers_the_subtree(name: Seq<u8>, rest: Seq<u8>)
    requires
        protected_name(name),
        !name.contains(0x2f),
    ensures
        protected_path(name),
        protected_path(name + seq![0x2fu8] + rest),
{
    lemma_first_component(name, 0, Seq::empty());
    assert(name + Seq::<u8>::empty() =~= name);
    assert(name.subrange(0, name.len() as int) =~= name);
    let path = name + seq![0x2fu8] + rest;
    assert(path =~= name + (seq![0x2fu8] + rest));
    lemma_first_component(name, 0, seq![0x2fu8] + rest);
    assert(path.subrange(0, name.len() as int) =~= name);
}

/// The first component of a path.
pub(crate) proof fn lemma_first_component(name: Seq<u8>, from: int, rest: Seq<u8>)
    requires
        0 <= from <= name.len(),
        !name.contains(0x2f),
        rest.len() == 0 || rest[0] == 0x2f,
    ensures
        component_end(name + rest, from) == name.len(),
    decreases name.len() - from,
{
    if from < name.len() {
        assert(name.contains(name[from]));
        lemma_first_component(name, from + 1, rest);
    }
}

/// Where the last separator of a path stands, among its first `count` bytes.
pub open spec fn last_separator(path: Seq<u8>, count: nat) -> Option<int>
    decreases count,
{
    if count == 0 {
        None
    } else if path[count - 1] == 0x2f {
        Some(count - 1)
    } else {
        last_separator(path, (count - 1) as nat)
    }
}

/// Splits a path into its parent directory, if it names one, and its last component.
pub fn split_parent(path: &[u8]) -> (parts: (Option<&[u8]>, &[u8]))
    ensures
        match last_separator(path@, path@.len()) {
            Some(at) => {
                &&& parts.0 matches Some(parent)
                &&& 0 <= at < path@.len()
                &&& parent@ == path@.subrange(0, at)
                &&& parts.1@ == path@.subrange(at + 1, path@.len() as int)
            },
            None => parts.0 is None && parts.1@ == path@,
        },
{
    let mut at: usize = path.len();
    while at > 0
        invariant
            at <= path@.len(),
            last_separator(path@, at as nat) == last_separator(path@, path@.len()),
        decreases at,
    {
        if path[at - 1] == 0x2f {
            return (Some(part_of(path, 0, at - 1)), part_of(path, at, path.len()));
        }
        at -= 1;
    }
    (None, path)
}

/// How a file is to be opened.
#[derive(Clone, Copy, Debug, PartialEq, Eq, Structural)]
pub struct ParsedFilesystemOpenArgs {
    pub path_address: u64,
    pub path_length: u64,
    pub flags: u32,
}

/// Flags that go together: some access, changes only with write access, and execution
/// only of what is read and not changed.
pub open spec fn open_flags_allowed(abi: Abi, flags: u32) -> bool {
    let open = abi.open_flags;
    &&& within(flags, open.all)
    &&& has_any(flags, open.read | open.write)
    &&& has_any(flags, open.create | open.truncate) ==> has_bits(flags, open.write)
    &&& has_bits(flags, open.execute) ==> has_bits(flags, open.read) && !has_any(
        flags,
        open.write | open.create | open.truncate,
    )
}

/// A record of how to open a file.
pub open spec fn open_args_in(abi: Abi, raw: Seq<u8>) -> Result<ParsedFilesystemOpenArgs, Status> {
    if raw.len() != FILESYSTEM_OPEN_ARGS_SIZE || le32_at(raw, 20) != 0 || !open_flags_allowed(
        abi,
        le32_at(raw, 16) as u32,
    ) {
        Err(Status::InvalidArgument)
    } else {
        Ok(
            ParsedFilesystemOpenArgs {
                path_address: le64_at(raw, 0) as u64,
                path_length: le64_at(raw, 8) as u64,
                flags: le32_at(raw, 16) as u32,
            },
        )
    }
}

/// Reads a record of how to open a file.
pub fn parse_filesystem_open_args(abi: &Abi, raw: &[u8]) -> (result: Result<
    ParsedFilesystemOpenArgs,
    Status,
>)
    ensures
        result == open_args_in(*abi, raw@),
{
    if raw.len() != FILESYSTEM_OPEN_ARGS_SIZE {
        return Err(Status::InvalidArgument);
    }
    let flags: u32 = match checked_bits(read_u32(raw, 16), abi.open_flags.all) {
        Some(flags) => flags,
        None => {
            return Err(Status::InvalidArgument);
        },
    };
    let open = abi.open_flags;
    let execute: bool = contains_bits(flags, open.execute);
    if read_u32(raw, 20) != 0 || !intersects_bits(flags, open.read | open.write) || (
    intersects_bits(flags, open.create | open.truncate) && !contains_bits(flags, open.write)) || (
    execute && (!contains_bits(flags, open.read) || intersects_bits(
        flags,
        open.write | open.create | open.truncate,
    ))) {
        return Err(Status::InvalidArgument);
    }
    Ok(
        ParsedFilesystemOpenArgs {
            path_address: read_u64(raw, 0),
            path_length: read_u64(raw, 8),
            flags,
        },
    )
}

/// Rights that a directory must give for a file in it to be opened.
pub open spec fn open_rights(abi: Abi, flags: u32) -> u32 {
    let open = abi.open_flags;
    let read = abi.rights.read;
    let run = if has_bits(flags, open.execute) {
        read | abi.rights.execute
    } else {
        read
    };
    if has_any(flags, open.write | open.create | open.truncate) {
        run | abi.rights.write
    } else {
        run
    }
}

/// Rights that a directory must give for a file in it to be opened.
pub fn filesystem_open_required_rights(abi: &Abi, flags: u32) -> (required: u32)
    ensures
        required == open_rights(*abi, flags),
{
    let open = abi.open_flags;
    let mut required: u32 = abi.rights.read;
    if contains_bits(flags, open.execute) {
        required = required | abi.rights.execute;
    }
    if intersects_bits(flags, open.write | open.create | open.truncate) {
        required = required | abi.rights.write;
    }
    required
}

/// Rights of the handle of an opened file.
pub open spec fn opened_rights(abi: Abi, flags: u32) -> u32 {
    let open = abi.open_flags;
    let read = if has_bits(flags, open.read) {
        0u32 | abi.rights.read
    } else {
        0
    };
    let write = if has_bits(flags, open.write) {
        read | abi.rights.write
    } else {
        read
    };
    if has_bits(flags, open.execute) {
        write | (abi.rights.execute | abi.rights.duplicate | abi.rights.transfer)
    } else {
        write
    }
}

/// Rights of the handle of an opened file.
pub fn opened_file_rights(abi: &Abi, flags: u32) -> (rights: u32)
    ensures
        rights == opened_rights(*abi, flags),
{
    let open = abi.open_flags;
    let mut rights: u32 = 0;
    if contains_bits(flags, open.read) {
        rights = rights | abi.rights.read;
    }
    if contains_bits(flags, open.write) {
        rights = rights | abi.rights.write;
    }
    if contains_bits(flags, open.execute) {
        rights = rights | (abi.rights.execute | abi.rights.duplicate | abi.rights.transfer);
    }
    rights
}

/// Rights of the handle of a directory below another: no more than that one gives, and
/// no write access to what belongs to the system.
pub open spec fn child_rights(abi: Abi, anchor: u32, is_root: bool, protected: bool) -> u32 {
    let r = abi.rights;
    let access = anchor & (r.read | r.write);
    let namespace = if protected {
        access & !r.write
    } else {
        access
    };
    let delegation = if is_root {
        r.duplicate | r.transfer
    } else {
        anchor & (r.duplicate | r.transfer)
    };
    namespace | delegation
}

/// Rights of the handle of a directory below another.
pub fn child_directory_rights(abi: &Abi, anchor_rights: u32, is_root: bool, protected: bool) -> (rights:
    u32)
    ensures
        rights == child_rights(*abi, anchor_rights, is_root, protected),
{
    let r = abi.rights;
    let mut namespace: u32 = anchor_rights & (r.read | r.write);
    if protected {
        namespace = namespace & !r.write;
    }
    let delegation: u32 = if is_root {
        r.duplicate | r.transfer
    } else {
        anchor_rights & (r.duplicate | r.transfer)
    };
    namespace | delegation
}

/// A child of an ordinary directory has no right that the directory does not give.
pub proof fn law_rights_are_attenuated(abi: Abi, anchor: u32, protected: bool)
    ensures
        within(child_rights(abi, anchor, false, protected), anchor),
{
    let r = abi.rights;
    let read = r.read;
    let write = r.write;
    let duplicate = r.duplicate;
    let transfer = r.transfer;
    assert(((anchor & (read | write)) | (anchor & (duplicate | transfer))) & !anchor == 0)
        by (bit_vector);
    assert((((anchor & (read | write)) & !write) | (anchor & (duplicate | transfer))) & !anchor
        == 0) by (bit_vector);
}

/// The anchor of a path, and where the path stands.
#[derive(Clone, Copy, Debug, PartialEq, Eq, Structural)]
pub struct PathArgs {
    pub anchor: Handle,
    pub address: u64,
    pub length: u64,
}

/// A record that begins with a path.
pub open spec fn path_args_in(raw: Seq<u8>) -> Result<PathArgs, Status> {
    if raw.len() < FILESYSTEM_CREATE_DIRECTORY_ARGS_SIZE || le32_at(raw, 4) != 0 {
        Err(Status::InvalidArgument)
    } else {
        Ok(
            PathArgs {
                anchor: Handle(le32_at(raw, 0) as u32),
                address: le64_at(raw, 8) as u64,
                length: le64_at(raw, 16) as u64,
            },
        )
    }
}

/// Reads a record that begins with a path.
pub fn parse_filesystem_path_args(raw: &[u8]) -> (result: Result<PathArgs, Status>)
    ensures
        result == path_args_in(raw@),
{
    if raw.len() < FILESYSTEM_CREATE_DIRECTORY_ARGS_SIZE || read_u32(raw, 4) != 0 {
        return Err(Status::InvalidArgument);
    }
    Ok(
        PathArgs {
            anchor: Handle(read_u32(raw, 0)),
            address: read_u64(raw, 8),
            length: read_u64(raw, 16),
        },
    )
}

/// What is to be renamed.
#[derive(Clone, Copy, Debug, PartialEq, Eq, Structural)]
pub struct ParsedFilesystemRenameArgs {
    pub source_anchor: Handle,
    pub destination_anchor: Handle,
    pub source_address: u64,
    pub source_length: u64,
    pub destination_address: u64,
    pub destination_length: u64,
    pub flags: u32,
}

/// A record of what to rename.
pub open spec fn rename_args_in(abi: Abi, raw: Seq<u8>) -> Result<
    ParsedFilesystemRenameArgs,
    Status,
> {
    if raw.len() != FILESYSTEM_RENAME_ARGS_SIZE || le32_at(raw, 44) != 0 || !within(
        le32_at(raw, 40) as u32,
        abi.rename_flags,
    ) {
        Err(Status::InvalidArgument)
    } else {
        Ok(
            ParsedFilesystemRenameArgs {
                source_anchor: Handle(le32_at(raw, 0) as u32),
                destination_anchor: Handle(le32_at(raw, 4) as u32),
                source_address: le64_at(raw, 8) as u64,
                source_length: le64_at(raw, 16) as u64,
                destination_address: le64_at(raw, 24) as u64,
                destination_length: le64_at(raw, 32) as u64,
                flags: le32_at(raw, 40) as u32,
            },
        )
    }
}

/// Reads a record of what to rename.
pub fn parse_filesystem_rename_args(abi: &Abi, raw: &[u8]) -> (result: Result<
    ParsedFilesystemRenameArgs,
    Status,
>)
    ensures
        result == rename_args_in(*abi, raw@),
{
    if raw.len() != FILESYSTEM_RENAME_ARGS_SIZE {
        return Err(Status::InvalidArgument);
    }
    let flags: u32 = match checked_bits(read_u32(raw, 40), abi.rename_flags) {
        Some(flags) => flags,
        None => {
            return Err(Status::InvalidArgument);
        },
    };
    if read_u32(raw, 44) != 0 {
        return Err(Status::InvalidArgument);
    }
    Ok(
        ParsedFilesystemRenameArgs {
            source_anchor: Handle(read_u32(raw, 0)),
            destination_anchor: Handle(read_u32(raw, 4)),
            source_address: read_u64(raw, 8),
            source_length: read_u64(raw, 16),
            destination_address: read_u64(raw, 24),
            destination_length: read_u64(raw, 32),
            flags,
        },
    )
}

/// What a name in a directory stands for.
#[derive(Clone, Copy, Debug, PartialEq, Eq, Structural)]
pub enum NodeKind {
    File,
    Directory,
}

/// The number of a kind.
pub open spec fn kind_number(kind: NodeKind) -> u32 {
    match kind {
        NodeKind::File => 1,
        NodeKind::Directory => 2,
    }
}

/// The number of a kind.
pub fn filesystem_kind(kind: NodeKind) -> (number: u32)
    ensures
        number == kind_number(kind),
{
    match kind {
        NodeKind::File => 1,
        NodeKind::Directory => 2,
    }
}

/// A time since the epoch.
#[derive(Clone, Copy, Debug, PartialEq, Eq, Structural)]
pub struct Timestamp {
    pub seconds: u64,
    pub nanoseconds: u32,
}

/// What is known of a file or directory.
#[derive(Clone, Copy, Debug, PartialEq, Eq, Structural)]
pub struct NodeMetadata {
    pub kind: NodeKind,
    pub size: u64,
    pub identity: u64,
    pub mode: u16,
    pub policy: u32,
    pub uid: u32,
    pub gid: u32,
    pub ctime: Timestamp,
    pub mtime: Timestamp,
}

/// A time in nanoseconds, if it is representable.
pub open spec fn nanoseconds_of(seconds: u64, nanoseconds: u32) -> Result<u64, Status> {
    if seconds * 1_000_000_000 + nanoseconds > u64::MAX {
        Err(Status::OutOfRange)
    } else {
        Ok((seconds * 1_000_000_000 + nanoseconds) as u64)
    }
}

/// A time in nanoseconds, if it is representable.
pub fn timestamp_ns(seconds: u64, nanoseconds: u32) -> (result: Result<u64, Status>)
    ensures
        result == nanoseconds_of(seconds, nanoseconds),
{
    match seconds.checked_mul(1_000_000_000) {
        None => Err(Status::OutOfRange),
        Some(whole) => match whole.checked_add(nanoseconds as u64) {
            None => Err(Status::OutOfRange),
            Some(total) => Ok(total),
        },
    }
}

/// The record of what is known of a file or directory.
pub open spec fn metadata_record(metadata: NodeMetadata, ctime: u64, mtime: u64) -> Seq<u8> {
    le_bytes(kind_number(metadata.kind) as int, 4) + le_bytes(metadata.mode as int, 4) + le_bytes(
        metadata.size as int,
        8,
    ) + le_bytes(metadata.identity as int, 8) + le_bytes(ctime as int, 8) + le_bytes(
        mtime as int,
        8,
    ) + le_bytes(metadata.uid as int, 4) + le_bytes(metadata.gid as int, 4) + le_bytes(
        metadata.policy as int,
        4,
    ) + zeros(12)
}

/// Writes the record of what is known of a file or directory.
pub fn encode_filesystem_metadata(metadata: NodeMetadata) -> (result: Result<Vec<u8>, Status>)
    ensures
        match (
            nanoseconds_of(metadata.ctime.seconds, metadata.ctime.nanoseconds),
            nanoseconds_of(metadata.mtime.seconds, metadata.mtime.nanoseconds),
        ) {
            (Ok(ctime), Ok(mtime)) => result matches Ok(output) && output@ == metadata_record(
                metadata,
                ctime,
                mtime,
            ) && output@.len() == FILESYSTEM_METADATA_SIZE,
            _ => result == Err::<Vec<u8>, Status>(Status::OutOfRange),
        },
{
    let ctime: u64 = timestamp_ns(metadata.ctime.seconds, metadata.ctime.nanoseconds)?;
    let mtime: u64 = timestamp_ns(metadata.mtime.seconds, metadata.mtime.nanoseconds)?;
    let mut output: Vec<u8> = Vec::new();
    push_u32(&mut output, filesystem_kind(metadata.kind));
    push_u32(&mut output, metadata.mode as u32);
    push_u64(&mut output, metadata.size);
    push_u64(&mut output, metadata.identity);
    push_u64(&mut output, ctime);
    push_u64(&mut output, mtime);
    push_u32(&mut output, metadata.uid);
    push_u32(&mut output, metadata.gid);
    push_u32(&mut output, metadata.policy);
    push_zeros(&mut output, 12);
    assert(output@ =~= metadata_record(metadata, ctime, mtime));
    Ok(output)
}

/// A name in a directory.
#[derive(Debug)]
pub struct DirectoryEntry {
    pub name: Vec<u8>,
    pub len: u64,
    pub metadata: NodeMetadata,
}

/// Files among the first `count` entries.
pub open spec fn files_before(entries: Seq<DirectoryEntry>, count: nat) -> nat
    decreases count,
{
    if count == 0 {
        0
    } else {
        files_before(entries, (count - 1) as nat) + if entries[count - 1].metadata.kind
            == NodeKind::File {
            1nat
        } else {
            0
        }
    }
}

/// Further on in a directory there are at least as many files before, and one more behind
/// a file.
pub proof fn lemma_files_grow(entries: Seq<DirectoryEntry>, less: nat, more: nat)
    requires
        less <= more,
    ensures
        files_before(entries, less) <= files_before(entries, more),
        less < more && entries[less as int].metadata.kind == NodeKind::File ==> files_before(
            entries,
            less,
        ) < files_before(entries, more),
    decreases more - less,
{
    if less < more {
        lemma_files_grow(entries, less + 1, more);
    }
}

/// Entry `at` is file number `index`.
pub open spec fn is_nth_file(entries: Seq<DirectoryEntry>, index: int, at: int) -> bool {
    &&& 0 <= at < entries.len()
    &&& entries[at].metadata.kind == NodeKind::File
    &&& files_before(entries, at as nat) == index
}

/// The entry that is file number `index`.
pub fn nth_file(entries: &[DirectoryEntry], index: usize) -> (found: Option<usize>)
    ensures
        match found {
            Some(at) => is_nth_file(entries@, index as int, at as int),
            None => files_before(entries@, entries@.len()) <= index,
        },
{
    let mut at: usize = 0;
    let mut files: usize = 0;
    while at < entries.len()
        invariant
            at <= entries@.len(),
            files <= at,
            files <= index,
            files == files_before(entries@, at as nat),
        decreases entries@.len() - at,
    {
        if entries[at].metadata.kind == NodeKind::File {
            if files == index {
                return Some(at);
            }
            files += 1;
        }
        at += 1;
    }
    None
}

/// Entry `at` has the lowest identity above `cookie`, and is the first that has it.
pub open spec fn is_next_entry(entries: Seq<DirectoryEntry>, cookie: u64, at: int) -> bool {
    &&& 0 <= at < entries.len()
    &&& entries[at].metadata.identity > cookie
    &&& forall|i: int|
        0 <= i < entries.len() && (#[trigger] entries[i]).metadata.identity > cookie
            ==> entries[at].metadata.identity < entries[i].metadata.identity || (
        entries[at].metadata.identity == entries[i].metadata.identity && at <= i)
}

/// The entry with the lowest identity above `cookie`, the first of them in the list.
pub fn next_entry(entries: &[DirectoryEntry], cookie: u64) -> (found: Option<usize>)
    ensures
        match found {
            Some(at) => is_next_entry(entries@, cookie, at as int),
            None => forall|i: int|
                0 <= i < entries@.len() ==> (#[trigger] entries@[i]).metadata.identity <= cookie,
        },
{
    let mut found: Option<usize> = None;
    let mut at: usize = 0;
    while at < entries.len()
        invariant
            at <= entries@.len(),
            match found {
                Some(best) => {
                    &&& best < at
                    &&& entries@[best as int].metadata.identity > cookie
                    &&& forall|i: int|
                        0 <= i < at && (#[trigger] entries@[i]).metadata.identity > cookie
                            ==> entries@[best as int].metadata.identity
                            < entries@[i].metadata.identity || (
                        entries@[best as int].metadata.identity == entries@[i].metadata.identity
                            && best <= i)
                },
                None => forall|i: int|
                    0 <= i < at ==> (#[trigger] entries@[i]).metadata.identity <= cookie,
            },
        decreases entries@.len() - at,
    {
        let identity: u64 = entries[at].metadata.identity;
        if identity > cookie {
            match found {
                None => {
                    found = Some(at);
                },
                Some(best) => {
                    if identity < entries[best].metadata.identity {
                        found = Some(at);
                    }
                },
            }
        }
        at += 1;
    }
    found
}

/// The record of a file in a directory.
pub open spec fn file_entry_record(size: int, next_cookie: u64, len: u64, name: Seq<u8>) -> Seq<u8> {
    le_bytes(next_cookie as int, 8) + le_bytes(len as int, 8) + le_bytes(
        name.len() as int % 0x1_0000,
        2,
    ) + zeros(6) + name + zeros((size - 24 - name.len()) as nat)
}

/// Writes the record of a file in a directory.
pub fn encode_file_entry(abi: &Abi, next_cookie: u64, entry: &DirectoryEntry) -> (output: Vec<u8>)
    requires
        24 + entry.name@.len() <= abi.sizes.directory_entry,
    ensures
        output@ == file_entry_record(
            abi.sizes.directory_entry as int,
            next_cookie,
            entry.len,
            entry.name@,
        ),
        output@.len() == abi.sizes.directory_entry,
{
    let mut output: Vec<u8> = Vec::new();
    let length: usize = entry.name.len();
    push_u64(&mut output, next_cookie);
    push_u64(&mut output, entry.len);
    push_u16(&mut output, (length % 0x1_0000) as u16);
    push_zeros(&mut output, 6);
    push_bytes(&mut output, entry.name.as_slice());
    push_zeros(&mut output, abi.sizes.directory_entry as usize - 24 - length);
    assert(output@ =~= file_entry_record(
        abi.sizes.directory_entry as int,
        next_cookie,
        entry.len,
        entry.name@,
    ));
    output
}

/// The record of a name in a directory, with its identity as the next cookie.
pub open spec fn entry_record(metadata: NodeMetadata, name: Seq<u8>) -> Seq<u8> {
    le_bytes(metadata.identity as int, 8) + le_bytes(metadata.size as int, 8) + le_bytes(
        metadata.identity as int,
        8,
    ) + le_bytes(kind_number(metadata.kind) as int, 4) + le_bytes(name.len() as int, 2) + zeros(6)
        + name + zeros((252 - name.len()) as nat)
}

/// Writes the record of a name in a directory.
pub fn encode_directory_entry(entry: &DirectoryEntry) -> (output: Vec<u8>)
    requires
        entry.name@.len() <= 252,
    ensures
        output@ == entry_record(entry.metadata, entry.name@),
        output@.len() == FILESYSTEM_DIRECTORY_ENTRY2_SIZE,
{
    let mut output: Vec<u8> = Vec::new();
    let length: usize = entry.name.len();
    push_u64(&mut output, entry.metadata.identity);
    push_u64(&mut output, entry.metadata.size);
    push_u64(&mut output, entry.metadata.identity);
    push_u32(&mut output, filesystem_kind(entry.metadata.kind));
    push_u16(&mut output, length as u16);
    push_zeros(&mut output, 6);
    push_bytes(&mut output, entry.name.as_slice());
    push_zeros(&mut output, 252 - length);
    assert(output@ =~= entry_record(entry.metadata, entry.name@));
    output
}

/// The record of a file's length.
pub open spec fn stat_record(len: u64) -> Seq<u8> {
    le_bytes(len as int, 8) + zeros(16)
}

/// Writes the record of a file's length.
pub fn encode_stat(len: u64) -> (output: Vec<u8>)
    ensures
        output@ == stat_record(len),
        output@.len() == FILESYSTEM_STAT_SIZE,
{
    let mut output: Vec<u8> = Vec::new();
    push_u64(&mut output, len);
    push_zeros(&mut output, 16);
    assert(output@ =~= stat_record(len));
    output
}

/// What is known of a file system.
#[derive(Clone, Copy, Debug, PartialEq, Eq, Structural)]
pub struct FilesystemInfo {
    pub capacity_bytes: u64,
    pub free_bytes: Option<u64>,
    pub block_size: u64,
}

/// The record of what is known of a file system.
pub open spec fn info_record(abi: Abi, info: FilesystemInfo) -> Seq<u8> {
    let free = match info.free_bytes {
        Some(bytes) => bytes,
        None => 0,
    };
    le_bytes(info.capacity_bytes as int, 8) + le_bytes(free as int, 8) + le_bytes(free as int, 8)
        + le_bytes(info.block_size as int, 4) + le_bytes(abi.limits.filesystem_name as int, 4)
        + le_bytes(abi.limits.traversal_depth as int, 4) + zeros(28)
}

/// Writes the record of what is known of a file system.
pub fn encode_filesystem_info(abi: &Abi, info: FilesystemInfo) -> (result: Result<Vec<u8>, Status>)
    ensures
        if info.block_size > u32::MAX {
            result == Err::<Vec<u8>, Status>(Status::OutOfRange)
        } else {
            result matches Ok(output) && output@ == info_record(*abi, info) && output@.len()
                == FILESYSTEM_INFO_SIZE
        },
{
    if info.block_size > u32::MAX as u64 {
        return Err(Status::OutOfRange);
    }
    let free: u64 = match info.free_bytes {
        Some(bytes) => bytes,
        None => 0,
    };
    let mut output: Vec<u8> = Vec::new();
    push_u64(&mut output, info.capacity_bytes);
    push_u64(&mut output, free);
    push_u64(&mut output, free);
    push_u32(&mut output, info.block_size as u32);
    push_u32(&mut output, abi.limits.filesystem_name);
    push_u32(&mut output, abi.limits.traversal_depth);
    push_zeros(&mut output, 28);
    assert(output@ =~= info_record(*abi, info));
    Ok(output)
}

} // verus!
