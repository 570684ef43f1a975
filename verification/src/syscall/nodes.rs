//! System calls on what is known of files and directories.
use vstd::prelude::*;

use crate::bytes::{le32_at, le64_at, read_u32, read_u64};

use super::abi::{contains_bits, has_bits, Abi, Handle, ObjectType, Status};
use super::files::{
    anchor_end, anchor_failed, anchor_of, anchor_ok, checked_output, located, not_located,
    path_failed, path_ok, path_record, DirectoryAnchor,
};
use super::kernel::{
    asked_at, ended_at, failed_in, passed, ran_through, rejected, stopped_at, Ask, Call, Event,
    Kernel, Session,
};
use super::paths::{
    encode_directory_entry, encode_file_entry, encode_filesystem_info, encode_filesystem_metadata,
    encode_stat, entry_record, file_entry_record, files_before, info_record, is_next_entry,
    is_nth_file, is_protected_system_path, metadata_record, nanoseconds_of, next_entry, nth_file,
    parse_filesystem_path_args, parse_filesystem_rename_args, protected_path, rename_args_in,
    stat_record, DirectoryEntry, FilesystemInfo, NodeMetadata, ParsedFilesystemRenameArgs,
    PathArgs, FILESYSTEM_DIRECTORY_ENTRY2_SIZE, FILESYSTEM_GET_INFO_ARGS_SIZE,
    FILESYSTEM_GET_METADATA_ARGS_SIZE, FILESYSTEM_INFO_SIZE, FILESYSTEM_METADATA_SIZE,
    FILESYSTEM_READ_DIRECTORY2_ARGS_SIZE, FILESYSTEM_RENAME_ARGS_SIZE, FILESYSTEM_STAT_SIZE,
    FILESYSTEM_SYNC_ARGS_SIZE,
};
use super::request_wire::Node;
use super::wire::{decode_handle, handle_in};

verus! {

broadcast use super::heard::group_heard;

/// The two directories of a rename are found from event `at` on, and the name changes
/// hands, unless one of the two paths belongs to the system.
pub open spec fn renamed_between(
    abi: Abi,
    args: ParsedFilesystemRenameArgs,
    source_path: Seq<u8>,
    destination_path: Seq<u8>,
    log: Seq<Event>,
    at: int,
    result: Result<(), Status>,
) -> bool {
    let middle = anchor_end(log, at);
    let end = anchor_end(log, middle);
    let source = anchor_of(log, at);
    let destination = anchor_of(log, middle);
    ||| anchor_failed(args.source_anchor, abi.rights.write, log, at, result)
    ||| {
        &&& anchor_ok(args.source_anchor, abi.rights.write, log, at)
        &&& {
            ||| anchor_failed(args.destination_anchor, abi.rights.write, log, middle, result)
            ||| {
                &&& anchor_ok(args.destination_anchor, abi.rights.write, log, middle)
                &&& if (source.is_root && protected_path(source_path)) || (destination.is_root
                    && protected_path(destination_path)) {
                    log.len() == end && result == Err::<(), Status>(Status::AccessDenied)
                } else {
                    ran_through(
                        log,
                        end,
                        seq![
                            Ask::Rename {
                                source: source.directory,
                                source_path,
                                destination: destination.directory,
                                destination_path,
                                replace: has_bits(args.flags, abi.rename_replace),
                            },
                        ],
                        result,
                    )
                }
            }
        }
    }
}

/// The two paths of a rename are read from event `at` on, then the rename follows.
pub open spec fn renamed(
    abi: Abi,
    args: ParsedFilesystemRenameArgs,
    log: Seq<Event>,
    at: int,
    result: Result<(), Status>,
) -> bool {
    ||| path_failed(abi, args.source_address, args.source_length, log, at, result)
    ||| {
        &&& path_ok(abi, args.source_address, args.source_length, log, at)
        &&& {
            ||| path_failed(
                abi,
                args.destination_address,
                args.destination_length,
                log,
                at + 1,
                result,
            )
            ||| {
                &&& path_ok(abi, args.destination_address, args.destination_length, log, at + 1)
                &&& renamed_between(
                    abi,
                    args,
                    log[at].bytes(),
                    log[at + 1].bytes(),
                    log,
                    at + 2,
                    result,
                )
            }
        }
    }
}

/// What is asked for the metadata of a path: it is opened as a file, and as a directory
/// where that is what it is.
pub open spec fn metadata_plan(directory: Node, path: Seq<u8>, log: Seq<Event>, at: int) -> Seq<Ask> {
    match log[at].refused() {
        None => seq![Ask::Plain(Call::FileMetadata { file: log[at].node() })],
        _ => seq![
            Ask::With(Call::OpenDirectoryAt { directory }, path),
            Ask::Plain(Call::DirectoryMetadata { directory: log[at + 1].node() }),
        ],
    }
}

/// The path is opened from event `at` on, as a file or as a directory.
pub open spec fn node_opened(directory: Node, path: Seq<u8>, log: Seq<Event>, at: int) -> bool {
    &&& asked_at(log, at, Ask::With(Call::OpenFileAt { directory }, path))
    &&& log[at].refused() is None || log[at].refused() == Some(Status::IsDirectory)
}

/// Metadata was found.
pub open spec fn metadata_ok(directory: Node, path: Seq<u8>, log: Seq<Event>, at: int) -> bool {
    node_opened(directory, path, log, at) && passed(
        log,
        at + 1,
        metadata_plan(directory, path, log, at),
    )
}

/// Metadata was not found.
pub open spec fn metadata_failed<T>(
    directory: Node,
    path: Seq<u8>,
    log: Seq<Event>,
    at: int,
    result: Result<T, Status>,
) -> bool {
    if node_opened(directory, path, log, at) {
        failed_in(log, at + 1, metadata_plan(directory, path, log, at), result)
    } else {
        asked_at(log, at, Ask::With(Call::OpenFileAt { directory }, path)) && ended_at(
            log,
            at,
            result,
        )
    }
}

/// Where the log stands after metadata was found.
pub open spec fn metadata_end(log: Seq<Event>, at: int) -> int {
    match log[at].refused() {
        None => at + 2,
        _ => at + 3,
    }
}

/// The metadata of a node is written down.
pub open spec fn metadata_given(
    metadata: NodeMetadata,
    address: u64,
    log: Seq<Event>,
    at: int,
    result: Result<(), Status>,
) -> bool {
    match (
        nanoseconds_of(metadata.ctime.seconds, metadata.ctime.nanoseconds),
        nanoseconds_of(metadata.mtime.seconds, metadata.mtime.nanoseconds),
    ) {
        (Ok(ctime), Ok(mtime)) => ran_through(
            log,
            at,
            seq![
                Ask::With(Call::CopyOut { address }, metadata_record(metadata, ctime, mtime)),
            ],
            result,
        ),
        _ => log.len() == at && result == Err::<(), Status>(Status::OutOfRange),
    }
}

/// The metadata of a path is found and written down.
pub open spec fn metadata_served(
    abi: Abi,
    args: PathArgs,
    address: u64,
    log: Seq<Event>,
    at: int,
    result: Result<(), Status>,
) -> bool {
    let end = anchor_end(log, at + 1);
    let directory = anchor_of(log, at + 1).directory;
    let path = log[at].bytes();
    ||| not_located(abi, args, abi.rights.read, log, at, result)
    ||| {
        &&& located(abi, args, abi.rights.read, log, at)
        &&& {
            ||| metadata_failed(directory, path, log, end, result)
            ||| {
                let after = metadata_end(log, end);
                &&& metadata_ok(directory, path, log, end)
                &&& metadata_given(
                    log[after - 1].answer->Metadata_0->Ok_0,
                    address,
                    log,
                    after,
                    result,
                )
            }
        }
    }
}

/// What is known of a file system is asked for from event `at` on, and written down.
pub open spec fn info_served(
    abi: Abi,
    handle: Handle,
    address: u64,
    log: Seq<Event>,
    at: int,
    result: Result<(), Status>,
) -> bool {
    let end = anchor_end(log, at);
    let info = log[end].answer->FilesystemInfo_0->Ok_0;
    ||| anchor_failed(handle, abi.rights.read, log, at, result)
    ||| {
        &&& anchor_ok(handle, abi.rights.read, log, at)
        &&& asked_at(log, end, Ask::FilesystemInfo)
        &&& if log[end].refused() is Some {
            ended_at(log, end, result)
        } else if info.block_size > u32::MAX {
            stopped_at(log, end, result, Status::OutOfRange)
        } else {
            ran_through(
                log,
                end + 1,
                seq![Ask::With(Call::CopyOut { address }, info_record(abi, info))],
                result,
            )
        }
    }
}

/// Entry `at` of a directory is written down as a file.
pub open spec fn file_entry_given(
    abi: Abi,
    entries: Seq<DirectoryEntry>,
    at: int,
    cookie: u64,
    address: u64,
    log: Seq<Event>,
    end: int,
    result: Result<(), Status>,
) -> bool {
    if cookie == u64::MAX {
        stopped_at(log, end, result, Status::OutOfRange)
    } else if 24 + entries[at].name@.len() > abi.sizes.directory_entry {
        stopped_at(log, end, result, Status::Io)
    } else {
        ran_through(
            log,
            end + 1,
            seq![
                Ask::With(
                    Call::CopyOut { address },
                    file_entry_record(
                        abi.sizes.directory_entry as int,
                        (cookie + 1) as u64,
                        entries[at].len,
                        entries[at].name@,
                    ),
                ),
            ],
            result,
        )
    }
}

/// File number `cookie` of a directory is found and written down.
pub open spec fn file_listed(
    abi: Abi,
    handle: Handle,
    cookie: u64,
    address: u64,
    log: Seq<Event>,
    at: int,
    result: Result<(), Status>,
) -> bool {
    let end = anchor_end(log, at);
    let entries = log[end].answer->Entries_0->Ok_0;
    ||| anchor_failed(handle, abi.rights.read, log, at, result)
    ||| {
        &&& anchor_ok(handle, abi.rights.read, log, at)
        &&& if cookie > usize::MAX {
            log.len() == end && result == Err::<(), Status>(Status::OutOfRange)
        } else {
            &&& asked_at(log, end, Ask::ListDirectory(anchor_of(log, at).directory))
            &&& if log[end].refused() is Some {
                ended_at(log, end, result)
            } else if files_before(entries, entries.len()) <= cookie {
                stopped_at(log, end, result, Status::EndOfDirectory)
            } else {
                exists|i: int| #[trigger]
                    is_nth_file(entries, cookie as int, i) && file_entry_given(
                        abi,
                        entries,
                        i,
                        cookie,
                        address,
                        log,
                        end,
                        result,
                    )
            }
        }
    }
}

/// Entry `at` of a directory is written down.
pub open spec fn entry_given(
    entries: Seq<DirectoryEntry>,
    at: int,
    address: u64,
    log: Seq<Event>,
    end: int,
    result: Result<(), Status>,
) -> bool {
    if entries[at].name@.len() > 252 {
        stopped_at(log, end, result, Status::Io)
    } else {
        ran_through(
            log,
            end + 1,
            seq![
                Ask::With(
                    Call::CopyOut { address },
                    entry_record(entries[at].metadata, entries[at].name@),
                ),
            ],
            result,
        )
    }
}

/// The entry that follows `cookie` in a directory is found and written down.
pub open spec fn entry_listed(
    abi: Abi,
    handle: Handle,
    cookie: u64,
    address: u64,
    log: Seq<Event>,
    at: int,
    result: Result<(), Status>,
) -> bool {
    let end = anchor_end(log, at);
    let entries = log[end].answer->Entries_0->Ok_0;
    ||| anchor_failed(handle, abi.rights.read, log, at, result)
    ||| {
        &&& anchor_ok(handle, abi.rights.read, log, at)
        &&& asked_at(log, end, Ask::ListDirectory(anchor_of(log, at).directory))
        &&& if log[end].refused() is Some {
            ended_at(log, end, result)
        } else if forall|i: int|
            0 <= i < entries.len() ==> (#[trigger] entries[i]).metadata.identity <= cookie {
            stopped_at(log, end, result, Status::EndOfDirectory)
        } else {
            exists|i: int| #[trigger]
                is_next_entry(entries, cookie, i) && entry_given(
                    entries,
                    i,
                    address,
                    log,
                    end,
                    result,
                )
        }
    }
}

/// What is asked to find what a handle names, to write all of it to the disk.
pub open spec fn sync_plan(abi: Abi, handle: Handle, log: Seq<Event>, at: int) -> Seq<Ask> {
    let first = seq![Ask::Plain(Call::ObjectType { handle })];
    let rights = abi.rights.write;
    match log[at].answer->ObjectType_0 {
        Ok(ObjectType::FilesystemRoot) => first.push(Ask::Plain(Call::Root { handle, rights })),
        Ok(ObjectType::Directory) => first.push(Ask::Plain(Call::Directory { handle, rights })),
        Ok(ObjectType::File) => first.push(Ask::Plain(Call::File { handle, rights })),
        _ => first,
    }
}

/// The handle names something of a file system.
pub open spec fn names_node(log: Seq<Event>, at: int) -> bool {
    let named = log[at].answer->ObjectType_0;
    ||| named == Ok::<ObjectType, Status>(ObjectType::FilesystemRoot)
    ||| named == Ok::<ObjectType, Status>(ObjectType::Directory)
    ||| named == Ok::<ObjectType, Status>(ObjectType::File)
}

/// What is to be written to the disk was found.
pub open spec fn sync_ok(abi: Abi, handle: Handle, log: Seq<Event>, at: int) -> bool {
    passed(log, at, sync_plan(abi, handle, log, at)) && names_node(log, at)
}

/// What is to be written to the disk was not found.
pub open spec fn sync_failed<T>(
    abi: Abi,
    handle: Handle,
    log: Seq<Event>,
    at: int,
    result: Result<T, Status>,
) -> bool {
    ||| failed_in(log, at, sync_plan(abi, handle, log, at), result)
    ||| passed(log, at, sync_plan(abi, handle, log, at)) && !names_node(log, at) && stopped_at(
        log,
        at,
        result,
        Status::WrongObjectType,
    )
}

/// The node that is to be written to the disk; none stands for the root.
pub open spec fn sync_node(log: Seq<Event>, at: int) -> Option<Node> {
    if log[at].answer->ObjectType_0->Ok_0 is FilesystemRoot {
        None
    } else {
        Some(log[at + 1].node())
    }
}

/// A record of a handle and a word that is zero: the record is read, then what `rest` says
/// happens from the event after it on.
pub open spec fn handle_args<T>(
    args_address: u64,
    length: usize,
    log: Seq<Event>,
    base: int,
    result: Result<T, Status>,
    rest: spec_fn(Handle, Seq<u8>) -> bool,
) -> bool {
    &&& asked_at(log, base, Ask::Plain(Call::CopyIn { address: args_address, length }))
    &&& if log[base].refused() is Some {
        ended_at(log, base, result)
    } else if le32_at(log[base].bytes(), 4) != 0 {
        stopped_at(log, base, result, Status::InvalidArgument)
    } else {
        rest(Handle(le32_at(log[base].bytes(), 0) as u32), log[base].bytes())
    }
}

/// What `filesystem_rename` asks for, and what comes of it.
pub open spec fn did_filesystem_rename(
    abi: Abi,
    args_address: u64,
    before: Seq<Event>,
    log: Seq<Event>,
    result: Result<(), Status>,
) -> bool {
    let base = before.len() as int;
    &&& asked_at(
        log,
        base,
        Ask::Plain(
            Call::CopyIn { address: args_address, length: FILESYSTEM_RENAME_ARGS_SIZE },
        ),
    )
    &&& if log[base].refused() is Some {
        ended_at(log, base, result)
    } else {
        match rename_args_in(abi, log[base].bytes()) {
            Err(status) => stopped_at(log, base, result, status),
            Ok(args) => renamed(abi, args, log, base + 1, result),
        }
    }
}

/// What `filesystem_get_metadata` asks for, and what comes of it.
pub open spec fn did_filesystem_get_metadata(
    abi: Abi,
    args_address: u64,
    before: Seq<Event>,
    log: Seq<Event>,
    result: Result<(), Status>,
) -> bool {
    let base = before.len() as int;
    path_record(
        args_address,
        FILESYSTEM_GET_METADATA_ARGS_SIZE,
        log,
        base,
        result,
        |args: PathArgs, raw: Seq<u8>|
            checked_output(
                le64_at(raw, 24) as u64,
                FILESYSTEM_METADATA_SIZE,
                log,
                base + 1,
                result,
                metadata_served(
                    abi,
                    args,
                    le64_at(raw, 24) as u64,
                    log,
                    base + 2,
                    result,
                ),
            ),
    )
}

/// What `filesystem_get_info` asks for, and what comes of it.
pub open spec fn did_filesystem_get_info(
    abi: Abi,
    args_address: u64,
    before: Seq<Event>,
    log: Seq<Event>,
    result: Result<(), Status>,
) -> bool {
    let base = before.len() as int;
    handle_args(
        args_address,
        FILESYSTEM_GET_INFO_ARGS_SIZE,
        log,
        base,
        result,
        |handle: Handle, raw: Seq<u8>|
            checked_output(
                le64_at(raw, 8) as u64,
                FILESYSTEM_INFO_SIZE,
                log,
                base + 1,
                result,
                info_served(
                    abi,
                    handle,
                    le64_at(raw, 8) as u64,
                    log,
                    base + 2,
                    result,
                ),
            ),
    )
}

/// What `filesystem_read_directory` asks for, and what comes of it.
pub open spec fn did_filesystem_read_directory(
    abi: Abi,
    raw_anchor: u64,
    cookie: u64,
    output_address: u64,
    before: Seq<Event>,
    log: Seq<Event>,
    result: Result<(), Status>,
) -> bool {
    match handle_in(raw_anchor) {
        Err(status) => rejected(before, log, result, status),
        Ok(handle) => checked_output(
            output_address,
            abi.sizes.directory_entry as usize,
            log,
            before.len() as int,
            result,
            file_listed(
                abi,
                handle,
                cookie,
                output_address,
                log,
                before.len() as int + 1,
                result,
            ),
        ),
    }
}

/// What `filesystem_read_directory2` asks for, and what comes of it.
pub open spec fn did_filesystem_read_directory2(
    abi: Abi,
    args_address: u64,
    before: Seq<Event>,
    log: Seq<Event>,
    result: Result<(), Status>,
) -> bool {
    let base = before.len() as int;
    handle_args(
        args_address,
        FILESYSTEM_READ_DIRECTORY2_ARGS_SIZE,
        log,
        base,
        result,
        |handle: Handle, raw: Seq<u8>|
            checked_output(
                le64_at(raw, 16) as u64,
                FILESYSTEM_DIRECTORY_ENTRY2_SIZE,
                log,
                base + 1,
                result,
                entry_listed(
                    abi,
                    handle,
                    le64_at(raw, 8) as u64,
                    le64_at(raw, 16) as u64,
                    log,
                    base + 2,
                    result,
                ),
            ),
    )
}

/// What `filesystem_stat` asks for, and what comes of it.
pub open spec fn did_filesystem_stat(
    abi: Abi,
    raw_file: u64,
    output_address: u64,
    before: Seq<Event>,
    log: Seq<Event>,
    result: Result<(), Status>,
) -> bool {
    let base = before.len() as int;
    match handle_in(raw_file) {
        Err(status) => rejected(before, log, result, status),
        Ok(handle) => ran_through(
            log,
            base,
            seq![
                Ask::Plain(
                    Call::CheckOutput {
                        address: output_address,
                        length: FILESYSTEM_STAT_SIZE,
                    },
                ),
                Ask::Plain(Call::File { handle, rights: abi.rights.read }),
                Ask::Plain(Call::FileLength { file: log[base + 1].node() }),
                Ask::With(
                    Call::CopyOut { address: output_address },
                    stat_record(log[base + 2].number()),
                ),
            ],
            result,
        ),
    }
}

/// What `filesystem_truncate` asks for, and what comes of it.
pub open spec fn did_filesystem_truncate(
    abi: Abi,
    raw_file: u64,
    length: u64,
    before: Seq<Event>,
    log: Seq<Event>,
    result: Result<(), Status>,
) -> bool {
    let base = before.len() as int;
    match handle_in(raw_file) {
        Err(status) => rejected(before, log, result, status),
        Ok(handle) => ran_through(
            log,
            base,
            seq![
                Ask::Plain(Call::File { handle, rights: abi.rights.write }),
                Ask::Plain(Call::TruncateFile { file: log[base].node(), length }),
            ],
            result,
        ),
    }
}

impl<K: Kernel> Session<K> {
    /// Gives a file or directory another name.
    pub fn filesystem_rename(&mut self, args_address: u64) -> (result: Result<(), Status>)
        ensures
            final(self).kept(*old(self)),
            did_filesystem_rename(
                old(self).abi,
                args_address,
                old(self).log@,
                final(self).log@,
                result,
            ),
    {
        let raw: Vec<u8> = self.copy_in(args_address, FILESYSTEM_RENAME_ARGS_SIZE)?;
        let args: ParsedFilesystemRenameArgs = parse_filesystem_rename_args(
            &self.abi,
            raw.as_slice(),
        )?;
        let source_path: Vec<u8> = self.copy_filesystem_path(
            args.source_address,
            args.source_length,
        )?;
        let destination_path: Vec<u8> = self.copy_filesystem_path(
            args.destination_address,
            args.destination_length,
        )?;
        let required: u32 = self.abi.rights.write;
        let source: DirectoryAnchor = self.resolve_directory_anchor(args.source_anchor, required)?;
        let destination: DirectoryAnchor = self.resolve_directory_anchor(
            args.destination_anchor,
            required,
        )?;
        if (source.is_root && is_protected_system_path(source_path.as_slice())) || (
        destination.is_root && is_protected_system_path(destination_path.as_slice())) {
            return Err(Status::AccessDenied);
        }
        self.rename(
            source.directory,
            source_path.as_slice(),
            destination.directory,
            destination_path.as_slice(),
            contains_bits(args.flags, self.abi.rename_replace),
        )
    }

    /// The metadata of a path, whatever it names.
    pub fn metadata_at(&mut self, directory: Node, path: &[u8]) -> (result: Result<
        NodeMetadata,
        Status,
    >)
        ensures
            final(self).kept(*old(self)),
            ({
                let log = final(self).log@;
                let at = old(self).log@.len() as int;
                match result {
                    Ok(metadata) => {
                        &&& metadata_ok(directory, path@, log, at)
                        &&& log.len() == metadata_end(log, at)
                        &&& metadata == log[log.len() - 1].answer->Metadata_0->Ok_0
                    },
                    Err(_) => metadata_failed(directory, path@, log, at, result),
                }
            }),
    {
        match self.path_node(Call::OpenFileAt { directory }, path) {
            Ok(file) => self.metadata(Call::FileMetadata { file }),
            Err(Status::IsDirectory) => {
                let found: Node = self.path_node(Call::OpenDirectoryAt { directory }, path)?;
                self.metadata(Call::DirectoryMetadata { directory: found })
            },
            Err(status) => Err(status),
        }
    }

    /// Writes down what is known of a file or directory.
    pub fn filesystem_get_metadata(&mut self, args_address: u64) -> (result: Result<(), Status>)
        ensures
            final(self).kept(*old(self)),
            did_filesystem_get_metadata(
                old(self).abi,
                args_address,
                old(self).log@,
                final(self).log@,
                result,
            ),
    {
        let raw: Vec<u8> = self.copy_in(args_address, FILESYSTEM_GET_METADATA_ARGS_SIZE)?;
        let args: PathArgs = parse_filesystem_path_args(raw.as_slice())?;
        let output_address: u64 = read_u64(raw.as_slice(), 24);
        self.check_output(output_address, FILESYSTEM_METADATA_SIZE)?;
        let required: u32 = self.abi.rights.read;
        let (path, anchor): (Vec<u8>, DirectoryAnchor) = self.locate(&args, required)?;
        let metadata: NodeMetadata = self.metadata_at(anchor.directory, path.as_slice())?;
        let output: Vec<u8> = encode_filesystem_metadata(metadata)?;
        self.copy_out(output_address, output.as_slice())
    }

    /// Writes down what is known of the file system.
    pub fn filesystem_get_info(&mut self, args_address: u64) -> (result: Result<(), Status>)
        ensures
            final(self).kept(*old(self)),
            did_filesystem_get_info(
                old(self).abi,
                args_address,
                old(self).log@,
                final(self).log@,
                result,
            ),
    {
        let raw: Vec<u8> = self.copy_in(args_address, FILESYSTEM_GET_INFO_ARGS_SIZE)?;
        let handle: Handle = Handle(read_u32(raw.as_slice(), 0));
        if read_u32(raw.as_slice(), 4) != 0 {
            return Err(Status::InvalidArgument);
        }
        let output_address: u64 = read_u64(raw.as_slice(), 8);
        self.check_output(output_address, FILESYSTEM_INFO_SIZE)?;
        let required: u32 = self.abi.rights.read;
        self.resolve_directory_anchor(handle, required)?;
        let info: FilesystemInfo = self.filesystem_info()?;
        let output: Vec<u8> = encode_filesystem_info(&self.abi, info)?;
        self.copy_out(output_address, output.as_slice())
    }

    /// Writes down one file of a directory. The cookie counts the files before it.
    ///
    /// A name that does not fit the record is an error of the file system.
    pub fn filesystem_read_directory(&mut self, raw_anchor: u64, cookie: u64, output_address: u64) -> (result:
        Result<(), Status>)
        ensures
            final(self).kept(*old(self)),
            did_filesystem_read_directory(
                old(self).abi,
                raw_anchor,
                cookie,
                output_address,
                old(self).log@,
                final(self).log@,
                result,
            ),
    {
        let handle: Handle = decode_handle(raw_anchor)?;
        let size: usize = self.abi.sizes.directory_entry as usize;
        self.check_output(output_address, size)?;
        let required: u32 = self.abi.rights.read;
        let anchor: DirectoryAnchor = self.resolve_directory_anchor(handle, required)?;
        if cookie > usize::MAX as u64 {
            return Err(Status::OutOfRange);
        }
        let entries: Vec<DirectoryEntry> = self.list_directory(anchor.directory)?;
        match nth_file(entries.as_slice(), cookie as usize) {
            None => Err(Status::EndOfDirectory),
            Some(at) => {
                assert(is_nth_file(entries@, cookie as int, at as int));
                proof {
                    super::paths::lemma_files_grow(entries@, at as nat, entries@.len());
                }
                if cookie == u64::MAX {
                    return Err(Status::OutOfRange);
                }
                if entries[at].name.len() > size || size - entries[at].name.len() < 24 {
                    return Err(Status::Io);
                }
                let output: Vec<u8> = encode_file_entry(&self.abi, cookie + 1, &entries[at]);
                self.copy_out(output_address, output.as_slice())
            },
        }
    }

    /// Writes down the entry of a directory that follows `cookie` in the order of
    /// identities.
    ///
    /// A name that does not fit the record is an error of the file system.
    pub fn filesystem_read_directory2(&mut self, args_address: u64) -> (result: Result<(), Status>)
        ensures
            final(self).kept(*old(self)),
            did_filesystem_read_directory2(
                old(self).abi,
                args_address,
                old(self).log@,
                final(self).log@,
                result,
            ),
    {
        let raw: Vec<u8> = self.copy_in(args_address, FILESYSTEM_READ_DIRECTORY2_ARGS_SIZE)?;
        let handle: Handle = Handle(read_u32(raw.as_slice(), 0));
        if read_u32(raw.as_slice(), 4) != 0 {
            return Err(Status::InvalidArgument);
        }
        let cookie: u64 = read_u64(raw.as_slice(), 8);
        let output_address: u64 = read_u64(raw.as_slice(), 16);
        self.check_output(output_address, FILESYSTEM_DIRECTORY_ENTRY2_SIZE)?;
        let required: u32 = self.abi.rights.read;
        let anchor: DirectoryAnchor = self.resolve_directory_anchor(handle, required)?;
        let entries: Vec<DirectoryEntry> = self.list_directory(anchor.directory)?;
        match next_entry(entries.as_slice(), cookie) {
            None => Err(Status::EndOfDirectory),
            Some(at) => {
                assert(is_next_entry(entries@, cookie, at as int));
                if entries[at].name.len() > 252 {
                    return Err(Status::Io);
                }
                let output: Vec<u8> = encode_directory_entry(&entries[at]);
                self.copy_out(output_address, output.as_slice())
            },
        }
    }

    /// Writes down the length of a file.
    pub fn filesystem_stat(&mut self, raw_file: u64, output_address: u64) -> (result: Result<
        (),
        Status,
    >)
        ensures
            final(self).kept(*old(self)),
            did_filesystem_stat(
                old(self).abi,
                raw_file,
                output_address,
                old(self).log@,
                final(self).log@,
                result,
            ),
    {
        let handle: Handle = decode_handle(raw_file)?;
        self.check_output(output_address, FILESYSTEM_STAT_SIZE)?;
        let rights: u32 = self.abi.rights.read;
        let file: Node = self.node(Call::File { handle, rights })?;
        let length: u64 = self.number(Call::FileLength { file })?;
        let output: Vec<u8> = encode_stat(length);
        self.copy_out(output_address, output.as_slice())
    }

    /// Cuts a file off, or extends it.
    pub fn filesystem_truncate(&mut self, raw_file: u64, length: u64) -> (result: Result<(), Status>)
        ensures
            final(self).kept(*old(self)),
            did_filesystem_truncate(
                old(self).abi,
                raw_file,
                length,
                old(self).log@,
                final(self).log@,
                result,
            ),
    {
        let handle: Handle = decode_handle(raw_file)?;
        let rights: u32 = self.abi.rights.write;
        let file: Node = self.node(Call::File { handle, rights })?;
        self.done(Call::TruncateFile { file, length })
    }

    /// Finds what a handle names, to write all of it to the disk.
    pub fn synced_node(&mut self, handle: Handle) -> (result: Result<Option<Node>, Status>)
        ensures
            final(self).kept(*old(self)),
            ({
                let log = final(self).log@;
                let at = old(self).log@.len() as int;
                match result {
                    Ok(node) => sync_ok(old(self).abi, handle, log, at) && log.len() == at + 2
                        && node == sync_node(log, at),
                    Err(_) => sync_failed(old(self).abi, handle, log, at, result),
                }
            }),
    {
        let rights: u32 = self.abi.rights.write;
        match self.object_type(handle)? {
            ObjectType::FilesystemRoot => {
                self.done(Call::Root { handle, rights })?;
                Ok(None)
            },
            ObjectType::Directory => {
                let directory: Node = self.node(Call::Directory { handle, rights })?;
                Ok(Some(directory))
            },
            ObjectType::File => {
                let file: Node = self.node(Call::File { handle, rights })?;
                Ok(Some(file))
            },
            _ => Err(Status::WrongObjectType),
        }
    }

    /// Writes the file system to the disk, and waits for it.
    pub fn filesystem_sync(&mut self, args_address: u64) -> (result: Result<(), Status>)
        ensures
            final(self).kept(*old(self)),
            ({
                let log = final(self).log@;
                let base = old(self).log@.len() as int;
                handle_args(
                    args_address,
                    FILESYSTEM_SYNC_ARGS_SIZE,
                    log,
                    base,
                    result,
                    |handle: Handle, raw: Seq<u8>|
                        {
                            ||| sync_failed(old(self).abi, handle, log, base + 1, result)
                            ||| sync_ok(old(self).abi, handle, log, base + 1) && ran_through(
                                log,
                                base + 3,
                                seq![Ask::Plain(Call::SyncFilesystem)],
                                result,
                            )
                        },
                )
            }),
    {
        let raw: Vec<u8> = self.copy_in(args_address, FILESYSTEM_SYNC_ARGS_SIZE)?;
        let handle: Handle = Handle(read_u32(raw.as_slice(), 0));
        if read_u32(raw.as_slice(), 4) != 0 {
            return Err(Status::InvalidArgument);
        }
        let _: Option<Node> = self.synced_node(handle)?;
        self.done(Call::SyncFilesystem)
    }
}

} // verus!
