//! System calls on the names of files and directories.
use vstd::prelude::*;
use vstd::utf8::valid_utf8;

use crate::bytes::{le64_at, read_u64};
use crate::text::utf8_text;

use super::abi::{Abi, Handle, ObjectType, Status};
use super::handles::close_asks;
use super::kernel::{
    asked_at, asked_from, ended_at, failed_in, passed, ran_through, rejected, stopped_at, Ask, Call,
    Event, Kernel, Session,
};
use super::paths::{
    child_directory_rights, child_rights, is_protected_system_path, last_separator,
    parse_filesystem_path_args, path_args_in, path_checked, path_limit, path_max, protected_path,
    split_parent, validate_filesystem_path, PathArgs, FILESYSTEM_CREATE_DIRECTORY_ARGS_SIZE,
    FILESYSTEM_OPEN_DIRECTORY_ARGS_SIZE, FILESYSTEM_REMOVE_DIRECTORY_ARGS_SIZE,
};
use super::request_wire::Node;
use super::wire::{
    array_bytes, checked_array_bytes, decode_handle, encode_handle_output, handle_in,
    handle_record, HANDLE_OUTPUT_SIZE,
};

verus! {

broadcast use super::heard::group_heard;

/// A directory that paths start from.
#[derive(Clone, Copy, Debug, PartialEq, Eq, Structural)]
pub struct DirectoryAnchor {
    pub directory: Node,
    pub rights: u32,
    pub is_root: bool,
}

/// What is asked to find the directory of a handle: what the handle names, the rights it
/// has, and the directory with the rights that are needed.
pub open spec fn anchor_plan(handle: Handle, required: u32, log: Seq<Event>, at: int) -> Seq<Ask> {
    let first = seq![
        Ask::Plain(Call::ObjectType { handle }),
        Ask::Plain(Call::HandleRights { handle }),
    ];
    match log[at].answer->ObjectType_0 {
        Ok(ObjectType::FilesystemRoot) => first.push(
            Ask::Plain(Call::Root { handle, rights: required }),
        ).push(Ask::Plain(Call::RootDirectory)),
        Ok(ObjectType::Directory) => first.push(
            Ask::Plain(Call::Directory { handle, rights: required }),
        ),
        _ => first,
    }
}

/// The handle names a directory or the root.
pub open spec fn names_directory(log: Seq<Event>, at: int) -> bool {
    log[at].answer->ObjectType_0 == Ok::<ObjectType, Status>(ObjectType::FilesystemRoot)
        || log[at].answer->ObjectType_0 == Ok::<ObjectType, Status>(ObjectType::Directory)
}

/// The directory was found.
pub open spec fn anchor_ok(handle: Handle, required: u32, log: Seq<Event>, at: int) -> bool {
    passed(log, at, anchor_plan(handle, required, log, at)) && names_directory(log, at)
}

/// The directory was not found.
pub open spec fn anchor_failed<T>(
    handle: Handle,
    required: u32,
    log: Seq<Event>,
    at: int,
    result: Result<T, Status>,
) -> bool {
    let plan = anchor_plan(handle, required, log, at);
    ||| failed_in(log, at, plan, result)
    ||| passed(log, at, plan) && !names_directory(log, at) && stopped_at(
        log,
        at + 1,
        result,
        Status::WrongObjectType,
    )
}

/// The directory that was found.
pub open spec fn anchor_of(log: Seq<Event>, at: int) -> DirectoryAnchor {
    let is_root = log[at].answer->ObjectType_0->Ok_0 is FilesystemRoot;
    DirectoryAnchor {
        directory: if is_root {
            log[at + 3].node()
        } else {
            log[at + 2].node()
        },
        rights: log[at + 1].answer->Bits_0->Ok_0,
        is_root,
    }
}

/// Where the log stands after the directory was found.
pub open spec fn anchor_end(log: Seq<Event>, at: int) -> int {
    if log[at].answer->ObjectType_0->Ok_0 is FilesystemRoot {
        at + 4
    } else {
        at + 3
    }
}

/// Bytes of a path, if it is neither empty nor too long.
pub open spec fn path_length(abi: Abi, raw_length: u64) -> Result<usize, Status> {
    match array_bytes(raw_length, 1, path_limit(abi) as u64, Status::OutOfRange) {
        Err(status) => Err(status),
        Ok(length) => if length == 0 {
            Err(Status::InvalidArgument)
        } else {
            Ok(length)
        },
    }
}

/// What is wrong with the bytes of a path.
pub open spec fn path_problem(abi: Abi, path: Seq<u8>) -> Option<Status> {
    if !valid_utf8(path) {
        Some(Status::InvalidArgument)
    } else {
        match path_checked(abi, path) {
            Ok(()) => None,
            Err(status) => Some(status),
        }
    }
}

/// A path was read and is in order.
pub open spec fn path_ok(
    abi: Abi,
    address: u64,
    raw_length: u64,
    log: Seq<Event>,
    at: int,
) -> bool {
    match path_length(abi, raw_length) {
        Err(_) => false,
        Ok(length) => {
            &&& passed(log, at, seq![Ask::Plain(Call::CopyIn { address, length })])
            &&& path_problem(abi, log[at].bytes()) is None
        },
    }
}

/// A path was not read, or is not in order.
pub open spec fn path_failed<T>(
    abi: Abi,
    address: u64,
    raw_length: u64,
    log: Seq<Event>,
    at: int,
    result: Result<T, Status>,
) -> bool {
    match path_length(abi, raw_length) {
        Err(status) => log.len() == at && result == Err::<T, Status>(status),
        Ok(length) => {
            &&& asked_at(log, at, Ask::Plain(Call::CopyIn { address, length }))
            &&& if log[at].refused() is Some {
                ended_at(log, at, result)
            } else {
                match path_problem(abi, log[at].bytes()) {
                    Some(status) => stopped_at(log, at, result, status),
                    None => false,
                }
            }
        },
    }
}

/// A path and the directory that it starts from were found.
pub open spec fn located(
    abi: Abi,
    args: PathArgs,
    required: u32,
    log: Seq<Event>,
    at: int,
) -> bool {
    path_ok(abi, args.address, args.length, log, at) && anchor_ok(args.anchor, required, log, at + 1)
}

/// A path or the directory that it starts from was not found.
pub open spec fn not_located<T>(
    abi: Abi,
    args: PathArgs,
    required: u32,
    log: Seq<Event>,
    at: int,
    result: Result<T, Status>,
) -> bool {
    ||| path_failed(abi, args.address, args.length, log, at, result)
    ||| path_ok(abi, args.address, args.length, log, at) && anchor_failed(
        args.anchor,
        required,
        log,
        at + 1,
        result,
    )
}

/// The path belongs to the system.
pub open spec fn guarded(log: Seq<Event>, at: int) -> bool {
    anchor_of(log, at + 1).is_root && protected_path(log[at].bytes())
}

/// What is asked to remove what a path names: its parent directory, if the path names one,
/// and then the name in it.
pub open spec fn removal_plan(directory: bool, anchor: Node, path: Seq<u8>, parent: Node) -> Seq<Ask> {
    match last_separator(path, path.len()) {
        Some(at) => {
            let call = if directory {
                Call::RemoveDirectoryAt { directory: parent }
            } else {
                Call::RemoveFileAt { directory: parent }
            };
            seq![
                Ask::With(Call::OpenDirectoryAt { directory: anchor }, path.subrange(0, at)),
                Ask::With(call, path.subrange(at + 1, path.len() as int)),
            ]
        },
        None => {
            let call = if directory {
                Call::RemoveDirectoryAt { directory: anchor }
            } else {
                Call::RemoveFileAt { directory: anchor }
            };
            seq![Ask::With(call, path)]
        },
    }
}

/// What a path names is removed, unless it belongs to the system.
pub open spec fn removed(
    abi: Abi,
    args: PathArgs,
    directory: bool,
    log: Seq<Event>,
    at: int,
    result: Result<(), Status>,
) -> bool {
    let end = anchor_end(log, at + 1);
    let anchor = anchor_of(log, at + 1).directory;
    ||| not_located(abi, args, abi.rights.write, log, at, result)
    ||| {
        &&& located(abi, args, abi.rights.write, log, at)
        &&& if guarded(log, at) {
            log.len() == end && result == Err::<(), Status>(Status::AccessDenied)
        } else {
            ran_through(
                log,
                end,
                removal_plan(directory, anchor, log[at].bytes(), log[end].node()),
                result,
            )
        }
    }
}

/// A directory is made at a path, unless the path belongs to the system.
pub open spec fn directory_made(
    abi: Abi,
    args: PathArgs,
    log: Seq<Event>,
    at: int,
    result: Result<(), Status>,
) -> bool {
    let end = anchor_end(log, at + 1);
    let directory = anchor_of(log, at + 1).directory;
    ||| not_located(abi, args, abi.rights.write, log, at, result)
    ||| {
        &&& located(abi, args, abi.rights.write, log, at)
        &&& if guarded(log, at) {
            log.len() == end && result == Err::<(), Status>(Status::AccessDenied)
        } else {
            ran_through(
                log,
                end,
                seq![Ask::With(Call::CreateDirectoryAt { directory }, log[at].bytes())],
                result,
            )
        }
    }
}

/// A new handle is given to the process, or closed again where it cannot be written down.
pub open spec fn given(
    abi: Abi,
    address: u64,
    handle: Handle,
    log: Seq<Event>,
    at: int,
    result: Result<(), Status>,
) -> bool {
    &&& asked_at(log, at, Ask::With(Call::CopyOut { address }, handle_record(handle)))
    &&& match log[at].refused() {
        None => log.len() == at + 1 && result is Ok,
        Some(status) => asked_from(log, at + 1, close_asks(abi, seq![handle])) && result == Err::<
            (),
            Status,
        >(status),
    }
}

/// A directory is opened, with rights that are no more than those of the one it is in.
pub open spec fn directory_opened(
    abi: Abi,
    args: PathArgs,
    output_address: u64,
    log: Seq<Event>,
    at: int,
    result: Result<(), Status>,
) -> bool {
    let end = anchor_end(log, at + 1);
    let anchor = anchor_of(log, at + 1);
    ||| not_located(abi, args, abi.rights.read, log, at, result)
    ||| {
        &&& located(abi, args, abi.rights.read, log, at)
        &&& {
            let rights = child_rights(abi, anchor.rights, anchor.is_root, guarded(log, at));
            let plan = seq![
                Ask::With(
                    Call::OpenDirectoryAt { directory: anchor.directory },
                    log[at].bytes(),
                ),
                Ask::Plain(
                    Call::CreateDirectoryHandle { directory: log[end].node(), rights },
                ),
            ];
            ||| failed_in(log, end, plan, result)
            ||| passed(log, end, plan) && given(
                abi,
                output_address,
                log[end + 1].handle(),
                log,
                end + 2,
                result,
            )
        }
    }
}

/// A call whose record begins with a path: the record is read, then what `rest` says
/// happens from the event after it on.
pub open spec fn path_record(
    args_address: u64,
    length: usize,
    log: Seq<Event>,
    base: int,
    result: Result<(), Status>,
    rest: spec_fn(PathArgs, Seq<u8>) -> bool,
) -> bool {
    &&& asked_at(log, base, Ask::Plain(Call::CopyIn { address: args_address, length }))
    &&& if log[base].refused() is Some {
        ended_at(log, base, result)
    } else {
        match path_args_in(log[base].bytes()) {
            Err(status) => stopped_at(log, base, result, status),
            Ok(args) => rest(args, log[base].bytes()),
        }
    }
}

/// Where a result goes is checked; what `rest` says happens from the event after it on.
pub open spec fn checked_output(
    address: u64,
    length: usize,
    log: Seq<Event>,
    at: int,
    result: Result<(), Status>,
    rest: bool,
) -> bool {
    &&& asked_at(log, at, Ask::Plain(Call::CheckOutput { address, length }))
    &&& if log[at].refused() is Some {
        ended_at(log, at, result)
    } else {
        rest
    }
}

/// What `filesystem_unlink` asks for, and what comes of it.
pub open spec fn did_filesystem_unlink(
    abi: Abi,
    raw_anchor: u64,
    path_address: u64,
    path_length: u64,
    before: Seq<Event>,
    log: Seq<Event>,
    result: Result<(), Status>,
) -> bool {
    match handle_in(raw_anchor) {
        Err(status) => rejected(before, log, result, status),
        Ok(anchor) => removed(
            abi,
            PathArgs { anchor, address: path_address, length: path_length },
            false,
            log,
            before.len() as int,
            result,
        ),
    }
}

/// What `filesystem_remove_directory` asks for, and what comes of it.
pub open spec fn did_filesystem_remove_directory(
    abi: Abi,
    args_address: u64,
    before: Seq<Event>,
    log: Seq<Event>,
    result: Result<(), Status>,
) -> bool {
    let base = before.len() as int;
    path_record(
        args_address,
        FILESYSTEM_REMOVE_DIRECTORY_ARGS_SIZE,
        log,
        base,
        result,
        |args: PathArgs, raw: Seq<u8>|
            removed(abi, args, true, log, base + 1, result),
    )
}

/// What `filesystem_create_directory` asks for, and what comes of it.
pub open spec fn did_filesystem_create_directory(
    abi: Abi,
    args_address: u64,
    before: Seq<Event>,
    log: Seq<Event>,
    result: Result<(), Status>,
) -> bool {
    let base = before.len() as int;
    path_record(
        args_address,
        FILESYSTEM_CREATE_DIRECTORY_ARGS_SIZE,
        log,
        base,
        result,
        |args: PathArgs, raw: Seq<u8>|
            directory_made(abi, args, log, base + 1, result),
    )
}

/// What `filesystem_open_directory` asks for, and what comes of it.
pub open spec fn did_filesystem_open_directory(
    abi: Abi,
    args_address: u64,
    before: Seq<Event>,
    log: Seq<Event>,
    result: Result<(), Status>,
) -> bool {
    let base = before.len() as int;
    path_record(
        args_address,
        FILESYSTEM_OPEN_DIRECTORY_ARGS_SIZE,
        log,
        base,
        result,
        |args: PathArgs, raw: Seq<u8>|
            checked_output(
                le64_at(raw, 24) as u64,
                HANDLE_OUTPUT_SIZE,
                log,
                base + 1,
                result,
                directory_opened(
                    abi,
                    args,
                    le64_at(raw, 24) as u64,
                    log,
                    base + 2,
                    result,
                ),
            ),
    )
}

impl<K: Kernel> Session<K> {
    /// Finds the directory of a handle.
    pub fn resolve_directory_anchor(&mut self, handle: Handle, required: u32) -> (result: Result<
        DirectoryAnchor,
        Status,
    >)
        ensures
            final(self).kept(*old(self)),
            ({
                let log = final(self).log@;
                let at = old(self).log@.len() as int;
                match result {
                    Ok(anchor) => anchor_ok(handle, required, log, at) && log.len() == anchor_end(
                        log,
                        at,
                    ) && anchor == anchor_of(log, at),
                    Err(_) => anchor_failed(handle, required, log, at, result),
                }
            }),
    {
        let object_type: ObjectType = self.object_type(handle)?;
        let rights: u32 = self.bits(Call::HandleRights { handle })?;
        match object_type {
            ObjectType::FilesystemRoot => {
                self.done(Call::Root { handle, rights: required })?;
                let directory: Node = self.node(Call::RootDirectory)?;
                Ok(DirectoryAnchor { directory, rights, is_root: true })
            },
            ObjectType::Directory => {
                let directory: Node = self.node(Call::Directory { handle, rights: required })?;
                Ok(DirectoryAnchor { directory, rights, is_root: false })
            },
            _ => Err(Status::WrongObjectType),
        }
    }

    /// Reads and checks a path.
    pub fn copy_filesystem_path(&mut self, address: u64, raw_length: u64) -> (result: Result<
        Vec<u8>,
        Status,
    >)
        ensures
            final(self).kept(*old(self)),
            ({
                let log = final(self).log@;
                let at = old(self).log@.len() as int;
                match result {
                    Ok(path) => path_ok(old(self).abi, address, raw_length, log, at) && log.len()
                        == at + 1 && path@ == log[at].bytes(),
                    Err(_) => path_failed(old(self).abi, address, raw_length, log, at, result),
                }
            }),
    {
        let limit: u64 = path_max(&self.abi);
        let length: usize = checked_array_bytes(raw_length, 1, limit, Status::OutOfRange)?;
        if length == 0 {
            return Err(Status::InvalidArgument);
        }
        let bytes: Vec<u8> = self.copy_in(address, length)?;
        if utf8_text(bytes.as_slice()).is_none() {
            return Err(Status::InvalidArgument);
        }
        validate_filesystem_path(&self.abi, bytes.as_slice())?;
        Ok(bytes)
    }

    /// Reads a path and finds the directory that it starts from.
    pub fn locate(&mut self, args: &PathArgs, required: u32) -> (result: Result<
        (Vec<u8>, DirectoryAnchor),
        Status,
    >)
        ensures
            final(self).kept(*old(self)),
            ({
                let log = final(self).log@;
                let at = old(self).log@.len() as int;
                match result {
                    Ok((path, anchor)) => {
                        &&& located(old(self).abi, *args, required, log, at)
                        &&& log.len() == anchor_end(log, at + 1)
                        &&& path@ == log[at].bytes()
                        &&& anchor == anchor_of(log, at + 1)
                    },
                    Err(_) => not_located(old(self).abi, *args, required, log, at, result),
                }
            }),
    {
        let path: Vec<u8> = self.copy_filesystem_path(args.address, args.length)?;
        let anchor: DirectoryAnchor = self.resolve_directory_anchor(args.anchor, required)?;
        Ok((path, anchor))
    }

    /// Removes what a path names.
    pub fn remove_path(&mut self, anchor: Node, path: &[u8], directory: bool) -> (result: Result<
        (),
        Status,
    >)
        ensures
            final(self).kept(*old(self)),
            ran_through(
                final(self).log@,
                old(self).log@.len() as int,
                removal_plan(
                    directory,
                    anchor,
                    path@,
                    final(self).log@[old(self).log@.len() as int].node(),
                ),
                result,
            ),
    {
        let (parent, name): (Option<&[u8]>, &[u8]) = split_parent(path);
        let holder: Node = match parent {
            Some(parent_path) => self.path_node(
                Call::OpenDirectoryAt { directory: anchor },
                parent_path,
            )?,
            None => anchor,
        };
        if directory {
            self.write(Call::RemoveDirectoryAt { directory: holder }, name)
        } else {
            self.write(Call::RemoveFileAt { directory: holder }, name)
        }
    }

    /// Removes a file or directory, unless it belongs to the system.
    fn remove_at(&mut self, args: &PathArgs, directory: bool) -> (result: Result<(), Status>)
        ensures
            final(self).kept(*old(self)),
            removed(
                old(self).abi,
                *args,
                directory,
                final(self).log@,
                old(self).log@.len() as int,
                result,
            ),
    {
        let rights: u32 = self.abi.rights.write;
        let (path, anchor): (Vec<u8>, DirectoryAnchor) = self.locate(args, rights)?;
        if anchor.is_root && is_protected_system_path(path.as_slice()) {
            return Err(Status::AccessDenied);
        }
        self.remove_path(anchor.directory, path.as_slice(), directory)
    }

    /// Removes a file.
    pub fn filesystem_unlink(&mut self, raw_anchor: u64, path_address: u64, path_length: u64) -> (result:
        Result<(), Status>)
        ensures
            final(self).kept(*old(self)),
            did_filesystem_unlink(
                old(self).abi,
                raw_anchor,
                path_address,
                path_length,
                old(self).log@,
                final(self).log@,
                result,
            ),
    {
        let anchor: Handle = decode_handle(raw_anchor)?;
        self.remove_at(
            &PathArgs { anchor, address: path_address, length: path_length },
            false,
        )
    }

    /// Removes a directory.
    pub fn filesystem_remove_directory(&mut self, args_address: u64) -> (result: Result<(), Status>)
        ensures
            final(self).kept(*old(self)),
            did_filesystem_remove_directory(
                old(self).abi,
                args_address,
                old(self).log@,
                final(self).log@,
                result,
            ),
    {
        let raw: Vec<u8> = self.copy_in(args_address, FILESYSTEM_REMOVE_DIRECTORY_ARGS_SIZE)?;
        let args: PathArgs = parse_filesystem_path_args(raw.as_slice())?;
        self.remove_at(&args, true)
    }

    /// Makes a directory.
    pub fn filesystem_create_directory(&mut self, args_address: u64) -> (result: Result<(), Status>)
        ensures
            final(self).kept(*old(self)),
            did_filesystem_create_directory(
                old(self).abi,
                args_address,
                old(self).log@,
                final(self).log@,
                result,
            ),
    {
        let raw: Vec<u8> = self.copy_in(args_address, FILESYSTEM_CREATE_DIRECTORY_ARGS_SIZE)?;
        let args: PathArgs = parse_filesystem_path_args(raw.as_slice())?;
        let rights: u32 = self.abi.rights.write;
        let (path, anchor): (Vec<u8>, DirectoryAnchor) = self.locate(&args, rights)?;
        if anchor.is_root && is_protected_system_path(path.as_slice()) {
            return Err(Status::AccessDenied);
        }
        let _: Node = self.path_node(
            Call::CreateDirectoryAt { directory: anchor.directory },
            path.as_slice(),
        )?;
        Ok(())
    }

    /// Opens a directory.
    pub fn filesystem_open_directory(&mut self, args_address: u64) -> (result: Result<(), Status>)
        ensures
            final(self).kept(*old(self)),
            did_filesystem_open_directory(
                old(self).abi,
                args_address,
                old(self).log@,
                final(self).log@,
                result,
            ),
    {
        let raw: Vec<u8> = self.copy_in(args_address, FILESYSTEM_OPEN_DIRECTORY_ARGS_SIZE)?;
        let args: PathArgs = parse_filesystem_path_args(raw.as_slice())?;
        let output_address: u64 = read_u64(raw.as_slice(), 24);
        self.check_output(output_address, HANDLE_OUTPUT_SIZE)?;
        let required: u32 = self.abi.rights.read;
        let (path, anchor): (Vec<u8>, DirectoryAnchor) = self.locate(&args, required)?;
        let directory: Node = self.path_node(
            Call::OpenDirectoryAt { directory: anchor.directory },
            path.as_slice(),
        )?;
        let protected: bool = anchor.is_root && is_protected_system_path(path.as_slice());
        let rights: u32 = child_directory_rights(
            &self.abi,
            anchor.rights,
            anchor.is_root,
            protected,
        );
        let handle: Handle = self.handle(Call::CreateDirectoryHandle { directory, rights })?;
        self.give_handle(output_address, handle)
    }

    /// Gives the process a new handle, or closes it again.
    pub fn give_handle(&mut self, output_address: u64, handle: Handle) -> (result: Result<(), Status>)
        ensures
            final(self).kept(*old(self)),
            given(
                old(self).abi,
                output_address,
                handle,
                final(self).log@,
                old(self).log@.len() as int,
                result,
            ),
    {
        let output: Vec<u8> = encode_handle_output(handle);
        if let Err(status) = self.copy_out(output_address, output.as_slice()) {
            self.close_one(handle);
            return Err(status);
        }
        Ok(())
    }
}

} // verus!
