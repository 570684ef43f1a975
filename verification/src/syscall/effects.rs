//! What system calls on files have the rest of the kernel do, by the registers and the records
//! that the caller hands over.
use vstd::prelude::*;

use crate::bytes::{le32_at, le64_at, lemma_field32, lemma_field64};

use super::abi::{has_bits, Abi, Handle, RequestCompletionMode, RequestOperation, Status};
use super::dispatch::{called, over, SyscallContext};
use super::file_io::{count_unpin, sent_to_block, transfer_sent};
use super::files::{
    anchor_end, anchor_failed, anchor_of, anchor_ok, anchor_plan, did_filesystem_create_directory,
    did_filesystem_open_directory, did_filesystem_remove_directory, did_filesystem_unlink, guarded,
    located, not_located, path_failed, path_ok, path_length, removal_plan, removed,
};
use super::kernel::{
    asked_from, failed_in, passed, ran_through, Ask, BufferModel, Call, DispatchResult, Event,
    PinnedOutput, PreparedRequestTarget, RequestModel,
};
use super::nodes::{did_filesystem_rename, did_filesystem_stat, did_filesystem_truncate};
use super::number::SyscallNumber;
use super::paths::{last_separator, PathArgs};
use super::request_wire::Node;
use super::requests::{pins_of, unpin_asks};

verus! {

/// Nothing is changed by asking this.
pub open spec fn looks(ask: Ask) -> bool {
    match ask {
        Ask::Plain(call) => match call {
            Call::CheckOutput { .. }
            | Call::CopyIn { .. }
            | Call::HandleRights { .. }
            | Call::ObjectType { .. }
            | Call::File { .. }
            | Call::Root { .. }
            | Call::Directory { .. }
            | Call::RootDirectory => true,
            _ => false,
        },
        _ => false,
    }
}

/// The process's memory held these bytes at this address when it was read.
pub open spec fn was_read(log: Seq<Event>, from: int, address: u64, length: u64, bytes: Seq<u8>) -> bool {
    exists|i: int|
        from <= i < log.len() && (#[trigger] log[i]).ask == Ask::Plain(
            Call::CopyIn { address, length: length as usize },
        ) && log[i].bytes() == bytes && length <= usize::MAX
}

/// The handle names this file and carries these rights, as the kernel answered.
pub open spec fn names_file(log: Seq<Event>, from: int, handle: Handle, rights: u32, file: Node) -> bool {
    exists|i: int|
        from <= i < log.len() && (#[trigger] log[i]).ask == Ask::Plain(Call::File { handle, rights })
            && log[i].refused() is None && log[i].node() == file
}

/// The handle names this directory, or the root whose directory this is, and carries these
/// rights, as the kernel answered.
pub open spec fn names_directory_as(
    log: Seq<Event>,
    from: int,
    handle: Handle,
    rights: u32,
    directory: Node,
) -> bool {
    exists|i: int|
        {
            &&& from <= i < log.len()
            &&& (#[trigger] log[i]).refused() is None
            &&& {
                ||| log[i].ask == Ask::Plain(Call::Directory { handle, rights }) && log[i].node()
                    == directory
                ||| {
                    &&& log[i].ask == Ask::Plain(Call::Root { handle, rights })
                    &&& i + 1 < log.len()
                    &&& log[i + 1].ask == Ask::Plain(Call::RootDirectory)
                    &&& log[i + 1].node() == directory
                }
            }
        }
}

/// These pages were pinned at this address, for this many bytes.
pub open spec fn was_pinned(log: Seq<Event>, from: int, address: u64, length: u64, pages: u64) -> bool {
    exists|i: int|
        from <= i < log.len() && (#[trigger] log[i]).ask == Ask::Plain(
            Call::Pin { address, length: length as usize, write: true },
        ) && log[i].number() == pages
}

/// What was asked while a plan was run through.
pub(crate) proof fn lemma_ran(log: Seq<Event>, base: int, plan: Seq<Ask>, result: Result<(), Status>)
    requires
        ran_through(log, base, plan, result),
    ensures
        forall|i: int|
            base <= i < log.len() ==> i - base < plan.len() && (#[trigger] log[i]).ask == plan[i
                - base],
        result is Ok ==> log.len() == base + plan.len() && forall|i: int|
            base <= i < log.len() ==> (#[trigger] log[i]).refused() is None,
        result is Err ==> log.len() > base && log.last().refused() is Some && forall|i: int|
            base <= i < log.len() - 1 ==> (#[trigger] log[i]).refused() is None,
{
    assert forall|i: int| base <= i < log.len() implies i - base < plan.len() && (
    #[trigger] log[i]).ask == plan[i - base] by {
        assert(log[base + (i - base)].ask == plan[i - base]);
    }
    assert forall|i: int| base <= i < log.len() - 1 implies (
    #[trigger] log[i]).refused() is None by {
        assert(log[base + (i - base)].ask == plan[i - base]);
    }
    if result is Ok {
        assert forall|i: int| base <= i < log.len() implies (#[trigger] log[i]).refused() is None by {
            assert(log[base + (i - base)].ask == plan[i - base]);
        }
    }
}

/// What was asked where nothing was refused.
pub(crate) proof fn lemma_passed(log: Seq<Event>, at: int, asks: Seq<Ask>)
    requires
        passed(log, at, asks),
    ensures
        at + asks.len() <= log.len(),
        forall|i: int|
            at <= i < at + asks.len() ==> (#[trigger] log[i]).ask == asks[i - at]
                && log[i].refused() is None,
{
    assert forall|i: int| at <= i < at + asks.len() implies (#[trigger] log[i]).ask == asks[i - at]
        && log[i].refused() is None by {
        assert(log[at + (i - at)].ask == asks[i - at]);
    }
}

/// What was asked up to the refusal.
pub(crate) proof fn lemma_failed<T>(
    log: Seq<Event>,
    at: int,
    asks: Seq<Ask>,
    result: Result<T, Status>,
)
    requires
        failed_in(log, at, asks, result),
    ensures
        result is Err,
        at < log.len() <= at + asks.len(),
        log.last().refused() is Some,
        forall|i: int| at <= i < log.len() ==> (#[trigger] log[i]).ask == asks[i - at],
        forall|i: int| at <= i < log.len() - 1 ==> (#[trigger] log[i]).refused() is None,
{
    assert forall|i: int| at <= i < log.len() implies (#[trigger] log[i]).ask == asks[i - at] by {
        assert(log[at + (i - at)].ask == asks[i - at]);
    }
    assert forall|i: int| at <= i < log.len() - 1 implies (#[trigger] log[i]).refused() is None by {
        assert(log[at + (i - at)].ask == asks[i - at]);
    }
}

/// What was asked to the end.
pub(crate) proof fn lemma_asked(log: Seq<Event>, base: int, asks: Seq<Ask>)
    requires
        asked_from(log, base, asks),
    ensures
        log.len() == base + asks.len(),
        forall|i: int| base <= i < log.len() ==> (#[trigger] log[i]).ask == asks[i - base],
{
    assert forall|i: int| base <= i < log.len() implies (#[trigger] log[i]).ask == asks[i - base] by {
        assert(log[base + (i - base)].ask == asks[i - base]);
    }
}

/// A directory that was found is the one that the handle names.
pub(crate) proof fn lemma_anchor(handle: Handle, required: u32, log: Seq<Event>, at: int)
    requires
        0 <= at,
        anchor_ok(handle, required, log, at),
    ensures
        at + 3 <= anchor_end(log, at) <= log.len(),
        forall|i: int| at <= i < anchor_end(log, at) ==> looks((#[trigger] log[i]).ask),
        names_directory_as(log, at, handle, required, anchor_of(log, at).directory),
{
    let plan = anchor_plan(handle, required, log, at);
    lemma_passed(log, at, plan);
    assert(log[at].refused() is None);
    assert(log[at + 1].ask == plan[1]);
    assert(log[at + 2].ask == plan[2]);
    if plan.len() == 4 {
        assert(log[at + 3].ask == plan[3]);
    }
}

/// Where no directory was found, nothing was changed.
pub(crate) proof fn lemma_no_anchor<T>(
    handle: Handle,
    required: u32,
    log: Seq<Event>,
    at: int,
    result: Result<T, Status>,
)
    requires
        0 <= at,
        anchor_failed(handle, required, log, at, result),
    ensures
        result is Err,
        forall|i: int| at <= i < log.len() ==> looks((#[trigger] log[i]).ask),
{
    let plan = anchor_plan(handle, required, log, at);
    if failed_in(log, at, plan, result) {
        lemma_failed(log, at, plan, result);
    } else {
        lemma_passed(log, at, plan);
    }
}

/// A path that was taken was read where the caller said.
pub(crate) proof fn lemma_path(abi: Abi, address: u64, length: u64, log: Seq<Event>, at: int)
    requires
        0 <= at,
        path_ok(abi, address, length, log, at),
    ensures
        at < log.len(),
        looks(log[at].ask),
        was_read(log, at, address, length, log[at].bytes()),
        log[at].refused() is None,
{
    let asks = seq![
        Ask::Plain(Call::CopyIn { address, length: path_length(abi, length)->Ok_0 }),
    ];
    lemma_passed(log, at, asks);
    assert(log[at].ask == asks[0]);
}

/// Where a path and its directory were found, they are those that the caller names.
pub(crate) proof fn lemma_located(abi: Abi, args: PathArgs, required: u32, log: Seq<Event>, at: int)
    requires
        0 <= at,
        located(abi, args, required, log, at),
    ensures
        at + 4 <= anchor_end(log, at + 1) <= log.len(),
        forall|i: int| at <= i < anchor_end(log, at + 1) ==> looks((#[trigger] log[i]).ask),
        was_read(log, at, args.address, args.length, log[at].bytes()),
        names_directory_as(
            log,
            at,
            args.anchor,
            required,
            anchor_of(log, at + 1).directory,
        ),
{
    lemma_path(abi, args.address, args.length, log, at);
    lemma_anchor(args.anchor, required, log, at + 1);
}

/// Where they were not, nothing was changed.
pub(crate) proof fn lemma_not_located<T>(
    abi: Abi,
    args: PathArgs,
    required: u32,
    log: Seq<Event>,
    at: int,
    result: Result<T, Status>,
)
    requires
        0 <= at,
        not_located(abi, args, required, log, at, result),
    ensures
        result is Err,
        forall|i: int| at <= i < log.len() ==> looks((#[trigger] log[i]).ask),
{
    if path_failed(abi, args.address, args.length, log, at, result) {
    } else {
        lemma_path(abi, args.address, args.length, log, at);
        lemma_no_anchor(args.anchor, required, log, at + 1, result);
    }
}

/// Where a path is parted, if it is.
proof fn lemma_last_separator(path: Seq<u8>, count: nat)
    requires
        count <= path.len(),
    ensures
        match last_separator(path, count) {
            Some(at) => 0 <= at < count && path[at] == 0x2f && forall|i: int|
                at < i < count ==> #[trigger] path[i] != 0x2f,
            None => forall|i: int| 0 <= i < count ==> #[trigger] path[i] != 0x2f,
        },
    decreases count,
{
    if count > 0 {
        lemma_last_separator(path, (count - 1) as nat);
    }
}

/// `name`, taken in `directory`, is where `path` leads from the directory that a handle names.
pub open spec fn leads_to(
    log: Seq<Event>,
    from: int,
    handle: Handle,
    rights: u32,
    path: Seq<u8>,
    directory: Node,
    name: Seq<u8>,
) -> bool {
    &&& !name.contains(0x2f)
    &&& {
        ||| name == path && names_directory_as(log, from, handle, rights, directory)
        ||| exists|i: int|
            {
                &&& from <= i < log.len()
                &&& (#[trigger] log[i]).refused() is None
                &&& log[i].node() == directory
                &&& log[i].ask matches Ask::With(Call::OpenDirectoryAt { directory: top }, parent)
                &&& names_directory_as(log, from, handle, rights, top)
                &&& path == parent + seq![0x2fu8] + name
            }
    }
}

/// What is removed is what a path names, and only that.
#[verifier::rlimit(40)]
proof fn lemma_removed(
    abi: Abi,
    args: PathArgs,
    directory: bool,
    log: Seq<Event>,
    at: int,
    result: Result<(), Status>,
)
    requires
        0 <= at,
        removed(abi, args, directory, log, at, result),
    ensures
        forall|i: int|
            at <= i < log.len() ==> {
                ||| looks((#[trigger] log[i]).ask)
                ||| log[i].ask matches Ask::With(Call::OpenDirectoryAt { .. }, _)
                ||| {
                    &&& log[i].ask matches Ask::With(call, name)
                    &&& i == log.len() - 1
                    &&& was_read(log, at, args.address, args.length, log[at].bytes())
                    &&& call == if directory {
                        Call::RemoveDirectoryAt { directory: call.place() }
                    } else {
                        Call::RemoveFileAt { directory: call.place() }
                    }
                    &&& leads_to(
                        log,
                        at,
                        args.anchor,
                        abi.rights.write,
                        log[at].bytes(),
                        call.place(),
                        name,
                    )
                }
            },
        result is Ok ==> log.len() > at && (log.last().ask matches Ask::With(call, _) && (call
            is RemoveDirectoryAt || call is RemoveFileAt)) && log.last().refused() is None,
{
    let path = log[at].bytes();
    if not_located(abi, args, abi.rights.write, log, at, result) {
        lemma_not_located(abi, args, abi.rights.write, log, at, result);
    } else {
        lemma_located(abi, args, abi.rights.write, log, at);
        let end = anchor_end(log, at + 1);
        let anchor = anchor_of(log, at + 1).directory;
        if !guarded(log, at) {
            let parent = log[end].node();
            let plan = removal_plan(directory, anchor, path, parent);
            lemma_ran(log, end, plan, result);
            lemma_last_separator(path, path.len());
            match last_separator(path, path.len()) {
                Some(split) => {
                    let upper = path.subrange(0, split);
                    let name = path.subrange(split + 1, path.len() as int);
                    assert(path =~= upper + seq![0x2fu8] + name);
                    if end + 1 < log.len() {
                        assert(log[end].ask == Ask::With(
                            Call::OpenDirectoryAt { directory: anchor },
                            upper,
                        ));
                        assert(leads_to(
                            log,
                            at,
                            args.anchor,
                            abi.rights.write,
                            path,
                            parent,
                            name,
                        ));
                    }
                },
                None => {
                    assert(leads_to(log, at, args.anchor, abi.rights.write, path, anchor, path));
                },
            }
        }
    }
}

impl Call {
    /// The directory in which something is made, opened or removed.
    pub open spec fn place(self) -> Node {
        match self {
            Call::OpenFileAt { directory } => directory,
            Call::CreateFileAt { directory } => directory,
            Call::RemoveFileAt { directory } => directory,
            Call::OpenDirectoryAt { directory } => directory,
            Call::CreateDirectoryAt { directory } => directory,
            Call::RemoveDirectoryAt { directory } => directory,
            _ => arbitrary(),
        }
    }
}

/// A rename moves the name that was read at the source address, in the directory that the
/// source handle names, to the name that was read at the destination address, in the directory
/// that the destination handle names. It replaces what is there exactly where that is asked
/// for. Success means that the kernel was asked and did not refuse; nothing else is changed.
pub proof fn law_renames_move_the_source_to_the_destination(
    abi: Abi,
    call: SyscallContext,
    before: Seq<Event>,
    log: Seq<Event>,
    dispatched: Result<DispatchResult, Status>,
)
    requires
        called(abi, SyscallNumber::FilesystemRename, call, before, log, dispatched),
    ensures
        ({
            let from = before.len() as int;
            let record = log[from].bytes();
            &&& log[from].ask == Ask::Plain(
                Call::CopyIn { address: call.registers.rdi, length: 48 },
            )
            &&& forall|i: int|
                from <= i < log.len() ==> {
                    ||| looks((#[trigger] log[i]).ask)
                    ||| {
                        &&& i == log.len() - 1
                        &&& log[i].ask matches Ask::Rename {
                            source,
                            source_path,
                            destination,
                            destination_path,
                            replace,
                        }
                        &&& was_read(
                            log,
                            from,
                            le64_at(record, 8) as u64,
                            le64_at(record, 16) as u64,
                            source_path,
                        )
                        &&& was_read(
                            log,
                            from,
                            le64_at(record, 24) as u64,
                            le64_at(record, 32) as u64,
                            destination_path,
                        )
                        &&& names_directory_as(
                            log,
                            from,
                            Handle(le32_at(record, 0) as u32),
                            abi.rights.write,
                            source,
                        )
                        &&& names_directory_as(
                            log,
                            from,
                            Handle(le32_at(record, 4) as u32),
                            abi.rights.write,
                            destination,
                        )
                        &&& replace == (le32_at(record, 40) as u32 & abi.rename_replace
                            == abi.rename_replace)
                    }
                }
            &&& dispatched is Ok ==> log.last().ask is Rename && log.last().refused() is None
        }),
{
    let from = before.len() as int;
    let result = choose|result: Result<(), Status>| #[trigger]
        did_filesystem_rename(abi, call.registers.rdi, before, log, result) && dispatched == over(
            result,
        );
    assert(did_filesystem_rename(abi, call.registers.rdi, before, log, result));
    if log[from].refused() is None && super::paths::rename_args_in(abi, log[from].bytes()) is Ok {
        let args = super::paths::rename_args_in(abi, log[from].bytes())->Ok_0;
        let at = from + 1;
        if !path_failed(abi, args.source_address, args.source_length, log, at, result) {
            lemma_path(abi, args.source_address, args.source_length, log, at);
            if !path_failed(
                abi,
                args.destination_address,
                args.destination_length,
                log,
                at + 1,
                result,
            ) {
                lemma_path(abi, args.destination_address, args.destination_length, log, at + 1);
                if anchor_failed(args.source_anchor, abi.rights.write, log, at + 2, result) {
                    lemma_no_anchor(args.source_anchor, abi.rights.write, log, at + 2, result);
                } else {
                    lemma_anchor(args.source_anchor, abi.rights.write, log, at + 2);
                    let middle = anchor_end(log, at + 2);
                    if anchor_failed(
                        args.destination_anchor,
                        abi.rights.write,
                        log,
                        middle,
                        result,
                    ) {
                        lemma_no_anchor(
                            args.destination_anchor,
                            abi.rights.write,
                            log,
                            middle,
                            result,
                        );
                    } else {
                        lemma_anchor(args.destination_anchor, abi.rights.write, log, middle);
                        let end = anchor_end(log, middle);
                        if log.len() > end {
                            let plan = seq![log[end].ask];
                            let source = anchor_of(log, at + 2);
                            let destination = anchor_of(log, middle);
                            let asks = seq![
                                Ask::Rename {
                                    source: source.directory,
                                    source_path: log[at].bytes(),
                                    destination: destination.directory,
                                    destination_path: log[at + 1].bytes(),
                                    replace: has_bits(args.flags, abi.rename_replace),
                                },
                            ];
                            lemma_ran(log, end, asks, result);
                        }
                    }
                }
            }
        }
    }
}

/// What a removal of a file removes is the file that the path leads to, from the directory
/// that the handle names; nothing else is changed.
pub proof fn law_unlinking_removes_what_the_path_names(
    abi: Abi,
    call: SyscallContext,
    before: Seq<Event>,
    log: Seq<Event>,
    dispatched: Result<DispatchResult, Status>,
)
    requires
        called(abi, SyscallNumber::FilesystemUnlink, call, before, log, dispatched),
    ensures
        ({
            let from = before.len() as int;
            let path = log[from].bytes();
            &&& forall|i: int|
                from <= i < log.len() ==> {
                    ||| looks((#[trigger] log[i]).ask)
                    ||| log[i].ask matches Ask::With(Call::OpenDirectoryAt { .. }, _)
                    ||| {
                        &&& log[i].ask matches Ask::With(Call::RemoveFileAt { directory }, name)
                        &&& i == log.len() - 1
                        &&& call.registers.rdi <= u32::MAX
                        &&& was_read(log, from, call.registers.rsi, call.registers.rdx, path)
                        &&& leads_to(
                            log,
                            from,
                            Handle(call.registers.rdi as u32),
                            abi.rights.write,
                            path,
                            directory,
                            name,
                        )
                    }
                }
            &&& dispatched is Ok ==> log.len() > from && (log.last().ask matches Ask::With(
                Call::RemoveFileAt { .. },
                _,
            )) && log.last().refused() is None
        }),
{
    let from = before.len() as int;
    let result = choose|result: Result<(), Status>| #[trigger]
        did_filesystem_unlink(
            abi,
            call.registers.rdi,
            call.registers.rsi,
            call.registers.rdx,
            before,
            log,
            result,
        ) && dispatched == over(result);
    assert(did_filesystem_unlink(
        abi,
        call.registers.rdi,
        call.registers.rsi,
        call.registers.rdx,
        before,
        log,
        result,
    ));
    if call.registers.rdi <= u32::MAX {
        let args = PathArgs {
            anchor: Handle(call.registers.rdi as u32),
            address: call.registers.rsi,
            length: call.registers.rdx,
        };
        lemma_removed(abi, args, false, log, from, result);
    }
}

/// What a removal of a directory removes is the directory that the path of the record leads
/// to, from the directory that the handle of the record names; nothing else is changed.
pub proof fn law_removing_a_directory_removes_what_the_path_names(
    abi: Abi,
    call: SyscallContext,
    before: Seq<Event>,
    log: Seq<Event>,
    dispatched: Result<DispatchResult, Status>,
)
    requires
        called(abi, SyscallNumber::FilesystemRemoveDirectory, call, before, log, dispatched),
    ensures
        ({
            let from = before.len() as int;
            let record = log[from].bytes();
            let path = log[from + 1].bytes();
            &&& log[from].ask == Ask::Plain(
                Call::CopyIn { address: call.registers.rdi, length: 24 },
            )
            &&& forall|i: int|
                from <= i < log.len() ==> {
                    ||| looks((#[trigger] log[i]).ask)
                    ||| log[i].ask matches Ask::With(Call::OpenDirectoryAt { .. }, _)
                    ||| {
                        &&& log[i].ask matches Ask::With(Call::RemoveDirectoryAt { directory }, name)
                        &&& i == log.len() - 1
                        &&& was_read(
                            log,
                            from + 1,
                            le64_at(record, 8) as u64,
                            le64_at(record, 16) as u64,
                            path,
                        )
                        &&& leads_to(
                            log,
                            from + 1,
                            Handle(le32_at(record, 0) as u32),
                            abi.rights.write,
                            path,
                            directory,
                            name,
                        )
                    }
                }
            &&& dispatched is Ok ==> log.len() > from && (log.last().ask matches Ask::With(
                Call::RemoveDirectoryAt { .. },
                _,
            )) && log.last().refused() is None
        }),
{
    let from = before.len() as int;
    let result = choose|result: Result<(), Status>| #[trigger]
        did_filesystem_remove_directory(abi, call.registers.rdi, before, log, result)
            && dispatched == over(result);
    assert(did_filesystem_remove_directory(abi, call.registers.rdi, before, log, result));
    if log[from].refused() is None && super::paths::path_args_in(log[from].bytes()) is Ok {
        let args = super::paths::path_args_in(log[from].bytes())->Ok_0;
        lemma_removed(abi, args, true, log, from + 1, result);
    }
}

/// What is made is a directory at the path of the record, from the directory that the handle
/// of the record names.
pub proof fn law_directories_are_made_where_the_path_says(
    abi: Abi,
    call: SyscallContext,
    before: Seq<Event>,
    log: Seq<Event>,
    dispatched: Result<DispatchResult, Status>,
)
    requires
        called(abi, SyscallNumber::FilesystemCreateDirectory, call, before, log, dispatched),
    ensures
        ({
            let from = before.len() as int;
            let record = log[from].bytes();
            &&& log[from].ask == Ask::Plain(
                Call::CopyIn { address: call.registers.rdi, length: 24 },
            )
            &&& forall|i: int|
                from <= i < log.len() ==> {
                    ||| looks((#[trigger] log[i]).ask)
                    ||| {
                        &&& log[i].ask matches Ask::With(Call::CreateDirectoryAt { directory }, path)
                        &&& i == log.len() - 1
                        &&& was_read(
                            log,
                            from,
                            le64_at(record, 8) as u64,
                            le64_at(record, 16) as u64,
                            path,
                        )
                        &&& names_directory_as(
                            log,
                            from,
                            Handle(le32_at(record, 0) as u32),
                            abi.rights.write,
                            directory,
                        )
                    }
                }
            &&& dispatched is Ok ==> log.len() > from && (log.last().ask matches Ask::With(
                Call::CreateDirectoryAt { .. },
                _,
            )) && log.last().refused() is None
        }),
{
    let from = before.len() as int;
    let result = choose|result: Result<(), Status>| #[trigger]
        did_filesystem_create_directory(abi, call.registers.rdi, before, log, result)
            && dispatched == over(result);
    assert(did_filesystem_create_directory(abi, call.registers.rdi, before, log, result));
    if log[from].refused() is None && super::paths::path_args_in(log[from].bytes()) is Ok {
        let args = super::paths::path_args_in(log[from].bytes())->Ok_0;
        let at = from + 1;
        if not_located(abi, args, abi.rights.write, log, at, result) {
            lemma_not_located(abi, args, abi.rights.write, log, at, result);
        } else {
            lemma_located(abi, args, abi.rights.write, log, at);
            let end = anchor_end(log, at + 1);
            if !guarded(log, at) {
                let directory = anchor_of(log, at + 1).directory;
                lemma_ran(
                    log,
                    end,
                    seq![Ask::With(Call::CreateDirectoryAt { directory }, log[at].bytes())],
                    result,
                );
            }
        }
    }
}

/// A directory that is opened is the one at the path of the record, from the directory that
/// the handle of the record names. What is handed out is a handle for it, told where the
/// record says, and that handle carries no right to write that the caller's does not.
pub proof fn law_directories_are_opened_where_the_path_says(
    abi: Abi,
    call: SyscallContext,
    before: Seq<Event>,
    log: Seq<Event>,
    dispatched: Result<DispatchResult, Status>,
)
    requires
        called(abi, SyscallNumber::FilesystemOpenDirectory, call, before, log, dispatched),
        dispatched is Ok,
    ensures
        ({
            let from = before.len() as int;
            let record = log[from].bytes();
            let opened = log[log.len() - 3];
            let made = log[log.len() - 2];
            let told = log.last();
            &&& log[from].ask == Ask::Plain(
                Call::CopyIn { address: call.registers.rdi, length: 32 },
            )
            &&& log.len() >= from + 3
            &&& opened.ask matches Ask::With(Call::OpenDirectoryAt { directory }, path)
            &&& was_read(
                log,
                from,
                le64_at(record, 8) as u64,
                le64_at(record, 16) as u64,
                path,
            )
            &&& names_directory_as(
                log,
                from,
                Handle(le32_at(record, 0) as u32),
                abi.rights.read,
                directory,
            )
            &&& made.ask matches Ask::Plain(Call::CreateDirectoryHandle { directory: found, rights })
            &&& found == opened.node()
            &&& told.ask matches Ask::With(Call::CopyOut { address }, bytes)
            &&& address == le64_at(record, 24) as u64
            &&& le32_at(bytes, 0) == made.handle().0
            &&& opened.refused() is None && made.refused() is None && told.refused() is None
        }),
{
    let from = before.len() as int;
    let result = choose|result: Result<(), Status>| #[trigger]
        did_filesystem_open_directory(abi, call.registers.rdi, before, log, result)
            && dispatched == over(result);
    assert(did_filesystem_open_directory(abi, call.registers.rdi, before, log, result));
    let args = super::paths::path_args_in(log[from].bytes())->Ok_0;
    let at = from + 2;
    if not_located(abi, args, abi.rights.read, log, at, result) {
        lemma_not_located(abi, args, abi.rights.read, log, at, result);
    } else {
        lemma_located(abi, args, abi.rights.read, log, at);
        let end = anchor_end(log, at + 1);
        let anchor = anchor_of(log, at + 1);
        let rights = super::paths::child_rights(
            abi,
            anchor.rights,
            anchor.is_root,
            guarded(log, at),
        );
        let plan = seq![
            Ask::With(Call::OpenDirectoryAt { directory: anchor.directory }, log[at].bytes()),
            Ask::Plain(Call::CreateDirectoryHandle { directory: log[end].node(), rights }),
        ];
        if failed_in(log, end, plan, result) {
            lemma_failed(log, end, plan, result);
        } else {
            lemma_passed(log, end, plan);
            assert(log[end].ask == plan[0]);
            assert(log[end + 1].ask == plan[1]);
            lemma_handle_record(log[end + 1].handle());
        }
    }
}

/// A record of a handle tells the handle.
pub(crate) proof fn lemma_handle_record(handle: Handle)
    ensures
        super::wire::handle_record(handle).len() == 8,
        le32_at(super::wire::handle_record(handle), 0) == handle.0,
{
    let value = handle.0 as int;
    let low = crate::bytes::le_bytes(value, 4);
    let all = super::wire::handle_record(handle);
    assert(all.subrange(0, 4) =~= low);
    lemma_field32(all, 0, value);
}

/// A file is given the length that the caller asks for, by a handle that may write it.
pub proof fn law_truncation_sets_the_length_that_was_asked_for(
    abi: Abi,
    call: SyscallContext,
    before: Seq<Event>,
    log: Seq<Event>,
    dispatched: Result<DispatchResult, Status>,
)
    requires
        called(abi, SyscallNumber::FilesystemTruncate, call, before, log, dispatched),
    ensures
        ({
            let from = before.len() as int;
            &&& forall|i: int|
                from <= i < log.len() ==> {
                    ||| looks((#[trigger] log[i]).ask)
                    ||| {
                        &&& log[i].ask matches Ask::Plain(Call::TruncateFile { file, length })
                        &&& i == log.len() - 1
                        &&& length == call.registers.rsi
                        &&& call.registers.rdi <= u32::MAX
                        &&& names_file(
                            log,
                            from,
                            Handle(call.registers.rdi as u32),
                            abi.rights.write,
                            file,
                        )
                    }
                }
            &&& dispatched is Ok ==> log.len() > from && (log.last().ask matches Ask::Plain(
                Call::TruncateFile { .. },
            )) && log.last().refused() is None
        }),
{
    let from = before.len() as int;
    let result = choose|result: Result<(), Status>| #[trigger]
        did_filesystem_truncate(
            abi,
            call.registers.rdi,
            call.registers.rsi,
            before,
            log,
            result,
        ) && dispatched == over(result);
    assert(did_filesystem_truncate(
        abi,
        call.registers.rdi,
        call.registers.rsi,
        before,
        log,
        result,
    ));
    if call.registers.rdi <= u32::MAX {
        let handle = Handle(call.registers.rdi as u32);
        let plan = seq![
            Ask::Plain(Call::File { handle, rights: abi.rights.write }),
            Ask::Plain(
                Call::TruncateFile { file: log[from].node(), length: call.registers.rsi },
            ),
        ];
        lemma_ran(log, from, plan, result);
        if log.len() > from + 1 {
            assert(log[from].ask == plan[0]);
        }
    }
}

/// The length that is told is that of the file that the handle names.
pub proof fn law_the_length_of_the_named_file_is_told(
    abi: Abi,
    call: SyscallContext,
    before: Seq<Event>,
    log: Seq<Event>,
    dispatched: Result<DispatchResult, Status>,
)
    requires
        called(abi, SyscallNumber::FilesystemStat, call, before, log, dispatched),
        dispatched is Ok,
    ensures
        ({
            let from = before.len() as int;
            let asked = log[log.len() - 2];
            &&& log.len() >= from + 2
            &&& asked.ask matches Ask::Plain(Call::FileLength { file })
            &&& asked.refused() is None
            &&& names_file(log, from, Handle(call.registers.rdi as u32), abi.rights.read, file)
            &&& log.last().ask matches Ask::With(Call::CopyOut { address }, bytes)
            &&& log.last().refused() is None
            &&& address == call.registers.rsi
            &&& bytes.len() == 24
            &&& le64_at(bytes, 0) == asked.number()
        }),
{
    let from = before.len() as int;
    let result = choose|result: Result<(), Status>| #[trigger]
        did_filesystem_stat(abi, call.registers.rdi, call.registers.rsi, before, log, result)
            && dispatched == over(result);
    assert(did_filesystem_stat(
        abi,
        call.registers.rdi,
        call.registers.rsi,
        before,
        log,
        result,
    ));
    let handle = Handle(call.registers.rdi as u32);
    let plan = seq![
        Ask::Plain(Call::CheckOutput { address: call.registers.rsi, length: 24 }),
        Ask::Plain(Call::File { handle, rights: abi.rights.read }),
        Ask::Plain(Call::FileLength { file: log[from + 1].node() }),
        Ask::With(
            Call::CopyOut { address: call.registers.rsi },
            super::paths::stat_record(log[from + 2].number()),
        ),
    ];
    lemma_ran(log, from, plan, result);
    assert(log[from + 1].ask == plan[1]);
    assert(log[from + 2].ask == plan[2]);
    assert(log[from + 3].ask == plan[3]);
    let told = log[from + 2].number();
    let low = crate::bytes::le_bytes(told as int, 8);
    let all = super::paths::stat_record(told);
    assert(all.subrange(0, 8) =~= low);
    lemma_field64(all, 0, told as int);
}

/// What is asked for once a request is ready.
pub open spec fn sends(ask: Ask) -> bool {
    match ask {
        Ask::Plain(call) => match call {
            Call::Unpin { .. }
            | Call::InstallRequest { .. }
            | Call::CancelRequest { .. }
            | Call::BlockRequest { .. } => true,
            _ => false,
        },
        _ => false,
    }
}

/// A request is submitted once, as it was made ready.
pub(crate) proof fn lemma_sent(
    model: RequestModel,
    count: Option<PinnedOutput>,
    thread: u64,
    now_ns: u64,
    log: Seq<Event>,
    at: int,
    result: Result<DispatchResult, Status>,
)
    requires
        0 <= at,
        sent_to_block(model, count, thread, now_ns, log, at, result),
    ensures
        at < log.len(),
        log[at].ask == (Ask::Submit { request: model, now_ns }),
        forall|i: int| at < i < log.len() ==> sends((#[trigger] log[i]).ask),
        result is Ok ==> result->Ok_0 == DispatchResult::Blocked && log[at].answer->Number_0 is Ok
            && log[at + 1].answer->Handle_0 is Ok,
        result is Ok ==> log.len() == at + 3 && log[at + 2].ask == Ask::Plain(
            Call::BlockRequest {
                thread,
                request: log[at].number(),
                hidden_handle: log[at + 1].handle(),
                output: None,
                count_output: count,
                return_operation_status: true,
            },
        ) && log[at + 1].ask == Ask::Plain(Call::InstallRequest { request: log[at].number() }),
{
    match log[at].answer->Number_0 {
        Err(_) => {
            let asks = unpin_asks(pins_of(model.buffers)) + count_unpin(count);
            lemma_asked(log, at + 1, asks);
        },
        Ok(request) => {
            match log[at + 1].answer->Handle_0 {
                Err(_) => {
                    let asks = seq![Ask::Plain(Call::CancelRequest { request, now_ns })]
                        + count_unpin(count);
                    lemma_asked(log, at + 2, asks);
                },
                Ok(hidden_handle) => {
                    let asks = seq![
                        Ask::Plain(
                            Call::BlockRequest {
                                thread,
                                request,
                                hidden_handle,
                                output: None,
                                count_output: count,
                                return_operation_status: true,
                            },
                        ),
                    ];
                    lemma_asked(log, at + 2, asks);
                    assert(log[at + 2].ask == asks[0]);
                },
            }
        },
    }
}

/// A transfer is submitted once, with the file, the offset and the buffer that it is for; the
/// thread that waits for it is told the count where the caller wants it.
pub open spec fn transfers(
    call: SyscallContext,
    request: RequestModel,
    operation: RequestOperation,
    file: Node,
) -> bool {
    let terms = request.terms;
    &&& terms.operation == operation
    &&& terms.operation_argument == call.registers.rsi
    &&& terms.target_lease == PreparedRequestTarget::File(file)
    &&& terms.process_id == call.process_id
    &&& terms.thread_id == call.thread
    &&& terms.completion_mode == RequestCompletionMode::Block
    &&& terms.user_data == call.registers.r8
    &&& terms.deadline_ns is None
    &&& request.buffers.len() == 1
}

/// What a transfer asks for.
proof fn lemma_transfer(
    abi: Abi,
    call: SyscallContext,
    file: Node,
    operation: RequestOperation,
    buffer: BufferModel,
    log: Seq<Event>,
    at: int,
    result: Result<DispatchResult, Status>,
)
    requires
        0 <= at,
        transfer_sent(
            abi,
            call.process_id,
            call.thread,
            file,
            operation,
            call.registers.rsi,
            call.registers.r8,
            buffer,
            call.now_ns,
            log,
            at,
            result,
        ),
    ensures
        forall|i: int|
            at <= i < log.len() ==> {
                ||| sends((#[trigger] log[i]).ask)
                ||| log[i].ask matches Ask::Plain(Call::Pin { .. })
                ||| {
                    &&& log[i].ask matches Ask::Submit { request, now_ns }
                    &&& now_ns == call.now_ns
                    &&& transfers(call, request, operation, file)
                    &&& request.terms.request_flags == abi.request_allow_partial
                    &&& request.buffers[0] == buffer
                }
            },
        result is Ok ==> {
            let submitted = log.len() - 3;
            &&& result->Ok_0 == DispatchResult::Blocked
            &&& submitted >= at
            &&& log[submitted].ask is Submit
            &&& log[submitted + 2].ask matches Ask::Plain(
                Call::BlockRequest { thread, request, count_output, .. },
            )
            &&& thread == call.thread
            &&& request == log[submitted].number()
            &&& count_output matches Some(output)
            &&& output.address == call.registers.r8
            &&& was_pinned(log, at, call.registers.r8, 8, output.pages)
        },
{
    let model = RequestModel {
        terms: super::file_io::blocking_terms(
            call.process_id,
            call.thread,
            super::request_wire::node_target(file),
            PreparedRequestTarget::File(file),
            operation,
            call.registers.rsi,
            call.registers.r8,
            abi.request_allow_partial,
        ),
        buffers: seq![buffer],
    };
    assert(log[at].ask == Ask::Plain(
        Call::Pin { address: call.registers.r8, length: 8, write: true },
    ));
    match log[at].answer->Number_0 {
        Err(_) => {
            lemma_asked(log, at + 1, unpin_asks(pins_of(model.buffers)));
        },
        Ok(pages) => {
            lemma_sent(
                model,
                Some(PinnedOutput { address: call.registers.r8, pages }),
                call.thread,
                call.now_ns,
                log,
                at + 1,
                result,
            );
        },
    }
}

/// A write hands the broker the bytes that were read at the caller's address, for the file
/// that the handle names and may write, at exactly the offset that the caller passes. Where it
/// is accepted, the thread waits for that request, and the count goes where the caller says.
pub proof fn law_writes_go_to_the_offset_that_was_asked_for(
    abi: Abi,
    call: SyscallContext,
    before: Seq<Event>,
    log: Seq<Event>,
    dispatched: Result<DispatchResult, Status>,
)
    requires
        called(abi, SyscallNumber::FilesystemWrite, call, before, log, dispatched),
    ensures
        ({
            let from = before.len() as int;
            let handle = Handle(call.registers.rdi as u32);
            &&& forall|i: int|
                from <= i < log.len() && (#[trigger] log[i]).ask is Submit ==> {
                    let request = log[i].ask->Submit_request;
                    &&& exists|file: Node| #[trigger]
                        names_file(log, from, handle, abi.rights.write, file) && transfers(
                            call,
                            request,
                            RequestOperation::FilesystemWrite,
                            file,
                        )
                    &&& request.terms.operation_argument == call.registers.rsi
                    &&& request.buffers[0] matches BufferModel::Copied { flags, user_address, bytes }
                    &&& flags == abi.buffer_flags.read
                    &&& user_address == call.registers.rdx
                    &&& was_read(log, from, call.registers.rdx, call.registers.r10, bytes)
                }
            &&& dispatched is Ok ==> {
                let submitted = log.len() - 3;
                &&& dispatched->Ok_0 == DispatchResult::Blocked
                &&& submitted >= from
                &&& log[submitted].ask is Submit
                &&& log[submitted + 2].ask matches Ask::Plain(
                    Call::BlockRequest { thread, request, count_output, .. },
                )
                &&& thread == call.thread
                &&& request == log[submitted].number()
                &&& count_output matches Some(output)
                &&& output.address == call.registers.r8
                &&& was_pinned(log, from, call.registers.r8, 8, output.pages)
            }
        }),
{
    let from = before.len() as int;
    let handle = Handle(call.registers.rdi as u32);
    if call.registers.rdi <= u32::MAX && super::file_io::transfer_length(
        abi,
        call.registers.r10,
    ) is Ok {
        let length = super::file_io::transfer_length(abi, call.registers.r10)->Ok_0;
        let first = seq![
            Ask::Plain(Call::File { handle, rights: abi.rights.write }),
            Ask::Plain(Call::CopyIn { address: call.registers.rdx, length }),
        ];
        if failed_in(log, from, first, dispatched) {
            lemma_failed(log, from, first, dispatched);
        } else {
            lemma_passed(log, from, first);
            assert(log[from].ask == first[0]);
            assert(log[from + 1].ask == first[1]);
            assert(length == call.registers.r10);
            assert(names_file(log, from, handle, abi.rights.write, log[from].node()));
            assert(was_read(
                log,
                from,
                call.registers.rdx,
                call.registers.r10,
                log[from + 1].bytes(),
            ));
            lemma_transfer(
                abi,
                call,
                log[from].node(),
                RequestOperation::FilesystemWrite,
                BufferModel::Copied {
                    flags: abi.buffer_flags.read,
                    user_address: call.registers.rdx,
                    bytes: log[from + 1].bytes(),
                },
                log,
                from + 2,
                dispatched,
            );
        }
    }
}

/// Two writes that are accepted and differ in nothing but their offsets, and that the kernel
/// answered alike up to the submission, hand the broker requests that differ in nothing but
/// the offset.
pub proof fn law_offsets_tell_writes_apart(
    abi: Abi,
    first: SyscallContext,
    second: SyscallContext,
    before: Seq<Event>,
    log: Seq<Event>,
    other: Seq<Event>,
    dispatched: Result<DispatchResult, Status>,
)
    requires
        called(abi, SyscallNumber::FilesystemWrite, first, before, log, dispatched),
        called(abi, SyscallNumber::FilesystemWrite, second, before, other, dispatched),
        dispatched is Ok,
        second == (SyscallContext { registers: second.registers, ..first }),
        second.registers == (super::dispatch::SyscallRegisters {
            rsi: second.registers.rsi,
            ..first.registers
        }),
        log.len() == other.len(),
        forall|i: int|
            before.len() <= i < log.len() - 3 ==> #[trigger] log[i] == #[trigger] other[i],
    ensures
        ({
            let one = log[log.len() - 3].ask;
            let two = other[log.len() - 3].ask;
            &&& one is Submit && two is Submit
            &&& one->Submit_request.terms.operation_argument == first.registers.rsi
            &&& two->Submit_request.terms.operation_argument == second.registers.rsi
            &&& two->Submit_request.buffers == one->Submit_request.buffers
            &&& two->Submit_request.terms == (super::kernel::RequestTerms {
                operation_argument: second.registers.rsi,
                ..one->Submit_request.terms
            })
        }),
{
    let from = before.len() as int;
    let handle = Handle(first.registers.rdi as u32);
    let length = super::file_io::transfer_length(abi, first.registers.r10)->Ok_0;
    let asks = seq![
        Ask::Plain(Call::File { handle, rights: abi.rights.write }),
        Ask::Plain(Call::CopyIn { address: first.registers.rdx, length }),
    ];
    if failed_in(log, from, asks, dispatched) {
        lemma_failed(log, from, asks, dispatched);
    }
    if failed_in(other, from, asks, dispatched) {
        lemma_failed(other, from, asks, dispatched);
    }
    lemma_passed(log, from, asks);
    lemma_passed(other, from, asks);
    let buffer = BufferModel::Copied {
        flags: abi.buffer_flags.read,
        user_address: first.registers.rdx,
        bytes: log[from + 1].bytes(),
    };
    let file = log[from].node();
    law_writes_go_to_the_offset_that_was_asked_for(abi, first, before, log, dispatched);
    law_writes_go_to_the_offset_that_was_asked_for(abi, second, before, other, dispatched);
    lemma_transfer(
        abi,
        first,
        file,
        RequestOperation::FilesystemWrite,
        buffer,
        log,
        from + 2,
        dispatched,
    );
    let submitted = log.len() - 3;
    assert(log[from] == other[from]);
    assert(log[from + 1] == other[from + 1]);
    lemma_transfer(
        abi,
        second,
        file,
        RequestOperation::FilesystemWrite,
        buffer,
        other,
        from + 2,
        dispatched,
    );
    assert(log[submitted].ask->Submit_request.buffers =~= seq![buffer]);
    assert(other[submitted].ask->Submit_request.buffers =~= seq![buffer]);
    assert(log[from + 2].ask is Plain && other[from + 2].ask is Plain);
}

/// A read hands the broker the pages that were pinned at the caller's address, for the file
/// that the handle names and may read, at exactly the offset that the caller passes. Where it
/// is accepted, the thread waits for that request, and the count goes where the caller says.
pub proof fn law_reads_come_from_the_offset_that_was_asked_for(
    abi: Abi,
    call: SyscallContext,
    before: Seq<Event>,
    log: Seq<Event>,
    dispatched: Result<DispatchResult, Status>,
)
    requires
        called(abi, SyscallNumber::FilesystemRead, call, before, log, dispatched),
    ensures
        ({
            let from = before.len() as int;
            let handle = Handle(call.registers.rdi as u32);
            &&& forall|i: int|
                from <= i < log.len() && (#[trigger] log[i]).ask is Submit ==> {
                    let request = log[i].ask->Submit_request;
                    &&& exists|file: Node| #[trigger]
                        names_file(log, from, handle, abi.rights.read, file) && transfers(
                            call,
                            request,
                            RequestOperation::FilesystemRead,
                            file,
                        )
                    &&& request.terms.operation_argument == call.registers.rsi
                    &&& request.buffers[0] matches BufferModel::Pinned {
                        flags,
                        owner_process_id,
                        pages,
                    }
                    &&& flags == abi.buffer_flags.write
                    &&& owner_process_id == call.process_id
                    &&& was_pinned(log, from, call.registers.rdx, call.registers.r10, pages)
                }
            &&& dispatched is Ok ==> {
                let submitted = log.len() - 3;
                &&& dispatched->Ok_0 == DispatchResult::Blocked
                &&& submitted >= from
                &&& log[submitted].ask is Submit
                &&& log[submitted + 2].ask matches Ask::Plain(
                    Call::BlockRequest { thread, request, count_output, .. },
                )
                &&& thread == call.thread
                &&& request == log[submitted].number()
                &&& count_output matches Some(output)
                &&& output.address == call.registers.r8
                &&& was_pinned(log, from, call.registers.r8, 8, output.pages)
            }
        }),
{
    let from = before.len() as int;
    let handle = Handle(call.registers.rdi as u32);
    if call.registers.rdi <= u32::MAX && super::file_io::transfer_length(
        abi,
        call.registers.r10,
    ) is Ok {
        let length = super::file_io::transfer_length(abi, call.registers.r10)->Ok_0;
        let first = seq![
            Ask::Plain(Call::File { handle, rights: abi.rights.read }),
            Ask::Plain(Call::Pin { address: call.registers.rdx, length, write: true }),
        ];
        if failed_in(log, from, first, dispatched) {
            lemma_failed(log, from, first, dispatched);
        } else {
            lemma_passed(log, from, first);
            assert(log[from].ask == first[0]);
            assert(log[from + 1].ask == first[1]);
            assert(length == call.registers.r10);
            assert(names_file(log, from, handle, abi.rights.read, log[from].node()));
            assert(was_pinned(
                log,
                from,
                call.registers.rdx,
                call.registers.r10,
                log[from + 1].number(),
            ));
            lemma_transfer(
                abi,
                call,
                log[from].node(),
                RequestOperation::FilesystemRead,
                BufferModel::Pinned {
                    flags: abi.buffer_flags.write,
                    owner_process_id: call.process_id,
                    pages: log[from + 1].number(),
                },
                log,
                from + 2,
                dispatched,
            );
        }
    }
}

/// A request to open a file hands the broker the path that was read where the record says,
/// the directory that the handle names with the rights of that handle, the flags of the
/// record, and the pages where the handle is to be told.
pub proof fn law_opens_follow_the_record(
    abi: Abi,
    call: SyscallContext,
    before: Seq<Event>,
    log: Seq<Event>,
    dispatched: Result<DispatchResult, Status>,
)
    requires
        called(abi, SyscallNumber::FilesystemOpen, call, before, log, dispatched),
    ensures
        ({
            let from = before.len() as int;
            let record = log[from].bytes();
            let handle = Handle(call.registers.rdi as u32);
            &&& forall|i: int|
                from <= i < log.len() && (#[trigger] log[i]).ask is Submit ==> {
                    let request = log[i].ask->Submit_request;
                    let terms = request.terms;
                    &&& log[from].ask == Ask::Plain(
                        Call::CopyIn { address: call.registers.rsi, length: 24 },
                    )
                    &&& terms.operation == RequestOperation::FilesystemOpen
                    &&& terms.operation_argument == le32_at(record, 16)
                    &&& terms.process_id == call.process_id
                    &&& terms.thread_id == call.thread
                    &&& terms.completion_mode == RequestCompletionMode::Block
                    &&& terms.target_lease matches PreparedRequestTarget::Directory {
                        directory,
                        is_root,
                        rights,
                    }
                    &&& directory is None <==> is_root
                    &&& directory matches Some(node) ==> exists|needed: u32| #[trigger]
                        names_directory_as(log, from, handle, needed, node)
                    &&& request.buffers.len() == 2
                    &&& request.buffers[0] matches BufferModel::Copied { user_address, bytes, .. }
                    &&& user_address == le64_at(record, 0) as u64
                    &&& was_read(
                        log,
                        from,
                        le64_at(record, 0) as u64,
                        le64_at(record, 8) as u64,
                        bytes,
                    )
                    &&& request.buffers[1] matches BufferModel::Pinned {
                        owner_process_id,
                        pages,
                        ..
                    }
                    &&& owner_process_id == call.process_id
                    &&& was_pinned(log, from, call.registers.rdx, 8, pages)
                }
            &&& dispatched is Ok ==> {
                let submitted = log.len() - 3;
                &&& dispatched->Ok_0 == DispatchResult::Blocked
                &&& submitted >= from
                &&& log[submitted].ask is Submit
                &&& log[submitted + 2].ask matches Ask::Plain(
                    Call::BlockRequest { thread, request, .. },
                )
                &&& thread == call.thread
                &&& request == log[submitted].number()
            }
        }),
{
    let from = before.len() as int;
    let handle = Handle(call.registers.rdi as u32);
    if call.registers.rdi <= u32::MAX && log[from].refused() is None
        && super::paths::open_args_in(abi, log[from].bytes()) is Ok {
        let args = super::paths::open_args_in(abi, log[from].bytes())->Ok_0;
        let required = super::paths::open_rights(abi, args.flags);
        let at = from + 1;
        if log[at].refused() is None {
            if !path_failed(abi, args.path_address, args.path_length, log, at + 1, dispatched) {
                lemma_path(abi, args.path_address, args.path_length, log, at + 1);
                if anchor_failed(handle, required, log, at + 2, dispatched) {
                    lemma_no_anchor(handle, required, log, at + 2, dispatched);
                } else {
                    lemma_anchor(handle, required, log, at + 2);
                    let end = anchor_end(log, at + 2);
                    let anchor = anchor_of(log, at + 2);
                    assert(names_directory_as(log, from, handle, required, anchor.directory));
                    if log.len() > end + 1 {
                        assert(was_pinned(log, from, call.registers.rdx, 8, log[end].number()));
                        lemma_sent(
                            RequestModel {
                                terms: super::file_io::open_terms(
                                    call.process_id,
                                    call.thread,
                                    anchor,
                                    args.flags,
                                ),
                                buffers: seq![
                                    BufferModel::Copied {
                                        flags: abi.buffer_flags.read,
                                        user_address: args.path_address,
                                        bytes: log[at + 1].bytes(),
                                    },
                                    BufferModel::Pinned {
                                        flags: abi.buffer_flags.write,
                                        owner_process_id: call.process_id,
                                        pages: log[end].number(),
                                    },
                                ],
                            },
                            None,
                            call.thread,
                            call.now_ns,
                            log,
                            end + 1,
                            dispatched,
                        );
                    }
                }
            }
        }
    }
}

} // verus!
