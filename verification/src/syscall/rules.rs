//! The rules on names, rights, buffers and their limits, and what is done with a file at once.
use vstd::prelude::*;
use vstd::utf8::encode_utf8;

use crate::bytes::{le64_at, lemma_field64};

use super::abi::{Abi, Handle, RequestOperation, Status};
use super::effects::{
    lemma_anchor, lemma_failed, lemma_passed, lemma_path, lemma_ran, names_directory_as, was_read,
};
use super::file_io::{
    did_filesystem_open, did_filesystem_read, did_filesystem_write, transfer_length,
};
use super::files::{anchor_end, anchor_failed, anchor_of};
use super::kernel::{Ask, Call, Event};
use super::paths::{
    bad_component, child_rights, component_end, components_checked, last_separator,
    lemma_first_component, nanoseconds_of, open_args_in, open_flags_allowed, open_rights,
    opened_rights, path_checked, path_limit, protected_name, protected_path,
};
use super::request_wire::{
    buffer_rights, directory_target, node_target, operation_buffers, public_operation,
    resources_checked, resources_of, Node, RequestBuffer, RequestLimits,
};

verus! {

broadcast use super::heard::group_heard;

/// Slashes in a path from a place on.
pub open spec fn slashes(path: Seq<u8>, from: int) -> int
    decreases path.len() - from,
{
    if from >= path.len() {
        0
    } else {
        slashes(path, from + 1) + if path[from] == 0x2f {
            1int
        } else {
            0
        }
    }
}

/// What stands at a place of a good path: no colon, backslash or zero, and behind a slash a
/// step that is not empty and not one or two dots.
pub open spec fn good_at(path: Seq<u8>, at: int) -> bool {
    &&& path[at] != 0x3a && path[at] != 0x5c && path[at] != 0
    &&& path[at] == 0x2f ==> good_step(path, at + 1)
}

/// A step that is not empty and not one or two dots begins here.
pub open spec fn good_step(path: Seq<u8>, from: int) -> bool {
    &&& from < path.len() && path[from] != 0x2f
    &&& path[from] == 0x2e ==> from + 1 < path.len() && path[from + 1] != 0x2f
    &&& path[from] == 0x2e && path[from + 1] == 0x2e ==> from + 2 < path.len() && path[from + 2]
        != 0x2f
}

/// The end of a step is its first slash, or the end of the path.
proof fn lemma_component(path: Seq<u8>, from: int)
    requires
        0 <= from <= path.len(),
    ensures
        from <= component_end(path, from) <= path.len(),
        forall|i: int| from <= i < component_end(path, from) ==> #[trigger] path[i] != 0x2f,
        component_end(path, from) < path.len() ==> path[component_end(path, from)] == 0x2f,
        slashes(path, from) == slashes(path, component_end(path, from)),
    decreases path.len() - from,
{
    if from < path.len() && path[from] != 0x2f {
        lemma_component(path, from + 1);
    }
}

/// What was checked of the steps from a place on.
proof fn lemma_steps(abi: Abi, path: Seq<u8>, from: int, depth: int, at: int)
    requires
        0 <= from <= path.len(),
        components_checked(abi, path, from, depth) is Ok,
    ensures
        good_step(path, from),
        from <= at < path.len() ==> good_at(path, at),
        depth + 1 + slashes(path, from) <= abi.limits.traversal_depth,
    decreases path.len() - from,
{
    lemma_component(path, from);
    let end = component_end(path, from);
    let name = path.subrange(from, end);
    assert(!bad_component(abi, name));
    assert(name =~= name);
    if end == from + 1 && path[from] == 0x2e {
        assert(name =~= seq![0x2eu8]);
    }
    if end == from + 2 && path[from] == 0x2e && path[from + 1] == 0x2e {
        assert(name =~= seq![0x2eu8, 0x2e]);
    }
    if from <= at < end {
        assert(name[at - from] == path[at]);
        assert(name.contains(path[at]));
    }
    if end < path.len() {
        lemma_steps(abi, path, end + 1, depth + 1, at);
    }
}

/// A path that is accepted is relative, not longer than its limit, names something at every
/// step, and has no more steps than may be walked.
pub proof fn law_accepted_paths_are_relative_and_plain(abi: Abi, path: Seq<u8>, at: int)
    requires
        path_checked(abi, path) is Ok,
        0 <= at < path.len(),
    ensures
        0 < path.len() <= path_limit(abi),
        path[0] != 0x2f,
        good_step(path, 0),
        good_at(path, at),
        slashes(path, 0) + 1 <= abi.limits.traversal_depth,
{
    lemma_steps(abi, path, 0, 0, at);
}

/// A name on its own is accepted as a path wherever it is short enough, is not one or two
/// dots, and holds no separator.
pub proof fn law_plain_names_are_accepted(abi: Abi, name: Seq<u8>)
    requires
        abi.limits.traversal_depth > 0,
        0 < name.len() <= abi.limits.filesystem_name,
        !(name.len() == 1 && name[0] == 0x2e),
        !(name.len() == 2 && name[0] == 0x2e && name[1] == 0x2e),
        forall|i: int|
            0 <= i < name.len() ==> (#[trigger] name[i]) != 0x2f && name[i] != 0x3a && name[i]
                != 0x5c && name[i] != 0,
    ensures
        path_checked(abi, name) is Ok,
        path_limit(abi) >= abi.limits.filesystem_name,
{
    assert(!name.contains(0x2f));
    assert(!name.contains(0x3a));
    assert(!name.contains(0x5c));
    assert(!name.contains(0));
    lemma_first_component(name, 0, Seq::empty());
    assert(name + Seq::<u8>::empty() =~= name);
    assert(name.subrange(0, name.len() as int) =~= name);
    let depth = abi.limits.traversal_depth as int;
    let longest = abi.limits.filesystem_name as int;
    assert(depth * longest >= longest) by (nonlinear_arith)
        requires
            depth >= 1,
            longest >= 0,
    ;
}

/// A name that is too long for a step is refused.
pub proof fn law_long_names_are_refused(abi: Abi, name: Seq<u8>)
    requires
        name.len() > abi.limits.filesystem_name,
        forall|i: int| 0 <= i < name.len() ==> (#[trigger] name[i]) != 0x2f,
    ensures
        path_checked(abi, name) == Err::<(), Status>(Status::InvalidArgument),
{
    assert(!name.contains(0x2f));
    lemma_first_component(name, 0, Seq::empty());
    assert(name + Seq::<u8>::empty() =~= name);
    assert(name.subrange(0, name.len() as int) =~= name);
}

/// What belongs to the system is this, and nothing else at the root.
pub proof fn law_system_files_are_these(name: Seq<u8>)
    ensures
        protected_name(name) <==> seq![
            encode_utf8("system"@),
            encode_utf8("desktop.elf"@),
            encode_utf8("minimal-client.elf"@),
            encode_utf8("file-navigator.elf"@),
            encode_utf8("text-editor.elf"@),
            encode_utf8("terminal.elf"@),
            encode_utf8("programs.gkr"@),
            encode_utf8("system.log"@),
            encode_utf8("console"@),
            encode_utf8("input"@),
        ].contains(name),
{
    let names = seq![
        encode_utf8("system"@),
        encode_utf8("desktop.elf"@),
        encode_utf8("minimal-client.elf"@),
        encode_utf8("file-navigator.elf"@),
        encode_utf8("text-editor.elf"@),
        encode_utf8("terminal.elf"@),
        encode_utf8("programs.gkr"@),
        encode_utf8("system.log"@),
        encode_utf8("console"@),
        encode_utf8("input"@),
    ];
    assert(names[0] == encode_utf8("system"@));
    assert(names[1] == encode_utf8("desktop.elf"@));
    assert(names[2] == encode_utf8("minimal-client.elf"@));
    assert(names[3] == encode_utf8("file-navigator.elf"@));
    assert(names[4] == encode_utf8("text-editor.elf"@));
    assert(names[5] == encode_utf8("terminal.elf"@));
    assert(names[6] == encode_utf8("programs.gkr"@));
    assert(names[7] == encode_utf8("system.log"@));
    assert(names[8] == encode_utf8("console"@));
    assert(names[9] == encode_utf8("input"@));
}

/// A path is parted from its last name at its last slash.
pub proof fn law_names_follow_the_last_slash(path: Seq<u8>)
    ensures
        match last_separator(path, path.len()) {
            Some(at) => {
                &&& 0 <= at < path.len()
                &&& path[at] == 0x2f
                &&& forall|i: int| at < i < path.len() ==> #[trigger] path[i] != 0x2f
            },
            None => forall|i: int| 0 <= i < path.len() ==> #[trigger] path[i] != 0x2f,
        },
{
    lemma_last_separator(path, path.len());
}

/// The last slash among the first bytes.
proof fn lemma_last_separator(path: Seq<u8>, count: nat)
    requires
        count <= path.len(),
    ensures
        match last_separator(path, count) {
            Some(at) => {
                &&& 0 <= at < count
                &&& path[at] == 0x2f
                &&& forall|i: int| at < i < count ==> #[trigger] path[i] != 0x2f
            },
            None => forall|i: int| 0 <= i < count ==> #[trigger] path[i] != 0x2f,
        },
    decreases count,
{
    if count > 0 && path[count - 1] != 0x2f {
        lemma_last_separator(path, (count - 1) as nat);
    }
}

/// How a file may be opened: with flags that are known, to read or to write; made or emptied
/// only where it is written, and run only where it is read and nothing of it is changed.
pub proof fn law_files_are_opened_for_something(abi: Abi, flags: u32)
    ensures
        ({
            let open = abi.open_flags;
            open_flags_allowed(abi, flags) <==> {
                &&& flags & !open.all == 0
                &&& flags & (open.read | open.write) != 0
                &&& flags & (open.create | open.truncate) == 0 || flags & open.write == open.write
                &&& flags & open.execute != open.execute || (flags & open.read == open.read && flags
                    & (open.write | open.create | open.truncate) == 0)
            }
        }),
{
}

/// What opening a file asks of its directory: reading always, running to run it, and writing
/// to write, make or empty it.
pub proof fn law_opening_asks_for_these_rights(abi: Abi, flags: u32)
    ensures
        ({
            let r = abi.rights;
            let runs = flags & abi.open_flags.execute == abi.open_flags.execute;
            let writes = flags & (abi.open_flags.write | abi.open_flags.create
                | abi.open_flags.truncate) != 0;
            &&& !runs && !writes ==> open_rights(abi, flags) == r.read
            &&& runs && !writes ==> open_rights(abi, flags) == r.read | r.execute
            &&& !runs && writes ==> open_rights(abi, flags) == r.read | r.write
            &&& runs && writes ==> open_rights(abi, flags) == (r.read | r.execute) | r.write
        }),
{
}

/// What the handle of an open file may do: what it was opened for, and be handed on only
/// where it was opened to run.
pub proof fn law_open_files_have_these_rights(abi: Abi, flags: u32)
    ensures
        ({
            let r = abi.rights;
            let reads = flags & abi.open_flags.read == abi.open_flags.read;
            let writes = flags & abi.open_flags.write == abi.open_flags.write;
            let runs = flags & abi.open_flags.execute == abi.open_flags.execute;
            let handed = (r.execute | r.duplicate) | r.transfer;
            &&& reads && !writes && !runs ==> opened_rights(abi, flags) == r.read
            &&& !reads && writes && !runs ==> opened_rights(abi, flags) == r.write
            &&& reads && writes && !runs ==> opened_rights(abi, flags) == r.read | r.write
            &&& reads && !writes && runs ==> opened_rights(abi, flags) == r.read | handed
            &&& !reads && !writes && !runs ==> opened_rights(abi, flags) == 0
        }),
{
    let read = abi.rights.read;
    let write = abi.rights.write;
    assert(0u32 | read == read && 0u32 | write == write) by (bit_vector);
}

/// What the handle of a directory in a directory may do: read and write as far as the outer
/// one may, no writing where it belongs to the system, and be handed on as the outer one may,
/// or always where that is the root.
pub proof fn law_directories_inherit_these_rights(abi: Abi, anchor: u32, is_root: bool, held: bool)
    ensures
        ({
            let r = abi.rights;
            let rights = child_rights(abi, anchor, is_root, held);
            let access = anchor & (r.read | r.write);
            let handed = r.duplicate | r.transfer;
            &&& !held && is_root ==> rights == access | handed
            &&& !held && !is_root ==> rights == access | (anchor & handed)
            &&& held && is_root ==> rights == (access & !r.write) | handed
            &&& held && !is_root ==> rights == (access & !r.write) | (anchor & handed)
        }),
{
}

/// Rights that a buffer in shared memory needs: those of its use.
pub proof fn law_buffers_need_the_rights_of_their_use(abi: Abi, flags: u32)
    ensures
        ({
            let reads = flags & abi.buffer_flags.read == abi.buffer_flags.read;
            let writes = flags & abi.buffer_flags.write == abi.buffer_flags.write;
            let rights = buffer_rights(abi, flags);
            &&& reads && !writes ==> rights == abi.rights.read
            &&& !reads && writes ==> rights == abi.rights.write
            &&& reads && writes ==> rights == abi.rights.read | abi.rights.write
            &&& !reads && !writes ==> rights == 0
        }),
{
    let read = abi.rights.read;
    let write = abi.rights.write;
    assert(0u32 | read == read && 0u32 | write == write) by (bit_vector);
}

/// Times are told in nanoseconds where these fit.
pub proof fn law_times_are_nanoseconds(seconds: u64, nanoseconds: u32)
    ensures
        seconds * 1_000_000_000 + nanoseconds <= 0xffff_ffff_ffff_ffff ==> nanoseconds_of(
            seconds,
            nanoseconds,
        ) == Ok::<u64, Status>((seconds * 1_000_000_000 + nanoseconds) as u64),
        seconds * 1_000_000_000 + nanoseconds > 0xffff_ffff_ffff_ffff ==> nanoseconds_of(
            seconds,
            nanoseconds,
        ) == Err::<u64, Status>(Status::OutOfRange),
{
}

/// What a process may ask for itself, and with which buffers: to read a file one that is
/// written to, to write a file or play sound one that is read from, and none to do nothing or
/// to synchronise.
pub proof fn law_operations_take_their_buffers(
    abi: Abi,
    operation: RequestOperation,
    argument: u64,
    buffers: Seq<RequestBuffer>,
)
    ensures
        ({
            let one = buffers.len() == 1 && buffers[0].flags & !abi.buffer_flags.all == 0;
            let none = buffers.len() == 0 && argument == 0;
            let answer = operation_buffers(abi, operation, argument, buffers);
            &&& operation is FilesystemRead ==> (answer is Ok <==> one && buffers[0].flags
                == abi.buffer_flags.write)
            &&& operation is FilesystemWrite ==> (answer is Ok <==> one && buffers[0].flags
                == abi.buffer_flags.read)
            &&& operation is AudioWrite ==> (answer is Ok <==> one && buffers[0].flags
                == abi.buffer_flags.read)
            &&& operation is Nop ==> (answer is Ok <==> none)
            &&& operation is FilesystemSync ==> (answer is Ok <==> none)
            &&& operation is Synthetic ==> answer is Ok
            &&& operation is FilesystemOpen || operation is FilesystemTruncate
                || operation is FilesystemNamespace ==> answer == Err::<(), Status>(
                Status::AccessDenied,
            )
            &&& public_operation(operation) && answer is Err ==> answer == Err::<(), Status>(
                Status::InvalidArgument,
            )
            &&& public_operation(operation) <==> operation is Nop || operation is FilesystemRead
                || operation is FilesystemWrite || operation is FilesystemSync
                || operation is AudioWrite
        }),
{
}

/// What one more buffer takes: its length where it is copied or shared, and the pages from its
/// first to its last byte where it is pinned.
pub proof fn law_buffers_take_what_they_hold(buffers: Seq<RequestBuffer>, count: nat)
    requires
        count < buffers.len(),
        buffers[count as int].length > 0,
        resources_of(buffers, count) is Some,
        resources_of(buffers, count + 1) is Some,
    ensures
        ({
            let (copied, pinned, shared) = resources_of(buffers, count)->Some_0;
            let (more_copied, more_pinned, more_shared) = resources_of(buffers, count + 1)->Some_0;
            let buffer = buffers[count as int];
            let last = buffer.address + buffer.length - 1;
            &&& more_copied - copied == (if buffer.kind is Copy {
                buffer.length as int
            } else {
                0
            })
            &&& more_shared - shared == (if buffer.kind is SharedMemory {
                buffer.length as int
            } else {
                0
            })
            &&& buffer.kind is Pinned ==> last / 4096 == buffer.address as int / 4096 + (more_pinned
                - pinned) - 1
            &&& !(buffer.kind is Pinned) ==> more_pinned == pinned
            &&& !(buffer.kind is SharedMemory) ==> last <= 0xffff_ffff_ffff_ffff
            &&& buffer.kind is SharedMemory ==> buffer.offset + buffer.length
                <= 0xffff_ffff_ffff_ffff
        }),
{
}

/// A request takes no more than the broker has for one.
pub proof fn law_requests_stay_within_their_limits(
    buffers: Seq<RequestBuffer>,
    limits: RequestLimits,
)
    ensures
        ({
            let answer = resources_checked(buffers, limits);
            let taken = resources_of(buffers, buffers.len());
            let (copied, pinned, shared) = taken->Some_0;
            let within = copied <= limits.copied_bytes_per_request && pinned
                <= limits.pinned_pages_per_request && shared <= limits.shared_bytes_per_request;
            &&& taken is None ==> answer == Err::<(), Status>(Status::OutOfRange)
            &&& taken is Some && within ==> answer is Ok
            &&& taken is Some && !within ==> answer == Err::<(), Status>(Status::ResourceLimit)
        }),
{
}

/// Requests on a node go to the number that has its generation above its identity; requests on
/// the root go to a number that no node has.
pub proof fn law_targets_hold_generation_and_identity(node: Node)
    ensures
        node_target(node) as int % 0x1_0000_0000 == node.node_id,
        node_target(node) as int / 0x1_0000_0000 == node.generation,
        directory_target(Some(node)) == node_target(node),
{
}

/// A file that is read at once: the bytes that the file named by the handle holds at the offset
/// go where the caller wants them, and then their number.
pub proof fn law_files_read_at_once_give_their_bytes(
    abi: Abi,
    raw_file: u64,
    offset: u64,
    output_address: u64,
    raw_length: u64,
    count_address: u64,
    before: Seq<Event>,
    log: Seq<Event>,
    result: Result<(), Status>,
)
    requires
        result is Ok,
        did_filesystem_read(
            abi,
            raw_file,
            offset,
            output_address,
            raw_length,
            count_address,
            before,
            log,
            result,
        ),
    ensures
        ({
            let base = before.len() as int;
            &&& raw_file <= 0xffff_ffff
            &&& raw_length <= abi.limits.filesystem_read_bytes
            &&& log.len() == base + 6
            &&& log[base + 2].ask == Ask::Plain(
                Call::File { handle: Handle(raw_file as u32), rights: abi.rights.read },
            )
            &&& log[base + 3].ask == Ask::Plain(
                Call::ReadFile {
                    file: log[base + 2].node(),
                    offset,
                    length: raw_length as usize,
                },
            )
            &&& log[base + 3].bytes().len() <= raw_length
            &&& log[base + 4].ask == Ask::With(
                Call::CopyOut { address: output_address },
                log[base + 3].bytes(),
            )
            &&& log[base + 5].ask matches Ask::With(Call::CopyOut { address }, told)
            &&& address == count_address
            &&& told.len() == 8
            &&& le64_at(told, 0) == log[base + 3].bytes().len()
        }),
{
    let base = before.len() as int;
    let handle = Handle(raw_file as u32);
    let length = transfer_length(abi, raw_length)->Ok_0;
    let bytes = log[base + 3].bytes();
    let first = seq![
        Ask::Plain(Call::CheckOutput { address: output_address, length }),
        Ask::Plain(Call::CheckOutput { address: count_address, length: 8 }),
        Ask::Plain(Call::File { handle, rights: abi.rights.read }),
        Ask::Plain(Call::ReadFile { file: log[base + 2].node(), offset, length }),
    ];
    if super::kernel::failed_in(log, base, first, result) {
        lemma_failed(log, base, first, result);
    }
    lemma_passed(log, base, first);
    assert(log[base + 2].ask == first[2]);
    assert(log[base + 3].ask == first[3]);
    let told = crate::bytes::le_bytes(bytes.len() as int, 8);
    let rest = seq![
        Ask::With(Call::CopyOut { address: output_address }, bytes),
        Ask::With(Call::CopyOut { address: count_address }, told),
    ];
    lemma_ran(log, base + 4, rest, result);
    assert(log[base + 4].ask == rest[0]);
    assert(log[base + 5].ask == rest[1]);
    assert(told.subrange(0, 8) =~= told);
    lemma_field64(told, 0, bytes.len() as int);
}

/// A file that is written at once: the caller's bytes go into the file named by the handle, at
/// the offset, and the caller learns how many were written.
pub proof fn law_files_written_at_once_take_the_callers_bytes(
    abi: Abi,
    raw_file: u64,
    offset: u64,
    input_address: u64,
    raw_length: u64,
    count_address: u64,
    before: Seq<Event>,
    log: Seq<Event>,
    result: Result<(), Status>,
)
    requires
        result is Ok,
        did_filesystem_write(
            abi,
            raw_file,
            offset,
            input_address,
            raw_length,
            count_address,
            before,
            log,
            result,
        ),
    ensures
        ({
            let base = before.len() as int;
            &&& raw_file <= 0xffff_ffff
            &&& raw_length <= abi.limits.filesystem_read_bytes
            &&& log.len() == base + 5
            &&& log[base + 1].ask == Ask::Plain(
                Call::File { handle: Handle(raw_file as u32), rights: abi.rights.write },
            )
            &&& log[base + 2].ask == Ask::Plain(
                Call::CopyIn { address: input_address, length: raw_length as usize },
            )
            &&& log[base + 3].ask == Ask::With(
                Call::WriteFile { file: log[base + 1].node(), offset },
                log[base + 2].bytes(),
            )
            &&& log[base + 4].ask matches Ask::With(Call::CopyOut { address }, told)
            &&& address == count_address
            &&& told.len() == 8
            &&& le64_at(told, 0) == log[base + 3].number()
        }),
{
    let base = before.len() as int;
    let handle = Handle(raw_file as u32);
    let length = transfer_length(abi, raw_length)->Ok_0;
    let told = crate::bytes::le_bytes(log[base + 3].number() as int, 8);
    let plan = seq![
        Ask::Plain(Call::CheckOutput { address: count_address, length: 8 }),
        Ask::Plain(Call::File { handle, rights: abi.rights.write }),
        Ask::Plain(Call::CopyIn { address: input_address, length }),
        Ask::With(
            Call::WriteFile { file: log[base + 1].node(), offset },
            log[base + 2].bytes(),
        ),
        Ask::With(Call::CopyOut { address: count_address }, told),
    ];
    lemma_ran(log, base, plan, result);
    assert(log[base + 1].ask == plan[1]);
    assert(log[base + 2].ask == plan[2]);
    assert(log[base + 3].ask == plan[3]);
    assert(log[base + 4].ask == plan[4]);
    assert(told.subrange(0, 8) =~= told);
    lemma_field64(told, 0, log[base + 3].number() as int);
}

/// A file that is opened at once: looked for under the caller's path in the directory that the
/// caller's handle names, made only where it is not there and that is asked for, emptied only
/// where that is asked for, and given to the caller under a handle with the rights it was
/// opened for.
pub proof fn law_files_opened_at_once_are_given(
    abi: Abi,
    raw_anchor: u64,
    args_address: u64,
    output_address: u64,
    before: Seq<Event>,
    log: Seq<Event>,
    result: Result<(), Status>,
)
    requires
        result is Ok,
        did_filesystem_open(abi, raw_anchor, args_address, output_address, before, log, result),
    ensures
        ({
            let base = before.len() as int;
            let record = log[base].bytes();
            let at = anchor_end(log, base + 3);
            let directory = anchor_of(log, base + 3).directory;
            let path = log[base + 2].bytes();
            let flags = super::paths::open_args_in(abi, record)->Ok_0.flags;
            let made = log[at].refused() is Some;
            let found = if made {
                at + 1
            } else {
                at
            };
            let empties = flags & abi.open_flags.truncate == abi.open_flags.truncate;
            &&& log[base].ask == Ask::Plain(Call::CopyIn { address: args_address, length: 24 })
            &&& flags == crate::bytes::le32_at(record, 16)
            &&& was_read(log, base, le64_at(record, 0) as u64, le64_at(record, 8) as u64, path)
            &&& names_directory_as(
                log,
                base,
                Handle(raw_anchor as u32),
                open_rights(abi, flags),
                directory,
            )
            &&& log[at].ask == Ask::With(Call::OpenFileAt { directory }, path)
            &&& made ==> log[at].refused() == Some(Status::NotFound) && flags
                & abi.open_flags.create == abi.open_flags.create && log[at + 1].ask == Ask::With(
                Call::CreateFileAt { directory },
                path,
            )
            &&& log[found].refused() is None
            &&& log[found + 1].ask == Ask::Plain(
                Call::CreateFileHandle {
                    file: log[found].node(),
                    rights: opened_rights(abi, flags),
                },
            )
            &&& empties ==> log[found + 2].ask == Ask::Plain(
                Call::TruncateFile { file: log[found].node(), length: 0 },
            ) && log[found + 2].refused() is None
            &&& log.last().ask == Ask::With(
                Call::CopyOut { address: output_address },
                super::wire::handle_record(log[found + 1].handle()),
            )
            &&& log.len() == found + if empties {
                4int
            } else {
                3
            }
            &&& anchor_of(log, base + 3).is_root && open_rights(abi, flags) & abi.rights.write
                == abi.rights.write ==> !protected_path(path)
        }),
{
    let base = before.len() as int;
    let args = open_args_in(abi, log[base].bytes())->Ok_0;
    let required = open_rights(abi, args.flags);
    let handle = Handle(raw_anchor as u32);
    assert(!anchor_failed(handle, required, log, base + 3, result)) by {
        if anchor_failed(handle, required, log, base + 3, result) {
            super::effects::lemma_no_anchor(handle, required, log, base + 3, result);
        }
    }
    lemma_path(abi, args.path_address, args.path_length, log, base + 2);
    lemma_anchor(handle, required, log, base + 3);
}

} // verus!
