//! What system calls that look at files, directories, the file system and memory tell the caller,
//! and what a synchronisation is for.
use vstd::prelude::*;

use crate::bytes::{le16_at, le32_at, le64_at, le_bytes, lemma_field64};

use super::abi::{Abi, Handle, RequestCompletionMode, RequestOperation, Status};
use super::dispatch::{called, over, SyscallContext};
use super::effects::{
    lemma_anchor, lemma_located, lemma_no_anchor, lemma_not_located, lemma_passed, lemma_ran,
    lemma_sent, names_directory_as, was_read,
};
use super::file_io::did_filesystem_sync_request;
use super::files::{anchor_end, anchor_failed, anchor_of, not_located};
use super::kernel::{ran_through, Ask, Call, DispatchResult, Event, PreparedRequestTarget, RequestModel};
use super::mapping::did_memory_get_info;
use super::memory::memory_record;
use super::memory_effects::lemma_fields_fit;
use super::nodes::{
    did_filesystem_get_info, did_filesystem_get_metadata, did_filesystem_read_directory,
    did_filesystem_read_directory2, entry_listed, file_listed, info_served, metadata_given,
    metadata_served,
};
use super::number::SyscallNumber;
use super::paths::{
    entry_record, file_entry_record, files_before, info_record, metadata_record, path_args_in,
    DirectoryEntry, NodeMetadata,
};
use super::records::{
    law_file_systems_are_described_field_by_field, law_files_are_listed_field_by_field,
    law_names_are_described_field_by_field,
    law_nodes_are_described_field_by_field,
};
use super::request_wire::Node;

verus! {

/// These bytes tell this of a file or directory; times are in nanoseconds.
pub open spec fn tells_of_node(told: Seq<u8>, metadata: NodeMetadata) -> bool {
    &&& told.len() == 64
    &&& le32_at(told, 0) == (if metadata.kind is File {
        1int
    } else {
        2
    })
    &&& le32_at(told, 4) == metadata.mode
    &&& le64_at(told, 8) == metadata.size
    &&& le64_at(told, 16) == metadata.identity
    &&& le64_at(told, 24) == metadata.ctime.seconds * 1_000_000_000 + metadata.ctime.nanoseconds
    &&& le64_at(told, 32) == metadata.mtime.seconds * 1_000_000_000 + metadata.mtime.nanoseconds
    &&& le32_at(told, 40) == metadata.uid
    &&& le32_at(told, 44) == metadata.gid
    &&& le32_at(told, 48) == metadata.policy
}

/// What is known of a file or directory is told.
proof fn lemma_metadata_given(
    metadata: NodeMetadata,
    address: u64,
    log: Seq<Event>,
    at: int,
    result: Result<(), Status>,
)
    requires
        0 <= at,
        result is Ok,
        metadata_given(metadata, address, log, at, result),
    ensures
        log.len() == at + 1,
        log[at].ask matches Ask::With(Call::CopyOut { address: place }, told) && place == address
            && tells_of_node(told, metadata),
{
    let ctime = super::paths::nanoseconds_of(metadata.ctime.seconds, metadata.ctime.nanoseconds)->Ok_0;
    let mtime = super::paths::nanoseconds_of(metadata.mtime.seconds, metadata.mtime.nanoseconds)->Ok_0;
    let plan = seq![Ask::With(Call::CopyOut { address }, metadata_record(metadata, ctime, mtime))];
    lemma_ran(log, at, plan, result);
    assert(log[at].ask == plan[0]);
    law_nodes_are_described_field_by_field(metadata, ctime, mtime);
}

/// What is told of a file or directory, where the record says, is what the kernel knows of the one
/// that the path of the record leads to, from a directory that the handle of the record may read.
#[verifier::rlimit(60)]
pub proof fn law_what_the_path_names_is_told_of(
    abi: Abi,
    call: SyscallContext,
    before: Seq<Event>,
    log: Seq<Event>,
    dispatched: Result<DispatchResult, Status>,
)
    requires
        called(abi, SyscallNumber::FilesystemGetMetadata, call, before, log, dispatched),
        dispatched is Ok,
    ensures
        ({
            let from = before.len() as int;
            let record = log[from].bytes();
            let end = log.len() - 1;
            &&& log[from].ask == Ask::Plain(Call::CopyIn { address: call.registers.rdi, length: 32 })
            &&& le32_at(record, 4) == 0
            &&& log[end].ask matches Ask::With(Call::CopyOut { address }, told)
            &&& address == le64_at(record, 24)
            &&& tells_of_node(told, log[end - 1].answer->Metadata_0->Ok_0)
            &&& exists|directory: Node, path: Seq<u8>|
                #[trigger] path_given(abi, record, from, log, directory, path) && {
                    ||| log[end - 1].ask == Ask::Plain(Call::FileMetadata { file: log[end - 2].node() }) && log[end - 2].ask
                        == Ask::With(Call::OpenFileAt { directory }, path)
                    ||| log[end - 1].ask == Ask::Plain(
                        Call::DirectoryMetadata { directory: log[end - 2].node() },
                    ) && log[end - 2].ask == Ask::With(Call::OpenDirectoryAt { directory }, path)
                }
        }),
{
    let from = before.len() as int;
    let result = choose|result: Result<(), Status>| #[trigger]
        did_filesystem_get_metadata(abi, call.registers.rdi, before, log, result) && dispatched == over(result);
    assert(did_filesystem_get_metadata(abi, call.registers.rdi, before, log, result));
    let record = log[from].bytes();
    lemma_fields_fit(record);
    let args = path_args_in(record)->Ok_0;
    let at = from + 2;
    let place = anchor_end(log, at + 1);
    let directory = anchor_of(log, at + 1).directory;
    let path = log[at].bytes();
    assert(metadata_served(abi, args, le64_at(record, 24) as u64, log, at, result));
    if not_located(abi, args, abi.rights.read, log, at, result) {
        lemma_not_located(abi, args, abi.rights.read, log, at, result);
    }
    lemma_located(abi, args, abi.rights.read, log, at);
    let after = super::nodes::metadata_end(log, place);
    let plan = super::nodes::metadata_plan(directory, path, log, place);
    assert(super::nodes::metadata_ok(directory, path, log, place));
    lemma_passed(log, place + 1, plan);
    lemma_metadata_given(
        log[after - 1].answer->Metadata_0->Ok_0,
        le64_at(record, 24) as u64,
        log,
        after,
        result,
    );
    lemma_read_on(log, from, at, args.address, args.length, path);
    lemma_named_on(log, from, at, args.anchor, abi.rights.read, directory);
    assert(path_given(abi, record, from, log, directory, path));
    if log[place].refused() is None {
        assert(log[place + 1].ask == plan[0]);
    } else {
        assert(log[place + 1].ask == plan[0]);
        assert(log[place + 2].ask == plan[1]);
    }
}

/// The path that a record points at was read, and the handle of the record names this directory,
/// which it may read.
pub open spec fn path_given(
    abi: Abi,
    record: Seq<u8>,
    from: int,
    log: Seq<Event>,
    directory: Node,
    path: Seq<u8>,
) -> bool {
    &&& was_read(log, from, le64_at(record, 8) as u64, le64_at(record, 16) as u64, path)
    &&& names_directory_as(
        log,
        from,
        Handle(le32_at(record, 0) as u32),
        abi.rights.read,
        directory,
    )
}

/// What was read later was read.
proof fn lemma_read_on(
    log: Seq<Event>,
    from: int,
    at: int,
    address: u64,
    length: u64,
    bytes: Seq<u8>,
)
    requires
        from <= at,
        was_read(log, at, address, length, bytes),
    ensures
        was_read(log, from, address, length, bytes),
{
    let i = choose|i: int|
        at <= i < log.len() && (#[trigger] log[i]).ask == Ask::Plain(
            Call::CopyIn { address, length: length as usize },
        ) && log[i].bytes() == bytes && length <= usize::MAX;
    assert(log[i].bytes() == bytes);
}

/// What was named later was named.
proof fn lemma_named_on(
    log: Seq<Event>,
    from: int,
    at: int,
    handle: Handle,
    rights: u32,
    directory: Node,
)
    requires
        from <= at,
        names_directory_as(log, at, handle, rights, directory),
    ensures
        names_directory_as(log, from, handle, rights, directory),
{
}

/// What is told of the file system, where the record says, is what the kernel knows of it, to a
/// handle that may read.
#[verifier::rlimit(40)]
pub proof fn law_the_file_system_is_told_of(
    abi: Abi,
    call: SyscallContext,
    before: Seq<Event>,
    log: Seq<Event>,
    dispatched: Result<DispatchResult, Status>,
)
    requires
        called(abi, SyscallNumber::FilesystemGetInfo, call, before, log, dispatched),
        dispatched is Ok,
    ensures
        ({
            let from = before.len() as int;
            let record = log[from].bytes();
            let end = log.len() - 1;
            let info = log[end - 1].answer->FilesystemInfo_0->Ok_0;
            &&& log[from].ask == Ask::Plain(Call::CopyIn { address: call.registers.rdi, length: 16 })
            &&& le32_at(record, 4) == 0
            &&& log[end - 1].ask == Ask::FilesystemInfo
            &&& log[end].ask matches Ask::With(Call::CopyOut { address }, told)
            &&& address == le64_at(record, 8)
            &&& told.len() == 64
            &&& le64_at(told, 0) == info.capacity_bytes
            &&& info.free_bytes matches Some(free) ==> le64_at(told, 8) == free && le64_at(told, 16) == free
            &&& info.free_bytes is None ==> le64_at(told, 8) == 0 && le64_at(told, 16) == 0
            &&& le32_at(told, 24) == info.block_size
            &&& le32_at(told, 28) == abi.limits.filesystem_name
            &&& le32_at(told, 32) == abi.limits.traversal_depth
            &&& exists|directory: Node| #[trigger]
                names_directory_as(log, from, Handle(le32_at(record, 0) as u32), abi.rights.read, directory)
        }),
{
    let from = before.len() as int;
    let result = choose|result: Result<(), Status>| #[trigger]
        did_filesystem_get_info(abi, call.registers.rdi, before, log, result) && dispatched == over(result);
    assert(did_filesystem_get_info(abi, call.registers.rdi, before, log, result));
    let record = log[from].bytes();
    lemma_fields_fit(record);
    let handle = Handle(le32_at(record, 0) as u32);
    let at = from + 2;
    assert(info_served(abi, handle, le64_at(record, 8) as u64, log, at, result));
    if anchor_failed(handle, abi.rights.read, log, at, result) {
        lemma_no_anchor(handle, abi.rights.read, log, at, result);
    }
    lemma_anchor(handle, abi.rights.read, log, at);
    let place = anchor_end(log, at);
    let info = log[place].answer->FilesystemInfo_0->Ok_0;
    let plan = seq![
        Ask::With(Call::CopyOut { address: le64_at(record, 8) as u64 }, info_record(abi, info)),
    ];
    lemma_ran(log, place + 1, plan, result);
    assert(log[place + 1].ask == plan[0]);
    law_file_systems_are_described_field_by_field(abi, info);
    lemma_named_on(log, from, at, handle, abi.rights.read, anchor_of(log, at).directory);
}

/// So many of the first entries are files.
pub open spec fn files_among(entries: Seq<DirectoryEntry>) -> nat {
    entries.filter(|entry: DirectoryEntry| entry.metadata.kind is File).len()
}

/// Files are counted one by one.
proof fn lemma_files_among(entries: Seq<DirectoryEntry>, count: nat)
    requires
        count <= entries.len(),
    ensures
        files_before(entries, count) == files_among(entries.take(count as int)),
    decreases count,
{
    let wanted = |entry: DirectoryEntry| entry.metadata.kind is File;
    let front = entries.take(count as int);
    reveal(Seq::filter);
    if count > 0 {
        lemma_files_among(entries, (count - 1) as nat);
        assert(front.drop_last() =~= entries.take(count - 1));
        assert(front.last() == entries[count - 1]);
    }
}

/// The file that is told, where the caller says, is the one before which as many files stand in
/// the directory as the caller has seen, by its name and length, together with how many have then
/// been seen.
#[verifier::rlimit(60)]
pub proof fn law_files_are_listed_by_their_place(
    abi: Abi,
    call: SyscallContext,
    before: Seq<Event>,
    log: Seq<Event>,
    dispatched: Result<DispatchResult, Status>,
)
    requires
        called(abi, SyscallNumber::FilesystemReadDirectory, call, before, log, dispatched),
        dispatched is Ok,
    ensures
        ({
            let from = before.len() as int;
            let end = log.len() - 1;
            let entries = log[end - 1].answer->Entries_0->Ok_0;
            &&& call.registers.rdi <= u32::MAX
            &&& log[end - 1].ask matches Ask::ListDirectory(directory)
            &&& names_directory_as(log, from, Handle(call.registers.rdi as u32), abi.rights.read, directory)
            &&& log[end].ask matches Ask::With(Call::CopyOut { address }, told)
            &&& address == call.registers.rdx
            &&& told.len() == abi.sizes.directory_entry
            &&& le64_at(told, 0) == call.registers.rsi + 1
            &&& exists|i: int|
                {
                    &&& 0 <= i < entries.len()
                    &&& (#[trigger] entries[i]).metadata.kind is File
                    &&& files_among(entries.take(i)) == call.registers.rsi
                    &&& le64_at(told, 8) == entries[i].len
                    &&& entries[i].name@.len() <= u16::MAX ==> le16_at(told, 16) == entries[i].name@.len() && told.subrange(
                        24,
                        24 + entries[i].name@.len() as int,
                    ) == entries[i].name@
                }
        }),
{
    let from = before.len() as int;
    let result = choose|result: Result<(), Status>| #[trigger]
        did_filesystem_read_directory(abi, call.registers.rdi, call.registers.rsi, call.registers.rdx, before, log, result) && dispatched == over(result);
    assert(did_filesystem_read_directory(abi, call.registers.rdi, call.registers.rsi, call.registers.rdx, before, log, result));
    let handle = Handle(call.registers.rdi as u32);
    let at = from + 1;
    assert(file_listed(abi, handle, call.registers.rsi, call.registers.rdx, log, at, result));
    if anchor_failed(handle, abi.rights.read, log, at, result) {
        lemma_no_anchor(handle, abi.rights.read, log, at, result);
    }
    lemma_anchor(handle, abi.rights.read, log, at);
    let place = anchor_end(log, at);
    let entries = log[place].answer->Entries_0->Ok_0;
    lemma_named_on(log, from, at, handle, abi.rights.read, anchor_of(log, at).directory);
    let i = choose|i: int| #[trigger]
        super::paths::is_nth_file(entries, call.registers.rsi as int, i) && super::nodes::file_entry_given(
            abi,
            entries,
            i,
            call.registers.rsi,
            call.registers.rdx,
            log,
            place,
            result,
        );
    let size = abi.sizes.directory_entry as int;
    let next = (call.registers.rsi + 1) as u64;
    let told = file_entry_record(size, next, entries[i].len, entries[i].name@);
    let plan = seq![Ask::With(Call::CopyOut { address: call.registers.rdx }, told)];
    lemma_ran(log, place + 1, plan, result);
    assert(log[place + 1].ask == plan[0]);
    lemma_files_among(entries, i as nat);
    assert(entries[i].metadata.kind is File);
    assert(told.len() == size);
    assert(told.subrange(0, 8) =~= le_bytes(next as int, 8));
    lemma_field64(told, 0, next as int);
    assert(told.subrange(8, 16) =~= le_bytes(entries[i].len as int, 8));
    lemma_field64(told, 8, entries[i].len as int);
    if entries[i].name@.len() <= u16::MAX {
        law_files_are_listed_field_by_field(size, next, entries[i].len, entries[i].name@);
    }
}

/// These bytes tell this of a name in a directory.
pub open spec fn tells_of_name(told: Seq<u8>, metadata: NodeMetadata, name: Seq<u8>) -> bool {
    &&& told.len() == 288
    &&& le64_at(told, 0) == metadata.identity
    &&& le64_at(told, 8) == metadata.size
    &&& le64_at(told, 16) == metadata.identity
    &&& le32_at(told, 24) == (if metadata.kind is File {
        1int
    } else {
        2
    })
    &&& le16_at(told, 28) == name.len()
    &&& told.subrange(36, 36 + name.len() as int) == name
}

/// What is told of a name.
proof fn lemma_entry_given(
    entries: Seq<DirectoryEntry>,
    i: int,
    address: u64,
    log: Seq<Event>,
    end: int,
    result: Result<(), Status>,
)
    requires
        0 <= end,
        result is Ok,
        super::nodes::entry_given(entries, i, address, log, end, result),
    ensures
        log.len() == end + 2,
        log[end + 1].ask matches Ask::With(Call::CopyOut { address: place }, told) && place
            == address && tells_of_name(told, entries[i].metadata, entries[i].name@),
{
    let told = entry_record(entries[i].metadata, entries[i].name@);
    let plan = seq![Ask::With(Call::CopyOut { address }, told)];
    lemma_ran(log, end + 1, plan, result);
    assert(log[end + 1].ask == plan[0]);
    law_names_are_described_field_by_field(entries[i].metadata, entries[i].name@);
}

/// The name that is told, where the record says, is the one with the least number above that which
/// the record goes on from, together with its number, size and kind.
#[verifier::rlimit(60)]
pub proof fn law_names_are_listed_by_their_number(
    abi: Abi,
    call: SyscallContext,
    before: Seq<Event>,
    log: Seq<Event>,
    dispatched: Result<DispatchResult, Status>,
)
    requires
        called(abi, SyscallNumber::FilesystemReadDirectory2, call, before, log, dispatched),
        dispatched is Ok,
    ensures
        ({
            let from = before.len() as int;
            let record = log[from].bytes();
            let end = log.len() - 1;
            let entries = log[end - 1].answer->Entries_0->Ok_0;
            &&& log[from].ask == Ask::Plain(Call::CopyIn { address: call.registers.rdi, length: 24 })
            &&& log[end - 1].ask matches Ask::ListDirectory(directory)
            &&& names_directory_as(log, from, Handle(le32_at(record, 0) as u32), abi.rights.read, directory)
            &&& log[end].ask matches Ask::With(Call::CopyOut { address }, told)
            &&& address == le64_at(record, 16)
            &&& exists|i: int|
                {
                    &&& 0 <= i < entries.len()
                    &&& (#[trigger] entries[i]).metadata.identity > le64_at(record, 8)
                    &&& forall|j: int|
                        0 <= j < entries.len() && (#[trigger] entries[j]).metadata.identity > le64_at(record, 8) ==> entries[i].metadata.identity
                            <= entries[j].metadata.identity
                    &&& tells_of_name(told, entries[i].metadata, entries[i].name@)
                }
        }),
{
    let from = before.len() as int;
    let result = choose|result: Result<(), Status>| #[trigger]
        did_filesystem_read_directory2(abi, call.registers.rdi, before, log, result) && dispatched == over(result);
    assert(did_filesystem_read_directory2(abi, call.registers.rdi, before, log, result));
    let record = log[from].bytes();
    lemma_fields_fit(record);
    let handle = Handle(le32_at(record, 0) as u32);
    let cookie = le64_at(record, 8) as u64;
    let address = le64_at(record, 16) as u64;
    let at = from + 2;
    assert(entry_listed(abi, handle, cookie, address, log, at, result));
    if anchor_failed(handle, abi.rights.read, log, at, result) {
        lemma_no_anchor(handle, abi.rights.read, log, at, result);
    }
    lemma_anchor(handle, abi.rights.read, log, at);
    let place = anchor_end(log, at);
    let entries = log[place].answer->Entries_0->Ok_0;
    lemma_named_on(log, from, at, handle, abi.rights.read, anchor_of(log, at).directory);
    let i = choose|i: int| #[trigger]
        super::paths::is_next_entry(entries, cookie, i) && super::nodes::entry_given(
            entries,
            i,
            address,
            log,
            place,
            result,
        );
    lemma_entry_given(entries, i, address, log, place, result);
    assert(entries[i].metadata.identity > cookie);
}

/// A synchronisation is submitted for the root, the directory or the file that the handle of the
/// record names and may write, and the thread that asked waits for it.
#[verifier::rlimit(60)]
pub proof fn law_syncs_are_for_what_the_handle_names(
    abi: Abi,
    call: SyscallContext,
    before: Seq<Event>,
    log: Seq<Event>,
    dispatched: Result<DispatchResult, Status>,
)
    requires
        called(abi, SyscallNumber::FilesystemSync, call, before, log, dispatched),
    ensures
        ({
            let from = before.len() as int;
            let record = log[from].bytes();
            let handle = Handle(le32_at(record, 0) as u32);
            &&& log[from].ask == Ask::Plain(Call::CopyIn { address: call.registers.rdi, length: 8 })
            &&& dispatched == Ok::<DispatchResult, Status>(DispatchResult::Blocked) ==> {
                &&& log.len() == from + 6
                &&& log[from + 1].ask == Ask::Plain(Call::ObjectType { handle })
                &&& log[from + 3].ask matches Ask::Submit { request, now_ns }
                &&& now_ns == call.now_ns
                &&& request.buffers.len() == 0
                &&& request.terms.process_id == call.process_id
                &&& request.terms.thread_id == call.thread
                &&& request.terms.operation == RequestOperation::FilesystemSync
                &&& request.terms.target_lease == PreparedRequestTarget::FilesystemSync
                &&& request.terms.completion_mode == RequestCompletionMode::Block
                &&& {
                    ||| log[from + 2].ask == Ask::Plain(Call::Root { handle, rights: abi.rights.write })
                        && request.terms.target == u64::MAX
                    ||| {
                        &&& log[from + 2].ask == Ask::Plain(Call::Directory { handle, rights: abi.rights.write })
                            || log[from + 2].ask == Ask::Plain(Call::File { handle, rights: abi.rights.write })
                        &&& request.terms.target == log[from + 2].node().generation * 0x1_0000_0000 + log[from
                            + 2].node().node_id
                    }
                }
                &&& log[from + 2].refused() is None
                &&& log[from + 5].ask == Ask::Plain(
                    Call::BlockRequest {
                        thread: call.thread,
                        request: log[from + 3].number(),
                        hidden_handle: log[from + 4].handle(),
                        output: None,
                        count_output: None,
                        return_operation_status: true,
                    },
                )
            }
        }),
{
    let from = before.len() as int;
    let result = choose|result: Result<DispatchResult, Status>| #[trigger]
        did_filesystem_sync_request(abi, call.process_id, call.thread, call.registers.rdi, call.now_ns, before, log, result) && dispatched == result;
    assert(did_filesystem_sync_request(abi, call.process_id, call.thread, call.registers.rdi, call.now_ns, before, log, result));
    let record = log[from].bytes();
    lemma_fields_fit(record);
    let handle = Handle(le32_at(record, 0) as u32);
    if log[from].refused() is None && le32_at(record, 4) == 0 {
        let plan = super::nodes::sync_plan(abi, handle, log, from + 1);
        if super::nodes::sync_failed(abi, handle, log, from + 1, result) {
        } else {
            lemma_passed(log, from + 1, plan);
            assert(log[from + 1].ask == plan[0]);
            assert(log[from + 1].refused() is None);
            if plan.len() == 2 {
                assert(log[from + 2].ask == plan[1]);
            }
            let model = RequestModel {
                terms: super::file_io::blocking_terms(
                    call.process_id,
                    call.thread,
                    super::request_wire::directory_target(super::nodes::sync_node(log, from + 1)),
                    PreparedRequestTarget::FilesystemSync,
                    RequestOperation::FilesystemSync,
                    0,
                    0,
                    0,
                ),
                buffers: Seq::empty(),
            };
            lemma_sent(model, None, call.thread, call.now_ns, log, from + 3, result);
        }
    }
}

/// What is told of memory, where the caller says, is what the kernel knows of it and of its heap
/// at the time of the call, each number in its own place.
#[verifier::rlimit(30)]
pub proof fn law_memory_is_told_of_at_the_time_of_the_call(
    abi: Abi,
    call: SyscallContext,
    before: Seq<Event>,
    log: Seq<Event>,
    dispatched: Result<DispatchResult, Status>,
)
    requires
        called(abi, SyscallNumber::MemoryGetInfo, call, before, log, dispatched),
        dispatched is Ok,
    ensures
        ({
            let from = before.len() as int;
            let facts = log[from + 1].answer->MemoryFacts_0;
            &&& log.len() == from + 3
            &&& call.registers.rdx == abi.versions.memory_info_first && call.registers.rsi == abi.sizes.memory_info_first || call.registers.rdx == abi.versions.memory_info
                && call.registers.rsi == abi.sizes.memory_info
            &&& log[from + 1].ask == Ask::MemoryFacts
            &&& log[from + 2].ask matches Ask::With(Call::CopyOut { address }, told)
            &&& address == call.registers.rdi
            &&& begins(
                told,
                memory_record(call.registers.rdx as u32, call.registers.rsi as u32, facts, call.heap),
                call.registers.rsi as int,
            )
        }),
{
    let from = before.len() as int;
    let result = choose|result: Result<(), Status>| #[trigger]
        did_memory_get_info(abi, call.registers.rdi, call.registers.rsi, call.registers.rdx, call.heap, before, log, result) && dispatched == over(result);
    assert(did_memory_get_info(abi, call.registers.rdi, call.registers.rsi, call.registers.rdx, call.heap, before, log, result));
    let facts = log[from + 1].answer->MemoryFacts_0;
    let all = memory_record(call.registers.rdx as u32, call.registers.rsi as u32, facts, call.heap);
    lemma_memory_told(all, call.registers.rdi, call.registers.rsi as usize, log, from, result);
}

/// These bytes are the first of the others, so many of them, or all where there are no more.
pub open spec fn begins(told: Seq<u8>, all: Seq<u8>, count: int) -> bool {
    &&& told.len() == if count < all.len() {
        count
    } else {
        all.len() as int
    }
    &&& forall|i: int| 0 <= i < told.len() ==> #[trigger] told[i] == all[i]
}

/// What is told of memory is the beginning of its record.
proof fn lemma_memory_told(
    all: Seq<u8>,
    address: u64,
    size: usize,
    log: Seq<Event>,
    from: int,
    result: Result<(), Status>,
)
    requires
        result is Ok,
        ran_through(
            log,
            from,
            seq![
                Ask::Plain(Call::CheckOutput { address, length: size }),
                Ask::MemoryFacts,
                Ask::With(
                    Call::CopyOut { address },
                    super::mapping::memory_answer(all, size),
                ),
            ],
            result,
        ),
    ensures
        log.len() == from + 3,
        log[from + 1].ask == Ask::MemoryFacts,
        log[from + 2].ask matches Ask::With(Call::CopyOut { address: place }, told) && place
            == address && begins(told, all, size as int),
{
    let plan = seq![
        Ask::Plain(Call::CheckOutput { address, length: size }),
        Ask::MemoryFacts,
        Ask::With(Call::CopyOut { address }, super::mapping::memory_answer(all, size)),
    ];
    lemma_ran(log, from, plan, result);
    assert(log[from + 1].ask == plan[1]);
    assert(log[from + 2].ask == plan[2]);
}

} // verus!
