//! System calls that open files, and that read and write them.
use vstd::prelude::*;

use crate::bytes::{le_bytes, read_u32};

use super::abi::{
    contains_bits, has_bits, Abi, Handle, RequestCompletionMode, RequestOperation, Status,
};
use super::files::{
    anchor_end, anchor_failed, anchor_of, anchor_ok, given, path_failed, path_ok, removal_plan,
    DirectoryAnchor,
};
use super::handles::close_asks;
use super::kernel::{
    asked_at, asked_from, ended_at, failed_in, passed, ran_through, rejected, stopped_at,
    BufferModel, Ask, Call, DispatchResult, Event, Kernel, PinnedOutput, PreparedBrokerRequest,
    PreparedRequestBuffer, PreparedRequestTarget, RequestModel, RequestTerms, Session,
};
use super::nodes::{handle_args, sync_failed, sync_node, sync_ok};
use super::paths::{
    filesystem_open_required_rights, is_protected_system_path, open_args_in, open_rights,
    opened_file_rights, opened_rights, parse_filesystem_open_args, protected_path,
    ParsedFilesystemOpenArgs, FILESYSTEM_OPEN_ARGS_SIZE, FILESYSTEM_READ_OUTPUT_SIZE,
    FILESYSTEM_SYNC_ARGS_SIZE,
};
use super::request_wire::{
    directory_request_target, directory_target, filesystem_request_target, node_target, Node,
};
use super::requests::{pinned_pages, pins_of, unpin_asks};
use super::wait::encode_number;
use super::wire::{array_bytes, checked_array_bytes, decode_handle, handle_in, HANDLE_OUTPUT_SIZE};

verus! {

broadcast use super::heard::group_heard;

/// The arguments of an open are read and checked, its path and directory found; what `rest`
/// says follows, unless the path belongs to the system and is to be written.
pub open spec fn open_checked<T>(
    abi: Abi,
    raw_anchor: u64,
    args_address: u64,
    output_address: u64,
    before: Seq<Event>,
    log: Seq<Event>,
    result: Result<T, Status>,
    rest: spec_fn(ParsedFilesystemOpenArgs) -> bool,
) -> bool {
    let base = before.len() as int;
    match handle_in(raw_anchor) {
        Err(status) => rejected(before, log, result, status),
        Ok(handle) => {
            &&& asked_at(
                log,
                base,
                Ask::Plain(
                    Call::CopyIn { address: args_address, length: FILESYSTEM_OPEN_ARGS_SIZE },
                ),
            )
            &&& if log[base].refused() is Some {
                ended_at(log, base, result)
            } else {
                match open_args_in(abi, log[base].bytes()) {
                    Err(status) => stopped_at(log, base, result, status),
                    Ok(args) => open_located(
                        abi,
                        handle,
                        args,
                        output_address,
                        log,
                        base + 1,
                        result,
                        rest(args),
                    ),
                }
            }
        },
    }
}

/// Where the handle of an open goes is checked, its path and directory are found; what
/// `rest` says follows, unless the path belongs to the system and is to be written.
pub open spec fn open_located<T>(
    abi: Abi,
    handle: Handle,
    args: ParsedFilesystemOpenArgs,
    output_address: u64,
    log: Seq<Event>,
    at: int,
    result: Result<T, Status>,
    rest: bool,
) -> bool {
    let required = open_rights(abi, args.flags);
    let path = log[at + 1].bytes();
    &&& asked_at(
        log,
        at,
        Ask::Plain(Call::CheckOutput { address: output_address, length: HANDLE_OUTPUT_SIZE }),
    )
    &&& if log[at].refused() is Some {
        ended_at(log, at, result)
    } else {
        ||| path_failed(abi, args.path_address, args.path_length, log, at + 1, result)
        ||| {
            &&& path_ok(abi, args.path_address, args.path_length, log, at + 1)
            &&& {
                ||| anchor_failed(handle, required, log, at + 2, result)
                ||| {
                    &&& anchor_ok(handle, required, log, at + 2)
                    &&& if anchor_of(log, at + 2).is_root && has_bits(required, abi.rights.write)
                        && protected_path(path) {
                        log.len() == anchor_end(log, at + 2) && result == Err::<T, Status>(
                            Status::AccessDenied,
                        )
                    } else {
                        rest
                    }
                }
            }
        }
    }
}

/// The events from `at` on are what `plan` asks for, up to the first refusal, whose status
/// nobody hears of.
pub open spec fn tried(log: Seq<Event>, at: int, plan: Seq<Ask>) -> bool {
    exists|result: Result<(), Status>| #[trigger] ran_through(log, at, plan, result)
}

/// A file that was found or made is given to the process.
///
/// One that was made is removed again where there is no handle for it.
pub open spec fn file_given(
    abi: Abi,
    directory: Node,
    path: Seq<u8>,
    flags: u32,
    created: bool,
    file: Node,
    output_address: u64,
    log: Seq<Event>,
    at: int,
    result: Result<(), Status>,
) -> bool {
    let rights = opened_rights(abi, flags);
    let handle = log[at].handle();
    &&& asked_at(log, at, Ask::Plain(Call::CreateFileHandle { file, rights }))
    &&& if log[at].refused() is Some {
        &&& result == Err::<(), Status>(log[at].refused()->Some_0)
        &&& if created {
            tried(log, at + 1, removal_plan(false, directory, path, log[at + 1].node()))
        } else {
            log.len() == at + 1
        }
    } else if has_bits(flags, abi.open_flags.truncate) {
        &&& asked_at(log, at + 1, Ask::Plain(Call::TruncateFile { file, length: 0 }))
        &&& match log[at + 1].refused() {
            Some(status) => {
                &&& result == Err::<(), Status>(status)
                &&& asked_from(log, at + 2, close_asks(abi, seq![handle]))
            },
            None => given(abi, output_address, handle, log, at + 2, result),
        }
    } else {
        given(abi, output_address, handle, log, at + 1, result)
    }
}

/// A file is opened from event `at` on, or made where that is asked for and there is none.
pub open spec fn file_opened(
    abi: Abi,
    directory: Node,
    path: Seq<u8>,
    flags: u32,
    output_address: u64,
    log: Seq<Event>,
    at: int,
    result: Result<(), Status>,
) -> bool {
    &&& asked_at(log, at, Ask::With(Call::OpenFileAt { directory }, path))
    &&& match log[at].refused() {
        None => file_given(
            abi,
            directory,
            path,
            flags,
            false,
            log[at].node(),
            output_address,
            log,
            at + 1,
            result,
        ),
        Some(status) => if status == Status::NotFound && has_bits(flags, abi.open_flags.create) {
            &&& asked_at(log, at + 1, Ask::With(Call::CreateFileAt { directory }, path))
            &&& if log[at + 1].refused() is Some {
                ended_at(log, at + 1, result)
            } else {
                file_given(
                    abi,
                    directory,
                    path,
                    flags,
                    true,
                    log[at + 1].node(),
                    output_address,
                    log,
                    at + 2,
                    result,
                )
            }
        } else {
            ended_at(log, at, result)
        },
    }
}

/// A file is opened at once.
pub open spec fn did_filesystem_open(
    abi: Abi,
    raw_anchor: u64,
    args_address: u64,
    output_address: u64,
    before: Seq<Event>,
    log: Seq<Event>,
    result: Result<(), Status>,
) -> bool {
    let base = before.len() as int;
    open_checked(
        abi,
        raw_anchor,
        args_address,
        output_address,
        before,
        log,
        result,
        |args: ParsedFilesystemOpenArgs|
            file_opened(
                abi,
                anchor_of(log, base + 3).directory,
                log[base + 2].bytes(),
                args.flags,
                output_address,
                log,
                anchor_end(log, base + 3),
                result,
            ),
    )
}

/// A file is read at once.
pub open spec fn did_filesystem_read(
    abi: Abi,
    raw_file: u64,
    offset: u64,
    output_address: u64,
    raw_length: u64,
    count_address: u64,
    before: Seq<Event>,
    log: Seq<Event>,
    result: Result<(), Status>,
) -> bool {
    let base = before.len() as int;
    match (handle_in(raw_file), transfer_length(abi, raw_length)) {
        (Ok(handle), Ok(length)) => {
            let first = seq![
                Ask::Plain(Call::CheckOutput { address: output_address, length }),
                Ask::Plain(
                    Call::CheckOutput {
                        address: count_address,
                        length: FILESYSTEM_READ_OUTPUT_SIZE,
                    },
                ),
                Ask::Plain(Call::File { handle, rights: abi.rights.read }),
                Ask::Plain(
                    Call::ReadFile { file: log[base + 2].node(), offset, length },
                ),
            ];
            let bytes = log[base + 3].bytes();
            ||| failed_in(log, base, first, result)
            ||| passed(log, base, first) && if bytes.len() > length {
                stopped_at(log, base + 3, result, Status::Io)
            } else {
                ran_through(
                    log,
                    base + 4,
                    seq![
                        Ask::With(Call::CopyOut { address: output_address }, bytes),
                        Ask::With(
                            Call::CopyOut { address: count_address },
                            le_bytes(bytes.len() as int, 8),
                        ),
                    ],
                    result,
                )
            }
        },
        (Err(status), _) => rejected(before, log, result, status),
        (_, Err(status)) => rejected(before, log, result, status),
    }
}

/// A file is written at once.
pub open spec fn did_filesystem_write(
    abi: Abi,
    raw_file: u64,
    offset: u64,
    input_address: u64,
    raw_length: u64,
    count_address: u64,
    before: Seq<Event>,
    log: Seq<Event>,
    result: Result<(), Status>,
) -> bool {
    let base = before.len() as int;
    match (handle_in(raw_file), transfer_length(abi, raw_length)) {
        (Ok(handle), Ok(length)) => ran_through(
            log,
            base,
            seq![
                Ask::Plain(
                    Call::CheckOutput {
                        address: count_address,
                        length: FILESYSTEM_READ_OUTPUT_SIZE,
                    },
                ),
                Ask::Plain(Call::File { handle, rights: abi.rights.write }),
                Ask::Plain(Call::CopyIn { address: input_address, length }),
                Ask::With(
                    Call::WriteFile { file: log[base + 1].node(), offset },
                    log[base + 2].bytes(),
                ),
                Ask::With(
                    Call::CopyOut { address: count_address },
                    le_bytes(log[base + 3].number() as int, 8),
                ),
            ],
            result,
        ),
        (Err(status), _) => rejected(before, log, result, status),
        (_, Err(status)) => rejected(before, log, result, status),
    }
}

/// The page of a count is given back.
pub open spec fn count_unpin(count: Option<PinnedOutput>) -> Seq<Ask> {
    match count {
        None => Seq::empty(),
        Some(output) => seq![Ask::Plain(Call::Unpin { pages: output.pages })],
    }
}

/// A request is submitted and its submitter is blocked until it ends. Where that fails,
/// every page that it pinned is given back or its request canceled.
pub open spec fn sent_to_block(
    model: RequestModel,
    count: Option<PinnedOutput>,
    thread: u64,
    now_ns: u64,
    log: Seq<Event>,
    at: int,
    result: Result<DispatchResult, Status>,
) -> bool {
    &&& asked_at(log, at, Ask::Submit { request: model, now_ns })
    &&& match log[at].answer->Number_0 {
        Err(status) => {
            &&& result == Err::<DispatchResult, Status>(status)
            &&& asked_from(log, at + 1, unpin_asks(pins_of(model.buffers)) + count_unpin(count))
        },
        Ok(request) => {
            &&& asked_at(log, at + 1, Ask::Plain(Call::InstallRequest { request }))
            &&& match log[at + 1].answer->Handle_0 {
                Err(status) => {
                    &&& result == Err::<DispatchResult, Status>(status)
                    &&& asked_from(
                        log,
                        at + 2,
                        seq![Ask::Plain(Call::CancelRequest { request, now_ns })] + count_unpin(
                            count,
                        ),
                    )
                },
                Ok(hidden_handle) => {
                    &&& result == Ok::<DispatchResult, Status>(DispatchResult::Blocked)
                    &&& asked_from(
                        log,
                        at + 2,
                        seq![
                            Ask::Plain(
                                Call::BlockRequest {
                                    thread,
                                    request,
                                    hidden_handle,
                                    output: None,
                                    count_output: count,
                                    return_operation_status: true,
                                },
                            ),
                        ],
                    )
                },
            }
        },
    }
}

/// What a request that blocks its submitter says of itself.
pub open spec fn blocking_terms(
    process_id: u64,
    thread_id: u64,
    target: u64,
    target_lease: PreparedRequestTarget,
    operation: RequestOperation,
    operation_argument: u64,
    user_data: u64,
    request_flags: u32,
) -> RequestTerms {
    RequestTerms {
        process_id,
        thread_id,
        target,
        target_lease,
        operation,
        completion_mode: RequestCompletionMode::Block,
        operation_argument,
        user_data,
        request_flags,
        deadline_ns: None,
    }
}

/// The request that opens a file.
pub open spec fn open_terms(process_id: u64, thread_id: u64, anchor: DirectoryAnchor, flags: u32) -> RequestTerms {
    let directory = if anchor.is_root {
        None
    } else {
        Some(anchor.directory)
    };
    blocking_terms(
        process_id,
        thread_id,
        directory_target(directory),
        PreparedRequestTarget::Directory {
            directory,
            is_root: anchor.is_root,
            rights: anchor.rights,
        },
        RequestOperation::FilesystemOpen,
        flags as u64,
        0,
        0,
    )
}

/// The request that opens a file is submitted from event `at` on; where its handle goes is
/// pinned first.
pub open spec fn open_sent(
    abi: Abi,
    process_id: u64,
    thread: u64,
    anchor: DirectoryAnchor,
    args: ParsedFilesystemOpenArgs,
    path: Seq<u8>,
    output_address: u64,
    now_ns: u64,
    log: Seq<Event>,
    at: int,
    result: Result<DispatchResult, Status>,
) -> bool {
    &&& asked_at(
        log,
        at,
        Ask::Plain(Call::Pin { address: output_address, length: HANDLE_OUTPUT_SIZE, write: true }),
    )
    &&& if log[at].refused() is Some {
        ended_at(log, at, result)
    } else {
        sent_to_block(
            RequestModel {
                terms: open_terms(process_id, thread, anchor, args.flags),
                buffers: seq![
                    BufferModel::Copied {
                        flags: abi.buffer_flags.read,
                        user_address: args.path_address,
                        bytes: path,
                    },
                    BufferModel::Pinned {
                        flags: abi.buffer_flags.write,
                        owner_process_id: process_id,
                        pages: log[at].number(),
                    },
                ],
            },
            None,
            thread,
            now_ns,
            log,
            at + 1,
            result,
        )
    }
}

/// The request that reads or writes a file is submitted from event `at` on; where the count
/// of bytes goes is pinned first. Where it cannot be, what the buffer pinned is unpinned.
pub open spec fn transfer_sent(
    abi: Abi,
    process_id: u64,
    thread: u64,
    file: Node,
    operation: RequestOperation,
    offset: u64,
    count_address: u64,
    buffer: BufferModel,
    now_ns: u64,
    log: Seq<Event>,
    at: int,
    result: Result<DispatchResult, Status>,
) -> bool {
    let model = RequestModel {
        terms: blocking_terms(
            process_id,
            thread,
            node_target(file),
            PreparedRequestTarget::File(file),
            operation,
            offset,
            count_address,
            abi.request_allow_partial,
        ),
        buffers: seq![buffer],
    };
    &&& asked_at(
        log,
        at,
        Ask::Plain(
            Call::Pin {
                address: count_address,
                length: FILESYSTEM_READ_OUTPUT_SIZE,
                write: true,
            },
        ),
    )
    &&& match log[at].answer->Number_0 {
        Err(status) => {
            &&& result == Err::<DispatchResult, Status>(status)
            &&& asked_from(log, at + 1, unpin_asks(pins_of(model.buffers)))
        },
        Ok(pages) => sent_to_block(
            model,
            Some(PinnedOutput { address: count_address, pages }),
            thread,
            now_ns,
            log,
            at + 1,
            result,
        ),
    }
}

/// Bytes that one read or write may move.
pub open spec fn transfer_length(abi: Abi, raw_length: u64) -> Result<usize, Status> {
    array_bytes(raw_length, 1, abi.limits.filesystem_read_bytes as u64, Status::OutOfRange)
}

/// The request that opens a file.
pub fn prepare_filesystem_open_broker_request(
    process_id: u64,
    thread_id: u64,
    anchor: DirectoryAnchor,
    flags: u32,
    buffers: Vec<PreparedRequestBuffer>,
) -> (request: PreparedBrokerRequest)
    ensures
        request.terms == open_terms(process_id, thread_id, anchor, flags),
        request.buffers == buffers,
{
    let directory: Option<Node> = if anchor.is_root {
        None
    } else {
        Some(anchor.directory)
    };
    PreparedBrokerRequest {
        terms: RequestTerms {
            process_id,
            thread_id,
            target: directory_request_target(directory),
            target_lease: PreparedRequestTarget::Directory {
                directory,
                is_root: anchor.is_root,
                rights: anchor.rights,
            },
            operation: RequestOperation::FilesystemOpen,
            completion_mode: RequestCompletionMode::Block,
            operation_argument: flags as u64,
            user_data: 0,
            request_flags: 0,
            deadline_ns: None,
        },
        buffers,
    }
}

/// What `filesystem_open_request` asks for, and what comes of it.
pub open spec fn did_filesystem_open_request(
    abi: Abi,
    process_id: u64,
    thread: u64,
    raw_anchor: u64,
    args_address: u64,
    output_address: u64,
    now_ns: u64,
    before: Seq<Event>,
    log: Seq<Event>,
    result: Result<DispatchResult, Status>,
) -> bool {
    let base = before.len() as int;
    open_checked(
        abi,
        raw_anchor,
        args_address,
        output_address,
        before,
        log,
        result,
        |args: ParsedFilesystemOpenArgs|
            open_sent(
                abi,
                process_id,
                thread,
                anchor_of(log, base + 3),
                args,
                log[base + 2].bytes(),
                output_address,
                now_ns,
                log,
                anchor_end(log, base + 3),
                result,
            ),
    )
}

/// What `filesystem_read_request` asks for, and what comes of it.
pub open spec fn did_filesystem_read_request(
    abi: Abi,
    process_id: u64,
    thread: u64,
    raw_file: u64,
    offset: u64,
    output_address: u64,
    raw_length: u64,
    count_address: u64,
    now_ns: u64,
    before: Seq<Event>,
    log: Seq<Event>,
    result: Result<DispatchResult, Status>,
) -> bool {
    let base = before.len() as int;
    match (handle_in(raw_file), transfer_length(abi, raw_length)) {
        (Ok(handle), Ok(length)) => {
            let first = seq![
                Ask::Plain(Call::File { handle, rights: abi.rights.read }),
                Ask::Plain(Call::Pin { address: output_address, length, write: true }),
            ];
            ||| failed_in(log, base, first, result)
            ||| passed(log, base, first) && transfer_sent(
                abi,
                process_id,
                thread,
                log[base].node(),
                RequestOperation::FilesystemRead,
                offset,
                count_address,
                BufferModel::Pinned {
                    flags: abi.buffer_flags.write,
                    owner_process_id: process_id,
                    pages: log[base + 1].number(),
                },
                now_ns,
                log,
                base + 2,
                result,
            )
        },
        (Err(status), _) => rejected(before, log, result, status),
        (_, Err(status)) => rejected(before, log, result, status),
    }
}

/// What `filesystem_write_request` asks for, and what comes of it.
pub open spec fn did_filesystem_write_request(
    abi: Abi,
    process_id: u64,
    thread: u64,
    raw_file: u64,
    offset: u64,
    input_address: u64,
    raw_length: u64,
    count_address: u64,
    now_ns: u64,
    before: Seq<Event>,
    log: Seq<Event>,
    result: Result<DispatchResult, Status>,
) -> bool {
    let base = before.len() as int;
    match (handle_in(raw_file), transfer_length(abi, raw_length)) {
        (Ok(handle), Ok(length)) => {
            let first = seq![
                Ask::Plain(Call::File { handle, rights: abi.rights.write }),
                Ask::Plain(Call::CopyIn { address: input_address, length }),
            ];
            ||| failed_in(log, base, first, result)
            ||| passed(log, base, first) && transfer_sent(
                abi,
                process_id,
                thread,
                log[base].node(),
                RequestOperation::FilesystemWrite,
                offset,
                count_address,
                BufferModel::Copied {
                    flags: abi.buffer_flags.read,
                    user_address: input_address,
                    bytes: log[base + 1].bytes(),
                },
                now_ns,
                log,
                base + 2,
                result,
            )
        },
        (Err(status), _) => rejected(before, log, result, status),
        (_, Err(status)) => rejected(before, log, result, status),
    }
}

/// What `filesystem_sync_request` asks for, and what comes of it.
pub open spec fn did_filesystem_sync_request(
    abi: Abi,
    process_id: u64,
    thread: u64,
    args_address: u64,
    now_ns: u64,
    before: Seq<Event>,
    log: Seq<Event>,
    result: Result<DispatchResult, Status>,
) -> bool {
    let base = before.len() as int;
    handle_args(
        args_address,
        FILESYSTEM_SYNC_ARGS_SIZE,
        log,
        base,
        result,
        |handle: Handle, raw: Seq<u8>|
            {
                ||| sync_failed(abi, handle, log, base + 1, result)
                ||| sync_ok(abi, handle, log, base + 1) && sent_to_block(
                    RequestModel {
                        terms: blocking_terms(
                            process_id,
                            thread,
                            directory_target(sync_node(log, base + 1)),
                            PreparedRequestTarget::FilesystemSync,
                            RequestOperation::FilesystemSync,
                            0,
                            0,
                            0,
                        ),
                        buffers: Seq::empty(),
                    },
                    None,
                    thread,
                    now_ns,
                    log,
                    base + 3,
                    result,
                )
            },
    )
}

impl<K: Kernel> Session<K> {
    /// Reads the arguments of an open, and finds its path and directory.
    fn open_target(&mut self, raw_anchor: u64, args_address: u64, output_address: u64) -> (result:
        Result<(ParsedFilesystemOpenArgs, Vec<u8>, DirectoryAnchor), Status>)
        ensures
            final(self).kept(*old(self)),
            ({
                let log = final(self).log@;
                let base = old(self).log@.len() as int;
                open_checked(
                    old(self).abi,
                    raw_anchor,
                    args_address,
                    output_address,
                    old(self).log@,
                    log,
                    result,
                    |args: ParsedFilesystemOpenArgs|
                        {
                            &&& result matches Ok(found)
                            &&& found.0 == args
                            &&& found.1@ == log[base + 2].bytes()
                            &&& found.2 == anchor_of(log, base + 3)
                            &&& log.len() == anchor_end(log, base + 3)
                        },
                )
            }),
    {
        let anchor_handle: Handle = decode_handle(raw_anchor)?;
        let raw: Vec<u8> = self.copy_in(args_address, FILESYSTEM_OPEN_ARGS_SIZE)?;
        let args: ParsedFilesystemOpenArgs = parse_filesystem_open_args(
            &self.abi,
            raw.as_slice(),
        )?;
        self.check_output(output_address, HANDLE_OUTPUT_SIZE)?;
        let path: Vec<u8> = self.copy_filesystem_path(args.path_address, args.path_length)?;
        let required: u32 = filesystem_open_required_rights(&self.abi, args.flags);
        let anchor: DirectoryAnchor = self.resolve_directory_anchor(anchor_handle, required)?;
        if anchor.is_root && contains_bits(required, self.abi.rights.write)
            && is_protected_system_path(path.as_slice()) {
            return Err(Status::AccessDenied);
        }
        Ok((args, path, anchor))
    }

    /// Gives the process a file that was found or made.
    fn give_file(
        &mut self,
        directory: Node,
        path: &[u8],
        flags: u32,
        created: bool,
        file: Node,
        output_address: u64,
    ) -> (result: Result<(), Status>)
        ensures
            final(self).kept(*old(self)),
            file_given(
                old(self).abi,
                directory,
                path@,
                flags,
                created,
                file,
                output_address,
                final(self).log@,
                old(self).log@.len() as int,
                result,
            ),
    {
        let rights: u32 = opened_file_rights(&self.abi, flags);
        let handle: Handle = match self.handle(Call::CreateFileHandle { file, rights }) {
            Ok(handle) => handle,
            Err(status) => {
                if created {
                    let removal: Result<(), Status> = self.remove_path(directory, path, false);
                    assert(ran_through(
                        self.log@,
                        old(self).log@.len() + 1int,
                        removal_plan(
                            false,
                            directory,
                            path@,
                            self.log@[old(self).log@.len() + 1int].node(),
                        ),
                        removal,
                    ));
                }
                return Err(status);
            },
        };
        if contains_bits(flags, self.abi.open_flags.truncate) {
            if let Err(status) = self.done(Call::TruncateFile { file, length: 0 }) {
                self.close_one(handle);
                return Err(status);
            }
        }
        self.give_handle(output_address, handle)
    }

    /// Opens a file, or makes it where that is asked for and there is none.
    pub fn filesystem_open(&mut self, raw_anchor: u64, args_address: u64, output_address: u64) -> (result:
        Result<(), Status>)
        ensures
            final(self).kept(*old(self)),
            did_filesystem_open(
                old(self).abi,
                raw_anchor,
                args_address,
                output_address,
                old(self).log@,
                final(self).log@,
                result,
            ),
    {
        let (args, path, anchor): (ParsedFilesystemOpenArgs, Vec<u8>, DirectoryAnchor) =
            self.open_target(raw_anchor, args_address, output_address)?;
        let directory: Node = anchor.directory;
        let mut created: bool = false;
        let file: Node = match self.path_node(Call::OpenFileAt { directory }, path.as_slice()) {
            Ok(file) => file,
            Err(Status::NotFound) => {
                if !contains_bits(args.flags, self.abi.open_flags.create) {
                    return Err(Status::NotFound);
                }
                created = true;
                self.path_node(Call::CreateFileAt { directory }, path.as_slice())?
            },
            Err(status) => {
                return Err(status);
            },
        };
        self.give_file(directory, path.as_slice(), args.flags, created, file, output_address)
    }

    /// Submits a request and blocks its submitter until it ends.
    pub fn submit_blocking_request(
        &mut self,
        request: PreparedBrokerRequest,
        count: Option<PinnedOutput>,
        thread: u64,
        now_ns: u64,
    ) -> (result: Result<DispatchResult, Status>)
        ensures
            final(self).kept(*old(self)),
            sent_to_block(
                request.model(),
                count,
                thread,
                now_ns,
                final(self).log@,
                old(self).log@.len() as int,
                result,
            ),
    {
        let pins: Vec<u64> = pinned_pages(request.buffers.as_slice());
        let submitted: u64 = match self.submit(request, now_ns) {
            Ok(submitted) => submitted,
            Err(status) => {
                self.unpin_all(pins.as_slice());
                self.unpin_count(count);
                return Err(status);
            },
        };
        let hidden_handle: Handle = match self.handle(Call::InstallRequest { request: submitted }) {
            Ok(handle) => handle,
            Err(status) => {
                let _ = self.done(Call::CancelRequest { request: submitted, now_ns });
                self.unpin_count(count);
                return Err(status);
            },
        };
        let _ = self.done(
            Call::BlockRequest {
                thread,
                request: submitted,
                hidden_handle,
                output: None,
                count_output: count,
                return_operation_status: true,
            },
        );
        Ok(DispatchResult::Blocked)
    }

    /// Gives the page of a count back.
    fn unpin_count(&mut self, count: Option<PinnedOutput>)
        ensures
            final(self).kept(*old(self)),
            asked_from(final(self).log@, old(self).log@.len() as int, count_unpin(count)),
    {
        if let Some(output) = count {
            let _ = self.done(Call::Unpin { pages: output.pages });
        }
    }

    /// Asks for a file to be opened, and blocks the thread until it is.
    pub fn filesystem_open_request(
        &mut self,
        process_id: u64,
        thread: u64,
        raw_anchor: u64,
        args_address: u64,
        output_address: u64,
        now_ns: u64,
    ) -> (result: Result<DispatchResult, Status>)
        ensures
            final(self).kept(*old(self)),
            did_filesystem_open_request(
                old(self).abi,
                process_id,
                thread,
                raw_anchor,
                args_address,
                output_address,
                now_ns,
                old(self).log@,
                final(self).log@,
                result,
            ),
    {
        let (args, path, anchor): (ParsedFilesystemOpenArgs, Vec<u8>, DirectoryAnchor) =
            self.open_target(raw_anchor, args_address, output_address)?;
        let ghost bytes = path@;
        let pages: u64 = self.number(
            Call::Pin { address: output_address, length: HANDLE_OUTPUT_SIZE, write: true },
        )?;
        let read: PreparedRequestBuffer = PreparedRequestBuffer::Copied {
            flags: self.abi.buffer_flags.read,
            user_address: args.path_address,
            bytes: path,
        };
        let write: PreparedRequestBuffer = PreparedRequestBuffer::Pinned {
            flags: self.abi.buffer_flags.write,
            owner_process_id: process_id,
            pages,
        };
        let request: PreparedBrokerRequest = prepare_filesystem_open_broker_request(
            process_id,
            thread,
            anchor,
            args.flags,
            vec![read, write],
        );
        assert(request.model().buffers =~= seq![
            BufferModel::Copied {
                flags: self.abi.buffer_flags.read,
                user_address: args.path_address,
                bytes,
            },
            BufferModel::Pinned {
                flags: self.abi.buffer_flags.write,
                owner_process_id: process_id,
                pages,
            },
        ]);
        self.submit_blocking_request(request, None, thread, now_ns)
    }

    /// Submits the request that reads or writes a file.
    fn send_transfer(
        &mut self,
        process_id: u64,
        thread: u64,
        file: Node,
        operation: RequestOperation,
        offset: u64,
        count_address: u64,
        buffer: PreparedRequestBuffer,
        now_ns: u64,
    ) -> (result: Result<DispatchResult, Status>)
        ensures
            final(self).kept(*old(self)),
            transfer_sent(
                old(self).abi,
                process_id,
                thread,
                file,
                operation,
                offset,
                count_address,
                buffer.model(),
                now_ns,
                final(self).log@,
                old(self).log@.len() as int,
                result,
            ),
    {
        let ghost model = buffer.model();
        let buffers: Vec<PreparedRequestBuffer> = vec![buffer];
        assert(super::kernel::buffer_models(buffers@) =~= seq![model]);
        let pages: u64 = match self.number(
            Call::Pin { address: count_address, length: FILESYSTEM_READ_OUTPUT_SIZE, write: true },
        ) {
            Ok(pages) => pages,
            Err(status) => {
                let pins: Vec<u64> = pinned_pages(buffers.as_slice());
                self.unpin_all(pins.as_slice());
                return Err(status);
            },
        };
        let request: PreparedBrokerRequest = PreparedBrokerRequest {
            terms: RequestTerms {
                process_id,
                thread_id: thread,
                target: filesystem_request_target(file),
                target_lease: PreparedRequestTarget::File(file),
                operation,
                completion_mode: RequestCompletionMode::Block,
                operation_argument: offset,
                user_data: count_address,
                request_flags: self.abi.request_allow_partial,
                deadline_ns: None,
            },
            buffers,
        };
        let count: PinnedOutput = PinnedOutput { address: count_address, pages };
        self.submit_blocking_request(request, Some(count), thread, now_ns)
    }

    /// Asks for a file to be read, and blocks the thread until it is.
    pub fn filesystem_read_request(
        &mut self,
        process_id: u64,
        thread: u64,
        raw_file: u64,
        offset: u64,
        output_address: u64,
        raw_length: u64,
        count_address: u64,
        now_ns: u64,
    ) -> (result: Result<DispatchResult, Status>)
        ensures
            final(self).kept(*old(self)),
            did_filesystem_read_request(
                old(self).abi,
                process_id,
                thread,
                raw_file,
                offset,
                output_address,
                raw_length,
                count_address,
                now_ns,
                old(self).log@,
                final(self).log@,
                result,
            ),
    {
        let handle: Handle = decode_handle(raw_file)?;
        let limit: u64 = self.abi.limits.filesystem_read_bytes as u64;
        let length: usize = checked_array_bytes(raw_length, 1, limit, Status::OutOfRange)?;
        let rights: u32 = self.abi.rights.read;
        let file: Node = self.node(Call::File { handle, rights })?;
        let pages: u64 = self.number(Call::Pin { address: output_address, length, write: true })?;
        let buffer: PreparedRequestBuffer = PreparedRequestBuffer::Pinned {
            flags: self.abi.buffer_flags.write,
            owner_process_id: process_id,
            pages,
        };
        self.send_transfer(
            process_id,
            thread,
            file,
            RequestOperation::FilesystemRead,
            offset,
            count_address,
            buffer,
            now_ns,
        )
    }

    /// Asks for a file to be written, and blocks the thread until it is.
    pub fn filesystem_write_request(
        &mut self,
        process_id: u64,
        thread: u64,
        raw_file: u64,
        offset: u64,
        input_address: u64,
        raw_length: u64,
        count_address: u64,
        now_ns: u64,
    ) -> (result: Result<DispatchResult, Status>)
        ensures
            final(self).kept(*old(self)),
            did_filesystem_write_request(
                old(self).abi,
                process_id,
                thread,
                raw_file,
                offset,
                input_address,
                raw_length,
                count_address,
                now_ns,
                old(self).log@,
                final(self).log@,
                result,
            ),
    {
        let handle: Handle = decode_handle(raw_file)?;
        let limit: u64 = self.abi.limits.filesystem_read_bytes as u64;
        let length: usize = checked_array_bytes(raw_length, 1, limit, Status::OutOfRange)?;
        let rights: u32 = self.abi.rights.write;
        let file: Node = self.node(Call::File { handle, rights })?;
        let bytes: Vec<u8> = self.copy_in(input_address, length)?;
        let buffer: PreparedRequestBuffer = PreparedRequestBuffer::Copied {
            flags: self.abi.buffer_flags.read,
            user_address: input_address,
            bytes,
        };
        self.send_transfer(
            process_id,
            thread,
            file,
            RequestOperation::FilesystemWrite,
            offset,
            count_address,
            buffer,
            now_ns,
        )
    }

    /// Asks for the file system to be written to the disk, and blocks the thread until it
    /// is.
    pub fn filesystem_sync_request(
        &mut self,
        process_id: u64,
        thread: u64,
        args_address: u64,
        now_ns: u64,
    ) -> (result: Result<DispatchResult, Status>)
        ensures
            final(self).kept(*old(self)),
            did_filesystem_sync_request(
                old(self).abi,
                process_id,
                thread,
                args_address,
                now_ns,
                old(self).log@,
                final(self).log@,
                result,
            ),
    {
        let raw: Vec<u8> = self.copy_in(args_address, FILESYSTEM_SYNC_ARGS_SIZE)?;
        let handle: Handle = Handle(read_u32(raw.as_slice(), 0));
        if read_u32(raw.as_slice(), 4) != 0 {
            return Err(Status::InvalidArgument);
        }
        let node: Option<Node> = self.synced_node(handle)?;
        let request: PreparedBrokerRequest = PreparedBrokerRequest {
            terms: RequestTerms {
                process_id,
                thread_id: thread,
                target: directory_request_target(node),
                target_lease: PreparedRequestTarget::FilesystemSync,
                operation: RequestOperation::FilesystemSync,
                completion_mode: RequestCompletionMode::Block,
                operation_argument: 0,
                user_data: 0,
                request_flags: 0,
                deadline_ns: None,
            },
            buffers: Vec::new(),
        };
        assert(request.model().buffers =~= Seq::empty());
        self.submit_blocking_request(request, None, thread, now_ns)
    }

    /// Reads a file at once.
    ///
    /// More bytes than were asked for are an error of the file system.
    pub fn filesystem_read(
        &mut self,
        raw_file: u64,
        offset: u64,
        output_address: u64,
        raw_length: u64,
        count_address: u64,
    ) -> (result: Result<(), Status>)
        ensures
            final(self).kept(*old(self)),
            did_filesystem_read(
                old(self).abi,
                raw_file,
                offset,
                output_address,
                raw_length,
                count_address,
                old(self).log@,
                final(self).log@,
                result,
            ),
    {
        let handle: Handle = decode_handle(raw_file)?;
        let limit: u64 = self.abi.limits.filesystem_read_bytes as u64;
        let length: usize = checked_array_bytes(raw_length, 1, limit, Status::OutOfRange)?;
        self.check_output(output_address, length)?;
        self.check_output(count_address, FILESYSTEM_READ_OUTPUT_SIZE)?;
        let rights: u32 = self.abi.rights.read;
        let file: Node = self.node(Call::File { handle, rights })?;
        let bytes: Vec<u8> = self.bytes(Call::ReadFile { file, offset, length })?;
        if bytes.len() > length {
            return Err(Status::Io);
        }
        self.copy_out(output_address, bytes.as_slice())?;
        let count: Vec<u8> = encode_number(bytes.len() as u64);
        self.copy_out(count_address, count.as_slice())
    }

    /// Writes a file at once.
    pub fn filesystem_write(
        &mut self,
        raw_file: u64,
        offset: u64,
        input_address: u64,
        raw_length: u64,
        count_address: u64,
    ) -> (result: Result<(), Status>)
        ensures
            final(self).kept(*old(self)),
            did_filesystem_write(
                old(self).abi,
                raw_file,
                offset,
                input_address,
                raw_length,
                count_address,
                old(self).log@,
                final(self).log@,
                result,
            ),
    {
        let handle: Handle = decode_handle(raw_file)?;
        let limit: u64 = self.abi.limits.filesystem_read_bytes as u64;
        let length: usize = checked_array_bytes(raw_length, 1, limit, Status::OutOfRange)?;
        self.check_output(count_address, FILESYSTEM_READ_OUTPUT_SIZE)?;
        let rights: u32 = self.abi.rights.write;
        let file: Node = self.node(Call::File { handle, rights })?;
        let bytes: Vec<u8> = self.copy_in(input_address, length)?;
        let written: u64 = self.write_number(Call::WriteFile { file, offset }, bytes.as_slice())?;
        let count: Vec<u8> = encode_number(written);
        self.copy_out(count_address, count.as_slice())
    }
}

} // verus!
