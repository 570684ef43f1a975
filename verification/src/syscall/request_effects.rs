//! What system calls on requests and waits have the rest of the kernel do, by the registers and the
//! records that the caller hands over.
use vstd::prelude::*;

use crate::bytes::{le32_at, le64_at, zeros};

use super::abi::{
    has_bits, Abi, Handle, RequestBufferKind, RequestCompletionMode, RequestOperation, Status,
};
use super::batch::{
    batch_along, batch_reads, batch_sent, check_stopped, checked_along, did_request_submit_batch, outputs_after,
    places, prepared_along, sent, slot_ready, BatchTrace,
};
use super::dispatch::{called, over, SyscallContext};
use super::effects::{lemma_asked, lemma_passed, lemma_ran, names_file, was_read};
use super::kernel::{
    passed, Ask, BufferModel, Call, DispatchResult, Event, PinnedOutput, PreparedRequestTarget,
    RequestModel, WaitDeadline, WaitManyCompletion,
};
use super::memory_effects::{lemma_fields_fit, lemma_told_number, told_number};
use super::number::SyscallNumber;
use super::records::{
    law_batches_read_field_by_field, law_buffers_follow_one_another,
    law_buffers_read_field_by_field, law_requests_are_described_field_by_field,
    law_requests_read_field_by_field, law_wait_items_are_described_field_by_field,
    law_wait_items_follow_one_another, law_wait_items_read_as_they_are_written,
    law_wait_records_follow_one_another, law_waits_read_field_by_field,
};
use super::request_wire::{
    batch_in, buffer_in, buffers_in, completed_output, head_in, info_output, output_record,
    output_records, public_operation, Node, RequestBuffer, RequestSubmitOutput,
};
use super::requests::{
    buffer_asks, buffer_fits, buffer_from, buffers_from, buffers_ready, buffers_width,
    target_found, CheckedRequest, RequestTarget,
};
use super::submission::{
    did_request_cancel, did_request_get_diagnostics, did_request_get_info, did_request_submit,
    request_known, request_ready, request_run, request_sent, request_submitted,
};
use super::wait::{did_wait_many, settled, wait_answers, wait_args_in, wait_checks, wait_submitted};
use super::wire::{record, wait_items_in, wait_records, WaitItem};

verus! {

/// A buffer that is ready is the one that its record describes: memory that was copied in if it is
/// to be read and is empty if not, pages that were pinned, or a lease on shared memory.
pub open spec fn buffer_as_recorded(
    abi: Abi,
    process_id: u64,
    record: Seq<u8>,
    log: Seq<Event>,
    from: int,
    buffer: BufferModel,
) -> bool {
    let kind = le32_at(record, 0);
    let flags = le32_at(record, 4);
    let address = le64_at(record, 8);
    let length = le64_at(record, 16);
    match buffer {
        BufferModel::Copied { flags: kept, user_address, bytes } => {
            &&& kind == abi.buffer_kinds.copy
            &&& kept == flags
            &&& user_address == address
            &&& !has_bits(kept, abi.buffer_flags.read) ==> bytes == zeros(length as nat)
            &&& has_bits(kept, abi.buffer_flags.read) ==> was_read(
                log,
                from,
                address as u64,
                length as u64,
                bytes,
            )
        },
        BufferModel::Pinned { flags: kept, owner_process_id, pages } => {
            &&& kind == abi.buffer_kinds.pinned
            &&& kept == flags
            &&& owner_process_id == process_id
            &&& exists|i: int|
                {
                    &&& from <= i < log.len()
                    &&& (#[trigger] log[i]).number() == pages
                    &&& log[i].ask matches Ask::Plain(
                        Call::Pin { address: place, length: long, write },
                    )
                    &&& place == address
                    &&& long == length
                    &&& write == has_bits(kept, abi.buffer_flags.write)
                }
        },
        BufferModel::SharedMemory { flags: kept, lease } => {
            &&& kind == abi.buffer_kinds.shared_memory
            &&& kept == flags
            &&& exists|i: int|
                {
                    &&& from <= i < log.len()
                    &&& (#[trigger] log[i]).number() == lease
                    &&& log[i].ask matches Ask::Plain(
                        Call::SharedLease { handle, offset, length: long, rights },
                    )
                    &&& handle.0 == le32_at(record, 24)
                    &&& offset == le64_at(record, 32)
                    &&& long == length
                    &&& rights == (if has_bits(kept, abi.buffer_flags.read) {
                        abi.rights.read
                    } else {
                        0
                    }) | (if has_bits(kept, abi.buffer_flags.write) {
                        abi.rights.write
                    } else {
                        0
                    })
                }
        },
    }
}

/// What stands in a longer log stands in it.
proof fn lemma_buffer_on(
    abi: Abi,
    process_id: u64,
    record: Seq<u8>,
    early: Seq<Event>,
    log: Seq<Event>,
    from: int,
    buffer: BufferModel,
)
    requires
        0 <= from,
        early.len() <= log.len(),
        forall|i: int| 0 <= i < early.len() ==> #[trigger] early[i] == log[i],
        buffer_as_recorded(abi, process_id, record, early, from, buffer),
    ensures
        buffer_as_recorded(abi, process_id, record, log, from, buffer),
{
    match buffer {
        BufferModel::Copied { flags, user_address, bytes } => {
            if has_bits(flags, abi.buffer_flags.read) {
                let address = le64_at(record, 8) as u64;
                let length = le64_at(record, 16) as u64;
                let i = choose|i: int|
                    from <= i < early.len() && (#[trigger] early[i]).ask == Ask::Plain(
                        Call::CopyIn { address, length: length as usize },
                    ) && early[i].bytes() == bytes && length <= usize::MAX;
                assert(log[i] == early[i]);
            }
        },
        BufferModel::Pinned { flags, owner_process_id, pages } => {
            let i = choose|i: int|
                {
                    &&& from <= i < early.len()
                    &&& (#[trigger] early[i]).number() == pages
                    &&& early[i].ask matches Ask::Plain(
                        Call::Pin { address: place, length: long, write },
                    )
                    &&& place == le64_at(record, 8)
                    &&& long == le64_at(record, 16)
                    &&& write == has_bits(flags, abi.buffer_flags.write)
                };
            assert(log[i] == early[i]);
            assert(log[i].number() == pages);
        },
        BufferModel::SharedMemory { flags, lease } => {
            let i = choose|i: int|
                {
                    &&& from <= i < early.len()
                    &&& (#[trigger] early[i]).number() == lease
                    &&& early[i].ask matches Ask::Plain(
                        Call::SharedLease { handle, offset, length: long, rights },
                    )
                    &&& handle.0 == le32_at(record, 24)
                    &&& offset == le64_at(record, 32)
                    &&& long == le64_at(record, 16)
                    &&& rights == (if has_bits(flags, abi.buffer_flags.read) {
                        abi.rights.read
                    } else {
                        0
                    }) | (if has_bits(flags, abi.buffer_flags.write) {
                        abi.rights.write
                    } else {
                        0
                    })
                };
            assert(log[i] == early[i]);
            assert(log[i].number() == lease);
        },
    }
}

/// The rights that a buffer of shared memory needs.
proof fn lemma_buffer_rights(read: u32, write: u32)
    ensures
        (0u32 | read) | write == read | write,
        0u32 | read == read | 0u32,
        0u32 | write == 0u32 | write,
        0u32 | 0u32 == 0u32,
        0u32 | read == read,
        0u32 | write == write,
{
    assert((0u32 | read) | write == read | write) by (bit_vector);
    assert(0u32 | read == read && read | 0u32 == read) by (bit_vector);
    assert(0u32 | write == write) by (bit_vector);
    assert(0u32 | 0u32 == 0u32) by (bit_vector);
}

/// One buffer, made ready.
#[verifier::rlimit(40)]
proof fn lemma_one_buffer(
    abi: Abi,
    process_id: u64,
    record: Seq<u8>,
    log: Seq<Event>,
    from: int,
    at: int,
)
    requires
        0 <= from <= at,
        buffer_in(abi, record) is Ok,
        buffer_fits(buffer_in(abi, record)->Ok_0),
        passed(log, at, buffer_asks(abi, buffer_in(abi, record)->Ok_0)),
    ensures
        buffer_as_recorded(
            abi,
            process_id,
            record,
            log,
            from,
            buffer_from(abi, process_id, buffer_in(abi, record)->Ok_0, log, at),
        ),
{
    let buffer = buffer_in(abi, record)->Ok_0;
    let asks = buffer_asks(abi, buffer);
    law_buffers_read_field_by_field(abi, record);
    lemma_fields_fit(record);
    lemma_passed(log, at, asks);
    match buffer.kind {
        RequestBufferKind::Copy => {
            if has_bits(buffer.flags, abi.buffer_flags.read) {
                let last = at + asks.len() - 1;
                assert(log[last].ask == asks[asks.len() - 1]);
                assert(log[last].bytes() == log[last].bytes());
            }
        },
        RequestBufferKind::Pinned => {
            assert(log[at].ask == asks[0]);
            assert(log[at].number() == log[at].number());
        },
        RequestBufferKind::SharedMemory => {
            assert(log[at].ask == asks[0]);
            assert(log[at].number() == log[at].number());
            lemma_buffer_rights(abi.rights.read, abi.rights.write);
            lemma_buffer_rights(0, abi.rights.write);
        },
    }
}

/// All buffers, made ready.
proof fn lemma_all_buffers(
    abi: Abi,
    process_id: u64,
    raw: Seq<u8>,
    buffers: Seq<RequestBuffer>,
    log: Seq<Event>,
    from: int,
    at: int,
    count: nat,
)
    requires
        0 <= from <= at,
        count <= buffers.len(),
        buffers_ready(abi, buffers, log, at, count),
        forall|i: int|
            0 <= i < buffers.len() ==> buffer_in(abi, raw.subrange(40 * i, 40 * i + 40)) == Ok::<
                RequestBuffer,
                Status,
            >(#[trigger] buffers[i]),
    ensures
        buffers_from(abi, process_id, buffers, log, at, count).len() == count,
        forall|i: int|
            0 <= i < count ==> buffer_as_recorded(
                abi,
                process_id,
                raw.subrange(40 * i, 40 * i + 40),
                log,
                from,
                #[trigger] buffers_from(abi, process_id, buffers, log, at, count)[i],
            ),
    decreases count,
{
    if count > 0 {
        let before = (count - 1) as nat;
        lemma_all_buffers(abi, process_id, raw, buffers, log, from, at, before);
        let last = count - 1;
        assert(buffers[last] == buffer_in(abi, raw.subrange(40 * last, 40 * last + 40))->Ok_0);
        lemma_one_buffer(
            abi,
            process_id,
            raw.subrange(40 * last, 40 * last + 40),
            log,
            from,
            at + buffers_width(abi, buffers, before),
        );
    }
}

/// What a request is for, as its record says and as the kernel answered.
pub open spec fn target_as_recorded(
    abi: Abi,
    process_id: u64,
    handle: Handle,
    argument: u64,
    log: Seq<Event>,
    from: int,
    operation: RequestOperation,
    number: u64,
    lease: PreparedRequestTarget,
) -> bool {
    match operation {
        RequestOperation::Nop => number == 0 && lease is Nothing && !abi.valid(handle),
        RequestOperation::FilesystemRead => lease matches PreparedRequestTarget::File(file)
            && number == file.generation * 0x1_0000_0000 + file.node_id && names_file(
            log,
            from,
            handle,
            abi.rights.read,
            file,
        ),
        RequestOperation::FilesystemWrite => lease matches PreparedRequestTarget::File(file)
            && number == file.generation * 0x1_0000_0000 + file.node_id && names_file(
            log,
            from,
            handle,
            abi.rights.write,
            file,
        ),
        RequestOperation::FilesystemSync => {
            &&& lease is FilesystemSync
            &&& exists|i: int|
                {
                    &&& from <= i < log.len()
                    &&& (#[trigger] log[i]).refused() is None
                    &&& {
                        ||| log[i].ask == Ask::Plain(
                            Call::Root { handle, rights: abi.rights.write },
                        ) && number == u64::MAX
                        ||| {
                            &&& log[i].ask == Ask::Plain(
                                Call::Directory { handle, rights: abi.rights.write },
                            ) || log[i].ask == Ask::Plain(
                                Call::File { handle, rights: abi.rights.write },
                            )
                            &&& number == log[i].node().generation * 0x1_0000_0000
                                + log[i].node().node_id
                        }
                    }
                }
        },
        RequestOperation::AudioWrite => number == u64::MAX - 1 && lease is Nothing && !abi.valid(
            handle,
        ),
        _ => false,
    }
}

/// What stands in a longer log stands in it.
proof fn lemma_target_on(
    abi: Abi,
    process_id: u64,
    handle: Handle,
    argument: u64,
    early: Seq<Event>,
    log: Seq<Event>,
    from: int,
    operation: RequestOperation,
    number: u64,
    lease: PreparedRequestTarget,
)
    requires
        0 <= from,
        early.len() <= log.len(),
        forall|i: int| 0 <= i < early.len() ==> #[trigger] early[i] == log[i],
        target_as_recorded(abi, process_id, handle, argument, early, from, operation, number, lease),
    ensures
        target_as_recorded(abi, process_id, handle, argument, log, from, operation, number, lease),
{
    match operation {
        RequestOperation::FilesystemSync => {
            let i = choose|i: int|
                {
                    &&& from <= i < early.len()
                    &&& (#[trigger] early[i]).refused() is None
                    &&& {
                        ||| early[i].ask == Ask::Plain(
                            Call::Root { handle, rights: abi.rights.write },
                        ) && number == u64::MAX
                        ||| {
                            &&& early[i].ask == Ask::Plain(
                                Call::Directory { handle, rights: abi.rights.write },
                            ) || early[i].ask == Ask::Plain(
                                Call::File { handle, rights: abi.rights.write },
                            )
                            &&& number == early[i].node().generation * 0x1_0000_0000
                                + early[i].node().node_id
                        }
                    }
                };
            assert(log[i] == early[i]);
            assert(log[i].refused() is None);
        },
        RequestOperation::FilesystemRead => {
            lemma_names_on(early, log, from, handle, abi.rights.read, lease->File_0);
        },
        RequestOperation::FilesystemWrite => {
            lemma_names_on(early, log, from, handle, abi.rights.write, lease->File_0);
        },
        _ => {},
    }
}

/// What stands in a longer log stands in it.
proof fn lemma_names_on(
    early: Seq<Event>,
    log: Seq<Event>,
    from: int,
    handle: Handle,
    rights: u32,
    file: Node,
)
    requires
        0 <= from,
        early.len() <= log.len(),
        forall|i: int| 0 <= i < early.len() ==> #[trigger] early[i] == log[i],
        names_file(early, from, handle, rights, file),
    ensures
        names_file(log, from, handle, rights, file),
{
    let i = choose|i: int|
        from <= i < early.len() && (#[trigger] early[i]).ask == Ask::Plain(
            Call::File { handle, rights },
        ) && early[i].refused() is None && early[i].node() == file;
    assert(log[i] == early[i]);
    assert(log[i].node() == file);
}

/// A target that was found is the one that the handle names.
proof fn lemma_target(
    abi: Abi,
    process_id: u64,
    handle: Handle,
    operation: RequestOperation,
    argument: u64,
    log: Seq<Event>,
    from: int,
    base: int,
    result: Result<RequestTarget, Status>,
)
    requires
        0 <= from <= base,
        result is Ok,
        public_operation(operation),
        target_found(abi, process_id, handle, operation, argument, log, base, result),
    ensures
        target_as_recorded(
            abi,
            process_id,
            handle,
            argument,
            log,
            from,
            operation,
            result->Ok_0.number,
            result->Ok_0.lease,
        ),
{
    match operation {
        RequestOperation::FilesystemRead | RequestOperation::FilesystemWrite => {
            assert(log[base].node() == log[base].node());
        },
        RequestOperation::FilesystemSync => {
            assert(log[base + 1].refused() is None);
        },
        _ => {},
    }
}

/// A request is the one that its record describes.
pub open spec fn request_as_recorded(
    abi: Abi,
    process_id: u64,
    thread: u64,
    record: Seq<u8>,
    buffers: Seq<u8>,
    log: Seq<Event>,
    from: int,
    request: RequestModel,
) -> bool {
    let terms = request.terms;
    &&& terms.process_id == process_id
    &&& terms.thread_id == thread
    &&& operation_named(abi, le32_at(record, 12), terms.operation)
    &&& mode_named(abi, le32_at(record, 16), terms.completion_mode)
    &&& terms.operation_argument == le64_at(record, 40)
    &&& terms.user_data == le64_at(record, 56)
    &&& terms.request_flags == le32_at(record, 20)
    &&& terms.deadline_ns matches Some(deadline) ==> deadline == le64_at(record, 48)
    &&& terms.deadline_ns is None <==> le64_at(record, 48) == (if abi.deadline_infinite < 0 {
        abi.deadline_infinite + 0x1_0000_0000_0000_0000
    } else {
        abi.deadline_infinite as int
    })
    &&& target_as_recorded(
        abi,
        process_id,
        Handle(le32_at(record, 8) as u32),
        terms.operation_argument,
        log,
        from,
        terms.operation,
        terms.target,
        terms.target_lease,
    )
    &&& request.buffers.len() == le32_at(record, 32)
    &&& forall|i: int|
        0 <= i < request.buffers.len() ==> buffer_as_recorded(
            abi,
            process_id,
            buffers.subrange(40 * i, 40 * i + 40),
            log,
            from,
            #[trigger] request.buffers[i],
        )
}

/// The number that names an operation, and the operation.
pub open spec fn operation_named(abi: Abi, raw: int, operation: RequestOperation) -> bool {
    match operation {
        RequestOperation::Nop => raw == abi.operations.nop,
        RequestOperation::FilesystemOpen => raw == abi.operations.filesystem_open,
        RequestOperation::FilesystemRead => raw == abi.operations.filesystem_read,
        RequestOperation::FilesystemWrite => raw == abi.operations.filesystem_write,
        RequestOperation::FilesystemTruncate => raw == abi.operations.filesystem_truncate,
        RequestOperation::FilesystemNamespace => raw == abi.operations.filesystem_namespace,
        RequestOperation::FilesystemSync => raw == abi.operations.filesystem_sync,
        RequestOperation::AudioWrite => raw == abi.operations.audio_write,
        RequestOperation::Synthetic => raw == abi.operations.synthetic,
    }
}

/// The number that names a way to complete, and the way.
pub open spec fn mode_named(abi: Abi, raw: int, mode: RequestCompletionMode) -> bool {
    match mode {
        RequestCompletionMode::InlineOnly => raw == abi.modes.inline_only,
        RequestCompletionMode::Handle => raw == abi.modes.handle,
        RequestCompletionMode::Block => raw == abi.modes.block,
    }
}

/// A request that was checked and made ready is the one that its record describes.
#[verifier::rlimit(60)]
pub(crate) proof fn lemma_request(
    abi: Abi,
    process_id: u64,
    thread: u64,
    raw: Seq<u8>,
    request: CheckedRequest,
    model: RequestModel,
    log: Seq<Event>,
    at: int,
    known: int,
    start: int,
    ready: int,
)
    requires
        0 <= at,
        known <= start,
        request_known(abi, process_id, raw, log, at, known, Ok(request)),
        request_ready(abi, process_id, thread, request, log, start, ready, Ok(model)),
    ensures
        at < log.len(),
        request.head.operation == model.terms.operation,
        request.head.completion_mode == model.terms.completion_mode,
        log[at].ask == Ask::Plain(
            Call::CopyIn {
                address: le64_at(raw, 24) as u64,
                length: (40 * le32_at(raw, 32)) as usize,
            },
        ),
        request_as_recorded(abi, process_id, thread, raw, log[at].bytes(), log, at, model),
{
    let early = log.take(known);
    let head = head_in(abi, raw)->Ok_0;
    law_requests_read_field_by_field(abi, raw);
    lemma_fields_fit(raw);
    let records = early[at].bytes();
    assert(early[at] == log[at]);
    let count = (head.buffer_bytes / 40) as nat;
    law_buffers_follow_one_another(abi, records, count);
    let buffers = buffers_in(abi, records, count)->Ok_0;
    assert(request.buffers == buffers);
    let found = Ok::<RequestTarget, Status>(request.target);
    lemma_target(
        abi,
        process_id,
        head.args.target,
        head.operation,
        head.args.operation_argument,
        early,
        at,
        at + 1,
        found,
    );
    lemma_target_on(
        abi,
        process_id,
        head.args.target,
        head.args.operation_argument,
        early,
        log,
        at,
        head.operation,
        request.target.number,
        request.target.lease,
    );
    let middle = log.take(ready);
    let first = start + 1;
    let last = first + buffers_width(abi, request.buffers, request.buffers.len());
    let inner = middle.take(last);
    assert(inner.len() <= log.len());
    assert forall|i: int| 0 <= i < inner.len() implies #[trigger] inner[i] == log[i] by {}
    lemma_all_buffers(
        abi,
        process_id,
        records,
        buffers,
        inner,
        at,
        first,
        request.buffers.len(),
    );
    assert forall|i: int| 0 <= i < model.buffers.len() implies buffer_as_recorded(
        abi,
        process_id,
        records.subrange(40 * i, 40 * i + 40),
        log,
        at,
        #[trigger] model.buffers[i],
    ) by {
        lemma_buffer_on(
            abi,
            process_id,
            records.subrange(40 * i, 40 * i + 40),
            inner,
            log,
            at,
            model.buffers[i],
        );
    }
}

/// What is told of a request that was submitted.
pub open spec fn tells_of_request(told: Seq<u8>, output: RequestSubmitOutput) -> bool {
    &&& told.len() == 24
    &&& le32_at(told, 0) == output.request.0
    &&& le32_at(told, 4) == output.state
    &&& le32_at(told, 8) == (if output.result < 0 {
        output.result + 0x1_0000_0000
    } else {
        output.result as int
    })
    &&& le32_at(told, 12) == output.result_flags
    &&& le64_at(told, 16) == output.bytes_transferred
}

/// One request is told of by one record.
pub(crate) proof fn lemma_one_output(output: RequestSubmitOutput)
    ensures
        tells_of_request(output_records(seq![output]), output),
{
    law_requests_are_described_field_by_field(output);
    assert(seq![output].drop_last() =~= Seq::<RequestSubmitOutput>::empty());
    assert(seq![output].last() == output);
    assert(output_records(seq![output].drop_last()) == Seq::<u8>::empty());
    assert(output_records(seq![output]) =~= output_record(output));
}

/// A request is submitted as its record describes it, and its submitter hears of it in the way
/// that the record asks for. A request to do nothing is complete at once; one that may only be
/// done at once is not submitted; one that is to be reached by a handle is, and the handle is told
/// where the caller says; and one that is to be waited for is, and its end goes where the caller
/// says, into pages that were pinned for it.
#[verifier::rlimit(80)]
pub proof fn law_requests_are_submitted_as_the_record_says(
    abi: Abi,
    process_id: u64,
    thread: u64,
    args_address: u64,
    output_address: u64,
    now_ns: u64,
    log: Seq<Event>,
    from: int,
    ended: DispatchResult,
)
    requires
        0 <= from,
        request_submitted(
            abi,
            process_id,
            thread,
            args_address,
            output_address,
            now_ns,
            log,
            from,
            Ok::<DispatchResult, Status>(ended),
        ),
    ensures
        ({
            let record = log[from + 1].bytes();
            &&& log[from].ask == Ask::Plain(
                Call::CheckOutput { address: output_address, length: 24 },
            )
            &&& log[from + 1].ask == Ask::Plain(
                Call::CopyIn { address: args_address, length: 64 },
            )
            &&& le32_at(record, 12) == abi.operations.nop ==> {
                &&& ended == DispatchResult::Complete(Status::Success)
                &&& log.last().ask matches Ask::With(Call::CopyOut { address }, told)
                &&& address == output_address
                &&& le32_at(told, 0) == abi.invalid_handle.0
                &&& le32_at(told, 4) == abi.request_states.completed
                &&& le64_at(told, 16) == 0
            }
            &&& le32_at(record, 12) != abi.operations.nop ==> {
                ||| ended == DispatchResult::Complete(Status::ShouldWait) && le32_at(record, 16)
                    == abi.modes.inline_only
                ||| ended == DispatchResult::Complete(Status::Success) && given_by_handle(
                    abi,
                    process_id,
                    thread,
                    record,
                    output_address,
                    now_ns,
                    log,
                    from,
                    log.len() - 4,
                )
                ||| ended == DispatchResult::Blocked && waited_for(
                    abi,
                    process_id,
                    thread,
                    record,
                    output_address,
                    now_ns,
                    log,
                    from,
                    log.len() - 3,
                )
            }
        }),
{
    let result = Ok::<DispatchResult, Status>(ended);
    let first = seq![
        Ask::Plain(
            Call::CheckOutput { address: output_address, length: 24 },
        ),
        Ask::Plain(Call::CopyIn { address: args_address, length: 64 }),
    ];
    lemma_passed(log, from, first);
    assert(log[from].ask == first[0]);
    assert(log[from + 1].ask == first[1]);
    let raw = log[from + 1].bytes();
    let (known, checked) = choose|known: int, checked: Result<CheckedRequest, Status>| #[trigger]
        request_known(abi, process_id, raw, log, from + 2, known, checked) && match checked {
            Err(status) => known == log.len() && result == Err::<DispatchResult, Status>(status),
            Ok(request) => request_run(
                abi,
                process_id,
                thread,
                request,
                output_address,
                now_ns,
                log,
                known,
                result,
            ),
        };
    let request = checked->Ok_0;
    law_requests_read_field_by_field(abi, raw);
    lemma_fields_fit(raw);
    if request.head.operation == RequestOperation::Nop {
        lemma_one_output(completed_output(abi, Status::Success));
    } else {
        let (ready, prepared) = choose|ready: int, prepared: Result<RequestModel, Status>|
            #[trigger] request_ready(
                abi,
                process_id,
                thread,
                request,
                log,
                known,
                ready,
                prepared,
            ) && match prepared {
                Err(status) => ready == log.len() && result == Err::<DispatchResult, Status>(
                    status,
                ),
                Ok(model) => request_sent(
                    abi,
                    model,
                    thread,
                    output_address,
                    now_ns,
                    log,
                    ready,
                    result,
                ),
            };
        let model = prepared->Ok_0;
        lemma_request(
            abi,
            process_id,
            thread,
            raw,
            request,
            model,
            log,
            from + 2,
            known,
            known,
            ready,
        );
        lemma_sent_on(abi, model, thread, output_address, now_ns, log, ready, ended);
    }
}

/// A request was submitted at `at`, and its handle and its state were told.
pub open spec fn given_by_handle(
    abi: Abi,
    process_id: u64,
    thread: u64,
    record: Seq<u8>,
    output_address: u64,
    now_ns: u64,
    log: Seq<Event>,
    from: int,
    at: int,
) -> bool {
    let info = log[at + 2].answer->RequestInfo_0->Some_0;
    &&& le32_at(record, 16) == abi.modes.handle
    &&& from + 2 < at && at + 4 == log.len()
    &&& log[at].ask matches Ask::Submit { request, now_ns: now }
    &&& now == now_ns
    &&& request_as_recorded(
        abi,
        process_id,
        thread,
        record,
        log[from + 2].bytes(),
        log,
        from + 2,
        request,
    )
    &&& log[at + 1].ask matches Ask::Plain(Call::InstallRequest { request: installed })
    &&& installed == log[at].answer->Number_0->Ok_0
    &&& log[at + 2].ask == Ask::RequestInfo(installed)
    &&& log[at + 3].ask matches Ask::With(Call::CopyOut { address }, told)
    &&& address == output_address
    &&& told.len() == 24
    &&& le32_at(told, 0) == log[at + 1].answer->Handle_0->Ok_0.0
    &&& le32_at(told, 4) == info.state
    &&& le32_at(told, 12) == info.result_flags
    &&& le64_at(told, 16) == info.bytes_transferred
    &&& le32_at(told, 8) == (if info.result < 0 {
        info.result + 0x1_0000_0000
    } else {
        info.result as int
    })
}

/// A request was submitted at `at`, and its submitter waits for it.
pub open spec fn waited_for(
    abi: Abi,
    process_id: u64,
    thread: u64,
    record: Seq<u8>,
    output_address: u64,
    now_ns: u64,
    log: Seq<Event>,
    from: int,
    at: int,
) -> bool {
    &&& le32_at(record, 16) == abi.modes.block
    &&& from + 2 < at && at + 3 == log.len()
    &&& log[at - 1].ask == Ask::Plain(
        Call::Pin { address: output_address, length: 24, write: true },
    )
    &&& log[at].ask matches Ask::Submit { request, now_ns: now }
    &&& now == now_ns
    &&& request_as_recorded(
        abi,
        process_id,
        thread,
        record,
        log[from + 2].bytes(),
        log,
        from + 2,
        request,
    )
    &&& log[at + 1].ask matches Ask::Plain(Call::InstallRequest { request: installed })
    &&& installed == log[at].answer->Number_0->Ok_0
    &&& log[at + 2].ask == Ask::Plain(
        Call::BlockRequest {
            thread,
            request: installed,
            hidden_handle: log[at + 1].answer->Handle_0->Ok_0,
            output: Some(
                PinnedOutput {
                    address: output_address,
                    pages: log[at - 1].answer->Number_0->Ok_0,
                },
            ),
            count_output: None,
            return_operation_status: false,
        },
    )
}

/// What is done with a request that is ready.
proof fn lemma_sent_on(
    abi: Abi,
    model: RequestModel,
    thread: u64,
    output_address: u64,
    now_ns: u64,
    log: Seq<Event>,
    at: int,
    ended: DispatchResult,
)
    requires
        0 <= at,
        request_sent(
            abi,
            model,
            thread,
            output_address,
            now_ns,
            log,
            at,
            Ok::<DispatchResult, Status>(ended),
        ),
    ensures
        model.terms.completion_mode == RequestCompletionMode::InlineOnly ==> ended
            == DispatchResult::Complete(Status::ShouldWait),
        model.terms.completion_mode == RequestCompletionMode::Handle ==> {
            &&& ended == DispatchResult::Complete(Status::Success)
            &&& log.len() == at + 4
            &&& log[at].ask == Ask::Submit { request: model, now_ns }
            &&& log[at + 1].ask == Ask::Plain(
                Call::InstallRequest { request: log[at].answer->Number_0->Ok_0 },
            )
            &&& log[at + 2].ask == Ask::RequestInfo(log[at].answer->Number_0->Ok_0)
            &&& log[at + 3].ask matches Ask::With(Call::CopyOut { address }, told)
            &&& address == output_address
            &&& tells_of_request(
                told,
                info_output(
                    log[at + 1].answer->Handle_0->Ok_0,
                    log[at + 2].answer->RequestInfo_0->Some_0,
                ),
            )
        },
        model.terms.completion_mode == RequestCompletionMode::Block ==> {
            &&& ended == DispatchResult::Blocked
            &&& log.len() == at + 4
            &&& log[at].ask == Ask::Plain(
                Call::Pin { address: output_address, length: 24, write: true },
            )
            &&& log[at + 1].ask == Ask::Submit { request: model, now_ns }
            &&& log[at + 2].ask == Ask::Plain(
                Call::InstallRequest { request: log[at + 1].answer->Number_0->Ok_0 },
            )
            &&& log[at + 3].ask == Ask::Plain(
                Call::BlockRequest {
                    thread,
                    request: log[at + 1].answer->Number_0->Ok_0,
                    hidden_handle: log[at + 2].answer->Handle_0->Ok_0,
                    output: Some(
                        PinnedOutput {
                            address: output_address,
                            pages: log[at].answer->Number_0->Ok_0,
                        },
                    ),
                    count_output: None,
                    return_operation_status: false,
                },
            )
        },
{
    match model.terms.completion_mode {
        RequestCompletionMode::Handle => {
            lemma_one_output(
                info_output(
                    log[at + 1].answer->Handle_0->Ok_0,
                    log[at + 2].answer->RequestInfo_0->Some_0,
                ),
            );
        },
        RequestCompletionMode::Block => {
            let asks = seq![
                Ask::Plain(
                    Call::BlockRequest {
                        thread,
                        request: log[at + 1].answer->Number_0->Ok_0,
                        hidden_handle: log[at + 2].answer->Handle_0->Ok_0,
                        output: Some(
                            PinnedOutput {
                                address: output_address,
                                pages: log[at].answer->Number_0->Ok_0,
                            },
                        ),
                        count_output: None,
                        return_operation_status: false,
                    },
                ),
            ];
            lemma_asked(log, at + 3, asks);
            assert(log[at + 3].ask == asks[0]);
        },
        _ => {},
    }
}

/// A submission takes its record and the place of its answer from the caller's registers, and is
/// made for the process and the thread that call, at the time of the call. What went wrong is told.
pub proof fn law_submissions_are_those_of_the_caller(
    abi: Abi,
    call: SyscallContext,
    before: Seq<Event>,
    log: Seq<Event>,
    dispatched: Result<DispatchResult, Status>,
)
    requires
        called(abi, SyscallNumber::RequestSubmit, call, before, log, dispatched),
    ensures
        exists|result: Result<DispatchResult, Status>|
            {
                &&& #[trigger] request_submitted(
                    abi,
                    call.process_id,
                    call.thread,
                    call.registers.rdi,
                    call.registers.rsi,
                    call.now_ns,
                    log,
                    before.len() as int,
                    result,
                )
                &&& result matches Ok(ended) ==> dispatched == Ok::<DispatchResult, Status>(ended)
                &&& result matches Err(status) ==> dispatched == Ok::<DispatchResult, Status>(
                    DispatchResult::Complete(status),
                )
            },
{
    let ended = choose|ended: DispatchResult| #[trigger]
        did_request_submit(
            abi,
            call.process_id,
            call.thread,
            call.registers.rdi,
            call.registers.rsi,
            call.now_ns,
            before,
            log,
            ended,
        ) && dispatched == Ok::<DispatchResult, Status>(ended);
    let result = choose|result: Result<DispatchResult, Status>| #[trigger]
        request_submitted(
            abi,
            call.process_id,
            call.thread,
            call.registers.rdi,
            call.registers.rsi,
            call.now_ns,
            log,
            before.len() as int,
            result,
        ) && ended == settled(result);
    assert(request_submitted(
        abi,
        call.process_id,
        call.thread,
        call.registers.rdi,
        call.registers.rsi,
        call.now_ns,
        log,
        before.len() as int,
        result,
    ));
}

/// The request that the handle names is canceled, at the time of the call, and the handle that
/// named it is marked.
pub proof fn law_cancellations_reach_the_named_request(
    abi: Abi,
    call: SyscallContext,
    before: Seq<Event>,
    log: Seq<Event>,
    dispatched: Result<DispatchResult, Status>,
)
    requires
        called(abi, SyscallNumber::RequestCancel, call, before, log, dispatched),
        dispatched is Ok,
    ensures
        ({
            let from = before.len() as int;
            &&& call.registers.rdi <= u32::MAX
            &&& log.len() == from + 3
            &&& log[from].ask == Ask::Plain(Call::CancellationTarget { handle: Handle(call.registers.rdi as u32) })
            &&& log[from + 1].ask == Ask::Plain(
                Call::CancelRequest { request: log[from].number(), now_ns: call.now_ns },
            )
            &&& log[from + 2].ask == Ask::Plain(Call::MarkCanceled { handle: Handle(call.registers.rdi as u32) })
        }),
{
    let from = before.len() as int;
    let result = choose|result: Result<(), Status>| #[trigger]
        did_request_cancel(abi, call.registers.rdi, call.now_ns, before, log, result) && dispatched == over(result);
    assert(did_request_cancel(abi, call.registers.rdi, call.now_ns, before, log, result));
    let handle = Handle(call.registers.rdi as u32);
    let plan = seq![
        Ask::Plain(Call::CancellationTarget { handle }),
        Ask::Plain(Call::CancelRequest { request: log[from].number(), now_ns: call.now_ns }),
        Ask::Plain(Call::MarkCanceled { handle }),
    ];
    lemma_ran(log, from, plan, result);
    assert(log[from].ask == plan[0]);
    assert(log[from + 1].ask == plan[1]);
    assert(log[from + 2].ask == plan[2]);
}

/// What is told of a request, where the caller says, is what the kernel has for the handle that
/// the caller names.
pub proof fn law_a_request_is_told_of_by_its_handle(
    abi: Abi,
    call: SyscallContext,
    before: Seq<Event>,
    log: Seq<Event>,
    dispatched: Result<DispatchResult, Status>,
)
    requires
        called(abi, SyscallNumber::RequestGetInfo, call, before, log, dispatched),
        dispatched is Ok,
    ensures
        ({
            let from = before.len() as int;
            &&& call.registers.r10 == abi.versions.request_info && call.registers.rdx == abi.sizes.request_info && call.registers.rdi <= u32::MAX
            &&& log.len() == from + 3
            &&& log[from + 1].ask == Ask::Plain(Call::RequestRecord { handle: Handle(call.registers.rdi as u32) })
            &&& log[from + 2].ask == Ask::With(Call::CopyOut { address: call.registers.rsi }, log[from + 1].bytes())
        }),
{
    let from = before.len() as int;
    let result = choose|result: Result<(), Status>| #[trigger]
        did_request_get_info(abi, call.registers.rdi, call.registers.rsi, call.registers.rdx, call.registers.r10, before, log, result) && dispatched == over(result);
    assert(did_request_get_info(abi, call.registers.rdi, call.registers.rsi, call.registers.rdx, call.registers.r10, before, log, result));
    let plan = seq![
        Ask::Plain(Call::CheckOutput { address: call.registers.rsi, length: abi.sizes.request_info as usize }),
        Ask::Plain(Call::RequestRecord { handle: Handle(call.registers.rdi as u32) }),
        Ask::With(Call::CopyOut { address: call.registers.rsi }, log[from + 1].bytes()),
    ];
    if call.registers.rdi <= u32::MAX {
        lemma_ran(log, from, plan, result);
        assert(log[from + 1].ask == plan[1]);
        assert(log[from + 2].ask == plan[2]);
    }
}

/// What is told of all requests, where the caller says, is what the kernel has of them.
pub proof fn law_diagnostics_of_requests_are_told(
    abi: Abi,
    call: SyscallContext,
    before: Seq<Event>,
    log: Seq<Event>,
    dispatched: Result<DispatchResult, Status>,
)
    requires
        called(abi, SyscallNumber::RequestGetDiagnostics, call, before, log, dispatched),
        dispatched is Ok,
    ensures
        ({
            let from = before.len() as int;
            &&& call.registers.rdx == abi.versions.request_diagnostics && call.registers.rsi == abi.sizes.request_diagnostics
            &&& log.len() == from + 3
            &&& log[from + 1].ask == Ask::Plain(Call::RequestDiagnostics)
            &&& log[from + 2].ask == Ask::With(Call::CopyOut { address: call.registers.rdi }, log[from + 1].bytes())
        }),
{
    let from = before.len() as int;
    let result = choose|result: Result<(), Status>| #[trigger]
        did_request_get_diagnostics(abi, call.registers.rdi, call.registers.rsi, call.registers.rdx, before, log, result) && dispatched == over(result);
    assert(did_request_get_diagnostics(abi, call.registers.rdi, call.registers.rsi, call.registers.rdx, before, log, result));
    let plan = seq![
        Ask::Plain(Call::CheckOutput { address: call.registers.rdi, length: abi.sizes.request_diagnostics as usize }),
        Ask::Plain(Call::RequestDiagnostics),
        Ask::With(Call::CopyOut { address: call.registers.rdi }, log[from + 1].bytes()),
    ];
    lemma_ran(log, from, plan, result);
    assert(log[from + 1].ask == plan[1]);
    assert(log[from + 2].ask == plan[2]);
}

/// Items are those of records, in their order: twelve bytes each, the handle, the signals that are
/// waited for and those that are pending.
pub open spec fn items_read(records: Seq<u8>, items: Seq<WaitItem>) -> bool {
    forall|i: int|
        0 <= i < items.len() ==> {
            let one = records.subrange(12 * i, 12 * i + 12);
            &&& (#[trigger] items[i]).handle.0 == le32_at(one, 0)
            &&& items[i].wait_for == le32_at(one, 4)
            &&& items[i].pending == le32_at(one, 8)
        }
}

/// What is told of items is told in their order.
pub(crate) proof fn lemma_items_told(items: Seq<WaitItem>)
    ensures
        wait_records(items).len() == 12 * items.len(),
        items_read(wait_records(items), items),
{
    law_wait_records_follow_one_another(items);
    assert forall|i: int| 0 <= i < items.len() implies {
        let one = wait_records(items).subrange(12 * i, 12 * i + 12);
        &&& (#[trigger] items[i]).handle.0 == le32_at(one, 0)
        &&& items[i].wait_for == le32_at(one, 4)
        &&& items[i].pending == le32_at(one, 8)
    } by {
        law_wait_items_are_described_field_by_field(items[i]);
    }
}

/// A wait looks at the items that its record points at, in their order. If one of them is ready,
/// its place is told where the caller says and the wait is over; if none is, the wait is over once
/// its deadline has come, and goes on until then. What was found of the items is told where they
/// were read.
#[verifier::rlimit(60)]
pub proof fn law_waits_are_as_the_record_says(
    abi: Abi,
    thread: u64,
    args_address: u64,
    output_address: u64,
    now_ns: u64,
    log: Seq<Event>,
    from: int,
    ended: DispatchResult,
)
    requires
        0 <= from,
        wait_submitted(
            abi,
            thread,
            args_address,
            output_address,
            now_ns,
            log,
            from,
            Ok::<DispatchResult, Status>(ended),
        ),
    ensures
        ({
            let record = log[from].bytes();
            let items_address = le64_at(record, 0) as u64;
            let raw_deadline = le64_at(record, 16);
            let (ready, found) = log[from + 4].answer->Poll_0->Ok_0;
            let over = raw_deadline != abi.deadline_infinite && now_ns >= raw_deadline;
            &&& log[from].ask == Ask::Plain(Call::CopyIn { address: args_address, length: 24 })
            &&& log[from + 3].ask matches Ask::Plain(Call::CopyIn { address, length })
            &&& address == items_address && length == 12 * le64_at(record, 8)
            &&& log[from + 4].ask matches Ask::Poll(items)
            &&& items.len() == le64_at(record, 8)
            &&& items_read(log[from + 3].bytes(), items)
            &&& ready is Some ==> {
                &&& ended == DispatchResult::Complete(Status::Success)
                &&& log.len() == from + 7
                &&& log[from + 5].ask matches Ask::With(Call::CopyOut { address: back }, told)
                &&& back == items_address && items_read(told, found)
                &&& told_number(log[from + 6], output_address, ready->Some_0 as u64)
            }
            &&& ready is None && over ==> {
                &&& ended == DispatchResult::Complete(Status::TimedOut)
                &&& log.len() == from + 6
                &&& log[from + 5].ask matches Ask::With(Call::CopyOut { address: back }, told)
                &&& back == items_address && items_read(told, found)
            }
            &&& ready is None && !over ==> {
                &&& ended == DispatchResult::Blocked
                &&& log.len() == from + 6
                &&& log[from + 5].ask matches Ask::BlockWait { thread: blocked, wait }
                &&& blocked == thread
                &&& wait.items == found
                &&& wait.items_address == items_address
                &&& wait.output_address == output_address
                &&& wait.completion is None
                &&& wait.deadline == if raw_deadline == abi.deadline_infinite {
                    WaitDeadline::Infinite
                } else {
                    WaitDeadline::At(raw_deadline as u64)
                }
            }
        }),
{
    let result = Ok::<DispatchResult, Status>(ended);
    let record = log[from].bytes();
    law_waits_read_field_by_field(abi, record);
    lemma_fields_fit(record);
    let args = wait_args_in(abi, record)->Ok_0;
    let checks = wait_checks(args, output_address);
    lemma_passed(log, from + 1, checks);
    assert(log[from + 3].ask == checks[2]);
    let raw = log[from + 3].bytes();
    let count = (args.items_len / 12) as nat;
    law_wait_items_follow_one_another(abi, raw, count);
    let items = wait_items_in(abi, raw, count)->Ok_0;
    assert forall|i: int| 0 <= i < items.len() implies {
        let one = raw.subrange(12 * i, 12 * i + 12);
        &&& (#[trigger] items[i]).handle.0 == le32_at(one, 0)
        &&& items[i].wait_for == le32_at(one, 4)
        &&& items[i].pending == le32_at(one, 8)
    } by {
        law_wait_items_read_as_they_are_written(abi, raw.subrange(12 * i, 12 * i + 12));
    }
    let (ready, found) = log[from + 4].answer->Poll_0->Ok_0;
    lemma_items_told(found);
    let completion = if ready is Some {
        WaitManyCompletion::Ready(ready->Some_0)
    } else {
        WaitManyCompletion::Failed(Status::TimedOut)
    };
    let over = le64_at(record, 16) != abi.deadline_infinite && now_ns >= le64_at(record, 16);
    if ready is Some || over {
        let answers = wait_answers(found, args.items_address, output_address, completion);
        lemma_passed(log, from + 5, answers);
        assert(log[from + 5].ask == answers[0]);
        if ready is Some {
            assert(log[from + 6].ask == answers[1]);
            lemma_told_number(log[from + 6], output_address, ready->Some_0 as u64);
        }
    }
}

/// A wait takes its record and the place of its answer from the caller's registers, and is made for
/// the thread that calls, at the time of the call. What went wrong is told.
pub proof fn law_waits_are_those_of_the_caller(
    abi: Abi,
    thread: u64,
    args_address: u64,
    output_address: u64,
    now_ns: u64,
    before: Seq<Event>,
    log: Seq<Event>,
    dispatched: DispatchResult,
)
    requires
        did_wait_many(
            abi,
            thread,
            args_address,
            output_address,
            now_ns,
            before,
            log,
            dispatched,
        ),
    ensures
        exists|result: Result<DispatchResult, Status>|
            {
                &&& #[trigger] wait_submitted(
                    abi,
                    thread,
                    args_address,
                    output_address,
                    now_ns,
                    log,
                    before.len() as int,
                    result,
                )
                &&& result matches Ok(ended) ==> dispatched == ended
                &&& result matches Err(status) ==> dispatched == DispatchResult::Complete(status)
            },
{
    let result = choose|result: Result<DispatchResult, Status>| #[trigger]
        wait_submitted(
            abi,
            thread,
            args_address,
            output_address,
            now_ns,
            log,
            before.len() as int,
            result,
        ) && dispatched == settled(result);
    assert(wait_submitted(
        abi,
        thread,
        args_address,
        output_address,
        now_ns,
        log,
        before.len() as int,
        result,
    ));
}

/// Place `i` of a batch was checked from its own record and made ready as that record describes.
pub open spec fn slot_as_recorded(
    abi: Abi,
    process_id: u64,
    thread: u64,
    records: Seq<u8>,
    log: Seq<Event>,
    trace: BatchTrace,
    i: int,
) -> bool {
    let one = records.subrange(64 * i, 64 * i + 64);
    trace.ready[i] matches Some(model) ==> request_as_recorded(
        abi,
        process_id,
        thread,
        one,
        log[trace.checks[i]].bytes(),
        log,
        trace.checks[i],
        model,
    ) && log[trace.checks[i]].ask == Ask::Plain(
        Call::CopyIn {
            address: le64_at(one, 24) as u64,
            length: (40 * le32_at(one, 32)) as usize,
        },
    )
}

/// Requests of a batch are checked in order.
proof fn lemma_checks_in_order(
    abi: Abi,
    process_id: u64,
    raw: Seq<u8>,
    log: Seq<Event>,
    at: int,
    trace: BatchTrace,
    i: int,
    j: int,
)
    requires
        0 <= at,
        checked_along(abi, process_id, raw, log, at, trace),
        0 <= i <= j < trace.checks.len(),
    ensures
        at <= trace.checks[i] <= trace.checks[j] <= log.len() || i == j,
        at <= trace.checks[i],
    decreases j,
{
    if j > 0 {
        let k = j - 1;
        assert(request_known(
            abi,
            process_id,
            record(raw, 64, k),
            log,
            trace.checks[k],
            trace.checks[j],
            Ok(trace.requests[k]),
        ));
        if i < j {
            lemma_checks_in_order(abi, process_id, raw, log, at, trace, i, k);
        } else {
            lemma_checks_in_order(abi, process_id, raw, log, at, trace, k, k);
        }
    }
}

/// Requests of a batch are made ready in order.
proof fn lemma_preparations_in_order(
    abi: Abi,
    process_id: u64,
    thread: u64,
    log: Seq<Event>,
    at: int,
    trace: BatchTrace,
    j: int,
)
    requires
        prepared_along(abi, process_id, thread, log, at, trace),
        0 <= j < trace.preparations.len(),
    ensures
        at <= trace.preparations[j],
    decreases j,
{
    if j > 0 {
        let k = j - 1;
        lemma_preparations_in_order(abi, process_id, thread, log, at, trace, k);
        assert(slot_ready(
            abi,
            process_id,
            thread,
            trace.requests[k],
            log,
            trace.preparations[k],
            trace.preparations[j],
            trace.ready[k],
        ));
    }
}

/// What goes to the broker of a batch is what each of its records describes, in their order.
#[verifier::rlimit(60)]
pub proof fn law_batches_are_submitted_as_the_records_say(
    abi: Abi,
    process_id: u64,
    thread: u64,
    head: super::request_wire::BatchHead,
    raw: Seq<u8>,
    now_ns: u64,
    log: Seq<Event>,
    at: int,
    trace: BatchTrace,
    result: Result<(), Status>,
    i: int,
)
    requires
        0 <= at,
        batch_along(abi, process_id, thread, head, raw, now_ns, log, at, trace, result),
        result is Ok,
        0 <= i < trace.ready.len(),
    ensures
        trace.requests.len() == head.count,
        trace.ready.len() == head.count,
        slot_as_recorded(abi, process_id, thread, raw, log, trace, i),
        trace.ready[i] is None <==> le32_at(raw.subrange(64 * i, 64 * i + 64), 12)
            == abi.operations.nop || le32_at(raw.subrange(64 * i, 64 * i + 64), 16)
            == abi.modes.inline_only,
{
    let place = trace.checks.last();
    let one = raw.subrange(64 * i, 64 * i + 64);
    assert(record(raw, 64, i) == one);
    let next = i + 1;
    assert(request_known(
        abi,
        process_id,
        one,
        log,
        trace.checks[i],
        trace.checks[next],
        Ok(trace.requests[i]),
    ));
    law_requests_read_field_by_field(abi, one);
    lemma_fields_fit(one);
    lemma_checks_in_order(abi, process_id, raw, log, at, trace, 0, i);
    lemma_checks_in_order(
        abi,
        process_id,
        raw,
        log,
        at,
        trace,
        next,
        trace.checks.len() - 1,
    );
    lemma_preparations_in_order(abi, process_id, thread, log, place + 1, trace, i);
    assert(slot_ready(
        abi,
        process_id,
        thread,
        trace.requests[i],
        log,
        trace.preparations[i],
        trace.preparations[next],
        trace.ready[i],
    ));
    if trace.ready[i] is Some {
        lemma_request(
            abi,
            process_id,
            thread,
            one,
            trace.requests[i],
            trace.ready[i]->Some_0,
            log,
            trace.checks[i],
            trace.checks[next],
            trace.preparations[i],
            trace.preparations[next],
        );
    }
}

/// Requests of a batch that go to the broker go in the order in which they stand in it.
pub proof fn law_batches_keep_their_order(ready: Seq<Option<RequestModel>>)
    ensures
        sent(ready).len() == places(ready).len(),
        forall|i: int|
            0 <= i < places(ready).len() ==> {
                let place = #[trigger] places(ready)[i];
                &&& 0 <= place < ready.len()
                &&& ready[place] == Some(sent(ready)[i])
            },
        forall|i: int, j: int|
            0 <= i < j < places(ready).len() ==> #[trigger] places(ready)[i] < #[trigger] places(
                ready,
            )[j],
        forall|k: int|
            0 <= k < ready.len() && (#[trigger] ready[k]) is Some ==> places(ready).contains(k),
    decreases ready.len(),
{
    if ready.len() > 0 {
        let front = ready.drop_last();
        law_batches_keep_their_order(front);
        let last = ready.len() - 1;
        if ready.last() is Some {
            assert(places(ready) == places(front).push(last));
            assert(places(ready)[places(front).len() as int] == last);
        }
        assert forall|k: int| 0 <= k < ready.len() && (
        #[trigger] ready[k]) is Some implies places(ready).contains(k) by {
            if k < last {
                assert(front[k] == ready[k]);
                let i = choose|i: int| 0 <= i < places(front).len() && places(front)[i] == k;
                assert(places(ready)[i] == k);
            }
        }
        assert forall|i: int| 0 <= i < places(ready).len() implies {
            let place = #[trigger] places(ready)[i];
            &&& 0 <= place < ready.len()
            &&& ready[place] == Some(sent(ready)[i])
        } by {
            if i < places(front).len() {
                assert(places(ready)[i] == places(front)[i]);
                assert(front[places(front)[i]] == ready[places(front)[i]]);
            }
        }
        assert forall|i: int, j: int| 0 <= i < j < places(ready).len() implies #[trigger] places(
            ready,
        )[i] < #[trigger] places(ready)[j] by {
            if j < places(front).len() {
                assert(places(ready)[i] == places(front)[i]);
                assert(places(ready)[j] == places(front)[j]);
            } else {
                assert(places(ready)[i] == places(front)[i]);
            }
        }
    }
}

/// What is told of a batch stands in the order of the batch: a request that went to the broker is
/// told by its own handle and state, one that does nothing is told as complete, and any other as
/// pending without a handle.
pub proof fn law_batches_are_told_of_in_their_order(
    abi: Abi,
    trace: BatchTrace,
    log: Seq<Event>,
    at: int,
    count: nat,
)
    requires
        count <= places(trace.ready).len(),
        trace.ready.len() == trace.requests.len(),
    ensures
        ({
            let outputs = outputs_after(abi, trace, log, at, count);
            &&& outputs.len() == trace.requests.len()
            &&& forall|i: int|
                0 <= i < count ==> {
                    let place = #[trigger] places(trace.ready)[i];
                    let info = log[at + 2 * i + 1].answer->RequestInfo_0->Some_0;
                    &&& outputs[place].request == log[at + 2 * i].handle()
                    &&& outputs[place].state == info.state
                    &&& outputs[place].result == info.result
                    &&& outputs[place].result_flags == info.result_flags
                    &&& outputs[place].bytes_transferred == info.bytes_transferred
                }
            &&& forall|k: int|
                0 <= k < outputs.len() && trace.ready[k] is None ==> {
                    &&& (#[trigger] outputs[k]).request == abi.invalid_handle
                    &&& outputs[k].bytes_transferred == 0
                    &&& outputs[k].state == if trace.requests[k].head.operation
                        == RequestOperation::Nop {
                        abi.request_states.completed
                    } else {
                        abi.request_states.pending
                    }
                }
        }),
    decreases count,
{
    law_batches_keep_their_order(trace.ready);
    if count > 0 {
        let before = (count - 1) as nat;
        law_batches_are_told_of_in_their_order(abi, trace, log, at, before);
        let last = count - 1;
        let earlier = outputs_after(abi, trace, log, at, before);
        let outputs = outputs_after(abi, trace, log, at, count);
        let changed = places(trace.ready)[last];
        assert forall|k: int| 0 <= k < outputs.len() && trace.ready[k] is None implies {
            &&& (#[trigger] outputs[k]).request == abi.invalid_handle
            &&& outputs[k].bytes_transferred == 0
            &&& outputs[k].state == if trace.requests[k].head.operation == RequestOperation::Nop {
                abi.request_states.completed
            } else {
                abi.request_states.pending
            }
        } by {
            assert(k != changed);
            assert(outputs[k] == earlier[k]);
        }
        assert forall|i: int| 0 <= i < count implies {
            let place = #[trigger] places(trace.ready)[i];
            let info = log[at + 2 * i + 1].answer->RequestInfo_0->Some_0;
            &&& outputs[place].request == log[at + 2 * i].handle()
            &&& outputs[place].state == info.state
            &&& outputs[place].result == info.result
            &&& outputs[place].result_flags == info.result_flags
            &&& outputs[place].bytes_transferred == info.bytes_transferred
        } by {
            let place = places(trace.ready)[i];
            if i < last {
                assert(place < changed);
                assert(outputs[place] == earlier[place]);
            }
        }
    }
}

/// A batch is read where its record says, for the process and the thread that call, at the time of
/// the call; what came of it is told where the record says, for all of its requests.
#[verifier::rlimit(60)]
pub proof fn law_batches_are_read_and_told_where_the_record_says(
    abi: Abi,
    call: SyscallContext,
    before: Seq<Event>,
    log: Seq<Event>,
    dispatched: Result<DispatchResult, Status>,
)
    requires
        called(abi, SyscallNumber::RequestSubmitBatch, call, before, log, dispatched),
        dispatched is Ok,
    ensures
        ({
            let from = before.len() as int;
            let record = log[from].bytes();
            &&& log[from].ask == Ask::Plain(Call::CopyIn { address: call.registers.rdi, length: 32 })
            &&& log[from + 1].ask matches Ask::Plain(Call::CheckOutput { address: back, length: room })
            &&& back == le64_at(record, 24) && room == 24 * le32_at(record, 16)
            &&& log[from + 2].ask matches Ask::Plain(Call::CopyIn { address, length })
            &&& address == le64_at(record, 8) && length == 64 * le32_at(record, 16)
            &&& log.last().ask matches Ask::With(Call::CopyOut { address: told_at }, told)
            &&& told_at == le64_at(record, 24)
            &&& exists|trace: BatchTrace, head: super::request_wire::BatchHead, end: Result<(), Status>|
                {
                    &&& #[trigger] batch_along(
                        abi,
                        call.process_id,
                        call.thread,
                        head,
                        log[from + 2].bytes(),
                        call.now_ns,
                        log,
                        from + 3,
                        trace,
                        end,
                    )
                    &&& end is Ok
                    &&& head.count == le32_at(record, 16)
                    &&& trace.requests.len() == head.count
                }
        }),
{
    let from = before.len() as int;
    let result = choose|result: Result<(), Status>| #[trigger]
        did_request_submit_batch(abi, call.process_id, call.thread, call.registers.rdi, call.now_ns, before, log, result) && dispatched == over(result);
    assert(did_request_submit_batch(abi, call.process_id, call.thread, call.registers.rdi, call.now_ns, before, log, result));
    let record = log[from].bytes();
    law_batches_read_field_by_field(abi, record);
    let head = batch_in(abi, record)->Ok_0;
    let reads = batch_reads(head);
    lemma_passed(log, from + 1, reads);
    assert(log[from + 1].ask == reads[0]);
    assert(log[from + 2].ask == reads[1]);
    let trace = choose|trace: BatchTrace| #[trigger]
        batch_along(
            abi,
            call.process_id,
            call.thread,
            head,
            log[from + 2].bytes(),
            call.now_ns,
            log,
            from + 3,
            trace,
            result,
        );
    if trace.requests.len() < head.count {
        assert(check_stopped(abi, call.process_id, log[from + 2].bytes(), log, trace, result));
    }
    assert(trace.ready.len() >= trace.requests.len());
    assert(batch_sent(
        abi,
        trace,
        head.outputs_address,
        call.now_ns,
        log,
        trace.preparations.last(),
        result,
    ));
}

} // verus!
