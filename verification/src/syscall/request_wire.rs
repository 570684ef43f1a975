//! Requests, as a process writes them down and as they are checked.
use vstd::prelude::*;

use crate::bytes::{
    le32_at, le64_at, le_bytes, pattern32, push_i32, push_u32, push_u64, read_i64, read_u32,
    read_u64, signed64,
};

use super::abi::{
    checked_bits, contains_bits, has_bits, within, Abi, Handle, RequestBufferKind,
    RequestCompletionMode, RequestOperation, Status, PAGE_SIZE,
};
use super::wire::{array_bytes, checked_array_bytes, list_of, record};

verus! {

pub const REQUEST_BUFFER_SIZE: usize = 40;

pub const REQUEST_SUBMIT_ARGS_SIZE: usize = 64;

pub const REQUEST_SUBMIT_OUTPUT_SIZE: usize = 24;

pub const REQUEST_SUBMIT_BATCH_ARGS_SIZE: usize = 32;

/// The target of requests on the file system as a whole.
pub const REQUEST_TARGET_FILESYSTEM_ROOT: u64 = 0xffff_ffff_ffff_ffff;

/// The target of requests to play sound.
pub const REQUEST_TARGET_AUDIO: u64 = 0xffff_ffff_ffff_fffe;

/// What sets the targets of synthetic requests apart.
pub const REQUEST_TARGET_SYNTHETIC_TAG: u64 = 0x5359_4e54_0000_0000;

/// A request, as a process writes it down.
#[derive(Clone, Copy, Debug, PartialEq, Eq, Structural)]
pub struct RequestSubmitArgs {
    pub target: Handle,
    pub operation: u32,
    pub completion_mode: u32,
    pub flags: u32,
    pub buffers_address: u64,
    pub buffer_count: u32,
    pub operation_argument: u64,
    pub deadline_ns: i64,
    pub user_data: u64,
}

/// A record of a request.
pub open spec fn submit_args_in(abi: Abi, raw: Seq<u8>) -> Result<RequestSubmitArgs, Status> {
    if raw.len() != REQUEST_SUBMIT_ARGS_SIZE || le32_at(raw, 0) != abi.versions.request_submit_args
        || le32_at(raw, 4) != REQUEST_SUBMIT_ARGS_SIZE || le32_at(raw, 36) != 0 {
        Err(Status::InvalidArgument)
    } else {
        Ok(
            RequestSubmitArgs {
                target: Handle(le32_at(raw, 8) as u32),
                operation: le32_at(raw, 12) as u32,
                completion_mode: le32_at(raw, 16) as u32,
                flags: le32_at(raw, 20) as u32,
                buffers_address: le64_at(raw, 24) as u64,
                buffer_count: le32_at(raw, 32) as u32,
                operation_argument: le64_at(raw, 40) as u64,
                deadline_ns: signed64(le64_at(raw, 48)) as i64,
                user_data: le64_at(raw, 56) as u64,
            },
        )
    }
}

/// Reads a record of a request.
pub fn parse_request_submit_args(abi: &Abi, raw: &[u8]) -> (result: Result<
    RequestSubmitArgs,
    Status,
>)
    ensures
        result == submit_args_in(*abi, raw@),
{
    if raw.len() != REQUEST_SUBMIT_ARGS_SIZE {
        return Err(Status::InvalidArgument);
    }
    if read_u32(raw, 0) != abi.versions.request_submit_args || read_u32(raw, 4)
        != REQUEST_SUBMIT_ARGS_SIZE as u32 || read_u32(raw, 36) != 0 {
        return Err(Status::InvalidArgument);
    }
    Ok(
        RequestSubmitArgs {
            target: Handle(read_u32(raw, 8)),
            operation: read_u32(raw, 12),
            completion_mode: read_u32(raw, 16),
            flags: read_u32(raw, 20),
            buffers_address: read_u64(raw, 24),
            buffer_count: read_u32(raw, 32),
            operation_argument: read_u64(raw, 40),
            deadline_ns: read_i64(raw, 48),
            user_data: read_u64(raw, 56),
        },
    )
}

/// A buffer of a request.
#[derive(Clone, Copy, Debug, PartialEq, Eq, Structural)]
pub struct RequestBuffer {
    pub kind: RequestBufferKind,
    pub flags: u32,
    pub address: u64,
    pub length: u64,
    pub handle: Handle,
    pub offset: u64,
}

/// A record of a buffer: of a known kind, for some use, not empty, and with no field set
/// that its kind does not use.
pub open spec fn buffer_in(abi: Abi, raw: Seq<u8>) -> Result<RequestBuffer, Status> {
    let flags = le32_at(raw, 4) as u32;
    let address = le64_at(raw, 8) as u64;
    let length = le64_at(raw, 16) as u64;
    let handle = Handle(le32_at(raw, 24) as u32);
    let offset = le64_at(raw, 32) as u64;
    match abi.buffer_kinds.kind(le32_at(raw, 0) as u32) {
        None => Err(Status::InvalidArgument),
        Some(kind) => {
            let buffer = RequestBuffer { kind, flags, address, length, handle, offset };
            let fields = match kind {
                RequestBufferKind::SharedMemory => address == 0 && abi.valid(handle),
                _ => address != 0 && !abi.valid(handle) && offset == 0,
            };
            if raw.len() == REQUEST_BUFFER_SIZE && within(flags, abi.buffer_flags.all) && flags
                != 0 && length != 0 && le32_at(raw, 28) == 0 && fields {
                Ok(buffer)
            } else {
                Err(Status::InvalidArgument)
            }
        },
    }
}

/// Reads a record of a buffer.
pub fn parse_request_buffer(abi: &Abi, raw: &[u8]) -> (result: Result<RequestBuffer, Status>)
    ensures
        result == buffer_in(*abi, raw@),
{
    if raw.len() != REQUEST_BUFFER_SIZE {
        return Err(Status::InvalidArgument);
    }
    let kind: RequestBufferKind = match abi.buffer_kinds.decode(read_u32(raw, 0)) {
        Some(kind) => kind,
        None => {
            return Err(Status::InvalidArgument);
        },
    };
    let flags: u32 = match checked_bits(read_u32(raw, 4), abi.buffer_flags.all) {
        Some(flags) => flags,
        None => {
            return Err(Status::InvalidArgument);
        },
    };
    let address: u64 = read_u64(raw, 8);
    let length: u64 = read_u64(raw, 16);
    let handle: Handle = Handle(read_u32(raw, 24));
    let offset: u64 = read_u64(raw, 32);
    if flags == 0 || length == 0 || read_u32(raw, 28) != 0 {
        return Err(Status::InvalidArgument);
    }
    match kind {
        RequestBufferKind::Copy | RequestBufferKind::Pinned => {
            if address == 0 || abi.is_valid(handle) || offset != 0 {
                return Err(Status::InvalidArgument);
            }
        },
        RequestBufferKind::SharedMemory => {
            if address != 0 || !abi.is_valid(handle) {
                return Err(Status::InvalidArgument);
            }
        },
    }
    Ok(RequestBuffer { kind, flags, address, length, handle, offset })
}

/// The first refused record of a buffer, among the first `count`.
pub open spec fn buffers_in(abi: Abi, raw: Seq<u8>, count: nat) -> Result<Seq<RequestBuffer>, Status>
    decreases count,
{
    if count == 0 {
        Ok(Seq::empty())
    } else {
        match buffers_in(abi, raw, (count - 1) as nat) {
            Err(status) => Err(status),
            Ok(before) => match buffer_in(
                abi,
                record(raw, REQUEST_BUFFER_SIZE as int, count - 1),
            ) {
                Err(status) => Err(status),
                Ok(found) => Ok(before.push(found)),
            },
        }
    }
}

/// A refused record refuses the list.
proof fn lemma_buffers_fail(abi: Abi, raw: Seq<u8>, short: nat, long: nat)
    requires
        short <= long,
        buffers_in(abi, raw, short) is Err,
    ensures
        buffers_in(abi, raw, long) == buffers_in(abi, raw, short),
    decreases long,
{
    if short < long {
        lemma_buffers_fail(abi, raw, short, (long - 1) as nat);
    }
}

/// Reads the records of buffers; what is left over of the last one is not looked at.
pub fn parse_request_buffers(abi: &Abi, raw: &[u8]) -> (result: Result<Vec<RequestBuffer>, Status>)
    ensures
        list_of(result) == buffers_in(*abi, raw@, (raw@.len() / 40) as nat),
{
    let count: usize = raw.len() / REQUEST_BUFFER_SIZE;
    let mut buffers: Vec<RequestBuffer> = Vec::new();
    let mut index: usize = 0;
    while index < count
        invariant
            index <= count,
            count * 40 <= raw.len(),
            count == raw@.len() / 40,
            buffers_in(*abi, raw@, index as nat) == Ok::<Seq<RequestBuffer>, Status>(buffers@),
        decreases count - index,
    {
        let from: usize = index * REQUEST_BUFFER_SIZE;
        let one: &[u8] = vstd::slice::slice_subrange(raw, from, from + REQUEST_BUFFER_SIZE);
        assert(one@ == record(raw@, 40, index as int));
        match parse_request_buffer(abi, one) {
            Err(status) => {
                proof {
                    lemma_buffers_fail(*abi, raw@, (index + 1) as nat, count as nat);
                }
                return Err(status);
            },
            Ok(buffer) => {
                buffers.push(buffer);
            },
        }
        index += 1;
    }
    Ok(buffers)
}

/// A deadline, if there is one.
pub open spec fn deadline_in(abi: Abi, raw: i64) -> Result<Option<u64>, Status> {
    if raw == abi.deadline_infinite {
        Ok(None)
    } else if raw < 0 {
        Err(Status::InvalidArgument)
    } else {
        Ok(Some(raw as u64))
    }
}

/// Reads a deadline, if there is one.
pub fn parse_request_deadline(abi: &Abi, raw: i64) -> (result: Result<Option<u64>, Status>)
    ensures
        result == deadline_in(*abi, raw),
{
    if raw == abi.deadline_infinite {
        Ok(None)
    } else if raw < 0 {
        Err(Status::InvalidArgument)
    } else {
        Ok(Some(raw as u64))
    }
}

/// A process may submit the operation itself.
pub open spec fn public_operation(operation: RequestOperation) -> bool {
    match operation {
        RequestOperation::Nop => true,
        RequestOperation::FilesystemRead => true,
        RequestOperation::FilesystemWrite => true,
        RequestOperation::FilesystemSync => true,
        RequestOperation::AudioWrite => true,
        _ => false,
    }
}

/// Checks that a process may submit the operation itself.
pub fn validate_public_request_operation(operation: RequestOperation) -> (result: Result<(), Status>)
    ensures
        result == (if public_operation(operation) {
            Ok(())
        } else {
            Err(Status::AccessDenied)
        }),
{
    match operation {
        RequestOperation::FilesystemOpen
        | RequestOperation::FilesystemTruncate
        | RequestOperation::FilesystemNamespace
        | RequestOperation::Synthetic => Err(Status::AccessDenied),
        RequestOperation::Nop
        | RequestOperation::FilesystemRead
        | RequestOperation::FilesystemWrite
        | RequestOperation::FilesystemSync
        | RequestOperation::AudioWrite => Ok(()),
    }
}

/// Buffers that go with an operation.
pub open spec fn operation_buffers(
    abi: Abi,
    operation: RequestOperation,
    operation_argument: u64,
    buffers: Seq<RequestBuffer>,
) -> Result<(), Status> {
    let fits = match operation {
        RequestOperation::Nop => buffers.len() == 0 && operation_argument == 0,
        RequestOperation::FilesystemSync => buffers.len() == 0 && operation_argument == 0,
        RequestOperation::FilesystemRead => buffers.len() == 1 && within(
            buffers[0].flags,
            abi.buffer_flags.all,
        ) && buffers[0].flags == abi.buffer_flags.write,
        RequestOperation::FilesystemWrite => buffers.len() == 1 && within(
            buffers[0].flags,
            abi.buffer_flags.all,
        ) && buffers[0].flags == abi.buffer_flags.read,
        RequestOperation::AudioWrite => buffers.len() == 1 && within(
            buffers[0].flags,
            abi.buffer_flags.all,
        ) && buffers[0].flags == abi.buffer_flags.read,
        _ => true,
    };
    match operation {
        RequestOperation::FilesystemOpen => Err(Status::AccessDenied),
        RequestOperation::FilesystemTruncate => Err(Status::AccessDenied),
        RequestOperation::FilesystemNamespace => Err(Status::AccessDenied),
        _ => if fits {
            Ok(())
        } else {
            Err(Status::InvalidArgument)
        },
    }
}

/// Checks that the buffers go with the operation.
pub fn validate_operation_buffers(
    abi: &Abi,
    operation: RequestOperation,
    operation_argument: u64,
    buffers: &[RequestBuffer],
) -> (result: Result<(), Status>)
    ensures
        result == operation_buffers(*abi, operation, operation_argument, buffers@),
{
    match operation {
        RequestOperation::Nop | RequestOperation::FilesystemSync => {
            if buffers.len() != 0 || operation_argument != 0 {
                return Err(Status::InvalidArgument);
            }
        },
        RequestOperation::FilesystemRead => {
            if buffers.len() != 1 || checked_bits(buffers[0].flags, abi.buffer_flags.all).is_none()
                || buffers[0].flags != abi.buffer_flags.write {
                return Err(Status::InvalidArgument);
            }
        },
        RequestOperation::FilesystemWrite | RequestOperation::AudioWrite => {
            if buffers.len() != 1 || checked_bits(buffers[0].flags, abi.buffer_flags.all).is_none()
                || buffers[0].flags != abi.buffer_flags.read {
                return Err(Status::InvalidArgument);
            }
        },
        RequestOperation::FilesystemOpen
        | RequestOperation::FilesystemTruncate
        | RequestOperation::FilesystemNamespace => {
            return Err(Status::AccessDenied);
        },
        RequestOperation::Synthetic => {},
    }
    Ok(())
}

/// A file or directory, by its node and the generation of that.
#[derive(Clone, Copy, Debug, PartialEq, Eq, Structural)]
pub struct Node {
    pub node_id: u32,
    pub generation: u32,
}

/// The target of requests on a node.
pub open spec fn node_target(node: Node) -> u64 {
    (node.generation * 0x1_0000_0000 + node.node_id) as u64
}

/// The target of requests on a node.
pub fn filesystem_request_target(node: Node) -> (target: u64)
    ensures
        target == node_target(node),
{
    node.generation as u64 * 0x1_0000_0000 + node.node_id as u64
}

/// Different nodes have different targets.
pub proof fn law_targets_identify_nodes(left: Node, right: Node)
    ensures
        node_target(left) == node_target(right) ==> left == right,
{
}

/// The target of requests on a directory; none stands for the root.
pub open spec fn directory_target(directory: Option<Node>) -> u64 {
    match directory {
        Some(node) => node_target(node),
        None => REQUEST_TARGET_FILESYSTEM_ROOT,
    }
}

/// The target of requests on a directory.
pub fn directory_request_target(directory: Option<Node>) -> (target: u64)
    ensures
        target == directory_target(directory),
{
    match directory {
        Some(node) => filesystem_request_target(node),
        None => REQUEST_TARGET_FILESYSTEM_ROOT,
    }
}

/// The bits turned left by 17.
pub open spec fn turned(value: u64) -> u64 {
    (value << 17) | (value >> 47)
}

/// The target of a synthetic request: never zero.
pub open spec fn synthetic_target(process_id: u64, operation_argument: u64) -> u64 {
    let identity = process_id ^ REQUEST_TARGET_SYNTHETIC_TAG ^ turned(operation_argument);
    if identity == 0 {
        REQUEST_TARGET_SYNTHETIC_TAG
    } else {
        identity
    }
}

/// The target of a synthetic request.
pub fn synthetic_request_target(process_id: u64, operation_argument: u64) -> (target: u64)
    ensures
        target == synthetic_target(process_id, operation_argument),
        target != 0,
{
    let turned: u64 = (operation_argument << 17) | (operation_argument >> 47);
    let identity: u64 = process_id ^ REQUEST_TARGET_SYNTHETIC_TAG ^ turned;
    if identity == 0 {
        REQUEST_TARGET_SYNTHETIC_TAG
    } else {
        identity
    }
}

/// What the broker has for one request at most.
#[derive(Clone, Copy, Debug, PartialEq, Eq, Structural)]
pub struct RequestLimits {
    pub copied_bytes_per_request: usize,
    pub pinned_pages_per_request: usize,
    pub shared_bytes_per_request: usize,
}

/// What a request takes.
#[derive(Clone, Copy, Debug, PartialEq, Eq, Structural)]
pub struct RequestResources {
    pub copied_bytes: usize,
    pub pinned_pages: usize,
    pub shared_bytes: usize,
}

/// Pages that a range touches.
pub open spec fn pages_touched(address: u64, length: u64) -> int {
    (address + length - 1) / 4096 - address / 4096 + 1
}

/// What the first `count` buffers take, if it is representable.
pub open spec fn resources_of(buffers: Seq<RequestBuffer>, count: nat) -> Option<(int, int, int)>
    decreases count,
{
    if count == 0 {
        Some((0, 0, 0))
    } else {
        match resources_of(buffers, (count - 1) as nat) {
            None => None,
            Some((copied, pinned, shared)) => {
                let buffer = buffers[count - 1];
                if buffer.length > usize::MAX {
                    None
                } else {
                    match buffer.kind {
                        RequestBufferKind::Copy => if buffer.address + buffer.length - 1 > u64::MAX
                            || copied + buffer.length > usize::MAX {
                            None
                        } else {
                            Some((copied + buffer.length, pinned, shared))
                        },
                        RequestBufferKind::Pinned => if buffer.address + buffer.length - 1
                            > u64::MAX || pages_touched(buffer.address, buffer.length) > usize::MAX
                            || pinned + pages_touched(buffer.address, buffer.length) > usize::MAX {
                            None
                        } else {
                            Some((
                                copied,
                                pinned + pages_touched(buffer.address, buffer.length),
                                shared,
                            ))
                        },
                        RequestBufferKind::SharedMemory => if buffer.offset + buffer.length
                            > u64::MAX || shared + buffer.length > usize::MAX {
                            None
                        } else {
                            Some((copied, pinned, shared + buffer.length))
                        },
                    }
                }
            },
        }
    }
}

/// Whether the broker has what the buffers take.
pub open spec fn resources_checked(buffers: Seq<RequestBuffer>, limits: RequestLimits) -> Result<
    (),
    Status,
> {
    match resources_of(buffers, buffers.len()) {
        None => Err(Status::OutOfRange),
        Some((copied, pinned, shared)) => if copied > limits.copied_bytes_per_request || pinned
            > limits.pinned_pages_per_request || shared > limits.shared_bytes_per_request {
            Err(Status::ResourceLimit)
        } else {
            Ok(())
        },
    }
}

/// What is not representable stays so.
proof fn lemma_resources_fail(buffers: Seq<RequestBuffer>, short: nat, long: nat)
    requires
        short <= long,
        resources_of(buffers, short) is None,
    ensures
        resources_of(buffers, long) is None,
    decreases long,
{
    if short < long {
        lemma_resources_fail(buffers, short, (long - 1) as nat);
    }
}

/// Takes one buffer into account.
fn account_buffer(used: RequestResources, buffer: &RequestBuffer) -> (result: Option<
    RequestResources,
>)
    requires
        buffer.length > 0,
    ensures
        ({
            let one = seq![*buffer];
            match result {
                None => buffer.length > usize::MAX || match buffer.kind {
                    RequestBufferKind::Copy => buffer.address + buffer.length - 1 > u64::MAX
                        || used.copied_bytes + buffer.length > usize::MAX,
                    RequestBufferKind::Pinned => buffer.address + buffer.length - 1 > u64::MAX
                        || used.pinned_pages + pages_touched(buffer.address, buffer.length)
                        > usize::MAX,
                    RequestBufferKind::SharedMemory => buffer.offset + buffer.length > u64::MAX
                        || used.shared_bytes + buffer.length > usize::MAX,
                },
                Some(total) => buffer.length <= usize::MAX && match buffer.kind {
                    RequestBufferKind::Copy => buffer.address + buffer.length - 1 <= u64::MAX
                        && total == (RequestResources {
                        copied_bytes: total.copied_bytes,
                        ..used
                    }) && total.copied_bytes == used.copied_bytes + buffer.length,
                    RequestBufferKind::Pinned => buffer.address + buffer.length - 1 <= u64::MAX
                        && total == (RequestResources {
                        pinned_pages: total.pinned_pages,
                        ..used
                    }) && total.pinned_pages == used.pinned_pages + pages_touched(
                        buffer.address,
                        buffer.length,
                    ),
                    RequestBufferKind::SharedMemory => buffer.offset + buffer.length <= u64::MAX
                        && total == (RequestResources {
                        shared_bytes: total.shared_bytes,
                        ..used
                    }) && total.shared_bytes == used.shared_bytes + buffer.length,
                },
            }
        }),
{
    if buffer.length > usize::MAX as u64 {
        return None;
    }
    let length: usize = buffer.length as usize;
    match buffer.kind {
        RequestBufferKind::Copy => {
            if buffer.address > u64::MAX - (buffer.length - 1) {
                return None;
            }
            match used.copied_bytes.checked_add(length) {
                None => None,
                Some(copied_bytes) => Some(RequestResources { copied_bytes, ..used }),
            }
        },
        RequestBufferKind::Pinned => {
            if buffer.address > u64::MAX - (buffer.length - 1) {
                return None;
            }
            let end: u64 = buffer.address + (buffer.length - 1);
            let pages: u64 = end / PAGE_SIZE - buffer.address / PAGE_SIZE + 1;
            if pages > usize::MAX as u64 {
                return None;
            }
            match used.pinned_pages.checked_add(pages as usize) {
                None => None,
                Some(pinned_pages) => Some(RequestResources { pinned_pages, ..used }),
            }
        },
        RequestBufferKind::SharedMemory => {
            if buffer.offset > u64::MAX - buffer.length {
                return None;
            }
            match used.shared_bytes.checked_add(length) {
                None => None,
                Some(shared_bytes) => Some(RequestResources { shared_bytes, ..used }),
            }
        },
    }
}

/// Checks that the broker has what the buffers take.
pub fn preflight_request_resources(buffers: &[RequestBuffer], limits: RequestLimits) -> (result:
    Result<(), Status>)
    requires
        forall|i: int| 0 <= i < buffers@.len() ==> (#[trigger] buffers@[i]).length > 0,
    ensures
        result == resources_checked(buffers@, limits),
{
    let mut used: RequestResources = RequestResources {
        copied_bytes: 0,
        pinned_pages: 0,
        shared_bytes: 0,
    };
    let mut index: usize = 0;
    while index < buffers.len()
        invariant
            index <= buffers@.len(),
            forall|i: int| 0 <= i < buffers@.len() ==> (#[trigger] buffers@[i]).length > 0,
            resources_of(buffers@, index as nat) == Some(
                (used.copied_bytes as int, used.pinned_pages as int, used.shared_bytes as int),
            ),
        decreases buffers@.len() - index,
    {
        match account_buffer(used, &buffers[index]) {
            None => {
                proof {
                    lemma_resources_fail(buffers@, (index + 1) as nat, buffers@.len());
                }
                return Err(Status::OutOfRange);
            },
            Some(total) => {
                used = total;
            },
        }
        index += 1;
    }
    if used.copied_bytes > limits.copied_bytes_per_request || used.pinned_pages
        > limits.pinned_pages_per_request || used.shared_bytes > limits.shared_bytes_per_request {
        return Err(Status::ResourceLimit);
    }
    Ok(())
}

/// Rights that a buffer's use of shared memory asks for.
pub open spec fn buffer_rights(abi: Abi, flags: u32) -> u32 {
    let read = if has_bits(flags, abi.buffer_flags.read) {
        0u32 | abi.rights.read
    } else {
        0
    };
    if has_bits(flags, abi.buffer_flags.write) {
        read | abi.rights.write
    } else {
        read
    }
}

/// Rights that a buffer's use of shared memory asks for.
pub fn request_buffer_rights(abi: &Abi, flags: u32) -> (rights: u32)
    ensures
        rights == buffer_rights(*abi, flags),
{
    let mut rights: u32 = 0;
    if contains_bits(flags, abi.buffer_flags.read) {
        rights = rights | abi.rights.read;
    }
    if contains_bits(flags, abi.buffer_flags.write) {
        rights = rights | abi.rights.write;
    }
    rights
}

/// How far a request has come, as its submitter is told.
#[derive(Clone, Copy, Debug, PartialEq, Eq, Structural)]
pub struct RequestSubmitOutput {
    pub request: Handle,
    pub state: u32,
    pub result: i32,
    pub result_flags: u32,
    pub bytes_transferred: u64,
}

/// The record of how far a request has come.
pub open spec fn output_record(output: RequestSubmitOutput) -> Seq<u8> {
    le_bytes(output.request.0 as int, 4) + le_bytes(output.state as int, 4) + le_bytes(
        pattern32(output.result as int),
        4,
    ) + le_bytes(output.result_flags as int, 4) + le_bytes(output.bytes_transferred as int, 8)
}

/// Appends the record of how far a request has come.
pub fn push_output(bytes: &mut Vec<u8>, output: RequestSubmitOutput)
    ensures
        final(bytes)@ == old(bytes)@ + output_record(output),
        final(bytes)@.len() == old(bytes)@.len() + REQUEST_SUBMIT_OUTPUT_SIZE,
{
    push_u32(bytes, output.request.0);
    push_u32(bytes, output.state);
    push_i32(bytes, output.result);
    push_u32(bytes, output.result_flags);
    push_u64(bytes, output.bytes_transferred);
    assert(bytes@ =~= old(bytes)@ + output_record(output));
}

/// The records of how far requests have come.
pub open spec fn output_records(outputs: Seq<RequestSubmitOutput>) -> Seq<u8>
    decreases outputs.len(),
{
    if outputs.len() == 0 {
        Seq::empty()
    } else {
        output_records(outputs.drop_last()) + output_record(outputs.last())
    }
}

/// Writes the records of how far requests have come.
pub fn encode_outputs(outputs: &[RequestSubmitOutput]) -> (bytes: Vec<u8>)
    ensures
        bytes@ == output_records(outputs@),
        bytes@.len() == outputs@.len() * REQUEST_SUBMIT_OUTPUT_SIZE,
{
    let mut bytes: Vec<u8> = Vec::new();
    let mut index: usize = 0;
    assert(outputs@.subrange(0, 0) =~= Seq::empty());
    while index < outputs.len()
        invariant
            index <= outputs@.len(),
            bytes@ == output_records(outputs@.subrange(0, index as int)),
            bytes@.len() == index * REQUEST_SUBMIT_OUTPUT_SIZE,
        decreases outputs@.len() - index,
    {
        push_output(&mut bytes, outputs[index]);
        index += 1;
        assert(outputs@.subrange(0, index as int).drop_last() =~= outputs@.subrange(0, index - 1));
    }
    assert(outputs@.subrange(0, outputs@.len() as int) =~= outputs@);
    bytes
}

/// A request that ended at once.
pub open spec fn completed_output(abi: Abi, status: Status) -> RequestSubmitOutput {
    RequestSubmitOutput {
        request: abi.invalid_handle,
        state: abi.request_states.completed,
        result: abi.status.code(status),
        result_flags: 0,
        bytes_transferred: 0,
    }
}

/// A request that ended at once.
pub fn completed_request_output(abi: &Abi, status: Status) -> (output: RequestSubmitOutput)
    ensures
        output == completed_output(*abi, status),
{
    RequestSubmitOutput {
        request: abi.invalid_handle,
        state: abi.request_states.completed,
        result: abi.status.raw(status),
        result_flags: 0,
        bytes_transferred: 0,
    }
}

/// A request that would have to wait.
pub open spec fn pending_output(abi: Abi, request: Handle) -> RequestSubmitOutput {
    RequestSubmitOutput {
        request,
        state: abi.request_states.pending,
        result: abi.status.should_wait,
        result_flags: 0,
        bytes_transferred: 0,
    }
}

/// A request that would have to wait.
pub fn pending_request_output(abi: &Abi, request: Handle) -> (output: RequestSubmitOutput)
    ensures
        output == pending_output(*abi, request),
{
    RequestSubmitOutput {
        request,
        state: abi.request_states.pending,
        result: abi.status.should_wait,
        result_flags: 0,
        bytes_transferred: 0,
    }
}

/// What the broker knows of a request.
#[derive(Clone, Copy, Debug, PartialEq, Eq, Structural)]
pub struct RequestInfo {
    pub state: u32,
    pub result: i32,
    pub result_flags: u32,
    pub bytes_transferred: u64,
}

/// How far a request has come, by what the broker knows.
pub open spec fn info_output(request: Handle, info: RequestInfo) -> RequestSubmitOutput {
    RequestSubmitOutput {
        request,
        state: info.state,
        result: info.result,
        result_flags: info.result_flags,
        bytes_transferred: info.bytes_transferred,
    }
}

/// How far a request has come, by what the broker knows.
pub fn request_output_from_info(request: Handle, info: RequestInfo) -> (output: RequestSubmitOutput)
    ensures
        output == info_output(request, info),
{
    RequestSubmitOutput {
        request,
        state: info.state,
        result: info.result,
        result_flags: info.result_flags,
        bytes_transferred: info.bytes_transferred,
    }
}

/// What a request says, before its buffers and its target are looked at.
#[derive(Clone, Copy, Debug, PartialEq, Eq, Structural)]
pub struct RequestHead {
    pub args: RequestSubmitArgs,
    pub operation: RequestOperation,
    pub completion_mode: RequestCompletionMode,
    pub deadline_ns: Option<u64>,
    /// Bytes of the records of its buffers.
    pub buffer_bytes: usize,
}

/// The first part of a request: what is wrong with it is found in this order.
pub open spec fn head_in(abi: Abi, raw: Seq<u8>) -> Result<RequestHead, Status> {
    match submit_args_in(abi, raw) {
        Err(status) => Err(status),
        Ok(args) => match (
            abi.operations.operation(args.operation),
            abi.modes.mode(args.completion_mode),
            deadline_in(abi, args.deadline_ns),
        ) {
            (Some(operation), Some(completion_mode), Ok(deadline_ns)) => {
                let bytes = array_bytes(
                    args.buffer_count as u64,
                    REQUEST_BUFFER_SIZE,
                    abi.limits.request_buffers as u64,
                    Status::ResourceLimit,
                );
                if !within(args.flags, abi.request_flags) {
                    Err(Status::InvalidArgument)
                } else if !public_operation(operation) {
                    Err(Status::AccessDenied)
                } else if bytes is Err {
                    Err(bytes->Err_0)
                } else if (args.buffer_count == 0) != (args.buffers_address == 0) {
                    Err(Status::InvalidArgument)
                } else {
                    Ok(
                        RequestHead {
                            args,
                            operation,
                            completion_mode,
                            deadline_ns,
                            buffer_bytes: bytes->Ok_0,
                        },
                    )
                }
            },
            _ => Err(Status::InvalidArgument),
        },
    }
}

/// Reads the first part of a request.
pub fn parse_request_head(abi: &Abi, raw: &[u8]) -> (result: Result<RequestHead, Status>)
    ensures
        result == head_in(*abi, raw@),
{
    let args: RequestSubmitArgs = parse_request_submit_args(abi, raw)?;
    let operation: RequestOperation = match abi.operations.decode(args.operation) {
        Some(operation) => operation,
        None => {
            return Err(Status::InvalidArgument);
        },
    };
    let completion_mode: RequestCompletionMode = match abi.modes.decode(args.completion_mode) {
        Some(mode) => mode,
        None => {
            return Err(Status::InvalidArgument);
        },
    };
    if checked_bits(args.flags, abi.request_flags).is_none() {
        return Err(Status::InvalidArgument);
    }
    let deadline_ns: Option<u64> = parse_request_deadline(abi, args.deadline_ns)?;
    validate_public_request_operation(operation)?;
    let buffer_bytes: usize = checked_array_bytes(
        args.buffer_count as u64,
        REQUEST_BUFFER_SIZE,
        abi.limits.request_buffers as u64,
        Status::ResourceLimit,
    )?;
    if (args.buffer_count == 0) != (args.buffers_address == 0) {
        return Err(Status::InvalidArgument);
    }
    Ok(RequestHead { args, operation, completion_mode, deadline_ns, buffer_bytes })
}

/// Where a batch of requests stands.
#[derive(Clone, Copy, Debug, PartialEq, Eq, Structural)]
pub struct BatchHead {
    pub submissions_address: u64,
    pub submissions_len: usize,
    pub count: usize,
    pub outputs_address: u64,
    pub outputs_len: usize,
}

/// A record of a batch.
pub open spec fn batch_in(abi: Abi, raw: Seq<u8>) -> Result<BatchHead, Status> {
    let count = le32_at(raw, 16) as u64;
    let submissions = array_bytes(
        count,
        REQUEST_SUBMIT_ARGS_SIZE,
        abi.limits.request_batch as u64,
        Status::ResourceLimit,
    );
    let outputs = array_bytes(
        count,
        REQUEST_SUBMIT_OUTPUT_SIZE,
        abi.limits.request_batch as u64,
        Status::ResourceLimit,
    );
    if raw.len() != REQUEST_SUBMIT_BATCH_ARGS_SIZE || le32_at(raw, 0)
        != abi.versions.request_submit_batch_args || le32_at(raw, 4)
        != REQUEST_SUBMIT_BATCH_ARGS_SIZE || le32_at(raw, 20) != 0 || count == 0 {
        Err(Status::InvalidArgument)
    } else if submissions is Err {
        Err(submissions->Err_0)
    } else if outputs is Err {
        Err(outputs->Err_0)
    } else if le64_at(raw, 8) == 0 || le64_at(raw, 24) == 0 {
        Err(Status::InvalidAddress)
    } else {
        Ok(
            BatchHead {
                submissions_address: le64_at(raw, 8) as u64,
                submissions_len: submissions->Ok_0,
                count: count as usize,
                outputs_address: le64_at(raw, 24) as u64,
                outputs_len: outputs->Ok_0,
            },
        )
    }
}

/// Reads a record of a batch.
pub fn parse_batch(abi: &Abi, raw: &[u8]) -> (result: Result<BatchHead, Status>)
    ensures
        result == batch_in(*abi, raw@),
{
    if raw.len() != REQUEST_SUBMIT_BATCH_ARGS_SIZE {
        return Err(Status::InvalidArgument);
    }
    let count: u32 = read_u32(raw, 16);
    if read_u32(raw, 0) != abi.versions.request_submit_batch_args || read_u32(raw, 4)
        != REQUEST_SUBMIT_BATCH_ARGS_SIZE as u32 || read_u32(raw, 20) != 0 || count == 0 {
        return Err(Status::InvalidArgument);
    }
    let submissions_len: usize = checked_array_bytes(
        count as u64,
        REQUEST_SUBMIT_ARGS_SIZE,
        abi.limits.request_batch as u64,
        Status::ResourceLimit,
    )?;
    let outputs_len: usize = checked_array_bytes(
        count as u64,
        REQUEST_SUBMIT_OUTPUT_SIZE,
        abi.limits.request_batch as u64,
        Status::ResourceLimit,
    )?;
    let submissions_address: u64 = read_u64(raw, 8);
    let outputs_address: u64 = read_u64(raw, 24);
    if submissions_address == 0 || outputs_address == 0 {
        return Err(Status::InvalidAddress);
    }
    Ok(
        BatchHead {
            submissions_address,
            submissions_len,
            count: count as usize,
            outputs_address,
            outputs_len,
        },
    )
}

/// What a process is told when its blocked request ended: whether the result could be handed
/// over, and before that, where the process asked for it, how the operation went.
pub fn blocked_request_return_status(
    return_operation_status: bool,
    operation_status: Status,
    completion_copy_status: Status,
) -> (status: Status)
    ensures
        status == (if return_operation_status && operation_status != Status::Success {
            operation_status
        } else {
            completion_copy_status
        }),
{
    if return_operation_status && operation_status != Status::Success {
        operation_status
    } else {
        completion_copy_status
    }
}

} // verus!
