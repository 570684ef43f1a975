//! Records that a process hands over, and records that it is given.
use vstd::prelude::*;

use crate::bytes::{
    le32_at, le64_at, le_bytes, push_u16, push_u32, push_zeros, read_u32, read_u64, zeros,
};

use super::abi::{checked_bits, within, Abi, Handle, Status, DEBUG_WRITE_MAX_BYTES};

verus! {

pub const WAIT_MANY_ARGS_SIZE: usize = 24;

pub const WAIT_ITEM_SIZE: usize = 12;

pub const WAIT_MANY_OUTPUT_SIZE: usize = 8;

pub const MONOTONIC_TIME_OUTPUT_SIZE: usize = 8;

pub const HANDLE_OUTPUT_SIZE: usize = 8;

pub const HANDLE_DISPOSITION_SIZE: usize = 16;

pub const RECEIVED_HANDLE_SIZE: usize = 16;

pub const CHANNEL_CREATE_OUTPUT_SIZE: usize = 8;

pub const CHANNEL_WRITE_ARGS_SIZE: usize = 40;

pub const CHANNEL_READ_ARGS_SIZE: usize = 48;

pub const CHANNEL_READ_OUTPUT_SIZE: usize = 8;

pub const SHARED_MEMORY_SIZE_OUTPUT_SIZE: usize = 8;

pub const SHARED_MEMORY_MAP_ARGS_SIZE: usize = 32;

pub const SHARED_MEMORY_MAP_OUTPUT_SIZE: usize = 8;

pub const PROCESS_MEMORY_POLICY_SIZE: usize = 64;

/// Bytes of an array, or why it is refused.
pub open spec fn array_bytes(
    count: u64,
    element_size: usize,
    maximum_count: u64,
    too_many: Status,
) -> Result<usize, Status> {
    if count > maximum_count {
        Err(too_many)
    } else if count > usize::MAX || count * element_size > usize::MAX {
        Err(Status::OutOfRange)
    } else {
        Ok((count * element_size) as usize)
    }
}

/// Bytes of an array, or why it is refused.
pub fn checked_array_bytes(
    count: u64,
    element_size: usize,
    maximum_count: u64,
    too_many: Status,
) -> (result: Result<usize, Status>)
    ensures
        result == array_bytes(count, element_size, maximum_count, too_many),
{
    if count > maximum_count {
        return Err(too_many);
    }
    if count > usize::MAX as u64 {
        return Err(Status::OutOfRange);
    }
    match (count as usize).checked_mul(element_size) {
        Some(bytes) => Ok(bytes),
        None => Err(Status::OutOfRange),
    }
}

/// Bytes of a debug write, if it is short enough.
pub fn checked_debug_length(raw_length: u64) -> (result: Result<usize, Status>)
    ensures
        result == array_bytes(raw_length, 1, DEBUG_WRITE_MAX_BYTES as u64, Status::OutOfRange),
{
    checked_array_bytes(raw_length, 1, DEBUG_WRITE_MAX_BYTES as u64, Status::OutOfRange)
}

/// Bytes of a startup record, if it is short enough.
pub fn bounded_startup_length(abi: &Abi, raw: u64) -> (result: Result<usize, Status>)
    ensures
        result == array_bytes(raw, 1, abi.limits.startup_bytes as u64, Status::ResourceLimit),
{
    checked_array_bytes(raw, 1, abi.limits.startup_bytes as u64, Status::ResourceLimit)
}

/// The handle in a register.
pub open spec fn handle_in(raw: u64) -> Result<Handle, Status> {
    if raw > u32::MAX {
        Err(Status::InvalidHandle)
    } else {
        Ok(Handle(raw as u32))
    }
}

/// The handle in a register.
pub fn decode_handle(raw: u64) -> (result: Result<Handle, Status>)
    ensures
        result == handle_in(raw),
{
    if raw > u32::MAX as u64 {
        Err(Status::InvalidHandle)
    } else {
        Ok(Handle(raw as u32))
    }
}

/// Rights, if all of them are known.
pub open spec fn rights_in(abi: Abi, raw: u64) -> Result<u32, Status> {
    if raw <= u32::MAX && within(raw as u32, abi.rights.all) {
        Ok(raw as u32)
    } else {
        Err(Status::InvalidRights)
    }
}

/// Rights in a register, if all of them are known.
pub fn decode_rights_u64(abi: &Abi, raw: u64) -> (result: Result<u32, Status>)
    ensures
        result == rights_in(*abi, raw),
{
    if raw > u32::MAX as u64 {
        return Err(Status::InvalidRights);
    }
    decode_rights(abi, raw as u32)
}

/// Rights, if all of them are known.
pub fn decode_rights(abi: &Abi, raw: u32) -> (result: Result<u32, Status>)
    ensures
        result == rights_in(*abi, raw as u64),
{
    match checked_bits(raw, abi.rights.all) {
        Some(rights) => Ok(rights),
        None => Err(Status::InvalidRights),
    }
}

/// Flags in a register, if all of them are in `mask`.
pub open spec fn flags_in(raw: u64, mask: u32) -> Result<u32, Status> {
    if raw <= u32::MAX && within(raw as u32, mask) {
        Ok(raw as u32)
    } else {
        Err(Status::InvalidArgument)
    }
}

/// Flags in a register, if all of them are in `mask`.
pub fn decode_flags(raw: u64, mask: u32) -> (result: Result<u32, Status>)
    ensures
        result == flags_in(raw, mask),
{
    if raw > u32::MAX as u64 {
        return Err(Status::InvalidArgument);
    }
    match checked_bits(raw as u32, mask) {
        Some(flags) => Ok(flags),
        None => Err(Status::InvalidArgument),
    }
}

/// Signals, if all of them are known.
pub fn decode_signals(abi: &Abi, raw: u32) -> (result: Result<u32, Status>)
    ensures
        result == flags_in(raw as u64, abi.signals),
{
    decode_flags(raw as u64, abi.signals)
}

/// A part of a record list: record `index` of records of `size` bytes.
pub open spec fn record(bytes: Seq<u8>, size: int, index: int) -> Seq<u8> {
    bytes.subrange(index * size, index * size + size)
}

/// An object to wait for, and the signals it has.
#[derive(Clone, Copy, Debug, PartialEq, Eq, Structural)]
pub struct WaitItem {
    pub handle: Handle,
    pub wait_for: u32,
    pub pending: u32,
}

/// A record of something to wait for.
pub open spec fn wait_item_in(abi: Abi, raw: Seq<u8>) -> Result<WaitItem, Status> {
    if raw.len() != WAIT_ITEM_SIZE || !within(le32_at(raw, 4) as u32, abi.signals) || !within(
        le32_at(raw, 8) as u32,
        abi.signals,
    ) {
        Err(Status::InvalidArgument)
    } else {
        Ok(
            WaitItem {
                handle: Handle(le32_at(raw, 0) as u32),
                wait_for: le32_at(raw, 4) as u32,
                pending: le32_at(raw, 8) as u32,
            },
        )
    }
}

/// Reads a record of something to wait for.
pub fn parse_wait_item(abi: &Abi, raw: &[u8]) -> (result: Result<WaitItem, Status>)
    ensures
        result == wait_item_in(*abi, raw@),
{
    if raw.len() != WAIT_ITEM_SIZE {
        return Err(Status::InvalidArgument);
    }
    let wait_for: u32 = decode_signals(abi, read_u32(raw, 4))?;
    let pending: u32 = decode_signals(abi, read_u32(raw, 8))?;
    Ok(WaitItem { handle: Handle(read_u32(raw, 0)), wait_for, pending })
}

/// The record of something to wait for.
pub open spec fn wait_item_record(item: WaitItem) -> Seq<u8> {
    le_bytes(item.handle.0 as int, 4) + le_bytes(item.wait_for as int, 4) + le_bytes(
        item.pending as int,
        4,
    )
}

/// The records of things to wait for.
pub open spec fn wait_records(items: Seq<WaitItem>) -> Seq<u8>
    decreases items.len(),
{
    if items.len() == 0 {
        Seq::empty()
    } else {
        wait_records(items.drop_last()) + wait_item_record(items.last())
    }
}

/// Writes the records of things to wait for.
pub fn encode_wait_items(items: &[WaitItem]) -> (output: Vec<u8>)
    ensures
        output@ == wait_records(items@),
        output@.len() == items@.len() * WAIT_ITEM_SIZE,
{
    let mut output: Vec<u8> = Vec::new();
    let mut index: usize = 0;
    assert(items@.subrange(0, 0) =~= Seq::empty());
    while index < items.len()
        invariant
            index <= items@.len(),
            output@ == wait_records(items@.subrange(0, index as int)),
            output@.len() == index * WAIT_ITEM_SIZE,
        decreases items@.len() - index,
    {
        let item: WaitItem = items[index];
        let ghost before = output@;
        push_u32(&mut output, item.handle.0);
        push_u32(&mut output, item.wait_for);
        push_u32(&mut output, item.pending);
        index += 1;
        assert(items@.subrange(0, index as int).drop_last() =~= items@.subrange(0, index - 1));
        assert(output@ =~= before + wait_item_record(item));
    }
    assert(items@.subrange(0, items@.len() as int) =~= items@);
    output
}

/// What becomes of a handle that is handed over.
#[derive(Clone, Copy, Debug, PartialEq, Eq, Structural)]
pub enum HandleOperation {
    Move,
    Duplicate,
}

/// A handle that is handed over, and the rights that go with it.
#[derive(Clone, Copy, Debug, PartialEq, Eq, Structural)]
pub struct HandleOperationDisposition {
    pub handle: Handle,
    pub operation: HandleOperation,
    pub rights: u32,
}

/// A record of a handle that is handed over.
pub open spec fn disposition_in(abi: Abi, raw: Seq<u8>) -> Result<
    HandleOperationDisposition,
    Status,
> {
    if raw.len() != HANDLE_DISPOSITION_SIZE || le32_at(raw, 4) > 1 {
        Err(Status::InvalidArgument)
    } else if !within(le32_at(raw, 8) as u32, abi.rights.all) {
        Err(Status::InvalidRights)
    } else if le32_at(raw, 12) != 0 {
        Err(Status::InvalidArgument)
    } else {
        Ok(
            HandleOperationDisposition {
                handle: Handle(le32_at(raw, 0) as u32),
                operation: if le32_at(raw, 4) == 0 {
                    HandleOperation::Move
                } else {
                    HandleOperation::Duplicate
                },
                rights: le32_at(raw, 8) as u32,
            },
        )
    }
}

/// Reads a record of a handle that is handed over.
pub fn parse_handle_disposition(abi: &Abi, raw: &[u8]) -> (result: Result<
    HandleOperationDisposition,
    Status,
>)
    ensures
        result == disposition_in(*abi, raw@),
{
    if raw.len() != HANDLE_DISPOSITION_SIZE {
        return Err(Status::InvalidArgument);
    }
    let handle: Handle = Handle(read_u32(raw, 0));
    let operation: HandleOperation = match read_u32(raw, 4) {
        0 => HandleOperation::Move,
        1 => HandleOperation::Duplicate,
        _ => {
            return Err(Status::InvalidArgument);
        },
    };
    let rights: u32 = decode_rights(abi, read_u32(raw, 8))?;
    if read_u32(raw, 12) != 0 {
        return Err(Status::InvalidArgument);
    }
    Ok(HandleOperationDisposition { handle, operation, rights })
}

/// The first refused record of handles that are handed over, among the first `count`.
pub open spec fn dispositions_in(abi: Abi, raw: Seq<u8>, count: nat) -> Result<
    Seq<HandleOperationDisposition>,
    Status,
>
    decreases count,
{
    if count == 0 {
        Ok(Seq::empty())
    } else {
        match dispositions_in(abi, raw, (count - 1) as nat) {
            Err(status) => Err(status),
            Ok(before) => match disposition_in(
                abi,
                record(raw, HANDLE_DISPOSITION_SIZE as int, count - 1),
            ) {
                Err(status) => Err(status),
                Ok(found) => Ok(before.push(found)),
            },
        }
    }
}

/// The list as numbers.
pub open spec fn list_of<T>(result: Result<Vec<T>, Status>) -> Result<Seq<T>, Status> {
    match result {
        Ok(list) => Ok(list@),
        Err(status) => Err(status),
    }
}

/// A refused record refuses the list.
proof fn lemma_dispositions_fail(abi: Abi, raw: Seq<u8>, short: nat, long: nat)
    requires
        short <= long,
        dispositions_in(abi, raw, short) is Err,
    ensures
        dispositions_in(abi, raw, long) == dispositions_in(abi, raw, short),
    decreases long,
{
    if short < long {
        lemma_dispositions_fail(abi, raw, short, (long - 1) as nat);
    }
}

/// Reads the records of handles that are handed over.
pub fn parse_dispositions(abi: &Abi, raw: &[u8]) -> (result: Result<
    Vec<HandleOperationDisposition>,
    Status,
>)
    requires
        raw@.len() % 16 == 0,
    ensures
        list_of(result) == dispositions_in(*abi, raw@, (raw@.len() / 16) as nat),
{
    let count: usize = raw.len() / HANDLE_DISPOSITION_SIZE;
    let mut dispositions: Vec<HandleOperationDisposition> = Vec::new();
    let mut index: usize = 0;
    while index < count
        invariant
            index <= count,
            count * 16 == raw.len(),
            count == raw@.len() / 16,
            dispositions_in(*abi, raw@, index as nat) == Ok::<
                Seq<HandleOperationDisposition>,
                Status,
            >(dispositions@),
        decreases count - index,
    {
        let from: usize = index * HANDLE_DISPOSITION_SIZE;
        let one: &[u8] = vstd::slice::slice_subrange(raw, from, from + HANDLE_DISPOSITION_SIZE);
        assert(one@ == record(raw@, 16, index as int));
        match parse_handle_disposition(abi, one) {
            Err(status) => {
                proof {
                    lemma_dispositions_fail(*abi, raw@, (index + 1) as nat, count as nat);
                }
                return Err(status);
            },
            Ok(disposition) => {
                dispositions.push(disposition);
            },
        }
        index += 1;
    }
    Ok(dispositions)
}

/// The first refused record of things to wait for, among the first `count`.
pub open spec fn wait_items_in(abi: Abi, raw: Seq<u8>, count: nat) -> Result<Seq<WaitItem>, Status>
    decreases count,
{
    if count == 0 {
        Ok(Seq::empty())
    } else {
        match wait_items_in(abi, raw, (count - 1) as nat) {
            Err(status) => Err(status),
            Ok(before) => match wait_item_in(abi, record(raw, WAIT_ITEM_SIZE as int, count - 1)) {
                Err(status) => Err(status),
                Ok(found) => Ok(before.push(found)),
            },
        }
    }
}

/// A refused record refuses the list.
proof fn lemma_wait_items_fail(abi: Abi, raw: Seq<u8>, short: nat, long: nat)
    requires
        short <= long,
        wait_items_in(abi, raw, short) is Err,
    ensures
        wait_items_in(abi, raw, long) == wait_items_in(abi, raw, short),
    decreases long,
{
    if short < long {
        lemma_wait_items_fail(abi, raw, short, (long - 1) as nat);
    }
}

/// Reads the records of things to wait for.
pub fn parse_wait_items(abi: &Abi, raw: &[u8]) -> (result: Result<Vec<WaitItem>, Status>)
    requires
        raw@.len() % 12 == 0,
    ensures
        list_of(result) == wait_items_in(*abi, raw@, (raw@.len() / 12) as nat),
        result matches Ok(items) ==> items@.len() == raw@.len() / 12,
{
    let count: usize = raw.len() / WAIT_ITEM_SIZE;
    let mut items: Vec<WaitItem> = Vec::new();
    let mut index: usize = 0;
    while index < count
        invariant
            index <= count,
            count * 12 == raw.len(),
            count == raw@.len() / 12,
            items@.len() == index,
            wait_items_in(*abi, raw@, index as nat) == Ok::<Seq<WaitItem>, Status>(items@),
        decreases count - index,
    {
        let from: usize = index * WAIT_ITEM_SIZE;
        let one: &[u8] = vstd::slice::slice_subrange(raw, from, from + WAIT_ITEM_SIZE);
        assert(one@ == record(raw@, 12, index as int));
        match parse_wait_item(abi, one) {
            Err(status) => {
                proof {
                    lemma_wait_items_fail(*abi, raw@, (index + 1) as nat, count as nat);
                }
                return Err(status);
            },
            Ok(item) => {
                items.push(item);
            },
        }
        index += 1;
    }
    Ok(items)
}

/// The limits that a process asks for a child.
#[derive(Clone, Copy, Debug, PartialEq, Eq, Structural)]
pub struct MemoryPolicy {
    pub private_pages: u64,
    pub shared_memory_bytes: u64,
    pub mapped_shared_bytes: u64,
    pub reserved_virtual_bytes: u64,
    pub vma_count: u64,
    pub executable_image_pages: u64,
    pub executable_source_bytes: u64,
}

/// A record of limits.
pub open spec fn memory_policy_in(abi: Abi, raw: Seq<u8>) -> Result<MemoryPolicy, Status> {
    if raw.len() != PROCESS_MEMORY_POLICY_SIZE || le32_at(raw, 0)
        != abi.versions.process_memory_policy || le32_at(raw, 4) != PROCESS_MEMORY_POLICY_SIZE {
        Err(Status::InvalidArgument)
    } else {
        Ok(
            MemoryPolicy {
                private_pages: le64_at(raw, 8) as u64,
                shared_memory_bytes: le64_at(raw, 16) as u64,
                mapped_shared_bytes: le64_at(raw, 24) as u64,
                reserved_virtual_bytes: le64_at(raw, 32) as u64,
                vma_count: le64_at(raw, 40) as u64,
                executable_image_pages: le64_at(raw, 48) as u64,
                executable_source_bytes: le64_at(raw, 56) as u64,
            },
        )
    }
}

/// Reads a record of limits.
pub fn parse_process_memory_policy(abi: &Abi, raw: &[u8]) -> (result: Result<MemoryPolicy, Status>)
    ensures
        result == memory_policy_in(*abi, raw@),
{
    if raw.len() != PROCESS_MEMORY_POLICY_SIZE || read_u32(raw, 0)
        != abi.versions.process_memory_policy || read_u32(raw, 4)
        != PROCESS_MEMORY_POLICY_SIZE as u32 {
        return Err(Status::InvalidArgument);
    }
    Ok(
        MemoryPolicy {
            private_pages: read_u64(raw, 8),
            shared_memory_bytes: read_u64(raw, 16),
            mapped_shared_bytes: read_u64(raw, 24),
            reserved_virtual_bytes: read_u64(raw, 32),
            vma_count: read_u64(raw, 40),
            executable_image_pages: read_u64(raw, 48),
            executable_source_bytes: read_u64(raw, 56),
        },
    )
}

/// How shared memory or a file is to be mapped.
#[derive(Clone, Copy, Debug, PartialEq, Eq, Structural)]
pub struct SharedMemoryMapArgs {
    pub address: u64,
    pub offset: u64,
    pub length: u64,
    pub protection: u32,
    pub flags: u32,
}

/// A record of how to map.
pub open spec fn map_args_in(abi: Abi, raw: Seq<u8>) -> Result<SharedMemoryMapArgs, Status> {
    if raw.len() != SHARED_MEMORY_MAP_ARGS_SIZE || !within(
        le32_at(raw, 24) as u32,
        abi.protection.all,
    ) || !within(le32_at(raw, 28) as u32, abi.map_flags) {
        Err(Status::InvalidArgument)
    } else {
        Ok(
            SharedMemoryMapArgs {
                address: le64_at(raw, 0) as u64,
                offset: le64_at(raw, 8) as u64,
                length: le64_at(raw, 16) as u64,
                protection: le32_at(raw, 24) as u32,
                flags: le32_at(raw, 28) as u32,
            },
        )
    }
}

/// Reads a record of how to map.
pub fn parse_shared_memory_map_args(abi: &Abi, raw: &[u8]) -> (result: Result<
    SharedMemoryMapArgs,
    Status,
>)
    ensures
        result == map_args_in(*abi, raw@),
{
    if raw.len() != SHARED_MEMORY_MAP_ARGS_SIZE {
        return Err(Status::InvalidArgument);
    }
    let protection: u32 = decode_flags(read_u32(raw, 24) as u64, abi.protection.all)?;
    let flags: u32 = decode_flags(read_u32(raw, 28) as u64, abi.map_flags)?;
    Ok(
        SharedMemoryMapArgs {
            address: read_u64(raw, 0),
            offset: read_u64(raw, 8),
            length: read_u64(raw, 16),
            protection,
            flags,
        },
    )
}

/// The record that gives a process a handle.
pub open spec fn handle_record(handle: Handle) -> Seq<u8> {
    le_bytes(handle.0 as int, 4) + zeros(4)
}

/// Writes the record that gives a process a handle.
pub fn encode_handle_output(handle: Handle) -> (output: Vec<u8>)
    ensures
        output@ == handle_record(handle),
        output@.len() == HANDLE_OUTPUT_SIZE,
{
    let mut output: Vec<u8> = Vec::new();
    push_u32(&mut output, handle.0);
    push_zeros(&mut output, 4);
    assert(output@ =~= handle_record(handle));
    output
}

/// The record that gives a process the two ends of a channel.
pub open spec fn channel_record(first: Handle, second: Handle) -> Seq<u8> {
    le_bytes(first.0 as int, 4) + le_bytes(second.0 as int, 4)
}

/// Writes the record that gives a process the two ends of a channel.
pub fn encode_channel_create_output(first: Handle, second: Handle) -> (output: Vec<u8>)
    ensures
        output@ == channel_record(first, second),
        output@.len() == CHANNEL_CREATE_OUTPUT_SIZE,
{
    let mut output: Vec<u8> = Vec::new();
    push_u32(&mut output, first.0);
    push_u32(&mut output, second.0);
    assert(output@ =~= channel_record(first, second));
    output
}

/// How large a message is.
#[derive(Clone, Copy, Debug, PartialEq, Eq, Structural)]
pub struct MessageInfo {
    pub byte_count: u32,
    pub handle_count: u16,
    pub reserved: u16,
}

/// The record that says how large a message is.
pub open spec fn message_record(info: MessageInfo) -> Seq<u8> {
    le_bytes(info.byte_count as int, 4) + le_bytes(info.handle_count as int, 2) + zeros(2)
}

/// Writes the record that says how large a message is.
pub fn encode_channel_read_output(info: MessageInfo) -> (output: Vec<u8>)
    ensures
        output@ == message_record(info),
        output@.len() == CHANNEL_READ_OUTPUT_SIZE,
{
    let mut output: Vec<u8> = Vec::new();
    push_u32(&mut output, info.byte_count);
    push_u16(&mut output, info.handle_count);
    push_zeros(&mut output, 2);
    assert(output@ =~= message_record(info));
    output
}

/// The record of a handle that came with a message.
pub open spec fn received_record(handle: Handle, rights: u32, object_type: u32) -> Seq<u8> {
    le_bytes(handle.0 as int, 4) + le_bytes(rights as int, 4) + le_bytes(object_type as int, 4)
        + zeros(4)
}

/// Appends the record of a handle that came with a message.
pub fn push_received_handle(output: &mut Vec<u8>, handle: Handle, rights: u32, object_type: u32)
    ensures
        final(output)@ == old(output)@ + received_record(handle, rights, object_type),
        final(output)@.len() == old(output)@.len() + RECEIVED_HANDLE_SIZE,
{
    push_u32(output, handle.0);
    push_u32(output, rights);
    push_u32(output, object_type);
    push_zeros(output, 4);
    assert(output@ =~= old(output)@ + received_record(handle, rights, object_type));
}

/// Bytes that back shared memory: whole pages.
pub open spec fn backing_bytes(logical_bytes: usize) -> Result<usize, Status> {
    if logical_bytes + 4095 > usize::MAX && logical_bytes != 0 {
        Err(Status::OutOfRange)
    } else {
        Ok(((logical_bytes + 4095) / 4096 * 4096) as usize)
    }
}

/// Bytes that back shared memory: whole pages.
pub fn page_rounded_shared_backing_bytes(logical_bytes: usize) -> (result: Result<usize, Status>)
    ensures
        result == backing_bytes(logical_bytes),
{
    if logical_bytes == 0 {
        return Ok(0);
    }
    if logical_bytes > usize::MAX - 4095 {
        return Err(Status::OutOfRange);
    }
    Ok((logical_bytes + 4095) / 4096 * 4096)
}

/// Bytes that a query for memory information is given, if its version and size go
/// together.
pub fn validate_memory_info_query(abi: &Abi, raw_version: u64, raw_size: u64) -> (result: Result<
    usize,
    Status,
>)
    ensures
        result == (if raw_version == abi.versions.memory_info_first {
            exact_size(raw_size, abi.sizes.memory_info_first)
        } else if raw_version == abi.versions.memory_info {
            exact_size(raw_size, abi.sizes.memory_info)
        } else {
            Err(Status::InvalidArgument)
        }),
{
    let expected: u32 = if raw_version == abi.versions.memory_info_first as u64 {
        abi.sizes.memory_info_first
    } else if raw_version == abi.versions.memory_info as u64 {
        abi.sizes.memory_info
    } else {
        return Err(Status::InvalidArgument);
    };
    if raw_size < expected as u64 {
        return Err(Status::BufferTooSmall);
    }
    if raw_size != expected as u64 {
        return Err(Status::InvalidArgument);
    }
    Ok(expected as usize)
}

/// A size must be met exactly; too small a buffer is told apart.
pub open spec fn exact_size(raw_size: u64, expected: u32) -> Result<usize, Status> {
    if raw_size < expected {
        Err(Status::BufferTooSmall)
    } else if raw_size != expected {
        Err(Status::InvalidArgument)
    } else {
        Ok(expected as usize)
    }
}

/// Checks a query for the area around an address; `user_address` says whether a process
/// can have the address at all.
pub fn validate_virtual_query(abi: &Abi, raw_version: u64, raw_size: u64, user_address: bool) -> (result:
    Result<(), Status>)
    ensures
        result == (if raw_version != abi.versions.virtual_area_info {
            Err(Status::InvalidArgument)
        } else {
            match exact_size(raw_size, abi.sizes.virtual_area_info) {
                Err(status) => Err(status),
                Ok(_) => if user_address {
                    Ok(())
                } else {
                    Err(Status::InvalidAddress)
                },
            }
        }),
{
    if raw_version != abi.versions.virtual_area_info as u64 {
        return Err(Status::InvalidArgument);
    }
    if raw_size < abi.sizes.virtual_area_info as u64 {
        return Err(Status::BufferTooSmall);
    }
    if raw_size != abi.sizes.virtual_area_info as u64 {
        return Err(Status::InvalidArgument);
    }
    if !user_address {
        return Err(Status::InvalidAddress);
    }
    Ok(())
}

} // verus!
