//! System calls that map memory and tell of it, and those on the small devices of a process:
//! the clock, random numbers, sound and diagnostics.
use vstd::prelude::*;

use crate::bytes::le_bytes;

use super::abi::{
    contains_bits, has_bits, Abi, Handle, KernelHeapStats, Status, AUDIO_WRITE_MAX_BYTES,
    DEBUG_WRITE_MAX_BYTES,
};

use super::handles::close_asks;
use super::kernel::{
    asked_at, asked_from, ended_at, failed_in, passed, ran, ran_through, rejected, stopped_at, Ask,
    Call, Event, Kernel, Session,
};
use super::memory::{encode_memory_info, memory_record, MemoryFacts};
use super::request_wire::Node;
use super::wait::encode_number;
use super::wire::{
    array_bytes, backing_bytes, checked_array_bytes, checked_debug_length, decode_flags,
    decode_handle, encode_handle_output, exact_size, flags_in, handle_in, handle_record,
    map_args_in, page_rounded_shared_backing_bytes, parse_shared_memory_map_args,
    validate_memory_info_query, validate_virtual_query, SharedMemoryMapArgs, HANDLE_OUTPUT_SIZE,
    MONOTONIC_TIME_OUTPUT_SIZE, SHARED_MEMORY_MAP_ARGS_SIZE, SHARED_MEMORY_MAP_OUTPUT_SIZE,
    SHARED_MEMORY_SIZE_OUTPUT_SIZE,
};

verus! {

broadcast use super::heard::group_heard;

/// Where a mapping lies is written down. Where it cannot be, the mapping is undone; the
/// status of a refused undoing comes before that of the refused write.
pub open spec fn placed(
    address: u64,
    mapped: u64,
    undo: Call,
    log: Seq<Event>,
    at: int,
    result: Result<(), Status>,
) -> bool {
    &&& asked_at(log, at, Ask::With(Call::CopyOut { address }, le_bytes(mapped as int, 8)))
    &&& match log[at].refused() {
        None => log.len() == at + 1 && result is Ok,
        Some(status) => {
            &&& asked_from(log, at + 1, seq![Ask::Plain(undo)])
            &&& result == Err::<(), Status>(
                match log[at + 1].refused() {
                    Some(other) => other,
                    None => status,
                },
            )
        },
    }
}

/// What is done after a handle to new shared memory was made: it is charged for and given
/// to the process, or closed and no longer charged for.
pub open spec fn shared_given(
    abi: Abi,
    bytes: usize,
    address: u64,
    handle: Handle,
    log: Seq<Event>,
    at: int,
    result: Result<(), Status>,
) -> bool {
    &&& asked_at(log, at, Ask::Plain(Call::RecordShared { bytes }))
    &&& asked_at(log, at + 1, Ask::With(Call::CopyOut { address }, handle_record(handle)))
    &&& match log[at + 1].refused() {
        None => log.len() == at + 2 && result is Ok,
        Some(status) => {
            &&& asked_from(
                log,
                at + 2,
                close_asks(abi, seq![handle]).push(Ask::Plain(Call::ReleaseShared { bytes })),
            )
            &&& result == Err::<(), Status>(status)
        },
    }
}

/// Shared memory is made from event `at` on, once it is known that the process may have
/// it.
pub open spec fn shared_made(
    abi: Abi,
    size: usize,
    bytes: usize,
    address: u64,
    log: Seq<Event>,
    at: int,
    result: Result<(), Status>,
) -> bool {
    let first = seq![
        Ask::Plain(Call::CheckOutput { address, length: HANDLE_OUTPUT_SIZE }),
        Ask::Plain(Call::CreateShared { size }),
    ];
    ||| failed_in(log, at, first, result)
    ||| passed(log, at, first) && shared_given(
        abi,
        bytes,
        address,
        log[at + 1].handle(),
        log,
        at + 2,
        result,
    )
}

/// Bytes that shared memory of this size takes.
pub open spec fn shared_size(raw_size: u64) -> Result<usize, Status> {
    if raw_size > usize::MAX {
        Err(Status::OutOfRange)
    } else {
        backing_bytes(raw_size as usize)
    }
}

/// The rights on a file that mapping it takes.
pub open spec fn mapping_rights(abi: Abi, protection: u32) -> u32 {
    let written = if has_bits(protection, abi.protection.write) {
        abi.rights.read | abi.rights.write
    } else {
        abi.rights.read
    };
    if has_bits(protection, abi.protection.execute) {
        written | abi.rights.execute
    } else {
        written
    }
}

/// The rights on a file that mapping it takes.
pub fn file_mapping_rights(abi: &Abi, protection: u32) -> (required: u32)
    ensures
        required == mapping_rights(*abi, protection),
{
    let mut required: u32 = abi.rights.read;
    if contains_bits(protection, abi.protection.write) {
        required = required | abi.rights.write;
    }
    if contains_bits(protection, abi.protection.execute) {
        required = required | abi.rights.execute;
    }
    required
}

/// The file of a mapping is found from event `at` on, mapped, and its place written down.
pub open spec fn file_mapped(
    abi: Abi,
    handle: Handle,
    args: SharedMemoryMapArgs,
    output_address: u64,
    log: Seq<Event>,
    at: int,
    result: Result<(), Status>,
) -> bool {
    let file = log[at + 2].node();
    let first = seq![
        Ask::Plain(
            Call::CheckOutput { address: output_address, length: SHARED_MEMORY_MAP_OUTPUT_SIZE },
        ),
        Ask::Plain(Call::HandleRights { handle }),
        Ask::Plain(Call::File { handle, rights: mapping_rights(abi, args.protection) }),
        Ask::Plain(Call::FileProtection { rights: log[at + 1].answer->Bits_0->Ok_0 }),
        Ask::Plain(Call::FileLength { file }),
        Ask::Plain(
            Call::MapFile {
                file,
                file_length: log[at + 4].number(),
                max_protection: log[at + 3].answer->Bits_0->Ok_0,
                args,
            },
        ),
    ];
    let mapped = log[at + 5].number();
    ||| failed_in(log, at, first, result)
    ||| passed(log, at, first) && placed(
        output_address,
        mapped,
        Call::UnmapFile { address: mapped, length: args.length },
        log,
        at + 6,
        result,
    )
}

/// Shared memory is mapped from event `at` on, and its place written down.
pub open spec fn shared_mapped(
    handle: Handle,
    args: SharedMemoryMapArgs,
    output_address: u64,
    log: Seq<Event>,
    at: int,
    result: Result<(), Status>,
) -> bool {
    let first = seq![
        Ask::Plain(
            Call::CheckOutput { address: output_address, length: SHARED_MEMORY_MAP_OUTPUT_SIZE },
        ),
        Ask::Plain(Call::MapShared { handle, args }),
    ];
    let mapped = log[at + 1].number();
    ||| failed_in(log, at, first, result)
    ||| passed(log, at, first) && placed(
        output_address,
        mapped,
        Call::UnmapShared { address: mapped, length: args.length },
        log,
        at + 2,
        result,
    )
}

/// A call on a handle with a record of how to map: the record is read, then what `rest`
/// says happens from the event after it on.
pub open spec fn map_record(
    abi: Abi,
    raw_handle: u64,
    args_address: u64,
    before: Seq<Event>,
    log: Seq<Event>,
    result: Result<(), Status>,
    rest: spec_fn(Handle, SharedMemoryMapArgs) -> bool,
) -> bool {
    let base = before.len() as int;
    match handle_in(raw_handle) {
        Err(status) => rejected(before, log, result, status),
        Ok(handle) => {
            &&& asked_at(
                log,
                base,
                Ask::Plain(
                    Call::CopyIn { address: args_address, length: SHARED_MEMORY_MAP_ARGS_SIZE },
                ),
            )
            &&& if log[base].refused() is Some {
                ended_at(log, base, result)
            } else {
                match map_args_in(abi, log[base].bytes()) {
                    Err(status) => stopped_at(log, base, result, status),
                    Ok(args) => rest(handle, args),
                }
            }
        },
    }
}

/// The bytes that a query for memory information is answered with.
pub open spec fn memory_answer(record: Seq<u8>, size: usize) -> Seq<u8> {
    if size < record.len() {
        record.take(size as int)
    } else {
        record
    }
}

/// What `shared_memory_create` asks for, and what comes of it.
pub open spec fn did_shared_memory_create(
    abi: Abi,
    raw_size: u64,
    output_address: u64,
    before: Seq<Event>,
    log: Seq<Event>,
    result: Result<(), Status>,
) -> bool {
    let base = before.len() as int;
    match shared_size(raw_size) {
        Err(status) => rejected(before, log, result, status),
        Ok(bytes) => if bytes == 0 {
            shared_made(abi, raw_size as usize, bytes, output_address, log, base, result)
        } else {
            &&& asked_at(log, base, Ask::Plain(Call::CanAllocateShared { bytes }))
            &&& match log[base].answer->Flag_0 {
                Err(status) => stopped_at(log, base, result, status),
                Ok(false) => asked_from(
                    log,
                    base + 1,
                    seq![Ask::Plain(Call::RecordQuotaFailure)],
                ) && result == Err::<(), Status>(Status::ResourceLimit),
                Ok(true) => shared_made(
                    abi,
                    raw_size as usize,
                    bytes,
                    output_address,
                    log,
                    base + 1,
                    result,
                ),
            }
        },
    }
}

/// What `shared_memory_get_size` asks for, and what comes of it.
pub open spec fn did_shared_memory_get_size(
    abi: Abi,
    raw_handle: u64,
    output_address: u64,
    before: Seq<Event>,
    log: Seq<Event>,
    result: Result<(), Status>,
) -> bool {
    let base = before.len() as int;
    match handle_in(raw_handle) {
        Err(status) => rejected(before, log, result, status),
        Ok(handle) => ran_through(
            log,
            base,
            seq![
                Ask::Plain(
                    Call::CheckOutput {
                        address: output_address,
                        length: SHARED_MEMORY_SIZE_OUTPUT_SIZE,
                    },
                ),
                Ask::Plain(Call::SharedLength { handle }),
                Ask::With(
                    Call::CopyOut { address: output_address },
                    le_bytes(log[base + 1].number() as int, 8),
                ),
            ],
            result,
        ),
    }
}

/// What `shared_memory_map` asks for, and what comes of it.
pub open spec fn did_shared_memory_map(
    abi: Abi,
    raw_handle: u64,
    args_address: u64,
    output_address: u64,
    before: Seq<Event>,
    log: Seq<Event>,
    result: Result<(), Status>,
) -> bool {
    let base = before.len() as int;
    map_record(
        abi,
        raw_handle,
        args_address,
        before,
        log,
        result,
        |handle: Handle, args: SharedMemoryMapArgs|
            shared_mapped(handle, args, output_address, log, base + 1, result),
    )
}

/// What `shared_memory_unmap` asks for, and what comes of it.
pub open spec fn did_shared_memory_unmap(
    abi: Abi,
    address: u64,
    length: u64,
    before: Seq<Event>,
    log: Seq<Event>,
    result: Result<(), Status>,
) -> bool {
    ran_through(
        log,
        before.len() as int,
        seq![Ask::Plain(Call::UnmapShared { address, length })],
        result,
    )
}

/// What `anonymous_map` asks for, and what comes of it.
pub open spec fn did_anonymous_map(
    abi: Abi,
    length: u64,
    raw_protection: u64,
    output_address: u64,
    before: Seq<Event>,
    log: Seq<Event>,
    result: Result<(), Status>,
) -> bool {
    let base = before.len() as int;
    match flags_in(raw_protection, abi.protection.all) {
        Err(status) => rejected(before, log, result, status),
        Ok(protection) => {
            let first = seq![
                Ask::Plain(
                    Call::CheckOutput {
                        address: output_address,
                        length: SHARED_MEMORY_MAP_OUTPUT_SIZE,
                    },
                ),
                Ask::Plain(Call::MapAnonymous { length, protection }),
            ];
            let mapped = log[base + 1].number();
            ||| failed_in(log, base, first, result)
            ||| passed(log, base, first) && placed(
                output_address,
                mapped,
                Call::UnmapAnonymous { address: mapped, length },
                log,
                base + 2,
                result,
            )
        },
    }
}

/// What `anonymous_reserve` asks for, and what comes of it.
pub open spec fn did_anonymous_reserve(
    abi: Abi,
    length: u64,
    raw_protection: u64,
    output_address: u64,
    before: Seq<Event>,
    log: Seq<Event>,
    result: Result<(), Status>,
) -> bool {
    let base = before.len() as int;
    let address = log[base + 1].number();
    match flags_in(raw_protection, abi.protection.all) {
        Err(status) => rejected(before, log, result, status),
        Ok(protection) => ran(
            log,
            base,
            seq![
                Ask::Plain(
                    Call::CheckOutput {
                        address: output_address,
                        length: SHARED_MEMORY_MAP_OUTPUT_SIZE,
                    },
                ),
                Ask::Plain(Call::ReserveAnonymous { length, protection }),
                Ask::With(
                    Call::CopyOut { address: output_address },
                    le_bytes(address as int, 8),
                ),
            ],
            2,
            seq![Ask::Plain(Call::RollbackReservation { address })],
            result,
        ),
    }
}

/// What `anonymous_protect` asks for, and what comes of it.
pub open spec fn did_anonymous_protect(
    abi: Abi,
    address: u64,
    length: u64,
    raw_protection: u64,
    before: Seq<Event>,
    log: Seq<Event>,
    result: Result<(), Status>,
) -> bool {
    match flags_in(raw_protection, abi.protection.all) {
        Err(status) => rejected(before, log, result, status),
        Ok(protection) => ran_through(
            log,
            before.len() as int,
            seq![Ask::Plain(Call::ProtectAnonymous { address, length, protection })],
            result,
        ),
    }
}

/// What `virtual_protect` asks for, and what comes of it.
pub open spec fn did_virtual_protect(
    abi: Abi,
    address: u64,
    length: u64,
    raw_protection: u64,
    before: Seq<Event>,
    log: Seq<Event>,
    result: Result<(), Status>,
) -> bool {
    match flags_in(raw_protection, abi.protection.all) {
        Err(status) => rejected(before, log, result, status),
        Ok(protection) => ran_through(
            log,
            before.len() as int,
            seq![Ask::Plain(Call::ProtectFile { address, length, protection })],
            result,
        ),
    }
}

/// What `virtual_map_file` asks for, and what comes of it.
pub open spec fn did_virtual_map_file(
    abi: Abi,
    raw_file: u64,
    args_address: u64,
    output_address: u64,
    before: Seq<Event>,
    log: Seq<Event>,
    result: Result<(), Status>,
) -> bool {
    let base = before.len() as int;
    map_record(
        abi,
        raw_file,
        args_address,
        before,
        log,
        result,
        |handle: Handle, args: SharedMemoryMapArgs|
            file_mapped(
                abi,
                handle,
                args,
                output_address,
                log,
                base + 1,
                result,
            ),
    )
}

/// What `virtual_query` asks for, and what comes of it.
pub open spec fn did_virtual_query(
    abi: Abi,
    address: u64,
    output_address: u64,
    raw_version: u64,
    raw_size: u64,
    before: Seq<Event>,
    log: Seq<Event>,
    result: Result<(), Status>,
) -> bool {
    let base = before.len() as int;
    &&& asked_at(log, base, Ask::Plain(Call::IsUserAddress { address }))
    &&& match log[base].answer->Flag_0 {
        Err(status) => stopped_at(log, base, result, status),
        Ok(known) => if raw_version != abi.versions.virtual_area_info {
            stopped_at(log, base, result, Status::InvalidArgument)
        } else {
            match exact_size(raw_size, abi.sizes.virtual_area_info) {
                Err(status) => stopped_at(log, base, result, status),
                Ok(length) => if !known {
                    stopped_at(log, base, result, Status::InvalidAddress)
                } else {
                    ran_through(
                        log,
                        base + 1,
                        seq![
                            Ask::Plain(
                                Call::CheckOutput { address: output_address, length },
                            ),
                            Ask::Plain(Call::VirtualArea { address }),
                            Ask::With(
                                Call::CopyOut { address: output_address },
                                log[base + 2].bytes(),
                            ),
                        ],
                        result,
                    )
                },
            }
        },
    }
}

/// What `memory_get_info` asks for, and what comes of it.
pub open spec fn did_memory_get_info(
    abi: Abi,
    output_address: u64,
    raw_size: u64,
    raw_version: u64,
    heap: KernelHeapStats,
    before: Seq<Event>,
    log: Seq<Event>,
    result: Result<(), Status>,
) -> bool {
    let base = before.len() as int;
    let expected = if raw_version == abi.versions.memory_info_first {
        exact_size(raw_size, abi.sizes.memory_info_first)
    } else if raw_version == abi.versions.memory_info {
        exact_size(raw_size, abi.sizes.memory_info)
    } else {
        Err(Status::InvalidArgument)
    };
    match expected {
        Err(status) => rejected(before, log, result, status),
        Ok(size) => ran_through(
            log,
            base,
            seq![
                Ask::Plain(Call::CheckOutput { address: output_address, length: size }),
                Ask::MemoryFacts,
                Ask::With(
                    Call::CopyOut { address: output_address },
                    memory_answer(
                        memory_record(
                            raw_version as u32,
                            size as u32,
                            log[base + 1].answer->MemoryFacts_0,
                            heap,
                        ),
                        size,
                    ),
                ),
            ],
            result,
        ),
    }
}

/// What `random_fill` asks for, and what comes of it.
pub open spec fn did_random_fill(
    abi: Abi,
    raw_source: u64,
    output_address: u64,
    raw_length: u64,
    before: Seq<Event>,
    log: Seq<Event>,
    result: Result<(), Status>,
) -> bool {
    let base = before.len() as int;
    match handle_in(raw_source) {
        Err(status) => rejected(before, log, result, status),
        Ok(handle) => {
            &&& asked_at(log, base, Ask::Plain(Call::RandomSource { handle }))
            &&& if log[base].refused() is Some {
                ended_at(log, base, result)
            } else {
                match array_bytes(
                    raw_length,
                    1,
                    abi.limits.random_bytes as u64,
                    Status::OutOfRange,
                ) {
                    Err(status) => stopped_at(log, base, result, status),
                    Ok(length) => {
                        let first = seq![
                            Ask::Plain(
                                Call::CheckOutput { address: output_address, length },
                            ),
                            Ask::Plain(Call::RandomBytes { length }),
                        ];
                        let bytes = log[base + 2].bytes();
                        ||| failed_in(log, base + 1, first, result)
                        ||| passed(log, base + 1, first) && if bytes.len() != length {
                            stopped_at(log, base + 2, result, Status::Io)
                        } else {
                            ran_through(
                                log,
                                base + 3,
                                seq![
                                    Ask::With(
                                        Call::CopyOut { address: output_address },
                                        bytes,
                                    ),
                                ],
                                result,
                            )
                        }
                    },
                }
            }
        },
    }
}

/// What `clock_get_monotonic` asks for, and what comes of it.
pub open spec fn did_clock_get_monotonic(
    abi: Abi,
    output_address: u64,
    now_ns: u64,
    before: Seq<Event>,
    log: Seq<Event>,
    result: Result<(), Status>,
) -> bool {
    ran_through(
        log,
        before.len() as int,
        seq![
            Ask::Plain(
                Call::CheckOutput {
                    address: output_address,
                    length: MONOTONIC_TIME_OUTPUT_SIZE,
                },
            ),
            Ask::With(
                Call::CopyOut { address: output_address },
                le_bytes(now_ns as int, 8),
            ),
        ],
        result,
    )
}

/// What `debug_write` asks for, and what comes of it.
pub open spec fn did_debug_write(
    abi: Abi,
    address: u64,
    raw_length: u64,
    before: Seq<Event>,
    log: Seq<Event>,
    result: Result<(), Status>,
) -> bool {
    let base = before.len() as int;
    match array_bytes(raw_length, 1, DEBUG_WRITE_MAX_BYTES as u64, Status::OutOfRange) {
        Err(status) => rejected(before, log, result, status),
        Ok(length) => {
            &&& asked_at(log, base, Ask::Plain(Call::CopyIn { address, length }))
            &&& if log[base].refused() is Some {
                ended_at(log, base, result)
            } else {
                &&& asked_from(
                    log,
                    base + 1,
                    seq![Ask::With(Call::DebugOutput, log[base].bytes())],
                )
                &&& result is Ok
            }
        },
    }
}

/// What `audio_write` asks for, and what comes of it.
pub open spec fn did_audio_write(
    abi: Abi,
    address: u64,
    raw_length: u64,
    before: Seq<Event>,
    log: Seq<Event>,
    result: Result<(), Status>,
) -> bool {
    let base = before.len() as int;
    match array_bytes(raw_length, 1, AUDIO_WRITE_MAX_BYTES as u64, Status::OutOfRange) {
        Err(status) => rejected(before, log, result, status),
        Ok(length) => if length == 0 || length % 4 != 0 {
            rejected(before, log, result, Status::InvalidArgument)
        } else {
            &&& asked_at(log, base, Ask::Plain(Call::AudioAvailable))
            &&& if log[base].refused() is Some {
                ended_at(log, base, result)
            } else if log[base].number() < length {
                stopped_at(log, base, result, Status::ShouldWait)
            } else {
                let rest = seq![
                    Ask::Plain(Call::CopyIn { address, length }),
                    Ask::With(Call::AudioWrite, log[base + 1].bytes()),
                ];
                ||| failed_in(log, base + 1, rest, result)
                ||| passed(log, base + 1, rest) && log.len() == base + 3 && if log[base
                    + 2].number() == length {
                    result is Ok
                } else {
                    result == Err::<(), Status>(Status::ShouldWait)
                }
            }
        },
    }
}

/// What `anonymous_unmap` asks for, and what comes of it.
pub open spec fn did_anonymous_unmap(
    abi: Abi,
    address: u64,
    length: u64,
    before: Seq<Event>,
    log: Seq<Event>,
    result: Result<(), Status>,
) -> bool {
    ran_through(
        log,
        before.len() as int,
        seq![Ask::Plain(Call::UnmapAnonymous { address, length })],
        result,
    )
}

/// What `anonymous_commit` asks for, and what comes of it.
pub open spec fn did_anonymous_commit(
    abi: Abi,
    address: u64,
    length: u64,
    before: Seq<Event>,
    log: Seq<Event>,
    result: Result<(), Status>,
) -> bool {
    ran_through(
        log,
        before.len() as int,
        seq![Ask::Plain(Call::CommitAnonymous { address, length })],
        result,
    )
}

/// What `anonymous_decommit` asks for, and what comes of it.
pub open spec fn did_anonymous_decommit(
    abi: Abi,
    address: u64,
    length: u64,
    before: Seq<Event>,
    log: Seq<Event>,
    result: Result<(), Status>,
) -> bool {
    ran_through(
        log,
        before.len() as int,
        seq![Ask::Plain(Call::DecommitAnonymous { address, length })],
        result,
    )
}

/// What `virtual_commit` asks for, and what comes of it.
pub open spec fn did_virtual_commit(
    abi: Abi,
    address: u64,
    length: u64,
    before: Seq<Event>,
    log: Seq<Event>,
    result: Result<(), Status>,
) -> bool {
    ran_through(
        log,
        before.len() as int,
        seq![Ask::Plain(Call::CommitFile { address, length })],
        result,
    )
}

/// What `virtual_decommit` asks for, and what comes of it.
pub open spec fn did_virtual_decommit(
    abi: Abi,
    address: u64,
    length: u64,
    before: Seq<Event>,
    log: Seq<Event>,
    result: Result<(), Status>,
) -> bool {
    ran_through(
        log,
        before.len() as int,
        seq![Ask::Plain(Call::DecommitFile { address, length })],
        result,
    )
}

/// What `virtual_unmap` asks for, and what comes of it.
pub open spec fn did_virtual_unmap(
    abi: Abi,
    address: u64,
    length: u64,
    before: Seq<Event>,
    log: Seq<Event>,
    result: Result<(), Status>,
) -> bool {
    ran_through(
        log,
        before.len() as int,
        seq![Ask::Plain(Call::UnmapFile { address, length })],
        result,
    )
}

impl<K: Kernel> Session<K> {
    /// Writes down where a mapping lies, or undoes it.
    pub fn place(&mut self, address: u64, mapped: u64, undo: Call) -> (result: Result<(), Status>)
        requires
            !Ask::Plain(undo).tells(),
        ensures
            final(self).kept(*old(self)),
            placed(address, mapped, undo, final(self).log@, old(self).log@.len() as int, result),
    {
        let output: Vec<u8> = encode_number(mapped);
        if let Err(status) = self.copy_out(address, output.as_slice()) {
            self.done(undo)?;
            return Err(status);
        }
        Ok(())
    }

    /// Makes shared memory.
    pub fn shared_memory_create(&mut self, raw_size: u64, output_address: u64) -> (result: Result<
        (),
        Status,
    >)
        ensures
            final(self).kept(*old(self)),
            did_shared_memory_create(
                old(self).abi,
                raw_size,
                output_address,
                old(self).log@,
                final(self).log@,
                result,
            ),
    {
        if raw_size > usize::MAX as u64 {
            return Err(Status::OutOfRange);
        }
        let size: usize = raw_size as usize;
        let bytes: usize = page_rounded_shared_backing_bytes(size)?;
        if bytes != 0 {
            let allowed: bool = self.flag(Call::CanAllocateShared { bytes })?;
            if !allowed {
                let _ = self.done(Call::RecordQuotaFailure);
                return Err(Status::ResourceLimit);
            }
        }
        self.check_output(output_address, HANDLE_OUTPUT_SIZE)?;
        let handle: Handle = self.handle(Call::CreateShared { size })?;
        let _ = self.done(Call::RecordShared { bytes });
        let output: Vec<u8> = encode_handle_output(handle);
        if let Err(status) = self.copy_out(output_address, output.as_slice()) {
            self.close_one(handle);
            let _ = self.done(Call::ReleaseShared { bytes });
            return Err(status);
        }
        Ok(())
    }

    /// Writes down how much memory is shared through a handle.
    pub fn shared_memory_get_size(&mut self, raw_handle: u64, output_address: u64) -> (result: Result<
        (),
        Status,
    >)
        ensures
            final(self).kept(*old(self)),
            did_shared_memory_get_size(
                old(self).abi,
                raw_handle,
                output_address,
                old(self).log@,
                final(self).log@,
                result,
            ),
    {
        let handle: Handle = decode_handle(raw_handle)?;
        self.check_output(output_address, SHARED_MEMORY_SIZE_OUTPUT_SIZE)?;
        let size: u64 = self.number(Call::SharedLength { handle })?;
        let output: Vec<u8> = encode_number(size);
        self.copy_out(output_address, output.as_slice())
    }

    /// Maps shared memory.
    pub fn shared_memory_map(&mut self, raw_handle: u64, args_address: u64, output_address: u64) -> (result:
        Result<(), Status>)
        ensures
            final(self).kept(*old(self)),
            did_shared_memory_map(
                old(self).abi,
                raw_handle,
                args_address,
                output_address,
                old(self).log@,
                final(self).log@,
                result,
            ),
    {
        let handle: Handle = decode_handle(raw_handle)?;
        let raw: Vec<u8> = self.copy_in(args_address, SHARED_MEMORY_MAP_ARGS_SIZE)?;
        let args: SharedMemoryMapArgs = parse_shared_memory_map_args(&self.abi, raw.as_slice())?;
        self.check_output(output_address, SHARED_MEMORY_MAP_OUTPUT_SIZE)?;
        let mapped: u64 = self.number(Call::MapShared { handle, args })?;
        self.place(
            output_address,
            mapped,
            Call::UnmapShared { address: mapped, length: args.length },
        )
    }

    /// Ends a mapping of shared memory.
    pub fn shared_memory_unmap(&mut self, address: u64, length: u64) -> (result: Result<(), Status>)
        ensures
            final(self).kept(*old(self)),
            did_shared_memory_unmap(
                old(self).abi,
                address,
                length,
                old(self).log@,
                final(self).log@,
                result,
            ),
    {
        self.done(Call::UnmapShared { address, length })
    }

    /// Maps memory of the process's own.
    pub fn anonymous_map(&mut self, length: u64, raw_protection: u64, output_address: u64) -> (result:
        Result<(), Status>)
        ensures
            final(self).kept(*old(self)),
            did_anonymous_map(
                old(self).abi,
                length,
                raw_protection,
                output_address,
                old(self).log@,
                final(self).log@,
                result,
            ),
    {
        let protection: u32 = decode_flags(raw_protection, self.abi.protection.all)?;
        self.check_output(output_address, SHARED_MEMORY_MAP_OUTPUT_SIZE)?;
        let mapped: u64 = self.number(Call::MapAnonymous { length, protection })?;
        self.place(output_address, mapped, Call::UnmapAnonymous { address: mapped, length })
    }

    /// Reserves addresses for memory of the process's own.
    pub fn anonymous_reserve(&mut self, length: u64, raw_protection: u64, output_address: u64) -> (result:
        Result<(), Status>)
        ensures
            final(self).kept(*old(self)),
            did_anonymous_reserve(
                old(self).abi,
                length,
                raw_protection,
                output_address,
                old(self).log@,
                final(self).log@,
                result,
            ),
    {
        let protection: u32 = decode_flags(raw_protection, self.abi.protection.all)?;
        self.check_output(output_address, SHARED_MEMORY_MAP_OUTPUT_SIZE)?;
        let address: u64 = self.number(Call::ReserveAnonymous { length, protection })?;
        let output: Vec<u8> = encode_number(address);
        if let Err(status) = self.copy_out(output_address, output.as_slice()) {
            let _ = self.done(Call::RollbackReservation { address });
            return Err(status);
        }
        Ok(())
    }

    /// Changes what a process may do with a range of its memory.
    fn protect(&mut self, address: u64, length: u64, raw_protection: u64, file: bool) -> (result:
        Result<(), Status>)
        ensures
            final(self).kept(*old(self)),
            match flags_in(raw_protection, old(self).abi.protection.all) {
                Err(status) => rejected(old(self).log@, final(self).log@, result, status),
                Ok(protection) => ran_through(
                    final(self).log@,
                    old(self).log@.len() as int,
                    seq![
                        Ask::Plain(
                            if file {
                                Call::ProtectFile { address, length, protection }
                            } else {
                                Call::ProtectAnonymous { address, length, protection }
                            },
                        ),
                    ],
                    result,
                ),
            },
    {
        let protection: u32 = decode_flags(raw_protection, self.abi.protection.all)?;
        if file {
            self.done(Call::ProtectFile { address, length, protection })
        } else {
            self.done(Call::ProtectAnonymous { address, length, protection })
        }
    }

    /// Changes what a process may do with memory of its own.
    pub fn anonymous_protect(&mut self, address: u64, length: u64, raw_protection: u64) -> (result:
        Result<(), Status>)
        ensures
            final(self).kept(*old(self)),
            did_anonymous_protect(
                old(self).abi,
                address,
                length,
                raw_protection,
                old(self).log@,
                final(self).log@,
                result,
            ),
    {
        self.protect(address, length, raw_protection, false)
    }

    /// Changes what a process may do with a mapped file.
    pub fn virtual_protect(&mut self, address: u64, length: u64, raw_protection: u64) -> (result: Result<
        (),
        Status,
    >)
        ensures
            final(self).kept(*old(self)),
            did_virtual_protect(
                old(self).abi,
                address,
                length,
                raw_protection,
                old(self).log@,
                final(self).log@,
                result,
            ),
    {
        self.protect(address, length, raw_protection, true)
    }

    /// Maps a file.
    pub fn virtual_map_file(&mut self, raw_file: u64, args_address: u64, output_address: u64) -> (result:
        Result<(), Status>)
        ensures
            final(self).kept(*old(self)),
            did_virtual_map_file(
                old(self).abi,
                raw_file,
                args_address,
                output_address,
                old(self).log@,
                final(self).log@,
                result,
            ),
    {
        let handle: Handle = decode_handle(raw_file)?;
        let raw: Vec<u8> = self.copy_in(args_address, SHARED_MEMORY_MAP_ARGS_SIZE)?;
        let args: SharedMemoryMapArgs = parse_shared_memory_map_args(&self.abi, raw.as_slice())?;
        self.check_output(output_address, SHARED_MEMORY_MAP_OUTPUT_SIZE)?;
        let rights: u32 = self.bits(Call::HandleRights { handle })?;
        let required: u32 = file_mapping_rights(&self.abi, args.protection);
        let file: Node = self.node(Call::File { handle, rights: required })?;
        let max_protection: u32 = self.bits(Call::FileProtection { rights })?;
        let file_length: u64 = self.number(Call::FileLength { file })?;
        let mapped: u64 = self.number(Call::MapFile { file, file_length, max_protection, args })?;
        self.place(
            output_address,
            mapped,
            Call::UnmapFile { address: mapped, length: args.length },
        )
    }

    /// Writes down what lies around an address.
    pub fn virtual_query(&mut self, address: u64, output_address: u64, raw_version: u64, raw_size: u64) -> (result:
        Result<(), Status>)
        ensures
            final(self).kept(*old(self)),
            did_virtual_query(
                old(self).abi,
                address,
                output_address,
                raw_version,
                raw_size,
                old(self).log@,
                final(self).log@,
                result,
            ),
    {
        let known: bool = self.flag(Call::IsUserAddress { address })?;
        validate_virtual_query(&self.abi, raw_version, raw_size, known)?;
        let length: usize = self.abi.sizes.virtual_area_info as usize;
        self.check_output(output_address, length)?;
        let info: Vec<u8> = self.bytes(Call::VirtualArea { address })?;
        self.copy_out(output_address, info.as_slice())
    }

    /// Writes down what is known of the memory of the machine and of the process.
    pub fn memory_get_info(
        &mut self,
        output_address: u64,
        raw_size: u64,
        raw_version: u64,
        heap: KernelHeapStats,
    ) -> (result: Result<(), Status>)
        ensures
            final(self).kept(*old(self)),
            did_memory_get_info(
                old(self).abi,
                output_address,
                raw_size,
                raw_version,
                heap,
                old(self).log@,
                final(self).log@,
                result,
            ),
    {
        let size: usize = validate_memory_info_query(&self.abi, raw_version, raw_size)?;
        self.check_output(output_address, size)?;
        let facts: MemoryFacts = self.memory_facts();
        let mut output: Vec<u8> = encode_memory_info(
            raw_version as u32,
            size as u32,
            &facts,
            heap,
        );
        if size < output.len() {
            output.truncate(size);
        }
        self.copy_out(output_address, output.as_slice())
    }

    /// Fills memory with random bytes.
    ///
    /// Another count of bytes than was asked for is an error of their source.
    pub fn random_fill(&mut self, raw_source: u64, output_address: u64, raw_length: u64) -> (result: Result<
        (),
        Status,
    >)
        ensures
            final(self).kept(*old(self)),
            did_random_fill(
                old(self).abi,
                raw_source,
                output_address,
                raw_length,
                old(self).log@,
                final(self).log@,
                result,
            ),
    {
        let handle: Handle = decode_handle(raw_source)?;
        self.done(Call::RandomSource { handle })?;
        let limit: u64 = self.abi.limits.random_bytes as u64;
        let length: usize = checked_array_bytes(raw_length, 1, limit, Status::OutOfRange)?;
        self.check_output(output_address, length)?;
        let bytes: Vec<u8> = self.bytes(Call::RandomBytes { length })?;
        if bytes.len() != length {
            return Err(Status::Io);
        }
        self.copy_out(output_address, bytes.as_slice())
    }

    /// Writes down the time.
    pub fn clock_get_monotonic(&mut self, output_address: u64, now_ns: u64) -> (result: Result<
        (),
        Status,
    >)
        ensures
            final(self).kept(*old(self)),
            did_clock_get_monotonic(
                old(self).abi,
                output_address,
                now_ns,
                old(self).log@,
                final(self).log@,
                result,
            ),
    {
        self.check_output(output_address, MONOTONIC_TIME_OUTPUT_SIZE)?;
        let output: Vec<u8> = encode_number(now_ns);
        self.copy_out(output_address, output.as_slice())
    }

    /// Hands text of a process to the diagnostics.
    pub fn debug_write(&mut self, address: u64, raw_length: u64) -> (result: Result<(), Status>)
        ensures
            final(self).kept(*old(self)),
            did_debug_write(
                old(self).abi,
                address,
                raw_length,
                old(self).log@,
                final(self).log@,
                result,
            ),
    {
        let length: usize = checked_debug_length(raw_length)?;
        let bytes: Vec<u8> = self.copy_in(address, length)?;
        let _ = self.write(Call::DebugOutput, bytes.as_slice());
        Ok(())
    }

    /// Hands sound to the sound device.
    pub fn audio_write(&mut self, address: u64, raw_length: u64) -> (result: Result<(), Status>)
        ensures
            final(self).kept(*old(self)),
            did_audio_write(
                old(self).abi,
                address,
                raw_length,
                old(self).log@,
                final(self).log@,
                result,
            ),
    {
        let length: usize = checked_array_bytes(
            raw_length,
            1,
            AUDIO_WRITE_MAX_BYTES as u64,
            Status::OutOfRange,
        )?;
        if length == 0 || length % 4 != 0 {
            return Err(Status::InvalidArgument);
        }
        let available: u64 = self.number(Call::AudioAvailable)?;
        if available < length as u64 {
            return Err(Status::ShouldWait);
        }
        let bytes: Vec<u8> = self.copy_in(address, length)?;
        let accepted: u64 = self.write_number(Call::AudioWrite, bytes.as_slice())?;
        if accepted == length as u64 {
            Ok(())
        } else {
            Err(Status::ShouldWait)
        }
    }

    /// Ends a mapping of memory of the process's own.
    pub fn anonymous_unmap(&mut self, address: u64, length: u64) -> (result: Result<(), Status>)
        ensures
            final(self).kept(*old(self)),
            did_anonymous_unmap(
                old(self).abi,
                address,
                length,
                old(self).log@,
                final(self).log@,
                result,
            ),
    {
        self.done(Call::UnmapAnonymous { address, length })
    }

    /// Backs reserved memory.
    pub fn anonymous_commit(&mut self, address: u64, length: u64) -> (result: Result<(), Status>)
        ensures
            final(self).kept(*old(self)),
            did_anonymous_commit(
                old(self).abi,
                address,
                length,
                old(self).log@,
                final(self).log@,
                result,
            ),
    {
        self.done(Call::CommitAnonymous { address, length })
    }

    /// Takes back what backs reserved memory.
    pub fn anonymous_decommit(&mut self, address: u64, length: u64) -> (result: Result<(), Status>)
        ensures
            final(self).kept(*old(self)),
            did_anonymous_decommit(
                old(self).abi,
                address,
                length,
                old(self).log@,
                final(self).log@,
                result,
            ),
    {
        self.done(Call::DecommitAnonymous { address, length })
    }

    /// Backs a mapped file.
    pub fn virtual_commit(&mut self, address: u64, length: u64) -> (result: Result<(), Status>)
        ensures
            final(self).kept(*old(self)),
            did_virtual_commit(
                old(self).abi,
                address,
                length,
                old(self).log@,
                final(self).log@,
                result,
            ),
    {
        self.done(Call::CommitFile { address, length })
    }

    /// Takes back what backs a mapped file.
    pub fn virtual_decommit(&mut self, address: u64, length: u64) -> (result: Result<(), Status>)
        ensures
            final(self).kept(*old(self)),
            did_virtual_decommit(
                old(self).abi,
                address,
                length,
                old(self).log@,
                final(self).log@,
                result,
            ),
    {
        self.done(Call::DecommitFile { address, length })
    }

    /// Ends a mapping of a file.
    pub fn virtual_unmap(&mut self, address: u64, length: u64) -> (result: Result<(), Status>)
        ensures
            final(self).kept(*old(self)),
            did_virtual_unmap(
                old(self).abi,
                address,
                length,
                old(self).log@,
                final(self).log@,
                result,
            ),
    {
        self.done(Call::UnmapFile { address, length })
    }
}

} // verus!
