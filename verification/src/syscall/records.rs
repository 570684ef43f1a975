//! Where each field of a record stands that is handed to a caller, or that a caller hands over.
use vstd::prelude::*;

use crate::bytes::{
    le16_at, le32_at, le64_at, le_byte, le_bytes, lemma_field32, lemma_field64,
};
use crate::thread_scheduler::policy::SchedulingClass;

use super::abi::{Abi, Handle, KernelHeapStats, Status};
use super::application::{application_args_in, power_record, process_record};
use super::children::create_args_in;
use super::handles::{channel_read_in, channel_write_in, received_records};
use super::kernel::{Event, PowerFacts, ProcessFacts, SchedulingFacts, ThreadFacts, ThreadState, WaitDeadline};
use super::memory::{memory_numbers, memory_record, number_records, MemoryFacts};
use super::paths::{
    entry_record, file_entry_record, info_record, metadata_record, FilesystemInfo, NodeKind,
    NodeMetadata,
};
use super::request_wire::{
    batch_in, buffer_in, buffers_in, output_record, output_records, submit_args_in, RequestBuffer,
    RequestSubmitOutput,
};
use super::threads::{scheduling_record, thread_args_in, thread_record};
use super::wait::wait_args_in;
use super::wire::{
    channel_record, disposition_in, dispositions_in, memory_policy_in, message_record,
    received_record, record, wait_item_in, wait_item_record, wait_items_in, wait_records,
    HandleOperationDisposition, MessageInfo, WaitItem,
};

verus! {

/// The place of a class in the order of classes, the most urgent first.
pub open spec fn class_place(class: SchedulingClass) -> int {
    match class {
        SchedulingClass::Critical => 0,
        SchedulingClass::Audio => 1,
        SchedulingClass::Interactive => 2,
        SchedulingClass::Normal => 3,
        SchedulingClass::Background => 4,
    }
}

/// The record of a thread tells its state, its number, how it left, the fault that ended it, its
/// time and its preemptions, each in its own place.
#[verifier::rlimit(60)]
pub proof fn law_threads_are_described_field_by_field(abi: Abi, thread: u64, facts: ThreadFacts)
    ensures
        thread_record(abi, thread, facts).len() == 64,
        le32_at(thread_record(abi, thread, facts), 0) == abi.versions.thread_info,
        le32_at(thread_record(abi, thread, facts), 4) == 64,
        le32_at(thread_record(abi, thread, facts), 8) == (match facts.state {
            ThreadState::Ready => abi.thread_states.running,
            ThreadState::Blocked => abi.thread_states.blocked,
            ThreadState::Exited(_) => abi.thread_states.exited,
            ThreadState::Faulted { .. } => abi.thread_states.faulted,
            ThreadState::Terminated => abi.thread_states.terminated,
        }),
        le64_at(thread_record(abi, thread, facts), 16) == thread,
        le32_at(thread_record(abi, thread, facts), 24) == (match facts.state {
            ThreadState::Exited(code) => if code < 0 {
                code + 0x1_0000_0000
            } else {
                code as int
            },
            _ => 0,
        }),
        le32_at(thread_record(abi, thread, facts), 28) == (match facts.state {
            ThreadState::Faulted { reason, .. } => abi.faults.number(reason),
            _ => 0,
        }),
        le64_at(thread_record(abi, thread, facts), 32) == (match facts.state {
            ThreadState::Faulted { code, .. } => code,
            _ => 0,
        }),
        le64_at(thread_record(abi, thread, facts), 40) == (match facts.state {
            ThreadState::Faulted { address: Some(at), .. } => at,
            _ => 0,
        }),
        le64_at(thread_record(abi, thread, facts), 48) == facts.cpu_time_ns,
        le64_at(thread_record(abi, thread, facts), 56) == facts.preemption_count,
{
    let record = thread_record(abi, thread, facts);
    assert(record.subrange(0, 4) =~= le_bytes((abi.versions.thread_info) as int, 4));
    lemma_field32(record, 0, (abi.versions.thread_info) as int);
    assert(record.subrange(4, 8) =~= le_bytes((64) as int, 4));
    lemma_field32(record, 4, (64) as int);
    assert(record.subrange(8, 12) =~= le_bytes(((match facts.state {
            ThreadState::Ready => abi.thread_states.running,
            ThreadState::Blocked => abi.thread_states.blocked,
            ThreadState::Exited(_) => abi.thread_states.exited,
            ThreadState::Faulted { .. } => abi.thread_states.faulted,
            ThreadState::Terminated => abi.thread_states.terminated,
        })) as int, 4));
    lemma_field32(record, 8, ((match facts.state {
            ThreadState::Ready => abi.thread_states.running,
            ThreadState::Blocked => abi.thread_states.blocked,
            ThreadState::Exited(_) => abi.thread_states.exited,
            ThreadState::Faulted { .. } => abi.thread_states.faulted,
            ThreadState::Terminated => abi.thread_states.terminated,
        })) as int);
    assert(record.subrange(16, 24) =~= le_bytes((thread) as int, 8));
    lemma_field64(record, 16, (thread) as int);
    assert(record.subrange(24, 28) =~= le_bytes(((match facts.state {
            ThreadState::Exited(code) => if code < 0 {
                code + 0x1_0000_0000
            } else {
                code as int
            },
            _ => 0,
        })) as int, 4));
    lemma_field32(record, 24, ((match facts.state {
            ThreadState::Exited(code) => if code < 0 {
                code + 0x1_0000_0000
            } else {
                code as int
            },
            _ => 0,
        })) as int);
    assert(record.subrange(28, 32) =~= le_bytes(((match facts.state {
            ThreadState::Faulted { reason, .. } => abi.faults.number(reason),
            _ => 0,
        })) as int, 4));
    lemma_field32(record, 28, ((match facts.state {
            ThreadState::Faulted { reason, .. } => abi.faults.number(reason),
            _ => 0,
        })) as int);
    assert(record.subrange(32, 40) =~= le_bytes(((match facts.state {
            ThreadState::Faulted { code, .. } => code,
            _ => 0,
        })) as int, 8));
    lemma_field64(record, 32, ((match facts.state {
            ThreadState::Faulted { code, .. } => code,
            _ => 0,
        })) as int);
    assert(record.subrange(40, 48) =~= le_bytes(((match facts.state {
            ThreadState::Faulted { address: Some(at), .. } => at,
            _ => 0,
        })) as int, 8));
    lemma_field64(record, 40, ((match facts.state {
            ThreadState::Faulted { address: Some(at), .. } => at,
            _ => 0,
        })) as int);
    assert(record.subrange(48, 56) =~= le_bytes((facts.cpu_time_ns) as int, 8));
    lemma_field64(record, 48, (facts.cpu_time_ns) as int);
    assert(record.subrange(56, 64) =~= le_bytes((facts.preemption_count) as int, 8));
    lemma_field64(record, 56, (facts.preemption_count) as int);
}

/// The record of how a thread was scheduled tells its classes, its state and each of its counts in
/// its own place.
#[verifier::rlimit(80)]
pub proof fn law_scheduling_is_described_field_by_field(abi: Abi, facts: SchedulingFacts)
    ensures
        scheduling_record(abi, facts).len() == 112,
        le32_at(scheduling_record(abi, facts), 0) == abi.versions.thread_scheduling_info,
        le32_at(scheduling_record(abi, facts), 4) == 112,
        le32_at(scheduling_record(abi, facts), 8) == class_place(facts.base_class),
        le32_at(scheduling_record(abi, facts), 12) == class_place(facts.effective_class),
        le32_at(scheduling_record(abi, facts), 16) == (match facts.state {
            ThreadState::Ready => abi.thread_states.running,
            ThreadState::Blocked => abi.thread_states.blocked,
            ThreadState::Exited(_) => abi.thread_states.exited,
            ThreadState::Faulted { .. } => abi.thread_states.faulted,
            ThreadState::Terminated => abi.thread_states.terminated,
        }),
        le64_at(scheduling_record(abi, facts), 24) == facts.budget_remaining_ns,
        le64_at(scheduling_record(abi, facts), 32) == facts.cpu_time_ns,
        le64_at(scheduling_record(abi, facts), 40) == facts.runnable_wait_ns,
        le64_at(scheduling_record(abi, facts), 48) == facts.wake_latency_ns,
        le64_at(scheduling_record(abi, facts), 56) == facts.maximum_wake_latency_ns,
        le64_at(scheduling_record(abi, facts), 64) == facts.wake_latency_samples,
        le64_at(scheduling_record(abi, facts), 72) == facts.wake_latency_target_misses,
        le64_at(scheduling_record(abi, facts), 80) == facts.context_switches,
        le64_at(scheduling_record(abi, facts), 88) == facts.deadline_misses,
        le64_at(scheduling_record(abi, facts), 96) == facts.throttling_events,
        le64_at(scheduling_record(abi, facts), 104) == facts.throttled_time_ns,
{
    let record = scheduling_record(abi, facts);
    assert(record.subrange(0, 4) =~= le_bytes((abi.versions.thread_scheduling_info) as int, 4));
    lemma_field32(record, 0, (abi.versions.thread_scheduling_info) as int);
    assert(record.subrange(4, 8) =~= le_bytes((112) as int, 4));
    lemma_field32(record, 4, (112) as int);
    assert(record.subrange(8, 12) =~= le_bytes((class_place(facts.base_class)) as int, 4));
    lemma_field32(record, 8, (class_place(facts.base_class)) as int);
    assert(record.subrange(12, 16) =~= le_bytes((class_place(facts.effective_class)) as int, 4));
    lemma_field32(record, 12, (class_place(facts.effective_class)) as int);
    assert(record.subrange(16, 20) =~= le_bytes(((match facts.state {
            ThreadState::Ready => abi.thread_states.running,
            ThreadState::Blocked => abi.thread_states.blocked,
            ThreadState::Exited(_) => abi.thread_states.exited,
            ThreadState::Faulted { .. } => abi.thread_states.faulted,
            ThreadState::Terminated => abi.thread_states.terminated,
        })) as int, 4));
    lemma_field32(record, 16, ((match facts.state {
            ThreadState::Ready => abi.thread_states.running,
            ThreadState::Blocked => abi.thread_states.blocked,
            ThreadState::Exited(_) => abi.thread_states.exited,
            ThreadState::Faulted { .. } => abi.thread_states.faulted,
            ThreadState::Terminated => abi.thread_states.terminated,
        })) as int);
    assert(record.subrange(24, 32) =~= le_bytes((facts.budget_remaining_ns) as int, 8));
    lemma_field64(record, 24, (facts.budget_remaining_ns) as int);
    assert(record.subrange(32, 40) =~= le_bytes((facts.cpu_time_ns) as int, 8));
    lemma_field64(record, 32, (facts.cpu_time_ns) as int);
    assert(record.subrange(40, 48) =~= le_bytes((facts.runnable_wait_ns) as int, 8));
    lemma_field64(record, 40, (facts.runnable_wait_ns) as int);
    assert(record.subrange(48, 56) =~= le_bytes((facts.wake_latency_ns) as int, 8));
    lemma_field64(record, 48, (facts.wake_latency_ns) as int);
    assert(record.subrange(56, 64) =~= le_bytes((facts.maximum_wake_latency_ns) as int, 8));
    lemma_field64(record, 56, (facts.maximum_wake_latency_ns) as int);
    assert(record.subrange(64, 72) =~= le_bytes((facts.wake_latency_samples) as int, 8));
    lemma_field64(record, 64, (facts.wake_latency_samples) as int);
    assert(record.subrange(72, 80) =~= le_bytes((facts.wake_latency_target_misses) as int, 8));
    lemma_field64(record, 72, (facts.wake_latency_target_misses) as int);
    assert(record.subrange(80, 88) =~= le_bytes((facts.context_switches) as int, 8));
    lemma_field64(record, 80, (facts.context_switches) as int);
    assert(record.subrange(88, 96) =~= le_bytes((facts.deadline_misses) as int, 8));
    lemma_field64(record, 88, (facts.deadline_misses) as int);
    assert(record.subrange(96, 104) =~= le_bytes((facts.throttling_events) as int, 8));
    lemma_field64(record, 96, (facts.throttling_events) as int);
    assert(record.subrange(104, 112) =~= le_bytes((facts.throttled_time_ns) as int, 8));
    lemma_field64(record, 104, (facts.throttled_time_ns) as int);
}

/// The record of a process tells its state, why it ended, its exit code and the fault that ended
/// it, each in its own place.
#[verifier::rlimit(30)]
pub proof fn law_processes_are_described_field_by_field(facts: ProcessFacts)
    ensures
        process_record(facts).len() == 32,
        le32_at(process_record(facts), 0) == facts.state,
        le32_at(process_record(facts), 4) == facts.cause,
        le32_at(process_record(facts), 8) == (if facts.exit_code < 0 {
            facts.exit_code + 0x1_0000_0000
        } else {
            facts.exit_code as int
        }),
        le32_at(process_record(facts), 12) == facts.fault,
        le64_at(process_record(facts), 16) == facts.fault_code,
        le64_at(process_record(facts), 24) == facts.fault_address,
{
    let record = process_record(facts);
    assert(record.subrange(0, 4) =~= le_bytes((facts.state) as int, 4));
    lemma_field32(record, 0, (facts.state) as int);
    assert(record.subrange(4, 8) =~= le_bytes((facts.cause) as int, 4));
    lemma_field32(record, 4, (facts.cause) as int);
    assert(record.subrange(8, 12) =~= le_bytes(((if facts.exit_code < 0 {
            facts.exit_code + 0x1_0000_0000
        } else {
            facts.exit_code as int
        })) as int, 4));
    lemma_field32(record, 8, ((if facts.exit_code < 0 {
            facts.exit_code + 0x1_0000_0000
        } else {
            facts.exit_code as int
        })) as int);
    assert(record.subrange(12, 16) =~= le_bytes((facts.fault) as int, 4));
    lemma_field32(record, 12, (facts.fault) as int);
    assert(record.subrange(16, 24) =~= le_bytes((facts.fault_code) as int, 8));
    lemma_field64(record, 16, (facts.fault_code) as int);
    assert(record.subrange(24, 32) =~= le_bytes((facts.fault_address) as int, 8));
    lemma_field64(record, 24, (facts.fault_address) as int);
}

/// The record of a request to power off tells its state, what was asked for, why it failed, its
/// number and its deadline, each in its own place.
#[verifier::rlimit(30)]
pub proof fn law_power_is_described_field_by_field(facts: PowerFacts)
    ensures
        power_record(facts).len() == 32,
        le32_at(power_record(facts), 0) == facts.state,
        le32_at(power_record(facts), 4) == facts.action,
        le32_at(power_record(facts), 8) == facts.flags,
        le32_at(power_record(facts), 12) == (if facts.failure_status < 0 {
            facts.failure_status + 0x1_0000_0000
        } else {
            facts.failure_status as int
        }),
        le64_at(power_record(facts), 16) == facts.sequence,
        le64_at(power_record(facts), 24) == facts.deadline_ns,
{
    let record = power_record(facts);
    assert(record.subrange(0, 4) =~= le_bytes((facts.state) as int, 4));
    lemma_field32(record, 0, (facts.state) as int);
    assert(record.subrange(4, 8) =~= le_bytes((facts.action) as int, 4));
    lemma_field32(record, 4, (facts.action) as int);
    assert(record.subrange(8, 12) =~= le_bytes((facts.flags) as int, 4));
    lemma_field32(record, 8, (facts.flags) as int);
    assert(record.subrange(12, 16) =~= le_bytes(((if facts.failure_status < 0 {
            facts.failure_status + 0x1_0000_0000
        } else {
            facts.failure_status as int
        })) as int, 4));
    lemma_field32(record, 12, ((if facts.failure_status < 0 {
            facts.failure_status + 0x1_0000_0000
        } else {
            facts.failure_status as int
        })) as int);
    assert(record.subrange(16, 24) =~= le_bytes((facts.sequence) as int, 8));
    lemma_field64(record, 16, (facts.sequence) as int);
    assert(record.subrange(24, 32) =~= le_bytes((facts.deadline_ns) as int, 8));
    lemma_field64(record, 24, (facts.deadline_ns) as int);
}

/// The record of a file or directory tells its kind, mode, size, number, times and owners, each in
/// its own place.
#[verifier::rlimit(60)]
pub proof fn law_nodes_are_described_field_by_field(metadata: NodeMetadata, ctime: u64, mtime: u64)
    ensures
        metadata_record(metadata, ctime, mtime).len() == 64,
        le32_at(metadata_record(metadata, ctime, mtime), 0) == (match metadata.kind {
            NodeKind::File => 1int,
            NodeKind::Directory => 2,
        }),
        le32_at(metadata_record(metadata, ctime, mtime), 4) == metadata.mode,
        le64_at(metadata_record(metadata, ctime, mtime), 8) == metadata.size,
        le64_at(metadata_record(metadata, ctime, mtime), 16) == metadata.identity,
        le64_at(metadata_record(metadata, ctime, mtime), 24) == ctime,
        le64_at(metadata_record(metadata, ctime, mtime), 32) == mtime,
        le32_at(metadata_record(metadata, ctime, mtime), 40) == metadata.uid,
        le32_at(metadata_record(metadata, ctime, mtime), 44) == metadata.gid,
        le32_at(metadata_record(metadata, ctime, mtime), 48) == metadata.policy,
{
    let record = metadata_record(metadata, ctime, mtime);
    assert(record.subrange(0, 4) =~= le_bytes(((match metadata.kind {
            NodeKind::File => 1int,
            NodeKind::Directory => 2,
        })) as int, 4));
    lemma_field32(record, 0, ((match metadata.kind {
            NodeKind::File => 1int,
            NodeKind::Directory => 2,
        })) as int);
    assert(record.subrange(4, 8) =~= le_bytes((metadata.mode) as int, 4));
    lemma_field32(record, 4, (metadata.mode) as int);
    assert(record.subrange(8, 16) =~= le_bytes((metadata.size) as int, 8));
    lemma_field64(record, 8, (metadata.size) as int);
    assert(record.subrange(16, 24) =~= le_bytes((metadata.identity) as int, 8));
    lemma_field64(record, 16, (metadata.identity) as int);
    assert(record.subrange(24, 32) =~= le_bytes((ctime) as int, 8));
    lemma_field64(record, 24, (ctime) as int);
    assert(record.subrange(32, 40) =~= le_bytes((mtime) as int, 8));
    lemma_field64(record, 32, (mtime) as int);
    assert(record.subrange(40, 44) =~= le_bytes((metadata.uid) as int, 4));
    lemma_field32(record, 40, (metadata.uid) as int);
    assert(record.subrange(44, 48) =~= le_bytes((metadata.gid) as int, 4));
    lemma_field32(record, 44, (metadata.gid) as int);
    assert(record.subrange(48, 52) =~= le_bytes((metadata.policy) as int, 4));
    lemma_field32(record, 48, (metadata.policy) as int);
}

/// The record of a file system tells its capacity, what is free of it, its block and the limits on
/// names and paths, each in its own place.
#[verifier::rlimit(60)]
pub proof fn law_file_systems_are_described_field_by_field(abi: Abi, info: FilesystemInfo)
    requires
        info.block_size <= u32::MAX,
    ensures
        info_record(abi, info).len() == 64,
        le64_at(info_record(abi, info), 0) == info.capacity_bytes,
        le64_at(info_record(abi, info), 8) == (match info.free_bytes {
            Some(bytes) => bytes,
            None => 0,
        }),
        le64_at(info_record(abi, info), 16) == (match info.free_bytes {
            Some(bytes) => bytes,
            None => 0,
        }),
        le32_at(info_record(abi, info), 24) == info.block_size,
        le32_at(info_record(abi, info), 28) == abi.limits.filesystem_name,
        le32_at(info_record(abi, info), 32) == abi.limits.traversal_depth,
{
    let record = info_record(abi, info);
    assert(record.subrange(0, 8) =~= le_bytes((info.capacity_bytes) as int, 8));
    lemma_field64(record, 0, (info.capacity_bytes) as int);
    assert(record.subrange(8, 16) =~= le_bytes(((match info.free_bytes {
            Some(bytes) => bytes,
            None => 0,
        })) as int, 8));
    lemma_field64(record, 8, ((match info.free_bytes {
            Some(bytes) => bytes,
            None => 0,
        })) as int);
    assert(record.subrange(16, 24) =~= le_bytes(((match info.free_bytes {
            Some(bytes) => bytes,
            None => 0,
        })) as int, 8));
    lemma_field64(record, 16, ((match info.free_bytes {
            Some(bytes) => bytes,
            None => 0,
        })) as int);
    assert(record.subrange(24, 28) =~= le_bytes((info.block_size) as int, 4));
    lemma_field32(record, 24, (info.block_size) as int);
    assert(record.subrange(28, 32) =~= le_bytes((abi.limits.filesystem_name) as int, 4));
    lemma_field32(record, 28, (abi.limits.filesystem_name) as int);
    assert(record.subrange(32, 36) =~= le_bytes((abi.limits.traversal_depth) as int, 4));
    lemma_field32(record, 32, (abi.limits.traversal_depth) as int);
}

/// The record of a name in a directory tells the number to go on from, the size, the number, the
/// kind and the name, each in its own place.
#[verifier::rlimit(60)]
pub proof fn law_names_are_described_field_by_field(metadata: NodeMetadata, name: Seq<u8>)
    requires
        name.len() <= 252,
    ensures
        entry_record(metadata, name).len() == 288,
        le64_at(entry_record(metadata, name), 0) == metadata.identity,
        le64_at(entry_record(metadata, name), 8) == metadata.size,
        le64_at(entry_record(metadata, name), 16) == metadata.identity,
        le32_at(entry_record(metadata, name), 24) == (match metadata.kind {
            NodeKind::File => 1int,
            NodeKind::Directory => 2,
        }),
        le16_at(entry_record(metadata, name), 28) == name.len(),
        entry_record(metadata, name).subrange(36, 36 + name.len() as int) == name,
{
    let record = entry_record(metadata, name);
    assert(record.subrange(36, 36 + name.len() as int) =~= name);
    assert(record.subrange(0, 8) =~= le_bytes((metadata.identity) as int, 8));
    lemma_field64(record, 0, (metadata.identity) as int);
    assert(record.subrange(8, 16) =~= le_bytes((metadata.size) as int, 8));
    lemma_field64(record, 8, (metadata.size) as int);
    assert(record.subrange(16, 24) =~= le_bytes((metadata.identity) as int, 8));
    lemma_field64(record, 16, (metadata.identity) as int);
    assert(record.subrange(24, 28) =~= le_bytes(((match metadata.kind {
            NodeKind::File => 1int,
            NodeKind::Directory => 2,
        })) as int, 4));
    lemma_field32(record, 24, ((match metadata.kind {
            NodeKind::File => 1int,
            NodeKind::Directory => 2,
        })) as int);
    assert(record[28] == le_byte((name.len()) as int, 0));
    assert(record[29] == le_byte((name.len()) as int, 1));
}

/// The record of a file in a directory tells the number to go on from, the length and the name,
/// each in its own place.
#[verifier::rlimit(60)]
pub proof fn law_files_are_listed_field_by_field(size: int, next_cookie: u64, len: u64, name: Seq<u8>)
    requires
        24 + name.len() <= size,
        name.len() <= u16::MAX,
    ensures
        file_entry_record(size, next_cookie, len, name).len() == size,
        le64_at(file_entry_record(size, next_cookie, len, name), 0) == next_cookie,
        le64_at(file_entry_record(size, next_cookie, len, name), 8) == len,
        le16_at(file_entry_record(size, next_cookie, len, name), 16) == name.len(),
        file_entry_record(size, next_cookie, len, name).subrange(24, 24 + name.len() as int) == name,
{
    let record = file_entry_record(size, next_cookie, len, name);
    assert(record.subrange(24, 24 + name.len() as int) =~= name);
    assert(record.subrange(0, 8) =~= le_bytes((next_cookie) as int, 8));
    lemma_field64(record, 0, (next_cookie) as int);
    assert(record.subrange(8, 16) =~= le_bytes((len) as int, 8));
    lemma_field64(record, 8, (len) as int);
    assert(record[16] == le_byte((name.len()) as int, 0));
    assert(record[17] == le_byte((name.len()) as int, 1));
}

/// The record of a channel that was made tells its first end, then its second.
pub proof fn law_ends_are_described_field_by_field(first: Handle, second: Handle)
    ensures
        channel_record(first, second).len() == 8,
        le32_at(channel_record(first, second), 0) == first.0,
        le32_at(channel_record(first, second), 4) == second.0,
{
    let record = channel_record(first, second);
    assert(record.subrange(0, 4) =~= le_bytes((first.0) as int, 4));
    lemma_field32(record, 0, (first.0) as int);
    assert(record.subrange(4, 8) =~= le_bytes((second.0) as int, 4));
    lemma_field32(record, 4, (second.0) as int);
}

/// The record of a message tells how many bytes it has, then how many handles.
pub proof fn law_messages_are_described_field_by_field(info: MessageInfo)
    ensures
        message_record(info).len() == 8,
        le32_at(message_record(info), 0) == info.byte_count,
        le16_at(message_record(info), 4) == info.handle_count,
{
    let record = message_record(info);
    assert(record.subrange(0, 4) =~= le_bytes((info.byte_count) as int, 4));
    lemma_field32(record, 0, (info.byte_count) as int);
    assert(record[4] == le_byte((info.handle_count) as int, 0));
    assert(record[5] == le_byte((info.handle_count) as int, 1));
}

/// The record of a handle that was received tells the handle, its rights and its type, each in its
/// own place.
pub proof fn law_received_handles_are_described_field_by_field(handle: Handle, rights: u32, object_type: u32)
    ensures
        received_record(handle, rights, object_type).len() == 16,
        le32_at(received_record(handle, rights, object_type), 0) == handle.0,
        le32_at(received_record(handle, rights, object_type), 4) == rights,
        le32_at(received_record(handle, rights, object_type), 8) == object_type,
{
    let record = received_record(handle, rights, object_type);
    assert(record.subrange(0, 4) =~= le_bytes((handle.0) as int, 4));
    lemma_field32(record, 0, (handle.0) as int);
    assert(record.subrange(4, 8) =~= le_bytes((rights) as int, 4));
    lemma_field32(record, 4, (rights) as int);
    assert(record.subrange(8, 12) =~= le_bytes((object_type) as int, 4));
    lemma_field32(record, 8, (object_type) as int);
}

/// The record of a request that was submitted tells its handle, its state, its result and how much
/// was moved, each in its own place.
#[verifier::rlimit(30)]
pub proof fn law_requests_are_described_field_by_field(output: RequestSubmitOutput)
    ensures
        output_record(output).len() == 24,
        le32_at(output_record(output), 0) == output.request.0,
        le32_at(output_record(output), 4) == output.state,
        le32_at(output_record(output), 8) == (if output.result < 0 {
            output.result + 0x1_0000_0000
        } else {
            output.result as int
        }),
        le32_at(output_record(output), 12) == output.result_flags,
        le64_at(output_record(output), 16) == output.bytes_transferred,
{
    let record = output_record(output);
    assert(record.subrange(0, 4) =~= le_bytes((output.request.0) as int, 4));
    lemma_field32(record, 0, (output.request.0) as int);
    assert(record.subrange(4, 8) =~= le_bytes((output.state) as int, 4));
    lemma_field32(record, 4, (output.state) as int);
    assert(record.subrange(8, 12) =~= le_bytes(((if output.result < 0 {
            output.result + 0x1_0000_0000
        } else {
            output.result as int
        })) as int, 4));
    lemma_field32(record, 8, ((if output.result < 0 {
            output.result + 0x1_0000_0000
        } else {
            output.result as int
        })) as int);
    assert(record.subrange(12, 16) =~= le_bytes((output.result_flags) as int, 4));
    lemma_field32(record, 12, (output.result_flags) as int);
    assert(record.subrange(16, 24) =~= le_bytes((output.bytes_transferred) as int, 8));
    lemma_field64(record, 16, (output.bytes_transferred) as int);
}

/// The record of something that is waited for tells the handle, the signals that are waited for
/// and those that are pending, each in its own place.
pub proof fn law_wait_items_are_described_field_by_field(item: WaitItem)
    ensures
        wait_item_record(item).len() == 12,
        le32_at(wait_item_record(item), 0) == item.handle.0,
        le32_at(wait_item_record(item), 4) == item.wait_for,
        le32_at(wait_item_record(item), 8) == item.pending,
{
    let record = wait_item_record(item);
    assert(record.subrange(0, 4) =~= le_bytes((item.handle.0) as int, 4));
    lemma_field32(record, 0, (item.handle.0) as int);
    assert(record.subrange(4, 8) =~= le_bytes((item.wait_for) as int, 4));
    lemma_field32(record, 4, (item.wait_for) as int);
    assert(record.subrange(8, 12) =~= le_bytes((item.pending) as int, 4));
    lemma_field32(record, 8, (item.pending) as int);
}

/// Numbers are told one after the other, eight bytes each.
proof fn lemma_number_records(numbers: Seq<u64>)
    ensures
        number_records(numbers).len() == 8 * numbers.len(),
        forall|i: int|
            0 <= i < numbers.len() ==> number_records(numbers).subrange(8 * i, 8 * i + 8)
                == le_bytes(#[trigger] numbers[i] as int, 8),
    decreases numbers.len(),
{
    if numbers.len() > 0 {
        let front = numbers.drop_last();
        lemma_number_records(front);
        assert forall|i: int| 0 <= i < numbers.len() implies number_records(numbers).subrange(
            8 * i,
            8 * i + 8,
        ) == le_bytes(#[trigger] numbers[i] as int, 8) by {
            if i < front.len() {
                assert(front[i] == numbers[i]);
                assert(number_records(numbers).subrange(8 * i, 8 * i + 8) =~= number_records(
                    front,
                ).subrange(8 * i, 8 * i + 8));
            } else {
                assert(number_records(numbers).subrange(8 * i, 8 * i + 8) =~= le_bytes(
                    numbers[i] as int,
                    8,
                ));
            }
        }
    }
}

/// Number `i` of the record of memory is number `i` of what is told.
proof fn lemma_memory_number(version: u32, size: u32, facts: MemoryFacts, heap: KernelHeapStats, i: int)
    requires
        0 <= i < memory_numbers(facts, heap).len(),
    ensures
        le64_at(memory_record(version, size, facts, heap), 8 + 8 * i) == memory_numbers(
            facts,
            heap,
        )[i],
{
    let told = memory_record(version, size, facts, heap);
    let numbers = memory_numbers(facts, heap);
    lemma_number_records(numbers);
    assert(numbers[i] == numbers[i]);
    assert(told.subrange(8 + 8 * i, 8 + 8 * i + 8) =~= number_records(numbers).subrange(
        8 * i,
        8 * i + 8,
    ));
    lemma_field64(told, 8 + 8 * i, numbers[i] as int);
}

/// The record of memory tells its version, its size and each number in its own place.
#[verifier::rlimit(60)]
pub proof fn law_memory_is_described_field_by_field(
    version: u32,
    size: u32,
    facts: MemoryFacts,
    heap: KernelHeapStats,
)
    ensures
        memory_record(version, size, facts, heap).len() == 400,
        le32_at(memory_record(version, size, facts, heap), 0) == version,
        le32_at(memory_record(version, size, facts, heap), 4) == size,
        le64_at(memory_record(version, size, facts, heap), 8) == facts.total_eligible_frames,
        le64_at(memory_record(version, size, facts, heap), 16) == facts.total_eligible_bytes,
        le64_at(memory_record(version, size, facts, heap), 24) == facts.below_4g_frames,
        le64_at(memory_record(version, size, facts, heap), 32) == facts.above_4g_frames,
        le64_at(memory_record(version, size, facts, heap), 40) == facts.highest_usable_address,
        le64_at(memory_record(version, size, facts, heap), 48) == facts.highest_issued_address,
        le64_at(memory_record(version, size, facts, heap), 56) == facts.fresh_issued_frames,
        le64_at(memory_record(version, size, facts, heap), 64) == facts.fresh_remaining_frames,
        le64_at(memory_record(version, size, facts, heap), 72) == facts.available_frames,
        le64_at(memory_record(version, size, facts, heap), 80) == facts.available_bytes,
        le64_at(memory_record(version, size, facts, heap), 88) == facts.live_allocated_frames,
        le64_at(memory_record(version, size, facts, heap), 96) == facts.reclaimed_free_frames,
        le64_at(memory_record(version, size, facts, heap), 104) == facts.reserved_eligible_frames,
        le64_at(memory_record(version, size, facts, heap), 112) == facts.dma_low_allocations,
        le64_at(memory_record(version, size, facts, heap), 120) == facts.dma_low_live_frames,
        le64_at(memory_record(version, size, facts, heap), 128) == facts.dma_low_failures,
        le64_at(memory_record(version, size, facts, heap), 136) == facts.allocation_failures,
        le64_at(memory_record(version, size, facts, heap), 144) == heap.committed_bytes,
        le64_at(memory_record(version, size, facts, heap), 152) == heap.available_bytes,
        le64_at(memory_record(version, size, facts, heap), 160) == heap.growth_failures,
        le64_at(memory_record(version, size, facts, heap), 168) == facts.private_page_limit,
        le64_at(memory_record(version, size, facts, heap), 176) == facts.shared_memory_byte_limit,
        le64_at(memory_record(version, size, facts, heap), 184) == facts.mapped_shared_byte_limit,
        le64_at(memory_record(version, size, facts, heap), 192) == facts.reserved_virtual_byte_limit,
        le64_at(memory_record(version, size, facts, heap), 200) == facts.vma_limit,
        le64_at(memory_record(version, size, facts, heap), 208) == facts.executable_image_page_limit,
        le64_at(memory_record(version, size, facts, heap), 216) == facts.executable_source_byte_limit,
        le64_at(memory_record(version, size, facts, heap), 224) == facts.reserved_virtual_bytes,
        le64_at(memory_record(version, size, facts, heap), 232) == facts.committed_private_pages,
        le64_at(memory_record(version, size, facts, heap), 240) == facts.resident_owned_frames,
        le64_at(memory_record(version, size, facts, heap), 248) == facts.shared_memory_bytes,
        le64_at(memory_record(version, size, facts, heap), 256) == facts.mapped_shared_pages,
        le64_at(memory_record(version, size, facts, heap), 264) == facts.mapped_shared_bytes,
        le64_at(memory_record(version, size, facts, heap), 272) == facts.quota_failures,
        le64_at(memory_record(version, size, facts, heap), 280) == facts.oom_failures,
        le64_at(memory_record(version, size, facts, heap), 288) == facts.current_vma_count,
        le64_at(memory_record(version, size, facts, heap), 296) == facts.page_table_frames,
        le64_at(memory_record(version, size, facts, heap), 304) == facts.committed_image_pages,
        le64_at(memory_record(version, size, facts, heap), 312) == facts.committed_stack_pages,
        le64_at(memory_record(version, size, facts, heap), 320) == facts.committed_anonymous_pages,
        le64_at(memory_record(version, size, facts, heap), 328) == facts.committed_file_backed_pages,
        le64_at(memory_record(version, size, facts, heap), 336) == facts.shared_arena_owned_frames,
        le64_at(memory_record(version, size, facts, heap), 344) == facts.shared_arena_free_frames,
        le64_at(memory_record(version, size, facts, heap), 352) == facts.shared_arena_returned_frames,
        le64_at(memory_record(version, size, facts, heap), 360) == facts.shared_arena_reclaimed_frames,
        le64_at(memory_record(version, size, facts, heap), 368) == facts.shared_arena_reclaim_failures,
        le64_at(memory_record(version, size, facts, heap), 376) == facts.system_shared_live_objects,
        le64_at(memory_record(version, size, facts, heap), 384) == facts.system_shared_logical_bytes,
        le64_at(memory_record(version, size, facts, heap), 392) == facts.system_shared_backing_bytes,
{
    let told = memory_record(version, size, facts, heap);
    let numbers = memory_numbers(facts, heap);
    lemma_number_records(numbers);
    assert(told.subrange(0, 4) =~= le_bytes(version as int, 4));
    lemma_field32(told, 0, version as int);
    assert(told.subrange(4, 8) =~= le_bytes(size as int, 4));
    lemma_field32(told, 4, size as int);
    assert(numbers[0] == facts.total_eligible_frames);
    lemma_memory_number(version, size, facts, heap, 0);
    assert(numbers[1] == facts.total_eligible_bytes);
    lemma_memory_number(version, size, facts, heap, 1);
    assert(numbers[2] == facts.below_4g_frames);
    lemma_memory_number(version, size, facts, heap, 2);
    assert(numbers[3] == facts.above_4g_frames);
    lemma_memory_number(version, size, facts, heap, 3);
    assert(numbers[4] == facts.highest_usable_address);
    lemma_memory_number(version, size, facts, heap, 4);
    assert(numbers[5] == facts.highest_issued_address);
    lemma_memory_number(version, size, facts, heap, 5);
    assert(numbers[6] == facts.fresh_issued_frames);
    lemma_memory_number(version, size, facts, heap, 6);
    assert(numbers[7] == facts.fresh_remaining_frames);
    lemma_memory_number(version, size, facts, heap, 7);
    assert(numbers[8] == facts.available_frames);
    lemma_memory_number(version, size, facts, heap, 8);
    assert(numbers[9] == facts.available_bytes);
    lemma_memory_number(version, size, facts, heap, 9);
    assert(numbers[10] == facts.live_allocated_frames);
    lemma_memory_number(version, size, facts, heap, 10);
    assert(numbers[11] == facts.reclaimed_free_frames);
    lemma_memory_number(version, size, facts, heap, 11);
    assert(numbers[12] == facts.reserved_eligible_frames);
    lemma_memory_number(version, size, facts, heap, 12);
    assert(numbers[13] == facts.dma_low_allocations);
    lemma_memory_number(version, size, facts, heap, 13);
    assert(numbers[14] == facts.dma_low_live_frames);
    lemma_memory_number(version, size, facts, heap, 14);
    assert(numbers[15] == facts.dma_low_failures);
    lemma_memory_number(version, size, facts, heap, 15);
    assert(numbers[16] == facts.allocation_failures);
    lemma_memory_number(version, size, facts, heap, 16);
    assert(numbers[17] == heap.committed_bytes);
    lemma_memory_number(version, size, facts, heap, 17);
    assert(numbers[18] == heap.available_bytes);
    lemma_memory_number(version, size, facts, heap, 18);
    assert(numbers[19] == heap.growth_failures);
    lemma_memory_number(version, size, facts, heap, 19);
    assert(numbers[20] == facts.private_page_limit);
    lemma_memory_number(version, size, facts, heap, 20);
    assert(numbers[21] == facts.shared_memory_byte_limit);
    lemma_memory_number(version, size, facts, heap, 21);
    assert(numbers[22] == facts.mapped_shared_byte_limit);
    lemma_memory_number(version, size, facts, heap, 22);
    assert(numbers[23] == facts.reserved_virtual_byte_limit);
    lemma_memory_number(version, size, facts, heap, 23);
    assert(numbers[24] == facts.vma_limit);
    lemma_memory_number(version, size, facts, heap, 24);
    assert(numbers[25] == facts.executable_image_page_limit);
    lemma_memory_number(version, size, facts, heap, 25);
    assert(numbers[26] == facts.executable_source_byte_limit);
    lemma_memory_number(version, size, facts, heap, 26);
    assert(numbers[27] == facts.reserved_virtual_bytes);
    lemma_memory_number(version, size, facts, heap, 27);
    assert(numbers[28] == facts.committed_private_pages);
    lemma_memory_number(version, size, facts, heap, 28);
    assert(numbers[29] == facts.resident_owned_frames);
    lemma_memory_number(version, size, facts, heap, 29);
    assert(numbers[30] == facts.shared_memory_bytes);
    lemma_memory_number(version, size, facts, heap, 30);
    assert(numbers[31] == facts.mapped_shared_pages);
    lemma_memory_number(version, size, facts, heap, 31);
    assert(numbers[32] == facts.mapped_shared_bytes);
    lemma_memory_number(version, size, facts, heap, 32);
    assert(numbers[33] == facts.quota_failures);
    lemma_memory_number(version, size, facts, heap, 33);
    assert(numbers[34] == facts.oom_failures);
    lemma_memory_number(version, size, facts, heap, 34);
    assert(numbers[35] == facts.current_vma_count);
    lemma_memory_number(version, size, facts, heap, 35);
    assert(numbers[36] == facts.page_table_frames);
    lemma_memory_number(version, size, facts, heap, 36);
    assert(numbers[37] == facts.committed_image_pages);
    lemma_memory_number(version, size, facts, heap, 37);
    assert(numbers[38] == facts.committed_stack_pages);
    lemma_memory_number(version, size, facts, heap, 38);
    assert(numbers[39] == facts.committed_anonymous_pages);
    lemma_memory_number(version, size, facts, heap, 39);
    assert(numbers[40] == facts.committed_file_backed_pages);
    lemma_memory_number(version, size, facts, heap, 40);
    assert(numbers[41] == facts.shared_arena_owned_frames);
    lemma_memory_number(version, size, facts, heap, 41);
    assert(numbers[42] == facts.shared_arena_free_frames);
    lemma_memory_number(version, size, facts, heap, 42);
    assert(numbers[43] == facts.shared_arena_returned_frames);
    lemma_memory_number(version, size, facts, heap, 43);
    assert(numbers[44] == facts.shared_arena_reclaimed_frames);
    lemma_memory_number(version, size, facts, heap, 44);
    assert(numbers[45] == facts.shared_arena_reclaim_failures);
    lemma_memory_number(version, size, facts, heap, 45);
    assert(numbers[46] == facts.system_shared_live_objects);
    lemma_memory_number(version, size, facts, heap, 46);
    assert(numbers[47] == facts.system_shared_logical_bytes);
    lemma_memory_number(version, size, facts, heap, 47);
    assert(numbers[48] == facts.system_shared_backing_bytes);
    lemma_memory_number(version, size, facts, heap, 48);
}

/// What a field reads as fits the field.
proof fn lemma_fields(bytes: Seq<u8>)
    ensures
        forall|at: int| 0 <= #[trigger] le32_at(bytes, at) <= u32::MAX,
        forall|at: int| 0 <= #[trigger] le64_at(bytes, at) <= u64::MAX,
{
}

/// A record of a thread that is to be made reads as it stands.
pub proof fn law_thread_records_read_field_by_field(abi: Abi, raw: Seq<u8>)
    ensures
        thread_args_in(abi, raw) is Ok <==> raw.len() == 56 && le32_at(raw, 0) == abi.versions.thread_create_args
            && le32_at(raw, 4) == 56 && le32_at(raw, 40) == 0 && le32_at(raw, 44) == 0,
        thread_args_in(abi, raw) matches Ok(found) ==> {
            &&& found.entry == le64_at(raw, 8)
            &&& found.argument == le64_at(raw, 16)
            &&& found.stack_size == le64_at(raw, 24)
            &&& found.tls_base == le64_at(raw, 32)
            &&& found.output_address == le64_at(raw, 48)
        },
{
    lemma_fields(raw);
}

/// A record of a message that is to be sent reads as it stands.
pub proof fn law_sent_messages_read_field_by_field(abi: Abi, raw: Seq<u8>)
    ensures
        channel_write_in(abi, raw) is Ok <==> raw.len() == 40 && le32_at(raw, 32) == 0 && le32_at(raw, 36) == 0
            && le64_at(raw, 8) <= abi.limits.channel_bytes && le64_at(raw, 24) <= abi.limits.channel_handles
            && le64_at(raw, 8) <= usize::MAX && le64_at(raw, 24) * 16 <= usize::MAX,
        channel_write_in(abi, raw) matches Ok(found) ==> {
            &&& found.bytes_address == le64_at(raw, 0)
            &&& found.byte_count == le64_at(raw, 8)
            &&& found.dispositions_address == le64_at(raw, 16)
            &&& found.disposition_bytes == 16 * le64_at(raw, 24)
        },
{
    lemma_fields(raw);
}

/// A record of a message that is to be received reads as it stands.
pub proof fn law_awaited_messages_read_field_by_field(abi: Abi, raw: Seq<u8>)
    ensures
        channel_read_in(abi, raw) is Ok <==> raw.len() == 48 && le32_at(raw, 40) == 0 && le32_at(raw, 44) == 0
            && le64_at(raw, 8) <= abi.limits.channel_bytes && le64_at(raw, 24) <= abi.limits.channel_handles
            && le64_at(raw, 8) <= usize::MAX && le64_at(raw, 24) * 16 <= usize::MAX,
        channel_read_in(abi, raw) matches Ok(found) ==> {
            &&& found.bytes_address == le64_at(raw, 0)
            &&& found.byte_capacity == le64_at(raw, 8)
            &&& found.handles_address == le64_at(raw, 16)
            &&& found.handle_capacity == le64_at(raw, 24)
            &&& found.handle_bytes == 16 * le64_at(raw, 24)
            &&& found.output_address == le64_at(raw, 32)
        },
{
    lemma_fields(raw);
}

/// A record of application data that is to be made reads as it stands.
pub proof fn law_application_records_read_field_by_field(abi: Abi, raw: Seq<u8>)
    ensures
        application_args_in(abi, raw) is Ok <==> raw.len() == 32 && le32_at(raw, 4) == 0 && le64_at(raw, 16) <= abi.limits.app_id_bytes
            && le64_at(raw, 16) <= usize::MAX,
        application_args_in(abi, raw) matches Ok(found) ==> {
            &&& found.root.0 == le32_at(raw, 0)
            &&& found.app_id_address == le64_at(raw, 8)
            &&& found.app_id_length == le64_at(raw, 16)
            &&& found.output_address == le64_at(raw, 24)
        },
{
    lemma_fields(raw);
}

/// A record of a process that is to be made reads as it stands; the longer one says where the
/// limits are.
pub proof fn law_process_records_read_field_by_field(abi: Abi, raw: Seq<u8>, extended: bool)
    ensures
        create_args_in(abi, raw, extended) is Ok <==> raw.len() == (if extended {
            80int
        } else {
            64
        }) && le32_at(raw, 4) == 0 && (extended ==> le32_at(raw, 64) == 1 && le32_at(raw, 68) == 80)
            && le64_at(raw, 16) <= abi.limits.startup_bytes && le64_at(raw, 32)
            <= abi.limits.startup_handles && le64_at(raw, 48) <= abi.limits.startup_bytes
            && le64_at(raw, 16) <= usize::MAX && le64_at(raw, 32) <= usize::MAX && le64_at(raw, 48)
            <= usize::MAX,
        create_args_in(abi, raw, extended) matches Ok(found) ==> {
            &&& found.executable.0 == le32_at(raw, 0)
            &&& found.args_address == le64_at(raw, 8)
            &&& found.args_length == le64_at(raw, 16)
            &&& found.dispositions_address == le64_at(raw, 24)
            &&& found.disposition_count == le64_at(raw, 32)
            &&& found.config_address == le64_at(raw, 40)
            &&& found.config_length == le64_at(raw, 48)
            &&& found.output_address == le64_at(raw, 56)
            &&& found.policy_address is Some == extended
            &&& found.policy_address->Some_0 == le64_at(raw, 72) || !extended
        },
{
    lemma_fields(raw);
}

/// A record of the limits of a process reads as it stands.
pub proof fn law_limits_read_field_by_field(abi: Abi, raw: Seq<u8>)
    ensures
        memory_policy_in(abi, raw) is Ok <==> raw.len() == 64 && le32_at(raw, 0) == abi.versions.process_memory_policy && le32_at(
            raw,
            4,
        ) == 64,
        memory_policy_in(abi, raw) matches Ok(found) ==> {
            &&& found.private_pages == le64_at(raw, 8)
            &&& found.shared_memory_bytes == le64_at(raw, 16)
            &&& found.mapped_shared_bytes == le64_at(raw, 24)
            &&& found.reserved_virtual_bytes == le64_at(raw, 32)
            &&& found.vma_count == le64_at(raw, 40)
            &&& found.executable_image_pages == le64_at(raw, 48)
            &&& found.executable_source_bytes == le64_at(raw, 56)
        },
{
    lemma_fields(raw);
}

/// A record of a request reads as it stands; its deadline is a signed number.
pub proof fn law_requests_read_field_by_field(abi: Abi, raw: Seq<u8>)
    ensures
        submit_args_in(abi, raw) is Ok <==> raw.len() == 64 && le32_at(raw, 0) == abi.versions.request_submit_args && le32_at(
            raw,
            4,
        ) == 64 && le32_at(raw, 36) == 0,
        submit_args_in(abi, raw) matches Ok(found) ==> {
            &&& found.target.0 == le32_at(raw, 8)
            &&& found.operation == le32_at(raw, 12)
            &&& found.completion_mode == le32_at(raw, 16)
            &&& found.flags == le32_at(raw, 20)
            &&& found.buffers_address == le64_at(raw, 24)
            &&& found.buffer_count == le32_at(raw, 32)
            &&& found.operation_argument == le64_at(raw, 40)
            &&& found.deadline_ns == (if le64_at(raw, 48) > i64::MAX {
                le64_at(raw, 48) - 0x1_0000_0000_0000_0000
            } else {
                le64_at(raw, 48)
            })
            &&& found.user_data == le64_at(raw, 56)
        },
{
    lemma_fields(raw);
}

/// A record of a buffer reads as it stands.
pub proof fn law_buffers_read_field_by_field(abi: Abi, raw: Seq<u8>)
    ensures
        buffer_in(abi, raw) matches Ok(found) ==> {
            &&& found.flags == le32_at(raw, 4)
            &&& found.address == le64_at(raw, 8)
            &&& found.length == le64_at(raw, 16)
            &&& found.handle.0 == le32_at(raw, 24)
            &&& found.offset == le64_at(raw, 32)
            &&& found.length == le64_at(raw, 16)
        },
{
    lemma_fields(raw);
}

/// A record of a batch reads as it stands: so many requests, sixty-four bytes each, and as many
/// answers, twenty-four bytes each.
pub proof fn law_batches_read_field_by_field(abi: Abi, raw: Seq<u8>)
    ensures
        batch_in(abi, raw) matches Ok(found) ==> {
            &&& found.submissions_address == le64_at(raw, 8)
            &&& found.count == le32_at(raw, 16)
            &&& found.submissions_len == 64 * le32_at(raw, 16)
            &&& found.outputs_address == le64_at(raw, 24)
            &&& found.outputs_len == 24 * le32_at(raw, 16)
        },
{
    lemma_fields(raw);
}

/// A record of a wait reads as it stands: where the items are, how many, and until when to wait,
/// which no negative number says.
pub proof fn law_waits_read_field_by_field(abi: Abi, raw: Seq<u8>)
    ensures
        wait_args_in(abi, raw) is Ok <==> 0 < le64_at(raw, 8) <= 64 && le64_at(raw, 16) <= i64::MAX && le64_at(raw, 8)
            <= usize::MAX && le64_at(raw, 8) * 12 <= usize::MAX,
        wait_args_in(abi, raw) matches Ok(found) ==> {
            &&& found.items_address == le64_at(raw, 0)
            &&& found.items_len == 12 * le64_at(raw, 8)
            &&& found.deadline == (if le64_at(raw, 16) == abi.deadline_infinite {
                WaitDeadline::Infinite
            } else {
                WaitDeadline::At(le64_at(raw, 16) as u64)
            })
        },
{
    lemma_fields(raw);
}

/// A record of something that is waited for reads as it stands, and reads back as what was
/// written.
pub proof fn law_wait_items_read_as_they_are_written(abi: Abi, raw: Seq<u8>)
    ensures
        wait_item_in(abi, raw) matches Ok(found) ==> {
            &&& found.handle.0 == le32_at(raw, 0)
            &&& found.wait_for == le32_at(raw, 4)
            &&& found.pending == le32_at(raw, 8)
        },
{
    lemma_fields(raw);
}

/// A record of a handle that is handed over reads as it stands: the handle, whether it moves or is
/// duplicated, and its rights.
pub proof fn law_dispositions_read_field_by_field(abi: Abi, raw: Seq<u8>)
    ensures
        disposition_in(abi, raw) matches Ok(found) ==> {
            &&& found.handle.0 == le32_at(raw, 0)
            &&& found.operation is Move == (le32_at(raw, 4) == 0)
            &&& found.operation is Duplicate == (le32_at(raw, 4) == 1)
            &&& found.rights == le32_at(raw, 8)
        },
{
    lemma_fields(raw);
}

/// Records of handles that are handed over follow one another, sixteen bytes each, and one that
/// does not read spoils them all.
pub proof fn law_dispositions_follow_one_another(abi: Abi, raw: Seq<u8>, count: nat)
    ensures
        dispositions_in(abi, raw, count) matches Ok(found) ==> found.len() == count && forall|i: int|
            0 <= i < count ==> disposition_in(abi, raw.subrange(16 * i, 16 * i + 16))
                == Ok::<HandleOperationDisposition, Status>(#[trigger] found[i]),
        dispositions_in(abi, raw, count) is Err ==> exists|i: int|
            0 <= i < count && (#[trigger] disposition_in(
                abi,
                raw.subrange(16 * i, 16 * i + 16),
            )) is Err,
    decreases count,
{
    if count > 0 {
        law_dispositions_follow_one_another(abi, raw, (count - 1) as nat);
        let last = count - 1;
        assert(record(raw, 16, last) == raw.subrange(16 * last, 16 * last + 16));
    }
}

/// Records of what is waited for follow one another, twelve bytes each, and one that does not read
/// spoils them all.
pub proof fn law_wait_items_follow_one_another(abi: Abi, raw: Seq<u8>, count: nat)
    ensures
        wait_items_in(abi, raw, count) matches Ok(found) ==> found.len() == count && forall|i: int|
            0 <= i < count ==> wait_item_in(abi, raw.subrange(12 * i, 12 * i + 12))
                == Ok::<WaitItem, Status>(#[trigger] found[i]),
        wait_items_in(abi, raw, count) is Err ==> exists|i: int|
            0 <= i < count && (#[trigger] wait_item_in(
                abi,
                raw.subrange(12 * i, 12 * i + 12),
            )) is Err,
    decreases count,
{
    if count > 0 {
        law_wait_items_follow_one_another(abi, raw, (count - 1) as nat);
        let last = count - 1;
        assert(record(raw, 12, last) == raw.subrange(12 * last, 12 * last + 12));
    }
}

/// Records of buffers follow one another, forty bytes each, and one that does not read spoils them
/// all.
pub proof fn law_buffers_follow_one_another(abi: Abi, raw: Seq<u8>, count: nat)
    ensures
        buffers_in(abi, raw, count) matches Ok(found) ==> found.len() == count && forall|i: int|
            0 <= i < count ==> buffer_in(abi, raw.subrange(40 * i, 40 * i + 40))
                == Ok::<RequestBuffer, Status>(#[trigger] found[i]),
        buffers_in(abi, raw, count) is Err ==> exists|i: int|
            0 <= i < count && (#[trigger] buffer_in(
                abi,
                raw.subrange(40 * i, 40 * i + 40),
            )) is Err,
    decreases count,
{
    if count > 0 {
        law_buffers_follow_one_another(abi, raw, (count - 1) as nat);
        let last = count - 1;
        assert(record(raw, 40, last) == raw.subrange(40 * last, 40 * last + 40));
    }
}

/// A part of what stands before is a part of the whole.
proof fn lemma_earlier_part(before: Seq<u8>, last: Seq<u8>, from: int, to: int)
    requires
        0 <= from <= to <= before.len(),
    ensures
        (before + last).subrange(from, to) == before.subrange(from, to),
{
    assert((before + last).subrange(from, to) =~= before.subrange(from, to));
}

/// What stands last is the last part of the whole.
proof fn lemma_later_part(before: Seq<u8>, last: Seq<u8>)
    ensures
        (before + last).subrange(before.len() as int, (before.len() + last.len()) as int) == last,
{
    assert((before + last).subrange(before.len() as int, (before.len() + last.len()) as int) =~= last);
}

/// What is told of the items of a wait follows one another, twelve bytes each, in their order.
pub proof fn law_wait_records_follow_one_another(items: Seq<WaitItem>)
    ensures
        wait_records(items).len() == 12 * items.len(),
        forall|i: int|
            0 <= i < items.len() ==> wait_records(items).subrange(12 * i, 12 * i + 12) == wait_item_record(
                #[trigger] items[i],
            ),
    decreases items.len(),
{
    if items.len() > 0 {
        let front = items.drop_last();
        law_wait_records_follow_one_another(front);
        let all = wait_records(items);
        let before = wait_records(front);
        let last = wait_item_record(items.last());
        assert(last.len() == 12);
        assert(all == before + last);
        assert forall|i: int| 0 <= i < items.len() implies all.subrange(
            12 * i,
            12 * i + 12,
        ) == wait_item_record(#[trigger] items[i]) by {
            if i < front.len() {
                assert(front[i] == items[i]);
                lemma_earlier_part(before, last, 12 * i, 12 * i + 12);
            } else {
                lemma_later_part(before, last);
            }
        }
    }
}

/// What is told of submitted requests follows one another, twenty-four bytes each, in their order.
pub proof fn law_answers_follow_one_another(outputs: Seq<RequestSubmitOutput>)
    ensures
        output_records(outputs).len() == 24 * outputs.len(),
        forall|i: int|
            0 <= i < outputs.len() ==> output_records(outputs).subrange(24 * i, 24 * i + 24) == output_record(
                #[trigger] outputs[i],
            ),
    decreases outputs.len(),
{
    if outputs.len() > 0 {
        let front = outputs.drop_last();
        law_answers_follow_one_another(front);
        let all = output_records(outputs);
        let before = output_records(front);
        let last = output_record(outputs.last());
        assert(last.len() == 24);
        assert(all == before + last);
        assert forall|i: int| 0 <= i < outputs.len() implies all.subrange(
            24 * i,
            24 * i + 24,
        ) == output_record(#[trigger] outputs[i]) by {
            if i < front.len() {
                assert(front[i] == outputs[i]);
                lemma_earlier_part(before, last, 24 * i, 24 * i + 24);
            } else {
                lemma_later_part(before, last);
            }
        }
    }
}

/// What is told of the handles of a message follows one another, sixteen bytes each: each handle
/// with the rights and the type that the kernel gave for it.
pub proof fn law_received_handles_follow_one_another(handles: Seq<Handle>, log: Seq<Event>, base: int)
    ensures
        received_records(handles, log, base).len() == 16 * handles.len(),
        forall|i: int|
            0 <= i < handles.len() ==> received_records(handles, log, base).subrange(
                16 * i,
                16 * i + 16,
            ) == received_record(
                #[trigger] handles[i],
                log[base + 2 * i].answer->Bits_0->Ok_0,
                log[base + 2 * i + 1].answer->Bits_0->Ok_0,
            ),
    decreases handles.len(),
{
    if handles.len() > 0 {
        let front = handles.drop_last();
        law_received_handles_follow_one_another(front, log, base);
        let all = received_records(handles, log, base);
        let before = received_records(front, log, base);
        let end = handles.len() - 1;
        let last = received_record(
            handles[end],
            log[base + 2 * end].answer->Bits_0->Ok_0,
            log[base + 2 * end + 1].answer->Bits_0->Ok_0,
        );
        assert(last.len() == 16);
        assert forall|i: int| 0 <= i < handles.len() implies all.subrange(16 * i, 16 * i + 16)
            == received_record(
            #[trigger] handles[i],
            log[base + 2 * i].answer->Bits_0->Ok_0,
            log[base + 2 * i + 1].answer->Bits_0->Ok_0,
        ) by {
            if i < front.len() {
                assert(front[i] == handles[i]);
                assert(all.subrange(16 * i, 16 * i + 16) =~= before.subrange(16 * i, 16 * i + 16));
            } else {
                assert(all.subrange(16 * i, 16 * i + 16) =~= last);
            }
        }
    }
}

} // verus!
