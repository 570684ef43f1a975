//! Which system call does what.
use vstd::prelude::*;

use crate::bytes::signed64;

use super::abi::{register_of, return_register, Abi, KernelHeapStats, Status};
use super::application::{
    did_application_data_create, did_application_get_data_directory, did_process_get_info,
    did_process_terminate, did_system_power_cancel, did_system_power_get_info,
    did_system_power_request,
};
use super::batch::{did_request_submit_batch};
use super::blocked::{flag_set};
use super::channel::{did_channel_read};
use super::children::{did_process_create};
use super::file_io::{
    did_filesystem_open_request, did_filesystem_read_request, did_filesystem_sync_request,
    did_filesystem_write_request,
};
use super::files::{
    did_filesystem_create_directory, did_filesystem_open_directory,
    did_filesystem_remove_directory, did_filesystem_unlink,
};
use super::handles::{did_channel_create, did_channel_write, did_handle_close, did_handle_duplicate};
use super::heard::told_nobody;
use super::kernel::{
    asked_at, asked_from, extends, lemma_beginning, Ask, Call, DispatchResult, Event, Kernel, Session,
};
use super::mapping::{
    did_anonymous_commit, did_anonymous_decommit, did_anonymous_map, did_anonymous_protect,
    did_anonymous_reserve, did_anonymous_unmap, did_audio_write, did_clock_get_monotonic,
    did_debug_write, did_memory_get_info, did_random_fill, did_shared_memory_create,
    did_shared_memory_get_size, did_shared_memory_map, did_shared_memory_unmap,
    did_virtual_commit, did_virtual_decommit, did_virtual_map_file, did_virtual_protect,
    did_virtual_query, did_virtual_unmap,
};
use super::nodes::{
    did_filesystem_get_info, did_filesystem_get_metadata, did_filesystem_read_directory,
    did_filesystem_read_directory2, did_filesystem_rename, did_filesystem_stat,
    did_filesystem_truncate,
};
use super::number::{
    decode_exit_code, decode_syscall_number, is_memory_accounted_syscall, memory_accounted,
    missing_counter, missing_memory_failure_counter, FailureCounts, MemoryFailureCounter,
    SyscallNumber,
};
use super::submission::{
    did_request_cancel, did_request_get_diagnostics, did_request_get_info, did_request_submit,
};
use super::threads::{
    did_thread_create, did_thread_detach, did_thread_get_current, did_thread_get_info,
    did_thread_get_scheduling_info, did_thread_join, did_thread_set_scheduling_class,
    did_thread_set_scheduling_class_with_authority, did_thread_sleep_until, did_thread_terminate,
    did_thread_wake,
};
use super::wait::{did_wait_many, settle, settled};

verus! {

broadcast use super::heard::group_heard;

/// What a thread has in its registers when it makes a system call.
#[derive(Clone, Copy, Debug, PartialEq, Eq, Structural)]
pub struct SyscallRegisters {
    pub rax: u64,
    pub rdi: u64,
    pub rsi: u64,
    pub rdx: u64,
    pub r10: u64,
    pub r8: u64,
}

/// A system call: who makes it, when, and with what.
#[derive(Clone, Copy, Debug, PartialEq, Eq, Structural)]
pub struct SyscallContext {
    pub process_id: u64,
    pub thread: u64,
    pub registers: SyscallRegisters,
    pub now_ns: u64,
    pub heap: KernelHeapStats,
    pub process_creation_allowed: bool,
    pub child_slot_reserved: bool,
}

/// Where the early diagnostics of processes go.
pub trait DebugSink {
    fn write(&mut self, bytes: &[u8]);
}

/// What the scheduler is to do after a system call.
#[derive(Clone, Copy, Debug, PartialEq, Eq, Structural)]
pub enum SyscallOutcome {
    /// The system call is over; the thread may run again.
    Yield,
    /// The system call is over once its thread is woken.
    Blocked,
    /// The process ends with this code.
    Exit(i32),
    /// Only the thread ends, with this code.
    ThreadExited(i32),
    /// A child was made, for the slot that was reserved.
    ChildCreated,
}

/// A system call that is over at once.
pub open spec fn over(result: Result<(), Status>) -> Result<DispatchResult, Status> {
    match result {
        Ok(_) => Ok(DispatchResult::Complete(Status::Success)),
        Err(status) => Err(status),
    }
}

/// A system call that is over at once.
fn at_once(result: Result<(), Status>) -> (dispatched: Result<DispatchResult, Status>)
    ensures
        dispatched == over(result),
{
    match result {
        Ok(_) => Ok(DispatchResult::Complete(Status::Success)),
        Err(status) => Err(status),
    }
}

/// A system call that blocks where the result says so.
pub open spec fn blocking(result: Result<bool, Status>) -> Result<DispatchResult, Status> {
    match result {
        Ok(true) => Ok(DispatchResult::Blocked),
        Ok(false) => Ok(DispatchResult::Complete(Status::Success)),
        Err(status) => Err(status),
    }
}

/// A system call that blocks where the result says so.
fn maybe_blocked(result: Result<bool, Status>) -> (dispatched: Result<DispatchResult, Status>)
    ensures
        dispatched == blocking(result),
{
    match result {
        Ok(true) => Ok(DispatchResult::Blocked),
        Ok(false) => Ok(DispatchResult::Complete(Status::Success)),
        Err(status) => Err(status),
    }
}

/// A system call that makes a child.
pub open spec fn making(result: Result<(), Status>) -> Result<DispatchResult, Status> {
    match result {
        Ok(_) => Ok(DispatchResult::ChildCreated),
        Err(status) => Err(status),
    }
}

/// What the system calls on handles, channels, processes and requests do.
pub open spec fn handles_call(
    abi: Abi,
    number: SyscallNumber,
    call: SyscallContext,
    before: Seq<Event>,
    log: Seq<Event>,
    dispatched: Result<DispatchResult, Status>,
) -> bool {
    match number {
        SyscallNumber::HandleClose => exists|result: Result<(), Status>| #[trigger]
            did_handle_close(
                abi,
                call.registers.rdi,
                before,
                log,
                result,
            ) && dispatched == over(result),
        SyscallNumber::HandleDuplicate => exists|result: Result<(), Status>| #[trigger]
            did_handle_duplicate(
                abi,
                call.registers.rdi,
                call.registers.rsi,
                call.registers.rdx,
                before,
                log,
                result,
            ) && dispatched == over(result),
        SyscallNumber::ChannelCreate => exists|result: Result<(), Status>| #[trigger]
            did_channel_create(
                abi,
                call.registers.rdi,
                before,
                log,
                result,
            ) && dispatched == over(result),
        SyscallNumber::ChannelWrite => exists|result: Result<(), Status>| #[trigger]
            did_channel_write(
                abi,
                call.registers.rdi,
                call.registers.rsi,
                before,
                log,
                result,
            ) && dispatched == over(result),
        SyscallNumber::ChannelRead => exists|result: Result<(), Status>| #[trigger]
            did_channel_read(
                abi,
                call.registers.rdi,
                call.registers.rsi,
                before,
                log,
                result,
            ) && dispatched == over(result),
        SyscallNumber::ProcessGetInfo => exists|result: Result<(), Status>| #[trigger]
            did_process_get_info(
                abi,
                call.registers.rdi,
                call.registers.rsi,
                before,
                log,
                result,
            ) && dispatched == over(result),
        SyscallNumber::ProcessTerminate => exists|result: Result<(), Status>| #[trigger]
            did_process_terminate(
                abi,
                call.registers.rdi,
                before,
                log,
                result,
            ) && dispatched == over(result),
        SyscallNumber::ApplicationGetDataDirectory => exists|result: Result<(), Status>| #[trigger]
            did_application_get_data_directory(
                abi,
                call.registers.rdi,
                before,
                log,
                result,
            ) && dispatched == over(result),
        SyscallNumber::ApplicationDataCreate => exists|result: Result<(), Status>| #[trigger]
            did_application_data_create(
                abi,
                call.registers.rdi,
                before,
                log,
                result,
            ) && dispatched == over(result),
        SyscallNumber::SystemPowerRequest => exists|result: Result<(), Status>| #[trigger]
            did_system_power_request(
                abi,
                call.registers.rdi,
                call.registers.rsi,
                call.registers.rdx,
                call.now_ns,
                before,
                log,
                result,
            ) && dispatched == over(result),
        SyscallNumber::SystemPowerCancel => exists|result: Result<(), Status>| #[trigger]
            did_system_power_cancel(
                abi,
                call.registers.rdi,
                before,
                log,
                result,
            ) && dispatched == over(result),
        SyscallNumber::SystemPowerGetInfo => exists|result: Result<(), Status>| #[trigger]
            did_system_power_get_info(
                abi,
                call.registers.rdi,
                call.registers.rsi,
                before,
                log,
                result,
            ) && dispatched == over(result),
        SyscallNumber::RequestCancel => exists|result: Result<(), Status>| #[trigger]
            did_request_cancel(
                abi,
                call.registers.rdi,
                call.now_ns,
                before,
                log,
                result,
            ) && dispatched == over(result),
        SyscallNumber::RequestGetInfo => exists|result: Result<(), Status>| #[trigger]
            did_request_get_info(
                abi,
                call.registers.rdi,
                call.registers.rsi,
                call.registers.rdx,
                call.registers.r10,
                before,
                log,
                result,
            ) && dispatched == over(result),
        SyscallNumber::RequestSubmitBatch => exists|result: Result<(), Status>| #[trigger]
            did_request_submit_batch(
                abi,
                call.process_id,
                call.thread,
                call.registers.rdi,
                call.now_ns,
                before,
                log,
                result,
            ) && dispatched == over(result),
        SyscallNumber::RequestGetDiagnostics => exists|result: Result<(), Status>| #[trigger]
            did_request_get_diagnostics(
                abi,
                call.registers.rdi,
                call.registers.rsi,
                call.registers.rdx,
                before,
                log,
                result,
            ) && dispatched == over(result),
        SyscallNumber::RequestSubmit => exists|ended: DispatchResult| #[trigger]
            did_request_submit(
                abi,
                call.process_id,
                call.thread,
                call.registers.rdi,
                call.registers.rsi,
                call.now_ns,
                before,
                log,
                ended,
            ) && dispatched == Ok::<DispatchResult, Status>(ended),
        SyscallNumber::ProcessCreate => exists|result: Result<(), Status>| #[trigger]
            did_process_create(
                abi,
                call.registers.rdi,
                call.child_slot_reserved,
                false,
                before,
                log,
                result,
            ) && dispatched == making(result),
        SyscallNumber::ProcessCreate2 => exists|result: Result<(), Status>| #[trigger]
            did_process_create(
                abi,
                call.registers.rdi,
                call.child_slot_reserved,
                true,
                before,
                log,
                result,
            ) && dispatched == making(result),
        _ => false,
    }
}

/// What the system calls on memory and the small devices do.
pub open spec fn memory_call(
    abi: Abi,
    number: SyscallNumber,
    call: SyscallContext,
    before: Seq<Event>,
    log: Seq<Event>,
    dispatched: Result<DispatchResult, Status>,
) -> bool {
    match number {
        SyscallNumber::SharedMemoryCreate => exists|result: Result<(), Status>| #[trigger]
            did_shared_memory_create(
                abi,
                call.registers.rdi,
                call.registers.rsi,
                before,
                log,
                result,
            ) && dispatched == over(result),
        SyscallNumber::SharedMemoryGetSize => exists|result: Result<(), Status>| #[trigger]
            did_shared_memory_get_size(
                abi,
                call.registers.rdi,
                call.registers.rsi,
                before,
                log,
                result,
            ) && dispatched == over(result),
        SyscallNumber::SharedMemoryMap => exists|result: Result<(), Status>| #[trigger]
            did_shared_memory_map(
                abi,
                call.registers.rdi,
                call.registers.rsi,
                call.registers.rdx,
                before,
                log,
                result,
            ) && dispatched == over(result),
        SyscallNumber::SharedMemoryUnmap => exists|result: Result<(), Status>| #[trigger]
            did_shared_memory_unmap(
                abi,
                call.registers.rdi,
                call.registers.rsi,
                before,
                log,
                result,
            ) && dispatched == over(result),
        SyscallNumber::DebugWrite => exists|result: Result<(), Status>| #[trigger]
            did_debug_write(
                abi,
                call.registers.rdi,
                call.registers.rsi,
                before,
                log,
                result,
            ) && dispatched == over(result),
        SyscallNumber::AudioWrite => exists|result: Result<(), Status>| #[trigger]
            did_audio_write(
                abi,
                call.registers.rdi,
                call.registers.rsi,
                before,
                log,
                result,
            ) && dispatched == over(result),
        SyscallNumber::ClockGetMonotonic => exists|result: Result<(), Status>| #[trigger]
            did_clock_get_monotonic(
                abi,
                call.registers.rdi,
                call.now_ns,
                before,
                log,
                result,
            ) && dispatched == over(result),
        SyscallNumber::RandomFill => exists|result: Result<(), Status>| #[trigger]
            did_random_fill(
                abi,
                call.registers.rdi,
                call.registers.rsi,
                call.registers.rdx,
                before,
                log,
                result,
            ) && dispatched == over(result),
        SyscallNumber::AnonymousMap => exists|result: Result<(), Status>| #[trigger]
            did_anonymous_map(
                abi,
                call.registers.rdi,
                call.registers.rsi,
                call.registers.rdx,
                before,
                log,
                result,
            ) && dispatched == over(result),
        SyscallNumber::AnonymousProtect => exists|result: Result<(), Status>| #[trigger]
            did_anonymous_protect(
                abi,
                call.registers.rdi,
                call.registers.rsi,
                call.registers.rdx,
                before,
                log,
                result,
            ) && dispatched == over(result),
        SyscallNumber::AnonymousReserve => exists|result: Result<(), Status>| #[trigger]
            did_anonymous_reserve(
                abi,
                call.registers.rdi,
                call.registers.rsi,
                call.registers.rdx,
                before,
                log,
                result,
            ) && dispatched == over(result),
        SyscallNumber::MemoryGetInfo => exists|result: Result<(), Status>| #[trigger]
            did_memory_get_info(
                abi,
                call.registers.rdi,
                call.registers.rsi,
                call.registers.rdx,
                call.heap,
                before,
                log,
                result,
            ) && dispatched == over(result),
        SyscallNumber::VirtualMapFile => exists|result: Result<(), Status>| #[trigger]
            did_virtual_map_file(
                abi,
                call.registers.rdi,
                call.registers.rsi,
                call.registers.rdx,
                before,
                log,
                result,
            ) && dispatched == over(result),
        SyscallNumber::VirtualProtect => exists|result: Result<(), Status>| #[trigger]
            did_virtual_protect(
                abi,
                call.registers.rdi,
                call.registers.rsi,
                call.registers.rdx,
                before,
                log,
                result,
            ) && dispatched == over(result),
        SyscallNumber::VirtualQuery => exists|result: Result<(), Status>| #[trigger]
            did_virtual_query(
                abi,
                call.registers.rdi,
                call.registers.rsi,
                call.registers.rdx,
                call.registers.r10,
                before,
                log,
                result,
            ) && dispatched == over(result),
        SyscallNumber::AnonymousUnmap => exists|result: Result<(), Status>| #[trigger]
            did_anonymous_unmap(
                abi,
                call.registers.rdi,
                call.registers.rsi,
                before,
                log,
                result,
            ) && dispatched == over(result),
        SyscallNumber::AnonymousCommit => exists|result: Result<(), Status>| #[trigger]
            did_anonymous_commit(
                abi,
                call.registers.rdi,
                call.registers.rsi,
                before,
                log,
                result,
            ) && dispatched == over(result),
        SyscallNumber::AnonymousDecommit => exists|result: Result<(), Status>| #[trigger]
            did_anonymous_decommit(
                abi,
                call.registers.rdi,
                call.registers.rsi,
                before,
                log,
                result,
            ) && dispatched == over(result),
        SyscallNumber::VirtualCommit => exists|result: Result<(), Status>| #[trigger]
            did_virtual_commit(
                abi,
                call.registers.rdi,
                call.registers.rsi,
                before,
                log,
                result,
            ) && dispatched == over(result),
        SyscallNumber::VirtualDecommit => exists|result: Result<(), Status>| #[trigger]
            did_virtual_decommit(
                abi,
                call.registers.rdi,
                call.registers.rsi,
                before,
                log,
                result,
            ) && dispatched == over(result),
        SyscallNumber::VirtualUnmap => exists|result: Result<(), Status>| #[trigger]
            did_virtual_unmap(
                abi,
                call.registers.rdi,
                call.registers.rsi,
                before,
                log,
                result,
            ) && dispatched == over(result),
        _ => false,
    }
}

/// What the system calls on files and directories do.
pub open spec fn files_call(
    abi: Abi,
    number: SyscallNumber,
    call: SyscallContext,
    before: Seq<Event>,
    log: Seq<Event>,
    dispatched: Result<DispatchResult, Status>,
) -> bool {
    match number {
        SyscallNumber::FilesystemStat => exists|result: Result<(), Status>| #[trigger]
            did_filesystem_stat(
                abi,
                call.registers.rdi,
                call.registers.rsi,
                before,
                log,
                result,
            ) && dispatched == over(result),
        SyscallNumber::FilesystemReadDirectory => exists|result: Result<(), Status>| #[trigger]
            did_filesystem_read_directory(
                abi,
                call.registers.rdi,
                call.registers.rsi,
                call.registers.rdx,
                before,
                log,
                result,
            ) && dispatched == over(result),
        SyscallNumber::FilesystemTruncate => exists|result: Result<(), Status>| #[trigger]
            did_filesystem_truncate(
                abi,
                call.registers.rdi,
                call.registers.rsi,
                before,
                log,
                result,
            ) && dispatched == over(result),
        SyscallNumber::FilesystemUnlink => exists|result: Result<(), Status>| #[trigger]
            did_filesystem_unlink(
                abi,
                call.registers.rdi,
                call.registers.rsi,
                call.registers.rdx,
                before,
                log,
                result,
            ) && dispatched == over(result),
        SyscallNumber::FilesystemOpenDirectory => exists|result: Result<(), Status>| #[trigger]
            did_filesystem_open_directory(
                abi,
                call.registers.rdi,
                before,
                log,
                result,
            ) && dispatched == over(result),
        SyscallNumber::FilesystemCreateDirectory => exists|result: Result<(), Status>| #[trigger]
            did_filesystem_create_directory(
                abi,
                call.registers.rdi,
                before,
                log,
                result,
            ) && dispatched == over(result),
        SyscallNumber::FilesystemRemoveDirectory => exists|result: Result<(), Status>| #[trigger]
            did_filesystem_remove_directory(
                abi,
                call.registers.rdi,
                before,
                log,
                result,
            ) && dispatched == over(result),
        SyscallNumber::FilesystemRename => exists|result: Result<(), Status>| #[trigger]
            did_filesystem_rename(
                abi,
                call.registers.rdi,
                before,
                log,
                result,
            ) && dispatched == over(result),
        SyscallNumber::FilesystemGetInfo => exists|result: Result<(), Status>| #[trigger]
            did_filesystem_get_info(
                abi,
                call.registers.rdi,
                before,
                log,
                result,
            ) && dispatched == over(result),
        SyscallNumber::FilesystemGetMetadata => exists|result: Result<(), Status>| #[trigger]
            did_filesystem_get_metadata(
                abi,
                call.registers.rdi,
                before,
                log,
                result,
            ) && dispatched == over(result),
        SyscallNumber::FilesystemReadDirectory2 => exists|result: Result<(), Status>| #[trigger]
            did_filesystem_read_directory2(
                abi,
                call.registers.rdi,
                before,
                log,
                result,
            ) && dispatched == over(result),
        SyscallNumber::FilesystemOpen => did_filesystem_open_request(
            abi,
            call.process_id,
            call.thread,
            call.registers.rdi,
            call.registers.rsi,
            call.registers.rdx,
            call.now_ns,
            before,
            log,
            dispatched,
        ),
        SyscallNumber::FilesystemRead => did_filesystem_read_request(
            abi,
            call.process_id,
            call.thread,
            call.registers.rdi,
            call.registers.rsi,
            call.registers.rdx,
            call.registers.r10,
            call.registers.r8,
            call.now_ns,
            before,
            log,
            dispatched,
        ),
        SyscallNumber::FilesystemWrite => did_filesystem_write_request(
            abi,
            call.process_id,
            call.thread,
            call.registers.rdi,
            call.registers.rsi,
            call.registers.rdx,
            call.registers.r10,
            call.registers.r8,
            call.now_ns,
            before,
            log,
            dispatched,
        ),
        SyscallNumber::FilesystemSync => did_filesystem_sync_request(
            abi,
            call.process_id,
            call.thread,
            call.registers.rdi,
            call.now_ns,
            before,
            log,
            dispatched,
        ),
        _ => false,
    }
}

/// What the system calls on threads do.
pub open spec fn threads_call(
    abi: Abi,
    number: SyscallNumber,
    call: SyscallContext,
    before: Seq<Event>,
    log: Seq<Event>,
    dispatched: Result<DispatchResult, Status>,
) -> bool {
    match number {
        SyscallNumber::ThreadCreate => exists|result: Result<(), Status>| #[trigger]
            did_thread_create(
                abi,
                call.registers.rdi,
                before,
                log,
                result,
            ) && dispatched == over(result),
        SyscallNumber::ThreadWake => exists|result: Result<(), Status>| #[trigger]
            did_thread_wake(
                abi,
                call.registers.rdi,
                before,
                log,
                result,
            ) && dispatched == over(result),
        SyscallNumber::ThreadTerminate => exists|result: Result<(), Status>| #[trigger]
            did_thread_terminate(
                abi,
                call.registers.rdi,
                before,
                log,
                result,
            ) && dispatched == over(result),
        SyscallNumber::ThreadGetInfo => exists|result: Result<(), Status>| #[trigger]
            did_thread_get_info(
                abi,
                call.registers.rdi,
                call.registers.rsi,
                call.registers.rdx,
                call.registers.r10,
                before,
                log,
                result,
            ) && dispatched == over(result),
        SyscallNumber::ThreadDetach => exists|result: Result<(), Status>| #[trigger]
            did_thread_detach(
                abi,
                call.registers.rdi,
                before,
                log,
                result,
            ) && dispatched == over(result),
        SyscallNumber::ThreadGetCurrent => exists|result: Result<(), Status>| #[trigger]
            did_thread_get_current(
                abi,
                call.thread,
                call.registers.rdi,
                before,
                log,
                result,
            ) && dispatched == over(result),
        SyscallNumber::ThreadSetSchedulingClass => exists|result: Result<(), Status>| #[trigger]
            did_thread_set_scheduling_class(
                abi,
                call.registers.rdi,
                call.registers.rsi,
                before,
                log,
                result,
            ) && dispatched == over(result),
        SyscallNumber::ThreadGetSchedulingInfo => exists|result: Result<(), Status>| #[trigger]
            did_thread_get_scheduling_info(
                abi,
                call.registers.rdi,
                call.registers.rsi,
                call.registers.rdx,
                call.registers.r10,
                before,
                log,
                result,
            ) && dispatched == over(result),
        SyscallNumber::ThreadSetSchedulingClassWithAuthority => exists|result: Result<(), Status>| #[trigger]
            did_thread_set_scheduling_class_with_authority(
                abi,
                call.registers.rdi,
                call.registers.rsi,
                call.registers.rdx,
                before,
                log,
                result,
            ) && dispatched == over(result),
        SyscallNumber::ThreadSleepUntil => exists|result: Result<bool, Status>| #[trigger]
            did_thread_sleep_until(
                abi,
                call.thread,
                call.registers.rdi,
                call.now_ns,
                before,
                log,
                result,
            ) && dispatched == blocking(result),
        SyscallNumber::ThreadJoin => exists|result: Result<bool, Status>| #[trigger]
            did_thread_join(
                abi,
                call.thread,
                call.registers.rdi,
                call.registers.rsi,
                call.registers.rdx,
                call.registers.r10,
                call.registers.r8,
                call.now_ns,
                before,
                log,
                result,
            ) && dispatched == blocking(result),
        _ => false,
    }
}

/// The system call is one on handles, channels, processes and requests.
pub open spec fn is_handles_call(number: SyscallNumber) -> bool {
    match number {
        SyscallNumber::HandleClose
        | SyscallNumber::HandleDuplicate
        | SyscallNumber::ChannelCreate
        | SyscallNumber::ChannelWrite
        | SyscallNumber::ChannelRead
        | SyscallNumber::ProcessGetInfo
        | SyscallNumber::ProcessTerminate
        | SyscallNumber::ApplicationGetDataDirectory
        | SyscallNumber::ApplicationDataCreate
        | SyscallNumber::SystemPowerRequest
        | SyscallNumber::SystemPowerCancel
        | SyscallNumber::SystemPowerGetInfo
        | SyscallNumber::RequestCancel
        | SyscallNumber::RequestGetInfo
        | SyscallNumber::RequestSubmitBatch
        | SyscallNumber::RequestGetDiagnostics
        | SyscallNumber::RequestSubmit
        | SyscallNumber::ProcessCreate
        | SyscallNumber::ProcessCreate2 => true,
        _ => false,
    }
}

/// The system call is one on memory and the small devices.
pub open spec fn is_memory_call(number: SyscallNumber) -> bool {
    match number {
        SyscallNumber::SharedMemoryCreate
        | SyscallNumber::SharedMemoryGetSize
        | SyscallNumber::SharedMemoryMap
        | SyscallNumber::SharedMemoryUnmap
        | SyscallNumber::DebugWrite
        | SyscallNumber::AudioWrite
        | SyscallNumber::ClockGetMonotonic
        | SyscallNumber::RandomFill
        | SyscallNumber::AnonymousMap
        | SyscallNumber::AnonymousProtect
        | SyscallNumber::AnonymousReserve
        | SyscallNumber::MemoryGetInfo
        | SyscallNumber::VirtualMapFile
        | SyscallNumber::VirtualProtect
        | SyscallNumber::VirtualQuery
        | SyscallNumber::AnonymousUnmap
        | SyscallNumber::AnonymousCommit
        | SyscallNumber::AnonymousDecommit
        | SyscallNumber::VirtualCommit
        | SyscallNumber::VirtualDecommit
        | SyscallNumber::VirtualUnmap => true,
        _ => false,
    }
}

/// The system call is one on files and directories.
pub open spec fn is_files_call(number: SyscallNumber) -> bool {
    match number {
        SyscallNumber::FilesystemStat
        | SyscallNumber::FilesystemReadDirectory
        | SyscallNumber::FilesystemTruncate
        | SyscallNumber::FilesystemUnlink
        | SyscallNumber::FilesystemOpenDirectory
        | SyscallNumber::FilesystemCreateDirectory
        | SyscallNumber::FilesystemRemoveDirectory
        | SyscallNumber::FilesystemRename
        | SyscallNumber::FilesystemGetInfo
        | SyscallNumber::FilesystemGetMetadata
        | SyscallNumber::FilesystemReadDirectory2
        | SyscallNumber::FilesystemOpen
        | SyscallNumber::FilesystemRead
        | SyscallNumber::FilesystemWrite
        | SyscallNumber::FilesystemSync => true,
        _ => false,
    }
}

/// The system call is one on threads.
pub open spec fn is_threads_call(number: SyscallNumber) -> bool {
    match number {
        SyscallNumber::ThreadCreate
        | SyscallNumber::ThreadWake
        | SyscallNumber::ThreadTerminate
        | SyscallNumber::ThreadGetInfo
        | SyscallNumber::ThreadDetach
        | SyscallNumber::ThreadGetCurrent
        | SyscallNumber::ThreadSetSchedulingClass
        | SyscallNumber::ThreadGetSchedulingInfo
        | SyscallNumber::ThreadSetSchedulingClassWithAuthority
        | SyscallNumber::ThreadSleepUntil
        | SyscallNumber::ThreadJoin => true,
        _ => false,
    }
}

/// What a system call does that neither ends its thread nor waits for objects.
pub open spec fn called(
    abi: Abi,
    number: SyscallNumber,
    call: SyscallContext,
    before: Seq<Event>,
    log: Seq<Event>,
    dispatched: Result<DispatchResult, Status>,
) -> bool {
    if is_handles_call(number) {
        handles_call(abi, number, call, before, log, dispatched)
    } else if is_memory_call(number) {
        memory_call(abi, number, call, before, log, dispatched)
    } else if is_files_call(number) {
        files_call(abi, number, call, before, log, dispatched)
    } else if is_threads_call(number) {
        threads_call(abi, number, call, before, log, dispatched)
    } else {
        log == before && dispatched == Ok::<DispatchResult, Status>(
            DispatchResult::Complete(Status::Success),
        )
    }
}

/// The part of the log up to event `known` is what the system call did.
pub open spec fn called_until(
    abi: Abi,
    number: SyscallNumber,
    call: SyscallContext,
    log: Seq<Event>,
    base: int,
    known: int,
    dispatched: Result<DispatchResult, Status>,
) -> bool {
    &&& base <= known <= log.len()
    &&& called(abi, number, call, log.take(base), log.take(known), dispatched)
}

/// The system call makes a child.
pub open spec fn makes_child(number: SyscallNumber) -> bool {
    number == SyscallNumber::ProcessCreate || number == SyscallNumber::ProcessCreate2
}

/// A failure is counted once: where the counter has not moved since `counts`, it is raised.
pub open spec fn failure_counted(
    counts: FailureCounts,
    status: Status,
    log: Seq<Event>,
    at: int,
) -> bool {
    &&& asked_at(log, at, Ask::FailureCounts)
    &&& match missing_counter(counts, log[at].answer->FailureCounts_0, status) {
        None => log.len() == at + 1,
        Some(MemoryFailureCounter::Quota) => asked_from(
            log,
            at + 1,
            seq![Ask::Plain(Call::RecordQuotaFailure)],
        ),
        Some(MemoryFailureCounter::Oom) => asked_from(
            log,
            at + 1,
            seq![Ask::Plain(Call::RecordOomFailure)],
        ),
    }
}

/// How a system call ends: a failure to have memory is counted.
pub open spec fn call_ended(
    number: SyscallNumber,
    counts: FailureCounts,
    result: Result<DispatchResult, Status>,
    log: Seq<Event>,
    known: int,
    dispatched: DispatchResult,
) -> bool {
    &&& dispatched == settled(result)
    &&& if result is Err && (memory_accounted(number) || makes_child(number)) {
        failure_counted(counts, result->Err_0, log, known)
    } else {
        log.len() == known
    }
}

/// A system call that does not end its thread.
pub open spec fn non_exit_dispatched(
    abi: Abi,
    number: SyscallNumber,
    call: SyscallContext,
    before: Seq<Event>,
    log: Seq<Event>,
    dispatched: DispatchResult,
) -> bool {
    let base = before.len() as int;
    if number == SyscallNumber::WaitMany {
        did_wait_many(
            abi,
            call.thread,
            call.registers.rdi,
            call.registers.rsi,
            call.now_ns,
            before,
            log,
            dispatched,
        )
    } else {
        &&& asked_at(log, base, Ask::FailureCounts)
        &&& if makes_child(number) && !call.process_creation_allowed {
            log.len() == base + 1 && dispatched == DispatchResult::Complete(Status::AccessDenied)
        } else {
            exists|known: int, result: Result<DispatchResult, Status>| #[trigger]
                called_until(abi, number, call, log, base + 1, known, result) && call_ended(
                    number,
                    log[base].answer->FailureCounts_0,
                    result,
                    log,
                    known,
                    dispatched,
                )
        }
    }
}

/// The thread is told the status of its system call.
pub open spec fn told(abi: Abi, thread: u64, status: Status, log: Seq<Event>, at: int) -> bool {
    asked_from(
        log,
        at,
        seq![Ask::Plain(Call::SetReturn { thread, rax: register_of(abi, status) })],
    )
}

/// The last thing asked was that the thread finds this status in RAX; no thread was told one
/// before.
pub open spec fn told_last(
    abi: Abi,
    thread: u64,
    status: Status,
    before: Seq<Event>,
    after: Seq<Event>,
) -> bool {
    &&& after.len() > before.len()
    &&& after.last().ask == Ask::Plain(
        Call::SetReturn { thread, rax: register_of(abi, status) },
    )
    &&& told_nobody(before, after.drop_last())
}

/// A system call that is over leaves its status in the thread's RAX, once and last; one that
/// blocks, or ends the thread, leaves RAX alone.
pub open spec fn reported(
    abi: Abi,
    thread: u64,
    before: Seq<Event>,
    after: Seq<Event>,
    outcome: SyscallOutcome,
) -> bool {
    match outcome {
        SyscallOutcome::Yield => exists|status: Status| #[trigger]
            told_last(abi, thread, status, before, after),
        SyscallOutcome::ChildCreated => told_last(abi, thread, Status::Success, before, after),
        _ => told_nobody(before, after),
    }
}

/// What the scheduler is to do, and what the thread is told from event `at` on.
pub open spec fn concluded(
    abi: Abi,
    thread: u64,
    dispatched: DispatchResult,
    log: Seq<Event>,
    at: int,
    outcome: SyscallOutcome,
) -> bool {
    match dispatched {
        DispatchResult::Complete(status) => told(abi, thread, status, log, at) && outcome
            == SyscallOutcome::Yield,
        DispatchResult::Blocked => log.len() == at && outcome == SyscallOutcome::Blocked,
        DispatchResult::ChildCreated => told(abi, thread, Status::Success, log, at) && outcome
            == SyscallOutcome::ChildCreated,
    }
}

/// The part of the log up to event `known` is what a system call did that does not end its
/// thread.
pub open spec fn dispatched_until(
    abi: Abi,
    number: SyscallNumber,
    call: SyscallContext,
    log: Seq<Event>,
    base: int,
    known: int,
    dispatched: DispatchResult,
) -> bool {
    &&& base <= known <= log.len()
    &&& non_exit_dispatched(abi, number, call, log.take(base), log.take(known), dispatched)
}

/// A system call that ends its thread, or its process.
pub open spec fn exit_dispatched(
    abi: Abi,
    number: SyscallNumber,
    call: SyscallContext,
    log: Seq<Event>,
    base: int,
    outcome: SyscallOutcome,
) -> bool {
    let code = signed64(call.registers.rdi as int);
    let thread = call.thread;
    if !(i32::MIN <= code <= i32::MAX) {
        told(abi, thread, Status::InvalidArgument, log, base) && outcome == SyscallOutcome::Yield
    } else if number == SyscallNumber::ProcessExit {
        &&& asked_from(
            log,
            base,
            seq![Ask::Plain(Call::ExitProcess { thread, code: code as i32 })],
        )
        &&& outcome == SyscallOutcome::Exit(code as i32)
    } else {
        &&& asked_from(
            log,
            base,
            seq![Ask::Plain(Call::ExitThread { thread, code: code as i32 })],
        )
        &&& outcome == SyscallOutcome::ThreadExited(code as i32)
    }
}

/// A system call that is known. The memory of the process must be there, unless the system
/// call ends its thread.
pub open spec fn known_dispatched(
    abi: Abi,
    number: SyscallNumber,
    call: SyscallContext,
    log: Seq<Event>,
    base: int,
    outcome: SyscallOutcome,
) -> bool {
    if number == SyscallNumber::ProcessExit || number == SyscallNumber::ThreadExit {
        exit_dispatched(abi, number, call, log, base, outcome)
    } else {
        &&& asked_at(log, base, Ask::Plain(Call::AddressSpaceActive))
        &&& if !flag_set(log, base) {
            told(abi, call.thread, Status::InvalidAddress, log, base + 1) && outcome
                == SyscallOutcome::Yield
        } else {
            exists|known: int, dispatched: DispatchResult| #[trigger]
                dispatched_until(abi, number, call, log, base + 1, known, dispatched)
                    && concluded(abi, call.thread, dispatched, log, known, outcome)
        }
    }
}

/// A system call; one that is not known is refused.
pub open spec fn syscall_dispatched(
    abi: Abi,
    call: SyscallContext,
    log: Seq<Event>,
    base: int,
    outcome: SyscallOutcome,
) -> bool {
    if call.registers.rax > 70 {
        told(abi, call.thread, Status::UnknownSyscall, log, base) && outcome == SyscallOutcome::Yield
    } else {
        exists|number: SyscallNumber| #[trigger]
            number.number() == call.registers.rax && known_dispatched(
                abi,
                number,
                call,
                log,
                base,
                outcome,
            )
    }
}

impl<K: Kernel> Session<K> {
    /// Makes a system call on handles, channels, processes and requests.
    fn dispatch_handles(&mut self, number: SyscallNumber, call: &SyscallContext) -> (dispatched: Result<
        DispatchResult,
        Status,
    >)
        requires
            is_handles_call(number),
        ensures
            final(self).kept(*old(self)),
            handles_call(
                old(self).abi,
                number,
                *call,
                old(self).log@,
                final(self).log@,
                dispatched,
            ),
    {
        let result: Result<(), Status> = match number {
            SyscallNumber::HandleClose => self.handle_close(call.registers.rdi),
            SyscallNumber::HandleDuplicate => self.handle_duplicate(
                call.registers.rdi,
                call.registers.rsi,
                call.registers.rdx,
            ),
            SyscallNumber::ChannelCreate => self.channel_create(call.registers.rdi),
            SyscallNumber::ChannelWrite => self.channel_write(call.registers.rdi, call.registers.rsi),
            SyscallNumber::ChannelRead => self.channel_read(call.registers.rdi, call.registers.rsi),
            SyscallNumber::ProcessGetInfo => self.process_get_info(call.registers.rdi, call.registers.rsi),
            SyscallNumber::ProcessTerminate => self.process_terminate(call.registers.rdi),
            SyscallNumber::ApplicationGetDataDirectory => self.application_get_data_directory(call.registers.rdi),
            SyscallNumber::ApplicationDataCreate => self.application_data_create(call.registers.rdi),
            SyscallNumber::SystemPowerRequest => self.system_power_request(
                call.registers.rdi,
                call.registers.rsi,
                call.registers.rdx,
                call.now_ns,
            ),
            SyscallNumber::SystemPowerCancel => self.system_power_cancel(call.registers.rdi),
            SyscallNumber::SystemPowerGetInfo => self.system_power_get_info(call.registers.rdi, call.registers.rsi),
            SyscallNumber::RequestCancel => self.request_cancel(call.registers.rdi, call.now_ns),
            SyscallNumber::RequestGetInfo => self.request_get_info(
                call.registers.rdi,
                call.registers.rsi,
                call.registers.rdx,
                call.registers.r10,
            ),
            SyscallNumber::RequestSubmitBatch => self.request_submit_batch(
                call.process_id,
                call.thread,
                call.registers.rdi,
                call.now_ns,
            ),
            SyscallNumber::RequestGetDiagnostics => self.request_get_diagnostics(
                call.registers.rdi,
                call.registers.rsi,
                call.registers.rdx,
            ),
            SyscallNumber::RequestSubmit => {
                let ended: DispatchResult = self.request_submit(
                    call.process_id,
                    call.thread,
                    call.registers.rdi,
                    call.registers.rsi,
                    call.now_ns,
                );
                return Ok(ended);
            },
            _ => {
                let extended: bool = number == SyscallNumber::ProcessCreate2;
                let made: Result<(), Status> = self.process_create(
                    call.registers.rdi,
                    call.child_slot_reserved,
                    extended,
                );
                return match made {
                    Ok(_) => Ok(DispatchResult::ChildCreated),
                    Err(status) => Err(status),
                };
            },
        };
        at_once(result)
    }

    /// Makes a system call on memory and the small devices.
    fn dispatch_memory(&mut self, number: SyscallNumber, call: &SyscallContext) -> (dispatched: Result<
        DispatchResult,
        Status,
    >)
        requires
            is_memory_call(number),
        ensures
            final(self).kept(*old(self)),
            memory_call(
                old(self).abi,
                number,
                *call,
                old(self).log@,
                final(self).log@,
                dispatched,
            ),
    {
        let result: Result<(), Status> = match number {
            SyscallNumber::SharedMemoryCreate => self.shared_memory_create(call.registers.rdi, call.registers.rsi),
            SyscallNumber::SharedMemoryGetSize => self.shared_memory_get_size(call.registers.rdi, call.registers.rsi),
            SyscallNumber::SharedMemoryMap => self.shared_memory_map(
                call.registers.rdi,
                call.registers.rsi,
                call.registers.rdx,
            ),
            SyscallNumber::SharedMemoryUnmap => self.shared_memory_unmap(call.registers.rdi, call.registers.rsi),
            SyscallNumber::DebugWrite => self.debug_write(call.registers.rdi, call.registers.rsi),
            SyscallNumber::AudioWrite => self.audio_write(call.registers.rdi, call.registers.rsi),
            SyscallNumber::ClockGetMonotonic => self.clock_get_monotonic(call.registers.rdi, call.now_ns),
            SyscallNumber::RandomFill => self.random_fill(
                call.registers.rdi,
                call.registers.rsi,
                call.registers.rdx,
            ),
            SyscallNumber::AnonymousMap => self.anonymous_map(
                call.registers.rdi,
                call.registers.rsi,
                call.registers.rdx,
            ),
            SyscallNumber::AnonymousProtect => self.anonymous_protect(
                call.registers.rdi,
                call.registers.rsi,
                call.registers.rdx,
            ),
            SyscallNumber::AnonymousReserve => self.anonymous_reserve(
                call.registers.rdi,
                call.registers.rsi,
                call.registers.rdx,
            ),
            SyscallNumber::MemoryGetInfo => self.memory_get_info(
                call.registers.rdi,
                call.registers.rsi,
                call.registers.rdx,
                call.heap,
            ),
            SyscallNumber::VirtualMapFile => self.virtual_map_file(
                call.registers.rdi,
                call.registers.rsi,
                call.registers.rdx,
            ),
            SyscallNumber::VirtualProtect => self.virtual_protect(
                call.registers.rdi,
                call.registers.rsi,
                call.registers.rdx,
            ),
            SyscallNumber::VirtualQuery => self.virtual_query(
                call.registers.rdi,
                call.registers.rsi,
                call.registers.rdx,
                call.registers.r10,
            ),
            SyscallNumber::AnonymousUnmap => self.anonymous_unmap(call.registers.rdi, call.registers.rsi),
            SyscallNumber::AnonymousCommit => self.anonymous_commit(call.registers.rdi, call.registers.rsi),
            SyscallNumber::AnonymousDecommit => self.anonymous_decommit(call.registers.rdi, call.registers.rsi),
            SyscallNumber::VirtualCommit => self.virtual_commit(call.registers.rdi, call.registers.rsi),
            SyscallNumber::VirtualDecommit => self.virtual_decommit(call.registers.rdi, call.registers.rsi),
            SyscallNumber::VirtualUnmap => self.virtual_unmap(call.registers.rdi, call.registers.rsi),
            _ => Ok(()),
        };
        at_once(result)
    }

    /// Makes a system call on files and directories.
    fn dispatch_files(&mut self, number: SyscallNumber, call: &SyscallContext) -> (dispatched: Result<
        DispatchResult,
        Status,
    >)
        requires
            is_files_call(number),
        ensures
            final(self).kept(*old(self)),
            files_call(
                old(self).abi,
                number,
                *call,
                old(self).log@,
                final(self).log@,
                dispatched,
            ),
    {
        let result: Result<(), Status> = match number {
            SyscallNumber::FilesystemStat => self.filesystem_stat(call.registers.rdi, call.registers.rsi),
            SyscallNumber::FilesystemReadDirectory => self.filesystem_read_directory(
                call.registers.rdi,
                call.registers.rsi,
                call.registers.rdx,
            ),
            SyscallNumber::FilesystemTruncate => self.filesystem_truncate(call.registers.rdi, call.registers.rsi),
            SyscallNumber::FilesystemUnlink => self.filesystem_unlink(
                call.registers.rdi,
                call.registers.rsi,
                call.registers.rdx,
            ),
            SyscallNumber::FilesystemOpenDirectory => self.filesystem_open_directory(call.registers.rdi),
            SyscallNumber::FilesystemCreateDirectory => self.filesystem_create_directory(call.registers.rdi),
            SyscallNumber::FilesystemRemoveDirectory => self.filesystem_remove_directory(call.registers.rdi),
            SyscallNumber::FilesystemRename => self.filesystem_rename(call.registers.rdi),
            SyscallNumber::FilesystemGetInfo => self.filesystem_get_info(call.registers.rdi),
            SyscallNumber::FilesystemGetMetadata => self.filesystem_get_metadata(call.registers.rdi),
            SyscallNumber::FilesystemReadDirectory2 => self.filesystem_read_directory2(call.registers.rdi),
            SyscallNumber::FilesystemOpen => {
                return self.filesystem_open_request(
                    call.process_id,
                    call.thread,
                    call.registers.rdi,
                    call.registers.rsi,
                    call.registers.rdx,
                    call.now_ns,
                );
            },
            SyscallNumber::FilesystemRead => {
                return self.filesystem_read_request(
                    call.process_id,
                    call.thread,
                    call.registers.rdi,
                    call.registers.rsi,
                    call.registers.rdx,
                    call.registers.r10,
                    call.registers.r8,
                    call.now_ns,
                );
            },
            SyscallNumber::FilesystemWrite => {
                return self.filesystem_write_request(
                    call.process_id,
                    call.thread,
                    call.registers.rdi,
                    call.registers.rsi,
                    call.registers.rdx,
                    call.registers.r10,
                    call.registers.r8,
                    call.now_ns,
                );
            },
            _ => {
                return self.filesystem_sync_request(
                    call.process_id,
                    call.thread,
                    call.registers.rdi,
                    call.now_ns,
                );
            },
        };
        at_once(result)
    }

    /// Makes a system call on threads.
    fn dispatch_threads(&mut self, number: SyscallNumber, call: &SyscallContext) -> (dispatched: Result<
        DispatchResult,
        Status,
    >)
        requires
            is_threads_call(number),
        ensures
            final(self).kept(*old(self)),
            threads_call(
                old(self).abi,
                number,
                *call,
                old(self).log@,
                final(self).log@,
                dispatched,
            ),
    {
        let result: Result<(), Status> = match number {
            SyscallNumber::ThreadCreate => self.thread_create(call.registers.rdi),
            SyscallNumber::ThreadWake => self.thread_wake(call.registers.rdi),
            SyscallNumber::ThreadTerminate => self.thread_terminate(call.registers.rdi),
            SyscallNumber::ThreadGetInfo => self.thread_get_info(
                call.registers.rdi,
                call.registers.rsi,
                call.registers.rdx,
                call.registers.r10,
            ),
            SyscallNumber::ThreadDetach => self.thread_detach(call.registers.rdi),
            SyscallNumber::ThreadGetCurrent => self.thread_get_current(call.thread, call.registers.rdi),
            SyscallNumber::ThreadSetSchedulingClass => self.thread_set_scheduling_class(call.registers.rdi, call.registers.rsi),
            SyscallNumber::ThreadGetSchedulingInfo => self.thread_get_scheduling_info(
                call.registers.rdi,
                call.registers.rsi,
                call.registers.rdx,
                call.registers.r10,
            ),
            SyscallNumber::ThreadSetSchedulingClassWithAuthority => self.thread_set_scheduling_class_with_authority(
                call.registers.rdi,
                call.registers.rsi,
                call.registers.rdx,
            ),
            SyscallNumber::ThreadSleepUntil => {
                let slept: Result<bool, Status> = self.thread_sleep_until(
                    call.thread,
                    call.registers.rdi,
                    call.now_ns,
                );
                return maybe_blocked(slept);
            },
            _ => {
                let joined: Result<bool, Status> = self.thread_join(
                    call.thread,
                    call.registers.rdi,
                    call.registers.rsi,
                    call.registers.rdx,
                    call.registers.r10,
                    call.registers.r8,
                    call.now_ns,
                );
                return maybe_blocked(joined);
            },
        };
        at_once(result)
    }

    /// Makes a system call that neither ends its thread nor waits for objects.
    fn dispatch_call(&mut self, number: SyscallNumber, call: &SyscallContext) -> (dispatched: Result<
        DispatchResult,
        Status,
    >)
        ensures
            final(self).kept(*old(self)),
            called(old(self).abi, number, *call, old(self).log@, final(self).log@, dispatched),
    {
        match number {
            SyscallNumber::HandleClose
            | SyscallNumber::HandleDuplicate
            | SyscallNumber::ChannelCreate
            | SyscallNumber::ChannelWrite
            | SyscallNumber::ChannelRead
            | SyscallNumber::ProcessGetInfo
            | SyscallNumber::ProcessTerminate
            | SyscallNumber::ApplicationGetDataDirectory
            | SyscallNumber::ApplicationDataCreate
            | SyscallNumber::SystemPowerRequest
            | SyscallNumber::SystemPowerCancel
            | SyscallNumber::SystemPowerGetInfo
            | SyscallNumber::RequestCancel
            | SyscallNumber::RequestGetInfo
            | SyscallNumber::RequestSubmitBatch
            | SyscallNumber::RequestGetDiagnostics
            | SyscallNumber::RequestSubmit
            | SyscallNumber::ProcessCreate
            | SyscallNumber::ProcessCreate2 => self.dispatch_handles(number, call),
            SyscallNumber::SharedMemoryCreate
            | SyscallNumber::SharedMemoryGetSize
            | SyscallNumber::SharedMemoryMap
            | SyscallNumber::SharedMemoryUnmap
            | SyscallNumber::DebugWrite
            | SyscallNumber::AudioWrite
            | SyscallNumber::ClockGetMonotonic
            | SyscallNumber::RandomFill
            | SyscallNumber::AnonymousMap
            | SyscallNumber::AnonymousProtect
            | SyscallNumber::AnonymousReserve
            | SyscallNumber::MemoryGetInfo
            | SyscallNumber::VirtualMapFile
            | SyscallNumber::VirtualProtect
            | SyscallNumber::VirtualQuery
            | SyscallNumber::AnonymousUnmap
            | SyscallNumber::AnonymousCommit
            | SyscallNumber::AnonymousDecommit
            | SyscallNumber::VirtualCommit
            | SyscallNumber::VirtualDecommit
            | SyscallNumber::VirtualUnmap => self.dispatch_memory(number, call),
            SyscallNumber::FilesystemStat
            | SyscallNumber::FilesystemReadDirectory
            | SyscallNumber::FilesystemTruncate
            | SyscallNumber::FilesystemUnlink
            | SyscallNumber::FilesystemOpenDirectory
            | SyscallNumber::FilesystemCreateDirectory
            | SyscallNumber::FilesystemRemoveDirectory
            | SyscallNumber::FilesystemRename
            | SyscallNumber::FilesystemGetInfo
            | SyscallNumber::FilesystemGetMetadata
            | SyscallNumber::FilesystemReadDirectory2
            | SyscallNumber::FilesystemOpen
            | SyscallNumber::FilesystemRead
            | SyscallNumber::FilesystemWrite
            | SyscallNumber::FilesystemSync => self.dispatch_files(number, call),
            SyscallNumber::ThreadCreate
            | SyscallNumber::ThreadWake
            | SyscallNumber::ThreadTerminate
            | SyscallNumber::ThreadGetInfo
            | SyscallNumber::ThreadDetach
            | SyscallNumber::ThreadGetCurrent
            | SyscallNumber::ThreadSetSchedulingClass
            | SyscallNumber::ThreadGetSchedulingInfo
            | SyscallNumber::ThreadSetSchedulingClassWithAuthority
            | SyscallNumber::ThreadSleepUntil
            | SyscallNumber::ThreadJoin => self.dispatch_threads(number, call),
            _ => Ok(DispatchResult::Complete(Status::Success)),
        }
    }

    /// Counts a failure to have memory, unless it was counted already.
    pub fn record_memory_failure_once(&mut self, counts: FailureCounts, status: Status)
        ensures
            final(self).kept(*old(self)),
            failure_counted(counts, status, final(self).log@, old(self).log@.len() as int),
    {
        let after: FailureCounts = self.failure_counts();
        match missing_memory_failure_counter(counts, after, status) {
            Some(MemoryFailureCounter::Quota) => {
                let _ = self.done(Call::RecordQuotaFailure);
            },
            Some(MemoryFailureCounter::Oom) => {
                let _ = self.done(Call::RecordOomFailure);
            },
            None => {},
        }
    }

    /// Makes a system call that does not end its thread.
    pub fn dispatch_non_exit(&mut self, number: SyscallNumber, call: &SyscallContext) -> (dispatched:
        DispatchResult)
        ensures
            final(self).kept(*old(self)),
            non_exit_dispatched(
                old(self).abi,
                number,
                *call,
                old(self).log@,
                final(self).log@,
                dispatched,
            ),
    {
        if number == SyscallNumber::WaitMany {
            return self.wait_many(
                call.thread,
                call.registers.rdi,
                call.registers.rsi,
                call.now_ns,
            );
        }
        let ghost base = self.log@.len() as int;
        let ghost abi = self.abi;
        let counts: FailureCounts = self.failure_counts();
        let child: bool = number == SyscallNumber::ProcessCreate || number
            == SyscallNumber::ProcessCreate2;
        if child && !call.process_creation_allowed {
            return DispatchResult::Complete(Status::AccessDenied);
        }
        let ghost counted = self.log@;
        let result: Result<DispatchResult, Status> = self.dispatch_call(number, call);
        let ghost known = self.log@;
        if let Err(status) = result {
            if child || is_memory_accounted_syscall(number) {
                self.record_memory_failure_once(counts, status);
            }
        }
        proof {
            lemma_beginning(counted, self.log@);
            lemma_beginning(known, self.log@);
            assert(self.log@[base] == counted[base]);
            assert(called_until(
                abi,
                number,
                *call,
                self.log@,
                base + 1,
                known.len() as int,
                result,
            ));
        }
        settle(result)
    }

    /// Tells a thread the status of its system call.
    fn tell(&mut self, thread: u64, status: Status)
        ensures
            final(self).went_on(*old(self)),
            told(
                old(self).abi,
                thread,
                status,
                final(self).log@,
                old(self).log@.len() as int,
            ),
            told_last(old(self).abi, thread, status, old(self).log@, final(self).log@),
    {
        let rax: u64 = return_register(&self.abi, status);
        let _ = self.done(Call::SetReturn { thread, rax });
    }

    /// Tells the thread how its system call ended.
    fn conclude(&mut self, thread: u64, dispatched: DispatchResult) -> (outcome: SyscallOutcome)
        ensures
            final(self).went_on(*old(self)),
            concluded(
                old(self).abi,
                thread,
                dispatched,
                final(self).log@,
                old(self).log@.len() as int,
                outcome,
            ),
            reported(old(self).abi, thread, old(self).log@, final(self).log@, outcome),
    {
        match dispatched {
            DispatchResult::Complete(status) => {
                self.tell(thread, status);
                SyscallOutcome::Yield
            },
            DispatchResult::Blocked => SyscallOutcome::Blocked,
            DispatchResult::ChildCreated => {
                self.tell(thread, Status::Success);
                SyscallOutcome::ChildCreated
            },
        }
    }

    /// Ends a thread or its process.
    fn dispatch_exit(&mut self, number: SyscallNumber, call: &SyscallContext) -> (outcome:
        SyscallOutcome)
        ensures
            final(self).went_on(*old(self)),
            exit_dispatched(
                old(self).abi,
                number,
                *call,
                final(self).log@,
                old(self).log@.len() as int,
                outcome,
            ),
            reported(old(self).abi, call.thread, old(self).log@, final(self).log@, outcome),
    {
        let thread: u64 = call.thread;
        match decode_exit_code(call.registers.rdi) {
            Err(status) => {
                self.tell(thread, status);
                SyscallOutcome::Yield
            },
            Ok(code) => if number == SyscallNumber::ProcessExit {
                let _ = self.done(Call::ExitProcess { thread, code });
                SyscallOutcome::Exit(code)
            } else {
                let _ = self.done(Call::ExitThread { thread, code });
                SyscallOutcome::ThreadExited(code)
            },
        }
    }

    /// Makes a system call.
    ///
    /// A thread that is not blocked, and that does not end, is told the status.
    pub fn dispatch(&mut self, call: &SyscallContext) -> (outcome: SyscallOutcome)
        ensures
            final(self).went_on(*old(self)),
            syscall_dispatched(
                old(self).abi,
                *call,
                final(self).log@,
                old(self).log@.len() as int,
                outcome,
            ),
            reported(old(self).abi, call.thread, old(self).log@, final(self).log@, outcome),
    {
        let ghost base = self.log@.len() as int;
        let ghost abi = self.abi;
        let number: SyscallNumber = match decode_syscall_number(call.registers.rax) {
            Some(number) => number,
            None => {
                return self.conclude(
                    call.thread,
                    DispatchResult::Complete(Status::UnknownSyscall),
                );
            },
        };
        if number == SyscallNumber::ProcessExit || number == SyscallNumber::ThreadExit {
            return self.dispatch_exit(number, call);
        }
        let active: bool = match self.flag(Call::AddressSpaceActive) {
            Ok(active) => active,
            Err(_) => false,
        };
        if !active {
            let ghost known = self.log@;
            let outcome: SyscallOutcome = self.conclude(
                call.thread,
                DispatchResult::Complete(Status::InvalidAddress),
            );
            proof {
                lemma_reported_later(
                    abi,
                    call.thread,
                    old(self).log@,
                    known,
                    self.log@,
                    outcome,
                );
            }
            return outcome;
        }
        let ghost entered = self.log@;
        let dispatched: DispatchResult = self.dispatch_non_exit(number, call);
        let ghost known = self.log@;
        let outcome: SyscallOutcome = self.conclude(call.thread, dispatched);
        proof {
            lemma_reported_later(
                abi,
                call.thread,
                old(self).log@,
                known,
                self.log@,
                outcome,
            );
            lemma_beginning(entered, self.log@);
            lemma_beginning(known, self.log@);
            assert(self.log@[base] == entered[base]);
            assert(dispatched_until(
                abi,
                number,
                *call,
                self.log@,
                base + 1,
                known.len() as int,
                dispatched,
            ));
        }
        outcome
    }
}

/// Where no thread was told before, what is reported then is reported in all.
proof fn lemma_reported_later(
    abi: Abi,
    thread: u64,
    before: Seq<Event>,
    known: Seq<Event>,
    after: Seq<Event>,
    outcome: SyscallOutcome,
)
    requires
        extends(before, known),
        extends(known, after),
        told_nobody(before, known),
        reported(abi, thread, known, after, outcome),
    ensures
        reported(abi, thread, before, after, outcome),
{
    let shorter = after.drop_last();
    assert forall|j: int| before.len() <= j < after.len() && j < known.len() implies !(
    #[trigger] after[j]).ask.tells() by {
        assert(after[j] == known[j]);
    }
    assert forall|status: Status| #[trigger]
        told_last(abi, thread, status, known, after) implies told_last(
        abi,
        thread,
        status,
        before,
        after,
    ) by {
        assert forall|j: int| before.len() <= j < shorter.len() implies !(
        #[trigger] shorter[j]).ask.tells() by {
            assert(shorter[j] == after[j]);
        }
    }
}

} // verus!
