//! The numbers of the system calls.
use vstd::prelude::*;

use crate::bytes::{signed64, to_signed};

use super::abi::Status;

verus! {

/// A system call.
#[derive(Clone, Copy, Debug, PartialEq, Eq, Structural)]
pub enum SyscallNumber {
    ProcessYield,
    ProcessExit,
    HandleClose,
    HandleDuplicate,
    WaitMany,
    ChannelCreate,
    ChannelWrite,
    ChannelRead,
    SharedMemoryCreate,
    SharedMemoryGetSize,
    SharedMemoryMap,
    SharedMemoryUnmap,
    DebugWrite,
    FilesystemOpen,
    FilesystemRead,
    FilesystemWrite,
    FilesystemStat,
    FilesystemReadDirectory,
    FilesystemTruncate,
    FilesystemUnlink,
    AudioWrite,
    ClockGetMonotonic,
    RandomFill,
    ProcessCreate,
    ProcessGetInfo,
    ProcessTerminate,
    ApplicationGetDataDirectory,
    FilesystemOpenDirectory,
    FilesystemCreateDirectory,
    FilesystemRemoveDirectory,
    FilesystemRename,
    FilesystemSync,
    FilesystemGetInfo,
    FilesystemGetMetadata,
    FilesystemReadDirectory2,
    ApplicationDataCreate,
    SystemPowerRequest,
    SystemPowerCancel,
    SystemPowerGetInfo,
    AnonymousMap,
    AnonymousUnmap,
    AnonymousProtect,
    AnonymousReserve,
    AnonymousCommit,
    AnonymousDecommit,
    MemoryGetInfo,
    VirtualMapFile,
    VirtualCommit,
    VirtualDecommit,
    VirtualProtect,
    VirtualUnmap,
    ProcessCreate2,
    VirtualQuery,
    ThreadCreate,
    ThreadExit,
    ThreadYield,
    ThreadSleepUntil,
    ThreadWake,
    ThreadTerminate,
    ThreadGetInfo,
    ThreadJoin,
    ThreadDetach,
    ThreadGetCurrent,
    ThreadSetSchedulingClass,
    ThreadGetSchedulingInfo,
    ThreadSetSchedulingClassWithAuthority,
    RequestSubmit,
    RequestCancel,
    RequestGetInfo,
    RequestSubmitBatch,
    RequestGetDiagnostics,
}

impl SyscallNumber {
    /// The number of this system call.
    pub open spec fn number(self) -> u64 {
        match self {
            SyscallNumber::ProcessYield => 0,
            SyscallNumber::ProcessExit => 1,
            SyscallNumber::HandleClose => 2,
            SyscallNumber::HandleDuplicate => 3,
            SyscallNumber::WaitMany => 4,
            SyscallNumber::ChannelCreate => 5,
            SyscallNumber::ChannelWrite => 6,
            SyscallNumber::ChannelRead => 7,
            SyscallNumber::SharedMemoryCreate => 8,
            SyscallNumber::SharedMemoryGetSize => 9,
            SyscallNumber::SharedMemoryMap => 10,
            SyscallNumber::SharedMemoryUnmap => 11,
            SyscallNumber::DebugWrite => 12,
            SyscallNumber::FilesystemOpen => 13,
            SyscallNumber::FilesystemRead => 14,
            SyscallNumber::FilesystemWrite => 15,
            SyscallNumber::FilesystemStat => 16,
            SyscallNumber::FilesystemReadDirectory => 17,
            SyscallNumber::FilesystemTruncate => 18,
            SyscallNumber::FilesystemUnlink => 19,
            SyscallNumber::AudioWrite => 20,
            SyscallNumber::ClockGetMonotonic => 21,
            SyscallNumber::RandomFill => 22,
            SyscallNumber::ProcessCreate => 23,
            SyscallNumber::ProcessGetInfo => 24,
            SyscallNumber::ProcessTerminate => 25,
            SyscallNumber::ApplicationGetDataDirectory => 26,
            SyscallNumber::FilesystemOpenDirectory => 27,
            SyscallNumber::FilesystemCreateDirectory => 28,
            SyscallNumber::FilesystemRemoveDirectory => 29,
            SyscallNumber::FilesystemRename => 30,
            SyscallNumber::FilesystemSync => 31,
            SyscallNumber::FilesystemGetInfo => 32,
            SyscallNumber::FilesystemGetMetadata => 33,
            SyscallNumber::FilesystemReadDirectory2 => 34,
            SyscallNumber::ApplicationDataCreate => 35,
            SyscallNumber::SystemPowerRequest => 36,
            SyscallNumber::SystemPowerCancel => 37,
            SyscallNumber::SystemPowerGetInfo => 38,
            SyscallNumber::AnonymousMap => 39,
            SyscallNumber::AnonymousUnmap => 40,
            SyscallNumber::AnonymousProtect => 41,
            SyscallNumber::AnonymousReserve => 42,
            SyscallNumber::AnonymousCommit => 43,
            SyscallNumber::AnonymousDecommit => 44,
            SyscallNumber::MemoryGetInfo => 45,
            SyscallNumber::VirtualMapFile => 46,
            SyscallNumber::VirtualCommit => 47,
            SyscallNumber::VirtualDecommit => 48,
            SyscallNumber::VirtualProtect => 49,
            SyscallNumber::VirtualUnmap => 50,
            SyscallNumber::ProcessCreate2 => 51,
            SyscallNumber::VirtualQuery => 52,
            SyscallNumber::ThreadCreate => 53,
            SyscallNumber::ThreadExit => 54,
            SyscallNumber::ThreadYield => 55,
            SyscallNumber::ThreadSleepUntil => 56,
            SyscallNumber::ThreadWake => 57,
            SyscallNumber::ThreadTerminate => 58,
            SyscallNumber::ThreadGetInfo => 59,
            SyscallNumber::ThreadJoin => 60,
            SyscallNumber::ThreadDetach => 61,
            SyscallNumber::ThreadGetCurrent => 62,
            SyscallNumber::ThreadSetSchedulingClass => 63,
            SyscallNumber::ThreadGetSchedulingInfo => 64,
            SyscallNumber::ThreadSetSchedulingClassWithAuthority => 65,
            SyscallNumber::RequestSubmit => 66,
            SyscallNumber::RequestCancel => 67,
            SyscallNumber::RequestGetInfo => 68,
            SyscallNumber::RequestSubmitBatch => 69,
            SyscallNumber::RequestGetDiagnostics => 70,
        }
    }

    /// The number of this system call.
    pub fn raw(&self) -> (number: u64)
        ensures
            number == self.number(),
    {
        match *self {
            SyscallNumber::ProcessYield => 0,
            SyscallNumber::ProcessExit => 1,
            SyscallNumber::HandleClose => 2,
            SyscallNumber::HandleDuplicate => 3,
            SyscallNumber::WaitMany => 4,
            SyscallNumber::ChannelCreate => 5,
            SyscallNumber::ChannelWrite => 6,
            SyscallNumber::ChannelRead => 7,
            SyscallNumber::SharedMemoryCreate => 8,
            SyscallNumber::SharedMemoryGetSize => 9,
            SyscallNumber::SharedMemoryMap => 10,
            SyscallNumber::SharedMemoryUnmap => 11,
            SyscallNumber::DebugWrite => 12,
            SyscallNumber::FilesystemOpen => 13,
            SyscallNumber::FilesystemRead => 14,
            SyscallNumber::FilesystemWrite => 15,
            SyscallNumber::FilesystemStat => 16,
            SyscallNumber::FilesystemReadDirectory => 17,
            SyscallNumber::FilesystemTruncate => 18,
            SyscallNumber::FilesystemUnlink => 19,
            SyscallNumber::AudioWrite => 20,
            SyscallNumber::ClockGetMonotonic => 21,
            SyscallNumber::RandomFill => 22,
            SyscallNumber::ProcessCreate => 23,
            SyscallNumber::ProcessGetInfo => 24,
            SyscallNumber::ProcessTerminate => 25,
            SyscallNumber::ApplicationGetDataDirectory => 26,
            SyscallNumber::FilesystemOpenDirectory => 27,
            SyscallNumber::FilesystemCreateDirectory => 28,
            SyscallNumber::FilesystemRemoveDirectory => 29,
            SyscallNumber::FilesystemRename => 30,
            SyscallNumber::FilesystemSync => 31,
            SyscallNumber::FilesystemGetInfo => 32,
            SyscallNumber::FilesystemGetMetadata => 33,
            SyscallNumber::FilesystemReadDirectory2 => 34,
            SyscallNumber::ApplicationDataCreate => 35,
            SyscallNumber::SystemPowerRequest => 36,
            SyscallNumber::SystemPowerCancel => 37,
            SyscallNumber::SystemPowerGetInfo => 38,
            SyscallNumber::AnonymousMap => 39,
            SyscallNumber::AnonymousUnmap => 40,
            SyscallNumber::AnonymousProtect => 41,
            SyscallNumber::AnonymousReserve => 42,
            SyscallNumber::AnonymousCommit => 43,
            SyscallNumber::AnonymousDecommit => 44,
            SyscallNumber::MemoryGetInfo => 45,
            SyscallNumber::VirtualMapFile => 46,
            SyscallNumber::VirtualCommit => 47,
            SyscallNumber::VirtualDecommit => 48,
            SyscallNumber::VirtualProtect => 49,
            SyscallNumber::VirtualUnmap => 50,
            SyscallNumber::ProcessCreate2 => 51,
            SyscallNumber::VirtualQuery => 52,
            SyscallNumber::ThreadCreate => 53,
            SyscallNumber::ThreadExit => 54,
            SyscallNumber::ThreadYield => 55,
            SyscallNumber::ThreadSleepUntil => 56,
            SyscallNumber::ThreadWake => 57,
            SyscallNumber::ThreadTerminate => 58,
            SyscallNumber::ThreadGetInfo => 59,
            SyscallNumber::ThreadJoin => 60,
            SyscallNumber::ThreadDetach => 61,
            SyscallNumber::ThreadGetCurrent => 62,
            SyscallNumber::ThreadSetSchedulingClass => 63,
            SyscallNumber::ThreadGetSchedulingInfo => 64,
            SyscallNumber::ThreadSetSchedulingClassWithAuthority => 65,
            SyscallNumber::RequestSubmit => 66,
            SyscallNumber::RequestCancel => 67,
            SyscallNumber::RequestGetInfo => 68,
            SyscallNumber::RequestSubmitBatch => 69,
            SyscallNumber::RequestGetDiagnostics => 70,
        }
    }
}

/// No two system calls have one number, and there is no number above the last.
pub proof fn law_numbers_are_distinct(left: SyscallNumber, right: SyscallNumber)
    ensures
        left.number() == right.number() ==> left == right,
        left.number() <= 70,
{
}

/// The system call with a number.
pub fn decode_syscall_number(raw: u64) -> (number: Option<SyscallNumber>)
    ensures
        match number {
            Some(number) => number.number() == raw,
            None => raw > 70,
        },
{
    Some(
        match raw {
            0 => SyscallNumber::ProcessYield,
            1 => SyscallNumber::ProcessExit,
            2 => SyscallNumber::HandleClose,
            3 => SyscallNumber::HandleDuplicate,
            4 => SyscallNumber::WaitMany,
            5 => SyscallNumber::ChannelCreate,
            6 => SyscallNumber::ChannelWrite,
            7 => SyscallNumber::ChannelRead,
            8 => SyscallNumber::SharedMemoryCreate,
            9 => SyscallNumber::SharedMemoryGetSize,
            10 => SyscallNumber::SharedMemoryMap,
            11 => SyscallNumber::SharedMemoryUnmap,
            12 => SyscallNumber::DebugWrite,
            13 => SyscallNumber::FilesystemOpen,
            14 => SyscallNumber::FilesystemRead,
            15 => SyscallNumber::FilesystemWrite,
            16 => SyscallNumber::FilesystemStat,
            17 => SyscallNumber::FilesystemReadDirectory,
            18 => SyscallNumber::FilesystemTruncate,
            19 => SyscallNumber::FilesystemUnlink,
            20 => SyscallNumber::AudioWrite,
            21 => SyscallNumber::ClockGetMonotonic,
            22 => SyscallNumber::RandomFill,
            23 => SyscallNumber::ProcessCreate,
            24 => SyscallNumber::ProcessGetInfo,
            25 => SyscallNumber::ProcessTerminate,
            26 => SyscallNumber::ApplicationGetDataDirectory,
            27 => SyscallNumber::FilesystemOpenDirectory,
            28 => SyscallNumber::FilesystemCreateDirectory,
            29 => SyscallNumber::FilesystemRemoveDirectory,
            30 => SyscallNumber::FilesystemRename,
            31 => SyscallNumber::FilesystemSync,
            32 => SyscallNumber::FilesystemGetInfo,
            33 => SyscallNumber::FilesystemGetMetadata,
            34 => SyscallNumber::FilesystemReadDirectory2,
            35 => SyscallNumber::ApplicationDataCreate,
            36 => SyscallNumber::SystemPowerRequest,
            37 => SyscallNumber::SystemPowerCancel,
            38 => SyscallNumber::SystemPowerGetInfo,
            39 => SyscallNumber::AnonymousMap,
            40 => SyscallNumber::AnonymousUnmap,
            41 => SyscallNumber::AnonymousProtect,
            42 => SyscallNumber::AnonymousReserve,
            43 => SyscallNumber::AnonymousCommit,
            44 => SyscallNumber::AnonymousDecommit,
            45 => SyscallNumber::MemoryGetInfo,
            46 => SyscallNumber::VirtualMapFile,
            47 => SyscallNumber::VirtualCommit,
            48 => SyscallNumber::VirtualDecommit,
            49 => SyscallNumber::VirtualProtect,
            50 => SyscallNumber::VirtualUnmap,
            51 => SyscallNumber::ProcessCreate2,
            52 => SyscallNumber::VirtualQuery,
            53 => SyscallNumber::ThreadCreate,
            54 => SyscallNumber::ThreadExit,
            55 => SyscallNumber::ThreadYield,
            56 => SyscallNumber::ThreadSleepUntil,
            57 => SyscallNumber::ThreadWake,
            58 => SyscallNumber::ThreadTerminate,
            59 => SyscallNumber::ThreadGetInfo,
            60 => SyscallNumber::ThreadJoin,
            61 => SyscallNumber::ThreadDetach,
            62 => SyscallNumber::ThreadGetCurrent,
            63 => SyscallNumber::ThreadSetSchedulingClass,
            64 => SyscallNumber::ThreadGetSchedulingInfo,
            65 => SyscallNumber::ThreadSetSchedulingClassWithAuthority,
            66 => SyscallNumber::RequestSubmit,
            67 => SyscallNumber::RequestCancel,
            68 => SyscallNumber::RequestGetInfo,
            69 => SyscallNumber::RequestSubmitBatch,
            70 => SyscallNumber::RequestGetDiagnostics,
            _ => {
                return None;
            },
        },
    )
}

/// The system call takes memory that its process is charged for.
pub open spec fn memory_accounted(number: SyscallNumber) -> bool {
    ||| number == SyscallNumber::SharedMemoryCreate
    ||| number == SyscallNumber::SharedMemoryMap
    ||| number == SyscallNumber::AnonymousMap
    ||| number == SyscallNumber::AnonymousReserve
    ||| number == SyscallNumber::AnonymousCommit
    ||| number == SyscallNumber::AnonymousDecommit
    ||| number == SyscallNumber::AnonymousUnmap
    ||| number == SyscallNumber::AnonymousProtect
    ||| number == SyscallNumber::VirtualMapFile
    ||| number == SyscallNumber::VirtualCommit
    ||| number == SyscallNumber::VirtualDecommit
    ||| number == SyscallNumber::VirtualUnmap
    ||| number == SyscallNumber::VirtualProtect
}

/// The system call takes memory that its process is charged for.
pub fn is_memory_accounted_syscall(number: SyscallNumber) -> (result: bool)
    ensures
        result == memory_accounted(number),
{
    match number {
        SyscallNumber::SharedMemoryCreate
        | SyscallNumber::SharedMemoryMap
        | SyscallNumber::AnonymousMap
        | SyscallNumber::AnonymousReserve
        | SyscallNumber::AnonymousCommit
        | SyscallNumber::AnonymousDecommit
        | SyscallNumber::AnonymousUnmap
        | SyscallNumber::AnonymousProtect
        | SyscallNumber::VirtualMapFile
        | SyscallNumber::VirtualCommit
        | SyscallNumber::VirtualDecommit
        | SyscallNumber::VirtualUnmap
        | SyscallNumber::VirtualProtect => true,
        _ => false,
    }
}

/// The exit code in a register, if it fits.
pub fn decode_exit_code(raw: u64) -> (result: Result<i32, Status>)
    ensures
        match result {
            Ok(code) => code == signed64(raw as int),
            Err(status) => status == Status::InvalidArgument && !(i32::MIN <= signed64(raw as int)
                <= i32::MAX),
        },
{
    let value: i64 = to_signed(raw);
    if value < i32::MIN as i64 || value > i32::MAX as i64 {
        Err(Status::InvalidArgument)
    } else {
        Ok(value as i32)
    }
}

/// Failures that a process is charged with.
#[derive(Clone, Copy, Debug, PartialEq, Eq, Structural)]
pub struct FailureCounts {
    pub quota_failures: u64,
    pub oom_failures: u64,
}

/// A counter of failures.
#[derive(Clone, Copy, Debug, PartialEq, Eq, Structural)]
pub enum MemoryFailureCounter {
    Quota,
    Oom,
}

/// The counter that a failure has not raised yet.
pub open spec fn missing_counter(
    before: FailureCounts,
    after: FailureCounts,
    status: Status,
) -> Option<MemoryFailureCounter> {
    if status == Status::ResourceLimit && after.quota_failures == before.quota_failures {
        Some(MemoryFailureCounter::Quota)
    } else if status == Status::OutOfMemory && after.oom_failures == before.oom_failures {
        Some(MemoryFailureCounter::Oom)
    } else {
        None
    }
}

/// The counter that a failure has not raised yet.
pub fn missing_memory_failure_counter(
    before: FailureCounts,
    after: FailureCounts,
    status: Status,
) -> (counter: Option<MemoryFailureCounter>)
    ensures
        counter == missing_counter(before, after, status),
{
    match status {
        Status::ResourceLimit => if after.quota_failures == before.quota_failures {
            Some(MemoryFailureCounter::Quota)
        } else {
            None
        },
        Status::OutOfMemory => if after.oom_failures == before.oom_failures {
            Some(MemoryFailureCounter::Oom)
        } else {
            None
        },
        _ => None,
    }
}

} // verus!
