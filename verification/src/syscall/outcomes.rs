//! How system calls and blocked threads end, and by what numbers programs know them.
use vstd::prelude::*;

use crate::bytes::signed64;

use super::abi::{register_of, Abi, Status};
use super::blocked::{
    blocked_completed, blocked_polled, join_closed, join_completed, join_plan, lost_output, output_end,
    request_completed, wait_after, wait_closed, wait_completed, wait_writes, BlockedPoll,
};
use super::dispatch::{
    call_ended, called, called_until, concluded, dispatched_until, known_dispatched, non_exit_dispatched, syscall_dispatched, told,
    SyscallContext, SyscallOutcome,
};
use super::effects::{lemma_asked, lemma_failed, lemma_passed};
use super::errors::{
    address_space_status, fs_status, map_status, mapping_status, request_status, AddressSpaceError,
    FsError, MapError, RequestError, SharedMappingError,
};
use super::kernel::{
    passed, Ask, BlockedKind, Call, DispatchResult, EndedJoin, EndedRequest, Event,
    WaitManyCompletion, WaitModel,
};
use super::memory_effects::{lemma_told_number, told_number};
use super::number::SyscallNumber;
use super::process_effects::tells_of_thread;
use super::records::law_threads_are_described_field_by_field;
use super::request_effects::{
    items_read, law_waits_are_as_the_record_says, lemma_items_told, lemma_one_output,
    tells_of_request,
};
use super::request_wire::info_output;
use super::wait::{settled, wait_submitted};

verus! {

/// Every system call has the number that programs know it by.
pub proof fn law_calls_are_known_by_their_numbers(number: SyscallNumber)
    ensures
        number == SyscallNumber::ProcessYield <==> number.number() == 0,
        number == SyscallNumber::ProcessExit <==> number.number() == 1,
        number == SyscallNumber::HandleClose <==> number.number() == 2,
        number == SyscallNumber::HandleDuplicate <==> number.number() == 3,
        number == SyscallNumber::WaitMany <==> number.number() == 4,
        number == SyscallNumber::ChannelCreate <==> number.number() == 5,
        number == SyscallNumber::ChannelWrite <==> number.number() == 6,
        number == SyscallNumber::ChannelRead <==> number.number() == 7,
        number == SyscallNumber::SharedMemoryCreate <==> number.number() == 8,
        number == SyscallNumber::SharedMemoryGetSize <==> number.number() == 9,
        number == SyscallNumber::SharedMemoryMap <==> number.number() == 10,
        number == SyscallNumber::SharedMemoryUnmap <==> number.number() == 11,
        number == SyscallNumber::DebugWrite <==> number.number() == 12,
        number == SyscallNumber::FilesystemOpen <==> number.number() == 13,
        number == SyscallNumber::FilesystemRead <==> number.number() == 14,
        number == SyscallNumber::FilesystemWrite <==> number.number() == 15,
        number == SyscallNumber::FilesystemStat <==> number.number() == 16,
        number == SyscallNumber::FilesystemReadDirectory <==> number.number() == 17,
        number == SyscallNumber::FilesystemTruncate <==> number.number() == 18,
        number == SyscallNumber::FilesystemUnlink <==> number.number() == 19,
        number == SyscallNumber::AudioWrite <==> number.number() == 20,
        number == SyscallNumber::ClockGetMonotonic <==> number.number() == 21,
        number == SyscallNumber::RandomFill <==> number.number() == 22,
        number == SyscallNumber::ProcessCreate <==> number.number() == 23,
        number == SyscallNumber::ProcessGetInfo <==> number.number() == 24,
        number == SyscallNumber::ProcessTerminate <==> number.number() == 25,
        number == SyscallNumber::ApplicationGetDataDirectory <==> number.number() == 26,
        number == SyscallNumber::FilesystemOpenDirectory <==> number.number() == 27,
        number == SyscallNumber::FilesystemCreateDirectory <==> number.number() == 28,
        number == SyscallNumber::FilesystemRemoveDirectory <==> number.number() == 29,
        number == SyscallNumber::FilesystemRename <==> number.number() == 30,
        number == SyscallNumber::FilesystemSync <==> number.number() == 31,
        number == SyscallNumber::FilesystemGetInfo <==> number.number() == 32,
        number == SyscallNumber::FilesystemGetMetadata <==> number.number() == 33,
        number == SyscallNumber::FilesystemReadDirectory2 <==> number.number() == 34,
        number == SyscallNumber::ApplicationDataCreate <==> number.number() == 35,
        number == SyscallNumber::SystemPowerRequest <==> number.number() == 36,
        number == SyscallNumber::SystemPowerCancel <==> number.number() == 37,
        number == SyscallNumber::SystemPowerGetInfo <==> number.number() == 38,
        number == SyscallNumber::AnonymousMap <==> number.number() == 39,
        number == SyscallNumber::AnonymousUnmap <==> number.number() == 40,
        number == SyscallNumber::AnonymousProtect <==> number.number() == 41,
        number == SyscallNumber::AnonymousReserve <==> number.number() == 42,
        number == SyscallNumber::AnonymousCommit <==> number.number() == 43,
        number == SyscallNumber::AnonymousDecommit <==> number.number() == 44,
        number == SyscallNumber::MemoryGetInfo <==> number.number() == 45,
        number == SyscallNumber::VirtualMapFile <==> number.number() == 46,
        number == SyscallNumber::VirtualCommit <==> number.number() == 47,
        number == SyscallNumber::VirtualDecommit <==> number.number() == 48,
        number == SyscallNumber::VirtualProtect <==> number.number() == 49,
        number == SyscallNumber::VirtualUnmap <==> number.number() == 50,
        number == SyscallNumber::ProcessCreate2 <==> number.number() == 51,
        number == SyscallNumber::VirtualQuery <==> number.number() == 52,
        number == SyscallNumber::ThreadCreate <==> number.number() == 53,
        number == SyscallNumber::ThreadExit <==> number.number() == 54,
        number == SyscallNumber::ThreadYield <==> number.number() == 55,
        number == SyscallNumber::ThreadSleepUntil <==> number.number() == 56,
        number == SyscallNumber::ThreadWake <==> number.number() == 57,
        number == SyscallNumber::ThreadTerminate <==> number.number() == 58,
        number == SyscallNumber::ThreadGetInfo <==> number.number() == 59,
        number == SyscallNumber::ThreadJoin <==> number.number() == 60,
        number == SyscallNumber::ThreadDetach <==> number.number() == 61,
        number == SyscallNumber::ThreadGetCurrent <==> number.number() == 62,
        number == SyscallNumber::ThreadSetSchedulingClass <==> number.number() == 63,
        number == SyscallNumber::ThreadGetSchedulingInfo <==> number.number() == 64,
        number == SyscallNumber::ThreadSetSchedulingClassWithAuthority <==> number.number() == 65,
        number == SyscallNumber::RequestSubmit <==> number.number() == 66,
        number == SyscallNumber::RequestCancel <==> number.number() == 67,
        number == SyscallNumber::RequestGetInfo <==> number.number() == 68,
        number == SyscallNumber::RequestSubmitBatch <==> number.number() == 69,
        number == SyscallNumber::RequestGetDiagnostics <==> number.number() == 70,
{
}

/// A thread finds the code of its status in the register that system calls return in, as a signed
/// number.
pub proof fn law_statuses_are_told_by_their_codes(abi: Abi, status: Status)
    ensures
        status == Status::Success ==> finds(register_of(abi, status), abi.status.ok),
        status == Status::AccessDenied ==> finds(register_of(abi, status), abi.status.access_denied),
        status == Status::AlreadyExists ==> finds(register_of(abi, status), abi.status.already_exists),
        status == Status::AlreadyMapped ==> finds(register_of(abi, status), abi.status.already_mapped),
        status == Status::BufferTooSmall ==> finds(register_of(abi, status), abi.status.buffer_too_small),
        status == Status::DirectoryNotEmpty ==> finds(register_of(abi, status), abi.status.directory_not_empty),
        status == Status::EndOfDirectory ==> finds(register_of(abi, status), abi.status.end_of_directory),
        status == Status::InvalidAddress ==> finds(register_of(abi, status), abi.status.invalid_address),
        status == Status::InvalidArgument ==> finds(register_of(abi, status), abi.status.invalid_argument),
        status == Status::InvalidHandle ==> finds(register_of(abi, status), abi.status.invalid_handle),
        status == Status::InvalidMessage ==> finds(register_of(abi, status), abi.status.invalid_message),
        status == Status::InvalidRights ==> finds(register_of(abi, status), abi.status.invalid_rights),
        status == Status::Io ==> finds(register_of(abi, status), abi.status.io),
        status == Status::IsDirectory ==> finds(register_of(abi, status), abi.status.is_directory),
        status == Status::MessageTooLarge ==> finds(register_of(abi, status), abi.status.message_too_large),
        status == Status::NotDirectory ==> finds(register_of(abi, status), abi.status.not_directory),
        status == Status::NotFound ==> finds(register_of(abi, status), abi.status.not_found),
        status == Status::OutOfMemory ==> finds(register_of(abi, status), abi.status.out_of_memory),
        status == Status::OutOfRange ==> finds(register_of(abi, status), abi.status.out_of_range),
        status == Status::ResourceLimit ==> finds(register_of(abi, status), abi.status.resource_limit),
        status == Status::ShouldWait ==> finds(register_of(abi, status), abi.status.should_wait),
        status == Status::TimedOut ==> finds(register_of(abi, status), abi.status.timed_out),
        status == Status::UnknownSyscall ==> finds(register_of(abi, status), abi.status.unknown_syscall),
        status == Status::WrongObjectType ==> finds(register_of(abi, status), abi.status.wrong_object_type),
        status matches Status::Other(code) ==> finds(register_of(abi, status), code),
{
}

/// A register that holds a signed number.
pub open spec fn finds(register: u64, code: i32) -> bool {
    &&& code >= 0 ==> register == code
    &&& code < 0 ==> register == 0x1_0000_0000_0000_0000 + code
}

/// What went wrong below a system call is told as the status that stands for it.
pub proof fn law_errors_are_told_by_what_they_mean(
    mapping: MapError,
    space: AddressSpaceError,
    shared: SharedMappingError,
    request: RequestError,
    files: FsError,
)
    ensures
        mapping is AlreadyMapped ==> map_status(mapping) == Status::AlreadyMapped,
        mapping is OutOfFrames ==> map_status(mapping) == Status::OutOfMemory,
        mapping is FrameAllocator ==> map_status(mapping) == Status::OutOfMemory,
        mapping is AddressOverflow ==> map_status(mapping) == Status::OutOfRange,
        mapping is AlreadyMapped || mapping is OutOfFrames || mapping is FrameAllocator
            || mapping is AddressOverflow || map_status(mapping) == Status::InvalidAddress,
        space is AlreadyMapped ==> address_space_status(space) == Status::AlreadyMapped,
        space is PermissionDenied ==> address_space_status(space) == Status::AccessDenied,
        space is PinnedMapping ==> address_space_status(space) == Status::ShouldWait,
        space is InvalidRangeLength ==> address_space_status(space) == Status::InvalidArgument,
        space is WritableExecutable ==> address_space_status(space) == Status::InvalidArgument,
        space is OutOfMemory || space is OutOfFrames || space is FrameAllocator
            ==> address_space_status(space) == Status::OutOfMemory,
        space matches AddressSpaceError::KernelPageTable(inner) ==> address_space_status(space)
            == map_status(inner),
        shared is InvalidProtection ==> mapping_status(shared) == Status::InvalidArgument,
        shared is UnsupportedFlags ==> mapping_status(shared) == Status::InvalidArgument,
        shared is UnalignedOffset ==> mapping_status(shared) == Status::InvalidArgument,
        shared is ZeroLength ==> mapping_status(shared) == Status::InvalidArgument,
        shared is RangeOverflow ==> mapping_status(shared) == Status::OutOfRange,
        shared is RangeOutsideObject ==> mapping_status(shared) == Status::OutOfRange,
        shared is OutOfMemory ==> mapping_status(shared) == Status::OutOfMemory,
        shared is NoAddressSpace ==> mapping_status(shared) == Status::OutOfMemory,
        shared is Io ==> mapping_status(shared) == Status::Io,
        shared is ResourceLimit ==> mapping_status(shared) == Status::ResourceLimit,
        shared is AlreadyMapped ==> mapping_status(shared) == Status::AlreadyMapped,
        shared matches SharedMappingError::Ipc(status) ==> mapping_status(shared) == status,
        shared matches SharedMappingError::AddressSpace(inner) ==> mapping_status(shared)
            == address_space_status(inner),
        request is OutOfMemory ==> request_status(request) == Status::OutOfMemory,
        request is Quiescing ==> request_status(request) == Status::ShouldWait,
        request is CompletionQueueFull ==> request_status(request) == Status::ShouldWait,
        request is ReleaseNotDispatched ==> request_status(request) == Status::ShouldWait,
        request is EmptyBatch ==> request_status(request) == Status::InvalidArgument,
        request is InvalidLimits ==> request_status(request) == Status::InvalidArgument,
        request is InvalidState ==> request_status(request) == Status::InvalidArgument,
        request is OutputTooSmall ==> request_status(request) == Status::BufferTooSmall,
        request is InvalidRequest ==> request_status(request) == Status::InvalidHandle,
        files is InvalidName ==> fs_status(files) == Status::InvalidArgument,
        files is TraversalTooDeep ==> fs_status(files) == Status::OutOfRange,
        files is AlreadyExists ==> fs_status(files) == Status::AlreadyExists,
        files is NotFound ==> fs_status(files) == Status::NotFound,
        files is NoSpace ==> fs_status(files) == Status::OutOfMemory,
        files is InvalidHandle ==> fs_status(files) == Status::InvalidHandle,
        files is NotDirectory ==> fs_status(files) == Status::NotDirectory,
        files is IsDirectory ==> fs_status(files) == Status::IsDirectory,
        files is DirectoryNotEmpty ==> fs_status(files) == Status::DirectoryNotEmpty,
        files is WouldCycle ==> fs_status(files) == Status::InvalidArgument,
        files is OffsetOverflow ==> fs_status(files) == Status::OutOfRange,
        files is Io ==> fs_status(files) == Status::Io,
{
}

/// A thread is told the status of its system call and nothing else, by its own number.
proof fn lemma_told(abi: Abi, thread: u64, status: Status, log: Seq<Event>, at: int)
    requires
        0 <= at,
        told(abi, thread, status, log, at),
    ensures
        log.len() == at + 1,
        log[at].ask == Ask::Plain(Call::SetReturn { thread, rax: register_of(abi, status) }),
{
    let asks = seq![Ask::Plain(Call::SetReturn { thread, rax: register_of(abi, status) })];
    lemma_asked(log, at, asks);
    assert(log[at].ask == asks[0]);
}

/// A system call that no number names is refused. One that ends its process or its thread does so
/// with the code that it is given, if that is one. Any other is refused where the memory of its
/// process is not the active one, and is else done; its thread is told how it ended, unless it is
/// blocked.
#[verifier::rlimit(40)]
pub proof fn law_system_calls_end_as_they_were_asked(
    abi: Abi,
    call: SyscallContext,
    log: Seq<Event>,
    base: int,
    outcome: SyscallOutcome,
)
    requires
        0 <= base,
        syscall_dispatched(abi, call, log, base, outcome),
    ensures
        ({
            let rax = call.registers.rax;
            let rdi = call.registers.rdi;
            let code = if rdi > i64::MAX {
                rdi - 0x1_0000_0000_0000_0000
            } else {
                rdi as int
            };
            let refused = |status: Status|
                outcome == SyscallOutcome::Yield && log.len() > base && log.last().ask
                    == Ask::Plain(
                    Call::SetReturn { thread: call.thread, rax: register_of(abi, status) },
                );
            &&& rax > 70 ==> refused(Status::UnknownSyscall) && log.len() == base + 1
            &&& (rax == 1 || rax == 54) && !(i32::MIN <= code <= i32::MAX) ==> refused(
                Status::InvalidArgument,
            ) && log.len() == base + 1
            &&& rax == 1 && i32::MIN <= code <= i32::MAX ==> outcome == SyscallOutcome::Exit(
                code as i32,
            ) && log.len() == base + 1 && log[base].ask == Ask::Plain(
                Call::ExitProcess { thread: call.thread, code: code as i32 },
            )
            &&& rax == 54 && i32::MIN <= code <= i32::MAX ==> outcome
                == SyscallOutcome::ThreadExited(code as i32) && log.len() == base + 1
                && log[base].ask == Ask::Plain(
                Call::ExitThread { thread: call.thread, code: code as i32 },
            )
            &&& rax <= 70 && rax != 1 && rax != 54 ==> {
                &&& log[base].ask == Ask::Plain(Call::AddressSpaceActive)
                &&& log[base].answer->Flag_0 != Ok::<bool, Status>(true) ==> refused(
                    Status::InvalidAddress,
                ) && log.len() == base + 2
                &&& log[base].answer->Flag_0 == Ok::<bool, Status>(true) ==> exists|
                    number: SyscallNumber,
                    known: int,
                    dispatched: DispatchResult,
                |
                    {
                        &&& number.number() == rax
                        &&& #[trigger] dispatched_until(
                            abi,
                            number,
                            call,
                            log,
                            base + 1,
                            known,
                            dispatched,
                        )
                        &&& dispatched matches DispatchResult::Complete(status) ==> refused(status)
                            && log.len() == known + 1
                        &&& dispatched is Blocked ==> outcome == SyscallOutcome::Blocked
                            && log.len() == known
                        &&& dispatched is ChildCreated ==> outcome == SyscallOutcome::ChildCreated
                            && log.last().ask == Ask::Plain(
                            Call::SetReturn {
                                thread: call.thread,
                                rax: register_of(abi, Status::Success),
                            },
                        ) && log.len() == known + 1
                    }
            }
        }),
{
    let rax = call.registers.rax;
    let code = signed64(call.registers.rdi as int);
    if rax > 70 {
        lemma_told(abi, call.thread, Status::UnknownSyscall, log, base);
    } else {
        let number = choose|number: SyscallNumber| #[trigger]
            number.number() == call.registers.rax && known_dispatched(
                abi,
                number,
                call,
                log,
                base,
                outcome,
            );
        law_calls_are_known_by_their_numbers(number);
        if rax == 1 || rax == 54 {
            if !(i32::MIN <= code <= i32::MAX) {
                lemma_told(abi, call.thread, Status::InvalidArgument, log, base);
            } else {
                let asks = if rax == 1 {
                    seq![Ask::Plain(Call::ExitProcess { thread: call.thread, code: code as i32 })]
                } else {
                    seq![Ask::Plain(Call::ExitThread { thread: call.thread, code: code as i32 })]
                };
                lemma_asked(log, base, asks);
                assert(log[base].ask == asks[0]);
            }
        } else if log[base].answer->Flag_0 != Ok::<bool, Status>(true) {
            lemma_told(abi, call.thread, Status::InvalidAddress, log, base + 1);
        } else {
            let (known, dispatched) = choose|known: int, dispatched: DispatchResult| #[trigger]
                dispatched_until(abi, number, call, log, base + 1, known, dispatched)
                    && concluded(abi, call.thread, dispatched, log, known, outcome);
            assert(dispatched_until(abi, number, call, log, base + 1, known, dispatched));
            match dispatched {
                DispatchResult::Complete(status) => {
                    lemma_told(abi, call.thread, status, log, known);
                },
                DispatchResult::ChildCreated => {
                    lemma_told(abi, call.thread, Status::Success, log, known);
                },
                DispatchResult::Blocked => {},
            }
        }
    }
}

/// A system call that makes a process is refused where the caller may make none.
pub proof fn law_processes_are_made_only_where_that_is_allowed(
    abi: Abi,
    number: SyscallNumber,
    call: SyscallContext,
    before: Seq<Event>,
    log: Seq<Event>,
    dispatched: DispatchResult,
)
    requires
        non_exit_dispatched(abi, number, call, before, log, dispatched),
        number == SyscallNumber::ProcessCreate || number == SyscallNumber::ProcessCreate2,
        !call.process_creation_allowed,
    ensures
        log.len() == before.len() + 1,
        log.last().ask == Ask::FailureCounts,
        dispatched == DispatchResult::Complete(Status::AccessDenied),
{
}

/// A system call on memory, or one that makes a process, that fails for want of memory or of quota
/// is counted as such, unless it was counted below.
pub proof fn law_failures_are_counted_once(
    abi: Abi,
    number: SyscallNumber,
    call: SyscallContext,
    before: Seq<Event>,
    log: Seq<Event>,
    dispatched: DispatchResult,
)
    requires
        non_exit_dispatched(abi, number, call, before, log, dispatched),
        number == SyscallNumber::AnonymousMap || number == SyscallNumber::SharedMemoryCreate || number
            == SyscallNumber::VirtualMapFile || number == SyscallNumber::AnonymousCommit || (number
            == SyscallNumber::ProcessCreate && call.process_creation_allowed),
        dispatched == DispatchResult::Complete(Status::ResourceLimit) || dispatched
            == DispatchResult::Complete(Status::OutOfMemory),
    ensures
        ({
            let first = log[before.len() as int].answer->FailureCounts_0;
            let raised = log.last().ask is FailureCounts;
            let then = if raised {
                log.last().answer->FailureCounts_0
            } else {
                log[log.len() - 2].answer->FailureCounts_0
            };
            let quota = dispatched == DispatchResult::Complete(Status::ResourceLimit);
            &&& log[before.len() as int].ask == Ask::FailureCounts
            &&& raised ==> if quota {
                then.quota_failures != first.quota_failures
            } else {
                then.oom_failures != first.oom_failures
            }
            &&& !raised ==> log[log.len() - 2].ask == Ask::FailureCounts && if quota {
                then.quota_failures == first.quota_failures && log.last().ask == Ask::Plain(
                    Call::RecordQuotaFailure,
                )
            } else {
                then.oom_failures == first.oom_failures && log.last().ask == Ask::Plain(
                    Call::RecordOomFailure,
                )
            }
        }),
{
    let base = before.len() as int;
    let (known, result) = choose|known: int, result: Result<DispatchResult, Status>| #[trigger]
        called_until(abi, number, call, log, base + 1, known, result) && call_ended(
            number,
            log[base].answer->FailureCounts_0,
            result,
            log,
            known,
            dispatched,
        );
    assert(called(abi, number, call, log.take(base + 1), log.take(known), result));
    let after = log[known].answer->FailureCounts_0;
    let quota = dispatched == DispatchResult::Complete(Status::ResourceLimit);
    let missing = if quota {
        after.quota_failures == log[base].answer->FailureCounts_0.quota_failures
    } else {
        after.oom_failures == log[base].answer->FailureCounts_0.oom_failures
    };
    if missing {
        let asks = if quota {
            seq![Ask::Plain(Call::RecordQuotaFailure)]
        } else {
            seq![Ask::Plain(Call::RecordOomFailure)]
        };
        lemma_asked(log, known + 1, asks);
        assert(log[known + 1].ask == asks[0]);
    }
}

/// A wait is one of the thread that calls, with the record and the place for its answer that the
/// caller's registers name.
pub proof fn law_waits_come_from_the_registers(
    abi: Abi,
    call: SyscallContext,
    before: Seq<Event>,
    log: Seq<Event>,
    dispatched: DispatchResult,
)
    requires
        non_exit_dispatched(abi, SyscallNumber::WaitMany, call, before, log, dispatched),
    ensures
        log.len() > before.len(),
        log[before.len() as int].ask == Ask::Plain(
            Call::CopyIn { address: call.registers.rdi, length: 24 },
        ),
        dispatched is Blocked ==> (log.last().ask matches Ask::BlockWait { thread, wait } && thread
            == call.thread && wait.output_address == call.registers.rsi),
{
    let result = choose|result: Result<DispatchResult, Status>| #[trigger]
        wait_submitted(
            abi,
            call.thread,
            call.registers.rdi,
            call.registers.rsi,
            call.now_ns,
            log,
            before.len() as int,
            result,
        ) && dispatched == settled(result);
    if dispatched is Blocked {
        law_waits_are_as_the_record_says(
            abi,
            call.thread,
            call.registers.rdi,
            call.registers.rsi,
            call.now_ns,
            log,
            before.len() as int,
            dispatched,
        );
    }
}

/// A thread that sleeps, joins, waits for a request or waits for many is looked after as what it
/// is; one that does none of these stays as it is.
#[verifier::rlimit(40)]
pub proof fn law_blocked_threads_are_looked_after_as_what_they_are(
    abi: Abi,
    thread: u64,
    now_ns: u64,
    log: Seq<Event>,
    base: int,
    poll: BlockedPoll,
)
    requires
        0 <= base,
        blocked_polled(abi, thread, now_ns, log, base, poll),
    ensures
        log[base].ask == Ask::BlockedKind(thread),
        log[base].answer->BlockedKind_0 is None ==> poll is Pending && log.len() == base + 1,
        log[base].answer->BlockedKind_0 == Some(BlockedKind::Sleep) ==> log[base + 1].ask
            == Ask::Plain(Call::PollSleep { thread, now_ns }) && (poll is Complete <==> log[base
            + 1].answer->Flag_0 == Ok::<bool, Status>(true)),
        log[base].answer->BlockedKind_0 == Some(BlockedKind::Join) ==> log[base + 1].ask
            == Ask::Plain(Call::PollJoin { thread, now_ns }) && (poll is Complete <==> log[base
            + 1].answer->Flag_0 == Ok::<bool, Status>(true)),
        log[base].answer->BlockedKind_0 == Some(BlockedKind::Request) && poll is Complete ==> {
            let request = log[base + 1].answer->Number_0->Ok_0;
            let known = log[base + 2].answer->RequestInfo_0;
            &&& log[base + 1].ask == Ask::Plain(Call::BlockedRequest { thread })
            &&& log[base + 2].ask == Ask::RequestInfo(request)
            &&& log[base + 3].ask matches Ask::Plain(
                Call::StageRequest { thread: waiting, request: ended, output },
            )
            &&& waiting == thread && ended == request
            &&& output.request == abi.invalid_handle
            &&& known matches Some(info) ==> output.state == info.state && output.result
                == info.result && output.result_flags == info.result_flags
                && output.bytes_transferred == info.bytes_transferred && (info.state
                == abi.request_states.completed || info.state == abi.request_states.timed_out
                || info.state == abi.request_states.canceled || info.state
                == abi.request_states.failed || info.state
                == abi.request_states.owner_terminated)
            &&& known is None ==> output.state == abi.request_states.failed && output.result
                == abi.status.invalid_handle && output.bytes_transferred == 0
        },
        log[base].answer->BlockedKind_0 == Some(BlockedKind::WaitMany) ==> {
            let wait = log[base + 1].answer->Wait_0;
            let end = log.len() - 1;
            &&& log[base + 1].ask == Ask::TakeWait(thread)
            &&& log[end].ask matches Ask::BlockWait { thread: waiting, wait: kept }
            &&& waiting == thread
            &&& kept.items_address == wait.items_address
            &&& kept.output_address == wait.output_address
            &&& kept.deadline == wait.deadline
            &&& poll is Complete <==> kept.completion is Some
            &&& wait.completion is Some ==> kept == wait
            &&& wait.completion is None ==> {
                &&& log[base + 2].ask == Ask::Poll(wait.items)
                &&& log[base + 2].answer->Poll_0 matches Err(status) ==> kept.completion == Some(
                    WaitManyCompletion::Failed(status),
                )
                &&& log[base + 2].answer->Poll_0 matches Ok((ready, found)) ==> kept.items == found
                    && kept.completion == match ready {
                    Some(index) => Some(WaitManyCompletion::Ready(index)),
                    None => if wait.deadline is At && now_ns >= wait.deadline->At_0 {
                        Some(WaitManyCompletion::Failed(Status::TimedOut))
                    } else {
                        None
                    },
                }
            }
        },
{
    match log[base].answer->BlockedKind_0 {
        Some(BlockedKind::Sleep) => {
            let asks = seq![Ask::Plain(Call::PollSleep { thread, now_ns })];
            lemma_asked(log, base + 1, asks);
            assert(log[base + 1].ask == asks[0]);
        },
        Some(BlockedKind::Join) => {
            let asks = seq![Ask::Plain(Call::PollJoin { thread, now_ns })];
            lemma_asked(log, base + 1, asks);
            assert(log[base + 1].ask == asks[0]);
        },
        Some(BlockedKind::Request) => {
            if poll is Complete {
                let request = log[base + 1].answer->Number_0->Ok_0;
                let output = match log[base + 2].answer->RequestInfo_0 {
                    Some(info) => info_output(abi.invalid_handle, info),
                    None => lost_output(abi),
                };
                let asks = seq![Ask::Plain(Call::StageRequest { thread, request, output })];
                lemma_asked(log, base + 3, asks);
                assert(log[base + 3].ask == asks[0]);
            }
        },
        Some(BlockedKind::WaitMany) => {
            let wait = log[base + 1].answer->Wait_0;
            if wait.completion is Some {
                let asks = seq![Ask::BlockWait { thread, wait }];
                lemma_asked(log, base + 2, asks);
                assert(log[base + 2].ask == asks[0]);
            } else {
                let after = wait_after(wait, log, base + 2, now_ns);
                let asks = seq![Ask::Poll(wait.items), Ask::BlockWait { thread, wait: after }];
                lemma_asked(log, base + 2, asks);
                assert(log[base + 2].ask == asks[0]);
                assert(log[base + 3].ask == asks[1]);
            }
        },
        None => {},
    }
}

/// A request that has ended is told of where its submitter wanted it, by its record and by its
/// count, and its hidden handle is closed. The first thing that went wrong is what the thread finds.
#[verifier::rlimit(60)]
pub proof fn law_ended_requests_are_told_where_they_were_wanted(
    abi: Abi,
    thread: u64,
    ended: EndedRequest,
    log: Seq<Event>,
    at: int,
    status: Status,
)
    requires
        0 <= at,
        request_completed(abi, thread, ended, log, at, status),
    ensures
        ended.output is Some && log[at].answer->Flag_0 == Ok::<bool, Status>(true) ==> (
        log[at + 1].ask matches Ask::With(Call::CopyOut { address }, told) && address
            == ended.output->Some_0.address && tells_of_request(told, ended.completion)),
        ended.output is None && ended.count_output is Some && log[at].answer->Flag_0 == Ok::<
            bool,
            Status,
        >(true) ==> told_number(
            log[at + 1],
            ended.count_output->Some_0.address,
            ended.completion.bytes_transferred,
        ),
        ended.output is None && ended.count_output is None ==> log.len() == at + 3 && status == (
        if ended.return_operation_status && ended.operation_status != Some(Status::Success) {
            if ended.operation_status is Some {
                ended.operation_status->Some_0
            } else {
                Status::InvalidMessage
            }
        } else if log[at + 1].refused() is Some {
            log[at + 1].refused()->Some_0
        } else {
            Status::Success
        }),
        log.len() >= at + 3,
        log[log.len() - 3].ask == Ask::Plain(Call::CloseHandle { handle: ended.hidden_handle }),
        log[log.len() - 2].ask == Ask::Plain(Call::FinishRequest { thread }),
        log.last().ask == Ask::Plain(Call::SetReturn { thread, rax: register_of(abi, status) }),
{
    lemma_one_output(ended.completion);
    let middle = output_end(ended.output, log, at);
    let end = output_end(ended.count_output, log, middle);
    let asks = seq![
        Ask::Plain(Call::CloseHandle { handle: ended.hidden_handle }),
        Ask::Plain(Call::FinishRequest { thread }),
        Ask::Plain(Call::SetReturn { thread, rax: register_of(abi, status) }),
    ];
    lemma_asked(log, end, asks);
    assert(log[end].ask == asks[0]);
    assert(log[end + 1].ask == asks[1]);
    assert(log[end + 2].ask == asks[2]);
    if ended.output is None && ended.count_output is Some && log[at].answer->Flag_0 == Ok::<
        bool,
        Status,
    >(true) {
        lemma_told_number(
            log[at + 1],
            ended.count_output->Some_0.address,
            ended.completion.bytes_transferred,
        );
    }
}

/// A join that has ended well tells of the thread that was joined where the caller wanted it, and
/// that thread is reaped; one that ended otherwise tells only how.
#[verifier::rlimit(40)]
pub proof fn law_ended_joins_tell_of_the_joined_thread(
    abi: Abi,
    thread: u64,
    join: EndedJoin,
    log: Seq<Event>,
    at: int,
    status: Status,
)
    requires
        0 <= at,
        join_completed(abi, thread, join, log, at, status),
    ensures
        log.len() >= at + 2,
        log[log.len() - 2].ask == Ask::Plain(Call::FinishJoin { thread, target: join.target }),
        log.last().ask == Ask::Plain(Call::SetReturn { thread, rax: register_of(abi, status) }),
        join.completion is None ==> status == Status::ShouldWait && log.len() == at + 2,
        join.completion is Some && join.completion != Some(Status::Success) ==> status == join.completion->Some_0
            && log.len() == at + 2,
        join.completion == Some(Status::Success) && log.len() == at + 5 && log[at + 2].refused() is None
            ==> {
            &&& log[at].ask == Ask::Thread(join.target)
            &&& log[at + 1].ask matches Ask::With(Call::CopyOut { address }, told)
            &&& address == join.output_address
            &&& tells_of_thread(abi, told, join.target, log[at].answer->Thread_0->Ok_0)
            &&& log[at + 2].ask == Ask::Plain(Call::ReapThread { thread: join.target })
            &&& status == Status::Success
        },
{
    let plan = join_plan(abi, join, log, at);
    let close = seq![
        Ask::Plain(Call::FinishJoin { thread, target: join.target }),
        Ask::Plain(Call::SetReturn { thread, rax: register_of(abi, status) }),
    ];
    let end = log.len() - 2;
    assert(join_closed(abi, thread, join, log, end, status));
    lemma_asked(log, end, close);
    assert(log[end].ask == close[0]);
    assert(log[end + 1].ask == close[1]);
    if join.completion == Some(Status::Success) {
        law_threads_are_described_field_by_field(
            abi,
            join.target,
            log[at].answer->Thread_0->Ok_0,
        );
        if passed(log, at, plan) && join_closed(abi, thread, join, log, at + 3, status) && status
            == Status::Success {
            lemma_passed(log, at, plan);
            assert(log[at].ask == plan[0]);
            assert(log[at + 1].ask == plan[1]);
            assert(log[at + 2].ask == plan[2]);
        } else {
            let early = log.take(end);
            lemma_failed(early, at, plan, Err::<(), Status>(status));
            assert(early.last() == log[end - 1]);
        }
    }
}

/// A wait that has ended tells of its items where they were read and of the one that was ready
/// where the caller wanted it, and its thread goes on.
#[verifier::rlimit(40)]
pub proof fn law_ended_waits_tell_what_was_found(
    abi: Abi,
    thread: u64,
    wait: WaitModel,
    log: Seq<Event>,
    at: int,
    status: Status,
)
    requires
        0 <= at,
        wait_completed(abi, thread, wait, log, at, status),
    ensures
        log.len() >= at + 3,
        log[log.len() - 2].ask == Ask::Plain(
            Call::SetReturn { thread, rax: register_of(abi, status) },
        ),
        log.last().ask == Ask::Plain(Call::ResumeThread { thread }),
        log[at].answer->Flag_0 != Ok::<bool, Status>(true) ==> status == Status::InvalidAddress,
        log[at].answer->Flag_0 == Ok::<bool, Status>(true) && wait.completion is None ==> status
            == Status::ShouldWait,
        log[at].answer->Flag_0 == Ok::<bool, Status>(true) && (wait.completion is Some && (
        wait.completion->Some_0 is Ready || wait.completion->Some_0 == WaitManyCompletion::Failed(
            Status::TimedOut,
        ))) ==> (log[at + 1].ask matches Ask::With(Call::CopyOut { address }, told) && address
            == wait.items_address && items_read(told, wait.items)),
        log[at].answer->Flag_0 == Ok::<bool, Status>(true) && log.len() == at + 5 && (
        wait.completion is Some && wait.completion->Some_0 is Ready) ==> told_number(
            log[at + 2],
            wait.output_address,
            wait.completion->Some_0->Ready_0 as u64,
        ),
{
    let end = log.len() - 2;
    let close = seq![
        Ask::Plain(Call::SetReturn { thread, rax: register_of(abi, status) }),
        Ask::Plain(Call::ResumeThread { thread }),
    ];
    assert(wait_closed(abi, thread, log, end, status));
    lemma_asked(log, end, close);
    assert(log[end].ask == close[0]);
    assert(log[end + 1].ask == close[1]);
    if log[at].answer->Flag_0 == Ok::<bool, Status>(true) && wait.completion is Some {
        let completion = wait.completion->Some_0;
        let writes = wait_writes(wait, completion);
        lemma_items_told(wait.items);
        if passed(log, at + 1, writes) && wait_closed(
            abi,
            thread,
            log,
            at + 1 + writes.len(),
            status,
        ) {
            lemma_passed(log, at + 1, writes);
            if writes.len() > 0 {
                assert(log[at + 1].ask == writes[0]);
            }
            if completion is Ready {
                assert(log[at + 2].ask == writes[1]);
                lemma_told_number(log[at + 2], wait.output_address, completion->Ready_0 as u64);
            }
        } else {
            let early = log.take(end);
            lemma_failed(early, at + 1, writes, Err::<(), Status>(status));
            assert(early[at + 1] == log[at + 1]);
            assert(early[at + 1].ask == writes[0]);
            if completion is Ready && log.len() == at + 5 {
                assert(early[at + 2] == log[at + 2]);
                assert(early[at + 2].ask == writes[1]);
                lemma_told_number(log[at + 2], wait.output_address, completion->Ready_0 as u64);
            }
        }
    }
}

/// A blocked thread is woken by what it was blocked on: a sleep, a request, a join, or else a
/// wait; what ended is asked for by the thread, and where that is refused the refusal is the
/// status.
pub proof fn law_blocked_threads_end_what_they_were_blocked_on(
    abi: Abi,
    thread: u64,
    log: Seq<Event>,
    base: int,
    status: Status,
)
    requires
        0 <= base,
        blocked_completed(abi, thread, log, base, status),
    ensures
        ({
            let kind = log[base].answer->BlockedKind_0;
            let asked = log[base + 1].ask;
            &&& log[base].ask == Ask::BlockedKind(thread)
            &&& kind == Some(BlockedKind::Sleep) ==> asked == Ask::Plain(
                Call::CompleteSleep { thread },
            ) && log.len() == base + 2
            &&& kind == Some(BlockedKind::Request) ==> asked == Ask::EndedRequest(thread)
            &&& kind == Some(BlockedKind::Request) && log[base + 1].answer->EndedRequest_0 is Err
                ==> log.len() == base + 2 && status == log[base + 1].answer->EndedRequest_0->Err_0
            &&& kind == Some(BlockedKind::Join) ==> asked == Ask::EndedJoin(thread)
            &&& kind == Some(BlockedKind::Join) && log[base + 1].answer->EndedJoin_0 is Err
                ==> log.len() == base + 2 && status == log[base + 1].answer->EndedJoin_0->Err_0
            &&& kind is None ==> asked == Ask::TakeWait(thread)
        }),
{
    if log[base].answer->BlockedKind_0 == Some(BlockedKind::Sleep) {
        lemma_asked(log, base + 1, seq![Ask::Plain(Call::CompleteSleep { thread })]);
    }
}

} // verus!
