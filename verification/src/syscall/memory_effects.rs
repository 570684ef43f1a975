//! What system calls on memory, small devices, single handles and single threads have the rest
//! of the kernel do, by the registers and the records that the caller hands over.
use vstd::prelude::*;

use crate::bytes::{le32_at, le64_at, le_bytes, lemma_field64};

use super::abi::{Abi, Handle, Status};
use super::application::{did_process_terminate, did_system_power_cancel};
use super::dispatch::{called, over, SyscallContext};
use super::effects::{
    lemma_asked, lemma_failed, lemma_handle_record, lemma_passed, lemma_ran, was_read,
};
use super::handles::{close_asks, did_handle_close};
use super::kernel::{failed_in, ran, Ask, Call, DispatchResult, Event};
use super::mapping::{
    did_anonymous_commit, did_anonymous_decommit, did_anonymous_map, did_anonymous_protect,
    did_anonymous_reserve, did_anonymous_unmap, did_audio_write, did_clock_get_monotonic,
    did_debug_write, did_random_fill, did_shared_memory_create, did_shared_memory_get_size,
    did_shared_memory_map, did_shared_memory_unmap, did_virtual_commit, did_virtual_decommit,
    did_virtual_map_file, did_virtual_protect, did_virtual_query, did_virtual_unmap, placed,
};
use super::number::SyscallNumber;
use super::threads::{did_thread_get_current, did_thread_terminate, did_thread_wake};

verus! {

/// This was asked, once and alone, and the caller hears what was answered.
pub open spec fn asked_once(
    before: Seq<Event>,
    log: Seq<Event>,
    ask: Ask,
    dispatched: Result<DispatchResult, Status>,
) -> bool {
    &&& log.len() == before.len() + 1
    &&& log.last().ask == ask
    &&& dispatched is Ok <==> log.last().refused() is None
    &&& dispatched is Err ==> dispatched->Err_0 == log.last().refused()->Some_0
}

/// System calls on a range of memory act on the range that the caller names, each in its own
/// way, and with the protection that the caller asks for.
pub proof fn law_ranges_are_those_of_the_caller(
    abi: Abi,
    number: SyscallNumber,
    call: SyscallContext,
    before: Seq<Event>,
    log: Seq<Event>,
    dispatched: Result<DispatchResult, Status>,
)
    requires
        called(abi, number, call, before, log, dispatched),
    ensures
        number == SyscallNumber::AnonymousUnmap ==> asked_once(
            before,
            log,
            Ask::Plain(
                Call::UnmapAnonymous { address: call.registers.rdi, length: call.registers.rsi },
            ),
            dispatched,
        ),
        number == SyscallNumber::AnonymousCommit ==> asked_once(
            before,
            log,
            Ask::Plain(
                Call::CommitAnonymous { address: call.registers.rdi, length: call.registers.rsi },
            ),
            dispatched,
        ),
        number == SyscallNumber::AnonymousDecommit ==> asked_once(
            before,
            log,
            Ask::Plain(
                Call::DecommitAnonymous { address: call.registers.rdi, length: call.registers.rsi },
            ),
            dispatched,
        ),
        number == SyscallNumber::VirtualCommit ==> asked_once(
            before,
            log,
            Ask::Plain(
                Call::CommitFile { address: call.registers.rdi, length: call.registers.rsi },
            ),
            dispatched,
        ),
        number == SyscallNumber::VirtualDecommit ==> asked_once(
            before,
            log,
            Ask::Plain(
                Call::DecommitFile { address: call.registers.rdi, length: call.registers.rsi },
            ),
            dispatched,
        ),
        number == SyscallNumber::VirtualUnmap ==> asked_once(
            before,
            log,
            Ask::Plain(
                Call::UnmapFile { address: call.registers.rdi, length: call.registers.rsi },
            ),
            dispatched,
        ),
        number == SyscallNumber::SharedMemoryUnmap ==> asked_once(
            before,
            log,
            Ask::Plain(
                Call::UnmapShared { address: call.registers.rdi, length: call.registers.rsi },
            ),
            dispatched,
        ),
        number == SyscallNumber::AnonymousProtect && log.len() > before.len() ==> call.registers.rdx
            <= u32::MAX && asked_once(
            before,
            log,
            Ask::Plain(
                Call::ProtectAnonymous {
                    address: call.registers.rdi,
                    length: call.registers.rsi,
                    protection: call.registers.rdx as u32,
                },
            ),
            dispatched,
        ),
        number == SyscallNumber::AnonymousProtect && dispatched is Ok ==> log.len() > before.len(),
        number == SyscallNumber::VirtualProtect && log.len() > before.len() ==> call.registers.rdx
            <= u32::MAX && asked_once(
            before,
            log,
            Ask::Plain(
                Call::ProtectFile {
                    address: call.registers.rdi,
                    length: call.registers.rsi,
                    protection: call.registers.rdx as u32,
                },
            ),
            dispatched,
        ),
        number == SyscallNumber::VirtualProtect && dispatched is Ok ==> log.len() > before.len(),
{
    let from = before.len() as int;
    if number == SyscallNumber::AnonymousUnmap {
        let result = choose|result: Result<(), Status>| #[trigger]
            did_anonymous_unmap(abi, call.registers.rdi, call.registers.rsi, before, log, result) && dispatched
                == over(result);
        assert(did_anonymous_unmap(abi, call.registers.rdi, call.registers.rsi, before, log, result));
        let plan = seq![
            Ask::Plain(
                Call::UnmapAnonymous { address: call.registers.rdi, length: call.registers.rsi },
            ),
        ];
        lemma_ran(log, from, plan, result);
        assert(log[from].ask == plan[0]);
    }
    if number == SyscallNumber::AnonymousCommit {
        let result = choose|result: Result<(), Status>| #[trigger]
            did_anonymous_commit(abi, call.registers.rdi, call.registers.rsi, before, log, result) && dispatched
                == over(result);
        assert(did_anonymous_commit(abi, call.registers.rdi, call.registers.rsi, before, log, result));
        let plan = seq![
            Ask::Plain(
                Call::CommitAnonymous { address: call.registers.rdi, length: call.registers.rsi },
            ),
        ];
        lemma_ran(log, from, plan, result);
        assert(log[from].ask == plan[0]);
    }
    if number == SyscallNumber::AnonymousDecommit {
        let result = choose|result: Result<(), Status>| #[trigger]
            did_anonymous_decommit(abi, call.registers.rdi, call.registers.rsi, before, log, result) && dispatched
                == over(result);
        assert(did_anonymous_decommit(abi, call.registers.rdi, call.registers.rsi, before, log, result));
        let plan = seq![
            Ask::Plain(
                Call::DecommitAnonymous { address: call.registers.rdi, length: call.registers.rsi },
            ),
        ];
        lemma_ran(log, from, plan, result);
        assert(log[from].ask == plan[0]);
    }
    if number == SyscallNumber::VirtualCommit {
        let result = choose|result: Result<(), Status>| #[trigger]
            did_virtual_commit(abi, call.registers.rdi, call.registers.rsi, before, log, result) && dispatched
                == over(result);
        assert(did_virtual_commit(abi, call.registers.rdi, call.registers.rsi, before, log, result));
        let plan = seq![
            Ask::Plain(
                Call::CommitFile { address: call.registers.rdi, length: call.registers.rsi },
            ),
        ];
        lemma_ran(log, from, plan, result);
        assert(log[from].ask == plan[0]);
    }
    if number == SyscallNumber::VirtualDecommit {
        let result = choose|result: Result<(), Status>| #[trigger]
            did_virtual_decommit(abi, call.registers.rdi, call.registers.rsi, before, log, result) && dispatched
                == over(result);
        assert(did_virtual_decommit(abi, call.registers.rdi, call.registers.rsi, before, log, result));
        let plan = seq![
            Ask::Plain(
                Call::DecommitFile { address: call.registers.rdi, length: call.registers.rsi },
            ),
        ];
        lemma_ran(log, from, plan, result);
        assert(log[from].ask == plan[0]);
    }
    if number == SyscallNumber::VirtualUnmap {
        let result = choose|result: Result<(), Status>| #[trigger]
            did_virtual_unmap(abi, call.registers.rdi, call.registers.rsi, before, log, result) && dispatched
                == over(result);
        assert(did_virtual_unmap(abi, call.registers.rdi, call.registers.rsi, before, log, result));
        let plan = seq![
            Ask::Plain(
                Call::UnmapFile { address: call.registers.rdi, length: call.registers.rsi },
            ),
        ];
        lemma_ran(log, from, plan, result);
        assert(log[from].ask == plan[0]);
    }
    if number == SyscallNumber::SharedMemoryUnmap {
        let result = choose|result: Result<(), Status>| #[trigger]
            did_shared_memory_unmap(abi, call.registers.rdi, call.registers.rsi, before, log, result) && dispatched
                == over(result);
        assert(did_shared_memory_unmap(abi, call.registers.rdi, call.registers.rsi, before, log, result));
        let plan = seq![
            Ask::Plain(
                Call::UnmapShared { address: call.registers.rdi, length: call.registers.rsi },
            ),
        ];
        lemma_ran(log, from, plan, result);
        assert(log[from].ask == plan[0]);
    }
    if number == SyscallNumber::AnonymousProtect {
        let result = choose|result: Result<(), Status>| #[trigger]
            did_anonymous_protect(
                abi,
                call.registers.rdi,
                call.registers.rsi,
                call.registers.rdx,
                before,
                log,
                result,
            ) && dispatched == over(result);
        assert(did_anonymous_protect(
            abi,
            call.registers.rdi,
            call.registers.rsi,
            call.registers.rdx,
            before,
            log,
            result,
        ));
        if super::wire::flags_in(call.registers.rdx, abi.protection.all) is Ok {
            let plan = seq![
                Ask::Plain(
                    Call::ProtectAnonymous {
                        address: call.registers.rdi,
                        length: call.registers.rsi,
                        protection: call.registers.rdx as u32,
                    },
                ),
            ];
            lemma_ran(log, from, plan, result);
            assert(log[from].ask == plan[0]);
        }
    }
    if number == SyscallNumber::VirtualProtect {
        let result = choose|result: Result<(), Status>| #[trigger]
            did_virtual_protect(
                abi,
                call.registers.rdi,
                call.registers.rsi,
                call.registers.rdx,
                before,
                log,
                result,
            ) && dispatched == over(result);
        assert(did_virtual_protect(
            abi,
            call.registers.rdi,
            call.registers.rsi,
            call.registers.rdx,
            before,
            log,
            result,
        ));
        if super::wire::flags_in(call.registers.rdx, abi.protection.all) is Ok {
            let plan = seq![
                Ask::Plain(
                    Call::ProtectFile {
                        address: call.registers.rdi,
                        length: call.registers.rsi,
                        protection: call.registers.rdx as u32,
                    },
                ),
            ];
            lemma_ran(log, from, plan, result);
            assert(log[from].ask == plan[0]);
        }
    }
}

/// System calls on one handle or one thread act on the one that the caller names.
pub proof fn law_targets_are_those_of_the_caller(
    abi: Abi,
    number: SyscallNumber,
    call: SyscallContext,
    before: Seq<Event>,
    log: Seq<Event>,
    dispatched: Result<DispatchResult, Status>,
)
    requires
        called(abi, number, call, before, log, dispatched),
    ensures
        number == SyscallNumber::HandleClose && call.registers.rdi <= u32::MAX ==> asked_once(
            before,
            log,
            Ask::Plain(Call::CloseHandle { handle: Handle(call.registers.rdi as u32) }),
            dispatched,
        ),
        number == SyscallNumber::HandleClose && call.registers.rdi > u32::MAX ==> log == before
            && dispatched == Err::<DispatchResult, Status>(Status::InvalidHandle),
        number == SyscallNumber::ProcessTerminate && call.registers.rdi <= u32::MAX ==> asked_once(
            before,
            log,
            Ask::Plain(Call::ProcessTerminate { handle: Handle(call.registers.rdi as u32) }),
            dispatched,
        ),
        number == SyscallNumber::ProcessTerminate && call.registers.rdi > u32::MAX ==> log == before
            && dispatched == Err::<DispatchResult, Status>(Status::InvalidHandle),
        number == SyscallNumber::SystemPowerCancel && call.registers.rdi <= u32::MAX ==> asked_once(
            before,
            log,
            Ask::Plain(Call::PowerCancel { handle: Handle(call.registers.rdi as u32) }),
            dispatched,
        ),
        number == SyscallNumber::SystemPowerCancel && call.registers.rdi > u32::MAX ==> log == before
            && dispatched == Err::<DispatchResult, Status>(Status::InvalidHandle),
        number == SyscallNumber::ThreadWake ==> asked_once(
            before,
            log,
            Ask::Plain(Call::WakeThread { thread: call.registers.rdi }),
            dispatched,
        ),
        number == SyscallNumber::ThreadTerminate ==> asked_once(
            before,
            log,
            Ask::Plain(Call::TerminateThread { thread: call.registers.rdi }),
            dispatched,
        ),
{
    let from = before.len() as int;
    if number == SyscallNumber::HandleClose {
        let result = choose|result: Result<(), Status>| #[trigger]
            did_handle_close(abi, call.registers.rdi, before, log, result) && dispatched == over(result);
        assert(did_handle_close(abi, call.registers.rdi, before, log, result));
        if call.registers.rdi <= u32::MAX {
            let plan = seq![Ask::Plain(Call::CloseHandle { handle: Handle(call.registers.rdi as u32) })];
            lemma_ran(log, from, plan, result);
            assert(log[from].ask == plan[0]);
        }
    }
    if number == SyscallNumber::ProcessTerminate {
        let result = choose|result: Result<(), Status>| #[trigger]
            did_process_terminate(abi, call.registers.rdi, before, log, result) && dispatched == over(result);
        assert(did_process_terminate(abi, call.registers.rdi, before, log, result));
        if call.registers.rdi <= u32::MAX {
            let plan = seq![Ask::Plain(Call::ProcessTerminate { handle: Handle(call.registers.rdi as u32) })];
            lemma_ran(log, from, plan, result);
            assert(log[from].ask == plan[0]);
        }
    }
    if number == SyscallNumber::SystemPowerCancel {
        let result = choose|result: Result<(), Status>| #[trigger]
            did_system_power_cancel(abi, call.registers.rdi, before, log, result) && dispatched == over(result);
        assert(did_system_power_cancel(abi, call.registers.rdi, before, log, result));
        if call.registers.rdi <= u32::MAX {
            let plan = seq![Ask::Plain(Call::PowerCancel { handle: Handle(call.registers.rdi as u32) })];
            lemma_ran(log, from, plan, result);
            assert(log[from].ask == plan[0]);
        }
    }
    if number == SyscallNumber::ThreadWake {
        let result = choose|result: Result<(), Status>| #[trigger]
            did_thread_wake(abi, call.registers.rdi, before, log, result) && dispatched == over(result);
        assert(did_thread_wake(abi, call.registers.rdi, before, log, result));
        if true {
            let plan = seq![Ask::Plain(Call::WakeThread { thread: call.registers.rdi })];
            lemma_ran(log, from, plan, result);
            assert(log[from].ask == plan[0]);
        }
    }
    if number == SyscallNumber::ThreadTerminate {
        let result = choose|result: Result<(), Status>| #[trigger]
            did_thread_terminate(abi, call.registers.rdi, before, log, result) && dispatched == over(result);
        assert(did_thread_terminate(abi, call.registers.rdi, before, log, result));
        if true {
            let plan = seq![Ask::Plain(Call::TerminateThread { thread: call.registers.rdi })];
            lemma_ran(log, from, plan, result);
            assert(log[from].ask == plan[0]);
        }
    }
}

/// The caller was told this number at this address.
pub open spec fn told_number(event: Event, address: u64, number: u64) -> bool {
    &&& event.ask matches Ask::With(Call::CopyOut { address: place }, bytes)
    &&& place == address
    &&& bytes.len() == 8
    &&& le64_at(bytes, 0) == number
}

/// The caller was told this handle at this address.
pub open spec fn told_handle(event: Event, address: u64, handle: Handle) -> bool {
    &&& event.ask matches Ask::With(Call::CopyOut { address: place }, bytes)
    &&& place == address
    &&& bytes.len() == 8
    &&& le32_at(bytes, 0) == handle.0
}

/// A number that was told reads as itself.
pub(crate) proof fn lemma_told_number(event: Event, address: u64, number: u64)
    requires
        event.ask == Ask::With(Call::CopyOut { address }, le_bytes(number as int, 8)),
    ensures
        told_number(event, address, number),
{
    let bytes = le_bytes(number as int, 8);
    assert(bytes.subrange(0, 8) =~= bytes);
    lemma_field64(bytes, 0, number as int);
}

/// What is placed is told or undone.
pub(crate) proof fn lemma_placed(
    address: u64,
    mapped: u64,
    undo: Call,
    log: Seq<Event>,
    at: int,
    result: Result<(), Status>,
)
    requires
        0 <= at,
        placed(address, mapped, undo, log, at, result),
    ensures
        at < log.len() <= at + 2,
        log[at].ask is With,
        told_number(log[at], address, mapped),
        result is Ok ==> log.len() == at + 1 && log[at].refused() is None,
        result is Err ==> log.len() == at + 2 && log[at].refused() is Some && log[at + 1].ask
            == Ask::Plain(undo),
{
    lemma_told_number(log[at], address, mapped);
    if log[at].refused() is Some {
        let asks = seq![Ask::Plain(undo)];
        lemma_asked(log, at + 1, asks);
        assert(log[at + 1].ask == asks[0]);
    }
}

/// New anonymous memory has the length and the protection that the caller asks for. Its address is
/// told where the caller says; where that cannot be done, the same memory is given back.
pub proof fn law_new_memory_is_told_or_given_back(
    abi: Abi,
    call: SyscallContext,
    before: Seq<Event>,
    log: Seq<Event>,
    dispatched: Result<DispatchResult, Status>,
)
    requires
        called(abi, SyscallNumber::AnonymousMap, call, before, log, dispatched),
    ensures
        ({
            let from = before.len() as int;
            let made = Ask::Plain(
                Call::MapAnonymous { length: call.registers.rdi, protection: call.registers.rsi as u32 },
            );
            &&& log.len() >= from + 2 ==> log[from + 1].ask == made && call.registers.rsi <= u32::MAX
            &&& log.len() >= from + 3 ==> told_number(log[from + 2], call.registers.rdx, log[from + 1].number())
            &&& dispatched is Ok ==> log.len() == from + 3 && log[from + 1].refused() is None && log[from
                + 2].refused() is None
            &&& log.len() >= from + 4 ==> log.len() == from + 4 && log[from + 3].ask == Ask::Plain(
                Call::UnmapAnonymous { address: log[from + 1].number(), length: call.registers.rdi },
            )
            &&& log.len() >= from + 3 && log[from + 2].refused() is Some ==> log.len() == from + 4
        }),
{
    let from = before.len() as int;
    let result = choose|result: Result<(), Status>| #[trigger]
        did_anonymous_map(abi, call.registers.rdi, call.registers.rsi, call.registers.rdx, before, log, result) && dispatched == over(result);
    assert(did_anonymous_map(abi, call.registers.rdi, call.registers.rsi, call.registers.rdx, before, log, result));
    if super::wire::flags_in(call.registers.rsi, abi.protection.all) is Ok {
        let first = seq![
            Ask::Plain(Call::CheckOutput { address: call.registers.rdx, length: 8 }),
            Ask::Plain(
                Call::MapAnonymous {
                    length: call.registers.rdi,
                    protection: call.registers.rsi as u32,
                },
            ),
        ];
        if failed_in(log, from, first, result) {
            lemma_failed(log, from, first, result);
        } else {
            lemma_passed(log, from, first);
            let mapped = log[from + 1].number();
            lemma_placed(
                call.registers.rdx,
                mapped,
                Call::UnmapAnonymous { address: mapped, length: call.registers.rdi },
                log,
                from + 2,
                result,
            );
        }
    }
}

/// A reservation has the length and the protection that the caller asks for. Its address is told
/// where the caller says; where that cannot be done, it is rolled back.
pub proof fn law_reservations_are_told_or_rolled_back(
    abi: Abi,
    call: SyscallContext,
    before: Seq<Event>,
    log: Seq<Event>,
    dispatched: Result<DispatchResult, Status>,
)
    requires
        called(abi, SyscallNumber::AnonymousReserve, call, before, log, dispatched),
    ensures
        ({
            let from = before.len() as int;
            let made = Ask::Plain(
                Call::ReserveAnonymous { length: call.registers.rdi, protection: call.registers.rsi as u32 },
            );
            &&& log.len() >= from + 2 ==> log[from + 1].ask == made && call.registers.rsi <= u32::MAX
            &&& log.len() >= from + 3 ==> told_number(log[from + 2], call.registers.rdx, log[from + 1].number())
            &&& dispatched is Ok ==> log.len() == from + 3 && log[from + 1].refused() is None && log[from
                + 2].refused() is None
            &&& log.len() >= from + 3 && log[from + 2].refused() is Some ==> log.len() == from + 4 && log[from
                + 3].ask == Ask::Plain(Call::RollbackReservation { address: log[from + 1].number() })
        }),
{
    let from = before.len() as int;
    let result = choose|result: Result<(), Status>| #[trigger]
        did_anonymous_reserve(abi, call.registers.rdi, call.registers.rsi, call.registers.rdx, before, log, result) && dispatched == over(result);
    assert(did_anonymous_reserve(abi, call.registers.rdi, call.registers.rsi, call.registers.rdx, before, log, result));
    if super::wire::flags_in(call.registers.rsi, abi.protection.all) is Ok {
        let address = log[from + 1].number();
        let plan = seq![
            Ask::Plain(Call::CheckOutput { address: call.registers.rdx, length: 8 }),
            Ask::Plain(
                Call::ReserveAnonymous {
                    length: call.registers.rdi,
                    protection: call.registers.rsi as u32,
                },
            ),
            Ask::With(
                Call::CopyOut { address: call.registers.rdx },
                le_bytes(address as int, 8),
            ),
        ];
        let undo = seq![Ask::Plain(Call::RollbackReservation { address })];
        lemma_ran_back(log, from, plan, 2, undo, result);
        if log.len() >= from + 3 {
            assert(log[from + 2].ask == plan[2]);
            lemma_told_number(log[from + 2], call.registers.rdx, address);
        }
    }
}

/// What a plan asks for that is undone from a step on.
pub(crate) proof fn lemma_ran_back(
    log: Seq<Event>,
    base: int,
    plan: Seq<Ask>,
    from: int,
    undo: Seq<Ask>,
    result: Result<(), Status>,
)
    requires
        ran(log, base, plan, from, undo, result),
        from == plan.len() - 1,
    ensures
        base <= log.len(),
        forall|i: int|
            base <= i < log.len() && i - base < plan.len() ==> (#[trigger] log[i]).ask == plan[i
                - base],
        result is Ok ==> log.len() == base + plan.len() && forall|i: int|
            base <= i < log.len() ==> (#[trigger] log[i]).refused() is None,
        result is Err ==> log.len() > base,
        result is Err && log.len() <= base + from ==> log.last().refused() is Some,
        result is Err && log.len() > base + from ==> log.len() == base + plan.len() + undo.len()
            && log[base + from].refused() is Some && forall|i: int|
            base + plan.len() <= i < log.len() ==> (#[trigger] log[i]).ask == undo[i - base
                - plan.len()],
        forall|i: int|
            base <= i < log.len() - 1 && i - base < plan.len() - 1 ==> (#[trigger] log[i]).refused() is None,
{
    let made = log.len() - base;
    let last = if result is Ok {
        plan.len() - 1
    } else if made <= from {
        made - 1
    } else {
        made - 1 - undo.len()
    };
    assert forall|i: int|
        base <= i < log.len() && i - base < plan.len() implies (#[trigger] log[i]).ask == plan[i
        - base] by {
        assert(log[base + (i - base)].ask == plan[i - base]);
    }
    assert forall|i: int|
        base <= i < log.len() - 1 && i - base < plan.len() - 1 implies (
    #[trigger] log[i]).refused() is None by {
        assert(log[base + (i - base)].ask == plan[i - base]);
    }
    if result is Ok {
        assert forall|i: int| base <= i < log.len() implies (#[trigger] log[i]).refused() is None by {
            assert(log[base + (i - base)].ask == plan[i - base]);
        }
    } else if made > from {
        assert forall|i: int| base + plan.len() <= i < log.len() implies (
        #[trigger] log[i]).ask == undo[i - base - plan.len()] by {
            assert(log[base + last + 1 + (i - base - plan.len())].ask == undo[i - base
                - plan.len()]);
        }
    }
}

/// Shared memory is mapped by the handle that the caller names, with the address, the offset, the
/// length, the protection and the flags of the record, each read where the record holds it. Where
/// it was mapped is told; where that cannot be done, the same range is unmapped.
#[verifier::rlimit(30)]
pub proof fn law_shared_memory_is_mapped_as_the_record_says(
    abi: Abi,
    call: SyscallContext,
    before: Seq<Event>,
    log: Seq<Event>,
    dispatched: Result<DispatchResult, Status>,
)
    requires
        called(abi, SyscallNumber::SharedMemoryMap, call, before, log, dispatched),
    ensures
        ({
            let from = before.len() as int;
            let record = log[from].bytes();
            let length = le64_at(record, 16) as u64;
            &&& log.len() > from ==> log[from].ask == Ask::Plain(
                Call::CopyIn { address: call.registers.rsi, length: 32 },
            )
            &&& log.len() >= from + 3 ==> {
                &&& log[from + 2].ask matches Ask::Plain(Call::MapShared { handle, args })
                &&& handle.0 == call.registers.rdi
                &&& args.address == le64_at(record, 0)
                &&& args.offset == le64_at(record, 8)
                &&& args.length == le64_at(record, 16)
                &&& args.protection == le32_at(record, 24)
                &&& args.flags == le32_at(record, 28)
            }
            &&& log.len() >= from + 4 ==> told_number(log[from + 3], call.registers.rdx, log[from + 2].number())
            &&& dispatched is Ok ==> log.len() == from + 4 && log[from + 2].refused() is None && log[from
                + 3].refused() is None
            &&& log.len() >= from + 4 && log[from + 3].refused() is Some ==> log.len() == from + 5 && log[from
                + 4].ask == Ask::Plain(Call::UnmapShared { address: log[from + 2].number(), length })
        }),
{
    let from = before.len() as int;
    let result = choose|result: Result<(), Status>| #[trigger]
        did_shared_memory_map(abi, call.registers.rdi, call.registers.rsi, call.registers.rdx, before, log, result) && dispatched == over(result);
    assert(did_shared_memory_map(abi, call.registers.rdi, call.registers.rsi, call.registers.rdx, before, log, result));
    lemma_fields_fit(log[from].bytes());
    if call.registers.rdi <= u32::MAX && log[from].refused() is None && super::wire::map_args_in(
        abi,
        log[from].bytes(),
    ) is Ok {
        let args = super::wire::map_args_in(abi, log[from].bytes())->Ok_0;
        let handle = Handle(call.registers.rdi as u32);
        let first = seq![
            Ask::Plain(Call::CheckOutput { address: call.registers.rdx, length: 8 }),
            Ask::Plain(Call::MapShared { handle, args }),
        ];
        if failed_in(log, from + 1, first, result) {
            lemma_failed(log, from + 1, first, result);
            if log.len() >= from + 3 {
                assert(log[from + 2].ask == first[1]);
            }
        } else {
            lemma_passed(log, from + 1, first);
            let mapped = log[from + 2].number();
            assert(log[from + 2].ask == first[1]);
            lemma_placed(
                call.registers.rdx,
                mapped,
                Call::UnmapShared { address: mapped, length: args.length },
                log,
                from + 3,
                result,
            );
        }
    }
}

/// Fields of a record fit their types.
pub(crate) proof fn lemma_fields_fit(record: Seq<u8>)
    ensures
        forall|at: int| 0 <= #[trigger] le32_at(record, at) <= u32::MAX,
        forall|at: int| 0 <= #[trigger] le64_at(record, at) <= u64::MAX,
{
}

/// A file is mapped by the handle that the caller names, which must carry the right to read, and
/// those to write and to execute where the protection asks for them. Its length is the one that
/// the kernel tells of the same file. The address, the offset, the length, the protection and the
/// flags are those of the record. Where it was mapped is told; where that cannot be done, the same
/// range is unmapped.
#[verifier::rlimit(60)]
pub proof fn law_files_are_mapped_as_the_record_says(
    abi: Abi,
    call: SyscallContext,
    before: Seq<Event>,
    log: Seq<Event>,
    dispatched: Result<DispatchResult, Status>,
)
    requires
        called(abi, SyscallNumber::VirtualMapFile, call, before, log, dispatched),
    ensures
        ({
            let from = before.len() as int;
            let record = log[from].bytes();
            let length = le64_at(record, 16) as u64;
            let protection = le32_at(record, 24) as u32;
            &&& log.len() > from ==> log[from].ask == Ask::Plain(
                Call::CopyIn { address: call.registers.rsi, length: 32 },
            )
            &&& log.len() >= from + 4 ==> {
                &&& log[from + 3].ask matches Ask::Plain(Call::File { handle, rights })
                &&& handle.0 == call.registers.rdi
                &&& rights == abi.rights.read | (if protection & abi.protection.write == abi.protection.write {
                    abi.rights.write
                } else {
                    abi.rights.read
                }) | (if protection & abi.protection.execute == abi.protection.execute {
                    abi.rights.execute
                } else {
                    abi.rights.read
                })
            }
            &&& log.len() >= from + 7 ==> {
                &&& log[from + 6].ask matches Ask::Plain(
                    Call::MapFile { file, file_length, max_protection, args },
                )
                &&& file == log[from + 3].node()
                &&& log[from + 5].ask == Ask::Plain(Call::FileLength { file })
                &&& file_length == log[from + 5].number()
                &&& args.address == le64_at(record, 0)
                &&& args.offset == le64_at(record, 8)
                &&& args.length == le64_at(record, 16)
                &&& args.protection == le32_at(record, 24)
                &&& args.flags == le32_at(record, 28)
            }
            &&& log.len() >= from + 8 ==> told_number(log[from + 7], call.registers.rdx, log[from + 6].number())
            &&& dispatched is Ok ==> log.len() == from + 8 && log[from + 6].refused() is None && log[from
                + 7].refused() is None
            &&& log.len() >= from + 8 && log[from + 7].refused() is Some ==> log.len() == from + 9 && log[from
                + 8].ask == Ask::Plain(Call::UnmapFile { address: log[from + 6].number(), length })
        }),
{
    let from = before.len() as int;
    let result = choose|result: Result<(), Status>| #[trigger]
        did_virtual_map_file(abi, call.registers.rdi, call.registers.rsi, call.registers.rdx, before, log, result) && dispatched == over(result);
    assert(did_virtual_map_file(abi, call.registers.rdi, call.registers.rsi, call.registers.rdx, before, log, result));
    lemma_fields_fit(log[from].bytes());
    if call.registers.rdi <= u32::MAX && log[from].refused() is None && super::wire::map_args_in(
        abi,
        log[from].bytes(),
    ) is Ok {
        let args = super::wire::map_args_in(abi, log[from].bytes())->Ok_0;
        let handle = Handle(call.registers.rdi as u32);
        let at = from + 1;
        let file = log[at + 2].node();
        let rights = super::mapping::mapping_rights(abi, args.protection);
        let read = abi.rights.read;
        let write = abi.rights.write;
        let execute = abi.rights.execute;
        assert(read | read | read == read) by (bit_vector);
        assert(read | write | read == read | write) by (bit_vector);
        assert(read | read | execute == read | execute) by (bit_vector);
        let first = seq![
            Ask::Plain(Call::CheckOutput { address: call.registers.rdx, length: 8 }),
            Ask::Plain(Call::HandleRights { handle }),
            Ask::Plain(Call::File { handle, rights }),
            Ask::Plain(Call::FileProtection { rights: log[at + 1].answer->Bits_0->Ok_0 }),
            Ask::Plain(Call::FileLength { file }),
            Ask::Plain(
                Call::MapFile {
                    file,
                    file_length: log[at + 4].number(),
                    max_protection: log[at + 3].answer->Bits_0->Ok_0,
                    args,
                },
            ),
        ];
        if failed_in(log, at, first, result) {
            lemma_failed(log, at, first, result);
        } else {
            lemma_passed(log, at, first);
            let mapped = log[at + 5].number();
            lemma_placed(
                call.registers.rdx,
                mapped,
                Call::UnmapFile { address: mapped, length: args.length },
                log,
                at + 6,
                result,
            );
        }
        if log.len() >= from + 4 {
            assert(log[from + 3].ask == first[2]);
        }
        if log.len() >= from + 7 {
            assert(log[from + 5].ask == first[4]);
            assert(log[from + 6].ask == first[5]);
        }
    }
}

/// Shared memory is made with the size that the caller asks for; what is accounted for it is that
/// size, rounded up to whole pages, and the same where it is asked for, recorded and released. Its
/// handle is told where the caller says, or it is closed again and the account released.
#[verifier::rlimit(60)]
pub proof fn law_shared_memory_is_made_and_accounted(
    abi: Abi,
    call: SyscallContext,
    before: Seq<Event>,
    log: Seq<Event>,
    dispatched: Result<DispatchResult, Status>,
)
    requires
        called(abi, SyscallNumber::SharedMemoryCreate, call, before, log, dispatched),
    ensures
        ({
            let from = before.len() as int;
            &&& forall|i: int|
                from <= i < log.len() ==> {
                    ||| log[i].ask matches Ask::Plain(Call::CheckOutput { .. })
                    ||| log[i].ask == Ask::Plain(Call::RecordQuotaFailure)
                    ||| log[i].ask matches Ask::Plain(Call::CloseHandle { .. })
                    ||| (#[trigger] log[i]).ask matches Ask::Plain(Call::CreateShared { size }) && size
                        == call.registers.rdi
                    ||| log[i].ask matches Ask::Plain(Call::CanAllocateShared { bytes }) && pages_for(
                        call.registers.rdi,
                        bytes,
                    )
                    ||| log[i].ask matches Ask::Plain(Call::RecordShared { bytes }) && pages_for(
                        call.registers.rdi,
                        bytes,
                    )
                    ||| log[i].ask matches Ask::Plain(Call::ReleaseShared { bytes }) && pages_for(
                        call.registers.rdi,
                        bytes,
                    )
                    ||| log[i].ask is With && told_handle(
                        log[i],
                        call.registers.rsi,
                        log[i - 2].handle(),
                    ) && (log[i - 2].ask matches Ask::Plain(Call::CreateShared { .. }))
                }
            &&& dispatched is Ok ==> log.len() >= from + 3 && log.last().ask is With && log.last().refused() is None
                && log[log.len() - 2].ask matches Ask::Plain(Call::RecordShared { .. })
        }),
{
    let from = before.len() as int;
    let result = choose|result: Result<(), Status>| #[trigger]
        did_shared_memory_create(abi, call.registers.rdi, call.registers.rsi, before, log, result) && dispatched == over(result);
    assert(did_shared_memory_create(abi, call.registers.rdi, call.registers.rsi, before, log, result));
    if super::mapping::shared_size(call.registers.rdi) is Ok {
        let bytes = super::mapping::shared_size(call.registers.rdi)->Ok_0;
        lemma_page_rounding(call.registers.rdi as int);
        assert(pages_for(call.registers.rdi, bytes));
        let at = if bytes == 0 {
            from
        } else {
            from + 1
        };
        let quota = seq![Ask::Plain(Call::RecordQuotaFailure)];
        if bytes != 0 && log[from].answer->Flag_0 == Ok::<bool, Status>(false) {
            lemma_asked(log, from + 1, quota);
        } else if bytes == 0 || log[from].answer->Flag_0 == Ok::<bool, Status>(true) {
            let first = seq![
                Ask::Plain(Call::CheckOutput { address: call.registers.rsi, length: 8 }),
                Ask::Plain(Call::CreateShared { size: call.registers.rdi as usize }),
            ];
            if failed_in(log, at, first, result) {
                lemma_failed(log, at, first, result);
            } else {
                lemma_passed(log, at, first);
                let handle = log[at + 1].handle();
                assert(log[at + 1].ask == first[1]);
                lemma_handle_record(handle);
                assert(told_handle(log[at + 3], call.registers.rsi, handle));
                if log[at + 3].refused() is Some {
                    let asks = close_asks(abi, seq![handle]).push(
                        Ask::Plain(Call::ReleaseShared { bytes }),
                    );
                    lemma_close_one(abi, handle);
                    lemma_asked(log, at + 4, asks);
                }
            }
        }
    }
}

/// These are the bytes of whole pages that hold a size.
pub open spec fn pages_for(size: u64, bytes: usize) -> bool {
    size <= bytes < size + 4096 && bytes % 4096 == 0
}

/// Rounding up to pages.
proof fn lemma_page_rounding(size: int)
    requires
        0 <= size,
    ensures
        ({
            let bytes = (size + 4095) / 4096 * 4096;
            size <= bytes < size + 4096 && bytes % 4096 == 0
        }),
{
}

/// One handle is closed by one question.
pub(crate) proof fn lemma_close_one(abi: Abi, handle: Handle)
    ensures
        close_asks(abi, seq![handle]) == if abi.valid(handle) {
            seq![Ask::Plain(Call::CloseHandle { handle })]
        } else {
            Seq::<Ask>::empty()
        },
{
    assert(seq![handle].drop_last() =~= Seq::<Handle>::empty());
    assert(seq![handle].last() == handle);
    assert(close_asks(abi, seq![handle].drop_last()) == Seq::<Ask>::empty());
    assert(close_asks(abi, seq![handle]) =~= if abi.valid(handle) {
        seq![Ask::Plain(Call::CloseHandle { handle })]
    } else {
        Seq::<Ask>::empty()
    });
}

/// The size that is told is that of the shared memory that the handle names.
pub proof fn law_the_size_of_the_named_memory_is_told(
    abi: Abi,
    call: SyscallContext,
    before: Seq<Event>,
    log: Seq<Event>,
    dispatched: Result<DispatchResult, Status>,
)
    requires
        called(abi, SyscallNumber::SharedMemoryGetSize, call, before, log, dispatched),
        dispatched is Ok,
    ensures
        ({
            let from = before.len() as int;
            &&& log.len() == from + 3
            &&& log[from + 1].ask matches Ask::Plain(Call::SharedLength { handle })
            &&& handle.0 == call.registers.rdi
            &&& told_number(log[from + 2], call.registers.rsi, log[from + 1].number())
            &&& log[from + 2].refused() is None
        }),
{
    let from = before.len() as int;
    let result = choose|result: Result<(), Status>| #[trigger]
        did_shared_memory_get_size(abi, call.registers.rdi, call.registers.rsi, before, log, result) && dispatched == over(result);
    assert(did_shared_memory_get_size(abi, call.registers.rdi, call.registers.rsi, before, log, result));
    let plan = seq![
        Ask::Plain(Call::CheckOutput { address: call.registers.rsi, length: 8 }),
        Ask::Plain(Call::SharedLength { handle: Handle(call.registers.rdi as u32) }),
        Ask::With(Call::CopyOut { address: call.registers.rsi }, le_bytes(log[from + 1].number() as int, 8)),
    ];
    lemma_ran(log, from, plan, result);
    assert(log[from + 1].ask == plan[1]);
    assert(log[from + 2].ask == plan[2]);
    lemma_told_number(log[from + 2], call.registers.rsi, log[from + 1].number());
}

/// The time that is told is that of the system call.
pub proof fn law_the_time_of_the_call_is_told(
    abi: Abi,
    call: SyscallContext,
    before: Seq<Event>,
    log: Seq<Event>,
    dispatched: Result<DispatchResult, Status>,
)
    requires
        called(abi, SyscallNumber::ClockGetMonotonic, call, before, log, dispatched),
        dispatched is Ok,
    ensures
        ({
            let from = before.len() as int;
            &&& log.len() == from + 2
            &&& told_number(log.last(), call.registers.rdi, call.now_ns)
            &&& log.last().refused() is None
        }),
{
    let from = before.len() as int;
    let result = choose|result: Result<(), Status>| #[trigger]
        did_clock_get_monotonic(abi, call.registers.rdi, call.now_ns, before, log, result) && dispatched == over(result);
    assert(did_clock_get_monotonic(abi, call.registers.rdi, call.now_ns, before, log, result));
    let plan = seq![
        Ask::Plain(Call::CheckOutput { address: call.registers.rdi, length: 8 }),
        Ask::With(Call::CopyOut { address: call.registers.rdi }, le_bytes(call.now_ns as int, 8)),
    ];
    lemma_ran(log, from, plan, result);
    assert(log[from + 1].ask == plan[1]);
    lemma_told_number(log[from + 1], call.registers.rdi, call.now_ns);
}

/// The number that is told is that of the thread that asks.
pub proof fn law_a_thread_is_told_its_own_number(
    abi: Abi,
    call: SyscallContext,
    before: Seq<Event>,
    log: Seq<Event>,
    dispatched: Result<DispatchResult, Status>,
)
    requires
        called(abi, SyscallNumber::ThreadGetCurrent, call, before, log, dispatched),
        dispatched is Ok,
    ensures
        ({
            let from = before.len() as int;
            &&& log.len() == from + 1
            &&& told_number(log.last(), call.registers.rdi, call.thread)
            &&& log.last().refused() is None
        }),
{
    let from = before.len() as int;
    let result = choose|result: Result<(), Status>| #[trigger]
        did_thread_get_current(abi, call.thread, call.registers.rdi, before, log, result) && dispatched == over(result);
    assert(did_thread_get_current(abi, call.thread, call.registers.rdi, before, log, result));
    let plan = seq![
        Ask::With(Call::CopyOut { address: call.registers.rdi }, le_bytes(call.thread as int, 8)),
    ];
    lemma_ran(log, from, plan, result);
    assert(log[from].ask == plan[0]);
    lemma_told_number(log[from], call.registers.rdi, call.thread);
}

/// The bytes that are told are as many as the caller asks for, as the source that the handle names
/// gave them.
pub proof fn law_random_bytes_are_told_as_they_came(
    abi: Abi,
    call: SyscallContext,
    before: Seq<Event>,
    log: Seq<Event>,
    dispatched: Result<DispatchResult, Status>,
)
    requires
        called(abi, SyscallNumber::RandomFill, call, before, log, dispatched),
        dispatched is Ok,
    ensures
        ({
            let from = before.len() as int;
            &&& log.len() == from + 4
            &&& log[from].ask matches Ask::Plain(Call::RandomSource { handle })
            &&& handle.0 == call.registers.rdi
            &&& log[from + 2].ask matches Ask::Plain(Call::RandomBytes { length })
            &&& length == call.registers.rdx
            &&& log[from + 3].ask == Ask::With(
                Call::CopyOut { address: call.registers.rsi },
                log[from + 2].bytes(),
            )
            &&& log[from + 2].bytes().len() == call.registers.rdx
            &&& log[from + 3].refused() is None
        }),
{
    let from = before.len() as int;
    let result = choose|result: Result<(), Status>| #[trigger]
        did_random_fill(abi, call.registers.rdi, call.registers.rsi, call.registers.rdx, before, log, result) && dispatched == over(result);
    assert(did_random_fill(abi, call.registers.rdi, call.registers.rsi, call.registers.rdx, before, log, result));
    let length = call.registers.rdx as usize;
    let first = seq![
        Ask::Plain(Call::CheckOutput { address: call.registers.rsi, length }),
        Ask::Plain(Call::RandomBytes { length }),
    ];
    if failed_in(log, from + 1, first, result) {
        lemma_failed(log, from + 1, first, result);
    } else {
        lemma_passed(log, from + 1, first);
        assert(log[from + 2].ask == first[1]);
        let plan = seq![
            Ask::With(Call::CopyOut { address: call.registers.rsi }, log[from + 2].bytes()),
        ];
        lemma_ran(log, from + 3, plan, result);
        assert(log[from + 3].ask == plan[0]);
    }
}

/// What the diagnostic sink gets is what was read at the address of the caller, for the length
/// that the caller gives.
pub proof fn law_diagnostics_are_what_the_caller_wrote(
    abi: Abi,
    call: SyscallContext,
    before: Seq<Event>,
    log: Seq<Event>,
    dispatched: Result<DispatchResult, Status>,
)
    requires
        called(abi, SyscallNumber::DebugWrite, call, before, log, dispatched),
        dispatched is Ok,
    ensures
        ({
            let from = before.len() as int;
            &&& log.len() == from + 2
            &&& was_read(log, from, call.registers.rdi, call.registers.rsi, log[from].bytes())
            &&& log[from + 1].ask == Ask::With(Call::DebugOutput, log[from].bytes())
            &&& call.registers.rsi <= 4096
        }),
{
    let from = before.len() as int;
    let result = choose|result: Result<(), Status>| #[trigger]
        did_debug_write(abi, call.registers.rdi, call.registers.rsi, before, log, result) && dispatched == over(result);
    assert(did_debug_write(abi, call.registers.rdi, call.registers.rsi, before, log, result));
    let asks = seq![Ask::With(Call::DebugOutput, log[from].bytes())];
    lemma_asked(log, from + 1, asks);
    assert(log[from + 1].ask == asks[0]);
    assert(log[from].ask == Ask::Plain(
        Call::CopyIn { address: call.registers.rdi, length: call.registers.rsi as usize },
    ));
}

/// The samples that are played are what was read at the address of the caller, all of it, in whole
/// frames, and only where there is room for all of them.
pub proof fn law_audio_is_what_the_caller_wrote(
    abi: Abi,
    call: SyscallContext,
    before: Seq<Event>,
    log: Seq<Event>,
    dispatched: Result<DispatchResult, Status>,
)
    requires
        called(abi, SyscallNumber::AudioWrite, call, before, log, dispatched),
    ensures
        ({
            let from = before.len() as int;
            &&& forall|i: int|
                from <= i < log.len() && (#[trigger] log[i]).ask is With ==> {
                    &&& log[i].ask matches Ask::With(Call::AudioWrite, bytes)
                    &&& was_read(log, from, call.registers.rdi, call.registers.rsi, bytes)
                    &&& 0 < call.registers.rsi <= 16384
                    &&& call.registers.rsi % 4 == 0
                    &&& log[from].ask == Ask::Plain(Call::AudioAvailable)
                    &&& log[from].number() >= call.registers.rsi
                }
            &&& dispatched is Ok ==> log.len() == from + 3 && log.last().ask is With && log.last().number()
                == call.registers.rsi
        }),
{
    let from = before.len() as int;
    let result = choose|result: Result<(), Status>| #[trigger]
        did_audio_write(abi, call.registers.rdi, call.registers.rsi, before, log, result) && dispatched == over(result);
    assert(did_audio_write(abi, call.registers.rdi, call.registers.rsi, before, log, result));
    let length = call.registers.rsi as usize;
    if log.len() > from + 1 {
        let rest = seq![
            Ask::Plain(Call::CopyIn { address: call.registers.rdi, length }),
            Ask::With(Call::AudioWrite, log[from + 1].bytes()),
        ];
        if failed_in(log, from + 1, rest, result) {
            lemma_failed(log, from + 1, rest, result);
        } else {
            lemma_passed(log, from + 1, rest);
        }
        assert(log[from + 1].ask == rest[0]);
    }
}

/// What is told is what the kernel knows of the area of the address that the caller names.
pub proof fn law_the_area_of_the_address_is_told(
    abi: Abi,
    call: SyscallContext,
    before: Seq<Event>,
    log: Seq<Event>,
    dispatched: Result<DispatchResult, Status>,
)
    requires
        called(abi, SyscallNumber::VirtualQuery, call, before, log, dispatched),
        dispatched is Ok,
    ensures
        ({
            let from = before.len() as int;
            &&& log.len() == from + 4
            &&& log[from + 2].ask == Ask::Plain(Call::VirtualArea { address: call.registers.rdi })
            &&& log[from + 3].ask == Ask::With(
                Call::CopyOut { address: call.registers.rsi },
                log[from + 2].bytes(),
            )
            &&& log[from + 3].refused() is None
            &&& call.registers.rdx == abi.versions.virtual_area_info
            &&& call.registers.r10 == abi.sizes.virtual_area_info
        }),
{
    let from = before.len() as int;
    let result = choose|result: Result<(), Status>| #[trigger]
        did_virtual_query(abi, call.registers.rdi, call.registers.rsi, call.registers.rdx, call.registers.r10, before, log, result) && dispatched == over(result);
    assert(did_virtual_query(abi, call.registers.rdi, call.registers.rsi, call.registers.rdx, call.registers.r10, before, log, result));
    let length = abi.sizes.virtual_area_info as usize;
    let plan = seq![
        Ask::Plain(Call::CheckOutput { address: call.registers.rsi, length }),
        Ask::Plain(Call::VirtualArea { address: call.registers.rdi }),
        Ask::With(Call::CopyOut { address: call.registers.rsi }, log[from + 2].bytes()),
    ];
    lemma_ran(log, from + 1, plan, result);
    assert(log[from + 2].ask == plan[1]);
    assert(log[from + 3].ask == plan[2]);
}

} // verus!
