//! What system calls on handles, channels, threads, processes and power have the rest of the
//! kernel do, by the registers and the records that the caller hands over.
use vstd::prelude::*;

use crate::bytes::{le16_at, le32_at, le64_at, signed64};
use crate::thread_scheduler::policy::SchedulingClass;

use super::abi::{within, Abi, Handle, Status};
use super::application::{
    did_process_get_info, did_system_power_get_info, did_system_power_request, power_record,
    process_record,
};
use super::channel::did_channel_read;
use super::dispatch::{blocking, called, over, SyscallContext};
use super::effects::{lemma_failed, lemma_handle_record, lemma_passed, lemma_ran};
use super::handles::{
    channel_read_in, channel_write_in, close_asks, did_channel_create, did_channel_write,
    did_handle_duplicate, metadata_asks, received_records,
};
use super::kernel::{
    failed_in, passed, ran, Ask, Call, DispatchResult, Event, ThreadFacts, ThreadState, WaitDeadline,
};
use super::memory_effects::{
    lemma_close_one, lemma_placed, lemma_ran_back, told_handle, told_number,
};
use super::number::SyscallNumber;
use super::records::{
    class_place, law_awaited_messages_read_field_by_field, law_dispositions_follow_one_another,
    law_dispositions_read_field_by_field, law_ends_are_described_field_by_field,
    law_messages_are_described_field_by_field, law_power_is_described_field_by_field,
    law_processes_are_described_field_by_field, law_received_handles_are_described_field_by_field,
    law_received_handles_follow_one_another, law_scheduling_is_described_field_by_field,
    law_sent_messages_read_field_by_field, law_thread_records_read_field_by_field,
    law_threads_are_described_field_by_field,
};
use super::threads::{
    did_thread_create, did_thread_detach, did_thread_get_info, did_thread_get_scheduling_info,
    did_thread_join, did_thread_set_scheduling_class,
    did_thread_set_scheduling_class_with_authority, did_thread_sleep_until, scheduling_record,
    thread_args_in, thread_info_plan,
};
use super::wire::{channel_record, dispositions_in, handle_record};

verus! {

/// The handle that the caller names is duplicated with the rights that the caller asks for. The
/// duplicate, and no other handle, is told where the caller says; where that cannot be done, the
/// duplicate is closed.
#[verifier::rlimit(30)]
pub proof fn law_duplicates_are_told_or_closed(
    abi: Abi,
    call: SyscallContext,
    before: Seq<Event>,
    log: Seq<Event>,
    dispatched: Result<DispatchResult, Status>,
)
    requires
        called(abi, SyscallNumber::HandleDuplicate, call, before, log, dispatched),
    ensures
        ({
            let from = before.len() as int;
            let copy = log[from + 1].handle();
            &&& log.len() > from + 1 ==> {
                &&& log[from + 1].ask matches Ask::Plain(Call::DuplicateHandle { handle, rights })
                &&& handle.0 == call.registers.rdi
                &&& rights == call.registers.rsi
                &&& within(rights, abi.rights.all)
            }
            &&& log.len() > from + 2 ==> told_handle(log[from + 2], call.registers.rdx, copy)
            &&& dispatched is Ok ==> log.len() == from + 3 && log[from + 1].refused() is None && log[from + 2].refused() is None
            &&& log.len() > from + 2 && dispatched is Err && abi.valid(copy) ==> log.len() == from + 4 && log[from + 3].ask
                == Ask::Plain(Call::CloseHandle { handle: copy })
        }),
{
    let from = before.len() as int;
    let result = choose|result: Result<(), Status>| #[trigger]
        did_handle_duplicate(abi, call.registers.rdi, call.registers.rsi, call.registers.rdx, before, log, result) && dispatched == over(result);
    assert(did_handle_duplicate(abi, call.registers.rdi, call.registers.rsi, call.registers.rdx, before, log, result));
    if call.registers.rdi <= u32::MAX && super::wire::rights_in(abi, call.registers.rsi) is Ok {
        let copy = log[from + 1].handle();
        let plan = seq![
            Ask::Plain(Call::CheckOutput { address: call.registers.rdx, length: 8 }),
            Ask::Plain(
                Call::DuplicateHandle {
                    handle: Handle(call.registers.rdi as u32),
                    rights: call.registers.rsi as u32,
                },
            ),
            Ask::With(Call::CopyOut { address: call.registers.rdx }, handle_record(copy)),
        ];
        lemma_ran_back(log, from, plan, 2, close_asks(abi, seq![copy]), result);
        lemma_close_one(abi, copy);
        lemma_handle_record(copy);
        if log.len() > from + 1 {
            assert(log[from + 1].ask == plan[1]);
        }
        if log.len() > from + 2 {
            assert(log[from + 2].ask == plan[2]);
        }
    }
}

/// A channel is made, and its two ends are told in order where the caller says; where that cannot
/// be done, both are closed.
#[verifier::rlimit(30)]
pub proof fn law_both_ends_of_a_channel_are_told_or_closed(
    abi: Abi,
    call: SyscallContext,
    before: Seq<Event>,
    log: Seq<Event>,
    dispatched: Result<DispatchResult, Status>,
)
    requires
        called(abi, SyscallNumber::ChannelCreate, call, before, log, dispatched),
    ensures
        ({
            let from = before.len() as int;
            let (first, second) = log[from + 1].answer->Handles_0->Ok_0;
            &&& log.len() > from + 1 ==> log[from + 1].ask == Ask::Plain(Call::ChannelCreate)
            &&& log.len() > from + 2 ==> {
                &&& log[from + 2].ask matches Ask::With(Call::CopyOut { address }, told)
                &&& address == call.registers.rdi
                &&& told.len() == 8
                &&& le32_at(told, 0) == first.0
                &&& le32_at(told, 4) == second.0
            }
            &&& dispatched is Ok ==> log.len() == from + 3 && log[from + 2].refused() is None
            &&& log.len() > from + 2 && dispatched is Err && abi.valid(first) && abi.valid(second) ==> {
                &&& log.len() == from + 5
                &&& log[from + 3].ask == Ask::Plain(Call::CloseHandle { handle: first })
                &&& log[from + 4].ask == Ask::Plain(Call::CloseHandle { handle: second })
            }
        }),
{
    let from = before.len() as int;
    let result = choose|result: Result<(), Status>| #[trigger]
        did_channel_create(abi, call.registers.rdi, before, log, result) && dispatched == over(result);
    assert(did_channel_create(abi, call.registers.rdi, before, log, result));
    let (first, second) = log[from + 1].answer->Handles_0->Ok_0;
    let plan = seq![
        Ask::Plain(Call::CheckOutput { address: call.registers.rdi, length: 8 }),
        Ask::Plain(Call::ChannelCreate),
        Ask::With(Call::CopyOut { address: call.registers.rdi }, channel_record(first, second)),
    ];
    lemma_ran_back(log, from, plan, 2, close_asks(abi, seq![first, second]), result);
    law_ends_are_described_field_by_field(first, second);
    lemma_close_one(abi, first);
    assert(seq![first, second].drop_last() =~= seq![first]);
    assert(seq![first, second].last() == second);
    if abi.valid(first) && abi.valid(second) {
        assert(close_asks(abi, seq![first, second]) =~= seq![
            Ask::Plain(Call::CloseHandle { handle: first }),
            Ask::Plain(Call::CloseHandle { handle: second }),
        ]);
    }
    if log.len() > from + 1 {
        assert(log[from + 1].ask == plan[1]);
    }
    if log.len() > from + 2 {
        assert(log[from + 2].ask == plan[2]);
    }
}

/// The message that goes into the channel that the caller names holds the bytes and the handles
/// that the record points at, no more and no less, and is charged for its bytes.
#[verifier::rlimit(60)]
pub proof fn law_messages_are_sent_as_the_record_says(
    abi: Abi,
    call: SyscallContext,
    before: Seq<Event>,
    log: Seq<Event>,
    dispatched: Result<DispatchResult, Status>,
)
    requires
        called(abi, SyscallNumber::ChannelWrite, call, before, log, dispatched),
        dispatched is Ok,
    ensures
        ({
            let from = before.len() as int;
            let record = log[from].bytes();
            &&& log.len() == from + 6
            &&& log[from].ask == Ask::Plain(Call::CopyIn { address: call.registers.rsi, length: 40 })
            &&& log[from + 1].ask matches Ask::Plain(Call::CopyIn { address: bytes_at, length: bytes_long })
            &&& bytes_at == le64_at(record, 0) && bytes_long == le64_at(record, 8)
            &&& log[from + 2].ask matches Ask::Plain(Call::CopyIn { address: handles_at, length: handles_long })
            &&& handles_at == le64_at(record, 16) && handles_long == 16 * le64_at(record, 24)
            &&& log[from + 3].ask matches Ask::Plain(Call::CanSend { bytes: asked })
            &&& asked == le64_at(record, 8)
            &&& log[from + 4].ask matches Ask::Send { channel, bytes, dispositions }
            &&& channel.0 == call.registers.rdi
            &&& bytes == log[from + 1].bytes()
            &&& dispositions.len() == le64_at(record, 24)
            &&& forall|i: int|
                0 <= i < dispositions.len() ==> {
                    let one = log[from + 2].bytes().subrange(16 * i, 16 * i + 16);
                    &&& (#[trigger] dispositions[i]).handle.0 == le32_at(one, 0)
                    &&& dispositions[i].operation is Move <==> le32_at(one, 4) == 0
                    &&& dispositions[i].rights == le32_at(one, 8)
                }
            &&& log[from + 4].refused() is None
            &&& log[from + 5].ask matches Ask::Plain(Call::RecordSent { bytes: charged })
            &&& charged == le64_at(record, 8)
        }),
{
    let from = before.len() as int;
    let result = choose|result: Result<(), Status>| #[trigger]
        did_channel_write(abi, call.registers.rdi, call.registers.rsi, before, log, result) && dispatched == over(result);
    assert(did_channel_write(abi, call.registers.rdi, call.registers.rsi, before, log, result));
    let record = log[from].bytes();
    let raw = log[from + 2].bytes();
    law_sent_messages_read_field_by_field(abi, record);
    let args = channel_write_in(abi, record)->Ok_0;
    let count = (args.disposition_bytes / 16) as nat;
    law_dispositions_follow_one_another(abi, raw, count);
    let dispositions = dispositions_in(abi, raw, count)->Ok_0;
    let plan = seq![
        Ask::Send {
            channel: Handle(call.registers.rdi as u32),
            bytes: log[from + 1].bytes(),
            dispositions,
        },
        Ask::Plain(Call::RecordSent { bytes: args.byte_count }),
    ];
    lemma_ran(log, from + 4, plan, result);
    assert(log[from + 4].ask == plan[0]);
    assert(log[from + 5].ask == plan[1]);
    assert forall|i: int| 0 <= i < dispositions.len() implies {
        let one = raw.subrange(16 * i, 16 * i + 16);
        &&& (#[trigger] dispositions[i]).handle.0 == le32_at(one, 0)
        &&& dispositions[i].operation is Move <==> le32_at(one, 4) == 0
        &&& dispositions[i].rights == le32_at(one, 8)
    } by {
        law_dispositions_read_field_by_field(abi, raw.subrange(16 * i, 16 * i + 16));
    }
}

/// A message is taken from the channel that the caller names, into no more room than the record
/// gives. Its bytes, the records of its handles and its size are told where the record says, each
/// in its own place.
#[verifier::rlimit(80)]
pub proof fn law_messages_are_received_as_the_record_says(
    abi: Abi,
    call: SyscallContext,
    before: Seq<Event>,
    log: Seq<Event>,
    dispatched: Result<DispatchResult, Status>,
)
    requires
        called(abi, SyscallNumber::ChannelRead, call, before, log, dispatched),
        dispatched is Ok,
    ensures
        ({
            let from = before.len() as int;
            let record = log[from].bytes();
            let message = log[from + 4].answer->Message_0->Ok_0;
            let bytes = message.info.byte_count as int;
            let count = message.info.handle_count as int;
            let end = log.len() - 3;
            &&& log[from].ask == Ask::Plain(Call::CopyIn { address: call.registers.rsi, length: 48 })
            &&& log[from + 4].ask matches Ask::Receive { channel, byte_capacity, handle_capacity }
            &&& channel.0 == call.registers.rdi
            &&& byte_capacity == le64_at(record, 8)
            &&& handle_capacity == le64_at(record, 24)
            &&& bytes <= message.bytes.len() && count <= message.handles.len()
            &&& end == from + 5 + 2 * count
            &&& log[end].ask matches Ask::With(Call::CopyOut { address: bytes_at }, told)
            &&& bytes_at == le64_at(record, 0) && told == message.bytes.subrange(0, bytes)
            &&& log[end + 1].ask matches Ask::With(Call::CopyOut { address: handles_at }, records)
            &&& handles_at == le64_at(record, 16) && records.len() == 16 * count
            &&& forall|i: int|
                0 <= i < count ==> {
                    let one = records.subrange(16 * i, 16 * i + 16);
                    &&& le32_at(one, 0) == (#[trigger] message.handles[i]).0
                    &&& le32_at(one, 4) == log[from + 5 + 2 * i].answer->Bits_0->Ok_0
                    &&& le32_at(one, 8) == log[from + 6 + 2 * i].answer->Bits_0->Ok_0
                    &&& log[from + 5 + 2 * i].ask == Ask::Plain(Call::HandleRights { handle: message.handles[i] })
                    &&& log[from + 6 + 2 * i].ask == Ask::Plain(Call::ObjectType { handle: message.handles[i] })
                }
            &&& log[end + 2].ask matches Ask::With(Call::CopyOut { address: size_at }, size)
            &&& size_at == le64_at(record, 32)
            &&& size.len() == 8 && le32_at(size, 0) == bytes && le16_at(size, 4) == count
        }),
{
    let from = before.len() as int;
    let result = choose|result: Result<(), Status>| #[trigger]
        did_channel_read(abi, call.registers.rdi, call.registers.rsi, before, log, result) && dispatched == over(result);
    assert(did_channel_read(abi, call.registers.rdi, call.registers.rsi, before, log, result));
    let record = log[from].bytes();
    law_awaited_messages_read_field_by_field(abi, record);
    let args = channel_read_in(abi, record)->Ok_0;
    let checks = super::channel::read_checks(args);
    assert(passed(log, from + 1, checks));
    let message = log[from + 4].answer->Message_0->Ok_0;
    let count = message.info.handle_count as int;
    let received = message.handles.take(count);
    let described = from + 5 + 2 * received.len();
    let early = log.take(described);
    let records = received_records(received, early, from + 5);
    let copies = super::channel::message_copies(args, message, records);
    lemma_ran_any(log, described, copies, close_asks(abi, received), result);
    assert(log[described].ask == copies[0]);
    assert(log[described + 1].ask == copies[1]);
    assert(log[described + 2].ask == copies[2]);
    law_messages_are_described_field_by_field(message.info);
    law_received_handles_follow_one_another(received, early, from + 5);
    lemma_metadata_asks(received);
    let asks = metadata_asks(received);
    assert(message.bytes.take(message.info.byte_count as int) == message.bytes.subrange(
        0,
        message.info.byte_count as int,
    ));
    assert forall|i: int| 0 <= i < count implies {
        let one = records.subrange(16 * i, 16 * i + 16);
        &&& le32_at(one, 0) == (#[trigger] message.handles[i]).0
        &&& le32_at(one, 4) == log[from + 5 + 2 * i].answer->Bits_0->Ok_0
        &&& le32_at(one, 8) == log[from + 6 + 2 * i].answer->Bits_0->Ok_0
        &&& log[from + 5 + 2 * i].ask == Ask::Plain(Call::HandleRights { handle: message.handles[i] })
        &&& log[from + 6 + 2 * i].ask == Ask::Plain(Call::ObjectType { handle: message.handles[i] })
    } by {
        assert(received[i] == message.handles[i]);
        let rights = early[from + 5 + 2 * i].answer->Bits_0->Ok_0;
        let kind = early[from + 5 + 2 * i + 1].answer->Bits_0->Ok_0;
        law_received_handles_are_described_field_by_field(received[i], rights, kind);
        assert(early[from + 5 + 2 * i] == log[from + 5 + 2 * i]);
        assert(early[from + 5 + 2 * i + 1] == log[from + 6 + 2 * i]);
        assert(early[from + 5 + (2 * i)].ask == asks[2 * i]);
        assert(early[from + 5 + (2 * i + 1)].ask == asks[2 * i + 1]);
    }
}

/// A plan that went through was asked step by step.
proof fn lemma_ran_any(
    log: Seq<Event>,
    base: int,
    plan: Seq<Ask>,
    undo: Seq<Ask>,
    result: Result<(), Status>,
)
    requires
        ran(log, base, plan, 0, undo, result),
        result is Ok,
    ensures
        log.len() == base + plan.len(),
        forall|i: int|
            base <= i < log.len() ==> (#[trigger] log[i]).ask == plan[i - base]
                && log[i].refused() is None,
{
    assert forall|i: int| base <= i < log.len() implies (#[trigger] log[i]).ask == plan[i - base]
        && log[i].refused() is None by {
        assert(log[base + (i - base)].ask == plan[i - base]);
    }
}

/// The rights of each handle are asked for, then its type.
proof fn lemma_metadata_asks(handles: Seq<Handle>)
    ensures
        metadata_asks(handles).len() == 2 * handles.len(),
        forall|i: int|
            0 <= i < handles.len() ==> metadata_asks(handles)[2 * i] == Ask::Plain(
                Call::HandleRights { handle: #[trigger] handles[i] },
            ) && metadata_asks(handles)[2 * i + 1] == Ask::Plain(
                Call::ObjectType { handle: handles[i] },
            ),
    decreases handles.len(),
{
    if handles.len() > 0 {
        let front = handles.drop_last();
        lemma_metadata_asks(front);
        assert forall|i: int| 0 <= i < handles.len() implies metadata_asks(handles)[2 * i]
            == Ask::Plain(Call::HandleRights { handle: #[trigger] handles[i] }) && metadata_asks(
            handles,
        )[2 * i + 1] == Ask::Plain(Call::ObjectType { handle: handles[i] }) by {
            if i < front.len() {
                assert(front[i] == handles[i]);
            }
        }
    }
}

/// A thread begins at the entry, with the argument, the stack and the thread-local base of the
/// record. Its number is told where the record says; where that cannot be done, the same thread is
/// given up.
#[verifier::rlimit(40)]
pub proof fn law_threads_begin_as_the_record_says(
    abi: Abi,
    call: SyscallContext,
    before: Seq<Event>,
    log: Seq<Event>,
    dispatched: Result<DispatchResult, Status>,
)
    requires
        called(abi, SyscallNumber::ThreadCreate, call, before, log, dispatched),
    ensures
        ({
            let from = before.len() as int;
            let record = log[from].bytes();
            let thread = log[from + 2].number();
            &&& log.len() > from ==> log[from].ask == Ask::Plain(Call::CopyIn { address: call.registers.rdi, length: 56 })
            &&& log.len() > from + 2 ==> {
                &&& log[from + 2].ask matches Ask::Plain(
                    Call::CreateThread { entry, argument, stack_size, tls_base },
                )
                &&& entry == le64_at(record, 8)
                &&& argument == le64_at(record, 16)
                &&& stack_size == le64_at(record, 24)
                &&& tls_base == le64_at(record, 32)
            }
            &&& log.len() > from + 3 ==> told_number(log[from + 3], le64_at(record, 48) as u64, thread)
            &&& dispatched is Ok ==> log.len() == from + 4 && log[from + 2].refused() is None && log[from + 3].refused() is None
            &&& log.len() > from + 3 && log[from + 3].refused() is Some ==> log.len() == from + 5 && log[from + 4].ask == Ask::Plain(
                Call::AbortThread { thread },
            )
        }),
{
    let from = before.len() as int;
    let result = choose|result: Result<(), Status>| #[trigger]
        did_thread_create(abi, call.registers.rdi, before, log, result) && dispatched == over(result);
    assert(did_thread_create(abi, call.registers.rdi, before, log, result));
    let record = log[from].bytes();
    law_thread_records_read_field_by_field(abi, record);
    if log[from].refused() is None && thread_args_in(abi, record) is Ok {
        let args = thread_args_in(abi, record)->Ok_0;
        let first = seq![
            Ask::Plain(Call::CheckOutput { address: args.output_address, length: 8 }),
            Ask::Plain(
                Call::CreateThread {
                    entry: args.entry,
                    argument: args.argument,
                    stack_size: args.stack_size,
                    tls_base: args.tls_base,
                },
            ),
        ];
        if failed_in(log, from + 1, first, result) {
            lemma_failed(log, from + 1, first, result);
            if log.len() > from + 2 {
                assert(log[from + 2].ask == first[1]);
            }
        } else {
            lemma_passed(log, from + 1, first);
            assert(log[from + 2].ask == first[1]);
            let thread = log[from + 2].number();
            lemma_placed(
                args.output_address,
                thread,
                Call::AbortThread { thread },
                log,
                from + 3,
                result,
            );
        }
    }
}

/// A thread that sleeps does so until the time that it names, which no negative number does, and
/// blocks where the kernel says that the time has not come.
pub proof fn law_sleepers_sleep_until_the_deadline(
    abi: Abi,
    call: SyscallContext,
    before: Seq<Event>,
    log: Seq<Event>,
    dispatched: Result<DispatchResult, Status>,
)
    requires
        called(abi, SyscallNumber::ThreadSleepUntil, call, before, log, dispatched),
    ensures
        ({
            let from = before.len() as int;
            &&& call.registers.rdi > i64::MAX ==> log == before && dispatched == Err::<DispatchResult, Status>(Status::InvalidArgument)
            &&& call.registers.rdi <= i64::MAX ==> {
                &&& log.len() == from + 1
                &&& log[from].ask == Ask::Plain(
                    Call::SleepThread { thread: call.thread, deadline_ns: call.registers.rdi, now_ns: call.now_ns },
                )
                &&& log[from].answer->Flag_0 == Ok::<bool, Status>(true) <==> dispatched == Ok::<DispatchResult, Status>(DispatchResult::Blocked)
                &&& log[from].answer->Flag_0 == Ok::<bool, Status>(false) ==> dispatched == Ok::<DispatchResult, Status>(
                    DispatchResult::Complete(Status::Success),
                )
            }
        }),
{
    let from = before.len() as int;
    let result = choose|result: Result<bool, Status>| #[trigger]
        did_thread_sleep_until(abi, call.thread, call.registers.rdi, call.now_ns, before, log, result) && dispatched == blocking(result);
    assert(did_thread_sleep_until(abi, call.thread, call.registers.rdi, call.now_ns, before, log, result));
    assert(signed64(call.registers.rdi as int) < 0 <==> call.registers.rdi > i64::MAX);
}

/// The thread that the caller names is detached, and reaped where it is already over.
pub proof fn law_detached_threads_are_reaped_once_over(
    abi: Abi,
    call: SyscallContext,
    before: Seq<Event>,
    log: Seq<Event>,
    dispatched: Result<DispatchResult, Status>,
)
    requires
        called(abi, SyscallNumber::ThreadDetach, call, before, log, dispatched),
    ensures
        ({
            let from = before.len() as int;
            &&& log.len() > from
            &&& log[from].ask == Ask::Plain(Call::DetachThread { thread: call.registers.rdi })
            &&& log[from].answer->Flag_0 == Ok::<bool, Status>(true) <==> log.len() == from + 2
            &&& log.len() == from + 2 ==> log[from + 1].ask == Ask::Plain(Call::ReapThread { thread: call.registers.rdi })
            &&& log[from].answer->Flag_0 == Ok::<bool, Status>(false) ==> dispatched is Ok
            &&& log[from].answer->Flag_0 is Err ==> dispatched is Err
        }),
{
    let from = before.len() as int;
    let result = choose|result: Result<(), Status>| #[trigger]
        did_thread_detach(abi, call.registers.rdi, before, log, result) && dispatched == over(result);
    assert(did_thread_detach(abi, call.registers.rdi, before, log, result));
    if log[from].answer->Flag_0 == Ok::<bool, Status>(true) {
        let plan = seq![Ask::Plain(Call::ReapThread { thread: call.registers.rdi })];
        lemma_ran(log, from + 1, plan, result);
        assert(log[from + 1].ask == plan[0]);
    }
}

/// A join waits for the thread that the caller names, until the deadline that it names. Where the
/// thread is over, what is told, where the caller says, is told of that thread, and that thread is
/// reaped.
#[verifier::rlimit(40)]
pub proof fn law_joins_tell_of_the_thread_that_is_joined(
    abi: Abi,
    call: SyscallContext,
    before: Seq<Event>,
    log: Seq<Event>,
    dispatched: Result<DispatchResult, Status>,
)
    requires
        called(abi, SyscallNumber::ThreadJoin, call, before, log, dispatched),
    ensures
        ({
            let from = before.len() as int;
            &&& dispatched is Ok ==> {
                &&& call.registers.r8 == abi.versions.thread_info && call.registers.r10 == 64 && call.registers.rsi <= i64::MAX
                &&& log[from + 1].ask matches Ask::Plain(
                    Call::StartJoin { caller, target, deadline, output_address, now_ns },
                )
                &&& caller == call.thread && target == call.registers.rdi && output_address == call.registers.rdx && now_ns == call.now_ns
                &&& deadline == if call.registers.rsi == abi.deadline_infinite {
                    WaitDeadline::Infinite
                } else {
                    WaitDeadline::At(call.registers.rsi)
                }
            }
            &&& dispatched == Ok::<DispatchResult, Status>(DispatchResult::Blocked) ==> log.len() == from + 2
                && log[from + 1].answer->Flag_0 == Ok::<bool, Status>(true)
            &&& dispatched == Ok::<DispatchResult, Status>(DispatchResult::Complete(Status::Success)) ==> {
                &&& log.len() == from + 5
                &&& log[from + 2].ask == Ask::Thread(call.registers.rdi)
                &&& log[from + 3].ask matches Ask::With(Call::CopyOut { address }, told)
                &&& address == call.registers.rdx
                &&& tells_of_thread(abi, told, call.registers.rdi, log[from + 2].answer->Thread_0->Ok_0)
                &&& log[from + 4].ask == Ask::Plain(Call::ReapThread { thread: call.registers.rdi })
            }
        }),
{
    let from = before.len() as int;
    let result = choose|result: Result<bool, Status>| #[trigger]
        did_thread_join(abi, call.thread, call.registers.rdi, call.registers.rsi, call.registers.rdx, call.registers.r10, call.registers.r8, call.now_ns, before, log, result) && dispatched == blocking(result);
    assert(did_thread_join(abi, call.thread, call.registers.rdi, call.registers.rsi, call.registers.rdx, call.registers.r10, call.registers.r8, call.now_ns, before, log, result));
    if dispatched is Ok {
        assert(signed64(call.registers.rsi as int) < 0 <==> call.registers.rsi > i64::MAX);
        if log[from + 1].answer->Flag_0 == Ok::<bool, Status>(false) {
            let rest = thread_info_plan(abi, call.registers.rdi, call.registers.rdx, log, from + 2).push(
                Ask::Plain(Call::ReapThread { thread: call.registers.rdi }),
            );
            lemma_passed(log, from + 2, rest);
            assert(log[from + 2].ask == rest[0]);
            assert(log[from + 3].ask == rest[1]);
            assert(log[from + 4].ask == rest[2]);
            law_threads_are_described_field_by_field(
                abi,
                call.registers.rdi,
                log[from + 2].answer->Thread_0->Ok_0,
            );
        }
    }
}

/// These bytes tell this of a thread.
pub open spec fn tells_of_thread(abi: Abi, told: Seq<u8>, thread: u64, facts: ThreadFacts) -> bool {
    &&& told.len() == 64
    &&& le64_at(told, 16) == thread
    &&& le64_at(told, 48) == facts.cpu_time_ns
    &&& le64_at(told, 56) == facts.preemption_count
    &&& le32_at(told, 8) == (match facts.state {
        ThreadState::Ready => abi.thread_states.running,
        ThreadState::Blocked => abi.thread_states.blocked,
        ThreadState::Exited(_) => abi.thread_states.exited,
        ThreadState::Faulted { .. } => abi.thread_states.faulted,
        ThreadState::Terminated => abi.thread_states.terminated,
    })
    &&& facts.state matches ThreadState::Exited(code) ==> le32_at(told, 24) == (if code < 0 {
        code + 0x1_0000_0000
    } else {
        code as int
    })
    &&& facts.state matches ThreadState::Faulted { reason, code, address } ==> le32_at(told, 28)
        == abi.faults.number(reason) && le64_at(told, 32) == code && (
    address matches Some(at) ==> le64_at(told, 40) == at)
}

/// What is told of a thread, where the caller says, is told of the thread that the caller names.
#[verifier::rlimit(30)]
pub proof fn law_a_thread_is_told_of_by_its_number(
    abi: Abi,
    call: SyscallContext,
    before: Seq<Event>,
    log: Seq<Event>,
    dispatched: Result<DispatchResult, Status>,
)
    requires
        called(abi, SyscallNumber::ThreadGetInfo, call, before, log, dispatched),
        dispatched is Ok,
    ensures
        ({
            let from = before.len() as int;
            &&& call.registers.r10 == abi.versions.thread_info && call.registers.rdx == 64
            &&& log.len() == from + 2
            &&& log[from].ask == Ask::Thread(call.registers.rdi)
            &&& log[from + 1].ask matches Ask::With(Call::CopyOut { address }, told)
            &&& address == call.registers.rsi
            &&& tells_of_thread(abi, told, call.registers.rdi, log[from].answer->Thread_0->Ok_0)
        }),
{
    let from = before.len() as int;
    let result = choose|result: Result<(), Status>| #[trigger]
        did_thread_get_info(abi, call.registers.rdi, call.registers.rsi, call.registers.rdx, call.registers.r10, before, log, result) && dispatched == over(result);
    assert(did_thread_get_info(abi, call.registers.rdi, call.registers.rsi, call.registers.rdx, call.registers.r10, before, log, result));
    let plan = thread_info_plan(abi, call.registers.rdi, call.registers.rsi, log, from);
    lemma_ran(log, from, plan, result);
    assert(log[from].ask == plan[0]);
    assert(log[from + 1].ask == plan[1]);
    law_threads_are_described_field_by_field(abi, call.registers.rdi, log[from].answer->Thread_0->Ok_0);
}

/// What is told of the scheduling of a thread, where the caller says, is told of the thread that
/// the caller names, each count in its own place.
#[verifier::rlimit(40)]
pub proof fn law_the_scheduling_of_a_thread_is_told_by_its_number(
    abi: Abi,
    call: SyscallContext,
    before: Seq<Event>,
    log: Seq<Event>,
    dispatched: Result<DispatchResult, Status>,
)
    requires
        called(abi, SyscallNumber::ThreadGetSchedulingInfo, call, before, log, dispatched),
        dispatched is Ok,
    ensures
        ({
            let from = before.len() as int;
            let facts = log[from].answer->Scheduling_0->Ok_0;
            &&& call.registers.r10 == abi.versions.thread_scheduling_info && call.registers.rdx == 112
            &&& log.len() == from + 2
            &&& log[from].ask == Ask::Scheduling(call.registers.rdi)
            &&& log[from + 1].ask matches Ask::With(Call::CopyOut { address }, told)
            &&& address == call.registers.rsi
            &&& told.len() == 112
            &&& le32_at(told, 8) == class_place(facts.base_class)
            &&& le32_at(told, 12) == class_place(facts.effective_class)
            &&& le64_at(told, 24) == facts.budget_remaining_ns
            &&& le64_at(told, 32) == facts.cpu_time_ns
            &&& le64_at(told, 40) == facts.runnable_wait_ns
            &&& le64_at(told, 48) == facts.wake_latency_ns
            &&& le64_at(told, 56) == facts.maximum_wake_latency_ns
            &&& le64_at(told, 64) == facts.wake_latency_samples
            &&& le64_at(told, 72) == facts.wake_latency_target_misses
            &&& le64_at(told, 80) == facts.context_switches
            &&& le64_at(told, 88) == facts.deadline_misses
            &&& le64_at(told, 96) == facts.throttling_events
            &&& le64_at(told, 104) == facts.throttled_time_ns
        }),
{
    let from = before.len() as int;
    let result = choose|result: Result<(), Status>| #[trigger]
        did_thread_get_scheduling_info(abi, call.registers.rdi, call.registers.rsi, call.registers.rdx, call.registers.r10, before, log, result) && dispatched == over(result);
    assert(did_thread_get_scheduling_info(abi, call.registers.rdi, call.registers.rsi, call.registers.rdx, call.registers.r10, before, log, result));
    let facts = log[from].answer->Scheduling_0->Ok_0;
    let plan = seq![
        Ask::Scheduling(call.registers.rdi),
        Ask::With(Call::CopyOut { address: call.registers.rsi }, scheduling_record(abi, facts)),
    ];
    lemma_ran(log, from, plan, result);
    assert(log[from].ask == plan[0]);
    assert(log[from + 1].ask == plan[1]);
    law_scheduling_is_described_field_by_field(abi, facts);
}

/// A number that a caller names a class by, and the class.
pub open spec fn class_named(abi: Abi, raw: u64, class: SchedulingClass) -> bool {
    match class {
        SchedulingClass::Critical => raw == abi.classes.critical,
        SchedulingClass::Audio => raw == abi.classes.audio,
        SchedulingClass::Interactive => raw == abi.classes.interactive,
        SchedulingClass::Normal => raw == abi.classes.normal,
        SchedulingClass::Background => raw == abi.classes.background,
    }
}

/// The thread that the caller names is given the class that the caller names; a number that names
/// none is refused.
pub proof fn law_classes_are_set_as_the_caller_says(
    abi: Abi,
    call: SyscallContext,
    before: Seq<Event>,
    log: Seq<Event>,
    dispatched: Result<DispatchResult, Status>,
)
    requires
        called(abi, SyscallNumber::ThreadSetSchedulingClass, call, before, log, dispatched),
    ensures
        ({
            let from = before.len() as int;
            &&& log.len() > from ==> {
                &&& log.len() == from + 1
                &&& log[from].ask matches Ask::Plain(Call::SetClass { thread, class })
                &&& thread == call.registers.rdi
                &&& class_named(abi, call.registers.rsi, class)
            }
            &&& dispatched is Ok ==> log.len() > from
            &&& (forall|class: SchedulingClass| !#[trigger] class_named(abi, call.registers.rsi, class)) <==> log.len() == from
        }),
{
    let from = before.len() as int;
    let result = choose|result: Result<(), Status>| #[trigger]
        did_thread_set_scheduling_class(abi, call.registers.rdi, call.registers.rsi, before, log, result) && dispatched == over(result);
    assert(did_thread_set_scheduling_class(abi, call.registers.rdi, call.registers.rsi, before, log, result));
    if super::threads::class_in(abi, call.registers.rsi) is Ok {
        let class = super::threads::class_in(abi, call.registers.rsi)->Ok_0;
        assert(class_named(abi, call.registers.rsi, class));
        let plan = seq![Ask::Plain(Call::SetClass { thread: call.registers.rdi, class })];
        lemma_ran(log, from, plan, result);
        assert(log[from].ask == plan[0]);
    }
}

/// With a handle that gives authority a thread is given the audio or the interactive class and no
/// other, under the lease that the handle gives for that class.
#[verifier::rlimit(20)]
pub proof fn law_authority_reaches_only_two_classes(
    abi: Abi,
    call: SyscallContext,
    before: Seq<Event>,
    log: Seq<Event>,
    dispatched: Result<DispatchResult, Status>,
)
    requires
        called(abi, SyscallNumber::ThreadSetSchedulingClassWithAuthority, call, before, log, dispatched),
    ensures
        ({
            let from = before.len() as int;
            &&& log.len() > from ==> {
                &&& log[from].ask matches Ask::Plain(Call::SchedulingLease { handle, class: leased })
                &&& handle.0 == call.registers.rdx
                &&& leased is Audio || leased is Interactive
                &&& class_named(abi, call.registers.rsi, leased)
                &&& log.len() > from + 1 ==> log.len() == from + 2 && log[from + 1].ask == Ask::Plain(
                    Call::SetClassWithLease { thread: call.registers.rdi, class: leased, lease: log[from].number() },
                ) && log[from].refused() is None
            }
            &&& dispatched is Ok ==> log.len() == from + 2
        }),
{
    let from = before.len() as int;
    let result = choose|result: Result<(), Status>| #[trigger]
        did_thread_set_scheduling_class_with_authority(abi, call.registers.rdi, call.registers.rsi, call.registers.rdx, before, log, result) && dispatched == over(result);
    assert(did_thread_set_scheduling_class_with_authority(abi, call.registers.rdi, call.registers.rsi, call.registers.rdx, before, log, result));
    if super::threads::class_in(abi, call.registers.rsi) is Ok && call.registers.rdx <= u32::MAX {
        let class = super::threads::class_in(abi, call.registers.rsi)->Ok_0;
        if class == SchedulingClass::Audio || class == SchedulingClass::Interactive {
            let plan = seq![
                Ask::Plain(Call::SchedulingLease { handle: Handle(call.registers.rdx as u32), class }),
                Ask::Plain(
                    Call::SetClassWithLease { thread: call.registers.rdi, class, lease: log[from].number() },
                ),
            ];
            lemma_ran(log, from, plan, result);
            assert(log[from].ask == plan[0]);
            if log.len() > from + 1 {
                assert(log[from + 1].ask == plan[1]);
            }
        }
    }
}

/// What is told of a process, where the caller says, is told of the process that the handle names,
/// each fact in its own place.
#[verifier::rlimit(30)]
pub proof fn law_a_process_is_told_of_by_its_handle(
    abi: Abi,
    call: SyscallContext,
    before: Seq<Event>,
    log: Seq<Event>,
    dispatched: Result<DispatchResult, Status>,
)
    requires
        called(abi, SyscallNumber::ProcessGetInfo, call, before, log, dispatched),
        dispatched is Ok,
    ensures
        ({
            let from = before.len() as int;
            let facts = log[from + 1].answer->Process_0->Ok_0;
            &&& log.len() == from + 3
            &&& log[from + 1].ask matches Ask::ProcessInfo(handle)
            &&& handle.0 == call.registers.rdi
            &&& log[from + 2].ask matches Ask::With(Call::CopyOut { address }, told)
            &&& address == call.registers.rsi
            &&& told.len() == 32
            &&& le32_at(told, 0) == facts.state
            &&& le32_at(told, 4) == facts.cause
            &&& le32_at(told, 8) == (if facts.exit_code < 0 {
                facts.exit_code + 0x1_0000_0000
            } else {
                facts.exit_code as int
            })
            &&& le32_at(told, 12) == facts.fault
            &&& le64_at(told, 16) == facts.fault_code
            &&& le64_at(told, 24) == facts.fault_address
        }),
{
    let from = before.len() as int;
    let result = choose|result: Result<(), Status>| #[trigger]
        did_process_get_info(abi, call.registers.rdi, call.registers.rsi, before, log, result) && dispatched == over(result);
    assert(did_process_get_info(abi, call.registers.rdi, call.registers.rsi, before, log, result));
    let facts = log[from + 1].answer->Process_0->Ok_0;
    let plan = seq![
        Ask::Plain(Call::CheckOutput { address: call.registers.rsi, length: 32 }),
        Ask::ProcessInfo(Handle(call.registers.rdi as u32)),
        Ask::With(Call::CopyOut { address: call.registers.rsi }, process_record(facts)),
    ];
    lemma_ran(log, from, plan, result);
    assert(log[from + 1].ask == plan[1]);
    assert(log[from + 2].ask == plan[2]);
    law_processes_are_described_field_by_field(facts);
}

/// What is told of a request to power off is told where the caller says, for the handle that the
/// caller names, each fact in its own place.
#[verifier::rlimit(30)]
pub proof fn law_power_is_told_of_by_its_handle(
    abi: Abi,
    call: SyscallContext,
    before: Seq<Event>,
    log: Seq<Event>,
    dispatched: Result<DispatchResult, Status>,
)
    requires
        called(abi, SyscallNumber::SystemPowerGetInfo, call, before, log, dispatched),
        dispatched is Ok,
    ensures
        ({
            let from = before.len() as int;
            let facts = log[from + 1].answer->Power_0->Ok_0;
            &&& log.len() == from + 3
            &&& log[from + 1].ask matches Ask::PowerInfo(handle)
            &&& handle.0 == call.registers.rdi
            &&& log[from + 2].ask matches Ask::With(Call::CopyOut { address }, told)
            &&& address == call.registers.rsi
            &&& told.len() == 32
            &&& le32_at(told, 0) == facts.state
            &&& le32_at(told, 4) == facts.action
            &&& le32_at(told, 8) == facts.flags
            &&& le64_at(told, 16) == facts.sequence
            &&& le64_at(told, 24) == facts.deadline_ns
        }),
{
    let from = before.len() as int;
    let result = choose|result: Result<(), Status>| #[trigger]
        did_system_power_get_info(abi, call.registers.rdi, call.registers.rsi, before, log, result) && dispatched == over(result);
    assert(did_system_power_get_info(abi, call.registers.rdi, call.registers.rsi, before, log, result));
    let facts = log[from + 1].answer->Power_0->Ok_0;
    let plan = seq![
        Ask::Plain(Call::CheckOutput { address: call.registers.rsi, length: 32 }),
        Ask::PowerInfo(Handle(call.registers.rdi as u32)),
        Ask::With(Call::CopyOut { address: call.registers.rsi }, power_record(facts)),
    ];
    lemma_ran(log, from, plan, result);
    assert(log[from + 1].ask == plan[1]);
    assert(log[from + 2].ask == plan[2]);
    law_power_is_described_field_by_field(facts);
}

/// A request to power off is made by the handle that the caller names, for the action and with the
/// flags that the caller asks for. It takes effect two seconds after the call, or at the end of
/// time where that comes first.
#[verifier::rlimit(20)]
pub proof fn law_power_requests_may_be_canceled_for_two_seconds(
    abi: Abi,
    call: SyscallContext,
    before: Seq<Event>,
    log: Seq<Event>,
    dispatched: Result<DispatchResult, Status>,
)
    requires
        called(abi, SyscallNumber::SystemPowerRequest, call, before, log, dispatched),
    ensures
        ({
            let from = before.len() as int;
            &&& log.len() > from ==> (log[from].ask matches Ask::Plain(Call::IsPowerAction { action }) && action == call.registers.rsi)
            &&& log.len() > from + 1 ==> {
                &&& log.len() == from + 2
                &&& log[from].answer->Flag_0 == Ok::<bool, Status>(true)
                &&& log[from + 1].ask matches Ask::Plain(Call::PowerRequest { handle, action, flags, deadline_ns })
                &&& handle.0 == call.registers.rdi
                &&& action == call.registers.rsi
                &&& flags == call.registers.rdx
                &&& within(flags, abi.power_flags)
                &&& call.now_ns <= u64::MAX - 2_000_000_000 ==> deadline_ns == call.now_ns + 2_000_000_000
                &&& call.now_ns > u64::MAX - 2_000_000_000 ==> deadline_ns == u64::MAX
            }
            &&& dispatched is Ok ==> log.len() == from + 2
        }),
{
    let from = before.len() as int;
    let result = choose|result: Result<(), Status>| #[trigger]
        did_system_power_request(abi, call.registers.rdi, call.registers.rsi, call.registers.rdx, call.now_ns, before, log, result) && dispatched == over(result);
    assert(did_system_power_request(abi, call.registers.rdi, call.registers.rsi, call.registers.rdx, call.now_ns, before, log, result));
    if call.registers.rdi <= u32::MAX && call.registers.rsi <= u32::MAX && log[from].answer->Flag_0 == Ok::<bool, Status>(true)
        && super::wire::flags_in(call.registers.rdx, abi.power_flags) is Ok {
        let deadline_ns = if call.now_ns + 2_000_000_000 > u64::MAX {
            u64::MAX
        } else {
            (call.now_ns + 2_000_000_000) as u64
        };
        let plan = seq![
            Ask::Plain(
                Call::PowerRequest {
                    handle: Handle(call.registers.rdi as u32),
                    action: call.registers.rsi as u32,
                    flags: call.registers.rdx as u32,
                    deadline_ns,
                },
            ),
        ];
        lemma_ran(log, from + 1, plan, result);
        assert(log[from + 1].ask == plan[0]);
    }
}

} // verus!
