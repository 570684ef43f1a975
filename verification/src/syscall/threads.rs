//! System calls on threads.
use vstd::prelude::*;

use crate::bytes::{
    le32_at, le64_at, le_bytes, pattern32, push_i32, push_u32, push_u64, read_u32, read_u64,
    signed64, to_signed, zeros,
};
use crate::thread_scheduler::policy::SchedulingClass;

use super::abi::{Abi, Handle, Status};
use super::kernel::{
    asked_at, ended_at, failed_in, passed, ran_through, rejected, stopped_at, Ask, Call, Event,
    Kernel, SchedulingFacts, Session, ThreadFacts, ThreadState, WaitDeadline,
};
use super::mapping::placed;
use super::wait::{decode_wait_deadline, encode_number, wait_deadline_in};
use super::wire::{decode_handle, handle_in};

verus! {

broadcast use super::heard::group_heard;

/// Bytes of a record of a thread to be made.
pub const THREAD_CREATE_ARGS_SIZE: usize = 56;

/// Bytes of the number of a thread.
pub const THREAD_ID_SIZE: usize = 8;

/// Bytes of what is known of a thread.
pub const THREAD_INFO_SIZE: usize = 64;

/// Bytes of how a thread was scheduled.
pub const THREAD_SCHEDULING_INFO_SIZE: usize = 112;

/// The number of a state.
pub open spec fn state_number(abi: Abi, state: ThreadState) -> u32 {
    match state {
        ThreadState::Ready => abi.thread_states.running,
        ThreadState::Blocked => abi.thread_states.blocked,
        ThreadState::Exited(_) => abi.thread_states.exited,
        ThreadState::Faulted { .. } => abi.thread_states.faulted,
        ThreadState::Terminated => abi.thread_states.terminated,
    }
}

/// The number of a state.
pub fn public_thread_state(abi: &Abi, state: ThreadState) -> (number: u32)
    ensures
        number == state_number(*abi, state),
{
    match state {
        ThreadState::Ready => abi.thread_states.running,
        ThreadState::Blocked => abi.thread_states.blocked,
        ThreadState::Exited(_) => abi.thread_states.exited,
        ThreadState::Faulted { .. } => abi.thread_states.faulted,
        ThreadState::Terminated => abi.thread_states.terminated,
    }
}

/// The code that a thread left behind.
pub open spec fn left_code(state: ThreadState) -> i32 {
    match state {
        ThreadState::Exited(code) => code,
        _ => 0,
    }
}

/// The fault that a thread left behind: its reason, its code and its address.
pub open spec fn left_fault(abi: Abi, state: ThreadState) -> (u32, u64, u64) {
    match state {
        ThreadState::Faulted { reason, code, address } => (
            abi.faults.number(reason),
            code,
            match address {
                Some(at) => at,
                None => 0,
            },
        ),
        _ => (0, 0, 0),
    }
}

/// The record of what is known of a thread.
pub open spec fn thread_record(abi: Abi, thread: u64, facts: ThreadFacts) -> Seq<u8> {
    let (fault, fault_code, fault_address) = left_fault(abi, facts.state);
    le_bytes(abi.versions.thread_info as int, 4) + le_bytes(THREAD_INFO_SIZE as int, 4) + le_bytes(
        state_number(abi, facts.state) as int,
        4,
    ) + zeros(4) + le_bytes(thread as int, 8) + le_bytes(
        pattern32(left_code(facts.state) as int),
        4,
    ) + le_bytes(fault as int, 4) + le_bytes(fault_code as int, 8) + le_bytes(
        fault_address as int,
        8,
    ) + le_bytes(facts.cpu_time_ns as int, 8) + le_bytes(facts.preemption_count as int, 8)
}

/// Writes the record of what is known of a thread.
pub fn encode_thread_info(abi: &Abi, thread: u64, facts: ThreadFacts) -> (output: Vec<u8>)
    ensures
        output@ == thread_record(*abi, thread, facts),
        output@.len() == THREAD_INFO_SIZE,
{
    let code: i32 = match facts.state {
        ThreadState::Exited(code) => code,
        _ => 0,
    };
    let (fault, fault_code, fault_address): (u32, u64, u64) = match facts.state {
        ThreadState::Faulted { reason, code, address } => (
            abi.faults.public_thread_fault(reason),
            code,
            match address {
                Some(at) => at,
                None => 0,
            },
        ),
        _ => (0, 0, 0),
    };
    let mut output: Vec<u8> = Vec::new();
    push_u32(&mut output, abi.versions.thread_info);
    push_u32(&mut output, THREAD_INFO_SIZE as u32);
    push_u32(&mut output, public_thread_state(abi, facts.state));
    crate::bytes::push_zeros(&mut output, 4);
    push_u64(&mut output, thread);
    push_i32(&mut output, code);
    push_u32(&mut output, fault);
    push_u64(&mut output, fault_code);
    push_u64(&mut output, fault_address);
    push_u64(&mut output, facts.cpu_time_ns);
    push_u64(&mut output, facts.preemption_count);
    output
}

/// The record of how a thread was scheduled.
pub open spec fn scheduling_record(abi: Abi, facts: SchedulingFacts) -> Seq<u8> {
    le_bytes(abi.versions.thread_scheduling_info as int, 4) + le_bytes(
        THREAD_SCHEDULING_INFO_SIZE as int,
        4,
    ) + le_bytes(facts.base_class.order(), 4) + le_bytes(facts.effective_class.order(), 4)
        + le_bytes(state_number(abi, facts.state) as int, 4) + zeros(4) + le_bytes(
        facts.budget_remaining_ns as int,
        8,
    ) + le_bytes(facts.cpu_time_ns as int, 8) + le_bytes(facts.runnable_wait_ns as int, 8)
        + le_bytes(facts.wake_latency_ns as int, 8) + le_bytes(
        facts.maximum_wake_latency_ns as int,
        8,
    ) + le_bytes(facts.wake_latency_samples as int, 8) + le_bytes(
        facts.wake_latency_target_misses as int,
        8,
    ) + le_bytes(facts.context_switches as int, 8) + le_bytes(facts.deadline_misses as int, 8)
        + le_bytes(facts.throttling_events as int, 8) + le_bytes(facts.throttled_time_ns as int, 8)
}

/// Writes the record of how a thread was scheduled.
pub fn encode_scheduling_info(abi: &Abi, facts: &SchedulingFacts) -> (output: Vec<u8>)
    ensures
        output@ == scheduling_record(*abi, *facts),
        output@.len() == THREAD_SCHEDULING_INFO_SIZE,
{
    let mut output: Vec<u8> = Vec::new();
    push_u32(&mut output, abi.versions.thread_scheduling_info);
    push_u32(&mut output, THREAD_SCHEDULING_INFO_SIZE as u32);
    push_u32(&mut output, facts.base_class.index() as u32);
    push_u32(&mut output, facts.effective_class.index() as u32);
    push_u32(&mut output, public_thread_state(abi, facts.state));
    crate::bytes::push_zeros(&mut output, 4);
    push_u64(&mut output, facts.budget_remaining_ns);
    push_u64(&mut output, facts.cpu_time_ns);
    push_u64(&mut output, facts.runnable_wait_ns);
    push_u64(&mut output, facts.wake_latency_ns);
    push_u64(&mut output, facts.maximum_wake_latency_ns);
    push_u64(&mut output, facts.wake_latency_samples);
    push_u64(&mut output, facts.wake_latency_target_misses);
    push_u64(&mut output, facts.context_switches);
    push_u64(&mut output, facts.deadline_misses);
    push_u64(&mut output, facts.throttling_events);
    push_u64(&mut output, facts.throttled_time_ns);
    output
}

/// A thread that is to be made.
#[derive(Clone, Copy, Debug, PartialEq, Eq, Structural)]
pub struct ThreadCreateArgs {
    pub entry: u64,
    pub argument: u64,
    pub stack_size: u64,
    pub tls_base: u64,
    pub output_address: u64,
}

/// A record of a thread that is to be made.
pub open spec fn thread_args_in(abi: Abi, raw: Seq<u8>) -> Result<ThreadCreateArgs, Status> {
    if raw.len() != THREAD_CREATE_ARGS_SIZE || le32_at(raw, 0) != abi.versions.thread_create_args
        || le32_at(raw, 4) != THREAD_CREATE_ARGS_SIZE || le32_at(raw, 40) != 0 || le32_at(raw, 44)
        != 0 {
        Err(Status::InvalidArgument)
    } else {
        Ok(
            ThreadCreateArgs {
                entry: le64_at(raw, 8) as u64,
                argument: le64_at(raw, 16) as u64,
                stack_size: le64_at(raw, 24) as u64,
                tls_base: le64_at(raw, 32) as u64,
                output_address: le64_at(raw, 48) as u64,
            },
        )
    }
}

/// Reads a record of a thread that is to be made.
pub fn parse_thread_create_args(abi: &Abi, raw: &[u8]) -> (result: Result<ThreadCreateArgs, Status>)
    ensures
        result == thread_args_in(*abi, raw@),
{
    if raw.len() != THREAD_CREATE_ARGS_SIZE || read_u32(raw, 0) != abi.versions.thread_create_args
        || read_u32(raw, 4) != THREAD_CREATE_ARGS_SIZE as u32 || read_u32(raw, 40) != 0
        || read_u32(raw, 44) != 0 {
        return Err(Status::InvalidArgument);
    }
    Ok(
        ThreadCreateArgs {
            entry: read_u64(raw, 8),
            argument: read_u64(raw, 16),
            stack_size: read_u64(raw, 24),
            tls_base: read_u64(raw, 32),
            output_address: read_u64(raw, 48),
        },
    )
}

/// A thread is made from event `at` on, and its number written down, or the thread is
/// given up.
pub open spec fn thread_made(
    args: ThreadCreateArgs,
    log: Seq<Event>,
    at: int,
    result: Result<(), Status>,
) -> bool {
    let first = seq![
        Ask::Plain(Call::CheckOutput { address: args.output_address, length: THREAD_ID_SIZE }),
        Ask::Plain(
            Call::CreateThread {
                entry: args.entry,
                argument: args.argument,
                stack_size: args.stack_size,
                tls_base: args.tls_base,
            },
        ),
    ];
    let thread = log[at + 1].number();
    ||| failed_in(log, at, first, result)
    ||| passed(log, at, first) && placed(
        args.output_address,
        thread,
        Call::AbortThread { thread },
        log,
        at + 2,
        result,
    )
}

/// The class of a number.
pub open spec fn class_in(abi: Abi, raw: u64) -> Result<SchedulingClass, Status> {
    if raw == abi.classes.critical {
        Ok(SchedulingClass::Critical)
    } else if raw == abi.classes.audio {
        Ok(SchedulingClass::Audio)
    } else if raw == abi.classes.interactive {
        Ok(SchedulingClass::Interactive)
    } else if raw == abi.classes.normal {
        Ok(SchedulingClass::Normal)
    } else if raw == abi.classes.background {
        Ok(SchedulingClass::Background)
    } else {
        Err(Status::InvalidArgument)
    }
}

/// The class of a number.
pub fn decode_scheduling_class(abi: &Abi, raw: u64) -> (result: Result<SchedulingClass, Status>)
    ensures
        result == class_in(*abi, raw),
{
    if raw == abi.classes.critical as u64 {
        Ok(SchedulingClass::Critical)
    } else if raw == abi.classes.audio as u64 {
        Ok(SchedulingClass::Audio)
    } else if raw == abi.classes.interactive as u64 {
        Ok(SchedulingClass::Interactive)
    } else if raw == abi.classes.normal as u64 {
        Ok(SchedulingClass::Normal)
    } else if raw == abi.classes.background as u64 {
        Ok(SchedulingClass::Background)
    } else {
        Err(Status::InvalidArgument)
    }
}

/// What is asked to write down what is known of a thread.
pub open spec fn thread_info_plan(
    abi: Abi,
    thread: u64,
    address: u64,
    log: Seq<Event>,
    at: int,
) -> Seq<Ask> {
    seq![
        Ask::Thread(thread),
        Ask::With(
            Call::CopyOut { address },
            thread_record(abi, thread, log[at].answer->Thread_0->Ok_0),
        ),
    ]
}

/// A query has the version and the size that go together.
pub open spec fn query_fits(version: u64, size: u64, known_version: u32, known_size: usize) -> bool {
    version == known_version && size == known_size
}

/// A join starts at event `at`: it blocks, or what is known of the thread is written down
/// and the thread is reaped.
pub open spec fn joined(
    abi: Abi,
    caller: u64,
    target: u64,
    deadline: WaitDeadline,
    output_address: u64,
    now_ns: u64,
    log: Seq<Event>,
    at: int,
    result: Result<bool, Status>,
) -> bool {
    let rest = thread_info_plan(abi, target, output_address, log, at + 1).push(
        Ask::Plain(Call::ReapThread { thread: target }),
    );
    &&& asked_at(
        log,
        at,
        Ask::Plain(Call::StartJoin { caller, target, deadline, output_address, now_ns }),
    )
    &&& match log[at].answer->Flag_0 {
        Err(status) => stopped_at(log, at, result, status),
        Ok(true) => log.len() == at + 1 && result == Ok::<bool, Status>(true),
        Ok(false) => {
            ||| failed_in(log, at + 1, rest, result)
            ||| passed(log, at + 1, rest) && log.len() == at + 4 && result == Ok::<bool, Status>(
                false,
            )
        },
    }
}

/// What `thread_create` asks for, and what comes of it.
pub open spec fn did_thread_create(
    abi: Abi,
    args_address: u64,
    before: Seq<Event>,
    log: Seq<Event>,
    result: Result<(), Status>,
) -> bool {
    let base = before.len() as int;
    &&& asked_at(
        log,
        base,
        Ask::Plain(
            Call::CopyIn { address: args_address, length: THREAD_CREATE_ARGS_SIZE },
        ),
    )
    &&& if log[base].refused() is Some {
        ended_at(log, base, result)
    } else {
        match thread_args_in(abi, log[base].bytes()) {
            Err(status) => stopped_at(log, base, result, status),
            Ok(args) => thread_made(args, log, base + 1, result),
        }
    }
}

/// What `thread_sleep_until` asks for, and what comes of it.
pub open spec fn did_thread_sleep_until(
    abi: Abi,
    thread: u64,
    raw_deadline: u64,
    now_ns: u64,
    before: Seq<Event>,
    log: Seq<Event>,
    result: Result<bool, Status>,
) -> bool {
    let base = before.len() as int;
    if signed64(raw_deadline as int) < 0 {
        rejected(before, log, result, Status::InvalidArgument)
    } else {
        &&& asked_at(
            log,
            base,
            Ask::Plain(
                Call::SleepThread { thread, deadline_ns: raw_deadline, now_ns },
            ),
        )
        &&& log.len() == base + 1
        &&& result == log[base].answer->Flag_0
    }
}

/// What `thread_wake` asks for, and what comes of it.
pub open spec fn did_thread_wake(
    abi: Abi,
    raw_id: u64,
    before: Seq<Event>,
    log: Seq<Event>,
    result: Result<(), Status>,
) -> bool {
    ran_through(
        log,
        before.len() as int,
        seq![Ask::Plain(Call::WakeThread { thread: raw_id })],
        result,
    )
}

/// What `thread_terminate` asks for, and what comes of it.
pub open spec fn did_thread_terminate(
    abi: Abi,
    raw_id: u64,
    before: Seq<Event>,
    log: Seq<Event>,
    result: Result<(), Status>,
) -> bool {
    ran_through(
        log,
        before.len() as int,
        seq![Ask::Plain(Call::TerminateThread { thread: raw_id })],
        result,
    )
}

/// What `thread_detach` asks for, and what comes of it.
pub open spec fn did_thread_detach(
    abi: Abi,
    raw_id: u64,
    before: Seq<Event>,
    log: Seq<Event>,
    result: Result<(), Status>,
) -> bool {
    let base = before.len() as int;
    &&& asked_at(log, base, Ask::Plain(Call::DetachThread { thread: raw_id }))
    &&& match log[base].answer->Flag_0 {
        Err(status) => stopped_at(log, base, result, status),
        Ok(false) => log.len() == base + 1 && result is Ok,
        Ok(true) => ran_through(
            log,
            base + 1,
            seq![Ask::Plain(Call::ReapThread { thread: raw_id })],
            result,
        ),
    }
}

/// What `thread_join` asks for, and what comes of it.
pub open spec fn did_thread_join(
    abi: Abi,
    caller: u64,
    raw_target: u64,
    raw_deadline: u64,
    output_address: u64,
    output_size: u64,
    version: u64,
    now_ns: u64,
    before: Seq<Event>,
    log: Seq<Event>,
    result: Result<bool, Status>,
) -> bool {
    let base = before.len() as int;
    if !query_fits(version, output_size, abi.versions.thread_info, THREAD_INFO_SIZE) {
        rejected(before, log, result, Status::InvalidArgument)
    } else {
        &&& asked_at(
            log,
            base,
            Ask::Plain(
                Call::CheckOutput { address: output_address, length: THREAD_INFO_SIZE },
            ),
        )
        &&& if log[base].refused() is Some {
            ended_at(log, base, result)
        } else {
            match wait_deadline_in(abi, signed64(raw_deadline as int)) {
                Err(status) => stopped_at(log, base, result, status),
                Ok(deadline) => joined(
                    abi,
                    caller,
                    raw_target,
                    deadline,
                    output_address,
                    now_ns,
                    log,
                    base + 1,
                    result,
                ),
            }
        }
    }
}

/// What `thread_get_info` asks for, and what comes of it.
pub open spec fn did_thread_get_info(
    abi: Abi,
    raw_id: u64,
    output_address: u64,
    output_size: u64,
    version: u64,
    before: Seq<Event>,
    log: Seq<Event>,
    result: Result<(), Status>,
) -> bool {
    let base = before.len() as int;
    if !query_fits(version, output_size, abi.versions.thread_info, THREAD_INFO_SIZE) {
        rejected(before, log, result, Status::InvalidArgument)
    } else {
        ran_through(
            log,
            base,
            thread_info_plan(abi, raw_id, output_address, log, base),
            result,
        )
    }
}

/// What `thread_get_current` asks for, and what comes of it.
pub open spec fn did_thread_get_current(
    abi: Abi,
    thread: u64,
    output_address: u64,
    before: Seq<Event>,
    log: Seq<Event>,
    result: Result<(), Status>,
) -> bool {
    ran_through(
        log,
        before.len() as int,
        seq![
            Ask::With(
                Call::CopyOut { address: output_address },
                le_bytes(thread as int, 8),
            ),
        ],
        result,
    )
}

/// What `thread_set_scheduling_class` asks for, and what comes of it.
pub open spec fn did_thread_set_scheduling_class(
    abi: Abi,
    raw_id: u64,
    raw_class: u64,
    before: Seq<Event>,
    log: Seq<Event>,
    result: Result<(), Status>,
) -> bool {
    match class_in(abi, raw_class) {
        Err(status) => rejected(before, log, result, status),
        Ok(class) => ran_through(
            log,
            before.len() as int,
            seq![Ask::Plain(Call::SetClass { thread: raw_id, class })],
            result,
        ),
    }
}

/// What `thread_set_scheduling_class_with_authority` asks for, and what comes of it.
pub open spec fn did_thread_set_scheduling_class_with_authority(
    abi: Abi,
    raw_id: u64,
    raw_class: u64,
    raw_authority: u64,
    before: Seq<Event>,
    log: Seq<Event>,
    result: Result<(), Status>,
) -> bool {
    let base = before.len() as int;
    match class_in(abi, raw_class) {
        Err(status) => rejected(before, log, result, status),
        Ok(class) => if class != SchedulingClass::Audio && class
            != SchedulingClass::Interactive {
            rejected(before, log, result, Status::AccessDenied)
        } else {
            match handle_in(raw_authority) {
                Err(status) => rejected(before, log, result, status),
                Ok(handle) => ran_through(
                    log,
                    base,
                    seq![
                        Ask::Plain(Call::SchedulingLease { handle, class }),
                        Ask::Plain(
                            Call::SetClassWithLease {
                                thread: raw_id,
                                class,
                                lease: log[base].number(),
                            },
                        ),
                    ],
                    result,
                ),
            }
        },
    }
}

/// What `thread_get_scheduling_info` asks for, and what comes of it.
pub open spec fn did_thread_get_scheduling_info(
    abi: Abi,
    raw_id: u64,
    output_address: u64,
    output_size: u64,
    version: u64,
    before: Seq<Event>,
    log: Seq<Event>,
    result: Result<(), Status>,
) -> bool {
    let base = before.len() as int;
    if !query_fits(
        version,
        output_size,
        abi.versions.thread_scheduling_info,
        THREAD_SCHEDULING_INFO_SIZE,
    ) {
        rejected(before, log, result, Status::InvalidArgument)
    } else {
        ran_through(
            log,
            base,
            seq![
                Ask::Scheduling(raw_id),
                Ask::With(
                    Call::CopyOut { address: output_address },
                    scheduling_record(abi, log[base].answer->Scheduling_0->Ok_0),
                ),
            ],
            result,
        )
    }
}

impl<K: Kernel> Session<K> {
    /// Makes a thread.
    pub fn thread_create(&mut self, args_address: u64) -> (result: Result<(), Status>)
        ensures
            final(self).kept(*old(self)),
            did_thread_create(
                old(self).abi,
                args_address,
                old(self).log@,
                final(self).log@,
                result,
            ),
    {
        let raw: Vec<u8> = self.copy_in(args_address, THREAD_CREATE_ARGS_SIZE)?;
        let args: ThreadCreateArgs = parse_thread_create_args(&self.abi, raw.as_slice())?;
        self.check_output(args.output_address, THREAD_ID_SIZE)?;
        let thread: u64 = self.number(
            Call::CreateThread {
                entry: args.entry,
                argument: args.argument,
                stack_size: args.stack_size,
                tls_base: args.tls_base,
            },
        )?;
        self.place(args.output_address, thread, Call::AbortThread { thread })
    }

    /// Lets a thread sleep; whether it does is the result.
    pub fn thread_sleep_until(&mut self, thread: u64, raw_deadline: u64, now_ns: u64) -> (result: Result<
        bool,
        Status,
    >)
        ensures
            final(self).kept(*old(self)),
            did_thread_sleep_until(
                old(self).abi,
                thread,
                raw_deadline,
                now_ns,
                old(self).log@,
                final(self).log@,
                result,
            ),
    {
        if to_signed(raw_deadline) < 0 {
            return Err(Status::InvalidArgument);
        }
        self.flag(Call::SleepThread { thread, deadline_ns: raw_deadline, now_ns })
    }

    /// Wakes a thread.
    pub fn thread_wake(&mut self, raw_id: u64) -> (result: Result<(), Status>)
        ensures
            final(self).kept(*old(self)),
            did_thread_wake(
                old(self).abi,
                raw_id,
                old(self).log@,
                final(self).log@,
                result,
            ),
    {
        self.done(Call::WakeThread { thread: raw_id })
    }

    /// Ends a thread.
    pub fn thread_terminate(&mut self, raw_id: u64) -> (result: Result<(), Status>)
        ensures
            final(self).kept(*old(self)),
            did_thread_terminate(
                old(self).abi,
                raw_id,
                old(self).log@,
                final(self).log@,
                result,
            ),
    {
        self.done(Call::TerminateThread { thread: raw_id })
    }

    /// Lets a thread go, and reaps it where it has ended.
    pub fn thread_detach(&mut self, raw_id: u64) -> (result: Result<(), Status>)
        ensures
            final(self).kept(*old(self)),
            did_thread_detach(
                old(self).abi,
                raw_id,
                old(self).log@,
                final(self).log@,
                result,
            ),
    {
        let ended: bool = self.flag(Call::DetachThread { thread: raw_id })?;
        if ended {
            self.done(Call::ReapThread { thread: raw_id })?;
        }
        Ok(())
    }

    /// Waits for the end of a thread; whether the caller is blocked is the result.
    pub fn thread_join(
        &mut self,
        caller: u64,
        raw_target: u64,
        raw_deadline: u64,
        output_address: u64,
        output_size: u64,
        version: u64,
        now_ns: u64,
    ) -> (result: Result<bool, Status>)
        ensures
            final(self).kept(*old(self)),
            did_thread_join(
                old(self).abi,
                caller,
                raw_target,
                raw_deadline,
                output_address,
                output_size,
                version,
                now_ns,
                old(self).log@,
                final(self).log@,
                result,
            ),
    {
        if version != self.abi.versions.thread_info as u64 || output_size
            != THREAD_INFO_SIZE as u64 {
            return Err(Status::InvalidArgument);
        }
        self.check_output(output_address, THREAD_INFO_SIZE)?;
        let deadline: WaitDeadline = decode_wait_deadline(&self.abi, to_signed(raw_deadline))?;
        let blocked: bool = self.flag(
            Call::StartJoin { caller, target: raw_target, deadline, output_address, now_ns },
        )?;
        if blocked {
            return Ok(true);
        }
        let facts: ThreadFacts = self.thread(raw_target)?;
        let output: Vec<u8> = encode_thread_info(&self.abi, raw_target, facts);
        self.copy_out(output_address, output.as_slice())?;
        self.done(Call::ReapThread { thread: raw_target })?;
        Ok(false)
    }

    /// Writes down what is known of a thread.
    pub fn thread_get_info(&mut self, raw_id: u64, output_address: u64, output_size: u64, version: u64) -> (result:
        Result<(), Status>)
        ensures
            final(self).kept(*old(self)),
            did_thread_get_info(
                old(self).abi,
                raw_id,
                output_address,
                output_size,
                version,
                old(self).log@,
                final(self).log@,
                result,
            ),
    {
        if version != self.abi.versions.thread_info as u64 || output_size
            != THREAD_INFO_SIZE as u64 {
            return Err(Status::InvalidArgument);
        }
        let facts: ThreadFacts = self.thread(raw_id)?;
        let output: Vec<u8> = encode_thread_info(&self.abi, raw_id, facts);
        self.copy_out(output_address, output.as_slice())
    }

    /// Writes down which thread is running.
    pub fn thread_get_current(&mut self, thread: u64, output_address: u64) -> (result: Result<
        (),
        Status,
    >)
        ensures
            final(self).kept(*old(self)),
            did_thread_get_current(
                old(self).abi,
                thread,
                output_address,
                old(self).log@,
                final(self).log@,
                result,
            ),
    {
        let output: Vec<u8> = encode_number(thread);
        self.copy_out(output_address, output.as_slice())
    }

    /// Gives a thread another scheduling class.
    pub fn thread_set_scheduling_class(&mut self, raw_id: u64, raw_class: u64) -> (result: Result<
        (),
        Status,
    >)
        ensures
            final(self).kept(*old(self)),
            did_thread_set_scheduling_class(
                old(self).abi,
                raw_id,
                raw_class,
                old(self).log@,
                final(self).log@,
                result,
            ),
    {
        let class: SchedulingClass = decode_scheduling_class(&self.abi, raw_class)?;
        self.done(Call::SetClass { thread: raw_id, class })
    }

    /// Gives a thread one of the classes that take an authority.
    pub fn thread_set_scheduling_class_with_authority(
        &mut self,
        raw_id: u64,
        raw_class: u64,
        raw_authority: u64,
    ) -> (result: Result<(), Status>)
        ensures
            final(self).kept(*old(self)),
            did_thread_set_scheduling_class_with_authority(
                old(self).abi,
                raw_id,
                raw_class,
                raw_authority,
                old(self).log@,
                final(self).log@,
                result,
            ),
    {
        let class: SchedulingClass = decode_scheduling_class(&self.abi, raw_class)?;
        if class != SchedulingClass::Audio && class != SchedulingClass::Interactive {
            return Err(Status::AccessDenied);
        }
        let handle: Handle = decode_handle(raw_authority)?;
        let lease: u64 = self.number(Call::SchedulingLease { handle, class })?;
        self.done(Call::SetClassWithLease { thread: raw_id, class, lease })
    }

    /// Writes down how a thread was scheduled.
    pub fn thread_get_scheduling_info(
        &mut self,
        raw_id: u64,
        output_address: u64,
        output_size: u64,
        version: u64,
    ) -> (result: Result<(), Status>)
        ensures
            final(self).kept(*old(self)),
            did_thread_get_scheduling_info(
                old(self).abi,
                raw_id,
                output_address,
                output_size,
                version,
                old(self).log@,
                final(self).log@,
                result,
            ),
    {
        if version != self.abi.versions.thread_scheduling_info as u64 || output_size
            != THREAD_SCHEDULING_INFO_SIZE as u64 {
            return Err(Status::InvalidArgument);
        }
        let facts: SchedulingFacts = self.scheduling(raw_id)?;
        let output: Vec<u8> = encode_scheduling_info(&self.abi, &facts);
        self.copy_out(output_address, output.as_slice())
    }
}

} // verus!
