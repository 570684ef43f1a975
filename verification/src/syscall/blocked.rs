//! System calls that blocked their thread: whether they are over, and how they end.
use vstd::prelude::*;

use crate::bytes::le_bytes;

use super::abi::{register_of, return_register, Abi, Status};
use super::kernel::{
    asked_at, asked_from, failed_in, passed, Ask, BlockedKind, Call, EndedJoin, EndedRequest,
    Event, Kernel, PendingWaitMany, PinnedOutput, Session, ThreadFacts, WaitManyCompletion,
    WaitModel,
};
use super::request_wire::{
    blocked_request_return_status, info_output, output_records, request_output_from_info,
    RequestInfo, RequestSubmitOutput,
};
use super::submission::encode_output;
use super::threads::{encode_thread_info, thread_info_plan};
use super::wait::{encode_number, resolve_wait_completion, wait_outcome};
use super::wire::{encode_wait_items, wait_records};

verus! {

broadcast use super::heard::group_heard;

/// Whether a blocked system call is over.
#[derive(Clone, Copy, Debug, PartialEq, Eq, Structural)]
pub enum BlockedPoll {
    /// Nothing is ready and the deadline has not come.
    Pending,
    /// It is over, and how is kept; the thread is to be told.
    Complete,
}

/// The flag that answers event `at` is set.
pub open spec fn flag_set(log: Seq<Event>, at: int) -> bool {
    log[at].answer->Flag_0 == Ok::<bool, Status>(true)
}

/// Over, if the flag that answers event `at` is set.
pub open spec fn polled(log: Seq<Event>, at: int) -> BlockedPoll {
    if flag_set(log, at) {
        BlockedPoll::Complete
    } else {
        BlockedPoll::Pending
    }
}

/// How far a request has come that nothing is known of.
pub open spec fn lost_output(abi: Abi) -> RequestSubmitOutput {
    RequestSubmitOutput {
        request: abi.invalid_handle,
        state: abi.request_states.failed,
        result: abi.status.code(Status::InvalidHandle),
        result_flags: 0,
        bytes_transferred: 0,
    }
}

/// A blocked request is looked at from event `at` on: one that has ended, or that nothing
/// is known of, is over, and how it ended is kept for its thread.
pub open spec fn request_polled(
    abi: Abi,
    thread: u64,
    log: Seq<Event>,
    at: int,
    poll: BlockedPoll,
) -> bool {
    &&& asked_at(log, at, Ask::Plain(Call::BlockedRequest { thread }))
    &&& match log[at].answer->Number_0 {
        Err(_) => log.len() == at + 1 && poll == BlockedPoll::Pending,
        Ok(request) => {
            &&& asked_at(log, at + 1, Ask::RequestInfo(request))
            &&& match log[at + 1].answer->RequestInfo_0 {
                Some(info) => if abi.request_states.terminal(info.state) {
                    &&& asked_from(
                        log,
                        at + 2,
                        seq![
                            Ask::Plain(
                                Call::StageRequest {
                                    thread,
                                    request,
                                    output: info_output(abi.invalid_handle, info),
                                },
                            ),
                        ],
                    )
                    &&& poll == BlockedPoll::Complete
                } else {
                    log.len() == at + 2 && poll == BlockedPoll::Pending
                },
                None => {
                    &&& asked_from(
                        log,
                        at + 2,
                        seq![
                            Ask::Plain(
                                Call::StageRequest { thread, request, output: lost_output(abi) },
                            ),
                        ],
                    )
                    &&& poll == BlockedPoll::Complete
                },
            }
        },
    }
}

/// A blocked wait after its objects were looked at.
pub open spec fn wait_after(wait: WaitModel, log: Seq<Event>, at: int, now_ns: u64) -> WaitModel {
    match log[at].answer->Poll_0 {
        Err(status) => WaitModel {
            completion: Some(WaitManyCompletion::Failed(status)),
            ..wait
        },
        Ok((ready, items)) => WaitModel {
            items,
            completion: wait_outcome(ready, wait.deadline, now_ns),
            ..wait
        },
    }
}

/// A blocked wait is looked at from event `at` on: one that is not known to be over has its
/// objects looked at. It is put back either way.
pub open spec fn wait_polled(
    thread: u64,
    now_ns: u64,
    log: Seq<Event>,
    at: int,
    poll: BlockedPoll,
) -> bool {
    let wait = log[at].answer->Wait_0;
    &&& asked_at(log, at, Ask::TakeWait(thread))
    &&& if wait.completion is Some {
        &&& asked_from(log, at + 1, seq![Ask::BlockWait { thread, wait }])
        &&& poll == BlockedPoll::Complete
    } else {
        let after = wait_after(wait, log, at + 1, now_ns);
        &&& asked_from(
            log,
            at + 1,
            seq![Ask::Poll(wait.items), Ask::BlockWait { thread, wait: after }],
        )
        &&& poll == if after.completion is Some {
            BlockedPoll::Complete
        } else {
            BlockedPoll::Pending
        }
    }
}

/// A blocked system call is looked at from event `base` on.
pub open spec fn blocked_polled(
    abi: Abi,
    thread: u64,
    now_ns: u64,
    log: Seq<Event>,
    base: int,
    poll: BlockedPoll,
) -> bool {
    &&& asked_at(log, base, Ask::BlockedKind(thread))
    &&& match log[base].answer->BlockedKind_0 {
        None => log.len() == base + 1 && poll == BlockedPoll::Pending,
        Some(BlockedKind::Sleep) => asked_from(
            log,
            base + 1,
            seq![Ask::Plain(Call::PollSleep { thread, now_ns })],
        ) && poll == polled(log, base + 1),
        Some(BlockedKind::Join) => asked_from(
            log,
            base + 1,
            seq![Ask::Plain(Call::PollJoin { thread, now_ns })],
        ) && poll == polled(log, base + 1),
        Some(BlockedKind::Request) => request_polled(abi, thread, log, base + 1, poll),
        Some(BlockedKind::WaitMany) => wait_polled(thread, now_ns, log, base + 1, poll),
    }
}

/// The status of an answer.
pub open spec fn status_of(event: Event) -> Status {
    match event.refused() {
        Some(status) => status,
        None => Status::Success,
    }
}

/// The first of two statuses that is not success.
pub open spec fn first_failure(first: Status, second: Status) -> Status {
    if first == Status::Success {
        second
    } else {
        first
    }
}

/// Bytes were written at event `at` and after, if the process's memory is there.
pub open spec fn written(address: u64, bytes: Seq<u8>, log: Seq<Event>, at: int) -> bool {
    &&& asked_at(log, at, Ask::Plain(Call::AddressSpaceActive))
    &&& flag_set(log, at) ==> asked_at(log, at + 1, Ask::With(Call::CopyOut { address }, bytes))
}

/// Where the log stands after bytes were written.
pub open spec fn written_end(log: Seq<Event>, at: int) -> int {
    if flag_set(log, at) {
        at + 2
    } else {
        at + 1
    }
}

/// How writing bytes went.
pub open spec fn written_status(log: Seq<Event>, at: int) -> Status {
    if flag_set(log, at) {
        status_of(log[at + 1])
    } else {
        Status::InvalidAddress
    }
}

/// A pinned result is written and its pages are given back.
pub open spec fn output_settled(
    output: Option<PinnedOutput>,
    bytes: Seq<u8>,
    log: Seq<Event>,
    at: int,
) -> bool {
    match output {
        None => at <= log.len(),
        Some(pinned) => {
            &&& written(pinned.address, bytes, log, at)
            &&& asked_at(
                log,
                written_end(log, at),
                Ask::Plain(Call::Unpin { pages: pinned.pages }),
            )
        },
    }
}

/// Where the log stands after a pinned result was written.
pub open spec fn output_end(output: Option<PinnedOutput>, log: Seq<Event>, at: int) -> int {
    match output {
        None => at,
        Some(_) => written_end(log, at) + 1,
    }
}

/// How writing a pinned result went, after `so_far`.
pub open spec fn output_status(
    output: Option<PinnedOutput>,
    so_far: Status,
    log: Seq<Event>,
    at: int,
) -> Status {
    match output {
        None => so_far,
        Some(_) => {
            let copied = first_failure(so_far, written_status(log, at));
            if log[written_end(log, at)].refused() is Some {
                first_failure(copied, Status::InvalidAddress)
            } else {
                copied
            }
        },
    }
}

/// A blocked request is over: its results are written, its pages given back, its handle
/// closed, and its thread told.
pub open spec fn request_completed(
    abi: Abi,
    thread: u64,
    ended: EndedRequest,
    log: Seq<Event>,
    at: int,
    status: Status,
) -> bool {
    let middle = output_end(ended.output, log, at);
    let end = output_end(ended.count_output, log, middle);
    let copied = output_status(
        ended.count_output,
        output_status(ended.output, Status::Success, log, at),
        log,
        middle,
    );
    let operation = match ended.operation_status {
        Some(status) => status,
        None => Status::InvalidMessage,
    };
    let outcome = if ended.return_operation_status {
        first_failure(operation, copied)
    } else {
        copied
    };
    &&& output_settled(ended.output, output_records(seq![ended.completion]), log, at)
    &&& output_settled(
        ended.count_output,
        le_bytes(ended.completion.bytes_transferred as int, 8),
        log,
        middle,
    )
    &&& status == first_failure(outcome, status_of(log[end + 1]))
    &&& asked_from(
        log,
        end,
        seq![
            Ask::Plain(Call::CloseHandle { handle: ended.hidden_handle }),
            Ask::Plain(Call::FinishRequest { thread }),
            Ask::Plain(Call::SetReturn { thread, rax: register_of(abi, status) }),
        ],
    )
}

/// What is asked once a thread that was joined has ended.
pub open spec fn join_plan(abi: Abi, join: EndedJoin, log: Seq<Event>, at: int) -> Seq<Ask> {
    thread_info_plan(abi, join.target, join.output_address, log, at).push(
        Ask::Plain(Call::ReapThread { thread: join.target }),
    )
}

/// The end of a join: the thread is told, and lets go of what it waited for.
pub open spec fn join_closed(
    abi: Abi,
    thread: u64,
    join: EndedJoin,
    log: Seq<Event>,
    at: int,
    status: Status,
) -> bool {
    asked_from(
        log,
        at,
        seq![
            Ask::Plain(Call::FinishJoin { thread, target: join.target }),
            Ask::Plain(Call::SetReturn { thread, rax: register_of(abi, status) }),
        ],
    )
}

/// A blocked join is over: what is known of the ended thread is written down, it is
/// reaped, and the joining thread is told.
pub open spec fn join_completed(
    abi: Abi,
    thread: u64,
    join: EndedJoin,
    log: Seq<Event>,
    at: int,
    status: Status,
) -> bool {
    let plan = join_plan(abi, join, log, at);
    match join.completion {
        None => status == Status::ShouldWait && join_closed(abi, thread, join, log, at, status),
        Some(Status::Success) => {
            ||| {
                &&& passed(log, at, plan)
                &&& status == Status::Success
                &&& join_closed(abi, thread, join, log, at + 3, status)
            }
            ||| {
                let end = log.len() - 2;
                &&& at <= end
                &&& failed_in(log.take(end), at, plan, Err::<(), Status>(status))
                &&& join_closed(abi, thread, join, log, end, status)
            }
        },
        Some(ended) => status == ended && join_closed(abi, thread, join, log, at, status),
    }
}

/// What is written when a wait ends.
pub open spec fn wait_writes(wait: WaitModel, completion: WaitManyCompletion) -> Seq<Ask> {
    let items = Ask::With(
        Call::CopyOut { address: wait.items_address },
        wait_records(wait.items),
    );
    match completion {
        WaitManyCompletion::Ready(index) => seq![
            items,
            Ask::With(Call::CopyOut { address: wait.output_address }, le_bytes(index as int, 8)),
        ],
        WaitManyCompletion::Failed(Status::TimedOut) => seq![items],
        WaitManyCompletion::Failed(_) => Seq::empty(),
    }
}

/// The end of a wait: the thread is told, and runs on.
pub open spec fn wait_closed(abi: Abi, thread: u64, log: Seq<Event>, at: int, status: Status) -> bool {
    asked_from(
        log,
        at,
        seq![
            Ask::Plain(Call::SetReturn { thread, rax: register_of(abi, status) }),
            Ask::Plain(Call::ResumeThread { thread }),
        ],
    )
}

/// A blocked wait is over: what became of its objects is written, and its thread is told.
pub open spec fn wait_completed(
    abi: Abi,
    thread: u64,
    wait: WaitModel,
    log: Seq<Event>,
    at: int,
    status: Status,
) -> bool {
    &&& asked_at(log, at, Ask::Plain(Call::AddressSpaceActive))
    &&& if !flag_set(log, at) {
        status == Status::InvalidAddress && wait_closed(abi, thread, log, at + 1, status)
    } else {
        match wait.completion {
            None => status == Status::ShouldWait && wait_closed(abi, thread, log, at + 1, status),
            Some(completion) => {
                let writes = wait_writes(wait, completion);
                ||| {
                    &&& passed(log, at + 1, writes)
                    &&& status == match completion {
                        WaitManyCompletion::Ready(_) => Status::Success,
                        WaitManyCompletion::Failed(ended) => ended,
                    }
                    &&& wait_closed(abi, thread, log, at + 1 + writes.len(), status)
                }
                ||| {
                    let end = log.len() - 2;
                    &&& failed_in(log.take(end), at + 1, writes, Err::<(), Status>(status))
                    &&& wait_closed(abi, thread, log, end, status)
                }
            },
        }
    }
}

/// A blocked system call is ended from event `base` on.
pub open spec fn blocked_completed(
    abi: Abi,
    thread: u64,
    log: Seq<Event>,
    base: int,
    status: Status,
) -> bool {
    &&& asked_at(log, base, Ask::BlockedKind(thread))
    &&& match log[base].answer->BlockedKind_0 {
        Some(BlockedKind::Sleep) => asked_from(
            log,
            base + 1,
            seq![Ask::Plain(Call::CompleteSleep { thread })],
        ) && status == status_of(log[base + 1]),
        Some(BlockedKind::Request) => {
            &&& asked_at(log, base + 1, Ask::EndedRequest(thread))
            &&& match log[base + 1].answer->EndedRequest_0 {
                Err(refused) => log.len() == base + 2 && status == refused,
                Ok(ended) => request_completed(abi, thread, ended, log, base + 2, status),
            }
        },
        Some(BlockedKind::Join) => {
            &&& asked_at(log, base + 1, Ask::EndedJoin(thread))
            &&& match log[base + 1].answer->EndedJoin_0 {
                Err(refused) => log.len() == base + 2 && status == refused,
                Ok(join) => join_completed(abi, thread, join, log, base + 2, status),
            }
        },
        _ => {
            &&& asked_at(log, base + 1, Ask::TakeWait(thread))
            &&& wait_completed(abi, thread, log[base + 1].answer->Wait_0, log, base + 2, status)
        },
    }
}

/// The first of two statuses that is not success.
fn earlier_failure(first: Status, second: Status) -> (status: Status)
    ensures
        status == first_failure(first, second),
{
    if first == Status::Success {
        second
    } else {
        first
    }
}

impl<K: Kernel> Session<K> {
    /// Whether the flag of an answer is set.
    fn is_set(&mut self, call: Call) -> (set: bool)
        requires
            !Ask::Plain(call).tells(),
        ensures
            final(self).kept(*old(self)),
            asked_at(final(self).log@, old(self).log@.len() as int, Ask::Plain(call)),
            final(self).log@.len() == old(self).log@.len() + 1,
            set == flag_set(final(self).log@, old(self).log@.len() as int),
    {
        match self.flag(call) {
            Ok(set) => set,
            Err(_) => false,
        }
    }

    /// Looks at a blocked request.
    fn poll_request(&mut self, thread: u64) -> (poll: BlockedPoll)
        ensures
            final(self).kept(*old(self)),
            request_polled(
                old(self).abi,
                thread,
                final(self).log@,
                old(self).log@.len() as int,
                poll,
            ),
    {
        let request: u64 = match self.number(Call::BlockedRequest { thread }) {
            Ok(request) => request,
            Err(_) => {
                return BlockedPoll::Pending;
            },
        };
        let output: RequestSubmitOutput = match self.request_info(request) {
            Some(info) => {
                if !self.abi.request_states.is_terminal(info.state) {
                    return BlockedPoll::Pending;
                }
                request_output_from_info(self.abi.invalid_handle, info)
            },
            None => RequestSubmitOutput {
                request: self.abi.invalid_handle,
                state: self.abi.request_states.failed,
                result: self.abi.status.raw(Status::InvalidHandle),
                result_flags: 0,
                bytes_transferred: 0,
            },
        };
        let _ = self.done(Call::StageRequest { thread, request, output });
        BlockedPoll::Complete
    }

    /// Looks at a blocked wait.
    fn poll_wait(&mut self, thread: u64, now_ns: u64) -> (poll: BlockedPoll)
        ensures
            final(self).kept(*old(self)),
            wait_polled(thread, now_ns, final(self).log@, old(self).log@.len() as int, poll),
    {
        let mut wait: PendingWaitMany = self.take_wait(thread);
        if wait.completion.is_none() {
            match self.poll(wait.items.as_slice()) {
                Err(status) => {
                    wait.completion = Some(WaitManyCompletion::Failed(status));
                },
                Ok((ready, items)) => {
                    wait.items = items;
                    wait.completion = resolve_wait_completion(ready, wait.deadline, now_ns);
                },
            }
        }
        let complete: bool = wait.completion.is_some();
        self.block_wait(thread, wait);
        if complete {
            BlockedPoll::Complete
        } else {
            BlockedPoll::Pending
        }
    }

    /// Looks at a blocked system call, without the memory of its process.
    pub fn poll_blocked(&mut self, thread: u64, now_ns: u64) -> (poll: BlockedPoll)
        ensures
            final(self).kept(*old(self)),
            blocked_polled(
                old(self).abi,
                thread,
                now_ns,
                final(self).log@,
                old(self).log@.len() as int,
                poll,
            ),
    {
        let over: bool = match self.blocked_kind(thread) {
            None => {
                return BlockedPoll::Pending;
            },
            Some(BlockedKind::Sleep) => self.is_set(Call::PollSleep { thread, now_ns }),
            Some(BlockedKind::Join) => self.is_set(Call::PollJoin { thread, now_ns }),
            Some(BlockedKind::Request) => {
                return self.poll_request(thread);
            },
            Some(BlockedKind::WaitMany) => {
                return self.poll_wait(thread, now_ns);
            },
        };
        if over {
            BlockedPoll::Complete
        } else {
            BlockedPoll::Pending
        }
    }

    /// Writes bytes if the process's memory is there.
    fn write_if_active(&mut self, address: u64, bytes: &[u8]) -> (status: Status)
        ensures
            final(self).kept(*old(self)),
            ({
                let log = final(self).log@;
                let at = old(self).log@.len() as int;
                &&& written(address, bytes@, log, at)
                &&& log.len() == written_end(log, at)
                &&& status == written_status(log, at)
            }),
    {
        if !self.is_set(Call::AddressSpaceActive) {
            return Status::InvalidAddress;
        }
        match self.copy_out(address, bytes) {
            Ok(()) => Status::Success,
            Err(status) => status,
        }
    }

    /// Writes a pinned result and gives its pages back.
    fn settle_output(&mut self, output: Option<PinnedOutput>, bytes: &[u8], so_far: Status) -> (status:
        Status)
        ensures
            final(self).kept(*old(self)),
            ({
                let log = final(self).log@;
                let at = old(self).log@.len() as int;
                &&& output_settled(output, bytes@, log, at)
                &&& log.len() == output_end(output, log, at)
                &&& status == output_status(output, so_far, log, at)
            }),
    {
        match output {
            None => so_far,
            Some(pinned) => {
                let copied: Status = self.write_if_active(pinned.address, bytes);
                let status: Status = earlier_failure(so_far, copied);
                match self.done(Call::Unpin { pages: pinned.pages }) {
                    Ok(()) => status,
                    Err(_) => earlier_failure(status, Status::InvalidAddress),
                }
            },
        }
    }

    /// Ends a blocked request.
    fn complete_request(&mut self, thread: u64, ended: &EndedRequest) -> (status: Status)
        ensures
            final(self).went_on(*old(self)),
            request_completed(
                old(self).abi,
                thread,
                *ended,
                final(self).log@,
                old(self).log@.len() as int,
                status,
            ),
    {
        let operation: Status = match ended.operation_status {
            Some(status) => status,
            None => Status::InvalidMessage,
        };
        let completion: Vec<u8> = encode_output(ended.completion);
        let first: Status = self.settle_output(
            ended.output,
            completion.as_slice(),
            Status::Success,
        );
        let count: Vec<u8> = encode_number(ended.completion.bytes_transferred);
        let copied: Status = self.settle_output(ended.count_output, count.as_slice(), first);
        let outcome: Status = blocked_request_return_status(
            ended.return_operation_status,
            operation,
            copied,
        );
        let _ = self.done(Call::CloseHandle { handle: ended.hidden_handle });
        let status: Status = match self.done(Call::FinishRequest { thread }) {
            Ok(()) => outcome,
            Err(finish) => earlier_failure(outcome, finish),
        };
        let rax: u64 = return_register(&self.abi, status);
        let _ = self.done(Call::SetReturn { thread, rax });
        status
    }

    /// Writes down what is known of a thread that was joined, and reaps it.
    fn collect_joined(&mut self, join: &EndedJoin) -> (result: Result<(), Status>)
        ensures
            final(self).kept(*old(self)),
            ({
                let log = final(self).log@;
                let at = old(self).log@.len() as int;
                let plan = join_plan(old(self).abi, *join, log, at);
                match result {
                    Ok(()) => passed(log, at, plan) && log.len() == at + 3,
                    Err(_) => failed_in(log, at, plan, result),
                }
            }),
    {
        let facts: ThreadFacts = self.thread(join.target)?;
        let output: Vec<u8> = encode_thread_info(&self.abi, join.target, facts);
        self.copy_out(join.output_address, output.as_slice())?;
        self.done(Call::ReapThread { thread: join.target })
    }

    /// Ends a blocked join.
    fn complete_join(&mut self, thread: u64, join: &EndedJoin) -> (status: Status)
        ensures
            final(self).went_on(*old(self)),
            join_completed(
                old(self).abi,
                thread,
                *join,
                final(self).log@,
                old(self).log@.len() as int,
                status,
            ),
    {
        let mut status: Status = match join.completion {
            Some(status) => status,
            None => Status::ShouldWait,
        };
        if status == Status::Success {
            if let Err(refused) = self.collect_joined(join) {
                status = refused;
            }
        }
        let ghost known = self.log@;
        let _ = self.done(Call::FinishJoin { thread, target: join.target });
        let rax: u64 = return_register(&self.abi, status);
        let _ = self.done(Call::SetReturn { thread, rax });
        proof {
            super::kernel::lemma_beginning(known, self.log@);
        }
        status
    }

    /// Writes what became of the objects of a wait.
    fn write_wait(&mut self, wait: &PendingWaitMany, completion: WaitManyCompletion) -> (result: Result<
        (),
        Status,
    >)
        ensures
            final(self).kept(*old(self)),
            ({
                let log = final(self).log@;
                let at = old(self).log@.len() as int;
                let writes = wait_writes(wait.model(), completion);
                match result {
                    Ok(()) => passed(log, at, writes) && log.len() == at + writes.len(),
                    Err(_) => failed_in(log, at, writes, result),
                }
            }),
    {
        match completion {
            WaitManyCompletion::Ready(index) => {
                let items: Vec<u8> = encode_wait_items(wait.items.as_slice());
                self.copy_out(wait.items_address, items.as_slice())?;
                let ready: Vec<u8> = encode_number(index as u64);
                self.copy_out(wait.output_address, ready.as_slice())
            },
            WaitManyCompletion::Failed(Status::TimedOut) => {
                let items: Vec<u8> = encode_wait_items(wait.items.as_slice());
                self.copy_out(wait.items_address, items.as_slice())
            },
            WaitManyCompletion::Failed(_) => Ok(()),
        }
    }

    /// Ends a blocked wait.
    fn complete_wait(&mut self, thread: u64, wait: &PendingWaitMany) -> (status: Status)
        ensures
            final(self).went_on(*old(self)),
            wait_completed(
                old(self).abi,
                thread,
                wait.model(),
                final(self).log@,
                old(self).log@.len() as int,
                status,
            ),
    {
        let active: bool = self.is_set(Call::AddressSpaceActive);
        let status: Status = if !active {
            Status::InvalidAddress
        } else {
            match wait.completion {
                None => Status::ShouldWait,
                Some(completion) => match self.write_wait(wait, completion) {
                    Err(status) => status,
                    Ok(()) => match completion {
                        WaitManyCompletion::Ready(_) => Status::Success,
                        WaitManyCompletion::Failed(status) => status,
                    },
                },
            }
        };
        let ghost known = self.log@;
        let rax: u64 = return_register(&self.abi, status);
        let _ = self.done(Call::SetReturn { thread, rax });
        let _ = self.done(Call::ResumeThread { thread });
        proof {
            super::kernel::lemma_beginning(known, self.log@);
        }
        status
    }

    /// Ends a blocked system call and lets its thread run.
    ///
    /// A wait whose end is not known ends as one that should still wait.
    pub fn complete_blocked(&mut self, thread: u64) -> (status: Status)
        ensures
            final(self).went_on(*old(self)),
            blocked_completed(
                old(self).abi,
                thread,
                final(self).log@,
                old(self).log@.len() as int,
                status,
            ),
    {
        match self.blocked_kind(thread) {
            Some(BlockedKind::Sleep) => match self.done(Call::CompleteSleep { thread }) {
                Ok(()) => Status::Success,
                Err(status) => status,
            },
            Some(BlockedKind::Request) => match self.ended_request(thread) {
                Err(status) => status,
                Ok(ended) => self.complete_request(thread, &ended),
            },
            Some(BlockedKind::Join) => match self.ended_join(thread) {
                Err(status) => status,
                Ok(join) => self.complete_join(thread, &join),
            },
            _ => {
                let wait: PendingWaitMany = self.take_wait(thread);
                self.complete_wait(thread, &wait)
            },
        }
    }
}

/// Every page that a blocked request pinned for its results is given back when the request
/// ends, whatever else fails.
pub proof fn law_ended_requests_unpin(
    abi: Abi,
    thread: u64,
    ended: EndedRequest,
    log: Seq<Event>,
    at: int,
    status: Status,
)
    requires
        0 <= at,
        request_completed(abi, thread, ended, log, at, status),
    ensures
        ended.output matches Some(pinned) ==> exists|i: int|
            at <= i < log.len() && (#[trigger] log[i]).ask == Ask::Plain(
                Call::Unpin { pages: pinned.pages },
            ),
        ended.count_output matches Some(pinned) ==> exists|i: int|
            at <= i < log.len() && (#[trigger] log[i]).ask == Ask::Plain(
                Call::Unpin { pages: pinned.pages },
            ),
{
    let middle = output_end(ended.output, log, at);
    if let Some(pinned) = ended.output {
        assert(log[written_end(log, at)].ask == Ask::Plain(Call::Unpin { pages: pinned.pages }));
    }
    if let Some(pinned) = ended.count_output {
        assert(log[written_end(log, middle)].ask == Ask::Plain(
            Call::Unpin { pages: pinned.pages },
        ));
    }
}

/// A request whose results could not be written, because the memory of the process is not
/// there, does not end as a success; where nothing else failed, it ends with that failure. The
/// wait of the thread is ended, and the thread is told the status.
pub proof fn law_unwritten_results_are_told(
    abi: Abi,
    thread: u64,
    ended: EndedRequest,
    log: Seq<Event>,
    at: int,
    status: Status,
)
    requires
        0 <= at,
        request_completed(abi, thread, ended, log, at, status),
        (ended.output is Some && !flag_set(log, at)) || (ended.count_output is Some && !flag_set(
            log,
            output_end(ended.output, log, at),
        )),
    ensures
        status != Status::Success,
        (!ended.return_operation_status || ended.operation_status == Some(Status::Success)) && (
        ended.output is None || !flag_set(log, at)) ==> status == Status::InvalidAddress,
        log[log.len() - 2].ask == Ask::Plain(Call::FinishRequest { thread }),
        log.last().ask == Ask::Plain(Call::SetReturn { thread, rax: register_of(abi, status) }),
{
    let middle = output_end(ended.output, log, at);
    let end = output_end(ended.count_output, log, middle);
    let asks = seq![
        Ask::Plain(Call::CloseHandle { handle: ended.hidden_handle }),
        Ask::Plain(Call::FinishRequest { thread }),
        Ask::Plain(Call::SetReturn { thread, rax: register_of(abi, status) }),
    ];
    assert(log[end + 1].ask == asks[1]);
    assert(log[end + 2].ask == asks[2]);
}

} // verus!
