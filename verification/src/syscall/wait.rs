//! Waiting for several objects at once.
use vstd::prelude::*;

use crate::bytes::{le64_at, le_bytes, push_u64, read_i64, read_u64, signed64};

use super::abi::{Abi, Status, WAIT_MANY_MAX_ITEMS};
use super::kernel::{
    asked_at, ended_at, failed_in, passed, stopped_at, Ask, Call, DispatchResult, Event, Kernel,
    PendingWaitMany, Session, WaitDeadline, WaitManyCompletion, WaitModel,
};
use super::wire::{
    array_bytes, checked_array_bytes, encode_wait_items, parse_wait_items, wait_items_in,
    wait_records, WaitItem, WAIT_ITEM_SIZE, WAIT_MANY_ARGS_SIZE, WAIT_MANY_OUTPUT_SIZE,
};

verus! {

broadcast use super::heard::group_heard;

/// A deadline that may not be negative.
pub open spec fn wait_deadline_in(abi: Abi, raw: int) -> Result<WaitDeadline, Status> {
    if raw < 0 {
        Err(Status::InvalidArgument)
    } else if raw == abi.deadline_infinite {
        Ok(WaitDeadline::Infinite)
    } else {
        Ok(WaitDeadline::At(raw as u64))
    }
}

/// Reads a deadline that may not be negative.
pub fn decode_wait_deadline(abi: &Abi, raw: i64) -> (result: Result<WaitDeadline, Status>)
    ensures
        result == wait_deadline_in(*abi, raw as int),
{
    if raw < 0 {
        Err(Status::InvalidArgument)
    } else if raw == abi.deadline_infinite {
        Ok(WaitDeadline::Infinite)
    } else {
        Ok(WaitDeadline::At(raw as u64))
    }
}

/// The deadline has come.
pub open spec fn expired(deadline: WaitDeadline, now_ns: u64) -> bool {
    match deadline {
        WaitDeadline::Infinite => false,
        WaitDeadline::At(at) => now_ns >= at,
    }
}

/// How a wait ends: with what is ready, else with its deadline.
pub open spec fn wait_outcome(ready: Option<usize>, deadline: WaitDeadline, now_ns: u64) -> Option<
    WaitManyCompletion,
> {
    match ready {
        Some(index) => Some(WaitManyCompletion::Ready(index)),
        None => if expired(deadline, now_ns) {
            Some(WaitManyCompletion::Failed(Status::TimedOut))
        } else {
            None
        },
    }
}

/// How a wait ends, if it ends now.
pub fn resolve_wait_completion(ready: Option<usize>, deadline: WaitDeadline, now_ns: u64) -> (completion:
    Option<WaitManyCompletion>)
    ensures
        completion == wait_outcome(ready, deadline, now_ns),
{
    match ready {
        Some(index) => Some(WaitManyCompletion::Ready(index)),
        None => {
            let over: bool = match deadline {
                WaitDeadline::Infinite => false,
                WaitDeadline::At(at) => now_ns >= at,
            };
            if over {
                Some(WaitManyCompletion::Failed(Status::TimedOut))
            } else {
                None
            }
        },
    }
}

/// What is waited for.
#[derive(Clone, Copy, Debug, PartialEq, Eq, Structural)]
pub struct WaitManyArgs {
    pub items_address: u64,
    pub items_len: usize,
    pub deadline: WaitDeadline,
}

/// A record of what is waited for.
pub open spec fn wait_args_in(abi: Abi, raw: Seq<u8>) -> Result<WaitManyArgs, Status> {
    let items = array_bytes(
        le64_at(raw, 8) as u64,
        WAIT_ITEM_SIZE,
        WAIT_MANY_MAX_ITEMS as u64,
        Status::OutOfRange,
    );
    match wait_deadline_in(abi, signed64(le64_at(raw, 16))) {
        Err(status) => Err(status),
        Ok(deadline) => if items is Err {
            Err(items->Err_0)
        } else if le64_at(raw, 8) == 0 {
            Err(Status::InvalidArgument)
        } else {
            Ok(
                WaitManyArgs {
                    items_address: le64_at(raw, 0) as u64,
                    items_len: items->Ok_0,
                    deadline,
                },
            )
        },
    }
}

/// Reads a record of what is waited for.
pub fn parse_wait_args(abi: &Abi, raw: &[u8]) -> (result: Result<WaitManyArgs, Status>)
    requires
        raw@.len() == WAIT_MANY_ARGS_SIZE,
    ensures
        result == wait_args_in(*abi, raw@),
        result matches Ok(args) ==> args.items_len % 12 == 0 && args.items_len <= 768,
{
    let deadline: WaitDeadline = decode_wait_deadline(abi, read_i64(raw, 16))?;
    let item_count: u64 = read_u64(raw, 8);
    let items_len: usize = checked_array_bytes(
        item_count,
        WAIT_ITEM_SIZE,
        WAIT_MANY_MAX_ITEMS as u64,
        Status::OutOfRange,
    )?;
    if item_count == 0 {
        return Err(Status::InvalidArgument);
    }
    Ok(WaitManyArgs { items_address: read_u64(raw, 0), items_len, deadline })
}

/// What is checked and read before the objects are looked at.
pub open spec fn wait_checks(args: WaitManyArgs, output_address: u64) -> Seq<Ask> {
    seq![
        Ask::Plain(Call::CheckOutput { address: args.items_address, length: args.items_len }),
        Ask::Plain(Call::CheckOutput { address: output_address, length: WAIT_MANY_OUTPUT_SIZE }),
        Ask::Plain(Call::CopyIn { address: args.items_address, length: args.items_len }),
    ]
}

/// A wait that is over: the objects as they are now, and the one that is ready.
pub open spec fn wait_answers(
    items: Seq<WaitItem>,
    items_address: u64,
    output_address: u64,
    completion: WaitManyCompletion,
) -> Seq<Ask> {
    let state = Ask::With(Call::CopyOut { address: items_address }, wait_records(items));
    match completion {
        WaitManyCompletion::Ready(index) => seq![
            state,
            Ask::With(Call::CopyOut { address: output_address }, le_bytes(index as int, 8)),
        ],
        WaitManyCompletion::Failed(_) => seq![state],
    }
}

/// The status that the end of a wait stands for.
pub open spec fn wait_status(completion: WaitManyCompletion) -> Status {
    match completion {
        WaitManyCompletion::Ready(_) => Status::Success,
        WaitManyCompletion::Failed(status) => status,
    }
}

/// The objects are looked at; the wait is over, or its thread is blocked.
pub open spec fn wait_polled(
    items: Seq<WaitItem>,
    args: WaitManyArgs,
    output_address: u64,
    thread: u64,
    now_ns: u64,
    log: Seq<Event>,
    at: int,
    result: Result<DispatchResult, Status>,
) -> bool {
    &&& asked_at(log, at, Ask::Poll(items))
    &&& match log[at].answer->Poll_0 {
        Err(status) => stopped_at(log, at, result, status),
        Ok((ready, found)) => match wait_outcome(ready, args.deadline, now_ns) {
            Some(completion) => {
                let answers = wait_answers(
                    found,
                    args.items_address,
                    output_address,
                    completion,
                );
                ||| failed_in(log, at + 1, answers, result)
                ||| {
                    &&& passed(log, at + 1, answers)
                    &&& log.len() == at + 1 + answers.len()
                    &&& result == Ok::<DispatchResult, Status>(
                        DispatchResult::Complete(wait_status(completion)),
                    )
                }
            },
            None => {
                &&& asked_at(
                    log,
                    at + 1,
                    Ask::BlockWait {
                        thread,
                        wait: WaitModel {
                            items: found,
                            items_address: args.items_address,
                            output_address,
                            deadline: args.deadline,
                            completion: None,
                        },
                    },
                )
                &&& log.len() == at + 2
                &&& result == Ok::<DispatchResult, Status>(DispatchResult::Blocked)
            },
        },
    }
}

/// A wait: its record and its objects are read and checked, then the objects are looked at.
pub open spec fn wait_submitted(
    abi: Abi,
    thread: u64,
    args_address: u64,
    output_address: u64,
    now_ns: u64,
    log: Seq<Event>,
    base: int,
    result: Result<DispatchResult, Status>,
) -> bool {
    &&& asked_at(
        log,
        base,
        Ask::Plain(Call::CopyIn { address: args_address, length: WAIT_MANY_ARGS_SIZE }),
    )
    &&& if log[base].refused() is Some {
        ended_at(log, base, result)
    } else {
        match wait_args_in(abi, log[base].bytes()) {
            Err(status) => stopped_at(log, base, result, status),
            Ok(args) => {
                let checks = wait_checks(args, output_address);
                ||| failed_in(log, base + 1, checks, result)
                ||| {
                    &&& passed(log, base + 1, checks)
                    &&& match wait_items_in(
                        abi,
                        log[base + 3].bytes(),
                        (args.items_len / 12) as nat,
                    ) {
                        Err(status) => stopped_at(log, base + 3, result, status),
                        Ok(items) => wait_polled(
                            items,
                            args,
                            output_address,
                            thread,
                            now_ns,
                            log,
                            base + 4,
                            result,
                        ),
                    }
                }
            },
        }
    }
}

/// The bytes of a number.
pub fn encode_number(value: u64) -> (bytes: Vec<u8>)
    ensures
        bytes@ == le_bytes(value as int, 8),
{
    let mut bytes: Vec<u8> = Vec::new();
    push_u64(&mut bytes, value);
    assert(bytes@ =~= le_bytes(value as int, 8));
    bytes
}

/// What `wait_many` asks for, and what comes of it.
pub open spec fn did_wait_many(
    abi: Abi,
    thread: u64,
    args_address: u64,
    output_address: u64,
    now_ns: u64,
    before: Seq<Event>,
    log: Seq<Event>,
    dispatched: DispatchResult,
) -> bool {
    exists|result: Result<DispatchResult, Status>| #[trigger]
    wait_submitted(
        abi,
        thread,
        args_address,
        output_address,
        now_ns,
        log,
        before.len() as int,
        result,
    ) && dispatched == settled(result)
}

impl<K: Kernel> Session<K> {
    /// Tells the process how its wait ended.
    fn answer_wait(
        &mut self,
        items: &[WaitItem],
        items_address: u64,
        output_address: u64,
        completion: WaitManyCompletion,
    ) -> (result: Result<DispatchResult, Status>)
        ensures
            final(self).kept(*old(self)),
            ({
                let log = final(self).log@;
                let at = old(self).log@.len() as int;
                let answers = wait_answers(items@, items_address, output_address, completion);
                ||| failed_in(log, at, answers, result)
                ||| {
                    &&& passed(log, at, answers)
                    &&& log.len() == at + answers.len()
                    &&& result == Ok::<DispatchResult, Status>(
                        DispatchResult::Complete(wait_status(completion)),
                    )
                }
            }),
    {
        let encoded: Vec<u8> = encode_wait_items(items);
        self.copy_out(items_address, encoded.as_slice())?;
        match completion {
            WaitManyCompletion::Ready(ready_index) => {
                let index: Vec<u8> = encode_number(ready_index as u64);
                self.copy_out(output_address, index.as_slice())?;
                Ok(DispatchResult::Complete(Status::Success))
            },
            WaitManyCompletion::Failed(status) => Ok(DispatchResult::Complete(status)),
        }
    }

    /// Looks at objects; the wait is over, or the thread is blocked.
    pub fn submit_wait_many(
        &mut self,
        thread: u64,
        args_address: u64,
        output_address: u64,
        now_ns: u64,
    ) -> (result: Result<DispatchResult, Status>)
        ensures
            final(self).kept(*old(self)),
            wait_submitted(
                old(self).abi,
                thread,
                args_address,
                output_address,
                now_ns,
                final(self).log@,
                old(self).log@.len() as int,
                result,
            ),
    {
        let raw_args: Vec<u8> = self.copy_in(args_address, WAIT_MANY_ARGS_SIZE)?;
        let args: WaitManyArgs = parse_wait_args(&self.abi, raw_args.as_slice())?;
        self.check_output(args.items_address, args.items_len)?;
        self.check_output(output_address, WAIT_MANY_OUTPUT_SIZE)?;
        let raw_items: Vec<u8> = self.copy_in(args.items_address, args.items_len)?;
        let items: Vec<WaitItem> = parse_wait_items(&self.abi, raw_items.as_slice())?;
        let (ready, found): (Option<usize>, Vec<WaitItem>) = self.poll(items.as_slice())?;
        match resolve_wait_completion(ready, args.deadline, now_ns) {
            Some(completion) => self.answer_wait(
                found.as_slice(),
                args.items_address,
                output_address,
                completion,
            ),
            None => {
                self.block_wait(
                    thread,
                    PendingWaitMany {
                        items: found,
                        items_address: args.items_address,
                        output_address,
                        deadline: args.deadline,
                        completion: None,
                    },
                );
                Ok(DispatchResult::Blocked)
            },
        }
    }

    /// Looks at objects; the wait is over, or the thread is blocked.
    pub fn wait_many(
        &mut self,
        thread: u64,
        args_address: u64,
        output_address: u64,
        now_ns: u64,
    ) -> (dispatched: DispatchResult)
        ensures
            final(self).kept(*old(self)),
            did_wait_many(
                old(self).abi,
                thread,
                args_address,
                output_address,
                now_ns,
                old(self).log@,
                final(self).log@,
                dispatched,
            ),
    {
        let result: Result<DispatchResult, Status> = self.submit_wait_many(
            thread,
            args_address,
            output_address,
            now_ns,
        );
        settle(result)
    }
}

/// A refused system call is over.
pub open spec fn settled(result: Result<DispatchResult, Status>) -> DispatchResult {
    match result {
        Ok(dispatched) => dispatched,
        Err(status) => DispatchResult::Complete(status),
    }
}

/// A refused system call is over.
pub fn settle(result: Result<DispatchResult, Status>) -> (dispatched: DispatchResult)
    ensures
        dispatched == settled(result),
{
    match result {
        Ok(dispatched) => dispatched,
        Err(status) => DispatchResult::Complete(status),
    }
}

} // verus!
