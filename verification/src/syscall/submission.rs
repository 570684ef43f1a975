//! Submitting a request.
use vstd::prelude::*;

use super::abi::{Abi, Handle, RequestCompletionMode, RequestOperation, Status};
use super::handles::close_asks;
use super::kernel::{
    asked_at, asked_from, ended_at, failed_in, lemma_beginning, passed, ran_through, rejected,
    stopped_at, Ask, Call, DispatchResult, Event, Kernel, PinnedOutput, PreparedBrokerRequest,
    RequestModel, Session,
};
use super::request_wire::{
    completed_output, completed_request_output, encode_outputs, info_output, output_records,
    request_output_from_info, RequestInfo, RequestSubmitOutput, REQUEST_SUBMIT_ARGS_SIZE,
    REQUEST_SUBMIT_OUTPUT_SIZE,
};
use super::requests::{
    checked_of, pinned_pages, pins_of, prepared_of, request_checked, request_prepared, unpin_asks,
    CheckedRequest, ValidatedRequest,
};
use super::wait::{settle, settled};
use super::wire::{decode_handle, handle_in};

verus! {

broadcast use super::heard::group_heard;

/// A handle is closed and its request is canceled.
pub open spec fn withdraw_asks(abi: Abi, handle: Handle, request: u64, now_ns: u64) -> Seq<Ask> {
    close_asks(abi, seq![handle]).push(Ask::Plain(Call::CancelRequest { request, now_ns }))
}

/// The submitter is given a handle to its request; where that fails the request is
/// canceled and its handle closed.
pub open spec fn handed_out(
    abi: Abi,
    request: u64,
    output_address: u64,
    now_ns: u64,
    log: Seq<Event>,
    at: int,
    result: Result<DispatchResult, Status>,
) -> bool {
    &&& asked_at(log, at, Ask::Plain(Call::InstallRequest { request }))
    &&& match log[at].answer->Handle_0 {
        Err(status) => {
            &&& result == Err::<DispatchResult, Status>(status)
            &&& asked_from(log, at + 1, seq![Ask::Plain(Call::CancelRequest { request, now_ns })])
        },
        Ok(handle) => {
            &&& asked_at(log, at + 1, Ask::RequestInfo(request))
            &&& match log[at + 1].answer->RequestInfo_0 {
                None => {
                    &&& result == Err::<DispatchResult, Status>(Status::InvalidHandle)
                    &&& asked_from(log, at + 2, withdraw_asks(abi, handle, request, now_ns))
                },
                Some(info) => {
                    &&& asked_at(
                        log,
                        at + 2,
                        Ask::With(
                            Call::CopyOut { address: output_address },
                            output_records(seq![info_output(handle, info)]),
                        ),
                    )
                    &&& match log[at + 2].answer->Done_0 {
                        Err(status) => {
                            &&& result == Err::<DispatchResult, Status>(status)
                            &&& asked_from(log, at + 3, withdraw_asks(abi, handle, request, now_ns))
                        },
                        Ok(()) => {
                            &&& log.len() == at + 3
                            &&& result == Ok::<DispatchResult, Status>(
                                DispatchResult::Complete(Status::Success),
                            )
                        },
                    }
                },
            }
        },
    }
}

/// A request is submitted and its submitter gets a handle to it.
pub open spec fn submitted_for_handle(
    abi: Abi,
    model: RequestModel,
    output_address: u64,
    now_ns: u64,
    log: Seq<Event>,
    at: int,
    result: Result<DispatchResult, Status>,
) -> bool {
    &&& asked_at(log, at, Ask::Submit { request: model, now_ns })
    &&& match log[at].answer->Number_0 {
        Err(status) => {
            &&& result == Err::<DispatchResult, Status>(status)
            &&& asked_from(log, at + 1, unpin_asks(pins_of(model.buffers)))
        },
        Ok(request) => handed_out(abi, request, output_address, now_ns, log, at + 1, result),
    }
}

/// A request is submitted and its submitter is blocked until it ends; its output is pinned
/// before, and unpinned where that fails.
pub open spec fn submitted_to_block(
    model: RequestModel,
    thread: u64,
    output_address: u64,
    now_ns: u64,
    log: Seq<Event>,
    at: int,
    result: Result<DispatchResult, Status>,
) -> bool {
    let pins = pins_of(model.buffers);
    &&& asked_at(
        log,
        at,
        Ask::Plain(
            Call::Pin { address: output_address, length: REQUEST_SUBMIT_OUTPUT_SIZE, write: true },
        ),
    )
    &&& match log[at].answer->Number_0 {
        Err(status) => {
            &&& result == Err::<DispatchResult, Status>(status)
            &&& asked_from(log, at + 1, unpin_asks(pins))
        },
        Ok(pages) => {
            let unpin = Ask::Plain(Call::Unpin { pages });
            &&& asked_at(log, at + 1, Ask::Submit { request: model, now_ns })
            &&& match log[at + 1].answer->Number_0 {
                Err(status) => {
                    &&& result == Err::<DispatchResult, Status>(status)
                    &&& asked_from(log, at + 2, unpin_asks(pins).push(unpin))
                },
                Ok(request) => {
                    &&& asked_at(log, at + 2, Ask::Plain(Call::InstallRequest { request }))
                    &&& match log[at + 2].answer->Handle_0 {
                        Err(status) => {
                            &&& result == Err::<DispatchResult, Status>(status)
                            &&& asked_from(
                                log,
                                at + 3,
                                seq![unpin, Ask::Plain(Call::CancelRequest { request, now_ns })],
                            )
                        },
                        Ok(hidden_handle) => {
                            &&& asked_from(
                                log,
                                at + 3,
                                seq![
                                    Ask::Plain(
                                        Call::BlockRequest {
                                            thread,
                                            request,
                                            hidden_handle,
                                            output: Some(
                                                PinnedOutput { address: output_address, pages },
                                            ),
                                            count_output: None,
                                            return_operation_status: false,
                                        },
                                    ),
                                ],
                            )
                            &&& result == Ok::<DispatchResult, Status>(DispatchResult::Blocked)
                        },
                    }
                },
            }
        },
    }
}

/// What is done with a request that is ready, by the way its submitter is to learn of its
/// end. One that may not wait is given up.
pub open spec fn request_sent(
    abi: Abi,
    model: RequestModel,
    thread: u64,
    output_address: u64,
    now_ns: u64,
    log: Seq<Event>,
    at: int,
    result: Result<DispatchResult, Status>,
) -> bool {
    match model.terms.completion_mode {
        RequestCompletionMode::InlineOnly => {
            &&& asked_from(log, at, unpin_asks(pins_of(model.buffers)))
            &&& result == Ok::<DispatchResult, Status>(DispatchResult::Complete(Status::ShouldWait))
        },
        RequestCompletionMode::Handle => submitted_for_handle(
            abi,
            model,
            output_address,
            now_ns,
            log,
            at,
            result,
        ),
        RequestCompletionMode::Block => submitted_to_block(
            model,
            thread,
            output_address,
            now_ns,
            log,
            at,
            result,
        ),
    }
}

/// A checked request is carried out: one that does nothing ends at once.
pub open spec fn request_run(
    abi: Abi,
    process_id: u64,
    thread: u64,
    request: CheckedRequest,
    output_address: u64,
    now_ns: u64,
    log: Seq<Event>,
    at: int,
    result: Result<DispatchResult, Status>,
) -> bool {
    if request.head.operation == RequestOperation::Nop {
        &&& asked_at(
            log,
            at,
            Ask::With(
                Call::CopyOut { address: output_address },
                output_records(seq![completed_output(abi, Status::Success)]),
            ),
        )
        &&& log.len() == at + 1
        &&& result == (match log[at].answer->Done_0 {
            Err(status) => Err(status),
            Ok(()) => Ok(DispatchResult::Complete(Status::Success)),
        })
    } else {
        exists|ready: int, prepared: Result<RequestModel, Status>| #[trigger]
            request_ready(
                abi,
                process_id,
                thread,
                request,
                log,
                at,
                ready,
                prepared,
            ) && match prepared {
                Err(status) => ready == log.len() && result == Err::<DispatchResult, Status>(
                    status,
                ),
                Ok(model) => request_sent(
                    abi,
                    model,
                    thread,
                    output_address,
                    now_ns,
                    log,
                    ready,
                    result,
                ),
            }
    }
}

/// The request was made ready by the events from `at` to `ready`.
pub open spec fn request_ready(
    abi: Abi,
    process_id: u64,
    thread: u64,
    request: CheckedRequest,
    log: Seq<Event>,
    at: int,
    ready: int,
    prepared: Result<RequestModel, Status>,
) -> bool {
    &&& at <= ready <= log.len()
    &&& request_prepared(abi, process_id, thread, request, log.take(ready), at, prepared)
}

/// The request was checked by the events from `at` to `known`.
pub open spec fn request_known(
    abi: Abi,
    process_id: u64,
    raw: Seq<u8>,
    log: Seq<Event>,
    at: int,
    known: int,
    checked: Result<CheckedRequest, Status>,
) -> bool {
    &&& at <= known <= log.len()
    &&& request_checked(abi, process_id, raw, log.take(known), at, checked)
}

/// A request is submitted: where its outcome goes is checked first, then the request is
/// read, checked and carried out.
pub open spec fn request_submitted(
    abi: Abi,
    process_id: u64,
    thread: u64,
    args_address: u64,
    output_address: u64,
    now_ns: u64,
    log: Seq<Event>,
    base: int,
    result: Result<DispatchResult, Status>,
) -> bool {
    let first = seq![
        Ask::Plain(
            Call::CheckOutput { address: output_address, length: REQUEST_SUBMIT_OUTPUT_SIZE },
        ),
        Ask::Plain(Call::CopyIn { address: args_address, length: REQUEST_SUBMIT_ARGS_SIZE }),
    ];
    ||| failed_in(log, base, first, result)
    ||| {
        &&& passed(log, base, first)
        &&& exists|known: int, checked: Result<CheckedRequest, Status>| #[trigger]
            request_known(
                abi,
                process_id,
                log[base + 1].bytes(),
                log,
                base + 2,
                known,
                checked,
            ) && match checked {
                Err(status) => known == log.len() && result == Err::<DispatchResult, Status>(
                    status,
                ),
                Ok(request) => request_run(
                    abi,
                    process_id,
                    thread,
                    request,
                    output_address,
                    now_ns,
                    log,
                    known,
                    result,
                ),
            }
    }
}

/// The record of one request's progress.
pub(crate) fn encode_output(output: RequestSubmitOutput) -> (bytes: Vec<u8>)
    ensures
        bytes@ == output_records(seq![output]),
{
    let one: Vec<RequestSubmitOutput> = vec![output];
    assert(one@ =~= seq![output]);
    encode_outputs(one.as_slice())
}

/// What `request_submit` asks for, and what comes of it.
pub open spec fn did_request_submit(
    abi: Abi,
    process_id: u64,
    thread: u64,
    args_address: u64,
    output_address: u64,
    now_ns: u64,
    before: Seq<Event>,
    log: Seq<Event>,
    dispatched: DispatchResult,
) -> bool {
    exists|result: Result<DispatchResult, Status>| #[trigger]
    request_submitted(
        abi,
        process_id,
        thread,
        args_address,
        output_address,
        now_ns,
        log,
        before.len() as int,
        result,
    ) && dispatched == settled(result)
}

/// What `request_cancel` asks for, and what comes of it.
pub open spec fn did_request_cancel(
    abi: Abi,
    raw_request: u64,
    now_ns: u64,
    before: Seq<Event>,
    log: Seq<Event>,
    result: Result<(), Status>,
) -> bool {
    let base = before.len() as int;
    match handle_in(raw_request) {
        Err(status) => rejected(before, log, result, status),
        Ok(handle) => ran_through(
            log,
            base,
            seq![
                Ask::Plain(Call::CancellationTarget { handle }),
                Ask::Plain(
                    Call::CancelRequest { request: log[base].number(), now_ns },
                ),
                Ask::Plain(Call::MarkCanceled { handle }),
            ],
            result,
        ),
    }
}

/// What `request_get_info` asks for, and what comes of it.
pub open spec fn did_request_get_info(
    abi: Abi,
    raw_request: u64,
    output_address: u64,
    output_size: u64,
    version: u64,
    before: Seq<Event>,
    log: Seq<Event>,
    result: Result<(), Status>,
) -> bool {
    let base = before.len() as int;
    let size = abi.sizes.request_info;
    if version != abi.versions.request_info || output_size != size {
        rejected(before, log, result, Status::InvalidArgument)
    } else {
        let check = Ask::Plain(
            Call::CheckOutput { address: output_address, length: size as usize },
        );
        match handle_in(raw_request) {
            Err(status) => {
                &&& asked_at(log, base, check)
                &&& if log[base].refused() is Some {
                    ended_at(log, base, result)
                } else {
                    stopped_at(log, base, result, status)
                }
            },
            Ok(handle) => ran_through(
                log,
                base,
                seq![
                    check,
                    Ask::Plain(Call::RequestRecord { handle }),
                    Ask::With(
                        Call::CopyOut { address: output_address },
                        log[base + 1].bytes(),
                    ),
                ],
                result,
            ),
        }
    }
}

/// What `request_get_diagnostics` asks for, and what comes of it.
pub open spec fn did_request_get_diagnostics(
    abi: Abi,
    output_address: u64,
    output_size: u64,
    version: u64,
    before: Seq<Event>,
    log: Seq<Event>,
    result: Result<(), Status>,
) -> bool {
    let base = before.len() as int;
    let size = abi.sizes.request_diagnostics;
    if version != abi.versions.request_diagnostics || output_size != size {
        rejected(before, log, result, Status::InvalidArgument)
    } else {
        ran_through(
            log,
            base,
            seq![
                Ask::Plain(
                    Call::CheckOutput {
                        address: output_address,
                        length: size as usize,
                    },
                ),
                Ask::Plain(Call::RequestDiagnostics),
                Ask::With(
                    Call::CopyOut { address: output_address },
                    log[base + 1].bytes(),
                ),
            ],
            result,
        )
    }
}

impl<K: Kernel> Session<K> {
    /// Closes the handle of a request and cancels it.
    pub fn withdraw(&mut self, handle: Handle, request: u64, now_ns: u64)
        ensures
            final(self).kept(*old(self)),
            asked_from(
                final(self).log@,
                old(self).log@.len() as int,
                withdraw_asks(old(self).abi, handle, request, now_ns),
            ),
    {
        let one: Vec<Handle> = vec![handle];
        assert(one@ =~= seq![handle]);
        self.close_handles(one.as_slice());
        let _ = self.done(Call::CancelRequest { request, now_ns });
    }

    /// Gives the submitter a handle to its request.
    fn hand_out(&mut self, request: u64, output_address: u64, now_ns: u64) -> (result: Result<
        DispatchResult,
        Status,
    >)
        ensures
            final(self).kept(*old(self)),
            handed_out(
                old(self).abi,
                request,
                output_address,
                now_ns,
                final(self).log@,
                old(self).log@.len() as int,
                result,
            ),
    {
        let handle: Handle = match self.handle(Call::InstallRequest { request }) {
            Ok(handle) => handle,
            Err(status) => {
                let _ = self.done(Call::CancelRequest { request, now_ns });
                return Err(status);
            },
        };
        let info: RequestInfo = match self.request_info(request) {
            Some(info) => info,
            None => {
                self.withdraw(handle, request, now_ns);
                return Err(Status::InvalidHandle);
            },
        };
        let output: Vec<u8> = encode_output(request_output_from_info(handle, info));
        if let Err(status) = self.copy_out(output_address, output.as_slice()) {
            self.withdraw(handle, request, now_ns);
            return Err(status);
        }
        Ok(DispatchResult::Complete(Status::Success))
    }

    /// Submits a request whose submitter blocks.
    fn send_blocking(
        &mut self,
        prepared: PreparedBrokerRequest,
        thread: u64,
        output_address: u64,
        now_ns: u64,
    ) -> (result: Result<DispatchResult, Status>)
        ensures
            final(self).kept(*old(self)),
            submitted_to_block(
                prepared.model(),
                thread,
                output_address,
                now_ns,
                final(self).log@,
                old(self).log@.len() as int,
                result,
            ),
    {
        let pins: Vec<u64> = pinned_pages(prepared.buffers.as_slice());
        let pages: u64 = match self.number(
            Call::Pin { address: output_address, length: REQUEST_SUBMIT_OUTPUT_SIZE, write: true },
        ) {
            Ok(pages) => pages,
            Err(status) => {
                self.unpin_all(pins.as_slice());
                return Err(status);
            },
        };
        let request: u64 = match self.submit(prepared, now_ns) {
            Ok(request) => request,
            Err(status) => {
                self.unpin_all(pins.as_slice());
                let _ = self.done(Call::Unpin { pages });
                return Err(status);
            },
        };
        let hidden_handle: Handle = match self.handle(Call::InstallRequest { request }) {
            Ok(handle) => handle,
            Err(status) => {
                let _ = self.done(Call::Unpin { pages });
                let _ = self.done(Call::CancelRequest { request, now_ns });
                return Err(status);
            },
        };
        let _ = self.done(
            Call::BlockRequest {
                thread,
                request,
                hidden_handle,
                output: Some(PinnedOutput { address: output_address, pages }),
                count_output: None,
                return_operation_status: false,
            },
        );
        Ok(DispatchResult::Blocked)
    }

    /// Carries out what a request that is ready asks for.
    fn send_request(
        &mut self,
        prepared: PreparedBrokerRequest,
        thread: u64,
        output_address: u64,
        now_ns: u64,
    ) -> (result: Result<DispatchResult, Status>)
        ensures
            final(self).kept(*old(self)),
            request_sent(
                old(self).abi,
                prepared.model(),
                thread,
                output_address,
                now_ns,
                final(self).log@,
                old(self).log@.len() as int,
                result,
            ),
    {
        match prepared.terms.completion_mode {
            RequestCompletionMode::InlineOnly => {
                let pins: Vec<u64> = pinned_pages(prepared.buffers.as_slice());
                self.unpin_all(pins.as_slice());
                Ok(DispatchResult::Complete(Status::ShouldWait))
            },
            RequestCompletionMode::Handle => {
                let pins: Vec<u64> = pinned_pages(prepared.buffers.as_slice());
                match self.submit(prepared, now_ns) {
                    Err(status) => {
                        self.unpin_all(pins.as_slice());
                        Err(status)
                    },
                    Ok(request) => self.hand_out(request, output_address, now_ns),
                }
            },
            RequestCompletionMode::Block => self.send_blocking(
                prepared,
                thread,
                output_address,
                now_ns,
            ),
        }
    }

    /// Submits a request.
    fn try_request_submit(
        &mut self,
        process_id: u64,
        thread: u64,
        args_address: u64,
        output_address: u64,
        now_ns: u64,
    ) -> (result: Result<DispatchResult, Status>)
        ensures
            final(self).kept(*old(self)),
            request_submitted(
                old(self).abi,
                process_id,
                thread,
                args_address,
                output_address,
                now_ns,
                final(self).log@,
                old(self).log@.len() as int,
                result,
            ),
    {
        let ghost base = self.log@.len() as int;
        let ghost abi = self.abi;
        self.check_output(output_address, REQUEST_SUBMIT_OUTPUT_SIZE)?;
        let raw: Vec<u8> = self.copy_in(args_address, REQUEST_SUBMIT_ARGS_SIZE)?;
        let ghost read = self.log@;
        let checked: Result<ValidatedRequest, Status> = self.parse_and_validate_request(
            process_id,
            raw.as_slice(),
        );
        let ghost known = self.log@;
        proof {
            lemma_beginning(known, self.log@);
            assert(self.log@[base + 1] == read[base + 1]);
            assert(request_known(
                abi,
                process_id,
                self.log@[base + 1].bytes(),
                self.log@,
                base + 2,
                known.len() as int,
                checked_of(checked),
            ));
        }
        let request: ValidatedRequest = checked?;
        if request.head.operation == RequestOperation::Nop {
            let output: Vec<u8> = encode_output(
                completed_request_output(&self.abi, Status::Success),
            );
            let copied: Result<(), Status> = self.copy_out(output_address, output.as_slice());
            proof {
                lemma_beginning(known, self.log@);
                assert(request_known(
                    abi,
                    process_id,
                    self.log@[base + 1].bytes(),
                    self.log@,
                    base + 2,
                    known.len() as int,
                    Ok(request.model()),
                ));
            }
            return match copied {
                Err(status) => Err(status),
                Ok(()) => Ok(DispatchResult::Complete(Status::Success)),
            };
        }
        let prepared: Result<PreparedBrokerRequest, Status> = self.prepare_broker_request(
            process_id,
            thread,
            &request,
        );
        let ghost ready = self.log@;
        let ghost outcome = prepared_of(prepared);
        proof {
            lemma_beginning(ready, self.log@);
            lemma_beginning(known, self.log@);
        }
        let result: Result<DispatchResult, Status> = match prepared {
            Err(status) => Err(status),
            Ok(prepared) => self.send_request(prepared, thread, output_address, now_ns),
        };
        proof {
            lemma_beginning(known, self.log@);
            lemma_beginning(ready, self.log@);
            assert(request_known(
                abi,
                process_id,
                self.log@[base + 1].bytes(),
                self.log@,
                base + 2,
                known.len() as int,
                Ok(request.model()),
            ));
            assert(request_ready(
                abi,
                process_id,
                thread,
                request.model(),
                self.log@,
                known.len() as int,
                ready.len() as int,
                outcome,
            ));
        }
        result
    }

    /// Submits a request.
    pub fn request_submit(
        &mut self,
        process_id: u64,
        thread: u64,
        args_address: u64,
        output_address: u64,
        now_ns: u64,
    ) -> (dispatched: DispatchResult)
        ensures
            final(self).kept(*old(self)),
            did_request_submit(
                old(self).abi,
                process_id,
                thread,
                args_address,
                output_address,
                now_ns,
                old(self).log@,
                final(self).log@,
                dispatched,
            ),
    {
        let result: Result<DispatchResult, Status> = self.try_request_submit(
            process_id,
            thread,
            args_address,
            output_address,
            now_ns,
        );
        settle(result)
    }

    /// Cancels a request.
    pub fn request_cancel(&mut self, raw_request: u64, now_ns: u64) -> (result: Result<(), Status>)
        ensures
            final(self).kept(*old(self)),
            did_request_cancel(
                old(self).abi,
                raw_request,
                now_ns,
                old(self).log@,
                final(self).log@,
                result,
            ),
    {
        let handle: Handle = decode_handle(raw_request)?;
        let request: u64 = self.number(Call::CancellationTarget { handle })?;
        self.done(Call::CancelRequest { request, now_ns })?;
        self.done(Call::MarkCanceled { handle })
    }

    /// Tells a process what is known of its request.
    pub fn request_get_info(
        &mut self,
        raw_request: u64,
        output_address: u64,
        output_size: u64,
        version: u64,
    ) -> (result: Result<(), Status>)
        ensures
            final(self).kept(*old(self)),
            did_request_get_info(
                old(self).abi,
                raw_request,
                output_address,
                output_size,
                version,
                old(self).log@,
                final(self).log@,
                result,
            ),
    {
        let size: u32 = self.abi.sizes.request_info;
        if version != self.abi.versions.request_info as u64 || output_size != size as u64 {
            return Err(Status::InvalidArgument);
        }
        self.check_output(output_address, size as usize)?;
        let handle: Handle = decode_handle(raw_request)?;
        let info: Vec<u8> = self.bytes(Call::RequestRecord { handle })?;
        self.copy_out(output_address, info.as_slice())
    }

    /// Tells a process how the broker is doing.
    pub fn request_get_diagnostics(&mut self, output_address: u64, output_size: u64, version: u64) -> (result:
        Result<(), Status>)
        ensures
            final(self).kept(*old(self)),
            did_request_get_diagnostics(
                old(self).abi,
                output_address,
                output_size,
                version,
                old(self).log@,
                final(self).log@,
                result,
            ),
    {
        let size: u32 = self.abi.sizes.request_diagnostics;
        if version != self.abi.versions.request_diagnostics as u64 || output_size != size as u64 {
            return Err(Status::InvalidArgument);
        }
        self.check_output(output_address, size as usize)?;
        let record: Vec<u8> = self.bytes(Call::RequestDiagnostics)?;
        self.copy_out(output_address, record.as_slice())
    }
}

} // verus!
