//! Submitting several requests at once, all or none.
use vstd::prelude::*;

use super::abi::{Abi, Handle, RequestCompletionMode, RequestOperation, Status};
use super::handles::close_asks;
use super::kernel::{
    asked_at, asked_from, ended_at, extends, failed_in, passed, request_models, stopped_at, Answer,
    Ask, Call, Event, Kernel, PreparedBrokerRequest, RequestModel, Session,
};
use super::request_wire::{
    batch_in, completed_output, completed_request_output, encode_outputs, info_output,
    output_records, parse_batch, pending_output, pending_request_output,
    preflight_request_resources, request_output_from_info, resources_checked, BatchHead,
    RequestInfo, RequestLimits, RequestSubmitOutput, REQUEST_SUBMIT_ARGS_SIZE,
    REQUEST_SUBMIT_BATCH_ARGS_SIZE,
};
use super::requests::{
    checked_of, pinned_pages, pins_of, prepared_of, unpin_asks, CheckedRequest, ValidatedRequest,
};
use super::submission::{request_known, request_ready};
use super::wire::record;

verus! {

broadcast use super::heard::group_heard;

/// The events from `from` to `to` are these asks.
pub open spec fn asked_between(log: Seq<Event>, from: int, to: int, asks: Seq<Ask>) -> bool {
    &&& to == from + asks.len()
    &&& to <= log.len()
    &&& forall|i: int| 0 <= i < asks.len() ==> log[from + i].ask == #[trigger] asks[i]
}

/// How a batch came about: where the log stood after each check and after each
/// preparation, and what they gave.
#[verifier::ext_equal]
pub struct BatchTrace {
    pub checks: Seq<int>,
    pub requests: Seq<CheckedRequest>,
    pub preparations: Seq<int>,
    /// The requests that go to the broker; none where a request ended at once.
    pub ready: Seq<Option<RequestModel>>,
}

/// Requests were read and checked one after the other; none of them blocks.
pub open spec fn checked_along(
    abi: Abi,
    process_id: u64,
    raw: Seq<u8>,
    log: Seq<Event>,
    at: int,
    trace: BatchTrace,
) -> bool {
    &&& trace.checks.len() == trace.requests.len() + 1
    &&& trace.checks[0] == at
    &&& forall|i: int, j: int|
        0 <= i < trace.requests.len() && j == i + 1 ==> request_known(
            abi,
            process_id,
            record(raw, REQUEST_SUBMIT_ARGS_SIZE as int, i),
            log,
            #[trigger] trace.checks[i],
            #[trigger] trace.checks[j],
            Ok(trace.requests[i]),
        ) && trace.requests[i].head.completion_mode != RequestCompletionMode::Block
}

/// The next request was refused; a request that would block is refused as well.
pub open spec fn check_failed(
    abi: Abi,
    process_id: u64,
    raw: Seq<u8>,
    log: Seq<Event>,
    trace: BatchTrace,
    checked: Result<CheckedRequest, Status>,
    result: Result<(), Status>,
) -> bool {
    &&& request_known(
        abi,
        process_id,
        record(raw, REQUEST_SUBMIT_ARGS_SIZE as int, trace.requests.len() as int),
        log,
        trace.checks.last(),
        log.len() as int,
        checked,
    )
    &&& match checked {
        Err(status) => result == Err::<(), Status>(status),
        Ok(request) => request.head.completion_mode == RequestCompletionMode::Block && result
            == Err::<(), Status>(Status::InvalidArgument),
    }
}

/// The next request was refused.
pub open spec fn check_stopped(
    abi: Abi,
    process_id: u64,
    raw: Seq<u8>,
    log: Seq<Event>,
    trace: BatchTrace,
    result: Result<(), Status>,
) -> bool {
    exists|checked: Result<CheckedRequest, Status>| #[trigger]
        check_failed(abi, process_id, raw, log, trace, checked, result)
}

/// The first of the requests that the broker has no room for.
pub open spec fn first_refusal(
    requests: Seq<CheckedRequest>,
    limits: RequestLimits,
    count: nat,
) -> Option<Status>
    decreases count,
{
    if count == 0 {
        None
    } else {
        match first_refusal(requests, limits, (count - 1) as nat) {
            Some(status) => Some(status),
            None => match resources_checked(requests[count - 1].buffers, limits) {
                Ok(()) => None,
                Err(status) => Some(status),
            },
        }
    }
}

/// A request of a batch was made ready by the events from `from` to `to`, or ended at once.
pub open spec fn slot_ready(
    abi: Abi,
    process_id: u64,
    thread: u64,
    request: CheckedRequest,
    log: Seq<Event>,
    from: int,
    to: int,
    ready: Option<RequestModel>,
) -> bool {
    if request.head.operation == RequestOperation::Nop {
        from == to && ready is None
    } else if request.head.completion_mode == RequestCompletionMode::InlineOnly {
        &&& ready is None
        &&& exists|known: int, model: RequestModel| #[trigger]
            request_ready(abi, process_id, thread, request, log, from, known, Ok(model))
                && asked_between(log, known, to, unpin_asks(pins_of(model.buffers)))
    } else {
        &&& ready is Some
        &&& request_ready(
            abi,
            process_id,
            thread,
            request,
            log,
            from,
            to,
            Ok(ready->Some_0),
        )
    }
}

/// Requests were made ready one after the other.
pub open spec fn prepared_along(
    abi: Abi,
    process_id: u64,
    thread: u64,
    log: Seq<Event>,
    at: int,
    trace: BatchTrace,
) -> bool {
    &&& trace.ready.len() <= trace.requests.len()
    &&& trace.preparations.len() == trace.ready.len() + 1
    &&& trace.preparations[0] == at
    &&& forall|i: int, j: int|
        0 <= i < trace.ready.len() && j == i + 1 ==> slot_ready(
            abi,
            process_id,
            thread,
            trace.requests[i],
            log,
            #[trigger] trace.preparations[i],
            #[trigger] trace.preparations[j],
            trace.ready[i],
        )
}

/// The requests that go to the broker, in order.
pub open spec fn sent(ready: Seq<Option<RequestModel>>) -> Seq<RequestModel>
    decreases ready.len(),
{
    if ready.len() == 0 {
        Seq::empty()
    } else {
        match ready.last() {
            Some(model) => sent(ready.drop_last()).push(model),
            None => sent(ready.drop_last()),
        }
    }
}

/// The places of the requests that go to the broker, in order.
pub open spec fn places(ready: Seq<Option<RequestModel>>) -> Seq<int>
    decreases ready.len(),
{
    if ready.len() == 0 {
        Seq::empty()
    } else {
        match ready.last() {
            Some(_) => places(ready.drop_last()).push(ready.len() - 1),
            None => places(ready.drop_last()),
        }
    }
}

/// What all of these requests pinned, in order.
pub open spec fn all_pins(models: Seq<RequestModel>) -> Seq<u64>
    decreases models.len(),
{
    if models.len() == 0 {
        Seq::empty()
    } else {
        all_pins(models.drop_last()) + pins_of(models.last().buffers)
    }
}

/// What the submitter is told of a request before the broker has it.
pub open spec fn first_output(abi: Abi, request: CheckedRequest) -> RequestSubmitOutput {
    if request.head.operation == RequestOperation::Nop {
        completed_output(abi, Status::Success)
    } else {
        pending_output(abi, abi.invalid_handle)
    }
}

/// What the submitter is told of all requests, when the first `count` of those that the
/// broker has were given handles by the events from `at` on.
pub open spec fn outputs_after(
    abi: Abi,
    trace: BatchTrace,
    log: Seq<Event>,
    at: int,
    count: nat,
) -> Seq<RequestSubmitOutput>
    decreases count,
{
    if count == 0 {
        Seq::new(trace.requests.len(), |i: int| first_output(abi, trace.requests[i]))
    } else {
        let last = count - 1;
        outputs_after(abi, trace, log, at, last as nat).update(
            places(trace.ready)[last],
            info_output(
                log[at + 2 * last].handle(),
                log[at + 2 * last + 1].answer->RequestInfo_0->Some_0,
            ),
        )
    }
}

/// The first `count` requests were given handles by the events from `at` on.
pub open spec fn installed(ids: Seq<u64>, log: Seq<Event>, at: int, count: int) -> bool {
    &&& at + 2 * count <= log.len()
    &&& forall|i: int|
        0 <= i < count ==> {
            let request = #[trigger] ids[i];
            &&& log[at + 2 * i].ask == Ask::Plain(Call::InstallRequest { request })
            &&& log[at + 2 * i].answer matches Answer::Handle(Ok(_))
            &&& log[at + 2 * i + 1].ask == Ask::RequestInfo(request)
            &&& log[at + 2 * i + 1].answer matches Answer::RequestInfo(Some(_))
        }
}

/// The handles of the first `count` requests.
pub open spec fn new_handles(log: Seq<Event>, at: int, count: nat) -> Seq<Handle> {
    Seq::new(count, |i: int| log[at + 2 * i].handle())
}

/// All requests are canceled.
pub open spec fn cancel_asks(ids: Seq<u64>, now_ns: u64) -> Seq<Ask> {
    Seq::new(
        ids.len(),
        |i: int| Ask::Plain(Call::CancelRequest { request: ids[i], now_ns }),
    )
}

/// Giving request `count` a handle failed: the handles given so far are closed and every
/// request is canceled.
pub open spec fn install_failed(
    abi: Abi,
    ids: Seq<u64>,
    now_ns: u64,
    log: Seq<Event>,
    at: int,
    count: nat,
    result: Result<(), Status>,
) -> bool {
    let place = at + 2 * count;
    let request = ids[count as int];
    &&& installed(ids, log, at, count as int)
    &&& asked_at(log, place, Ask::Plain(Call::InstallRequest { request }))
    &&& match log[place].answer->Handle_0 {
        Err(status) => {
            &&& result == Err::<(), Status>(status)
            &&& asked_from(
                log,
                place + 1,
                close_asks(abi, new_handles(log, at, count)) + cancel_asks(ids, now_ns),
            )
        },
        Ok(_) => {
            &&& asked_at(log, place + 1, Ask::RequestInfo(request))
            &&& log[place + 1].answer == Answer::RequestInfo(None)
            &&& result == Err::<(), Status>(Status::InvalidHandle)
            &&& asked_from(
                log,
                place + 2,
                close_asks(abi, new_handles(log, at, count + 1)) + cancel_asks(ids, now_ns),
            )
        },
    }
}

/// The broker has the requests: each is given a handle, and the submitter is told.
pub open spec fn batch_handed_out(
    abi: Abi,
    trace: BatchTrace,
    ids: Seq<u64>,
    outputs_address: u64,
    now_ns: u64,
    log: Seq<Event>,
    at: int,
    result: Result<(), Status>,
) -> bool {
    let count = if ids.len() <= places(trace.ready).len() {
        ids.len()
    } else {
        places(trace.ready).len()
    };
    let place = at + 2 * count;
    ||| exists|failed: nat|
        failed < count && #[trigger] install_failed(abi, ids, now_ns, log, at, failed, result)
    ||| {
        &&& installed(ids, log, at, count as int)
        &&& asked_at(
            log,
            place,
            Ask::With(
                Call::CopyOut { address: outputs_address },
                output_records(outputs_after(abi, trace, log, at, count)),
            ),
        )
        &&& match log[place].answer->Done_0 {
            Ok(()) => log.len() == place + 1 && result is Ok,
            Err(status) => {
                &&& result == Err::<(), Status>(status)
                &&& asked_from(
                    log,
                    place + 1,
                    close_asks(abi, new_handles(log, at, count)) + cancel_asks(ids, now_ns),
                )
            },
        }
    }
}

/// Every request is ready: those that the broker is to have are submitted together.
pub open spec fn batch_sent(
    abi: Abi,
    trace: BatchTrace,
    outputs_address: u64,
    now_ns: u64,
    log: Seq<Event>,
    at: int,
    result: Result<(), Status>,
) -> bool {
    let requests = sent(trace.ready);
    if requests.len() == 0 {
        &&& asked_at(
            log,
            at,
            Ask::With(
                Call::CopyOut { address: outputs_address },
                output_records(outputs_after(abi, trace, log, at, 0)),
            ),
        )
        &&& log.len() == at + 1
        &&& result == log[at].answer->Done_0
    } else {
        &&& asked_at(log, at, Ask::SubmitBatch { requests, now_ns })
        &&& match log[at].answer->Numbers_0 {
            Err(status) => {
                &&& result == Err::<(), Status>(status)
                &&& asked_from(log, at + 1, unpin_asks(all_pins(requests)))
            },
            Ok(ids) => batch_handed_out(
                abi,
                trace,
                ids,
                outputs_address,
                now_ns,
                log,
                at + 1,
                result,
            ),
        }
    }
}

/// Making the next request ready failed: what the ones before it pinned is unpinned.
pub open spec fn preparation_stopped(
    abi: Abi,
    process_id: u64,
    thread: u64,
    log: Seq<Event>,
    trace: BatchTrace,
    known: int,
    result: Result<(), Status>,
) -> bool {
    let request = trace.requests[trace.ready.len() as int];
    &&& request.head.operation != RequestOperation::Nop
    &&& result is Err
    &&& request_ready(
        abi,
        process_id,
        thread,
        request,
        log,
        trace.preparations.last(),
        known,
        Err(result->Err_0),
    )
    &&& asked_from(log, known, unpin_asks(all_pins(sent(trace.ready))))
}

/// Making the next request ready failed.
pub open spec fn preparation_refused(
    abi: Abi,
    process_id: u64,
    thread: u64,
    log: Seq<Event>,
    trace: BatchTrace,
    result: Result<(), Status>,
) -> bool {
    exists|known: int| #[trigger]
        preparation_stopped(abi, process_id, thread, log, trace, known, result)
}

/// A batch along a trace: all requests are checked, then the broker's limits are held
/// against all of them, then all are made ready, and only then any is submitted.
pub open spec fn batch_along(
    abi: Abi,
    process_id: u64,
    thread: u64,
    head: BatchHead,
    raw: Seq<u8>,
    now_ns: u64,
    log: Seq<Event>,
    at: int,
    trace: BatchTrace,
    result: Result<(), Status>,
) -> bool {
    &&& checked_along(abi, process_id, raw, log, at, trace)
    &&& trace.requests.len() <= head.count
    &&& if trace.requests.len() < head.count {
        check_stopped(abi, process_id, raw, log, trace, result)
    } else {
        let place = trace.checks.last();
        &&& asked_at(log, place, Ask::Limits)
        &&& match first_refusal(
            trace.requests,
            log[place].answer->Limits_0,
            trace.requests.len(),
        ) {
            Some(status) => stopped_at(log, place, result, status),
            None => {
                &&& prepared_along(abi, process_id, thread, log, place + 1, trace)
                &&& if trace.ready.len() < trace.requests.len() {
                    preparation_refused(abi, process_id, thread, log, trace, result)
                } else {
                    batch_sent(
                        abi,
                        trace,
                        head.outputs_address,
                        now_ns,
                        log,
                        trace.preparations.last(),
                        result,
                    )
                }
            },
        }
    }
}

/// What is checked and read of a batch before its requests are looked at.
pub open spec fn batch_reads(head: BatchHead) -> Seq<Ask> {
    seq![
        Ask::Plain(Call::CheckOutput { address: head.outputs_address, length: head.outputs_len }),
        Ask::Plain(
            Call::CopyIn { address: head.submissions_address, length: head.submissions_len },
        ),
    ]
}

/// A batch is submitted.
pub open spec fn batch_submitted(
    abi: Abi,
    process_id: u64,
    thread: u64,
    args_address: u64,
    now_ns: u64,
    log: Seq<Event>,
    base: int,
    result: Result<(), Status>,
) -> bool {
    &&& asked_at(
        log,
        base,
        Ask::Plain(Call::CopyIn { address: args_address, length: REQUEST_SUBMIT_BATCH_ARGS_SIZE }),
    )
    &&& if log[base].refused() is Some {
        ended_at(log, base, result)
    } else {
        match batch_in(abi, log[base].bytes()) {
            Err(status) => stopped_at(log, base, result, status),
            Ok(head) => {
                ||| failed_in(log, base + 1, batch_reads(head), result)
                ||| {
                    &&& passed(log, base + 1, batch_reads(head))
                    &&& exists|trace: BatchTrace| #[trigger]
                        batch_along(
                            abi,
                            process_id,
                            thread,
                            head,
                            log[base + 2].bytes(),
                            now_ns,
                            log,
                            base + 3,
                            trace,
                            result,
                        )
                }
            },
        }
    }
}

/// What was known of a request stays known.
proof fn lemma_known_stays(log: Seq<Event>, longer: Seq<Event>, known: int)
    requires
        extends(log, longer),
        0 <= known <= log.len(),
    ensures
        longer.take(known) == log.take(known),
{
    assert(longer.take(known) =~= log.take(known));
}

/// What was checked stays checked.
proof fn lemma_checked_stays(
    abi: Abi,
    process_id: u64,
    raw: Seq<u8>,
    log: Seq<Event>,
    longer: Seq<Event>,
    at: int,
    trace: BatchTrace,
)
    requires
        0 <= at,
        extends(log, longer),
        checked_along(abi, process_id, raw, log, at, trace),
    ensures
        checked_along(abi, process_id, raw, longer, at, trace),
{
    assert forall|i: int, j: int| 0 <= i < trace.requests.len() && j == i + 1 implies request_known(
        abi,
        process_id,
        record(raw, REQUEST_SUBMIT_ARGS_SIZE as int, i),
        longer,
        #[trigger] trace.checks[i],
        #[trigger] trace.checks[j],
        Ok(trace.requests[i]),
    ) && trace.requests[i].head.completion_mode != RequestCompletionMode::Block by {
        lemma_marks_rise(abi, process_id, raw, log, at, trace, i);
        lemma_known_stays(log, longer, trace.checks[j]);
    }
}

/// One more request was checked.
proof fn lemma_checked_grows(
    abi: Abi,
    process_id: u64,
    raw: Seq<u8>,
    log: Seq<Event>,
    at: int,
    trace: BatchTrace,
    known: int,
    request: CheckedRequest,
)
    requires
        checked_along(abi, process_id, raw, log, at, trace),
        request_known(
            abi,
            process_id,
            record(raw, REQUEST_SUBMIT_ARGS_SIZE as int, trace.requests.len() as int),
            log,
            trace.checks.last(),
            known,
            Ok(request),
        ),
        request.head.completion_mode != RequestCompletionMode::Block,
    ensures
        checked_along(
            abi,
            process_id,
            raw,
            log,
            at,
            BatchTrace {
                checks: trace.checks.push(known),
                requests: trace.requests.push(request),
                ..trace
            },
        ),
{
    let longer = BatchTrace {
        checks: trace.checks.push(known),
        requests: trace.requests.push(request),
        ..trace
    };
    assert forall|i: int, j: int| 0 <= i < longer.requests.len() && j == i + 1 implies request_known(
        abi,
        process_id,
        record(raw, REQUEST_SUBMIT_ARGS_SIZE as int, i),
        log,
        #[trigger] longer.checks[i],
        #[trigger] longer.checks[j],
        Ok(longer.requests[i]),
    ) && longer.requests[i].head.completion_mode != RequestCompletionMode::Block by {
        if i < trace.requests.len() {
            assert(longer.checks[i] == trace.checks[i]);
            assert(longer.checks[j] == trace.checks[j]);
        }
    }
    assert(longer.checks[0] == at);
    assert(longer.checks.len() == longer.requests.len() + 1);
    assert(checked_along(abi, process_id, raw, log, at, longer));
}

/// Marks do not fall below where they began.
proof fn lemma_marks_rise(
    abi: Abi,
    process_id: u64,
    raw: Seq<u8>,
    log: Seq<Event>,
    at: int,
    trace: BatchTrace,
    i: int,
)
    requires
        checked_along(abi, process_id, raw, log, at, trace),
        0 <= i <= trace.requests.len(),
    ensures
        trace.checks[i] >= at,
    decreases i,
{
    if i > 0 {
        lemma_marks_rise(abi, process_id, raw, log, at, trace, i - 1);
        assert(trace.checks[i - 1] <= trace.checks[i]);
    }
}

/// What was made ready stays ready.
proof fn lemma_slot_stays(
    abi: Abi,
    process_id: u64,
    thread: u64,
    request: CheckedRequest,
    log: Seq<Event>,
    longer: Seq<Event>,
    from: int,
    to: int,
    ready: Option<RequestModel>,
)
    requires
        0 <= from,
        extends(log, longer),
        slot_ready(abi, process_id, thread, request, log, from, to, ready),
    ensures
        slot_ready(abi, process_id, thread, request, longer, from, to, ready),
{
    if request.head.operation == RequestOperation::Nop {
    } else if request.head.completion_mode == RequestCompletionMode::InlineOnly {
        let (known, model) = choose|known: int, model: RequestModel| #[trigger]
            request_ready(abi, process_id, thread, request, log, from, known, Ok(model))
                && asked_between(log, known, to, unpin_asks(pins_of(model.buffers)));
        lemma_known_stays(log, longer, known);
        assert(request_ready(abi, process_id, thread, request, longer, from, known, Ok(model)));
        let asks = unpin_asks(pins_of(model.buffers));
        assert forall|i: int| 0 <= i < asks.len() implies longer[known + i].ask == #[trigger] asks[i] by {
            assert(longer[known + i] == log[known + i]);
        }
    } else {
        lemma_known_stays(log, longer, to);
    }
}

/// What was made ready stays ready.
proof fn lemma_prepared_stays(
    abi: Abi,
    process_id: u64,
    thread: u64,
    log: Seq<Event>,
    longer: Seq<Event>,
    at: int,
    trace: BatchTrace,
)
    requires
        0 <= at,
        extends(log, longer),
        prepared_along(abi, process_id, thread, log, at, trace),
    ensures
        prepared_along(abi, process_id, thread, longer, at, trace),
{
    assert forall|i: int, j: int| 0 <= i < trace.ready.len() && j == i + 1 implies slot_ready(
        abi,
        process_id,
        thread,
        trace.requests[i],
        longer,
        #[trigger] trace.preparations[i],
        #[trigger] trace.preparations[j],
        trace.ready[i],
    ) by {
        lemma_slots_rise(abi, process_id, thread, log, at, trace, i);
        lemma_slot_stays(
            abi,
            process_id,
            thread,
            trace.requests[i],
            log,
            longer,
            trace.preparations[i],
            trace.preparations[j],
            trace.ready[i],
        );
    }
}

/// Marks do not fall below where they began.
proof fn lemma_slots_rise(
    abi: Abi,
    process_id: u64,
    thread: u64,
    log: Seq<Event>,
    at: int,
    trace: BatchTrace,
    i: int,
)
    requires
        prepared_along(abi, process_id, thread, log, at, trace),
        0 <= i <= trace.ready.len(),
    ensures
        trace.preparations[i] >= at,
    decreases i,
{
    if i > 0 {
        lemma_slots_rise(abi, process_id, thread, log, at, trace, i - 1);
        assert(slot_ready(
            abi,
            process_id,
            thread,
            trace.requests[i - 1],
            log,
            trace.preparations[i - 1],
            trace.preparations[i],
            trace.ready[i - 1],
        ));
    }
}

/// One more preparation.
pub open spec fn grown(trace: BatchTrace, to: int, ready: Option<RequestModel>) -> BatchTrace {
    BatchTrace {
        preparations: trace.preparations.push(to),
        ready: trace.ready.push(ready),
        ..trace
    }
}

/// One more request was made ready.
proof fn lemma_prepared_grows(
    abi: Abi,
    process_id: u64,
    thread: u64,
    log: Seq<Event>,
    at: int,
    trace: BatchTrace,
    to: int,
    ready: Option<RequestModel>,
)
    requires
        prepared_along(abi, process_id, thread, log, at, trace),
        trace.ready.len() < trace.requests.len(),
        slot_ready(
            abi,
            process_id,
            thread,
            trace.requests[trace.ready.len() as int],
            log,
            trace.preparations.last(),
            to,
            ready,
        ),
    ensures
        prepared_along(abi, process_id, thread, log, at, grown(trace, to, ready)),
{
    let longer = grown(trace, to, ready);
    assert forall|i: int, j: int| 0 <= i < longer.ready.len() && j == i + 1 implies slot_ready(
        abi,
        process_id,
        thread,
        longer.requests[i],
        log,
        #[trigger] longer.preparations[i],
        #[trigger] longer.preparations[j],
        longer.ready[i],
    ) by {
        if i < trace.ready.len() {
            assert(longer.preparations[i] == trace.preparations[i]);
            assert(longer.preparations[j] == trace.preparations[j]);
        }
    }
    assert(longer.preparations[0] == at);
    assert(prepared_along(abi, process_id, thread, log, at, longer));
}

/// As many places as requests go to the broker, each below the number of requests.
proof fn lemma_places(ready: Seq<Option<RequestModel>>)
    ensures
        places(ready).len() == sent(ready).len(),
        forall|i: int| 0 <= i < places(ready).len() ==> 0 <= #[trigger] places(ready)[i] < ready.len(),
    decreases ready.len(),
{
    if ready.len() > 0 {
        lemma_places(ready.drop_last());
    }
}

/// What requests hold.
pub open spec fn checked_models(requests: Seq<ValidatedRequest>) -> Seq<CheckedRequest> {
    Seq::new(requests.len(), |i: int| requests[i].model())
}

/// No request of a list has an empty buffer.
pub open spec fn all_sized(requests: Seq<ValidatedRequest>) -> bool {
    forall|i: int, j: int|
        0 <= i < requests.len() && 0 <= j < requests[i].buffers@.len() ==> (
        #[trigger] requests[i].buffers@[j]).length > 0
}

/// The places as indices.
pub open spec fn place_indices(indices: Seq<usize>) -> Seq<int> {
    Seq::new(indices.len(), |i: int| indices[i] as int)
}

/// What became of making a batch ready.
pub struct ReadyBatch {
    pub prepared: Vec<PreparedBrokerRequest>,
    /// Where in the batch the prepared requests stand.
    pub indices: Vec<usize>,
    pub outputs: Vec<RequestSubmitOutput>,
    pub pins: Vec<u64>,
}

impl ReadyBatch {
    /// The batch is what the trace says.
    pub open spec fn follows(&self, abi: Abi, trace: BatchTrace) -> bool {
        &&& request_models(self.prepared@) == sent(trace.ready)
        &&& place_indices(self.indices@) == places(trace.ready)
        &&& self.pins@ == all_pins(sent(trace.ready))
        &&& self.outputs@.len() == trace.ready.len()
        &&& forall|i: int|
            0 <= i < self.outputs@.len() ==> #[trigger] self.outputs@[i] == first_output(
                abi,
                trace.requests[i],
            )
    }
}

/// What is left of a batch that the broker has.
pub struct HandedBatch {
    pub indices: Vec<usize>,
    pub outputs: Vec<RequestSubmitOutput>,
}

impl HandedBatch {
    /// The batch is what the trace says.
    pub open spec fn follows(&self, abi: Abi, trace: BatchTrace) -> bool {
        &&& place_indices(self.indices@) == places(trace.ready)
        &&& self.outputs@.len() == trace.ready.len()
        &&& forall|i: int|
            0 <= i < self.outputs@.len() ==> #[trigger] self.outputs@[i] == first_output(
                abi,
                trace.requests[i],
            )
    }
}

impl ReadyBatch {
    /// Adds a request that goes to the broker.
    fn add(&mut self, index: usize, request: PreparedBrokerRequest)
        ensures
            final(self).outputs@ == old(self).outputs@,
            request_models(final(self).prepared@) == request_models(old(self).prepared@).push(
                request.model(),
            ),
            place_indices(final(self).indices@) == place_indices(old(self).indices@).push(
                index as int,
            ),
            final(self).pins@ == old(self).pins@ + pins_of(request.model().buffers),
    {
        let pins: Vec<u64> = pinned_pages(request.buffers.as_slice());
        assert(request_models(self.prepared@.push(request)) =~= request_models(
            self.prepared@,
        ).push(request.model()));
        assert(place_indices(self.indices@.push(index)) =~= place_indices(self.indices@).push(
            index as int,
        ));
        self.indices.push(index);
        self.prepared.push(request);
        let mut pin: usize = 0;
        let ghost pinned = self.pins@;
        assert(self.pins@ =~= pinned + pins@.subrange(0, 0));
        while pin < pins.len()
            invariant
                pin <= pins@.len(),
                self.pins@ == pinned + pins@.subrange(0, pin as int),
                self.outputs@ == old(self).outputs@,
                request_models(self.prepared@) == request_models(old(self).prepared@).push(
                    request.model(),
                ),
                place_indices(self.indices@) == place_indices(old(self).indices@).push(
                    index as int,
                ),
            decreases pins@.len() - pin,
        {
            self.pins.push(pins[pin]);
            pin += 1;
            assert(self.pins@ =~= pinned + pins@.subrange(0, pin as int));
        }
        assert(pins@.subrange(0, pins@.len() as int) =~= pins@);
    }
}

/// What `request_submit_batch` asks for, and what comes of it.
pub open spec fn did_request_submit_batch(
    abi: Abi,
    process_id: u64,
    thread: u64,
    args_address: u64,
    now_ns: u64,
    before: Seq<Event>,
    log: Seq<Event>,
    result: Result<(), Status>,
) -> bool {
    batch_submitted(
        abi,
        process_id,
        thread,
        args_address,
        now_ns,
        log,
        before.len() as int,
        result,
    )
}

impl<K: Kernel> Session<K> {
    /// Reads and checks the requests of a batch.
    fn check_batch(
        &mut self,
        process_id: u64,
        raw: &[u8],
        count: usize,
    ) -> (result: (Result<Vec<ValidatedRequest>, Status>, Ghost<BatchTrace>))
        requires
            raw@.len() == count * 64,
        ensures
            final(self).kept(*old(self)),
            checked_along(
                old(self).abi,
                process_id,
                raw@,
                final(self).log@,
                old(self).log@.len() as int,
                result.1@,
            ),
            result.0 matches Ok(requests) ==> {
                &&& requests@.len() == count
                &&& result.1@.requests == checked_models(requests@)
                &&& result.1@.checks.last() == final(self).log@.len()
                &&& all_sized(requests@)
            },
            result.0 matches Err(status) ==> {
                &&& result.1@.requests.len() < count
                &&& check_stopped(
                    old(self).abi,
                    process_id,
                    raw@,
                    final(self).log@,
                    result.1@,
                    Err(status),
                )
            },
    {
        let ghost at = self.log@.len() as int;
        let ghost abi = self.abi;
        let mut requests: Vec<ValidatedRequest> = Vec::new();
        let mut index: usize = 0;
        let mut trace: Ghost<BatchTrace> = Ghost(
            BatchTrace {
                checks: seq![at],
                requests: Seq::empty(),
                preparations: Seq::empty(),
                ready: Seq::empty(),
            },
        );
        while index < count
            invariant
                index <= count,
                raw.len() == count * 64,
                at == old(self).log@.len(),
                abi == old(self).abi,
                self.kept(*old(self)),
                requests@.len() == index,
                trace@.requests == checked_models(requests@),
                trace@.checks.last() == self.log@.len(),
                checked_along(abi, process_id, raw@, self.log@, at, trace@),
                all_sized(requests@),
            decreases count - index,
        {
            let from: usize = index * REQUEST_SUBMIT_ARGS_SIZE;
            let one: &[u8] = vstd::slice::slice_subrange(
                raw,
                from,
                from + REQUEST_SUBMIT_ARGS_SIZE,
            );
            assert(one@ == record(raw@, 64, index as int));
            let ghost log = self.log@;
            let checked: Result<ValidatedRequest, Status> = self.parse_and_validate_request(
                process_id,
                one,
            );
            proof {
                lemma_checked_stays(abi, process_id, raw@, log, self.log@, at, trace@);
                assert(self.log@.take(self.log@.len() as int) =~= self.log@);
                assert(request_known(
                    abi,
                    process_id,
                    record(raw@, 64, index as int),
                    self.log@,
                    log.len() as int,
                    self.log@.len() as int,
                    checked_of(checked),
                ));
            }
            match checked {
                Err(status) => {
                    assert(check_failed(
                        abi,
                        process_id,
                        raw@,
                        self.log@,
                        trace@,
                        Err(status),
                        Err(status),
                    ));
                    return (Err(status), trace);
                },
                Ok(request) => {
                    if request.head.completion_mode == RequestCompletionMode::Block {
                        assert(check_failed(
                            abi,
                            process_id,
                            raw@,
                            self.log@,
                            trace@,
                            Ok(request.model()),
                            Err(Status::InvalidArgument),
                        ));
                        return (Err(Status::InvalidArgument), trace);
                    }
                    proof {
                        let longer = BatchTrace {
                            checks: trace@.checks.push(self.log@.len() as int),
                            requests: trace@.requests.push(request.model()),
                            ..trace@
                        };
                        lemma_checked_grows(
                            abi,
                            process_id,
                            raw@,
                            self.log@,
                            at,
                            trace@,
                            self.log@.len() as int,
                            request.model(),
                        );
                        assert(checked_models(requests@.push(request)) =~= longer.requests);
                        trace@ = longer;
                    }
                    requests.push(request);
                },
            }
            index += 1;
        }
        (Ok(requests), trace)
    }

    /// Makes one request of a batch ready.
    fn prepare_slot(&mut self, process_id: u64, thread: u64, request: &ValidatedRequest) -> (result:
        Result<Option<PreparedBrokerRequest>, Status>)
        requires
            request.head.operation != RequestOperation::Nop,
            forall|j: int|
                0 <= j < request.buffers@.len() ==> (#[trigger] request.buffers@[j]).length > 0,
        ensures
            final(self).kept(*old(self)),
            result matches Ok(prepared) ==> slot_ready(
                old(self).abi,
                process_id,
                thread,
                request.model(),
                final(self).log@,
                old(self).log@.len() as int,
                final(self).log@.len() as int,
                (match prepared {
                    Some(prepared) => Some(prepared.model()),
                    None => None,
                }),
            ),
            result matches Err(status) ==> request_ready(
                old(self).abi,
                process_id,
                thread,
                request.model(),
                final(self).log@,
                old(self).log@.len() as int,
                final(self).log@.len() as int,
                Err(status),
            ),
    {
        let ghost abi = self.abi;
        let ghost log = self.log@;
        let prepared: Result<PreparedBrokerRequest, Status> = self.prepare_broker_request(
            process_id,
            thread,
            request,
        );
        let ghost known = self.log@;
        proof {
            assert(known.take(known.len() as int) =~= known);
            assert(request_ready(
                abi,
                process_id,
                thread,
                request.model(),
                known,
                log.len() as int,
                known.len() as int,
                prepared_of(prepared),
            ));
        }
        match prepared {
            Err(status) => Err(status),
            Ok(broker_request) => {
                if request.head.completion_mode == RequestCompletionMode::InlineOnly {
                    let pins: Vec<u64> = pinned_pages(broker_request.buffers.as_slice());
                    self.unpin_all(pins.as_slice());
                    proof {
                        lemma_known_stays(known, self.log@, known.len() as int);
                        assert(request_ready(
                            abi,
                            process_id,
                            thread,
                            request.model(),
                            self.log@,
                            log.len() as int,
                            known.len() as int,
                            Ok(broker_request.model()),
                        ));
                    }
                    Ok(None)
                } else {
                    Ok(Some(broker_request))
                }
            },
        }
    }

    /// Makes the requests of a batch ready.
    fn prepare_batch(
        &mut self,
        process_id: u64,
        thread: u64,
        requests: &Vec<ValidatedRequest>,
        Ghost(checked): Ghost<BatchTrace>,
    ) -> (result: (Result<ReadyBatch, Status>, Ghost<BatchTrace>))
        requires
            all_sized(requests@),
            checked.requests == checked_models(requests@),
        ensures
            final(self).kept(*old(self)),
            result.1@.checks == checked.checks,
            result.1@.requests == checked.requests,
            prepared_along(
                old(self).abi,
                process_id,
                thread,
                final(self).log@,
                old(self).log@.len() as int,
                result.1@,
            ),
            result.0 matches Ok(batch) ==> {
                &&& result.1@.ready.len() == requests@.len()
                &&& batch.follows(old(self).abi, result.1@)
                &&& result.1@.preparations.last() == final(self).log@.len()
            },
            result.0 matches Err(status) ==> {
                &&& result.1@.ready.len() < requests@.len()
                &&& preparation_refused(
                    old(self).abi,
                    process_id,
                    thread,
                    final(self).log@,
                    result.1@,
                    Err(status),
                )
            },
    {
        let ghost at = self.log@.len() as int;
        let ghost abi = self.abi;
        let mut batch: ReadyBatch = ReadyBatch {
            prepared: Vec::new(),
            indices: Vec::new(),
            outputs: Vec::new(),
            pins: Vec::new(),
        };
        let mut trace: Ghost<BatchTrace> = Ghost(
            BatchTrace { preparations: seq![at], ready: Seq::empty(), ..checked },
        );
        proof {
            assert(request_models(batch.prepared@) =~= sent(trace@.ready));
            assert(place_indices(batch.indices@) =~= places(trace@.ready));
            assert(batch.pins@ =~= all_pins(sent(trace@.ready)));
        }
        let mut index: usize = 0;
        while index < requests.len()
            invariant
                index <= requests@.len(),
                at == old(self).log@.len(),
                abi == old(self).abi,
                self.kept(*old(self)),
                all_sized(requests@),
                checked.requests == checked_models(requests@),
                trace@.checks == checked.checks,
                trace@.requests == checked.requests,
                trace@.ready.len() == index,
                prepared_along(abi, process_id, thread, self.log@, at, trace@),
                trace@.preparations.last() == self.log@.len(),
                batch.follows(abi, trace@),
            decreases requests@.len() - index,
        {
            let request: &ValidatedRequest = &requests[index];
            let ghost log = self.log@;
            let ghost before = trace@;
            assert(before.requests[index as int] == request.model());
            if request.head.operation == RequestOperation::Nop {
                batch.outputs.push(completed_request_output(&self.abi, Status::Success));
                proof {
                    lemma_prepared_grows(
                        abi,
                        process_id,
                        thread,
                        log,
                        at,
                        before,
                        log.len() as int,
                        None,
                    );
                    trace@ = grown(before, log.len() as int, None);
                    assert(trace@.ready.drop_last() =~= before.ready);
                }
            } else {
                assert forall|j: int| 0 <= j < request.buffers@.len() implies (
                #[trigger] request.buffers@[j]).length > 0 by {
                    assert(requests@[index as int].buffers@[j].length > 0);
                }
                let prepared: Result<Option<PreparedBrokerRequest>, Status> = self.prepare_slot(
                    process_id,
                    thread,
                    request,
                );
                let ghost known = self.log@;
                proof {
                    lemma_prepared_stays(abi, process_id, thread, log, known, at, before);
                }
                match prepared {
                    Err(status) => {
                        self.unpin_all(batch.pins.as_slice());
                        proof {
                            lemma_prepared_stays(
                                abi,
                                process_id,
                                thread,
                                known,
                                self.log@,
                                at,
                                before,
                            );
                            lemma_known_stays(known, self.log@, known.len() as int);
                            assert(preparation_stopped(
                                abi,
                                process_id,
                                thread,
                                self.log@,
                                trace@,
                                known.len() as int,
                                Err(status),
                            ));
                        }
                        return (Err(status), trace);
                    },
                    Ok(None) => {
                        batch.outputs.push(
                            pending_request_output(&self.abi, self.abi.invalid_handle),
                        );
                        proof {
                            lemma_prepared_grows(
                                abi,
                                process_id,
                                thread,
                                known,
                                at,
                                before,
                                known.len() as int,
                                None,
                            );
                            trace@ = grown(before, known.len() as int, None);
                            assert(trace@.ready.drop_last() =~= before.ready);
                        }
                    },
                    Ok(Some(broker_request)) => {
                        let ghost model = broker_request.model();
                        batch.outputs.push(
                            pending_request_output(&self.abi, self.abi.invalid_handle),
                        );
                        proof {
                            lemma_prepared_grows(
                                abi,
                                process_id,
                                thread,
                                known,
                                at,
                                before,
                                known.len() as int,
                                Some(model),
                            );
                            trace@ = grown(before, known.len() as int, Some(model));
                            assert(trace@.ready.drop_last() =~= before.ready);
                            assert(sent(trace@.ready).drop_last() =~= sent(before.ready));
                        }
                        batch.add(index, broker_request);
                    },
                }
            }
            index += 1;
        }
        (Ok(batch), trace)
    }
}

/// The outputs depend only on the answers that they were made of.
proof fn lemma_outputs_stay(
    abi: Abi,
    trace: BatchTrace,
    log: Seq<Event>,
    longer: Seq<Event>,
    at: int,
    count: nat,
)
    requires
        0 <= at,
        at + 2 * count <= log.len(),
        extends(log, longer),
    ensures
        outputs_after(abi, trace, longer, at, count) == outputs_after(abi, trace, log, at, count),
    decreases count,
{
    if count > 0 {
        lemma_outputs_stay(abi, trace, log, longer, at, (count - 1) as nat);
        let last = count - 1;
        assert(longer[at + 2 * last] == log[at + 2 * last]);
        assert(longer[at + 2 * last + 1] == log[at + 2 * last + 1]);
    }
}

/// What was installed stays installed.
proof fn lemma_installed_stays(
    ids: Seq<u64>,
    log: Seq<Event>,
    longer: Seq<Event>,
    at: int,
    count: int,
)
    requires
        0 <= at,
        installed(ids, log, at, count),
        extends(log, longer),
    ensures
        installed(ids, longer, at, count),
{
    assert forall|i: int| 0 <= i < count implies ({
        let request = #[trigger] ids[i];
        &&& longer[at + 2 * i].ask == Ask::Plain(Call::InstallRequest { request })
        &&& longer[at + 2 * i].answer matches Answer::Handle(Ok(_))
        &&& longer[at + 2 * i + 1].ask == Ask::RequestInfo(request)
        &&& longer[at + 2 * i + 1].answer matches Answer::RequestInfo(Some(_))
    }) by {
        assert(longer[at + 2 * i] == log[at + 2 * i]);
        assert(longer[at + 2 * i + 1] == log[at + 2 * i + 1]);
    }
}

/// Handles stay what they were.
proof fn lemma_handles_stay(log: Seq<Event>, longer: Seq<Event>, at: int, count: nat)
    requires
        0 <= at,
        extends(log, longer),
        count > 0 ==> at + 2 * (count - 1) < log.len(),
    ensures
        new_handles(longer, at, count) == new_handles(log, at, count),
{
    assert forall|i: int| 0 <= i < count implies #[trigger] new_handles(longer, at, count)[i]
        == new_handles(log, at, count)[i] by {
        assert(longer[at + 2 * i] == log[at + 2 * i]);
    }
    assert(new_handles(longer, at, count) =~= new_handles(log, at, count));
}

impl<K: Kernel> Session<K> {
    /// Closes handles and cancels requests.
    fn withdraw_all(&mut self, handles: &[Handle], ids: &[u64], now_ns: u64)
        ensures
            final(self).kept(*old(self)),
            asked_from(
                final(self).log@,
                old(self).log@.len() as int,
                close_asks(old(self).abi, handles@) + cancel_asks(ids@, now_ns),
            ),
    {
        self.close_handles(handles);
        let ghost closed = self.log@;
        let ghost base = old(self).log@.len() as int;
        let ghost closes = close_asks(old(self).abi, handles@);
        let mut index: usize = 0;
        while index < ids.len()
            invariant
                index <= ids@.len(),
                self.kept(*old(self)),
                extends(closed, self.log@),
                self.log@.len() == closed.len() + index,
                forall|i: int|
                    0 <= i < index ==> self.log@[closed.len() + i].ask == #[trigger] cancel_asks(
                        ids@,
                        now_ns,
                    )[i],
            decreases ids@.len() - index,
        {
            let _ = self.done(Call::CancelRequest { request: ids[index], now_ns });
            index += 1;
        }
        proof {
            let asks = closes + cancel_asks(ids@, now_ns);
            assert forall|i: int| 0 <= i < asks.len() implies self.log@[base + i].ask
                == #[trigger] asks[i] by {
                if i < closes.len() {
                    assert(self.log@[base + i] == closed[base + i]);
                } else {
                    assert(asks[i] == cancel_asks(ids@, now_ns)[i - closes.len()]);
                }
            }
        }
    }

    /// Gives the requests of a batch handles and tells the submitter.
    fn hand_out_batch(
        &mut self,
        batch: &HandedBatch,
        ids: &Vec<u64>,
        outputs_address: u64,
        now_ns: u64,
        Ghost(trace): Ghost<BatchTrace>,
    ) -> (result: Result<(), Status>)
        requires
            batch.follows(old(self).abi, trace),
            trace.ready.len() == trace.requests.len(),
        ensures
            final(self).kept(*old(self)),
            batch_handed_out(
                old(self).abi,
                trace,
                ids@,
                outputs_address,
                now_ns,
                final(self).log@,
                old(self).log@.len() as int,
                result,
            ),
    {
        let ghost at = self.log@.len() as int;
        let ghost abi = self.abi;
        let mut outputs: Vec<RequestSubmitOutput> = Vec::new();
        let mut copied: usize = 0;
        while copied < batch.outputs.len()
            invariant
                copied <= batch.outputs@.len(),
                outputs@ == batch.outputs@.subrange(0, copied as int),
            decreases batch.outputs@.len() - copied,
        {
            outputs.push(batch.outputs[copied]);
            copied += 1;
            assert(outputs@ =~= batch.outputs@.subrange(0, copied as int));
        }
        let mut handles: Vec<Handle> = Vec::new();
        let mut index: usize = 0;
        proof {
            lemma_places(trace.ready);
            assert(outputs@ =~= outputs_after(abi, trace, self.log@, at, 0));
            assert(handles@ =~= new_handles(self.log@, at, 0));
        }
        while index < ids.len() && index < batch.indices.len()
            invariant
                index <= ids@.len(),
                index <= batch.indices@.len(),
                at == old(self).log@.len(),
                abi == old(self).abi,
                self.kept(*old(self)),
                batch.follows(abi, trace),
                trace.ready.len() == trace.requests.len(),
                forall|i: int|
                    0 <= i < places(trace.ready).len() ==> 0 <= #[trigger] places(trace.ready)[i]
                        < trace.ready.len(),
                self.log@.len() == at + 2 * index,
                installed(ids@, self.log@, at, index as int),
                outputs@ == outputs_after(abi, trace, self.log@, at, index as nat),
                outputs@.len() == trace.requests.len(),
                handles@ == new_handles(self.log@, at, index as nat),
            decreases ids@.len() - index,
        {
            let request: u64 = ids[index];
            let ghost log = self.log@;
            let handle: Handle = match self.handle(Call::InstallRequest { request }) {
                Ok(handle) => handle,
                Err(status) => {
                    self.withdraw_all(handles.as_slice(), ids.as_slice(), now_ns);
                    proof {
                        lemma_installed_stays(ids@, log, self.log@, at, index as int);
                        lemma_handles_stay(log, self.log@, at, index as nat);
                        assert(install_failed(
                            abi,
                            ids@,
                            now_ns,
                            self.log@,
                            at,
                            index as nat,
                            Err(status),
                        ));
                    }
                    return Err(status);
                },
            };
            handles.push(handle);
            proof {
                lemma_handles_stay(log, self.log@, at, index as nat);
                assert(handles@ =~= new_handles(self.log@, at, (index + 1) as nat));
            }
            let ghost known = self.log@;
            let info: RequestInfo = match self.request_info(request) {
                Some(info) => info,
                None => {
                    self.withdraw_all(handles.as_slice(), ids.as_slice(), now_ns);
                    proof {
                        lemma_installed_stays(ids@, log, self.log@, at, index as int);
                        lemma_handles_stay(known, self.log@, at, (index + 1) as nat);
                        assert(install_failed(
                            abi,
                            ids@,
                            now_ns,
                            self.log@,
                            at,
                            index as nat,
                            Err(Status::InvalidHandle),
                        ));
                    }
                    return Err(Status::InvalidHandle);
                },
            };
            let place: usize = batch.indices[index];
            proof {
                assert(place_indices(batch.indices@)[index as int] == place);
                lemma_outputs_stay(abi, trace, log, self.log@, at, index as nat);
                lemma_installed_stays(ids@, log, self.log@, at, index as int);
                lemma_handles_stay(known, self.log@, at, (index + 1) as nat);
            }
            outputs.set(place, request_output_from_info(handle, info));
            index += 1;
        }
        let encoded: Vec<u8> = encode_outputs(outputs.as_slice());
        let ghost log = self.log@;
        let told: Result<(), Status> = self.copy_out(outputs_address, encoded.as_slice());
        let ghost known = self.log@;
        let ghost count: nat = index as nat;
        let ghost place = at + 2 * count;
        proof {
            assert(place_indices(batch.indices@).len() == batch.indices@.len());
        }
        match told {
            Ok(()) => {
                proof {
                    lemma_outputs_stay(abi, trace, log, self.log@, at, count);
                    lemma_installed_stays(ids@, log, self.log@, at, count as int);
                }
                told
            },
            Err(status) => {
                self.withdraw_all(handles.as_slice(), ids.as_slice(), now_ns);
                proof {
                    lemma_outputs_stay(abi, trace, log, self.log@, at, count);
                    lemma_installed_stays(ids@, log, self.log@, at, count as int);
                    lemma_handles_stay(log, self.log@, at, count);
                    assert(self.log@[place] == known[place]);
                    assert(asked_from(
                        self.log@,
                        place + 1,
                        close_asks(abi, new_handles(self.log@, at, count)) + cancel_asks(
                            ids@,
                            now_ns,
                        ),
                    ));
                }
                Err(status)
            },
        }
    }

    /// Submits several requests, all or none.
    pub fn request_submit_batch(
        &mut self,
        process_id: u64,
        thread: u64,
        args_address: u64,
        now_ns: u64,
    ) -> (result: Result<(), Status>)
        ensures
            final(self).kept(*old(self)),
            did_request_submit_batch(
                old(self).abi,
                process_id,
                thread,
                args_address,
                now_ns,
                old(self).log@,
                final(self).log@,
                result,
            ),
    {
        let ghost base = self.log@.len() as int;
        let ghost abi = self.abi;
        let raw_args: Vec<u8> = self.copy_in(args_address, REQUEST_SUBMIT_BATCH_ARGS_SIZE)?;
        let head: BatchHead = parse_batch(&self.abi, raw_args.as_slice())?;
        self.check_output(head.outputs_address, head.outputs_len)?;
        let raw: Vec<u8> = self.copy_in(head.submissions_address, head.submissions_len)?;
        let ghost read = self.log@;
        let (result, trace): (Result<(), Status>, Ghost<BatchTrace>) = self.run_batch(
            process_id,
            thread,
            &head,
            raw.as_slice(),
            now_ns,
        );
        proof {
            assert(self.log@[base] == read[base]);
            assert(self.log@[base + 1] == read[base + 1]);
            assert(self.log@[base + 2] == read[base + 2]);
            assert(batch_along(
                abi,
                process_id,
                thread,
                head,
                self.log@[base + 2].bytes(),
                now_ns,
                self.log@,
                base + 3,
                trace@,
                result,
            ));
        }
        result
    }

    /// Carries out a batch whose records were read.
    fn run_batch(
        &mut self,
        process_id: u64,
        thread: u64,
        head: &BatchHead,
        raw: &[u8],
        now_ns: u64,
    ) -> (answer: (Result<(), Status>, Ghost<BatchTrace>))
        requires
            raw@.len() == head.count * 64,
        ensures
            final(self).kept(*old(self)),
            batch_along(
                old(self).abi,
                process_id,
                thread,
                *head,
                raw@,
                now_ns,
                final(self).log@,
                old(self).log@.len() as int,
                answer.1@,
                answer.0,
            ),
    {
        let ghost at = self.log@.len() as int;
        let ghost abi = self.abi;
        let (checked, trace): (Result<Vec<ValidatedRequest>, Status>, Ghost<BatchTrace>) =
            self.check_batch(process_id, raw, head.count);
        let requests: Vec<ValidatedRequest> = match checked {
            Ok(requests) => requests,
            Err(status) => {
                return (Err(status), trace);
            },
        };
        let ghost known = self.log@;
        let limits: RequestLimits = self.limits();
        let ghost limited = self.log@;
        proof {
            lemma_checked_stays(abi, process_id, raw@, known, limited, at, trace@);
        }
        if let Err(status) = check_limits(&requests, limits) {
            return (Err(status), trace);
        }
        let (prepared, trace): (Result<ReadyBatch, Status>, Ghost<BatchTrace>) =
            self.prepare_batch(process_id, thread, &requests, trace);
        let ghost ready = self.log@;
        proof {
            lemma_same_checks(abi, process_id, raw@, limited, ready, at, trace@);
            assert(ready[known.len() as int] == limited[known.len() as int]);
        }
        let batch: ReadyBatch = match prepared {
            Ok(batch) => batch,
            Err(status) => {
                return (Err(status), trace);
            },
        };
        proof {
            lemma_places(trace@.ready);
        }
        if batch.prepared.len() == 0 {
            let encoded: Vec<u8> = encode_outputs(batch.outputs.as_slice());
            proof {
                assert(request_models(batch.prepared@).len() == 0);
                assert(batch.outputs@ =~= outputs_after(
                    abi,
                    trace@,
                    self.log@,
                    ready.len() as int,
                    0,
                ));
            }
            let told: Result<(), Status> = self.copy_out(
                head.outputs_address,
                encoded.as_slice(),
            );
            proof {
                lemma_same_checks(abi, process_id, raw@, ready, self.log@, at, trace@);
                lemma_prepared_stays(
                    abi,
                    process_id,
                    thread,
                    ready,
                    self.log@,
                    limited.len() as int,
                    trace@,
                );
                assert(self.log@[known.len() as int] == limited[known.len() as int]);
            }
            return (told, trace);
        }
        let ReadyBatch { prepared, indices, outputs, pins } = batch;
        let ghost models = request_models(prepared@);
        let submitted: Result<Vec<u64>, Status> = self.submit_batch(prepared, now_ns);
        let ghost sent_log = self.log@;
        proof {
            lemma_same_checks(abi, process_id, raw@, ready, sent_log, at, trace@);
            lemma_prepared_stays(
                abi,
                process_id,
                thread,
                ready,
                sent_log,
                limited.len() as int,
                trace@,
            );
        }
        match submitted {
            Err(status) => {
                self.unpin_all(pins.as_slice());
                proof {
                    lemma_same_checks(abi, process_id, raw@, sent_log, self.log@, at, trace@);
                    lemma_prepared_stays(
                        abi,
                        process_id,
                        thread,
                        sent_log,
                        self.log@,
                        limited.len() as int,
                        trace@,
                    );
                    assert(self.log@[known.len() as int] == limited[known.len() as int]);
                    assert(self.log@[ready.len() as int] == sent_log[ready.len() as int]);
                }
                (Err(status), trace)
            },
            Ok(ids) => {
                let rest: HandedBatch = HandedBatch { indices, outputs };
                let result: Result<(), Status> = self.hand_out_batch(
                    &rest,
                    &ids,
                    head.outputs_address,
                    now_ns,
                    trace,
                );
                proof {
                    lemma_same_checks(abi, process_id, raw@, sent_log, self.log@, at, trace@);
                    lemma_prepared_stays(
                        abi,
                        process_id,
                        thread,
                        sent_log,
                        self.log@,
                        limited.len() as int,
                        trace@,
                    );
                    assert(self.log@[known.len() as int] == limited[known.len() as int]);
                    assert(self.log@[ready.len() as int] == sent_log[ready.len() as int]);
                }
                (result, trace)
            },
        }
    }
}

/// What was checked stays checked, whatever was made ready.
proof fn lemma_same_checks(
    abi: Abi,
    process_id: u64,
    raw: Seq<u8>,
    log: Seq<Event>,
    longer: Seq<Event>,
    at: int,
    trace: BatchTrace,
)
    requires
        0 <= at,
        extends(log, longer),
        checked_along(abi, process_id, raw, log, at, trace),
    ensures
        checked_along(abi, process_id, raw, longer, at, trace),
{
    lemma_checked_stays(abi, process_id, raw, log, longer, at, trace);
}

/// Holds the broker's limits against requests.
fn check_limits(requests: &Vec<ValidatedRequest>, limits: RequestLimits) -> (result: Result<
    (),
    Status,
>)
    requires
        all_sized(requests@),
    ensures
        result == (match first_refusal(checked_models(requests@), limits, requests@.len()) {
            Some(status) => Err(status),
            None => Ok(()),
        }),
{
    let ghost models = checked_models(requests@);
    let mut index: usize = 0;
    while index < requests.len()
        invariant
            index <= requests@.len(),
            all_sized(requests@),
            models == checked_models(requests@),
            first_refusal(models, limits, index as nat) is None,
        decreases requests@.len() - index,
    {
        assert forall|j: int| 0 <= j < requests@[index as int].buffers@.len() implies (
        #[trigger] requests@[index as int].buffers@[j]).length > 0 by {}
        assert(models[index as int].buffers == requests@[index as int].buffers@);
        if let Err(status) = preflight_request_resources(
            requests[index].buffers.as_slice(),
            limits,
        ) {
            proof {
                lemma_refusal_stays(models, limits, (index + 1) as nat, models.len());
            }
            return Err(status);
        }
        index += 1;
    }
    Ok(())
}

/// The first refusal stays the first.
proof fn lemma_refusal_stays(
    requests: Seq<CheckedRequest>,
    limits: RequestLimits,
    short: nat,
    long: nat,
)
    requires
        short <= long,
        first_refusal(requests, limits, short) is Some,
    ensures
        first_refusal(requests, limits, long) == first_refusal(requests, limits, short),
    decreases long,
{
    if short < long {
        lemma_refusal_stays(requests, limits, short, (long - 1) as nat);
    }
}

} // verus!
