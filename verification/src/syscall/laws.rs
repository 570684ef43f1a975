//! What holds of system calls whatever the rest of the kernel answers.
use vstd::prelude::*;

use super::abi::{register_of, Abi, Handle, Status};
use super::batch::{
    batch_sent, cancel_asks, install_failed, new_handles, sent, all_pins, BatchTrace,
};
use super::batch::{batch_handed_out, places};
use super::blocked::{flag_set, wait_completed, wait_polled, wait_writes, BlockedPoll};
use super::dispatch::{reported, SyscallOutcome};
use super::file_io::sent_to_block;
use super::files::given;
use super::handles::close_asks;
use super::heard::told_nobody;
use super::kernel::{
    asked_from, passed, Ask, BufferModel, Call, DispatchResult, Event, PinnedOutput, RequestModel,
};
use super::requests::{pins_of, unpin_asks};
verus! {

/// Something was asked for from event `at` on.
pub open spec fn asked_since(log: Seq<Event>, at: int, ask: Ask) -> bool {
    exists|i: int| at <= i < log.len() && (#[trigger] log[i]).ask == ask
}

/// These pages were given back from event `at` on.
pub open spec fn unpinned(log: Seq<Event>, at: int, pages: u64) -> bool {
    asked_since(log, at, Ask::Plain(Call::Unpin { pages }))
}

/// A buffer pins these pages.
pub open spec fn pins(buffer: BufferModel, pages: u64) -> bool {
    buffer matches BufferModel::Pinned { pages: pinned, .. } && pinned == pages
}

/// What a buffer pins is among what all of them pin.
proof fn lemma_pin_is_listed(buffers: Seq<BufferModel>, index: int, pages: u64)
    requires
        0 <= index < buffers.len(),
        pins(buffers[index], pages),
    ensures
        pins_of(buffers).contains(pages),
    decreases buffers.len(),
{
    let rest = pins_of(buffers.drop_last());
    if index == buffers.len() - 1 {
        assert(pins_of(buffers) == rest.push(pages));
        assert(pins_of(buffers)[rest.len() as int] == pages);
    } else {
        lemma_pin_is_listed(buffers.drop_last(), index, pages);
        let place = choose|i: int| 0 <= i < rest.len() && rest[i] == pages;
        assert(pins_of(buffers)[place] == pages);
    }
}

/// What is listed is given back.
proof fn lemma_listed_is_unpinned(
    log: Seq<Event>,
    at: int,
    list: Seq<u64>,
    more: Seq<Ask>,
    pages: u64,
)
    requires
        0 <= at,
        asked_from(log, at, unpin_asks(list) + more),
        list.contains(pages),
    ensures
        unpinned(log, at, pages),
{
    let place = choose|i: int| 0 <= i < list.len() && list[i] == pages;
    let asks = unpin_asks(list) + more;
    let step = list.len() - 1 - place;
    assert(asks[step] == Ask::Plain(Call::Unpin { pages }));
    assert(log[at + step].ask == asks[step]);
}

/// A request that the broker refuses leaves nothing pinned: every page that its buffers
/// pinned is given back, and so is the page of the count.
pub proof fn law_refused_requests_leave_nothing_pinned(
    model: RequestModel,
    count: Option<PinnedOutput>,
    thread: u64,
    now_ns: u64,
    log: Seq<Event>,
    at: int,
    status: Status,
)
    requires
        0 <= at,
        sent_to_block(
            model,
            count,
            thread,
            now_ns,
            log,
            at,
            Err::<DispatchResult, Status>(status),
        ),
        log[at].answer->Number_0 is Err,
    ensures
        forall|i: int, pages: u64|
            0 <= i < model.buffers.len() && #[trigger] pins(model.buffers[i], pages) ==> unpinned(
                log,
                at,
                pages,
            ),
        count matches Some(output) ==> unpinned(log, at, output.pages),
{
    let list = pins_of(model.buffers);
    let more = super::file_io::count_unpin(count);
    assert forall|i: int, pages: u64|
        0 <= i < model.buffers.len() && #[trigger] pins(model.buffers[i], pages) implies unpinned(
        log,
        at,
        pages,
    ) by {
        lemma_pin_is_listed(model.buffers, i, pages);
        lemma_listed_is_unpinned(log, at + 1, list, more, pages);
        let place = choose|j: int|
            at + 1 <= j < log.len() && (#[trigger] log[j]).ask == Ask::Plain(Call::Unpin { pages });
        assert(log[place].ask == Ask::Plain(Call::Unpin { pages }));
    }
    if let Some(output) = count {
        let asks = unpin_asks(list) + more;
        assert(asks[list.len() as int] == Ask::Plain(Call::Unpin { pages: output.pages }));
        assert(log[at + 1 + list.len()].ask == asks[list.len() as int]);
    }
}

/// A request that was accepted but cannot be waited for is canceled, and the page of its
/// count is given back.
pub proof fn law_unreachable_requests_are_canceled(
    model: RequestModel,
    count: Option<PinnedOutput>,
    thread: u64,
    now_ns: u64,
    log: Seq<Event>,
    at: int,
    status: Status,
)
    requires
        0 <= at,
        sent_to_block(
            model,
            count,
            thread,
            now_ns,
            log,
            at,
            Err::<DispatchResult, Status>(status),
        ),
        log[at].answer->Number_0 is Ok,
    ensures
        asked_since(
            log,
            at,
            Ask::Plain(
                Call::CancelRequest { request: log[at].answer->Number_0->Ok_0, now_ns },
            ),
        ),
        count matches Some(output) ==> unpinned(log, at, output.pages),
{
    let request = log[at].answer->Number_0->Ok_0;
    let cancel = seq![Ask::Plain(Call::CancelRequest { request, now_ns })];
    let asks = cancel + super::file_io::count_unpin(count);
    assert(asks[0] == cancel[0]);
    assert(log[at + 2 + 0].ask == asks[0]);
    if let Some(output) = count {
        assert(asks[1] == Ask::Plain(Call::Unpin { pages: output.pages }));
        assert(log[at + 2 + 1].ask == asks[1]);
    }
}

/// A batch that the broker has taken and that fails afterwards leaves no request behind:
/// every one of them is canceled.
pub proof fn law_failed_batches_leave_no_request(
    abi: Abi,
    trace: BatchTrace,
    outputs_address: u64,
    now_ns: u64,
    log: Seq<Event>,
    at: int,
    status: Status,
)
    requires
        0 <= at,
        sent(trace.ready).len() > 0,
        batch_sent(abi, trace, outputs_address, now_ns, log, at, Err::<(), Status>(status)),
        log[at].answer->Numbers_0 is Ok,
    ensures
        forall|i: int|
            0 <= i < log[at].answer->Numbers_0->Ok_0.len() ==> asked_since(
                log,
                at,
                Ask::Plain(
                    Call::CancelRequest {
                        request: #[trigger] log[at].answer->Numbers_0->Ok_0[i],
                        now_ns,
                    },
                ),
            ),
{
    let ids = log[at].answer->Numbers_0->Ok_0;
    let result = Err::<(), Status>(status);
    let count = if ids.len() <= places(trace.ready).len() {
        ids.len()
    } else {
        places(trace.ready).len()
    };
    let start = at + 1;
    assert(batch_handed_out(abi, trace, ids, outputs_address, now_ns, log, start, result));
    let (from, handles) = if exists|failed: nat|
        failed < count && #[trigger] install_failed(abi, ids, now_ns, log, start, failed, result) {
        let failed = choose|failed: nat|
            failed < count && #[trigger] install_failed(
                abi,
                ids,
                now_ns,
                log,
                start,
                failed,
                result,
            );
        let place = start + 2 * failed;
        match log[place].answer->Handle_0 {
            Err(_) => (place + 1, new_handles(log, start, failed)),
            Ok(_) => (place + 2, new_handles(log, start, failed + 1)),
        }
    } else {
        (start + 2 * count + 1, new_handles(log, start, count))
    };
    let closes = close_asks(abi, handles);
    let asks = closes + cancel_asks(ids, now_ns);
    assert(asked_from(log, from, asks));
    assert forall|i: int| 0 <= i < ids.len() implies asked_since(
        log,
        at,
        Ask::Plain(Call::CancelRequest { request: #[trigger] ids[i], now_ns }),
    ) by {
        let place = closes.len() + i;
        assert(asks[place] == Ask::Plain(Call::CancelRequest { request: ids[i], now_ns }));
        assert(log[from + place].ask == asks[place]);
    }
}

/// A batch that the broker refuses leaves nothing pinned.
pub proof fn law_refused_batches_leave_nothing_pinned(
    abi: Abi,
    trace: BatchTrace,
    outputs_address: u64,
    now_ns: u64,
    log: Seq<Event>,
    at: int,
    status: Status,
    request: int,
    buffer: int,
    pages: u64,
)
    requires
        0 <= at,
        0 <= request < sent(trace.ready).len(),
        batch_sent(abi, trace, outputs_address, now_ns, log, at, Err::<(), Status>(status)),
        log[at].answer->Numbers_0 is Err,
        0 <= buffer < sent(trace.ready)[request].buffers.len(),
        pins(sent(trace.ready)[request].buffers[buffer], pages),
    ensures
        unpinned(log, at, pages),
{
    let requests = sent(trace.ready);
    lemma_pin_is_listed(requests[request].buffers, buffer, pages);
    lemma_all_pins_hold(requests, request, pages);
    assert(unpin_asks(all_pins(requests)) + Seq::<Ask>::empty() =~= unpin_asks(
        all_pins(requests),
    ));
    lemma_listed_is_unpinned(log, at + 1, all_pins(requests), Seq::empty(), pages);
    let place = choose|j: int|
        at + 1 <= j < log.len() && (#[trigger] log[j]).ask == Ask::Plain(Call::Unpin { pages });
    assert(log[place].ask == Ask::Plain(Call::Unpin { pages }));
}

/// What one request pins is among what all of them pin.
proof fn lemma_all_pins_hold(models: Seq<RequestModel>, request: int, pages: u64)
    requires
        0 <= request < models.len(),
        pins_of(models[request].buffers).contains(pages),
    ensures
        all_pins(models).contains(pages),
    decreases models.len(),
{
    let rest = all_pins(models.drop_last());
    let last = pins_of(models.last().buffers);
    if request == models.len() - 1 {
        let place = choose|i: int| 0 <= i < last.len() && last[i] == pages;
        assert(all_pins(models)[rest.len() + place] == pages);
    } else {
        lemma_all_pins_hold(models.drop_last(), request, pages);
        let place = choose|i: int| 0 <= i < rest.len() && rest[i] == pages;
        assert(all_pins(models)[place] == pages);
    }
}

/// A handle that a process was not given is closed again.
pub proof fn law_lost_handles_are_closed(
    abi: Abi,
    address: u64,
    handle: Handle,
    log: Seq<Event>,
    at: int,
    status: Status,
)
    requires
        0 <= at,
        abi.valid(handle),
        given(abi, address, handle, log, at, Err::<(), Status>(status)),
    ensures
        asked_since(log, at, Ask::Plain(Call::CloseHandle { handle })),
{
    let asks = close_asks(abi, seq![handle]);
    assert(seq![handle].drop_last() =~= Seq::empty());
    assert(close_asks(abi, seq![handle].drop_last()) == Seq::<Ask>::empty());
    assert(asks[0] == Ask::Plain(Call::CloseHandle { handle }));
    assert(log[at + 1 + 0].ask == asks[0]);
}

/// A wait ends as it was found to end: with success where an object was ready, and else
/// with the status that was kept. What is ready counts before the deadline.
pub proof fn law_waits_end_as_they_were_found(
    abi: Abi,
    thread: u64,
    now_ns: u64,
    polled: Seq<Event>,
    poll_at: int,
    ended: Seq<Event>,
    end_at: int,
    status: Status,
)
    requires
        0 <= poll_at,
        0 <= end_at,
        wait_polled(thread, now_ns, polled, poll_at, BlockedPoll::Complete),
        polled[poll_at].answer->Wait_0.completion is None,
        polled[poll_at + 1].answer->Poll_0 is Ok,
        ({
            let wait = super::blocked::wait_after(
                polled[poll_at].answer->Wait_0,
                polled,
                poll_at + 1,
                now_ns,
            );
            &&& wait_completed(abi, thread, wait, ended, end_at, status)
            &&& flag_set(ended, end_at)
            &&& passed(ended, end_at + 1, wait_writes(wait, wait.completion->Some_0))
        }),
    ensures
        status == if polled[poll_at + 1].answer->Poll_0->Ok_0.0 is Some {
            Status::Success
        } else {
            Status::TimedOut
        },
{
    let wait = super::blocked::wait_after(
        polled[poll_at].answer->Wait_0,
        polled,
        poll_at + 1,
        now_ns,
    );
    let writes = wait_writes(wait, wait.completion->Some_0);
    let end = ended.len() - 2;
    let last = end - (end_at + 1) - 1;
    if 0 <= last < writes.len() {
        assert(ended[end_at + 1 + last].ask == writes[last]);
        assert(ended.take(end)[end_at + 1 + last] == ended[end_at + 1 + last]);
    }
}

/// The thread of a system call that blocks is not told a status by it, and the scheduler
/// is told of the block; whatever is over has told its thread last of all.
pub proof fn law_blocked_threads_are_not_told(
    abi: Abi,
    thread: u64,
    before: Seq<Event>,
    after: Seq<Event>,
    outcome: SyscallOutcome,
)
    requires
        reported(abi, thread, before, after, outcome),
    ensures
        outcome == SyscallOutcome::Blocked ==> told_nobody(before, after),
        outcome == SyscallOutcome::Yield || outcome == SyscallOutcome::ChildCreated ==> (
        after.len() > before.len() && after.last().ask.tells() && told_nobody(
            before,
            after.drop_last(),
        )),
        outcome == SyscallOutcome::ChildCreated ==> after.last().ask == Ask::Plain(
            Call::SetReturn { thread, rax: register_of(abi, Status::Success) },
        ),
{
}

} // verus!
