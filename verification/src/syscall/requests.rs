//! Checking a request and making it ready for the broker.
use vstd::prelude::*;

use crate::bytes::zeros;
use crate::storage::reserve_exact;

use super::abi::{
    contains_bits, has_bits, Abi, Handle, ObjectType, RequestBufferKind, RequestOperation, Status,
};
use super::kernel::{
    asked_at, asked_from, ended_at, extends, failed_in, lemma_beginning, passed, stopped_at, Ask,
    BufferModel, Call, Event, Kernel, PreparedBrokerRequest, PreparedRequestBuffer,
    PreparedRequestTarget, RequestModel, RequestTerms, Session,
};
use super::request_wire::{
    buffer_rights, buffers_in, filesystem_request_target, head_in, node_target, operation_buffers,
    parse_request_buffers, parse_request_head, preflight_request_resources, request_buffer_rights,
    resources_checked, synthetic_request_target, synthetic_target, validate_operation_buffers, Node,
    RequestBuffer, RequestHead, RequestLimits, REQUEST_TARGET_AUDIO, REQUEST_TARGET_FILESYSTEM_ROOT,
};


verus! {

broadcast use super::heard::group_heard;

/// What a request is about: a number that tells requests on one thing from others, and
/// what the broker holds on to.
#[derive(Clone, Copy, Debug, PartialEq, Eq, Structural)]
pub struct RequestTarget {
    pub number: u64,
    pub lease: PreparedRequestTarget,
}

/// A request that was checked.
#[derive(Debug)]
pub struct ValidatedRequest {
    pub head: RequestHead,
    pub target: RequestTarget,
    pub buffers: Vec<RequestBuffer>,
}

/// A request that was checked.
#[verifier::ext_equal]
pub struct CheckedRequest {
    pub head: RequestHead,
    pub target: RequestTarget,
    pub buffers: Seq<RequestBuffer>,
}

impl ValidatedRequest {
    /// What this request holds.
    pub open spec fn model(&self) -> CheckedRequest {
        CheckedRequest { head: self.head, target: self.target, buffers: self.buffers@ }
    }
}

/// The request, as numbers.
pub open spec fn checked_of(result: Result<ValidatedRequest, Status>) -> Result<
    CheckedRequest,
    Status,
> {
    match result {
        Ok(request) => Ok(request.model()),
        Err(status) => Err(status),
    }
}

/// A target that needs no handle.
pub open spec fn handleless(
    abi: Abi,
    target: Handle,
    number: u64,
    log: Seq<Event>,
    base: int,
    result: Result<RequestTarget, Status>,
) -> bool {
    &&& log.len() == base
    &&& result == (if abi.valid(target) {
        Err(Status::InvalidArgument)
    } else {
        Ok(RequestTarget { number, lease: PreparedRequestTarget::Nothing })
    })
}

/// A target that is a node, found by one question.
pub open spec fn node_found(
    ask: Call,
    file: bool,
    log: Seq<Event>,
    at: int,
    result: Result<RequestTarget, Status>,
) -> bool {
    &&& asked_at(log, at, Ask::Plain(ask))
    &&& if log[at].refused() is Some {
        ended_at(log, at, result)
    } else {
        let node = log[at].node();
        &&& log.len() == at + 1
        &&& result == Ok::<RequestTarget, Status>(
            RequestTarget {
                number: node_target(node),
                lease: if file {
                    PreparedRequestTarget::File(node)
                } else {
                    PreparedRequestTarget::FilesystemSync
                },
            },
        )
    }
}

/// The target of a request to make changes durable: what the handle names is found first,
/// and the right to write to it is asked for.
pub open spec fn sync_target_found(
    abi: Abi,
    target: Handle,
    log: Seq<Event>,
    base: int,
    result: Result<RequestTarget, Status>,
) -> bool {
    let rights = abi.rights.write;
    &&& asked_at(log, base, Ask::Plain(Call::ObjectType { handle: target }))
    &&& match log[base].answer->ObjectType_0 {
        Err(status) => stopped_at(log, base, result, status),
        Ok(ObjectType::FilesystemRoot) => {
            &&& asked_at(log, base + 1, Ask::Plain(Call::Root { handle: target, rights }))
            &&& if log[base + 1].refused() is Some {
                ended_at(log, base + 1, result)
            } else {
                &&& log.len() == base + 2
                &&& result == Ok::<RequestTarget, Status>(
                    RequestTarget {
                        number: REQUEST_TARGET_FILESYSTEM_ROOT,
                        lease: PreparedRequestTarget::FilesystemSync,
                    },
                )
            }
        },
        Ok(ObjectType::Directory) => node_found(
            Call::Directory { handle: target, rights },
            false,
            log,
            base + 1,
            result,
        ),
        Ok(ObjectType::File) => node_found(
            Call::File { handle: target, rights },
            false,
            log,
            base + 1,
            result,
        ),
        Ok(_) => stopped_at(log, base, result, Status::WrongObjectType),
    }
}

/// The target of a request.
pub open spec fn target_found(
    abi: Abi,
    process_id: u64,
    target: Handle,
    operation: RequestOperation,
    operation_argument: u64,
    log: Seq<Event>,
    base: int,
    result: Result<RequestTarget, Status>,
) -> bool {
    match operation {
        RequestOperation::Nop => handleless(abi, target, 0, log, base, result),
        RequestOperation::FilesystemRead => node_found(
            Call::File { handle: target, rights: abi.rights.read },
            true,
            log,
            base,
            result,
        ),
        RequestOperation::FilesystemWrite => node_found(
            Call::File { handle: target, rights: abi.rights.write },
            true,
            log,
            base,
            result,
        ),
        RequestOperation::FilesystemSync => sync_target_found(abi, target, log, base, result),
        RequestOperation::AudioWrite => handleless(
            abi,
            target,
            REQUEST_TARGET_AUDIO,
            log,
            base,
            result,
        ),
        RequestOperation::Synthetic => handleless(
            abi,
            target,
            synthetic_target(process_id, operation_argument),
            log,
            base,
            result,
        ),
        _ => log.len() == base && result == Err::<RequestTarget, Status>(Status::AccessDenied),
    }
}

/// A request is checked: its record, then its buffers, then its target.
pub open spec fn request_checked(
    abi: Abi,
    process_id: u64,
    raw: Seq<u8>,
    log: Seq<Event>,
    base: int,
    result: Result<CheckedRequest, Status>,
) -> bool {
    match head_in(abi, raw) {
        Err(status) => log.len() == base && result == Err::<CheckedRequest, Status>(status),
        Ok(head) => {
            &&& asked_at(
                log,
                base,
                Ask::Plain(
                    Call::CopyIn {
                        address: head.args.buffers_address,
                        length: head.buffer_bytes,
                    },
                ),
            )
            &&& if log[base].refused() is Some {
                ended_at(log, base, result)
            } else {
                match buffers_in(abi, log[base].bytes(), (head.buffer_bytes / 40) as nat) {
                    Err(status) => stopped_at(log, base, result, status),
                    Ok(buffers) => match operation_buffers(
                        abi,
                        head.operation,
                        head.args.operation_argument,
                        buffers,
                    ) {
                        Err(status) => stopped_at(log, base, result, status),
                        Ok(()) => {
                            let found = match result {
                                Ok(request) => Ok(request.target),
                                Err(status) => Err(status),
                            };
                            &&& target_found(
                                abi,
                                process_id,
                                head.args.target,
                                head.operation,
                                head.args.operation_argument,
                                log,
                                base + 1,
                                found,
                            )
                            &&& result matches Ok(request) ==> request.head == head
                                && request.buffers == buffers
                        },
                    },
                }
            }
        },
    }
}

/// Buffers that were read are not empty.
pub(crate) proof fn lemma_buffers_not_empty(abi: Abi, raw: Seq<u8>, count: nat)
    ensures
        buffers_in(abi, raw, count) matches Ok(buffers) ==> forall|i: int|
            0 <= i < buffers.len() ==> (#[trigger] buffers[i]).length > 0,
    decreases count,
{
    if count > 0 {
        lemma_buffers_not_empty(abi, raw, (count - 1) as nat);
    }
}

/// `length` zero bytes, if there is memory for them.
pub fn zeroed_vec(length: usize) -> (result: Result<Vec<u8>, Status>)
    ensures
        match result {
            Ok(bytes) => bytes@ == zeros(length as nat),
            Err(status) => status == Status::OutOfMemory,
        },
{
    let mut bytes: Vec<u8> = Vec::new();
    if !reserve_exact(&mut bytes, length) {
        return Err(Status::OutOfMemory);
    }
    crate::bytes::push_zeros(&mut bytes, length);
    assert(bytes@ =~= zeros(length as nat));
    Ok(bytes)
}

/// The buffer's range is representable.
pub open spec fn buffer_fits(buffer: RequestBuffer) -> bool {
    buffer.length <= usize::MAX && (buffer.kind == RequestBufferKind::SharedMemory ==> buffer.offset
        <= usize::MAX)
}

/// What is asked to make a buffer ready.
pub open spec fn buffer_asks(abi: Abi, buffer: RequestBuffer) -> Seq<Ask> {
    let length = buffer.length as usize;
    match buffer.kind {
        RequestBufferKind::Copy => {
            let check = if has_bits(buffer.flags, abi.buffer_flags.write) {
                seq![Ask::Plain(Call::CheckOutput { address: buffer.address, length })]
            } else {
                Seq::empty()
            };
            if has_bits(buffer.flags, abi.buffer_flags.read) {
                check.push(Ask::Plain(Call::CopyIn { address: buffer.address, length }))
            } else {
                check
            }
        },
        RequestBufferKind::Pinned => seq![
            Ask::Plain(
                Call::Pin {
                    address: buffer.address,
                    length,
                    write: has_bits(buffer.flags, abi.buffer_flags.write),
                },
            ),
        ],
        RequestBufferKind::SharedMemory => seq![
            Ask::Plain(
                Call::SharedLease {
                    handle: buffer.handle,
                    offset: buffer.offset as usize,
                    length,
                    rights: buffer_rights(abi, buffer.flags),
                },
            ),
        ],
    }
}

/// The buffer that the answers from `at` on give.
pub open spec fn buffer_from(
    abi: Abi,
    process_id: u64,
    buffer: RequestBuffer,
    log: Seq<Event>,
    at: int,
) -> BufferModel {
    let flags = buffer.flags;
    match buffer.kind {
        RequestBufferKind::Copy => BufferModel::Copied {
            flags,
            user_address: buffer.address,
            bytes: if has_bits(flags, abi.buffer_flags.read) {
                log[at + buffer_asks(abi, buffer).len() - 1].bytes()
            } else {
                zeros(buffer.length as nat)
            },
        },
        RequestBufferKind::Pinned => BufferModel::Pinned {
            flags,
            owner_process_id: process_id,
            pages: log[at].number(),
        },
        RequestBufferKind::SharedMemory => BufferModel::SharedMemory {
            flags,
            lease: log[at].number(),
        },
    }
}

/// A buffer could not be made ready.
pub open spec fn buffer_failed(
    abi: Abi,
    buffer: RequestBuffer,
    log: Seq<Event>,
    at: int,
    status: Status,
) -> bool {
    let asks = buffer_asks(abi, buffer);
    if !buffer_fits(buffer) {
        log.len() == at && status == Status::OutOfRange
    } else {
        ||| failed_in(log, at, asks, Err::<(), Status>(status))
        ||| status == Status::OutOfMemory && buffer.kind == RequestBufferKind::Copy && !has_bits(
            buffer.flags,
            abi.buffer_flags.read,
        ) && passed(log, at, asks) && log.len() == at + asks.len()
    }
}

/// Questions about the first `count` buffers.
pub open spec fn buffers_width(abi: Abi, buffers: Seq<RequestBuffer>, count: nat) -> nat
    decreases count,
{
    if count == 0 {
        0
    } else {
        buffers_width(abi, buffers, (count - 1) as nat) + buffer_asks(
            abi,
            buffers[count - 1],
        ).len()
    }
}

/// The first `count` buffers were made ready by the events from `at` on.
pub open spec fn buffers_ready(
    abi: Abi,
    buffers: Seq<RequestBuffer>,
    log: Seq<Event>,
    at: int,
    count: nat,
) -> bool
    decreases count,
{
    if count == 0 {
        at <= log.len()
    } else {
        let before = (count - 1) as nat;
        &&& buffers_ready(abi, buffers, log, at, before)
        &&& buffer_fits(buffers[count - 1])
        &&& passed(
            log,
            at + buffers_width(abi, buffers, before),
            buffer_asks(abi, buffers[count - 1]),
        )
    }
}

/// The first `count` buffers, as the answers from `at` on give them.
pub open spec fn buffers_from(
    abi: Abi,
    process_id: u64,
    buffers: Seq<RequestBuffer>,
    log: Seq<Event>,
    at: int,
    count: nat,
) -> Seq<BufferModel>
    decreases count,
{
    if count == 0 {
        Seq::empty()
    } else {
        let before = (count - 1) as nat;
        buffers_from(abi, process_id, buffers, log, at, before).push(
            buffer_from(
                abi,
                process_id,
                buffers[count - 1],
                log,
                at + buffers_width(abi, buffers, before),
            ),
        )
    }
}

/// What the answers gave stays as the log grows.
pub(crate) proof fn lemma_buffers_stay(
    abi: Abi,
    process_id: u64,
    buffers: Seq<RequestBuffer>,
    log: Seq<Event>,
    longer: Seq<Event>,
    at: int,
    count: nat,
)
    requires
        0 <= at,
        extends(log, longer),
        buffers_ready(abi, buffers, log, at, count),
    ensures
        buffers_ready(abi, buffers, longer, at, count),
        buffers_from(abi, process_id, buffers, longer, at, count) == buffers_from(
            abi,
            process_id,
            buffers,
            log,
            at,
            count,
        ),
        at + buffers_width(abi, buffers, count) <= log.len(),
        buffers_from(abi, process_id, buffers, log, at, count).len() == count,
    decreases count,
{
    if count > 0 {
        let before = (count - 1) as nat;
        lemma_buffers_stay(abi, process_id, buffers, log, longer, at, before);
        let place = at + buffers_width(abi, buffers, before);
        let asks = buffer_asks(abi, buffers[count - 1]);
        assert forall|i: int| 0 <= i < asks.len() implies longer[place + i].ask == #[trigger] asks[i]
            && longer[place + i].refused() is None by {
            assert(longer[place + i] == log[place + i]);
        }
        if asks.len() > 0 {
            assert(longer[place] == log[place]);
            assert(longer[place + asks.len() - 1] == log[place + asks.len() - 1]);
        }
    }
}

/// The pinned pages of buffers, in order.
pub open spec fn pins_of(buffers: Seq<BufferModel>) -> Seq<u64>
    decreases buffers.len(),
{
    if buffers.len() == 0 {
        Seq::empty()
    } else {
        match buffers.last() {
            BufferModel::Pinned { pages, .. } => pins_of(buffers.drop_last()).push(pages),
            _ => pins_of(buffers.drop_last()),
        }
    }
}

/// Pages are given back, the last pinned first.
pub open spec fn unpin_asks(pins: Seq<u64>) -> Seq<Ask> {
    Seq::new(pins.len(), |i: int| Ask::Plain(Call::Unpin { pages: pins[pins.len() - 1 - i] }))
}

/// A request that was made ready.
pub open spec fn request_from(
    abi: Abi,
    process_id: u64,
    thread_id: u64,
    request: CheckedRequest,
    log: Seq<Event>,
    at: int,
) -> RequestModel {
    RequestModel {
        terms: RequestTerms {
            process_id,
            thread_id,
            target: request.target.number,
            target_lease: request.target.lease,
            operation: request.head.operation,
            completion_mode: request.head.completion_mode,
            operation_argument: request.head.args.operation_argument,
            user_data: request.head.args.user_data,
            request_flags: request.head.args.flags,
            deadline_ns: request.head.deadline_ns,
        },
        buffers: buffers_from(abi, process_id, request.buffers, log, at, request.buffers.len()),
    }
}

/// Making buffer `count` ready failed when the log was `known` long, and what the buffers
/// before it pinned was unpinned.
pub open spec fn preparation_failed(
    abi: Abi,
    process_id: u64,
    request: CheckedRequest,
    log: Seq<Event>,
    at: int,
    count: nat,
    known: int,
    status: Status,
) -> bool {
    let place = at + buffers_width(abi, request.buffers, count);
    &&& count < request.buffers.len()
    &&& at <= known <= log.len()
    &&& buffers_ready(abi, request.buffers, log.take(known), at, count)
    &&& buffer_failed(abi, request.buffers[count as int], log.take(known), place, status)
    &&& asked_from(
        log,
        known,
        unpin_asks(
            pins_of(
                buffers_from(abi, process_id, request.buffers, log.take(known), at, count),
            ),
        ),
    )
}

/// A checked request is made ready for the broker, or nothing of it stays pinned.
pub open spec fn request_prepared(
    abi: Abi,
    process_id: u64,
    thread_id: u64,
    request: CheckedRequest,
    log: Seq<Event>,
    base: int,
    result: Result<RequestModel, Status>,
) -> bool {
    &&& asked_at(log, base, Ask::Limits)
    &&& match resources_checked(request.buffers, log[base].answer->Limits_0) {
        Err(status) => stopped_at(log, base, result, status),
        Ok(()) => {
            let at = base + 1;
            let last = at + buffers_width(abi, request.buffers, request.buffers.len());
            let ready = request_from(abi, process_id, thread_id, request, log.take(last), at);
            match result {
                Ok(prepared) => {
                    &&& buffers_ready(
                        abi,
                        request.buffers,
                        log.take(last),
                        at,
                        request.buffers.len(),
                    )
                    &&& prepared == ready
                    &&& log.len() == last + 1
                    &&& log[last].ask == Ask::CheckResources(ready)
                    &&& log[last].refused() is None
                },
                Err(status) => {
                    ||| exists|count: nat, known: int| #[trigger]
                        preparation_failed(
                            abi,
                            process_id,
                            request,
                            log,
                            at,
                            count,
                            known,
                            status,
                        )
                    ||| {
                        &&& buffers_ready(
                            abi,
                            request.buffers,
                            log.take(last),
                            at,
                            request.buffers.len(),
                        )
                        &&& asked_at(log, last, Ask::CheckResources(ready))
                        &&& log[last].refused() == Some(status)
                        &&& asked_from(log, last + 1, unpin_asks(pins_of(ready.buffers)))
                    }
                },
            }
        },
    }
}

/// The request that was made ready, as numbers.
pub open spec fn prepared_of(result: Result<PreparedBrokerRequest, Status>) -> Result<
    RequestModel,
    Status,
> {
    match result {
        Ok(request) => Ok(request.model()),
        Err(status) => Err(status),
    }
}

/// The pinned pages of buffers, in order.
pub fn pinned_pages(buffers: &[PreparedRequestBuffer]) -> (pins: Vec<u64>)
    ensures
        pins@ == pins_of(super::kernel::buffer_models(buffers@)),
{
    let ghost models = super::kernel::buffer_models(buffers@);
    let mut pins: Vec<u64> = Vec::new();
    let mut index: usize = 0;
    assert(models.subrange(0, 0) =~= Seq::empty());
    while index < buffers.len()
        invariant
            index <= buffers@.len(),
            models == super::kernel::buffer_models(buffers@),
            pins@ == pins_of(models.subrange(0, index as int)),
        decreases buffers@.len() - index,
    {
        assert(models[index as int] == buffers@[index as int].model());
        if let PreparedRequestBuffer::Pinned { flags: _, owner_process_id: _, pages } =
            &buffers[index] {
            pins.push(*pages);
        }
        index += 1;
        assert(models.subrange(0, index as int).drop_last() =~= models.subrange(0, index - 1));
    }
    assert(models.subrange(0, models.len() as int) =~= models);
    pins
}

impl<K: Kernel> Session<K> {
    /// Gives pinned pages back, the last pinned first.
    pub fn unpin_all(&mut self, pins: &[u64])
        ensures
            final(self).kept(*old(self)),
            asked_from(final(self).log@, old(self).log@.len() as int, unpin_asks(pins@)),
    {
        let mut left: usize = pins.len();
        while left > 0
            invariant
                left <= pins@.len(),
                self.kept(*old(self)),
                self.log@.len() == old(self).log@.len() + pins@.len() - left,
                forall|i: int|
                    0 <= i < pins@.len() - left ==> self.log@[old(self).log@.len() + i].ask
                        == #[trigger] unpin_asks(pins@)[i],
            decreases left,
        {
            left -= 1;
            let _ = self.done(Call::Unpin { pages: pins[left] });
        }
    }

    /// Finds what a request to make changes durable is about.
    fn sync_target(&mut self, target: Handle) -> (result: Result<RequestTarget, Status>)
        ensures
            final(self).kept(*old(self)),
            sync_target_found(
                old(self).abi,
                target,
                final(self).log@,
                old(self).log@.len() as int,
                result,
            ),
    {
        let rights: u32 = self.abi.rights.write;
        let lease: PreparedRequestTarget = PreparedRequestTarget::FilesystemSync;
        match self.object_type(target)? {
            ObjectType::FilesystemRoot => {
                self.done(Call::Root { handle: target, rights })?;
                Ok(RequestTarget { number: REQUEST_TARGET_FILESYSTEM_ROOT, lease })
            },
            ObjectType::Directory => {
                let node: Node = self.node(Call::Directory { handle: target, rights })?;
                Ok(RequestTarget { number: filesystem_request_target(node), lease })
            },
            ObjectType::File => {
                let node: Node = self.node(Call::File { handle: target, rights })?;
                Ok(RequestTarget { number: filesystem_request_target(node), lease })
            },
            _ => Err(Status::WrongObjectType),
        }
    }

    /// Finds the file that a request reads or writes.
    fn file_target(&mut self, target: Handle, rights: u32) -> (result: Result<RequestTarget, Status>)
        ensures
            final(self).kept(*old(self)),
            node_found(
                Call::File { handle: target, rights },
                true,
                final(self).log@,
                old(self).log@.len() as int,
                result,
            ),
    {
        match self.node(Call::File { handle: target, rights }) {
            Err(status) => Err(status),
            Ok(node) => Ok(
                RequestTarget {
                    number: filesystem_request_target(node),
                    lease: PreparedRequestTarget::File(node),
                },
            ),
        }
    }

    /// Finds what a request is about, and that its submitter may have it done.
    pub fn validate_request_target(
        &mut self,
        process_id: u64,
        target: Handle,
        operation: RequestOperation,
        operation_argument: u64,
    ) -> (result: Result<RequestTarget, Status>)
        ensures
            final(self).kept(*old(self)),
            target_found(
                old(self).abi,
                process_id,
                target,
                operation,
                operation_argument,
                final(self).log@,
                old(self).log@.len() as int,
                result,
            ),
    {
        let number: u64 = match operation {
            RequestOperation::FilesystemRead => {
                let rights: u32 = self.abi.rights.read;
                return self.file_target(target, rights);
            },
            RequestOperation::FilesystemWrite => {
                let rights: u32 = self.abi.rights.write;
                return self.file_target(target, rights);
            },
            RequestOperation::FilesystemSync => {
                return self.sync_target(target);
            },
            RequestOperation::FilesystemOpen
            | RequestOperation::FilesystemTruncate
            | RequestOperation::FilesystemNamespace => {
                return Err(Status::AccessDenied);
            },
            RequestOperation::Nop => 0,
            RequestOperation::AudioWrite => REQUEST_TARGET_AUDIO,
            RequestOperation::Synthetic => synthetic_request_target(process_id, operation_argument),
        };
        if self.abi.is_valid(target) {
            return Err(Status::InvalidArgument);
        }
        Ok(RequestTarget { number, lease: PreparedRequestTarget::Nothing })
    }

    /// Checks a request whose record was read.
    pub fn parse_and_validate_request(&mut self, process_id: u64, raw: &[u8]) -> (result: Result<
        ValidatedRequest,
        Status,
    >)
        ensures
            final(self).kept(*old(self)),
            request_checked(
                old(self).abi,
                process_id,
                raw@,
                final(self).log@,
                old(self).log@.len() as int,
                checked_of(result),
            ),
            result matches Ok(request) ==> forall|i: int|
                0 <= i < request.buffers@.len() ==> (#[trigger] request.buffers@[i]).length > 0,
    {
        let head: RequestHead = parse_request_head(&self.abi, raw)?;
        let raw_buffers: Vec<u8> = self.copy_in(
            head.args.buffers_address,
            head.buffer_bytes,
        )?;
        let buffers: Vec<RequestBuffer> = parse_request_buffers(
            &self.abi,
            raw_buffers.as_slice(),
        )?;
        proof {
            lemma_buffers_not_empty(
                self.abi,
                raw_buffers@,
                (raw_buffers@.len() / 40) as nat,
            );
        }
        validate_operation_buffers(
            &self.abi,
            head.operation,
            head.args.operation_argument,
            buffers.as_slice(),
        )?;
        match self.validate_request_target(
            process_id,
            head.args.target,
            head.operation,
            head.args.operation_argument,
        ) {
            Err(status) => Err(status),
            Ok(target) => Ok(ValidatedRequest { head, target, buffers }),
        }
    }

    /// Makes a buffer ready for the broker.
    pub fn prepare_request_buffer(&mut self, process_id: u64, buffer: &RequestBuffer) -> (result:
        Result<PreparedRequestBuffer, Status>)
        ensures
            final(self).kept(*old(self)),
            ({
                let log = final(self).log@;
                let at = old(self).log@.len() as int;
                let asks = buffer_asks(old(self).abi, *buffer);
                match result {
                    Ok(prepared) => {
                        &&& buffer_fits(*buffer)
                        &&& passed(log, at, asks)
                        &&& log.len() == at + asks.len()
                        &&& prepared.model() == buffer_from(
                            old(self).abi,
                            process_id,
                            *buffer,
                            log,
                            at,
                        )
                    },
                    Err(status) => buffer_failed(old(self).abi, *buffer, log, at, status),
                }
            }),
    {
        if buffer.length > usize::MAX as u64 {
            return Err(Status::OutOfRange);
        }
        let flags: u32 = buffer.flags;
        let length: usize = buffer.length as usize;
        let write: bool = contains_bits(flags, self.abi.buffer_flags.write);
        match buffer.kind {
            RequestBufferKind::Copy => {
                if write {
                    self.check_output(buffer.address, length)?;
                }
                let bytes: Vec<u8> = if contains_bits(flags, self.abi.buffer_flags.read) {
                    match self.copy_in(buffer.address, length) {
                        Ok(bytes) => bytes,
                        Err(status) => {
                            return Err(status);
                        },
                    }
                } else {
                    match zeroed_vec(length) {
                        Ok(bytes) => bytes,
                        Err(status) => {
                            return Err(status);
                        },
                    }
                };
                Ok(PreparedRequestBuffer::Copied { flags, user_address: buffer.address, bytes })
            },
            RequestBufferKind::Pinned => match self.number(
                Call::Pin { address: buffer.address, length, write },
            ) {
                Err(status) => Err(status),
                Ok(pages) => Ok(
                    PreparedRequestBuffer::Pinned { flags, owner_process_id: process_id, pages },
                ),
            },
            RequestBufferKind::SharedMemory => {
                if buffer.offset > usize::MAX as u64 {
                    return Err(Status::OutOfRange);
                }
                let offset: usize = buffer.offset as usize;
                let rights: u32 = request_buffer_rights(&self.abi, flags);
                match self.number(
                    Call::SharedLease { handle: buffer.handle, offset, length, rights },
                ) {
                    Err(status) => Err(status),
                    Ok(lease) => Ok(PreparedRequestBuffer::SharedMemory { flags, lease }),
                }
            },
        }
    }

    /// Makes a checked request ready for the broker.
    pub fn prepare_broker_request(
        &mut self,
        process_id: u64,
        thread_id: u64,
        request: &ValidatedRequest,
    ) -> (result: Result<PreparedBrokerRequest, Status>)
        requires
            forall|i: int|
                0 <= i < request.buffers@.len() ==> (#[trigger] request.buffers@[i]).length > 0,
        ensures
            final(self).kept(*old(self)),
            request_prepared(
                old(self).abi,
                process_id,
                thread_id,
                request.model(),
                final(self).log@,
                old(self).log@.len() as int,
                prepared_of(result),
            ),
    {
        let ghost base = self.log@.len() as int;
        let ghost at = base + 1;
        let ghost abi = self.abi;
        let ghost descriptors = request.buffers@;
        let limits: RequestLimits = self.limits();
        preflight_request_resources(request.buffers.as_slice(), limits)?;
        let mut buffers: Vec<PreparedRequestBuffer> = Vec::new();
        let mut index: usize = 0;
        let ghost ready_log = self.log@;
        while index < request.buffers.len()
            invariant
                index <= request.buffers@.len(),
                descriptors == request.buffers@,
                abi == self.abi,
                abi == old(self).abi,
                base == old(self).log@.len(),
                at == base + 1,
                self.kept(*old(self)),
                extends(ready_log, self.log@),
                ready_log.len() == at,
                asked_at(ready_log, base, Ask::Limits),
                resources_checked(descriptors, ready_log[base].answer->Limits_0) is Ok,
                self.log@.len() == at + buffers_width(abi, descriptors, index as nat),
                buffers_ready(abi, descriptors, self.log@, at, index as nat),
                super::kernel::buffer_models(buffers@) == buffers_from(
                    abi,
                    process_id,
                    descriptors,
                    self.log@,
                    at,
                    index as nat,
                ),
            decreases request.buffers@.len() - index,
        {
            let ghost log = self.log@;
            match self.prepare_request_buffer(process_id, &request.buffers[index]) {
                Err(status) => {
                    let ghost known = self.log@;
                    proof {
                        lemma_buffers_stay(
                            abi,
                            process_id,
                            descriptors,
                            log,
                            known,
                            at,
                            index as nat,
                        );
                    }
                    let pins: Vec<u64> = pinned_pages(buffers.as_slice());
                    self.unpin_all(pins.as_slice());
                    proof {
                        lemma_beginning(known, self.log@);
                        assert(self.log@[base] == ready_log[base]);
                        assert(preparation_failed(
                            abi,
                            process_id,
                            request.model(),
                            self.log@,
                            at,
                            index as nat,
                            known.len() as int,
                            status,
                        ));
                    }
                    return Err(status);
                },
                Ok(prepared) => {
                    proof {
                        lemma_buffers_stay(
                            abi,
                            process_id,
                            descriptors,
                            log,
                            self.log@,
                            at,
                            index as nat,
                        );
                        let models = super::kernel::buffer_models(buffers@);
                        assert(super::kernel::buffer_models(buffers@.push(prepared))
                            =~= models.push(prepared.model()));
                    }
                    buffers.push(prepared);
                },
            }
            index += 1;
        }
        let ghost known = self.log@;
        let prepared: PreparedBrokerRequest = PreparedBrokerRequest {
            terms: RequestTerms {
                process_id,
                thread_id,
                target: request.target.number,
                target_lease: request.target.lease,
                operation: request.head.operation,
                completion_mode: request.head.completion_mode,
                operation_argument: request.head.args.operation_argument,
                user_data: request.head.args.user_data,
                request_flags: request.head.args.flags,
                deadline_ns: request.head.deadline_ns,
            },
            buffers,
        };
        let resources: Result<(), Status> = self.check_resources(&prepared);
        proof {
            lemma_beginning(known, self.log@);
            assert(self.log@[base] == ready_log[base]);
        }
        if let Err(status) = resources {
            let pins: Vec<u64> = pinned_pages(prepared.buffers.as_slice());
            self.unpin_all(pins.as_slice());
            proof {
                lemma_beginning(known, self.log@);
                assert(self.log@[base] == ready_log[base]);
            }
            return Err(status);
        }
        Ok(prepared)
    }
}

} // verus!
