//! What system calls ask of the rest of the kernel.
use vstd::prelude::*;

use crate::thread_scheduler::policy::SchedulingClass;

use super::abi::{Abi, Handle, ObjectType, RequestCompletionMode, RequestOperation, Status};
use super::heard::told_nobody;
use super::paths::{DirectoryEntry, FilesystemInfo, NodeMetadata};
use super::request_wire::{Node, RequestInfo, RequestLimits, RequestSubmitOutput};
use super::wire::{HandleOperationDisposition, MessageInfo, SharedMemoryMapArgs, WaitItem};

verus! {

/// Where a result goes, and the pinned pages there.
#[derive(Clone, Copy, Debug, PartialEq, Eq, Structural)]
pub struct PinnedOutput {
    pub address: u64,
    pub pages: u64,
}

/// What is asked for. Threads, requests, pinned pages and leases go by a number.
#[derive(Clone, Copy, Debug, PartialEq, Eq, Structural)]
pub enum Call {
    /// May the process write this range of its memory?
    CheckOutput { address: u64, length: usize },
    CopyIn { address: u64, length: usize },
    CopyOut { address: u64 },
    Pin { address: u64, length: usize, write: bool },
    Unpin { pages: u64 },
    AddressSpaceActive,
    IsUserAddress { address: u64 },
    CloseHandle { handle: Handle },
    DuplicateHandle { handle: Handle, rights: u32 },
    HandleRights { handle: Handle },
    ObjectType { handle: Handle },
    File { handle: Handle, rights: u32 },
    Root { handle: Handle, rights: u32 },
    Directory { handle: Handle, rights: u32 },
    ChannelCreate,
    CanSend { bytes: usize },
    RecordSent { bytes: usize },
    CanAllocateShared { bytes: usize },
    RecordQuotaFailure,
    RecordOomFailure,
    CreateShared { size: usize },
    RecordShared { bytes: usize },
    ReleaseShared { bytes: usize },
    SharedLength { handle: Handle },
    MapShared { handle: Handle, args: SharedMemoryMapArgs },
    UnmapShared { address: u64, length: u64 },
    MapAnonymous { length: u64, protection: u32 },
    UnmapAnonymous { address: u64, length: u64 },
    ReserveAnonymous { length: u64, protection: u32 },
    RollbackReservation { address: u64 },
    CommitAnonymous { address: u64, length: u64 },
    DecommitAnonymous { address: u64, length: u64 },
    ProtectAnonymous { address: u64, length: u64, protection: u32 },
    FileProtection { rights: u32 },
    FileLength { file: Node },
    MapFile { file: Node, file_length: u64, max_protection: u32, args: SharedMemoryMapArgs },
    UnmapFile { address: u64, length: u64 },
    CommitFile { address: u64, length: u64 },
    DecommitFile { address: u64, length: u64 },
    ProtectFile { address: u64, length: u64, protection: u32 },
    VirtualArea { address: u64 },
    DebugOutput,
    RootDirectory,
    OpenFileAt { directory: Node },
    CreateFileAt { directory: Node },
    RemoveFileAt { directory: Node },
    OpenDirectoryAt { directory: Node },
    CreateDirectoryAt { directory: Node },
    RemoveDirectoryAt { directory: Node },
    FileMetadata { file: Node },
    DirectoryMetadata { directory: Node },
    ReadFile { file: Node, offset: u64, length: usize },
    WriteFile { file: Node, offset: u64 },
    TruncateFile { file: Node, length: u64 },
    SyncFilesystem,
    CreateFileHandle { file: Node, rights: u32 },
    CreateDirectoryHandle { directory: Node, rights: u32 },
    AudioAvailable,
    AudioWrite,
    RandomSource { handle: Handle },
    RandomBytes { length: usize },
    ProcessTerminate { handle: Handle },
    IsPowerAction { action: u32 },
    PowerRequest { handle: Handle, action: u32, flags: u32, deadline_ns: u64 },
    PowerCancel { handle: Handle },
    ApplicationData,
    CreateApplicationData,
    ApplicationDataScope { handle: Handle, rights: u32 },
    CreateThread { entry: u64, argument: u64, stack_size: u64, tls_base: u64 },
    AbortThread { thread: u64 },
    SleepThread { thread: u64, deadline_ns: u64, now_ns: u64 },
    WakeThread { thread: u64 },
    TerminateThread { thread: u64 },
    DetachThread { thread: u64 },
    ReapThread { thread: u64 },
    StartJoin {
        caller: u64,
        target: u64,
        deadline: WaitDeadline,
        output_address: u64,
        now_ns: u64,
    },
    SetClass { thread: u64, class: SchedulingClass },
    SchedulingLease { handle: Handle, class: SchedulingClass },
    SetClassWithLease { thread: u64, class: SchedulingClass, lease: u64 },
    CancellationTarget { handle: Handle },
    CancelRequest { request: u64, now_ns: u64 },
    MarkCanceled { handle: Handle },
    RequestRecord { handle: Handle },
    RequestDiagnostics,
    SharedLease { handle: Handle, offset: usize, length: usize, rights: u32 },
    InstallRequest { request: u64 },
    BlockRequest {
        thread: u64,
        request: u64,
        hidden_handle: Handle,
        output: Option<PinnedOutput>,
        count_output: Option<PinnedOutput>,
        return_operation_status: bool,
    },
    ExitProcess { thread: u64, code: i32 },
    ExitThread { thread: u64, code: i32 },
    SetReturn { thread: u64, rax: u64 },
    PollSleep { thread: u64, now_ns: u64 },
    PollJoin { thread: u64, now_ns: u64 },
    BlockedRequest { thread: u64 },
    StageRequest { thread: u64, request: u64, output: RequestSubmitOutput },
    CompleteSleep { thread: u64 },
    FinishRequest { thread: u64 },
    FinishJoin { thread: u64, target: u64 },
    ResumeThread { thread: u64 },
    CreateProcessHandle,
    ReclaimChild,
    AttachChild { process: Handle },
    SetChildApplicationData { handle: Handle },
}

/// What a request is about.
#[derive(Clone, Copy, Debug, PartialEq, Eq, Structural)]
pub enum PreparedRequestTarget {
    Nothing,
    File(Node),
    Directory { directory: Option<Node>, is_root: bool, rights: u32 },
    FilesystemSync,
}

/// A buffer that is ready for the broker.
#[derive(Debug)]
pub enum PreparedRequestBuffer {
    Copied { flags: u32, user_address: u64, bytes: Vec<u8> },
    Pinned { flags: u32, owner_process_id: u64, pages: u64 },
    SharedMemory { flags: u32, lease: u64 },
}

/// What a buffer that is ready for the broker holds.
pub enum BufferModel {
    Copied { flags: u32, user_address: u64, bytes: Seq<u8> },
    Pinned { flags: u32, owner_process_id: u64, pages: u64 },
    SharedMemory { flags: u32, lease: u64 },
}

impl PreparedRequestBuffer {
    /// What this buffer holds.
    pub open spec fn model(&self) -> BufferModel {
        match *self {
            PreparedRequestBuffer::Copied { flags, user_address, bytes } => BufferModel::Copied {
                flags,
                user_address,
                bytes: bytes@,
            },
            PreparedRequestBuffer::Pinned { flags, owner_process_id, pages } => BufferModel::Pinned {
                flags,
                owner_process_id,
                pages,
            },
            PreparedRequestBuffer::SharedMemory { flags, lease } => BufferModel::SharedMemory {
                flags,
                lease,
            },
        }
    }
}

/// What a request says of itself.
#[derive(Clone, Copy, Debug, PartialEq, Eq, Structural)]
pub struct RequestTerms {
    pub process_id: u64,
    pub thread_id: u64,
    pub target: u64,
    pub target_lease: PreparedRequestTarget,
    pub operation: RequestOperation,
    pub completion_mode: RequestCompletionMode,
    pub operation_argument: u64,
    pub user_data: u64,
    pub request_flags: u32,
    pub deadline_ns: Option<u64>,
}

/// A request that is ready for the broker.
#[derive(Debug)]
pub struct PreparedBrokerRequest {
    pub terms: RequestTerms,
    pub buffers: Vec<PreparedRequestBuffer>,
}

/// What a request that is ready for the broker holds.
#[verifier::ext_equal]
pub struct RequestModel {
    pub terms: RequestTerms,
    pub buffers: Seq<BufferModel>,
}

/// What buffers hold.
pub open spec fn buffer_models(buffers: Seq<PreparedRequestBuffer>) -> Seq<BufferModel> {
    Seq::new(buffers.len(), |i: int| buffers[i].model())
}

impl PreparedBrokerRequest {
    /// What this request holds.
    pub open spec fn model(&self) -> RequestModel {
        RequestModel { terms: self.terms, buffers: buffer_models(self.buffers@) }
    }
}

/// What requests hold.
pub open spec fn request_models(requests: Seq<PreparedBrokerRequest>) -> Seq<RequestModel> {
    Seq::new(requests.len(), |i: int| requests[i].model())
}

/// A message that was received.
#[derive(Debug)]
pub struct ReceivedMessage {
    pub bytes: Vec<u8>,
    pub handles: Vec<Handle>,
    pub info: MessageInfo,
}

/// A message that was received.
#[verifier::ext_equal]
pub struct MessageModel {
    pub bytes: Seq<u8>,
    pub handles: Seq<Handle>,
    pub info: MessageInfo,
}

/// Why no message was received.
#[derive(Clone, Copy, Debug, PartialEq, Eq, Structural)]
pub enum ReceiveError {
    /// The message is larger than the buffers; this large.
    TooSmall(MessageInfo),
    Failed(Status),
}

/// What a thread is doing.
#[derive(Clone, Copy, Debug, PartialEq, Eq, Structural)]
pub enum ThreadState {
    Ready,
    Blocked,
    Exited(i32),
    Faulted { reason: super::abi::FaultReason, code: u64, address: Option<u64> },
    Terminated,
}

/// What is known of a thread.
#[derive(Clone, Copy, Debug, PartialEq, Eq, Structural)]
pub struct ThreadFacts {
    pub state: ThreadState,
    pub cpu_time_ns: u64,
    pub preemption_count: u64,
}

/// How a thread was scheduled.
#[derive(Clone, Copy, Debug, PartialEq, Eq, Structural)]
pub struct SchedulingFacts {
    pub base_class: SchedulingClass,
    pub effective_class: SchedulingClass,
    pub state: ThreadState,
    pub budget_remaining_ns: u64,
    pub cpu_time_ns: u64,
    pub runnable_wait_ns: u64,
    pub wake_latency_ns: u64,
    pub maximum_wake_latency_ns: u64,
    pub wake_latency_samples: u64,
    pub wake_latency_target_misses: u64,
    pub context_switches: u64,
    pub deadline_misses: u64,
    pub throttling_events: u64,
    pub throttled_time_ns: u64,
}

/// How a process ended, or that it has not.
#[derive(Clone, Copy, Debug, PartialEq, Eq, Structural)]
pub struct ProcessFacts {
    pub state: u32,
    pub cause: u32,
    pub exit_code: i32,
    pub fault: u32,
    pub fault_code: u64,
    pub fault_address: u64,
}

/// How far a request to power off has come.
#[derive(Clone, Copy, Debug, PartialEq, Eq, Structural)]
pub struct PowerFacts {
    pub state: u32,
    pub action: u32,
    pub flags: u32,
    pub failure_status: i32,
    pub sequence: u64,
    pub deadline_ns: u64,
}

/// How a system call ended, or that it has not.
#[derive(Clone, Copy, Debug, PartialEq, Eq, Structural)]
pub enum DispatchResult {
    Complete(Status),
    Blocked,
    /// A child was made and is to be scheduled.
    ChildCreated,
}

/// What a blocked thread waits for.
#[derive(Clone, Copy, Debug, PartialEq, Eq, Structural)]
pub enum BlockedKind {
    Sleep,
    Join,
    Request,
    WaitMany,
}

/// Until when something waits.
#[derive(Clone, Copy, Debug, PartialEq, Eq, Structural)]
pub enum WaitDeadline {
    Infinite,
    At(u64),
}

/// How a wait ended.
#[derive(Clone, Copy, Debug, PartialEq, Eq, Structural)]
pub enum WaitManyCompletion {
    Ready(usize),
    Failed(Status),
}

/// A wait that was not over at once.
#[derive(Debug)]
pub struct PendingWaitMany {
    pub items: Vec<WaitItem>,
    pub items_address: u64,
    pub output_address: u64,
    pub deadline: WaitDeadline,
    pub completion: Option<WaitManyCompletion>,
}

/// A wait that was not over at once.
#[verifier::ext_equal]
pub struct WaitModel {
    pub items: Seq<WaitItem>,
    pub items_address: u64,
    pub output_address: u64,
    pub deadline: WaitDeadline,
    pub completion: Option<WaitManyCompletion>,
}

impl PendingWaitMany {
    /// What this wait holds.
    pub open spec fn model(&self) -> WaitModel {
        WaitModel {
            items: self.items@,
            items_address: self.items_address,
            output_address: self.output_address,
            deadline: self.deadline,
            completion: self.completion,
        }
    }
}

/// A request whose submitter is blocked, and that has ended.
#[derive(Clone, Copy, Debug, PartialEq, Eq, Structural)]
pub struct EndedRequest {
    pub completion: RequestSubmitOutput,
    /// The status that the completion carries, if it is one.
    pub operation_status: Option<Status>,
    /// Where the completion goes.
    pub output: Option<PinnedOutput>,
    /// Where the count of bytes goes.
    pub count_output: Option<PinnedOutput>,
    pub hidden_handle: Handle,
    pub return_operation_status: bool,
}

/// A join that has ended.
#[derive(Clone, Copy, Debug, PartialEq, Eq, Structural)]
pub struct EndedJoin {
    pub target: u64,
    pub output_address: u64,
    pub completion: Option<Status>,
}

/// What a process may take at most.
#[derive(Clone, Copy, Debug, PartialEq, Eq, Structural)]
pub struct ProcessLimits {
    pub private_pages: u64,
    pub shared_memory_bytes: u64,
    pub mapped_shared_bytes: u64,
    pub reserved_virtual_bytes: u64,
    pub vma_count: u64,
    pub executable_image_pages: u64,
    pub executable_source_bytes: u64,
    pub channel_traffic_bytes: u64,
    pub cpu_quantum_ns: u64,
}

/// The rest of the kernel, as far as system calls need it.
///
/// Every method may answer as it likes; a refusal is a status.
pub trait Kernel: Sized {
    /// The kernel may answer so, and be as it is after. One that does not say may answer in any
    /// way.
    open spec fn answers(before: Self, event: Event, after: Self) -> bool {
        true
    }

    fn done(&mut self, call: Call) -> (result: Result<(), Status>)
        ensures
            Self::answers(
                *old(self),
                Event { ask: Ask::Plain(call), answer: Answer::Done(result) },
                *final(self),
            ),
    ;

    fn handle(&mut self, call: Call) -> (result: Result<Handle, Status>)
        ensures
            Self::answers(
                *old(self),
                Event { ask: Ask::Plain(call), answer: Answer::Handle(result) },
                *final(self),
            ),
    ;

    fn handles(&mut self, call: Call) -> (result: Result<(Handle, Handle), Status>)
        ensures
            Self::answers(
                *old(self),
                Event { ask: Ask::Plain(call), answer: Answer::Handles(result) },
                *final(self),
            ),
    ;

    fn number(&mut self, call: Call) -> (result: Result<u64, Status>)
        ensures
            Self::answers(
                *old(self),
                Event { ask: Ask::Plain(call), answer: Answer::Number(result) },
                *final(self),
            ),
    ;

    fn bits(&mut self, call: Call) -> (result: Result<u32, Status>)
        ensures
            Self::answers(
                *old(self),
                Event { ask: Ask::Plain(call), answer: Answer::Bits(result) },
                *final(self),
            ),
    ;

    fn flag(&mut self, call: Call) -> (result: Result<bool, Status>)
        ensures
            Self::answers(
                *old(self),
                Event { ask: Ask::Plain(call), answer: Answer::Flag(result) },
                *final(self),
            ),
    ;

    fn object_type(&mut self, handle: Handle) -> (result: Result<ObjectType, Status>)
        ensures
            Self::answers(
                *old(self),
                Event { ask: Ask::Plain(Call::ObjectType { handle }), answer: Answer::ObjectType(result) },
                *final(self),
            ),
    ;

    fn node(&mut self, call: Call) -> (result: Result<Node, Status>)
        ensures
            Self::answers(
                *old(self),
                Event { ask: Ask::Plain(call), answer: Answer::Node(result) },
                *final(self),
            ),
    ;

    fn bytes(&mut self, call: Call) -> (result: Result<Vec<u8>, Status>)
        ensures
            Self::answers(
                *old(self),
                Event { ask: Ask::Plain(call), answer: Answer::Bytes(bytes_answered(result)) },
                *final(self),
            ),
    ;

    fn write(&mut self, call: Call, bytes: &[u8]) -> (result: Result<(), Status>)
        ensures
            Self::answers(
                *old(self),
                Event { ask: Ask::With(call, bytes@), answer: Answer::Done(result) },
                *final(self),
            ),
    ;

    fn write_number(&mut self, call: Call, bytes: &[u8]) -> (result: Result<u64, Status>)
        ensures
            Self::answers(
                *old(self),
                Event { ask: Ask::With(call, bytes@), answer: Answer::Number(result) },
                *final(self),
            ),
    ;

    fn write_handle(&mut self, call: Call, bytes: &[u8]) -> (result: Result<Handle, Status>)
        ensures
            Self::answers(
                *old(self),
                Event { ask: Ask::With(call, bytes@), answer: Answer::Handle(result) },
                *final(self),
            ),
    ;

    fn path_node(&mut self, call: Call, path: &[u8]) -> (result: Result<Node, Status>)
        ensures
            Self::answers(
                *old(self),
                Event { ask: Ask::With(call, path@), answer: Answer::Node(result) },
                *final(self),
            ),
    ;

    fn rename(
        &mut self,
        source: Node,
        source_path: &[u8],
        destination: Node,
        destination_path: &[u8],
        replace: bool,
    ) -> (result: Result<(), Status>)
        ensures
            Self::answers(
                *old(self),
                Event { ask: Ask::Rename { source, source_path: source_path@, destination, destination_path: destination_path@, replace }, answer: Answer::Done(result) },
                *final(self),
            ),
    ;

    fn list_directory(&mut self, directory: Node) -> (result: Result<Vec<DirectoryEntry>, Status>)
        ensures
            Self::answers(
                *old(self),
                Event { ask: Ask::ListDirectory(directory), answer: Answer::Entries(entries_answered(result)) },
                *final(self),
            ),
    ;

    fn metadata(&mut self, call: Call) -> (result: Result<NodeMetadata, Status>)
        ensures
            Self::answers(
                *old(self),
                Event { ask: Ask::Plain(call), answer: Answer::Metadata(result) },
                *final(self),
            ),
    ;

    fn filesystem_info(&mut self) -> (result: Result<FilesystemInfo, Status>)
        ensures
            Self::answers(
                *old(self),
                Event { ask: Ask::FilesystemInfo, answer: Answer::FilesystemInfo(result) },
                *final(self),
            ),
    ;

    fn send(
        &mut self,
        channel: Handle,
        bytes: &[u8],
        dispositions: &[HandleOperationDisposition],
    ) -> (result: Result<(), Status>)
        ensures
            Self::answers(
                *old(self),
                Event { ask: Ask::Send { channel, bytes: bytes@, dispositions: dispositions@ }, answer: Answer::Done(result) },
                *final(self),
            ),
    ;

    fn receive(&mut self, channel: Handle, byte_capacity: usize, handle_capacity: usize) -> (result: Result< ReceivedMessage, ReceiveError, >)
        ensures
            Self::answers(
                *old(self),
                Event { ask: Ask::Receive { channel, byte_capacity, handle_capacity }, answer: Answer::Message(message_answered(result)) },
                *final(self),
            ),
    ;

    fn poll(&mut self, items: &[WaitItem]) -> (result: Result<(Option<usize>, Vec<WaitItem>), Status>)
        ensures
            Self::answers(
                *old(self),
                Event { ask: Ask::Poll(items@), answer: Answer::Poll(poll_answered(result)) },
                *final(self),
            ),
    ;

    fn block_wait(&mut self, thread: u64, wait: PendingWaitMany)
        ensures
            Self::answers(
                *old(self),
                Event { ask: Ask::BlockWait { thread, wait: wait.model() }, answer: Answer::Nothing },
                *final(self),
            ),
    ;

    fn take_wait(&mut self, thread: u64) -> (result: PendingWaitMany)
        ensures
            Self::answers(
                *old(self),
                Event { ask: Ask::TakeWait(thread), answer: Answer::Wait(result.model()) },
                *final(self),
            ),
    ;

    fn thread(&mut self, thread: u64) -> (result: Result<ThreadFacts, Status>)
        ensures
            Self::answers(
                *old(self),
                Event { ask: Ask::Thread(thread), answer: Answer::Thread(result) },
                *final(self),
            ),
    ;

    fn scheduling(&mut self, thread: u64) -> (result: Result<SchedulingFacts, Status>)
        ensures
            Self::answers(
                *old(self),
                Event { ask: Ask::Scheduling(thread), answer: Answer::Scheduling(result) },
                *final(self),
            ),
    ;

    fn process_info(&mut self, handle: Handle) -> (result: Result<ProcessFacts, Status>)
        ensures
            Self::answers(
                *old(self),
                Event { ask: Ask::ProcessInfo(handle), answer: Answer::Process(result) },
                *final(self),
            ),
    ;

    fn power_info(&mut self, handle: Handle) -> (result: Result<PowerFacts, Status>)
        ensures
            Self::answers(
                *old(self),
                Event { ask: Ask::PowerInfo(handle), answer: Answer::Power(result) },
                *final(self),
            ),
    ;

    fn limits(&mut self) -> (result: RequestLimits)
        ensures
            Self::answers(
                *old(self),
                Event { ask: Ask::Limits, answer: Answer::Limits(result) },
                *final(self),
            ),
    ;

    fn check_resources(&mut self, request: &PreparedBrokerRequest) -> (result: Result<(), Status>)
        ensures
            Self::answers(
                *old(self),
                Event { ask: Ask::CheckResources(request.model()), answer: Answer::Done(result) },
                *final(self),
            ),
    ;

    fn submit(&mut self, request: PreparedBrokerRequest, now_ns: u64) -> (result: Result<u64, Status>)
        ensures
            Self::answers(
                *old(self),
                Event { ask: Ask::Submit { request: request.model(), now_ns }, answer: Answer::Number(result) },
                *final(self),
            ),
    ;

    fn submit_batch(&mut self, requests: Vec<PreparedBrokerRequest>, now_ns: u64) -> (result: Result< Vec<u64>, Status, >)
        ensures
            Self::answers(
                *old(self),
                Event { ask: Ask::SubmitBatch { requests: request_models(requests@), now_ns }, answer: Answer::Numbers(numbers_answered(result)) },
                *final(self),
            ),
    ;

    fn request_info(&mut self, request: u64) -> (result: Option<RequestInfo>)
        ensures
            Self::answers(
                *old(self),
                Event { ask: Ask::RequestInfo(request), answer: Answer::RequestInfo(result) },
                *final(self),
            ),
    ;

    fn blocked_kind(&mut self, thread: u64) -> (result: Option<BlockedKind>)
        ensures
            Self::answers(
                *old(self),
                Event { ask: Ask::BlockedKind(thread), answer: Answer::BlockedKind(result) },
                *final(self),
            ),
    ;

    fn ended_request(&mut self, thread: u64) -> (result: Result<EndedRequest, Status>)
        ensures
            Self::answers(
                *old(self),
                Event { ask: Ask::EndedRequest(thread), answer: Answer::EndedRequest(result) },
                *final(self),
            ),
    ;

    fn ended_join(&mut self, thread: u64) -> (result: Result<EndedJoin, Status>)
        ensures
            Self::answers(
                *old(self),
                Event { ask: Ask::EndedJoin(thread), answer: Answer::EndedJoin(result) },
                *final(self),
            ),
    ;

    fn child_limits(&mut self, requested: Option<ProcessLimits>) -> (result: Option<ProcessLimits>)
        ensures
            Self::answers(
                *old(self),
                Event { ask: Ask::ChildLimits(requested), answer: Answer::ChildLimits(result) },
                *final(self),
            ),
    ;

    fn prepare_startup(&mut self, args: &[u8], config: &[u8], handle_count: usize) -> (result: Result< (), Status, >)
        ensures
            Self::answers(
                *old(self),
                Event {
                    ask: Ask::PrepareStartup { args: args@, config: config@, handle_count },
                    answer: Answer::Done(result),
                },
                *final(self),
            ),
    ;

    fn make_child(&mut self, image: &[u8], limits: ProcessLimits) -> (result: Result<(), Status>)
        ensures
            Self::answers(
                *old(self),
                Event {
                    ask: Ask::MakeChild { image: image@, limits },
                    answer: Answer::Done(result),
                },
                *final(self),
            ),
    ;

    fn install_startup(&mut self, handles: &[Handle]) -> (result: Result<(), Status>)
        ensures
            Self::answers(
                *old(self),
                Event { ask: Ask::InstallStartup(handles@), answer: Answer::Done(result) },
                *final(self),
            ),
    ;

    fn transfer_handles(&mut self, dispositions: &[HandleOperationDisposition]) -> (result: Result< Vec<Handle>, Status, >)
        ensures
            Self::answers(
                *old(self),
                Event { ask: Ask::TransferHandles(dispositions@), answer: Answer::NewHandles(handles_answered(result)) },
                *final(self),
            ),
    ;

    fn failure_counts(&mut self) -> (result: super::number::FailureCounts)
        ensures
            Self::answers(
                *old(self),
                Event { ask: Ask::FailureCounts, answer: Answer::FailureCounts(result) },
                *final(self),
            ),
    ;

    fn memory_facts(&mut self) -> (result: super::memory::MemoryFacts)
        ensures
            Self::answers(
                *old(self),
                Event { ask: Ask::MemoryFacts, answer: Answer::MemoryFacts(result) },
                *final(self),
            ),
    ;
}

/// What was asked.
#[verifier::ext_equal]
pub enum Ask {
    Plain(Call),
    With(Call, Seq<u8>),
    Rename {
        source: Node,
        source_path: Seq<u8>,
        destination: Node,
        destination_path: Seq<u8>,
        replace: bool,
    },
    ListDirectory(Node),
    FilesystemInfo,
    Send { channel: Handle, bytes: Seq<u8>, dispositions: Seq<HandleOperationDisposition> },
    Receive { channel: Handle, byte_capacity: usize, handle_capacity: usize },
    Poll(Seq<WaitItem>),
    BlockWait { thread: u64, wait: WaitModel },
    TakeWait(u64),
    Thread(u64),
    Scheduling(u64),
    ProcessInfo(Handle),
    PowerInfo(Handle),
    Limits,
    CheckResources(RequestModel),
    Submit { request: RequestModel, now_ns: u64 },
    SubmitBatch { requests: Seq<RequestModel>, now_ns: u64 },
    RequestInfo(u64),
    BlockedKind(u64),
    EndedRequest(u64),
    EndedJoin(u64),
    ChildLimits(Option<ProcessLimits>),
    PrepareStartup { args: Seq<u8>, config: Seq<u8>, handle_count: usize },
    MakeChild { image: Seq<u8>, limits: ProcessLimits },
    InstallStartup(Seq<Handle>),
    TransferHandles(Seq<HandleOperationDisposition>),
    FailureCounts,
    MemoryFacts,
}

/// What was answered.
#[verifier::ext_equal]
pub enum Answer {
    Done(Result<(), Status>),
    Handle(Result<Handle, Status>),
    Handles(Result<(Handle, Handle), Status>),
    Number(Result<u64, Status>),
    Bits(Result<u32, Status>),
    Flag(Result<bool, Status>),
    ObjectType(Result<ObjectType, Status>),
    Node(Result<Node, Status>),
    Bytes(Result<Seq<u8>, Status>),
    Entries(Result<Seq<DirectoryEntry>, Status>),
    Metadata(Result<NodeMetadata, Status>),
    FilesystemInfo(Result<FilesystemInfo, Status>),
    Message(Result<MessageModel, ReceiveError>),
    Poll(Result<(Option<usize>, Seq<WaitItem>), Status>),
    Wait(WaitModel),
    Thread(Result<ThreadFacts, Status>),
    Scheduling(Result<SchedulingFacts, Status>),
    Process(Result<ProcessFacts, Status>),
    Power(Result<PowerFacts, Status>),
    Limits(RequestLimits),
    Numbers(Result<Seq<u64>, Status>),
    RequestInfo(Option<RequestInfo>),
    BlockedKind(Option<BlockedKind>),
    EndedRequest(Result<EndedRequest, Status>),
    EndedJoin(Result<EndedJoin, Status>),
    ChildLimits(Option<ProcessLimits>),
    NewHandles(Result<Seq<Handle>, Status>),
    FailureCounts(super::number::FailureCounts),
    MemoryFacts(super::memory::MemoryFacts),
    Nothing,
}

/// What was asked and what was answered.
#[verifier::ext_equal]
pub struct Event {
    pub ask: Ask,
    pub answer: Answer,
}

/// The status of a refusal.
pub open spec fn refusal<T>(result: Result<T, Status>) -> Option<Status> {
    match result {
        Ok(_) => None,
        Err(status) => Some(status),
    }
}

impl Event {
    /// The status that was answered, if what was asked was refused.
    pub open spec fn refused(self) -> Option<Status> {
        match self.answer {
            Answer::Done(result) => refusal(result),
            Answer::Handle(result) => refusal(result),
            Answer::Handles(result) => refusal(result),
            Answer::Number(result) => refusal(result),
            Answer::Bits(result) => refusal(result),
            Answer::Flag(result) => refusal(result),
            Answer::ObjectType(result) => refusal(result),
            Answer::Node(result) => refusal(result),
            Answer::Bytes(result) => refusal(result),
            Answer::Entries(result) => refusal(result),
            Answer::Metadata(result) => refusal(result),
            Answer::FilesystemInfo(result) => refusal(result),
            Answer::Poll(result) => refusal(result),
            Answer::Thread(result) => refusal(result),
            Answer::Scheduling(result) => refusal(result),
            Answer::Process(result) => refusal(result),
            Answer::Power(result) => refusal(result),
            Answer::Numbers(result) => refusal(result),
            Answer::EndedRequest(result) => refusal(result),
            Answer::EndedJoin(result) => refusal(result),
            Answer::NewHandles(result) => refusal(result),
            _ => None,
        }
    }

    /// The handle that was answered.
    pub open spec fn handle(self) -> Handle {
        self.answer->Handle_0->Ok_0
    }

    /// The number that was answered.
    pub open spec fn number(self) -> u64 {
        self.answer->Number_0->Ok_0
    }

    /// The node that was answered.
    pub open spec fn node(self) -> Node {
        self.answer->Node_0->Ok_0
    }

    /// The bytes that were answered.
    pub open spec fn bytes(self) -> Seq<u8> {
        self.answer->Bytes_0->Ok_0
    }
}

/// A longer log of the same events.
pub open spec fn extends(before: Seq<Event>, after: Seq<Event>) -> bool {
    &&& before.len() <= after.len()
    &&& forall|j: int| 0 <= j < before.len() ==> #[trigger] after[j] == before[j]
}

/// The events from `base` on are what `plan` asks for, in order, up to the first refusal.
///
/// A refusal ends it with the status of the refusal; from step `from` on, `undo` is asked
/// before. Without a refusal all of the plan was asked.
pub open spec fn ran(
    log: Seq<Event>,
    base: int,
    plan: Seq<Ask>,
    from: int,
    undo: Seq<Ask>,
    result: Result<(), Status>,
) -> bool {
    let made = log.len() - base;
    match result {
        Ok(()) => {
            &&& made == plan.len()
            &&& forall|i: int|
                0 <= i < plan.len() ==> log[base + i].ask == #[trigger] plan[i] && log[base
                    + i].refused() is None
        },
        Err(status) => {
            let last = if made <= from {
                made - 1
            } else {
                made - 1 - undo.len()
            };
            &&& 0 <= last < plan.len()
            &&& made > from ==> last >= from
            &&& forall|i: int| 0 <= i <= last ==> log[base + i].ask == #[trigger] plan[i]
            &&& forall|i: int|
                0 <= i < last ==> log[base + i].ask == #[trigger] plan[i] && log[base
                    + i].refused() is None
            &&& log[base + last].refused() == Some(status)
            &&& made > from ==> forall|i: int|
                0 <= i < undo.len() ==> log[base + last + 1 + i].ask == #[trigger] undo[i]
        },
    }
}

/// The events from `base` on are what `plan` asks for, in order, up to the first refusal,
/// whose status is the result.
pub open spec fn ran_through(
    log: Seq<Event>,
    base: int,
    plan: Seq<Ask>,
    result: Result<(), Status>,
) -> bool {
    ran(log, base, plan, plan.len() as int, Seq::empty(), result)
}

/// Nothing was asked, and the result is this status.
pub open spec fn rejected<T>(
    before: Seq<Event>,
    after: Seq<Event>,
    result: Result<T, Status>,
    status: Status,
) -> bool {
    after == before && result == Err::<T, Status>(status)
}

/// Event `at` asks for this.
pub open spec fn asked_at(log: Seq<Event>, at: int, ask: Ask) -> bool {
    at < log.len() && log[at].ask == ask
}

/// The events from `at` on are these asks, and none was refused.
pub open spec fn passed(log: Seq<Event>, at: int, asks: Seq<Ask>) -> bool {
    &&& at + asks.len() <= log.len()
    &&& forall|i: int|
        0 <= i < asks.len() ==> log[at + i].ask == #[trigger] asks[i] && log[at + i].refused() is None
}

/// The asks of the events from `base` on.
pub open spec fn asked_from(log: Seq<Event>, base: int, asks: Seq<Ask>) -> bool {
    &&& log.len() == base + asks.len()
    &&& forall|i: int| 0 <= i < asks.len() ==> log[base + i].ask == #[trigger] asks[i]
}

/// A log is the beginning of every log that extends it.
pub proof fn lemma_beginning(before: Seq<Event>, after: Seq<Event>)
    requires
        extends(before, after),
    ensures
        after.take(before.len() as int) == before,
{
    assert(after.take(before.len() as int) =~= before);
}

/// Event `at` was refused; it was the last, and its status is the result.
pub open spec fn ended_at<T>(log: Seq<Event>, at: int, result: Result<T, Status>) -> bool {
    log.len() == at + 1 && result == Err::<T, Status>(log[at].refused()->Some_0)
}

/// One of the asks from `at` on was refused; it was the last, and its status is the result.
pub open spec fn failed_in<T>(
    log: Seq<Event>,
    at: int,
    asks: Seq<Ask>,
    result: Result<T, Status>,
) -> bool {
    let last = log.len() - at - 1;
    &&& 0 <= last < asks.len()
    &&& forall|i: int| 0 <= i <= last ==> log[at + i].ask == #[trigger] asks[i]
    &&& forall|i: int|
        0 <= i < last ==> log[at + i].ask == #[trigger] asks[i] && log[at + i].refused() is None
    &&& log[at + last].refused() is Some
    &&& result == Err::<T, Status>(log[at + last].refused()->Some_0)
}

/// Event `at` was the last, and the result is this status.
pub open spec fn stopped_at<T>(
    log: Seq<Event>,
    at: int,
    result: Result<T, Status>,
    status: Status,
) -> bool {
    log.len() == at + 1 && result == Err::<T, Status>(status)
}

/// The bytes of an answer.
pub open spec fn bytes_answered(result: Result<Vec<u8>, Status>) -> Result<Seq<u8>, Status> {
    match result {
        Ok(bytes) => Ok(bytes@),
        Err(status) => Err(status),
    }
}

/// The numbers of an answer.
pub open spec fn numbers_answered(result: Result<Vec<u64>, Status>) -> Result<Seq<u64>, Status> {
    match result {
        Ok(numbers) => Ok(numbers@),
        Err(status) => Err(status),
    }
}

/// The entries of an answer.
pub open spec fn entries_answered(result: Result<Vec<DirectoryEntry>, Status>) -> Result<
    Seq<DirectoryEntry>,
    Status,
> {
    match result {
        Ok(entries) => Ok(entries@),
        Err(status) => Err(status),
    }
}

/// The handles of an answer.
pub open spec fn handles_answered(result: Result<Vec<Handle>, Status>) -> Result<
    Seq<Handle>,
    Status,
> {
    match result {
        Ok(handles) => Ok(handles@),
        Err(status) => Err(status),
    }
}

/// The message of an answer.
pub open spec fn message_answered(result: Result<ReceivedMessage, ReceiveError>) -> Result<
    MessageModel,
    ReceiveError,
> {
    match result {
        Ok(message) => Ok(
            MessageModel {
                bytes: message.bytes@,
                handles: message.handles@,
                info: message.info,
            },
        ),
        Err(error) => Err(error),
    }
}

/// What is ready, by an answer.
pub open spec fn poll_answered(
    result: Result<(Option<usize>, Vec<WaitItem>), Status>,
) -> Result<(Option<usize>, Seq<WaitItem>), Status> {
    match result {
        Ok((ready, items)) => Ok((ready, items@)),
        Err(status) => Err(status),
    }
}

/// The way from a system call to the rest of the kernel, with a log of what was asked.
pub struct Session<K> {
    pub kernel: K,
    pub abi: Abi,
    pub log: Ghost<Seq<Event>>,
}

impl<K: Kernel> Session<K> {
    /// A session with nothing asked yet.
    pub fn new(kernel: K, abi: Abi) -> (session: Self)
        ensures
            session.kernel == kernel,
            session.abi == abi,
            session.log@.len() == 0,
    {
        Session { kernel, abi, log: Ghost(Seq::empty()) }
    }

    /// What was asked before stays, and so do the numbers; what the log has more was asked of
    /// the kernel and answered by it.
    pub open spec fn went_on(&self, before: Self) -> bool {
        &&& self.abi == before.abi
        &&& extends(before.log@, self.log@)
        &&& self.heard_from(before)
    }

    /// The session went on, and no thread was told a status.
    pub open spec fn kept(&self, before: Self) -> bool {
        self.went_on(before) && told_nobody(before.log@, self.log@)
    }

    /// The kernel was asked once more; the event is in the log as it was heard.
    pub open spec fn logged(&self, before: Self, event: Event) -> bool {
        &&& self.abi == before.abi
        &&& self.log@ == before.log@.push(event)
        &&& exists|said: Event| #[trigger]
            K::answers(before.kernel, said, self.kernel) && said.heard() == event
    }

    /// Asks for something to be done.
    pub fn done(&mut self, call: Call) -> (result: Result<(), Status>)
        ensures
            final(self).logged(
                *old(self),
                Event { ask: Ask::Plain(call), answer: Answer::Done(result) },
            ),
    {
        let ghost before = self.kernel;
        let result: Result<(), Status> = self.kernel.done(call);
        self.log = Ghost(
            self.log@.push(Event { ask: Ask::Plain(call), answer: Answer::Done(result) }),
        );
        assert(K::answers(
            before,
            Event { ask: Ask::Plain(call), answer: Answer::Done(result) },
            self.kernel,
        ));
        result
    }

    /// Asks for a handle.
    pub fn handle(&mut self, call: Call) -> (result: Result<Handle, Status>)
        ensures
            final(self).logged(
                *old(self),
                Event { ask: Ask::Plain(call), answer: Answer::Handle(result) },
            ),
    {
        let ghost before = self.kernel;
        let result: Result<Handle, Status> = self.kernel.handle(call);
        self.log = Ghost(
            self.log@.push(Event { ask: Ask::Plain(call), answer: Answer::Handle(result) }),
        );
        assert(K::answers(before, Event { ask: Ask::Plain(call), answer: Answer::Handle(result) }, self.kernel));
        result
    }

    /// Asks for two handles.
    pub fn handles(&mut self, call: Call) -> (result: Result<(Handle, Handle), Status>)
        ensures
            final(self).logged(
                *old(self),
                Event { ask: Ask::Plain(call), answer: Answer::Handles(result) },
            ),
    {
        let ghost before = self.kernel;
        let result: Result<(Handle, Handle), Status> = self.kernel.handles(call);
        self.log = Ghost(
            self.log@.push(Event { ask: Ask::Plain(call), answer: Answer::Handles(result) }),
        );
        assert(K::answers(before, Event { ask: Ask::Plain(call), answer: Answer::Handles(result) }, self.kernel));
        result
    }

    /// Asks for a number.
    pub fn number(&mut self, call: Call) -> (result: Result<u64, Status>)
        ensures
            final(self).logged(
                *old(self),
                Event { ask: Ask::Plain(call), answer: Answer::Number(result) },
            ),
    {
        let ghost before = self.kernel;
        let result: Result<u64, Status> = self.kernel.number(call);
        self.log = Ghost(
            self.log@.push(Event { ask: Ask::Plain(call), answer: Answer::Number(result) }),
        );
        assert(K::answers(before, Event { ask: Ask::Plain(call), answer: Answer::Number(result) }, self.kernel));
        result
    }

    /// Asks for bits.
    pub fn bits(&mut self, call: Call) -> (result: Result<u32, Status>)
        ensures
            final(self).logged(
                *old(self),
                Event { ask: Ask::Plain(call), answer: Answer::Bits(result) },
            ),
    {
        let ghost before = self.kernel;
        let result: Result<u32, Status> = self.kernel.bits(call);
        self.log = Ghost(
            self.log@.push(Event { ask: Ask::Plain(call), answer: Answer::Bits(result) }),
        );
        assert(K::answers(before, Event { ask: Ask::Plain(call), answer: Answer::Bits(result) }, self.kernel));
        result
    }

    /// Asks whether something holds.
    pub fn flag(&mut self, call: Call) -> (result: Result<bool, Status>)
        ensures
            final(self).logged(
                *old(self),
                Event { ask: Ask::Plain(call), answer: Answer::Flag(result) },
            ),
    {
        let ghost before = self.kernel;
        let result: Result<bool, Status> = self.kernel.flag(call);
        self.log = Ghost(
            self.log@.push(Event { ask: Ask::Plain(call), answer: Answer::Flag(result) }),
        );
        assert(K::answers(before, Event { ask: Ask::Plain(call), answer: Answer::Flag(result) }, self.kernel));
        result
    }

    /// Asks for a node.
    pub fn node(&mut self, call: Call) -> (result: Result<Node, Status>)
        ensures
            final(self).logged(
                *old(self),
                Event { ask: Ask::Plain(call), answer: Answer::Node(result) },
            ),
    {
        let ghost before = self.kernel;
        let result: Result<Node, Status> = self.kernel.node(call);
        self.log = Ghost(
            self.log@.push(Event { ask: Ask::Plain(call), answer: Answer::Node(result) }),
        );
        assert(K::answers(before, Event { ask: Ask::Plain(call), answer: Answer::Node(result) }, self.kernel));
        result
    }

    /// Asks what is known of a node.
    pub fn metadata(&mut self, call: Call) -> (result: Result<NodeMetadata, Status>)
        ensures
            final(self).logged(
                *old(self),
                Event { ask: Ask::Plain(call), answer: Answer::Metadata(result) },
            ),
    {
        let ghost before = self.kernel;
        let result: Result<NodeMetadata, Status> = self.kernel.metadata(call);
        self.log = Ghost(
            self.log@.push(Event { ask: Ask::Plain(call), answer: Answer::Metadata(result) }),
        );
        assert(K::answers(before, Event { ask: Ask::Plain(call), answer: Answer::Metadata(result) }, self.kernel));
        result
    }

    /// Asks what a handle names.
    pub fn object_type(&mut self, handle: Handle) -> (result: Result<ObjectType, Status>)
        ensures
            final(self).logged(
                *old(self),
                Event { ask: Ask::Plain(Call::ObjectType { handle }), answer: Answer::ObjectType(result) },
            ),
    {
        let ghost before = self.kernel;
        let result: Result<ObjectType, Status> = self.kernel.object_type(handle);
        self.log = Ghost(
            self.log@.push(
                Event { ask: Ask::Plain(Call::ObjectType { handle }), answer: Answer::ObjectType(result) },
            ),
        );
        assert(K::answers(before, Event { ask: Ask::Plain(Call::ObjectType { handle }), answer: Answer::ObjectType(result) }, self.kernel));
        result
    }

    /// Asks for bytes. A copy that is not as long as it was asked for is a fault.
    pub fn bytes(&mut self, call: Call) -> (result: Result<Vec<u8>, Status>)
        ensures
            final(self).logged(
                *old(self),
                Event { ask: Ask::Plain(call), answer: Answer::Bytes(bytes_answered(result)) },
            ),
            call matches Call::CopyIn { length, .. } ==> (result matches Ok(bytes) ==> bytes@.len()
                == length),
    {
        let ghost before = self.kernel;
        let answered: Result<Vec<u8>, Status> = self.kernel.bytes(call);
        let ghost said = bytes_answered(answered);
        let result: Result<Vec<u8>, Status> = match (call, answered) {
            (Call::CopyIn { length, .. }, Ok(bytes)) => if bytes.len() == length {
                Ok(bytes)
            } else {
                Err(Status::InvalidAddress)
            },
            (_, answered) => answered,
        };
        self.log = Ghost(
            self.log@.push(
                Event { ask: Ask::Plain(call), answer: Answer::Bytes(bytes_answered(result)) },
            ),
        );
        assert(K::answers(
            before,
            Event { ask: Ask::Plain(call), answer: Answer::Bytes(said) },
            self.kernel,
        ));
        result
    }

    /// Hands bytes over.
    pub fn write(&mut self, call: Call, bytes: &[u8]) -> (result: Result<(), Status>)
        ensures
            final(self).logged(
                *old(self),
                Event { ask: Ask::With(call, bytes@), answer: Answer::Done(result) },
            ),
    {
        let ghost before = self.kernel;
        let result: Result<(), Status> = self.kernel.write(call, bytes);
        self.log = Ghost(
            self.log@.push(Event { ask: Ask::With(call, bytes@), answer: Answer::Done(result) }),
        );
        assert(K::answers(before, Event { ask: Ask::With(call, bytes@), answer: Answer::Done(result) }, self.kernel));
        result
    }

    /// Hands bytes over and asks for a number.
    pub fn write_number(&mut self, call: Call, bytes: &[u8]) -> (result: Result<u64, Status>)
        ensures
            final(self).logged(
                *old(self),
                Event { ask: Ask::With(call, bytes@), answer: Answer::Number(result) },
            ),
    {
        let ghost before = self.kernel;
        let result: Result<u64, Status> = self.kernel.write_number(call, bytes);
        self.log = Ghost(
            self.log@.push(Event { ask: Ask::With(call, bytes@), answer: Answer::Number(result) }),
        );
        assert(K::answers(before, Event { ask: Ask::With(call, bytes@), answer: Answer::Number(result) }, self.kernel));
        result
    }

    /// Hands bytes over and asks for a handle.
    pub fn write_handle(&mut self, call: Call, bytes: &[u8]) -> (result: Result<Handle, Status>)
        ensures
            final(self).logged(
                *old(self),
                Event { ask: Ask::With(call, bytes@), answer: Answer::Handle(result) },
            ),
    {
        let ghost before = self.kernel;
        let result: Result<Handle, Status> = self.kernel.write_handle(call, bytes);
        self.log = Ghost(
            self.log@.push(Event { ask: Ask::With(call, bytes@), answer: Answer::Handle(result) }),
        );
        assert(K::answers(before, Event { ask: Ask::With(call, bytes@), answer: Answer::Handle(result) }, self.kernel));
        result
    }

    /// Asks for the node of a path.
    pub fn path_node(&mut self, call: Call, path: &[u8]) -> (result: Result<Node, Status>)
        ensures
            final(self).logged(
                *old(self),
                Event { ask: Ask::With(call, path@), answer: Answer::Node(result) },
            ),
    {
        let ghost before = self.kernel;
        let result: Result<Node, Status> = self.kernel.path_node(call, path);
        self.log = Ghost(
            self.log@.push(Event { ask: Ask::With(call, path@), answer: Answer::Node(result) }),
        );
        assert(K::answers(before, Event { ask: Ask::With(call, path@), answer: Answer::Node(result) }, self.kernel));
        result
    }

    /// Asks what is known of a thread.
    pub fn thread(&mut self, thread: u64) -> (result: Result<ThreadFacts, Status>)
        ensures
            final(self).logged(
                *old(self),
                Event { ask: Ask::Thread(thread), answer: Answer::Thread(result) },
            ),
    {
        let ghost before = self.kernel;
        let result: Result<ThreadFacts, Status> = self.kernel.thread(thread);
        self.log = Ghost(
            self.log@.push(Event { ask: Ask::Thread(thread), answer: Answer::Thread(result) }),
        );
        assert(K::answers(before, Event { ask: Ask::Thread(thread), answer: Answer::Thread(result) }, self.kernel));
        result
    }

    /// Asks how a thread was scheduled.
    pub fn scheduling(&mut self, thread: u64) -> (result: Result<SchedulingFacts, Status>)
        ensures
            final(self).logged(
                *old(self),
                Event { ask: Ask::Scheduling(thread), answer: Answer::Scheduling(result) },
            ),
    {
        let ghost before = self.kernel;
        let result: Result<SchedulingFacts, Status> = self.kernel.scheduling(thread);
        self.log = Ghost(
            self.log@.push(
                Event { ask: Ask::Scheduling(thread), answer: Answer::Scheduling(result) },
            ),
        );
        assert(K::answers(before, Event { ask: Ask::Scheduling(thread), answer: Answer::Scheduling(result) }, self.kernel));
        result
    }

    /// Asks how a process ended.
    pub fn process_info(&mut self, handle: Handle) -> (result: Result<ProcessFacts, Status>)
        ensures
            final(self).logged(
                *old(self),
                Event { ask: Ask::ProcessInfo(handle), answer: Answer::Process(result) },
            ),
    {
        let ghost before = self.kernel;
        let result: Result<ProcessFacts, Status> = self.kernel.process_info(handle);
        self.log = Ghost(
            self.log@.push(
                Event { ask: Ask::ProcessInfo(handle), answer: Answer::Process(result) },
            ),
        );
        assert(K::answers(before, Event { ask: Ask::ProcessInfo(handle), answer: Answer::Process(result) }, self.kernel));
        result
    }

    /// Asks how far a request to power off has come.
    pub fn power_info(&mut self, handle: Handle) -> (result: Result<PowerFacts, Status>)
        ensures
            final(self).logged(
                *old(self),
                Event { ask: Ask::PowerInfo(handle), answer: Answer::Power(result) },
            ),
    {
        let ghost before = self.kernel;
        let result: Result<PowerFacts, Status> = self.kernel.power_info(handle);
        self.log = Ghost(
            self.log@.push(Event { ask: Ask::PowerInfo(handle), answer: Answer::Power(result) }),
        );
        assert(K::answers(before, Event { ask: Ask::PowerInfo(handle), answer: Answer::Power(result) }, self.kernel));
        result
    }

    /// Asks what is known of the file system.
    pub fn filesystem_info(&mut self) -> (result: Result<FilesystemInfo, Status>)
        ensures
            final(self).logged(
                *old(self),
                Event { ask: Ask::FilesystemInfo, answer: Answer::FilesystemInfo(result) },
            ),
    {
        let ghost before = self.kernel;
        let result: Result<FilesystemInfo, Status> = self.kernel.filesystem_info();
        self.log = Ghost(
            self.log@.push(
                Event { ask: Ask::FilesystemInfo, answer: Answer::FilesystemInfo(result) },
            ),
        );
        assert(K::answers(before, Event { ask: Ask::FilesystemInfo, answer: Answer::FilesystemInfo(result) }, self.kernel));
        result
    }

    /// Asks what the broker has for one request.
    pub fn limits(&mut self) -> (result: RequestLimits)
        ensures
            final(self).logged(
                *old(self),
                Event { ask: Ask::Limits, answer: Answer::Limits(result) },
            ),
    {
        let ghost before = self.kernel;
        let result: RequestLimits = self.kernel.limits();
        self.log = Ghost(
            self.log@.push(Event { ask: Ask::Limits, answer: Answer::Limits(result) }),
        );
        assert(K::answers(before, Event { ask: Ask::Limits, answer: Answer::Limits(result) }, self.kernel));
        result
    }

    /// Asks the broker whether it can have a request.
    pub fn check_resources(&mut self, request: &PreparedBrokerRequest) -> (result: Result<(), Status>)
        ensures
            final(self).logged(
                *old(self),
                Event { ask: Ask::CheckResources(request.model()), answer: Answer::Done(result) },
            ),
    {
        let ghost before = self.kernel;
        let result: Result<(), Status> = self.kernel.check_resources(request);
        self.log = Ghost(
            self.log@.push(
                Event { ask: Ask::CheckResources(request.model()), answer: Answer::Done(result) },
            ),
        );
        assert(K::answers(before, Event { ask: Ask::CheckResources(request.model()), answer: Answer::Done(result) }, self.kernel));
        result
    }

    /// Asks the broker what it knows of a request.
    pub fn request_info(&mut self, request: u64) -> (result: Option<RequestInfo>)
        ensures
            final(self).logged(
                *old(self),
                Event { ask: Ask::RequestInfo(request), answer: Answer::RequestInfo(result) },
            ),
    {
        let ghost before = self.kernel;
        let result: Option<RequestInfo> = self.kernel.request_info(request);
        self.log = Ghost(
            self.log@.push(
                Event { ask: Ask::RequestInfo(request), answer: Answer::RequestInfo(result) },
            ),
        );
        assert(K::answers(before, Event { ask: Ask::RequestInfo(request), answer: Answer::RequestInfo(result) }, self.kernel));
        result
    }

    /// Asks what a thread waits for.
    pub fn blocked_kind(&mut self, thread: u64) -> (result: Option<BlockedKind>)
        ensures
            final(self).logged(
                *old(self),
                Event { ask: Ask::BlockedKind(thread), answer: Answer::BlockedKind(result) },
            ),
    {
        let ghost before = self.kernel;
        let result: Option<BlockedKind> = self.kernel.blocked_kind(thread);
        self.log = Ghost(
            self.log@.push(
                Event { ask: Ask::BlockedKind(thread), answer: Answer::BlockedKind(result) },
            ),
        );
        assert(K::answers(before, Event { ask: Ask::BlockedKind(thread), answer: Answer::BlockedKind(result) }, self.kernel));
        result
    }

    /// Takes the ended request of a blocked thread.
    pub fn ended_request(&mut self, thread: u64) -> (result: Result<EndedRequest, Status>)
        ensures
            final(self).logged(
                *old(self),
                Event { ask: Ask::EndedRequest(thread), answer: Answer::EndedRequest(result) },
            ),
    {
        let ghost before = self.kernel;
        let result: Result<EndedRequest, Status> = self.kernel.ended_request(thread);
        self.log = Ghost(
            self.log@.push(
                Event { ask: Ask::EndedRequest(thread), answer: Answer::EndedRequest(result) },
            ),
        );
        assert(K::answers(before, Event { ask: Ask::EndedRequest(thread), answer: Answer::EndedRequest(result) }, self.kernel));
        result
    }

    /// Takes the ended join of a blocked thread.
    pub fn ended_join(&mut self, thread: u64) -> (result: Result<EndedJoin, Status>)
        ensures
            final(self).logged(
                *old(self),
                Event { ask: Ask::EndedJoin(thread), answer: Answer::EndedJoin(result) },
            ),
    {
        let ghost before = self.kernel;
        let result: Result<EndedJoin, Status> = self.kernel.ended_join(thread);
        self.log = Ghost(
            self.log@.push(
                Event { ask: Ask::EndedJoin(thread), answer: Answer::EndedJoin(result) },
            ),
        );
        assert(K::answers(before, Event { ask: Ask::EndedJoin(thread), answer: Answer::EndedJoin(result) }, self.kernel));
        result
    }

    /// Asks for the limits of a child.
    pub fn child_limits(&mut self, requested: Option<ProcessLimits>) -> (result: Option<ProcessLimits>)
        ensures
            final(self).logged(
                *old(self),
                Event { ask: Ask::ChildLimits(requested), answer: Answer::ChildLimits(result) },
            ),
    {
        let ghost before = self.kernel;
        let result: Option<ProcessLimits> = self.kernel.child_limits(requested);
        self.log = Ghost(
            self.log@.push(
                Event { ask: Ask::ChildLimits(requested), answer: Answer::ChildLimits(result) },
            ),
        );
        assert(K::answers(before, Event { ask: Ask::ChildLimits(requested), answer: Answer::ChildLimits(result) }, self.kernel));
        result
    }

    /// Checks what a child is to start with.
    pub fn prepare_startup(&mut self, args: &[u8], config: &[u8], handle_count: usize) -> (result:
        Result<(), Status>)
        ensures
            final(self).logged(
                *old(self),
                Event {
                    ask: Ask::PrepareStartup { args: args@, config: config@, handle_count },
                    answer: Answer::Done(result),
                },
            ),
    {
        let ghost before = self.kernel;
        let result: Result<(), Status> = self.kernel.prepare_startup(args, config, handle_count);
        self.log = Ghost(
            self.log@.push(
                Event {
                    ask: Ask::PrepareStartup { args: args@, config: config@, handle_count },
                    answer: Answer::Done(result),
                },
            ),
        );
        assert(K::answers(before, Event {
                    ask: Ask::PrepareStartup { args: args@, config: config@, handle_count },
                    answer: Answer::Done(result),
                }, self.kernel));
        result
    }

    /// Makes a child of an image.
    pub fn make_child(&mut self, image: &[u8], limits: ProcessLimits) -> (result: Result<(), Status>)
        ensures
            final(self).logged(
                *old(self),
                Event {
                    ask: Ask::MakeChild { image: image@, limits },
                    answer: Answer::Done(result),
                },
            ),
    {
        let ghost before = self.kernel;
        let result: Result<(), Status> = self.kernel.make_child(image, limits);
        self.log = Ghost(
            self.log@.push(
                Event {
                    ask: Ask::MakeChild { image: image@, limits },
                    answer: Answer::Done(result),
                },
            ),
        );
        assert(K::answers(before, Event {
                    ask: Ask::MakeChild { image: image@, limits },
                    answer: Answer::Done(result),
                }, self.kernel));
        result
    }

    /// Gives a child what it starts with.
    pub fn install_startup(&mut self, handles: &[Handle]) -> (result: Result<(), Status>)
        ensures
            final(self).logged(
                *old(self),
                Event { ask: Ask::InstallStartup(handles@), answer: Answer::Done(result) },
            ),
    {
        let ghost before = self.kernel;
        let result: Result<(), Status> = self.kernel.install_startup(handles);
        self.log = Ghost(
            self.log@.push(
                Event { ask: Ask::InstallStartup(handles@), answer: Answer::Done(result) },
            ),
        );
        assert(K::answers(before, Event { ask: Ask::InstallStartup(handles@), answer: Answer::Done(result) }, self.kernel));
        result
    }

    /// Asks what failures the process is charged with.
    pub fn failure_counts(&mut self) -> (result: super::number::FailureCounts)
        ensures
            final(self).logged(
                *old(self),
                Event { ask: Ask::FailureCounts, answer: Answer::FailureCounts(result) },
            ),
    {
        let ghost before = self.kernel;
        let result: super::number::FailureCounts = self.kernel.failure_counts();
        self.log = Ghost(
            self.log@.push(
                Event { ask: Ask::FailureCounts, answer: Answer::FailureCounts(result) },
            ),
        );
        assert(K::answers(before, Event { ask: Ask::FailureCounts, answer: Answer::FailureCounts(result) }, self.kernel));
        result
    }

    /// Asks what is known of the memory.
    pub fn memory_facts(&mut self) -> (result: super::memory::MemoryFacts)
        ensures
            final(self).logged(
                *old(self),
                Event { ask: Ask::MemoryFacts, answer: Answer::MemoryFacts(result) },
            ),
    {
        let ghost before = self.kernel;
        let result: super::memory::MemoryFacts = self.kernel.memory_facts();
        self.log = Ghost(
            self.log@.push(Event { ask: Ask::MemoryFacts, answer: Answer::MemoryFacts(result) }),
        );
        assert(K::answers(before, Event { ask: Ask::MemoryFacts, answer: Answer::MemoryFacts(result) }, self.kernel));
        result
    }

    /// Renames a file or directory.
    pub fn rename(&mut self,
        source: Node,
        source_path: &[u8],
        destination: Node,
        destination_path: &[u8],
        replace: bool,
    ) -> (result: Result<(), Status>)
        ensures
            final(self).logged(
                *old(self),
                Event { ask: Ask::Rename { source, source_path: source_path@, destination, destination_path: destination_path@, replace }, answer: Answer::Done(result) },
            ),
    {
        let ghost before = self.kernel;
        let result: Result<(), Status> = self.kernel.rename(
            source,
            source_path,
            destination,
            destination_path,
            replace,
        );
        self.log = Ghost(
            self.log@.push(
                Event { ask: Ask::Rename { source, source_path: source_path@, destination, destination_path: destination_path@, replace }, answer: Answer::Done(result) },
            ),
        );
        assert(K::answers(before, Event { ask: Ask::Rename { source, source_path: source_path@, destination, destination_path: destination_path@, replace }, answer: Answer::Done(result) }, self.kernel));
        result
    }

    /// Sends a message.
    pub fn send(&mut self,
        channel: Handle,
        bytes: &[u8],
        dispositions: &[HandleOperationDisposition],
    ) -> (result: Result<(), Status>)
        ensures
            final(self).logged(
                *old(self),
                Event { ask: Ask::Send { channel, bytes: bytes@, dispositions: dispositions@ }, answer: Answer::Done(result) },
            ),
    {
        let ghost before = self.kernel;
        let result: Result<(), Status> = self.kernel.send(channel, bytes, dispositions);
        self.log = Ghost(
            self.log@.push(
                Event { ask: Ask::Send { channel, bytes: bytes@, dispositions: dispositions@ }, answer: Answer::Done(result) },
            ),
        );
        assert(K::answers(before, Event { ask: Ask::Send { channel, bytes: bytes@, dispositions: dispositions@ }, answer: Answer::Done(result) }, self.kernel));
        result
    }

    /// Hands a request to the broker, which gives it a number.
    pub fn submit(&mut self, request: PreparedBrokerRequest, now_ns: u64) -> (result: Result<u64, Status>)
        ensures
            final(self).logged(
                *old(self),
                Event { ask: Ask::Submit { request: request.model(), now_ns }, answer: Answer::Number(result) },
            ),
    {
        let ghost before = self.kernel;
        let ghost ask = Ask::Submit { request: request.model(), now_ns };
        let result: Result<u64, Status> = self.kernel.submit(request, now_ns);
        self.log = Ghost(self.log@.push(Event { ask, answer: Answer::Number(result) }));
        assert(K::answers(before, Event { ask, answer: Answer::Number(result) }, self.kernel));
        result
    }

    /// Hands requests to the broker, all or none.
    pub fn submit_batch(&mut self, requests: Vec<PreparedBrokerRequest>, now_ns: u64) -> (result: Result<Vec<u64>, Status>)
        ensures
            final(self).logged(
                *old(self),
                Event { ask: Ask::SubmitBatch { requests: request_models(requests@), now_ns }, answer: Answer::Numbers(numbers_answered(result)) },
            ),
    {
        let ghost before = self.kernel;
        let ghost ask = Ask::SubmitBatch { requests: request_models(requests@), now_ns };
        let result: Result<Vec<u64>, Status> = self.kernel.submit_batch(requests, now_ns);
        self.log = Ghost(
            self.log@.push(Event { ask, answer: Answer::Numbers(numbers_answered(result)) }),
        );
        assert(K::answers(before, Event { ask, answer: Answer::Numbers(numbers_answered(result)) }, self.kernel));
        result
    }

    /// Asks for the names in a directory.
    pub fn list_directory(&mut self, directory: Node) -> (result: Result<Vec<DirectoryEntry>, Status>)
        ensures
            final(self).logged(
                *old(self),
                Event { ask: Ask::ListDirectory(directory), answer: Answer::Entries(entries_answered(result)) },
            ),
    {
        let ghost before = self.kernel;
        let result: Result<Vec<DirectoryEntry>, Status> = self.kernel.list_directory(directory);
        self.log = Ghost(
            self.log@.push(
                Event { ask: Ask::ListDirectory(directory), answer: Answer::Entries(entries_answered(result)) },
            ),
        );
        assert(K::answers(before, Event { ask: Ask::ListDirectory(directory), answer: Answer::Entries(entries_answered(result)) }, self.kernel));
        result
    }

    /// Takes a message out of a channel.
    pub fn receive(&mut self, channel: Handle, byte_capacity: usize, handle_capacity: usize) -> (result: Result<ReceivedMessage, ReceiveError>)
        ensures
            final(self).logged(
                *old(self),
                Event { ask: Ask::Receive { channel, byte_capacity, handle_capacity }, answer: Answer::Message(message_answered(result)) },
            ),
    {
        let ghost before = self.kernel;
        let result: Result<ReceivedMessage, ReceiveError> = self.kernel.receive(channel, byte_capacity, handle_capacity);
        self.log = Ghost(
            self.log@.push(
                Event { ask: Ask::Receive { channel, byte_capacity, handle_capacity }, answer: Answer::Message(message_answered(result)) },
            ),
        );
        assert(K::answers(before, Event { ask: Ask::Receive { channel, byte_capacity, handle_capacity }, answer: Answer::Message(message_answered(result)) }, self.kernel));
        result
    }

    /// Asks which of several things is ready; an answer about other things is none.
    pub fn poll(&mut self, items: &[WaitItem]) -> (result: Result<
        (Option<usize>, Vec<WaitItem>),
        Status,
    >)
        ensures
            final(self).logged(
                *old(self),
                Event { ask: Ask::Poll(items@), answer: Answer::Poll(poll_answered(result)) },
            ),
            result matches Ok((ready, found)) ==> found@.len() == items@.len(),
    {
        let ghost before = self.kernel;
        let answered: Result<(Option<usize>, Vec<WaitItem>), Status> = self.kernel.poll(items);
        let ghost said = poll_answered(answered);
        let result: Result<(Option<usize>, Vec<WaitItem>), Status> = match answered {
            Err(status) => Err(status),
            Ok((ready, found)) => if found.len() == items.len() {
                Ok((ready, found))
            } else {
                Err(Status::InvalidMessage)
            },
        };
        self.log =
        Ghost(
            self.log@.push(
                Event { ask: Ask::Poll(items@), answer: Answer::Poll(poll_answered(result)) },
            ),
        );
        assert(K::answers(before, Event { ask: Ask::Poll(items@), answer: Answer::Poll(said) }, self.kernel));
        result
    }

    /// Hands handles to the child.
    pub fn transfer_handles(&mut self, dispositions: &[HandleOperationDisposition]) -> (result: Result<Vec<Handle>, Status>)
        ensures
            final(self).logged(
                *old(self),
                Event { ask: Ask::TransferHandles(dispositions@), answer: Answer::NewHandles(handles_answered(result)) },
            ),
    {
        let ghost before = self.kernel;
        let result: Result<Vec<Handle>, Status> = self.kernel.transfer_handles(dispositions);
        self.log = Ghost(
            self.log@.push(
                Event { ask: Ask::TransferHandles(dispositions@), answer: Answer::NewHandles(handles_answered(result)) },
            ),
        );
        assert(K::answers(before, Event { ask: Ask::TransferHandles(dispositions@), answer: Answer::NewHandles(handles_answered(result)) }, self.kernel));
        result
    }

    /// Takes the wait of a blocked thread.
    pub fn take_wait(&mut self, thread: u64) -> (result: PendingWaitMany)
        ensures
            final(self).logged(
                *old(self),
                Event { ask: Ask::TakeWait(thread), answer: Answer::Wait(result.model()) },
            ),
    {
        let ghost before = self.kernel;
        let result: PendingWaitMany = self.kernel.take_wait(thread);
        self.log = Ghost(
            self.log@.push(
                Event { ask: Ask::TakeWait(thread), answer: Answer::Wait(result.model()) },
            ),
        );
        assert(K::answers(before, Event { ask: Ask::TakeWait(thread), answer: Answer::Wait(result.model()) }, self.kernel));
        result
    }

    /// Lets a thread wait.
    pub fn block_wait(&mut self, thread: u64, wait: PendingWaitMany)
        ensures
            final(self).logged(
                *old(self),
                Event { ask: Ask::BlockWait { thread, wait: wait.model() }, answer: Answer::Nothing },
            ),
    {
        let ghost before = self.kernel;
        let ghost ask = Ask::BlockWait { thread, wait: wait.model() };
        self.kernel.block_wait(thread, wait);
        self.log = Ghost(self.log@.push(Event { ask, answer: Answer::Nothing }));
        assert(K::answers(before, Event { ask, answer: Answer::Nothing }, self.kernel));
    }

    /// Copies a record out of the memory of the process. A short answer is a fault.
    pub fn copy_in(&mut self, address: u64, length: usize) -> (result: Result<Vec<u8>, Status>)
        ensures
            final(self).logged(
                *old(self),
                Event {
                    ask: Ask::Plain(Call::CopyIn { address, length }),
                    answer: Answer::Bytes(bytes_answered(result)),
                },
            ),
            result matches Ok(bytes) ==> bytes@.len() == length,
    {
        self.bytes(Call::CopyIn { address, length })
    }

    /// Checks that the process may write a range of its memory.
    pub fn check_output(&mut self, address: u64, length: usize) -> (result: Result<(), Status>)
        ensures
            final(self).logged(
                *old(self),
                Event {
                    ask: Ask::Plain(Call::CheckOutput { address, length }),
                    answer: Answer::Done(result),
                },
            ),
    {
        self.done(Call::CheckOutput { address, length })
    }

    /// Copies a record into the memory of the process.
    pub fn copy_out(&mut self, address: u64, bytes: &[u8]) -> (result: Result<(), Status>)
        ensures
            final(self).logged(
                *old(self),
                Event {
                    ask: Ask::With(Call::CopyOut { address }, bytes@),
                    answer: Answer::Done(result),
                },
            ),
    {
        self.write(Call::CopyOut { address }, bytes)
    }
}

} // verus!
