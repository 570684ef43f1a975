//! Numbers that a process and the kernel agree on.
use vstd::prelude::*;

verus! {

/// What a system call reports.
#[derive(Clone, Copy, Debug, PartialEq, Eq, Structural)]
pub enum Status {
    /// The call did what it was asked.
    Success,
    AccessDenied,
    AlreadyExists,
    AlreadyMapped,
    BufferTooSmall,
    DirectoryNotEmpty,
    EndOfDirectory,
    InvalidAddress,
    InvalidArgument,
    InvalidHandle,
    InvalidMessage,
    InvalidRights,
    Io,
    IsDirectory,
    MessageTooLarge,
    NotDirectory,
    NotFound,
    OutOfMemory,
    OutOfRange,
    ResourceLimit,
    ShouldWait,
    TimedOut,
    UnknownSyscall,
    WrongObjectType,
    /// Another status, by its code.
    Other(i32),
}

/// The codes of the statuses.
#[derive(Clone, Copy, Debug, PartialEq, Eq, Structural)]
pub struct StatusCodes {
    pub ok: i32,
    pub access_denied: i32,
    pub already_exists: i32,
    pub already_mapped: i32,
    pub buffer_too_small: i32,
    pub directory_not_empty: i32,
    pub end_of_directory: i32,
    pub invalid_address: i32,
    pub invalid_argument: i32,
    pub invalid_handle: i32,
    pub invalid_message: i32,
    pub invalid_rights: i32,
    pub io: i32,
    pub is_directory: i32,
    pub message_too_large: i32,
    pub not_directory: i32,
    pub not_found: i32,
    pub out_of_memory: i32,
    pub out_of_range: i32,
    pub resource_limit: i32,
    pub should_wait: i32,
    pub timed_out: i32,
    pub unknown_syscall: i32,
    pub wrong_object_type: i32,
}

impl StatusCodes {
    /// The code of a status.
    pub open spec fn code(self, status: Status) -> i32 {
        match status {
            Status::Success => self.ok,
            Status::AccessDenied => self.access_denied,
            Status::AlreadyExists => self.already_exists,
            Status::AlreadyMapped => self.already_mapped,
            Status::BufferTooSmall => self.buffer_too_small,
            Status::DirectoryNotEmpty => self.directory_not_empty,
            Status::EndOfDirectory => self.end_of_directory,
            Status::InvalidAddress => self.invalid_address,
            Status::InvalidArgument => self.invalid_argument,
            Status::InvalidHandle => self.invalid_handle,
            Status::InvalidMessage => self.invalid_message,
            Status::InvalidRights => self.invalid_rights,
            Status::Io => self.io,
            Status::IsDirectory => self.is_directory,
            Status::MessageTooLarge => self.message_too_large,
            Status::NotDirectory => self.not_directory,
            Status::NotFound => self.not_found,
            Status::OutOfMemory => self.out_of_memory,
            Status::OutOfRange => self.out_of_range,
            Status::ResourceLimit => self.resource_limit,
            Status::ShouldWait => self.should_wait,
            Status::TimedOut => self.timed_out,
            Status::UnknownSyscall => self.unknown_syscall,
            Status::WrongObjectType => self.wrong_object_type,
            Status::Other(code) => code,
        }
    }

    /// The code of a status.
    pub fn raw(&self, status: Status) -> (code: i32)
        ensures
            code == self.code(status),
    {
        match status {
            Status::Success => self.ok,
            Status::AccessDenied => self.access_denied,
            Status::AlreadyExists => self.already_exists,
            Status::AlreadyMapped => self.already_mapped,
            Status::BufferTooSmall => self.buffer_too_small,
            Status::DirectoryNotEmpty => self.directory_not_empty,
            Status::EndOfDirectory => self.end_of_directory,
            Status::InvalidAddress => self.invalid_address,
            Status::InvalidArgument => self.invalid_argument,
            Status::InvalidHandle => self.invalid_handle,
            Status::InvalidMessage => self.invalid_message,
            Status::InvalidRights => self.invalid_rights,
            Status::Io => self.io,
            Status::IsDirectory => self.is_directory,
            Status::MessageTooLarge => self.message_too_large,
            Status::NotDirectory => self.not_directory,
            Status::NotFound => self.not_found,
            Status::OutOfMemory => self.out_of_memory,
            Status::OutOfRange => self.out_of_range,
            Status::ResourceLimit => self.resource_limit,
            Status::ShouldWait => self.should_wait,
            Status::TimedOut => self.timed_out,
            Status::UnknownSyscall => self.unknown_syscall,
            Status::WrongObjectType => self.wrong_object_type,
            Status::Other(code) => code,
        }
    }
}

/// What a thread finds in RAX after a system call: the code of the status, sign-extended.
pub open spec fn register_of(abi: Abi, status: Status) -> u64 {
    let code = abi.status.code(status);
    if code < 0 {
        (0x1_0000_0000_0000_0000 + code) as u64
    } else {
        code as u64
    }
}

/// What a thread finds in RAX after a system call: the code of the status, sign-extended.
pub fn return_register(abi: &Abi, status: Status) -> (rax: u64)
    ensures
        rax == register_of(*abi, status),
{
    let code: i64 = abi.status.raw(status) as i64;
    if code < 0 {
        u64::MAX - (-code) as u64 + 1
    } else {
        code as u64
    }
}

/// A name that a process has for an object.
#[derive(Clone, Copy, Debug, PartialEq, Eq, Structural)]
pub struct Handle(pub u32);

impl Handle {
    /// The handle with this number.
    pub fn from_raw(raw: u32) -> (handle: Self)
        ensures
            handle == Handle(raw),
    {
        Handle(raw)
    }

    /// The number of this handle.
    pub fn raw(&self) -> (raw: u32)
        ensures
            raw == self.0,
    {
        self.0
    }
}

/// What a handle names.
#[derive(Clone, Copy, Debug, PartialEq, Eq, Structural)]
pub enum ObjectType {
    FilesystemRoot,
    Directory,
    File,
    ApplicationData,
    /// Another type, by its number.
    Other(u32),
}

/// Every bit of `mask` is set.
pub open spec fn has_bits(bits: u32, mask: u32) -> bool {
    bits & mask == mask
}

/// Some bit of `mask` is set.
pub open spec fn has_any(bits: u32, mask: u32) -> bool {
    bits & mask != 0
}

/// No bit outside `mask` is set.
pub open spec fn within(bits: u32, mask: u32) -> bool {
    bits & !mask == 0
}

/// Every bit of `mask` is set.
pub fn contains_bits(bits: u32, mask: u32) -> (result: bool)
    ensures
        result == has_bits(bits, mask),
{
    bits & mask == mask
}

/// Some bit of `mask` is set.
pub fn intersects_bits(bits: u32, mask: u32) -> (result: bool)
    ensures
        result == has_any(bits, mask),
{
    bits & mask != 0
}

/// The bits, if none is outside `mask`.
pub fn checked_bits(bits: u32, mask: u32) -> (result: Option<u32>)
    ensures
        result == (if within(bits, mask) {
            Some(bits)
        } else {
            None
        }),
{
    if bits & !mask == 0 {
        Some(bits)
    } else {
        None
    }
}

/// What a handle may be used for.
#[derive(Clone, Copy, Debug, PartialEq, Eq, Structural)]
pub struct RightBits {
    pub read: u32,
    pub write: u32,
    pub execute: u32,
    pub duplicate: u32,
    pub transfer: u32,
    pub all: u32,
}

/// How a file is opened.
#[derive(Clone, Copy, Debug, PartialEq, Eq, Structural)]
pub struct OpenBits {
    pub read: u32,
    pub write: u32,
    pub execute: u32,
    pub create: u32,
    pub truncate: u32,
    pub all: u32,
}

/// How pages are mapped.
#[derive(Clone, Copy, Debug, PartialEq, Eq, Structural)]
pub struct ProtectionBits {
    pub write: u32,
    pub execute: u32,
    pub all: u32,
}

/// What a buffer of a request is for.
#[derive(Clone, Copy, Debug, PartialEq, Eq, Structural)]
pub struct BufferBits {
    pub read: u32,
    pub write: u32,
    pub all: u32,
}

/// What a request does.
#[derive(Clone, Copy, Debug, PartialEq, Eq, Structural)]
pub enum RequestOperation {
    Nop,
    FilesystemOpen,
    FilesystemRead,
    FilesystemWrite,
    FilesystemTruncate,
    FilesystemNamespace,
    FilesystemSync,
    AudioWrite,
    Synthetic,
}

/// The numbers of the operations.
#[derive(Clone, Copy, Debug, PartialEq, Eq, Structural)]
pub struct OperationNumbers {
    pub nop: u32,
    pub filesystem_open: u32,
    pub filesystem_read: u32,
    pub filesystem_write: u32,
    pub filesystem_truncate: u32,
    pub filesystem_namespace: u32,
    pub filesystem_sync: u32,
    pub audio_write: u32,
    pub synthetic: u32,
}

impl OperationNumbers {
    /// The operation with a number.
    pub open spec fn operation(self, raw: u32) -> Option<RequestOperation> {
        if raw == self.nop {
            Some(RequestOperation::Nop)
        } else if raw == self.filesystem_open {
            Some(RequestOperation::FilesystemOpen)
        } else if raw == self.filesystem_read {
            Some(RequestOperation::FilesystemRead)
        } else if raw == self.filesystem_write {
            Some(RequestOperation::FilesystemWrite)
        } else if raw == self.filesystem_truncate {
            Some(RequestOperation::FilesystemTruncate)
        } else if raw == self.filesystem_namespace {
            Some(RequestOperation::FilesystemNamespace)
        } else if raw == self.filesystem_sync {
            Some(RequestOperation::FilesystemSync)
        } else if raw == self.audio_write {
            Some(RequestOperation::AudioWrite)
        } else if raw == self.synthetic {
            Some(RequestOperation::Synthetic)
        } else {
            None
        }
    }

    /// The operation with a number.
    pub fn decode(&self, raw: u32) -> (operation: Option<RequestOperation>)
        ensures
            operation == self.operation(raw),
    {
        if raw == self.nop {
            Some(RequestOperation::Nop)
        } else if raw == self.filesystem_open {
            Some(RequestOperation::FilesystemOpen)
        } else if raw == self.filesystem_read {
            Some(RequestOperation::FilesystemRead)
        } else if raw == self.filesystem_write {
            Some(RequestOperation::FilesystemWrite)
        } else if raw == self.filesystem_truncate {
            Some(RequestOperation::FilesystemTruncate)
        } else if raw == self.filesystem_namespace {
            Some(RequestOperation::FilesystemNamespace)
        } else if raw == self.filesystem_sync {
            Some(RequestOperation::FilesystemSync)
        } else if raw == self.audio_write {
            Some(RequestOperation::AudioWrite)
        } else if raw == self.synthetic {
            Some(RequestOperation::Synthetic)
        } else {
            None
        }
    }
}

/// How a caller learns of the end of a request.
#[derive(Clone, Copy, Debug, PartialEq, Eq, Structural)]
pub enum RequestCompletionMode {
    InlineOnly,
    Handle,
    Block,
}

/// The numbers of the completion modes.
#[derive(Clone, Copy, Debug, PartialEq, Eq, Structural)]
pub struct ModeNumbers {
    pub inline_only: u32,
    pub handle: u32,
    pub block: u32,
}

impl ModeNumbers {
    /// The mode with a number.
    pub open spec fn mode(self, raw: u32) -> Option<RequestCompletionMode> {
        if raw == self.inline_only {
            Some(RequestCompletionMode::InlineOnly)
        } else if raw == self.handle {
            Some(RequestCompletionMode::Handle)
        } else if raw == self.block {
            Some(RequestCompletionMode::Block)
        } else {
            None
        }
    }

    /// The mode with a number.
    pub fn decode(&self, raw: u32) -> (mode: Option<RequestCompletionMode>)
        ensures
            mode == self.mode(raw),
    {
        if raw == self.inline_only {
            Some(RequestCompletionMode::InlineOnly)
        } else if raw == self.handle {
            Some(RequestCompletionMode::Handle)
        } else if raw == self.block {
            Some(RequestCompletionMode::Block)
        } else {
            None
        }
    }
}

/// Where the bytes of a request's buffer are.
#[derive(Clone, Copy, Debug, PartialEq, Eq, Structural)]
pub enum RequestBufferKind {
    Copy,
    Pinned,
    SharedMemory,
}

/// The numbers of the buffer kinds.
#[derive(Clone, Copy, Debug, PartialEq, Eq, Structural)]
pub struct KindNumbers {
    pub copy: u32,
    pub pinned: u32,
    pub shared_memory: u32,
}

impl KindNumbers {
    /// The kind with a number.
    pub open spec fn kind(self, raw: u32) -> Option<RequestBufferKind> {
        if raw == self.copy {
            Some(RequestBufferKind::Copy)
        } else if raw == self.pinned {
            Some(RequestBufferKind::Pinned)
        } else if raw == self.shared_memory {
            Some(RequestBufferKind::SharedMemory)
        } else {
            None
        }
    }

    /// The kind with a number.
    pub fn decode(&self, raw: u32) -> (kind: Option<RequestBufferKind>)
        ensures
            kind == self.kind(raw),
    {
        if raw == self.copy {
            Some(RequestBufferKind::Copy)
        } else if raw == self.pinned {
            Some(RequestBufferKind::Pinned)
        } else if raw == self.shared_memory {
            Some(RequestBufferKind::SharedMemory)
        } else {
            None
        }
    }
}

/// How far a request has come.
#[derive(Clone, Copy, Debug, PartialEq, Eq, Structural)]
pub struct StateNumbers {
    pub pending: u32,
    pub completed: u32,
    pub timed_out: u32,
    pub canceled: u32,
    pub failed: u32,
    pub owner_terminated: u32,
}

impl StateNumbers {
    /// The request has come to its end.
    pub open spec fn terminal(self, raw: u32) -> bool {
        raw == self.completed || raw == self.timed_out || raw == self.canceled || raw == self.failed
            || raw == self.owner_terminated
    }

    /// The request has come to its end.
    pub fn is_terminal(&self, raw: u32) -> (result: bool)
        ensures
            result == self.terminal(raw),
    {
        raw == self.completed || raw == self.timed_out || raw == self.canceled || raw == self.failed
            || raw == self.owner_terminated
    }
}

/// States of a thread, as a process sees them.
#[derive(Clone, Copy, Debug, PartialEq, Eq, Structural)]
pub struct ThreadStateNumbers {
    pub running: u32,
    pub blocked: u32,
    pub exited: u32,
    pub faulted: u32,
    pub terminated: u32,
}

/// Why a thread faulted.
#[derive(Clone, Copy, Debug, PartialEq, Eq, Structural)]
pub enum FaultReason {
    PageFault,
    GeneralProtection,
    InvalidOpcode,
    InvalidUserContext,
    ResourceLimit,
    OutOfMemory,
    Other,
}

/// The numbers of the fault reasons.
#[derive(Clone, Copy, Debug, PartialEq, Eq, Structural)]
pub struct FaultNumbers {
    pub page_fault: u32,
    pub general_protection: u32,
    pub invalid_opcode: u32,
    pub invalid_user_context: u32,
    pub resource_limit: u32,
    pub out_of_memory: u32,
    pub other: u32,
}

impl FaultNumbers {
    /// The number of a reason.
    pub open spec fn number(self, reason: FaultReason) -> u32 {
        match reason {
            FaultReason::PageFault => self.page_fault,
            FaultReason::GeneralProtection => self.general_protection,
            FaultReason::InvalidOpcode => self.invalid_opcode,
            FaultReason::InvalidUserContext => self.invalid_user_context,
            FaultReason::ResourceLimit => self.resource_limit,
            FaultReason::OutOfMemory => self.out_of_memory,
            FaultReason::Other => self.other,
        }
    }

    /// The number of a reason.
    pub fn public_thread_fault(&self, reason: FaultReason) -> (number: u32)
        ensures
            number == self.number(reason),
    {
        match reason {
            FaultReason::PageFault => self.page_fault,
            FaultReason::GeneralProtection => self.general_protection,
            FaultReason::InvalidOpcode => self.invalid_opcode,
            FaultReason::InvalidUserContext => self.invalid_user_context,
            FaultReason::ResourceLimit => self.resource_limit,
            FaultReason::OutOfMemory => self.out_of_memory,
            FaultReason::Other => self.other,
        }
    }
}

/// The numbers of the scheduling classes.
#[derive(Clone, Copy, Debug, PartialEq, Eq, Structural)]
pub struct ClassNumbers {
    pub critical: u32,
    pub audio: u32,
    pub interactive: u32,
    pub normal: u32,
    pub background: u32,
}

/// Versions of the records that a process hands over or is given.
#[derive(Clone, Copy, Debug, PartialEq, Eq, Structural)]
pub struct Versions {
    pub thread_create_args: u32,
    pub thread_info: u32,
    pub thread_scheduling_info: u32,
    pub request_submit_args: u32,
    pub request_submit_batch_args: u32,
    pub request_info: u32,
    pub request_diagnostics: u32,
    pub process_memory_policy: u32,
    pub memory_info: u32,
    pub memory_info_first: u32,
    pub virtual_area_info: u32,
}

/// Sizes of records that are made elsewhere.
#[derive(Clone, Copy, Debug, PartialEq, Eq, Structural)]
pub struct Sizes {
    pub request_info: u32,
    pub request_diagnostics: u32,
    pub memory_info: u32,
    pub memory_info_first: u32,
    pub virtual_area_info: u32,
    pub directory_entry: u32,
}

/// What a system call may ask for at most.
#[derive(Clone, Copy, Debug, PartialEq, Eq, Structural)]
pub struct Limits {
    pub channel_bytes: u32,
    pub channel_handles: u32,
    pub filesystem_name: u32,
    pub traversal_depth: u32,
    pub filesystem_read_bytes: u32,
    pub startup_bytes: u32,
    pub startup_handles: u32,
    pub random_bytes: u32,
    pub request_batch: u32,
    pub request_buffers: u32,
    pub app_id_bytes: u32,
}

/// The numbers that a process and the kernel agree on.
#[derive(Clone, Copy, Debug, PartialEq, Eq, Structural)]
pub struct Abi {
    pub status: StatusCodes,
    /// The handle that names nothing.
    pub invalid_handle: Handle,
    /// The deadline that never comes.
    pub deadline_infinite: i64,
    pub rights: RightBits,
    pub signals: u32,
    pub open_flags: OpenBits,
    pub rename_replace: u32,
    pub rename_flags: u32,
    pub protection: ProtectionBits,
    pub map_flags: u32,
    pub request_allow_partial: u32,
    pub request_flags: u32,
    pub buffer_flags: BufferBits,
    pub power_flags: u32,
    pub operations: OperationNumbers,
    pub modes: ModeNumbers,
    pub buffer_kinds: KindNumbers,
    pub request_states: StateNumbers,
    pub thread_states: ThreadStateNumbers,
    pub faults: FaultNumbers,
    pub classes: ClassNumbers,
    pub versions: Versions,
    pub sizes: Sizes,
    pub limits: Limits,
}

impl Abi {
    /// The handle names something.
    pub open spec fn valid(self, handle: Handle) -> bool {
        handle != self.invalid_handle
    }

    /// The handle names something.
    pub fn is_valid(&self, handle: Handle) -> (result: bool)
        ensures
            result == self.valid(handle),
    {
        handle.0 != self.invalid_handle.0
    }
}

/// Maximum bytes of one debug write.
pub const DEBUG_WRITE_MAX_BYTES: usize = 4096;

/// Maximum bytes of one audio write.
pub const AUDIO_WRITE_MAX_BYTES: usize = 16384;

/// Maximum objects of one wait.
pub const WAIT_MANY_MAX_ITEMS: usize = 64;

/// Bytes of a page.
pub const PAGE_SIZE: u64 = 4096;

/// Heap values taken just before a system call.
#[derive(Clone, Copy, Debug, PartialEq, Eq, Structural)]
pub struct KernelHeapStats {
    pub committed_bytes: u64,
    pub available_bytes: u64,
    pub growth_failures: u64,
}

impl Default for KernelHeapStats {
    fn default() -> (stats: Self)
        ensures
            stats == (KernelHeapStats {
                committed_bytes: 0,
                available_bytes: 0,
                growth_failures: 0,
            }),
    {
        KernelHeapStats { committed_bytes: 0, available_bytes: 0, growth_failures: 0 }
    }
}

} // verus!
