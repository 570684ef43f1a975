//! What failures elsewhere in the kernel mean to a caller.
use vstd::prelude::*;

use super::abi::Status;

verus! {

/// Why a kernel page table could not be changed.
#[derive(Clone, Copy, Debug, PartialEq, Eq, Structural)]
pub enum MapError {
    AlreadyMapped,
    OutOfFrames,
    FrameAllocator,
    AddressOverflow,
    InvalidHhdmOffset,
    CorruptPageTable,
    ParentPermissionConflict,
    HugePageConflict,
}

/// Why an address space refused an operation.
#[derive(Clone, Copy, Debug, PartialEq, Eq, Structural)]
pub enum AddressSpaceError {
    AlreadyMapped(u64),
    PermissionDenied { address: u64 },
    PinnedMapping(u64),
    OutOfMemory,
    OutOfFrames,
    FrameAllocator,
    InvalidRangeLength(u64),
    WritableExecutable,
    KernelPageTable(MapError),
    AddressOverflow,
    InvalidHhdmOffset,
    NonCanonicalAddress(u64),
    HigherHalfAddress(u64),
    ZeroPage,
    UnalignedAddress(u64),
    NotMapped(u64),
    CorruptPageTable,
    HugePageConflict,
    FrameAlreadyOwned(u64),
    DuplicateSharedAlias(u64),
    MappedFrameNotOwned(u64),
    UntrackedMapping(u64),
    ActiveAddressSpaceRequired,
    UserCopyFault,
    ActiveKernelPageTableRequired,
    UserAccessibleKernelP4Entry(u64),
}

/// Why a mapping failed.
#[derive(Clone, Copy, Debug, PartialEq, Eq, Structural)]
pub enum SharedMappingError {
    /// A handle was refused; the status says why.
    Ipc(Status),
    InvalidProtection(u32),
    UnsupportedFlags(u32),
    UnalignedOffset(u64),
    ZeroLength,
    RangeOverflow,
    RangeOutsideObject,
    OutOfMemory,
    NoAddressSpace,
    Io,
    ResourceLimit,
    AlreadyMapped(u64),
    AddressSpace(AddressSpaceError),
    RollbackFailed { mapping_error: AddressSpaceError, rollback_error: AddressSpaceError },
    InvalidBackingLength,
    InvalidPhysicalAddress(u64),
    PhysicalAddressNotPageAligned(u64),
    UnalignedFixedAddress(u64),
    InvalidFixedAddress(u64),
    ExactMappingNotFound,
}

/// Why a thread was not made.
#[derive(Clone, Copy, Debug, PartialEq, Eq, Structural)]
pub enum ThreadCreateError {
    InvalidEntry,
    InvalidStack,
    InvalidTls,
    ResourceLimit,
    OutOfMemory,
    AddressSpace(AddressSpaceError),
    RollbackFailed,
}

/// Why a page of an executable was not loaded.
#[derive(Clone, Copy, Debug, PartialEq, Eq, Structural)]
pub enum ElfPageLoadError {
    AddressSpace { address: u64, error: AddressSpaceError },
    Other,
}

/// Why a process was not made.
#[derive(Clone, Copy, Debug, PartialEq, Eq, Structural)]
pub enum ProcessCreateError {
    MemoryPolicy,
    ResourceLimit,
    OutOfMemory,
    AddressSpace(AddressSpaceError),
    Elf,
    ElfPage(ElfPageLoadError),
    StackCollision,
    StackPage { error: AddressSpaceError },
    EntryNotExecutable(u64),
    StackNotWritable(u64),
}

/// Why a request was refused.
#[derive(Clone, Copy, Debug, PartialEq, Eq, Structural)]
pub enum RequestError {
    OutOfMemory,
    Quiescing,
    CompletionQueueFull,
    EmptyBatch,
    InvalidLimits,
    InvalidState,
    BatchTooLarge,
    SystemFull,
    OwnerLimit,
    TargetLimit,
    CopiedBytesLimit,
    PinnedPagesLimit,
    SharedBytesLimit,
    OutputTooSmall,
    InvalidRequest,
    ReleaseNotDispatched,
}

/// Why the broker of requests refused.
#[derive(Clone, Copy, Debug, PartialEq, Eq, Structural)]
pub enum BrokerError {
    Runtime(RequestError),
    /// A handle was refused; the status says why.
    Control(Status),
    OutOfMemory,
    TooManyBuffers,
    ResourceOverflow,
    InvalidDeadline,
    PinnedPageOwnerMismatch,
    InvalidRequest,
    ReleaseNotDispatched,
    ResourcesAlreadyTaken,
    ActionMismatch,
}

/// Why the file system refused.
#[derive(Clone, Copy, Debug, PartialEq, Eq, Structural)]
pub enum FsError {
    InvalidName,
    TraversalTooDeep,
    AlreadyExists,
    NotFound,
    NoSpace,
    InvalidHandle,
    NotDirectory,
    IsDirectory,
    DirectoryNotEmpty,
    WouldCycle,
    OffsetOverflow,
    Io,
}

/// The memory that was to be had is gone.
pub open spec fn exhausted(error: AddressSpaceError) -> bool {
    error is OutOfMemory || error is OutOfFrames || error is FrameAllocator
}

/// What a page table failure means.
pub open spec fn map_status(error: MapError) -> Status {
    match error {
        MapError::AlreadyMapped => Status::AlreadyMapped,
        MapError::OutOfFrames => Status::OutOfMemory,
        MapError::FrameAllocator => Status::OutOfMemory,
        MapError::AddressOverflow => Status::OutOfRange,
        _ => Status::InvalidAddress,
    }
}

/// What a page table failure means.
pub fn map_map_error(error: MapError) -> (status: Status)
    ensures
        status == map_status(error),
{
    match error {
        MapError::AlreadyMapped => Status::AlreadyMapped,
        MapError::OutOfFrames | MapError::FrameAllocator => Status::OutOfMemory,
        MapError::AddressOverflow => Status::OutOfRange,
        MapError::InvalidHhdmOffset
        | MapError::CorruptPageTable
        | MapError::ParentPermissionConflict
        | MapError::HugePageConflict => Status::InvalidAddress,
    }
}

/// What an address space failure means.
pub open spec fn address_space_status(error: AddressSpaceError) -> Status {
    match error {
        AddressSpaceError::AlreadyMapped(_) => Status::AlreadyMapped,
        AddressSpaceError::PermissionDenied { .. } => Status::AccessDenied,
        AddressSpaceError::PinnedMapping(_) => Status::ShouldWait,
        AddressSpaceError::InvalidRangeLength(_) => Status::InvalidArgument,
        AddressSpaceError::WritableExecutable => Status::InvalidArgument,
        AddressSpaceError::KernelPageTable(inner) => map_status(inner),
        _ => if exhausted(error) {
            Status::OutOfMemory
        } else {
            Status::InvalidAddress
        },
    }
}

/// What an address space failure means.
pub fn map_address_space_error(error: AddressSpaceError) -> (status: Status)
    ensures
        status == address_space_status(error),
{
    match error {
        AddressSpaceError::AlreadyMapped(_) => Status::AlreadyMapped,
        AddressSpaceError::PermissionDenied { .. } => Status::AccessDenied,
        AddressSpaceError::PinnedMapping(_) => Status::ShouldWait,
        AddressSpaceError::OutOfMemory
        | AddressSpaceError::OutOfFrames
        | AddressSpaceError::FrameAllocator => Status::OutOfMemory,
        AddressSpaceError::InvalidRangeLength(_) | AddressSpaceError::WritableExecutable => {
            Status::InvalidArgument
        },
        AddressSpaceError::KernelPageTable(inner) => map_map_error(inner),
        AddressSpaceError::AddressOverflow
        | AddressSpaceError::InvalidHhdmOffset
        | AddressSpaceError::NonCanonicalAddress(_)
        | AddressSpaceError::HigherHalfAddress(_)
        | AddressSpaceError::ZeroPage
        | AddressSpaceError::UnalignedAddress(_)
        | AddressSpaceError::NotMapped(_)
        | AddressSpaceError::CorruptPageTable
        | AddressSpaceError::HugePageConflict
        | AddressSpaceError::FrameAlreadyOwned(_)
        | AddressSpaceError::DuplicateSharedAlias(_)
        | AddressSpaceError::MappedFrameNotOwned(_)
        | AddressSpaceError::UntrackedMapping(_)
        | AddressSpaceError::ActiveAddressSpaceRequired
        | AddressSpaceError::UserCopyFault
        | AddressSpaceError::ActiveKernelPageTableRequired
        | AddressSpaceError::UserAccessibleKernelP4Entry(_) => Status::InvalidAddress,
    }
}

/// What a mapping failure means.
pub open spec fn mapping_status(error: SharedMappingError) -> Status {
    match error {
        SharedMappingError::Ipc(status) => status,
        SharedMappingError::InvalidProtection(_) => Status::InvalidArgument,
        SharedMappingError::UnsupportedFlags(_) => Status::InvalidArgument,
        SharedMappingError::UnalignedOffset(_) => Status::InvalidArgument,
        SharedMappingError::ZeroLength => Status::InvalidArgument,
        SharedMappingError::RangeOverflow => Status::OutOfRange,
        SharedMappingError::RangeOutsideObject => Status::OutOfRange,
        SharedMappingError::OutOfMemory => Status::OutOfMemory,
        SharedMappingError::NoAddressSpace => Status::OutOfMemory,
        SharedMappingError::Io => Status::Io,
        SharedMappingError::ResourceLimit => Status::ResourceLimit,
        SharedMappingError::AlreadyMapped(_) => Status::AlreadyMapped,
        SharedMappingError::AddressSpace(inner) => address_space_status(inner),
        SharedMappingError::RollbackFailed { mapping_error, .. } => address_space_status(
            mapping_error,
        ),
        _ => Status::InvalidAddress,
    }
}

/// What a mapping failure means.
pub fn map_shared_mapping_error(error: SharedMappingError) -> (status: Status)
    ensures
        status == mapping_status(error),
{
    match error {
        SharedMappingError::Ipc(status) => status,
        SharedMappingError::InvalidProtection(_)
        | SharedMappingError::UnsupportedFlags(_)
        | SharedMappingError::UnalignedOffset(_)
        | SharedMappingError::ZeroLength => Status::InvalidArgument,
        SharedMappingError::RangeOverflow | SharedMappingError::RangeOutsideObject => {
            Status::OutOfRange
        },
        SharedMappingError::OutOfMemory | SharedMappingError::NoAddressSpace => Status::OutOfMemory,
        SharedMappingError::Io => Status::Io,
        SharedMappingError::ResourceLimit => Status::ResourceLimit,
        SharedMappingError::AlreadyMapped(_) => Status::AlreadyMapped,
        SharedMappingError::AddressSpace(inner) => map_address_space_error(inner),
        SharedMappingError::RollbackFailed { mapping_error, rollback_error: _ } => {
            map_address_space_error(mapping_error)
        },
        SharedMappingError::InvalidBackingLength
        | SharedMappingError::InvalidPhysicalAddress(_)
        | SharedMappingError::PhysicalAddressNotPageAligned(_)
        | SharedMappingError::UnalignedFixedAddress(_)
        | SharedMappingError::InvalidFixedAddress(_)
        | SharedMappingError::ExactMappingNotFound => Status::InvalidAddress,
    }
}

/// What a failure to make a thread means.
pub fn map_thread_create_error(error: ThreadCreateError) -> (status: Status)
    ensures
        status == (match error {
            ThreadCreateError::InvalidEntry => Status::InvalidArgument,
            ThreadCreateError::InvalidStack => Status::InvalidArgument,
            ThreadCreateError::InvalidTls => Status::InvalidArgument,
            ThreadCreateError::ResourceLimit => Status::ResourceLimit,
            ThreadCreateError::OutOfMemory => Status::OutOfMemory,
            ThreadCreateError::AddressSpace(inner) => if inner is OutOfMemory
                || inner is OutOfFrames {
                Status::OutOfMemory
            } else {
                Status::InvalidAddress
            },
            ThreadCreateError::RollbackFailed => Status::InvalidAddress,
        }),
{
    match error {
        ThreadCreateError::InvalidEntry
        | ThreadCreateError::InvalidStack
        | ThreadCreateError::InvalidTls => Status::InvalidArgument,
        ThreadCreateError::ResourceLimit => Status::ResourceLimit,
        ThreadCreateError::OutOfMemory => Status::OutOfMemory,
        ThreadCreateError::AddressSpace(AddressSpaceError::OutOfMemory)
        | ThreadCreateError::AddressSpace(AddressSpaceError::OutOfFrames) => Status::OutOfMemory,
        ThreadCreateError::AddressSpace(_) | ThreadCreateError::RollbackFailed => {
            Status::InvalidAddress
        },
    }
}

/// What a failure to make a process means.
pub fn map_process_create_error(error: ProcessCreateError) -> (status: Status)
    ensures
        status == (match error {
            ProcessCreateError::MemoryPolicy => Status::ResourceLimit,
            ProcessCreateError::ResourceLimit => Status::ResourceLimit,
            ProcessCreateError::OutOfMemory => Status::OutOfMemory,
            ProcessCreateError::AddressSpace(inner) => if exhausted(inner) {
                Status::OutOfMemory
            } else {
                Status::InvalidArgument
            },
            ProcessCreateError::StackPage { error: inner } => if exhausted(inner) {
                Status::OutOfMemory
            } else {
                Status::InvalidArgument
            },
            ProcessCreateError::ElfPage(
                ElfPageLoadError::AddressSpace { address: _, error: inner },
            ) => if exhausted(inner) {
                Status::OutOfMemory
            } else {
                Status::InvalidArgument
            },
            _ => Status::InvalidArgument,
        }),
{
    match error {
        ProcessCreateError::MemoryPolicy | ProcessCreateError::ResourceLimit => {
            Status::ResourceLimit
        },
        ProcessCreateError::OutOfMemory => Status::OutOfMemory,
        ProcessCreateError::AddressSpace(inner) => out_of_memory_or_invalid(inner),
        ProcessCreateError::StackPage { error: inner } => out_of_memory_or_invalid(inner),
        ProcessCreateError::ElfPage(
            ElfPageLoadError::AddressSpace { address: _, error: inner },
        ) => {
            out_of_memory_or_invalid(inner)
        },
        ProcessCreateError::Elf
        | ProcessCreateError::ElfPage(ElfPageLoadError::Other)
        | ProcessCreateError::StackCollision
        | ProcessCreateError::EntryNotExecutable(_)
        | ProcessCreateError::StackNotWritable(_) => Status::InvalidArgument,
    }
}

/// Out of memory, or else an invalid executable.
fn out_of_memory_or_invalid(error: AddressSpaceError) -> (status: Status)
    ensures
        status == (if exhausted(error) {
            Status::OutOfMemory
        } else {
            Status::InvalidArgument
        }),
{
    match error {
        AddressSpaceError::OutOfMemory
        | AddressSpaceError::OutOfFrames
        | AddressSpaceError::FrameAllocator => Status::OutOfMemory,
        _ => Status::InvalidArgument,
    }
}

/// What a refused request means.
pub open spec fn request_status(error: RequestError) -> Status {
    match error {
        RequestError::OutOfMemory => Status::OutOfMemory,
        RequestError::Quiescing => Status::ShouldWait,
        RequestError::CompletionQueueFull => Status::ShouldWait,
        RequestError::ReleaseNotDispatched => Status::ShouldWait,
        RequestError::EmptyBatch => Status::InvalidArgument,
        RequestError::InvalidLimits => Status::InvalidArgument,
        RequestError::InvalidState => Status::InvalidArgument,
        RequestError::OutputTooSmall => Status::BufferTooSmall,
        RequestError::InvalidRequest => Status::InvalidHandle,
        _ => Status::ResourceLimit,
    }
}

/// What a refused request means.
pub fn map_request_error(error: RequestError) -> (status: Status)
    ensures
        status == request_status(error),
{
    match error {
        RequestError::OutOfMemory => Status::OutOfMemory,
        RequestError::Quiescing | RequestError::CompletionQueueFull => Status::ShouldWait,
        RequestError::EmptyBatch | RequestError::InvalidLimits | RequestError::InvalidState => {
            Status::InvalidArgument
        },
        RequestError::BatchTooLarge
        | RequestError::SystemFull
        | RequestError::OwnerLimit
        | RequestError::TargetLimit
        | RequestError::CopiedBytesLimit
        | RequestError::PinnedPagesLimit
        | RequestError::SharedBytesLimit => Status::ResourceLimit,
        RequestError::OutputTooSmall => Status::BufferTooSmall,
        RequestError::InvalidRequest => Status::InvalidHandle,
        RequestError::ReleaseNotDispatched => Status::ShouldWait,
    }
}

/// What a refusal by the broker means.
pub fn map_broker_error(error: BrokerError) -> (status: Status)
    ensures
        status == (match error {
            BrokerError::Runtime(inner) => request_status(inner),
            BrokerError::Control(inner) => inner,
            BrokerError::OutOfMemory => Status::OutOfMemory,
            BrokerError::TooManyBuffers => Status::ResourceLimit,
            BrokerError::ResourceOverflow => Status::OutOfRange,
            BrokerError::InvalidRequest => Status::InvalidHandle,
            BrokerError::ReleaseNotDispatched => Status::ShouldWait,
            _ => Status::InvalidArgument,
        }),
{
    match error {
        BrokerError::Runtime(inner) => map_request_error(inner),
        BrokerError::Control(inner) => inner,
        BrokerError::OutOfMemory => Status::OutOfMemory,
        BrokerError::TooManyBuffers => Status::ResourceLimit,
        BrokerError::ResourceOverflow => Status::OutOfRange,
        BrokerError::InvalidDeadline | BrokerError::PinnedPageOwnerMismatch => {
            Status::InvalidArgument
        },
        BrokerError::InvalidRequest => Status::InvalidHandle,
        BrokerError::ReleaseNotDispatched => Status::ShouldWait,
        BrokerError::ResourcesAlreadyTaken | BrokerError::ActionMismatch => Status::InvalidArgument,
    }
}

/// What a refusal by the file system means.
pub open spec fn fs_status(error: FsError) -> Status {
    match error {
        FsError::InvalidName => Status::InvalidArgument,
        FsError::TraversalTooDeep => Status::OutOfRange,
        FsError::AlreadyExists => Status::AlreadyExists,
        FsError::NotFound => Status::NotFound,
        FsError::NoSpace => Status::OutOfMemory,
        FsError::InvalidHandle => Status::InvalidHandle,
        FsError::NotDirectory => Status::NotDirectory,
        FsError::IsDirectory => Status::IsDirectory,
        FsError::DirectoryNotEmpty => Status::DirectoryNotEmpty,
        FsError::WouldCycle => Status::InvalidArgument,
        FsError::OffsetOverflow => Status::OutOfRange,
        FsError::Io => Status::Io,
    }
}

/// What a refusal by the file system means.
pub fn map_fs_error(error: FsError) -> (status: Status)
    ensures
        status == fs_status(error),
{
    match error {
        FsError::InvalidName => Status::InvalidArgument,
        FsError::TraversalTooDeep => Status::OutOfRange,
        FsError::AlreadyExists => Status::AlreadyExists,
        FsError::NotFound => Status::NotFound,
        FsError::NoSpace => Status::OutOfMemory,
        FsError::InvalidHandle => Status::InvalidHandle,
        FsError::NotDirectory => Status::NotDirectory,
        FsError::IsDirectory => Status::IsDirectory,
        FsError::DirectoryNotEmpty => Status::DirectoryNotEmpty,
        FsError::WouldCycle => Status::InvalidArgument,
        FsError::OffsetOverflow => Status::OutOfRange,
        FsError::Io => Status::Io,
    }
}

} // verus!
