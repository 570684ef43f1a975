use std::collections::HashMap;

use ginkgo_kernel::syscall::abi::{
    return_register,
    Abi, BufferBits, ClassNumbers, FaultNumbers, Handle, KernelHeapStats, KindNumbers, Limits,
    ModeNumbers, ObjectType, OpenBits, OperationNumbers, ProtectionBits, RequestBufferKind,
    RequestCompletionMode, RequestOperation, RightBits, Sizes, StateNumbers, Status, StatusCodes,
    ThreadStateNumbers, Versions, DEBUG_WRITE_MAX_BYTES,
};
use ginkgo_kernel::syscall::application::{
    parse_application_data_create_args, ApplicationDataCreateRequest,
    APPLICATION_DATA_CREATE_ARGS_SIZE,
};
use ginkgo_kernel::syscall::blocked::BlockedPoll;
use ginkgo_kernel::syscall::dispatch::{SyscallContext, SyscallOutcome, SyscallRegisters};
use ginkgo_kernel::syscall::errors::{
    map_address_space_error, map_broker_error, map_fs_error, map_process_create_error,
    map_request_error, map_shared_mapping_error, AddressSpaceError, BrokerError, ElfPageLoadError,
    FsError, ProcessCreateError, RequestError, SharedMappingError,
};
use ginkgo_kernel::syscall::file_io::prepare_filesystem_open_broker_request;
use ginkgo_kernel::syscall::files::DirectoryAnchor;
use ginkgo_kernel::syscall::kernel::{
    BlockedKind, Call, EndedJoin, EndedRequest, Kernel, PendingWaitMany, PinnedOutput, PowerFacts,
    PreparedBrokerRequest, PreparedRequestBuffer, PreparedRequestTarget, ProcessFacts,
    ProcessLimits, ReceiveError, ReceivedMessage, SchedulingFacts, Session, ThreadFacts,
    ThreadState, WaitDeadline, WaitManyCompletion,
};
use ginkgo_kernel::syscall::memory::MemoryFacts;
use ginkgo_kernel::syscall::number::{
    decode_syscall_number, missing_memory_failure_counter, FailureCounts, MemoryFailureCounter,
    SyscallNumber,
};
use ginkgo_kernel::syscall::paths::{
    child_directory_rights, encode_filesystem_metadata, filesystem_open_required_rights,
    is_protected_system_path, parse_filesystem_open_args, parse_filesystem_path_args,
    parse_filesystem_rename_args, timestamp_ns, validate_filesystem_path, DirectoryEntry,
    FilesystemInfo, NodeKind, NodeMetadata, ParsedFilesystemRenameArgs, PathArgs, Timestamp,
    FILESYSTEM_CREATE_DIRECTORY_ARGS_SIZE, FILESYSTEM_OPEN_ARGS_SIZE, FILESYSTEM_RENAME_ARGS_SIZE,
};
use ginkgo_kernel::syscall::request_wire::{
    blocked_request_return_status, completed_request_output, directory_request_target,
    filesystem_request_target, parse_request_buffer, parse_request_deadline,
    parse_request_submit_args, pending_request_output, preflight_request_resources,
    request_buffer_rights, validate_operation_buffers, validate_public_request_operation, Node,
    RequestBuffer, RequestInfo, RequestLimits, RequestSubmitArgs, RequestSubmitOutput,
    REQUEST_BUFFER_SIZE, REQUEST_SUBMIT_ARGS_SIZE, REQUEST_TARGET_FILESYSTEM_ROOT,
};
use ginkgo_kernel::syscall::wait::resolve_wait_completion;
use ginkgo_kernel::syscall::wire::{
    checked_array_bytes, checked_debug_length, encode_wait_items, page_rounded_shared_backing_bytes,
    parse_handle_disposition, parse_process_memory_policy, validate_memory_info_query,
    validate_virtual_query, HandleOperation, HandleOperationDisposition, WaitItem,
    HANDLE_DISPOSITION_SIZE, PROCESS_MEMORY_POLICY_SIZE, RECEIVED_HANDLE_SIZE, WAIT_ITEM_SIZE,
};
use ginkgo_kernel::thread_scheduler::policy::SchedulingClass;

const READ: u32 = 1;
const WRITE: u32 = 2;
const EXECUTE: u32 = 4;
const DUPLICATE: u32 = 8;
const TRANSFER: u32 = 16;
const WAIT: u32 = 32;
const MAP: u32 = 64;

fn abi() -> Abi {
    Abi {
        status: StatusCodes {
            ok: 0,
            access_denied: -1,
            already_exists: -2,
            already_mapped: -3,
            buffer_too_small: -4,
            directory_not_empty: -5,
            end_of_directory: -6,
            invalid_address: -7,
            invalid_argument: -8,
            invalid_handle: -9,
            invalid_message: -10,
            invalid_rights: -11,
            io: -12,
            is_directory: -13,
            message_too_large: -14,
            not_directory: -15,
            not_found: -16,
            out_of_memory: -17,
            out_of_range: -18,
            resource_limit: -19,
            should_wait: -20,
            timed_out: -21,
            unknown_syscall: -22,
            wrong_object_type: -23,
        },
        invalid_handle: Handle(0),
        deadline_infinite: i64::MAX,
        rights: RightBits {
            read: READ,
            write: WRITE,
            execute: EXECUTE,
            duplicate: DUPLICATE,
            transfer: TRANSFER,
            all: 0x7f,
        },
        signals: 7,
        open_flags: OpenBits {
            read: 1,
            write: 2,
            execute: 4,
            create: 8,
            truncate: 16,
            all: 31,
        },
        rename_replace: 1,
        rename_flags: 1,
        protection: ProtectionBits {
            write: 2,
            execute: 4,
            all: 7,
        },
        map_flags: 1,
        request_allow_partial: 1,
        request_flags: 1,
        buffer_flags: BufferBits {
            read: 1,
            write: 2,
            all: 3,
        },
        power_flags: 1,
        operations: OperationNumbers {
            nop: 1,
            filesystem_open: 2,
            filesystem_read: 3,
            filesystem_write: 4,
            filesystem_truncate: 5,
            filesystem_namespace: 6,
            filesystem_sync: 7,
            audio_write: 8,
            synthetic: 9,
        },
        modes: ModeNumbers {
            inline_only: 1,
            handle: 2,
            block: 3,
        },
        buffer_kinds: KindNumbers {
            copy: 1,
            pinned: 2,
            shared_memory: 3,
        },
        request_states: StateNumbers {
            pending: 1,
            completed: 2,
            timed_out: 3,
            canceled: 4,
            failed: 5,
            owner_terminated: 6,
        },
        thread_states: ThreadStateNumbers {
            running: 1,
            blocked: 2,
            exited: 3,
            faulted: 4,
            terminated: 5,
        },
        faults: FaultNumbers {
            page_fault: 1,
            general_protection: 2,
            invalid_opcode: 3,
            invalid_user_context: 4,
            resource_limit: 5,
            out_of_memory: 6,
            other: 7,
        },
        classes: ClassNumbers {
            critical: 1,
            audio: 2,
            interactive: 3,
            normal: 4,
            background: 5,
        },
        versions: Versions {
            thread_create_args: 1,
            thread_info: 1,
            thread_scheduling_info: 1,
            request_submit_args: 1,
            request_submit_batch_args: 1,
            request_info: 1,
            request_diagnostics: 1,
            process_memory_policy: 1,
            memory_info: 2,
            memory_info_first: 1,
            virtual_area_info: 1,
        },
        sizes: Sizes {
            request_info: 64,
            request_diagnostics: 64,
            memory_info: 400,
            memory_info_first: 200,
            virtual_area_info: 64,
            directory_entry: 280,
        },
        limits: Limits {
            channel_bytes: 4096,
            channel_handles: 16,
            filesystem_name: 252,
            traversal_depth: 32,
            filesystem_read_bytes: 65536,
            startup_bytes: 4096,
            startup_handles: 16,
            random_bytes: 256,
            request_batch: 16,
            request_buffers: 8,
            app_id_bytes: 64,
        },
    }
}

/// A kernel that answers from tables and remembers what it was asked.
#[derive(Default)]
struct Mock {
    asked: Vec<Call>,
    refused: Vec<(Call, Status)>,
    memory: HashMap<u64, Vec<u8>>,
    written: Vec<(u64, Vec<u8>)>,
    debug: Vec<u8>,
    types: HashMap<u32, ObjectType>,
    type_numbers: HashMap<u32, u32>,
    rights: HashMap<u32, u32>,
    directories: Vec<(u32, Vec<u8>)>,
    entries: Vec<DirectoryEntry>,
    submitted: Vec<PreparedBrokerRequest>,
    blocked: Option<BlockedKind>,
    wait: Option<PendingWaitMany>,
    ready: Option<usize>,
    ended_request: Option<EndedRequest>,
    ended_join: Option<EndedJoin>,
    request_info: Option<RequestInfo>,
    counts: (u64, u64),
    new_handles: Vec<Handle>,
}

impl Mock {
    fn ask(&mut self, call: Call) -> Result<(), Status> {
        self.asked.push(call);
        match self.refused.iter().find(|(refused, _)| *refused == call) {
            Some((_, status)) => Err(*status),
            None => Ok(()),
        }
    }

    fn holds(&self, handle: Handle, rights: u32) -> Result<(), Status> {
        match self.rights.get(&handle.0) {
            None => Err(Status::InvalidHandle),
            Some(held) if held & rights == rights => Ok(()),
            Some(_) => Err(Status::AccessDenied),
        }
    }

    fn directory(&mut self, parent: Node, name: &[u8]) -> Option<Node> {
        let at = self
            .directories
            .iter()
            .position(|(known, known_name)| *known == parent.node_id && known_name == name)?;
        Some(Node {
            node_id: at as u32 + 1,
            generation: 1,
        })
    }
}

impl Kernel for Mock {
    fn done(&mut self, call: Call) -> Result<(), Status> {
        self.ask(call)?;
        match call {
            Call::Root { handle, rights } => self.holds(handle, rights),
            Call::RecordQuotaFailure => {
                self.counts.0 += 1;
                Ok(())
            }
            _ => Ok(()),
        }
    }

    fn handle(&mut self, call: Call) -> Result<Handle, Status> {
        self.ask(call)?;
        Ok(Handle(77))
    }

    fn handles(&mut self, call: Call) -> Result<(Handle, Handle), Status> {
        self.ask(call)?;
        Ok((Handle(77), Handle(78)))
    }

    fn number(&mut self, call: Call) -> Result<u64, Status> {
        self.ask(call)?;
        Ok(match call {
            Call::Pin { address, .. } => address + 1,
            Call::FileLength { .. } => 5,
            Call::AudioAvailable => 8,
            _ => 0x9000,
        })
    }

    fn bits(&mut self, call: Call) -> Result<u32, Status> {
        self.ask(call)?;
        match call {
            Call::HandleRights { handle } => self
                .rights
                .get(&handle.0)
                .copied()
                .ok_or(Status::InvalidHandle),
            Call::ObjectType { handle } => self
                .type_numbers
                .get(&handle.0)
                .copied()
                .ok_or(Status::InvalidHandle),
            _ => Ok(7),
        }
    }

    fn flag(&mut self, call: Call) -> Result<bool, Status> {
        self.ask(call)?;
        Ok(true)
    }

    fn object_type(&mut self, handle: Handle) -> Result<ObjectType, Status> {
        self.ask(Call::ObjectType { handle })?;
        self.types
            .get(&handle.0)
            .copied()
            .ok_or(Status::InvalidHandle)
    }

    fn node(&mut self, call: Call) -> Result<Node, Status> {
        self.ask(call)?;
        match call {
            Call::RootDirectory => Ok(Node {
                node_id: 0,
                generation: 1,
            }),
            Call::File { handle, rights } | Call::Directory { handle, rights } => {
                self.holds(handle, rights)?;
                Ok(Node {
                    node_id: handle.0,
                    generation: 2,
                })
            }
            _ => Err(Status::NotFound),
        }
    }

    fn bytes(&mut self, call: Call) -> Result<Vec<u8>, Status> {
        self.ask(call)?;
        match call {
            Call::CopyIn { address, length } => match self.memory.get(&address) {
                Some(bytes) => Ok(bytes[..length].to_vec()),
                None if length == 0 => Ok(Vec::new()),
                None => Err(Status::InvalidAddress),
            },
            Call::ReadFile { length, .. } | Call::RandomBytes { length } => Ok(vec![0x5a; length]),
            Call::ApplicationDataScope { .. } => Ok(b"example.editor".to_vec()),
            _ => Ok(vec![1, 2, 3]),
        }
    }

    fn write(&mut self, call: Call, bytes: &[u8]) -> Result<(), Status> {
        self.ask(call)?;
        match call {
            Call::CopyOut { address } => self.written.push((address, bytes.to_vec())),
            Call::DebugOutput => self.debug.extend_from_slice(bytes),
            _ => {}
        }
        Ok(())
    }

    fn write_number(&mut self, call: Call, bytes: &[u8]) -> Result<u64, Status> {
        self.ask(call)?;
        Ok(bytes.len() as u64)
    }

    fn write_handle(&mut self, call: Call, _bytes: &[u8]) -> Result<Handle, Status> {
        self.ask(call)?;
        Ok(Handle(79))
    }

    fn path_node(&mut self, call: Call, path: &[u8]) -> Result<Node, Status> {
        self.ask(call)?;
        match call {
            Call::OpenDirectoryAt { directory } => {
                self.directory(directory, path).ok_or(Status::NotFound)
            }
            Call::CreateDirectoryAt { directory } => {
                self.directories.push((directory.node_id, path.to_vec()));
                Ok(self.directory(directory, path).unwrap())
            }
            Call::OpenFileAt { .. } => Err(Status::NotFound),
            _ => Ok(Node {
                node_id: 42,
                generation: 1,
            }),
        }
    }

    fn rename(
        &mut self,
        _source: Node,
        _source_path: &[u8],
        _destination: Node,
        _destination_path: &[u8],
        _replace: bool,
    ) -> Result<(), Status> {
        Ok(())
    }

    fn list_directory(&mut self, _directory: Node) -> Result<Vec<DirectoryEntry>, Status> {
        Ok(std::mem::take(&mut self.entries))
    }

    fn metadata(&mut self, call: Call) -> Result<NodeMetadata, Status> {
        self.ask(call)?;
        Err(Status::Io)
    }

    fn filesystem_info(&mut self) -> Result<FilesystemInfo, Status> {
        Ok(FilesystemInfo {
            capacity_bytes: 1000,
            free_bytes: Some(10),
            block_size: 4096,
        })
    }

    fn send(
        &mut self,
        _channel: Handle,
        _bytes: &[u8],
        _dispositions: &[HandleOperationDisposition],
    ) -> Result<(), Status> {
        Ok(())
    }

    fn receive(
        &mut self,
        _channel: Handle,
        _byte_capacity: usize,
        _handle_capacity: usize,
    ) -> Result<ReceivedMessage, ReceiveError> {
        Err(ReceiveError::Failed(Status::ShouldWait))
    }

    fn poll(&mut self, items: &[WaitItem]) -> Result<(Option<usize>, Vec<WaitItem>), Status> {
        Ok((self.ready, items.to_vec()))
    }

    fn block_wait(&mut self, _thread: u64, wait: PendingWaitMany) {
        self.wait = Some(wait);
    }

    fn take_wait(&mut self, _thread: u64) -> PendingWaitMany {
        self.wait.take().unwrap()
    }

    fn thread(&mut self, _thread: u64) -> Result<ThreadFacts, Status> {
        Ok(ThreadFacts {
            state: ThreadState::Exited(-2),
            cpu_time_ns: 5,
            preemption_count: 6,
        })
    }

    fn scheduling(&mut self, _thread: u64) -> Result<SchedulingFacts, Status> {
        Ok(SchedulingFacts {
            base_class: SchedulingClass::Normal,
            effective_class: SchedulingClass::Audio,
            state: ThreadState::Ready,
            budget_remaining_ns: 1,
            cpu_time_ns: 2,
            runnable_wait_ns: 3,
            wake_latency_ns: 4,
            maximum_wake_latency_ns: 5,
            wake_latency_samples: 6,
            wake_latency_target_misses: 7,
            context_switches: 8,
            deadline_misses: 9,
            throttling_events: 10,
            throttled_time_ns: 11,
        })
    }

    fn process_info(&mut self, _handle: Handle) -> Result<ProcessFacts, Status> {
        Ok(ProcessFacts {
            state: 2,
            cause: 1,
            exit_code: -1,
            fault: 0,
            fault_code: 0,
            fault_address: 0,
        })
    }

    fn power_info(&mut self, _handle: Handle) -> Result<PowerFacts, Status> {
        Err(Status::InvalidHandle)
    }

    fn limits(&mut self) -> RequestLimits {
        limits()
    }

    fn check_resources(&mut self, _request: &PreparedBrokerRequest) -> Result<(), Status> {
        Ok(())
    }

    fn submit(&mut self, request: PreparedBrokerRequest, _now_ns: u64) -> Result<u64, Status> {
        self.submitted.push(request);
        match self
            .refused
            .iter()
            .find(|(call, _)| matches!(call, Call::InstallRequest { request: 0 }))
        {
            Some((_, status)) => Err(*status),
            None => Ok(self.submitted.len() as u64),
        }
    }

    fn submit_batch(
        &mut self,
        requests: Vec<PreparedBrokerRequest>,
        _now_ns: u64,
    ) -> Result<Vec<u64>, Status> {
        let ids = (1..=requests.len() as u64).collect();
        self.submitted.extend(requests);
        Ok(ids)
    }

    fn request_info(&mut self, _request: u64) -> Option<RequestInfo> {
        self.request_info
    }

    fn blocked_kind(&mut self, _thread: u64) -> Option<BlockedKind> {
        self.blocked
    }

    fn ended_request(&mut self, _thread: u64) -> Result<EndedRequest, Status> {
        self.ended_request.ok_or(Status::ShouldWait)
    }

    fn ended_join(&mut self, _thread: u64) -> Result<EndedJoin, Status> {
        self.ended_join.ok_or(Status::ShouldWait)
    }

    fn child_limits(&mut self, requested: Option<ProcessLimits>) -> Option<ProcessLimits> {
        Some(requested.unwrap_or(ProcessLimits {
            private_pages: 1,
            shared_memory_bytes: 1,
            mapped_shared_bytes: 1,
            reserved_virtual_bytes: 1,
            vma_count: 1,
            executable_image_pages: 1,
            executable_source_bytes: 100,
            channel_traffic_bytes: 1,
            cpu_quantum_ns: 1,
        }))
    }

    fn prepare_startup(
        &mut self,
        _args: &[u8],
        _config: &[u8],
        _handle_count: usize,
    ) -> Result<(), Status> {
        Ok(())
    }

    fn make_child(&mut self, _image: &[u8], _limits: ProcessLimits) -> Result<(), Status> {
        Ok(())
    }

    fn install_startup(&mut self, handles: &[Handle]) -> Result<(), Status> {
        self.new_handles = handles.to_vec();
        Ok(())
    }

    fn transfer_handles(
        &mut self,
        dispositions: &[HandleOperationDisposition],
    ) -> Result<Vec<Handle>, Status> {
        Ok(dispositions
            .iter()
            .map(|disposition| Handle(disposition.handle.0 + 100))
            .collect())
    }

    fn failure_counts(&mut self) -> FailureCounts {
        FailureCounts {
            quota_failures: self.counts.0,
            oom_failures: self.counts.1,
        }
    }

    fn memory_facts(&mut self) -> MemoryFacts {
        unreachable!()
    }
}

fn limits() -> RequestLimits {
    RequestLimits {
        copied_bytes_per_request: 1 << 16,
        pinned_pages_per_request: 64,
        shared_bytes_per_request: 1 << 20,
    }
}

fn session(kernel: Mock) -> Session<Mock> {
    Session::new(kernel, abi())
}

fn put_u32(bytes: &mut [u8], offset: usize, value: u32) {
    bytes[offset..offset + 4].copy_from_slice(&value.to_le_bytes());
}

fn put_u64(bytes: &mut [u8], offset: usize, value: u64) {
    bytes[offset..offset + 8].copy_from_slice(&value.to_le_bytes());
}

fn read_u32(bytes: &[u8], offset: usize) -> u32 {
    u32::from_le_bytes(bytes[offset..offset + 4].try_into().unwrap())
}

fn read_u64(bytes: &[u8], offset: usize) -> u64 {
    u64::from_le_bytes(bytes[offset..offset + 8].try_into().unwrap())
}

fn request_args(
    operation: u32,
    completion_mode: u32,
) -> ([u8; REQUEST_SUBMIT_ARGS_SIZE], RequestSubmitArgs) {
    let args = RequestSubmitArgs {
        target: abi().invalid_handle,
        operation,
        completion_mode,
        flags: 0,
        buffers_address: 0,
        buffer_count: 0,
        operation_argument: 0,
        deadline_ns: abi().deadline_infinite,
        user_data: 0,
    };
    let mut raw = [0; REQUEST_SUBMIT_ARGS_SIZE];
    put_u32(&mut raw, 0, abi().versions.request_submit_args);
    put_u32(&mut raw, 4, REQUEST_SUBMIT_ARGS_SIZE as u32);
    put_u32(&mut raw, 8, args.target.0);
    put_u32(&mut raw, 12, operation);
    put_u32(&mut raw, 16, completion_mode);
    put_u64(&mut raw, 48, args.deadline_ns as u64);
    (raw, args)
}

fn request_buffer(kind: RequestBufferKind, flags: u32) -> RequestBuffer {
    let shared = kind == RequestBufferKind::SharedMemory;
    RequestBuffer {
        kind,
        flags,
        address: if shared { 0 } else { 0x4000 },
        length: 16,
        handle: if shared {
            Handle(1 << 12)
        } else {
            abi().invalid_handle
        },
        offset: 0,
    }
}

fn buffer_bytes(buffer: RequestBuffer) -> [u8; REQUEST_BUFFER_SIZE] {
    let mut raw = [0; REQUEST_BUFFER_SIZE];
    let kind = match buffer.kind {
        RequestBufferKind::Copy => abi().buffer_kinds.copy,
        RequestBufferKind::Pinned => abi().buffer_kinds.pinned,
        RequestBufferKind::SharedMemory => abi().buffer_kinds.shared_memory,
    };
    put_u32(&mut raw, 0, kind);
    put_u32(&mut raw, 4, buffer.flags);
    put_u64(&mut raw, 8, buffer.address);
    put_u64(&mut raw, 16, buffer.length);
    put_u32(&mut raw, 24, buffer.handle.0);
    put_u64(&mut raw, 32, buffer.offset);
    raw
}

fn filesystem_open_args(flags: u32, reserved: u32) -> [u8; FILESYSTEM_OPEN_ARGS_SIZE] {
    let mut raw = [0u8; FILESYSTEM_OPEN_ARGS_SIZE];
    put_u64(&mut raw, 0, 0x4000);
    put_u64(&mut raw, 8, 12);
    put_u32(&mut raw, 16, flags);
    put_u32(&mut raw, 20, reserved);
    raw
}

fn disposition_bytes(
    handle: u32,
    operation: u32,
    rights: u32,
    reserved: u32,
) -> [u8; HANDLE_DISPOSITION_SIZE] {
    let mut bytes = [0_u8; HANDLE_DISPOSITION_SIZE];
    put_u32(&mut bytes, 0, handle);
    put_u32(&mut bytes, 4, operation);
    put_u32(&mut bytes, 8, rights);
    put_u32(&mut bytes, 12, reserved);
    bytes
}

#[test]
fn syscall_number_decode_is_total_for_the_current_abi() {
    let expected = [
        SyscallNumber::ProcessYield,
        SyscallNumber::ProcessExit,
        SyscallNumber::HandleClose,
        SyscallNumber::HandleDuplicate,
        SyscallNumber::WaitMany,
        SyscallNumber::ChannelCreate,
        SyscallNumber::ChannelWrite,
        SyscallNumber::ChannelRead,
        SyscallNumber::SharedMemoryCreate,
        SyscallNumber::SharedMemoryGetSize,
        SyscallNumber::SharedMemoryMap,
        SyscallNumber::SharedMemoryUnmap,
        SyscallNumber::DebugWrite,
        SyscallNumber::FilesystemOpen,
        SyscallNumber::FilesystemRead,
        SyscallNumber::FilesystemWrite,
        SyscallNumber::FilesystemStat,
        SyscallNumber::FilesystemReadDirectory,
        SyscallNumber::FilesystemTruncate,
        SyscallNumber::FilesystemUnlink,
        SyscallNumber::AudioWrite,
        SyscallNumber::ClockGetMonotonic,
        SyscallNumber::RandomFill,
        SyscallNumber::ProcessCreate,
        SyscallNumber::ProcessGetInfo,
        SyscallNumber::ProcessTerminate,
        SyscallNumber::ApplicationGetDataDirectory,
        SyscallNumber::FilesystemOpenDirectory,
        SyscallNumber::FilesystemCreateDirectory,
        SyscallNumber::FilesystemRemoveDirectory,
        SyscallNumber::FilesystemRename,
        SyscallNumber::FilesystemSync,
        SyscallNumber::FilesystemGetInfo,
        SyscallNumber::FilesystemGetMetadata,
        SyscallNumber::FilesystemReadDirectory2,
        SyscallNumber::ApplicationDataCreate,
        SyscallNumber::SystemPowerRequest,
        SyscallNumber::SystemPowerCancel,
        SyscallNumber::SystemPowerGetInfo,
        SyscallNumber::AnonymousMap,
        SyscallNumber::AnonymousUnmap,
        SyscallNumber::AnonymousProtect,
        SyscallNumber::AnonymousReserve,
        SyscallNumber::AnonymousCommit,
        SyscallNumber::AnonymousDecommit,
        SyscallNumber::MemoryGetInfo,
        SyscallNumber::VirtualMapFile,
        SyscallNumber::VirtualCommit,
        SyscallNumber::VirtualDecommit,
        SyscallNumber::VirtualProtect,
        SyscallNumber::VirtualUnmap,
        SyscallNumber::ProcessCreate2,
        SyscallNumber::VirtualQuery,
        SyscallNumber::ThreadCreate,
        SyscallNumber::ThreadExit,
        SyscallNumber::ThreadYield,
        SyscallNumber::ThreadSleepUntil,
        SyscallNumber::ThreadWake,
        SyscallNumber::ThreadTerminate,
        SyscallNumber::ThreadGetInfo,
        SyscallNumber::ThreadJoin,
        SyscallNumber::ThreadDetach,
        SyscallNumber::ThreadGetCurrent,
        SyscallNumber::ThreadSetSchedulingClass,
        SyscallNumber::ThreadGetSchedulingInfo,
        SyscallNumber::ThreadSetSchedulingClassWithAuthority,
        SyscallNumber::RequestSubmit,
        SyscallNumber::RequestCancel,
        SyscallNumber::RequestGetInfo,
        SyscallNumber::RequestSubmitBatch,
        SyscallNumber::RequestGetDiagnostics,
    ];
    for number in expected {
        assert_eq!(decode_syscall_number(number.raw()), Some(number));
    }
    assert_eq!(
        decode_syscall_number(21),
        Some(SyscallNumber::ClockGetMonotonic)
    );
    assert_eq!(decode_syscall_number(22), Some(SyscallNumber::RandomFill));
    assert_eq!(
        decode_syscall_number(23),
        Some(SyscallNumber::ProcessCreate)
    );
    assert_eq!(
        decode_syscall_number(26),
        Some(SyscallNumber::ApplicationGetDataDirectory)
    );
    assert_eq!(
        decode_syscall_number(27),
        Some(SyscallNumber::FilesystemOpenDirectory)
    );
    assert_eq!(
        decode_syscall_number(34),
        Some(SyscallNumber::FilesystemReadDirectory2)
    );
    assert_eq!(
        decode_syscall_number(35),
        Some(SyscallNumber::ApplicationDataCreate)
    );
    assert_eq!(
        decode_syscall_number(38),
        Some(SyscallNumber::SystemPowerGetInfo)
    );
    assert_eq!(decode_syscall_number(39), Some(SyscallNumber::AnonymousMap));
    assert_eq!(
        decode_syscall_number(40),
        Some(SyscallNumber::AnonymousUnmap)
    );
    assert_eq!(
        decode_syscall_number(41),
        Some(SyscallNumber::AnonymousProtect)
    );
    assert_eq!(
        decode_syscall_number(42),
        Some(SyscallNumber::AnonymousReserve)
    );
    assert_eq!(
        decode_syscall_number(43),
        Some(SyscallNumber::AnonymousCommit)
    );
    assert_eq!(
        decode_syscall_number(44),
        Some(SyscallNumber::AnonymousDecommit)
    );
    assert_eq!(
        decode_syscall_number(45),
        Some(SyscallNumber::MemoryGetInfo)
    );
    assert_eq!(
        decode_syscall_number(46),
        Some(SyscallNumber::VirtualMapFile)
    );
    assert_eq!(
        decode_syscall_number(51),
        Some(SyscallNumber::ProcessCreate2)
    );
    assert_eq!(decode_syscall_number(52), Some(SyscallNumber::VirtualQuery));
    assert_eq!(
        decode_syscall_number(65),
        Some(SyscallNumber::ThreadSetSchedulingClassWithAuthority)
    );
    assert_eq!(
        decode_syscall_number(66),
        Some(SyscallNumber::RequestSubmit)
    );
    assert_eq!(
        decode_syscall_number(70),
        Some(SyscallNumber::RequestGetDiagnostics)
    );
    assert_eq!(decode_syscall_number(71), None);
    assert_eq!(decode_syscall_number(u64::MAX), None);
}

#[test]
fn filesystem_open_argument_and_rights_validation_matches_the_legacy_contract() {
    let read = abi().open_flags.read;
    let write = abi().open_flags.write;
    let execute = abi().open_flags.execute;
    let create = abi().open_flags.create;
    let truncate = abi().open_flags.truncate;

    for flags in [
        read,
        write,
        read | write,
        write | create,
        write | truncate,
        read | execute,
    ] {
        let parsed =
            parse_filesystem_open_args(&abi(), &filesystem_open_args(flags, 0)).unwrap();
        assert_eq!(parsed.path_address, 0x4000);
        assert_eq!(parsed.path_length, 12);
        assert_eq!(parsed.flags, flags);
    }
    for flags in [
        0,
        create,
        truncate,
        execute,
        read | write | execute,
        read | execute | create,
        read | execute | truncate,
    ] {
        assert_eq!(
            parse_filesystem_open_args(&abi(), &filesystem_open_args(flags, 0)),
            Err(Status::InvalidArgument)
        );
    }
    assert_eq!(
        parse_filesystem_open_args(&abi(), &filesystem_open_args(read, 1)),
        Err(Status::InvalidArgument)
    );
    assert_eq!(
        parse_filesystem_open_args(&abi(), &filesystem_open_args(1 << 31, 0)),
        Err(Status::InvalidArgument)
    );
    assert_eq!(
        parse_filesystem_open_args(&abi(), &filesystem_open_args(read, 0)[..23]),
        Err(Status::InvalidArgument)
    );

    assert_eq!(filesystem_open_required_rights(&abi(), read), READ);
    assert_eq!(
        filesystem_open_required_rights(&abi(), read | execute),
        READ | EXECUTE
    );
    assert_eq!(
        filesystem_open_required_rights(&abi(), write | create | truncate),
        READ | WRITE
    );
}

#[test]
fn public_request_submit_rejects_internal_filesystem_operations() {
    for operation in [
        RequestOperation::FilesystemOpen,
        RequestOperation::FilesystemTruncate,
        RequestOperation::FilesystemNamespace,
    ] {
        assert_eq!(
            validate_public_request_operation(operation),
            Err(Status::AccessDenied)
        );
        assert_eq!(
            validate_operation_buffers(&abi(), operation, 0, &[]),
            Err(Status::AccessDenied)
        );
    }
    for operation in [
        RequestOperation::Nop,
        RequestOperation::FilesystemRead,
        RequestOperation::FilesystemWrite,
        RequestOperation::FilesystemSync,
        RequestOperation::AudioWrite,
    ] {
        assert_eq!(validate_public_request_operation(operation), Ok(()));
    }
    assert_eq!(
        validate_public_request_operation(RequestOperation::Synthetic),
        Err(Status::AccessDenied)
    );
}

#[test]
fn request_argument_layout_rejects_version_size_and_reserved_changes() {
    let (valid, args) = request_args(abi().operations.nop, abi().modes.inline_only);
    assert_eq!(parse_request_submit_args(&abi(), &valid), Ok(args));

    let mut malformed = valid;
    put_u32(&mut malformed, 0, abi().versions.request_submit_args + 1);
    assert_eq!(
        parse_request_submit_args(&abi(), &malformed),
        Err(Status::InvalidArgument)
    );
    malformed = valid;
    put_u32(&mut malformed, 4, REQUEST_SUBMIT_ARGS_SIZE as u32 - 8);
    assert_eq!(
        parse_request_submit_args(&abi(), &malformed),
        Err(Status::InvalidArgument)
    );
    malformed = valid;
    put_u32(&mut malformed, 36, 1);
    assert_eq!(
        parse_request_submit_args(&abi(), &malformed),
        Err(Status::InvalidArgument)
    );
    assert_eq!(
        parse_request_submit_args(&abi(), &valid[..REQUEST_SUBMIT_ARGS_SIZE - 1]),
        Err(Status::InvalidArgument)
    );
}

#[test]
fn request_buffer_layout_rejects_unknown_empty_and_cross_kind_fields() {
    let (read, write) = (abi().buffer_flags.read, abi().buffer_flags.write);
    for kind in [
        RequestBufferKind::Copy,
        RequestBufferKind::Pinned,
        RequestBufferKind::SharedMemory,
    ] {
        let valid = request_buffer(kind, read);
        assert_eq!(parse_request_buffer(&abi(), &buffer_bytes(valid)), Ok(valid));
    }

    let mut malformed = buffer_bytes(request_buffer(RequestBufferKind::Copy, read));
    put_u32(&mut malformed, 0, 0);
    assert_eq!(
        parse_request_buffer(&abi(), &malformed),
        Err(Status::InvalidArgument)
    );
    malformed = buffer_bytes(request_buffer(RequestBufferKind::Copy, 1 << 31));
    assert_eq!(
        parse_request_buffer(&abi(), &malformed),
        Err(Status::InvalidArgument)
    );
    let mut empty = request_buffer(RequestBufferKind::Pinned, read);
    empty.length = 0;
    assert_eq!(
        parse_request_buffer(&abi(), &buffer_bytes(empty)),
        Err(Status::InvalidArgument)
    );
    let mut addressed = request_buffer(RequestBufferKind::SharedMemory, write);
    addressed.address = 0x8000;
    assert_eq!(
        parse_request_buffer(&abi(), &buffer_bytes(addressed)),
        Err(Status::InvalidArgument)
    );
    let mut handled = request_buffer(RequestBufferKind::Copy, write);
    handled.handle = Handle(1 << 12);
    assert_eq!(
        parse_request_buffer(&abi(), &buffer_bytes(handled)),
        Err(Status::InvalidArgument)
    );
}

#[test]
fn request_operation_layout_and_array_limits_are_bounded() {
    let (read, write) = (abi().buffer_flags.read, abi().buffer_flags.write);
    assert_eq!(
        validate_operation_buffers(&abi(), RequestOperation::Nop, 0, &[]),
        Ok(())
    );
    assert_eq!(
        validate_operation_buffers(
            &abi(),
            RequestOperation::Nop,
            0,
            &[request_buffer(RequestBufferKind::Copy, read)]
        ),
        Err(Status::InvalidArgument)
    );
    assert_eq!(
        validate_operation_buffers(
            &abi(),
            RequestOperation::FilesystemRead,
            0,
            &[request_buffer(RequestBufferKind::Copy, write)]
        ),
        Ok(())
    );
    assert_eq!(
        validate_operation_buffers(
            &abi(),
            RequestOperation::FilesystemRead,
            0,
            &[request_buffer(RequestBufferKind::Copy, read)]
        ),
        Err(Status::InvalidArgument)
    );
    let most_buffers = abi().limits.request_buffers as u64;
    assert_eq!(
        checked_array_bytes(
            most_buffers + 1,
            REQUEST_BUFFER_SIZE,
            most_buffers,
            Status::ResourceLimit
        ),
        Err(Status::ResourceLimit)
    );
    let most_requests = abi().limits.request_batch as u64;
    assert_eq!(
        checked_array_bytes(
            most_requests + 1,
            REQUEST_SUBMIT_ARGS_SIZE,
            most_requests,
            Status::ResourceLimit
        ),
        Err(Status::ResourceLimit)
    );

    let limits = limits();
    let mut oversized = request_buffer(RequestBufferKind::Copy, write);
    oversized.length = limits.copied_bytes_per_request as u64 + 1;
    assert_eq!(
        preflight_request_resources(&[oversized], limits),
        Err(Status::ResourceLimit)
    );

    let mut too_many_pages = request_buffer(RequestBufferKind::Pinned, write);
    too_many_pages.length = limits.pinned_pages_per_request as u64 * 4096 + 1;
    assert_eq!(
        preflight_request_resources(&[too_many_pages], limits),
        Err(Status::ResourceLimit)
    );
}

#[test]
fn inline_nop_and_pending_outputs_have_stable_results() {
    let completed = completed_request_output(&abi(), Status::Success);
    assert_eq!(completed.request, abi().invalid_handle);
    assert_eq!(completed.state, abi().request_states.completed);
    assert_eq!(completed.result, abi().status.ok);
    assert_eq!(completed.bytes_transferred, 0);

    let pending = pending_request_output(&abi(), abi().invalid_handle);
    assert_eq!(pending.state, abi().request_states.pending);
    assert_eq!(pending.result, abi().status.should_wait);
}

#[test]
fn blocked_request_modes_select_the_documented_syscall_status() {
    assert_eq!(
        blocked_request_return_status(true, Status::Io, Status::Success),
        Status::Io
    );
    assert_eq!(
        blocked_request_return_status(false, Status::Io, Status::Success),
        Status::Success
    );
    assert_eq!(
        blocked_request_return_status(false, Status::Success, Status::InvalidAddress),
        Status::InvalidAddress
    );
}

#[test]
fn prepared_filesystem_open_freezes_anchor_flags_and_buffers() {
    let root = Node {
        node_id: 1,
        generation: 1,
    };
    let directory = Node {
        node_id: 9,
        generation: 3,
    };
    let flags = abi().open_flags.read | abi().open_flags.write;
    let request = prepare_filesystem_open_broker_request(
        7,
        11,
        DirectoryAnchor {
            directory,
            rights: READ | WRITE | TRANSFER,
            is_root: false,
        },
        flags,
        vec![
            PreparedRequestBuffer::Copied {
                flags: abi().buffer_flags.read,
                user_address: 0x4000,
                bytes: b"folder/file".to_vec(),
            },
            PreparedRequestBuffer::Pinned {
                flags: abi().buffer_flags.write,
                owner_process_id: 7,
                pages: 0x8000,
            },
        ],
    );

    assert_eq!(request.terms.process_id, 7);
    assert_eq!(request.terms.thread_id, 11);
    assert_eq!(request.terms.target, directory_request_target(Some(directory)));
    assert_eq!(request.terms.operation, RequestOperation::FilesystemOpen);
    assert_eq!(request.terms.completion_mode, RequestCompletionMode::Block);
    assert_eq!(request.terms.operation_argument, u64::from(flags));
    assert_eq!(request.terms.user_data, 0);
    assert_eq!(request.terms.request_flags, 0);
    assert_eq!(request.buffers.len(), 2);
    assert!(matches!(
        &request.buffers[0],
        PreparedRequestBuffer::Copied {
            flags: 1,
            user_address: 0x4000,
            bytes,
        } if bytes == b"folder/file"
    ));
    assert!(matches!(
        &request.buffers[1],
        PreparedRequestBuffer::Pinned {
            flags: 2,
            owner_process_id: 7,
            pages: 0x8000,
        }
    ));
    assert_eq!(
        request.terms.target_lease,
        PreparedRequestTarget::Directory {
            directory: Some(directory),
            is_root: false,
            rights: READ | WRITE | TRANSFER,
        }
    );

    let root_request = prepare_filesystem_open_broker_request(
        7,
        11,
        DirectoryAnchor {
            directory: root,
            rights: READ | WRITE,
            is_root: true,
        },
        abi().open_flags.write,
        Vec::new(),
    );
    assert_eq!(root_request.terms.target, REQUEST_TARGET_FILESYSTEM_ROOT);
    assert_eq!(
        root_request.terms.target_lease,
        PreparedRequestTarget::Directory {
            directory: None,
            is_root: true,
            rights: READ | WRITE,
        }
    );
}

#[test]
fn request_buffer_flags_map_to_exact_data_rights() {
    let (read, write) = (abi().buffer_flags.read, abi().buffer_flags.write);
    assert_eq!(request_buffer_rights(&abi(), read), READ);
    assert_eq!(request_buffer_rights(&abi(), write), WRITE);
    assert_eq!(request_buffer_rights(&abi(), read | write), READ | WRITE);
}

#[test]
fn request_deadlines_and_error_mappings_are_stable() {
    assert_eq!(parse_request_deadline(&abi(), abi().deadline_infinite), Ok(None));
    assert_eq!(parse_request_deadline(&abi(), 0), Ok(Some(0)));
    assert_eq!(parse_request_deadline(&abi(), -1), Err(Status::InvalidArgument));
    assert_eq!(
        map_request_error(RequestError::CopiedBytesLimit),
        Status::ResourceLimit
    );
    assert_eq!(
        map_request_error(RequestError::CompletionQueueFull),
        Status::ShouldWait
    );
    assert_eq!(
        map_broker_error(BrokerError::Runtime(RequestError::InvalidRequest)),
        Status::InvalidHandle
    );
    assert_eq!(
        map_broker_error(BrokerError::PinnedPageOwnerMismatch),
        Status::InvalidArgument
    );
    assert_eq!(
        map_broker_error(BrokerError::ActionMismatch),
        Status::InvalidArgument
    );
    assert_eq!(
        map_address_space_error(AddressSpaceError::PinnedMapping(0x4000)),
        Status::ShouldWait
    );
}

#[test]
fn process_create_failures_select_exactly_one_missing_counter() {
    let before = FailureCounts {
        quota_failures: 0,
        oom_failures: 0,
    };
    assert_eq!(
        missing_memory_failure_counter(before, before, Status::ResourceLimit),
        Some(MemoryFailureCounter::Quota)
    );
    assert_eq!(
        missing_memory_failure_counter(before, before, Status::OutOfMemory),
        Some(MemoryFailureCounter::Oom)
    );
    let mut quota_recorded = before;
    quota_recorded.quota_failures = 1;
    assert_eq!(
        missing_memory_failure_counter(before, quota_recorded, Status::ResourceLimit),
        None
    );
    let mut oom_recorded = before;
    oom_recorded.oom_failures = 1;
    assert_eq!(
        missing_memory_failure_counter(before, oom_recorded, Status::OutOfMemory),
        None
    );
    assert_eq!(
        missing_memory_failure_counter(before, before, Status::InvalidArgument),
        None
    );
}

#[test]
fn process_memory_policy_parser_rejects_malformed_version_and_size() {
    let mut raw = [0u8; PROCESS_MEMORY_POLICY_SIZE];
    put_u32(&mut raw, 0, abi().versions.process_memory_policy);
    put_u32(&mut raw, 4, PROCESS_MEMORY_POLICY_SIZE as u32);
    for index in 0..7 {
        put_u64(&mut raw, 8 + index * 8, index as u64 + 10);
    }
    let policy = parse_process_memory_policy(&abi(), &raw).unwrap();
    assert_eq!(
        [
            policy.private_pages,
            policy.shared_memory_bytes,
            policy.mapped_shared_bytes,
            policy.reserved_virtual_bytes,
            policy.vma_count,
            policy.executable_image_pages,
            policy.executable_source_bytes,
        ],
        [10, 11, 12, 13, 14, 15, 16]
    );
    put_u32(&mut raw, 0, abi().versions.process_memory_policy + 1);
    assert_eq!(
        parse_process_memory_policy(&abi(), &raw),
        Err(Status::InvalidArgument)
    );
    put_u32(&mut raw, 0, abi().versions.process_memory_policy);
    put_u32(&mut raw, 4, PROCESS_MEMORY_POLICY_SIZE as u32 - 8);
    assert_eq!(
        parse_process_memory_policy(&abi(), &raw),
        Err(Status::InvalidArgument)
    );
}

#[test]
fn shared_memory_quota_uses_page_rounded_backing_bytes() {
    assert_eq!(page_rounded_shared_backing_bytes(0), Ok(0));
    assert_eq!(
        page_rounded_shared_backing_bytes(1),
        Ok(4096)
    );
    assert_eq!(
        page_rounded_shared_backing_bytes(4096 + 1),
        Ok(4096 * 2)
    );
    assert_eq!(
        page_rounded_shared_backing_bytes(usize::MAX),
        Err(Status::OutOfRange)
    );
}

#[test]
fn memory_info_query_requires_an_exact_supported_version_size_pair() {
    assert_eq!(
        validate_memory_info_query(&abi(), abi().versions.memory_info_first as u64, abi().sizes.memory_info_first as u64),
        Ok(abi().sizes.memory_info_first as usize)
    );
    assert_eq!(
        validate_memory_info_query(&abi(), abi().versions.memory_info as u64, abi().sizes.memory_info as u64),
        Ok(abi().sizes.memory_info as usize)
    );
    assert_eq!(
        validate_memory_info_query(&abi(), 0, abi().sizes.memory_info as u64),
        Err(Status::InvalidArgument)
    );
    assert_eq!(
        validate_memory_info_query(&abi(), abi().versions.memory_info as u64, abi().sizes.memory_info as u64 - 1),
        Err(Status::BufferTooSmall)
    );
    assert_eq!(
        validate_memory_info_query(&abi(), abi().versions.memory_info_first as u64, abi().sizes.memory_info as u64),
        Err(Status::InvalidArgument)
    );
    assert_eq!(
        validate_memory_info_query(&abi(), abi().versions.memory_info as u64, abi().sizes.memory_info as u64 + 8),
        Err(Status::InvalidArgument)
    );
}

#[test]
fn virtual_query_rejects_malformed_layouts_and_non_user_addresses() {
    let version = abi().versions.virtual_area_info as u64;
    let size = abi().sizes.virtual_area_info as u64;
    assert_eq!(validate_virtual_query(&abi(), version, size, true), Ok(()));
    assert_eq!(
        validate_virtual_query(&abi(), 0, size, true),
        Err(Status::InvalidArgument)
    );
    assert_eq!(
        validate_virtual_query(&abi(), version, size - 1, true),
        Err(Status::BufferTooSmall)
    );
    assert_eq!(
        validate_virtual_query(&abi(), version, size + 8, true),
        Err(Status::InvalidArgument)
    );
    assert_eq!(
        validate_virtual_query(&abi(), version, size, false),
        Err(Status::InvalidAddress)
    );
}

#[test]
fn wait_resolution_prefers_readiness_then_uses_inclusive_deadlines() {
    assert_eq!(
        resolve_wait_completion(Some(3), WaitDeadline::At(10), 10),
        Some(WaitManyCompletion::Ready(3))
    );
    assert_eq!(resolve_wait_completion(None, WaitDeadline::At(10), 9), None);
    assert_eq!(
        resolve_wait_completion(None, WaitDeadline::At(10), 10),
        Some(WaitManyCompletion::Failed(Status::TimedOut))
    );
    assert_eq!(
        resolve_wait_completion(None, WaitDeadline::Infinite, u64::MAX),
        None
    );
}

#[test]
fn wait_item_encoding_updates_complete_fixed_layout_records() {
    let items = [WaitItem {
        handle: Handle(0x1122_3344),
        wait_for: 3,
        pending: 2,
    }];
    let output = encode_wait_items(&items);
    assert_eq!(output.len(), WAIT_ITEM_SIZE);

    assert_eq!(read_u32(&output, 0), 0x1122_3344);
    assert_eq!(read_u32(&output, 4), 3);
    assert_eq!(read_u32(&output, 8), 2);
}

#[test]
fn application_data_create_parser_validates_layout_reserved_and_bounds() {
    let mut raw = [0_u8; APPLICATION_DATA_CREATE_ARGS_SIZE];
    put_u32(&mut raw, 0, 7);
    raw[8..16].copy_from_slice(&0x1000_u64.to_le_bytes());
    raw[16..24].copy_from_slice(&12_u64.to_le_bytes());
    raw[24..32].copy_from_slice(&0x2000_u64.to_le_bytes());
    assert_eq!(
        parse_application_data_create_args(&abi(), &raw),
        Ok(ApplicationDataCreateRequest {
            root: Handle(7),
            app_id_address: 0x1000,
            app_id_length: 12,
            output_address: 0x2000,
        })
    );

    put_u32(&mut raw, 4, 1);
    assert_eq!(
        parse_application_data_create_args(&abi(), &raw),
        Err(Status::InvalidArgument)
    );
    put_u32(&mut raw, 4, 0);
    raw[16..24].copy_from_slice(&u64::from(abi().limits.app_id_bytes + 1).to_le_bytes());
    assert_eq!(
        parse_application_data_create_args(&abi(), &raw),
        Err(Status::InvalidArgument)
    );
}

#[test]
fn application_data_create_requires_write_execute_root_authority() {
    let mut raw = vec![0_u8; APPLICATION_DATA_CREATE_ARGS_SIZE];
    put_u64(&mut raw, 8, 0x2000);
    put_u64(&mut raw, 16, 14);
    put_u64(&mut raw, 24, 0x3000);
    let mut installing = |root: u32| {
        put_u32(&mut raw, 0, root);
        let mut kernel = Mock::default();
        kernel.rights.insert(7, WRITE | EXECUTE);
        kernel.rights.insert(8, READ | WRITE);
        kernel.rights.insert(9, READ);
        kernel.memory.insert(0x1000, raw.clone());
        kernel.memory.insert(0x2000, b"example.editor".to_vec());
        session(kernel).application_data_create(0x1000)
    };
    assert_eq!(installing(7), Ok(()));
    assert_eq!(installing(8), Err(Status::AccessDenied));
    assert_eq!(installing(9), Err(Status::AccessDenied));
}

#[test]
fn application_data_directory_creation_is_idempotent_and_scoped() {
    let mut session = session(Mock::default());

    let first = session
        .ensure_application_data_directory(b"example.editor")
        .unwrap();
    let second = session
        .ensure_application_data_directory(b"example.editor")
        .unwrap();
    assert_eq!(first, second);

    let other = session
        .ensure_application_data_directory(b"example.viewer")
        .unwrap();
    assert_ne!(first, other);
    assert_eq!(
        session.open_application_data_directory(b"example.editor"),
        Ok(first)
    );
    assert_eq!(
        session.open_application_data_directory(b"example.none"),
        Err(Status::NotFound)
    );
}

#[test]
fn application_data_dispositions_are_unique_and_require_read_only_scope_rights() {
    let app = HandleOperationDisposition {
        handle: Handle(7),
        operation: HandleOperation::Move,
        rights: READ,
    };
    let ordinary = HandleOperationDisposition {
        handle: Handle(9),
        operation: HandleOperation::Move,
        rights: READ,
    };
    let index = |dispositions: &[HandleOperationDisposition]| {
        let mut kernel = Mock::default();
        kernel.types.insert(7, ObjectType::ApplicationData);
        kernel.types.insert(9, ObjectType::Other(3));
        session(kernel).application_data_disposition_index(dispositions)
    };
    assert_eq!(index(&[ordinary, app]), Ok(Some(1)));
    assert_eq!(index(&[app, app]), Err(Status::InvalidArgument));

    for rights in [WRITE, READ | TRANSFER] {
        let invalid = HandleOperationDisposition { rights, ..app };
        assert_eq!(index(&[invalid]), Err(Status::InvalidRights));
    }
}

#[test]
fn disposition_parser_accepts_move_and_duplicate() {
    let moved = disposition_bytes(7, 0, READ, 0);
    assert_eq!(
        parse_handle_disposition(&abi(), &moved),
        Ok(HandleOperationDisposition {
            handle: Handle(7),
            operation: HandleOperation::Move,
            rights: READ,
        })
    );

    let duplicated = disposition_bytes(9, 1, WAIT, 0);
    assert_eq!(
        parse_handle_disposition(&abi(), &duplicated),
        Ok(HandleOperationDisposition {
            handle: Handle(9),
            operation: HandleOperation::Duplicate,
            rights: WAIT,
        })
    );
}

#[test]
fn disposition_parser_rejects_invalid_operation_reserved_and_rights() {
    assert_eq!(
        parse_handle_disposition(&abi(), &disposition_bytes(1, 2, READ, 0)),
        Err(Status::InvalidArgument)
    );
    assert_eq!(
        parse_handle_disposition(&abi(), &disposition_bytes(1, 0, READ, 1)),
        Err(Status::InvalidArgument)
    );
    assert_eq!(
        parse_handle_disposition(&abi(), &disposition_bytes(1, 0, 1 << 31, 0)),
        Err(Status::InvalidRights)
    );
    assert_eq!(
        parse_handle_disposition(&abi(), &[0; HANDLE_DISPOSITION_SIZE - 1]),
        Err(Status::InvalidArgument)
    );
}

#[test]
fn count_helper_enforces_caps_and_detects_overflow() {
    assert_eq!(checked_array_bytes(16, 8, 16, Status::OutOfRange), Ok(128));
    assert_eq!(
        checked_array_bytes(17, 8, 16, Status::MessageTooLarge),
        Err(Status::MessageTooLarge)
    );
    assert_eq!(
        checked_array_bytes(u64::MAX, 2, u64::MAX, Status::OutOfRange),
        Err(Status::OutOfRange)
    );
}

#[test]
fn received_handle_metadata_is_filled_in_place() {
    let mut kernel = Mock::default();
    kernel.rights.insert(7, READ | WAIT);
    kernel.type_numbers.insert(7, 2);
    kernel.rights.insert(9, READ | MAP);
    kernel.type_numbers.insert(9, 3);
    let mut session = session(kernel);
    let output = session
        .fill_received_handle_metadata(&[Handle(7), Handle(9)], 2 * RECEIVED_HANDLE_SIZE)
        .unwrap();

    assert_eq!(session.kernel.asked.len(), 4);
    assert_eq!(read_u32(&output, 0), 7);
    assert_eq!(read_u32(&output, 4), READ | WAIT);
    assert_eq!(read_u32(&output, 8), 2);
    assert_eq!(read_u32(&output, 12), 0);
    assert_eq!(read_u32(&output, 16), 9);
    assert_eq!(read_u32(&output, 20), READ | MAP);
    assert_eq!(read_u32(&output, 24), 3);
    assert_eq!(read_u32(&output, 28), 0);
}

#[test]
fn received_handle_metadata_checks_size_and_corruption() {
    let mut session = session(Mock::default());
    assert_eq!(
        session.fill_received_handle_metadata(&[Handle(7)], RECEIVED_HANDLE_SIZE - 1),
        Err(Status::InvalidMessage)
    );
    assert!(
        session.kernel.asked.is_empty(),
        "length must be checked before metadata lookup"
    );
    assert_eq!(
        session.fill_received_handle_metadata(&[Handle(7)], RECEIVED_HANDLE_SIZE),
        Err(Status::InvalidMessage)
    );
}

#[test]
fn status_mapping_preserves_public_error_meaning() {
    assert_eq!(
        map_address_space_error(AddressSpaceError::PermissionDenied {
            address: 0x1000,
        }),
        Status::AccessDenied
    );
    assert_eq!(
        map_address_space_error(AddressSpaceError::AlreadyMapped(0x2000)),
        Status::AlreadyMapped
    );
    assert_eq!(
        map_address_space_error(AddressSpaceError::OutOfMemory),
        Status::OutOfMemory
    );
    assert_eq!(
        map_process_create_error(ProcessCreateError::AddressSpace(
            AddressSpaceError::OutOfMemory,
        )),
        Status::OutOfMemory
    );
    assert_eq!(
        map_process_create_error(ProcessCreateError::ElfPage(
            ElfPageLoadError::AddressSpace {
                address: 0x3000,
                error: AddressSpaceError::OutOfMemory,
            },
        )),
        Status::OutOfMemory
    );
    assert_eq!(
        map_shared_mapping_error(SharedMappingError::RangeOverflow),
        Status::OutOfRange
    );
    assert_eq!(
        map_shared_mapping_error(SharedMappingError::NoAddressSpace),
        Status::OutOfMemory
    );
}

#[test]
fn filesystem_argument_parsers_follow_fixed_layouts() {
    let mut path = [0_u8; FILESYSTEM_CREATE_DIRECTORY_ARGS_SIZE];
    put_u32(&mut path, 0, 0x1122_3344);
    put_u64(&mut path, 8, 0x0102_0304_0506_0708);
    put_u64(&mut path, 16, 99);
    assert_eq!(
        parse_filesystem_path_args(&path),
        Ok(PathArgs {
            anchor: Handle(0x1122_3344),
            address: 0x0102_0304_0506_0708,
            length: 99,
        })
    );
    put_u32(&mut path, 4, 1);
    assert_eq!(
        parse_filesystem_path_args(&path),
        Err(Status::InvalidArgument)
    );

    let mut rename = [0_u8; FILESYSTEM_RENAME_ARGS_SIZE];
    put_u32(&mut rename, 0, 7);
    put_u32(&mut rename, 4, 9);
    put_u64(&mut rename, 8, 0x1000);
    put_u64(&mut rename, 16, 5);
    put_u64(&mut rename, 24, 0x2000);
    put_u64(&mut rename, 32, 6);
    put_u32(&mut rename, 40, abi().rename_replace);
    assert_eq!(
        parse_filesystem_rename_args(&abi(), &rename),
        Ok(ParsedFilesystemRenameArgs {
            source_anchor: Handle(7),
            destination_anchor: Handle(9),
            source_address: 0x1000,
            source_length: 5,
            destination_address: 0x2000,
            destination_length: 6,
            flags: abi().rename_replace,
        })
    );
    put_u32(&mut rename, 40, 2);
    assert_eq!(
        parse_filesystem_rename_args(&abi(), &rename),
        Err(Status::InvalidArgument)
    );
    put_u32(&mut rename, 40, 0);
    put_u32(&mut rename, 44, 1);
    assert_eq!(
        parse_filesystem_rename_args(&abi(), &rename),
        Err(Status::InvalidArgument)
    );
}

#[test]
fn filesystem_paths_are_relative_bounded_and_non_traversing() {
    let checked = |path: &str| validate_filesystem_path(&abi(), path.as_bytes());
    assert_eq!(checked("file"), Ok(()));
    assert_eq!(checked("one/two/three"), Ok(()));
    for invalid in [
        "",
        "/absolute",
        "\\absolute",
        ".",
        "..",
        "one/./two",
        "one/../two",
        "one//two",
        "one/",
        "one\\two",
        "drive:name",
        "nul\0name",
    ] {
        assert_eq!(
            checked(invalid),
            Err(Status::InvalidArgument),
            "accepted invalid path {invalid:?}"
        );
    }

    let long_component = "a".repeat(abi().limits.filesystem_name as usize + 1);
    assert_eq!(
        checked(&long_component),
        Err(Status::InvalidArgument)
    );
    let deepest = vec!["a"; abi().limits.traversal_depth as usize].join("/");
    assert_eq!(checked(&deepest), Ok(()));
    let too_deep = vec!["a"; abi().limits.traversal_depth as usize + 1].join("/");
    assert_eq!(checked(&too_deep), Err(Status::OutOfRange));
}

#[test]
fn filesystem_namespace_protection_covers_system_subtree_and_legacy_nodes() {
    for protected in [
        "system",
        "system/desktop.elf",
        "system/nested/artifact",
        "desktop.elf",
        "programs.gkr/metadata",
        "system.log/archive",
        "console/child",
    ] {
        assert!(is_protected_system_path(protected.as_bytes()));
    }
    for mutable in [
        "applications",
        "applications/example/versions/app.elf",
        "appdata",
        "appdata/example/settings",
        "apps/desktop.elf",
        "desktop.elf.backup",
    ] {
        assert!(!is_protected_system_path(mutable.as_bytes()));
    }
}

#[test]
fn directory_rights_are_attenuated_to_anchor_authority() {
    let full = READ | WRITE | DUPLICATE | TRANSFER;
    assert_eq!(child_directory_rights(&abi(), full, false, false), full);
    assert_eq!(
        child_directory_rights(&abi(), READ | TRANSFER, false, false),
        READ | TRANSFER
    );
    assert_eq!(
        child_directory_rights(&abi(), READ | WRITE, true, false),
        full
    );
    assert_eq!(
        child_directory_rights(&abi(), READ, true, false),
        READ | DUPLICATE | TRANSFER
    );
    assert_eq!(
        child_directory_rights(&abi(), full, true, true),
        READ | DUPLICATE | TRANSFER
    );
}

#[test]
fn filesystem_metadata_encoding_uses_the_stable_layout() {
    let metadata = NodeMetadata {
        kind: NodeKind::Directory,
        size: 123,
        identity: 456,
        mode: 0o40755,
        policy: 0,
        uid: 10,
        gid: 20,
        ctime: Timestamp {
            seconds: 2,
            nanoseconds: 3,
        },
        mtime: Timestamp {
            seconds: 4,
            nanoseconds: 5,
        },
    };
    let encoded = encode_filesystem_metadata(metadata).unwrap();
    assert_eq!(read_u32(&encoded, 0), 2);
    assert_eq!(read_u32(&encoded, 4), 0o40755);
    assert_eq!(read_u64(&encoded, 8), 123);
    assert_eq!(read_u64(&encoded, 16), 456);
    assert_eq!(read_u64(&encoded, 24), 2_000_000_003);
    assert_eq!(read_u64(&encoded, 32), 4_000_000_005);
    assert_eq!(read_u32(&encoded, 40), 10);
    assert_eq!(read_u32(&encoded, 44), 20);
    assert_eq!(read_u32(&encoded, 48), 0);
    assert_eq!(&encoded[52..], &[0; 12]);
    assert_eq!(timestamp_ns(u64::MAX, 0), Err(Status::OutOfRange));
}

#[test]
fn filesystem_errors_map_to_rich_abi_statuses() {
    assert_eq!(map_fs_error(FsError::InvalidName), Status::InvalidArgument);
    assert_eq!(map_fs_error(FsError::TraversalTooDeep), Status::OutOfRange);
    assert_eq!(map_fs_error(FsError::AlreadyExists), Status::AlreadyExists);
    assert_eq!(map_fs_error(FsError::NotDirectory), Status::NotDirectory);
    assert_eq!(map_fs_error(FsError::IsDirectory), Status::IsDirectory);
    assert_eq!(
        map_fs_error(FsError::DirectoryNotEmpty),
        Status::DirectoryNotEmpty
    );
    assert_eq!(map_fs_error(FsError::WouldCycle), Status::InvalidArgument);
}

#[test]
fn debug_write_length_is_strictly_bounded() {
    assert_eq!(checked_debug_length(0), Ok(0));
    assert_eq!(
        checked_debug_length(DEBUG_WRITE_MAX_BYTES as u64),
        Ok(DEBUG_WRITE_MAX_BYTES)
    );
    assert_eq!(
        checked_debug_length(DEBUG_WRITE_MAX_BYTES as u64 + 1),
        Err(Status::OutOfRange)
    );
    assert_eq!(checked_debug_length(u64::MAX), Err(Status::OutOfRange));
}

fn context(number: SyscallNumber, arguments: [u64; 4]) -> SyscallContext {
    SyscallContext {
        process_id: 7,
        thread: 11,
        registers: SyscallRegisters {
            rax: number.raw(),
            rdi: arguments[0],
            rsi: arguments[1],
            rdx: arguments[2],
            r10: arguments[3],
            r8: 0,
        },
        now_ns: 1000,
        heap: KernelHeapStats {
            committed_bytes: 1,
            available_bytes: 2,
            growth_failures: 3,
        },
        process_creation_allowed: true,
        child_slot_reserved: true,
    }
}

fn made(session: &mut Session<Mock>, number: SyscallNumber, arguments: [u64; 4]) -> SyscallOutcome {
    session.dispatch(&context(number, arguments))
}

fn told(session: &Session<Mock>) -> Status {
    let found = match session.kernel.asked.last() {
        Some(Call::SetReturn { thread: 11, rax }) => *rax,
        other => panic!("the thread was not told: {other:?}"),
    };
    for status in [
        Status::Success,
        Status::AccessDenied,
        Status::BufferTooSmall,
        Status::InvalidAddress,
        Status::InvalidArgument,
        Status::InvalidHandle,
        Status::InvalidMessage,
        Status::InvalidRights,
        Status::Io,
        Status::NotFound,
        Status::OutOfMemory,
        Status::OutOfRange,
        Status::ResourceLimit,
        Status::ShouldWait,
        Status::TimedOut,
        Status::UnknownSyscall,
        Status::WrongObjectType,
    ] {
        if return_register(&session.abi, status) == found {
            return status;
        }
    }
    panic!("no status has the code {found:#x}")
}

#[test]
fn unknown_system_calls_are_refused() {
    let mut session = session(Mock::default());
    let mut call = context(SyscallNumber::ProcessYield, [0; 4]);
    call.registers.rax = 71;
    assert_eq!(session.dispatch(&call), SyscallOutcome::Yield);
    assert_eq!(told(&session), Status::UnknownSyscall);
}

#[test]
fn a_process_and_a_thread_end_with_their_code() {
    let mut session = session(Mock::default());
    assert_eq!(
        made(&mut session, SyscallNumber::ProcessExit, [3, 0, 0, 0]),
        SyscallOutcome::Exit(3)
    );
    assert_eq!(
        session.kernel.asked.last(),
        Some(&Call::ExitProcess { thread: 11, code: 3 })
    );
    assert_eq!(
        made(&mut session, SyscallNumber::ThreadExit, [u64::MAX, 0, 0, 0]),
        SyscallOutcome::ThreadExited(-1)
    );
    assert_eq!(
        session.kernel.asked.last(),
        Some(&Call::ExitThread { thread: 11, code: -1 })
    );
}

#[test]
fn the_clock_is_written_where_it_was_asked_for() {
    let mut session = session(Mock::default());
    assert_eq!(
        made(&mut session, SyscallNumber::ClockGetMonotonic, [0x4000, 0, 0, 0]),
        SyscallOutcome::Yield
    );
    assert_eq!(told(&session), Status::Success);
    assert_eq!(
        session.kernel.written,
        vec![(0x4000, 1000_u64.to_le_bytes().to_vec())]
    );
}

#[test]
fn diagnostics_reach_the_sink_unchanged() {
    let mut kernel = Mock::default();
    kernel.memory.insert(0x4000, b"hello".to_vec());
    let mut session = session(kernel);
    made(&mut session, SyscallNumber::DebugWrite, [0x4000, 5, 0, 0]);
    assert_eq!(told(&session), Status::Success);
    assert_eq!(session.kernel.debug, b"hello");
    let too_long = DEBUG_WRITE_MAX_BYTES as u64 + 1;
    made(&mut session, SyscallNumber::DebugWrite, [0x4000, too_long, 0, 0]);
    assert_eq!(told(&session), Status::OutOfRange);
}

#[test]
fn audio_is_taken_in_whole_frames_and_only_with_room() {
    let mut kernel = Mock::default();
    kernel.memory.insert(0x4000, vec![0; 16]);
    let mut session = session(kernel);
    assert_eq!(session.audio_write(0x4000, 8), Ok(()));
    assert_eq!(session.audio_write(0x4000, 6), Err(Status::InvalidArgument));
    assert_eq!(session.audio_write(0x4000, 0), Err(Status::InvalidArgument));
    assert_eq!(session.audio_write(0x4000, 12), Err(Status::ShouldWait));
}

#[test]
fn random_bytes_need_a_source_and_are_bounded() {
    let mut kernel = Mock::default();
    kernel
        .refused
        .push((Call::RandomSource { handle: Handle(9) }, Status::AccessDenied));
    let mut session = session(kernel);
    assert_eq!(session.random_fill(8, 0x4000, 3), Ok(()));
    assert_eq!(session.kernel.written, vec![(0x4000, vec![0x5a; 3])]);
    assert_eq!(session.random_fill(9, 0x4000, 3), Err(Status::AccessDenied));
    assert_eq!(session.random_fill(8, 0x4000, 257), Err(Status::OutOfRange));
}

#[test]
fn a_handle_that_cannot_be_told_is_closed() {
    let mut kernel = Mock::default();
    kernel
        .refused
        .push((Call::CopyOut { address: 0x4000 }, Status::InvalidAddress));
    let mut session = session(kernel);
    assert_eq!(
        session.shared_memory_create(5000, 0x4000),
        Err(Status::InvalidAddress)
    );
    assert_eq!(
        session.kernel.asked,
        vec![
            Call::CanAllocateShared { bytes: 8192 },
            Call::CheckOutput {
                address: 0x4000,
                length: 8
            },
            Call::CreateShared { size: 5000 },
            Call::RecordShared { bytes: 8192 },
            Call::CopyOut { address: 0x4000 },
            Call::CloseHandle { handle: Handle(77) },
            Call::ReleaseShared { bytes: 8192 },
        ]
    );
}

#[test]
fn a_memory_failure_is_counted_once() {
    let mut kernel = Mock::default();
    kernel.refused.push((
        Call::MapAnonymous {
            length: 4096,
            protection: 3,
        },
        Status::ResourceLimit,
    ));
    let mut session = session(kernel);
    made(&mut session, SyscallNumber::AnonymousMap, [4096, 3, 0x4000, 0]);
    assert_eq!(told(&session), Status::ResourceLimit);
    assert_eq!(session.kernel.counts, (1, 0));
    let counted = FailureCounts {
        quota_failures: 0,
        oom_failures: 0,
    };
    session.record_memory_failure_once(counted, Status::ResourceLimit);
    assert_eq!(session.kernel.counts, (1, 0));
}

#[test]
fn children_are_only_made_where_that_is_allowed() {
    let mut session = session(Mock::default());
    let mut call = context(SyscallNumber::ProcessCreate, [0x4000, 0, 0, 0]);
    call.process_creation_allowed = false;
    assert_eq!(session.dispatch(&call), SyscallOutcome::Yield);
    assert_eq!(told(&session), Status::AccessDenied);
    call.process_creation_allowed = true;
    call.child_slot_reserved = false;
    assert_eq!(session.dispatch(&call), SyscallOutcome::Yield);
    assert_eq!(told(&session), Status::ResourceLimit);
}

fn child_kernel() -> Mock {
    let mut raw = vec![0_u8; 64];
    put_u32(&mut raw, 0, 5);
    put_u64(&mut raw, 8, 0x5000);
    put_u64(&mut raw, 16, 2);
    put_u64(&mut raw, 24, 0x6000);
    put_u64(&mut raw, 32, 1);
    put_u64(&mut raw, 40, 0x7000);
    put_u64(&mut raw, 48, 3);
    put_u64(&mut raw, 56, 0x8000);
    let mut kernel = Mock::default();
    kernel.memory.insert(0x4000, raw);
    kernel.memory.insert(0x5000, vec![1, 2]);
    kernel
        .memory
        .insert(0x6000, disposition_bytes(30, 0, READ, 0).to_vec());
    kernel.memory.insert(0x7000, vec![1, 2, 3]);
    kernel.types.insert(30, ObjectType::Other(1));
    kernel.rights.insert(5, READ | EXECUTE);
    kernel
}

#[test]
fn a_child_gets_the_handles_that_were_passed_on() {
    let mut session = session(child_kernel());
    assert_eq!(
        made(&mut session, SyscallNumber::ProcessCreate, [0x4000, 0, 0, 0]),
        SyscallOutcome::ChildCreated
    );
    assert_eq!(session.kernel.new_handles, vec![Handle(130)]);
    let mut handle = 77_u32.to_le_bytes().to_vec();
    handle.extend_from_slice(&[0; 4]);
    assert_eq!(session.kernel.written, vec![(0x8000, handle)]);
}

#[test]
fn a_child_that_cannot_be_connected_is_reclaimed() {
    let mut kernel = child_kernel();
    kernel
        .refused
        .push((Call::CreateProcessHandle, Status::OutOfMemory));
    let mut session = session(kernel);
    assert_eq!(
        session.process_create(0x4000, true, false),
        Err(Status::OutOfMemory)
    );
    assert!(session.kernel.asked.contains(&Call::ReclaimChild));
    assert!(session.kernel.written.is_empty());
}

fn put_request(kernel: &mut Mock, address: u64, operation: u32, mode: u32) {
    let (mut raw, _) = request_args(operation, mode);
    put_u32(&mut raw, 8, 21);
    put_u64(&mut raw, 24, 0x6000);
    put_u32(&mut raw, 32, 1);
    kernel.memory.insert(address, raw.to_vec());
    let buffer = request_buffer(RequestBufferKind::Pinned, abi().buffer_flags.write);
    kernel.memory.insert(0x6000, buffer_bytes(buffer).to_vec());
    kernel.rights.insert(21, READ | WRITE);
    kernel.types.insert(21, ObjectType::File);
    kernel.request_info = Some(RequestInfo {
        state: abi().request_states.pending,
        result: abi().status.should_wait,
        result_flags: 0,
        bytes_transferred: 0,
    });
}

#[test]
fn a_request_is_handed_to_the_broker_and_its_handle_told() {
    let mut kernel = Mock::default();
    let modes = abi().modes;
    put_request(&mut kernel, 0x5000, abi().operations.filesystem_read, modes.handle);
    let mut session = session(kernel);
    made(&mut session, SyscallNumber::RequestSubmit, [0x5000, 0x7000, 0, 0]);
    assert_eq!(told(&session), Status::Success);
    let request = &session.kernel.submitted[0];
    let file = Node {
        node_id: 21,
        generation: 2,
    };
    assert_eq!(request.terms.process_id, 7);
    assert_eq!(request.terms.thread_id, 11);
    assert_eq!(request.terms.target, filesystem_request_target(file));
    assert_eq!(request.terms.target_lease, PreparedRequestTarget::File(file));
    assert!(matches!(
        request.buffers[0],
        PreparedRequestBuffer::Pinned {
            flags: 2,
            owner_process_id: 7,
            pages: 0x4001,
        }
    ));
    let (address, output) = session.kernel.written.last().unwrap();
    assert_eq!(*address, 0x7000);
    assert_eq!(read_u32(output, 0), 77);
    assert_eq!(read_u32(output, 4), abi().request_states.pending);
}

#[test]
fn a_refused_request_leaves_nothing_pinned() {
    let mut kernel = Mock::default();
    let modes = abi().modes;
    put_request(&mut kernel, 0x5000, abi().operations.filesystem_read, modes.block);
    kernel.refused.push((
        Call::InstallRequest { request: 0 },
        Status::ResourceLimit,
    ));
    let mut session = session(kernel);
    made(&mut session, SyscallNumber::RequestSubmit, [0x5000, 0x7000, 0, 0]);
    assert_eq!(told(&session), Status::ResourceLimit);
    let output = Call::Pin {
        address: 0x7000,
        length: 24,
        write: true,
    };
    assert!(session.kernel.asked.contains(&output));
    assert!(session.kernel.asked.contains(&Call::Unpin { pages: 0x7001 }));
}

#[test]
fn a_request_whose_handle_cannot_be_told_is_canceled() {
    let mut kernel = Mock::default();
    let modes = abi().modes;
    put_request(&mut kernel, 0x5000, abi().operations.filesystem_read, modes.handle);
    kernel
        .refused
        .push((Call::CopyOut { address: 0x7000 }, Status::InvalidAddress));
    let mut session = session(kernel);
    made(&mut session, SyscallNumber::RequestSubmit, [0x5000, 0x7000, 0, 0]);
    assert_eq!(told(&session), Status::InvalidAddress);
    assert!(session.kernel.asked.contains(&Call::CloseHandle { handle: Handle(77) }));
    assert!(session.kernel.asked.contains(&Call::CancelRequest {
        request: 1,
        now_ns: 1000
    }));
}

#[test]
fn a_blocking_request_blocks_until_its_result_is_written() {
    let mut kernel = Mock::default();
    let modes = abi().modes;
    put_request(&mut kernel, 0x5000, abi().operations.filesystem_read, modes.block);
    let mut session = session(kernel);
    assert_eq!(
        made(&mut session, SyscallNumber::RequestSubmit, [0x5000, 0x7000, 0, 0]),
        SyscallOutcome::Blocked
    );
    let output = PinnedOutput {
        address: 0x7000,
        pages: 0x7001,
    };
    assert_eq!(
        session.kernel.asked.last(),
        Some(&Call::BlockRequest {
            thread: 11,
            request: 1,
            hidden_handle: Handle(77),
            output: Some(output),
            count_output: None,
            return_operation_status: false,
        })
    );

    session.kernel.blocked = Some(BlockedKind::Request);
    session.kernel.ended_request = Some(EndedRequest {
        completion: RequestSubmitOutput {
            request: abi().invalid_handle,
            state: abi().request_states.completed,
            result: 0,
            result_flags: 0,
            bytes_transferred: 16,
        },
        operation_status: Some(Status::Success),
        output: Some(output),
        count_output: None,
        hidden_handle: Handle(77),
        return_operation_status: false,
    });
    assert_eq!(session.complete_blocked(11), Status::Success);
    let (address, written) = session.kernel.written.last().unwrap();
    assert_eq!(*address, 0x7000);
    assert_eq!(read_u64(written, 16), 16);
    assert!(session.kernel.asked.contains(&Call::Unpin { pages: 0x7001 }));
    assert!(session.kernel.asked.contains(&Call::CloseHandle { handle: Handle(77) }));
}

#[test]
fn a_batch_that_cannot_be_told_leaves_no_request() {
    let mut kernel = Mock::default();
    let mut head = vec![0_u8; 32];
    put_u32(&mut head, 0, abi().versions.request_submit_batch_args);
    put_u32(&mut head, 4, 32);
    put_u64(&mut head, 8, 0x5000);
    put_u32(&mut head, 16, 2);
    put_u64(&mut head, 24, 0x7000);
    kernel.memory.insert(0x4000, head);
    let modes = abi().modes;
    put_request(&mut kernel, 0x5000, abi().operations.filesystem_read, modes.handle);
    let one = kernel.memory[&0x5000].clone();
    kernel.memory.insert(0x5000, [one.clone(), one].concat());
    kernel
        .refused
        .push((Call::CopyOut { address: 0x7000 }, Status::InvalidAddress));
    let mut session = session(kernel);
    assert_eq!(
        session.request_submit_batch(7, 11, 0x4000, 1000),
        Err(Status::InvalidAddress)
    );
    assert_eq!(session.kernel.submitted.len(), 2);
    for request in [1, 2] {
        assert!(session.kernel.asked.contains(&Call::CancelRequest {
            request,
            now_ns: 1000
        }));
    }
}

fn put_wait(kernel: &mut Mock, deadline: i64) {
    let mut raw = vec![0_u8; 24];
    put_u64(&mut raw, 0, 0x5000);
    put_u64(&mut raw, 8, 1);
    put_u64(&mut raw, 16, deadline as u64);
    kernel.memory.insert(0x4000, raw);
    let item = WaitItem {
        handle: Handle(3),
        wait_for: 1,
        pending: 0,
    };
    kernel.memory.insert(0x5000, encode_wait_items(&[item]));
}

#[test]
fn a_wait_with_something_ready_is_over_at_once() {
    let mut kernel = Mock::default();
    put_wait(&mut kernel, 5000);
    kernel.ready = Some(0);
    let mut session = session(kernel);
    assert_eq!(
        made(&mut session, SyscallNumber::WaitMany, [0x4000, 0x7000, 0, 0]),
        SyscallOutcome::Yield
    );
    assert_eq!(told(&session), Status::Success);
    assert_eq!(session.kernel.written[0].0, 0x5000);
    assert_eq!(session.kernel.written[1], (0x7000, vec![0; 8]));
}

#[test]
fn a_wait_blocks_until_its_deadline() {
    let mut kernel = Mock::default();
    put_wait(&mut kernel, 5000);
    let mut session = session(kernel);
    assert_eq!(
        made(&mut session, SyscallNumber::WaitMany, [0x4000, 0x7000, 0, 0]),
        SyscallOutcome::Blocked
    );
    assert_eq!(
        session.kernel.wait.as_ref().unwrap().deadline,
        WaitDeadline::At(5000)
    );
    session.kernel.blocked = Some(BlockedKind::WaitMany);
    assert_eq!(session.poll_blocked(11, 4999), BlockedPoll::Pending);
    assert_eq!(session.poll_blocked(11, 5000), BlockedPoll::Complete);
    assert_eq!(
        session.kernel.wait.as_ref().unwrap().completion,
        Some(WaitManyCompletion::Failed(Status::TimedOut))
    );
    assert_eq!(session.complete_blocked(11), Status::TimedOut);
}

#[test]
fn a_thread_that_waits_for_nothing_stays_pending() {
    let mut session = session(Mock::default());
    assert_eq!(session.poll_blocked(11, 5000), BlockedPoll::Pending);
    session.kernel.blocked = Some(BlockedKind::Sleep);
    assert_eq!(session.poll_blocked(11, 5000), BlockedPoll::Complete);
    assert_eq!(session.complete_blocked(11), Status::Success);
}

#[test]
fn a_joined_thread_is_described_and_reaped() {
    let mut kernel = Mock::default();
    kernel.blocked = Some(BlockedKind::Join);
    kernel.ended_join = Some(EndedJoin {
        target: 4,
        output_address: 0x7000,
        completion: Some(Status::Success),
    });
    let mut session = session(kernel);
    assert_eq!(session.complete_blocked(11), Status::Success);
    let (address, written) = session.kernel.written.last().unwrap();
    assert_eq!(*address, 0x7000);
    assert_eq!(written.len(), 64);
    assert!(session.kernel.asked.contains(&Call::ReapThread { thread: 4 }));
}

#[test]
fn targets_of_requests_name_the_node() {
    let node = Node {
        node_id: 2,
        generation: 5,
    };
    assert_eq!(filesystem_request_target(node), (5 << 32) | 2);
    assert_eq!(
        directory_request_target(None),
        REQUEST_TARGET_FILESYSTEM_ROOT
    );
}

#[test]
fn statuses_are_sign_extended() {
    assert_eq!(return_register(&abi(), Status::Success), 0);
    assert_eq!(return_register(&abi(), Status::AccessDenied), u64::MAX);
    assert_eq!(
        return_register(&abi(), Status::Other(i32::MIN)),
        0xffff_ffff_8000_0000
    );
    assert_eq!(return_register(&abi(), Status::Other(i32::MAX)), 0x7fff_ffff);
}

#[test]
fn a_request_whose_count_cannot_be_written_is_not_a_success() {
    assert_eq!(
        blocked_request_return_status(true, Status::Success, Status::InvalidAddress),
        Status::InvalidAddress
    );
    assert_eq!(
        blocked_request_return_status(true, Status::Io, Status::InvalidAddress),
        Status::Io
    );
}

#[test]
fn a_count_that_cannot_be_written_is_told() {
    let mut kernel = Mock::default();
    kernel
        .refused
        .push((Call::AddressSpaceActive, Status::InvalidAddress));
    let mut session = session(kernel);
    session.kernel.blocked = Some(BlockedKind::Request);
    session.kernel.ended_request = Some(EndedRequest {
        completion: RequestSubmitOutput {
            request: abi().invalid_handle,
            state: abi().request_states.completed,
            result: 0,
            result_flags: 0,
            bytes_transferred: 16,
        },
        operation_status: Some(Status::Success),
        output: None,
        count_output: Some(PinnedOutput {
            address: 0x7000,
            pages: 0x7001,
        }),
        hidden_handle: Handle(77),
        return_operation_status: true,
    });
    assert_eq!(session.complete_blocked(11), Status::InvalidAddress);
    assert_eq!(told(&session), Status::InvalidAddress);
    assert!(session.kernel.asked.contains(&Call::Unpin { pages: 0x7001 }));
    assert!(session.kernel.asked.contains(&Call::FinishRequest { thread: 11 }));
    assert!(session.kernel.written.is_empty());
}
