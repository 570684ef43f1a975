//! The system call that makes a process.
use vstd::prelude::*;

use crate::bytes::{le32_at, le64_at, read_u32, read_u64};

use super::abi::{contains_bits, has_bits, within, Abi, Handle, ObjectType, Status};
use super::kernel::{
    asked_at, asked_from, ended_at, extends, failed_in, passed, rejected, stopped_at, Ask, Call,
    Event, Kernel, ProcessLimits, Session,
};
use super::request_wire::Node;
use super::wire::{
    array_bytes, bounded_startup_length, checked_array_bytes, dispositions_in, encode_handle_output,
    handle_record, memory_policy_in, parse_dispositions, parse_process_memory_policy,
    HandleOperationDisposition, MemoryPolicy, HANDLE_DISPOSITION_SIZE, HANDLE_OUTPUT_SIZE,
    PROCESS_MEMORY_POLICY_SIZE,
};

verus! {

broadcast use super::heard::group_heard;

/// Bytes of a record of a process to be made.
pub const PROCESS_CREATE_ARGS_SIZE: usize = 64;

/// Bytes of a record of a process to be made with limits of its own.
pub const PROCESS_CREATE_ARGS2_SIZE: usize = 80;

/// A process that is to be made.
#[derive(Clone, Copy, Debug, PartialEq, Eq, Structural)]
pub struct ProcessCreateArgs {
    pub executable: Handle,
    pub args_address: u64,
    pub args_length: usize,
    pub dispositions_address: u64,
    pub disposition_count: usize,
    pub config_address: u64,
    pub config_length: usize,
    pub output_address: u64,
    /// Where the limits are, if there are any.
    pub policy_address: Option<u64>,
}

/// Bytes of a record of a process to be made.
pub open spec fn create_args_size(extended: bool) -> usize {
    if extended {
        PROCESS_CREATE_ARGS2_SIZE
    } else {
        PROCESS_CREATE_ARGS_SIZE
    }
}

/// A record of a process that is to be made.
pub open spec fn create_args_in(abi: Abi, raw: Seq<u8>, extended: bool) -> Result<
    ProcessCreateArgs,
    Status,
> {
    let most = abi.limits.startup_bytes as u64;
    let args = array_bytes(le64_at(raw, 16) as u64, 1, most, Status::ResourceLimit);
    let count = array_bytes(
        le64_at(raw, 32) as u64,
        1,
        abi.limits.startup_handles as u64,
        Status::ResourceLimit,
    );
    let config = array_bytes(le64_at(raw, 48) as u64, 1, most, Status::ResourceLimit);
    if raw.len() != create_args_size(extended) || le32_at(raw, 4) != 0 {
        Err(Status::InvalidArgument)
    } else if args is Err {
        Err(args->Err_0)
    } else if count is Err {
        Err(count->Err_0)
    } else if config is Err {
        Err(config->Err_0)
    } else if extended && (le32_at(raw, 64) != 1 || le32_at(raw, 68) != PROCESS_CREATE_ARGS2_SIZE) {
        Err(Status::InvalidArgument)
    } else {
        Ok(
            ProcessCreateArgs {
                executable: Handle(le32_at(raw, 0) as u32),
                args_address: le64_at(raw, 8) as u64,
                args_length: args->Ok_0,
                dispositions_address: le64_at(raw, 24) as u64,
                disposition_count: count->Ok_0,
                config_address: le64_at(raw, 40) as u64,
                config_length: config->Ok_0,
                output_address: le64_at(raw, 56) as u64,
                policy_address: if extended {
                    Some(le64_at(raw, 72) as u64)
                } else {
                    None
                },
            },
        )
    }
}

/// Reads a record of a process that is to be made.
pub fn parse_process_create_args(abi: &Abi, raw: &[u8], extended: bool) -> (result: Result<
    ProcessCreateArgs,
    Status,
>)
    ensures
        result == create_args_in(*abi, raw@, extended),
{
    let size: usize = if extended {
        PROCESS_CREATE_ARGS2_SIZE
    } else {
        PROCESS_CREATE_ARGS_SIZE
    };
    if raw.len() != size || read_u32(raw, 4) != 0 {
        return Err(Status::InvalidArgument);
    }
    let args_length: usize = bounded_startup_length(abi, read_u64(raw, 16))?;
    let disposition_count: usize = checked_array_bytes(
        read_u64(raw, 32),
        1,
        abi.limits.startup_handles as u64,
        Status::ResourceLimit,
    )?;
    let config_length: usize = bounded_startup_length(abi, read_u64(raw, 48))?;
    let policy_address: Option<u64> = if extended {
        if read_u32(raw, 64) != 1 || read_u32(raw, 68) != PROCESS_CREATE_ARGS2_SIZE as u32 {
            return Err(Status::InvalidArgument);
        }
        Some(read_u64(raw, 72))
    } else {
        None
    };
    Ok(
        ProcessCreateArgs {
            executable: Handle(read_u32(raw, 0)),
            args_address: read_u64(raw, 8),
            args_length,
            dispositions_address: read_u64(raw, 24),
            disposition_count,
            config_address: read_u64(raw, 40),
            config_length,
            output_address: read_u64(raw, 56),
            policy_address,
        },
    )
}

/// The rights that application data may be handed over with: reading, at most reading and
/// writing.
pub open spec fn data_rights_allowed(abi: Abi, rights: u32) -> bool {
    &&& has_bits(rights, abi.rights.read)
    &&& within(rights, abi.rights.read | abi.rights.write)
    &&& !has_bits(rights, abi.rights.transfer)
}

/// Which of the first `count` handles is application data, by what each of them names.
pub open spec fn data_index(
    abi: Abi,
    dispositions: Seq<HandleOperationDisposition>,
    log: Seq<Event>,
    at: int,
    count: nat,
) -> Result<Option<usize>, Status>
    decreases count,
{
    if count == 0 {
        Ok(None)
    } else {
        match data_index(abi, dispositions, log, at, (count - 1) as nat) {
            Err(status) => Err(status),
            Ok(found) => match log[at + count - 1].answer->ObjectType_0 {
                Err(status) => Err(status),
                Ok(ObjectType::ApplicationData) => if found is Some {
                    Err(Status::InvalidArgument)
                } else if !data_rights_allowed(abi, dispositions[count - 1].rights) {
                    Err(Status::InvalidRights)
                } else {
                    Ok(Some((count - 1) as usize))
                },
                Ok(_) => Ok(found),
            },
        }
    }
}

/// What the first `count` handles name was asked for.
pub open spec fn types_asked(
    dispositions: Seq<HandleOperationDisposition>,
    log: Seq<Event>,
    at: int,
    count: int,
) -> bool {
    forall|i: int|
        0 <= i < count ==> log[at + i].ask == Ask::Plain(
            Call::ObjectType { handle: (#[trigger] dispositions[i]).handle },
        )
}

/// What every handle names was found out, and at most one of them is application data.
pub open spec fn data_ok(
    abi: Abi,
    dispositions: Seq<HandleOperationDisposition>,
    log: Seq<Event>,
    at: int,
) -> bool {
    &&& at + dispositions.len() <= log.len()
    &&& types_asked(dispositions, log, at, dispositions.len() as int)
    &&& data_index(abi, dispositions, log, at, dispositions.len()) is Ok
}

/// A handle was refused at the last event.
pub open spec fn data_failed<T>(
    abi: Abi,
    dispositions: Seq<HandleOperationDisposition>,
    log: Seq<Event>,
    at: int,
    result: Result<T, Status>,
) -> bool {
    let made = log.len() - at;
    &&& 0 < made <= dispositions.len()
    &&& types_asked(dispositions, log, at, made)
    &&& data_index(abi, dispositions, log, at, (made - 1) as nat) is Ok
    &&& data_index(abi, dispositions, log, at, made as nat) is Err
    &&& result == Err::<T, Status>(data_index(abi, dispositions, log, at, made as nat)->Err_0)
}

/// The events up to `at` decide which handle is application data.
proof fn lemma_data_index_stays(
    abi: Abi,
    dispositions: Seq<HandleOperationDisposition>,
    less: Seq<Event>,
    more: Seq<Event>,
    at: int,
    count: nat,
)
    requires
        extends(less, more),
        0 <= at,
        at + count <= less.len(),
    ensures
        data_index(abi, dispositions, more, at, count) == data_index(
            abi,
            dispositions,
            less,
            at,
            count,
        ),
    decreases count,
{
    if count > 0 {
        lemma_data_index_stays(abi, dispositions, less, more, at, (count - 1) as nat);
        assert(more[at + count - 1] == less[at + count - 1]);
    }
}

/// The limits that a child is asked for.
pub open spec fn requested_limits(policy: Option<MemoryPolicy>, inherited: ProcessLimits) -> Option<
    ProcessLimits,
> {
    match policy {
        None => None,
        Some(values) => Some(
            ProcessLimits {
                private_pages: values.private_pages,
                shared_memory_bytes: values.shared_memory_bytes,
                mapped_shared_bytes: values.mapped_shared_bytes,
                reserved_virtual_bytes: values.reserved_virtual_bytes,
                vma_count: values.vma_count,
                executable_image_pages: values.executable_image_pages,
                executable_source_bytes: values.executable_source_bytes,
                channel_traffic_bytes: inherited.channel_traffic_bytes,
                cpu_quantum_ns: inherited.cpu_quantum_ns,
            },
        ),
    }
}

/// The limits that a child is asked for.
pub fn child_limits_wanted(policy: Option<MemoryPolicy>, inherited: ProcessLimits) -> (requested:
    Option<ProcessLimits>)
    ensures
        requested == requested_limits(policy, inherited),
{
    match policy {
        None => None,
        Some(values) => Some(
            ProcessLimits {
                private_pages: values.private_pages,
                shared_memory_bytes: values.shared_memory_bytes,
                mapped_shared_bytes: values.mapped_shared_bytes,
                reserved_virtual_bytes: values.reserved_virtual_bytes,
                vma_count: values.vma_count,
                executable_image_pages: values.executable_image_pages,
                executable_source_bytes: values.executable_source_bytes,
                channel_traffic_bytes: inherited.channel_traffic_bytes,
                cpu_quantum_ns: inherited.cpu_quantum_ns,
            },
        ),
    }
}

/// The handles have moved to the child; it is given what it starts with, and its parent
/// the handle to it. What is answered to that changes nothing.
pub open spec fn child_started(
    process: Handle,
    data: Option<usize>,
    output_address: u64,
    handles: Seq<Handle>,
    log: Seq<Event>,
    at: int,
    result: Result<(), Status>,
) -> bool {
    let marked = match data {
        Some(index) => if index < handles.len() {
            seq![Ask::Plain(Call::SetChildApplicationData { handle: handles[index as int] })]
        } else {
            Seq::empty()
        },
        None => Seq::empty(),
    };
    &&& result is Ok
    &&& asked_from(
        log,
        at,
        marked + seq![
            Ask::InstallStartup(handles),
            Ask::With(Call::CopyOut { address: output_address }, handle_record(process)),
        ],
    )
}

/// A child was made; its parent gets a handle to it, and the child the handles that are
/// handed over. Where that fails, the child is reclaimed.
pub open spec fn child_connected(
    dispositions: Seq<HandleOperationDisposition>,
    data: Option<usize>,
    output_address: u64,
    log: Seq<Event>,
    at: int,
    result: Result<(), Status>,
) -> bool {
    let process = log[at].handle();
    &&& asked_at(log, at, Ask::Plain(Call::CreateProcessHandle))
    &&& match log[at].refused() {
        Some(status) => result == Err::<(), Status>(status) && asked_from(
            log,
            at + 1,
            seq![Ask::Plain(Call::ReclaimChild)],
        ),
        None => {
            &&& asked_at(log, at + 1, Ask::Plain(Call::AttachChild { process }))
            &&& asked_at(log, at + 2, Ask::TransferHandles(dispositions))
            &&& match log[at + 2].refused() {
                Some(status) => result == Err::<(), Status>(status) && asked_from(
                    log,
                    at + 3,
                    seq![
                        Ask::Plain(Call::CloseHandle { handle: process }),
                        Ask::Plain(Call::ReclaimChild),
                    ],
                ),
                None => child_started(
                    process,
                    data,
                    output_address,
                    log[at + 2].answer->NewHandles_0->Ok_0,
                    log,
                    at + 3,
                    result,
                ),
            }
        },
    }
}

/// The image of a child is read from event `at` on, within the limits that the child is
/// given, and the child is made.
pub open spec fn child_made(
    file: Node,
    length: u64,
    policy: Option<MemoryPolicy>,
    dispositions: Seq<HandleOperationDisposition>,
    data: Option<usize>,
    output_address: u64,
    log: Seq<Event>,
    at: int,
    result: Result<(), Status>,
) -> bool {
    if length > usize::MAX {
        log.len() == at && result == Err::<(), Status>(Status::ResourceLimit)
    } else {
        &&& asked_at(log, at, Ask::ChildLimits(None))
        &&& match log[at].answer->ChildLimits_0 {
            None => stopped_at(log, at, result, Status::ResourceLimit),
            Some(inherited) => {
                &&& asked_at(log, at + 1, Ask::ChildLimits(requested_limits(policy, inherited)))
                &&& match log[at + 1].answer->ChildLimits_0 {
                    None => stopped_at(log, at + 1, result, Status::ResourceLimit),
                    Some(limits) => if length == 0 || length > limits.executable_source_bytes {
                        stopped_at(log, at + 1, result, Status::ResourceLimit)
                    } else {
                        child_loaded(
                            file,
                            length as usize,
                            limits,
                            dispositions,
                            data,
                            output_address,
                            log,
                            at + 2,
                            result,
                        )
                    },
                }
            },
        }
    }
}

/// The image of a child is read from event `at` on, and the child is made of it.
pub open spec fn child_loaded(
    file: Node,
    length: usize,
    limits: ProcessLimits,
    dispositions: Seq<HandleOperationDisposition>,
    data: Option<usize>,
    output_address: u64,
    log: Seq<Event>,
    at: int,
    result: Result<(), Status>,
) -> bool {
    let image = log[at].bytes();
    &&& asked_at(log, at, Ask::Plain(Call::ReadFile { file, offset: 0, length }))
    &&& if log[at].refused() is Some {
        ended_at(log, at, result)
    } else if image.len() != length {
        stopped_at(log, at, result, Status::Io)
    } else {
        &&& asked_at(log, at + 1, Ask::MakeChild { image, limits })
        &&& if log[at + 1].refused() is Some {
            ended_at(log, at + 1, result)
        } else {
            child_connected(dispositions, data, output_address, log, at + 2, result)
        }
    }
}

/// What a child starts with is checked from event `at` on, its executable found, and the
/// child made.
pub open spec fn child_prepared(
    abi: Abi,
    args: ProcessCreateArgs,
    policy: Option<MemoryPolicy>,
    startup: Seq<u8>,
    config: Seq<u8>,
    dispositions: Seq<HandleOperationDisposition>,
    log: Seq<Event>,
    at: int,
    result: Result<(), Status>,
) -> bool {
    let next = at + dispositions.len();
    let first = seq![
        Ask::PrepareStartup { args: startup, config, handle_count: args.disposition_count },
        Ask::Plain(Call::File { handle: args.executable, rights: abi.rights.execute }),
        Ask::Plain(Call::FileLength { file: log[next + 1].node() }),
    ];
    ||| data_failed(abi, dispositions, log, at, result)
    ||| {
        &&& data_ok(abi, dispositions, log, at)
        &&& {
            ||| failed_in(log, next, first, result)
            ||| passed(log, next, first) && child_made(
                log[next + 1].node(),
                log[next + 2].number(),
                policy,
                dispositions,
                data_index(abi, dispositions, log, at, dispositions.len())->Ok_0,
                args.output_address,
                log,
                next + 3,
                result,
            )
        }
    }
}

/// What a child is to start with is read from event `at` on, then the child is made.
pub open spec fn child_described(
    abi: Abi,
    args: ProcessCreateArgs,
    policy: Option<MemoryPolicy>,
    log: Seq<Event>,
    at: int,
    result: Result<(), Status>,
) -> bool {
    if args.args_length + args.config_length > abi.limits.startup_bytes {
        log.len() == at && result == Err::<(), Status>(Status::ResourceLimit)
    } else {
        let raw = log[at + 3].bytes();
        let first = seq![
            Ask::Plain(
                Call::CheckOutput { address: args.output_address, length: HANDLE_OUTPUT_SIZE },
            ),
            Ask::Plain(Call::CopyIn { address: args.args_address, length: args.args_length }),
            Ask::Plain(Call::CopyIn { address: args.config_address, length: args.config_length }),
        ];
        ||| failed_in(log, at, first, result)
        ||| passed(log, at, first) && match array_bytes(
            args.disposition_count as u64,
            HANDLE_DISPOSITION_SIZE,
            abi.limits.startup_handles as u64,
            Status::ResourceLimit,
        ) {
            Err(status) => stopped_at(log, at + 2, result, status),
            Ok(length) => {
                &&& asked_at(
                    log,
                    at + 3,
                    Ask::Plain(Call::CopyIn { address: args.dispositions_address, length }),
                )
                &&& if log[at + 3].refused() is Some {
                    ended_at(log, at + 3, result)
                } else {
                    match dispositions_in(abi, raw, (raw.len() / 16) as nat) {
                        Err(status) => stopped_at(log, at + 3, result, status),
                        Ok(dispositions) => child_prepared(
                            abi,
                            args,
                            policy,
                            log[at + 1].bytes(),
                            log[at + 2].bytes(),
                            dispositions,
                            log,
                            at + 4,
                            result,
                        ),
                    }
                }
            },
        }
    }
}

/// A child is made by the record at `args_address`.
pub open spec fn child_created(
    abi: Abi,
    args_address: u64,
    extended: bool,
    log: Seq<Event>,
    base: int,
    result: Result<(), Status>,
) -> bool {
    &&& asked_at(
        log,
        base,
        Ask::Plain(Call::CopyIn { address: args_address, length: create_args_size(extended) }),
    )
    &&& if log[base].refused() is Some {
        ended_at(log, base, result)
    } else {
        match create_args_in(abi, log[base].bytes(), extended) {
            Err(status) => stopped_at(log, base, result, status),
            Ok(args) => match args.policy_address {
                None => child_described(abi, args, None, log, base + 1, result),
                Some(address) => {
                    &&& asked_at(
                        log,
                        base + 1,
                        Ask::Plain(Call::CopyIn { address, length: PROCESS_MEMORY_POLICY_SIZE }),
                    )
                    &&& if log[base + 1].refused() is Some {
                        ended_at(log, base + 1, result)
                    } else {
                        match memory_policy_in(abi, log[base + 1].bytes()) {
                            Err(status) => stopped_at(log, base + 1, result, status),
                            Ok(policy) => child_described(
                                abi,
                                args,
                                Some(policy),
                                log,
                                base + 2,
                                result,
                            ),
                        }
                    }
                },
            },
        }
    }
}

/// What `process_create` asks for, and what comes of it.
pub open spec fn did_process_create(
    abi: Abi,
    args_address: u64,
    child_slot_reserved: bool,
    extended: bool,
    before: Seq<Event>,
    log: Seq<Event>,
    result: Result<(), Status>,
) -> bool {
    if !child_slot_reserved {
        rejected(before, log, result, Status::ResourceLimit)
    } else {
        child_created(
            abi,
            args_address,
            extended,
            log,
            before.len() as int,
            result,
        )
    }
}

impl<K: Kernel> Session<K> {
    /// Finds the one handle that is application data.
    pub fn application_data_disposition_index(
        &mut self,
        dispositions: &[HandleOperationDisposition],
    ) -> (result: Result<Option<usize>, Status>)
        ensures
            final(self).kept(*old(self)),
            ({
                let log = final(self).log@;
                let at = old(self).log@.len() as int;
                match result {
                    Ok(found) => {
                        &&& data_ok(old(self).abi, dispositions@, log, at)
                        &&& log.len() == at + dispositions@.len()
                        &&& found == data_index(
                            old(self).abi,
                            dispositions@,
                            log,
                            at,
                            dispositions@.len(),
                        )->Ok_0
                    },
                    Err(_) => data_failed(old(self).abi, dispositions@, log, at, result),
                }
            }),
    {
        let ghost at = self.log@.len() as int;
        let ghost abi = self.abi;
        let mut found: Option<usize> = None;
        let mut index: usize = 0;
        while index < dispositions.len()
            invariant
                index <= dispositions@.len(),
                abi == self.abi,
                abi == old(self).abi,
                at == old(self).log@.len(),
                self.kept(*old(self)),
                self.log@.len() == at + index,
                types_asked(dispositions@, self.log@, at, index as int),
                data_index(abi, dispositions@, self.log@, at, index as nat) == Ok::<
                    Option<usize>,
                    Status,
                >(found),
            decreases dispositions@.len() - index,
        {
            let ghost before = self.log@;
            let asked: Result<ObjectType, Status> = self.object_type(dispositions[index].handle);
            proof {
                lemma_data_index_stays(
                    abi,
                    dispositions@,
                    before,
                    self.log@,
                    at,
                    index as nat,
                );
                assert(self.log@[at + index].answer->ObjectType_0 == asked);
            }
            let named: ObjectType = asked?;
            if named == ObjectType::ApplicationData {
                if found.is_some() {
                    return Err(Status::InvalidArgument);
                }
                let rights: u32 = dispositions[index].rights;
                let allowed: u32 = self.abi.rights.read | self.abi.rights.write;
                if !contains_bits(rights, self.abi.rights.read)
                    || super::abi::checked_bits(rights, allowed).is_none() || contains_bits(
                    rights,
                    self.abi.rights.transfer,
                ) {
                    return Err(Status::InvalidRights);
                }
                found = Some(index);
            }
            index += 1;
        }
        Ok(found)
    }

    /// Gives the child what it starts with.
    fn start_child(
        &mut self,
        process: Handle,
        data: Option<usize>,
        output_address: u64,
        handles: &[Handle],
    ) -> (result: Result<(), Status>)
        ensures
            final(self).kept(*old(self)),
            child_started(
                process,
                data,
                output_address,
                handles@,
                final(self).log@,
                old(self).log@.len() as int,
                result,
            ),
    {
        if let Some(index) = data {
            if index < handles.len() {
                let _ = self.done(Call::SetChildApplicationData { handle: handles[index] });
            }
        }
        let _ = self.install_startup(handles);
        let output: Vec<u8> = encode_handle_output(process);
        let _ = self.copy_out(output_address, output.as_slice());
        Ok(())
    }

    /// Connects a child with its parent.
    fn connect_child(
        &mut self,
        dispositions: &[HandleOperationDisposition],
        data: Option<usize>,
        output_address: u64,
    ) -> (result: Result<(), Status>)
        ensures
            final(self).kept(*old(self)),
            child_connected(
                dispositions@,
                data,
                output_address,
                final(self).log@,
                old(self).log@.len() as int,
                result,
            ),
    {
        let process: Handle = match self.handle(Call::CreateProcessHandle) {
            Ok(process) => process,
            Err(status) => {
                let _ = self.done(Call::ReclaimChild);
                return Err(status);
            },
        };
        let _ = self.done(Call::AttachChild { process });
        let handles: Vec<Handle> = match self.transfer_handles(dispositions) {
            Ok(handles) => handles,
            Err(status) => {
                let _ = self.done(Call::CloseHandle { handle: process });
                let _ = self.done(Call::ReclaimChild);
                return Err(status);
            },
        };
        self.start_child(process, data, output_address, handles.as_slice())
    }

    /// Makes a child of an executable, within its limits.
    fn make_limited_child(
        &mut self,
        file: Node,
        length: u64,
        policy: Option<MemoryPolicy>,
        dispositions: &[HandleOperationDisposition],
        data: Option<usize>,
        output_address: u64,
    ) -> (result: Result<(), Status>)
        ensures
            final(self).kept(*old(self)),
            child_made(
                file,
                length,
                policy,
                dispositions@,
                data,
                output_address,
                final(self).log@,
                old(self).log@.len() as int,
                result,
            ),
    {
        if length > usize::MAX as u64 {
            return Err(Status::ResourceLimit);
        }
        let inherited: ProcessLimits = match self.child_limits(None) {
            Some(limits) => limits,
            None => {
                return Err(Status::ResourceLimit);
            },
        };
        let requested: Option<ProcessLimits> = child_limits_wanted(policy, inherited);
        let limits: ProcessLimits = match self.child_limits(requested) {
            Some(limits) => limits,
            None => {
                return Err(Status::ResourceLimit);
            },
        };
        if length == 0 || length > limits.executable_source_bytes {
            return Err(Status::ResourceLimit);
        }
        let length: usize = length as usize;
        let image: Vec<u8> = self.bytes(Call::ReadFile { file, offset: 0, length })?;
        if image.len() != length {
            return Err(Status::Io);
        }
        self.make_child(image.as_slice(), limits)?;
        self.connect_child(dispositions, data, output_address)
    }

    /// Checks what a child starts with, and makes the child.
    fn prepare_child(
        &mut self,
        args: &ProcessCreateArgs,
        policy: Option<MemoryPolicy>,
        startup: &[u8],
        config: &[u8],
        dispositions: &[HandleOperationDisposition],
    ) -> (result: Result<(), Status>)
        ensures
            final(self).kept(*old(self)),
            child_prepared(
                old(self).abi,
                *args,
                policy,
                startup@,
                config@,
                dispositions@,
                final(self).log@,
                old(self).log@.len() as int,
                result,
            ),
    {
        let ghost at = self.log@.len() as int;
        let ghost abi = self.abi;
        let data: Option<usize> = self.application_data_disposition_index(dispositions)?;
        let ghost known = self.log@;
        let checked: Result<(), Status> = self.prepare_startup(
            startup,
            config,
            args.disposition_count,
        );
        proof {
            lemma_data_index_stays(abi, dispositions@, known, self.log@, at, dispositions@.len());
        }
        checked?;
        let rights: u32 = self.abi.rights.execute;
        let found: Result<Node, Status> = self.node(Call::File { handle: args.executable, rights });
        proof {
            lemma_data_index_stays(abi, dispositions@, known, self.log@, at, dispositions@.len());
        }
        let file: Node = found?;
        let measured: Result<u64, Status> = self.number(Call::FileLength { file });
        proof {
            lemma_data_index_stays(abi, dispositions@, known, self.log@, at, dispositions@.len());
        }
        let length: u64 = measured?;
        let result: Result<(), Status> = self.make_limited_child(
            file,
            length,
            policy,
            dispositions,
            data,
            args.output_address,
        );
        proof {
            lemma_data_index_stays(abi, dispositions@, known, self.log@, at, dispositions@.len());
        }
        result
    }

    /// Reads what a child is to start with, and makes the child.
    fn describe_child(&mut self, args: &ProcessCreateArgs, policy: Option<MemoryPolicy>) -> (result:
        Result<(), Status>)
        ensures
            final(self).kept(*old(self)),
            child_described(
                old(self).abi,
                *args,
                policy,
                final(self).log@,
                old(self).log@.len() as int,
                result,
            ),
    {
        let most: usize = self.abi.limits.startup_bytes as usize;
        if args.args_length > most || args.config_length > most - args.args_length {
            return Err(Status::ResourceLimit);
        }
        self.check_output(args.output_address, HANDLE_OUTPUT_SIZE)?;
        let startup: Vec<u8> = self.copy_in(args.args_address, args.args_length)?;
        let config: Vec<u8> = self.copy_in(args.config_address, args.config_length)?;
        let length: usize = checked_array_bytes(
            args.disposition_count as u64,
            HANDLE_DISPOSITION_SIZE,
            self.abi.limits.startup_handles as u64,
            Status::ResourceLimit,
        )?;
        let raw: Vec<u8> = self.copy_in(args.dispositions_address, length)?;
        let dispositions: Vec<HandleOperationDisposition> = parse_dispositions(
            &self.abi,
            raw.as_slice(),
        )?;
        self.prepare_child(
            args,
            policy,
            startup.as_slice(),
            config.as_slice(),
            dispositions.as_slice(),
        )
    }

    /// Makes a process. A slot for it must have been reserved.
    pub fn process_create(&mut self, args_address: u64, child_slot_reserved: bool, extended: bool) -> (result:
        Result<(), Status>)
        ensures
            final(self).kept(*old(self)),
            did_process_create(
                old(self).abi,
                args_address,
                child_slot_reserved,
                extended,
                old(self).log@,
                final(self).log@,
                result,
            ),
    {
        if !child_slot_reserved {
            return Err(Status::ResourceLimit);
        }
        let size: usize = if extended {
            PROCESS_CREATE_ARGS2_SIZE
        } else {
            PROCESS_CREATE_ARGS_SIZE
        };
        let raw: Vec<u8> = self.copy_in(args_address, size)?;
        let args: ProcessCreateArgs = parse_process_create_args(
            &self.abi,
            raw.as_slice(),
            extended,
        )?;
        let policy: Option<MemoryPolicy> = match args.policy_address {
            None => None,
            Some(address) => {
                let limits: Vec<u8> = self.copy_in(address, PROCESS_MEMORY_POLICY_SIZE)?;
                let policy: MemoryPolicy = parse_process_memory_policy(
                    &self.abi,
                    limits.as_slice(),
                )?;
                Some(policy)
            },
        };
        self.describe_child(&args, policy)
    }
}

} // verus!
