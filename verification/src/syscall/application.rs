//! System calls on processes that exist, on the power of the machine and on the data of
//! applications.
use vstd::prelude::*;
use vstd::utf8::valid_utf8;

use crate::bytes::{
    le32_at, le64_at, le_bytes, pattern32, push_i32, push_u32, push_u64, read_u32, read_u64,
};
use crate::text::utf8_text;

use super::abi::{Abi, Handle, Status};
use super::files::given;
use super::handles::close_asks;
use super::kernel::{
    asked_at, asked_from, ended_at, failed_in, passed, ran_through, rejected, stopped_at, Ask,
    Call, Event, Kernel, PowerFacts, ProcessFacts, Session,
};
use super::request_wire::Node;
use super::wire::{
    array_bytes, checked_array_bytes, decode_flags, decode_handle, flags_in, handle_in,
    HANDLE_OUTPUT_SIZE,
};

verus! {

broadcast use super::heard::group_heard;

/// Bytes of how a process ended.
pub const PROCESS_INFO_SIZE: usize = 32;

/// Bytes of how far a request to power off has come.
pub const SYSTEM_POWER_INFO_SIZE: usize = 32;

/// How long powering off can be canceled.
pub const SYSTEM_POWER_CANCELLATION_NS: u64 = 2_000_000_000;

/// Bytes of a record of application data that is to be made.
pub const APPLICATION_DATA_CREATE_ARGS_SIZE: usize = 32;

/// The name of the directory that the data of applications lies in.
pub open spec fn appdata_name() -> Seq<u8> {
    seq![0x61, 0x70, 0x70, 0x64, 0x61, 0x74, 0x61]
}

/// The record of how a process ended.
pub open spec fn process_record(facts: ProcessFacts) -> Seq<u8> {
    le_bytes(facts.state as int, 4) + le_bytes(facts.cause as int, 4) + le_bytes(
        pattern32(facts.exit_code as int),
        4,
    ) + le_bytes(facts.fault as int, 4) + le_bytes(facts.fault_code as int, 8) + le_bytes(
        facts.fault_address as int,
        8,
    )
}

/// Writes the record of how a process ended.
pub fn encode_process_info(facts: &ProcessFacts) -> (output: Vec<u8>)
    ensures
        output@ == process_record(*facts),
        output@.len() == PROCESS_INFO_SIZE,
{
    let mut output: Vec<u8> = Vec::new();
    push_u32(&mut output, facts.state);
    push_u32(&mut output, facts.cause);
    push_i32(&mut output, facts.exit_code);
    push_u32(&mut output, facts.fault);
    push_u64(&mut output, facts.fault_code);
    push_u64(&mut output, facts.fault_address);
    output
}

/// The record of how far a request to power off has come.
pub open spec fn power_record(facts: PowerFacts) -> Seq<u8> {
    le_bytes(facts.state as int, 4) + le_bytes(facts.action as int, 4) + le_bytes(
        facts.flags as int,
        4,
    ) + le_bytes(pattern32(facts.failure_status as int), 4) + le_bytes(facts.sequence as int, 8)
        + le_bytes(facts.deadline_ns as int, 8)
}

/// Writes the record of how far a request to power off has come.
pub fn encode_power_info(facts: &PowerFacts) -> (output: Vec<u8>)
    ensures
        output@ == power_record(*facts),
        output@.len() == SYSTEM_POWER_INFO_SIZE,
{
    let mut output: Vec<u8> = Vec::new();
    push_u32(&mut output, facts.state);
    push_u32(&mut output, facts.action);
    push_u32(&mut output, facts.flags);
    push_i32(&mut output, facts.failure_status);
    push_u64(&mut output, facts.sequence);
    push_u64(&mut output, facts.deadline_ns);
    output
}

/// Application data that is to be made.
#[derive(Clone, Copy, Debug, PartialEq, Eq, Structural)]
pub struct ApplicationDataCreateRequest {
    pub root: Handle,
    pub app_id_address: u64,
    pub app_id_length: usize,
    pub output_address: u64,
}

/// A record of application data that is to be made.
pub open spec fn application_args_in(abi: Abi, raw: Seq<u8>) -> Result<
    ApplicationDataCreateRequest,
    Status,
> {
    if raw.len() != APPLICATION_DATA_CREATE_ARGS_SIZE || le32_at(raw, 4) != 0 {
        Err(Status::InvalidArgument)
    } else {
        match array_bytes(
            le64_at(raw, 16) as u64,
            1,
            abi.limits.app_id_bytes as u64,
            Status::InvalidArgument,
        ) {
            Err(status) => Err(status),
            Ok(app_id_length) => Ok(
                ApplicationDataCreateRequest {
                    root: Handle(le32_at(raw, 0) as u32),
                    app_id_address: le64_at(raw, 8) as u64,
                    app_id_length,
                    output_address: le64_at(raw, 24) as u64,
                },
            ),
        }
    }
}

/// Reads a record of application data that is to be made.
pub fn parse_application_data_create_args(abi: &Abi, raw: &[u8]) -> (result: Result<
    ApplicationDataCreateRequest,
    Status,
>)
    ensures
        result == application_args_in(*abi, raw@),
{
    if raw.len() != APPLICATION_DATA_CREATE_ARGS_SIZE || read_u32(raw, 4) != 0 {
        return Err(Status::InvalidArgument);
    }
    let app_id_length: usize = checked_array_bytes(
        read_u64(raw, 16),
        1,
        abi.limits.app_id_bytes as u64,
        Status::InvalidArgument,
    )?;
    Ok(
        ApplicationDataCreateRequest {
            root: Handle(read_u32(raw, 0)),
            app_id_address: read_u64(raw, 8),
            app_id_length,
            output_address: read_u64(raw, 24),
        },
    )
}

/// The directory was opened at event `at`, or made after it was not found.
pub open spec fn ensured_ok(directory: Node, name: Seq<u8>, log: Seq<Event>, at: int) -> bool {
    &&& asked_at(log, at, Ask::With(Call::OpenDirectoryAt { directory }, name))
    &&& match log[at].refused() {
        None => true,
        Some(status) => {
            &&& status == Status::NotFound
            &&& asked_at(log, at + 1, Ask::With(Call::CreateDirectoryAt { directory }, name))
            &&& log[at + 1].refused() is None
        },
    }
}

/// The directory was neither opened nor made.
pub open spec fn ensured_failed<T>(
    directory: Node,
    name: Seq<u8>,
    log: Seq<Event>,
    at: int,
    result: Result<T, Status>,
) -> bool {
    &&& asked_at(log, at, Ask::With(Call::OpenDirectoryAt { directory }, name))
    &&& log[at].refused() is Some
    &&& if log[at].refused() == Some(Status::NotFound) {
        &&& asked_at(log, at + 1, Ask::With(Call::CreateDirectoryAt { directory }, name))
        &&& log[at + 1].refused() is Some
        &&& ended_at(log, at + 1, result)
    } else {
        ended_at(log, at, result)
    }
}

/// Where the log stands after the directory was opened or made.
pub open spec fn ensured_end(log: Seq<Event>, at: int) -> int {
    if log[at].refused() is None {
        at + 1
    } else {
        at + 2
    }
}

/// The directory of an application is found from event `at` on, or made.
pub open spec fn appdata_ok(app_id: Seq<u8>, log: Seq<Event>, at: int) -> bool {
    let middle = ensured_end(log, at + 1);
    &&& asked_at(log, at, Ask::Plain(Call::RootDirectory))
    &&& log[at].refused() is None
    &&& ensured_ok(log[at].node(), appdata_name(), log, at + 1)
    &&& ensured_ok(log[middle - 1].node(), app_id, log, middle)
}

/// The directory of an application was neither found nor made.
pub open spec fn appdata_failed<T>(
    app_id: Seq<u8>,
    log: Seq<Event>,
    at: int,
    result: Result<T, Status>,
) -> bool {
    let middle = ensured_end(log, at + 1);
    &&& asked_at(log, at, Ask::Plain(Call::RootDirectory))
    &&& if log[at].refused() is Some {
        ended_at(log, at, result)
    } else {
        ||| ensured_failed(log[at].node(), appdata_name(), log, at + 1, result)
        ||| ensured_ok(log[at].node(), appdata_name(), log, at + 1) && ensured_failed(
            log[middle - 1].node(),
            app_id,
            log,
            middle,
            result,
        )
    }
}

/// Where the log stands after the directory of an application was found or made.
pub open spec fn appdata_end(log: Seq<Event>, at: int) -> int {
    ensured_end(log, ensured_end(log, at + 1))
}

/// What follows once there is a handle to new application data: its directory is made and
/// the handle given to the process, or the handle is closed again.
pub open spec fn application_given(
    abi: Abi,
    handle: Handle,
    output_address: u64,
    log: Seq<Event>,
    at: int,
    result: Result<(), Status>,
) -> bool {
    let undo = close_asks(abi, seq![handle]);
    &&& asked_at(
        log,
        at,
        Ask::Plain(Call::ApplicationDataScope { handle, rights: abi.rights.read }),
    )
    &&& if log[at].refused() is Some {
        result == Err::<(), Status>(log[at].refused()->Some_0) && asked_from(log, at + 1, undo)
    } else {
        ||| {
            let known = log.len() - undo.len();
            &&& at + 1 <= known
            &&& appdata_failed(log[at].bytes(), log.take(known as int), at + 1, result)
            &&& asked_from(log, known as int, undo)
        }
        ||| appdata_ok(log[at].bytes(), log, at + 1) && given(
            abi,
            output_address,
            handle,
            log,
            appdata_end(log, at + 1),
            result,
        )
    }
}

/// Application data is made from event `at` on.
pub open spec fn application_made(
    abi: Abi,
    request: ApplicationDataCreateRequest,
    log: Seq<Event>,
    at: int,
    result: Result<(), Status>,
) -> bool {
    let first = seq![
        Ask::Plain(
            Call::CheckOutput { address: request.output_address, length: HANDLE_OUTPUT_SIZE },
        ),
        Ask::Plain(
            Call::Root { handle: request.root, rights: abi.rights.write | abi.rights.execute },
        ),
        Ask::Plain(
            Call::CopyIn { address: request.app_id_address, length: request.app_id_length },
        ),
    ];
    let app_id = log[at + 2].bytes();
    ||| failed_in(log, at, first, result)
    ||| passed(log, at, first) && if !valid_utf8(app_id) {
        stopped_at(log, at + 2, result, Status::InvalidArgument)
    } else {
        &&& asked_at(log, at + 3, Ask::With(Call::CreateApplicationData, app_id))
        &&& if log[at + 3].refused() is Some {
            ended_at(log, at + 3, result)
        } else {
            application_given(
                abi,
                log[at + 3].handle(),
                request.output_address,
                log,
                at + 4,
                result,
            )
        }
    }
}

/// What `process_get_info` asks for, and what comes of it.
pub open spec fn did_process_get_info(
    abi: Abi,
    raw_process: u64,
    output_address: u64,
    before: Seq<Event>,
    log: Seq<Event>,
    result: Result<(), Status>,
) -> bool {
    let base = before.len() as int;
    match handle_in(raw_process) {
        Err(status) => rejected(before, log, result, status),
        Ok(handle) => ran_through(
            log,
            base,
            seq![
                Ask::Plain(
                    Call::CheckOutput {
                        address: output_address,
                        length: PROCESS_INFO_SIZE,
                    },
                ),
                Ask::ProcessInfo(handle),
                Ask::With(
                    Call::CopyOut { address: output_address },
                    process_record(log[base + 1].answer->Process_0->Ok_0),
                ),
            ],
            result,
        ),
    }
}

/// What `process_terminate` asks for, and what comes of it.
pub open spec fn did_process_terminate(
    abi: Abi,
    raw_process: u64,
    before: Seq<Event>,
    log: Seq<Event>,
    result: Result<(), Status>,
) -> bool {
    match handle_in(raw_process) {
        Err(status) => rejected(before, log, result, status),
        Ok(handle) => ran_through(
            log,
            before.len() as int,
            seq![Ask::Plain(Call::ProcessTerminate { handle })],
            result,
        ),
    }
}

/// What `system_power_request` asks for, and what comes of it.
pub open spec fn did_system_power_request(
    abi: Abi,
    raw_power: u64,
    raw_action: u64,
    raw_flags: u64,
    now_ns: u64,
    before: Seq<Event>,
    log: Seq<Event>,
    result: Result<(), Status>,
) -> bool {
    let base = before.len() as int;
    match handle_in(raw_power) {
        Err(status) => rejected(before, log, result, status),
        Ok(handle) => if raw_action > u32::MAX {
            rejected(before, log, result, Status::InvalidArgument)
        } else {
            let action = raw_action as u32;
            let deadline_ns = if now_ns + SYSTEM_POWER_CANCELLATION_NS > u64::MAX {
                u64::MAX
            } else {
                (now_ns + SYSTEM_POWER_CANCELLATION_NS) as u64
            };
            &&& asked_at(log, base, Ask::Plain(Call::IsPowerAction { action }))
            &&& match log[base].answer->Flag_0 {
                Err(status) => stopped_at(log, base, result, status),
                Ok(false) => stopped_at(log, base, result, Status::InvalidArgument),
                Ok(true) => match flags_in(raw_flags, abi.power_flags) {
                    Err(status) => stopped_at(log, base, result, status),
                    Ok(flags) => ran_through(
                        log,
                        base + 1,
                        seq![
                            Ask::Plain(
                                Call::PowerRequest {
                                    handle,
                                    action,
                                    flags,
                                    deadline_ns,
                                },
                            ),
                        ],
                        result,
                    ),
                },
            }
        },
    }
}

/// What `system_power_cancel` asks for, and what comes of it.
pub open spec fn did_system_power_cancel(
    abi: Abi,
    raw_power: u64,
    before: Seq<Event>,
    log: Seq<Event>,
    result: Result<(), Status>,
) -> bool {
    match handle_in(raw_power) {
        Err(status) => rejected(before, log, result, status),
        Ok(handle) => ran_through(
            log,
            before.len() as int,
            seq![Ask::Plain(Call::PowerCancel { handle })],
            result,
        ),
    }
}

/// What `system_power_get_info` asks for, and what comes of it.
pub open spec fn did_system_power_get_info(
    abi: Abi,
    raw_power: u64,
    output_address: u64,
    before: Seq<Event>,
    log: Seq<Event>,
    result: Result<(), Status>,
) -> bool {
    let base = before.len() as int;
    match handle_in(raw_power) {
        Err(status) => rejected(before, log, result, status),
        Ok(handle) => ran_through(
            log,
            base,
            seq![
                Ask::Plain(
                    Call::CheckOutput {
                        address: output_address,
                        length: SYSTEM_POWER_INFO_SIZE,
                    },
                ),
                Ask::PowerInfo(handle),
                Ask::With(
                    Call::CopyOut { address: output_address },
                    power_record(log[base + 1].answer->Power_0->Ok_0),
                ),
            ],
            result,
        ),
    }
}

/// What `application_data_create` asks for, and what comes of it.
pub open spec fn did_application_data_create(
    abi: Abi,
    args_address: u64,
    before: Seq<Event>,
    log: Seq<Event>,
    result: Result<(), Status>,
) -> bool {
    let base = before.len() as int;
    &&& asked_at(
        log,
        base,
        Ask::Plain(
            Call::CopyIn {
                address: args_address,
                length: APPLICATION_DATA_CREATE_ARGS_SIZE,
            },
        ),
    )
    &&& if log[base].refused() is Some {
        ended_at(log, base, result)
    } else {
        match application_args_in(abi, log[base].bytes()) {
            Err(status) => stopped_at(log, base, result, status),
            Ok(request) => application_made(
                abi,
                request,
                log,
                base + 1,
                result,
            ),
        }
    }
}

/// What `application_get_data_directory` asks for, and what comes of it.
pub open spec fn did_application_get_data_directory(
    abi: Abi,
    output_address: u64,
    before: Seq<Event>,
    log: Seq<Event>,
    result: Result<(), Status>,
) -> bool {
    let base = before.len() as int;
    let first = seq![
        Ask::Plain(Call::ApplicationData),
        Ask::Plain(
            Call::CheckOutput { address: output_address, length: HANDLE_OUTPUT_SIZE },
        ),
        Ask::Plain(
            Call::ApplicationDataScope {
                handle: log[base].handle(),
                rights: abi.rights.read,
            },
        ),
    ] + appdata_plan(log[base + 2].bytes(), log, base + 3) + seq![
        Ask::Plain(
            Call::CreateDirectoryHandle {
                directory: log[base + 5].node(),
                rights: abi.rights.read | abi.rights.write,
            },
        ),
    ];
    ||| failed_in(log, base, first, result)
    ||| passed(log, base, first) && given(
        abi,
        output_address,
        log[base + 6].handle(),
        log,
        base + 7,
        result,
    )
}

/// What is asked for the directory of an application.
pub open spec fn appdata_plan(app_id: Seq<u8>, log: Seq<Event>, at: int) -> Seq<Ask> {
    seq![
        Ask::Plain(Call::RootDirectory),
        Ask::With(Call::OpenDirectoryAt { directory: log[at].node() }, appdata_name()),
        Ask::With(Call::OpenDirectoryAt { directory: log[at + 1].node() }, app_id),
    ]
}

impl<K: Kernel> Session<K> {
    /// Writes down how a process ended, or that it has not.
    pub fn process_get_info(&mut self, raw_process: u64, output_address: u64) -> (result: Result<
        (),
        Status,
    >)
        ensures
            final(self).kept(*old(self)),
            did_process_get_info(
                old(self).abi,
                raw_process,
                output_address,
                old(self).log@,
                final(self).log@,
                result,
            ),
    {
        let handle: Handle = decode_handle(raw_process)?;
        self.check_output(output_address, PROCESS_INFO_SIZE)?;
        let facts: ProcessFacts = self.process_info(handle)?;
        let output: Vec<u8> = encode_process_info(&facts);
        self.copy_out(output_address, output.as_slice())
    }

    /// Ends a process.
    pub fn process_terminate(&mut self, raw_process: u64) -> (result: Result<(), Status>)
        ensures
            final(self).kept(*old(self)),
            did_process_terminate(
                old(self).abi,
                raw_process,
                old(self).log@,
                final(self).log@,
                result,
            ),
    {
        let handle: Handle = decode_handle(raw_process)?;
        self.done(Call::ProcessTerminate { handle })
    }

    /// Asks for the machine to be powered off, at the earliest after the time in which that
    /// can be canceled.
    pub fn system_power_request(
        &mut self,
        raw_power: u64,
        raw_action: u64,
        raw_flags: u64,
        now_ns: u64,
    ) -> (result: Result<(), Status>)
        ensures
            final(self).kept(*old(self)),
            did_system_power_request(
                old(self).abi,
                raw_power,
                raw_action,
                raw_flags,
                now_ns,
                old(self).log@,
                final(self).log@,
                result,
            ),
    {
        let handle: Handle = decode_handle(raw_power)?;
        if raw_action > u32::MAX as u64 {
            return Err(Status::InvalidArgument);
        }
        let action: u32 = raw_action as u32;
        let known: bool = self.flag(Call::IsPowerAction { action })?;
        if !known {
            return Err(Status::InvalidArgument);
        }
        let flags: u32 = decode_flags(raw_flags, self.abi.power_flags)?;
        let deadline_ns: u64 = now_ns.saturating_add(SYSTEM_POWER_CANCELLATION_NS);
        self.done(Call::PowerRequest { handle, action, flags, deadline_ns })
    }

    /// Takes back a request to power off.
    pub fn system_power_cancel(&mut self, raw_power: u64) -> (result: Result<(), Status>)
        ensures
            final(self).kept(*old(self)),
            did_system_power_cancel(
                old(self).abi,
                raw_power,
                old(self).log@,
                final(self).log@,
                result,
            ),
    {
        let handle: Handle = decode_handle(raw_power)?;
        self.done(Call::PowerCancel { handle })
    }

    /// Writes down how far a request to power off has come.
    pub fn system_power_get_info(&mut self, raw_power: u64, output_address: u64) -> (result: Result<
        (),
        Status,
    >)
        ensures
            final(self).kept(*old(self)),
            did_system_power_get_info(
                old(self).abi,
                raw_power,
                output_address,
                old(self).log@,
                final(self).log@,
                result,
            ),
    {
        let handle: Handle = decode_handle(raw_power)?;
        self.check_output(output_address, SYSTEM_POWER_INFO_SIZE)?;
        let facts: PowerFacts = self.power_info(handle)?;
        let output: Vec<u8> = encode_power_info(&facts);
        self.copy_out(output_address, output.as_slice())
    }

    /// Opens a directory, or makes it where there is none.
    fn ensure_directory(&mut self, directory: Node, name: &[u8]) -> (result: Result<Node, Status>)
        ensures
            final(self).kept(*old(self)),
            ({
                let log = final(self).log@;
                let at = old(self).log@.len() as int;
                match result {
                    Ok(node) => {
                        &&& ensured_ok(directory, name@, log, at)
                        &&& log.len() == ensured_end(log, at)
                        &&& node == log[log.len() - 1].node()
                    },
                    Err(_) => ensured_failed(directory, name@, log, at, result),
                }
            }),
    {
        match self.path_node(Call::OpenDirectoryAt { directory }, name) {
            Ok(node) => Ok(node),
            Err(Status::NotFound) => self.path_node(Call::CreateDirectoryAt { directory }, name),
            Err(status) => Err(status),
        }
    }

    /// The directory of an application, made where there is none.
    pub fn ensure_application_data_directory(&mut self, app_id: &[u8]) -> (result: Result<Node, Status>)
        ensures
            final(self).kept(*old(self)),
            ({
                let log = final(self).log@;
                let at = old(self).log@.len() as int;
                match result {
                    Ok(node) => {
                        &&& appdata_ok(app_id@, log, at)
                        &&& log.len() == appdata_end(log, at)
                        &&& node == log[log.len() - 1].node()
                    },
                    Err(_) => appdata_failed(app_id@, log, at, result),
                }
            }),
    {
        let root: Node = self.node(Call::RootDirectory)?;
        let name: Vec<u8> = vec![0x61, 0x70, 0x70, 0x64, 0x61, 0x74, 0x61];
        assert(name@ =~= appdata_name());
        let appdata: Node = self.ensure_directory(root, name.as_slice())?;
        self.ensure_directory(appdata, app_id)
    }

    /// The directory of an application.
    pub fn open_application_data_directory(&mut self, app_id: &[u8]) -> (result: Result<Node, Status>)
        ensures
            final(self).kept(*old(self)),
            ({
                let log = final(self).log@;
                let at = old(self).log@.len() as int;
                let plan = appdata_plan(app_id@, log, at);
                match result {
                    Ok(node) => passed(log, at, plan) && log.len() == at + 3 && node == log[at
                        + 2].node(),
                    Err(_) => failed_in(log, at, plan, result),
                }
            }),
    {
        let root: Node = self.node(Call::RootDirectory)?;
        let name: Vec<u8> = vec![0x61, 0x70, 0x70, 0x64, 0x61, 0x74, 0x61];
        assert(name@ =~= appdata_name());
        let appdata: Node = self.path_node(
            Call::OpenDirectoryAt { directory: root },
            name.as_slice(),
        )?;
        self.path_node(Call::OpenDirectoryAt { directory: appdata }, app_id)
    }

    /// Makes application data. That takes the right to install on the root.
    pub fn application_data_create(&mut self, args_address: u64) -> (result: Result<(), Status>)
        ensures
            final(self).kept(*old(self)),
            did_application_data_create(
                old(self).abi,
                args_address,
                old(self).log@,
                final(self).log@,
                result,
            ),
    {
        let raw: Vec<u8> = self.copy_in(args_address, APPLICATION_DATA_CREATE_ARGS_SIZE)?;
        let request: ApplicationDataCreateRequest = parse_application_data_create_args(
            &self.abi,
            raw.as_slice(),
        )?;
        self.check_output(request.output_address, HANDLE_OUTPUT_SIZE)?;
        let rights: u32 = self.abi.rights.write | self.abi.rights.execute;
        self.done(Call::Root { handle: request.root, rights })?;
        let app_id: Vec<u8> = self.copy_in(request.app_id_address, request.app_id_length)?;
        if utf8_text(app_id.as_slice()).is_none() {
            return Err(Status::InvalidArgument);
        }
        let handle: Handle = self.write_handle(Call::CreateApplicationData, app_id.as_slice())?;
        self.give_application(handle, request.output_address)
    }

    /// Makes the directory of new application data and gives its handle to the process.
    fn give_application(&mut self, handle: Handle, output_address: u64) -> (result: Result<(), Status>)
        ensures
            final(self).kept(*old(self)),
            application_given(
                old(self).abi,
                handle,
                output_address,
                final(self).log@,
                old(self).log@.len() as int,
                result,
            ),
    {
        let rights: u32 = self.abi.rights.read;
        let scope: Vec<u8> = match self.bytes(Call::ApplicationDataScope { handle, rights }) {
            Ok(scope) => scope,
            Err(status) => {
                self.close_one(handle);
                return Err(status);
            },
        };
        let ensured: Result<Node, Status> = self.ensure_application_data_directory(
            scope.as_slice(),
        );
        let ghost known = self.log@;
        if let Err(status) = ensured {
            self.close_one(handle);
            proof {
                super::kernel::lemma_beginning(known, self.log@);
            }
            return Err(status);
        }
        self.give_handle(output_address, handle)
    }

    /// Gives a process the directory of its application.
    pub fn application_get_data_directory(&mut self, output_address: u64) -> (result: Result<
        (),
        Status,
    >)
        ensures
            final(self).kept(*old(self)),
            did_application_get_data_directory(
                old(self).abi,
                output_address,
                old(self).log@,
                final(self).log@,
                result,
            ),
    {
        let identity: Handle = self.handle(Call::ApplicationData)?;
        self.check_output(output_address, HANDLE_OUTPUT_SIZE)?;
        let rights: u32 = self.abi.rights.read;
        let scope: Vec<u8> = self.bytes(Call::ApplicationDataScope { handle: identity, rights })?;
        let ghost known = self.log@;
        let opened: Result<Node, Status> = self.open_application_data_directory(scope.as_slice());
        proof {
            let plan = appdata_plan(scope@, self.log@, known.len() as int);
            assert forall|i: int| 0 <= i < plan.len() && known.len() + i < self.log@.len() implies
                self.log@[known.len() + i].ask == #[trigger] plan[i] by {}
        }
        let directory: Node = opened?;
        let rights: u32 = self.abi.rights.read | self.abi.rights.write;
        let handle: Handle = self.handle(Call::CreateDirectoryHandle { directory, rights })?;
        self.give_handle(output_address, handle)
    }
}

} // verus!
