//! What system calls that make processes and application data have the rest of the kernel do, by
//! the records that the caller hands over.
use vstd::prelude::*;

use vstd::utf8::valid_utf8;

use crate::bytes::{le32_at, le64_at};

use super::abi::{has_bits, within, Abi, ObjectType, Status};
use super::application::{
    appdata_name, appdata_ok, application_args_in, did_application_data_create,
    did_application_get_data_directory, ensured_end,
};
use super::children::{
    child_described, child_made, create_args_in, data_index, did_process_create, ProcessCreateArgs,
};
use super::dispatch::{called, making, over, SyscallContext};
use super::effects::{lemma_asked, lemma_handle_record, lemma_passed};
use super::kernel::{passed, Ask, Call, DispatchResult, Event};
use super::memory_effects::told_handle;
use super::number::SyscallNumber;
use super::records::{
    law_application_records_read_field_by_field, law_dispositions_follow_one_another,
    law_dispositions_read_field_by_field, law_limits_read_field_by_field,
    law_process_records_read_field_by_field,
};
use super::request_wire::Node;
use super::wire::{
    dispositions_in, handle_record, memory_policy_in, HandleOperationDisposition, MemoryPolicy,
};

verus! {

/// What a process that was made was made of, as the events say, from the one that first asks for
/// the limits on.
pub open spec fn child_follows(
    file: Node,
    length: u64,
    policy: Option<MemoryPolicy>,
    dispositions: Seq<HandleOperationDisposition>,
    output_address: u64,
    log: Seq<Event>,
    at: int,
) -> bool {
    let inherited = log[at].answer->ChildLimits_0->Some_0;
    let limits = log[at + 1].answer->ChildLimits_0->Some_0;
    let process = log[at + 4].handle();
    let handles = log[at + 6].answer->NewHandles_0->Ok_0;
    &&& log[at].ask == Ask::ChildLimits(None)
    &&& log[at + 1].ask matches Ask::ChildLimits(asked)
    &&& asked is Some <==> policy is Some
    &&& policy matches Some(values) ==> {
        let wanted = asked->Some_0;
        &&& wanted.private_pages == values.private_pages
        &&& wanted.shared_memory_bytes == values.shared_memory_bytes
        &&& wanted.mapped_shared_bytes == values.mapped_shared_bytes
        &&& wanted.reserved_virtual_bytes == values.reserved_virtual_bytes
        &&& wanted.vma_count == values.vma_count
        &&& wanted.executable_image_pages == values.executable_image_pages
        &&& wanted.executable_source_bytes == values.executable_source_bytes
        &&& wanted.channel_traffic_bytes == inherited.channel_traffic_bytes
        &&& wanted.cpu_quantum_ns == inherited.cpu_quantum_ns
    }
    &&& 0 < length <= limits.executable_source_bytes
    &&& log[at + 2].ask matches Ask::Plain(Call::ReadFile { file: read, offset, length: all })
    &&& read == file && offset == 0 && all == length
    &&& log[at + 2].bytes().len() == length
    &&& log[at + 3].ask == Ask::MakeChild { image: log[at + 2].bytes(), limits }
    &&& log[at + 4].ask == Ask::Plain(Call::CreateProcessHandle)
    &&& log[at + 5].ask == Ask::Plain(Call::AttachChild { process })
    &&& log[at + 6].ask == Ask::TransferHandles(dispositions)
    &&& log[log.len() - 2].ask == Ask::InstallStartup(handles)
    &&& told_handle(log.last(), output_address, process)
    &&& at + 9 <= log.len() <= at + 10
    &&& log.len() == at + 10 ==> (log[at + 7].ask matches Ask::Plain(
        Call::SetChildApplicationData { handle },
    ) && handles.contains(handle))
}

/// A process that was made was made of what it was to be made of.
#[verifier::rlimit(40)]
proof fn lemma_child_follows(
    file: Node,
    length: u64,
    policy: Option<MemoryPolicy>,
    dispositions: Seq<HandleOperationDisposition>,
    data: Option<usize>,
    output_address: u64,
    log: Seq<Event>,
    at: int,
    result: Result<(), Status>,
)
    requires
        0 <= at,
        result is Ok,
        child_made(file, length, policy, dispositions, data, output_address, log, at, result),
    ensures
        child_follows(file, length, policy, dispositions, output_address, log, at),
{
    let process = log[at + 4].handle();
    let handles = log[at + 6].answer->NewHandles_0->Ok_0;
    let marked = match data {
        Some(index) => if index < handles.len() {
            seq![Ask::Plain(Call::SetChildApplicationData { handle: handles[index as int] })]
        } else {
            Seq::empty()
        },
        None => Seq::empty(),
    };
    let last = seq![
        Ask::InstallStartup(handles),
        Ask::With(Call::CopyOut { address: output_address }, handle_record(process)),
    ];
    lemma_asked(log, at + 7, marked + last);
    assert(marked.len() <= 1);
    let end = log.len() as int;
    assert((marked + last)[marked.len() as int] == last[0]);
    assert((marked + last)[marked.len() as int + 1] == last[1]);
    assert(log[end - 2].ask == last[0]);
    assert(log[end - 1].ask == last[1]);
    lemma_handle_record(process);
    if marked.len() == 1 {
        assert((marked + last)[0] == marked[0]);
        assert(log[at + 7].ask == marked[0]);
        let index = data->Some_0;
        assert(handles[index as int] == marked[0]->Plain_0->SetChildApplicationData_handle);
    }
}

/// What the events from `at` on make a process of is what the record says; the limits are those
/// of the other record.
pub open spec fn made_as_recorded(
    abi: Abi,
    extended: bool,
    record: Seq<u8>,
    policy: Seq<u8>,
    log: Seq<Event>,
    at: int,
) -> bool {
    let count = (log[at + 3].bytes().len() / 16) as int;
    let next = at + 4 + count;
    &&& log[at + 1].ask matches Ask::Plain(Call::CopyIn { address: args_at, length: args_long })
    &&& args_at == le64_at(record, 8) && args_long == le64_at(record, 16)
    &&& log[at + 2].ask matches Ask::Plain(Call::CopyIn { address: config_at, length: config_long })
    &&& config_at == le64_at(record, 40) && config_long == le64_at(record, 48)
    &&& log[at + 3].ask matches Ask::Plain(Call::CopyIn { address: handles_at, length: handles_long })
    &&& handles_at == le64_at(record, 24) && handles_long == 16 * le64_at(record, 32)
    &&& args_long + config_long <= abi.limits.startup_bytes
    &&& log[next].ask matches Ask::PrepareStartup { args, config, handle_count }
    &&& args == log[at + 1].bytes()
    &&& config == log[at + 2].bytes()
    &&& handle_count == le64_at(record, 32)
    &&& log[next + 1].ask matches Ask::Plain(Call::File { handle, rights })
    &&& handle.0 == le32_at(record, 0)
    &&& rights == abi.rights.execute
    &&& log[next + 2].ask == Ask::Plain(Call::FileLength { file: log[next + 1].node() })
    &&& exists|limits: Option<MemoryPolicy>, dispositions: Seq<HandleOperationDisposition>|
        #[trigger] child_follows(
            log[next + 1].node(),
            log[next + 2].number(),
            limits,
            dispositions,
            le64_at(record, 56) as u64,
            log,
            next + 3,
        ) && dispositions.len() == count && (limits is Some <==> extended) && (
        limits matches Some(values) ==> limits_read(policy, values))
            && dispositions_read(log[at + 3].bytes(), dispositions)
}

/// A process is made from the record that the caller points at: the executable file that its
/// handle names, the arguments and the configuration that it points at, the handles that it hands
/// over in their order, and the limits that it points at where it is the longer one. The image is
/// the whole file. The process's handle is told where the record says.
#[verifier::rlimit(80)]
pub proof fn law_processes_are_made_as_the_record_says(
    abi: Abi,
    extended: bool,
    call: SyscallContext,
    before: Seq<Event>,
    log: Seq<Event>,
    dispatched: Result<DispatchResult, Status>,
)
    requires
        called(
            abi,
            if extended {
                SyscallNumber::ProcessCreate2
            } else {
                SyscallNumber::ProcessCreate
            },
            call,
            before,
            log,
            dispatched,
        ),
        dispatched is Ok,
    ensures
        ({
            let from = before.len() as int;
            let record = log[from].bytes();
            let at = if extended {
                from + 2
            } else {
                from + 1
            };
            &&& dispatched == Ok::<DispatchResult, Status>(DispatchResult::ChildCreated)
            &&& call.child_slot_reserved
            &&& log[from].ask == Ask::Plain(
                Call::CopyIn {
                    address: call.registers.rdi,
                    length: if extended {
                        80
                    } else {
                        64
                    },
                },
            )
            &&& extended ==> log[from + 1].ask == Ask::Plain(
                Call::CopyIn { address: le64_at(record, 72) as u64, length: 64 },
            )
            &&& made_as_recorded(abi, extended, record, log[from + 1].bytes(), log, at)
        }),
{
    let from = before.len() as int;
    let result = choose|result: Result<(), Status>| #[trigger]
        did_process_create(
            abi,
            call.registers.rdi,
            call.child_slot_reserved,
            extended,
            before,
            log,
            result,
        ) && dispatched == making(result);
    let record = log[from].bytes();
    law_process_records_read_field_by_field(abi, record, extended);
    let args = create_args_in(abi, record, extended)->Ok_0;
    let at = if extended {
        from + 2
    } else {
        from + 1
    };
    let limits = if extended {
        Some(memory_policy_in(abi, log[from + 1].bytes())->Ok_0)
    } else {
        None
    };
    law_limits_read_field_by_field(abi, log[from + 1].bytes());
    assert(child_described(abi, args, limits, log, at, result));
    lemma_child_described(abi, args, limits, log, at, result);
    let raw = log[at + 3].bytes();
    let count = (raw.len() / 16) as int;
    let next = at + 4 + count;
    let dispositions = dispositions_in(abi, raw, count as nat)->Ok_0;
    assert(child_follows(
        log[next + 1].node(),
        log[next + 2].number(),
        limits,
        dispositions,
        le64_at(record, 56) as u64,
        log,
        next + 3,
    ));
    assert(limits is Some ==> limits_read(log[from + 1].bytes(), limits->Some_0));
    assert(made_as_recorded(abi, extended, record, log[from + 1].bytes(), log, at));
}

/// These are the limits that a record holds.
pub open spec fn limits_read(record: Seq<u8>, limits: MemoryPolicy) -> bool {
    &&& limits.private_pages == le64_at(record, 8)
    &&& limits.shared_memory_bytes == le64_at(record, 16)
    &&& limits.mapped_shared_bytes == le64_at(record, 24)
    &&& limits.reserved_virtual_bytes == le64_at(record, 32)
    &&& limits.vma_count == le64_at(record, 40)
    &&& limits.executable_image_pages == le64_at(record, 48)
    &&& limits.executable_source_bytes == le64_at(record, 56)
}

/// These are the handles that records hand over, in their order.
pub open spec fn dispositions_read(
    records: Seq<u8>,
    dispositions: Seq<HandleOperationDisposition>,
) -> bool {
    forall|i: int|
        0 <= i < dispositions.len() ==> {
            let one = records.subrange(16 * i, 16 * i + 16);
            &&& (#[trigger] dispositions[i]).handle.0 == le32_at(one, 0)
            &&& dispositions[i].operation is Move <==> le32_at(one, 4) == 0
            &&& dispositions[i].rights == le32_at(one, 8)
        }
}

/// What is read for a process, and in what order.
#[verifier::rlimit(60)]
proof fn lemma_child_described(
    abi: Abi,
    args: ProcessCreateArgs,
    policy: Option<MemoryPolicy>,
    log: Seq<Event>,
    at: int,
    result: Result<(), Status>,
)
    requires
        0 <= at,
        result is Ok,
        child_described(abi, args, policy, log, at, result),
    ensures
        ({
            let raw = log[at + 3].bytes();
            let count = (raw.len() / 16) as int;
            let next = at + 4 + count;
            let dispositions = dispositions_in(abi, raw, count as nat)->Ok_0;
            &&& args.args_length + args.config_length <= abi.limits.startup_bytes
            &&& log[at + 1].ask == Ask::Plain(
                Call::CopyIn { address: args.args_address, length: args.args_length },
            )
            &&& log[at + 2].ask == Ask::Plain(
                Call::CopyIn { address: args.config_address, length: args.config_length },
            )
            &&& log[at + 3].ask matches Ask::Plain(Call::CopyIn { address, length })
            &&& address == args.dispositions_address
            &&& length == 16 * args.disposition_count
            &&& log[next].ask == Ask::PrepareStartup {
                args: log[at + 1].bytes(),
                config: log[at + 2].bytes(),
                handle_count: args.disposition_count,
            }
            &&& log[next + 1].ask == Ask::Plain(
                Call::File { handle: args.executable, rights: abi.rights.execute },
            )
            &&& log[next + 2].ask == Ask::Plain(Call::FileLength { file: log[next + 1].node() })
            &&& dispositions.len() == count
            &&& dispositions_read(raw, dispositions)
            &&& child_follows(
                log[next + 1].node(),
                log[next + 2].number(),
                policy,
                dispositions,
                args.output_address,
                log,
                next + 3,
            )
        }),
{
    let raw = log[at + 3].bytes();
    let first = seq![
        Ask::Plain(
            Call::CheckOutput { address: args.output_address, length: 8 },
        ),
        Ask::Plain(Call::CopyIn { address: args.args_address, length: args.args_length }),
        Ask::Plain(Call::CopyIn { address: args.config_address, length: args.config_length }),
    ];
    lemma_passed(log, at, first);
    assert(log[at + 1].ask == first[1]);
    assert(log[at + 2].ask == first[2]);
    let count = (raw.len() / 16) as nat;
    law_dispositions_follow_one_another(abi, raw, count);
    let dispositions = dispositions_in(abi, raw, count)->Ok_0;
    assert forall|i: int| 0 <= i < dispositions.len() implies {
        let one = raw.subrange(16 * i, 16 * i + 16);
        &&& (#[trigger] dispositions[i]).handle.0 == le32_at(one, 0)
        &&& dispositions[i].operation is Move <==> le32_at(one, 4) == 0
        &&& dispositions[i].rights == le32_at(one, 8)
    } by {
        law_dispositions_read_field_by_field(abi, raw.subrange(16 * i, 16 * i + 16));
    }
    let next = at + 4 + count;
    let then = seq![
        Ask::PrepareStartup {
            args: log[at + 1].bytes(),
            config: log[at + 2].bytes(),
            handle_count: args.disposition_count,
        },
        Ask::Plain(Call::File { handle: args.executable, rights: abi.rights.execute }),
        Ask::Plain(Call::FileLength { file: log[next + 1].node() }),
    ];
    lemma_passed(log, next, then);
    assert(log[next].ask == then[0]);
    assert(log[next + 1].ask == then[1]);
    assert(log[next + 2].ask == then[2]);
    lemma_child_follows(
        log[next + 1].node(),
        log[next + 2].number(),
        policy,
        dispositions,
        data_index(abi, dispositions, log, at + 4, dispositions.len())->Ok_0,
        args.output_address,
        log,
        next + 3,
        result,
    );
}

/// The one handle of application data among those that are handed over, if there is one, is one
/// that may be read, that may not be handed on, and that may at most be written besides; two are
/// refused.
pub proof fn law_application_data_is_handed_over_once(
    abi: Abi,
    dispositions: Seq<HandleOperationDisposition>,
    log: Seq<Event>,
    at: int,
    count: nat,
)
    requires
        count <= dispositions.len(),
        count <= usize::MAX,
        data_index(abi, dispositions, log, at, count) is Ok,
    ensures
        ({
            let found = data_index(abi, dispositions, log, at, count)->Ok_0;
            &&& forall|i: int|
                0 <= i < count && (#[trigger] log[at + i]).answer->ObjectType_0 == Ok::<
                    ObjectType,
                    Status,
                >(ObjectType::ApplicationData) ==> found == Some(i as usize)
            &&& found matches Some(index) ==> {
                let rights = dispositions[index as int].rights;
                &&& index < count
                &&& log[at + index].answer->ObjectType_0 == Ok::<ObjectType, Status>(
                    ObjectType::ApplicationData,
                )
                &&& has_bits(rights, abi.rights.read)
                &&& within(rights, abi.rights.read | abi.rights.write)
                &&& !has_bits(rights, abi.rights.transfer)
            }
        }),
    decreases count,
{
    if count > 0 {
        let before = (count - 1) as nat;
        law_application_data_is_handed_over_once(abi, dispositions, log, at, before);
        let found = data_index(abi, dispositions, log, at, count)->Ok_0;
        assert forall|i: int|
            0 <= i < count && (#[trigger] log[at + i]).answer->ObjectType_0 == Ok::<
                ObjectType,
                Status,
            >(ObjectType::ApplicationData) implies found == Some(i as usize) by {
            if i < before {
                assert(data_index(abi, dispositions, log, at, before)->Ok_0 == Some(i as usize));
                assert(log[at + before] == log[at + count - 1]);
            } else {
                assert(log[at + i] == log[at + count - 1]);
            }
        }
        if log[at + count - 1].answer->ObjectType_0 == Ok::<ObjectType, Status>(
            ObjectType::ApplicationData,
        ) {
            assert(log[at + before] == log[at + count - 1]);
        }
    }
}

/// Application data is made by a root that may be written and executed, for the application that
/// the record names, with a directory of that name below the one for all applications. Its handle
/// is told where the record says.
#[verifier::rlimit(60)]
pub proof fn law_application_data_is_made_for_the_named_application(
    abi: Abi,
    call: SyscallContext,
    before: Seq<Event>,
    log: Seq<Event>,
    dispatched: Result<DispatchResult, Status>,
)
    requires
        called(abi, SyscallNumber::ApplicationDataCreate, call, before, log, dispatched),
        dispatched is Ok,
    ensures
        ({
            let from = before.len() as int;
            let record = log[from].bytes();
            let name = log[from + 3].bytes();
            let made = log[from + 4].handle();
            &&& log[from].ask == Ask::Plain(Call::CopyIn { address: call.registers.rdi, length: 32 })
            &&& log[from + 2].ask matches Ask::Plain(Call::Root { handle, rights })
            &&& handle.0 == le32_at(record, 0) && rights == abi.rights.write | abi.rights.execute
            &&& log[from + 3].ask matches Ask::Plain(Call::CopyIn { address, length })
            &&& address == le64_at(record, 8) && length == le64_at(record, 16)
            &&& valid_utf8(name)
            &&& log[from + 4].ask == Ask::With(Call::CreateApplicationData, name)
            &&& log[from + 4].refused() is None
            &&& log[from + 5].ask == Ask::Plain(
                Call::ApplicationDataScope { handle: made, rights: abi.rights.read },
            )
            &&& log[from + 6].ask == Ask::Plain(Call::RootDirectory)
            &&& exists|directory: Node|
                holds_directory(log, from, log[from + 6].node(), shared_name(), directory) && #[trigger] has_directory(
                    log,
                    from,
                    directory,
                    log[from + 5].bytes(),
                )
            &&& told_handle(log.last(), le64_at(record, 24) as u64, made)
            &&& log.last().refused() is None
        }),
{
    let from = before.len() as int;
    let result = choose|result: Result<(), Status>| #[trigger]
        did_application_data_create(abi, call.registers.rdi, before, log, result) && dispatched == over(result);
    assert(did_application_data_create(abi, call.registers.rdi, before, log, result));
    let record = log[from].bytes();
    law_application_records_read_field_by_field(abi, record);
    let request = application_args_in(abi, record)->Ok_0;
    let first = seq![
        Ask::Plain(Call::CheckOutput { address: request.output_address, length: 8 }),
        Ask::Plain(
            Call::Root { handle: request.root, rights: abi.rights.write | abi.rights.execute },
        ),
        Ask::Plain(
            Call::CopyIn { address: request.app_id_address, length: request.app_id_length },
        ),
    ];
    lemma_passed(log, from + 1, first);
    assert(log[from + 2].ask == first[1]);
    assert(log[from + 3].ask == first[2]);
    let at = from + 6;
    let middle = ensured_end(log, at + 1);
    let end = ensured_end(log, middle);
    assert(appdata_ok(log[from + 5].bytes(), log, at));
    assert(appdata_name() =~= shared_name());
    let directory = log[middle - 1].node();
    assert(log[at + 1].refused() is None || log[at + 2].refused() is None);
    assert(holds_directory(log, from, log[at].node(), shared_name(), directory)) by {
        assert(log[middle - 1].refused() is None);
    }
    assert(has_directory(log, from, directory, log[from + 5].bytes())) by {
        assert(log[end - 1].refused() is None);
        assert(holds_directory(log, from, directory, log[from + 5].bytes(), log[end - 1].node()));
    }
    let made = log[from + 4].handle();
    lemma_handle_record(made);
}

/// The name of the directory that holds the data of all applications.
pub open spec fn shared_name() -> Seq<u8> {
    seq![
        'a' as u8,
        'p' as u8,
        'p' as u8,
        'd' as u8,
        'a' as u8,
        't' as u8,
        'a' as u8,
    ]
}

/// The directory holds this one by this name, or it was made there.
pub open spec fn holds_directory(
    log: Seq<Event>,
    from: int,
    directory: Node,
    name: Seq<u8>,
    found: Node,
) -> bool {
    exists|i: int|
        {
            &&& from <= i < log.len()
            &&& (#[trigger] log[i]).refused() is None
            &&& log[i].node() == found
            &&& log[i].ask == Ask::With(Call::OpenDirectoryAt { directory }, name) || log[i].ask
                == Ask::With(Call::CreateDirectoryAt { directory }, name)
        }
}

/// The directory holds one by this name, or one was made there.
pub open spec fn has_directory(log: Seq<Event>, from: int, directory: Node, name: Seq<u8>) -> bool {
    exists|found: Node| #[trigger] holds_directory(log, from, directory, name, found)
}

/// An application is given the directory that is named for it below the one for all applications,
/// to read and to write, and is told of it where the caller says.
#[verifier::rlimit(60)]
pub proof fn law_applications_reach_only_their_own_data(
    abi: Abi,
    call: SyscallContext,
    before: Seq<Event>,
    log: Seq<Event>,
    dispatched: Result<DispatchResult, Status>,
)
    requires
        called(abi, SyscallNumber::ApplicationGetDataDirectory, call, before, log, dispatched),
        dispatched is Ok,
    ensures
        ({
            let from = before.len() as int;
            let granted = log[from].handle();
            &&& log.len() == from + 8
            &&& log[from].ask == Ask::Plain(Call::ApplicationData)
            &&& log[from + 2].ask == Ask::Plain(
                Call::ApplicationDataScope { handle: granted, rights: abi.rights.read },
            )
            &&& log[from + 3].ask == Ask::Plain(Call::RootDirectory)
            &&& log[from + 4].ask == Ask::With(
                Call::OpenDirectoryAt { directory: log[from + 3].node() },
                shared_name(),
            )
            &&& log[from + 5].ask == Ask::With(
                Call::OpenDirectoryAt { directory: log[from + 4].node() },
                log[from + 2].bytes(),
            )
            &&& log[from + 6].ask == Ask::Plain(
                Call::CreateDirectoryHandle {
                    directory: log[from + 5].node(),
                    rights: abi.rights.read | abi.rights.write,
                },
            )
            &&& told_handle(log[from + 7], call.registers.rdi, log[from + 6].handle())
            &&& forall|i: int| from <= i < log.len() ==> (#[trigger] log[i]).refused() is None
        }),
{
    let from = before.len() as int;
    let result = choose|result: Result<(), Status>| #[trigger]
        did_application_get_data_directory(abi, call.registers.rdi, before, log, result) && dispatched == over(result);
    assert(did_application_get_data_directory(abi, call.registers.rdi, before, log, result));
    let head = seq![
        Ask::Plain(Call::ApplicationData),
        Ask::Plain(Call::CheckOutput { address: call.registers.rdi, length: 8 }),
        Ask::Plain(
            Call::ApplicationDataScope { handle: log[from].handle(), rights: abi.rights.read },
        ),
    ];
    let middle = super::application::appdata_plan(log[from + 2].bytes(), log, from + 3);
    let last = seq![
        Ask::Plain(
            Call::CreateDirectoryHandle {
                directory: log[from + 5].node(),
                rights: abi.rights.read | abi.rights.write,
            },
        ),
    ];
    let first = head + middle + last;
    assert(first.len() == 7);
    assert(passed(log, from, first));
    lemma_passed(log, from, first);
    assert(first[0] == head[0] && first[2] == head[2]);
    assert(first[3] == middle[0] && first[4] == middle[1] && first[5] == middle[2]);
    assert(first[6] == last[0]);
    assert(appdata_name() =~= shared_name());
    assert(log[from].ask == first[0]);
    assert(log[from + 2].ask == first[2]);
    assert(log[from + 3].ask == first[3]);
    assert(log[from + 4].ask == first[4]);
    assert(log[from + 5].ask == first[5]);
    assert(log[from + 6].ask == first[6]);
    let made = log[from + 6].handle();
    lemma_handle_record(made);
}

} // verus!
