//! System calls on handles and channels.
use vstd::prelude::*;

use crate::bytes::{le32_at, le64_at, read_u32, read_u64};

use super::abi::{Abi, Handle, Status};
use super::kernel::{
    asked_at, asked_from, ended_at, extends, ran, ran_through, rejected, stopped_at, Answer, Ask,
    Call, Event, Kernel, Session,
};
use super::wire::{
    array_bytes, channel_record, checked_array_bytes, decode_handle, decode_rights_u64,
    dispositions_in, encode_channel_create_output, encode_handle_output, handle_in, handle_record,
    parse_dispositions, push_received_handle, received_record, rights_in,
    HandleOperationDisposition, CHANNEL_CREATE_OUTPUT_SIZE, CHANNEL_READ_ARGS_SIZE,
    CHANNEL_WRITE_ARGS_SIZE, HANDLE_DISPOSITION_SIZE, HANDLE_OUTPUT_SIZE, RECEIVED_HANDLE_SIZE,
};

verus! {

broadcast use super::heard::group_heard;

/// A message to be sent.
#[derive(Clone, Copy, Debug, PartialEq, Eq, Structural)]
pub struct ChannelWriteArgs {
    pub bytes_address: u64,
    pub byte_count: usize,
    pub dispositions_address: u64,
    pub disposition_bytes: usize,
}

/// A record of a message to be sent.
pub open spec fn channel_write_in(abi: Abi, raw: Seq<u8>) -> Result<ChannelWriteArgs, Status> {
    let bytes = array_bytes(
        le64_at(raw, 8) as u64,
        1,
        abi.limits.channel_bytes as u64,
        Status::MessageTooLarge,
    );
    let dispositions = array_bytes(
        le64_at(raw, 24) as u64,
        HANDLE_DISPOSITION_SIZE,
        abi.limits.channel_handles as u64,
        Status::MessageTooLarge,
    );
    if raw.len() != CHANNEL_WRITE_ARGS_SIZE || le32_at(raw, 32) != 0 || le32_at(raw, 36) != 0 {
        Err(Status::InvalidArgument)
    } else if bytes is Err {
        Err(bytes->Err_0)
    } else if dispositions is Err {
        Err(dispositions->Err_0)
    } else {
        Ok(
            ChannelWriteArgs {
                bytes_address: le64_at(raw, 0) as u64,
                byte_count: bytes->Ok_0,
                dispositions_address: le64_at(raw, 16) as u64,
                disposition_bytes: dispositions->Ok_0,
            },
        )
    }
}

/// Reads a record of a message to be sent.
pub fn parse_channel_write_args(abi: &Abi, raw: &[u8]) -> (result: Result<ChannelWriteArgs, Status>)
    ensures
        result == channel_write_in(*abi, raw@),
        result matches Ok(args) ==> args.disposition_bytes % 16 == 0,
{
    if raw.len() != CHANNEL_WRITE_ARGS_SIZE || read_u32(raw, 32) != 0 || read_u32(raw, 36) != 0 {
        return Err(Status::InvalidArgument);
    }
    let byte_count: usize = checked_array_bytes(
        read_u64(raw, 8),
        1,
        abi.limits.channel_bytes as u64,
        Status::MessageTooLarge,
    )?;
    let disposition_bytes: usize = checked_array_bytes(
        read_u64(raw, 24),
        HANDLE_DISPOSITION_SIZE,
        abi.limits.channel_handles as u64,
        Status::MessageTooLarge,
    )?;
    Ok(
        ChannelWriteArgs {
            bytes_address: read_u64(raw, 0),
            byte_count,
            dispositions_address: read_u64(raw, 16),
            disposition_bytes,
        },
    )
}

/// Where a received message goes.
#[derive(Clone, Copy, Debug, PartialEq, Eq, Structural)]
pub struct ChannelReadArgs {
    pub bytes_address: u64,
    pub byte_capacity: usize,
    pub handles_address: u64,
    pub handle_capacity: usize,
    pub handle_bytes: usize,
    pub output_address: u64,
}

/// A record of where a received message goes.
pub open spec fn channel_read_in(abi: Abi, raw: Seq<u8>) -> Result<ChannelReadArgs, Status> {
    let bytes = array_bytes(
        le64_at(raw, 8) as u64,
        1,
        abi.limits.channel_bytes as u64,
        Status::OutOfRange,
    );
    let handles = array_bytes(
        le64_at(raw, 24) as u64,
        RECEIVED_HANDLE_SIZE,
        abi.limits.channel_handles as u64,
        Status::OutOfRange,
    );
    if raw.len() != CHANNEL_READ_ARGS_SIZE || le32_at(raw, 40) != 0 || le32_at(raw, 44) != 0 {
        Err(Status::InvalidArgument)
    } else if bytes is Err {
        Err(bytes->Err_0)
    } else if handles is Err {
        Err(handles->Err_0)
    } else {
        Ok(
            ChannelReadArgs {
                bytes_address: le64_at(raw, 0) as u64,
                byte_capacity: bytes->Ok_0,
                handles_address: le64_at(raw, 16) as u64,
                handle_capacity: le64_at(raw, 24) as usize,
                handle_bytes: handles->Ok_0,
                output_address: le64_at(raw, 32) as u64,
            },
        )
    }
}

/// Reads a record of where a received message goes.
pub fn parse_channel_read_args(abi: &Abi, raw: &[u8]) -> (result: Result<ChannelReadArgs, Status>)
    ensures
        result == channel_read_in(*abi, raw@),
        result matches Ok(args) ==> args.handle_bytes == args.handle_capacity * 16,
{
    if raw.len() != CHANNEL_READ_ARGS_SIZE || read_u32(raw, 40) != 0 || read_u32(raw, 44) != 0 {
        return Err(Status::InvalidArgument);
    }
    let byte_capacity: usize = checked_array_bytes(
        read_u64(raw, 8),
        1,
        abi.limits.channel_bytes as u64,
        Status::OutOfRange,
    )?;
    let handle_bytes: usize = checked_array_bytes(
        read_u64(raw, 24),
        RECEIVED_HANDLE_SIZE,
        abi.limits.channel_handles as u64,
        Status::OutOfRange,
    )?;
    Ok(
        ChannelReadArgs {
            bytes_address: read_u64(raw, 0),
            byte_capacity,
            handles_address: read_u64(raw, 16),
            handle_capacity: read_u64(raw, 24) as usize,
            handle_bytes,
            output_address: read_u64(raw, 32),
        },
    )
}

/// Handles that name something are closed, in order.
pub open spec fn close_asks(abi: Abi, handles: Seq<Handle>) -> Seq<Ask>
    decreases handles.len(),
{
    if handles.len() == 0 {
        Seq::empty()
    } else if abi.valid(handles.last()) {
        close_asks(abi, handles.drop_last()).push(
            Ask::Plain(Call::CloseHandle { handle: handles.last() }),
        )
    } else {
        close_asks(abi, handles.drop_last())
    }
}

/// What `handle_close` asks for, and what comes of it.
pub open spec fn did_handle_close(
    abi: Abi,
    raw_handle: u64,
    before: Seq<Event>,
    log: Seq<Event>,
    result: Result<(), Status>,
) -> bool {
    match handle_in(raw_handle) {
        Err(status) => rejected(before, log, result, status),
        Ok(handle) => ran_through(
            log,
            before.len() as int,
            seq![Ask::Plain(Call::CloseHandle { handle })],
            result,
        ),
    }
}

/// What `handle_duplicate` asks for, and what comes of it.
pub open spec fn did_handle_duplicate(
    abi: Abi,
    raw_handle: u64,
    raw_rights: u64,
    output_address: u64,
    before: Seq<Event>,
    log: Seq<Event>,
    result: Result<(), Status>,
) -> bool {
    let base = before.len() as int;
    match (handle_in(raw_handle), rights_in(abi, raw_rights)) {
        (Ok(handle), Ok(rights)) => ran(
            log,
            base,
            seq![
                Ask::Plain(
                    Call::CheckOutput {
                        address: output_address,
                        length: HANDLE_OUTPUT_SIZE,
                    },
                ),
                Ask::Plain(Call::DuplicateHandle { handle, rights }),
                Ask::With(
                    Call::CopyOut { address: output_address },
                    handle_record(log[base + 1].handle()),
                ),
            ],
            2,
            close_asks(abi, seq![log[base + 1].handle()]),
            result,
        ),
        (Err(status), _) => rejected(before, log, result, status),
        (_, Err(status)) => rejected(before, log, result, status),
    }
}

/// What `channel_create` asks for, and what comes of it.
pub open spec fn did_channel_create(
    abi: Abi,
    output_address: u64,
    before: Seq<Event>,
    log: Seq<Event>,
    result: Result<(), Status>,
) -> bool {
    let base = before.len() as int;
    let (first, second) = log[base + 1].answer->Handles_0->Ok_0;
    ran(
        log,
        base,
        seq![
            Ask::Plain(
                Call::CheckOutput {
                    address: output_address,
                    length: CHANNEL_CREATE_OUTPUT_SIZE,
                },
            ),
            Ask::Plain(Call::ChannelCreate),
            Ask::With(
                Call::CopyOut { address: output_address },
                channel_record(first, second),
            ),
        ],
        2,
        close_asks(abi, seq![first, second]),
        result,
    )
}

/// What `channel_write` asks for, and what comes of it.
pub open spec fn did_channel_write(
    abi: Abi,
    raw_channel: u64,
    args_address: u64,
    before: Seq<Event>,
    log: Seq<Event>,
    result: Result<(), Status>,
) -> bool {
    match handle_in(raw_channel) {
        Err(status) => rejected(before, log, result, status),
        Ok(channel) => channel_written(
            abi,
            channel,
            args_address,
            log,
            before.len() as int,
            result,
        ),
    }
}

impl<K: Kernel> Session<K> {
    /// Closes handles; one that cannot be closed is left.
    pub fn close_handles(&mut self, handles: &[Handle])
        ensures
            final(self).kept(*old(self)),
            asked_from(
                final(self).log@,
                old(self).log@.len() as int,
                close_asks(old(self).abi, handles@),
            ),
    {
        let mut index: usize = 0;
        assert(handles@.subrange(0, 0) =~= Seq::empty());
        while index < handles.len()
            invariant
                index <= handles@.len(),
                self.kept(*old(self)),
                asked_from(
                    self.log@,
                    old(self).log@.len() as int,
                    close_asks(old(self).abi, handles@.subrange(0, index as int)),
                ),
            decreases handles@.len() - index,
        {
            let handle: Handle = handles[index];
            if self.abi.is_valid(handle) {
                let _ = self.done(Call::CloseHandle { handle });
            }
            index += 1;
            assert(handles@.subrange(0, index as int).drop_last() =~= handles@.subrange(
                0,
                index - 1,
            ));
        }
        assert(handles@.subrange(0, handles@.len() as int) =~= handles@);
    }

    /// Closes one handle.
    pub fn close_one(&mut self, handle: Handle)
        ensures
            final(self).kept(*old(self)),
            asked_from(
                final(self).log@,
                old(self).log@.len() as int,
                close_asks(old(self).abi, seq![handle]),
            ),
    {
        assert(seq![handle].drop_last() =~= Seq::empty());
        assert(close_asks(self.abi, seq![handle].drop_last()) == Seq::<Ask>::empty());
        if self.abi.is_valid(handle) {
            let _ = self.done(Call::CloseHandle { handle });
        }
    }

    /// Closes a handle of the process.
    pub fn handle_close(&mut self, raw_handle: u64) -> (result: Result<(), Status>)
        ensures
            final(self).kept(*old(self)),
            did_handle_close(
                old(self).abi,
                raw_handle,
                old(self).log@,
                final(self).log@,
                result,
            ),
    {
        match decode_handle(raw_handle) {
            Err(status) => Err(status),
            Ok(handle) => self.done(Call::CloseHandle { handle }),
        }
    }

    /// Gives the process another handle for an object; takes it back where the process
    /// cannot be told.
    pub fn handle_duplicate(&mut self, raw_handle: u64, raw_rights: u64, output_address: u64) -> (result:
        Result<(), Status>)
        ensures
            final(self).kept(*old(self)),
            did_handle_duplicate(
                old(self).abi,
                raw_handle,
                raw_rights,
                output_address,
                old(self).log@,
                final(self).log@,
                result,
            ),
    {
        let handle: Handle = decode_handle(raw_handle)?;
        let rights: u32 = decode_rights_u64(&self.abi, raw_rights)?;
        self.check_output(output_address, HANDLE_OUTPUT_SIZE)?;
        let duplicate: Handle = self.handle(Call::DuplicateHandle { handle, rights })?;
        let output: Vec<u8> = encode_handle_output(duplicate);
        if let Err(status) = self.copy_out(output_address, output.as_slice()) {
            self.close_one(duplicate);
            return Err(status);
        }
        Ok(())
    }

    /// Gives the process the two ends of a new channel.
    pub fn channel_create(&mut self, output_address: u64) -> (result: Result<(), Status>)
        ensures
            final(self).kept(*old(self)),
            did_channel_create(
                old(self).abi,
                output_address,
                old(self).log@,
                final(self).log@,
                result,
            ),
    {
        self.check_output(output_address, CHANNEL_CREATE_OUTPUT_SIZE)?;
        let (first, second): (Handle, Handle) = self.handles(Call::ChannelCreate)?;
        let output: Vec<u8> = encode_channel_create_output(first, second);
        if let Err(status) = self.copy_out(output_address, output.as_slice()) {
            let both: Vec<Handle> = vec![first, second];
            assert(both@ =~= seq![first, second]);
            self.close_handles(both.as_slice());
            return Err(status);
        }
        Ok(())
    }

    /// Sends a message with the handles that it hands over.
    pub fn channel_write(&mut self, raw_channel: u64, args_address: u64) -> (result: Result<
        (),
        Status,
    >)
        ensures
            final(self).kept(*old(self)),
            did_channel_write(
                old(self).abi,
                raw_channel,
                args_address,
                old(self).log@,
                final(self).log@,
                result,
            ),
    {
        let channel: Handle = decode_handle(raw_channel)?;
        let raw_args: Vec<u8> = self.copy_in(args_address, CHANNEL_WRITE_ARGS_SIZE)?;
        let args: ChannelWriteArgs = parse_channel_write_args(
            &self.abi,
            raw_args.as_slice(),
        )?;
        let bytes: Vec<u8> = self.copy_in(args.bytes_address, args.byte_count)?;
        let raw_dispositions: Vec<u8> = self.copy_in(
            args.dispositions_address,
            args.disposition_bytes,
        )?;
        let dispositions: Vec<HandleOperationDisposition> = parse_dispositions(
            &self.abi,
            raw_dispositions.as_slice(),
        )?;
        match self.flag(Call::CanSend { bytes: args.byte_count }) {
            Err(status) => {
                return Err(status);
            },
            Ok(false) => {
                return Err(Status::ResourceLimit);
            },
            Ok(true) => {},
        }
        self.send(channel, bytes.as_slice(), dispositions.as_slice())?;
        self.done(Call::RecordSent { bytes: args.byte_count })
    }
}

/// A message is sent: its record, its bytes and its handles are read, the process is
/// charged with its bytes, and nothing is sent that it may not send.
pub open spec fn channel_written(
    abi: Abi,
    channel: Handle,
    args_address: u64,
    log: Seq<Event>,
    base: int,
    result: Result<(), Status>,
) -> bool {
    &&& asked_at(
        log,
        base,
        Ask::Plain(Call::CopyIn { address: args_address, length: CHANNEL_WRITE_ARGS_SIZE }),
    )
    &&& if log[base].refused() is Some {
        ended_at(log, base, result)
    } else {
        match channel_write_in(abi, log[base].bytes()) {
            Err(status) => stopped_at(log, base, result, status),
            Ok(args) => {
                &&& asked_at(
                    log,
                    base + 1,
                    Ask::Plain(
                        Call::CopyIn { address: args.bytes_address, length: args.byte_count },
                    ),
                )
                &&& if log[base + 1].refused() is Some {
                    ended_at(log, base + 1, result)
                } else {
                    &&& asked_at(
                        log,
                        base + 2,
                        Ask::Plain(
                            Call::CopyIn {
                                address: args.dispositions_address,
                                length: args.disposition_bytes,
                            },
                        ),
                    )
                    &&& if log[base + 2].refused() is Some {
                        ended_at(log, base + 2, result)
                    } else {
                        message_sent(abi, channel, args, log, base + 3, result)
                    }
                }
            },
        }
    }
}

/// What was read of a message is sent.
pub open spec fn message_sent(
    abi: Abi,
    channel: Handle,
    args: ChannelWriteArgs,
    log: Seq<Event>,
    at: int,
    result: Result<(), Status>,
) -> bool {
    match dispositions_in(abi, log[at - 1].bytes(), (args.disposition_bytes / 16) as nat) {
        Err(status) => stopped_at(log, at - 1, result, status),
        Ok(dispositions) => {
            &&& asked_at(log, at, Ask::Plain(Call::CanSend { bytes: args.byte_count }))
            &&& match log[at].answer->Flag_0 {
                Err(status) => stopped_at(log, at, result, status),
                Ok(false) => stopped_at(log, at, result, Status::ResourceLimit),
                Ok(true) => ran_through(
                    log,
                    at + 1,
                    seq![
                        Ask::Send { channel, bytes: log[at - 2].bytes(), dispositions },
                        Ask::Plain(Call::RecordSent { bytes: args.byte_count }),
                    ],
                    result,
                ),
            }
        },
    }
}

/// The records of the handles that came with a message, as far as the answers from `base`
/// on give them.
pub open spec fn received_records(handles: Seq<Handle>, log: Seq<Event>, base: int) -> Seq<u8>
    decreases handles.len(),
{
    if handles.len() == 0 {
        Seq::empty()
    } else {
        let last = handles.len() - 1;
        received_records(handles.drop_last(), log, base) + received_record(
            handles[last],
            log[base + 2 * last].answer->Bits_0->Ok_0,
            log[base + 2 * last + 1].answer->Bits_0->Ok_0,
        )
    }
}

/// What is asked of each handle that came with a message.
pub open spec fn metadata_asks(handles: Seq<Handle>) -> Seq<Ask>
    decreases handles.len(),
{
    if handles.len() == 0 {
        Seq::empty()
    } else {
        metadata_asks(handles.drop_last()).push(
            Ask::Plain(Call::HandleRights { handle: handles.last() }),
        ).push(Ask::Plain(Call::ObjectType { handle: handles.last() }))
    }
}

/// The questions about handles are two for each.
pub(crate) proof fn lemma_metadata_asks(handles: Seq<Handle>)
    ensures
        metadata_asks(handles).len() == 2 * handles.len(),
    decreases handles.len(),
{
    if handles.len() > 0 {
        lemma_metadata_asks(handles.drop_last());
    }
}

/// The records that the answers from `base` on give for the handles, or that one of them
/// was refused.
pub open spec fn metadata_filled(
    handles: Seq<Handle>,
    log: Seq<Event>,
    base: int,
    result: Result<Seq<u8>, Status>,
) -> bool {
    let asks = metadata_asks(handles);
    match result {
        Ok(records) => {
            &&& records == received_records(handles, log, base)
            &&& asked_from(log, base, asks)
            &&& forall|i: int| 0 <= i < asks.len() ==> (#[trigger] log[base + i]).refused() is None
        },
        Err(status) => {
            &&& status == Status::InvalidMessage
            &&& base < log.len() <= base + asks.len()
            &&& forall|i: int|
                0 <= i < log.len() - base ==> log[base + i].ask == #[trigger] asks[i]
            &&& log[log.len() - 1].refused() is Some
        },
    }
}

impl<K: Kernel> Session<K> {
    /// Finds what a received handle is.
    fn describe_handle(&mut self, handle: Handle) -> (result: Result<(u32, u32), Status>)
        ensures
            final(self).kept(*old(self)),
            ({
                let log = final(self).log@;
                let base = old(self).log@.len() as int;
                &&& asked_at(log, base, Ask::Plain(Call::HandleRights { handle }))
                &&& match result {
                    Ok((rights, object_type)) => {
                        &&& log.len() == base + 2
                        &&& log[base].answer == Answer::Bits(Ok(rights))
                        &&& log[base + 1] == (Event {
                            ask: Ask::Plain(Call::ObjectType { handle }),
                            answer: Answer::Bits(Ok(object_type)),
                        })
                    },
                    Err(status) => {
                        &&& status == Status::InvalidMessage
                        &&& if log[base].refused() is Some {
                            log.len() == base + 1
                        } else {
                            &&& log.len() == base + 2
                            &&& log[base + 1].ask == Ask::Plain(Call::ObjectType { handle })
                            &&& log[base + 1].refused() is Some
                        }
                    },
                }
            }),
    {
        let rights: u32 = match self.bits(Call::HandleRights { handle }) {
            Ok(rights) => rights,
            Err(_) => {
                return Err(Status::InvalidMessage);
            },
        };
        match self.bits(Call::ObjectType { handle }) {
            Ok(object_type) => Ok((rights, object_type)),
            Err(_) => Err(Status::InvalidMessage),
        }
    }

    /// Writes the records of received handles, if there is exactly room for them.
    pub fn fill_received_handle_metadata(&mut self, handles: &[Handle], room: usize) -> (result:
        Result<Vec<u8>, Status>)
        ensures
            final(self).kept(*old(self)),
            if room != handles@.len() * RECEIVED_HANDLE_SIZE {
                &&& result == Err::<Vec<u8>, Status>(Status::InvalidMessage)
                &&& final(self).log@ == old(self).log@
            } else {
                &&& metadata_filled(
                    handles@,
                    final(self).log@,
                    old(self).log@.len() as int,
                    super::kernel::bytes_answered(result),
                )
                &&& result matches Ok(records) ==> records@.len() == room
            },
    {
        match handles.len().checked_mul(RECEIVED_HANDLE_SIZE) {
            None => {
                return Err(Status::InvalidMessage);
            },
            Some(expected) => if room != expected {
                return Err(Status::InvalidMessage);
            },
        }
        let ghost base = self.log@.len() as int;
        let mut records: Vec<u8> = Vec::new();
        let mut index: usize = 0;
        proof {
            assert(handles@.subrange(0, 0) =~= Seq::empty());
        }
        while index < handles.len()
            invariant
                index <= handles@.len(),
                room == handles@.len() * 16,
                base == old(self).log@.len(),
                self.kept(*old(self)),
                records@.len() == 16 * index,
                metadata_filled(
                    handles@.subrange(0, index as int),
                    self.log@,
                    base,
                    Ok(records@),
                ),
            decreases handles@.len() - index,
        {
            let handle: Handle = handles[index];
            let ghost log = self.log@;
            let ghost before = handles@.subrange(0, index as int);
            let ghost after = handles@.subrange(0, index + 1);
            proof {
                assert(after.drop_last() =~= before);
                lemma_metadata_asks(before);
                lemma_metadata_asks(handles@);
                lemma_asks_prefix(handles@, (index + 1) as nat);
            }
            match self.describe_handle(handle) {
                Err(status) => {
                    proof {
                        let asks = metadata_asks(handles@);
                        assert forall|i: int| 0 <= i < self.log@.len() - base implies self.log@[base
                            + i].ask == #[trigger] asks[i] by {
                            assert(asks[i] == metadata_asks(after)[i]);
                            if i < 2 * index {
                                assert(metadata_asks(after)[i] == metadata_asks(before)[i]);
                                assert(self.log@[base + i] == log[base + i]);
                            }
                        }
                    }
                    return Err(status);
                },
                Ok((rights, object_type)) => {
                    push_received_handle(&mut records, handle, rights, object_type);
                    proof {
                        lemma_records_stay(before, log, self.log@, base);
                        let asks = metadata_asks(after);
                        assert forall|i: int| 0 <= i < asks.len() implies self.log@[base + i].ask
                            == #[trigger] asks[i] by {
                            if i < 2 * index {
                                assert(asks[i] == metadata_asks(before)[i]);
                                assert(self.log@[base + i] == log[base + i]);
                            }
                        }
                        assert forall|i: int| 0 <= i < asks.len() implies (
                        #[trigger] self.log@[base + i]).refused() is None by {
                            if i < 2 * index {
                                assert(self.log@[base + i] == log[base + i]);
                            }
                        }
                    }
                },
            }
            index += 1;
        }
        assert(handles@.subrange(0, handles@.len() as int) =~= handles@);
        Ok(records)
    }
}

/// The questions about the first handles come first.
proof fn lemma_asks_prefix(handles: Seq<Handle>, count: nat)
    requires
        count <= handles.len(),
    ensures
        metadata_asks(handles).len() == 2 * handles.len(),
        forall|i: int|
            0 <= i < 2 * count ==> #[trigger] metadata_asks(handles)[i] == metadata_asks(
                handles.subrange(0, count as int),
            )[i],
    decreases handles.len(),
{
    lemma_metadata_asks(handles);
    if count < handles.len() {
        lemma_asks_prefix(handles.drop_last(), count);
        lemma_metadata_asks(handles.drop_last());
        assert(handles.drop_last().subrange(0, count as int) =~= handles.subrange(0, count as int));
    } else {
        assert(handles.subrange(0, count as int) =~= handles);
    }
}

/// Records depend only on the answers that they were made of.
proof fn lemma_records_stay(handles: Seq<Handle>, log: Seq<Event>, longer: Seq<Event>, base: int)
    requires
        0 <= base,
        base + 2 * handles.len() <= log.len(),
        extends(log, longer),
    ensures
        received_records(handles, longer, base) == received_records(handles, log, base),
    decreases handles.len(),
{
    if handles.len() > 0 {
        lemma_records_stay(handles.drop_last(), log, longer, base);
    }
}

} // verus!
