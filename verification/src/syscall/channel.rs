//! Receiving a message.
use vstd::prelude::*;

use crate::bytes::part_of;

use super::abi::{Abi, Handle, Status};
use super::handles::{
    channel_read_in, close_asks, metadata_filled, parse_channel_read_args, received_records,
    ChannelReadArgs,
};
use super::kernel::{
    asked_at, asked_from, ended_at, failed_in, lemma_beginning, passed, ran, rejected, stopped_at,
    Ask, Call, Event, Kernel, MessageModel, ReceiveError, ReceivedMessage, Session,
};
use super::wire::{
    decode_handle, encode_channel_read_output, handle_in, message_record, CHANNEL_READ_ARGS_SIZE,
    CHANNEL_READ_OUTPUT_SIZE, RECEIVED_HANDLE_SIZE,
};

verus! {

broadcast use super::heard::group_heard;

/// What is checked before a message is taken out of its channel.
pub open spec fn read_checks(args: ChannelReadArgs) -> Seq<Ask> {
    seq![
        Ask::Plain(Call::CheckOutput { address: args.bytes_address, length: args.byte_capacity }),
        Ask::Plain(Call::CheckOutput { address: args.handles_address, length: args.handle_bytes }),
        Ask::Plain(
            Call::CheckOutput { address: args.output_address, length: CHANNEL_READ_OUTPUT_SIZE },
        ),
    ]
}

/// A message that does not say what it holds.
pub open spec fn malformed(message: MessageModel) -> bool {
    message.info.byte_count > message.bytes.len() || message.info.handle_count
        > message.handles.len() || message.info.reserved != 0
}

/// Handles of a malformed message that are there.
pub open spec fn stray_handles(message: MessageModel) -> Seq<Handle> {
    if message.info.handle_count <= message.handles.len() {
        message.handles.take(message.info.handle_count as int)
    } else {
        message.handles
    }
}

/// What a process is given of a message.
pub open spec fn message_copies(args: ChannelReadArgs, message: MessageModel, records: Seq<u8>) -> Seq<
    Ask,
> {
    seq![
        Ask::With(
            Call::CopyOut { address: args.bytes_address },
            message.bytes.take(message.info.byte_count as int),
        ),
        Ask::With(Call::CopyOut { address: args.handles_address }, records),
        Ask::With(Call::CopyOut { address: args.output_address }, message_record(message.info)),
    ]
}

/// A message that was taken out of its channel is handed over, or all its handles are
/// closed.
pub open spec fn message_delivered(
    abi: Abi,
    args: ChannelReadArgs,
    message: MessageModel,
    log: Seq<Event>,
    at: int,
    result: Result<(), Status>,
) -> bool {
    if malformed(message) {
        &&& result == Err::<(), Status>(Status::InvalidMessage)
        &&& asked_from(log, at, close_asks(abi, stray_handles(message)))
    } else {
        let received = message.handles.take(message.info.handle_count as int);
        let closes = close_asks(abi, received);
        let known = log.len() - closes.len();
        let described = at + 2 * received.len();
        ||| {
            &&& at <= known <= log.len()
            &&& metadata_filled(received, log.take(known), at, Err(Status::InvalidMessage))
            &&& asked_from(log, known, closes)
            &&& result == Err::<(), Status>(Status::InvalidMessage)
        }
        ||| {
            &&& at <= described <= log.len()
            &&& metadata_filled(
                received,
                log.take(described),
                at,
                Ok(received_records(received, log.take(described), at)),
            )
            &&& ran(
                log,
                described,
                message_copies(
                    args,
                    message,
                    received_records(received, log.take(described), at),
                ),
                0,
                closes,
                result,
            )
        }
    }
}

/// The channel is asked for a message.
pub open spec fn message_received(
    abi: Abi,
    channel: Handle,
    args: ChannelReadArgs,
    log: Seq<Event>,
    at: int,
    result: Result<(), Status>,
) -> bool {
    &&& asked_at(
        log,
        at,
        Ask::Receive {
            channel,
            byte_capacity: args.byte_capacity,
            handle_capacity: args.handle_capacity,
        },
    )
    &&& match log[at].answer->Message_0 {
        Err(ReceiveError::Failed(status)) => stopped_at(log, at, result, status),
        Err(ReceiveError::TooSmall(info)) => {
            &&& asked_at(
                log,
                at + 1,
                Ask::With(Call::CopyOut { address: args.output_address }, message_record(info)),
            )
            &&& if log[at + 1].refused() is Some {
                ended_at(log, at + 1, result)
            } else {
                stopped_at(log, at + 1, result, Status::BufferTooSmall)
            }
        },
        Ok(message) => message_delivered(abi, args, message, log, at + 1, result),
    }
}

/// A message is received: where it goes is read and checked first, so that nothing is
/// taken out of the channel that could not be handed over.
pub open spec fn channel_read_ran(
    abi: Abi,
    channel: Handle,
    args_address: u64,
    log: Seq<Event>,
    base: int,
    result: Result<(), Status>,
) -> bool {
    &&& asked_at(
        log,
        base,
        Ask::Plain(Call::CopyIn { address: args_address, length: CHANNEL_READ_ARGS_SIZE }),
    )
    &&& if log[base].refused() is Some {
        ended_at(log, base, result)
    } else {
        match channel_read_in(abi, log[base].bytes()) {
            Err(status) => stopped_at(log, base, result, status),
            Ok(args) => {
                ||| failed_in(log, base + 1, read_checks(args), result)
                ||| passed(log, base + 1, read_checks(args)) && message_received(
                    abi,
                    channel,
                    args,
                    log,
                    base + 4,
                    result,
                )
            },
        }
    }
}

/// What `channel_read` asks for, and what comes of it.
pub open spec fn did_channel_read(
    abi: Abi,
    raw_channel: u64,
    args_address: u64,
    before: Seq<Event>,
    log: Seq<Event>,
    result: Result<(), Status>,
) -> bool {
    match handle_in(raw_channel) {
        Err(status) => rejected(before, log, result, status),
        Ok(channel) => channel_read_ran(
            abi,
            channel,
            args_address,
            log,
            before.len() as int,
            result,
        ),
    }
}

impl<K: Kernel> Session<K> {
    /// Hands a message over, or closes all its handles.
    fn deliver(&mut self, args: &ChannelReadArgs, message: ReceivedMessage) -> (result: Result<
        (),
        Status,
    >)
        ensures
            final(self).kept(*old(self)),
            message_delivered(
                old(self).abi,
                *args,
                MessageModel {
                    bytes: message.bytes@,
                    handles: message.handles@,
                    info: message.info,
                },
                final(self).log@,
                old(self).log@.len() as int,
                result,
            ),
    {
        let ghost model = MessageModel {
            bytes: message.bytes@,
            handles: message.handles@,
            info: message.info,
        };
        let ghost at = self.log@.len() as int;
        let byte_count: usize = message.info.byte_count as usize;
        let handle_count: usize = message.info.handle_count as usize;
        if byte_count > message.bytes.len() || handle_count > message.handles.len()
            || message.info.reserved != 0 {
            let there: usize = if handle_count <= message.handles.len() {
                handle_count
            } else {
                message.handles.len()
            };
            let stray: &[Handle] = vstd::slice::slice_subrange(message.handles.as_slice(), 0, there);
            assert(stray@ =~= stray_handles(model));
            self.close_handles(stray);
            return Err(Status::InvalidMessage);
        }
        let received: &[Handle] = vstd::slice::slice_subrange(
            message.handles.as_slice(),
            0,
            handle_count,
        );
        assert(received@ =~= model.handles.take(handle_count as int));
        let filled: Result<Vec<u8>, Status> = self.fill_received_handle_metadata(
            received,
            handle_count * RECEIVED_HANDLE_SIZE,
        );
        let ghost known = self.log@;
        let metadata: Vec<u8> = match filled {
            Ok(metadata) => metadata,
            Err(_) => {
                self.close_handles(received);
                proof {
                    lemma_beginning(known, self.log@);
                }
                return Err(Status::InvalidMessage);
            },
        };
        let output: Vec<u8> = encode_channel_read_output(message.info);
        let bytes: &[u8] = part_of(message.bytes.as_slice(), 0, byte_count);
        assert(bytes@ =~= model.bytes.take(byte_count as int));
        let mut copied: Result<(), Status> = self.copy_out(args.bytes_address, bytes);
        if copied.is_ok() {
            copied = self.copy_out(args.handles_address, metadata.as_slice());
        }
        if copied.is_ok() {
            copied = self.copy_out(args.output_address, output.as_slice());
        }
        let ghost handed = self.log@;
        proof {
            lemma_beginning(known, self.log@);
            super::handles::lemma_metadata_asks(received@);
        }
        if copied.is_err() {
            self.close_handles(received);
            proof {
                lemma_beginning(known, self.log@);
            }
        }
        copied
    }

    /// Receives a message.
    pub fn channel_read(&mut self, raw_channel: u64, args_address: u64) -> (result: Result<
        (),
        Status,
    >)
        ensures
            final(self).kept(*old(self)),
            did_channel_read(
                old(self).abi,
                raw_channel,
                args_address,
                old(self).log@,
                final(self).log@,
                result,
            ),
    {
        let channel: Handle = decode_handle(raw_channel)?;
        let raw_args: Vec<u8> = self.copy_in(args_address, CHANNEL_READ_ARGS_SIZE)?;
        let args: ChannelReadArgs = parse_channel_read_args(&self.abi, raw_args.as_slice())?;
        self.check_output(args.bytes_address, args.byte_capacity)?;
        self.check_output(args.handles_address, args.handle_bytes)?;
        self.check_output(args.output_address, CHANNEL_READ_OUTPUT_SIZE)?;
        match self.receive(channel, args.byte_capacity, args.handle_capacity) {
            Err(ReceiveError::TooSmall(info)) => {
                let output: Vec<u8> = encode_channel_read_output(info);
                self.copy_out(args.output_address, output.as_slice())?;
                Err(Status::BufferTooSmall)
            },
            Err(ReceiveError::Failed(status)) => Err(status),
            Ok(message) => self.deliver(&args, message),
        }
    }
}

} // verus!
