//! One transfer between a local segment and a remote one.
//!
//! A transfer is an exchange: a message goes to the node that holds the
//! remote segment, and a reply of known length comes back. Here stands what
//! goes out and what the reply does; the caller carries the bytes.

use vstd::prelude::*;

use crate::error::TransferError;
use crate::memory;
use crate::wire;
use crate::wire::OpCode;

verus! {

/// A transfer of `length` bytes between the local segment, from
/// `source_offset` on, and the segment `target_id`, from `target_offset` on.
#[derive(Debug, PartialEq, Eq)]
pub struct TransferRequest {
    pub opcode: OpCode,
    pub source_offset: usize,
    pub target_id: String,
    pub target_offset: usize,
    pub length: usize,
}

/// What a [`TransferRequest`] says.
pub struct RequestView {
    pub opcode: OpCode,
    pub source_offset: nat,
    pub target_id: Seq<char>,
    pub target_offset: nat,
    pub length: nat,
}

impl View for TransferRequest {
    type V = RequestView;

    open spec fn view(&self) -> RequestView {
        RequestView {
            opcode: self.opcode,
            source_offset: self.source_offset as nat,
            target_id: self.target_id@,
            target_offset: self.target_offset as nat,
            length: self.length as nat,
        }
    }
}

impl Clone for TransferRequest {
    fn clone(&self) -> (copy: Self)
        ensures
            copy@ == self@,
    {
        TransferRequest {
            opcode: self.opcode,
            source_offset: self.source_offset,
            target_id: self.target_id.clone(),
            target_offset: self.target_offset,
            length: self.length,
        }
    }
}

/// A message to send, and the length of the reply to wait for.
#[derive(Debug, PartialEq, Eq)]
pub struct Exchange {
    pub message: Vec<u8>,
    pub reply_length: usize,
}

/// What an [`Exchange`] says.
#[verifier::ext_equal]
pub struct ExchangeView {
    pub message: Seq<u8>,
    pub reply_length: nat,
}

impl View for Exchange {
    type V = ExchangeView;

    open spec fn view(&self) -> ExchangeView {
        ExchangeView { message: self.message@, reply_length: self.reply_length as nat }
    }
}

/// The exchange that writes `data` into the remote segment from `offset` on.
pub open spec fn write_exchange(offset: nat, data: Seq<u8>) -> ExchangeView {
    ExchangeView {
        message: wire::header_bytes(data.len(), offset, OpCode::Write) + data,
        reply_length: 1,
    }
}

/// The exchange that reads `length` bytes of the remote segment from `offset`
/// on.
pub open spec fn read_exchange(offset: nat, length: nat) -> ExchangeView {
    ExchangeView {
        message: wire::header_bytes(length, offset, OpCode::Read),
        reply_length: length,
    }
}

/// The exchange that writes `data` into the remote segment from `offset` on.
pub fn write_bytes(offset: usize, data: &[u8]) -> (exchange: Exchange)
    ensures
        exchange@ == write_exchange(offset as nat, data@),
{
    let header = wire::encode_header(data.len(), offset, OpCode::Write);
    let mut message = vstd::slice::slice_to_vec(header.as_slice());
    message.extend_from_slice(data);
    let exchange = Exchange { message, reply_length: 1 };
    assert(exchange@ =~= write_exchange(offset as nat, data@));
    exchange
}

/// The exchange that reads `length` bytes of the remote segment from `offset`
/// on.
pub fn read_bytes(offset: usize, length: usize) -> (exchange: Exchange)
    ensures
        exchange@ == read_exchange(offset as nat, length as nat),
{
    let header = wire::encode_header(length, offset, OpCode::Read);
    Exchange { message: vstd::slice::slice_to_vec(header.as_slice()), reply_length: length }
}

/// Whether the reply to a write acknowledges it.
pub fn check_ack(ack: u8) -> (result: Result<(), TransferError>)
    ensures
        result == (if ack == wire::ACK {
            Ok::<(), TransferError>(())
        } else {
            Err::<(), TransferError>(TransferError::AckFailed)
        }),
{
    if ack == wire::ACK {
        Ok(())
    } else {
        Err(TransferError::AckFailed)
    }
}

/// The exchange of a request, given what the local segment holds. A write
/// takes its data from the local segment.
pub open spec fn request_exchange(request: RequestView, local: Seq<u8>) -> ExchangeView {
    match request.opcode {
        OpCode::Write => write_exchange(
            request.target_offset,
            memory::slice_of(local, request.source_offset, request.length),
        ),
        OpCode::Read => read_exchange(request.target_offset, request.length),
    }
}

/// Whether the request's range lies within the local segment.
pub open spec fn source_in_bounds(request: RequestView, local: Seq<u8>) -> bool {
    memory::in_bounds(request.source_offset, request.length, local.len())
}

/// Starts a transfer. A write whose range does not lie within the local
/// segment fails before anything is sent.
pub fn begin_transfer(request: &TransferRequest, local: &Vec<u8>) -> (result: Result<
    Exchange,
    TransferError,
>)
    ensures
        request.opcode == OpCode::Write && !source_in_bounds(request@, local@) ==> result == Err::<
            Exchange,
            TransferError,
        >(
            TransferError::OutOfBounds {
                offset: request.source_offset,
                length: request.length,
                capacity: local@.len() as usize,
            },
        ),
        request.opcode == OpCode::Read || source_in_bounds(request@, local@) ==> (result matches Ok(
            exchange,
        ) && exchange@ == request_exchange(request@, local@)),
{
    match request.opcode {
        OpCode::Write => {
            match memory::read_range(local, request.source_offset, request.length) {
                Ok(data) => Ok(write_bytes(request.target_offset, data.as_slice())),
                Err(err) => Err(err),
            }
        },
        OpCode::Read => Ok(read_bytes(request.target_offset, request.length)),
    }
}

/// Ends a transfer with the reply that came: a write is acknowledged, and
/// what a read brought goes into the local segment. A read whose range does
/// not lie within the local segment fails and leaves it as it was.
pub fn finish_transfer(request: &TransferRequest, reply: &Vec<u8>, local: &mut Vec<u8>) -> (result:
    Result<(), TransferError>)
    requires
        reply@.len() == request_exchange(request@, old(local)@).reply_length,
    ensures
        request.opcode == OpCode::Write ==> final(local)@ == old(local)@ && result == (if reply@[0]
            == wire::ACK {
            Ok::<(), TransferError>(())
        } else {
            Err::<(), TransferError>(TransferError::AckFailed)
        }),
        request.opcode == OpCode::Read && source_in_bounds(request@, old(local)@) ==> result == Ok::<
            (),
            TransferError,
        >(()) && final(local)@ == memory::overwrite(
            old(local)@,
            request.source_offset as nat,
            reply@,
        ),
        request.opcode == OpCode::Read && !source_in_bounds(request@, old(local)@) ==> result
            == Err::<(), TransferError>(
            TransferError::OutOfBounds {
                offset: request.source_offset,
                length: request.length,
                capacity: old(local)@.len() as usize,
            },
        ) && final(local)@ == old(local)@,
{
    match request.opcode {
        OpCode::Write => check_ack(reply[0]),
        OpCode::Read => memory::write_range(local, request.source_offset, reply.as_slice()),
    }
}

impl TransferRequest {
    /// The view keeps every field.
    pub proof fn law_view_tells_all(self)
        ensures
            self@.opcode == self.opcode,
            self@.source_offset == self.source_offset,
            self@.target_id == self.target_id@,
            self@.target_offset == self.target_offset,
            self@.length == self.length,
    {
    }
}

impl Exchange {
    /// The view keeps every field.
    pub proof fn law_view_tells_all(self)
        ensures
            self@.message == self.message@,
            self@.reply_length == self.reply_length,
    {
    }
}

/// The message of a write is a header that tells how many bytes go where, and
/// behind it the bytes, each in its place. One byte is waited for.
pub proof fn law_write_message_layout(offset: nat, data: Seq<u8>)
    ensures
        ({
            let exchange = write_exchange(offset, data);
            &&& exchange.message.len() == 17 + data.len()
            &&& exchange.message.take(17) == wire::header_bytes(data.len(), offset, OpCode::Write)
            &&& forall|i: int|
                0 <= i < data.len() ==> exchange.message[17 + i] == #[trigger] data[i]
            &&& exchange.reply_length == 1
        }),
{
    let header = wire::header_bytes(data.len(), offset, OpCode::Write);
    wire::law_header_layout(data.len(), offset, OpCode::Write);
    assert(write_exchange(offset, data).message.take(17) =~= header);
}

/// The message of a read is a header that tells how many bytes are wanted and
/// from where. That many bytes are waited for.
pub proof fn law_read_message_layout(offset: nat, length: nat)
    ensures
        read_exchange(offset, length).message == wire::header_bytes(length, offset, OpCode::Read),
        read_exchange(offset, length).message.len() == 17,
        read_exchange(offset, length).reply_length == length,
{
    wire::law_header_layout(length, offset, OpCode::Read);
}

/// A write request sends the bytes of its source range, each in its place, to
/// its target offset; a read request asks for as many bytes from its target
/// offset.
pub proof fn law_request_exchange_is_what_it_asks_for(request: RequestView, local: Seq<u8>)
    ensures
        source_in_bounds(request, local) <==> request.source_offset + request.length
            <= local.len(),
        request.opcode == OpCode::Read ==> request_exchange(request, local) == read_exchange(
            request.target_offset,
            request.length,
        ),
        request.opcode == OpCode::Write && request.source_offset + request.length <= local.len()
            ==> ({
            let exchange = request_exchange(request, local);
            &&& exchange.message.len() == 17 + request.length
            &&& exchange.message.take(17) == wire::header_bytes(
                request.length,
                request.target_offset,
                OpCode::Write,
            )
            &&& forall|i: int|
                17 <= i < 17 + request.length ==> #[trigger] exchange.message[i]
                    == local[request.source_offset + i - 17]
            &&& exchange.reply_length == 1
        }),
{
    if request.opcode == OpCode::Write && request.source_offset + request.length <= local.len() {
        let data = memory::slice_of(local, request.source_offset, request.length);
        law_write_message_layout(request.target_offset, data);
        let message = request_exchange(request, local).message;
        assert forall|i: int| 17 <= i < 17 + request.length implies #[trigger] message[i]
            == local[request.source_offset + i - 17] by {
            assert(message[17 + (i - 17)] == data[i - 17]);
        }
    }
}

/// A write is acknowledged by a 1 and by nothing else.
pub proof fn law_only_one_acknowledges(ack: u8, result: Result<(), TransferError>)
    requires
        call_ensures(check_ack, (ack,), result),
    ensures
        result is Ok <==> ack == 1,
        result is Err ==> result->Err_0 == TransferError::AckFailed,
{
}

} // verus!
