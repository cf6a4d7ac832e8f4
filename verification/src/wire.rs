//! The wire format of a transfer.
//!
//! ```text
//! [8B length | 8B remote offset | 1B opcode] + payload
//! ```
//!
//! Both numbers are little-endian. A write carries its payload and is
//! answered by one acknowledgement byte; a read carries none and is answered
//! by the bytes that were asked for.

use vstd::prelude::*;

use crate::error::TransferError;

verus! {

/// The number of bytes in a request header.
pub const HEADER_LEN: usize = 17;

/// The byte with which a server acknowledges a write.
pub const ACK: u8 = 1;

/// What a request does to the remote segment.
#[derive(Debug, Clone, Copy, PartialEq, Eq, Structural)]
pub enum OpCode {
    /// Reads from the remote segment into the local one.
    Read,
    /// Writes from the local segment into the remote one.
    Write,
}

impl OpCode {
    /// The byte that stands for the opcode in a header.
    pub open spec fn spec_code(self) -> u8 {
        match self {
            OpCode::Read => 0,
            OpCode::Write => 1,
        }
    }

    /// The byte that stands for the opcode in a header.
    pub fn code(self) -> (code: u8)
        ensures
            code == self.spec_code(),
    {
        match self {
            OpCode::Read => 0,
            OpCode::Write => 1,
        }
    }

    /// The opcode that a header byte stands for.
    pub open spec fn of_code(value: u8) -> Result<OpCode, TransferError> {
        if value == 0 {
            Ok(OpCode::Read)
        } else if value == 1 {
            Ok(OpCode::Write)
        } else {
            Err(TransferError::InvalidOpcode(value))
        }
    }
}

impl TryFrom<u8> for OpCode {
    type Error = TransferError;

    fn try_from(value: u8) -> (result: Result<Self, Self::Error>) {
        match value {
            0 => Ok(OpCode::Read),
            1 => Ok(OpCode::Write),
            other => Err(TransferError::InvalidOpcode(other)),
        }
    }
}

impl vstd::std_specs::convert::TryFromSpecImpl<u8> for OpCode {
    open spec fn obeys_try_from_spec() -> bool {
        true
    }

    open spec fn try_from_spec(value: u8) -> Result<Self, TransferError> {
        OpCode::of_code(value)
    }
}

/// The number that `bytes` stand for, least significant byte first.
pub open spec fn le_value(bytes: Seq<u8>) -> nat
    decreases bytes.len(),
{
    if bytes.len() == 0 {
        0
    } else {
        bytes[0] as nat + 256 * le_value(bytes.drop_first())
    }
}

/// The lowest `width` bytes of `value`, least significant byte first.
pub open spec fn le_bytes(value: nat, width: nat) -> Seq<u8>
    decreases width,
{
    if width == 0 {
        Seq::empty()
    } else {
        seq![(value % 256) as u8] + le_bytes(value / 256, (width - 1) as nat)
    }
}

/// The number of values that `width` bytes can hold.
pub open spec fn byte_limit(width: nat) -> nat
    decreases width,
{
    if width == 0 {
        1
    } else {
        256 * byte_limit((width - 1) as nat)
    }
}

/// `width` bytes stand for a number below [`byte_limit`].
proof fn lemma_le_value_bound(bytes: Seq<u8>)
    ensures
        le_value(bytes) < byte_limit(bytes.len()),
    decreases bytes.len(),
{
    if bytes.len() > 0 {
        lemma_le_value_bound(bytes.drop_first());
    }
}

/// Eight bytes hold exactly the values of `u64`.
proof fn lemma_eight_bytes_are_u64()
    ensures
        byte_limit(7) == 0x100_0000_0000_0000,
        byte_limit(8) == u64::MAX + 1,
{
    reveal_with_fuel(byte_limit, 9);
}

proof fn lemma_le_bytes_len(value: nat, width: nat)
    ensures
        le_bytes(value, width).len() == width,
    decreases width,
{
    if width > 0 {
        lemma_le_bytes_len(value / 256, (width - 1) as nat);
    }
}

/// Little-endian bytes decode to the number that was encoded, when they are
/// wide enough to hold it.
pub proof fn law_le_round_trip(value: nat, width: nat)
    requires
        value < byte_limit(width),
    ensures
        le_bytes(value, width).len() == width,
        le_value(le_bytes(value, width)) == value,
    decreases width,
{
    if width > 0 {
        law_le_round_trip(value / 256, (width - 1) as nat);
        let bytes = le_bytes(value, width);
        assert(bytes.drop_first() =~= le_bytes(value / 256, (width - 1) as nat));
    }
}

/// The number in the eight header bytes from `start` on.
fn header_u64(header: &[u8; HEADER_LEN], start: usize) -> (value: u64)
    requires
        start + 8 <= HEADER_LEN,
    ensures
        value == le_value(header@.subrange(start as int, start + 8)),
{
    let mut value: u64 = 0;
    let mut i: usize = 8;
    assert(header@.subrange(start + 8, start + 8) =~= Seq::empty());
    while i > 0
        invariant
            start + 8 <= HEADER_LEN,
            i <= 8,
            value == le_value(header@.subrange(start + i, start + 8)),
        decreases i,
    {
        let ghost rest = header@.subrange(start + i, start + 8);
        proof {
            lemma_le_value_bound(rest);
            lemma_byte_limit_monotonic(rest.len(), 7);
            lemma_eight_bytes_are_u64();
        }
        i = i - 1;
        assert(header@.subrange(start + i, start + 8).drop_first() =~= rest);
        value = header[start + i] as u64 + 256 * value;
    }
    value
}

proof fn lemma_byte_limit_monotonic(narrow: nat, wide: nat)
    requires
        narrow <= wide,
    ensures
        byte_limit(narrow) <= byte_limit(wide),
    decreases wide,
{
    if narrow < wide {
        lemma_byte_limit_monotonic(narrow, (wide - 1) as nat);
    }
}

/// Stores `value` in the eight header bytes from `start` on.
fn set_header_u64(header: &mut [u8; HEADER_LEN], start: usize, value: u64)
    requires
        start + 8 <= HEADER_LEN,
    ensures
        final(header)@ == old(header)@.subrange(0, start as int) + le_bytes(value as nat, 8)
            + old(header)@.subrange(start + 8, HEADER_LEN as int),
{
    let mut rest: u64 = value;
    let mut i: usize = 0;
    assert(header@.subrange(start as int, start as int) =~= Seq::empty());
    assert(Seq::<u8>::empty() + le_bytes(value as nat, 8) =~= le_bytes(value as nat, 8));
    while i < 8
        invariant
            start + 8 <= HEADER_LEN,
            i <= 8,
            header@.subrange(start as int, start + i) + le_bytes(rest as nat, (8 - i) as nat)
                == le_bytes(value as nat, 8),
            forall|j: int|
                0 <= j < HEADER_LEN && !(start <= j < start + i) ==> header@[j] == old(header)@[j],
        decreases 8 - i,
    {
        let ghost before = header@.subrange(start as int, start + i);
        let ghost tail = le_bytes((rest / 256) as nat, (7 - i) as nat);
        header[start + i] = (rest % 256) as u8;
        assert(header@.subrange(start as int, start + i + 1) =~= before.push((rest % 256) as u8));
        assert(before.push((rest % 256) as u8) + tail =~= before + (seq![(rest % 256) as u8] + tail));
        rest = rest / 256;
        i = i + 1;
    }
    proof {
        lemma_le_bytes_len(value as nat, 8);
    }
    assert(header@.subrange(start as int, start + 8) =~= le_bytes(value as nat, 8));
    assert(header@ =~= old(header)@.subrange(0, start as int) + header@.subrange(
        start as int,
        start + 8,
    ) + old(header)@.subrange(start + 8, HEADER_LEN as int));
}

/// The header of a request.
pub open spec fn header_bytes(length: nat, offset: nat, opcode: OpCode) -> Seq<u8> {
    le_bytes(length, 8) + le_bytes(offset, 8) + seq![opcode.spec_code()]
}

/// The request that a header asks for, or why it asks for none.
pub open spec fn parse_header(header: Seq<u8>) -> Result<(usize, usize, OpCode), TransferError> {
    let length = le_value(header.subrange(0, 8));
    let offset = le_value(header.subrange(8, 16));
    if length > usize::MAX {
        Err(TransferError::IntegerOverflow(length as u64))
    } else if offset > usize::MAX {
        Err(TransferError::IntegerOverflow(offset as u64))
    } else {
        match OpCode::of_code(header[16]) {
            Ok(opcode) => Ok((length as usize, offset as usize, opcode)),
            Err(err) => Err(err),
        }
    }
}

/// Encodes the header of a request.
pub fn encode_header(length: usize, offset: usize, opcode: OpCode) -> (header: [u8; HEADER_LEN])
    ensures
        header@ == header_bytes(length as nat, offset as nat, opcode),
{
    let mut header: [u8; HEADER_LEN] = [0u8; HEADER_LEN];
    set_header_u64(&mut header, 0, length as u64);
    set_header_u64(&mut header, 8, offset as u64);
    header[16] = opcode.code();
    proof {
        lemma_le_bytes_len(length as nat, 8);
        lemma_le_bytes_len(offset as nat, 8);
    }
    assert(header@ =~= header_bytes(length as nat, offset as nat, opcode));
    header
}

/// Decodes the header of a request: its length, its offset and its opcode.
pub fn decode_header(header: &[u8; HEADER_LEN]) -> (result: Result<
    (usize, usize, OpCode),
    TransferError,
>)
    ensures
        result == parse_header(header@),
{
    let length = header_u64(header, 0);
    let offset = header_u64(header, 8);
    if length > usize::MAX as u64 {
        return Err(TransferError::IntegerOverflow(length));
    }
    if offset > usize::MAX as u64 {
        return Err(TransferError::IntegerOverflow(offset));
    }
    match OpCode::try_from(header[16]) {
        Ok(opcode) => Ok((length as usize, offset as usize, opcode)),
        Err(err) => Err(err),
    }
}

/// A header that was encoded decodes to the request that it was made of.
pub proof fn law_header_round_trip(length: usize, offset: usize, opcode: OpCode)
    ensures
        header_bytes(length as nat, offset as nat, opcode).len() == HEADER_LEN,
        parse_header(header_bytes(length as nat, offset as nat, opcode)) == Ok::<
            (usize, usize, OpCode),
            TransferError,
        >((length, offset, opcode)),
{
    lemma_eight_bytes_are_u64();
    law_le_round_trip(length as nat, 8);
    law_le_round_trip(offset as nat, 8);
    let header = header_bytes(length as nat, offset as nat, opcode);
    assert(header.subrange(0, 8) =~= le_bytes(length as nat, 8));
    assert(header.subrange(8, 16) =~= le_bytes(offset as nat, 8));
}

proof fn lemma_le_bytes_of_value(bytes: Seq<u8>)
    ensures
        le_bytes(le_value(bytes), bytes.len()) == bytes,
    decreases bytes.len(),
{
    if bytes.len() > 0 {
        let rest = bytes.drop_first();
        lemma_le_bytes_of_value(rest);
        let value = le_value(bytes);
        assert(value % 256 == bytes[0] as nat && value / 256 == le_value(rest)) by {
            assert(value == bytes[0] as nat + 256 * le_value(rest));
        }
        assert(seq![bytes[0]] + rest =~= bytes);
    }
}

/// No two headers stand for the same request: a header that decodes is the
/// encoding of what it decodes to.
pub proof fn law_header_is_unique(header: Seq<u8>, length: usize, offset: usize, opcode: OpCode)
    requires
        header.len() == HEADER_LEN,
        parse_header(header) == Ok::<(usize, usize, OpCode), TransferError>(
            (length, offset, opcode),
        ),
    ensures
        header == header_bytes(length as nat, offset as nat, opcode),
{
    lemma_le_bytes_of_value(header.subrange(0, 8));
    lemma_le_bytes_of_value(header.subrange(8, 16));
    assert(header =~= header.subrange(0, 8) + header.subrange(8, 16) + seq![header[16]]);
}

/// The eight little-endian bytes of a number, one by one.
proof fn lemma_le_bytes_one_by_one(value: nat)
    ensures
        le_bytes(value, 8).len() == 8,
        le_bytes(value, 8)[0] == value % 0x100,
        le_bytes(value, 8)[1] == (value / 0x100) % 0x100,
        le_bytes(value, 8)[2] == (value / 0x1_0000) % 0x100,
        le_bytes(value, 8)[3] == (value / 0x100_0000) % 0x100,
        le_bytes(value, 8)[4] == (value / 0x1_0000_0000) % 0x100,
        le_bytes(value, 8)[5] == (value / 0x100_0000_0000) % 0x100,
        le_bytes(value, 8)[6] == (value / 0x1_0000_0000_0000) % 0x100,
        le_bytes(value, 8)[7] == (value / 0x100_0000_0000_0000) % 0x100,
{
    lemma_le_bytes_len(value, 8);
    assert((value / 0x100) / 0x100 == value / 0x1_0000);
    assert((value / 0x1_0000) / 0x100 == value / 0x100_0000);
    assert((value / 0x100_0000) / 0x100 == value / 0x1_0000_0000);
    assert((value / 0x1_0000_0000) / 0x100 == value / 0x100_0000_0000);
    assert((value / 0x100_0000_0000) / 0x100 == value / 0x1_0000_0000_0000);
    assert((value / 0x1_0000_0000_0000) / 0x100 == value / 0x100_0000_0000_0000);
    reveal_with_fuel(le_bytes, 9);
}

/// The number that eight little-endian bytes stand for.
proof fn lemma_le_value_of_eight(bytes: Seq<u8>)
    requires
        bytes.len() == 8,
    ensures
        le_value(bytes) == bytes[0] + 0x100 * bytes[1] + 0x1_0000 * bytes[2] + 0x100_0000 * bytes[3] + 0x1_0000_0000 * bytes[4] + 0x100_0000_0000 * bytes[5] + 0x1_0000_0000_0000 * bytes[6] + 0x100_0000_0000_0000 * bytes[7],
{
    reveal_with_fuel(le_value, 9);
}

/// Where everything lies in a header: the length in the first eight bytes and
/// the offset in the next eight, each with its lowest byte first, and then a 0
/// for a read or a 1 for a write.
pub proof fn law_header_layout(length: nat, offset: nat, opcode: OpCode)
    ensures
        header_bytes(length, offset, opcode).len() == 17,
        header_bytes(length, offset, opcode)[0] == length % 0x100,
        header_bytes(length, offset, opcode)[1] == (length / 0x100) % 0x100,
        header_bytes(length, offset, opcode)[2] == (length / 0x1_0000) % 0x100,
        header_bytes(length, offset, opcode)[3] == (length / 0x100_0000) % 0x100,
        header_bytes(length, offset, opcode)[4] == (length / 0x1_0000_0000) % 0x100,
        header_bytes(length, offset, opcode)[5] == (length / 0x100_0000_0000) % 0x100,
        header_bytes(length, offset, opcode)[6] == (length / 0x1_0000_0000_0000) % 0x100,
        header_bytes(length, offset, opcode)[7] == (length / 0x100_0000_0000_0000) % 0x100,
        header_bytes(length, offset, opcode)[8] == offset % 0x100,
        header_bytes(length, offset, opcode)[9] == (offset / 0x100) % 0x100,
        header_bytes(length, offset, opcode)[10] == (offset / 0x1_0000) % 0x100,
        header_bytes(length, offset, opcode)[11] == (offset / 0x100_0000) % 0x100,
        header_bytes(length, offset, opcode)[12] == (offset / 0x1_0000_0000) % 0x100,
        header_bytes(length, offset, opcode)[13] == (offset / 0x100_0000_0000) % 0x100,
        header_bytes(length, offset, opcode)[14] == (offset / 0x1_0000_0000_0000) % 0x100,
        header_bytes(length, offset, opcode)[15] == (offset / 0x100_0000_0000_0000) % 0x100,
        opcode == OpCode::Read ==> header_bytes(length, offset, opcode)[16] == 0,
        opcode == OpCode::Write ==> header_bytes(length, offset, opcode)[16] == 1,
{
    lemma_le_bytes_one_by_one(length);
    lemma_le_bytes_one_by_one(offset);
}

/// What a header says: its length and its offset are the numbers that the
/// bytes stand for with the lowest one first, and its opcode is a read for 0
/// and a write for 1. A number that `usize` cannot hold is refused, the length
/// before the offset, and then an opcode that does not exist.
pub proof fn law_header_meaning(header: Seq<u8>)
    requires
        header.len() == 17,
    ensures
        ({
            let length = header[0] + 0x100 * header[1] + 0x1_0000 * header[2] + 0x100_0000 * header[3] + 0x1_0000_0000 * header[4] + 0x100_0000_0000 * header[5] + 0x1_0000_0000_0000 * header[6] + 0x100_0000_0000_0000 * header[7];
            let offset = header[8] + 0x100 * header[9] + 0x1_0000 * header[10] + 0x100_0000 * header[11] + 0x1_0000_0000 * header[12] + 0x100_0000_0000 * header[13] + 0x1_0000_0000_0000 * header[14] + 0x100_0000_0000_0000 * header[15];
            let parsed = parse_header(header);
            &&& length > usize::MAX ==> parsed == Err::<(usize, usize, OpCode), TransferError>(
                TransferError::IntegerOverflow(length as u64),
            )
            &&& length <= usize::MAX && offset > usize::MAX ==> parsed == Err::<
                (usize, usize, OpCode),
                TransferError,
            >(TransferError::IntegerOverflow(offset as u64))
            &&& length <= usize::MAX && offset <= usize::MAX ==> (match parsed {
                Ok((parsed_length, parsed_offset, opcode)) => parsed_length == length
                    && parsed_offset == offset && (header[16] == 0 && opcode == OpCode::Read
                    || header[16] == 1 && opcode == OpCode::Write),
                Err(err) => header[16] > 1 && err == TransferError::InvalidOpcode(header[16]),
            })
        }),
{
    lemma_le_value_of_eight(header.subrange(0, 8));
    lemma_le_value_of_eight(header.subrange(8, 16));
}

/// The bytes that stand for the opcodes, and the byte that acknowledges.
pub proof fn law_codes_are_those_of_the_protocol(opcode: OpCode, value: u8)
    ensures
        opcode.spec_code() == 0 <==> opcode == OpCode::Read,
        opcode.spec_code() == 1 <==> opcode == OpCode::Write,
        OpCode::of_code(opcode.spec_code()) == Ok::<OpCode, TransferError>(opcode),
        value > 1 ==> OpCode::of_code(value) == Err::<OpCode, TransferError>(
            TransferError::InvalidOpcode(value),
        ),
        ACK == 1,
        HEADER_LEN == 17,
{
}

} // verus!
