//! Byte ranges of a memory segment.

use std::ops::Range;

use vstd::prelude::*;

use crate::error::TransferError;

verus! {

/// Whether `length` bytes from `offset` on lie within `capacity` bytes.
pub open spec fn in_bounds(offset: nat, length: nat, capacity: nat) -> bool {
    offset + length <= capacity
}

/// `memory` with `data` laid over it from `offset` on.
pub open spec fn overwrite(memory: Seq<u8>, offset: nat, data: Seq<u8>) -> Seq<u8> {
    Seq::new(
        memory.len(),
        |i: int|
            if offset <= i < offset + data.len() {
                data[i - offset]
            } else {
                memory[i]
            },
    )
}

/// The `length` bytes of `memory` from `offset` on.
pub open spec fn slice_of(memory: Seq<u8>, offset: nat, length: nat) -> Seq<u8> {
    memory.subrange(offset as int, (offset + length) as int)
}

/// The range of `length` positions from `offset` on, if it lies within
/// `capacity`.
pub fn checked_range(offset: usize, length: usize, capacity: usize) -> (result: Result<
    Range<usize>,
    TransferError,
>)
    ensures
        in_bounds(offset as nat, length as nat, capacity as nat) ==> (result matches Ok(range)
            && range.start == offset && range.end == offset + length),
        !in_bounds(offset as nat, length as nat, capacity as nat) ==> result == Err::<
            Range<usize>,
            TransferError,
        >(TransferError::OutOfBounds { offset, length, capacity }),
        result is Ok <==> offset + length <= capacity,
{
    match offset.checked_add(length) {
        None => Err(TransferError::OutOfBounds { offset, length, capacity }),
        Some(end) => {
            if end > capacity {
                return Err(TransferError::OutOfBounds { offset, length, capacity });
            }
            Ok(offset..end)
        },
    }
}

/// A segment of `size` zero bytes. No vector holds more than `isize::MAX` of
/// them.
pub fn zeroed(size: usize) -> (memory: Vec<u8>)
    requires
        size <= isize::MAX,
    ensures
        memory@ == Seq::new(size as nat, |i: int| 0u8),
{
    let memory = vec![0u8; size];
    assert(memory@ =~= Seq::new(size as nat, |i: int| 0u8));
    memory
}

/// Copies `length` bytes from `offset` on out of a segment.
pub fn read_range(memory: &Vec<u8>, offset: usize, length: usize) -> (result: Result<
    Vec<u8>,
    TransferError,
>)
    ensures
        in_bounds(offset as nat, length as nat, memory@.len()) ==> (result matches Ok(data)
            && data@ == slice_of(memory@, offset as nat, length as nat)),
        !in_bounds(offset as nat, length as nat, memory@.len()) ==> result == Err::<
            Vec<u8>,
            TransferError,
        >(TransferError::OutOfBounds { offset, length, capacity: memory@.len() as usize }),
        result is Ok <==> offset + length <= memory@.len(),
        result matches Ok(data) ==> data@.len() == length && forall|i: int|
            0 <= i < length ==> #[trigger] data@[i] == memory@[offset + i],
{
    match checked_range(offset, length, memory.len()) {
        Err(err) => Err(err),
        Ok(range) => Ok(
            vstd::slice::slice_to_vec(
                vstd::slice::slice_subrange(memory.as_slice(), range.start, range.end),
            ),
        ),
    }
}

/// Copies `data` into a segment from `offset` on. A range that does not lie
/// within the segment leaves it as it was.
pub fn write_range(memory: &mut Vec<u8>, offset: usize, data: &[u8]) -> (result: Result<
    (),
    TransferError,
>)
    ensures
        in_bounds(offset as nat, data@.len(), old(memory)@.len()) ==> result == Ok::<
            (),
            TransferError,
        >(()) && final(memory)@ == overwrite(old(memory)@, offset as nat, data@),
        !in_bounds(offset as nat, data@.len(), old(memory)@.len()) ==> result == Err::<
            (),
            TransferError,
        >(
            TransferError::OutOfBounds {
                offset,
                length: data@.len() as usize,
                capacity: old(memory)@.len() as usize,
            },
        ) && final(memory)@ == old(memory)@,
        result is Ok <==> offset + data@.len() <= old(memory)@.len(),
        final(memory)@.len() == old(memory)@.len(),
        result is Ok ==> forall|i: int|
            0 <= i < data@.len() ==> final(memory)@[offset + i] == #[trigger] data@[i],
        forall|j: int|
            0 <= j < old(memory)@.len() && (result is Err || j < offset || j >= offset
                + data@.len()) ==> #[trigger] final(memory)@[j] == old(memory)@[j],
{
    let capacity = memory.len();
    match checked_range(offset, data.len(), capacity) {
        Err(err) => Err(err),
        Ok(range) => {
            let length = data.len();
            for i in 0..length
                invariant
                    length == data@.len(),
                    range.start == offset,
                    offset + length <= capacity,
                    memory@.len() == capacity,
                    old(memory)@.len() == capacity,
                    memory@ == overwrite(old(memory)@, offset as nat, data@.take(i as int)),
            {
                memory.set(range.start + i, data[i]);
                assert(memory@ =~= overwrite(
                    old(memory)@,
                    offset as nat,
                    data@.take(i + 1),
                ));
            }
            assert(data@.take(length as int) =~= data@);
            Ok(())
        },
    }
}

/// Reading back a range that was just written gives the data that was
/// written.
pub proof fn law_read_back_of_write(memory: Seq<u8>, offset: nat, data: Seq<u8>)
    requires
        in_bounds(offset, data.len(), memory.len()),
    ensures
        slice_of(overwrite(memory, offset, data), offset, data.len()) == data,
{
    assert(slice_of(overwrite(memory, offset, data), offset, data.len()) =~= data);
}

/// A write changes no byte of a range that it does not touch, and it keeps
/// the size of the segment.
pub proof fn law_write_leaves_other_ranges(
    memory: Seq<u8>,
    offset: nat,
    data: Seq<u8>,
    other_offset: nat,
    other_length: nat,
)
    requires
        in_bounds(other_offset, other_length, memory.len()),
        other_offset + other_length <= offset || offset + data.len() <= other_offset,
    ensures
        overwrite(memory, offset, data).len() == memory.len(),
        slice_of(overwrite(memory, offset, data), other_offset, other_length) == slice_of(
            memory,
            other_offset,
            other_length,
        ),
{
    assert(slice_of(overwrite(memory, offset, data), other_offset, other_length) =~= slice_of(
        memory,
        other_offset,
        other_length,
    ));
}

/// A range lies within a segment exactly if it ends no later.
pub proof fn law_bounds_are_numbers(offset: nat, length: nat, capacity: nat)
    ensures
        in_bounds(offset, length, capacity) <==> offset + length <= capacity,
{
}

/// A write puts each byte of the data in its place, in their order, and no
/// other byte changes.
pub proof fn law_write_is_byte_for_byte(memory: Seq<u8>, offset: nat, data: Seq<u8>)
    requires
        offset + data.len() <= memory.len(),
    ensures
        overwrite(memory, offset, data).len() == memory.len(),
        forall|i: int|
            0 <= i < data.len() ==> overwrite(memory, offset, data)[offset + i]
                == #[trigger] data[i],
        forall|j: int|
            0 <= j < memory.len() && (j < offset || j >= offset + data.len()) ==> #[trigger] overwrite(
                memory,
                offset,
                data,
            )[j] == memory[j],
{
}

/// A read gives each byte of the range, in their order, and no other byte.
pub proof fn law_read_is_byte_for_byte(memory: Seq<u8>, offset: nat, length: nat)
    requires
        offset + length <= memory.len(),
    ensures
        slice_of(memory, offset, length).len() == length,
        forall|i: int|
            0 <= i < length ==> #[trigger] slice_of(memory, offset, length)[i] == memory[offset
                + i],
{
}

} // verus!
