//! The data region: blocks of `BLOCK_SIZE` bytes, each a payload followed by
//! an eight-byte little-endian pointer to the next block of the same file.

use vstd::prelude::*;
use vstd::bytes::*;
use vstd::slice::*;
use crate::fs_structs::{BLOCK_SIZE, USABLE_BLOCK_SIZE};

verus! {

/// The pointer value that ends a chain. No block has this index.
pub const END_OF_CHAIN: u64 = 0xffff_ffff_ffff_ffff;

/// The bytes of block `b`.
pub open spec fn block_bytes(data: Seq<u8>, b: int) -> Seq<u8> {
    data.subrange(b * BLOCK_SIZE, b * BLOCK_SIZE + BLOCK_SIZE)
}

/// The first `len` payload bytes of block `b`.
pub open spec fn block_payload(data: Seq<u8>, b: int, len: int) -> Seq<u8> {
    data.subrange(b * BLOCK_SIZE, b * BLOCK_SIZE + len)
}

/// The pointer held in the last eight bytes of block `b`.
pub open spec fn stored_pointer(data: Seq<u8>, b: int) -> u64 {
    spec_u64_from_le_bytes(
        data.subrange(b * BLOCK_SIZE + USABLE_BLOCK_SIZE, b * BLOCK_SIZE + BLOCK_SIZE),
    )
}

/// The block that follows block `b` in its chain, if any.
pub open spec fn next_block(data: Seq<u8>, b: int) -> Option<u64> {
    if stored_pointer(data, b) == END_OF_CHAIN {
        None
    } else {
        Some(stored_pointer(data, b))
    }
}

/// The pointer value that stands for an optional next block.
pub open spec fn pointer_value(next: Option<u64>) -> u64 {
    match next {
        Some(index) => index,
        None => END_OF_CHAIN,
    }
}

/// A whole block as it is written: the payload, zeros up to the pointer
/// field, then the pointer.
pub open spec fn block_image(payload: Seq<u8>, pointer: u64) -> Seq<u8> {
    payload + Seq::new((USABLE_BLOCK_SIZE - payload.len()) as nat, |i: int| 0u8)
        + spec_u64_to_le_bytes(pointer)
}

/// A block that holds `block_image(payload, pointer)` gives back the payload
/// and the pointer.
pub proof fn lemma_block_image_reads_back(data: Seq<u8>, b: int, payload: Seq<u8>, pointer: u64)
    requires
        0 <= b,
        b * BLOCK_SIZE + BLOCK_SIZE <= data.len(),
        payload.len() <= USABLE_BLOCK_SIZE,
        block_bytes(data, b) == block_image(payload, pointer),
    ensures
        block_payload(data, b, payload.len() as int) == payload,
        stored_pointer(data, b) == pointer,
{
    lemma_auto_spec_u64_to_from_le_bytes();
    let image = block_image(payload, pointer);
    let whole = block_bytes(data, b);
    assert(data.subrange(b * BLOCK_SIZE + USABLE_BLOCK_SIZE, b * BLOCK_SIZE + BLOCK_SIZE)
        =~= whole.subrange(USABLE_BLOCK_SIZE as int, BLOCK_SIZE as int));
    assert(image.subrange(USABLE_BLOCK_SIZE as int, BLOCK_SIZE as int) =~= spec_u64_to_le_bytes(
        pointer,
    ));
}

/// Reads the pointer field of block `b`.
pub fn read_next_block(data: &Vec<u8>, b: usize) -> (next: Option<u64>)
    requires
        b * BLOCK_SIZE + BLOCK_SIZE <= data.len(),
    ensures
        next == next_block(data@, b as int),
{
    let start: usize = b * BLOCK_SIZE + USABLE_BLOCK_SIZE;
    let field = slice_subrange(data.as_slice(), start, start + 8);
    let pointer: u64 = u64_from_le_bytes(field);
    if pointer == END_OF_CHAIN {
        None
    } else {
        Some(pointer)
    }
}

/// Writes block `b`: the payload, zero padding, and the pointer. No other
/// block changes.
pub fn write_block(data: &mut Vec<u8>, b: usize, payload: &[u8], pointer: u64)
    requires
        b * BLOCK_SIZE + BLOCK_SIZE <= old(data).len(),
        payload@.len() <= USABLE_BLOCK_SIZE,
    ensures
        final(data)@.len() == old(data)@.len(),
        block_bytes(final(data)@, b as int) == block_image(payload@, pointer),
        forall|p: int|
            0 <= p < old(data)@.len() && !(b * BLOCK_SIZE <= p < b * BLOCK_SIZE + BLOCK_SIZE)
                ==> final(data)@[p] == old(data)@[p],
{
    let start: usize = b * BLOCK_SIZE;
    let pointer_bytes: Vec<u8> = u64_to_le_bytes(pointer);
    let ghost image = block_image(payload@, pointer);
    let mut i: usize = 0;
    while i < BLOCK_SIZE
        invariant
            i <= BLOCK_SIZE,
            start == b * BLOCK_SIZE,
            start + BLOCK_SIZE <= data.len(),
            data@.len() == old(data)@.len(),
            payload@.len() <= USABLE_BLOCK_SIZE,
            pointer_bytes@ == spec_u64_to_le_bytes(pointer),
            pointer_bytes@.len() == 8,
            image == block_image(payload@, pointer),
            forall|p: int| 0 <= p < i ==> data@[start + p] == image[p],
            forall|p: int|
                0 <= p < data@.len() && !(start <= p < start + BLOCK_SIZE) ==> data@[p] == old(
                    data,
                )@[p],
        decreases BLOCK_SIZE - i,
    {
        let byte: u8 = if i < payload.len() {
            payload[i]
        } else if i < USABLE_BLOCK_SIZE {
            0u8
        } else {
            pointer_bytes[i - USABLE_BLOCK_SIZE]
        };
        data.set(start + i, byte);
        i += 1;
    }
}

/// Copies the first `len` payload bytes of block `b` to the end of `out`.
pub fn append_payload(data: &Vec<u8>, b: usize, len: usize, out: &mut Vec<u8>)
    requires
        b * BLOCK_SIZE + BLOCK_SIZE <= data.len(),
        len <= USABLE_BLOCK_SIZE,
    ensures
        final(out)@ == old(out)@ + block_payload(data@, b as int, len as int),
{
    let start: usize = b * BLOCK_SIZE;
    let mut i: usize = 0;
    while i < len
        invariant
            i <= len,
            len <= USABLE_BLOCK_SIZE,
            start == b * BLOCK_SIZE,
            start + BLOCK_SIZE <= data.len(),
            out@ == old(out)@ + block_payload(data@, b as int, i as int),
        decreases len - i,
    {
        out.push(data[start + i]);
        i += 1;
    }
}

} // verus!
