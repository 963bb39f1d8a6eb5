//! The free-block bitmap: in memory one `bool` per block, `true` for a free
//! block; in the store one bit per block, set for a used block.

use vstd::prelude::*;
use crate::layout::bitmap_span;

verus! {

/// The indices of the free blocks, in ascending order.
pub open spec fn free_indices(free: Seq<bool>) -> Seq<usize>
    decreases free.len(),
{
    if free.len() == 0 {
        Seq::empty()
    } else {
        let before = free_indices(free.drop_last());
        if free.last() {
            before.push((free.len() - 1) as usize)
        } else {
            before
        }
    }
}

/// The number of free blocks.
pub open spec fn free_count(free: Seq<bool>) -> nat {
    free_indices(free).len()
}

/// Every listed index is a free block, the list ascends strictly, and no free
/// block is missing from it.
pub proof fn lemma_free_indices(free: Seq<bool>)
    requires
        free.len() <= usize::MAX,
    ensures
        free_count(free) <= free.len(),
        forall|k: int|
            0 <= k < free_count(free) ==> (#[trigger] free_indices(free)[k]) < free.len()
                && free[free_indices(free)[k] as int],
        forall|j: int, k: int|
            0 <= j < k < free_count(free) ==> free_indices(free)[j] < free_indices(free)[k],
        forall|i: int|
            0 <= i < free.len() && free[i] ==> exists|k: int|
                0 <= k < free_count(free) && #[trigger] free_indices(free)[k] == i,
    decreases free.len(),
{
    if free.len() > 0 {
        let shorter = free.drop_last();
        lemma_free_indices(shorter);
        let before = free_indices(shorter);
        let all = free_indices(free);
        assert forall|i: int| 0 <= i < free.len() && free[i] implies exists|k: int|
            0 <= k < free_count(free) && #[trigger] free_indices(free)[k] == i by {
            if i < free.len() - 1 {
                assert(shorter[i]);
                let k = choose|k: int| 0 <= k < before.len() && #[trigger] before[k] == i;
                assert(all[k] == i);
            } else {
                assert(all[all.len() - 1] == i);
            }
        }
    }
}

/// The free blocks among the first `i` are the first free blocks of all.
pub proof fn lemma_free_indices_prefix(free: Seq<bool>, i: int)
    requires
        0 <= i <= free.len(),
    ensures
        free_count(free.take(i)) <= free_count(free),
        free_indices(free.take(i)) == free_indices(free).take(free_count(free.take(i)) as int),
    decreases free.len() - i,
{
    if i == free.len() {
        assert(free.take(i) == free);
    } else {
        lemma_free_indices_prefix(free, i + 1);
        let longer = free.take(i + 1);
        assert(longer.drop_last() == free.take(i));
    }
}

/// Freeing one used block raises the number of free blocks by one.
pub proof fn lemma_free_count_after_release(free: Seq<bool>, b: int)
    requires
        0 <= b < free.len(),
        !free[b],
    ensures
        free_count(free.update(b, true)) == free_count(free) + 1,
    decreases free.len(),
{
    let after = free.update(b, true);
    if b == free.len() - 1 {
        assert(after.drop_last() =~= free.drop_last());
    } else {
        lemma_free_count_after_release(free.drop_last(), b);
        assert(after.drop_last() =~= free.drop_last().update(b, true));
    }
}

/// Taking one free block lowers the number of free blocks by one.
pub proof fn lemma_free_count_after_take(free: Seq<bool>, b: int)
    requires
        0 <= b < free.len(),
        free[b],
    ensures
        free_count(free.update(b, false)) == free_count(free) - 1,
    decreases free.len(),
{
    let after = free.update(b, false);
    if b == free.len() - 1 {
        assert(after.drop_last() =~= free.drop_last());
    } else {
        lemma_free_count_after_take(free.drop_last(), b);
        assert(after.drop_last() =~= free.drop_last().update(b, false));
    }
}

/// Counts the free blocks.
pub fn count_free_blocks(free: &Vec<bool>) -> (count: usize)
    ensures
        count == free_count(free@),
{
    let mut count: usize = 0;
    let mut i: usize = 0;
    while i < free.len()
        invariant
            i <= free.len(),
            count == free_count(free@.take(i as int)),
            count <= i,
        decreases free.len() - i,
    {
        proof {
            assert(free@.take(i + 1).drop_last() == free@.take(i as int));
        }
        if free[i] {
            count += 1;
        }
        i += 1;
    }
    proof {
        assert(free@.take(i as int) == free@);
    }
    count
}

/// Picks the first `num_blocks_needed` free blocks, lowest index first.
///
/// There is no result when fewer blocks are free, or when none is asked for.
pub fn find_free_blocks(free: &Vec<bool>, num_blocks_needed: usize) -> (found: Option<
    Vec<usize>,
>)
    ensures
        found is Some <==> 1 <= num_blocks_needed <= free_count(free@),
        found matches Some(indices) ==> indices@ == free_indices(free@).take(
            num_blocks_needed as int,
        ),
{
    let mut indices: Vec<usize> = Vec::new();
    let mut i: usize = 0;
    while i < free.len()
        invariant
            i <= free.len(),
            indices@ == free_indices(free@.take(i as int)),
            indices@.len() <= i,
            num_blocks_needed >= 1 ==> indices@.len() < num_blocks_needed,
        decreases free.len() - i,
    {
        proof {
            assert(free@.take(i + 1).drop_last() == free@.take(i as int));
        }
        if free[i] {
            indices.push(i);
            if indices.len() == num_blocks_needed {
                proof {
                    lemma_free_indices_prefix(free@, i + 1);
                }
                return Some(indices);
            }
        }
        i += 1;
    }
    proof {
        assert(free@.take(i as int) == free@);
    }
    None
}

/// The bit that block `i` contributes at position `k` of its byte: set when
/// the block exists and is in use.
pub open spec fn used_flag(free: Seq<bool>, i: int, k: u8) -> u8 {
    if 0 <= i < free.len() && !free[i] {
        1u8 << k
    } else {
        0u8
    }
}

/// Byte `j` of the stored bitmap: blocks `8 * j` to `8 * j + 7`, lowest bit
/// first.
pub open spec fn packed_byte(free: Seq<bool>, j: int) -> u8 {
    used_flag(free, 8 * j, 0) | used_flag(free, 8 * j + 1, 1) | used_flag(free, 8 * j + 2, 2)
        | used_flag(free, 8 * j + 3, 3) | used_flag(free, 8 * j + 4, 4) | used_flag(
        free,
        8 * j + 5,
        5,
    ) | used_flag(free, 8 * j + 6, 6) | used_flag(free, 8 * j + 7, 7)
}

/// The stored form of a bitmap: one bit per block, set for a used block, the
/// bits past the last block clear.
pub open spec fn packed_bitmap(free: Seq<bool>) -> Seq<u8> {
    Seq::new(bitmap_span(free.len() as int) as nat, |j: int| packed_byte(free, j))
}

/// Whether bit `k` of `byte` is set.
pub open spec fn bit_is_set(byte: u8, k: u8) -> bool {
    (byte >> k) & 1u8 == 1u8
}

/// The bitmap of `num_blocks` blocks that the stored bytes describe.
pub open spec fn unpacked_bitmap(bytes: Seq<u8>, num_blocks: nat) -> Seq<bool> {
    Seq::new(num_blocks, |i: int| !bit_is_set(bytes[i / 8], (i % 8) as u8))
}

proof fn lemma_flags_keep_their_bits(
    f0: u8,
    f1: u8,
    f2: u8,
    f3: u8,
    f4: u8,
    f5: u8,
    f6: u8,
    f7: u8,
)
    by (bit_vector)
    requires
        f0 == 0 || f0 == 1u8 << 0u8,
        f1 == 0 || f1 == 1u8 << 1u8,
        f2 == 0 || f2 == 1u8 << 2u8,
        f3 == 0 || f3 == 1u8 << 3u8,
        f4 == 0 || f4 == 1u8 << 4u8,
        f5 == 0 || f5 == 1u8 << 5u8,
        f6 == 0 || f6 == 1u8 << 6u8,
        f7 == 0 || f7 == 1u8 << 7u8,
    ensures
        (((f0 | f1 | f2 | f3 | f4 | f5 | f6 | f7) >> 0u8) & 1u8 == 1u8) <==> f0 != 0,
        (((f0 | f1 | f2 | f3 | f4 | f5 | f6 | f7) >> 1u8) & 1u8 == 1u8) <==> f1 != 0,
        (((f0 | f1 | f2 | f3 | f4 | f5 | f6 | f7) >> 2u8) & 1u8 == 1u8) <==> f2 != 0,
        (((f0 | f1 | f2 | f3 | f4 | f5 | f6 | f7) >> 3u8) & 1u8 == 1u8) <==> f3 != 0,
        (((f0 | f1 | f2 | f3 | f4 | f5 | f6 | f7) >> 4u8) & 1u8 == 1u8) <==> f4 != 0,
        (((f0 | f1 | f2 | f3 | f4 | f5 | f6 | f7) >> 5u8) & 1u8 == 1u8) <==> f5 != 0,
        (((f0 | f1 | f2 | f3 | f4 | f5 | f6 | f7) >> 6u8) & 1u8 == 1u8) <==> f6 != 0,
        (((f0 | f1 | f2 | f3 | f4 | f5 | f6 | f7) >> 7u8) & 1u8 == 1u8) <==> f7 != 0,
{
}

proof fn lemma_shifted_one_is_not_zero()
    by (bit_vector)
    ensures
        1u8 << 0u8 != 0,
        1u8 << 1u8 != 0,
        1u8 << 2u8 != 0,
        1u8 << 3u8 != 0,
        1u8 << 4u8 != 0,
        1u8 << 5u8 != 0,
        1u8 << 6u8 != 0,
        1u8 << 7u8 != 0,
{
}

/// In the stored form, bit `i % 8` of byte `i / 8` is set exactly when block
/// `i` is in use.
pub proof fn lemma_packed_bit(free: Seq<bool>, i: int)
    requires
        0 <= i < free.len(),
    ensures
        i / 8 < packed_bitmap(free).len(),
        bit_is_set(packed_bitmap(free)[i / 8], (i % 8) as u8) == !free[i],
{
    let j = i / 8;
    lemma_shifted_one_is_not_zero();
    lemma_flags_keep_their_bits(
        used_flag(free, 8 * j, 0),
        used_flag(free, 8 * j + 1, 1),
        used_flag(free, 8 * j + 2, 2),
        used_flag(free, 8 * j + 3, 3),
        used_flag(free, 8 * j + 4, 4),
        used_flag(free, 8 * j + 5, 5),
        used_flag(free, 8 * j + 6, 6),
        used_flag(free, 8 * j + 7, 7),
    );
}

/// Reading back a stored bitmap gives the bitmap that was stored.
pub proof fn lemma_unpack_packed(free: Seq<bool>)
    ensures
        unpacked_bitmap(packed_bitmap(free), free.len()) == free,
{
    let back = unpacked_bitmap(packed_bitmap(free), free.len());
    assert forall|i: int| 0 <= i < free.len() implies back[i] == free[i] by {
        lemma_packed_bit(free, i);
    }
}

fn used_bit(free: &Vec<bool>, base: usize, k: u8) -> (flag: u8)
    requires
        k < 8,
        base <= free.len(),
    ensures
        flag == used_flag(free@, base + k, k),
{
    if (k as usize) < free.len() - base && !free[base + k as usize] {
        1u8 << k
    } else {
        0u8
    }
}

/// Builds the stored form of the bitmap.
pub fn pack_bitmap(free: &Vec<bool>) -> (bytes: Vec<u8>)
    ensures
        bytes@ == packed_bitmap(free@),
{
    let n: usize = free.len();
    let span: usize = n / 8 + (if n % 8 == 0 {
        0
    } else {
        1
    });
    let mut bytes: Vec<u8> = Vec::new();
    let mut j: usize = 0;
    while j < span
        invariant
            j <= span,
            n == free.len(),
            span == bitmap_span(n as int),
            bytes@.len() == j,
            forall|x: int| 0 <= x < j ==> bytes@[x] == packed_byte(free@, x),
        decreases span - j,
    {
        let base: usize = 8 * j;
        let byte: u8 = used_bit(free, base, 0) | used_bit(free, base, 1) | used_bit(free, base, 2)
            | used_bit(free, base, 3) | used_bit(free, base, 4) | used_bit(free, base, 5)
            | used_bit(free, base, 6) | used_bit(free, base, 7);
        bytes.push(byte);
        j += 1;
    }
    bytes
}

/// Rebuilds the in-memory bitmap of `num_blocks` blocks from its stored form.
pub fn unpack_bitmap(bytes: &[u8], num_blocks: usize) -> (free: Vec<bool>)
    requires
        bytes@.len() >= bitmap_span(num_blocks as int),
    ensures
        free@ == unpacked_bitmap(bytes@, num_blocks as nat),
{
    let mut free: Vec<bool> = Vec::new();
    let mut i: usize = 0;
    while i < num_blocks
        invariant
            i <= num_blocks,
            bytes@.len() >= bitmap_span(num_blocks as int),
            free@.len() == i,
            forall|x: int|
                0 <= x < i ==> free@[x] == !bit_is_set(bytes@[x / 8], (x % 8) as u8),
        decreases num_blocks - i,
    {
        let k: u8 = (i % 8) as u8;
        let byte: u8 = bytes[i / 8];
        free.push((byte >> k) & 1u8 != 1u8);
        i += 1;
    }
    free
}

} // verus!
