//! Walking a chain of blocks: to read a file's bytes, and to list the blocks
//! that a file occupies.

use vstd::prelude::*;
use vstd::slice::*;
use crate::bitmap::{free_count, lemma_free_count_after_release, lemma_free_count_after_take};
use crate::blocks::{
    append_payload, block_bytes, block_image, block_payload, lemma_block_image_reads_back,
    next_block, read_next_block, write_block, END_OF_CHAIN,
};
use crate::errors::{CorruptChain, WalkEnd};
use crate::fs_structs::{BLOCK_SIZE, USABLE_BLOCK_SIZE};

verus! {

/// The bytes to take from one block when `remaining` are still to come.
pub open spec fn bytes_in_block(remaining: int) -> int {
    if remaining < USABLE_BLOCK_SIZE {
        remaining
    } else {
        USABLE_BLOCK_SIZE as int
    }
}

/// The `remaining` bytes found by following the chain from `cur`, or the
/// reason why the chain does not hold them.
///
/// Each block gives a full payload, the last one what is left. The walk fails
/// on a pointer outside the store and on a chain that ends too early. A
/// pointer after the last byte is not looked at.
pub open spec fn chain_content(
    data: Seq<u8>,
    num_blocks: int,
    cur: Option<u64>,
    remaining: int,
) -> Result<Seq<u8>, CorruptChain>
    decreases remaining,
{
    if remaining <= 0 {
        Ok(Seq::empty())
    } else {
        match cur {
            None => Err(CorruptChain::Incomplete { remaining: remaining as usize }),
            Some(b) => {
                if b >= num_blocks {
                    Err(CorruptChain::BlockOutOfRange { index: b })
                } else {
                    let take = bytes_in_block(remaining);
                    match chain_content(
                        data,
                        num_blocks,
                        next_block(data, b as int),
                        remaining - take,
                    ) {
                        Ok(rest) => Ok(block_payload(data, b as int, take) + rest),
                        Err(e) => Err(e),
                    }
                }
            },
        }
    }
}

/// The blocks visited by following the chain from `cur` for at most `fuel`
/// steps, stopping at the end marker or at a pointer outside the store.
pub open spec fn chain_blocks(data: Seq<u8>, num_blocks: int, cur: Option<u64>, fuel: nat) -> Seq<
    usize,
>
    decreases fuel,
{
    match cur {
        Some(b) if fuel > 0 && b < num_blocks => seq![b as usize] + chain_blocks(
            data,
            num_blocks,
            next_block(data, b as int),
            (fuel - 1) as nat,
        ),
        _ => Seq::empty(),
    }
}

/// Why the walk of `chain_blocks` stopped.
pub open spec fn chain_end(data: Seq<u8>, num_blocks: int, cur: Option<u64>, fuel: nat) -> WalkEnd
    decreases fuel,
{
    match cur {
        None => WalkEnd::EndOfChain,
        Some(b) => {
            if b >= num_blocks {
                WalkEnd::BlockOutOfRange { index: b }
            } else if fuel == 0 {
                WalkEnd::TooLong
            } else {
                chain_end(data, num_blocks, next_block(data, b as int), (fuel - 1) as nat)
            }
        },
    }
}

/// What `read_chain` returns, with the bytes as a sequence.
pub open spec fn read_outcome(result: Result<Vec<u8>, CorruptChain>) -> Result<
    Seq<u8>,
    CorruptChain,
> {
    match result {
        Ok(bytes) => Ok(bytes@),
        Err(e) => Err(e),
    }
}

/// Reads `size` bytes by following the chain that starts at `first`.
pub fn read_chain(data: &Vec<u8>, num_blocks: usize, first: Option<u64>, size: usize) -> (result:
    Result<Vec<u8>, CorruptChain>)
    requires
        data.len() == num_blocks * BLOCK_SIZE,
    ensures
        read_outcome(result) == chain_content(data@, num_blocks as int, first, size as int),
{
    let ghost goal = chain_content(data@, num_blocks as int, first, size as int);
    let mut out: Vec<u8> = Vec::new();
    let mut remaining: usize = size;
    let mut cur: Option<u64> = first;
    while remaining > 0
        invariant
            data.len() == num_blocks * BLOCK_SIZE,
            goal == chain_content(data@, num_blocks as int, first, size as int),
            goal == match chain_content(data@, num_blocks as int, cur, remaining as int) {
                Ok(rest) => Ok::<Seq<u8>, CorruptChain>(out@ + rest),
                Err(e) => Err(e),
            },
        decreases remaining,
    {
        match cur {
            None => {
                return Err(CorruptChain::Incomplete { remaining });
            },
            Some(index) => {
                if index >= num_blocks as u64 {
                    return Err(CorruptChain::BlockOutOfRange { index });
                }
                let b: usize = index as usize;
                let take: usize = if remaining < USABLE_BLOCK_SIZE {
                    remaining
                } else {
                    USABLE_BLOCK_SIZE
                };
                let ghost before = out@;
                append_payload(data, b, take, &mut out);
                let next = read_next_block(data, b);
                proof {
                    let tail = chain_content(
                        data@,
                        num_blocks as int,
                        next,
                        remaining - take,
                    );
                    if let Ok(rest) = tail {
                        assert((before + block_payload(data@, b as int, take as int)) + rest
                            =~= before + (block_payload(data@, b as int, take as int) + rest));
                    }
                }
                remaining = remaining - take;
                cur = next;
            },
        }
    }
    Ok(out)
}

/// Lists the blocks of the chain that starts at `first`, and says how the walk
/// ended. A walk visits at most as many blocks as the store has: a longer one
/// can only go in circles, and is cut.
pub fn collect_chain(data: &Vec<u8>, num_blocks: usize, first: Option<u64>) -> (result: (
    Vec<usize>,
    WalkEnd,
))
    requires
        data.len() == num_blocks * BLOCK_SIZE,
    ensures
        result.0@ == chain_blocks(data@, num_blocks as int, first, num_blocks as nat),
        result.1 == chain_end(data@, num_blocks as int, first, num_blocks as nat),
{
    let ghost all = chain_blocks(data@, num_blocks as int, first, num_blocks as nat);
    let ghost end = chain_end(data@, num_blocks as int, first, num_blocks as nat);
    let mut blocks: Vec<usize> = Vec::new();
    let mut cur: Option<u64> = first;
    let mut fuel: usize = num_blocks;
    loop
        invariant
            data.len() == num_blocks * BLOCK_SIZE,
            fuel <= num_blocks,
            all == chain_blocks(data@, num_blocks as int, first, num_blocks as nat),
            end == chain_end(data@, num_blocks as int, first, num_blocks as nat),
            all == blocks@ + chain_blocks(data@, num_blocks as int, cur, fuel as nat),
            end == chain_end(data@, num_blocks as int, cur, fuel as nat),
        decreases fuel,
    {
        match cur {
            None => {
                return (blocks, WalkEnd::EndOfChain);
            },
            Some(index) => {
                if index >= num_blocks as u64 {
                    return (blocks, WalkEnd::BlockOutOfRange { index });
                }
                if fuel == 0 {
                    return (blocks, WalkEnd::TooLong);
                }
                let b: usize = index as usize;
                let ghost before = blocks@;
                blocks.push(b);
                let next = read_next_block(data, b);
                proof {
                    assert(chain_blocks(data@, num_blocks as int, cur, fuel as nat) == seq![b]
                        + chain_blocks(data@, num_blocks as int, next, (fuel - 1) as nat));
                    assert(before + (seq![b] + chain_blocks(
                        data@,
                        num_blocks as int,
                        next,
                        (fuel - 1) as nat,
                    )) =~= blocks@ + chain_blocks(
                        data@,
                        num_blocks as int,
                        next,
                        (fuel - 1) as nat,
                    ));
                }
                cur = next;
                fuel = fuel - 1;
            },
        }
    }
}

/// The number of blocks that `size` bytes occupy.
pub open spec fn blocks_needed(size: int) -> int {
    (size + USABLE_BLOCK_SIZE - 1) / (USABLE_BLOCK_SIZE as int)
}

/// The part of `content` that goes into the `k`-th block of its chain.
pub open spec fn chunk(content: Seq<u8>, k: int) -> Seq<u8> {
    content.subrange(
        k * USABLE_BLOCK_SIZE,
        if (k + 1) * USABLE_BLOCK_SIZE < content.len() {
            (k + 1) * USABLE_BLOCK_SIZE
        } else {
            content.len() as int
        },
    )
}

/// The pointer written into the `k`-th block of a chain over `chosen`: the
/// next chosen block, or the end marker in the last one.
pub open spec fn link(chosen: Seq<usize>, k: int) -> u64 {
    if k + 1 < chosen.len() {
        chosen[k + 1] as u64
    } else {
        END_OF_CHAIN
    }
}

/// `after` is `before` with `content` laid down as a chain over the blocks
/// `chosen`, in that order; every other block is as it was.
pub open spec fn chain_written(
    before: Seq<u8>,
    after: Seq<u8>,
    chosen: Seq<usize>,
    content: Seq<u8>,
) -> bool {
    &&& after.len() == before.len()
    &&& forall|k: int|
        0 <= k < chosen.len() ==> #[trigger] block_bytes(after, chosen[k] as int) == block_image(
            chunk(content, k),
            link(chosen, k),
        )
    &&& forall|p: int|
        0 <= p < before.len() && !chosen.contains((p / (BLOCK_SIZE as int)) as usize)
            ==> #[trigger] after[p] == before[p]
}

/// `after` is `before` with the blocks `chosen` marked as used.
pub open spec fn blocks_taken(before: Seq<bool>, after: Seq<bool>, chosen: Seq<usize>) -> bool {
    &&& after.len() == before.len()
    &&& forall|b: int|
        0 <= b < before.len() ==> #[trigger] after[b] == (before[b] && !chosen.contains(
            b as usize,
        ))
}

/// `after` is `before` with the blocks `released` marked as free.
pub open spec fn blocks_released(before: Seq<bool>, after: Seq<bool>, released: Seq<usize>) -> bool {
    &&& after.len() == before.len()
    &&& forall|b: int|
        0 <= b < before.len() ==> #[trigger] after[b] == (before[b] || released.contains(
            b as usize,
        ))
}

/// The indices ascend strictly and name blocks of a store of `num_blocks`.
pub open spec fn ascending_blocks(chosen: Seq<usize>, num_blocks: int) -> bool {
    &&& forall|k: int| 0 <= k < chosen.len() ==> (#[trigger] chosen[k]) < num_blocks
    &&& forall|j: int, k: int| 0 <= j < k < chosen.len() ==> chosen[j] < chosen[k]
}

/// An index is among the first `k + 1` of a list exactly when it is among the
/// first `k` or is the one at position `k`.
pub proof fn lemma_prefix_contains(list: Seq<usize>, k: int, b: usize)
    requires
        0 <= k < list.len(),
    ensures
        list.take(k + 1).contains(b) <==> list.take(k).contains(b) || list[k] == b,
{
    let shorter = list.take(k);
    let longer = list.take(k + 1);
    if shorter.contains(b) {
        let i = choose|i: int| 0 <= i < shorter.len() && shorter[i] == b;
        assert(longer[i] == b);
    }
    if list[k] == b {
        assert(longer[k] == b);
    }
    if longer.contains(b) {
        let i = choose|i: int| 0 <= i < longer.len() && longer[i] == b;
        if i < k {
            assert(shorter[i] == b);
        }
    }
}

/// Computes the number of blocks that `size` bytes occupy.
pub fn count_blocks_needed(size: usize) -> (needed: usize)
    ensures
        needed == blocks_needed(size as int),
{
    size / USABLE_BLOCK_SIZE + (if size % USABLE_BLOCK_SIZE == 0 {
        0
    } else {
        1
    })
}

/// Lays `content` down as a chain over the blocks `chosen`, one payload per
/// block in the order given, each block pointing to the next and the last one
/// carrying the end marker, and marks each of them as used.
pub fn write_chain(
    data: &mut Vec<u8>,
    free: &mut Vec<bool>,
    chosen: &Vec<usize>,
    content: &[u8],
)
    requires
        old(data).len() == old(free).len() * BLOCK_SIZE,
        ascending_blocks(chosen@, old(free).len() as int),
        chosen@.len() == blocks_needed(content@.len() as int),
    ensures
        chain_written(old(data)@, final(data)@, chosen@, content@),
        blocks_taken(old(free)@, final(free)@, chosen@),
{
    let count: usize = chosen.len();
    let size: usize = content.len();
    let mut k: usize = 0;
    while k < count
        invariant
            k <= count,
            count == chosen@.len(),
            size == content@.len(),
            count == blocks_needed(size as int),
            data.len() == free.len() * BLOCK_SIZE,
            free.len() == old(free).len(),
            ascending_blocks(chosen@, free.len() as int),
            data@.len() == old(data)@.len(),
            forall|j: int|
                0 <= j < k ==> #[trigger] block_bytes(data@, chosen@[j] as int) == block_image(
                    chunk(content@, j),
                    link(chosen@, j),
                ),
            forall|p: int|
                0 <= p < data@.len() && !chosen@.take(k as int).contains(
                    (p / (BLOCK_SIZE as int)) as usize,
                ) ==> #[trigger] data@[p] == old(data)@[p],
            blocks_taken(old(free)@, free@, chosen@.take(k as int)),
        decreases count - k,
    {
        let b: usize = chosen[k];
        let start: usize = k * USABLE_BLOCK_SIZE;
        let end: usize = if size - start > USABLE_BLOCK_SIZE {
            start + USABLE_BLOCK_SIZE
        } else {
            size
        };
        let payload = slice_subrange(content, start, end);
        let pointer: u64 = if k + 1 < count {
            chosen[k + 1] as u64
        } else {
            END_OF_CHAIN
        };
        let ghost data_before = data@;
        write_block(data, b, payload, pointer);
        free.set(b, false);
        proof {
            assert forall|j: int| 0 <= j < k + 1 implies #[trigger] block_bytes(
                data@,
                chosen@[j] as int,
            ) == block_image(chunk(content@, j), link(chosen@, j)) by {
                if j < k {
                    assert(block_bytes(data@, chosen@[j] as int) =~= block_bytes(
                        data_before,
                        chosen@[j] as int,
                    ));
                }
            }
            assert forall|p: int|
                0 <= p < data@.len() && !chosen@.take(k + 1).contains(
                    (p / (BLOCK_SIZE as int)) as usize,
                ) implies #[trigger] data@[p] == old(data)@[p] by {
                lemma_prefix_contains(chosen@, k as int, (p / (BLOCK_SIZE as int)) as usize);
            }
            assert forall|x: int| 0 <= x < free@.len() implies #[trigger] free@[x] == (old(
                free,
            )@[x] && !chosen@.take(k + 1).contains(x as usize)) by {
                lemma_prefix_contains(chosen@, k as int, x as usize);
            }
        }
        k += 1;
    }
    proof {
        assert(chosen@.take(k as int) =~= chosen@);
    }
}

/// Marks the listed blocks as free. An index outside the bitmap is passed
/// over.
pub fn release_blocks(free: &mut Vec<bool>, released: &Vec<usize>)
    ensures
        blocks_released(old(free)@, final(free)@, released@),
{
    let mut k: usize = 0;
    while k < released.len()
        invariant
            k <= released.len(),
            blocks_released(old(free)@, free@, released@.take(k as int)),
        decreases released.len() - k,
    {
        let b: usize = released[k];
        if b < free.len() {
            free.set(b, true);
        }
        proof {
            assert forall|x: int| 0 <= x < free@.len() implies #[trigger] free@[x] == (old(
                free,
            )@[x] || released@.take(k + 1).contains(x as usize)) by {
                lemma_prefix_contains(released@, k as int, x as usize);
            }
        }
        k += 1;
    }
    proof {
        assert(released@.take(k as int) =~= released@);
    }
}

/// Following a chain that was laid down over `chosen` from its `k`-th block
/// gives the content from that block's first byte to the end.
pub proof fn lemma_written_chain_reads_back(
    data: Seq<u8>,
    num_blocks: int,
    chosen: Seq<usize>,
    content: Seq<u8>,
    k: int,
)
    requires
        data.len() == num_blocks * BLOCK_SIZE,
        data.len() <= usize::MAX,
        ascending_blocks(chosen, num_blocks),
        chosen.len() == blocks_needed(content.len() as int),
        forall|j: int|
            0 <= j < chosen.len() ==> #[trigger] block_bytes(data, chosen[j] as int)
                == block_image(chunk(content, j), link(chosen, j)),
        0 <= k < chosen.len(),
    ensures
        chain_content(
            data,
            num_blocks,
            Some(chosen[k] as u64),
            content.len() - k * USABLE_BLOCK_SIZE,
        ) == Ok::<Seq<u8>, CorruptChain>(
            content.subrange(k * USABLE_BLOCK_SIZE, content.len() as int),
        ),
    decreases chosen.len() - k,
{
    let b = chosen[k];
    let remaining = content.len() - k * USABLE_BLOCK_SIZE;
    let take = bytes_in_block(remaining);
    let piece = chunk(content, k);
    lemma_block_image_reads_back(data, b as int, piece, link(chosen, k));
    let tail = chain_content(data, num_blocks, next_block(data, b as int), remaining - take);
    assert(chain_content(data, num_blocks, Some(b as u64), remaining) == match tail {
        Ok(rest) => Ok::<Seq<u8>, CorruptChain>(block_payload(data, b as int, take) + rest),
        Err(e) => Err(e),
    });
    if k + 1 < chosen.len() {
        lemma_written_chain_reads_back(data, num_blocks, chosen, content, k + 1);
        assert(piece + content.subrange((k + 1) * USABLE_BLOCK_SIZE, content.len() as int)
            =~= content.subrange(k * USABLE_BLOCK_SIZE, content.len() as int));
    }
}

/// No index occurs twice.
pub open spec fn distinct_blocks(blocks: Seq<usize>) -> bool {
    forall|j: int, k: int| 0 <= j < k < blocks.len() ==> blocks[j] != blocks[k]
}

/// Every block that a walk visits lies inside the store, and the walk is no
/// longer than its fuel.
pub proof fn lemma_chain_blocks_in_range(
    data: Seq<u8>,
    num_blocks: int,
    cur: Option<u64>,
    fuel: nat,
)
    ensures
        chain_blocks(data, num_blocks, cur, fuel).len() <= fuel,
        forall|k: int|
            0 <= k < chain_blocks(data, num_blocks, cur, fuel).len() ==> (
            #[trigger] chain_blocks(data, num_blocks, cur, fuel)[k]) < num_blocks,
    decreases fuel,
{
    if let Some(b) = cur {
        if fuel > 0 && b < num_blocks {
            lemma_chain_blocks_in_range(
                data,
                num_blocks,
                next_block(data, b as int),
                (fuel - 1) as nat,
            );
        }
    }
}

/// Releasing blocks that were all in use, none of them twice, raises the
/// number of free blocks by their number.
pub proof fn lemma_release_count(before: Seq<bool>, after: Seq<bool>, released: Seq<usize>)
    requires
        before.len() <= usize::MAX,
        blocks_released(before, after, released),
        distinct_blocks(released),
        forall|k: int|
            0 <= k < released.len() ==> (#[trigger] released[k]) < before.len()
                && !before[released[k] as int],
    ensures
        free_count(after) == free_count(before) + released.len(),
    decreases released.len(),
{
    if released.len() == 0 {
        assert(after =~= before);
    } else {
        let last = released.len() - 1;
        let earlier = released.take(last);
        let b = released[last];
        let mid = Seq::new(before.len(), |x: int| before[x] || earlier.contains(x as usize));
        lemma_release_count(before, mid, earlier);
        assert(released.take(last + 1) =~= released);
        assert forall|x: int| 0 <= x < before.len() implies after[x] == mid.update(
            b as int,
            true,
        )[x] by {
            lemma_prefix_contains(released, last, x as usize);
        }
        assert(after =~= mid.update(b as int, true));
        if earlier.contains(b) {
            let i = choose|i: int| 0 <= i < earlier.len() && earlier[i] == b;
            assert(released[i] == released[last]);
        }
        lemma_free_count_after_release(mid, b as int);
    }
}

/// Taking blocks that were all free, none of them twice, lowers the number of
/// free blocks by their number.
pub proof fn lemma_take_count(before: Seq<bool>, after: Seq<bool>, chosen: Seq<usize>)
    requires
        before.len() <= usize::MAX,
        blocks_taken(before, after, chosen),
        distinct_blocks(chosen),
        forall|k: int|
            0 <= k < chosen.len() ==> (#[trigger] chosen[k]) < before.len()
                && before[chosen[k] as int],
    ensures
        free_count(after) == free_count(before) - chosen.len(),
    decreases chosen.len(),
{
    if chosen.len() == 0 {
        assert(after =~= before);
    } else {
        let last = chosen.len() - 1;
        let earlier = chosen.take(last);
        let b = chosen[last];
        let mid = Seq::new(before.len(), |x: int| before[x] && !earlier.contains(x as usize));
        lemma_take_count(before, mid, earlier);
        assert(chosen.take(last + 1) =~= chosen);
        assert forall|x: int| 0 <= x < before.len() implies after[x] == mid.update(
            b as int,
            false,
        )[x] by {
            lemma_prefix_contains(chosen, last, x as usize);
        }
        assert(after =~= mid.update(b as int, false));
        if earlier.contains(b) {
            let i = choose|i: int| 0 <= i < earlier.len() && earlier[i] == b;
            assert(chosen[i] == chosen[last]);
        }
        lemma_free_count_after_take(mid, b as int);
    }
}

/// A walk depends on the blocks it visits only: where two data regions agree
/// on those, the walk visits the same blocks and ends the same way.
pub proof fn lemma_chain_blocks_frame(
    before: Seq<u8>,
    after: Seq<u8>,
    num_blocks: int,
    cur: Option<u64>,
    fuel: nat,
)
    requires
        before.len() == num_blocks * BLOCK_SIZE,
        after.len() == before.len(),
        before.len() <= usize::MAX,
        forall|k: int|
            0 <= k < chain_blocks(before, num_blocks, cur, fuel).len() ==> block_bytes(
                after,
                (#[trigger] chain_blocks(before, num_blocks, cur, fuel)[k]) as int,
            ) == block_bytes(before, chain_blocks(before, num_blocks, cur, fuel)[k] as int),
    ensures
        chain_blocks(after, num_blocks, cur, fuel) == chain_blocks(before, num_blocks, cur, fuel),
        chain_end(after, num_blocks, cur, fuel) == chain_end(before, num_blocks, cur, fuel),
    decreases fuel,
{
    if let Some(b) = cur {
        if fuel > 0 && b < num_blocks {
            let all = chain_blocks(before, num_blocks, cur, fuel);
            let next = next_block(before, b as int);
            let rest = chain_blocks(before, num_blocks, next, (fuel - 1) as nat);
            assert(all[0] == b as usize);
            lemma_same_block_same_pointer(before, after, b as int);
            assert forall|k: int| 0 <= k < rest.len() implies block_bytes(
                after,
                (#[trigger] rest[k]) as int,
            ) == block_bytes(before, rest[k] as int) by {
                assert(all[k + 1] == rest[k]);
            }
            lemma_chain_blocks_frame(before, after, num_blocks, next, (fuel - 1) as nat);
        }
    }
}

/// Two data regions that agree on a block agree on its pointer and payload.
pub proof fn lemma_same_block_same_pointer(before: Seq<u8>, after: Seq<u8>, b: int)
    requires
        0 <= b,
        b * BLOCK_SIZE + BLOCK_SIZE <= before.len(),
        after.len() == before.len(),
        block_bytes(after, b) == block_bytes(before, b),
    ensures
        next_block(after, b) == next_block(before, b),
        forall|len: int|
            0 <= len <= USABLE_BLOCK_SIZE ==> #[trigger] block_payload(after, b, len)
                == block_payload(before, b, len),
{
    let one = block_bytes(before, b);
    let two = block_bytes(after, b);
    assert(before.subrange(b * BLOCK_SIZE + USABLE_BLOCK_SIZE, b * BLOCK_SIZE + BLOCK_SIZE)
        =~= one.subrange(USABLE_BLOCK_SIZE as int, BLOCK_SIZE as int));
    assert(after.subrange(b * BLOCK_SIZE + USABLE_BLOCK_SIZE, b * BLOCK_SIZE + BLOCK_SIZE)
        =~= two.subrange(USABLE_BLOCK_SIZE as int, BLOCK_SIZE as int));
}

/// A walk along a chain that was laid down over `chosen` visits, from its
/// `k`-th block on, the chosen blocks in their order, and ends at the end
/// marker.
pub proof fn lemma_written_chain_is_walked(
    data: Seq<u8>,
    num_blocks: int,
    chosen: Seq<usize>,
    content: Seq<u8>,
    k: int,
    fuel: nat,
)
    requires
        data.len() == num_blocks * BLOCK_SIZE,
        data.len() <= usize::MAX,
        ascending_blocks(chosen, num_blocks),
        chosen.len() == blocks_needed(content.len() as int),
        forall|j: int|
            0 <= j < chosen.len() ==> #[trigger] block_bytes(data, chosen[j] as int)
                == block_image(chunk(content, j), link(chosen, j)),
        0 <= k < chosen.len(),
        fuel >= chosen.len() - k,
    ensures
        chain_blocks(data, num_blocks, Some(chosen[k] as u64), fuel) == chosen.subrange(
            k,
            chosen.len() as int,
        ),
        chain_end(data, num_blocks, Some(chosen[k] as u64), fuel) == WalkEnd::EndOfChain,
    decreases chosen.len() - k,
{
    let b = chosen[k];
    let piece = chunk(content, k);
    lemma_block_image_reads_back(data, b as int, piece, link(chosen, k));
    let next = next_block(data, b as int);
    let rest = chain_blocks(data, num_blocks, next, (fuel - 1) as nat);
    assert(chain_blocks(data, num_blocks, Some(b as u64), fuel) == seq![b] + rest);
    assert(chain_end(data, num_blocks, Some(b as u64), fuel) == chain_end(
        data,
        num_blocks,
        next,
        (fuel - 1) as nat,
    ));
    if k + 1 < chosen.len() {
        lemma_written_chain_is_walked(
            data,
            num_blocks,
            chosen,
            content,
            k + 1,
            (fuel - 1) as nat,
        );
    }
}

/// Reading depends on the blocks of the chain only: where two data regions
/// agree on the blocks that a walk of `fuel` steps visits, and the bytes to
/// read fit into that many blocks, reading gives the same result.
pub proof fn lemma_chain_content_frame(
    before: Seq<u8>,
    after: Seq<u8>,
    num_blocks: int,
    cur: Option<u64>,
    remaining: int,
    fuel: nat,
)
    requires
        before.len() == num_blocks * BLOCK_SIZE,
        after.len() == before.len(),
        before.len() <= usize::MAX,
        blocks_needed(remaining) <= fuel,
        forall|k: int|
            0 <= k < chain_blocks(before, num_blocks, cur, fuel).len() ==> block_bytes(
                after,
                (#[trigger] chain_blocks(before, num_blocks, cur, fuel)[k]) as int,
            ) == block_bytes(before, chain_blocks(before, num_blocks, cur, fuel)[k] as int),
    ensures
        chain_content(after, num_blocks, cur, remaining) == chain_content(
            before,
            num_blocks,
            cur,
            remaining,
        ),
    decreases fuel,
{
    if remaining > 0 {
        if let Some(b) = cur {
            if b < num_blocks {
                let all = chain_blocks(before, num_blocks, cur, fuel);
                let next = next_block(before, b as int);
                let rest = chain_blocks(before, num_blocks, next, (fuel - 1) as nat);
                let take = bytes_in_block(remaining);
                assert(all[0] == b as usize);
                lemma_same_block_same_pointer(before, after, b as int);
                assert forall|k: int| 0 <= k < rest.len() implies block_bytes(
                    after,
                    (#[trigger] rest[k]) as int,
                ) == block_bytes(before, rest[k] as int) by {
                    assert(all[k + 1] == rest[k]);
                }
                lemma_chain_content_frame(
                    before,
                    after,
                    num_blocks,
                    next,
                    remaining - take,
                    (fuel - 1) as nat,
                );
            }
        }
    }
}

/// A chain that a walk finds to be long enough holds the bytes to read:
/// reading `remaining` bytes succeeds and gives that many.
pub proof fn lemma_long_chain_is_readable(
    data: Seq<u8>,
    num_blocks: int,
    cur: Option<u64>,
    remaining: int,
    fuel: nat,
)
    requires
        data.len() == num_blocks * BLOCK_SIZE,
        remaining >= 0,
        chain_blocks(data, num_blocks, cur, fuel).len() >= blocks_needed(remaining),
    ensures
        chain_content(data, num_blocks, cur, remaining) matches Ok(bytes) && bytes.len()
            == remaining,
    decreases fuel,
{
    if remaining > 0 {
        let take = bytes_in_block(remaining);
        let b = cur->Some_0;
        lemma_long_chain_is_readable(
            data,
            num_blocks,
            next_block(data, b as int),
            remaining - take,
            (fuel - 1) as nat,
        );
    }
}

} // verus!
