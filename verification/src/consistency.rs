//! The invariants of a store that was only ever changed by its own
//! operations: every file's chain is whole, no block belongs to two files,
//! and the bitmap marks exactly the blocks of the files.

use vstd::prelude::*;
use crate::bitmap::{free_count, lemma_free_indices};
use crate::blocks::block_bytes;
use crate::chain::{
    ascending_blocks, blocks_needed, lemma_chain_blocks_frame, lemma_chain_blocks_in_range,
    lemma_chain_content_frame, lemma_long_chain_is_readable, lemma_release_count,
    lemma_written_chain_is_walked,
};
use crate::errors::WalkEnd;
use crate::fs_ops::{first_pointer, FsView};
use crate::fs_structs::BLOCK_SIZE;
use crate::table::{alias_slot, free_slot, has_alias, lemma_first_slot};

verus! {

/// The chain of the file in `slot` is what its descriptor promises: it
/// starts at a block, runs strictly forward through as many blocks as the
/// size needs, all of them marked as used, and ends at the end marker.
pub open spec fn file_is_sound(store: FsView, slot: int) -> bool {
    let node = store.filenodes[slot];
    let blocks = store.file_blocks(slot);
    &&& node.size > 0
    &&& node.first_block_index is Some
    &&& store.file_walk_end(slot) == WalkEnd::EndOfChain
    &&& blocks.len() == blocks_needed(node.size as int)
    &&& ascending_blocks(blocks, store.header.num_data_blocks as int)
    &&& forall|k: int| 0 <= k < blocks.len() ==> !store.free[(#[trigger] blocks[k]) as int]
}

/// Block `b` lies on the chain of the file in `slot`.
pub open spec fn owns_block(store: FsView, slot: int, b: usize) -> bool {
    &&& 0 <= slot < store.filenodes.len()
    &&& store.filenodes[slot].is_used
    &&& store.file_blocks(slot).contains(b)
}

/// The store is well formed and holds its invariants: every file in use is
/// sound, a slot not in use names no block, no block lies on the chains of
/// two files, every block marked as used lies on the chain of a file, and no
/// two files have the same alias.
pub open spec fn consistent(store: FsView) -> bool {
    &&& store.wf()
    &&& forall|slot: int|
        0 <= slot < store.filenodes.len() && (#[trigger] store.filenodes[slot]).is_used
            ==> file_is_sound(store, slot)
    &&& forall|slot: int|
        0 <= slot < store.filenodes.len() && !(#[trigger] store.filenodes[slot]).is_used
            ==> store.filenodes[slot].first_block_index is None
    &&& forall|one: int, two: int, b: usize|
        one != two && #[trigger] owns_block(store, one, b) ==> !#[trigger] owns_block(
            store,
            two,
            b,
        )
    &&& forall|b: int|
        0 <= b < store.free.len() && !#[trigger] store.free[b] ==> exists|slot: int|
            #[trigger] owns_block(store, slot, b as usize)
    &&& forall|one: int, two: int|
        0 <= one < two < store.filenodes.len() && (#[trigger] store.filenodes[one]).is_used && (
        #[trigger] store.filenodes[two]).is_used ==> store.filenodes[one].alias_bytes()
            != store.filenodes[two].alias_bytes()
}

/// A new store is consistent.
pub proof fn lemma_fresh_is_consistent(store: FsView)
    requires
        store.is_fresh(),
    ensures
        consistent(store),
{
}

/// Deleting a file of a consistent store leaves a consistent store.
pub proof fn lemma_delete_keeps_consistency(pre: FsView, post: FsView, slot: int)
    requires
        consistent(pre),
        0 <= slot < pre.filenodes.len(),
        pre.filenodes[slot].is_used,
        pre.deleted(post, slot),
    ensures
        consistent(post),
{
    let gone = pre.file_blocks(slot);
    assert forall|s: int| 0 <= s < post.filenodes.len() && s != slot implies post.file_blocks(s)
        == pre.file_blocks(s) && post.file_walk_end(s) == pre.file_walk_end(s) by {
        assert(post.filenodes[s] == pre.filenodes[s]);
    }
    assert forall|s: int, b: usize| #[trigger] owns_block(post, s, b) implies owns_block(
        pre,
        s,
        b,
    ) && s != slot by {
        assert(post.filenodes[s] == pre.filenodes[s] || s == slot);
    }
    assert forall|s: int|
        0 <= s < post.filenodes.len() && (#[trigger] post.filenodes[s]).is_used implies file_is_sound(
        post,
        s,
    ) by {
        assert(s != slot);
        assert(pre.filenodes[s].is_used);
        assert(file_is_sound(pre, s));
        let blocks = post.file_blocks(s);
        assert forall|k: int| 0 <= k < blocks.len() implies !post.free[(
        #[trigger] blocks[k]) as int] by {
            let b = blocks[k];
            assert(pre.file_blocks(s)[k] == b);
            assert(owns_block(pre, s, b));
            if gone.contains(b) {
                assert(owns_block(pre, slot, b));
            }
        }
    }
    assert forall|b: int| 0 <= b < post.free.len() && !#[trigger] post.free[b] implies exists|
        s: int,
    | #[trigger] owns_block(post, s, b as usize) by {
        assert(!pre.free[b]);
        assert(!gone.contains(b as usize));
        let s = choose|s: int| #[trigger] owns_block(pre, s, b as usize);
        assert(s != slot);
        assert(post.filenodes[s] == pre.filenodes[s]);
        assert(owns_block(post, s, b as usize));
    }
    assert forall|one: int, two: int|
        0 <= one < two < post.filenodes.len() && (#[trigger] post.filenodes[one]).is_used && (
        #[trigger] post.filenodes[two]).is_used implies post.filenodes[one].alias_bytes()
        != post.filenodes[two].alias_bytes() by {
        assert(post.filenodes[one] == pre.filenodes[one]);
        assert(post.filenodes[two] == pre.filenodes[two]);
    }
}

/// In a consistent store, deleting a file raises the
/// number of free blocks by the number of blocks that its size needs.
pub proof fn lemma_delete_frees_the_file(pre: FsView, post: FsView, slot: int)
    requires
        consistent(pre),
        0 <= slot < pre.filenodes.len(),
        pre.filenodes[slot].is_used,
        pre.deleted(post, slot),
    ensures
        free_count(post.free) == free_count(pre.free) + blocks_needed(
            pre.filenodes[slot].size as int,
        ),
{
    assert(file_is_sound(pre, slot));
    lemma_release_count(pre.free, post.free, pre.file_blocks(slot));
}

/// A block that an upload did not choose keeps its bytes.
pub proof fn lemma_unchosen_block_is_kept(
    before: Seq<u8>,
    after: Seq<u8>,
    chosen: Seq<usize>,
    b: int,
)
    requires
        after.len() == before.len(),
        before.len() <= usize::MAX,
        0 <= b,
        b * BLOCK_SIZE + BLOCK_SIZE <= before.len(),
        !chosen.contains(b as usize),
        forall|p: int|
            0 <= p < before.len() && !chosen.contains((p / (BLOCK_SIZE as int)) as usize)
                ==> #[trigger] after[p] == before[p],
    ensures
        block_bytes(after, b) == block_bytes(before, b),
{
    assert forall|i: int| 0 <= i < BLOCK_SIZE implies block_bytes(after, b)[i] == block_bytes(
        before,
        b,
    )[i] by {
        let p = b * BLOCK_SIZE + i;
        assert(p / (BLOCK_SIZE as int) == b);
        assert(after[p] == before[p]);
    }
    assert(block_bytes(after, b) =~= block_bytes(before, b));
}

/// An upload into a consistent store leaves a consistent store.
pub proof fn lemma_upload_keeps_consistency(
    pre: FsView,
    post: FsView,
    alias: Seq<u8>,
    content: Seq<u8>,
)
    requires
        consistent(pre),
        pre.upload_refusal(alias, content.len() as int) is None,
        pre.uploaded(post, alias, content),
    ensures
        consistent(post),
{
    let num_blocks = pre.header.num_data_blocks as int;
    let chosen = pre.blocks_for(content.len() as int);
    let slot = free_slot(pre.filenodes).unwrap() as int;
    lemma_free_indices(pre.free);
    lemma_first_slot(Seq::new(pre.filenodes.len(), |i: int| !pre.filenodes[i].is_used), 0);
    let alias_flags = Seq::new(pre.filenodes.len(), |i: int| has_alias(pre.filenodes[i], alias));
    lemma_first_slot(alias_flags, 0);
    assert(!pre.filenodes[slot].is_used);
    assert(ascending_blocks(chosen, num_blocks));
    assert forall|k: int| 0 <= k < chosen.len() implies pre.free[(#[trigger] chosen[k]) as int] by {}
    assert(content.len() <= usize::MAX);

    // The files that were there walk the same chains as before.
    assert forall|s: int|
        0 <= s < pre.filenodes.len() && s != slot && pre.filenodes[s].is_used implies post.file_blocks(
        s,
    ) == pre.file_blocks(s) && post.file_walk_end(s) == pre.file_walk_end(s) by {
        assert(post.filenodes[s] == pre.filenodes[s]);
        assert(file_is_sound(pre, s));
        let blocks = pre.file_blocks(s);
        assert forall|k: int| 0 <= k < blocks.len() implies block_bytes(
            post.data,
            (#[trigger] blocks[k]) as int,
        ) == block_bytes(pre.data, blocks[k] as int) by {
            let b = blocks[k];
            assert(!pre.free[b as int]);
            if chosen.contains(b) {
                let i = choose|i: int| 0 <= i < chosen.len() && chosen[i] == b;
                assert(pre.free[chosen[i] as int]);
            }
            lemma_unchosen_block_is_kept(pre.data, post.data, chosen, b as int);
        }
        lemma_chain_blocks_frame(
            pre.data,
            post.data,
            num_blocks,
            first_pointer(pre.filenodes[s]),
            num_blocks as nat,
        );
    }

    // The new file walks the chosen blocks.
    lemma_written_chain_is_walked(post.data, num_blocks, chosen, content, 0, num_blocks as nat);
    assert(chosen.subrange(0, chosen.len() as int) =~= chosen);
    assert(post.file_blocks(slot) == chosen);
    assert(post.file_walk_end(slot) == WalkEnd::EndOfChain);

    assert forall|s: int|
        0 <= s < post.filenodes.len() && (#[trigger] post.filenodes[s]).is_used implies file_is_sound(
        post,
        s,
    ) by {
        if s == slot {
            assert forall|k: int| 0 <= k < chosen.len() implies !post.free[(
            #[trigger] chosen[k]) as int] by {
                assert(chosen.contains(chosen[k]));
            }
        } else {
            assert(post.filenodes[s] == pre.filenodes[s]);
            assert(file_is_sound(pre, s));
        }
    }
    assert forall|s: int|
        0 <= s < post.filenodes.len() && !(#[trigger] post.filenodes[s]).is_used implies post.filenodes[s].first_block_index is None by {
        assert(post.filenodes[s] == pre.filenodes[s]);
    }
    assert forall|s: int, b: usize| s != slot && #[trigger] owns_block(post, s, b) implies owns_block(
        pre,
        s,
        b,
    ) by {
        assert(post.filenodes[s] == pre.filenodes[s]);
    }
    assert forall|one: int, two: int, b: usize|
        one != two && #[trigger] owns_block(post, one, b) implies !#[trigger] owns_block(
            post,
            two,
            b,
        ) by {
        if owns_block(post, two, b) {
            if one == slot || two == slot {
                let other = if one == slot {
                    two
                } else {
                    one
                };
                assert(owns_block(pre, other, b));
                assert(file_is_sound(pre, other));
                let i = choose|i: int| 0 <= i < chosen.len() && chosen[i] == b;
                assert(pre.free[chosen[i] as int]);
                let k = choose|k: int|
                    0 <= k < pre.file_blocks(other).len() && pre.file_blocks(other)[k] == b;
                assert(!pre.free[pre.file_blocks(other)[k] as int]);
            } else {
                assert(owns_block(pre, one, b));
                assert(owns_block(pre, two, b));
            }
        }
    }
    assert forall|b: int| 0 <= b < post.free.len() && !#[trigger] post.free[b] implies exists|
        s: int,
    | #[trigger] owns_block(post, s, b as usize) by {
        if chosen.contains(b as usize) {
            assert(owns_block(post, slot, b as usize));
        } else {
            assert(!pre.free[b]);
            let s = choose|s: int| #[trigger] owns_block(pre, s, b as usize);
            assert(s != slot);
            assert(post.filenodes[s] == pre.filenodes[s]);
            assert(owns_block(post, s, b as usize));
        }
    }
    assert forall|one: int, two: int|
        0 <= one < two < post.filenodes.len() && (#[trigger] post.filenodes[one]).is_used && (
        #[trigger] post.filenodes[two]).is_used implies post.filenodes[one].alias_bytes()
        != post.filenodes[two].alias_bytes() by {
        assert(post.filenodes[slot].alias_bytes() =~= alias);
        if one != slot {
            assert(post.filenodes[one] == pre.filenodes[one]);
            assert(!alias_flags[one]);
        }
        if two != slot {
            assert(post.filenodes[two] == pre.filenodes[two]);
            assert(!alias_flags[two]);
        }
    }
}

/// Every file of a consistent store can be read, and reading gives as many
/// bytes as its descriptor says.
pub proof fn lemma_consistent_file_is_readable(store: FsView, alias: Seq<u8>)
    requires
        consistent(store),
        alias_slot(store.filenodes, alias) is Some,
    ensures
        store.file_content(alias) matches Ok(bytes) && bytes.len()
            == store.filenodes[alias_slot(store.filenodes, alias).unwrap() as int].size,
{
    let slot = alias_slot(store.filenodes, alias).unwrap() as int;
    lemma_first_slot(
        Seq::new(store.filenodes.len(), |i: int| has_alias(store.filenodes[i], alias)),
        0,
    );
    assert(store.filenodes[slot].is_used);
    assert(file_is_sound(store, slot));
    lemma_long_chain_is_readable(
        store.data,
        store.header.num_data_blocks as int,
        first_pointer(store.filenodes[slot]),
        store.filenodes[slot].size as int,
        store.header.num_data_blocks as nat,
    );
}

/// An upload into a consistent store changes no other file: under every
/// other alias a download gives what it gave before.
pub proof fn lemma_upload_keeps_other_files(
    pre: FsView,
    post: FsView,
    alias: Seq<u8>,
    content: Seq<u8>,
    other: Seq<u8>,
)
    requires
        consistent(pre),
        pre.upload_refusal(alias, content.len() as int) is None,
        pre.uploaded(post, alias, content),
        other != alias,
    ensures
        post.file_content(other) == pre.file_content(other),
{
    let num_blocks = pre.header.num_data_blocks as int;
    let chosen = pre.blocks_for(content.len() as int);
    let slot = free_slot(pre.filenodes).unwrap() as int;
    lemma_free_indices(pre.free);
    lemma_first_slot(Seq::new(pre.filenodes.len(), |i: int| !pre.filenodes[i].is_used), 0);
    let old_flags = Seq::new(pre.filenodes.len(), |i: int| has_alias(pre.filenodes[i], other));
    let new_flags = Seq::new(post.filenodes.len(), |i: int| has_alias(post.filenodes[i], other));
    assert(post.filenodes[slot].alias_bytes() =~= alias);
    assert(new_flags =~= old_flags);
    lemma_first_slot(old_flags, 0);
    if let Some(found) = alias_slot(pre.filenodes, other) {
        let s = found as int;
        assert(old_flags[s]);
        assert(s != slot);
        assert(post.filenodes[s] == pre.filenodes[s]);
        assert(pre.filenodes[s].is_used);
        assert(file_is_sound(pre, s));
        let blocks = pre.file_blocks(s);
        assert forall|k: int| 0 <= k < blocks.len() implies block_bytes(
            post.data,
            (#[trigger] blocks[k]) as int,
        ) == block_bytes(pre.data, blocks[k] as int) by {
            let b = blocks[k];
            assert(!pre.free[b as int]);
            if chosen.contains(b) {
                let i = choose|i: int| 0 <= i < chosen.len() && chosen[i] == b;
                assert(pre.free[chosen[i] as int]);
            }
            lemma_unchosen_block_is_kept(pre.data, post.data, chosen, b as int);
        }
        lemma_chain_blocks_in_range(
            pre.data,
            num_blocks,
            first_pointer(pre.filenodes[s]),
            num_blocks as nat,
        );
        lemma_chain_content_frame(
            pre.data,
            post.data,
            num_blocks,
            first_pointer(pre.filenodes[s]),
            pre.filenodes[s].size as int,
            num_blocks as nat,
        );
    }
}

/// A deletion changes no other file: under every other alias a download
/// gives what it gave before.
pub proof fn lemma_delete_keeps_other_files(
    pre: FsView,
    post: FsView,
    alias: Seq<u8>,
    other: Seq<u8>,
)
    requires
        pre.wf(),
        alias_slot(pre.filenodes, alias) is Some,
        pre.deleted(post, alias_slot(pre.filenodes, alias).unwrap() as int),
        other != alias,
    ensures
        post.file_content(other) == pre.file_content(other),
{
    let slot = alias_slot(pre.filenodes, alias).unwrap() as int;
    let alias_flags = Seq::new(pre.filenodes.len(), |i: int| has_alias(pre.filenodes[i], alias));
    lemma_first_slot(alias_flags, 0);
    assert(alias_flags[slot]);
    let old_flags = Seq::new(pre.filenodes.len(), |i: int| has_alias(pre.filenodes[i], other));
    let new_flags = Seq::new(post.filenodes.len(), |i: int| has_alias(post.filenodes[i], other));
    assert(new_flags =~= old_flags);
    lemma_first_slot(old_flags, 0);
    if let Some(found) = alias_slot(pre.filenodes, other) {
        assert(old_flags[found as int]);
        assert(post.filenodes[found as int] == pre.filenodes[found as int]);
    }
}

} // verus!
