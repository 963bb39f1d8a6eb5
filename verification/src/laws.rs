//! What holds of the operations taken together.

use vstd::prelude::*;
use crate::bitmap::{free_count, lemma_free_indices, lemma_unpack_packed, packed_bitmap};
use crate::chain::{
    blocks_needed, distinct_blocks, lemma_chain_blocks_in_range, lemma_release_count,
    lemma_take_count, lemma_written_chain_reads_back,
};
use crate::errors::{FsError, ResourceExhausted, ValidationError};
use crate::fs_ops::{first_pointer, loaded_view, regions_fit, stored_bitmap, stored_data, FsView};
use crate::fs_structs::{FileNode, MAX_FILENAME_LENGTH, USABLE_BLOCK_SIZE};
use crate::listing::{lines_view, listing};
use crate::table::{alias_slot, free_slot, has_alias, lemma_first_slot, lemma_first_slot_is};

verus! {

/// After an upload the alias leads to the slot that the upload filled.
pub proof fn lemma_uploaded_alias_is_found(
    pre: FsView,
    post: FsView,
    alias: Seq<u8>,
    content: Seq<u8>,
)
    requires
        pre.wf(),
        pre.upload_refusal(alias, content.len() as int) is None,
        pre.uploaded(post, alias, content),
    ensures
        alias_slot(post.filenodes, alias) == free_slot(pre.filenodes),
        free_slot(pre.filenodes) is Some,
{
    let slot = free_slot(pre.filenodes).unwrap() as int;
    let free_flags = Seq::new(pre.filenodes.len(), |i: int| !pre.filenodes[i].is_used);
    let old_flags = Seq::new(pre.filenodes.len(), |i: int| has_alias(pre.filenodes[i], alias));
    let new_flags = Seq::new(post.filenodes.len(), |i: int| has_alias(post.filenodes[i], alias));
    lemma_first_slot(free_flags, 0);
    lemma_first_slot(old_flags, 0);
    assert(post.filenodes[slot].alias_bytes() =~= alias);
    assert forall|j: int| 0 <= j < slot implies !new_flags[j] by {
        assert(!old_flags[j]);
    }
    lemma_first_slot_is(new_flags, slot);
}

/// What was stored under an alias is what a download of that
/// alias gives, byte for byte.
pub proof fn lemma_upload_then_download(
    pre: FsView,
    post: FsView,
    alias: Seq<u8>,
    content: Seq<u8>,
)
    requires
        pre.wf(),
        pre.upload_refusal(alias, content.len() as int) is None,
        pre.uploaded(post, alias, content),
    ensures
        post.file_content(alias) == Ok::<Seq<u8>, FsError>(content),
{
    let num_blocks = pre.header.num_data_blocks as int;
    let chosen = pre.blocks_for(content.len() as int);
    lemma_uploaded_alias_is_found(pre, post, alias, content);
    lemma_free_indices(pre.free);
    lemma_written_chain_reads_back(post.data, num_blocks, chosen, content, 0);
    assert(content.subrange(0, content.len() as int) =~= content);
}

/// A new store takes any content that fits its blocks, under any alias of
/// admissible length.
pub proof fn lemma_fresh_store_accepts(store: FsView, alias: Seq<u8>, size: int)
    requires
        store.is_fresh(),
        1 <= alias.len() <= MAX_FILENAME_LENGTH,
        1 <= size <= store.header.num_data_blocks * USABLE_BLOCK_SIZE,
    ensures
        store.wf(),
        store.upload_refusal(alias, size) is None,
{
    let free_flags = Seq::new(store.filenodes.len(), |i: int| !store.filenodes[i].is_used);
    let alias_flags = Seq::new(
        store.filenodes.len(),
        |i: int| has_alias(store.filenodes[i], alias),
    );
    lemma_first_slot(free_flags, 0);
    lemma_first_slot(alias_flags, 0);
    lemma_all_free(store.free);
}

/// Where every block is free, the free blocks are all the blocks.
pub proof fn lemma_all_free(free: Seq<bool>)
    requires
        forall|b: int| 0 <= b < free.len() ==> free[b],
    ensures
        free_count(free) == free.len(),
    decreases free.len(),
{
    if free.len() > 0 {
        lemma_all_free(free.drop_last());
    }
}

/// An upload under an alias that a stored file has is
/// refused as invalid.
pub proof fn lemma_alias_in_use_is_refused(store: FsView, alias: Seq<u8>, size: int)
    requires
        store.wf(),
        alias_slot(store.filenodes, alias) is Some,
    ensures
        store.upload_refusal(alias, size) matches Some(FsError::Validation(_)),
{
}

/// After an upload, a second upload under the same alias is
/// refused because the alias is in use.
pub proof fn lemma_second_upload_is_refused(
    pre: FsView,
    post: FsView,
    alias: Seq<u8>,
    content: Seq<u8>,
    size: int,
)
    requires
        pre.wf(),
        pre.upload_refusal(alias, content.len() as int) is None,
        pre.uploaded(post, alias, content),
    ensures
        post.upload_refusal(alias, size) == Some(
            FsError::Validation(ValidationError::AliasInUse),
        ),
{
    lemma_uploaded_alias_is_found(pre, post, alias, content);
}

/// Content larger than the free blocks can hold is refused for
/// want of blocks, whatever else the store holds, once the alias is
/// admissible and not in use.
pub proof fn lemma_exhaustion(store: FsView, alias: Seq<u8>, size: int)
    requires
        store.wf(),
        1 <= alias.len() <= MAX_FILENAME_LENGTH,
        alias_slot(store.filenodes, alias) is None,
        size > free_count(store.free) * USABLE_BLOCK_SIZE,
    ensures
        store.upload_refusal(alias, size) == Some(
            FsError::ResourceExhausted(
                ResourceExhausted::Blocks {
                    needed: blocks_needed(size) as usize,
                    available: free_count(store.free) as usize,
                },
            ),
        ),
{
}

/// Content is refused for want of blocks exactly when it is larger than the
/// free blocks can hold.
pub proof fn lemma_blocks_suffice(size: int, free_blocks: int)
    requires
        size >= 0,
        free_blocks >= 0,
    ensures
        blocks_needed(size) > free_blocks <==> size > free_blocks * USABLE_BLOCK_SIZE,
{
}

/// An upload takes as many blocks as the content needs: the number of free
/// blocks falls by that number.
pub proof fn lemma_upload_takes_blocks(
    pre: FsView,
    post: FsView,
    alias: Seq<u8>,
    content: Seq<u8>,
)
    requires
        pre.wf(),
        pre.upload_refusal(alias, content.len() as int) is None,
        pre.uploaded(post, alias, content),
    ensures
        free_count(post.free) == free_count(pre.free) - blocks_needed(content.len() as int),
{
    lemma_free_indices(pre.free);
    lemma_take_count(pre.free, post.free, pre.blocks_for(content.len() as int));
}

/// Where the blocks on the file's chain are in use and
/// none occurs twice, deleting the file raises the number of free blocks by
/// the length of the chain.
pub proof fn lemma_delete_frees_chain(pre: FsView, post: FsView, slot: int)
    requires
        pre.wf(),
        0 <= slot < pre.filenodes.len(),
        pre.deleted(post, slot),
        distinct_blocks(pre.file_blocks(slot)),
        forall|k: int|
            0 <= k < pre.file_blocks(slot).len() ==> !pre.free[(
            #[trigger] pre.file_blocks(slot)[k]) as int],
    ensures
        free_count(post.free) == free_count(pre.free) + pre.file_blocks(slot).len(),
{
    lemma_chain_blocks_in_range(
        pre.data,
        pre.header.num_data_blocks as int,
        first_pointer(pre.filenodes[slot]),
        pre.header.num_data_blocks as nat,
    );
    lemma_release_count(pre.free, post.free, pre.file_blocks(slot));
}

/// After a deletion the store has a free slot, the
/// file's own or one before it, so that an upload is not refused for want of
/// a descriptor.
pub proof fn lemma_deleted_slot_is_selectable(pre: FsView, post: FsView, slot: int)
    requires
        pre.wf(),
        0 <= slot < pre.filenodes.len(),
        pre.deleted(post, slot),
    ensures
        !post.filenodes[slot].is_used,
        free_slot(post.filenodes) matches Some(found) && found <= slot,
{
    let flags = Seq::new(post.filenodes.len(), |i: int| !post.filenodes[i].is_used);
    lemma_first_slot(flags, 0);
    assert(flags[slot]);
}

/// The alias of a deleted file no longer leads to its slot.
pub proof fn lemma_deleted_file_is_gone(pre: FsView, post: FsView, alias: Seq<u8>)
    requires
        pre.wf(),
        alias_slot(pre.filenodes, alias) is Some,
        pre.deleted(post, alias_slot(pre.filenodes, alias).unwrap() as int),
    ensures
        alias_slot(post.filenodes, alias) != alias_slot(pre.filenodes, alias),
{
    let old_flags = Seq::new(pre.filenodes.len(), |i: int| has_alias(pre.filenodes[i], alias));
    let new_flags = Seq::new(post.filenodes.len(), |i: int| has_alias(post.filenodes[i], alias));
    lemma_first_slot(old_flags, 0);
    lemma_first_slot(new_flags, 0);
}

/// A store opened from its own header and table, and from bytes
/// that hold its bitmap in stored form and its data region at the offsets of
/// the header, is the store that was saved.
pub proof fn lemma_reopen_restores(store: FsView, image: Seq<u8>)
    requires
        store.wf(),
        regions_fit(store.header, image.len() as int),
        stored_bitmap(store.header, image) == packed_bitmap(store.free),
        stored_data(store.header, image) == store.data,
    ensures
        loaded_view(store.header, store.filenodes, image) == store,
{
    lemma_unpack_packed(store.free);
}

/// A new store is well formed and lists no file.
pub proof fn lemma_fresh_store_lists_nothing(store: FsView)
    requires
        store.is_fresh(),
    ensures
        store.wf(),
        listing(store.filenodes) == Seq::<Seq<char>>::empty(),
{
    lemma_unused_slots_list_nothing(store.filenodes);
}

/// A table without a descriptor in use lists no file.
pub proof fn lemma_unused_slots_list_nothing(nodes: Seq<FileNode>)
    requires
        forall|i: int| 0 <= i < nodes.len() ==> !nodes[i].is_used,
    ensures
        listing(nodes) == Seq::<Seq<char>>::empty(),
    decreases nodes.len(),
{
    if nodes.len() > 0 {
        lemma_unused_slots_list_nothing(nodes.drop_last());
    }
}

/// Two listings of the same store hold the same lines in
/// the same order.
pub proof fn lemma_listing_is_stable(store: FsView, first: Seq<String>, second: Seq<String>)
    requires
        lines_view(first) == listing(store.filenodes),
        lines_view(second) == listing(store.filenodes),
    ensures
        lines_view(first) == lines_view(second),
{
}

} // verus!
