//! The descriptor table: finding a file by its alias, finding a free slot,
//! and filling or clearing a slot.

use vstd::prelude::*;
use vstd::utf8::*;
use crate::fs_structs::{FileNode, MAX_FILENAME_LENGTH};

verus! {

/// The descriptor is in use and carries exactly this alias.
pub open spec fn has_alias(node: FileNode, alias: Seq<u8>) -> bool {
    node.is_used && node.alias_bytes() == alias
}

/// Comparing alias bytes is comparing alias text: a descriptor in use carries
/// the bytes of a text exactly when its bytes are valid UTF-8 and decode to
/// that text.
pub proof fn lemma_alias_bytes_are_alias_text(node: FileNode, text: Seq<char>)
    ensures
        has_alias(node, encode_utf8(text)) <==> node.is_used && valid_utf8(node.alias_bytes())
            && decode_utf8(node.alias_bytes()) == text,
{
    encode_utf8_valid_utf8(text);
    encode_utf8_decode_utf8(text);
    if valid_utf8(node.alias_bytes()) {
        decode_utf8_encode_utf8(node.alias_bytes());
    }
}

/// The first index at or after `start` whose flag is set.
pub open spec fn first_slot(flags: Seq<bool>, start: int) -> Option<usize>
    decreases flags.len() - start,
{
    if start < 0 || start >= flags.len() {
        None
    } else if flags[start] {
        Some(start as usize)
    } else {
        first_slot(flags, start + 1)
    }
}

/// The first slot of the table that holds a file with this alias.
pub open spec fn alias_slot(nodes: Seq<FileNode>, alias: Seq<u8>) -> Option<usize> {
    first_slot(Seq::new(nodes.len(), |i: int| has_alias(nodes[i], alias)), 0)
}

/// The first slot of the table that is not in use.
pub open spec fn free_slot(nodes: Seq<FileNode>) -> Option<usize> {
    first_slot(Seq::new(nodes.len(), |i: int| !nodes[i].is_used), 0)
}

/// `first_slot` gives the least index with a set flag, and nothing when no
/// flag is set.
pub proof fn lemma_first_slot(flags: Seq<bool>, start: int)
    requires
        0 <= start,
        flags.len() <= usize::MAX,
    ensures
        match first_slot(flags, start) {
            Some(i) => start <= i < flags.len() && flags[i as int] && forall|j: int|
                start <= j < i ==> !flags[j],
            None => forall|j: int| start <= j < flags.len() ==> !flags[j],
        },
    decreases flags.len() - start,
{
    if start < flags.len() && !flags[start] {
        lemma_first_slot(flags, start + 1);
    }
}

/// An index with a set flag and no set flag before it is what `first_slot`
/// gives.
pub proof fn lemma_first_slot_is(flags: Seq<bool>, i: int)
    requires
        0 <= i < flags.len(),
        flags.len() <= usize::MAX,
        flags[i],
        forall|j: int| 0 <= j < i ==> !flags[j],
    ensures
        first_slot(flags, 0) == Some(i as usize),
{
    lemma_first_slot(flags, 0);
}

/// The descriptor that an upload leaves in a slot: the alias at the start of
/// the buffer, the rest of the buffer as it was, the size and the first block.
pub open spec fn is_stored_filenode(
    node: FileNode,
    before: FileNode,
    alias: Seq<u8>,
    size: usize,
    first: usize,
) -> bool {
    &&& node.alias@ == alias + before.alias@.subrange(
        alias.len() as int,
        MAX_FILENAME_LENGTH as int,
    )
    &&& node.alias_len == alias.len()
    &&& node.size == size
    &&& node.first_block_index == Some(first)
    &&& node.is_used
}

/// Finds the first slot that is not in use.
pub fn find_free_filenode_index(nodes: &Vec<FileNode>) -> (found: Option<usize>)
    ensures
        found == free_slot(nodes@),
{
    let ghost flags = Seq::new(nodes@.len(), |i: int| !nodes@[i].is_used);
    let mut i: usize = 0;
    while i < nodes.len()
        invariant
            i <= nodes.len(),
            flags == Seq::new(nodes@.len(), |i: int| !nodes@[i].is_used),
            first_slot(flags, 0) == first_slot(flags, i as int),
        decreases nodes.len() - i,
    {
        if !nodes[i].is_used {
            return Some(i);
        }
        i += 1;
    }
    None
}

/// Whether the descriptor is in use under this alias.
pub fn alias_matches(node: &FileNode, alias: &[u8]) -> (same: bool)
    ensures
        same == has_alias(*node, alias@),
{
    if !node.is_used || node.alias_len as usize != alias.len() {
        return false;
    }
    let len: usize = alias.len();
    let mut i: usize = 0;
    while i < len
        invariant
            i <= len,
            len == alias@.len(),
            len == node.alias_len,
            len <= MAX_FILENAME_LENGTH,
            forall|j: int| 0 <= j < i ==> node.alias@[j] == alias@[j],
        decreases len - i,
    {
        if node.alias[i] != alias[i] {
            return false;
        }
        i += 1;
    }
    proof {
        assert(node.alias_bytes() =~= alias@);
    }
    true
}

/// Finds the first slot that holds a file with this alias.
pub fn find_filenode_by_alias(nodes: &Vec<FileNode>, alias: &[u8]) -> (found: Option<usize>)
    ensures
        found == alias_slot(nodes@, alias@),
{
    let ghost flags = Seq::new(nodes@.len(), |i: int| has_alias(nodes@[i], alias@));
    let mut i: usize = 0;
    while i < nodes.len()
        invariant
            i <= nodes.len(),
            flags == Seq::new(nodes@.len(), |i: int| has_alias(nodes@[i], alias@)),
            first_slot(flags, 0) == first_slot(flags, i as int),
        decreases nodes.len() - i,
    {
        if alias_matches(&nodes[i], alias) {
            return Some(i);
        }
        i += 1;
    }
    None
}

/// Builds the descriptor of a newly stored file from the slot's old content.
pub fn stored_filenode(before: FileNode, alias: &[u8], size: usize, first: usize) -> (node:
    FileNode)
    requires
        alias@.len() <= MAX_FILENAME_LENGTH,
    ensures
        is_stored_filenode(node, before, alias@, size, first),
{
    let len: usize = alias.len();
    let mut buffer: [u8; MAX_FILENAME_LENGTH] = before.alias;
    let mut i: usize = 0;
    while i < len
        invariant
            i <= len,
            len == alias@.len(),
            len <= MAX_FILENAME_LENGTH,
            forall|j: int| 0 <= j < i ==> buffer@[j] == alias@[j],
            forall|j: int| i <= j < MAX_FILENAME_LENGTH ==> buffer@[j] == before.alias@[j],
        decreases len - i,
    {
        buffer[i] = alias[i];
        i += 1;
    }
    proof {
        assert(buffer@ =~= alias@ + before.alias@.subrange(
            len as int,
            MAX_FILENAME_LENGTH as int,
        ));
    }
    FileNode {
        alias: buffer,
        alias_len: len as u8,
        size,
        first_block_index: Some(first),
        is_used: true,
    }
}

} // verus!
