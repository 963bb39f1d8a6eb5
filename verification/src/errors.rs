//! What can go wrong, grouped as callers need to tell it apart.

use vstd::prelude::*;
use crate::layout::LayoutError;

verus! {

/// An upload was refused for what the caller passed.
#[derive(Debug, Clone, Copy, PartialEq, Eq)]
pub enum ValidationError {
    /// The alias is empty or longer than the alias buffer.
    AliasLength,
    /// A stored file already has this alias.
    AliasInUse,
    /// The content to store is empty.
    EmptyContent,
}

/// An upload was refused for want of room.
#[derive(Debug, Clone, Copy, PartialEq, Eq)]
pub enum ResourceExhausted {
    /// Fewer blocks are free than the content needs.
    Blocks { needed: usize, available: usize },
    /// Every descriptor is in use.
    Filenodes,
}

/// A chain of blocks does not hold what its descriptor promises.
#[derive(Debug, Clone, Copy, PartialEq, Eq)]
pub enum CorruptChain {
    /// A pointer names a block that does not exist.
    BlockOutOfRange { index: u64 },
    /// The chain ended with `remaining` bytes still to come.
    Incomplete { remaining: usize },
}

/// How a walk along a chain came to its end.
#[derive(Debug, Clone, Copy, PartialEq, Eq)]
pub enum WalkEnd {
    /// The last block carried the end marker.
    EndOfChain,
    /// A pointer named a block that does not exist.
    BlockOutOfRange { index: u64 },
    /// The walk visited as many blocks as the store has and was cut there.
    TooLong,
}

/// The error of every operation of the store.
#[derive(Debug, Clone, Copy, PartialEq, Eq)]
pub enum FsError {
    Validation(ValidationError),
    ResourceExhausted(ResourceExhausted),
    /// No stored file has the alias.
    NotFound,
    CorruptChain(CorruptChain),
    Layout(LayoutError),
    /// The descriptor table read from the store has the wrong number of
    /// entries.
    TableSizeMismatch { expected: usize, actual: usize },
    /// The store ends before the regions that its header describes.
    StoreTooShort,
}

} // verus!
