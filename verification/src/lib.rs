//! A small virtual filesystem kept inside one fixed-size backing store.
//!
//! The store is laid out as a header, a fixed-capacity table of file
//! descriptors, a bitmap with one bit per data block, and the data blocks
//! themselves. Files are chains of blocks linked through a pointer held in
//! the last bytes of each block.
//!
//! The engine in `fs_ops` holds the store in memory and offers the
//! operations on it: make a store, open one, upload, download, list, delete.
//! Reading and writing the backing file is left to the caller, who hands in
//! bytes and takes bytes back.
//!
//! `laws` and `consistency` state what holds of the operations taken
//! together: what is stored can be read back, a store that was only changed
//! by its own operations keeps its invariants, and no operation disturbs the
//! files it was not asked about.

pub mod fs_structs;
pub mod layout;
pub mod errors;
pub mod bitmap;
pub mod blocks;
pub mod chain;
pub mod table;
pub mod listing;
pub mod fs_ops;
pub mod laws;
pub mod consistency;
