//! Constants and the two records that describe the store: its header and a
//! file descriptor.

use vstd::prelude::*;
use vstd::array::*;
use vstd::slice::*;
use vstd::utf8::*;

verus! {

pub const KILOBYTE: usize = 1024;

pub const MEGABYTE: usize = 1048576;

/// Size in bytes of the whole backing store.
pub const FILESYSTEM_SIZE: usize = 1048576;

/// Size in bytes of one data block, pointer field included.
pub const BLOCK_SIZE: usize = 4096;

/// Width in bytes of the pointer field that ends every block.
pub const NEXT_BLOCK_POINTER_SIZE: usize = 8;

/// Payload bytes that one block can carry.
pub const USABLE_BLOCK_SIZE: usize = 4088;

/// Capacity in bytes of a descriptor's alias buffer.
pub const MAX_FILENAME_LENGTH: usize = 255;

/// Number of descriptors in the table.
pub const FILENODE_TABLE_CAPACITY: usize = 100;

/// Version written into every header.
pub const FORMAT_VERSION: u32 = 1;

/// Geometry of the store: where each region starts and how many data blocks
/// there are.
#[derive(Debug, Clone, Copy, PartialEq, Eq, Structural)]
pub struct Header {
    pub version: u32,
    pub total_size: usize,
    pub block_size: usize,
    pub filenode_table_offset: usize,
    pub filenode_table_size: usize,
    pub free_block_bitmap_offset: usize,
    pub data_blocks_offset: usize,
    pub num_data_blocks: usize,
}

/// Descriptor of one stored file.
#[derive(Debug, Clone, Copy)]
pub struct FileNode {
    pub alias: [u8; MAX_FILENAME_LENGTH],
    pub alias_len: u8,
    pub size: usize,
    pub first_block_index: Option<usize>,
    pub is_used: bool,
}

/// The error of `String::from_utf8` of the standard library. Nothing is said
/// of what it holds: it is handed on as it came.
#[verifier::external_type_specification]
#[verifier::external_body]
pub struct ExFromUtf8Error(std::string::FromUtf8Error);

/// `String::from_utf8` of the standard library. It succeeds exactly on bytes
/// that are valid UTF-8, and the string it returns is made of those bytes.
pub assume_specification[ String::from_utf8 ](vec: Vec<u8>) -> (result: Result<
    String,
    std::string::FromUtf8Error,
>)
    ensures
        result is Ok <==> valid_utf8(vec@),
        result matches Ok(s) ==> encode_utf8(s@) == vec@,
;

/// The descriptor of a free slot: zeroed alias, no size, no first block.
pub open spec fn empty_filenode(node: FileNode) -> bool {
    &&& forall|i: int| 0 <= i < MAX_FILENAME_LENGTH ==> node.alias@[i] == 0u8
    &&& node.alias_len == 0
    &&& node.size == 0
    &&& node.first_block_index is None
    &&& !node.is_used
}

impl FileNode {
    /// The bytes of the alias: the first `alias_len` bytes of the buffer.
    pub open spec fn alias_bytes(self) -> Seq<u8> {
        self.alias@.subrange(0, self.alias_len as int)
    }

    /// The alias as text, when its bytes are valid UTF-8.
    pub fn get_alias_str(&self) -> (result: Result<String, std::string::FromUtf8Error>)
        ensures
            result is Ok <==> valid_utf8(self.alias_bytes()),
            result matches Ok(s) ==> encode_utf8(s@) == self.alias_bytes() && s@ == decode_utf8(
                self.alias_bytes(),
            ),
    {
        let bytes = slice_to_vec(
            slice_subrange(self.alias.as_slice(), 0, self.alias_len as usize),
        );
        let result = String::from_utf8(bytes);
        proof {
            if result is Ok {
                encode_utf8_decode_utf8(result->Ok_0@);
            }
        }
        result
    }

    /// A free descriptor.
    pub fn new() -> (node: FileNode)
        ensures
            empty_filenode(node),
    {
        FileNode {
            alias: [0u8; MAX_FILENAME_LENGTH],
            alias_len: 0,
            size: 0,
            first_block_index: None,
            is_used: false,
        }
    }
}

} // verus!
