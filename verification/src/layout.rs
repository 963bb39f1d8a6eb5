//! Where each region of the store lies, derived from four numbers: the
//! store's size, the block size, the table's capacity and the longest alias.

use vstd::prelude::*;
use crate::fs_structs::{Header, FORMAT_VERSION};

verus! {

/// Bytes set aside for the header at the start of the store.
pub const HEADER_SIZE: usize = 64;

/// Bytes of the count that precedes the stored descriptors.
pub const TABLE_LENGTH_PREFIX_SIZE: usize = 8;

/// Bytes that a descriptor needs besides its alias buffer: the alias length
/// (1), the file size (8), the optional first block (16) and the used flag (1).
pub const FILENODE_FIXED_FIELDS_SIZE: usize = 26;

/// The constants do not leave room for a single data block.
#[derive(Debug, Clone, Copy, PartialEq, Eq, Structural)]
pub enum LayoutError {
    NoDataBlocks,
}

/// Bytes set aside for one descriptor: the alias buffer and the fixed fields,
/// rounded up to a multiple of eight.
pub open spec fn filenode_record_width(max_alias_len: int) -> int {
    ((max_alias_len + FILENODE_FIXED_FIELDS_SIZE + 7) / 8) * 8
}

/// Bytes of the descriptor table: the count, then one record per slot.
pub open spec fn filenode_table_span(table_capacity: int, max_alias_len: int) -> int {
    TABLE_LENGTH_PREFIX_SIZE + table_capacity * filenode_record_width(max_alias_len)
}

/// Bytes of a bitmap with one bit for each of `num_blocks` blocks.
pub open spec fn bitmap_span(num_blocks: int) -> int {
    (num_blocks + 7) / 8
}

/// Whole blocks that fit between `offset` and the end of the store.
pub open spec fn blocks_after(total_size: int, block_size: int, offset: int) -> int {
    if total_size > offset {
        (total_size - offset) / block_size
    } else {
        0
    }
}

/// Offset of the bitmap: it follows the header and the table.
pub open spec fn bitmap_offset(table_capacity: int, max_alias_len: int) -> int {
    HEADER_SIZE + filenode_table_span(table_capacity, max_alias_len)
}

/// Offset of the first data block. The bitmap before it is sized for the
/// blocks that would fit if the bitmap took no room.
pub open spec fn data_offset(
    total_size: int,
    block_size: int,
    table_capacity: int,
    max_alias_len: int,
) -> int {
    let start = bitmap_offset(table_capacity, max_alias_len);
    start + bitmap_span(blocks_after(total_size, block_size, start))
}

/// Number of data blocks: what fits after the bitmap.
pub open spec fn data_block_count(
    total_size: int,
    block_size: int,
    table_capacity: int,
    max_alias_len: int,
) -> int {
    blocks_after(
        total_size,
        block_size,
        data_offset(total_size, block_size, table_capacity, max_alias_len),
    )
}

/// The header that the four numbers determine.
pub open spec fn layout_of(
    total_size: usize,
    block_size: usize,
    table_capacity: usize,
    max_alias_len: usize,
) -> Header {
    Header {
        version: FORMAT_VERSION,
        total_size,
        block_size,
        filenode_table_offset: HEADER_SIZE,
        filenode_table_size: table_capacity,
        free_block_bitmap_offset: bitmap_offset(
            table_capacity as int,
            max_alias_len as int,
        ) as usize,
        data_blocks_offset: data_offset(
            total_size as int,
            block_size as int,
            table_capacity as int,
            max_alias_len as int,
        ) as usize,
        num_data_blocks: data_block_count(
            total_size as int,
            block_size as int,
            table_capacity as int,
            max_alias_len as int,
        ) as usize,
    }
}

/// The regions of a header follow one another without overlap, and the block
/// count is what fits after the data offset.
pub open spec fn header_regions_in_order(h: Header) -> bool {
    &&& h.filenode_table_offset < h.free_block_bitmap_offset <= h.data_blocks_offset
    &&& h.num_data_blocks > 0 ==> h.free_block_bitmap_offset < h.data_blocks_offset
    &&& h.num_data_blocks == blocks_after(
        h.total_size as int,
        h.block_size as int,
        h.data_blocks_offset as int,
    )
    &&& h.data_blocks_offset + h.num_data_blocks * h.block_size <= h.total_size
        || h.num_data_blocks == 0
}

/// Bytes set aside for one descriptor.
pub fn record_width(max_alias_len: usize) -> (width: usize)
    requires
        filenode_record_width(max_alias_len as int) <= usize::MAX,
    ensures
        width == filenode_record_width(max_alias_len as int),
{
    let base: usize = max_alias_len + FILENODE_FIXED_FIELDS_SIZE;
    let rest: usize = base % 8;
    if rest == 0 {
        base
    } else {
        base + (8 - rest)
    }
}

/// Computes the header for a store of `total_size` bytes cut into blocks of
/// `block_size` bytes, with a table of `table_capacity` descriptors whose
/// aliases hold up to `max_alias_len` bytes.
///
/// Fails exactly when no data block fits although the store is larger than
/// one block.
pub fn compute_layout(
    total_size: usize,
    block_size: usize,
    table_capacity: usize,
    max_alias_len: usize,
) -> (result: Result<Header, LayoutError>)
    requires
        block_size > 0,
        data_offset(
            total_size as int,
            block_size as int,
            table_capacity as int,
            max_alias_len as int,
        ) <= usize::MAX,
    ensures
        result is Err <==> (data_block_count(
            total_size as int,
            block_size as int,
            table_capacity as int,
            max_alias_len as int,
        ) == 0 && total_size > block_size),
        result matches Ok(h) ==> h == layout_of(
            total_size,
            block_size,
            table_capacity,
            max_alias_len,
        ) && header_regions_in_order(h),
        result matches Err(e) ==> e == LayoutError::NoDataBlocks,
{
    let ghost width_int = filenode_record_width(max_alias_len as int);
    let ghost start_int = bitmap_offset(table_capacity as int, max_alias_len as int);
    proof {
        assert(table_capacity * width_int >= 0) by (nonlinear_arith)
            requires
                table_capacity >= 0,
                width_int >= 0,
        ;
    }
    let records: usize = if table_capacity == 0 {
        0
    } else {
        proof {
            assert(width_int <= table_capacity * width_int) by (nonlinear_arith)
                requires
                    table_capacity >= 1,
                    width_int >= 0,
            ;
        }
        let width: usize = record_width(max_alias_len);
        table_capacity * width
    };
    assert(records == table_capacity * width_int) by (nonlinear_arith)
        requires
            table_capacity == 0 ==> records == 0,
            table_capacity != 0 ==> records == table_capacity * width_int,
    ;
    let table_bytes: usize = TABLE_LENGTH_PREFIX_SIZE + records;
    let bitmap_start: usize = HEADER_SIZE + table_bytes;
    let tentative_blocks: usize = if total_size > bitmap_start {
        (total_size - bitmap_start) / block_size
    } else {
        0
    };
    let bitmap_bytes: usize = tentative_blocks / 8 + (if tentative_blocks % 8 == 0 {
        0
    } else {
        1
    });
    let data_start: usize = bitmap_start + bitmap_bytes;
    let num_blocks: usize = if total_size > data_start {
        (total_size - data_start) / block_size
    } else {
        0
    };
    if num_blocks == 0 && total_size > block_size {
        return Err(LayoutError::NoDataBlocks);
    }
    let header = Header {
        version: FORMAT_VERSION,
        total_size,
        block_size,
        filenode_table_offset: HEADER_SIZE,
        filenode_table_size: table_capacity,
        free_block_bitmap_offset: bitmap_start,
        data_blocks_offset: data_start,
        num_data_blocks: num_blocks,
    };
    proof {
        if num_blocks > 0 {
            assert(num_blocks * block_size <= total_size - data_start) by (nonlinear_arith)
                requires
                    block_size > 0,
                    total_size > data_start,
                    num_blocks == (total_size - data_start) / (block_size as int),
            ;
            assert(tentative_blocks > 0) by (nonlinear_arith)
                requires
                    block_size > 0,
                    num_blocks > 0,
                    total_size > data_start,
                    data_start >= bitmap_start,
                    num_blocks == (total_size - data_start) / (block_size as int),
                    tentative_blocks == if total_size > bitmap_start {
                        (total_size - bitmap_start) / (block_size as int)
                    } else {
                        0
                    },
            ;
        }
    }
    Ok(header)
}

} // verus!
