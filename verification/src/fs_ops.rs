//! The storage engine: the store held in memory, and the operations on it.

use vstd::prelude::*;
use vstd::slice::*;
use vstd::string::*;
use crate::bitmap::{
    count_free_blocks, find_free_blocks, free_count, free_indices, lemma_free_indices,
    pack_bitmap, packed_bitmap, unpack_bitmap, unpacked_bitmap,
};
use crate::chain::{
    blocks_needed, blocks_released, blocks_taken, chain_blocks, chain_content, chain_end,
    chain_written, collect_chain, count_blocks_needed, read_chain, release_blocks, write_chain,
};
use crate::consistency::{
    consistent, lemma_delete_keeps_consistency, lemma_fresh_is_consistent,
    lemma_upload_keeps_consistency,
};
use crate::errors::{FsError, ResourceExhausted, ValidationError, WalkEnd};
use crate::fs_structs::{
    empty_filenode, FileNode, Header, BLOCK_SIZE, FILENODE_TABLE_CAPACITY, FILESYSTEM_SIZE,
    FORMAT_VERSION, MAX_FILENAME_LENGTH,
};
use crate::layout::{bitmap_span, compute_layout, layout_of};
use crate::listing::{format_listing, lines_view, listing};
use crate::table::{
    alias_slot, find_filenode_by_alias, find_free_filenode_index, free_slot, has_alias,
    is_stored_filenode, lemma_first_slot, stored_filenode,
};

verus! {

/// The store as a mathematical value: its header, the descriptor table, the
/// free flag of each block, and the bytes of the data region.
pub struct FsView {
    pub header: Header,
    pub filenodes: Seq<FileNode>,
    pub free: Seq<bool>,
    pub data: Seq<u8>,
}

impl FsView {
    /// The header is of this version and geometry, and the table, the bitmap
    /// and the data region have the sizes that the header gives.
    pub open spec fn wf(self) -> bool {
        &&& self.header.version == FORMAT_VERSION
        &&& self.header.total_size == FILESYSTEM_SIZE
        &&& self.header.block_size == BLOCK_SIZE
        &&& self.filenodes.len() == self.header.filenode_table_size
        &&& self.free.len() == self.header.num_data_blocks
        &&& self.data.len() == self.header.num_data_blocks * BLOCK_SIZE
        &&& self.data.len() <= usize::MAX
    }

    /// The reason why `alias` cannot name a new file, if there is one: its
    /// length, or a stored file that has it.
    pub open spec fn alias_refusal(self, alias: Seq<u8>) -> Option<FsError> {
        if alias.len() == 0 || alias.len() > MAX_FILENAME_LENGTH {
            Some(FsError::Validation(ValidationError::AliasLength))
        } else if alias_slot(self.filenodes, alias) is Some {
            Some(FsError::Validation(ValidationError::AliasInUse))
        } else {
            None
        }
    }

    /// The reason why storing `size` bytes under `alias` is refused, if it is.
    /// The conditions are tried in this order: the alias, the size, the free
    /// blocks, the free descriptors.
    pub open spec fn upload_refusal(self, alias: Seq<u8>, size: int) -> Option<FsError> {
        if self.alias_refusal(alias) is Some {
            self.alias_refusal(alias)
        } else if size == 0 {
            Some(FsError::Validation(ValidationError::EmptyContent))
        } else if blocks_needed(size) > free_count(self.free) {
            Some(
                FsError::ResourceExhausted(
                    ResourceExhausted::Blocks {
                        needed: blocks_needed(size) as usize,
                        available: free_count(self.free) as usize,
                    },
                ),
            )
        } else if free_slot(self.filenodes) is None {
            Some(FsError::ResourceExhausted(ResourceExhausted::Filenodes))
        } else {
            None
        }
    }

    /// A newly made store: the header of the configured geometry, every
    /// descriptor empty, every block free and filled with zeros.
    pub open spec fn is_fresh(self) -> bool {
        &&& self.header == layout_of(
            FILESYSTEM_SIZE,
            BLOCK_SIZE,
            FILENODE_TABLE_CAPACITY,
            MAX_FILENAME_LENGTH,
        )
        &&& self.filenodes.len() == FILENODE_TABLE_CAPACITY
        &&& forall|i: int| 0 <= i < self.filenodes.len() ==> empty_filenode(self.filenodes[i])
        &&& self.free.len() == self.header.num_data_blocks
        &&& forall|b: int| 0 <= b < self.free.len() ==> self.free[b]
        &&& self.data.len() == self.header.num_data_blocks * BLOCK_SIZE
        &&& forall|p: int| 0 <= p < self.data.len() ==> self.data[p] == 0u8
    }

    /// The bytes of the file stored under `alias`, or the reason why they
    /// cannot be read: no such file, or a chain that does not hold them.
    pub open spec fn file_content(self, alias: Seq<u8>) -> Result<Seq<u8>, FsError> {
        match alias_slot(self.filenodes, alias) {
            None => Err(FsError::NotFound),
            Some(slot) => match chain_content(
                self.data,
                self.header.num_data_blocks as int,
                first_pointer(self.filenodes[slot as int]),
                self.filenodes[slot as int].size as int,
            ) {
                Ok(bytes) => Ok(bytes),
                Err(e) => Err(FsError::CorruptChain(e)),
            },
        }
    }

    /// The blocks found by walking the chain of the file in `slot`.
    pub open spec fn file_blocks(self, slot: int) -> Seq<usize> {
        chain_blocks(
            self.data,
            self.header.num_data_blocks as int,
            first_pointer(self.filenodes[slot]),
            self.header.num_data_blocks as nat,
        )
    }

    /// How the walk along the chain of the file in `slot` ends.
    pub open spec fn file_walk_end(self, slot: int) -> WalkEnd {
        chain_end(
            self.data,
            self.header.num_data_blocks as int,
            first_pointer(self.filenodes[slot]),
            self.header.num_data_blocks as nat,
        )
    }

    /// `post` is this store after the file in `slot` was deleted: the blocks
    /// found on its chain are free and the slot is empty. Nothing else
    /// differs; the data region keeps its bytes.
    pub open spec fn deleted(self, post: FsView, slot: int) -> bool {
        &&& post.header == self.header
        &&& post.data == self.data
        &&& post.filenodes.len() == self.filenodes.len()
        &&& forall|i: int|
            0 <= i < self.filenodes.len() && i != slot ==> post.filenodes[i] == self.filenodes[i]
        &&& empty_filenode(post.filenodes[slot])
        &&& blocks_released(self.free, post.free, self.file_blocks(slot))
    }

    /// The blocks that an upload of `size` bytes takes: the free blocks of
    /// lowest index, as many as the bytes need.
    pub open spec fn blocks_for(self, size: int) -> Seq<usize> {
        free_indices(self.free).take(blocks_needed(size))
    }

    /// `post` is this store after `content` was stored under `alias`: the
    /// content lies as a chain over the chosen blocks, which are now in use,
    /// and the first free slot describes the file. Nothing else differs.
    pub open spec fn uploaded(self, post: FsView, alias: Seq<u8>, content: Seq<u8>) -> bool {
        let chosen = self.blocks_for(content.len() as int);
        let slot = free_slot(self.filenodes).unwrap() as int;
        &&& post.header == self.header
        &&& post.filenodes.len() == self.filenodes.len()
        &&& forall|i: int|
            0 <= i < self.filenodes.len() && i != slot ==> post.filenodes[i] == self.filenodes[i]
        &&& is_stored_filenode(
            post.filenodes[slot],
            self.filenodes[slot],
            alias,
            content.len() as usize,
            chosen[0],
        )
        &&& blocks_taken(self.free, post.free, chosen)
        &&& chain_written(self.data, post.data, chosen, content)
    }
}

/// The first block of a file as a pointer: absent when the descriptor names
/// none.
pub open spec fn first_pointer(node: FileNode) -> Option<u64> {
    match node.first_block_index {
        Some(b) => Some(b as u64),
        None => None,
    }
}

/// The header is of this version and describes a store of the configured
/// size and block size.
pub open spec fn header_is_current(header: Header) -> bool {
    &&& header.version == FORMAT_VERSION
    &&& header.total_size == FILESYSTEM_SIZE
    &&& header.block_size == BLOCK_SIZE
}

/// The bitmap and the data region that the header describes lie inside a
/// store of `image_len` bytes.
pub open spec fn regions_fit(header: Header, image_len: int) -> bool {
    &&& header.free_block_bitmap_offset + bitmap_span(header.num_data_blocks as int)
        <= image_len
    &&& header.data_blocks_offset + header.num_data_blocks * BLOCK_SIZE <= image_len
}

/// The stored bytes of the bitmap: what lies at the header's bitmap offset.
pub open spec fn stored_bitmap(header: Header, image: Seq<u8>) -> Seq<u8> {
    image.subrange(
        header.free_block_bitmap_offset as int,
        header.free_block_bitmap_offset + bitmap_span(header.num_data_blocks as int),
    )
}

/// The stored data region: what lies at the header's data offset.
pub open spec fn stored_data(header: Header, image: Seq<u8>) -> Seq<u8> {
    image.subrange(
        header.data_blocks_offset as int,
        header.data_blocks_offset + header.num_data_blocks * BLOCK_SIZE,
    )
}

/// The store that a header, a descriptor table and the bytes of a backing
/// store describe.
pub open spec fn loaded_view(header: Header, filenodes: Seq<FileNode>, image: Seq<u8>) -> FsView {
    FsView {
        header,
        filenodes,
        free: unpacked_bitmap(stored_bitmap(header, image), header.num_data_blocks as nat),
        data: stored_data(header, image),
    }
}

/// What `download_file` returns, with the bytes as a sequence.
pub open spec fn download_outcome(result: Result<Vec<u8>, FsError>) -> Result<Seq<u8>, FsError> {
    match result {
        Ok(bytes) => Ok(bytes@),
        Err(e) => Err(e),
    }
}

/// The store: header, descriptor table, free-block bitmap and data region.
pub struct FileSystemManager {
    header: Header,
    filenodes: Vec<FileNode>,
    free_block_bitmap: Vec<bool>,
    data_blocks: Vec<u8>,
}

impl View for FileSystemManager {
    type V = FsView;

    closed spec fn view(&self) -> FsView {
        FsView {
            header: self.header,
            filenodes: self.filenodes@,
            free: self.free_block_bitmap@,
            data: self.data_blocks@,
        }
    }
}

/// The first block of a file as a pointer.
pub fn first_block_pointer(node: &FileNode) -> (first: Option<u64>)
    ensures
        first == first_pointer(*node),
{
    match node.first_block_index {
        Some(b) => Some(b as u64),
        None => None,
    }
}

/// Whether the header is of this version and of the configured size and
/// block size.
pub fn header_matches_configuration(header: &Header) -> (current: bool)
    ensures
        current == header_is_current(*header),
{
    header.total_size == FILESYSTEM_SIZE && header.block_size == BLOCK_SIZE && header.version
        == FORMAT_VERSION
}

impl FileSystemManager {
    /// Checks that `alias` can name a new file: it has between one and
    /// `MAX_FILENAME_LENGTH` bytes, and no stored file has it.
    pub fn validate_alias(&self, alias: &str) -> (result: Result<(), FsError>)
        requires
            self@.wf(),
        ensures
            result == (match self@.alias_refusal(alias.spec_bytes()) {
                Some(e) => Err::<(), FsError>(e),
                None => Ok(()),
            }),
    {
        let alias_bytes = alias.as_bytes();
        if alias_bytes.len() == 0 || alias_bytes.len() > MAX_FILENAME_LENGTH {
            return Err(FsError::Validation(ValidationError::AliasLength));
        }
        if find_filenode_by_alias(&self.filenodes, alias_bytes).is_some() {
            return Err(FsError::Validation(ValidationError::AliasInUse));
        }
        Ok(())
    }

    /// Stores `content` under `alias`.
    ///
    /// The upload is refused, and the store left as it was, when the alias is
    /// empty or too long, when a file already has it, when the content is
    /// empty, when too few blocks are free, or when no descriptor is free.
    /// Otherwise the content goes into the free blocks of lowest index and the
    /// first free descriptor records it. A consistent store stays consistent.
    pub fn upload_file(&mut self, content: &[u8], alias: &str) -> (result: Result<(), FsError>)
        requires
            old(self)@.wf(),
        ensures
            final(self)@.wf(),
            result == (match old(self)@.upload_refusal(
                alias.spec_bytes(),
                content@.len() as int,
            ) {
                Some(e) => Err::<(), FsError>(e),
                None => Ok(()),
            }),
            result is Err ==> final(self)@ == old(self)@,
            result is Ok ==> old(self)@.uploaded(final(self)@, alias.spec_bytes(), content@),
            consistent(old(self)@) ==> consistent(final(self)@),
    {
        if let Err(e) = self.validate_alias(alias) {
            return Err(e);
        }
        let alias_bytes = alias.as_bytes();
        let file_size: usize = content.len();
        if file_size == 0 {
            return Err(FsError::Validation(ValidationError::EmptyContent));
        }
        let free_blocks_count: usize = count_free_blocks(&self.free_block_bitmap);
        let num_blocks_needed: usize = count_blocks_needed(file_size);
        let block_indices: Vec<usize> = match find_free_blocks(
            &self.free_block_bitmap,
            num_blocks_needed,
        ) {
            Some(indices) => indices,
            None => {
                return Err(
                    FsError::ResourceExhausted(
                        ResourceExhausted::Blocks {
                            needed: num_blocks_needed,
                            available: free_blocks_count,
                        },
                    ),
                );
            },
        };
        let filenode_index: usize = match find_free_filenode_index(&self.filenodes) {
            Some(index) => index,
            None => {
                return Err(FsError::ResourceExhausted(ResourceExhausted::Filenodes));
            },
        };
        proof {
            lemma_free_indices(self.free_block_bitmap@);
            lemma_first_slot(
                Seq::new(self.filenodes@.len(), |i: int| !self.filenodes@[i].is_used),
                0,
            );
        }
        write_chain(
            &mut self.data_blocks,
            &mut self.free_block_bitmap,
            &block_indices,
            content,
        );
        let node = stored_filenode(
            self.filenodes[filenode_index],
            alias_bytes,
            file_size,
            block_indices[0],
        );
        self.filenodes.set(filenode_index, node);
        proof {
            if consistent(old(self)@) {
                lemma_upload_keeps_consistency(
                    old(self)@,
                    self@,
                    alias.spec_bytes(),
                    content@,
                );
            }
        }
        Ok(())
    }

    /// Reads the file stored under `alias`.
    ///
    /// Fails when no file has the alias, when a pointer of its chain names a
    /// block outside the store, and when the chain ends before all bytes of
    /// the file were found.
    pub fn download_file(&self, alias: &str) -> (result: Result<Vec<u8>, FsError>)
        requires
            self@.wf(),
        ensures
            download_outcome(result) == self@.file_content(alias.spec_bytes()),
    {
        let slot: usize = match find_filenode_by_alias(&self.filenodes, alias.as_bytes()) {
            Some(slot) => slot,
            None => {
                return Err(FsError::NotFound);
            },
        };
        proof {
            lemma_first_slot(
                Seq::new(
                    self.filenodes@.len(),
                    |i: int| has_alias(self.filenodes@[i], alias.spec_bytes()),
                ),
                0,
            );
        }
        let first = first_block_pointer(&self.filenodes[slot]);
        match read_chain(
            &self.data_blocks,
            self.header.num_data_blocks,
            first,
            self.filenodes[slot].size,
        ) {
            Ok(bytes) => Ok(bytes),
            Err(e) => Err(FsError::CorruptChain(e)),
        }
    }

    /// Deletes the file stored under `alias`: frees the blocks found on its
    /// chain and empties its descriptor.
    ///
    /// Fails, and leaves the store as it was, when no file has the alias. A
    /// chain that runs out of the store or in circles does not stop the
    /// deletion: the blocks found up to there are freed, and the result says
    /// how the walk ended. A consistent store stays consistent.
    pub fn delete_file(&mut self, alias: &str) -> (result: Result<WalkEnd, FsError>)
        requires
            old(self)@.wf(),
        ensures
            final(self)@.wf(),
            match alias_slot(old(self)@.filenodes, alias.spec_bytes()) {
                None => result == Err::<WalkEnd, FsError>(FsError::NotFound) && final(self)@
                    == old(self)@,
                Some(slot) => result == Ok::<WalkEnd, FsError>(
                    old(self)@.file_walk_end(slot as int),
                ) && old(self)@.deleted(final(self)@, slot as int),
            },
            consistent(old(self)@) ==> consistent(final(self)@),
    {
        let slot: usize = match find_filenode_by_alias(&self.filenodes, alias.as_bytes()) {
            Some(slot) => slot,
            None => {
                return Err(FsError::NotFound);
            },
        };
        proof {
            lemma_first_slot(
                Seq::new(
                    self.filenodes@.len(),
                    |i: int| has_alias(self.filenodes@[i], alias.spec_bytes()),
                ),
                0,
            );
        }
        let first = first_block_pointer(&self.filenodes[slot]);
        let (blocks_to_free, end) = collect_chain(
            &self.data_blocks,
            self.header.num_data_blocks,
            first,
        );
        release_blocks(&mut self.free_block_bitmap, &blocks_to_free);
        self.filenodes.set(slot, FileNode::new());
        proof {
            if consistent(old(self)@) {
                lemma_delete_keeps_consistency(old(self)@, self@, slot as int);
            }
        }
        Ok(end)
    }

    /// Makes a new, empty store of the configured geometry. It is consistent,
    /// and with this geometry making it never fails.
    pub fn init_filesystem() -> (result: Result<FileSystemManager, FsError>)
        ensures
            result matches Ok(manager) && manager@.is_fresh() && manager@.wf() && consistent(
                manager@,
            ),
    {
        let header = match compute_layout(
            FILESYSTEM_SIZE,
            BLOCK_SIZE,
            FILENODE_TABLE_CAPACITY,
            MAX_FILENAME_LENGTH,
        ) {
            Ok(header) => header,
            Err(e) => {
                return Err(FsError::Layout(e));
            },
        };
        let mut filenodes: Vec<FileNode> = Vec::new();
        let mut i: usize = 0;
        while i < FILENODE_TABLE_CAPACITY
            invariant
                i <= FILENODE_TABLE_CAPACITY,
                filenodes@.len() == i,
                forall|j: int| 0 <= j < i ==> empty_filenode(filenodes@[j]),
            decreases FILENODE_TABLE_CAPACITY - i,
        {
            filenodes.push(FileNode::new());
            i += 1;
        }
        let free_block_bitmap: Vec<bool> = vec![true; header.num_data_blocks];
        let data_blocks: Vec<u8> = vec![0u8; header.num_data_blocks * BLOCK_SIZE];
        let manager = FileSystemManager { header, filenodes, free_block_bitmap, data_blocks };
        proof {
            lemma_fresh_is_consistent(manager@);
        }
        Ok(manager)
    }

    /// The header of the store.
    pub fn header(&self) -> (header: &Header)
        ensures
            *header == self@.header,
    {
        &self.header
    }

    /// The descriptor table.
    pub fn filenodes(&self) -> (filenodes: &Vec<FileNode>)
        ensures
            filenodes@ == self@.filenodes,
    {
        &self.filenodes
    }

    /// The free flag of each block.
    pub fn free_block_bitmap(&self) -> (free: &Vec<bool>)
        ensures
            free@ == self@.free,
    {
        &self.free_block_bitmap
    }

    /// The bytes of the data region.
    pub fn data_blocks(&self) -> (data: &Vec<u8>)
        ensures
            data@ == self@.data,
    {
        &self.data_blocks
    }

    /// The bitmap in its stored form.
    pub fn bitmap_bytes(&self) -> (bytes: Vec<u8>)
        ensures
            bytes@ == packed_bitmap(self@.free),
    {
        pack_bitmap(&self.free_block_bitmap)
    }

    /// The number of free blocks.
    pub fn free_block_count(&self) -> (count: usize)
        ensures
            count == free_count(self@.free),
    {
        count_free_blocks(&self.free_block_bitmap)
    }

    /// Lists the stored files, one line for each, in the order of their
    /// slots. The store is not changed.
    pub fn list_files(&self) -> (result: Result<Vec<String>, FsError>)
        ensures
            result matches Ok(lines) && lines_view(lines@) == listing(self@.filenodes),
    {
        Ok(format_listing(&self.filenodes))
    }
}

/// Opens a store from what was read of it: the header, the descriptor
/// table, and the bytes of the whole backing store.
///
/// A header of another version, size or block size is not an error: the
/// result is then a new, empty store. Otherwise the table must have as
/// many entries as the header says, and the bitmap and the data region
/// must lie inside the bytes given; the bitmap is then rebuilt from its
/// stored form.
pub fn get_filesystem_manager(header: Header, filenodes: Vec<FileNode>, image: &[u8]) -> (result:
    Result<FileSystemManager, FsError>)
    ensures
        result matches Ok(manager) ==> manager@.wf(),
        !header_is_current(header) ==> (result matches Ok(manager) && manager@.is_fresh()),
        header_is_current(header) && filenodes@.len() != header.filenode_table_size ==> result
            == Err::<FileSystemManager, FsError>(
            FsError::TableSizeMismatch {
                expected: header.filenode_table_size,
                actual: filenodes@.len() as usize,
            },
        ),
        header_is_current(header) && filenodes@.len() == header.filenode_table_size
            && !regions_fit(header, image@.len() as int) ==> result == Err::<
            FileSystemManager,
            FsError,
        >(FsError::StoreTooShort),
        header_is_current(header) && filenodes@.len() == header.filenode_table_size
            && regions_fit(header, image@.len() as int) ==> (result matches Ok(manager)
            && manager@ == loaded_view(header, filenodes@, image@)),
{
    if !header_matches_configuration(&header) {
        return FileSystemManager::init_filesystem();
    }
    if filenodes.len() != header.filenode_table_size {
        return Err(
            FsError::TableSizeMismatch {
                expected: header.filenode_table_size,
                actual: filenodes.len(),
            },
        );
    }
    let num_blocks: usize = header.num_data_blocks;
    let bitmap_size_bytes: usize = num_blocks / 8 + (if num_blocks % 8 == 0 {
        0
    } else {
        1
    });
    let bitmap_start: usize = header.free_block_bitmap_offset;
    let data_start: usize = header.data_blocks_offset;
    if bitmap_start > image.len() || bitmap_size_bytes > image.len() - bitmap_start {
        return Err(FsError::StoreTooShort);
    }
    if data_start > image.len() || num_blocks > (image.len() - data_start) / BLOCK_SIZE {
        return Err(FsError::StoreTooShort);
    }
    let disk_bitmap_bytes = slice_subrange(
        image,
        bitmap_start,
        bitmap_start + bitmap_size_bytes,
    );
    let free_block_bitmap = unpack_bitmap(disk_bitmap_bytes, num_blocks);
    let data_blocks = slice_to_vec(
        slice_subrange(image, data_start, data_start + num_blocks * BLOCK_SIZE),
    );
    Ok(FileSystemManager { header, filenodes, free_block_bitmap, data_blocks })
}

} // verus!
