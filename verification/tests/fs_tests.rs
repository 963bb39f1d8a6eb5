use myfs::errors::{CorruptChain, FsError, ResourceExhausted, ValidationError, WalkEnd};
use myfs::fs_ops::{get_filesystem_manager, header_matches_configuration, FileSystemManager};
use myfs::fs_structs::{FileNode, Header, FILESYSTEM_SIZE};

fn sample(len: usize, seed: usize) -> Vec<u8> {
    (0..len).map(|i| ((i * 31 + seed * 7) % 251) as u8).collect()
}

fn fresh() -> FileSystemManager {
    match FileSystemManager::init_filesystem() {
        Ok(fs) => fs,
        Err(e) => panic!("init failed: {:?}", e),
    }
}

fn image_of(fs: &FileSystemManager) -> Vec<u8> {
    let header = fs.header();
    let mut image = vec![0u8; header.total_size];
    let bitmap = fs.bitmap_bytes();
    let start = header.free_block_bitmap_offset;
    image[start..start + bitmap.len()].copy_from_slice(&bitmap);
    let start = header.data_blocks_offset;
    image[start..start + fs.data_blocks().len()].copy_from_slice(fs.data_blocks());
    image
}

fn reopen(fs: &FileSystemManager) -> FileSystemManager {
    match get_filesystem_manager(
        *fs.header(),
        fs.filenodes().clone(),
        &image_of(fs),
    ) {
        Ok(fs) => fs,
        Err(e) => panic!("open failed: {:?}", e),
    }
}

fn reopen_with_data(fs: &FileSystemManager, data: &[u8]) -> FileSystemManager {
    let mut image = image_of(fs);
    let start = fs.header().data_blocks_offset;
    image[start..start + data.len()].copy_from_slice(data);
    match get_filesystem_manager(*fs.header(), fs.filenodes().clone(), &image)
    {
        Ok(fs) => fs,
        Err(e) => panic!("open failed: {:?}", e),
    }
}

#[test]
fn init_gives_an_empty_store() {
    let fs = fresh();
    assert_eq!(
        *fs.header(),
        Header {
            version: 1,
            total_size: 1048576,
            block_size: 4096,
            filenode_table_offset: 64,
            filenode_table_size: 100,
            free_block_bitmap_offset: 28872,
            data_blocks_offset: 28903,
            num_data_blocks: 248,
        }
    );
    assert_eq!(fs.filenodes().len(), 100);
    assert!(fs.filenodes().iter().all(|n| !n.is_used && n.size == 0 && n.alias_len == 0));
    assert!(fs.filenodes().iter().all(|n| n.first_block_index.is_none()));
    assert!(fs.filenodes().iter().all(|n| n.alias.iter().all(|b| *b == 0)));
    assert_eq!(fs.free_block_bitmap(), &vec![true; 248]);
    assert_eq!(fs.free_block_count(), 248);
    assert_eq!(fs.data_blocks(), &vec![0u8; 248 * 4096]);
    assert_eq!(fs.bitmap_bytes(), vec![0u8; 31]);
    assert_eq!(fs.list_files(), Ok(Vec::new()));
}

#[test]
fn upload_download_list_delete() {
    let mut fs = fresh();
    let content = sample(10000, 1);
    assert_eq!(fs.upload_file(&content, "a"), Ok(()));
    assert_eq!(fs.download_file("a"), Ok(content.clone()));
    assert_eq!(fs.list_files(), Ok(vec!["a (10000 bytes)".to_string()]));
    assert_eq!(fs.free_block_count(), 245);
    assert_eq!(fs.delete_file("a"), Ok(WalkEnd::EndOfChain));
    assert_eq!(fs.list_files(), Ok(Vec::<String>::new()));
    assert_eq!(fs.free_block_count(), 248);
}

#[test]
fn upload_fills_the_first_slot_and_the_first_blocks() {
    let mut fs = fresh();
    let content = sample(10000, 2);
    assert_eq!(fs.upload_file(&content, "notes!"), Ok(()));
    let node = fs.filenodes()[0];
    assert!(node.is_used);
    assert_eq!(node.alias_len, 6);
    assert_eq!(&node.alias[..6], b"notes!");
    assert!(node.alias[6..].iter().all(|b| *b == 0));
    assert_eq!(node.size, 10000);
    assert_eq!(node.first_block_index, Some(0));
    assert!(!fs.filenodes()[1].is_used);
    let mut expected = vec![true; 248];
    expected[0] = false;
    expected[1] = false;
    expected[2] = false;
    assert_eq!(fs.free_block_bitmap(), &expected);
    assert_eq!(fs.bitmap_bytes()[0], 0b0000_0111);
    let data = fs.data_blocks();
    assert_eq!(&data[..4088], &content[..4088]);
    assert_eq!(&data[4088..4096], &1u64.to_le_bytes()[..]);
    assert_eq!(&data[4096..4096 + 4088], &content[4088..8176]);
    assert_eq!(&data[4096 + 4088..8192], &2u64.to_le_bytes()[..]);
    assert_eq!(&data[8192..8192 + 1824], &content[8176..]);
    assert!(data[8192 + 1824..8192 + 4088].iter().all(|b| *b == 0));
    assert_eq!(&data[8192 + 4088..3 * 4096], &[0xffu8; 8][..]);
    assert!(data[3 * 4096..].iter().all(|b| *b == 0));
}

#[test]
fn round_trip_at_block_boundaries() {
    for (i, len) in [1usize, 2, 4087, 4088, 4089, 8176, 8177, 100_000].iter().enumerate() {
        let mut fs = fresh();
        let content = sample(*len, i);
        assert_eq!(fs.upload_file(&content, "x"), Ok(()));
        assert_eq!(fs.download_file("x"), Ok(content));
        assert_eq!(fs.free_block_count(), 248 - (len + 4087) / 4088);
    }
}

#[test]
fn round_trip_of_the_whole_capacity() {
    let mut fs = fresh();
    let content = sample(248 * 4088, 3);
    assert_eq!(fs.upload_file(&content, "all"), Ok(()));
    assert_eq!(fs.free_block_count(), 0);
    assert_eq!(fs.download_file("all"), Ok(content));
    assert_eq!(fs.bitmap_bytes(), vec![0xffu8; 31]);
}

#[test]
fn files_keep_their_own_content() {
    let mut fs = fresh();
    let one = sample(5000, 1);
    let two = sample(9000, 2);
    let three = sample(300, 3);
    assert_eq!(fs.upload_file(&one, "one"), Ok(()));
    assert_eq!(fs.upload_file(&two, "two"), Ok(()));
    assert_eq!(fs.upload_file(&three, "three"), Ok(()));
    assert_eq!(fs.download_file("one"), Ok(one));
    assert_eq!(fs.download_file("two"), Ok(two.clone()));
    assert_eq!(fs.download_file("three"), Ok(three.clone()));
    assert_eq!(
        fs.list_files(),
        Ok(vec![
            "one (5000 bytes)".to_string(),
            "two (9000 bytes)".to_string(),
            "three (300 bytes)".to_string(),
        ])
    );
    assert_eq!(fs.delete_file("one"), Ok(WalkEnd::EndOfChain));
    assert_eq!(fs.download_file("two"), Ok(two));
    assert_eq!(fs.download_file("three"), Ok(three));
}

#[test]
fn list_twice_gives_the_same_lines() {
    let mut fs = fresh();
    assert_eq!(fs.upload_file(&sample(10, 0), "b"), Ok(()));
    assert_eq!(fs.upload_file(&sample(20, 0), "a"), Ok(()));
    let first = fs.list_files();
    let second = fs.list_files();
    assert_eq!(first, second);
    assert_eq!(first, Ok(vec!["b (10 bytes)".to_string(), "a (20 bytes)".to_string()]));
}

#[test]
fn alias_in_use_is_refused_and_nothing_changes() {
    let mut fs = fresh();
    let content = sample(6000, 4);
    assert_eq!(fs.upload_file(&content, "a"), Ok(()));
    let nodes_before: Vec<FileNode> = fs.filenodes().clone();
    let bitmap_before = fs.free_block_bitmap().clone();
    let data_before = fs.data_blocks().clone();
    assert_eq!(
        fs.upload_file(&sample(100, 5), "a"),
        Err(FsError::Validation(ValidationError::AliasInUse))
    );
    assert_eq!(fs.free_block_bitmap(), &bitmap_before);
    assert_eq!(fs.data_blocks(), &data_before);
    assert_eq!(fs.filenodes().len(), nodes_before.len());
    for (now, before) in fs.filenodes().iter().zip(nodes_before.iter()) {
        assert_eq!(now.is_used, before.is_used);
        assert_eq!(now.size, before.size);
        assert_eq!(now.alias, before.alias);
        assert_eq!(now.first_block_index, before.first_block_index);
    }
    assert_eq!(fs.download_file("a"), Ok(content));
}

#[test]
fn alias_length_is_checked_first() {
    let mut fs = fresh();
    assert_eq!(
        fs.upload_file(&[1, 2, 3], ""),
        Err(FsError::Validation(ValidationError::AliasLength))
    );
    let long = "x".repeat(256);
    assert_eq!(
        fs.upload_file(&[], &long),
        Err(FsError::Validation(ValidationError::AliasLength))
    );
    assert_eq!(fs.validate_alias(""), Err(FsError::Validation(ValidationError::AliasLength)));
    assert_eq!(fs.validate_alias(&long), Err(FsError::Validation(ValidationError::AliasLength)));
    assert_eq!(fs.free_block_count(), 248);
}

#[test]
fn alias_of_the_longest_length_is_accepted() {
    let mut fs = fresh();
    let alias = "y".repeat(255);
    assert_eq!(fs.validate_alias(&alias), Ok(()));
    assert_eq!(fs.upload_file(&[7, 8], &alias), Ok(()));
    assert_eq!(fs.filenodes()[0].alias_len, 255);
    assert_eq!(fs.download_file(&alias), Ok(vec![7, 8]));
    assert_eq!(fs.validate_alias(&alias), Err(FsError::Validation(ValidationError::AliasInUse)));
}

#[test]
fn alias_length_counts_bytes() {
    let mut fs = fresh();
    let alias = "é".repeat(128);
    assert_eq!(
        fs.upload_file(&[1], &alias),
        Err(FsError::Validation(ValidationError::AliasLength))
    );
    let alias = "é".repeat(127);
    assert_eq!(fs.upload_file(&[1], &alias), Ok(()));
    assert_eq!(fs.filenodes()[0].alias_len, 254);
    assert_eq!(fs.list_files(), Ok(vec![format!("{} (1 bytes)", alias)]));
}

#[test]
fn empty_content_is_refused() {
    let mut fs = fresh();
    assert_eq!(
        fs.upload_file(&[], "a"),
        Err(FsError::Validation(ValidationError::EmptyContent))
    );
    assert_eq!(fs.list_files(), Ok(Vec::new()));
}

#[test]
fn alias_in_use_is_reported_before_empty_content() {
    let mut fs = fresh();
    assert_eq!(fs.upload_file(&[1], "a"), Ok(()));
    assert_eq!(fs.upload_file(&[], "a"), Err(FsError::Validation(ValidationError::AliasInUse)));
}

#[test]
fn content_larger_than_the_free_blocks_is_refused() {
    let mut fs = fresh();
    let content = sample(248 * 4088 + 1, 6);
    assert_eq!(
        fs.upload_file(&content, "big"),
        Err(FsError::ResourceExhausted(ResourceExhausted::Blocks { needed: 249, available: 248 }))
    );
    assert_eq!(fs.free_block_count(), 248);
    assert_eq!(fs.free_block_bitmap(), &vec![true; 248]);
    assert_eq!(fs.data_blocks(), &vec![0u8; 248 * 4096]);
    assert_eq!(fs.list_files(), Ok(Vec::new()));
}

#[test]
fn exhaustion_counts_the_blocks_still_free() {
    let mut fs = fresh();
    assert_eq!(fs.upload_file(&sample(246 * 4088, 0), "most"), Ok(()));
    assert_eq!(fs.free_block_count(), 2);
    assert_eq!(
        fs.upload_file(&sample(2 * 4088 + 1, 0), "more"),
        Err(FsError::ResourceExhausted(ResourceExhausted::Blocks { needed: 3, available: 2 }))
    );
    assert_eq!(fs.free_block_count(), 2);
    assert_eq!(fs.upload_file(&sample(2 * 4088, 0), "rest"), Ok(()));
    assert_eq!(fs.free_block_count(), 0);
    assert_eq!(
        fs.upload_file(&[1], "one"),
        Err(FsError::ResourceExhausted(ResourceExhausted::Blocks { needed: 1, available: 0 }))
    );
}

#[test]
fn a_full_table_refuses_another_file() {
    let mut fs = fresh();
    for i in 0..100 {
        assert_eq!(fs.upload_file(&[i as u8], &format!("f{}", i)), Ok(()));
    }
    assert_eq!(
        fs.upload_file(&[1], "one-more"),
        Err(FsError::ResourceExhausted(ResourceExhausted::Filenodes))
    );
    assert_eq!(fs.free_block_count(), 148);
    assert_eq!(fs.delete_file("f40"), Ok(WalkEnd::EndOfChain));
    assert_eq!(fs.upload_file(&[1], "one-more"), Ok(()));
    assert_eq!(&fs.filenodes()[40].alias[..8], b"one-more");
    assert_eq!(fs.filenodes()[40].first_block_index, Some(40));
}

#[test]
fn too_few_blocks_is_reported_before_a_full_table() {
    let mut fs = fresh();
    for i in 0..100 {
        assert_eq!(fs.upload_file(&[i as u8], &format!("f{}", i)), Ok(()));
    }
    assert_eq!(
        fs.upload_file(&sample(148 * 4088 + 1, 0), "big"),
        Err(FsError::ResourceExhausted(ResourceExhausted::Blocks { needed: 149, available: 148 }))
    );
}

#[test]
fn download_of_an_unknown_alias_fails() {
    let mut fs = fresh();
    assert_eq!(fs.download_file("nope"), Err(FsError::NotFound));
    assert_eq!(fs.upload_file(&[1], "a"), Ok(()));
    assert_eq!(fs.download_file("A"), Err(FsError::NotFound));
    assert_eq!(fs.download_file(""), Err(FsError::NotFound));
}

#[test]
fn delete_of_an_unknown_alias_fails_and_changes_nothing() {
    let mut fs = fresh();
    assert_eq!(fs.upload_file(&sample(5000, 0), "a"), Ok(()));
    assert_eq!(fs.delete_file("b"), Err(FsError::NotFound));
    assert_eq!(fs.free_block_count(), 246);
    assert_eq!(fs.list_files(), Ok(vec!["a (5000 bytes)".to_string()]));
}

#[test]
fn delete_frees_the_chain_and_clears_the_slot() {
    let mut fs = fresh();
    assert_eq!(fs.upload_file(&sample(5000, 0), "first"), Ok(()));
    assert_eq!(fs.upload_file(&sample(10000, 1), "second"), Ok(()));
    assert_eq!(fs.upload_file(&sample(100, 2), "third"), Ok(()));
    assert_eq!(fs.free_block_count(), 242);
    let data_before = fs.data_blocks().clone();
    assert_eq!(fs.delete_file("second"), Ok(WalkEnd::EndOfChain));
    assert_eq!(fs.free_block_count(), 245);
    let mut expected = vec![true; 248];
    expected[0] = false;
    expected[1] = false;
    expected[5] = false;
    assert_eq!(fs.free_block_bitmap(), &expected);
    let node = fs.filenodes()[1];
    assert!(!node.is_used);
    assert_eq!(node.size, 0);
    assert_eq!(node.alias_len, 0);
    assert_eq!(node.first_block_index, None);
    assert!(node.alias.iter().all(|b| *b == 0));
    assert_eq!(fs.data_blocks(), &data_before);
    assert_eq!(fs.download_file("second"), Err(FsError::NotFound));
}

#[test]
fn freed_slot_and_blocks_are_used_again() {
    let mut fs = fresh();
    assert_eq!(fs.upload_file(&sample(5000, 0), "first"), Ok(()));
    assert_eq!(fs.upload_file(&sample(10000, 1), "second"), Ok(()));
    assert_eq!(fs.upload_file(&sample(100, 2), "third"), Ok(()));
    assert_eq!(fs.delete_file("second"), Ok(WalkEnd::EndOfChain));
    let content = sample(4 * 4088, 9);
    assert_eq!(fs.upload_file(&content, "fourth"), Ok(()));
    let node = fs.filenodes()[1];
    assert!(node.is_used);
    assert_eq!(&node.alias[..6], b"fourth");
    assert_eq!(node.first_block_index, Some(2));
    let mut expected = vec![true; 248];
    for b in 0..7 {
        expected[b] = false;
    }
    assert_eq!(fs.free_block_bitmap(), &expected);
    assert_eq!(fs.download_file("fourth"), Ok(content));
    assert_eq!(fs.download_file("first"), Ok(sample(5000, 0)));
    assert_eq!(fs.download_file("third"), Ok(sample(100, 2)));
    assert_eq!(
        fs.list_files(),
        Ok(vec![
            "first (5000 bytes)".to_string(),
            "fourth (16352 bytes)".to_string(),
            "third (100 bytes)".to_string(),
        ])
    );
}

#[test]
fn same_alias_can_be_stored_again_after_delete() {
    let mut fs = fresh();
    assert_eq!(fs.upload_file(&[1, 2, 3], "a"), Ok(()));
    assert_eq!(fs.delete_file("a"), Ok(WalkEnd::EndOfChain));
    assert_eq!(fs.upload_file(&[4, 5], "a"), Ok(()));
    assert_eq!(fs.download_file("a"), Ok(vec![4, 5]));
}

#[test]
fn reopened_fresh_store_is_identical_and_empty() {
    let fs = fresh();
    let again = reopen(&fs);
    assert_eq!(again.header(), fs.header());
    assert_eq!(again.list_files(), Ok(Vec::new()));
    assert_eq!(again.free_block_bitmap(), fs.free_block_bitmap());
    assert_eq!(again.data_blocks(), fs.data_blocks());
    assert_eq!(again.filenodes().len(), 100);
}

#[test]
fn reopened_store_keeps_its_files() {
    let mut fs = fresh();
    let one = sample(12345, 1);
    let two = sample(77, 2);
    assert_eq!(fs.upload_file(&one, "one"), Ok(()));
    assert_eq!(fs.upload_file(&two, "two"), Ok(()));
    assert_eq!(fs.delete_file("one"), Ok(WalkEnd::EndOfChain));
    assert_eq!(fs.upload_file(&one, "uno"), Ok(()));
    let again = reopen(&fs);
    assert_eq!(again.header(), fs.header());
    assert_eq!(again.free_block_bitmap(), fs.free_block_bitmap());
    assert_eq!(again.data_blocks(), fs.data_blocks());
    assert_eq!(again.list_files(), fs.list_files());
    assert_eq!(again.download_file("uno"), Ok(one));
    assert_eq!(again.download_file("two"), Ok(two));
    assert_eq!(again.free_block_count(), 248 - 4 - 1);
}

#[test]
fn header_of_another_geometry_gives_a_new_store() {
    let mut fs = fresh();
    assert_eq!(fs.upload_file(&sample(5000, 0), "a"), Ok(()));
    let image = image_of(&fs);
    for changed in 0..3 {
        let mut header = *fs.header();
        match changed {
            0 => header.version = 2,
            1 => header.total_size = FILESYSTEM_SIZE + 1,
            _ => header.block_size = 512,
        }
        assert!(!header_matches_configuration(&header));
        let opened =
            get_filesystem_manager(header, fs.filenodes().clone(), &image);
        let opened = opened.ok().unwrap();
        assert_eq!(opened.header(), fresh().header());
        assert_eq!(opened.list_files(), Ok(Vec::new()));
        assert_eq!(opened.free_block_count(), 248);
        assert_eq!(opened.data_blocks(), &vec![0u8; 248 * 4096]);
    }
    assert!(header_matches_configuration(fs.header()));
}

#[test]
fn mismatched_header_wins_over_a_short_table() {
    let fs = fresh();
    let mut header = *fs.header();
    header.version = 0;
    let opened = get_filesystem_manager(header, Vec::new(), &[]);
    assert_eq!(opened.ok().unwrap().filenodes().len(), 100);
}

#[test]
fn table_of_the_wrong_size_is_an_error() {
    let fs = fresh();
    let image = image_of(&fs);
    let mut nodes = fs.filenodes().clone();
    nodes.pop();
    let opened = get_filesystem_manager(*fs.header(), nodes, &image);
    assert_eq!(
        opened.err(),
        Some(FsError::TableSizeMismatch { expected: 100, actual: 99 })
    );
}

#[test]
fn store_shorter_than_its_regions_is_an_error() {
    let fs = fresh();
    let image = image_of(&fs);
    let nodes = fs.filenodes().clone();
    let short = &image[..28903 + 248 * 4096 - 1];
    let opened = get_filesystem_manager(*fs.header(), nodes.clone(), short);
    assert_eq!(opened.err(), Some(FsError::StoreTooShort));
    let opened =
        get_filesystem_manager(*fs.header(), nodes.clone(), &image[..28880]);
    assert_eq!(opened.err(), Some(FsError::StoreTooShort));
    let exact = &image[..28903 + 248 * 4096];
    assert!(get_filesystem_manager(*fs.header(), nodes.clone(), exact).is_ok());
    let mut header = *fs.header();
    header.num_data_blocks = usize::MAX;
    let opened = get_filesystem_manager(header, nodes, &image);
    assert_eq!(opened.err(), Some(FsError::StoreTooShort));
}

#[test]
fn open_reads_the_bitmap_from_its_stored_form() {
    let fs = fresh();
    let mut image = image_of(&fs);
    image[28872] = 0b1000_0001;
    image[28872 + 30] = 0b1000_0000;
    let opened = get_filesystem_manager(
        *fs.header(),
        fs.filenodes().clone(),
        &image,
    )
    .ok()
    .unwrap();
    let mut expected = vec![true; 248];
    expected[0] = false;
    expected[7] = false;
    expected[247] = false;
    assert_eq!(opened.free_block_bitmap(), &expected);
    assert_eq!(opened.free_block_count(), 245);
    assert_eq!(opened.bitmap_bytes()[0], 0b1000_0001);
}

#[test]
fn download_fails_on_a_pointer_outside_the_store() {
    let mut fs = fresh();
    assert_eq!(fs.upload_file(&sample(10000, 0), "a"), Ok(()));
    let mut data = fs.data_blocks().clone();
    data[4088..4096].copy_from_slice(&9999u64.to_le_bytes());
    let broken = reopen_with_data(&fs, &data);
    assert_eq!(
        broken.download_file("a"),
        Err(FsError::CorruptChain(CorruptChain::BlockOutOfRange { index: 9999 }))
    );
    data[4088..4096].copy_from_slice(&248u64.to_le_bytes());
    let broken = reopen_with_data(&fs, &data);
    assert_eq!(
        broken.download_file("a"),
        Err(FsError::CorruptChain(CorruptChain::BlockOutOfRange { index: 248 }))
    );
}

#[test]
fn download_fails_when_the_chain_ends_early() {
    let mut fs = fresh();
    assert_eq!(fs.upload_file(&sample(10000, 0), "a"), Ok(()));
    let mut data = fs.data_blocks().clone();
    data[4096 + 4088..8192].copy_from_slice(&[0xffu8; 8]);
    let broken = reopen_with_data(&fs, &data);
    assert_eq!(
        broken.download_file("a"),
        Err(FsError::CorruptChain(CorruptChain::Incomplete { remaining: 1824 }))
    );
}

#[test]
fn delete_frees_what_it_finds_before_a_bad_pointer() {
    let mut fs = fresh();
    assert_eq!(fs.upload_file(&sample(10000, 0), "a"), Ok(()));
    assert_eq!(fs.upload_file(&sample(10, 0), "b"), Ok(()));
    let mut data = fs.data_blocks().clone();
    data[4096 + 4088..8192].copy_from_slice(&5000u64.to_le_bytes());
    let mut broken = reopen_with_data(&fs, &data);
    assert_eq!(broken.delete_file("a"), Ok(WalkEnd::BlockOutOfRange { index: 5000 }));
    let mut expected = vec![true; 248];
    expected[2] = false;
    expected[3] = false;
    assert_eq!(broken.free_block_bitmap(), &expected);
    assert!(!broken.filenodes()[0].is_used);
    assert_eq!(broken.list_files(), Ok(vec!["b (10 bytes)".to_string()]));
    assert_eq!(broken.download_file("b"), Ok(sample(10, 0)));
}

#[test]
fn delete_ends_on_a_chain_that_goes_in_circles() {
    let mut fs = fresh();
    assert_eq!(fs.upload_file(&sample(10000, 0), "a"), Ok(()));
    let mut data = fs.data_blocks().clone();
    data[2 * 4096 + 4088..3 * 4096].copy_from_slice(&0u64.to_le_bytes());
    let mut broken = reopen_with_data(&fs, &data);
    assert_eq!(broken.delete_file("a"), Ok(WalkEnd::TooLong));
    assert_eq!(broken.free_block_bitmap(), &vec![true; 248]);
    assert_eq!(broken.list_files(), Ok(Vec::new()));
}
