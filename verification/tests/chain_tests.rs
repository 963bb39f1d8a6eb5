use myfs::blocks::{append_payload, read_next_block, write_block, END_OF_CHAIN};
use myfs::chain::{
    collect_chain, count_blocks_needed, read_chain, release_blocks, write_chain,
};
use myfs::errors::{CorruptChain, WalkEnd};

fn sample(len: usize) -> Vec<u8> {
    (0..len).map(|i| (i * 31 % 251) as u8).collect()
}

#[test]
fn end_of_chain_is_all_ones() {
    assert_eq!(END_OF_CHAIN, u64::MAX);
    assert_eq!(END_OF_CHAIN.to_le_bytes(), [0xffu8; 8]);
}

#[test]
fn blocks_needed_rounds_up() {
    assert_eq!(count_blocks_needed(0), 0);
    assert_eq!(count_blocks_needed(1), 1);
    assert_eq!(count_blocks_needed(4088), 1);
    assert_eq!(count_blocks_needed(4089), 2);
    assert_eq!(count_blocks_needed(10000), 3);
    assert_eq!(count_blocks_needed(248 * 4088), 248);
    assert_eq!(count_blocks_needed(248 * 4088 + 1), 249);
}

#[test]
fn write_block_lays_out_payload_padding_and_pointer() {
    let mut data = vec![0xaau8; 3 * 4096];
    write_block(&mut data, 1, &[1, 2, 3], 0x0102_0304_0506_0708);
    assert_eq!(&data[..4096], &vec![0xaau8; 4096][..]);
    assert_eq!(&data[4096..4099], &[1u8, 2, 3][..]);
    assert_eq!(&data[4099..4096 + 4088], &vec![0u8; 4085][..]);
    assert_eq!(&data[4096 + 4088..8192], &[8u8, 7, 6, 5, 4, 3, 2, 1][..]);
    assert_eq!(&data[8192..], &vec![0xaau8; 4096][..]);
    assert_eq!(read_next_block(&data, 1), Some(0x0102_0304_0506_0708));
}

#[test]
fn read_next_block_knows_the_end_marker() {
    let mut data = vec![0u8; 2 * 4096];
    write_block(&mut data, 0, &[9], END_OF_CHAIN);
    assert_eq!(read_next_block(&data, 0), None);
    assert_eq!(read_next_block(&data, 1), Some(0));
}

#[test]
fn append_payload_copies_the_first_bytes() {
    let mut data = vec![0u8; 2 * 4096];
    write_block(&mut data, 1, &[5, 6, 7, 8], END_OF_CHAIN);
    let mut out = vec![1u8];
    append_payload(&data, 1, 3, &mut out);
    assert_eq!(out, vec![1u8, 5, 6, 7]);
    append_payload(&data, 1, 0, &mut out);
    assert_eq!(out, vec![1u8, 5, 6, 7]);
}

#[test]
fn write_chain_links_blocks_in_order() {
    let mut data = vec![0u8; 6 * 4096];
    let mut free = vec![true; 6];
    let content = sample(10000);
    write_chain(&mut data, &mut free, &vec![1, 3, 4], &content);
    assert_eq!(free, vec![true, false, true, false, false, true]);
    assert_eq!(read_next_block(&data, 1), Some(3));
    assert_eq!(read_next_block(&data, 3), Some(4));
    assert_eq!(read_next_block(&data, 4), None);
    assert_eq!(&data[4096..4096 + 4088], &content[..4088]);
    assert_eq!(&data[3 * 4096..3 * 4096 + 4088], &content[4088..8176]);
    assert_eq!(&data[4 * 4096..4 * 4096 + 1824], &content[8176..]);
    assert_eq!(&data[4 * 4096 + 1824..4 * 4096 + 4088], &vec![0u8; 2264][..]);
    assert_eq!(&data[..4096], &vec![0u8; 4096][..]);
    assert_eq!(read_chain(&data, 6, Some(1), 10000), Ok(content));
}

#[test]
fn read_chain_stops_at_a_block_outside_the_store() {
    let mut data = vec![0u8; 2 * 4096];
    write_block(&mut data, 0, &sample(4088), 7);
    assert_eq!(
        read_chain(&data, 2, Some(0), 5000),
        Err(CorruptChain::BlockOutOfRange { index: 7 })
    );
    assert_eq!(
        read_chain(&data, 2, Some(2), 1),
        Err(CorruptChain::BlockOutOfRange { index: 2 })
    );
}

#[test]
fn read_chain_reports_bytes_still_to_come() {
    let mut data = vec![0u8; 2 * 4096];
    write_block(&mut data, 0, &sample(4088), END_OF_CHAIN);
    assert_eq!(
        read_chain(&data, 2, Some(0), 5000),
        Err(CorruptChain::Incomplete { remaining: 912 })
    );
    assert_eq!(read_chain(&data, 2, None, 3), Err(CorruptChain::Incomplete { remaining: 3 }));
}

#[test]
fn read_chain_of_no_bytes_reads_nothing() {
    let data = vec![0u8; 4096];
    assert_eq!(read_chain(&data, 1, None, 0), Ok(Vec::new()));
    assert_eq!(read_chain(&data, 1, Some(99), 0), Ok(Vec::new()));
}

#[test]
fn read_chain_does_not_follow_the_pointer_after_the_last_byte() {
    let mut data = vec![0u8; 2 * 4096];
    let payload = sample(4088);
    write_block(&mut data, 1, &payload, 55);
    assert_eq!(read_chain(&data, 2, Some(1), 4088), Ok(payload));
}

#[test]
fn collect_chain_follows_pointers_to_the_end() {
    let mut data = vec![0u8; 5 * 4096];
    write_block(&mut data, 4, &[1], 2);
    write_block(&mut data, 2, &[1], 0);
    write_block(&mut data, 0, &[1], END_OF_CHAIN);
    assert_eq!(collect_chain(&data, 5, Some(4)), (vec![4, 2, 0], WalkEnd::EndOfChain));
    assert_eq!(collect_chain(&data, 5, None), (Vec::new(), WalkEnd::EndOfChain));
}

#[test]
fn collect_chain_keeps_what_it_found_before_a_bad_pointer() {
    let mut data = vec![0u8; 3 * 4096];
    write_block(&mut data, 0, &[1], 1);
    write_block(&mut data, 1, &[1], 3);
    assert_eq!(
        collect_chain(&data, 3, Some(0)),
        (vec![0, 1], WalkEnd::BlockOutOfRange { index: 3 })
    );
    assert_eq!(
        collect_chain(&data, 3, Some(8)),
        (Vec::new(), WalkEnd::BlockOutOfRange { index: 8 })
    );
}

#[test]
fn collect_chain_cuts_a_walk_that_goes_in_circles() {
    let mut data = vec![0u8; 3 * 4096];
    write_block(&mut data, 0, &[1], 1);
    write_block(&mut data, 1, &[1], 0);
    assert_eq!(collect_chain(&data, 3, Some(0)), (vec![0, 1, 0], WalkEnd::TooLong));
}

#[test]
fn release_blocks_frees_the_listed_blocks() {
    let mut free = vec![false, false, true, false];
    release_blocks(&mut free, &vec![3, 0]);
    assert_eq!(free, vec![true, false, true, true]);
    release_blocks(&mut free, &vec![9]);
    assert_eq!(free, vec![true, false, true, true]);
}
