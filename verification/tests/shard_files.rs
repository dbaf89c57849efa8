use evm_io_tracker::shards::{
    block_in_range, check_contiguous, file_in_range, parse_shard_name, sort_shards,
};

fn name(s: &str) -> Vec<u8> {
    s.as_bytes().to_vec()
}

#[test]
fn shard_name_parses_start_and_length() {
    assert_eq!(parse_shard_name(&name("100_10.trace")), Some((100, 10)));
    assert_eq!(parse_shard_name(&name("0_1.trace")), Some((0, 1)));
    assert_eq!(
        parse_shard_name(&name("18000000_50.trace")),
        Some((18000000, 50))
    );
}

#[test]
fn shard_name_rejects_other_shapes() {
    assert_eq!(parse_shard_name(&name("abc.trace")), None);
    assert_eq!(parse_shard_name(&name("100_10.tracex")), None);
    assert_eq!(parse_shard_name(&name("100_10trace")), None);
    assert_eq!(parse_shard_name(&name("_10.trace")), None);
    assert_eq!(parse_shard_name(&name("100_.trace")), None);
    assert_eq!(parse_shard_name(&name("100-10.trace")), None);
    assert_eq!(parse_shard_name(&name("100_10_5.trace")), None);
    assert_eq!(parse_shard_name(&name("10a_10.trace")), None);
    assert_eq!(parse_shard_name(&name("")), None);
    assert_eq!(parse_shard_name(&name(".trace")), None);
}

#[test]
fn shard_name_rejects_numbers_beyond_64_bits() {
    assert_eq!(
        parse_shard_name(&name("99999999999999999999999999_1.trace")),
        None
    );
    assert_eq!(
        parse_shard_name(&name("18446744073709551615_1.trace")),
        Some((u64::MAX, 1))
    );
}

#[test]
fn adjacent_shards_combine_cleanly() {
    // Ranges [100,110) and [110,120) are contiguous.
    let shards = vec![(100, 10), (110, 10)];
    assert!(check_contiguous(&shards));
}

#[test]
fn gapped_shards_are_refused() {
    // Ranges [100,110) and [115,120) leave a gap.
    let shards = vec![(100, 10), (115, 5)];
    assert!(!check_contiguous(&shards));
}

#[test]
fn overlapping_shards_are_refused() {
    let shards = vec![(100, 10), (105, 10)];
    assert!(!check_contiguous(&shards));
}

#[test]
fn single_or_empty_shard_lists_are_contiguous() {
    assert!(check_contiguous(&vec![]));
    assert!(check_contiguous(&vec![(42, 8)]));
}

#[test]
fn shards_sort_by_starting_block() {
    let shards = vec![(300, 10, 0), (100, 10, 1), (200, 10, 2)];
    let sorted = sort_shards(&shards);
    assert_eq!(sorted, vec![(100, 10, 1), (200, 10, 2), (300, 10, 0)]);
}

#[test]
fn range_filters_match_the_combine_rules() {
    // A shard overlaps when it ends after the lower bound and starts
    // before the upper bound.
    assert!(file_in_range(100, 10, None, None));
    assert!(file_in_range(100, 10, Some(105), None));
    assert!(!file_in_range(100, 10, Some(110), None));
    assert!(file_in_range(100, 10, None, Some(101)));
    assert!(!file_in_range(100, 10, None, Some(100)));
    assert!(block_in_range(100, Some(100), Some(101)));
    assert!(!block_in_range(99, Some(100), None));
    assert!(!block_in_range(101, None, Some(101)));
}
