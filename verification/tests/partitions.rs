use prime_finder::api::common::{
    break_down_search_range_into_partitions, calculate_partition, validate,
};
use prime_finder::model::partition::Partition;
use prime_finder::model::search_range::SearchRange;
use prime_finder::model::validation_error::ValidationErrorKind;

fn partitions(amount: u64, lower: u64, upper: u64) -> Vec<(u64, u64)> {
    break_down_search_range_into_partitions(amount, lower, upper)
        .unwrap()
        .iter()
        .map(|partition| (partition.start, partition.end))
        .collect()
}

#[test]
fn hundred_numbers_in_two_partitions() {
    assert_eq!(partitions(2, 1, 100), vec![(1, 50), (51, 100)]);
}

#[test]
fn remainder_is_absorbed_by_last_partition() {
    assert_eq!(partitions(2, 1, 101), vec![(1, 50), (51, 101)]);
}

#[test]
fn hundred_and_one_numbers_in_four_partitions() {
    assert_eq!(
        partitions(4, 1, 101),
        vec![(1, 25), (26, 50), (51, 75), (76, 101)]
    );
}

#[test]
fn single_partition_is_the_whole_range() {
    assert_eq!(partitions(1, 7, 19), vec![(7, 19)]);
    assert_eq!(partitions(1, 0, u64::MAX), vec![(0, u64::MAX)]);
}

#[test]
fn one_partition_per_number() {
    assert_eq!(partitions(3, 4, 6), vec![(4, 4), (5, 5), (6, 6)]);
}

#[test]
fn range_that_does_not_start_at_one() {
    assert_eq!(
        partitions(3, 1_000_000_100_000, 1_000_000_100_030),
        vec![
            (1_000_000_100_000, 1_000_000_100_009),
            (1_000_000_100_010, 1_000_000_100_019),
            (1_000_000_100_020, 1_000_000_100_030)
        ]
    );
}

#[test]
fn whole_u64_range_in_two_partitions() {
    assert_eq!(
        partitions(2, 0, u64::MAX),
        vec![(0, (1u64 << 63) - 1), (1u64 << 63, u64::MAX)]
    );
}

#[test]
fn range_that_ends_at_the_largest_number() {
    assert_eq!(
        partitions(3, u64::MAX - 9, u64::MAX),
        vec![
            (u64::MAX - 9, u64::MAX - 7),
            (u64::MAX - 6, u64::MAX - 4),
            (u64::MAX - 3, u64::MAX)
        ]
    );
}

#[test]
fn partitions_cover_the_range_without_overlap() {
    for (amount, lower, upper) in [(1u64, 0u64, 1u64), (2, 0, 1), (3, 10, 20), (7, 5, 104), (13, 1, 100)] {
        let all = partitions(amount, lower, upper);
        assert_eq!(all.len() as u64, amount);
        let mut next = lower;
        for (start, end) in all {
            assert_eq!(start, next);
            assert!(start <= end);
            next = end + 1;
        }
        assert_eq!(next, upper + 1);
    }
}

#[test]
fn only_the_last_partition_differs_in_size() {
    // 100 numbers in 7 partitions: step 14, remainder 2
    let all = partitions(7, 5, 104);
    for (start, end) in &all[..6] {
        assert_eq!(end - start + 1, 14);
    }
    let (start, end) = all[6];
    assert_eq!(end - start + 1, 16);
}

#[test]
fn breaking_down_twice_gives_the_same_partitions() {
    assert_eq!(
        break_down_search_range_into_partitions(4, 1, 101).unwrap(),
        break_down_search_range_into_partitions(4, 1, 101).unwrap()
    );
    assert_eq!(
        break_down_search_range_into_partitions(0, 1, 101).unwrap_err(),
        break_down_search_range_into_partitions(0, 1, 101).unwrap_err()
    );
}

#[test]
fn break_down_turns_down_what_validate_turns_down() {
    for (amount, lower, upper) in [(0u64, 1u64, 10u64), (11, 1, 10), (1, 5, 5), (2, 9, 3)] {
        let expected = validate(amount, lower, upper).unwrap();
        let error = break_down_search_range_into_partitions(amount, lower, upper).unwrap_err();
        assert_eq!(error.kind(), expected.kind());
    }
}

#[test]
fn calculate_partition_gives_each_partition() {
    assert_eq!(
        calculate_partition(1, 4, 1, 101).unwrap(),
        Partition { start: 1, end: 25 }
    );
    assert_eq!(
        calculate_partition(3, 4, 1, 101).unwrap(),
        Partition { start: 51, end: 75 }
    );
    assert_eq!(
        calculate_partition(4, 4, 1, 101).unwrap(),
        Partition { start: 76, end: 101 }
    );
}

#[test]
fn partition_number_outside_the_partitions_is_an_error() {
    assert_eq!(
        calculate_partition(5, 4, 1, 101).unwrap_err().kind(),
        &ValidationErrorKind::ThreadNumberError
    );
    assert_eq!(
        calculate_partition(0, 4, 1, 101).unwrap_err().kind(),
        &ValidationErrorKind::ThreadNumberError
    );
    // the number of the partition is checked before the request
    assert_eq!(
        calculate_partition(3, 2, 9, 3).unwrap_err().kind(),
        &ValidationErrorKind::ThreadNumberError
    );
}

#[test]
fn calculate_partition_checks_the_request() {
    assert_eq!(
        calculate_partition(2, 11, 1, 10).unwrap_err().kind(),
        &ValidationErrorKind::ThreadAmountError
    );
    assert_eq!(
        calculate_partition(1, 1, 5, 5).unwrap_err().kind(),
        &ValidationErrorKind::SearchRangeStartAndEndEqualErrror
    );
}

#[test]
fn search_range_holds_its_partitions() {
    let search_range = SearchRange::new(1, 101, 4).ok().unwrap();
    assert_eq!(
        search_range.partitions(),
        vec![
            Partition { start: 1, end: 25 },
            Partition { start: 26, end: 50 },
            Partition { start: 51, end: 75 },
            Partition { start: 76, end: 101 }
        ]
    );
}

#[test]
fn search_range_is_validated() {
    assert_eq!(
        SearchRange::new(1, 101, 0).err().unwrap().kind(),
        &ValidationErrorKind::ZeroThreadsError
    );
    assert_eq!(
        SearchRange::new(1, 3, 4).err().unwrap().kind(),
        &ValidationErrorKind::ThreadAmountError
    );
    assert_eq!(
        SearchRange::new(5, 5, 1).err().unwrap().kind(),
        &ValidationErrorKind::SearchRangeStartAndEndEqualErrror
    );
}
