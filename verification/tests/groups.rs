use flight_follower::group::{group_range, group_range_fits};

#[test]
fn test_group_range_even_split() {
    // 8 buckets across 2 requests => [0,4), [4,8)
    assert_eq!(group_range(8, 0, 2), (0, 4));
    assert_eq!(group_range(8, 1, 2), (4, 8));
}

#[test]
fn test_group_range_last_absorbs_remainder() {
    // 8 buckets across 3 requests (m = 2): [0,2), [2,4), [4,8)
    assert_eq!(group_range(8, 0, 3), (0, 2));
    assert_eq!(group_range(8, 1, 3), (2, 4));
    assert_eq!(group_range(8, 2, 3), (4, 8));
}

#[test]
fn test_group_range_covers_all_buckets_exactly_once() {
    // For every bucket count b and request count, the groups must partition [0, b):
    // no gaps, no overlaps.
    for b in 1..=16usize {
        for count in 1..=b {
            let mut covered = vec![false; b];
            for idx in 0..count {
                let (lo, hi) = group_range(b, idx, count);
                assert!(
                    lo <= hi && hi <= b,
                    "bad range b={b} count={count} idx={idx}"
                );
                for slot in covered.iter_mut().take(hi).skip(lo) {
                    assert!(!*slot, "overlap at b={b} count={count} idx={idx}");
                    *slot = true;
                }
            }
            assert!(covered.iter().all(|&c| c), "gap at b={b} count={count}");
        }
    }
}

#[test]
fn fewer_buckets_than_requests_leave_some_groups_empty() {
    assert_eq!(group_range(2, 0, 4), (0, 1));
    assert_eq!(group_range(2, 1, 4), (1, 2));
    assert_eq!(group_range(2, 2, 4), (2, 2));
    assert_eq!(group_range(2, 3, 4), (2, 2));
}

#[test]
fn no_buckets_give_empty_groups() {
    assert_eq!(group_range(0, 0, 3), (0, 0));
    assert_eq!(group_range(0, 2, 3), (0, 0));
}

#[test]
fn a_count_of_zero_is_one_request() {
    assert_eq!(group_range(5, 0, 0), (0, 5));
    assert_eq!(group_range(5, 0, 1), (0, 5));
}

#[test]
fn an_index_past_the_requests_gets_the_tail() {
    assert_eq!(group_range(8, 3, 3), (6, 8));
    assert_eq!(group_range(8, 9, 3), (8, 8));
}

#[test]
fn groups_that_cannot_be_computed_are_told_apart() {
    assert!(group_range_fits(8, 2, 3));
    assert!(group_range_fits(usize::MAX, 2, 3));
    assert!(!group_range_fits(8, usize::MAX, 3));
    assert!(!group_range_fits(usize::MAX, 7, 3));
    assert!(group_range_fits(usize::MAX, usize::MAX - 1, usize::MAX));
}
