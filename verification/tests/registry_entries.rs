use flight_follower::entries::NANOS_PER_SEC;
use flight_follower::registry::{
    get_or_build, join_or_insert, sweep_stale, Found, Registry, SharedCell,
};
use flight_follower::status::{Code, FlightStatus};

fn secs(n: u128) -> u128 {
    n * NANOS_PER_SEC
}

fn cell<X>(found: Found<X>) -> SharedCell<X> {
    match found {
        Found::Cell(cell) => cell,
        Found::Finished(streams) => panic!("served with {streams} streams"),
    }
}

fn look(registry: &mut Registry<u32>, key: &str, now: u128) -> SharedCell<u32> {
    cell(get_or_build(registry, key.to_string(), now, 100))
}

fn join(registry: &mut Registry<u32>, key: &str, now: u128, query_timeout: u64) -> Option<u32> {
    cell(get_or_build(registry, key.to_string(), now, query_timeout))
        .get()
        .copied()
}

fn fill(registry: &mut Registry<u32>, key: &str, now: u128, value: u32) {
    look(registry, key, now).set(value).unwrap();
}

#[test]
fn requests_with_one_key_share_a_cell() {
    let mut registry = Registry::<u32>::new();
    let first = look(&mut registry, "a-1", 0);
    let second = look(&mut registry, "a-1", secs(10));
    assert!(std::sync::Arc::ptr_eq(&first, &second));
    first.set(5).unwrap();
    assert_eq!(second.get(), Some(&5));
}

#[test]
fn keys_are_told_apart() {
    let mut registry = Registry::<u32>::new();
    fill(&mut registry, "a-1", 0, 1);
    fill(&mut registry, "a-2", 0, 2);
    assert_eq!(join(&mut registry, "a-1", 0, 100), Some(1));
    assert_eq!(join(&mut registry, "a-2", 0, 100), Some(2));
    assert_eq!(join(&mut registry, "a-3", 0, 100), None);
}

#[test]
fn entries_go_after_twice_the_query_timeout() {
    let mut registry = Registry::<u32>::new();
    fill(&mut registry, "a-1", secs(7), 1);
    assert_eq!(join(&mut registry, "a-1", secs(207), 100), Some(1));
    assert_eq!(join(&mut registry, "a-1", secs(207) + 1, 100), None);
}

#[test]
fn a_later_request_does_not_make_an_entry_younger() {
    let mut registry = Registry::<u32>::new();
    fill(&mut registry, "a-1", 0, 1);
    assert_eq!(join(&mut registry, "a-1", secs(199), 100), Some(1));
    assert_eq!(join(&mut registry, "a-1", secs(201), 100), None);
}

#[test]
fn entries_go_after_twice_a_short_query_timeout_too() {
    let mut registry = Registry::<u32>::new();
    fill(&mut registry, "a-1", 0, 1);
    assert_eq!(join(&mut registry, "a-1", secs(20), 10), Some(1));
    assert_eq!(join(&mut registry, "a-1", secs(20) + 1, 10), None);
    fill(&mut registry, "b-1", secs(100), 2);
    let evicted = sweep_stale(&mut registry, secs(130), 10);
    assert_eq!(evicted.len(), 2);
    assert_eq!(join(&mut registry, "b-1", secs(100), 10), None);
}

#[test]
fn without_a_query_timeout_entries_go_at_once() {
    let mut registry = Registry::<u32>::new();
    fill(&mut registry, "a-1", 5, 1);
    assert_eq!(join(&mut registry, "a-1", 5, 0), Some(1));
    assert_eq!(join(&mut registry, "a-1", 6, 0), None);
}

#[test]
fn a_huge_query_timeout_saturates() {
    let mut registry = Registry::<u32>::new();
    fill(&mut registry, "a-1", 0, 1);
    let limit = secs(u64::MAX as u128);
    assert_eq!(join(&mut registry, "a-1", limit, u64::MAX), Some(1));
    assert_eq!(join(&mut registry, "a-1", limit + 1, u64::MAX), None);
}

#[test]
fn a_clock_before_the_entry_keeps_it() {
    let mut registry = Registry::<u32>::new();
    fill(&mut registry, "a-1", secs(500), 1);
    assert_eq!(join(&mut registry, "a-1", 0, 1), Some(1));
}

#[test]
fn a_request_evicts_the_stale_entries_of_others() {
    let mut registry = Registry::<u32>::new();
    fill(&mut registry, "old", 0, 1);
    fill(&mut registry, "young", secs(150), 2);
    join(&mut registry, "new", secs(201), 100);
    assert_eq!(join(&mut registry, "young", secs(150), 100), Some(2));
    assert_eq!(join(&mut registry, "old", 0, 100), None);
}

#[test]
fn sweeping_keeps_what_is_fresh() {
    let mut registry = Registry::<u32>::new();
    for n in 0..6u32 {
        fill(&mut registry, &format!("k-{n}"), secs(n as u128 * 10), n);
    }
    let mut evicted = sweep_stale(&mut registry, secs(90), 30);
    evicted.sort();
    assert_eq!(evicted, vec!["k-0", "k-1", "k-2"]);
    assert!(sweep_stale(&mut registry, secs(90), 30).is_empty());
    for n in 0..6u32 {
        let kept = join(&mut registry, &format!("k-{n}"), 0, 1000);
        assert_eq!(kept, if n > 2 { Some(n) } else { None });
    }
}

#[test]
fn a_failed_build_does_not_stay() {
    let mut registry = Registry::<u32>::new();
    let failed = look(&mut registry, "a-1", 0);
    let outcome: Result<u32, FlightStatus> =
        registry.build_finished(&"a-1".to_string(), Err(FlightStatus::internal("no plan".to_string())));
    let status = outcome.unwrap_err();
    assert_eq!(status.code, Code::Internal);
    assert_eq!(status.message, "no plan");
    let retried = look(&mut registry, "a-1", 1);
    assert!(!std::sync::Arc::ptr_eq(&failed, &retried));
}

#[test]
fn a_failure_does_not_discard_a_filled_cell() {
    let mut registry = Registry::<u32>::new();
    fill(&mut registry, "a-1", 0, 8);
    let outcome: Result<u32, FlightStatus> =
        registry.build_finished(&"a-1".to_string(), Err(FlightStatus::internal("late".to_string())));
    assert!(outcome.is_err());
    assert_eq!(join(&mut registry, "a-1", 1, 100), Some(8));
}

#[test]
fn a_failure_without_an_entry_changes_nothing() {
    let mut registry = Registry::<u32>::new();
    fill(&mut registry, "a-1", 0, 8);
    let outcome: Result<u32, FlightStatus> =
        registry.build_finished(&"b-1".to_string(), Err(FlightStatus::internal("x".to_string())));
    assert!(outcome.is_err());
    assert_eq!(join(&mut registry, "a-1", 1, 100), Some(8));
}

#[test]
fn a_finished_build_is_handed_on() {
    let mut registry = Registry::<u32>::new();
    fill(&mut registry, "a-1", 0, 8);
    assert_eq!(registry.build_finished(&"a-1".to_string(), Ok(8)).unwrap(), 8);
    assert_eq!(join(&mut registry, "a-1", 1, 100), Some(8));
}

#[test]
fn unfilled_cells_are_discarded_and_filled_ones_kept() {
    let mut registry = Registry::<u32>::new();
    fill(&mut registry, "a-1", 0, 8);
    registry.discard_unfilled(&"a-1".to_string(), true);
    assert_eq!(join(&mut registry, "a-1", 1, 100), Some(8));
    registry.discard_unfilled(&"a-1".to_string(), false);
    assert_eq!(join(&mut registry, "a-1", 1, 100), None);
}

#[test]
fn a_served_fan_out_is_remembered() {
    let mut registry = Registry::<u32>::new();
    fill(&mut registry, "a-1", secs(7), 1);
    fill(&mut registry, "a-2", secs(7), 2);
    registry.finish(&"a-1".to_string(), 5);
    registry.finish(&"a-9".to_string(), 6);
    for now in [secs(8), secs(207)] {
        let found = get_or_build(&mut registry, "a-1".to_string(), now, 100);
        assert!(matches!(found, Found::Finished(5)));
    }
    assert_eq!(join(&mut registry, "a-2", secs(8), 100), Some(2));
    assert_eq!(join(&mut registry, "a-9", secs(8), 100), None);
    // the record goes with the age of the entry, and is not reported as abandoned
    assert_eq!(sweep_stale(&mut registry, secs(207) + 1, 100), vec!["a-2".to_string()]);
    assert_eq!(join(&mut registry, "a-1", secs(207) + 1, 100), None);
}

#[test]
fn a_failure_leaves_a_served_fan_out_alone() {
    let mut registry = Registry::<u32>::new();
    fill(&mut registry, "a-1", 0, 1);
    registry.finish(&"a-1".to_string(), 5);
    let outcome: Result<u32, FlightStatus> =
        registry.build_finished(&"a-1".to_string(), Err(FlightStatus::internal("x".to_string())));
    assert!(outcome.is_err());
    let found = get_or_build(&mut registry, "a-1".to_string(), 1, 100);
    assert!(matches!(found, Found::Finished(5)));
}

#[test]
fn a_fan_out_starts_with_the_cell_it_is_given() {
    let mut registry = Registry::<u32>::new();
    let first = std::sync::Arc::new(tokio::sync::OnceCell::new());
    let second = std::sync::Arc::new(tokio::sync::OnceCell::new());
    let given = cell(join_or_insert(&mut registry, "a-1".to_string(), 0, 100, first.clone()));
    assert!(std::sync::Arc::ptr_eq(&given, &first));
    let given = cell(join_or_insert(&mut registry, "a-1".to_string(), 1, 100, second));
    assert!(std::sync::Arc::ptr_eq(&given, &first));
}

#[test]
fn a_new_fan_out_starts_empty() {
    let mut registry = Registry::<u32>::new();
    fill(&mut registry, "a-1", 0, 3);
    assert_eq!(join(&mut registry, "a-2", 0, 100), None);
}
