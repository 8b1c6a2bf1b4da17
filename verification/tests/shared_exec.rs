use flight_follower::registry::{get_or_build, Found, Registry, SharedCell};
use flight_follower::session::{CleanupAction, Edition, EnterpriseSettings};
use flight_follower::shared::{claim_of_finished, new_shared, SharedExec};
use flight_follower::status::Code;

type Exec = SharedExec<u32, &'static str, &'static str, ()>;

const HOUR: u64 = 3600;

fn exec_of(streams: Vec<u32>) -> Exec {
    new_shared("t-1".to_string(), (), streams, vec!["scan", "memory"], None)
}

fn registry_with(key: &str) -> Registry<u32> {
    let mut registry = Registry::new();
    get_or_build(&mut registry, key.to_string(), 0, HOUR);
    registry
}

fn cell_of(registry: &mut Registry<u32>, now: u128) -> Option<SharedCell<u32>> {
    match get_or_build(registry, "t-1".to_string(), now, HOUR) {
        Found::Cell(cell) => Some(cell),
        Found::Finished(_) => None,
    }
}

/// Whether the registry still has the entry that was made at time zero.
fn remembers(registry: &mut Registry<u32>, cell_filled_with: u32) -> bool {
    match cell_of(registry, 1) {
        Some(cell) => cell.get() == Some(&cell_filled_with),
        None => false,
    }
}

#[test]
fn each_request_takes_its_own_group() {
    let mut registry = Registry::<u32>::new();
    let mut exec = exec_of(vec![10, 11, 12, 13, 14, 15, 16, 17]);
    assert_eq!(exec.take_group(1, 3, &mut registry).unwrap(), vec![12, 13]);
    assert_eq!(exec.take_group(2, 3, &mut registry).unwrap(), vec![14, 15, 16, 17]);
    assert_eq!(exec.take_group(0, 3, &mut registry).unwrap(), vec![10, 11]);
}

#[test]
fn a_second_claim_is_refused() {
    let mut registry = Registry::<u32>::new();
    let mut exec = exec_of(vec![10, 11, 12, 13]);
    exec.take_group(1, 2, &mut registry).unwrap();
    let refusal = exec.take_group(1, 2, &mut registry).unwrap_err();
    assert_eq!(refusal.code, Code::Internal);
    assert_eq!(
        refusal.message,
        "[trace_id t-1] flight->search: do_get fan-out group 1/2 was already taken (duplicate or retried request)"
    );
    assert_eq!(exec.take_group(0, 2, &mut registry).unwrap(), vec![10, 11]);
}

#[test]
fn numbers_in_a_refusal_are_decimal() {
    let mut registry = Registry::<u32>::new();
    let mut exec = exec_of((0..1200).collect());
    assert_eq!(exec.take_group(1090, 1200, &mut registry).unwrap(), vec![1090]);
    let refusal = exec.take_group(1090, 1200, &mut registry).unwrap_err();
    assert!(refusal.message.contains("group 1090/1200 was"));
}

#[test]
fn an_empty_group_is_no_failure() {
    let mut registry = Registry::<u32>::new();
    let mut exec = exec_of(vec![10]);
    assert_eq!(exec.take_group(1, 2, &mut registry).unwrap(), Vec::<u32>::new());
    assert_eq!(exec.take_group(1, 2, &mut registry).unwrap(), Vec::<u32>::new());
    assert_eq!(exec.take_group(0, 2, &mut registry).unwrap(), vec![10]);
}

#[test]
fn a_partly_claimed_group_gives_what_is_left() {
    let mut registry = Registry::<u32>::new();
    let mut exec = exec_of(vec![10, 11, 12, 13, 14, 15, 16, 17]);
    // an index past the requests reaches into the last group
    assert_eq!(exec.take_group(3, 3, &mut registry).unwrap(), vec![16, 17]);
    assert_eq!(exec.take_group(2, 3, &mut registry).unwrap(), vec![14, 15]);
}

#[test]
fn the_last_claim_makes_the_registry_forget() {
    let mut registry = registry_with("t-1");
    cell_of(&mut registry, 0).unwrap().set(7).unwrap();
    let mut exec = exec_of(vec![10, 11, 12, 13]);
    exec.take_group(0, 2, &mut registry).unwrap();
    assert!(remembers(&mut registry, 7));
    exec.take_group(0, 2, &mut registry).unwrap_err();
    assert!(remembers(&mut registry, 7));
    exec.take_group(1, 2, &mut registry).unwrap();
    assert!(!remembers(&mut registry, 7));
}

#[test]
fn a_late_duplicate_does_not_touch_a_newer_entry() {
    let mut registry = Registry::<u32>::new();
    let mut exec = exec_of(vec![10]);
    // the entry of the execution has gone stale before its stream was claimed
    exec.take_group(0, 1, &mut registry).unwrap();
    cell_of(&mut registry, 5).unwrap().set(9).unwrap();
    exec.take_group(0, 1, &mut registry).unwrap_err();
    assert!(remembers(&mut registry, 9));
}

#[test]
fn an_execution_without_streams_is_not_forgotten_by_a_claim() {
    let mut registry = registry_with("t-1");
    cell_of(&mut registry, 0).unwrap().set(7).unwrap();
    let mut exec = exec_of(vec![]);
    assert!(exec.take_group(0, 2, &mut registry).unwrap().is_empty());
    assert!(exec.take_group(1, 2, &mut registry).unwrap().is_empty());
    assert!(remembers(&mut registry, 7));
}

#[test]
fn messages_are_reported_once() {
    let mut registry = Registry::<u32>::new();
    let mut exec = exec_of(vec![10, 11]);
    assert_eq!(exec.take_custom_messages(), vec!["scan", "memory"]);
    exec.take_group(1, 2, &mut registry).unwrap();
    assert_eq!(exec.take_custom_messages(), Vec::<&str>::new());
}

#[test]
fn cleanup_without_a_lock_clears_the_session() {
    let cleanup = exec_of(vec![10]).cleanup(&Edition::OpenSource);
    assert_eq!(cleanup.lock, None);
    assert_eq!(
        cleanup.actions,
        vec![
            CleanupAction::ClearFileList("t-1".to_string()),
            CleanupAction::ReleaseWal("t-1".to_string()),
        ]
    );
}

#[test]
fn cleanup_with_a_lock_leaves_the_session_to_the_lock() {
    let exec: Exec = new_shared("t-1".to_string(), (), vec![1], vec![], Some("lock"));
    let admitting = Edition::Enterprise(EnterpriseSettings {
        super_cluster_enabled: true,
        max_nodes_per_query: 3,
    });
    let cleanup = exec.cleanup(&admitting);
    assert_eq!(cleanup.lock, Some("lock"));
    assert_eq!(cleanup.actions, vec![CleanupAction::ReleaseSlot("t-1".to_string())]);
}

#[test]
fn cleanup_gives_the_slot_back_before_the_session_goes() {
    let admitting = Edition::Enterprise(EnterpriseSettings {
        super_cluster_enabled: false,
        max_nodes_per_query: 1,
    });
    let cleanup = exec_of(vec![10]).cleanup(&admitting);
    assert_eq!(
        cleanup.actions,
        vec![
            CleanupAction::ReleaseSlot("t-1".to_string()),
            CleanupAction::ClearFileList("t-1".to_string()),
            CleanupAction::ReleaseWal("t-1".to_string()),
        ]
    );
}

#[test]
fn requests_share_one_cell_in_every_order() {
    for order in [[0, 1, 2], [0, 2, 1], [1, 0, 2], [1, 2, 0], [2, 0, 1], [2, 1, 0]] {
        let mut registry = Registry::<u32>::new();
        let first = cell_of(&mut registry, 0).unwrap();
        let mut exec = exec_of(vec![10, 11, 12, 13, 14]);
        for index in order {
            let cell = cell_of(&mut registry, 1).unwrap();
            assert!(std::sync::Arc::ptr_eq(&cell, &first));
            exec.take_share(index, 3, &mut registry).unwrap();
        }
        let later = get_or_build(&mut registry, "t-1".to_string(), 1, HOUR);
        assert!(matches!(later, Found::Finished(5)));
    }
}

#[test]
fn a_late_request_of_too_few_streams_gets_nothing_and_builds_nothing() {
    let mut registry = Registry::<u32>::new();
    let first = cell_of(&mut registry, 0).unwrap();
    let mut exec = exec_of(vec![10, 11]);
    let (streams, messages) = exec.take_share(0, 3, &mut registry).unwrap();
    assert_eq!(streams, vec![10]);
    assert_eq!(messages, vec!["scan", "memory"]);
    let second = cell_of(&mut registry, 1).unwrap();
    assert!(std::sync::Arc::ptr_eq(&second, &first));
    let (streams, messages) = exec.take_share(1, 3, &mut registry).unwrap();
    assert_eq!(streams, vec![11]);
    assert!(messages.is_empty());
    match get_or_build(&mut registry, "t-1".to_string(), 2, HOUR) {
        Found::Finished(streams) => assert!(claim_of_finished("t-1", streams, 2, 3).is_ok()),
        Found::Cell(_) => panic!("a second execution"),
    }
    // the execution itself would say the same
    let (streams, messages) = exec.take_share(2, 3, &mut registry).unwrap();
    assert!(streams.is_empty() && messages.is_empty());
}

#[test]
fn a_retry_after_all_claims_is_refused() {
    let mut registry = Registry::<u32>::new();
    cell_of(&mut registry, 0).unwrap();
    let mut exec = exec_of(vec![10, 11, 12]);
    exec.take_share(0, 2, &mut registry).unwrap();
    exec.take_share(1, 2, &mut registry).unwrap();
    match get_or_build(&mut registry, "t-1".to_string(), 2, HOUR) {
        Found::Finished(streams) => {
            let refusal = claim_of_finished("t-1", streams, 0, 2).unwrap_err();
            assert_eq!(refusal.code, Code::Internal);
            assert_eq!(
                refusal.message,
                "[trace_id t-1] flight->search: do_get fan-out group 0/2 was already taken (duplicate or retried request)"
            );
            assert_eq!(exec.take_share(0, 2, &mut registry).unwrap_err(), refusal);
        }
        Found::Cell(_) => panic!("a second execution"),
    }
}

#[test]
fn a_refused_request_leaves_the_messages() {
    let mut registry = Registry::<u32>::new();
    let mut exec = exec_of(vec![10, 11]);
    exec.take_group(0, 2, &mut registry).unwrap();
    exec.take_share(0, 2, &mut registry).unwrap_err();
    let (streams, messages) = exec.take_share(1, 2, &mut registry).unwrap();
    assert_eq!(streams, vec![11]);
    assert_eq!(messages, vec!["scan", "memory"]);
}
