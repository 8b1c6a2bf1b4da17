use flight_follower::do_get::{
    DoGet, DoGetAction, DoGetEvent, EncoderSettings, Rejection, Stage, MAX_MESSAGE_BYTES,
};
use flight_follower::planning::{
    get_ctx_and_physical_plan, PlanPrep, PlanRoute, PrepAction, PrepEvent, RoutedSearch,
};
use flight_follower::request::{
    FlightSearchRequest, QueryIdentifier, SearchInfo, SuperClusterInfo,
};
use flight_follower::session::{CleanupAction, Edition, EnterpriseSettings};
use flight_follower::shared_build::{BuildAction, BuildEvent, BuildStage, SharedBuild};
use flight_follower::status::{Code, FlightStatus};

fn request(count: u32, is_super_cluster: bool) -> FlightSearchRequest {
    FlightSearchRequest {
        query_identifier: QueryIdentifier {
            trace_id: "t".to_string(),
            job_id: "1".to_string(),
            doget_count: count,
            doget_index: 1,
        },
        super_cluster_info: SuperClusterInfo { is_super_cluster },
        search_info: SearchInfo {
            timeout: 5,
            is_analyze: false,
        },
    }
}

const ADMITTING: Edition = Edition::Enterprise(EnterpriseSettings {
    super_cluster_enabled: false,
    max_nodes_per_query: 2,
});

fn session_actions() -> Vec<CleanupAction> {
    vec![
        CleanupAction::ClearFileList("t-1".to_string()),
        CleanupAction::ReleaseWal("t-1".to_string()),
    ]
}

fn rejection(action: DoGetAction) -> Rejection {
    match action {
        DoGetAction::Reject(rejection) => rejection,
        other => panic!("no rejection: {other:?}"),
    }
}

fn settings(action: DoGetAction) -> EncoderSettings {
    match action {
        DoGetAction::Encode(settings) => settings,
        other => panic!("no response: {other:?}"),
    }
}

/// An open-source request of its own, up to the outcome of the planning.
fn planned(edition: Edition) -> DoGet {
    let (mut request, action) = DoGet::start(edition, &request(1, false));
    assert!(matches!(
        action,
        DoGetAction::Prepare(PrepAction::BuildPlan(PlanRoute::Search))
    ));
    let action = request.step(DoGetEvent::Prepared(PrepEvent::PlanBuilt));
    assert!(matches!(action, DoGetAction::TakePlan));
    request
}

#[test]
fn a_request_of_a_fan_out_takes_a_group_and_leaves_the_cleanup() {
    let (mut request, _) = DoGet::start(ADMITTING, &request(3, true));
    let action = request.step(DoGetEvent::SharedReady);
    assert!(matches!(action, DoGetAction::TakeGroup { index: 1, count: 3 }));
    let action = request.step(DoGetEvent::GroupTaken);
    assert!(matches!(action, DoGetAction::MakeWriteOptions));
    let settings = settings(request.step(DoGetEvent::OptionsReady));
    assert_eq!(settings.max_message_bytes, 33554432);
    assert_eq!(settings.trace_id, "t-1");
    assert!(settings.is_super);
    assert!(settings.skip_session_cleanup);
    assert!(settings.with_cleanup_guard);
    assert!(!settings.with_defer_lock);
    assert!(matches!(request.step(DoGetEvent::Batch), DoGetAction::Forward));
    assert!(matches!(request.step(DoGetEvent::Batch), DoGetAction::Forward));
    assert!(matches!(request.step(DoGetEvent::StreamsEnded), DoGetAction::Finish));
    assert_eq!(request.stage, Stage::Closed);
}

#[test]
fn refusals_in_a_fan_out_are_passed_on() {
    let (mut joining, _) = DoGet::start(ADMITTING, &request(3, false));
    let refused = joining.step(DoGetEvent::SharedRefused(FlightStatus::internal("a".to_string())));
    let refused = rejection(refused);
    assert_eq!(refused.status, FlightStatus::internal("a".to_string()));
    assert_eq!(refused.cleanup, vec![]);

    let (mut claiming, _) = DoGet::start(ADMITTING, &request(3, false));
    claiming.step(DoGetEvent::SharedReady);
    let refused = claiming.step(DoGetEvent::GroupRefused(FlightStatus::internal("b".to_string())));
    let refused = rejection(refused);
    assert_eq!(refused.status.message, "b");
    assert_eq!(refused.cleanup, vec![]);
    assert_eq!(claiming.stage, Stage::Closed);

    let (mut writing, _) = DoGet::start(ADMITTING, &request(3, false));
    writing.step(DoGetEvent::SharedReady);
    writing.step(DoGetEvent::GroupTaken);
    let refused = rejection(writing.step(DoGetEvent::OptionsFailed("c".to_string())));
    assert_eq!(refused.status, FlightStatus::internal("c".to_string()));
    assert_eq!(refused.cleanup, vec![]);
}

#[test]
fn a_request_of_its_own_executes_and_streams_until_the_timeout() {
    let mut request = planned(Edition::OpenSource);
    assert!(matches!(request.step(DoGetEvent::PlanReady), DoGetAction::MakeWriteOptions));
    assert!(matches!(request.step(DoGetEvent::OptionsReady), DoGetAction::Execute));
    let settings = settings(request.step(DoGetEvent::StreamsReady));
    assert_eq!(settings.max_message_bytes, MAX_MESSAGE_BYTES);
    assert!(!settings.is_super);
    assert!(!settings.skip_session_cleanup);
    assert!(!settings.with_cleanup_guard);
    assert!(settings.with_defer_lock);
    assert!(matches!(request.step(DoGetEvent::Batch), DoGetAction::Forward));
    assert!(matches!(request.step(DoGetEvent::TimedOut), DoGetAction::Finish));
    assert_eq!(request.stage, Stage::Closed);
}

#[test]
fn a_failed_search_clears_its_session_and_gives_its_slot_back() {
    let mut slot = session_actions();
    slot.push(CleanupAction::ReleaseSlot("t-1".to_string()));

    let mut request = planned(ADMITTING);
    let refused = rejection(request.step(DoGetEvent::PlanFailed("no plan".to_string())));
    assert_eq!(refused.status.code, Code::Internal);
    assert_eq!(refused.status.message, "no plan");
    assert_eq!(refused.cleanup, slot);

    let mut request = planned(ADMITTING);
    request.step(DoGetEvent::PlanReady);
    request.step(DoGetEvent::OptionsReady);
    let refused = rejection(request.step(DoGetEvent::StreamsFailed("no streams".to_string())));
    assert_eq!(refused.status.message, "no streams");
    assert_eq!(refused.cleanup, slot);

    let mut request = planned(Edition::OpenSource);
    let refused = rejection(request.step(DoGetEvent::PlanFailed("no plan".to_string())));
    assert_eq!(refused.cleanup, session_actions());
}

#[test]
fn failed_write_options_clear_the_session_only() {
    let mut request = planned(ADMITTING);
    request.step(DoGetEvent::PlanReady);
    let refused = rejection(request.step(DoGetEvent::OptionsFailed("v4".to_string())));
    assert_eq!(refused.status, FlightStatus::internal("v4".to_string()));
    assert_eq!(refused.cleanup, session_actions());
}

#[test]
fn a_tracked_request_registers_plans_and_unregisters() {
    let (mut request, action) = DoGet::start(ADMITTING, &request(1, true));
    assert!(matches!(action, DoGetAction::Prepare(PrepAction::FindTask)));
    let events = [
        (PrepEvent::TaskFound(false), PrepAction::InsertTask),
        (
            PrepEvent::TaskInserted,
            PrepAction::BuildPlan(PlanRoute::SuperClusterFollower),
        ),
        (PrepEvent::PlanBuilt, PrepAction::AskLeader),
        (PrepEvent::LeaderKnown(false), PrepAction::RemoveTask),
    ];
    for (event, expected) in events {
        match request.step(DoGetEvent::Prepared(event)) {
            DoGetAction::Prepare(action) => assert_eq!(action, expected),
            other => panic!("not preparing: {other:?}"),
        }
    }
    let action = request.step(DoGetEvent::Prepared(PrepEvent::TaskRemoved));
    assert!(matches!(action, DoGetAction::TakePlan));
    assert_eq!(request.stage, Stage::Planned);
}

#[test]
fn a_known_task_is_not_inserted_and_a_leader_stays() {
    let mut prep = PlanPrep::start(ADMITTING, true);
    assert_eq!(prep.awaiting, PrepAction::FindTask);
    assert_eq!(
        prep.step(PrepEvent::TaskFound(true)),
        PrepAction::BuildPlan(PlanRoute::SuperClusterFollower)
    );
    assert_eq!(prep.step(PrepEvent::PlanBuilt), PrepAction::AskLeader);
    assert_eq!(prep.step(PrepEvent::LeaderKnown(true)), PrepAction::Finished);
}

#[test]
fn an_untracked_search_is_only_planned() {
    for (edition, is_super_cluster) in [
        (Edition::OpenSource, false),
        (Edition::OpenSource, true),
        (ADMITTING, false),
    ] {
        let mut prep = PlanPrep::start(edition, is_super_cluster);
        assert_eq!(prep.awaiting, PrepAction::BuildPlan(PlanRoute::Search));
        assert_eq!(prep.step(PrepEvent::PlanBuilt), PrepAction::Finished);
    }
}

fn planned_build(edition: Edition) -> SharedBuild {
    let (mut build, action) = SharedBuild::start(edition, "t-1".to_string(), false);
    assert!(matches!(
        action,
        BuildAction::Prepare(PrepAction::BuildPlan(PlanRoute::Search))
    ));
    let action = build.step(BuildEvent::Prepared(PrepEvent::PlanBuilt));
    assert!(matches!(action, BuildAction::TakePlan));
    build
}

#[test]
fn a_build_ends_in_a_shared_execution() {
    let mut build = planned_build(Edition::OpenSource);
    assert!(matches!(build.step(BuildEvent::PlanReady), BuildAction::Execute));
    assert!(matches!(build.step(BuildEvent::StreamsReady), BuildAction::Share));
    assert_eq!(build.stage, BuildStage::Done);
}

#[test]
fn a_tracked_build_asks_the_work_groups() {
    let (mut build, action) = SharedBuild::start(ADMITTING, "t-1".to_string(), true);
    assert!(matches!(action, BuildAction::Prepare(PrepAction::FindTask)));
    let action = build.step(BuildEvent::Prepared(PrepEvent::TaskFound(true)));
    assert!(matches!(
        action,
        BuildAction::Prepare(PrepAction::BuildPlan(PlanRoute::SuperClusterFollower))
    ));
    let action = build.step(BuildEvent::Prepared(PrepEvent::PlanBuilt));
    assert!(matches!(action, BuildAction::Prepare(PrepAction::AskLeader)));
    let action = build.step(BuildEvent::Prepared(PrepEvent::LeaderKnown(true)));
    assert!(matches!(action, BuildAction::TakePlan));
}

#[test]
fn a_failed_build_clears_its_session() {
    let mut build = planned_build(Edition::OpenSource);
    match build.step(BuildEvent::PlanFailed("no plan".to_string())) {
        BuildAction::Reject(refused) => {
            assert_eq!(refused.status, FlightStatus::internal("no plan".to_string()));
            assert_eq!(refused.cleanup, session_actions());
        }
        other => panic!("no rejection: {other:?}"),
    }
    let mut build = planned_build(ADMITTING);
    build.step(BuildEvent::PlanReady);
    match build.step(BuildEvent::StreamsFailed("no streams".to_string())) {
        BuildAction::Reject(refused) => {
            let mut slot = session_actions();
            slot.push(CleanupAction::ReleaseSlot("t-1".to_string()));
            assert_eq!(refused.status.message, "no streams");
            assert_eq!(refused.cleanup, slot);
        }
        other => panic!("no rejection: {other:?}"),
    }
}

#[test]
fn a_planned_search_keeps_the_lock_of_its_route() {
    let led: RoutedSearch<u8, u16, char, u32, String> =
        RoutedSearch::SuperClusterFollower(Ok((1, 2, 'l', 3)));
    let planned = get_ctx_and_physical_plan(led).unwrap();
    assert_eq!((planned.ctx, planned.physical_plan, planned.scan_stats), (1, 2, 3));
    assert_eq!(planned.lock, Some('l'));

    let plain: RoutedSearch<u8, u16, char, u32, String> = RoutedSearch::Search(Ok((4, 5, 6)));
    let planned = get_ctx_and_physical_plan(plain).unwrap();
    assert_eq!((planned.ctx, planned.physical_plan, planned.scan_stats), (4, 5, 6));
    assert_eq!(planned.lock, None);
}

#[test]
fn a_search_that_failed_is_handed_on() {
    let led: RoutedSearch<(), (), (), (), String> =
        RoutedSearch::SuperClusterFollower(Err("led".to_string()));
    assert_eq!(get_ctx_and_physical_plan(led).err(), Some("led".to_string()));
    let plain: RoutedSearch<(), (), (), (), String> = RoutedSearch::Search(Err("plain".to_string()));
    assert_eq!(get_ctx_and_physical_plan(plain).err(), Some("plain".to_string()));
}

#[test]
fn the_settings_of_a_failure_are_the_current_ones() {
    let mut request = planned(Edition::Enterprise(EnterpriseSettings {
        super_cluster_enabled: false,
        max_nodes_per_query: 0,
    }));
    request.edition = ADMITTING;
    let refused = rejection(request.step(DoGetEvent::PlanFailed("no".to_string())));
    let mut expected = session_actions();
    expected.push(CleanupAction::ReleaseSlot("t-1".to_string()));
    assert_eq!(refused.cleanup, expected);
}

#[test]
fn a_request_of_a_served_fan_out_with_an_empty_group_gets_an_empty_response() {
    // one stream for three requests leaves the second one empty-handed by design
    let (mut request, action) = DoGet::start(ADMITTING, &request(3, true));
    assert!(matches!(action, DoGetAction::JoinShared));
    let action = request.step(DoGetEvent::SharedFinished(1));
    assert!(matches!(action, DoGetAction::MakeWriteOptions));
    let settings = settings(request.step(DoGetEvent::OptionsReady));
    assert!(settings.skip_session_cleanup);
    assert!(!settings.with_cleanup_guard);
    assert!(!settings.with_defer_lock);
    assert!(matches!(request.step(DoGetEvent::StreamsEnded), DoGetAction::Finish));
}

#[test]
fn a_request_of_a_served_fan_out_with_a_group_is_refused() {
    let (mut request, _) = DoGet::start(ADMITTING, &request(3, true));
    let refused = rejection(request.step(DoGetEvent::SharedFinished(2)));
    assert_eq!(refused.status.code, Code::Internal);
    assert_eq!(
        refused.status.message,
        "[trace_id t-1] flight->search: do_get fan-out group 1/3 was already taken (duplicate or retried request)"
    );
    assert_eq!(refused.cleanup, vec![]);
    assert_eq!(request.stage, Stage::Closed);
}
