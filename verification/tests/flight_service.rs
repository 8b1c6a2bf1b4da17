use flight_follower::do_get::{DoGetAction, Stage};
use flight_follower::planning::{PlanRoute, PrepAction};
use flight_follower::request::{
    FlightSearchRequest, Job, QueryIdentifier, SearchInfo, SuperClusterInfo,
};
use flight_follower::service::{write_options, FlightServiceImpl};
use flight_follower::session::{
    clear_session_data, release_slot, super_cluster_enabled, CleanupAction, Edition,
    EnterpriseSettings,
};
use flight_follower::status::{Code, FlightStatus};

fn request(count: u32, index: u32, timeout: i64) -> FlightSearchRequest {
    FlightSearchRequest {
        query_identifier: QueryIdentifier {
            trace_id: "abc".to_string(),
            job_id: "7".to_string(),
            doget_count: count,
            doget_index: index,
        },
        super_cluster_info: SuperClusterInfo {
            is_super_cluster: true,
        },
        search_info: SearchInfo {
            timeout,
            is_analyze: true,
        },
    }
}

fn enterprise(super_cluster_enabled: bool, max_nodes_per_query: u64) -> Edition {
    Edition::Enterprise(EnterpriseSettings {
        super_cluster_enabled,
        max_nodes_per_query,
    })
}

#[test]
fn test_flight_service_impl_default() {
    let _impl = FlightServiceImpl::default();
}

#[test]
fn test_super_cluster_disabled_in_oss() {
    assert!(!super_cluster_enabled(&Edition::OpenSource));
}

#[test]
fn super_clusters_are_a_setting_of_enterprise_builds() {
    assert!(super_cluster_enabled(&enterprise(true, 0)));
    assert!(!super_cluster_enabled(&enterprise(false, 9)));
}

#[test]
fn a_job_is_read_from_a_request() {
    let job = Job::of_request(&request(4, 2, 30));
    assert_eq!(job.trace_id, "abc-7");
    assert!(job.is_super_cluster);
    assert!(job.is_analyze);
    assert_eq!(job.timeout_secs, 30);
    assert_eq!(job.doget_count, 4);
    assert_eq!(job.doget_index, 2);
}

#[test]
fn a_negative_timeout_wraps_round() {
    assert_eq!(Job::of_request(&request(1, 0, -1)).timeout_secs, u64::MAX);
    assert_eq!(Job::of_request(&request(1, 0, i64::MIN)).timeout_secs, 1 << 63);
}

#[test]
fn a_split_job_shares_an_execution_in_every_edition() {
    for edition in [Edition::OpenSource, enterprise(false, 0), enterprise(true, 5)] {
        let (request, action) = FlightServiceImpl
            .do_get(edition, Ok(request(2, 0, 30)))
            .unwrap();
        assert_eq!(request.stage, Stage::Joining);
        assert!(matches!(action, DoGetAction::JoinShared));
    }
}

#[test]
fn a_whole_job_is_planned() {
    for count in [0, 1] {
        let (_, action) = FlightServiceImpl
            .do_get(Edition::OpenSource, Ok(request(count, 0, 30)))
            .unwrap();
        assert!(matches!(
            action,
            DoGetAction::Prepare(PrepAction::BuildPlan(PlanRoute::Search))
        ));
    }
    let (_, action) = FlightServiceImpl
        .do_get(enterprise(false, 0), Ok(request(1, 0, 30)))
        .unwrap();
    assert!(matches!(action, DoGetAction::Prepare(PrepAction::FindTask)));
}

#[test]
fn a_ticket_that_cannot_be_decoded_is_refused() {
    let refusal = match FlightServiceImpl.do_get(Edition::OpenSource, Err("bad tag".to_string())) {
        Err(status) => status,
        Ok(_) => panic!("accepted"),
    };
    assert_eq!(refusal.code, Code::Internal);
    assert_eq!(
        refusal.message,
        "Internal error: bad tag.\nThis issue was likely caused by a bug in DataFusion's code. \
         Please help us to resolve this by filing a bug report in our issue tracker: \
         https://github.com/apache/datafusion/issues"
    );
}

#[test]
fn responses_are_written_with_zstd() {
    let options = write_options().unwrap();
    assert!(format!("{options:?}").contains("ZSTD"));
    let plain = format!("{:?}", arrow::ipc::writer::IpcWriteOptions::default());
    assert!(!plain.contains("ZSTD"));
}

#[test]
fn other_calls_are_not_offered() {
    let service = FlightServiceImpl;
    let refusals: Vec<(FlightStatus, &str)> = vec![
        (service.handshake(), "Implement handshake"),
        (service.list_flights(), "Implement list_flights"),
        (service.get_flight_info(), "Implement get_flight_info"),
        (service.poll_flight_info(), "Implement poll_flight_info"),
        (service.get_schema(), "Implement get_schema"),
        (service.do_put(), "Implement do_put"),
        (service.do_action(), "Implement do_action"),
        (service.list_actions(), "Implement list_actions"),
        (service.do_exchange(), "Implement do_exchange"),
    ];
    for (status, message) in refusals {
        assert_eq!(status.code, Code::Unimplemented);
        assert_eq!(status.message, message);
    }
}

#[test]
fn clearing_a_session_forgets_files_and_unlocks_them() {
    assert_eq!(
        clear_session_data("abc-7"),
        vec![
            CleanupAction::ClearFileList("abc-7".to_string()),
            CleanupAction::ReleaseWal("abc-7".to_string()),
        ]
    );
}

#[test]
fn slots_are_given_back_where_they_are_handed_out() {
    assert_eq!(release_slot(&Edition::OpenSource, "x"), vec![]);
    assert_eq!(release_slot(&enterprise(true, 0), "x"), vec![]);
    assert_eq!(
        release_slot(&enterprise(false, 1), "x"),
        vec![CleanupAction::ReleaseSlot("x".to_string())]
    );
}
