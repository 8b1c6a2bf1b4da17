use flight_follower::messages::{collect_custom_messages, PlanRefs, PreCustomMessage};
use flight_follower::session::{Edition, EnterpriseSettings};
use flight_follower::text::decimal_text;
use std::sync::Arc;

type Message = PreCustomMessage<u64, &'static str, &'static str, &'static str, u32, String>;

fn collect(is_analyze: bool, partial_err: Option<Arc<String>>) -> Vec<Message> {
    collect_custom_messages(
        "plan",
        PlanRefs {
            scan_stats: "scan ref",
            metrics: "metrics ref",
            peak_memory: Some(22),
            partial_err,
        },
        11,
        99,
        true,
        is_analyze,
    )
}

#[test]
fn messages_come_in_order() {
    let err = Arc::new("partial".to_string());
    let messages = collect(false, Some(err.clone()));
    assert_eq!(messages.len(), 8);
    assert!(matches!(messages[0], PreCustomMessage::ScanStats(99)));
    assert!(matches!(messages[1], PreCustomMessage::ScanStatsRef("scan ref")));
    assert!(matches!(messages[2], PreCustomMessage::Metrics(None)));
    assert!(matches!(messages[3], PreCustomMessage::MetricsRef("metrics ref")));
    assert!(matches!(messages[4], PreCustomMessage::PeakMemoryRef(Some(11))));
    assert!(matches!(messages[5], PreCustomMessage::PeakMemoryRef(Some(22))));
    match (&messages[6], &messages[7]) {
        (PreCustomMessage::PartialErrRefEarly(Some(a)), PreCustomMessage::PartialErrRef(Some(b))) => {
            assert!(Arc::ptr_eq(a, &err));
            assert!(Arc::ptr_eq(b, &err));
        }
        _ => panic!("no partial errors"),
    }
}

#[test]
fn an_analyzed_search_reports_its_metrics() {
    match &collect(true, None)[2] {
        PreCustomMessage::Metrics(Some(info)) => {
            assert_eq!(info.plan, "plan");
            assert!(info.is_super_cluster);
            let mut settings = EnterpriseSettings {
                super_cluster_enabled: true,
                max_nodes_per_query: 0,
            };
            assert!(info.on_super_cluster_node(&Edition::Enterprise(settings)));
            settings.super_cluster_enabled = false;
            assert!(!info.on_super_cluster_node(&Edition::Enterprise(settings)));
            assert!(!info.on_super_cluster_node(&Edition::OpenSource));
        }
        _ => panic!("no metrics"),
    }
}

#[test]
fn missing_references_stay_missing() {
    let messages = collect(false, None);
    assert!(matches!(messages[6], PreCustomMessage::PartialErrRefEarly(None)));
    assert!(matches!(messages[7], PreCustomMessage::PartialErrRef(None)));
}

#[test]
fn numbers_are_written_in_decimal() {
    for n in [0usize, 7, 10, 99, 100, 4096, usize::MAX] {
        assert_eq!(decimal_text(n), format!("{n}"));
    }
}
