//! What the follower reports to the leader beside the data of a search.

use crate::session::{super_cluster_enabled, Edition};
use std::sync::Arc;
use vstd::prelude::*;

verus! {

/// What the metrics of an `EXPLAIN ANALYZE` are collected from once the streams have ended.
pub struct MetricsInfo<P> {
    pub plan: P,
    pub is_super_cluster: bool,
}

impl<P> MetricsInfo<P> {
    /// Whether the metrics are collected on a node of a super cluster. It is asked when they are
    /// collected, with the settings of that moment.
    pub fn on_super_cluster_node(&self, edition: &Edition) -> (r: bool)
        ensures
            r <==> (edition matches Edition::Enterprise(settings)
                && settings.super_cluster_enabled),
    {
        super_cluster_enabled(edition)
    }
}

/// A message to the leader, before it is encoded. A reference is read when the streams have ended.
pub enum PreCustomMessage<T, R, P, N, K, E> {
    /// What this node has scanned.
    ScanStats(T),
    /// What the nodes behind this one have scanned.
    ScanStatsRef(R),
    /// The metrics of this node.
    Metrics(Option<MetricsInfo<P>>),
    /// The metrics of the nodes behind this one.
    MetricsRef(N),
    /// The memory that the search needed at most.
    PeakMemoryRef(Option<K>),
    /// Errors of parts of the search, to be sent ahead of the data.
    PartialErrRefEarly(Option<Arc<E>>),
    /// Errors of parts of the search.
    PartialErrRef(Option<Arc<E>>),
}

/// What a plan refers to that is known only when its streams have ended.
pub struct PlanRefs<R, N, K, E> {
    pub scan_stats: R,
    pub metrics: N,
    /// The peak memory of the nodes behind this one.
    pub peak_memory: Option<K>,
    pub partial_err: Option<Arc<E>>,
}

/// The messages of a response, in the order in which the leader is to get them. The metrics of this
/// node are collected for an `EXPLAIN ANALYZE` only. A response that stands alone and one that
/// shares its execution get the same set.
pub fn collect_custom_messages<T, R, P, N, K, E>(
    plan: P,
    refs: PlanRefs<R, N, K, E>,
    peak_memory: K,
    scan_stats: T,
    is_super_cluster: bool,
    is_analyze: bool,
) -> (r: Vec<PreCustomMessage<T, R, P, N, K, E>>)
    ensures
        r@ == seq![
            PreCustomMessage::ScanStats(scan_stats),
            PreCustomMessage::ScanStatsRef(refs.scan_stats),
            PreCustomMessage::Metrics(
                if is_analyze {
                    Some(MetricsInfo { plan, is_super_cluster })
                } else {
                    None
                },
            ),
            PreCustomMessage::MetricsRef(refs.metrics),
            PreCustomMessage::PeakMemoryRef(Some(peak_memory)),
            PreCustomMessage::PeakMemoryRef(refs.peak_memory),
            PreCustomMessage::PartialErrRefEarly(refs.partial_err),
            PreCustomMessage::PartialErrRef(refs.partial_err),
        ],
{
    let metrics = if is_analyze {
        Some(MetricsInfo { plan, is_super_cluster })
    } else {
        None
    };
    let partial_err_early = match &refs.partial_err {
        Some(err) => Some(err.clone()),
        None => None,
    };
    let mut r: Vec<PreCustomMessage<T, R, P, N, K, E>> = Vec::new();
    r.push(PreCustomMessage::ScanStats(scan_stats));
    r.push(PreCustomMessage::ScanStatsRef(refs.scan_stats));
    r.push(PreCustomMessage::Metrics(metrics));
    r.push(PreCustomMessage::MetricsRef(refs.metrics));
    r.push(PreCustomMessage::PeakMemoryRef(Some(peak_memory)));
    r.push(PreCustomMessage::PeakMemoryRef(refs.peak_memory));
    r.push(PreCustomMessage::PartialErrRefEarly(partial_err_early));
    r.push(PreCustomMessage::PartialErrRef(refs.partial_err));
    r
}

} // verus!
