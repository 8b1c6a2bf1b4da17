//! The preparation of a search: registering it with the work groups, and planning it.
//!
//! On a super cluster the leader of the followers has to be known to the work groups while its plan
//! is made. It is registered before, unless it is registered already, and taken off again behind
//! the planning, whether or not that succeeded, unless the query is led from this very node.

use crate::session::Edition;
use vstd::prelude::*;

verus! {

/// Who makes the plan.
#[derive(Clone, Copy, Debug, PartialEq, Eq, Structural)]
pub enum PlanRoute {
    /// The leader of the followers in a super cluster; its plan comes with a work-group lock.
    SuperClusterFollower,
    /// A plain follower; its plan comes without a lock.
    Search,
}

/// What the preparation waits for.
#[derive(Clone, Copy, Debug, PartialEq, Eq, Structural)]
pub enum PrepAction {
    /// Find out whether the work groups know the search.
    FindTask,
    /// Register the search as a follower's.
    InsertTask,
    /// Make the plan. The outcome is kept until the preparation has finished.
    BuildPlan(PlanRoute),
    /// Find out whether the query is led from this node.
    AskLeader,
    /// Take the search off the work groups.
    RemoveTask,
    /// Go on with the outcome of the planning.
    Finished,
}

/// What the preparation is told.
#[derive(Clone, Copy, Debug, PartialEq, Eq, Structural)]
pub enum PrepEvent {
    TaskFound(bool),
    TaskInserted,
    /// The plan was made, or could not be made.
    PlanBuilt,
    LeaderKnown(bool),
    TaskRemoved,
}

/// A preparation under way.
#[derive(Clone, Copy, Debug, PartialEq, Eq, Structural)]
pub struct PlanPrep {
    pub edition: Edition,
    pub is_super_cluster: bool,
    pub awaiting: PrepAction,
}

/// The work groups have to know the search while it is planned.
pub open spec fn is_tracked(edition: Edition, is_super_cluster: bool) -> bool {
    edition is Enterprise && is_super_cluster
}

/// Who makes the plan of a search.
pub open spec fn route_of(edition: Edition, is_super_cluster: bool) -> PlanRoute {
    if is_tracked(edition, is_super_cluster) {
        PlanRoute::SuperClusterFollower
    } else {
        PlanRoute::Search
    }
}

impl PlanPrep {
    /// The preparation of a search that has not begun.
    pub open spec fn initial(edition: Edition, is_super_cluster: bool) -> PlanPrep {
        PlanPrep {
            edition,
            is_super_cluster,
            awaiting: if is_tracked(edition, is_super_cluster) {
                PrepAction::FindTask
            } else {
                PrepAction::BuildPlan(route_of(edition, is_super_cluster))
            },
        }
    }

    /// The event answers what the preparation waits for.
    pub open spec fn expects(self, event: PrepEvent) -> bool {
        match self.awaiting {
            PrepAction::FindTask => event is TaskFound,
            PrepAction::InsertTask => event is TaskInserted,
            PrepAction::BuildPlan(_) => event is PlanBuilt,
            PrepAction::AskLeader => event is LeaderKnown,
            PrepAction::RemoveTask => event is TaskRemoved,
            PrepAction::Finished => false,
        }
    }

    /// What the preparation waits for after an event.
    pub open spec fn next_action(self, event: PrepEvent) -> PrepAction {
        let plan = PrepAction::BuildPlan(route_of(self.edition, self.is_super_cluster));
        match event {
            PrepEvent::TaskFound(found) => if found {
                plan
            } else {
                PrepAction::InsertTask
            },
            PrepEvent::TaskInserted => plan,
            PrepEvent::PlanBuilt => if is_tracked(self.edition, self.is_super_cluster) {
                PrepAction::AskLeader
            } else {
                PrepAction::Finished
            },
            PrepEvent::LeaderKnown(leads) => if leads {
                PrepAction::Finished
            } else {
                PrepAction::RemoveTask
            },
            PrepEvent::TaskRemoved => PrepAction::Finished,
        }
    }

    /// The preparation after an event.
    pub open spec fn after(self, event: PrepEvent) -> PlanPrep {
        PlanPrep { awaiting: self.next_action(event), ..self }
    }

    /// How many answers the preparation can still wait for.
    pub open spec fn rank(self) -> nat {
        match self.awaiting {
            PrepAction::FindTask => 5,
            PrepAction::InsertTask => 4,
            PrepAction::BuildPlan(_) => 3,
            PrepAction::AskLeader => 2,
            PrepAction::RemoveTask => 1,
            PrepAction::Finished => 0,
        }
    }

    /// Begin the preparation of a search.
    pub fn start(edition: Edition, is_super_cluster: bool) -> (r: PlanPrep)
        ensures
            r == PlanPrep::initial(edition, is_super_cluster),
    {
        let awaiting = if tracks(&edition, is_super_cluster) {
            PrepAction::FindTask
        } else {
            PrepAction::BuildPlan(plan_route(&edition, is_super_cluster))
        };
        PlanPrep { edition, is_super_cluster, awaiting }
    }

    /// Take the answer to what the preparation waits for.
    pub fn step(&mut self, event: PrepEvent) -> (r: PrepAction)
        requires
            old(self).expects(event),
        ensures
            *final(self) == old(self).after(event),
            r == final(self).awaiting,
    {
        let plan = PrepAction::BuildPlan(plan_route(&self.edition, self.is_super_cluster));
        self.awaiting = match event {
            PrepEvent::TaskFound(found) => if found {
                plan
            } else {
                PrepAction::InsertTask
            },
            PrepEvent::TaskInserted => plan,
            PrepEvent::PlanBuilt => if tracks(&self.edition, self.is_super_cluster) {
                PrepAction::AskLeader
            } else {
                PrepAction::Finished
            },
            PrepEvent::LeaderKnown(leads) => if leads {
                PrepAction::Finished
            } else {
                PrepAction::RemoveTask
            },
            PrepEvent::TaskRemoved => PrepAction::Finished,
        };
        self.awaiting
    }
}

/// Whether the work groups have to know the search while it is planned.
pub fn tracks(edition: &Edition, is_super_cluster: bool) -> (r: bool)
    ensures
        r == is_tracked(*edition, is_super_cluster),
{
    match edition {
        Edition::OpenSource => false,
        Edition::Enterprise(_) => is_super_cluster,
    }
}

/// Who makes the plan of a search.
pub fn plan_route(edition: &Edition, is_super_cluster: bool) -> (r: PlanRoute)
    ensures
        r == route_of(*edition, is_super_cluster),
{
    if tracks(edition, is_super_cluster) {
        PlanRoute::SuperClusterFollower
    } else {
        PlanRoute::Search
    }
}

/// A planned search.
pub struct PlanResult<C, P, L, T> {
    pub ctx: C,
    pub physical_plan: P,
    /// The work-group lock of the leader of the followers in a super cluster.
    pub lock: Option<L>,
    pub scan_stats: T,
}

/// What a search came to, by the route that planned it.
pub enum RoutedSearch<C, P, L, T, E> {
    SuperClusterFollower(Result<(C, P, L, T), E>),
    Search(Result<(C, P, T), E>),
}

impl<C, P, L, T, E> RoutedSearch<C, P, L, T, E> {
    /// The route that planned the search.
    pub open spec fn route(self) -> PlanRoute {
        match self {
            RoutedSearch::SuperClusterFollower(_) => PlanRoute::SuperClusterFollower,
            RoutedSearch::Search(_) => PlanRoute::Search,
        }
    }

    /// The planned search, or why there is none. The lock is the one that the search came with.
    pub open spec fn planned(self) -> Result<PlanResult<C, P, L, T>, E> {
        match self {
            RoutedSearch::SuperClusterFollower(Ok((ctx, physical_plan, lock, scan_stats))) => Ok(
                PlanResult { ctx, physical_plan, lock: Some(lock), scan_stats },
            ),
            RoutedSearch::Search(Ok((ctx, physical_plan, scan_stats))) => Ok(
                PlanResult { ctx, physical_plan, lock: None, scan_stats },
            ),
            RoutedSearch::SuperClusterFollower(Err(e)) | RoutedSearch::Search(Err(e)) => Err(e),
        }
    }
}

/// The planned search of whichever route was taken. The leader of the followers in a super cluster
/// keeps its work-group lock; a plain follower has none.
pub fn get_ctx_and_physical_plan<C, P, L, T, E>(search: RoutedSearch<C, P, L, T, E>) -> (r: Result<
    PlanResult<C, P, L, T>,
    E,
>)
    ensures
        r == search.planned(),
        r is Ok ==> (r->Ok_0.lock is Some <==> search.route() == PlanRoute::SuperClusterFollower),
{
    match search {
        RoutedSearch::SuperClusterFollower(Ok((ctx, physical_plan, lock, scan_stats))) => Ok(
            PlanResult { ctx, physical_plan, lock: Some(lock), scan_stats },
        ),
        RoutedSearch::Search(Ok((ctx, physical_plan, scan_stats))) => Ok(
            PlanResult { ctx, physical_plan, lock: None, scan_stats },
        ),
        RoutedSearch::SuperClusterFollower(Err(e)) => Err(e),
        RoutedSearch::Search(Err(e)) => Err(e),
    }
}

/// Law: a planned search holds a work-group lock exactly in an enterprise build, for the leader of
/// the followers in a super cluster. An open-source build has no lock, whatever the request says.
pub proof fn law_lock_comes_with_the_super_cluster<C, P, L, T, E>(
    edition: Edition,
    is_super_cluster: bool,
    search: RoutedSearch<C, P, L, T, E>,
)
    requires
        search.route() == route_of(edition, is_super_cluster),
    ensures
        search.planned() matches Ok(planned) ==> (planned.lock is Some <==> edition is Enterprise
            && is_super_cluster),
{
}

/// The answers that a preparation gets from the work groups.
pub struct WorkGroups {
    pub knows_task: bool,
    pub leads_query: bool,
}

/// The answer of the work groups to what a preparation waits for.
pub open spec fn answer(action: PrepAction, groups: WorkGroups) -> PrepEvent {
    match action {
        PrepAction::FindTask => PrepEvent::TaskFound(groups.knows_task),
        PrepAction::InsertTask => PrepEvent::TaskInserted,
        PrepAction::BuildPlan(_) => PrepEvent::PlanBuilt,
        PrepAction::AskLeader => PrepEvent::LeaderKnown(groups.leads_query),
        _ => PrepEvent::TaskRemoved,
    }
}

/// All that a preparation does from here on, up to and with `Finished`.
pub open spec fn course(prep: PlanPrep, groups: WorkGroups) -> Seq<PrepAction>
    decreases prep.rank(),
{
    if prep.awaiting == PrepAction::Finished || prep.after(answer(prep.awaiting, groups)).rank()
        >= prep.rank() {
        seq![prep.awaiting]
    } else {
        seq![prep.awaiting] + course(prep.after(answer(prep.awaiting, groups)), groups)
    }
}

/// Law: every preparation comes to its end. Each answer brings it nearer to `Finished`, where it
/// expects nothing more.
pub proof fn law_preparation_ends(prep: PlanPrep, event: PrepEvent)
    requires
        prep.expects(event),
    ensures
        prep.after(event).rank() < prep.rank(),
        prep.rank() > 0,
{
}

/// Law: every search is planned once, by the route that its build and its cluster call for. The
/// work groups are told of the search before exactly where they have to know it and do not, and are
/// told to forget it behind exactly where they had to know it and the query is not led from here.
/// Whether the planning succeeded plays no part.
pub proof fn law_course_of_a_preparation(
    edition: Edition,
    is_super_cluster: bool,
    groups: WorkGroups,
)
    ensures
        course(PlanPrep::initial(edition, is_super_cluster), groups) == (if is_tracked(
            edition,
            is_super_cluster,
        ) {
            seq![PrepAction::FindTask] + (if groups.knows_task {
                Seq::empty()
            } else {
                seq![PrepAction::InsertTask]
            }) + seq![
                PrepAction::BuildPlan(PlanRoute::SuperClusterFollower),
                PrepAction::AskLeader,
            ] + (if groups.leads_query {
                Seq::empty()
            } else {
                seq![PrepAction::RemoveTask]
            })
        } else {
            seq![PrepAction::BuildPlan(PlanRoute::Search)]
        }) + seq![PrepAction::Finished],
{
    reveal_with_fuel(course, 7);
}

/// Law: a search goes by way of the super cluster, and the work groups have to know it, exactly in an
/// enterprise build and for the leader of the followers in a super cluster.
pub proof fn law_route_follows_build_and_request(
    edition: Edition,
    is_super_cluster: bool,
    known: bool,
    route: PlanRoute,
    prep: PlanPrep,
)
    requires
        call_ensures(tracks, (&edition, is_super_cluster), known),
        call_ensures(plan_route, (&edition, is_super_cluster), route),
        call_ensures(PlanPrep::start, (edition, is_super_cluster), prep),
    ensures
        known <==> edition is Enterprise && is_super_cluster,
        route is SuperClusterFollower <==> edition is Enterprise && is_super_cluster,
        prep.edition == edition,
        prep.is_super_cluster == is_super_cluster,
        edition is Enterprise && is_super_cluster ==> prep.awaiting is FindTask,
        !(edition is Enterprise && is_super_cluster) ==> prep.awaiting == PrepAction::BuildPlan(
            PlanRoute::Search,
        ),
{
}

/// Law: a planned search is handed on as it was found. Its context, its plan and its statistics are
/// those of the route that was taken; so is its lock, or the lack of one, and so is its error.
pub proof fn law_planned_search_is_handed_on<C, P, L, T, E>(
    search: RoutedSearch<C, P, L, T, E>,
    r: Result<PlanResult<C, P, L, T>, E>,
)
    requires
        call_ensures(get_ctx_and_physical_plan::<C, P, L, T, E>, (search,), r),
    ensures
        match search {
            RoutedSearch::SuperClusterFollower(Ok(parts)) => {
                &&& r matches Ok(planned) && planned.ctx == parts.0 && planned.physical_plan
                    == parts.1 && planned.lock == Some(parts.2) && planned.scan_stats == parts.3
            },
            RoutedSearch::Search(Ok(parts)) => {
                &&& r matches Ok(planned) && planned.ctx == parts.0 && planned.physical_plan
                    == parts.1 && planned.lock is None && planned.scan_stats == parts.2
            },
            RoutedSearch::SuperClusterFollower(Err(e)) => r matches Err(failure) && failure == e,
            RoutedSearch::Search(Err(e)) => r matches Err(failure) && failure == e,
        },
{
}

/// Law: the work groups are asked in turn. A search that they do not know is registered before it is
/// planned; behind the planning a tracked search is taken off them unless the query is led from
/// here, and an untracked one is done. What was planned for does not change on the way.
pub proof fn law_steps_of_a_preparation(prep: PlanPrep, event: PrepEvent)
    ensures
        ({
            let known = prep.edition is Enterprise && prep.is_super_cluster;
            let next = prep.after(event);
            let plan = if known {
                PrepAction::BuildPlan(PlanRoute::SuperClusterFollower)
            } else {
                PrepAction::BuildPlan(PlanRoute::Search)
            };
            &&& next.edition == prep.edition
            &&& next.is_super_cluster == prep.is_super_cluster
            &&& event == PrepEvent::TaskFound(true) ==> next.awaiting == plan
            &&& event == PrepEvent::TaskFound(false) ==> next.awaiting is InsertTask
            &&& event is TaskInserted ==> next.awaiting == plan
            &&& event is PlanBuilt && known ==> next.awaiting is AskLeader
            &&& event is PlanBuilt && !known ==> next.awaiting is Finished
            &&& event == PrepEvent::LeaderKnown(true) ==> next.awaiting is Finished
            &&& event == PrepEvent::LeaderKnown(false) ==> next.awaiting is RemoveTask
            &&& event is TaskRemoved ==> next.awaiting is Finished
            &&& next.awaiting == prep.next_action(event)
        }),
{
}

/// Law: a preparation takes every answer to what it waits for, and only such, and none once it has
/// finished.
pub proof fn law_preparation_takes_every_answer(prep: PlanPrep, event: PrepEvent)
    ensures
        prep.awaiting is FindTask ==> (prep.expects(event) <==> event is TaskFound),
        prep.awaiting is InsertTask ==> (prep.expects(event) <==> event is TaskInserted),
        prep.awaiting is BuildPlan ==> (prep.expects(event) <==> event is PlanBuilt),
        prep.awaiting is AskLeader ==> (prep.expects(event) <==> event is LeaderKnown),
        prep.awaiting is RemoveTask ==> (prep.expects(event) <==> event is TaskRemoved),
        prep.awaiting is Finished ==> !prep.expects(event),
{
}

} // verus!
