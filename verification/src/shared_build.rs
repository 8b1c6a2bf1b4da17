//! The course of building the execution that the requests of a fan-out share.
//!
//! It is built by the request that comes first: the search is prepared and planned, the plan is
//! executed into one stream per output partition, and the streams are put up for the requests to
//! claim. A failure clears the session and gives the slot back, because no execution comes about
//! that would do so at its end.

use crate::do_get::Rejection;
use crate::planning::{PlanPrep, PlanRoute, PrepAction, PrepEvent};
use crate::session::{lemma_search_is_undone, session_steps, slot_steps};
use crate::session::{CleanupAction, Edition};
use vstd::prelude::*;

verus! {

/// What a build waits for.
#[derive(Clone, Copy, Debug, PartialEq, Eq, Structural)]
pub enum BuildStage {
    /// The preparation of the search.
    Preparing(PlanPrep),
    /// The outcome of the planning.
    Planned,
    /// The streams of the search.
    Executing,
    /// Nothing: the build is done with.
    Done,
}

/// What a build is told.
pub enum BuildEvent {
    Prepared(PrepEvent),
    PlanReady,
    PlanFailed(String),
    StreamsReady,
    StreamsFailed(String),
}

/// What a build does next.
#[derive(Debug)]
pub enum BuildAction {
    Prepare(PrepAction),
    /// Look at the outcome of the planning.
    TakePlan,
    /// Collect the messages for the leader, and execute the plan.
    Execute,
    /// Put the streams up for the requests to claim.
    Share,
    /// Undo what is to be undone, and refuse the build.
    Reject(Rejection),
}

/// A build under way.
pub struct SharedBuild {
    /// The build of the software, with its settings as they were looked up last. They may be looked
    /// up again before any event.
    pub edition: Edition,
    pub trace_id: String,
    pub is_super_cluster: bool,
    pub stage: BuildStage,
}

/// The preparation asks for `prep.awaiting`, or has finished and the outcome is looked at.
pub open spec fn build_prepares(prep: PlanPrep, stage: BuildStage, action: BuildAction) -> bool {
    if prep.awaiting == PrepAction::Finished {
        stage == BuildStage::Planned && action == BuildAction::TakePlan
    } else {
        stage == BuildStage::Preparing(prep) && action == BuildAction::Prepare(prep.awaiting)
    }
}

impl SharedBuild {
    /// A preparation that has finished is not waited for.
    pub open spec fn wf(self) -> bool {
        self.stage matches BuildStage::Preparing(prep) ==> prep.awaiting != PrepAction::Finished
    }

    /// The event answers what the build waits for.
    pub open spec fn expects(self, event: BuildEvent) -> bool {
        match self.stage {
            BuildStage::Preparing(prep) => event matches BuildEvent::Prepared(e) && prep.expects(e),
            BuildStage::Planned => event is PlanReady || event is PlanFailed,
            BuildStage::Executing => event is StreamsReady || event is StreamsFailed,
            BuildStage::Done => false,
        }
    }

    /// How a build goes on: `event` is answered with `action`, and the build then waits for what
    /// `stage` says.
    pub open spec fn goes_on(
        self,
        event: BuildEvent,
        stage: BuildStage,
        action: BuildAction,
    ) -> bool {
        match event {
            BuildEvent::Prepared(e) => build_prepares(
                self.stage->Preparing_0.after(e),
                stage,
                action,
            ),
            BuildEvent::PlanReady => {
                &&& stage == BuildStage::Executing
                &&& action == BuildAction::Execute
            },
            BuildEvent::StreamsReady => {
                &&& stage == BuildStage::Done
                &&& action == BuildAction::Share
            },
            BuildEvent::PlanFailed(failure) | BuildEvent::StreamsFailed(failure) => {
                &&& stage == BuildStage::Done
                &&& action matches BuildAction::Reject(rejection)
                &&& rejection.reports(
                    failure@,
                    session_steps(self.trace_id@) + slot_steps(self.edition, self.trace_id@),
                )
            },
        }
    }

    /// How many events a build can still wait for.
    pub open spec fn rank(self) -> nat {
        match self.stage {
            BuildStage::Done => 0,
            BuildStage::Executing => 1,
            BuildStage::Planned => 2,
            BuildStage::Preparing(prep) => 2 + prep.rank(),
        }
    }

    /// Begin to build the execution that is shared under `trace_id`.
    pub fn start(edition: Edition, trace_id: String, is_super_cluster: bool) -> (r: (
        SharedBuild,
        BuildAction,
    ))
        ensures
            r.0.wf(),
            r.0.edition == edition,
            r.0.trace_id@ == trace_id@,
            r.0.is_super_cluster == is_super_cluster,
            build_prepares(PlanPrep::initial(edition, is_super_cluster), r.0.stage, r.1),
    {
        let prep = PlanPrep::start(edition, is_super_cluster);
        (
            SharedBuild {
                edition,
                trace_id,
                is_super_cluster,
                stage: BuildStage::Preparing(prep),
            },
            BuildAction::Prepare(prep.awaiting),
        )
    }

    /// Take the answer to what the build waits for.
    pub fn step(&mut self, event: BuildEvent) -> (r: BuildAction)
        requires
            old(self).wf(),
            old(self).expects(event),
        ensures
            final(self).wf(),
            final(self).edition == old(self).edition,
            final(self).trace_id == old(self).trace_id,
            final(self).is_super_cluster == old(self).is_super_cluster,
            old(self).goes_on(event, final(self).stage, r),
    {
        match event {
            BuildEvent::Prepared(e) => {
                let mut prep = match self.stage {
                    BuildStage::Preparing(prep) => prep,
                    _ => PlanPrep::start(self.edition, self.is_super_cluster),
                };
                match prep.step(e) {
                    PrepAction::Finished => {
                        self.stage = BuildStage::Planned;
                        BuildAction::TakePlan
                    },
                    action => {
                        self.stage = BuildStage::Preparing(prep);
                        BuildAction::Prepare(action)
                    },
                }
            },
            BuildEvent::PlanReady => {
                self.stage = BuildStage::Executing;
                BuildAction::Execute
            },
            BuildEvent::StreamsReady => {
                self.stage = BuildStage::Done;
                BuildAction::Share
            },
            BuildEvent::PlanFailed(failure) | BuildEvent::StreamsFailed(failure) => {
                self.stage = BuildStage::Done;
                BuildAction::Reject(
                    Rejection::of_failed_search(&self.edition, self.trace_id.as_str(), failure),
                )
            },
        }
    }
}

/// Law: every build comes to its end, and it ends by sharing an execution or by a refusal that
/// clears the session first. Only an end does either.
pub proof fn law_build_ends_shared_or_cleaned_up(
    build: SharedBuild,
    event: BuildEvent,
    stage: BuildStage,
    action: BuildAction,
)
    requires
        build.wf(),
        build.expects(event),
        build.goes_on(event, stage, action),
    ensures
        (SharedBuild { stage, ..build }).rank() < build.rank(),
        stage == BuildStage::Done <==> action is Share || action is Reject,
        action matches BuildAction::Reject(rejection) ==> session_steps(
            build.trace_id@,
        ).is_prefix_of(crate::session::steps(rejection.cleanup@)),
{
    let cleared = session_steps(build.trace_id@);
    assert(cleared.is_prefix_of(cleared + slot_steps(build.edition, build.trace_id@)));
}

/// Law: a build begins with the preparation of its own search, and each success leads on: a plan to
/// its execution, and the streams to an execution that can be shared.
pub proof fn law_build_leads_to_a_shared_execution(
    edition: Edition,
    trace_id: String,
    is_super_cluster: bool,
    begun: (SharedBuild, BuildAction),
    build: SharedBuild,
    event: BuildEvent,
    stage: BuildStage,
    action: BuildAction,
)
    requires
        call_ensures(SharedBuild::start, (edition, trace_id, is_super_cluster), begun),
        build.goes_on(event, stage, action),
    ensures
        begun.0.trace_id@ == trace_id@,
        begun.0.edition == edition,
        begun.0.is_super_cluster == is_super_cluster,
        begun.1 == BuildAction::Prepare(
            if edition is Enterprise && is_super_cluster {
                PrepAction::FindTask
            } else {
                PrepAction::BuildPlan(PlanRoute::Search)
            },
        ),
        begun.0.stage matches BuildStage::Preparing(prep) && BuildAction::Prepare(prep.awaiting)
            == begun.1 && prep.edition == edition && prep.is_super_cluster == is_super_cluster,
        event is PlanReady ==> stage is Executing && action is Execute,
        event is StreamsReady ==> stage is Done && action is Share,
        event matches BuildEvent::Prepared(e) ==> {
            let next = build.stage->Preparing_0.next_action(e);
            if next is Finished {
                stage is Planned && action is TakePlan
            } else {
                &&& action == BuildAction::Prepare(next)
                &&& stage matches BuildStage::Preparing(prep) && prep == (PlanPrep {
                    awaiting: next,
                    ..build.stage->Preparing_0
                })
            }
        },
{
}

/// Law: a build that fails is refused as an internal failure with the failure's own text, after its
/// session was cleared, the file list first, and after its slot was given back, if the build of the
/// software hands out slots.
pub proof fn law_failed_build_is_undone(
    build: SharedBuild,
    event: BuildEvent,
    stage: BuildStage,
    action: BuildAction,
    failure: String,
)
    requires
        build.goes_on(event, stage, action),
        event == BuildEvent::PlanFailed(failure) || event == BuildEvent::StreamsFailed(failure),
    ensures
        stage is Done,
        action is Reject,
        action->Reject_0.status.code is Internal,
        action->Reject_0.status.message@ == failure@,
        ({
            let cleanup = action->Reject_0.cleanup@;
            let id = build.trace_id@;
            let slot = build.edition matches Edition::Enterprise(settings)
                && settings.max_nodes_per_query != 0;
            &&& cleanup.len() == (if slot { 3int } else { 2int })
            &&& cleanup[0] matches CleanupAction::ClearFileList(text) && text@ == id
            &&& cleanup[1] matches CleanupAction::ReleaseWal(text) && text@ == id
            &&& slot ==> (cleanup[2] matches CleanupAction::ReleaseSlot(text) && text@ == id)
        }),
{
    lemma_search_is_undone(action->Reject_0.cleanup@, build.edition, build.trace_id@);
}

/// Law: whatever a build asks for, every answer to it is taken, good or bad.
pub proof fn law_build_takes_every_answer(
    build: SharedBuild,
    event: BuildEvent,
    stage: BuildStage,
    action: BuildAction,
    failure: String,
    answer: PrepEvent,
)
    requires
        build.wf(),
        build.expects(event),
        build.goes_on(event, stage, action),
    ensures
        ({
            let next = SharedBuild { stage, ..build };
            &&& next.wf()
            &&& action is TakePlan ==> next.expects(BuildEvent::PlanReady) && next.expects(
                BuildEvent::PlanFailed(failure),
            )
            &&& action is Execute ==> next.expects(BuildEvent::StreamsReady) && next.expects(
                BuildEvent::StreamsFailed(failure),
            )
            &&& stage matches BuildStage::Preparing(prep) ==> (next.expects(
                BuildEvent::Prepared(answer),
            ) <==> prep.expects(answer))
        }),
{
}

} // verus!
