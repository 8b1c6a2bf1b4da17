//! The course of a `do_get` request.
//!
//! A request of a fan-out joins the execution that it shares, takes its group of streams and
//! encodes them; the shared execution owns the cleanup. Where the fan-out has been served, a request
//! whose group is empty by design is answered with an empty response, and any other is refused. A request that stands alone plans and
//! executes its search itself; until the encoder takes the cleanup over, a failure clears the
//! session on the spot.

use crate::group::{group_fits, group_hi, group_lo, group_range, group_range_fits};
use crate::planning::{PlanPrep, PlanRoute, PrepAction, PrepEvent};
use crate::request::{FlightSearchRequest, Job};
use crate::session::{clear_session_data, release_slot, session_steps, slot_steps, steps};
use crate::session::{lemma_search_is_undone, CleanupAction, CleanupStep, Edition};
use crate::shared::{already_taken_text, claim_of_finished};
use crate::status::{Code, FlightStatus};
use vstd::prelude::*;

verus! {

/// The size at which the encoder cuts a message, in bytes.
pub const MAX_MESSAGE_BYTES: usize = 33554432;

/// How the encoder of a response is set up.
#[derive(Debug)]
pub struct EncoderSettings {
    pub max_message_bytes: usize,
    pub trace_id: String,
    pub is_super: bool,
    /// The encoder leaves the session alone, because a shared execution ends it.
    pub skip_session_cleanup: bool,
    /// The response keeps its shared execution alive until its encoder has stopped.
    pub with_cleanup_guard: bool,
    /// The encoder gets the work-group lock of the plan, if the plan came with one.
    pub with_defer_lock: bool,
}

impl EncoderSettings {
    /// The settings that a response to `job` is encoded with. `guards` says that it holds a part of a
    /// shared execution.
    pub open spec fn suit(self, job: Job, guards: bool) -> bool {
        &&& self.max_message_bytes == MAX_MESSAGE_BYTES
        &&& self.trace_id@ == job.trace_id@
        &&& self.is_super == job.is_super_cluster
        &&& self.skip_session_cleanup == job.fans_out()
        &&& self.with_cleanup_guard == guards
        &&& self.with_defer_lock == !job.fans_out()
    }
}

/// A refusal, with what has to be undone before it is sent.
#[derive(Debug)]
pub struct Rejection {
    pub status: FlightStatus,
    pub cleanup: Vec<CleanupAction>,
}

impl Rejection {
    /// The rejection passes `status` on and undoes nothing.
    pub open spec fn passes_on(self, status: FlightStatus) -> bool {
        &&& self.status == status
        &&& steps(self.cleanup@) == Seq::<CleanupStep>::empty()
    }

    /// The rejection reports an internal failure after `cleanup`.
    pub open spec fn reports(self, failure: Seq<char>, cleanup: Seq<CleanupStep>) -> bool {
        &&& self.status.says(Code::Internal, failure)
        &&& steps(self.cleanup@) == cleanup
    }

    /// Pass a refusal on.
    pub fn pass_on(status: FlightStatus) -> (r: Rejection)
        ensures
            r.passes_on(status),
    {
        let r = Rejection { status, cleanup: Vec::new() };
        assert(steps(r.cleanup@) =~= Seq::<CleanupStep>::empty());
        r
    }

    /// Refuse a search that could not be planned or executed: clear its session, and give its slot
    /// back.
    pub fn of_failed_search(edition: &Edition, trace_id: &str, failure: String) -> (r: Rejection)
        ensures
            r.reports(failure@, session_steps(trace_id@) + slot_steps(*edition, trace_id@)),
    {
        let mut cleanup = clear_session_data(trace_id);
        let mut slot = release_slot(edition, trace_id);
        let ghost first = cleanup@;
        let ghost second = slot@;
        cleanup.append(&mut slot);
        assert(steps(cleanup@) =~= steps(first) + steps(second));
        Rejection { status: FlightStatus::internal(failure), cleanup }
    }
}

/// What a request waits for.
#[derive(Clone, Copy, Debug, PartialEq, Eq, Structural)]
pub enum Stage {
    /// The execution that the request shares.
    Joining,
    /// The request's group of that execution's streams.
    Claiming,
    /// Write options for that group.
    FanOutOptions,
    /// Write options for an empty response, because the fan-out has been served.
    ServedOptions,
    /// The preparation of the request's own search.
    Preparing(PlanPrep),
    /// The outcome of the planning.
    Planned,
    /// Write options for the request's own search.
    OwnOptions,
    /// The streams of the request's own search.
    Executing,
    /// The next batch of the response.
    Streaming,
    /// Nothing: the request is done with.
    Closed,
}

/// What a request is told.
pub enum DoGetEvent {
    SharedReady,
    /// All streams of the shared execution have been claimed; there were this many.
    SharedFinished(usize),
    SharedRefused(FlightStatus),
    GroupTaken,
    GroupRefused(FlightStatus),
    Prepared(PrepEvent),
    PlanReady,
    PlanFailed(String),
    OptionsReady,
    OptionsFailed(String),
    StreamsReady,
    StreamsFailed(String),
    Batch,
    StreamsEnded,
    TimedOut,
}

/// What a request does next.
#[derive(Debug)]
pub enum DoGetAction {
    /// Join the execution that is registered under the trace id, or build it.
    JoinShared,
    /// Take a group of the shared execution's streams, and its messages with it.
    TakeGroup { index: usize, count: usize },
    Prepare(PrepAction),
    /// Look at the outcome of the planning.
    TakePlan,
    MakeWriteOptions,
    /// Collect the messages for the leader, and execute the plan.
    Execute,
    /// Answer with a response that is encoded with these settings.
    Encode(EncoderSettings),
    /// Send the batch on.
    Forward,
    /// End the response.
    Finish,
    /// Undo what is to be undone, and refuse the request.
    Reject(Rejection),
}

/// A request under way.
pub struct DoGet {
    /// The build, with its settings as they were looked up last. They may be looked up again before
    /// any event.
    pub edition: Edition,
    pub job: Job,
    pub stage: Stage,
}

/// The preparation asks for `prep.awaiting`, or has finished and the outcome is looked at.
pub open spec fn prepares(prep: PlanPrep, stage: Stage, action: DoGetAction) -> bool {
    if prep.awaiting == PrepAction::Finished {
        stage == Stage::Planned && action == DoGetAction::TakePlan
    } else {
        stage == Stage::Preparing(prep) && action == DoGetAction::Prepare(prep.awaiting)
    }
}

impl DoGet {
    /// The stages of a shared execution belong to the requests of a fan-out, and the stages of a
    /// search of one's own to the others.
    pub open spec fn wf(self) -> bool {
        match self.stage {
            Stage::Joining | Stage::Claiming | Stage::FanOutOptions | Stage::ServedOptions =>
                self.job.fans_out(),
            Stage::Preparing(prep) => !self.job.fans_out() && prep.awaiting != PrepAction::Finished,
            Stage::Planned | Stage::OwnOptions | Stage::Executing => !self.job.fans_out(),
            Stage::Streaming | Stage::Closed => true,
        }
    }

    /// The event answers what the request waits for.
    pub open spec fn expects(self, event: DoGetEvent) -> bool {
        match self.stage {
            Stage::Joining => match event {
                DoGetEvent::SharedReady | DoGetEvent::SharedRefused(_) => true,
                DoGetEvent::SharedFinished(streams) => group_fits(
                    streams as nat,
                    self.job.doget_index as nat,
                    self.job.doget_count as nat,
                ),
                _ => false,
            },
            Stage::Claiming => event is GroupTaken || event is GroupRefused,
            Stage::FanOutOptions | Stage::ServedOptions | Stage::OwnOptions => event is OptionsReady
                || event is OptionsFailed,
            Stage::Preparing(prep) => event matches DoGetEvent::Prepared(e) && prep.expects(e),
            Stage::Planned => event is PlanReady || event is PlanFailed,
            Stage::Executing => event is StreamsReady || event is StreamsFailed,
            Stage::Streaming => event is Batch || event is StreamsEnded || event is TimedOut,
            Stage::Closed => false,
        }
    }

    /// How a request begins.
    pub open spec fn begins(self, action: DoGetAction) -> bool {
        if self.job.fans_out() {
            self.stage == Stage::Joining && action == DoGetAction::JoinShared
        } else {
            prepares(
                PlanPrep::initial(self.edition, self.job.is_super_cluster),
                self.stage,
                action,
            )
        }
    }

    /// How a request goes on: `event` is answered with `action`, and the request then waits for
    /// what `stage` says.
    pub open spec fn goes_on(self, event: DoGetEvent, stage: Stage, action: DoGetAction) -> bool {
        let trace_id = self.job.trace_id@;
        match event {
            DoGetEvent::SharedReady => {
                &&& stage == Stage::Claiming
                &&& action == DoGetAction::TakeGroup {
                    index: self.job.doget_index,
                    count: self.job.doget_count,
                }
            },
            DoGetEvent::SharedFinished(streams) => {
                let index = self.job.doget_index as nat;
                let count = self.job.doget_count as nat;
                if group_lo(streams as nat, index, count) == group_hi(
                    streams as nat,
                    index,
                    count,
                ) {
                    &&& stage == Stage::ServedOptions
                    &&& action == DoGetAction::MakeWriteOptions
                } else {
                    &&& stage == Stage::Closed
                    &&& action matches DoGetAction::Reject(rejection)
                    &&& rejection.reports(
                        already_taken_text(trace_id, index, count),
                        Seq::empty(),
                    )
                }
            },
            DoGetEvent::GroupTaken => {
                &&& stage == Stage::FanOutOptions
                &&& action == DoGetAction::MakeWriteOptions
            },
            DoGetEvent::SharedRefused(status) | DoGetEvent::GroupRefused(status) => {
                &&& stage == Stage::Closed
                &&& action matches DoGetAction::Reject(rejection)
                &&& rejection.passes_on(status)
            },
            DoGetEvent::Prepared(e) => prepares(self.stage->Preparing_0.after(e), stage, action),
            DoGetEvent::PlanReady => {
                &&& stage == Stage::OwnOptions
                &&& action == DoGetAction::MakeWriteOptions
            },
            DoGetEvent::OptionsReady => if self.job.fans_out() {
                &&& stage == Stage::Streaming
                &&& action matches DoGetAction::Encode(settings)
                &&& settings.suit(self.job, self.stage == Stage::FanOutOptions)
            } else {
                &&& stage == Stage::Executing
                &&& action == DoGetAction::Execute
            },
            DoGetEvent::OptionsFailed(failure) => {
                &&& stage == Stage::Closed
                &&& action matches DoGetAction::Reject(rejection)
                &&& rejection.reports(
                    failure@,
                    if self.job.fans_out() {
                        Seq::empty()
                    } else {
                        session_steps(trace_id)
                    },
                )
            },
            DoGetEvent::PlanFailed(failure) | DoGetEvent::StreamsFailed(failure) => {
                &&& stage == Stage::Closed
                &&& action matches DoGetAction::Reject(rejection)
                &&& rejection.reports(
                    failure@,
                    session_steps(trace_id) + slot_steps(self.edition, trace_id),
                )
            },
            DoGetEvent::StreamsReady => {
                &&& stage == Stage::Streaming
                &&& action matches DoGetAction::Encode(settings)
                &&& settings.suit(self.job, false)
            },
            DoGetEvent::Batch => {
                &&& stage == Stage::Streaming
                &&& action == DoGetAction::Forward
            },
            DoGetEvent::StreamsEnded | DoGetEvent::TimedOut => {
                &&& stage == Stage::Closed
                &&& action == DoGetAction::Finish
            },
        }
    }

    /// Begin to answer a request. A request of a fan-out shares an execution, whatever else this
    /// node is set to; a request that stands alone has one of its own.
    pub fn start(edition: Edition, req: &FlightSearchRequest) -> (r: (DoGet, DoGetAction))
        ensures
            r.0.wf(),
            r.0.edition == edition,
            r.0.job.reads(*req),
            r.0.begins(r.1),
    {
        let job = Job::of_request(req);
        if job.doget_count > 1 {
            (DoGet { edition, job, stage: Stage::Joining }, DoGetAction::JoinShared)
        } else {
            let prep = PlanPrep::start(edition, job.is_super_cluster);
            (
                DoGet { edition, job, stage: Stage::Preparing(prep) },
                DoGetAction::Prepare(prep.awaiting),
            )
        }
    }

    /// Take the answer to what the request waits for.
    pub fn step(&mut self, event: DoGetEvent) -> (r: DoGetAction)
        requires
            old(self).wf(),
            old(self).expects(event),
        ensures
            final(self).wf(),
            final(self).edition == old(self).edition,
            final(self).job == old(self).job,
            old(self).goes_on(event, final(self).stage, r),
    {
        let fans_out = self.job.doget_count > 1;
        match event {
            DoGetEvent::SharedReady => {
                self.stage = Stage::Claiming;
                DoGetAction::TakeGroup { index: self.job.doget_index, count: self.job.doget_count }
            },
            DoGetEvent::SharedFinished(streams) => {
                match claim_of_finished(
                    self.job.trace_id.as_str(),
                    streams,
                    self.job.doget_index,
                    self.job.doget_count,
                ) {
                    Ok(_) => {
                        self.stage = Stage::ServedOptions;
                        DoGetAction::MakeWriteOptions
                    },
                    Err(status) => {
                        self.stage = Stage::Closed;
                        DoGetAction::Reject(Rejection::pass_on(status))
                    },
                }
            },
            DoGetEvent::GroupTaken => {
                self.stage = Stage::FanOutOptions;
                DoGetAction::MakeWriteOptions
            },
            DoGetEvent::SharedRefused(status) | DoGetEvent::GroupRefused(status) => {
                self.stage = Stage::Closed;
                DoGetAction::Reject(Rejection::pass_on(status))
            },
            DoGetEvent::Prepared(e) => {
                let mut prep = match self.stage {
                    Stage::Preparing(prep) => prep,
                    _ => PlanPrep::start(self.edition, self.job.is_super_cluster),
                };
                match prep.step(e) {
                    PrepAction::Finished => {
                        self.stage = Stage::Planned;
                        DoGetAction::TakePlan
                    },
                    action => {
                        self.stage = Stage::Preparing(prep);
                        DoGetAction::Prepare(action)
                    },
                }
            },
            DoGetEvent::PlanReady => {
                self.stage = Stage::OwnOptions;
                DoGetAction::MakeWriteOptions
            },
            DoGetEvent::OptionsReady => if fans_out {
                let guards = self.stage == Stage::FanOutOptions;
                self.stage = Stage::Streaming;
                DoGetAction::Encode(self.encoder_settings(guards))
            } else {
                self.stage = Stage::Executing;
                DoGetAction::Execute
            },
            DoGetEvent::OptionsFailed(failure) => {
                self.stage = Stage::Closed;
                let status = FlightStatus::internal(failure);
                if fans_out {
                    DoGetAction::Reject(Rejection::pass_on(status))
                } else {
                    DoGetAction::Reject(
                        Rejection {
                            status,
                            cleanup: clear_session_data(self.job.trace_id.as_str()),
                        },
                    )
                }
            },
            DoGetEvent::PlanFailed(failure) | DoGetEvent::StreamsFailed(failure) => {
                self.stage = Stage::Closed;
                DoGetAction::Reject(
                    Rejection::of_failed_search(
                        &self.edition,
                        self.job.trace_id.as_str(),
                        failure,
                    ),
                )
            },
            DoGetEvent::StreamsReady => {
                self.stage = Stage::Streaming;
                DoGetAction::Encode(self.encoder_settings(false))
            },
            DoGetEvent::Batch => {
                self.stage = Stage::Streaming;
                DoGetAction::Forward
            },
            DoGetEvent::StreamsEnded | DoGetEvent::TimedOut => {
                self.stage = Stage::Closed;
                DoGetAction::Finish
            },
        }
    }

    /// The settings that the response is encoded with.
    fn encoder_settings(&self, guards: bool) -> (r: EncoderSettings)
        ensures
            r.suit(self.job, guards),
    {
        let fans_out = self.job.doget_count > 1;
        EncoderSettings {
            max_message_bytes: MAX_MESSAGE_BYTES,
            trace_id: self.job.trace_id.clone(),
            is_super: self.job.is_super_cluster,
            skip_session_cleanup: fans_out,
            with_cleanup_guard: guards,
            with_defer_lock: !fans_out,
        }
    }
}

/// A request when event `i` comes: it waits for what `stages[i]` says, and the settings are those
/// of `editions[i]`.
pub open spec fn at(first: DoGet, editions: Seq<Edition>, stages: Seq<Stage>, i: int) -> DoGet {
    DoGet { edition: editions[i], stage: stages[i], ..first }
}

/// A request that has gone through `events`: it did `actions[i]` on `events[i]`.
pub open spec fn is_run(
    first: DoGet,
    editions: Seq<Edition>,
    events: Seq<DoGetEvent>,
    stages: Seq<Stage>,
    actions: Seq<DoGetAction>,
) -> bool {
    &&& first.wf()
    &&& editions.len() == events.len()
    &&& stages.len() == events.len() + 1
    &&& actions.len() == events.len()
    &&& stages[0] == first.stage
    &&& forall|i: int|
        0 <= i < events.len() ==> {
            &&& (#[trigger] at(first, editions, stages, i)).expects(events[i])
            &&& at(first, editions, stages, i).goes_on(events[i], stages[i + 1], actions[i])
        }
}

/// The request has been answered, with a response or with a refusal.
pub open spec fn is_answered(stage: Stage) -> bool {
    stage == Stage::Streaming || stage == Stage::Closed
}

/// The action answers the request.
pub open spec fn answers(action: DoGetAction) -> bool {
    action is Encode || action is Reject
}

/// How many events a request can still wait for, batches aside.
pub open spec fn rank(stage: Stage) -> nat {
    match stage {
        Stage::Closed => 0,
        Stage::Streaming => 1,
        Stage::FanOutOptions | Stage::ServedOptions | Stage::Executing => 2,
        Stage::Claiming | Stage::OwnOptions => 3,
        Stage::Joining | Stage::Planned => 4,
        Stage::Preparing(prep) => 4 + prep.rank(),
    }
}

/// A request stays in the stages of its kind.
proof fn lemma_stays_wf(
    first: DoGet,
    editions: Seq<Edition>,
    events: Seq<DoGetEvent>,
    stages: Seq<Stage>,
    actions: Seq<DoGetAction>,
    i: int,
)
    requires
        is_run(first, editions, events, stages, actions),
        0 <= i < stages.len(),
    ensures
        at(first, editions, stages, i).wf(),
    decreases i,
{
    if i > 0 {
        lemma_stays_wf(first, editions, events, stages, actions, i - 1);
        let before = at(first, editions, stages, i - 1);
        assert(before.expects(events[i - 1]));
    }
}

/// Law: every event but a batch brings a request nearer to its end, where it waits for nothing.
pub proof fn law_request_ends(request: DoGet, event: DoGetEvent, stage: Stage, action: DoGetAction)
    requires
        request.wf(),
        request.expects(event),
        request.goes_on(event, stage, action),
    ensures
        event is Batch ==> stage == request.stage && action == DoGetAction::Forward,
        !(event is Batch) ==> rank(stage) < rank(request.stage),
{
}

/// Law: a request of a fan-out never runs a search of its own, which would multiply the leader's
/// data; it takes a part of the shared execution. A request that stands alone never takes a part
/// of a shared execution.
pub proof fn law_fan_out_shares_one_execution(
    first: DoGet,
    editions: Seq<Edition>,
    events: Seq<DoGetEvent>,
    stages: Seq<Stage>,
    actions: Seq<DoGetAction>,
    i: int,
)
    requires
        is_run(first, editions, events, stages, actions),
        0 <= i < events.len(),
    ensures
        first.job.fans_out() ==> !(actions[i] is Prepare || actions[i] is TakePlan
            || actions[i] is Execute),
        actions[i] is TakeGroup ==> first.job.fans_out() && actions[i] == (DoGetAction::TakeGroup {
            index: first.job.doget_index,
            count: first.job.doget_count,
        }),
{
    lemma_stays_wf(first, editions, events, stages, actions, i);
    assert(at(first, editions, stages, i).expects(events[i]));
}

/// A request that has been answered stays so.
proof fn lemma_stays_answered(
    first: DoGet,
    editions: Seq<Edition>,
    events: Seq<DoGetEvent>,
    stages: Seq<Stage>,
    actions: Seq<DoGetAction>,
    i: int,
    j: int,
)
    requires
        is_run(first, editions, events, stages, actions),
        0 <= i <= j < stages.len(),
        is_answered(stages[i]),
    ensures
        is_answered(stages[j]),
    decreases j,
{
    if i < j {
        lemma_stays_answered(first, editions, events, stages, actions, i, j - 1);
        assert(at(first, editions, stages, j - 1).expects(events[j - 1]));
    }
}

/// Law: a request is answered at most once. Behind a response come only batches and its end, and
/// behind a refusal comes nothing.
pub proof fn law_request_is_answered_at_most_once(
    first: DoGet,
    editions: Seq<Edition>,
    events: Seq<DoGetEvent>,
    stages: Seq<Stage>,
    actions: Seq<DoGetAction>,
    i: int,
    j: int,
)
    requires
        is_run(first, editions, events, stages, actions),
        0 <= i < j < events.len(),
        answers(actions[i]),
    ensures
        actions[i] is Encode,
        actions[j] is Forward || actions[j] is Finish,
{
    lemma_stays_wf(first, editions, events, stages, actions, i);
    assert(at(first, editions, stages, i).expects(events[i]));
    assert(is_answered(stages[i + 1]));
    lemma_stays_answered(first, editions, events, stages, actions, i + 1, j);
    assert(at(first, editions, stages, j).expects(events[j]));
    if actions[i] is Reject {
        assert(stages[i + 1] == Stage::Closed);
        assert(at(first, editions, stages, i + 1).expects(events[i + 1]));
    }
}

/// Law: a request that is done with has been answered.
pub proof fn law_closed_request_was_answered(
    first: DoGet,
    editions: Seq<Edition>,
    events: Seq<DoGetEvent>,
    stages: Seq<Stage>,
    actions: Seq<DoGetAction>,
)
    requires
        is_run(first, editions, events, stages, actions),
        !is_answered(first.stage),
        stages.last() == Stage::Closed,
    ensures
        exists|i: int| 0 <= i < events.len() && #[trigger] answers(actions[i]),
{
    lemma_some_action_answers(first, editions, events, stages, actions, events.len() as int);
}

/// Where a request has come to be answered, one of its actions answered it.
proof fn lemma_some_action_answers(
    first: DoGet,
    editions: Seq<Edition>,
    events: Seq<DoGetEvent>,
    stages: Seq<Stage>,
    actions: Seq<DoGetAction>,
    n: int,
)
    requires
        is_run(first, editions, events, stages, actions),
        !is_answered(first.stage),
        0 <= n < stages.len(),
        is_answered(stages[n]),
    ensures
        exists|i: int| 0 <= i < n && #[trigger] answers(actions[i]),
    decreases n,
{
    if is_answered(stages[n - 1]) {
        lemma_some_action_answers(first, editions, events, stages, actions, n - 1);
    } else {
        lemma_stays_wf(first, editions, events, stages, actions, n - 1);
        assert(at(first, editions, stages, n - 1).expects(events[n - 1]));
        assert(answers(actions[n - 1]));
    }
}

/// Law: whoever answers a request sees to its session. A refusal of a search of one's own clears
/// the session on the spot, and a response to it leaves that to its encoder. The requests of a
/// fan-out leave the session alone, for the shared execution ends it: their refusals undo nothing,
/// and their encoders skip the cleanup. An encoder keeps the shared execution alive exactly where
/// the request has taken a group of it.
pub proof fn law_every_answer_sees_to_the_session(
    first: DoGet,
    editions: Seq<Edition>,
    events: Seq<DoGetEvent>,
    stages: Seq<Stage>,
    actions: Seq<DoGetAction>,
    i: int,
)
    requires
        is_run(first, editions, events, stages, actions),
        0 <= i < events.len(),
    ensures
        actions[i] matches DoGetAction::Encode(settings) ==> {
            &&& settings.skip_session_cleanup <==> first.job.fans_out()
            &&& settings.with_cleanup_guard <==> stages[i] == Stage::FanOutOptions
        },
        actions[i] matches DoGetAction::Reject(rejection) ==> {
            let cleared = session_steps(first.job.trace_id@);
            if first.job.fans_out() {
                steps(rejection.cleanup@) == Seq::<CleanupStep>::empty()
            } else {
                cleared.is_prefix_of(steps(rejection.cleanup@))
            }
        },
{
    lemma_stays_wf(first, editions, events, stages, actions, i);
    assert(at(first, editions, stages, i).expects(events[i]));
    let cleared = session_steps(first.job.trace_id@);
    assert(cleared.is_prefix_of(cleared));
    assert(cleared.is_prefix_of(cleared + slot_steps(editions[i], first.job.trace_id@)));
}

/// Law: a request shares an execution exactly where the leader has split the job, whatever the build
/// and its settings. The number that decides is the one in the request. A request that stands alone
/// plans its search, and only a leader of followers in an enterprise build asks the work groups
/// first.
pub proof fn law_split_jobs_share(
    edition: Edition,
    req: FlightSearchRequest,
    r: (DoGet, DoGetAction),
)
    requires
        call_ensures(DoGet::start, (edition, &req), r),
    ensures
        r.1 is JoinShared <==> req.query_identifier.doget_count > 1,
        r.0.stage is Joining <==> req.query_identifier.doget_count > 1,
        req.query_identifier.doget_count <= 1 ==> {
            let first = if edition is Enterprise && req.super_cluster_info.is_super_cluster {
                PrepAction::FindTask
            } else {
                PrepAction::BuildPlan(PlanRoute::Search)
            };
            &&& r.1 == DoGetAction::Prepare(first)
            &&& r.0.stage matches Stage::Preparing(prep) && prep == (PlanPrep {
                edition,
                is_super_cluster: req.super_cluster_info.is_super_cluster,
                awaiting: first,
            })
        },
        r.0.edition == edition,
        r.0.job.doget_count == req.query_identifier.doget_count,
        r.0.job.doget_index == req.query_identifier.doget_index,
        r.0.job.is_super_cluster == req.super_cluster_info.is_super_cluster,
        r.0.job.is_analyze == req.search_info.is_analyze,
        req.search_info.timeout >= 0 ==> r.0.job.timeout_secs == req.search_info.timeout,
        r.0.job.trace_id@ == req.query_identifier.trace_id@.push('-')
            + req.query_identifier.job_id@,
{
    reveal_strlit("-");
    assert(req.query_identifier.trace_id@ + "-"@ =~= req.query_identifier.trace_id@.push('-'));
}

/// Law: a request of a split job never prepares, plans or executes a search, and one of an unsplit
/// job never takes a part of a shared execution. The number of requests decides, and nothing else.
pub proof fn law_split_request_runs_no_search(
    first: DoGet,
    editions: Seq<Edition>,
    events: Seq<DoGetEvent>,
    stages: Seq<Stage>,
    actions: Seq<DoGetAction>,
    i: int,
)
    requires
        is_run(first, editions, events, stages, actions),
        0 <= i < events.len(),
    ensures
        first.job.doget_count > 1 ==> !(actions[i] is Prepare) && !(actions[i] is TakePlan) && !(
        actions[i] is Execute),
        first.job.doget_count <= 1 ==> !(actions[i] is TakeGroup),
        !(actions[i] is JoinShared),
{
    lemma_stays_wf(first, editions, events, stages, actions, i);
    assert(at(first, editions, stages, i).expects(events[i]));
}

/// Law: a response to a request of a split job is a share. It comes right after the request has
/// taken the group that it asked for by its own index and count, or after it was told that the
/// fan-out had been served.
pub proof fn law_split_response_is_a_share(
    first: DoGet,
    editions: Seq<Edition>,
    events: Seq<DoGetEvent>,
    stages: Seq<Stage>,
    actions: Seq<DoGetAction>,
    i: int,
)
    requires
        is_run(first, editions, events, stages, actions),
        first.stage is Joining,
        0 <= i < events.len(),
        actions[i] is Encode,
    ensures
        first.job.doget_count > 1,
        i >= 1,
        events[i - 1] is SharedFinished || events[i - 1] is GroupTaken,
        events[i - 1] is GroupTaken ==> i >= 2 && actions[i - 2] == (DoGetAction::TakeGroup {
            index: first.job.doget_index,
            count: first.job.doget_count,
        }),
        actions[i]->Encode_0.with_cleanup_guard <==> events[i - 1] is GroupTaken,
{
    lemma_stays_wf(first, editions, events, stages, actions, 0);
    lemma_stays_wf(first, editions, events, stages, actions, i);
    assert(at(first, editions, stages, i).expects(events[i]));
    assert(stages[i] is FanOutOptions || stages[i] is ServedOptions);
    lemma_stays_wf(first, editions, events, stages, actions, i - 1);
    assert(at(first, editions, stages, i - 1).expects(events[i - 1]));
    if events[i - 1] is GroupTaken {
        assert(stages[i - 1] is Claiming);
        lemma_stays_wf(first, editions, events, stages, actions, i - 2);
        assert(at(first, editions, stages, i - 2).expects(events[i - 2]));
    }
}

/// Law: a response to a request that stands alone comes right after its plan was executed into
/// streams, and that after the plan and the write options were made.
pub proof fn law_own_response_is_executed(
    first: DoGet,
    editions: Seq<Edition>,
    events: Seq<DoGetEvent>,
    stages: Seq<Stage>,
    actions: Seq<DoGetAction>,
    i: int,
)
    requires
        is_run(first, editions, events, stages, actions),
        first.stage is Preparing,
        0 <= i < events.len(),
        actions[i] is Encode,
    ensures
        first.job.doget_count <= 1,
        i >= 3,
        events[i] is StreamsReady,
        events[i - 1] is OptionsReady && actions[i - 1] is Execute,
        events[i - 2] is PlanReady && actions[i - 2] is MakeWriteOptions,
        actions[i - 3] is TakePlan,
{
    lemma_stays_wf(first, editions, events, stages, actions, 0);
    lemma_stays_wf(first, editions, events, stages, actions, i);
    assert(at(first, editions, stages, i).expects(events[i]));
    assert(stages[i] is Executing);
    lemma_stays_wf(first, editions, events, stages, actions, i - 1);
    assert(at(first, editions, stages, i - 1).expects(events[i - 1]));
    assert(stages[i - 1] is OwnOptions);
    lemma_stays_wf(first, editions, events, stages, actions, i - 2);
    assert(at(first, editions, stages, i - 2).expects(events[i - 2]));
    assert(stages[i - 2] is Planned);
    lemma_stays_wf(first, editions, events, stages, actions, i - 3);
    assert(at(first, editions, stages, i - 3).expects(events[i - 3]));
}

/// Law: a refusal of the shared execution reaches the leader as it is, and undoes nothing.
pub proof fn law_shared_refusals_are_passed_on(
    request: DoGet,
    event: DoGetEvent,
    stage: Stage,
    action: DoGetAction,
    status: FlightStatus,
)
    requires
        request.goes_on(event, stage, action),
        event == DoGetEvent::SharedRefused(status) || event == DoGetEvent::GroupRefused(status),
    ensures
        stage is Closed,
        action matches DoGetAction::Reject(rejection) && rejection.status == status
            && rejection.cleanup@.len() == 0,
{
    assert(steps(action->Reject_0.cleanup@).len() == action->Reject_0.cleanup@.len());
}

/// Law: a search that could not be planned or executed is refused as an internal failure with the
/// failure's own text, after its session was cleared, the file list first, and after its slot was
/// given back, if the build hands out slots.
pub proof fn law_failed_search_is_undone(
    request: DoGet,
    event: DoGetEvent,
    stage: Stage,
    action: DoGetAction,
    failure: String,
)
    requires
        request.goes_on(event, stage, action),
        event == DoGetEvent::PlanFailed(failure) || event == DoGetEvent::StreamsFailed(failure),
    ensures
        stage is Closed,
        action is Reject,
        action->Reject_0.status.code is Internal,
        action->Reject_0.status.message@ == failure@,
        ({
            let cleanup = action->Reject_0.cleanup@;
            let id = request.job.trace_id@;
            let slot = request.edition matches Edition::Enterprise(settings)
                && settings.max_nodes_per_query != 0;
            &&& cleanup.len() == (if slot { 3int } else { 2int })
            &&& cleanup[0] matches CleanupAction::ClearFileList(text) && text@ == id
            &&& cleanup[1] matches CleanupAction::ReleaseWal(text) && text@ == id
            &&& slot ==> (cleanup[2] matches CleanupAction::ReleaseSlot(text) && text@ == id)
        }),
{
    lemma_search_is_undone(
        action->Reject_0.cleanup@,
        request.edition,
        request.job.trace_id@,
    );
}

/// Law: without write options a request is refused as an internal failure with the failure's own
/// text. A request that stands alone has its session cleared, and keeps its slot; one of a split job
/// undoes nothing.
pub proof fn law_failed_options_clear_an_own_session(
    request: DoGet,
    stage: Stage,
    action: DoGetAction,
    failure: String,
)
    requires
        request.goes_on(DoGetEvent::OptionsFailed(failure), stage, action),
    ensures
        stage is Closed,
        action is Reject,
        action->Reject_0.status.code is Internal,
        action->Reject_0.status.message@ == failure@,
        request.job.doget_count > 1 ==> action->Reject_0.cleanup@.len() == 0,
        request.job.doget_count <= 1 ==> {
            let cleanup = action->Reject_0.cleanup@;
            let id = request.job.trace_id@;
            &&& cleanup.len() == 2
            &&& cleanup[0] matches CleanupAction::ClearFileList(text) && text@ == id
            &&& cleanup[1] matches CleanupAction::ReleaseWal(text) && text@ == id
        },
{
    let cleanup = action->Reject_0.cleanup@;
    assert(steps(cleanup).len() == cleanup.len());
    if cleanup.len() == 2 {
        assert(steps(cleanup)[0] == cleanup[0]@ && steps(cleanup)[1] == cleanup[1]@);
    }
}

/// Law: a request of a served fan-out whose range of the streams is not empty is refused, with a
/// text that names the trace id, the index and the count; one whose range is empty goes on to an
/// empty response.
pub proof fn law_served_fan_out_refuses_by_range(
    request: DoGet,
    streams: usize,
    range: (usize, usize),
    stage: Stage,
    action: DoGetAction,
)
    requires
        request.goes_on(DoGetEvent::SharedFinished(streams), stage, action),
        call_ensures(
            group_range,
            (streams, request.job.doget_index, request.job.doget_count),
            range,
        ),
    ensures
        range.0 == range.1 ==> stage is ServedOptions && action is MakeWriteOptions,
        range.0 < range.1 ==> {
            &&& stage is Closed
            &&& action matches DoGetAction::Reject(rejection) && rejection.status.code is Internal
                && rejection.status.message@ == already_taken_text(
                request.job.trace_id@,
                request.job.doget_index as nat,
                request.job.doget_count as nat,
            ) && rejection.cleanup@.len() == 0
        },
{
    if range.0 < range.1 {
        assert(steps(action->Reject_0.cleanup@).len() == action->Reject_0.cleanup@.len());
    }
}

/// Law: every response is encoded in messages of 32 MiB at most, under the request's trace id. Only
/// a request that stands alone hands its lock to the encoder, and only its encoder cleans up.
pub proof fn law_encoders_are_set_up_for_their_request(
    request: DoGet,
    event: DoGetEvent,
    stage: Stage,
    action: DoGetAction,
)
    requires
        request.wf(),
        request.expects(event),
        request.goes_on(event, stage, action),
        action is Encode,
    ensures
        stage is Streaming,
        action->Encode_0.max_message_bytes == 32 * 1024 * 1024,
        action->Encode_0.trace_id@ == request.job.trace_id@,
        action->Encode_0.is_super == request.job.is_super_cluster,
        action->Encode_0.skip_session_cleanup <==> request.job.doget_count > 1,
        action->Encode_0.with_defer_lock <==> request.job.doget_count <= 1,
        action->Encode_0.with_cleanup_guard <==> request.stage is FanOutOptions,
{
}

/// Law: each success leads on to what comes next. A shared execution leads to the request's own
/// group, a group or a plan to the write options, and these to the response or, for a search of
/// one's own, to its execution and then to the response. A batch is sent on and the response stays
/// open; its end, or the end of its time, closes it.
pub proof fn law_successes_lead_on(
    request: DoGet,
    event: DoGetEvent,
    stage: Stage,
    action: DoGetAction,
)
    requires
        request.goes_on(event, stage, action),
    ensures
        event is SharedReady ==> stage is Claiming && action == (DoGetAction::TakeGroup {
            index: request.job.doget_index,
            count: request.job.doget_count,
        }),
        event is GroupTaken ==> stage is FanOutOptions && action is MakeWriteOptions,
        event is PlanReady ==> stage is OwnOptions && action is MakeWriteOptions,
        event is OptionsReady && request.job.doget_count > 1 ==> stage is Streaming
            && action is Encode,
        event is OptionsReady && request.job.doget_count <= 1 ==> stage is Executing
            && action is Execute,
        event is StreamsReady ==> stage is Streaming && action is Encode,
        event is Batch ==> stage is Streaming && action is Forward,
        event is StreamsEnded || event is TimedOut ==> stage is Closed && action is Finish,
        event matches DoGetEvent::Prepared(e) ==> {
            let next = request.stage->Preparing_0.next_action(e);
            if next is Finished {
                stage is Planned && action is TakePlan
            } else {
                &&& action == DoGetAction::Prepare(next)
                &&& stage matches Stage::Preparing(prep) && prep == (PlanPrep {
                    awaiting: next,
                    ..request.stage->Preparing_0
                })
            }
        },
{
}

/// Law: whatever a request asks for, every answer to it is taken, good or bad.
pub proof fn law_every_answer_is_taken(
    request: DoGet,
    event: DoGetEvent,
    stage: Stage,
    action: DoGetAction,
    failure: String,
    status: FlightStatus,
    answer: PrepEvent,
)
    requires
        request.wf(),
        request.expects(event),
        request.goes_on(event, stage, action),
    ensures
        ({
            let next = DoGet { stage, ..request };
            &&& next.wf()
            &&& action is TakeGroup ==> next.expects(DoGetEvent::GroupTaken) && next.expects(
                DoGetEvent::GroupRefused(status),
            )
            &&& action is MakeWriteOptions ==> next.expects(DoGetEvent::OptionsReady)
                && next.expects(DoGetEvent::OptionsFailed(failure))
            &&& action is TakePlan ==> next.expects(DoGetEvent::PlanReady) && next.expects(
                DoGetEvent::PlanFailed(failure),
            )
            &&& action is Execute ==> next.expects(DoGetEvent::StreamsReady) && next.expects(
                DoGetEvent::StreamsFailed(failure),
            )
            &&& action is Encode || action is Forward ==> next.expects(DoGetEvent::Batch)
                && next.expects(DoGetEvent::StreamsEnded) && next.expects(DoGetEvent::TimedOut)
            &&& stage matches Stage::Preparing(prep) ==> (next.expects(DoGetEvent::Prepared(answer))
                <==> prep.expects(answer))
        }),
{
}

/// Law: a request that joins a shared execution takes every answer: the execution, a refusal, or
/// the word that the fan-out was served, for any number of streams that its group can be computed
/// for.
pub proof fn law_every_answer_to_a_join_is_taken(
    request: DoGet,
    status: FlightStatus,
    streams: usize,
)
    requires
        request.stage is Joining,
    ensures
        request.expects(DoGetEvent::SharedReady),
        request.expects(DoGetEvent::SharedRefused(status)),
        request.expects(DoGetEvent::SharedFinished(streams)) ==> call_requires(
            group_range,
            (streams, request.job.doget_index, request.job.doget_count),
        ),
        call_ensures(
            group_range_fits,
            (streams, request.job.doget_index, request.job.doget_count),
            true,
        ) ==> request.expects(DoGetEvent::SharedFinished(streams)),
{
}

} // verus!
