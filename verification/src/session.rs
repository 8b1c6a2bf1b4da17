//! The session that a search opens on the follower, and how it is closed.

use vstd::prelude::*;

verus! {

/// The settings of an enterprise build that the follower's decisions depend on.
#[derive(Clone, Copy, Debug, PartialEq, Eq, Structural)]
pub struct EnterpriseSettings {
    /// Whether this node is part of a super cluster.
    pub super_cluster_enabled: bool,
    /// The admission limit of a query, in nodes; zero switches admission off.
    pub max_nodes_per_query: u64,
}

/// The build that the follower runs as.
#[derive(Clone, Copy, Debug, PartialEq, Eq, Structural)]
pub enum Edition {
    OpenSource,
    Enterprise(EnterpriseSettings),
}

impl Edition {
    /// Queries hold an admission slot that has to be given back.
    pub open spec fn admits(self) -> bool {
        match self {
            Edition::OpenSource => false,
            Edition::Enterprise(settings) => settings.max_nodes_per_query > 0,
        }
    }

    /// Whether queries hold an admission slot.
    pub fn holds_slots(&self) -> (r: bool)
        ensures
            r == self.admits(),
    {
        match self {
            Edition::OpenSource => false,
            Edition::Enterprise(settings) => settings.max_nodes_per_query > 0,
        }
    }
}

/// Whether this node is part of a super cluster. An open-source build never is.
pub fn super_cluster_enabled(edition: &Edition) -> (r: bool)
    ensures
        r <==> (edition matches Edition::Enterprise(settings) && settings.super_cluster_enabled),
{
    match edition {
        Edition::OpenSource => false,
        Edition::Enterprise(settings) => settings.super_cluster_enabled,
    }
}

/// One thing to undo when a search ends.
#[derive(Debug, PartialEq, Eq)]
pub enum CleanupAction {
    /// Forget the file list that the search was given.
    ClearFileList(String),
    /// Unlock the write-ahead-log files that the search had locked.
    ReleaseWal(String),
    /// Give the admission slot of the search back.
    ReleaseSlot(String),
}

/// A cleanup action with its trace id as text.
pub enum CleanupStep {
    ClearFileList(Seq<char>),
    ReleaseWal(Seq<char>),
    ReleaseSlot(Seq<char>),
}

impl View for CleanupAction {
    type V = CleanupStep;

    open spec fn view(&self) -> CleanupStep {
        match self {
            CleanupAction::ClearFileList(id) => CleanupStep::ClearFileList(id@),
            CleanupAction::ReleaseWal(id) => CleanupStep::ReleaseWal(id@),
            CleanupAction::ReleaseSlot(id) => CleanupStep::ReleaseSlot(id@),
        }
    }
}

/// The steps of a list of actions, in order.
pub open spec fn steps(actions: Seq<CleanupAction>) -> Seq<CleanupStep> {
    Seq::new(actions.len(), |i: int| actions[i]@)
}

/// What clears a session: the file list goes first, then the locked files.
pub open spec fn session_steps(trace_id: Seq<char>) -> Seq<CleanupStep> {
    seq![CleanupStep::ClearFileList(trace_id), CleanupStep::ReleaseWal(trace_id)]
}

/// What gives a slot back, if the build hands out slots.
pub open spec fn slot_steps(edition: Edition, trace_id: Seq<char>) -> Seq<CleanupStep> {
    if edition.admits() {
        seq![CleanupStep::ReleaseSlot(trace_id)]
    } else {
        Seq::empty()
    }
}

/// The actions that clear the session of `trace_id`.
pub fn clear_session_data(trace_id: &str) -> (r: Vec<CleanupAction>)
    ensures
        steps(r@) == session_steps(trace_id@),
{
    let mut r: Vec<CleanupAction> = Vec::new();
    r.push(CleanupAction::ClearFileList(trace_id.to_owned()));
    r.push(CleanupAction::ReleaseWal(trace_id.to_owned()));
    assert(steps(r@) =~= session_steps(trace_id@));
    r
}

/// The actions that give the slot of `trace_id` back, if the build hands out slots.
pub fn release_slot(edition: &Edition, trace_id: &str) -> (r: Vec<CleanupAction>)
    ensures
        steps(r@) == slot_steps(*edition, trace_id@),
{
    let mut r: Vec<CleanupAction> = Vec::new();
    if edition.holds_slots() {
        r.push(CleanupAction::ReleaseSlot(trace_id.to_owned()));
    }
    assert(steps(r@) =~= slot_steps(*edition, trace_id@));
    r
}

/// Law: a slot is held exactly in an enterprise build whose admission limit is not zero.
pub proof fn law_slots_are_held_under_a_limit(edition: Edition, holds: bool)
    requires
        call_ensures(Edition::holds_slots, (&edition,), holds),
    ensures
        edition is OpenSource ==> !holds,
        edition matches Edition::Enterprise(settings) ==> (holds <==> settings.max_nodes_per_query
            != 0),
{
}

/// Law: clearing a session undoes two things, each once and for this session: its file list is
/// forgotten, and then its files are unlocked.
pub proof fn law_session_is_cleared_whole(trace_id: &str, r: Vec<CleanupAction>)
    requires
        call_ensures(clear_session_data, (trace_id,), r),
    ensures
        r@.len() == 2,
        r@[0] matches CleanupAction::ClearFileList(id) && id@ == trace_id@,
        r@[1] matches CleanupAction::ReleaseWal(id) && id@ == trace_id@,
{
    assert(steps(r@).len() == 2);
    assert(steps(r@)[0] == r@[0]@ && steps(r@)[1] == r@[1]@);
}

/// Law: a slot that is held is given back once, and nothing is given back where none is held.
pub proof fn law_slot_is_given_back_once(edition: Edition, trace_id: &str, r: Vec<CleanupAction>)
    requires
        call_ensures(release_slot, (&edition, trace_id), r),
    ensures
        (edition matches Edition::Enterprise(settings) && settings.max_nodes_per_query != 0) ==> {
            &&& r@.len() == 1
            &&& r@[0] matches CleanupAction::ReleaseSlot(id) && id@ == trace_id@
        },
        !(edition matches Edition::Enterprise(settings) && settings.max_nodes_per_query != 0)
            ==> r@.len() == 0,
{
    assert(steps(r@).len() == r@.len());
    if r@.len() > 0 {
        assert(steps(r@)[0] == r@[0]@);
    }
}

/// The actions that clear a session and give the slot back, one by one.
pub(crate) proof fn lemma_search_is_undone(
    actions: Seq<CleanupAction>,
    edition: Edition,
    trace_id: Seq<char>,
)
    requires
        steps(actions) == session_steps(trace_id) + slot_steps(edition, trace_id),
    ensures
        actions.len() >= 2,
        actions[0] matches CleanupAction::ClearFileList(id) && id@ == trace_id,
        actions[1] matches CleanupAction::ReleaseWal(id) && id@ == trace_id,
        edition is OpenSource ==> actions.len() == 2,
        edition matches Edition::Enterprise(settings) ==> if settings.max_nodes_per_query == 0 {
            actions.len() == 2
        } else {
            &&& actions.len() == 3
            &&& actions[2] matches CleanupAction::ReleaseSlot(id) && id@ == trace_id
        },
{
    let s = steps(actions);
    assert(s.len() == actions.len());
    assert(s[0] == actions[0]@ && s[1] == actions[1]@);
    if actions.len() > 2 {
        assert(s[2] == actions[2]@);
    }
}

} // verus!
