//! What holds of a fan-out as a whole, whatever its requests do and in whatever order.
//!
//! A fan-out is followed from its first request on. Its requests look for the execution and take
//! their shares of it, late or more than once if need be, and other fan-outs use the registry in
//! between.

use crate::do_get::{DoGet, DoGetAction, DoGetEvent, Stage};
use crate::entries::RegistryEntry;
use crate::group::{group_hi, group_lo, law_groups_lie_within_the_buckets};
use crate::registry::{Found, RegistryView, SharedCell};
use crate::shared::{already_taken_text, available, law_counter_agrees_with_slots, SharedView};
use crate::shared::{
    lemma_available_none, lemma_claim_shrinks, lemma_filled, lemma_nothing_available,
};
use vstd::prelude::*;

verus! {

/// A fan-out at one moment.
#[verifier::reject_recursive_types(X)]
pub struct FanOutView<S, M, L, C, X> {
    pub registry: RegistryView<X>,
    /// The execution that was built for the first request.
    pub execution: SharedView<S, M, L, C>,
}

/// What happens from one moment to the next.
#[verifier::reject_recursive_types(X)]
pub enum FanOutStep<X> {
    /// A request of the fan-out looks for the execution.
    Look { now: u128, query_timeout: u64, found: Found<X> },
    /// A request of the fan-out asks for its share of the execution.
    Take { index: nat },
    /// The registry serves another fan-out. It leaves this one alone until it is stale; see
    /// `law_other_fan_outs_keep_their_entries`.
    Other,
}

impl<S, M, L, C, X> FanOutView<S, M, L, C, X> {
    /// The entry of the fan-out, or the record that it was served, is not stale.
    pub open spec fn in_time(self, now: u128, query_timeout: u64) -> bool {
        let key = self.execution.trace_id;
        &&& self.registry.entries.dom().contains(key) ==> self.registry.entries[key].fresh(
            now,
            query_timeout,
        )
        &&& self.registry.finished.dom().contains(key) ==> self.registry.finished[key].fresh(
            now,
            query_timeout,
        )
    }

    /// The registry says the same of this fan-out.
    pub open spec fn same_under_key(self, after: RegistryView<X>) -> bool {
        let key = self.execution.trace_id;
        &&& after.entries.dom().contains(key) == self.registry.entries.dom().contains(key)
        &&& after.entries.dom().contains(key) ==> after.entries[key] == self.registry.entries[key]
        &&& after.finished.dom().contains(key) == self.registry.finished.dom().contains(key)
        &&& after.finished.dom().contains(key) ==> after.finished[key]
            == self.registry.finished[key]
    }

    /// How a fan-out goes on.
    pub open spec fn goes_on(
        self,
        step: FanOutStep<X>,
        count: nat,
        after: FanOutView<S, M, L, C, X>,
    ) -> bool {
        match step {
            FanOutStep::Look { now, query_timeout, found } => {
                &&& self.registry.looked(
                    self.execution.trace_id,
                    now,
                    query_timeout,
                    after.registry,
                    found,
                )
                &&& after.execution == self.execution
            },
            FanOutStep::Take { index } => {
                &&& after.execution == self.execution.after_share(index, count)
                &&& after.registry == self.execution.registry_after_claim(index, count, self.registry)
            },
            FanOutStep::Other => {
                &&& self.same_under_key(after.registry)
                &&& after.execution == self.execution
            },
        }
    }
}

/// A fan-out from the look of its first request, which is given `cell` to build the execution into,
/// up to any later moment. The execution starts with all its streams, and the requests come while
/// the registry keeps the entry and the record.
pub open spec fn is_fan_out<S, M, L, C, X>(
    moments: Seq<FanOutView<S, M, L, C, X>>,
    steps: Seq<FanOutStep<X>>,
    count: nat,
    cell: SharedCell<X>,
) -> bool {
    let exec = moments[0].execution;
    &&& moments.len() == steps.len() + 1
    &&& steps.len() > 0
    &&& steps[0] matches FanOutStep::Look { found, .. } && found == Found::Cell(cell)
    &&& exec.slots.len() <= usize::MAX
    &&& exec.remaining == exec.slots.len()
    &&& forall|k: int| 0 <= k < exec.slots.len() ==> exec.slots[k] is Some
    &&& forall|i: int|
        0 <= i < steps.len() ==> (#[trigger] moments[i]).goes_on(steps[i], count, moments[i + 1])
    &&& forall|i: int|
        0 < i < steps.len() ==> (#[trigger] steps[i] matches FanOutStep::Look {
            now,
            query_timeout,
            ..
        } ==> moments[i].in_time(now, query_timeout))
}

/// The execution has been served: it had streams, and all of them have been claimed.
pub open spec fn is_served<S, M, L, C>(exec: SharedView<S, M, L, C>) -> bool {
    exec.slots.len() > 0 && exec.remaining == 0
}

/// What holds at every moment after the first look.
spec fn stands<S, M, L, C, X>(
    first: FanOutView<S, M, L, C, X>,
    moment: FanOutView<S, M, L, C, X>,
    created_at: u128,
    cell: SharedCell<X>,
) -> bool {
    let key = first.execution.trace_id;
    let exec = moment.execution;
    &&& exec.trace_id == key
    &&& exec.slots.len() == first.execution.slots.len()
    &&& exec.remaining == available(exec.slots).len()
    &&& exec.remaining < exec.slots.len() ==> exec.custom_messages is None
    &&& if is_served(exec) {
        &&& !moment.registry.entries.dom().contains(key)
        &&& moment.registry.finished.dom().contains(key)
        &&& moment.registry.finished[key] == (RegistryEntry {
            created_at,
            content: exec.slots.len() as usize,
        })
    } else {
        &&& !moment.registry.finished.dom().contains(key)
        &&& moment.registry.entries.dom().contains(key)
        &&& moment.registry.entries[key] == (RegistryEntry { created_at, content: cell })
    }
}

/// A step keeps what holds.
proof fn lemma_step_stands<S, M, L, C, X>(
    first: FanOutView<S, M, L, C, X>,
    before: FanOutView<S, M, L, C, X>,
    step: FanOutStep<X>,
    count: nat,
    after: FanOutView<S, M, L, C, X>,
    created_at: u128,
    cell: SharedCell<X>,
)
    requires
        stands(first, before, created_at, cell),
        before.goes_on(step, count, after),
        step matches FanOutStep::Look { now, query_timeout, .. } ==> before.in_time(
            now,
            query_timeout,
        ),
    ensures
        stands(first, after, created_at, cell),
        step matches FanOutStep::Look { found, .. } ==> found == (if is_served(before.execution) {
            Found::Finished(before.execution.slots.len() as usize)
        } else {
            Found::Cell(cell)
        }),
{
    match step {
        FanOutStep::Take { index } => {
            let exec = before.execution;
            lemma_claim_shrinks(exec, index, count);
            law_counter_agrees_with_slots(exec, seq![index], count);
            assert(seq![index].drop_last() =~= Seq::empty());
            assert(exec.after_claims(Seq::empty(), count) == exec);
            assert(exec.after_claims(seq![index], count) == exec.after_claim(index, count));
        },
        _ => {},
    }
}

/// What holds does so at every moment after the first look.
proof fn lemma_stands<S, M, L, C, X>(
    moments: Seq<FanOutView<S, M, L, C, X>>,
    steps: Seq<FanOutStep<X>>,
    count: nat,
    cell: SharedCell<X>,
    i: int,
)
    requires
        is_fan_out(moments, steps, count, cell),
        0 < i < moments.len(),
    ensures
        stands(
            moments[0],
            moments[i],
            moments[1].registry.entries[moments[0].execution.trace_id].created_at,
            cell,
        ),
    decreases i,
{
    assert(moments[i - 1].goes_on(steps[i - 1], count, moments[i]));
    let created_at = moments[1].registry.entries[moments[0].execution.trace_id].created_at;
    if i == 1 {
        lemma_filled(moments[0].execution.slots);
    } else {
        lemma_stands(moments, steps, count, cell, i - 1);
        lemma_step_stands(
            moments[0],
            moments[i - 1],
            steps[i - 1],
            count,
            moments[i],
            created_at,
            cell,
        );
    }
}

/// Law: a fan-out runs one execution. Every request that looks for it, however late and however
/// often it comes, is given the cell of the first one as long as there are streams to claim, and is
/// told that the fan-out was served once there are none. No request is given another cell to build
/// an execution into, with however few streams the requests have to do.
pub proof fn law_fan_out_runs_one_execution<S, M, L, C, X>(
    moments: Seq<FanOutView<S, M, L, C, X>>,
    steps: Seq<FanOutStep<X>>,
    count: nat,
    cell: SharedCell<X>,
)
    requires
        is_fan_out(moments, steps, count, cell),
    ensures
        forall|i: int|
            0 <= i < steps.len() ==> (#[trigger] steps[i] matches FanOutStep::Look { found, .. }
                ==> found == (if is_served(moments[i].execution) {
                Found::Finished(moments[0].execution.slots.len() as usize)
            } else {
                Found::Cell(cell)
            })),
{
    assert forall|i: int| 0 <= i < steps.len() implies (#[trigger] steps[i] matches FanOutStep::Look {
        found,
        ..
    } ==> found == (if is_served(moments[i].execution) {
        Found::Finished(moments[0].execution.slots.len() as usize)
    } else {
        Found::Cell(cell)
    })) by {
        if i > 0 {
            lemma_stands(moments, steps, count, cell, i);
            let key = moments[0].execution.trace_id;
            assert(moments[i].goes_on(steps[i], count, moments[i + 1]));
            lemma_step_stands(
                moments[0],
                moments[i],
                steps[i],
                count,
                moments[i + 1],
                moments[1].registry.entries[key].created_at,
                cell,
            );
        }
    }
}

/// Law: the registry knows a fan-out from its first request on. It has the entry until the last
/// stream is claimed, and the record that the fan-out was served from then on, and both are as old
/// as the first request.
pub proof fn law_registry_knows_the_fan_out<S, M, L, C, X>(
    moments: Seq<FanOutView<S, M, L, C, X>>,
    steps: Seq<FanOutStep<X>>,
    count: nat,
    cell: SharedCell<X>,
    i: int,
)
    requires
        is_fan_out(moments, steps, count, cell),
        0 < i < moments.len(),
    ensures
        ({
            let key = moments[0].execution.trace_id;
            let first = moments[1].registry.entries[key];
            let now = moments[i].registry;
            if is_served(moments[i].execution) {
                &&& !now.entries.dom().contains(key)
                &&& now.finished.dom().contains(key)
                &&& now.finished[key].created_at == first.created_at
                &&& now.finished[key].content == moments[0].execution.slots.len()
            } else {
                &&& now.entries.dom().contains(key)
                &&& now.entries[key] == first
                &&& !now.finished.dom().contains(key)
            }
        }),
{
    lemma_stands(moments, steps, count, cell, i);
    lemma_stands(moments, steps, count, cell, 1);
    assert(moments[0].goes_on(steps[0], count, moments[1]));
}

/// Law: a request that is told that the fan-out was served is answered as the execution itself
/// would answer it. The execution has neither streams nor messages left for it, and would refuse it
/// exactly where its group is not empty by design.
pub proof fn law_served_fan_out_answers_alike<S, M, L, C, X>(
    moments: Seq<FanOutView<S, M, L, C, X>>,
    steps: Seq<FanOutStep<X>>,
    count: nat,
    cell: SharedCell<X>,
    i: int,
    index: nat,
)
    requires
        is_fan_out(moments, steps, count, cell),
        0 < i < steps.len(),
        steps[i] matches FanOutStep::Look { found, .. } && found is Finished,
    ensures
        ({
            let exec = moments[i].execution;
            let streams = steps[i]->found->Finished_0 as nat;
            &&& available(exec.group(index, count)).len() == 0
            &&& exec.reported() == Seq::<M>::empty()
            &&& exec.group_is_gone(index, count) <==> group_lo(streams, index, count) != group_hi(
                streams,
                index,
                count,
            )
        }),
{
    law_fan_out_runs_one_execution(moments, steps, count, cell);
    lemma_stands(moments, steps, count, cell, i);
    let exec = moments[i].execution;
    law_groups_lie_within_the_buckets(exec.slots.len(), index, count);
    lemma_claim_shrinks(exec, index, count);
    assert(exec.slots.len() <= usize::MAX);
}

/// Law: a request of a served fan-out is refused exactly where the execution would refuse it, with
/// the same status, and undoes nothing. Any other goes on to an empty response. None builds.
pub proof fn law_late_request_is_answered<S, M, L, C, X>(
    moments: Seq<FanOutView<S, M, L, C, X>>,
    steps: Seq<FanOutStep<X>>,
    cell: SharedCell<X>,
    i: int,
    request: DoGet,
    stage: Stage,
    action: DoGetAction,
)
    requires
        is_fan_out(moments, steps, request.job.doget_count as nat, cell),
        0 < i < steps.len(),
        steps[i] matches FanOutStep::Look { found, .. } && found is Finished,
        request.job.trace_id@ == moments[0].execution.trace_id,
        request.goes_on(
            DoGetEvent::SharedFinished(steps[i]->found->Finished_0),
            stage,
            action,
        ),
    ensures
        ({
            let index = request.job.doget_index as nat;
            let count = request.job.doget_count as nat;
            if moments[i].execution.group_is_gone(index, count) {
                &&& stage == Stage::Closed
                &&& action matches DoGetAction::Reject(rejection)
                &&& rejection.reports(
                    already_taken_text(moments[i].execution.trace_id, index, count),
                    Seq::empty(),
                )
            } else {
                &&& stage == Stage::ServedOptions
                &&& action == DoGetAction::MakeWriteOptions
            }
        }),
{
    let index = request.job.doget_index as nat;
    let count = request.job.doget_count as nat;
    law_served_fan_out_answers_alike(moments, steps, count, cell, i, index);
    lemma_stands(moments, steps, count, cell, i);
}

/// Law: a request that has had its group is refused from then on, by the execution or by the record
/// that the fan-out was served. Once a request has asked for a group that is not empty, the group is
/// gone at every later moment.
pub proof fn law_retried_request_is_refused<S, M, L, C, X>(
    moments: Seq<FanOutView<S, M, L, C, X>>,
    steps: Seq<FanOutStep<X>>,
    count: nat,
    cell: SharedCell<X>,
    i: int,
    j: int,
    index: nat,
)
    requires
        is_fan_out(moments, steps, count, cell),
        0 < i < j < moments.len(),
        steps[i] == (FanOutStep::<X>::Take { index }),
        moments[0].execution.group(index, count).len() > 0,
    ensures
        moments[j].execution.group_is_gone(index, count),
    decreases j,
{
    lemma_stands(moments, steps, count, cell, i);
    lemma_stands(moments, steps, count, cell, j - 1);
    assert(moments[j - 1].goes_on(steps[j - 1], count, moments[j]));
    let before = moments[j - 1].execution;
    let after = moments[j].execution;
    let n = before.slots.len();
    law_groups_lie_within_the_buckets(n, index, count);
    if i < j - 1 {
        law_retried_request_is_refused(moments, steps, count, cell, i, j - 1, index);
        lemma_nothing_available(before.group(index, count));
    }
    if !after.group_is_gone(index, count) {
        let lo = group_lo(n, index, count) as int;
        assert forall|k: int| 0 <= k < after.group(index, count).len() implies after.group(
            index,
            count,
        )[k] is None by {
            if i < j - 1 {
                assert(before.group(index, count)[k] is None);
                assert(before.slots[lo + k] is None);
            }
            assert(after.slots[lo + k] is None);
        }
        lemma_available_none(after.group(index, count));
    }
}

} // verus!
