//! One execution whose output streams are handed out to several requests.
//!
//! The registry entry of an execution goes with its last stream. From then on the registry knows
//! that the fan-out was served: a request whose group is empty by design has missed nothing, and a
//! request that comes once more is refused, as it would have been before.

use crate::group::{group_fits, group_hi, group_lo, group_range, group_range_fits, sharers};
use crate::group::{
    law_every_bucket_has_one_owner, law_groups_are_consecutive, law_groups_lie_within_the_buckets,
    owner, owns,
};
use crate::registry::{Registry, RegistryView};
use crate::session::{clear_session_data, release_slot, session_steps, slot_steps, steps};
use crate::session::{CleanupAction, CleanupStep, Edition};
use crate::status::{Code, FlightStatus};
use crate::text::{decimal, decimal_text};
use vstd::prelude::*;
use vstd::string::*;

verus! {

/// The streams that are still in their slots, in the order of the slots.
pub open spec fn available<S>(slots: Seq<Option<S>>) -> Seq<S>
    decreases slots.len(),
{
    if slots.len() == 0 {
        Seq::empty()
    } else {
        match slots.last() {
            Some(s) => available(slots.drop_last()).push(s),
            None => available(slots.drop_last()),
        }
    }
}

/// The slots after `[lo, hi)` has been claimed.
pub open spec fn claimed<S>(slots: Seq<Option<S>>, lo: nat, hi: nat) -> Seq<Option<S>> {
    Seq::new(slots.len(), |i: int| if lo <= i < hi { None } else { slots[i] })
}

/// What an observer sees of a shared execution.
pub struct SharedView<S, M, L, C> {
    pub trace_id: Seq<char>,
    /// One slot per output partition; a claimed slot is empty.
    pub slots: Seq<Option<S>>,
    /// The number of slots that are not claimed.
    pub remaining: nat,
    pub custom_messages: Option<Seq<M>>,
    pub lock: Option<L>,
    pub ctx: C,
}

impl<S, M, L, C> SharedView<S, M, L, C> {
    /// The slots that request `index` of `count` owns.
    pub open spec fn group(self, index: nat, count: nat) -> Seq<Option<S>> {
        self.slots.subrange(
            group_lo(self.slots.len(), index, count) as int,
            group_hi(self.slots.len(), index, count) as int,
        )
    }

    /// The request would find its group, which is not empty, claimed already.
    pub open spec fn group_is_gone(self, index: nat, count: nat) -> bool {
        &&& self.group(index, count).len() > 0
        &&& available(self.group(index, count)).len() == 0
    }

    /// The messages that a request reports to the leader.
    pub open spec fn reported(self) -> Seq<M> {
        match self.custom_messages {
            Some(messages) => messages,
            None => Seq::empty(),
        }
    }

    /// The execution after its messages have been reported.
    pub open spec fn after_report(self) -> SharedView<S, M, L, C> {
        SharedView { custom_messages: None, ..self }
    }

    /// The claim of request `index` of `count` takes the last stream, and with it the registry
    /// entry of the execution goes.
    pub open spec fn claim_evicts(self, index: nat, count: nat) -> bool {
        &&& available(self.group(index, count)).len() > 0
        &&& self.after_claim(index, count).remaining == 0
    }

    /// The registry after request `index` of `count` has asked for its group.
    pub open spec fn registry_after_claim<X>(
        self,
        index: nat,
        count: nat,
        registry: RegistryView<X>,
    ) -> RegistryView<X> {
        if self.claim_evicts(index, count) {
            registry.finishes(self.trace_id, self.slots.len() as usize)
        } else {
            registry
        }
    }

    /// The execution after request `index` of `count` has asked for its share.
    pub open spec fn after_share(self, index: nat, count: nat) -> SharedView<S, M, L, C> {
        if self.group_is_gone(index, count) {
            self
        } else {
            self.after_claim(index, count).after_report()
        }
    }

    /// The execution after the requests of `order` have claimed their groups one after another.
    pub open spec fn after_claims(self, order: Seq<nat>, count: nat) -> SharedView<S, M, L, C>
        decreases order.len(),
    {
        if order.len() == 0 {
            self
        } else {
            self.after_claims(order.drop_last(), count).after_claim(order.last(), count)
        }
    }

    /// The execution after request `index` of `count` has claimed its group.
    pub open spec fn after_claim(self, index: nat, count: nat) -> SharedView<S, M, L, C> {
        SharedView {
            slots: claimed(
                self.slots,
                group_lo(self.slots.len(), index, count),
                group_hi(self.slots.len(), index, count),
            ),
            remaining: (self.remaining - available(self.group(index, count)).len()) as nat,
            ..self
        }
    }
}

/// The message that a duplicate or retried request is refused with.
pub open spec fn already_taken_text(trace_id: Seq<char>, index: nat, count: nat) -> Seq<char> {
    "[trace_id "@ + trace_id + "] flight->search: do_get fan-out group "@ + decimal(index) + "/"@
        + decimal(count) + " was already taken (duplicate or retried request)"@
}

/// What is left to do when the last response of an execution has ended.
pub struct Cleanup<L> {
    /// The work-group lock, if the execution held one. It is released once `actions` are done.
    pub lock: Option<L>,
    pub actions: Vec<CleanupAction>,
}

/// A single follower execution whose per-partition output streams are handed out to the leader's
/// parallel `do_get` requests.
pub struct SharedExec<S, M, L, C> {
    trace_id: String,
    streams: Vec<Option<S>>,
    remaining: usize,
    custom_messages: Option<Vec<M>>,
    lock: Option<L>,
    ctx: C,
}

impl<S, M, L, C> View for SharedExec<S, M, L, C> {
    type V = SharedView<S, M, L, C>;

    closed spec fn view(&self) -> SharedView<S, M, L, C> {
        SharedView {
            trace_id: self.trace_id@,
            slots: self.streams@,
            remaining: self.remaining as nat,
            custom_messages: match self.custom_messages {
                Some(messages) => Some(messages@),
                None => None,
            },
            lock: self.lock,
            ctx: self.ctx,
        }
    }
}

/// The message that a duplicate or retried request is refused with.
fn already_taken_message(trace_id: &str, index: usize, count: usize) -> (r: String)
    ensures
        r@ == already_taken_text(trace_id@, index as nat, count as nat),
{
    let mut r = "[trace_id ".to_owned();
    r.append(trace_id);
    r.append("] flight->search: do_get fan-out group ");
    r.append(decimal_text(index).as_str());
    r.append("/");
    r.append(decimal_text(count).as_str());
    r.append(" was already taken (duplicate or retried request)");
    r
}

/// What is available of two runs of slots is what is available of each.
proof fn lemma_available_append<S>(a: Seq<Option<S>>, b: Seq<Option<S>>)
    ensures
        available(a + b) == available(a) + available(b),
    decreases b.len(),
{
    if b.len() == 0 {
        assert(a + b =~= a);
        assert(available(a) + available(b) =~= available(a));
    } else {
        assert((a + b).drop_last() =~= a + b.drop_last());
        lemma_available_append(a, b.drop_last());
        assert(available(a + b) =~= available(a) + available(b));
    }
}

/// Slots that are all empty have nothing available.
pub(crate) proof fn lemma_available_none<S>(slots: Seq<Option<S>>)
    requires
        forall|i: int| 0 <= i < slots.len() ==> slots[i] is None,
    ensures
        available(slots) == Seq::<S>::empty(),
    decreases slots.len(),
{
    if slots.len() > 0 {
        lemma_available_none(slots.drop_last());
    }
}

/// Claiming a range takes exactly the streams of that range away.
proof fn lemma_available_split<S>(slots: Seq<Option<S>>, lo: nat, hi: nat)
    requires
        lo <= hi <= slots.len(),
    ensures
        available(slots) == available(slots.subrange(0, lo as int)) + available(
            slots.subrange(lo as int, hi as int),
        ) + available(slots.subrange(hi as int, slots.len() as int)),
        available(claimed(slots, lo, hi)) == available(slots.subrange(0, lo as int)) + available(
            slots.subrange(hi as int, slots.len() as int),
        ),
{
    let a = slots.subrange(0, lo as int);
    let b = slots.subrange(lo as int, hi as int);
    let c = slots.subrange(hi as int, slots.len() as int);
    assert(slots =~= a + b + c);
    lemma_available_append(a + b, c);
    lemma_available_append(a, b);
    let gone = Seq::new(b.len(), |i: int| None::<S>);
    assert(claimed(slots, lo, hi) =~= a + gone + c);
    lemma_available_none(gone);
    lemma_available_append(a + gone, c);
    lemma_available_append(a, gone);
    assert(available(a) + Seq::<S>::empty() =~= available(a));
}

impl<S, M, L, C> SharedExec<S, M, L, C> {
    /// The counter agrees with the slots, and there are no more slots than can be counted.
    pub open spec fn wf(self) -> bool {
        &&& self@.remaining == available(self@.slots).len()
        &&& self@.slots.len() <= usize::MAX
    }

    /// Whether `take_group` may be asked for this group. It may for every request of the fan-out.
    pub fn has_group(&self, doget_index: usize, doget_count: usize) -> (r: bool)
        ensures
            r == group_fits(self@.slots.len(), doget_index as nat, doget_count as nat),
    {
        group_range_fits(self.streams.len(), doget_index, doget_count)
    }

    /// Take this request's contiguous group of streams. The last group absorbs what a whole
    /// division leaves over. Once every slot is claimed, the registry drops its entry and remembers
    /// that the fan-out was served.
    ///
    /// A group that is not empty but has been claimed already is a duplicate or retried request;
    /// it is refused, so that the leader sees a failure and not a silent lack of data. A group that
    /// is empty by design gives an empty vector.
    pub fn take_group<X>(
        &mut self,
        doget_index: usize,
        doget_count: usize,
        registry: &mut Registry<X>,
    ) -> (r: Result<Vec<S>, FlightStatus>)
        requires
            old(self).wf(),
            old(registry).wf(),
            group_fits(old(self)@.slots.len(), doget_index as nat, doget_count as nat),
        ensures
            final(self).wf(),
            final(registry).wf(),
            r is Err <==> old(self)@.group_is_gone(doget_index as nat, doget_count as nat),
            match r {
                Ok(streams) => {
                    &&& streams@ == available(
                        old(self)@.group(doget_index as nat, doget_count as nat),
                    )
                    &&& final(self)@ == old(self)@.after_claim(
                        doget_index as nat,
                        doget_count as nat,
                    )
                    &&& final(registry)@ == old(self)@.registry_after_claim(
                        doget_index as nat,
                        doget_count as nat,
                        old(registry)@,
                    )
                },
                Err(status) => {
                    &&& status.says(
                        Code::Internal,
                        already_taken_text(
                            old(self)@.trace_id,
                            doget_index as nat,
                            doget_count as nat,
                        ),
                    )
                    &&& final(self)@ == old(self)@
                    &&& final(registry)@ == old(registry)@
                },
            },
    {
        let (lo, hi) = group_range(self.streams.len(), doget_index, doget_count);
        let mut out: Vec<S> = Vec::with_capacity(hi - lo);
        let ghost slots = self.streams@;
        proof {
            lemma_available_split(slots, lo as nat, hi as nat);
            assert(claimed(slots, lo as nat, lo as nat) =~= slots);
        }
        let mut i: usize = lo;
        while i < hi
            invariant
                lo <= i <= hi,
                hi <= slots.len(),
                self.streams@ == claimed(slots, lo as nat, i as nat),
                out@ == available(slots.subrange(lo as int, i as int)),
                self.trace_id == old(self).trace_id,
                self.remaining == old(self).remaining,
                self.custom_messages == old(self).custom_messages,
                self.lock == old(self).lock,
                self.ctx == old(self).ctx,
            decreases hi - i,
        {
            let taken = self.streams[i].take();
            proof {
                let part = slots.subrange(lo as int, i + 1);
                assert(part.drop_last() =~= slots.subrange(lo as int, i as int));
                assert(part.last() == slots[i as int]);
                assert(self.streams@ =~= claimed(slots, lo as nat, (i + 1) as nat));
            }
            match taken {
                Some(s) => {
                    out.push(s);
                },
                None => {},
            }
            i += 1;
        }
        let taken: usize = out.len();
        if taken == 0 && lo < hi {
            proof {
                lemma_nothing_available(slots.subrange(lo as int, hi as int));
                assert forall|k: int| 0 <= k < slots.len() implies claimed(
                    slots,
                    lo as nat,
                    hi as nat,
                )[k] == slots[k] by {
                    if lo <= k < hi {
                        assert(slots.subrange(lo as int, hi as int)[k - lo] is None);
                    }
                }
                assert(claimed(slots, lo as nat, hi as nat) =~= slots);
            }
            return Err(
                FlightStatus::internal(
                    already_taken_message(self.trace_id.as_str(), doget_index, doget_count),
                ),
            );
        }
        self.remaining = self.remaining - taken;
        if taken > 0 && self.remaining == 0 {
            registry.finish(&self.trace_id, self.streams.len());
        }
        Ok(out)
    }

    /// The custom messages for the leader. The first call takes them, every later call gets none,
    /// so that the leader counts the statistics of an execution once.
    pub fn take_custom_messages(&mut self) -> (r: Vec<M>)
        ensures
            old(self).wf() ==> final(self).wf(),
            r@ == old(self)@.reported(),
            old(self)@.custom_messages matches Some(messages) ==> r@ == messages,
            old(self)@.custom_messages is None ==> r@.len() == 0,
            final(self)@.custom_messages is None,
            final(self)@ == old(self)@.after_report(),
    {
        match self.custom_messages.take() {
            Some(messages) => messages,
            None => Vec::new(),
        }
    }

    /// Take what this request answers with: its group of streams, and the messages if no request has
    /// taken them before. A refused request leaves them for the next one.
    pub fn take_share<X>(
        &mut self,
        doget_index: usize,
        doget_count: usize,
        registry: &mut Registry<X>,
    ) -> (r: Result<(Vec<S>, Vec<M>), FlightStatus>)
        requires
            old(self).wf(),
            old(registry).wf(),
            group_fits(old(self)@.slots.len(), doget_index as nat, doget_count as nat),
        ensures
            final(self).wf(),
            final(registry).wf(),
            r is Err <==> old(self)@.group_is_gone(doget_index as nat, doget_count as nat),
            final(self)@ == old(self)@.after_share(doget_index as nat, doget_count as nat),
            final(registry)@ == old(self)@.registry_after_claim(
                doget_index as nat,
                doget_count as nat,
                old(registry)@,
            ),
            match r {
                Ok((streams, messages)) => {
                    &&& streams@ == available(
                        old(self)@.group(doget_index as nat, doget_count as nat),
                    )
                    &&& messages@ == old(self)@.reported()
                    &&& old(self)@.custom_messages matches Some(all) ==> messages@ == all
                    &&& old(self)@.custom_messages is None ==> messages@.len() == 0
                    &&& final(self)@.custom_messages is None
                },
                Err(status) => status.says(
                    Code::Internal,
                    already_taken_text(
                        old(self)@.trace_id,
                        doget_index as nat,
                        doget_count as nat,
                    ),
                ),
            },
    {
        let streams = match self.take_group(doget_index, doget_count, registry) {
            Ok(streams) => streams,
            Err(status) => {
                return Err(status);
            },
        };
        Ok((streams, self.take_custom_messages()))
    }

    /// What is left to do when the last response has ended. The slot goes first. A work-group lock
    /// ends the session when it is released; without one, the session is cleared here.
    pub fn cleanup(self, edition: &Edition) -> (r: Cleanup<L>)
        ensures
            r.lock == self@.lock,
            steps(r.actions@) == slot_steps(*edition, self@.trace_id) + (if self@.lock is Some {
                Seq::empty()
            } else {
                session_steps(self@.trace_id)
            }),
    {
        let mut actions = release_slot(edition, self.trace_id.as_str());
        if self.lock.is_none() {
            let mut clear = clear_session_data(self.trace_id.as_str());
            let ghost first = actions@;
            let ghost second = clear@;
            actions.append(&mut clear);
            assert(steps(actions@) =~= steps(first) + steps(second));
        } else {
            assert(steps(actions@) =~= steps(actions@) + Seq::<CleanupStep>::empty());
        }
        Cleanup { lock: self.lock, actions }
    }
}

/// Where nothing is available, every slot is empty.
pub(crate) proof fn lemma_nothing_available<S>(slots: Seq<Option<S>>)
    requires
        available(slots).len() == 0,
    ensures
        forall|i: int| 0 <= i < slots.len() ==> slots[i] is None,
    decreases slots.len(),
{
    if slots.len() > 0 {
        lemma_nothing_available(slots.drop_last());
        assert forall|i: int| 0 <= i < slots.len() implies slots[i] is None by {
            if i < slots.len() - 1 {
                assert(slots[i] == slots.drop_last()[i]);
            }
        }
    }
}

/// The claim of a request on an execution whose `streams` streams have all been claimed. There is
/// nothing to hand out: a group that is empty by design is in order, and any other is refused, as
/// the execution itself would refuse it.
pub fn claim_of_finished(
    trace_id: &str,
    streams: usize,
    doget_index: usize,
    doget_count: usize,
) -> (r: Result<(), FlightStatus>)
    requires
        group_fits(streams as nat, doget_index as nat, doget_count as nat),
    ensures
        r is Ok <==> group_lo(streams as nat, doget_index as nat, doget_count as nat) == group_hi(
            streams as nat,
            doget_index as nat,
            doget_count as nat,
        ),
        r matches Err(status) ==> status.says(
            Code::Internal,
            already_taken_text(trace_id@, doget_index as nat, doget_count as nat),
        ),
{
    let (lo, hi) = group_range(streams, doget_index, doget_count);
    if lo < hi {
        Err(FlightStatus::internal(already_taken_message(trace_id, doget_index, doget_count)))
    } else {
        Ok(())
    }
}

/// Wrap a freshly executed plan's output streams. `trace_id` is both the follower's trace id and
/// the registry key.
pub fn new_shared<S, M, L, C>(
    trace_id: String,
    ctx: C,
    streams: Vec<S>,
    custom_messages: Vec<M>,
    lock: Option<L>,
) -> (r: SharedExec<S, M, L, C>)
    ensures
        r.wf(),
        r@ == (SharedView {
            trace_id: trace_id@,
            slots: Seq::new(streams@.len(), |i: int| Some(streams@[i])),
            remaining: streams@.len(),
            custom_messages: Some(custom_messages@),
            lock,
            ctx,
        }),
{
    let remaining: usize = streams.len();
    let mut slots: Vec<Option<S>> = Vec::with_capacity(remaining);
    let ghost all = streams@;
    for stream in it: streams
        invariant
            it.seq() == all,
            slots@ == Seq::new(it.index() as nat, |i: int| Some(all[i])),
    {
        slots.push(Some(stream));
        assert(slots@ =~= Seq::new((it.index() + 1) as nat, |i: int| Some(all[i])));
    }
    proof {
        assert(slots@ =~= Seq::new(all.len(), |i: int| Some(all[i])));
        lemma_filled(slots@);
    }
    SharedExec {
        trace_id,
        streams: slots,
        remaining,
        custom_messages: Some(custom_messages),
        lock,
        ctx,
    }
}

/// Slots that are all filled make every stream available, in order.
pub(crate) proof fn lemma_filled<S>(slots: Seq<Option<S>>)
    requires
        forall|k: int| 0 <= k < slots.len() ==> slots[k] is Some,
    ensures
        available(slots) == Seq::new(slots.len(), |k: int| slots[k]->0),
    decreases slots.len(),
{
    if slots.len() > 0 {
        lemma_filled(slots.drop_last());
    }
    assert(available(slots) =~= Seq::new(slots.len(), |k: int| slots[k]->0));
}

/// The streams of the first `n` groups, one group after the other.
pub open spec fn handed_out<S>(streams: Seq<S>, count: nat, n: nat) -> Seq<S>
    decreases n,
{
    if n == 0 {
        Seq::empty()
    } else {
        handed_out(streams, count, (n - 1) as nat) + streams.subrange(
            group_lo(streams.len(), (n - 1) as nat, count) as int,
            group_hi(streams.len(), (n - 1) as nat, count) as int,
        )
    }
}

/// The requests of `order` are requests of this fan-out, and none occurs twice.
pub open spec fn distinct_requests(order: Seq<nat>, count: nat) -> bool {
    &&& forall|i: int| 0 <= i < order.len() ==> #[trigger] order[i] < sharers(count)
    &&& forall|i: int, j: int| 0 <= i < j < order.len() ==> order[i] != order[j]
}

/// Law: the groups together are all the streams, each stream once and in order.
pub proof fn law_groups_make_up_all_streams<S>(streams: Seq<S>, count: nat)
    ensures
        handed_out(streams, count, sharers(count)) == streams,
{
    lemma_handed_out(streams, count, sharers(count));
    law_groups_are_consecutive(streams.len(), (sharers(count) - 1) as nat, count);
    assert(streams.subrange(0, streams.len() as int) =~= streams);
}

/// The first groups are the streams up to where the last of them ends.
proof fn lemma_handed_out<S>(streams: Seq<S>, count: nat, n: nat)
    requires
        n <= sharers(count),
    ensures
        n > 0 ==> handed_out(streams, count, n) == streams.subrange(
            0,
            group_hi(streams.len(), (n - 1) as nat, count) as int,
        ),
    decreases n,
{
    if n > 0 {
        let b = streams.len();
        let last = (n - 1) as nat;
        law_groups_are_consecutive(b, last, count);
        if last > 0 {
            lemma_handed_out(streams, count, last);
            law_groups_are_consecutive(b, (last - 1) as nat, count);
        } else {
            assert(handed_out(streams, count, last) == Seq::<S>::empty());
        }
        assert(handed_out(streams, count, n) =~= streams.subrange(
            0,
            group_hi(b, last, count) as int,
        ));
    }
}

/// Law: a request that comes a second time is refused. Once a request has claimed a group that is
/// not empty, the same request finds the group gone.
pub proof fn law_second_claim_is_refused<S, M, L, C>(
    exec: SharedView<S, M, L, C>,
    index: nat,
    count: nat,
)
    requires
        exec.group(index, count).len() > 0,
    ensures
        exec.after_claim(index, count).group_is_gone(index, count),
{
    law_groups_lie_within_the_buckets(exec.slots.len(), index, count);
    let group = exec.after_claim(index, count).group(index, count);
    assert(group.len() == exec.group(index, count).len());
    lemma_available_none(group);
}

/// Law: a refused claim changes nothing, so that duplicates among the claims of a fan-out make no
/// difference to it.
pub proof fn law_refused_claim_changes_nothing<S, M, L, C>(
    exec: SharedView<S, M, L, C>,
    index: nat,
    count: nat,
)
    requires
        exec.group_is_gone(index, count),
    ensures
        exec.after_claim(index, count) == exec,
{
    let lo = group_lo(exec.slots.len(), index, count);
    let hi = group_hi(exec.slots.len(), index, count);
    law_groups_lie_within_the_buckets(exec.slots.len(), index, count);
    lemma_nothing_available(exec.group(index, count));
    assert forall|k: int| 0 <= k < exec.slots.len() implies claimed(exec.slots, lo, hi)[k]
        == exec.slots[k] by {
        if lo <= k < hi {
            assert(exec.group(index, count)[k - lo] is None);
        }
    }
    assert(claimed(exec.slots, lo, hi) =~= exec.slots);
}

/// Law: a claim leaves the groups of the other requests as they were.
pub proof fn law_claims_do_not_interfere<S, M, L, C>(
    exec: SharedView<S, M, L, C>,
    index: nat,
    other: nat,
    count: nat,
)
    requires
        index < sharers(count),
        other < sharers(count),
        index != other,
    ensures
        exec.after_claim(index, count).group(other, count) == exec.group(other, count),
{
    let b = exec.slots.len();
    law_groups_are_consecutive(b, index, count);
    law_groups_are_consecutive(b, other, count);
    let before = exec.group(other, count);
    let after = exec.after_claim(index, count).group(other, count);
    assert forall|k: int| 0 <= k < before.len() implies after[k] == before[k] by {
        let bucket = (group_lo(b, other, count) + k) as nat;
        law_every_bucket_has_one_owner(b, count, bucket);
        assert(owns(b, other, count, bucket));
        assert(!owns(b, index, count, bucket));
    }
    assert(after =~= before);
}

/// Law: in whatever order the requests of a fan-out arrive, a request that has not come before
/// finds its whole group untouched.
pub proof fn law_arrival_order_does_not_matter<S, M, L, C>(
    exec: SharedView<S, M, L, C>,
    order: Seq<nat>,
    next: nat,
    count: nat,
)
    requires
        distinct_requests(order, count),
        next < sharers(count),
        !order.contains(next),
    ensures
        exec.after_claims(order, count).group(next, count) == exec.group(next, count),
        exec.after_claims(order, count).slots.len() == exec.slots.len(),
    decreases order.len(),
{
    if order.len() > 0 {
        let earlier = order.drop_last();
        assert forall|i: int| 0 <= i < earlier.len() implies earlier[i] != next by {
            assert(order[i] == earlier[i]);
            assert(order.contains(order[i]));
        }
        assert(order.contains(order.last()));
        law_arrival_order_does_not_matter(exec, earlier, next, count);
        law_claims_do_not_interfere(
            exec.after_claims(earlier, count),
            order.last(),
            next,
            count,
        );
    }
}

/// A bucket whose owner has come is claimed, and the others are as they were.
proof fn lemma_slots_after_claims<S, M, L, C>(
    exec: SharedView<S, M, L, C>,
    order: Seq<nat>,
    count: nat,
)
    requires
        distinct_requests(order, count),
    ensures
        exec.after_claims(order, count).slots.len() == exec.slots.len(),
        forall|i: int, k: int|
            0 <= i < order.len() && 0 <= k < exec.slots.len() && owns(
                exec.slots.len(),
                #[trigger] order[i],
                count,
                k as nat,
            ) ==> #[trigger] exec.after_claims(order, count).slots[k] is None,
    decreases order.len(),
{
    if order.len() > 0 {
        let earlier = order.drop_last();
        assert(distinct_requests(earlier, count)) by {
            assert forall|i: int| 0 <= i < earlier.len() implies #[trigger] earlier[i] < sharers(
                count,
            ) by {
                assert(order[i] == earlier[i]);
            }
        }
        lemma_slots_after_claims(exec, earlier, count);
        assert forall|i: int, k: int|
            0 <= i < order.len() && 0 <= k < exec.slots.len() && owns(
                exec.slots.len(),
                #[trigger] order[i],
                count,
                k as nat,
            ) implies #[trigger] exec.after_claims(order, count).slots[k] is None by {
            if i < earlier.len() {
                assert(earlier[i] == order[i]);
                assert(exec.after_claims(earlier, count).slots[k] is None);
            }
        }
    }
}

/// Law: when every request of the fan-out has come, in whatever order, every slot is claimed.
/// Nothing is left over, and so the registry entry goes with the claim that takes the last stream.
pub proof fn law_all_requests_claim_all_streams<S, M, L, C>(
    exec: SharedView<S, M, L, C>,
    order: Seq<nat>,
    count: nat,
)
    requires
        distinct_requests(order, count),
        forall|index: nat| index < sharers(count) ==> #[trigger] order.contains(index),
        exec.remaining == available(exec.slots).len(),
    ensures
        available(exec.after_claims(order, count).slots) == Seq::<S>::empty(),
        exec.after_claims(order, count).remaining == 0,
{
    lemma_slots_after_claims(exec, order, count);
    let after = exec.after_claims(order, count);
    assert forall|k: int| 0 <= k < after.slots.len() implies after.slots[k] is None by {
        law_every_bucket_has_one_owner(exec.slots.len(), count, k as nat);
        let o = owner(exec.slots.len(), count, k as nat);
        assert(order.contains(o));
        let i = choose|i: int| 0 <= i < order.len() && order[i] == o;
        assert(owns(exec.slots.len(), order[i], count, k as nat));
    }
    lemma_available_none(after.slots);
    law_counter_agrees_with_slots(exec, order, count);
}

/// Law: the counter of an execution agrees with its slots after any claims.
pub proof fn law_counter_agrees_with_slots<S, M, L, C>(
    exec: SharedView<S, M, L, C>,
    order: Seq<nat>,
    count: nat,
)
    requires
        exec.remaining == available(exec.slots).len(),
    ensures
        exec.after_claims(order, count).remaining == available(
            exec.after_claims(order, count).slots,
        ).len(),
        exec.after_claims(order, count).slots.len() == exec.slots.len(),
    decreases order.len(),
{
    if order.len() > 0 {
        let earlier = order.drop_last();
        law_counter_agrees_with_slots(exec, earlier, count);
        let before = exec.after_claims(earlier, count);
        law_groups_lie_within_the_buckets(before.slots.len(), order.last(), count);
        lemma_available_split(
            before.slots,
            group_lo(before.slots.len(), order.last(), count),
            group_hi(before.slots.len(), order.last(), count),
        );
    }
}

/// A claim takes no more than what is left.
pub(crate) proof fn lemma_claim_shrinks<S, M, L, C>(exec: SharedView<S, M, L, C>, index: nat, count: nat)
    requires
        exec.remaining == available(exec.slots).len(),
    ensures
        available(exec.group(index, count)).len() <= exec.remaining,
{
    law_groups_lie_within_the_buckets(exec.slots.len(), index, count);
    lemma_available_split(
        exec.slots,
        group_lo(exec.slots.len(), index, count),
        group_hi(exec.slots.len(), index, count),
    );
}

/// Law: the registry forgets an execution at most once. After the claim that takes the last stream
/// no further claim, duplicate or not, makes the registry forget anything.
pub proof fn law_entry_is_forgotten_at_most_once<S, M, L, C>(
    exec: SharedView<S, M, L, C>,
    order: Seq<nat>,
    i: int,
    j: int,
    count: nat,
)
    requires
        0 <= i < j < order.len(),
        exec.remaining == available(exec.slots).len(),
        exec.after_claims(order.take(i), count).claim_evicts(order[i], count),
    ensures
        exec.after_claims(order.take(j), count).remaining == 0,
        !exec.after_claims(order.take(j), count).claim_evicts(order[j], count),
    decreases j,
{
    law_counter_agrees_with_slots(exec, order.take(j), count);
    lemma_claim_shrinks(exec.after_claims(order.take(j), count), order[j], count);
    let earlier = order.take(j - 1);
    assert(order.take(j).drop_last() =~= earlier);
    assert(order.take(j).last() == order[j - 1]);
    law_counter_agrees_with_slots(exec, earlier, count);
    lemma_claim_shrinks(exec.after_claims(earlier, count), order[j - 1], count);
    if i < j - 1 {
        law_entry_is_forgotten_at_most_once(exec, order, i, j - 1, count);
    }
}

/// Law: when every request of the fan-out comes, the registry does forget the execution, with one
/// of the claims. The exception is an execution without any stream, which no claim finishes.
pub proof fn law_entry_is_forgotten<S, M, L, C>(
    exec: SharedView<S, M, L, C>,
    order: Seq<nat>,
    count: nat,
)
    requires
        distinct_requests(order, count),
        forall|index: nat| index < sharers(count) ==> #[trigger] order.contains(index),
        exec.remaining == available(exec.slots).len(),
        exec.remaining > 0,
    ensures
        exists|i: int|
            0 <= i < order.len() && #[trigger] exec.after_claims(order.take(i), count).claim_evicts(
                order[i],
                count,
            ),
{
    law_all_requests_claim_all_streams(exec, order, count);
    assert(order.take(order.len() as int) =~= order);
    lemma_some_claim_evicts(exec, order, order.len() as int, count);
}

/// Where claims have brought the counter down to zero, one of them took the last stream.
proof fn lemma_some_claim_evicts<S, M, L, C>(
    exec: SharedView<S, M, L, C>,
    order: Seq<nat>,
    n: int,
    count: nat,
)
    requires
        0 <= n <= order.len(),
        exec.remaining > 0,
        exec.after_claims(order.take(n), count).remaining == 0,
    ensures
        exists|i: int|
            0 <= i < n && #[trigger] exec.after_claims(order.take(i), count).claim_evicts(
                order[i],
                count,
            ),
    decreases n,
{
    if n == 0 {
        assert(order.take(n) =~= Seq::<nat>::empty());
    } else {
        let earlier = order.take(n - 1);
        assert(order.take(n).drop_last() =~= earlier);
        assert(order.take(n).last() == order[n - 1]);
        if exec.after_claims(earlier, count).remaining == 0 {
            lemma_some_claim_evicts(exec, order, n - 1, count);
        } else {
            assert(exec.after_claims(order.take(n - 1), count).claim_evicts(order[n - 1], count));
        }
    }
}

/// Law: the leader hears the statistics of an execution once. Whatever groups are claimed in
/// between, a second report is empty.
pub proof fn law_messages_are_reported_once<S, M, L, C>(
    exec: SharedView<S, M, L, C>,
    order: Seq<nat>,
    count: nat,
)
    ensures
        exec.after_claims(order, count).reported() == exec.reported(),
        exec.after_report().after_claims(order, count).reported() == Seq::<M>::empty(),
    decreases order.len(),
{
    if order.len() > 0 {
        law_messages_are_reported_once(exec, order.drop_last(), count);
    }
}

/// Law: the first report is whole, and it is the only one. The messages that an execution was made
/// with are reported all together and in order; after that there are none.
pub proof fn law_first_report_is_whole<S, M, L, C>(exec: SharedView<S, M, L, C>)
    ensures
        exec.custom_messages matches Some(messages) ==> exec.reported() == messages,
        exec.custom_messages is None ==> exec.reported().len() == 0,
        exec.after_report().reported().len() == 0,
        exec.after_report().trace_id == exec.trace_id,
        exec.after_report().slots == exec.slots,
        exec.after_report().remaining == exec.remaining,
        exec.after_report().lock == exec.lock,
        exec.after_report().ctx == exec.ctx,
{
}

/// Law: the leader hears every message of an execution, once. The first request that has its share
/// reports what the execution was made with, and whatever requests come before or after it report
/// nothing.
pub proof fn law_every_message_is_reported<S, M, L, C>(
    trace_id: String,
    ctx: C,
    streams: Vec<S>,
    custom_messages: Vec<M>,
    lock: Option<L>,
    r: SharedExec<S, M, L, C>,
    index: nat,
    other: nat,
    count: nat,
)
    requires
        call_ensures(
            new_shared::<S, M, L, C>,
            (trace_id, ctx, streams, custom_messages, lock),
            r,
        ),
    ensures
        r@.reported() == custom_messages@,
        r@.group_is_gone(index, count) ==> r@.after_share(index, count).reported()
            == custom_messages@,
        !r@.group_is_gone(index, count) ==> r@.after_share(index, count).reported().len() == 0,
        !r@.group_is_gone(index, count) ==> r@.after_share(index, count).after_share(
            other,
            count,
        ).reported().len() == 0,
{
}

/// Law: what is available of slots is what is in them. A filled slot gives its stream, an empty one
/// gives nothing, and slots side by side give what each gives, in order.
pub proof fn law_filled_slots_are_available<S>(
    a: Seq<Option<S>>,
    b: Seq<Option<S>>,
    stream: S,
)
    ensures
        available(a + b) == available(a) + available(b),
        available(seq![Some(stream)]) == seq![stream],
        available(seq![None::<S>]).len() == 0,
        available(Seq::<Option<S>>::empty()).len() == 0,
{
    lemma_available_append(a, b);
    let one = seq![Some(stream)];
    assert(one.drop_last() =~= Seq::empty());
    assert(available(one.drop_last()) =~= Seq::empty());
    assert(available(one) =~= seq![stream]);
    assert(seq![None::<S>].drop_last() =~= Seq::empty());
}

/// Law: a claim empties the slots of the request's range, hands out the streams that were in them,
/// and counts these off. It leaves every other slot, and everything else, as it was.
pub proof fn law_claim_takes_its_range<S, M, L, C>(
    exec: SharedView<S, M, L, C>,
    index: usize,
    count: usize,
    range: (usize, usize),
)
    requires
        exec.slots.len() <= usize::MAX,
        call_ensures(group_range, (exec.slots.len() as usize, index, count), range),
    ensures
        ({
            let after = exec.after_claim(index as nat, count as nat);
            &&& exec.group(index as nat, count as nat) == exec.slots.subrange(
                range.0 as int,
                range.1 as int,
            )
            &&& after.slots.len() == exec.slots.len()
            &&& forall|k: int| range.0 <= k < range.1 ==> (#[trigger] after.slots[k]) is None
            &&& forall|k: int|
                0 <= k < exec.slots.len() && !(range.0 <= k < range.1) ==> (
                #[trigger] after.slots[k]) == exec.slots[k]
            &&& after.trace_id == exec.trace_id
            &&& after.custom_messages == exec.custom_messages
            &&& after.lock == exec.lock
            &&& after.ctx == exec.ctx
            &&& available(exec.group(index as nat, count as nat)).len() <= exec.remaining
                ==> after.remaining + available(exec.group(index as nat, count as nat)).len()
                == exec.remaining
        }),
{
}

/// Law: a request is refused exactly where its range is not empty and all its slots are.
pub proof fn law_refusal_means_nothing_is_left<S, M, L, C>(
    exec: SharedView<S, M, L, C>,
    index: usize,
    count: usize,
    range: (usize, usize),
)
    requires
        exec.slots.len() <= usize::MAX,
        call_ensures(group_range, (exec.slots.len() as usize, index, count), range),
    ensures
        exec.group_is_gone(index as nat, count as nat) <==> range.0 < range.1 && forall|k: int|
            range.0 <= k < range.1 ==> (#[trigger] exec.slots[k]) is None,
{
    let group = exec.group(index as nat, count as nat);
    if exec.group_is_gone(index as nat, count as nat) {
        lemma_nothing_available(group);
        assert forall|k: int| range.0 <= k < range.1 implies (
        #[trigger] exec.slots[k]) is None by {
            assert(group[k - range.0] == exec.slots[k]);
        }
    }
    if forall|k: int| range.0 <= k < range.1 ==> (#[trigger] exec.slots[k]) is None {
        lemma_available_none(group);
    }
}

/// Law: the registry entry goes with the last stream, and not before. A claim makes the registry
/// finish the fan-out exactly where it finds a stream in its range and leaves none in any slot; any
/// other claim leaves the registry as it was.
pub proof fn law_entry_goes_with_the_last_stream<S, M, L, C, X>(
    exec: SharedView<S, M, L, C>,
    index: usize,
    count: usize,
    range: (usize, usize),
    registry: RegistryView<X>,
)
    requires
        exec.slots.len() <= usize::MAX,
        exec.remaining == available(exec.slots).len(),
        call_ensures(group_range, (exec.slots.len() as usize, index, count), range),
    ensures
        ({
            let found = exists|k: int|
                range.0 <= k < range.1 && (#[trigger] exec.slots[k]) is Some;
            let left = exists|k: int|
                0 <= k < exec.slots.len() && !(range.0 <= k < range.1) && (
                #[trigger] exec.slots[k]) is Some;
            &&& exec.claim_evicts(index as nat, count as nat) <==> found && !left
            &&& found && !left ==> exec.registry_after_claim(index as nat, count as nat, registry)
                == registry.finishes(exec.trace_id, exec.slots.len() as usize)
            &&& !(found && !left) ==> exec.registry_after_claim(
                index as nat,
                count as nat,
                registry,
            ) == registry
        }),
{
    let i = index as nat;
    let c = count as nat;
    let after = exec.after_claim(i, c);
    let group = exec.group(i, c);
    let lo = range.0 as int;
    let hi = range.1 as int;
    law_counter_agrees_with_slots(exec, seq![i], c);
    assert(seq![i].drop_last() =~= Seq::empty());
    assert(exec.after_claims(Seq::empty(), c) == exec);
    assert(exec.after_claims(seq![i], c) == after);
    let found = exists|k: int| range.0 <= k < range.1 && (#[trigger] exec.slots[k]) is Some;
    let left = exists|k: int|
        0 <= k < exec.slots.len() && !(range.0 <= k < range.1) && (
        #[trigger] exec.slots[k]) is Some;
    if !found {
        assert forall|k: int| 0 <= k < group.len() implies group[k] is None by {
            assert(group[k] == exec.slots[lo + k]);
        }
        lemma_available_none(group);
    } else {
        let k = choose|k: int| range.0 <= k < range.1 && (#[trigger] exec.slots[k]) is Some;
        if available(group).len() == 0 {
            lemma_nothing_available(group);
            assert(group[k - lo] == exec.slots[k]);
        }
    }
    if !left {
        assert forall|k: int| 0 <= k < after.slots.len() implies after.slots[k] is None by {
            if !(lo <= k < hi) {
                assert(after.slots[k] == exec.slots[k]);
            }
        }
        lemma_available_none(after.slots);
    } else {
        let k = choose|k: int|
            0 <= k < exec.slots.len() && !(range.0 <= k < range.1) && (
            #[trigger] exec.slots[k]) is Some;
        assert(after.slots[k] == exec.slots[k]);
        if available(after.slots).len() == 0 {
            lemma_nothing_available(after.slots);
        }
    }
}

/// Law: a request that asks for its share and is not refused claims its range and takes the
/// messages; one that is refused changes nothing.
pub proof fn law_share_is_group_and_messages<S, M, L, C>(
    exec: SharedView<S, M, L, C>,
    index: nat,
    count: nat,
)
    ensures
        exec.group_is_gone(index, count) ==> exec.after_share(index, count) == exec,
        !exec.group_is_gone(index, count) ==> {
            let after = exec.after_share(index, count);
            &&& after.slots == exec.after_claim(index, count).slots
            &&& after.remaining == exec.after_claim(index, count).remaining
            &&& after.custom_messages is None
            &&& after.trace_id == exec.trace_id
            &&& after.lock == exec.lock
            &&& after.ctx == exec.ctx
        },
{
}

/// Law: the requests of a fan-out are given every stream once, in order. The groups of the requests
/// `0 .. count` of a new execution, put one behind the other, are the streams that it was made with.
pub proof fn law_every_stream_is_delivered_once<S, M, L, C>(
    trace_id: String,
    ctx: C,
    streams: Vec<S>,
    custom_messages: Vec<M>,
    lock: Option<L>,
    r: SharedExec<S, M, L, C>,
    count: usize,
    shares: Seq<Seq<S>>,
)
    requires
        call_ensures(
            new_shared::<S, M, L, C>,
            (trace_id, ctx, streams, custom_messages, lock),
            r,
        ),
        count >= 1,
        shares.len() == count,
        forall|i: int|
            0 <= i < count ==> #[trigger] shares[i] == available(r@.group(i as nat, count as nat)),
    ensures
        shares.flatten() == streams@,
{
    let all = streams@;
    let c = count as nat;
    assert forall|i: int| 0 <= i < count implies #[trigger] shares[i] == all.subrange(
        group_lo(all.len(), i as nat, c) as int,
        group_hi(all.len(), i as nat, c) as int,
    ) by {
        law_groups_lie_within_the_buckets(all.len(), i as nat, c);
        lemma_filled(r@.group(i as nat, c));
        assert(shares[i] =~= all.subrange(
            group_lo(all.len(), i as nat, c) as int,
            group_hi(all.len(), i as nat, c) as int,
        ));
    }
    lemma_flattened(all, c, shares, c);
    assert(shares.take(count as int) =~= shares);
    assert(sharers(c) == c);
    law_groups_make_up_all_streams(all, c);
}

/// The first groups, put one behind the other.
proof fn lemma_flattened<S>(streams: Seq<S>, count: nat, shares: Seq<Seq<S>>, n: nat)
    requires
        n <= shares.len(),
        forall|i: int|
            0 <= i < shares.len() ==> #[trigger] shares[i] == streams.subrange(
                group_lo(streams.len(), i as nat, count) as int,
                group_hi(streams.len(), i as nat, count) as int,
            ),
    ensures
        shares.take(n as int).flatten() == handed_out(streams, count, n),
    decreases n,
{
    let part = shares.take(n as int);
    part.lemma_flatten_and_flatten_alt_are_equivalent();
    if n > 0 {
        let earlier = shares.take(n - 1);
        assert(part.drop_last() =~= earlier);
        assert(part.last() == shares[n - 1]);
        earlier.lemma_flatten_and_flatten_alt_are_equivalent();
        lemma_flattened(streams, count, shares, (n - 1) as nat);
    }
}

/// Law: a claim on a served execution is in order exactly where the request's range of the streams
/// is empty; any other is refused as an internal failure.
pub proof fn law_served_execution_refuses_by_range(
    trace_id: &str,
    streams: usize,
    index: usize,
    count: usize,
    range: (usize, usize),
    r: Result<(), FlightStatus>,
)
    requires
        call_ensures(group_range, (streams, index, count), range),
        call_ensures(claim_of_finished, (trace_id, streams, index, count), r),
    ensures
        r is Ok <==> range.0 == range.1,
        r matches Err(status) ==> status.code is Internal && status.message@ == already_taken_text(
            trace_id@,
            index as nat,
            count as nat,
        ),
{
}

/// Law: a refusal names the execution, the request and the fan-out: the trace id, and behind it the
/// index and the count in decimal.
pub proof fn law_refusal_names_the_request(
    trace_id: Seq<char>,
    index: usize,
    count: usize,
    index_text: String,
    count_text: String,
)
    requires
        call_ensures(decimal_text, (index,), index_text),
        call_ensures(decimal_text, (count,), count_text),
    ensures
        already_taken_text(trace_id, index as nat, count as nat) == "[trace_id "@ + trace_id
            + "] flight->search: do_get fan-out group "@ + index_text@ + "/"@ + count_text@
            + " was already taken (duplicate or retried request)"@,
{
}

/// Law: the end of an execution is seen to once, and whole. The slot is given back first, if the
/// build hands out slots. Where the execution holds a lock, the lock is handed out to be released,
/// and the session is left to it; where it holds none, the session is cleared.
pub proof fn law_cleanup_is_whole<S, M, L, C>(
    exec: SharedExec<S, M, L, C>,
    edition: Edition,
    r: Cleanup<L>,
)
    requires
        call_ensures(SharedExec::<S, M, L, C>::cleanup, (exec, &edition), r),
    ensures
        r.lock == exec@.lock,
        ({
            let id = exec@.trace_id;
            let slot = edition matches Edition::Enterprise(settings)
                && settings.max_nodes_per_query != 0;
            let at: int = if slot { 1 } else { 0 };
            &&& r.actions@.len() == at + (if exec@.lock is Some { 0int } else { 2int })
            &&& slot ==> (r.actions@[0] matches CleanupAction::ReleaseSlot(text) && text@ == id)
            &&& exec@.lock is None ==> {
                &&& r.actions@[at] matches CleanupAction::ClearFileList(text) && text@ == id
                &&& r.actions@[at + 1] matches CleanupAction::ReleaseWal(text) && text@ == id
            }
        }),
{
    let actions = r.actions@;
    assert(steps(actions).len() == actions.len());
    assert forall|i: int| 0 <= i < actions.len() implies steps(actions)[i]
        == #[trigger] actions[i]@ by {}
    if actions.len() > 0 {
        assert(steps(actions)[0] == actions[0]@);
    }
    if actions.len() > 1 {
        assert(steps(actions)[1] == actions[1]@);
    }
    if actions.len() > 2 {
        assert(steps(actions)[2] == actions[2]@);
    }
}

} // verus!
