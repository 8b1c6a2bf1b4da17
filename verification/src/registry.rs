//! The registry of shared executions.
//!
//! All requests of one fan-out carry the same key. The first one finds no entry and leaves a cell
//! under the key; the execution is built into that cell, and the other requests pick the cell up.
//! An entry leaves the registry when all streams of its execution have been claimed, when its build
//! failed, or when it has become too old for its leader to come back. In the first case the
//! registry remembers that the fan-out was served, for as long as it would have kept the entry: a
//! request that comes late, or once more, starts no second execution.

use crate::entries::{key_texts, law_sweep_goes_by_age, retained, Entries, RegistryEntry};
use crate::status::FlightStatus;
use std::sync::Arc;
use tokio::sync::OnceCell;
use vstd::prelude::*;

verus! {

/// The cell that an execution is built into, shared by all requests of its fan-out.
pub type SharedCell<X> = Arc<OnceCell<X>>;

/// What a request finds under its key.
#[verifier::reject_recursive_types(X)]
pub enum Found<X> {
    /// The cell of the execution that it shares.
    Cell(SharedCell<X>),
    /// The execution had this many streams, and all of them have been claimed.
    Finished(usize),
}

/// How a request finds its cell: stale entries are evicted, and an entry that is left under the key
/// keeps its cell and its age. Where none is left, `cell` is put under the key as of `now`.
pub open spec fn joined<X>(
    before: Map<Seq<char>, RegistryEntry<SharedCell<X>>>,
    key: Seq<char>,
    now: u128,
    query_timeout: u64,
    after: Map<Seq<char>, RegistryEntry<SharedCell<X>>>,
    cell: SharedCell<X>,
) -> bool {
    let kept = retained(before, now, query_timeout);
    if kept.dom().contains(key) {
        &&& cell == kept[key].content
        &&& after == kept
    } else {
        after == kept.insert(key, RegistryEntry { created_at: now, content: cell })
    }
}

/// What a registry holds.
#[verifier::reject_recursive_types(X)]
pub struct RegistryView<X> {
    /// The executions under way, or the places for them, by key.
    pub entries: Map<Seq<char>, RegistryEntry<SharedCell<X>>>,
    /// The numbers of streams of the executions whose streams have all been claimed, by key. Such a
    /// record is as old as the entry was.
    pub finished: Map<Seq<char>, RegistryEntry<usize>>,
}

impl<X> RegistryView<X> {
    /// What an eviction of everything stale leaves.
    pub open spec fn swept(self, now: u128, query_timeout: u64) -> RegistryView<X> {
        RegistryView {
            entries: retained(self.entries, now, query_timeout),
            finished: retained(self.finished, now, query_timeout),
        }
    }

    /// A request that looks under `key` is given `found`, and leaves the registry as `after`. The
    /// stale is evicted first. Where the fan-out was served, there is nothing to join.
    pub open spec fn looked(
        self,
        key: Seq<char>,
        now: u128,
        query_timeout: u64,
        after: RegistryView<X>,
        found: Found<X>,
    ) -> bool {
        let kept = self.swept(now, query_timeout);
        &&& after.finished == kept.finished
        &&& match found {
            Found::Finished(streams) => {
                &&& kept.finished.dom().contains(key)
                &&& streams == kept.finished[key].content
                &&& after.entries == kept.entries
            },
            Found::Cell(cell) => {
                &&& !kept.finished.dom().contains(key)
                &&& joined(self.entries, key, now, query_timeout, after.entries, cell)
            },
        }
    }

    /// The registry without the entry of `key`.
    pub open spec fn forgets(self, key: Seq<char>) -> RegistryView<X> {
        RegistryView { entries: self.entries.remove(key), ..self }
    }

    /// The registry once all `streams` streams of the execution under `key` have been claimed. The
    /// entry gives way to a record of its age; where there is no entry, nothing is recorded.
    pub open spec fn finishes(self, key: Seq<char>, streams: usize) -> RegistryView<X> {
        if self.entries.dom().contains(key) {
            RegistryView {
                entries: self.entries.remove(key),
                finished: self.finished.insert(
                    key,
                    RegistryEntry {
                        created_at: self.entries[key].created_at,
                        content: streams,
                    },
                ),
            }
        } else {
            self
        }
    }
}

/// The shared executions of a follower, and those that have been served.
#[verifier::reject_recursive_types(X)]
pub struct Registry<X> {
    entries: Entries<SharedCell<X>>,
    finished: Entries<usize>,
}

impl<X> View for Registry<X> {
    type V = RegistryView<X>;

    closed spec fn view(&self) -> RegistryView<X> {
        RegistryView { entries: self.entries@, finished: self.finished@ }
    }
}

impl<X> Registry<X> {
    /// The keys of the registry are told apart, and no key is both under way and served.
    pub closed spec fn wf(self) -> bool {
        &&& self.entries.wf()
        &&& self.finished.wf()
        &&& forall|key: Seq<char>| #[trigger]
            self.finished@.dom().contains(key) ==> !self.entries@.dom().contains(key)
    }

    /// A registry without entries.
    pub fn new() -> (r: Registry<X>)
        ensures
            r.wf(),
            r@.entries == Map::<Seq<char>, RegistryEntry<SharedCell<X>>>::empty(),
            r@.finished == Map::<Seq<char>, RegistryEntry<usize>>::empty(),
    {
        Registry { entries: Entries::new(), finished: Entries::new() }
    }

    /// Forget the entry of a failed build, unless its cell has been filled after all.
    pub fn discard_unfilled(&mut self, key: &String, filled: bool)
        requires
            old(self).wf(),
        ensures
            final(self).wf(),
            final(self)@ == (if filled { old(self)@ } else { old(self)@.forgets(key@) }),
    {
        if !filled {
            self.entries.remove(key);
        }
    }

    /// Hand the outcome of a build on. After a failure the entry goes, so that failed queries do
    /// not pin the registry; it stays where a look into its cell shows that another request has
    /// filled it in the meantime.
    pub fn build_finished<V>(
        &mut self,
        key: &String,
        outcome: Result<V, FlightStatus>,
    ) -> (r: Result<V, FlightStatus>)
        requires
            old(self).wf(),
        ensures
            final(self).wf(),
            r == outcome,
            outcome is Ok ==> final(self)@ == old(self)@,
            outcome is Err && !old(self)@.entries.dom().contains(key@) ==> final(self)@ == old(
                self,
            )@,
            outcome is Err && old(self)@.entries.dom().contains(key@) ==> exists|seen: Option<&X>|
                #[trigger] call_ensures(
                    OnceCell::<X>::get,
                    (&*old(self)@.entries[key@].content,),
                    seen,
                ) && final(self)@ == (if seen is Some {
                    old(self)@
                } else {
                    old(self)@.forgets(key@)
                }),
    {
        if outcome.is_err() {
            let filled = match self.entries.get(key) {
                Some(entry) => entry.content.get().is_some(),
                None => true,
            };
            self.discard_unfilled(key, filled);
        }
        outcome
    }

    /// Drop the handle on an execution whose streams have all been claimed, and remember how many
    /// there were.
    pub fn finish(&mut self, key: &String, streams: usize)
        requires
            old(self).wf(),
        ensures
            final(self).wf(),
            final(self)@ == old(self)@.finishes(key@, streams),
    {
        match self.entries.remove(key) {
            Some(entry) => {
                let record = RegistryEntry { created_at: entry.created_at, content: streams };
                self.finished.insert(key.clone(), record);
            },
            None => {
                assert(self.entries@ =~= old(self).entries@);
            },
        }
    }
}

/// Evict what is older than the registry keeps it. The leader of a stale entry can no longer come
/// back for the groups that it has not claimed; the keys of these entries are returned, in no
/// particular order. A stale record of a served fan-out goes without mention.
pub fn sweep_stale<X>(registry: &mut Registry<X>, now: u128, query_timeout: u64) -> (r: Vec<String>)
    requires
        old(registry).wf(),
    ensures
        final(registry).wf(),
        final(registry)@ == old(registry)@.swept(now, query_timeout),
        key_texts(r@).no_duplicates(),
        forall|key: Seq<char>| #[trigger]
            key_texts(r@).contains(key) <==> old(registry)@.entries.dom().contains(key) && !old(
                registry,
            )@.entries[key].fresh(now, query_timeout),
{
    registry.finished.sweep(now, query_timeout);
    registry.entries.sweep(now, query_timeout)
}

/// Join the fan-out of `key`, or start it with the cell `fresh`, unless it has been served.
pub fn join_or_insert<X>(
    registry: &mut Registry<X>,
    key: String,
    now: u128,
    query_timeout: u64,
    fresh: SharedCell<X>,
) -> (r: Found<X>)
    requires
        old(registry).wf(),
    ensures
        final(registry).wf(),
        old(registry)@.looked(key@, now, query_timeout, final(registry)@, r),
        r matches Found::Cell(cell) ==> (!old(registry)@.swept(
            now,
            query_timeout,
        ).entries.dom().contains(key@) ==> cell == fresh),
{
    sweep_stale(registry, now, query_timeout);
    match registry.finished.get(&key) {
        Some(record) => {
            return Found::Finished(record.content);
        },
        None => {},
    }
    let shared = match registry.entries.get(&key) {
        Some(entry) => Some(entry.content.clone()),
        None => None,
    };
    match shared {
        Some(cell) => Found::Cell(cell),
        None => {
            let entry = RegistryEntry { created_at: now, content: fresh.clone() };
            registry.entries.insert(key, entry);
            Found::Cell(fresh)
        },
    }
}

/// Look for the execution that requests with this key share. Where a cell is found, the caller
/// builds the execution into it unless another request has done so, and then calls
/// `build_finished`. A fan-out starts with a cell that was made for it. Where the fan-out has been
/// served, nothing is to be built: see `claim_of_finished`.
pub fn get_or_build<X>(
    registry: &mut Registry<X>,
    key: String,
    now: u128,
    query_timeout: u64,
) -> (r: Found<X>)
    requires
        old(registry).wf(),
    ensures
        final(registry).wf(),
        old(registry)@.looked(key@, now, query_timeout, final(registry)@, r),
        r matches Found::Cell(cell) ==> (!old(registry)@.swept(
            now,
            query_timeout,
        ).entries.dom().contains(key@) ==> call_ensures(OnceCell::<X>::new, (), *cell)),
{
    join_or_insert(registry, key, now, query_timeout, Arc::new(OnceCell::new()))
}

/// Law: a fan-out is either under way or served, never both.
pub proof fn law_served_fan_outs_have_no_entry<X>(registry: Registry<X>, key: Seq<char>)
    requires
        registry.wf(),
        registry@.finished.dom().contains(key),
    ensures
        !registry@.entries.dom().contains(key),
{
}

/// Law: requests with the same key share one cell as long as the entry is young enough. Whatever
/// cell the first request was given, the second one is given the same, and the entry keeps the age
/// that it got from the first.
pub proof fn law_requests_share_one_cell<X>(
    r0: RegistryView<X>,
    r1: RegistryView<X>,
    r2: RegistryView<X>,
    key: Seq<char>,
    first: u128,
    first_timeout: u64,
    cell: SharedCell<X>,
    second: u128,
    second_timeout: u64,
    found: Found<X>,
)
    requires
        r0.looked(key, first, first_timeout, r1, Found::Cell(cell)),
        r1.looked(key, second, second_timeout, r2, found),
        r1.entries[key].fresh(second, second_timeout),
    ensures
        found == Found::Cell(cell),
        r2.entries.dom().contains(key),
        r2.entries[key] == r1.entries[key],
{
}

/// Law: a served fan-out stays served as long as the record is young enough. Every request is told
/// so, and none starts another execution.
pub proof fn law_served_fan_outs_stay_served<X>(
    before: RegistryView<X>,
    after: RegistryView<X>,
    key: Seq<char>,
    now: u128,
    query_timeout: u64,
    found: Found<X>,
)
    requires
        before.looked(key, now, query_timeout, after, found),
        before.finished.dom().contains(key),
        before.finished[key].fresh(now, query_timeout),
    ensures
        found == Found::<X>::Finished(before.finished[key].content),
        after.finished.dom().contains(key),
        after.finished[key] == before.finished[key],
        after.entries.dom().contains(key) ==> before.entries.dom().contains(key),
{
}

/// Law: a request touches no other fan-out. Under every other key it leaves the entry, or the
/// record, as it was, or evicts it for its age.
pub proof fn law_other_fan_outs_keep_their_entries<X>(
    before: RegistryView<X>,
    after: RegistryView<X>,
    key: Seq<char>,
    other: Seq<char>,
    now: u128,
    query_timeout: u64,
    found: Found<X>,
)
    requires
        before.looked(key, now, query_timeout, after, found),
        other != key,
    ensures
        after.entries.dom().contains(other) <==> before.entries.dom().contains(other)
            && before.entries[other].fresh(now, query_timeout),
        after.entries.dom().contains(other) ==> after.entries[other] == before.entries[other],
        after.finished.dom().contains(other) <==> before.finished.dom().contains(other)
            && before.finished[other].fresh(now, query_timeout),
        after.finished.dom().contains(other) ==> after.finished[other] == before.finished[other],
{
}

/// Law: nothing that is abandoned stays. After any request, whichever its key, every entry and every
/// record is at most twice the query timeout old.
pub proof fn law_no_entry_outlives_its_time<X>(
    before: RegistryView<X>,
    after: RegistryView<X>,
    key: Seq<char>,
    now: u128,
    query_timeout: u64,
    found: Found<X>,
)
    requires
        before.looked(key, now, query_timeout, after, found),
    ensures
        forall|k: Seq<char>| #[trigger]
            after.entries.dom().contains(k) ==> after.entries[k].fresh(now, query_timeout),
        forall|k: Seq<char>| #[trigger]
            after.finished.dom().contains(k) ==> after.finished[k].fresh(now, query_timeout),
{
}

/// Law: what is stale never becomes fresh again, and evicting twice is evicting once.
pub proof fn law_stale_entries_stay_stale<X>(
    registry: RegistryView<X>,
    now: u128,
    later: u128,
    query_timeout: u64,
)
    requires
        now <= later,
    ensures
        registry.swept(now, query_timeout).swept(later, query_timeout) == registry.swept(
            later,
            query_timeout,
        ),
{
    let twice = registry.swept(now, query_timeout).swept(later, query_timeout);
    let once = registry.swept(later, query_timeout);
    assert(twice.entries =~= once.entries);
    assert(twice.finished =~= once.finished);
}

/// Law: a failed query is built anew. Once the entry of a failed build is gone, the next request
/// with that key starts with an entry of its own age.
pub proof fn law_failed_build_is_retried<X>(
    before: RegistryView<X>,
    after: RegistryView<X>,
    key: Seq<char>,
    now: u128,
    query_timeout: u64,
    found: Found<X>,
)
    requires
        !before.finished.dom().contains(key),
        before.forgets(key).looked(key, now, query_timeout, after, found),
    ensures
        found matches Found::Cell(cell) && after.entries.dom().contains(key)
            && after.entries[key] == (RegistryEntry { created_at: now, content: cell }),
{
}

/// Law: what is young enough is found again. A request keeps every entry and every record that is no
/// older than twice the query timeout, whichever key it looks under, and evicts every older one. A
/// request that looks under the key of a young entry is given its cell, and under the key of a young
/// record, the number of streams in it.
pub proof fn law_young_fan_outs_are_found_again<X>(
    before: RegistryView<X>,
    after: RegistryView<X>,
    key: Seq<char>,
    now: u128,
    query_timeout: u64,
    found: Found<X>,
    k: Seq<char>,
)
    requires
        before.looked(key, now, query_timeout, after, found),
        2 * query_timeout <= u64::MAX,
    ensures
        before.entries.dom().contains(k) && now - before.entries[k].created_at <= 2 * query_timeout
            * 1_000_000_000 ==> {
            &&& after.entries.dom().contains(k)
            &&& after.entries[k] == before.entries[k]
            &&& k == key && !before.finished.dom().contains(key) ==> found == Found::Cell(
                before.entries[k].content,
            )
        },
        before.finished.dom().contains(k) && now - before.finished[k].created_at <= 2
            * query_timeout * 1_000_000_000 ==> {
            &&& after.finished.dom().contains(k)
            &&& after.finished[k] == before.finished[k]
            &&& k == key ==> found == Found::<X>::Finished(before.finished[k].content)
        },
        before.finished.dom().contains(k) && now - before.finished[k].created_at > 2
            * query_timeout * 1_000_000_000 ==> !after.finished.dom().contains(k),
        before.entries.dom().contains(k) && k != key && now - before.entries[k].created_at > 2
            * query_timeout * 1_000_000_000 ==> !after.entries.dom().contains(k),
        before.entries.dom().contains(key) && now - before.entries[key].created_at > 2
            * query_timeout * 1_000_000_000 && found is Cell ==> after.entries[key]
            == (RegistryEntry { created_at: now, content: found->Cell_0 }),
{
    law_sweep_goes_by_age(before.entries, k, now, query_timeout);
    law_sweep_goes_by_age(before.finished, k, now, query_timeout);
    law_sweep_goes_by_age(before.entries, key, now, query_timeout);
}

/// Law: a request adds an entry under its own key at most, and only where it is given a cell. An
/// entry that it adds is of its own time, and holds the cell that it is given. It adds no record.
pub proof fn law_look_adds_its_own_entry_at_most<X>(
    before: RegistryView<X>,
    after: RegistryView<X>,
    key: Seq<char>,
    now: u128,
    query_timeout: u64,
    found: Found<X>,
    k: Seq<char>,
)
    requires
        before.looked(key, now, query_timeout, after, found),
    ensures
        after.finished.dom().contains(k) ==> before.finished.dom().contains(k)
            && after.finished[k] == before.finished[k],
        after.entries.dom().contains(k) && k != key ==> before.entries.dom().contains(k)
            && after.entries[k] == before.entries[k],
        found is Cell ==> after.entries.dom().contains(key) && after.entries[key].content
            == found->Cell_0,
        found is Finished ==> before.finished.dom().contains(key) && (after.entries.dom().contains(
            key,
        ) ==> before.entries.dom().contains(key)),
        !before.entries.dom().contains(key) && !before.finished.dom().contains(key) ==> found
            is Cell && after.entries[key].created_at == now,
{
}

/// Law: two requests of a fan-out share. The second one, if it looks no later than twice the query
/// timeout after the first, is given the same cell.
pub proof fn law_second_request_is_given_the_same_cell<X>(
    r0: RegistryView<X>,
    r1: RegistryView<X>,
    r2: RegistryView<X>,
    key: Seq<char>,
    first: u128,
    second: u128,
    query_timeout: u64,
    cell: SharedCell<X>,
    found: Found<X>,
)
    requires
        !r0.entries.dom().contains(key),
        r0.looked(key, first, query_timeout, r1, Found::Cell(cell)),
        r1.looked(key, second, query_timeout, r2, found),
        2 * query_timeout <= u64::MAX,
        second - first <= 2 * query_timeout * 1_000_000_000,
    ensures
        found == Found::Cell(cell),
{
    law_young_fan_outs_are_found_again(r1, r2, key, second, query_timeout, found, key);
}

/// Law: finishing a fan-out turns its entry into a record of the same age, and touches no other. A
/// fan-out without an entry leaves no record.
pub proof fn law_finishing_touches_one_fan_out<X>(
    registry: RegistryView<X>,
    key: Seq<char>,
    streams: usize,
    other: Seq<char>,
)
    requires
        other != key,
    ensures
        ({
            let after = registry.finishes(key, streams);
            &&& !after.entries.dom().contains(key)
            &&& registry.entries.dom().contains(key) ==> {
                &&& after.finished.dom().contains(key)
                &&& after.finished[key].created_at == registry.entries[key].created_at
                &&& after.finished[key].content == streams
            }
            &&& !registry.entries.dom().contains(key) ==> after == registry
            &&& after.entries.dom().contains(other) <==> registry.entries.dom().contains(other)
            &&& after.entries.dom().contains(other) ==> after.entries[other]
                == registry.entries[other]
            &&& after.finished.dom().contains(other) <==> registry.finished.dom().contains(other)
            &&& after.finished.dom().contains(other) ==> after.finished[other]
                == registry.finished[other]
        }),
{
}

/// Law: forgetting a failed build takes its entry out, and nothing else.
pub proof fn law_forgetting_touches_one_entry<X>(
    registry: RegistryView<X>,
    key: Seq<char>,
    other: Seq<char>,
)
    requires
        other != key,
    ensures
        ({
            let after = registry.forgets(key);
            &&& !after.entries.dom().contains(key)
            &&& after.entries.dom().contains(other) <==> registry.entries.dom().contains(other)
            &&& after.entries.dom().contains(other) ==> after.entries[other]
                == registry.entries[other]
            &&& after.finished == registry.finished
        }),
{
}

/// Law: a sweep of the registry takes old entries and old records by the same rule, and what stays
/// does not change.
pub proof fn law_sweep_treats_entries_and_records_alike<X>(
    registry: RegistryView<X>,
    key: Seq<char>,
    now: u128,
    query_timeout: u64,
)
    requires
        2 * query_timeout <= u64::MAX,
    ensures
        ({
            let after = registry.swept(now, query_timeout);
            &&& after.entries.dom().contains(key) <==> registry.entries.dom().contains(key) && now
                - registry.entries[key].created_at <= 2 * query_timeout * 1_000_000_000
            &&& after.entries.dom().contains(key) ==> after.entries[key] == registry.entries[key]
            &&& after.finished.dom().contains(key) <==> registry.finished.dom().contains(key) && now
                - registry.finished[key].created_at <= 2 * query_timeout * 1_000_000_000
            &&& after.finished.dom().contains(key) ==> after.finished[key] == registry.finished[key]
        }),
{
    law_sweep_goes_by_age(registry.entries, key, now, query_timeout);
    law_sweep_goes_by_age(registry.finished, key, now, query_timeout);
}

} // verus!
