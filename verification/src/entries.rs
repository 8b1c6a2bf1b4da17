//! Entries under keys, each with the time when it was made.

use vstd::prelude::*;

verus! {

/// A second in nanoseconds.
pub const NANOS_PER_SEC: u128 = 1_000_000_000;

/// What is kept under a key.
pub struct RegistryEntry<V> {
    /// When the entry was made, in nanoseconds of the registry's monotonic clock.
    pub created_at: u128,
    pub content: V,
}

/// How long entries are kept, in seconds: twice the query timeout.
pub open spec fn ttl_secs(query_timeout: u64) -> nat {
    if 2 * query_timeout > u64::MAX {
        u64::MAX as nat
    } else {
        2 * query_timeout as nat
    }
}

/// The time since `created_at`; a clock that has not moved on gives zero.
pub open spec fn age(created_at: u128, now: u128) -> nat {
    if now < created_at {
        0
    } else {
        (now - created_at) as nat
    }
}

impl<V> RegistryEntry<V> {
    /// The entry is young enough to be kept.
    pub open spec fn fresh(self, now: u128, query_timeout: u64) -> bool {
        age(self.created_at, now) <= ttl_secs(query_timeout) * NANOS_PER_SEC
    }
}

/// What an eviction of stale entries leaves.
pub open spec fn retained<V>(
    entries: Map<Seq<char>, RegistryEntry<V>>,
    now: u128,
    query_timeout: u64,
) -> Map<Seq<char>, RegistryEntry<V>> {
    Map::new(
        |key: Seq<char>| entries.dom().contains(key) && entries[key].fresh(now, query_timeout),
        |key: Seq<char>| entries[key],
    )
}

/// The keys of a list, as text.
pub open spec fn key_texts(keys: Seq<String>) -> Seq<Seq<char>> {
    Seq::new(keys.len(), |i: int| keys[i]@)
}

/// Entries under their keys; no key occurs twice.
pub struct Entries<V> {
    rows: Vec<(String, RegistryEntry<V>)>,
}

/// No two entries have the same key.
spec fn distinct<V>(s: Seq<(String, RegistryEntry<V>)>) -> bool {
    forall|i: int, j: int| 0 <= i < j < s.len() ==> #[trigger] s[i].0@ != #[trigger] s[j].0@
}

/// The entry at position `i` has this key.
spec fn holds<V>(s: Seq<(String, RegistryEntry<V>)>, key: Seq<char>, i: int) -> bool {
    0 <= i < s.len() && s[i].0@ == key
}

/// The entries under their keys.
spec fn as_map<V>(s: Seq<(String, RegistryEntry<V>)>) -> Map<Seq<char>, RegistryEntry<V>> {
    Map::new(
        |key: Seq<char>| exists|i: int| holds(s, key, i),
        |key: Seq<char>| s[choose|i: int| holds(s, key, i)].1,
    )
}

impl<V> View for Entries<V> {
    type V = Map<Seq<char>, RegistryEntry<V>>;

    closed spec fn view(&self) -> Map<Seq<char>, RegistryEntry<V>> {
        as_map(self.rows@)
    }
}

/// An entry is found under its key.
proof fn lemma_lookup<V>(s: Seq<(String, RegistryEntry<V>)>, i: int)
    requires
        distinct(s),
        0 <= i < s.len(),
    ensures
        as_map(s).dom().contains(s[i].0@),
        as_map(s)[s[i].0@] == s[i].1,
{
    assert(holds(s, s[i].0@, i));
    let j = choose|j: int| holds(s, s[i].0@, j);
    assert(holds(s, s[i].0@, j));
    assert(i == j);
}

/// Taking an entry out takes its key out.
proof fn lemma_remove<V>(s: Seq<(String, RegistryEntry<V>)>, i: int)
    requires
        distinct(s),
        0 <= i < s.len(),
    ensures
        distinct(s.remove(i)),
        as_map(s.remove(i)) == as_map(s).remove(s[i].0@),
{
    let t = s.remove(i);
    assert forall|a: int, b: int| 0 <= a < b < t.len() implies #[trigger] t[a].0@
        != #[trigger] t[b].0@ by {
        let a0 = if a < i { a } else { a + 1 };
        let b0 = if b < i { b } else { b + 1 };
        assert(t[a] == s[a0] && t[b] == s[b0]);
    }
    assert forall|key: Seq<char>|
        as_map(t).dom().contains(key) <==> as_map(s).remove(s[i].0@).dom().contains(key) by {
        if as_map(t).dom().contains(key) {
            let a = choose|a: int| holds(t, key, a);
            let a0 = if a < i { a } else { a + 1 };
            assert(holds(s, key, a0));
        }
        if as_map(s).remove(s[i].0@).dom().contains(key) {
            let a0 = choose|a: int| holds(s, key, a);
            let a = if a0 < i { a0 } else { a0 - 1 };
            assert(holds(t, key, a));
        }
    }
    assert forall|key: Seq<char>| as_map(t).dom().contains(key) implies as_map(t)[key] == as_map(
        s,
    )[key] by {
        let a = choose|a: int| holds(t, key, a);
        let a0 = if a < i { a } else { a + 1 };
        lemma_lookup(t, a);
        lemma_lookup(s, a0);
    }
    assert(as_map(t) =~= as_map(s).remove(s[i].0@));
}

/// An entry under a new key is put beside the others.
proof fn lemma_push<V>(s: Seq<(String, RegistryEntry<V>)>, e: (String, RegistryEntry<V>))
    requires
        distinct(s),
        !as_map(s).dom().contains(e.0@),
    ensures
        distinct(s.push(e)),
        as_map(s.push(e)) == as_map(s).insert(e.0@, e.1),
{
    let t = s.push(e);
    assert forall|a: int, b: int| 0 <= a < b < t.len() implies #[trigger] t[a].0@
        != #[trigger] t[b].0@ by {
        if b == s.len() {
            lemma_lookup(s, a);
        }
    }
    assert forall|key: Seq<char>|
        as_map(t).dom().contains(key) <==> as_map(s).insert(e.0@, e.1).dom().contains(key) by {
        if as_map(t).dom().contains(key) {
            let a = choose|a: int| holds(t, key, a);
            if a < s.len() {
                assert(holds(s, key, a));
            }
        }
        if as_map(s).dom().contains(key) {
            let a = choose|a: int| holds(s, key, a);
            assert(holds(t, key, a));
        }
        assert(holds(t, e.0@, s.len() as int));
    }
    assert forall|key: Seq<char>| as_map(t).dom().contains(key) implies as_map(t)[key] == as_map(
        s,
    ).insert(e.0@, e.1)[key] by {
        let a = choose|a: int| holds(t, key, a);
        lemma_lookup(t, a);
        if a < s.len() {
            lemma_lookup(s, a);
        }
    }
    assert(as_map(t) =~= as_map(s).insert(e.0@, e.1));
}

/// A pushed element is contained beside the earlier ones.
proof fn lemma_contains_push<A>(s: Seq<A>, a: A)
    ensures
        forall|x: A| #[trigger] s.push(a).contains(x) <==> s.contains(x) || x == a,
{
    assert forall|x: A| #[trigger] s.push(a).contains(x) <==> s.contains(x) || x == a by {
        if s.contains(x) {
            let i = choose|i: int| 0 <= i < s.len() && s[i] == x;
            assert(s.push(a)[i] == x);
        }
        assert(s.push(a)[s.len() as int] == a);
        if s.push(a).contains(x) {
            let i = choose|i: int| 0 <= i < s.push(a).len() && s.push(a)[i] == x;
            if i < s.len() {
                assert(s[i] == x);
            }
        }
    }
}

/// How long entries are kept, in nanoseconds.
fn ttl_nanos(query_timeout: u64) -> (r: u128)
    ensures
        r == ttl_secs(query_timeout) * NANOS_PER_SEC,
{
    let secs: u64 = match query_timeout.checked_mul(2) {
        Some(doubled) => doubled,
        None => u64::MAX,
    };
    assert(secs * NANOS_PER_SEC <= u128::MAX) by (nonlinear_arith)
        requires
            secs <= u64::MAX,
            NANOS_PER_SEC == 1_000_000_000,
    ;
    secs as u128 * NANOS_PER_SEC
}

impl<V> Entries<V> {
    /// The keys are told apart.
    pub closed spec fn wf(self) -> bool {
        distinct(self.rows@)
    }

    /// No entries.
    pub fn new() -> (r: Entries<V>)
        ensures
            r.wf(),
            r@ == Map::<Seq<char>, RegistryEntry<V>>::empty(),
    {
        let r: Entries<V> = Entries { rows: Vec::new() };
        assert(r@ =~= Map::<Seq<char>, RegistryEntry<V>>::empty());
        r
    }

    /// The position of the entry of `key`.
    fn find(&self, key: &String) -> (r: Option<usize>)
        requires
            self.wf(),
        ensures
            match r {
                Some(i) => {
                    &&& i < self.rows@.len()
                    &&& self.rows@[i as int].0@ == key@
                    &&& self@.dom().contains(key@)
                    &&& self@[key@] == self.rows@[i as int].1
                },
                None => !self@.dom().contains(key@),
            },
    {
        let mut i: usize = 0;
        while i < self.rows.len()
            invariant
                self.wf(),
                i <= self.rows@.len(),
                forall|j: int| 0 <= j < i ==> #[trigger] self.rows@[j].0@ != key@,
            decreases self.rows@.len() - i,
        {
            if self.rows[i].0 == *key {
                proof {
                    lemma_lookup(self.rows@, i as int);
                }
                return Some(i);
            }
            i += 1;
        }
        proof {
            if self@.dom().contains(key@) {
                let j = choose|j: int| holds(self.rows@, key@, j);
                assert(holds(self.rows@, key@, j));
            }
        }
        None
    }

    /// The entry of `key`.
    pub fn get(&self, key: &String) -> (r: Option<&RegistryEntry<V>>)
        requires
            self.wf(),
        ensures
            match r {
                Some(entry) => self@.dom().contains(key@) && *entry == self@[key@],
                None => !self@.dom().contains(key@),
            },
    {
        match self.find(key) {
            Some(i) => Some(&self.rows[i].1),
            None => None,
        }
    }

    /// Put an entry under a key that has none.
    pub fn insert(&mut self, key: String, entry: RegistryEntry<V>)
        requires
            old(self).wf(),
            !old(self)@.dom().contains(key@),
        ensures
            final(self).wf(),
            final(self)@ == old(self)@.insert(key@, entry),
    {
        proof {
            lemma_push(self.rows@, (key, entry));
        }
        self.rows.push((key, entry));
    }

    /// Forget the entry of `key`, and return it.
    pub fn remove(&mut self, key: &String) -> (r: Option<RegistryEntry<V>>)
        requires
            old(self).wf(),
        ensures
            final(self).wf(),
            final(self)@ == old(self)@.remove(key@),
            match r {
                Some(entry) => old(self)@.dom().contains(key@) && entry == old(self)@[key@],
                None => !old(self)@.dom().contains(key@),
            },
    {
        match self.find(key) {
            Some(i) => {
                proof {
                    lemma_remove(self.rows@, i as int);
                }
                let (_, entry) = self.rows.remove(i);
                Some(entry)
            },
            None => {
                assert(self@ =~= self@.remove(key@));
                None
            },
        }
    }

    /// Evict the stale entries. Their keys are returned, in no particular order.
    pub fn sweep(&mut self, now: u128, query_timeout: u64) -> (r: Vec<String>)
        requires
            old(self).wf(),
        ensures
            final(self).wf(),
            final(self)@ == retained(old(self)@, now, query_timeout),
            key_texts(r@).no_duplicates(),
            forall|key: Seq<char>| #[trigger]
                key_texts(r@).contains(key) <==> old(self)@.dom().contains(key) && !old(
                    self,
                )@[key].fresh(now, query_timeout),
    {
        let mut evicted: Vec<String> = Vec::new();
        let ttl: u128 = ttl_nanos(query_timeout);
        let mut i: usize = 0;
        while i < self.rows.len()
            invariant
                self.wf(),
                i <= self.rows@.len(),
                ttl == ttl_secs(query_timeout) * NANOS_PER_SEC,
                forall|j: int|
                    0 <= j < i ==> (#[trigger] self.rows@[j]).1.fresh(now, query_timeout),
                retained(self@, now, query_timeout) == retained(
                    old(self)@,
                    now,
                    query_timeout,
                ),
                key_texts(evicted@).no_duplicates(),
                forall|key: Seq<char>| #[trigger]
                    key_texts(evicted@).contains(key) <==> old(self)@.dom().contains(key)
                        && !self@.dom().contains(key),
                forall|key: Seq<char>| #[trigger]
                    self@.dom().contains(key) ==> old(self)@.dom().contains(key)
                        && self@[key] == old(self)@[key],
            decreases self.rows@.len() - i,
        {
            let created_at: u128 = self.rows[i].1.created_at;
            let elapsed: u128 = if now < created_at {
                0
            } else {
                now - created_at
            };
            if elapsed <= ttl {
                i += 1;
            } else {
                let ghost before = self.rows@;
                let ghost keys = key_texts(evicted@);
                proof {
                    lemma_remove(before, i as int);
                    lemma_lookup(before, i as int);
                    assert(!keys.contains(before[i as int].0@));
                }
                let (key, _) = self.rows.remove(i);
                evicted.push(key);
                proof {
                    assert(retained(as_map(before).remove(key@), now, query_timeout) =~= retained(
                        as_map(before),
                        now,
                        query_timeout,
                    ));
                    assert(key_texts(evicted@) =~= keys.push(key@));
                    lemma_contains_push(keys, key@);
                    assert forall|a: int, b: int|
                        0 <= a < b < keys.push(key@).len() implies #[trigger] keys.push(key@)[a]
                        != #[trigger] keys.push(key@)[b] by {
                        assert(keys.contains(keys[a]));
                    }
                }
            }
        }
        proof {
            assert forall|key: Seq<char>| #[trigger]
                self@.dom().contains(key) implies self@[key].fresh(now, query_timeout) by {
                let j = choose|j: int| holds(self.rows@, key, j);
                assert(holds(self.rows@, key, j));
                lemma_lookup(self.rows@, j);
            }
            assert(retained(self@, now, query_timeout) =~= self@);
        }
        evicted
    }
}

/// Law: an entry is kept for twice the query timeout, to the nanosecond, and not longer. The clock
/// may stand before the entry, which then has no age. Where twice the timeout is more seconds than a
/// `u64` counts, the largest such number stands for it.
pub proof fn law_entries_are_kept_for_twice_the_timeout<V>(
    entry: RegistryEntry<V>,
    now: u128,
    query_timeout: u64,
)
    ensures
        2 * query_timeout <= u64::MAX ==> (entry.fresh(now, query_timeout) <==> now
            - entry.created_at <= 2 * query_timeout * 1_000_000_000),
        2 * query_timeout > u64::MAX ==> (entry.fresh(now, query_timeout) <==> now
            - entry.created_at <= u64::MAX * 1_000_000_000),
        now <= entry.created_at ==> entry.fresh(now, query_timeout),
{
    assert(ttl_secs(query_timeout) * NANOS_PER_SEC >= 0) by (nonlinear_arith);
}

/// Law: a longer timeout, or an earlier look, evicts nothing that is kept otherwise.
pub proof fn law_longer_timeouts_keep_more<V>(
    entry: RegistryEntry<V>,
    now: u128,
    earlier: u128,
    query_timeout: u64,
    longer: u64,
)
    requires
        entry.fresh(now, query_timeout),
        earlier <= now,
        query_timeout <= longer,
    ensures
        entry.fresh(earlier, longer),
{
    assert(ttl_secs(query_timeout) * NANOS_PER_SEC <= ttl_secs(longer) * NANOS_PER_SEC)
        by (nonlinear_arith)
        requires
            ttl_secs(query_timeout) <= ttl_secs(longer),
            NANOS_PER_SEC == 1_000_000_000,
    ;
}

/// Law: a sweep takes the entries that are too old, and nothing else; those that stay do not change.
pub proof fn law_sweep_goes_by_age<V>(
    entries: Map<Seq<char>, RegistryEntry<V>>,
    key: Seq<char>,
    now: u128,
    query_timeout: u64,
)
    ensures
        2 * query_timeout <= u64::MAX ==> (retained(entries, now, query_timeout).dom().contains(key)
            <==> entries.dom().contains(key) && now - entries[key].created_at <= 2 * query_timeout
            * 1_000_000_000),
        2 * query_timeout > u64::MAX ==> (retained(entries, now, query_timeout).dom().contains(key)
            <==> entries.dom().contains(key) && now - entries[key].created_at <= u64::MAX
            * 1_000_000_000),
        retained(entries, now, query_timeout).dom().contains(key) ==> retained(
            entries,
            now,
            query_timeout,
        )[key] == entries[key],
{
    law_entries_are_kept_for_twice_the_timeout(entries[key], now, query_timeout);
}

/// Law: the texts of keys are those of each key, in order, and no key is left out.
pub proof fn law_key_texts_are_the_keys(keys: Seq<String>, i: int)
    ensures
        key_texts(keys).len() == keys.len(),
        0 <= i < keys.len() ==> key_texts(keys)[i] == keys[i]@,
{
}

} // verus!
