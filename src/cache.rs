use vstd::prelude::*;

use crate::placeholder::last_value;
use crate::text::pairs_view;

verus! {

/// One cached value, with its metadata tags and the time it was put in
/// (seconds since the Unix epoch).
#[derive(Debug)]
pub struct CacheEntry<T> {
    pub data: T,
    pub metadata: Vec<(String, String)>,
    pub inserted_at: u64,
}

/// A keyed store of values, tagged with the version of its layout. Each key
/// names at most one entry.
#[derive(Debug)]
pub struct Cache<T> {
    pub version: String,
    pub entries: Vec<(String, CacheEntry<T>)>,
}

/// The position of the entry under `k`, looking from `i` on.
pub open spec fn key_index_from<T>(e: Seq<(String, CacheEntry<T>)>, k: Seq<char>, i: int) -> Option<
    int,
>
    decreases e.len() - i,
{
    if i < 0 || i >= e.len() {
        None
    } else if e[i].0@ == k {
        Some(i)
    } else {
        key_index_from(e, k, i + 1)
    }
}

/// The entries, in order, whose metadata gives `field` the value `value`,
/// as key and value.
pub open spec fn tagged<T>(e: Seq<(String, CacheEntry<T>)>, field: Seq<char>, value: Seq<char>) -> Seq<
    (Seq<char>, T),
>
    decreases e.len(),
{
    if e.len() == 0 {
        Seq::empty()
    } else {
        let rest = tagged(e.drop_last(), field, value);
        if last_value(pairs_view(e.last().1.metadata@), field) == Some(value) {
            rest.push((e.last().0@, e.last().1.data))
        } else {
            rest
        }
    }
}

/// Relies on `SystemTime::now`: the current time, read as whole seconds
/// since the Unix epoch (0 for a clock set before it).
#[verifier::external_body]
fn now_secs() -> u64 {
    std::time::SystemTime::now().duration_since(std::time::UNIX_EPOCH).map_or(0, |d| d.as_secs())
}

impl<T> Cache<T> {
    /// Each key names at most one entry.
    pub open spec fn wf(&self) -> bool {
        forall|i: int, j: int|
            0 <= i < j < self.entries@.len() ==> self.entries@[i].0@ != self.entries@[j].0@
    }

    /// The entry under `k`, if any.
    pub open spec fn entry(&self, k: Seq<char>) -> Option<CacheEntry<T>> {
        match key_index_from(self.entries@, k, 0) {
            Some(i) => Some(self.entries@[i].1),
            None => None,
        }
    }

    /// An empty cache tagged with `version`.
    pub fn new(version: &str) -> (r: Cache<T>)
        ensures
            r.wf(),
            r.version@ == version@,
            forall|k: Seq<char>| r.entry(k) is None,
    {
        Cache { version: String::from_str(version), entries: Vec::new() }
    }

    /// How many entries there are.
    pub fn len(&self) -> (r: usize)
        ensures
            r == self.entries@.len(),
    {
        self.entries.len()
    }

    fn position(&self, key: &String) -> (r: Option<usize>)
        ensures
            match r {
                Some(i) => key_index_from(self.entries@, key@, 0) == Some(i as int) && i
                    < self.entries@.len(),
                None => key_index_from(self.entries@, key@, 0) is None,
            },
    {
        let mut i: usize = 0;
        while i < self.entries.len()
            invariant
                i <= self.entries@.len(),
                key_index_from(self.entries@, key@, 0) == key_index_from(
                    self.entries@,
                    key@,
                    i as int,
                ),
            decreases self.entries@.len() - i,
        {
            if self.entries[i].0 == *key {
                return Some(i);
            }
            i = i + 1;
        }
        None
    }

    proof fn lemma_key_index(&self, k: Seq<char>, i: int)
        requires
            self.wf(),
            0 <= i < self.entries@.len(),
            self.entries@[i].0@ == k,
        ensures
            key_index_from(self.entries@, k, 0) == Some(i),
    {
        assert forall|m: int| 0 <= m <= i implies key_index_from(self.entries@, k, m) == Some(i) by {
            lemma_key_index_step(self.entries@, k, i, m);
        }
    }

    proof fn lemma_key_absent(&self, k: Seq<char>)
        requires
            forall|i: int| 0 <= i < self.entries@.len() ==> self.entries@[i].0@ != k,
        ensures
            key_index_from(self.entries@, k, 0) is None,
    {
        lemma_key_absent_from(self.entries@, k, 0);
    }

    /// Puts `value` under `key` with the given metadata and time, replacing
    /// any entry that the key already named.
    pub fn insert_at(
        &mut self,
        key: String,
        value: T,
        metadata: Vec<(String, String)>,
        inserted_at: u64,
    )
        requires
            old(self).wf(),
        ensures
            final(self).wf(),
            final(self).version == old(self).version,
            final(self).entry(key@) == Some(CacheEntry { data: value, metadata, inserted_at }),
            forall|k: Seq<char>| k != key@ ==> final(self).entry(k) == old(self).entry(k),
    {
        let ghost key_v = key@;
        let ghost new_entry = CacheEntry { data: value, metadata, inserted_at };
        let ghost before = self.entries@;
        match self.position(&key) {
            Some(i) => {
                self.entries.set(i, (key, CacheEntry { data: value, metadata, inserted_at }));
                proof {
                    assert(self.entries@ == before.update(i as int, (key, new_entry)));
                    assert forall|a: int, b: int|
                        0 <= a < b < self.entries@.len() implies self.entries@[a].0@
                        != self.entries@[b].0@ by {
                        lemma_found_is_key(before, key_v, 0);
                        if a != i {
                            lemma_key_index_first(before, key_v, i as int, a);
                        }
                        if b != i {
                            lemma_key_index_first(before, key_v, i as int, b);
                        }
                    }
                    self.lemma_key_index(key_v, i as int);
                    lemma_found_is_key(before, key_v, 0);
                    assert(before[i as int].0@ == key_v);
                    assert(self.entries@[i as int].0@ == key_v);
                    assert forall|k: Seq<char>| k != key_v implies self.entry(k) == old(
                        self,
                    ).entry(k) by {
                        lemma_same_lookup(before, self.entries@, k, i as int);
                    }
                }
            },
            None => {
                self.entries.push((key, CacheEntry { data: value, metadata, inserted_at }));
                proof {
                    lemma_key_none(before, key_v, 0);
                    self.lemma_key_index(key_v, before.len() as int);
                    assert forall|k: Seq<char>| k != key_v implies self.entry(k) == old(
                        self,
                    ).entry(k) by {
                        lemma_push_lookup(before, self.entries@, k);
                    }
                }
            },
        }
    }

    /// Puts `value` under `key` with the given metadata, stamped with the
    /// current time, replacing any entry that the key already named.
    pub fn insert_with_metadata(&mut self, key: String, value: T, metadata: Vec<(String, String)>)
        requires
            old(self).wf(),
        ensures
            final(self).wf(),
            final(self).version == old(self).version,
            final(self).entry(key@) matches Some(e) && e.data == value && e.metadata == metadata,
            forall|k: Seq<char>| k != key@ ==> final(self).entry(k) == old(self).entry(k),
    {
        let now = now_secs();
        self.insert_at(key, value, metadata, now);
    }

    /// Puts `value` under `key` with no metadata, stamped with the current
    /// time, replacing any entry that the key already named.
    pub fn insert(&mut self, key: String, value: T)
        requires
            old(self).wf(),
        ensures
            final(self).wf(),
            final(self).version == old(self).version,
            final(self).entry(key@) matches Some(e) && e.data == value && e.metadata@.len() == 0,
            forall|k: Seq<char>| k != key@ ==> final(self).entry(k) == old(self).entry(k),
    {
        self.insert_with_metadata(key, value, Vec::new());
    }

    /// The value under `key`, if any.
    pub fn get(&self, key: &str) -> (r: Option<&T>)
        ensures
            match r {
                Some(d) => self.entry(key@) matches Some(e) && *d == e.data,
                None => self.entry(key@) is None,
            },
    {
        let k = String::from_str(key);
        match self.position(&k) {
            Some(i) => Some(&self.entries[i].1.data),
            None => None,
        }
    }

    /// The keys and values of the entries whose metadata gives `field` the
    /// value `value`, in the order of the entries.
    pub fn filter_by_metadata(&self, field: &str, value: &str) -> (r: Vec<(String, &T)>)
        ensures
            r@.map_values(|p: (String, &T)| (p.0@, *p.1)) == tagged(self.entries@, field@, value@),
    {
        let f = String::from_str(field);
        let v = String::from_str(value);
        let mut r: Vec<(String, &T)> = Vec::new();
        let mut i: usize = 0;
        proof {
            assert(r@.map_values(|p: (String, &T)| (p.0@, *p.1)) =~= Seq::empty());
        }
        while i < self.entries.len()
            invariant
                i <= self.entries@.len(),
                f@ == field@,
                v@ == value@,
                r@.map_values(|p: (String, &T)| (p.0@, *p.1)) == tagged(
                    self.entries@.take(i as int),
                    field@,
                    value@,
                ),
            decreases self.entries@.len() - i,
        {
            proof {
                assert(self.entries@.take(i + 1).drop_last() =~= self.entries@.take(i as int));
            }
            let entry = &self.entries[i];
            let tag = crate::placeholder::last_index(&entry.1.metadata, &f);
            let ghost before = r@;
            match tag {
                Some(k) => {
                    if entry.1.metadata[k].1 == v {
                        r.push((entry.0.clone(), &entry.1.data));
                        proof {
                            assert(r@.map_values(|p: (String, &T)| (p.0@, *p.1)) =~= before.map_values(
                                |p: (String, &T)| (p.0@, *p.1),
                            ).push((entry.0@, entry.1.data)));
                        }
                    }
                },
                None => {},
            }
            i = i + 1;
        }
        proof {
            assert(self.entries@.take(i as int) =~= self.entries@);
        }
        r
    }
}

/// What is known of a saved cache slot: how many seconds ago it was last
/// written, and the layout version stored in it.
#[derive(Debug)]
pub struct SlotStatus {
    pub age_seconds: u64,
    pub version: String,
}

/// Whether a slot must be fetched again: when there is none, when it is
/// older than `max_age` seconds, or when it holds another layout version.
pub open spec fn stale(slot: Option<(u64, Seq<char>)>, max_age: u64, expected: Seq<char>) -> bool {
    match slot {
        None => true,
        Some((age, version)) => age > max_age || version != expected,
    }
}

/// The plain values of a slot's status.
pub open spec fn slot_view(slot: Option<SlotStatus>) -> Option<(u64, Seq<char>)> {
    match slot {
        Some(s) => Some((s.age_seconds, s.version@)),
        None => None,
    }
}

/// The status that a slot has `elapsed` seconds after `cache` was saved in it.
pub open spec fn saved_slot<T>(cache: Cache<T>, elapsed: u64) -> Option<(u64, Seq<char>)> {
    Some((elapsed, cache.version@))
}

/// Decides whether the cache in a slot must be refreshed, from what was read
/// of the slot (`None` when there is no slot): it must when there is none,
/// when it is older than `max_age_seconds`, or when its stored version is not
/// `expected_version`. It changes nothing.
pub fn should_update_cache(
    slot: &Option<SlotStatus>,
    max_age_seconds: u64,
    expected_version: &str,
) -> (r: bool)
    ensures
        r == stale(slot_view(*slot), max_age_seconds, expected_version@),
{
    match slot {
        None => true,
        Some(s) => s.age_seconds > max_age_seconds || s.version != String::from_str(
            expected_version,
        ),
    }
}

/// A cleared slot must be refreshed; a slot saved from a cache of the
/// expected version fewer than `max_age` seconds ago need not be.
pub proof fn lemma_staleness<T>(cache: Cache<T>, elapsed: u64, max_age: u64)
    requires
        elapsed < max_age,
    ensures
        stale(None, max_age, cache.version@),
        !stale(saved_slot(cache, elapsed), max_age, cache.version@),
{
}

/// Two values put under two different keys are each found under their own
/// key: inserting under one key leaves what another key names untouched.
pub proof fn lemma_no_cross_talk<T>(
    c0: Cache<T>,
    c1: Cache<T>,
    c2: Cache<T>,
    k1: Seq<char>,
    v1: T,
    k2: Seq<char>,
    v2: T,
)
    requires
        k1 != k2,
        c1.entry(k1) matches Some(e) && e.data == v1,
        forall|k: Seq<char>| k != k1 ==> c1.entry(k) == c0.entry(k),
        c2.entry(k2) matches Some(e) && e.data == v2,
        forall|k: Seq<char>| k != k2 ==> c2.entry(k) == c1.entry(k),
    ensures
        c2.entry(k1) matches Some(e) && e.data == v1,
        c2.entry(k2) matches Some(e) && e.data == v2,
{
    assert(c2.entry(k1) == c1.entry(k1));
}

/// What to do about a cache that a command needs.
#[derive(Debug)]
pub enum CacheAction<T> {
    /// Use this cache as it is.
    Use(Cache<T>),
    /// Fetch the data again and build a new cache.
    Refresh,
}

/// Decides whether a cache can be used as loaded: only when no refresh was
/// asked for, the slot is not stale, and it could be loaded. Otherwise the
/// data is fetched again (a slot that cannot be read counts as absent).
pub fn plan_cache<T>(update_requested: bool, stale: bool, loaded: Option<Cache<T>>) -> (r:
    CacheAction<T>)
    ensures
        match r {
            CacheAction::Use(c) => !update_requested && !stale && loaded == Some(c),
            CacheAction::Refresh => update_requested || stale || loaded is None,
        },
{
    if update_requested || stale {
        return CacheAction::Refresh;
    }
    match loaded {
        Some(c) => CacheAction::Use(c),
        None => CacheAction::Refresh,
    }
}

/// The cache to go on with after a refresh: the fetched one; when the fetch
/// failed, the last saved one if there is one; else the fetch's own error.
pub fn settle_refresh<T, E>(fetched: Result<Cache<T>, E>, fallback: Option<Cache<T>>) -> (r: Result<
    Cache<T>,
    E,
>)
    ensures
        match fetched {
            Ok(c) => r == Ok::<Cache<T>, E>(c),
            Err(e) => match fallback {
                Some(f) => r == Ok::<Cache<T>, E>(f),
                None => r == Err::<Cache<T>, E>(e),
            },
        },
{
    match fetched {
        Ok(c) => Ok(c),
        Err(e) => match fallback {
            Some(f) => Ok(f),
            None => Err(e),
        },
    }
}

proof fn lemma_key_index_step<T>(e: Seq<(String, CacheEntry<T>)>, k: Seq<char>, i: int, m: int)
    requires
        0 <= m <= i < e.len(),
        e[i].0@ == k,
        forall|a: int, b: int| 0 <= a < b < e.len() ==> e[a].0@ != e[b].0@,
    ensures
        key_index_from(e, k, m) == Some(i),
    decreases i - m,
{
    if m < i {
        lemma_key_index_step(e, k, i, m + 1);
    }
}

proof fn lemma_key_absent_from<T>(e: Seq<(String, CacheEntry<T>)>, k: Seq<char>, m: int)
    requires
        0 <= m,
        forall|i: int| 0 <= i < e.len() ==> e[i].0@ != k,
    ensures
        key_index_from(e, k, m) is None,
    decreases e.len() - m,
{
    if m < e.len() {
        lemma_key_absent_from(e, k, m + 1);
    }
}

proof fn lemma_key_none<T>(e: Seq<(String, CacheEntry<T>)>, k: Seq<char>, m: int)
    requires
        0 <= m,
        key_index_from(e, k, m) is None,
    ensures
        forall|i: int| m <= i < e.len() ==> e[i].0@ != k,
    decreases e.len() - m,
{
    if m < e.len() {
        lemma_key_none(e, k, m + 1);
    }
}

proof fn lemma_key_index_first<T>(e: Seq<(String, CacheEntry<T>)>, k: Seq<char>, i: int, a: int)
    requires
        key_index_from(e, k, 0) == Some(i),
        0 <= a < e.len(),
        a != i,
        forall|x: int, y: int| 0 <= x < y < e.len() ==> e[x].0@ != e[y].0@,
    ensures
        e[a].0@ != k,
        0 <= i < e.len() && e[i].0@ == k,
{
    lemma_found_is_key(e, k, 0);
}

proof fn lemma_found_is_key<T>(e: Seq<(String, CacheEntry<T>)>, k: Seq<char>, m: int)
    requires
        0 <= m,
    ensures
        key_index_from(e, k, m) matches Some(i) ==> m <= i < e.len() && e[i].0@ == k && forall|
            x: int,
        |
            m <= x < i ==> e[x].0@ != k,
    decreases e.len() - m,
{
    if m < e.len() && e[m].0@ != k {
        lemma_found_is_key(e, k, m + 1);
    }
}

proof fn lemma_same_lookup<T>(
    a: Seq<(String, CacheEntry<T>)>,
    b: Seq<(String, CacheEntry<T>)>,
    k: Seq<char>,
    i: int,
)
    requires
        a.len() == b.len(),
        0 <= i < a.len(),
        a[i].0@ == b[i].0@,
        a[i].0@ != k,
        forall|x: int| 0 <= x < a.len() && x != i ==> a[x] == b[x],
    ensures
        match (key_index_from(a, k, 0), key_index_from(b, k, 0)) {
            (Some(x), Some(y)) => x == y && a[x].1 == b[y].1,
            (None, None) => true,
            _ => false,
        },
{
    lemma_same_lookup_from(a, b, k, i, 0);
}

proof fn lemma_same_lookup_from<T>(
    a: Seq<(String, CacheEntry<T>)>,
    b: Seq<(String, CacheEntry<T>)>,
    k: Seq<char>,
    i: int,
    m: int,
)
    requires
        a.len() == b.len(),
        0 <= i < a.len(),
        0 <= m,
        a[i].0@ == b[i].0@,
        a[i].0@ != k,
        forall|x: int| 0 <= x < a.len() && x != i ==> a[x] == b[x],
    ensures
        match (key_index_from(a, k, m), key_index_from(b, k, m)) {
            (Some(x), Some(y)) => x == y && a[x].1 == b[y].1,
            (None, None) => true,
            _ => false,
        },
    decreases a.len() - m,
{
    if m < a.len() {
        lemma_same_lookup_from(a, b, k, i, m + 1);
    }
}

proof fn lemma_push_lookup<T>(a: Seq<(String, CacheEntry<T>)>, b: Seq<(String, CacheEntry<T>)>, k: Seq<char>)
    requires
        b.len() == a.len() + 1,
        b.last().0@ != k,
        forall|x: int| 0 <= x < a.len() ==> a[x] == b[x],
    ensures
        match (key_index_from(a, k, 0), key_index_from(b, k, 0)) {
            (Some(x), Some(y)) => x == y && a[x].1 == b[y].1,
            (None, None) => true,
            _ => false,
        },
{
    lemma_push_lookup_from(a, b, k, 0);
}

proof fn lemma_push_lookup_from<T>(
    a: Seq<(String, CacheEntry<T>)>,
    b: Seq<(String, CacheEntry<T>)>,
    k: Seq<char>,
    m: int,
)
    requires
        0 <= m,
        b.len() == a.len() + 1,
        b.last().0@ != k,
        forall|x: int| 0 <= x < a.len() ==> a[x] == b[x],
    ensures
        match (key_index_from(a, k, m), key_index_from(b, k, m)) {
            (Some(x), Some(y)) => x == y && a[x].1 == b[y].1,
            (None, None) => true,
            _ => false,
        },
    decreases b.len() - m,
{
    if m < a.len() {
        lemma_push_lookup_from(a, b, k, m + 1);
    } else if m == a.len() {
        assert(key_index_from(b, k, m + 1) is None);
    }
}

} // verus!
