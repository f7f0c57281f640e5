//! Bounded response cache keyed by queried name, with least-recently-used
//! eviction. The storage is lru's `LruCache`; its behaviour is modelled as a
//! sequence of (name, response) entries ordered most recently used first.

use vstd::prelude::*;

verus! {

/// The backing store: lru's cache keyed by name bytes, with std's default
/// hasher.
pub type Store = lru::LruCache<Vec<u8>, Vec<u8>, std::collections::hash_map::RandomState>;

/// The cache's contents, most recently used entry first.
pub type CacheModel = Seq<(Seq<u8>, Seq<u8>)>;

/// No two entries share a key.
pub open spec fn keys_distinct(m: CacheModel) -> bool {
    forall|i: int, j: int| 0 <= i < j < m.len() ==> m[i].0 != m[j].0
}

/// Index of the entry with key `k`, or -1 if there is none.
pub open spec fn find_key(m: CacheModel, k: Seq<u8>) -> int
    decreases m.len(),
{
    if m.len() == 0 {
        -1
    } else if m[0].0 == k {
        0
    } else {
        let r = find_key(m.skip(1), k);
        if r < 0 {
            -1
        } else {
            1 + r
        }
    }
}

/// Whether some entry has key `k`.
pub open spec fn model_has(m: CacheModel, k: Seq<u8>) -> bool {
    find_key(m, k) >= 0
}

/// The value stored under `k`, if any.
pub open spec fn model_get(m: CacheModel, k: Seq<u8>) -> Option<Seq<u8>> {
    if model_has(m, k) {
        Some(m[find_key(m, k)].1)
    } else {
        None
    }
}

/// The model after a lookup of `k`: on a hit the entry moves to the
/// most-recent position, on a miss nothing changes.
pub open spec fn spec_touch(m: CacheModel, k: Seq<u8>) -> CacheModel {
    let i = find_key(m, k);
    if i < 0 {
        m
    } else {
        seq![m[i]] + m.subrange(0, i) + m.subrange(i + 1, m.len() as int)
    }
}

/// The model after an insert of `k -> v`: the entry takes the most-recent
/// position; an existing entry for `k` is replaced wherever it was, and a
/// wholly new key arriving at capacity evicts the least-recently-used entry.
pub open spec fn spec_put(m: CacheModel, cap: nat, k: Seq<u8>, v: Seq<u8>) -> CacheModel {
    let i = find_key(m, k);
    if i >= 0 {
        seq![(k, v)] + m.subrange(0, i) + m.subrange(i + 1, m.len() as int)
    } else if m.len() >= cap {
        seq![(k, v)] + m.subrange(0, m.len() - 1)
    } else {
        seq![(k, v)] + m
    }
}

proof fn lemma_find_key_ensures(m: CacheModel, k: Seq<u8>)
    ensures
        -1 <= find_key(m, k) < m.len(),
        find_key(m, k) >= 0 ==> m[find_key(m, k)].0 == k,
        find_key(m, k) < 0 ==> forall|i: int| 0 <= i < m.len() ==> m[i].0 != k,
    decreases m.len(),
{
    if m.len() == 0 {
    } else if m[0].0 == k {
    } else {
        lemma_find_key_ensures(m.skip(1), k);
        let r1 = find_key(m.skip(1), k);
        if r1 >= 0 {
            assert(m[1 + r1] == m.skip(1)[r1]);
        } else {
            assert forall|i: int| 0 <= i < m.len() implies m[i].0 != k by {
                if i > 0 {
                    assert(m[i] == m.skip(1)[i - 1]);
                }
            }
        }
    }
}

proof fn lemma_find_key_unique(m: CacheModel, k: Seq<u8>, i: int)
    requires
        keys_distinct(m),
        0 <= i < m.len(),
        m[i].0 == k,
    ensures
        find_key(m, k) == i,
{
    lemma_find_key_ensures(m, k);
    let r = find_key(m, k);
    if r < 0 {
        assert(m[i].0 != k);
    } else if r < i {
        assert(m[r].0 != m[i].0);
    } else if i < r {
        assert(m[i].0 != m[r].0);
    }
}

proof fn lemma_touch_wf(m: CacheModel, k: Seq<u8>)
    requires
        keys_distinct(m),
    ensures
        spec_touch(m, k).len() == m.len(),
        keys_distinct(spec_touch(m, k)),
        forall|q: Seq<u8>| #[trigger] model_get(spec_touch(m, k), q) == model_get(m, q),
{
    lemma_find_key_ensures(m, k);
    let i = find_key(m, k);
    if i >= 0 {
        let n = spec_touch(m, k);
        assert forall|a: int, b: int| 0 <= a < b < n.len() implies n[a].0 != n[b].0 by {
            let oa = if a == 0 { i } else if a <= i { a - 1 } else { a };
            let ob = if b <= i { b - 1 } else { b };
            assert(n[a] == m[oa]);
            assert(n[b] == m[ob]);
        }
        assert forall|q: Seq<u8>| #[trigger] model_get(n, q) == model_get(m, q) by {
            lemma_find_key_ensures(m, q);
            lemma_find_key_ensures(n, q);
            let j = find_key(m, q);
            if j >= 0 {
                let nj = if j == i { 0 } else if j < i { j + 1 } else { j };
                assert(n[nj] == m[j]);
                lemma_find_key_unique(n, q, nj);
            } else {
                if find_key(n, q) >= 0 {
                    let r = find_key(n, q);
                    let or = if r == 0 { i } else if r <= i { r - 1 } else { r };
                    assert(n[r] == m[or]);
                    assert(m[or].0 != q);
                }
            }
        }
    }
}

proof fn lemma_put_wf(m: CacheModel, cap: nat, k: Seq<u8>, v: Seq<u8>)
    requires
        keys_distinct(m),
        m.len() <= cap,
        cap >= 1,
    ensures
        spec_put(m, cap, k, v).len() <= cap,
        keys_distinct(spec_put(m, cap, k, v)),
{
    lemma_find_key_ensures(m, k);
    let i = find_key(m, k);
    let n = spec_put(m, cap, k, v);
    if i >= 0 {
        assert forall|a: int, b: int| 0 <= a < b < n.len() implies n[a].0 != n[b].0 by {
            if a == 0 {
                let ob = if b <= i { b - 1 } else { b };
                assert(n[b] == m[ob]);
                if ob < i {
                    assert(m[ob].0 != m[i].0);
                } else {
                    assert(m[i].0 != m[ob].0);
                }
            } else {
                let oa = if a <= i { a - 1 } else { a };
                let ob = if b <= i { b - 1 } else { b };
                assert(n[a] == m[oa]);
                assert(n[b] == m[ob]);
            }
        }
    } else {
        assert forall|a: int, b: int| 0 <= a < b < n.len() implies n[a].0 != n[b].0 by {
            if a == 0 {
                assert(n[b] == m[b - 1]);
                assert(m[b - 1].0 != k);
            } else {
                assert(n[a] == m[a - 1]);
                assert(n[b] == m[b - 1]);
            }
        }
    }
}

/// Law: immediately after inserting `k -> v`, a lookup of `k` finds `v`,
/// whatever the cache held before.
pub proof fn lemma_insert_then_lookup(m: CacheModel, cap: nat, k: Seq<u8>, v: Seq<u8>)
    ensures
        model_get(spec_put(m, cap, k, v), k) == Some(v),
{
    let n = spec_put(m, cap, k, v);
    lemma_find_key_ensures(m, k);
    assert(n[0] == (k, v));
    assert(find_key(n, k) == 0);
}

/// Law: when a wholly new name arrives at capacity, the entry evicted is
/// exactly the least-recently-used one; every other entry keeps its value,
/// and the new name is stored.
pub proof fn lemma_put_evicts_lru(m: CacheModel, cap: nat, k: Seq<u8>, v: Seq<u8>)
    requires
        keys_distinct(m),
        m.len() == cap,
        cap >= 1,
        !model_has(m, k),
    ensures
        !model_has(spec_put(m, cap, k, v), m.last().0),
        model_get(spec_put(m, cap, k, v), k) == Some(v),
        forall|q: Seq<u8>| model_has(m, q) && q != m.last().0 ==>
            #[trigger] model_get(spec_put(m, cap, k, v), q) == model_get(m, q),
{
    lemma_find_key_ensures(m, k);
    let n = spec_put(m, cap, k, v);
    assert(n == seq![(k, v)] + m.subrange(0, m.len() - 1));
    lemma_insert_then_lookup(m, cap, k, v);
    let lk = m.last().0;
    lemma_find_key_ensures(n, lk);
    if find_key(n, lk) >= 0 {
        let r = find_key(n, lk);
        assert(n[r].0 == lk);
        if r == 0 {
            assert(m[m.len() - 1].0 != k);
        } else {
            assert(n[r] == m[r - 1]);
            assert(m[r - 1].0 != m[m.len() - 1].0);
        }
    }
    assert forall|q: Seq<u8>| model_has(m, q) && q != m.last().0 implies
        #[trigger] model_get(n, q) == model_get(m, q) by {
        lemma_find_key_ensures(m, q);
        let j = find_key(m, q);
        assert(m[j].0 == q);
        assert(j < m.len() - 1);
        assert(n[j + 1] == m[j]);
        lemma_put_wf(m, cap, k, v);
        lemma_find_key_unique(n, q, j + 1);
    }
}

/// Law: a lookup hit moves the entry for `k` to the most-recent position
/// and changes no stored value; a miss changes nothing at all. This is why
/// eviction hits the least-recently-looked-up name first.
pub proof fn lemma_lookup_refreshes_recency(m: CacheModel, k: Seq<u8>)
    requires
        keys_distinct(m),
    ensures
        spec_touch(m, k).len() == m.len(),
        forall|q: Seq<u8>| #[trigger] model_get(spec_touch(m, k), q) == model_get(m, q),
        model_has(m, k) ==> spec_touch(m, k).first().0 == k,
        !model_has(m, k) ==> spec_touch(m, k) == m,
{
    lemma_touch_wf(m, k);
    lemma_find_key_ensures(m, k);
}

/// Relies on lru::LruCache: what the cache holds, ordered most recently
/// used first, and the fixed capacity it was created with.
pub uninterp spec fn lru_contents(c: Store) -> Seq<(Seq<u8>, Seq<u8>)>;

/// Relies on lru::LruCache: the entry bound the cache was created with.
pub uninterp spec fn lru_capacity(c: Store) -> nat;

#[verifier::external_type_specification]
#[verifier::external_body]
#[verifier::reject_recursive_types(K)]
#[verifier::reject_recursive_types(V)]
#[verifier::reject_recursive_types(S)]
pub struct ExLruCache<K, V, S>(lru::LruCache<K, V, S>);

/// Relies on lru::LruCache::new: a fresh cache is empty and keeps the
/// capacity it was given.
#[verifier::external_body]
fn lru_new(cap: usize) -> (c: Store)
    requires
        1 <= cap,
    ensures
        lru_contents(c) == Seq::<(Seq<u8>, Seq<u8>)>::empty(),
        lru_capacity(c) == cap,
{
    lru::LruCache::with_hasher(
        std::num::NonZeroUsize::new(cap).unwrap(),
        std::collections::hash_map::RandomState::new(),
    )
}

/// Relies on lru::LruCache::get: returns the value stored under `k` and
/// moves the entry to the most-recent position; a miss changes nothing.
#[verifier::external_body]
fn lru_get(c: &mut Store, k: &Vec<u8>) -> (r: Option<Vec<u8>>)
    ensures
        lru_capacity(*final(c)) == lru_capacity(*old(c)),
        lru_contents(*final(c)) == spec_touch(lru_contents(*old(c)), k@),
        match r {
            Some(v) => model_get(lru_contents(*old(c)), k@) == Some(v@),
            None => model_get(lru_contents(*old(c)), k@) is None,
        },
{
    c.get(k).cloned()
}

/// Relies on lru::LruCache::put: stores `k -> v` at the most-recent
/// position, replacing an existing entry for `k` or, for a new key at
/// capacity, evicting the least-recently-used entry.
#[verifier::external_body]
fn lru_put(c: &mut Store, k: Vec<u8>, v: Vec<u8>)
    ensures
        lru_capacity(*final(c)) == lru_capacity(*old(c)),
        lru_contents(*final(c)) == spec_put(
            lru_contents(*old(c)),
            lru_capacity(*old(c)),
            k@,
            v@,
        ),
{
    let _ = c.put(k, v);
}

/// Bounded map from queried name to previously encoded response bytes,
/// with least-recently-used eviction and no time-based expiry.
pub struct Cache {
    inner: Store,
}

impl View for Cache {
    type V = CacheModel;

    closed spec fn view(&self) -> CacheModel {
        lru_contents(self.inner)
    }
}

impl Cache {
    /// The entry bound fixed at construction.
    pub closed spec fn capacity(&self) -> nat {
        lru_capacity(self.inner)
    }

    /// Structural invariant: keys are unique and the entry count never
    /// exceeds the capacity.
    pub open spec fn wf(&self) -> bool {
        keys_distinct(self@) && self@.len() <= self.capacity() && self.capacity() >= 1
    }

    /// A fresh, empty cache bounded to `cap` entries.
    pub fn new(cap: usize) -> (c: Cache)
        requires
            1 <= cap,
        ensures
            c@ == Seq::<(Seq<u8>, Seq<u8>)>::empty(),
            c.capacity() == cap,
            c.wf(),
    {
        Cache { inner: lru_new(cap) }
    }

    /// Point read: on a hit returns the stored bytes and refreshes the
    /// entry's recency; on a miss returns nothing and changes nothing.
    pub fn lookup(&mut self, name: &Vec<u8>) -> (r: Option<Vec<u8>>)
        requires
            old(self).wf(),
        ensures
            final(self).wf(),
            final(self).capacity() == old(self).capacity(),
            final(self)@ == spec_touch(old(self)@, name@),
            match r {
                Some(v) => model_get(old(self)@, name@) == Some(v@),
                None => model_get(old(self)@, name@) is None,
            },
    {
        let r = lru_get(&mut self.inner, name);
        proof {
            lemma_touch_wf(old(self)@, name@);
        }
        r
    }

    /// Stores `bytes` under `name` at the most-recent position, evicting
    /// the least-recently-used entry if a new name arrives at capacity.
    pub fn insert(&mut self, name: Vec<u8>, bytes: Vec<u8>)
        requires
            old(self).wf(),
        ensures
            final(self).wf(),
            final(self).capacity() == old(self).capacity(),
            final(self)@ == spec_put(old(self)@, old(self).capacity(), name@, bytes@),
    {
        proof {
            lemma_put_wf(old(self)@, old(self).capacity(), name@, bytes@);
        }
        lru_put(&mut self.inner, name, bytes);
    }
}

} // verus!
