//! A bounded least-recently-used cache keyed by `(collection, token)`
//! pairs, for callers that memoize synthesized profiles.  The cache is a
//! plain value, decoupled from the computation it fronts.

use vstd::prelude::*;

verus! {

/// The cache key: a collection key paired with a token id.
pub type CacheKey = (u64, u64);

/// A bounded cache holding its entries in recency order, most recently used
/// first.  Inserting into a full cache evicts the least recently used entry.
pub struct LruCache<V> {
    entries: Vec<(CacheKey, V)>,
    capacity: usize,
}

/// The value the association list binds to `k`: the first entry wins.
pub open spec fn assoc_get<V>(s: Seq<(CacheKey, V)>, k: CacheKey) -> Option<V>
    decreases s.len(),
{
    if s.len() == 0 {
        None
    } else if s[0].0 == k {
        Some(s[0].1)
    } else {
        assoc_get(s.drop_first(), k)
    }
}

/// Removing an entry bound to another key leaves a lookup unchanged.
proof fn lemma_assoc_get_remove<V>(s: Seq<(CacheKey, V)>, i: int, k: CacheKey)
    requires
        0 <= i < s.len(),
        s[i].0 != k,
    ensures
        assoc_get(s.remove(i), k) == assoc_get(s, k),
    decreases s.len(),
{
    if i == 0 {
        assert(s.remove(0) =~= s.drop_first());
    } else {
        assert(s.remove(i).drop_first() =~= s.drop_first().remove(i - 1));
        lemma_assoc_get_remove(s.drop_first(), i - 1, k);
    }
}

/// A match with no earlier match is what the lookup returns.
proof fn lemma_assoc_get_first_match<V>(s: Seq<(CacheKey, V)>, i: int, k: CacheKey)
    requires
        0 <= i < s.len(),
        s[i].0 == k,
        forall|j: int| 0 <= j < i ==> (#[trigger] s[j]).0 != k,
    ensures
        assoc_get(s, k) == Some(s[i].1),
    decreases i,
{
    if i > 0 {
        lemma_assoc_get_first_match(s.drop_first(), i - 1, k);
    }
}

/// Dropping every entry of one key leaves the lookups of the others
/// unchanged.
proof fn lemma_assoc_get_filter_other<V>(s: Seq<(CacheKey, V)>, k: CacheKey, k2: CacheKey)
    requires
        k2 != k,
    ensures
        assoc_get(s.filter(|e: (CacheKey, V)| e.0 != k), k2) == assoc_get(s, k2),
    decreases s.len(),
{
    let pred = |e: (CacheKey, V)| e.0 != k;
    if s.len() == 0 {
        reveal(Seq::filter);
    } else {
        lemma_filter_drop_first(s, pred);
        lemma_assoc_get_filter_other(s.drop_first(), k, k2);
        if pred(s[0]) {
            assert(s.filter(pred) =~= seq![s[0]] + s.drop_first().filter(pred));
            assert(s.filter(pred)[0] == s[0]);
            if s[0].0 != k2 {
                assert(s.filter(pred).drop_first() =~= s.drop_first().filter(pred));
            }
        } else {
            assert(s.filter(pred) =~= s.drop_first().filter(pred));
        }
    }
}

/// For a sequence of at least two entries whose head passes the filter, the
/// filter commutes with dropping the head.
proof fn lemma_filter_drop_first<V>(s: Seq<(CacheKey, V)>, pred: spec_fn((CacheKey, V)) -> bool)
    requires
        s.len() >= 1,
    ensures
        s.filter(pred) =~= if pred(s[0]) {
            seq![s[0]] + s.drop_first().filter(pred)
        } else {
            s.drop_first().filter(pred)
        },
    decreases s.len(),
{
    reveal(Seq::filter);
    if s.len() == 1 {
        assert(s.drop_last() =~= Seq::<(CacheKey, V)>::empty());
        assert(s.drop_first() =~= Seq::<(CacheKey, V)>::empty());
    } else {
        let rest = s.drop_last();
        lemma_filter_drop_first(rest, pred);
        assert(s.drop_first().drop_last() =~= rest.drop_first());
        if pred(s.last()) {
            assert(s.drop_first().filter(pred) =~= rest.drop_first().filter(pred).push(s.last()));
            if pred(s[0]) {
                assert(s.filter(pred) =~= (seq![s[0]] + rest.drop_first().filter(pred)).push(
                    s.last(),
                ));
                assert((seq![s[0]] + rest.drop_first().filter(pred)).push(s.last()) =~= seq![s[0]]
                    + s.drop_first().filter(pred));
            }
        } else {
            assert(s.drop_first().filter(pred) =~= rest.drop_first().filter(pred));
        }
    }
}

impl<V: Copy> LruCache<V> {
    /// The entries, most recently used first.
    pub closed spec fn view(self) -> Seq<(CacheKey, V)> {
        self.entries@
    }

    /// The bound the cache was created with.
    pub closed spec fn spec_capacity(self) -> int {
        self.capacity as int
    }

    /// The cache never outgrows its bound.
    pub closed spec fn wf(self) -> bool {
        &&& self.entries@.len() <= self.capacity
        &&& self.capacity >= 1
    }

    /// An empty cache with the given bound.
    pub fn new(capacity: usize) -> (r: LruCache<V>)
        requires
            capacity >= 1,
        ensures
            r.wf(),
            r.view() == Seq::<(CacheKey, V)>::empty(),
            r.spec_capacity() == capacity,
    {
        LruCache { entries: Vec::new(), capacity }
    }

    pub fn len(&self) -> (r: usize)
        ensures
            r == self.view().len(),
    {
        self.entries.len()
    }

    /// Looks `k` up and marks it most recently used.  No binding changes:
    /// every key maps to what it mapped to before.
    pub fn get(&mut self, k: CacheKey) -> (r: Option<V>)
        requires
            old(self).wf(),
        ensures
            final(self).wf(),
            r == assoc_get(old(self).view(), k),
            final(self).view().len() == old(self).view().len(),
            final(self).spec_capacity() == old(self).spec_capacity(),
            forall|k2: CacheKey|
                assoc_get(final(self).view(), k2) == assoc_get(old(self).view(), k2),
            r is Some ==> final(self).view()[0].0 == k,
    {
        let ghost pre = self.entries@;
        let mut i: usize = 0;
        while i < self.entries.len()
            invariant
                i <= pre.len(),
                pre == self.entries@,
                pre == old(self).view(),
                self.capacity == old(self).spec_capacity(),
                old(self).wf(),
                forall|j: int| 0 <= j < i ==> (#[trigger] pre[j]).0 != k,
            decreases pre.len() - i,
        {
            let e = &self.entries[i];
            if e.0.0 == k.0 && e.0.1 == k.1 {
                let hit = self.entries.remove(i);
                self.entries.insert(0, hit);
                proof {
                    lemma_assoc_get_first_match(pre, i as int, k);
                    assert(self.entries@ =~= seq![pre[i as int]] + pre.remove(i as int));
                    assert forall|k2: CacheKey| assoc_get(self.view(), k2) == assoc_get(
                        pre,
                        k2,
                    ) by {
                        if k2 == k {
                            assert(self.entries@[0] == pre[i as int]);
                        } else {
                            assert(self.entries@.drop_first() =~= pre.remove(i as int));
                            lemma_assoc_get_remove(pre, i as int, k2);
                        }
                    }
                }
                return Some(hit.1);
            }
            i += 1;
        }
        proof {
            assert(forall|j: int| 0 <= j < pre.len() ==> (#[trigger] pre[j]).0 != k);
            lemma_assoc_get_no_match(pre, k);
        }
        None
    }

    /// Binds `k` to `v` as the most recently used entry, dropping any older
    /// binding of `k`; when the cache is full beyond its bound, the least
    /// recently used entry is evicted.
    pub fn insert(&mut self, k: CacheKey, v: V)
        requires
            old(self).wf(),
        ensures
            final(self).wf(),
            final(self).spec_capacity() == old(self).spec_capacity(),
            ({
                let full = seq![(k, v)] + old(self).view().filter(
                    |e: (CacheKey, V)| e.0 != k,
                );
                final(self).view() == if full.len() <= old(self).spec_capacity() {
                    full
                } else {
                    full.take(old(self).spec_capacity())
                }
            }),
            assoc_get(final(self).view(), k) == Some(v),
            (seq![(k, v)] + old(self).view().filter(|e: (CacheKey, V)| e.0 != k)).len() <= old(
                self,
            ).spec_capacity() ==> forall|k2: CacheKey|
                k2 != k ==> assoc_get(final(self).view(), k2) == assoc_get(old(self).view(), k2),
    {
        let ghost pre = self.entries@;
        let ghost pred = |e: (CacheKey, V)| e.0 != k;
        let mut out: Vec<(CacheKey, V)> = Vec::new();
        out.push((k, v));
        let mut i: usize = 0;
        proof {
            reveal(Seq::filter);
            assert(pre.take(0) =~= Seq::<(CacheKey, V)>::empty());
            assert(pre.take(0).filter(pred) =~= Seq::<(CacheKey, V)>::empty());
            assert(out@ =~= seq![(k, v)] + pre.take(0).filter(pred));
        }
        while i < self.entries.len()
            invariant
                i <= pre.len(),
                pre == self.entries@,
                out@ == seq![(k, v)] + pre.take(i as int).filter(pred),
                pred == (|e: (CacheKey, V)| e.0 != k),
            decreases pre.len() - i,
        {
            proof {
                reveal(Seq::filter);
                assert(pre.take(i + 1).drop_last() =~= pre.take(i as int));
                assert(pre.take(i + 1).last() == pre[i as int]);
                assert(pre.take(i + 1).filter(pred) == if pred(pre[i as int]) {
                    pre.take(i as int).filter(pred).push(pre[i as int])
                } else {
                    pre.take(i as int).filter(pred)
                });
            }
            let e = self.entries[i];
            if !(e.0.0 == k.0 && e.0.1 == k.1) {
                out.push(e);
                proof {
                    assert(out@ =~= seq![(k, v)] + pre.take(i + 1).filter(pred));
                }
            }
            i += 1;
        }
        proof {
            assert(pre.take(pre.len() as int) =~= pre);
        }
        let ghost full = seq![(k, v)] + pre.filter(pred);
        let cap = self.capacity;
        proof {
            assert(out@ =~= full.take(out@.len() as int));
        }
        while out.len() > cap
            invariant
                cap >= 1,
                out@ == full.take(out@.len() as int),
                out@.len() >= cap || out@.len() == full.len(),
                out@.len() <= full.len(),
            decreases out@.len(),
        {
            proof {
                assert(full.take(out@.len() as int).drop_last() =~= full.take(out@.len() - 1));
            }
            let _ = out.pop();
        }
        proof {
            if full.len() <= cap {
                assert(out@.len() == full.len());
                assert(full.take(full.len() as int) =~= full);
            } else {
                assert(out@.len() == cap);
            }
            assert(out@.len() >= 1);
            assert(out@[0] == full[0]);
        }
        self.entries = out;
        proof {
            assert(self.entries@[0] == (k, v));
            if full.len() <= self.capacity {
                assert forall|k2: CacheKey| k2 != k implies assoc_get(self.view(), k2)
                    == assoc_get(pre, k2) by {
                    assert(self.entries@.drop_first() =~= pre.filter(pred));
                    lemma_assoc_get_filter_other(pre, k, k2);
                }
            }
        }
    }
}

/// With no entry bound to `k`, the lookup finds nothing.
proof fn lemma_assoc_get_no_match<V>(s: Seq<(CacheKey, V)>, k: CacheKey)
    requires
        forall|j: int| 0 <= j < s.len() ==> (#[trigger] s[j]).0 != k,
    ensures
        assoc_get(s, k) == None::<V>,
    decreases s.len(),
{
    if s.len() > 0 {
        assert(forall|j: int| 0 <= j < s.drop_first().len() ==> s.drop_first()[j] == s[j + 1]);
        lemma_assoc_get_no_match(s.drop_first(), k);
    }
}

} // verus!
