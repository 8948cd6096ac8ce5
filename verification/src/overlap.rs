//! Trait overlap preprocessing: for every token of a collection, how many
//! other tokens share each 3-, 4- and 5-element combination of its
//! non-ignored traits.
//!
//! A token shares some k-element combination of the token's filtered traits
//! with another exactly when the other token holds at least k of them, so
//! the overlap set of size k is the set of other tokens holding at least k
//! of the token's non-ignored traits.  The batch runs over index chunks
//! whose results depend only on the snapshot, never on the chunking.

use vstd::prelude::*;

verus! {

/// A token of the snapshot: its id and the trait ids it holds.
#[derive(Clone, Debug)]
pub struct TokenTraits {
    pub token_id: u64,
    pub traits: Vec<u64>,
}

/// A token's computed overlap statistics: for each combination size k, the
/// ids of the other tokens sharing a k-element combination of its
/// non-ignored traits, and their number.
#[derive(Clone, Debug)]
pub struct TokenOverlap {
    pub token_id: u64,
    pub traits_3_combination_overlap: u64,
    pub traits_4_combination_overlap: u64,
    pub traits_5_combination_overlap: u64,
    pub traits_3_combination_overlap_ids: Vec<u64>,
    pub traits_4_combination_overlap_ids: Vec<u64>,
    pub traits_5_combination_overlap_ids: Vec<u64>,
}

/// A token lists each of its traits once.
pub open spec fn wf_token(t: TokenTraits) -> bool {
    t.traits@.no_duplicates()
}

/// Every token is well formed and token ids identify tokens.
pub open spec fn wf_snapshot(tokens: Seq<TokenTraits>) -> bool {
    &&& forall|i: int| 0 <= i < tokens.len() ==> wf_token(#[trigger] tokens[i])
    &&& forall|i: int, j: int|
        0 <= i < j < tokens.len() ==> tokens[i].token_id != tokens[j].token_id
}

/// How many of `t`'s non-ignored traits `u` also holds.  With distinct trait
/// ids per token this is the cardinality of the intersection of `t`'s
/// filtered trait set with `u`'s trait set.
pub open spec fn shared_trait_count(t: TokenTraits, u: TokenTraits, ignored: Seq<u64>) -> int {
    t.traits@.filter(|x: u64| !ignored.contains(x) && u.traits@.contains(x)).len() as int
}

/// `u` is another token sharing a k-element combination of `t`'s non-ignored
/// traits: it holds at least k of them.
pub open spec fn overlaps(t: TokenTraits, u: TokenTraits, ignored: Seq<u64>, k: int) -> bool {
    t.token_id != u.token_id && shared_trait_count(t, u, ignored) >= k
}

/// The ids of the tokens of the snapshot overlapping `t` at size k, in
/// snapshot order.
pub open spec fn overlap_ids(tokens: Seq<TokenTraits>, t: TokenTraits, ignored: Seq<u64>, k: int)
    -> Seq<u64>
    decreases tokens.len(),
{
    if tokens.len() == 0 {
        Seq::empty()
    } else {
        overlap_ids(tokens.drop_last(), t, ignored, k) + if overlaps(t, tokens.last(), ignored, k) {
            seq![tokens.last().token_id]
        } else {
            Seq::empty()
        }
    }
}

/// The overlap record `o` is exactly what the snapshot determines for its
/// token at index `i`: the id lists of sizes 3, 4 and 5, each with its
/// count equal to the list's length.
pub open spec fn matches_token(
    o: TokenOverlap,
    tokens: Seq<TokenTraits>,
    i: int,
    ignored: Seq<u64>,
) -> bool {
    let t = tokens[i];
    &&& o.token_id == t.token_id
    &&& o.traits_3_combination_overlap_ids@ == overlap_ids(tokens, t, ignored, 3)
    &&& o.traits_4_combination_overlap_ids@ == overlap_ids(tokens, t, ignored, 4)
    &&& o.traits_5_combination_overlap_ids@ == overlap_ids(tokens, t, ignored, 5)
    &&& o.traits_3_combination_overlap == overlap_ids(tokens, t, ignored, 3).len()
    &&& o.traits_4_combination_overlap == overlap_ids(tokens, t, ignored, 4).len()
    &&& o.traits_5_combination_overlap == overlap_ids(tokens, t, ignored, 5).len()
}

/// Whether the id list `v` holds `x`.
fn contains_id(v: &Vec<u64>, x: u64) -> (r: bool)
    ensures
        r == v@.contains(x),
{
    let mut i: usize = 0;
    while i < v.len()
        invariant
            i <= v@.len(),
            forall|k: int| 0 <= k < i ==> v@[k] != x,
        decreases v@.len() - i,
    {
        if v[i] == x {
            return true;
        }
        i += 1;
    }
    false
}

/// Counts how many of `a`'s traits are neither ignored nor absent from `b`.
fn count_shared(a: &Vec<u64>, b: &Vec<u64>, ignored: &Vec<u64>) -> (r: usize)
    ensures
        r == a@.filter(|x: u64| !ignored@.contains(x) && b@.contains(x)).len(),
{
    let ghost pred = |x: u64| !ignored@.contains(x) && b@.contains(x);
    let mut cnt: usize = 0;
    let mut i: usize = 0;
    proof {
        reveal(Seq::filter);
        assert(a@.take(0) =~= Seq::<u64>::empty());
        assert(a@.take(0).filter(pred) =~= Seq::<u64>::empty());
    }
    while i < a.len()
        invariant
            i <= a@.len(),
            cnt == a@.take(i as int).filter(pred).len(),
            cnt <= i,
            pred == (|x: u64| !ignored@.contains(x) && b@.contains(x)),
        decreases a@.len() - i,
    {
        proof {
            reveal(Seq::filter);
            assert(a@.take(i + 1).drop_last() =~= a@.take(i as int));
            assert(a@.take(i + 1).last() == a@[i as int]);
            assert(a@.take(i + 1).filter(pred) == if pred(a@[i as int]) {
                a@.take(i as int).filter(pred).push(a@[i as int])
            } else {
                a@.take(i as int).filter(pred)
            });
        }
        let x = a[i];
        if !contains_id(ignored, x) && contains_id(b, x) {
            cnt += 1;
        }
        i += 1;
    }
    proof {
        assert(a@.take(a@.len() as int) =~= a@);
    }
    cnt
}

/// Computes one token's overlap statistics against the whole snapshot.
/// A token with fewer than k non-ignored traits shares no k-element
/// combination with anyone and simply gets empty sets.
fn process_token(tokens: &Vec<TokenTraits>, idx: usize, ignored: &Vec<u64>) -> (r: TokenOverlap)
    requires
        idx < tokens@.len(),
    ensures
        matches_token(r, tokens@, idx as int, ignored@),
{
    let me_id = tokens[idx].token_id;
    let ghost t = tokens@[idx as int];
    let mut ids3: Vec<u64> = Vec::new();
    let mut ids4: Vec<u64> = Vec::new();
    let mut ids5: Vec<u64> = Vec::new();
    let mut j: usize = 0;
    assert(tokens@.take(0) =~= Seq::<TokenTraits>::empty());
    while j < tokens.len()
        invariant
            j <= tokens@.len(),
            idx < tokens@.len(),
            t == tokens@[idx as int],
            me_id == t.token_id,
            ids3@ == overlap_ids(tokens@.take(j as int), t, ignored@, 3),
            ids4@ == overlap_ids(tokens@.take(j as int), t, ignored@, 4),
            ids5@ == overlap_ids(tokens@.take(j as int), t, ignored@, 5),
        decreases tokens@.len() - j,
    {
        proof {
            assert(tokens@.take(j + 1).drop_last() =~= tokens@.take(j as int));
            assert(tokens@.take(j + 1).last() == tokens@[j as int]);
        }
        let u = &tokens[j];
        if u.token_id != me_id {
            let shared = count_shared(&tokens[idx].traits, &u.traits, ignored);
            if shared >= 3 {
                ids3.push(u.token_id);
            }
            if shared >= 4 {
                ids4.push(u.token_id);
            }
            if shared >= 5 {
                ids5.push(u.token_id);
            }
        }
        j += 1;
    }
    proof {
        assert(tokens@.take(tokens@.len() as int) =~= tokens@);
    }
    let n3 = ids3.len() as u64;
    let n4 = ids4.len() as u64;
    let n5 = ids5.len() as u64;
    TokenOverlap {
        token_id: me_id,
        traits_3_combination_overlap: n3,
        traits_4_combination_overlap: n4,
        traits_5_combination_overlap: n5,
        traits_3_combination_overlap_ids: ids3,
        traits_4_combination_overlap_ids: ids4,
        traits_5_combination_overlap_ids: ids5,
    }
}

/// Processes the tokens of the index range `[lo, hi)`, one independent unit
/// of the batch.  The records depend only on the snapshot and the ignore
/// list, so chunks may run in any order, or concurrently against the shared
/// read-only snapshot.
pub fn process_chunk(tokens: &Vec<TokenTraits>, ignored: &Vec<u64>, lo: usize, hi: usize) -> (r:
    Vec<TokenOverlap>)
    requires
        lo <= hi <= tokens@.len(),
    ensures
        r@.len() == hi - lo,
        forall|m: int|
            0 <= m < r@.len() ==> matches_token(#[trigger] r@[m], tokens@, lo + m, ignored@),
{
    let mut out: Vec<TokenOverlap> = Vec::new();
    let mut idx: usize = lo;
    while idx < hi
        invariant
            lo <= idx <= hi <= tokens@.len(),
            out@.len() == idx - lo,
            forall|m: int|
                0 <= m < out@.len() ==> matches_token(#[trigger] out@[m], tokens@, lo + m, ignored@),
        decreases hi - idx,
    {
        let o = process_token(tokens, idx, ignored);
        out.push(o);
        idx += 1;
    }
    out
}

/// Runs the whole batch in chunks of `chunk_size` tokens and concatenates
/// the results in snapshot order.  The outcome is pinned by the snapshot
/// alone: the chunk size never shows in it.
pub fn process_assets(tokens: &Vec<TokenTraits>, ignored: &Vec<u64>, chunk_size: usize) -> (r: Vec<
    TokenOverlap,
>)
    requires
        chunk_size >= 1,
    ensures
        r@.len() == tokens@.len(),
        forall|i: int|
            0 <= i < r@.len() ==> matches_token(#[trigger] r@[i], tokens@, i, ignored@),
{
    let mut out: Vec<TokenOverlap> = Vec::new();
    let mut lo: usize = 0;
    while lo < tokens.len()
        invariant
            chunk_size >= 1,
            lo <= tokens@.len(),
            out@.len() == lo,
            forall|i: int|
                0 <= i < out@.len() ==> matches_token(#[trigger] out@[i], tokens@, i, ignored@),
        decreases tokens@.len() - lo,
    {
        let hi = if tokens.len() - lo < chunk_size {
            tokens.len()
        } else {
            lo + chunk_size
        };
        let mut chunk = process_chunk(tokens, ignored, lo, hi);
        let ghost pre = out@;
        let ghost chunk_view = chunk@;
        out.append(&mut chunk);
        proof {
            assert(out@ == pre + chunk_view);
            assert forall|i: int| 0 <= i < out@.len() implies matches_token(
                #[trigger] out@[i],
                tokens@,
                i,
                ignored@,
            ) by {
                if i < pre.len() {
                    assert(out@[i] == pre[i]);
                } else {
                    assert(out@[i] == chunk_view[i - lo]);
                }
            }
        }
        lo = hi;
    }
    out
}

/// A filter of a duplicate-free sequence is duplicate-free.
proof fn lemma_filter_no_dup<A>(s: Seq<A>, pred: spec_fn(A) -> bool)
    requires
        s.no_duplicates(),
    ensures
        s.filter(pred).no_duplicates(),
    decreases s.len(),
{
    reveal(Seq::filter);
    if s.len() > 0 {
        let rest = s.drop_last();
        assert(forall|i: int| 0 <= i < rest.len() ==> rest[i] == s[i]);
        lemma_filter_no_dup(rest, pred);
        if pred(s.last()) {
            let f = rest.filter(pred);
            if f.contains(s.last()) {
                rest.lemma_filter_contains_rev(pred, s.last());
                let j = choose|j: int| 0 <= j < rest.len() && rest[j] == s.last();
                assert(s[j] == s[s.len() - 1]);
                assert(false);
            }
            assert forall|a: int, b: int|
                0 <= a < b < s.filter(pred).len() implies s.filter(pred)[a] != s.filter(
                pred,
            )[b] by {
                if b < f.len() {
                } else {
                    assert(s.filter(pred)[b] == s.last());
                    assert(f[a] == s.filter(pred)[a]);
                    assert(f.contains(f[a]));
                }
            }
        }
    }
}

/// A finite set with at least k elements has a subset of exactly k elements.
proof fn lemma_finite_set_has_subset_of_size<A>(s: Set<A>, k: int)
    requires
        s.finite(),
        0 <= k <= s.len(),
    ensures
        exists|c: Set<A>|
            {
                &&& c.finite()
                &&& c.len() == k
                &&& #[trigger] c.subset_of(s)
            },
    decreases k,
{
    broadcast use vstd::set::group_set_axioms;

    if k == 0 {
        let c = Set::<A>::empty();
        assert(c.subset_of(s));
    } else {
        let x = s.choose();
        assert(s.contains(x));
        let s2 = s.remove(x);
        lemma_finite_set_has_subset_of_size(s2, k - 1);
        let c2 = choose|c2: Set<A>|
            {
                &&& c2.finite()
                &&& c2.len() == k - 1
                &&& #[trigger] c2.subset_of(s2)
            };
        let c = c2.insert(x);
        assert(!c2.contains(x));
        assert(c.len() == k);
        assert(c.subset_of(s));
    }
}

/// The combination view of the overlap criterion: some k-element combination
/// of `t`'s non-ignored traits is fully held by `u` exactly when `u` holds
/// at least k of them — the sets the preprocessor stores are the unions of
/// the exact-combination matches.
pub proof fn lemma_shared_combination_exists(
    t: TokenTraits,
    u: TokenTraits,
    ignored: Seq<u64>,
    k: int,
)
    requires
        wf_token(t),
        0 <= k,
    ensures
        (exists|c: Set<u64>|
            {
                &&& c.finite()
                &&& c.len() == k
                &&& #[trigger] c.subset_of(t.traits@.to_set())
                &&& forall|x: u64|
                    c.contains(x) ==> !ignored.contains(x) && u.traits@.contains(x)
            }) <==> shared_trait_count(t, u, ignored) >= k,
{
    broadcast use vstd::seq_lib::seq_to_set_is_finite;
    broadcast use vstd::set::group_set_axioms;

    let pred = |x: u64| !ignored.contains(x) && u.traits@.contains(x);
    let f = t.traits@.filter(pred);
    lemma_filter_no_dup(t.traits@, pred);
    f.unique_seq_to_set();
    let fs = f.to_set();
    assert forall|x: u64| fs.contains(x) implies t.traits@.to_set().contains(x) && pred(x) by {
        let i = choose|i: int| 0 <= i < f.len() && f[i] == x;
        t.traits@.lemma_filter_pred(pred, i);
        t.traits@.lemma_filter_contains_rev(pred, x);
    }
    if shared_trait_count(t, u, ignored) >= k {
        lemma_finite_set_has_subset_of_size(fs, k);
        let c = choose|c: Set<u64>|
            {
                &&& c.finite()
                &&& c.len() == k
                &&& #[trigger] c.subset_of(fs)
            };
        assert(c.subset_of(t.traits@.to_set()));
        assert(forall|x: u64| c.contains(x) ==> !ignored.contains(x) && u.traits@.contains(x));
    }
    if exists|c: Set<u64>|
        {
            &&& c.finite()
            &&& c.len() == k
            &&& #[trigger] c.subset_of(t.traits@.to_set())
            &&& forall|x: u64| c.contains(x) ==> !ignored.contains(x) && u.traits@.contains(x)
        } {
        let c = choose|c: Set<u64>|
            {
                &&& c.finite()
                &&& c.len() == k
                &&& #[trigger] c.subset_of(t.traits@.to_set())
                &&& forall|x: u64| c.contains(x) ==> !ignored.contains(x) && u.traits@.contains(x)
            };
        assert forall|x: u64| c.contains(x) implies fs.contains(x) by {
            assert(t.traits@.to_set().contains(x));
            assert(t.traits@.contains(x));
            let i = choose|i: int| 0 <= i < t.traits@.len() && t.traits@[i] == x;
            t.traits@.lemma_filter_contains(pred, i);
        }
        vstd::set_lib::lemma_len_subset(c, fs);
    }
}

/// One entry of the trait-to-tokens index: a trait and the tokens of the
/// snapshot holding it.
#[derive(Clone, Debug)]
pub struct TraitTokens {
    pub trait_id: u64,
    pub token_ids: Vec<u64>,
}

/// Some token of the snapshot holds the trait.
pub open spec fn appears_in(tokens: Seq<TokenTraits>, trait_id: u64) -> bool
    decreases tokens.len(),
{
    if tokens.len() == 0 {
        false
    } else {
        appears_in(tokens.drop_last(), trait_id) || tokens.last().traits@.contains(trait_id)
    }
}

/// The ids of the tokens holding the trait, in snapshot order.
pub open spec fn holders(tokens: Seq<TokenTraits>, trait_id: u64) -> Seq<u64>
    decreases tokens.len(),
{
    if tokens.len() == 0 {
        Seq::empty()
    } else {
        holders(tokens.drop_last(), trait_id) + if tokens.last().traits@.contains(trait_id) {
            seq![tokens.last().token_id]
        } else {
            Seq::empty()
        }
    }
}

/// Collects each distinct trait id of the snapshot once, in order of first
/// appearance.
fn collect_trait_ids(tokens: &Vec<TokenTraits>) -> (r: Vec<u64>)
    ensures
        r@.no_duplicates(),
        forall|d: u64| r@.contains(d) <==> appears_in(tokens@, d),
{
    let mut keys: Vec<u64> = Vec::new();
    let mut i: usize = 0;
    assert(tokens@.take(0) =~= Seq::<TokenTraits>::empty());
    while i < tokens.len()
        invariant
            i <= tokens@.len(),
            keys@.no_duplicates(),
            forall|d: u64| keys@.contains(d) <==> appears_in(tokens@.take(i as int), d),
        decreases tokens@.len() - i,
    {
        let ghost keys_before = keys@;
        let tlen = tokens[i].traits.len();
        let mut j: usize = 0;
        while j < tlen
            invariant
                i < tokens@.len(),
                j <= tlen,
                tlen == tokens@[i as int].traits@.len(),
                keys@.no_duplicates(),
                forall|d: u64|
                    keys@.contains(d) <==> (appears_in(tokens@.take(i as int), d) || tokens@[
                        i as int
                    ].traits@.take(j as int).contains(d)),
            decreases tlen - j,
        {
            let ghost tr = tokens@[i as int].traits@;
            proof {
                assert(tr.take(j + 1).drop_last() =~= tr.take(j as int));
                assert(tr.take(j + 1).last() == tr[j as int]);
                assert forall|d: u64| tr.take(j + 1).contains(d) implies tr.take(
                    j as int,
                ).contains(d) || d == tr[j as int] by {
                    let k = choose|k: int| 0 <= k < tr.take(j + 1).len() && #[trigger] tr.take(j + 1)[k] == d;
                    if k < j {
                        assert(tr.take(j as int)[k] == d);
                    }
                }
                assert forall|d: u64| tr.take(j as int).contains(d) implies tr.take(
                    j + 1,
                ).contains(d) by {
                    let k = choose|k: int| 0 <= k < tr.take(j as int).len() && #[trigger] tr.take(
                        j as int,
                    )[k] == d;
                    assert(tr.take(j + 1)[k] == d);
                }
                assert(tr.take(j + 1).contains(tr[j as int]));
            }
            let d = tokens[i].traits[j];
            let ghost pre = keys@;
            if !contains_id(&keys, d) {
                keys.push(d);
                proof {
                    assert(keys@[keys@.len() - 1] == d);
                    assert(keys@.contains(d));
                    assert forall|x: u64| keys@.contains(x) implies pre.contains(x) || x == d by {
                        let k = choose|k: int| 0 <= k < keys@.len() && #[trigger] keys@[k] == x;
                        if k < pre.len() {
                            assert(pre[k] == x);
                        }
                    }
                    assert forall|x: u64| pre.contains(x) implies keys@.contains(x) by {
                        let k = choose|k: int| 0 <= k < pre.len() && #[trigger] pre[k] == x;
                        assert(keys@[k] == x);
                    }
                    assert(keys@.no_duplicates()) by {
                        assert forall|a: int, b: int|
                            0 <= a < b < keys@.len() implies keys@[a] != keys@[b] by {
                            if b == keys@.len() - 1 {
                                assert(pre[a] == keys@[a]);
                                assert(pre.contains(keys@[a]));
                            } else {
                                assert(pre[a] == keys@[a] && pre[b] == keys@[b]);
                            }
                        }
                    }
                }
            }
            proof {
                let tr_i = tokens@[i as int].traits@;
                assert forall|x: u64| keys@.contains(x) implies (appears_in(
                    tokens@.take(i as int),
                    x,
                ) || tr_i.take(j + 1).contains(x)) by {
                    if pre.contains(x) {
                        if tr_i.take(j as int).contains(x) {
                            assert(tr_i.take(j + 1).contains(x));
                        }
                    } else {
                        assert(x == d);
                        assert(tr_i.take(j + 1).contains(d));
                    }
                }
                assert forall|x: u64| (appears_in(tokens@.take(i as int), x) || tr_i.take(
                    j + 1,
                ).contains(x)) implies keys@.contains(x) by {
                    if appears_in(tokens@.take(i as int), x) || tr_i.take(j as int).contains(x) {
                        assert(pre.contains(x));
                    } else {
                        assert(tr_i.take(j + 1).contains(x));
                        assert(x == tr_i[j as int]);
                        assert(x == d);
                    }
                }
            }
            j += 1;
        }
        proof {
            assert(tokens@.take(i + 1).drop_last() =~= tokens@.take(i as int));
            assert(tokens@.take(i + 1).last() == tokens@[i as int]);
            assert(tokens@[i as int].traits@.take(tlen as int) =~= tokens@[i as int].traits@);
        }
        i += 1;
    }
    proof {
        assert(tokens@.take(tokens@.len() as int) =~= tokens@);
    }
    keys
}

/// The ids of the tokens holding `trait_id`, in snapshot order.
fn holders_of(tokens: &Vec<TokenTraits>, trait_id: u64) -> (r: Vec<u64>)
    ensures
        r@ == holders(tokens@, trait_id),
{
    let mut ids: Vec<u64> = Vec::new();
    let mut i: usize = 0;
    assert(tokens@.take(0) =~= Seq::<TokenTraits>::empty());
    while i < tokens.len()
        invariant
            i <= tokens@.len(),
            ids@ == holders(tokens@.take(i as int), trait_id),
        decreases tokens@.len() - i,
    {
        proof {
            assert(tokens@.take(i + 1).drop_last() =~= tokens@.take(i as int));
            assert(tokens@.take(i + 1).last() == tokens@[i as int]);
        }
        if contains_id(&tokens[i].traits, trait_id) {
            ids.push(tokens[i].token_id);
        }
        i += 1;
    }
    proof {
        assert(tokens@.take(tokens@.len() as int) =~= tokens@);
    }
    ids
}

/// Builds the trait-to-tokens index of a snapshot: one entry per distinct
/// trait id, in order of first appearance, each carrying exactly the ids of
/// the tokens holding that trait.
pub fn generate_token_mapping(tokens: &Vec<TokenTraits>) -> (r: Vec<TraitTokens>)
    ensures
        forall|a: int, b: int| 0 <= a < b < r@.len() ==> r@[a].trait_id != r@[b].trait_id,
        forall|k: int|
            0 <= k < r@.len() ==> (#[trigger] r@[k]).token_ids@ == holders(
                tokens@,
                r@[k].trait_id,
            ),
        forall|d: u64|
            (exists|k: int| 0 <= k < r@.len() && (#[trigger] r@[k]).trait_id == d) <==> appears_in(
                tokens@,
                d,
            ),
{
    let keys = collect_trait_ids(tokens);
    let mut out: Vec<TraitTokens> = Vec::new();
    let mut k: usize = 0;
    while k < keys.len()
        invariant
            k <= keys@.len(),
            out@.len() == k,
            forall|m: int| 0 <= m < k ==> (#[trigger] out@[m]).trait_id == keys@[m],
            forall|m: int|
                0 <= m < k ==> (#[trigger] out@[m]).token_ids@ == holders(tokens@, keys@[m]),
            keys@.no_duplicates(),
            forall|d: u64| keys@.contains(d) <==> appears_in(tokens@, d),
        decreases keys@.len() - k,
    {
        let d = keys[k];
        let ids = holders_of(tokens, d);
        out.push(TraitTokens { trait_id: d, token_ids: ids });
        k += 1;
    }
    proof {
        assert forall|d: u64|
            (exists|m: int| 0 <= m < out@.len() && (#[trigger] out@[m]).trait_id == d)
                implies appears_in(tokens@, d) by {
            let m = choose|m: int| 0 <= m < out@.len() && (#[trigger] out@[m]).trait_id == d;
            assert(keys@[m] == d);
            assert(keys@.contains(d));
        }
        assert forall|d: u64| appears_in(tokens@, d) implies (exists|m: int|
            0 <= m < out@.len() && (#[trigger] out@[m]).trait_id == d) by {
            assert(keys@.contains(d));
            let m = choose|m: int| 0 <= m < keys@.len() && keys@[m] == d;
            assert(out@[m].trait_id == d);
        }
    }
    out
}

/// Exclusion invariant: a token's own id never appears in one of its
/// overlap id lists, whatever the snapshot, ignore list and size.
pub proof fn lemma_overlap_excludes_self(
    tokens: Seq<TokenTraits>,
    t: TokenTraits,
    ignored: Seq<u64>,
    k: int,
)
    ensures
        !overlap_ids(tokens, t, ignored, k).contains(t.token_id),
    decreases tokens.len(),
{
    if tokens.len() > 0 {
        lemma_overlap_excludes_self(tokens.drop_last(), t, ignored, k);
        let s = overlap_ids(tokens, t, ignored, k);
        let pre = overlap_ids(tokens.drop_last(), t, ignored, k);
        if s.contains(t.token_id) {
            let i = choose|i: int| 0 <= i < s.len() && s[i] == t.token_id;
            if i < pre.len() {
                assert(pre[i] == t.token_id);
            } else {
                assert(s[i] == tokens.last().token_id);
            }
        }
    }
}

/// Every id of an overlap list belongs to a token of the snapshot that
/// overlaps `t`.
proof fn lemma_overlap_ids_member(
    tokens: Seq<TokenTraits>,
    t: TokenTraits,
    ignored: Seq<u64>,
    k: int,
    x: u64,
)
    requires
        overlap_ids(tokens, t, ignored, k).contains(x),
    ensures
        exists|j: int|
            0 <= j < tokens.len() && #[trigger] tokens[j].token_id == x && overlaps(
                t,
                tokens[j],
                ignored,
                k,
            ),
    decreases tokens.len(),
{
    let s = overlap_ids(tokens, t, ignored, k);
    let pre = overlap_ids(tokens.drop_last(), t, ignored, k);
    let i = choose|i: int| 0 <= i < s.len() && s[i] == x;
    if i < pre.len() {
        assert(pre[i] == x);
        lemma_overlap_ids_member(tokens.drop_last(), t, ignored, k, x);
        let j = choose|j: int|
            0 <= j < tokens.drop_last().len() && #[trigger] tokens.drop_last()[j].token_id == x
                && overlaps(t, tokens.drop_last()[j], ignored, k);
        assert(tokens[j].token_id == x);
    } else {
        assert(tokens[tokens.len() - 1].token_id == x);
    }
}

/// With token ids unique across the snapshot, an overlap id list names each
/// overlapping token once.
pub proof fn lemma_overlap_ids_no_duplicates(
    tokens: Seq<TokenTraits>,
    t: TokenTraits,
    ignored: Seq<u64>,
    k: int,
)
    requires
        forall|i: int, j: int|
            0 <= i < j < tokens.len() ==> tokens[i].token_id != tokens[j].token_id,
    ensures
        overlap_ids(tokens, t, ignored, k).no_duplicates(),
    decreases tokens.len(),
{
    if tokens.len() > 0 {
        let pre_tokens = tokens.drop_last();
        assert(forall|i: int| 0 <= i < pre_tokens.len() ==> pre_tokens[i] == tokens[i]);
        lemma_overlap_ids_no_duplicates(pre_tokens, t, ignored, k);
        let s = overlap_ids(tokens, t, ignored, k);
        let pre = overlap_ids(pre_tokens, t, ignored, k);
        if overlaps(t, tokens.last(), ignored, k) {
            if pre.contains(tokens.last().token_id) {
                lemma_overlap_ids_member(pre_tokens, t, ignored, k, tokens.last().token_id);
                let j = choose|j: int|
                    0 <= j < pre_tokens.len() && #[trigger] pre_tokens[j].token_id
                        == tokens.last().token_id && overlaps(t, pre_tokens[j], ignored, k);
                assert(tokens[j].token_id == tokens[tokens.len() - 1].token_id);
                assert(false);
            }
            assert(s =~= pre.push(tokens.last().token_id));
        } else {
            assert(s =~= pre);
        }
    }
}

/// Consistency invariant: each stored overlap count equals the cardinality
/// of the corresponding overlap id set.
pub proof fn lemma_overlap_count_is_set_cardinality(
    o: TokenOverlap,
    tokens: Seq<TokenTraits>,
    i: int,
    ignored: Seq<u64>,
)
    requires
        wf_snapshot(tokens),
        0 <= i < tokens.len(),
        matches_token(o, tokens, i, ignored),
    ensures
        o.traits_3_combination_overlap == o.traits_3_combination_overlap_ids@.to_set().len(),
        o.traits_4_combination_overlap == o.traits_4_combination_overlap_ids@.to_set().len(),
        o.traits_5_combination_overlap == o.traits_5_combination_overlap_ids@.to_set().len(),
{
    lemma_overlap_ids_no_duplicates(tokens, tokens[i], ignored, 3);
    lemma_overlap_ids_no_duplicates(tokens, tokens[i], ignored, 4);
    lemma_overlap_ids_no_duplicates(tokens, tokens[i], ignored, 5);
    o.traits_3_combination_overlap_ids@.unique_seq_to_set();
    o.traits_4_combination_overlap_ids@.unique_seq_to_set();
    o.traits_5_combination_overlap_ids@.unique_seq_to_set();
}

/// Exclusion invariant, stated of a computed record: a record the snapshot
/// determines for token `i` never lists its own token id.
pub proof fn lemma_overlap_record_excludes_own_id(
    o: TokenOverlap,
    tokens: Seq<TokenTraits>,
    i: int,
    ignored: Seq<u64>,
)
    requires
        0 <= i < tokens.len(),
        matches_token(o, tokens, i, ignored),
    ensures
        !o.traits_3_combination_overlap_ids@.contains(o.token_id),
        !o.traits_4_combination_overlap_ids@.contains(o.token_id),
        !o.traits_5_combination_overlap_ids@.contains(o.token_id),
{
    lemma_overlap_excludes_self(tokens, tokens[i], ignored, 3);
    lemma_overlap_excludes_self(tokens, tokens[i], ignored, 4);
    lemma_overlap_excludes_self(tokens, tokens[i], ignored, 5);
}

/// Idempotence: the overlap statistics are a function of the token snapshot
/// and ignore list alone.  Two complete runs — however each was chunked or
/// scheduled — agree on every token's counts and id lists.
pub proof fn lemma_overlap_runs_agree(
    r1: Seq<TokenOverlap>,
    r2: Seq<TokenOverlap>,
    tokens: Seq<TokenTraits>,
    ignored: Seq<u64>,
)
    requires
        r1.len() == tokens.len(),
        r2.len() == tokens.len(),
        forall|i: int| 0 <= i < tokens.len() ==> matches_token(#[trigger] r1[i], tokens, i, ignored),
        forall|i: int| 0 <= i < tokens.len() ==> matches_token(#[trigger] r2[i], tokens, i, ignored),
    ensures
        forall|i: int|
            0 <= i < tokens.len() ==> {
                &&& #[trigger] r1[i].token_id == r2[i].token_id
                &&& r1[i].traits_3_combination_overlap == r2[i].traits_3_combination_overlap
                &&& r1[i].traits_4_combination_overlap == r2[i].traits_4_combination_overlap
                &&& r1[i].traits_5_combination_overlap == r2[i].traits_5_combination_overlap
                &&& r1[i].traits_3_combination_overlap_ids@
                    == r2[i].traits_3_combination_overlap_ids@
                &&& r1[i].traits_4_combination_overlap_ids@
                    == r2[i].traits_4_combination_overlap_ids@
                &&& r1[i].traits_5_combination_overlap_ids@
                    == r2[i].traits_5_combination_overlap_ids@
            },
{
}

} // verus!
