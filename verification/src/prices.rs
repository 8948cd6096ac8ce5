//! Price signals per trait: the most-valued trait, the rarest trait's
//! floor, and the rarity-weighted floor with its diminishing-weight
//! accumulation — an empirical heuristic, stated exactly, not a statistical
//! estimator.

use vstd::prelude::*;

verus! {

use crate::listings::TraitFloor;
use crate::ratio::{lemma_mul_le, Ratio};
use crate::support::lemma_insert_to_multiset;

broadcast use vstd::seq_lib::group_to_multiset_ensures;

/// A token's trait joined with its market context: how many tokens of the
/// collection hold it, and its resolved floor, when some holder is listed.
#[derive(Clone, Copy, Debug)]
pub struct TraitMarket {
    pub trait_id: u64,
    pub trait_count: u64,
    pub floor: Option<TraitFloor>,
}

/// A market record is well formed when its floor, if any, belongs to its
/// trait and every held trait occurs at least once in the collection.
pub open spec fn wf_market(t: TraitMarket) -> bool {
    &&& t.trait_count >= 1
    &&& (t.floor matches Some(f) ==> f.trait_id == t.trait_id)
}

pub open spec fn wf_markets(s: Seq<TraitMarket>) -> bool {
    forall|i: int| 0 <= i < s.len() ==> wf_market(#[trigger] s[i])
}

/// The trait's rarity fraction lies below the cutoff:
/// `count / supply < cutoff`.
pub open spec fn rarity_below(count: u64, supply: u64, cutoff: Ratio) -> bool {
    count * cutoff.den < cutoff.num * supply
}

/// The trait's rarity fraction lies below a third of the cutoff:
/// `count / supply < cutoff / 3`.
pub open spec fn rarity_below_third(count: u64, supply: u64, cutoff: Ratio) -> bool {
    3 * (count * cutoff.den) < cutoff.num * supply
}

fn is_rarity_below(count: u64, supply: u64, cutoff: Ratio) -> (r: bool)
    ensures
        r == rarity_below(count, supply, cutoff),
{
    proof {
        lemma_mul_le(count as int, cutoff.den as int, u64::MAX as int, u64::MAX as int);
        lemma_mul_le(cutoff.num as int, supply as int, u64::MAX as int, u64::MAX as int);
    }
    (count as u128) * (cutoff.den as u128) < (cutoff.num as u128) * (supply as u128)
}

fn is_rarity_below_third(count: u64, supply: u64, cutoff: Ratio) -> (r: bool)
    ensures
        r == rarity_below_third(count, supply, cutoff),
{
    proof {
        lemma_mul_le(count as int, cutoff.den as int, u64::MAX as int, u64::MAX as int);
        lemma_mul_le(cutoff.num as int, supply as int, u64::MAX as int, u64::MAX as int);
    }
    let a = (count as u128) * (cutoff.den as u128);
    let b = (cutoff.num as u128) * (supply as u128);
    if a > u128::MAX / 3 {
        false
    } else {
        3 * a < b
    }
}

/// The price a trait's floor contributes to a best-floor scan: its floor
/// price, or zero when no holder is listed.
pub open spec fn floor_value(t: TraitMarket) -> int {
    match t.floor {
        Some(f) => f.floor_price as int,
        None => 0,
    }
}

/// A left-to-right scan for the highest strictly positive floor: a later
/// trait replaces the best one only with a strictly higher floor price, so
/// ties keep the earlier trait and a zero floor is never selected.
pub open spec fn best_floor(s: Seq<TraitMarket>) -> Option<TraitFloor>
    decreases s.len(),
{
    if s.len() == 0 {
        None
    } else {
        let prev = best_floor(s.drop_last());
        let prev_val = match prev {
            Some(f) => f.floor_price as int,
            None => 0,
        };
        if floor_value(s.last()) > prev_val {
            s.last().floor
        } else {
            prev
        }
    }
}

proof fn lemma_best_floor_props(s: Seq<TraitMarket>)
    ensures
        best_floor(s) matches Some(f) ==> {
            &&& f.floor_price > 0
            &&& exists|i: int| 0 <= i < s.len() && #[trigger] s[i].floor == Some(f)
            &&& forall|i: int| 0 <= i < s.len() ==> floor_value(#[trigger] s[i]) <= f.floor_price
        },
        best_floor(s) is None ==> forall|i: int| 0 <= i < s.len() ==> floor_value(
            #[trigger] s[i],
        ) <= 0,
    decreases s.len(),
{
    if s.len() > 0 {
        lemma_best_floor_props(s.drop_last());
        assert(forall|i: int| 0 <= i < s.len() - 1 ==> s[i] == s.drop_last()[i]);
    }
}

/// The traits of `s` rarer than the cutoff.
pub open spec fn rare_subset(s: Seq<TraitMarket>, supply: u64, cutoff: Ratio) -> Seq<TraitMarket> {
    s.filter(|t: TraitMarket| rarity_below(t.trait_count, supply, cutoff))
}

/// The traits considered when valuing a token: those rarer than the cutoff,
/// or all of them when none qualifies.
pub open spec fn mvt_candidates(s: Seq<TraitMarket>, supply: u64, cutoff: Ratio) -> Seq<
    TraitMarket,
> {
    if rare_subset(s, supply, cutoff).len() == 0 {
        s
    } else {
        rare_subset(s, supply, cutoff)
    }
}

/// What the most-valued-trait search returns: the best positive floor among
/// the candidate traits, and — when no candidate has any floor — the best
/// positive floor among all the token's traits.
pub open spec fn mvt_spec(s: Seq<TraitMarket>, supply: u64, cutoff: Ratio) -> Option<TraitFloor> {
    match best_floor(mvt_candidates(s, supply, cutoff)) {
        Some(f) => Some(f),
        None => best_floor(s),
    }
}

/// Collects the traits of `v` rarer than the cutoff.
fn filter_rare(v: &Vec<TraitMarket>, supply: u64, cutoff: Ratio) -> (r: Vec<TraitMarket>)
    ensures
        r@ == rare_subset(v@, supply, cutoff),
{
    let ghost pred = |t: TraitMarket| rarity_below(t.trait_count, supply, cutoff);
    let mut out: Vec<TraitMarket> = Vec::new();
    let mut i: usize = 0;
    proof {
        reveal(Seq::filter);
        assert(v@.take(0) =~= Seq::<TraitMarket>::empty());
        assert(v@.take(0).filter(pred) =~= Seq::<TraitMarket>::empty());
    }
    while i < v.len()
        invariant
            i <= v@.len(),
            out@ == v@.take(i as int).filter(pred),
            pred == (|t: TraitMarket| rarity_below(t.trait_count, supply, cutoff)),
        decreases v@.len() - i,
    {
        proof {
            reveal(Seq::filter);
            assert(v@.take(i + 1).drop_last() =~= v@.take(i as int));
            assert(v@.take(i + 1).last() == v@[i as int]);
            assert(v@.take(i + 1).filter(pred) == if pred(v@[i as int]) {
                v@.take(i as int).filter(pred).push(v@[i as int])
            } else {
                v@.take(i as int).filter(pred)
            });
        }
        let t = v[i];
        if is_rarity_below(t.trait_count, supply, cutoff) {
            out.push(t);
        }
        i += 1;
    }
    proof {
        assert(v@.take(v@.len() as int) =~= v@);
    }
    out
}

/// A left-to-right best-floor scan over a vector of market records.
fn scan_best(v: &Vec<TraitMarket>) -> (r: Option<TraitFloor>)
    ensures
        r == best_floor(v@),
{
    let mut best: Option<TraitFloor> = None;
    let mut i: usize = 0;
    assert(v@.take(0) =~= Seq::<TraitMarket>::empty());
    while i < v.len()
        invariant
            i <= v@.len(),
            best == best_floor(v@.take(i as int)),
        decreases v@.len() - i,
    {
        proof {
            assert(v@.take(i + 1).drop_last() =~= v@.take(i as int));
            assert(v@.take(i + 1).last() == v@[i as int]);
        }
        let val: u64 = match v[i].floor {
            Some(f) => f.floor_price,
            None => 0,
        };
        let best_val: u64 = match best {
            Some(f) => f.floor_price,
            None => 0,
        };
        if val > best_val {
            best = v[i].floor;
        }
        i += 1;
    }
    proof {
        assert(v@.take(v@.len() as int) =~= v@);
    }
    best
}

/// A left-to-right scan for the rarest trait: a later trait replaces the
/// rarest one only with a strictly lower occurrence count, so ties keep the
/// earlier trait of the given order.
pub open spec fn rarest_trait(s: Seq<TraitMarket>) -> Option<TraitMarket>
    decreases s.len(),
{
    if s.len() == 0 {
        None
    } else {
        match rarest_trait(s.drop_last()) {
            None => Some(s.last()),
            Some(t) => if s.last().trait_count < t.trait_count {
                Some(s.last())
            } else {
                Some(t)
            },
        }
    }
}

proof fn lemma_rarest_props(s: Seq<TraitMarket>)
    ensures
        (rarest_trait(s) is None) <==> s.len() == 0,
        rarest_trait(s) matches Some(t) ==> {
            &&& exists|i: int| 0 <= i < s.len() && #[trigger] s[i] == t
            &&& forall|i: int| 0 <= i < s.len() ==> t.trait_count <= #[trigger] s[i].trait_count
        },
    decreases s.len(),
{
    if s.len() > 0 {
        lemma_rarest_props(s.drop_last());
        assert(forall|i: int| 0 <= i < s.len() - 1 ==> s[i] == s.drop_last()[i]);
        if s.len() > 1 && rarest_trait(s) != Some(s.last()) {
            let t = rarest_trait(s.drop_last())->Some_0;
            let i = choose|i: int| 0 <= i < s.drop_last().len() && #[trigger] s.drop_last()[i] == t;
            assert(s[i] == t);
        }
    }
}

/// The floor of the token's rarest trait: the trait with the lowest
/// occurrence count, ties broken in favour of the earlier trait of the given
/// order.  A token without traits, or whose rarest trait has no listed
/// holder, yields nothing.
pub fn get_rarest_trait_floor(traits: &Vec<TraitMarket>) -> (r: Option<TraitFloor>)
    ensures
        r == (match rarest_trait(traits@) {
            None => None::<TraitFloor>,
            Some(t) => t.floor,
        }),
        r matches Some(f) ==> exists|i: int|
            0 <= i < traits@.len() && #[trigger] traits@[i].floor == Some(f),
{
    let mut best: Option<TraitMarket> = None;
    let mut i: usize = 0;
    assert(traits@.take(0) =~= Seq::<TraitMarket>::empty());
    while i < traits.len()
        invariant
            i <= traits@.len(),
            best == rarest_trait(traits@.take(i as int)),
        decreases traits@.len() - i,
    {
        proof {
            assert(traits@.take(i + 1).drop_last() =~= traits@.take(i as int));
            assert(traits@.take(i + 1).last() == traits@[i as int]);
        }
        best = match best {
            None => Some(traits[i]),
            Some(t) => if traits[i].trait_count < t.trait_count {
                Some(traits[i])
            } else {
                Some(t)
            },
        };
        i += 1;
    }
    proof {
        assert(traits@.take(traits@.len() as int) =~= traits@);
        lemma_rarest_props(traits@);
        let rt = rarest_trait(traits@);
        if rt is Some && rt->Some_0.floor is Some {
            let t = rt->Some_0;
            let k = choose|k: int| 0 <= k < traits@.len() && #[trigger] traits@[k] == t;
            assert(traits@[k].floor == t.floor);
        }
    }
    match best {
        None => None,
        Some(t) => t.floor,
    }
}

/// Among the token's traits rarer than the cutoff — or all of them when
/// none qualifies — the trait with the highest floor price, ties broken in
/// favour of the earlier trait in the given (rarity) order.  When no
/// candidate has any floor the search widens to all the token's traits;
/// a token with no positive floor anywhere has no most-valued trait.
pub fn get_most_valued_trait_floor(
    traits: &Vec<TraitMarket>,
    total_supply: u64,
    cutoff: Ratio,
) -> (r: Option<TraitFloor>)
    ensures
        r == mvt_spec(traits@, total_supply, cutoff),
        r matches Some(f) ==> f.floor_price > 0 && exists|i: int|
            0 <= i < traits@.len() && #[trigger] traits@[i].floor == Some(f),
        r matches Some(f) ==> forall|i: int|
            0 <= i < mvt_candidates(traits@, total_supply, cutoff).len() ==> floor_value(
                #[trigger] mvt_candidates(traits@, total_supply, cutoff)[i],
            ) <= f.floor_price,
        r is None ==> forall|i: int|
            0 <= i < traits@.len() ==> floor_value(#[trigger] traits@[i]) <= 0,
{
    proof {
        lemma_best_floor_props(mvt_candidates(traits@, total_supply, cutoff));
        lemma_best_floor_props(traits@);
    }
    let rare = filter_rare(traits, total_supply, cutoff);
    let primary = if rare.len() == 0 {
        scan_best(traits)
    } else {
        scan_best(&rare)
    };
    let r = match primary {
        Some(f) => Some(f),
        None => scan_best(traits),
    };
    proof {
        let ghost pred = |t: TraitMarket| rarity_below(t.trait_count, total_supply, cutoff);
        if r is Some {
            let f = r->Some_0;
            let cands = mvt_candidates(traits@, total_supply, cutoff);
            let src = if primary is Some {
                cands
            } else {
                traits@
            };
            let i = choose|i: int| 0 <= i < src.len() && #[trigger] src[i].floor == Some(f);
            if primary is Some && rare@.len() != 0 {
                traits@.lemma_filter_contains_rev(pred, src[i]);
                let j = choose|j: int| 0 <= j < traits@.len() && traits@[j] == src[i];
                assert(traits@[j].floor == Some(f));
            } else {
                assert(traits@[i].floor == Some(f));
            }
        }
    }
    r
}

/// The floors present among a sequence of market records, in the order
/// given.
pub open spec fn present_floors(s: Seq<TraitMarket>) -> Seq<TraitFloor>
    decreases s.len(),
{
    if s.len() == 0 {
        Seq::empty()
    } else {
        present_floors(s.drop_last()) + match s.last().floor {
            Some(f) => seq![f],
            None => Seq::empty(),
        }
    }
}

/// The floors are in price order, dearest first.
pub open spec fn sorted_by_floor_desc(s: Seq<TraitFloor>) -> bool {
    forall|i: int, j: int| 0 <= i < j < s.len() ==> s[i].floor_price >= s[j].floor_price
}

fn sort_floors_desc(v: Vec<TraitFloor>) -> (r: Vec<TraitFloor>)
    ensures
        r@.to_multiset() == v@.to_multiset(),
        sorted_by_floor_desc(r@),
        r@.len() == v@.len(),
{
    let mut out: Vec<TraitFloor> = Vec::new();
    let n = v.len();
    assert(v@.take(0) =~= out@);
    let mut i: usize = 0;
    while i < n
        invariant
            i <= n,
            n == v@.len(),
            out@.len() == i,
            out@.to_multiset() == v@.take(i as int).to_multiset(),
            sorted_by_floor_desc(out@),
        decreases n - i,
    {
        let x = v[i];
        let mut j: usize = 0;
        while j < out.len() && out[j].floor_price >= x.floor_price
            invariant
                j <= out@.len(),
                forall|k: int| 0 <= k < j ==> out@[k].floor_price >= x.floor_price,
            decreases out@.len() - j,
        {
            j += 1;
        }
        let ghost pre = out@;
        out.insert(j, x);
        proof {
            pre.insert_ensures(j as int, x);
            lemma_insert_to_multiset(pre, j as int, x);
            assert(v@.take(i + 1) =~= v@.take(i as int).push(v@[i as int]));
            assert forall|a: int, b: int| 0 <= a < b < out@.len() implies out@[a].floor_price
                >= out@[b].floor_price by {
                if b < j {
                } else if a > j {
                } else if a == j && b > j {
                    assert(out@[b] == pre[b - 1]);
                    assert(pre[j as int].floor_price < x.floor_price || j == pre.len());
                } else if b == j {
                    assert(out@[a] == pre[a]);
                }
            }
        }
        i += 1;
    }
    proof {
        assert(v@.take(n as int) =~= v@);
    }
    out
}

/// The resolved floors of the token's candidate traits (those rarer than the
/// cutoff, or all of them when none qualifies), sorted descending by floor
/// price.  Traits without a listed holder do not appear.
pub fn get_all_traits_floor(traits: &Vec<TraitMarket>, total_supply: u64, cutoff: Ratio) -> (r:
    Vec<TraitFloor>)
    ensures
        r@.to_multiset() == present_floors(
            mvt_candidates(traits@, total_supply, cutoff),
        ).to_multiset(),
        sorted_by_floor_desc(r@),
{
    let rare = filter_rare(traits, total_supply, cutoff);
    let cands: &Vec<TraitMarket> = if rare.len() == 0 {
        traits
    } else {
        &rare
    };
    let mut floors: Vec<TraitFloor> = Vec::new();
    let mut i: usize = 0;
    assert(cands@.take(0) =~= Seq::<TraitMarket>::empty());
    while i < cands.len()
        invariant
            i <= cands@.len(),
            floors@ == present_floors(cands@.take(i as int)),
        decreases cands@.len() - i,
    {
        proof {
            assert(cands@.take(i + 1).drop_last() =~= cands@.take(i as int));
            assert(cands@.take(i + 1).last() == cands@[i as int]);
        }
        match cands[i].floor {
            Some(f) => floors.push(f),
            None => {},
        }
        i += 1;
    }
    proof {
        assert(cands@.take(cands@.len() as int) =~= cands@);
    }
    sort_floors_desc(floors)
}

/// The floor price and occurrence count of each trait of `s` that has a
/// resolved floor, in the order given.
pub open spec fn floor_pairs(s: Seq<TraitMarket>) -> Seq<(u64, u64)>
    decreases s.len(),
{
    if s.len() == 0 {
        Seq::empty()
    } else {
        floor_pairs(s.drop_last()) + match s.last().floor {
            Some(f) => seq![(f.floor_price, s.last().trait_count)],
            None => Seq::empty(),
        }
    }
}

/// The traits of `s` rarer than a third of the cutoff.
pub open spec fn third_subset(s: Seq<TraitMarket>, supply: u64, cutoff: Ratio) -> Seq<
    TraitMarket,
> {
    s.filter(|t: TraitMarket| rarity_below_third(t.trait_count, supply, cutoff))
}

/// The (price, count) pairs are in price order, dearest first.
pub open spec fn sorted_pairs_desc(p: Seq<(u64, u64)>) -> bool {
    forall|i: int, j: int| 0 <= i < j < p.len() ==> p[i].0 >= p[j].0
}

/// Inserts a pair after every pair of equal or higher price: the stable
/// insertion step of the descending sort.
pub open spec fn insert_pair_desc(s: Seq<(u64, u64)>, x: (u64, u64)) -> Seq<(u64, u64)>
    decreases s.len(),
{
    if s.len() == 0 {
        seq![x]
    } else if s[0].0 >= x.0 {
        seq![s[0]] + insert_pair_desc(s.drop_first(), x)
    } else {
        seq![x] + s
    }
}

/// The stable descending sort of the pairs by price: pairs of equal price
/// keep the order they were given in, so the accumulation below is a
/// function of the unsorted floor list alone.
pub open spec fn stable_sort_pairs_desc(s: Seq<(u64, u64)>) -> Seq<(u64, u64)>
    decreases s.len(),
{
    if s.len() == 0 {
        Seq::empty()
    } else {
        insert_pair_desc(stable_sort_pairs_desc(s.drop_last()), s.last())
    }
}

/// Inserting at the position after every pair of equal or higher price is
/// what `insert_pair_desc` denotes.
proof fn lemma_insert_pair_desc_at(s: Seq<(u64, u64)>, x: (u64, u64), j: int)
    requires
        0 <= j <= s.len(),
        forall|k: int| 0 <= k < j ==> (#[trigger] s[k]).0 >= x.0,
        j < s.len() ==> s[j].0 < x.0,
    ensures
        insert_pair_desc(s, x) == s.insert(j, x),
    decreases s.len(),
{
    if j == 0 {
        if s.len() == 0 {
            assert(insert_pair_desc(s, x) =~= s.insert(0, x));
        } else {
            assert(seq![x] + s =~= s.insert(0, x));
        }
    } else {
        assert(s[0].0 >= x.0);
        assert(forall|k: int| 0 <= k < j - 1 ==> (#[trigger] s.drop_first()[k]).0 >= x.0);
        lemma_insert_pair_desc_at(s.drop_first(), x, j - 1);
        assert(seq![s[0]] + s.drop_first().insert(j - 1, x) =~= s.insert(j, x));
    }
}

/// Every pair carries a positive occurrence count.
pub open spec fn pairs_counts_positive(p: Seq<(u64, u64)>) -> bool {
    forall|i: int| 0 <= i < p.len() ==> #[trigger] p[i].1 >= 1
}

/// The diminishing-weight accumulation over floors sorted descending by
/// price: the highest floor in full, then each further floor `f_i` at
/// occurrence count `c_i` contributes `f_i / (2 * (c_i/S) / (c_{i-1}/S))
/// == f_i * c_{i-1} / (2 * c_i)`, truncated — each additional rare trait
/// adds proportionally less, scaled by how much rarer it is than the
/// previous one.
pub open spec fn rwf_sum(p: Seq<(u64, u64)>) -> int
    decreases p.len(),
{
    if p.len() == 0 {
        0
    } else if p.len() == 1 {
        p[0].0 as int
    } else {
        rwf_sum(p.drop_last()) + (p.last().0 * p[p.len() - 2].1) / (2 * p.last().1)
    }
}

proof fn lemma_rwf_step_nonneg(p: Seq<(u64, u64)>, j: int)
    requires
        pairs_counts_positive(p),
        1 <= j <= p.len(),
    ensures
        rwf_sum(p.take(j - 1)) <= rwf_sum(p.take(j)),
        rwf_sum(p.take(j)) >= 0,
    decreases j,
{
    assert(p.take(j).drop_last() =~= p.take(j - 1));
    if j == 1 {
    } else {
        lemma_rwf_step_nonneg(p, j - 1);
        vstd::arithmetic::mul::lemma_mul_nonnegative(p[j - 1].0 as int, p[j - 2].1 as int);
        vstd::arithmetic::div_mod::lemma_div_pos_is_pos(
            (p[j - 1].0 * p[j - 2].1) as int,
            (2 * p[j - 1].1) as int,
        );
    }
}

proof fn lemma_rwf_prefix_le(p: Seq<(u64, u64)>, i: int, j: int)
    requires
        pairs_counts_positive(p),
        1 <= i <= j <= p.len(),
    ensures
        rwf_sum(p.take(i)) <= rwf_sum(p.take(j)),
    decreases j - i,
{
    if i < j {
        lemma_rwf_step_nonneg(p, j);
        lemma_rwf_prefix_le(p, i, j - 1);
    }
}

/// The accumulation over a nonempty, descending-sorted pair list, or
/// nothing when the accumulated value exceeds the largest price.
fn rwf_from_pairs(p: &Vec<(u64, u64)>) -> (r: Option<u64>)
    requires
        p@.len() > 0,
        pairs_counts_positive(p@),
    ensures
        rwf_sum(p@) > u64::MAX ==> r is None,
        rwf_sum(p@) <= u64::MAX ==> (r matches Some(v) && v as int == rwf_sum(p@)),
{
    let mut acc: u128 = p[0].0 as u128;
    let mut i: usize = 1;
    proof {
        assert(p@.take(1).drop_last() =~= p@.take(0));
    }
    while i < p.len()
        invariant
            1 <= i <= p@.len(),
            pairs_counts_positive(p@),
            acc == rwf_sum(p@.take(i as int)),
            acc <= u64::MAX,
        decreases p@.len() - i,
    {
        proof {
            assert(p@.take(i + 1).drop_last() =~= p@.take(i as int));
            assert(p@.take(i + 1).last() == p@[i as int]);
            assert(p@.take(i + 1)[i - 1] == p@[i - 1]);
            lemma_mul_le(p@[i as int].0 as int, p@[i - 1].1 as int, u64::MAX as int, u64::MAX as int);
            vstd::arithmetic::mul::lemma_mul_nonnegative(p@[i as int].0 as int, p@[i - 1].1 as int);
            vstd::arithmetic::div_mod::lemma_div_nonincreasing(
                (p@[i as int].0 * p@[i - 1].1) as int,
                (2 * p@[i as int].1) as int,
            );
        }
        let term = (p[i].0 as u128 * p[i - 1].1 as u128) / (2 * p[i].1 as u128);
        acc = acc + term;
        i += 1;
        if acc > u64::MAX as u128 {
            proof {
                lemma_rwf_prefix_le(p@, i as int, p@.len() as int);
                assert(p@.take(p@.len() as int) =~= p@);
            }
            return None;
        }
    }
    proof {
        assert(p@.take(p@.len() as int) =~= p@);
    }
    Some(acc as u64)
}

/// Collects the traits of `v` rarer than a third of the cutoff.
fn filter_third(v: &Vec<TraitMarket>, supply: u64, cutoff: Ratio) -> (r: Vec<TraitMarket>)
    ensures
        r@ == third_subset(v@, supply, cutoff),
{
    let ghost pred = |t: TraitMarket| rarity_below_third(t.trait_count, supply, cutoff);
    let mut out: Vec<TraitMarket> = Vec::new();
    let mut i: usize = 0;
    proof {
        reveal(Seq::filter);
        assert(v@.take(0) =~= Seq::<TraitMarket>::empty());
        assert(v@.take(0).filter(pred) =~= Seq::<TraitMarket>::empty());
    }
    while i < v.len()
        invariant
            i <= v@.len(),
            out@ == v@.take(i as int).filter(pred),
            pred == (|t: TraitMarket| rarity_below_third(t.trait_count, supply, cutoff)),
        decreases v@.len() - i,
    {
        proof {
            reveal(Seq::filter);
            assert(v@.take(i + 1).drop_last() =~= v@.take(i as int));
            assert(v@.take(i + 1).last() == v@[i as int]);
            assert(v@.take(i + 1).filter(pred) == if pred(v@[i as int]) {
                v@.take(i as int).filter(pred).push(v@[i as int])
            } else {
                v@.take(i as int).filter(pred)
            });
        }
        let t = v[i];
        if is_rarity_below_third(t.trait_count, supply, cutoff) {
            out.push(t);
        }
        i += 1;
    }
    proof {
        assert(v@.take(v@.len() as int) =~= v@);
    }
    out
}

fn sort_pairs_desc(v: Vec<(u64, u64)>) -> (r: Vec<(u64, u64)>)
    ensures
        r@ == stable_sort_pairs_desc(v@),
        r@.to_multiset() == v@.to_multiset(),
        sorted_pairs_desc(r@),
        r@.len() == v@.len(),
{
    let mut out: Vec<(u64, u64)> = Vec::new();
    let n = v.len();
    assert(v@.take(0) =~= out@);
    let mut i: usize = 0;
    while i < n
        invariant
            i <= n,
            n == v@.len(),
            out@.len() == i,
            out@ == stable_sort_pairs_desc(v@.take(i as int)),
            out@.to_multiset() == v@.take(i as int).to_multiset(),
            sorted_pairs_desc(out@),
        decreases n - i,
    {
        let x = v[i];
        let mut j: usize = 0;
        while j < out.len() && out[j].0 >= x.0
            invariant
                j <= out@.len(),
                forall|k: int| 0 <= k < j ==> (#[trigger] out@[k]).0 >= x.0,
            decreases out@.len() - j,
        {
            j += 1;
        }
        let ghost pre = out@;
        out.insert(j, x);
        proof {
            pre.insert_ensures(j as int, x);
            lemma_insert_to_multiset(pre, j as int, x);
            lemma_insert_pair_desc_at(pre, x, j as int);
            assert(v@.take(i + 1) =~= v@.take(i as int).push(v@[i as int]));
            assert(v@.take(i + 1).drop_last() =~= v@.take(i as int));
            assert(v@.take(i + 1).last() == v@[i as int]);
            assert forall|a: int, b: int| 0 <= a < b < out@.len() implies out@[a].0
                >= out@[b].0 by {
                if b < j {
                } else if a > j {
                } else if a == j && b > j {
                    assert(out@[b] == pre[b - 1]);
                    assert(pre[j as int].0 < x.0 || j == pre.len());
                } else if b == j {
                    assert(out@[a] == pre[a]);
                }
            }
        }
        i += 1;
    }
    proof {
        assert(v@.take(n as int) =~= v@);
    }
    out
}

proof fn lemma_floor_pairs_counts(s: Seq<TraitMarket>)
    requires
        wf_markets(s),
    ensures
        pairs_counts_positive(floor_pairs(s)),
    decreases s.len(),
{
    if s.len() > 0 {
        assert(forall|i: int| 0 <= i < s.len() - 1 ==> s.drop_last()[i] == s[i]);
        lemma_floor_pairs_counts(s.drop_last());
    }
}

/// The rarity-weighted floor of a token: over the traits rarer than a third
/// of the cutoff, the diminishing-weight accumulation of their floors taken
/// in descending price order; when no trait is rare enough, the rarest
/// trait's plain floor price.  Traits with no listed holder are skipped, and
/// a candidate set without any floor yields no signal.
pub fn get_rarity_weighted_floor(traits: &Vec<TraitMarket>, total_supply: u64, cutoff: Ratio) -> (r:
    Option<u64>)
    requires
        wf_markets(traits@),
    ensures
        ({
            let q = third_subset(traits@, total_supply, cutoff);
            if q.len() == 0 {
                r == (match rarest_trait(traits@) {
                    None => None::<u64>,
                    Some(t) => match t.floor {
                        Some(f) => Some(f.floor_price),
                        None => None,
                    },
                })
            } else if floor_pairs(q).len() == 0 {
                r is None
            } else {
                let p = stable_sort_pairs_desc(floor_pairs(q));
                if rwf_sum(p) > u64::MAX {
                    r is None
                } else {
                    r matches Some(v) && v as int == rwf_sum(p)
                }
            }
        }),
{
    let qual = filter_third(traits, total_supply, cutoff);
    if qual.len() == 0 {
        return match get_rarest_trait_floor(traits) {
            Some(f) => Some(f.floor_price),
            None => None,
        };
    }
    let mut pairs: Vec<(u64, u64)> = Vec::new();
    let mut i: usize = 0;
    assert(qual@.take(0) =~= Seq::<TraitMarket>::empty());
    while i < qual.len()
        invariant
            i <= qual@.len(),
            pairs@ == floor_pairs(qual@.take(i as int)),
        decreases qual@.len() - i,
    {
        proof {
            assert(qual@.take(i + 1).drop_last() =~= qual@.take(i as int));
            assert(qual@.take(i + 1).last() == qual@[i as int]);
        }
        match qual[i].floor {
            Some(f) => pairs.push((f.floor_price, qual[i].trait_count)),
            None => {},
        }
        i += 1;
    }
    proof {
        assert(qual@.take(qual@.len() as int) =~= qual@);
    }
    if pairs.len() == 0 {
        return None;
    }
    proof {
        let ghost pred = |t: TraitMarket| rarity_below_third(t.trait_count, total_supply, cutoff);
        assert forall|k: int| 0 <= k < qual@.len() implies wf_market(#[trigger] qual@[k]) by {
            assert(qual@.contains(qual@[k]));
            traits@.lemma_filter_contains_rev(pred, qual@[k]);
            let j = choose|j: int| 0 <= j < traits@.len() && traits@[j] == qual@[k];
            assert(wf_market(traits@[j]));
        }
        lemma_floor_pairs_counts(qual@);
    }
    let sorted = sort_pairs_desc(pairs);
    proof {
        assert forall|k: int| 0 <= k < sorted@.len() implies #[trigger] sorted@[k].1 >= 1 by {
            assert(sorted@.contains(sorted@[k]));
            assert(sorted@.to_multiset().count(sorted@[k]) > 0);
            assert(pairs@.contains(sorted@[k]));
            let j = choose|j: int| 0 <= j < pairs@.len() && pairs@[j] == sorted@[k];
        }
    }
    rwf_from_pairs(&sorted)
}

} // verus!

