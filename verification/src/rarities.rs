//! Trait rarity: normalized occurrence fractions, the ranked rarity list of
//! a token, and the collection-wide rarity cutoff.

use vstd::prelude::*;

verus! {

use crate::ratio::{lemma_mul_le, Ratio};
use crate::support::lemma_insert_to_multiset;

broadcast use vstd::seq_lib::group_to_multiset_ensures;

/// A trait held by a token, with the number of tokens of the collection
/// holding it.
#[derive(Clone, Copy, Debug, PartialEq, Eq, Structural)]
pub struct TraitRarity {
    pub trait_id: u64,
    pub trait_count: u64,
}

/// The traits are in rarity order, rarest (lowest occurrence count) first.
/// With the collection's total supply as the shared denominator, ordering by
/// count is ordering by rarity fraction.
pub open spec fn sorted_by_count(s: Seq<TraitRarity>) -> bool {
    forall|i: int, j: int| 0 <= i < j < s.len() ==> s[i].trait_count <= s[j].trait_count
}

/// The rarity of a trait: its occurrence count over the collection's total
/// supply, a fraction in (0, 1]; lower is rarer.
pub fn rarity_fraction(trait_count: u64, total_supply: u64) -> (r: Ratio)
    requires
        total_supply > 0,
    ensures
        r == (Ratio { num: trait_count, den: total_supply }),
        r.wf(),
{
    Ratio { num: trait_count, den: total_supply }
}

/// Ranks a token's traits by rarity, rarest first.  The result holds exactly
/// the traits of the input; a token without traits yields an empty list,
/// a valid, non-error state.
pub fn get_trait_rarities(traits: &Vec<TraitRarity>) -> (r: Vec<TraitRarity>)
    ensures
        r@.to_multiset() == traits@.to_multiset(),
        sorted_by_count(r@),
        r@.len() == traits@.len(),
{
    let mut out: Vec<TraitRarity> = Vec::new();
    let n = traits.len();
    assert(traits@.take(0) =~= out@);
    let mut i: usize = 0;
    while i < n
        invariant
            i <= n,
            n == traits@.len(),
            out@.len() == i,
            out@.to_multiset() == traits@.take(i as int).to_multiset(),
            sorted_by_count(out@),
        decreases n - i,
    {
        let x = traits[i];
        let mut j: usize = 0;
        while j < out.len() && out[j].trait_count <= x.trait_count
            invariant
                j <= out@.len(),
                forall|k: int| 0 <= k < j ==> out@[k].trait_count <= x.trait_count,
            decreases out@.len() - j,
        {
            j += 1;
        }
        let ghost pre = out@;
        out.insert(j, x);
        proof {
            pre.insert_ensures(j as int, x);
            lemma_insert_to_multiset(pre, j as int, x);
            assert(traits@.take(i + 1) =~= traits@.take(i as int).push(traits@[i as int]));
            assert forall|a: int, b: int| 0 <= a < b < out@.len() implies out@[a].trait_count
                <= out@[b].trait_count by {
                if b < j {
                } else if a > j {
                } else if a == j && b > j {
                    assert(out@[b] == pre[b - 1]);
                    assert(pre[j as int].trait_count > x.trait_count || j == pre.len());
                } else if b == j {
                    assert(out@[a] == pre[a]);
                }
            }
        }
        i += 1;
    }
    proof {
        assert(traits@.take(n as int) =~= traits@);
    }
    out
}

/// How many of the traits are unique: held by exactly one token of the
/// collection.
pub open spec fn count_unique(s: Seq<TraitRarity>) -> int
    decreases s.len(),
{
    if s.len() == 0 {
        0
    } else {
        count_unique(s.drop_last()) + if s.last().trait_count == 1 {
            1int
        } else {
            0int
        }
    }
}

/// Number of a token's traits that no other token holds.
pub fn count_unique_traits(traits: &Vec<TraitRarity>) -> (r: usize)
    ensures
        r == count_unique(traits@),
{
    let ghost s = traits@;
    let mut cnt: usize = 0;
    let mut i: usize = 0;
    assert(s.take(0) =~= Seq::<TraitRarity>::empty());
    while i < traits.len()
        invariant
            i <= s.len(),
            s == traits@,
            cnt == count_unique(s.take(i as int)),
            cnt <= i,
        decreases s.len() - i,
    {
        proof {
            assert(s.take(i + 1).drop_last() =~= s.take(i as int));
        }
        if traits[i].trait_count == 1 {
            cnt += 1;
        }
        i += 1;
    }
    proof {
        assert(s.take(s.len() as int) =~= s);
    }
    cnt
}

/// Total of a sequence of occurrence counts.
pub open spec fn sum_counts(s: Seq<u64>) -> int
    decreases s.len(),
{
    if s.len() == 0 {
        0
    } else {
        sum_counts(s.drop_last()) + s.last()
    }
}

proof fn lemma_sum_counts_bound(s: Seq<u64>)
    ensures
        0 <= sum_counts(s) <= s.len() * (u64::MAX as int),
    decreases s.len(),
{
    if s.len() > 0 {
        lemma_sum_counts_bound(s.drop_last());
    }
}

/// Mean occurrence count over all traits of a collection, as the exact
/// fraction `sum / number_of_traits`.  A collection without traits has no
/// average, and a sum beyond the largest count is out of range.
pub fn get_collection_avg_trait_rarity(counts: &Vec<u64>) -> (r: Option<Ratio>)
    ensures
        ({
            if counts@.len() == 0 || sum_counts(counts@) > u64::MAX {
                r is None
            } else {
                r == Some(
                    Ratio { num: sum_counts(counts@) as u64, den: counts@.len() as u64 },
                )
            }
        }),
{
    if counts.len() == 0 {
        return None;
    }
    let ghost s = counts@;
    let mut acc: u128 = 0;
    let mut i: usize = 0;
    assert(s.take(0) =~= Seq::<u64>::empty());
    while i < counts.len()
        invariant
            i <= s.len(),
            s == counts@,
            acc == sum_counts(s.take(i as int)),
            acc <= i * (u64::MAX as int),
        decreases s.len() - i,
    {
        proof {
            assert(s.take(i + 1).drop_last() =~= s.take(i as int));
        }
        acc = acc + counts[i] as u128;
        i += 1;
    }
    proof {
        assert(s.take(s.len() as int) =~= s);
    }
    if acc > u64::MAX as u128 {
        None
    } else {
        Some(Ratio { num: acc as u64, den: counts.len() as u64 })
    }
}

/// The rarity cutoff separating "rare" from "common" traits:
/// `avg_trait_count * multiplier / total_supply`, as an exact fraction.
/// Out-of-range products yield no cutoff.
pub fn rarity_cutoff(avg_trait_count: Ratio, multiplier: Ratio, total_supply: u64) -> (r: Option<
    Ratio,
>)
    requires
        avg_trait_count.wf(),
        multiplier.wf(),
        total_supply > 0,
    ensures
        ({
            let num = avg_trait_count.num * multiplier.num;
            let den = avg_trait_count.den * multiplier.den * total_supply;
            if num <= u64::MAX && den <= u64::MAX {
                r matches Some(c) && c.num == num && c.den == den && c.wf()
            } else {
                r is None
            }
        }),
{
    proof {
        lemma_mul_le(
            avg_trait_count.num as int,
            multiplier.num as int,
            u64::MAX as int,
            u64::MAX as int,
        );
        lemma_mul_le(
            avg_trait_count.den as int,
            multiplier.den as int,
            u64::MAX as int,
            u64::MAX as int,
        );
        vstd::arithmetic::mul::lemma_mul_strictly_positive(
            avg_trait_count.den as int,
            multiplier.den as int,
        );
    }
    let num = avg_trait_count.num as u128 * multiplier.num as u128;
    let den_partial = avg_trait_count.den as u128 * multiplier.den as u128;
    if num > u64::MAX as u128 || den_partial > u64::MAX as u128 {
        proof {
            vstd::arithmetic::mul::lemma_mul_inequality(
                1,
                total_supply as int,
                den_partial as int,
            );
        }
        return None;
    }
    proof {
        lemma_mul_le(den_partial as int, total_supply as int, u64::MAX as int, u64::MAX as int);
        vstd::arithmetic::mul::lemma_mul_strictly_positive(den_partial as int, total_supply as int);
    }
    let den = den_partial * total_supply as u128;
    if den > u64::MAX as u128 {
        return None;
    }
    Some(Ratio { num: num as u64, den: den as u64 })
}

} // verus!
