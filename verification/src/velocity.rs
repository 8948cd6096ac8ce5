//! Sale velocity: trailing-window sale counts and days-per-sale
//! frequencies.  A window without sales has an undefined frequency — never a
//! zero or a division-by-zero.

use vstd::prelude::*;

verus! {

use crate::ratio::{lemma_mul_le, Ratio};
use crate::sales::Sale;
use crate::support::lemma_div_bound;

/// How many sales of `s` happened strictly after `cutoff_ts`.
pub open spec fn count_after(s: Seq<Sale>, cutoff_ts: u64) -> int
    decreases s.len(),
{
    if s.len() == 0 {
        0
    } else {
        count_after(s.drop_last(), cutoff_ts) + if s.last().timestamp > cutoff_ts {
            1int
        } else {
            0int
        }
    }
}

proof fn lemma_count_after_bound(s: Seq<Sale>, cutoff_ts: u64)
    ensures
        0 <= count_after(s, cutoff_ts) <= s.len(),
    decreases s.len(),
{
    if s.len() > 0 {
        lemma_count_after_bound(s.drop_last(), cutoff_ts);
    }
}

/// Number of sales of the trait strictly after `cutoff_ts`, the start of the
/// trailing window.
pub fn get_sale_count_trait(sales: &Vec<Sale>, cutoff_ts: u64) -> (r: usize)
    ensures
        r == count_after(sales@, cutoff_ts),
{
    let ghost s = sales@;
    let mut cnt: usize = 0;
    let mut i: usize = 0;
    assert(s.take(0) =~= Seq::<Sale>::empty());
    while i < sales.len()
        invariant
            i <= s.len(),
            s == sales@,
            cnt == count_after(s.take(i as int), cutoff_ts),
            cnt <= i,
        decreases s.len() - i,
    {
        proof {
            assert(s.take(i + 1).drop_last() =~= s.take(i as int));
            lemma_count_after_bound(s.take(i as int), cutoff_ts);
        }
        if sales[i].timestamp > cutoff_ts {
            cnt += 1;
        }
        i += 1;
    }
    proof {
        assert(s.take(s.len() as int) =~= s);
    }
    cnt
}

/// Days per sale over a trailing window: `window_days / sales_in_window` as
/// an exact fraction; lower means more frequent sales.  Zero sales in the
/// window leave the frequency undefined.
pub fn sale_frequency(window_days: u64, sales_in_window: u64) -> (r: Option<Ratio>)
    ensures
        sales_in_window == 0 ==> r is None,
        sales_in_window > 0 ==> r == Some(Ratio { num: window_days, den: sales_in_window }),
{
    if sales_in_window == 0 {
        None
    } else {
        Some(Ratio { num: window_days, den: sales_in_window })
    }
}

/// The largest of a sequence of sale counts.
pub open spec fn max_count(s: Seq<u64>) -> int
    decreases s.len(),
{
    if s.len() == 0 {
        0
    } else if s.last() >= max_count(s.drop_last()) {
        s.last() as int
    } else {
        max_count(s.drop_last())
    }
}

proof fn lemma_max_count_in(s: Seq<u64>)
    ensures
        s.len() > 0 ==> s.contains(max_count(s) as u64),
        forall|i: int| 0 <= i < s.len() ==> s[i] <= max_count(s),
        0 <= max_count(s) <= u64::MAX,
    decreases s.len(),
{
    if s.len() > 0 {
        lemma_max_count_in(s.drop_last());
        assert(forall|i: int| 0 <= i < s.len() - 1 ==> s[i] == s.drop_last()[i]);
        if s.len() > 1 && max_count(s) != s.last() {
            assert(s.drop_last().contains(max_count(s.drop_last()) as u64));
            let k = choose|k: int|
                0 <= k < s.drop_last().len() && s.drop_last()[k] == max_count(s.drop_last()) as u64;
            assert(s[k] == max_count(s) as u64);
        }
    }
}

/// The lowest sale frequency among a token's traits, given each trait's sale
/// count in the window: the rarest-to-sell signal `window_days / max_count`.
/// A token none of whose traits sold in the window has no defined frequency.
pub fn get_lowest_sale_frequency(window_days: u64, counts: &Vec<u64>) -> (r: Option<Ratio>)
    ensures
        max_count(counts@) == 0 ==> r is None,
        max_count(counts@) > 0 ==> r == Some(
            Ratio { num: window_days, den: max_count(counts@) as u64 },
        ),
        r matches Some(f) ==> forall|i: int|
            0 <= i < counts@.len() && counts@[i] > 0 ==> !(Ratio {
                num: window_days,
                den: counts@[i],
            }).spec_lt(f),
{
    let ghost s = counts@;
    let mut best: u64 = 0;
    let mut i: usize = 0;
    assert(s.take(0) =~= Seq::<u64>::empty());
    while i < counts.len()
        invariant
            i <= s.len(),
            s == counts@,
            best == max_count(s.take(i as int)),
        decreases s.len() - i,
    {
        proof {
            assert(s.take(i + 1).drop_last() =~= s.take(i as int));
            lemma_max_count_in(s.take(i as int));
        }
        if counts[i] >= best {
            best = counts[i];
        }
        i += 1;
    }
    proof {
        assert(s.take(s.len() as int) =~= s);
        lemma_max_count_in(s);
    }
    if best == 0 {
        None
    } else {
        let f = Ratio { num: window_days, den: best };
        proof {
            assert forall|k: int| 0 <= k < s.len() && s[k] > 0 implies !(Ratio {
                num: window_days,
                den: s[k],
            }).spec_lt(f) by {
                lemma_mul_le(window_days as int, s[k] as int, window_days as int, best as int);
            }
        }
        Some(f)
    }
}

/// The smallest of a sequence of sale counts.
pub open spec fn min_count(s: Seq<u64>) -> int
    decreases s.len(),
{
    if s.len() == 0 {
        0
    } else if s.len() == 1 {
        s[0] as int
    } else if s.last() < min_count(s.drop_last()) {
        s.last() as int
    } else {
        min_count(s.drop_last())
    }
}

/// The lowest trailing sale count across a token's traits, given each
/// trait's count; a token without traits has none.
pub fn get_lowest_sale_count(counts: &Vec<u64>) -> (r: Option<u64>)
    ensures
        counts@.len() == 0 ==> r is None,
        counts@.len() > 0 ==> (r matches Some(v) && v as int == min_count(counts@)),
{
    if counts.len() == 0 {
        return None;
    }
    let ghost s = counts@;
    let mut best: u64 = counts[0];
    let mut i: usize = 1;
    proof {
        assert(s.take(1).drop_last() =~= s.take(0));
        assert(s.take(1)[0] == s[0]);
    }
    while i < counts.len()
        invariant
            1 <= i <= s.len(),
            s == counts@,
            best as int == min_count(s.take(i as int)),
        decreases s.len() - i,
    {
        proof {
            assert(s.take(i + 1).drop_last() =~= s.take(i as int));
            assert(s.take(i + 1).last() == s[i as int]);
        }
        if counts[i] < best {
            best = counts[i];
        }
        i += 1;
    }
    proof {
        assert(s.take(s.len() as int) =~= s);
    }
    Some(best)
}

/// Total of a sequence of sale counts.
pub open spec fn sum_sale_counts(s: Seq<u64>) -> int
    decreases s.len(),
{
    if s.len() == 0 {
        0
    } else {
        sum_sale_counts(s.drop_last()) + s.last()
    }
}

/// Mean sale count across a token's traits, as the exact fraction
/// `total / number_of_traits`.  A token without traits has no average, and
/// an out-of-range total gives none either.
pub fn get_avg_sale_count(counts: &Vec<u64>) -> (r: Option<Ratio>)
    ensures
        ({
            if counts@.len() == 0 || sum_sale_counts(counts@) > u64::MAX {
                r is None
            } else {
                r == Some(
                    Ratio { num: sum_sale_counts(counts@) as u64, den: counts@.len() as u64 },
                )
            }
        }),
{
    if counts.len() == 0 {
        return None;
    }
    let ghost s = counts@;
    let mut acc: u128 = 0;
    let mut i: usize = 0;
    assert(s.take(0) =~= Seq::<u64>::empty());
    while i < counts.len()
        invariant
            i <= s.len(),
            s == counts@,
            acc == sum_sale_counts(s.take(i as int)),
            acc <= i * (u64::MAX as int),
        decreases s.len() - i,
    {
        proof {
            assert(s.take(i + 1).drop_last() =~= s.take(i as int));
        }
        acc = acc + counts[i] as u128;
        i += 1;
    }
    proof {
        assert(s.take(s.len() as int) =~= s);
    }
    if acc > u64::MAX as u128 {
        None
    } else {
        Some(Ratio { num: acc as u64, den: counts.len() as u64 })
    }
}

/// Milli-days per sale for one trait: `window_days * 1000 / count`, or zero
/// for a trait that did not sell (an undefined frequency contributes
/// nothing).
pub open spec fn freq_milli(window_days: u64, count: u64) -> int {
    if count == 0 {
        0
    } else {
        window_days * 1000 / (count as int)
    }
}

/// Total of the defined milli-day frequencies of a token's traits.
pub open spec fn sum_freq_milli(window_days: u64, s: Seq<u64>) -> int
    decreases s.len(),
{
    if s.len() == 0 {
        0
    } else {
        sum_freq_milli(window_days, s.drop_last()) + freq_milli(window_days, s.last())
    }
}

/// How many traits have a defined frequency (sold at least once).
pub open spec fn count_positive(s: Seq<u64>) -> int
    decreases s.len(),
{
    if s.len() == 0 {
        0
    } else {
        count_positive(s.drop_last()) + if s.last() > 0 {
            1int
        } else {
            0int
        }
    }
}

proof fn lemma_freq_milli_bounds(window_days: u64, s: Seq<u64>)
    requires
        window_days * 1000 <= u64::MAX,
    ensures
        0 <= count_positive(s) <= s.len(),
        0 <= sum_freq_milli(window_days, s) <= count_positive(s) * (u64::MAX as int),
    decreases s.len(),
{
    if s.len() > 0 {
        lemma_freq_milli_bounds(window_days, s.drop_last());
        if s.last() > 0 {
            lemma_div_bound(window_days * 1000, s.last() as int, u64::MAX as int);
        }
    }
}

/// Mean of the defined sale frequencies across a token's traits, in
/// milli-days per sale, truncated.  Traits that did not sell in the window
/// are excluded from the mean, never counted as zero; a token none of whose
/// traits sold has no mean frequency.
pub fn get_avg_sale_frequency(window_days: u64, counts: &Vec<u64>) -> (r: Option<u64>)
    requires
        window_days * 1000 <= u64::MAX,
    ensures
        count_positive(counts@) == 0 ==> r is None,
        count_positive(counts@) > 0 ==> (r matches Some(v) && v as int == sum_freq_milli(
            window_days,
            counts@,
        ) / count_positive(counts@)),
{
    let ghost s = counts@;
    let scaled = window_days * 1000;
    let mut acc: u128 = 0;
    let mut cnt: usize = 0;
    let mut i: usize = 0;
    assert(s.take(0) =~= Seq::<u64>::empty());
    while i < counts.len()
        invariant
            i <= s.len(),
            s == counts@,
            scaled == window_days * 1000 <= u64::MAX,
            cnt == count_positive(s.take(i as int)),
            acc == sum_freq_milli(window_days, s.take(i as int)),
            acc <= cnt * (u64::MAX as int),
            cnt <= i,
        decreases s.len() - i,
    {
        proof {
            assert(s.take(i + 1).drop_last() =~= s.take(i as int));
            lemma_freq_milli_bounds(window_days, s.take(i as int));
            if s[i as int] > 0 {
                lemma_div_bound(scaled as int, s[i as int] as int, u64::MAX as int);
            }
        }
        let c = counts[i];
        if c > 0 {
            acc = acc + (scaled / c) as u128;
            cnt += 1;
        }
        i += 1;
    }
    proof {
        assert(s.take(s.len() as int) =~= s);
    }
    if cnt == 0 {
        None
    } else {
        proof {
            lemma_div_bound(acc as int, cnt as int, u64::MAX as int);
        }
        Some((acc / cnt as u128) as u64)
    }
}

} // verus!
