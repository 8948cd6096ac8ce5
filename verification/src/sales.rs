//! Sale history analysis: time ordering, trailing averages and the
//! market-relative estimate derived from a token's most recent sale.

use vstd::prelude::*;

verus! {

use crate::ratio::lemma_mul_le;
use crate::support::{lemma_div_bound, lemma_insert_to_multiset};

broadcast use vstd::seq_lib::group_to_multiset_ensures;

/// A sale event: a token sold for `price` at `timestamp` (seconds).
#[derive(Clone, Copy, Debug, PartialEq, Eq, Structural)]
pub struct Sale {
    pub token_id: u64,
    pub price: u64,
    pub timestamp: u64,
}

/// The sales are in time order, oldest first.
pub open spec fn sorted_by_timestamp(s: Seq<Sale>) -> bool {
    forall|i: int, j: int| 0 <= i < j < s.len() ==> s[i].timestamp <= s[j].timestamp
}

/// Total of the prices of a sequence of sales.
pub open spec fn sum_prices(s: Seq<Sale>) -> int
    decreases s.len(),
{
    if s.len() == 0 {
        0
    } else {
        sum_prices(s.drop_last()) + s.last().price
    }
}

/// Orders a sale history by timestamp, oldest first.  The result holds
/// exactly the sales of the input.
pub fn sort_sales_by_timestamp(sales: &Vec<Sale>) -> (r: Vec<Sale>)
    ensures
        r@.to_multiset() == sales@.to_multiset(),
        sorted_by_timestamp(r@),
        r@.len() == sales@.len(),
{
    let mut out: Vec<Sale> = Vec::new();
    let n = sales.len();
    assert(sales@.take(0) =~= out@);
    let mut i: usize = 0;
    while i < n
        invariant
            i <= n,
            n == sales@.len(),
            out@.len() == i,
            out@.to_multiset() == sales@.take(i as int).to_multiset(),
            sorted_by_timestamp(out@),
        decreases n - i,
    {
        let x = sales[i];
        let mut j: usize = 0;
        while j < out.len() && out[j].timestamp <= x.timestamp
            invariant
                j <= out@.len(),
                forall|k: int| 0 <= k < j ==> out@[k].timestamp <= x.timestamp,
            decreases out@.len() - j,
        {
            j += 1;
        }
        let ghost pre = out@;
        out.insert(j, x);
        proof {
            pre.insert_ensures(j as int, x);
            lemma_insert_to_multiset(pre, j as int, x);
            assert(sales@.take(i + 1) =~= sales@.take(i as int).push(sales@[i as int]));
            assert(out@.to_multiset() == sales@.take(i + 1).to_multiset());
            assert forall|a: int, b: int| 0 <= a < b < out@.len() implies out@[a].timestamp
                <= out@[b].timestamp by {
                if b < j {
                } else if a > j {
                } else if a == j && b > j {
                    assert(out@[b] == pre[b - 1]);
                    assert(pre[j as int].timestamp > x.timestamp || j == pre.len());
                } else if b == j {
                    assert(out@[a] == pre[a]);
                }
            }
        }
        i += 1;
    }
    proof {
        assert(sales@.take(n as int) =~= sales@);
    }
    out
}

/// The most recent sale of a time-ordered history, if any.
pub fn get_last_sale(sales: &Vec<Sale>) -> (r: Option<Sale>)
    requires
        sorted_by_timestamp(sales@),
    ensures
        sales@.len() == 0 ==> r is None,
        sales@.len() > 0 ==> r == Some(sales@.last()),
{
    if sales.len() == 0 {
        None
    } else {
        Some(sales[sales.len() - 1])
    }
}

/// The truncating mean of the last `count` prices of `s`.
pub open spec fn spec_average_last(s: Seq<Sale>, count: int) -> int {
    sum_prices(s.skip(s.len() - count)) / count
}

/// Arithmetic mean of the `nr` most recent sale prices of a time-ordered
/// history; with `nr` absent, of the whole history.  There is no
/// partial-window averaging: fewer than `nr` recorded sales give no signal.
pub fn get_average_trait_sales_nr(sales: &Vec<Sale>, nr: Option<usize>) -> (r: Option<u64>)
    ensures
        ({
            let count = if nr is Some {
                nr->Some_0 as int
            } else {
                sales@.len() as int
            };
            if count == 0 || sales@.len() == 0 || sales@.len() < count {
                r is None
            } else {
                r matches Some(v) && v as int == spec_average_last(sales@, count)
            }
        }),
{
    let count = match nr {
        Some(c) => c,
        None => sales.len(),
    };
    if count == 0 || sales.len() == 0 || sales.len() < count {
        return None;
    }
    let start = sales.len() - count;
    let ghost s = sales@;
    let mut acc: u128 = 0;
    let mut i: usize = start;
    assert(s.subrange(start as int, start as int) =~= Seq::<Sale>::empty());
    while i < sales.len()
        invariant
            start <= i <= s.len(),
            s == sales@,
            acc == sum_prices(s.subrange(start as int, i as int)),
            acc <= (i - start) * (u64::MAX as int),
        decreases s.len() - i,
    {
        proof {
            assert(s.subrange(start as int, i + 1).drop_last() =~= s.subrange(
                start as int,
                i as int,
            ));
        }
        acc = acc + sales[i].price as u128;
        i += 1;
    }
    proof {
        assert(s.subrange(start as int, s.len() as int) =~= s.skip(s.len() - count));
        lemma_div_bound(acc as int, count as int, u64::MAX as int);
    }
    Some((acc / count as u128) as u64)
}

/// A sale lies strictly inside the time window `(lo, hi)`.
pub open spec fn in_window(s: Sale, lo: u64, hi: u64) -> bool {
    lo < s.timestamp < hi
}

/// How many sales of `s` fall strictly inside `(lo, hi)`.
pub open spec fn count_in_window(s: Seq<Sale>, lo: u64, hi: u64) -> int
    decreases s.len(),
{
    if s.len() == 0 {
        0
    } else {
        count_in_window(s.drop_last(), lo, hi) + if in_window(s.last(), lo, hi) {
            1int
        } else {
            0int
        }
    }
}

/// Total of the prices of the sales of `s` strictly inside `(lo, hi)`.
pub open spec fn sum_in_window(s: Seq<Sale>, lo: u64, hi: u64) -> int
    decreases s.len(),
{
    if s.len() == 0 {
        0
    } else {
        sum_in_window(s.drop_last(), lo, hi) + if in_window(s.last(), lo, hi) {
            s.last().price as int
        } else {
            0int
        }
    }
}

proof fn lemma_window_bounds(s: Seq<Sale>, lo: u64, hi: u64)
    ensures
        0 <= count_in_window(s, lo, hi) <= s.len(),
        0 <= sum_in_window(s, lo, hi) <= count_in_window(s, lo, hi) * (u64::MAX as int),
    decreases s.len(),
{
    if s.len() > 0 {
        lemma_window_bounds(s.drop_last(), lo, hi);
    }
}

/// The truncating mean price of the sales inside the window, or nothing when
/// the window holds no sale.
pub open spec fn spec_window_average(s: Seq<Sale>, lo: u64, hi: u64) -> Option<int> {
    if count_in_window(s, lo, hi) == 0 {
        None
    } else {
        Some(sum_in_window(s, lo, hi) / count_in_window(s, lo, hi))
    }
}

/// Mean sale price over the time window `(lo, hi)`, both ends exclusive.
/// A window without sales yields no signal rather than a zero price.
pub fn get_average_sales_in_window(sales: &Vec<Sale>, lo: u64, hi: u64) -> (r: Option<u64>)
    ensures
        match spec_window_average(sales@, lo, hi) {
            None => r is None,
            Some(v) => r matches Some(u) && u as int == v,
        },
{
    let ghost s = sales@;
    let mut acc: u128 = 0;
    let mut cnt: usize = 0;
    let mut i: usize = 0;
    assert(s.take(0) =~= Seq::<Sale>::empty());
    while i < sales.len()
        invariant
            i <= s.len(),
            s == sales@,
            cnt == count_in_window(s.take(i as int), lo, hi),
            acc == sum_in_window(s.take(i as int), lo, hi),
            acc <= cnt * (u64::MAX as int),
        decreases s.len() - i,
    {
        proof {
            assert(s.take(i + 1).drop_last() =~= s.take(i as int));
            lemma_window_bounds(s.take(i as int), lo, hi);
        }
        let sale = sales[i];
        if lo < sale.timestamp && sale.timestamp < hi {
            acc = acc + sale.price as u128;
            cnt = cnt + 1;
        }
        i += 1;
    }
    proof {
        assert(s.take(s.len() as int) =~= s);
    }
    if cnt == 0 {
        None
    } else {
        proof {
            lemma_div_bound(acc as int, cnt as int, u64::MAX as int);
        }
        Some((acc / cnt as u128) as u64)
    }
}

/// How many sales of `s` cleared strictly above `price` strictly after
/// `cutoff_ts`.
pub open spec fn count_above_after(s: Seq<Sale>, price: u64, cutoff_ts: u64) -> int
    decreases s.len(),
{
    if s.len() == 0 {
        0
    } else {
        count_above_after(s.drop_last(), price, cutoff_ts) + if s.last().price > price
            && s.last().timestamp > cutoff_ts {
            1int
        } else {
            0int
        }
    }
}

/// Number of collection sales above a price in a trailing window — a signal
/// of whether an estimate is priced above what actually clears.
pub fn count_sales_above_price_after(sales: &Vec<Sale>, price: u64, cutoff_ts: u64) -> (r: usize)
    ensures
        r == count_above_after(sales@, price, cutoff_ts),
{
    let ghost s = sales@;
    let mut cnt: usize = 0;
    let mut i: usize = 0;
    assert(s.take(0) =~= Seq::<Sale>::empty());
    while i < sales.len()
        invariant
            i <= s.len(),
            s == sales@,
            cnt == count_above_after(s.take(i as int), price, cutoff_ts),
            cnt <= i,
        decreases s.len() - i,
    {
        proof {
            assert(s.take(i + 1).drop_last() =~= s.take(i as int));
        }
        if sales[i].price > price && sales[i].timestamp > cutoff_ts {
            cnt += 1;
        }
        i += 1;
    }
    proof {
        assert(s.take(s.len() as int) =~= s);
    }
    cnt
}

/// Inflates a historical sale price by how the market average has moved
/// since: `price * avg_now / avg_at_sale`, truncated.
pub open spec fn spec_relative_estimate(price: int, avg_at_sale: int, avg_now: int) -> int {
    price * avg_now / avg_at_sale
}

/// Scales `price` by the ratio of the current average to the average at the
/// time of the sale.  No estimate is produced when the historical average is
/// zero or the scaled value does not fit a price.
pub fn relative_sale_estimate(price: u64, avg_at_sale: u64, avg_now: u64) -> (r: Option<u64>)
    ensures
        avg_at_sale == 0 ==> r is None,
        avg_at_sale > 0 ==> ({
            let v = spec_relative_estimate(price as int, avg_at_sale as int, avg_now as int);
            if v > u64::MAX {
                r is None
            } else {
                r matches Some(u) && u as int == v
            }
        }),
{
    if avg_at_sale == 0 {
        return None;
    }
    proof {
        lemma_mul_le(price as int, avg_now as int, u64::MAX as int, u64::MAX as int);
    }
    let prod = price as u128 * avg_now as u128;
    let q = prod / (avg_at_sale as u128);
    if q > u64::MAX as u128 {
        None
    } else {
        Some(q as u64)
    }
}

/// The lower end of a trailing window of length `window` that closes at `ts`,
/// clamped at the epoch.
pub open spec fn window_lo(ts: u64, window: u64) -> u64 {
    if window > ts {
        0
    } else {
        (ts - window) as u64
    }
}

fn window_lo_exec(ts: u64, window: u64) -> (r: u64)
    ensures
        r == window_lo(ts, window),
{
    if window > ts {
        0
    } else {
        ts - window
    }
}

/// What `get_last_sale_relative_to_collection_avg` returns, stated over the
/// sale history: the last sale scaled by the movement of the windowed mean
/// between the sale's time and `now`, absent whenever there is no last sale,
/// no mean at either end, a zero historical mean, or an estimate too large
/// for a price.
pub open spec fn spec_relative_to_avg(
    sales: Seq<Sale>,
    last_sale: Option<Sale>,
    now_ts: u64,
    window: u64,
    r: Option<u64>,
) -> bool {
    match last_sale {
        None => r is None,
        Some(t) => {
            let a1 = spec_window_average(sales, window_lo(t.timestamp, window), t.timestamp);
            let a2 = spec_window_average(sales, window_lo(now_ts, window), now_ts);
            match (a1, a2) {
                (Some(x), Some(y)) => {
                    if x == 0 {
                        r is None
                    } else {
                        let v = spec_relative_estimate(t.price as int, x, y);
                        if v > u64::MAX {
                            r is None
                        } else {
                            r matches Some(u) && u as int == v
                        }
                    }
                },
                _ => r is None,
            }
        },
    }
}

/// Ratio of the token's most recent sale to the collection-wide mean sale
/// price in a trailing window at the time of that sale, multiplied by the
/// mean in the window closing now.
pub fn get_last_sale_relative_to_collection_avg(
    collection_sales: &Vec<Sale>,
    last_sale: Option<Sale>,
    now_ts: u64,
    window: u64,
) -> (r: Option<u64>)
    ensures
        spec_relative_to_avg(collection_sales@, last_sale, now_ts, window, r),
{
    let t = match last_sale {
        None => {
            return None;
        },
        Some(t) => t,
    };
    let avg_at_sale = get_average_sales_in_window(
        collection_sales,
        window_lo_exec(t.timestamp, window),
        t.timestamp,
    );
    let avg_now = get_average_sales_in_window(
        collection_sales,
        window_lo_exec(now_ts, window),
        now_ts,
    );
    match (avg_at_sale, avg_now) {
        (Some(x), Some(y)) => relative_sale_estimate(t.price, x, y),
        _ => None,
    }
}

/// Mean of the most-valued trait's recent sales: nothing when the token has
/// no most-valued trait, else the trailing mean of that trait's sale
/// history.
pub fn get_most_valued_trait_last_sale_avg(
    has_most_valued_trait: bool,
    mvt_sales: &Vec<Sale>,
    nr: Option<usize>,
) -> (r: Option<u64>)
    ensures
        !has_most_valued_trait ==> r is None,
        has_most_valued_trait ==> ({
            let count = if nr is Some {
                nr->Some_0 as int
            } else {
                mvt_sales@.len() as int
            };
            if count == 0 || mvt_sales@.len() == 0 || mvt_sales@.len() < count {
                r is None
            } else {
                r matches Some(v) && v as int == spec_average_last(mvt_sales@, count)
            }
        }),
{
    if has_most_valued_trait {
        get_average_trait_sales_nr(mvt_sales, nr)
    } else {
        None
    }
}

/// The same market-relative estimate computed against the sale history of a
/// single trait instead of the whole collection.
pub fn get_last_sale_relative_to_trait_avg(
    trait_sales: &Vec<Sale>,
    last_sale: Option<Sale>,
    now_ts: u64,
    window: u64,
) -> (r: Option<u64>)
    ensures
        spec_relative_to_avg(trait_sales@, last_sale, now_ts, window, r),
{
    get_last_sale_relative_to_collection_avg(trait_sales, last_sale, now_ts, window)
}

} // verus!

