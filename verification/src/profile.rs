//! Price envelope synthesis and the liquidity profile.
//!
//! The envelope collects the positive price signals of a token, takes the
//! largest as `max_price`, clamps the smallest at the collection floor for
//! `min_price`, and averages the two.  A curated custom price, when present,
//! short-circuits the whole computation.

use vstd::prelude::*;

verus! {

use crate::ratio::Ratio;
use crate::overlap::TokenOverlap;
use crate::sales::{count_above_after, count_sales_above_price_after, Sale};
use crate::velocity::{
    count_positive, get_avg_sale_count, get_avg_sale_frequency, get_lowest_sale_count,
    get_lowest_sale_frequency, max_count, min_count, sale_frequency, sum_freq_milli,
    sum_sale_counts,
};

/// The independent price signals of a token, each absent when there is no
/// data behind it.  Absent signals are excluded from aggregation, never
/// coerced to zero.
#[derive(Clone, Copy, Debug)]
pub struct PriceSignals {
    pub collection_floor: u64,
    pub last_sale: Option<u64>,
    pub most_rare_trait_floor: Option<u64>,
    pub most_valued_trait_floor: Option<u64>,
    pub rarity_weighted_floor: Option<u64>,
    pub avg_last_three_mvt_sales: Option<u64>,
    pub last_sale_relative_collection_avg: Option<u64>,
    pub last_sale_relative_mvt_avg: Option<u64>,
}

/// A token's synthesized price profile: the signals it was built from and
/// the max/min/avg envelope.
#[derive(Clone, Copy, Debug)]
pub struct PriceProfile {
    pub collection_floor: u64,
    pub last_sale: Option<u64>,
    pub most_rare_trait_floor: Option<u64>,
    pub most_valued_trait_floor: Option<u64>,
    pub rarity_weighted_floor: Option<u64>,
    pub avg_last_three_mvt_sales: Option<u64>,
    pub last_sale_relative_collection_avg: Option<u64>,
    pub last_sale_relative_mvt_avg: Option<u64>,
    pub custom_price: Option<u64>,
    pub max_price: u64,
    pub min_price: u64,
    pub avg_price: u64,
}

/// The value a signal contributes as an envelope candidate: absent counts
/// as zero, and zero is never a positive candidate.
pub open spec fn opt_val(o: Option<u64>) -> int {
    match o {
        Some(v) => v as int,
        None => 0,
    }
}

/// A larger candidate replaces the running maximum when positive.
pub open spec fn max_step(acc: int, v: int) -> int {
    if v > acc {
        v
    } else {
        acc
    }
}

/// The largest positive signal, or zero when no signal is positive.
pub open spec fn envelope_max(s: PriceSignals) -> int {
    let m1 = max_step(0, s.collection_floor as int);
    let m2 = max_step(m1, opt_val(s.last_sale));
    let m3 = max_step(m2, opt_val(s.most_rare_trait_floor));
    let m4 = max_step(m3, opt_val(s.most_valued_trait_floor));
    let m5 = max_step(m4, opt_val(s.rarity_weighted_floor));
    let m6 = max_step(m5, opt_val(s.avg_last_three_mvt_sales));
    let m7 = max_step(m6, opt_val(s.last_sale_relative_collection_avg));
    max_step(m7, opt_val(s.last_sale_relative_mvt_avg))
}

/// A positive candidate replaces the running minimum when smaller; zero and
/// absent signals are excluded, never treated as a zero price.
pub open spec fn min_step(acc: Option<int>, v: int) -> Option<int> {
    if v > 0 {
        match acc {
            None => Some(v),
            Some(m) => if v < m {
                Some(v)
            } else {
                Some(m)
            },
        }
    } else {
        acc
    }
}

/// The smallest positive signal, or nothing when no signal is positive.
pub open spec fn envelope_min(s: PriceSignals) -> Option<int> {
    let m1 = min_step(None, s.collection_floor as int);
    let m2 = min_step(m1, opt_val(s.last_sale));
    let m3 = min_step(m2, opt_val(s.most_rare_trait_floor));
    let m4 = min_step(m3, opt_val(s.most_valued_trait_floor));
    let m5 = min_step(m4, opt_val(s.rarity_weighted_floor));
    let m6 = min_step(m5, opt_val(s.avg_last_three_mvt_sales));
    let m7 = min_step(m6, opt_val(s.last_sale_relative_collection_avg));
    min_step(m7, opt_val(s.last_sale_relative_mvt_avg))
}

/// At least one signal carries a positive price.
pub open spec fn has_positive_signal(s: PriceSignals) -> bool {
    envelope_max(s) > 0
}

fn opt_val_exec(o: Option<u64>) -> (r: u64)
    ensures
        r as int == opt_val(o),
{
    match o {
        Some(v) => v,
        None => 0,
    }
}

/// The profile `r` carries the signals verbatim and the envelope computed
/// from them: `max_price` is the largest positive signal, `min_price` the
/// smallest positive signal clamped from below at the collection floor, and
/// `avg_price` their truncating mean.
pub open spec fn envelope_ok(r: PriceProfile, signals: PriceSignals, custom: Option<u64>) -> bool {
    &&& r.collection_floor == signals.collection_floor
    &&& r.last_sale == signals.last_sale
    &&& r.most_rare_trait_floor == signals.most_rare_trait_floor
    &&& r.most_valued_trait_floor == signals.most_valued_trait_floor
    &&& r.rarity_weighted_floor == signals.rarity_weighted_floor
    &&& r.avg_last_three_mvt_sales == signals.avg_last_three_mvt_sales
    &&& r.last_sale_relative_collection_avg == signals.last_sale_relative_collection_avg
    &&& r.last_sale_relative_mvt_avg == signals.last_sale_relative_mvt_avg
    &&& r.custom_price == custom
    &&& r.max_price as int == envelope_max(signals)
    &&& (envelope_min(signals) matches Some(m) && r.min_price as int == (if m
        >= signals.collection_floor as int {
        m
    } else {
        signals.collection_floor as int
    }))
    &&& r.avg_price as int == (r.max_price + r.min_price) as int / 2
}

impl PriceProfile {
    /// Synthesizes the price envelope from a token's signals.  `max_price`
    /// is the largest positive signal; `min_price` is the smallest positive
    /// signal clamped from below at the collection floor — the estimate is
    /// never allowed under it; `avg_price` is their truncating mean.  At
    /// least one signal must be positive: with no data at all there is no
    /// envelope to synthesize.
    pub fn make(signals: PriceSignals, custom_price: Option<u64>) -> (r: PriceProfile)
        requires
            has_positive_signal(signals),
        ensures
            envelope_ok(r, signals, custom_price),
            r.min_price >= r.collection_floor,
            r.min_price <= r.max_price,
    {
        let v1 = signals.collection_floor;
        let v2 = opt_val_exec(signals.last_sale);
        let v3 = opt_val_exec(signals.most_rare_trait_floor);
        let v4 = opt_val_exec(signals.most_valued_trait_floor);
        let v5 = opt_val_exec(signals.rarity_weighted_floor);
        let v6 = opt_val_exec(signals.avg_last_three_mvt_sales);
        let v7 = opt_val_exec(signals.last_sale_relative_collection_avg);
        let v8 = opt_val_exec(signals.last_sale_relative_mvt_avg);
        let m1 = max_step_exec(0, v1);
        let m2 = max_step_exec(m1, v2);
        let m3 = max_step_exec(m2, v3);
        let m4 = max_step_exec(m3, v4);
        let m5 = max_step_exec(m4, v5);
        let m6 = max_step_exec(m5, v6);
        let m7 = max_step_exec(m6, v7);
        let mx = max_step_exec(m7, v8);
        let n1 = min_step_exec(None, v1);
        let n2 = min_step_exec(n1, v2);
        let n3 = min_step_exec(n2, v3);
        let n4 = min_step_exec(n3, v4);
        let n5 = min_step_exec(n4, v5);
        let n6 = min_step_exec(n5, v6);
        let n7 = min_step_exec(n6, v7);
        let mn = min_step_exec(n7, v8);
        proof {
            lemma_envelope(signals);
        }
        let min_cand = match mn {
            Some(m) => m,
            None => 0,
        };
        let min_price = if min_cand >= signals.collection_floor {
            min_cand
        } else {
            signals.collection_floor
        };
        let avg = ((mx as u128 + min_price as u128) / 2) as u64;
        PriceProfile {
            collection_floor: signals.collection_floor,
            last_sale: signals.last_sale,
            most_rare_trait_floor: signals.most_rare_trait_floor,
            most_valued_trait_floor: signals.most_valued_trait_floor,
            rarity_weighted_floor: signals.rarity_weighted_floor,
            avg_last_three_mvt_sales: signals.avg_last_three_mvt_sales,
            last_sale_relative_collection_avg: signals.last_sale_relative_collection_avg,
            last_sale_relative_mvt_avg: signals.last_sale_relative_mvt_avg,
            custom_price,
            max_price: mx,
            min_price,
            avg_price: avg,
        }
    }
}

/// A token's price profile with the custom-price short circuit: a manually
/// curated price for the token, when configured, is returned uniformly as
/// max, min and avg, regardless of any other signal; otherwise the envelope
/// is synthesized from the signals.
pub fn get_price_profile(custom_price: Option<u64>, signals: PriceSignals) -> (r: PriceProfile)
    requires
        custom_price is None ==> has_positive_signal(signals),
    ensures
        custom_price matches Some(p) ==> {
            &&& r.max_price == p
            &&& r.min_price == p
            &&& r.avg_price == p
            &&& r.custom_price == Some(p)
        },
        custom_price is None ==> envelope_ok(r, signals, custom_price),
        r.min_price >= r.collection_floor,
        r.min_price <= r.max_price,
{
    match custom_price {
        Some(p) => PriceProfile {
            collection_floor: 0,
            last_sale: None,
            most_rare_trait_floor: None,
            most_valued_trait_floor: None,
            rarity_weighted_floor: None,
            avg_last_three_mvt_sales: None,
            last_sale_relative_collection_avg: None,
            last_sale_relative_mvt_avg: None,
            custom_price: Some(p),
            max_price: p,
            min_price: p,
            avg_price: p,
        },
        None => PriceProfile::make(signals, None),
    }
}

/// A bounded running minimum as the mathematical one, for bridging exec
/// values to the envelope specification.
spec fn lift_min(o: Option<u64>) -> Option<int> {
    match o {
        Some(a) => Some(a as int),
        None => None,
    }
}

fn max_step_exec(acc: u64, v: u64) -> (r: u64)
    ensures
        r as int == max_step(acc as int, v as int),
{
    if v > acc {
        v
    } else {
        acc
    }
}

fn min_step_exec(acc: Option<u64>, v: u64) -> (r: Option<u64>)
    ensures
        lift_min(r) == min_step(lift_min(acc), v as int),
{
    if v == 0 {
        acc
    } else {
        match acc {
            None => Some(v),
            Some(m) => if v < m {
                Some(v)
            } else {
                Some(m)
            },
        }
    }
}

/// Facts relating the two envelope folds: the smallest positive signal is
/// positive, bounded by the largest one, and defined exactly when some
/// signal is positive; the collection floor never exceeds the maximum.
proof fn lemma_envelope(s: PriceSignals)
    ensures
        envelope_min(s) matches Some(m) ==> 0 < m <= envelope_max(s) && m <= u64::MAX,
        (envelope_min(s) is Some) <==> has_positive_signal(s),
        s.collection_floor as int <= envelope_max(s),
        0 <= envelope_max(s) <= u64::MAX,
{
    let v1 = s.collection_floor as int;
    let v2 = opt_val(s.last_sale);
    let v3 = opt_val(s.most_rare_trait_floor);
    let v4 = opt_val(s.most_valued_trait_floor);
    let v5 = opt_val(s.rarity_weighted_floor);
    let v6 = opt_val(s.avg_last_three_mvt_sales);
    let v7 = opt_val(s.last_sale_relative_collection_avg);
    let v8 = opt_val(s.last_sale_relative_mvt_avg);
    let m1 = max_step(0, v1);
    let m2 = max_step(m1, v2);
    let m3 = max_step(m2, v3);
    let m4 = max_step(m3, v4);
    let m5 = max_step(m4, v5);
    let m6 = max_step(m5, v6);
    let m7 = max_step(m6, v7);
    let m8 = max_step(m7, v8);
    let n1 = min_step(None, v1);
    let n2 = min_step(n1, v2);
    let n3 = min_step(n2, v3);
    let n4 = min_step(n3, v4);
    let n5 = min_step(n4, v5);
    let n6 = min_step(n5, v6);
    let n7 = min_step(n6, v7);
    let n8 = min_step(n7, v8);
    assert(step_inv(n1, m1, u64::MAX as int));
    assert(step_inv(n2, m2, u64::MAX as int));
    assert(step_inv(n3, m3, u64::MAX as int));
    assert(step_inv(n4, m4, u64::MAX as int));
    assert(step_inv(n5, m5, u64::MAX as int));
    assert(step_inv(n6, m6, u64::MAX as int));
    assert(step_inv(n7, m7, u64::MAX as int));
    assert(step_inv(n8, m8, u64::MAX as int));
    assert(envelope_max(s) == m8);
    assert(envelope_min(s) == n8);
}

/// The running minimum is defined exactly when the running maximum is
/// positive, lies between one and the maximum, and both stay in range.
spec fn step_inv(mn: Option<int>, mx: int, bound: int) -> bool {
    &&& (mn is Some) <==> mx > 0
    &&& (mn matches Some(m) ==> 0 < m <= mx)
    &&& 0 <= mx <= bound
}

/// A token's rarity summary: its rarest and most-valued traits, how many of
/// its traits are unique, and its precomputed overlap statistics.
#[derive(Clone, Debug)]
pub struct RarityProfile {
    pub rarest_trait: Option<u64>,
    pub most_valued_trait: Option<u64>,
    pub unique_traits: u64,
    pub traits_3_combination_overlap: u64,
    pub traits_4_combination_overlap: u64,
    pub traits_5_combination_overlap: u64,
    pub traits_3_combination_overlap_ids: Vec<u64>,
    pub traits_4_combination_overlap_ids: Vec<u64>,
    pub traits_5_combination_overlap_ids: Vec<u64>,
}

impl RarityProfile {
    /// Assembles the rarity summary from the identified traits, the unique
    /// count and the token's stored overlap record.
    pub fn make(
        rarest_trait: Option<u64>,
        most_valued_trait: Option<u64>,
        unique_traits: u64,
        overlap: TokenOverlap,
    ) -> (r: RarityProfile)
        ensures
            r.rarest_trait == rarest_trait,
            r.most_valued_trait == most_valued_trait,
            r.unique_traits == unique_traits,
            r.traits_3_combination_overlap == overlap.traits_3_combination_overlap,
            r.traits_4_combination_overlap == overlap.traits_4_combination_overlap,
            r.traits_5_combination_overlap == overlap.traits_5_combination_overlap,
            r.traits_3_combination_overlap_ids@ == overlap.traits_3_combination_overlap_ids@,
            r.traits_4_combination_overlap_ids@ == overlap.traits_4_combination_overlap_ids@,
            r.traits_5_combination_overlap_ids@ == overlap.traits_5_combination_overlap_ids@,
    {
        RarityProfile {
            rarest_trait,
            most_valued_trait,
            unique_traits,
            traits_3_combination_overlap: overlap.traits_3_combination_overlap,
            traits_4_combination_overlap: overlap.traits_4_combination_overlap,
            traits_5_combination_overlap: overlap.traits_5_combination_overlap,
            traits_3_combination_overlap_ids: overlap.traits_3_combination_overlap_ids,
            traits_4_combination_overlap_ids: overlap.traits_4_combination_overlap_ids,
            traits_5_combination_overlap_ids: overlap.traits_5_combination_overlap_ids,
        }
    }
}

/// A token's sale-velocity summary: days-per-sale frequencies over a
/// trailing window for its rarest trait, its most-valued trait, and the
/// lowest and mean across all its traits.  Every field is absent when the
/// window holds no qualifying sale.
#[derive(Clone, Copy, Debug)]
pub struct VelocityProfile {
    pub rarest_trait_sale_frequency_30d: Option<Ratio>,
    pub mvt_sale_frequency_30d: Option<Ratio>,
    pub lowest_sale_frequency_30d: Option<Ratio>,
    pub avg_sale_frequency_30d: Option<u64>,
}

impl VelocityProfile {
    /// Builds the velocity summary from the window length in days, the
    /// rarest trait's sale count, the most-valued trait's (absent when the
    /// token has none), and the counts of all the token's traits.
    pub fn make(
        window_days: u64,
        rarest_count: u64,
        mvt_count: Option<u64>,
        trait_sale_counts: &Vec<u64>,
    ) -> (r: VelocityProfile)
        requires
            window_days * 1000 <= u64::MAX,
        ensures
            rarest_count == 0 ==> r.rarest_trait_sale_frequency_30d is None,
            rarest_count > 0 ==> r.rarest_trait_sale_frequency_30d == Some(
                Ratio { num: window_days, den: rarest_count },
            ),
            ({
                match mvt_count {
                    None => r.mvt_sale_frequency_30d is None,
                    Some(c) => {
                        if c == 0 {
                            r.mvt_sale_frequency_30d is None
                        } else {
                            r.mvt_sale_frequency_30d == Some(Ratio { num: window_days, den: c })
                        }
                    },
                }
            }),
            max_count(trait_sale_counts@) == 0 ==> r.lowest_sale_frequency_30d is None,
            max_count(trait_sale_counts@) > 0 ==> r.lowest_sale_frequency_30d == Some(
                Ratio { num: window_days, den: max_count(trait_sale_counts@) as u64 },
            ),
            count_positive(trait_sale_counts@) == 0 ==> r.avg_sale_frequency_30d is None,
            count_positive(trait_sale_counts@) > 0 ==> (r.avg_sale_frequency_30d matches Some(v)
                && v as int == sum_freq_milli(window_days, trait_sale_counts@) / count_positive(
                trait_sale_counts@,
            )),
    {
        VelocityProfile {
            rarest_trait_sale_frequency_30d: sale_frequency(window_days, rarest_count),
            mvt_sale_frequency_30d: match mvt_count {
                Some(c) => sale_frequency(window_days, c),
                None => None,
            },
            lowest_sale_frequency_30d: get_lowest_sale_frequency(window_days, trait_sale_counts),
            avg_sale_frequency_30d: get_avg_sale_frequency(window_days, trait_sale_counts),
        }
    }
}

/// A token's liquidity summary: listed-versus-population ratios for its
/// rarest and most-valued traits, trailing-window sale counts, and how many
/// collection sales cleared above the token's own estimate.
#[derive(Clone, Copy, Debug)]
pub struct LiquidityProfile {
    pub rarest_trait_nr_listed: (u64, u64),
    pub mvt_nr_listed: (u64, u64),
    pub rarest_trait_sale_count_60d: u64,
    pub mvt_sale_count_60d: u64,
    pub lowest_trait_sales_60d: Option<u64>,
    pub avg_sale_count_60d: Option<Ratio>,
    pub nr_sales_above_max_price_60d: u64,
}

impl LiquidityProfile {
    /// Builds the liquidity summary from the rarest trait's listing data,
    /// the most-valued trait's (absent when the token has none), the
    /// trailing sale counts of all the token's traits, and the collection's
    /// sale log.  `mvt` packs (currently listed, trait population, window
    /// sale count).
    pub fn make(
        rarest_nr_listed: u64,
        rarest_trait_count: u64,
        rarest_sale_count: u64,
        mvt: Option<(u64, u64, u64)>,
        trait_sale_counts: &Vec<u64>,
        collection_sales: &Vec<Sale>,
        max_price: u64,
        window_start_ts: u64,
    ) -> (r: LiquidityProfile)
        ensures
            r.rarest_trait_nr_listed == (rarest_nr_listed, rarest_trait_count),
            r.rarest_trait_sale_count_60d == rarest_sale_count,
            mvt matches Some(t) ==> r.mvt_nr_listed == (t.0, t.1) && r.mvt_sale_count_60d == t.2,
            mvt is None ==> r.mvt_nr_listed == (0u64, 0u64) && r.mvt_sale_count_60d == 0,
            trait_sale_counts@.len() == 0 ==> r.lowest_trait_sales_60d is None,
            trait_sale_counts@.len() > 0 ==> (r.lowest_trait_sales_60d matches Some(v) && v as int
                == min_count(trait_sale_counts@)),
            ({
                if trait_sale_counts@.len() == 0 || sum_sale_counts(trait_sale_counts@)
                    > u64::MAX {
                    r.avg_sale_count_60d is None
                } else {
                    r.avg_sale_count_60d == Some(
                        Ratio {
                            num: sum_sale_counts(trait_sale_counts@) as u64,
                            den: trait_sale_counts@.len() as u64,
                        },
                    )
                }
            }),
            r.nr_sales_above_max_price_60d == count_above_after(
                collection_sales@,
                max_price,
                window_start_ts,
            ),
    {
        let (mvt_listed, mvt_count, mvt_sales) = match mvt {
            Some(t) => t,
            None => (0, 0, 0),
        };
        let above = count_sales_above_price_after(collection_sales, max_price, window_start_ts);
        LiquidityProfile {
            rarest_trait_nr_listed: (rarest_nr_listed, rarest_trait_count),
            mvt_nr_listed: (mvt_listed, mvt_count),
            rarest_trait_sale_count_60d: rarest_sale_count,
            mvt_sale_count_60d: mvt_sales,
            lowest_trait_sales_60d: get_lowest_sale_count(trait_sale_counts),
            avg_sale_count_60d: get_avg_sale_count(trait_sale_counts),
            nr_sales_above_max_price_60d: above as u64,
        }
    }
}

} // verus!
