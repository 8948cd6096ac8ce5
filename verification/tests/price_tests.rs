use nft_pricer::custom::{read_custom_price, CustomPriceBook};
use nft_pricer::overlap::TokenOverlap;
use nft_pricer::listings::TraitFloor;
use nft_pricer::prices::{
    get_all_traits_floor, get_most_valued_trait_floor, get_rarest_trait_floor,
    get_rarity_weighted_floor, TraitMarket,
};
use nft_pricer::profile::{
    get_price_profile, LiquidityProfile, PriceProfile, PriceSignals, RarityProfile,
};
use nft_pricer::rarities::count_unique_traits;
use nft_pricer::sales::get_most_valued_trait_last_sale_avg;
use nft_pricer::ratio::Ratio;
use nft_pricer::sales::Sale;

fn market(trait_id: u64, trait_count: u64, floor: Option<(u64, u64)>) -> TraitMarket {
    TraitMarket {
        trait_id,
        trait_count,
        floor: floor.map(|(token_id, price)| TraitFloor { trait_id, token_id, floor_price: price }),
    }
}

fn signals(collection_floor: u64) -> PriceSignals {
    PriceSignals {
        collection_floor,
        last_sale: None,
        most_rare_trait_floor: None,
        most_valued_trait_floor: None,
        rarity_weighted_floor: None,
        avg_last_three_mvt_sales: None,
        last_sale_relative_collection_avg: None,
        last_sale_relative_mvt_avg: None,
    }
}

#[test]
fn test_rarity_weighted_floor_formula() {
    // rarities 0.01 and 0.02 over a supply of 100; floors 10 and 4 sorted
    // descending; cutoff/3 = 0.05 admits both:
    // 10 + 4 / (2 * 0.02/0.01) = 10 + 4/4 = 11
    let traits = vec![market(1, 1, Some((7, 10))), market(2, 2, Some((8, 4)))];
    let cutoff = Ratio { num: 15, den: 100 };
    let r = get_rarity_weighted_floor(&traits, 100, cutoff);
    assert_eq!(r, Some(11));
}

#[test]
fn test_rarity_weighted_floor_fallback_to_rarest() {
    // nothing is rarer than a third of the cutoff: the rarest trait's own
    // floor is the answer
    let traits = vec![market(1, 50, Some((7, 9))), market(2, 80, Some((8, 30)))];
    let cutoff = Ratio { num: 1, den: 100 };
    assert_eq!(get_rarity_weighted_floor(&traits, 100, cutoff), Some(9));
}

#[test]
fn test_rarity_weighted_floor_no_floors() {
    // qualifying traits without any listed holder give no signal
    let traits = vec![market(1, 1, None), market(2, 2, None)];
    let cutoff = Ratio { num: 15, den: 100 };
    assert_eq!(get_rarity_weighted_floor(&traits, 100, cutoff), None);
}

#[test]
fn test_most_valued_trait_picks_highest_floor() {
    // both traits are rare enough; the higher floor wins
    let traits = vec![market(1, 2, Some((7, 5))), market(2, 3, Some((8, 12)))];
    let cutoff = Ratio { num: 10, den: 100 };
    let r = get_most_valued_trait_floor(&traits, 100, cutoff).unwrap();
    assert_eq!(r.trait_id, 2);
    assert_eq!(r.floor_price, 12);
    assert_eq!(r.token_id, 8);
}

#[test]
fn test_most_valued_trait_tie_keeps_first() {
    let traits = vec![market(1, 2, Some((7, 12))), market(2, 3, Some((8, 12)))];
    let cutoff = Ratio { num: 10, den: 100 };
    let r = get_most_valued_trait_floor(&traits, 100, cutoff).unwrap();
    assert_eq!(r.trait_id, 1);
}

#[test]
fn test_most_valued_trait_fallback_to_all() {
    // the only rare-enough trait has no floor; the search widens to every
    // trait of the token
    let traits = vec![market(1, 1, None), market(2, 90, Some((8, 3)))];
    let cutoff = Ratio { num: 5, den: 100 };
    let r = get_most_valued_trait_floor(&traits, 100, cutoff).unwrap();
    assert_eq!(r.trait_id, 2);
}

#[test]
fn test_most_valued_trait_none_without_floors() {
    let traits = vec![market(1, 1, None), market(2, 2, None)];
    let cutoff = Ratio { num: 5, den: 100 };
    assert_eq!(get_most_valued_trait_floor(&traits, 100, cutoff), None);
}

#[test]
fn test_rarest_trait_floor() {
    let traits = vec![market(1, 5, Some((7, 2))), market(2, 1, Some((8, 9)))];
    let r = get_rarest_trait_floor(&traits).unwrap();
    assert_eq!(r.trait_id, 2);
    assert_eq!(r.floor_price, 9);
    // empty trait list: no rarest trait, a valid non-error state
    assert_eq!(get_rarest_trait_floor(&vec![]), None);
}

#[test]
fn test_all_traits_floor_sorted_descending() {
    let traits = vec![
        market(1, 2, Some((7, 5))),
        market(2, 3, Some((8, 12))),
        market(3, 4, None),
        market(4, 5, Some((9, 8))),
    ];
    let cutoff = Ratio { num: 10, den: 100 };
    let floors = get_all_traits_floor(&traits, 100, cutoff);
    let prices: Vec<u64> = floors.iter().map(|f| f.floor_price).collect();
    assert_eq!(prices, vec![12, 8, 5]);
}

#[test]
fn test_read() {
    // a curated override configured for token 249
    let book = CustomPriceBook { entries: vec![(100, 7), (249, 20)] };
    assert_eq!(read_custom_price(&book, 249), Some(20));
    assert_eq!(read_custom_price(&book, 250), None);
}

#[test]
fn test_custom_price_short_circuit() {
    // a custom price of 20 for the token makes max, min and avg all 20,
    // regardless of any other signal
    let mut s = signals(3);
    s.last_sale = Some(500);
    s.rarity_weighted_floor = Some(90);
    let p = get_price_profile(Some(20), s);
    assert_eq!(p.max_price, 20);
    assert_eq!(p.min_price, 20);
    assert_eq!(p.avg_price, 20);
    assert_eq!(p.custom_price, Some(20));
}

#[test]
fn test_floor_dominance() {
    // the smallest positive signal sits below the collection floor; the
    // floor wins: the estimate is never allowed under it
    let mut s = signals(10);
    s.last_sale = Some(4);
    s.most_valued_trait_floor = Some(30);
    let p = get_price_profile(None, s);
    assert_eq!(p.max_price, 30);
    assert_eq!(p.min_price, 10);
    assert!(p.min_price >= p.collection_floor);
    assert_eq!(p.avg_price, 20);
}

#[test]
fn test_price_envelope() {
    let mut s = signals(2);
    s.last_sale = Some(10);
    s.most_rare_trait_floor = Some(6);
    let p = PriceProfile::make(s, None);
    assert_eq!(p.max_price, 10);
    assert_eq!(p.min_price, 2);
    assert_eq!(p.avg_price, 6);
    assert_eq!(p.last_sale, Some(10));
    assert_eq!(p.collection_floor, 2);
    assert_eq!(p.custom_price, None);
}

#[test]
fn test_envelope_truncating_mean() {
    let mut s = signals(2);
    s.last_sale = Some(5);
    let p = PriceProfile::make(s, None);
    // (5 + 2) / 2 truncates
    assert_eq!(p.avg_price, 3);
}

#[test]
fn test_scenario_demo_collection() {
    // collection "demo": total_supply 100, one trait of count 10 (rarity
    // 0.10), token 5 holds only it; no listings or sales anywhere and a
    // collection floor of one unit: every envelope price is that floor
    let background_blue: u64 = 42;
    let token_traits = vec![nft_pricer::rarities::TraitRarity {
        trait_id: background_blue,
        trait_count: 10,
    }];
    let ranked = nft_pricer::rarities::get_trait_rarities(&token_traits);
    assert_eq!(ranked[0].trait_id, background_blue);
    let rarity = nft_pricer::rarities::rarity_fraction(ranked[0].trait_count, 100);
    assert_eq!(rarity, Ratio { num: 10, den: 100 });

    let markets = vec![market(background_blue, 10, None)];
    assert_eq!(get_rarest_trait_floor(&markets), None);
    let cutoff = Ratio { num: 3, den: 100 };
    assert_eq!(get_most_valued_trait_floor(&markets, 100, cutoff), None);
    assert_eq!(get_rarity_weighted_floor(&markets, 100, cutoff), None);

    let p = get_price_profile(None, signals(1));
    assert_eq!(p.max_price, 1);
    assert_eq!(p.min_price, 1);
    assert_eq!(p.avg_price, 1);
    assert_eq!(p.last_sale, None);
    assert_eq!(p.most_valued_trait_floor, None);
}

#[test]
fn test_liquidity_profile() {
    let sales = vec![
        Sale { token_id: 1, price: 50, timestamp: 1000 },
        Sale { token_id: 2, price: 90, timestamp: 2000 },
        Sale { token_id: 3, price: 120, timestamp: 500 },
    ];
    let counts = vec![4, 1, 7];
    let p = LiquidityProfile::make(2, 10, 3, Some((1, 25, 6)), &counts, &sales, 60, 900);
    assert_eq!(p.rarest_trait_nr_listed, (2, 10));
    assert_eq!(p.mvt_nr_listed, (1, 25));
    assert_eq!(p.rarest_trait_sale_count_60d, 3);
    assert_eq!(p.mvt_sale_count_60d, 6);
    assert_eq!(p.lowest_trait_sales_60d, Some(1));
    assert_eq!(p.avg_sale_count_60d, Some(Ratio { num: 12, den: 3 }));
    // only the sale at (90, 2000) is both above 60 and after 900
    assert_eq!(p.nr_sales_above_max_price_60d, 1);
}

#[test]
fn test_liquidity_profile_without_mvt() {
    let p = LiquidityProfile::make(0, 3, 0, None, &vec![], &vec![], 10, 0);
    assert_eq!(p.mvt_nr_listed, (0, 0));
    assert_eq!(p.mvt_sale_count_60d, 0);
    assert_eq!(p.lowest_trait_sales_60d, None);
    assert_eq!(p.avg_sale_count_60d, None);
    assert_eq!(p.nr_sales_above_max_price_60d, 0);
}

#[test]
fn test_rarity_weighted_floor_stable_on_equal_prices() {
    // two qualifying traits share the same floor price; the one given
    // earlier (rarity order) stays first in the accumulation:
    // 10 + 10 * 1 / (2 * 4) = 11
    let traits = vec![market(1, 1, Some((7, 10))), market(2, 4, Some((8, 10)))];
    let cutoff = Ratio { num: 30, den: 100 };
    assert_eq!(get_rarity_weighted_floor(&traits, 100, cutoff), Some(11));
}

#[test]
fn test_most_valued_trait_last_sale_avg() {
    let sales = vec![
        Sale { token_id: 1, price: 10, timestamp: 1 },
        Sale { token_id: 2, price: 20, timestamp: 2 },
        Sale { token_id: 3, price: 33, timestamp: 3 },
    ];
    // mean of the three most recent sales of the most-valued trait
    assert_eq!(get_most_valued_trait_last_sale_avg(true, &sales, Some(3)), Some(21));
    // a token without a most-valued trait has no such signal
    assert_eq!(get_most_valued_trait_last_sale_avg(false, &sales, Some(3)), None);
}

#[test]
fn test_rarity_profile_assembly() {
    let ranked = vec![
        nft_pricer::rarities::TraitRarity { trait_id: 5, trait_count: 1 },
        nft_pricer::rarities::TraitRarity { trait_id: 6, trait_count: 9 },
        nft_pricer::rarities::TraitRarity { trait_id: 7, trait_count: 1 },
    ];
    assert_eq!(count_unique_traits(&ranked), 2);
    let o = TokenOverlap {
        token_id: 42,
        traits_3_combination_overlap: 2,
        traits_4_combination_overlap: 1,
        traits_5_combination_overlap: 0,
        traits_3_combination_overlap_ids: vec![3, 9],
        traits_4_combination_overlap_ids: vec![9],
        traits_5_combination_overlap_ids: vec![],
    };
    let r = RarityProfile::make(Some(5), Some(6), 2, o);
    assert_eq!(r.rarest_trait, Some(5));
    assert_eq!(r.most_valued_trait, Some(6));
    assert_eq!(r.unique_traits, 2);
    assert_eq!(r.traits_3_combination_overlap_ids, vec![3, 9]);
    assert_eq!(r.traits_4_combination_overlap, 1);
}
