use nft_pricer::rarities::{
    get_collection_avg_trait_rarity, get_trait_rarities, rarity_cutoff, rarity_fraction,
    TraitRarity,
};
use nft_pricer::ratio::Ratio;
use nft_pricer::sales::Sale;
use nft_pricer::velocity::{
    get_avg_sale_count, get_avg_sale_frequency, get_lowest_sale_count, get_lowest_sale_frequency,
    get_sale_count_trait, sale_frequency,
};

fn sale(price: u64, timestamp: u64) -> Sale {
    Sale { token_id: 1, price, timestamp }
}

#[test]
fn test_empty_window_velocity() {
    // a trait with zero sales in the window has an undefined frequency:
    // no zero, no division-by-zero crash
    let sales = vec![sale(10, 100), sale(20, 200)];
    let in_window = get_sale_count_trait(&sales, 500);
    assert_eq!(in_window, 0);
    assert_eq!(sale_frequency(30, in_window as u64), None);
}

#[test]
fn test_sale_frequency_days_per_sale() {
    let sales = vec![sale(10, 100), sale(20, 200), sale(30, 300)];
    let in_window = get_sale_count_trait(&sales, 150);
    assert_eq!(in_window, 2);
    // 30 days for 2 sales: 15 days per sale, kept exact as 30/2
    assert_eq!(sale_frequency(30, in_window as u64), Some(Ratio { num: 30, den: 2 }));
}

#[test]
fn test_lowest_sale_frequency() {
    // the trait that sold most often sells fastest: 30/5 days per sale
    assert_eq!(get_lowest_sale_frequency(30, &vec![2, 5, 0]), Some(Ratio { num: 30, den: 5 }));
    // no trait sold at all: no defined frequency
    assert_eq!(get_lowest_sale_frequency(30, &vec![0, 0]), None);
    assert_eq!(get_lowest_sale_frequency(30, &vec![]), None);
}

#[test]
fn test_avg_sale_frequency_excludes_unsold() {
    // traits with counts 2 and 3 have frequencies 15000 and 10000
    // milli-days; the unsold trait is excluded, never counted as zero
    assert_eq!(get_avg_sale_frequency(30, &vec![2, 0, 3]), Some(12500));
    assert_eq!(get_avg_sale_frequency(30, &vec![0]), None);
}

#[test]
fn test_lowest_and_avg_sale_count() {
    assert_eq!(get_lowest_sale_count(&vec![4, 1, 7]), Some(1));
    assert_eq!(get_lowest_sale_count(&vec![]), None);
    assert_eq!(get_avg_sale_count(&vec![4, 1, 7]), Some(Ratio { num: 12, den: 3 }));
    assert_eq!(get_avg_sale_count(&vec![]), None);
}

#[test]
fn test_trait_rarities_ranked() {
    let traits = vec![
        TraitRarity { trait_id: 1, trait_count: 40 },
        TraitRarity { trait_id: 2, trait_count: 3 },
        TraitRarity { trait_id: 3, trait_count: 12 },
    ];
    let ranked = get_trait_rarities(&traits);
    let ids: Vec<u64> = ranked.iter().map(|t| t.trait_id).collect();
    assert_eq!(ids, vec![2, 3, 1]);
    // the first entry is the token's rarest trait
    assert_eq!(rarity_fraction(ranked[0].trait_count, 100), Ratio { num: 3, den: 100 });
    // a token with no traits yields an empty, valid ranking
    assert!(get_trait_rarities(&vec![]).is_empty());
}

#[test]
fn test_collection_avg_trait_rarity() {
    assert_eq!(get_collection_avg_trait_rarity(&vec![10, 20, 33]), Some(Ratio { num: 63, den: 3 }));
    assert_eq!(get_collection_avg_trait_rarity(&vec![]), None);
}

#[test]
fn test_rarity_cutoff() {
    // avg count 21, multiplier 1/2, supply 100: cutoff = 21 / (2 * 100)
    let avg = Ratio { num: 21, den: 1 };
    let multiplier = Ratio { num: 1, den: 2 };
    let c = rarity_cutoff(avg, multiplier, 100).unwrap();
    assert_eq!(c, Ratio { num: 21, den: 200 });
    // a count of 2 (rarity 0.02) lies below it, a count of 11 does not
    assert!(Ratio { num: 2, den: 100 }.lt(&c));
    assert!(!Ratio { num: 11, den: 100 }.lt(&c));
}
