use nft_pricer::listings::{
    classify_listing_age, count_listings_after, get_token_listings, get_trait_floor,
    get_trait_listings, get_trait_nr_listed, resolve_listing_refresh, ListingEvent,
    ListingFreshness, TokenListingHistory, UpdateType,
};
use nft_pricer::sales::{
    count_sales_above_price_after, get_average_sales_in_window, get_average_trait_sales_nr,
    get_last_sale, get_last_sale_relative_to_collection_avg, get_last_sale_relative_to_trait_avg,
    relative_sale_estimate, sort_sales_by_timestamp, Sale,
};

fn sale(price: u64, timestamp: u64) -> Sale {
    Sale { token_id: 1, price, timestamp }
}

#[test]
fn test_sort_sales_by_timestamp() {
    let sales = vec![sale(5, 300), sale(7, 100), sale(9, 200), sale(1, 100)];
    let sorted = sort_sales_by_timestamp(&sales);
    let ts: Vec<u64> = sorted.iter().map(|s| s.timestamp).collect();
    assert_eq!(ts, vec![100, 100, 200, 300]);
    assert_eq!(sorted.len(), sales.len());
    // same sales, reordered
    let mut prices: Vec<u64> = sorted.iter().map(|s| s.price).collect();
    prices.sort();
    assert_eq!(prices, vec![1, 5, 7, 9]);
}

#[test]
fn test_last_sale() {
    let sorted = sort_sales_by_timestamp(&vec![sale(5, 300), sale(7, 100)]);
    let last = get_last_sale(&sorted).unwrap();
    assert_eq!(last.price, 5);
    assert_eq!(get_last_sale(&vec![]), None);
}

#[test]
fn test_average_last_n_sales() {
    let sales = vec![sale(2, 1), sale(10, 2), sale(20, 3), sale(33, 4)];
    // mean of the three most recent: (10 + 20 + 33) / 3 = 21
    assert_eq!(get_average_trait_sales_nr(&sales, Some(3)), Some(21));
    // mean of the whole history: 65 / 4 = 16 (truncating)
    assert_eq!(get_average_trait_sales_nr(&sales, None), Some(16));
}

#[test]
fn test_average_needs_full_window() {
    // no partial-window averaging: fewer than N sales give no signal
    let sales = vec![sale(2, 1), sale(10, 2)];
    assert_eq!(get_average_trait_sales_nr(&sales, Some(3)), None);
    assert_eq!(get_average_trait_sales_nr(&vec![], None), None);
    assert_eq!(get_average_trait_sales_nr(&sales, Some(0)), None);
}

#[test]
fn test_window_average() {
    let sales = vec![sale(10, 100), sale(20, 200), sale(40, 300), sale(99, 400)];
    // strictly inside (100, 400): the sales at 200 and 300
    assert_eq!(get_average_sales_in_window(&sales, 100, 400), Some(30));
    // an empty window yields no signal, never a zero price
    assert_eq!(get_average_sales_in_window(&sales, 400, 500), None);
}

#[test]
fn test_relative_sale_estimate() {
    // a sale at 10 when the market averaged 5; the market now averages 15:
    // the sale inflates to 30
    assert_eq!(relative_sale_estimate(10, 5, 15), Some(30));
    // a zero historical average gives no estimate rather than a division
    assert_eq!(relative_sale_estimate(10, 0, 15), None);
}

#[test]
fn test_last_sale_relative_to_collection_avg() {
    let sales = vec![sale(10, 100), sale(30, 200), sale(20, 250), sale(60, 900)];
    let last = Some(sale(20, 250));
    // window of 200 seconds: at the sale, (50, 250) holds 10 and 30 -> avg
    // 20; now = 1000, (800, 1000) holds 60 -> avg 60; 20 * 60 / 20 = 60
    let r = get_last_sale_relative_to_collection_avg(&sales, last, 1000, 200);
    assert_eq!(r, Some(60));
    // without a last sale there is nothing to scale
    assert_eq!(get_last_sale_relative_to_collection_avg(&sales, None, 1000, 200), None);
    // an empty window at either end gives no estimate
    assert_eq!(get_last_sale_relative_to_trait_avg(&sales, last, 5000, 200), None);
}

#[test]
fn test_count_sales_above_price_after() {
    let sales = vec![sale(10, 100), sale(30, 200), sale(50, 300)];
    assert_eq!(count_sales_above_price_after(&sales, 20, 150), 2);
    assert_eq!(count_sales_above_price_after(&sales, 60, 0), 0);
}

fn history(token_id: u64, events: Vec<(Option<u64>, u64)>) -> TokenListingHistory {
    TokenListingHistory {
        token_id,
        events: events
            .into_iter()
            .map(|(price, timestamp)| ListingEvent {
                update_type: UpdateType::SellOrder,
                price,
                timestamp,
            })
            .collect(),
    }
}

#[test]
fn test_token_listings_use_most_recent_event() {
    let hs = vec![
        history(1, vec![(Some(5), 10), (Some(9), 20)]),
        history(2, vec![(Some(7), 10), (None, 30)]),
        history(3, vec![]),
    ];
    let listings = get_token_listings(&hs);
    assert_eq!(listings[0].price, Some(9));
    // the most recent event of token 2 carries no price: currently unlisted
    assert_eq!(listings[1].price, None);
    assert_eq!(listings[2].price, None);
}

#[test]
fn test_trait_listings_sorted_ascending() {
    let hs = vec![
        history(1, vec![(Some(50), 10)]),
        history(2, vec![(Some(20), 10)]),
        history(3, vec![(None, 10)]),
        history(4, vec![(Some(35), 10)]),
    ];
    let listings = get_trait_listings(&hs);
    let prices: Vec<u64> = listings.iter().map(|l| l.price).collect();
    assert_eq!(prices, vec![20, 35, 50]);
    assert_eq!(listings[0].token_id, 2);
    assert_eq!(get_trait_nr_listed(&hs), 3);
}

#[test]
fn test_trait_floor() {
    let hs = vec![history(1, vec![(Some(50), 10)]), history(2, vec![(Some(20), 10)])];
    let f = get_trait_floor(77, &hs).unwrap();
    assert_eq!(f.trait_id, 77);
    assert_eq!(f.token_id, 2);
    assert_eq!(f.floor_price, 20);
    // no listed holder: no floor, a normal outcome
    assert_eq!(get_trait_floor(77, &vec![history(3, vec![(None, 5)])]), None);
}

#[test]
fn test_listing_freshness_policy() {
    assert_eq!(classify_listing_age(1000, 2000, 500), ListingFreshness::Stale);
    assert_eq!(classify_listing_age(1800, 2000, 500), ListingFreshness::Fresh);
    // a listing dated in the future is not stale
    assert_eq!(classify_listing_age(3000, 2000, 500), ListingFreshness::Fresh);
    // a successful refetch replaces the stored value
    assert_eq!(resolve_listing_refresh(Some(5), Some(Some(8))), Some(8));
    assert_eq!(resolve_listing_refresh(Some(5), Some(None)), None);
    // a timed-out refetch falls back to the stored value
    assert_eq!(resolve_listing_refresh(Some(5), None), Some(5));
}

#[test]
fn test_count_listings_after() {
    let events = vec![
        ListingEvent { update_type: UpdateType::Created, price: None, timestamp: 100 },
        ListingEvent { update_type: UpdateType::SellOrder, price: Some(5), timestamp: 200 },
        ListingEvent { update_type: UpdateType::SellOrder, price: None, timestamp: 300 },
        ListingEvent { update_type: UpdateType::Cancelled, price: None, timestamp: 400 },
        ListingEvent { update_type: UpdateType::Created, price: Some(9), timestamp: 50 },
    ];
    // created events and priced sell orders after t=90: the first two
    assert_eq!(count_listings_after(&events, 90), 2);
    assert_eq!(count_listings_after(&events, 0), 3);
}
