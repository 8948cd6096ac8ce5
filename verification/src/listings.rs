//! Floor & listing resolution: deriving each token's current listing from
//! its append-only listing log, collecting a trait's listed tokens sorted by
//! price, and the listing-freshness policy.

use vstd::prelude::*;

verus! {

use crate::support::lemma_insert_to_multiset;

broadcast use vstd::seq_lib::group_to_multiset_ensures;

/// The kind of a listing event.
#[derive(Clone, Copy, Debug, PartialEq, Eq, Structural)]
pub enum UpdateType {
    Created,
    Cancelled,
    Successful,
    SellOrder,
}

/// One row of a token's append-only listing log.
#[derive(Clone, Copy, Debug, PartialEq, Eq, Structural)]
pub struct ListingEvent {
    pub update_type: UpdateType,
    pub price: Option<u64>,
    pub timestamp: u64,
}

/// A token's listing log, oldest event first.
#[derive(Clone, Debug)]
pub struct TokenListingHistory {
    pub token_id: u64,
    pub events: Vec<ListingEvent>,
}

/// A token together with its current listing price, if it has one.
#[derive(Clone, Copy, Debug, PartialEq, Eq, Structural)]
pub struct TokenListing {
    pub token_id: u64,
    pub price: Option<u64>,
}

/// A currently listed token holding some trait, with its asking price.
#[derive(Clone, Copy, Debug, PartialEq, Eq, Structural)]
pub struct TraitListing {
    pub token_id: u64,
    pub price: u64,
}

/// The log is in time order, oldest first.
pub open spec fn events_time_ordered(s: Seq<ListingEvent>) -> bool {
    forall|i: int, j: int| 0 <= i < j < s.len() ==> s[i].timestamp <= s[j].timestamp
}

/// A well-formed history carries a time-ordered log.
pub open spec fn wf_history(h: TokenListingHistory) -> bool {
    events_time_ordered(h.events@)
}

/// The price carried by the most recent row of a token's log: the token's
/// current listing state is derived, not stored.
pub open spec fn latest_price(h: TokenListingHistory) -> Option<u64> {
    if h.events@.len() == 0 {
        None
    } else {
        h.events@.last().price
    }
}

/// The current listing of each given token, in the order the tokens were
/// given.  A token without any log rows, or whose most recent row carries no
/// price, is currently unlisted.
pub fn get_token_listings(histories: &Vec<TokenListingHistory>) -> (r: Vec<TokenListing>)
    requires
        forall|i: int| 0 <= i < histories@.len() ==> wf_history(#[trigger] histories@[i]),
    ensures
        r@.len() == histories@.len(),
        forall|i: int|
            0 <= i < r@.len() ==> #[trigger] r@[i] == (TokenListing {
                token_id: histories@[i].token_id,
                price: latest_price(histories@[i]),
            }),
{
    let mut out: Vec<TokenListing> = Vec::new();
    let mut i: usize = 0;
    while i < histories.len()
        invariant
            i <= histories@.len(),
            out@.len() == i,
            forall|k: int|
                0 <= k < i ==> #[trigger] out@[k] == (TokenListing {
                    token_id: histories@[k].token_id,
                    price: latest_price(histories@[k]),
                }),
        decreases histories@.len() - i,
    {
        let h = &histories[i];
        let price = if h.events.len() == 0 {
            None
        } else {
            h.events[h.events.len() - 1].price
        };
        out.push(TokenListing { token_id: h.token_id, price });
        i += 1;
    }
    out
}

/// The tokens among `hs` whose current listing carries a price, in the order
/// given, each paired with that price.
pub open spec fn listing_candidates(hs: Seq<TokenListingHistory>) -> Seq<TraitListing>
    decreases hs.len(),
{
    if hs.len() == 0 {
        Seq::empty()
    } else {
        listing_candidates(hs.drop_last()) + match latest_price(hs.last()) {
            Some(p) => seq![TraitListing { token_id: hs.last().token_id, price: p }],
            None => Seq::empty(),
        }
    }
}

/// The listings are in price order, cheapest first.
pub open spec fn sorted_by_price(s: Seq<TraitListing>) -> bool {
    forall|i: int, j: int| 0 <= i < j < s.len() ==> s[i].price <= s[j].price
}

fn sort_listings_by_price(v: Vec<TraitListing>) -> (r: Vec<TraitListing>)
    ensures
        r@.to_multiset() == v@.to_multiset(),
        sorted_by_price(r@),
        r@.len() == v@.len(),
{
    let mut out: Vec<TraitListing> = Vec::new();
    let n = v.len();
    assert(v@.take(0) =~= out@);
    let mut i: usize = 0;
    while i < n
        invariant
            i <= n,
            n == v@.len(),
            out@.len() == i,
            out@.to_multiset() == v@.take(i as int).to_multiset(),
            sorted_by_price(out@),
        decreases n - i,
    {
        let x = v[i];
        let mut j: usize = 0;
        while j < out.len() && out[j].price <= x.price
            invariant
                j <= out@.len(),
                forall|k: int| 0 <= k < j ==> out@[k].price <= x.price,
            decreases out@.len() - j,
        {
            j += 1;
        }
        let ghost pre = out@;
        out.insert(j, x);
        proof {
            pre.insert_ensures(j as int, x);
            lemma_insert_to_multiset(pre, j as int, x);
            assert(v@.take(i + 1) =~= v@.take(i as int).push(v@[i as int]));
            assert forall|a: int, b: int| 0 <= a < b < out@.len() implies out@[a].price
                <= out@[b].price by {
                if b < j {
                } else if a > j {
                } else if a == j && b > j {
                    assert(out@[b] == pre[b - 1]);
                    assert(pre[j as int].price > x.price || j == pre.len());
                } else if b == j {
                    assert(out@[a] == pre[a]);
                }
            }
        }
        i += 1;
    }
    proof {
        assert(v@.take(n as int) =~= v@);
    }
    out
}

/// The currently listed tokens among the holders of a trait, sorted by
/// asking price, cheapest first.  Tokens whose most recent log row carries
/// no price are unlisted and do not appear.
pub fn get_trait_listings(histories: &Vec<TokenListingHistory>) -> (r: Vec<TraitListing>)
    requires
        forall|i: int| 0 <= i < histories@.len() ==> wf_history(#[trigger] histories@[i]),
    ensures
        r@.to_multiset() == listing_candidates(histories@).to_multiset(),
        sorted_by_price(r@),
        r@.len() == listing_candidates(histories@).len(),
{
    let mut cands: Vec<TraitListing> = Vec::new();
    let mut i: usize = 0;
    assert(histories@.take(0) =~= Seq::<TokenListingHistory>::empty());
    while i < histories.len()
        invariant
            i <= histories@.len(),
            cands@ == listing_candidates(histories@.take(i as int)),
        decreases histories@.len() - i,
    {
        proof {
            assert(histories@.take(i + 1).drop_last() =~= histories@.take(i as int));
        }
        let h = &histories[i];
        if h.events.len() > 0 {
            match h.events[h.events.len() - 1].price {
                Some(p) => {
                    cands.push(TraitListing { token_id: h.token_id, price: p });
                },
                None => {},
            }
        }
        i += 1;
    }
    proof {
        assert(histories@.take(histories@.len() as int) =~= histories@);
    }
    sort_listings_by_price(cands)
}

/// A log row that puts (or keeps) the token on the market: a created
/// listing, or a sell order that carries a price.
pub open spec fn is_active_listing_event(e: ListingEvent) -> bool {
    e.update_type == UpdateType::Created || (e.update_type == UpdateType::SellOrder
        && e.price is Some)
}

/// How many rows of `s` are active listing events strictly after
/// `cutoff_ts`.
pub open spec fn count_active_after(s: Seq<ListingEvent>, cutoff_ts: u64) -> int
    decreases s.len(),
{
    if s.len() == 0 {
        0
    } else {
        count_active_after(s.drop_last(), cutoff_ts) + if is_active_listing_event(s.last())
            && s.last().timestamp > cutoff_ts {
            1int
        } else {
            0int
        }
    }
}

/// Number of a token's listing events in a trailing window: created
/// listings and priced sell orders strictly after `cutoff_ts`.
pub fn count_listings_after(events: &Vec<ListingEvent>, cutoff_ts: u64) -> (r: usize)
    ensures
        r == count_active_after(events@, cutoff_ts),
{
    let ghost s = events@;
    let mut cnt: usize = 0;
    let mut i: usize = 0;
    assert(s.take(0) =~= Seq::<ListingEvent>::empty());
    while i < events.len()
        invariant
            i <= s.len(),
            s == events@,
            cnt == count_active_after(s.take(i as int), cutoff_ts),
            cnt <= i,
        decreases s.len() - i,
    {
        proof {
            assert(s.take(i + 1).drop_last() =~= s.take(i as int));
        }
        let e = &events[i];
        let active = match e.update_type {
            UpdateType::Created => true,
            UpdateType::SellOrder => e.price.is_some(),
            _ => false,
        };
        if active && e.timestamp > cutoff_ts {
            cnt += 1;
        }
        i += 1;
    }
    proof {
        assert(s.take(s.len() as int) =~= s);
    }
    cnt
}

/// A trait's floor: the cheapest currently listed token holding it.
#[derive(Clone, Copy, Debug, PartialEq, Eq, Structural)]
pub struct TraitFloor {
    pub trait_id: u64,
    pub token_id: u64,
    pub floor_price: u64,
}

/// The cheapest currently listed holder of the trait, or nothing when no
/// holder is listed — a normal, frequent, non-error outcome.
pub fn get_trait_floor(trait_id: u64, histories: &Vec<TokenListingHistory>) -> (r: Option<
    TraitFloor,
>)
    requires
        forall|i: int| 0 <= i < histories@.len() ==> wf_history(#[trigger] histories@[i]),
    ensures
        (r is None) <==> listing_candidates(histories@).len() == 0,
        r matches Some(f) ==> {
            &&& f.trait_id == trait_id
            &&& listing_candidates(histories@).contains(
                TraitListing { token_id: f.token_id, price: f.floor_price },
            )
            &&& forall|c: TraitListing|
                listing_candidates(histories@).contains(c) ==> f.floor_price <= c.price
        },
{
    let listings = get_trait_listings(histories);
    let ghost cands = listing_candidates(histories@);
    if listings.len() == 0 {
        None
    } else {
        let best = listings[0];
        proof {
            assert(listings@.to_multiset().count(best) > 0);
            assert(cands.contains(best));
            assert forall|c: TraitListing| cands.contains(c) implies best.price <= c.price by {
                assert(listings@.to_multiset().count(c) > 0);
                assert(listings@.contains(c));
                let k = choose|k: int| 0 <= k < listings@.len() && listings@[k] == c;
                assert(listings@[0].price <= listings@[k].price);
            }
        }
        Some(TraitFloor { trait_id, token_id: best.token_id, floor_price: best.price })
    }
}

/// Whether a stored listing is recent enough to be trusted, or old enough
/// that a refetch from the ingestion collaborator is warranted.
#[derive(Clone, Copy, Debug, PartialEq, Eq, Structural)]
pub enum ListingFreshness {
    Fresh,
    Stale,
}

/// Classifies a stored listing against the refresh policy: stale once it is
/// older than `max_age` seconds, fresh otherwise (including listings dated
/// in the future, which cannot be older than anything).
pub fn classify_listing_age(listing_ts: u64, now_ts: u64, max_age: u64) -> (r: ListingFreshness)
    ensures
        (r is Stale) <==> (listing_ts < now_ts && now_ts - listing_ts > max_age),
{
    if listing_ts < now_ts && now_ts - listing_ts > max_age {
        ListingFreshness::Stale
    } else {
        ListingFreshness::Fresh
    }
}

/// Decides what a resolver should trust after a refresh attempt of a stale
/// listing: the refetched state when the attempt came back, otherwise the
/// last stored value — a failed or timed-out refetch never aborts the
/// surrounding computation.
pub fn resolve_listing_refresh(stored: Option<u64>, refetched: Option<Option<u64>>) -> (r: Option<
    u64,
>)
    ensures
        refetched matches Some(f) ==> r == f,
        refetched is None ==> r == stored,
{
    match refetched {
        Some(f) => f,
        None => stored,
    }
}

/// How many holders of the trait are currently listed.
pub fn get_trait_nr_listed(histories: &Vec<TokenListingHistory>) -> (r: usize)
    requires
        forall|i: int| 0 <= i < histories@.len() ==> wf_history(#[trigger] histories@[i]),
    ensures
        r == listing_candidates(histories@).len(),
{
    get_trait_listings(histories).len()
}

} // verus!
