//! A valuation engine for tokens in NFT collections.
//!
//! Given a locally mirrored snapshot of marketplace data (trait metadata,
//! listing events and historical sales), the library computes trait-overlap
//! statistics for every token of a collection and synthesizes a price
//! envelope and liquidity signals for a single token.
//!
//! All quantities are plain integers: prices are expressed in the caller's
//! smallest currency unit, timestamps in seconds, and fractional values
//! (rarity, cutoffs, frequencies) as exact ratios of integers.

use vstd::prelude::*;

pub mod cache;
pub mod custom;
pub mod listings;
pub mod overlap;
pub mod prices;
pub mod profile;
pub mod rarities;
pub mod ratio;
pub mod sales;
pub mod support;
pub mod velocity;

verus! {

/// The identity of a collection: its marketplace slug, display name and
/// contract address.  Carried through unchanged; the engine computes on the
/// integer snapshot data alone.
#[derive(Clone, Debug)]
pub struct CollectionSmall {
    pub slug: String,
    pub name: String,
    pub address: String,
}

} // verus!
