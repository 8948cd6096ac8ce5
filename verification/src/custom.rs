//! Manually curated price overrides: a per-collection book of
//! `(token id, price)` entries consulted before any synthesis.

use vstd::prelude::*;

verus! {

/// A collection's curated price overrides.
#[derive(Clone, Debug)]
pub struct CustomPriceBook {
    pub entries: Vec<(u64, u64)>,
}

/// The price of the first entry for `token_id`, if any is configured.
pub open spec fn first_price(entries: Seq<(u64, u64)>, token_id: u64) -> Option<u64>
    decreases entries.len(),
{
    if entries.len() == 0 {
        None
    } else if entries[0].0 == token_id {
        Some(entries[0].1)
    } else {
        first_price(entries.drop_first(), token_id)
    }
}

/// Looks a token's curated price up; almost every token has none, and the
/// synthesis then proceeds from the market signals.
pub fn read_custom_price(book: &CustomPriceBook, token_id: u64) -> (r: Option<u64>)
    ensures
        r == first_price(book.entries@, token_id),
        (r is None) ==> forall|k: int|
            0 <= k < book.entries@.len() ==> (#[trigger] book.entries@[k]).0 != token_id,
{
    let ghost s = book.entries@;
    let mut i: usize = 0;
    assert(s.skip(0) =~= s);
    while i < book.entries.len()
        invariant
            i <= s.len(),
            s == book.entries@,
            first_price(s, token_id) == first_price(s.skip(i as int), token_id),
            forall|k: int| 0 <= k < i ==> (#[trigger] s[k]).0 != token_id,
        decreases s.len() - i,
    {
        proof {
            assert(s.skip(i as int).drop_first() =~= s.skip(i + 1));
            assert(s.skip(i as int)[0] == s[i as int]);
        }
        let e = book.entries[i];
        if e.0 == token_id {
            return Some(e.1);
        }
        i += 1;
    }
    proof {
        assert(s.skip(s.len() as int) =~= Seq::<(u64, u64)>::empty());
    }
    None
}

} // verus!
