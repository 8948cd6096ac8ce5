//! Small arithmetic and sequence lemmas shared by the analyzer modules.

use vstd::prelude::*;

verus! {

use vstd::multiset::group_multiset_axioms;
use vstd::seq_lib::group_to_multiset_ensures;

/// Inserting an element anywhere in a sequence adds exactly one occurrence
/// of it to the sequence's multiset.
pub proof fn lemma_insert_to_multiset<A>(s: Seq<A>, i: int, a: A)
    requires
        0 <= i <= s.len(),
    ensures
        s.insert(i, a).to_multiset() == s.to_multiset().insert(a),
{
    broadcast use group_to_multiset_ensures;
    broadcast use group_multiset_axioms;

    let t = s.insert(i, a);
    s.insert_ensures(i, a);
    assert(t.remove(i) =~= s);
    assert(t[i] == a);
    assert(s.to_multiset() =~= t.to_multiset().remove(a));
    assert(t.contains(a));
    assert(t.to_multiset().count(a) > 0);
    assert(t.to_multiset() =~= s.to_multiset().insert(a));
}

/// A quotient is bounded by any value whose product with the divisor bounds
/// the dividend.
pub proof fn lemma_div_bound(a: int, b: int, m: int)
    requires
        b > 0,
        0 <= m,
        0 <= a <= b * m,
    ensures
        a / b <= m,
{
    vstd::arithmetic::div_mod::lemma_div_is_ordered(a, b * m, b);
    vstd::arithmetic::div_mod::lemma_div_multiples_vanish(m, b);
}

} // verus!
