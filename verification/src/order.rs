//! The order in which shapes are lined up along an axis.

use vstd::prelude::*;
use vstd::relations::total_ordering;
use vstd::seq_lib::group_to_multiset_ensures;

verus! {

/// The order of (coordinate, position) pairs: by coordinate, and by position
/// where the coordinates are equal.
pub open spec fn pair_leq(a: (int, int), b: (int, int)) -> bool {
    a.0 < b.0 || (a.0 == b.0 && a.1 <= b.1)
}

/// [`pair_leq`] as a relation.
pub open spec fn pair_order() -> spec_fn((int, int), (int, int)) -> bool {
    |a: (int, int), b: (int, int)| pair_leq(a, b)
}

/// A pair of machine integers as a pair of integers.
pub open spec fn widen(p: (i32, usize)) -> (int, int) {
    (p.0 as int, p.1 as int)
}

/// The order of pairs is a total order.
pub proof fn lemma_pair_order_total()
    ensures
        total_ordering(pair_order()),
{
    let r = pair_order();
    assert forall|x: (int, int), y: (int, int)| #[trigger] r(x, y) && #[trigger] r(y, x) implies x
        == y by {
        assert(x.0 == y.0 && x.1 == y.1);
    }
}

/// Sorts `pairs` with `sort` of std's slices, which orders tuples by their
/// first component and then by their second and only moves elements around:
/// afterwards the same pairs stand in ascending order.
#[verifier::external_body]
pub(crate) fn sort_pairs(pairs: &mut Vec<(i32, usize)>)
    ensures
        final(pairs)@.to_multiset() == old(pairs)@.to_multiset(),
        forall|i: int, j: int|
            0 <= i < j < final(pairs)@.len() ==> pair_leq(
                widen(#[trigger] final(pairs)@[i]),
                widen(#[trigger] final(pairs)@[j]),
            ),
{
    pairs.sort();
}

/// Two sequences that hold the same elements still hold the same elements
/// after a function is applied to each.
pub proof fn lemma_map_values_permutes<A, B>(a: Seq<A>, b: Seq<A>, f: spec_fn(A) -> B)
    requires
        a.to_multiset() == b.to_multiset(),
    ensures
        a.map_values(f).to_multiset() == b.map_values(f).to_multiset(),
    decreases a.len(),
{
    broadcast use group_to_multiset_ensures;

    vstd::seq_lib::to_multiset_len(a);
    vstd::seq_lib::to_multiset_len(b);
    if a.len() == 0 {
        assert(a.map_values(f) =~= b.map_values(f));
    } else {
        let x = a.last();
        assert(a.to_multiset().count(x) > 0);
        assert(b.contains(x));
        let k = choose|k: int| 0 <= k < b.len() && b[k] == x;
        let a1 = a.drop_last();
        let b1 = b.remove(k);
        assert(a1 =~= a.remove(a.len() - 1));
        assert(a1.to_multiset() =~= a.to_multiset().remove(x));
        assert(b1.to_multiset() =~= b.to_multiset().remove(x));
        lemma_map_values_permutes(a1, b1, f);
        assert(a1.map_values(f) =~= a.map_values(f).remove(a.len() - 1));
        assert(b1.map_values(f) =~= b.map_values(f).remove(k));
        assert(a.map_values(f).to_multiset() =~= a1.map_values(f).to_multiset().insert(f(x)));
        assert(b.map_values(f).to_multiset() =~= b1.map_values(f).to_multiset().insert(f(x)));
    }
}

} // verus!
