//! The order in which pairs of integers are sorted.

use vstd::prelude::*;
use vstd::relations::{sorted_by, total_ordering};

verus! {

/// The ascending order of pairs: by the first component, then by the second.
pub open spec fn ascending() -> spec_fn((i64, usize), (i64, usize)) -> bool {
    |a: (i64, usize), b: (i64, usize)| a.0 < b.0 || (a.0 == b.0 && a.1 <= b.1)
}

/// That [`ascending`] is a total order.
pub proof fn lemma_ascending_total()
    ensures
        total_ordering(ascending()),
{
    let leq = ascending();
    assert(vstd::relations::reflexive(leq));
    assert(vstd::relations::antisymmetric(leq)) by {
        assert forall|x: (i64, usize), y: (i64, usize)| #[trigger]
            leq(x, y) && #[trigger] leq(y, x) implies x == y by {}
    }
    assert(vstd::relations::transitive(leq));
    assert(vstd::relations::strongly_connected(leq));
}

/// `sort_unstable` of std on a vector of pairs of integers. Afterwards the
/// pairs stand in ascending order, a pair being less than another by its
/// first component and, where these are equal, by its second; and they are
/// the pairs that the vector held before, each as often.
#[verifier::external_body]
fn sort_pairs(pairs: &mut Vec<(i64, usize)>)
    ensures
        sorted_by(final(pairs)@, ascending()),
        final(pairs)@.to_multiset() == old(pairs)@.to_multiset(),
{
    pairs.sort_unstable();
}

/// Sorts pairs into ascending order.
pub fn sort_ascending(pairs: &mut Vec<(i64, usize)>)
    ensures
        final(pairs)@ == old(pairs)@.sort_by(ascending()),
{
    let ghost before = pairs@;
    sort_pairs(pairs);
    proof {
        lemma_ascending_total();
        before.lemma_sort_by_ensures(ascending());
        vstd::seq_lib::lemma_sorted_unique(pairs@, before.sort_by(ascending()), ascending());
    }
}

/// Sorting does not depend on the order in which the pairs stand.
pub proof fn lemma_sort_by_members(a: Seq<(i64, usize)>, b: Seq<(i64, usize)>)
    requires
        a.to_multiset() == b.to_multiset(),
    ensures
        a.sort_by(ascending()) == b.sort_by(ascending()),
{
    lemma_ascending_total();
    a.lemma_sort_by_ensures(ascending());
    b.lemma_sort_by_ensures(ascending());
    vstd::seq_lib::lemma_sorted_unique(a.sort_by(ascending()), b.sort_by(ascending()), ascending());
}

} // verus!
