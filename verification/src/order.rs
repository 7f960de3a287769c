//! Ascending order on sequences of 64-bit numbers.

use vstd::prelude::*;
use vstd::relations::{sorted_by, total_ordering};
use vstd::seq_lib::lemma_sorted_unique;

verus! {

/// The usual order of the numbers, as a relation.
pub open spec fn at_most() -> spec_fn(u64, u64) -> bool {
    |a: u64, b: u64| a <= b
}

/// No element is followed by a smaller one.
pub open spec fn is_ascending(s: Seq<u64>) -> bool {
    forall|i: int, j: int| 0 <= i <= j < s.len() ==> s[i] <= s[j]
}

/// The elements of `s`, each as often as it occurs in `s`, in ascending
/// order.
pub open spec fn ascending(s: Seq<u64>) -> Seq<u64> {
    s.sort_by(at_most())
}

/// `ascending(s)` is ascending and holds what `s` holds.
pub proof fn lemma_ascending(s: Seq<u64>)
    ensures
        is_ascending(ascending(s)),
        ascending(s).to_multiset() == s.to_multiset(),
        ascending(s).len() == s.len(),
{
    assert(total_ordering(at_most()));
    s.lemma_sort_by_ensures(at_most());
    let t = ascending(s);
    assert(sorted_by(t, at_most()));
    assert forall|i: int, j: int| 0 <= i <= j < t.len() implies t[i] <= t[j] by {
        if i < j {
            assert(at_most()(t[i], t[j]));
        }
    }
    s.to_multiset_ensures();
    t.to_multiset_ensures();
}

/// An ascending sequence is determined by what it holds.
pub proof fn lemma_ascending_unique(t: Seq<u64>, s: Seq<u64>)
    requires
        is_ascending(t),
        t.to_multiset() == s.to_multiset(),
    ensures
        t == ascending(s),
{
    assert(total_ordering(at_most()));
    s.lemma_sort_by_ensures(at_most());
    assert(sorted_by(t, at_most())) by {
        assert forall|i: int, j: int| 0 <= i < j < t.len() implies #[trigger] at_most()(
            t[i],
            t[j],
        ) by {}
    }
    lemma_sorted_unique(t, ascending(s), at_most());
}

/// Calls `sort` of std's slices on the vector. The contract claims what std
/// documents of it for a totally ordered element type: afterwards the vector
/// is in ascending order and holds the same elements, each as often as
/// before.
#[verifier::external_body]
fn sort_slice(v: &mut Vec<u64>)
    ensures
        is_ascending(final(v)@),
        final(v)@.to_multiset() == old(v)@.to_multiset(),
{
    v.sort();
}

/// Reorders the vector ascending.
pub fn sort(v: &mut Vec<u64>)
    ensures
        final(v)@ == ascending(old(v)@),
{
    sort_slice(v);
    proof {
        lemma_ascending_unique(v@, old(v)@);
    }
}

} // verus!
