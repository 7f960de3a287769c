//! Random subsets of an index range, for deleting records without
//! replacement.

use crate::order::{ascending, lemma_ascending};
use rand::rngs::ThreadRng;
use rand::seq::SliceRandom;
use vstd::prelude::*;

verus! {

/// The generator that `rand` keeps for each thread. Nothing is known of a
/// value of this type.
#[verifier::external_type_specification]
#[verifier::external_body]
pub struct ExThreadRng(ThreadRng);

/// `rand::thread_rng` hands out the calling thread's generator. Nothing is
/// claimed of it.
pub assume_specification[ rand::thread_rng ]() -> (rng: ThreadRng);

/// Calls `shuffle` of `rand::seq::SliceRandom` on the vector. The method only
/// swaps elements, and which ones it swaps is left to the generator; so the
/// contract claims no more than that the vector holds the same elements
/// afterwards, each as often as before.
#[verifier::external_body]
fn shuffle_slice(v: &mut Vec<u64>, rng: &mut ThreadRng)
    ensures
        final(v)@.to_multiset() == old(v)@.to_multiset(),
{
    v.shuffle(rng);
}

/// The indices below `n`, in order.
pub open spec fn indices(n: nat) -> Seq<u64> {
    Seq::new(n, |i: int| i as u64)
}

/// Every index below `n` occurs exactly once in `s`, and nothing else occurs
/// in it.
pub open spec fn is_permutation(s: Seq<u64>, n: nat) -> bool {
    forall|v: u64| #[trigger] s.to_multiset().count(v) == (if v < n { 1nat } else { 0nat })
}

/// The indices below `n` are a permutation of themselves.
pub proof fn lemma_indices_permutation(n: nat)
    requires
        n <= u64::MAX + 1,
    ensures
        is_permutation(indices(n), n),
    decreases n,
{
    broadcast use vstd::seq_lib::group_to_multiset_ensures;

    if n == 0 {
        assert(indices(0) =~= Seq::<u64>::empty());
        assert forall|v: u64| #[trigger] indices(0).to_multiset().count(v) == 0nat by {}
    } else {
        let m = (n - 1) as nat;
        lemma_indices_permutation(m);
        assert(indices(n) =~= indices(m).push(m as u64));
        assert forall|v: u64| #[trigger]
            indices(n).to_multiset().count(v) == (if v < n { 1nat } else { 0nat }) by {
            assert(indices(m).to_multiset().count(v) == (if v < m { 1nat } else { 0nat }));
        }
    }
}

/// What a permutation of the indices below `n` is like as a sequence: it has
/// `n` elements, all below `n` and no two of them equal, and every index
/// below `n` is among them.
pub proof fn lemma_permutation_shape(s: Seq<u64>, n: nat)
    requires
        is_permutation(s, n),
        n <= u64::MAX + 1,
    ensures
        s.len() == n,
        s.no_duplicates(),
        forall|i: int| 0 <= i < s.len() ==> #[trigger] s[i] < n,
        forall|v: u64| v < n ==> s.contains(v),
{
    broadcast use vstd::seq_lib::group_to_multiset_ensures;

    lemma_indices_permutation(n);
    assert(s.to_multiset() =~= indices(n).to_multiset());
    assert(s.len() == s.to_multiset().len());
    assert(indices(n).len() == indices(n).to_multiset().len());
    assert forall|i: int| 0 <= i < s.len() implies #[trigger] s[i] < n by {
        assert(s.to_multiset().count(s[i]) > 0);
    }
    assert forall|v: u64| v < n implies s.contains(v) by {
        assert(s.to_multiset().count(v) > 0);
    }
    s.lemma_multiset_has_no_duplicates_conv();
}

/// The first `k` indices of a permutation are distinct and below `n`, and
/// they stay so when they are put in ascending order.
pub proof fn lemma_subset_distinct(order: Seq<u64>, n: nat, k: nat)
    requires
        is_permutation(order, n),
        n <= u64::MAX + 1,
        k <= n,
    ensures
        ({
            let subset = order.subrange(0, k as int);
            &&& order.len() == n
            &&& subset.no_duplicates()
            &&& forall|i: int| 0 <= i < subset.len() ==> #[trigger] subset[i] < n
            &&& ascending(subset).len() == k
            &&& ascending(subset).no_duplicates()
            &&& forall|i: int| 0 <= i < k ==> #[trigger] ascending(subset)[i] < n
        }),
{
    broadcast use vstd::seq_lib::group_to_multiset_ensures;

    lemma_permutation_shape(order, n);
    let subset = order.subrange(0, k as int);
    assert forall|i: int| 0 <= i < subset.len() implies #[trigger] subset[i] < n by {
        assert(subset[i] == order[i]);
    }
    assert forall|i: int, j: int|
        0 <= i < subset.len() && 0 <= j < subset.len() && i != j implies subset[i]
        != subset[j] by {
        assert(subset[i] == order[i] && subset[j] == order[j]);
    }
    lemma_ascending(subset);
    let sorted = ascending(subset);
    subset.lemma_multiset_has_no_duplicates();
    sorted.lemma_multiset_has_no_duplicates_conv();
    assert forall|i: int| 0 <= i < k implies #[trigger] sorted[i] < n by {
        assert(sorted.to_multiset().count(sorted[i]) > 0);
        assert(subset.contains(sorted[i]));
    }
}

/// The indices below `n` in a random order.
pub fn shuffled_indices(n: u64) -> (order: Vec<u64>)
    ensures
        is_permutation(order@, n as nat),
        order@.len() == n,
{
    let mut order: Vec<u64> = Vec::new();
    let mut i: u64 = 0;
    while i < n
        invariant
            i <= n,
            order@ == indices(i as nat),
        decreases n - i,
    {
        order.push(i);
        i += 1;
        assert(order@ =~= indices(i as nat));
    }
    let mut rng = rand::thread_rng();
    shuffle_slice(&mut order, &mut rng);
    proof {
        lemma_indices_permutation(n as nat);
        lemma_permutation_shape(order@, n as nat);
    }
    order
}

/// A prefix was asked for that is longer than the sequence.
#[derive(Clone, Copy, Debug, PartialEq, Eq, Structural)]
pub struct OutOfRange {
    pub requested: usize,
    pub available: usize,
}

/// The first `k` elements of `order`.
pub fn take_prefix(order: &Vec<u64>, k: usize) -> (subset: Result<Vec<u64>, OutOfRange>)
    ensures
        k <= order@.len() ==> subset.is_ok() && subset.unwrap()@ == order@.subrange(0, k as int),
        k > order@.len() ==> subset == Err::<Vec<u64>, OutOfRange>(
            OutOfRange { requested: k, available: order.len() },
        ),
{
    if k > order.len() {
        return Err(OutOfRange { requested: k, available: order.len() });
    }
    let mut subset: Vec<u64> = Vec::with_capacity(k);
    let mut i: usize = 0;
    while i < k
        invariant
            i <= k <= order@.len(),
            subset@ == order@.subrange(0, i as int),
        decreases k - i,
    {
        subset.push(order[i]);
        i += 1;
        assert(subset@ =~= order@.subrange(0, i as int));
    }
    Ok(subset)
}

} // verus!
