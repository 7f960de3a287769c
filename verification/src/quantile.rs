//! Quantiles of a set of samples by the nearest-rank rule.

use crate::order::{ascending, lemma_ascending, sort};
use vstd::prelude::*;

verus! {

/// The largest quantile, in thousandths.
pub const WHOLE: u32 = 1000;

/// The rank, counted from one, of the sample that stands for the quantile
/// `permille` thousandths among `count` samples in ascending order: the
/// least rank `r` such that `r` of `count` samples are at least `permille`
/// thousandths of them, and the first sample where that is no sample at all.
pub open spec fn rank(count: nat, permille: nat) -> nat {
    let r = (count * permille + 999) / 1000;
    if r == 0 {
        1
    } else {
        r as nat
    }
}

/// The quantile `permille` thousandths of the samples, where there are any.
pub open spec fn quantile(samples: Seq<u64>, permille: nat) -> Option<u64> {
    if samples.len() == 0 {
        None
    } else {
        Some(ascending(samples)[rank(samples.len(), permille) - 1])
    }
}

/// The quantiles of the samples at each of the given thousandths.
pub open spec fn quantiles(samples: Seq<u64>, at: Seq<u32>) -> Seq<Option<u64>> {
    Seq::new(at.len(), |i: int| quantile(samples, at[i] as nat))
}

/// The rank is the least one that covers the quantile's share of the
/// samples.
pub proof fn lemma_rank_least(count: nat, permille: nat)
    requires
        0 < permille,
        0 < count,
    ensures
        1000 * rank(count, permille) >= count * permille,
        1000 * (rank(count, permille) - 1) < count * permille,
{
    assert(count * permille >= 1) by (nonlinear_arith)
        requires
            count >= 1,
            permille >= 1,
    ;
}

/// The rank names one of the samples.
pub proof fn lemma_rank_in_range(count: nat, permille: nat)
    requires
        0 < count,
        permille <= 1000,
    ensures
        1 <= rank(count, permille) <= count,
{
    assert(count * permille <= count * 1000) by (nonlinear_arith)
        requires
            permille <= 1000,
    ;
}

/// Among samples in ascending order, rank one belongs to the quantile zero
/// and the last rank to the quantile one.
pub proof fn lemma_rank_ends(count: nat)
    requires
        0 < count,
    ensures
        rank(count, 0) == 1,
        rank(count, 1000) == count,
{
}

/// The quantile one is the largest sample: it is one of the samples, and no
/// sample is larger.
pub proof fn lemma_top_quantile_is_maximum(samples: Seq<u64>)
    requires
        samples.len() > 0,
    ensures
        quantile(samples, 1000) is Some,
        samples.contains(quantile(samples, 1000).unwrap()),
        forall|i: int| 0 <= i < samples.len() ==> samples[i] <= quantile(samples, 1000).unwrap(),
{
    lemma_extremes(samples);
}

/// The quantile zero is the smallest sample.
pub proof fn lemma_bottom_quantile_is_minimum(samples: Seq<u64>)
    requires
        samples.len() > 0,
    ensures
        quantile(samples, 0) is Some,
        samples.contains(quantile(samples, 0).unwrap()),
        forall|i: int| 0 <= i < samples.len() ==> quantile(samples, 0).unwrap() <= samples[i],
{
    lemma_extremes(samples);
}

/// Every quantile is one of the samples.
pub proof fn lemma_quantile_is_sample(samples: Seq<u64>, permille: nat)
    requires
        samples.len() > 0,
        permille <= 1000,
    ensures
        samples.contains(quantile(samples, permille).unwrap()),
{
    broadcast use vstd::seq_lib::group_to_multiset_ensures;

    lemma_ascending(samples);
    lemma_rank_in_range(samples.len(), permille);
    let sorted = ascending(samples);
    let v = sorted[rank(samples.len(), permille) - 1];
    assert(sorted.contains(v));
    assert(sorted.to_multiset().count(v) > 0);
}

/// A larger quantile is never a smaller sample.
pub proof fn lemma_quantile_monotone(samples: Seq<u64>, lower: nat, upper: nat)
    requires
        samples.len() > 0,
        lower <= upper <= 1000,
    ensures
        quantile(samples, lower).unwrap() <= quantile(samples, upper).unwrap(),
{
    lemma_ascending(samples);
    lemma_rank_in_range(samples.len(), lower);
    lemma_rank_in_range(samples.len(), upper);
    let n = samples.len();
    assert(n * lower <= n * upper) by (nonlinear_arith)
        requires
            lower <= upper,
    ;
}

proof fn lemma_extremes(samples: Seq<u64>)
    requires
        samples.len() > 0,
    ensures
        quantile(samples, 1000) == Some(ascending(samples).last()),
        quantile(samples, 0) == Some(ascending(samples).first()),
        samples.contains(ascending(samples).last()),
        samples.contains(ascending(samples).first()),
        forall|i: int| 0 <= i < samples.len() ==> samples[i] <= ascending(samples).last(),
        forall|i: int| 0 <= i < samples.len() ==> ascending(samples).first() <= samples[i],
{
    broadcast use vstd::seq_lib::group_to_multiset_ensures;

    lemma_ascending(samples);
    lemma_rank_ends(samples.len());
    let sorted = ascending(samples);
    assert(sorted.contains(sorted.last()));
    assert(sorted.contains(sorted.first()));
    assert(sorted.to_multiset().count(sorted.last()) > 0);
    assert(sorted.to_multiset().count(sorted.first()) > 0);
    assert forall|i: int| 0 <= i < samples.len() implies samples[i] <= sorted.last()
        && sorted.first() <= samples[i] by {
        assert(samples.contains(samples[i]));
        assert(samples.to_multiset().count(samples[i]) > 0);
        assert(sorted.contains(samples[i]));
        let j = choose|j: int| 0 <= j < sorted.len() && sorted[j] == samples[i];
        assert(sorted[j] <= sorted[sorted.len() - 1]);
        assert(sorted[0] <= sorted[j]);
    }
}

/// The index, counted from zero, of the sample that stands for a quantile.
fn rank_index(count: usize, permille: u32) -> (index: usize)
    requires
        0 < count,
        permille <= 1000,
    ensures
        index == rank(count as nat, permille as nat) - 1,
        index < count,
{
    proof {
        lemma_rank_in_range(count as nat, permille as nat);
        assert(count * permille <= count * 1000) by (nonlinear_arith)
            requires
                permille <= 1000,
        ;
    }
    let scaled: u128 = (count as u128) * (permille as u128) + 999;
    let r: u128 = scaled / 1000;
    if r == 0 {
        0
    } else {
        (r - 1) as usize
    }
}

/// The quantiles of the samples at each of the given thousandths, none of
/// which is above a thousand.
pub fn summarize(samples: &Vec<u64>, at: &Vec<u32>) -> (summary: Vec<Option<u64>>)
    requires
        forall|i: int| 0 <= i < at@.len() ==> at@[i] <= 1000,
    ensures
        summary@ == quantiles(samples@, at@),
{
    let mut sorted = samples.clone();
    sort(&mut sorted);
    proof {
        lemma_ascending(samples@);
    }
    let mut summary: Vec<Option<u64>> = Vec::with_capacity(at.len());
    let mut i: usize = 0;
    while i < at.len()
        invariant
            i <= at@.len(),
            sorted@ == ascending(samples@),
            sorted@.len() == samples@.len(),
            forall|k: int| 0 <= k < at@.len() ==> at@[k] <= 1000,
            summary@ == quantiles(samples@, at@.subrange(0, i as int)),
        decreases at@.len() - i,
    {
        let value = if sorted.len() == 0 {
            None
        } else {
            Some(sorted[rank_index(sorted.len(), at[i])])
        };
        summary.push(value);
        i += 1;
        assert(summary@ =~= quantiles(samples@, at@.subrange(0, i as int)));
    }
    assert(at@.subrange(0, i as int) =~= at@);
    summary
}

/// The quantile `permille` thousandths of the samples: `None` where there is
/// no sample.
pub fn quantile_of(samples: &Vec<u64>, permille: u32) -> (value: Option<u64>)
    requires
        permille <= 1000,
    ensures
        value == quantile(samples@, permille as nat),
{
    if samples.len() == 0 {
        return None;
    }
    let mut sorted = samples.clone();
    sort(&mut sorted);
    proof {
        lemma_ascending(samples@);
    }
    Some(sorted[rank_index(sorted.len(), permille)])
}

} // verus!
