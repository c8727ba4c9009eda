//! The entities that a heatmap shows, and the weights that size them.

use vstd::prelude::*;
use crate::change::Change;

verus! {

/// One item of the heatmap.
///
/// `weight` sizes the item's tile relative to the other items. `change` is
/// the signed change that colours it. `label` is for the caller's titles
/// only.
#[derive(Clone, Debug)]
pub struct WeightedEntity {
    pub label: String,
    pub weight: u64,
    pub change: Change,
}

/// The weights of a sequence of entities, in the same order.
pub open spec fn weights_of(entities: Seq<WeightedEntity>) -> Seq<nat> {
    Seq::new(entities.len(), |i: int| entities[i].weight as nat)
}

/// The values of a sequence of machine weights, as natural numbers.
pub open spec fn magnitudes(values: Seq<u64>) -> Seq<nat> {
    Seq::new(values.len(), |i: int| values[i] as nat)
}

/// The sum of a sequence of weights.
pub open spec fn sum(weights: Seq<nat>) -> nat
    decreases weights.len(),
{
    if weights.len() == 0 {
        0
    } else {
        sum(weights.drop_last()) + weights.last()
    }
}

/// Whether every weight of the sequence is positive.
pub open spec fn all_positive(weights: Seq<nat>) -> bool {
    forall|i: int| 0 <= i < weights.len() ==> weights[i] > 0
}

/// The sum of a concatenation is the sum of the sums.
pub proof fn lemma_sum_concat(a: Seq<nat>, b: Seq<nat>)
    ensures
        sum(a + b) == sum(a) + sum(b),
    decreases b.len(),
{
    if b.len() == 0 {
        assert(a + b =~= a);
    } else {
        assert((a + b).drop_last() =~= a + b.drop_last());
        lemma_sum_concat(a, b.drop_last());
    }
}

/// Cutting a sequence of weights in two keeps the sum.
pub proof fn lemma_sum_split(weights: Seq<nat>, mid: int)
    requires
        0 <= mid <= weights.len(),
    ensures
        sum(weights) == sum(weights.subrange(0, mid)) + sum(
            weights.subrange(mid, weights.len() as int),
        ),
{
    assert(weights =~= weights.subrange(0, mid) + weights.subrange(mid, weights.len() as int));
    lemma_sum_concat(weights.subrange(0, mid), weights.subrange(mid, weights.len() as int));
}

/// A positive sum holds a positive weight.
pub proof fn lemma_sum_has_positive(weights: Seq<nat>) -> (at: int)
    requires
        sum(weights) > 0,
    ensures
        0 <= at < weights.len(),
        weights[at] > 0,
    decreases weights.len(),
{
    if weights.last() > 0 {
        weights.len() - 1
    } else {
        lemma_sum_has_positive(weights.drop_last())
    }
}

/// A non-empty sequence of positive weights has a positive sum.
pub proof fn lemma_sum_positive(weights: Seq<nat>)
    requires
        weights.len() > 0,
        all_positive(weights),
    ensures
        sum(weights) > 0,
{
    assert(weights.last() > 0);
}

/// The weights of `entities`, in the same order.
pub fn entity_weights(entities: &Vec<WeightedEntity>) -> (weights: Vec<u64>)
    ensures
        magnitudes(weights@) == weights_of(entities@),
{
    let mut weights: Vec<u64> = Vec::new();
    let mut i: usize = 0;
    while i < entities.len()
        invariant
            i <= entities.len(),
            weights@.len() == i,
            forall|k: int| 0 <= k < i ==> weights@[k] == entities@[k].weight,
        decreases entities.len() - i,
    {
        weights.push(entities[i].weight);
        i = i + 1;
    }
    assert(magnitudes(weights@) =~= weights_of(entities@));
    weights
}

/// The sum of the weights from position `lo` up to position `hi`.
pub fn range_weight(weights: &Vec<u64>, lo: usize, hi: usize) -> (total: u128)
    requires
        lo <= hi <= weights.len(),
    ensures
        total == sum(magnitudes(weights@).subrange(lo as int, hi as int)),
{
    let ghost all = magnitudes(weights@);
    let mut total: u128 = 0;
    let mut i: usize = lo;
    while i < hi
        invariant
            lo <= i <= hi <= weights.len(),
            all == magnitudes(weights@),
            total == sum(all.subrange(lo as int, i as int)),
            total <= (i - lo) * u64::MAX,
        decreases hi - i,
    {
        proof {
            let next = all.subrange(lo as int, i + 1);
            assert(next.drop_last() =~= all.subrange(lo as int, i as int));
            assert(next.last() == weights@[i as int]);
            assert((i - lo) * u64::MAX + u64::MAX == (i + 1 - lo) * u64::MAX
                && (i + 1 - lo) * u64::MAX <= usize::MAX * u64::MAX
                && usize::MAX * u64::MAX <= u64::MAX * u64::MAX) by (nonlinear_arith)
                requires
                    lo <= i < usize::MAX,
                    usize::MAX <= u64::MAX,
            ;
        }
        total = total + weights[i] as u128;
        i = i + 1;
    }
    total
}

/// The sum of the given weights.
pub fn sum_weights(weights: &Vec<u64>) -> (total: u128)
    ensures
        total == sum(magnitudes(weights@)),
{
    assert(magnitudes(weights@).subrange(0, weights.len() as int) =~= magnitudes(weights@));
    range_weight(weights, 0, weights.len())
}

/// The sum of the weights of all the entities.
pub fn total_weight(entities: &Vec<WeightedEntity>) -> (total: u128)
    ensures
        total == sum(weights_of(entities@)),
{
    let weights = entity_weights(entities);
    sum_weights(&weights)
}

/// The last two observations of a series, the earlier one first; none where
/// the series holds fewer than two.
pub fn last_two<T: Copy>(series: &Vec<T>) -> (pair: Option<(T, T)>)
    ensures
        pair == if series.len() >= 2 {
            Some((series@[series.len() - 2], series@[series.len() - 1]))
        } else {
            None
        },
{
    let len: usize = series.len();
    if len < 2 {
        None
    } else {
        Some((series[len - 2], series[len - 1]))
    }
}

} // verus!
