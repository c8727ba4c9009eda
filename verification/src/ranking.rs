//! Ranking entities by weight: the order in which the layout expects them.

use vstd::prelude::*;
use crate::entity::{lemma_sum_concat, magnitudes, sum};

verus! {

/// Whether the entity at position `a` comes before the entity at position `b`
/// in the ranking: by the greater weight, and between equal weights by the
/// earlier position.
pub open spec fn precedes(weights: Seq<nat>, a: int, b: int) -> bool {
    weights[a] > weights[b] || (weights[a] == weights[b] && a < b)
}

/// Whether `order` ranks the positions of `weights`: it holds every position
/// once, each before all those that it precedes.
pub open spec fn is_ranking(weights: Seq<nat>, order: Seq<int>) -> bool {
    &&& order.len() == weights.len()
    &&& forall|k: int| 0 <= k < order.len() ==> 0 <= #[trigger] order[k] < weights.len()
    &&& forall|p: int| 0 <= p < weights.len() ==> #[trigger] order.contains(p)
    &&& forall|j: int, k: int|
        0 <= j < k < order.len() ==> precedes(weights, #[trigger] order[j], #[trigger] order[k])
}

/// The ranking of the positions of `weights`: by descending weight, positions
/// of equal weight in their own order.
pub open spec fn ranking(weights: Seq<nat>) -> Seq<int> {
    choose|order: Seq<int>| is_ranking(weights, order)
}

/// The weights in the order of a ranking.
pub open spec fn ranked(weights: Seq<nat>, order: Seq<int>) -> Seq<nat> {
    Seq::new(order.len(), |k: int| weights[order[k]])
}

/// The positions that a vector of positions holds, as integers.
pub open spec fn positions(order: Seq<usize>) -> Seq<int> {
    Seq::new(order.len(), |k: int| order[k] as int)
}

/// Two sequences of equal length that hold the same positions, each in the
/// order of the ranking, are the same sequence.
proof fn lemma_same_order(weights: Seq<nat>, a: Seq<int>, b: Seq<int>)
    requires
        a.len() == b.len(),
        forall|j: int, k: int|
            0 <= j < k < a.len() ==> precedes(weights, #[trigger] a[j], #[trigger] a[k]),
        forall|j: int, k: int|
            0 <= j < k < b.len() ==> precedes(weights, #[trigger] b[j], #[trigger] b[k]),
        forall|k: int| 0 <= k < a.len() ==> b.contains(#[trigger] a[k]),
        forall|k: int| 0 <= k < b.len() ==> a.contains(#[trigger] b[k]),
    ensures
        a == b,
    decreases a.len(),
{
    if a.len() == 0 {
        assert(a =~= b);
    } else {
        let last = a.len() - 1;
        assert(b.contains(a[last]));
        let in_b = choose|k: int| 0 <= k < b.len() && b[k] == a[last];
        assert(a.contains(b[last]));
        let in_a = choose|k: int| 0 <= k < a.len() && a[k] == b[last];
        if in_b < last {
            assert(precedes(weights, b[in_b], b[last]));
            if in_a < last {
                assert(precedes(weights, a[in_a], a[last]));
            }
        }
        assert(a[last] == b[last]);
        let a0 = a.drop_last();
        let b0 = b.drop_last();
        assert forall|k: int| 0 <= k < a0.len() implies b0.contains(#[trigger] a0[k]) by {
            assert(precedes(weights, a[k], a[last]));
            assert(b.contains(a[k]));
            let at = choose|at: int| 0 <= at < b.len() && b[at] == a[k];
            assert(b0[at] == a0[k]);
        }
        assert forall|k: int| 0 <= k < b0.len() implies a0.contains(#[trigger] b0[k]) by {
            assert(precedes(weights, b[k], b[last]));
            assert(a.contains(b[k]));
            let at = choose|at: int| 0 <= at < a.len() && a[at] == b[k];
            assert(a0[at] == b0[k]);
        }
        assert forall|j: int, k: int| 0 <= j < k < a0.len() implies precedes(
            weights,
            #[trigger] a0[j],
            #[trigger] a0[k],
        ) by {
            assert(precedes(weights, a[j], a[k]));
        }
        assert forall|j: int, k: int| 0 <= j < k < b0.len() implies precedes(
            weights,
            #[trigger] b0[j],
            #[trigger] b0[k],
        ) by {
            assert(precedes(weights, b[j], b[k]));
        }
        lemma_same_order(weights, a0, b0);
        assert(a =~= a0.push(a[last]));
        assert(b =~= b0.push(b[last]));
    }
}

/// The ranking is unique: a sequence that ranks the positions of `weights` is
/// the ranking of `weights`.
pub proof fn lemma_ranking_unique(weights: Seq<nat>, order: Seq<int>)
    requires
        is_ranking(weights, order),
    ensures
        order == ranking(weights),
{
    let other = ranking(weights);
    assert(is_ranking(weights, other));
    assert forall|k: int| 0 <= k < order.len() implies other.contains(#[trigger] order[k]) by {
        assert(0 <= order[k] < weights.len());
    }
    assert forall|k: int| 0 <= k < other.len() implies order.contains(#[trigger] other[k]) by {
        assert(0 <= other[k] < weights.len());
    }
    lemma_same_order(weights, order, other);
}

/// The place of a new last position in the ranking of the positions before
/// it: behind every position whose weight is not smaller.
proof fn lemma_insertion_point(weights: Seq<nat>, order: Seq<int>, from: int) -> (at: int)
    requires
        weights.len() > 0,
        is_ranking(weights.drop_last(), order),
        0 <= from <= order.len(),
        forall|k: int| 0 <= k < from ==> weights[#[trigger] order[k]] >= weights.last(),
    ensures
        from <= at <= order.len(),
        forall|k: int| 0 <= k < at ==> weights[#[trigger] order[k]] >= weights.last(),
        at < order.len() ==> weights[order[at]] < weights.last(),
    decreases order.len() - from,
{
    if from < order.len() && weights[order[from]] >= weights.last() {
        lemma_insertion_point(weights, order, from + 1)
    } else {
        from
    }
}

/// Every sequence of weights has a ranking.
pub proof fn lemma_ranking_exists(weights: Seq<nat>)
    ensures
        is_ranking(weights, ranking(weights)),
    decreases weights.len(),
{
    if weights.len() == 0 {
        assert(is_ranking(weights, Seq::<int>::empty()));
    } else {
        let fewer = weights.drop_last();
        let last = weights.len() - 1;
        lemma_ranking_exists(fewer);
        let before = ranking(fewer);
        let at = lemma_insertion_point(weights, before, 0);
        let after = before.insert(at, last);
        assert forall|k: int| 0 <= k < after.len() implies 0 <= #[trigger] after[k]
            < weights.len() by {
            if k < at {
                assert(after[k] == before[k]);
            } else if k > at {
                assert(after[k] == before[k - 1]);
            }
        }
        assert forall|p: int| 0 <= p < weights.len() implies #[trigger] after.contains(p) by {
            if p == last {
                assert(after[at] == last);
            } else {
                assert(before.contains(p));
                let k = choose|k: int| 0 <= k < before.len() && before[k] == p;
                if k < at {
                    assert(after[k] == before[k]);
                } else {
                    assert(after[k + 1] == before[k]);
                }
            }
        }
        assert forall|j: int, k: int| 0 <= j < k < after.len() implies precedes(
            weights,
            #[trigger] after[j],
            #[trigger] after[k],
        ) by {
            if j != at && k != at {
                let a = if j < at {
                    j
                } else {
                    j - 1
                };
                let b = if k < at {
                    k
                } else {
                    k - 1
                };
                assert(after[j] == before[a] && after[k] == before[b]);
                assert(precedes(fewer, before[a], before[b]));
                assert(0 <= before[a] < fewer.len() && 0 <= before[b] < fewer.len());
            } else if k == at {
                assert(after[j] == before[j]);
                assert(0 <= before[j] < fewer.len());
                assert(weights[before[j]] >= weights.last());
            } else {
                assert(after[k] == before[k - 1]);
                assert(0 <= before[k - 1] < fewer.len());
                assert(0 <= before[at] < fewer.len());
                assert(weights[before[at]] < weights.last());
                if k - 1 > at {
                    assert(precedes(fewer, before[at], before[k - 1]));
                }
            }
        }
        assert(is_ranking(weights, after));
    }
}

/// Putting one more weight into a sequence adds it to the sum.
proof fn lemma_sum_insert(weights: Seq<nat>, at: int, weight: nat)
    requires
        0 <= at <= weights.len(),
    ensures
        sum(weights.insert(at, weight)) == sum(weights) + weight,
{
    let head = weights.subrange(0, at);
    let tail = weights.subrange(at, weights.len() as int);
    assert(weights =~= head + tail);
    lemma_sum_concat(head, tail);
    lemma_sum_concat(head, seq![weight]);
    assert(sum(seq![weight]) == weight) by {
        assert(seq![weight].drop_last() =~= Seq::<nat>::empty());
        assert(sum(seq![weight].drop_last()) == 0);
        assert(seq![weight].last() == weight);
    }
    assert(head.push(weight) =~= head + seq![weight]);
    lemma_sum_concat(head.push(weight), tail);
}

/// A ranking only reorders the weights: their sum stays the same.
pub proof fn lemma_ranked_sum(weights: Seq<nat>, order: Seq<int>)
    requires
        is_ranking(weights, order),
    ensures
        sum(ranked(weights, order)) == sum(weights),
    decreases weights.len(),
{
    if weights.len() == 0 {
        assert(ranked(weights, order) =~= Seq::<nat>::empty());
    } else {
        let last = weights.len() - 1;
        assert(order.contains(last));
        let at = choose|at: int| 0 <= at < order.len() && order[at] == last;
        let fewer = weights.drop_last();
        let rest = order.remove(at);
        assert forall|k: int| 0 <= k < rest.len() implies 0 <= #[trigger] rest[k]
            < fewer.len() by {
            let from = if k < at {
                k
            } else {
                k + 1
            };
            assert(rest[k] == order[from]);
            assert(0 <= order[from] < weights.len());
            if from < at {
                assert(precedes(weights, order[from], order[at]));
            } else {
                assert(precedes(weights, order[at], order[from]));
            }
        }
        assert forall|p: int| 0 <= p < fewer.len() implies #[trigger] rest.contains(p) by {
            assert(order.contains(p));
            let k = choose|k: int| 0 <= k < order.len() && order[k] == p;
            if k < at {
                assert(rest[k] == p);
            } else {
                assert(rest[k - 1] == p);
            }
        }
        assert forall|j: int, k: int| 0 <= j < k < rest.len() implies precedes(
            fewer,
            #[trigger] rest[j],
            #[trigger] rest[k],
        ) by {
            let from_j = if j < at {
                j
            } else {
                j + 1
            };
            let from_k = if k < at {
                k
            } else {
                k + 1
            };
            assert(rest[j] == order[from_j] && rest[k] == order[from_k]);
            assert(precedes(weights, order[from_j], order[from_k]));
            assert(0 <= rest[j] < fewer.len() && 0 <= rest[k] < fewer.len());
        }
        assert(is_ranking(fewer, rest));
        lemma_ranked_sum(fewer, rest);
        assert(ranked(weights, order) =~= ranked(fewer, rest).insert(at, weights[last])) by {
            assert forall|k: int| 0 <= k < rest.len() implies ranked(fewer, rest)[k]
                == weights[#[trigger] rest[k]] by {
                assert(0 <= rest[k] < fewer.len());
            }
        }
        lemma_sum_insert(ranked(fewer, rest), at, weights[last]);
    }
}

/// A ranking has the weights in descending order.
pub proof fn lemma_ranked_descending(weights: Seq<nat>, order: Seq<int>)
    requires
        is_ranking(weights, order),
    ensures
        forall|j: int, k: int|
            0 <= j <= k < order.len() ==> #[trigger] ranked(weights, order)[j] >= #[trigger] ranked(
                weights,
                order,
            )[k],
{
    assert forall|j: int, k: int| 0 <= j <= k < order.len() implies #[trigger] ranked(
        weights,
        order,
    )[j] >= #[trigger] ranked(weights, order)[k] by {
        if j < k {
            assert(precedes(weights, order[j], order[k]));
        }
    }
}

/// The positions of `weights` in the order of the ranking: by descending
/// weight, positions of equal weight in their own order.
pub fn rank_by_weight(weights: &Vec<u64>) -> (order: Vec<usize>)
    ensures
        is_ranking(magnitudes(weights@), positions(order@)),
        positions(order@) == ranking(magnitudes(weights@)),
{
    let ghost w = magnitudes(weights@);
    let mut order: Vec<usize> = Vec::new();
    let mut i: usize = 0;
    while i < weights.len()
        invariant
            i <= weights.len(),
            w == magnitudes(weights@),
            order@.len() == i,
            forall|k: int| 0 <= k < i ==> 0 <= #[trigger] order@[k] < i,
            forall|p: int| 0 <= p < i ==> #[trigger] order@.contains(p as usize),
            forall|j: int, k: int|
                0 <= j < k < i ==> precedes(w, #[trigger] order@[j] as int, #[trigger] order@[k] as int),
        decreases weights.len() - i,
    {
        let weight: u64 = weights[i];
        let mut at: usize = 0;
        while at < order.len() && weights[order[at]] >= weight
            invariant
                i < weights.len(),
                w == magnitudes(weights@),
                weight == weights@[i as int],
                order@.len() == i,
                at <= i,
                forall|k: int| 0 <= k < i ==> 0 <= #[trigger] order@[k] < i,
                forall|k: int| 0 <= k < at ==> weights@[(#[trigger] order@[k]) as int] >= weight,
            decreases i - at,
        {
            at = at + 1;
        }
        let ghost before = order@;
        order.insert(at, i);
        proof {
            let after = order@;
            assert(after.len() == i + 1);
            assert forall|k: int| 0 <= k < i + 1 implies 0 <= #[trigger] after[k] < i + 1 by {
                if k < at {
                    assert(after[k] == before[k]);
                } else if k > at {
                    assert(after[k] == before[k - 1]);
                }
            }
            assert forall|p: int| 0 <= p < i + 1 implies #[trigger] after.contains(
                p as usize,
            ) by {
                if p == i {
                    assert(after[at as int] == i);
                } else {
                    assert(before.contains(p as usize));
                    let k = choose|k: int| 0 <= k < before.len() && before[k] == p as usize;
                    if k < at {
                        assert(after[k] == before[k]);
                    } else {
                        assert(after[k + 1] == before[k]);
                    }
                }
            }
            assert forall|j: int, k: int| 0 <= j < k < i + 1 implies precedes(
                w,
                #[trigger] after[j] as int,
                #[trigger] after[k] as int,
            ) by {
                let a = if j < at {
                    j
                } else {
                    j - 1
                };
                let b = if k < at {
                    k
                } else {
                    k - 1
                };
                if j != at && k != at {
                    assert(after[j] == before[a] && after[k] == before[b]);
                    assert(precedes(w, before[a] as int, before[b] as int));
                } else if k == at {
                    assert(after[j] == before[j]);
                    assert(weights@[before[j] as int] >= weight);
                } else {
                    assert(after[k] == before[k - 1]);
                    assert(at < i);
                    assert(weights@[before[at as int] as int] < weight);
                    if k - 1 > at {
                        assert(precedes(w, before[at as int] as int, before[k - 1] as int));
                    }
                }
            }
        }
        i = i + 1;
    }
    proof {
        let result = positions(order@);
        assert forall|p: int| 0 <= p < w.len() implies #[trigger] result.contains(p) by {
            assert(order@.contains(p as usize));
            let k = choose|k: int| 0 <= k < order@.len() && order@[k] == p as usize;
            assert(result[k] == p);
        }
        assert forall|j: int, k: int| 0 <= j < k < result.len() implies precedes(
            w,
            #[trigger] result[j],
            #[trigger] result[k],
        ) by {
            assert(precedes(w, order@[j] as int, order@[k] as int));
        }
        assert(is_ranking(w, result));
        lemma_ranking_unique(w, result);
    }
    order
}

} // verus!
