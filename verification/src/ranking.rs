//! Ordering candidates by their scores: higher scores first, equal scores
//! in the order in which the candidates came, candidates without a score
//! left out.

use vstd::prelude::*;

verus! {

/// Position of the first entry of `order`, at or after `p`, whose score is
/// below `s`; the length of `order` if there is none.
pub open spec fn leading(order: Seq<int>, scores: Seq<int>, s: int, p: int) -> int
    decreases order.len() - p,
{
    if 0 <= p < order.len() && scores[order[p]] >= s {
        leading(order, scores, s, p + 1)
    } else {
        p
    }
}

/// The ranking of the first `n` candidates: the positions of those with a
/// positive score, each put behind all that score at least as much.
pub open spec fn ranking(scores: Seq<int>, n: int) -> Seq<int>
    decreases n,
{
    if n <= 0 {
        Seq::empty()
    } else {
        let before = ranking(scores, n - 1);
        if scores[n - 1] > 0 {
            before.insert(leading(before, scores, scores[n - 1], 0), n - 1)
        } else {
            before
        }
    }
}

/// The ranking of all candidates.
pub open spec fn rank(scores: Seq<int>) -> Seq<int> {
    ranking(scores, scores.len() as int)
}

/// `order` lists exactly the candidates below `n` that have a positive
/// score, by falling score and, among equal scores, by rising position.
pub open spec fn is_ranking(order: Seq<int>, scores: Seq<int>, n: int) -> bool {
    &&& forall|k: int|
        0 <= k < order.len() ==> 0 <= (#[trigger] order[k]) < n && scores[order[k]] > 0
    &&& forall|i: int| 0 <= i < n && scores[i] > 0 ==> order.contains(i)
    &&& forall|a: int, b: int|
        0 <= a < b < order.len() ==> scores[#[trigger] order[a]] > scores[#[trigger] order[b]]
            || (scores[order[a]] == scores[order[b]] && order[a] < order[b])
}

/// `leading` passes over scores of at least `s` only, and stops at a
/// score below `s` or at the end.
pub proof fn lemma_leading(order: Seq<int>, scores: Seq<int>, s: int, p: int)
    requires
        0 <= p <= order.len(),
    ensures
        p <= leading(order, scores, s, p) <= order.len(),
        forall|k: int| p <= k < leading(order, scores, s, p) ==> scores[#[trigger] order[k]] >= s,
        leading(order, scores, s, p) < order.len() ==> scores[order[leading(order, scores, s, p)]]
            < s,
    decreases order.len() - p,
{
    if p < order.len() && scores[order[p]] >= s {
        lemma_leading(order, scores, s, p + 1);
    }
}

/// The ranking lists every candidate with a positive score once, higher
/// scores first and equal scores in their first order.
pub proof fn lemma_ranking(scores: Seq<int>, n: int)
    requires
        0 <= n <= scores.len(),
    ensures
        is_ranking(ranking(scores, n), scores, n),
        ranking(scores, n).len() <= n,
    decreases n,
{
    if n > 0 {
        lemma_ranking(scores, n - 1);
        let before = ranking(scores, n - 1);
        let j = n - 1;
        let s = scores[j];
        if s > 0 {
            lemma_leading(before, scores, s, 0);
            let p = leading(before, scores, s, 0);
            let order = before.insert(p, j);
            assert forall|k: int| 0 <= k < order.len() implies 0 <= (#[trigger] order[k]) < n
                && scores[order[k]] > 0 by {
                if k < p {
                    assert(order[k] == before[k]);
                } else if k > p {
                    assert(order[k] == before[k - 1]);
                }
            }
            assert forall|i: int| 0 <= i < n && scores[i] > 0 implies order.contains(i) by {
                if i == j {
                    assert(order[p] == j);
                } else {
                    assert(before.contains(i));
                    let k = choose|k: int| 0 <= k < before.len() && before[k] == i;
                    if k < p {
                        assert(order[k] == i);
                    } else {
                        assert(order[k + 1] == i);
                    }
                }
            }
            assert forall|a: int, b: int| 0 <= a < b < order.len() implies scores[
                #[trigger] order[a]] > scores[#[trigger] order[b]] || (scores[order[a]]
                == scores[order[b]] && order[a] < order[b]) by {
                if b < p {
                    assert(order[a] == before[a] && order[b] == before[b]);
                } else if b == p {
                    assert(order[a] == before[a]);
                    assert(before[a] < j);
                } else if a == p {
                    assert(order[b] == before[b - 1]);
                    if b - 1 > p {
                        assert(scores[before[p]] > scores[before[b - 1]] || (scores[before[p]]
                            == scores[before[b - 1]] && before[p] < before[b - 1]));
                    }
                } else if a < p {
                    assert(order[a] == before[a] && order[b] == before[b - 1]);
                } else {
                    assert(order[a] == before[a - 1] && order[b] == before[b - 1]);
                }
            }
        } else {
            let order = before;
            assert forall|i: int| 0 <= i < n && scores[i] > 0 implies order.contains(i) by {
                assert(i < n - 1);
            }
        }
    }
}

/// Positions as mathematical integers.
pub open spec fn as_ints(v: Seq<usize>) -> Seq<int> {
    v.map_values(|x: usize| x as int)
}

/// Scores as mathematical integers.
pub open spec fn score_ints(v: Seq<u64>) -> Seq<int> {
    v.map_values(|x: u64| x as int)
}

/// Ranks the candidates by their scores.
pub fn rank_scores(scores: &Vec<u64>) -> (order: Vec<usize>)
    ensures
        as_ints(order@) == rank(score_ints(scores@)),
        is_ranking(as_ints(order@), score_ints(scores@), scores.len() as int),
        order.len() <= scores.len(),
{
    let ghost sc = score_ints(scores@);
    let mut order: Vec<usize> = Vec::new();
    let mut j: usize = 0;
    while j < scores.len()
        invariant
            j <= scores.len(),
            sc == score_ints(scores@),
            as_ints(order@) == ranking(sc, j as int),
            order.len() <= j,
            forall|k: int| 0 <= k < order.len() ==> (#[trigger] order[k]) < j,
        decreases scores.len() - j,
    {
        let s = scores[j];
        if s > 0 {
            let mut p: usize = 0;
            while p < order.len() && scores[order[p]] >= s
                invariant
                    p <= order.len(),
                    j < scores.len(),
                    s == scores[j as int],
                    sc == score_ints(scores@),
                    forall|k: int| 0 <= k < order.len() ==> (#[trigger] order[k]) < j,
                    leading(as_ints(order@), sc, s as int, 0) == leading(
                        as_ints(order@),
                        sc,
                        s as int,
                        p as int,
                    ),
                decreases order.len() - p,
            {
                assert(as_ints(order@)[p as int] == order[p as int]);
                assert(sc[order[p as int] as int] == scores[order[p as int] as int]);
                p += 1;
            }
            proof {
                if p < order.len() {
                    assert(as_ints(order@)[p as int] == order[p as int]);
                    assert(sc[order[p as int] as int] == scores[order[p as int] as int]);
                }
                assert(sc[j as int] == s);
                assert(as_ints(order@.insert(p as int, j)) =~= as_ints(order@).insert(
                    p as int,
                    j as int,
                ));
            }
            order.insert(p, j);
        } else {
            assert(sc[j as int] == 0);
        }
        j += 1;
    }
    proof {
        lemma_ranking(sc, scores.len() as int);
    }
    order
}

} // verus!
