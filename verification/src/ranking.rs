//! Ranking by score: the best first, and of two with the same score the one
//! that came first.
use vstd::prelude::*;

verus! {

/// Position `a` ranks before position `b`: it has the higher score, or the
/// same score and the earlier place.
pub open spec fn ranks_before(scores: Seq<usize>, a: int, b: int) -> bool {
    scores[a] > scores[b] || (scores[a] == scores[b] && a < b)
}

/// `ranking` lists the best `limit` positions of `scores`, or all of them
/// where there are fewer: each listed position ranks before those that the
/// list has after it, and before every position that the list leaves out.
pub open spec fn is_ranking(ranking: Seq<usize>, scores: Seq<usize>, limit: nat) -> bool {
    &&& ranking.len() == if limit < scores.len() {
        limit
    } else {
        scores.len()
    }
    &&& forall|i: int| 0 <= i < ranking.len() ==> (#[trigger] ranking[i]) < scores.len()
    &&& forall|i: int, j: int|
        0 <= i < j < ranking.len() ==> ranks_before(
            scores,
            #[trigger] ranking[i] as int,
            #[trigger] ranking[j] as int,
        )
    &&& forall|i: int, p: int|
        0 <= i < ranking.len() && 0 <= p < scores.len() && !ranking.contains(p as usize)
            ==> #[trigger] ranks_before(scores, ranking[i] as int, p)
}

/// `sorted` holds each of the first `count` positions, best first.
spec fn is_sorted_prefix(sorted: Seq<usize>, scores: Seq<usize>, count: int) -> bool {
    &&& sorted.len() == count
    &&& forall|i: int| 0 <= i < sorted.len() ==> (#[trigger] sorted[i]) < count
    &&& forall|i: int, j: int|
        0 <= i < j < sorted.len() ==> ranks_before(
            scores,
            #[trigger] sorted[i] as int,
            #[trigger] sorted[j] as int,
        )
    &&& forall|p: int| 0 <= p < count ==> sorted.contains(#[trigger] (p as usize))
}

/// The best `limit` positions of `scores`, best first.
pub fn rank(scores: &Vec<usize>, limit: usize) -> (ranking: Vec<usize>)
    ensures
        is_ranking(ranking@, scores@, limit as nat),
{
    let mut sorted: Vec<usize> = Vec::new();
    let mut p: usize = 0;
    while p < scores.len()
        invariant
            p <= scores@.len(),
            is_sorted_prefix(sorted@, scores@, p as int),
        decreases scores@.len() - p,
    {
        let score = scores[p];
        let mut k: usize = 0;
        while k < sorted.len() && scores[sorted[k]] >= score
            invariant
                k <= sorted@.len(),
                p < scores@.len(),
                score == scores@[p as int],
                is_sorted_prefix(sorted@, scores@, p as int),
                forall|i: int| 0 <= i < k ==> scores@[(#[trigger] sorted@[i]) as int] >= score,
            decreases sorted@.len() - k,
        {
            k += 1;
        }
        let ghost before = sorted@;
        sorted.insert(k, p);
        proof {
            let after = sorted@;
            assert(after == before.insert(k as int, p));
            assert forall|i: int| 0 <= i < after.len() implies (#[trigger] after[i]) < p + 1 by {
                if i < k {
                    assert(after[i] == before[i]);
                } else if i > k {
                    assert(after[i] == before[i - 1]);
                }
            }
            assert forall|i: int, j: int| 0 <= i < j < after.len() implies ranks_before(
                scores@,
                #[trigger] after[i] as int,
                #[trigger] after[j] as int,
            ) by {
                if j < k {
                    assert(after[i] == before[i] && after[j] == before[j]);
                } else if j == k {
                    assert(after[i] == before[i]);
                } else if i == k {
                    assert(after[j] == before[j - 1]);
                    if j - 1 > k {
                        assert(ranks_before(scores@, before[k as int] as int, before[j - 1] as int));
                    }
                } else if i < k {
                    assert(after[i] == before[i] && after[j] == before[j - 1]);
                } else {
                    assert(after[i] == before[i - 1] && after[j] == before[j - 1]);
                }
            }
            assert forall|q: int| 0 <= q < p + 1 implies after.contains(#[trigger] (q as usize)) by {
                if q == p {
                    assert(after[k as int] == p);
                } else {
                    assert(before.contains(q as usize));
                    let at = choose|at: int| 0 <= at < before.len() && before[at] == q as usize;
                    if at < k {
                        assert(after[at] == q as usize);
                    } else {
                        assert(after[at + 1] == q as usize);
                    }
                }
            }
        }
        p += 1;
    }
    let ghost full = sorted@;
    sorted.truncate(limit);
    proof {
        let kept = sorted@;
        assert forall|i: int, q: int|
            0 <= i < kept.len() && 0 <= q < scores@.len() && !kept.contains(
                q as usize,
            ) implies #[trigger] ranks_before(scores@, kept[i] as int, q) by {
            assert(full.contains(q as usize));
            let at = choose|at: int| 0 <= at < full.len() && full[at] == q as usize;
            if at < kept.len() {
                assert(kept[at] == q as usize);
            }
            assert(kept[i] == full[i]);
            assert(ranks_before(scores@, full[i] as int, full[at] as int));
        }
        assert forall|i: int, j: int| 0 <= i < j < kept.len() implies ranks_before(
            scores@,
            #[trigger] kept[i] as int,
            #[trigger] kept[j] as int,
        ) by {
            assert(kept[i] == full[i] && kept[j] == full[j]);
        }
        assert forall|i: int| 0 <= i < kept.len() implies (#[trigger] kept[i]) < scores@.len() by {
            assert(kept[i] == full[i]);
        }
    }
    sorted
}

} // verus!
