//! Confidence filtering and greedy, class-agnostic non-maximum suppression.

use vstd::prelude::*;
use crate::mapper::PixelBox;
use crate::overlap::{
    exceeds_overlap, intersection_area, lemma_disjoint_never_overlap, lemma_overlaps_symmetric,
    overlaps,
};

verus! {

/// A frame-space box together with the score it competes with.
#[derive(Debug, Clone, Copy, PartialEq, Eq, Structural)]
pub struct ScoredBox {
    pub bbox: PixelBox,
    pub score: i64,
}

/// Entry `i` ranks before entry `j`: it has the larger score, or the same
/// score and the smaller index.
pub open spec fn precedes(items: Seq<ScoredBox>, i: int, j: int) -> bool {
    items[i].score > items[j].score || (items[i].score == items[j].score && i < j)
}

/// Entry `i` exists and its score reaches the threshold.
pub open spec fn eligible(items: Seq<ScoredBox>, i: int, score_thresh: int) -> bool {
    0 <= i < items.len() && items[i].score >= score_thresh
}

/// Entries `i` and `j` overlap by more than the threshold. Their classes
/// play no part.
pub open spec fn clash(items: Seq<ScoredBox>, i: int, j: int, nms_thresh: int) -> bool {
    overlaps(items[i].bbox, items[j].bbox, nms_thresh)
}

/// The `k`-th kept entry ranks before entry `i` and overlaps it.
pub open spec fn suppresses(
    kept: Seq<usize>,
    items: Seq<ScoredBox>,
    k: int,
    i: int,
    nms_thresh: int,
) -> bool {
    &&& 0 <= k < kept.len()
    &&& precedes(items, kept[k] as int, i)
    &&& clash(items, kept[k] as int, i, nms_thresh)
}

/// Some kept entry ranks before entry `i` and overlaps it.
pub open spec fn suppressed(
    kept: Seq<usize>,
    items: Seq<ScoredBox>,
    i: int,
    nms_thresh: int,
) -> bool {
    exists|k: int| suppresses(kept, items, k, i, nms_thresh)
}

/// Every kept entry is eligible, the kept entries stand in rank order, and
/// no two of them overlap.
pub open spec fn non_redundant(
    kept: Seq<usize>,
    items: Seq<ScoredBox>,
    score_thresh: int,
    nms_thresh: int,
) -> bool {
    &&& forall|k: int| 0 <= k < kept.len() ==> eligible(items, #[trigger] kept[k] as int, score_thresh)
    &&& forall|k: int, l: int|
        0 <= k < l < kept.len() ==> precedes(items, #[trigger] kept[k] as int, #[trigger] kept[l] as int)
    &&& forall|k: int, l: int|
        0 <= k < l < kept.len() ==> !clash(
            items,
            #[trigger] kept[k] as int,
            #[trigger] kept[l] as int,
            nms_thresh,
        )
}

/// `kept` is the outcome of greedy suppression on `items`: it is
/// non-redundant, and every eligible entry that was not kept is overlapped
/// by a kept entry that ranks before it.
pub open spec fn is_suppression(
    kept: Seq<usize>,
    items: Seq<ScoredBox>,
    score_thresh: int,
    nms_thresh: int,
) -> bool {
    &&& non_redundant(kept, items, score_thresh, nms_thresh)
    &&& forall|i: usize| #[trigger]
        eligible(items, i as int, score_thresh) ==> kept.contains(i) || suppressed(
            kept,
            items,
            i as int,
            nms_thresh,
        )
}

/// Every box is within the range that areas are computed for.
pub open spec fn all_in_range(items: Seq<ScoredBox>) -> bool {
    forall|i: int| 0 <= i < items.len() ==> (#[trigger] items[i]).bbox.in_range()
}

/// In a non-redundant sequence, rank order is position order.
proof fn lemma_rank_is_position(
    kept: Seq<usize>,
    items: Seq<ScoredBox>,
    score_thresh: int,
    nms_thresh: int,
    p: int,
    q: int,
)
    requires
        non_redundant(kept, items, score_thresh, nms_thresh),
        0 <= p < kept.len(),
        0 <= q < kept.len(),
        precedes(items, kept[p] as int, kept[q] as int),
    ensures
        p < q,
{
    if q < p {
        assert(precedes(items, kept[q] as int, kept[p] as int));
    }
}

/// Two outcomes of suppression on the same input agree at every position of
/// the first.
proof fn lemma_outcomes_agree_at(
    a: Seq<usize>,
    b: Seq<usize>,
    items: Seq<ScoredBox>,
    score_thresh: int,
    nms_thresh: int,
    k: int,
)
    requires
        is_suppression(a, items, score_thresh, nms_thresh),
        is_suppression(b, items, score_thresh, nms_thresh),
        0 <= k < a.len(),
    ensures
        k < b.len(),
        a[k] == b[k],
    decreases k,
{
    let st = score_thresh;
    let nt = nms_thresh;
    assert forall|j: int| 0 <= j < k implies j < b.len() && a[j] == b[j] by {
        lemma_outcomes_agree_at(a, b, items, st, nt, j);
    }
    let x = a[k];
    assert(eligible(items, x as int, st));
    if !b.contains(x) {
        // Some b[m] ranks before x and overlaps it.
        let m = choose|m: int| suppresses(b, items, m, x as int, nt);
        let y = b[m];
        if m < k {
            // Then b[m] is a[m], which a keeps together with x.
            assert(!clash(items, a[m] as int, a[k] as int, nt));
        } else if a.contains(y) {
            // Then y stands before x in a, so it is also b[p] with p < m.
            let p = choose|p: int| 0 <= p < a.len() && a[p] == y;
            lemma_rank_is_position(a, items, st, nt, p, k);
            assert(precedes(items, b[p] as int, b[m] as int));
        } else {
            // Then some a[n] before x overlaps y, and b keeps both.
            assert(eligible(items, y as int, st));
            let n = choose|n: int| suppresses(a, items, n, y as int, nt);
            lemma_rank_is_position(a, items, st, nt, n, k);
            assert(!clash(items, b[n] as int, b[m] as int, nt));
        }
        assert(false);
    }
    let m = choose|m: int| 0 <= m < b.len() && b[m] == x;
    if m < k {
        // Then x is a[m] as well, twice in a.
        assert(precedes(items, a[m] as int, a[k] as int));
        assert(false);
    } else if m > k {
        // Then y = b[k] ranks before x without being a[k].
        let y = b[k];
        assert(precedes(items, b[k] as int, b[m] as int));
        if a.contains(y) {
            let p = choose|p: int| 0 <= p < a.len() && a[p] == y;
            lemma_rank_is_position(a, items, st, nt, p, k);
            assert(precedes(items, b[p] as int, b[k] as int));
        } else {
            assert(eligible(items, y as int, st));
            let n = choose|n: int| suppresses(a, items, n, y as int, nt);
            lemma_rank_is_position(a, items, st, nt, n, k);
            assert(!clash(items, b[n] as int, b[k] as int, nt));
        }
        assert(false);
    }
}

/// Suppression has one outcome: two sequences that both meet
/// `is_suppression` for the same input are equal.
pub proof fn lemma_suppression_unique(
    a: Seq<usize>,
    b: Seq<usize>,
    items: Seq<ScoredBox>,
    score_thresh: int,
    nms_thresh: int,
)
    requires
        is_suppression(a, items, score_thresh, nms_thresh),
        is_suppression(b, items, score_thresh, nms_thresh),
    ensures
        a == b,
{
    if a.len() > 0 {
        lemma_outcomes_agree_at(a, b, items, score_thresh, nms_thresh, a.len() - 1);
    }
    if b.len() > 0 {
        lemma_outcomes_agree_at(b, a, items, score_thresh, nms_thresh, b.len() - 1);
    }
    assert forall|k: int| 0 <= k < a.len() implies a[k] == b[k] by {
        lemma_outcomes_agree_at(a, b, items, score_thresh, nms_thresh, k);
    }
}

/// The kept scores descend.
pub proof fn lemma_kept_scores_descend(
    kept: Seq<usize>,
    items: Seq<ScoredBox>,
    score_thresh: int,
    nms_thresh: int,
    k: int,
    l: int,
)
    requires
        non_redundant(kept, items, score_thresh, nms_thresh),
        0 <= k <= l < kept.len(),
    ensures
        items[kept[k] as int].score >= items[kept[l] as int].score,
{
    if k < l {
        assert(precedes(items, kept[k] as int, kept[l] as int));
    }
}

/// No index is kept twice.
pub proof fn lemma_kept_distinct(
    kept: Seq<usize>,
    items: Seq<ScoredBox>,
    score_thresh: int,
    nms_thresh: int,
    k: int,
    l: int,
)
    requires
        non_redundant(kept, items, score_thresh, nms_thresh),
        0 <= k < l < kept.len(),
    ensures
        kept[k] != kept[l],
{
}

/// Nothing in, nothing out.
pub proof fn lemma_suppression_of_nothing(
    kept: Seq<usize>,
    items: Seq<ScoredBox>,
    score_thresh: int,
    nms_thresh: int,
)
    requires
        is_suppression(kept, items, score_thresh, nms_thresh),
        items.len() == 0,
    ensures
        kept.len() == 0,
{
    if kept.len() > 0 {
        assert(eligible(items, kept[0] as int, score_thresh));
    }
}

/// Of two eligible boxes that overlap by more than the threshold, only the
/// one that ranks first is kept.
pub proof fn lemma_pair_overlapping(
    kept: Seq<usize>,
    items: Seq<ScoredBox>,
    score_thresh: int,
    nms_thresh: int,
)
    requires
        is_suppression(kept, items, score_thresh, nms_thresh),
        items.len() == 2,
        items[0].score >= score_thresh,
        items[1].score >= score_thresh,
        clash(items, 0, 1, nms_thresh),
    ensures
        kept == seq![(if items[1].score > items[0].score { 1usize } else { 0usize })],
{
    let hi: usize = if items[1].score > items[0].score { 1 } else { 0 };
    let want = seq![hi];
    lemma_overlaps_symmetric(items[0].bbox, items[1].bbox, nms_thresh);
    assert forall|i: usize| #[trigger] eligible(items, i as int, score_thresh) implies want.contains(i)
        || suppressed(want, items, i as int, nms_thresh) by {
        if i == hi {
            assert(want[0] == i);
        } else {
            assert(suppresses(want, items, 0, i as int, nms_thresh));
        }
    }
    lemma_suppression_unique(kept, want, items, score_thresh, nms_thresh);
}

/// Two eligible boxes that share no area are both kept, whatever their
/// scores, the one that ranks first in front.
pub proof fn lemma_pair_disjoint(
    kept: Seq<usize>,
    items: Seq<ScoredBox>,
    score_thresh: int,
    nms_thresh: int,
)
    requires
        is_suppression(kept, items, score_thresh, nms_thresh),
        items.len() == 2,
        items[0].score >= score_thresh,
        items[1].score >= score_thresh,
        intersection_area(items[0].bbox, items[1].bbox) == 0,
        nms_thresh >= 0,
    ensures
        kept == (if items[1].score > items[0].score {
            seq![1usize, 0usize]
        } else {
            seq![0usize, 1usize]
        }),
{
    let hi: usize = if items[1].score > items[0].score { 1 } else { 0 };
    let lo: usize = (1 - hi) as usize;
    let want = seq![hi, lo];
    lemma_disjoint_never_overlap(items[0].bbox, items[1].bbox, nms_thresh);
    lemma_overlaps_symmetric(items[0].bbox, items[1].bbox, nms_thresh);
    assert forall|i: usize| #[trigger] eligible(items, i as int, score_thresh) implies want.contains(i)
        || suppressed(want, items, i as int, nms_thresh) by {
        if i == hi {
            assert(want[0] == i);
        } else {
            assert(want[1] == i);
        }
    }
    lemma_suppression_unique(kept, want, items, score_thresh, nms_thresh);
}

/// Whether every box is within the range that areas are computed for.
pub fn boxes_in_range(items: &Vec<ScoredBox>) -> (b: bool)
    ensures
        b == all_in_range(items@),
{
    let mut i: usize = 0;
    while i < items.len()
        invariant
            i <= items@.len(),
            forall|j: int| 0 <= j < i ==> (#[trigger] items@[j]).bbox.in_range(),
        decreases items@.len() - i,
    {
        if !items[i].bbox.is_in_range() {
            return false;
        }
        i += 1;
    }
    true
}

/// Whether entry `i` ranks before entry `j`.
fn ranks_before(items: &Vec<ScoredBox>, i: usize, j: usize) -> (b: bool)
    requires
        i < items.len(),
        j < items.len(),
    ensures
        b == precedes(items@, i as int, j as int),
{
    items[i].score > items[j].score || (items[i].score == items[j].score && i < j)
}

/// The indices of the entries whose score reaches the threshold, ascending.
fn eligible_indices(items: &Vec<ScoredBox>, score_thresh: i64) -> (work: Vec<usize>)
    ensures
        forall|t: int| 0 <= t < work@.len() ==> eligible(items@, #[trigger] work@[t] as int, score_thresh as int),
        forall|i: usize| #[trigger]
            eligible(items@, i as int, score_thresh as int) ==> work@.contains(i),
{
    let mut work: Vec<usize> = Vec::new();
    let mut i: usize = 0;
    while i < items.len()
        invariant
            i <= items.len(),
            forall|t: int|
                0 <= t < work@.len() ==> eligible(items@, #[trigger] work@[t] as int, score_thresh as int),
            forall|j: usize|
                j < i && #[trigger] eligible(items@, j as int, score_thresh as int) ==> work@.contains(
                    j,
                ),
        decreases items.len() - i,
    {
        if items[i].score >= score_thresh {
            let ghost before = work@;
            work.push(i);
            assert(work@[before.len() as int] == i);
            assert forall|j: usize|
                j < i + 1 && #[trigger] eligible(items@, j as int, score_thresh as int) implies work@.contains(
                j,
            ) by {
                if j < i {
                    let t = choose|t: int| 0 <= t < before.len() && before[t] == j;
                    assert(work@[t] == j);
                }
            }
        }
        i += 1;
    }
    work
}

/// Position in `work` of the entry that ranks before all others in it.
fn best_position(items: &Vec<ScoredBox>, work: &Vec<usize>) -> (pos: usize)
    requires
        work@.len() > 0,
        forall|t: int| 0 <= t < work@.len() ==> (#[trigger] work@[t]) < items@.len(),
    ensures
        pos < work@.len(),
        forall|t: int|
            0 <= t < work@.len() ==> (#[trigger] work@[t]) == work@[pos as int] || precedes(
                items@,
                work@[pos as int] as int,
                work@[t] as int,
            ),
{
    let mut pos: usize = 0;
    let mut t: usize = 1;
    while t < work.len()
        invariant
            1 <= t <= work@.len(),
            pos < t,
            forall|u: int| 0 <= u < work@.len() ==> (#[trigger] work@[u]) < items@.len(),
            forall|u: int|
                0 <= u < t ==> (#[trigger] work@[u]) == work@[pos as int] || precedes(
                    items@,
                    work@[pos as int] as int,
                    work@[u] as int,
                ),
        decreases work@.len() - t,
    {
        if ranks_before(items, work[t], work[pos]) {
            pos = t;
        }
        t += 1;
    }
    pos
}

/// Greedy non-maximum suppression over one pool of boxes.
///
/// Entries whose score is below `score_thresh` are discarded. Of the rest,
/// the highest-ranking entry is kept and every entry that overlaps it by more
/// than `nms_thresh / UNIT` is removed, and so on until none is left. Returns
/// the indices of the kept entries in rank order: by descending score, equal
/// scores by ascending index.
pub fn suppress(items: &Vec<ScoredBox>, score_thresh: i64, nms_thresh: i32) -> (kept: Vec<usize>)
    requires
        all_in_range(items@),
    ensures
        is_suppression(kept@, items@, score_thresh as int, nms_thresh as int),
{
    let ghost st = score_thresh as int;
    let ghost nt = nms_thresh as int;
    let mut kept: Vec<usize> = Vec::new();
    let mut work: Vec<usize> = eligible_indices(items, score_thresh);
    while work.len() > 0
        invariant
            all_in_range(items@),
            st == score_thresh,
            nt == nms_thresh,
            non_redundant(kept@, items@, st, nt),
            forall|t: int| 0 <= t < work@.len() ==> eligible(items@, #[trigger] work@[t] as int, st),
            forall|t: int, k: int|
                0 <= t < work@.len() && 0 <= k < kept@.len() ==> precedes(
                    items@,
                    #[trigger] kept@[k] as int,
                    #[trigger] work@[t] as int,
                ) && !clash(items@, kept@[k] as int, work@[t] as int, nt),
            forall|i: usize| #[trigger]
                eligible(items@, i as int, st) ==> work@.contains(i) || kept@.contains(i)
                    || suppressed(kept@, items@, i as int, nt),
        decreases work@.len(),
    {
        let pos: usize = best_position(items, &work);
        let best: usize = work[pos];
        let ghost old_kept = kept@;
        let ghost old_work = work@;
        kept.push(best);
        let mut next: Vec<usize> = Vec::new();
        let mut t: usize = 0;
        while t < work.len()
            invariant
                all_in_range(items@),
                t <= work@.len(),
                work@ == old_work,
                pos < work@.len(),
                best == work@[pos as int],
                best < items@.len(),
                nt == nms_thresh,
                forall|u: int| 0 <= u < work@.len() ==> (#[trigger] work@[u]) < items@.len(),
                next@.len() <= t,
                t > pos ==> next@.len() < t,
                forall|u: int|
                    0 <= u < next@.len() ==> old_work.contains(#[trigger] next@[u]) && next@[u] != best
                        && !clash(items@, best as int, next@[u] as int, nt),
                forall|u: int|
                    0 <= u < t ==> next@.contains(#[trigger] work@[u]) || work@[u] == best || clash(
                        items@,
                        best as int,
                        work@[u] as int,
                        nt,
                    ),
            decreases work@.len() - t,
        {
            let other: usize = work[t];
            if other != best && !exceeds_overlap(&items[best].bbox, &items[other].bbox, nms_thresh) {
                let ghost before = next@;
                next.push(other);
                proof {
                    assert(next@[before.len() as int] == other);
                    assert forall|u: int| 0 <= u < t + 1 implies next@.contains(#[trigger] work@[u])
                        || work@[u] == best || clash(items@, best as int, work@[u] as int, nt) by {
                        if u < t && before.contains(work@[u]) {
                            let v = choose|v: int| 0 <= v < before.len() && before[v] == work@[u];
                            assert(next@[v] == work@[u]);
                        }
                    }
                }
            }
            t += 1;
        }
        proof {
            let last = old_kept.len() as int;
            assert forall|i: usize| #[trigger] eligible(items@, i as int, st) implies next@.contains(i)
                || kept@.contains(i) || suppressed(kept@, items@, i as int, nt) by {
                if old_work.contains(i) {
                    if i == best {
                        assert(kept@[last] == i);
                    } else if !next@.contains(i) {
                        assert(suppresses(kept@, items@, last, i as int, nt));
                    }
                } else if old_kept.contains(i) {
                    let k = choose|k: int| 0 <= k < old_kept.len() && old_kept[k] == i;
                    assert(kept@[k] == i);
                } else {
                    let k = choose|k: int| suppresses(old_kept, items@, k, i as int, nt);
                    assert(suppresses(kept@, items@, k, i as int, nt));
                }
            }
        }
        work = next;
    }
    kept
}

} // verus!
