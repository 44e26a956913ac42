//! The bulk spatial join: index one column's bounding boxes, probe with the
//! other, and refine candidate pairs through a pairwise predicate.
//!
//! The result is grouped by ascending right-row index; within one right row,
//! candidates follow the index's entry order, which for a bulk-loaded index
//! is ascending left-row order.  Null rows on either side never join.  With
//! the box-only predicate the result is exactly the candidate set; any other
//! predicate is evaluated through a caller-supplied pairwise test (a
//! prepared-geometry test, in practice), whose verdicts select a sub-run of
//! the candidates.  The first failing evaluation aborts the whole join.

use vstd::prelude::*;
use crate::bbox::{BBox, spec_intersects};
use crate::index::{SpatialIndex, spec_entries_of, spec_matches, lemma_entries_of_sound,
    lemma_entries_of_complete, lemma_matches_complete, lemma_matches_element,
    lemma_entries_rows_ascending, lemma_matches_ascending, IndexEntry};

verus! {

/// The pairwise tests a join can refine candidates with.  The box-only
/// variant accepts every candidate outright.
#[derive(Clone, Copy, Debug, PartialEq, Eq, Structural)]
pub enum JoinPredicate {
    IntersectsBbox,
    Intersects,
    Within,
    Contains,
    Overlaps,
    Crosses,
    Touches,
    Covers,
    CoveredBy,
    ContainsProperly,
}

/// A join result: two equal-length runs of row indices, pair `i` joining
/// left row `left[i]` to right row `right[i]`.
#[derive(Debug)]
pub struct MatchPairs {
    pub left: Vec<usize>,
    pub right: Vec<usize>,
}

impl MatchPairs {
    pub open spec fn wf(self) -> bool {
        self.left@.len() == self.right@.len()
    }

    /// The result as a sequence of (left row, right row) pairs.
    pub open spec fn pairs(self) -> Seq<(usize, usize)> {
        spec_zip(self.left@, self.right@)
    }

    /// How many pairs the result holds.
    pub fn len(&self) -> (n: usize)
        requires
            self.wf(),
        ensures
            n == self.pairs().len(),
    {
        self.left.len()
    }
}

/// Two index runs zipped into pairs.
pub open spec fn spec_zip(lv: Seq<usize>, rv: Seq<usize>) -> Seq<(usize, usize)> {
    Seq::new(lv.len(), |i: int| (lv[i], rv[i]))
}

/// Whether rows `l` and `rr` are a candidate pair: both present, boxes
/// intersecting.
pub open spec fn spec_is_candidate(
    left: Seq<Option<BBox>>,
    right: Seq<Option<BBox>>,
    l: usize,
    rr: usize,
) -> bool {
    &&& l < left.len()
    &&& rr < right.len()
    &&& left[l as int] is Some
    &&& right[rr as int] is Some
    &&& spec_intersects(left[l as int]->Some_0, right[rr as int]->Some_0)
}

/// Rows paired with one fixed right row.
pub open spec fn spec_pair_up(rows: Seq<usize>, rr: usize) -> Seq<(usize, usize)> {
    Seq::new(rows.len(), |k: int| (rows[k], rr))
}

/// The candidate pairs of the right rows before `r`: for each present right
/// row in ascending order, the indexed left rows whose box intersects it,
/// in entry order.
pub open spec fn spec_candidates_upto(
    left: Seq<Option<BBox>>,
    right: Seq<Option<BBox>>,
    r: int,
) -> Seq<(usize, usize)>
    decreases r,
{
    if r <= 0 {
        Seq::empty()
    } else {
        spec_candidates_upto(left, right, r - 1) + (match right[r - 1] {
            Some(q) => spec_pair_up(spec_matches(spec_entries_of(left), q), (r - 1) as usize),
            None => Seq::empty(),
        })
    }
}

/// All candidate pairs of two columns.
pub open spec fn spec_candidates(left: Seq<Option<BBox>>, right: Seq<Option<BBox>>) -> Seq<
    (usize, usize),
> {
    spec_candidates_upto(left, right, right.len() as int)
}

/// The candidates selected by a run of verdicts, one per candidate.
pub open spec fn spec_mask_filter(cand: Seq<(usize, usize)>, mask: Seq<bool>) -> Seq<
    (usize, usize),
>
    decreases cand.len(),
{
    if cand.len() == 0 {
        Seq::empty()
    } else {
        spec_mask_filter(cand.drop_last(), mask.drop_last()) + (if mask.last() {
            seq![cand.last()]
        } else {
            Seq::empty()
        })
    }
}

/// Whether `mask` records, candidate by candidate, a verdict the pairwise
/// test can return for that pair.
pub open spec fn spec_verdicts_match<E, F: Fn(usize, usize) -> Result<bool, E>>(
    eval: F,
    cand: Seq<(usize, usize)>,
    mask: Seq<bool>,
) -> bool {
    &&& mask.len() == cand.len()
    &&& forall|i: int|
        0 <= i < cand.len() ==> call_ensures(eval, ((#[trigger] cand[i]).0, cand[i].1), Ok::<
            bool,
            E,
        >(mask[i]))
}

/// Filtering one more candidate appends its pair exactly when its verdict
/// is positive.
proof fn lemma_mask_filter_push(cand: Seq<(usize, usize)>, mask: Seq<bool>, p: (usize, usize),
    b: bool)
    ensures
        spec_mask_filter(cand.push(p), mask.push(b)) == spec_mask_filter(cand, mask) + (if b {
            seq![p]
        } else {
            Seq::<(usize, usize)>::empty()
        }),
{
    let cp = cand.push(p);
    let mp = mask.push(b);
    assert(cp.drop_last() =~= cand);
    assert(mp.drop_last() =~= mask);
    assert(cp.last() == p);
    assert(mp.last() == b);
}

/// The spatial join of two columns of bounding boxes under a pairwise
/// predicate.
///
/// The index is bulk-loaded from the left column's present rows; right rows
/// are probed in ascending order, so the result is grouped by ascending
/// right row, each group in the index's entry order (ascending left row).
/// With the box-only predicate the result is exactly the candidate set.
/// With any other predicate, `eval` is consulted once per candidate pair in
/// that order; its positive verdicts select the result, and its first
/// failure aborts the join with that failure.  An empty or all-null column
/// on either side yields an empty result.
pub fn spatial_join<E, F: Fn(usize, usize) -> Result<bool, E>>(
    left: &Vec<Option<BBox>>,
    right: &Vec<Option<BBox>>,
    predicate: JoinPredicate,
    eval: &F,
) -> (r: Result<MatchPairs, E>)
    requires
        predicate != JoinPredicate::IntersectsBbox ==> forall|l: usize, rr: usize|
            #[trigger] spec_is_candidate(left@, right@, l, rr) ==> call_requires(*eval, (l, rr)),
    ensures
        match r {
            Ok(mp) => {
                &&& mp.wf()
                &&& predicate == JoinPredicate::IntersectsBbox ==> mp.pairs() == spec_candidates(
                    left@, right@)
                &&& predicate != JoinPredicate::IntersectsBbox ==> exists|mask: Seq<bool>|
                    #[trigger] spec_verdicts_match(*eval, spec_candidates(left@, right@), mask)
                        && mp.pairs() == spec_mask_filter(spec_candidates(left@, right@), mask)
            },
            Err(e) => {
                &&& predicate != JoinPredicate::IntersectsBbox
                &&& exists|l: usize, rr: usize|
                    #[trigger] spec_is_candidate(left@, right@, l, rr) && call_ensures(*eval, (l,
                        rr), Err::<bool, E>(e))
            },
        },
{
    let nl = left.len();
    proof {
        assert(left@.len() == nl);
    }
    let idx = SpatialIndex::build(left);
    let bbox_only = predicate == JoinPredicate::IntersectsBbox;
    let mut lv: Vec<usize> = Vec::new();
    let mut rv: Vec<usize> = Vec::new();
    let ghost mut mask: Seq<bool> = Seq::empty();
    let nr = right.len();
    let mut rr: usize = 0;
    while rr < nr
        invariant
            idx.wf(),
            idx.entries() == spec_entries_of(left@),
            left@.len() <= usize::MAX,
            nr == right@.len(),
            0 <= rr <= nr,
            lv@.len() == rv@.len(),
            bbox_only == (predicate == JoinPredicate::IntersectsBbox),
            predicate != JoinPredicate::IntersectsBbox ==> forall|l: usize, r2: usize|
                #[trigger] spec_is_candidate(left@, right@, l, r2) ==> call_requires(*eval, (l,
                    r2)),
            bbox_only ==> spec_zip(lv@, rv@) == spec_candidates_upto(left@, right@, rr as int),
            !bbox_only ==> {
                &&& mask.len() == spec_candidates_upto(left@, right@, rr as int).len()
                &&& spec_zip(lv@, rv@) == spec_mask_filter(spec_candidates_upto(left@, right@,
                    rr as int), mask)
                &&& forall|i: int|
                    0 <= i < mask.len() ==> call_ensures(*eval, ((#[trigger] spec_candidates_upto(
                        left@, right@, rr as int)[i]).0, spec_candidates_upto(left@, right@,
                        rr as int)[i].1), Ok::<bool, E>(mask[i]))
            },
        decreases nr - rr,
    {
        let ghost cand_before = spec_candidates_upto(left@, right@, rr as int);
        match &right[rr] {
            None => {
                proof {
                    assert(spec_candidates_upto(left@, right@, rr + 1) =~= cand_before);
                }
            },
            Some(q) => {
                let rows = idx.query(q);
                let ghost group = spec_pair_up(rows@, rr);
                let ghost es = spec_entries_of(left@);
                let nk = rows.len();
                let mut k: usize = 0;
                while k < nk
                    invariant
                        idx.wf(),
                        idx.entries() == spec_entries_of(left@),
                        es == spec_entries_of(left@),
                        left@.len() <= usize::MAX,
                        nr == right@.len(),
                        0 <= rr < nr,
                        right@[rr as int] is Some,
                        rows@ == spec_matches(es, right@[rr as int]->Some_0),
                        group == spec_pair_up(rows@, rr),
                        nk == rows@.len(),
                        0 <= k <= nk,
                        lv@.len() == rv@.len(),
                        bbox_only == (predicate == JoinPredicate::IntersectsBbox),
                        cand_before == spec_candidates_upto(left@, right@, rr as int),
                        predicate != JoinPredicate::IntersectsBbox ==> forall|l: usize, r2: usize|
                            #[trigger] spec_is_candidate(left@, right@, l, r2) ==> call_requires(
                                *eval, (l, r2)),
                        bbox_only ==> spec_zip(lv@, rv@) == cand_before + group.subrange(0,
                            k as int),
                        !bbox_only ==> {
                            &&& mask.len() == cand_before.len() + k
                            &&& spec_zip(lv@, rv@) == spec_mask_filter(cand_before
                                + group.subrange(0, k as int), mask)
                            &&& forall|i: int|
                                0 <= i < mask.len() ==> call_ensures(*eval, ((#[trigger] (
                                cand_before + group.subrange(0, k as int))[i]).0, (cand_before
                                    + group.subrange(0, k as int))[i].1, ), Ok::<bool, E>(mask[i]))
                        },
                    decreases nk - k,
                {
                    let l = rows[k];
                    proof {
                        lemma_matches_element(es, right@[rr as int]->Some_0, k as int);
                        let j = choose|j: int|
                            0 <= j < es.len() && (#[trigger] es[j]).row == rows@[k as int]
                                && spec_intersects(es[j].bbox, right@[rr as int]->Some_0);
                        lemma_entries_of_sound(left@, j);
                        assert(spec_is_candidate(left@, right@, l, rr));
                    }
                    let ghost cand_mid = cand_before + group.subrange(0, k as int);
                    let ghost pair = (l, rr);
                    proof {
                        assert(group[k as int] == pair);
                        assert(group.subrange(0, k as int + 1) =~= group.subrange(0, k as int).push(
                        pair));
                        assert(cand_before + group.subrange(0, k as int + 1) =~= cand_mid.push(
                        pair));
                    }
                    if bbox_only {
                        lv.push(l);
                        rv.push(rr);
                        proof {
                            assert(spec_zip(lv@, rv@) =~= cand_mid.push(pair));
                        }
                    } else {
                        match eval(l, rr) {
                            Ok(verdict) => {
                                proof {
                                    lemma_mask_filter_push(cand_mid, mask, pair, verdict);
                                }
                                if verdict {
                                    lv.push(l);
                                    rv.push(rr);
                                    proof {
                                        assert(spec_zip(lv@, rv@) =~= spec_mask_filter(cand_mid,
                                            mask).push(pair));
                                        assert(spec_mask_filter(cand_mid, mask) + seq![pair]
                                            =~= spec_mask_filter(cand_mid, mask).push(pair));
                                    }
                                } else {
                                    proof {
                                        assert(spec_mask_filter(cand_mid, mask) + Seq::<(
                                            usize,
                                            usize,
                                        )>::empty() =~= spec_mask_filter(cand_mid, mask));
                                    }
                                }
                                proof {
                                    let old_mask = mask;
                                    mask = mask.push(verdict);
                                    assert(forall|i: int|
                                        0 <= i < old_mask.len() ==> (#[trigger] (cand_mid.push(
                                        pair))[i]) == cand_mid[i]);
                                    assert((cand_mid.push(pair))[cand_mid.len() as int] == pair);
                                    assert(forall|i: int|
                                        0 <= i < old_mask.len() ==> mask[i] == old_mask[i]);
                                    assert(mask[old_mask.len() as int] == verdict);
                                }
                            },
                            Err(e) => {
                                proof {
                                    assert(spec_is_candidate(left@, right@, l, rr));
                                }
                                return Err(e);
                            },
                        }
                    }
                    k = k + 1;
                }
                proof {
                    assert(group.subrange(0, nk as int) =~= group);
                    assert(spec_candidates_upto(left@, right@, rr + 1) =~= cand_before + group);
                }
            },
        }
        rr = rr + 1;
    }
    proof {
        assert(spec_candidates_upto(left@, right@, nr as int) == spec_candidates(left@, right@));
    }
    let mp = MatchPairs { left: lv, right: rv };
    proof {
        if predicate != JoinPredicate::IntersectsBbox {
            let cand = spec_candidates(left@, right@);
            assert(spec_verdicts_match(*eval, cand, mask) && mp.pairs() == spec_mask_filter(cand,
                mask));
        }
    }
    Ok(mp)
}

/// The candidate sequence is strictly lexicographic in (right row, left
/// row): grouped by ascending right row and, within one group, ascending
/// left row.  In particular no pair appears twice: the join result is
/// fully determined.
pub proof fn lemma_candidates_lexicographic(
    left: Seq<Option<BBox>>,
    right: Seq<Option<BBox>>,
    i: int,
    j: int,
)
    requires
        left.len() <= usize::MAX,
        right.len() <= usize::MAX,
        0 <= i < j < spec_candidates(left, right).len(),
    ensures
        spec_candidates(left, right)[i].1 < spec_candidates(left, right)[j].1 || (spec_candidates(
            left, right)[i].1 == spec_candidates(left, right)[j].1 && spec_candidates(left,
            right)[i].0 < spec_candidates(left, right)[j].0),
{
    lemma_candidates_lex_upto(left, right, right.len() as int, i, j);
}

proof fn lemma_candidates_lex_upto(
    left: Seq<Option<BBox>>,
    right: Seq<Option<BBox>>,
    r: int,
    i: int,
    j: int,
)
    requires
        left.len() <= usize::MAX,
        r <= usize::MAX,
        0 <= i < j < spec_candidates_upto(left, right, r).len(),
    ensures
        spec_candidates_upto(left, right, r)[i].1 < spec_candidates_upto(left, right, r)[j].1 || (
        spec_candidates_upto(left, right, r)[i].1 == spec_candidates_upto(left, right, r)[j].1
            && spec_candidates_upto(left, right, r)[i].0 < spec_candidates_upto(left, right,
        r)[j].0),
    decreases r,
{
    if r <= 0 {
    } else {
        let front = spec_candidates_upto(left, right, r - 1);
        if j < front.len() {
            lemma_candidates_lex_upto(left, right, r - 1, i, j);
            assert(spec_candidates_upto(left, right, r)[i] == front[i]);
            assert(spec_candidates_upto(left, right, r)[j] == front[j]);
        } else {
            match right[r - 1] {
                Some(q) => {
                    let es = spec_entries_of(left);
                    let m = spec_matches(es, q);
                    let group = spec_pair_up(m, (r - 1) as usize);
                    assert(spec_candidates_upto(left, right, r)[j] == group[j - front.len()]);
                    assert(group[j - front.len()].1 == (r - 1) as usize);
                    if i < front.len() {
                        lemma_candidates_upto_right_bounds(left, right, r - 1, i);
                        assert(spec_candidates_upto(left, right, r)[i] == front[i]);
                    } else {
                        assert(spec_candidates_upto(left, right, r)[i] == group[i - front.len()]);
                        assert(group[i - front.len()].1 == (r - 1) as usize);
                        assert(group[i - front.len()].0 == m[i - front.len()]);
                        assert(group[j - front.len()].0 == m[j - front.len()]);
                        assert forall|a: int, b: int|
                            0 <= a < b < es.len() implies (#[trigger] es[a]).row < (
                        #[trigger] es[b]).row by {
                            lemma_entries_rows_ascending(left, a, b);
                        }
                        lemma_matches_ascending(es, q, i - front.len(), j - front.len());
                    }
                },
                None => {
                    assert(false);
                },
            }
        }
    }
}

/// A shorter candidate run is a prefix of a longer one: probing more right
/// rows only appends pairs.
proof fn lemma_candidates_upto_prefix(
    left: Seq<Option<BBox>>,
    right: Seq<Option<BBox>>,
    r1: int,
    r2: int,
    i: int,
)
    requires
        r1 <= r2,
        0 <= i < spec_candidates_upto(left, right, r1).len(),
    ensures
        i < spec_candidates_upto(left, right, r2).len(),
        spec_candidates_upto(left, right, r2)[i] == spec_candidates_upto(left, right, r1)[i],
    decreases r2 - r1,
{
    if r1 == r2 {
    } else {
        lemma_candidates_upto_prefix(left, right, r1, r2 - 1, i);
    }
}

/// The candidate sequence holds a pair exactly when that pair is a
/// candidate: both rows present, their boxes intersecting.  This
/// characterizes the box-only join result, and the pool every refined
/// predicate selects from, in one readable statement.
pub proof fn lemma_candidates_characterized(
    left: Seq<Option<BBox>>,
    right: Seq<Option<BBox>>,
    l: usize,
    rr: usize,
)
    requires
        left.len() <= usize::MAX,
        right.len() <= usize::MAX,
    ensures
        spec_is_candidate(left, right, l, rr) <==> exists|k: int|
            0 <= k < spec_candidates(left, right).len() && (#[trigger] spec_candidates(left,
                right)[k]) == (l, rr),
{
    let es = spec_entries_of(left);
    if spec_is_candidate(left, right, l, rr) {
        let q = right[rr as int]->Some_0;
        lemma_entries_of_complete(left, l as int);
        let j = choose|j: int|
            0 <= j < es.len() && es[j] == (IndexEntry { bbox: left[l as int]->Some_0, row: l });
        lemma_matches_complete(es, q, j);
        let m = spec_matches(es, q);
        let k0 = choose|k0: int| 0 <= k0 < m.len() && m[k0] == es[j].row;
        let group = spec_pair_up(m, rr);
        assert(group[k0] == (l, rr));
        let front = spec_candidates_upto(left, right, rr as int);
        assert(spec_candidates_upto(left, right, rr + 1) == front + group);
        assert(spec_candidates_upto(left, right, rr + 1)[front.len() + k0] == (l, rr));
        lemma_candidates_upto_prefix(left, right, rr + 1, right.len() as int, front.len() + k0);
        assert(spec_candidates(left, right)[front.len() + k0] == (l, rr));
    }
    if exists|k: int|
        0 <= k < spec_candidates(left, right).len() && (#[trigger] spec_candidates(left, right)[k])
            == (l, rr) {
        let k = choose|k: int|
            0 <= k < spec_candidates(left, right).len() && (#[trigger] spec_candidates(left,
                right)[k]) == (l, rr);
        lemma_candidates_element_sound(left, right, right.len() as int, k);
    }
}

/// Each element of a candidate run is a candidate pair.
proof fn lemma_candidates_element_sound(
    left: Seq<Option<BBox>>,
    right: Seq<Option<BBox>>,
    r: int,
    k: int,
)
    requires
        left.len() <= usize::MAX,
        right.len() <= usize::MAX,
        r <= right.len(),
        0 <= k < spec_candidates_upto(left, right, r).len(),
    ensures
        spec_is_candidate(left, right, spec_candidates_upto(left, right, r)[k].0,
            spec_candidates_upto(left, right, r)[k].1),
    decreases r,
{
    if r <= 0 {
    } else {
        let front = spec_candidates_upto(left, right, r - 1);
        if k < front.len() {
            lemma_candidates_element_sound(left, right, r - 1, k);
            assert(spec_candidates_upto(left, right, r)[k] == front[k]);
        } else {
            match right[r - 1] {
                Some(q) => {
                    let es = spec_entries_of(left);
                    let m = spec_matches(es, q);
                    let group = spec_pair_up(m, (r - 1) as usize);
                    assert(spec_candidates_upto(left, right, r)[k] == group[k - front.len()]);
                    lemma_matches_element(es, q, k - front.len());
                    let j = choose|j: int|
                        0 <= j < es.len() && (#[trigger] es[j]).row == m[k - front.len()]
                            && spec_intersects(es[j].bbox, q);
                    lemma_entries_of_sound(left, j);
                },
                None => {
                    assert(false);
                },
            }
        }
    }
}

/// A join against a left column with no present row yields no pairs: every
/// candidate names a present left row, and there is none.
pub proof fn lemma_join_empty_left(left: Seq<Option<BBox>>, right: Seq<Option<BBox>>)
    requires
        left.len() <= usize::MAX,
        forall|i: int| 0 <= i < left.len() ==> (#[trigger] left[i]) is None,
    ensures
        spec_candidates(left, right).len() == 0,
{
    lemma_entries_of_none(left);
    lemma_candidates_upto_empty(left, right, right.len() as int);
}

/// A column of nulls collects no index entries.
proof fn lemma_entries_of_none(col: Seq<Option<BBox>>)
    requires
        forall|i: int| 0 <= i < col.len() ==> (#[trigger] col[i]) is None,
    ensures
        spec_entries_of(col).len() == 0,
    decreases col.len(),
{
    if col.len() == 0 {
    } else {
        assert(forall|i: int|
            0 <= i < col.drop_last().len() ==> col.drop_last()[i] == col[i]);
        lemma_entries_of_none(col.drop_last());
    }
}

proof fn lemma_candidates_upto_empty(left: Seq<Option<BBox>>, right: Seq<Option<BBox>>, r: int)
    requires
        spec_entries_of(left).len() == 0,
    ensures
        spec_candidates_upto(left, right, r).len() == 0,
    decreases r,
{
    if r <= 0 {
    } else {
        lemma_candidates_upto_empty(left, right, r - 1);
        match right[r - 1] {
            Some(q) => {
                crate::index::lemma_matches_len_le(spec_entries_of(left), q);
            },
            None => {},
        }
    }
}

/// A join against an empty right column yields no pairs.
pub proof fn lemma_join_empty_right(left: Seq<Option<BBox>>, right: Seq<Option<BBox>>)
    requires
        right.len() == 0,
    ensures
        spec_candidates(left, right).len() == 0,
{
}

/// Result pairs are grouped by ascending right row: the right rows of the
/// candidate sequence never decrease.
pub proof fn lemma_candidates_grouped(left: Seq<Option<BBox>>, right: Seq<Option<BBox>>, i: int,
    j: int)
    requires
        right.len() <= usize::MAX,
        0 <= i <= j < spec_candidates(left, right).len(),
    ensures
        spec_candidates(left, right)[i].1 <= spec_candidates(left, right)[j].1,
{
    lemma_candidates_prefix_order(left, right, right.len() as int, i, j);
}

/// Within `spec_candidates_upto(.., r)`, every pair's right row is below
/// `r`, and pairs added later have right rows no smaller than earlier ones.
proof fn lemma_candidates_upto_right_bounds(
    left: Seq<Option<BBox>>,
    right: Seq<Option<BBox>>,
    r: int,
    i: int,
)
    requires
        r <= usize::MAX,
        0 <= i < spec_candidates_upto(left, right, r).len(),
    ensures
        spec_candidates_upto(left, right, r)[i].1 < r,
    decreases r,
{
    if r <= 0 {
    } else {
        let front = spec_candidates_upto(left, right, r - 1);
        if i < front.len() {
            lemma_candidates_upto_right_bounds(left, right, r - 1, i);
        } else {
            match right[r - 1] {
                Some(q) => {
                    let g = spec_pair_up(spec_matches(spec_entries_of(left), q), (r - 1) as usize);
                    assert(spec_candidates_upto(left, right, r)[i] == g[i - front.len()]);
                    assert(g[i - front.len()].1 == (r - 1) as usize);
                },
                None => {
                    assert(false);
                },
            }
        }
    }
}

proof fn lemma_candidates_prefix_order(
    left: Seq<Option<BBox>>,
    right: Seq<Option<BBox>>,
    r: int,
    i: int,
    j: int,
)
    requires
        r <= usize::MAX,
        0 <= i <= j < spec_candidates_upto(left, right, r).len(),
    ensures
        spec_candidates_upto(left, right, r)[i].1 <= spec_candidates_upto(left, right, r)[j].1,
    decreases r,
{
    if r <= 0 {
    } else {
        let front = spec_candidates_upto(left, right, r - 1);
        if j < front.len() {
            lemma_candidates_prefix_order(left, right, r - 1, i, j);
            assert(spec_candidates_upto(left, right, r)[i] == front[i]);
            assert(spec_candidates_upto(left, right, r)[j] == front[j]);
        } else {
            match right[r - 1] {
                Some(q) => {
                    let g = spec_pair_up(spec_matches(spec_entries_of(left), q), (r - 1) as usize);
                    assert(spec_candidates_upto(left, right, r)[j] == g[j - front.len()]);
                    assert(g[j - front.len()].1 == (r - 1) as usize);
                    if i < front.len() {
                        lemma_candidates_upto_right_bounds(left, right, r - 1, i);
                        assert(spec_candidates_upto(left, right, r)[i] == front[i]);
                    } else {
                        assert(spec_candidates_upto(left, right, r)[i] == g[i - front.len()]);
                        assert(g[i - front.len()].1 == (r - 1) as usize);
                    }
                },
                None => {
                    assert(false);
                },
            }
        }
    }
}

} // verus!
