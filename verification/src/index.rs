//! The bulk spatial index: a balanced bounding-box tree built once over the
//! present rows of a column, answering box-intersection queries.
//!
//! Every inner node carries a box enclosing all entries beneath it, so a
//! probe can prune whole subtrees; the query contract is exact: it returns
//! precisely the indexed rows whose box intersects the probe box, in entry
//! order.

use vstd::prelude::*;
use crate::bbox::{BBox, spec_intersects, spec_contains, lemma_contains_intersects,
    lemma_contains_trans};

verus! {

/// One indexed row: its bounding box and its original row index.
#[derive(Clone, Copy, Debug, PartialEq, Eq, Structural)]
pub struct IndexEntry {
    pub bbox: BBox,
    pub row: usize,
}

/// A node of the bounding-box tree.
pub enum IndexNode {
    Leaf { entry: IndexEntry },
    Branch { bbox: BBox, left: Box<IndexNode>, right: Box<IndexNode> },
}

impl IndexNode {
    /// The entries beneath this node, left to right.
    pub open spec fn entries(self) -> Seq<IndexEntry>
        decreases self,
    {
        match self {
            IndexNode::Leaf { entry } => seq![entry],
            IndexNode::Branch { left, right, .. } => left.entries() + right.entries(),
        }
    }

    /// The box this node covers.
    pub open spec fn spec_cover(self) -> BBox {
        match self {
            IndexNode::Leaf { entry } => entry.bbox,
            IndexNode::Branch { bbox, .. } => bbox,
        }
    }

    /// Every node's box encloses what its children cover.
    pub open spec fn wf(self) -> bool
        decreases self,
    {
        match self {
            IndexNode::Leaf { .. } => true,
            IndexNode::Branch { bbox, left, right } => {
                &&& left.wf()
                &&& right.wf()
                &&& spec_contains(bbox, left.spec_cover())
                &&& spec_contains(bbox, right.spec_cover())
            },
        }
    }

    /// The box this node covers, as executable code.
    pub fn cover(&self) -> (r: BBox)
        ensures
            r == self.spec_cover(),
    {
        match self {
            IndexNode::Leaf { entry } => entry.bbox,
            IndexNode::Branch { bbox, .. } => *bbox,
        }
    }
}

/// A well-formed node's cover encloses the box of each entry beneath it.
pub proof fn lemma_cover_contains_entries(n: IndexNode, i: int)
    requires
        n.wf(),
        0 <= i < n.entries().len(),
    ensures
        spec_contains(n.spec_cover(), n.entries()[i].bbox),
    decreases n,
{
    match n {
        IndexNode::Leaf { entry } => {},
        IndexNode::Branch { bbox, left, right } => {
            if i < left.entries().len() {
                lemma_cover_contains_entries(*left, i);
                lemma_contains_trans(bbox, left.spec_cover(), left.entries()[i].bbox);
            } else {
                lemma_cover_contains_entries(*right, i - left.entries().len());
                lemma_contains_trans(bbox, right.spec_cover(), right.entries()[i
                    - left.entries().len()].bbox);
            }
        },
    }
}

/// The rows of `es` whose box intersects `q`, in entry order.
pub open spec fn spec_matches(es: Seq<IndexEntry>, q: BBox) -> Seq<usize>
    decreases es.len(),
{
    if es.len() == 0 {
        Seq::empty()
    } else {
        spec_matches(es.drop_last(), q) + (if spec_intersects(es.last().bbox, q) {
            seq![es.last().row]
        } else {
            Seq::empty()
        })
    }
}

/// Matching distributes over concatenation of entry runs.
pub proof fn lemma_matches_concat(a: Seq<IndexEntry>, b: Seq<IndexEntry>, q: BBox)
    ensures
        spec_matches(a + b, q) == spec_matches(a, q) + spec_matches(b, q),
    decreases b.len(),
{
    if b.len() == 0 {
        assert(a + b =~= a);
        assert(spec_matches(a, q) + spec_matches(b, q) =~= spec_matches(a, q));
    } else {
        lemma_matches_concat(a, b.drop_last(), q);
        assert((a + b).drop_last() =~= a + b.drop_last());
        assert((a + b).last() == b.last());
        assert(spec_matches(a + b, q) =~= spec_matches(a, q) + spec_matches(b, q));
    }
}

/// A run in which no entry's box intersects `q` matches nothing.
pub proof fn lemma_matches_none(es: Seq<IndexEntry>, q: BBox)
    requires
        forall|i: int| 0 <= i < es.len() ==> !spec_intersects((#[trigger] es[i]).bbox, q),
    ensures
        spec_matches(es, q) == Seq::<usize>::empty(),
    decreases es.len(),
{
    if es.len() == 0 {
    } else {
        assert(forall|i: int|
            0 <= i < es.drop_last().len() ==> es.drop_last()[i] == es[i]);
        lemma_matches_none(es.drop_last(), q);
        assert(es.last() == es[es.len() - 1]);
        assert(spec_matches(es, q) =~= Seq::<usize>::empty());
    }
}

/// Collects the matching rows beneath `node` into `out`, pruning subtrees
/// whose covering box misses the probe box.
fn query_node(node: &IndexNode, q: &BBox, out: &mut Vec<usize>)
    requires
        node.wf(),
        old(out)@.len() + node.entries().len() <= usize::MAX,
    ensures
        final(out)@ == old(out)@ + spec_matches(node.entries(), *q),
    decreases *node,
{
    let cov = node.cover();
    if !cov.intersects(q) {
        proof {
            assert forall|i: int| 0 <= i < node.entries().len() implies !spec_intersects((
            #[trigger] node.entries()[i]).bbox, *q) by {
                lemma_cover_contains_entries(*node, i);
                if spec_intersects(node.entries()[i].bbox, *q) {
                    lemma_contains_intersects(node.spec_cover(), node.entries()[i].bbox, *q);
                }
            }
            lemma_matches_none(node.entries(), *q);
            assert(out@ =~= old(out)@ + spec_matches(node.entries(), *q));
        }
        return ;
    }
    match node {
        IndexNode::Leaf { entry } => {
            proof {
                reveal_with_fuel(spec_matches, 2);
                assert(node.entries().drop_last() =~= Seq::<IndexEntry>::empty());
            }
            if entry.bbox.intersects(q) {
                out.push(entry.row);
                proof {
                    assert(out@ =~= old(out)@ + spec_matches(node.entries(), *q));
                }
            } else {
                proof {
                    assert(out@ =~= old(out)@ + spec_matches(node.entries(), *q));
                }
            }
        },
        IndexNode::Branch { left, right, .. } => {
            proof {
                assert(node.entries() == left.entries() + right.entries());
                assert(node.entries().len() == left.entries().len() + right.entries().len());
                lemma_matches_concat(left.entries(), right.entries(), *q);
                assert(spec_matches(left.entries(), *q).len() <= left.entries().len()) by {
                    lemma_matches_len_le(left.entries(), *q);
                }
            }
            query_node(left, q, out);
            query_node(right, q, out);
            proof {
                assert(out@ =~= old(out)@ + spec_matches(node.entries(), *q));
            }
        },
    }
}

/// No more rows match than there are entries.
pub proof fn lemma_matches_len_le(es: Seq<IndexEntry>, q: BBox)
    ensures
        spec_matches(es, q).len() <= es.len(),
    decreases es.len(),
{
    if es.len() == 0 {
    } else {
        lemma_matches_len_le(es.drop_last(), q);
    }
}

/// Builds a balanced node over `entries[lo..hi]`.
fn build_node(entries: &Vec<IndexEntry>, lo: usize, hi: usize) -> (n: IndexNode)
    requires
        lo < hi <= entries@.len(),
    ensures
        n.wf(),
        n.entries() == entries@.subrange(lo as int, hi as int),
    decreases hi - lo,
{
    if hi - lo == 1 {
        let n = IndexNode::Leaf { entry: entries[lo] };
        proof {
            assert(n.entries() =~= entries@.subrange(lo as int, hi as int));
        }
        n
    } else {
        let mid = lo + (hi - lo) / 2;
        let l = build_node(entries, lo, mid);
        let r = build_node(entries, mid, hi);
        let lc = l.cover();
        let rc = r.cover();
        let bb = lc.union(&rc);
        let n = IndexNode::Branch { bbox: bb, left: Box::new(l), right: Box::new(r) };
        proof {
            assert(n.entries() =~= entries@.subrange(lo as int, hi as int));
        }
        n
    }
}

/// The present rows of a column as index entries, in row order.
pub open spec fn spec_entries_of(col: Seq<Option<BBox>>) -> Seq<IndexEntry>
    decreases col.len(),
{
    if col.len() == 0 {
        Seq::empty()
    } else {
        spec_entries_of(col.drop_last()) + (match col.last() {
            Some(bb) => seq![IndexEntry { bbox: bb, row: (col.len() - 1) as usize }],
            None => Seq::empty(),
        })
    }
}

/// Each collected entry records a present row of the column, and its box.
pub proof fn lemma_entries_of_sound(col: Seq<Option<BBox>>, j: int)
    requires
        col.len() <= usize::MAX,
        0 <= j < spec_entries_of(col).len(),
    ensures
        spec_entries_of(col)[j].row < col.len(),
        col[spec_entries_of(col)[j].row as int] is Some,
        spec_entries_of(col)[j].bbox == col[spec_entries_of(col)[j].row as int]->Some_0,
    decreases col.len(),
{
    if col.len() == 0 {
    } else {
        let front = spec_entries_of(col.drop_last());
        if j < front.len() {
            lemma_entries_of_sound(col.drop_last(), j);
            assert(spec_entries_of(col)[j] == front[j]);
            assert(col.drop_last()[front[j].row as int] == col[front[j].row as int]);
        } else {
            match col.last() {
                Some(bb) => {
                    let e = IndexEntry { bbox: bb, row: (col.len() - 1) as usize };
                    assert(spec_entries_of(col) == front + seq![e]);
                    assert(spec_entries_of(col)[j] == e);
                },
                None => {
                    assert(spec_entries_of(col) == front + Seq::<IndexEntry>::empty());
                    assert(spec_entries_of(col).len() == front.len());
                    assert(false);
                },
            }
        }
    }
}

/// Every present row of the column is indexed, with its box.
pub proof fn lemma_entries_of_complete(col: Seq<Option<BBox>>, l: int)
    requires
        col.len() <= usize::MAX,
        0 <= l < col.len(),
        col[l] is Some,
    ensures
        exists|j: int|
            0 <= j < spec_entries_of(col).len() && spec_entries_of(col)[j] == (IndexEntry {
                bbox: col[l]->Some_0,
                row: l as usize,
            }),
    decreases col.len(),
{
    let front = spec_entries_of(col.drop_last());
    if l == col.len() - 1 {
        match col.last() {
            Some(bb) => {
                let e = IndexEntry { bbox: bb, row: l as usize };
                assert(spec_entries_of(col) == front + seq![e]);
                assert(spec_entries_of(col)[front.len() as int] == e);
            },
            None => {
                assert(false);
            },
        }
    } else {
        lemma_entries_of_complete(col.drop_last(), l);
        let j = choose|j: int|
            0 <= j < front.len() && front[j] == (IndexEntry {
                bbox: col.drop_last()[l]->Some_0,
                row: l as usize,
            });
        assert(col.drop_last()[l] == col[l]);
        assert(spec_entries_of(col)[j] == front[j]);
    }
}

/// A row whose entry's box intersects the probe is reported.
pub proof fn lemma_matches_complete(es: Seq<IndexEntry>, q: BBox, j: int)
    requires
        0 <= j < es.len(),
        spec_intersects(es[j].bbox, q),
    ensures
        exists|k: int|
            0 <= k < spec_matches(es, q).len() && spec_matches(es, q)[k] == es[j].row,
    decreases es.len(),
{
    let m = spec_matches(es, q);
    let front = spec_matches(es.drop_last(), q);
    if j == es.len() - 1 {
        assert(es.last() == es[j]);
        assert(m[front.len() as int] == es[j].row);
    } else {
        assert(es.drop_last()[j] == es[j]);
        lemma_matches_complete(es.drop_last(), q, j);
        let k = choose|k: int| 0 <= k < front.len() && front[k] == es[j].row;
        assert(m[k] == front[k]);
    }
}

/// Each reported row comes from an entry whose box intersects the probe.
pub proof fn lemma_matches_element(es: Seq<IndexEntry>, q: BBox, k: int)
    requires
        0 <= k < spec_matches(es, q).len(),
    ensures
        exists|j: int|
            0 <= j < es.len() && (#[trigger] es[j]).row == spec_matches(es, q)[k]
                && spec_intersects(es[j].bbox, q),
    decreases es.len(),
{
    let m = spec_matches(es, q);
    let front = spec_matches(es.drop_last(), q);
    if k < front.len() {
        lemma_matches_element(es.drop_last(), q, k);
        let j = choose|j: int|
            0 <= j < es.drop_last().len() && (#[trigger] es.drop_last()[j]).row == front[k]
                && spec_intersects(es.drop_last()[j].bbox, q);
        assert(es[j] == es.drop_last()[j]);
        assert(m[k] == front[k]);
    } else {
        assert(spec_intersects(es.last().bbox, q));
        assert(es[es.len() - 1] == es.last());
        assert(m[k] == es.last().row);
    }
}

/// Index entries carry strictly ascending row indices: the bulk load walks
/// the column in row order.
pub proof fn lemma_entries_rows_ascending(col: Seq<Option<BBox>>, i: int, j: int)
    requires
        col.len() <= usize::MAX,
        0 <= i < j < spec_entries_of(col).len(),
    ensures
        spec_entries_of(col)[i].row < spec_entries_of(col)[j].row,
    decreases col.len(),
{
    let front = spec_entries_of(col.drop_last());
    if j < front.len() {
        lemma_entries_rows_ascending(col.drop_last(), i, j);
        assert(spec_entries_of(col)[i] == front[i]);
        assert(spec_entries_of(col)[j] == front[j]);
    } else {
        match col.last() {
            Some(bb) => {
                let e = IndexEntry { bbox: bb, row: (col.len() - 1) as usize };
                assert(spec_entries_of(col) == front + seq![e]);
                assert(spec_entries_of(col)[j] == e);
                assert(spec_entries_of(col)[i] == front[i]);
                lemma_entries_of_sound(col.drop_last(), i);
            },
            None => {
                assert(spec_entries_of(col) == front + Seq::<IndexEntry>::empty());
                assert(false);
            },
        }
    }
}

/// Over entries with ascending rows, reported rows ascend too: a probe
/// preserves the index's entry order.
pub proof fn lemma_matches_ascending(es: Seq<IndexEntry>, q: BBox, k1: int, k2: int)
    requires
        forall|i: int, j: int| 0 <= i < j < es.len() ==> (#[trigger] es[i]).row < (#[trigger] es[j]).row,
        0 <= k1 < k2 < spec_matches(es, q).len(),
    ensures
        spec_matches(es, q)[k1] < spec_matches(es, q)[k2],
    decreases es.len(),
{
    let m = spec_matches(es, q);
    let front = spec_matches(es.drop_last(), q);
    assert(forall|i: int| 0 <= i < es.drop_last().len() ==> es.drop_last()[i] == es[i]);
    if k2 < front.len() {
        lemma_matches_ascending(es.drop_last(), q, k1, k2);
        assert(m[k1] == front[k1]);
        assert(m[k2] == front[k2]);
    } else {
        assert(spec_intersects(es.last().bbox, q));
        assert(k2 == front.len());
        assert(m[k2] == es.last().row);
        assert(m[k1] == front[k1]);
        lemma_matches_element(es.drop_last(), q, k1);
        let j = choose|j: int|
            0 <= j < es.drop_last().len() && (#[trigger] es.drop_last()[j]).row == front[k1]
                && spec_intersects(es.drop_last()[j].bbox, q);
        assert(es[j].row < es[es.len() - 1].row);
        assert(es[es.len() - 1] == es.last());
    }
}

/// There are no more entries than rows.
pub proof fn lemma_entries_of_len(col: Seq<Option<BBox>>)
    ensures
        spec_entries_of(col).len() <= col.len(),
    decreases col.len(),
{
    if col.len() == 0 {
    } else {
        lemma_entries_of_len(col.drop_last());
    }
}

/// A bulk-loaded bounding-box tree over the present rows of one column,
/// immutable after construction.
pub struct SpatialIndex {
    root: Option<IndexNode>,
    entry_count: usize,
}

impl SpatialIndex {
    /// What the index holds: the entries of the column it was built from.
    pub closed spec fn entries(self) -> Seq<IndexEntry> {
        match self.root {
            None => Seq::empty(),
            Some(n) => n.entries(),
        }
    }

    pub closed spec fn wf(self) -> bool {
        &&& match self.root {
            None => true,
            Some(n) => n.wf(),
        }
        &&& self.entry_count == self.entries().len()
    }

    /// Bulk-load the index from a column: every present row is indexed under
    /// its row index, null rows are omitted and can never be reported.
    pub fn build(col: &Vec<Option<BBox>>) -> (idx: SpatialIndex)
        ensures
            idx.wf(),
            idx.entries() == spec_entries_of(col@),
    {
        let mut entries: Vec<IndexEntry> = Vec::new();
        let mut i: usize = 0;
        let n = col.len();
        while i < n
            invariant
                n == col@.len(),
                0 <= i <= n,
                entries@ == spec_entries_of(col@.subrange(0, i as int)),
                entries@.len() <= i,
            decreases n - i,
        {
            match &col[i] {
                Some(bb) => {
                    entries.push(IndexEntry { bbox: *bb, row: i });
                },
                None => {},
            }
            i = i + 1;
            proof {
                assert(col@.subrange(0, i as int).drop_last() =~= col@.subrange(0, i as int - 1));
                assert(col@.subrange(0, i as int).last() == col@[i as int - 1]);
                assert(entries@ =~= spec_entries_of(col@.subrange(0, i as int)));
            }
        }
        proof {
            assert(col@.subrange(0, n as int) =~= col@);
        }
        if entries.len() == 0 {
            SpatialIndex { root: None, entry_count: 0 }
        } else {
            let count = entries.len();
            let root = build_node(&entries, 0, count);
            proof {
                assert(entries@.subrange(0, count as int) =~= entries@);
            }
            SpatialIndex { root: Some(root), entry_count: count }
        }
    }

    /// Every indexed row whose box intersects the probe box, in entry order,
    /// which for a bulk-loaded index is ascending row order.
    pub fn query(&self, q: &BBox) -> (r: Vec<usize>)
        requires
            self.wf(),
        ensures
            r@ == spec_matches(self.entries(), *q),
    {
        let mut out: Vec<usize> = Vec::new();
        match &self.root {
            None => {},
            Some(n) => {
                query_node(n, q, &mut out);
            },
        }
        out
    }
}

} // verus!
