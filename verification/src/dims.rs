//! Dropping ordinates: the structural transform that forces a geometry
//! tree down to plain two-dimensional coordinates.
//!
//! Each point keeps its first two ordinates; the tree's shape and kinds are
//! untouched.  This is the coordinate side of forcing a geometry to two
//! dimensions; re-encoding the result is the caller's concern.

use vstd::prelude::*;
use crate::geom::{CoordSeq, GeomTree};
use crate::flatten::{spec_flat_seq, append_flat_seq};

verus! {

/// Whether `r` is `cs` reduced to its first two ordinates per point.
pub open spec fn force_2d_seq_rel(cs: CoordSeq, r: CoordSeq) -> bool {
    &&& r.dim == 2
    &&& r.data@ == spec_flat_seq(cs, 2)
}

/// Whether `r` is `t` with every coordinate sequence reduced to two
/// ordinates: same shape, same kinds, same ring and part order.
pub open spec fn force_2d_rel(t: GeomTree, r: GeomTree) -> bool
    decreases t, 1int, 0int,
{
    match (t, r) {
        (GeomTree::Leaf { kind: k1, coords: c1 }, GeomTree::Leaf { kind: k2, coords: c2 }) => {
            &&& k2 == k1
            &&& force_2d_seq_rel(c1, c2)
        },
        (
            GeomTree::Surface { kind: k1, exterior: e1, interiors: r1 },
            GeomTree::Surface { kind: k2, exterior: e2, interiors: r2 },
        ) => {
            &&& k2 == k1
            &&& force_2d_seq_rel(e1, e2)
            &&& r2@.len() == r1@.len()
            &&& forall|i: int|
                0 <= i < r1@.len() ==> force_2d_seq_rel(r1@[i], #[trigger] r2@[i])
        },
        (
            GeomTree::Collection { kind: k1, parts: p1 },
            GeomTree::Collection { kind: k2, parts: p2 },
        ) => {
            &&& k2 == k1
            &&& force_2d_rel_parts(p1@, p2@)
        },
        _ => false,
    }
}

pub open spec fn force_2d_rel_parts(ps: Seq<GeomTree>, qs: Seq<GeomTree>) -> bool
    decreases ps, 0int, 0int,
{
    if ps.len() != qs.len() {
        false
    } else if ps.len() == 0 {
        true
    } else {
        force_2d_rel(ps[0], qs[0]) && force_2d_rel_parts(ps.subrange(1, ps.len() as int),
            qs.subrange(1, qs.len() as int))
    }
}

/// Reduces one well-formed coordinate sequence to two ordinates per point.
fn force_2d_seq(cs: &CoordSeq) -> (r: CoordSeq)
    requires
        cs.wf(),
    ensures
        force_2d_seq_rel(*cs, r),
        r.wf(),
{
    let mut data: Vec<u64> = Vec::new();
    let total = cs.data.len();
    proof {
        crate::flatten::lemma_flat_seq_within(*cs);
        assert(cs.point_count() * 2 <= total);
    }
    append_flat_seq(cs, 2, &mut data);
    let r = CoordSeq { dim: 2, data };
    proof {
        crate::flatten::lemma_flat_seq_divisible(*cs);
    }
    r
}

/// Force a geometry tree to two-dimensional coordinates: every point keeps
/// its first two ordinates, and the tree's shape, kinds and ring and part
/// order stay exactly as they were.
pub fn force_2d(tree: &GeomTree) -> (r: GeomTree)
    requires
        tree.wf(),
    ensures
        force_2d_rel(*tree, r),
    decreases *tree, 1int, 0int,
{
    match tree {
        GeomTree::Leaf { kind, coords } => GeomTree::Leaf {
            kind: *kind,
            coords: force_2d_seq(coords),
        },
        GeomTree::Surface { kind, exterior, interiors } => {
            let new_exterior = force_2d_seq(exterior);
            let mut new_interiors: Vec<CoordSeq> = Vec::new();
            let n = interiors.len();
            let mut i: usize = 0;
            while i < n
                invariant
                    tree.wf(),
                    tree is Surface,
                    tree->Surface_interiors == *interiors,
                    n == interiors@.len(),
                    0 <= i <= n,
                    new_interiors@.len() == i,
                    forall|k: int|
                        0 <= k < i ==> force_2d_seq_rel(interiors@[k],
                            #[trigger] new_interiors@[k]),
                decreases n - i,
            {
                assert(interiors@[i as int].wf());
                new_interiors.push(force_2d_seq(&interiors[i]));
                i = i + 1;
            }
            GeomTree::Surface { kind: *kind, exterior: new_exterior, interiors: new_interiors }
        },
        GeomTree::Collection { kind, parts } => {
            let mut new_parts: Vec<GeomTree> = Vec::new();
            let n = parts.len();
            let mut i: usize = 0;
            while i < n
                invariant
                    tree.wf(),
                    tree is Collection,
                    tree->Collection_parts == *parts,
                    n == parts@.len(),
                    0 <= i <= n,
                    new_parts@.len() == i,
                    force_2d_rel_parts(parts@.subrange(0, i as int), new_parts@),
                decreases n - i,
            {
                proof {
                    crate::flatten::lemma_all_wf_index_public(parts@, i as int);
                }
                let ghost old_parts = new_parts@;
                new_parts.push(force_2d(&parts[i]));
                i = i + 1;
                proof {
                    lemma_force_2d_rel_parts_snoc(parts@, old_parts, new_parts@[i as int - 1],
                        i as int);
                }
            }
            proof {
                assert(parts@.subrange(0, n as int) =~= parts@);
            }
            GeomTree::Collection { kind: *kind, parts: new_parts }
        },
    }
}

proof fn lemma_force_2d_rel_parts_snoc(ps: Seq<GeomTree>, qs: Seq<GeomTree>, q: GeomTree, i: int)
    requires
        1 <= i <= ps.len(),
        qs.len() == i - 1,
        force_2d_rel_parts(ps.subrange(0, i - 1), qs),
        force_2d_rel(ps[i - 1], q),
    ensures
        force_2d_rel_parts(ps.subrange(0, i), qs.push(q)),
    decreases i,
{
    if i == 1 {
        reveal_with_fuel(force_2d_rel_parts, 3);
        assert(ps.subrange(0, 1)[0] == ps[0]);
        assert(qs.push(q)[0] == q);
        assert(ps.subrange(0, 1).subrange(1, 1) =~= Seq::<GeomTree>::empty());
        assert(qs.push(q).subrange(1, 1) =~= Seq::<GeomTree>::empty());
    } else {
        let pt = ps.subrange(1, ps.len() as int);
        let qt = qs.subrange(1, qs.len() as int);
        assert(ps.subrange(0, i - 1)[0] == ps[0]);
        assert(ps.subrange(0, i - 1).subrange(1, i - 1) =~= pt.subrange(0, i - 2));
        lemma_force_2d_rel_parts_snoc(pt, qt, q, i - 1);
        assert(ps.subrange(0, i)[0] == ps[0]);
        assert(qs.push(q)[0] == qs[0]);
        assert(ps.subrange(0, i).subrange(1, i) =~= pt.subrange(0, i - 1));
        assert(qs.push(q).subrange(1, i) =~= qt.push(q));
        assert(pt[i - 2] == ps[i - 1]);
    }
}

/// Forcing to two dimensions keeps the tree well formed, keeps its point
/// count, and keeps emptiness.
pub proof fn lemma_force_2d_preserves(t: GeomTree, r: GeomTree)
    requires
        t.wf(),
        force_2d_rel(t, r),
    ensures
        r.wf(),
        r.coord_count() == t.coord_count(),
        r.is_empty() <==> t.is_empty(),
    decreases t, 1int, 0int,
{
    match (t, r) {
        (GeomTree::Leaf { kind: k1, coords: c1 }, GeomTree::Leaf { kind: k2, coords: c2 }) => {
            lemma_force_2d_seq_preserves(c1, c2);
        },
        (
            GeomTree::Surface { kind: k1, exterior: e1, interiors: r1 },
            GeomTree::Surface { kind: k2, exterior: e2, interiors: r2 },
        ) => {
            lemma_force_2d_seq_preserves(e1, e2);
            assert forall|i: int|
                #![trigger r1@[i]]
                #![trigger r2@[i]]
                0 <= i < r2@.len() implies r2@[i].wf() && r2@[i].point_count()
                == r1@[i].point_count() && (r2@[i].is_empty() <==> r1@[i].is_empty()) by {
                assert(r1@[i].wf());
                lemma_force_2d_seq_preserves(r1@[i], r2@[i]);
            }
            lemma_ring_count_pointwise(r1@, r2@);
        },
        (
            GeomTree::Collection { kind: k1, parts: p1 },
            GeomTree::Collection { kind: k2, parts: p2 },
        ) => {
            lemma_force_2d_parts_preserves(p1@, p2@);
        },
        _ => {
            assert(false);
        },
    }
}

proof fn lemma_force_2d_seq_preserves(cs: CoordSeq, r: CoordSeq)
    requires
        cs.wf(),
        force_2d_seq_rel(cs, r),
    ensures
        r.wf(),
        r.point_count() == cs.point_count(),
        r.is_empty() <==> cs.is_empty(),
{
    crate::flatten::lemma_flat_seq_divisible(cs);
    crate::flatten::lemma_flat_seq_empty_iff_public(cs, 2);
    assert(r.data@.len() as int == cs.point_count() * 2);
    assert((cs.point_count() * 2) % 2 == 0 && (cs.point_count() * 2) / 2 == cs.point_count())
        by (nonlinear_arith);
}

proof fn lemma_ring_count_pointwise(rs: Seq<CoordSeq>, ms: Seq<CoordSeq>)
    requires
        ms.len() == rs.len(),
        forall|i: int|
            0 <= i < rs.len() ==> (#[trigger] ms[i]).point_count() == rs[i].point_count(),
    ensures
        GeomTree::ring_count(ms) == GeomTree::ring_count(rs),
    decreases rs.len(),
{
    if rs.len() == 0 {
    } else {
        let rt = rs.subrange(1, rs.len() as int);
        let mt = ms.subrange(1, ms.len() as int);
        assert(forall|i: int| 0 <= i < rt.len() ==> rt[i] == rs[i + 1]);
        assert(forall|i: int| 0 <= i < mt.len() ==> mt[i] == ms[i + 1]);
        lemma_ring_count_pointwise(rt, mt);
    }
}

proof fn lemma_force_2d_parts_preserves(ps: Seq<GeomTree>, qs: Seq<GeomTree>)
    requires
        GeomTree::all_wf(ps),
        force_2d_rel_parts(ps, qs),
    ensures
        GeomTree::all_wf(qs),
        qs.len() == ps.len(),
        GeomTree::parts_count(qs) == GeomTree::parts_count(ps),
        GeomTree::all_empty(qs) <==> GeomTree::all_empty(ps),
    decreases ps, 0int, 1int,
{
    if ps.len() == 0 {
    } else {
        lemma_force_2d_preserves(ps[0], qs[0]);
        lemma_force_2d_parts_preserves(ps.subrange(1, ps.len() as int), qs.subrange(1,
            qs.len() as int));
    }
}

} // verus!
