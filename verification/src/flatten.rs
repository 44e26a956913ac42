//! The coordinate flattener: linearizes a geometry tree into one flat buffer
//! of fixed-stride coordinate tuples, in deterministic traversal order.
//!
//! A leaf contributes its own coordinate sequence; a surface contributes its
//! exterior ring then each interior ring in index order; a collection
//! contributes each part in index order.  Each point is truncated or padded
//! to the requested stride; missing ordinates are padded with a quiet
//! not-a-number sentinel pattern.

use vstd::prelude::*;
use crate::broadcast_apply::ApplyError;
use crate::geom::{CoordSeq, GeomTree};

verus! {

/// The 64-bit pattern written for an ordinate the source point lacks: the
/// canonical quiet not-a-number of the binary64 interchange encoding.
pub const PAD_PATTERN: u64 = 0x7FF8_0000_0000_0000;

/// One coordinate sequence flattened to `stride` ordinates per point:
/// ordinate `j` of point `p` when `j` is within the sequence's own
/// dimensionality, the pad sentinel otherwise.
pub open spec fn spec_flat_seq(cs: CoordSeq, stride: int) -> Seq<u64> {
    Seq::new((cs.point_count() * stride) as nat, |k: int| {
        let p = k / stride;
        let j = k % stride;
        if j < cs.dim as int {
            cs.data@[p * (cs.dim as int) + j]
        } else {
            PAD_PATTERN
        }
    })
}

/// Every coordinate of a tree in traversal order, at the given stride.
pub open spec fn spec_flatten(t: GeomTree, stride: int) -> Seq<u64>
    decreases t, 1int, 0int,
{
    match t {
        GeomTree::Leaf { coords, .. } => spec_flat_seq(coords, stride),
        GeomTree::Surface { exterior, interiors, .. } => spec_flat_seq(exterior, stride)
            + spec_flatten_rings(interiors@, stride),
        GeomTree::Collection { parts, .. } => spec_flatten_parts(parts@, stride),
    }
}

pub open spec fn spec_flatten_rings(rs: Seq<CoordSeq>, stride: int) -> Seq<u64>
    decreases rs.len(),
{
    if rs.len() == 0 {
        Seq::empty()
    } else {
        spec_flat_seq(rs[0], stride) + spec_flatten_rings(rs.subrange(1, rs.len() as int), stride)
    }
}

pub open spec fn spec_flatten_parts(ps: Seq<GeomTree>, stride: int) -> Seq<u64>
    decreases ps, 0int, 0int,
{
    if ps.len() == 0 {
        Seq::empty()
    } else {
        spec_flatten(ps[0], stride) + spec_flatten_parts(ps.subrange(1, ps.len() as int), stride)
    }
}

/// Appends one flattened coordinate sequence to `out`.
pub(crate) fn append_flat_seq(cs: &CoordSeq, stride: usize, out: &mut Vec<u64>)
    requires
        cs.wf(),
        2 <= stride <= 4,
        old(out)@.len() + cs.point_count() * stride <= usize::MAX,
    ensures
        final(out)@ == old(out)@ + spec_flat_seq(*cs, stride as int),
{
    let dim = cs.dim;
    let count = cs.data.len() / dim;
    proof {
        assert(cs.data@.len() as int == count * dim) by (nonlinear_arith)
            requires
                count == cs.data@.len() as int / (dim as int),
                cs.data@.len() as int % (dim as int) == 0,
                2 <= dim <= 4,
        ;
        assert(cs.point_count() == count);
    }
    let ghost base = out@.len() as int;
    let ghost target = spec_flat_seq(*cs, stride as int);
    assert(target.len() == count * stride);
    let mut p: usize = 0;
    while p < count
        invariant
            cs.wf(),
            2 <= stride <= 4,
            dim == cs.dim,
            0 <= p <= count,
            cs.data@.len() as int == count * dim,
            cs.data@.len() <= usize::MAX,
            cs.point_count() == count,
            target == spec_flat_seq(*cs, stride as int),
            target.len() == count * stride,
            base + count * stride <= usize::MAX,
            out@.len() == base + p * stride,
            out@ == old(out)@ + target.subrange(0, p * stride),
        decreases count - p,
    {
        let mut j: usize = 0;
        while j < stride
            invariant
                cs.wf(),
                2 <= stride <= 4,
                dim == cs.dim,
                0 <= p < count,
                0 <= j <= stride,
                cs.data@.len() as int == count * dim,
                cs.data@.len() <= usize::MAX,
                cs.point_count() == count,
                target == spec_flat_seq(*cs, stride as int),
                target.len() == count * stride,
                base + count * stride <= usize::MAX,
                out@.len() == base + p * stride + j,
                out@ == old(out)@ + target.subrange(0, p * stride + j),
            decreases stride - j,
        {
            proof {
                assert(p * stride + j < count * stride) by (nonlinear_arith)
                    requires
                        0 <= p < count,
                        0 <= j < stride,
                ;
                assert((p * stride + j) / (stride as int) == p && (p * stride + j) % (stride as int)
                    == j) by (nonlinear_arith)
                    requires
                        0 <= j < stride,
                        0 <= p,
                        stride >= 2,
                ;
            }
            let v: u64 = if j < dim {
                proof {
                    assert(p * dim + j < count * dim) by (nonlinear_arith)
                        requires
                            0 <= p < count,
                            0 <= j < dim,
                    ;
                }
                cs.data[p * dim + j]
            } else {
                PAD_PATTERN
            };
            assert(v == target[p * stride + j]);
            out.push(v);
            j = j + 1;
            assert(out@ =~= old(out)@ + target.subrange(0, p * stride + j));
        }
        p = p + 1;
        proof {
            assert(p * stride == (p - 1) * stride + stride) by (nonlinear_arith);
        }
    }
    assert(target.subrange(0, count * stride) =~= target);
}

/// A well-formed coordinate sequence holds a non-negative number of points,
/// and its data length is that count times its dimensionality.
proof fn lemma_point_count(cs: CoordSeq)
    requires
        cs.wf(),
    ensures
        cs.point_count() >= 0,
        cs.data@.len() as int == cs.point_count() * (cs.dim as int),
{
    assert(cs.point_count() >= 0 && cs.data@.len() as int == cs.point_count() * (cs.dim as int))
        by (nonlinear_arith)
        requires
            cs.dim as int >= 2,
            cs.data@.len() as int >= 0,
            cs.data@.len() as int % (cs.dim as int) == 0,
            cs.point_count() == cs.data@.len() as int / (cs.dim as int),
    ;
}

/// A flattening at stride two stays within the source data's length, so a
/// caller can always afford the output buffer.
pub(crate) proof fn lemma_flat_seq_within(cs: CoordSeq)
    requires
        cs.wf(),
    ensures
        cs.point_count() * 2 <= cs.data@.len(),
        cs.point_count() >= 0,
{
    lemma_point_count(cs);
    assert(cs.point_count() * 2 <= cs.point_count() * (cs.dim as int)) by (nonlinear_arith)
        requires
            cs.point_count() >= 0,
            cs.dim as int >= 2,
    ;
}

/// The flattening of a sequence has a length divisible by the stride two.
pub(crate) proof fn lemma_flat_seq_divisible(cs: CoordSeq)
    requires
        cs.wf(),
    ensures
        spec_flat_seq(cs, 2).len() == cs.point_count() * 2,
        spec_flat_seq(cs, 2).len() as int % 2 == 0,
{
    lemma_point_count(cs);
    assert(cs.point_count() * 2 >= 0 && (cs.point_count() * 2) % 2 == 0) by (nonlinear_arith)
        requires
            cs.point_count() >= 0,
    ;
}

/// Exposes emptiness of a stride-two flattening to sibling modules.
pub(crate) proof fn lemma_flat_seq_empty_iff_public(cs: CoordSeq, stride: int)
    requires
        cs.wf(),
        stride >= 2,
    ensures
        spec_flat_seq(cs, stride).len() == 0 <==> cs.is_empty(),
{
    lemma_flat_seq_empty_iff(cs, stride);
}

/// Exposes element well-formedness of a well-formed part run.
pub(crate) proof fn lemma_all_wf_index_public(ps: Seq<GeomTree>, i: int)
    requires
        GeomTree::all_wf(ps),
        0 <= i < ps.len(),
    ensures
        ps[i].wf(),
{
    lemma_all_wf_index(ps, i);
}

/// The flattened buffer's length is the stride times the tree's total
/// coordinate count.
pub proof fn lemma_flatten_len(t: GeomTree, stride: int)
    requires
        t.wf(),
        stride >= 0,
    ensures
        spec_flatten(t, stride).len() == t.coord_count() * stride,
    decreases t, 1int, 0int,
{
    match t {
        GeomTree::Leaf { coords, .. } => {
            lemma_point_count(coords);
            assert(coords.point_count() * stride >= 0) by (nonlinear_arith)
                requires
                    coords.point_count() >= 0,
                    stride >= 0,
            ;
            assert(spec_flat_seq(coords, stride).len() == coords.point_count() * stride);
        },
        GeomTree::Surface { exterior, interiors, .. } => {
            lemma_point_count(exterior);
            assert(exterior.point_count() * stride >= 0) by (nonlinear_arith)
                requires
                    exterior.point_count() >= 0,
                    stride >= 0,
            ;
            lemma_flatten_rings_len(interiors@, stride);
            assert((exterior.point_count() + GeomTree::ring_count(interiors@)) * stride
                == exterior.point_count() * stride + GeomTree::ring_count(interiors@) * stride)
                by (nonlinear_arith);
        },
        GeomTree::Collection { parts, .. } => {
            lemma_flatten_parts_len(parts@, stride);
        },
    }
}

proof fn lemma_flatten_rings_len(rs: Seq<CoordSeq>, stride: int)
    requires
        stride >= 0,
        forall|i: int| 0 <= i < rs.len() ==> (#[trigger] rs[i]).wf(),
    ensures
        spec_flatten_rings(rs, stride).len() == GeomTree::ring_count(rs) * stride,
    decreases rs.len(),
{
    if rs.len() == 0 {
    } else {
        let tail = rs.subrange(1, rs.len() as int);
        assert(forall|i: int| 0 <= i < tail.len() ==> tail[i] == rs[i + 1]);
        lemma_point_count(rs[0]);
        assert(rs[0].point_count() * stride >= 0) by (nonlinear_arith)
            requires
                rs[0].point_count() >= 0,
                stride >= 0,
        ;
        lemma_flatten_rings_len(rs.subrange(1, rs.len() as int), stride);
        assert((rs[0].point_count() + GeomTree::ring_count(rs.subrange(1, rs.len() as int)))
            * stride == rs[0].point_count() * stride + GeomTree::ring_count(rs.subrange(1,
            rs.len() as int)) * stride) by (nonlinear_arith);
    }
}

proof fn lemma_flatten_parts_len(ps: Seq<GeomTree>, stride: int)
    requires
        stride >= 0,
        GeomTree::all_wf(ps),
    ensures
        spec_flatten_parts(ps, stride).len() == GeomTree::parts_count(ps) * stride,
    decreases ps, 0int, 1int,
{
    if ps.len() == 0 {
    } else {
        lemma_flatten_len(ps[0], stride);
        lemma_flatten_parts_len(ps.subrange(1, ps.len() as int), stride);
        assert((ps[0].coord_count() + GeomTree::parts_count(ps.subrange(1, ps.len() as int)))
            * stride == ps[0].coord_count() * stride + GeomTree::parts_count(ps.subrange(1,
            ps.len() as int)) * stride) by (nonlinear_arith);
    }
}

/// A well-formed coordinate sequence flattens to zero length exactly when it
/// is empty.
proof fn lemma_flat_seq_empty_iff(cs: CoordSeq, stride: int)
    requires
        cs.wf(),
        stride >= 2,
    ensures
        spec_flat_seq(cs, stride).len() == 0 <==> cs.is_empty(),
{
    lemma_point_count(cs);
    assert(cs.point_count() * stride == 0 <==> cs.point_count() == 0) by (nonlinear_arith)
        requires
            cs.point_count() >= 0,
            stride >= 2,
    ;
    assert(cs.point_count() == 0 ==> cs.data@.len() as int == 0) by (nonlinear_arith)
        requires
            cs.data@.len() as int == cs.point_count() * (cs.dim as int),
    ;
}

/// An empty geometry flattens to a zero-length buffer at every stride, and
/// only an empty geometry does.
pub proof fn lemma_flatten_empty(t: GeomTree, stride: int)
    requires
        t.wf(),
        stride >= 2,
    ensures
        spec_flatten(t, stride).len() == 0 <==> t.is_empty(),
    decreases t, 1int, 0int,
{
    match t {
        GeomTree::Leaf { coords, .. } => {
            lemma_flat_seq_empty_iff(coords, stride);
        },
        GeomTree::Surface { exterior, interiors, .. } => {
            lemma_flat_seq_empty_iff(exterior, stride);
            lemma_flatten_rings_empty(interiors@, stride);
        },
        GeomTree::Collection { parts, .. } => {
            lemma_flatten_parts_empty(parts@, stride);
        },
    }
}

proof fn lemma_flatten_rings_empty(rs: Seq<CoordSeq>, stride: int)
    requires
        stride >= 2,
        forall|i: int| 0 <= i < rs.len() ==> (#[trigger] rs[i]).wf(),
    ensures
        spec_flatten_rings(rs, stride).len() == 0 <==> (forall|i: int|
            0 <= i < rs.len() ==> (#[trigger] rs[i]).is_empty()),
    decreases rs.len(),
{
    if rs.len() == 0 {
    } else {
        let tail = rs.subrange(1, rs.len() as int);
        assert(forall|i: int| 0 <= i < tail.len() ==> tail[i] == rs[i + 1]);
        lemma_flatten_rings_empty(tail, stride);
        lemma_flat_seq_empty_iff(rs[0], stride);
        if spec_flatten_rings(rs, stride).len() == 0 {
            assert(forall|i: int| 0 <= i < rs.len() ==> (#[trigger] rs[i]).is_empty()) by {
                assert(rs[0].is_empty());
                assert(forall|i: int| 1 <= i < rs.len() ==> rs[i] == tail[i - 1]);
            }
        }
    }
}

proof fn lemma_flatten_parts_empty(ps: Seq<GeomTree>, stride: int)
    requires
        stride >= 2,
        GeomTree::all_wf(ps),
    ensures
        spec_flatten_parts(ps, stride).len() == 0 <==> GeomTree::all_empty(ps),
    decreases ps, 0int, 1int,
{
    if ps.len() == 0 {
    } else {
        lemma_flatten_empty(ps[0], stride);
        lemma_flatten_parts_empty(ps.subrange(1, ps.len() as int), stride);
    }
}

/// Flatten a geometry tree into one buffer of `stride`-tuples: every
/// coordinate in traversal order, truncated or padded to the stride.
pub fn flatten_coordinates(tree: &GeomTree, stride: usize) -> (out: Result<Vec<u64>, ()>)
    requires
        tree.wf(),
        2 <= stride <= 4,
    ensures
        match out {
            Ok(buf) => {
                &&& buf@ == spec_flatten(*tree, stride as int)
                &&& buf@.len() as int % (stride as int) == 0
            },
            Err(e) => spec_flatten(*tree, stride as int).len() > usize::MAX,
        },
{
    let mut buf: Vec<u64> = Vec::new();
    match flatten_into(tree, stride, &mut buf) {
        Ok(()) => {
            proof {
                lemma_flatten_len(*tree, stride as int);
                assert(buf@.len() as int == tree.coord_count() * (stride as int));
                assert((tree.coord_count() * (stride as int)) % (stride as int) == 0)
                    by (nonlinear_arith)
                    requires
                        stride >= 2,
                ;
            }
            Ok(buf)
        },
        Err(()) => Err(()),
    }
}

/// Appends the flattening of `tree` to `out`; fails only when the buffer
/// would outgrow the address space.
fn flatten_into(tree: &GeomTree, stride: usize, out: &mut Vec<u64>) -> (r: Result<(), ()>)
    requires
        tree.wf(),
        2 <= stride <= 4,
    ensures
        match r {
            Ok(()) => final(out)@ == old(out)@ + spec_flatten(*tree, stride as int),
            Err(e) => old(out)@.len() + spec_flatten(*tree, stride as int).len() > usize::MAX,
        },
    decreases *tree, 1int, 0int,
{
    proof {
        lemma_flatten_len(*tree, stride as int);
    }
    match tree {
        GeomTree::Leaf { coords, .. } => {
            let needed = coords.data.len() / coords.dim;
            if !fits(out.len(), needed, stride) {
                return Err(());
            }
            append_flat_seq(coords, stride, out);
            Ok(())
        },
        GeomTree::Surface { exterior, interiors, .. } => {
            let needed = exterior.data.len() / exterior.dim;
            if !fits(out.len(), needed, stride) {
                proof {
                    lemma_ring_count_nonneg(interiors@);
                    assert(spec_flatten(*tree, stride as int).len() >= exterior.point_count() * (
                    stride as int)) by (nonlinear_arith)
                        requires
                            spec_flatten(*tree, stride as int).len() == (exterior.point_count()
                                + GeomTree::ring_count(interiors@)) * (stride as int),
                            GeomTree::ring_count(interiors@) >= 0,
                            stride >= 2,
                    ;
                }
                return Err(());
            }
            append_flat_seq(exterior, stride, out);
            let ghost mid = out@;
            let mut i: usize = 0;
            while i < interiors.len()
                invariant
                    tree.wf(),
                    tree is Surface,
                    2 <= stride <= 4,
                    tree->Surface_exterior == *exterior,
                    tree->Surface_interiors == *interiors,
                    0 <= i <= interiors@.len(),
                    mid == old(out)@ + spec_flat_seq(*exterior, stride as int),
                    out@ == mid + spec_flatten_rings(interiors@.subrange(0, i as int),
                        stride as int),
                decreases interiors@.len() - i,
            {
                assert(interiors@[i as int].wf());
                let ring = &interiors[i];
                let needed_r = ring.data.len() / ring.dim;
                if !fits(out.len(), needed_r, stride) {
                    proof {
                        lemma_surface_prefix_bound(*tree, i as int, stride as int, old(out)@.len()
                            as int, out@.len() as int);
                    }
                    return Err(());
                }
                append_flat_seq(ring, stride, out);
                i = i + 1;
                proof {
                    lemma_flatten_rings_snoc(interiors@, i as int, stride as int);
                    assert(out@ =~= mid + spec_flatten_rings(interiors@.subrange(0, i as int),
                        stride as int));
                }
            }
            proof {
                assert(interiors@.subrange(0, interiors@.len() as int) =~= interiors@);
            }
            Ok(())
        },
        GeomTree::Collection { parts, .. } => {
            let mut i: usize = 0;
            while i < parts.len()
                invariant
                    tree.wf(),
                    tree is Collection,
                    2 <= stride <= 4,
                    tree->Collection_parts == *parts,
                    0 <= i <= parts@.len(),
                    out@ == old(out)@ + spec_flatten_parts(parts@.subrange(0, i as int),
                        stride as int),
                decreases parts@.len() - i,
            {
                proof {
                    lemma_all_wf_index(parts@, i as int);
                }
                let part = &parts[i];
                let ghost before_len = out@.len() as int;
                match flatten_into(part, stride, out) {
                    Ok(()) => {},
                    Err(()) => {
                        proof {
                            lemma_parts_prefix_bound(*tree, i as int, stride as int, old(out)@.len()
                                as int, before_len);
                        }
                        return Err(());
                    },
                }
                i = i + 1;
                proof {
                    lemma_flatten_parts_snoc(parts@, i as int, stride as int);
                    assert(out@ =~= old(out)@ + spec_flatten_parts(parts@.subrange(0, i as int),
                        stride as int));
                }
            }
            proof {
                assert(parts@.subrange(0, parts@.len() as int) =~= parts@);
            }
            Ok(())
        },
    }
}

/// Flatten every geometry of a column under the broadcast contract: null
/// rows stay null, and the first geometry whose buffer would outgrow the
/// address space aborts the whole column with its row index.
pub fn get_coordinates(col: &Vec<Option<GeomTree>>, stride: usize) -> (r: Result<
    Vec<Option<Vec<u64>>>,
    ApplyError<()>,
>)
    requires
        2 <= stride <= 4,
        forall|i: int| 0 <= i < col@.len() && col@[i] is Some ==> (#[trigger] col@[i])->Some_0.wf(),
    ensures
        match r {
            Ok(out) => {
                &&& out@.len() == col@.len()
                &&& forall|i: int|
                    0 <= i < col@.len() ==> ((#[trigger] out@[i]) is Some <==> col@[i] is Some)
                &&& forall|i: int|
                    0 <= i < col@.len() && col@[i] is Some ==> (#[trigger] out@[i])->Some_0@
                        == spec_flatten(col@[i]->Some_0, stride as int)
            },
            Err(e) => {
                &&& e is RowFailure
                &&& 0 <= e->RowFailure_row < col@.len()
                &&& col@[e->RowFailure_row as int] is Some
                &&& spec_flatten(col@[e->RowFailure_row as int]->Some_0, stride as int).len()
                    > usize::MAX
            },
        },
{
    let mut out: Vec<Option<Vec<u64>>> = Vec::new();
    let n = col.len();
    let mut i: usize = 0;
    while i < n
        invariant
            n == col@.len(),
            2 <= stride <= 4,
            0 <= i <= n,
            out@.len() == i,
            forall|k: int|
                0 <= k < col@.len() && col@[k] is Some ==> (#[trigger] col@[k])->Some_0.wf(),
            forall|k: int| 0 <= k < i ==> ((#[trigger] out@[k]) is Some <==> col@[k] is Some),
            forall|k: int|
                0 <= k < i && col@[k] is Some ==> (#[trigger] out@[k])->Some_0@ == spec_flatten(
                    col@[k]->Some_0, stride as int),
        decreases n - i,
    {
        match &col[i] {
            Some(tree) => {
                match flatten_coordinates(tree, stride) {
                    Ok(buf) => {
                        out.push(Some(buf));
                    },
                    Err(()) => {
                        return Err(ApplyError::RowFailure { row: i, error: () });
                    },
                }
            },
            None => {
                out.push(None);
            },
        }
        i = i + 1;
    }
    Ok(out)
}

/// Whether `have + needed * stride` stays within address-space bounds.
fn fits(have: usize, needed: usize, stride: usize) -> (r: bool)
    requires
        stride <= 4,
    ensures
        r == (have + needed * stride <= usize::MAX),
{
    proof {
        assert(needed * stride <= usize::MAX * 4) by (nonlinear_arith)
            requires
                stride <= 4,
                needed <= usize::MAX,
        ;
    }
    let scaled: u128 = (needed as u128) * (stride as u128);
    let total: u128 = (have as u128) + scaled;
    total <= usize::MAX as u128
}

proof fn lemma_ring_count_nonneg(rs: Seq<CoordSeq>)
    requires
        forall|i: int| 0 <= i < rs.len() ==> (#[trigger] rs[i]).wf(),
    ensures
        GeomTree::ring_count(rs) >= 0,
    decreases rs.len(),
{
    if rs.len() == 0 {
    } else {
        let tail = rs.subrange(1, rs.len() as int);
        assert(forall|i: int| 0 <= i < tail.len() ==> tail[i] == rs[i + 1]);
        lemma_ring_count_nonneg(tail);
        assert(rs[0].point_count() >= 0) by (nonlinear_arith)
            requires
                rs[0].wf(),
        ;
    }
}

proof fn lemma_all_wf_index(ps: Seq<GeomTree>, i: int)
    requires
        GeomTree::all_wf(ps),
        0 <= i < ps.len(),
    ensures
        ps[i].wf(),
    decreases ps.len(),
{
    if i == 0 {
    } else {
        lemma_all_wf_index(ps.subrange(1, ps.len() as int), i - 1);
    }
}

/// Splitting off the last element of a ring prefix.
proof fn lemma_flatten_rings_snoc(rs: Seq<CoordSeq>, i: int, stride: int)
    requires
        1 <= i <= rs.len(),
    ensures
        spec_flatten_rings(rs.subrange(0, i), stride) == spec_flatten_rings(rs.subrange(0, i - 1),
            stride) + spec_flat_seq(rs[i - 1], stride),
    decreases i,
{
    if i == 1 {
        reveal_with_fuel(spec_flatten_rings, 3);
        assert(rs.subrange(0, 1)[0] == rs[0]);
        assert(rs.subrange(0, 1).subrange(1, 1) =~= Seq::<CoordSeq>::empty());
        assert(rs.subrange(0, 0) =~= Seq::<CoordSeq>::empty());
        assert(spec_flatten_rings(rs.subrange(0, 1), stride) =~= spec_flat_seq(rs[0], stride));
        assert(spec_flatten_rings(rs.subrange(0, 0), stride) + spec_flat_seq(rs[0], stride)
            =~= spec_flat_seq(rs[0], stride));
    } else {
        let tail = rs.subrange(1, rs.len() as int);
        lemma_flatten_rings_snoc(tail, i - 1, stride);
        assert(rs.subrange(0, i).subrange(1, i) =~= tail.subrange(0, i - 1));
        assert(rs.subrange(0, i - 1).subrange(1, i - 1) =~= tail.subrange(0, i - 2));
        assert(rs.subrange(0, i)[0] == rs[0]);
        assert(rs.subrange(0, i - 1)[0] == rs[0]);
        assert(tail[i - 2] == rs[i - 1]);
        assert(spec_flatten_rings(rs.subrange(0, i), stride) == spec_flat_seq(rs[0], stride)
            + spec_flatten_rings(tail.subrange(0, i - 1), stride));
        assert(spec_flatten_rings(rs.subrange(0, i - 1), stride) == spec_flat_seq(rs[0], stride)
            + spec_flatten_rings(tail.subrange(0, i - 2), stride));
        assert(spec_flatten_rings(rs.subrange(0, i), stride) =~= spec_flatten_rings(rs.subrange(0, i
            - 1), stride) + spec_flat_seq(rs[i - 1], stride));
    }
}

/// Splitting off the last element of a parts prefix.
proof fn lemma_flatten_parts_snoc(ps: Seq<GeomTree>, i: int, stride: int)
    requires
        1 <= i <= ps.len(),
    ensures
        spec_flatten_parts(ps.subrange(0, i), stride) == spec_flatten_parts(ps.subrange(0, i - 1),
            stride) + spec_flatten(ps[i - 1], stride),
    decreases i,
{
    if i == 1 {
        reveal_with_fuel(spec_flatten_parts, 3);
        assert(ps.subrange(0, 1)[0] == ps[0]);
        assert(ps.subrange(0, 1).subrange(1, 1) =~= Seq::<GeomTree>::empty());
        assert(ps.subrange(0, 0) =~= Seq::<GeomTree>::empty());
        assert(spec_flatten_parts(ps.subrange(0, 1), stride) =~= spec_flatten(ps[0], stride));
        assert(spec_flatten_parts(ps.subrange(0, 0), stride) + spec_flatten(ps[0], stride)
            =~= spec_flatten(ps[0], stride));
    } else {
        let tail = ps.subrange(1, ps.len() as int);
        lemma_flatten_parts_snoc(tail, i - 1, stride);
        assert(ps.subrange(0, i).subrange(1, i) =~= tail.subrange(0, i - 1));
        assert(ps.subrange(0, i - 1).subrange(1, i - 1) =~= tail.subrange(0, i - 2));
        assert(ps.subrange(0, i)[0] == ps[0]);
        assert(ps.subrange(0, i - 1)[0] == ps[0]);
        assert(tail[i - 2] == ps[i - 1]);
        assert(spec_flatten_parts(ps.subrange(0, i), stride) == spec_flatten(ps[0], stride)
            + spec_flatten_parts(tail.subrange(0, i - 1), stride));
        assert(spec_flatten_parts(ps.subrange(0, i - 1), stride) == spec_flatten(ps[0], stride)
            + spec_flatten_parts(tail.subrange(0, i - 2), stride));
        assert(spec_flatten_parts(ps.subrange(0, i), stride) =~= spec_flatten_parts(ps.subrange(0, i
            - 1), stride) + spec_flatten(ps[i - 1], stride));
    }
}

/// What has been written so far plus the next ring never exceeds the whole
/// surface's flattening.
proof fn lemma_surface_prefix_bound(t: GeomTree, i: int, stride: int, base: int, cur: int)
    requires
        t is Surface,
        stride >= 2,
        0 <= i < t->Surface_interiors@.len(),
        cur == base + spec_flat_seq(t->Surface_exterior, stride).len() + spec_flatten_rings(
            t->Surface_interiors@.subrange(0, i), stride).len(),
        cur + spec_flat_seq(t->Surface_interiors@[i], stride).len() > usize::MAX,
    ensures
        base + spec_flatten(t, stride).len() > usize::MAX,
{
    let rs = t->Surface_interiors@;
    lemma_rings_prefix_le(rs, i + 1, stride);
    lemma_flatten_rings_snoc(rs, i + 1, stride);
}

/// A prefix of the rings flattens to no more than all rings.
proof fn lemma_rings_prefix_le(rs: Seq<CoordSeq>, i: int, stride: int)
    requires
        0 <= i <= rs.len(),
    ensures
        spec_flatten_rings(rs.subrange(0, i), stride).len() <= spec_flatten_rings(rs, stride).len(),
    decreases rs.len() - i,
{
    if i == rs.len() {
        assert(rs.subrange(0, i) =~= rs);
    } else {
        lemma_flatten_rings_snoc(rs, i + 1, stride);
        lemma_rings_prefix_le(rs, i + 1, stride);
    }
}

/// What has been written so far plus the next part never exceeds the whole
/// collection's flattening.
proof fn lemma_parts_prefix_bound(t: GeomTree, i: int, stride: int, base: int, cur: int)
    requires
        t is Collection,
        stride >= 2,
        0 <= i < t->Collection_parts@.len(),
        cur == base + spec_flatten_parts(t->Collection_parts@.subrange(0, i), stride).len(),
        cur + spec_flatten(t->Collection_parts@[i], stride).len() > usize::MAX,
    ensures
        base + spec_flatten(t, stride).len() > usize::MAX,
{
    let ps = t->Collection_parts@;
    lemma_parts_prefix_le(ps, i + 1, stride);
    lemma_flatten_parts_snoc(ps, i + 1, stride);
}

/// A prefix of the parts flattens to no more than all parts.
proof fn lemma_parts_prefix_le(ps: Seq<GeomTree>, i: int, stride: int)
    requires
        0 <= i <= ps.len(),
    ensures
        spec_flatten_parts(ps.subrange(0, i), stride).len() <= spec_flatten_parts(ps, stride).len(),
    decreases ps.len() - i,
{
    if i == ps.len() {
        assert(ps.subrange(0, i) =~= ps);
    } else {
        lemma_flatten_parts_snoc(ps, i + 1, stride);
        lemma_parts_prefix_le(ps, i + 1, stride);
    }
}

} // verus!
