//! Axis-aligned bounding boxes over totally ordered coordinate keys.
//!
//! A coordinate key is the 64-bit pattern of a binary64 ordinate mapped
//! through an order-preserving involution (`sort_key`), so that unsigned
//! integer comparison of keys agrees with the numeric order of the ordinates
//! they came from.  Working over keys keeps every box predicate a plain
//! integer comparison.

use vstd::prelude::*;

verus! {

/// The minimum enclosing axis-aligned rectangle of a geometry, in
/// coordinate-key space.
#[derive(Clone, Copy, Debug, PartialEq, Eq, Structural)]
pub struct BBox {
    pub xmin: u64,
    pub ymin: u64,
    pub xmax: u64,
    pub ymax: u64,
}

/// Whether two boxes share at least one point.
pub open spec fn spec_intersects(a: BBox, b: BBox) -> bool {
    &&& a.xmin <= b.xmax
    &&& b.xmin <= a.xmax
    &&& a.ymin <= b.ymax
    &&& b.ymin <= a.ymax
}

/// Whether `outer` encloses `inner`.
pub open spec fn spec_contains(outer: BBox, inner: BBox) -> bool {
    &&& outer.xmin <= inner.xmin
    &&& outer.ymin <= inner.ymin
    &&& inner.xmax <= outer.xmax
    &&& inner.ymax <= outer.ymax
}

/// The smallest box enclosing both arguments.
pub open spec fn spec_union(a: BBox, b: BBox) -> BBox {
    BBox {
        xmin: if a.xmin <= b.xmin {
            a.xmin
        } else {
            b.xmin
        },
        ymin: if a.ymin <= b.ymin {
            a.ymin
        } else {
            b.ymin
        },
        xmax: if a.xmax >= b.xmax {
            a.xmax
        } else {
            b.xmax
        },
        ymax: if a.ymax >= b.ymax {
            a.ymax
        } else {
            b.ymax
        },
    }
}

impl BBox {
    /// Whether this box and `other` share at least one point.
    pub fn intersects(&self, other: &BBox) -> (r: bool)
        ensures
            r == spec_intersects(*self, *other),
    {
        self.xmin <= other.xmax && other.xmin <= self.xmax && self.ymin <= other.ymax
            && other.ymin <= self.ymax
    }

    /// The smallest box enclosing this box and `other`.
    pub fn union(&self, other: &BBox) -> (r: BBox)
        ensures
            r == spec_union(*self, *other),
            spec_contains(r, *self),
            spec_contains(r, *other),
    {
        BBox {
            xmin: if self.xmin <= other.xmin {
                self.xmin
            } else {
                other.xmin
            },
            ymin: if self.ymin <= other.ymin {
                self.ymin
            } else {
                other.ymin
            },
            xmax: if self.xmax >= other.xmax {
                self.xmax
            } else {
                other.xmax
            },
            ymax: if self.ymax >= other.ymax {
                self.ymax
            } else {
                other.ymax
            },
        }
    }
}

/// Anything intersecting a contained box intersects the container.
pub proof fn lemma_contains_intersects(outer: BBox, inner: BBox, q: BBox)
    requires
        spec_contains(outer, inner),
        spec_intersects(inner, q),
    ensures
        spec_intersects(outer, q),
{
}

/// Containment is transitive.
pub proof fn lemma_contains_trans(a: BBox, b: BBox, c: BBox)
    requires
        spec_contains(a, b),
        spec_contains(b, c),
    ensures
        spec_contains(a, c),
{
}

/// The order-preserving key of one binary64 bit pattern: patterns with the
/// sign bit clear (non-negative values) move above the midpoint keeping
/// their order; patterns with the sign bit set (negative values) are
/// reflected below it, so that unsigned key order matches numeric order.
pub open spec fn spec_sort_key(bits: u64) -> u64 {
    if bits >= 0x8000_0000_0000_0000 {
        (0xFFFF_FFFF_FFFF_FFFFu64 - bits) as u64
    } else {
        (bits + 0x8000_0000_0000_0000) as u64
    }
}

/// Maps a binary64 bit pattern to its order-preserving coordinate key.
pub fn sort_key(bits: u64) -> (r: u64)
    ensures
        r == spec_sort_key(bits),
{
    if bits >= 0x8000_0000_0000_0000 {
        0xFFFF_FFFF_FFFF_FFFF - bits
    } else {
        bits + 0x8000_0000_0000_0000
    }
}

/// The key map keeps the order of non-negative patterns, reverses the order
/// of negative ones, places every negative below every non-negative, and is
/// injective.
pub proof fn lemma_sort_key_order(a: u64, b: u64)
    ensures
        a < 0x8000_0000_0000_0000 && b < 0x8000_0000_0000_0000 ==> (spec_sort_key(a)
            <= spec_sort_key(b) <==> a <= b),
        a >= 0x8000_0000_0000_0000 && b >= 0x8000_0000_0000_0000 ==> (spec_sort_key(a)
            <= spec_sort_key(b) <==> b <= a),
        a >= 0x8000_0000_0000_0000 && b < 0x8000_0000_0000_0000 ==> spec_sort_key(a)
            < spec_sort_key(b),
        spec_sort_key(a) == spec_sort_key(b) ==> a == b,
{
}

/// The total bounds of a column: the union of its present boxes, `None` when
/// every row is null.
pub open spec fn spec_total_bounds(col: Seq<Option<BBox>>) -> Option<BBox>
    decreases col.len(),
{
    if col.len() == 0 {
        None
    } else {
        let rest = spec_total_bounds(col.drop_last());
        match col.last() {
            None => rest,
            Some(bb) => match rest {
                None => Some(bb),
                Some(acc) => Some(spec_union(acc, bb)),
            },
        }
    }
}

/// Fold the present boxes of a column into their common bounds.
///
/// Returns `None` exactly when the column holds no box at all; otherwise the
/// running union of every present box, in row order.
pub fn total_bounds(col: &Vec<Option<BBox>>) -> (r: Option<BBox>)
    ensures
        r == spec_total_bounds(col@),
        r is None <==> (forall|i: int| 0 <= i < col@.len() ==> (#[trigger] col@[i]) is None),
{
    let mut acc: Option<BBox> = None;
    let mut i: usize = 0;
    let n = col.len();
    while i < n
        invariant
            n == col@.len(),
            0 <= i <= n,
            acc == spec_total_bounds(col@.subrange(0, i as int)),
            acc is None <==> (forall|k: int| 0 <= k < i ==> (#[trigger] col@[k]) is None),
        decreases n - i,
    {
        match &col[i] {
            Some(bb) => {
                match acc {
                    None => {
                        acc = Some(*bb);
                    },
                    Some(a) => {
                        acc = Some(a.union(bb));
                    },
                }
            },
            None => {},
        }
        i = i + 1;
        proof {
            assert(col@.subrange(0, i as int).drop_last() =~= col@.subrange(0, i as int - 1));
            assert(col@.subrange(0, i as int).last() == col@[i as int - 1]);
        }
    }
    proof {
        assert(col@.subrange(0, n as int) =~= col@);
    }
    acc
}

/// The total bounds enclose every present box of the column.
pub proof fn lemma_total_bounds_contains(col: Seq<Option<BBox>>, i: int)
    requires
        0 <= i < col.len(),
        col[i] is Some,
    ensures
        spec_total_bounds(col) is Some,
        spec_contains(spec_total_bounds(col)->Some_0, col[i]->Some_0),
    decreases col.len(),
{
    if i == col.len() - 1 {
        match spec_total_bounds(col.drop_last()) {
            None => {},
            Some(acc) => {},
        }
    } else {
        lemma_total_bounds_contains(col.drop_last(), i);
        match col.last() {
            None => {},
            Some(bb) => {},
        }
    }
}

} // verus!
