//! An explicit geometry tree: the structural view of one geometry that the
//! coordinate flattener traverses.
//!
//! Coordinate values are carried as the 64-bit patterns of their binary
//! encoding; the traversal never interprets them numerically, so the tree
//! stays a structure over plain values.

use vstd::prelude::*;
use crate::header::GeometryType;

verus! {

/// A contiguous coordinate sequence: `dim` ordinates per point, stored
/// point-major.
#[derive(Clone, Debug)]
pub struct CoordSeq {
    /// Ordinates per point; between two and four.
    pub dim: usize,
    /// The ordinate patterns, `dim` per point.
    pub data: Vec<u64>,
}

impl CoordSeq {
    pub open spec fn wf(self) -> bool {
        &&& 2 <= self.dim <= 4
        &&& self.data@.len() as int % (self.dim as int) == 0
    }

    /// How many points the sequence holds.
    pub open spec fn point_count(self) -> int {
        self.data@.len() as int / (self.dim as int)
    }

    pub open spec fn is_empty(self) -> bool {
        self.data@.len() == 0
    }
}

/// Which structural class a geometry kind belongs to.  Curve kinds that only
/// ever occur as headers degrade to their nearest linear analogue.
pub open spec fn leaf_kind(k: GeometryType) -> bool {
    match k {
        GeometryType::Point => true,
        GeometryType::LineString => true,
        GeometryType::CircularString => true,
        GeometryType::Curve => true,
        _ => false,
    }
}

pub open spec fn surface_kind(k: GeometryType) -> bool {
    match k {
        GeometryType::Polygon => true,
        GeometryType::CurvePolygon => true,
        GeometryType::Triangle => true,
        GeometryType::Surface => true,
        _ => false,
    }
}

pub open spec fn collection_kind(k: GeometryType) -> bool {
    match k {
        GeometryType::MultiPoint => true,
        GeometryType::MultiLineString => true,
        GeometryType::MultiPolygon => true,
        GeometryType::MultiCurve => true,
        GeometryType::MultiSurface => true,
        GeometryType::CompoundCurve => true,
        GeometryType::GeometryCollection => true,
        GeometryType::PolyhedralSurface => true,
        GeometryType::Tin => true,
        GeometryType::Unknown => true,
        _ => false,
    }
}

/// One geometry as a tree: a leaf with its own coordinate sequence, a surface
/// with an exterior ring and interior rings, or a collection of parts.
pub enum GeomTree {
    /// Point, LineString, CircularString or the bare Curve placeholder.
    Leaf { kind: GeometryType, coords: CoordSeq },
    /// Polygon, CurvePolygon, Triangle or the bare Surface placeholder: an
    /// exterior ring followed by interior rings in index order.
    Surface { kind: GeometryType, exterior: CoordSeq, interiors: Vec<CoordSeq> },
    /// Any multi-part or collection kind: parts in index order.
    Collection { kind: GeometryType, parts: Vec<GeomTree> },
}

impl GeomTree {
    /// Well-formedness: every coordinate sequence is valid and every node's
    /// kind belongs to the structural class of its variant.
    pub open spec fn wf(self) -> bool
        decreases self, 1int, 0int,
    {
        match self {
            GeomTree::Leaf { kind, coords } => leaf_kind(kind) && coords.wf(),
            GeomTree::Surface { kind, exterior, interiors } => {
                &&& surface_kind(kind)
                &&& exterior.wf()
                &&& forall|i: int|
                    0 <= i < interiors@.len() ==> (#[trigger] interiors@[i]).wf()
            },
            GeomTree::Collection { kind, parts } => {
                &&& collection_kind(kind)
                &&& GeomTree::all_wf(parts@)
            },
        }
    }

    pub open spec fn all_wf(ps: Seq<GeomTree>) -> bool
        decreases ps, 0int, 0int,
    {
        if ps.len() == 0 {
            true
        } else {
            ps[0].wf() && GeomTree::all_wf(ps.subrange(1, ps.len() as int))
        }
    }

    /// A geometry is empty when it holds no coordinates at any level.
    pub open spec fn is_empty(self) -> bool
        decreases self, 1int, 0int,
    {
        match self {
            GeomTree::Leaf { coords, .. } => coords.is_empty(),
            GeomTree::Surface { exterior, interiors, .. } => {
                &&& exterior.is_empty()
                &&& forall|i: int|
                    0 <= i < interiors@.len() ==> (#[trigger] interiors@[i]).is_empty()
            },
            GeomTree::Collection { parts, .. } => GeomTree::all_empty(parts@),
        }
    }

    pub open spec fn all_empty(ps: Seq<GeomTree>) -> bool
        decreases ps, 0int, 0int,
    {
        if ps.len() == 0 {
            true
        } else {
            ps[0].is_empty() && GeomTree::all_empty(ps.subrange(1, ps.len() as int))
        }
    }

    /// The total number of coordinate points in traversal order.
    pub open spec fn coord_count(self) -> int
        decreases self, 1int, 0int,
    {
        match self {
            GeomTree::Leaf { coords, .. } => coords.point_count(),
            GeomTree::Surface { exterior, interiors, .. } => exterior.point_count()
                + GeomTree::ring_count(interiors@),
            GeomTree::Collection { parts, .. } => GeomTree::parts_count(parts@),
        }
    }

    pub open spec fn ring_count(rs: Seq<CoordSeq>) -> int
        decreases rs.len(),
    {
        if rs.len() == 0 {
            0
        } else {
            rs[0].point_count() + GeomTree::ring_count(rs.subrange(1, rs.len() as int))
        }
    }

    pub open spec fn parts_count(ps: Seq<GeomTree>) -> int
        decreases ps, 0int, 0int,
    {
        if ps.len() == 0 {
            0
        } else {
            ps[0].coord_count() + GeomTree::parts_count(ps.subrange(1, ps.len() as int))
        }
    }

    /// How many component geometries this value has: its parts for a
    /// collection, one for anything else.
    pub fn get_num_geometries(&self) -> (n: usize)
        ensures
            n as int == (match *self {
                GeomTree::Collection { parts, .. } => parts@.len() as int,
                _ => 1int,
            }),
    {
        match self {
            GeomTree::Collection { parts, .. } => parts.len(),
            _ => 1,
        }
    }

    /// How many interior rings this value has; zero for any kind without
    /// rings rather than an error.
    pub fn get_num_interior_rings(&self) -> (n: usize)
        ensures
            n as int == (match *self {
                GeomTree::Surface { interiors, .. } => interiors@.len() as int,
                _ => 0int,
            }),
    {
        match self {
            GeomTree::Surface { interiors, .. } => interiors.len(),
            _ => 0,
        }
    }

    /// How many points a line-like value has; zero for any other kind
    /// rather than an error.
    pub fn get_num_points(&self) -> (n: usize)
        requires
            self.wf(),
        ensures
            n as int == (match *self {
                GeomTree::Leaf { kind, coords } => if kind == GeometryType::LineString {
                    coords.point_count()
                } else {
                    0int
                },
                _ => 0int,
            }),
    {
        match self {
            GeomTree::Leaf { kind, coords } => {
                if *kind == GeometryType::LineString {
                    coords.data.len() / coords.dim
                } else {
                    0
                }
            },
            _ => 0,
        }
    }

    /// The exterior ring of a surface; `None` for a kind without one, as
    /// the asked-for part simply does not exist.
    pub fn get_exterior_ring(&self) -> (r: Option<&CoordSeq>)
        ensures
            match *self {
                GeomTree::Surface { exterior, .. } => r is Some && *r->Some_0 == exterior,
                _ => r is None,
            },
    {
        match self {
            GeomTree::Surface { exterior, .. } => Some(exterior),
            _ => None,
        }
    }

    /// Interior ring `n` of a surface; `None` for another kind or an index
    /// past the rings.
    pub fn get_interior_ring_n(&self, n: usize) -> (r: Option<&CoordSeq>)
        ensures
            match *self {
                GeomTree::Surface { interiors, .. } => if n < interiors@.len() {
                    r is Some && *r->Some_0 == interiors@[n as int]
                } else {
                    r is None
                },
                _ => r is None,
            },
    {
        match self {
            GeomTree::Surface { interiors, .. } => {
                if n < interiors.len() {
                    Some(&interiors[n])
                } else {
                    None
                }
            },
            _ => None,
        }
    }

    /// Component `n` of this value: part `n` of a collection, the value
    /// itself at index zero otherwise, `None` past the component count.
    pub fn get_geometry_n(&self, n: usize) -> (r: Option<&GeomTree>)
        ensures
            match *self {
                GeomTree::Collection { parts, .. } => if n < parts@.len() {
                    r is Some && *r->Some_0 == parts@[n as int]
                } else {
                    r is None
                },
                _ => if n == 0 {
                    r is Some && *r->Some_0 == *self
                } else {
                    r is None
                },
            },
    {
        match self {
            GeomTree::Collection { parts, .. } => {
                if n < parts.len() {
                    Some(&parts[n])
                } else {
                    None
                }
            },
            _ => {
                if n == 0 {
                    Some(self)
                } else {
                    None
                }
            },
        }
    }
}

} // verus!
