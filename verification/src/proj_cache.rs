//! A per-invocation cache of resolved projection definitions, keyed by
//! spatial reference identifier.
//!
//! Resolving an identifier goes through the projection library, whose
//! outcome may depend on more than the code: some definitions name a
//! datum-shift grid that the host process must have registered with the
//! library's grid catalog, so the same code can resolve in one process and
//! not in another.  The contracts here therefore promise nothing about
//! which codes resolve; what is verified is the cache itself — what it
//! holds, what it hands back, and that a failed lookup leaves it untouched.
//! The cache is caller-owned, scoped to one column evaluation: never
//! shared, never global.

use vstd::prelude::*;
use std::collections::HashMap;

verus! {

broadcast use vstd::std_specs::hash::group_hash_axioms;

/// Declares proj4rs's `Proj` so that resolved projection definitions can be
/// held and handed out; the library never looks inside one.
#[verifier::external_type_specification]
#[verifier::external_body]
pub struct ExProj(proj4rs::proj::Proj);

/// Relies on proj4rs's `Proj::from_epsg_code` only for a definition or a
/// refusal: the lookup consults tables compiled into the library and, for
/// some definitions, a grid catalog the host process may have extended, so
/// nothing is promised about which codes succeed.
#[verifier::external_body]
fn resolve_epsg(code: u16) -> (r: Option<proj4rs::proj::Proj>) {
    proj4rs::Proj::from_epsg_code(code).ok()
}

/// A requested spatial reference with no resolvable projection definition.
#[derive(Clone, Copy, Debug, PartialEq, Eq, Structural)]
pub enum SridError {
    UnknownSpatialReference { srid: i64 },
}

/// The caller-owned projection cache of one column evaluation.
pub struct ProjCache {
    map: HashMap<u16, proj4rs::proj::Proj>,
}

impl ProjCache {
    /// The definitions resolved so far, by reference identifier.
    pub closed spec fn resolved(self) -> Map<u16, proj4rs::proj::Proj> {
        self.map@
    }

    /// An empty cache.
    pub fn new() -> (c: ProjCache)
        ensures
            c.resolved() == Map::<u16, proj4rs::proj::Proj>::empty(),
    {
        ProjCache { map: HashMap::new() }
    }

    /// The projection of `code`: the cached definition when one is held,
    /// else freshly resolved and cached.  A code already cached is answered
    /// from the cache, unchanged; a fresh resolution extends the cache by
    /// exactly that entry; a failed resolution leaves the cache untouched
    /// and reports the code that failed.
    pub fn get(&mut self, code: u16) -> (r: Result<&proj4rs::proj::Proj, SridError>)
        ensures
            match r {
                Ok(p) => {
                    &&& final(self).resolved().contains_key(code)
                    &&& *p == final(self).resolved()[code]
                    &&& old(self).resolved().contains_key(code) ==> final(self).resolved() == old(
                        self).resolved()
                    &&& !old(self).resolved().contains_key(code) ==> final(self).resolved() == old(
                        self).resolved().insert(code, *p)
                },
                Err(e) => {
                    &&& !old(self).resolved().contains_key(code)
                    &&& e == (SridError::UnknownSpatialReference { srid: code as i64 })
                    &&& final(self).resolved() == old(self).resolved()
                },
            },
    {
        if !self.map.contains_key(&code) {
            match resolve_epsg(code) {
                Some(p) => {
                    self.map.insert(code, p);
                },
                None => {
                    return Err(SridError::UnknownSpatialReference { srid: code as i64 });
                },
            }
        }
        match self.map.get(&code) {
            Some(p) => Ok(p),
            None => {
                proof {
                    assert(false);
                }
                Err(SridError::UnknownSpatialReference { srid: code as i64 })
            },
        }
    }
}

/// What a column's coordinate-transform step should do with one value,
/// given its header's reference identifier and the requested one.
#[derive(Clone, Copy, Debug, PartialEq, Eq, Structural)]
pub enum TransformPlan {
    /// The value already carries the requested reference, or is empty:
    /// hand it back unchanged.
    Keep,
    /// Transform from `source` to `dest`.
    Transform { source: u16, dest: u16 },
}

/// Decide how to bring one value to the requested spatial reference.
///
/// A value whose reference already matches, or which is empty, is kept as
/// it is.  Otherwise both references must name codes the projection tables
/// can hold (unsigned, sixteen bits); a reference outside that range is
/// unknown, reported under the identifier that failed.
pub fn to_srid_plan(geom_srid: i32, dest_srid: i64, is_empty: bool) -> (r: Result<
    TransformPlan,
    SridError,
>)
    ensures
        (geom_srid as i64 == dest_srid || is_empty) ==> r == Ok::<TransformPlan, SridError>(
            TransformPlan::Keep),
        !(geom_srid as i64 == dest_srid || is_empty) ==> {
            if !(0 <= geom_srid <= u16::MAX) {
                r == Err::<TransformPlan, SridError>(SridError::UnknownSpatialReference {
                    srid: geom_srid as i64,
                })
            } else if !(0 <= dest_srid <= u16::MAX) {
                r == Err::<TransformPlan, SridError>(SridError::UnknownSpatialReference {
                    srid: dest_srid,
                })
            } else {
                r == Ok::<TransformPlan, SridError>(TransformPlan::Transform {
                    source: geom_srid as u16,
                    dest: dest_srid as u16,
                })
            }
        },
{
    if (geom_srid as i64) == dest_srid || is_empty {
        return Ok(TransformPlan::Keep);
    }
    if !(0 <= geom_srid && geom_srid <= u16::MAX as i32) {
        return Err(SridError::UnknownSpatialReference { srid: geom_srid as i64 });
    }
    if !(0 <= dest_srid && dest_srid <= u16::MAX as i64) {
        return Err(SridError::UnknownSpatialReference { srid: dest_srid });
    }
    Ok(TransformPlan::Transform { source: geom_srid as u16, dest: dest_srid as u16 })
}

} // verus!
