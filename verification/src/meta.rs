//! Metadata queries over columns of encoded geometries: the fast path that
//! reads only each value's header.
//!
//! Each operation runs under the broadcast execution contract: null rows
//! stay null, and the first malformed value aborts the whole column with its
//! row index.

use vstd::prelude::*;
use crate::broadcast_apply::{broadcast_apply_1, ApplyError};
use crate::header::{spec_decode_header, decode_header, MalformedHeader, GeometryType};

verus! {

/// The base type code a value's header reports.
pub open spec fn spec_type_id_of(bytes: Seq<u8>) -> Result<u32, MalformedHeader> {
    match spec_decode_header(bytes) {
        Ok(d) => Ok(d.header.base_type.spec_code()),
        Err(e) => Err(e),
    }
}

/// The coordinate dimensionality a value's header reports: two plus one for
/// each of the Z and M flags.
pub open spec fn spec_dimension_of(bytes: Seq<u8>) -> Result<u32, MalformedHeader> {
    match spec_decode_header(bytes) {
        Ok(d) => Ok(
            (2 + (if d.header.has_z {
                1int
            } else {
                0int
            }) + (if d.header.has_m {
                1int
            } else {
                0int
            })) as u32,
        ),
        Err(e) => Err(e),
    }
}

/// The spatial reference identifier a value's header carries: `Some` of the
/// stored identifier when the header's reference flag is set, `None` when
/// the header carries none.  A stored identifier stays distinguishable from
/// an absent one.
pub open spec fn spec_srid_of(bytes: Seq<u8>) -> Result<Option<i32>, MalformedHeader> {
    match spec_decode_header(bytes) {
        Ok(d) => Ok(d.header.srid),
        Err(e) => Err(e),
    }
}

/// What a whole-column header query guarantees, given the per-row spec.
pub open spec fn spec_column_result<V>(
    col: Seq<Option<Vec<u8>>>,
    r: Result<Vec<Option<V>>, ApplyError<MalformedHeader>>,
    row_spec: spec_fn(Seq<u8>) -> Result<V, MalformedHeader>,
) -> bool {
    match r {
        Ok(out) => {
            &&& out@.len() == col.len()
            &&& forall|i: int|
                0 <= i < col.len() ==> ((#[trigger] out@[i]) is Some <==> col[i] is Some)
            &&& forall|i: int|
                0 <= i < col.len() && col[i] is Some ==> row_spec((#[trigger] col[i])->Some_0@)
                    == Ok::<V, MalformedHeader>(out@[i]->Some_0)
        },
        Err(e) => {
            &&& e is RowFailure
            &&& 0 <= e->RowFailure_row < col.len()
            &&& col[e->RowFailure_row as int] is Some
            &&& row_spec(col[e->RowFailure_row as int]->Some_0@) == Err::<V, MalformedHeader>(
                e->RowFailure_error)
            &&& forall|i: int|
                0 <= i < e->RowFailure_row && (#[trigger] col[i]) is Some ==> row_spec(
                    col[i]->Some_0@) is Ok
        },
    }
}

/// The base type code of every value in a column, by header alone.
pub fn get_type_id(col: &Vec<Option<Vec<u8>>>) -> (r: Result<
    Vec<Option<u32>>,
    ApplyError<MalformedHeader>,
>)
    ensures
        spec_column_result(col@, r, |bytes: Seq<u8>| spec_type_id_of(bytes)),
{
    let f = |wkb: &Vec<u8>| -> (res: Result<u32, MalformedHeader>)
        ensures
            res == spec_type_id_of(wkb@),
        {
            match decode_header(wkb.as_slice()) {
                Ok(d) => Ok(d.header.base_type.type_code()),
                Err(e) => Err(e),
            }
        };
    let r = broadcast_apply_1(col, &f);
    proof {
        lemma_lift_column::<u32, _>(col@, r, |bytes: Seq<u8>| spec_type_id_of(bytes), f);
    }
    r
}

/// The coordinate dimensionality of every value in a column, by header
/// alone.
pub fn get_coordinate_dimension(col: &Vec<Option<Vec<u8>>>) -> (r: Result<
    Vec<Option<u32>>,
    ApplyError<MalformedHeader>,
>)
    ensures
        spec_column_result(col@, r, |bytes: Seq<u8>| spec_dimension_of(bytes)),
{
    let f = |wkb: &Vec<u8>| -> (res: Result<u32, MalformedHeader>)
        ensures
            res == spec_dimension_of(wkb@),
        {
            match decode_header(wkb.as_slice()) {
                Ok(d) => Ok(crate::header::coordinate_dimension(&d.header)),
                Err(e) => Err(e),
            }
        };
    let r = broadcast_apply_1(col, &f);
    proof {
        lemma_lift_column::<u32, _>(col@, r, |bytes: Seq<u8>| spec_dimension_of(bytes), f);
    }
    r
}

/// The spatial reference identifier of every value in a column, by header
/// alone.  A row's value is null when the row is null; otherwise it is
/// `Some` of the stored identifier, or `None` for a header carrying none,
/// so an absent reference stays distinguishable from any stored value.
pub fn get_srid(col: &Vec<Option<Vec<u8>>>) -> (r: Result<
    Vec<Option<Option<i32>>>,
    ApplyError<MalformedHeader>,
>)
    ensures
        spec_column_result(col@, r, |bytes: Seq<u8>| spec_srid_of(bytes)),
{
    let f = |wkb: &Vec<u8>| -> (res: Result<Option<i32>, MalformedHeader>)
        ensures
            res == spec_srid_of(wkb@),
        {
            match decode_header(wkb.as_slice()) {
                Ok(d) => Ok(d.header.srid),
                Err(e) => Err(e),
            }
        };
    let r = broadcast_apply_1(col, &f);
    proof {
        lemma_lift_column::<Option<i32>, _>(col@, r, |bytes: Seq<u8>| spec_srid_of(bytes), f);
    }
    r
}

/// The collection kind a column of geometries gathers into: the matching
/// multi kind when every value shares one of the three plain base types, a
/// general collection otherwise.
pub open spec fn spec_collect_kind(ids: Seq<u32>) -> GeometryType {
    if ids.len() > 0 && (forall|i: int| 0 <= i < ids.len() ==> #[trigger] ids[i] == ids[0]) {
        if ids[0] == GeometryType::Point.spec_code() {
            GeometryType::MultiPoint
        } else if ids[0] == GeometryType::LineString.spec_code() {
            GeometryType::MultiLineString
        } else if ids[0] == GeometryType::Polygon.spec_code() {
            GeometryType::MultiPolygon
        } else {
            GeometryType::GeometryCollection
        }
    } else {
        GeometryType::GeometryCollection
    }
}

/// Which collection kind gathers a column whose values have these base type
/// codes.
pub fn collect_kind(type_ids: &Vec<u32>) -> (k: GeometryType)
    ensures
        k == spec_collect_kind(type_ids@),
{
    let n = type_ids.len();
    if n == 0 {
        return GeometryType::GeometryCollection;
    }
    let first = type_ids[0];
    let mut i: usize = 1;
    let mut uniform = true;
    while i < n
        invariant
            n == type_ids@.len(),
            n > 0,
            first == type_ids@[0],
            1 <= i <= n,
            uniform == (forall|k: int| 0 <= k < i ==> #[trigger] type_ids@[k] == type_ids@[0]),
        decreases n - i,
    {
        if type_ids[i] != first {
            uniform = false;
        }
        i = i + 1;
    }
    if uniform {
        if first == 1 {
            GeometryType::MultiPoint
        } else if first == 2 {
            GeometryType::MultiLineString
        } else if first == 3 {
            GeometryType::MultiPolygon
        } else {
            GeometryType::GeometryCollection
        }
    } else {
        GeometryType::GeometryCollection
    }
}

/// Lifts the broadcast contract's closure facts to the per-row spec, for a
/// row function whose every possible result is the spec's.
proof fn lemma_lift_column<V, F: Fn(&Vec<u8>) -> Result<V, MalformedHeader>>(
    col: Seq<Option<Vec<u8>>>,
    r: Result<Vec<Option<V>>, ApplyError<MalformedHeader>>,
    row_spec: spec_fn(Seq<u8>) -> Result<V, MalformedHeader>,
    f: F,
)
    requires
        forall|x: &Vec<u8>, y: Result<V, MalformedHeader>|
            #[trigger] call_ensures(f, (x,), y) ==> y == row_spec(x@),
        match r {
            Ok(out) => {
                &&& out@.len() == col.len()
                &&& forall|i: int|
                    0 <= i < col.len() ==> ((#[trigger] out@[i]) is Some <==> col[i] is Some)
                &&& forall|i: int|
                    0 <= i < col.len() && col[i] is Some ==> call_ensures(f, (&(
                    #[trigger] col[i])->Some_0,), Ok::<V, MalformedHeader>(out@[i]->Some_0))
            },
            Err(e) => {
                &&& e is RowFailure
                &&& 0 <= e->RowFailure_row < col.len()
                &&& col[e->RowFailure_row as int] is Some
                &&& call_ensures(f, (&col[e->RowFailure_row as int]->Some_0,), Err::<
                    V,
                    MalformedHeader,
                >(e->RowFailure_error))
                &&& forall|i: int|
                    0 <= i < e->RowFailure_row && (#[trigger] col[i]) is Some ==> exists|u: V|
                        call_ensures(f, (&col[i]->Some_0,), Ok::<V, MalformedHeader>(u))
            },
        },
    ensures
        spec_column_result(col, r, row_spec),
{
    match r {
        Ok(out) => {
            assert forall|i: int| 0 <= i < col.len() && col[i] is Some implies row_spec((
            #[trigger] col[i])->Some_0@) == Ok::<V, MalformedHeader>(out@[i]->Some_0) by {
                assert(call_ensures(f, (&col[i]->Some_0,), Ok::<V, MalformedHeader>(
                    out@[i]->Some_0)));
            }
        },
        Err(e) => {
            assert forall|i: int|
                0 <= i < e->RowFailure_row && (#[trigger] col[i]) is Some implies row_spec(
                col[i]->Some_0@) is Ok by {
                let u = choose|u: V| call_ensures(f, (&col[i]->Some_0,), Ok::<V, MalformedHeader>(u));
                assert(call_ensures(f, (&col[i]->Some_0,), Ok::<V, MalformedHeader>(u)));
            }
        },
    }
}

} // verus!
