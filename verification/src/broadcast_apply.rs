//! The broadcasting, null-propagating execution contract shared by every
//! element-wise column operation.
//!
//! Columns are sequences of optional values.  An input of length one is a
//! scalar, broadcast to the common length; two inputs of different lengths
//! both above one are a shape mismatch, rejected before any row is touched.
//! A null at any input of a row makes that output row null without invoking
//! the row function.  The first row whose function fails aborts the whole
//! evaluation with that row's index: no partial output is ever returned.

use vstd::prelude::*;

verus! {

/// Why a column evaluation returned nothing.
#[derive(Clone, Copy, Debug, PartialEq, Eq, Structural)]
pub enum ApplyError<E> {
    /// Two inputs have different lengths, both above one.
    ShapeMismatch { left_len: usize, right_len: usize },
    /// The row function failed at `row`; evaluation stopped there.
    RowFailure { row: usize, error: E },
}

/// Two column lengths broadcast together when they agree or one is a scalar.
pub open spec fn spec_compatible(la: int, lb: int) -> bool {
    la == lb || la == 1 || lb == 1
}

/// The broadcast row index: a scalar column serves its only row everywhere.
pub open spec fn spec_bidx(i: int, len: int) -> int {
    if len == 1 {
        0
    } else {
        i
    }
}

/// The common length of two broadcast-compatible columns.
pub open spec fn spec_broadcast_len2(la: int, lb: int) -> int {
    if la == 1 {
        lb
    } else {
        la
    }
}

/// The common length of three broadcast-compatible columns.
pub open spec fn spec_broadcast_len3(la: int, lb: int, lc: int) -> int {
    if la != 1 {
        la
    } else if lb != 1 {
        lb
    } else {
        lc
    }
}

/// Whether both broadcast inputs of row `i` are present.
pub open spec fn spec_in2<A, B>(a: Seq<Option<A>>, b: Seq<Option<B>>, i: int) -> bool {
    &&& a[spec_bidx(i, a.len() as int)] is Some
    &&& b[spec_bidx(i, b.len() as int)] is Some
}

/// Whether all three broadcast inputs of row `i` are present.
pub open spec fn spec_in3<A, B, C>(
    a: Seq<Option<A>>,
    b: Seq<Option<B>>,
    c: Seq<Option<C>>,
    i: int,
) -> bool {
    &&& a[spec_bidx(i, a.len() as int)] is Some
    &&& b[spec_bidx(i, b.len() as int)] is Some
    &&& c[spec_bidx(i, c.len() as int)] is Some
}

/// Apply a fallible function to every non-null row of one column.
///
/// The output has the input's length; null rows stay null and the function
/// is not consulted for them.  The first failing row aborts the whole
/// evaluation, reporting that row's index and error; rows before it had
/// succeeded.
pub fn broadcast_apply_1<T, U, E, F: Fn(&T) -> Result<U, E>>(col: &Vec<Option<T>>, f: &F) -> (r:
    Result<Vec<Option<U>>, ApplyError<E>>)
    requires
        forall|i: int|
            0 <= i < col@.len() && col@[i] is Some ==> call_requires(*f, (&col@[i]->Some_0,)),
    ensures
        match r {
            Ok(out) => {
                &&& out@.len() == col@.len()
                &&& forall|i: int|
                    0 <= i < col@.len() ==> ((#[trigger] out@[i]) is Some <==> col@[i] is Some)
                &&& forall|i: int|
                    0 <= i < col@.len() && col@[i] is Some ==> call_ensures(*f, (&col@[i]->Some_0,),
                        Ok::<U, E>((#[trigger] out@[i])->Some_0))
            },
            Err(e) => {
                &&& e is RowFailure
                &&& 0 <= e->RowFailure_row < col@.len()
                &&& col@[e->RowFailure_row as int] is Some
                &&& call_ensures(*f, (&col@[e->RowFailure_row as int]->Some_0,), Err::<U, E>(
                    e->RowFailure_error))
                &&& forall|i: int|
                    0 <= i < e->RowFailure_row && (#[trigger] col@[i]) is Some ==> exists|u: U|
                        call_ensures(*f, (&col@[i]->Some_0,), Ok::<U, E>(u))
            },
        },
{
    let mut out: Vec<Option<U>> = Vec::new();
    let mut i: usize = 0;
    let n = col.len();
    while i < n
        invariant
            n == col@.len(),
            0 <= i <= n,
            out@.len() == i,
            forall|k: int|
                0 <= k < col@.len() && col@[k] is Some ==> call_requires(*f, (&col@[k]->Some_0,)),
            forall|k: int| 0 <= k < i ==> ((#[trigger] out@[k]) is Some <==> col@[k] is Some),
            forall|k: int|
                0 <= k < i && col@[k] is Some ==> call_ensures(*f, (&col@[k]->Some_0,), Ok::<U, E>((
                #[trigger] out@[k])->Some_0)),
        decreases n - i,
    {
        match &col[i] {
            Some(v) => {
                match f(v) {
                    Ok(u) => {
                        out.push(Some(u));
                    },
                    Err(error) => {
                        proof {
                            assert(forall|k: int|
                                0 <= k < i && (#[trigger] col@[k]) is Some ==> call_ensures(*f, (
                                &col@[k]->Some_0,), Ok::<U, E>(out@[k]->Some_0)));
                        }
                        return Err(ApplyError::RowFailure { row: i, error });
                    },
                }
            },
            None => {
                out.push(None);
            },
        }
        i = i + 1;
    }
    Ok(out)
}

/// Apply a fallible function element-wise to two columns under the broadcast
/// and null rules.
///
/// Columns of different lengths both above one are rejected with their two
/// lengths before any row is processed.  Otherwise the output has the common
/// broadcast length; a null in either input at a row yields a null output
/// row without invoking the function; the first failing row aborts the whole
/// evaluation with its index.
pub fn broadcast_apply_2<A, B, U, E, F: Fn(&A, &B) -> Result<U, E>>(
    a: &Vec<Option<A>>,
    b: &Vec<Option<B>>,
    f: &F,
) -> (r: Result<Vec<Option<U>>, ApplyError<E>>)
    requires
        spec_compatible(a@.len() as int, b@.len() as int) ==> forall|i: int|
            (0 <= i < spec_broadcast_len2(a@.len() as int, b@.len() as int) && #[trigger] spec_in2(
                a@, b@, i)) ==> call_requires(*f, (&a@[spec_bidx(i, a@.len() as int)]->Some_0, &b@[
                spec_bidx(i, b@.len() as int)]->Some_0)),
    ensures
        match r {
            Ok(out) => {
                let la = a@.len() as int;
                let lb = b@.len() as int;
                &&& spec_compatible(la, lb)
                &&& out@.len() == spec_broadcast_len2(la, lb)
                &&& forall|i: int|
                    0 <= i < out@.len() ==> ((#[trigger] out@[i]) is Some <==> (a@[spec_bidx(i, la)]
                        is Some && b@[spec_bidx(i, lb)] is Some))
                &&& forall|i: int|
                    0 <= i < out@.len() && a@[spec_bidx(i, la)] is Some && b@[spec_bidx(i, lb)]
                        is Some ==> call_ensures(*f, (&a@[spec_bidx(i, la)]->Some_0, &b@[spec_bidx(
                        i, lb)]->Some_0), Ok::<U, E>((#[trigger] out@[i])->Some_0))
            },
            Err(e) => {
                let la = a@.len() as int;
                let lb = b@.len() as int;
                match e {
                    ApplyError::ShapeMismatch { left_len, right_len } => {
                        &&& !spec_compatible(la, lb)
                        &&& left_len == la
                        &&& right_len == lb
                    },
                    ApplyError::RowFailure { row, error } => {
                        &&& spec_compatible(la, lb)
                        &&& 0 <= row < spec_broadcast_len2(la, lb)
                        &&& a@[spec_bidx(row as int, la)] is Some
                        &&& b@[spec_bidx(row as int, lb)] is Some
                        &&& call_ensures(*f, (&a@[spec_bidx(row as int, la)]->Some_0, &b@[spec_bidx(
                            row as int, lb)]->Some_0), Err::<U, E>(error))
                        &&& forall|i: int|
                            0 <= i < row && (a@[spec_bidx(i, la)] is Some && b@[#[trigger] spec_bidx(
                                i, lb)] is Some) ==> exists|u: U|
                                call_ensures(*f, (&a@[spec_bidx(i, la)]->Some_0, &b@[spec_bidx(i,
                                    lb)]->Some_0), Ok::<U, E>(u))
                    },
                }
            },
        },
{
    let la = a.len();
    let lb = b.len();
    if !(la == lb || la == 1 || lb == 1) {
        return Err(ApplyError::ShapeMismatch { left_len: la, right_len: lb });
    }
    let n: usize = if la == 1 {
        lb
    } else {
        la
    };
    let mut out: Vec<Option<U>> = Vec::new();
    let mut i: usize = 0;
    while i < n
        invariant
            la == a@.len(),
            lb == b@.len(),
            spec_compatible(la as int, lb as int),
            n as int == spec_broadcast_len2(la as int, lb as int),
            0 <= i <= n,
            out@.len() == i,
            spec_compatible(a@.len() as int, b@.len() as int) ==> forall|k: int|
                (0 <= k < spec_broadcast_len2(a@.len() as int, b@.len() as int)
                    && #[trigger] spec_in2(a@, b@, k)) ==> call_requires(*f, (&a@[spec_bidx(k,
                    a@.len() as int)]->Some_0, &b@[spec_bidx(k, b@.len() as int)]->Some_0)),
            forall|k: int|
                0 <= k < i ==> ((#[trigger] out@[k]) is Some <==> (a@[spec_bidx(k, la as int)]
                    is Some && b@[spec_bidx(k, lb as int)] is Some)),
            forall|k: int|
                0 <= k < i && a@[spec_bidx(k, la as int)] is Some && b@[spec_bidx(k, lb as int)]
                    is Some ==> call_ensures(*f, (&a@[spec_bidx(k, la as int)]->Some_0, &b@[
                spec_bidx(k, lb as int)]->Some_0), Ok::<U, E>((#[trigger] out@[k])->Some_0)),
        decreases n - i,
    {
        let ia: usize = if la == 1 {
            0
        } else {
            i
        };
        let ib: usize = if lb == 1 {
            0
        } else {
            i
        };
        let av = &a[ia];
        let bv = &b[ib];
        match (av, bv) {
            (Some(x), Some(y)) => {
                proof {
                    assert(spec_in2(a@, b@, i as int));
                }
                match f(x, y) {
                    Ok(u) => {
                        out.push(Some(u));
                    },
                    Err(error) => {
                        proof {
                            assert(forall|k: int|
                                0 <= k < i && (a@[spec_bidx(k, la as int)] is Some && b@[
                                #[trigger] spec_bidx(k, lb as int)] is Some) ==> call_ensures(*f, (
                                &a@[spec_bidx(k, la as int)]->Some_0, &b@[spec_bidx(k,
                                    lb as int)]->Some_0), Ok::<U, E>(out@[k]->Some_0)));
                        }
                        return Err(ApplyError::RowFailure { row: i, error });
                    },
                }
            },
            _ => {
                out.push(None);
            },
        }
        i = i + 1;
    }
    Ok(out)
}

/// Apply a fallible function element-wise to three columns under the
/// broadcast and null rules; the first incompatible pair of lengths, in
/// argument order, is the one reported.
pub fn broadcast_apply_3<A, B, C, U, E, F: Fn(&A, &B, &C) -> Result<U, E>>(
    a: &Vec<Option<A>>,
    b: &Vec<Option<B>>,
    c: &Vec<Option<C>>,
    f: &F,
) -> (r: Result<Vec<Option<U>>, ApplyError<E>>)
    requires
        (spec_compatible(a@.len() as int, b@.len() as int) && spec_compatible(a@.len() as int,
            c@.len() as int) && spec_compatible(b@.len() as int, c@.len() as int)) ==> forall|
            i: int,
        |
            (0 <= i < spec_broadcast_len3(a@.len() as int, b@.len() as int, c@.len() as int)
                && #[trigger] spec_in3(a@, b@, c@, i)) ==> call_requires(*f, (&a@[spec_bidx(i,
                a@.len() as int)]->Some_0, &b@[spec_bidx(i, b@.len() as int)]->Some_0, &c@[
                spec_bidx(i, c@.len() as int)]->Some_0)),
    ensures
        match r {
            Ok(out) => {
                let la = a@.len() as int;
                let lb = b@.len() as int;
                let lc = c@.len() as int;
                &&& spec_compatible(la, lb) && spec_compatible(la, lc) && spec_compatible(lb, lc)
                &&& out@.len() == spec_broadcast_len3(la, lb, lc)
                &&& forall|i: int|
                    0 <= i < out@.len() ==> ((#[trigger] out@[i]) is Some <==> (a@[spec_bidx(i, la)]
                        is Some && b@[spec_bidx(i, lb)] is Some && c@[spec_bidx(i, lc)] is Some))
                &&& forall|i: int|
                    0 <= i < out@.len() && a@[spec_bidx(i, la)] is Some && b@[spec_bidx(i, lb)]
                        is Some && c@[spec_bidx(i, lc)] is Some ==> call_ensures(*f, (&a@[spec_bidx(
                        i, la)]->Some_0, &b@[spec_bidx(i, lb)]->Some_0, &c@[spec_bidx(i,
                        lc)]->Some_0), Ok::<U, E>((#[trigger] out@[i])->Some_0))
            },
            Err(e) => {
                let la = a@.len() as int;
                let lb = b@.len() as int;
                let lc = c@.len() as int;
                match e {
                    ApplyError::ShapeMismatch { left_len, right_len } => {
                        if !spec_compatible(la, lb) {
                            left_len == la && right_len == lb
                        } else if !spec_compatible(la, lc) {
                            left_len == la && right_len == lc
                        } else {
                            !spec_compatible(lb, lc) && left_len == lb && right_len == lc
                        }
                    },
                    ApplyError::RowFailure { row, error } => {
                        &&& spec_compatible(la, lb) && spec_compatible(la, lc) && spec_compatible(
                            lb, lc)
                        &&& 0 <= row < spec_broadcast_len3(la, lb, lc)
                        &&& a@[spec_bidx(row as int, la)] is Some
                        &&& b@[spec_bidx(row as int, lb)] is Some
                        &&& c@[spec_bidx(row as int, lc)] is Some
                        &&& call_ensures(*f, (&a@[spec_bidx(row as int, la)]->Some_0, &b@[spec_bidx(
                            row as int, lb)]->Some_0, &c@[spec_bidx(row as int, lc)]->Some_0),
                            Err::<U, E>(error))
                    },
                }
            },
        },
{
    let la = a.len();
    let lb = b.len();
    let lc = c.len();
    if !(la == lb || la == 1 || lb == 1) {
        return Err(ApplyError::ShapeMismatch { left_len: la, right_len: lb });
    }
    if !(la == lc || la == 1 || lc == 1) {
        return Err(ApplyError::ShapeMismatch { left_len: la, right_len: lc });
    }
    if !(lb == lc || lb == 1 || lc == 1) {
        return Err(ApplyError::ShapeMismatch { left_len: lb, right_len: lc });
    }
    let n: usize = if la != 1 {
        la
    } else if lb != 1 {
        lb
    } else {
        lc
    };
    let mut out: Vec<Option<U>> = Vec::new();
    let mut i: usize = 0;
    while i < n
        invariant
            la == a@.len(),
            lb == b@.len(),
            lc == c@.len(),
            spec_compatible(la as int, lb as int),
            spec_compatible(la as int, lc as int),
            spec_compatible(lb as int, lc as int),
            n as int == spec_broadcast_len3(la as int, lb as int, lc as int),
            0 <= i <= n,
            out@.len() == i,
            (spec_compatible(a@.len() as int, b@.len() as int) && spec_compatible(a@.len() as int,
                c@.len() as int) && spec_compatible(b@.len() as int, c@.len() as int)) ==> forall|
                k: int,
            |
                (0 <= k < spec_broadcast_len3(a@.len() as int, b@.len() as int, c@.len() as int)
                    && #[trigger] spec_in3(a@, b@, c@, k)) ==> call_requires(*f, (&a@[spec_bidx(k,
                    a@.len() as int)]->Some_0, &b@[spec_bidx(k, b@.len() as int)]->Some_0, &c@[
                    spec_bidx(k, c@.len() as int)]->Some_0)),
            forall|k: int|
                0 <= k < i ==> ((#[trigger] out@[k]) is Some <==> (a@[spec_bidx(k, la as int)]
                    is Some && b@[spec_bidx(k, lb as int)] is Some && c@[spec_bidx(k, lc as int)]
                    is Some)),
            forall|k: int|
                0 <= k < i && a@[spec_bidx(k, la as int)] is Some && b@[spec_bidx(k, lb as int)]
                    is Some && c@[spec_bidx(k, lc as int)] is Some ==> call_ensures(*f, (&a@[
                spec_bidx(k, la as int)]->Some_0, &b@[spec_bidx(k, lb as int)]->Some_0, &c@[
                spec_bidx(k, lc as int)]->Some_0), Ok::<U, E>((#[trigger] out@[k])->Some_0)),
        decreases n - i,
    {
        let ia: usize = if la == 1 {
            0
        } else {
            i
        };
        let ib: usize = if lb == 1 {
            0
        } else {
            i
        };
        let ic: usize = if lc == 1 {
            0
        } else {
            i
        };
        let av = &a[ia];
        let bv = &b[ib];
        let cv = &c[ic];
        match (av, bv, cv) {
            (Some(x), Some(y), Some(z)) => {
                proof {
                    assert(spec_in3(a@, b@, c@, i as int));
                }
                match f(x, y, z) {
                    Ok(u) => {
                        out.push(Some(u));
                    },
                    Err(error) => {
                        return Err(ApplyError::RowFailure { row: i, error });
                    },
                }
            },
            _ => {
                out.push(None);
            },
        }
        i = i + 1;
    }
    Ok(out)
}

} // verus!
