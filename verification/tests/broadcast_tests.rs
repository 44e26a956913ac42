use std::cell::Cell;

use geocol::broadcast_apply::{broadcast_apply_1, broadcast_apply_2, broadcast_apply_3, ApplyError};

#[test]
fn two_columns_with_scalar_broadcast_to_long_length() {
    let a: Vec<Option<i64>> = vec![Some(1), Some(2), Some(3), Some(4), Some(5)];
    let b: Vec<Option<i64>> = vec![Some(10)];
    let out = broadcast_apply_2(&a, &b, &|x: &i64, y: &i64| Ok::<i64, ()>(x + y)).unwrap();
    assert_eq!(out, vec![Some(11), Some(12), Some(13), Some(14), Some(15)]);
}

#[test]
fn incompatible_lengths_fail_before_any_row() {
    let a: Vec<Option<i64>> = vec![Some(1), Some(2), Some(3), Some(4), Some(5)];
    let b: Vec<Option<i64>> = vec![Some(10), Some(20), Some(30)];
    let calls = Cell::new(0usize);
    let r = broadcast_apply_2(&a, &b, &|x: &i64, y: &i64| {
        calls.set(calls.get() + 1);
        Ok::<i64, ()>(x + y)
    });
    assert_eq!(
        r,
        Err(ApplyError::ShapeMismatch { left_len: 5, right_len: 3 })
    );
    assert_eq!(calls.get(), 0, "the row function must not run on any row");
}

#[test]
fn null_rows_stay_null_and_skip_the_row_function() {
    let col: Vec<Option<i64>> = vec![Some(1), Some(2), None, Some(4), Some(5)];
    let calls = Cell::new(0usize);
    let out = broadcast_apply_1(&col, &|x: &i64| {
        calls.set(calls.get() + 1);
        Ok::<i64, ()>(x * 10)
    })
    .unwrap();
    assert_eq!(out, vec![Some(10), Some(20), None, Some(40), Some(50)]);
    assert_eq!(calls.get(), 4, "the null row must not invoke the row function");
}

#[test]
fn first_failing_row_aborts_with_its_index() {
    let col: Vec<Option<i64>> = vec![Some(1), None, Some(-3), Some(-4)];
    let r = broadcast_apply_1(&col, &|x: &i64| {
        if *x < 0 {
            Err("negative")
        } else {
            Ok(*x)
        }
    });
    assert_eq!(r, Err(ApplyError::RowFailure { row: 2, error: "negative" }));
}

#[test]
fn null_in_either_input_nulls_the_output_row() {
    let a: Vec<Option<i64>> = vec![Some(1), None, Some(3)];
    let b: Vec<Option<i64>> = vec![Some(10), Some(20), None];
    let out = broadcast_apply_2(&a, &b, &|x: &i64, y: &i64| Ok::<i64, ()>(x + y)).unwrap();
    assert_eq!(out, vec![Some(11), None, None]);
}

#[test]
fn ternary_broadcast_combines_three_columns() {
    let a: Vec<Option<i64>> = vec![Some(1), Some(2)];
    let b: Vec<Option<i64>> = vec![Some(10)];
    let c: Vec<Option<i64>> = vec![Some(100), None];
    let out =
        broadcast_apply_3(&a, &b, &c, &|x: &i64, y: &i64, z: &i64| Ok::<i64, ()>(x + y + z))
            .unwrap();
    assert_eq!(out, vec![Some(111), None]);
}

#[test]
fn ternary_reports_first_incompatible_pair() {
    let a: Vec<Option<i64>> = vec![Some(1), Some(2)];
    let b: Vec<Option<i64>> = vec![Some(1), Some(2)];
    let c: Vec<Option<i64>> = vec![Some(1), Some(2), Some(3)];
    let r = broadcast_apply_3(&a, &b, &c, &|x: &i64, _: &i64, _: &i64| Ok::<i64, ()>(*x));
    assert_eq!(
        r,
        Err(ApplyError::ShapeMismatch { left_len: 2, right_len: 3 })
    );
}

#[test]
fn scalar_only_inputs_produce_one_row() {
    let a: Vec<Option<i64>> = vec![Some(7)];
    let b: Vec<Option<i64>> = vec![Some(8)];
    let out = broadcast_apply_2(&a, &b, &|x: &i64, y: &i64| Ok::<i64, ()>(x * y)).unwrap();
    assert_eq!(out, vec![Some(56)]);
}
