use geocol::bbox::{sort_key, total_bounds, BBox};
use geocol::join::{spatial_join, JoinPredicate};

fn key(v: f64) -> u64 {
    sort_key(v.to_bits())
}

fn bbox(xmin: f64, ymin: f64, xmax: f64, ymax: f64) -> BBox {
    BBox { xmin: key(xmin), ymin: key(ymin), xmax: key(xmax), ymax: key(ymax) }
}

fn point(x: f64, y: f64) -> BBox {
    bbox(x, y, x, y)
}

type Eval = fn(usize, usize) -> Result<bool, String>;

fn no_eval(_: usize, _: usize) -> Result<bool, String> {
    panic!("the box-only join must not consult the pairwise test");
}

#[test]
fn two_points_against_one_box_match_once() {
    let left = vec![Some(point(0.0, 0.0)), Some(point(10.0, 10.0))];
    let right = vec![Some(bbox(-1.0, -1.0, 1.0, 1.0))];
    let mp = spatial_join(&left, &right, JoinPredicate::IntersectsBbox, &(no_eval as Eval))
        .unwrap();
    assert_eq!(mp.left, vec![0]);
    assert_eq!(mp.right, vec![0]);
}

#[test]
fn empty_left_column_yields_no_pairs() {
    let left: Vec<Option<BBox>> = vec![];
    let right = vec![Some(bbox(-1.0, -1.0, 1.0, 1.0)), Some(point(3.0, 3.0))];
    let mp = spatial_join(&left, &right, JoinPredicate::IntersectsBbox, &(no_eval as Eval))
        .unwrap();
    assert!(mp.left.is_empty());
    assert!(mp.right.is_empty());
}

#[test]
fn all_null_left_column_yields_no_pairs() {
    let left: Vec<Option<BBox>> = vec![None, None, None];
    let right = vec![Some(bbox(-100.0, -100.0, 100.0, 100.0))];
    let mp = spatial_join(&left, &right, JoinPredicate::IntersectsBbox, &(no_eval as Eval))
        .unwrap();
    assert!(mp.left.is_empty());
}

#[test]
fn empty_right_column_yields_no_pairs() {
    let left = vec![Some(point(0.0, 0.0))];
    let right: Vec<Option<BBox>> = vec![];
    let mp = spatial_join(&left, &right, JoinPredicate::IntersectsBbox, &(no_eval as Eval))
        .unwrap();
    assert!(mp.left.is_empty());
}

#[test]
fn null_right_rows_are_skipped() {
    let left = vec![Some(point(0.0, 0.0))];
    let right = vec![None, Some(bbox(-1.0, -1.0, 1.0, 1.0)), None];
    let mp = spatial_join(&left, &right, JoinPredicate::IntersectsBbox, &(no_eval as Eval))
        .unwrap();
    assert_eq!(mp.left, vec![0]);
    assert_eq!(mp.right, vec![1]);
}

#[test]
fn pairs_are_grouped_by_ascending_right_row() {
    let left = vec![
        Some(bbox(0.0, 0.0, 2.0, 2.0)),
        None,
        Some(bbox(1.0, 1.0, 3.0, 3.0)),
        Some(bbox(50.0, 50.0, 60.0, 60.0)),
    ];
    let right = vec![
        Some(bbox(1.5, 1.5, 1.6, 1.6)),
        Some(bbox(55.0, 55.0, 56.0, 56.0)),
        Some(bbox(-10.0, -10.0, 100.0, 100.0)),
    ];
    let mp = spatial_join(&left, &right, JoinPredicate::IntersectsBbox, &(no_eval as Eval))
        .unwrap();
    assert_eq!(mp.left, vec![0, 2, 3, 0, 2, 3]);
    assert_eq!(mp.right, vec![0, 0, 1, 2, 2, 2]);
}

#[test]
fn negative_coordinates_order_correctly() {
    // A box wholly in the negative quadrant against a disjoint positive one.
    let left = vec![Some(bbox(-5.0, -5.0, -4.0, -4.0))];
    let right = vec![Some(bbox(1.0, 1.0, 2.0, 2.0)), Some(bbox(-4.5, -4.5, 0.0, 0.0))];
    let mp = spatial_join(&left, &right, JoinPredicate::IntersectsBbox, &(no_eval as Eval))
        .unwrap();
    assert_eq!(mp.left, vec![0]);
    assert_eq!(mp.right, vec![1]);
}

#[test]
fn refined_predicate_keeps_only_accepted_candidates() {
    let left = vec![Some(bbox(0.0, 0.0, 10.0, 10.0)), Some(bbox(5.0, 5.0, 15.0, 15.0))];
    let right = vec![Some(bbox(6.0, 6.0, 7.0, 7.0))];
    // Accept only left row 1, as a full predicate evaluation would.
    let eval = |l: usize, _r: usize| Ok::<bool, String>(l == 1);
    let mp = spatial_join(&left, &right, JoinPredicate::Intersects, &eval).unwrap();
    assert_eq!(mp.left, vec![1]);
    assert_eq!(mp.right, vec![0]);
}

#[test]
fn refined_predicate_failure_aborts_the_join() {
    let left = vec![Some(bbox(0.0, 0.0, 10.0, 10.0))];
    let right = vec![Some(bbox(1.0, 1.0, 2.0, 2.0))];
    let eval = |_l: usize, _r: usize| Err::<bool, String>("malformed geometry".to_string());
    let r = spatial_join(&left, &right, JoinPredicate::Within, &eval);
    assert_eq!(r.unwrap_err(), "malformed geometry");
}

#[test]
fn non_intersecting_candidates_never_reach_the_predicate() {
    let left = vec![Some(point(0.0, 0.0))];
    let right = vec![Some(bbox(5.0, 5.0, 6.0, 6.0))];
    let eval = |_l: usize, _r: usize| -> Result<bool, String> {
        panic!("no candidate pair exists, so the test must not run");
    };
    let mp = spatial_join(&left, &right, JoinPredicate::Contains, &eval).unwrap();
    assert!(mp.left.is_empty());
}

#[test]
fn total_bounds_folds_present_boxes() {
    let col = vec![
        Some(bbox(0.0, -1.0, 2.0, 3.0)),
        None,
        Some(bbox(-5.0, 0.0, 1.0, 10.0)),
    ];
    let tb = total_bounds(&col).unwrap();
    assert_eq!(tb, bbox(-5.0, -1.0, 2.0, 10.0));
}

#[test]
fn total_bounds_of_all_null_column_is_none() {
    let col: Vec<Option<BBox>> = vec![None, None];
    assert_eq!(total_bounds(&col), None);
    assert_eq!(total_bounds(&Vec::new()), None);
}

#[test]
fn sort_key_orders_like_the_numbers() {
    let values = [-1000.5, -1.0, -0.0, 0.0, 0.5, 1.0, 1000.25];
    for w in values.windows(2) {
        assert!(key(w[0]) <= key(w[1]), "{} vs {}", w[0], w[1]);
    }
    assert!(key(-1.0) < key(1.0));
    assert!(key(-2.0) < key(-1.0));
}
