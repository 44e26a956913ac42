use geocol::dims::force_2d;
use geocol::flatten::{flatten_coordinates, get_coordinates, PAD_PATTERN};
use geocol::geom::{CoordSeq, GeomTree};
use geocol::header::GeometryType;

fn seq2(points: &[(f64, f64)]) -> CoordSeq {
    let mut data = Vec::new();
    for (x, y) in points {
        data.push(x.to_bits());
        data.push(y.to_bits());
    }
    CoordSeq { dim: 2, data }
}

fn seq3(points: &[(f64, f64, f64)]) -> CoordSeq {
    let mut data = Vec::new();
    for (x, y, z) in points {
        data.push(x.to_bits());
        data.push(y.to_bits());
        data.push(z.to_bits());
    }
    CoordSeq { dim: 3, data }
}

#[test]
fn pad_pattern_is_quiet_nan() {
    assert_eq!(PAD_PATTERN, f64::NAN.to_bits());
}

#[test]
fn empty_geometries_flatten_to_nothing_at_every_stride() {
    let empties = || {
        vec![
            GeomTree::Leaf { kind: GeometryType::Point, coords: seq2(&[]) },
            GeomTree::Leaf { kind: GeometryType::LineString, coords: seq2(&[]) },
            GeomTree::Surface {
                kind: GeometryType::Polygon,
                exterior: seq2(&[]),
                interiors: vec![],
            },
            GeomTree::Collection { kind: GeometryType::MultiPoint, parts: vec![] },
            GeomTree::Collection {
                kind: GeometryType::GeometryCollection,
                parts: vec![GeomTree::Leaf { kind: GeometryType::Point, coords: seq2(&[]) }],
            },
        ]
    };
    for stride in [2usize, 3, 4] {
        for tree in empties() {
            let buf = flatten_coordinates(&tree, stride).unwrap();
            assert_eq!(buf.len(), 0, "stride {stride}");
        }
    }
}

#[test]
fn polygon_with_interior_rings_flattens_in_ring_order() {
    let exterior = seq2(&[(0.0, 0.0), (4.0, 0.0), (4.0, 4.0), (0.0, 4.0), (0.0, 0.0)]);
    let hole1 = seq2(&[(1.0, 1.0), (2.0, 1.0), (2.0, 2.0), (1.0, 1.0)]);
    let hole2 = seq2(&[(3.0, 3.0), (3.5, 3.0), (3.5, 3.5), (3.0, 3.0)]);
    let tree = GeomTree::Surface {
        kind: GeometryType::Polygon,
        exterior: exterior.clone(),
        interiors: vec![hole1.clone(), hole2.clone()],
    };
    let buf = flatten_coordinates(&tree, 2).unwrap();
    // 5 + 4 + 4 = 13 coordinate pairs.
    assert_eq!(buf.len(), 13 * 2);
    let mut expected = Vec::new();
    expected.extend_from_slice(&exterior.data);
    expected.extend_from_slice(&hole1.data);
    expected.extend_from_slice(&hole2.data);
    assert_eq!(buf, expected);
}

#[test]
fn stride_above_dimensionality_pads_with_sentinel() {
    let tree = GeomTree::Leaf { kind: GeometryType::Point, coords: seq2(&[(1.5, 2.5)]) };
    let buf = flatten_coordinates(&tree, 4).unwrap();
    assert_eq!(
        buf,
        vec![1.5f64.to_bits(), 2.5f64.to_bits(), PAD_PATTERN, PAD_PATTERN]
    );
}

#[test]
fn stride_below_dimensionality_truncates() {
    let tree = GeomTree::Leaf {
        kind: GeometryType::LineString,
        coords: seq3(&[(1.0, 2.0, 3.0), (4.0, 5.0, 6.0)]),
    };
    let buf = flatten_coordinates(&tree, 2).unwrap();
    assert_eq!(
        buf,
        vec![
            1.0f64.to_bits(),
            2.0f64.to_bits(),
            4.0f64.to_bits(),
            5.0f64.to_bits()
        ]
    );
}

#[test]
fn collections_concatenate_parts_in_index_order() {
    let p1 = GeomTree::Leaf { kind: GeometryType::Point, coords: seq2(&[(1.0, 2.0)]) };
    let p2 = GeomTree::Leaf { kind: GeometryType::Point, coords: seq2(&[(3.0, 4.0)]) };
    let inner = GeomTree::Collection { kind: GeometryType::MultiPoint, parts: vec![p1, p2] };
    let line = GeomTree::Leaf {
        kind: GeometryType::LineString,
        coords: seq2(&[(5.0, 6.0), (7.0, 8.0)]),
    };
    let tree = GeomTree::Collection {
        kind: GeometryType::GeometryCollection,
        parts: vec![inner, line],
    };
    let buf = flatten_coordinates(&tree, 2).unwrap();
    let expected: Vec<u64> = [1.0, 2.0, 3.0, 4.0, 5.0, 6.0, 7.0, 8.0]
        .iter()
        .map(|v: &f64| v.to_bits())
        .collect();
    assert_eq!(buf, expected);
}

#[test]
fn buffer_length_is_stride_times_point_count() {
    let tree = GeomTree::Leaf {
        kind: GeometryType::CircularString,
        coords: seq2(&[(0.0, 0.0), (1.0, 1.0), (2.0, 0.0)]),
    };
    for stride in [2usize, 3, 4] {
        let buf = flatten_coordinates(&tree, stride).unwrap();
        assert_eq!(buf.len(), 3 * stride);
        assert_eq!(buf.len() % stride, 0);
    }
}

#[test]
fn force_2d_truncates_every_sequence_and_keeps_the_shape() {
    let tree = GeomTree::Collection {
        kind: GeometryType::GeometryCollection,
        parts: vec![
            GeomTree::Leaf {
                kind: GeometryType::Point,
                coords: seq3(&[(1.0, 2.0, 3.0)]),
            },
            GeomTree::Surface {
                kind: GeometryType::Polygon,
                exterior: seq3(&[(0.0, 0.0, 9.0), (1.0, 0.0, 9.0), (0.0, 0.0, 9.0)]),
                interiors: vec![seq3(&[(0.1, 0.1, 9.0)])],
            },
        ],
    };
    let r = force_2d(&tree);
    match r {
        GeomTree::Collection { kind, parts } => {
            assert_eq!(kind, GeometryType::GeometryCollection);
            assert_eq!(parts.len(), 2);
            match &parts[0] {
                GeomTree::Leaf { coords, .. } => {
                    assert_eq!(coords.dim, 2);
                    assert_eq!(coords.data, vec![1.0f64.to_bits(), 2.0f64.to_bits()]);
                }
                _ => panic!("first part should stay a leaf"),
            }
            match &parts[1] {
                GeomTree::Surface { exterior, interiors, .. } => {
                    assert_eq!(exterior.dim, 2);
                    assert_eq!(exterior.data.len(), 6);
                    assert_eq!(interiors.len(), 1);
                    assert_eq!(
                        interiors[0].data,
                        vec![0.1f64.to_bits(), 0.1f64.to_bits()]
                    );
                }
                _ => panic!("second part should stay a surface"),
            }
        }
        _ => panic!("the collection should stay a collection"),
    }
}

#[test]
fn structural_accessors_follow_the_kind() {
    let poly = GeomTree::Surface {
        kind: GeometryType::Polygon,
        exterior: seq2(&[(0.0, 0.0), (1.0, 0.0), (0.0, 0.0)]),
        interiors: vec![seq2(&[(0.1, 0.1)])],
    };
    assert_eq!(poly.get_num_interior_rings(), 1);
    assert_eq!(poly.get_num_geometries(), 1);
    assert_eq!(poly.get_num_points(), 0);
    assert!(poly.get_exterior_ring().is_some());
    assert!(poly.get_interior_ring_n(0).is_some());
    assert!(poly.get_interior_ring_n(1).is_none());

    let line = GeomTree::Leaf {
        kind: GeometryType::LineString,
        coords: seq2(&[(0.0, 0.0), (1.0, 1.0)]),
    };
    assert_eq!(line.get_num_points(), 2);
    assert!(line.get_exterior_ring().is_none());
    assert!(line.get_geometry_n(0).is_some());
    assert!(line.get_geometry_n(1).is_none());

    let multi = GeomTree::Collection {
        kind: GeometryType::MultiLineString,
        parts: vec![line],
    };
    assert_eq!(multi.get_num_geometries(), 1);
    assert!(multi.get_geometry_n(0).is_some());
    assert!(multi.get_geometry_n(1).is_none());
}

#[test]
fn get_coordinates_flattens_a_column_with_nulls() {
    let col = vec![
        Some(GeomTree::Leaf { kind: GeometryType::Point, coords: seq2(&[(1.0, 2.0)]) }),
        None,
        Some(GeomTree::Leaf {
            kind: GeometryType::LineString,
            coords: seq2(&[(3.0, 4.0), (5.0, 6.0)]),
        }),
    ];
    let out = get_coordinates(&col, 2).unwrap();
    assert_eq!(out.len(), 3);
    assert_eq!(
        out[0],
        Some(vec![1.0f64.to_bits(), 2.0f64.to_bits()])
    );
    assert_eq!(out[1], None);
    assert_eq!(
        out[2],
        Some(vec![
            3.0f64.to_bits(),
            4.0f64.to_bits(),
            5.0f64.to_bits(),
            6.0f64.to_bits()
        ])
    );
}
