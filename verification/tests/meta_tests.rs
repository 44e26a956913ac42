use geocol::broadcast_apply::ApplyError;
use geocol::header::{GeometryType, MalformedHeader};
use geocol::meta::{collect_kind, get_coordinate_dimension, get_srid, get_type_id};

fn le_header(type_word: u32, srid: Option<i32>) -> Vec<u8> {
    let mut v = vec![0x01u8];
    v.extend_from_slice(&type_word.to_le_bytes());
    if let Some(s) = srid {
        v.extend_from_slice(&s.to_le_bytes());
    }
    v
}

#[test]
fn type_ids_of_a_mixed_column() {
    let col = vec![
        Some(le_header(0x0000_0001, None)),
        None,
        Some(le_header(0x2000_0003, Some(4326))),
    ];
    let out = get_type_id(&col).unwrap();
    assert_eq!(out, vec![Some(1), None, Some(3)]);
}

#[test]
fn coordinate_dimensions_follow_the_flags() {
    let col = vec![
        Some(le_header(0x0000_0001, None)),
        Some(le_header(0x8000_0001, None)),
        Some(le_header(0xC000_0001, None)),
    ];
    let out = get_coordinate_dimension(&col).unwrap();
    assert_eq!(out, vec![Some(2), Some(3), Some(4)]);
}

#[test]
fn srid_distinguishes_absent_from_stored() {
    let col = vec![
        Some(le_header(0x2000_0001, Some(4326))),
        Some(le_header(0x0000_0001, None)),
        None,
        Some(le_header(0x2000_0001, Some(0))),
    ];
    let out = get_srid(&col).unwrap();
    // A stored identifier of zero is not the same as an absent one.
    assert_eq!(out, vec![Some(Some(4326)), Some(None), None, Some(Some(0))]);
}

#[test]
fn malformed_value_aborts_with_its_row() {
    let col = vec![
        Some(le_header(0x0000_0001, None)),
        None,
        Some(vec![0x01, 0x12, 0x00, 0x00, 0x00]),
    ];
    let r = get_type_id(&col);
    assert_eq!(
        r,
        Err(ApplyError::RowFailure {
            row: 2,
            error: MalformedHeader::UnknownTypeCode { code: 18 }
        })
    );
}

#[test]
fn uniform_point_column_collects_to_multipoint() {
    assert_eq!(collect_kind(&vec![1, 1, 1]), GeometryType::MultiPoint);
    assert_eq!(collect_kind(&vec![2, 2]), GeometryType::MultiLineString);
    assert_eq!(collect_kind(&vec![3]), GeometryType::MultiPolygon);
}

#[test]
fn mixed_or_other_columns_collect_to_geometry_collection() {
    assert_eq!(collect_kind(&vec![1, 3]), GeometryType::GeometryCollection);
    assert_eq!(collect_kind(&vec![7, 7]), GeometryType::GeometryCollection);
    assert_eq!(collect_kind(&Vec::new()), GeometryType::GeometryCollection);
}
