use geocol::header::{
    decode_header, encode_header, coordinate_dimension, set_srid, ByteOrder, GeometryHeader,
    GeometryType, MalformedHeader,
};

fn le_point_2d(x: f64, y: f64) -> Vec<u8> {
    let mut v = vec![0x01u8, 0x01, 0x00, 0x00, 0x00];
    v.extend_from_slice(&x.to_le_bytes());
    v.extend_from_slice(&y.to_le_bytes());
    v
}

#[test]
fn decodes_little_endian_2d_point() {
    let bytes = le_point_2d(1.0, 2.0);
    let d = decode_header(&bytes).unwrap();
    assert_eq!(d.header.byte_order, ByteOrder::LittleEndian);
    assert_eq!(d.header.base_type, GeometryType::Point);
    assert!(!d.header.has_z);
    assert!(!d.header.has_m);
    assert_eq!(d.header.srid, None);
    assert_eq!(d.payload_offset, 5);
    assert_eq!(coordinate_dimension(&d.header), 2);
}

#[test]
fn decodes_point_with_srid() {
    // Type word 0x20000001: Point with the SRID flag set, then SRID 4326.
    let mut bytes = vec![0x01u8, 0x01, 0x00, 0x00, 0x20];
    bytes.extend_from_slice(&4326i32.to_le_bytes());
    bytes.extend_from_slice(&1.0f64.to_le_bytes());
    bytes.extend_from_slice(&2.0f64.to_le_bytes());
    let d = decode_header(&bytes).unwrap();
    assert_eq!(d.header.base_type, GeometryType::Point);
    assert_eq!(d.header.srid, Some(4326));
    assert_eq!(d.payload_offset, 9);
}

#[test]
fn decodes_big_endian_header() {
    // Endianness byte 0, then the type word 0x00000002 big-endian.
    let bytes = vec![0x00u8, 0x00, 0x00, 0x00, 0x02];
    let d = decode_header(&bytes).unwrap();
    assert_eq!(d.header.byte_order, ByteOrder::BigEndian);
    assert_eq!(d.header.base_type, GeometryType::LineString);
    assert_eq!(d.payload_offset, 5);
}

#[test]
fn decodes_z_and_m_flags() {
    // 0x80000001: Point with Z.
    let bytes = vec![0x01u8, 0x01, 0x00, 0x00, 0x80];
    let d = decode_header(&bytes).unwrap();
    assert!(d.header.has_z);
    assert!(!d.header.has_m);
    assert_eq!(coordinate_dimension(&d.header), 3);

    // 0xC0000001: Point with Z and M.
    let bytes = vec![0x01u8, 0x01, 0x00, 0x00, 0xC0];
    let d = decode_header(&bytes).unwrap();
    assert!(d.header.has_z);
    assert!(d.header.has_m);
    assert_eq!(coordinate_dimension(&d.header), 4);
}

#[test]
fn rejects_truncated_input() {
    let r = decode_header(&[0x01, 0x01, 0x00]);
    assert_eq!(r, Err(MalformedHeader::Truncated { have: 3, need: 5 }));
}

#[test]
fn rejects_truncated_srid() {
    // SRID flag set but only two of its four bytes present.
    let bytes = vec![0x01u8, 0x01, 0x00, 0x00, 0x20, 0xE6, 0x10];
    let r = decode_header(&bytes);
    assert_eq!(r, Err(MalformedHeader::Truncated { have: 7, need: 9 }));
}

#[test]
fn rejects_unknown_byte_order() {
    let r = decode_header(&[0x02, 0x01, 0x00, 0x00, 0x00]);
    assert_eq!(r, Err(MalformedHeader::UnknownByteOrder { flag: 0x02 }));
}

#[test]
fn rejects_unknown_type_code() {
    // Code 18 is one past the known range.
    let r = decode_header(&[0x01, 0x12, 0x00, 0x00, 0x00]);
    assert_eq!(r, Err(MalformedHeader::UnknownTypeCode { code: 18 }));
}

#[test]
fn all_known_type_codes_round_trip() {
    for code in 0u32..18 {
        let t = GeometryType::from_type_code(code).unwrap();
        assert_eq!(t.type_code(), code);
    }
    assert_eq!(GeometryType::from_type_code(18), None);
    assert_eq!(GeometryType::from_type_code(0x0FFF_FFFF), None);
}

#[test]
fn encode_then_decode_recovers_header() {
    let headers = [
        GeometryHeader {
            byte_order: ByteOrder::LittleEndian,
            base_type: GeometryType::Point,
            has_z: false,
            has_m: false,
            srid: None,
        },
        GeometryHeader {
            byte_order: ByteOrder::BigEndian,
            base_type: GeometryType::MultiPolygon,
            has_z: true,
            has_m: false,
            srid: Some(4326),
        },
        GeometryHeader {
            byte_order: ByteOrder::LittleEndian,
            base_type: GeometryType::Triangle,
            has_z: true,
            has_m: true,
            srid: Some(-1),
        },
        GeometryHeader {
            byte_order: ByteOrder::BigEndian,
            base_type: GeometryType::GeometryCollection,
            has_z: false,
            has_m: true,
            srid: Some(0),
        },
    ];
    for h in headers {
        let bytes = encode_header(&h);
        let d = decode_header(&bytes).unwrap();
        assert_eq!(d.header, h);
        assert_eq!(d.payload_offset, bytes.len());
    }
}

#[test]
fn labels_match_kind_names() {
    assert_eq!(GeometryType::Point.label(), "Point");
    assert_eq!(GeometryType::GeometryCollection.label(), "GeometryCollection");
    assert_eq!(GeometryType::Tin.label(), "Tin");
}

#[test]
fn collection_kinds_are_marked() {
    assert!(GeometryType::MultiPoint.is_collection());
    assert!(GeometryType::GeometryCollection.is_collection());
    assert!(!GeometryType::Point.is_collection());
    assert!(!GeometryType::Polygon.is_collection());
}

#[test]
fn set_srid_adds_an_identifier() {
    let mut bytes = vec![0x01u8, 0x01, 0x00, 0x00, 0x00];
    bytes.extend_from_slice(&1.0f64.to_le_bytes());
    bytes.extend_from_slice(&2.0f64.to_le_bytes());
    let out = set_srid(&bytes, 4326).unwrap();
    let d = decode_header(&out).unwrap();
    assert_eq!(d.header.srid, Some(4326));
    assert_eq!(d.header.base_type, GeometryType::Point);
    assert_eq!(d.payload_offset, 9);
    // The payload is untouched.
    assert_eq!(&out[9..], &bytes[5..]);
}

#[test]
fn set_srid_zero_removes_the_identifier() {
    let mut bytes = vec![0x01u8, 0x01, 0x00, 0x00, 0x20];
    bytes.extend_from_slice(&4326i32.to_le_bytes());
    bytes.extend_from_slice(&1.0f64.to_le_bytes());
    bytes.extend_from_slice(&2.0f64.to_le_bytes());
    let out = set_srid(&bytes, 0).unwrap();
    let d = decode_header(&out).unwrap();
    assert_eq!(d.header.srid, None);
    assert_eq!(d.payload_offset, 5);
    assert_eq!(&out[5..], &bytes[9..]);
}

#[test]
fn set_srid_rejects_malformed_input() {
    let r = set_srid(&[0x01, 0x12, 0x00, 0x00, 0x00], 4326);
    assert_eq!(r, Err(MalformedHeader::UnknownTypeCode { code: 18 }));
}
