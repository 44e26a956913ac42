//! Decoding of the extended binary geometry interchange header.
//!
//! The first bytes of an encoded geometry carry an endianness flag, a 32-bit
//! type word (base type code plus Z/M/SRID flag bits) and, when the SRID flag
//! is set, a signed 32-bit spatial reference identifier.  Decoding only this
//! header answers metadata queries without materializing the geometry itself.

use vstd::prelude::*;

verus! {

/// Endianness tag governing every multi-byte integer of one encoded geometry.
#[derive(Clone, Copy, Debug, PartialEq, Eq, Structural)]
pub enum ByteOrder {
    BigEndian,
    LittleEndian,
}

/// The eighteen base geometry kinds the interchange format distinguishes.
#[derive(Clone, Copy, Debug, PartialEq, Eq, Structural)]
pub enum GeometryType {
    Unknown,
    Point,
    LineString,
    Polygon,
    MultiPoint,
    MultiLineString,
    MultiPolygon,
    GeometryCollection,
    CircularString,
    CompoundCurve,
    CurvePolygon,
    MultiCurve,
    MultiSurface,
    Curve,
    Surface,
    PolyhedralSurface,
    Tin,
    Triangle,
}

impl GeometryType {
    /// The numeric code of this kind in the type word's low-order bits.
    pub fn type_code(self) -> (code: u32)
        ensures
            code == self.spec_code(),
    {
        match self {
            GeometryType::Unknown => 0,
            GeometryType::Point => 1,
            GeometryType::LineString => 2,
            GeometryType::Polygon => 3,
            GeometryType::MultiPoint => 4,
            GeometryType::MultiLineString => 5,
            GeometryType::MultiPolygon => 6,
            GeometryType::GeometryCollection => 7,
            GeometryType::CircularString => 8,
            GeometryType::CompoundCurve => 9,
            GeometryType::CurvePolygon => 10,
            GeometryType::MultiCurve => 11,
            GeometryType::MultiSurface => 12,
            GeometryType::Curve => 13,
            GeometryType::Surface => 14,
            GeometryType::PolyhedralSurface => 15,
            GeometryType::Tin => 16,
            GeometryType::Triangle => 17,
        }
    }

    pub open spec fn spec_code(self) -> u32 {
        match self {
            GeometryType::Unknown => 0,
            GeometryType::Point => 1,
            GeometryType::LineString => 2,
            GeometryType::Polygon => 3,
            GeometryType::MultiPoint => 4,
            GeometryType::MultiLineString => 5,
            GeometryType::MultiPolygon => 6,
            GeometryType::GeometryCollection => 7,
            GeometryType::CircularString => 8,
            GeometryType::CompoundCurve => 9,
            GeometryType::CurvePolygon => 10,
            GeometryType::MultiCurve => 11,
            GeometryType::MultiSurface => 12,
            GeometryType::Curve => 13,
            GeometryType::Surface => 14,
            GeometryType::PolyhedralSurface => 15,
            GeometryType::Tin => 16,
            GeometryType::Triangle => 17,
        }
    }

    pub open spec fn spec_from_code(code: u32) -> Option<GeometryType> {
        if code == 0 {
            Some(GeometryType::Unknown)
        } else if code == 1 {
            Some(GeometryType::Point)
        } else if code == 2 {
            Some(GeometryType::LineString)
        } else if code == 3 {
            Some(GeometryType::Polygon)
        } else if code == 4 {
            Some(GeometryType::MultiPoint)
        } else if code == 5 {
            Some(GeometryType::MultiLineString)
        } else if code == 6 {
            Some(GeometryType::MultiPolygon)
        } else if code == 7 {
            Some(GeometryType::GeometryCollection)
        } else if code == 8 {
            Some(GeometryType::CircularString)
        } else if code == 9 {
            Some(GeometryType::CompoundCurve)
        } else if code == 10 {
            Some(GeometryType::CurvePolygon)
        } else if code == 11 {
            Some(GeometryType::MultiCurve)
        } else if code == 12 {
            Some(GeometryType::MultiSurface)
        } else if code == 13 {
            Some(GeometryType::Curve)
        } else if code == 14 {
            Some(GeometryType::Surface)
        } else if code == 15 {
            Some(GeometryType::PolyhedralSurface)
        } else if code == 16 {
            Some(GeometryType::Tin)
        } else if code == 17 {
            Some(GeometryType::Triangle)
        } else {
            None
        }
    }

    /// The kind a type word's code names, or `None` outside the known range.
    pub fn from_type_code(code: u32) -> (r: Option<GeometryType>)
        ensures
            r == Self::spec_from_code(code),
    {
        match code {
            0 => Some(GeometryType::Unknown),
            1 => Some(GeometryType::Point),
            2 => Some(GeometryType::LineString),
            3 => Some(GeometryType::Polygon),
            4 => Some(GeometryType::MultiPoint),
            5 => Some(GeometryType::MultiLineString),
            6 => Some(GeometryType::MultiPolygon),
            7 => Some(GeometryType::GeometryCollection),
            8 => Some(GeometryType::CircularString),
            9 => Some(GeometryType::CompoundCurve),
            10 => Some(GeometryType::CurvePolygon),
            11 => Some(GeometryType::MultiCurve),
            12 => Some(GeometryType::MultiSurface),
            13 => Some(GeometryType::Curve),
            14 => Some(GeometryType::Surface),
            15 => Some(GeometryType::PolyhedralSurface),
            16 => Some(GeometryType::Tin),
            17 => Some(GeometryType::Triangle),
            _ => None,
        }
    }

    /// The canonical display name of this kind.
    pub fn label(self) -> (r: &'static str)
        ensures
            self == GeometryType::Unknown ==> r@ == "Unknown"@,
            self == GeometryType::Point ==> r@ == "Point"@,
            self == GeometryType::LineString ==> r@ == "LineString"@,
            self == GeometryType::Polygon ==> r@ == "Polygon"@,
            self == GeometryType::MultiPoint ==> r@ == "MultiPoint"@,
            self == GeometryType::MultiLineString ==> r@ == "MultiLineString"@,
            self == GeometryType::MultiPolygon ==> r@ == "MultiPolygon"@,
            self == GeometryType::GeometryCollection ==> r@ == "GeometryCollection"@,
            self == GeometryType::CircularString ==> r@ == "CircularString"@,
            self == GeometryType::CompoundCurve ==> r@ == "CompoundCurve"@,
            self == GeometryType::CurvePolygon ==> r@ == "CurvePolygon"@,
            self == GeometryType::MultiCurve ==> r@ == "MultiCurve"@,
            self == GeometryType::MultiSurface ==> r@ == "MultiSurface"@,
            self == GeometryType::Curve ==> r@ == "Curve"@,
            self == GeometryType::Surface ==> r@ == "Surface"@,
            self == GeometryType::PolyhedralSurface ==> r@ == "PolyhedralSurface"@,
            self == GeometryType::Tin ==> r@ == "Tin"@,
            self == GeometryType::Triangle ==> r@ == "Triangle"@,
    {
        match self {
            GeometryType::Unknown => "Unknown",
            GeometryType::Point => "Point",
            GeometryType::LineString => "LineString",
            GeometryType::Polygon => "Polygon",
            GeometryType::MultiPoint => "MultiPoint",
            GeometryType::MultiLineString => "MultiLineString",
            GeometryType::MultiPolygon => "MultiPolygon",
            GeometryType::GeometryCollection => "GeometryCollection",
            GeometryType::CircularString => "CircularString",
            GeometryType::CompoundCurve => "CompoundCurve",
            GeometryType::CurvePolygon => "CurvePolygon",
            GeometryType::MultiCurve => "MultiCurve",
            GeometryType::MultiSurface => "MultiSurface",
            GeometryType::Curve => "Curve",
            GeometryType::Surface => "Surface",
            GeometryType::PolyhedralSurface => "PolyhedralSurface",
            GeometryType::Tin => "Tin",
            GeometryType::Triangle => "Triangle",
        }
    }

    pub open spec fn spec_is_collection(self) -> bool {
        match self {
            GeometryType::MultiPoint => true,
            GeometryType::MultiLineString => true,
            GeometryType::MultiPolygon => true,
            GeometryType::MultiCurve => true,
            GeometryType::MultiSurface => true,
            GeometryType::GeometryCollection => true,
            _ => false,
        }
    }

    /// Whether this kind is a multi-part or collection kind.
    pub fn is_collection(self) -> (r: bool)
        ensures
            r == self.spec_is_collection(),
    {
        match self {
            GeometryType::MultiPoint => true,
            GeometryType::MultiLineString => true,
            GeometryType::MultiPolygon => true,
            GeometryType::MultiCurve => true,
            GeometryType::MultiSurface => true,
            GeometryType::GeometryCollection => true,
            _ => false,
        }
    }
}

/// Metadata carried by one encoded geometry's header.
#[derive(Clone, Copy, Debug, PartialEq, Eq, Structural)]
pub struct GeometryHeader {
    pub byte_order: ByteOrder,
    pub base_type: GeometryType,
    pub has_z: bool,
    pub has_m: bool,
    pub srid: Option<i32>,
}

/// A decoded header together with the offset at which the payload begins.
#[derive(Clone, Copy, Debug, PartialEq, Eq, Structural)]
pub struct DecodedHeader {
    pub header: GeometryHeader,
    pub payload_offset: usize,
}

/// Why a byte sequence is not a valid encoded geometry header.
#[derive(Clone, Copy, Debug, PartialEq, Eq, Structural)]
pub enum MalformedHeader {
    /// Fewer bytes than the header needs.
    Truncated { have: usize, need: usize },
    /// The endianness byte is neither 0 (big-endian) nor 1 (little-endian).
    UnknownByteOrder { flag: u8 },
    /// The type word's code names none of the known kinds.
    UnknownTypeCode { code: u32 },
}

/// A 32-bit word from four bytes given in little-endian order.
pub open spec fn spec_word32(b0: u8, b1: u8, b2: u8, b3: u8) -> u32 {
    (b0 + b1 * 0x100 + b2 * 0x1_0000 + b3 * 0x100_0000) as u32
}

/// The 32-bit word stored at `at` in `bytes`, read per `order`.
pub open spec fn spec_word_at(bytes: Seq<u8>, at: int, order: ByteOrder) -> u32 {
    match order {
        ByteOrder::LittleEndian => spec_word32(
            bytes[at],
            bytes[at + 1],
            bytes[at + 2],
            bytes[at + 3],
        ),
        ByteOrder::BigEndian => spec_word32(
            bytes[at + 3],
            bytes[at + 2],
            bytes[at + 1],
            bytes[at],
        ),
    }
}

/// A 32-bit word reinterpreted as a signed two's-complement value.
pub open spec fn spec_as_signed(w: u32) -> i32 {
    if w >= 0x8000_0000 {
        (w - 0x1_0000_0000) as i32
    } else {
        w as i32
    }
}

/// The base type code of a type word: its value with the flag bits cleared.
pub open spec fn spec_type_code(w: u32) -> u32 {
    w % 0x2000_0000
}

pub open spec fn spec_flag_z(w: u32) -> bool {
    (w / 0x8000_0000) % 2 == 1
}

pub open spec fn spec_flag_m(w: u32) -> bool {
    (w / 0x4000_0000) % 2 == 1
}

pub open spec fn spec_flag_srid(w: u32) -> bool {
    (w / 0x2000_0000) % 2 == 1
}

/// What decoding a header from `bytes` yields: the metadata and payload
/// offset, or the exact reason the bytes are rejected.
pub open spec fn spec_decode_header(bytes: Seq<u8>) -> Result<DecodedHeader, MalformedHeader> {
    if bytes.len() < 5 {
        Err(MalformedHeader::Truncated { have: bytes.len() as usize, need: 5 })
    } else if bytes[0] != 0 && bytes[0] != 1 {
        Err(MalformedHeader::UnknownByteOrder { flag: bytes[0] })
    } else {
        let order = if bytes[0] == 1 {
            ByteOrder::LittleEndian
        } else {
            ByteOrder::BigEndian
        };
        let w = spec_word_at(bytes, 1, order);
        if spec_type_code(w) > 17 {
            Err(MalformedHeader::UnknownTypeCode { code: spec_type_code(w) })
        } else if spec_flag_srid(w) {
            if bytes.len() < 9 {
                Err(MalformedHeader::Truncated { have: bytes.len() as usize, need: 9 })
            } else {
                Ok(DecodedHeader {
                    header: GeometryHeader {
                        byte_order: order,
                        base_type: GeometryType::spec_from_code(spec_type_code(w)).unwrap(),
                        has_z: spec_flag_z(w),
                        has_m: spec_flag_m(w),
                        srid: Some(spec_as_signed(spec_word_at(bytes, 5, order))),
                    },
                    payload_offset: 9,
                })
            }
        } else {
            Ok(DecodedHeader {
                header: GeometryHeader {
                    byte_order: order,
                    base_type: GeometryType::spec_from_code(spec_type_code(w)).unwrap(),
                    has_z: spec_flag_z(w),
                    has_m: spec_flag_m(w),
                    srid: None,
                },
                payload_offset: 5,
            })
        }
    }
}

/// Reads the 32-bit word at `at`, which must leave four bytes in range.
fn read_word_at(bytes: &[u8], at: usize, order: ByteOrder) -> (w: u32)
    requires
        at + 4 <= bytes@.len(),
    ensures
        w == spec_word_at(bytes@, at as int, order),
{
    let n = bytes.len();
    assert(at + 4 <= n);
    match order {
        ByteOrder::LittleEndian => {
            (bytes[at] as u32) + (bytes[at + 1] as u32) * 0x100 + (bytes[at + 2] as u32) * 0x1_0000
                + (bytes[at + 3] as u32) * 0x100_0000
        },
        ByteOrder::BigEndian => {
            (bytes[at + 3] as u32) + (bytes[at + 2] as u32) * 0x100 + (bytes[at + 1] as u32)
                * 0x1_0000 + (bytes[at] as u32) * 0x100_0000
        },
    }
}

/// Decode the header of one encoded geometry without touching its payload.
///
/// Byte 0 is the endianness flag (0 big-endian, 1 little-endian); bytes 1-4
/// are the type word whose low-order code names the base type and whose three
/// top bits flag Z ordinates, M ordinates and a trailing SRID; when the SRID
/// flag is set the next four bytes carry the signed reference identifier.
/// The result reports where the coordinate payload begins.
pub fn decode_header(bytes: &[u8]) -> (r: Result<DecodedHeader, MalformedHeader>)
    ensures
        r == spec_decode_header(bytes@),
{
    if bytes.len() < 5 {
        return Err(MalformedHeader::Truncated { have: bytes.len(), need: 5 });
    }
    let flag = bytes[0];
    if flag != 0 && flag != 1 {
        return Err(MalformedHeader::UnknownByteOrder { flag });
    }
    let order = if flag == 1 {
        ByteOrder::LittleEndian
    } else {
        ByteOrder::BigEndian
    };
    let w = read_word_at(bytes, 1, order);
    let code = w % 0x2000_0000;
    let base_type = match GeometryType::from_type_code(code) {
        Some(t) => t,
        None => {
            return Err(MalformedHeader::UnknownTypeCode { code });
        },
    };
    let has_z = (w / 0x8000_0000) % 2 == 1;
    let has_m = (w / 0x4000_0000) % 2 == 1;
    let has_srid = (w / 0x2000_0000) % 2 == 1;
    if has_srid {
        if bytes.len() < 9 {
            return Err(MalformedHeader::Truncated { have: bytes.len(), need: 9 });
        }
        let sw = read_word_at(bytes, 5, order);
        let srid: i32 = if sw >= 0x8000_0000 {
            ((sw as i64) - 0x1_0000_0000) as i32
        } else {
            sw as i32
        };
        Ok(DecodedHeader {
            header: GeometryHeader { byte_order: order, base_type, has_z, has_m, srid: Some(srid) },
            payload_offset: 9,
        })
    } else {
        Ok(DecodedHeader {
            header: GeometryHeader { byte_order: order, base_type, has_z, has_m, srid: None },
            payload_offset: 5,
        })
    }
}

/// The four bytes of a 32-bit word, laid out per `order`.
pub open spec fn spec_word_bytes(w: u32, order: ByteOrder) -> Seq<u8> {
    let b0 = (w % 0x100) as u8;
    let b1 = ((w / 0x100) % 0x100) as u8;
    let b2 = ((w / 0x1_0000) % 0x100) as u8;
    let b3 = ((w / 0x100_0000) % 0x100) as u8;
    match order {
        ByteOrder::LittleEndian => seq![b0, b1, b2, b3],
        ByteOrder::BigEndian => seq![b3, b2, b1, b0],
    }
}

/// The type word a header encodes to: base type code plus the flag bits.
pub open spec fn spec_type_word(h: GeometryHeader) -> u32 {
    (h.base_type.spec_code() + (if h.has_z {
        0x8000_0000int
    } else {
        0int
    }) + (if h.has_m {
        0x4000_0000int
    } else {
        0int
    }) + (if h.srid is Some {
        0x2000_0000int
    } else {
        0int
    })) as u32
}

/// A signed 32-bit value as its two's-complement word.
pub open spec fn spec_signed_word(s: i32) -> u32 {
    if s < 0 {
        (s + 0x1_0000_0000) as u32
    } else {
        s as u32
    }
}

/// The canonical encoding of a header: endianness byte, type word, and the
/// SRID word when one is present.
pub open spec fn spec_encode_header(h: GeometryHeader) -> Seq<u8> {
    let flag: u8 = match h.byte_order {
        ByteOrder::BigEndian => 0,
        ByteOrder::LittleEndian => 1,
    };
    let tail: Seq<u8> = match h.srid {
        Some(s) => spec_word_bytes(spec_signed_word(s), h.byte_order),
        None => Seq::empty(),
    };
    seq![flag] + spec_word_bytes(spec_type_word(h), h.byte_order) + tail
}

/// Appends the four bytes of `w` to `out`, laid out per `order`.
fn push_word_bytes(out: &mut Vec<u8>, w: u32, order: ByteOrder)
    ensures
        final(out)@ == old(out)@ + spec_word_bytes(w, order),
{
    let b0 = (w % 0x100) as u8;
    let b1 = ((w / 0x100) % 0x100) as u8;
    let b2 = ((w / 0x1_0000) % 0x100) as u8;
    let b3 = ((w / 0x100_0000) % 0x100) as u8;
    match order {
        ByteOrder::LittleEndian => {
            out.push(b0);
            out.push(b1);
            out.push(b2);
            out.push(b3);
        },
        ByteOrder::BigEndian => {
            out.push(b3);
            out.push(b2);
            out.push(b1);
            out.push(b0);
        },
    }
    assert(out@ =~= old(out)@ + spec_word_bytes(w, order));
}

/// Encode a header back to its canonical byte form.
pub fn encode_header(h: &GeometryHeader) -> (r: Vec<u8>)
    ensures
        r@ == spec_encode_header(*h),
{
    let mut out: Vec<u8> = Vec::new();
    let flag: u8 = match h.byte_order {
        ByteOrder::BigEndian => 0,
        ByteOrder::LittleEndian => 1,
    };
    out.push(flag);
    let code = h.base_type.type_code();
    let w: u32 = code + (if h.has_z {
        0x8000_0000u32
    } else {
        0u32
    }) + (if h.has_m {
        0x4000_0000u32
    } else {
        0u32
    }) + (if h.srid.is_some() {
        0x2000_0000u32
    } else {
        0u32
    });
    push_word_bytes(&mut out, w, h.byte_order);
    match h.srid {
        Some(s) => {
            let sw: u32 = if s < 0 {
                (((s as i64) + 0x1_0000_0000) as u32)
            } else {
                s as u32
            };
            assert(sw == spec_signed_word(s));
            push_word_bytes(&mut out, sw, h.byte_order);
        },
        None => {},
    }
    assert(out@ =~= spec_encode_header(*h));
    out
}

/// A word recomposed from its four extracted bytes is itself.
proof fn lemma_word_bytes_recompose(w: u32, order: ByteOrder)
    ensures
        spec_word_at(spec_word_bytes(w, order), 0, order) == w,
{
    let b = spec_word_bytes(w, order);
    assert(w % 0x100 + ((w / 0x100) % 0x100) * 0x100 + ((w / 0x1_0000) % 0x100) * 0x1_0000 + ((w
        / 0x100_0000) % 0x100) * 0x100_0000 == w) by (bit_vector);
}

/// Decoding an encoded header recovers it exactly: every base type, flag
/// combination, byte order and reference identifier survives the round trip,
/// and the payload offset reported is the encoding's header length.
pub proof fn lemma_header_round_trip(h: GeometryHeader)
    ensures
        spec_decode_header(spec_encode_header(h)) == Ok::<DecodedHeader, MalformedHeader>(DecodedHeader {
            header: h,
            payload_offset: if h.srid is Some {
                9
            } else {
                5
            },
        }),
{
    lemma_header_decode_with_payload(h, Seq::empty());
    assert(spec_encode_header(h) + Seq::<u8>::empty() =~= spec_encode_header(h));
}

/// Decoding reads only the header: whatever payload follows an encoded
/// header, the metadata and payload offset come back exactly.
pub proof fn lemma_header_decode_with_payload(h: GeometryHeader, payload: Seq<u8>)
    ensures
        spec_decode_header(spec_encode_header(h) + payload) == Ok::<DecodedHeader, MalformedHeader>(
            DecodedHeader {
                header: h,
                payload_offset: if h.srid is Some {
                    9
                } else {
                    5
                },
            },
        ),
{
    let enc = spec_encode_header(h) + payload;
    let w = spec_type_word(h);
    let code = h.base_type.spec_code();
    let z: u32 = if h.has_z { 1 } else { 0 };
    let m: u32 = if h.has_m { 1 } else { 0 };
    let s: u32 = if h.srid is Some { 1 } else { 0 };
    assert(w == code + z * 0x8000_0000 + m * 0x4000_0000 + s * 0x2000_0000);
    assert(code <= 17);
    assert(code <= 17 && (z == 0 || z == 1) && (m == 0 || m == 1) && (s == 0 || s == 1) && w == code
        + z * 0x8000_0000 + m * 0x4000_0000 + s * 0x2000_0000 ==> spec_type_code(w) == code && (
    spec_flag_z(w) <==> z == 1) && (spec_flag_m(w) <==> m == 1) && (spec_flag_srid(w) <==> s == 1))
        by (bit_vector);
    assert(enc[0] == (match h.byte_order {
        ByteOrder::BigEndian => 0u8,
        ByteOrder::LittleEndian => 1u8,
    }));
    assert(enc.subrange(1, 5) =~= spec_word_bytes(w, h.byte_order));
    lemma_word_bytes_recompose(w, h.byte_order);
    assert(spec_word_at(enc, 1, h.byte_order) == spec_word_at(spec_word_bytes(w, h.byte_order), 0,
        h.byte_order));
    assert(GeometryType::spec_from_code(code) == Some(h.base_type));
    match h.srid {
        Some(sr) => {
            let sw = spec_signed_word(sr);
            assert(enc.len() == 9 + payload.len());
            assert(enc.subrange(5, 9) =~= spec_word_bytes(sw, h.byte_order));
            lemma_word_bytes_recompose(sw, h.byte_order);
            assert(spec_word_at(enc, 5, h.byte_order) == spec_word_at(spec_word_bytes(sw,
                h.byte_order), 0, h.byte_order));
            assert(spec_as_signed(sw) == sr);
        },
        None => {
            assert(enc.len() == 5 + payload.len());
        },
    }
}

/// A header with its spatial reference identifier replaced: zero stands for
/// no reference, so the rewritten header then carries no identifier field.
pub open spec fn spec_with_srid(h: GeometryHeader, srid: i32) -> GeometryHeader {
    GeometryHeader {
        byte_order: h.byte_order,
        base_type: h.base_type,
        has_z: h.has_z,
        has_m: h.has_m,
        srid: if srid == 0 {
            None
        } else {
            Some(srid)
        },
    }
}

/// Rewrite one encoded geometry to carry the given spatial reference
/// identifier: the header is re-encoded with the new identifier (zero
/// meaning none) and the payload bytes are kept exactly as they were.
/// Decoding the result reports the updated header.
pub fn set_srid(bytes: &[u8], srid: i32) -> (r: Result<Vec<u8>, MalformedHeader>)
    ensures
        match r {
            Ok(out) => {
                &&& spec_decode_header(bytes@) is Ok
                &&& out@ == spec_encode_header(spec_with_srid(spec_decode_header(
                    bytes@)->Ok_0.header, srid)) + bytes@.subrange(spec_decode_header(
                    bytes@)->Ok_0.payload_offset as int, bytes@.len() as int)
                &&& spec_decode_header(out@) is Ok
                &&& spec_decode_header(out@)->Ok_0.header == spec_with_srid(spec_decode_header(
                    bytes@)->Ok_0.header, srid)
            },
            Err(e) => spec_decode_header(bytes@) == Err::<DecodedHeader, MalformedHeader>(e),
        },
{
    let d = match decode_header(bytes) {
        Ok(d) => d,
        Err(e) => {
            return Err(e);
        },
    };
    let new_header = GeometryHeader {
        byte_order: d.header.byte_order,
        base_type: d.header.base_type,
        has_z: d.header.has_z,
        has_m: d.header.has_m,
        srid: if srid == 0 {
            None
        } else {
            Some(srid)
        },
    };
    let mut out = encode_header(&new_header);
    let ghost enc = out@;
    let n = bytes.len();
    let mut i: usize = d.payload_offset;
    proof {
        assert(d.payload_offset <= n);
    }
    while i < n
        invariant
            n == bytes@.len(),
            d.payload_offset <= i <= n,
            out@ == enc + bytes@.subrange(d.payload_offset as int, i as int),
        decreases n - i,
    {
        out.push(bytes[i]);
        i = i + 1;
        proof {
            assert(out@ =~= enc + bytes@.subrange(d.payload_offset as int, i as int));
        }
    }
    proof {
        lemma_header_decode_with_payload(new_header, bytes@.subrange(d.payload_offset as int,
            n as int));
    }
    Ok(out)
}

/// The coordinate dimensionality a header reports: two plus one for each of
/// the Z and M flags.  A pure function of the header, needing no payload.
pub fn coordinate_dimension(header: &GeometryHeader) -> (d: u32)
    ensures
        d == 2 + (if header.has_z { 1int } else { 0int }) + (if header.has_m { 1int } else { 0int }),
{
    2 + (if header.has_z { 1u32 } else { 0u32 }) + (if header.has_m { 1u32 } else { 0u32 })
}

} // verus!
