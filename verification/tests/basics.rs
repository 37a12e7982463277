//! The runtime base decoders: primitives, containers, strings, and the
//! byte-order type.

use structnom::Endian;
use structnom::nom_trait::StructNom;
use structnom::nom_trait::nom;
use structnom::nom_trait::parse_vec;
use structnom::value::DecodeErrorKind;

#[test]
fn endian_constructors() {
    assert_eq!(Endian::native(), Endian::Little);
    assert_eq!(Endian::little(), Endian::Little);
    assert_eq!(Endian::big(), Endian::Big);
    assert_eq!(Endian::default(), Endian::Little);
}

#[test]
fn u8_nom_reads_one_byte() {
    let data = [0xAB, 0xCD];
    let (end, v) = u8::nom(&data, 0).unwrap();
    assert_eq!(end, 1);
    assert_eq!(v, 0xAB);
    let (end2, v2) = u8::nom(&data, 1).unwrap();
    assert_eq!(end2, 2);
    assert_eq!(v2, 0xCD);
    assert_eq!(u8::nom(&data, 2), Err(DecodeErrorKind::TruncatedInput));
}

#[test]
fn u32_nom_is_little_endian() {
    let data = [0x78, 0x56, 0x34, 0x12];
    let (end, v) = u32::nom(&data, 0).unwrap();
    assert_eq!(end, 4);
    assert_eq!(v, 0x1234_5678);
    assert_eq!(u32::nom(&data, 1), Err(DecodeErrorKind::TruncatedInput));
}

#[test]
fn parse_vec_reads_length_prefix() {
    let data = [0x03, 10, 20, 30];
    let (end, v) = parse_vec::<u8>(&data, 0).unwrap();
    assert_eq!(end, 4);
    assert_eq!(v, vec![10, 20, 30]);
}

#[test]
fn parse_vec_too_few_elements() {
    let data = [0x04, 1, 2, 3];
    assert_eq!(parse_vec::<u8>(&data, 0), Err(DecodeErrorKind::TruncatedInput));
}

#[test]
fn vec_nom_of_u32() {
    let data = [0x02, 1, 0, 0, 0, 2, 0, 0, 0];
    let (end, v) = <Vec<u32>>::nom(&data, 0).unwrap();
    assert_eq!(end, 9);
    assert_eq!(v, vec![1, 2]);
}

#[test]
fn option_nom_soft_failure() {
    // Too few bytes for a u32: the optional is absent and nothing is
    // consumed, so the next read starts at the same position.
    let data = [0xAA, 0xBB];
    let (end, v) = <Option<u32>>::nom(&data, 0).unwrap();
    assert_eq!(end, 0);
    assert_eq!(v, None);
    let (end2, b) = u8::nom(&data, end).unwrap();
    assert_eq!(end2, 1);
    assert_eq!(b, 0xAA);
}

#[test]
fn option_nom_present() {
    let data = [1, 2, 3, 4];
    let (end, v) = <Option<u32>>::nom(&data, 0).unwrap();
    assert_eq!(end, 4);
    assert_eq!(v, Some(0x0403_0201));
}

#[test]
fn string_nom_utf8() {
    let data = [0x03, b'a', b'b', b'c'];
    let (end, s) = String::nom(&data, 0).unwrap();
    assert_eq!(end, 4);
    assert_eq!(s, "abc");
}

#[test]
fn string_nom_invalid_utf8() {
    let data = [0x02, 0xFF, 0xFE];
    assert_eq!(String::nom(&data, 0), Err(DecodeErrorKind::InvalidEncoding));
}

#[test]
fn nom_demo_tag() {
    let data = [0x60, 0x01];
    let (end, v) = nom(&data, 0).unwrap();
    assert_eq!(end, 1);
    assert_eq!(v, ((), ()));
    assert_eq!(nom(&data, 1), Err(DecodeErrorKind::TagMismatch));
    assert_eq!(nom(&data, 2), Err(DecodeErrorKind::TruncatedInput));
}
