use protowire::wire::{encode_varint, parse_field, parse_varint, unpack_tag};
use protowire::wire::{FieldValue, ParseError, WireType};

#[test]
fn varint_round_trip() {
    // Every value representable in seven groups survives encode-then-decode
    // with nothing left over.
    for v in [0u64, 1, 42, 127, 128, 300, 0x3fff, 0x4000, 0x1234_5678, 0x1_ffff_ffff_ffff] {
        let encoded = encode_varint(v);
        let (decoded, rest) = parse_varint(&encoded).unwrap();
        assert_eq!(decoded, v);
        assert!(rest.is_empty());
    }
}

#[test]
fn varint_leaves_trailing_bytes() {
    let (v, rest) = parse_varint(&[0xac, 0x02, 0x99, 0x01]).unwrap();
    assert_eq!(v, 300);
    assert_eq!(rest, &[0x99, 0x01]);
}

#[test]
fn varint_too_long_is_malformed() {
    // Seven continuation bits in a row run past the group budget.
    let r = parse_varint(&[0x80, 0x80, 0x80, 0x80, 0x80, 0x80, 0x80, 0x01]);
    assert_eq!(r, Err(ParseError::MalformedVarint));

    // A value needing more than seven groups cannot be read back.
    let encoded = encode_varint(u64::MAX);
    assert_eq!(parse_varint(&encoded), Err(ParseError::MalformedVarint));
}

#[test]
fn varint_exhausted_buffer_is_malformed() {
    assert_eq!(parse_varint(&[]), Err(ParseError::MalformedVarint));
    assert_eq!(parse_varint(&[0x80]), Err(ParseError::MalformedVarint));
}

#[test]
fn tag_unpacks_into_number_and_wire_type() {
    assert_eq!(unpack_tag(0x08), Ok((1, WireType::Varint)));
    assert_eq!(unpack_tag(0x12), Ok((2, WireType::Len)));
    assert_eq!(unpack_tag(0x11), Err(ParseError::UnknownWireType));
    assert_eq!(unpack_tag(0x15), Err(ParseError::UnknownWireType));
}

#[test]
fn field_decodes_varint_payload() {
    let (field, rest) = parse_field(&[0x10, 0x2a, 0x07]).unwrap();
    assert_eq!(field.field_num, 2);
    assert_eq!(field.value.as_u64(), Ok(42));
    assert_eq!(rest, &[0x07]);
}

#[test]
fn field_bytes_are_a_window_into_the_input() {
    let data: [u8; 7] = [0x0a, 0x04, 0x45, 0x76, 0x61, 0x6e, 0x33];
    let (field, rest) = parse_field(&data).unwrap();
    assert_eq!(field.field_num, 1);
    let bytes = field.value.as_bytes().unwrap();
    assert_eq!(bytes, &data[2..6]);
    assert_eq!(field.value.as_str(), Ok("Evan"));
    assert_eq!(rest, &[0x33]);
}

#[test]
fn field_with_unsupported_wire_type_fails() {
    assert_eq!(parse_field(&[0x11, 0x2a]).unwrap_err(), ParseError::UnknownWireType);
    assert_eq!(parse_field(&[0x15, 0x2a]).unwrap_err(), ParseError::UnknownWireType);
}

#[test]
fn field_longer_than_buffer_is_truncated() {
    assert_eq!(parse_field(&[0x0a, 0x05, 0x41]).unwrap_err(), ParseError::TruncatedBuffer);
}

#[test]
fn accessors_reject_the_wrong_shape() {
    let text = FieldValue::Len(b"hi");
    let number = FieldValue::Varint(7);
    assert_eq!(number.as_str(), Err(ParseError::TypeMismatch));
    assert_eq!(number.as_bytes(), Err(ParseError::TypeMismatch));
    assert_eq!(text.as_u64(), Err(ParseError::TypeMismatch));
    assert_eq!(text.as_str(), Ok("hi"));
    let broken = FieldValue::Len(&[0xc3]);
    assert_eq!(broken.as_str(), Err(ParseError::InvalidText));
}
