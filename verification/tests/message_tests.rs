use protowire::message::{parse_message, parse_message_at, Person, PhoneNumber};
use protowire::wire::ParseError;

#[test]
fn test_person_id() {
    let person_id: Person = parse_message(&[0x10, 0x2a]).unwrap();
    assert_eq!(person_id, Person { name: "", id: 42, phone: vec![] });
}

#[test]
fn test_person_name() {
    let person_name: Person = parse_message(&[
        0x0a, 0x0e, 0x62, 0x65, 0x61, 0x75, 0x74, 0x69, 0x66, 0x75, 0x6c, 0x20, 0x6e, 0x61, 0x6d,
        0x65,
    ])
    .unwrap();
    assert_eq!(person_name, Person { name: "beautiful name", id: 0, phone: vec![] });
}

#[test]
fn test_person_name_id() {
    let person_name_id: Person =
        parse_message(&[0x0a, 0x04, 0x45, 0x76, 0x61, 0x6e, 0x10, 0x16]).unwrap();
    assert_eq!(person_name_id, Person { name: "Evan", id: 22, phone: vec![] });
}

#[test]
fn test_phone() {
    let phone: Person = parse_message(&[
        0x0a, 0x00, 0x10, 0x00, 0x1a, 0x16, 0x0a, 0x0e, 0x2b, 0x31, 0x32, 0x33, 0x34, 0x2d, 0x37,
        0x37, 0x37, 0x2d, 0x39, 0x30, 0x39, 0x30, 0x12, 0x04, 0x68, 0x6f, 0x6d, 0x65,
    ])
    .unwrap();
    assert_eq!(
        phone,
        Person {
            name: "",
            id: 0,
            phone: vec![PhoneNumber { number: "+1234-777-9090", type_: "home" }],
        }
    );
}

#[test]
fn test_all() {
    let person: Person = parse_message(&[
        0x0a, 0x07, 0x6d, 0x61, 0x78, 0x77, 0x65, 0x6c, 0x6c, 0x10, 0x2a, 0x1a, 0x16, 0x0a, 0x0e,
        0x2b, 0x31, 0x32, 0x30, 0x32, 0x2d, 0x35, 0x35, 0x35, 0x2d, 0x31, 0x32, 0x31, 0x32, 0x12,
        0x04, 0x68, 0x6f, 0x6d, 0x65, 0x1a, 0x18, 0x0a, 0x0e, 0x2b, 0x31, 0x38, 0x30, 0x30, 0x2d,
        0x38, 0x36, 0x37, 0x2d, 0x35, 0x33, 0x30, 0x38, 0x12, 0x06, 0x6d, 0x6f, 0x62, 0x69, 0x6c,
        0x65,
    ])
    .unwrap();
    assert_eq!(
        person,
        Person {
            name: "maxwell",
            id: 42,
            phone: vec![
                PhoneNumber { number: "+1202-555-1212", type_: "home" },
                PhoneNumber { number: "+1800-867-5308", type_: "mobile" },
            ]
        }
    );
}

#[test]
fn empty_buffer_gives_default_person() {
    let person: Person = parse_message(&[]).unwrap();
    assert_eq!(person, Person { name: "", id: 0, phone: vec![] });
}

#[test]
fn unknown_field_number_is_fatal() {
    // Field 4 is not part of the Person schema.
    let r: Result<Person, ParseError> = parse_message(&[0x20, 0x2a]);
    assert_eq!(r, Err(ParseError::UnknownFieldNumber));
}

#[test]
fn integer_where_text_expected_is_a_type_mismatch() {
    // Field 1 of Person is text, but here it arrives as a varint.
    let r: Result<Person, ParseError> = parse_message(&[0x08, 0x2a]);
    assert_eq!(r, Err(ParseError::TypeMismatch));
}

#[test]
fn invalid_utf8_name_is_rejected() {
    let r: Result<Person, ParseError> = parse_message(&[0x0a, 0x01, 0xff]);
    assert_eq!(r, Err(ParseError::InvalidText));
}

#[test]
fn exhausted_depth_budget_is_rejected() {
    // A nested phone sub-message with no recursion budget left.
    let r: Result<Person, ParseError> = parse_message_at(&[0x1a, 0x00], 0);
    assert_eq!(r, Err(ParseError::RecursionLimit));

    // One level of budget is enough for the same buffer.
    let person: Person = parse_message_at(&[0x1a, 0x00], 1).unwrap();
    assert_eq!(
        person,
        Person { name: "", id: 0, phone: vec![PhoneNumber { number: "", type_: "" }] }
    );
}

#[test]
fn phone_schema_rejects_integer_fields() {
    let r: Result<PhoneNumber, ParseError> = parse_message(&[0x08, 0x07]);
    assert_eq!(r, Err(ParseError::TypeMismatch));
}
