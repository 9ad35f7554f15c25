use bincode_core::{
    decode_value, Config, ErrorKind, LengthOption, LimitOption, Shape, Value,
};

#[test]
fn bool_byte_two_is_invalid() {
    let c = Config::new();
    let e = c.deserialize(&[2u8], &Shape::Bool).unwrap_err();
    assert!(matches!(*e, ErrorKind::InvalidBoolEncoding(2)));
}

#[test]
fn enum_tag_out_of_range_is_invalid() {
    let c = Config::new();
    // little-endian 32-bit tag of 99 against a three-variant enum
    let bytes = [99u8, 0, 0, 0];
    let shape = Shape::Enum(vec![Shape::Bool, Shape::U8, Shape::Str]);
    let e = c.deserialize(&bytes, &shape).unwrap_err();
    assert!(matches!(*e, ErrorKind::InvalidTagEncoding(99)));
}

#[test]
fn truncated_primitive_reports_io() {
    let c = Config::new();
    let e = c.deserialize(&[1u8], &Shape::U32).unwrap_err();
    assert!(matches!(*e, ErrorKind::Io(_)));
}

#[test]
fn truncated_string_body_reports_io() {
    let mut c = Config::new();
    c.string_length(LengthOption::U8);
    // prefix says five bytes follow, only two do
    let e = c.deserialize(&[5u8, b'a', b'b'], &Shape::Str).unwrap_err();
    assert!(matches!(*e, ErrorKind::Io(_)));
}

#[test]
fn invalid_utf8_is_reported() {
    let mut c = Config::new();
    c.string_length(LengthOption::U8);
    let e = c.deserialize(&[1u8, 0xFF], &Shape::Str).unwrap_err();
    assert!(matches!(*e, ErrorKind::InvalidUtf8Encoding(_)));
}

#[test]
fn surrogate_scalar_is_not_a_char() {
    let c = Config::new();
    // 0xD800 is a surrogate codepoint, not a character
    let bytes = [0x00u8, 0xD8, 0, 0];
    let e = c.deserialize(&bytes, &Shape::Char).unwrap_err();
    assert!(matches!(*e, ErrorKind::InvalidCharEncoding));
}

#[test]
fn option_tag_other_than_zero_or_one_is_invalid() {
    let c = Config::new();
    let e = c
        .deserialize(&[7u8, 0], &Shape::Option(Box::new(Shape::U8)))
        .unwrap_err();
    assert!(matches!(*e, ErrorKind::InvalidTagEncoding(7)));
}

#[test]
fn metered_decode_stops_at_the_budget() {
    let c = Config::new();
    let bytes = c.serialize(&Value::U32(5)).unwrap();
    let mut pos = 0usize;
    let mut lim = LimitOption::Limited(3);
    let e = decode_value(
        &bytes,
        &mut pos,
        &Shape::U32,
        bincode_core::Endianness::Little,
        LengthOption::U64,
        LengthOption::U64,
        &mut lim,
    )
    .unwrap_err();
    assert!(matches!(*e, ErrorKind::SizeLimit));
}

#[test]
fn metered_decode_within_budget_succeeds() {
    let c = Config::new();
    let bytes = c.serialize(&Value::U32(5)).unwrap();
    let mut pos = 0usize;
    let mut lim = LimitOption::Limited(4);
    let v = decode_value(
        &bytes,
        &mut pos,
        &Shape::U32,
        bincode_core::Endianness::Little,
        LengthOption::U64,
        LengthOption::U64,
        &mut lim,
    )
    .unwrap();
    assert_eq!(v, Value::U32(5));
    assert_eq!(lim.limit(), Some(0));
    assert_eq!(pos, 4);
}

#[test]
fn messages_describe_each_kind() {
    assert_eq!(ErrorKind::SizeLimit.message(), "the size limit has been reached");
    assert_eq!(
        ErrorKind::SizeTypeLimit.message(),
        "the size is larger than can be represented with this config"
    );
    assert_eq!(ErrorKind::InvalidBoolEncoding(2).message(), "invalid u8 while decoding bool");
    assert_eq!(ErrorKind::InvalidCharEncoding.message(), "char is not valid");
    assert_eq!(ErrorKind::InvalidTagEncoding(99).message(), "tag for enum is not valid");
    assert_eq!(
        ErrorKind::SequenceMustHaveLength.message(),
        "sequences and maps must have a knowable size ahead of time"
    );
    assert_eq!(ErrorKind::Custom(String::from("boom")).message(), "custom error");
}

#[test]
fn wrong_shape_for_encoded_bytes_fails_rather_than_guessing() {
    let c = Config::new();
    let bytes = c.serialize(&Value::Bool(true)).unwrap();
    // the single byte 1 read as a u64 is truncated input
    let e = c.deserialize(&bytes, &Shape::U64).unwrap_err();
    assert!(matches!(*e, ErrorKind::Io(_)));
}

#[test]
fn bounded_config_meters_slice_decode() {
    let mut c = Config::new();
    let bytes = c.serialize(&Value::U32(5)).unwrap();
    c.limit(3);
    let e = c.deserialize(&bytes, &Shape::U32).unwrap_err();
    assert!(matches!(*e, ErrorKind::SizeLimit));
    c.limit(4);
    assert_eq!(c.deserialize(&bytes, &Shape::U32).unwrap(), Value::U32(5));
}

#[test]
fn zero_budget_refuses_even_one_byte() {
    let mut c = Config::new();
    c.limit(0);
    let e = c.deserialize(&[1u8], &Shape::Bool).unwrap_err();
    assert!(matches!(*e, ErrorKind::SizeLimit));
}
