use bincode_core::{Config, LengthOption, Shape, Value};

fn sample_value() -> Value {
    Value::Tuple(vec![
        Value::Bool(true),
        Value::Bool(false),
        Value::Char('β'),
        Value::U8(0xAB),
        Value::U16(0x1234),
        Value::U32(0xDEAD_BEEF),
        Value::U64(0x0102_0304_0506_0708),
        Value::Str("héllo".as_bytes().to_vec()),
        Value::Array(vec![Value::U16(1), Value::U16(2), Value::U16(3)]),
        Value::Option(None),
        Value::Option(Some(Box::new(Value::U8(9)))),
        Value::Variant(2, Box::new(Value::Str("tail".as_bytes().to_vec()))),
    ])
}

fn sample_shape() -> Shape {
    Shape::Tuple(vec![
        Shape::Bool,
        Shape::Bool,
        Shape::Char,
        Shape::U8,
        Shape::U16,
        Shape::U32,
        Shape::U64,
        Shape::Str,
        Shape::Array(Box::new(Shape::U16)),
        Shape::Option(Box::new(Shape::U8)),
        Shape::Option(Box::new(Shape::U8)),
        Shape::Enum(vec![Shape::Bool, Shape::U8, Shape::Str]),
    ])
}

fn configs() -> Vec<Config> {
    let widths = [
        LengthOption::U64,
        LengthOption::U32,
        LengthOption::U16,
        LengthOption::U8,
    ];
    let mut out = Vec::new();
    for sw in widths {
        for aw in widths {
            for endian in 0..3 {
                let mut c = Config::new();
                match endian {
                    0 => c.little_endian(),
                    1 => c.big_endian(),
                    _ => c.native_endian(),
                };
                c.string_length(sw).array_length(aw);
                out.push(c);
            }
        }
    }
    out
}

#[test]
fn round_trip_under_every_combination() {
    let v = sample_value();
    let shape = sample_shape();
    for c in configs() {
        let bytes = c.serialize(&v).unwrap();
        let back = c.deserialize(&bytes, &shape).unwrap();
        assert_eq!(back, v);
    }
}

#[test]
fn serialized_size_matches_serialize_exactly() {
    let v = sample_value();
    for c in configs() {
        let n = c.serialized_size(&v).unwrap();
        let bytes = c.serialize(&v).unwrap();
        assert_eq!(n, bytes.len() as u64);
    }
}

#[test]
fn little_endian_layout_is_exact() {
    let mut c = Config::new();
    c.little_endian().string_length(LengthOption::U32);
    let v = Value::Tuple(vec![
        Value::U16(0x1234),
        Value::Str("ab".as_bytes().to_vec()),
    ]);
    let bytes = c.serialize(&v).unwrap();
    assert_eq!(bytes, vec![0x34, 0x12, 2, 0, 0, 0, b'a', b'b']);
}

#[test]
fn big_endian_layout_is_exact() {
    let mut c = Config::new();
    c.big_endian().string_length(LengthOption::U32);
    let v = Value::Tuple(vec![
        Value::U16(0x1234),
        Value::Str("ab".as_bytes().to_vec()),
    ]);
    let bytes = c.serialize(&v).unwrap();
    assert_eq!(bytes, vec![0x12, 0x34, 0, 0, 0, 2, b'a', b'b']);
}

#[test]
fn short_length_prefixes_are_exact() {
    let mut c = Config::new();
    c.string_length(LengthOption::U8).array_length(LengthOption::U16);
    let v = Value::Array(vec![Value::Str("x".as_bytes().to_vec())]);
    let bytes = c.serialize(&v).unwrap();
    assert_eq!(bytes, vec![1, 0, 1, b'x']);
}

#[test]
fn resolving_twice_gives_byte_identical_output() {
    let v = sample_value();
    for c in configs() {
        let first = c.serialize(&v).unwrap();
        let second = c.serialize(&v).unwrap();
        assert_eq!(first, second);
    }
}

#[test]
fn sufficient_bound_serializes_and_insufficient_fails_early() {
    let v = sample_value();
    let mut c = Config::new();
    let exact = c.serialized_size(&v).unwrap();
    c.limit(exact);
    assert!(c.serialize(&v).is_ok());
    c.limit(exact - 1);
    let e = c.serialize(&v).unwrap_err();
    assert!(matches!(*e, bincode_core::ErrorKind::SizeLimit));
}

#[test]
fn array_length_wider_than_u16_prefix_is_refused() {
    let mut elems = Vec::new();
    for _ in 0..70_000 {
        elems.push(Value::U8(0));
    }
    let v = Value::Array(elems);
    let mut c = Config::new();
    c.array_length(LengthOption::U16);
    let e = c.serialize(&v).unwrap_err();
    assert!(matches!(*e, bincode_core::ErrorKind::SizeTypeLimit));
    let e = c.serialized_size(&v).unwrap_err();
    assert!(matches!(*e, bincode_core::ErrorKind::SizeTypeLimit));
    // the same array fits a 32-bit prefix
    c.array_length(LengthOption::U32);
    assert!(c.serialize(&v).is_ok());
}

#[test]
fn string_longer_than_u8_prefix_is_refused() {
    let v = Value::Str(vec![b'a'; 300]);
    let mut c = Config::new();
    c.string_length(LengthOption::U8);
    let e = c.serialize(&v).unwrap_err();
    assert!(matches!(*e, bincode_core::ErrorKind::SizeTypeLimit));
}

#[test]
fn empty_values_round_trip() {
    let v = Value::Tuple(vec![
        Value::Str(Vec::new()),
        Value::Array(Vec::new()),
        Value::Tuple(Vec::new()),
    ]);
    let shape = Shape::Tuple(vec![
        Shape::Str,
        Shape::Array(Box::new(Shape::U64)),
        Shape::Tuple(Vec::new()),
    ]);
    let c = Config::new();
    let bytes = c.serialize(&v).unwrap();
    // two 64-bit zero length prefixes and nothing else
    assert_eq!(bytes.len(), 16);
    let back = c.deserialize(&bytes, &shape).unwrap();
    assert_eq!(back, v);
}

#[test]
fn trailing_bytes_are_ignored_by_slice_deserialize() {
    let c = Config::new();
    let mut bytes = c.serialize(&Value::U16(7)).unwrap();
    bytes.push(0xFF);
    let back = c.deserialize(&bytes, &Shape::U16).unwrap();
    assert_eq!(back, Value::U16(7));
}
