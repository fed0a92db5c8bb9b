use ply::{
    decode_body, decode_scalar, is_identifier, parse_header, property, DecodeError, Element, Expected, Float,
    FormatKind, ParseError, Property, PropertyKind, PropertyValue, Tag, Value, ValueKind,
};

fn float_of(v: &Value) -> f32 {
    match v {
        Value::Float32(Float::Text(t)) => std::str::from_utf8(t).unwrap().parse().unwrap(),
        Value::Float32(Float::Bits(b)) => f32::from_bits(*b as u32),
        _ => panic!("not a float: {:?}", v),
    }
}

#[test]
fn parse_category_test() {
    let input = b"property list uint8 int32 vertex_indices\n";
    let res = property(input, 0);
    if let Ok((res, _)) = res {
        assert_eq!(
            Property { kind: PropertyKind::List(ValueKind::UInt8, ValueKind::Int32), name: "vertex_indices".into() },
            res
        );
    } else {
        panic!("res: {:?}", res);
    }
}

#[test]
fn identifier_bytes() {
    assert!(is_identifier(b'a'));
    assert!(is_identifier(b'Z'));
    assert!(is_identifier(b'_'));
    assert!(!is_identifier(b'1'));
    assert!(!is_identifier(b' '));
}

#[test]
fn list_property_ascii_body() {
    let input = b"ply\nformat ascii 1.0\nelement face 1\nproperty list uchar int32 vertex_indices\nend_header\n3 0 1 2\n";
    let (h, at) = parse_header(input).unwrap();
    assert_eq!(h.elements[0].properties[0].kind, PropertyKind::List(ValueKind::UInt8, ValueKind::Int32));
    let body = &input[at..];
    let (recs, used) = decode_body(body, &h).unwrap();
    assert_eq!(used, body.len());
    assert_eq!(recs.len(), 1);
    assert_eq!(recs[0].len(), 1);
    assert_eq!(
        recs[0][0][0],
        PropertyValue::List(vec![Value::Int32(0), Value::Int32(1), Value::Int32(2)])
    );
}

#[test]
fn malformed_version_is_invalid_integer() {
    let input = b"ply\nformat ascii 1.x\nelement vertex 1\nproperty float x\nend_header\n";
    assert_eq!(parse_header(input), Err(ParseError::InvalidInteger { offset: 19 }));
}

#[test]
fn truncated_binary_body() {
    let input = b"ply\nformat binary_little_endian 1.0\nelement vertex 1\nproperty float x\nend_header\n\x00\x00";
    let (h, at) = parse_header(input).unwrap();
    assert_eq!(
        decode_body(&input[at..], &h),
        Err(DecodeError::UnexpectedEndOfInput { needed: 4, available: 2 })
    );
}

#[test]
fn end_to_end_ascii_vertex() {
    let input = b"ply\nformat ascii 1.0\nelement vertex 1\nproperty float x\nproperty float y\nproperty float z\nend_header\n1.0 2.0 3.0\n";
    let (h, at) = parse_header(input).unwrap();
    assert_eq!(h.format.kind, FormatKind::Ascii);
    assert_eq!(h.format.version.major, 1);
    assert_eq!(h.format.version.minor, 0);
    assert_eq!(h.comments.len(), 0);
    assert_eq!(h.elements.len(), 1);
    let el: &Element = &h.elements[0];
    assert_eq!(el.name, b"vertex".to_vec());
    assert_eq!(el.count, 1);
    assert_eq!(el.properties.len(), 3);
    for (p, n) in el.properties.iter().zip(["x", "y", "z"]) {
        assert_eq!(p.kind, PropertyKind::Scalar(ValueKind::Float32));
        assert_eq!(p.name, n.as_bytes().to_vec());
    }
    let body = &input[at..];
    let (recs, used) = decode_body(body, &h).unwrap();
    assert_eq!(used, body.len());
    assert_eq!(recs[0].len(), 1);
    let got: Vec<f32> = recs[0][0]
        .iter()
        .map(|pv| match pv {
            PropertyValue::Scalar(v) => float_of(v),
            _ => panic!("list"),
        })
        .collect();
    assert_eq!(got, vec![1.0, 2.0, 3.0]);
}

#[test]
fn comments_and_aliases() {
    let input = b"ply\nformat binary_big_endian 1.0\ncomment made by hand\ncomment two\nelement v 2\nproperty int8 a\nproperty int b\nproperty uint c\nproperty double d\nelement e 0\nproperty short s\nend_header\n";
    let (h, at) = parse_header(input).unwrap();
    assert_eq!(at, input.len());
    assert_eq!(h.format.kind, FormatKind::BigEndian);
    assert_eq!(h.comments, vec![b"made by hand".to_vec(), b"two".to_vec()]);
    let kinds: Vec<PropertyKind> = h.elements[0].properties.iter().map(|p| p.kind).collect();
    assert_eq!(
        kinds,
        vec![
            PropertyKind::Scalar(ValueKind::Int8),
            PropertyKind::Scalar(ValueKind::Int32),
            PropertyKind::Scalar(ValueKind::UInt32),
            PropertyKind::Scalar(ValueKind::Float64),
        ]
    );
    assert_eq!(h.elements[1].count, 0);
    assert_eq!(h.elements[1].properties[0].kind, PropertyKind::Scalar(ValueKind::Int16));
}

#[test]
fn empty_element_list() {
    let input = b"ply\nformat ascii 1.0\nend_header\n";
    assert_eq!(parse_header(input), Err(ParseError::EmptyElementList { offset: 21 }));
}

#[test]
fn missing_end_header() {
    let input = b"ply\nformat ascii 1.0\nelement v 1\nproperty float x\n";
    assert_eq!(parse_header(input), Err(ParseError::MissingEndHeader { offset: input.len() }));
    let glued = b"ply\nformat ascii 1.0\nelement v 1\nproperty float x\nend_header";
    assert_eq!(parse_header(glued), Err(ParseError::MissingEndHeader { offset: 50 }));
}

#[test]
fn unknown_format_kind() {
    let input = b"ply\nformat binary 1.0\nelement v 1\nproperty float x\nend_header\n";
    assert_eq!(parse_header(input), Err(ParseError::UnknownFormatKind { offset: 11, end: 17 }));
}

#[test]
fn unknown_data_type() {
    let input = b"ply\nformat ascii 1.0\nelement v 1\nproperty half x\nend_header\n";
    assert_eq!(parse_header(input), Err(ParseError::UnknownDataType { offset: 42, end: 46 }));
}

#[test]
fn bad_magic_and_missing_space() {
    assert_eq!(
        parse_header(b"plx\n"),
        Err(ParseError::UnexpectedToken { expected: Expected::Keyword(Tag::Ply), found: Some(b'p'), offset: 0, end: 3 })
    );
    assert_eq!(
        parse_header(b"ply"),
        Err(ParseError::UnexpectedToken { expected: Expected::Whitespace, found: None, offset: 3, end: 3 })
    );
    let no_props = b"ply\nformat ascii 1.0\nelement v 1\nend_header\n";
    assert_eq!(
        parse_header(no_props),
        Err(ParseError::UnexpectedToken { expected: Expected::Keyword(Tag::Property), found: Some(b'e'), offset: 33, end: 43 })
    );
}

#[test]
fn binary_values_both_orders() {
    let bytes = [0xffu8, 0xfe, 0x01, 0x02];
    assert_eq!(decode_scalar(&bytes, 0, FormatKind::BigEndian, ValueKind::Int16), Ok((Value::Int16(-2), 2)));
    assert_eq!(decode_scalar(&bytes, 0, FormatKind::LittleEndian, ValueKind::Int16), Ok((Value::Int16(-257), 2)));
    assert_eq!(decode_scalar(&bytes, 0, FormatKind::BigEndian, ValueKind::UInt32), Ok((Value::UInt32(0xfffe0102), 4)));
    assert_eq!(decode_scalar(&bytes, 2, FormatKind::LittleEndian, ValueKind::UInt16), Ok((Value::UInt16(0x0201), 4)));
    assert_eq!(decode_scalar(&bytes, 0, FormatKind::LittleEndian, ValueKind::Int8), Ok((Value::Int8(-1), 1)));
    let one = 1.5f32.to_le_bytes();
    let (v, used) = decode_scalar(&one, 0, FormatKind::LittleEndian, ValueKind::Float32).unwrap();
    assert_eq!(used, 4);
    assert_eq!(float_of(&v), 1.5);
    let eight = (-1i64).to_be_bytes();
    assert_eq!(decode_scalar(&eight, 0, FormatKind::BigEndian, ValueKind::Int64), Ok((Value::Int64(-1), 8)));
    assert_eq!(
        decode_scalar(&eight, 4, FormatKind::BigEndian, ValueKind::Float64),
        Err(DecodeError::UnexpectedEndOfInput { needed: 8, available: 4 })
    );
}

#[test]
fn ascii_values_and_errors() {
    let s = b"-128 256 +7 1e5 x 12";
    assert_eq!(decode_scalar(s, 0, FormatKind::Ascii, ValueKind::Int8), Ok((Value::Int8(-128), 5)));
    assert_eq!(
        decode_scalar(s, 5, FormatKind::Ascii, ValueKind::UInt8),
        Err(DecodeError::InvalidNumericToken { start: 5, end: 8, expected: ValueKind::UInt8 })
    );
    assert_eq!(decode_scalar(s, 5, FormatKind::Ascii, ValueKind::UInt16), Ok((Value::UInt16(256), 9)));
    assert_eq!(decode_scalar(s, 9, FormatKind::Ascii, ValueKind::Int64), Ok((Value::Int64(7), 12)));
    assert_eq!(
        decode_scalar(s, 12, FormatKind::Ascii, ValueKind::Float64),
        Ok((Value::Float64(Float::Text(b"1e5".to_vec())), 16))
    );
    assert_eq!(
        decode_scalar(s, 16, FormatKind::Ascii, ValueKind::Float32),
        Err(DecodeError::InvalidNumericToken { start: 16, end: 17, expected: ValueKind::Float32 })
    );
    assert_eq!(decode_scalar(s, 18, FormatKind::Ascii, ValueKind::Int32), Err(DecodeError::MissingDelimiter { offset: 20 }));
    assert_eq!(
        decode_scalar(b"  ", 0, FormatKind::Ascii, ValueKind::Int32),
        Err(DecodeError::UnexpectedEndOfInput { needed: 1, available: 0 })
    );
}

#[test]
fn negative_list_count() {
    let input = b"ply\nformat ascii 1.0\nelement face 1\nproperty list char int vertex_indices\nend_header\n-1 5\n";
    let (h, at) = parse_header(input).unwrap();
    assert_eq!(decode_body(&input[at..], &h), Err(DecodeError::InvalidListCount { offset: 0 }));
}

#[test]
fn binary_records_in_element_order() {
    let mut input = b"ply\nformat binary_little_endian 1.0\nelement a 2\nproperty uchar x\nelement b 1\nproperty list uchar ushort l\nend_header\n".to_vec();
    let at = input.len();
    input.extend_from_slice(&[7, 9, 2, 1, 0, 2, 0, 0xaa]);
    let (h, start) = parse_header(&input).unwrap();
    assert_eq!(start, at);
    let (recs, used) = decode_body(&input[at..], &h).unwrap();
    assert_eq!(used, 7);
    assert_eq!(recs[0], vec![vec![PropertyValue::Scalar(Value::UInt8(7))], vec![PropertyValue::Scalar(Value::UInt8(9))]]);
    assert_eq!(recs[1], vec![vec![PropertyValue::List(vec![Value::UInt16(1), Value::UInt16(2)])]]);
}

#[test]
fn canonical_text_reads_as_the_same_header() {
    let loose = b"ply\r\nformat   binary_little_endian 1.0 \n\ncomment  hello world \nelement face 2\nproperty list uint8 int vertex_indices\nproperty float32 w\nelement edge 1\nproperty int8 a\nend_header\n";
    let canonical = b"ply\nformat binary_little_endian 1.0\ncomment hello world \nelement face 2\nproperty list uchar int32 vertex_indices\nproperty float32 w\nelement edge 1\nproperty char a\nend_header\n";
    let (h1, _) = parse_header(loose).unwrap();
    let (h2, at) = parse_header(canonical).unwrap();
    assert_eq!(h1, h2);
    assert_eq!(at, canonical.len());
    assert_eq!(h1.comments, vec![b"hello world ".to_vec()]);
}

#[test]
fn binary_round_trip_every_kind() {
    for (le, fk) in [(true, FormatKind::LittleEndian), (false, FormatKind::BigEndian)] {
        let cases: Vec<(Vec<u8>, ValueKind, Value)> = vec![
            (if le { (-5i8).to_le_bytes().to_vec() } else { (-5i8).to_be_bytes().to_vec() }, ValueKind::Int8, Value::Int8(-5)),
            (if le { 200u8.to_le_bytes().to_vec() } else { 200u8.to_be_bytes().to_vec() }, ValueKind::UInt8, Value::UInt8(200)),
            (if le { (-300i16).to_le_bytes().to_vec() } else { (-300i16).to_be_bytes().to_vec() }, ValueKind::Int16, Value::Int16(-300)),
            (if le { 60000u16.to_le_bytes().to_vec() } else { 60000u16.to_be_bytes().to_vec() }, ValueKind::UInt16, Value::UInt16(60000)),
            (if le { i32::MIN.to_le_bytes().to_vec() } else { i32::MIN.to_be_bytes().to_vec() }, ValueKind::Int32, Value::Int32(i32::MIN)),
            (if le { 4000000000u32.to_le_bytes().to_vec() } else { 4000000000u32.to_be_bytes().to_vec() }, ValueKind::UInt32, Value::UInt32(4000000000)),
            (if le { i64::MIN.to_le_bytes().to_vec() } else { i64::MIN.to_be_bytes().to_vec() }, ValueKind::Int64, Value::Int64(i64::MIN)),
            (if le { u64::MAX.to_le_bytes().to_vec() } else { u64::MAX.to_be_bytes().to_vec() }, ValueKind::UInt64, Value::UInt64(u64::MAX)),
            (if le { 2.5f32.to_le_bytes().to_vec() } else { 2.5f32.to_be_bytes().to_vec() }, ValueKind::Float32, Value::Float32(Float::Bits(2.5f32.to_bits() as u64))),
            (if le { (-0.125f64).to_le_bytes().to_vec() } else { (-0.125f64).to_be_bytes().to_vec() }, ValueKind::Float64, Value::Float64(Float::Bits((-0.125f64).to_bits()))),
        ];
        for (mut bytes, k, v) in cases {
            let w = bytes.len();
            bytes.push(0x55);
            assert_eq!(decode_scalar(&bytes, 0, fk, k), Ok((v, w)));
        }
    }
}

#[test]
fn ascii_round_trip_integers() {
    let vals: Vec<(String, ValueKind, Value)> = vec![
        (i8::MIN.to_string(), ValueKind::Int8, Value::Int8(i8::MIN)),
        (u8::MAX.to_string(), ValueKind::UInt8, Value::UInt8(u8::MAX)),
        (i16::MIN.to_string(), ValueKind::Int16, Value::Int16(i16::MIN)),
        (u16::MAX.to_string(), ValueKind::UInt16, Value::UInt16(u16::MAX)),
        (i32::MIN.to_string(), ValueKind::Int32, Value::Int32(i32::MIN)),
        (u32::MAX.to_string(), ValueKind::UInt32, Value::UInt32(u32::MAX)),
        (i64::MIN.to_string(), ValueKind::Int64, Value::Int64(i64::MIN)),
        (u64::MAX.to_string(), ValueKind::UInt64, Value::UInt64(u64::MAX)),
    ];
    for (text, k, v) in vals {
        let s = format!("{} ", text);
        assert_eq!(decode_scalar(s.as_bytes(), 0, FormatKind::Ascii, k), Ok((v, s.len())));
    }
    assert_eq!(
        decode_scalar(b"18446744073709551616 ", 0, FormatKind::Ascii, ValueKind::UInt64),
        Err(DecodeError::InvalidNumericToken { start: 0, end: 20, expected: ValueKind::UInt64 })
    );
}

#[test]
fn ascii_round_trip_floats() {
    for t in ["1.0", "-2.5e-3", "3.", ".5", "7E+2"] {
        let s = format!("{} ", t);
        let (v, used) = decode_scalar(s.as_bytes(), 0, FormatKind::Ascii, ValueKind::Float32).unwrap();
        assert_eq!(v, Value::Float32(Float::Text(t.as_bytes().to_vec())));
        assert_eq!(used, s.len());
        assert_eq!(float_of(&v), t.parse::<f32>().unwrap());
    }
    for bad in ["1e", "-", ".", "1.2.3", "e5", "0x10"] {
        let s = format!("{} ", bad);
        assert!(decode_scalar(s.as_bytes(), 0, FormatKind::Ascii, ValueKind::Float64).is_err());
    }
}

#[test]
fn consumption_is_exact() {
    let bytes = [1u8, 2, 3, 4, 5, 6, 7, 8, 9];
    for (k, w) in [
        (ValueKind::Int8, 1),
        (ValueKind::UInt16, 2),
        (ValueKind::Float32, 4),
        (ValueKind::Int64, 8),
    ] {
        assert_eq!(decode_scalar(&bytes, 1, FormatKind::BigEndian, k).unwrap().1, 1 + w);
    }
    assert_eq!(decode_scalar(b"  12 \n 34", 0, FormatKind::Ascii, ValueKind::Int32), Ok((Value::Int32(12), 7)));
}

#[test]
fn decoding_elements_in_two_parts() {
    let whole = b"ply\nformat ascii 1.0\nelement a 1\nproperty float x\nelement b 1\nproperty float y\nend_header\n";
    let first = b"ply\nformat ascii 1.0\nelement a 1\nproperty float x\nend_header\n";
    let second = b"ply\nformat ascii 1.0\nelement b 1\nproperty float y\nend_header\n";
    let (h, _) = parse_header(whole).unwrap();
    let (h1, _) = parse_header(first).unwrap();
    let (h2, _) = parse_header(second).unwrap();
    let body = b"1 2 ";
    let (all, used) = decode_body(body, &h).unwrap();
    let (mut r1, c1) = decode_body(body, &h1).unwrap();
    let (r2, c2) = decode_body(&body[c1..], &h2).unwrap();
    r1.extend(r2);
    assert_eq!(r1, all);
    assert_eq!(c1 + c2, used);
    assert_eq!(all[1][0][0], PropertyValue::Scalar(Value::Float32(Float::Text(b"2".to_vec()))));
}
