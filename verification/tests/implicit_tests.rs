use parse_pdms_db::parser::attribute::implicit::{
    parse_bool, parse_double, parse_double_array, parse_implicit_attr_value, parse_int_array,
    parse_integer, parse_refno, parse_string, parse_vec3, parse_word, FloatBits,
    ImplicitAttrOffset, NamedAttrValue,
};
use parse_pdms_db::parser::combinator::ParseFailure;
use parse_pdms_db::pdms_types::DbAttributeType;

fn as_f32(f: FloatBits) -> f32 {
    match f {
        FloatBits::Single(b) => f32::from_bits(b),
        FloatBits::Double(b) => f64::from_bits(b) as f32,
    }
}

#[test]
fn test_parse_integer() {
    let data = [0x00, 0x00, 0x00, 0x2A];
    let (_, result) = parse_integer(&data).unwrap();
    assert!(matches!(result, NamedAttrValue::IntegerType(42)));
}

#[test]
fn test_parse_double_f32() {
    let data = [0x40, 0x49, 0x0F, 0xDB];
    let (_, result) = parse_double(&data, true).unwrap();
    match result {
        NamedAttrValue::F32Type(v) => {
            assert!((as_f32(v) - 3.14159).abs() < 0.001);
        }
        _ => panic!("Expected F32Type"),
    }
}

#[test]
fn test_parse_bool() {
    let data = [0x00, 0x00, 0x00, 0x04];
    let offset = 2 << 20;
    let (_, result) = parse_bool(&data, offset).unwrap();
    assert!(matches!(result, NamedAttrValue::BoolType(true)));
}

#[test]
fn short_inputs_fail_with_eof() {
    assert!(matches!(parse_integer(&[0, 1, 2]), Err(ParseFailure::Eof)));
    assert!(matches!(parse_double(&[0, 1, 2, 3], false), Err(ParseFailure::Eof)));
    assert!(matches!(parse_refno(&[0; 7]), Err(ParseFailure::Eof)));
    assert!(matches!(parse_string(&[0, 0, 0, 2, 0, 0, 0, 65]), Err(ParseFailure::Eof)));
    assert!(matches!(parse_vec3(&[0; 27], false), Err(ParseFailure::Eof)));
    assert!(matches!(parse_double_array(&[0, 0, 0, 1, 0, 0, 0], true), Err(ParseFailure::Eof)));
    assert!(matches!(parse_int_array(&[0, 0, 0, 1], "XYZ"), Err(ParseFailure::Eof)));
}

#[test]
fn decoders_keep_the_input() {
    let data = [0x3F, 0xF0, 0, 0, 0, 0, 0, 0, 9];
    let (rest, v) = parse_double(&data, false).unwrap();
    assert_eq!(rest, &data[..]);
    match v {
        NamedAttrValue::F32Type(f) => assert_eq!(as_f32(f), 1.0),
        _ => panic!("Expected F32Type"),
    }
}

#[test]
fn bool_reads_the_selected_bit() {
    let data = [0x00, 0x00, 0x00, 0x04];
    assert!(matches!(parse_bool(&data, 1 << 20).unwrap().1, NamedAttrValue::BoolType(false)));
    assert!(matches!(parse_bool(&[0x80, 0, 0, 0], 31 << 20).unwrap().1, NamedAttrValue::BoolType(true)));
}

#[test]
fn string_has_one_character_per_word() {
    let data = [0, 0, 0, 3, 0, 0, 0, b'B', 0, 0, 0, b'O', 0xFF, 0xFF, 0xFF, b'X', 7];
    match parse_string(&data).unwrap().1 {
        NamedAttrValue::StringType(s) => assert_eq!(s, "BOX"),
        _ => panic!("Expected StringType"),
    }
    match parse_string(&[0, 0, 0, 0]).unwrap().1 {
        NamedAttrValue::StringType(s) => assert!(s.is_empty()),
        _ => panic!("Expected StringType"),
    }
}

#[test]
fn refno_and_word() {
    let data = [0, 0, 0x40, 0x5D, 0, 0, 0, 0x50];
    match parse_refno(&data).unwrap().1 {
        NamedAttrValue::RefU64Type(r) => {
            assert_eq!(r.get_0(), 16477);
            assert_eq!(r.get_1(), 80);
            assert_eq!(r.to_refno_str(), "16477/80");
        }
        _ => panic!("Expected RefU64Type"),
    }
    // -0xC551C: the word is read without its sign.
    let w = (-0xC551Ci32).to_be_bytes();
    match parse_word(&w).unwrap().1 {
        NamedAttrValue::WordType(s) => assert_eq!(s, "BRAN"),
        _ => panic!("Expected WordType"),
    }
}

#[test]
fn vectors_and_arrays() {
    let mut data = vec![0, 0, 0, 3];
    for v in [1.0f32, -2.5, 0.0] {
        data.extend_from_slice(&v.to_be_bytes());
    }
    match parse_vec3(&data, true).unwrap().1 {
        NamedAttrValue::Vec3Type(v) => {
            assert_eq!([as_f32(v[0]), as_f32(v[1]), as_f32(v[2])], [1.0, -2.5, 0.0]);
        }
        _ => panic!("Expected Vec3Type"),
    }
    match parse_double_array(&data, true).unwrap().1 {
        NamedAttrValue::F32VecType(v) => {
            assert_eq!(v.iter().map(|f| as_f32(*f)).collect::<Vec<_>>(), vec![1.0, -2.5, 0.0]);
        }
        _ => panic!("Expected F32VecType"),
    }
    let mut d64 = vec![0, 0, 0, 2];
    d64.extend_from_slice(&0.5f64.to_be_bytes());
    d64.extend_from_slice(&8.0f64.to_be_bytes());
    match parse_double_array(&d64, false).unwrap().1 {
        NamedAttrValue::F32VecType(v) => {
            assert_eq!(v.iter().map(|f| as_f32(*f)).collect::<Vec<_>>(), vec![0.5, 8.0]);
        }
        _ => panic!("Expected F32VecType"),
    }
    let ints = [0, 0, 0, 2, 0, 0, 0, 7, 0xFF, 0xFF, 0xFF, 0xFF];
    match parse_int_array(&ints, "LEVEL").unwrap().1 {
        NamedAttrValue::IntArrayType(v) => assert_eq!(v, vec![7, -1]),
        _ => panic!("Expected IntArrayType"),
    }
    match parse_int_array(&ints, "OBST").unwrap().1 {
        NamedAttrValue::IntArrayType(v) => assert_eq!(v, vec![7]),
        _ => panic!("Expected IntArrayType"),
    }
}

fn attr(name: &str, offset: u32, attr_type: DbAttributeType) -> ImplicitAttrOffset {
    ImplicitAttrOffset { name: name.to_string(), offset, attr_type }
}

#[test]
fn implicit_value_at_its_word_offset() {
    let block = [0, 0, 0, 1, 0, 0, 0, 2, 0, 0, 0, 3, 0, 0, 0, 4];
    let (rest, v) = parse_implicit_attr_value(&block, &attr("A", 2, DbAttributeType::INTEGER), false, 0, 0).unwrap();
    assert_eq!(rest, &block[8..]);
    assert!(matches!(v, NamedAttrValue::IntegerType(3)));
    // single precision moves the offset back by whole words
    let (_, v) = parse_implicit_attr_value(&block, &attr("A", 2, DbAttributeType::INTEGER), true, 1, 0).unwrap();
    assert!(matches!(v, NamedAttrValue::IntegerType(2)));
    let (_, v) = parse_implicit_attr_value(&block, &attr("A", 2, DbAttributeType::INTEGER), true, 9, 0).unwrap();
    assert!(matches!(v, NamedAttrValue::IntegerType(1)));
    // the high bits of the offset select a flag bit
    let (_, v) = parse_implicit_attr_value(&block, &attr("F", (1 << 20) | 1, DbAttributeType::BOOL), false, 0, 0).unwrap();
    assert!(matches!(v, NamedAttrValue::BoolType(true)));
}

#[test]
fn implicit_value_failures_and_unknown_types() {
    let block = [0, 0, 0, 1, 0, 0, 0, 2];
    assert!(matches!(
        parse_implicit_attr_value(&block, &attr("A", 2, DbAttributeType::INTEGER), false, 0, 0),
        Err(ParseFailure::Eof)
    ));
    assert!(matches!(
        parse_implicit_attr_value(&block, &attr("R", 1, DbAttributeType::ELEMENT), false, 0, 0),
        Err(ParseFailure::Eof)
    ));
    let (rest, v) = parse_implicit_attr_value(&block, &attr("D", 1, DbAttributeType::DATETIME), false, 0, 0).unwrap();
    assert_eq!(rest, &block[..]);
    assert!(matches!(v, NamedAttrValue::InvalidType));
}
