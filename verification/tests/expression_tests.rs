use parse_pdms_db::parser::attribute::expression::{
    get_expression_of_func, get_math_operators, parse_expression_const,
};

#[test]
fn test_get_math_operators() {
    let ops = get_math_operators();
    assert_eq!(ops.get(&0x322), Some(&"( {} + {} )"));
    assert_eq!(ops.get(&0x324), Some(&"( {} * {} )"));
    assert_eq!(ops.get(&0x385), Some(&"SIN( {} )"));
}

#[test]
fn math_operators_table() {
    let ops = get_math_operators();
    assert_eq!(ops.len(), 31);
    assert_eq!(ops.get(&0x191), Some(&"{} EQ {}"));
    assert_eq!(ops.get(&0x582), Some(&"STR( {} )"));
    assert_eq!(ops.get(&0x3F0), None);
}

#[test]
fn test_parse_expression_const() {
    assert_eq!(parse_expression_const(&[0, 0, 0, 0x6F]), "PI");
    assert_eq!(parse_expression_const(&[0, 0, 0, 0]), "");
    assert_eq!(parse_expression_const(&[0, 0]), "");
}

#[test]
fn test_get_expression_of_func() {
    assert_eq!(get_expression_of_func(&[0, 0, 0, 0xA]), "PREV");
    assert_eq!(get_expression_of_func(&[0, 0, 0, 0xB]), "NEXT");
    assert_eq!(get_expression_of_func(&[0, 0, 0, 0]), "");
}

#[test]
fn expression_functions_by_code() {
    assert_eq!(get_expression_of_func(&[0x0, 0xA, 0x1D, 0xCB, 9]), "BLRF NUM 1");
    assert_eq!(get_expression_of_func(&[0x0, 0xD, 0xBC, 0xF9]), "CATR");
    assert_eq!(get_expression_of_func(&[0x0, 0xD, 0x24, 0x5B]), "BLTP 1");
    assert_eq!(get_expression_of_func(&[0, 0, 0]), "");
    assert_eq!(parse_expression_const(&[0, 0, 0, 0x6F, 1, 2]), "PI");
}

#[test]
fn test_check_is_expr() {
    // Needs the hashes of real expression attributes; skipped for now.
}

use parse_pdms_db::parse_explict_tools::{
    get_expression_func_name, is_axis_expression, parse_axis_expression,
};
use parse_pdms_db::parse_explict_tools as tools;
use parse_pdms_db::parser::attribute::expression::{
    parse_general_expression, parse_other_expression, parse_ptcd_expression,
    parse_string_expression, ExpressionValue,
};
use parse_pdms_db::parser::combinator::ParseFailure;

fn words(ws: &[i32]) -> Vec<u8> {
    ws.iter().flat_map(|w| w.to_be_bytes()).collect()
}

fn text_of(v: &ExpressionValue) -> &str {
    match v {
        ExpressionValue::Text(t) => t.as_str(),
        _ => panic!("Expected Text"),
    }
}

#[test]
fn axis_expression_reads_sign_and_axis() {
    let input = words(&[0x1C000003, 2, 1, 2, 99]);
    assert!(is_axis_expression(&input));
    let (rest, (t, a)) = parse_axis_expression(&input, "PAXI".to_string()).unwrap();
    assert_eq!(t, "PAXI");
    assert_eq!(a, "Y");
    assert_eq!(rest, &99i32.to_be_bytes()[..]);
    let neg = words(&[0x1C000003, 2, 2, 3]);
    assert_eq!(parse_axis_expression(&neg, String::new()).unwrap().1 .1, "-Z");
    let odd = words(&[0x1C000003, 2, 7, 9]);
    assert!(!is_axis_expression(&odd));
    assert_eq!(parse_axis_expression(&odd, String::new()).unwrap().1 .1, "UNKNOWN");
    assert_eq!(parse_axis_expression(&odd[..15], String::new()), Err(ParseFailure::Incomplete));
    assert!(!is_axis_expression(&words(&[0x1C000004, 2, 1, 1])));
}

#[test]
fn function_names_by_hash() {
    let input = words(&[0, 0xC551C]);
    assert_eq!(get_expression_func_name(&input).unwrap().1, "BRAN");
    let input = words(&[0, 0x81BF1]);
    assert_eq!(get_expression_func_name(&input).unwrap().1, "");
}

#[test]
fn string_expression_is_quoted() {
    let mut input = words(&[0, 0, 0, 0, 0x66, 2, 'A' as i32, 'B' as i32]);
    input.extend_from_slice(&[1, 2]);
    let (rest, (t, v)) = parse_string_expression(&input, "NAME".to_string()).unwrap();
    assert_eq!(t, "NAME");
    assert_eq!(text_of(&v), "'AB'");
    assert_eq!(rest, &[1, 2]);
    let short = words(&[0, 0, 0, 0, 0x66, 3, 'A' as i32]);
    let (rest, (_, v)) = parse_string_expression(&short, String::new()).unwrap();
    assert_eq!(text_of(&v), "");
    assert_eq!(rest.len(), short.len());
}

#[test]
fn ptcd_expression_hands_out_axis_data() {
    let mut input = vec![0, 0, 0, 3, 9, 9, 9, 9];
    input.extend_from_slice(&words(&[0x3F800000, 0, 0, 5]));
    let (rest, (_, v)) = parse_ptcd_expression(&input, "PTCD".to_string()).unwrap();
    match v {
        ExpressionValue::AxisData(d) => assert_eq!(d, words(&[0x3F800000, 0, 0])),
        _ => panic!("Expected AxisData"),
    }
    assert_eq!(rest, &5i32.to_be_bytes()[..]);
}

#[test]
fn general_expression_forms() {
    let axis = words(&[0, 2, 1, 3]);
    assert_eq!(text_of(&parse_general_expression(&axis, String::new()).unwrap().1 .1), "Z");
    let axis0 = words(&[0, 2, 1, 4]);
    assert_eq!(text_of(&parse_general_expression(&axis0, String::new()).unwrap().1 .1), "");
    let mut num = words(&[0, 0, 0x28, 7, 8]);
    num.extend_from_slice(&[0x40, 0x00, 0, 0]);
    match parse_general_expression(&num, String::new()).unwrap().1 .1 {
        ExpressionValue::Number(f, b) => {
            assert_eq!(f, 0x4000);
            assert_eq!(b, num[12..24].to_vec());
        }
        _ => panic!("Expected Number"),
    }
    let mut odd = words(&[0, 0, 0x28, 7, 8]);
    odd.extend_from_slice(&[0x12, 0x34, 0, 0]);
    assert_eq!(text_of(&parse_general_expression(&odd, String::new()).unwrap().1 .1), "0");
    assert_eq!(text_of(&parse_general_expression(&[0; 15], String::new()).unwrap().1 .1), "");
}

#[test]
fn other_expression_dispatch() {
    let s = words(&[0, 0, 0, 0, 0x66, 1, 'Q' as i32]);
    assert_eq!(text_of(&parse_other_expression(&s, "X".to_string(), 0).unwrap().1 .1), "'Q'");
    let mut p = vec![0, 0, 0, 1, 0, 0, 0, 0];
    p.extend_from_slice(&words(&[0, 0, 0]));
    match parse_other_expression(&p, "PTCDI".to_string(), 0).unwrap().1 .1 {
        ExpressionValue::AxisData(d) => assert_eq!(d, vec![0, 0, 0, 0]),
        _ => panic!("Expected AxisData"),
    }
    let g = words(&[0, 2, 1, 1, 0]);
    assert_eq!(text_of(&parse_other_expression(&g, "PDIS".to_string(), 0).unwrap().1 .1), "X");
    assert_eq!(text_of(&parse_other_expression(&g[..19], "PDIS".to_string(), 0).unwrap().1 .1), "");
}

#[test]
fn exact_word_constants() {
    assert_eq!(tools::parse_expression_const(&[0, 0, 0, 0x6F]), "PI");
    assert_eq!(tools::parse_expression_const(&[0, 0, 0, 0x6F, 0]), "");
    assert_eq!(tools::get_expression_of_func(&[0, 0xD, 0x24, 0x5B]), "BLTP 1");
    assert_eq!(tools::get_expression_of_func(&[0, 0, 0, 0xA]), "PREV");
    assert_eq!(tools::get_expression_of_func(&[0, 0, 0, 0xA, 1]), "");
}
