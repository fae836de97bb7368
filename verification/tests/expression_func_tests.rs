use parse_pdms_db::parse_explict_tools::{
    count_placeholders, expression_tokens, parse_other_expression, render_expression, ExprToken,
    OtherExpression,
};
use parse_pdms_db::parser::combinator::ParseFailure;

fn number_block(v: u8) -> Vec<u8> {
    let mut b = vec![0, 0, 0, 0x65, 0, 0, 0, 0];
    b.extend_from_slice(&[0, 0, 0, v, 0, 0, 0, 0, 0, 0, 0, 0]);
    b.extend_from_slice(&[0, 0, 0, 0, 0, 0, 0, 6]);
    b
}

fn strs(v: &[&str]) -> Vec<String> {
    v.iter().map(|s| s.to_string()).collect()
}

const HEIG: u32 = 675926;

#[test]
fn tokens_of_a_single_number() {
    let input = number_block(7);
    let toks = expression_tokens(&input).unwrap();
    assert_eq!(toks.len(), 2);
    assert_eq!(toks[0], ExprToken::Number(0, input[8..20].to_vec()));
    assert_eq!(toks[1], ExprToken::End(false));
    assert_eq!(render_expression(&toks, &strs(&["12.5"]), &vec![]), Ok("12.5".to_string()));
}

#[test]
fn tokens_of_a_sum() {
    let mut input = number_block(1);
    input.extend(number_block(2));
    input.extend_from_slice(&[0, 0, 3, 0x22, 0, 0, 0, 0]);
    let toks = expression_tokens(&input).unwrap();
    assert_eq!(toks.len(), 4);
    assert!(matches!(toks[0], ExprToken::Number(0, _)));
    assert!(matches!(toks[1], ExprToken::Number(0, _)));
    assert_eq!(toks[2], ExprToken::Operator(0x322));
    assert_eq!(toks[3], ExprToken::End(false));
    assert_eq!(render_expression(&toks, &strs(&["1", "2"]), &vec![]), Ok("( 1 + 2 )".to_string()));
    // the first value pushed is the left operand
    assert_eq!(render_expression(&toks, &strs(&["5", "3"]), &vec![]), Ok("( 5 + 3 )".to_string()));
}

#[test]
fn tokens_of_an_attribute() {
    let mut input = vec![0, 0, 0, 0x6A, 0, 0, 0, 0];
    input.extend_from_slice(&HEIG.to_be_bytes());
    input.extend_from_slice(&0i32.to_be_bytes());
    input.extend_from_slice(&1i32.to_be_bytes());
    input.extend_from_slice(&0u32.to_be_bytes());
    input.extend_from_slice(&[0, 0, 0, 0, 0, 0, 0, 0]);
    let toks = expression_tokens(&input).unwrap();
    assert_eq!(toks, vec![ExprToken::Attr(HEIG, 0, 1, 0), ExprToken::End(false)]);
    assert_eq!(render_expression(&toks, &vec![], &vec![]), Ok("ATTRIB HEIG".to_string()));
    let indexed = vec![ExprToken::Attr(HEIG, 0, 3, 0), ExprToken::End(true)];
    assert_eq!(render_expression(&indexed, &vec![], &vec![]), Ok("ATTRIB HEIG[3 ]".to_string()));
    let named = vec![ExprToken::Attr(0x1720_0000, 0, 1, 0), ExprToken::End(true)];
    assert_eq!(
        render_expression(&named, &vec![], &vec![(0x1720_0000, "WIDTH".to_string())]),
        Ok("ATTRIB :WIDTH".to_string())
    );
}

#[test]
fn tokens_of_a_string() {
    let input = vec![0, 0, 0, 0x76, 0, 0, 0, 2, 0, 0, 0, 0x41, 0, 0, 0, 0x42, 0, 0, 0, 0];
    let toks = expression_tokens(&input).unwrap();
    assert_eq!(toks, vec![ExprToken::Str(vec![0x41, 0x42]), ExprToken::End(false)]);
    assert_eq!(render_expression(&toks, &vec![], &vec![]), Ok("AB".to_string()));
}

#[test]
fn short_number_is_the_empty_expression() {
    let input = vec![0, 0, 0, 0x65, 0, 0, 0, 0, 0, 0, 0, 1, 0, 0, 0, 0];
    let toks = expression_tokens(&input).unwrap();
    assert_eq!(toks, vec![ExprToken::Empty]);
    assert_eq!(render_expression(&toks, &vec![], &vec![]), Ok(String::new()));
    assert_eq!(expression_tokens(&[0, 0, 0, 1]).unwrap(), vec![ExprToken::End(true)]);
}

#[test]
fn malformed_expressions_fail() {
    assert_eq!(expression_tokens(&[0, 1, 0, 0, 0, 0, 0, 3]), Err(ParseFailure::NoProgress));
    let cut = [0, 0, 0, 0x6A, 0, 0, 0, 0, 0, 0, 0, 0];
    assert_eq!(expression_tokens(&cut), Err(ParseFailure::OutOfRange));
    let no_number = vec![ExprToken::Number(0, vec![0; 12]), ExprToken::End(true)];
    assert_eq!(render_expression(&no_number, &vec![], &vec![]), Err(ParseFailure::Incomplete));
    let bad_name = vec![ExprToken::Attr(5, 0, 1, 0), ExprToken::End(true)];
    assert_eq!(render_expression(&bad_name, &vec![], &vec![]), Err(ParseFailure::OutOfRange));
}

#[test]
fn stack_machine_forms() {
    let t = |s: &str| ExprToken::Text(s.to_string());
    let of_ref = vec![t("A"), ExprToken::OfRef(12, 1701)];
    assert_eq!(render_expression(&of_ref, &vec![], &vec![]), Ok(" ( A OF =  12 / 1701  ) ".to_string()));
    let of_func = vec![t("A"), ExprToken::OfFunc("PREV".to_string()), ExprToken::End(true)];
    assert_eq!(render_expression(&of_func, &vec![], &vec![]), Ok("( A OF PREV )".to_string()));
    let of_eq = vec![t("A"), t("B"), ExprToken::OfEq, ExprToken::End(false)];
    assert_eq!(render_expression(&of_eq, &vec![], &vec![]), Ok(" ( A OF = B ) ".to_string()));
    let max = vec![t("1"), t("2"), ExprToken::MaxMin(true, vec![0; 16]), ExprToken::End(false)];
    assert_eq!(render_expression(&max, &strs(&["3", "4"]), &vec![]), Ok(" ( MAX (1,2,3,4) ) ".to_string()));
    let min = vec![t("1"), t("2"), ExprToken::MaxMin(false, vec![]), ExprToken::End(false)];
    assert_eq!(render_expression(&min, &vec![], &vec![]), Ok(" ( MIN ( 1,2 ) ) ".to_string()));
    let iftrue = vec![t("C"), t("X"), t("Y"), ExprToken::IfTrue, ExprToken::End(false)];
    assert_eq!(render_expression(&iftrue, &vec![], &vec![]), Ok(" ( IFTRUE ( C , X , Y ) ) ".to_string()));
    let trimmed = vec![t("  PI "), ExprToken::End(true)];
    assert_eq!(render_expression(&trimmed, &vec![], &vec![]), Ok("PI".to_string()));
    let neg = vec![t("2"), ExprToken::Operator(0x321), ExprToken::End(false)];
    assert_eq!(render_expression(&neg, &vec![], &vec![]), Ok("( -2 )".to_string()));
    let short = vec![t("2"), ExprToken::Operator(0x322), ExprToken::End(false)];
    assert_eq!(render_expression(&short, &vec![], &vec![]), Ok("2".to_string()));
}

#[test]
fn operator_pattern_places() {
    assert_eq!(count_placeholders("( {} + {} )"), 2);
    assert_eq!(count_placeholders("SQRT( {} )"), 1);
    assert_eq!(count_placeholders("PI"), 0);
}

fn word(v: i32) -> [u8; 4] {
    v.to_be_bytes()
}

#[test]
fn other_expression_string() {
    let mut input = vec![0u8; 16];
    input.extend_from_slice(&word(0x66));
    input.extend_from_slice(&word(2));
    input.extend_from_slice(&word(0x41));
    input.extend_from_slice(&word(0x42));
    let (rest, (t, v)) = other_expression(&input, "DESC").unwrap();
    assert!(rest.is_empty());
    assert_eq!(t, "DESC");
    assert_eq!(v, OtherExpression::Text("'AB'".to_string()));
}

#[test]
fn other_expression_axis_letter_and_tenth() {
    let mut input = vec![0, 0, 0, 4];
    input.extend_from_slice(&word(2));
    input.extend_from_slice(&word(1));
    input.extend_from_slice(&word(2));
    input.extend_from_slice(&word(9));
    input.extend_from_slice(&word(7));
    let (rest, (_, v)) = other_expression(&input, "PAXI").unwrap();
    assert_eq!(rest, &word(7)[..]);
    assert_eq!(v, OtherExpression::Text("Y".to_string()));

    let mut input = vec![0, 0, 0, 5];
    input.extend_from_slice(&word(0));
    input.extend_from_slice(&word(0x28));
    input.extend_from_slice(&word(0));
    input.extend_from_slice(&word(-123));
    input.extend_from_slice(&word(0));
    input.extend_from_slice(&word(5));
    let (rest, (_, v)) = other_expression(&input, "HEIG").unwrap();
    assert_eq!(rest, &word(5)[..]);
    assert_eq!(v, OtherExpression::Text("12".to_string()));
}

#[test]
fn other_expression_byte_code() {
    let mut input = vec![0, 0, 0, 10];
    input.extend_from_slice(&[0u8; 12]);
    input.extend(number_block(3));
    let (rest, (_, v)) = other_expression(&input, "HEIG").unwrap();
    assert!(rest.is_empty());
    match v {
        OtherExpression::Tokens(toks) => {
            assert_eq!(toks.len(), 2);
            assert_eq!(render_expression(&toks, &strs(&["3"]), &vec![]), Ok("3".to_string()));
        }
        other => panic!("unexpected {:?}", other),
    }
    let mut ptcd = vec![0, 0, 0, 4];
    ptcd.extend_from_slice(&[1u8; 20]);
    let (rest, (_, v)) = other_expression(&ptcd, "PTCD").unwrap();
    assert_eq!(rest.len(), 4);
    assert_eq!(v, OtherExpression::Axis(vec![1u8; 16]));
    assert_eq!(other_expression(&[0u8; 20], "HEIG"), Err(ParseFailure::Incomplete));
}

fn other_expression<'a>(input: &'a [u8], ty: &str) -> Result<(&'a [u8], (String, OtherExpression)), ParseFailure> {
    parse_other_expression(input, ty.to_string(), 0)
}
