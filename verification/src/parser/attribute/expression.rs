//! Expression attributes: the operator table, the constant `PI`, the special
//! function words, and the reading of string, `PTCD` and general expressions.
//! Numbers and axis components are floating-point; they are handed out as their
//! encoded bytes.
use vstd::prelude::*;
use vstd::slice::slice_subrange;
use std::collections::HashMap;
use crate::helper::{be_i32_at, be_u16_at, read_be_i32, read_be_u16};
use crate::parser::attribute::implicit::word_chars;
use crate::parser::combinator::ParseFailure;
use crate::text::push_char;

verus! {

broadcast use vstd::std_specs::hash::group_hash_axioms;

/// The operator table: an internal operation code to the pattern it is printed with.
pub open spec fn math_operators_spec() -> Map<i32, &'static str> {
    map![
        0x191i32 => "{} EQ {}",
        0x1F5i32 => "{} NEQ {}",
        0x259i32 => "{} GT {}",
        0x25Bi32 => "{} LT {}",
        0x25Di32 => "{} GE {}",
        0x25Fi32 => "{} LE {}",
        0x321i32 => "( -{} )",
        0x322i32 => "( {} + {} )",
        0x323i32 => "( {} - {} )",
        0x324i32 => "( {} * {} )",
        0x325i32 => "( {} / {} )",
        0x3E9i32 => "SQRT( {} )",
        0x385i32 => "SIN( {} )",
        0x386i32 => "COS( {} )",
        0x387i32 => "TAN( {} )",
        0x388i32 => "ASIN( {} )",
        0x389i32 => "ACOS( {} )",
        0x38Ai32 => "ATAN( {} )",
        0x38Bi32 => "ATANT( {}, {} )",
        0x3EAi32 => "POW( {}, {} )",
        0x3EBi32 => "LOG( {} )",
        0x3ECi32 => "ALOG( {} )",
        0x3EDi32 => "INT( {} )",
        0x3EEi32 => "NINT( {} )",
        0x3EFi32 => "ABS( {} )",
        0x515i32 => "LEN( '{}' )",
        0x51Ci32 => "MAT( {}, '{}' )",
        0x522i32 => "TRIM( {} )",
        0x529i32 => "OCCUR( '{}', '{}' )",
        0x579i32 => "REAL( '{}' )",
        0x582i32 => "STR( {} )"
    ]
}

/// The operator table: comparison, arithmetic, mathematical and string functions.
pub fn get_math_operators() -> (map: HashMap<i32, &'static str>)
    ensures
        map@ == math_operators_spec(),
{
    let mut map: HashMap<i32, &'static str> = HashMap::new();
    map.insert(0x191, "{} EQ {}");
    map.insert(0x1F5, "{} NEQ {}");
    map.insert(0x259, "{} GT {}");
    map.insert(0x25B, "{} LT {}");
    map.insert(0x25D, "{} GE {}");
    map.insert(0x25F, "{} LE {}");
    map.insert(0x321, "( -{} )");
    map.insert(0x322, "( {} + {} )");
    map.insert(0x323, "( {} - {} )");
    map.insert(0x324, "( {} * {} )");
    map.insert(0x325, "( {} / {} )");
    map.insert(0x3E9, "SQRT( {} )");
    map.insert(0x385, "SIN( {} )");
    map.insert(0x386, "COS( {} )");
    map.insert(0x387, "TAN( {} )");
    map.insert(0x388, "ASIN( {} )");
    map.insert(0x389, "ACOS( {} )");
    map.insert(0x38A, "ATAN( {} )");
    map.insert(0x38B, "ATANT( {}, {} )");
    map.insert(0x3EA, "POW( {}, {} )");
    map.insert(0x3EB, "LOG( {} )");
    map.insert(0x3EC, "ALOG( {} )");
    map.insert(0x3ED, "INT( {} )");
    map.insert(0x3EE, "NINT( {} )");
    map.insert(0x3EF, "ABS( {} )");
    map.insert(0x515, "LEN( '{}' )");
    map.insert(0x51C, "MAT( {}, '{}' )");
    map.insert(0x522, "TRIM( {} )");
    map.insert(0x529, "OCCUR( '{}', '{}' )");
    map.insert(0x579, "REAL( '{}' )");
    map.insert(0x582, "STR( {} )");
    map
}

/// Whether `s` starts with the four bytes `a b c d`.
pub open spec fn starts4(s: Seq<u8>, a: u8, b: u8, c: u8, d: u8) -> bool {
    s.len() >= 4 && s[0] == a && s[1] == b && s[2] == c && s[3] == d
}

/// The constant that the first word of `input` names: `00 00 00 6F` is `PI`,
/// anything else (or a word cut short) is empty.
pub fn parse_expression_const(input: &[u8]) -> (r: &'static str)
    ensures
        r == (if starts4(input@, 0, 0, 0, 0x6F) { "PI" } else { "" }),
{
    if input.len() < 4 {
        return "";
    }
    if input[0] == 0 && input[1] == 0 && input[2] == 0 && input[3] == 0x6F {
        "PI"
    } else {
        ""
    }
}

/// The function word that the first word of `input` names, empty if none:
/// `00 00 00 0A` `PREV`, `00 00 00 0B` `NEXT`, `00 0A 1D CB` `BLRF NUM 1`,
/// `00 0D BC F9` `CATR`, `00 0D 24 5B` `BLTP 1`.
pub fn get_expression_of_func(input: &[u8]) -> (r: &'static str)
    ensures
        r == (if starts4(input@, 0, 0, 0, 0xA) {
            "PREV"
        } else if starts4(input@, 0, 0, 0, 0xB) {
            "NEXT"
        } else if starts4(input@, 0, 0xA, 0x1D, 0xCB) {
            "BLRF NUM 1"
        } else if starts4(input@, 0, 0xD, 0xBC, 0xF9) {
            "CATR"
        } else if starts4(input@, 0, 0xD, 0x24, 0x5B) {
            "BLTP 1"
        } else {
            ""
        }),
{
    if input.len() < 4 {
        return "";
    }
    let (a, b, c, d) = (input[0], input[1], input[2], input[3]);
    if a == 0 && b == 0 && c == 0 && d == 0xA {
        "PREV"
    } else if a == 0 && b == 0 && c == 0 && d == 0xB {
        "NEXT"
    } else if a == 0 && b == 0xA && c == 0x1D && d == 0xCB {
        "BLRF NUM 1"
    } else if a == 0 && b == 0xD && c == 0xBC && d == 0xF9 {
        "CATR"
    } else if a == 0 && b == 0xD && c == 0x24 && d == 0x5B {
        "BLTP 1"
    } else {
        ""
    }
}

/// The value of an expression that is not an axis expression, as far as it is read
/// without floating-point arithmetic.
#[derive(Debug, Clone)]
pub enum ExpressionValue {
    /// The finished text.
    Text(String),
    /// The axis data of a `PTCD`/`PTCDI` expression: bytes that hold single-precision
    /// X, Y and Z components.
    AxisData(Vec<u8>),
    /// A number of a general expression: its flag (`0`, `0x4000` or `-1`) and its 12
    /// encoded bytes.
    Number(i16, Vec<u8>),
}

/// The mathematical form of an `ExpressionValue`.
pub enum ExpressionValueModel {
    Text(Seq<char>),
    AxisData(Seq<u8>),
    Number(i16, Seq<u8>),
}

impl View for ExpressionValue {
    type V = ExpressionValueModel;

    open spec fn view(&self) -> ExpressionValueModel {
        match self {
            ExpressionValue::Text(t) => ExpressionValueModel::Text(t@),
            ExpressionValue::AxisData(b) => ExpressionValueModel::AxisData(b@),
            ExpressionValue::Number(f, b) => ExpressionValueModel::Number(*f, b@),
        }
    }
}

/// The empty text.
pub open spec fn no_text() -> ExpressionValueModel {
    ExpressionValueModel::Text(Seq::empty())
}

/// Whether the string length word of a string expression gives a byte count that
/// can be computed in `usize` (a negative length cannot).
pub open spec fn string_expression_fits(s: Seq<u8>) -> bool {
    s.len() >= 24 ==> (be_i32_at(s, 20) >= 0 && 24 + 4 * be_i32_at(s, 20) <= usize::MAX)
}

/// A string expression: from byte 20 a length word, then one character per word,
/// shown in single quotes; the rest starts after the characters. Too short an input
/// gives the empty text and is not consumed.
pub open spec fn string_expression_spec(s: Seq<u8>) -> (int, ExpressionValueModel) {
    if s.len() < 24 || s.len() < 24 + 4 * be_i32_at(s, 20) {
        (0, no_text())
    } else {
        let n = be_i32_at(s, 20);
        (
            24 + 4 * n,
            ExpressionValueModel::Text(seq!['\''] + word_chars(s, 24, n as nat) + seq!['\'']),
        )
    }
}

/// A `PTCD` expression: a length in words at byte 2, then after 8 bytes the axis
/// data of that length; the rest starts after it.
pub open spec fn ptcd_expression_spec(s: Seq<u8>) -> (int, ExpressionValueModel) {
    let n = be_u16_at(s, 2) as int * 4;
    if s.len() < 8 || s.len() < 8 + n {
        (0, no_text())
    } else {
        (8 + n, ExpressionValueModel::AxisData(s.subrange(8, 8 + n)))
    }
}

/// The axis letter of the short axis form: 1 X, 2 Y, 3 Z, else empty.
pub open spec fn short_axis(index: i32) -> Seq<char> {
    if index == 1 {
        "X"@
    } else if index == 2 {
        "Y"@
    } else if index == 3 {
        "Z"@
    } else {
        Seq::empty()
    }
}

/// The big-endian `i16` at `off`.
pub open spec fn be_i16_at(s: Seq<u8>, off: int) -> i16 {
    #[verifier::truncate] (be_u16_at(s, off) as i16)
}

/// A general expression (the input is not consumed): with control words 2 and 1 the
/// short axis form from word 3; with control word `0x28` and 24 bytes a number of
/// bytes 12..24, whose flag at byte 20 is `0`, `0x4000` or `-1` (any other flag reads
/// as `0`); otherwise the empty text.
pub open spec fn general_expression_spec(s: Seq<u8>) -> ExpressionValueModel {
    if s.len() < 16 {
        no_text()
    } else if be_i32_at(s, 4) == 2 && be_i32_at(s, 8) == 1 {
        ExpressionValueModel::Text(short_axis(be_i32_at(s, 12)))
    } else if be_i32_at(s, 8) == 0x28 && s.len() >= 24 {
        let f = be_i16_at(s, 20);
        if f == 0 || f == 0x4000 || f == -1 {
            ExpressionValueModel::Number(f, s.subrange(12, 24))
        } else {
            ExpressionValueModel::Text(seq!['0'])
        }
    } else {
        no_text()
    }
}

/// An expression that is not an axis expression: a string expression when the word
/// at byte 16 is `0x66`, a `PTCD` expression for the types `PTCDI` and `PTCD`, and a
/// general expression otherwise; under 20 bytes, the empty text.
pub open spec fn other_expression_spec(s: Seq<u8>, expression_type: Seq<char>) -> (int, ExpressionValueModel) {
    if s.len() < 20 {
        (0, no_text())
    } else if be_i32_at(s, 16) == 0x66 {
        string_expression_spec(s)
    } else if expression_type == "PTCDI"@ || expression_type == "PTCD"@ {
        ptcd_expression_spec(s)
    } else {
        (0, general_expression_spec(s))
    }
}

/// A copy of the bytes `lo..hi` of the input.
fn copy_bytes(input: &[u8], lo: usize, hi: usize) -> (v: Vec<u8>)
    requires
        lo <= hi <= input@.len(),
    ensures
        v@ == input@.subrange(lo as int, hi as int),
{
    let mut v: Vec<u8> = Vec::new();
    let mut k = lo;
    while k < hi
        invariant
            lo <= k <= hi <= input@.len(),
            v@ == input@.subrange(lo as int, k as int),
        decreases hi - k,
    {
        v.push(input[k]);
        k = k + 1;
        assert(v@ =~= input@.subrange(lo as int, k as int));
    }
    v
}

/// Reads a string expression (see `string_expression_spec`).
pub fn parse_string_expression(input: &[u8], expression_type: String) -> (r: Result<(&[u8], (String, ExpressionValue)), ParseFailure>)
    requires
        string_expression_fits(input@),
    ensures
        match r {
            Ok((rest, (t, v))) => {
                let (at, m) = string_expression_spec(input@);
                &&& rest@ == input@.subrange(at, input@.len() as int)
                &&& t@ == expression_type@
                &&& v@ == m
            },
            Err(_) => false,
        },
{
    if input.len() < 24 {
        return Ok((input, (expression_type, ExpressionValue::Text(String::new()))));
    }
    let str_len = read_be_i32(input, 20) as usize;
    if input.len() < 24 + str_len * 4 {
        return Ok((input, (expression_type, ExpressionValue::Text(String::new()))));
    }
    let mut text = String::new();
    push_char(&mut text, '\'');
    let mut k: usize = 0;
    while k < str_len
        invariant
            str_len == be_i32_at(input@, 20),
            24 + 4 * str_len <= input@.len(),
            24 + 4 * str_len <= usize::MAX,
            k <= str_len,
            text@ == seq!['\''] + word_chars(input@, 24, k as nat),
        decreases str_len - k,
    {
        push_char(&mut text, input[24 + 4 * k + 3] as char);
        k = k + 1;
        assert(text@ =~= seq!['\''] + word_chars(input@, 24, k as nat));
    }
    push_char(&mut text, '\'');
    assert(text@ =~= seq!['\''] + word_chars(input@, 24, str_len as nat) + seq!['\'']);
    Ok((slice_subrange(input, 24 + str_len * 4, input.len()), (expression_type, ExpressionValue::Text(text))))
}

/// Reads a `PTCD` expression (see `ptcd_expression_spec`).
pub fn parse_ptcd_expression(input: &[u8], expression_type: String) -> (r: Result<(&[u8], (String, ExpressionValue)), ParseFailure>)
    ensures
        match r {
            Ok((rest, (t, v))) => {
                let (at, m) = ptcd_expression_spec(input@);
                &&& rest@ == input@.subrange(at, input@.len() as int)
                &&& t@ == expression_type@
                &&& v@ == m
            },
            Err(_) => false,
        },
{
    if input.len() < 8 {
        return Ok((input, (expression_type, ExpressionValue::Text(String::new()))));
    }
    let expression_length = read_be_u16(input, 2);
    let data_size = (expression_length as usize) * 4;
    if input.len() < 8 + data_size {
        return Ok((input, (expression_type, ExpressionValue::Text(String::new()))));
    }
    let data = copy_bytes(input, 8, 8 + data_size);
    Ok((slice_subrange(input, 8 + data_size, input.len()), (expression_type, ExpressionValue::AxisData(data))))
}

/// Reads a general expression (see `general_expression_spec`); the input is given
/// back whole.
pub fn parse_general_expression(input: &[u8], expression_type: String) -> (r: Result<(&[u8], (String, ExpressionValue)), ParseFailure>)
    ensures
        match r {
            Ok((rest, (t, v))) => rest@ == input@ && t@ == expression_type@ && v@ == general_expression_spec(input@),
            Err(_) => false,
        },
{
    if input.len() < 16 {
        return Ok((input, (expression_type, ExpressionValue::Text(String::new()))));
    }
    let flag1 = read_be_i32(input, 4);
    let flag2 = read_be_i32(input, 8);
    if flag1 == 2 && flag2 == 1 {
        let axis_index = read_be_i32(input, 12);
        let axis = if axis_index == 1 {
            String::from_str("X")
        } else if axis_index == 2 {
            String::from_str("Y")
        } else if axis_index == 3 {
            String::from_str("Z")
        } else {
            String::new()
        };
        return Ok((input, (expression_type, ExpressionValue::Text(axis))));
    }
    if flag2 == 0x28 && input.len() >= 24 {
        let num_flag = #[verifier::truncate] (read_be_u16(input, 20) as i16);
        if num_flag == 0 || num_flag == 0x4000 || num_flag == -1 {
            let bytes = copy_bytes(input, 12, 24);
            return Ok((input, (expression_type, ExpressionValue::Number(num_flag, bytes))));
        }
        let mut zero = String::new();
        push_char(&mut zero, '0');
        assert(zero@ =~= seq!['0']);
        return Ok((input, (expression_type, ExpressionValue::Text(zero))));
    }
    Ok((input, (expression_type, ExpressionValue::Text(String::new()))))
}

/// Reads an expression that is not an axis expression (see `other_expression_spec`).
pub fn parse_other_expression(input: &[u8], expression_type: String, _refno: u64) -> (r: Result<(&[u8], (String, ExpressionValue)), ParseFailure>)
    requires
        input@.len() >= 20 && be_i32_at(input@, 16) == 0x66 ==> string_expression_fits(input@),
    ensures
        match r {
            Ok((rest, (t, v))) => {
                let (at, m) = other_expression_spec(input@, expression_type@);
                &&& rest@ == input@.subrange(at, input@.len() as int)
                &&& t@ == expression_type@
                &&& v@ == m
            },
            Err(_) => false,
        },
{
    if input.len() < 20 {
        return Ok((input, (expression_type, ExpressionValue::Text(String::new()))));
    }
    let flag = read_be_i32(input, 16);
    if flag == 0x66 {
        return parse_string_expression(input, expression_type);
    }
    if crate::helper::str_is(expression_type.as_str(), "PTCDI") || crate::helper::str_is(
        expression_type.as_str(),
        "PTCD",
    ) {
        return parse_ptcd_expression(input, expression_type);
    }
    let r = parse_general_expression(input, expression_type);
    proof {
        assert(input@.subrange(0, input@.len() as int) =~= input@);
    }
    r
}

} // verus!
