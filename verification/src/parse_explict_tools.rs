//! Explicit attributes written as expressions: the axis form `±X`/`±Y`/`±Z` and
//! the names of parameter functions.
use vstd::prelude::*;
use vstd::slice::slice_subrange;
use crate::helper::{be_i32_at, be_u32_at, read_be_i32, read_be_u32};
use crate::db_tool::{db1_dehash, dehash_spec, NAME_HASH_BASE};
use crate::parser::combinator::ParseFailure;
use crate::parser::attribute::expression::math_operators_spec;

verus! {

/// The word that marks an axis expression.
pub const AXIS_EXPRESSION_TAG: i32 = 0x1C000003;

/// The axis letter of an axis index: 1 X, 2 Y, 3 Z.
pub open spec fn axis_letter(index: i32) -> Seq<char> {
    if index == 1 {
        "X"@
    } else if index == 2 {
        "Y"@
    } else if index == 3 {
        "Z"@
    } else {
        "UNKNOWN"@
    }
}

/// The text of an axis expression: the axis letter, with `-` when the sign word is 2.
pub open spec fn axis_text(sign: i32, index: i32) -> Seq<char> {
    if sign == 2 {
        seq!['-'] + axis_letter(index)
    } else {
        axis_letter(index)
    }
}

/// Whether the input is an axis expression: at least 16 bytes, the tag word, and an
/// axis index (word 3) from 1 to 3.
pub open spec fn is_axis_expression_spec(s: Seq<u8>) -> bool {
    s.len() >= 16 && be_i32_at(s, 0) == AXIS_EXPRESSION_TAG && 1 <= be_i32_at(s, 12) <= 3
}

/// Reads an axis expression of 16 bytes: tag, expression type, sign (1 positive,
/// 2 negative) and axis index (1 X, 2 Y, 3 Z). Gives the rest after the 16 bytes and
/// the pair (expression type, axis text).
pub fn parse_axis_expression(input: &[u8], expression_type: String) -> (r: Result<(&[u8], (String, String)), ParseFailure>)
    ensures
        match r {
            Ok((rest, (t, a))) => {
                &&& input@.len() >= 16
                &&& rest@ == input@.subrange(16, input@.len() as int)
                &&& t@ == expression_type@
                &&& a@ == axis_text(be_i32_at(input@, 8), be_i32_at(input@, 12))
            },
            Err(e) => input@.len() < 16 && e == ParseFailure::Incomplete,
        },
{
    if input.len() < 16 {
        return Err(ParseFailure::Incomplete);
    }
    let positive_flag = read_be_i32(input, 8);
    let axis_index = read_be_i32(input, 12);
    let axis = if axis_index == 1 {
        "X"
    } else if axis_index == 2 {
        "Y"
    } else if axis_index == 3 {
        "Z"
    } else {
        "UNKNOWN"
    };
    let mut axis_result = String::new();
    if positive_flag == 2 {
        crate::text::push_char(&mut axis_result, '-');
    }
    axis_result.append(axis);
    proof {
        if positive_flag == 2 {
            assert(axis_result@ =~= seq!['-'] + axis@);
        } else {
            assert(axis_result@ =~= axis@);
        }
    }
    Ok((slice_subrange(input, 16, input.len()), (expression_type, axis_result)))
}

/// Whether the input is an axis expression (see `is_axis_expression_spec`).
pub fn is_axis_expression(input: &[u8]) -> (b: bool)
    ensures
        b == is_axis_expression_spec(input@),
{
    if input.len() < 16 {
        return false;
    }
    let identifier = read_be_i32(input, 0);
    if identifier != AXIS_EXPRESSION_TAG {
        return false;
    }
    let axis_index = read_be_i32(input, 12);
    axis_index >= 1 && axis_index <= 3
}

/// The name of a parameter function: the name of the hash in the second word when it
/// is above the hash of the empty name, otherwise empty. The input is given back whole.
pub fn get_expression_func_name(input: &[u8]) -> (r: Result<(&[u8], String), ParseFailure>)
    requires
        input@.len() >= 8,
    ensures
        match r {
            Ok((rest, name)) => rest@ == input@ && name@ == (if be_u32_at(input@, 4) > NAME_HASH_BASE {
                dehash_spec(be_u32_at(input@, 4))
            } else {
                Seq::<char>::empty()
            }),
            Err(_) => false,
        },
{
    let v = read_be_u32(input, 4);
    let result = if v > NAME_HASH_BASE {
        db1_dehash(v)
    } else {
        String::new()
    };
    Ok((input, result))
}

/// Whether `s` is exactly the four bytes `a b c d`.
pub open spec fn is4(s: Seq<u8>, a: u8, b: u8, c: u8, d: u8) -> bool {
    s.len() == 4 && s[0] == a && s[1] == b && s[2] == c && s[3] == d
}

/// The constant that a word names: exactly `00 00 00 6F` is `PI`; anything else,
/// longer input included, is empty.
pub fn parse_expression_const(input: &[u8]) -> (r: String)
    ensures
        r@ == (if is4(input@, 0, 0, 0, 0x6F) { "PI"@ } else { Seq::<char>::empty() }),
{
    if input.len() == 4 && input[0] == 0 && input[1] == 0 && input[2] == 0 && input[3] == 0x6F {
        String::from_str("PI")
    } else {
        String::new()
    }
}

/// The function word that `get_expression_of_func` names.
pub open spec fn of_func_spec(w: Seq<u8>) -> Seq<char> {
    if is4(w, 0, 0, 0, 0xA) {
        "PREV"@
    } else if is4(w, 0, 0, 0, 0xB) {
        "NEXT"@
    } else if is4(w, 0, 0xA, 0x1D, 0xCB) {
        "BLRF NUM 1"@
    } else if is4(w, 0, 0xD, 0xBC, 0xF9) {
        "CATR"@
    } else if is4(w, 0, 0xD, 0x24, 0x5B) {
        "BLTP 1"@
    } else {
        Seq::<char>::empty()
    }
}

/// The function word that a word names, empty if none; the input must be exactly
/// that word: `00 00 00 0A` `PREV`, `00 00 00 0B` `NEXT`, `00 0A 1D CB` `BLRF NUM 1`,
/// `00 0D BC F9` `CATR`, `00 0D 24 5B` `BLTP 1`.
pub fn get_expression_of_func(input: &[u8]) -> (r: String)
    ensures
        r@ == of_func_spec(input@),
{
    if input.len() != 4 {
        return String::new();
    }
    let (a, b, c, d) = (input[0], input[1], input[2], input[3]);
    if a == 0 && b == 0 && c == 0 && d == 0xA {
        String::from_str("PREV")
    } else if a == 0 && b == 0 && c == 0 && d == 0xB {
        String::from_str("NEXT")
    } else if a == 0 && b == 0xA && c == 0x1D && d == 0xCB {
        String::from_str("BLRF NUM 1")
    } else if a == 0 && b == 0xD && c == 0xBC && d == 0xF9 {
        String::from_str("CATR")
    } else if a == 0 && b == 0xD && c == 0x24 && d == 0x5B {
        String::from_str("BLTP 1")
    } else {
        String::new()
    }
}


// ---------------------------------------------------------------------------
// The expression byte code.
//
// An expression is a sequence of words read by a stack machine: numbers, the
// constant `PI`, attribute references (with `OF` function chains), operators of
// the table in `math_operators_spec`, strings, `MAX`/`MIN`, `IFTRUE` and `OF =`.
// Reading happens in two stages: `expression_tokens` scans the bytes into
// tokens, `render_expression` runs the stack machine over them. Numbers are
// floating-point and arrive in the second stage as their text.
// ---------------------------------------------------------------------------

/// One step of an expression.
#[derive(Debug, Clone, PartialEq)]
pub enum ExprToken {
    /// A number: the half-word that says how it is encoded (bytes 8 and 9) and its
    /// twelve encoded bytes.
    Number(i16, Vec<u8>),
    /// A name pushed as it is (`PI`).
    Text(String),
    /// An attribute reference: name hash, the two flag words, the extra name hash.
    Attr(u32, i32, i32, u32),
    /// ` ( x OF f ) ` over the last value, with the name of the function word.
    OfFunc(String),
    /// ` ( x OF =  a / b  ) ` over the last value; ends the expression.
    OfRef(i32, i32),
    /// An operator of the table over its operands.
    Operator(i32),
    /// ` ( b OF = a ) ` of the two last values.
    OfEq,
    /// A string: the low byte of each of its character words.
    Str(Vec<u8>),
    /// `MAX` (true) or `MIN` of the two last values and of the doubles that follow,
    /// eight bytes each.
    MaxMin(bool, Vec<u8>),
    /// `IFTRUE` of the three last values.
    IfTrue,
    /// The end: the last value, trimmed (true) or as it is.
    End(bool),
    /// An expression cut short: the empty text.
    Empty,
}

/// `ExprToken` as mathematical values.
pub enum TokenView {
    Number(i16, Seq<u8>),
    Text(Seq<char>),
    Attr(u32, i32, i32, u32),
    OfFunc(Seq<char>),
    OfRef(i32, i32),
    Operator(i32),
    OfEq,
    Str(Seq<u8>),
    MaxMin(bool, Seq<u8>),
    IfTrue,
    End(bool),
    Empty,
}

impl View for ExprToken {
    type V = TokenView;

    open spec fn view(&self) -> TokenView {
        match self {
            ExprToken::Number(f, b) => TokenView::Number(*f, b@),
            ExprToken::Text(t) => TokenView::Text(t@),
            ExprToken::Attr(h, f0, f1, sv) => TokenView::Attr(*h, *f0, *f1, *sv),
            ExprToken::OfFunc(e) => TokenView::OfFunc(e@),
            ExprToken::OfRef(a, b) => TokenView::OfRef(*a, *b),
            ExprToken::Operator(w) => TokenView::Operator(*w),
            ExprToken::OfEq => TokenView::OfEq,
            ExprToken::Str(b) => TokenView::Str(b@),
            ExprToken::MaxMin(m, b) => TokenView::MaxMin(*m, b@),
            ExprToken::IfTrue => TokenView::IfTrue,
            ExprToken::End(t) => TokenView::End(*t),
            ExprToken::Empty => TokenView::Empty,
        }
    }
}

/// A list of tokens as mathematical values.
pub open spec fn tokens_view(v: Seq<ExprToken>) -> Seq<TokenView> {
    v.map_values(|t: ExprToken| t@)
}

/// Whether the four bytes at `off` are `a b c d`.
pub open spec fn at_word(s: Seq<u8>, off: int, a: u8, b: u8, c: u8, d: u8) -> bool {
    0 <= off && off + 4 <= s.len() && s[off] == a && s[off + 1] == b && s[off + 2] == c && s[off
        + 3] == d
}

/// The big-endian `i16` at `off`.
pub open spec fn be_i16_at(s: Seq<u8>, off: int) -> i16 {
    crate::helper::be_u16_at(s, off) as i16
}

/// The depth of the value stack after one value is taken (the empty text when there
/// is none) and one is put back.
pub open spec fn replace_depth(d: int) -> int {
    if d > 0 { d } else { 1 }
}

/// The number of `{}` places in an operator pattern.
pub open spec fn placeholder_count(t: Seq<char>) -> int
    decreases t.len(),
{
    if t.len() < 2 {
        0
    } else if t[0] == '{' && t[1] == '}' {
        1 + placeholder_count(t.subrange(2, t.len() as int))
    } else {
        placeholder_count(t.drop_first())
    }
}

/// Where a scanning stage stands: going on at a position with a stack depth and the
/// tokens so far, or stopped with the outcome of the whole scan.
pub enum ScanStep {
    Next(int, int, Seq<TokenView>),
    Stop(Result<Seq<TokenView>, ParseFailure>),
}

/// The number at the head of an iteration: `PI` first if the word says so, then,
/// when a number follows (the head word `00 00 00 65`, or after `PI`), eight bytes
/// of prefix, the twelve bytes of the number and, if more than eight bytes follow,
/// eight bytes of end marker. An input cut short within the number is the empty
/// expression.
pub open spec fn scan_number_spec(s: Seq<u8>, pos: int, depth: int, acc: Seq<TokenView>) -> ScanStep {
    let pi = at_word(s, pos, 0, 0, 0, 0x6F);
    let p0 = if pi { pos + 4 } else { pos };
    let d0 = if pi { depth + 1 } else { depth };
    let a0 = if pi { acc.push(TokenView::Text("PI"@)) } else { acc };
    if !(pi || be_i32_at(s, pos) == 0x65) {
        ScanStep::Next(p0, d0, a0)
    } else if s.len() - p0 < 8 {
        ScanStep::Stop(Err(ParseFailure::OutOfRange))
    } else if s.len() - (p0 + 8) < 12 {
        ScanStep::Stop(Ok(a0.push(TokenView::Empty)))
    } else {
        let q = p0 + 8;
        let a1 = a0.push(TokenView::Number(be_i16_at(s, q + 8), s.subrange(q, q + 12)));
        let q1 = q + 12;
        ScanStep::Next(if s.len() - q1 > 8 { q1 + 8 } else { q1 }, d0 + 1, a1)
    }
}

/// The `OF` chain of an attribute reference, over the bytes `ei .. end`: function
/// words, each followed by two reference words and, for a named function or a
/// reference `0` or `.. / 1701`, a second function word and three unused words; any
/// other reference pair ends the whole expression.
pub open spec fn scan_of_spec(s: Seq<u8>, ei: int, end: int, d: int, a: Seq<TokenView>) -> ScanStep
    decreases end - ei,
{
    if 0 <= ei && end <= s.len() && end - ei > 4 {
        let e = of_func_spec(s.subrange(ei, ei + 4));
        let named = e.len() > 0;
        if named && end - ei < 20 {
            ScanStep::Next(ei, replace_depth(d), a.push(TokenView::OfFunc(e)))
        } else {
            let d1 = if named { replace_depth(d) } else { d };
            let a1 = if named { a.push(TokenView::OfFunc(e)) } else { a };
            let e2 = if named { ei + 20 } else { ei };
            if end - e2 < 8 {
                ScanStep::Stop(Err(ParseFailure::Eof))
            } else {
                let r0 = be_i32_at(s, e2);
                let r1 = be_i32_at(s, e2 + 4);
                let e3 = e2 + 8;
                if named || r0 == 0 || r1 == 1701 {
                    if end - e3 < 16 {
                        ScanStep::Stop(Err(ParseFailure::OutOfRange))
                    } else {
                        scan_of_spec(
                            s,
                            e3 + 16,
                            end,
                            replace_depth(d1),
                            a1.push(TokenView::OfFunc(of_func_spec(s.subrange(e3, e3 + 4)))),
                        )
                    }
                } else {
                    ScanStep::Stop(Ok(a1.push(TokenView::OfRef(r0, r1))))
                }
            }
        }
    } else {
        ScanStep::Next(ei, d, a)
    }
}

/// The attribute references that follow, each `00 00 00 6A` and twenty-four bytes:
/// name hash, two flag words, extra name hash and a marker; the marker `00 00 06 42`
/// brings a length word and an `OF` chain.
pub open spec fn scan_attrs_spec(s: Seq<u8>, pos: int, d: int, a: Seq<TokenView>) -> ScanStep
    decreases s.len() - pos,
{
    if 0 <= pos && s.len() - pos > 4 && at_word(s, pos, 0, 0, 0, 0x6A) {
        let p = pos + 4;
        if s.len() - p < 24 {
            ScanStep::Stop(Err(ParseFailure::OutOfRange))
        } else {
            let f0 = be_i32_at(s, p + 8);
            let f1 = be_i32_at(s, p + 12);
            let d1 = if f0 == -1 && f1 == -1 { replace_depth(d) } else { d + 1 };
            let a1 = a.push(TokenView::Attr(be_u32_at(s, p + 4), f0, f1, be_u32_at(s, p + 16)));
            if at_word(s, p + 20, 0, 0, 6, 0x42) {
                if s.len() - (p + 24) < 4 {
                    ScanStep::Stop(Err(ParseFailure::Eof))
                } else {
                    let n = be_i32_at(s, p + 24) as int;
                    if n < 1 || n * 4 > s.len() - (p + 28) {
                        ScanStep::Stop(Err(ParseFailure::OutOfRange))
                    } else {
                        let l = n * 4;
                        match scan_of_spec(s, p + 32, p + 28 + l, d1, a1) {
                            ScanStep::Stop(r) => ScanStep::Stop(r),
                            ScanStep::Next(_, d2, a2) => scan_attrs_spec(
                                s,
                                if s.len() - p > 28 + l { p + 28 + l } else { p + l },
                                d2,
                                a2,
                            ),
                        }
                    }
                }
            } else {
                scan_attrs_spec(s, p + 24, d1, a1)
            }
        }
    } else {
        ScanStep::Next(pos, d, a)
    }
}

/// The eight-byte double that a `MAX`/`MIN` entry at `q` carries, taken from its
/// bytes 12 .. 24 with the first two bytes rebuilt from nibbles.
pub open spec fn double_at(s: Seq<u8>, q: int) -> Seq<u8> {
    let v = s.subrange(q + 12, q + 24);
    seq![((v[10] % 16) * 16 + v[11] / 16) as u8, ((v[11] % 16) * 16 + v[1] % 16) as u8]
        + v.subrange(2, 8)
}

/// Whether another `MAX`/`MIN` entry (word `00 00 03 m`) follows 32 bytes after `q`.
pub open spec fn more_double(s: Seq<u8>, q: int, m: u8) -> bool {
    0 <= q && s.len() - q > 36 && at_word(s, q + 32, 0, 0, 3, m)
}

/// How many further `MAX`/`MIN` entries follow `q`.
pub open spec fn count_doubles(s: Seq<u8>, q: int, m: u8) -> nat
    decreases s.len() - q,
{
    if more_double(s, q, m) {
        1 + count_doubles(s, q + 32, m)
    } else {
        0
    }
}

/// The doubles of the further `MAX`/`MIN` entries after `q`, eight bytes each.
pub open spec fn doubles_from(s: Seq<u8>, q: int, m: u8) -> Seq<u8>
    decreases s.len() - q,
{
    if more_double(s, q, m) {
        double_at(s, q) + doubles_from(s, q + 32, m)
    } else {
        seq![]
    }
}

/// The low bytes of `n` character words from `start`.
pub open spec fn str_chars(s: Seq<u8>, start: int, n: int) -> Seq<u8> {
    Seq::new(n as nat, |i: int| s[start + 4 * i + 3])
}

/// What one operator-stage word does besides its table entry: the bytes it consumes
/// before the word step, the depth after it, the tokens and a failure.
pub struct OpEffect {
    pub adv: nat,
    pub depth: int,
    pub toks: Seq<TokenView>,
    pub fail: Option<ParseFailure>,
}

/// The word at `pos` in the operator stage: `00 00 00 03` `00 00 06 A5` is `OF =`,
/// `00 00 00 6F` is `PI`, `00 00 00 76` a string (length word, then one word per
/// character), `00 00 03 F0`/`F1` `MAX`/`MIN` and `00 00 07 1E` `IFTRUE`.
pub open spec fn op_word_effect(s: Seq<u8>, pos: int, d: int, a: Seq<TokenView>) -> OpEffect {
    let r = s.len() - pos;
    if at_word(s, pos, 0, 0, 0, 3) {
        if r >= 8 && at_word(s, pos + 4, 0, 0, 6, 0xA5) && d > 1 {
            OpEffect { adv: 0, depth: d - 1, toks: a.push(TokenView::OfEq), fail: None }
        } else {
            OpEffect { adv: 0, depth: d, toks: a, fail: None }
        }
    } else if at_word(s, pos, 0, 0, 0, 0x6F) {
        OpEffect { adv: 0, depth: d + 1, toks: a.push(TokenView::Text("PI"@)), fail: None }
    } else if at_word(s, pos, 0, 0, 0, 0x76) {
        if r <= 4 {
            OpEffect { adv: 0, depth: d, toks: a, fail: None }
        } else if r < 8 {
            OpEffect { adv: 0, depth: d, toks: a, fail: Some(ParseFailure::OutOfRange) }
        } else {
            let n = be_u32_at(s, pos + 4) as int;
            if n * 4 + 4 > u32::MAX || r < 4 + 4 * n || (n >= 1 && r < 8 + 4 * n) {
                OpEffect { adv: 0, depth: d, toks: a, fail: Some(ParseFailure::OutOfRange) }
            } else {
                OpEffect {
                    adv: (4 + 4 * n) as nat,
                    depth: if n > 0 { d + 1 } else { d },
                    toks: a.push(TokenView::Str(str_chars(s, pos + 8, n))),
                    fail: None,
                }
            }
        }
    } else if at_word(s, pos, 0, 0, 3, 0xF0) || at_word(s, pos, 0, 0, 3, 0xF1) {
        let m = s[pos + 3];
        if d > 1 {
            OpEffect {
                adv: 32 * count_doubles(s, pos, m),
                depth: d - 1,
                toks: a.push(TokenView::MaxMin(m == 0xF0, doubles_from(s, pos, m))),
                fail: None,
            }
        } else {
            OpEffect { adv: 0, depth: d, toks: a, fail: None }
        }
    } else if at_word(s, pos, 0, 0, 7, 0x1E) && d > 2 {
        OpEffect { adv: 0, depth: d - 2, toks: a.push(TokenView::IfTrue), fail: None }
    } else {
        OpEffect { adv: 0, depth: d, toks: a, fail: None }
    }
}

/// Whether the operator stage goes on at `pos`: a word that starts with two zero
/// bytes and is none of `65`, `6A`, `02`.
pub open spec fn op_word_here(s: Seq<u8>, pos: int) -> bool {
    0 <= pos && s.len() - pos >= 4 && s[pos] == 0 && s[pos + 1] == 0 && !at_word(s, pos, 0, 0, 0, 0x65)
        && !at_word(s, pos, 0, 0, 0, 0x6A) && !at_word(s, pos, 0, 0, 0, 2)
}

/// The operator stage: table operators take their operands off the stack when there
/// are enough; then the word's own effect; then one word is skipped, or, with four
/// bytes or fewer left, the expression ends with the last value as it is.
pub open spec fn scan_ops_spec(s: Seq<u8>, pos: int, d: int, a: Seq<TokenView>) -> ScanStep
    decreases s.len() - pos,
{
    if op_word_here(s, pos) {
        let w = be_i32_at(s, pos);
        let ops = crate::parser::attribute::expression::math_operators_spec();
        let cnt = if ops.contains_key(w) { placeholder_count(ops[w]@) } else { 0 };
        let d1 = if ops.contains_key(w) && d >= cnt { d - cnt + 1 } else { d };
        let a1 = if ops.contains_key(w) && d >= cnt { a.push(TokenView::Operator(w)) } else { a };
        let eff = op_word_effect(s, pos, d1, a1);
        if eff.fail is Some {
            ScanStep::Stop(Err(eff.fail->0))
        } else {
            let p2 = pos + eff.adv;
            if s.len() - p2 > 4 {
                scan_ops_spec(s, p2 + 4, eff.depth, eff.toks)
            } else {
                ScanStep::Stop(Ok(eff.toks.push(TokenView::End(false))))
            }
        }
    } else {
        ScanStep::Next(pos, d, a)
    }
}

/// Whether an iteration of the expression starts at `pos`: eight bytes or more, and
/// a number or attribute word, an `03` or `65` second word, `00 00 03` first bytes, or
/// a string word.
pub open spec fn head_ok(s: Seq<u8>, pos: int) -> bool {
    &&& 0 <= pos
    &&& s.len() - pos >= 8
    &&& (be_i32_at(s, pos) == 0x65 || be_i32_at(s, pos) == 0x6A || be_i32_at(s, pos + 4) == 3 || (
    s[pos] == 0 && s[pos + 1] == 0 && s[pos + 2] == 3) || be_i32_at(s, pos + 4) == 0x65
        || be_i32_at(s, pos) == 0x76)
}

/// The iterations from `head`: number, attribute references, operators; an
/// iteration that consumes nothing would repeat for ever.
pub open spec fn scan_outer_spec(s: Seq<u8>, head: int, d: int, a: Seq<TokenView>) -> Result<Seq<TokenView>, ParseFailure>
    decreases s.len() - head,
{
    if !head_ok(s, head) {
        Ok(a.push(TokenView::End(true)))
    } else {
        match scan_number_spec(s, head, d, a) {
            ScanStep::Stop(r) => r,
            ScanStep::Next(p1, d1, a1) => match scan_attrs_spec(s, p1, d1, a1) {
                ScanStep::Stop(r) => r,
                ScanStep::Next(p2, d2, a2) => match scan_ops_spec(s, p2, d2, a2) {
                    ScanStep::Stop(r) => r,
                    ScanStep::Next(p3, d3, a3) => if s.len() - p3 >= 8 {
                        if p3 <= head {
                            Err(ParseFailure::NoProgress)
                        } else {
                            scan_outer_spec(s, p3, d3, a3)
                        }
                    } else {
                        Ok(a3.push(TokenView::End(true)))
                    },
                },
            },
        }
    }
}

/// The tokens of an expression.
pub open spec fn expression_tokens_spec(s: Seq<u8>) -> Result<Seq<TokenView>, ParseFailure> {
    scan_outer_spec(s, 0, 0, seq![])
}


/// The outcome of an exec scanning stage, as `ScanStep` says it: `Ok(Some((pos, depth)))`
/// to go on, `Ok(None)` when the expression has ended, or the failure.
pub open spec fn step_agrees(
    r: Result<Option<(usize, usize)>, ParseFailure>,
    toks: Seq<TokenView>,
    st: ScanStep,
    len: int,
) -> bool {
    match st {
        ScanStep::Next(p, d, a) => match r {
            Ok(Some((p2, d2))) => p2 == p && d2 == d && toks == a && d <= toks.len() && p <= len,
            _ => false,
        },
        ScanStep::Stop(Ok(a)) => match r {
            Ok(None) => toks == a,
            _ => false,
        },
        ScanStep::Stop(Err(e)) => match r {
            Err(e2) => e2 == e,
            _ => false,
        },
    }
}

fn push_token(acc: &mut Vec<ExprToken>, t: ExprToken)
    ensures
        tokens_view(final(acc)@) == tokens_view(old(acc)@).push(t@),
        final(acc)@.len() == old(acc)@.len() + 1,
        final(acc)@.len() <= usize::MAX,
{
    let ghost tv = t@;
    let ghost before = acc@;
    acc.push(t);
    let _n = acc.len();
    assert(tokens_view(acc@) =~= tokens_view(before).push(tv));
}

fn word_is(input: &[u8], off: usize, a: u8, b: u8, c: u8, d: u8) -> (r: bool)
    ensures
        r == at_word(input@, off as int, a, b, c, d),
{
    off <= input.len() && input.len() - off >= 4 && input[off] == a && input[off + 1] == b
        && input[off + 2] == c && input[off + 3] == d
}

fn replace_depth_exec(d: usize) -> (r: usize)
    ensures
        r == replace_depth(d as int),
{
    if d > 0 { d } else { 1 }
}

fn scan_number(input: &[u8], pos: usize, depth: usize, acc: &mut Vec<ExprToken>) -> (r: Result<Option<(usize, usize)>, ParseFailure>)
    requires
        pos + 8 <= input@.len(),
        depth <= old(acc)@.len(),
    ensures
        step_agrees(r, tokens_view(final(acc)@), scan_number_spec(input@, pos as int, depth as int, tokens_view(old(acc)@)), input@.len() as int),
{
    let _len = input.len();
    let pi = word_is(input, pos, 0, 0, 0, 0x6F);
    let mut p = pos;
    let mut d = depth;
    if pi {
        push_token(acc, ExprToken::Text(String::from_str("PI")));
        p = pos + 4;
        d = depth + 1;
    }
    if !(pi || read_be_i32(input, pos) == 0x65) {
        return Ok(Some((p, d)));
    }
    if input.len() - p < 8 {
        return Err(ParseFailure::OutOfRange);
    }
    let q = p + 8;
    if input.len() - q < 12 {
        push_token(acc, ExprToken::Empty);
        return Ok(None);
    }
    let flag = crate::helper::read_be_u16(input, q + 8) as i16;
    let bytes = vstd::slice::slice_to_vec(slice_subrange(input, q, q + 12));
    push_token(acc, ExprToken::Number(flag, bytes));
    let q1 = q + 12;
    let np = if input.len() - q1 > 8 { q1 + 8 } else { q1 };
    Ok(Some((np, d + 1)))
}

fn scan_of(input: &[u8], ei0: usize, end: usize, depth: usize, acc: &mut Vec<ExprToken>) -> (r: Result<Option<(usize, usize)>, ParseFailure>)
    requires
        ei0 <= end <= input@.len(),
        depth <= old(acc)@.len(),
    ensures
        step_agrees(r, tokens_view(final(acc)@), scan_of_spec(input@, ei0 as int, end as int, depth as int, tokens_view(old(acc)@)), input@.len() as int),
{
    let ghost start = tokens_view(acc@);
    let mut ei = ei0;
    let mut d = depth;
    loop
        invariant
            ei0 <= ei <= end <= input@.len(),
            d <= acc@.len(),
            start == tokens_view(old(acc)@),
            scan_of_spec(input@, ei0 as int, end as int, depth as int, start) == scan_of_spec(input@, ei as int, end as int, d as int, tokens_view(acc@)),
        decreases end - ei,
    {
        if end - ei <= 4 {
            return Ok(Some((ei, d)));
        }
        let e = get_expression_of_func(slice_subrange(input, ei, ei + 4));
        let named = !e.as_str().is_empty();
        if named && end - ei < 20 {
            push_token(acc, ExprToken::OfFunc(e));
            return Ok(Some((ei, replace_depth_exec(d))));
        }
        let mut e2 = ei;
        if named {
            push_token(acc, ExprToken::OfFunc(e));
            d = replace_depth_exec(d);
            e2 = ei + 20;
        }
        if end - e2 < 8 {
            return Err(ParseFailure::Eof);
        }
        let r0 = read_be_i32(input, e2);
        let r1 = read_be_i32(input, e2 + 4);
        let e3 = e2 + 8;
        if named || r0 == 0 || r1 == 1701 {
            if end - e3 < 16 {
                return Err(ParseFailure::OutOfRange);
            }
            let f = get_expression_of_func(slice_subrange(input, e3, e3 + 4));
            push_token(acc, ExprToken::OfFunc(f));
            d = replace_depth_exec(d);
            ei = e3 + 16;
        } else {
            push_token(acc, ExprToken::OfRef(r0, r1));
            return Ok(None);
        }
    }
}

#[verifier::rlimit(40)]
fn scan_attrs(input: &[u8], pos0: usize, depth: usize, acc: &mut Vec<ExprToken>) -> (r: Result<Option<(usize, usize)>, ParseFailure>)
    requires
        pos0 <= input@.len(),
        depth <= old(acc)@.len(),
    ensures
        step_agrees(r, tokens_view(final(acc)@), scan_attrs_spec(input@, pos0 as int, depth as int, tokens_view(old(acc)@)), input@.len() as int),
{
    let ghost start = tokens_view(acc@);
    let mut pos = pos0;
    let mut d = depth;
    loop
        invariant
            pos <= input@.len(),
            d <= acc@.len(),
            start == tokens_view(old(acc)@),
            scan_attrs_spec(input@, pos0 as int, depth as int, start) == scan_attrs_spec(input@, pos as int, d as int, tokens_view(acc@)),
        decreases input@.len() - pos,
    {
        if !(input.len() - pos > 4 && word_is(input, pos, 0, 0, 0, 0x6A)) {
            return Ok(Some((pos, d)));
        }
        let p = pos + 4;
        if input.len() - p < 24 {
            return Err(ParseFailure::OutOfRange);
        }
        let hash = read_be_u32(input, p + 4);
        let f0 = read_be_i32(input, p + 8);
        let f1 = read_be_i32(input, p + 12);
        let sv = read_be_u32(input, p + 16);
        push_token(acc, ExprToken::Attr(hash, f0, f1, sv));
        let d1 = if f0 == -1 && f1 == -1 { replace_depth_exec(d) } else { d + 1 };
        if word_is(input, p + 20, 0, 0, 6, 0x42) {
            if input.len() - (p + 24) < 4 {
                return Err(ParseFailure::Eof);
            }
            let n = read_be_i32(input, p + 24);
            if n < 1 || (n as u64) * 4 > (input.len() - (p + 28)) as u64 {
                return Err(ParseFailure::OutOfRange);
            }
            let l = (n as usize) * 4;
            match scan_of(input, p + 32, p + 28 + l, d1, acc) {
                Err(e) => {
                    return Err(e);
                },
                Ok(None) => {
                    return Ok(None);
                },
                Ok(Some((_, d2))) => {
                    d = d2;
                    pos = if input.len() - p > 28 + l { p + 28 + l } else { p + l };
                },
            }
        } else {
            d = d1;
            pos = p + 24;
        }
    }
}


/// The number of `{}` places in a pattern (see `placeholder_count`).
pub fn count_placeholders(t: &str) -> (n: usize)
    ensures
        n == placeholder_count(t@),
{
    let cs = crate::text::chars_of(t);
    let len = cs.len();
    let mut i: usize = 0;
    let mut n: usize = 0;
    assert(cs@.subrange(0, len as int) =~= cs@);
    while i < len && len - i >= 2
        invariant
            cs@ == t@,
            len == cs@.len(),
            i <= len,
            n <= i,
            n + placeholder_count(cs@.subrange(i as int, len as int)) == placeholder_count(t@),
        decreases len - i,
    {
        let ghost rest = cs@.subrange(i as int, len as int);
        if cs[i] == '{' && cs[i + 1] == '}' {
            assert(rest.subrange(2, rest.len() as int) =~= cs@.subrange(i + 2, len as int));
            n = n + 1;
            i = i + 2;
        } else {
            assert(rest.drop_first() =~= cs@.subrange(i + 1, len as int));
            i = i + 1;
        }
    }
    n
}

fn string_chars(input: &[u8], start: usize, n: u32) -> (v: Vec<u8>)
    requires
        start + 4 * n <= input@.len(),
    ensures
        v@ == str_chars(input@, start as int, n as int),
{
    let mut v: Vec<u8> = Vec::new();
    let mut i: u32 = 0;
    let len = input.len();
    while i < n
        invariant
            i <= n,
            len == input@.len(),
            start + 4 * n <= input@.len(),
            v@ == str_chars(input@, start as int, i as int),
        decreases n - i,
    {
        v.push(input[start + 4 * (i as usize) + 3]);
        i = i + 1;
        assert(v@ =~= str_chars(input@, start as int, i as int));
    }
    v
}

fn collect_doubles(input: &[u8], pos: usize, m: u8) -> (r: (Vec<u8>, usize))
    requires
        pos <= input@.len(),
    ensures
        r.0@ == doubles_from(input@, pos as int, m),
        r.1 == pos + 32 * count_doubles(input@, pos as int, m),
        r.1 <= input@.len(),
{
    let mut out: Vec<u8> = Vec::new();
    let mut q = pos;
    while input.len() - q > 36 && word_is(input, q + 32, 0, 0, 3, m)
        invariant
            pos <= q <= input@.len(),
            out@ + doubles_from(input@, q as int, m) == doubles_from(input@, pos as int, m),
            q + 32 * count_doubles(input@, q as int, m) == pos + 32 * count_doubles(input@, pos as int, m),
        decreases input@.len() - q,
    {
        let ghost before = out@;
        let b0: u8 = (input[q + 22] % 16) * 16 + input[q + 23] / 16;
        let b1: u8 = (input[q + 23] % 16) * 16 + input[q + 13] % 16;
        out.push(b0);
        out.push(b1);
        out.push(input[q + 14]);
        out.push(input[q + 15]);
        out.push(input[q + 16]);
        out.push(input[q + 17]);
        out.push(input[q + 18]);
        out.push(input[q + 19]);
        assert(out@ =~= before + double_at(input@, q as int));
        assert(before + double_at(input@, q as int) + doubles_from(input@, q + 32, m) =~= before + (
        double_at(input@, q as int) + doubles_from(input@, q + 32, m)));
        q = q + 32;
    }
    assert(out@ + doubles_from(input@, q as int, m) =~= out@);
    (out, q)
}

/// The effect of a word of the operator stage (see `op_word_effect`): the bytes it
/// consumes and the new depth.
fn op_word(input: &[u8], pos: usize, d: usize, acc: &mut Vec<ExprToken>) -> (r: Result<(usize, usize), ParseFailure>)
    requires
        pos + 4 <= input@.len(),
        d <= old(acc)@.len(),
    ensures
        ({
            let eff = op_word_effect(input@, pos as int, d as int, tokens_view(old(acc)@));
            match r {
                Ok((adv, d2)) => eff.fail is None && adv == eff.adv && d2 == eff.depth
                    && tokens_view(final(acc)@) == eff.toks && d2 <= final(acc)@.len() && pos + adv
                    <= input@.len(),
                Err(e) => eff.fail == Some(e),
            }
        }),
{
    let len = input.len();
    let r = len - pos;
    if word_is(input, pos, 0, 0, 0, 3) {
        if r >= 8 && word_is(input, pos + 4, 0, 0, 6, 0xA5) && d > 1 {
            push_token(acc, ExprToken::OfEq);
            return Ok((0, d - 1));
        }
        Ok((0, d))
    } else if word_is(input, pos, 0, 0, 0, 0x6F) {
        push_token(acc, ExprToken::Text(String::from_str("PI")));
        Ok((0, d + 1))
    } else if word_is(input, pos, 0, 0, 0, 0x76) {
        if r <= 4 {
            return Ok((0, d));
        }
        if r < 8 {
            return Err(ParseFailure::OutOfRange);
        }
        let n = read_be_u32(input, pos + 4);
        let n64 = n as u64;
        if n64 * 4 + 4 > 0xFFFF_FFFFu64 || (r as u64) < 4 + 4 * n64 || (n >= 1 && (r as u64) < 8 + 4
            * n64) {
            return Err(ParseFailure::OutOfRange);
        }
        let chars = string_chars(input, pos + 8, n);
        push_token(acc, ExprToken::Str(chars));
        let adv = 4 + 4 * (n as usize);
        Ok((adv, if n > 0 { d + 1 } else { d }))
    } else if word_is(input, pos, 0, 0, 3, 0xF0) || word_is(input, pos, 0, 0, 3, 0xF1) {
        let m = input[pos + 3];
        if d > 1 {
            let (bytes, q) = collect_doubles(input, pos, m);
            push_token(acc, ExprToken::MaxMin(m == 0xF0, bytes));
            return Ok((q - pos, d - 1));
        }
        Ok((0, d))
    } else if word_is(input, pos, 0, 0, 7, 0x1E) && d > 2 {
        push_token(acc, ExprToken::IfTrue);
        Ok((0, d - 2))
    } else {
        Ok((0, d))
    }
}

#[verifier::rlimit(40)]
fn scan_ops(input: &[u8], pos0: usize, depth: usize, acc: &mut Vec<ExprToken>, ops: &std::collections::HashMap<i32, &'static str>) -> (r: Result<Option<(usize, usize)>, ParseFailure>)
    requires
        pos0 <= input@.len(),
        depth <= old(acc)@.len(),
        ops@ == crate::parser::attribute::expression::math_operators_spec(),
    ensures
        step_agrees(r, tokens_view(final(acc)@), scan_ops_spec(input@, pos0 as int, depth as int, tokens_view(old(acc)@)), input@.len() as int),
{
    broadcast use vstd::std_specs::hash::group_hash_axioms;
    let ghost start = tokens_view(acc@);
    let mut pos = pos0;
    let mut d = depth;
    loop
        invariant
            pos <= input@.len(),
            d <= acc@.len(),
            start == tokens_view(old(acc)@),
            ops@ == crate::parser::attribute::expression::math_operators_spec(),
            scan_ops_spec(input@, pos0 as int, depth as int, start) == scan_ops_spec(input@, pos as int, d as int, tokens_view(acc@)),
        decreases input@.len() - pos,
    {
        if !(input.len() - pos >= 4 && input[pos] == 0 && input[pos + 1] == 0 && !word_is(input, pos, 0, 0, 0, 0x65)
            && !word_is(input, pos, 0, 0, 0, 0x6A) && !word_is(input, pos, 0, 0, 0, 2)) {
            return Ok(Some((pos, d)));
        }
        let w = read_be_i32(input, pos);
        let mut d1 = d;
        match ops.get(&w) {
            Some(t) => {
                let cnt = count_placeholders(*t);
                if d >= cnt {
                    push_token(acc, ExprToken::Operator(w));
                    d1 = d - cnt + 1;
                }
            },
            None => {},
        }
        match op_word(input, pos, d1, acc) {
            Err(e) => {
                return Err(e);
            },
            Ok((adv, d2)) => {
                let p2 = pos + adv;
                if input.len() - p2 > 4 {
                    pos = p2 + 4;
                    d = d2;
                } else {
                    push_token(acc, ExprToken::End(false));
                    return Ok(None);
                }
            },
        }
    }
}

fn head_ok_exec(input: &[u8], pos: usize) -> (b: bool)
    requires
        pos <= input@.len(),
    ensures
        b == head_ok(input@, pos as int),
{
    if input.len() - pos < 8 {
        return false;
    }
    let c1 = read_be_i32(input, pos);
    let c2 = read_be_i32(input, pos + 4);
    c1 == 0x65 || c1 == 0x6A || c2 == 3 || (input[pos] == 0 && input[pos + 1] == 0 && input[pos + 2]
        == 3) || c2 == 0x65 || c1 == 0x76
}

/// A scan result as mathematical values.
pub open spec fn scan_result_view(r: Result<Vec<ExprToken>, ParseFailure>) -> Result<Seq<TokenView>, ParseFailure> {
    match r {
        Ok(v) => Ok(tokens_view(v@)),
        Err(e) => Err(e),
    }
}

/// Scans expression byte code into tokens (see `expression_tokens_spec`). Inputs
/// that the format does not allow fail: `Eof` where a reference or length word is
/// missing, `OutOfRange` where a length or offset reaches outside the input,
/// `NoProgress` where an iteration would consume nothing and repeat for ever.
pub fn expression_tokens(input: &[u8]) -> (r: Result<Vec<ExprToken>, ParseFailure>)
    ensures
        scan_result_view(r) == expression_tokens_spec(input@),
{
    let ops = crate::parser::attribute::expression::get_math_operators();
    let mut acc: Vec<ExprToken> = Vec::new();
    let mut head: usize = 0;
    let mut d: usize = 0;
    assert(tokens_view(acc@) =~= Seq::<TokenView>::empty());
    loop
        invariant
            head <= input@.len(),
            d <= acc@.len(),
            ops@ == crate::parser::attribute::expression::math_operators_spec(),
            expression_tokens_spec(input@) == scan_outer_spec(input@, head as int, d as int, tokens_view(acc@)),
        decreases input@.len() - head,
    {
        if !head_ok_exec(input, head) {
            push_token(&mut acc, ExprToken::End(true));
            return Ok(acc);
        }
        let (p1, d1) = match scan_number(input, head, d, &mut acc) {
            Err(e) => {
                return Err(e);
            },
            Ok(None) => {
                return Ok(acc);
            },
            Ok(Some(x)) => x,
        };
        let (p2, d2) = match scan_attrs(input, p1, d1, &mut acc) {
            Err(e) => {
                return Err(e);
            },
            Ok(None) => {
                return Ok(acc);
            },
            Ok(Some(x)) => x,
        };
        let (p3, d3) = match scan_ops(input, p2, d2, &mut acc, &ops) {
            Err(e) => {
                return Err(e);
            },
            Ok(None) => {
                return Ok(acc);
            },
            Ok(Some(x)) => x,
        };
        if input.len() - p3 >= 8 {
            if p3 <= head {
                return Err(ParseFailure::NoProgress);
            }
            head = p3;
            d = d3;
        } else {
            push_token(&mut acc, ExprToken::End(true));
            return Ok(acc);
        }
    }
}


/// What `String::from_utf8_lossy` makes of a byte string.
pub uninterp spec fn lossy_text(bytes: Seq<u8>) -> Seq<char>;

/// `String::from_utf8_lossy`, made an owned `String`. Stated of it: the text is empty
/// exactly when the bytes are, and ASCII bytes (valid UTF-8) come back as their
/// characters. How invalid sequences are replaced is left to the name.
#[verifier::external_body]
fn utf8_lossy(bytes: &[u8]) -> (s: String)
    ensures
        s@ == lossy_text(bytes@),
        (s@.len() == 0) == (bytes@.len() == 0),
        (forall|i: int| 0 <= i < bytes@.len() ==> bytes@[i] < 128) ==> s@ == bytes@.map_values(
            |b: u8| b as char,
        ),
{
    String::from_utf8_lossy(bytes).into_owned()
}

/// A value stack as mathematical values.
pub open spec fn stack_view(v: Seq<String>) -> Seq<Seq<char>> {
    v.map_values(|s: String| s@)
}

/// Number texts as mathematical values.
pub open spec fn numbers_view(v: Seq<String>) -> Seq<Seq<char>> {
    v.map_values(|s: String| s@)
}

/// Names of user-defined attributes as mathematical values.
pub open spec fn udas_view(v: Seq<(u32, String)>) -> Seq<(u32, Seq<char>)> {
    v.map_values(|p: (u32, String)| (p.0, p.1@))
}

/// The stack after taking its last value, and that value (the empty text when the
/// stack is empty).
pub open spec fn pop_value(st: Seq<Seq<char>>) -> (Seq<Seq<char>>, Seq<char>) {
    if st.len() > 0 {
        (st.drop_last(), st.last())
    } else {
        (st, seq![])
    }
}

/// An operator pattern with each `{}` replaced by the next argument in turn.
pub open spec fn fill_pattern(t: Seq<char>, args: Seq<Seq<char>>) -> Seq<char>
    decreases t.len(),
{
    if t.len() >= 2 && t[0] == '{' && t[1] == '}' {
        (if args.len() > 0 { args[0] } else { seq![] }) + fill_pattern(
            t.subrange(2, t.len() as int),
            if args.len() > 0 { args.drop_first() } else { args },
        )
    } else if t.len() > 0 {
        seq![t[0]] + fill_pattern(t.drop_first(), args)
    } else {
        seq![]
    }
}

/// Each text preceded by a comma.
pub open spec fn comma_list(v: Seq<Seq<char>>) -> Seq<char>
    decreases v.len(),
{
    if v.len() == 0 {
        seq![]
    } else {
        comma_list(v.drop_last()) + seq![','] + v.last()
    }
}

/// The name listed for a user-defined attribute hash: the first entry with it.
pub open spec fn uda_lookup(udas: Seq<(u32, Seq<char>)>, h: u32) -> Option<Seq<char>>
    decreases udas.len(),
{
    if udas.len() == 0 {
        None
    } else if udas[0].0 == h {
        Some(udas[0].1)
    } else {
        uda_lookup(udas.drop_first(), h)
    }
}

/// Whether `db1_dehash` can name a hash.
pub open spec fn dehash_ok(h: u32) -> bool {
    h > crate::db_tool::UDA_HASH_BASE || h >= NAME_HASH_BASE
}

/// Where the stack machine stands after a token: going on with a stack and the
/// number of number texts used, or done with the text of the expression.
pub enum RenderStep {
    Go(Seq<Seq<char>>, int),
    Done(Result<Seq<char>, ParseFailure>),
}

/// The text of an attribute reference (`ATTRIB` and the name, with an index in
/// brackets, the last value in brackets, or the name of the extra hash for `RPRO`).
pub open spec fn attr_step(
    name: Seq<char>,
    f0: i32,
    f1: i32,
    sv: u32,
    st: Seq<Seq<char>>,
) -> Result<Seq<Seq<char>>, ParseFailure> {
    let rp = name == "RPRO"@ && sv != 0;
    if rp && !dehash_ok(sv) {
        Err(ParseFailure::OutOfRange)
    } else {
        let rpro = if rp && dehash_spec(sv).len() > 0 { seq![' '] + dehash_spec(sv) } else { seq![] };
        let head = "ATTRIB "@ + name;
        if f0 == -1 && f1 == -1 {
            let (st1, v) = pop_value(st);
            Ok(st1.push(head + "["@ + v + " ]"@ + rpro))
        } else if sv == 0 {
            Ok(
                st.push(
                    if f1 == 1 && name != "PARA"@ {
                        head
                    } else {
                        head + "["@ + crate::text::signed_decimal(f1 as int) + " ]"@
                    },
                ),
            )
        } else {
            Ok(st.push(head + rpro))
        }
    }
}

/// The stack after an attribute reference, as a step of the stack machine.
pub open spec fn attr_render(name: Seq<char>, f0: i32, f1: i32, sv: u32, st: Seq<Seq<char>>, ni: int) -> RenderStep {
    match attr_step(name, f0, f1, sv, st) {
        Ok(st2) => RenderStep::Go(st2, ni),
        Err(e) => RenderStep::Done(Err(e)),
    }
}

/// One token of the stack machine.
pub open spec fn render_step(
    tok: TokenView,
    st: Seq<Seq<char>>,
    nums: Seq<Seq<char>>,
    ni: int,
    udas: Seq<(u32, Seq<char>)>,
) -> RenderStep {
    match tok {
        TokenView::Number(_, _) => if 0 <= ni < nums.len() {
            RenderStep::Go(st.push(nums[ni]), ni + 1)
        } else {
            RenderStep::Done(Err(ParseFailure::Incomplete))
        },
        TokenView::Text(t) => RenderStep::Go(st.push(t), ni),
        TokenView::Attr(h, f0, f1, sv) => match uda_lookup(udas, h) {
            Some(n) => attr_render(seq![':'] + n, f0, f1, sv, st, ni),
            None => if dehash_ok(h) {
                attr_render(dehash_spec(h), f0, f1, sv, st, ni)
            } else {
                RenderStep::Done(Err(ParseFailure::OutOfRange))
            },
        },
        TokenView::OfFunc(e) => {
            let (st1, v) = pop_value(st);
            RenderStep::Go(st1.push(" ( "@ + v + " OF "@ + e + " ) "@), ni)
        },
        TokenView::OfRef(a, b) => RenderStep::Done(
            Ok(
                " ( "@ + pop_value(st).1 + " OF =  "@ + crate::text::signed_decimal(a as int) + " / "@
                    + crate::text::signed_decimal(b as int) + "  ) "@,
            ),
        ),
        TokenView::Operator(w) => {
            let ops = crate::parser::attribute::expression::math_operators_spec();
            let cnt = placeholder_count(ops[w]@);
            if ops.contains_key(w) && cnt <= st.len() {
                let k = st.len() - cnt;
                RenderStep::Go(
                    st.subrange(0, k).push(fill_pattern(ops[w]@, st.subrange(k, st.len() as int))),
                    ni,
                )
            } else {
                RenderStep::Go(st, ni)
            }
        },
        TokenView::OfEq => if st.len() > 1 {
            let n = st.len() as int;
            RenderStep::Go(st.subrange(0, n - 2).push(" ( "@ + st[n - 2] + " OF = "@ + st[n - 1] + " ) "@), ni)
        } else {
            RenderStep::Go(st, ni)
        },
        TokenView::Str(b) => if lossy_text(b).len() > 0 {
            RenderStep::Go(st.push(lossy_text(b)), ni)
        } else {
            RenderStep::Go(st, ni)
        },
        TokenView::MaxMin(mx, b) => {
            let k = (b.len() / 8) as int;
            if st.len() > 1 {
                if ni < 0 || ni + k > nums.len() {
                    RenderStep::Done(Err(ParseFailure::Incomplete))
                } else {
                    let n = st.len() as int;
                    let arr = st[n - 2] + seq![','] + st[n - 1] + comma_list(nums.subrange(ni, ni + k));
                    RenderStep::Go(
                        st.subrange(0, n - 2).push(
                            if mx { " ( MAX ("@ + arr + ") ) "@ } else { " ( MIN ( "@ + arr + " ) ) "@ },
                        ),
                        ni + k,
                    )
                }
            } else {
                RenderStep::Go(st, ni)
            }
        },
        TokenView::IfTrue => if st.len() > 2 {
            let n = st.len() as int;
            RenderStep::Go(
                st.subrange(0, n - 3).push(
                    " ( IFTRUE ( "@ + st[n - 3] + " , "@ + st[n - 2] + " , "@ + st[n - 1] + " ) ) "@,
                ),
                ni,
            )
        } else {
            RenderStep::Go(st, ni)
        },
        TokenView::End(t) => RenderStep::Done(
            Ok(if t { crate::text::trim(pop_value(st).1) } else { pop_value(st).1 }),
        ),
        TokenView::Empty => RenderStep::Done(Ok(seq![])),
    }
}

/// The stack machine from token `i` on; past the last token, the last value.
pub open spec fn render_from(
    toks: Seq<TokenView>,
    i: int,
    st: Seq<Seq<char>>,
    nums: Seq<Seq<char>>,
    ni: int,
    udas: Seq<(u32, Seq<char>)>,
) -> Result<Seq<char>, ParseFailure>
    decreases toks.len() - i,
{
    if 0 <= i < toks.len() {
        match render_step(toks[i], st, nums, ni, udas) {
            RenderStep::Go(st2, ni2) => render_from(toks, i + 1, st2, nums, ni2, udas),
            RenderStep::Done(r) => r,
        }
    } else {
        Ok(pop_value(st).1)
    }
}

/// The text of an expression: its tokens run on an empty stack, the number texts
/// used in order (one per number, one per double of `MAX`/`MIN`), user-defined
/// attributes named by the list.
pub open spec fn expression_text_spec(
    toks: Seq<TokenView>,
    nums: Seq<Seq<char>>,
    udas: Seq<(u32, Seq<char>)>,
) -> Result<Seq<char>, ParseFailure> {
    render_from(toks, 0, seq![], nums, 0, udas)
}


fn push_value(st: &mut Vec<String>, v: String)
    ensures
        stack_view(final(st)@) == stack_view(old(st)@).push(v@),
        final(st)@.len() == old(st)@.len() + 1,
{
    let ghost vv = v@;
    let ghost before = st@;
    st.push(v);
    assert(stack_view(st@) =~= stack_view(before).push(vv));
}

fn pop_value_exec(st: &mut Vec<String>) -> (v: String)
    ensures
        stack_view(final(st)@) == pop_value(stack_view(old(st)@)).0,
        v@ == pop_value(stack_view(old(st)@)).1,
        final(st)@.len() == (if old(st)@.len() > 0 { old(st)@.len() - 1 } else { 0 }),
{
    let ghost before = st@;
    match st.pop() {
        Some(v) => {
            assert(stack_view(st@) =~= stack_view(before).drop_last());
            v
        },
        None => String::new(),
    }
}

fn find_uda_name(udas: &Vec<(u32, String)>, h: u32) -> (r: Option<String>)
    ensures
        match r {
            Some(n) => uda_lookup(udas_view(udas@), h) == Some(n@),
            None => uda_lookup(udas_view(udas@), h) is None,
        },
{
    let ghost all = udas_view(udas@);
    let mut i: usize = 0;
    assert(all.subrange(0, all.len() as int) =~= all);
    while i < udas.len()
        invariant
            i <= udas@.len(),
            all == udas_view(udas@),
            uda_lookup(all, h) == uda_lookup(all.subrange(i as int, all.len() as int), h),
        decreases udas@.len() - i,
    {
        let ghost rest = all.subrange(i as int, all.len() as int);
        assert(rest[0] == all[i as int]);
        if udas[i].0 == h {
            return Some(udas[i].1.clone());
        }
        assert(rest.drop_first() =~= all.subrange(i + 1, all.len() as int));
        i = i + 1;
    }
    None
}

fn fill_pattern_exec(t: &str, st: &Vec<String>, from: usize) -> (r: String)
    requires
        from <= st@.len(),
    ensures
        r@ == fill_pattern(t@, stack_view(st@).subrange(from as int, st@.len() as int)),
{
    let ghost args0 = stack_view(st@).subrange(from as int, st@.len() as int);
    let cs = crate::text::chars_of(t);
    let n = cs.len();
    let mut i: usize = 0;
    let mut k: usize = from;
    let mut r = String::new();
    assert(cs@.subrange(0, n as int) =~= cs@);
    while i < n
        invariant
            cs@ == t@,
            n == cs@.len(),
            i <= n,
            from <= k <= st@.len(),
            args0 == stack_view(st@).subrange(from as int, st@.len() as int),
            r@ + fill_pattern(cs@.subrange(i as int, n as int), stack_view(st@).subrange(k as int, st@.len() as int)) == fill_pattern(t@, args0),
        decreases n - i,
    {
        let ghost rest = cs@.subrange(i as int, n as int);
        let ghost args = stack_view(st@).subrange(k as int, st@.len() as int);
        let ghost before = r@;
        if n - i >= 2 && cs[i] == '{' && cs[i + 1] == '}' {
            assert(rest.subrange(2, rest.len() as int) =~= cs@.subrange(i + 2, n as int));
            if k < st.len() {
                r.append(st[k].as_str());
                assert(args[0] == st@[k as int]@);
                assert(args.drop_first() =~= stack_view(st@).subrange(k + 1, st@.len() as int));
                k = k + 1;
            } else {
                assert(args.len() == 0);
            }
            i = i + 2;
        } else {
            crate::text::push_char(&mut r, cs[i]);
            assert(rest.drop_first() =~= cs@.subrange(i + 1, n as int));
            i = i + 1;
        }
        assert(r@ + fill_pattern(cs@.subrange(i as int, n as int), stack_view(st@).subrange(k as int, st@.len() as int)) =~= before + fill_pattern(rest, args));
    }
    assert(fill_pattern(cs@.subrange(i as int, n as int), stack_view(st@).subrange(k as int, st@.len() as int)) =~= Seq::<char>::empty());
    assert(r@ =~= r@ + Seq::<char>::empty());
    r
}

fn attr_exec(name: String, f0: i32, f1: i32, sv: u32, st: &mut Vec<String>) -> (r: Result<(), ParseFailure>)
    ensures
        match attr_step(name@, f0, f1, sv, stack_view(old(st)@)) {
            Ok(st2) => r is Ok && stack_view(final(st)@) == st2,
            Err(e) => r == Err::<(), ParseFailure>(e),
        },
{
    let rp = crate::helper::str_is(name.as_str(), "RPRO") && sv != 0;
    if rp && !(sv > crate::db_tool::UDA_HASH_BASE || sv >= NAME_HASH_BASE) {
        return Err(ParseFailure::OutOfRange);
    }
    let mut rpro = String::new();
    if rp {
        let rn = db1_dehash(sv);
        if !rn.as_str().is_empty() {
            crate::text::push_char(&mut rpro, ' ');
            rpro.append(rn.as_str());
        }
    }
    assert(rpro@ == (if rp && dehash_spec(sv).len() > 0 { seq![' '] + dehash_spec(sv) } else { seq![] }));
    let mut head = String::from_str("ATTRIB ");
    head.append(name.as_str());
    if f0 == -1 && f1 == -1 {
        let v = pop_value_exec(st);
        head.append("[");
        head.append(v.as_str());
        head.append(" ]");
        head.append(rpro.as_str());
        push_value(st, head);
    } else if sv == 0 {
        if f1 == 1 && !crate::helper::str_is(name.as_str(), "PARA") {
            push_value(st, head);
        } else {
            head.append("[");
            crate::text::push_signed_decimal(&mut head, f1);
            head.append(" ]");
            push_value(st, head);
        }
    } else {
        head.append(rpro.as_str());
        push_value(st, head);
    }
    Ok(())
}

/// Whether the exec outcome of one token is what `render_step` says.
pub open spec fn render_agrees(
    r: Result<(Option<String>, usize), ParseFailure>,
    st: Seq<Seq<char>>,
    step: RenderStep,
) -> bool {
    match step {
        RenderStep::Go(st2, ni2) => match r {
            Ok((None, n)) => st == st2 && n == ni2,
            _ => false,
        },
        RenderStep::Done(Ok(t)) => match r {
            Ok((Some(x), _)) => x@ == t,
            _ => false,
        },
        RenderStep::Done(Err(e)) => match r {
            Err(e2) => e2 == e,
            _ => false,
        },
    }
}

#[verifier::rlimit(60)]
fn render_token(
    tok: &ExprToken,
    st: &mut Vec<String>,
    numbers: &Vec<String>,
    ni: usize,
    udas: &Vec<(u32, String)>,
    ops: &std::collections::HashMap<i32, &'static str>,
) -> (r: Result<(Option<String>, usize), ParseFailure>)
    requires
        ni <= numbers@.len(),
        ops@ == crate::parser::attribute::expression::math_operators_spec(),
    ensures
        render_agrees(r, stack_view(final(st)@), render_step(tok@, stack_view(old(st)@), numbers_view(numbers@), ni as int, udas_view(udas@))),
        r matches Ok((None, n)) ==> n <= numbers@.len(),
{
    broadcast use vstd::std_specs::hash::group_hash_axioms;
    proof {
        reveal_strlit(":");
    }
    match tok {
        ExprToken::Number(_, _) => {
            if ni < numbers.len() {
                push_value(st, numbers[ni].clone());
                return Ok((None, ni + 1));
            } else {
                return Err(ParseFailure::Incomplete);
            }
        },
        ExprToken::Text(t) => {
            push_value(st, t.clone());
            return Ok((None, ni));
        },
        ExprToken::Attr(h, f0, f1, sv) => {
            let name = match find_uda_name(udas, *h) {
                Some(n) => {
                    let mut name = String::from_str(":");
                    name.append(n.as_str());
                    assert(name@ == seq![':'] + n@);
                    name
                },
                None => {
                    if !(*h > crate::db_tool::UDA_HASH_BASE || *h >= NAME_HASH_BASE) {
                        return Err(ParseFailure::OutOfRange);
                    }
                    db1_dehash(*h)
                },
            };
            assert(render_step(tok@, stack_view(old(st)@), numbers_view(numbers@), ni as int, udas_view(udas@)) == attr_render(name@, *f0, *f1, *sv, stack_view(old(st)@), ni as int));
            match attr_exec(name, *f0, *f1, *sv, st) {
                Ok(()) => { return Ok((None, ni)); },
                Err(e) => { return Err(e); },
            }
        },
        ExprToken::OfFunc(e) => {
            let v = pop_value_exec(st);
            let mut t = String::from_str(" ( ");
            t.append(v.as_str());
            t.append(" OF ");
            t.append(e.as_str());
            t.append(" ) ");
            push_value(st, t);
            return Ok((None, ni));
        },
        ExprToken::OfRef(a, b) => {
            let v = pop_value_exec(st);
            let mut t = String::from_str(" ( ");
            t.append(v.as_str());
            t.append(" OF =  ");
            crate::text::push_signed_decimal(&mut t, *a);
            t.append(" / ");
            crate::text::push_signed_decimal(&mut t, *b);
            t.append("  ) ");
            return Ok((Some(t), ni));
        },
        ExprToken::Operator(w) => {
            match ops.get(w) {
                Some(t) => {
                    let cnt = count_placeholders(*t);
                    if cnt <= st.len() {
                        let k = st.len() - cnt;
                        let f = fill_pattern_exec(*t, st, k);
                        let ghost before = stack_view(st@);
                        st.truncate(k);
                        assert(stack_view(st@) =~= before.subrange(0, k as int));
                        push_value(st, f);
                    }
                },
                None => {},
            }
            return Ok((None, ni));
        },
        ExprToken::OfEq => {
            if st.len() > 1 {
                let ghost before = stack_view(st@);
                let v1 = pop_value_exec(st);
                let v2 = pop_value_exec(st);
                assert(stack_view(st@) =~= before.subrange(0, before.len() - 2));
                let mut t = String::from_str(" ( ");
                t.append(v2.as_str());
                t.append(" OF = ");
                t.append(v1.as_str());
                t.append(" ) ");
                push_value(st, t);
            }
            return Ok((None, ni));
        },
        ExprToken::Str(b) => {
            let t = utf8_lossy(b.as_slice());
            if !t.as_str().is_empty() {
                push_value(st, t);
            }
            return Ok((None, ni));
        },
        ExprToken::MaxMin(mx, b) => {
            let k = b.len() / 8;
            if st.len() > 1 {
                if k > numbers.len() - ni {
                    return Err(ParseFailure::Incomplete);
                }
                let ghost before = stack_view(st@);
                let ghost nv = numbers_view(numbers@);
                let v1 = pop_value_exec(st);
                let v2 = pop_value_exec(st);
                assert(stack_view(st@) =~= before.subrange(0, before.len() - 2));
                assert(v1@ == before[before.len() - 1]);
                assert(v2@ == before[before.len() - 2]);
                let mut arr = v2;
                crate::text::push_char(&mut arr, ',');
                arr.append(v1.as_str());
                let ghost base = arr@;
                assert(base =~= before[before.len() - 2] + seq![','] + before[before.len() - 1]);
                let mut j = ni;
                let end = ni + k;
                assert(nv.subrange(ni as int, ni as int) =~= Seq::<Seq<char>>::empty());
                while j < end
                    invariant
                        end == ni + k,
                        ni <= j <= ni + k <= numbers@.len(),
                        nv == numbers_view(numbers@),
                        arr@ == base + comma_list(nv.subrange(ni as int, j as int)),
                    decreases end - j,
                {
                    crate::text::push_char(&mut arr, ',');
                    arr.append(numbers[j].as_str());
                    assert(nv.subrange(ni as int, j + 1).drop_last() =~= nv.subrange(ni as int, j as int));
                    j = j + 1;
                    assert(arr@ =~= base + comma_list(nv.subrange(ni as int, j as int)));
                }
                let mut t = if *mx {
                    String::from_str(" ( MAX (")
                } else {
                    String::from_str(" ( MIN ( ")
                };
                t.append(arr.as_str());
                if *mx {
                    t.append(") ) ");
                } else {
                    t.append(" ) ) ");
                }
                assert(t@ == (if *mx { " ( MAX ("@ + arr@ + ") ) "@ } else { " ( MIN ( "@ + arr@ + " ) ) "@ }));
                assert(k as int == (b@.len() / 8) as int);
                push_value(st, t);
                return Ok((None, ni + k));
            } else {
                return Ok((None, ni));
            }
        },
        ExprToken::IfTrue => {
            if st.len() > 2 {
                let ghost before = stack_view(st@);
                let v1 = pop_value_exec(st);
                let v2 = pop_value_exec(st);
                let v3 = pop_value_exec(st);
                assert(stack_view(st@) =~= before.subrange(0, before.len() - 3));
                let mut t = String::from_str(" ( IFTRUE ( ");
                t.append(v3.as_str());
                t.append(" , ");
                t.append(v2.as_str());
                t.append(" , ");
                t.append(v1.as_str());
                t.append(" ) ) ");
                push_value(st, t);
            }
            return Ok((None, ni));
        },
        ExprToken::End(trim) => {
            let v = pop_value_exec(st);
            if *trim {
                return Ok((Some(crate::text::trim_text(v.as_str())), ni));
            } else {
                return Ok((Some(v), ni));
            }
        },
        ExprToken::Empty => { return Ok((Some(String::new()), ni)); },
    }
}

/// A rendering result as mathematical values.
pub open spec fn text_result_view(r: Result<String, ParseFailure>) -> Result<Seq<char>, ParseFailure> {
    match r {
        Ok(t) => Ok(t@),
        Err(e) => Err(e),
    }
}

/// Runs the stack machine of an expression over its tokens (see `render_from`).
/// `numbers` holds the text of each number in token order (one per `Number`, one per
/// double of `MAX`/`MIN`); `uda_names` names user-defined attribute hashes, the others
/// are named by `db1_dehash`. Fails with `Incomplete` when the number texts run out,
/// `OutOfRange` for a name hash that `db1_dehash` cannot name.
pub fn render_expression(
    tokens: &[ExprToken],
    numbers: &Vec<String>,
    uda_names: &Vec<(u32, String)>,
) -> (r: Result<String, ParseFailure>)
    ensures
        text_result_view(r) == expression_text_spec(tokens_view(tokens@), numbers_view(numbers@), udas_view(uda_names@)),
{
    let ops = crate::parser::attribute::expression::get_math_operators();
    let ghost toks = tokens_view(tokens@);
    let mut st: Vec<String> = Vec::new();
    let mut i: usize = 0;
    let mut ni: usize = 0;
    assert(stack_view(st@) =~= Seq::<Seq<char>>::empty());
    while i < tokens.len()
        invariant
            i <= tokens@.len(),
            ni <= numbers@.len(),
            toks == tokens_view(tokens@),
            ops@ == crate::parser::attribute::expression::math_operators_spec(),
            expression_text_spec(toks, numbers_view(numbers@), udas_view(uda_names@)) == render_from(toks, i as int, stack_view(st@), numbers_view(numbers@), ni as int, udas_view(uda_names@)),
        decreases tokens@.len() - i,
    {
        match render_token(&tokens[i], &mut st, numbers, ni, uda_names, &ops) {
            Err(e) => {
                return Err(e);
            },
            Ok((Some(t), _)) => {
                return Ok(t);
            },
            Ok((None, n)) => {
                ni = n;
                i = i + 1;
            },
        }
    }
    let v = pop_value_exec(&mut st);
    Ok(v)
}


/// What an explicit expression that is not an axis expression reads as.
#[derive(Debug, Clone, PartialEq)]
pub enum OtherExpression {
    /// A finished text: a string in single quotes, an axis letter, or a whole number.
    Text(String),
    /// The bytes of a `PTCD`/`PTCDI` axis expression, for the axis reader.
    Axis(Vec<u8>),
    /// The tokens of an expression, for `render_expression`.
    Tokens(Vec<ExprToken>),
}

/// `OtherExpression` as mathematical values.
pub enum OtherExpressionView {
    Text(Seq<char>),
    Axis(Seq<u8>),
    Tokens(Seq<TokenView>),
}

impl View for OtherExpression {
    type V = OtherExpressionView;

    open spec fn view(&self) -> OtherExpressionView {
        match self {
            OtherExpression::Text(t) => OtherExpressionView::Text(t@),
            OtherExpression::Axis(b) => OtherExpressionView::Axis(b@),
            OtherExpression::Tokens(v) => OtherExpressionView::Tokens(tokens_view(v@)),
        }
    }
}

/// An explicit expression after its type hash: more than 20 bytes; the word at byte
/// 16 `0x66` makes it a string (length word at byte 20, then one word per character,
/// shown in single quotes); otherwise the half-word at byte 2 is its length in words,
/// the block ends 4 bytes after that. `PTCD`/`PTCDI` expressions hand out the block
/// from byte 4; flags `2`, `1` (words 1 and 2) make an axis letter of word 3; flag
/// `0x28` with a two-word body gives a tenth of the body's first word; any other body,
/// from byte 16, is expression byte code. Gives the position where the rest starts.
pub open spec fn other_expression_tokens_spec(s: Seq<u8>, ty: Seq<char>) -> Result<(int, OtherExpressionView), ParseFailure> {
    if s.len() <= 20 {
        Err(ParseFailure::Incomplete)
    } else if be_i32_at(s, 16) == 0x66 {
        if s.len() < 24 {
            Err(ParseFailure::Eof)
        } else {
            let n = be_i32_at(s, 20) as int;
            if n < 0 || 24 + 4 * n > s.len() {
                Err(ParseFailure::Eof)
            } else {
                Ok((24 + 4 * n, OtherExpressionView::Text(
                    seq!['\''] + crate::parser::attribute::implicit::word_chars(s, 24, n as nat) + seq!['\''],
                )))
            }
        }
    } else {
        let l = crate::helper::be_u16_at(s, 2) as int;
        let end = 4 * l + 4;
        if ty == "PTCDI"@ || ty == "PTCD"@ {
            if 4 * l > 0xFFFF {
                Err(ParseFailure::OutOfRange)
            } else if end > s.len() {
                Err(ParseFailure::Incomplete)
            } else {
                Ok((end, OtherExpressionView::Axis(s.subrange(4, end))))
            }
        } else if end > s.len() {
            Err(ParseFailure::Incomplete)
        } else if 4 * l > 0xFFFF {
            Err(ParseFailure::OutOfRange)
        } else if end <= 12 {
            Err(ParseFailure::Incomplete)
        } else if be_i32_at(s, 4) == 2 && be_i32_at(s, 8) == 1 {
            Ok((end, OtherExpressionView::Text(
                crate::parser::attribute::expression::short_axis(be_i32_at(s, 12)),
            )))
        } else if be_i32_at(s, 8) == 0x28 && end - 16 == 8 {
            let v = be_i32_at(s, 16) as int;
            if v == i32::MIN {
                Err(ParseFailure::OutOfRange)
            } else {
                Ok((end, OtherExpressionView::Text(
                    crate::text::decimal((if v < 0 { -v } else { v }) as nat / 10),
                )))
            }
        } else {
            match expression_tokens_spec(s.subrange(16, end)) {
                Ok(t) => Ok((end, OtherExpressionView::Tokens(t))),
                Err(e) => Err(e),
            }
        }
    }
}

/// Reads an explicit expression that is not an axis expression (see
/// `other_expression_tokens_spec`); gives the rest and the pair (type, expression).
pub fn parse_other_expression(input: &[u8], expression_type: String, _refno: u64) -> (r: Result<(&[u8], (String, OtherExpression)), ParseFailure>)
    ensures
        match r {
            Ok((rest, (t, v))) => match other_expression_tokens_spec(input@, expression_type@) {
                Ok((at, m)) => rest@ == input@.subrange(at, input@.len() as int) && t@ == expression_type@ && v@ == m,
                Err(_) => false,
            },
            Err(e) => other_expression_tokens_spec(input@, expression_type@) == Err::<(int, OtherExpressionView), ParseFailure>(e),
        },
{
    proof {
        reveal_strlit("PTCDI");
        reveal_strlit("PTCD");
    }
    let len = input.len();
    if len <= 20 {
        return Err(ParseFailure::Incomplete);
    }
    if read_be_i32(input, 16) == 0x66 {
        if len < 24 {
            return Err(ParseFailure::Eof);
        }
        let n = read_be_i32(input, 20);
        if n < 0 || (n as u64) * 4 + 24 > len as u64 {
            return Err(ParseFailure::Eof);
        }
        let n = n as usize;
        let mut text = String::new();
        crate::text::push_char(&mut text, '\'');
        let mut k: usize = 0;
        while k < n
            invariant
                n == be_i32_at(input@, 20),
                24 + 4 * n <= input@.len(),
                len == input@.len(),
                k <= n,
                text@ == seq!['\''] + crate::parser::attribute::implicit::word_chars(input@, 24, k as nat),
            decreases n - k,
        {
            crate::text::push_char(&mut text, input[24 + 4 * k + 3] as char);
            k = k + 1;
            assert(text@ =~= seq!['\''] + crate::parser::attribute::implicit::word_chars(input@, 24, k as nat));
        }
        crate::text::push_char(&mut text, '\'');
        assert(text@ =~= seq!['\''] + crate::parser::attribute::implicit::word_chars(input@, 24, n as nat) + seq!['\'']);
        return Ok((slice_subrange(input, 24 + 4 * n, len), (expression_type, OtherExpression::Text(text))));
    }
    let l = crate::helper::read_be_u16(input, 2) as usize;
    let end = 4 * l + 4;
    if crate::helper::str_is(expression_type.as_str(), "PTCDI") || crate::helper::str_is(expression_type.as_str(), "PTCD") {
        if 4 * l > 0xFFFF {
            return Err(ParseFailure::OutOfRange);
        }
        if end > len {
            return Err(ParseFailure::Incomplete);
        }
        let data = vstd::slice::slice_to_vec(slice_subrange(input, 4, end));
        return Ok((slice_subrange(input, end, len), (expression_type, OtherExpression::Axis(data))));
    }
    if end > len {
        return Err(ParseFailure::Incomplete);
    }
    if 4 * l > 0xFFFF {
        return Err(ParseFailure::OutOfRange);
    }
    if end <= 12 {
        return Err(ParseFailure::Incomplete);
    }
    let rest = slice_subrange(input, end, len);
    let flag1 = read_be_i32(input, 4);
    let flag2 = read_be_i32(input, 8);
    let flag3 = read_be_i32(input, 12);
    if flag1 == 2 && flag2 == 1 {
        let axis = if flag3 == 1 {
            String::from_str("X")
        } else if flag3 == 2 {
            String::from_str("Y")
        } else if flag3 == 3 {
            String::from_str("Z")
        } else {
            String::new()
        };
        return Ok((rest, (expression_type, OtherExpression::Text(axis))));
    }
    if flag2 == 0x28 && end - 16 == 8 {
        let v = read_be_i32(input, 16);
        if v == i32::MIN {
            return Err(ParseFailure::OutOfRange);
        }
        let a: i32 = if v < 0 { -v } else { v };
        let mut t = String::new();
        crate::text::push_decimal(&mut t, (a / 10) as usize);
        return Ok((rest, (expression_type, OtherExpression::Text(t))));
    }
    match expression_tokens(slice_subrange(input, 16, end)) {
        Ok(toks) => Ok((rest, (expression_type, OtherExpression::Tokens(toks)))),
        Err(e) => Err(e),
    }
}


proof fn lemma_fill_plain_prefix(p: Seq<char>, rest: Seq<char>, args: Seq<Seq<char>>)
    requires
        forall|j: int| 0 <= j < p.len() ==> p[j] != '{',
    ensures
        fill_pattern(p + rest, args) == p + fill_pattern(rest, args),
        placeholder_count(p + rest) == placeholder_count(rest),
    decreases p.len(),
{
    if p.len() == 0 {
        assert(p + rest =~= rest);
    } else {
        let t = p + rest;
        assert(t[0] == p[0]);
        assert(t.drop_first() =~= p.drop_first() + rest);
        lemma_fill_plain_prefix(p.drop_first(), rest, args);
        assert(p + fill_pattern(rest, args) =~= seq![p[0]] + (p.drop_first() + fill_pattern(rest, args)));
    }
}

proof fn lemma_fill_one(p1: Seq<char>, p2: Seq<char>, a: Seq<char>)
    requires
        forall|j: int| 0 <= j < p1.len() ==> p1[j] != '{',
        forall|j: int| 0 <= j < p2.len() ==> p2[j] != '{',
    ensures
        fill_pattern(p1 + seq!['{', '}'] + p2, seq![a]) == p1 + a + p2,
        placeholder_count(p1 + seq!['{', '}'] + p2) == 1,
{
    let u = seq!['{', '}'] + p2;
    assert(p1 + seq!['{', '}'] + p2 =~= p1 + u);
    lemma_fill_plain_prefix(p1, u, seq![a]);
    assert(u.subrange(2, u.len() as int) =~= p2 + Seq::<char>::empty());
    assert(seq![a].drop_first() =~= Seq::<Seq<char>>::empty());
    lemma_fill_plain_prefix(p2, Seq::<char>::empty(), Seq::<Seq<char>>::empty());
    assert(p2 + Seq::<char>::empty() =~= p2);
    assert(p1 + (a + p2) =~= p1 + a + p2);
}

proof fn lemma_fill_two(p1: Seq<char>, p2: Seq<char>, p3: Seq<char>, a: Seq<char>, b: Seq<char>)
    requires
        forall|j: int| 0 <= j < p1.len() ==> p1[j] != '{',
        forall|j: int| 0 <= j < p2.len() ==> p2[j] != '{',
        forall|j: int| 0 <= j < p3.len() ==> p3[j] != '{',
    ensures
        fill_pattern(p1 + seq!['{', '}'] + p2 + seq!['{', '}'] + p3, seq![a, b]) == p1 + a + p2 + b + p3,
        placeholder_count(p1 + seq!['{', '}'] + p2 + seq!['{', '}'] + p3) == 2,
{
    let u = seq!['{', '}'] + (p2 + seq!['{', '}'] + p3);
    assert(p1 + seq!['{', '}'] + p2 + seq!['{', '}'] + p3 =~= p1 + u);
    lemma_fill_plain_prefix(p1, u, seq![a, b]);
    assert(u.subrange(2, u.len() as int) =~= p2 + seq!['{', '}'] + p3);
    assert(seq![a, b].drop_first() =~= seq![b]);
    lemma_fill_one(p2, p3, b);
    assert(p1 + (a + (p2 + b + p3)) =~= p1 + a + p2 + b + p3);
}

/// Running the stack machine on two values and an operator of the table that takes
/// two operands gives that operator's pattern filled with the two values, the first
/// pushed in the first place.
pub proof fn law_render_binary_operator(
    a: Seq<char>,
    b: Seq<char>,
    w: i32,
    nums: Seq<Seq<char>>,
    udas: Seq<(u32, Seq<char>)>,
)
    requires
        math_operators_spec().contains_key(w),
        placeholder_count(math_operators_spec()[w]@) == 2,
    ensures
        expression_text_spec(
            seq![TokenView::Text(a), TokenView::Text(b), TokenView::Operator(w), TokenView::End(false)],
            nums,
            udas,
        ) == Ok::<Seq<char>, ParseFailure>(fill_pattern(math_operators_spec()[w]@, seq![a, b])),
{
    let toks = seq![TokenView::Text(a), TokenView::Text(b), TokenView::Operator(w), TokenView::End(false)];
    let st0 = Seq::<Seq<char>>::empty();
    let st1 = st0.push(a);
    let st2 = st1.push(b);
    assert(st2 =~= seq![a, b]);
    assert(st2.subrange(0, 2) =~= seq![a, b]);
    assert(st2.subrange(0, 0) =~= Seq::<Seq<char>>::empty());
    let st3 = st2.subrange(0, 0).push(fill_pattern(math_operators_spec()[w]@, st2.subrange(0, 2)));
    assert(render_from(toks, 3, st3, nums, 0, udas) == Ok::<Seq<char>, ParseFailure>(pop_value(st3).1));
    assert(render_from(toks, 2, st2, nums, 0, udas) == render_from(toks, 3, st3, nums, 0, udas));
    assert(render_from(toks, 1, st1, nums, 0, udas) == render_from(toks, 2, st2, nums, 0, udas));
    assert(render_from(toks, 0, st0, nums, 0, udas) == render_from(toks, 1, st1, nums, 0, udas));
}

/// The comparison operators of the table: each code prints the two operands around
/// its own comparison word, `0x191` EQ, `0x1F5` NEQ, `0x259` GT, `0x25B` LT, `0x25D`
/// GE, `0x25F` LE; the arithmetic codes `0x322` .. `0x325` print `( a + b )`,
/// `( a - b )`, `( a * b )`, `( a / b )`.
pub proof fn law_binary_operator_words(a: Seq<char>, b: Seq<char>)
    ensures
        placeholder_count(math_operators_spec()[0x191i32]@) == 2,
        fill_pattern(math_operators_spec()[0x191i32]@, seq![a, b]) == a + seq![' ', 'E', 'Q', ' '] + b,
        placeholder_count(math_operators_spec()[0x1F5i32]@) == 2,
        fill_pattern(math_operators_spec()[0x1F5i32]@, seq![a, b]) == a + seq![' ', 'N', 'E', 'Q', ' '] + b,
        placeholder_count(math_operators_spec()[0x259i32]@) == 2,
        fill_pattern(math_operators_spec()[0x259i32]@, seq![a, b]) == a + seq![' ', 'G', 'T', ' '] + b,
        placeholder_count(math_operators_spec()[0x25Bi32]@) == 2,
        fill_pattern(math_operators_spec()[0x25Bi32]@, seq![a, b]) == a + seq![' ', 'L', 'T', ' '] + b,
        placeholder_count(math_operators_spec()[0x25Di32]@) == 2,
        fill_pattern(math_operators_spec()[0x25Di32]@, seq![a, b]) == a + seq![' ', 'G', 'E', ' '] + b,
        placeholder_count(math_operators_spec()[0x25Fi32]@) == 2,
        fill_pattern(math_operators_spec()[0x25Fi32]@, seq![a, b]) == a + seq![' ', 'L', 'E', ' '] + b,
        placeholder_count(math_operators_spec()[0x322i32]@) == 2,
        fill_pattern(math_operators_spec()[0x322i32]@, seq![a, b]) == seq!['(', ' '] + a + seq![' ', '+', ' '] + b + seq![' ', ')'],
        placeholder_count(math_operators_spec()[0x323i32]@) == 2,
        fill_pattern(math_operators_spec()[0x323i32]@, seq![a, b]) == seq!['(', ' '] + a + seq![' ', '-', ' '] + b + seq![' ', ')'],
        placeholder_count(math_operators_spec()[0x324i32]@) == 2,
        fill_pattern(math_operators_spec()[0x324i32]@, seq![a, b]) == seq!['(', ' '] + a + seq![' ', '*', ' '] + b + seq![' ', ')'],
        placeholder_count(math_operators_spec()[0x325i32]@) == 2,
        fill_pattern(math_operators_spec()[0x325i32]@, seq![a, b]) == seq!['(', ' '] + a + seq![' ', '/', ' '] + b + seq![' ', ')'],
{
    reveal_strlit("{} EQ {}");
    lemma_fill_two(Seq::<char>::empty(), seq![' ', 'E', 'Q', ' '], Seq::<char>::empty(), a, b);
    assert(math_operators_spec()[0x191i32]@ =~= Seq::<char>::empty() + seq!['{', '}'] + seq![' ', 'E', 'Q', ' '] + seq!['{', '}'] + Seq::<char>::empty());
    assert(Seq::<char>::empty() + a + seq![' ', 'E', 'Q', ' '] + b + Seq::<char>::empty() =~= a + seq![' ', 'E', 'Q', ' '] + b);
    reveal_strlit("{} NEQ {}");
    lemma_fill_two(Seq::<char>::empty(), seq![' ', 'N', 'E', 'Q', ' '], Seq::<char>::empty(), a, b);
    assert(math_operators_spec()[0x1F5i32]@ =~= Seq::<char>::empty() + seq!['{', '}'] + seq![' ', 'N', 'E', 'Q', ' '] + seq!['{', '}'] + Seq::<char>::empty());
    assert(Seq::<char>::empty() + a + seq![' ', 'N', 'E', 'Q', ' '] + b + Seq::<char>::empty() =~= a + seq![' ', 'N', 'E', 'Q', ' '] + b);
    reveal_strlit("{} GT {}");
    lemma_fill_two(Seq::<char>::empty(), seq![' ', 'G', 'T', ' '], Seq::<char>::empty(), a, b);
    assert(math_operators_spec()[0x259i32]@ =~= Seq::<char>::empty() + seq!['{', '}'] + seq![' ', 'G', 'T', ' '] + seq!['{', '}'] + Seq::<char>::empty());
    assert(Seq::<char>::empty() + a + seq![' ', 'G', 'T', ' '] + b + Seq::<char>::empty() =~= a + seq![' ', 'G', 'T', ' '] + b);
    reveal_strlit("{} LT {}");
    lemma_fill_two(Seq::<char>::empty(), seq![' ', 'L', 'T', ' '], Seq::<char>::empty(), a, b);
    assert(math_operators_spec()[0x25Bi32]@ =~= Seq::<char>::empty() + seq!['{', '}'] + seq![' ', 'L', 'T', ' '] + seq!['{', '}'] + Seq::<char>::empty());
    assert(Seq::<char>::empty() + a + seq![' ', 'L', 'T', ' '] + b + Seq::<char>::empty() =~= a + seq![' ', 'L', 'T', ' '] + b);
    reveal_strlit("{} GE {}");
    lemma_fill_two(Seq::<char>::empty(), seq![' ', 'G', 'E', ' '], Seq::<char>::empty(), a, b);
    assert(math_operators_spec()[0x25Di32]@ =~= Seq::<char>::empty() + seq!['{', '}'] + seq![' ', 'G', 'E', ' '] + seq!['{', '}'] + Seq::<char>::empty());
    assert(Seq::<char>::empty() + a + seq![' ', 'G', 'E', ' '] + b + Seq::<char>::empty() =~= a + seq![' ', 'G', 'E', ' '] + b);
    reveal_strlit("{} LE {}");
    lemma_fill_two(Seq::<char>::empty(), seq![' ', 'L', 'E', ' '], Seq::<char>::empty(), a, b);
    assert(math_operators_spec()[0x25Fi32]@ =~= Seq::<char>::empty() + seq!['{', '}'] + seq![' ', 'L', 'E', ' '] + seq!['{', '}'] + Seq::<char>::empty());
    assert(Seq::<char>::empty() + a + seq![' ', 'L', 'E', ' '] + b + Seq::<char>::empty() =~= a + seq![' ', 'L', 'E', ' '] + b);
    reveal_strlit("( {} + {} )");
    lemma_fill_two(seq!['(', ' '], seq![' ', '+', ' '], seq![' ', ')'], a, b);
    assert(math_operators_spec()[0x322i32]@ =~= seq!['(', ' '] + seq!['{', '}'] + seq![' ', '+', ' '] + seq!['{', '}'] + seq![' ', ')']);
    reveal_strlit("( {} - {} )");
    lemma_fill_two(seq!['(', ' '], seq![' ', '-', ' '], seq![' ', ')'], a, b);
    assert(math_operators_spec()[0x323i32]@ =~= seq!['(', ' '] + seq!['{', '}'] + seq![' ', '-', ' '] + seq!['{', '}'] + seq![' ', ')']);
    reveal_strlit("( {} * {} )");
    lemma_fill_two(seq!['(', ' '], seq![' ', '*', ' '], seq![' ', ')'], a, b);
    assert(math_operators_spec()[0x324i32]@ =~= seq!['(', ' '] + seq!['{', '}'] + seq![' ', '*', ' '] + seq!['{', '}'] + seq![' ', ')']);
    reveal_strlit("( {} / {} )");
    lemma_fill_two(seq!['(', ' '], seq![' ', '/', ' '], seq![' ', ')'], a, b);
    assert(math_operators_spec()[0x325i32]@ =~= seq!['(', ' '] + seq!['{', '}'] + seq![' ', '/', ' '] + seq!['{', '}'] + seq![' ', ')']);
}


/// The function operators of the table: each code prints its own function name
/// around its operands: `0x321` `( -a )`, `0x3E9` SQRT, `0x385` SIN, `0x386` COS,
/// `0x387` TAN, `0x388` ASIN, `0x389` ACOS, `0x38A` ATAN, `0x3EB` LOG, `0x3EC` ALOG,
/// `0x3ED` INT, `0x3EE` NINT, `0x3EF` ABS, `0x515` LEN of a quoted operand, `0x522`
/// TRIM, `0x579` REAL of a quoted operand, `0x582` STR; with two operands `0x38B`
/// ATANT, `0x3EA` POW, `0x51C` MAT and `0x529` OCCUR.
pub proof fn law_function_operator_words(a: Seq<char>, b: Seq<char>)
    ensures
        placeholder_count(math_operators_spec()[0x321i32]@) == 1,
        fill_pattern(math_operators_spec()[0x321i32]@, seq![a]) == seq!['(', ' ', '-'] + a + seq![' ', ')'],
        placeholder_count(math_operators_spec()[0x3E9i32]@) == 1,
        fill_pattern(math_operators_spec()[0x3E9i32]@, seq![a]) == seq!['S', 'Q', 'R', 'T', '(', ' '] + a + seq![' ', ')'],
        placeholder_count(math_operators_spec()[0x385i32]@) == 1,
        fill_pattern(math_operators_spec()[0x385i32]@, seq![a]) == seq!['S', 'I', 'N', '(', ' '] + a + seq![' ', ')'],
        placeholder_count(math_operators_spec()[0x386i32]@) == 1,
        fill_pattern(math_operators_spec()[0x386i32]@, seq![a]) == seq!['C', 'O', 'S', '(', ' '] + a + seq![' ', ')'],
        placeholder_count(math_operators_spec()[0x387i32]@) == 1,
        fill_pattern(math_operators_spec()[0x387i32]@, seq![a]) == seq!['T', 'A', 'N', '(', ' '] + a + seq![' ', ')'],
        placeholder_count(math_operators_spec()[0x388i32]@) == 1,
        fill_pattern(math_operators_spec()[0x388i32]@, seq![a]) == seq!['A', 'S', 'I', 'N', '(', ' '] + a + seq![' ', ')'],
        placeholder_count(math_operators_spec()[0x389i32]@) == 1,
        fill_pattern(math_operators_spec()[0x389i32]@, seq![a]) == seq!['A', 'C', 'O', 'S', '(', ' '] + a + seq![' ', ')'],
        placeholder_count(math_operators_spec()[0x38Ai32]@) == 1,
        fill_pattern(math_operators_spec()[0x38Ai32]@, seq![a]) == seq!['A', 'T', 'A', 'N', '(', ' '] + a + seq![' ', ')'],
        placeholder_count(math_operators_spec()[0x3EBi32]@) == 1,
        fill_pattern(math_operators_spec()[0x3EBi32]@, seq![a]) == seq!['L', 'O', 'G', '(', ' '] + a + seq![' ', ')'],
        placeholder_count(math_operators_spec()[0x3ECi32]@) == 1,
        fill_pattern(math_operators_spec()[0x3ECi32]@, seq![a]) == seq!['A', 'L', 'O', 'G', '(', ' '] + a + seq![' ', ')'],
        placeholder_count(math_operators_spec()[0x3EDi32]@) == 1,
        fill_pattern(math_operators_spec()[0x3EDi32]@, seq![a]) == seq!['I', 'N', 'T', '(', ' '] + a + seq![' ', ')'],
        placeholder_count(math_operators_spec()[0x3EEi32]@) == 1,
        fill_pattern(math_operators_spec()[0x3EEi32]@, seq![a]) == seq!['N', 'I', 'N', 'T', '(', ' '] + a + seq![' ', ')'],
        placeholder_count(math_operators_spec()[0x3EFi32]@) == 1,
        fill_pattern(math_operators_spec()[0x3EFi32]@, seq![a]) == seq!['A', 'B', 'S', '(', ' '] + a + seq![' ', ')'],
        placeholder_count(math_operators_spec()[0x515i32]@) == 1,
        fill_pattern(math_operators_spec()[0x515i32]@, seq![a]) == seq!['L', 'E', 'N', '(', ' ', '\''] + a + seq!['\'', ' ', ')'],
        placeholder_count(math_operators_spec()[0x522i32]@) == 1,
        fill_pattern(math_operators_spec()[0x522i32]@, seq![a]) == seq!['T', 'R', 'I', 'M', '(', ' '] + a + seq![' ', ')'],
        placeholder_count(math_operators_spec()[0x579i32]@) == 1,
        fill_pattern(math_operators_spec()[0x579i32]@, seq![a]) == seq!['R', 'E', 'A', 'L', '(', ' ', '\''] + a + seq!['\'', ' ', ')'],
        placeholder_count(math_operators_spec()[0x582i32]@) == 1,
        fill_pattern(math_operators_spec()[0x582i32]@, seq![a]) == seq!['S', 'T', 'R', '(', ' '] + a + seq![' ', ')'],
        placeholder_count(math_operators_spec()[0x38Bi32]@) == 2,
        fill_pattern(math_operators_spec()[0x38Bi32]@, seq![a, b]) == seq!['A', 'T', 'A', 'N', 'T', '(', ' '] + a + seq![',', ' '] + b + seq![' ', ')'],
        placeholder_count(math_operators_spec()[0x3EAi32]@) == 2,
        fill_pattern(math_operators_spec()[0x3EAi32]@, seq![a, b]) == seq!['P', 'O', 'W', '(', ' '] + a + seq![',', ' '] + b + seq![' ', ')'],
        placeholder_count(math_operators_spec()[0x51Ci32]@) == 2,
        fill_pattern(math_operators_spec()[0x51Ci32]@, seq![a, b]) == seq!['M', 'A', 'T', '(', ' '] + a + seq![',', ' ', '\''] + b + seq!['\'', ' ', ')'],
        placeholder_count(math_operators_spec()[0x529i32]@) == 2,
        fill_pattern(math_operators_spec()[0x529i32]@, seq![a, b]) == seq!['O', 'C', 'C', 'U', 'R', '(', ' ', '\''] + a + seq!['\'', ',', ' ', '\''] + b + seq!['\'', ' ', ')'],
{
    reveal_strlit("( -{} )");
    lemma_fill_one(seq!['(', ' ', '-'], seq![' ', ')'], a);
    assert(math_operators_spec()[0x321i32]@ =~= seq!['(', ' ', '-'] + seq!['{', '}'] + seq![' ', ')']);
    reveal_strlit("SQRT( {} )");
    lemma_fill_one(seq!['S', 'Q', 'R', 'T', '(', ' '], seq![' ', ')'], a);
    assert(math_operators_spec()[0x3E9i32]@ =~= seq!['S', 'Q', 'R', 'T', '(', ' '] + seq!['{', '}'] + seq![' ', ')']);
    reveal_strlit("SIN( {} )");
    lemma_fill_one(seq!['S', 'I', 'N', '(', ' '], seq![' ', ')'], a);
    assert(math_operators_spec()[0x385i32]@ =~= seq!['S', 'I', 'N', '(', ' '] + seq!['{', '}'] + seq![' ', ')']);
    reveal_strlit("COS( {} )");
    lemma_fill_one(seq!['C', 'O', 'S', '(', ' '], seq![' ', ')'], a);
    assert(math_operators_spec()[0x386i32]@ =~= seq!['C', 'O', 'S', '(', ' '] + seq!['{', '}'] + seq![' ', ')']);
    reveal_strlit("TAN( {} )");
    lemma_fill_one(seq!['T', 'A', 'N', '(', ' '], seq![' ', ')'], a);
    assert(math_operators_spec()[0x387i32]@ =~= seq!['T', 'A', 'N', '(', ' '] + seq!['{', '}'] + seq![' ', ')']);
    reveal_strlit("ASIN( {} )");
    lemma_fill_one(seq!['A', 'S', 'I', 'N', '(', ' '], seq![' ', ')'], a);
    assert(math_operators_spec()[0x388i32]@ =~= seq!['A', 'S', 'I', 'N', '(', ' '] + seq!['{', '}'] + seq![' ', ')']);
    reveal_strlit("ACOS( {} )");
    lemma_fill_one(seq!['A', 'C', 'O', 'S', '(', ' '], seq![' ', ')'], a);
    assert(math_operators_spec()[0x389i32]@ =~= seq!['A', 'C', 'O', 'S', '(', ' '] + seq!['{', '}'] + seq![' ', ')']);
    reveal_strlit("ATAN( {} )");
    lemma_fill_one(seq!['A', 'T', 'A', 'N', '(', ' '], seq![' ', ')'], a);
    assert(math_operators_spec()[0x38Ai32]@ =~= seq!['A', 'T', 'A', 'N', '(', ' '] + seq!['{', '}'] + seq![' ', ')']);
    reveal_strlit("LOG( {} )");
    lemma_fill_one(seq!['L', 'O', 'G', '(', ' '], seq![' ', ')'], a);
    assert(math_operators_spec()[0x3EBi32]@ =~= seq!['L', 'O', 'G', '(', ' '] + seq!['{', '}'] + seq![' ', ')']);
    reveal_strlit("ALOG( {} )");
    lemma_fill_one(seq!['A', 'L', 'O', 'G', '(', ' '], seq![' ', ')'], a);
    assert(math_operators_spec()[0x3ECi32]@ =~= seq!['A', 'L', 'O', 'G', '(', ' '] + seq!['{', '}'] + seq![' ', ')']);
    reveal_strlit("INT( {} )");
    lemma_fill_one(seq!['I', 'N', 'T', '(', ' '], seq![' ', ')'], a);
    assert(math_operators_spec()[0x3EDi32]@ =~= seq!['I', 'N', 'T', '(', ' '] + seq!['{', '}'] + seq![' ', ')']);
    reveal_strlit("NINT( {} )");
    lemma_fill_one(seq!['N', 'I', 'N', 'T', '(', ' '], seq![' ', ')'], a);
    assert(math_operators_spec()[0x3EEi32]@ =~= seq!['N', 'I', 'N', 'T', '(', ' '] + seq!['{', '}'] + seq![' ', ')']);
    reveal_strlit("ABS( {} )");
    lemma_fill_one(seq!['A', 'B', 'S', '(', ' '], seq![' ', ')'], a);
    assert(math_operators_spec()[0x3EFi32]@ =~= seq!['A', 'B', 'S', '(', ' '] + seq!['{', '}'] + seq![' ', ')']);
    reveal_strlit("LEN( '{}' )");
    lemma_fill_one(seq!['L', 'E', 'N', '(', ' ', '\''], seq!['\'', ' ', ')'], a);
    assert(math_operators_spec()[0x515i32]@ =~= seq!['L', 'E', 'N', '(', ' ', '\''] + seq!['{', '}'] + seq!['\'', ' ', ')']);
    reveal_strlit("TRIM( {} )");
    lemma_fill_one(seq!['T', 'R', 'I', 'M', '(', ' '], seq![' ', ')'], a);
    assert(math_operators_spec()[0x522i32]@ =~= seq!['T', 'R', 'I', 'M', '(', ' '] + seq!['{', '}'] + seq![' ', ')']);
    reveal_strlit("REAL( '{}' )");
    lemma_fill_one(seq!['R', 'E', 'A', 'L', '(', ' ', '\''], seq!['\'', ' ', ')'], a);
    assert(math_operators_spec()[0x579i32]@ =~= seq!['R', 'E', 'A', 'L', '(', ' ', '\''] + seq!['{', '}'] + seq!['\'', ' ', ')']);
    reveal_strlit("STR( {} )");
    lemma_fill_one(seq!['S', 'T', 'R', '(', ' '], seq![' ', ')'], a);
    assert(math_operators_spec()[0x582i32]@ =~= seq!['S', 'T', 'R', '(', ' '] + seq!['{', '}'] + seq![' ', ')']);
    reveal_strlit("ATANT( {}, {} )");
    lemma_fill_two(seq!['A', 'T', 'A', 'N', 'T', '(', ' '], seq![',', ' '], seq![' ', ')'], a, b);
    assert(math_operators_spec()[0x38Bi32]@ =~= seq!['A', 'T', 'A', 'N', 'T', '(', ' '] + seq!['{', '}'] + seq![',', ' '] + seq!['{', '}'] + seq![' ', ')']);
    reveal_strlit("POW( {}, {} )");
    lemma_fill_two(seq!['P', 'O', 'W', '(', ' '], seq![',', ' '], seq![' ', ')'], a, b);
    assert(math_operators_spec()[0x3EAi32]@ =~= seq!['P', 'O', 'W', '(', ' '] + seq!['{', '}'] + seq![',', ' '] + seq!['{', '}'] + seq![' ', ')']);
    reveal_strlit("MAT( {}, '{}' )");
    lemma_fill_two(seq!['M', 'A', 'T', '(', ' '], seq![',', ' ', '\''], seq!['\'', ' ', ')'], a, b);
    assert(math_operators_spec()[0x51Ci32]@ =~= seq!['M', 'A', 'T', '(', ' '] + seq!['{', '}'] + seq![',', ' ', '\''] + seq!['{', '}'] + seq!['\'', ' ', ')']);
    reveal_strlit("OCCUR( '{}', '{}' )");
    lemma_fill_two(seq!['O', 'C', 'C', 'U', 'R', '(', ' ', '\''], seq!['\'', ',', ' ', '\''], seq!['\'', ' ', ')'], a, b);
    assert(math_operators_spec()[0x529i32]@ =~= seq!['O', 'C', 'C', 'U', 'R', '(', ' ', '\''] + seq!['{', '}'] + seq!['\'', ',', ' ', '\''] + seq!['{', '}'] + seq!['\'', ' ', ')']);
}

} // verus!
