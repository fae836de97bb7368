//! Big-endian integer decoding and the keys of the parameter context.
use vstd::prelude::*;
use crate::db_tool::{db1_dehash, dehash_spec, UDA_HASH_BASE, NAME_HASH_BASE};
use crate::text::prefixed_decimal;

verus! {

/// The big-endian `u16` made of `b[off]`, `b[off + 1]`.
pub open spec fn be_u16_at(b: Seq<u8>, off: int) -> u16 {
    (b[off] as int * 256 + b[off + 1] as int) as u16
}

/// The big-endian `u32` made of `b[off]` .. `b[off + 3]`.
pub open spec fn be_u32_at(b: Seq<u8>, off: int) -> u32 {
    (b[off] as int * 16777216 + b[off + 1] as int * 65536 + b[off + 2] as int * 256
        + b[off + 3] as int) as u32
}

/// The big-endian `i32` made of `b[off]` .. `b[off + 3]` (two's complement).
pub open spec fn be_i32_at(b: Seq<u8>, off: int) -> i32 {
    be_u32_at(b, off) as i32
}

/// The big-endian `u64` made of `b[off]` .. `b[off + 7]`.
pub open spec fn be_u64_at(b: Seq<u8>, off: int) -> u64 {
    (be_u32_at(b, off) as int * 4294967296 + be_u32_at(b, off + 4) as int) as u64
}

/// Reads the big-endian `u16` at `off`.
pub fn read_be_u16(b: &[u8], off: usize) -> (v: u16)
    requires
        off + 2 <= b@.len(),
    ensures
        v == be_u16_at(b@, off as int),
{
    (b[off] as u16) * 256 + (b[off + 1] as u16)
}

/// Reads the big-endian `u32` at `off`.
pub fn read_be_u32(b: &[u8], off: usize) -> (v: u32)
    requires
        off + 4 <= b@.len(),
    ensures
        v == be_u32_at(b@, off as int),
{
    (b[off] as u32) * 16777216 + (b[off + 1] as u32) * 65536 + (b[off + 2] as u32) * 256 + (b[off
        + 3] as u32)
}

/// Reads the big-endian `i32` at `off`.
pub fn read_be_i32(b: &[u8], off: usize) -> (v: i32)
    requires
        off + 4 <= b@.len(),
    ensures
        v == be_i32_at(b@, off as int),
{
    read_be_u32(b, off) as i32
}

/// Reads the big-endian `u64` at `off`.
pub fn read_be_u64(b: &[u8], off: usize) -> (v: u64)
    requires
        off + 8 <= b@.len(),
    ensures
        v == be_u64_at(b@, off as int),
{
    let n = b.len();
    let hi = read_be_u32(b, off);
    let lo = read_be_u32(b, off + 4);
    (hi as u64) * 4294967296 + (lo as u64)
}

/// `u16::from_be_bytes` of a two-byte slice.
pub fn parse_to_u16(input: &[u8]) -> (v: u16)
    requires
        input@.len() == 2,
    ensures
        v == be_u16_at(input@, 0),
{
    read_be_u16(input, 0)
}

/// `i32::from_be_bytes` of a four-byte slice.
pub fn parse_to_i32(input: &[u8]) -> (v: i32)
    requires
        input@.len() == 4,
    ensures
        v == be_i32_at(input@, 0),
{
    read_be_i32(input, 0)
}

/// `u32::from_be_bytes` of a four-byte slice.
pub fn parse_to_u32(input: &[u8]) -> (v: u32)
    requires
        input@.len() == 4,
    ensures
        v == be_u32_at(input@, 0),
{
    read_be_u32(input, 0)
}

/// The noun name of a four-byte big-endian hash.
pub fn convert_u32_to_noun(input: &[u8]) -> (s: String)
    requires
        input@.len() == 4,
        be_u32_at(input@, 0) > UDA_HASH_BASE || be_u32_at(input@, 0) >= NAME_HASH_BASE,
    ensures
        s@ == dehash_spec(be_u32_at(input@, 0)),
{
    db1_dehash(parse_to_u32(input))
}

/// The context key that `convert_to_context_key` gives for `expr` at position `i`,
/// and the new position: `PARA`/`PARAM`/`CPAR` read the next word as a parameter
/// number, `IPAR`/`IPARAM` an insulation parameter, `DESP`/`DDESP` a design parameter,
/// `DESIGN PARAM` skips one word first, `ANGL` is `ANGL` itself, anything else is empty.
pub open spec fn context_key_spec(expr: Seq<char>, i: int, strs: Seq<Seq<char>>) -> (Seq<char>, int) {
    if expr == "PARA"@ || expr == "PARAM"@ || expr == "CPAR"@ {
        ("PARAM"@ + strs[i + 1], i + 1)
    } else if expr == "ANGL"@ {
        ("ANGL"@, i)
    } else if expr == "IPAR"@ || expr == "IPARAM"@ {
        ("IPARAM"@ + strs[i + 1], i + 1)
    } else if expr == "DESP"@ || expr == "DDESP"@ {
        ("DESP"@ + strs[i + 1], i + 1)
    } else if expr == "DESIGN PARAM"@ {
        ("DESP"@ + strs[i + 2], i + 2)
    } else {
        (Seq::<char>::empty(), i)
    }
}

/// The numbered parameter words read the word after position `i` as their number:
/// `PARA`, `PARAM` and `CPAR` all name `PARAM` followed by that word, `IPAR` and
/// `IPARAM` name `IPARAM` followed by it, `DESP` and `DDESP` name `DESP` followed by
/// it, each moving the position on by one; `DESIGN PARAM` skips a word and names
/// `DESP` followed by the next one; `ANGL` names itself and stays.
pub proof fn law_context_key_numbered(i: int, strs: Seq<Seq<char>>)
    ensures
        context_key_spec("PARA"@, i, strs) == (seq!['P', 'A', 'R', 'A', 'M'] + strs[i + 1], i + 1),
        context_key_spec("PARAM"@, i, strs) == (seq!['P', 'A', 'R', 'A', 'M'] + strs[i + 1], i + 1),
        context_key_spec("CPAR"@, i, strs) == (seq!['P', 'A', 'R', 'A', 'M'] + strs[i + 1], i + 1),
        context_key_spec("IPAR"@, i, strs) == (seq!['I', 'P', 'A', 'R', 'A', 'M'] + strs[i + 1], i + 1),
        context_key_spec("IPARAM"@, i, strs) == (seq!['I', 'P', 'A', 'R', 'A', 'M'] + strs[i + 1], i + 1),
        context_key_spec("DESP"@, i, strs) == (seq!['D', 'E', 'S', 'P'] + strs[i + 1], i + 1),
        context_key_spec("DDESP"@, i, strs) == (seq!['D', 'E', 'S', 'P'] + strs[i + 1], i + 1),
        context_key_spec("DESIGN PARAM"@, i, strs) == (seq!['D', 'E', 'S', 'P'] + strs[i + 2], i + 2),
        context_key_spec("ANGL"@, i, strs) == (seq!['A', 'N', 'G', 'L'], i),
{
    reveal_strlit("PARA");
    reveal_strlit("PARAM");
    reveal_strlit("CPAR");
    reveal_strlit("IPAR");
    reveal_strlit("IPARAM");
    reveal_strlit("DESP");
    reveal_strlit("DDESP");
    reveal_strlit("DESIGN PARAM");
    reveal_strlit("ANGL");
    assert("PARAM"@.len() != "PARA"@.len());
    assert("CPAR"@[0] != "PARA"@[0]);
    assert("CPAR"@.len() != "PARAM"@.len());
    assert("ANGL"@[0] != "PARA"@[0]);
    assert("ANGL"@.len() != "PARAM"@.len());
    assert("ANGL"@[0] != "CPAR"@[0]);
    assert("IPAR"@[0] != "PARA"@[0]);
    assert("IPAR"@.len() != "PARAM"@.len());
    assert("IPAR"@[0] != "CPAR"@[0]);
    assert("IPAR"@[0] != "ANGL"@[0]);
    assert("IPARAM"@.len() != "PARA"@.len());
    assert("IPARAM"@.len() != "PARAM"@.len());
    assert("IPARAM"@.len() != "CPAR"@.len());
    assert("IPARAM"@.len() != "ANGL"@.len());
    assert("IPARAM"@.len() != "IPAR"@.len());
    assert("DESP"@[0] != "PARA"@[0]);
    assert("DESP"@.len() != "PARAM"@.len());
    assert("DESP"@[0] != "CPAR"@[0]);
    assert("DESP"@[0] != "ANGL"@[0]);
    assert("DESP"@[0] != "IPAR"@[0]);
    assert("DESP"@.len() != "IPARAM"@.len());
    assert("DDESP"@.len() != "PARA"@.len());
    assert("DDESP"@[0] != "PARAM"@[0]);
    assert("DDESP"@.len() != "CPAR"@.len());
    assert("DDESP"@.len() != "ANGL"@.len());
    assert("DDESP"@.len() != "IPAR"@.len());
    assert("DDESP"@.len() != "IPARAM"@.len());
    assert("DDESP"@.len() != "DESP"@.len());
    assert("DESIGN PARAM"@.len() != "PARA"@.len());
    assert("DESIGN PARAM"@.len() != "PARAM"@.len());
    assert("DESIGN PARAM"@.len() != "CPAR"@.len());
    assert("DESIGN PARAM"@.len() != "ANGL"@.len());
    assert("DESIGN PARAM"@.len() != "IPAR"@.len());
    assert("DESIGN PARAM"@.len() != "IPARAM"@.len());
    assert("DESIGN PARAM"@.len() != "DESP"@.len());
    assert("DESIGN PARAM"@.len() != "DDESP"@.len());
    assert("PARAM"@ =~= seq!['P', 'A', 'R', 'A', 'M']);
    assert("IPARAM"@ =~= seq!['I', 'P', 'A', 'R', 'A', 'M']);
    assert("DESP"@ =~= seq!['D', 'E', 'S', 'P']);
    assert("ANGL"@ =~= seq!['A', 'N', 'G', 'L']);
}

/// Whether `context_key_spec` reads a word after `i` for `expr`, and how far.
pub open spec fn context_key_reach(expr: Seq<char>) -> int {
    if expr == "PARA"@ || expr == "PARAM"@ || expr == "CPAR"@ || expr == "IPAR"@ || expr
        == "IPARAM"@ || expr == "DESP"@ || expr == "DDESP"@ {
        1
    } else if expr == "DESIGN PARAM"@ {
        2
    } else {
        0
    }
}

/// Equality of a string slice with a literal, by characters.
pub(crate) fn str_is(s: &str, lit: &str) -> (r: bool)
    ensures
        r == (s@ == lit@),
{
    let a = crate::text::chars_of(s);
    let b = crate::text::chars_of(lit);
    crate::text::chars_eq(&a, &b)
}

/// Maps an expression word to the key under which its value is kept in the
/// parameter context, advancing `i` past the words the key consumes.
/// The result is always `Some`; an unknown word gives the empty key.
pub fn convert_to_context_key(expr: &str, i: &mut usize, strs: &Vec<String>) -> (r: Option<String>)
    requires
        context_key_reach(expr@) > 0 ==> *old(i) + context_key_reach(expr@) < strs@.len(),
    ensures
        r is Some,
        r->0@ == context_key_spec(expr@, *old(i) as int, strs@.map_values(|s: String| s@)).0,
        *final(i) == context_key_spec(expr@, *old(i) as int, strs@.map_values(|s: String| s@)).1,
{
    proof {
        reveal_strlit("PARA");
        reveal_strlit("PARAM");
        reveal_strlit("ANGL");
        reveal_strlit("IPAR");
        reveal_strlit("IPARAM");
        reveal_strlit("DESP");
        reveal_strlit("DDESP");
        reveal_strlit("DESIGN PARAM");
        reveal_strlit("CPAR");
    }
    let n = strs.len();
    if str_is(expr, "PARA") || str_is(expr, "PARAM") || str_is(expr, "CPAR") {
        *i = *i + 1;
        let mut k = String::from_str("PARAM");
        k.append(strs[*i].as_str());
        Some(k)
    } else if str_is(expr, "ANGL") {
        Some(String::from_str("ANGL"))
    } else if str_is(expr, "IPAR") || str_is(expr, "IPARAM") {
        *i = *i + 1;
        let mut k = String::from_str("IPARAM");
        k.append(strs[*i].as_str());
        Some(k)
    } else if str_is(expr, "DESP") || str_is(expr, "DDESP") {
        *i = *i + 1;
        let mut k = String::from_str("DESP");
        k.append(strs[*i].as_str());
        Some(k)
    } else if str_is(expr, "DESIGN PARAM") {
        *i = *i + 2;
        let mut k = String::from_str("DESP");
        k.append(strs[*i].as_str());
        Some(k)
    } else {
        Some(String::new())
    }
}

} // verus!
