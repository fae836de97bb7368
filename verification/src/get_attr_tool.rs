//! Keys of the parameter context named by the words of a catalogue expression.
use vstd::prelude::*;
use crate::helper::str_is;

verus! {

/// The key that a word of an expression names in the parameter context, and the
/// position of the last word it reads: `PARA`/`PARAM`, `IPAR`/`IPARAM` and `DESP`
/// take the word after position `i` as their number; `ANGL` names `DDANGLE`;
/// any other word names the empty key.
pub open spec fn expr_context_key(expr: Seq<char>, i: int, strs: Seq<Seq<char>>) -> (Seq<char>, int) {
    if expr == "PARA"@ || expr == "PARAM"@ {
        ("PARAM"@ + strs[i + 1], i + 1)
    } else if expr == "ANGL"@ {
        ("DDANGLE"@, i)
    } else if expr == "IPAR"@ || expr == "IPARAM"@ {
        ("IPARAM"@ + strs[i + 1], i + 1)
    } else if expr == "DESP"@ {
        ("DESP"@ + strs[i + 1], i + 1)
    } else {
        (Seq::<char>::empty(), i)
    }
}

/// Whether `expr_context_key` reads the word after position `i`.
pub open spec fn expr_reads_number(expr: Seq<char>) -> bool {
    expr == "PARA"@ || expr == "PARAM"@ || expr == "IPAR"@ || expr == "IPARAM"@ || expr == "DESP"@
}

/// The numbered parameter words read the word after position `i` as their number:
/// `PARA` and `PARAM` both name `PARAM` followed by that word, `IPAR` and `IPARAM`
/// both name `IPARAM` followed by it, `DESP` names `DESP` followed by it, and each
/// moves the position on by one; `ANGL` names `DDANGLE` and stays.
pub proof fn law_expr_context_key_numbered(i: int, strs: Seq<Seq<char>>)
    ensures
        expr_context_key("PARA"@, i, strs) == (seq!['P', 'A', 'R', 'A', 'M'] + strs[i + 1], i + 1),
        expr_context_key("PARAM"@, i, strs) == (seq!['P', 'A', 'R', 'A', 'M'] + strs[i + 1], i + 1),
        expr_context_key("IPAR"@, i, strs) == (seq!['I', 'P', 'A', 'R', 'A', 'M'] + strs[i + 1], i + 1),
        expr_context_key("IPARAM"@, i, strs) == (seq!['I', 'P', 'A', 'R', 'A', 'M'] + strs[i + 1], i + 1),
        expr_context_key("DESP"@, i, strs) == (seq!['D', 'E', 'S', 'P'] + strs[i + 1], i + 1),
        expr_context_key("ANGL"@, i, strs) == (seq!['D', 'D', 'A', 'N', 'G', 'L', 'E'], i),
{
    reveal_strlit("PARA");
    reveal_strlit("PARAM");
    reveal_strlit("IPAR");
    reveal_strlit("IPARAM");
    reveal_strlit("DESP");
    reveal_strlit("ANGL");
    reveal_strlit("DDANGLE");
    assert("PARAM"@.len() != "PARA"@.len());
    assert("ANGL"@[0] != "PARA"@[0]);
    assert("ANGL"@.len() != "PARAM"@.len());
    assert("IPAR"@[0] != "PARA"@[0]);
    assert("IPAR"@.len() != "PARAM"@.len());
    assert("IPAR"@[0] != "ANGL"@[0]);
    assert("IPARAM"@.len() != "PARA"@.len());
    assert("IPARAM"@.len() != "PARAM"@.len());
    assert("IPARAM"@.len() != "ANGL"@.len());
    assert("IPARAM"@.len() != "IPAR"@.len());
    assert("DESP"@[0] != "PARA"@[0]);
    assert("DESP"@.len() != "PARAM"@.len());
    assert("DESP"@[0] != "ANGL"@[0]);
    assert("DESP"@[0] != "IPAR"@[0]);
    assert("DESP"@.len() != "IPARAM"@.len());
    assert("PARAM"@ =~= seq!['P', 'A', 'R', 'A', 'M']);
    assert("IPARAM"@ =~= seq!['I', 'P', 'A', 'R', 'A', 'M']);
    assert("DESP"@ =~= seq!['D', 'E', 'S', 'P']);
    assert("DDANGLE"@ =~= seq!['D', 'D', 'A', 'N', 'G', 'L', 'E']);
}

/// Maps a word of an expression to its key in the parameter context, moving `i`
/// to the last word read. The result is always `Some`; an unknown word gives the
/// empty key.
pub fn convert_to_context_key(expr: &str, i: &mut usize, strs: &Vec<String>) -> (r: Option<String>)
    requires
        expr_reads_number(expr@) ==> *old(i) + 1 < strs@.len(),
    ensures
        r is Some,
        r->0@ == expr_context_key(expr@, *old(i) as int, strs@.map_values(|s: String| s@)).0,
        *final(i) == expr_context_key(expr@, *old(i) as int, strs@.map_values(|s: String| s@)).1,
{
    proof {
        reveal_strlit("PARA");
        reveal_strlit("PARAM");
        reveal_strlit("IPAR");
        reveal_strlit("IPARAM");
        reveal_strlit("DESP");
    }
    assert(strs.len() == strs@.len());
    if str_is(expr, "PARA") || str_is(expr, "PARAM") {
        *i = *i + 1;
        let mut k = String::from_str("PARAM");
        k.append(strs[*i].as_str());
        Some(k)
    } else if str_is(expr, "ANGL") {
        Some(String::from_str("DDANGLE"))
    } else if str_is(expr, "IPAR") || str_is(expr, "IPARAM") {
        *i = *i + 1;
        let mut k = String::from_str("IPARAM");
        k.append(strs[*i].as_str());
        Some(k)
    } else if str_is(expr, "DESP") {
        *i = *i + 1;
        let mut k = String::from_str("DESP");
        k.append(strs[*i].as_str());
        Some(k)
    } else {
        Some(String::new())
    }
}

} // verus!
