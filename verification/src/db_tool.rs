//! The `db1` name hash of the database: the reverse mapping from a hash to a name.
use vstd::prelude::*;
use crate::text::push_char;

verus! {

/// Hashes above this value belong to user-defined attributes (UDA).
pub const UDA_HASH_BASE: u32 = 0x171FAD39;
/// The hash of the empty name; ordinary names are base-27 digits above it.
pub const NAME_HASH_BASE: u32 = 0x81BF1;

/// Base-27 digits of `v`, least significant first, each shown as `'@' + digit`.
pub open spec fn base27_name(v: nat) -> Seq<char>
    decreases v,
{
    if v == 0 {
        seq![]
    } else {
        seq![(((v % 27) + 64) as u8) as char] + base27_name(v / 27)
    }
}

/// At most `n` base-64 digits of `v`, least significant first, each shown as `' ' + digit`.
pub open spec fn base64_name(v: nat, n: nat) -> Seq<char>
    decreases n,
{
    if n == 0 || v == 0 {
        seq![]
    } else {
        seq![(((v % 64) + 32) as u8) as char] + base64_name(v / 64, (n - 1) as nat)
    }
}

/// The name that `db1_dehash` gives for `hash`.
pub open spec fn dehash_spec(hash: u32) -> Seq<char> {
    if hash > UDA_HASH_BASE {
        seq![':'] + base64_name(((hash - UDA_HASH_BASE) % 0x1000000) as nat, 6)
    } else {
        base27_name((hash - NAME_HASH_BASE) as nat)
    }
}

/// Turns a `db1` hash back into its name. A hash above `UDA_HASH_BASE` is a
/// user-defined attribute and reads as `':'` followed by up to six base-64 digits;
/// any other hash is the base-27 number `hash - NAME_HASH_BASE`.
pub fn db1_dehash(hash: u32) -> (result: String)
    requires
        hash > UDA_HASH_BASE || hash >= NAME_HASH_BASE,
    ensures
        result@ == dehash_spec(hash),
{
    let mut result = String::new();
    if hash > UDA_HASH_BASE {
        let v0: i32 = ((hash - UDA_HASH_BASE) % 0x1000000) as i32;
        let mut v8: i32 = v0;
        push_char(&mut result, ':');
        let mut i: usize = 0;
        while i < 6 && v8 > 0
            invariant
                0 <= v8,
                i <= 6,
                seq![':'] + base64_name(v0 as nat, 6) == result@ + base64_name(v8 as nat, (6 - i) as nat),
            decreases 6 - i,
        {
            let d = v8 & 0x3F;
            assert(d == v8 % 64) by (bit_vector)
                requires
                    v8 >= 0,
                    d == v8 & 0x3F,
            ;
            let c = ((d + 32) as u8) as char;
            let ghost before = result@;
            push_char(&mut result, c);
            proof {
                assert(base64_name(v8 as nat, (6 - i) as nat) == seq![c] + base64_name(
                    (v8 / 64) as nat,
                    (6 - i - 1) as nat,
                ));
                assert(result@ == before + seq![c]);
                assert(before + base64_name(v8 as nat, (6 - i) as nat) =~= result@
                    + base64_name((v8 / 64) as nat, (6 - i - 1) as nat));
            }
            v8 = v8 / 64;
            i = i + 1;
        }
        assert(base64_name(v8 as nat, (6 - i) as nat) =~= seq![]);
        assert(result@ =~= seq![':'] + base64_name(v0 as nat, 6));
    } else {
        let v0: i32 = (hash - NAME_HASH_BASE) as i32;
        let mut v6: i32 = v0;
        while v6 > 0
            invariant
                0 <= v6,
                base27_name(v0 as nat) == result@ + base27_name(v6 as nat),
            decreases v6,
        {
            let c = ((v6 % 27 + 64) as u8) as char;
            let ghost before = result@;
            push_char(&mut result, c);
            assert(before + base27_name(v6 as nat) =~= result@ + base27_name((v6 / 27) as nat));
            v6 = v6 / 27;
        }
        assert(result@ =~= base27_name(v0 as nat));
    }
    result
}

/// The number that a name stands for when its characters are base-27 digits
/// `'@' + d`, least significant first.
pub open spec fn base27_value(s: Seq<char>) -> int
    decreases s.len(),
{
    if s.len() == 0 {
        0
    } else {
        (s[0] as int - 64) + 27 * base27_value(s.drop_first())
    }
}

proof fn lemma_base27_name_digits(v: nat)
    ensures
        forall|i: int|
            0 <= i < base27_name(v).len() ==> 64 <= (#[trigger] base27_name(v)[i]) as u32 <= 90,
        base27_value(base27_name(v)) == v,
    decreases v,
{
    if v > 0 {
        lemma_base27_name_digits(v / 27);
        let n = base27_name(v);
        let c = (((v % 27) + 64) as u8) as char;
        assert(c as int == (v % 27) + 64);
        assert(n[0] == c);
        assert(n.drop_first() =~= base27_name(v / 27));
        assert forall|i: int| 0 <= i < n.len() implies 64 <= (#[trigger] n[i]) as u32 <= 90 by {
            if i > 0 {
                assert(n[i] == base27_name(v / 27)[i - 1]);
            }
        }
    }
}

/// The name of an ordinary (not user-defined) hash is written in the digits
/// `'@'..='Z'`, and read as a base-27 number, least significant digit first, it is
/// the hash minus the hash of the empty name: `db1_dehash` inverts the name hash.
pub proof fn law_dehash_ordinary_name(hash: u32)
    requires
        NAME_HASH_BASE <= hash <= UDA_HASH_BASE,
    ensures
        forall|i: int|
            0 <= i < dehash_spec(hash).len() ==> 64 <= (#[trigger] dehash_spec(hash)[i]) as u32 <= 90,
        base27_value(dehash_spec(hash)) == hash - NAME_HASH_BASE,
{
    lemma_base27_name_digits((hash - NAME_HASH_BASE) as nat);
}

proof fn lemma_name_char_injective(x: nat, y: nat)
    requires
        x < 27,
        y < 27,
        ((x + 64) as u8) as char == ((y + 64) as u8) as char,
    ensures
        x == y,
{
    assert(((x + 64) as u8) as char as int == x + 64);
    assert(((y + 64) as u8) as char as int == y + 64);
}

/// Distinct numbers have distinct base-27 names.
pub proof fn lemma_base27_name_injective(a: nat, b: nat)
    requires
        base27_name(a) == base27_name(b),
    ensures
        a == b,
    decreases a,
{
    if a == 0 || b == 0 {
        if a != b {
            if a == 0 {
                assert(base27_name(b).len() > 0);
            } else {
                assert(base27_name(a).len() > 0);
            }
        }
    } else {
        let na = base27_name(a);
        let nb = base27_name(b);
        assert(na[0] == nb[0]);
        lemma_name_char_injective(a % 27, b % 27);
        assert(na.drop_first() =~= base27_name(a / 27));
        assert(nb.drop_first() =~= base27_name(b / 27));
        lemma_base27_name_injective(a / 27, b / 27);
    }
}

/// Names are unambiguous: two hashes of ordinary names (not user-defined attributes)
/// that `db1_dehash` turns into the same name are the same hash.
pub proof fn lemma_dehash_injective(a: u32, b: u32)
    requires
        NAME_HASH_BASE <= a <= UDA_HASH_BASE,
        NAME_HASH_BASE <= b <= UDA_HASH_BASE,
        dehash_spec(a) == dehash_spec(b),
    ensures
        a == b,
{
    lemma_base27_name_injective((a - NAME_HASH_BASE) as nat, (b - NAME_HASH_BASE) as nat);
}

} // verus!
