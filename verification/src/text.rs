//! Character-level helpers shared by the parsers: building strings, decimal
//! formatting, whitespace trimming, ASCII upper-casing and the lexicographic
//! order that `String` comparison follows.
use vstd::prelude::*;

verus! {

/// Appends one character to a `String` (`String::push` from std).
/// Trusted: the new contents are the old contents followed by `c`.
#[verifier::external_body]
pub(crate) fn push_char(s: &mut String, c: char)
    ensures
        final(s)@ == old(s)@.push(c),
{
    s.push(c)
}

/// The decimal digits of `n`, most significant first (no sign, no leading zeros,
/// `"0"` for zero), as `format!("{}", n)` prints an unsigned integer.
pub open spec fn decimal(n: nat) -> Seq<char>
    decreases n,
{
    if n < 10 {
        seq![digit_char(n)]
    } else {
        decimal(n / 10).push(digit_char(n % 10))
    }
}

/// The ASCII digit for a value below ten.
pub open spec fn digit_char(d: nat) -> char {
    if d == 0 { '0' }
    else if d == 1 { '1' }
    else if d == 2 { '2' }
    else if d == 3 { '3' }
    else if d == 4 { '4' }
    else if d == 5 { '5' }
    else if d == 6 { '6' }
    else if d == 7 { '7' }
    else if d == 8 { '8' }
    else { '9' }
}

fn digit_to_char(d: usize) -> (c: char)
    requires
        d < 10,
    ensures
        c == digit_char(d as nat),
{
    if d == 0 { '0' }
    else if d == 1 { '1' }
    else if d == 2 { '2' }
    else if d == 3 { '3' }
    else if d == 4 { '4' }
    else if d == 5 { '5' }
    else if d == 6 { '6' }
    else if d == 7 { '7' }
    else if d == 8 { '8' }
    else { '9' }
}

/// Appends the decimal form of `n` to `s`.
pub fn push_decimal(s: &mut String, n: usize)
    ensures
        final(s)@ == old(s)@ + decimal(n as nat),
    decreases n,
{
    if n < 10 {
        push_char(s, digit_to_char(n));
        assert(decimal(n as nat) =~= seq![digit_char(n as nat)]);
    } else {
        push_decimal(s, n / 10);
        push_char(s, digit_to_char(n % 10));
        assert(decimal(n as nat) == decimal((n / 10) as nat).push(digit_char((n % 10) as nat)));
    }
}

/// A string made of the characters of `prefix` followed by the decimal form of `n`,
/// as `format!("{prefix}{}", n)`.
pub fn prefixed_decimal(prefix: &str, n: usize) -> (s: String)
    ensures
        s@ == prefix@ + decimal(n as nat),
{
    let mut s = String::from_str(prefix);
    push_decimal(&mut s, n);
    s
}

/// A string with the given characters.
pub fn string_from_chars(cs: &Vec<char>) -> (s: String)
    ensures
        s@ == cs@,
{
    let mut s = String::new();
    let mut i: usize = 0;
    while i < cs.len()
        invariant
            i <= cs.len(),
            s@ == cs@.subrange(0, i as int),
        decreases cs.len() - i,
    {
        push_char(&mut s, cs[i]);
        i = i + 1;
        assert(s@ =~= cs@.subrange(0, i as int));
    }
    assert(cs@.subrange(0, cs.len() as int) =~= cs@);
    s
}

/// The characters of a string slice.
pub fn chars_of(s: &str) -> (cs: Vec<char>)
    ensures
        cs@ == s@,
{
    let n = s.unicode_len();
    let mut cs: Vec<char> = Vec::new();
    let mut i: usize = 0;
    while i < n
        invariant
            n == s@.len(),
            i <= n,
            cs@ == s@.subrange(0, i as int),
        decreases n - i,
    {
        cs.push(s.get_char(i));
        i = i + 1;
        assert(cs@ =~= s@.subrange(0, i as int));
    }
    assert(s@.subrange(0, n as int) =~= s@);
    cs
}

/// `char::is_whitespace`: the Unicode `White_Space` characters.
pub open spec fn is_ws(c: char) -> bool {
    ||| c == ' '
    ||| ('\u{9}' <= c && c <= '\u{d}')
    ||| c == '\u{85}'
    ||| c == '\u{a0}'
    ||| c == '\u{1680}'
    ||| ('\u{2000}' <= c && c <= '\u{200a}')
    ||| c == '\u{2028}'
    ||| c == '\u{2029}'
    ||| c == '\u{202f}'
    ||| c == '\u{205f}'
    ||| c == '\u{3000}'
}

pub fn char_is_ws(c: char) -> (b: bool)
    ensures
        b == is_ws(c),
{
    c == ' ' || ('\u{9}' <= c && c <= '\u{d}') || c == '\u{85}' || c == '\u{a0}' || c
        == '\u{1680}' || ('\u{2000}' <= c && c <= '\u{200a}') || c == '\u{2028}' || c
        == '\u{2029}' || c == '\u{202f}' || c == '\u{205f}' || c == '\u{3000}'
}

/// `str::trim_start`: drops the leading whitespace.
pub open spec fn trim_start(s: Seq<char>) -> Seq<char>
    decreases s.len(),
{
    if s.len() > 0 && is_ws(s[0]) {
        trim_start(s.drop_first())
    } else {
        s
    }
}

/// `str::trim_end`: drops the trailing whitespace.
pub open spec fn trim_end(s: Seq<char>) -> Seq<char>
    decreases s.len(),
{
    if s.len() > 0 && is_ws(s.last()) {
        trim_end(s.drop_last())
    } else {
        s
    }
}

/// `str::trim`.
pub open spec fn trim(s: Seq<char>) -> Seq<char> {
    trim_end(trim_start(s))
}

/// `char::to_ascii_uppercase`.
pub open spec fn upper_char(c: char) -> char {
    if 'a' <= c && c <= 'z' {
        ((c as u32) - 32) as char
    } else {
        c
    }
}

/// `str::to_ascii_uppercase`.
pub open spec fn upper(s: Seq<char>) -> Seq<char> {
    s.map_values(|c: char| upper_char(c))
}

/// The normal form of a noun name: trimmed, then ASCII upper case.
pub open spec fn norm(s: Seq<char>) -> Seq<char> {
    upper(trim(s))
}

fn upper_char_exec(c: char) -> (u: char)
    ensures
        u == upper_char(c),
{
    if 'a' <= c && c <= 'z' {
        let v = (c as u32) - 32;
        assert(v as char == ((c as u32) - 32) as char);
        // The code point stays in the ASCII range, so the conversion is exact.
        assert(97 <= (c as u32) <= 122);
        char_from_ascii(v)
    } else {
        c
    }
}

fn char_from_ascii(v: u32) -> (c: char)
    requires
        v < 128,
    ensures
        c == v as char,
{
    (v as u8) as char
}

proof fn lemma_trim_start_skip(s: Seq<char>, i: int)
    requires
        0 <= i <= s.len(),
        forall|k: int| 0 <= k < i ==> is_ws(#[trigger] s[k]),
    ensures
        trim_start(s) == trim_start(s.subrange(i, s.len() as int)),
    decreases i,
{
    if i > 0 {
        assert(is_ws(s[0]));
        let t = s.drop_first();
        assert forall|k: int| 0 <= k < i - 1 implies is_ws(#[trigger] t[k]) by {
            assert(t[k] == s[k + 1]);
        }
        lemma_trim_start_skip(t, i - 1);
        assert(t.subrange(i - 1, t.len() as int) =~= s.subrange(i, s.len() as int));
    } else {
        assert(s.subrange(0, s.len() as int) =~= s);
    }
}

proof fn lemma_trim_end_skip(s: Seq<char>, j: int)
    requires
        0 <= j <= s.len(),
        forall|k: int| j <= k < s.len() ==> is_ws(#[trigger] s[k]),
    ensures
        trim_end(s) == trim_end(s.subrange(0, j)),
    decreases s.len() - j,
{
    if j < s.len() {
        assert(is_ws(s.last()));
        let t = s.drop_last();
        assert forall|k: int| j <= k < t.len() implies is_ws(#[trigger] t[k]) by {
            assert(t[k] == s[k]);
        }
        lemma_trim_end_skip(t, j);
        assert(t.subrange(0, j) =~= s.subrange(0, j));
    } else {
        assert(s.subrange(0, j) =~= s);
    }
}

/// `str::trim`: the text without leading and trailing white space.
pub fn trim_text(s: &str) -> (r: String)
    ensures
        r@ == trim(s@),
{
    let cs = chars_of(s);
    let n = cs.len();
    let mut i: usize = 0;
    while i < n && char_is_ws(cs[i])
        invariant
            n == cs@.len(),
            i <= n,
            forall|k: int| 0 <= k < i ==> is_ws(#[trigger] cs@[k]),
        decreases n - i,
    {
        i = i + 1;
    }
    proof {
        lemma_trim_start_skip(cs@, i as int);
    }
    let ghost rest = cs@.subrange(i as int, n as int);
    assert(i == n || !is_ws(rest[0]));
    assert(trim_start(rest) == rest);
    let mut j: usize = n;
    while j > i && char_is_ws(cs[j - 1])
        invariant
            n == cs@.len(),
            i <= j <= n,
            forall|k: int| j <= k < n ==> is_ws(#[trigger] cs@[k]),
        decreases j,
    {
        j = j - 1;
    }
    proof {
        assert forall|k: int| (j - i) <= k < rest.len() implies is_ws(#[trigger] rest[k]) by {
            assert(rest[k] == cs@[k + i]);
        }
        lemma_trim_end_skip(rest, (j - i) as int);
        let mid = rest.subrange(0, (j - i) as int);
        assert(mid =~= cs@.subrange(i as int, j as int));
        assert(mid.len() == 0 || !is_ws(mid.last()));
        assert(trim_end(mid) == mid);
    }
    let mut r = String::new();
    let mut k: usize = i;
    while k < j
        invariant
            n == cs@.len(),
            i <= k <= j <= n,
            r@ == cs@.subrange(i as int, k as int),
        decreases j - k,
    {
        push_char(&mut r, cs[k]);
        k = k + 1;
        assert(r@ =~= cs@.subrange(i as int, k as int));
    }
    r
}

/// The normal form (`trim` then `to_ascii_uppercase`) of a string slice.
pub fn normalize(s: &str) -> (r: String)
    ensures
        r@ == norm(s@),
{
    let cs = chars_of(s);
    let n = cs.len();
    let mut i: usize = 0;
    while i < n && char_is_ws(cs[i])
        invariant
            n == cs@.len(),
            i <= n,
            forall|k: int| 0 <= k < i ==> is_ws(#[trigger] cs@[k]),
        decreases n - i,
    {
        i = i + 1;
    }
    proof {
        lemma_trim_start_skip(cs@, i as int);
    }
    let ghost rest = cs@.subrange(i as int, n as int);
    assert(i == n || !is_ws(rest[0]));
    assert(trim_start(rest) == rest);
    let mut j: usize = n;
    while j > i && char_is_ws(cs[j - 1])
        invariant
            n == cs@.len(),
            i <= j <= n,
            forall|k: int| j <= k < n ==> is_ws(#[trigger] cs@[k]),
        decreases j,
    {
        j = j - 1;
    }
    proof {
        assert forall|k: int| (j - i) <= k < rest.len() implies is_ws(#[trigger] rest[k]) by {
            assert(rest[k] == cs@[k + i]);
        }
        lemma_trim_end_skip(rest, (j - i) as int);
        let mid = rest.subrange(0, (j - i) as int);
        assert(mid =~= cs@.subrange(i as int, j as int));
        assert(mid.len() == 0 || !is_ws(mid.last()));
        assert(trim_end(mid) == mid);
    }
    let mut r = String::new();
    let mut k: usize = i;
    while k < j
        invariant
            n == cs@.len(),
            i <= k <= j <= n,
            r@ == upper(cs@.subrange(i as int, k as int)),
        decreases j - k,
    {
        push_char(&mut r, upper_char_exec(cs[k]));
        k = k + 1;
        assert(r@ =~= upper(cs@.subrange(i as int, k as int)));
    }
    r
}

/// Lexicographic order on character sequences by code point, the order of `str` comparison.
pub open spec fn seq_lt(a: Seq<char>, b: Seq<char>) -> bool
    decreases a.len(),
{
    if a.len() == 0 {
        b.len() > 0
    } else if b.len() == 0 {
        false
    } else if a[0] != b[0] {
        a[0] < b[0]
    } else {
        seq_lt(a.drop_first(), b.drop_first())
    }
}

pub proof fn lemma_seq_lt_irreflexive(a: Seq<char>)
    ensures
        !seq_lt(a, a),
    decreases a.len(),
{
    if a.len() > 0 {
        lemma_seq_lt_irreflexive(a.drop_first());
    }
}

pub proof fn lemma_seq_lt_transitive(a: Seq<char>, b: Seq<char>, c: Seq<char>)
    requires
        seq_lt(a, b),
        seq_lt(b, c),
    ensures
        seq_lt(a, c),
    decreases a.len(),
{
    if a.len() > 0 && b.len() > 0 && c.len() > 0 {
        if a[0] == b[0] && b[0] == c[0] {
            lemma_seq_lt_transitive(a.drop_first(), b.drop_first(), c.drop_first());
        }
    }
}

pub proof fn lemma_seq_lt_total(a: Seq<char>, b: Seq<char>)
    requires
        a != b,
    ensures
        seq_lt(a, b) || seq_lt(b, a),
    decreases a.len(),
{
    if a.len() > 0 && b.len() > 0 && a[0] == b[0] {
        if a.drop_first() == b.drop_first() {
            assert(a =~= seq![a[0]] + a.drop_first());
            assert(b =~= seq![b[0]] + b.drop_first());
        }
        lemma_seq_lt_total(a.drop_first(), b.drop_first());
    } else if a.len() == 0 && b.len() == 0 {
        assert(a =~= b);
    }
}

/// Compares two character vectors in the order of `seq_lt`.
pub fn chars_lt(a: &Vec<char>, b: &Vec<char>) -> (r: bool)
    ensures
        r == seq_lt(a@, b@),
{
    let mut i: usize = 0;
    assert(a@.subrange(0, a.len() as int) =~= a@);
    assert(b@.subrange(0, b.len() as int) =~= b@);
    while i < a.len() && i < b.len() && a[i] == b[i]
        invariant
            i <= a.len(),
            i <= b.len(),
            seq_lt(a@, b@) == seq_lt(a@.subrange(i as int, a.len() as int), b@.subrange(i as int, b.len() as int)),
        decreases a.len() - i,
    {
        let ghost sa = a@.subrange(i as int, a.len() as int);
        let ghost sb = b@.subrange(i as int, b.len() as int);
        assert(sa.drop_first() =~= a@.subrange(i + 1, a.len() as int));
        assert(sb.drop_first() =~= b@.subrange(i + 1, b.len() as int));
        i = i + 1;
    }
    if i == a.len() {
        i < b.len()
    } else if i == b.len() {
        false
    } else {
        a[i] < b[i]
    }
}

/// Equality of character vectors.
pub fn chars_eq(a: &Vec<char>, b: &Vec<char>) -> (r: bool)
    ensures
        r == (a@ == b@),
{
    if a.len() != b.len() {
        return false;
    }
    let mut i: usize = 0;
    while i < a.len()
        invariant
            a.len() == b.len(),
            i <= a.len(),
            forall|k: int| 0 <= k < i ==> a@[k] == b@[k],
        decreases a.len() - i,
    {
        if a[i] != b[i] {
            return false;
        }
        i = i + 1;
    }
    assert(a@ =~= b@);
    true
}

/// Whether the strings of `v` are in strictly increasing order of `seq_lt`.
pub open spec fn names_sorted(v: Seq<String>) -> bool {
    forall|a: int, b: int| 0 <= a < b < v.len() ==> seq_lt(v[a]@, v[b]@)
}

/// Whether some string of `v` reads `s`.
pub open spec fn names_contain(v: Seq<String>, s: Seq<char>) -> bool {
    exists|k: int| 0 <= k < v.len() && (#[trigger] v[k])@ == s
}

/// Inserts `s` into a strictly sorted list of strings, unless it is there already.
pub fn insert_sorted(v: &mut Vec<String>, s: String)
    requires
        names_sorted(old(v)@),
    ensures
        names_sorted(final(v)@),
        forall|t: Seq<char>| names_contain(final(v)@, t) <==> (names_contain(old(v)@, t) || t == s@),
{
    let sc = chars_of(s.as_str());
    let mut p: usize = 0;
    let mut state: u8 = 0;
    while p < v.len() && state == 0
        invariant
            v@ == old(v)@,
            names_sorted(v@),
            sc@ == s@,
            p <= v@.len(),
            forall|q: int| 0 <= q < p ==> seq_lt(v@[q]@, s@),
            state == 1 ==> p < v@.len() && v@[p as int]@ == s@,
            state == 2 ==> p < v@.len() && seq_lt(s@, v@[p as int]@),
            state <= 2,
        decreases v@.len() - p, if state == 0 { 1int } else { 0int },
    {
        let vc = chars_of(v[p].as_str());
        if chars_eq(&vc, &sc) {
            state = 1;
        } else if chars_lt(&vc, &sc) {
            p = p + 1;
        } else {
            proof {
                lemma_seq_lt_total(vc@, sc@);
            }
            state = 2;
        }
    }
    if state == 1 {
        proof {
            assert forall|t: Seq<char>| names_contain(v@, t) <==> (names_contain(old(v)@, t) || t == s@) by {
                if t == s@ {
                    assert(v@[p as int]@ == t);
                }
            }
        }
        return;
    }
    let ghost old_v = v@;
    assert(old_v == old(v)@);
    v.insert(p, s);
    proof {
        assert forall|a: int, b: int| 0 <= a < b < v@.len() implies seq_lt(v@[a]@, v@[b]@) by {
            if b < p {
            } else if b == p {
            } else if a < p {
                assert(v@[b] == old_v[b - 1]);
                if b - 1 > p {
                    assert(seq_lt(old_v[p as int]@, old_v[b - 1]@));
                }
                if b - 1 >= p {
                    lemma_seq_lt_transitive(v@[a]@, s@, old_v[p as int]@);
                    if b - 1 > p {
                        lemma_seq_lt_transitive(v@[a]@, old_v[p as int]@, old_v[b - 1]@);
                    }
                }
            } else if a == p {
                assert(v@[b] == old_v[b - 1]);
                if b - 1 > p {
                    lemma_seq_lt_transitive(s@, old_v[p as int]@, old_v[b - 1]@);
                }
            } else {
                assert(v@[a] == old_v[a - 1]);
                assert(v@[b] == old_v[b - 1]);
            }
        }
        assert forall|t: Seq<char>| names_contain(v@, t) <==> (names_contain(old_v, t) || t == s@) by {
            if names_contain(v@, t) {
                let k = choose|k: int| 0 <= k < v@.len() && (#[trigger] v@[k])@ == t;
                if k < p {
                    assert(old_v[k]@ == t);
                } else if k > p {
                    assert(old_v[k - 1]@ == t);
                }
            }
            if names_contain(old_v, t) {
                let k = choose|k: int| 0 <= k < old_v.len() && (#[trigger] old_v[k])@ == t;
                if k < p {
                    assert(v@[k]@ == t);
                } else {
                    assert(v@[k + 1]@ == t);
                }
            }
            if t == s@ {
                assert(v@[p as int]@ == t);
            }
        }
        assert(forall|t: Seq<char>| names_contain(v@, t) <==> (names_contain(old(v)@, t) || t == s@));
    }
}


/// A decimal form is never empty.
pub proof fn lemma_decimal_nonempty(n: nat)
    ensures
        decimal(n).len() >= 1,
        n >= 10 ==> decimal(n).len() >= 2,
    decreases n,
{
    if n >= 10 {
        lemma_decimal_nonempty(n / 10);
    }
}

proof fn lemma_digit_char_injective(a: nat, b: nat)
    requires
        a < 10,
        b < 10,
        digit_char(a) == digit_char(b),
    ensures
        a == b,
{
}

/// Distinct numbers have distinct decimal forms.
pub proof fn lemma_decimal_injective(a: nat, b: nat)
    requires
        decimal(a) == decimal(b),
    ensures
        a == b,
    decreases a,
{
    lemma_decimal_nonempty(a);
    lemma_decimal_nonempty(b);
    if a < 10 {
        if b >= 10 {
            assert(decimal(a).len() == 1);
        } else {
            assert(decimal(a)[0] == digit_char(a));
            assert(decimal(b)[0] == digit_char(b));
            lemma_digit_char_injective(a, b);
        }
    } else {
        if b < 10 {
            assert(decimal(b).len() == 1);
        } else {
            let da = decimal(a);
            let db = decimal(b);
            assert(da.last() == digit_char(a % 10));
            assert(db.last() == digit_char(b % 10));
            lemma_digit_char_injective(a % 10, b % 10);
            assert(da.drop_last() =~= decimal(a / 10));
            assert(db.drop_last() =~= decimal(b / 10));
            lemma_decimal_injective(a / 10, b / 10);
        }
    }
}

/// `prefix + decimal(a) == prefix + decimal(b)` only when `a == b`.
pub proof fn lemma_prefixed_decimal_injective(prefix: Seq<char>, a: nat, b: nat)
    requires
        prefix + decimal(a) == prefix + decimal(b),
    ensures
        a == b,
{
    let sa = prefix + decimal(a);
    let sb = prefix + decimal(b);
    assert(sa.subrange(prefix.len() as int, sa.len() as int) =~= decimal(a));
    assert(sb.subrange(prefix.len() as int, sb.len() as int) =~= decimal(b));
    lemma_decimal_injective(a, b);
}

/// Whether `c` separates the words of a parameter list: a space or a line feed.
pub open spec fn is_word_sep(c: char) -> bool {
    c == ' ' || c == '\n'
}

/// The words of `s`, given the part `cur` of a word read before `s`: the maximal
/// runs of characters that are not separators, in order, none of them empty.
pub open spec fn words_from(s: Seq<char>, cur: Seq<char>) -> Seq<Seq<char>>
    decreases s.len(),
{
    if s.len() == 0 {
        if cur.len() > 0 {
            seq![cur]
        } else {
            Seq::empty()
        }
    } else if is_word_sep(s[0]) {
        (if cur.len() > 0 {
            seq![cur]
        } else {
            Seq::empty()
        }) + words_from(s.drop_first(), Seq::empty())
    } else {
        words_from(s.drop_first(), cur.push(s[0]))
    }
}

/// The words of `s`, as `s.replace("\n", " ").split(' ')` without the empty pieces.
pub open spec fn words(s: Seq<char>) -> Seq<Seq<char>> {
    words_from(s, Seq::empty())
}

/// The characters of `s` other than spaces and line feeds, in order.
pub open spec fn strip_blanks(s: Seq<char>) -> Seq<char>
    decreases s.len(),
{
    if s.len() == 0 {
        seq![]
    } else if s[0] == ' ' || s[0] == '\n' {
        strip_blanks(s.drop_first())
    } else {
        seq![s[0]] + strip_blanks(s.drop_first())
    }
}

/// The words of a list, one after the other.
pub open spec fn concat_words(ws: Seq<Seq<char>>) -> Seq<char>
    decreases ws.len(),
{
    if ws.len() == 0 {
        seq![]
    } else {
        ws[0] + concat_words(ws.drop_first())
    }
}

/// The number of runs of characters other than spaces and line feeds in `s`;
/// `after_blank` says whether what comes before `s` ends a run.
pub open spec fn blank_runs(s: Seq<char>, after_blank: bool) -> nat
    decreases s.len(),
{
    if s.len() == 0 {
        0
    } else if s[0] == ' ' || s[0] == '\n' {
        blank_runs(s.drop_first(), true)
    } else {
        (if after_blank { 1nat } else { 0nat }) + blank_runs(s.drop_first(), false)
    }
}

/// Whether a word is not empty and holds no space or line feed.
pub open spec fn solid_word(w: Seq<char>) -> bool {
    w.len() > 0 && forall|j: int| 0 <= j < w.len() ==> w[j] != ' ' && w[j] != '\n'
}

proof fn lemma_words_from_runs(s: Seq<char>, cur: Seq<char>)
    requires
        forall|j: int| 0 <= j < cur.len() ==> cur[j] != ' ' && cur[j] != '\n',
    ensures
        concat_words(words_from(s, cur)) == cur + strip_blanks(s),
        forall|k: int| 0 <= k < words_from(s, cur).len() ==> solid_word(#[trigger] words_from(s, cur)[k]),
        words_from(s, cur).len() == blank_runs(s, cur.len() == 0) + (if cur.len() > 0 { 1nat } else { 0nat }),
    decreases s.len(),
{
    let head: Seq<Seq<char>> = if cur.len() > 0 { seq![cur] } else { Seq::empty() };
    if s.len() == 0 {
        if cur.len() > 0 {
            assert(seq![cur].drop_first() =~= Seq::<Seq<char>>::empty());
            assert(concat_words(Seq::<Seq<char>>::empty()) == Seq::<char>::empty());
            assert(concat_words(seq![cur]) == seq![cur][0] + concat_words(seq![cur].drop_first()));
            assert(concat_words(seq![cur]) =~= cur);
        }
        assert(cur + strip_blanks(s) =~= cur);
    } else if s[0] == ' ' || s[0] == '\n' {
        let rest = words_from(s.drop_first(), Seq::empty());
        lemma_words_from_runs(s.drop_first(), Seq::empty());
        assert(words_from(s, cur) == head + rest);
        if cur.len() > 0 {
            assert((head + rest).drop_first() =~= rest);
            assert((head + rest)[0] == cur);
        } else {
            assert(head + rest =~= rest);
        }
        assert(concat_words(rest) =~= Seq::<char>::empty() + strip_blanks(s.drop_first()));
        assert forall|k: int| 0 <= k < (head + rest).len() implies solid_word(#[trigger] (head + rest)[k]) by {
            if k >= head.len() {
                assert((head + rest)[k] == rest[k - head.len()]);
            }
        }
    } else {
        let c2 = cur.push(s[0]);
        lemma_words_from_runs(s.drop_first(), c2);
        assert(c2 + strip_blanks(s.drop_first()) =~= cur + strip_blanks(s));
    }
}

/// The words of a text are its maximal runs of characters other than spaces and
/// line feeds: none is empty or holds a space or line feed, one after the other
/// they give every other character of the text in order, and there are as many as
/// the text has such runs.
pub proof fn law_words_are_blank_separated_runs(s: Seq<char>)
    ensures
        forall|k: int| 0 <= k < words(s).len() ==> solid_word(#[trigger] words(s)[k]),
        concat_words(words(s)) == strip_blanks(s),
        words(s).len() == blank_runs(s, true),
{
    lemma_words_from_runs(s, Seq::empty());
    assert(Seq::<char>::empty() + strip_blanks(s) =~= strip_blanks(s));
}

/// Splits a text into its words (see `words`).
pub fn split_words(text: &str) -> (v: Vec<String>)
    ensures
        v@.map_values(|w: String| w@) == words(text@),
{
    let cs = chars_of(text);
    let mut v: Vec<String> = Vec::new();
    let mut cur = String::new();
    let mut i: usize = 0;
    assert(cs@.skip(0) =~= cs@);
    while i < cs.len()
        invariant
            cs@ == text@,
            i <= cs@.len(),
            v@.map_values(|w: String| w@) + words_from(cs@.skip(i as int), cur@) == words(text@),
        decreases cs@.len() - i,
    {
        let c = cs[i];
        let ghost rest = cs@.skip(i as int);
        assert(rest[0] == c);
        assert(rest.drop_first() =~= cs@.skip(i + 1));
        let ghost vv = v@.map_values(|w: String| w@);
        if c == ' ' || c == '\n' {
            if cur.as_str().unicode_len() > 0 {
                let ghost w = cur@;
                v.push(cur);
                cur = String::new();
                assert(v@.map_values(|w: String| w@) =~= vv.push(w));
                assert(vv + (seq![w] + words_from(cs@.skip(i + 1), Seq::empty())) =~= vv.push(w)
                    + words_from(cs@.skip(i + 1), cur@));
            } else {
                assert(cur@ =~= Seq::<char>::empty());
                assert(Seq::<Seq<char>>::empty() + words_from(cs@.skip(i + 1), Seq::empty())
                    =~= words_from(cs@.skip(i + 1), cur@));
            }
        } else {
            push_char(&mut cur, c);
        }
        i = i + 1;
    }
    assert(cs@.skip(i as int) =~= Seq::<char>::empty());
    if cur.as_str().unicode_len() > 0 {
        let ghost vv = v@.map_values(|w: String| w@);
        let ghost w = cur@;
        v.push(cur);
        assert(v@.map_values(|w: String| w@) =~= vv + seq![w]);
    } else {
        assert(v@.map_values(|w: String| w@) =~= v@.map_values(|w: String| w@) + Seq::<Seq<char>>::empty());
    }
    v
}

proof fn lemma_trim_start_shape(s: Seq<char>)
    ensures
        trim_start(s).len() == 0 || !is_ws(trim_start(s)[0]),
    decreases s.len(),
{
    if s.len() > 0 && is_ws(s[0]) {
        lemma_trim_start_shape(s.drop_first());
    }
}

proof fn lemma_trim_end_shape(s: Seq<char>)
    ensures
        trim_end(s).len() <= s.len(),
        trim_end(s) == s.subrange(0, trim_end(s).len() as int),
        trim_end(s).len() == 0 || !is_ws(trim_end(s).last()),
    decreases s.len(),
{
    if s.len() > 0 && is_ws(s.last()) {
        lemma_trim_end_shape(s.drop_last());
        assert(s.drop_last().subrange(0, trim_end(s).len() as int) =~= s.subrange(
            0,
            trim_end(s).len() as int,
        ));
    } else {
        assert(s.subrange(0, s.len() as int) =~= s);
    }
}

/// A trimmed string starts and ends with a character that is not whitespace.
proof fn lemma_trim_shape(s: Seq<char>)
    ensures
        trim(s).len() == 0 || (!is_ws(trim(s)[0]) && !is_ws(trim(s).last())),
{
    let r = trim_start(s);
    lemma_trim_start_shape(s);
    lemma_trim_end_shape(r);
    let q = trim_end(r);
    if q.len() > 0 {
        assert(q[0] == r.subrange(0, q.len() as int)[0]);
    }
}

/// Upper-casing maps whitespace to whitespace and other characters to others, and
/// upper-casing twice is upper-casing once.
proof fn lemma_upper_char(c: char)
    ensures
        is_ws(upper_char(c)) == is_ws(c),
        upper_char(upper_char(c)) == upper_char(c),
{
    if 'a' <= c && c <= 'z' {
        let u = upper_char(c);
        assert(65 <= (u as u32) <= 90);
    }
}

/// Normalizing a normal name changes nothing: `norm` is idempotent.
pub proof fn lemma_norm_idempotent(s: Seq<char>)
    ensures
        norm(norm(s)) == norm(s),
{
    let t = trim(s);
    let u = upper(t);
    lemma_trim_shape(s);
    if u.len() > 0 {
        lemma_upper_char(t[0]);
        lemma_upper_char(t.last());
        assert(u[0] == upper_char(t[0]));
        assert(u.last() == upper_char(t.last()));
        assert(!is_ws(u[0]));
        assert(trim_start(u) == u);
        assert(!is_ws(u.last()));
        assert(trim_end(u) == u);
    } else {
        assert(trim_start(u) == u);
        assert(trim_end(u) == u);
    }
    assert(trim(u) == u);
    assert forall|k: int| 0 <= k < u.len() implies #[trigger] upper(u)[k] == u[k] by {
        lemma_upper_char(t[k]);
    }
    assert(upper(u) =~= u);
}

/// An ASCII decimal digit.
pub open spec fn is_digit(c: char) -> bool {
    '0' <= c && c <= '9'
}

/// Whether every character of `s` is an ASCII decimal digit.
pub open spec fn all_digits(s: Seq<char>) -> bool {
    forall|i: int| 0 <= i < s.len() ==> is_digit(#[trigger] s[i])
}

/// The number that the digits `s` spell, most significant first.
pub open spec fn digits_value(s: Seq<char>) -> int
    decreases s.len(),
{
    if s.len() == 0 {
        0
    } else {
        digits_value(s.drop_last()) * 10 + (s.last() as int - 48)
    }
}

/// `i32::from_str`: an optional `+` or `-`, then one or more ASCII digits, with a
/// value that fits an `i32`; anything else is an error (`None`).
pub open spec fn parse_i32_spec(s: Seq<char>) -> Option<i32> {
    let signed = s.len() > 0 && (s[0] == '-' || s[0] == '+');
    let body = if signed { s.drop_first() } else { s };
    if body.len() > 0 && all_digits(body) {
        let v = if s.len() > 0 && s[0] == '-' { -digits_value(body) } else { digits_value(body) };
        if i32::MIN <= v <= i32::MAX {
            Some(v as i32)
        } else {
            None
        }
    } else {
        None
    }
}

/// `s.parse::<i32>().unwrap_or_default()`: the parsed value, or 0 when `s` is not one.
pub open spec fn parse_i32_or_zero(s: Seq<char>) -> i32 {
    match parse_i32_spec(s) {
        Some(v) => v,
        None => 0,
    }
}

/// The decimal form of an `i32` as `format!("{}", v)` prints it: a `-` before a
/// negative number.
pub open spec fn signed_decimal(v: int) -> Seq<char> {
    if v < 0 {
        seq!['-'] + decimal((-v) as nat)
    } else {
        decimal(v as nat)
    }
}

proof fn lemma_digits_value_nonneg(s: Seq<char>)
    requires
        all_digits(s),
    ensures
        digits_value(s) >= 0,
    decreases s.len(),
{
    if s.len() > 0 {
        lemma_digits_value_nonneg(s.drop_last());
    }
}

/// Adding digits never makes the value smaller.
proof fn lemma_digits_value_prefix(s: Seq<char>, j: int)
    requires
        all_digits(s),
        0 <= j <= s.len(),
    ensures
        digits_value(s.take(j)) <= digits_value(s),
    decreases s.len(),
{
    if j < s.len() {
        let p = s.drop_last();
        assert(p.take(j) =~= s.take(j));
        lemma_digits_value_prefix(p, j);
        lemma_digits_value_nonneg(p);
    } else {
        assert(s.take(j) =~= s);
    }
}

proof fn lemma_digit_char_value(d: nat)
    requires
        d < 10,
    ensures
        digit_char(d) as int - 48 == d,
        is_digit(digit_char(d)),
{
}

/// The decimal form of `n` is made of digits and spells `n`.
pub proof fn lemma_decimal_value(n: nat)
    ensures
        all_digits(decimal(n)),
        digits_value(decimal(n)) == n,
        decimal(n).len() > 0,
        is_digit(decimal(n)[0]),
    decreases n,
{
    if n < 10 {
        let d = decimal(n);
        assert(d.drop_last() =~= Seq::<char>::empty());
        lemma_digit_char_value(n);
        assert(d.last() == digit_char(n));
        assert(digits_value(d) == digits_value(d.drop_last()) * 10 + (d.last() as int - 48));
    } else {
        lemma_decimal_value(n / 10);
        let d = decimal(n);
        assert(d.drop_last() =~= decimal(n / 10));
        assert(d[0] == decimal(n / 10)[0]);
        lemma_digit_char_value(n % 10);
        assert(d.last() == digit_char(n % 10));
        assert(digits_value(d) == digits_value(d.drop_last()) * 10 + (d.last() as int - 48));
        assert(n == (n / 10) * 10 + n % 10);
    }
}

/// Parsing the decimal form of an `i32` gives it back.
pub proof fn lemma_parse_signed_decimal(v: i32)
    ensures
        parse_i32_spec(signed_decimal(v as int)) == Some(v),
{
    if v < 0 {
        let n = (-(v as int)) as nat;
        lemma_decimal_value(n);
        let s = signed_decimal(v as int);
        assert(s.drop_first() =~= decimal(n));
    } else {
        lemma_decimal_value(v as nat);
    }
}

/// Parses `cs[lo..hi]` as `i32::from_str` does; 0 when it is not a number.
pub fn parse_i32_chars(cs: &Vec<char>, lo: usize, hi: usize) -> (r: i32)
    requires
        lo <= hi <= cs@.len(),
    ensures
        r == parse_i32_or_zero(cs@.subrange(lo as int, hi as int)),
{
    let ghost s = cs@.subrange(lo as int, hi as int);
    if lo == hi {
        return 0;
    }
    let neg = cs[lo] == '-';
    let signed = neg || cs[lo] == '+';
    let start: usize = if signed { lo + 1 } else { lo };
    let ghost body = cs@.subrange(start as int, hi as int);
    assert(s[0] == cs@[lo as int]);
    assert(signed ==> body =~= s.drop_first());
    assert(!signed ==> body =~= s);
    if start == hi {
        return 0;
    }
    let mut acc: i64 = 0;
    let mut k: usize = start;
    while k < hi
        invariant
            lo <= start <= k <= hi <= cs@.len(),
            s == cs@.subrange(lo as int, hi as int),
            s.len() > 0,
            signed == (s[0] == '-' || s[0] == '+'),
            neg == (s[0] == '-'),
            body == (if signed { s.drop_first() } else { s }),
            body == cs@.subrange(start as int, hi as int),
            all_digits(body.take(k - start)),
            acc == digits_value(body.take(k - start)),
            0 <= acc <= 2147483648,
        decreases hi - k,
    {
        let c = cs[k];
        if !('0' <= c && c <= '9') {
            assert(body[k - start] == c);
            assert(!all_digits(body));
            return 0;
        }
        let ghost t = body.take(k + 1 - start);
        assert(t.drop_last() =~= body.take(k - start));
        assert(t.last() == c);
        let d = (c as u32 - 48) as i64;
        acc = acc * 10 + d;
        assert(all_digits(t)) by {
            assert forall|i: int| 0 <= i < t.len() implies is_digit(#[trigger] t[i]) by {
                if i < t.len() - 1 {
                    assert(t[i] == body.take(k - start)[i]);
                }
            }
        }
        k = k + 1;
        if acc > 2147483648 {
            proof {
                if all_digits(body) {
                    lemma_digits_value_prefix(body, k - start);
                }
            }
            return 0;
        }
    }
    assert(body.take(k - start) =~= body);
    if neg {
        (-acc) as i32
    } else if acc <= 2147483647 {
        acc as i32
    } else {
        0
    }
}

/// The characters of `s` before its first `/` (all of `s` when there is none).
pub open spec fn before_slash(s: Seq<char>) -> Seq<char>
    decreases s.len(),
{
    if s.len() == 0 || s[0] == '/' {
        Seq::empty()
    } else {
        seq![s[0]] + before_slash(s.drop_first())
    }
}

/// The characters of `s` after its first `/` (empty when there is none).
pub open spec fn after_slash(s: Seq<char>) -> Seq<char>
    decreases s.len(),
{
    if s.len() == 0 {
        Seq::empty()
    } else if s[0] == '/' {
        s.drop_first()
    } else {
        after_slash(s.drop_first())
    }
}

/// Where the first `/` of `s` is (at `i`, or nowhere when `i == s.len()`), the
/// pieces around it.
pub proof fn lemma_slash_at(s: Seq<char>, i: int)
    requires
        0 <= i <= s.len(),
        forall|k: int| 0 <= k < i ==> s[k] != '/',
        i == s.len() || s[i] == '/',
    ensures
        before_slash(s) == s.take(i),
        after_slash(s) == (if i < s.len() { s.skip(i + 1) } else { Seq::empty() }),
    decreases i,
{
    if i > 0 {
        let t = s.drop_first();
        assert forall|k: int| 0 <= k < i - 1 implies t[k] != '/' by {
            assert(t[k] == s[k + 1]);
        }
        lemma_slash_at(t, i - 1);
        assert(seq![s[0]] + t.take(i - 1) =~= s.take(i));
        if i < s.len() {
            assert(t.skip(i) =~= s.skip(i + 1));
        }
    } else {
        assert(s.take(0) =~= Seq::<char>::empty());
        if s.len() > 0 {
            assert(s.skip(1) =~= s.drop_first());
        }
    }
}

/// The position of the first `/` in `cs[from..]`, or `cs.len()` when there is none.
pub fn find_slash(cs: &Vec<char>, from: usize) -> (i: usize)
    requires
        from <= cs@.len(),
    ensures
        from <= i <= cs@.len(),
        forall|k: int| from <= k < i ==> cs@[k] != '/',
        i == cs@.len() || cs@[i as int] == '/',
{
    let mut i = from;
    while i < cs.len() && cs[i] != '/'
        invariant
            from <= i <= cs@.len(),
            forall|k: int| from <= k < i ==> cs@[k] != '/',
        decreases cs@.len() - i,
    {
        i = i + 1;
    }
    i
}

/// Appends `format!("{}", v)` for an `i32`.
pub fn push_signed_decimal(s: &mut String, v: i32)
    ensures
        final(s)@ == old(s)@ + signed_decimal(v as int),
{
    if v < 0 {
        push_char(s, '-');
        let m: i64 = -(v as i64);
        assert(m <= 2147483648);
        push_decimal(s, m as usize);
        assert(final(s)@ =~= old(s)@ + (seq!['-'] + decimal((-v) as nat)));
    } else {
        push_decimal(s, v as usize);
    }
}

} // verus!
