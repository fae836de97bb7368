//! Reference numbers of database elements: a pair of 32-bit numbers, written
//! `a/b`, also packed big-endian into one 64-bit number.
use vstd::prelude::*;
use std::collections::HashMap;
use crate::helper::{be_i32_at, be_u64_at, read_be_i32, read_be_u64};
use crate::local_db::helper::combine_to_u64;
use crate::text::{
    signed_decimal, parse_i32_or_zero, before_slash, after_slash, push_signed_decimal,
    push_char, chars_of, find_slash, parse_i32_chars, lemma_slash_at, lemma_parse_signed_decimal,
    lemma_decimal_value,
};

verus! {

broadcast use vstd::std_specs::hash::group_hash_axioms;

/// A reference number as its two signed halves.
#[derive(Clone, Copy, Debug, Default, PartialEq, Eq, Hash)]
pub struct RefI32Tuple(pub (i32, i32));

/// A reference number packed into 64 bits: the first half is the high word.
#[derive(Clone, Copy, Debug, Default, PartialEq, Eq, Hash, Structural)]
pub struct RefU64(pub u64);

/// The 64-bit number with high word `a` and low word `b`.
pub open spec fn pack(a: u32, b: u32) -> u64 {
    (a as int * 0x1_0000_0000 + b as int) as u64
}

/// The high word of a packed reference number.
pub open spec fn high_word(x: u64) -> u32 {
    (x as int / 0x1_0000_0000) as u32
}

/// The low word of a packed reference number.
pub open spec fn low_word(x: u64) -> u32 {
    (x as int % 0x1_0000_0000) as u32
}

/// The text of a reference number: `a/b` in signed decimal.
pub open spec fn refno_text(t: RefI32Tuple) -> Seq<char> {
    signed_decimal(t.0.0 as int) + seq!['/'] + signed_decimal(t.0.1 as int)
}

/// The reference number that a text `a/b` names: the parts before the first `/`
/// and between it and the next `/` (or the end), each parsed as an `i32` and read
/// as 0 when it is not one.
pub open spec fn refno_of_text(s: Seq<char>) -> RefI32Tuple {
    RefI32Tuple((parse_i32_or_zero(before_slash(s)), parse_i32_or_zero(before_slash(after_slash(s)))))
}

impl RefI32Tuple {
    /// The reference number with the two halves.
    pub fn new(ref_0: i32, ref_1: i32) -> (r: Self)
        ensures
            r.0 == (ref_0, ref_1),
    {
        RefI32Tuple((ref_0, ref_1))
    }

    /// The first half.
    pub fn get_0(&self) -> (r: i32)
        ensures
            r == self.0.0,
    {
        self.0.0
    }

    /// The second half.
    pub fn get_1(&self) -> (r: i32)
        ensures
            r == self.0.1,
    {
        self.0.1
    }

    /// Reads the two big-endian halves at the start of `input`.
    pub fn from_bytes(input: &[u8]) -> (r: Self)
        requires
            input@.len() >= 8,
        ensures
            r.0 == (be_i32_at(input@, 0), be_i32_at(input@, 4)),
    {
        Self::new(read_be_i32(input, 0), read_be_i32(input, 4))
    }

    /// The halves of a packed reference number, each word read as signed.
    pub fn from_refu64(n: &RefU64) -> (r: Self)
        ensures
            r.0 == (high_word(n.0) as i32, low_word(n.0) as i32),
    {
        RefI32Tuple((n.get_0() as i32, n.get_1() as i32))
    }

    /// Reads the text `a/b`; a part that is not a number reads as 0.
    pub fn from_text(s: &str) -> (r: Self)
        requires
            s@.contains('/'),
        ensures
            r == refno_of_text(s@),
    {
        let cs = chars_of(s);
        let i = find_slash(&cs, 0);
        proof {
            lemma_slash_at(cs@, i as int);
            if i == cs@.len() {
                let k = choose|k: int| 0 <= k < s@.len() && s@[k] == '/';
                assert(cs@[k] == '/');
                assert(false);
            }
        }
        assert(i < cs@.len());
        assert(cs.len() == cs@.len());
        let j = find_slash(&cs, i + 1);
        proof {
            let rest = cs@.skip(i + 1);
            assert forall|k: int| 0 <= k < j - (i + 1) implies rest[k] != '/' by {
                assert(rest[k] == cs@[k + i + 1]);
            }
            if j < cs@.len() {
                assert(rest[j - (i + 1)] == cs@[j as int]);
            }
            lemma_slash_at(rest, j - (i + 1));
            assert(rest.take(j - (i + 1)) =~= cs@.subrange(i + 1, j as int));
            assert(cs@.take(i as int) =~= cs@.subrange(0, i as int));
        }
        let a = parse_i32_chars(&cs, 0, i);
        let b = parse_i32_chars(&cs, i + 1, j);
        RefI32Tuple((a, b))
    }

    /// The text `a/b`.
    pub fn to_refno_string(&self) -> (s: String)
        ensures
            s@ == refno_text(*self),
    {
        let mut s = String::new();
        push_signed_decimal(&mut s, self.0.0);
        push_char(&mut s, '/');
        push_signed_decimal(&mut s, self.0.1);
        s
    }
}

impl RefU64 {
    /// The packed form of the two halves, each read as unsigned.
    pub fn from_tuple(n: &RefI32Tuple) -> (r: Self)
        ensures
            r.0 == pack(n.0.0 as u32, n.0.1 as u32),
    {
        RefU64(combine_to_u64(n.0.0 as u32, n.0.1 as u32))
    }

    /// Reads the big-endian 64-bit number at the start of `input`.
    pub fn from_bytes(input: &[u8]) -> (r: Self)
        requires
            input@.len() >= 8,
        ensures
            r.0 == be_u64_at(input@, 0),
    {
        RefU64(read_be_u64(input, 0))
    }

    /// The high word.
    pub fn get_0(&self) -> (r: u32)
        ensures
            r == high_word(self.0),
    {
        let x = self.0;
        assert((x >> 32u64) as u32 == (x as int / 0x1_0000_0000) as u32) by (bit_vector);
        (x >> 32u64) as u32
    }

    /// The low word.
    pub fn get_1(&self) -> (r: u32)
        ensures
            r == low_word(self.0),
    {
        let x = self.0;
        assert((x & 0xFFFF_FFFFu64) as u32 == (x as int % 0x1_0000_0000) as u32) by (bit_vector);
        (x & 0xFFFF_FFFFu64) as u32
    }

    /// The text `a/b` of the two halves, each read as signed.
    pub fn to_refno_str(&self) -> (s: String)
        ensures
            s@ == refno_text(RefI32Tuple((high_word(self.0) as i32, low_word(self.0) as i32))),
    {
        RefI32Tuple::from_refu64(self).to_refno_string()
    }

    /// The reference number with high word `i` and low word `j`.
    pub fn from_two_nums(i: u32, j: u32) -> (r: Self)
        ensures
            r.0 == pack(i, j),
    {
        RefU64(combine_to_u64(i, j))
    }
}

/// A list of reference numbers, such as the children of an element.
#[derive(Clone, Debug, Default)]
pub struct RefU64Vec(pub Vec<RefU64>);

impl RefU64Vec {
    /// Appends a reference number.
    pub fn push(&mut self, v: RefU64)
        ensures
            final(self).0@ == old(self).0@.push(v),
    {
        self.0.push(v);
    }
}

impl From<RefI32Tuple> for RefU64 {
    /// The packed form of the two halves (see `RefU64::from_tuple`).
    fn from(n: RefI32Tuple) -> (r: Self) {
        RefU64::from_tuple(&n)
    }
}

impl vstd::std_specs::convert::FromSpecImpl<RefI32Tuple> for RefU64 {
    open spec fn obeys_from_spec() -> bool {
        true
    }

    open spec fn from_spec(n: RefI32Tuple) -> Self {
        RefU64(pack(n.0.0 as u32, n.0.1 as u32))
    }
}

impl From<RefU64> for RefI32Tuple {
    /// The signed halves of a packed reference number (see `RefI32Tuple::from_refu64`).
    fn from(n: RefU64) -> (r: Self) {
        RefI32Tuple::from_refu64(&n)
    }
}

impl vstd::std_specs::convert::FromSpecImpl<RefU64> for RefI32Tuple {
    open spec fn obeys_from_spec() -> bool {
        true
    }

    open spec fn from_spec(n: RefU64) -> Self {
        RefI32Tuple((high_word(n.0) as i32, low_word(n.0) as i32))
    }
}

/// Packing and unpacking undo each other: the words of `pack(a, b)` are `a` and `b`,
/// and packing the words of `x` gives `x` back.
pub proof fn lemma_pack_words(a: u32, b: u32, x: u64)
    ensures
        high_word(pack(a, b)) == a,
        low_word(pack(a, b)) == b,
        pack(high_word(x), low_word(x)) == x,
{
}

/// A packed reference number survives the trip through its signed halves, and the
/// halves survive the trip through the packed number.
pub proof fn lemma_refno_round_trip(x: u64, t: RefI32Tuple)
    ensures
        pack((high_word(x) as i32) as u32, (low_word(x) as i32) as u32) == x,
        (high_word(pack(t.0.0 as u32, t.0.1 as u32)) as i32, low_word(
            pack(t.0.0 as u32, t.0.1 as u32),
        ) as i32) == t.0,
{
    let h = high_word(x);
    let l = low_word(x);
    assert((h as i32) as u32 == h) by (bit_vector);
    assert((l as i32) as u32 == l) by (bit_vector);
    let a = t.0.0;
    let b = t.0.1;
    assert(((a as u32) as i32) == a) by (bit_vector);
    assert(((b as u32) as i32) == b) by (bit_vector);
}

/// The two byte readers agree: the packed number read from 8 bytes is the packing
/// of the two halves read from them.
pub proof fn lemma_bytes_agree(b: Seq<u8>)
    requires
        b.len() >= 8,
    ensures
        be_u64_at(b, 0) == pack(be_i32_at(b, 0) as u32, be_i32_at(b, 4) as u32),
{
    let h = crate::helper::be_u32_at(b, 0);
    let l = crate::helper::be_u32_at(b, 4);
    assert(((h as i32) as u32) == h) by (bit_vector);
    assert(((l as i32) as u32) == l) by (bit_vector);
}

/// Reading the text of a reference number gives the number back.
pub proof fn lemma_refno_text_round_trip(t: RefI32Tuple)
    ensures
        refno_of_text(refno_text(t)) == t,
{
    let a = signed_decimal(t.0.0 as int);
    let b = signed_decimal(t.0.1 as int);
    let s = refno_text(t);
    lemma_no_slash_in_decimal(t.0.0);
    lemma_no_slash_in_decimal(t.0.1);
    assert forall|k: int| 0 <= k < a.len() implies s[k] != '/' by {
        assert(s[k] == a[k]);
    }
    assert(s[a.len() as int] == '/');
    lemma_slash_at(s, a.len() as int);
    assert(s.take(a.len() as int) =~= a);
    assert(s.skip(a.len() as int + 1) =~= b);
    lemma_slash_at(b, b.len() as int);
    assert(b.take(b.len() as int) =~= b);
    lemma_parse_signed_decimal(t.0.0);
    lemma_parse_signed_decimal(t.0.1);
}

proof fn lemma_no_slash_in_decimal(v: i32)
    ensures
        forall|k: int|
            0 <= k < signed_decimal(v as int).len() ==> #[trigger] signed_decimal(v as int)[k]
                != '/',
{
    let n: nat = if v < 0 { (-(v as int)) as nat } else { v as nat };
    lemma_decimal_value(n);
    let d = crate::text::decimal(n);
    assert forall|k: int| 0 <= k < signed_decimal(v as int).len() implies #[trigger] signed_decimal(
        v as int,
    )[k] != '/' by {
        if v < 0 {
            if k > 0 {
                assert(signed_decimal(v as int)[k] == d[k - 1]);
                assert(crate::text::is_digit(d[k - 1]));
            }
        } else {
            assert(crate::text::is_digit(d[k]));
        }
    }
}

/// The storage type of an attribute.
#[derive(Debug, Clone, Copy, PartialEq, Eq, Structural)]
pub enum DbAttributeType {
    INTEGER,
    DOUBLE,
    BOOL,
    STRING,
    ELEMENT,
    WORD,
    DIRECTION,
    POSITION,
    ORIENTATION,
    DATETIME,
    DOUBLEVEC,
    INTVEC,
    FLOATVEC,
    TYPEX,
    Vec3Type,
}

/// The 32-bit FNV-1a hash of `bytes`: from `0x811c9dc5`, each byte is xor-ed in and
/// the state multiplied by `0x1000193` (wrapping).
pub open spec fn fnv1a(bytes: Seq<u8>) -> u32
    decreases bytes.len(),
{
    if bytes.len() == 0 {
        0x811c9dc5u32
    } else {
        ((fnv1a(bytes.drop_last()) ^ (bytes.last() as u32)) as int * 0x1000193) as u32
    }
}

/// The hash of a string in the lookup table: FNV-1a of its UTF-8 bytes followed by
/// `0xFF`.
pub open spec fn chars_hash(s: Seq<char>) -> u32 {
    fnv1a(vstd::utf8::encode_utf8(s) + seq![0xFFu8])
}

/// `chars_hash` of a string slice.
pub open spec fn str_hash(s: &str) -> u32 {
    chars_hash(s@)
}

/// Hashes a string as `hash32` does for a `str` with its `FnvHasher`
/// (`hash32::Hash::hash` then `hash32::Hasher::finish`). Trusted: the hasher starts
/// from the FNV offset basis and hashes the string's UTF-8 bytes and then one `0xFF`
/// byte with FNV-1a.
#[verifier::external_body]
fn fnv_str_hash(s: &str) -> (h: u32)
    ensures
        h == str_hash(s),
{
    let mut fnv = hash32::FnvHasher::default();
    hash32::Hash::hash(s, &mut fnv);
    hash32::Hasher::finish(&fnv)
}

/// The table after `add_str(s)`: unchanged when the hash of `s` is taken,
/// otherwise with `s` under it.
pub open spec fn after_add(t: Map<u32, Seq<char>>, s: &str) -> Map<u32, Seq<char>> {
    if t.contains_key(str_hash(s)) {
        t
    } else {
        t.insert(str_hash(s), s@)
    }
}

/// An interned string.
#[derive(Debug, Clone, Default)]
pub struct AiosStr(pub String);

impl AiosStr {
    /// The lookup hash of the string (see `str_hash`).
    pub fn get_u32_hash(&self) -> (h: u32)
        ensures
            h == chars_hash(self.0@),
    {
        fnv_str_hash(self.0.as_str())
    }

    /// The string.
    pub fn take(self) -> (s: String)
        ensures
            s@ == self.0@,
    {
        self.0
    }

    /// The string, borrowed.
    pub fn as_str(&self) -> (s: &str)
        ensures
            s@ == self.0@,
    {
        self.0.as_str()
    }
}

/// The strings of a database by their hash; the first string stored under a hash
/// keeps it.
pub struct StringLookupTable {
    lookup: HashMap<u32, AiosStr>,
    hashes: Vec<u32>,
}

impl StringLookupTable {
    #[verifier::type_invariant]
    spec fn inv(self) -> bool {
        &&& self.hashes@.no_duplicates()
        &&& forall|k: u32| self.lookup@.contains_key(k) <==> self.hashes@.contains(k)
    }

    /// The strings by hash.
    pub closed spec fn spec_lookup(&self) -> Map<u32, Seq<char>> {
        self.lookup@.map_values(|s: AiosStr| s.0@)
    }

    /// An empty table.
    pub fn new() -> (t: Self)
        ensures
            t.spec_lookup() == Map::<u32, Seq<char>>::empty(),
    {
        let t = StringLookupTable { lookup: HashMap::new(), hashes: Vec::new() };
        assert(t.spec_lookup() =~= Map::<u32, Seq<char>>::empty());
        t
    }

    /// The string stored under a hash.
    pub fn get_string(&self, hash: u32) -> (r: Option<String>)
        ensures
            match r {
                Some(s) => self.spec_lookup().contains_key(hash) && s@ == self.spec_lookup()[hash],
                None => !self.spec_lookup().contains_key(hash),
            },
    {
        match self.lookup.get(&hash) {
            Some(s) => Some(s.0.clone()),
            None => None,
        }
    }

    /// Stores a string under its hash unless the hash is taken, and gives the hash.
    pub fn add_str(&mut self, str_val: &str) -> (hash: u32)
        ensures
            hash == str_hash(str_val),
            final(self).spec_lookup() == after_add(old(self).spec_lookup(), str_val),
    {
        proof {
            use_type_invariant(&*self);
        }
        let hash = fnv_str_hash(str_val);
        if !self.lookup.contains_key(&hash) {
            let ghost before = self.lookup@;
            let mut tmp = StringLookupTable { lookup: HashMap::new(), hashes: Vec::new() };
            std::mem::swap(&mut tmp, self);
            let StringLookupTable { mut lookup, mut hashes } = tmp;
            let value = AiosStr(String::from_str(str_val));
            let ghost vv = value.0@;
            put(&mut lookup, &mut hashes, hash, value);
            assert(lookup@.map_values(|s: AiosStr| s.0@) =~= before.map_values(|s: AiosStr| s.0@).insert(
                hash,
                vv,
            ));
            *self = StringLookupTable { lookup, hashes };
        }
        hash
    }

    /// Copies every string of `other` in, replacing a string stored under the same
    /// hash; always true.
    pub fn merge(&mut self, other: &Self) -> (r: bool)
        ensures
            r,
            final(self).spec_lookup() == old(self).spec_lookup().union_prefer_right(
                other.spec_lookup(),
            ),
    {
        proof {
            use_type_invariant(&*self);
            use_type_invariant(other);
        }
        let ghost start = self.lookup@;
        let mut tmp = StringLookupTable { lookup: HashMap::new(), hashes: Vec::new() };
        std::mem::swap(&mut tmp, self);
        let StringLookupTable { mut lookup, mut hashes } = tmp;
        let mut i: usize = 0;
        while i < other.hashes.len()
            invariant
                other.hashes@.no_duplicates(),
                forall|k: u32| other.lookup@.contains_key(k) <==> other.hashes@.contains(k),
                i <= other.hashes@.len(),
                hashes@.no_duplicates(),
                forall|k: u32| lookup@.contains_key(k) <==> hashes@.contains(k),
                forall|k: u32|
                    lookup@.contains_key(k) <==> (start.contains_key(k) || other.hashes@.take(
                        i as int,
                    ).contains(k)),
                forall|k: u32|
                    #![trigger lookup@[k]]
                    lookup@.contains_key(k) ==> lookup@[k].0@ == (if other.hashes@.take(
                        i as int,
                    ).contains(k) {
                        other.lookup@[k].0@
                    } else {
                        start[k].0@
                    }),
            decreases other.hashes@.len() - i,
        {
            let k = other.hashes[i];
            assert(other.hashes@.contains(k));
            let v = match other.lookup.get(&k) {
                Some(v) => AiosStr(v.0.clone()),
                None => {
                    proof {
                        assert(false);
                    }
                    AiosStr(String::new())
                },
            };
            let ghost before = lookup@;
            put(&mut lookup, &mut hashes, k, v);
            proof {
                let done = other.hashes@.take(i as int);
                let now = other.hashes@.take(i + 1);
                assert(now =~= done.push(k));
                assert forall|q: u32| now.contains(q) <==> (done.contains(q) || q == k) by {
                    if now.contains(q) {
                        let j = choose|j: int| 0 <= j < now.len() && now[j] == q;
                        if j < done.len() {
                            assert(done[j] == q);
                        }
                    }
                    if done.contains(q) {
                        let j = choose|j: int| 0 <= j < done.len() && done[j] == q;
                        assert(now[j] == q);
                    }
                    if q == k {
                        assert(now[i as int] == q);
                    }
                }
                assert forall|q: u32|
                    lookup@.contains_key(q) <==> (start.contains_key(q) || now.contains(q)) by {
                    if q == k {
                        assert(now.contains(q));
                    }
                }
                assert forall|q: u32|
                    #![trigger lookup@[q]]
                    lookup@.contains_key(q) implies lookup@[q].0@ == (if now.contains(q) {
                        other.lookup@[q].0@
                    } else {
                        start[q].0@
                    }) by {
                    if q == k {
                        assert(now.contains(q));
                    } else {
                        assert(before.contains_key(q));
                        assert(before[q] == lookup@[q]);
                    }
                }
            }
            i = i + 1;
        }
        proof {
            assert(other.hashes@.take(i as int) =~= other.hashes@);
            let target = start.map_values(|s: AiosStr| s.0@).union_prefer_right(
                other.lookup@.map_values(|s: AiosStr| s.0@),
            );
            assert(lookup@.map_values(|s: AiosStr| s.0@) =~= target);
        }
        *self = StringLookupTable { lookup, hashes };
        true
    }
}

impl Default for StringLookupTable {
    fn default() -> (t: Self)
        ensures
            t.spec_lookup() == Map::<u32, Seq<char>>::empty(),
    {
        StringLookupTable::new()
    }
}

/// Puts `v` under `k`, keeping `hashes` the list of the keys, once each.
fn put(lookup: &mut HashMap<u32, AiosStr>, hashes: &mut Vec<u32>, k: u32, v: AiosStr)
    requires
        old(hashes)@.no_duplicates(),
        forall|q: u32| old(lookup)@.contains_key(q) <==> old(hashes)@.contains(q),
    ensures
        final(hashes)@.no_duplicates(),
        forall|q: u32| final(lookup)@.contains_key(q) <==> final(hashes)@.contains(q),
        final(lookup)@ == old(lookup)@.insert(k, v),
{
    let fresh = !lookup.contains_key(&k);
    let ghost before_keys = hashes@;
    let ghost before = lookup@;
    lookup.insert(k, v);
    if fresh {
        hashes.push(k);
    }
    proof {
        assert forall|q: u32| lookup@.contains_key(q) <==> hashes@.contains(q) by {
            if q == k {
                if fresh {
                    assert(hashes@[hashes@.len() - 1] == k);
                } else {
                    assert(before_keys.contains(k));
                }
            } else {
                if before.contains_key(q) {
                    assert(before_keys.contains(q));
                    let j = choose|j: int| 0 <= j < before_keys.len() && before_keys[j] == q;
                    assert(hashes@[j] == q);
                }
                if hashes@.contains(q) {
                    let j = choose|j: int| 0 <= j < hashes@.len() && hashes@[j] == q;
                    assert(before_keys[j] == q);
                    assert(before_keys.contains(q));
                }
            }
        }
        if fresh {
            assert(!before_keys.contains(k));
            assert forall|a: int, b: int| 0 <= a < hashes@.len() && 0 <= b < hashes@.len() && a != b implies hashes@[a] != hashes@[b] by {
                if a == hashes@.len() - 1 {
                    assert(before_keys[b] == hashes@[b]);
                } else if b == hashes@.len() - 1 {
                    assert(before_keys[a] == hashes@[a]);
                }
            }
        }
    }
}

/// Adding a string twice is adding it once, and afterwards its hash reads the
/// string added, unless another string held that hash first.
pub proof fn lemma_add_str_idempotent(t: Map<u32, Seq<char>>, s: &str)
    ensures
        after_add(after_add(t, s), s) == after_add(t, s),
        after_add(t, s).contains_key(str_hash(s)),
        !t.contains_key(str_hash(s)) ==> after_add(t, s)[str_hash(s)] == s@,
        forall|k: u32| k != str_hash(s) ==> after_add(t, s).contains_key(k) == t.contains_key(k),
{
}

} // verus!
