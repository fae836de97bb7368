//! The attribute dictionary file (`attlib.dat`): big-endian pages of 512 `i32`
//! words, a header of section start pages, a NOUN index of `(key, address)`
//! pairs and a FIELD table of variable-length records. Reading a field of a
//! noun goes through the slot table of the noun record, with inheritance along
//! the `base_type` field and a default value as fallback.
use vstd::prelude::*;
use std::collections::HashMap;
use vstd::hash_map::StringHashMap;
use crate::helper::{be_i32_at, read_be_i32};
use crate::db_tool::{db1_dehash, dehash_spec};
use crate::text::{norm, normalize, insert_sorted, names_sorted, names_contain, lemma_norm_idempotent};

verus! {

broadcast use vstd::std_specs::hash::group_hash_axioms;

/// Words per page.
pub const PAGE_INTS: usize = 512;
/// Bytes per page (`0x800`).
pub const PAGE_BYTES: usize = 2048;

/// Smallest valid index key.
pub const KEY_MIN: i32 = 531442;
/// Largest valid index key.
pub const KEY_MAX: i32 = 387951929;

/// Field id of the `primitive` noun flag.
pub const FIELD_PRIMITIVE: i32 = 659518;
/// Field id of the `geomset` noun flag.
pub const FIELD_GEOMSET: i32 = 859903;
/// Field id of the `extrusion` noun flag.
pub const FIELD_EXTRUSION: i32 = 663225;
/// Field id of the `isPointsetPoint` noun flag.
pub const FIELD_ISPOINTSETPOINT: i32 = 290555737;
/// Field id of the `graphicsBehaviour` noun value.
pub const FIELD_GRAPHICS_BEHAVIOUR: i32 = 5099119;
/// Field id of `base_type`: its value is the hash of the noun inherited from.
pub const FIELD_BASE_TYPE: i32 = 837586;
/// How many nouns an inheritance chain may visit before the lookup gives up.
pub const MAX_INHERIT_DEPTH: usize = 32;

/// The raw page that holds the header record.
pub const HEADER_RAW_PAGE: usize = 1;
/// Header index of the first logical page of the FIELD section.
pub const HDR_FIELD_START: usize = 4;
/// Header index of the first logical page of the NOUN section.
pub const HDR_NOUN_START: usize = 6;

/// The type code of a field.
#[derive(Debug, Clone, Copy, PartialEq, Eq, Structural)]
pub enum FieldType {
    Bool,
    Int,
    Array,
    Other(i32),
}

/// The field type of a type code: 1 bool, 3 int, 4 array.
pub open spec fn field_type_of(c: i32) -> FieldType {
    if c == 1 {
        FieldType::Bool
    } else if c == 3 {
        FieldType::Int
    } else if c == 4 {
        FieldType::Array
    } else {
        FieldType::Other(c)
    }
}

impl FieldType {
    /// The field type of a type code.
    pub fn from_code(c: i32) -> (t: Self)
        ensures
            t == field_type_of(c),
    {
        match c {
            1 => FieldType::Bool,
            3 => FieldType::Int,
            4 => FieldType::Array,
            x => FieldType::Other(x),
        }
    }
}

/// Where a field lives: its 1-based column in the slot table, its type and its default.
#[derive(Debug, Clone, Copy, PartialEq, Eq, Structural)]
pub struct FieldSlot {
    pub col: usize,
    pub ty: FieldType,
    pub default: i32,
}

/// Where a noun record lives: its raw page and the word offset of the record in it.
#[derive(Debug, Clone, Copy, PartialEq, Eq, Structural)]
pub struct NounSlot {
    pub raw_page: usize,
    pub row_base: usize,
}

// ---------------------------------------------------------------------------
// Pages

/// Raw page `p` of `b`: 512 big-endian words starting at byte `2048 * p`.
pub open spec fn page_spec(b: Seq<u8>, p: int) -> Seq<i32> {
    Seq::new(512, |i: int| be_i32_at(b, p * 2048 + 4 * i))
}

/// The pages of `b`: every full 2048-byte chunk; a shorter tail is ignored.
pub open spec fn pages_spec(b: Seq<u8>) -> Seq<Seq<i32>> {
    Seq::new(b.len() / 2048, |p: int| page_spec(b, p))
}

/// The contents of a sequence of pages.
pub open spec fn pages_view(pages: Seq<[i32; 512]>) -> Seq<Seq<i32>> {
    pages.map_values(|p: [i32; 512]| p@)
}

proof fn lemma_page_bound(len: int, p: int, i: int)
    requires
        0 <= p < len / 2048,
        0 <= i < 512,
        len >= 0,
    ensures
        p * 2048 + 4 * i + 4 <= len,
{
    assert(p * 2048 + 2048 <= (len / 2048) * 2048) by (nonlinear_arith)
        requires
            0 <= p < len / 2048,
    ;
    assert((len / 2048) * 2048 <= len) by (nonlinear_arith)
        requires
            len >= 0,
    ;
}

/// Splits the file into pages of 512 big-endian `i32` words (`0x800` bytes each);
/// a tail shorter than a page is ignored.
pub fn split_pages(bytes: &[u8]) -> (pages: Vec<[i32; PAGE_INTS]>)
    ensures
        pages_view(pages@) == pages_spec(bytes@),
{
    let blen = bytes.len();
    let n = blen / PAGE_BYTES;
    let mut pages: Vec<[i32; PAGE_INTS]> = Vec::new();
    let mut p: usize = 0;
    while p < n
        invariant
            n == bytes@.len() / 2048,
            blen == bytes@.len(),
            p <= n,
            pages@.len() == p,
            forall|q: int| 0 <= q < p ==> (#[trigger] pages@[q])@ == page_spec(bytes@, q),
        decreases n - p,
    {
        let mut page = [0i32; PAGE_INTS];
        let mut i: usize = 0;
        while i < PAGE_INTS
            invariant
                n == bytes@.len() / 2048,
                blen == bytes@.len(),
                p < n,
                i <= 512,
                forall|k: int| 0 <= k < i ==> page@[k] == be_i32_at(bytes@, p * 2048 + 4 * k),
            decreases 512 - i,
        {
            proof {
                lemma_page_bound(bytes@.len() as int, p as int, i as int);
            }
            let off = p * PAGE_BYTES + 4 * i;
            page[i] = read_be_i32(bytes, off);
            i = i + 1;
        }
        assert(page@ =~= page_spec(bytes@, p as int));
        pages.push(page);
        p = p + 1;
    }
    assert(pages_view(pages@) =~= pages_spec(bytes@));
    pages
}

/// Logical page number to raw page number: `logical - 1`, at least 0.
pub open spec fn logical_to_raw_spec(logical_page: i32) -> nat {
    if logical_page - 1 > 0 {
        (logical_page - 1) as nat
    } else {
        0
    }
}

/// Logical page numbers start at 1 and raw page 0 is the text header,
/// so logical page `N` is raw page `N - 1` (never below 0).
pub fn logical_to_raw(logical_page: i32) -> (r: usize)
    requires
        logical_page > i32::MIN,
    ensures
        r == logical_to_raw_spec(logical_page),
{
    let v = logical_page - 1;
    if v > 0 {
        v as usize
    } else {
        0
    }
}

// ---------------------------------------------------------------------------
// NOUN index

/// The record location that an index address designates:
/// raw page `address / 512 - 1` (at least 0) and offset `address % 512`.
pub open spec fn slot_of_addr(addr: int) -> NounSlot {
    NounSlot {
        raw_page: (if addr / 512 - 1 > 0 { addr / 512 - 1 } else { 0 }) as usize,
        row_base: (addr % 512) as usize,
    }
}

/// Whether `key` is a key of the index sections.
pub open spec fn key_in_range(key: i32) -> bool {
    KEY_MIN <= key <= KEY_MAX
}

/// The NOUN index read from word `i` of page `page` on, added to `m`.
/// The section is a stream of `(key, address)` pairs; a key of 0 or out of range
/// ends the page, a key of -1 ends the section, and a non-positive address is skipped.
pub open spec fn noun_walk(pages: Seq<Seq<i32>>, page: int, i: int, m: Map<i32, NounSlot>) -> Map<i32, NounSlot>
    decreases pages.len() - page, 512 - i,
{
    if page < 0 || i < 0 || page >= pages.len() {
        m
    } else if i + 1 >= 512 {
        noun_walk(pages, page + 1, 0, m)
    } else {
        let key = pages[page][i];
        if key == -1 {
            m
        } else if key == 0 || !key_in_range(key) {
            noun_walk(pages, page + 1, 0, m)
        } else {
            let addr = pages[page][i + 1];
            let m2 = if addr > 0 { m.insert(key, slot_of_addr(addr as int)) } else { m };
            noun_walk(pages, page, i + 2, m2)
        }
    }
}

/// `keys` lists the domain of `m` once each, and every key is in range.
pub open spec fn keys_list(m: Map<i32, NounSlot>, keys: Seq<i32>) -> bool {
    &&& keys.no_duplicates()
    &&& forall|k: i32| m.contains_key(k) <==> keys.contains(k)
    &&& forall|k: i32| m.contains_key(k) ==> key_in_range(k)
}

/// Reads the NOUN index that starts at raw page `raw_start`, with its keys in the
/// order they first occur.
pub fn build_noun_index(pages: &[[i32; PAGE_INTS]], raw_start: usize) -> (r: (
    HashMap<i32, NounSlot>,
    Vec<i32>,
))
    ensures
        r.0@ == noun_walk(pages_view(pages@), raw_start as int, 0, Map::empty()),
        keys_list(r.0@, r.1@),
{
    let ghost pv = pages_view(pages@);
    let mut map: HashMap<i32, NounSlot> = HashMap::new();
    let mut keys: Vec<i32> = Vec::new();
    let mut page: usize = raw_start;
    let mut i: usize = 0;
    let n = pages.len();
    while page < n
        invariant
            n == pages@.len(),
            pv == pages_view(pages@),
            i <= 512,
            noun_walk(pv, raw_start as int, 0, Map::empty()) == noun_walk(pv, page as int, i as int, map@),
            keys_list(map@, keys@),
        decreases n - page, 512 - i,
    {
        if i + 1 >= PAGE_INTS {
            page = page + 1;
            i = 0;
        } else {
            let key = pages[page][i];
            assert(key == pv[page as int][i as int]);
            if key == -1 {
                page = n;
            } else if key == 0 || key < KEY_MIN || key > KEY_MAX {
                page = page + 1;
                i = 0;
            } else {
                let addr = pages[page][i + 1];
                assert(addr == pv[page as int][i + 1]);
                if addr > 0 {
                    let q = addr / 512;
                    let raw_page: usize = if q - 1 > 0 { (q - 1) as usize } else { 0 };
                    let row_base: usize = (addr % 512) as usize;
                    let slot = NounSlot { raw_page, row_base };
                    assert(slot == slot_of_addr(addr as int));
                    let ghost old_keys = keys@;
                    let ghost old_map = map@;
                    if !map.contains_key(&key) {
                        keys.push(key);
                    }
                    map.insert(key, slot);
                    proof {
                        assert(key_in_range(key));
                        assert forall|k: i32| map@.contains_key(k) <==> keys@.contains(k) by {
                            if k != key {
                                assert(map@.contains_key(k) == old_map.contains_key(k));
                                if keys@.len() > old_keys.len() {
                                    assert(keys@ == old_keys.push(key));
                                    if old_keys.contains(k) {
                                        let j = choose|j: int| 0 <= j < old_keys.len() && old_keys[j] == k;
                                        assert(keys@[j] == k);
                                    }
                                }
                            } else {
                                if keys@.len() > old_keys.len() {
                                    assert(keys@[keys@.len() - 1] == key);
                                }
                            }
                        }
                        if keys@.len() > old_keys.len() {
                            assert(!old_keys.contains(key));
                            assert(keys@ == old_keys.push(key));
                            assert(keys@.no_duplicates());
                        }
                    }
                }
                i = i + 2;
            }
        }
    }
    (map, keys)
}

// ---------------------------------------------------------------------------
// FIELD table

/// What is left of a page from word `i` on, as a termination measure.
pub open spec fn rem512(i: int) -> int {
    if i <= 512 {
        512 - i
    } else {
        0
    }
}

/// The FIELD table read from word `i` of page `page` on, `col` records having been
/// read before, added to `m`. A record is `[key, type, has_default]`, followed when
/// `has_default == 2` by the default: for an array (type 4) a length and that many
/// elements (the length is kept as the default), otherwise one word. Records are
/// numbered from 1 in the order read. A key of 0, a key out of range or a record
/// head or default that would not fit the page ends the page; -1 ends the table.
pub open spec fn field_walk(
    pages: Seq<Seq<i32>>,
    page: int,
    i: int,
    col: nat,
    m: Map<i32, FieldSlot>,
) -> Map<i32, FieldSlot>
    decreases pages.len() - page, rem512(i),
{
    if page < 0 || i < 0 || page >= pages.len() {
        m
    } else if i >= 512 {
        field_walk(pages, page + 1, 0, col, m)
    } else {
        let p = pages[page];
        let key = p[i];
        if key == -1 {
            m
        } else if key == 0 || !key_in_range(key) || i + 2 >= 512 {
            field_walk(pages, page + 1, 0, col, m)
        } else {
            let kind = p[i + 1];
            let has_def = p[i + 2];
            let j = i + 3;
            if has_def == 2 && j >= 512 {
                field_walk(pages, page + 1, 0, col, m)
            } else {
                let default: i32 = if has_def == 2 { p[j] } else { 0 };
                let next: int = if has_def == 2 {
                    if kind == 4 {
                        j + 1 + (if p[j] > 0 { p[j] as int } else { 0 })
                    } else {
                        j + 1
                    }
                } else {
                    j
                };
                let slot = FieldSlot { col: (col + 1) as usize, ty: field_type_of(kind), default };
                field_walk(pages, page, next, col + 1, m.insert(key, slot))
            }
        }
    }
}

/// Reads the FIELD table that starts at raw page `raw_start`.
pub fn build_field_index(pages: &[[i32; PAGE_INTS]], raw_start: usize) -> (r: HashMap<i32, FieldSlot>)
    requires
        pages@.len() <= usize::MAX / 2048,
    ensures
        r@ == field_walk(pages_view(pages@), raw_start as int, 0, 0, Map::empty()),
{
    let ghost pv = pages_view(pages@);
    let mut map: HashMap<i32, FieldSlot> = HashMap::new();
    let mut col: usize = 0;
    let mut page: usize = raw_start;
    let mut i: usize = 0;
    let n = pages.len();
    if page >= n {
        return map;
    }
    while page < n
        invariant
            n == pages@.len(),
            n <= usize::MAX / 2048,
            pv == pages_view(pages@),
            page <= n,
            col as int <= page as int * 512 + (if i < 512 { i as int } else { 512 }),
            field_walk(pv, raw_start as int, 0, 0, Map::empty()) == field_walk(
                pv,
                page as int,
                i as int,
                col as nat,
                map@,
            ),
        decreases n - page, rem512(i as int),
    {
        if i >= PAGE_INTS {
            page = page + 1;
            i = 0;
        } else {
            let key = pages[page][i];
            assert(key == pv[page as int][i as int]);
            if key == -1 {
                page = n;
            } else if key == 0 || key < KEY_MIN || key > KEY_MAX || i + 2 >= PAGE_INTS {
                page = page + 1;
                i = 0;
            } else {
                let kind = pages[page][i + 1];
                let has_def = pages[page][i + 2];
                assert(kind == pv[page as int][i + 1]);
                assert(has_def == pv[page as int][i + 2]);
                let j = i + 3;
                if has_def == 2 && j >= PAGE_INTS {
                    page = page + 1;
                    i = 0;
                } else {
                    let mut default: i32 = 0;
                    let mut next: usize = j;
                    if has_def == 2 {
                        let d = pages[page][j];
                        assert(d == pv[page as int][j as int]);
                        default = d;
                        if kind == 4 {
                            let len: usize = if d > 0 { d as usize } else { 0 };
                            next = j + 1 + len;
                        } else {
                            next = j + 1;
                        }
                    }
                    proof {
                        assert(col as int + 1 <= page as int * 512 + 512) by (nonlinear_arith)
                            requires
                                col as int <= page as int * 512 + i as int,
                                i < 512,
                        ;
                        assert(page as int * 512 + 512 <= n as int * 512) by (nonlinear_arith)
                            requires
                                page < n,
                        ;
                    }
                    col = col + 1;
                    let slot = FieldSlot { col, ty: FieldType::from_code(kind), default };
                    map.insert(key, slot);
                    i = next;
                }
            }
        }
    }
    map
}

// ---------------------------------------------------------------------------
// Sorting of index keys

/// Whether `v` is in strictly increasing order.
pub open spec fn strictly_sorted(v: Seq<i32>) -> bool {
    forall|a: int, b: int| 0 <= a < b < v.len() ==> v[a] < v[b]
}

/// Sorts distinct keys into increasing order.
pub fn sort_keys(v: &Vec<i32>) -> (r: Vec<i32>)
    requires
        v@.no_duplicates(),
    ensures
        r@.len() == v@.len(),
        strictly_sorted(r@),
        forall|k: i32| r@.contains(k) <==> v@.contains(k),
{
    let mut r: Vec<i32> = Vec::new();
    let mut i: usize = 0;
    while i < v.len()
        invariant
            v@.no_duplicates(),
            i <= v@.len(),
            r@.len() == i,
            strictly_sorted(r@),
            forall|k: i32| r@.contains(k) <==> v@.subrange(0, i as int).contains(k),
        decreases v@.len() - i,
    {
        let x = v[i];
        proof {
            if r@.contains(x) {
                let j = choose|j: int| 0 <= j < i && v@.subrange(0, i as int)[j] == x;
                assert(v@[j] == v@[i as int]);
            }
        }
        let mut p: usize = 0;
        while p < r.len() && r[p] < x
            invariant
                p <= r@.len(),
                forall|q: int| 0 <= q < p ==> r@[q] < x,
            decreases r@.len() - p,
        {
            p = p + 1;
        }
        let ghost old_r = r@;
        proof {
            if p < old_r.len() {
                assert(old_r[p as int] != x);
                assert(old_r[p as int] > x);
            }
        }
        r.insert(p, x);
        proof {
            assert(r@ == old_r.insert(p as int, x));
            assert forall|a: int, b: int| 0 <= a < b < r@.len() implies r@[a] < r@[b] by {
                if b < p {
                } else if b == p {
                } else if a < p {
                    assert(r@[b] == old_r[b - 1]);
                    if p < old_r.len() {
                        assert(old_r[p as int] > x);
                        assert(old_r[p as int] <= old_r[b - 1]);
                    }
                } else if a == p {
                    assert(r@[b] == old_r[b - 1]);
                    assert(old_r[p as int] > x);
                    assert(old_r[p as int] <= old_r[b - 1]);
                } else {
                    assert(r@[a] == old_r[a - 1]);
                    assert(r@[b] == old_r[b - 1]);
                }
            }
            assert forall|k: i32| r@.contains(k) <==> v@.subrange(0, i + 1).contains(k) by {
                assert(v@.subrange(0, i + 1) == v@.subrange(0, i as int).push(x));
                if r@.contains(k) {
                    let j = choose|j: int| 0 <= j < r@.len() && r@[j] == k;
                    if j < p {
                        assert(old_r[j] == k);
                    } else if j > p {
                        assert(old_r[j - 1] == k);
                    }
                }
                if old_r.contains(k) {
                    let j = choose|j: int| 0 <= j < old_r.len() && old_r[j] == k;
                    if j < p {
                        assert(r@[j] == k);
                    } else {
                        assert(r@[j + 1] == k);
                    }
                }
                if k == x {
                    assert(r@[p as int] == x);
                }
                let s0 = v@.subrange(0, i as int);
                let s1 = v@.subrange(0, i + 1);
                if s1.contains(k) {
                    let j = choose|j: int| 0 <= j < s1.len() && s1[j] == k;
                    if j < i {
                        assert(s0[j] == k);
                    }
                }
                if s0.contains(k) {
                    let j = choose|j: int| 0 <= j < s0.len() && s0[j] == k;
                    assert(s1[j] == k);
                }
                if k == x {
                    assert(s1[i as int] == x);
                }
            }
        }
        i = i + 1;
    }
    assert(v@.subrange(0, v@.len() as int) =~= v@);
    r
}

// ---------------------------------------------------------------------------
// Field lookup

/// Word `idx` of raw page `raw_page`, if both exist.
pub open spec fn cell_spec(pages: Seq<Seq<i32>>, raw_page: int, idx: int) -> Option<i32> {
    if 0 <= raw_page < pages.len() && 0 <= idx < 512 {
        Some(pages[raw_page][idx])
    } else {
        None
    }
}

/// Step one of a lookup: the slot of 1-based column `col` in a noun record,
/// at word `row_base + col - 2` (the slot table is aligned two words back).
pub open spec fn slot_spec(pages: Seq<Seq<i32>>, ns: NounSlot, col: int) -> Option<i32> {
    cell_spec(pages, ns.raw_page as int, ns.row_base + (if col >= 2 { col - 2 } else { 0 }))
}

/// Step two: the value that a positive slot `off` points to, at word `row_base + off - 2`.
pub open spec fn value_spec(pages: Seq<Seq<i32>>, ns: NounSlot, off: i32) -> Option<i32> {
    if off <= 0 {
        None
    } else {
        cell_spec(pages, ns.raw_page as int, ns.row_base + (if off >= 2 { off - 2 } else { 0 }))
    }
}

/// The value of field `fs` for noun `cur`, following at most `fuel` nouns along
/// `base_type`: a slot of -1 gives the default, a positive slot the value it points to,
/// and a slot of 0 continues with the base noun (or the default when there is none).
pub open spec fn lookup_spec(
    pages: Seq<Seq<i32>>,
    nouns: Map<i32, NounSlot>,
    fields: Map<i32, FieldSlot>,
    fs: FieldSlot,
    cur: i32,
    fuel: nat,
) -> Option<i32>
    decreases fuel,
{
    if fuel == 0 || !nouns.contains_key(cur) {
        None
    } else {
        let ns = nouns[cur];
        match slot_spec(pages, ns, fs.col as int) {
            None => None,
            Some(off) => {
                if off == -1 {
                    Some(fs.default)
                } else if off != 0 {
                    value_spec(pages, ns, off)
                } else if !fields.contains_key(FIELD_BASE_TYPE) {
                    None
                } else {
                    match slot_spec(pages, ns, fields[FIELD_BASE_TYPE].col as int) {
                        None => None,
                        Some(bt_off) => {
                            if bt_off <= 0 {
                                Some(fs.default)
                            } else {
                                match value_spec(pages, ns, bt_off) {
                                    Some(base) => {
                                        if base != 0 && base != -1 {
                                            lookup_spec(pages, nouns, fields, fs, base, (fuel - 1) as nat)
                                        } else {
                                            Some(fs.default)
                                        }
                                    },
                                    None => Some(fs.default),
                                }
                            }
                        },
                    }
                }
            },
        }
    }
}

/// The raw value of field `field_id` for noun `noun_hash`; `None` when the field or
/// a noun on the way is unknown, a word is missing, or the chain is too long.
pub open spec fn raw_field_spec(
    pages: Seq<Seq<i32>>,
    nouns: Map<i32, NounSlot>,
    fields: Map<i32, FieldSlot>,
    noun_hash: i32,
    field_id: i32,
) -> Option<i32> {
    if fields.contains_key(field_id) {
        lookup_spec(pages, nouns, fields, fields[field_id], noun_hash, MAX_INHERIT_DEPTH as nat)
    } else {
        None
    }
}

/// A value that the inheritance lookup finds within some number of steps stays the
/// same when more steps are allowed.
pub proof fn lemma_lookup_more_steps(
    pages: Seq<Seq<i32>>,
    nouns: Map<i32, NounSlot>,
    fields: Map<i32, FieldSlot>,
    fs: FieldSlot,
    cur: i32,
    f1: nat,
    f2: nat,
)
    requires
        f1 <= f2,
        lookup_spec(pages, nouns, fields, fs, cur, f1) is Some,
    ensures
        lookup_spec(pages, nouns, fields, fs, cur, f2) == lookup_spec(pages, nouns, fields, fs, cur, f1),
    decreases f1,
{
    let ns = nouns[cur];
    if slot_spec(pages, ns, fs.col as int) == Some(0i32) && fields.contains_key(FIELD_BASE_TYPE) {
        let bt = slot_spec(pages, ns, fields[FIELD_BASE_TYPE].col as int);
        if bt is Some && bt->0 > 0 {
            let b = value_spec(pages, ns, bt->0);
            if b is Some && b->0 != 0 && b->0 != -1 {
                lemma_lookup_more_steps(pages, nouns, fields, fs, b->0, (f1 - 1) as nat, (f2 - 1) as nat);
            }
        }
    }
}

/// The step of the inheritance lookup, for a noun whose slot for a field is 0: the
/// field then comes from the noun's base type. Without a `base_type` field or a slot
/// for it there is no value; with a slot of 0 or less, or a base value that is
/// missing, 0 or -1, the value is the field's default; otherwise it is the base
/// noun's own value for the field, whenever that resolves within the steps left.
pub proof fn law_raw_field_inherits(
    pages: Seq<Seq<i32>>,
    nouns: Map<i32, NounSlot>,
    fields: Map<i32, FieldSlot>,
    noun_hash: i32,
    field_id: i32,
)
    requires
        fields.contains_key(field_id),
        nouns.contains_key(noun_hash),
        slot_spec(pages, nouns[noun_hash], fields[field_id].col as int) == Some(0i32),
    ensures
        ({
            let ns = nouns[noun_hash];
            let fs = fields[field_id];
            let v = raw_field_spec(pages, nouns, fields, noun_hash, field_id);
            if !fields.contains_key(FIELD_BASE_TYPE) {
                v is None
            } else {
                match slot_spec(pages, ns, fields[FIELD_BASE_TYPE].col as int) {
                    None => v is None,
                    Some(bt) => if bt <= 0 {
                        v == Some(fs.default)
                    } else {
                        match value_spec(pages, ns, bt) {
                            Some(b) => if b != 0 && b != -1 {
                                lookup_spec(pages, nouns, fields, fs, b, (MAX_INHERIT_DEPTH - 1) as nat) is Some
                                    ==> v == raw_field_spec(pages, nouns, fields, b, field_id)
                            } else {
                                v == Some(fs.default)
                            },
                            None => v == Some(fs.default),
                        }
                    },
                }
            }
        }),
{
    let ns = nouns[noun_hash];
    let fs = fields[field_id];
    if fields.contains_key(FIELD_BASE_TYPE) {
        let bt = slot_spec(pages, ns, fields[FIELD_BASE_TYPE].col as int);
        if bt is Some && bt->0 > 0 {
            let b = value_spec(pages, ns, bt->0);
            if b is Some && b->0 != 0 && b->0 != -1 && lookup_spec(pages, nouns, fields, fs, b->0, (MAX_INHERIT_DEPTH - 1) as nat) is Some {
                lemma_lookup_more_steps(pages, nouns, fields, fs, b->0, (MAX_INHERIT_DEPTH - 1) as nat, MAX_INHERIT_DEPTH as nat);
            }
        }
    }
}

/// The header that `from_bytes` records is the first eight big-endian words of raw
/// page 1, bytes 2048 to 2080 of the file.
pub proof fn law_header_words(b: Seq<u8>, k: int)
    requires
        b.len() / 2048 > 1,
        0 <= k < 8,
    ensures
        pages_spec(b)[1].subrange(0, 8)[k] == be_i32_at(b, 2048 + 4 * k),
{
}

/// Whether the header fields that `from_bytes` turns into raw pages can be decremented.
pub open spec fn header_readable(b: Seq<u8>) -> bool {
    b.len() / 2048 > 1 ==> (page_spec(b, 1)[HDR_FIELD_START as int] > i32::MIN && page_spec(
        b,
        1,
    )[HDR_NOUN_START as int] > i32::MIN)
}

/// Why an attribute dictionary could not be read.
#[derive(Debug, Clone, Copy, PartialEq, Eq, Structural)]
pub enum AttrFileError {
    /// The file has no header page; the payload is the number of pages found.
    TooFewPages(usize),
}

/// A parsed attribute dictionary.
pub struct AttrDataFile {
    pages: Vec<[i32; PAGE_INTS]>,
    header: [i32; 8],
    noun_index: HashMap<i32, NounSlot>,
    field_index: HashMap<i32, FieldSlot>,
    noun_keys: Vec<i32>,
}

/// The classification flags of one noun.
#[derive(Debug, Clone)]
pub struct NounFlags {
    pub noun_hash: i32,
    pub noun_name: String,
    pub primitive: bool,
    pub geomset: bool,
    pub extrusion: bool,
    pub is_pointset_point: bool,
    pub graphics_behaviour: Option<i32>,
}

/// Whether `db1_dehash` accepts a noun hash read as `u32`.
pub open spec fn dehash_ok(h: i32) -> bool {
    (h as u32) > crate::db_tool::UDA_HASH_BASE || (h as u32) >= crate::db_tool::NAME_HASH_BASE
}

/// The name of a noun hash (`db1_dehash` of the hash read as `u32`).
pub fn dehash_noun(noun_hash: i32) -> (s: String)
    requires
        dehash_ok(noun_hash),
    ensures
        s@ == dehash_spec(noun_hash as u32),
{
    db1_dehash(noun_hash as u32)
}

impl AttrDataFile {
    #[verifier::type_invariant]
    spec fn inv(self) -> bool {
        keys_list(self.noun_index@, self.noun_keys@)
    }

    /// The pages of the file.
    pub closed spec fn spec_pages(&self) -> Seq<Seq<i32>> {
        pages_view(self.pages@)
    }

    /// The header record: the logical start pages of the sections.
    pub closed spec fn spec_header(&self) -> Seq<i32> {
        self.header@
    }

    /// The NOUN index.
    pub closed spec fn spec_nouns(&self) -> Map<i32, NounSlot> {
        self.noun_index@
    }

    /// The FIELD table.
    pub closed spec fn spec_fields(&self) -> Map<i32, FieldSlot> {
        self.field_index@
    }

    /// The value of a field for a noun, as `raw_field` reads it.
    pub open spec fn field_value(&self, noun_hash: i32, field_id: i32) -> Option<i32> {
        raw_field_spec(self.spec_pages(), self.spec_nouns(), self.spec_fields(), noun_hash, field_id)
    }

    /// Whether `f` holds the flags that `noun_flags` reads for `h`.
    pub open spec fn flags_of(&self, f: NounFlags, h: i32) -> bool {
        &&& f.noun_hash == h
        &&& f.noun_name@ == dehash_spec(h as u32)
        &&& f.primitive == (self.field_value(h, FIELD_PRIMITIVE) == Some(1i32))
        &&& f.geomset == (self.field_value(h, FIELD_GEOMSET) == Some(1i32))
        &&& f.extrusion == (self.field_value(h, FIELD_EXTRUSION) == Some(1i32))
        &&& f.is_pointset_point == (self.field_value(h, FIELD_ISPOINTSETPOINT) == Some(1i32))
        &&& f.graphics_behaviour == self.field_value(h, FIELD_GRAPHICS_BEHAVIOUR)
    }

    /// Parses an attribute dictionary: splits it into pages, reads the header from
    /// raw page 1 and builds the FIELD and NOUN indexes from the start pages it names.
    /// A file without a header page is refused.
    pub fn from_bytes(bytes: &[u8]) -> (r: Result<Self, AttrFileError>)
        requires
            header_readable(bytes@),
        ensures
            match r {
                Err(e) => bytes@.len() / 2048 <= 1 && e == AttrFileError::TooFewPages(
                    (bytes@.len() / 2048) as usize,
                ),
                Ok(df) => {
                    let pages = pages_spec(bytes@);
                    let hdr = pages[1].subrange(0, 8);
                    &&& bytes@.len() / 2048 > 1
                    &&& df.spec_pages() == pages
                    &&& df.spec_header() == hdr
                    &&& df.spec_fields() == field_walk(
                        pages,
                        logical_to_raw_spec(hdr[HDR_FIELD_START as int]) as int,
                        0,
                        0,
                        Map::empty(),
                    )
                    &&& df.spec_nouns() == noun_walk(
                        pages,
                        logical_to_raw_spec(hdr[HDR_NOUN_START as int]) as int,
                        0,
                        Map::empty(),
                    )
                },
            },
    {
        let blen = bytes.len();
        let pages = split_pages(bytes);
        let ghost pv = pages_view(pages@);
        assert(pv.len() == pages@.len());
        if pages.len() <= HEADER_RAW_PAGE {
            return Err(AttrFileError::TooFewPages(pages.len()));
        }
        let mut header = [0i32; 8];
        let mut k: usize = 0;
        while k < 8
            invariant
                pv == pages_view(pages@),
                pages@.len() > 1,
                k <= 8,
                forall|q: int| 0 <= q < k ==> header@[q] == pv[1][q],
            decreases 8 - k,
        {
            header[k] = pages[HEADER_RAW_PAGE][k];
            assert(header@[k as int] == pv[1][k as int]);
            k = k + 1;
        }
        assert(header@ =~= pv[1].subrange(0, 8));
        assert(pv[1] == page_spec(bytes@, 1));
        let field_index = build_field_index(pages.as_slice(), logical_to_raw(header[HDR_FIELD_START]));
        let (noun_index, noun_keys) = build_noun_index(
            pages.as_slice(),
            logical_to_raw(header[HDR_NOUN_START]),
        );
        Ok(AttrDataFile { pages, header, noun_index, field_index, noun_keys })
    }

    /// The header record.
    pub fn header(&self) -> (h: &[i32; 8])
        ensures
            h@ == self.spec_header(),
    {
        &self.header
    }

    /// The number of nouns in the NOUN index.
    pub fn noun_count(&self) -> (n: usize)
        ensures
            n == self.spec_nouns().len(),
    {
        self.noun_index.len()
    }

    /// The number of fields in the FIELD table.
    pub fn field_count(&self) -> (n: usize)
        ensures
            n == self.spec_fields().len(),
    {
        self.field_index.len()
    }

    /// Whether the NOUN index has the noun.
    pub fn has_noun(&self, noun_hash: i32) -> (b: bool)
        ensures
            b == self.spec_nouns().contains_key(noun_hash),
    {
        self.noun_index.contains_key(&noun_hash)
    }

    fn cell(&self, raw_page: usize, idx: usize) -> (r: Option<i32>)
        ensures
            r == cell_spec(self.spec_pages(), raw_page as int, idx as int),
    {
        if raw_page < self.pages.len() && idx < PAGE_INTS {
            Some(self.pages[raw_page][idx])
        } else {
            None
        }
    }

    fn slot_at(&self, ns: &NounSlot, col: usize) -> (r: Option<i32>)
        ensures
            r == slot_spec(self.spec_pages(), *ns, col as int),
    {
        let c: usize = if col >= 2 { col - 2 } else { 0 };
        match ns.row_base.checked_add(c) {
            Some(idx) => self.cell(ns.raw_page, idx),
            None => None,
        }
    }

    fn value_at(&self, ns: &NounSlot, off: i32) -> (r: Option<i32>)
        ensures
            r == value_spec(self.spec_pages(), *ns, off),
    {
        if off <= 0 {
            return None;
        }
        let o = off as usize;
        let c: usize = if o >= 2 { o - 2 } else { 0 };
        match ns.row_base.checked_add(c) {
            Some(idx) => self.cell(ns.raw_page, idx),
            None => None,
        }
    }

    /// Reads a field of a noun in two steps (slot, then value), following `base_type`
    /// when the slot is 0 and falling back to the field default when the slot is -1 or
    /// there is no base noun; gives up after `MAX_INHERIT_DEPTH` nouns.
    pub fn raw_field(&self, noun_hash: i32, field_id: i32) -> (r: Option<i32>)
        ensures
            r == self.field_value(noun_hash, field_id),
    {
        let ghost pg = self.spec_pages();
        let ghost nm = self.spec_nouns();
        let ghost fm = self.spec_fields();
        let fs = match self.field_index.get(&field_id) {
            Some(f) => *f,
            None => {
                return None;
            },
        };
        let mut cur = noun_hash;
        let mut d: usize = 0;
        while d < MAX_INHERIT_DEPTH
            invariant
                pg == self.spec_pages(),
                nm == self.spec_nouns(),
                fm == self.spec_fields(),
                fm.contains_key(field_id),
                fs == fm[field_id],
                d <= 32,
                raw_field_spec(pg, nm, fm, noun_hash, field_id) == lookup_spec(
                    pg,
                    nm,
                    fm,
                    fs,
                    cur,
                    (32 - d) as nat,
                ),
            decreases 32 - d,
        {
            let ns = match self.noun_index.get(&cur) {
                Some(n) => *n,
                None => {
                    return None;
                },
            };
            let off = match self.slot_at(&ns, fs.col) {
                Some(o) => o,
                None => {
                    return None;
                },
            };
            if off == -1 {
                return Some(fs.default);
            }
            if off != 0 {
                return self.value_at(&ns, off);
            }
            let bts = match self.field_index.get(&FIELD_BASE_TYPE) {
                Some(b) => *b,
                None => {
                    return None;
                },
            };
            let bt_off = match self.slot_at(&ns, bts.col) {
                Some(o) => o,
                None => {
                    return None;
                },
            };
            if bt_off <= 0 {
                return Some(fs.default);
            }
            match self.value_at(&ns, bt_off) {
                Some(base) => {
                    if base != 0 && base != -1 {
                        cur = base;
                    } else {
                        return Some(fs.default);
                    }
                },
                None => {
                    return Some(fs.default);
                },
            }
            d = d + 1;
        }
        None
    }

    /// A flag field: true exactly when the field reads as 1.
    pub fn field_bool(&self, noun_hash: i32, field_id: i32) -> (b: bool)
        ensures
            b == (self.field_value(noun_hash, field_id) == Some(1i32)),
    {
        match self.raw_field(noun_hash, field_id) {
            Some(v) => v == 1,
            None => false,
        }
    }

    /// An integer field.
    pub fn field_int(&self, noun_hash: i32, field_id: i32) -> (r: Option<i32>)
        ensures
            r == self.field_value(noun_hash, field_id),
    {
        self.raw_field(noun_hash, field_id)
    }

    /// The classification flags of a noun.
    pub fn noun_flags(&self, noun_hash: i32) -> (f: NounFlags)
        requires
            dehash_ok(noun_hash),
        ensures
            self.flags_of(f, noun_hash),
    {
        NounFlags {
            noun_hash,
            noun_name: dehash_noun(noun_hash),
            primitive: self.field_bool(noun_hash, FIELD_PRIMITIVE),
            geomset: self.field_bool(noun_hash, FIELD_GEOMSET),
            extrusion: self.field_bool(noun_hash, FIELD_EXTRUSION),
            is_pointset_point: self.field_bool(noun_hash, FIELD_ISPOINTSETPOINT),
            graphics_behaviour: self.field_int(noun_hash, FIELD_GRAPHICS_BEHAVIOUR),
        }
    }

    /// The flags of every noun in the index, in increasing order of noun hash.
    pub fn all_noun_flags(&self) -> (v: Vec<NounFlags>)
        ensures
            forall|a: int, b: int| 0 <= a < b < v@.len() ==> v@[a].noun_hash < v@[b].noun_hash,
            forall|h: i32|
                self.spec_nouns().contains_key(h) <==> exists|k: int|
                    0 <= k < v@.len() && (#[trigger] v@[k]).noun_hash == h,
            forall|k: int| 0 <= k < v@.len() ==> self.flags_of(#[trigger] v@[k], v@[k].noun_hash),
            v@.len() == self.spec_nouns().len(),
    {
        proof {
            use_type_invariant(self);
            self.noun_keys@.unique_seq_to_set();
            assert(self.spec_nouns().dom() =~= self.noun_keys@.to_set());
        }
        let hashes = sort_keys(&self.noun_keys);
        let mut v: Vec<NounFlags> = Vec::new();
        let mut k: usize = 0;
        while k < hashes.len()
            invariant
                keys_list(self.spec_nouns(), self.noun_keys@),
                strictly_sorted(hashes@),
                forall|h: i32| hashes@.contains(h) <==> self.noun_keys@.contains(h),
                k <= hashes@.len(),
                v@.len() == k,
                hashes@.len() == self.noun_keys@.len(),
                self.noun_keys@.len() == self.spec_nouns().len(),
                forall|q: int| 0 <= q < k ==> (#[trigger] v@[q]).noun_hash == hashes@[q],
                forall|q: int| 0 <= q < k ==> self.flags_of(#[trigger] v@[q], v@[q].noun_hash),
            decreases hashes@.len() - k,
        {
            let h = hashes[k];
            assert(hashes@.contains(h));
            assert(self.spec_nouns().contains_key(h));
            assert(key_in_range(h));
            assert((h as u32) == h) by (bit_vector)
                requires
                    h >= 0,
            ;
            assert(dehash_ok(h));
            v.push(self.noun_flags(h));
            k = k + 1;
        }
        proof {
            assert forall|h: i32|
                self.spec_nouns().contains_key(h) implies exists|q: int|
                    0 <= q < v@.len() && (#[trigger] v@[q]).noun_hash == h by {
                assert(hashes@.contains(h));
                let q = choose|q: int| 0 <= q < hashes@.len() && hashes@[q] == h;
                assert(v@[q].noun_hash == h);
            }
            assert forall|h: i32|
                (exists|q: int| 0 <= q < v@.len() && (#[trigger] v@[q]).noun_hash == h) implies self.spec_nouns().contains_key(h) by {
                let q = choose|q: int| 0 <= q < v@.len() && (#[trigger] v@[q]).noun_hash == h;
                assert(hashes@[q] == h);
                assert(hashes@.contains(h));
            }
        }
        v
    }
}

// ---------------------------------------------------------------------------
// NounClassifier

/// The flags by noun hash after adding `flags` in order (a later noun replaces an earlier one).
pub open spec fn hash_model(flags: Seq<NounFlags>) -> Map<i32, NounFlags>
    decreases flags.len(),
{
    if flags.len() == 0 {
        Map::empty()
    } else {
        hash_model(flags.drop_last()).insert(flags.last().noun_hash, flags.last())
    }
}

/// With pairwise distinct hashes, `hash_model` holds each entry under its own hash
/// and nothing else.
pub proof fn lemma_hash_model_distinct(v: Seq<NounFlags>)
    requires
        forall|a: int, b: int| 0 <= a < b < v.len() ==> v[a].noun_hash != v[b].noun_hash,
    ensures
        forall|h: i32|
            hash_model(v).contains_key(h) <==> exists|k: int|
                0 <= k < v.len() && (#[trigger] v[k]).noun_hash == h,
        forall|k: int| 0 <= k < v.len() ==> hash_model(v)[(#[trigger] v[k]).noun_hash] == v[k],
    decreases v.len(),
{
    if v.len() > 0 {
        let p = v.drop_last();
        lemma_hash_model_distinct(p);
        assert forall|h: i32|
            hash_model(v).contains_key(h) <==> exists|k: int|
                0 <= k < v.len() && (#[trigger] v[k]).noun_hash == h by {
            assert(hash_model(v) == hash_model(p).insert(v.last().noun_hash, v.last()));
            if hash_model(v).contains_key(h) {
                if h != v.last().noun_hash {
                    assert(hash_model(p).contains_key(h));
                    let k = choose|k: int| 0 <= k < p.len() && (#[trigger] p[k]).noun_hash == h;
                    assert(v[k] == p[k]);
                } else {
                    assert(v[v.len() - 1].noun_hash == h);
                }
            }
            if exists|k: int| 0 <= k < v.len() && (#[trigger] v[k]).noun_hash == h {
                let k = choose|k: int| 0 <= k < v.len() && (#[trigger] v[k]).noun_hash == h;
                if k < v.len() - 1 {
                    assert(p[k] == v[k]);
                }
            }
        }
        assert forall|k: int| 0 <= k < v.len() implies hash_model(v)[(#[trigger] v[k]).noun_hash]
            == v[k] by {
            if k < v.len() - 1 {
                assert(p[k] == v[k]);
                assert(v[k].noun_hash != v[v.len() - 1].noun_hash);
            }
        }
    }
}

/// With pairwise distinct normal names, `name_model` maps the normal name of each
/// entry (when it is not empty) to that entry's hash.
pub proof fn lemma_name_model_distinct(v: Seq<NounFlags>, k: int)
    requires
        0 <= k < v.len(),
        norm(v[k].noun_name@).len() > 0,
        forall|a: int, b: int|
            0 <= a < b < v.len() ==> norm(v[a].noun_name@) != norm(v[b].noun_name@),
    ensures
        name_model(v).contains_key(norm(v[k].noun_name@)),
        name_model(v)[norm(v[k].noun_name@)] == v[k].noun_hash,
    decreases v.len(),
{
    let p = v.drop_last();
    if k < v.len() - 1 {
        assert(p[k] == v[k]);
        lemma_name_model_distinct(p, k);
        assert(norm(v[k].noun_name@) != norm(v.last().noun_name@));
    }
}

/// The noun hash by normal name after adding `flags` in order; names that are
/// empty after trimming are not recorded, and a later name replaces an earlier one.
pub open spec fn name_model(flags: Seq<NounFlags>) -> Map<Seq<char>, i32>
    decreases flags.len(),
{
    if flags.len() == 0 {
        Map::empty()
    } else {
        let f = flags.last();
        let key = norm(f.noun_name@);
        if key.len() > 0 {
            name_model(flags.drop_last()).insert(key, f.noun_hash)
        } else {
            name_model(flags.drop_last())
        }
    }
}

/// Which nouns a name list collects.
#[derive(Debug, Clone, Copy, PartialEq, Eq, Structural)]
pub enum NounSelector {
    Primitive,
    Geomset,
    Extrusion,
    /// The heuristic for negative shapes: a geometric noun whose name starts with `N`.
    NegativeCandidate,
}

/// Whether a noun belongs to a selection: its flag is set and its normal name is not
/// empty; for negative candidates, any geometric flag and a normal name starting with `N`.
pub open spec fn selected(sel: NounSelector, f: NounFlags) -> bool {
    let n = norm(f.noun_name@);
    match sel {
        NounSelector::Primitive => f.primitive && n.len() > 0,
        NounSelector::Geomset => f.geomset && n.len() > 0,
        NounSelector::Extrusion => f.extrusion && n.len() > 0,
        NounSelector::NegativeCandidate => (f.primitive || f.geomset || f.extrusion) && n.len() > 0
            && n[0] == 'N',
    }
}

fn is_selected(sel: NounSelector, f: &NounFlags, name: &String) -> (b: bool)
    requires
        name@ == norm(f.noun_name@),
    ensures
        b == selected(sel, *f),
{
    let n = name.as_str().unicode_len();
    match sel {
        NounSelector::Primitive => f.primitive && n > 0,
        NounSelector::Geomset => f.geomset && n > 0,
        NounSelector::Extrusion => f.extrusion && n > 0,
        NounSelector::NegativeCandidate => (f.primitive || f.geomset || f.extrusion) && n > 0
            && name.as_str().get_char(0) == 'N',
    }
}

/// The dictionary flags of the nouns, by hash and by (normalized) name.
pub struct NounClassifier {
    by_hash: HashMap<i32, NounFlags>,
    hashes: Vec<i32>,
    names: StringHashMap<i32>,
}

impl NounClassifier {
    #[verifier::type_invariant]
    spec fn inv(self) -> bool {
        &&& self.hashes@.no_duplicates()
        &&& forall|k: i32| self.by_hash@.contains_key(k) <==> self.hashes@.contains(k)
        &&& forall|n: Seq<char>|
            self.names@.contains_key(n) ==> self.by_hash@.contains_key(#[trigger] self.names@[n])
    }

    /// The flags by noun hash.
    pub closed spec fn spec_by_hash(&self) -> Map<i32, NounFlags> {
        self.by_hash@
    }

    /// The noun hash by normal name.
    pub closed spec fn spec_names(&self) -> Map<Seq<char>, i32> {
        self.names@
    }

    /// The flags that `flags` finds for a name.
    pub open spec fn lookup(&self, noun: Seq<char>) -> Option<NounFlags> {
        let key = norm(noun);
        if self.spec_names().contains_key(key) {
            Some(self.spec_by_hash()[self.spec_names()[key]])
        } else {
            None
        }
    }

    /// Whether the normal name `s` is the name of a noun in the selection.
    pub open spec fn listed(&self, sel: NounSelector, s: Seq<char>) -> bool {
        exists|h: i32|
            #![trigger self.spec_by_hash()[h]]
            self.spec_by_hash().contains_key(h) && selected(sel, self.spec_by_hash()[h]) && norm(
                self.spec_by_hash()[h].noun_name@,
            ) == s
    }

    /// Builds the classifier from a list of noun flags; a later entry for the same
    /// hash or the same normal name replaces an earlier one.
    pub fn from_flags(flags: Vec<NounFlags>) -> (c: Self)
        ensures
            c.spec_by_hash() == hash_model(flags@),
            c.spec_names() == name_model(flags@),
    {
        let ghost all = flags@;
        let mut flags = flags;
        let mut by_hash: HashMap<i32, NounFlags> = HashMap::new();
        let mut hashes: Vec<i32> = Vec::new();
        let mut names: StringHashMap<i32> = StringHashMap::new();
        let ghost mut i: int = 0;
        while flags.len() > 0
            invariant
                0 <= i <= all.len(),
                flags@ == all.subrange(i, all.len() as int),
                by_hash@ == hash_model(all.subrange(0, i)),
                names@ == name_model(all.subrange(0, i)),
                hashes@.no_duplicates(),
                forall|k: i32| by_hash@.contains_key(k) <==> hashes@.contains(k),
                forall|n: Seq<char>|
                    names@.contains_key(n) ==> by_hash@.contains_key(#[trigger] names@[n]),
            decreases flags@.len(),
        {
            let f = flags.remove(0);
            proof {
                assert(f == all[i]);
                assert(all.subrange(0, i + 1).drop_last() =~= all.subrange(0, i));
                assert(all.subrange(0, i + 1).last() == f);
            }
            let key = normalize(f.noun_name.as_str());
            let h = f.noun_hash;
            if key.as_str().unicode_len() > 0 {
                names.insert(key, h);
            }
            let ghost old_keys = hashes@;
            let ghost old_map = by_hash@;
            if !by_hash.contains_key(&h) {
                hashes.push(h);
            }
            by_hash.insert(h, f);
            proof {
                assert forall|k: i32| by_hash@.contains_key(k) <==> hashes@.contains(k) by {
                    if k != h {
                        assert(by_hash@.contains_key(k) == old_map.contains_key(k));
                        if hashes@.len() > old_keys.len() {
                            assert(hashes@ == old_keys.push(h));
                            if old_keys.contains(k) {
                                let j = choose|j: int| 0 <= j < old_keys.len() && old_keys[j] == k;
                                assert(hashes@[j] == k);
                            }
                        }
                    } else {
                        if hashes@.len() > old_keys.len() {
                            assert(hashes@[hashes@.len() - 1] == h);
                        }
                    }
                }
                if hashes@.len() > old_keys.len() {
                    assert(!old_keys.contains(h));
                    assert(hashes@ == old_keys.push(h));
                }
                i = i + 1;
                assert(flags@ =~= all.subrange(i, all.len() as int));
            }
        }
        proof {
            assert(all.subrange(0, i) =~= all);
        }
        NounClassifier { by_hash, hashes, names }
    }

    /// Builds the classifier from every noun of a parsed attribute dictionary (its
    /// `all_noun_flags`): each noun of the NOUN index is found by its hash with the
    /// flags the dictionary gives it.
    pub fn from_attr_file(attr_file: &AttrDataFile) -> (c: Self)
        ensures
            forall|h: i32|
                c.spec_by_hash().contains_key(h) <==> attr_file.spec_nouns().contains_key(h),
            forall|h: i32|
                c.spec_by_hash().contains_key(h) ==> attr_file.flags_of(
                    #[trigger] c.spec_by_hash()[h],
                    h,
                ),
            exists|v: Seq<NounFlags>|
                {
                    &&& forall|a: int, b: int|
                        0 <= a < b < v.len() ==> v[a].noun_hash < v[b].noun_hash
                    &&& forall|k: int|
                        0 <= k < v.len() ==> attr_file.flags_of(#[trigger] v[k], v[k].noun_hash)
                    &&& c.spec_by_hash() == hash_model(v)
                    &&& c.spec_names() == name_model(v)
                },
    {
        let v = attr_file.all_noun_flags();
        let ghost vs = v@;
        let c = Self::from_flags(v);
        proof {
            lemma_hash_model_distinct(vs);
            assert forall|h: i32|
                c.spec_by_hash().contains_key(h) implies attr_file.flags_of(
                    #[trigger] c.spec_by_hash()[h],
                    h,
                ) by {
                let k = choose|k: int| 0 <= k < vs.len() && (#[trigger] vs[k]).noun_hash == h;
                assert(hash_model(vs)[vs[k].noun_hash] == vs[k]);
            }
        }
        c
    }

    /// The number of nouns.
    pub fn len(&self) -> (n: usize)
        ensures
            n == self.spec_by_hash().len(),
    {
        self.by_hash.len()
    }

    /// Whether there are no nouns.
    pub fn is_empty(&self) -> (b: bool)
        ensures
            b == (self.spec_by_hash().len() == 0),
    {
        proof {
            if self.spec_by_hash().len() == 0 {
                assert(self.spec_by_hash().dom() =~= Set::empty());
            }
        }
        self.by_hash.is_empty()
    }

    /// The hash recorded for a normal name.
    fn hash_of_name(&self, key: &String) -> (r: Option<i32>)
        ensures
            r == (if self.spec_names().contains_key(key@) {
                Some(self.spec_names()[key@])
            } else {
                None::<i32>
            }),
    {
        match self.names.get(key.as_str()) {
            Some(h) => Some(*h),
            None => None,
        }
    }

    /// The flags of a noun by name; the name is trimmed and compared in ASCII upper case.
    pub fn flags(&self, noun: &str) -> (r: Option<&NounFlags>)
        ensures
            match r {
                Some(f) => self.lookup(noun@) == Some(*f),
                None => self.lookup(noun@) is None,
            },
            r is Some == self.spec_names().contains_key(norm(noun@)),
    {
        proof {
            use_type_invariant(self);
        }
        let key = normalize(noun);
        match self.hash_of_name(&key) {
            Some(h) => self.by_hash.get(&h),
            None => None,
        }
    }

    /// The flags of a noun by hash.
    pub fn find_noun(&self, noun_hash: i32) -> (r: Option<&NounFlags>)
        ensures
            match r {
                Some(f) => self.spec_by_hash().contains_key(noun_hash) && *f == self.spec_by_hash()[noun_hash],
                None => !self.spec_by_hash().contains_key(noun_hash),
            },
    {
        self.by_hash.get(&noun_hash)
    }

    /// Whether a name (trimmed, upper-cased) is known.
    pub fn contains(&self, noun: &str) -> (b: bool)
        ensures
            b == self.spec_names().contains_key(norm(noun@)),
    {
        let key = normalize(noun);
        self.hash_of_name(&key).is_some()
    }

    /// The `primitive` flag of a noun; false for an unknown noun.
    pub fn primitive(&self, noun: &str) -> (b: bool)
        ensures
            b == (match self.lookup(noun@) {
                Some(f) => f.primitive,
                None => false,
            }),
    {
        match self.flags(noun) {
            Some(f) => f.primitive,
            None => false,
        }
    }

    /// The `geomset` flag of a noun; false for an unknown noun.
    pub fn geomset(&self, noun: &str) -> (b: bool)
        ensures
            b == (match self.lookup(noun@) {
                Some(f) => f.geomset,
                None => false,
            }),
    {
        match self.flags(noun) {
            Some(f) => f.geomset,
            None => false,
        }
    }

    /// The `extrusion` flag of a noun; false for an unknown noun.
    pub fn extrusion(&self, noun: &str) -> (b: bool)
        ensures
            b == (match self.lookup(noun@) {
                Some(f) => f.extrusion,
                None => false,
            }),
    {
        match self.flags(noun) {
            Some(f) => f.extrusion,
            None => false,
        }
    }

    /// The `isPointsetPoint` flag of a noun; false for an unknown noun.
    pub fn is_pointset_point(&self, noun: &str) -> (b: bool)
        ensures
            b == (match self.lookup(noun@) {
                Some(f) => f.is_pointset_point,
                None => false,
            }),
    {
        match self.flags(noun) {
            Some(f) => f.is_pointset_point,
            None => false,
        }
    }

    /// The `graphicsBehaviour` value of a noun; `None` for an unknown noun.
    pub fn graphics_behaviour(&self, noun: &str) -> (r: Option<i32>)
        ensures
            r == (match self.lookup(noun@) {
                Some(f) => f.graphics_behaviour,
                None => None,
            }),
    {
        match self.flags(noun) {
            Some(f) => f.graphics_behaviour,
            None => None,
        }
    }

    /// The normal names of the selected nouns, in increasing order, each once.
    fn nouns_where(&self, sel: NounSelector) -> (v: Vec<String>)
        ensures
            names_sorted(v@),
            forall|s: Seq<char>| names_contain(v@, s) <==> self.listed(sel, s),
    {
        proof {
            use_type_invariant(self);
        }
        let mut v: Vec<String> = Vec::new();
        let mut k: usize = 0;
        while k < self.hashes.len()
            invariant
                self.hashes@.no_duplicates(),
                forall|h: i32| self.by_hash@.contains_key(h) <==> self.hashes@.contains(h),
                k <= self.hashes@.len(),
                names_sorted(v@),
                forall|s: Seq<char>|
                    names_contain(v@, s) <==> exists|q: int|
                        0 <= q < k && #[trigger] selected(sel, self.by_hash@[self.hashes@[q]])
                            && norm(self.by_hash@[self.hashes@[q]].noun_name@) == s,
            decreases self.hashes@.len() - k,
        {
            let h = self.hashes[k];
            assert(self.hashes@.contains(h));
            let f = match self.by_hash.get(&h) {
                Some(f) => f,
                None => {
                    proof {
                        assert(false);
                    }
                    return v;
                },
            };
            let name = normalize(f.noun_name.as_str());
            let ghost old_v = v@;
            let ghost nm = name@;
            let take = is_selected(sel, f, &name);
            if take {
                insert_sorted(&mut v, name);
            }
            proof {
                assert forall|s: Seq<char>|
                    names_contain(v@, s) <==> exists|q: int|
                        0 <= q < k + 1 && #[trigger] selected(sel, self.by_hash@[self.hashes@[q]])
                            && norm(self.by_hash@[self.hashes@[q]].noun_name@) == s by {
                    if names_contain(v@, s) {
                        if names_contain(old_v, s) {
                            let q = choose|q: int|
                                0 <= q < k && #[trigger] selected(sel, self.by_hash@[self.hashes@[q]])
                                    && norm(self.by_hash@[self.hashes@[q]].noun_name@) == s;
                            assert(0 <= q < k + 1);
                        } else {
                            assert(take && s == nm);
                            assert(self.hashes@[k as int] == h);
                            assert(selected(sel, self.by_hash@[self.hashes@[k as int]]));
                        }
                    }
                    if exists|q: int|
                        0 <= q < k + 1 && #[trigger] selected(sel, self.by_hash@[self.hashes@[q]])
                            && norm(self.by_hash@[self.hashes@[q]].noun_name@) == s {
                        let q = choose|q: int|
                            0 <= q < k + 1 && #[trigger] selected(sel, self.by_hash@[self.hashes@[q]])
                                && norm(self.by_hash@[self.hashes@[q]].noun_name@) == s;
                        if q < k {
                            assert(names_contain(old_v, s));
                        } else {
                            assert(self.hashes@[q] == h);
                            assert(take);
                        }
                    }
                }
            }
            k = k + 1;
        }
        proof {
            assert forall|s: Seq<char>| names_contain(v@, s) <==> self.listed(sel, s) by {
                if names_contain(v@, s) {
                    let q = choose|q: int|
                        0 <= q < self.hashes@.len() && #[trigger] selected(sel, self.by_hash@[self.hashes@[q]])
                            && norm(self.by_hash@[self.hashes@[q]].noun_name@) == s;
                    let h = self.hashes@[q];
                    assert(self.hashes@.contains(h));
                    assert(self.spec_by_hash().contains_key(h));
                    assert(self.spec_by_hash()[h] == self.by_hash@[h]);
                }
                if self.listed(sel, s) {
                    let h = choose|h: i32|
                        #![trigger self.spec_by_hash()[h]]
                        self.spec_by_hash().contains_key(h) && selected(sel, self.spec_by_hash()[h])
                            && norm(self.spec_by_hash()[h].noun_name@) == s;
                    assert(self.hashes@.contains(h));
                    let q = choose|q: int| 0 <= q < self.hashes@.len() && self.hashes@[q] == h;
                    assert(selected(sel, self.by_hash@[self.hashes@[q]]));
                }
            }
        }
        v
    }

    /// The names of the primitive nouns, sorted, each once.
    pub fn primitive_nouns(&self) -> (v: Vec<String>)
        ensures
            names_sorted(v@),
            forall|s: Seq<char>| names_contain(v@, s) <==> self.listed(NounSelector::Primitive, s),
    {
        self.nouns_where(NounSelector::Primitive)
    }

    /// The names of the geometry-set nouns, sorted, each once.
    pub fn geomset_nouns(&self) -> (v: Vec<String>)
        ensures
            names_sorted(v@),
            forall|s: Seq<char>| names_contain(v@, s) <==> self.listed(NounSelector::Geomset, s),
    {
        self.nouns_where(NounSelector::Geomset)
    }

    /// The names of the extrusion nouns, sorted, each once.
    pub fn extrusion_nouns(&self) -> (v: Vec<String>)
        ensures
            names_sorted(v@),
            forall|s: Seq<char>| names_contain(v@, s) <==> self.listed(NounSelector::Extrusion, s),
    {
        self.nouns_where(NounSelector::Extrusion)
    }

    /// Candidates for negative shapes: geometric nouns (primitive, geometry set or
    /// extrusion) whose name starts with `N`; sorted, each once. A heuristic only.
    pub fn negative_candidate_nouns(&self) -> (v: Vec<String>)
        ensures
            names_sorted(v@),
            forall|s: Seq<char>|
                names_contain(v@, s) <==> self.listed(NounSelector::NegativeCandidate, s),
    {
        self.nouns_where(NounSelector::NegativeCandidate)
    }
}

/// A name finds flags exactly when the classifier knows it: `flags(s)` is `Some`
/// exactly when `contains(s)`.
pub proof fn lemma_flags_found_iff_known(c: NounClassifier, noun: Seq<char>)
    ensures
        c.lookup(noun) is Some == c.spec_names().contains_key(norm(noun)),
{
}

/// The index of the last entry of `v` with hash `h`, or -1 when there is none.
pub open spec fn last_with_hash(v: Seq<NounFlags>, h: i32) -> int
    decreases v.len(),
{
    if v.len() == 0 {
        -1
    } else if v.last().noun_hash == h {
        v.len() - 1
    } else {
        last_with_hash(v.drop_last(), h)
    }
}

/// The index of the last entry of `v` whose normal name is `n`, or -1 when there is none.
pub open spec fn last_with_name(v: Seq<NounFlags>, n: Seq<char>) -> int
    decreases v.len(),
{
    if v.len() == 0 {
        -1
    } else if norm(v.last().noun_name@) == n {
        v.len() - 1
    } else {
        last_with_name(v.drop_last(), n)
    }
}

/// The distinct noun hashes of a list of flags.
pub open spec fn noun_hashes(v: Seq<NounFlags>) -> Set<i32> {
    Set::new(|h: i32| exists|k: int| 0 <= k < v.len() && v[k].noun_hash == h)
}

/// Built from a list of flags, the classifier holds under each hash the last entry
/// of the list with that hash, and holds no other hash.
pub proof fn law_from_flags_last_hash_wins(v: Seq<NounFlags>, h: i32)
    ensures
        -1 <= last_with_hash(v, h) < v.len(),
        last_with_hash(v, h) >= 0 ==> v[last_with_hash(v, h)].noun_hash == h,
        forall|j: int| 0 <= j < v.len() && v[j].noun_hash == h ==> j <= last_with_hash(v, h),
        hash_model(v).contains_key(h) == (last_with_hash(v, h) >= 0),
        last_with_hash(v, h) >= 0 ==> hash_model(v)[h] == v[last_with_hash(v, h)],
    decreases v.len(),
{
    if v.len() > 0 {
        let p = v.drop_last();
        law_from_flags_last_hash_wins(p, h);
        assert forall|j: int| 0 <= j < v.len() && v[j].noun_hash == h implies j <= last_with_hash(v, h) by {
            if j < v.len() - 1 && v.last().noun_hash != h {
                assert(p[j] == v[j]);
            }
        }
    }
}

/// Built from a list of flags, the classifier holds as many nouns as the list has
/// distinct hashes, and none exactly when the list is empty.
pub proof fn law_from_flags_count(v: Seq<NounFlags>)
    ensures
        hash_model(v).dom() == noun_hashes(v),
        hash_model(v).dom().finite(),
        hash_model(v).len() == noun_hashes(v).len(),
        (hash_model(v).len() == 0) == (v.len() == 0),
    decreases v.len(),
{
    if v.len() == 0 {
        assert(noun_hashes(v) =~= Set::empty());
        assert(hash_model(v).dom() =~= Set::empty());
    } else {
        let p = v.drop_last();
        law_from_flags_count(p);
        assert(noun_hashes(v) =~= noun_hashes(p).insert(v.last().noun_hash)) by {
            assert forall|h: i32| noun_hashes(v).contains(h) implies noun_hashes(p).insert(
                v.last().noun_hash,
            ).contains(h) by {
                let k = choose|k: int| 0 <= k < v.len() && v[k].noun_hash == h;
                if k < v.len() - 1 {
                    assert(p[k] == v[k]);
                }
            }
            assert forall|h: i32| noun_hashes(p).insert(v.last().noun_hash).contains(h) implies noun_hashes(
                v,
            ).contains(h) by {
                if h != v.last().noun_hash {
                    let k = choose|k: int| 0 <= k < p.len() && p[k].noun_hash == h;
                    assert(v[k] == p[k]);
                } else {
                    assert(v[v.len() - 1].noun_hash == h);
                }
            }
        }
        assert(hash_model(v).dom() =~= hash_model(p).dom().insert(v.last().noun_hash));
        assert(hash_model(v).dom().contains(v.last().noun_hash));
        vstd::set_lib::lemma_set_empty_equivalency_len(hash_model(v).dom());
    }
}

/// Built from a list of flags, the classifier knows a normal name exactly when it is
/// not empty and some entry has it, and gives it the hash of the last such entry.
pub proof fn law_from_flags_last_name_wins(v: Seq<NounFlags>, n: Seq<char>)
    ensures
        -1 <= last_with_name(v, n) < v.len(),
        last_with_name(v, n) >= 0 ==> norm(v[last_with_name(v, n)].noun_name@) == n,
        forall|j: int| 0 <= j < v.len() && norm(v[j].noun_name@) == n ==> j <= last_with_name(v, n),
        name_model(v).contains_key(n) == (n.len() > 0 && last_with_name(v, n) >= 0),
        name_model(v).contains_key(n) ==> name_model(v)[n] == v[last_with_name(v, n)].noun_hash,
    decreases v.len(),
{
    if v.len() > 0 {
        let p = v.drop_last();
        law_from_flags_last_name_wins(p, n);
        assert forall|j: int| 0 <= j < v.len() && norm(v[j].noun_name@) == n implies j <= last_with_name(v, n) by {
            if j < v.len() - 1 && norm(v.last().noun_name@) != n {
                assert(p[j] == v[j]);
            }
        }
    }
}

/// Built from a list of flags, the classifier finds flags for a name exactly when it
/// knows the name, and they are the flags held under the hash of the last entry with
/// that normal name: `flags(s) == find_noun(g.noun_hash)` for that entry `g`.
pub proof fn law_from_flags_lookup(c: NounClassifier, v: Seq<NounFlags>, s: Seq<char>)
    requires
        c.spec_by_hash() == hash_model(v),
        c.spec_names() == name_model(v),
    ensures
        c.spec_names().contains_key(norm(s)) == (norm(s).len() > 0 && last_with_name(v, norm(s)) >= 0),
        c.spec_names().contains_key(norm(s)) ==> {
            let g = v[last_with_name(v, norm(s))];
            &&& c.spec_by_hash().contains_key(g.noun_hash)
            &&& c.lookup(s) == Some(c.spec_by_hash()[g.noun_hash])
        },
        !c.spec_names().contains_key(norm(s)) ==> c.lookup(s) is None,
{
    law_from_flags_last_name_wins(v, norm(s));
    let k = last_with_name(v, norm(s));
    if c.spec_names().contains_key(norm(s)) {
        law_from_flags_last_hash_wins(v, v[k].noun_hash);
    }
}

/// Names are read without regard to case or surrounding whitespace: a name and its
/// normal form find the same flags.
pub proof fn lemma_lookup_normal_name(c: NounClassifier, noun: Seq<char>)
    ensures
        c.lookup(norm(noun)) == c.lookup(noun),
{
    lemma_norm_idempotent(noun);
}

/// A classifier built from flags with distinct hashes and distinct normal names
/// gives back, for each noun with a name, exactly its flags, by name and by hash,
/// and lists the noun's name among the primitive, geometry-set and extrusion nouns
/// exactly when the noun has that flag.
pub proof fn lemma_classifier_reads_back(c: NounClassifier, v: Seq<NounFlags>, k: int)
    requires
        c.spec_by_hash() == hash_model(v),
        c.spec_names() == name_model(v),
        forall|a: int, b: int| 0 <= a < b < v.len() ==> v[a].noun_hash != v[b].noun_hash,
        forall|a: int, b: int|
            0 <= a < b < v.len() ==> norm(v[a].noun_name@) != norm(v[b].noun_name@),
        0 <= k < v.len(),
        norm(v[k].noun_name@).len() > 0,
    ensures
        c.spec_by_hash().contains_key(v[k].noun_hash),
        c.spec_by_hash()[v[k].noun_hash] == v[k],
        c.lookup(v[k].noun_name@) == Some(v[k]),
        v[k].primitive == c.listed(NounSelector::Primitive, norm(v[k].noun_name@)),
        v[k].geomset == c.listed(NounSelector::Geomset, norm(v[k].noun_name@)),
        v[k].extrusion == c.listed(NounSelector::Extrusion, norm(v[k].noun_name@)),
{
    lemma_hash_model_distinct(v);
    lemma_name_model_distinct(v, k);
    let h = v[k].noun_hash;
    let n = norm(v[k].noun_name@);
    assert(hash_model(v).contains_key(h));
    assert(c.spec_by_hash()[h] == v[k]);
    assert forall|sel: NounSelector|
        #![trigger c.listed(sel, n)]
        sel != NounSelector::NegativeCandidate implies c.listed(sel, n) == selected(sel, v[k]) by {
        if c.listed(sel, n) {
            let g = choose|g: i32|
                #![trigger c.spec_by_hash()[g]]
                c.spec_by_hash().contains_key(g) && selected(sel, c.spec_by_hash()[g]) && norm(
                    c.spec_by_hash()[g].noun_name@,
                ) == n;
            let j = choose|j: int| 0 <= j < v.len() && (#[trigger] v[j]).noun_hash == g;
            assert(c.spec_by_hash()[g] == v[j]);
            if j != k {
                if j < k {
                    assert(norm(v[j].noun_name@) != norm(v[k].noun_name@));
                } else {
                    assert(norm(v[k].noun_name@) != norm(v[j].noun_name@));
                }
            }
        }
        if selected(sel, v[k]) {
            assert(c.spec_by_hash().contains_key(h) && selected(sel, c.spec_by_hash()[h]) && norm(
                c.spec_by_hash()[h].noun_name@,
            ) == n);
        }
    }
    assert(c.listed(NounSelector::Primitive, n) == selected(NounSelector::Primitive, v[k]));
    assert(c.listed(NounSelector::Geomset, n) == selected(NounSelector::Geomset, v[k]));
    assert(c.listed(NounSelector::Extrusion, n) == selected(NounSelector::Extrusion, v[k]));
}

/// A primitive, geometry-set or extrusion noun whose normal name starts with `N` is
/// a negative candidate: with `lemma_negative_candidates_are_geometric`, the negative
/// candidates are exactly these nouns.
pub proof fn law_geometric_n_nouns_are_negative_candidates(c: NounClassifier, s: Seq<char>)
    requires
        c.listed(NounSelector::Primitive, s) || c.listed(NounSelector::Geomset, s) || c.listed(
            NounSelector::Extrusion,
            s,
        ),
        s.len() > 0,
        s[0] == 'N',
    ensures
        c.listed(NounSelector::NegativeCandidate, s),
{
    let sel = if c.listed(NounSelector::Primitive, s) {
        NounSelector::Primitive
    } else if c.listed(NounSelector::Geomset, s) {
        NounSelector::Geomset
    } else {
        NounSelector::Extrusion
    };
    let h = choose|h: i32|
        #![trigger c.spec_by_hash()[h]]
        c.spec_by_hash().contains_key(h) && selected(sel, c.spec_by_hash()[h]) && norm(
            c.spec_by_hash()[h].noun_name@,
        ) == s;
    let f = c.spec_by_hash()[h];
    assert(f.primitive || f.geomset || f.extrusion);
    assert(selected(NounSelector::NegativeCandidate, f));
}

/// Every negative candidate is a primitive, geometry-set or extrusion noun whose
/// normal name starts with `N`.
pub proof fn lemma_negative_candidates_are_geometric(c: NounClassifier, s: Seq<char>)
    requires
        c.listed(NounSelector::NegativeCandidate, s),
    ensures
        c.listed(NounSelector::Primitive, s) || c.listed(NounSelector::Geomset, s) || c.listed(
            NounSelector::Extrusion,
            s,
        ),
        s.len() > 0 && s[0] == 'N',
{
    let h = choose|h: i32|
        #![trigger c.spec_by_hash()[h]]
        c.spec_by_hash().contains_key(h) && selected(NounSelector::NegativeCandidate, c.spec_by_hash()[h])
            && norm(c.spec_by_hash()[h].noun_name@) == s;
    let f = c.spec_by_hash()[h];
    if f.primitive {
        assert(selected(NounSelector::Primitive, f));
    } else if f.geomset {
        assert(selected(NounSelector::Geomset, f));
    } else {
        assert(selected(NounSelector::Extrusion, f));
    }
}

impl Default for NounClassifier {
    fn default() -> (c: Self)
        ensures
            c.spec_by_hash() == Map::<i32, NounFlags>::empty(),
            c.spec_names() == Map::<Seq<char>, i32>::empty(),
    {
        NounClassifier { by_hash: HashMap::new(), hashes: Vec::new(), names: StringHashMap::new() }
    }
}

} // verus!
