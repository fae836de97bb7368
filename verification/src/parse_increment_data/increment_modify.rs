//! Telling what an incremental record did to an element: added it under its
//! owner, modified it, or deleted it, by looking for the owner's and the element's
//! reference numbers in the bytes before the record.
use vstd::prelude::*;
use vstd::slice::slice_subrange;
use crate::helper::{be_u16_at, read_be_u16};
use crate::parse_increment_data::NewDataState;

verus! {

/// Whether `needle` occurs in `haystack` at `i`.
pub open spec fn occurs_at(haystack: Seq<u8>, needle: Seq<u8>, i: int) -> bool {
    0 <= i && i + needle.len() <= haystack.len() && haystack.subrange(i, i + needle.len()) == needle
}

/// Whether `needle` occurs anywhere in `haystack`.
pub open spec fn occurs_in(haystack: Seq<u8>, needle: Seq<u8>) -> bool {
    exists|i: int| occurs_at(haystack, needle, i)
}

/// Whether `i` is the last occurrence of `needle` that ends by `bound`.
pub open spec fn is_last_before(haystack: Seq<u8>, needle: Seq<u8>, bound: int, i: int) -> bool {
    &&& occurs_at(haystack, needle, i)
    &&& i + needle.len() <= bound
    &&& forall|j: int|
        occurs_at(haystack, needle, j) && j + needle.len() <= bound ==> j <= i
}

/// The non-overlapping occurrences of a non-empty `needle` that end by `bound`, from
/// the last one back: each is the last occurrence that ends where the previous begins.
pub open spec fn rev_matches(haystack: Seq<u8>, needle: Seq<u8>, bound: int) -> Seq<int>
    decreases bound,
{
    if needle.len() > 0 && exists|i: int| is_last_before(haystack, needle, bound, i) {
        let i = choose|i: int| is_last_before(haystack, needle, bound, i);
        seq![i] + rev_matches(haystack, needle, i)
    } else {
        Seq::empty()
    }
}

/// The first occurrence of `needle` in `haystack` (`memchr::memmem::find_iter`, its
/// first item). Trusted: the position is an occurrence and none comes before it, or
/// there is no occurrence at all.
#[verifier::external_body]
fn find_first(haystack: &[u8], needle: &[u8]) -> (r: Option<usize>)
    ensures
        match r {
            Some(i) => occurs_at(haystack@, needle@, i as int) && forall|j: int|
                0 <= j < i ==> !occurs_at(haystack@, needle@, j),
            None => !occurs_in(haystack@, needle@),
        },
{
    memchr::memmem::find_iter(haystack, needle).next()
}

/// All non-overlapping occurrences of a non-empty `needle` from the last one back
/// (`memchr::memmem::rfind_iter`, collected). Trusted: the iterator looks for the last
/// occurrence in the haystack cut at the previous match, which is `rev_matches`.
#[verifier::external_body]
fn rfind_all(haystack: &[u8], needle: &[u8]) -> (v: Vec<usize>)
    requires
        needle@.len() > 0,
    ensures
        v@.map_values(|p: usize| p as int) == rev_matches(haystack@, needle@, haystack@.len() as int),
{
    memchr::memmem::rfind_iter(haystack, needle).collect()
}

/// Whether the two bytes before `p - 2` mark a children list (`00 02`).
pub open spec fn children_marker(w: Seq<u8>, p: int) -> bool {
    w[p - 4] == 0 && w[p - 3] == 2
}

/// The byte length of the children list whose marker is at `p - 4`: its word count
/// (the big-endian `u16` at `p - 2`) times 4.
pub open spec fn children_bytes(w: Seq<u8>, p: int) -> int {
    be_u16_at(w, p - 2) as int * 4
}

/// Looks through the owner's occurrences `chain` for the first one preceded by a
/// children list; the element was added when its reference number is in that list.
pub open spec fn scan_children(w: Seq<u8>, refno: Seq<u8>, chain: Seq<int>) -> Option<NewDataState>
    decreases chain.len(),
{
    if chain.len() == 0 {
        None
    } else {
        let p = chain[0];
        if children_marker(w, p) {
            if occurs_in(w.subrange(p - 4, p - 4 + children_bytes(w, p)), refno) {
                Some(NewDataState::Increase)
            } else {
                None
            }
        } else {
            scan_children(w, refno, chain.drop_first())
        }
    }
}

/// The scan of `scan_children` stays inside the window: each occurrence it looks at
/// has room for the marker, and the children list it reads fits.
pub open spec fn scan_fits(w: Seq<u8>, chain: Seq<int>) -> bool
    decreases chain.len(),
{
    chain.len() == 0 || {
        let p = chain[0];
        &&& p >= 4
        &&& if children_marker(w, p) {
            p - 4 + children_bytes(w, p) <= w.len()
        } else {
            scan_fits(w, chain.drop_first())
        }
    }
}

/// The 300 bytes before the record.
pub open spec fn owner_window(input: Seq<u8>, pos: int) -> Seq<u8> {
    input.subrange(pos - 300, pos)
}

/// The owner's reference number: bytes 12..20 of the record.
pub open spec fn record_owner(input: Seq<u8>, pos: int) -> Seq<u8> {
    input.subrange(pos + 12, pos + 20)
}

/// What the record at `pos` did. When the owner occurs in the 300 bytes before it,
/// the children list before the owner's last such occurrence decides (the element
/// was added if it is listed). Otherwise, when the element occurs in the two pages
/// (`0x1000` bytes) before the record, it was modified if the record follows a
/// `00 00 00 07` word; when it does not occur there, it was deleted.
pub open spec fn increase_operate_spec(input: Seq<u8>, pos: int, refno: Seq<u8>) -> Option<NewDataState> {
    let w = owner_window(input, pos);
    let o = record_owner(input, pos);
    if occurs_in(w, o) {
        scan_children(w, refno, rev_matches(w, o, w.len() as int))
    } else if occurs_in(input.subrange(pos - 0x1000, pos), refno) {
        if input.subrange(pos - 4, pos) == seq![0u8, 0u8, 0u8, 7u8] {
            Some(NewDataState::Modify)
        } else {
            None
        }
    } else {
        Some(NewDataState::Delete)
    }
}

/// Every position of `rev_matches` is an occurrence.
pub proof fn lemma_rev_matches_occur(haystack: Seq<u8>, needle: Seq<u8>, bound: int)
    ensures
        forall|q: int|
            0 <= q < rev_matches(haystack, needle, bound).len() ==> occurs_at(
                haystack,
                needle,
                #[trigger] rev_matches(haystack, needle, bound)[q],
            ),
    decreases bound,
{
    if needle.len() > 0 && exists|i: int| is_last_before(haystack, needle, bound, i) {
        let i = choose|i: int| is_last_before(haystack, needle, bound, i);
        lemma_rev_matches_occur(haystack, needle, i);
        let c = rev_matches(haystack, needle, bound);
        assert(c == seq![i] + rev_matches(haystack, needle, i));
        assert forall|q: int| 0 <= q < c.len() implies occurs_at(haystack, needle, #[trigger] c[q]) by {
            if q > 0 {
                assert(c[q] == rev_matches(haystack, needle, i)[q - 1]);
            }
        }
    }
}

proof fn lemma_window_bytes(input: Seq<u8>, pos: int)
    requires
        4 <= pos <= input.len(),
    ensures
        (input.subrange(pos - 4, pos) == seq![0u8, 0u8, 0u8, 7u8]) == (input[pos - 4] == 0
            && input[pos - 3] == 0 && input[pos - 2] == 0 && input[pos - 1] == 7),
{
    let t = input.subrange(pos - 4, pos);
    if input[pos - 4] == 0 && input[pos - 3] == 0 && input[pos - 2] == 0 && input[pos - 1] == 7 {
        assert(t =~= seq![0u8, 0u8, 0u8, 7u8]);
    }
    if t == seq![0u8, 0u8, 0u8, 7u8] {
        assert(t[0] == input[pos - 4] && t[1] == input[pos - 3] && t[2] == input[pos - 2] && t[3]
            == input[pos - 1]);
    }
}

/// Detects whether the incremental record at `pos` added, modified or deleted the
/// element `refno` (see `increase_operate_spec`); `None` when nothing decides.
pub fn check_increase_operate(input: &[u8], pos: usize, refno: &[u8]) -> (r: Option<NewDataState>)
    requires
        300 <= pos,
        pos + 20 <= input@.len(),
        occurs_in(owner_window(input@, pos as int), record_owner(input@, pos as int)) ==> scan_fits(
            owner_window(input@, pos as int),
            rev_matches(
                owner_window(input@, pos as int),
                record_owner(input@, pos as int),
                300,
            ),
        ),
        !occurs_in(owner_window(input@, pos as int), record_owner(input@, pos as int)) ==> 0x1000
            <= pos,
    ensures
        r == increase_operate_spec(input@, pos as int, refno@),
{
    assert(pos + 20 <= input.len());
    let owner = slice_subrange(input, pos + 12, pos + 20);
    let window = slice_subrange(input, pos - 300, pos);
    let ghost w = window@;
    let ghost o = owner@;
    assert(w == owner_window(input@, pos as int));
    assert(o == record_owner(input@, pos as int));
    match find_first(window, owner) {
        Some(i0) => {
            assert(occurs_at(w, o, i0 as int));
            assert(occurs_in(w, o));
            let matches = rfind_all(window, owner);
            let ghost chain = rev_matches(w, o, w.len() as int);
            assert(w.len() == 300);
            proof {
                lemma_rev_matches_occur(w, o, 300);
            }
            let mut k: usize = 0;
            assert(chain.skip(0) =~= chain);
            while k < matches.len()
                invariant
                    w == window@,
                    w.len() == 300,
                    forall|q: int| 0 <= q < chain.len() ==> occurs_at(w, o, #[trigger] chain[q]),
                    o.len() == 8,
                    increase_operate_spec(input@, pos as int, refno@) == scan_children(w, refno@, chain),
                    matches@.map_values(|p: usize| p as int) == chain,
                    k <= matches@.len(),
                    scan_children(w, refno@, chain) == scan_children(w, refno@, chain.skip(k as int)),
                    scan_fits(w, chain.skip(k as int)),
                decreases matches@.len() - k,
            {
                let p = matches[k];
                let ghost rest = chain.skip(k as int);
                assert(rest[0] == p as int);
                assert(rest.drop_first() =~= chain.skip(k + 1));
                if window[p - 4] == 0 && window[p - 3] == 2 {
                    let count = read_be_u16(window, p - 2) as usize;
                    assert(count * 4 == children_bytes(w, p as int));
                    let children = slice_subrange(window, p - 4, p - 4 + count * 4);
                    assert(children_marker(w, p as int));
                    return match find_first(children, refno) {
                        Some(_) => Some(NewDataState::Increase),
                        None => None,
                    };
                }
                k = k + 1;
            }
            assert(chain.skip(k as int) =~= Seq::<int>::empty());
            None
        },
        None => {
            let before = slice_subrange(input, pos - 0x1000, pos);
            proof {
                lemma_window_bytes(input@, pos as int);
            }
            match find_first(before, refno) {
                Some(_) => {
                    if input[pos - 4] == 0 && input[pos - 3] == 0 && input[pos - 2] == 0 && input[pos
                        - 1] == 7 {
                        Some(NewDataState::Modify)
                    } else {
                        None
                    }
                },
                None => Some(NewDataState::Delete),
            }
        },
    }
}

} // verus!
