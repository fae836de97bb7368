//! Byte-level helpers of the record format: the `0`/`7` padding words that may
//! follow an implicit block, length-prefixed blocks, flags and alignment.
use vstd::prelude::*;
use vstd::slice::slice_subrange;
use crate::helper::{be_u16_at, be_u32_at, read_be_u16, read_be_u32};

verus! {

/// A padding word of zeros.
pub const PADDING_ZERO: [u8; 4] = [0x00, 0x00, 0x00, 0x00];
/// A padding word ending in 7.
pub const PADDING_SEVEN: [u8; 4] = [0x00, 0x00, 0x00, 0x07];

/// Why a byte-level parser stopped.
#[derive(Debug, Clone, Copy, PartialEq, Eq, Structural)]
pub enum ParseFailure {
    /// The input ended too early.
    Eof,
    /// A tag or flag had another value than expected.
    Tag,
    /// More input is needed than there is.
    Incomplete,
    /// A length or offset read from the input reaches outside it.
    OutOfRange,
    /// The input repeats a step without consuming anything.
    NoProgress,
}

/// Whether the four bytes at `pos` are a padding word (`00 00 00 00` or `00 00 00 07`).
pub open spec fn is_pad_at(s: Seq<u8>, pos: int) -> bool {
    &&& 0 <= pos
    &&& pos + 4 <= s.len()
    &&& s[pos] == 0
    &&& s[pos + 1] == 0
    &&& s[pos + 2] == 0
    &&& (s[pos + 3] == 0 || s[pos + 3] == 7)
}

/// The position after the run of padding words that starts at `pos`.
pub open spec fn pad_end(s: Seq<u8>, pos: int) -> int
    decreases s.len() - pos,
{
    if is_pad_at(s, pos) {
        pad_end(s, pos + 4)
    } else {
        pos
    }
}

fn pad_at(input: &[u8], pos: usize) -> (b: bool)
    requires
        pos + 4 <= input@.len(),
    ensures
        b == is_pad_at(input@, pos as int),
{
    input[pos] == 0 && input[pos + 1] == 0 && input[pos + 2] == 0 && (input[pos + 3] == 0
        || input[pos + 3] == 7)
}

/// Extends a declared block length over the padding words that follow it.
pub fn extend_impl_len(declared: usize, input: &[u8]) -> (actual: usize)
    requires
        declared as int + 4 <= usize::MAX,
    ensures
        actual == pad_end(input@, declared as int),
{
    let n = input.len();
    let mut actual = declared;
    while n >= 4 && actual <= n - 4 && pad_at(input, actual)
        invariant
            n == input@.len(),
            declared <= actual,
            pad_end(input@, declared as int) == pad_end(input@, actual as int),
        decreases n - actual,
    {
        actual = actual + 4;
    }
    actual
}

/// Whether the input starts with a padding word.
pub fn starts_with_padding(input: &[u8]) -> (b: bool)
    ensures
        b == is_pad_at(input@, 0),
{
    if input.len() < 4 {
        return false;
    }
    pad_at(input, 0)
}

/// The offset of the first word that is not padding.
pub fn find_non_padding(input: &[u8]) -> (pos: usize)
    ensures
        pos == pad_end(input@, 0),
{
    let n = input.len();
    let mut pos: usize = 0;
    while n >= 4 && pos <= n - 4 && pad_at(input, pos)
        invariant
            n == input@.len(),
            pos <= n,
            pad_end(input@, 0) == pad_end(input@, pos as int),
        decreases n - pos,
    {
        pos = pos + 4;
    }
    pos
}

/// The input after its leading padding words.
pub fn skip_padding(input: &[u8]) -> (rest: &[u8])
    ensures
        rest@ == input@.subrange(pad_end(input@, 0), input@.len() as int),
{
    let pos = find_non_padding(input);
    proof {
        lemma_pad_end_bounds(input@, 0);
    }
    slice_subrange(input, pos, input.len())
}

/// A padding run ends inside the input, on a word boundary past its start.
pub proof fn lemma_pad_end_bounds(s: Seq<u8>, pos: int)
    requires
        0 <= pos <= s.len(),
    ensures
        pos <= pad_end(s, pos) <= s.len(),
        (pad_end(s, pos) - pos) % 4 == 0,
    decreases s.len() - pos,
{
    if is_pad_at(s, pos) {
        lemma_pad_end_bounds(s, pos + 4);
    }
}

/// Takes `len` bytes: the rest of the input and the bytes taken.
pub fn take_bytes(len: usize, input: &[u8]) -> (r: Result<(&[u8], &[u8]), ParseFailure>)
    ensures
        match r {
            Ok((rest, taken)) => len <= input@.len() && taken@ == input@.subrange(0, len as int)
                && rest@ == input@.subrange(len as int, input@.len() as int),
            Err(e) => len > input@.len() && e == ParseFailure::Eof,
        },
{
    if len > input.len() {
        return Err(ParseFailure::Eof);
    }
    Ok((slice_subrange(input, len, input.len()), slice_subrange(input, 0, len)))
}

/// Whether the declared length of an implicit block can be computed in `usize`.
pub open spec fn impl_block_len_fits(s: Seq<u8>) -> bool {
    s.len() >= 4 ==> be_u32_at(s, 0) as int * 4 + 4 <= usize::MAX
}

/// Takes an implicit block: its length in words is the leading big-endian `u32`
/// (the length word counts towards it), extended over the padding words that follow.
/// Gives the rest of the input and the block without its length word.
pub fn take_impl_block(input: &[u8]) -> (r: Result<(&[u8], &[u8]), ParseFailure>)
    requires
        impl_block_len_fits(input@),
    ensures
        match r {
            Ok((rest, block)) => {
                let actual = pad_end(input@, be_u32_at(input@, 0) as int * 4);
                &&& input@.len() >= 4
                &&& 4 <= actual <= input@.len()
                &&& block@ == input@.subrange(4, actual)
                &&& rest@ == input@.subrange(actual, input@.len() as int)
            },
            Err(e) => e == ParseFailure::Eof && (input@.len() < 4 || pad_end(
                input@,
                be_u32_at(input@, 0) as int * 4,
            ) > input@.len()),
        },
{
    if input.len() < 4 {
        return Err(ParseFailure::Eof);
    }
    let words = read_be_u32(input, 0);
    let declared = (words as usize) * 4;
    let actual = extend_impl_len(declared, input);
    if actual > input.len() {
        return Err(ParseFailure::Eof);
    }
    proof {
        lemma_extend_impl_len(input@, declared as int);
        if words == 0 {
            assert(input@[0] == 0 && input@[1] == 0 && input@[2] == 0 && input@[3] == 0);
            assert(is_pad_at(input@, 0));
            lemma_extend_impl_len(input@, 4);
        }
    }
    Ok((slice_subrange(input, actual, input.len()), slice_subrange(input, 4, actual)))
}

/// Checks that the input starts with the big-endian flag `expected`; gives the rest and the flag.
pub fn verify_flag(input: &[u8], expected: u16) -> (r: Result<(&[u8], u16), ParseFailure>)
    ensures
        match r {
            Ok((rest, flag)) => input@.len() >= 2 && be_u16_at(input@, 0) == expected && flag
                == expected && rest@ == input@.subrange(2, input@.len() as int),
            Err(e) => (input@.len() < 2 && e == ParseFailure::Eof) || (input@.len() >= 2
                && be_u16_at(input@, 0) != expected && e == ParseFailure::Tag),
        },
{
    if input.len() < 2 {
        return Err(ParseFailure::Eof);
    }
    let flag = read_be_u16(input, 0);
    if flag != expected {
        return Err(ParseFailure::Tag);
    }
    Ok((slice_subrange(input, 2, input.len()), flag))
}

/// Whether the input starts with the four bytes of `marker`.
pub fn is_marker(input: &[u8], marker: &[u8; 4]) -> (b: bool)
    ensures
        b == (input@.len() >= 4 && input@.subrange(0, 4) == marker@),
{
    if input.len() < 4 {
        return false;
    }
    let r = input[0] == marker[0] && input[1] == marker[1] && input[2] == marker[2] && input[3]
        == marker[3];
    proof {
        if r {
            assert(input@.subrange(0, 4) =~= marker@);
        } else {
            if input@.subrange(0, 4) == marker@ {
                assert(input@.subrange(0, 4)[0] == input@[0]);
                assert(input@.subrange(0, 4)[1] == input@[1]);
                assert(input@.subrange(0, 4)[2] == input@[2]);
                assert(input@.subrange(0, 4)[3] == input@[3]);
            }
        }
    }
    r
}

/// Rounds a length up to a multiple of 4.
pub fn align_to_word(len: usize) -> (r: usize)
    requires
        len as int + 3 <= usize::MAX,
    ensures
        r == (len as int + 3) / 4 * 4,
{
    let x: usize = len + 3;
    let r = x & !3usize;
    assert(r == x / 4 * 4) by (bit_vector)
        requires
            r == x & !3usize,
    ;
    r
}

/// Rounds a length up to a multiple of 8.
pub fn align_to_8(len: usize) -> (r: usize)
    requires
        len as int + 7 <= usize::MAX,
    ensures
        r == (len as int + 7) / 8 * 8,
{
    let x: usize = len + 7;
    let r = x & !7usize;
    assert(r == x / 8 * 8) by (bit_vector)
        requires
            r == x & !7usize,
    ;
    r
}

/// The bytes `start..end`, if that is a range of the input.
pub fn safe_slice(input: &[u8], start: usize, end: usize) -> (r: Option<&[u8]>)
    ensures
        match r {
            Some(s) => start <= end <= input@.len() && s@ == input@.subrange(start as int, end as int),
            None => !(start <= end <= input@.len()),
        },
{
    if start <= end && end <= input.len() {
        Some(slice_subrange(input, start, end))
    } else {
        None
    }
}

/// How many bytes are left after `consumed` (never negative).
pub fn remaining_bytes(input: &[u8], consumed: usize) -> (r: usize)
    ensures
        r == (if consumed <= input@.len() { input@.len() - consumed } else { 0 }),
{
    let n = input.len();
    if consumed <= n {
        n - consumed
    } else {
        0
    }
}

/// Skipping padding leaves input that does not start with padding, so skipping
/// again changes nothing; the offset of the first data word plus what is left is
/// the whole input.
pub proof fn lemma_skip_padding_idempotent(s: Seq<u8>)
    ensures
        pad_end(s.subrange(pad_end(s, 0), s.len() as int), 0) == 0,
        !is_pad_at(s.subrange(pad_end(s, 0), s.len() as int), 0),
        pad_end(s, 0) + s.subrange(pad_end(s, 0), s.len() as int).len() == s.len(),
{
    lemma_pad_end_bounds(s, 0);
    let e = pad_end(s, 0);
    let rest = s.subrange(e, s.len() as int);
    lemma_pad_end_stops(s, 0);
    if is_pad_at(rest, 0) {
        assert(rest[0] == s[e] && rest[1] == s[e + 1] && rest[2] == s[e + 2] && rest[3] == s[e + 3]);
        assert(is_pad_at(s, e));
    }
}

/// A padding run stops at a word that is not padding.
pub proof fn lemma_pad_end_stops(s: Seq<u8>, pos: int)
    requires
        0 <= pos,
    ensures
        !is_pad_at(s, pad_end(s, pos)),
    decreases s.len() - pos,
{
    if is_pad_at(s, pos) {
        lemma_pad_end_stops(s, pos + 4);
    }
}

/// Extending a block length is idempotent, never shrinks the length, and adds whole
/// words only.
pub proof fn lemma_extend_impl_len(s: Seq<u8>, declared: int)
    requires
        0 <= declared,
    ensures
        pad_end(s, pad_end(s, declared)) == pad_end(s, declared),
        declared <= pad_end(s, declared),
        (pad_end(s, declared) - declared) % 4 == 0,
    decreases s.len() - declared,
{
    lemma_pad_end_stops(s, declared);
    if is_pad_at(s, declared) {
        lemma_extend_impl_len(s, declared + 4);
    }
}

/// Rounding up to a word: a multiple of 4, at least the length, less than 4 more,
/// and rounding again changes nothing.
pub proof fn lemma_align_to_word(len: nat)
    ensures
        ((len + 3) / 4 * 4) % 4 == 0,
        len <= (len + 3) / 4 * 4 < len + 4,
        (((len + 3) / 4 * 4) + 3) / 4 * 4 == (len + 3) / 4 * 4,
{
}

/// Rounding up to 8 bytes: a multiple of 8, at least the length, less than 8 more,
/// and rounding again changes nothing.
pub proof fn lemma_align_to_8(len: nat)
    ensures
        ((len + 7) / 8 * 8) % 8 == 0,
        len <= (len + 7) / 8 * 8 < len + 8,
        (((len + 7) / 8 * 8) + 7) / 8 * 8 == (len + 7) / 8 * 8,
{
}

/// Two adjacent ranges of the input make up the range that spans them; the bytes
/// taken followed by the rest make up the input.
pub proof fn lemma_slices_concat(s: Seq<u8>, start: int, mid: int, end: int)
    requires
        0 <= start <= mid <= end <= s.len(),
    ensures
        s.subrange(start, mid) + s.subrange(mid, end) == s.subrange(start, end),
        s.subrange(0, mid) + s.subrange(mid, s.len() as int) == s,
{
    assert(s.subrange(start, mid) + s.subrange(mid, end) =~= s.subrange(start, end));
    assert(s.subrange(0, mid) + s.subrange(mid, s.len() as int) =~= s);
}

} // verus!
