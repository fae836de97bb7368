//! Packing of two words into one key.
use vstd::prelude::*;

verus! {

/// The big-endian concatenation of two `u32`: `a` is the high word, `b` the low word.
pub fn combine_to_u64(a: u32, b: u32) -> (r: u64)
    ensures
        r == a as int * 0x1_0000_0000 + b as int,
{
    let r = ((a as u64) << 32u64) | (b as u64);
    assert(((a as u64) << 32u64) | (b as u64) == a as int * 0x1_0000_0000 + b as int) by (bit_vector);
    r
}

} // verus!
