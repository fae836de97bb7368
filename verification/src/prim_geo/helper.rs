//! Building triangle index lists.
use vstd::prelude::*;

verus! {

/// Appends the two triangles of the quad `v0 v1 v2 v3` (offset by `o`) to `indices`:
/// `v0 v1 v2` and `v2 v3 v0`; `l` counts the indices written.
pub fn quad_indices(
    indices: &mut Vec<usize>,
    l: &mut usize,
    o: usize,
    v0: usize,
    v1: usize,
    v2: usize,
    v3: usize,
)
    requires
        o + v0 <= usize::MAX,
        o + v1 <= usize::MAX,
        o + v2 <= usize::MAX,
        o + v3 <= usize::MAX,
        *old(l) + 6 <= usize::MAX,
    ensures
        final(indices)@ == old(indices)@ + seq![
            (o + v0) as usize,
            (o + v1) as usize,
            (o + v2) as usize,
            (o + v2) as usize,
            (o + v3) as usize,
            (o + v0) as usize,
        ],
        *final(l) == *old(l) + 6,
{
    let ghost before = indices@;
    indices.push(o + v0);
    indices.push(o + v1);
    indices.push(o + v2);
    indices.push(o + v2);
    indices.push(o + v3);
    indices.push(o + v0);
    *l = *l + 6;
    assert(indices@ =~= before + seq![
        (o + v0) as usize,
        (o + v1) as usize,
        (o + v2) as usize,
        (o + v2) as usize,
        (o + v3) as usize,
        (o + v0) as usize,
    ]);
}

} // verus!
