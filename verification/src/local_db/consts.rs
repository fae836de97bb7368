//! Shapes of fixed-size attribute groups.
use vstd::prelude::*;

verus! {

/// A group of `N` values of one kind.
pub struct ArrayPair<T, const N: usize> {
    pub left: [T; N],
}

} // verus!
