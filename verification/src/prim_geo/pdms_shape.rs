//! The validity check that every primitive shape offers.
use vstd::prelude::*;

verus! {

/// A shape that can say whether its parameters describe a valid solid; a shape
/// without a check of its own is valid.
pub trait VerifiedShape {
    fn check_valid(&self) -> (b: bool)
        default_ensures
            b,
    {
        true
    }
}

} // verus!
