//! The errors of resolving catalogue geometry.
use vstd::prelude::*;

verus! {

/// `std::io::Error`, carried unopened inside `ResolveError`.
#[verifier::external_type_specification]
#[verifier::external_body]
pub struct ExIoError(std::io::Error);

/// Why a catalogue geometry could not be resolved.
#[derive(Debug)]
pub enum ResolveError {
    /// The axis with this index does not exist.
    AxisIndeNotExist(u32),
    /// Reading failed.
    IoError(std::io::Error),
    /// Reading failed (kept apart from `IoError`: no conversion builds it).
    IoError1(std::io::Error),
}

} // verus!
