//! Incremental changes of the database.
pub mod increment_modify;
use vstd::prelude::*;

verus! {

/// What happened to an element between two versions of the database.
#[derive(Debug, Clone, Copy, PartialEq, Eq, Structural)]
pub enum NewDataState {
    Modify,
    Increase,
    Delete,
}

} // verus!
