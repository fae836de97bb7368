//! Watching the database files for new versions.
use vstd::prelude::*;

verus! {

/// The version of the database files; not read yet, so this does nothing.
pub fn get_db_version() {
}

} // verus!
