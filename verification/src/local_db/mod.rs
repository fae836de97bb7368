//! Options and configuration of the local database sync, and the small codecs it uses.
pub mod helper;
pub mod consts;
pub mod bonsaidb_local;
pub mod save;
pub mod sled_local;
pub mod sled_manager;

use vstd::prelude::*;

verus! {

/// The command-line options of a database sync.
#[derive(Debug, Default, Clone)]
pub struct DbOption {
    /// Rebuild the whole local database.
    pub total_sync: bool,
    /// Apply the changes since the last sync.
    pub incr_sync: bool,
    /// The directory of the projects.
    pub project_path: String,
    /// The projects to sync.
    pub included_projects: Vec<String>,
    /// The database files to read; all of them when `None`.
    pub included_db_files: Option<Vec<String>>,
    /// The name of the MDB.
    pub mdb_name: String,
    /// The name of the project.
    pub project_name: String,
    /// The code of the main database.
    pub main_db_code: u32,
}

} // verus!
