//! Where the PDMS data of a project is found.
use vstd::prelude::*;

verus! {

/// The location of a PDMS project: its data directory, its name, the projects of
/// the installation and the MDB to open.
#[derive(Default, Debug)]
pub struct PdmsConfig {
    /// The PDMS data directory.
    pub data_dir: String,
    pub project_name: String,
    pub all_projects: Vec<String>,
    pub mdb_name: String,
}

} // verus!
