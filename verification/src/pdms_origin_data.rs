//! Records read from the PDMS database before parsing.
use vstd::prelude::*;

verus! {

/// A pipe: its name, its reference number and those of its branches, as text.
#[derive(Clone, Debug, Default)]
pub struct DesignPipeStr {
    pub name: String,
    pub refno: String,
    pub bran_refnos: Vec<String>,
}

} // verus!
