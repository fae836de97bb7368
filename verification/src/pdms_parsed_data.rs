//! Requests and records of the design data service.
use vstd::prelude::*;

verus! {

/// A request for a pipe, by name.
#[derive(Clone, Debug, Default)]
pub struct DesignPipeRequest {
    pub name: String,
}

/// A request for a component, by name.
#[derive(Clone, Debug, Default)]
pub struct DesignComponentRequest {
    pub name: String,
}

/// A request for a branch, by name.
#[derive(Clone, Debug, Default)]
pub struct DesignBranRequest {
    pub name: String,
}

/// A request for reference numbers, by name.
#[derive(Clone, Debug, Default)]
pub struct RefnosRequest {
    pub name: String,
}

/// A list of reference numbers, as text.
#[derive(Clone, Debug, Default)]
pub struct Refnos {
    pub refnos: Vec<String>,
}

/// A data set, by the type of its elements.
#[derive(Clone, Debug, Default)]
pub struct Dataset {
    pub self_type: String,
}

} // verus!
