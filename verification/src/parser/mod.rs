//! Parsers for the record blocks of PDMS database files.
pub mod combinator;
pub mod attribute;
