//! Attribute encodings.
pub mod expression;
pub mod implicit;
