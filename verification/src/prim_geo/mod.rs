//! Primitive geometry: mesh index helpers and the validity of shapes.
pub mod helper;
pub mod pdms_shape;
