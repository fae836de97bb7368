//! Offline reading of PDMS / E3D database files: the attribute dictionary
//! (`attlib.dat`) and the noun classification it gives, reference numbers and name
//! hashes, the implicit and expression attribute encodings, the padding conventions
//! of the record blocks, the parameter contexts of catalogue expressions, and the
//! classification of incremental records.
pub mod text;
pub mod db_tool;
pub mod helper;
pub mod dict;
pub mod parser;
pub mod get_attr;
pub mod param_parse;
pub mod get_attr_tool;
pub mod local_db;
pub mod notify_file_change;
pub mod parse_increment_data;
pub mod error_types;
pub mod pdms_origin_data;
pub mod parsed_data;
pub mod pdms_parsed_data;
pub mod prim_geo;
pub mod pdms_types;
pub mod parse_explict_tools;
