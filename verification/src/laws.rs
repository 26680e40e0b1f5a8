//! What the parts of the library are for, stated over what goes in and what comes out.

pub mod attributes;
pub mod fields;
pub mod lines;
pub mod names;
pub mod nesting;
pub mod structs;
pub mod types;
pub mod values;
