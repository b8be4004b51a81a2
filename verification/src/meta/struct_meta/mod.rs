//! The structure of the source schema, as the struct extractor reports it.

pub mod column;
pub mod struct_model;
pub mod table;
