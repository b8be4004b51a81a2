//! Reading the structure of a PostgreSQL source.

pub mod pg_struct_extractor;
