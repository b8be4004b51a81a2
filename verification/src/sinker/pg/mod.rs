//! Writing to a PostgreSQL destination.

pub mod pg_checker;
pub mod pg_sinker;
