//! Applying change records to a destination: the batch and fallback
//! policy that every sinker follows, and what each backend makes of a
//! record.

pub mod base_checker;
pub mod base_sinker;
pub mod mongo;
pub mod mysql;
pub mod pg;
pub mod rdb_query_builder;
pub mod redis;
pub mod replay;
pub mod sql_sinker;
pub mod struct_checker;
