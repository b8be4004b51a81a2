//! Redis commands, decoded objects and snapshot entries.

pub mod redis_entry;
pub mod redis_object;
pub mod redis_write_method;
