//! The snapshot that a master sends before its stream: a file of keys
//! and values in the format that the server saves itself in.

pub mod lzf;
pub mod rdb_extent;
pub mod rdb_loader;
pub mod rdb_packed;
pub mod rdb_parser;
pub mod rdb_reader;
pub mod rdb_stream;
