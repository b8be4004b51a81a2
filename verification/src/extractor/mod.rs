//! Capturing changes at the source.

pub mod base_extractor;
pub mod pg;
pub mod redis;
