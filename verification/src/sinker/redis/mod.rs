//! Writing to a Redis destination.

pub mod cmd_encoder;
pub mod entry_rewriter;
pub mod redis_sinker;
