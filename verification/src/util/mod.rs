//! Byte-level helpers shared by the protocol code.

pub mod bytes;
pub mod crc64;
pub mod decimal;
pub mod queue;
pub mod text;
