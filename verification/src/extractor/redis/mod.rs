//! A replica of a Redis master: the handshake, and the stream of
//! commands that follows the snapshot.

pub mod rdb;
pub mod redis_cdc_extractor;
pub mod redis_psync_extractor;
pub mod redis_resp_reader;
pub mod redis_resp_types;
pub mod stream_proofs;
pub mod wire_proofs;
