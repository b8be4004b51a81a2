//! Heterogeneous data replication: the change-record model, the batch and
//! fallback policy shared by every sinker, and the wire protocol of a Redis
//! replica (handshake, command streaming, command encoding).

pub mod error;
pub mod extractor;
pub mod meta;
pub mod pipeline;
pub mod rdb_router;
pub mod sinker;
pub mod util;
