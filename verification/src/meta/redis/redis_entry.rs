//! One entry of the replication stream: a snapshot object or a command.

use vstd::prelude::*;
use crate::meta::redis::redis_object::{RedisCmd, RedisObject};

verus! {

/// A decoded object and the command that it came with, the database that
/// it belongs to, and an estimate of its size.
#[derive(Debug, Clone)]
pub struct RedisEntry {
    pub id: u64,
    /// Whether the entry comes from the snapshot rather than the stream.
    pub is_base: bool,
    pub db_id: i64,
    pub timestamp_ms: u64,
    /// When the key expires, in milliseconds since the epoch; zero where
    /// it does not expire.
    pub expire_ms: i64,
    /// The object as the snapshot serialized it; empty where the entry
    /// was decoded or is a command.
    pub raw_bytes: Vec<u8>,
    /// The type byte that precedes the object in the snapshot.
    pub value_type_byte: u8,
    pub key: Vec<u8>,
    pub value: RedisObject,
    pub cmd: RedisCmd,
    pub data_size: usize,
}

impl RedisEntry {
    /// Whether the entry holds the serialized form of its object.
    pub open spec fn spec_is_raw(&self) -> bool {
        self.raw_bytes@.len() > 0
    }

    /// An entry that holds nothing, in database zero.
    pub fn new() -> (e: RedisEntry)
        ensures
            e.id == 0,
            !e.is_base,
            e.db_id == 0,
            e.timestamp_ms == 0,
            e.expire_ms == 0,
            e.raw_bytes@.len() == 0,
            e.value_type_byte == 0,
            e.key@.len() == 0,
            e.value is Unknown,
            e.cmd@.len() == 0,
            e.data_size == 0,
    {
        RedisEntry {
            id: 0,
            is_base: false,
            db_id: 0,
            timestamp_ms: 0,
            expire_ms: 0,
            raw_bytes: Vec::new(),
            value_type_byte: 0,
            key: Vec::new(),
            value: RedisObject::Unknown,
            cmd: RedisCmd::new(),
            data_size: 0,
        }
    }

    /// Whether the entry holds the serialized form of its object.
    pub fn is_raw(&self) -> (r: bool)
        ensures
            r == self.spec_is_raw(),
    {
        self.raw_bytes.len() > 0
    }
}

} // verus!
