//! The change record: the closed set of things that an extractor hands to
//! a sinker.

use vstd::prelude::*;
use crate::meta::ddl_data::DdlData;
use crate::meta::position::Position;
use crate::meta::redis::redis_entry::RedisEntry;
use crate::meta::row_data::RowData;

verus! {

/// A change record with the position that it was captured at and the node
/// that it first came from.
#[derive(Debug, Clone)]
pub struct DtItem {
    pub dt_data: DtData,
    pub position: Position,
    pub data_origin_node: String,
}

impl DtItem {
    /// Whether the record is a schema change.
    pub fn is_ddl(&self) -> (r: bool)
        ensures
            r == (self.dt_data is Ddl),
    {
        self.dt_data.is_ddl()
    }
}

/// A captured change.
#[derive(Debug, Clone)]
pub enum DtData {
    /// A schema change.
    Ddl { ddl_data: DdlData },
    /// A row change.
    Dml { row_data: RowData },
    /// The start of a transaction.
    Begin {  },
    /// The end of the transaction `xid`.
    Commit { xid: String },
    /// An entry of a Redis replication stream.
    Redis { entry: RedisEntry },
}

impl DtData {
    /// The size estimate of a row change or a Redis entry; zero for the
    /// other kinds.
    pub open spec fn spec_data_size(&self) -> usize {
        match self {
            DtData::Dml { row_data } => row_data.data_size,
            DtData::Redis { entry } => entry.data_size,
            _ => 0,
        }
    }

    /// Whether the record starts a transaction.
    pub fn is_begin(&self) -> (r: bool)
        ensures
            r == (self is Begin),
    {
        matches!(self, DtData::Begin { .. })
    }

    /// Whether the record ends a transaction.
    pub fn is_commit(&self) -> (r: bool)
        ensures
            r == (self is Commit),
    {
        matches!(self, DtData::Commit { .. })
    }

    /// Whether the record is a schema change.
    pub fn is_ddl(&self) -> (r: bool)
        ensures
            r == (self is Ddl),
    {
        matches!(self, DtData::Ddl { .. })
    }

    /// The size estimate of the record: that of its row change or Redis
    /// entry, zero for the other kinds.
    pub fn get_data_size(&self) -> (size: usize)
        ensures
            size == self.spec_data_size(),
    {
        match &self {
            DtData::Dml { row_data } => row_data.data_size,
            DtData::Redis { entry } => entry.data_size,
            _ => 0,
        }
    }
}

} // verus!
