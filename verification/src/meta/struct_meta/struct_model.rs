//! The objects of a schema that the struct extractor reports.

use vstd::prelude::*;
use crate::meta::struct_meta::table::Table;

verus! {

/// The kind of an index.
#[derive(Debug, Clone, Copy, PartialEq, Eq, Structural)]
pub enum IndexKind {
    PrimaryKey,
    Unique,
    Index,
}

/// A constraint of a table.
#[derive(Debug, Clone)]
pub struct Constraint {
    pub database_name: String,
    pub schema_name: String,
    pub table_name: String,
    pub constraint_name: String,
    pub constraint_type: String,
    pub definition: String,
}

/// An index of a table.
#[derive(Debug, Clone)]
pub struct Index {
    pub database_name: String,
    pub schema_name: String,
    pub table_name: String,
    pub index_name: String,
    pub index_kind: IndexKind,
    pub index_type: String,
    pub comment: String,
    pub tablespace: String,
    pub definition: String,
    pub columns: Vec<String>,
}

/// A comment on a table, or on a column of it.
#[derive(Debug, Clone)]
pub struct Comment {
    pub database_name: String,
    pub schema_name: String,
    pub table_name: String,
    /// The column that the comment is on; empty for a comment on the
    /// table.
    pub column_name: String,
    pub comment: String,
}

/// An object of a schema.
#[derive(Debug, Clone)]
pub enum StructModel {
    TableModel(Table),
    ConstraintModel(Constraint),
    IndexModel(Index),
    CommentModel(Comment),
}

} // verus!
