//! A table and its columns.

use vstd::prelude::*;
use crate::meta::struct_meta::column::Column;

verus! {

#[derive(Debug, Clone)]
pub struct Table {
    pub database_name: String,
    pub schema_name: String,
    pub table_name: String,
    pub engine_name: String,
    pub table_comment: String,
    pub columns: Vec<Column>,
}

} // verus!
