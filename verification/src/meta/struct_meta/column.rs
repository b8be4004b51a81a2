//! One column of a table.

use vstd::prelude::*;

verus! {

#[derive(Debug, Clone)]
pub struct Column {
    pub column_name: String,
    pub order_position: u32,
    pub default_value: Option<String>,
    pub is_nullable: String,
    pub column_type: String,
    pub generated: Option<String>,
    pub column_key: String,
    pub extra: String,
    pub column_comment: String,
    pub character_set: String,
    pub collation: String,
}

} // verus!
