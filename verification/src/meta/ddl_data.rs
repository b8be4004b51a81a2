//! A captured schema change.

use vstd::prelude::*;
use crate::meta::struct_meta::struct_model::StructModel;

verus! {

/// A schema change: the statement that made it and, where the source
/// gives it, the structure that it leaves.
#[derive(Debug, Clone)]
pub struct DdlData {
    pub schema: String,
    pub query: String,
    pub meta: Option<StructModel>,
}

} // verus!
