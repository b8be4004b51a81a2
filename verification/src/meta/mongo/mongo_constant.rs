//! Field names and operators of the document store.

use vstd::prelude::*;

verus! {

pub struct MongoConstants {}

impl MongoConstants {
    pub const ID: &'static str = "_id";

    pub const DOC: &'static str = "doc";

    pub const DIFF_DOC: &'static str = "diff_doc";

    pub const SET: &'static str = "$set";

    pub const UNSET: &'static str = "$unset";
}

} // verus!
