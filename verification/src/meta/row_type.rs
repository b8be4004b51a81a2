//! The kind of a row change.

use vstd::prelude::*;

verus! {

#[derive(Debug, Clone, Copy, PartialEq, Eq, Structural)]
pub enum RowType {
    Insert,
    Update,
    Delete,
}

} // verus!
