//! How captured entries are written to the destination.

use vstd::prelude::*;

verus! {

#[derive(Debug, Clone, Copy, PartialEq, Eq, Structural)]
pub enum RedisWriteMethod {
    /// Hand the serialized object to the destination as it is.
    Restore,
    /// Rebuild the object with commands of its type.
    Rewrite,
}

} // verus!
