//! Names that the document-store backend uses.

pub mod mongo_constant;
