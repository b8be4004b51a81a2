//! Writing to a MongoDB destination.

pub mod mongo_sinker;
