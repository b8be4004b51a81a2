//! Checking a MySQL destination.

pub mod mysql_checker;
