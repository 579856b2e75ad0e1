//! Hash databases, file hashing and database comparison.
pub mod database;
pub mod error;
pub mod hash;
pub mod order;
pub mod compare;
pub mod scan;
