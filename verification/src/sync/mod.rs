//! Synchronisation primitives: hashing, compression, conflicts, planning.
pub mod hash;
pub mod compression;
pub mod conflict;
pub mod engine;
pub mod exclude;
pub mod throttle;
pub mod watcher;
