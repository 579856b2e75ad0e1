//! Verified core of a dual-pane file manager: delta-sync primitives, hash
//! databases, text editing state and storage descriptors.
pub mod app;
pub mod cleaner;
pub mod events;
pub mod fs;
pub mod hash;
pub mod k8s;
pub mod sync;
pub mod text;
pub mod ui;
pub mod paths;
