//! The entries of directory listings and the operations on panes.
use vstd::prelude::*;
use crate::sync::conflict::Timestamp;

verus! {

/// Where a pane's files live.
#[derive(Debug, Clone)]
pub enum PaneType {
    Local,
    Remote { namespace: String, pvc: String },
}

/// One entry of a directory listing.
#[derive(Debug, Clone)]
pub struct FileEntry {
    pub name: String,
    pub size: u64,
    pub is_dir: bool,
    pub modified: Option<Timestamp>,
    pub permissions: Option<String>,
}

/// An operation on a pane.
#[derive(Debug, Clone)]
pub enum Operation {
    Copy { from_pane: PaneType, to_pane: PaneType, source_path: String, dest_path: String },
    Delete { pane: PaneType, path: String },
    CreateDir { pane: PaneType, path: String },
}

/// A persistent volume claim.
#[derive(Debug, Clone)]
pub struct PvcInfo {
    pub name: String,
    pub namespace: String,
    pub capacity: String,
    pub access_modes: Vec<String>,
}

/// A persistent volume or claim as the storage menu shows it.
#[derive(Debug, Clone)]
pub struct StorageInfo {
    pub name: String,
    pub capacity: String,
    pub access_modes: Vec<String>,
    pub claim_ref: Option<String>,
    pub status: String,
    pub is_pv: bool,
}

} // verus!
