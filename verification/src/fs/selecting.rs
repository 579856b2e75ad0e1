//! The storage selection menu, shown as a backend whose "files" are the
//! kinds of storage to choose from.
use vstd::prelude::*;
use crate::fs::backend::{all_flags, BackendCapabilities, BackendType};
use crate::fs::types::FileEntry;
use crate::text::to_string;

verus! {

/// Backend for storage selection menu
/// Presents storage options as "files" in a directory
pub struct SelectingBackend;

/// The names the menu lists, in order.
pub open spec fn menu_names() -> Seq<Seq<char>> {
    seq![
        "📁 Local Filesystem"@,
        "💾 Kubernetes PersistentVolumes"@,
        "📀 Kubernetes PersistentVolumeClaims"@,
        "☁ Cloud Storage (S3, GCS)"@
    ]
}

/// A menu entry: a directory of size zero with no time or permissions.
pub open spec fn is_menu_entry(e: FileEntry, name: Seq<char>) -> bool {
    &&& e.name@ == name
    &&& e.size == 0
    &&& e.is_dir
    &&& e.modified is None
    &&& e.permissions is None
}

/// A menu entry named `name`.
fn menu_entry(name: &str) -> (r: FileEntry)
    ensures
        is_menu_entry(r, name@),
{
    FileEntry { name: to_string(name), size: 0, is_dir: true, modified: None, permissions: None }
}

impl SelectingBackend {
    /// The menu: local storage, persistent volumes, claims, cloud storage.
    pub fn list_dir(&self, _path: &str) -> (r: Vec<FileEntry>)
        ensures
            r@.len() == menu_names().len(),
            forall|i: int| 0 <= i < r@.len() ==> is_menu_entry(#[trigger] r@[i], menu_names()[i]),
    {
        let mut v: Vec<FileEntry> = Vec::new();
        v.push(menu_entry("📁 Local Filesystem"));
        v.push(menu_entry("💾 Kubernetes PersistentVolumes"));
        v.push(menu_entry("📀 Kubernetes PersistentVolumeClaims"));
        v.push(menu_entry("☁ Cloud Storage (S3, GCS)"));
        v
    }

    /// The menu cannot be changed.
    pub fn delete(&self, _path: &str) -> (r: Result<(), String>)
        ensures
            r matches Err(m) && m@ == "Cannot modify selection menu"@,
    {
        Err(to_string("Cannot modify selection menu"))
    }

    /// The menu cannot be changed.
    pub fn create_dir(&self, _path: &str) -> (r: Result<(), String>)
        ensures
            r matches Err(m) && m@ == "Cannot modify selection menu"@,
    {
        Err(to_string("Cannot modify selection menu"))
    }

    /// Every path of the menu is a directory.
    pub fn is_dir(&self, _path: &str) -> (r: bool)
        ensures
            r,
    {
        true
    }

    /// Nothing can be uploaded to the menu.
    pub fn upload(&self, _local_path: &str, _remote_path: &str) -> (r: Result<(), String>)
        ensures
            r matches Err(m) && m@ == "Cannot upload to selection menu"@,
    {
        Err(to_string("Cannot upload to selection menu"))
    }

    /// Nothing can be downloaded from the menu.
    pub fn download(&self, _remote_path: &str, _local_path: &str) -> (r: Result<(), String>)
        ensures
            r matches Err(m) && m@ == "Cannot download from selection menu"@,
    {
        Err(to_string("Cannot download from selection menu"))
    }

    /// The menu has no contents to read.
    pub fn read_bytes(&self, _path: &str) -> (r: Result<Vec<u8>, String>)
        ensures
            r matches Err(m) && m@ == "Cannot read from selection menu"@,
    {
        Err(to_string("Cannot read from selection menu"))
    }

    /// Nothing can be written to the menu.
    pub fn write_bytes(&self, _path: &str, _data: Vec<u8>) -> (r: Result<(), String>)
        ensures
            r matches Err(m) && m@ == "Cannot write to selection menu"@,
    {
        Err(to_string("Cannot write to selection menu"))
    }

    /// The backend is the selection menu.
    pub fn backend_type(&self) -> (r: BackendType)
        ensures
            r is Selecting,
    {
        BackendType::Selecting
    }

    /// The menu's title stands for every path.
    pub fn display_path(&self, _path: &str) -> (r: String)
        ensures
            r@ == "Select Storage Type"@,
    {
        to_string("Select Storage Type")
    }

    /// The menu supports nothing.
    pub fn capabilities(&self) -> (r: BackendCapabilities)
        ensures
            r == all_flags(false),
    {
        BackendCapabilities::selecting()
    }
}

} // verus!
