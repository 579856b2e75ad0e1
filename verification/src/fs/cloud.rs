//! Object storage (S3 and GCS): object keys for pane paths, and listings
//! from the objects a prefix lists.
use vstd::prelude::*;
use crate::fs::copy::trim_trailing_slashes;
use crate::fs::local::{listed_in_order, sort_listing};
use crate::fs::types::FileEntry;
use crate::sync::engine::trim_leading_slashes;
use crate::text::{chars_of, ends_with, has_suffix, push_str, str_eq, string_of_range, to_string};

verus! {

/// The text of `path` without its leading slashes.
fn without_leading_slashes(path: &str) -> (r: String)
    ensures
        r@ == trim_leading_slashes(path@),
{
    let cs = chars_of(path);
    let mut k: usize = 0;
    assert(cs@.skip(0) =~= cs@);
    while k < cs.len() && cs[k] == '/'
        invariant
            k <= cs@.len(),
            cs@ == path@,
            trim_leading_slashes(path@) == trim_leading_slashes(cs@.skip(k as int)),
        decreases cs@.len() - k,
    {
        proof {
            assert(cs@.skip(k as int).drop_first() =~= cs@.skip(k + 1));
        }
        k = k + 1;
    }
    let r = string_of_range(&cs, k, cs.len());
    assert(r@ =~= cs@.skip(k as int));
    r
}

/// The text of `name` without its trailing slashes.
fn without_trailing_slashes(name: &str) -> (r: String)
    ensures
        r@ == trim_trailing_slashes(name@),
{
    let cs = chars_of(name);
    let mut k: usize = cs.len();
    assert(cs@.take(k as int) =~= cs@);
    while k > 0 && cs[k - 1] == '/'
        invariant
            k <= cs@.len(),
            cs@ == name@,
            trim_trailing_slashes(name@) == trim_trailing_slashes(cs@.take(k as int)),
        decreases k,
    {
        proof {
            assert(cs@.take(k as int).drop_last() =~= cs@.take(k - 1));
        }
        k = k - 1;
    }
    let r = string_of_range(&cs, 0, k);
    assert(r@ =~= cs@.take(k as int));
    r
}

/// The object key of a pane path: the path without leading slashes.
pub fn object_key(path: &str) -> (r: String)
    ensures
        r@ == trim_leading_slashes(path@),
{
    without_leading_slashes(path)
}

/// The prefix that lists a directory: empty for the root, else the path
/// without leading slashes and ending with one.
pub open spec fn list_prefix_spec(path: Seq<char>) -> Seq<char> {
    let p = if path.len() == 0 || path == "/"@ {
        Seq::empty()
    } else {
        trim_leading_slashes(path)
    };
    if p.len() != 0 && !has_suffix(p, "/"@) {
        p + "/"@
    } else {
        p
    }
}

/// The prefix to list for the directory at `path`.
pub fn list_prefix(path: &str) -> (r: String)
    ensures
        r@ == list_prefix_spec(path@),
{
    let mut p = if path.is_empty() || str_eq(path, "/") {
        String::new()
    } else {
        without_leading_slashes(path)
    };
    if !p.as_str().is_empty() && !ends_with(p.as_str(), "/") {
        push_str(&mut p, "/");
    }
    p
}

/// The key of the empty object that marks a directory: the path without
/// leading slashes, ending with one.
pub open spec fn dir_marker_spec(path: Seq<char>) -> Seq<char> {
    let p = trim_leading_slashes(path);
    if has_suffix(p, "/"@) {
        p
    } else {
        p + "/"@
    }
}

/// The key of the marker object that creates the directory at `path`.
pub fn dir_marker_key(path: &str) -> (r: String)
    ensures
        r@ == dir_marker_spec(path@),
{
    let mut p = without_leading_slashes(path);
    if !ends_with(p.as_str(), "/") {
        push_str(&mut p, "/");
    }
    p
}

/// How an object store shows a path: the scheme, the bucket, then the key.
pub open spec fn display_spec(scheme: Seq<char>, bucket: Seq<char>, path: Seq<char>) -> Seq<char> {
    scheme + bucket + "/"@ + trim_leading_slashes(path)
}

/// An S3 path as shown: `s3://bucket/key`.
pub fn s3_display_path(bucket: &str, path: &str) -> (r: String)
    ensures
        r@ == display_spec("s3://"@, bucket@, path@),
{
    let mut s = to_string("s3://");
    push_str(&mut s, bucket);
    push_str(&mut s, "/");
    let key = without_leading_slashes(path);
    push_str(&mut s, key.as_str());
    s
}

/// A GCS path as shown: `gs://bucket/key`.
pub fn gcs_display_path(bucket: &str, path: &str) -> (r: String)
    ensures
        r@ == display_spec("gs://"@, bucket@, path@),
{
    let mut s = to_string("gs://");
    push_str(&mut s, bucket);
    push_str(&mut s, "/");
    let key = without_leading_slashes(path);
    push_str(&mut s, key.as_str());
    s
}

/// An object a prefix lists: its name, whether it is a directory, its size.
pub struct ListedObject {
    pub name: String,
    pub is_dir: bool,
    pub size: u64,
}

/// The entry an object gives: its name without trailing slashes.
pub open spec fn object_entry(o: ListedObject, e: FileEntry) -> bool {
    &&& e.name@ == trim_trailing_slashes(o.name@)
    &&& e.size == o.size
    &&& e.is_dir == o.is_dir
    &&& e.modified is None
    &&& e.permissions is None
}

/// The object is the listed directory itself: an empty name or a slash.
pub open spec fn is_self_marker(o: ListedObject) -> bool {
    o.name@.len() == 0 || o.name@ == "/"@
}

/// The entries of the objects, the directory's own marker left out.
pub open spec fn object_entries_ok(objects: Seq<ListedObject>, entries: Seq<FileEntry>) -> bool
    decreases objects.len(),
{
    if objects.len() == 0 {
        entries.len() == 0
    } else if is_self_marker(objects.last()) {
        object_entries_ok(objects.drop_last(), entries)
    } else {
        entries.len() > 0 && object_entry(objects.last(), entries.last()) && object_entries_ok(
            objects.drop_last(),
            entries.drop_last(),
        )
    }
}

/// A directory's listing from the objects its prefix lists: the
/// directory's own marker left out, names without trailing slashes,
/// directories first, then by name without regard to case.
pub fn cloud_listing(objects: &[ListedObject]) -> (r: Vec<FileEntry>)
    ensures
        exists|entries: Seq<FileEntry>, ord: Seq<usize>|
            object_entries_ok(objects@, entries) && listed_in_order(entries, ord, r@),
{
    let mut entries: Vec<FileEntry> = Vec::new();
    let mut i: usize = 0;
    while i < objects.len()
        invariant
            i <= objects@.len(),
            object_entries_ok(objects@.take(i as int), entries@),
        decreases objects@.len() - i,
    {
        proof {
            assert(objects@.take(i + 1).drop_last() =~= objects@.take(i as int));
            assert(objects@.take(i + 1).last() == objects@[i as int]);
        }
        let o = &objects[i];
        if !(o.name.as_str().is_empty() || str_eq(o.name.as_str(), "/")) {
            let e = FileEntry {
                name: without_trailing_slashes(o.name.as_str()),
                size: o.size,
                is_dir: o.is_dir,
                modified: None,
                permissions: None,
            };
            let ghost before = entries@;
            entries.push(e);
            proof {
                assert(entries@.drop_last() =~= before);
            }
        }
        i = i + 1;
    }
    assert(objects@.take(objects@.len() as int) =~= objects@);
    let r = sort_listing(entries.as_slice());
    r
}

} // verus!
