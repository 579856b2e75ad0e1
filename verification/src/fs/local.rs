//! The local filesystem: path normalization and the local backend's paths.
use vstd::prelude::*;
use crate::fs::backend::{BackendCapabilities, BackendType};
use crate::paths::{
    has_parent_part,
    normal_name,
    components,
    path_components,
    pathbuf_popped,
    pathbuf_pushed,
    pop_path,
    push_path,
    PathPart,
    PathPartView,
};
use crate::fs::types::FileEntry;
use crate::hash::order::{idx_sorted, index_range, sort_indices, text_key, text_key_of};
use crate::text::{has_prefix, lowercase, lowercase_of, starts_with, to_string};

verus! {

/// Operations on the local filesystem.
pub struct LocalFs;

/// The path that the components `parts` build, starting from an empty
/// path: `..` goes to the parent, `.` is dropped, the others are pushed.
pub open spec fn normalized_parts(parts: Seq<PathPartView>) -> Seq<char>
    decreases parts.len(),
{
    if parts.len() == 0 {
        Seq::empty()
    } else {
        let prev = normalized_parts(parts.drop_last());
        match parts.last() {
            PathPartView::ParentDir => pathbuf_popped(prev),
            PathPartView::CurDir => prev,
            PathPartView::RootDir => pathbuf_pushed(prev, "/"@),
            PathPartView::Prefix(s) => pathbuf_pushed(prev, s),
            PathPartView::Normal(s) => pathbuf_pushed(prev, s),
        }
    }
}

/// None of the components is a (Windows) prefix.
pub open spec fn no_prefix(parts: Seq<PathPartView>) -> bool {
    forall|i: int| 0 <= i < parts.len() ==> !((#[trigger] parts[i]) is Prefix)
}

/// The components that normalizing leaves of `parts`: `.` dropped, `..`
/// taking off the component before it when that is a name (and dropped
/// otherwise), a root starting afresh, names kept.
pub open spec fn normalized_components(parts: Seq<PathPartView>) -> Seq<PathPartView>
    decreases parts.len(),
{
    if parts.len() == 0 {
        Seq::empty()
    } else {
        let prev = normalized_components(parts.drop_last());
        match parts.last() {
            PathPartView::ParentDir => if has_parent_part(prev) {
                prev.drop_last()
            } else {
                prev
            },
            PathPartView::CurDir => prev,
            PathPartView::RootDir => seq![PathPartView::RootDir],
            PathPartView::Prefix(s) => prev,
            PathPartView::Normal(s) => prev.push(PathPartView::Normal(s)),
        }
    }
}

/// The components of the normalized path: those left by normalizing, or
/// the root alone when none are left.
pub open spec fn normalized_result(parts: Seq<PathPartView>) -> Seq<PathPartView> {
    let n = normalized_components(parts);
    if n.len() == 0 {
        seq![PathPartView::RootDir]
    } else {
        n
    }
}

/// Components with no `.` and no `..`: names, and a root only first.
pub open spec fn clean_components(parts: Seq<PathPartView>) -> bool {
    forall|i: int|
        0 <= i < parts.len() ==> (#[trigger] parts[i] is Normal || (parts[i] is RootDir && i == 0))
}

proof fn lemma_normalized_components_clean(parts: Seq<PathPartView>)
    ensures
        clean_components(normalized_components(parts)),
    decreases parts.len(),
{
    if parts.len() > 0 {
        lemma_normalized_components_clean(parts.drop_last());
    }
}

proof fn lemma_clean_components_fixed(parts: Seq<PathPartView>)
    requires
        clean_components(parts),
    ensures
        normalized_components(parts) == parts,
    decreases parts.len(),
{
    if parts.len() > 0 {
        let init = parts.drop_last();
        assert(clean_components(init)) by {
            assert forall|i: int| 0 <= i < init.len() implies (#[trigger] init[i] is Normal || (
            init[i] is RootDir && i == 0)) by {
                assert(init[i] == parts[i]);
            }
        }
        lemma_clean_components_fixed(init);
        if parts.last() is RootDir {
            assert(parts.len() == 1);
            assert(parts =~= seq![PathPartView::RootDir]);
        } else {
            assert(init.push(parts.last()) =~= parts);
        }
    }
}

/// Normalizing a path leaves no `.` or `..` among its components, and
/// normalizing the result again changes nothing (paths compare by their
/// components): for paths without a (Windows) prefix.
pub proof fn lemma_normalize_twice(p: Seq<char>, once: Seq<char>, twice: Seq<char>)
    requires
        no_prefix(path_components(p)),
        no_prefix(path_components(p)) ==> path_components(once) == normalized_result(
            path_components(p),
        ),
        no_prefix(path_components(once)) ==> path_components(twice) == normalized_result(
            path_components(once),
        ),
    ensures
        clean_components(path_components(once)),
        path_components(twice) == path_components(once),
{
    let c = path_components(p);
    lemma_normalized_components_clean(c);
    let once_parts = path_components(once);
    assert(clean_components(once_parts));
    assert(no_prefix(once_parts)) by {
        assert forall|i: int| 0 <= i < once_parts.len() implies !((#[trigger] once_parts[i]) is Prefix) by {
            assert(once_parts[i] is Normal || once_parts[i] is RootDir);
        }
    }
    lemma_clean_components_fixed(once_parts);
}

/// The normalized form of a path; the root when nothing is left.
pub open spec fn normalized_path(p: Seq<char>) -> Seq<char> {
    let n = normalized_parts(path_components(p));
    if n.len() == 0 {
        pathbuf_pushed(n, "/"@)
    } else {
        n
    }
}

impl LocalFs {
    /// Resolve `.` and `..` lexically, without touching the filesystem.
    pub fn normalize_path(path: &str) -> (r: String)
        ensures
            r@ == normalized_path(path@),
            r@.len() > 0,
            no_prefix(path_components(path@)) ==> path_components(r@) == normalized_result(
                path_components(path@),
            ),
    {
        let parts = components(path);
        let ghost views = parts@.map_values(|c: PathPart| c@);
        let mut normalized = String::new();
        let mut i: usize = 0;
        proof {
            assert(views.take(0) =~= Seq::<PathPartView>::empty());
            assert forall|j: int| 0 <= j < views.len() implies ((#[trigger] views[j]) matches PathPartView::Normal(
                s,
            ) ==> normal_name(s)) by {
                assert(views[j] == parts@[j]@);
            }
        }
        while i < parts.len()
            invariant
                i <= parts@.len(),
                views == parts@.map_values(|c: PathPart| c@),
                views == path_components(path@),
                normalized@ == normalized_parts(views.take(i as int)),
                forall|j: int|
                    0 <= j < views.len() ==> ((#[trigger] views[j]) matches PathPartView::Normal(
                        s,
                    ) ==> normal_name(s)),
                no_prefix(views.take(i as int)) ==> {
                    &&& normalized@.len() == 0 ==> normalized_components(views.take(i as int)).len()
                        == 0
                    &&& normalized@.len() > 0 ==> path_components(normalized@)
                        == normalized_components(views.take(i as int))
                    &&& normalized@.len() > 0 ==> normalized_components(views.take(i as int)).len()
                        > 0
                },
            decreases parts@.len() - i,
        {
            proof {
                assert(views.take(i + 1).drop_last() =~= views.take(i as int));
                assert(views.take(i + 1).last() == parts@[i as int]@);
                if no_prefix(views.take(i + 1)) {
                    assert forall|j: int| 0 <= j < i implies !((#[trigger] views.take(i as int)[j]) is Prefix) by {
                        assert(views.take(i as int)[j] == views.take(i + 1)[j]);
                    }
                }
            }
            match &parts[i] {
                PathPart::ParentDir => {
                    pop_path(&mut normalized);
                },
                PathPart::CurDir => {},
                PathPart::RootDir => {
                    push_path(&mut normalized, "/");
                },
                PathPart::Prefix(s) => {
                    push_path(&mut normalized, s.as_str());
                },
                PathPart::Normal(s) => {
                    push_path(&mut normalized, s.as_str());
                },
            }
            i = i + 1;
        }
        proof {
            assert(views.take(parts@.len() as int) =~= views);
        }
        if normalized.as_str().is_empty() {
            push_path(&mut normalized, "/");
        }
        normalized
    }
}

/// An entry a listing shows: its name does not start with a dot.
pub open spec fn is_visible(e: FileEntry) -> bool {
    !has_prefix(e.name@, "."@)
}

/// The visible entries, in listing order.
pub open spec fn visible_entries(entries: Seq<FileEntry>) -> Seq<FileEntry>
    decreases entries.len(),
{
    if entries.len() == 0 {
        Seq::empty()
    } else {
        let prev = visible_entries(entries.drop_last());
        if is_visible(entries.last()) {
            prev.push(entries.last())
        } else {
            prev
        }
    }
}

/// The key an entry is listed by: directories (0) before files (1), then
/// the lower-cased name, character by character.
pub open spec fn listing_key(e: FileEntry) -> Seq<u32> {
    seq![if e.is_dir { 0u32 } else { 1u32 }] + text_key(lowercase_of(e.name@))
}

/// The listing keys of entries.
pub open spec fn listing_keys(v: Seq<FileEntry>) -> Seq<Seq<u32>> {
    v.map_values(|e: FileEntry| listing_key(e))
}

/// `r` holds the entries `v`, reordered by `ord`: directories first, then
/// by lower-cased name, entries with equal keys in their order in `v`.
pub open spec fn listed_in_order(v: Seq<FileEntry>, ord: Seq<usize>, r: Seq<FileEntry>) -> bool {
    &&& ord.len() == v.len()
    &&& ord.to_multiset() == index_range(0, v.len() as int).to_multiset()
    &&& idx_sorted(listing_keys(v), ord)
    &&& r.len() == v.len()
    &&& forall|t: int| 0 <= t < r.len() ==> #[trigger] r[t] == v[ord[t] as int]
}

/// A copy of an entry.
fn copy_entry(e: &FileEntry) -> (r: FileEntry)
    ensures
        r == *e,
{
    let permissions = match &e.permissions {
        Some(p) => Some(p.clone()),
        None => None,
    };
    FileEntry {
        name: e.name.clone(),
        size: e.size,
        is_dir: e.is_dir,
        modified: e.modified,
        permissions,
    }
}

/// Entries in listing order: directories first, then by name without
/// regard to case; entries with equal keys keep their order.
pub fn sort_listing(entries: &[FileEntry]) -> (r: Vec<FileEntry>)
    ensures
        exists|ord: Seq<usize>| listed_in_order(entries@, ord, r@),
{
    let ghost vis = entries@;
    let mut keys: Vec<Vec<u32>> = Vec::new();
    let mut j: usize = 0;
    while j < entries.len()
        invariant
            j <= vis.len(),
            entries@ == vis,
            keys@.len() == j,
            forall|t: int| 0 <= t < j ==> (#[trigger] keys@[t])@ == listing_key(vis[t]),
        decreases vis.len() - j,
    {
        let mut k: Vec<u32> = Vec::new();
        if entries[j].is_dir {
            k.push(0);
        } else {
            k.push(1);
        }
        let lower = lowercase(entries[j].name.as_str());
        let mut name_key = text_key_of(lower.as_str());
        k.append(&mut name_key);
        keys.push(k);
        j = j + 1;
    }
    assert(keys@.map_values(|k: Vec<u32>| k@) =~= listing_keys(vis));
    let ord = sort_indices(&keys);
    let mut out: Vec<FileEntry> = Vec::new();
    let mut t: usize = 0;
    while t < ord.len()
        invariant
            t <= ord@.len(),
            ord@.len() == vis.len(),
            entries@ == vis,
            forall|a: int| 0 <= a < ord@.len() ==> (#[trigger] ord@[a]) < vis.len(),
            out@.len() == t,
            forall|a: int| 0 <= a < t ==> #[trigger] out@[a] == vis[ord@[a] as int],
        decreases ord@.len() - t,
    {
        out.push(copy_entry(&entries[ord[t]]));
        t = t + 1;
    }
    assert(listed_in_order(vis, ord@, out@));
    out
}

impl LocalFs {
    /// The listing of a directory read as `entries`: hidden entries (a name
    /// starting with a dot) left out, directories first, then by name
    /// without regard to case.
    pub fn listing(entries: &[FileEntry]) -> (r: Vec<FileEntry>)
        ensures
            exists|ord: Seq<usize>| listed_in_order(visible_entries(entries@), ord, r@),
    {
        let mut visible: Vec<FileEntry> = Vec::new();
        let mut i: usize = 0;
        while i < entries.len()
            invariant
                i <= entries@.len(),
                visible@ == visible_entries(entries@.take(i as int)),
            decreases entries@.len() - i,
        {
            proof {
                assert(entries@.take(i + 1).drop_last() =~= entries@.take(i as int));
                assert(entries@.take(i + 1).last() == entries@[i as int]);
            }
            if !starts_with(entries[i].name.as_str(), ".") {
                visible.push(copy_entry(&entries[i]));
            }
            i = i + 1;
        }
        assert(entries@.take(entries@.len() as int) =~= entries@);
        sort_listing(visible.as_slice())
    }
}

/// Local filesystem backend adapter
#[derive(Debug, Clone)]
pub struct LocalBackend {
    pub root: String,
}

/// Where a backend path lands: an absolute path as it is, a relative one
/// under the root.
pub open spec fn full_path_spec(root: Seq<char>, path: Seq<char>) -> Seq<char> {
    if has_prefix(path, "/"@) {
        path
    } else {
        pathbuf_pushed(root, path)
    }
}

impl LocalBackend {
    pub fn new(root: String) -> (r: Self)
        ensures
            r.root == root,
    {
        LocalBackend { root }
    }

    /// Where `path` lands on the local filesystem.
    pub fn full_path(&self, path: &str) -> (r: String)
        ensures
            r@ == full_path_spec(self.root@, path@),
    {
        if starts_with(path, "/") {
            to_string(path)
        } else {
            let mut p = self.root.clone();
            push_path(&mut p, path);
            p
        }
    }

    /// The path shown for `path`: where it lands.
    pub fn display_path(&self, path: &str) -> (r: String)
        ensures
            r@ == full_path_spec(self.root@, path@),
    {
        self.full_path(path)
    }

    /// The root of this backend.
    pub fn root_path(&self) -> (r: &str)
        ensures
            r@ == self.root@,
    {
        self.root.as_str()
    }

    /// The backend type: the local filesystem.
    pub fn backend_type(&self) -> (r: BackendType)
        ensures
            r is Local,
    {
        BackendType::Local
    }

    /// The capabilities of the local filesystem.
    pub fn capabilities(&self) -> (r: BackendCapabilities)
        ensures
            r == crate::fs::backend::all_flags(true),
    {
        BackendCapabilities::local()
    }
}

} // verus!
