//! Copying between backends: what copying a listed directory consists of.
//!
//! The copy itself (reading, writing, creating directories) is done by the
//! caller; this module decides, from a directory listing, which entries are
//! copied as directories and which as files, where each one goes, and the
//! progress reported before each file.
use vstd::prelude::*;
use crate::fs::types::FileEntry;
use crate::text::{chars_of, push_str, string_of_range, str_eq};

verus! {

/// Progress update for copy operations
#[derive(Debug, Clone)]
pub struct CopyProgress {
    pub bytes_copied: u64,
    pub total_bytes: u64,
    pub current_file: String,
    pub files_done: usize,
    pub total_files: usize,
}

/// One step of copying a directory: a subdirectory to copy recursively, or
/// a file to copy after reporting the progress.
#[derive(Debug, Clone)]
pub enum CopyStep {
    Directory { source: String, dest: String },
    File { source: String, dest: String, progress: CopyProgress },
}

/// What a copy step is, in plain values.
pub enum CopyStepView {
    Directory { source: Seq<char>, dest: Seq<char> },
    File {
        source: Seq<char>,
        dest: Seq<char>,
        copied: u64,
        size: u64,
        name: Seq<char>,
        files_done: nat,
        total_files: nat,
    },
}

impl View for CopyStep {
    type V = CopyStepView;

    open spec fn view(&self) -> CopyStepView {
        match self {
            CopyStep::Directory { source, dest } => CopyStepView::Directory {
                source: source@,
                dest: dest@,
            },
            CopyStep::File { source, dest, progress } => CopyStepView::File {
                source: source@,
                dest: dest@,
                copied: progress.bytes_copied,
                size: progress.total_bytes,
                name: progress.current_file@,
                files_done: progress.files_done as nat,
                total_files: progress.total_files as nat,
            },
        }
    }
}

/// The views of a list of steps.
pub open spec fn step_views(v: Seq<CopyStep>) -> Seq<CopyStepView> {
    v.map_values(|s: CopyStep| s@)
}

/// `s` without its trailing slashes.
pub open spec fn trim_trailing_slashes(s: Seq<char>) -> Seq<char>
    decreases s.len(),
{
    if s.len() > 0 && s.last() == '/' {
        trim_trailing_slashes(s.drop_last())
    } else {
        s
    }
}

/// The path of entry `name` of directory `dir`: the directory without its
/// trailing slashes, a slash, the name.
pub open spec fn child_path_spec(dir: Seq<char>, name: Seq<char>) -> Seq<char> {
    trim_trailing_slashes(dir) + "/"@ + name
}

/// The number of entries that are not directories.
pub open spec fn file_count(entries: Seq<FileEntry>) -> nat
    decreases entries.len(),
{
    if entries.len() == 0 {
        0
    } else {
        file_count(entries.drop_last()) + if entries.last().is_dir {
            0nat
        } else {
            1nat
        }
    }
}

/// The entry stands for the parent directory and is not copied.
pub open spec fn is_parent_entry(e: FileEntry) -> bool {
    e.name@ == ".."@
}

/// The number of entries that are copied as files.
pub open spec fn copied_file_count(entries: Seq<FileEntry>) -> nat
    decreases entries.len(),
{
    if entries.len() == 0 {
        0
    } else {
        copied_file_count(entries.drop_last()) + if entries.last().is_dir || is_parent_entry(
            entries.last(),
        ) {
            0nat
        } else {
            1nat
        }
    }
}

/// The steps of copying the directory `source` with the listing `entries`
/// to `dest`: every entry but `..`, in order, directories to be copied
/// recursively, files each with no byte copied yet, the number of files
/// copied before it and the number of files in the listing.
pub open spec fn copy_steps_spec(
    source: Seq<char>,
    dest: Seq<char>,
    entries: Seq<FileEntry>,
    total: nat,
) -> Seq<CopyStepView>
    decreases entries.len(),
{
    if entries.len() == 0 {
        Seq::empty()
    } else {
        let prev = copy_steps_spec(source, dest, entries.drop_last(), total);
        let e = entries.last();
        if is_parent_entry(e) {
            prev
        } else if e.is_dir {
            prev.push(
                CopyStepView::Directory {
                    source: child_path_spec(source, e.name@),
                    dest: child_path_spec(dest, e.name@),
                },
            )
        } else {
            prev.push(
                CopyStepView::File {
                    source: child_path_spec(source, e.name@),
                    dest: child_path_spec(dest, e.name@),
                    copied: 0,
                    size: e.size,
                    name: e.name@,
                    files_done: copied_file_count(entries.drop_last()),
                    total_files: total,
                },
            )
        }
    }
}

proof fn lemma_counts_bounded(entries: Seq<FileEntry>)
    ensures
        file_count(entries) <= entries.len(),
        copied_file_count(entries) <= entries.len(),
    decreases entries.len(),
{
    if entries.len() > 0 {
        lemma_counts_bounded(entries.drop_last());
    }
}

/// Count total files in entry list (non-recursive estimate)
pub fn count_files(entries: &[FileEntry]) -> (r: usize)
    ensures
        r == file_count(entries@),
{
    let mut n: usize = 0;
    let mut i: usize = 0;
    while i < entries.len()
        invariant
            i <= entries@.len(),
            n == file_count(entries@.take(i as int)),
        decreases entries@.len() - i,
    {
        proof {
            assert(entries@.take(i + 1).drop_last() =~= entries@.take(i as int));
            lemma_counts_bounded(entries@.take(i + 1));
        }
        if !entries[i].is_dir {
            n = n + 1;
        }
        i = i + 1;
    }
    assert(entries@.take(entries@.len() as int) =~= entries@);
    n
}

/// The path of entry `name` in directory `dir`.
pub fn child_path(dir: &str, name: &str) -> (r: String)
    ensures
        r@ == child_path_spec(dir@, name@),
{
    let cs = chars_of(dir);
    let mut k: usize = cs.len();
    assert(cs@.take(k as int) =~= cs@);
    while k > 0 && cs[k - 1] == '/'
        invariant
            k <= cs@.len(),
            cs@ == dir@,
            trim_trailing_slashes(dir@) == trim_trailing_slashes(cs@.take(k as int)),
        decreases k,
    {
        proof {
            assert(cs@.take(k as int).drop_last() =~= cs@.take(k - 1));
        }
        k = k - 1;
    }
    let mut s = string_of_range(&cs, 0, k);
    assert(s@ =~= cs@.take(k as int));
    push_str(&mut s, "/");
    push_str(&mut s, name);
    s
}

/// The steps of copying the directory `source_path`, listed as `entries`,
/// to `dest_path`.
pub fn copy_steps(source_path: &str, dest_path: &str, entries: &[FileEntry]) -> (r: Vec<CopyStep>)
    ensures
        step_views(r@) == copy_steps_spec(source_path@, dest_path@, entries@, file_count(entries@)),
{
    let total_files = count_files(entries);
    let mut steps: Vec<CopyStep> = Vec::new();
    let mut files_done: usize = 0;
    let mut i: usize = 0;
    while i < entries.len()
        invariant
            i <= entries@.len(),
            total_files == file_count(entries@),
            files_done == copied_file_count(entries@.take(i as int)),
            step_views(steps@) == copy_steps_spec(
                source_path@,
                dest_path@,
                entries@.take(i as int),
                file_count(entries@),
            ),
        decreases entries@.len() - i,
    {
        let ghost before = steps@;
        let ghost prefix = entries@.take(i + 1);
        proof {
            lemma_counts_bounded(entries@.take(i as int));
            assert(prefix.drop_last() =~= entries@.take(i as int));
            assert(prefix.last() == entries@[i as int]);
            lemma_counts_bounded(prefix);
        }
        let e = &entries[i];
        if str_eq(e.name.as_str(), "..") {
        } else if e.is_dir {
            let step = CopyStep::Directory {
                source: child_path(source_path, e.name.as_str()),
                dest: child_path(dest_path, e.name.as_str()),
            };
            steps.push(step);
            assert(step_views(steps@) =~= step_views(before).push(step@));
        } else {
            let step = CopyStep::File {
                source: child_path(source_path, e.name.as_str()),
                dest: child_path(dest_path, e.name.as_str()),
                progress: CopyProgress {
                    bytes_copied: 0,
                    total_bytes: e.size,
                    current_file: e.name.clone(),
                    files_done,
                    total_files,
                },
            };
            steps.push(step);
            assert(step_views(steps@) =~= step_views(before).push(step@));
            files_done = files_done + 1;
        }
        i = i + 1;
    }
    assert(entries@.take(entries@.len() as int) =~= entries@);
    steps
}

} // verus!
