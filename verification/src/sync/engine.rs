//! Sync planning: change detection between a source and a destination
//! listing, the actions that follow from it, and the data handling of a
//! single transfer.
use vstd::prelude::*;
use crate::sync::compression::{
    already_compressed_extensions,
    lemma_listed_suffix_is_compressed,
    compress,
    compressed_form,
    compressed_suffix,
    decompress,
    CompressionLevel,
    CompressionType,
};
use crate::sync::conflict::{
    ts_later,
    ts_nanos,
    Conflict,
    ConflictResolver,
    ConflictStrategy,
    FileInfo,
    Timestamp,
};
use crate::sync::exclude::{compiling, default_patterns, excluded_by, ExcludePatterns};
use crate::sync::hash::{blake3_hex, hash_bytes};
use crate::sync::throttle::BandwidthLimit;
use crate::text::{chars_of, from_chars, has_prefix, has_suffix, lowercase_of, push_str, str_eq, to_string};

verus! {

/// Sync mode.
#[derive(Debug, Clone, Copy, PartialEq, Eq, Structural)]
pub enum SyncMode {
    /// One-way sync: source -> destination.
    OneWay,
    /// Bidirectional sync: changes flow both ways.
    Bidirectional,
    /// Mirror: destination matches source exactly (deletes extras).
    Mirror,
}

impl Default for SyncMode {
    fn default() -> (r: Self)
        ensures
            r == SyncMode::OneWay,
    {
        SyncMode::OneWay
    }
}

/// Sync configuration.
#[derive(Debug)]
pub struct SyncConfig {
    /// Sync mode.
    pub mode: SyncMode,
    /// Conflict resolution strategy.
    pub conflict_strategy: ConflictStrategy,
    /// Exclude patterns.
    pub exclude: ExcludePatterns,
    /// Compression type for transfers.
    pub compression: CompressionType,
    /// Compression level.
    pub compression_level: CompressionLevel,
    /// Bandwidth limit.
    pub bandwidth_limit: BandwidthLimit,
    /// Whether this is a dry run (no actual changes).
    pub dry_run: bool,
    /// Delete files in destination that don't exist in source (mirror mode).
    pub delete_extra: bool,
    /// Verify file integrity with checksums.
    pub verify: bool,
}

/// `c` is the default configuration: one-way, the latest write winning,
/// the default exclusions, no compression at the balanced level, no
/// bandwidth limit, no dry run, no mirroring and no verification.
pub open spec fn is_default_config(c: SyncConfig) -> bool {
    &&& c.mode == SyncMode::OneWay
    &&& c.conflict_strategy == ConflictStrategy::LastWriteWins
    &&& c.exclude.uses_defaults()
    &&& c.exclude.pattern_texts() == compiling(default_patterns())
    &&& c.compression == CompressionType::NoCompression
    &&& c.compression_level.level() == 3
    &&& c.bandwidth_limit.bytes_per_second == 0
    &&& !c.dry_run
    &&& !c.delete_extra
    &&& !c.verify
}

impl Default for SyncConfig {
    fn default() -> (r: Self)
        ensures
            r.mode == SyncMode::OneWay,
            r.conflict_strategy == ConflictStrategy::LastWriteWins,
            r.exclude.uses_defaults(),
            r.exclude.pattern_texts() == compiling(default_patterns()),
            r.compression == CompressionType::NoCompression,
            r.compression_level.level() == 3,
            r.bandwidth_limit.bytes_per_second == 0,
            !r.dry_run,
            !r.delete_extra,
            !r.verify,
    {
        SyncConfig {
            mode: SyncMode::OneWay,
            conflict_strategy: ConflictStrategy::LastWriteWins,
            exclude: ExcludePatterns::with_defaults(),
            compression: CompressionType::NoCompression,
            compression_level: CompressionLevel::balanced(),
            bandwidth_limit: BandwidthLimit::unlimited(),
            dry_run: false,
            delete_extra: false,
            verify: false,
        }
    }
}

/// Action to take for a file.
#[derive(Debug, Clone, PartialEq, Eq)]
pub enum SyncAction {
    /// Copy file from source to destination.
    CopyToDestination { path: String },
    /// Copy file from destination to source (bidirectional).
    CopyToSource { path: String },
    /// Delete file from destination.
    DeleteFromDestination { path: String },
    /// Delete file from source (bidirectional).
    DeleteFromSource { path: String },
    /// Create directory in destination.
    CreateDirInDestination { path: String },
    /// Create directory in source (bidirectional).
    CreateDirInSource { path: String },
    /// Skip file (no action needed).
    Skip { path: String, reason: String },
    /// Conflict requires resolution.
    Conflict { path: String },
}

/// A sync action with its texts as character sequences.
pub enum ActionView {
    CopyToDestination(Seq<char>),
    CopyToSource(Seq<char>),
    DeleteFromDestination(Seq<char>),
    DeleteFromSource(Seq<char>),
    CreateDirInDestination(Seq<char>),
    CreateDirInSource(Seq<char>),
    Skip(Seq<char>, Seq<char>),
    Conflict(Seq<char>),
}

impl View for SyncAction {
    type V = ActionView;

    open spec fn view(&self) -> ActionView {
        match self {
            SyncAction::CopyToDestination { path } => ActionView::CopyToDestination(path@),
            SyncAction::CopyToSource { path } => ActionView::CopyToSource(path@),
            SyncAction::DeleteFromDestination { path } => ActionView::DeleteFromDestination(path@),
            SyncAction::DeleteFromSource { path } => ActionView::DeleteFromSource(path@),
            SyncAction::CreateDirInDestination { path } => ActionView::CreateDirInDestination(
                path@,
            ),
            SyncAction::CreateDirInSource { path } => ActionView::CreateDirInSource(path@),
            SyncAction::Skip { path, reason } => ActionView::Skip(path@, reason@),
            SyncAction::Conflict { path } => ActionView::Conflict(path@),
        }
    }
}

/// The path an action is about.
pub open spec fn action_path(a: ActionView) -> Seq<char> {
    match a {
        ActionView::CopyToDestination(p) => p,
        ActionView::CopyToSource(p) => p,
        ActionView::DeleteFromDestination(p) => p,
        ActionView::DeleteFromSource(p) => p,
        ActionView::CreateDirInDestination(p) => p,
        ActionView::CreateDirInSource(p) => p,
        ActionView::Skip(p, _) => p,
        ActionView::Conflict(p) => p,
    }
}

/// The views of a list of actions.
pub open spec fn action_views(v: Seq<SyncAction>) -> Seq<ActionView> {
    v.map_values(|a: SyncAction| a@)
}

impl SyncAction {
    /// Get the path associated with this action.
    pub fn path(&self) -> (r: &str)
        ensures
            r@ == action_path(self@),
    {
        match self {
            SyncAction::CopyToDestination { path } => path.as_str(),
            SyncAction::CopyToSource { path } => path.as_str(),
            SyncAction::DeleteFromDestination { path } => path.as_str(),
            SyncAction::DeleteFromSource { path } => path.as_str(),
            SyncAction::CreateDirInDestination { path } => path.as_str(),
            SyncAction::CreateDirInSource { path } => path.as_str(),
            SyncAction::Skip { path, .. } => path.as_str(),
            SyncAction::Conflict { path } => path.as_str(),
        }
    }

    /// Check if this is a skip action.
    pub fn is_skip(&self) -> (r: bool)
        ensures
            r == (self@ is Skip),
    {
        match self {
            SyncAction::Skip { .. } => true,
            _ => false,
        }
    }
}

/// Sync statistics.
#[derive(Debug, Clone, Copy)]
pub struct SyncStats {
    /// Files scanned.
    pub files_scanned: usize,
    /// Files copied.
    pub files_copied: usize,
    /// Files deleted.
    pub files_deleted: usize,
    /// Directories created.
    pub dirs_created: usize,
    /// Files skipped.
    pub files_skipped: usize,
    /// Conflicts detected.
    pub conflicts: usize,
    /// Bytes transferred.
    pub bytes_transferred: u64,
    /// Total duration.
    pub duration_ms: u64,
}

impl Default for SyncStats {
    fn default() -> (r: Self)
        ensures
            r.files_scanned == 0 && r.files_copied == 0 && r.files_deleted == 0
                && r.dirs_created == 0 && r.files_skipped == 0 && r.conflicts == 0
                && r.bytes_transferred == 0 && r.duration_ms == 0,
    {
        SyncStats {
            files_scanned: 0,
            files_copied: 0,
            files_deleted: 0,
            dirs_created: 0,
            files_skipped: 0,
            conflicts: 0,
            bytes_transferred: 0,
            duration_ms: 0,
        }
    }
}

/// Result of a sync operation.
#[derive(Debug)]
pub struct SyncResult {
    /// Actions that were planned/executed.
    pub actions: Vec<SyncAction>,
    /// Conflicts that need resolution.
    pub conflicts: Vec<Conflict>,
    /// Statistics.
    pub stats: SyncStats,
    /// Whether this was a dry run.
    pub dry_run: bool,
}

/// Current sync phase.
#[derive(Debug, Clone, Copy, PartialEq, Eq, Structural)]
pub enum SyncPhase {
    Scanning,
    Comparing,
    Transferring,
    Verifying,
    Complete,
}

/// Progress update for sync operations.
#[derive(Debug, Clone)]
pub struct SyncProgress {
    /// Current phase.
    pub phase: SyncPhase,
    /// Current file being processed.
    pub current_file: String,
    /// Files processed so far.
    pub files_done: usize,
    /// Total files to process.
    pub total_files: usize,
    /// Bytes transferred so far.
    pub bytes_done: u64,
    /// Total bytes to transfer.
    pub total_bytes: u64,
}

/// A file or directory found by a scan, by its path relative to the
/// scanned root.
#[derive(Debug, Clone)]
pub struct FileState {
    pub path: String,
    pub size: u64,
    pub modified: Option<Timestamp>,
    pub is_dir: bool,
}

impl FileState {
    pub fn new(path: &str, size: u64, modified: Option<Timestamp>, is_dir: bool) -> (r: Self)
        ensures
            r.path@ == path@,
            r.size == size,
            r.modified == modified,
            r.is_dir == is_dir,
    {
        FileState { path: to_string(path), size, modified, is_dir }
    }
}

/// A file needs to be copied over its counterpart: the sizes differ, or
/// both have a modification time and the source's is later.
pub open spec fn needs_update_spec(src: FileState, dst: FileState) -> bool {
    if src.size != dst.size {
        true
    } else {
        match (src.modified, dst.modified) {
            (Some(a), Some(b)) => ts_later(a, b),
            _ => false,
        }
    }
}

/// Sixty seconds in nanoseconds.
pub open spec fn conflict_window_nanos() -> int {
    60_000_000_000
}

/// Two versions conflict: in bidirectional mode, with different sizes and
/// modification times less than a minute apart.
pub open spec fn conflict_spec(mode: SyncMode, src: FileState, dst: FileState) -> bool {
    &&& mode == SyncMode::Bidirectional
    &&& match (src.modified, dst.modified) {
        (Some(a), Some(b)) => src.size != dst.size && -conflict_window_nanos() < ts_nanos(a)
            - ts_nanos(b) < conflict_window_nanos(),
        _ => false,
    }
}

/// The two times are less than a minute apart, whichever is the later.
pub open spec fn times_within_minute(a: Timestamp, b: Timestamp) -> bool {
    let gap = (a.secs * 1_000_000_000 + a.nanos) - (b.secs * 1_000_000_000 + b.nanos);
    (if gap >= 0 {
        gap
    } else {
        -gap
    }) < 60_000_000_000
}

/// Two versions conflict exactly in bidirectional mode, when their sizes
/// differ and both modification times are known and less than a minute
/// apart in either direction; so whether two versions conflict does not
/// depend on which is the source, and versions a minute or more apart never
/// conflict.
pub proof fn lemma_conflict_needs_close_times(mode: SyncMode, src: FileState, dst: FileState)
    ensures
        conflict_spec(mode, src, dst) <==> mode == SyncMode::Bidirectional && src.size != dst.size
            && src.modified is Some && dst.modified is Some && times_within_minute(
            src.modified->0,
            dst.modified->0,
        ),
        conflict_spec(mode, src, dst) == conflict_spec(mode, dst, src),
        src.modified is Some && dst.modified is Some && !times_within_minute(
            src.modified->0,
            dst.modified->0,
        ) ==> !conflict_spec(mode, src, dst),
{
}

/// A destination needs updating exactly when its size differs from the
/// source's, or both times are known and the source was modified strictly
/// later (by seconds, then nanoseconds): an older source never overwrites a
/// destination of the same size.
pub proof fn lemma_update_needs_newer_source(src: FileState, dst: FileState)
    ensures
        needs_update_spec(src, dst) <==> src.size != dst.size || (src.modified is Some
            && dst.modified is Some && (src.modified->0.secs > dst.modified->0.secs || (
        src.modified->0.secs == dst.modified->0.secs && src.modified->0.nanos
            > dst.modified->0.nanos))),
        src.size == dst.size && src.modified is Some && dst.modified is Some && src.modified->0
            == dst.modified->0 ==> !needs_update_spec(src, dst),
{
}

/// Check if a file needs to be updated.
pub fn needs_update(src: &FileState, dst: &FileState) -> (r: bool)
    ensures
        r == needs_update_spec(*src, *dst),
        r <==> src.size != dst.size || (src.modified is Some && dst.modified is Some && (
        src.modified->0.secs > dst.modified->0.secs || (src.modified->0.secs
            == dst.modified->0.secs && src.modified->0.nanos > dst.modified->0.nanos))),
{
    if src.size != dst.size {
        return true;
    }
    match (&src.modified, &dst.modified) {
        (Some(a), Some(b)) => a.is_later_than(b),
        _ => false,
    }
}

/// Check if there's a conflict (both files modified within a minute of
/// each other, in bidirectional mode).
pub fn is_conflict(mode: SyncMode, src: &FileState, dst: &FileState) -> (r: bool)
    ensures
        r == conflict_spec(mode, *src, *dst),
        r <==> mode == SyncMode::Bidirectional && src.size != dst.size && src.modified is Some
            && dst.modified is Some && times_within_minute(src.modified->0, dst.modified->0),
{
    if mode != SyncMode::Bidirectional {
        return false;
    }
    match (&src.modified, &dst.modified) {
        (Some(a), Some(b)) => {
            let na: i128 = (a.secs as i128) * 1_000_000_000 + (a.nanos as i128);
            let nb: i128 = (b.secs as i128) * 1_000_000_000 + (b.nanos as i128);
            let d: i128 = na - nb;
            src.size != dst.size && -60_000_000_000 < d && d < 60_000_000_000
        },
        _ => false,
    }
}

/// The last entry of `files` with path `p`: a later entry with the same
/// path replaces an earlier one.
pub open spec fn entry_for(files: Seq<FileState>, p: Seq<char>) -> Option<FileState>
    decreases files.len(),
{
    if files.len() == 0 {
        None
    } else if files.last().path@ == p {
        Some(files.last())
    } else {
        entry_for(files.drop_last(), p)
    }
}

/// What the plan says of a source file, given the destination listing.
pub open spec fn source_action(
    globs: Seq<Seq<char>>,
    mode: SyncMode,
    f: FileState,
    dest: Seq<FileState>,
) -> Option<ActionView> {
    if excluded_by(globs, f.path@) {
        Some(ActionView::Skip(f.path@, "Excluded by pattern"@))
    } else {
        match entry_for(dest, f.path@) {
            Some(d) => if f.is_dir {
                None
            } else if needs_update_spec(f, d) {
                if conflict_spec(mode, f, d) {
                    Some(ActionView::Conflict(f.path@))
                } else {
                    Some(ActionView::CopyToDestination(f.path@))
                }
            } else {
                Some(ActionView::Skip(f.path@, "Already up to date"@))
            },
            None => if f.is_dir {
                Some(ActionView::CreateDirInDestination(f.path@))
            } else {
                Some(ActionView::CopyToDestination(f.path@))
            },
        }
    }
}

/// The actions for the source files, in listing order.
pub open spec fn source_plan(
    globs: Seq<Seq<char>>,
    mode: SyncMode,
    src: Seq<FileState>,
    dest: Seq<FileState>,
) -> Seq<ActionView>
    decreases src.len(),
{
    if src.len() == 0 {
        Seq::empty()
    } else {
        let prev = source_plan(globs, mode, src.drop_last(), dest);
        match source_action(globs, mode, src.last(), dest) {
            Some(a) => prev.push(a),
            None => prev,
        }
    }
}

/// What the plan says of a destination file: nothing when the source has
/// it or it is excluded; otherwise it is deleted when extras are deleted or
/// in mirror mode, and brought to the source in bidirectional mode.
pub open spec fn extra_action(
    globs: Seq<Seq<char>>,
    mode: SyncMode,
    delete_extra: bool,
    f: FileState,
    src: Seq<FileState>,
) -> Option<ActionView> {
    if entry_for(src, f.path@) is Some || excluded_by(globs, f.path@) {
        None
    } else if delete_extra || mode == SyncMode::Mirror {
        Some(ActionView::DeleteFromDestination(f.path@))
    } else if mode == SyncMode::Bidirectional {
        if f.is_dir {
            Some(ActionView::CreateDirInSource(f.path@))
        } else {
            Some(ActionView::CopyToSource(f.path@))
        }
    } else {
        None
    }
}

/// The actions for the destination files, in listing order.
pub open spec fn extra_plan(
    globs: Seq<Seq<char>>,
    mode: SyncMode,
    delete_extra: bool,
    dest: Seq<FileState>,
    src: Seq<FileState>,
) -> Seq<ActionView>
    decreases dest.len(),
{
    if dest.len() == 0 {
        Seq::empty()
    } else {
        let prev = extra_plan(globs, mode, delete_extra, dest.drop_last(), src);
        match extra_action(globs, mode, delete_extra, dest.last(), src) {
            Some(a) => prev.push(a),
            None => prev,
        }
    }
}

/// The source/destination pairs that the plan reports as conflicts, in order.
pub open spec fn conflict_pairs(
    globs: Seq<Seq<char>>,
    mode: SyncMode,
    src: Seq<FileState>,
    dest: Seq<FileState>,
) -> Seq<(FileState, FileState)>
    decreases src.len(),
{
    if src.len() == 0 {
        Seq::empty()
    } else {
        let prev = conflict_pairs(globs, mode, src.drop_last(), dest);
        match source_action(globs, mode, src.last(), dest) {
            Some(ActionView::Conflict(_)) => prev.push(
                (src.last(), entry_for(dest, src.last().path@).unwrap()),
            ),
            _ => prev,
        }
    }
}

/// The number of skip actions in `s`.
pub open spec fn skip_count(s: Seq<ActionView>) -> nat
    decreases s.len(),
{
    if s.len() == 0 {
        0
    } else {
        skip_count(s.drop_last()) + if s.last() is Skip {
            1nat
        } else {
            0nat
        }
    }
}

/// The number of conflict actions in `s`.
pub open spec fn conflict_count(s: Seq<ActionView>) -> nat
    decreases s.len(),
{
    if s.len() == 0 {
        0
    } else {
        conflict_count(s.drop_last()) + if s.last() is Conflict {
            1nat
        } else {
            0nat
        }
    }
}

/// `c` is the conflict registered for the pair `pair` under `strategy`.
pub open spec fn registered(c: Conflict, pair: (FileState, FileState), strategy: ConflictStrategy) -> bool {
    &&& c.path@ == pair.0.path@
    &&& c.source.path@ == pair.0.path@
    &&& c.source.size == pair.0.size
    &&& c.source.modified == pair.0.modified
    &&& c.source.hash is None
    &&& c.dest.path@ == pair.1.path@
    &&& c.dest.size == pair.1.size
    &&& c.dest.modified == pair.1.modified
    &&& c.dest.hash is None
    &&& c.strategy == strategy
    &&& !c.resolved
    &&& c.resolution is None
}

proof fn lemma_entry_for_suffix(files: Seq<FileState>, p: Seq<char>, k: int)
    requires
        0 <= k <= files.len(),
        forall|j: int| k <= j < files.len() ==> (#[trigger] files[j]).path@ != p,
    ensures
        entry_for(files, p) == entry_for(files.take(k), p),
    decreases files.len(),
{
    if files.len() == k {
        assert(files.take(k) =~= files);
    } else {
        assert(files.last() == files[files.len() - 1]);
        lemma_entry_for_suffix(files.drop_last(), p, k);
        assert(files.drop_last().take(k) =~= files.take(k));
    }
}

/// The index of the last entry of `files` whose path is `p`.
fn find_entry(files: &[FileState], p: &str) -> (r: Option<usize>)
    ensures
        match r {
            Some(j) => j < files@.len() && entry_for(files@, p@) == Some(files@[j as int]),
            None => entry_for(files@, p@) is None,
        },
{
    let mut k: usize = files.len();
    while k > 0
        invariant
            k <= files@.len(),
            forall|j: int| k <= j < files@.len() ==> (#[trigger] files@[j]).path@ != p@,
        decreases k,
    {
        if str_eq(files[k - 1].path.as_str(), p) {
            proof {
                lemma_entry_for_suffix(files@, p@, k as int);
                assert(files@.take(k as int).last() == files@[k - 1]);
            }
            return Some(k - 1);
        }
        k = k - 1;
    }
    proof {
        lemma_entry_for_suffix(files@, p@, 0);
    }
    None
}

/// The conflicts registered after `old` ones: the resolver keeps what it
/// had and appends one conflict per pair, under its default strategy.
pub open spec fn registers(
    old_pending: Seq<Conflict>,
    pending: Seq<Conflict>,
    pairs: Seq<(FileState, FileState)>,
    strategy: ConflictStrategy,
) -> bool {
    &&& pending.len() == old_pending.len() + pairs.len()
    &&& pending.take(old_pending.len() as int) == old_pending
    &&& forall|k: int|
        0 <= k < pairs.len() ==> registered(
            #[trigger] pending[old_pending.len() + k],
            pairs[k],
            strategy,
        )
}

/// Decide what a sync does: compare the source listing with the destination
/// listing (a path present twice counts by its last entry), skip excluded
/// and up-to-date files, copy new and changed files, register conflicting
/// ones with `resolver`, and, for the destination files that the source
/// lacks, delete them (extras deleted, or mirror mode) or bring them back
/// (bidirectional mode).
pub fn plan_actions(
    config: &SyncConfig,
    source_files: &[FileState],
    dest_files: &[FileState],
    resolver: &mut ConflictResolver,
) -> (r: (Vec<SyncAction>, SyncStats))
    ensures
        ({
            let g = config.exclude.matcher();
            let sp = source_plan(g, config.mode, source_files@, dest_files@);
            &&& action_views(r.0@) == sp + extra_plan(
                g,
                config.mode,
                config.delete_extra,
                dest_files@,
                source_files@,
            )
            &&& r.1.files_scanned == source_files@.len()
            &&& r.1.files_skipped == skip_count(sp)
            &&& r.1.conflicts == conflict_count(sp)
            &&& r.1.files_copied == 0 && r.1.files_deleted == 0 && r.1.dirs_created == 0
            &&& r.1.bytes_transferred == 0 && r.1.duration_ms == 0
            &&& registers(
                old(resolver).pending@,
                final(resolver).pending@,
                conflict_pairs(g, config.mode, source_files@, dest_files@),
                old(resolver).default_strategy,
            )
        }),
        final(resolver).default_strategy == old(resolver).default_strategy,
        final(resolver).resolved@ == old(resolver).resolved@,
{
    let ghost g = config.exclude.matcher();
    let ghost m = config.mode;
    let ghost src = source_files@;
    let ghost dst = dest_files@;
    let ghost old_pending = resolver.pending@;
    let ghost old_resolved = resolver.resolved@;
    let ghost strategy = resolver.default_strategy;
    let mut actions: Vec<SyncAction> = Vec::new();
    let mut stats = SyncStats::default();
    let mut i: usize = 0;
    proof {
        assert(src.take(0) =~= Seq::<FileState>::empty());
        assert(resolver.pending@.take(old_pending.len() as int) =~= old_pending);
    }
    while i < source_files.len()
        invariant
            i <= src.len(),
            src == source_files@,
            dst == dest_files@,
            g == config.exclude.matcher(),
            m == config.mode,
            action_views(actions@) == source_plan(g, m, src.take(i as int), dst),
            stats.files_scanned == i,
            stats.files_skipped == skip_count(source_plan(g, m, src.take(i as int), dst)),
            stats.conflicts == conflict_count(source_plan(g, m, src.take(i as int), dst)),
            skip_count(source_plan(g, m, src.take(i as int), dst)) <= i,
            conflict_count(source_plan(g, m, src.take(i as int), dst)) <= i,
            stats.files_copied == 0 && stats.files_deleted == 0 && stats.dirs_created == 0,
            stats.bytes_transferred == 0 && stats.duration_ms == 0,
            resolver.default_strategy == strategy,
            resolver.resolved@ == old_resolved,
            registers(
                old_pending,
                resolver.pending@,
                conflict_pairs(g, m, src.take(i as int), dst),
                strategy,
            ),
        decreases src.len() - i,
    {
        let f = &source_files[i];
        let ghost prev_actions = action_views(actions@);
        let ghost prev_plan = source_plan(g, m, src.take(i as int), dst);
        let ghost prev_pairs = conflict_pairs(g, m, src.take(i as int), dst);
        let ghost prev_pending = resolver.pending@;
        proof {
            assert(src.take(i + 1).drop_last() =~= src.take(i as int));
            assert(src.take(i + 1).last() == src[i as int]);
        }
        stats.files_scanned = stats.files_scanned + 1;
        if config.exclude.is_excluded(f.path.as_str()) {
            actions.push(
                SyncAction::Skip { path: f.path.clone(), reason: to_string("Excluded by pattern") },
            );
            stats.files_skipped = stats.files_skipped + 1;
        } else {
            match find_entry(dest_files, f.path.as_str()) {
                Some(j) => {
                    let d = &dest_files[j];
                    if f.is_dir {
                    } else if needs_update(f, d) {
                        if is_conflict(config.mode, f, d) {
                            resolver.add_conflict(
                                f.path.as_str(),
                                FileInfo::new(f.path.as_str(), f.size, f.modified),
                                FileInfo::new(d.path.as_str(), d.size, d.modified),
                            );
                            actions.push(SyncAction::Conflict { path: f.path.clone() });
                            stats.conflicts = stats.conflicts + 1;
                        } else {
                            actions.push(SyncAction::CopyToDestination { path: f.path.clone() });
                        }
                    } else {
                        actions.push(
                            SyncAction::Skip {
                                path: f.path.clone(),
                                reason: to_string("Already up to date"),
                            },
                        );
                        stats.files_skipped = stats.files_skipped + 1;
                    }
                },
                None => {
                    if f.is_dir {
                        actions.push(SyncAction::CreateDirInDestination { path: f.path.clone() });
                    } else {
                        actions.push(SyncAction::CopyToDestination { path: f.path.clone() });
                    }
                },
            }
        }
        proof {
            let plan = source_plan(g, m, src.take(i + 1), dst);
            let pairs = conflict_pairs(g, m, src.take(i + 1), dst);
            if action_views(actions@).len() == prev_actions.len() {
                assert(action_views(actions@) =~= prev_actions);
            } else {
                assert(action_views(actions@) =~= prev_actions.push(action_views(actions@).last()));
                assert(plan.drop_last() =~= prev_plan);
            }
            if pairs.len() > prev_pairs.len() {
                assert(pairs.drop_last() =~= prev_pairs);
                assert(resolver.pending@.take(old_pending.len() as int) =~= prev_pending.take(
                    old_pending.len() as int,
                ));
                assert forall|k: int| 0 <= k < pairs.len() implies registered(
                    #[trigger] resolver.pending@[old_pending.len() + k],
                    pairs[k],
                    strategy,
                ) by {
                    if k < prev_pairs.len() {
                        assert(resolver.pending@[old_pending.len() + k] == prev_pending[old_pending.len() + k]);
                    }
                }
            }
        }
        i = i + 1;
    }
    proof {
        assert(src.take(src.len() as int) =~= src);
    }
    let ghost sp = source_plan(g, m, src, dst);
    let mut j: usize = 0;
    proof {
        assert(dst.take(0) =~= Seq::<FileState>::empty());
        assert(sp + Seq::<ActionView>::empty() =~= sp);
    }
    while j < dest_files.len()
        invariant
            j <= dst.len(),
            src == source_files@,
            dst == dest_files@,
            g == config.exclude.matcher(),
            m == config.mode,
            action_views(actions@) == sp + extra_plan(
                g,
                m,
                config.delete_extra,
                dst.take(j as int),
                src,
            ),
        decreases dst.len() - j,
    {
        let f = &dest_files[j];
        let ghost prev_actions = action_views(actions@);
        let ghost prev_extra = extra_plan(g, m, config.delete_extra, dst.take(j as int), src);
        proof {
            assert(dst.take(j + 1).drop_last() =~= dst.take(j as int));
            assert(dst.take(j + 1).last() == dst[j as int]);
        }
        let wanted = config.delete_extra || config.mode == SyncMode::Mirror || config.mode
            == SyncMode::Bidirectional;
        if wanted && find_entry(source_files, f.path.as_str()).is_none()
            && !config.exclude.is_excluded(f.path.as_str()) {
            if config.delete_extra || config.mode == SyncMode::Mirror {
                actions.push(SyncAction::DeleteFromDestination { path: f.path.clone() });
            } else if f.is_dir {
                actions.push(SyncAction::CreateDirInSource { path: f.path.clone() });
            } else {
                actions.push(SyncAction::CopyToSource { path: f.path.clone() });
            }
        }
        proof {
            let extra = extra_plan(g, m, config.delete_extra, dst.take(j + 1), src);
            if action_views(actions@).len() == prev_actions.len() {
                assert(action_views(actions@) =~= prev_actions);
                assert(sp + extra =~= sp + prev_extra);
            } else {
                assert(action_views(actions@) =~= prev_actions.push(action_views(actions@).last()));
                assert(extra.drop_last() =~= prev_extra);
                assert(sp + extra =~= (sp + prev_extra).push(extra.last()));
            }
        }
        j = j + 1;
    }
    proof {
        assert(dst.take(dst.len() as int) =~= dst);
    }
    (actions, stats)
}

/// `s` without its leading slashes.
pub open spec fn trim_leading_slashes(s: Seq<char>) -> Seq<char>
    decreases s.len(),
{
    if s.len() > 0 && s[0] == '/' {
        trim_leading_slashes(s.drop_first())
    } else {
        s
    }
}

/// The path, relative to the scanned root `root`, of the entry `name` found
/// while listing `current`.
pub open spec fn relative_path_spec(root: Seq<char>, current: Seq<char>, name: Seq<char>) -> Seq<
    char,
> {
    if current == root {
        name
    } else {
        let rest = if has_prefix(current, root) {
            current.skip(root.len() as int)
        } else {
            current
        };
        let prefix = trim_leading_slashes(rest);
        if prefix.len() == 0 {
            name
        } else {
            prefix + seq!['/'] + name
        }
    }
}

/// The path of entry `name` of directory `current` relative to the scanned
/// root `root`: `current` loses the root prefix and its leading slashes,
/// and what is left is joined to `name` with a slash.
pub fn relative_entry_path(root: &str, current: &str, name: &str) -> (r: String)
    ensures
        r@ == relative_path_spec(root@, current@, name@),
{
    if str_eq(current, root) {
        return to_string(name);
    }
    let cur = chars_of(current);
    let start: usize = if crate::text::starts_with(current, root) {
        chars_of(root).len()
    } else {
        0
    };
    let ghost rest = if has_prefix(current@, root@) {
        current@.skip(root@.len() as int)
    } else {
        current@
    };
    let mut k: usize = start;
    proof {
        assert(cur@.skip(k as int) =~= rest);
    }
    while k < cur.len() && cur[k] == '/'
        invariant
            start <= k <= cur@.len(),
            cur@ == current@,
            trim_leading_slashes(rest) == trim_leading_slashes(cur@.skip(k as int)),
        decreases cur@.len() - k,
    {
        proof {
            assert(cur@.skip(k as int).drop_first() =~= cur@.skip(k + 1));
        }
        k = k + 1;
    }
    proof {
        if k < cur@.len() {
            assert(cur@.skip(k as int)[0] == cur@[k as int]);
        }
    }
    if k == cur.len() {
        proof {
            assert(cur@.skip(k as int) =~= Seq::<char>::empty());
        }
        return to_string(name);
    }
    let mut out = String::new();
    let mut idx: usize = k;
    while idx < cur.len()
        invariant
            k <= idx <= cur@.len(),
            out@ == cur@.subrange(k as int, idx as int),
        decreases cur@.len() - idx,
    {
        crate::text::push_char(&mut out, cur[idx]);
        proof {
            assert(cur@.subrange(k as int, idx + 1) =~= cur@.subrange(k as int, idx as int).push(
                cur@[idx as int],
            ));
        }
        idx = idx + 1;
    }
    proof {
        assert(cur@.subrange(k as int, cur@.len() as int) =~= cur@.skip(k as int));
    }
    crate::text::push_char(&mut out, '/');
    push_str(&mut out, name);
    out
}

/// Join a base path and a relative path with a slash.
pub fn join_path(base: &str, rel: &str) -> (r: String)
    ensures
        r@ == base@ + seq!['/'] + rel@,
{
    let mut s = to_string(base);
    crate::text::push_char(&mut s, '/');
    push_str(&mut s, rel);
    s
}

proof fn lemma_skip_count_bound(s: Seq<ActionView>)
    ensures
        skip_count(s) <= s.len(),
    decreases s.len(),
{
    if s.len() > 0 {
        lemma_skip_count_bound(s.drop_last());
    }
}

/// The number of actions that do work: all but the skips.
pub fn pending_action_count(actions: &[SyncAction]) -> (r: usize)
    ensures
        r == actions@.len() - skip_count(action_views(actions@)),
{
    let mut n: usize = 0;
    let mut i: usize = 0;
    while i < actions.len()
        invariant
            i <= actions@.len(),
            n == i - skip_count(action_views(actions@.take(i as int))),
            skip_count(action_views(actions@.take(i as int))) <= i,
        decreases actions@.len() - i,
    {
        proof {
            assert(action_views(actions@.take(i + 1)).drop_last() =~= action_views(
                actions@.take(i as int),
            ));
            assert(action_views(actions@.take(i + 1)).last() == actions@[i as int]@);
        }
        if !actions[i].is_skip() {
            n = n + 1;
        }
        i = i + 1;
    }
    proof {
        assert(actions@.take(actions@.len() as int) =~= actions@);
    }
    n
}

/// Count an executed action in the statistics: copies, created directories
/// and deletions each have their counter; skips and conflicts count nothing.
pub fn record_executed(stats: &mut SyncStats, action: &SyncAction)
    requires
        old(stats).files_copied < usize::MAX,
        old(stats).dirs_created < usize::MAX,
        old(stats).files_deleted < usize::MAX,
    ensures
        final(stats).files_copied == old(stats).files_copied + if action@ is CopyToDestination
            || action@ is CopyToSource {
            1int
        } else {
            0int
        },
        final(stats).dirs_created == old(stats).dirs_created + if action@ is CreateDirInDestination
            || action@ is CreateDirInSource {
            1int
        } else {
            0int
        },
        final(stats).files_deleted == old(stats).files_deleted + if action@ is DeleteFromDestination
            || action@ is DeleteFromSource {
            1int
        } else {
            0int
        },
        final(stats).files_scanned == old(stats).files_scanned,
        final(stats).files_skipped == old(stats).files_skipped,
        final(stats).conflicts == old(stats).conflicts,
        final(stats).bytes_transferred == old(stats).bytes_transferred,
        final(stats).duration_ms == old(stats).duration_ms,
{
    match action {
        SyncAction::CopyToDestination { .. } | SyncAction::CopyToSource { .. } => {
            stats.files_copied = stats.files_copied + 1;
        },
        SyncAction::CreateDirInDestination { .. } | SyncAction::CreateDirInSource { .. } => {
            stats.dirs_created = stats.dirs_created + 1;
        },
        SyncAction::DeleteFromDestination { .. } | SyncAction::DeleteFromSource { .. } => {
            stats.files_deleted = stats.files_deleted + 1;
        },
        _ => {},
    }
}

/// A transfer of `path` compresses its data: compression is configured and
/// the file's extension does not name an already compressed format.
pub open spec fn should_compress_spec(c: CompressionType, path: Seq<char>) -> bool {
    c != CompressionType::NoCompression && !compressed_suffix(lowercase_of(path))
}

/// Whether a transfer of `path` compresses its data.
pub fn should_compress(c: CompressionType, path: &str) -> (r: bool)
    ensures
        r == should_compress_spec(c, path@),
        forall|i: int|
            0 <= i < already_compressed_extensions().len() && has_suffix(
                lowercase_of(path@),
                #[trigger] already_compressed_extensions()[i],
            ) ==> !r,
        c == CompressionType::NoCompression ==> !r,
        c != CompressionType::NoCompression && (forall|i: int|
            0 <= i < already_compressed_extensions().len() ==> !has_suffix(
                lowercase_of(path@),
                #[trigger] already_compressed_extensions()[i],
            )) ==> r,
{
    proof {
        lemma_listed_suffix_is_compressed(lowercase_of(path@));
    }
    c != CompressionType::NoCompression && !CompressionType::is_already_compressed(path)
}

/// The data handling of one transfer: the number of bytes sent (the
/// compressed size when the transfer compresses, else the data's size) and
/// the bytes written at the other end, which are the data itself (the
/// compressed bytes decompress to it). It always succeeds.
pub fn transfer_payload(
    data: &[u8],
    compression: CompressionType,
    level: CompressionLevel,
    path: &str,
) -> (r: Result<(u64, Vec<u8>), std::io::Error>)
    ensures
        r matches Ok((n, w)) && w@ == data@ && n == (if should_compress_spec(compression, path@) {
            compressed_form(data@, compression, level.level()).len()
        } else {
            data@.len()
        }),
{
    if should_compress(compression, path) {
        let _lv = level.value();
        let packed = match compress(data, compression, level) {
            Ok(p) => p,
            Err(e) => {
                return Err(e);
            },
        };
        let n = packed.len() as u64;
        let unpacked = decompress(packed.as_slice(), compression);
        match unpacked {
            Ok(w) => Ok((n, w)),
            Err(e) => Err(e),
        }
    } else {
        Ok((data.len() as u64, crate::text::bytes_to_vec(data)))
    }
}

/// Whether written data matches the original: their BLAKE3 digests agree.
pub fn hashes_match(original: &[u8], written: &[u8]) -> (r: bool)
    ensures
        r == (blake3_hex(original@) == blake3_hex(written@)),
{
    let a = hash_bytes(original);
    let b = hash_bytes(written);
    str_eq(a.as_str(), b.as_str())
}

/// Whether an action writes to the source side or deletes anything.
pub open spec fn writes_source_or_deletes(a: ActionView) -> bool {
    ||| a is CopyToSource
    ||| a is CreateDirInSource
    ||| a is DeleteFromSource
    ||| a is DeleteFromDestination
}

proof fn lemma_source_plan_writes_destination(
    g: Seq<Seq<char>>,
    m: SyncMode,
    src: Seq<FileState>,
    dst: Seq<FileState>,
)
    ensures
        forall|k: int|
            0 <= k < source_plan(g, m, src, dst).len() ==> !writes_source_or_deletes(
                #[trigger] source_plan(g, m, src, dst)[k],
            ),
    decreases src.len(),
{
    if src.len() > 0 {
        lemma_source_plan_writes_destination(g, m, src.drop_last(), dst);
        let prev = source_plan(g, m, src.drop_last(), dst);
        let plan = source_plan(g, m, src, dst);
        assert forall|k: int| 0 <= k < plan.len() implies !writes_source_or_deletes(
            #[trigger] plan[k],
        ) by {
            if k < prev.len() {
                assert(plan[k] == prev[k]);
            }
        }
    }
}

proof fn lemma_one_way_no_extras(g: Seq<Seq<char>>, dst: Seq<FileState>, src: Seq<FileState>)
    ensures
        extra_plan(g, SyncMode::OneWay, false, dst, src).len() == 0,
    decreases dst.len(),
{
    if dst.len() > 0 {
        lemma_one_way_no_extras(g, dst.drop_last(), src);
    }
}

/// A one-way sync that does not delete extras never writes to the source
/// and never deletes: its plan only copies to, creates in, or skips at the
/// destination, or reports conflicts.
pub proof fn lemma_one_way_leaves_source_alone(
    g: Seq<Seq<char>>,
    src: Seq<FileState>,
    dst: Seq<FileState>,
)
    ensures
        ({
            let plan = source_plan(g, SyncMode::OneWay, src, dst) + extra_plan(
                g,
                SyncMode::OneWay,
                false,
                dst,
                src,
            );
            forall|k: int| 0 <= k < plan.len() ==> !writes_source_or_deletes(#[trigger] plan[k])
        }),
{
    lemma_source_plan_writes_destination(g, SyncMode::OneWay, src, dst);
    lemma_one_way_no_extras(g, dst, src);
    let sp = source_plan(g, SyncMode::OneWay, src, dst);
    assert(sp + extra_plan(g, SyncMode::OneWay, false, dst, src) =~= sp);
}

/// In mirror mode every destination file that the source lacks and that is
/// not excluded is deleted from the destination.
pub proof fn lemma_mirror_deletes_extras(
    g: Seq<Seq<char>>,
    delete_extra: bool,
    dst: Seq<FileState>,
    src: Seq<FileState>,
    k: int,
)
    requires
        0 <= k < dst.len(),
        entry_for(src, dst[k].path@) is None,
        !excluded_by(g, dst[k].path@),
    ensures
        extra_plan(g, SyncMode::Mirror, delete_extra, dst, src).contains(
            ActionView::DeleteFromDestination(dst[k].path@),
        ),
    decreases dst.len(),
{
    let plan = extra_plan(g, SyncMode::Mirror, delete_extra, dst, src);
    if k == dst.len() - 1 {
        assert(dst.last() == dst[k]);
        assert(plan.last() == ActionView::DeleteFromDestination(dst[k].path@));
        assert(plan[plan.len() - 1] == plan.last());
    } else {
        assert(dst.drop_last()[k] == dst[k]);
        lemma_mirror_deletes_extras(g, delete_extra, dst.drop_last(), src, k);
        let prev = extra_plan(g, SyncMode::Mirror, delete_extra, dst.drop_last(), src);
        let w = choose|i: int|
            0 <= i < prev.len() && prev[i] == ActionView::DeleteFromDestination(dst[k].path@);
        assert(plan[w] == prev[w]);
    }
}

/// Every source file that the destination lacks and that is not excluded
/// is sent: a directory is created in the destination, a file copied to it.
pub proof fn lemma_missing_files_are_sent(
    g: Seq<Seq<char>>,
    mode: SyncMode,
    src: Seq<FileState>,
    dst: Seq<FileState>,
    k: int,
)
    requires
        0 <= k < src.len(),
        entry_for(dst, src[k].path@) is None,
        !excluded_by(g, src[k].path@),
    ensures
        source_plan(g, mode, src, dst).contains(
            if src[k].is_dir {
                ActionView::CreateDirInDestination(src[k].path@)
            } else {
                ActionView::CopyToDestination(src[k].path@)
            },
        ),
    decreases src.len(),
{
    let plan = source_plan(g, mode, src, dst);
    let a = if src[k].is_dir {
        ActionView::CreateDirInDestination(src[k].path@)
    } else {
        ActionView::CopyToDestination(src[k].path@)
    };
    if k == src.len() - 1 {
        assert(src.last() == src[k]);
        assert(plan.last() == a);
        assert(plan[plan.len() - 1] == plan.last());
    } else {
        assert(src.drop_last()[k] == src[k]);
        lemma_missing_files_are_sent(g, mode, src.drop_last(), dst, k);
        let prev = source_plan(g, mode, src.drop_last(), dst);
        let w = choose|i: int| 0 <= i < prev.len() && prev[i] == a;
        assert(plan[w] == prev[w]);
    }
}

/// In bidirectional mode, unless extras are deleted, every destination file
/// that the source lacks and that is not excluded is brought to the source:
/// a directory is created there, a file copied there.
pub proof fn lemma_bidirectional_brings_back(
    g: Seq<Seq<char>>,
    dst: Seq<FileState>,
    src: Seq<FileState>,
    k: int,
)
    requires
        0 <= k < dst.len(),
        entry_for(src, dst[k].path@) is None,
        !excluded_by(g, dst[k].path@),
    ensures
        extra_plan(g, SyncMode::Bidirectional, false, dst, src).contains(
            if dst[k].is_dir {
                ActionView::CreateDirInSource(dst[k].path@)
            } else {
                ActionView::CopyToSource(dst[k].path@)
            },
        ),
    decreases dst.len(),
{
    let plan = extra_plan(g, SyncMode::Bidirectional, false, dst, src);
    let a = if dst[k].is_dir {
        ActionView::CreateDirInSource(dst[k].path@)
    } else {
        ActionView::CopyToSource(dst[k].path@)
    };
    if k == dst.len() - 1 {
        assert(dst.last() == dst[k]);
        assert(plan.last() == a);
        assert(plan[plan.len() - 1] == plan.last());
    } else {
        assert(dst.drop_last()[k] == dst[k]);
        lemma_bidirectional_brings_back(g, dst.drop_last(), src, k);
        let prev = extra_plan(g, SyncMode::Bidirectional, false, dst.drop_last(), src);
        let w = choose|i: int| 0 <= i < prev.len() && prev[i] == a;
        assert(plan[w] == prev[w]);
    }
}

} // verus!
