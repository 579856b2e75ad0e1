//! Conflict detection and resolution strategies for sync operations.
use vstd::prelude::*;
use crate::paths::{file_extension, file_stem, parent_dir, path_extension, path_file_stem, path_parent};
use crate::text::{decimal, dec_str, lemma_dec_str_injective, push_str, to_string};

verus! {

/// A point in time: whole seconds since the Unix epoch and the nanoseconds
/// within that second. Points are ordered by seconds, then nanoseconds.
#[derive(Debug, Clone, Copy, PartialEq, Eq, Structural)]
pub struct Timestamp {
    pub secs: i64,
    pub nanos: u32,
}

/// The number of nanoseconds since the epoch that a timestamp stands for.
pub open spec fn ts_nanos(t: Timestamp) -> int {
    t.secs * 1_000_000_000 + t.nanos
}

/// `a` is strictly later than `b`.
pub open spec fn ts_later(a: Timestamp, b: Timestamp) -> bool {
    a.secs > b.secs || (a.secs == b.secs && a.nanos > b.nanos)
}

impl Timestamp {
    /// Whether `self` is strictly later than `other`.
    pub fn is_later_than(&self, other: &Timestamp) -> (r: bool)
        ensures
            r == ts_later(*self, *other),
    {
        self.secs > other.secs || (self.secs == other.secs && self.nanos > other.nanos)
    }
}

/// Strategy for resolving file conflicts during sync.
#[derive(Debug, Clone, Copy, PartialEq, Eq, Structural)]
pub enum ConflictStrategy {
    /// Use the file with the most recent modification time (default).
    LastWriteWins,
    /// Always use the file with newer mtime, regardless of source/dest.
    NewerWins,
    /// Always prefer the source file.
    SourceWins,
    /// Always prefer the destination file.
    DestWins,
    /// Keep both files, renaming the conflicting one with a suffix.
    KeepBoth,
    /// Skip conflicting files entirely.
    Skip,
    /// Queue conflicts for manual user resolution.
    Manual,
}

impl Default for ConflictStrategy {
    fn default() -> (r: Self)
        ensures
            r == ConflictStrategy::LastWriteWins,
    {
        ConflictStrategy::LastWriteWins
    }
}

impl ConflictStrategy {
    /// Get a human-readable description of the strategy.
    pub fn description(&self) -> (r: &'static str)
        ensures
            r@ == (match self {
                ConflictStrategy::LastWriteWins => "Use most recently modified file"@,
                ConflictStrategy::NewerWins => "Use newer file"@,
                ConflictStrategy::SourceWins => "Always use source"@,
                ConflictStrategy::DestWins => "Always use destination"@,
                ConflictStrategy::KeepBoth => "Keep both (rename conflict)"@,
                ConflictStrategy::Skip => "Skip conflicting files"@,
                ConflictStrategy::Manual => "Ask user for each conflict"@,
            }),
    {
        match self {
            ConflictStrategy::LastWriteWins => "Use most recently modified file",
            ConflictStrategy::NewerWins => "Use newer file",
            ConflictStrategy::SourceWins => "Always use source",
            ConflictStrategy::DestWins => "Always use destination",
            ConflictStrategy::KeepBoth => "Keep both (rename conflict)",
            ConflictStrategy::Skip => "Skip conflicting files",
            ConflictStrategy::Manual => "Ask user for each conflict",
        }
    }
}

/// Information about a file for conflict comparison.
#[derive(Debug, Clone)]
pub struct FileInfo {
    pub path: String,
    pub size: u64,
    pub modified: Option<Timestamp>,
    pub hash: Option<String>,
}

proof fn lemma_middle_equal(h: Seq<char>, x: Seq<char>, y: Seq<char>, t: Seq<char>)
    requires
        h + x + t == h + y + t,
    ensures
        x == y,
{
    let l = h + x + t;
    let m = h + y + t;
    assert(l.len() == m.len());
    assert(x.len() == y.len());
    assert(l.subrange(h.len() as int, h.len() + x.len() as int) =~= x);
    assert(m.subrange(h.len() as int, h.len() + y.len() as int) =~= y);
}

/// Kept-both copies of one file made with different numbers get different
/// names, so one never overwrites another.
pub proof fn lemma_conflict_paths_distinct(path: Seq<char>, n1: nat, n2: nat)
    requires
        n1 != n2,
    ensures
        conflict_path_of(path, n1) != conflict_path_of(path, n2),
{
    let stem = match path_file_stem(path) {
        Some(s) => s,
        None => Seq::empty(),
    };
    let ext = match path_extension(path) {
        Some(e) => seq!['.'] + e,
        None => Seq::empty(),
    };
    let parent = match path_parent(path) {
        Some(p) => p,
        None => Seq::empty(),
    };
    let head = if parent.len() == 0 {
        stem + ".conflict-"@
    } else {
        parent + seq!['/'] + stem + ".conflict-"@
    };
    if conflict_path_of(path, n1) == conflict_path_of(path, n2) {
        assert(conflict_path_of(path, n1) =~= head + dec_str(n1) + ext);
        assert(conflict_path_of(path, n2) =~= head + dec_str(n2) + ext);
        lemma_middle_equal(head, dec_str(n1), dec_str(n2), ext);
        lemma_dec_str_injective(n1, n2);
    }
}

impl FileInfo {
    pub fn new(path: &str, size: u64, modified: Option<Timestamp>) -> (r: Self)
        ensures
            r.path@ == path@,
            r.size == size,
            r.modified == modified,
            r.hash is None,
    {
        FileInfo { path: to_string(path), size, modified, hash: None }
    }

    pub fn with_hash(self, hash: String) -> (r: Self)
        ensures
            r.path == self.path,
            r.size == self.size,
            r.modified == self.modified,
            r.hash == Some(hash),
    {
        let mut s = self;
        s.hash = Some(hash);
        s
    }
}

/// The result of resolving a conflict.
#[derive(Debug, Clone, Copy, PartialEq, Eq, Structural)]
pub enum ConflictResolution {
    /// Use the source file.
    UseSource,
    /// Use the destination file.
    UseDest,
    /// Keep both files.
    KeepBoth,
    /// Skip this file.
    Skip,
}

/// Represents a detected conflict between source and destination.
#[derive(Debug, Clone)]
pub struct Conflict {
    /// Relative path of the conflicting file.
    pub path: String,
    /// Information about the source file.
    pub source: FileInfo,
    /// Information about the destination file.
    pub dest: FileInfo,
    /// The resolution strategy to apply.
    pub strategy: ConflictStrategy,
    /// Whether this conflict has been resolved.
    pub resolved: bool,
    /// Resolution result (if resolved).
    pub resolution: Option<ConflictResolution>,
}

/// The resolution that `strategy` gives for a source and a destination
/// modified at `src` and `dst` (where known).
pub open spec fn resolution_for(
    strategy: ConflictStrategy,
    src: Option<Timestamp>,
    dst: Option<Timestamp>,
) -> ConflictResolution {
    match strategy {
        ConflictStrategy::LastWriteWins => match (src, dst) {
            (Some(s), Some(d)) => if ts_later(d, s) {
                ConflictResolution::UseDest
            } else {
                ConflictResolution::UseSource
            },
            (Some(_), None) => ConflictResolution::UseSource,
            (None, Some(_)) => ConflictResolution::UseDest,
            (None, None) => ConflictResolution::UseSource,
        },
        ConflictStrategy::NewerWins => match (src, dst) {
            (Some(s), Some(d)) => if ts_later(s, d) {
                ConflictResolution::UseSource
            } else {
                ConflictResolution::UseDest
            },
            (Some(_), None) => ConflictResolution::UseSource,
            (None, Some(_)) => ConflictResolution::UseDest,
            (None, None) => ConflictResolution::UseSource,
        },
        ConflictStrategy::SourceWins => ConflictResolution::UseSource,
        ConflictStrategy::DestWins => ConflictResolution::UseDest,
        ConflictStrategy::KeepBoth => ConflictResolution::KeepBoth,
        ConflictStrategy::Skip => ConflictResolution::Skip,
        ConflictStrategy::Manual => ConflictResolution::Skip,
    }
}

/// The resolution of a conflict under its own strategy.
pub open spec fn conflict_resolution(c: Conflict) -> ConflictResolution {
    resolution_for(c.strategy, c.source.modified, c.dest.modified)
}

/// Under the newer-wins strategy with both modification times known, the
/// source is used exactly when it was modified strictly later than the
/// destination (by seconds, then nanoseconds), and the destination
/// otherwise: the strictly older side never wins. Under last-write-wins the
/// destination is used exactly when it is strictly later. With valid
/// nanosecond parts (below a second) that is the order of the times as
/// nanoseconds since the epoch.
pub proof fn lemma_newer_wins_uses_the_newer_side(
    strategy: ConflictStrategy,
    s: Timestamp,
    d: Timestamp,
)
    ensures
        strategy == ConflictStrategy::NewerWins ==> {
            let r = resolution_for(strategy, Some(s), Some(d));
            &&& r == ConflictResolution::UseSource || r == ConflictResolution::UseDest
            &&& r == ConflictResolution::UseSource <==> (s.secs > d.secs || (s.secs == d.secs
                && s.nanos > d.nanos))
            &&& s.nanos < 1_000_000_000 && d.nanos < 1_000_000_000 ==> (r
                == ConflictResolution::UseSource <==> s.secs * 1_000_000_000 + s.nanos > d.secs
                * 1_000_000_000 + d.nanos)
        },
        strategy == ConflictStrategy::LastWriteWins ==> {
            let r = resolution_for(strategy, Some(s), Some(d));
            &&& r == ConflictResolution::UseSource || r == ConflictResolution::UseDest
            &&& r == ConflictResolution::UseDest <==> (d.secs > s.secs || (d.secs == s.secs
                && d.nanos > s.nanos))
        },
{
    if s.nanos < 1_000_000_000 && d.nanos < 1_000_000_000 {
        if s.secs > d.secs {
            assert(s.secs * 1_000_000_000 >= d.secs * 1_000_000_000 + 1_000_000_000) by (nonlinear_arith)
                requires
                    s.secs > d.secs,
            ;
        } else if s.secs < d.secs {
            assert(d.secs * 1_000_000_000 >= s.secs * 1_000_000_000 + 1_000_000_000) by (nonlinear_arith)
                requires
                    s.secs < d.secs,
            ;
        }
    }
}

/// The renamed path of a conflicting file: `<parent>/<stem>.conflict-<n><.ext>`,
/// without the parent part when the path has no (or an empty) parent.
pub open spec fn conflict_path_of(path: Seq<char>, suffix: nat) -> Seq<char> {
    let stem = match path_file_stem(path) {
        Some(s) => s,
        None => Seq::empty(),
    };
    let ext = match path_extension(path) {
        Some(e) => seq!['.'] + e,
        None => Seq::empty(),
    };
    let parent = match path_parent(path) {
        Some(p) => p,
        None => Seq::empty(),
    };
    let name = stem + ".conflict-"@ + dec_str(suffix) + ext;
    if parent.len() == 0 {
        name
    } else {
        parent + seq!['/'] + name
    }
}

impl FileInfo {
    /// A copy of this record.
    pub fn clone_info(&self) -> (r: Self)
        ensures
            r == *self,
    {
        FileInfo {
            path: self.path.clone(),
            size: self.size,
            modified: self.modified,
            hash: match &self.hash {
                Some(h) => Some(h.clone()),
                None => None,
            },
        }
    }
}

impl Conflict {
    /// A copy of this conflict.
    pub fn clone_conflict(&self) -> (r: Self)
        ensures
            r == *self,
    {
        Conflict {
            path: self.path.clone(),
            source: self.source.clone_info(),
            dest: self.dest.clone_info(),
            strategy: self.strategy,
            resolved: self.resolved,
            resolution: self.resolution,
        }
    }

    /// Create a new conflict with the default strategy.
    pub fn new(path: &str, source: FileInfo, dest: FileInfo) -> (r: Self)
        ensures
            r.path@ == path@,
            r.source == source,
            r.dest == dest,
            r.strategy == ConflictStrategy::LastWriteWins,
            !r.resolved,
            r.resolution is None,
    {
        Conflict {
            path: to_string(path),
            source,
            dest,
            strategy: ConflictStrategy::LastWriteWins,
            resolved: false,
            resolution: None,
        }
    }

    /// Set the resolution strategy.
    pub fn with_strategy(self, strategy: ConflictStrategy) -> (r: Self)
        ensures
            r.path == self.path,
            r.source == self.source,
            r.dest == self.dest,
            r.strategy == strategy,
            r.resolved == self.resolved,
            r.resolution == self.resolution,
    {
        let mut c = self;
        c.strategy = strategy;
        c
    }

    /// Resolve this conflict using the configured strategy.
    pub fn resolve(&mut self) -> (r: ConflictResolution)
        ensures
            r == conflict_resolution(*old(self)),
            old(self).strategy == ConflictStrategy::NewerWins && old(self).source.modified is Some
                && old(self).dest.modified is Some ==> (r == ConflictResolution::UseSource
                || r == ConflictResolution::UseDest) && (r == ConflictResolution::UseSource <==> (
            old(self).source.modified->0.secs > old(self).dest.modified->0.secs || (
            old(self).source.modified->0.secs == old(self).dest.modified->0.secs
                && old(self).source.modified->0.nanos > old(self).dest.modified->0.nanos))),
            old(self).strategy == ConflictStrategy::SourceWins ==> r == ConflictResolution::UseSource,
            old(self).strategy == ConflictStrategy::DestWins ==> r == ConflictResolution::UseDest,
            old(self).strategy == ConflictStrategy::KeepBoth ==> r == ConflictResolution::KeepBoth,
            old(self).strategy == ConflictStrategy::Skip || old(self).strategy
                == ConflictStrategy::Manual ==> r == ConflictResolution::Skip,
            (old(self).strategy == ConflictStrategy::NewerWins || old(self).strategy
                == ConflictStrategy::LastWriteWins) && old(self).source.modified is Some
                && old(self).dest.modified is None ==> r == ConflictResolution::UseSource,
            (old(self).strategy == ConflictStrategy::NewerWins || old(self).strategy
                == ConflictStrategy::LastWriteWins) && old(self).source.modified is None
                && old(self).dest.modified is Some ==> r == ConflictResolution::UseDest,
            old(self).strategy == ConflictStrategy::LastWriteWins && old(self).source.modified is Some
                && old(self).dest.modified is Some ==> (r == ConflictResolution::UseSource
                || r == ConflictResolution::UseDest) && (r == ConflictResolution::UseDest <==> (
            old(self).dest.modified->0.secs > old(self).source.modified->0.secs || (
            old(self).dest.modified->0.secs == old(self).source.modified->0.secs
                && old(self).dest.modified->0.nanos > old(self).source.modified->0.nanos))),
            final(self).resolved,
            final(self).resolution == Some(r),
            final(self).path == old(self).path,
            final(self).source == old(self).source,
            final(self).dest == old(self).dest,
            final(self).strategy == old(self).strategy,
    {
        let resolution = match self.strategy {
            ConflictStrategy::LastWriteWins => match (&self.source.modified, &self.dest.modified) {
                (Some(src_time), Some(dst_time)) => {
                    if dst_time.is_later_than(src_time) {
                        ConflictResolution::UseDest
                    } else {
                        ConflictResolution::UseSource
                    }
                },
                (Some(_), None) => ConflictResolution::UseSource,
                (None, Some(_)) => ConflictResolution::UseDest,
                (None, None) => ConflictResolution::UseSource,
            },
            ConflictStrategy::NewerWins => match (&self.source.modified, &self.dest.modified) {
                (Some(src_time), Some(dst_time)) => {
                    if src_time.is_later_than(dst_time) {
                        ConflictResolution::UseSource
                    } else {
                        ConflictResolution::UseDest
                    }
                },
                (Some(_), None) => ConflictResolution::UseSource,
                (None, Some(_)) => ConflictResolution::UseDest,
                (None, None) => ConflictResolution::UseSource,
            },
            ConflictStrategy::SourceWins => ConflictResolution::UseSource,
            ConflictStrategy::DestWins => ConflictResolution::UseDest,
            ConflictStrategy::KeepBoth => ConflictResolution::KeepBoth,
            ConflictStrategy::Skip => ConflictResolution::Skip,
            ConflictStrategy::Manual => ConflictResolution::Skip,
        };
        self.resolved = true;
        self.resolution = Some(resolution);
        resolution
    }

    /// Generate a conflict-renamed path (e.g., file.txt -> file.conflict-1.txt).
    pub fn conflict_path(&self, suffix: u32) -> (r: String)
        ensures
            r@ == conflict_path_of(self.path@, suffix as nat),
    {
        let p = self.path.as_str();
        let mut name = match file_stem(p) {
            Some(s) => s,
            None => String::new(),
        };
        push_str(&mut name, ".conflict-");
        let n = decimal(suffix as u64);
        push_str(&mut name, n.as_str());
        match file_extension(p) {
            Some(e) => {
                push_str(&mut name, ".");
                push_str(&mut name, e.as_str());
            },
            None => {},
        }
        let parent = match parent_dir(p) {
            Some(d) => d,
            None => String::new(),
        };
        proof {
            reveal_strlit(".");
            assert(seq!['.'] == "."@);
        }
        if parent.as_str().is_empty() {
            assert(name@ =~= conflict_path_of(self.path@, suffix as nat));
            name
        } else {
            let mut out = parent;
            push_str(&mut out, "/");
            push_str(&mut out, name.as_str());
            proof {
                reveal_strlit("/");
            }
            assert(out@ =~= conflict_path_of(self.path@, suffix as nat));
            out
        }
    }
}

/// A conflict after `resolve`: marked resolved with its strategy's resolution.
pub open spec fn resolved_form(c: Conflict) -> Conflict {
    Conflict { resolved: true, resolution: Some(conflict_resolution(c)), ..c }
}

/// What `resolve_all` files away for a pending conflict: manual conflicts
/// unchanged, the others resolved.
pub open spec fn settled(c: Conflict) -> Conflict {
    if c.strategy == ConflictStrategy::Manual {
        c
    } else {
        resolved_form(c)
    }
}

/// Number of conflicts in `cs` whose recorded resolution is `r`.
pub open spec fn count_resolution(cs: Seq<Conflict>, r: Option<ConflictResolution>) -> nat
    decreases cs.len(),
{
    if cs.len() == 0 {
        0
    } else {
        count_resolution(cs.drop_last(), r) + if cs.last().resolution == r {
            1nat
        } else {
            0nat
        }
    }
}

/// The conflicts of `cs` whose strategy is manual, in order.
pub open spec fn manual_only(cs: Seq<Conflict>) -> Seq<Conflict> {
    cs.filter(|c: Conflict| c.strategy == ConflictStrategy::Manual)
}

/// Index of the first conflict in `cs` whose path is `p`, if any.
pub open spec fn first_with_path(cs: Seq<Conflict>, p: Seq<char>) -> Option<int>
    decreases cs.len(),
{
    if cs.len() == 0 {
        None
    } else {
        match first_with_path(cs.drop_last(), p) {
            Some(i) => Some(i),
            None => if cs.last().path@ == p {
                Some(cs.len() - 1)
            } else {
                None
            },
        }
    }
}

proof fn lemma_first_with_path(cs: Seq<Conflict>, p: Seq<char>, n: int)
    requires
        0 <= n <= cs.len(),
        forall|j: int| 0 <= j < n ==> cs[j].path@ != p,
    ensures
        first_with_path(cs.take(n), p) is None,
    decreases n,
{
    if n > 0 {
        assert(cs.take(n).drop_last() =~= cs.take(n - 1));
        lemma_first_with_path(cs, p, n - 1);
    }
}

proof fn lemma_first_with_path_extends(cs: Seq<Conflict>, p: Seq<char>, n: int)
    requires
        0 <= n <= cs.len(),
        first_with_path(cs.take(n), p) is Some,
    ensures
        first_with_path(cs, p) == first_with_path(cs.take(n), p),
    decreases cs.len() - n,
{
    if n < cs.len() {
        assert(cs.take(n + 1).drop_last() =~= cs.take(n));
        lemma_first_with_path_extends(cs, p, n + 1);
    } else {
        assert(cs.take(n) =~= cs);
    }
}

/// Conflict resolver that tracks and resolves multiple conflicts.
#[derive(Debug)]
pub struct ConflictResolver {
    /// Default strategy for new conflicts.
    pub default_strategy: ConflictStrategy,
    /// Pending conflicts awaiting resolution.
    pub pending: Vec<Conflict>,
    /// Resolved conflicts.
    pub resolved: Vec<Conflict>,
}

impl Default for ConflictResolver {
    fn default() -> (r: Self)
        ensures
            r.default_strategy == ConflictStrategy::LastWriteWins,
            r.pending@.len() == 0,
            r.resolved@.len() == 0,
    {
        ConflictResolver::new(ConflictStrategy::LastWriteWins)
    }
}

/// Statistics about conflict resolution.
#[derive(Debug)]
pub struct ConflictStats {
    pub used_source: usize,
    pub used_dest: usize,
    pub kept_both: usize,
    pub skipped: usize,
    pub pending: usize,
}

impl Default for ConflictStats {
    fn default() -> (r: Self)
        ensures
            r.used_source == 0 && r.used_dest == 0 && r.kept_both == 0 && r.skipped == 0
                && r.pending == 0,
    {
        ConflictStats { used_source: 0, used_dest: 0, kept_both: 0, skipped: 0, pending: 0 }
    }
}

impl ConflictStats {
    /// The number of conflicts counted in all categories.
    pub fn total(&self) -> (r: usize)
        requires
            self.used_source + self.used_dest + self.kept_both + self.skipped + self.pending
                <= usize::MAX,
        ensures
            r == self.used_source + self.used_dest + self.kept_both + self.skipped + self.pending,
    {
        self.used_source + self.used_dest + self.kept_both + self.skipped + self.pending
    }
}

impl ConflictResolver {
    /// Create a new resolver with the default strategy.
    pub fn new(strategy: ConflictStrategy) -> (r: Self)
        ensures
            r.default_strategy == strategy,
            r.pending@.len() == 0,
            r.resolved@.len() == 0,
    {
        ConflictResolver { default_strategy: strategy, pending: Vec::new(), resolved: Vec::new() }
    }

    /// Add a new conflict under the resolver's default strategy.
    pub fn add_conflict(&mut self, path: &str, source: FileInfo, dest: FileInfo)
        ensures
            final(self).default_strategy == old(self).default_strategy,
            final(self).resolved@ == old(self).resolved@,
            final(self).pending@.len() == old(self).pending@.len() + 1,
            final(self).pending@.drop_last() == old(self).pending@,
            ({
                let c = final(self).pending@.last();
                &&& c.path@ == path@
                &&& c.source == source
                &&& c.dest == dest
                &&& c.strategy == old(self).default_strategy
                &&& !c.resolved
                &&& c.resolution is None
            }),
    {
        let conflict = Conflict::new(path, source, dest).with_strategy(self.default_strategy);
        self.pending.push(conflict);
        assert(self.pending@.drop_last() =~= old(self).pending@);
    }

    /// Resolve all pending conflicts using their configured strategies; the
    /// manual ones are moved to the resolved list as they are.
    pub fn resolve_all(&mut self)
        ensures
            final(self).default_strategy == old(self).default_strategy,
            final(self).pending@.len() == 0,
            final(self).resolved@ == old(self).resolved@ + old(self).pending@.map_values(
                |c: Conflict| settled(c),
            ),
            final(self).resolved@.len() == old(self).resolved@.len() + old(self).pending@.len(),
            forall|i: int|
                0 <= i < old(self).pending@.len() ==> {
                    let c = #[trigger] old(self).pending@[i];
                    let d = final(self).resolved@[old(self).resolved@.len() + i];
                    &&& d.path == c.path && d.source == c.source && d.dest == c.dest
                    &&& d.strategy == c.strategy
                    &&& c.strategy == ConflictStrategy::Manual ==> d == c
                    &&& c.strategy != ConflictStrategy::Manual ==> d.resolved && d.resolution
                        == Some(resolution_for(c.strategy, c.source.modified, c.dest.modified))
                },
    {
        let mut pending: Vec<Conflict> = Vec::new();
        std::mem::swap(&mut pending, &mut self.pending);
        let ghost old_resolved = self.resolved@;
        let mut i: usize = 0;
        while i < pending.len()
            invariant
                i <= pending@.len(),
                self.pending@.len() == 0,
                self.default_strategy == old(self).default_strategy,
                pending@ == old(self).pending@,
                old_resolved == old(self).resolved@,
                self.resolved@ == old_resolved + pending@.take(i as int).map_values(
                    |c: Conflict| settled(c),
                ),
            decreases pending@.len() - i,
        {
            let mut conflict = pending[i].clone_conflict();
            if conflict.strategy != ConflictStrategy::Manual {
                conflict.resolve();
            }
            self.resolved.push(conflict);
            assert(pending@.take(i + 1).map_values(|c: Conflict| settled(c)) =~= pending@.take(
                i as int,
            ).map_values(|c: Conflict| settled(c)).push(settled(pending@[i as int])));
            i = i + 1;
        }
        assert(pending@.take(i as int) =~= pending@);
        assert forall|k: int| 0 <= k < old(self).pending@.len() implies {
            let c = #[trigger] old(self).pending@[k];
            let d = self.resolved@[old(self).resolved@.len() + k];
            &&& d.path == c.path && d.source == c.source && d.dest == c.dest
            &&& d.strategy == c.strategy
            &&& c.strategy == ConflictStrategy::Manual ==> d == c
            &&& c.strategy != ConflictStrategy::Manual ==> d.resolved && d.resolution == Some(
                resolution_for(c.strategy, c.source.modified, c.dest.modified),
            )
        } by {
            assert(self.resolved@[old(self).resolved@.len() + k] == settled(old(self).pending@[k]));
        }
    }

    /// Get pending conflicts that require manual resolution.
    pub fn manual_conflicts(&self) -> (r: Vec<&Conflict>)
        ensures
            r@.map_values(|c: &Conflict| *c) == manual_only(self.pending@),
    {
        let mut out: Vec<&Conflict> = Vec::new();
        let mut i: usize = 0;
        while i < self.pending.len()
            invariant
                i <= self.pending@.len(),
                out@.map_values(|c: &Conflict| *c) == manual_only(self.pending@.take(i as int)),
            decreases self.pending@.len() - i,
        {
            let c = &self.pending[i];
            proof {
                let s = self.pending@.take(i + 1);
                assert(s.drop_last() =~= self.pending@.take(i as int));
                assert(s.last() == *c);
                s.filter_lemma(|c: Conflict| c.strategy == ConflictStrategy::Manual);
                assert(manual_only(s) == (if c.strategy == ConflictStrategy::Manual {
                    manual_only(s.drop_last()).push(*c)
                } else {
                    manual_only(s.drop_last())
                })) by {
                    reveal(Seq::filter);
                }
            }
            if c.strategy == ConflictStrategy::Manual {
                out.push(c);
                assert(out@.map_values(|c: &Conflict| *c) =~= manual_only(self.pending@.take(
                    i as int,
                )).push(*c));
            }
            i = i + 1;
        }
        assert(self.pending@.take(i as int) =~= self.pending@);
        out
    }

    /// Resolve a specific conflict manually: the first pending conflict with
    /// the given path is recorded with `resolution` and moved to the resolved
    /// list; nothing changes when no pending conflict has that path.
    pub fn resolve_manual(&mut self, path: &str, resolution: ConflictResolution)
        ensures
            final(self).default_strategy == old(self).default_strategy,
            match first_with_path(old(self).pending@, path@) {
                None => final(self).pending@ == old(self).pending@ && final(self).resolved@ == old(
                    self,
                ).resolved@,
                Some(idx) => {
                    &&& final(self).pending@ == old(self).pending@.remove(idx)
                    &&& final(self).resolved@ == old(self).resolved@.push(
                        Conflict {
                            resolved: true,
                            resolution: Some(resolution),
                            ..old(self).pending@[idx]
                        },
                    )
                },
            },
    {
        let mut i: usize = 0;
        while i < self.pending.len()
            invariant
                i <= self.pending@.len(),
                self.pending@ == old(self).pending@,
                self.resolved@ == old(self).resolved@,
                self.default_strategy == old(self).default_strategy,
                forall|j: int| 0 <= j < i ==> self.pending@[j].path@ != path@,
            decreases self.pending@.len() - i,
        {
            if crate::text::str_eq(self.pending[i].path.as_str(), path) {
                proof {
                    lemma_first_with_path(self.pending@, path@, i as int);
                    let s = self.pending@.take(i + 1);
                    assert(s.drop_last() =~= self.pending@.take(i as int));
                    lemma_first_with_path_extends(self.pending@, path@, i + 1);
                }
                let mut conflict = self.pending.remove(i);
                conflict.resolved = true;
                conflict.resolution = Some(resolution);
                self.resolved.push(conflict);
                return;
            }
            i = i + 1;
        }
        proof {
            lemma_first_with_path(self.pending@, path@, i as int);
            assert(self.pending@.take(i as int) =~= self.pending@);
        }
    }

    /// Get statistics about conflicts: the resolved conflicts counted by
    /// resolution (unresolved ones as pending) plus all pending conflicts.
    pub fn stats(&self) -> (r: ConflictStats)
        requires
            self.resolved@.len() + self.pending@.len() <= usize::MAX,
        ensures
            r.used_source == count_resolution(self.resolved@, Some(ConflictResolution::UseSource)),
            r.used_dest == count_resolution(self.resolved@, Some(ConflictResolution::UseDest)),
            r.kept_both == count_resolution(self.resolved@, Some(ConflictResolution::KeepBoth)),
            r.skipped == count_resolution(self.resolved@, Some(ConflictResolution::Skip)),
            r.pending == count_resolution(self.resolved@, None) + self.pending@.len(),
            r.used_source + r.used_dest + r.kept_both + r.skipped + r.pending == self.resolved@.len()
                + self.pending@.len(),
    {
        let mut stats = ConflictStats::default();
        let mut i: usize = 0;
        while i < self.resolved.len()
            invariant
                i <= self.resolved@.len(),
                self.resolved@.len() + self.pending@.len() <= usize::MAX,
                stats.used_source == count_resolution(
                    self.resolved@.take(i as int),
                    Some(ConflictResolution::UseSource),
                ),
                stats.used_dest == count_resolution(
                    self.resolved@.take(i as int),
                    Some(ConflictResolution::UseDest),
                ),
                stats.kept_both == count_resolution(
                    self.resolved@.take(i as int),
                    Some(ConflictResolution::KeepBoth),
                ),
                stats.skipped == count_resolution(
                    self.resolved@.take(i as int),
                    Some(ConflictResolution::Skip),
                ),
                stats.pending == count_resolution(self.resolved@.take(i as int), None),
                stats.used_source + stats.used_dest + stats.kept_both + stats.skipped
                    + stats.pending == i,
            decreases self.resolved@.len() - i,
        {
            let ghost s = self.resolved@.take(i + 1);
            assert(s.drop_last() =~= self.resolved@.take(i as int));
            match self.resolved[i].resolution {
                Some(ConflictResolution::UseSource) => stats.used_source += 1,
                Some(ConflictResolution::UseDest) => stats.used_dest += 1,
                Some(ConflictResolution::KeepBoth) => stats.kept_both += 1,
                Some(ConflictResolution::Skip) => stats.skipped += 1,
                None => stats.pending += 1,
            }
            i = i + 1;
        }
        assert(self.resolved@.take(i as int) =~= self.resolved@);
        stats.pending += self.pending.len();
        stats
    }
}

} // verus!
