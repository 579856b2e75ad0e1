//! Exclude pattern matching for sync operations (.gitignore-style globs).
use vstd::prelude::*;
use crate::paths::{components, file_name, path_components, path_file_name, PathPart, PathPartView};
use crate::text::{lines, lines_of, str_eq, to_string, trim, trim_of};

verus! {

#[verifier::external_type_specification]
#[verifier::external_body]
pub struct ExGlob(globset::Glob);

#[verifier::external_type_specification]
#[verifier::external_body]
pub struct ExGlobSet(globset::GlobSet);

#[verifier::external_type_specification]
#[verifier::external_body]
pub struct ExGlobSetBuilder(globset::GlobSetBuilder);

#[verifier::external_type_specification]
#[verifier::external_body]
pub struct ExGlobError(globset::Error);

/// Whether `globset::Glob::new` accepts the pattern `p`.
pub uninterp spec fn glob_compiles(p: Seq<char>) -> bool;

/// The pattern text a `Glob` was compiled from (`Glob::glob`).
pub uninterp spec fn glob_text(g: globset::Glob) -> Seq<char>;

/// The patterns added to a `GlobSetBuilder`, in order.
pub uninterp spec fn builder_globs(b: globset::GlobSetBuilder) -> Seq<Seq<char>>;

/// The patterns a `GlobSet` was built from, in order.
pub uninterp spec fn set_globs(s: globset::GlobSet) -> Seq<Seq<char>>;

/// Whether `GlobSetBuilder::build` succeeds on a builder holding the globs
/// compiled from `globs`, in order: the build compiles them into matchers
/// (it can fail, for one, on a size limit of the compiled matchers) and
/// depends on the patterns alone.
pub uninterp spec fn globs_build(globs: Seq<Seq<char>>) -> bool;

/// Whether the single glob `pattern` matches the path `path`.
pub uninterp spec fn glob_matches(pattern: Seq<char>, path: Seq<char>) -> bool;

/// `Glob::new`: compiles a pattern; the result depends on the pattern text
/// alone and the glob remembers that text.
#[verifier::external_body]
fn glob_new(p: &str) -> (r: Result<globset::Glob, globset::Error>)
    ensures
        r is Ok <==> glob_compiles(p@),
        r matches Ok(g) ==> glob_text(g) == p@,
{
    globset::Glob::new(p)
}

/// `GlobSetBuilder::new`: a builder holding no pattern.
#[verifier::external_body]
fn builder_new() -> (r: globset::GlobSetBuilder)
    ensures
        builder_globs(r) == Seq::<Seq<char>>::empty(),
{
    globset::GlobSetBuilder::new()
}

/// `GlobSetBuilder::add`: appends a glob to the builder's pattern list.
#[verifier::external_body]
fn builder_add(b: &mut globset::GlobSetBuilder, g: globset::Glob)
    ensures
        builder_globs(*final(b)) == builder_globs(*old(b)).push(glob_text(g)),
{
    b.add(g);
}

/// `GlobSetBuilder::build`: on success, a set of the builder's patterns;
/// whether it succeeds depends on those patterns alone.
#[verifier::external_body]
fn builder_build(b: &globset::GlobSetBuilder) -> (r: Result<globset::GlobSet, globset::Error>)
    ensures
        r is Ok <==> globs_build(builder_globs(*b)),
        r matches Ok(s) ==> set_globs(s) == builder_globs(*b),
{
    b.build()
}

/// `GlobSet::empty`: a set of no pattern.
#[verifier::external_body]
fn glob_set_empty() -> (r: globset::GlobSet)
    ensures
        set_globs(r) == Seq::<Seq<char>>::empty(),
{
    globset::GlobSet::empty()
}

/// `GlobSet::is_match`: documented as true exactly when some glob of the
/// set matches the path.
#[verifier::external_body]
fn glob_set_is_match(s: &globset::GlobSet, path: &str) -> (r: bool)
    ensures
        r == (exists|i: int|
            0 <= i < set_globs(*s).len() && #[trigger] glob_matches(set_globs(*s)[i], path@)),
{
    s.is_match(path)
}

/// Some pattern of `globs` matches `path`.
pub open spec fn any_match(globs: Seq<Seq<char>>, path: Seq<char>) -> bool {
    exists|i: int| 0 <= i < globs.len() && #[trigger] glob_matches(globs[i], path)
}

/// Some normal component of `parts` is matched by a pattern of `globs`.
pub open spec fn component_match(globs: Seq<Seq<char>>, parts: Seq<PathPartView>) -> bool {
    exists|i: int|
        0 <= i < parts.len() && (#[trigger] parts[i] matches PathPartView::Normal(n) && any_match(
            globs,
            n,
        ))
}

/// `path` is excluded by the patterns `globs`: the whole path, its file name
/// or one of its normal components is matched.
pub open spec fn excluded_by(globs: Seq<Seq<char>>, path: Seq<char>) -> bool {
    ||| any_match(globs, path)
    ||| (path_file_name(path) matches Some(f) && any_match(globs, f))
    ||| component_match(globs, path_components(path))
}

/// A path is excluded when any pattern matches the whole path, its file
/// name, or any one of its normal components (a directory or the file on
/// the way), and only then: a pattern such as `node_modules` excludes every
/// path that goes through a directory of that name.
pub proof fn lemma_excluded_by_any_component(globs: Seq<Seq<char>>, path: Seq<char>)
    ensures
        forall|i: int, g: int, n: Seq<char>|
            #![trigger path_components(path)[i], glob_matches(globs[g], n)]
            0 <= i < path_components(path).len() && 0 <= g < globs.len()
                && path_components(path)[i] == PathPartView::Normal(n) && glob_matches(globs[g], n)
                ==> excluded_by(globs, path),
        forall|g: int| 0 <= g < globs.len() && #[trigger] glob_matches(globs[g], path) ==> excluded_by(
            globs,
            path,
        ),
        forall|g: int, f: Seq<char>|
            0 <= g < globs.len() && path_file_name(path) == Some(f) && #[trigger] glob_matches(
                globs[g],
                f,
            ) ==> excluded_by(globs, path),
        excluded_by(globs, path) ==> (exists|g: int|
            0 <= g < globs.len() && #[trigger] glob_matches(globs[g], path)) || (exists|g: int, f: Seq<char>|
            0 <= g < globs.len() && path_file_name(path) == Some(f) && #[trigger] glob_matches(
                globs[g],
                f,
            )) || (exists|i: int, g: int, n: Seq<char>|
            #![trigger path_components(path)[i], glob_matches(globs[g], n)]
            0 <= i < path_components(path).len() && 0 <= g < globs.len()
                && path_components(path)[i] == PathPartView::Normal(n) && glob_matches(globs[g], n)),
{
    let parts = path_components(path);
    assert forall|i: int, g: int, n: Seq<char>|
        #![trigger parts[i], glob_matches(globs[g], n)]
        0 <= i < parts.len() && 0 <= g < globs.len() && parts[i] == PathPartView::Normal(n)
            && glob_matches(globs[g], n) implies excluded_by(globs, path) by {
        assert(parts[i] matches PathPartView::Normal(m) && any_match(globs, m));
    }
    if excluded_by(globs, path) {
        if !any_match(globs, path) && !(path_file_name(path) matches Some(f) && any_match(globs, f)) {
            let i = choose|i: int|
                0 <= i < parts.len() && (#[trigger] parts[i] matches PathPartView::Normal(n)
                    && any_match(globs, n));
            let n = parts[i]->Normal_0;
            let g = choose|g: int| 0 <= g < globs.len() && #[trigger] glob_matches(globs[g], n);
            assert(parts[i] == PathPartView::Normal(n));
        } else if !any_match(globs, path) {
            let f = path_file_name(path)->0;
            let g = choose|g: int| 0 <= g < globs.len() && #[trigger] glob_matches(globs[g], f);
            assert(path_file_name(path) == Some(f));
        }
    }
}

/// Default patterns to exclude from sync operations.
pub const DEFAULT_EXCLUDES: [&'static str; 29] = [
    ".git",
    ".git/**",
    ".svn",
    ".svn/**",
    ".hg",
    ".hg/**",
    ".DS_Store",
    "Thumbs.db",
    "desktop.ini",
    "*.swp",
    "*.swo",
    "*~",
    ".idea",
    ".idea/**",
    ".vscode",
    ".vscode/**",
    "*.iml",
    "target",
    "target/**",
    "node_modules",
    "node_modules/**",
    "__pycache__",
    "__pycache__/**",
    "*.pyc",
    "*.pyo",
    "*.tmp",
    "*.temp",
    "*.bak",
    "*.orig",
];

/// The patterns of `ps` that `Glob::new` accepts, in order.
pub open spec fn compiling(ps: Seq<Seq<char>>) -> Seq<Seq<char>> {
    ps.filter(|p: Seq<char>| glob_compiles(p))
}

/// `ps` without any copy of `p`.
pub open spec fn without_pattern(ps: Seq<Seq<char>>, p: Seq<char>) -> Seq<Seq<char>> {
    ps.filter(|q: Seq<char>| q != p)
}

/// The default exclude patterns as text.
pub open spec fn default_patterns() -> Seq<Seq<char>> {
    DEFAULT_EXCLUDES@.map_values(|s: &str| s@)
}

/// The default patterns leave out version-control metadata and the usual
/// build and dependency directories, whole and with everything under them:
/// `.git`, `.svn`, `.hg`, `target`, `node_modules` and `__pycache__`.
pub proof fn lemma_default_patterns_cover_tool_directories()
    ensures
        default_patterns().contains(".git"@),
        default_patterns().contains(".git/**"@),
        default_patterns().contains(".svn"@),
        default_patterns().contains(".hg"@),
        default_patterns().contains("target"@),
        default_patterns().contains("node_modules"@),
        default_patterns().contains("node_modules/**"@),
        default_patterns().contains("__pycache__"@),
{
    let d = default_patterns();
    assert(d[0] == ".git"@);
    assert(d[1] == ".git/**"@);
    assert(d[2] == ".svn"@);
    assert(d[4] == ".hg"@);
    assert(d[17] == "target"@);
    assert(d[19] == "node_modules"@);
    assert(d[20] == "node_modules/**"@);
    assert(d[21] == "__pycache__"@);
}

/// The text of a list of strings.
pub open spec fn texts(v: Seq<String>) -> Seq<Seq<char>> {
    v.map_values(|s: String| s@)
}

/// The text of a list of string slices.
pub open spec fn str_texts(v: Seq<&str>) -> Seq<Seq<char>> {
    v.map_values(|s: &str| s@)
}

/// Pattern matching for file exclusion.
#[derive(Debug)]
pub struct ExcludePatterns {
    /// Compiled glob set for matching.
    glob_set: globset::GlobSet,
    /// Raw pattern strings (for display/serialization).
    patterns: Vec<String>,
    /// Whether to use default excludes.
    use_defaults: bool,
}

proof fn lemma_filter_push(ps: Seq<Seq<char>>, p: Seq<char>)
    ensures
        compiling(ps.push(p)) == (if glob_compiles(p) {
            compiling(ps).push(p)
        } else {
            compiling(ps)
        }),
{
    reveal(Seq::filter);
    assert(ps.push(p).drop_last() =~= ps);
}

impl ExcludePatterns {
    /// The patterns the matcher was built from.
    pub closed spec fn matcher(&self) -> Seq<Seq<char>> {
        set_globs(self.glob_set)
    }

    /// The recorded pattern strings.
    pub closed spec fn pattern_texts(&self) -> Seq<Seq<char>> {
        texts(self.patterns@)
    }

    /// Whether the defaults were used to build this set.
    pub closed spec fn uses_defaults(&self) -> bool {
        self.use_defaults
    }

    /// The matcher holds exactly the recorded patterns, all of which compile.
    pub open spec fn consistent(&self) -> bool {
        &&& self.matcher() == self.pattern_texts()
        &&& compiling(self.pattern_texts()) == self.pattern_texts()
    }

    /// Create a new empty exclude pattern set.
    pub fn new() -> (r: Self)
        ensures
            r.matcher() == Seq::<Seq<char>>::empty(),
            r.pattern_texts() == Seq::<Seq<char>>::empty(),
            !r.uses_defaults(),
            r.consistent(),
    {
        let r = ExcludePatterns {
            glob_set: glob_set_empty(),
            patterns: Vec::new(),
            use_defaults: false,
        };
        assert(texts(r.patterns@) =~= Seq::<Seq<char>>::empty());
        assert(compiling(Seq::<Seq<char>>::empty()) =~= Seq::<Seq<char>>::empty()) by {
            reveal(Seq::filter);
        }
        r
    }

    /// Create with the default exclude patterns (those that compile); when
    /// the set cannot be built the matcher is empty.
    pub fn with_defaults() -> (r: Self)
        ensures
            r.pattern_texts() == compiling(default_patterns()),
            r.matcher() == compiling(default_patterns()) || r.matcher() == Seq::<
                Seq<char>,
            >::empty(),
            r.uses_defaults(),
    {
        let mut builder = builder_new();
        let mut patterns: Vec<String> = Vec::new();
        let mut i: usize = 0;
        while i < 29
            invariant
                i <= 29,
                builder_globs(builder) == compiling(default_patterns().take(i as int)),
                texts(patterns@) == compiling(default_patterns().take(i as int)),
            decreases 29 - i,
        {
            let pattern = DEFAULT_EXCLUDES[i];
            proof {
                lemma_filter_push(default_patterns().take(i as int), pattern@);
                assert(default_patterns().take(i + 1) =~= default_patterns().take(i as int).push(
                    pattern@,
                ));
            }
            match glob_new(pattern) {
                Ok(glob) => {
                    builder_add(&mut builder, glob);
                    let ghost prev = patterns@;
                    patterns.push(to_string(pattern));
                    assert(texts(patterns@) =~= texts(prev).push(pattern@));
                },
                Err(_) => {},
            }
            i = i + 1;
        }
        assert(default_patterns().take(29) =~= default_patterns());
        let glob_set = match builder_build(&builder) {
            Ok(s) => s,
            Err(_) => glob_set_empty(),
        };
        ExcludePatterns { glob_set, patterns, use_defaults: true }
    }

    /// Create from a list of patterns. Fails when a pattern does not
    /// compile or the set of them does not build; on success the set holds
    /// exactly the given patterns.
    pub fn from_patterns(patterns: &[&str]) -> (r: Result<Self, globset::Error>)
        ensures
            r is Ok <==> all_compile(str_texts(patterns@)) && globs_build(str_texts(patterns@)),
            r matches Ok(e) ==> {
                &&& e.pattern_texts() == str_texts(patterns@)
                &&& e.matcher() == str_texts(patterns@)
                &&& !e.uses_defaults()
                &&& e.consistent()
            },
    {
        let mut builder = builder_new();
        let mut pattern_list: Vec<String> = Vec::new();
        let mut i: usize = 0;
        while i < patterns.len()
            invariant
                i <= patterns@.len(),
                builder_globs(builder) == str_texts(patterns@.take(i as int)),
                texts(pattern_list@) == str_texts(patterns@.take(i as int)),
                forall|j: int| 0 <= j < i ==> glob_compiles(#[trigger] patterns@[j]@),
            decreases patterns@.len() - i,
        {
            let pattern = patterns[i];
            let glob = match glob_new(pattern) {
                Ok(g) => g,
                Err(e) => {
                    assert(str_texts(patterns@)[i as int] == pattern@);
                    return Err(e);
                },
            };
            builder_add(&mut builder, glob);
            let ghost prev = pattern_list@;
            pattern_list.push(to_string(pattern));
            assert(texts(pattern_list@) =~= texts(prev).push(pattern@));
            assert(str_texts(patterns@.take(i + 1)) =~= str_texts(patterns@.take(i as int)).push(
                pattern@,
            ));
            i = i + 1;
        }
        assert(patterns@.take(i as int) =~= patterns@);
        assert(all_compile(str_texts(patterns@))) by {
            assert forall|k: int| 0 <= k < str_texts(patterns@).len() implies glob_compiles(
                #[trigger] str_texts(patterns@)[k],
            ) by {
                assert(glob_compiles(patterns@[k]@));
            }
        }
        let glob_set = match builder_build(&builder) {
            Ok(s) => s,
            Err(e) => {
                return Err(e);
            },
        };
        let r = ExcludePatterns { glob_set, patterns: pattern_list, use_defaults: false };
        proof {
            let t = str_texts(patterns@);
            assert forall|k: int| 0 <= k < t.len() implies glob_compiles(t[k]) by {
                assert(glob_compiles(patterns@[k]@));
            }
            lemma_all_compile(t);
        }
        Ok(r)
    }

    /// Rebuilds a matcher from the recorded patterns that compile.
    fn rebuild(patterns: &Vec<String>) -> (r: Result<globset::GlobSet, globset::Error>)
        ensures
            r is Ok <==> globs_build(compiling(texts(patterns@))),
            r matches Ok(s) ==> set_globs(s) == compiling(texts(patterns@)),
    {
        let mut builder = builder_new();
        let mut i: usize = 0;
        while i < patterns.len()
            invariant
                i <= patterns@.len(),
                builder_globs(builder) == compiling(texts(patterns@.take(i as int))),
            decreases patterns@.len() - i,
        {
            let existing = patterns[i].as_str();
            proof {
                lemma_filter_push(texts(patterns@.take(i as int)), existing@);
                assert(texts(patterns@.take(i + 1)) =~= texts(patterns@.take(i as int)).push(
                    existing@,
                ));
            }
            match glob_new(existing) {
                Ok(glob) => {
                    builder_add(&mut builder, glob);
                },
                Err(_) => {},
            }
            i = i + 1;
        }
        assert(patterns@.take(i as int) =~= patterns@);
        builder_build(&builder)
    }

    /// Add a pattern to the exclude set. A pattern that does not compile is
    /// refused and nothing changes; otherwise it is recorded and the matcher
    /// is rebuilt from all recorded patterns that compile (kept as it was if
    /// the rebuild fails).
    pub fn add_pattern(&mut self, pattern: &str) -> (r: Result<(), globset::Error>)
        ensures
            final(self).uses_defaults() == old(self).uses_defaults(),
            !glob_compiles(pattern@) ==> {
                &&& r is Err
                &&& final(self).pattern_texts() == old(self).pattern_texts()
                &&& final(self).matcher() == old(self).matcher()
            },
            glob_compiles(pattern@) ==> final(self).pattern_texts() == old(
                self,
            ).pattern_texts().push(pattern@),
            r is Ok <==> glob_compiles(pattern@) && globs_build(
                compiling(old(self).pattern_texts()).push(pattern@),
            ),
            r is Ok ==> final(self).matcher() == compiling(old(self).pattern_texts()).push(
                pattern@,
            ),
            r is Err ==> final(self).matcher() == old(self).matcher(),
    {
        let mut builder = builder_new();
        let mut i: usize = 0;
        while i < self.patterns.len()
            invariant
                i <= self.patterns@.len(),
                self.patterns@ == old(self).patterns@,
                self.glob_set == old(self).glob_set,
                self.use_defaults == old(self).use_defaults,
                builder_globs(builder) == compiling(texts(self.patterns@.take(i as int))),
            decreases self.patterns@.len() - i,
        {
            let existing = self.patterns[i].as_str();
            proof {
                lemma_filter_push(texts(self.patterns@.take(i as int)), existing@);
                assert(texts(self.patterns@.take(i + 1)) =~= texts(
                    self.patterns@.take(i as int),
                ).push(existing@));
            }
            match glob_new(existing) {
                Ok(glob) => {
                    builder_add(&mut builder, glob);
                },
                Err(_) => {},
            }
            i = i + 1;
        }
        assert(self.patterns@.take(i as int) =~= self.patterns@);
        let glob = match glob_new(pattern) {
            Ok(g) => g,
            Err(e) => {
                return Err(e);
            },
        };
        builder_add(&mut builder, glob);
        let ghost prev = self.patterns@;
        self.patterns.push(to_string(pattern));
        assert(texts(self.patterns@) =~= texts(prev).push(pattern@));
        match builder_build(&builder) {
            Ok(s) => {
                self.glob_set = s;
                Ok(())
            },
            Err(e) => Err(e),
        }
    }

    /// Remove a pattern from the exclude set: every recorded copy of it is
    /// dropped and the matcher is rebuilt from the remaining patterns that
    /// compile (kept as it was if the rebuild fails).
    pub fn remove_pattern(&mut self, pattern: &str) -> (r: Result<(), globset::Error>)
        ensures
            final(self).uses_defaults() == old(self).uses_defaults(),
            final(self).pattern_texts() == without_pattern(old(self).pattern_texts(), pattern@),
            r is Ok ==> final(self).matcher() == compiling(final(self).pattern_texts()),
            r is Err ==> final(self).matcher() == old(self).matcher(),
    {
        let mut kept: Vec<String> = Vec::new();
        let mut i: usize = 0;
        let ghost pred = |p: Seq<char>| p != pattern@;
        while i < self.patterns.len()
            invariant
                i <= self.patterns@.len(),
                self.patterns@ == old(self).patterns@,
                self.glob_set == old(self).glob_set,
                self.use_defaults == old(self).use_defaults,
                pred == (|p: Seq<char>| p != pattern@),
                texts(kept@) == texts(self.patterns@.take(i as int)).filter(pred),
            decreases self.patterns@.len() - i,
        {
            let p = self.patterns[i].as_str();
            proof {
                let t = texts(self.patterns@.take(i + 1));
                assert(t =~= texts(self.patterns@.take(i as int)).push(p@));
                reveal(Seq::filter);
                assert(t.drop_last() =~= texts(self.patterns@.take(i as int)));
            }
            if !str_eq(p, pattern) {
                let ghost prev = kept@;
                kept.push(to_string(p));
                assert(texts(kept@) =~= texts(prev).push(p@));
            }
            i = i + 1;
        }
        assert(self.patterns@.take(i as int) =~= self.patterns@);
        self.patterns = kept;
        match Self::rebuild(&self.patterns) {
            Ok(s) => {
                self.glob_set = s;
                Ok(())
            },
            Err(e) => Err(e),
        }
    }

    /// Check if a path should be excluded: the whole path, its file name or
    /// one of its normal components matches a pattern of the matcher.
    pub fn is_excluded(&self, path: &str) -> (r: bool)
        ensures
            r == excluded_by(self.matcher(), path@),
            forall|i: int, g: int, n: Seq<char>|
                #![trigger path_components(path@)[i], glob_matches(self.matcher()[g], n)]
                0 <= i < path_components(path@).len() && 0 <= g < self.matcher().len()
                    && path_components(path@)[i] == PathPartView::Normal(n) && glob_matches(
                    self.matcher()[g],
                    n,
                ) ==> r,
            forall|g: int|
                0 <= g < self.matcher().len() && #[trigger] glob_matches(self.matcher()[g], path@)
                    ==> r,
            forall|g: int, f: Seq<char>|
                0 <= g < self.matcher().len() && path_file_name(path@) == Some(f) && #[trigger] glob_matches(
                    self.matcher()[g],
                    f,
                ) ==> r,
            r ==> (exists|g: int|
                0 <= g < self.matcher().len() && #[trigger] glob_matches(self.matcher()[g], path@)) || (
            exists|g: int, f: Seq<char>|
                0 <= g < self.matcher().len() && path_file_name(path@) == Some(f) && #[trigger] glob_matches(
                    self.matcher()[g],
                    f,
                )) || (exists|i: int, g: int, n: Seq<char>|
                #![trigger path_components(path@)[i], glob_matches(self.matcher()[g], n)]
                0 <= i < path_components(path@).len() && 0 <= g < self.matcher().len()
                    && path_components(path@)[i] == PathPartView::Normal(n) && glob_matches(
                    self.matcher()[g],
                    n,
                )),
    {
        proof {
            lemma_excluded_by_any_component(self.matcher(), path@);
        }
        if glob_set_is_match(&self.glob_set, path) {
            return true;
        }
        match file_name(path) {
            Some(f) => {
                if glob_set_is_match(&self.glob_set, f.as_str()) {
                    return true;
                }
            },
            None => {},
        }
        let parts = components(path);
        let ghost views = parts@.map_values(|c: PathPart| c@);
        let mut i: usize = 0;
        while i < parts.len()
            invariant
                i <= parts@.len(),
                views == parts@.map_values(|c: PathPart| c@),
                views == path_components(path@),
                forall|j: int|
                    0 <= j < i ==> !(#[trigger] views[j] matches PathPartView::Normal(n)
                        && any_match(set_globs(self.glob_set), n)),
            decreases parts@.len() - i,
        {
            match &parts[i] {
                PathPart::Normal(name) => {
                    if glob_set_is_match(&self.glob_set, name.as_str()) {
                        assert(views[i as int] matches PathPartView::Normal(n) && any_match(
                            set_globs(self.glob_set),
                            n,
                        ));
                        proof {
                            lemma_excluded_by_any_component(self.matcher(), path@);
                        }
                        return true;
                    }
                },
                _ => {},
            }
            i = i + 1;
        }
        false
    }


    /// Parse patterns from a string (one per line, like .gitignore): lines
    /// are trimmed; empty lines, comments (`#`) and negations (`!`) are
    /// skipped; the rest become the patterns, as `from_patterns` takes them.
    pub fn parse_gitignore(content: &str) -> (r: Result<Self, globset::Error>)
        ensures
            r is Ok <==> all_compile(gitignore_patterns(content@)) && globs_build(
                gitignore_patterns(content@),
            ),
            r matches Ok(e) ==> {
                &&& e.pattern_texts() == gitignore_patterns(content@)
                &&& e.matcher() == gitignore_patterns(content@)
                &&& !e.uses_defaults()
                &&& e.consistent()
            },
    {
        let all = lines(content);
        let ghost trimmed = lines_of(content@).map_values(|l: Seq<char>| trim_of(l));
        let mut kept: Vec<&str> = Vec::new();
        let mut i: usize = 0;
        while i < all.len()
            invariant
                i <= all@.len(),
                all@.map_values(|l: String| l@) == lines_of(content@),
                trimmed == lines_of(content@).map_values(|l: Seq<char>| trim_of(l)),
                str_texts(kept@) == trimmed.take(i as int).filter(
                    |l: Seq<char>| kept_line(l),
                ),
            decreases all@.len() - i,
        {
            let line = trim(all[i].as_str());
            proof {
                assert(all@[i as int]@ == lines_of(content@)[i as int]);
                let t = trimmed.take(i + 1);
                assert(t.drop_last() =~= trimmed.take(i as int));
                assert(t.last() == line@);
                reveal(Seq::filter);
            }
            let cs = crate::text::chars_of(line);
            if cs.len() > 0 && cs[0] != '#' && cs[0] != '!' {
                let ghost prev = kept@;
                kept.push(line);
                assert(str_texts(kept@) =~= str_texts(prev).push(line@));
            }
            i = i + 1;
        }
        assert(trimmed.take(i as int) =~= trimmed);
        Self::from_patterns(kept.as_slice())
    }

    /// Merge another exclude pattern set into this one: each of its
    /// patterns not yet recorded is added with `add_pattern`, stopping at the
    /// first failure.
    pub fn merge(&mut self, other: &ExcludePatterns) -> (r: Result<(), globset::Error>)
        ensures
            final(self).uses_defaults() == old(self).uses_defaults(),
            r is Ok <==> merge_succeeds(old(self).pattern_texts(), other.pattern_texts()),
            r is Ok ==> final(self).pattern_texts() == merged_texts(
                old(self).pattern_texts(),
                other.pattern_texts(),
            ),
            r is Ok && old(self).consistent() && other.consistent() ==> final(self).consistent(),
    {
        let mut i: usize = 0;
        while i < other.patterns.len()
            invariant
                i <= other.patterns@.len(),
                self.uses_defaults() == old(self).uses_defaults(),
                self.pattern_texts() == merged_texts(
                    old(self).pattern_texts(),
                    other.pattern_texts().take(i as int),
                ),
                merge_succeeds(old(self).pattern_texts(), other.pattern_texts().take(i as int)),
                old(self).consistent() && other.consistent() ==> self.consistent(),
            decreases other.patterns@.len() - i,
        {
            let p = other.patterns[i].as_str();
            proof {
                assert(other.pattern_texts().take(i + 1).drop_last() =~= other.pattern_texts().take(
                    i as int,
                ));
                assert(other.pattern_texts()[i as int] == p@);
            }
            if !contains_text(&self.patterns, p) {
                proof {
                    if old(self).consistent() && other.consistent() {
                        assert(glob_compiles(p@)) by {
                            lemma_compiling_all(other.pattern_texts(), i as int);
                        }
                    }
                }
                let ghost before = self.pattern_texts();
                let res = self.add_pattern(p);
                match res {
                    Ok(()) => {},
                    Err(e) => {
                        proof {
                            if merge_succeeds(old(self).pattern_texts(), other.pattern_texts()) {
                                lemma_merge_prefix(
                                    old(self).pattern_texts(),
                                    other.pattern_texts(),
                                    i + 1,
                                );
                                assert(other.pattern_texts().take(i + 1).last() == p@);
                            }
                        }
                        return Err(e);
                    },
                }
                proof {
                    if old(self).consistent() && other.consistent() {
                        lemma_filter_push(before, p@);
                    }
                }
            }
            i = i + 1;
        }
        assert(other.pattern_texts().take(i as int) =~= other.pattern_texts());
        Ok(())
    }

    /// Get the list of patterns.
    pub fn patterns(&self) -> (r: &[String])
        ensures
            texts(r@) == self.pattern_texts(),
    {
        self.patterns.as_slice()
    }
}


/// A trimmed line of a .gitignore file that becomes a pattern.
pub open spec fn kept_line(l: Seq<char>) -> bool {
    l.len() > 0 && l[0] != '#' && l[0] != '!'
}

/// The patterns a .gitignore text yields.
pub open spec fn gitignore_patterns(content: Seq<char>) -> Seq<Seq<char>> {
    lines_of(content).map_values(|l: Seq<char>| trim_of(l)).filter(|l: Seq<char>| kept_line(l))
}

/// The pattern list after merging `others` into `own`: each pattern of
/// `others` not yet present is appended, in order.
pub open spec fn merged_texts(own: Seq<Seq<char>>, others: Seq<Seq<char>>) -> Seq<Seq<char>>
    decreases others.len(),
{
    if others.len() == 0 {
        own
    } else {
        let m = merged_texts(own, others.drop_last());
        if m.contains(others.last()) {
            m
        } else {
            m.push(others.last())
        }
    }
}

/// The patterns a .gitignore text yields are its trimmed lines that are
/// neither empty nor a comment (`#`) nor a negation (`!`): every such line
/// is a pattern and every pattern is such a line.
pub proof fn lemma_gitignore_pattern_lines(content: Seq<char>)
    ensures
        forall|i: int|
            0 <= i < gitignore_patterns(content).len() ==> {
                let p = #[trigger] gitignore_patterns(content)[i];
                &&& p.len() > 0
                &&& p[0] != '#'
                &&& p[0] != '!'
                &&& exists|j: int| 0 <= j < lines_of(content).len() && trim_of(#[trigger] lines_of(content)[j]) == p
            },
        forall|j: int|
            0 <= j < lines_of(content).len() && trim_of(#[trigger] lines_of(content)[j]).len() > 0
                && trim_of(lines_of(content)[j])[0] != '#' && trim_of(lines_of(content)[j])[0]
                != '!' ==> gitignore_patterns(content).contains(trim_of(lines_of(content)[j])),
{
    broadcast use vstd::seq_lib::group_filter_ensures;

    let trimmed = lines_of(content).map_values(|l: Seq<char>| trim_of(l));
    let gp = gitignore_patterns(content);
    assert forall|i: int| 0 <= i < gp.len() implies {
        let p = #[trigger] gp[i];
        &&& p.len() > 0
        &&& p[0] != '#'
        &&& p[0] != '!'
        &&& exists|j: int| 0 <= j < lines_of(content).len() && trim_of(#[trigger] lines_of(content)[j]) == p
    } by {
        assert(gp.contains(gp[i]));
        trimmed.lemma_filter_contains_rev(|l: Seq<char>| kept_line(l), gp[i]);
        assert(trimmed.contains(gp[i]));
        let j = choose|j: int| 0 <= j < trimmed.len() && trimmed[j] == gp[i];
        assert(trim_of(lines_of(content)[j]) == gp[i]);
    }
    assert forall|j: int|
        0 <= j < lines_of(content).len() && trim_of(#[trigger] lines_of(content)[j]).len() > 0
            && trim_of(lines_of(content)[j])[0] != '#' && trim_of(lines_of(content)[j])[0] != '!'
            implies gp.contains(trim_of(lines_of(content)[j])) by {
        assert(trimmed[j] == trim_of(lines_of(content)[j]));
        assert(trimmed.contains(trimmed[j]));
        assert(kept_line(trimmed[j]));
    }
}

/// Merging keeps the own patterns first and in order, and afterwards every
/// pattern of either list is present, each once when the own list had no
/// repeats.
pub proof fn lemma_merge_keeps_all(own: Seq<Seq<char>>, others: Seq<Seq<char>>)
    ensures
        merged_texts(own, others).take(own.len() as int) == own,
        own.len() <= merged_texts(own, others).len(),
        forall|i: int| 0 <= i < own.len() ==> merged_texts(own, others).contains(#[trigger] own[i]),
        forall|i: int| 0 <= i < others.len() ==> merged_texts(own, others).contains(#[trigger] others[i]),
        own.no_duplicates() ==> merged_texts(own, others).no_duplicates(),
    decreases others.len(),
{
    if others.len() == 0 {
        assert(own.take(own.len() as int) =~= own);
        assert forall|i: int| 0 <= i < own.len() implies own.contains(#[trigger] own[i]) by {}
    } else {
        let init = others.drop_last();
        lemma_merge_keeps_all(own, init);
        let m = merged_texts(own, init);
        assert forall|i: int| 0 <= i < own.len() implies merged_texts(own, others).contains(#[trigger] own[i]) by {
            assert(m.contains(own[i]));
            if !m.contains(others.last()) {
                let k = choose|k: int| 0 <= k < m.len() && m[k] == own[i];
                assert(m.push(others.last())[k] == own[i]);
            }
        }
        assert forall|i: int| 0 <= i < others.len() implies merged_texts(own, others).contains(#[trigger] others[i]) by {
            if i < others.len() - 1 {
                assert(init[i] == others[i]);
                assert(m.contains(others[i]));
                if !m.contains(others.last()) {
                    let k = choose|k: int| 0 <= k < m.len() && m[k] == others[i];
                    assert(m.push(others.last())[k] == others[i]);
                }
            } else if !m.contains(others.last()) {
                assert(m.push(others.last())[m.len() as int] == others.last());
            }
        }
        if !m.contains(others.last()) {
            assert(m.push(others.last()).take(own.len() as int) =~= m.take(own.len() as int));
        }
    }
}

/// Every pattern of `ps` compiles.
pub open spec fn all_compile(ps: Seq<Seq<char>>) -> bool {
    forall|i: int| 0 <= i < ps.len() ==> glob_compiles(#[trigger] ps[i])
}

/// Merging `others` into `own` one pattern at a time succeeds: each
/// pattern not yet present compiles and the set built with it does too.
pub open spec fn merge_succeeds(own: Seq<Seq<char>>, others: Seq<Seq<char>>) -> bool
    decreases others.len(),
{
    if others.len() == 0 {
        true
    } else {
        let m = merged_texts(own, others.drop_last());
        let p = others.last();
        &&& merge_succeeds(own, others.drop_last())
        &&& (m.contains(p) || (glob_compiles(p) && globs_build(compiling(m).push(p))))
    }
}

/// A merge that succeeds succeeds on every prefix of the patterns.
proof fn lemma_merge_prefix(own: Seq<Seq<char>>, others: Seq<Seq<char>>, k: int)
    requires
        0 <= k <= others.len(),
        merge_succeeds(own, others),
    ensures
        merge_succeeds(own, others.take(k)),
    decreases others.len() - k,
{
    if k < others.len() {
        lemma_merge_prefix(own, others.drop_last(), k);
        assert(others.drop_last().take(k) =~= others.take(k));
    } else {
        assert(others.take(k) =~= others);
    }
}

/// Whether `v` holds a string equal to `p`.
fn contains_text(v: &Vec<String>, p: &str) -> (r: bool)
    ensures
        r == texts(v@).contains(p@),
{
    let mut i: usize = 0;
    while i < v.len()
        invariant
            i <= v@.len(),
            forall|j: int| 0 <= j < i ==> v@[j]@ != p@,
        decreases v@.len() - i,
    {
        if str_eq(v[i].as_str(), p) {
            assert(texts(v@)[i as int] == p@);
            return true;
        }
        i = i + 1;
    }
    assert forall|j: int| 0 <= j < texts(v@).len() implies texts(v@)[j] != p@ by {
        assert(texts(v@)[j] == v@[j]@);
    }
    false
}

proof fn lemma_compiling_all(ps: Seq<Seq<char>>, i: int)
    requires
        compiling(ps) == ps,
        0 <= i < ps.len(),
    ensures
        glob_compiles(ps[i]),
{
    ps.filter_lemma(|p: Seq<char>| glob_compiles(p));
    assert(compiling(ps).contains(ps[i]));
}

proof fn lemma_all_compile(ps: Seq<Seq<char>>)
    requires
        forall|k: int| 0 <= k < ps.len() ==> glob_compiles(ps[k]),
    ensures
        compiling(ps) == ps,
    decreases ps.len(),
{
    if ps.len() > 0 {
        lemma_all_compile(ps.drop_last());
        lemma_filter_push(ps.drop_last(), ps.last());
        assert(ps.drop_last().push(ps.last()) =~= ps);
    } else {
        reveal(Seq::filter);
        assert(compiling(ps) =~= ps);
    }
}

/// Excluding is monotone in the patterns: a path excluded by some patterns
/// stays excluded when more patterns are added after them.
pub proof fn lemma_more_patterns_exclude_more(
    globs: Seq<Seq<char>>,
    extra: Seq<Seq<char>>,
    path: Seq<char>,
)
    requires
        excluded_by(globs, path),
    ensures
        excluded_by(globs + extra, path),
{
    let all = globs + extra;
    assert forall|q: Seq<char>| any_match(globs, q) implies any_match(all, q) by {
        let i = choose|i: int| 0 <= i < globs.len() && #[trigger] glob_matches(globs[i], q);
        assert(all[i] == globs[i]);
    }
    if component_match(globs, path_components(path)) {
        let parts = path_components(path);
        let i = choose|i: int|
            0 <= i < parts.len() && (#[trigger] parts[i] matches PathPartView::Normal(n)
                && any_match(globs, n));
        assert(parts[i] matches PathPartView::Normal(n) && any_match(all, n));
    }
}

/// Adding a pattern to a consistent set keeps it consistent and keeps
/// excluding every path it excluded before.
pub proof fn lemma_add_pattern_keeps(old_texts: Seq<Seq<char>>, p: Seq<char>, path: Seq<char>)
    requires
        compiling(old_texts) == old_texts,
        glob_compiles(p),
    ensures
        compiling(old_texts.push(p)) == old_texts.push(p),
        excluded_by(old_texts, path) ==> excluded_by(compiling(old_texts).push(p), path),
{
    lemma_filter_push(old_texts, p);
    if excluded_by(old_texts, path) {
        lemma_more_patterns_exclude_more(old_texts, seq![p], path);
        assert(old_texts + seq![p] =~= old_texts.push(p));
    }
}

proof fn lemma_without_absent(ps: Seq<Seq<char>>, p: Seq<char>)
    requires
        !ps.contains(p),
    ensures
        without_pattern(ps, p) == ps,
    decreases ps.len(),
{
    reveal(Seq::filter);
    if ps.len() > 0 {
        assert(!ps.drop_last().contains(p)) by {
            if ps.drop_last().contains(p) {
                let i = choose|i: int| 0 <= i < ps.drop_last().len() && ps.drop_last()[i] == p;
                assert(ps[i] == p);
            }
        }
        lemma_without_absent(ps.drop_last(), p);
        assert(ps.last() != p) by {
            assert(ps[ps.len() - 1] == ps.last());
        }
        assert(ps.drop_last().push(ps.last()) =~= ps);
    } else {
        assert(without_pattern(ps, p) =~= ps);
    }
}

/// Removing a pattern right after adding it, when it was not recorded
/// before, gives back the recorded patterns as they were.
pub proof fn lemma_remove_undoes_add(before: Seq<Seq<char>>, p: Seq<char>)
    requires
        !before.contains(p),
    ensures
        without_pattern(before.push(p), p) == before,
{
    reveal(Seq::filter);
    lemma_without_absent(before, p);
    assert(before.push(p).drop_last() =~= before);
}

} // verus!
