//! The pieces of a path that `std::path::Path` reports, as strings.
use vstd::prelude::*;

verus! {

/// `Path::file_stem` of the path spelled `p`.
pub uninterp spec fn path_file_stem(p: Seq<char>) -> Option<Seq<char>>;

/// `Path::extension` of the path spelled `p`.
pub uninterp spec fn path_extension(p: Seq<char>) -> Option<Seq<char>>;

/// `Path::parent` of the path spelled `p`.
pub uninterp spec fn path_parent(p: Seq<char>) -> Option<Seq<char>>;

/// `Path::file_name` of the path spelled `p`.
pub uninterp spec fn path_file_name(p: Seq<char>) -> Option<Seq<char>>;

/// `Path::file_stem`: the final component without its extension, as the
/// standard library computes it from the path's text.
#[verifier::external_body]
pub(crate) fn file_stem(p: &str) -> (r: Option<String>)
    ensures
        r matches Some(s) ==> path_file_stem(p@) == Some(s@),
        r is None ==> path_file_stem(p@) is None,
{
    match std::path::Path::new(p).file_stem() {
        Some(s) => Some(s.to_string_lossy().into_owned()),
        None => None,
    }
}

/// `Path::extension`: the part of the final component after its last dot,
/// as the standard library computes it from the path's text.
#[verifier::external_body]
pub(crate) fn file_extension(p: &str) -> (r: Option<String>)
    ensures
        r matches Some(s) ==> path_extension(p@) == Some(s@),
        r is None ==> path_extension(p@) is None,
{
    match std::path::Path::new(p).extension() {
        Some(s) => Some(s.to_string_lossy().into_owned()),
        None => None,
    }
}

/// `Path::parent`: the path without its final component, as the standard
/// library computes it from the path's text.
#[verifier::external_body]
pub(crate) fn parent_dir(p: &str) -> (r: Option<String>)
    ensures
        r matches Some(s) ==> path_parent(p@) == Some(s@),
        r is None ==> path_parent(p@) is None,
{
    match std::path::Path::new(p).parent() {
        Some(s) => Some(s.to_string_lossy().into_owned()),
        None => None,
    }
}

/// `Path::file_name`: the final component, as the standard library
/// computes it from the path's text.
#[verifier::external_body]
pub(crate) fn file_name(p: &str) -> (r: Option<String>)
    ensures
        r matches Some(s) ==> path_file_name(p@) == Some(s@),
        r is None ==> path_file_name(p@) is None,
{
    match std::path::Path::new(p).file_name() {
        Some(s) => Some(s.to_string_lossy().into_owned()),
        None => None,
    }
}

/// One component of a path, as `std::path::Component` splits it.
#[derive(Debug)]
pub enum PathPart {
    Prefix(String),
    RootDir,
    CurDir,
    ParentDir,
    Normal(String),
}

/// A path component as plain text values.
pub enum PathPartView {
    Prefix(Seq<char>),
    RootDir,
    CurDir,
    ParentDir,
    Normal(Seq<char>),
}

impl View for PathPart {
    type V = PathPartView;

    open spec fn view(&self) -> PathPartView {
        match self {
            PathPart::Prefix(s) => PathPartView::Prefix(s@),
            PathPart::RootDir => PathPartView::RootDir,
            PathPart::CurDir => PathPartView::CurDir,
            PathPart::ParentDir => PathPartView::ParentDir,
            PathPart::Normal(s) => PathPartView::Normal(s@),
        }
    }
}

/// A text that `Path::components` gives as a normal component: not empty,
/// without a slash, and neither `.` nor `..`.
pub open spec fn normal_name(s: Seq<char>) -> bool {
    s.len() > 0 && !s.contains('/') && s != "."@ && s != ".."@
}

/// The last of the components `c` is one that `Path::parent` takes off: a
/// name, `.` or `..` (not a root or a prefix).
pub open spec fn has_parent_part(c: Seq<PathPartView>) -> bool {
    &&& c.len() > 0
    &&& !(c.last() is RootDir)
    &&& !(c.last() is Prefix)
}

/// `Path::components` of the path spelled `p`.
pub uninterp spec fn path_components(p: Seq<char>) -> Seq<PathPartView>;

/// `PathBuf::push` applied to the path spelled `base` with `part`.
pub uninterp spec fn pathbuf_pushed(base: Seq<char>, part: Seq<char>) -> Seq<char>;

/// `PathBuf::pop` applied to the path spelled `base`.
pub uninterp spec fn pathbuf_popped(base: Seq<char>) -> Seq<char>;

/// `Path::components`: the components of the path, in order, each converted
/// to a `PathPart` (the text of prefixes and normal components kept). Only
/// the empty path has none (any other starts with a root, a prefix, `.`,
/// `..` or a name), and a normal component is a name between separators,
/// never `.` or `..`.
#[verifier::external_body]
pub(crate) fn components(p: &str) -> (r: Vec<PathPart>)
    ensures
        r@.map_values(|c: PathPart| c@) == path_components(p@),
        r@.len() == 0 <==> p@.len() == 0,
        forall|i: int|
            0 <= i < r@.len() ==> ((#[trigger] r@[i])@ matches PathPartView::Normal(s)
                ==> normal_name(s)),
{
    let mut out = Vec::new();
    for c in std::path::Path::new(p).components() {
        out.push(match c {
            std::path::Component::Prefix(x) => PathPart::Prefix(
                x.as_os_str().to_string_lossy().into_owned(),
            ),
            std::path::Component::RootDir => PathPart::RootDir,
            std::path::Component::CurDir => PathPart::CurDir,
            std::path::Component::ParentDir => PathPart::ParentDir,
            std::path::Component::Normal(x) => PathPart::Normal(x.to_string_lossy().into_owned()),
        });
    }
    out
}

/// `PathBuf::push`: extends the path in `buf` with `part` (replacing it when
/// `part` is absolute), as the standard library computes it from the text.
/// Pushing a name adds it as the last component (a separator goes in
/// between when needed); pushing `/` leaves just the root. Only an empty
/// path has no components.
#[verifier::external_body]
pub(crate) fn push_path(buf: &mut String, part: &str)
    ensures
        final(buf)@ == pathbuf_pushed(old(buf)@, part@),
        normal_name(part@) ==> path_components(final(buf)@) == path_components(old(buf)@).push(
            PathPartView::Normal(part@),
        ),
        part@ == "/"@ ==> path_components(final(buf)@) == seq![PathPartView::RootDir],
        path_components(old(buf)@).len() == 0 <==> old(buf)@.len() == 0,
        path_components(final(buf)@).len() == 0 <==> final(buf)@.len() == 0,
{
    let mut pb = std::path::PathBuf::from(buf.as_str());
    pb.push(part);
    *buf = pb.to_string_lossy().into_owned();
}

/// `PathBuf::pop`: truncates the path in `buf` to its parent (leaving it as
/// it is when there is none), as the standard library computes it. The
/// parent exists when the last component is a name, `.` or `..`, and has
/// the components before it. Only an empty path has no components.
#[verifier::external_body]
pub(crate) fn pop_path(buf: &mut String)
    ensures
        final(buf)@ == pathbuf_popped(old(buf)@),
        has_parent_part(path_components(old(buf)@)) ==> path_components(final(buf)@)
            == path_components(old(buf)@).drop_last(),
        !has_parent_part(path_components(old(buf)@)) ==> final(buf)@ == old(buf)@,
        path_components(old(buf)@).len() == 0 <==> old(buf)@.len() == 0,
        path_components(final(buf)@).len() == 0 <==> final(buf)@.len() == 0,
{
    let mut pb = std::path::PathBuf::from(buf.as_str());
    pb.pop();
    *buf = pb.to_string_lossy().into_owned();
}

/// `Path::with_extension` applied to the path spelled `p` with `ext`.
pub uninterp spec fn path_with_extension(p: Seq<char>, ext: Seq<char>) -> Seq<char>;

/// `Path::with_extension`: the path with the extension of its final
/// component replaced by `ext` (added when it has none), as the standard
/// library computes it from the text.
#[verifier::external_body]
pub(crate) fn with_extension(p: &str, ext: &str) -> (r: String)
    ensures
        r@ == path_with_extension(p@, ext@),
{
    std::path::Path::new(p).with_extension(ext).to_string_lossy().into_owned()
}

} // verus!
