//! The decisions the file manager takes on keys and listings: moving
//! through directories, paging through a viewed file chunk by chunk, and
//! searching a listing. Reading listings and chunks is done by the caller,
//! which performs the action each decision asks for.
use vstd::prelude::*;
use crate::app::{line_texts, DeleteTarget, Progress, ProgressStage, TextEditor};
use crate::fs::backend::BackendType;
use crate::fs::connect::{menu_line, menu_of};
use crate::hash::hash::{algorithm_table, info_fields, AlgorithmInfo, HashRegistry};
use crate::fs::types::FileEntry;
use crate::sync::engine::{
    action_views,
    is_default_config,
    ActionView,
    SyncAction,
    SyncConfig,
    SyncPhase,
    SyncProgress,
    SyncStats,
};
use crate::paths::{parent_dir, path_parent};
use crate::text::{
    byte_len,
    contains_str,
    dec_str,
    decimal,
    lines,
    lines_of,
    ends_with,
    has_substring,
    has_suffix,
    joined,
    lemma_split_on_nonempty,
    split_char,
    split_on,
    lowercase,
    lowercase_of,
    push_str,
    str_eq,
    string_len,
    to_string,
    trim,
    trim_of,
};

verus! {

/// A key, as the handlers read it.
#[derive(Debug, Clone, Copy, PartialEq, Eq, Structural)]
pub enum Key {
    Esc,
    Enter,
    Backspace,
    Up,
    Down,
    Left,
    Right,
    PageUp,
    PageDown,
    Home,
    End,
    Tab,
    /// A function key, by its number.
    F(u8),
    Char(char),
    Other,
}

/// The size of the chunks a large file is viewed in: 64 KiB.
pub const VIEW_CHUNK: u64 = 64 * 1024;

/// The number of lines a page of the viewer shows.
pub const VIEW_PAGE: usize = 20;

/// Where the viewer is: the first line shown, the number of lines of the
/// loaded chunk, the chunk's offset in the file and the file's size (zero
/// when the whole file was loaded at once).
#[derive(Debug, Clone, Copy, PartialEq, Eq, Structural)]
pub struct ViewerState {
    pub scroll: usize,
    pub lines: usize,
    pub file_offset: u64,
    pub file_size: u64,
}

/// What the viewer asks of its caller after a key.
#[derive(Debug, Clone, Copy, PartialEq, Eq, Structural)]
pub enum ViewerAction {
    /// Nothing beyond the new state.
    Stay,
    /// Leave the viewer.
    Close,
    /// Load the chunk that starts at this offset.
    LoadChunk(u64),
}

/// The last line the viewer scrolls to.
pub open spec fn last_scroll(lines: usize) -> usize {
    if lines >= VIEW_PAGE {
        (lines - VIEW_PAGE) as usize
    } else {
        0
    }
}

/// The viewer has a chunk before the loaded one.
pub open spec fn has_prev_chunk(s: ViewerState) -> bool {
    s.file_size > 0 && s.file_offset >= VIEW_CHUNK
}

/// The viewer has a chunk after the loaded one.
pub open spec fn has_next_chunk(s: ViewerState) -> bool {
    s.file_size > 0 && s.file_offset + VIEW_CHUNK < s.file_size
}

/// The viewer's answer to `key`: one line or one page up or down, going to
/// the previous or next chunk at the start or end of the loaded one; Home
/// goes to the top (and to the first chunk); End to the last page; Esc and
/// `q` close the viewer.
pub open spec fn viewer_step(s: ViewerState, key: Key) -> (ViewerState, ViewerAction) {
    let back = (ViewerState { ..s }, ViewerAction::LoadChunk((s.file_offset - VIEW_CHUNK) as u64));
    let on = (ViewerState { ..s }, ViewerAction::LoadChunk((s.file_offset + VIEW_CHUNK) as u64));
    let stay = (s, ViewerAction::Stay);
    match key {
        Key::Esc | Key::Char('q') => (s, ViewerAction::Close),
        Key::Up | Key::Char('k') => if s.scroll > 0 {
            (ViewerState { scroll: (s.scroll - 1) as usize, ..s }, ViewerAction::Stay)
        } else if has_prev_chunk(s) {
            back
        } else {
            stay
        },
        Key::Down | Key::Char('j') => if s.scroll < last_scroll(s.lines) {
            (ViewerState { scroll: (s.scroll + 1) as usize, ..s }, ViewerAction::Stay)
        } else if has_next_chunk(s) {
            on
        } else {
            stay
        },
        Key::PageUp => if s.scroll > 0 {
            (
                ViewerState {
                    scroll: if s.scroll >= VIEW_PAGE {
                        (s.scroll - VIEW_PAGE) as usize
                    } else {
                        0
                    },
                    ..s
                },
                ViewerAction::Stay,
            )
        } else if has_prev_chunk(s) {
            back
        } else {
            stay
        },
        Key::PageDown => if s.scroll < last_scroll(s.lines) {
            (
                ViewerState {
                    scroll: if s.scroll + VIEW_PAGE <= last_scroll(s.lines) {
                        (s.scroll + VIEW_PAGE) as usize
                    } else {
                        last_scroll(s.lines)
                    },
                    ..s
                },
                ViewerAction::Stay,
            )
        } else if has_next_chunk(s) {
            on
        } else {
            stay
        },
        Key::Home => if s.file_size > 0 && s.file_offset > 0 {
            (ViewerState { scroll: 0, ..s }, ViewerAction::LoadChunk(0))
        } else {
            (ViewerState { scroll: 0, ..s }, ViewerAction::Stay)
        },
        Key::End => (ViewerState { scroll: last_scroll(s.lines), ..s }, ViewerAction::Stay),
        _ => stay,
    }
}

/// The viewer's answer to a key.
pub fn viewer_key(s: ViewerState, key: Key) -> (r: (ViewerState, ViewerAction))
    requires
        s.file_offset + VIEW_CHUNK <= u64::MAX,
    ensures
        r == viewer_step(s, key),
{
    let last = if s.lines >= VIEW_PAGE {
        s.lines - VIEW_PAGE
    } else {
        0
    };
    let has_prev = s.file_size > 0 && s.file_offset >= VIEW_CHUNK;
    let has_next = s.file_size > 0 && s.file_offset + VIEW_CHUNK < s.file_size;
    match key {
        Key::Esc | Key::Char('q') => (s, ViewerAction::Close),
        Key::Up | Key::Char('k') => {
            if s.scroll > 0 {
                (ViewerState { scroll: s.scroll - 1, ..s }, ViewerAction::Stay)
            } else if has_prev {
                (s, ViewerAction::LoadChunk(s.file_offset - VIEW_CHUNK))
            } else {
                (s, ViewerAction::Stay)
            }
        },
        Key::Down | Key::Char('j') => {
            if s.scroll < last {
                (ViewerState { scroll: s.scroll + 1, ..s }, ViewerAction::Stay)
            } else if has_next {
                (s, ViewerAction::LoadChunk(s.file_offset + VIEW_CHUNK))
            } else {
                (s, ViewerAction::Stay)
            }
        },
        Key::PageUp => {
            if s.scroll > 0 {
                let scroll = if s.scroll >= VIEW_PAGE {
                    s.scroll - VIEW_PAGE
                } else {
                    0
                };
                (ViewerState { scroll, ..s }, ViewerAction::Stay)
            } else if has_prev {
                (s, ViewerAction::LoadChunk(s.file_offset - VIEW_CHUNK))
            } else {
                (s, ViewerAction::Stay)
            }
        },
        Key::PageDown => {
            if s.scroll < last {
                let scroll = if s.scroll + VIEW_PAGE <= last {
                    s.scroll + VIEW_PAGE
                } else {
                    last
                };
                (ViewerState { scroll, ..s }, ViewerAction::Stay)
            } else if has_next {
                (s, ViewerAction::LoadChunk(s.file_offset + VIEW_CHUNK))
            } else {
                (s, ViewerAction::Stay)
            }
        },
        Key::Home => {
            if s.file_size > 0 && s.file_offset > 0 {
                (ViewerState { scroll: 0, ..s }, ViewerAction::LoadChunk(0))
            } else {
                (ViewerState { scroll: 0, ..s }, ViewerAction::Stay)
            }
        },
        Key::End => (ViewerState { scroll: last, ..s }, ViewerAction::Stay),
        _ => (s, ViewerAction::Stay),
    }
}

/// A pane's path is a root: empty, `/` or `.`.
pub open spec fn is_root_path(p: Seq<char>) -> bool {
    p.len() == 0 || p == "/"@ || p == "."@
}

/// The parent entry that listings show first.
pub open spec fn is_parent_link(e: FileEntry) -> bool {
    &&& e.name@ == ".."@
    &&& e.size == 0
    &&& e.is_dir
    &&& e.modified is None
    &&& e.permissions is None
}

/// A pane's entries for the listing of `path`: a link to the parent first,
/// unless `path` is a root.
pub fn pane_entries(path: &str, entries: Vec<FileEntry>) -> (r: Vec<FileEntry>)
    ensures
        is_root_path(path@) ==> r@ == entries@,
        !is_root_path(path@) ==> r@.len() == entries@.len() + 1 && is_parent_link(r@[0])
            && r@.drop_first() == entries@,
{
    let is_root = path.is_empty() || str_eq(path, "/") || str_eq(path, ".");
    if is_root {
        entries
    } else {
        let mut r = entries;
        r.insert(
            0,
            FileEntry {
                name: to_string(".."),
                size: 0,
                is_dir: true,
                modified: None,
                permissions: None,
            },
        );
        assert(r@.drop_first() =~= entries@);
        r
    }
}

/// Where entering the selected entry leads.
#[derive(Debug, Clone)]
pub enum Navigation {
    /// No entry is selected.
    NothingSelected,
    /// The entry is a file; the message says so.
    NotADirectory(String),
    /// The entry is the parent link.
    Up,
    /// The entry is a directory at this path.
    Into(String),
}

/// The path of directory `name` inside `dir`: joined with a slash unless
/// `dir` is empty or ends with one.
pub open spec fn joined_dir_spec(dir: Seq<char>, name: Seq<char>) -> Seq<char> {
    if dir.len() == 0 || has_suffix(dir, "/"@) {
        dir + name
    } else {
        dir + "/"@ + name
    }
}

/// Where entering `selected` from the directory `path` leads.
pub open spec fn navigation_spec(path: Seq<char>, selected: Option<FileEntry>, r: Navigation) -> bool {
    match selected {
        None => r is NothingSelected,
        Some(e) => if !e.is_dir {
            r matches Navigation::NotADirectory(m) && m@ == "'"@ + e.name@ + "' is not a directory"@
        } else if e.name@ == ".."@ {
            r is Up
        } else {
            r matches Navigation::Into(p) && p@ == joined_dir_spec(path, e.name@)
        },
    }
}

/// What entering the selected entry of the pane at `path` does.
pub fn navigate_into(path: &str, selected: Option<&FileEntry>) -> (r: Navigation)
    ensures
        navigation_spec(
            path@,
            match selected {
                Some(e) => Some(*e),
                None => None,
            },
            r,
        ),
{
    match selected {
        None => Navigation::NothingSelected,
        Some(entry) => {
            if !entry.is_dir {
                let mut m = to_string("'");
                push_str(&mut m, entry.name.as_str());
                push_str(&mut m, "' is not a directory");
                return Navigation::NotADirectory(m);
            }
            if str_eq(entry.name.as_str(), "..") {
                return Navigation::Up;
            }
            Navigation::Into(joined_dir(path, entry.name.as_str()))
        },
    }
}

/// The directory above `path`: none at the root (`/` or empty); else the
/// path's parent, or the root when it has none or is a single character.
pub open spec fn parent_path_spec(path: Seq<char>) -> Option<Seq<char>> {
    if path == "/"@ || path.len() == 0 {
        None
    } else if byte_len(path) > 1 {
        match path_parent(path) {
            Some(p) => Some(p),
            None => Some("/"@),
        }
    } else {
        Some("/"@)
    }
}

/// The directory going up from `path` leads to; none when already at the
/// root.
pub fn navigate_up(path: &str) -> (r: Option<String>)
    ensures
        match parent_path_spec(path@) {
            Some(p) => r matches Some(s) && s@ == p,
            None => r is None,
        },
{
    if str_eq(path, "/") || path.is_empty() {
        return None;
    }
    proof {
        assert(path@.len() != 0);
    }
    let owned = to_string(path);
    if string_len(&owned) > 1 {
        match parent_dir(path) {
            Some(p) => Some(p),
            None => Some(to_string("/")),
        }
    } else {
        Some(to_string("/"))
    }
}

/// The first entry whose lower-cased name contains `pattern`.
pub open spec fn first_match(names: Seq<Seq<char>>, pattern: Seq<char>, i: int) -> bool {
    &&& 0 <= i < names.len()
    &&& has_substring(lowercase_of(names[i]), pattern)
    &&& forall|j: int| 0 <= j < i ==> !has_substring(lowercase_of(#[trigger] names[j]), pattern)
}

/// The names of entries.
pub open spec fn entry_names(v: Seq<FileEntry>) -> Seq<Seq<char>> {
    v.map_values(|e: FileEntry| e.name@)
}

/// What a search of a listing for the typed `input` finds: nothing for an
/// empty pattern, else the first entry whose name, lower-cased, contains
/// the lower-cased input; the message says what happened.
pub open spec fn search_spec(entries: Seq<FileEntry>, input: Seq<char>, r: (Option<usize>, Seq<char>)) -> bool {
    let p = lowercase_of(input);
    let names = entry_names(entries);
    if p.len() == 0 {
        r.0 is None && r.1 == "Empty search pattern"@
    } else if exists|i: int| first_match(names, p, i) {
        r.0 matches Some(i) && first_match(names, p, i as int) && r.1 == "Found: "@ + names[i as int]
    } else {
        r.0 is None && r.1 == "No match for '"@ + p + "'"@
    }
}

/// Search the entries of a pane for the typed text; the index of the entry
/// found, if any, and the message to show.
pub fn search_entries(entries: &[FileEntry], input: &str) -> (r: (Option<usize>, String))
    ensures
        search_spec(entries@, input@, (r.0, r.1@)),
{
    let pattern = lowercase(input);
    let ghost names = entry_names(entries@);
    if pattern.as_str().is_empty() {
        proof {
            assert(pattern@.len() == 0) by {
                if pattern@.len() != 0 {
                    assert(pattern@.len() > 0);
                }
            }
        }
        return (None, to_string("Empty search pattern"));
    }
    let mut i: usize = 0;
    while i < entries.len()
        invariant
            i <= entries@.len(),
            names == entry_names(entries@),
            pattern@ == lowercase_of(input@),
            pattern@.len() != 0,
            forall|j: int| 0 <= j < i ==> !has_substring(lowercase_of(#[trigger] names[j]), pattern@),
        decreases entries@.len() - i,
    {
        let lower = lowercase(entries[i].name.as_str());
        assert(names[i as int] == entries@[i as int].name@);
        if contains_str(lower.as_str(), pattern.as_str()) {
            assert(first_match(names, pattern@, i as int));
            let mut m = to_string("Found: ");
            push_str(&mut m, entries[i].name.as_str());
            proof {
                assert(pattern@.len() != 0);
                assert(exists|k: int| first_match(names, pattern@, k));
                assert(m@ == "Found: "@ + names[i as int]);
            }
            return (Some(i), m);
        }
        i = i + 1;
    }
    proof {
        assert forall|k: int| !first_match(names, pattern@, k) by {
            if first_match(names, pattern@, k) {
                assert(!has_substring(lowercase_of(names[k]), pattern@));
            }
        }
    }
    let mut m = to_string("No match for '");
    push_str(&mut m, pattern.as_str());
    push_str(&mut m, "'");
    (None, m)
}

/// The size from which a remote file is only opened after confirmation:
/// 40 MiB.
pub const LARGE_REMOTE_FILE: u64 = 40 * 1024 * 1024;

/// What opening the selected entry to view or edit it does.
#[derive(Debug, Clone)]
pub enum OpenDecision {
    /// The entry cannot be opened; the message says why.
    Refuse(String),
    /// The entry is a large remote file: ask first; the message asks.
    Confirm { path: String, size: u64, message: String },
    /// Read the file at this path.
    Read(String),
}

/// The text of a refusal or of a confirmation question.
pub open spec fn open_decision_spec(
    path: Seq<char>,
    selected: Option<FileEntry>,
    is_remote: bool,
    for_edit: bool,
    r: OpenDecision,
) -> bool {
    match selected {
        None => r matches OpenDecision::Refuse(m) && m@ == "No file selected"@,
        Some(e) => if e.name@ == ".."@ {
            r matches OpenDecision::Refuse(m) && m@ == (if for_edit {
                "Cannot edit '..'"@
            } else {
                "Cannot view '..'"@
            })
        } else if e.is_dir {
            r matches OpenDecision::Refuse(m) && m@ == (if for_edit {
                "Cannot edit directory"@
            } else {
                "Cannot view directory"@
            })
        } else if is_remote && e.size > LARGE_REMOTE_FILE {
            r matches OpenDecision::Confirm { path: p, size, message } && p@ == joined_dir_spec(
                path,
                e.name@,
            ) && size == e.size && message@ == "Remote file is large ("@ + dec_str(
                (e.size / 1024 / 1024) as nat,
            ) + (if for_edit {
                " MB). Download/Edit? (y/n)"@
            } else {
                " MB). View? (y/n)"@
            })
        } else {
            r matches OpenDecision::Read(p) && p@ == joined_dir_spec(path, e.name@)
        },
    }
}

/// The path of entry `name` of the directory `dir`.
fn joined_dir(dir: &str, name: &str) -> (r: String)
    ensures
        r@ == joined_dir_spec(dir@, name@),
{
    let mut p = to_string(dir);
    if !(dir.is_empty() || ends_with(dir, "/")) {
        push_str(&mut p, "/");
    }
    push_str(&mut p, name);
    p
}

/// What opening the selected entry of the pane at `path` does, for viewing
/// or (`for_edit`) editing, on a remote backend or not.
pub fn open_selected(path: &str, selected: Option<&FileEntry>, is_remote: bool, for_edit: bool) -> (r:
    OpenDecision)
    ensures
        open_decision_spec(
            path@,
            match selected {
                Some(e) => Some(*e),
                None => None,
            },
            is_remote,
            for_edit,
            r,
        ),
{
    let entry = match selected {
        None => {
            return OpenDecision::Refuse(to_string("No file selected"));
        },
        Some(e) => e,
    };
    if str_eq(entry.name.as_str(), "..") {
        return OpenDecision::Refuse(
            to_string(
                if for_edit {
                    "Cannot edit '..'"
                } else {
                    "Cannot view '..'"
                },
            ),
        );
    }
    if entry.is_dir {
        return OpenDecision::Refuse(
            to_string(
                if for_edit {
                    "Cannot edit directory"
                } else {
                    "Cannot view directory"
                },
            ),
        );
    }
    let p = joined_dir(path, entry.name.as_str());
    if is_remote && entry.size > LARGE_REMOTE_FILE {
        let mut message = to_string("Remote file is large (");
        let mb = decimal(entry.size / 1024 / 1024);
        push_str(&mut message, mb.as_str());
        push_str(
            &mut message,
            if for_edit {
                " MB). Download/Edit? (y/n)"
            } else {
                " MB). View? (y/n)"
            },
        );
        return OpenDecision::Confirm { path: p, size: entry.size, message };
    }
    OpenDecision::Read(p)
}

/// The lines an editor opened on `text` holds: the text's lines, or one
/// empty line when it has none.
pub open spec fn editor_lines_spec(text: Seq<char>) -> Seq<Seq<char>> {
    if lines_of(text).len() == 0 {
        seq![Seq::<char>::empty()]
    } else {
        lines_of(text)
    }
}

/// The lines of a file opened in the editor.
pub fn editor_lines(text: &str) -> (r: Vec<String>)
    ensures
        r@.map_values(|l: String| l@) == editor_lines_spec(text@),
{
    let ls = lines(text);
    if ls.len() == 0 {
        let mut v: Vec<String> = Vec::new();
        v.push(String::new());
        assert(v@.map_values(|l: String| l@) =~= seq![Seq::<char>::empty()]);
        v
    } else {
        ls
    }
}

/// The name an editor opened on the file at `path` shows: the part after
/// the last `/`.
pub fn opened_file_name(path: &str) -> (r: String)
    ensures
        r@ == split_on(path@, '/').last(),
{
    let parts = split_char(path, '/');
    proof {
        lemma_split_on_nonempty(path@, '/');
        assert(parts@.map_values(|p: String| p@)[parts@.len() - 1] == parts@[parts@.len() - 1]@);
    }
    let last = parts.len() - 1;
    to_string(parts[last].as_str())
}

/// An editor opened on `text`, the file `filename`: its lines, the cursor
/// at the start, nothing cut and nothing modified; and the message shown,
/// which for a read-only view says how to close it.
pub fn opened_editor(text: &str, filename: &str, readonly: bool) -> (r: (TextEditor, String))
    ensures
        line_texts(r.0.content@) == editor_lines_spec(text@),
        r.0.cursor_row == 0,
        r.0.cursor_col == 0,
        r.0.scroll_offset == 0,
        r.0.filename@ == filename@,
        !r.0.modified,
        r.0.cut_buffer is None,
        r.1@ == if readonly {
            "Viewing: "@ + filename@ + " (readonly) - q/Esc to close"@
        } else {
            "Editing: "@ + filename@ + " - ^O: WriteOut, ^X: Exit, ^K: Cut, ^U: Uncut"@
        },
{
    let content = editor_lines(text);
    let editor = TextEditor {
        content,
        cursor_row: 0,
        cursor_col: 0,
        scroll_offset: 0,
        filename: to_string(filename),
        modified: false,
        cut_buffer: None,
    };
    let message = if readonly {
        let mut m = to_string("Viewing: ");
        push_str(&mut m, filename);
        push_str(&mut m, " (readonly) - q/Esc to close");
        m
    } else {
        editing_message(filename)
    };
    (editor, message)
}

/// The message shown while editing `filename`, with the editor's keys; it
/// is shown again when a search in the editor is abandoned.
pub fn editing_message(filename: &str) -> (r: String)
    ensures
        r@ == "Editing: "@ + filename@ + " - ^O: WriteOut, ^X: Exit, ^K: Cut, ^U: Uncut"@,
{
    let mut m = to_string("Editing: ");
    push_str(&mut m, filename);
    push_str(&mut m, " - ^O: WriteOut, ^X: Exit, ^K: Cut, ^U: Uncut");
    m
}

/// The message after searching the editor's text for `pattern`.
pub fn editor_search_message(pattern: &str, found: bool) -> (r: String)
    ensures
        r@ == (if found {
            "Found '"@
        } else {
            "Not found '"@
        }) + pattern@ + "'"@,
{
    let mut m = to_string(
        if found {
            "Found '"
        } else {
            "Not found '"
        },
    );
    push_str(&mut m, pattern);
    push_str(&mut m, "'");
    m
}

/// The message after a file could not be read for viewing or editing.
pub fn read_failed_message(error: &str) -> (r: String)
    ensures
        r@ == "Failed to read file: "@ + error@,
{
    let mut m = to_string("Failed to read file: ");
    push_str(&mut m, error);
    m
}

/// What a key does while a large remote file waits for confirmation:
/// `y` or Enter loads it, `n` or Esc cancels, anything else waits.
#[derive(Debug, Clone, Copy, PartialEq, Eq, Structural)]
pub enum LargeLoadAnswer {
    Load,
    Cancel,
    Wait,
}

/// The answer a key gives to the large file question.
pub fn large_load_answer(key: Key) -> (r: LargeLoadAnswer)
    ensures
        r == (match key {
            Key::Char('y') | Key::Enter => LargeLoadAnswer::Load,
            Key::Char('n') | Key::Esc => LargeLoadAnswer::Cancel,
            _ => LargeLoadAnswer::Wait,
        }),
{
    match key {
        Key::Char('y') | Key::Enter => LargeLoadAnswer::Load,
        Key::Char('n') | Key::Esc => LargeLoadAnswer::Cancel,
        _ => LargeLoadAnswer::Wait,
    }
}

/// The message of the viewer streaming a file: how far into the file the
/// chunk at `offset` starts, in whole percent of `total_size`.
pub open spec fn stream_message_spec(offset: u64, total_size: u64, path: Seq<char>) -> Seq<char> {
    let denominator: nat = if total_size >= 1 {
        total_size as nat
    } else {
        1
    };
    "Viewing (Stream "@ + dec_str(((offset * 100) as nat) / denominator) + "%): "@ + path
        + " - q/Esc to close"@
}

/// The message shown after loading the chunk at `offset` of `path`.
pub fn stream_message(offset: u64, total_size: u64, path: &str) -> (r: String)
    requires
        offset * 100 <= u64::MAX,
    ensures
        r@ == stream_message_spec(offset, total_size, path@),
{
    let denominator = if total_size >= 1 {
        total_size
    } else {
        1
    };
    let mut m = to_string("Viewing (Stream ");
    let pct = decimal((offset * 100) / denominator);
    push_str(&mut m, pct.as_str());
    push_str(&mut m, "%): ");
    push_str(&mut m, path);
    push_str(&mut m, " - q/Esc to close");
    m
}

/// What a finished background task leaves in the status line.
pub open spec fn task_message_spec(outcome: Result<Seq<char>, Seq<char>>, joined: bool) -> Seq<char> {
    if !joined {
        match outcome {
            Ok(m) => "✗ Task failed: "@ + m,
            Err(m) => "✗ Task failed: "@ + m,
        }
    } else {
        match outcome {
            Ok(m) => m,
            Err(e) => "✗ Error: "@ + e,
        }
    }
}

/// The status message for a background task that finished with `outcome`
/// (its message, or its error's text); when the task could not be joined,
/// `outcome` holds the join error's text. The panes are refreshed only
/// after a success.
pub fn task_message(outcome: Result<String, String>, joined: bool) -> (r: (String, bool))
    ensures
        r.0@ == task_message_spec(
            match outcome {
                Ok(m) => Ok(m@),
                Err(e) => Err(e@),
            },
            joined,
        ),
        r.1 == (joined && outcome is Ok),
{
    if !joined {
        let text = match outcome {
            Ok(m) => m,
            Err(m) => m,
        };
        let mut s = to_string("✗ Task failed: ");
        push_str(&mut s, text.as_str());
        return (s, false);
    }
    match outcome {
        Ok(m) => (m, true),
        Err(e) => {
            let mut s = to_string("✗ Error: ");
            push_str(&mut s, e.as_str());
            (s, false)
        },
    }
}

/// What starting a rename of the selected entry does.
pub open spec fn rename_start_spec(selected: Option<FileEntry>, r: Result<Seq<char>, Seq<char>>) -> bool {
    match selected {
        None => r == Err::<Seq<char>, Seq<char>>("No file selected"@),
        Some(e) => if e.name@ == ".."@ {
            r == Err::<Seq<char>, Seq<char>>("Cannot rename '..'"@)
        } else {
            r == Ok::<Seq<char>, Seq<char>>(e.name@)
        },
    }
}

/// The name a rename starts from, or the message refusing it.
pub fn rename_start(selected: Option<&FileEntry>) -> (r: Result<String, String>)
    ensures
        rename_start_spec(
            match selected {
                Some(e) => Some(*e),
                None => None,
            },
            match r {
                Ok(n) => Ok(n@),
                Err(m) => Err(m@),
            },
        ),
{
    match selected {
        None => Err(to_string("No file selected")),
        Some(e) => {
            if str_eq(e.name.as_str(), "..") {
                Err(to_string("Cannot rename '..'"))
            } else {
                Ok(e.name.clone())
            }
        },
    }
}

/// What confirming a rename does.
#[derive(Debug, Clone)]
pub enum RenameDecision {
    /// The new name is empty: the input stays open with this message.
    Empty(String),
    /// The name did not change: the input closes with this message.
    Unchanged(String),
    /// Rename `old_path` to `new_path`; `message` is shown once done.
    Rename { old_path: String, new_path: String, message: String },
}

/// The rename asked for in the directory `base` from the name `old_name`
/// to the typed `input`, trimmed.
pub open spec fn rename_spec(base: Seq<char>, input: Seq<char>, old_name: Seq<char>, r: RenameDecision) -> bool {
    let n = trim_of(input);
    if n.len() == 0 {
        r matches RenameDecision::Empty(m) && m@ == "Name cannot be empty"@
    } else if n == old_name {
        r matches RenameDecision::Unchanged(m) && m@ == "Name unchanged"@
    } else {
        r matches RenameDecision::Rename { old_path, new_path, message } && old_path@
            == joined_dir_spec(base, old_name) && new_path@ == joined_dir_spec(base, n)
            && message@ == "Renamed '"@ + old_name + "' to '"@ + n + "'"@
    }
}

/// The rename that confirming the input asks for.
pub fn rename_request(base: &str, input: &str, old_name: &str) -> (r: RenameDecision)
    ensures
        rename_spec(base@, input@, old_name@, r),
{
    let new_name = trim(input);
    if new_name.is_empty() {
        return RenameDecision::Empty(to_string("Name cannot be empty"));
    }
    if str_eq(new_name, old_name) {
        return RenameDecision::Unchanged(to_string("Name unchanged"));
    }
    let mut message = to_string("Renamed '");
    push_str(&mut message, old_name);
    push_str(&mut message, "' to '");
    push_str(&mut message, new_name);
    push_str(&mut message, "'");
    RenameDecision::Rename {
        old_path: joined_dir(base, old_name),
        new_path: joined_dir(base, new_name),
        message,
    }
}

/// What the copy key does.
#[derive(Debug, Clone)]
pub enum CopyDecision {
    /// Nothing is started; the message says why.
    Refuse(String),
    /// Copy `source` to `dest` in the background, showing `message` and the
    /// initial `progress`; `done` is shown once the copy succeeds.
    Start { source: String, dest: String, message: String, done: String, progress: Progress },
}

/// The copy of the selected entry of the pane at `source_dir` into the
/// pane at `dest_dir`: refused while another runs or without a selection.
pub open spec fn copy_spec(
    busy: bool,
    source_dir: Seq<char>,
    dest_dir: Seq<char>,
    selected: Option<FileEntry>,
    r: CopyDecision,
) -> bool {
    if busy {
        r matches CopyDecision::Refuse(m) && m@ == "Copy already in progress..."@
    } else {
        match selected {
            None => r matches CopyDecision::Refuse(m) && m@ == "No entry selected"@,
            Some(e) => r matches CopyDecision::Start { source, dest, message, done, progress } && {
                &&& source@ == joined_dir_spec(source_dir, e.name@)
                &&& dest@ == joined_dir_spec(dest_dir, e.name@)
                &&& message@ == "Copying "@ + e.name@ + "..."@
                &&& done@ == "✓ Copied "@ + e.name@ + " successfully"@
                &&& progress.stage == ProgressStage::Transferring
                &&& progress.current == 0
                &&& progress.total == e.size
                &&& progress.current_file@ == e.name@
                &&& progress.files_done == 0
                &&& progress.total_files == (if e.is_dir {
                    0usize
                } else {
                    1usize
                })
            },
        }
    }
}

/// What pressing the copy key does.
pub fn copy_request(busy: bool, source_dir: &str, dest_dir: &str, selected: Option<&FileEntry>) -> (r:
    CopyDecision)
    ensures
        copy_spec(
            busy,
            source_dir@,
            dest_dir@,
            match selected {
                Some(e) => Some(*e),
                None => None,
            },
            r,
        ),
{
    if busy {
        return CopyDecision::Refuse(to_string("Copy already in progress..."));
    }
    let e = match selected {
        None => {
            return CopyDecision::Refuse(to_string("No entry selected"));
        },
        Some(e) => e,
    };
    let name = e.name.as_str();
    let mut message = to_string("Copying ");
    push_str(&mut message, name);
    push_str(&mut message, "...");
    let mut done = to_string("✓ Copied ");
    push_str(&mut done, name);
    push_str(&mut done, " successfully");
    CopyDecision::Start {
        source: joined_dir(source_dir, name),
        dest: joined_dir(dest_dir, name),
        message,
        done,
        progress: Progress {
            stage: ProgressStage::Transferring,
            current: 0,
            total: e.size,
            current_file: e.name.clone(),
            files_done: 0,
            total_files: if e.is_dir {
                0
            } else {
                1
            },
        },
    }
}

/// The move of the selected entry of the pane at `source_dir` into the
/// pane at `dest_dir`: refused while another operation runs, without a
/// selection, or for the parent link.
pub open spec fn move_spec(
    busy: bool,
    source_dir: Seq<char>,
    dest_dir: Seq<char>,
    selected: Option<FileEntry>,
    r: CopyDecision,
) -> bool {
    if busy {
        r matches CopyDecision::Refuse(m) && m@ == "Operation already in progress..."@
    } else {
        match selected {
            None => r matches CopyDecision::Refuse(m) && m@ == "No entry selected"@,
            Some(e) => if e.name@ == ".."@ {
                r matches CopyDecision::Refuse(m) && m@ == "Cannot move '..'"@
            } else {
                r matches CopyDecision::Start { source, dest, message, done, progress } && {
                    &&& source@ == joined_dir_spec(source_dir, e.name@)
                    &&& dest@ == joined_dir_spec(dest_dir, e.name@)
                    &&& message@ == "🔄 Moving "@ + e.name@ + "..."@
                    &&& done@ == "✓ Moved "@ + e.name@ + " successfully"@
                    &&& progress.stage == ProgressStage::Transferring
                    &&& progress.current == 0
                    &&& progress.total == e.size
                    &&& progress.current_file@ == e.name@
                    &&& progress.files_done == 0
                    &&& progress.total_files == (if e.is_dir {
                        0usize
                    } else {
                        1usize
                    })
                }
            },
        }
    }
}

/// What pressing the move key does.
pub fn move_request(busy: bool, source_dir: &str, dest_dir: &str, selected: Option<&FileEntry>) -> (r:
    CopyDecision)
    ensures
        move_spec(
            busy,
            source_dir@,
            dest_dir@,
            match selected {
                Some(e) => Some(*e),
                None => None,
            },
            r,
        ),
{
    if busy {
        return CopyDecision::Refuse(to_string("Operation already in progress..."));
    }
    let e = match selected {
        None => {
            return CopyDecision::Refuse(to_string("No entry selected"));
        },
        Some(e) => e,
    };
    if str_eq(e.name.as_str(), "..") {
        return CopyDecision::Refuse(to_string("Cannot move '..'"));
    }
    let name = e.name.as_str();
    let mut message = to_string("🔄 Moving ");
    push_str(&mut message, name);
    push_str(&mut message, "...");
    let mut done = to_string("✓ Moved ");
    push_str(&mut done, name);
    push_str(&mut done, " successfully");
    CopyDecision::Start {
        source: joined_dir(source_dir, name),
        dest: joined_dir(dest_dir, name),
        message,
        done,
        progress: Progress {
            stage: ProgressStage::Transferring,
            current: 0,
            total: e.size,
            current_file: e.name.clone(),
            files_done: 0,
            total_files: if e.is_dir {
                0
            } else {
                1
            },
        },
    }
}

/// The directory the make-directory key creates in the pane at `dir`: one
/// named `NewFolder`.
pub fn new_folder_path(dir: &str) -> (r: String)
    ensures
        r@ == joined_dir_spec(dir@, "NewFolder"@),
{
    joined_dir(dir, "NewFolder")
}

/// The status message after creating the new folder finished with
/// `outcome` (the error's text on failure); the pane is refreshed only
/// after a success.
pub fn new_folder_message(outcome: Result<(), String>) -> (r: (String, bool))
    ensures
        r.0@ == (match outcome {
            Ok(_) => "✓ Created directory: NewFolder"@,
            Err(e) => "❌ Failed to create directory: "@ + e@,
        }),
        r.1 == outcome is Ok,
{
    match outcome {
        Ok(_) => (to_string("✓ Created directory: NewFolder"), true),
        Err(e) => {
            let mut s = to_string("❌ Failed to create directory: ");
            push_str(&mut s, e.as_str());
            (s, false)
        },
    }
}

/// What a key does in the line editor.
#[derive(Debug, Clone, Copy, PartialEq, Eq, Structural)]
pub enum EditorCommand {
    /// Leave the editor; `discarded` when there were unsaved changes.
    Close { discarded: bool },
    /// Write the text back.
    Save,
    /// A save asked for in a read-only editor.
    SaveRefused,
    /// Start searching the text.
    StartSearch,
    /// Cut the cursor's line.
    Cut,
    /// Paste the cut line.
    Paste,
    /// Move the cursor.
    Move,
    /// Delete the character before the cursor.
    DeleteBack,
    /// Break the line at the cursor.
    NewLine,
    /// Type a character.
    Type(char),
    /// Nothing.
    Ignore,
}

/// What `key` (with Ctrl held when `ctrl`) does in an editor that is
/// `readonly` and has unsaved changes when `modified`: Esc, Ctrl+X, Ctrl+Q
/// (or a plain `q` when read-only) leave; Ctrl+O and Ctrl+S save; Ctrl+K
/// and Ctrl+U cut and paste lines; Ctrl+W searches; the arrows, Home, End
/// and the page keys move; Backspace, Enter and other characters edit.
/// A read-only editor refuses to save and ignores editing keys.
pub open spec fn editor_command_spec(key: Key, ctrl: bool, readonly: bool, modified: bool) -> EditorCommand {
    let edit = |cmd: EditorCommand|
        if readonly {
            EditorCommand::Ignore
        } else {
            cmd
        };
    match key {
        Key::Esc => EditorCommand::Close { discarded: modified },
        Key::Char('q') if readonly || ctrl => EditorCommand::Close { discarded: modified },
        Key::Char('x') if ctrl => EditorCommand::Close { discarded: modified },
        Key::Char('o') if ctrl => if readonly {
            EditorCommand::SaveRefused
        } else {
            EditorCommand::Save
        },
        Key::Char('s') if ctrl => if readonly {
            EditorCommand::SaveRefused
        } else {
            EditorCommand::Save
        },
        Key::Char('k') if ctrl => edit(EditorCommand::Cut),
        Key::Char('u') if ctrl => edit(EditorCommand::Paste),
        Key::Char('w') if ctrl => EditorCommand::StartSearch,
        Key::Up | Key::Down | Key::Left | Key::Right | Key::Home | Key::End | Key::PageUp
        | Key::PageDown => EditorCommand::Move,
        Key::Backspace => edit(EditorCommand::DeleteBack),
        Key::Enter => edit(EditorCommand::NewLine),
        Key::Char(c) => edit(EditorCommand::Type(c)),
        _ => EditorCommand::Ignore,
    }
}

/// What a key does in the line editor.
pub fn editor_command(key: Key, ctrl: bool, readonly: bool, modified: bool) -> (r: EditorCommand)
    ensures
        r == editor_command_spec(key, ctrl, readonly, modified),
{
    let close = EditorCommand::Close { discarded: modified };
    match key {
        Key::Esc => close,
        Key::Char('q') if readonly || ctrl => close,
        Key::Char('x') if ctrl => close,
        Key::Char('o') if ctrl => if readonly {
            EditorCommand::SaveRefused
        } else {
            EditorCommand::Save
        },
        Key::Char('s') if ctrl => if readonly {
            EditorCommand::SaveRefused
        } else {
            EditorCommand::Save
        },
        Key::Char('k') if ctrl => if readonly {
            EditorCommand::Ignore
        } else {
            EditorCommand::Cut
        },
        Key::Char('u') if ctrl => if readonly {
            EditorCommand::Ignore
        } else {
            EditorCommand::Paste
        },
        Key::Char('w') if ctrl => EditorCommand::StartSearch,
        Key::Up | Key::Down | Key::Left | Key::Right | Key::Home | Key::End | Key::PageUp
        | Key::PageDown => EditorCommand::Move,
        Key::Backspace => if readonly {
            EditorCommand::Ignore
        } else {
            EditorCommand::DeleteBack
        },
        Key::Enter => if readonly {
            EditorCommand::Ignore
        } else {
            EditorCommand::NewLine
        },
        Key::Char(c) => if readonly {
            EditorCommand::Ignore
        } else {
            EditorCommand::Type(c)
        },
        _ => EditorCommand::Ignore,
    }
}

/// The status message an editor command sets, if any: leaving with unsaved
/// changes says they were discarded, a refused save says why, and a search
/// prompts for the text.
pub fn editor_message(cmd: EditorCommand) -> (r: Option<String>)
    ensures
        match cmd {
            EditorCommand::Close { discarded: true } => r matches Some(m) && m@ == "Changes discarded"@,
            EditorCommand::SaveRefused => r matches Some(m) && m@ == "Cannot save: file is readonly"@,
            EditorCommand::StartSearch => r matches Some(m) && m@ == "Search (Where Is): "@,
            _ => r is None,
        },
{
    match cmd {
        EditorCommand::Close { discarded: true } => Some(to_string("Changes discarded")),
        EditorCommand::SaveRefused => Some(to_string("Cannot save: file is readonly")),
        EditorCommand::StartSearch => Some(to_string("Search (Where Is): ")),
        _ => None,
    }
}

/// Where the editor's text is saved, in the pane at `dir`, and the text to
/// write: its lines joined by newlines.
pub fn editor_save_request(dir: &str, filename: &str, lines: &[String]) -> (r: (String, String))
    ensures
        r.0@ == joined_dir_spec(dir@, filename@),
        r.1@ == joined(lines@.map_values(|l: String| l@), "\n"@),
{
    let path = joined_dir(dir, filename);
    let mut text = String::new();
    let mut i: usize = 0;
    while i < lines.len()
        invariant
            i <= lines@.len(),
            text@ == joined(lines@.take(i as int).map_values(|l: String| l@), "\n"@),
        decreases lines@.len() - i,
    {
        let ghost before = lines@.take(i as int).map_values(|l: String| l@);
        let ghost after = lines@.take(i + 1).map_values(|l: String| l@);
        assert(after.drop_last() =~= before);
        assert(after.last() == lines@[i as int]@);
        if i > 0 {
            push_str(&mut text, "\n");
        }
        push_str(&mut text, lines[i].as_str());
        i = i + 1;
    }
    assert(lines@.take(lines@.len() as int) =~= lines@);
    (path, text)
}

/// The status message after a save of `filename` finished with `outcome`
/// (the error's text on failure); only a success clears the editor's
/// modified mark and refreshes the pane.
pub fn editor_save_message(filename: &str, outcome: Result<(), String>) -> (r: (String, bool))
    ensures
        r.0@ == (match outcome {
            Ok(_) => "Saved '"@ + filename@ + "'"@,
            Err(e) => "Save failed: "@ + e@,
        }),
        r.1 == outcome is Ok,
{
    match outcome {
        Ok(_) => {
            let mut s = to_string("Saved '");
            push_str(&mut s, filename);
            push_str(&mut s, "'");
            (s, true)
        },
        Err(e) => {
            let mut s = to_string("Save failed: ");
            push_str(&mut s, e.as_str());
            (s, false)
        },
    }
}

/// The key ends the program, whatever the mode: `q`, or Ctrl+C.
pub fn quit_key(key: Key, ctrl: bool) -> (r: bool)
    ensures
        r == (key == Key::Char('q') || (key == Key::Char('c') && ctrl)),
{
    match key {
        Key::Char('q') => true,
        Key::Char('c') => ctrl,
        _ => false,
    }
}

/// What a key does while browsing the panes.
#[derive(Debug, Clone, Copy, PartialEq, Eq, Structural)]
pub enum NormalAction {
    SwitchPane,
    SelectPrevious,
    SelectNext,
    Open,
    GoUp,
    Copy,
    Move,
    Rename,
    View,
    Edit,
    DiskAnalyzer,
    MakeDir,
    Delete,
    Search,
    ToggleSync,
    SyncNow,
    SyncDryRun,
    ChooseStorage,
    HashMenu,
    Ignore,
}

/// What `key` (with Ctrl held when `ctrl`) does while browsing: Tab
/// switches panes, the arrows move the selection, Enter opens and
/// Backspace goes up; F2 renames, F3 views, F4 edits, F5 copies, F6 moves,
/// F7 makes a directory, F8 deletes, F9 analyzes disk usage; Ctrl+F
/// searches, Ctrl+S toggles syncing, Ctrl+Y syncs now, Ctrl+D previews a
/// sync, Ctrl+N chooses the pane's storage and Ctrl+H opens the hash menu.
pub open spec fn normal_action_spec(key: Key, ctrl: bool) -> NormalAction {
    match key {
        Key::Tab => NormalAction::SwitchPane,
        Key::Up => NormalAction::SelectPrevious,
        Key::Down => NormalAction::SelectNext,
        Key::Enter => NormalAction::Open,
        Key::Backspace => NormalAction::GoUp,
        Key::F(2) => NormalAction::Rename,
        Key::F(3) => NormalAction::View,
        Key::F(4) => NormalAction::Edit,
        Key::F(5) => NormalAction::Copy,
        Key::F(6) => NormalAction::Move,
        Key::F(7) => NormalAction::MakeDir,
        Key::F(8) => NormalAction::Delete,
        Key::F(9) => NormalAction::DiskAnalyzer,
        Key::Char('f') if ctrl => NormalAction::Search,
        Key::Char('s') if ctrl => NormalAction::ToggleSync,
        Key::Char('y') if ctrl => NormalAction::SyncNow,
        Key::Char('d') if ctrl => NormalAction::SyncDryRun,
        Key::Char('n') if ctrl => NormalAction::ChooseStorage,
        Key::Char('h') if ctrl => NormalAction::HashMenu,
        _ => NormalAction::Ignore,
    }
}

/// What a key does while browsing the panes.
pub fn normal_action(key: Key, ctrl: bool) -> (r: NormalAction)
    ensures
        r == normal_action_spec(key, ctrl),
{
    match key {
        Key::Tab => NormalAction::SwitchPane,
        Key::Up => NormalAction::SelectPrevious,
        Key::Down => NormalAction::SelectNext,
        Key::Enter => NormalAction::Open,
        Key::Backspace => NormalAction::GoUp,
        Key::F(2) => NormalAction::Rename,
        Key::F(3) => NormalAction::View,
        Key::F(4) => NormalAction::Edit,
        Key::F(5) => NormalAction::Copy,
        Key::F(6) => NormalAction::Move,
        Key::F(7) => NormalAction::MakeDir,
        Key::F(8) => NormalAction::Delete,
        Key::F(9) => NormalAction::DiskAnalyzer,
        Key::Char('f') if ctrl => NormalAction::Search,
        Key::Char('s') if ctrl => NormalAction::ToggleSync,
        Key::Char('y') if ctrl => NormalAction::SyncNow,
        Key::Char('d') if ctrl => NormalAction::SyncDryRun,
        Key::Char('n') if ctrl => NormalAction::ChooseStorage,
        Key::Char('h') if ctrl => NormalAction::HashMenu,
        _ => NormalAction::Ignore,
    }
}

/// The names of the hash menu.
pub open spec fn hash_menu_names() -> Seq<Seq<char>> {
    seq![
        "🔍 Scan - Generate hash database"@,
        "✓ Verify - Check files against database"@,
        "🔄 Dedup - Find duplicate files"@,
        "⚖ Compare - Compare two hash databases"@,
        "⏱ Benchmark - Test hash algorithm speeds"@,
        "📋 List Algorithms - Show available hash algorithms"@
    ]
}

/// The hash menu, and the prompt shown with it.
pub fn hash_menu() -> (r: (Vec<FileEntry>, String))
    ensures
        menu_of(r.0@, hash_menu_names()),
        r.1@ == "Hash Menu: ↑/↓ navigate, Enter select, Esc cancel"@,
{
    let mut v: Vec<FileEntry> = Vec::new();
    v.push(menu_line(to_string("🔍 Scan - Generate hash database")));
    v.push(menu_line(to_string("✓ Verify - Check files against database")));
    v.push(menu_line(to_string("🔄 Dedup - Find duplicate files")));
    v.push(menu_line(to_string("⚖ Compare - Compare two hash databases")));
    v.push(menu_line(to_string("⏱ Benchmark - Test hash algorithm speeds")));
    v.push(menu_line(to_string("📋 List Algorithms - Show available hash algorithms")));
    (v, to_string("Hash Menu: ↑/↓ navigate, Enter select, Esc cancel"))
}

/// What a line of the hash menu asks for.
#[derive(Debug, Clone, Copy, PartialEq, Eq, Structural)]
pub enum HashMenuChoice {
    Scan,
    Verify,
    Dedup,
    Benchmark,
    Compare,
    ListAlgorithms,
    Nothing,
}

/// The hash menu line named `name` asks for the first of scanning,
/// verifying, finding duplicates, benchmarking, comparing and listing the
/// algorithms whose word it holds.
pub open spec fn hash_menu_choice_spec(name: Seq<char>) -> HashMenuChoice {
    if has_substring(name, "Scan"@) {
        HashMenuChoice::Scan
    } else if has_substring(name, "Verify"@) {
        HashMenuChoice::Verify
    } else if has_substring(name, "Dedup"@) {
        HashMenuChoice::Dedup
    } else if has_substring(name, "Benchmark"@) {
        HashMenuChoice::Benchmark
    } else if has_substring(name, "Compare"@) {
        HashMenuChoice::Compare
    } else if has_substring(name, "List Algorithms"@) {
        HashMenuChoice::ListAlgorithms
    } else {
        HashMenuChoice::Nothing
    }
}

/// What the hash menu line named `name` asks for.
pub fn hash_menu_choice(name: &str) -> (r: HashMenuChoice)
    ensures
        r == hash_menu_choice_spec(name@),
{
    if contains_str(name, "Scan") {
        HashMenuChoice::Scan
    } else if contains_str(name, "Verify") {
        HashMenuChoice::Verify
    } else if contains_str(name, "Dedup") {
        HashMenuChoice::Dedup
    } else if contains_str(name, "Benchmark") {
        HashMenuChoice::Benchmark
    } else if contains_str(name, "Compare") {
        HashMenuChoice::Compare
    } else if contains_str(name, "List Algorithms") {
        HashMenuChoice::ListAlgorithms
    } else {
        HashMenuChoice::Nothing
    }
}

/// The work a hash menu line starts in the background.
#[derive(Debug, Clone, PartialEq, Eq)]
pub enum HashTask {
    /// Hash the directory into the database `output`.
    Scan { dir: String, output: String },
    /// Check the directory against the database `database`.
    Verify { dir: String, database: String },
    /// Look for duplicate files in the directory.
    Dedup { dir: String },
    /// Time the algorithms on generated data.
    Benchmark,
}

/// The database a directory's hashes are kept in: `hashes.txt` in it.
pub open spec fn hash_database_spec(dir: Seq<char>) -> Seq<char> {
    dir + "/hashes.txt"@
}

/// The directory the hash menu works in: the pane's, or the home directory
/// when the pane shows the menu at the root.
pub open spec fn hash_menu_dir_spec(current: Seq<char>, home: Seq<char>) -> Seq<char> {
    if current.len() == 0 || current == "/"@ {
        home
    } else {
        current
    }
}

/// The line of the algorithm list for the description `d` (name, digest
/// bits, post-quantum, cryptographic): its name and its digest size in
/// bits.
pub open spec fn algorithm_entry(d: (Seq<char>, usize, bool, bool)) -> Seq<char> {
    d.0 + " ("@ + dec_str(d.1 as nat) + "b)"@
}

/// The status line listing the algorithms described by `table`.
pub open spec fn algorithms_message_spec(table: Seq<(Seq<char>, usize, bool, bool)>) -> Seq<char> {
    "Algorithms: "@ + joined(table.map_values(|d: (Seq<char>, usize, bool, bool)| algorithm_entry(d)), ", "@)
}

/// What choosing `choice` in the hash menu does, in the directory `dir`
/// (`db_exists` tells whether its database exists): the status message and
/// the background work to start, if any. Verifying needs the database.
pub open spec fn hash_menu_start_spec(
    choice: HashMenuChoice,
    dir: Seq<char>,
    db_exists: bool,
    r: (Option<Seq<char>>, Option<HashTask>),
) -> bool {
    let db = hash_database_spec(dir);
    match choice {
        HashMenuChoice::Scan => {
            &&& r.0 == Some("Scanning "@ + dir + "..."@)
            &&& r.1 matches Some(HashTask::Scan { dir: d, output: o })
            &&& d@ == dir
            &&& o@ == db
        },
        HashMenuChoice::Verify => if db_exists {
            &&& r.0 == Some("Verifying "@ + dir + "..."@)
            &&& r.1 matches Some(HashTask::Verify { dir: d, database: b })
            &&& d@ == dir
            &&& b@ == db
        } else {
            r.0 == Some("No database found at "@ + db + ". Run Scan first."@) && r.1 is None
        },
        HashMenuChoice::Dedup => {
            &&& r.0 == Some("Finding duplicates in "@ + dir + "..."@)
            &&& r.1 matches Some(HashTask::Dedup { dir: d })
            &&& d@ == dir
        },
        HashMenuChoice::Benchmark => r.0 == Some("Running benchmarks (10MB data)..."@) && r.1
            == Some(HashTask::Benchmark),
        HashMenuChoice::Compare => r.0 == Some(
            "Compare: Select two hash database files to compare. Use F3 to view."@,
        ) && r.1 is None,
        HashMenuChoice::ListAlgorithms => r.0 == Some(algorithms_message_spec(algorithm_table())) && r.1 is None,
        HashMenuChoice::Nothing => r.0 is None && r.1 is None,
    }
}

/// The directory the hash menu works in.
pub fn hash_menu_dir(current: &str, home: &str) -> (r: String)
    ensures
        r@ == hash_menu_dir_spec(current@, home@),
{
    if current.is_empty() || str_eq(current, "/") {
        to_string(home)
    } else {
        to_string(current)
    }
}

/// The database of the directory `dir`.
pub fn hash_database(dir: &str) -> (r: String)
    ensures
        r@ == hash_database_spec(dir@),
{
    let mut s = to_string(dir);
    push_str(&mut s, "/hashes.txt");
    s
}

/// `prefix`, `middle` and `suffix` one after the other.
fn framed(prefix: &str, middle: &str, suffix: &str) -> (r: String)
    ensures
        r@ == prefix@ + middle@ + suffix@,
{
    let mut s = to_string(prefix);
    push_str(&mut s, middle);
    push_str(&mut s, suffix);
    s
}

/// The status line listing the algorithms.
pub fn algorithms_message(infos: &[AlgorithmInfo]) -> (r: String)
    ensures
        r@ == algorithms_message_spec(infos@.map_values(|i: AlgorithmInfo| info_fields(i))),
{
    let mut text = String::new();
    let mut i: usize = 0;
    while i < infos.len()
        invariant
            i <= infos@.len(),
            text@ == joined(
                infos@.take(i as int).map_values(|a: AlgorithmInfo| algorithm_entry(info_fields(a))),
                ", "@,
            ),
        decreases infos@.len() - i,
    {
        let ghost before = infos@.take(i as int).map_values(|a: AlgorithmInfo| algorithm_entry(info_fields(a)));
        let ghost after = infos@.take(i + 1).map_values(|a: AlgorithmInfo| algorithm_entry(info_fields(a)));
        assert(after.drop_last() =~= before);
        assert(after.last() == algorithm_entry(info_fields(infos@[i as int])));
        if i > 0 {
            push_str(&mut text, ", ");
        }
        let bits = decimal(infos[i].output_bits as u64);
        push_str(&mut text, infos[i].name.as_str());
        push_str(&mut text, " (");
        push_str(&mut text, bits.as_str());
        push_str(&mut text, "b)");
        i = i + 1;
    }
    assert(infos@.take(infos@.len() as int) =~= infos@);
    assert(infos@.map_values(|a: AlgorithmInfo| algorithm_entry(info_fields(a))) =~= infos@.map_values(
        |i: AlgorithmInfo| info_fields(i),
    ).map_values(|d: (Seq<char>, usize, bool, bool)| algorithm_entry(d)));
    let mut s = to_string("Algorithms: ");
    push_str(&mut s, text.as_str());
    s
}

/// What choosing `choice` in the hash menu does in the directory `dir`,
/// whose database exists when `db_exists`: the status message and the
/// background work to start.
pub fn hash_menu_start(choice: HashMenuChoice, dir: &str, db_exists: bool) -> (r: (Option<String>, Option<HashTask>))
    ensures
        hash_menu_start_spec(
            choice,
            dir@,
            db_exists,
            (
                match r.0 {
                    Some(m) => Some(m@),
                    None => None,
                },
                r.1,
            ),
        ),
{
    let listed = HashRegistry::list_algorithms();
    let db = hash_database(dir);
    let r = match choice {
        HashMenuChoice::Scan => (Some(framed("Scanning ", dir, "...")), Some(HashTask::Scan { dir: to_string(dir), output: db })),
        HashMenuChoice::Verify => if db_exists {
            (Some(framed("Verifying ", dir, "...")), Some(HashTask::Verify { dir: to_string(dir), database: db }))
        } else {
            (Some(framed("No database found at ", db.as_str(), ". Run Scan first.")), None)
        },
        HashMenuChoice::Dedup => (Some(framed("Finding duplicates in ", dir, "...")), Some(HashTask::Dedup { dir: to_string(dir) })),
        HashMenuChoice::Benchmark => (Some(to_string("Running benchmarks (10MB data)...")), Some(HashTask::Benchmark)),
        HashMenuChoice::Compare => (
            Some(to_string("Compare: Select two hash database files to compare. Use F3 to view.")),
            None,
        ),
        HashMenuChoice::ListAlgorithms => (Some(algorithms_message(listed.as_slice())), None),
        HashMenuChoice::Nothing => (None, None),
    };
    r
}

/// The status line after scanning `files` files into the database
/// `output`.
pub fn scan_done_message(files: usize, output: &str) -> (r: String)
    ensures
        r@ == "✓ Scanned "@ + dec_str(files as nat) + " files → "@ + output@,
{
    let n = decimal(files as u64);
    let mut s = to_string("✓ Scanned ");
    push_str(&mut s, n.as_str());
    push_str(&mut s, " files → ");
    push_str(&mut s, output);
    s
}

/// The status line after verifying a directory: all good when nothing
/// changed and nothing is missing, else the four counts.
pub fn verify_status(matches: usize, changed: usize, missing: usize, added: usize) -> (r: String)
    ensures
        r@ == if changed == 0 && missing == 0 {
            "✓ All "@ + dec_str(matches as nat) + " files OK"@
        } else {
            "⚠ "@ + dec_str(matches as nat) + " OK, "@ + dec_str(changed as nat) + " changed, "@
                + dec_str(missing as nat) + " missing, "@ + dec_str(added as nat) + " new"@
        },
{
    if changed == 0 && missing == 0 {
        let n = decimal(matches as u64);
        framed("✓ All ", n.as_str(), " files OK")
    } else {
        let a = decimal(matches as u64);
        let b = decimal(changed as u64);
        let c = decimal(missing as u64);
        let d = decimal(added as u64);
        let mut s = to_string("⚠ ");
        push_str(&mut s, a.as_str());
        push_str(&mut s, " OK, ");
        push_str(&mut s, b.as_str());
        push_str(&mut s, " changed, ");
        push_str(&mut s, c.as_str());
        push_str(&mut s, " missing, ");
        push_str(&mut s, d.as_str());
        push_str(&mut s, " new");
        s
    }
}

/// The status line after looking for duplicates: none, or the number of
/// groups and the bytes they waste.
pub fn dedup_status(groups: usize, wasted: u64) -> (r: String)
    ensures
        r@ == if groups == 0 {
            "✓ No duplicates found"@
        } else {
            "Found "@ + dec_str(groups as nat) + " duplicate groups ("@ + dec_str(wasted as nat)
                + " bytes wasted)"@
        },
{
    if groups == 0 {
        to_string("✓ No duplicates found")
    } else {
        let g = decimal(groups as u64);
        let w = decimal(wasted);
        let mut s = to_string("Found ");
        push_str(&mut s, g.as_str());
        push_str(&mut s, " duplicate groups (");
        push_str(&mut s, w.as_str());
        push_str(&mut s, " bytes wasted)");
        s
    }
}

/// What a key does in the delete confirmation: `y` deletes, `n` or Esc
/// cancels, anything else repeats the question.
#[derive(Debug, Clone, Copy, PartialEq, Eq, Structural)]
pub enum DeleteAnswer {
    Confirm,
    Cancel,
    Ask,
}

/// The answer a key gives to the delete confirmation.
pub fn delete_answer(key: Key) -> (r: DeleteAnswer)
    ensures
        r == (match key {
            Key::Char('y') | Key::Char('Y') => DeleteAnswer::Confirm,
            Key::Char('n') | Key::Char('N') | Key::Esc => DeleteAnswer::Cancel,
            _ => DeleteAnswer::Ask,
        }),
{
    match key {
        Key::Char('y') | Key::Char('Y') => DeleteAnswer::Confirm,
        Key::Char('n') | Key::Char('N') | Key::Esc => DeleteAnswer::Cancel,
        _ => DeleteAnswer::Ask,
    }
}

/// The entry of the pane at `dir`, on storage of kind `backend`, that the
/// delete key asks to confirm, with the question to show; nothing when no
/// entry is selected.
pub fn delete_request(dir: &str, backend: BackendType, selected: Option<&FileEntry>) -> (r: Option<(DeleteTarget, String)>)
    ensures
        match selected {
            None => r is None,
            Some(e) => r matches Some(t) && t.0.path@ == joined_dir_spec(dir@, e.name@)
                && t.0.display_path@ == t.0.path@ && t.0.is_dir == e.is_dir && t.0.backend == backend
                && t.1@ == "Press Y to confirm delete, N or Esc to cancel"@,
        },
{
    match selected {
        None => None,
        Some(e) => {
            let path = joined_dir(dir, e.name.as_str());
            let display_path = to_string(path.as_str());
            Some(
                (
                    DeleteTarget { backend, path, display_path, is_dir: e.is_dir },
                    to_string("Press Y to confirm delete, N or Esc to cancel"),
                ),
            )
        },
    }
}

/// The status message after a confirmed delete of the entry shown as
/// `display_path` finished with `outcome` (the error's text on failure),
/// and whether the pane is to be refreshed: only after a success.
pub fn delete_done_message(display_path: &str, outcome: Result<(), String>) -> (r: (String, bool))
    ensures
        r.0@ == (match outcome {
            Ok(_) => "✓ Deleted "@ + display_path@,
            Err(e) => "✗ Error deleting: "@ + e@,
        }),
        r.1 == outcome is Ok,
{
    match outcome {
        Ok(_) => {
            let mut s = to_string("✓ Deleted ");
            push_str(&mut s, display_path);
            (s, true)
        },
        Err(e) => {
            let mut s = to_string("✗ Error deleting: ");
            push_str(&mut s, e.as_str());
            (s, false)
        },
    }
}

/// The number of actions of each kind: copies (either way), directories
/// to create (on either side), deletions (from either side), skips and
/// conflicts.
#[derive(Debug, Clone, Copy, PartialEq, Eq, Structural)]
pub struct ActionCounts {
    pub copies: usize,
    pub creates: usize,
    pub deletes: usize,
    pub skips: usize,
    pub conflicts: usize,
}

/// The counts of the actions `a`.
pub open spec fn counts_spec(a: Seq<ActionView>) -> (nat, nat, nat, nat, nat)
    decreases a.len(),
{
    if a.len() == 0 {
        (0, 0, 0, 0, 0)
    } else {
        let c = counts_spec(a.drop_last());
        match a.last() {
            ActionView::CopyToDestination(_) | ActionView::CopyToSource(_) => (c.0 + 1, c.1, c.2, c.3, c.4),
            ActionView::CreateDirInDestination(_) | ActionView::CreateDirInSource(_) => (
                c.0,
                c.1 + 1,
                c.2,
                c.3,
                c.4,
            ),
            ActionView::DeleteFromDestination(_) | ActionView::DeleteFromSource(_) => (
                c.0,
                c.1,
                c.2 + 1,
                c.3,
                c.4,
            ),
            ActionView::Skip(_, _) => (c.0, c.1, c.2, c.3 + 1, c.4),
            ActionView::Conflict(_) => (c.0, c.1, c.2, c.3, c.4 + 1),
        }
    }
}

/// Every action falls under exactly one count.
pub proof fn lemma_counts_cover_actions(a: Seq<ActionView>)
    ensures
        ({
            let c = counts_spec(a);
            c.0 + c.1 + c.2 + c.3 + c.4 == a.len()
        }),
    decreases a.len(),
{
    if a.len() > 0 {
        lemma_counts_cover_actions(a.drop_last());
    }
}

/// Count the actions of a sync by kind.
pub fn count_actions(actions: &[SyncAction]) -> (r: ActionCounts)
    ensures
        counts_spec(action_views(actions@)) == (
            r.copies as nat,
            r.creates as nat,
            r.deletes as nat,
            r.skips as nat,
            r.conflicts as nat,
        ),
{
    let mut r = ActionCounts { copies: 0, creates: 0, deletes: 0, skips: 0, conflicts: 0 };
    let mut i: usize = 0;
    while i < actions.len()
        invariant
            i <= actions@.len(),
            counts_spec(action_views(actions@.take(i as int))) == (
                r.copies as nat,
                r.creates as nat,
                r.deletes as nat,
                r.skips as nat,
                r.conflicts as nat,
            ),
        decreases actions@.len() - i,
    {
        proof {
            assert(action_views(actions@.take(i + 1)).drop_last() =~= action_views(
                actions@.take(i as int),
            ));
            assert(action_views(actions@.take(i + 1)).last() == actions@[i as int]@);
            lemma_counts_cover_actions(action_views(actions@.take(i as int)));
        }
        match &actions[i] {
            SyncAction::CopyToDestination { .. } | SyncAction::CopyToSource { .. } => {
                r.copies = r.copies + 1;
            },
            SyncAction::CreateDirInDestination { .. } | SyncAction::CreateDirInSource { .. } => {
                r.creates = r.creates + 1;
            },
            SyncAction::DeleteFromDestination { .. } | SyncAction::DeleteFromSource { .. } => {
                r.deletes = r.deletes + 1;
            },
            SyncAction::Skip { .. } => {
                r.skips = r.skips + 1;
            },
            SyncAction::Conflict { .. } => {
                r.conflicts = r.conflicts + 1;
            },
        }
        i = i + 1;
    }
    assert(actions@.take(actions@.len() as int) =~= actions@);
    r
}

/// The message after a dry run.
pub open spec fn dry_run_message_spec(c: ActionCounts) -> Seq<char> {
    "Dry-run: "@ + dec_str(c.copies as nat) + " to copy, "@ + dec_str(c.creates as nat)
        + " to create, "@ + dec_str(c.deletes as nat) + " to delete, "@ + dec_str(
        c.skips as nat,
    ) + " skip, "@ + dec_str(c.conflicts as nat) + " conflicts | Ctrl+Y to apply"@
}

/// The message after a dry run with these counts.
pub fn dry_run_message(c: ActionCounts) -> (r: String)
    ensures
        r@ == dry_run_message_spec(c),
{
    let mut s = to_string("Dry-run: ");
    let t = decimal(c.copies as u64);
    push_str(&mut s, t.as_str());
    push_str(&mut s, " to copy, ");
    let t = decimal(c.creates as u64);
    push_str(&mut s, t.as_str());
    push_str(&mut s, " to create, ");
    let t = decimal(c.deletes as u64);
    push_str(&mut s, t.as_str());
    push_str(&mut s, " to delete, ");
    let t = decimal(c.skips as u64);
    push_str(&mut s, t.as_str());
    push_str(&mut s, " skip, ");
    let t = decimal(c.conflicts as u64);
    push_str(&mut s, t.as_str());
    push_str(&mut s, " conflicts | Ctrl+Y to apply");
    s
}

/// The progress stage shown for a sync phase.
pub open spec fn stage_spec(phase: SyncPhase) -> ProgressStage {
    match phase {
        SyncPhase::Scanning => ProgressStage::Counting,
        SyncPhase::Comparing => ProgressStage::Counting,
        SyncPhase::Transferring => ProgressStage::Transferring,
        SyncPhase::Verifying => ProgressStage::Extracting,
        SyncPhase::Complete => ProgressStage::Complete,
    }
}

/// The progress bar and message for a sync progress report.
pub fn sync_progress_view(p: &SyncProgress) -> (r: (Progress, String))
    ensures
        r.0.stage == stage_spec(p.phase),
        r.0.current == p.files_done,
        r.0.total == p.total_files,
        r.0.current_file@ == p.current_file@,
        r.0.files_done == p.files_done,
        r.0.total_files == p.total_files,
        r.1@ == "🔄 Syncing: "@ + dec_str(p.files_done as nat) + "/"@ + dec_str(
            p.total_files as nat,
        ) + " files"@,
{
    let stage = match p.phase {
        SyncPhase::Scanning => ProgressStage::Counting,
        SyncPhase::Comparing => ProgressStage::Counting,
        SyncPhase::Transferring => ProgressStage::Transferring,
        SyncPhase::Verifying => ProgressStage::Extracting,
        SyncPhase::Complete => ProgressStage::Complete,
    };
    let mut m = to_string("🔄 Syncing: ");
    let d = decimal(p.files_done as u64);
    push_str(&mut m, d.as_str());
    push_str(&mut m, "/");
    let t = decimal(p.total_files as u64);
    push_str(&mut m, t.as_str());
    push_str(&mut m, " files");
    (
        Progress {
            stage,
            current: p.files_done as u64,
            total: p.total_files as u64,
            current_file: p.current_file.clone(),
            files_done: p.files_done,
            total_files: p.total_files,
        },
        m,
    )
}

/// Starting a sync of the panes now: refused while syncing is off or a sync
/// runs; else the message and the configuration it runs with, the default
/// one (one-way, from the left pane to the right).
pub fn sync_now_request(enabled: bool, busy: bool) -> (r: Result<(String, SyncConfig), String>)
    ensures
        !enabled ==> (r matches Err(m) && m@ == "Sync not enabled - Press Ctrl+S to enable"@),
        enabled && busy ==> (r matches Err(m) && m@ == "⚠️ Sync already in progress"@),
        enabled && !busy ==> (r matches Ok(t) && t.0@ == "🔄 Starting sync (background)..."@
            && is_default_config(t.1)),
{
    if !enabled {
        return Err(to_string("Sync not enabled - Press Ctrl+S to enable"));
    }
    if busy {
        return Err(to_string("⚠️ Sync already in progress"));
    }
    Ok((to_string("🔄 Starting sync (background)..."), SyncConfig::default()))
}

/// Previewing a sync of the panes: the message and the configuration, the
/// default one as a dry run.
pub fn dry_run_request() -> (r: (String, SyncConfig))
    ensures
        r.0@ == "🔍 Analyzing changes (dry-run)..."@,
        r.1.dry_run,
        is_default_config(SyncConfig { dry_run: false, ..r.1 }),
{
    let mut config = SyncConfig::default();
    config.dry_run = true;
    (to_string("🔍 Analyzing changes (dry-run)..."), config)
}

/// The message after a sync failed with the error `error`; `in_task` when
/// the task running it failed rather than the sync.
pub fn sync_failed_message(error: &str, in_task: bool) -> (r: String)
    ensures
        r@ == (if in_task {
            "❌ Sync task failed: "@
        } else {
            "❌ Sync failed: "@
        }) + error@,
{
    let mut m = to_string(
        if in_task {
            "❌ Sync task failed: "
        } else {
            "❌ Sync failed: "
        },
    );
    push_str(&mut m, error);
    m
}

/// The message after a dry run failed with the error `error`.
pub fn dry_run_failed_message(error: &str) -> (r: String)
    ensures
        r@ == "Dry-run failed: "@ + error@,
{
    let mut m = to_string("Dry-run failed: ");
    push_str(&mut m, error);
    m
}

/// The files a finished sync synced (copies and created directories) and
/// its message; the conflicts are counted when `with_conflicts`.
pub fn sync_complete_message(stats: &SyncStats, with_conflicts: bool) -> (r: (usize, String))
    requires
        stats.files_copied + stats.dirs_created <= usize::MAX,
    ensures
        r.0 == stats.files_copied + stats.dirs_created,
        r.1@ == "✅ Sync complete: "@ + dec_str(stats.files_copied as nat) + " copied, "@ + dec_str(
            stats.dirs_created as nat,
        ) + " created, "@ + dec_str(stats.files_skipped as nat) + " skipped"@ + (if with_conflicts {
            ", "@ + dec_str(stats.conflicts as nat) + " conflicts"@
        } else {
            Seq::empty()
        }),
{
    let mut m = to_string("✅ Sync complete: ");
    let t = decimal(stats.files_copied as u64);
    push_str(&mut m, t.as_str());
    push_str(&mut m, " copied, ");
    let t = decimal(stats.dirs_created as u64);
    push_str(&mut m, t.as_str());
    push_str(&mut m, " created, ");
    let t = decimal(stats.files_skipped as u64);
    push_str(&mut m, t.as_str());
    push_str(&mut m, " skipped");
    if with_conflicts {
        push_str(&mut m, ", ");
        let t = decimal(stats.conflicts as u64);
        push_str(&mut m, t.as_str());
        push_str(&mut m, " conflicts");
    }
    (stats.files_copied + stats.dirs_created, m)
}

/// Turning syncing on or off: the new setting and its message.
pub fn sync_toggle(enabled: bool) -> (r: (bool, String))
    ensures
        r.0 == !enabled,
        r.1@ == (if !enabled {
            "🔄 Sync enabled - Left pane ↔ Right pane | Ctrl+Y to sync now, Ctrl+D for dry-run"@
        } else {
            "Sync disabled"@
        }),
{
    if !enabled {
        (
            true,
            to_string(
                "🔄 Sync enabled - Left pane ↔ Right pane | Ctrl+Y to sync now, Ctrl+D for dry-run",
            ),
        )
    } else {
        (false, to_string("Sync disabled"))
    }
}

} // verus!
