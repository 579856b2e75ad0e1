//! Editing state of the file manager: the one-line text input used for
//! renaming and searching, the line editor, and the small enums that
//! describe what the interface is doing.
//!
//! Cursors and columns are byte offsets into the text, as `String`
//! indexes it.
use vstd::prelude::*;
use crate::text::{
    byte_len,
    byte_offset,
    char_pos,
    is_boundary,
    lemma_byte_offset_step,
    lemma_char_bytes,
    lemma_char_pos_of_offset,
    lemma_byte_offset_bounded,
    char_bytes,
    byte_offset_at,
    char_index_at,
    chars_of,
    find_from,
    first_occurrence_from,
    lowercase,
    lowercase_of,
    occurs_at,
    push_char,
    push_str,
    string_insert,
    string_len,
    string_remove,
    string_split_off,
    to_string,
};
use crate::fs::backend::BackendType;
use crate::events::Key;

verus! {

/// What the interface is doing.
#[derive(Debug, Clone, Copy, PartialEq, Eq, Structural)]
pub enum AppMode {
    Normal,
    /// Choose between PV, PVC, or Cloud
    SelectStorage,
    SelectNamespace,
    SelectPvc,
    SelectPv,
    /// Choose S3/GCS/etc.
    SelectCloudProvider,
    /// Enter bucket/credentials for cloud storage
    ConfigureCloud,
    /// ncdu-like disk usage view
    DiskAnalyzer,
    /// Confirmation dialog for delete
    ConfirmDelete,
    /// Rename file/directory
    Rename,
    /// View file contents
    ViewFile,
    /// Search for files
    Search,
    /// Edit file contents (nano-like)
    EditFile,
    /// Confirm loading large remote file
    ConfirmLargeLoad,
    /// Search text inside editor
    EditorSearch,
}

/// What to do with a large remote file once confirmed.
#[derive(Debug, Clone, Copy, PartialEq, Eq, Structural)]
pub enum LargeFileAction {
    View,
    Edit,
}

/// The cursor of `t` stands on a character boundary of its text.
pub open spec fn cursor_ok(t: TextInput) -> bool {
    is_boundary(t.value@, t.cursor as int)
}

/// The position of the character the cursor of `t` stands before.
pub open spec fn cursor_char(t: TextInput) -> int {
    char_pos(t.value@, t.cursor as int)
}

/// The number of bytes `c` takes in UTF-8.
pub open spec fn char_len(c: char) -> int {
    vstd::utf8::encode_utf8(seq![c]).len() as int
}

/// What typing `c` does to the input `t`: the character goes in before
/// the one the cursor stands before, and the cursor moves past it, by its
/// length in bytes.
pub open spec fn types_char(t: TextInput, c: char, r: TextInput) -> bool {
    &&& r.value@ == t.value@.insert(cursor_char(t), c)
    &&& r.cursor == t.cursor + char_len(c)
    &&& r.original == t.original
}

/// Deleting back in `t` is possible: at the start, or where a character
/// starts one byte before the cursor (`String::remove` panics elsewhere).
pub open spec fn can_erase_back(t: TextInput) -> bool {
    t.cursor > 0 ==> {
        &&& is_boundary(t.value@, t.cursor - 1)
        &&& char_pos(t.value@, t.cursor - 1) < t.value@.len()
    }
}

/// What deleting back does to `t`: nothing at the start; else the cursor
/// moves back one byte and the character starting there goes.
pub open spec fn erases_back(t: TextInput, r: TextInput) -> bool {
    &&& t.cursor == 0 ==> r == t
    &&& t.cursor > 0 ==> {
        &&& r.value@ == t.value@.remove(char_pos(t.value@, t.cursor - 1))
        &&& r.cursor == t.cursor - 1
        &&& r.original == t.original
    }
}

/// Typing a one-byte (ASCII) character and deleting back restores the text
/// and the cursor.
pub proof fn lemma_type_then_erase_restores(t: TextInput, c: char, typed: TextInput, erased: TextInput)
    requires
        cursor_ok(t),
        char_len(c) == 1,
        types_char(t, c, typed),
        erases_back(typed, erased),
    ensures
        can_erase_back(typed),
        erased.value@ == t.value@,
        erased.cursor == t.cursor,
        erased.original == t.original,
{
    let v = t.value@;
    let k = cursor_char(t);
    let w = v.insert(k, c);
    assert(0 <= k <= v.len() && byte_offset(v, k) == t.cursor);
    assert(w.take(k) =~= v.take(k));
    assert(w[k] == c);
    lemma_char_pos_of_offset(w, k);
    assert(w.remove(k) =~= v);
}

/// Text input state for rename/search operations.
#[derive(Debug, Clone)]
pub struct TextInput {
    /// Current input text.
    pub value: String,
    /// Cursor position in the text (a byte offset).
    pub cursor: usize,
    /// The value before editing (for rename - to know what to rename from).
    pub original: String,
}

impl Default for TextInput {
    fn default() -> (r: Self)
        ensures
            r.value@ == Seq::<char>::empty(),
            r.cursor == 0,
            r.original@ == Seq::<char>::empty(),
    {
        TextInput { value: String::new(), cursor: 0, original: String::new() }
    }
}

impl TextInput {
    /// An input holding `initial`, with the cursor at its end.
    pub fn new(initial: &str) -> (r: Self)
        ensures
            r.value@ == initial@,
            r.cursor as int == byte_len(initial@),
            r.original@ == initial@,
            cursor_ok(r),
    {
        let value = to_string(initial);
        let cursor = string_len(&value);
        proof {
            lemma_char_pos_of_offset(value@, value@.len() as int);
            lemma_byte_offset_bounded(value@, value@.len() as int);
        }
        TextInput { value, cursor, original: to_string(initial) }
    }

    /// Insert `c` at the cursor and move the cursor past it.
    pub fn insert(&mut self, c: char)
        requires
            cursor_ok(*old(self)),
        ensures
            types_char(*old(self), c, *final(self)),
            cursor_ok(*final(self)),
    {
        let ghost t = *self;
        let ghost k = cursor_char(t);
        string_insert(&mut self.value, self.cursor, c);
        let total = string_len(&self.value);
        proof {
            let v = t.value@;
            let w = self.value@;
            assert(0 <= k <= v.len() && byte_offset(v, k) == t.cursor);
            assert(w.take(k) =~= v.take(k));
            assert(w[k] == c);
            lemma_byte_offset_step(w, k);
            lemma_byte_offset_bounded(w, k + 1);
            lemma_char_pos_of_offset(w, k + 1);
        }
        self.cursor = self.cursor + char_bytes(c);
    }

    /// Move the cursor back one byte and delete the character starting
    /// there; nothing happens at the start.
    pub fn delete_back(&mut self)
        requires
            can_erase_back(*old(self)),
        ensures
            erases_back(*old(self), *final(self)),
    {
        if self.cursor > 0 {
            self.cursor = self.cursor - 1;
            let _ = string_remove(&mut self.value, self.cursor);
        }
    }

    /// Move the cursor back one byte, unless at the start.
    pub fn move_left(&mut self)
        ensures
            final(self).cursor == if old(self).cursor > 0 {
                old(self).cursor - 1
            } else {
                0
            },
            final(self).value == old(self).value,
            final(self).original == old(self).original,
    {
        if self.cursor > 0 {
            self.cursor = self.cursor - 1;
        }
    }

    /// Move the cursor on one byte, unless at (or past) the end.
    pub fn move_right(&mut self)
        ensures
            final(self).cursor == if (old(self).cursor as int) < byte_len(old(self).value@) {
                old(self).cursor + 1
            } else {
                old(self).cursor as int
            },
            final(self).value == old(self).value,
            final(self).original == old(self).original,
    {
        if self.cursor < string_len(&self.value) {
            self.cursor = self.cursor + 1;
        }
    }

    /// Empty the input.
    pub fn clear(&mut self)
        ensures
            final(self).value@ == Seq::<char>::empty(),
            final(self).cursor == 0,
            final(self).original == old(self).original,
            cursor_ok(*final(self)),
    {
        self.value = String::new();
        self.cursor = 0;
        proof {
            assert(self.value@.take(0) =~= Seq::<char>::empty());
            lemma_char_pos_of_offset(self.value@, 0);
        }
    }
}

/// The state of the line editor.
#[derive(Debug, Clone)]
pub struct TextEditor {
    pub content: Vec<String>,
    pub cursor_row: usize,
    pub cursor_col: usize,
    pub scroll_offset: usize,
    pub filename: String,
    pub modified: bool,
    pub cut_buffer: Option<String>,
}

impl Default for TextEditor {
    fn default() -> (r: Self)
        ensures
            r.content@.len() == 0,
            r.cursor_row == 0,
            r.cursor_col == 0,
            r.scroll_offset == 0,
            r.filename@ == Seq::<char>::empty(),
            !r.modified,
            r.cut_buffer is None,
    {
        TextEditor {
            content: Vec::new(),
            cursor_row: 0,
            cursor_col: 0,
            scroll_offset: 0,
            filename: String::new(),
            modified: false,
            cut_buffer: None,
        }
    }
}

/// The texts of the lines.
pub open spec fn line_texts(v: Seq<String>) -> Seq<Seq<char>> {
    v.map_values(|s: String| s@)
}

/// The line and cursor after typing `c` at byte offset `col` of `line`: at
/// or past the end it is appended and the cursor goes to the end, else it
/// is inserted and the cursor moves one byte on.
pub open spec fn typed(line: Seq<char>, col: int, c: char) -> (Seq<char>, int) {
    if col >= byte_len(line) {
        (line.push(c), byte_len(line.push(c)))
    } else {
        (line.insert(char_pos(line, col), c), col + 1)
    }
}

/// The lines after `insert_char`'s first step: one empty line when there
/// were none.
pub open spec fn lines_for_typing(lines: Seq<Seq<char>>) -> Seq<Seq<char>> {
    if lines.len() == 0 {
        seq![Seq::empty()]
    } else {
        lines
    }
}

/// What cutting the cursor's line does to an editor `e` whose cursor is
/// on a line: the line goes to the cut buffer and out of the text (an
/// editor left without lines gets an empty one), the cursor goes to the
/// start of the line that took its place, or of the last line.
pub open spec fn cuts_line(e: TextEditor, r: TextEditor) -> bool {
    let lines = line_texts(e.content@);
    let row = e.cursor_row as int;
    let rest = lines.remove(row);
    &&& r.cut_buffer matches Some(b) && b@ == lines[row]
    &&& line_texts(r.content@) == if rest.len() == 0 {
        seq![Seq::<char>::empty()]
    } else {
        rest
    }
    &&& r.cursor_row == if rest.len() == 0 || row < rest.len() {
        row
    } else {
        rest.len() - 1
    }
    &&& r.cursor_col == 0
    &&& r.modified
}

/// What pasting the cut buffer does to an editor `e` that has one: the
/// buffer becomes the only line of an empty editor, else it is inserted at
/// the cursor's line and the cursor moves down with the line it was on.
pub open spec fn pastes_line(e: TextEditor, r: TextEditor) -> bool {
    let lines = line_texts(e.content@);
    &&& e.cut_buffer matches Some(b) && {
        &&& e.content@.len() == 0 ==> line_texts(r.content@) == seq![b@] && r.cursor_row
            == e.cursor_row
        &&& e.content@.len() > 0 ==> line_texts(r.content@) == lines.insert(
            e.cursor_row as int,
            b@,
        ) && r.cursor_row == e.cursor_row + 1
    }
    &&& r.modified
    &&& r.cut_buffer == e.cut_buffer
    &&& r.cursor_col == e.cursor_col
}

/// Breaking the line is possible: an empty editor, or the cursor on a
/// line and, inside it, where a character starts.
pub open spec fn can_break_line(e: TextEditor) -> bool {
    e.content@.len() > 0 ==> {
        &&& e.cursor_row < e.content@.len()
        &&& ((e.cursor_col as int) < byte_len(e.content@[e.cursor_row as int]@) ==> is_boundary(
            e.content@[e.cursor_row as int]@,
            e.cursor_col as int,
        ))
    }
}

/// Where the cursor of `e` splits its line: the character it is on, or the
/// end of the line when it is at or past the end.
pub open spec fn split_point(e: TextEditor) -> int {
    let line = line_texts(e.content@)[e.cursor_row as int];
    if (e.cursor_col as int) < byte_len(line) {
        char_pos(line, e.cursor_col as int)
    } else {
        line.len() as int
    }
}

/// What breaking the line does to `e`: an empty editor gets two empty
/// lines; else the rest of the cursor's line becomes the next line. The
/// cursor goes to the start of the next line.
pub open spec fn breaks_line(e: TextEditor, r: TextEditor) -> bool {
    &&& e.content@.len() == 0 ==> {
        &&& line_texts(r.content@) == seq![Seq::<char>::empty(), Seq::<char>::empty()]
        &&& r.cursor_row == 1
    }
    &&& e.content@.len() > 0 ==> ({
        let lines = line_texts(e.content@);
        let row = e.cursor_row as int;
        let line = lines[row];
        let k = split_point(e);
        &&& line_texts(r.content@) == lines.update(row, line.take(k)).insert(row + 1, line.skip(k))
        &&& r.cursor_row == e.cursor_row + 1
    })
    &&& r.cursor_col == 0
    &&& r.modified
    &&& r.scroll_offset == e.scroll_offset
    &&& r.filename == e.filename
    &&& r.cut_buffer == e.cut_buffer
}

/// Deleting back in `e` is possible: inside a line, one byte before the
/// cursor a character starts; at the start of a line below the first, that
/// line exists.
pub open spec fn can_delete_back(e: TextEditor) -> bool {
    &&& e.cursor_col > 0 ==> {
        &&& e.cursor_row < e.content@.len()
        &&& is_boundary(e.content@[e.cursor_row as int]@, e.cursor_col - 1)
        &&& char_pos(e.content@[e.cursor_row as int]@, e.cursor_col - 1)
            < e.content@[e.cursor_row as int]@.len()
    }
    &&& e.cursor_col == 0 && e.cursor_row > 0 ==> e.cursor_row < e.content@.len()
}

/// What deleting back does to `e`: inside a line the character one byte
/// before the cursor goes and the cursor moves back a byte; at the start of
/// a line below the first, the line joins the previous one and the cursor
/// goes to the joint; at the very start nothing happens.
pub open spec fn deletes_back(e: TextEditor, r: TextEditor) -> bool {
    &&& e.cursor_col > 0 ==> ({
        let lines = line_texts(e.content@);
        let row = e.cursor_row as int;
        &&& line_texts(r.content@) == lines.update(row, lines[row].remove(char_pos(lines[row], e.cursor_col - 1)))
        &&& r.cursor_row == e.cursor_row
        &&& r.cursor_col == e.cursor_col - 1
        &&& r.modified
    })
    &&& e.cursor_col == 0 && e.cursor_row > 0 ==> ({
        let lines = line_texts(e.content@);
        let row = e.cursor_row as int;
        &&& line_texts(r.content@) == lines.update(row - 1, lines[row - 1] + lines[row]).remove(row)
        &&& r.cursor_row == row - 1
        &&& r.cursor_col as int == byte_len(lines[row - 1])
        &&& r.modified
    })
    &&& e.cursor_col == 0 && e.cursor_row == 0 ==> r == e
    &&& r.scroll_offset == e.scroll_offset
    &&& r.filename == e.filename
    &&& r.cut_buffer == e.cut_buffer
}

/// Breaking a line and deleting back right after puts the text back as it
/// was, and the cursor on its line at its column (or at the end of the
/// line, when it stood past it).
pub proof fn lemma_break_then_delete_back_restores(e: TextEditor, broken: TextEditor, joined: TextEditor)
    requires
        e.content@.len() > 0,
        can_break_line(e),
        breaks_line(e, broken),
        deletes_back(broken, joined),
    ensures
        can_delete_back(broken),
        line_texts(joined.content@) == line_texts(e.content@),
        joined.cursor_row == e.cursor_row,
        joined.cursor_col == at_most(e.cursor_col as int, line_bytes(e, e.cursor_row as int)),
{
    let lines = line_texts(e.content@);
    let row = e.cursor_row as int;
    let line = lines[row];
    let k = split_point(e);
    let broken_lines = lines.update(row, line.take(k)).insert(row + 1, line.skip(k));
    assert(broken_lines.update(row, broken_lines[row] + broken_lines[row + 1]).remove(row + 1) =~= lines) by {
        assert(line.take(k) + line.skip(k) =~= line);
    }
    assert(line == e.content@[row]@);
    if (e.cursor_col as int) < byte_len(line) {
        let p = char_pos(line, e.cursor_col as int);
        assert(byte_offset(line, p) == e.cursor_col);
    } else {
        assert(line.take(line.len() as int) =~= line);
    }
}

/// Cutting a line that is followed by another and pasting it right back
/// restores the text; the cursor ends at the start of the line after the
/// pasted one, the cut buffer keeps the line and the text counts as
/// modified.
pub proof fn lemma_cut_then_paste_restores(e: TextEditor, cut: TextEditor, pasted: TextEditor)
    requires
        e.cursor_row + 1 < e.content@.len(),
        cuts_line(e, cut),
        pastes_line(cut, pasted),
    ensures
        line_texts(pasted.content@) == line_texts(e.content@),
        pasted.cursor_row == e.cursor_row + 1,
        pasted.cursor_col == 0,
        pasted.cut_buffer matches Some(b) && b@ == e.content@[e.cursor_row as int]@,
        pasted.modified,
{
    let lines = line_texts(e.content@);
    let row = e.cursor_row as int;
    assert(lines.remove(row).insert(row, lines[row]) =~= lines);
}

/// Typing a character into a line of the editor and deleting back right
/// after puts the line back as it was, with the cursor at its column, or at
/// the end of the line when it stood past it: for any character inside the
/// line, and for a one-byte (ASCII) character at its end.
pub proof fn lemma_editor_type_then_delete_restores(line: Seq<char>, col: int, c: char)
    requires
        0 <= col,
        col < byte_len(line) ==> is_boundary(line, col),
        col >= byte_len(line) ==> char_len(c) == 1,
    ensures
        ({
            let (t, k) = typed(line, col, c);
            &&& k > 0
            &&& is_boundary(t, k - 1)
            &&& char_pos(t, k - 1) < t.len()
            &&& t.remove(char_pos(t, k - 1)) == line
            &&& k - 1 == at_most(col, byte_len(line))
        }),
{
    if col < byte_len(line) {
        let p = char_pos(line, col);
        let t = line.insert(p, c);
        assert(0 <= p <= line.len() && byte_offset(line, p) == col);
        if p == line.len() {
            lemma_byte_offset_bounded(line, p);
            assert(line.take(p) =~= line);
        }
        assert(t.take(p) =~= line.take(p));
        lemma_char_pos_of_offset(t, p);
        assert(t.remove(p) =~= line);
    } else {
        let n = line.len() as int;
        let t = line.push(c);
        assert(t.take(n) =~= line);
        lemma_byte_offset_step(t, n);
        lemma_byte_offset_bounded(t, n + 1);
        lemma_char_pos_of_offset(t, n);
        assert(t.remove(n) =~= line);
    }
}

impl TextEditor {
    pub fn new() -> (r: Self)
        ensures
            r.content@.len() == 0,
            r.cursor_row == 0,
            r.cursor_col == 0,
            r.scroll_offset == 0,
            r.filename@ == Seq::<char>::empty(),
            !r.modified,
            r.cut_buffer is None,
    {
        Self::default()
    }

    /// Type a character at the cursor (an empty editor gets a line first).
    pub fn insert_char(&mut self, c: char)
        requires
            old(self).cursor_row < lines_for_typing(line_texts(old(self).content@)).len(),
            ({
                let line = lines_for_typing(line_texts(old(self).content@))[old(self).cursor_row as int];
                (old(self).cursor_col as int) < byte_len(line) ==> is_boundary(
                    line,
                    old(self).cursor_col as int,
                )
            }),
            old(self).cursor_col < usize::MAX,
        ensures
            ({
                let lines = lines_for_typing(line_texts(old(self).content@));
                let row = old(self).cursor_row as int;
                let t = typed(lines[row], old(self).cursor_col as int, c);
                &&& line_texts(final(self).content@) == lines.update(row, t.0)
                &&& final(self).cursor_col as int == t.1
            }),
            final(self).cursor_row == old(self).cursor_row,
            final(self).modified,
            final(self).scroll_offset == old(self).scroll_offset,
            final(self).filename == old(self).filename,
            final(self).cut_buffer == old(self).cut_buffer,
    {
        if self.content.len() == 0 {
            self.content.push(String::new());
            assert(line_texts(self.content@) =~= seq![Seq::<char>::empty()]);
        }
        let ghost lines = line_texts(self.content@);
        let row = self.cursor_row;
        let mut line = self.content[row].clone();
        assert(line@ == lines[row as int]);
        if self.cursor_col >= string_len(&line) {
            push_char(&mut line, c);
            self.cursor_col = string_len(&line);
        } else {
            string_insert(&mut line, self.cursor_col, c);
            self.cursor_col = self.cursor_col + 1;
        }
        self.content.set(row, line);
        assert(line_texts(self.content@) =~= lines.update(row as int, line@));
        self.modified = true;
    }

    /// Break the line at the cursor: the rest of it becomes the next line
    /// and the cursor goes to its start (an empty editor gets two lines).
    pub fn insert_newline(&mut self)
        requires
            can_break_line(*old(self)),
        ensures
            breaks_line(*old(self), *final(self)),
    {
        if self.content.len() == 0 {
            self.content.push(String::new());
            self.content.push(String::new());
            self.cursor_row = 1;
            self.cursor_col = 0;
            self.modified = true;
            assert(line_texts(self.content@) =~= seq![Seq::<char>::empty(), Seq::<char>::empty()]);
            return;
        }
        let ghost lines = line_texts(self.content@);
        let row = self.cursor_row;
        let mut line = self.content[row].clone();
        assert(line@ == lines[row as int]);
        let new_line = if self.cursor_col < string_len(&line) {
            string_split_off(&mut line, self.cursor_col)
        } else {
            assert(line@.take(line@.len() as int) =~= line@);
            assert(line@.skip(line@.len() as int) =~= Seq::<char>::empty());
            String::new()
        };
        self.content.set(row, line);
        self.content.insert(row + 1, new_line);
        assert(line_texts(self.content@) =~= lines.update(row as int, line@).insert(
            row + 1,
            new_line@,
        ));
        self.cursor_row = row + 1;
        self.cursor_col = 0;
        self.modified = true;
    }

    /// Delete the character before the cursor; at the start of a line, join
    /// it to the previous one, the cursor going to the joint.
    pub fn delete_back(&mut self)
        requires
            can_delete_back(*old(self)),
        ensures
            deletes_back(*old(self), *final(self)),
    {
        let ghost lines = line_texts(self.content@);
        if self.cursor_col > 0 {
            let row = self.cursor_row;
            let mut line = self.content[row].clone();
            assert(line@ == lines[row as int]);
            let _ = string_remove(&mut line, self.cursor_col - 1);
            self.content.set(row, line);
            assert(line_texts(self.content@) =~= lines.update(row as int, line@));
            self.cursor_col = self.cursor_col - 1;
            self.modified = true;
        } else if self.cursor_row > 0 {
            let row = self.cursor_row;
            let line = self.content.remove(row);
            assert(line@ == lines[row as int]);
            self.cursor_row = row - 1;
            let mut prev = self.content[row - 1].clone();
            assert(prev@ == lines[row - 1]);
            self.cursor_col = string_len(&prev);
            push_str(&mut prev, line.as_str());
            self.content.set(row - 1, prev);
            assert(line_texts(self.content@) =~= lines.update(
                row - 1,
                lines[row - 1] + lines[row as int],
            ).remove(row as int));
            self.modified = true;
        }
    }

    /// Cut the cursor's line into the cut buffer (an editor left empty gets
    /// an empty line; a cursor past the end goes to the last line); the
    /// cursor goes to the start of the line.
    pub fn cut_line(&mut self)
        ensures
            old(self).content@.len() == 0 || old(self).cursor_row >= old(self).content@.len()
                ==> *final(self) == *old(self),
            old(self).cursor_row < old(self).content@.len() ==> cuts_line(*old(self), *final(self)),
            final(self).scroll_offset == old(self).scroll_offset,
            final(self).filename == old(self).filename,
    {
        if self.content.len() == 0 {
            return;
        }
        if self.cursor_row < self.content.len() {
            let ghost lines = line_texts(self.content@);
            let line = self.content.remove(self.cursor_row);
            assert(line@ == lines[self.cursor_row as int]);
            assert(line_texts(self.content@) =~= lines.remove(self.cursor_row as int));
            self.cut_buffer = Some(line);
            self.modified = true;
            if self.content.len() == 0 {
                self.content.push(String::new());
                assert(line_texts(self.content@) =~= seq![Seq::<char>::empty()]);
            } else if self.cursor_row >= self.content.len() {
                self.cursor_row = self.content.len() - 1;
            }
            self.cursor_col = 0;
        }
    }

    /// Paste the cut buffer as a line at the cursor (or as the only line of
    /// an empty editor), the cursor moving down with its line.
    pub fn uncut_line(&mut self)
        requires
            old(self).cut_buffer is Some && old(self).content@.len() > 0 ==> old(self).cursor_row
                <= old(self).content@.len(),
            old(self).cut_buffer is Some && old(self).content@.len() > 0 ==> old(self).cursor_row
                < usize::MAX,
        ensures
            old(self).cut_buffer is None ==> *final(self) == *old(self),
            old(self).cut_buffer is Some ==> pastes_line(*old(self), *final(self)),
            final(self).scroll_offset == old(self).scroll_offset,
            final(self).filename == old(self).filename,
    {
        match &self.cut_buffer {
            Some(line) => {
                let ghost lines = line_texts(self.content@);
                let copy = line.clone();
                if self.content.len() == 0 {
                    self.content.push(copy);
                    assert(line_texts(self.content@) =~= seq![copy@]);
                } else {
                    self.content.insert(self.cursor_row, copy);
                    assert(line_texts(self.content@) =~= lines.insert(self.cursor_row as int, copy@));
                    self.cursor_row = self.cursor_row + 1;
                }
                self.modified = true;
            },
            None => {},
        }
    }
}

/// The number of rows a page of the editor scrolls: the visible height, or
/// twenty while it is not known (zero).
pub open spec fn editor_page(visible_height: usize) -> int {
    if visible_height > 0 {
        visible_height as int
    } else {
        20
    }
}

/// The byte length of line `row` of `e`.
pub open spec fn line_bytes(e: TextEditor, row: int) -> int {
    byte_len(e.content@[row]@)
}

/// `a` no greater than `b`.
pub open spec fn at_most(a: int, b: int) -> int {
    if a > b {
        b
    } else {
        a
    }
}

/// Where the cursor of `e` goes on a navigation key: up and down keep the
/// column within the new line, left and right go over line ends, Home and
/// End go to the ends of the line, and a page moves the row by the visible
/// height, staying within the text. Other keys leave it.
pub open spec fn cursor_after(e: TextEditor, key: Key, visible_height: usize) -> (int, int) {
    let n = e.content@.len() as int;
    let row = e.cursor_row as int;
    let col = e.cursor_col as int;
    let last = if n > 0 {
        n - 1
    } else {
        0
    };
    match key {
        Key::Up => if row > 0 {
            (row - 1, at_most(col, line_bytes(e, row - 1)))
        } else {
            (row, col)
        },
        Key::Down => if row < last {
            (row + 1, at_most(col, line_bytes(e, row + 1)))
        } else {
            (row, col)
        },
        Key::Left => if col > 0 {
            (row, col - 1)
        } else if row > 0 {
            (row - 1, line_bytes(e, row - 1))
        } else {
            (row, col)
        },
        Key::Right => if col < line_bytes(e, row) {
            (row, col + 1)
        } else if row < last {
            (row + 1, 0)
        } else {
            (row, col)
        },
        Key::Home => (row, 0),
        Key::End => (row, line_bytes(e, row)),
        Key::PageUp => (if row > editor_page(visible_height) {
            row - editor_page(visible_height)
        } else {
            0
        }, col),
        Key::PageDown => (at_most(row + editor_page(visible_height), last), col),
        _ => (row, col),
    }
}

/// The navigation key can be handled: the lines it reads exist and the
/// page does not run past the largest row number.
pub open spec fn can_move(e: TextEditor, key: Key, visible_height: usize) -> bool {
    let n = e.content@.len();
    match key {
        Key::Up => e.cursor_row > 0 ==> e.cursor_row - 1 < n,
        Key::Left => e.cursor_col == 0 && e.cursor_row > 0 ==> e.cursor_row - 1 < n,
        Key::Right | Key::End => e.cursor_row < n,
        Key::PageDown => e.cursor_row + editor_page(visible_height) <= usize::MAX,
        _ => true,
    }
}

/// The first row shown after the cursor moved: the cursor's row when it is
/// above the view, the row that puts it on the last visible line when it
/// is below, else unchanged.
pub open spec fn scroll_after(e: TextEditor, visible_height: usize) -> int {
    let page = editor_page(visible_height);
    if e.cursor_row < e.scroll_offset {
        e.cursor_row as int
    } else if e.cursor_row >= e.scroll_offset + page {
        if e.cursor_row >= page - 1 {
            e.cursor_row - (page - 1)
        } else {
            0
        }
    } else {
        e.scroll_offset as int
    }
}

impl TextEditor {
    /// Move the cursor for a navigation key; the text is left alone.
    pub fn move_cursor(&mut self, key: Key, visible_height: usize)
        requires
            can_move(*old(self), key, visible_height),
        ensures
            *final(self) == (TextEditor {
                cursor_row: cursor_after(*old(self), key, visible_height).0 as usize,
                cursor_col: cursor_after(*old(self), key, visible_height).1 as usize,
                ..*old(self)
            }),
            final(self).cursor_row == cursor_after(*old(self), key, visible_height).0,
            final(self).cursor_col == cursor_after(*old(self), key, visible_height).1,
    {
        let page: usize = if visible_height > 0 {
            visible_height
        } else {
            20
        };
        let n = self.content.len();
        let last: usize = if n > 0 {
            n - 1
        } else {
            0
        };
        match key {
            Key::Up => {
                if self.cursor_row > 0 {
                    self.cursor_row = self.cursor_row - 1;
                    let len = string_len(&self.content[self.cursor_row]);
                    if self.cursor_col > len {
                        self.cursor_col = len;
                    }
                }
            },
            Key::Down => {
                if self.cursor_row < last {
                    self.cursor_row = self.cursor_row + 1;
                    let len = string_len(&self.content[self.cursor_row]);
                    if self.cursor_col > len {
                        self.cursor_col = len;
                    }
                }
            },
            Key::Left => {
                if self.cursor_col > 0 {
                    self.cursor_col = self.cursor_col - 1;
                } else if self.cursor_row > 0 {
                    self.cursor_row = self.cursor_row - 1;
                    self.cursor_col = string_len(&self.content[self.cursor_row]);
                }
            },
            Key::Right => {
                let len = string_len(&self.content[self.cursor_row]);
                if self.cursor_col < len {
                    self.cursor_col = self.cursor_col + 1;
                } else if self.cursor_row < last {
                    self.cursor_row = self.cursor_row + 1;
                    self.cursor_col = 0;
                }
            },
            Key::Home => {
                self.cursor_col = 0;
            },
            Key::End => {
                self.cursor_col = string_len(&self.content[self.cursor_row]);
            },
            Key::PageUp => {
                self.cursor_row = if self.cursor_row > page {
                    self.cursor_row - page
                } else {
                    0
                };
            },
            Key::PageDown => {
                let target = self.cursor_row + page;
                self.cursor_row = if target > last {
                    last
                } else {
                    target
                };
            },
            _ => {},
        }
    }

    /// Scroll so that the cursor's row is in view.
    pub fn follow_cursor(&mut self, visible_height: usize)
        requires
            old(self).cursor_row >= old(self).scroll_offset ==> old(self).scroll_offset + editor_page(
                visible_height,
            ) <= usize::MAX,
        ensures
            *final(self) == (TextEditor { scroll_offset: scroll_after(*old(self), visible_height) as usize, ..*old(self) }),
            final(self).scroll_offset == scroll_after(*old(self), visible_height),
    {
        let page: usize = if visible_height > 0 {
            visible_height
        } else {
            20
        };
        if self.cursor_row < self.scroll_offset {
            self.scroll_offset = self.cursor_row;
        } else if self.cursor_row >= self.scroll_offset + page {
            self.scroll_offset = if self.cursor_row >= page - 1 {
                self.cursor_row - (page - 1)
            } else {
                0
            };
        }
    }
}

/// Where a search for `p` in the line `line`, from byte offset `from`,
/// lands: the byte offset, in the lower-cased line, of the first match of
/// `p` that starts at or after the character starting at `from` there.
pub open spec fn line_hit(line: Seq<char>, from: int, p: Seq<char>) -> Option<int> {
    let ls = lowercase_of(line);
    let k0 = char_pos(ls, from);
    if exists|i: int| first_occurrence_from(ls, p, k0, i) {
        Some(byte_offset(ls, choose|i: int| first_occurrence_from(ls, p, k0, i)))
    } else {
        None
    }
}

/// Where the search in line `row` of `e` starts: at the cursor on the
/// cursor's line, else at the start.
pub open spec fn search_start(e: TextEditor, row: int) -> int {
    if row == e.cursor_row {
        e.cursor_col as int
    } else {
        0
    }
}

/// The hit in line `row` of `e` for `p` when searching onwards from the
/// cursor.
pub open spec fn onward_hit(e: TextEditor, p: Seq<char>, row: int) -> Option<int> {
    line_hit(e.content@[row]@, search_start(e, row), p)
}

/// `row` is the first line, from the cursor's on, with a hit.
pub open spec fn first_onward(e: TextEditor, p: Seq<char>, row: int) -> bool {
    &&& e.cursor_row <= row < e.content@.len()
    &&& onward_hit(e, p, row) is Some
    &&& forall|q: int| e.cursor_row <= q < row ==> onward_hit(e, p, q) is None
}

/// `row` is the first line, from the top down to the cursor's, with a
/// match anywhere in it.
pub open spec fn first_wrapped(e: TextEditor, p: Seq<char>, row: int) -> bool {
    &&& 0 <= row < e.content@.len()
    &&& row <= e.cursor_row
    &&& line_hit(e.content@[row]@, 0, p) is Some
    &&& forall|q: int| 0 <= q < row ==> line_hit(e.content@[q]@, 0, p) is None
}

/// The search can run: where it starts in the cursor's line is a character
/// boundary of the lower-cased line, and the view's end is a row number.
pub open spec fn can_search(e: TextEditor, visible_height: usize) -> bool {
    &&& e.cursor_row < e.content@.len() ==> is_boundary(
        lowercase_of(e.content@[e.cursor_row as int]@),
        e.cursor_col as int,
    )
    &&& e.scroll_offset + editor_page(visible_height) <= usize::MAX
    &&& e.cursor_row < usize::MAX
}

/// The first row shown after a search moved the cursor to `row`: half a
/// page above it when it went below the view, the row itself when it went
/// above the view after wrapping around, else unchanged.
pub open spec fn scroll_to_hit(e: TextEditor, row: int, wrapped: bool, visible_height: usize) -> int {
    let page = editor_page(visible_height);
    let half = page / 2;
    if wrapped && row < e.scroll_offset {
        row
    } else if row >= e.scroll_offset + page {
        if row >= half {
            row - half
        } else {
            0
        }
    } else {
        e.scroll_offset as int
    }
}

/// What searching for `p` (lower-cased) does to `e`: the cursor goes to
/// the first hit from the cursor onwards, else to the first one from the
/// top down to the cursor's line, scrolling it into view; without a hit
/// nothing changes. `found` tells whether there was a hit.
pub open spec fn searched(e: TextEditor, p: Seq<char>, visible_height: usize, r: TextEditor, found: bool) -> bool {
    if exists|row: int| first_onward(e, p, row) {
        let row = choose|row: int| first_onward(e, p, row);
        &&& found
        &&& r == (TextEditor {
            cursor_row: row as usize,
            cursor_col: onward_hit(e, p, row)->0 as usize,
            scroll_offset: scroll_to_hit(e, row, false, visible_height) as usize,
            ..e
        })
        &&& r.cursor_col == onward_hit(e, p, row)->0
    } else if exists|row: int| first_wrapped(e, p, row) {
        let row = choose|row: int| first_wrapped(e, p, row);
        &&& found
        &&& r == (TextEditor {
            cursor_row: row as usize,
            cursor_col: line_hit(e.content@[row]@, 0, p)->0 as usize,
            scroll_offset: scroll_to_hit(e, row, true, visible_height) as usize,
            ..e
        })
        &&& r.cursor_col == line_hit(e.content@[row]@, 0, p)->0
    } else {
        &&& !found
        &&& r == e
    }
}

/// The hit in the text `line` for the characters `p`, searching from byte
/// offset `from`.
fn find_in_line(line: &str, from: usize, p: &Vec<char>) -> (r: Option<usize>)
    requires
        is_boundary(lowercase_of(line@), from as int),
    ensures
        match r {
            Some(c) => line_hit(line@, from as int, p@) == Some(c as int),
            None => line_hit(line@, from as int, p@) is None,
        },
{
    let lower = lowercase(line);
    let total = string_len(&lower);
    let cs = chars_of(lower.as_str());
    let k0 = char_index_at(&cs, from, total);
    match find_from(&cs, k0, p) {
        Some(i) => {
            proof {
                let ls = lowercase_of(line@);
                let c = choose|j: int| first_occurrence_from(ls, p@, k0 as int, j);
                assert(first_occurrence_from(ls, p@, k0 as int, i as int));
                if c < i {
                    assert(!occurs_at(ls, p@, c));
                } else if i < c {
                    assert(!occurs_at(ls, p@, i as int));
                }
            }
            Some(byte_offset_at(&cs, i, total))
        },
        None => None,
    }
}

impl TextEditor {
    /// Search the text for `pattern`, ignoring case, from the cursor on and
    /// then from the top; nothing happens for an empty pattern (`None`),
    /// else whether it was found.
    pub fn search(&mut self, pattern: &str, visible_height: usize) -> (r: Option<bool>)
        requires
            can_search(*old(self), visible_height),
        ensures
            pattern@.len() == 0 ==> r is None && *final(self) == *old(self),
            pattern@.len() > 0 ==> (r matches Some(found) && searched(
                *old(self),
                lowercase_of(pattern@),
                visible_height,
                *final(self),
                found,
            )),
    {
        if pattern.is_empty() {
            return None;
        }
        let ghost e = *self;
        let lower = lowercase(pattern);
        let p = chars_of(lower.as_str());
        let page: usize = if visible_height > 0 {
            visible_height
        } else {
            20
        };
        let n = self.content.len();
        let start_row = self.cursor_row;
        let mut row = start_row;
        while row < n
            invariant
                e == *self,
                e == *old(self),
                pattern@.len() > 0,
                n == e.content@.len(),
                p@ == lowercase_of(pattern@),
                start_row == e.cursor_row,
                start_row <= row,
                can_search(e, visible_height),
                page == editor_page(visible_height),
                forall|q: int| e.cursor_row <= q < row ==> onward_hit(e, p@, q) is None,
            decreases n - row,
        {
            let from = if row == start_row {
                self.cursor_col
            } else {
                0
            };
            proof {
                if row != start_row {
                    lemma_char_pos_of_offset(lowercase_of(e.content@[row as int]@), 0);
                    assert(lowercase_of(e.content@[row as int]@).take(0) =~= Seq::<char>::empty());
                }
            }
            match find_in_line(self.content[row].as_str(), from, &p) {
                Some(col) => {
                    proof {
                        assert(first_onward(e, p@, row as int));
                        let c = choose|q: int| first_onward(e, p@, q);
                        if c < row {
                            assert(onward_hit(e, p@, c) is None);
                        } else if row < c {
                            assert(onward_hit(e, p@, row as int) is None);
                        }
                        assert(c == row);
                    }
                    self.cursor_row = row;
                    self.cursor_col = col;
                    if row >= self.scroll_offset + page {
                        self.scroll_offset = if row >= page / 2 {
                            row - page / 2
                        } else {
                            0
                        };
                    }
                    assert(self.scroll_offset == scroll_to_hit(e, row as int, false, visible_height));
                    assert(*self == (TextEditor {
                        cursor_row: row,
                        cursor_col: col,
                        scroll_offset: scroll_to_hit(e, row as int, false, visible_height) as usize,
                        ..e
                    }));
                    return Some(true);
                },
                None => {},
            }
            row = row + 1;
        }
        let end = if start_row + 1 < n {
            start_row + 1
        } else {
            n
        };
        let mut row: usize = 0;
        while row < end
            invariant
                e == *self,
                e == *old(self),
                pattern@.len() > 0,
                n == e.content@.len(),
                p@ == lowercase_of(pattern@),
                start_row == e.cursor_row,
                end <= n,
                end <= start_row + 1,
                row <= end,
                can_search(e, visible_height),
                page == editor_page(visible_height),
                !(exists|q: int| first_onward(e, p@, q)),
                forall|q: int| 0 <= q < row ==> line_hit(e.content@[q]@, 0, p@) is None,
            decreases end - row,
        {
            proof {
                lemma_char_pos_of_offset(lowercase_of(e.content@[row as int]@), 0);
                assert(lowercase_of(e.content@[row as int]@).take(0) =~= Seq::<char>::empty());
            }
            match find_in_line(self.content[row].as_str(), 0, &p) {
                Some(col) => {
                    proof {
                        assert(first_wrapped(e, p@, row as int));
                        let c = choose|q: int| first_wrapped(e, p@, q);
                        if c < row {
                            assert(line_hit(e.content@[c]@, 0, p@) is None);
                        } else if row < c {
                            assert(line_hit(e.content@[row as int]@, 0, p@) is None);
                        }
                        assert(c == row);
                    }
                    self.cursor_row = row;
                    self.cursor_col = col;
                    if row < self.scroll_offset {
                        self.scroll_offset = row;
                    } else if row >= self.scroll_offset + page {
                        self.scroll_offset = if row >= page / 2 {
                            row - page / 2
                        } else {
                            0
                        };
                    }
                    assert(self.scroll_offset == scroll_to_hit(e, row as int, true, visible_height));
                    assert(*self == (TextEditor {
                        cursor_row: row,
                        cursor_col: col,
                        scroll_offset: scroll_to_hit(e, row as int, true, visible_height) as usize,
                        ..e
                    }));
                    return Some(true);
                },
                None => {},
            }
            row = row + 1;
        }
        proof {
            assert forall|q: int| !first_wrapped(e, p@, q) by {
                if first_wrapped(e, p@, q) {
                    assert(q < end);
                }
            }
        }
        Some(false)
    }
}

/// An entry waiting for the user to confirm its deletion: the kind of
/// storage it lives on, its path there, the path to show, and whether it
/// is a directory.
#[derive(Debug, Clone)]
pub struct DeleteTarget {
    pub backend: BackendType,
    pub path: String,
    pub display_path: String,
    pub is_dir: bool,
}

/// Progress of a long operation.
#[derive(Debug, Clone)]
pub struct Progress {
    pub stage: ProgressStage,
    pub current: u64,
    pub total: u64,
    pub current_file: String,
    pub files_done: usize,
    pub total_files: usize,
}

/// The stage of a long operation.
#[derive(Debug, Clone, Copy, PartialEq, Eq, Structural)]
pub enum ProgressStage {
    Counting,
    Archiving,
    Transferring,
    Extracting,
    Complete,
}

/// The pane that has the focus.
#[derive(Debug, Clone, Copy, PartialEq, Eq, Structural)]
pub enum ActivePane {
    Left,
    Right,
}

} // verus!
