//! The disk cleaner's browser: the entries of the directory shown, the
//! selection, the directories entered on the way down, and the pending
//! confirmations. Scanning the tree, sorting a directory's entries and
//! deleting are done by the caller, which loads each directory's entries.
use vstd::prelude::*;
use crate::paths::{file_name, path_file_name};
use crate::text::{push_str, str_eq, to_string};
use crate::events::Key;

verus! {

/// An entry of a scanned directory.
#[derive(Debug, Clone)]
pub struct CleanerEntry {
    pub name: String,
    pub path: String,
    pub size: u64,
    pub is_dir: bool,
}

/// How the entries are ordered.
#[derive(Debug, Clone, Copy, PartialEq, Eq, Structural)]
pub enum CleanerSortMode {
    Size,
    Name,
}

/// What a key does in the cleaner's browser.
#[derive(Debug, Clone, Copy, PartialEq, Eq, Structural)]
pub enum CleanerCommand {
    Quit,
    Up,
    Down,
    Enter,
    Back,
    ToggleCleanConfirm,
    ToggleDeleteConfirm,
    DeleteSelected,
    CleanCurrent,
    CancelDelete,
    CancelClean,
    ToggleSort,
    Refresh,
    Top,
    Bottom,
    Ignore,
}

/// What `key` does in the cleaner's browser, with a delete or a clean
/// waiting for confirmation when `confirm_delete` or `confirm_clean`:
/// `q` or Esc quits; the arrows and `k`, `j`, `l`, `h` move, enter and go
/// back (so do Enter and Backspace); `c` and `d` ask to clean or delete;
/// `y` confirms what waits (the delete first) and `n` declines it; `s`
/// toggles the order, `r` rescans, Home/`g` and End/`G` jump.
pub open spec fn cleaner_command_spec(key: Key, confirm_delete: bool, confirm_clean: bool) -> CleanerCommand {
    match key {
        Key::Char('q') | Key::Esc => CleanerCommand::Quit,
        Key::Up | Key::Char('k') => CleanerCommand::Up,
        Key::Down | Key::Char('j') => CleanerCommand::Down,
        Key::Enter | Key::Right | Key::Char('l') => CleanerCommand::Enter,
        Key::Left | Key::Backspace | Key::Char('h') => CleanerCommand::Back,
        Key::Char('c') => CleanerCommand::ToggleCleanConfirm,
        Key::Char('d') => CleanerCommand::ToggleDeleteConfirm,
        Key::Char('y') => if confirm_delete {
            CleanerCommand::DeleteSelected
        } else if confirm_clean {
            CleanerCommand::CleanCurrent
        } else {
            CleanerCommand::Ignore
        },
        Key::Char('n') => if confirm_delete {
            CleanerCommand::CancelDelete
        } else if confirm_clean {
            CleanerCommand::CancelClean
        } else {
            CleanerCommand::Ignore
        },
        Key::Char('s') => CleanerCommand::ToggleSort,
        Key::Char('r') => CleanerCommand::Refresh,
        Key::Home | Key::Char('g') => CleanerCommand::Top,
        Key::End | Key::Char('G') => CleanerCommand::Bottom,
        _ => CleanerCommand::Ignore,
    }
}

/// What a key does in the cleaner's browser.
pub fn cleaner_command(key: Key, confirm_delete: bool, confirm_clean: bool) -> (r: CleanerCommand)
    ensures
        r == cleaner_command_spec(key, confirm_delete, confirm_clean),
{
    match key {
        Key::Char('q') | Key::Esc => CleanerCommand::Quit,
        Key::Up | Key::Char('k') => CleanerCommand::Up,
        Key::Down | Key::Char('j') => CleanerCommand::Down,
        Key::Enter | Key::Right | Key::Char('l') => CleanerCommand::Enter,
        Key::Left | Key::Backspace | Key::Char('h') => CleanerCommand::Back,
        Key::Char('c') => CleanerCommand::ToggleCleanConfirm,
        Key::Char('d') => CleanerCommand::ToggleDeleteConfirm,
        Key::Char('y') => if confirm_delete {
            CleanerCommand::DeleteSelected
        } else if confirm_clean {
            CleanerCommand::CleanCurrent
        } else {
            CleanerCommand::Ignore
        },
        Key::Char('n') => if confirm_delete {
            CleanerCommand::CancelDelete
        } else if confirm_clean {
            CleanerCommand::CancelClean
        } else {
            CleanerCommand::Ignore
        },
        Key::Char('s') => CleanerCommand::ToggleSort,
        Key::Char('r') => CleanerCommand::Refresh,
        Key::Home | Key::Char('g') => CleanerCommand::Top,
        Key::End | Key::Char('G') => CleanerCommand::Bottom,
        _ => CleanerCommand::Ignore,
    }
}

/// Opening the disk analyzer on the pane at `path`: only for the local file
/// system and an existing directory; else the message says why. On success
/// the message announces the scan.
pub fn analyzer_start(is_local: bool, is_dir: bool, path: &str) -> (r: Result<String, String>)
    ensures
        !is_local ==> (r matches Err(m) && m@ == "Disk analyzer only available for local filesystem"@),
        is_local && !is_dir ==> (r matches Err(m) && m@ == "Invalid directory for analysis"@),
        is_local && is_dir ==> (r matches Ok(m) && m@ == "Scanning "@ + path@ + "..."@),
{
    if !is_local {
        return Err(to_string("Disk analyzer only available for local filesystem"));
    }
    if !is_dir {
        return Err(to_string("Invalid directory for analysis"));
    }
    let mut m = to_string("Scanning ");
    push_str(&mut m, path);
    push_str(&mut m, "...");
    Ok(m)
}

/// The directory a rescan starts from: the first one entered, the root of
/// the session, or the current one when none was.
pub fn rescan_root(v: &CleanerView) -> (r: String)
    ensures
        r@ == if v.path_stack@.len() > 0 {
            v.path_stack@[0]@
        } else {
            v.current_path@
        },
{
    if v.path_stack.len() > 0 {
        to_string(v.path_stack[0].as_str())
    } else {
        to_string(v.current_path.as_str())
    }
}

/// The cleaner browser's state.
pub struct CleanerView {
    pub current_path: String,
    pub path_stack: Vec<String>,
    pub entries: Vec<CleanerEntry>,
    pub selected: usize,
    pub scroll_offset: usize,
    pub sort_mode: CleanerSortMode,
    pub confirm_delete: bool,
    pub confirm_clean: bool,
    pub total_size: u64,
    /// Last entered folder name (for cursor restoration on go_back)
    pub last_entered_folder: Option<String>,
}

/// The sum of the entries' sizes.
pub open spec fn sizes_sum(entries: Seq<CleanerEntry>) -> int
    decreases entries.len(),
{
    if entries.len() == 0 {
        0
    } else {
        sizes_sum(entries.drop_last()) + entries.last().size
    }
}

/// The first entry named `name`, if any.
pub open spec fn first_named(entries: Seq<CleanerEntry>, name: Seq<char>, i: int) -> bool {
    &&& 0 <= i < entries.len()
    &&& entries[i].name@ == name
    &&& forall|j: int| 0 <= j < i ==> (#[trigger] entries[j]).name@ != name
}

/// The selection is on an entry, or at the top of an empty list.
pub open spec fn selection_ok(v: CleanerView) -> bool {
    v.selected < v.entries@.len() || (v.entries@.len() == 0 && v.selected == 0)
}

/// What entering the selected entry asks of the caller.
#[derive(Debug, Clone)]
pub enum CleanerMove {
    /// Nothing to enter: no entry, or a file.
    Stay,
    /// The entry was the parent link: go back up.
    Back,
    /// The directory at this path was entered: load its entries.
    Entered(String),
}

proof fn lemma_sum_bounded(entries: Seq<CleanerEntry>, k: int)
    requires
        0 <= k <= entries.len(),
    ensures
        0 <= sizes_sum(entries.take(k)) <= sizes_sum(entries),
    decreases entries.len(),
{
    if k == entries.len() {
        assert(entries.take(k) =~= entries);
        if entries.len() > 0 {
            lemma_sum_bounded(entries.drop_last(), k - 1);
        }
    } else {
        assert(entries.drop_last().take(k) =~= entries.take(k));
        lemma_sum_bounded(entries.drop_last(), k);
    }
}

/// Entering the directory `e` from `v` gives `w`: the current path goes
/// on the stack, `e`'s path becomes current and its name is kept.
pub open spec fn enters_dir(v: CleanerView, w: CleanerView, e: CleanerEntry) -> bool {
    &&& w.path_stack@ == v.path_stack@.push(v.current_path)
    &&& w.current_path@ == e.path@
    &&& w.last_entered_folder matches Some(n) && n@ == e.name@
    &&& w.entries == v.entries
    &&& w.selected == v.selected
}

/// Going back from `v` gives `w`: the last path comes off the stack and
/// becomes current; `r` names the directory left.
pub open spec fn goes_back(v: CleanerView, w: CleanerView, r: Option<Option<String>>) -> bool {
    &&& w.path_stack@ == v.path_stack@.drop_last()
    &&& w.current_path == v.path_stack@.last()
    &&& r matches Some(n) && match path_file_name(v.current_path@) {
        Some(f) => n matches Some(s) && s@ == f,
        None => n is None,
    }
}

/// The index of the first entry named `name`.
fn find_named(entries: &Vec<CleanerEntry>, name: &str) -> (r: Option<usize>)
    ensures
        match r {
            Some(k) => first_named(entries@, name@, k as int),
            None => forall|i: int| !first_named(entries@, name@, i),
        },
{
    let mut k: usize = 0;
    while k < entries.len()
        invariant
            k <= entries@.len(),
            forall|j: int| 0 <= j < k ==> (#[trigger] entries@[j]).name@ != name@,
        decreases entries@.len() - k,
    {
        if str_eq(entries[k].name.as_str(), name) {
            return Some(k);
        }
        k = k + 1;
    }
    assert forall|i: int| !first_named(entries@, name@, i) by {
        if first_named(entries@, name@, i) {
            assert(entries@[i].name@ != name@);
        }
    }
    None
}

impl CleanerView {
    /// A browser at `root`, before any directory is loaded.
    pub fn new(root: String) -> (r: Self)
        ensures
            r.current_path == root,
            r.path_stack@.len() == 0,
            r.entries@.len() == 0,
            r.selected == 0,
            r.scroll_offset == 0,
            r.sort_mode == CleanerSortMode::Size,
            !r.confirm_delete,
            !r.confirm_clean,
            r.total_size == 0,
            r.last_entered_folder is None,
            selection_ok(r),
    {
        CleanerView {
            current_path: root,
            path_stack: Vec::new(),
            entries: Vec::new(),
            selected: 0,
            scroll_offset: 0,
            sort_mode: CleanerSortMode::Size,
            confirm_delete: false,
            confirm_clean: false,
            total_size: 0,
            last_entered_folder: None,
        }
    }

    /// Show the (sorted) entries of the current directory, selecting the
    /// first entry named `select_name` (the top when there is none), at
    /// the top of the list, with no confirmation pending.
    pub fn load_entries(&mut self, entries: Vec<CleanerEntry>, select_name: Option<&str>)
        requires
            sizes_sum(entries@) <= u64::MAX,
        ensures
            final(self).entries@ == entries@,
            final(self).total_size == sizes_sum(entries@),
            match select_name {
                Some(n) => if exists|i: int| first_named(entries@, n@, i) {
                    first_named(entries@, n@, final(self).selected as int)
                } else {
                    final(self).selected == 0
                },
                None => final(self).selected == 0,
            },
            final(self).scroll_offset == 0,
            !final(self).confirm_delete,
            !final(self).confirm_clean,
            final(self).current_path == old(self).current_path,
            final(self).path_stack == old(self).path_stack,
            final(self).sort_mode == old(self).sort_mode,
            final(self).last_entered_folder == old(self).last_entered_folder,
            selection_ok(*final(self)),
    {
        let mut total: u64 = 0;
        let mut i: usize = 0;
        while i < entries.len()
            invariant
                i <= entries@.len(),
                total == sizes_sum(entries@.take(i as int)),
                sizes_sum(entries@) <= u64::MAX,
            decreases entries@.len() - i,
        {
            proof {
                assert(entries@.take(i + 1).drop_last() =~= entries@.take(i as int));
                lemma_sum_bounded(entries@, i + 1);
            }
            total = total + entries[i].size;
            i = i + 1;
        }
        assert(entries@.take(i as int) =~= entries@);
        let selected: usize = match select_name {
            Some(name) => match find_named(&entries, name) {
                Some(k) => k,
                None => 0,
            },
            None => 0,
        };
        self.entries = entries;
        self.total_size = total;
        self.selected = selected;
        self.scroll_offset = 0;
        self.confirm_delete = false;
        self.confirm_clean = false;
    }

    /// Select the entry above, if any; confirmations are dropped.
    pub fn move_up(&mut self)
        ensures
            final(self).selected == if old(self).selected > 0 {
                (old(self).selected - 1) as usize
            } else {
                0
            },
            !final(self).confirm_delete,
            !final(self).confirm_clean,
            final(self).entries == old(self).entries,
            final(self).current_path == old(self).current_path,
            selection_ok(*old(self)) ==> selection_ok(*final(self)),
    {
        if self.selected > 0 {
            self.selected = self.selected - 1;
        }
        self.confirm_delete = false;
        self.confirm_clean = false;
    }

    /// Select the entry below, if any; confirmations are dropped.
    pub fn move_down(&mut self)
        ensures
            final(self).selected == if old(self).entries@.len() > 0 && old(self).selected
                < old(self).entries@.len() - 1 {
                (old(self).selected + 1) as usize
            } else {
                old(self).selected
            },
            !final(self).confirm_delete,
            !final(self).confirm_clean,
            final(self).entries == old(self).entries,
            final(self).current_path == old(self).current_path,
            selection_ok(*old(self)) ==> selection_ok(*final(self)),
    {
        let last = if self.entries.len() > 0 {
            self.entries.len() - 1
        } else {
            0
        };
        if self.selected < last {
            self.selected = self.selected + 1;
        }
        self.confirm_delete = false;
        self.confirm_clean = false;
    }

    /// Select the first entry and scroll to the top.
    pub fn go_top(&mut self)
        ensures
            final(self).selected == 0,
            final(self).scroll_offset == 0,
            !final(self).confirm_delete,
            !final(self).confirm_clean,
            final(self).entries == old(self).entries,
            final(self).current_path == old(self).current_path,
            selection_ok(*final(self)) || old(self).entries@.len() > 0,
    {
        self.selected = 0;
        self.scroll_offset = 0;
        self.confirm_delete = false;
        self.confirm_clean = false;
    }

    /// Select the last entry.
    pub fn go_bottom(&mut self)
        ensures
            final(self).selected == if old(self).entries@.len() > 0 {
                (old(self).entries@.len() - 1) as usize
            } else {
                0
            },
            !final(self).confirm_delete,
            !final(self).confirm_clean,
            final(self).entries == old(self).entries,
            final(self).current_path == old(self).current_path,
            selection_ok(*final(self)),
    {
        self.selected = if self.entries.len() > 0 {
            self.entries.len() - 1
        } else {
            0
        };
        self.confirm_delete = false;
        self.confirm_clean = false;
    }

    /// Enter the selected entry: the parent link goes back; a directory is
    /// entered (the current path goes on the stack and its name is kept
    /// for going back); a file or no entry does nothing.
    pub fn enter(&mut self) -> (r: CleanerMove)
        ensures
            old(self).selected < old(self).entries@.len() && old(self).entries@[old(
                self,
            ).selected as int].is_dir ==> ({
                let e = old(self).entries@[old(self).selected as int];
                if e.name@ == ".."@ {
                    r is Back && *final(self) == *old(self)
                } else {
                    &&& r matches CleanerMove::Entered(p) && p@ == e.path@
                    &&& enters_dir(*old(self), *final(self), e)
                }
            }),
            !(old(self).selected < old(self).entries@.len() && old(self).entries@[old(
                self,
            ).selected as int].is_dir) ==> r is Stay && *final(self) == *old(self),
    {
        if self.selected >= self.entries.len() {
            return CleanerMove::Stay;
        }
        let i = self.selected;
        if !self.entries[i].is_dir {
            return CleanerMove::Stay;
        }
        if str_eq(self.entries[i].name.as_str(), "..") {
            return CleanerMove::Back;
        }
        let name = self.entries[i].name.clone();
        let path = self.entries[i].path.clone();
        let target = self.entries[i].path.clone();
        self.last_entered_folder = Some(name);
        let mut here = path;
        std::mem::swap(&mut here, &mut self.current_path);
        self.path_stack.push(here);
        CleanerMove::Entered(target)
    }

    /// Go back to the directory entered before: the current path comes off
    /// the stack, and the name of the directory left is given back for
    /// selecting it once the entries are loaded; confirmations are dropped.
    pub fn go_back(&mut self) -> (r: Option<Option<String>>)
        ensures
            old(self).path_stack@.len() == 0 ==> r is None && final(self).path_stack@
                == old(self).path_stack@ && final(self).current_path == old(self).current_path,
            old(self).path_stack@.len() > 0 ==> goes_back(*old(self), *final(self), r),
            !final(self).confirm_delete,
            !final(self).confirm_clean,
            final(self).entries == old(self).entries,
            final(self).selected == old(self).selected,
    {
        let r = match self.path_stack.pop() {
            Some(prev) => {
                let name = file_name(self.current_path.as_str());
                self.current_path = prev;
                Some(name)
            },
            None => None,
        };
        self.confirm_delete = false;
        self.confirm_clean = false;
        r
    }

    /// Switch between ordering by size and by name (the caller re-sorts).
    pub fn toggle_sort(&mut self)
        ensures
            final(self).sort_mode == (if old(self).sort_mode == CleanerSortMode::Size {
                CleanerSortMode::Name
            } else {
                CleanerSortMode::Size
            }),
            final(self).entries == old(self).entries,
            final(self).selected == old(self).selected,
    {
        self.sort_mode = match self.sort_mode {
            CleanerSortMode::Size => CleanerSortMode::Name,
            CleanerSortMode::Name => CleanerSortMode::Size,
        };
    }

    /// Ask (or stop asking) to delete the selected entry, unless it is the
    /// parent link; the clean confirmation is dropped.
    pub fn toggle_delete_confirm(&mut self)
        requires
            selection_ok(*old(self)),
        ensures
            old(self).entries@.len() > 0 && old(self).entries@[old(
                self,
            ).selected as int].name@ != ".."@ ==> final(self).confirm_delete
                == !old(self).confirm_delete && !final(self).confirm_clean,
            !(old(self).entries@.len() > 0 && old(self).entries@[old(
                self,
            ).selected as int].name@ != ".."@) ==> final(self).confirm_delete
                == old(self).confirm_delete && final(self).confirm_clean == old(self).confirm_clean,
            final(self).entries == old(self).entries,
            final(self).selected == old(self).selected,
    {
        if self.entries.len() > 0 {
            if !str_eq(self.entries[self.selected].name.as_str(), "..") {
                self.confirm_delete = !self.confirm_delete;
                self.confirm_clean = false;
            }
        }
    }

    /// Ask (or stop asking) to clean the directory; the delete
    /// confirmation is dropped.
    pub fn toggle_clean_confirm(&mut self)
        ensures
            final(self).confirm_clean == !old(self).confirm_clean,
            !final(self).confirm_delete,
            final(self).entries == old(self).entries,
            final(self).selected == old(self).selected,
    {
        self.confirm_clean = !self.confirm_clean;
        self.confirm_delete = false;
    }

    /// The selected entry, if the selection is on one.
    pub fn selected_entry(&self) -> (r: Option<&CleanerEntry>)
        ensures
            self.selected < self.entries@.len() ==> (r matches Some(e) && *e
                == self.entries@[self.selected as int]),
            self.selected >= self.entries@.len() ==> r is None,
    {
        if self.selected < self.entries.len() {
            Some(&self.entries[self.selected])
        } else {
            None
        }
    }
}

/// Entering a directory and going back returns to the directory and the
/// stack of directories as they were, and names the directory left so that
/// it can be selected again.
pub proof fn lemma_enter_then_back(
    v: CleanerView,
    e: CleanerEntry,
    w: CleanerView,
    x: CleanerView,
    r: Option<Option<String>>,
)
    requires
        enters_dir(v, w, e),
        goes_back(w, x, r),
    ensures
        x.current_path == v.current_path,
        x.path_stack@ == v.path_stack@,
        r matches Some(n) && match path_file_name(e.path@) {
            Some(f) => n matches Some(s) && s@ == f,
            None => n is None,
        },
{
    assert(v.path_stack@.push(v.current_path).drop_last() =~= v.path_stack@);
}

} // verus!
