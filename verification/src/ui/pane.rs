//! A file pane: its path, its entries, the selected entry and whether it
//! has the focus. The storage a pane lists is kept beside it by the caller.
use vstd::prelude::*;
use crate::app::ActivePane;
use crate::fs::types::FileEntry;

verus! {

/// A file pane.
pub struct Pane {
    pub path: String,
    pub entries: Vec<FileEntry>,
    /// The index of the selected entry, if any.
    pub selected: Option<usize>,
    pub is_active: bool,
}

/// The selection after moving down: the next entry, wrapping from the last
/// to the first; the first when nothing was selected; unchanged in an empty
/// list.
pub open spec fn next_spec(selected: Option<usize>, len: usize) -> Option<usize> {
    if len == 0 {
        selected
    } else {
        match selected {
            Some(i) => if i >= len - 1 {
                Some(0usize)
            } else {
                Some((i + 1) as usize)
            },
            None => Some(0usize),
        }
    }
}

/// The selection after moving up: the previous entry, wrapping from the
/// first to the last; the first when nothing was selected; unchanged in an
/// empty list.
pub open spec fn previous_spec(selected: Option<usize>, len: usize) -> Option<usize> {
    if len == 0 {
        selected
    } else {
        match selected {
            Some(i) => if i == 0 {
                Some((len - 1) as usize)
            } else {
                Some((i - 1) as usize)
            },
            None => Some(0usize),
        }
    }
}

impl Pane {
    /// A pane on `path`, with no entries yet and the first row selected.
    pub fn new(path: String) -> (r: Self)
        ensures
            r.path == path,
            r.entries@.len() == 0,
            r.selected == Some(0usize),
            !r.is_active,
    {
        Pane { path, entries: Vec::new(), selected: Some(0), is_active: false }
    }

    /// A pane on the storage selection menu.
    pub fn new_selecting() -> (r: Self)
        ensures
            r.path@ == Seq::<char>::empty(),
            r.entries@.len() == 0,
            r.selected == Some(0usize),
            !r.is_active,
    {
        Pane { path: String::new(), entries: Vec::new(), selected: Some(0), is_active: false }
    }

    /// Select the next entry.
    pub fn select_next(&mut self)
        ensures
            final(self).selected == next_spec(old(self).selected, old(self).entries@.len() as usize),
            final(self).path == old(self).path,
            final(self).entries == old(self).entries,
            final(self).is_active == old(self).is_active,
    {
        if self.entries.len() == 0 {
            return;
        }
        let i = match self.selected {
            Some(i) => {
                if i >= self.entries.len() - 1 {
                    0
                } else {
                    i + 1
                }
            },
            None => 0,
        };
        self.selected = Some(i);
    }

    /// Select the previous entry.
    pub fn select_previous(&mut self)
        ensures
            final(self).selected == previous_spec(
                old(self).selected,
                old(self).entries@.len() as usize,
            ),
            final(self).path == old(self).path,
            final(self).entries == old(self).entries,
            final(self).is_active == old(self).is_active,
    {
        if self.entries.len() == 0 {
            return;
        }
        let i = match self.selected {
            Some(i) => {
                if i == 0 {
                    self.entries.len() - 1
                } else {
                    i - 1
                }
            },
            None => 0,
        };
        self.selected = Some(i);
    }

    /// The selected entry, if the selection is on an entry.
    pub fn selected_entry(&self) -> (r: Option<&FileEntry>)
        ensures
            match self.selected {
                Some(i) => if i < self.entries@.len() {
                    r matches Some(e) && *e == self.entries@[i as int]
                } else {
                    r is None
                },
                None => r is None,
            },
    {
        match self.selected {
            Some(i) => {
                if i < self.entries.len() {
                    Some(&self.entries[i])
                } else {
                    None
                }
            },
            None => None,
        }
    }
}

/// Move the focus to the other pane: both panes' flags flip, and the
/// active pane is the left one exactly when it now has the focus.
pub fn switch_pane(left: &mut Pane, right: &mut Pane) -> (r: ActivePane)
    ensures
        final(left).is_active == !old(left).is_active,
        final(right).is_active == !old(right).is_active,
        r == (if final(left).is_active {
            ActivePane::Left
        } else {
            ActivePane::Right
        }),
        final(left).path == old(left).path,
        final(left).entries == old(left).entries,
        final(left).selected == old(left).selected,
        final(right).path == old(right).path,
        final(right).entries == old(right).entries,
        final(right).selected == old(right).selected,
{
    left.is_active = !left.is_active;
    right.is_active = !right.is_active;
    if left.is_active {
        ActivePane::Left
    } else {
        ActivePane::Right
    }
}

/// Moving down then up, or up then down, comes back to a selected entry.
pub proof fn lemma_next_then_previous(i: usize, len: usize)
    requires
        i < len,
    ensures
        previous_spec(next_spec(Some(i), len), len) == Some(i),
        next_spec(previous_spec(Some(i), len), len) == Some(i),
{
}

/// Moving down from the last entry wraps to the first, and moving up from
/// the first wraps to the last.
pub proof fn lemma_selection_wraps(len: usize)
    requires
        len > 0,
    ensures
        next_spec(Some((len - 1) as usize), len) == Some(0usize),
        previous_spec(Some(0usize), len) == Some((len - 1) as usize),
{
}

} // verus!
