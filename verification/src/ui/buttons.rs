//! The action buttons of the bottom bar: their keys, their labels, and
//! which of them each view disables.
use vstd::prelude::*;

verus! {

/// A button of the bottom bar.
#[derive(Clone, Copy, Debug, Eq, PartialEq, Structural)]
pub enum ActionButton {
    /// Leave Analyze or Sync mode (shown as Esc before digit 1).
    EscLeave,
    Help,
    View,
    Mkdir,
    Copy,
    Move,
    Delete,
    Refresh,
    Sync,
    Analyze,
    Quit,
}

/// The key of a button.
pub open spec fn key_of(b: ActionButton) -> Seq<char> {
    match b {
        ActionButton::EscLeave => "Esc"@,
        ActionButton::Help => "1"@,
        ActionButton::View => "2"@,
        ActionButton::Sync => "3"@,
        ActionButton::Analyze => "4"@,
        ActionButton::Copy => "5"@,
        ActionButton::Move => "6"@,
        ActionButton::Mkdir => "7"@,
        ActionButton::Delete => "8"@,
        ActionButton::Refresh => "9"@,
        ActionButton::Quit => "0"@,
    }
}

/// The usual label of a button.
pub open spec fn label_of(b: ActionButton) -> Seq<char> {
    match b {
        ActionButton::EscLeave => "Quit"@,
        ActionButton::Help => "Help"@,
        ActionButton::View => "View"@,
        ActionButton::Mkdir => "Mkdir"@,
        ActionButton::Copy => "Copy"@,
        ActionButton::Move => "Move"@,
        ActionButton::Delete => "Delete"@,
        ActionButton::Refresh => "Refresh"@,
        ActionButton::Sync => "Sync"@,
        ActionButton::Analyze => "Analyze"@,
        ActionButton::Quit => "Quit"@,
    }
}

impl ActionButton {
    pub fn key(self) -> (r: &'static str)
        ensures
            r@ == key_of(self),
    {
        match self {
            Self::EscLeave => "Esc",
            Self::Help => "1",
            Self::View => "2",
            Self::Sync => "3",
            Self::Analyze => "4",
            Self::Copy => "5",
            Self::Move => "6",
            Self::Mkdir => "7",
            Self::Delete => "8",
            Self::Refresh => "9",
            Self::Quit => "0",
        }
    }

    pub fn label(self) -> (r: &'static str)
        ensures
            r@ == label_of(self),
    {
        match self {
            Self::EscLeave => "Quit",
            Self::Help => "Help",
            Self::View => "View",
            Self::Mkdir => "Mkdir",
            Self::Copy => "Copy",
            Self::Move => "Move",
            Self::Delete => "Delete",
            Self::Refresh => "Refresh",
            Self::Sync => "Sync",
            Self::Analyze => "Analyze",
            Self::Quit => "Quit",
        }
    }
}

/// Whether a button is disabled: in the sync view only Analyze; in the
/// analyzer View, Mkdir, Sync and Analyze; in the source list all but
/// Help, Refresh, Sync, Analyze and Quit; inside an archive Move, Delete,
/// Refresh and Analyze; elsewhere none.
pub open spec fn disabled_spec(
    b: ActionButton,
    in_archive: bool,
    in_sources: bool,
    in_analyze: bool,
    in_sync: bool,
) -> bool {
    if in_sync {
        b == ActionButton::Analyze
    } else if in_analyze {
        b == ActionButton::View || b == ActionButton::Mkdir || b == ActionButton::Sync || b
            == ActionButton::Analyze
    } else if in_sources {
        !(b == ActionButton::Help || b == ActionButton::Refresh || b == ActionButton::Sync || b
            == ActionButton::Analyze || b == ActionButton::Quit)
    } else if in_archive {
        b == ActionButton::Move || b == ActionButton::Delete || b == ActionButton::Refresh || b
            == ActionButton::Analyze
    } else {
        false
    }
}

pub fn button_disabled(
    button: ActionButton,
    in_archive: bool,
    in_sources: bool,
    in_analyze: bool,
    in_sync: bool,
) -> (r: bool)
    ensures
        r == disabled_spec(button, in_archive, in_sources, in_analyze, in_sync),
{
    if in_sync {
        return button == ActionButton::Analyze;
    }
    if in_analyze {
        // Esc Quit leaves Analyze; digits: 1 Help, 5 Sort, 6 Clean, 8 Delete, 9 Refresh, 0 Exit
        return matches!(
            button,
            ActionButton::View | ActionButton::Mkdir | ActionButton::Sync | ActionButton::Analyze
        );
    }
    if in_sources {
        return !matches!(
            button,
            ActionButton::Help | ActionButton::Refresh | ActionButton::Sync | ActionButton::Analyze
                | ActionButton::Quit
        );
    }
    if in_archive {
        return matches!(button, ActionButton::Move | ActionButton::Delete | ActionButton::Refresh)
            || button == ActionButton::Analyze;
    }
    false
}

/// The label of a button in the sync view.
pub open spec fn sync_label(b: ActionButton) -> Seq<char> {
    match b {
        ActionButton::EscLeave => "Exit"@,
        ActionButton::Help => "Help"@,
        ActionButton::View => "Inspect"@,
        ActionButton::Sync => "Run Sync"@,
        ActionButton::Analyze => ""@,
        ActionButton::Copy => "Direction"@,
        ActionButton::Move => "Method"@,
        ActionButton::Mkdir => "Filter"@,
        ActionButton::Delete => "Strategy"@,
        ActionButton::Refresh => "Compare"@,
        ActionButton::Quit => "Exit"@,
    }
}

/// The label of a button in the analyzer.
pub open spec fn analyze_label(b: ActionButton) -> Seq<char> {
    match b {
        ActionButton::EscLeave => "Quit"@,
        ActionButton::Help => "Help"@,
        ActionButton::View => ""@,
        ActionButton::Mkdir => ""@,
        ActionButton::Sync => ""@,
        ActionButton::Analyze => ""@,
        ActionButton::Copy => "Sort"@,
        ActionButton::Move => "Clean"@,
        ActionButton::Delete => "Delete"@,
        ActionButton::Refresh => "Refresh"@,
        ActionButton::Quit => "Exit"@,
    }
}

/// The label a button shows: per view in the sync view and the analyzer;
/// inside an archive Copy extracts, Mkdir tests, and disabled Move, Refresh
/// and Delete keep their slot without a label; else the usual label.
pub open spec fn shown_label(
    b: ActionButton,
    in_archive: bool,
    in_analyze: bool,
    in_sync: bool,
    disabled: bool,
) -> Seq<char> {
    if in_sync {
        sync_label(b)
    } else if in_analyze {
        analyze_label(b)
    } else if in_archive && b == ActionButton::Copy {
        "Extract"@
    } else if in_archive && b == ActionButton::Mkdir {
        "Test"@
    } else if in_archive && disabled && (b == ActionButton::Move || b == ActionButton::Refresh || b
        == ActionButton::Delete) {
        ""@
    } else {
        label_of(b)
    }
}

pub fn button_label(
    button: ActionButton,
    in_archive: bool,
    in_analyze: bool,
    in_sync: bool,
    disabled: bool,
) -> (r: &'static str)
    ensures
        r@ == shown_label(button, in_archive, in_analyze, in_sync, disabled),
{
    if in_sync {
        return match button {
            ActionButton::EscLeave => "Exit",
            ActionButton::Help => "Help",
            ActionButton::View => "Inspect",
            ActionButton::Sync => "Run Sync",
            ActionButton::Analyze => "",
            ActionButton::Copy => "Direction",
            ActionButton::Move => "Method",
            ActionButton::Mkdir => "Filter",
            ActionButton::Delete => "Strategy",
            ActionButton::Refresh => "Compare",
            ActionButton::Quit => "Exit",
        };
    }
    if in_analyze {
        return match button {
            ActionButton::EscLeave => "Quit",
            ActionButton::Help => "Help",
            ActionButton::View | ActionButton::Mkdir | ActionButton::Sync | ActionButton::Analyze => "",
            ActionButton::Copy => "Sort",
            ActionButton::Move => "Clean",
            ActionButton::Delete => "Delete",
            ActionButton::Refresh => "Refresh",
            ActionButton::Quit => "Exit",
        };
    }
    if in_archive && button == ActionButton::Copy {
        return "Extract";
    }
    if in_archive && button == ActionButton::Mkdir {
        return "Test";
    }
    // Keep slots, but do not advertise move/refresh/delete inside archives.
    if in_archive && disabled && matches!(
        button,
        ActionButton::Move | ActionButton::Refresh | ActionButton::Delete
    ) {
        return "";
    }
    button.label()
}

} // verus!
