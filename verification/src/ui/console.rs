//! The title of the console pane.
use vstd::prelude::*;
use crate::text::{push_str, to_string};
use crate::ui::helpers::{fit, fit_spec};

verus! {

/// The console's title: its name and the keys that apply, which depend on
/// whether the console has the focus, fitted into `width` columns.
pub open spec fn title_spec(width: usize, focused: bool) -> Seq<char> {
    let hint = if focused {
        "Esc pane  ^X size"@
    } else {
        "c focus  ^X size"@
    };
    fit_spec(" Console — "@ + hint + " "@, width)
}

pub fn title_text(width: usize, focused: bool) -> (r: String)
    ensures
        r@ == title_spec(width, focused),
{
    let hint = if focused {
        "Esc pane  ^X size"
    } else {
        "c focus  ^X size"
    };
    let mut label = to_string(" Console — ");
    push_str(&mut label, hint);
    push_str(&mut label, " ");
    fit(label.as_str(), width)
}

} // verus!
