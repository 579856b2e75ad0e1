//! The status line: notices and the details beside the current name.
use vstd::prelude::*;
use crate::text::{dec_str, decimal, push_str, to_string};
use crate::ui::helpers::{
    display_width,
    fit,
    fit_spec,
    pad_right,
    pad_right_spec,
    prefix_columns,
    str_width,
    suffix_columns,
    take_prefix_columns,
    take_suffix_columns,
};

verus! {

/// A notice fitted into `width` columns: the start keeps a third of the
/// columns left beside the ellipsis, the end (where results tend to be)
/// the rest.
pub open spec fn truncate_notice_spec(value: Seq<char>, width: usize) -> Seq<char> {
    if str_width(value) <= width {
        value
    } else if width < 5 {
        fit_spec(value, width)
    } else {
        let left = (width - 1) / 3;
        let right = width - left - 1;
        prefix_columns(value, left) + "…"@ + suffix_columns(value, right)
    }
}

/// Fit a notice into `width` columns, keeping more of its end.
pub fn truncate_notice(value: &str, width: usize) -> (r: String)
    ensures
        r@ == truncate_notice_spec(value@, width),
{
    if display_width(value) <= width {
        return to_string(value);
    }
    if width < 5 {
        return fit(value, width);
    }
    let left = (width - 1) / 3;
    let right = width - left - 1;
    let mut s = take_prefix_columns(value, left);
    push_str(&mut s, "…");
    let end = take_suffix_columns(value, right);
    push_str(&mut s, end.as_str());
    s
}

/// A notice as the status line shows it: after a space, fitted and padded
/// to the full width.
pub fn notice_line(notice: &str, width: usize) -> (r: String)
    ensures
        r@ == pad_right_spec(truncate_notice_spec(" "@ + notice@, width), width),
{
    let mut s = to_string(" ");
    push_str(&mut s, notice);
    let t = truncate_notice(s.as_str(), width);
    pad_right(t.as_str(), width)
}

/// What follows the current name in the status line: the number of marked
/// entries, if any, then a persistent status, if any.
pub open spec fn status_details_spec(marks: usize, status: Option<Seq<char>>) -> Seq<char> {
    match status {
        None => if marks == 0 {
            Seq::empty()
        } else {
            "  ["@ + dec_str(marks as nat) + " marked]"@
        },
        Some(s) => if marks == 0 {
            " — "@ + s
        } else {
            "  ["@ + dec_str(marks as nat) + " marked]"@ + " — "@ + s
        },
    }
}

/// The details beside the current name.
pub fn status_details(marks: usize, persistent_status: Option<&str>) -> (r: String)
    ensures
        r@ == status_details_spec(
            marks,
            match persistent_status {
                Some(s) => Some(s@),
                None => None,
            },
        ),
{
    let mut out = String::new();
    if marks > 0 {
        push_str(&mut out, "  [");
        let d = decimal(marks as u64);
        push_str(&mut out, d.as_str());
        push_str(&mut out, " marked]");
    }
    match persistent_status {
        Some(status) => {
            push_str(&mut out, " — ");
            push_str(&mut out, status);
        },
        None => {},
    }
    assert(out@ =~= status_details_spec(
        marks,
        match persistent_status {
            Some(s) => Some(s@),
            None => None,
        },
    ));
    out
}

} // verus!
