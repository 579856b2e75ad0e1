//! The rows of the file panes.
use vstd::prelude::*;
use crate::text::{dec_str, decimal, push_str, to_string};
use crate::ui::layout::Rect;
use crate::ui::helpers::{
    fit,
    fit_filename,
    fit_spec,
    pad_left,
    pad_left_spec,
    pad_right,
    pad_right_spec,
    truncate_middle,
    truncate_middle_spec,
};

verus! {

/// A name fitted into `width` columns, keeping its extension or its start.
pub open spec fn fitted_name(name: Seq<char>, width: usize, preserve_extension: bool) -> Seq<char> {
    if preserve_extension {
        truncate_middle_spec(name, width)
    } else {
        fit_spec(name, width)
    }
}

/// A pane row: the name, then the size and the age right-aligned in ten
/// and seven columns; below 22 columns only the name.
pub open spec fn columns_spec(
    name: Seq<char>,
    size: Seq<char>,
    age: Seq<char>,
    width: usize,
    preserve_extension: bool,
) -> Seq<char> {
    if width < 22 {
        fitted_name(name, width, preserve_extension)
    } else {
        let name_width = (width - 19) as usize;
        pad_right_spec(fitted_name(name, name_width, preserve_extension), name_width) + " "@
            + pad_left_spec(size, 10) + " "@ + pad_left_spec(age, 7)
    }
}

/// A row of a file pane.
pub fn columns(name: &str, size: &str, age: &str, width: u16, preserve_extension: bool) -> (r:
    String)
    ensures
        r@ == columns_spec(name@, size@, age@, width as usize, preserve_extension),
{
    let width = width as usize;
    if width < 22 {
        return if preserve_extension {
            fit_filename(name, width)
        } else {
            fit(name, width)
        };
    }
    let age_width: usize = 7;
    let size_width: usize = 10;
    let name_width = width - (age_width + size_width + 2);
    let fitted = if preserve_extension {
        fit_filename(name, name_width)
    } else {
        fit(name, name_width)
    };
    let mut s = pad_right(fitted.as_str(), name_width);
    push_str(&mut s, " ");
    let sz = pad_left(size, size_width);
    push_str(&mut s, sz.as_str());
    push_str(&mut s, " ");
    let ag = pad_left(age, age_width);
    push_str(&mut s, ag.as_str());
    s
}

/// A row of the storage source list: provider, source, detail (from 76
/// columns on) and status in their columns; below 44 columns the three
/// main fields fitted together.
pub open spec fn source_columns_spec(
    provider: Seq<char>,
    source: Seq<char>,
    detail: Seq<char>,
    status: Seq<char>,
    width: usize,
) -> Seq<char> {
    if width < 44 {
        fit_spec(provider + "  "@ + source + "  "@ + status, width)
    } else {
        let provider_width = if 16 < width / 4 {
            16
        } else {
            width / 4
        } as usize;
        let status_width = 13usize;
        let detail_width = if width >= 76 {
            22usize
        } else {
            0usize
        };
        let used = provider_width + status_width + detail_width + 3;
        let source_width = if used < width {
            (width - used) as usize
        } else {
            0usize
        };
        if detail_width == 0 {
            pad_right_spec(fit_spec(provider, provider_width), provider_width) + " "@
                + pad_right_spec(fit_spec(source, source_width), source_width) + " "@
                + pad_right_spec(fit_spec(status, status_width), status_width)
        } else {
            pad_right_spec(fit_spec(provider, provider_width), provider_width) + " "@
                + pad_right_spec(fit_spec(source, source_width), source_width) + " "@
                + pad_right_spec(fit_spec(detail, detail_width), detail_width) + " "@
                + pad_right_spec(fit_spec(status, status_width), status_width)
        }
    }
}

/// A padded, fitted field.
fn field(value: &str, width: usize) -> (r: String)
    ensures
        r@ == pad_right_spec(fit_spec(value@, width), width),
{
    let f = fit(value, width);
    pad_right(f.as_str(), width)
}

/// A row of the storage source list.
pub fn source_columns(provider: &str, source: &str, detail: &str, status: &str, width: u16) -> (r:
    String)
    ensures
        r@ == source_columns_spec(provider@, source@, detail@, status@, width as usize),
{
    let width = width as usize;
    if width < 44 {
        let mut all = to_string(provider);
        push_str(&mut all, "  ");
        push_str(&mut all, source);
        push_str(&mut all, "  ");
        push_str(&mut all, status);
        return fit(all.as_str(), width);
    }
    let provider_width: usize = if 16 < width / 4 {
        16
    } else {
        width / 4
    };
    let status_width: usize = 13;
    let detail_width: usize = if width >= 76 {
        22
    } else {
        0
    };
    let used = provider_width + status_width + detail_width + 3;
    let source_width: usize = if used < width {
        width - used
    } else {
        0
    };
    let mut s = field(provider, provider_width);
    push_str(&mut s, " ");
    let f = field(source, source_width);
    push_str(&mut s, f.as_str());
    push_str(&mut s, " ");
    if detail_width > 0 {
        let d = field(detail, detail_width);
        push_str(&mut s, d.as_str());
        push_str(&mut s, " ");
    }
    let st = field(status, status_width);
    push_str(&mut s, st.as_str());
    s
}

/// Whether an entry with permission bits `mode` is executable: some
/// execute bit is set; an entry without permission bits is not.
pub fn is_executable(mode: Option<u32>) -> (r: bool)
    ensures
        r == (mode matches Some(m) && m & 0o111u32 != 0),
{
    match mode {
        Some(m) => m & 0o111 != 0,
        None => false,
    }
}

/// The text a pane's title shows before it is fitted: the path (after
/// `Sources — ` while the pane lists sources, or `[RO] ` inside an archive),
/// preceded by `[SYNC] ` under synchronized scrolling, `[DIFF] ` while the
/// panes are compared and `[PVC >85%] ` when the claim is nearly full, in
/// that order from the path outwards.
pub open spec fn title_text_spec(
    path: Seq<char>,
    sources: bool,
    archive: bool,
    synchronized: bool,
    comparing: bool,
    pvc_warning: bool,
) -> Seq<char> {
    let base = if sources {
        "Sources — "@ + path
    } else if archive {
        "[RO] "@ + path
    } else {
        path
    };
    let a = if synchronized {
        "[SYNC] "@ + base
    } else {
        base
    };
    let b = if comparing {
        "[DIFF] "@ + a
    } else {
        a
    };
    if pvc_warning {
        "[PVC >85%] "@ + b
    } else {
        b
    }
}

/// The title of a pane: its tags and path fitted into `width` columns by
/// cutting out the middle, after a `▶` when the pane has the focus.
pub fn pane_title(
    path: &str,
    sources: bool,
    archive: bool,
    synchronized: bool,
    comparing: bool,
    pvc_warning: bool,
    width: usize,
    active: bool,
) -> (r: String)
    ensures
        r@ == (if active {
            "▶ "@
        } else {
            "  "@
        }) + truncate_middle_spec(
            title_text_spec(path@, sources, archive, synchronized, comparing, pvc_warning),
            width,
        ),
{
    let mut text = if sources {
        let mut t = to_string("Sources — ");
        push_str(&mut t, path);
        t
    } else if archive {
        let mut t = to_string("[RO] ");
        push_str(&mut t, path);
        t
    } else {
        to_string(path)
    };
    if synchronized {
        let mut t = to_string("[SYNC] ");
        push_str(&mut t, text.as_str());
        text = t;
    }
    if comparing {
        let mut t = to_string("[DIFF] ");
        push_str(&mut t, text.as_str());
        text = t;
    }
    if pvc_warning {
        let mut t = to_string("[PVC >85%] ");
        push_str(&mut t, text.as_str());
        text = t;
    }
    let fitted = truncate_middle(text.as_str(), width);
    let mut r = to_string(
        if active {
            "▶ "
        } else {
            "  "
        },
    );
    push_str(&mut r, fitted.as_str());
    r
}

/// The tab counter of a pane: ` [ n/m ] ` for tab `n` (counted from one)
/// of `m`.
pub fn tab_label(active_tab: usize, tab_count: usize) -> (r: String)
    requires
        active_tab < usize::MAX,
    ensures
        r@ == " [ "@ + dec_str((active_tab + 1) as nat) + "/"@ + dec_str(tab_count as nat) + " ] "@,
{
    let a = decimal((active_tab + 1) as u64);
    let b = decimal(tab_count as u64);
    let mut r = to_string(" [ ");
    push_str(&mut r, a.as_str());
    push_str(&mut r, "/");
    push_str(&mut r, b.as_str());
    push_str(&mut r, " ] ");
    r
}

/// The cells of a pane's tab counter that switch tabs: its `[` and its
/// `]`, for a counter `tab_width` bytes wide at the right end of the top
/// border of `area`; none on a pane too narrow or a counter too short.
pub fn tab_switch_cells(area: Rect, tab_width: u16) -> (r: Option<(Rect, Rect)>)
    requires
        area.x + area.width <= u16::MAX,
    ensures
        r is Some <==> area.width > 2 && tab_width >= 3,
        r matches Some(cells) ==> {
            let right = area.x + area.width - 1;
            let start = if right > tab_width {
                right - tab_width
            } else {
                0
            };
            &&& cells.0 == Rect { x: (start + 1) as u16, y: area.y, width: 1, height: 1 }
            &&& cells.1 == Rect { x: (start + tab_width - 2) as u16, y: area.y, width: 1, height: 1 }
        },
{
    if area.width > 2 && tab_width >= 3 {
        let right = area.x + area.width - 1;
        let start = if right > tab_width {
            right - tab_width
        } else {
            0
        };
        Some(
            (
                Rect { x: start + 1, y: area.y, width: 1, height: 1 },
                Rect { x: start + tab_width - 2, y: area.y, width: 1, height: 1 },
            ),
        )
    } else {
        None
    }
}

} // verus!
