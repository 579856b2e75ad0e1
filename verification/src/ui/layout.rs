//! Where things were drawn, for mouse clicks: rectangles of the screen and
//! the lookup of what lies under a cell.
use vstd::prelude::*;

verus! {

/// A rectangle of terminal cells.
#[derive(Debug, Clone, Copy, PartialEq, Eq, Structural)]
pub struct Rect {
    pub x: u16,
    pub y: u16,
    pub width: u16,
    pub height: u16,
}

/// `a + b`, saturating at the largest `u16`.
pub open spec fn sat_add(a: u16, b: u16) -> u16 {
    if a + b > u16::MAX {
        u16::MAX
    } else {
        (a + b) as u16
    }
}

/// The cell at `column`, `row` lies in `area` (whose right and bottom
/// edges saturate at the screen's largest coordinate).
pub open spec fn contains_spec(area: Rect, column: u16, row: u16) -> bool {
    column >= area.x && column < sat_add(area.x, area.width) && row >= area.y && row < sat_add(
        area.y,
        area.height,
    )
}

impl Rect {
    /// The column just right of the rectangle.
    pub fn right(&self) -> (r: u16)
        ensures
            r == sat_add(self.x, self.width),
    {
        self.x.saturating_add(self.width)
    }

    /// The row just below the rectangle.
    pub fn bottom(&self) -> (r: u16)
        ensures
            r == sat_add(self.y, self.height),
    {
        self.y.saturating_add(self.height)
    }
}

/// Whether the cell at `column`, `row` lies in `area`.
pub fn contains(area: Rect, column: u16, row: u16) -> (r: bool)
    ensures
        r == contains_spec(area, column, row),
{
    column >= area.x && column < area.right() && row >= area.y && row < area.bottom()
}

/// `i` is the first of `items` whose rectangle holds the cell.
pub open spec fn first_hit<T>(items: Seq<(T, Rect)>, column: u16, row: u16, i: int) -> bool {
    &&& 0 <= i < items.len()
    &&& contains_spec(items[i].1, column, row)
    &&& forall|j: int| 0 <= j < i ==> !contains_spec(#[trigger] items[j].1, column, row)
}

/// `i` is the last of `items` whose rectangle holds the cell.
pub open spec fn last_hit<T>(items: Seq<(T, Rect)>, column: u16, row: u16, i: int) -> bool {
    &&& 0 <= i < items.len()
    &&& contains_spec(items[i].1, column, row)
    &&& forall|j: int| i < j < items.len() ==> !contains_spec(#[trigger] items[j].1, column, row)
}

/// No rectangle of `items` holds the cell.
pub open spec fn no_hit<T>(items: Seq<(T, Rect)>, column: u16, row: u16) -> bool {
    forall|j: int| 0 <= j < items.len() ==> !contains_spec(#[trigger] items[j].1, column, row)
}

/// What the first rectangle holding the cell was drawn for.
pub fn find_at<T: Copy>(items: &[(T, Rect)], column: u16, row: u16) -> (r: Option<T>)
    ensures
        match r {
            Some(t) => exists|i: int| first_hit(items@, column, row, i) && items@[i].0 == t,
            None => no_hit(items@, column, row),
        },
{
    let mut i: usize = 0;
    while i < items.len()
        invariant
            i <= items@.len(),
            forall|j: int| 0 <= j < i ==> !contains_spec(#[trigger] items@[j].1, column, row),
        decreases items@.len() - i,
    {
        if contains(items[i].1, column, row) {
            let t = items[i].0;
            assert(first_hit(items@, column, row, i as int));
            return Some(t);
        }
        i = i + 1;
    }
    None
}

/// What the last rectangle holding the cell was drawn for (the one drawn
/// on top).
pub fn find_last_at<T: Copy>(items: &[(T, Rect)], column: u16, row: u16) -> (r: Option<T>)
    ensures
        match r {
            Some(t) => exists|i: int| last_hit(items@, column, row, i) && items@[i].0 == t,
            None => no_hit(items@, column, row),
        },
{
    let mut k: usize = items.len();
    while k > 0
        invariant
            k <= items@.len(),
            forall|j: int| k <= j < items@.len() ==> !contains_spec(#[trigger] items@[j].1, column, row),
        decreases k,
    {
        if contains(items[k - 1].1, column, row) {
            let t = items[k - 1].0;
            assert(last_hit(items@, column, row, k - 1));
            return Some(t);
        }
        k = k - 1;
    }
    None
}

/// The index of the first rectangle holding the cell.
pub fn position_at(rects: &[Rect], column: u16, row: u16) -> (r: Option<usize>)
    ensures
        match r {
            Some(i) => i < rects@.len() && contains_spec(rects@[i as int], column, row) && forall|
                j: int,
            |
                0 <= j < i ==> !contains_spec(#[trigger] rects@[j], column, row),
            None => forall|j: int|
                0 <= j < rects@.len() ==> !contains_spec(#[trigger] rects@[j], column, row),
        },
{
    let mut i: usize = 0;
    while i < rects.len()
        invariant
            i <= rects@.len(),
            forall|j: int| 0 <= j < i ==> !contains_spec(#[trigger] rects@[j], column, row),
        decreases rects@.len() - i,
    {
        if contains(rects[i], column, row) {
            return Some(i);
        }
        i = i + 1;
    }
    None
}

} // verus!
