//! Fitting text into a number of terminal columns. Text is cut between
//! grapheme clusters and measured by its display width.
use vstd::prelude::*;
use unicode_segmentation::UnicodeSegmentation;
use unicode_width::UnicodeWidthStr;
use crate::text::{dec_str, decimal, push_char, push_str, to_string};

verus! {

/// The display width of a text (`UnicodeWidthStr::width`).
pub uninterp spec fn str_width(s: Seq<char>) -> usize;

/// The extended grapheme clusters of a text
/// (`UnicodeSegmentation::graphemes(s, true)`).
pub uninterp spec fn graphemes_of(s: Seq<char>) -> Seq<Seq<char>>;

/// Printable ASCII: every character from the space to the tilde.
pub open spec fn printable_ascii(s: Seq<char>) -> bool {
    forall|i: int| 0 <= i < s.len() ==> ' ' <= #[trigger] s[i] && s[i] <= '~'
}

/// Each character of `s` as a text of its own.
pub open spec fn singletons(s: Seq<char>) -> Seq<Seq<char>> {
    s.map_values(|c: char| seq![c])
}

/// `UnicodeWidthStr::width`: the number of terminal columns the text takes,
/// as the crate's tables give it for its characters; each printable ASCII
/// character takes one column.
#[verifier::external_body]
fn width_of(s: &str) -> (r: usize)
    ensures
        r == str_width(s@),
        printable_ascii(s@) ==> r == s@.len(),
{
    UnicodeWidthStr::width(s)
}

/// `UnicodeSegmentation::graphemes(s, true)`: the extended grapheme
/// clusters of the text, in order, copied into strings; between two
/// printable ASCII characters there is always a boundary.
#[verifier::external_body]
fn graphemes(s: &str) -> (r: Vec<String>)
    ensures
        r@.map_values(|g: String| g@) == graphemes_of(s@),
        printable_ascii(s@) ==> r@.map_values(|g: String| g@) == singletons(s@),
{
    let mut out = Vec::new();
    for g in s.graphemes(true) {
        out.push(g.to_string());
    }
    out
}

/// The display width of a text.
pub fn display_width(value: &str) -> (r: usize)
    ensures
        r == str_width(value@),
        printable_ascii(value@) ==> r == value@.len(),
{
    width_of(value)
}

/// The texts joined.
pub open spec fn concat(parts: Seq<Seq<char>>) -> Seq<char>
    decreases parts.len(),
{
    if parts.len() == 0 {
        Seq::empty()
    } else {
        concat(parts.drop_last()) + parts.last()
    }
}

/// The display widths of texts.
pub open spec fn widths(parts: Seq<Seq<char>>) -> Seq<usize> {
    parts.map_values(|g: Seq<char>| str_width(g))
}

/// How many of the leading widths fit in `budget` columns, taken one after
/// another while they fit.
pub open spec fn fitting_count(ws: Seq<usize>, budget: int) -> nat
    decreases ws.len(),
{
    if ws.len() == 0 {
        0
    } else if ws[0] > budget {
        0
    } else {
        1 + fitting_count(ws.drop_first(), budget - ws[0])
    }
}

/// The leading grapheme clusters of `value` that fit in `width` columns.
pub open spec fn prefix_columns(value: Seq<char>, width: int) -> Seq<char> {
    let gs = graphemes_of(value);
    concat(gs.take(fitting_count(widths(gs), width) as int))
}

/// The trailing grapheme clusters of `value` that fit in `width` columns.
pub open spec fn suffix_columns(value: Seq<char>, width: int) -> Seq<char> {
    let gs = graphemes_of(value);
    concat(gs.skip(gs.len() - fitting_count(widths(gs).reverse(), width)))
}

/// The smaller of `width` and `n`.
pub open spec fn min_of(width: int, n: int) -> int {
    if width < n {
        width
    } else {
        n
    }
}

proof fn lemma_concat_singletons(v: Seq<char>, a: int, b: int)
    requires
        0 <= a <= b <= v.len(),
    ensures
        concat(singletons(v).subrange(a, b)) == v.subrange(a, b),
    decreases b - a,
{
    if a < b {
        lemma_concat_singletons(v, a, b - 1);
        assert(singletons(v).subrange(a, b).drop_last() =~= singletons(v).subrange(a, b - 1));
        assert(v.subrange(a, b) =~= v.subrange(a, b - 1) + seq![v[b - 1]]);
    } else {
        assert(singletons(v).subrange(a, b) =~= Seq::<Seq<char>>::empty());
        assert(v.subrange(a, b) =~= Seq::<char>::empty());
    }
}

proof fn lemma_fitting_count_le(ws: Seq<usize>, budget: int)
    ensures
        fitting_count(ws, budget) <= ws.len(),
    decreases ws.len(),
{
    if ws.len() > 0 && ws[0] <= budget {
        lemma_fitting_count_le(ws.drop_first(), budget - ws[0]);
    }
}

/// The leading grapheme clusters of `value` that fit in `width` columns.
pub fn take_prefix_columns(value: &str, width: usize) -> (r: String)
    ensures
        r@ == prefix_columns(value@, width as int),
        printable_ascii(value@) ==> r@ == value@.take(min_of(width as int, value@.len() as int)),
{
    let gs = graphemes(value);
    let ghost texts = gs@.map_values(|g: String| g@);
    let ghost ws = widths(texts);
    let mut out = String::new();
    let mut used: usize = 0;
    let mut i: usize = 0;
    let mut done = false;
    proof {
        assert(ws.skip(0) =~= ws);
        assert(texts.take(0) =~= Seq::<Seq<char>>::empty());
    }
    while i < gs.len() && !done
        invariant
            i <= gs@.len(),
            texts == gs@.map_values(|g: String| g@),
            texts == graphemes_of(value@),
            ws == widths(texts),
            used <= width,
            out@ == concat(texts.take(i as int)),
            !done ==> fitting_count(ws, width as int) == i + fitting_count(ws.skip(i as int), width - used),
            done ==> fitting_count(ws, width as int) == i,
            printable_ascii(value@) ==> texts == singletons(value@) && used == i,
            printable_ascii(value@) && done ==> i == width,
        decreases gs@.len() - i + if done { 0int } else { 1int },
    {
        proof {
            if printable_ascii(value@) {
                assert(gs@[i as int]@ == texts[i as int]);
                assert(texts[i as int] == seq![value@[i as int]]);
                assert(printable_ascii(gs@[i as int]@));
            }
        }
        let w = width_of(gs[i].as_str());
        proof {
            assert(ws.skip(i as int)[0] == ws[i as int]);
            assert(ws[i as int] == str_width(texts[i as int]));
            assert(ws.skip(i as int).drop_first() =~= ws.skip(i + 1));
        }
        if w > width - used {
            done = true;
        } else {
            used = used + w;
            push_str(&mut out, gs[i].as_str());
            proof {
                assert(texts.take(i + 1).drop_last() =~= texts.take(i as int));
            }
            i = i + 1;
        }
    }
    proof {
        if !done {
            assert(ws.skip(i as int) =~= Seq::<usize>::empty());
        }
        if printable_ascii(value@) {
            lemma_concat_singletons(value@, 0, i as int);
            assert(singletons(value@).take(i as int) =~= singletons(value@).subrange(0, i as int));
            assert(value@.take(i as int) =~= value@.subrange(0, i as int));
        }
    }
    out
}

/// The trailing grapheme clusters of `value` that fit in `width` columns.
pub fn take_suffix_columns(value: &str, width: usize) -> (r: String)
    ensures
        r@ == suffix_columns(value@, width as int),
        printable_ascii(value@) ==> r@ == value@.skip(
            value@.len() - min_of(width as int, value@.len() as int),
        ),
{
    let gs = graphemes(value);
    let ghost texts = gs@.map_values(|g: String| g@);
    let ghost ws = widths(texts);
    let ghost rev = ws.reverse();
    let n = gs.len();
    let mut used: usize = 0;
    let mut c: usize = 0;
    let mut done = false;
    proof {
        assert(rev.skip(0) =~= rev);
    }
    while c < n && !done
        invariant
            c <= n,
            n == gs@.len(),
            texts == gs@.map_values(|g: String| g@),
            ws == widths(texts),
            rev == ws.reverse(),
            used <= width,
            !done ==> fitting_count(rev, width as int) == c + fitting_count(rev.skip(c as int), width - used),
            done ==> fitting_count(rev, width as int) == c,
            printable_ascii(value@) ==> texts == singletons(value@) && used == c,
            printable_ascii(value@) && done ==> c == width,
        decreases n - c + if done { 0int } else { 1int },
    {
        proof {
            if printable_ascii(value@) {
                assert(gs@[n - 1 - c]@ == texts[n - 1 - c]);
                assert(texts[n - 1 - c] == seq![value@[n - 1 - c]]);
                assert(printable_ascii(gs@[n - 1 - c]@));
            }
        }
        let w = width_of(gs[n - 1 - c].as_str());
        proof {
            assert(rev.skip(c as int)[0] == rev[c as int]);
            assert(rev[c as int] == ws[n - 1 - c]);
            assert(ws[n - 1 - c] == str_width(texts[n - 1 - c]));
            assert(rev.skip(c as int).drop_first() =~= rev.skip(c + 1));
        }
        if w > width - used {
            done = true;
        } else {
            used = used + w;
            c = c + 1;
        }
    }
    proof {
        if !done {
            assert(rev.skip(c as int) =~= Seq::<usize>::empty());
        }
    }
    let mut out = String::new();
    let start: usize = n - c;
    let mut i: usize = start;
    proof {
        assert(texts.subrange(start as int, start as int) =~= Seq::<Seq<char>>::empty());
    }
    while i < n
        invariant
            start <= i <= n,
            n == gs@.len(),
            texts == gs@.map_values(|g: String| g@),
            out@ == concat(texts.subrange(start as int, i as int)),
            printable_ascii(value@) ==> texts == singletons(value@) && start == value@.len()
                - min_of(width as int, value@.len() as int),
        decreases n - i,
    {
        proof {
            let t = texts.subrange(start as int, i + 1);
            assert(t.drop_last() =~= texts.subrange(start as int, i as int));
            assert(t.last() == texts[i as int]);
        }
        push_str(&mut out, gs[i].as_str());
        i = i + 1;
    }
    proof {
        assert(texts.subrange(start as int, n as int) =~= texts.skip(start as int));
        if printable_ascii(value@) {
            lemma_concat_singletons(value@, start as int, n as int);
            assert(value@.subrange(start as int, n as int) =~= value@.skip(start as int));
        }
    }
    out
}

/// `value` fitted into `width` columns: as it is when it fits, else cut
/// at the end with an ellipsis.
pub open spec fn fit_spec(value: Seq<char>, width: usize) -> Seq<char> {
    if width == 0 {
        Seq::empty()
    } else if str_width(value) <= width {
        value
    } else if width == 1 {
        "…"@
    } else {
        prefix_columns(value, width - 1) + "…"@
    }
}

/// `fit_spec` for printable ASCII text, one column per character.
pub open spec fn ascii_fit(value: Seq<char>, width: usize) -> Seq<char> {
    if width == 0 {
        Seq::empty()
    } else if value.len() <= width {
        value
    } else if width == 1 {
        "…"@
    } else {
        value.take(width - 1) + "…"@
    }
}

/// Fit `value` into `width` columns, cutting at the end.
pub fn fit(value: &str, width: usize) -> (r: String)
    ensures
        r@ == fit_spec(value@, width),
        printable_ascii(value@) ==> r@ == ascii_fit(value@, width),
{
    if width == 0 {
        return String::new();
    }
    if display_width(value) <= width {
        return to_string(value);
    }
    if width == 1 {
        return to_string("…");
    }
    let mut s = take_prefix_columns(value, width - 1);
    push_str(&mut s, "…");
    s
}

/// `value` fitted into `width` columns by cutting out its middle: the
/// start takes half the columns left beside the ellipsis, the end the rest.
pub open spec fn truncate_middle_spec(value: Seq<char>, width: usize) -> Seq<char> {
    if str_width(value) <= width {
        value
    } else if width < 5 {
        fit_spec(value, width)
    } else {
        let left = (width - 1) / 2;
        let right = width - left - 1;
        prefix_columns(value, left) + "…"@ + suffix_columns(value, right)
    }
}

/// `truncate_middle_spec` for printable ASCII text, one column per
/// character.
pub open spec fn ascii_truncate_middle(value: Seq<char>, width: usize) -> Seq<char> {
    if value.len() <= width {
        value
    } else if width < 5 {
        ascii_fit(value, width)
    } else {
        let left = (width - 1) / 2;
        let right = width - left - 1;
        value.take(left) + "…"@ + value.skip(value.len() - right)
    }
}

/// Fit `value` into `width` columns, cutting out its middle.
pub fn truncate_middle(value: &str, width: usize) -> (r: String)
    ensures
        r@ == truncate_middle_spec(value@, width),
        printable_ascii(value@) ==> r@ == ascii_truncate_middle(value@, width),
{
    if display_width(value) <= width {
        return to_string(value);
    }
    if width < 5 {
        return fit(value, width);
    }
    let left = (width - 1) / 2;
    let right = width - left - 1;
    let mut s = take_prefix_columns(value, left);
    push_str(&mut s, "…");
    let end = take_suffix_columns(value, right);
    push_str(&mut s, end.as_str());
    s
}

/// Fit a file name into `width` columns, keeping its end (and so its
/// extension) visible.
pub fn fit_filename(value: &str, width: usize) -> (r: String)
    ensures
        r@ == truncate_middle_spec(value@, width),
        printable_ascii(value@) ==> r@ == ascii_truncate_middle(value@, width),
{
    truncate_middle(value, width)
}

/// `n` spaces.
pub open spec fn spaces(n: int) -> Seq<char> {
    Seq::new(if n > 0 { n as nat } else { 0 }, |i: int| ' ')
}

/// `n` spaces.
fn space_string(n: usize) -> (r: String)
    ensures
        r@ == spaces(n as int),
{
    let mut s = String::new();
    let mut i: usize = 0;
    while i < n
        invariant
            i <= n,
            s@ == spaces(i as int),
        decreases n - i,
    {
        push_char(&mut s, ' ');
        assert(s@ =~= spaces(i + 1));
        i = i + 1;
    }
    s
}

/// `value` fitted into `width` columns and padded with spaces after it.
pub open spec fn pad_right_spec(value: Seq<char>, width: usize) -> Seq<char> {
    let v = fit_spec(value, width);
    v + spaces(width - str_width(v))
}

/// `value` fitted into `width` columns and padded with spaces before it.
pub open spec fn pad_left_spec(value: Seq<char>, width: usize) -> Seq<char> {
    let v = fit_spec(value, width);
    spaces(width - str_width(v)) + v
}

/// Fit `value` into `width` columns and pad it on the right.
pub fn pad_right(value: &str, width: usize) -> (r: String)
    ensures
        r@ == pad_right_spec(value@, width),
        printable_ascii(value@) && value@.len() <= width ==> r@ == value@ + spaces(
            width - value@.len(),
        ),
{
    let mut v = fit(value, width);
    let w = display_width(v.as_str());
    let padding = if w < width {
        width - w
    } else {
        0
    };
    let pad = space_string(padding);
    push_str(&mut v, pad.as_str());
    proof {
        assert(spaces(padding as int) =~= spaces(width - w));
    }
    v
}

/// Fit `value` into `width` columns and pad it on the left.
pub fn pad_left(value: &str, width: usize) -> (r: String)
    ensures
        r@ == pad_left_spec(value@, width),
        printable_ascii(value@) && value@.len() <= width ==> r@ == spaces(width - value@.len())
            + value@,
{
    let v = fit(value, width);
    let w = display_width(v.as_str());
    let padding = if w < width {
        width - w
    } else {
        0
    };
    let mut s = space_string(padding);
    push_str(&mut s, v.as_str());
    proof {
        assert(spaces(padding as int) =~= spaces(width - w));
    }
    s
}

/// A number with two digits at least.
pub open spec fn two_digits(n: nat) -> Seq<char> {
    if n < 10 {
        seq!['0'] + dec_str(n)
    } else {
        dec_str(n)
    }
}

/// A number with two digits at least.
fn two_digit_string(n: u64) -> (r: String)
    ensures
        r@ == two_digits(n as nat),
{
    if n < 10 {
        let mut s = to_string("0");
        let d = decimal(n);
        push_str(&mut s, d.as_str());
        proof {
            reveal_strlit("0");
        }
        s
    } else {
        decimal(n)
    }
}

/// A duration in the largest fitting unit with the next one after it:
/// seconds; minutes and seconds; hours and minutes; days and hours.
pub open spec fn compact_duration_spec(seconds: nat) -> Seq<char> {
    if seconds < 60 {
        dec_str(seconds) + "s"@
    } else if seconds < 3_600 {
        dec_str(seconds / 60) + "m"@ + two_digits(seconds % 60) + "s"@
    } else if seconds < 360_000 {
        dec_str(seconds / 3_600) + "h"@ + two_digits((seconds % 3_600) / 60) + "m"@
    } else {
        dec_str(seconds / 86_400) + "d"@ + two_digits((seconds % 86_400) / 3_600) + "h"@
    }
}

/// Render a duration of `seconds` compactly.
pub fn compact_duration(seconds: u64) -> (r: String)
    ensures
        r@ == compact_duration_spec(seconds as nat),
{
    if seconds < 60 {
        let mut s = decimal(seconds);
        push_str(&mut s, "s");
        s
    } else if seconds < 3_600 {
        let mut s = decimal(seconds / 60);
        push_str(&mut s, "m");
        let t = two_digit_string(seconds % 60);
        push_str(&mut s, t.as_str());
        push_str(&mut s, "s");
        s
    } else if seconds < 360_000 {
        let mut s = decimal(seconds / 3_600);
        push_str(&mut s, "h");
        let t = two_digit_string((seconds % 3_600) / 60);
        push_str(&mut s, t.as_str());
        push_str(&mut s, "m");
        s
    } else {
        let mut s = decimal(seconds / 86_400);
        push_str(&mut s, "d");
        let t = two_digit_string((seconds % 86_400) / 3_600);
        push_str(&mut s, t.as_str());
        push_str(&mut s, "h");
        s
    }
}

/// An age in the largest whole unit: seconds, minutes, hours, days, years.
pub open spec fn age_spec(seconds: nat) -> Seq<char> {
    if seconds < 60 {
        dec_str(seconds) + "s"@
    } else if seconds < 3600 {
        dec_str(seconds / 60) + "m"@
    } else if seconds < 86_400 {
        dec_str(seconds / 3600) + "h"@
    } else if seconds < 31_536_000 {
        dec_str(seconds / 86_400) + "d"@
    } else {
        dec_str(seconds / 31_536_000) + "y"@
    }
}

/// Render the age of something last changed `seconds` ago.
pub fn format_age(seconds: u64) -> (r: String)
    ensures
        r@ == age_spec(seconds as nat),
{
    let (n, unit) = if seconds < 60 {
        (seconds, "s")
    } else if seconds < 3600 {
        (seconds / 60, "m")
    } else if seconds < 86_400 {
        (seconds / 3600, "h")
    } else if seconds < 31_536_000 {
        (seconds / 86_400, "d")
    } else {
        (seconds / 31_536_000, "y")
    };
    let mut s = decimal(n);
    push_str(&mut s, unit);
    s
}

} // verus!
