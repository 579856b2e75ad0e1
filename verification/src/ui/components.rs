//! Small pieces of the popups.
use vstd::prelude::*;
use crate::text::{byte_len, char_pos, is_boundary, push_str, string_len, string_split_off, to_string};

verus! {

/// A path shortened for display to `max_len` bytes: kept when it fits,
/// else an ellipsis of three dots followed by its last `max_len - 3` bytes.
pub open spec fn truncate_path_spec(path: Seq<char>, max_len: usize) -> Seq<char> {
    if byte_len(path) <= max_len {
        path
    } else {
        "..."@ + path.skip(char_pos(path, byte_len(path) - max_len + 3))
    }
}

/// Truncate a path for display. The cut must fall between two characters.
pub fn truncate_path(path: &str, max_len: usize) -> (r: String)
    requires
        byte_len(path@) > max_len ==> max_len >= 3 && is_boundary(
            path@,
            byte_len(path@) - max_len + 3,
        ),
    ensures
        r@ == truncate_path_spec(path@, max_len),
{
    let mut s = to_string(path);
    let n = string_len(&s);
    if n <= max_len {
        return s;
    }
    let tail = string_split_off(&mut s, n - max_len + 3);
    let mut out = to_string("...");
    push_str(&mut out, tail.as_str());
    out
}

} // verus!
