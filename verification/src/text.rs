//! Small verified text builders: decimal and hexadecimal rendering of
//! integers, and a specified way to grow a `String`.
use vstd::prelude::*;
use vstd::std_specs::iter::IteratorSpec;

verus! {

/// Appends `c` to `s` (`String::push`).
#[verifier::external_body]
pub(crate) fn push_char(s: &mut String, c: char)
    ensures
        final(s)@ == old(s)@.push(c),
{
    s.push(c);
}

/// The lowercase hexadecimal digit for a nibble.
pub open spec fn hex_digit(n: int) -> char {
    if n < 10 {
        (('0' as int) + n) as char
    } else {
        (('a' as int) + n - 10) as char
    }
}

/// The decimal digit for `n < 10`.
pub open spec fn dec_digit(n: int) -> char {
    (('0' as int) + n) as char
}

/// The decimal rendering of `n` without leading zeros (`"0"` for zero).
pub open spec fn dec_str(n: nat) -> Seq<char>
    decreases n,
{
    if n < 10 {
        seq![dec_digit(n as int)]
    } else {
        dec_str(n / 10).push(dec_digit((n % 10) as int))
    }
}

/// The last `k` hexadecimal digits of `v`, most significant first.
pub open spec fn hex_str(v: nat, k: nat) -> Seq<char>
    decreases k,
{
    if k == 0 {
        Seq::empty()
    } else {
        hex_str(v / 16, (k - 1) as nat).push(hex_digit((v % 16) as int))
    }
}

/// Renders `c` as a one-character string.
pub fn char_string(c: char) -> (r: String)
    ensures
        r@ == seq![c],
{
    let mut s = String::new();
    push_char(&mut s, c);
    s
}

/// Returns a copy of `s` as a `String`.
pub fn to_string(s: &str) -> (r: String)
    ensures
        r@ == s@,
{
    s.to_owned()
}

/// Appends `t` to `s`.
pub fn push_str(s: &mut String, t: &str)
    ensures
        final(s)@ == old(s)@ + t@,
{
    s.append(t);
}

/// Decimal rendering of an unsigned integer (`format!("{}", n)`).
pub fn decimal(n: u64) -> (r: String)
    ensures
        r@ == dec_str(n as nat),
    decreases n,
{
    if n < 10 {
        let c = ((n as u8) + ('0' as u8)) as char;
        assert(c == dec_digit(n as int));
        char_string(c)
    } else {
        let mut s = decimal(n / 10);
        let d = n % 10;
        let c = ((d as u8) + ('0' as u8)) as char;
        assert(c == dec_digit(d as int));
        push_char(&mut s, c);
        s
    }
}

/// The `k` lowest hexadecimal digits of `v`, zero padded (`format!("{:0kx}")`
/// for values below `16^k`).
pub fn hex_fixed(v: u64, k: usize) -> (r: String)
    ensures
        r@ == hex_str(v as nat, k as nat),
        r@.len() == k,
    decreases k,
{
    if k == 0 {
        String::new()
    } else {
        let mut s = hex_fixed(v / 16, k - 1);
        let d = (v % 16) as u8;
        let c = if d < 10 {
            (d + ('0' as u8)) as char
        } else {
            (d - 10 + ('a' as u8)) as char
        };
        assert(c == hex_digit(d as int));
        push_char(&mut s, c);
        s
    }
}

/// The characters of `s`, in order.
pub fn chars_of(s: &str) -> (r: Vec<char>)
    ensures
        r@ == s@,
{
    broadcast use {vstd::string::axiom_spec_iter, vstd::string::next_postcondition};
    let mut v: Vec<char> = Vec::new();
    let mut it = s.chars();
    loop
        invariant
            it.obeys_prophetic_iter_laws(),
            v@ + it.remaining() == s@,
        decreases s@.len() - v@.len(),
    {
        let ghost before = it.remaining();
        match it.next() {
            Some(c) => {
                v.push(c);
                assert(v@ + it.remaining() =~= s@) by {
                    assert(before =~= seq![c] + before.drop_first());
                }
            },
            None => {
                assert(v@ =~= s@);
                return v;
            },
        }
    }
}

/// The string made of the characters `cs`.
pub fn from_chars(cs: &[char]) -> (r: String)
    ensures
        r@ == cs@,
{
    let mut s = String::new();
    let mut i: usize = 0;
    while i < cs.len()
        invariant
            i <= cs@.len(),
            s@ == cs@.take(i as int),
        decreases cs@.len() - i,
    {
        push_char(&mut s, cs[i]);
        assert(s@ =~= cs@.take(i + 1));
        i = i + 1;
    }
    assert(s@ =~= cs@);
    s
}

/// `t` is a suffix of `s`.
pub open spec fn has_suffix(s: Seq<char>, t: Seq<char>) -> bool {
    t.len() <= s.len() && s.skip(s.len() - t.len()) == t
}

/// `t` is a prefix of `s`.
pub open spec fn has_prefix(s: Seq<char>, t: Seq<char>) -> bool {
    t.len() <= s.len() && s.take(t.len() as int) == t
}

/// Whether `t` is a suffix of `s`.
pub fn ends_with(s: &str, t: &str) -> (r: bool)
    ensures
        r == has_suffix(s@, t@),
{
    let a = chars_of(s);
    let b = chars_of(t);
    if b.len() > a.len() {
        return false;
    }
    let off = a.len() - b.len();
    let mut i: usize = 0;
    while i < b.len()
        invariant
            a@ == s@,
            b@ == t@,
            off == a@.len() - b@.len(),
            b@.len() <= a@.len(),
            a@.len() <= usize::MAX,
            i <= b@.len(),
            forall|j: int| 0 <= j < i ==> a@[off + j] == b@[j],
        decreases b@.len() - i,
    {
        if a[off + i] != b[i] {
            assert(s@.skip(off as int)[i as int] != t@[i as int]);
            return false;
        }
        i = i + 1;
    }
    assert(s@.skip(off as int) =~= t@);
    true
}

/// Whether `t` is a prefix of `s`.
pub fn starts_with(s: &str, t: &str) -> (r: bool)
    ensures
        r == has_prefix(s@, t@),
{
    let a = chars_of(s);
    let b = chars_of(t);
    if b.len() > a.len() {
        return false;
    }
    let mut i: usize = 0;
    while i < b.len()
        invariant
            a@ == s@,
            b@ == t@,
            b@.len() <= a@.len(),
            i <= b@.len(),
            forall|j: int| 0 <= j < i ==> a@[j] == b@[j],
        decreases b@.len() - i,
    {
        if a[i] != b[i] {
            assert(s@.take(b@.len() as int)[i as int] != t@[i as int]);
            return false;
        }
        i = i + 1;
    }
    assert(s@.take(b@.len() as int) =~= t@);
    true
}

/// Equality of the characters of two strings.
pub fn str_eq(s: &str, t: &str) -> (r: bool)
    ensures
        r == (s@ == t@),
{
    let a = chars_of(s);
    let b = chars_of(t);
    if a.len() != b.len() {
        return false;
    }
    let mut i: usize = 0;
    while i < a.len()
        invariant
            a@ == s@,
            b@ == t@,
            a@.len() == b@.len(),
            i <= a@.len(),
            forall|j: int| 0 <= j < i ==> a@[j] == b@[j],
        decreases a@.len() - i,
    {
        if a[i] != b[i] {
            return false;
        }
        i = i + 1;
    }
    assert(a@ =~= b@);
    true
}

/// The Unicode lowercase mapping of `s`, as `str::to_lowercase` computes it.
pub uninterp spec fn lowercase_of(s: Seq<char>) -> Seq<char>;

/// The lowercase form of an ASCII character: `A`–`Z` become `a`–`z`, the
/// others stay.
pub open spec fn ascii_lower(c: char) -> char {
    if 'A' <= c && c <= 'Z' {
        ((c as u32) + 32) as char
    } else {
        c
    }
}

/// Every character of `s` is ASCII.
pub open spec fn is_ascii_text(s: Seq<char>) -> bool {
    forall|i: int| 0 <= i < s.len() ==> (#[trigger] s[i] as u32) < 0x80
}

/// `str::to_lowercase`: a new string holding the lowercase mapping of
/// every character of `s`; the standard library documents it as a function
/// of the string alone. Unicode's lowercase mapping of an ASCII character
/// is its ASCII lowercase form, so an ASCII text maps character by
/// character.
#[verifier::external_body]
pub(crate) fn lowercase(s: &str) -> (r: String)
    ensures
        r@ == lowercase_of(s@),
        is_ascii_text(s@) ==> r@ == s@.map_values(|c: char| ascii_lower(c)),
{
    s.to_lowercase()
}

/// A copy of the bytes of `data`.
pub fn bytes_to_vec(data: &[u8]) -> (r: Vec<u8>)
    ensures
        r@ == data@,
{
    let mut v: Vec<u8> = Vec::with_capacity(data.len());
    let mut i: usize = 0;
    while i < data.len()
        invariant
            i <= data@.len(),
            v@ == data@.take(i as int),
        decreases data@.len() - i,
    {
        v.push(data[i]);
        assert(v@ =~= data@.take(i + 1));
        i = i + 1;
    }
    assert(v@ =~= data@);
    v
}

/// The pieces of `s` that each end at a newline (the last one possibly
/// without), as `str::split_inclusive('\n')` yields them.
pub open spec fn line_pieces(s: Seq<char>) -> Seq<Seq<char>>
    decreases s.len(),
{
    if s.len() == 0 {
        Seq::empty()
    } else {
        let prev = line_pieces(s.drop_last());
        if prev.len() > 0 && prev.last().last() != '\n' {
            prev.update(prev.len() - 1, prev.last().push(s.last()))
        } else {
            prev.push(seq![s.last()])
        }
    }
}

/// A line piece without its line ending: a final `\n`, and then a `\r`
/// before it.
pub open spec fn strip_line_end(p: Seq<char>) -> Seq<char> {
    if p.len() > 0 && p.last() == '\n' {
        let q = p.drop_last();
        if q.len() > 0 && q.last() == '\r' {
            q.drop_last()
        } else {
            q
        }
    } else {
        p
    }
}

/// The lines of `s` as `str::lines` splits them: at `\n` or `\r\n`, with
/// the final line ending optional.
pub open spec fn lines_of(s: Seq<char>) -> Seq<Seq<char>> {
    line_pieces(s).map_values(|p: Seq<char>| strip_line_end(p))
}

/// A character with the Unicode White_Space property, which `char::is_whitespace`
/// and the trimming and splitting methods of `str` go by.
pub open spec fn is_white_space(c: char) -> bool {
    let n = c as u32;
    ||| 0x9 <= n <= 0xd
    ||| n == 0x20
    ||| n == 0x85
    ||| n == 0xa0
    ||| n == 0x1680
    ||| 0x2000 <= n <= 0x200a
    ||| n == 0x2028
    ||| n == 0x2029
    ||| n == 0x202f
    ||| n == 0x205f
    ||| n == 0x3000
}

/// `s` without its leading whitespace.
pub open spec fn trim_start_of(s: Seq<char>) -> Seq<char>
    decreases s.len(),
{
    if s.len() > 0 && is_white_space(s[0]) {
        trim_start_of(s.drop_first())
    } else {
        s
    }
}

/// `s` without its trailing whitespace.
pub open spec fn trim_end_of(s: Seq<char>) -> Seq<char>
    decreases s.len(),
{
    if s.len() > 0 && is_white_space(s.last()) {
        trim_end_of(s.drop_last())
    } else {
        s
    }
}

/// `s` without leading and trailing whitespace, as `str::trim` computes it.
pub open spec fn trim_of(s: Seq<char>) -> Seq<char> {
    trim_end_of(trim_start_of(s))
}

/// The maximal runs of non-whitespace characters of `s`, in order, as
/// `str::split_whitespace` yields them.
pub open spec fn whitespace_fields(s: Seq<char>) -> Seq<Seq<char>>
    decreases s.len(),
{
    if s.len() == 0 {
        Seq::empty()
    } else {
        let prev = whitespace_fields(s.drop_last());
        if is_white_space(s.last()) {
            prev
        } else if s.len() >= 2 && !is_white_space(s[s.len() - 2]) && prev.len() > 0 {
            prev.update(prev.len() - 1, prev.last().push(s.last()))
        } else {
            prev.push(seq![s.last()])
        }
    }
}

/// Whether `c` has the Unicode White_Space property.
pub fn is_whitespace_char(c: char) -> (r: bool)
    ensures
        r == is_white_space(c),
{
    let n = c as u32;
    (0x9 <= n && n <= 0xd) || n == 0x20 || n == 0x85 || n == 0xa0 || n == 0x1680 || (0x2000 <= n
        && n <= 0x200a) || n == 0x2028 || n == 0x2029 || n == 0x202f || n == 0x205f || n == 0x3000
}

/// The texts of a list of strings.
pub open spec fn texts_of(v: Seq<String>) -> Seq<Seq<char>> {
    v.map_values(|p: String| p@)
}

/// The whitespace-separated fields of `s` (as `str::split_whitespace`
/// yields them), copied into strings.
pub(crate) fn split_whitespace(s: &str) -> (r: Vec<String>)
    ensures
        r@.map_values(|p: String| p@) == whitespace_fields(s@),
{
    let cs = chars_of(s);
    let mut out: Vec<String> = Vec::new();
    let mut i: usize = 0;
    while i < cs.len()
        invariant
            i <= cs@.len(),
            cs@ == s@,
            texts_of(out@) == whitespace_fields(cs@.take(i as int)),
        decreases cs.len() - i,
    {
        let c = cs[i];
        let ghost before = out@;
        let ghost t = cs@.take(i as int + 1);
        proof {
            assert(t.drop_last() =~= cs@.take(i as int));
            assert(t.last() == c);
        }
        if is_whitespace_char(c) {
        } else if i >= 1 && !is_whitespace_char(cs[i - 1]) && out.len() > 0 {
            proof {
                assert(t[t.len() - 2] == cs@[i - 1]);
            }
            let mut last = out.pop().unwrap();
            push_char(&mut last, c);
            out.push(last);
            proof {
                assert(texts_of(out@) =~= texts_of(before).update(
                    before.len() - 1,
                    texts_of(before).last().push(c),
                ));
            }
        } else {
            proof {
                assert(!(t.len() >= 2 && !is_white_space(t[t.len() - 2]) && texts_of(before).len()
                    > 0)) by {
                    if t.len() >= 2 {
                        assert(t[t.len() - 2] == cs@[i - 1]);
                    }
                }
            }
            out.push(char_string(c));
            proof {
                assert(texts_of(out@) =~= texts_of(before).push(seq![c]));
            }
        }
        i = i + 1;
    }
    proof {
        assert(cs@.take(cs@.len() as int) =~= cs@);
    }
    out
}

/// The views of a list of character vectors.
pub open spec fn char_vec_texts(v: Seq<Vec<char>>) -> Seq<Seq<char>> {
    v.map_values(|p: Vec<char>| p@)
}

/// The pieces of `s` that `line_pieces` describes: each line with its line
/// ending.
fn line_piece_vecs(cs: &Vec<char>) -> (r: Vec<Vec<char>>)
    ensures
        char_vec_texts(r@) == line_pieces(cs@),
{
    let mut out: Vec<Vec<char>> = Vec::new();
    let mut i: usize = 0;
    while i < cs.len()
        invariant
            i <= cs@.len(),
            char_vec_texts(out@) == line_pieces(cs@.take(i as int)),
            forall|j: int| 0 <= j < out@.len() ==> (#[trigger] out@[j])@.len() > 0,
        decreases cs.len() - i,
    {
        let c = cs[i];
        let ghost before = out@;
        let ghost t = cs@.take(i as int + 1);
        proof {
            assert(t.drop_last() =~= cs@.take(i as int));
            assert(t.last() == c);
        }
        let n = out.len();
        if n > 0 && out[n - 1][out[n - 1].len() - 1] != '\n' {
            let mut last = out.pop().unwrap();
            last.push(c);
            out.push(last);
            proof {
                assert(char_vec_texts(out@) =~= char_vec_texts(before).update(
                    before.len() - 1,
                    char_vec_texts(before).last().push(c),
                ));
            }
        } else {
            let mut piece: Vec<char> = Vec::new();
            piece.push(c);
            out.push(piece);
            proof {
                assert(char_vec_texts(out@) =~= char_vec_texts(before).push(seq![c]));
            }
        }
        i = i + 1;
    }
    proof {
        assert(cs@.take(cs@.len() as int) =~= cs@);
    }
    out
}

/// The lines of `s` as `str::lines` yields them (split at `\n`, a `\r`
/// before it removed), copied into strings.
pub(crate) fn lines(s: &str) -> (r: Vec<String>)
    ensures
        r@.map_values(|l: String| l@) == lines_of(s@),
{
    let cs = chars_of(s);
    let pieces = line_piece_vecs(&cs);
    let mut out: Vec<String> = Vec::new();
    let mut i: usize = 0;
    while i < pieces.len()
        invariant
            i <= pieces@.len(),
            char_vec_texts(pieces@) == line_pieces(s@),
            texts_of(out@) == line_pieces(s@).take(i as int).map_values(
                |p: Seq<char>| strip_line_end(p),
            ),
        decreases pieces.len() - i,
    {
        let p = &pieces[i];
        let ghost pv = p@;
        proof {
            assert(line_pieces(s@)[i as int] == pv);
        }
        let len = p.len();
        let mut end = len;
        if len > 0 && p[len - 1] == '\n' {
            end = len - 1;
            if end > 0 && p[end - 1] == '\r' {
                end = end - 1;
            }
        }
        proof {
            assert(pv.subrange(0, end as int) =~= strip_line_end(pv)) by {
                if len > 0 && pv.last() == '\n' {
                    let q = pv.drop_last();
                    if q.len() > 0 && q.last() == '\r' {
                        assert(q.drop_last() =~= pv.subrange(0, end as int));
                    } else {
                        assert(q =~= pv.subrange(0, end as int));
                    }
                }
            }
        }
        let line = string_of_range(p, 0, end);
        let ghost before = out@;
        out.push(line);
        proof {
            assert(texts_of(out@) =~= texts_of(before).push(strip_line_end(pv)));
            assert(line_pieces(s@).take(i as int + 1).map_values(|p: Seq<char>| strip_line_end(p))
                =~= line_pieces(s@).take(i as int).map_values(|p: Seq<char>| strip_line_end(p)).push(
                strip_line_end(pv),
            ));
        }
        i = i + 1;
    }
    proof {
        assert(line_pieces(s@).take(pieces@.len() as int) =~= line_pieces(s@));
    }
    out
}

/// Without its first `a` characters, all whitespace, and with a
/// non-whitespace character (or nothing) at `a`, `s` has lost its leading
/// whitespace.
proof fn lemma_trim_start_at(s: Seq<char>, a: int)
    requires
        0 <= a <= s.len(),
        forall|i: int| 0 <= i < a ==> is_white_space(#[trigger] s[i]),
        a == s.len() || !is_white_space(s[a]),
    ensures
        trim_start_of(s) == s.skip(a),
    decreases a,
{
    if a > 0 {
        lemma_trim_start_at(s.drop_first(), a - 1);
        assert(s.drop_first().skip(a - 1) =~= s.skip(a));
    } else {
        assert(s.skip(0) =~= s);
    }
}

/// With its characters from `m` on all whitespace, and a non-whitespace
/// character (or nothing) before `m`, `s` without its trailing whitespace is
/// its first `m` characters.
proof fn lemma_trim_end_at(s: Seq<char>, m: int)
    requires
        0 <= m <= s.len(),
        forall|i: int| m <= i < s.len() ==> is_white_space(#[trigger] s[i]),
        m == 0 || !is_white_space(s[m - 1]),
    ensures
        trim_end_of(s) == s.take(m),
    decreases s.len() - m,
{
    if m < s.len() {
        lemma_trim_end_at(s.drop_last(), m);
        assert(s.drop_last().take(m) =~= s.take(m));
    } else {
        assert(s.take(m) =~= s);
    }
}

/// The UTF-8 encoding of `s` splits at the byte offset of each character
/// position into the encodings of the two parts.
proof fn lemma_encoding_splits(s: Seq<char>, k: int)
    requires
        0 <= k <= s.len(),
    ensures
        vstd::utf8::encode_utf8(s).subrange(0, byte_offset(s, k)) == vstd::utf8::encode_utf8(
            s.take(k),
        ),
        vstd::utf8::encode_utf8(s).subrange(byte_offset(s, k), byte_len(s))
            == vstd::utf8::encode_utf8(s.skip(k)),
{
    let bytes = vstd::utf8::encode_utf8(s);
    assert(s =~= s.take(k) + s.skip(k));
    lemma_encode_concat(s.take(k), s.skip(k));
    assert(bytes.subrange(0, byte_offset(s, k)) =~= vstd::utf8::encode_utf8(s.take(k)));
    assert(bytes.subrange(byte_offset(s, k), byte_len(s)) =~= vstd::utf8::encode_utf8(s.skip(k)));
}

/// The byte offset of each character position of `s` is a character
/// boundary of its UTF-8 encoding.
proof fn lemma_offset_is_char_boundary(s: Seq<char>, k: int)
    requires
        0 <= k <= s.len(),
    ensures
        vstd::utf8::is_char_boundary(vstd::utf8::encode_utf8(s), byte_offset(s, k)),
    decreases k,
{
    let bytes = vstd::utf8::encode_utf8(s);
    vstd::utf8::encode_utf8_valid_utf8(s);
    if k > 0 {
        let rest = s.drop_first();
        lemma_offset_is_char_boundary(rest, k - 1);
        vstd::utf8::encode_utf8_first_scalar(s);
        assert(s =~= seq![s[0]] + rest);
        lemma_encode_concat(seq![s[0]], rest);
        assert(seq![s[0]].drop_first() =~= Seq::<char>::empty());
        assert(vstd::utf8::encode_utf8(seq![s[0]]) =~= vstd::utf8::encode_scalar(s[0] as u32));
        assert(vstd::utf8::pop_first_scalar(bytes) =~= vstd::utf8::encode_utf8(rest));
        assert(s.take(k) =~= seq![s[0]] + rest.take(k - 1));
        lemma_encode_concat(seq![s[0]], rest.take(k - 1));
        lemma_byte_offset_bounded(s, k);
    } else {
        assert(s.take(0) =~= Seq::<char>::empty());
    }
}

/// `str::trim`: `s` without leading and trailing whitespace.
pub(crate) fn trim(s: &str) -> (r: &str)
    ensures
        r@ == trim_of(s@),
{
    let cs = chars_of(s);
    let n = cs.len();
    let mut a: usize = 0;
    while a < n && is_whitespace_char(cs[a])
        invariant
            a <= n == cs@.len(),
            forall|i: int| 0 <= i < a ==> is_white_space(#[trigger] cs@[i]),
        decreases n - a,
    {
        a = a + 1;
    }
    let mut b: usize = n;
    while b > a && is_whitespace_char(cs[b - 1])
        invariant
            a <= b <= n == cs@.len(),
            forall|i: int| b <= i < n ==> is_white_space(#[trigger] cs@[i]),
        decreases b,
    {
        b = b - 1;
    }
    let ghost t = cs@.skip(a as int);
    proof {
        lemma_trim_start_at(cs@, a as int);
        assert forall|i: int| b - a <= i < t.len() implies is_white_space(#[trigger] t[i]) by {
            assert(t[i] == cs@[a + i]);
        }
        if b > a {
            assert(t[b - a - 1] == cs@[b - 1]);
        }
        lemma_trim_end_at(t, b - a);
        assert(t.take(b - a) =~= cs@.subrange(a as int, b as int));
        lemma_encoding_splits(cs@, a as int);
        lemma_encoding_splits(t, b - a);
        lemma_offset_is_char_boundary(cs@, a as int);
        lemma_offset_is_char_boundary(t, b - a);
        assert(cs@.take(b as int) =~= cs@.take(a as int) + t.take(b - a));
        lemma_encode_concat(cs@.take(a as int), t.take(b - a));
    }
    let total = s.as_bytes().len();
    let off_a = byte_offset_at(&cs, a, total);
    let off_b = byte_offset_at(&cs, b, total);
    let (_, rest) = s.split_at(off_a);
    proof {
        assert(vstd::utf8::encode_utf8(rest@) == vstd::utf8::encode_utf8(t));
        vstd::utf8::encode_utf8_decode_utf8(rest@);
        vstd::utf8::encode_utf8_decode_utf8(t);
    }
    let (mid, _) = rest.split_at(off_b - off_a);
    proof {
        assert(vstd::utf8::encode_utf8(mid@) == vstd::utf8::encode_utf8(t.take(b - a)));
        vstd::utf8::encode_utf8_decode_utf8(mid@);
        vstd::utf8::encode_utf8_decode_utf8(t.take(b - a));
    }
    mid
}

/// The string made of the characters `cs[a..b]`.
pub fn string_of_range(cs: &Vec<char>, a: usize, b: usize) -> (r: String)
    requires
        a <= b <= cs@.len(),
    ensures
        r@ == cs@.subrange(a as int, b as int),
{
    let mut s = String::new();
    let mut i: usize = a;
    while i < b
        invariant
            a <= i <= b <= cs@.len(),
            s@ == cs@.subrange(a as int, i as int),
        decreases b - i,
    {
        push_char(&mut s, cs[i]);
        assert(s@ =~= cs@.subrange(a as int, i + 1));
        i = i + 1;
    }
    s
}

/// The pieces of `s` between the occurrences of `c`, as `str::split` with
/// a character yields them: one more piece than there are occurrences.
pub open spec fn split_on(s: Seq<char>, c: char) -> Seq<Seq<char>>
    decreases s.len(),
{
    if s.len() == 0 {
        seq![Seq::empty()]
    } else {
        let prev = split_on(s.drop_last(), c);
        if s.last() == c {
            prev.push(Seq::empty())
        } else {
            prev.update(prev.len() - 1, prev.last().push(s.last()))
        }
    }
}

/// Splitting always gives at least one piece.
pub proof fn lemma_split_on_nonempty(s: Seq<char>, c: char)
    ensures
        split_on(s, c).len() >= 1,
    decreases s.len(),
{
    if s.len() > 0 {
        lemma_split_on_nonempty(s.drop_last(), c);
    }
}

/// Splitting text around one separator splits each side apart.
pub proof fn lemma_split_on_concat(x: Seq<char>, c: char, y: Seq<char>)
    ensures
        split_on(x + seq![c] + y, c) == split_on(x, c) + split_on(y, c),
    decreases y.len(),
{
    let z = x + seq![c] + y;
    if y.len() == 0 {
        assert(z.drop_last() =~= x);
        assert(split_on(x, c).push(Seq::empty()) =~= split_on(x, c) + split_on(y, c));
    } else {
        assert(z.drop_last() =~= x + seq![c] + y.drop_last());
        lemma_split_on_concat(x, c, y.drop_last());
        lemma_split_on_nonempty(y.drop_last(), c);
        lemma_split_on_nonempty(x, c);
        let sx = split_on(x, c);
        let sy = split_on(y.drop_last(), c);
        assert(z.last() == y.last());
        if y.last() == c {
            assert((sx + sy).push(Seq::empty()) =~= sx + sy.push(Seq::empty()));
        } else {
            let prev = sx + sy;
            assert(prev.update(prev.len() - 1, prev.last().push(y.last())) =~= sx + sy.update(
                sy.len() - 1,
                sy.last().push(y.last()),
            ));
        }
    }
}

/// Text without the separator is one piece.
pub proof fn lemma_split_on_none(y: Seq<char>, c: char)
    requires
        !y.contains(c),
    ensures
        split_on(y, c) == seq![y],
    decreases y.len(),
{
    if y.len() > 0 {
        assert(!y.drop_last().contains(c)) by {
            if y.drop_last().contains(c) {
                let i = choose|i: int| 0 <= i < y.drop_last().len() && y.drop_last()[i] == c;
                assert(y[i] == c);
            }
        }
        lemma_split_on_none(y.drop_last(), c);
        assert(y[y.len() - 1] == y.last());
        assert(y.last() != c);
        assert(y.drop_last().push(y.last()) =~= y);
        assert(seq![y.drop_last()].update(0, y) =~= seq![y]);
    } else {
        assert(y =~= Seq::<char>::empty());
    }
}

/// A decimal rendering holds only digits.
/// The digit character for `n` has code point `'0' + n`.
pub proof fn lemma_dec_digit_value(n: int)
    requires
        0 <= n < 10,
    ensures
        dec_digit(n) as int == ('0' as int) + n,
{
    let v: u32 = (48 + n) as u32;
    assert(vstd::utf8::has_width_1_encoding(v));
    assert(v == ('0' as int) + n);
}

/// Different numbers have different decimal renderings.
pub proof fn lemma_dec_str_injective(a: nat, b: nat)
    requires
        dec_str(a) == dec_str(b),
    ensures
        a == b,
    decreases a,
{
    let da = dec_str(a);
    let db = dec_str(b);
    assert(da.last() == db.last());
    if a < 10 && b < 10 {
        assert(da == seq![dec_digit(a as int)]);
        assert(db == seq![dec_digit(b as int)]);
        assert(da[0] == dec_digit(a as int));
        assert(db[0] == dec_digit(b as int));
        assert(dec_digit(a as int) == dec_digit(b as int));
        lemma_dec_digit_value(a as int);
        lemma_dec_digit_value(b as int);
    } else if a >= 10 && b >= 10 {
        assert(da.drop_last() =~= dec_str(a / 10));
        assert(db.drop_last() =~= dec_str(b / 10));
        lemma_dec_str_injective(a / 10, b / 10);
        assert(da == dec_str(a / 10).push(dec_digit((a % 10) as int)));
        assert(db == dec_str(b / 10).push(dec_digit((b % 10) as int)));
        assert(da[da.len() - 1] == dec_digit((a % 10) as int));
        assert(db[db.len() - 1] == dec_digit((b % 10) as int));
        assert(dec_digit((a % 10) as int) == dec_digit((b % 10) as int));
        lemma_dec_digit_value((a % 10) as int);
        lemma_dec_digit_value((b % 10) as int);
    } else if a < 10 {
        assert(dec_str(b / 10).len() > 0);
        assert(da.len() == 1);
    } else {
        assert(dec_str(a / 10).len() > 0);
        assert(db.len() == 1);
    }
}

pub proof fn lemma_dec_str_digits(n: nat)
    ensures
        forall|i: int| 0 <= i < dec_str(n).len() ==> '0' <= #[trigger] dec_str(n)[i] && dec_str(n)[i] <= '9',
    decreases n,
{
    if n >= 10 {
        lemma_dec_str_digits(n / 10);
        let p = dec_str(n / 10);
        assert forall|i: int| 0 <= i < dec_str(n).len() implies '0' <= #[trigger] dec_str(n)[i]
            && dec_str(n)[i] <= '9' by {
            if i < p.len() {
                assert(dec_str(n)[i] == p[i]);
            }
        }
    }
}

/// The pieces of `s` between the occurrences of `c`.
pub fn split_char(s: &str, c: char) -> (r: Vec<String>)
    ensures
        r@.map_values(|p: String| p@) == split_on(s@, c),
{
    let cs = chars_of(s);
    let mut parts: Vec<String> = Vec::new();
    let mut cur = String::new();
    let mut i: usize = 0;
    proof {
        assert(cs@.take(0) =~= Seq::<char>::empty());
    }
    while i < cs.len()
        invariant
            i <= cs@.len(),
            cs@ == s@,
            parts@.map_values(|p: String| p@).push(cur@) == split_on(cs@.take(i as int), c),
        decreases cs@.len() - i,
    {
        let ghost prev = split_on(cs@.take(i as int), c);
        proof {
            lemma_split_on_nonempty(cs@.take(i as int), c);
            assert(cs@.take(i + 1).drop_last() =~= cs@.take(i as int));
            assert(cs@.take(i + 1).last() == cs@[i as int]);
        }
        if cs[i] == c {
            let ghost before = parts@.map_values(|p: String| p@);
            let mut fresh = String::new();
            std::mem::swap(&mut fresh, &mut cur);
            parts.push(fresh);
            assert(parts@.map_values(|p: String| p@).push(cur@) =~= before.push(
                fresh@,
            ).push(Seq::<char>::empty()));
        } else {
            let ghost before = parts@.map_values(|p: String| p@);
            push_char(&mut cur, cs[i]);
            assert(parts@.map_values(|p: String| p@).push(cur@) =~= prev.update(
                prev.len() - 1,
                prev.last().push(cs@[i as int]),
            ));
        }
        i = i + 1;
    }
    proof {
        assert(cs@.take(cs@.len() as int) =~= cs@);
    }
    let ghost before = parts@.map_values(|p: String| p@);
    parts.push(cur);
    assert(parts@.map_values(|p: String| p@) =~= before.push(cur@));
    parts
}

/// Whether `s` contains the character `c`.
pub fn contains_char(s: &str, c: char) -> (r: bool)
    ensures
        r == s@.contains(c),
{
    let cs = chars_of(s);
    let mut i: usize = 0;
    while i < cs.len()
        invariant
            i <= cs@.len(),
            cs@ == s@,
            forall|j: int| 0 <= j < i ==> cs@[j] != c,
        decreases cs@.len() - i,
    {
        if cs[i] == c {
            assert(cs@[i as int] == c);
            return true;
        }
        i = i + 1;
    }
    false
}

/// The texts `parts` joined with `sep` between consecutive ones.
pub open spec fn joined(parts: Seq<Seq<char>>, sep: Seq<char>) -> Seq<char>
    decreases parts.len(),
{
    if parts.len() == 0 {
        Seq::empty()
    } else if parts.len() == 1 {
        parts[0]
    } else {
        joined(parts.drop_last(), sep) + sep + parts.last()
    }
}

/// `t` occurs in `s` at position `i`.
pub open spec fn occurs_at(s: Seq<char>, t: Seq<char>, i: int) -> bool {
    0 <= i && i + t.len() <= s.len() && s.subrange(i, i + t.len()) == t
}

/// `t` occurs somewhere in `s`.
pub open spec fn has_substring(s: Seq<char>, t: Seq<char>) -> bool {
    exists|i: int| occurs_at(s, t, i)
}

/// Whether `t` occurs in `s`.
pub fn contains_str(s: &str, t: &str) -> (r: bool)
    ensures
        r == has_substring(s@, t@),
{
    let a = chars_of(s);
    let b = chars_of(t);
    if b.len() > a.len() {
        assert forall|i: int| !occurs_at(s@, t@, i) by {}
        return false;
    }
    let mut i: usize = 0;
    while i <= a.len() - b.len()
        invariant
            a@ == s@,
            b@ == t@,
            a@.len() <= usize::MAX,
            b@.len() <= a@.len(),
            i <= a@.len() - b@.len() + 1,
            forall|j: int| 0 <= j < i ==> !occurs_at(s@, t@, j),
        decreases a@.len() - b@.len() + 1 - i,
    {
        let mut k: usize = 0;
        while k < b.len() && a[i + k] == b[k]
            invariant
                a@ == s@,
                b@ == t@,
                a@.len() <= usize::MAX,
                i + b@.len() <= a@.len(),
                k <= b@.len(),
                forall|m: int| 0 <= m < k ==> a@[i + m] == b@[m],
            decreases b@.len() - k,
        {
            k = k + 1;
        }
        if k == b.len() {
            assert(a@.subrange(i as int, i + b@.len()) =~= b@);
            assert(occurs_at(s@, t@, i as int));
            return true;
        }
        proof {
            assert(a@[i + k] != b@[k as int]);
            assert(a@.subrange(i as int, i + b@.len())[k as int] == a@[i + k]);
        }
        i = i + 1;
    }
    assert forall|j: int| !occurs_at(s@, t@, j) by {
        if 0 <= j && j + t@.len() <= s@.len() {
            assert(j < i);
        }
    }
    false
}

/// The part of `s` before the first occurrence of `t` (all of `s` when `t`
/// does not occur), as the first piece of `split` gives it.
pub open spec fn before_first(s: Seq<char>, t: Seq<char>) -> Seq<char>
    decreases s.len(),
{
    if s.len() < t.len() {
        s
    } else if s.take(t.len() as int) == t {
        Seq::empty()
    } else if s.len() == 0 {
        s
    } else {
        seq![s[0]] + before_first(s.drop_first(), t)
    }
}

/// The part of `s` before the first occurrence of `t`.
pub fn text_before(s: &str, t: &str) -> (r: String)
    requires
        t@.len() > 0,
    ensures
        r@ == before_first(s@, t@),
{
    let cs = chars_of(s);
    let ts = chars_of(t);
    let n = cs.len();
    let mut i: usize = 0;
    assert(s@.take(0) + s@.skip(0) =~= s@);
    while i < n
        invariant
            n == cs@.len(),
            cs@ == s@,
            ts@ == t@,
            ts@.len() > 0,
            cs@.len() <= usize::MAX,
            i <= cs@.len(),
            before_first(s@, t@) == s@.take(i as int) + before_first(s@.skip(i as int), t@),
        decreases cs@.len() - i,
    {
        let ghost rest = s@.skip(i as int);
        if n - i < ts.len() {
            assert(before_first(rest, t@) == rest);
            assert(s@.take(i as int) + rest =~= s@);
            return from_chars(cs.as_slice());
        }
        let mut k: usize = 0;
        while k < ts.len() && cs[i + k] == ts[k]
            invariant
                cs@ == s@,
                ts@ == t@,
                cs@.len() <= usize::MAX,
                i + ts@.len() <= cs@.len(),
                k <= ts@.len(),
                forall|m: int| 0 <= m < k ==> cs@[i + m] == ts@[m],
            decreases ts@.len() - k,
        {
            k = k + 1;
        }
        if k == ts.len() {
            assert(rest.take(t@.len() as int) =~= t@);
            assert(before_first(rest, t@) == Seq::<char>::empty());
            assert(s@.take(i as int) + Seq::<char>::empty() =~= cs@.subrange(0, i as int));
            return string_of_range(&cs, 0, i);
        }
        assert(rest.take(t@.len() as int) != t@) by {
            assert(rest.take(t@.len() as int)[k as int] == cs@[i + k]);
        }
        assert(rest.drop_first() =~= s@.skip(i + 1));
        assert(s@.take(i as int) + seq![rest[0]] =~= s@.take(i + 1));
        assert(s@.take(i as int) + (seq![rest[0]] + before_first(rest.drop_first(), t@)) =~= (s@.take(i as int) + seq![rest[0]]) + before_first(rest.drop_first(), t@));
        i = i + 1;
    }
    assert(s@.skip(i as int).len() == 0);
    assert(before_first(s@.skip(i as int), t@) == s@.skip(i as int));
    assert(s@.take(i as int) + s@.skip(i as int) =~= s@);
    from_chars(cs.as_slice())
}

/// The number of bytes that the first `k` characters of `s` take in UTF-8.
pub open spec fn byte_offset(s: Seq<char>, k: int) -> int {
    vstd::utf8::encode_utf8(s.take(k)).len() as int
}

/// The number of bytes that `s` takes in UTF-8.
pub open spec fn byte_len(s: Seq<char>) -> int {
    vstd::utf8::encode_utf8(s).len() as int
}

/// Byte offset `idx` of `s` falls between two characters (or at an end).
pub open spec fn is_boundary(s: Seq<char>, idx: int) -> bool {
    exists|k: int| 0 <= k <= s.len() && byte_offset(s, k) == idx
}

/// The position of the character that starts at byte offset `idx` of `s`.
pub open spec fn char_pos(s: Seq<char>, idx: int) -> int {
    choose|k: int| 0 <= k <= s.len() && byte_offset(s, k) == idx
}

/// The encoding of two strings one after the other is the two encodings one
/// after the other.
pub proof fn lemma_encode_concat(a: Seq<char>, b: Seq<char>)
    ensures
        vstd::utf8::encode_utf8(a + b) == vstd::utf8::encode_utf8(a) + vstd::utf8::encode_utf8(b),
    decreases a.len(),
{
    if a.len() > 0 {
        assert((a + b).drop_first() =~= a.drop_first() + b);
        lemma_encode_concat(a.drop_first(), b);
        assert(vstd::utf8::encode_scalar(a[0] as u32) + (vstd::utf8::encode_utf8(a.drop_first())
            + vstd::utf8::encode_utf8(b)) =~= (vstd::utf8::encode_scalar(a[0] as u32)
            + vstd::utf8::encode_utf8(a.drop_first())) + vstd::utf8::encode_utf8(b));
    } else {
        assert(a + b =~= b);
        assert(vstd::utf8::encode_utf8(a) + vstd::utf8::encode_utf8(b) =~= vstd::utf8::encode_utf8(b));
    }
}

/// Each character takes at least one byte, and an ASCII character exactly
/// one.
pub proof fn lemma_char_bytes(c: char)
    ensures
        vstd::utf8::encode_utf8(seq![c]).len() >= 1,
        (c as u32) < 0x80 ==> vstd::utf8::encode_utf8(seq![c]).len() == 1,
{
    assert(seq![c].drop_first() =~= Seq::<char>::empty());
    assert(vstd::utf8::encode_utf8(seq![c]) == vstd::utf8::encode_scalar(c as u32)
        + vstd::utf8::encode_utf8(Seq::<char>::empty()));
    if (c as u32) < 0x80 {
        assert(vstd::utf8::has_width_1_encoding(c as u32));
        assert(vstd::utf8::encode_scalar(c as u32).len() == 1);
    }
}

/// The byte offset of character `k + 1` is that of character `k` plus the
/// size of character `k`.
pub proof fn lemma_byte_offset_step(s: Seq<char>, k: int)
    requires
        0 <= k < s.len(),
    ensures
        byte_offset(s, k + 1) == byte_offset(s, k) + vstd::utf8::encode_utf8(seq![s[k]]).len(),
{
    assert(s.take(k + 1) =~= s.take(k) + seq![s[k]]);
    lemma_encode_concat(s.take(k), seq![s[k]]);
}

/// Later characters start at larger byte offsets.
pub proof fn lemma_byte_offset_increasing(s: Seq<char>, i: int, j: int)
    requires
        0 <= i < j <= s.len(),
    ensures
        byte_offset(s, i) < byte_offset(s, j),
    decreases j - i,
{
    lemma_byte_offset_step(s, j - 1);
    lemma_char_bytes(s[j - 1]);
    if i < j - 1 {
        lemma_byte_offset_increasing(s, i, j - 1);
    }
}

/// The character that starts at the byte offset of character `k` is
/// character `k`.
pub proof fn lemma_char_pos_of_offset(s: Seq<char>, k: int)
    requires
        0 <= k <= s.len(),
    ensures
        is_boundary(s, byte_offset(s, k)),
        char_pos(s, byte_offset(s, k)) == k,
{
    let idx = byte_offset(s, k);
    assert(is_boundary(s, idx));
    let p = char_pos(s, idx);
    if p < k {
        lemma_byte_offset_increasing(s, p, k);
    } else if k < p {
        lemma_byte_offset_increasing(s, k, p);
    }
}

/// The byte offset of a character is at most the byte length of the text.
pub proof fn lemma_byte_offset_bounded(s: Seq<char>, k: int)
    requires
        0 <= k <= s.len(),
    ensures
        byte_offset(s, k) <= byte_len(s),
        byte_offset(s, s.len() as int) == byte_len(s),
{
    assert(s.take(s.len() as int) =~= s);
    if k < s.len() {
        lemma_byte_offset_increasing(s, k, s.len() as int);
    }
}

/// The number of bytes `c` takes in UTF-8.
pub fn char_bytes(c: char) -> (r: usize)
    ensures
        r == vstd::utf8::encode_utf8(seq![c]).len(),
{
    let s = char_string(c);
    string_len(&s)
}

/// The position of the character that starts at byte offset `idx` of the
/// text `cs`, whose UTF-8 encoding takes `total` bytes.
pub fn char_index_at(cs: &Vec<char>, idx: usize, total: usize) -> (r: usize)
    requires
        is_boundary(cs@, idx as int),
        total == byte_len(cs@),
    ensures
        r == char_pos(cs@, idx as int),
        byte_offset(cs@, r as int) == idx,
        r <= cs@.len(),
{
    let n = cs.len();
    let mut k: usize = 0;
    let mut off: usize = 0;
    proof {
        assert(cs@.take(0) =~= Seq::<char>::empty());
    }
    while off < idx
        invariant
            n == cs@.len(),
            is_boundary(cs@, idx as int),
            total == byte_len(cs@),
            k <= cs@.len(),
            off as int == byte_offset(cs@, k as int),
            off <= idx,
        decreases idx - off,
    {
        proof {
            let w = choose|j: int| 0 <= j <= cs@.len() && byte_offset(cs@, j) == idx;
            if w <= k {
                if w < k {
                    lemma_byte_offset_increasing(cs@, w, k as int);
                }
            }
            assert(k < w);
            lemma_byte_offset_step(cs@, k as int);
            if k + 1 < w {
                lemma_byte_offset_increasing(cs@, k + 1, w);
            }
            lemma_char_bytes(cs@[k as int]);
        }
        off = off + char_bytes(cs[k]);
        k = k + 1;
    }
    proof {
        lemma_char_pos_of_offset(cs@, k as int);
    }
    k
}

/// The byte offset of character `k` of the text `cs`, whose UTF-8 encoding
/// takes `total` bytes.
pub fn byte_offset_at(cs: &Vec<char>, k: usize, total: usize) -> (r: usize)
    requires
        k <= cs@.len(),
        total == byte_len(cs@),
    ensures
        r == byte_offset(cs@, k as int),
{
    let mut i: usize = 0;
    let mut off: usize = 0;
    proof {
        assert(cs@.take(0) =~= Seq::<char>::empty());
    }
    while i < k
        invariant
            k <= cs@.len(),
            total == byte_len(cs@),
            i <= k,
            off as int == byte_offset(cs@, i as int),
        decreases k - i,
    {
        proof {
            lemma_byte_offset_step(cs@, i as int);
            lemma_byte_offset_bounded(cs@, i + 1);
        }
        off = off + char_bytes(cs[i]);
        i = i + 1;
    }
    off
}

/// `i` is the first position at or after `k0` where `t` occurs in `s`.
pub open spec fn first_occurrence_from(s: Seq<char>, t: Seq<char>, k0: int, i: int) -> bool {
    &&& k0 <= i
    &&& occurs_at(s, t, i)
    &&& forall|j: int| k0 <= j < i ==> !occurs_at(s, t, j)
}

/// The first position at or after `k0` where `t` occurs in `s`.
pub fn find_from(s: &Vec<char>, k0: usize, t: &Vec<char>) -> (r: Option<usize>)
    requires
        k0 <= s@.len(),
    ensures
        match r {
            Some(i) => first_occurrence_from(s@, t@, k0 as int, i as int),
            None => forall|j: int| k0 <= j ==> !occurs_at(s@, t@, j),
        },
{
    let n = s.len();
    let m = t.len();
    if m > n || k0 > n - m {
        return None;
    }
    let mut i: usize = k0;
    while i <= n - m
        invariant
            n == s@.len(),
            m == t@.len(),
            m <= n,
            k0 <= i,
            i <= n - m + 1,
            forall|j: int| k0 <= j < i ==> !occurs_at(s@, t@, j),
        decreases n - m + 1 - i,
    {
        let mut k: usize = 0;
        while k < m && s[i + k] == t[k]
            invariant
                n == s@.len(),
                m == t@.len(),
                i + m <= n,
                k <= m,
                forall|q: int| 0 <= q < k ==> s@[i + q] == t@[q],
            decreases m - k,
        {
            k = k + 1;
        }
        if k == m {
            assert(s@.subrange(i as int, i + m) =~= t@);
            return Some(i);
        }
        proof {
            assert(s@.subrange(i as int, i + m)[k as int] == s@[i + k]);
        }
        i = i + 1;
    }
    None
}

/// `String::len`: the number of bytes of the string's UTF-8 encoding.
#[verifier::external_body]
pub(crate) fn string_len(s: &String) -> (r: usize)
    ensures
        r as int == byte_len(s@),
{
    s.len()
}

/// `String::insert`: puts `c` before the character that starts at byte
/// offset `idx`. The standard library panics off a character boundary.
#[verifier::external_body]
pub(crate) fn string_insert(s: &mut String, idx: usize, c: char)
    requires
        is_boundary(old(s)@, idx as int),
    ensures
        final(s)@ == old(s)@.insert(char_pos(old(s)@, idx as int), c),
{
    s.insert(idx, c);
}

/// `String::remove`: removes and returns the character that starts at byte
/// offset `idx`. The standard library panics off a character boundary and
/// at the end.
#[verifier::external_body]
pub(crate) fn string_remove(s: &mut String, idx: usize) -> (r: char)
    requires
        is_boundary(old(s)@, idx as int),
        char_pos(old(s)@, idx as int) < old(s)@.len(),
    ensures
        r == old(s)@[char_pos(old(s)@, idx as int)],
        final(s)@ == old(s)@.remove(char_pos(old(s)@, idx as int)),
{
    s.remove(idx)
}

/// `String::split_off`: keeps the characters before byte offset `at` and
/// returns the rest. The standard library panics off a character boundary.
#[verifier::external_body]
pub(crate) fn string_split_off(s: &mut String, at: usize) -> (r: String)
    requires
        is_boundary(old(s)@, at as int),
    ensures
        final(s)@ == old(s)@.take(char_pos(old(s)@, at as int)),
        r@ == old(s)@.skip(char_pos(old(s)@, at as int)),
{
    s.split_off(at)
}

} // verus!
