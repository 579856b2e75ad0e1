//! Sort keys and a stable merge sort of indices by key.
//!
//! A key is a sequence of numbers compared lexicographically. Paths are
//! keyed so that the order of keys is the order of their components (the
//! order of `Path`), texts by their characters (the order of `str`).
use vstd::prelude::*;
use crate::paths::{components, path_components, PathPart, PathPartView};
use crate::text::chars_of;

verus! {

broadcast use vstd::seq_lib::group_to_multiset_ensures;

/// `a` comes strictly before `b` in lexicographic order.
pub open spec fn lex_lt(a: Seq<u32>, b: Seq<u32>) -> bool
    decreases a.len(),
{
    if a.len() == 0 {
        b.len() > 0
    } else if b.len() == 0 {
        false
    } else if a[0] != b[0] {
        a[0] < b[0]
    } else {
        lex_lt(a.drop_first(), b.drop_first())
    }
}

/// `a` comes before or is `b` in lexicographic order.
pub open spec fn lex_le(a: Seq<u32>, b: Seq<u32>) -> bool {
    lex_lt(a, b) || a == b
}

pub proof fn lemma_lex_irreflexive(a: Seq<u32>)
    ensures
        !lex_lt(a, a),
    decreases a.len(),
{
    if a.len() > 0 {
        lemma_lex_irreflexive(a.drop_first());
    }
}

pub proof fn lemma_lex_transitive(a: Seq<u32>, b: Seq<u32>, c: Seq<u32>)
    requires
        lex_lt(a, b),
        lex_lt(b, c),
    ensures
        lex_lt(a, c),
    decreases a.len(),
{
    if a.len() > 0 && b.len() > 0 && c.len() > 0 {
        if a[0] == b[0] && b[0] == c[0] {
            lemma_lex_transitive(a.drop_first(), b.drop_first(), c.drop_first());
        }
    }
}

pub proof fn lemma_lex_total(a: Seq<u32>, b: Seq<u32>)
    ensures
        lex_lt(a, b) || lex_lt(b, a) || a == b,
    decreases a.len(),
{
    if a.len() > 0 && b.len() > 0 && a[0] == b[0] {
        lemma_lex_total(a.drop_first(), b.drop_first());
        if a.drop_first() == b.drop_first() {
            assert(a =~= seq![a[0]] + a.drop_first());
            assert(b =~= seq![b[0]] + b.drop_first());
        }
    } else if a.len() == 0 && b.len() == 0 {
        assert(a =~= b);
    }
}

pub proof fn lemma_lex_asymmetric(a: Seq<u32>, b: Seq<u32>)
    requires
        lex_lt(a, b),
    ensures
        !lex_lt(b, a),
        a != b,
{
    if lex_lt(b, a) {
        lemma_lex_transitive(a, b, a);
        lemma_lex_irreflexive(a);
    }
    lemma_lex_irreflexive(a);
}

/// The keys of `s` increase strictly.
pub open spec fn strictly_sorted(s: Seq<Seq<u32>>) -> bool {
    forall|i: int, j: int| 0 <= i < j < s.len() ==> lex_lt(#[trigger] s[i], #[trigger] s[j])
}

/// Two strictly increasing lists of keys with the same members are equal.
pub proof fn lemma_sorted_same_members(s1: Seq<Seq<u32>>, s2: Seq<Seq<u32>>)
    requires
        strictly_sorted(s1),
        strictly_sorted(s2),
        forall|x: Seq<u32>| s1.contains(x) <==> s2.contains(x),
    ensures
        s1 == s2,
    decreases s1.len(),
{
    if s1.len() == 0 {
        if s2.len() > 0 {
            assert(s2.contains(s2[0]));
        }
        assert(s1 =~= s2);
    } else if s2.len() == 0 {
        assert(s1.contains(s1[0]));
    } else {
        assert(s1.contains(s1[0]));
        assert(s2.contains(s2[0]));
        let j = choose|j: int| 0 <= j < s2.len() && s2[j] == s1[0];
        let i = choose|i: int| 0 <= i < s1.len() && s1[i] == s2[0];
        if j > 0 {
            assert(lex_lt(s2[0], s2[j]));
            if i > 0 {
                assert(lex_lt(s1[0], s1[i]));
                lemma_lex_transitive(s2[0], s1[0], s1[i]);
            }
            lemma_lex_irreflexive(s2[0]);
        }
        assert(s1[0] == s2[0]);
        let t1 = s1.drop_first();
        let t2 = s2.drop_first();
        assert forall|x: Seq<u32>| t1.contains(x) <==> t2.contains(x) by {
            if t1.contains(x) {
                let a = choose|a: int| 0 <= a < t1.len() && t1[a] == x;
                assert(s1[a + 1] == x);
                assert(lex_lt(s1[0], s1[a + 1]));
                lemma_lex_asymmetric(s1[0], x);
                assert(s1.contains(x));
                let b = choose|b: int| 0 <= b < s2.len() && s2[b] == x;
                assert(b != 0);
                assert(t2[b - 1] == x);
            }
            if t2.contains(x) {
                let a = choose|a: int| 0 <= a < t2.len() && t2[a] == x;
                assert(s2[a + 1] == x);
                assert(lex_lt(s2[0], s2[a + 1]));
                lemma_lex_asymmetric(s2[0], x);
                assert(s2.contains(x));
                let b = choose|b: int| 0 <= b < s1.len() && s1[b] == x;
                assert(b != 0);
                assert(t1[b - 1] == x);
            }
        }
        assert(strictly_sorted(t1)) by {
            assert forall|a: int, b: int| 0 <= a < b < t1.len() implies lex_lt(
                #[trigger] t1[a],
                #[trigger] t1[b],
            ) by {
                assert(t1[a] == s1[a + 1] && t1[b] == s1[b + 1]);
            }
        }
        assert(strictly_sorted(t2)) by {
            assert forall|a: int, b: int| 0 <= a < b < t2.len() implies lex_lt(
                #[trigger] t2[a],
                #[trigger] t2[b],
            ) by {
                assert(t2[a] == s2[a + 1] && t2[b] == s2[b + 1]);
            }
        }
        lemma_sorted_same_members(t1, t2);
        assert(s1 =~= seq![s1[0]] + t1);
        assert(s2 =~= seq![s2[0]] + t2);
    }
}

proof fn lemma_lex_common_prefix(a: Seq<u32>, b: Seq<u32>, k: int)
    requires
        0 <= k <= a.len(),
        k <= b.len(),
        forall|m: int| 0 <= m < k ==> a[m] == b[m],
    ensures
        lex_lt(a, b) == lex_lt(a.skip(k), b.skip(k)),
    decreases k,
{
    if k > 0 {
        assert forall|m: int| 0 <= m < k - 1 implies a.drop_first()[m] == b.drop_first()[m] by {
            assert(a[m + 1] == b[m + 1]);
        }
        lemma_lex_common_prefix(a.drop_first(), b.drop_first(), k - 1);
        assert(a.drop_first().skip(k - 1) =~= a.skip(k));
        assert(b.drop_first().skip(k - 1) =~= b.skip(k));
    } else {
        assert(a.skip(0) =~= a);
        assert(b.skip(0) =~= b);
    }
}

/// Whether `a` comes strictly before `b`.
pub fn lex_less(a: &Vec<u32>, b: &Vec<u32>) -> (r: bool)
    ensures
        r == lex_lt(a@, b@),
{
    let mut k: usize = 0;
    while k < a.len() && k < b.len() && a[k] == b[k]
        invariant
            k <= a@.len(),
            k <= b@.len(),
            forall|m: int| 0 <= m < k ==> a@[m] == b@[m],
        decreases a@.len() - k,
    {
        k = k + 1;
    }
    proof {
        lemma_lex_common_prefix(a@, b@, k as int);
    }
    if k == a.len() {
        k < b.len()
    } else if k == b.len() {
        false
    } else {
        a[k] < b[k]
    }
}

/// Whether `a` and `b` are the same key.
pub fn key_eq(a: &Vec<u32>, b: &Vec<u32>) -> (r: bool)
    ensures
        r == (a@ == b@),
{
    if a.len() != b.len() {
        return false;
    }
    let mut k: usize = 0;
    while k < a.len()
        invariant
            k <= a@.len(),
            a@.len() == b@.len(),
            forall|m: int| 0 <= m < k ==> a@[m] == b@[m],
        decreases a@.len() - k,
    {
        if a[k] != b[k] {
            return false;
        }
        k = k + 1;
    }
    assert(a@ =~= b@);
    true
}

/// The key of a text: its characters as numbers.
pub open spec fn text_key(s: Seq<char>) -> Seq<u32> {
    s.map_values(|c: char| c as u32)
}

/// The key of a text.
pub fn text_key_of(s: &str) -> (r: Vec<u32>)
    ensures
        r@ == text_key(s@),
{
    let cs = chars_of(s);
    let mut v: Vec<u32> = Vec::new();
    let mut i: usize = 0;
    while i < cs.len()
        invariant
            i <= cs@.len(),
            cs@ == s@,
            v@ == text_key(cs@.take(i as int)),
        decreases cs@.len() - i,
    {
        v.push(cs[i] as u32);
        assert(text_key(cs@.take(i + 1)) =~= text_key(cs@.take(i as int)).push(cs@[i as int] as u32));
        i = i + 1;
    }
    assert(cs@.take(cs@.len() as int) =~= cs@);
    v
}

/// The key of one path component: its kind, in the order in which
/// `Component` orders its variants, then its text with every character
/// raised by one, then a zero that ends it.
pub open spec fn component_key(c: PathPartView) -> Seq<u32> {
    match c {
        PathPartView::Prefix(s) => seq![0u32] + raised(s) + seq![0u32],
        PathPartView::RootDir => seq![1u32, 0u32],
        PathPartView::CurDir => seq![2u32, 0u32],
        PathPartView::ParentDir => seq![3u32, 0u32],
        PathPartView::Normal(s) => seq![4u32] + raised(s) + seq![0u32],
    }
}

/// The characters of `s` as numbers raised by one.
pub open spec fn raised(s: Seq<char>) -> Seq<u32> {
    s.map_values(|c: char| (c as u32 + 1) as u32)
}

/// The key of a sequence of components: their keys one after another.
pub open spec fn components_key(cs: Seq<PathPartView>) -> Seq<u32>
    decreases cs.len(),
{
    if cs.len() == 0 {
        Seq::empty()
    } else {
        components_key(cs.drop_last()) + component_key(cs.last())
    }
}

/// The key of a path, from its components.
pub open spec fn path_key(p: Seq<char>) -> Seq<u32> {
    components_key(path_components(p))
}

/// Append the characters of `s`, raised by one, to `v`.
fn push_raised(v: &mut Vec<u32>, s: &str)
    ensures
        final(v)@ == old(v)@ + raised(s@),
{
    let cs = chars_of(s);
    let ghost start = v@;
    let mut i: usize = 0;
    while i < cs.len()
        invariant
            i <= cs@.len(),
            cs@ == s@,
            v@ == start + raised(cs@.take(i as int)),
        decreases cs@.len() - i,
    {
        let ch = cs[i];
        let c = ch as u32;
        proof {
            vstd::utf8::char_is_scalar(ch);
        }
        v.push(c + 1);
        assert(raised(cs@.take(i + 1)) =~= raised(cs@.take(i as int)).push((c + 1) as u32));
        i = i + 1;
    }
    assert(cs@.take(cs@.len() as int) =~= cs@);
}

/// The key of a path.
pub fn path_key_of(p: &str) -> (r: Vec<u32>)
    ensures
        r@ == path_key(p@),
{
    let parts = components(p);
    let ghost views = parts@.map_values(|c: PathPart| c@);
    let mut v: Vec<u32> = Vec::new();
    let mut i: usize = 0;
    while i < parts.len()
        invariant
            i <= parts@.len(),
            views == parts@.map_values(|c: PathPart| c@),
            views == path_components(p@),
            v@ == components_key(views.take(i as int)),
        decreases parts@.len() - i,
    {
        proof {
            assert(views.take(i + 1).drop_last() =~= views.take(i as int));
            assert(views.take(i + 1).last() == parts@[i as int]@);
        }
        let ghost before = v@;
        match &parts[i] {
            PathPart::Prefix(s) => {
                v.push(0);
                push_raised(&mut v, s.as_str());
                v.push(0);
                assert(v@ =~= before + (seq![0u32] + raised(s@) + seq![0u32]));
            },
            PathPart::RootDir => {
                v.push(1);
                v.push(0);
                assert(v@ =~= before + seq![1u32, 0u32]);
            },
            PathPart::CurDir => {
                v.push(2);
                v.push(0);
                assert(v@ =~= before + seq![2u32, 0u32]);
            },
            PathPart::ParentDir => {
                v.push(3);
                v.push(0);
                assert(v@ =~= before + seq![3u32, 0u32]);
            },
            PathPart::Normal(s) => {
                v.push(4);
                push_raised(&mut v, s.as_str());
                v.push(0);
                assert(v@ =~= before + (seq![4u32] + raised(s@) + seq![0u32]));
            },
        }
        i = i + 1;
    }
    assert(views.take(parts@.len() as int) =~= views);
    v
}

/// Index `i` comes before index `j` when sorting by `keys`: by key, and
/// by position among equal keys.
pub open spec fn idx_lt(keys: Seq<Seq<u32>>, i: usize, j: usize) -> bool {
    lex_lt(keys[i as int], keys[j as int]) || (keys[i as int] == keys[j as int] && i < j)
}

/// `s` is strictly increasing by `idx_lt`.
pub open spec fn idx_sorted(keys: Seq<Seq<u32>>, s: Seq<usize>) -> bool {
    forall|a: int, b: int| 0 <= a < b < s.len() ==> idx_lt(keys, #[trigger] s[a], #[trigger] s[b])
}

/// The indices `lo..hi` in order.
pub open spec fn index_range(lo: int, hi: int) -> Seq<usize> {
    Seq::new((hi - lo) as nat, |i: int| (lo + i) as usize)
}

proof fn lemma_idx_transitive(keys: Seq<Seq<u32>>, i: usize, j: usize, k: usize)
    requires
        idx_lt(keys, i, j),
        idx_lt(keys, j, k),
    ensures
        idx_lt(keys, i, k),
{
    if lex_lt(keys[i as int], keys[j as int]) && lex_lt(keys[j as int], keys[k as int]) {
        lemma_lex_transitive(keys[i as int], keys[j as int], keys[k as int]);
    }
}

proof fn lemma_idx_total(keys: Seq<Seq<u32>>, i: usize, j: usize)
    requires
        i != j,
    ensures
        idx_lt(keys, i, j) || idx_lt(keys, j, i),
{
    lemma_lex_total(keys[i as int], keys[j as int]);
}

/// Merge two index lists sorted by `keys`, all of `left` below `mid` and
/// all of `right` from `mid` on.
fn merge_sorted(keys: &Vec<Vec<u32>>, left: Vec<usize>, right: Vec<usize>, mid: usize) -> (r: Vec<
    usize,
>)
    requires
        idx_sorted(keys@.map_values(|k: Vec<u32>| k@), left@),
        idx_sorted(keys@.map_values(|k: Vec<u32>| k@), right@),
        forall|p: int| 0 <= p < left@.len() ==> (#[trigger] left@[p]) < mid && left@[p] < keys@.len(),
        forall|q: int| 0 <= q < right@.len() ==> mid <= (#[trigger] right@[q]) && right@[q] < keys@.len(),
    ensures
        idx_sorted(keys@.map_values(|k: Vec<u32>| k@), r@),
        r@.to_multiset() == left@.to_multiset().add(right@.to_multiset()),
        forall|t: int| 0 <= t < r@.len() ==> (#[trigger] r@[t]) < keys@.len(),
{
    let ghost ks = keys@.map_values(|k: Vec<u32>| k@);
    let mut out: Vec<usize> = Vec::new();
    let mut i: usize = 0;
    let mut j: usize = 0;
    proof {
        assert(left@.take(0) =~= Seq::<usize>::empty());
        assert(right@.take(0) =~= Seq::<usize>::empty());
        assert(out@.to_multiset() =~= left@.take(0).to_multiset().add(right@.take(0).to_multiset()));
    }
    while i < left.len() || j < right.len()
        invariant
            ks == keys@.map_values(|k: Vec<u32>| k@),
            idx_sorted(ks, left@),
            idx_sorted(ks, right@),
            forall|p: int| 0 <= p < left@.len() ==> (#[trigger] left@[p]) < mid && left@[p] < keys@.len(),
            forall|q: int| 0 <= q < right@.len() ==> mid <= (#[trigger] right@[q]) && right@[q] < keys@.len(),
            i <= left@.len(),
            j <= right@.len(),
            idx_sorted(ks, out@),
            out@.to_multiset() == left@.take(i as int).to_multiset().add(
                right@.take(j as int).to_multiset(),
            ),
            out@.len() == i + j,
            forall|t: int| 0 <= t < out@.len() ==> (#[trigger] out@[t]) < keys@.len(),
            out@.len() > 0 && i < left@.len() ==> idx_lt(ks, out@.last(), left@[i as int]),
            out@.len() > 0 && j < right@.len() ==> idx_lt(ks, out@.last(), right@[j as int]),
        decreases left@.len() + right@.len() - i - j,
    {
        let take_left = if i == left.len() {
            false
        } else if j == right.len() {
            true
        } else {
            let a = left[i];
            let b = right[j];
            !(lex_less(&keys[b], &keys[a]) || (key_eq(&keys[b], &keys[a]) && b < a))
        };
        let ghost prev = out@;
        if take_left {
            let x = left[i];
            proof {
                if j < right@.len() {
                    assert(left@[i as int] < mid <= right@[j as int]);
                    lemma_idx_total(ks, left@[i as int], right@[j as int]);
                }
                assert(left@.take(i + 1) =~= left@.take(i as int).push(x));
            }
            out.push(x);
            proof {
                assert forall|a: int, b: int| 0 <= a < b < out@.len() implies idx_lt(
                    ks,
                    #[trigger] out@[a],
                    #[trigger] out@[b],
                ) by {
                    if b == out@.len() - 1 && a < prev.len() {
                        if a < prev.len() - 1 {
                            lemma_idx_transitive(ks, prev[a], prev.last(), x);
                        }
                    }
                }
                if i + 1 < left@.len() {
                    assert(idx_lt(ks, left@[i as int], left@[i + 1]));
                }
            }
            i = i + 1;
        } else {
            let x = right[j];
            proof {
                assert(right@.take(j + 1) =~= right@.take(j as int).push(x));
            }
            out.push(x);
            proof {
                assert forall|a: int, b: int| 0 <= a < b < out@.len() implies idx_lt(
                    ks,
                    #[trigger] out@[a],
                    #[trigger] out@[b],
                ) by {
                    if b == out@.len() - 1 && a < prev.len() {
                        if a < prev.len() - 1 {
                            lemma_idx_transitive(ks, prev[a], prev.last(), x);
                        }
                    }
                }
                if j + 1 < right@.len() {
                    assert(idx_lt(ks, right@[j as int], right@[j + 1]));
                }
            }
            j = j + 1;
        }
    }
    proof {
        assert(left@.take(left@.len() as int) =~= left@);
        assert(right@.take(right@.len() as int) =~= right@);
    }
    out
}

/// The indices `lo..hi` sorted by `keys`: by key, and by index among equal
/// keys (so a stable order).
fn sort_range(keys: &Vec<Vec<u32>>, lo: usize, hi: usize) -> (r: Vec<usize>)
    requires
        lo <= hi <= keys@.len(),
    ensures
        idx_sorted(keys@.map_values(|k: Vec<u32>| k@), r@),
        r@.to_multiset() == index_range(lo as int, hi as int).to_multiset(),
        forall|t: int| 0 <= t < r@.len() ==> lo <= (#[trigger] r@[t]) < hi,
    decreases hi - lo,
{
    if hi - lo <= 1 {
        let mut v: Vec<usize> = Vec::new();
        if hi - lo == 1 {
            v.push(lo);
            assert(v@ =~= index_range(lo as int, hi as int));
        } else {
            assert(v@ =~= index_range(lo as int, hi as int));
        }
        return v;
    }
    let mid = lo + (hi - lo) / 2;
    let left = sort_range(keys, lo, mid);
    let right = sort_range(keys, mid, hi);
    let r = merge_sorted(keys, left, right, mid);
    proof {
        assert(index_range(lo as int, mid as int) + index_range(mid as int, hi as int)
            =~= index_range(lo as int, hi as int));
        vstd::seq_lib::lemma_multiset_commutative(
            index_range(lo as int, mid as int),
            index_range(mid as int, hi as int),
        );
        assert forall|t: int| 0 <= t < r@.len() implies lo <= (#[trigger] r@[t]) < hi by {
            let x = r@[t];
            assert(r@.to_multiset().count(x) > 0);
            assert(index_range(lo as int, hi as int).contains(x));
            let w = choose|u: int| 0 <= u < hi - lo && index_range(lo as int, hi as int)[u] == x;
        }
    }
    r
}

/// The indices of `keys` sorted by key, equal keys in index order: every
/// index occurs once.
pub fn sort_indices(keys: &Vec<Vec<u32>>) -> (r: Vec<usize>)
    ensures
        idx_sorted(keys@.map_values(|k: Vec<u32>| k@), r@),
        r@.to_multiset() == index_range(0, keys@.len() as int).to_multiset(),
        r@.len() == keys@.len(),
        forall|t: int| 0 <= t < r@.len() ==> (#[trigger] r@[t]) < keys@.len(),
        forall|x: usize| x < keys@.len() ==> r@.contains(x),
{
    let r = sort_range(keys, 0, keys.len());
    proof {
        assert forall|x: usize| x < keys@.len() implies r@.contains(x) by {
            assert(index_range(0, keys@.len() as int)[x as int] == x);
            assert(index_range(0, keys@.len() as int).contains(x));
            assert(index_range(0, keys@.len() as int).to_multiset().count(x) > 0);
        }
        assert(r@.to_multiset().len() == index_range(0, keys@.len() as int).to_multiset().len());
    }
    r
}

/// `k` is one of `keys`.
pub open spec fn has_key(keys: Seq<Seq<u32>>, k: Seq<u32>) -> bool {
    exists|i: int| 0 <= i < keys.len() && keys[i] == k
}

/// The position of the first occurrence of `k` in `keys`.
pub open spec fn first_with_key(keys: Seq<Seq<u32>>, k: Seq<u32>) -> int
    decreases keys.len(),
{
    if keys.len() == 0 {
        0
    } else if keys[0] == k {
        0
    } else {
        1 + first_with_key(keys.drop_first(), k)
    }
}

/// The position of the last occurrence of `k` in `keys`.
pub open spec fn last_with_key(keys: Seq<Seq<u32>>, k: Seq<u32>) -> int
    decreases keys.len(),
{
    if keys.len() == 0 {
        0
    } else if keys.last() == k {
        keys.len() - 1
    } else {
        last_with_key(keys.drop_last(), k)
    }
}

pub proof fn lemma_first_with_key(keys: Seq<Seq<u32>>, k: Seq<u32>)
    requires
        has_key(keys, k),
    ensures
        0 <= first_with_key(keys, k) < keys.len(),
        keys[first_with_key(keys, k)] == k,
        forall|i: int| 0 <= i < first_with_key(keys, k) ==> keys[i] != k,
    decreases keys.len(),
{
    if keys[0] != k {
        let w = choose|i: int| 0 <= i < keys.len() && keys[i] == k;
        assert(keys.drop_first()[w - 1] == k);
        lemma_first_with_key(keys.drop_first(), k);
        assert forall|i: int| 0 <= i < first_with_key(keys, k) implies keys[i] != k by {
            if i > 0 {
                assert(keys[i] == keys.drop_first()[i - 1]);
            }
        }
    }
}

pub proof fn lemma_last_with_key(keys: Seq<Seq<u32>>, k: Seq<u32>)
    requires
        has_key(keys, k),
    ensures
        0 <= last_with_key(keys, k) < keys.len(),
        keys[last_with_key(keys, k)] == k,
        forall|i: int| last_with_key(keys, k) < i < keys.len() ==> keys[i] != k,
    decreases keys.len(),
{
    if keys.last() != k {
        let w = choose|i: int| 0 <= i < keys.len() && keys[i] == k;
        assert(w < keys.len() - 1);
        assert(keys.drop_last()[w] == k);
        lemma_last_with_key(keys.drop_last(), k);
        assert forall|i: int| last_with_key(keys, k) < i < keys.len() implies keys[i] != k by {
            if i < keys.len() - 1 {
                assert(keys[i] == keys.drop_last()[i]);
            }
        }
    }
}

/// The distinct keys of a list of keyed items, in key order: the item
/// positions where each key first and last occurs.
pub struct KeyGroups {
    /// One position per distinct key: its first occurrence.
    pub first: Vec<usize>,
    /// One position per distinct key: its last occurrence.
    pub last: Vec<usize>,
}

/// `g` lists the distinct keys of `keys` in increasing key order, each by
/// its first and last occurrence.
pub open spec fn groups_of(keys: Seq<Seq<u32>>, first: Seq<usize>, last: Seq<usize>) -> bool {
    &&& first.len() == last.len()
    &&& forall|i: int|
        0 <= i < first.len() ==> {
            &&& (#[trigger] first[i]) < keys.len()
            &&& has_key(keys, keys[first[i] as int])
            &&& first[i] == first_with_key(keys, keys[first[i] as int])
            &&& last[i] == last_with_key(keys, keys[first[i] as int])
        }
    &&& forall|i: int, j: int|
        0 <= i < j < first.len() ==> lex_lt(keys[#[trigger] first[i] as int], keys[#[trigger] first[j] as int])
    &&& forall|k: Seq<u32>|
        has_key(keys, k) ==> exists|i: int| 0 <= i < first.len() && #[trigger] keys[first[i] as int] == k
}

proof fn lemma_sorted_le(ks: Seq<Seq<u32>>, ord: Seq<usize>, p: int, q: int)
    requires
        idx_sorted(ks, ord),
        0 <= p <= q < ord.len(),
    ensures
        lex_le(ks[ord[p] as int], ks[ord[q] as int]),
{
    if p < q {
        assert(idx_lt(ks, ord[p], ord[q]));
    }
}

proof fn lemma_lex_le_antisym(a: Seq<u32>, b: Seq<u32>)
    requires
        lex_le(a, b),
        lex_le(b, a),
    ensures
        a == b,
{
    if lex_lt(a, b) {
        lemma_lex_asymmetric(a, b);
    }
}

/// The group of the sorted positions `g0..=p` (all with one key, the
/// positions around them with other keys) starts at the key's first
/// occurrence and ends at its last.
proof fn lemma_group_bounds(ks: Seq<Seq<u32>>, ord: Seq<usize>, g0: int, p: int)
    requires
        idx_sorted(ks, ord),
        ks.len() <= usize::MAX,
        forall|t: int| 0 <= t < ord.len() ==> (#[trigger] ord[t]) < ks.len(),
        forall|x: usize| x < ks.len() ==> ord.contains(x),
        0 <= g0 <= p < ord.len(),
        forall|t: int| g0 <= t <= p ==> ks[#[trigger] ord[t] as int] == ks[ord[g0] as int],
        g0 > 0 ==> ks[ord[g0 - 1] as int] != ks[ord[g0] as int],
        p + 1 < ord.len() ==> ks[ord[p + 1] as int] != ks[ord[g0] as int],
    ensures
        has_key(ks, ks[ord[g0] as int]),
        ord[g0] as int == first_with_key(ks, ks[ord[g0] as int]),
        ord[p] as int == last_with_key(ks, ks[ord[g0] as int]),
{
    let k = ks[ord[g0] as int];
    assert(has_key(ks, k)) by {
        assert(ks[ord[g0] as int] == k);
    }
    lemma_first_with_key(ks, k);
    lemma_last_with_key(ks, k);
    let f = first_with_key(ks, k);
    let l = last_with_key(ks, k);
    // the position of an index with key k lies in the group
    assert forall|q: int| 0 <= q < ord.len() && ks[ord[q] as int] == k implies g0 <= q <= p by {
        if q < g0 {
            lemma_sorted_le(ks, ord, q, g0 - 1);
            lemma_sorted_le(ks, ord, g0 - 1, g0);
            lemma_lex_le_antisym(ks[ord[g0 - 1] as int], k);
        }
        if q > p {
            lemma_sorted_le(ks, ord, p, p + 1);
            lemma_sorted_le(ks, ord, p + 1, q);
            lemma_lex_le_antisym(ks[ord[p + 1] as int], k);
        }
    }
    assert(ord.contains(f as usize));
    let pf = choose|q: int| 0 <= q < ord.len() && ord[q] == f as usize;
    assert(ks[ord[pf] as int] == k);
    assert(g0 <= pf <= p);
    if pf > g0 {
        assert(idx_lt(ks, ord[g0], ord[pf]));
        lemma_lex_irreflexive(k);
        assert(ord[g0] < ord[pf]);
    }
    assert(ord.contains(l as usize));
    let pl = choose|q: int| 0 <= q < ord.len() && ord[q] == l as usize;
    assert(ks[ord[pl] as int] == k);
    assert(g0 <= pl <= p);
    if pl < p {
        assert(idx_lt(ks, ord[pl], ord[p]));
        lemma_lex_irreflexive(k);
        assert(ord[pl] < ord[p]);
        assert(ks[ord[p] as int] == k);
    }
}

/// The distinct keys of `keys`, in increasing order, with the positions of
/// their first and last occurrences.
pub fn key_groups(keys: &Vec<Vec<u32>>) -> (r: KeyGroups)
    ensures
        groups_of(keys@.map_values(|k: Vec<u32>| k@), r.first@, r.last@),
{
    let ghost ks = keys@.map_values(|k: Vec<u32>| k@);
    let ord = sort_indices(keys);
    let n = ord.len();
    let mut first: Vec<usize> = Vec::new();
    let mut last: Vec<usize> = Vec::new();
    if n == 0 {
        proof {
            assert forall|k: Seq<u32>| has_key(ks, k) implies exists|i: int|
                0 <= i < first@.len() && #[trigger] ks[first@[i] as int] == k by {
                let w = choose|i: int| 0 <= i < ks.len() && ks[i] == k;
            }
        }
        return KeyGroups { first, last };
    }
    let mut g0: usize = 0;
    let mut p: usize = 0;
    while p < n
        invariant
            n == ord@.len(),
            n == keys@.len(),
            ks.len() == n,
            ks == keys@.map_values(|k: Vec<u32>| k@),
            idx_sorted(ks, ord@),
            forall|t: int| 0 <= t < ord@.len() ==> (#[trigger] ord@[t]) < ks.len(),
            forall|x: usize| x < ks.len() ==> ord@.contains(x),
            g0 <= p <= n,
            p < n ==> g0 <= p,
            p < n ==> (forall|t: int| g0 <= t <= p ==> ks[#[trigger] ord@[t] as int] == ks[ord@[g0 as int] as int]),
            g0 < n && g0 > 0 ==> ks[ord@[g0 - 1] as int] != ks[ord@[g0 as int] as int],
            p == n ==> g0 == n,
            first@.len() == last@.len(),
            forall|i: int|
                0 <= i < first@.len() ==> {
                    &&& (#[trigger] first@[i]) < ks.len()
                    &&& has_key(ks, ks[first@[i] as int])
                    &&& first@[i] == first_with_key(ks, ks[first@[i] as int])
                    &&& last@[i] == last_with_key(ks, ks[first@[i] as int])
                },
            forall|i: int, j: int|
                0 <= i < j < first@.len() ==> lex_lt(
                    ks[#[trigger] first@[i] as int],
                    ks[#[trigger] first@[j] as int],
                ),
            first@.len() > 0 && g0 < n ==> lex_lt(ks[first@.last() as int], ks[ord@[g0 as int] as int]),
            forall|t: int|
                #![trigger ord@[t]]
                0 <= t < g0 ==> exists|i: int|
                    0 <= i < first@.len() && #[trigger] ks[first@[i] as int] == ks[ord@[t] as int],
        decreases n - p,
    {
        let is_end = if p + 1 == n {
            true
        } else {
            !key_eq(&keys[ord[p + 1]], &keys[ord[p]])
        };
        if is_end {
            proof {
                assert(forall|t: int| g0 <= t <= p ==> ks[#[trigger] ord@[t] as int] == ks[ord@[g0 as int] as int]);
                lemma_group_bounds(ks, ord@, g0 as int, p as int);
            }
            let ghost prev_first = first@;
            first.push(ord[g0]);
            last.push(ord[p]);
            proof {
                assert forall|i: int, j: int| 0 <= i < j < first@.len() implies lex_lt(
                    ks[#[trigger] first@[i] as int],
                    ks[#[trigger] first@[j] as int],
                ) by {
                    if j == first@.len() - 1 && i < prev_first.len() - 1 {
                        lemma_lex_transitive(ks[first@[i] as int], ks[prev_first.last() as int], ks[first@[j] as int]);
                    }
                }
                if p + 1 < n {
                    lemma_sorted_le(ks, ord@, p as int, p + 1);
                    assert(ks[ord@[p + 1] as int] != ks[ord@[p as int] as int]);
                }
                assert forall|t: int| #![trigger ord@[t]] 0 <= t < p + 1 implies exists|i: int|
                    0 <= i < first@.len() && #[trigger] ks[first@[i] as int] == ks[ord@[t] as int] by {
                    if t >= g0 {
                        assert(ks[first@[first@.len() - 1] as int] == ks[ord@[t] as int]);
                    } else {
                        let i = choose|i: int| 0 <= i < prev_first.len() && #[trigger] ks[prev_first[i] as int] == ks[ord@[t] as int];
                        assert(first@[i] == prev_first[i]);
                    }
                }
            }
            g0 = p + 1;
        } else {
            proof {
                assert(ks[ord@[p + 1] as int] == ks[ord@[p as int] as int]);
                assert(ks[ord@[p as int] as int] == ks[ord@[g0 as int] as int]);
            }
        }
        p = p + 1;
    }
    proof {
        assert forall|k: Seq<u32>| has_key(ks, k) implies exists|i: int|
            0 <= i < first@.len() && #[trigger] ks[first@[i] as int] == k by {
            let w = choose|i: int| 0 <= i < ks.len() && ks[i] == k;
            assert(ord@.contains(w as usize));
            let q = choose|q: int| 0 <= q < ord@.len() && ord@[q] == w as usize;
            assert(ks[ord@[q] as int] == k);
        }
    }
    KeyGroups { first, last }
}

/// The positions of a group of equal keys in a sorted index list hold all
/// the indices with that key, in increasing order.
pub proof fn lemma_group_members(ks: Seq<Seq<u32>>, ord: Seq<usize>, g0: int, p: int)
    requires
        idx_sorted(ks, ord),
        0 <= g0 <= p < ord.len(),
        forall|t: int| 0 <= t < ord.len() ==> (#[trigger] ord[t]) < ks.len(),
        forall|t: int| g0 <= t <= p ==> ks[#[trigger] ord[t] as int] == ks[ord[g0] as int],
        g0 > 0 ==> ks[ord[g0 - 1] as int] != ks[ord[g0] as int],
        p + 1 < ord.len() ==> ks[ord[p + 1] as int] != ks[ord[g0] as int],
    ensures
        forall|q: int|
            0 <= q < ord.len() && ks[#[trigger] ord[q] as int] == ks[ord[g0] as int] ==> g0 <= q <= p,
        forall|a: int, b: int| g0 <= a < b <= p ==> (#[trigger] ord[a]) < (#[trigger] ord[b]),
{
    let k = ks[ord[g0] as int];
    assert forall|q: int| 0 <= q < ord.len() && ks[#[trigger] ord[q] as int] == k implies g0 <= q <= p by {
        if q < g0 {
            lemma_sorted_le(ks, ord, q, g0 - 1);
            lemma_sorted_le(ks, ord, g0 - 1, g0);
            lemma_lex_le_antisym(ks[ord[g0 - 1] as int], k);
        }
        if q > p {
            lemma_sorted_le(ks, ord, p, p + 1);
            lemma_sorted_le(ks, ord, p + 1, q);
            lemma_lex_le_antisym(ks[ord[p + 1] as int], k);
        }
    }
    assert forall|a: int, b: int| g0 <= a < b <= p implies (#[trigger] ord[a]) < (#[trigger] ord[b]) by {
        assert(idx_lt(ks, ord[a], ord[b]));
        lemma_lex_irreflexive(k);
    }
}

/// Positions of a sorted index list in increasing order have keys in
/// increasing (or equal) order.
pub proof fn lemma_sorted_keys_le(ks: Seq<Seq<u32>>, ord: Seq<usize>, p: int, q: int)
    requires
        idx_sorted(ks, ord),
        0 <= p <= q < ord.len(),
    ensures
        lex_le(ks[ord[p] as int], ks[ord[q] as int]),
{
    lemma_sorted_le(ks, ord, p, q);
}

pub proof fn lemma_text_key_injective(a: Seq<char>, b: Seq<char>)
    requires
        text_key(a) == text_key(b),
    ensures
        a == b,
{
    assert(text_key(a).len() == a.len());
    assert(text_key(b).len() == b.len());
    assert(a.len() == b.len());
    assert forall|i: int| 0 <= i < a.len() implies a[i] == b[i] by {
        assert(text_key(a)[i] == text_key(b)[i]);
        assert(text_key(a)[i] == a[i] as u32);
        assert(text_key(b)[i] == b[i] as u32);
        let u = a[i] as u32;
        vstd::utf8::char_u32_cast(a[i], u);
        vstd::utf8::char_u32_cast(b[i], u);
    }
    assert(a =~= b);
}

} // verus!
