//! Comparison of two hash databases: which files are unchanged, changed,
//! removed or added, and which files share a hash within one database.
//!
//! A database is the list of its entries in the order they were read; as a
//! map from paths it keeps, for each path (paths being equal when their
//! components are), the spelling of its first entry and the hash of its
//! last one.
use vstd::prelude::*;
use crate::hash::database::DatabaseEntry;
use crate::hash::order::{
    first_with_key,
    groups_of,
    has_key,
    idx_lt,
    idx_sorted,
    index_range,
    key_eq,
    key_groups,
    last_with_key,
    lemma_first_with_key,
    lemma_last_with_key,
    lemma_lex_asymmetric,
    lemma_lex_irreflexive,
    lemma_lex_total,
    lemma_lex_transitive,
    lemma_group_members,
    lemma_sorted_keys_le,
    lemma_sorted_same_members,
    lemma_text_key_injective,
    lex_le,
    lex_less,
    lex_lt,
    path_key,
    path_key_of,
    sort_indices,
    strictly_sorted,
    text_key,
    text_key_of,
};
use crate::text::{dec_str, decimal, push_str, str_eq};

verus! {

/// Result of comparing a single file between two databases
#[derive(Debug, Clone)]
pub struct ChangedFile {
    pub path: String,
    pub hash_db1: String,
    pub hash_db2: String,
}

/// Group of files with the same hash (duplicates)
#[derive(Debug, Clone)]
pub struct DuplicateGroup {
    pub hash: String,
    pub paths: Vec<String>,
    pub count: usize,
}

/// Comprehensive comparison report between two databases
#[derive(Debug, Clone)]
pub struct CompareReport {
    pub db1_total_files: usize,
    pub db2_total_files: usize,
    pub unchanged_files: usize,
    pub changed_files: Vec<ChangedFile>,
    pub removed_files: Vec<String>,
    pub added_files: Vec<String>,
    pub duplicates_db1: Vec<DuplicateGroup>,
    pub duplicates_db2: Vec<DuplicateGroup>,
}

/// Engine for comparing two hash databases
pub struct CompareEngine;

/// The keys of the paths of a database's entries, in order.
pub open spec fn path_keys(db: Seq<(String, DatabaseEntry)>) -> Seq<Seq<u32>> {
    db.map_values(|e: (String, DatabaseEntry)| path_key(e.0@))
}

/// The database has an entry for the path with key `k`.
pub open spec fn in_db(db: Seq<(String, DatabaseEntry)>, k: Seq<u32>) -> bool {
    has_key(path_keys(db), k)
}

/// The spelling that the database keeps for the path with key `k`: that of
/// its first entry.
pub open spec fn stored_path(db: Seq<(String, DatabaseEntry)>, k: Seq<u32>) -> Seq<char> {
    db[first_with_key(path_keys(db), k)].0@
}

/// The hash that the database keeps for the path with key `k`: that of its
/// last entry.
pub open spec fn stored_hash(db: Seq<(String, DatabaseEntry)>, k: Seq<u32>) -> Seq<char> {
    db[last_with_key(path_keys(db), k)].1.hash@
}

/// The keys of the paths the database holds.
pub open spec fn db_keys(db: Seq<(String, DatabaseEntry)>) -> Set<Seq<u32>> {
    Set::new(|k: Seq<u32>| in_db(db, k))
}

/// The distinct paths of a database in key order, with what it keeps for
/// each.
struct Table {
    keys: Vec<Vec<u32>>,
    paths: Vec<String>,
    hashes: Vec<String>,
}

/// `keys`, `paths` and `hashes` list the paths of `db` in increasing key
/// order, each once, with the spelling and hash the database keeps.
spec fn table_of(
    db: Seq<(String, DatabaseEntry)>,
    keys: Seq<Seq<u32>>,
    paths: Seq<String>,
    hashes: Seq<String>,
) -> bool {
    &&& keys.len() == paths.len()
    &&& keys.len() == hashes.len()
    &&& forall|i: int|
        0 <= i < keys.len() ==> {
            &&& in_db(db, #[trigger] keys[i])
            &&& paths[i]@ == stored_path(db, keys[i])
            &&& hashes[i]@ == stored_hash(db, keys[i])
            &&& path_key(paths[i]@) == keys[i]
        }
    &&& forall|i: int, j: int| 0 <= i < j < keys.len() ==> lex_lt(#[trigger] keys[i], #[trigger] keys[j])
    &&& forall|k: Seq<u32>| in_db(db, k) ==> exists|i: int| 0 <= i < keys.len() && #[trigger] keys[i] == k
}

/// The view of a list of keys.
spec fn key_views(v: Seq<Vec<u32>>) -> Seq<Seq<u32>> {
    v.map_values(|k: Vec<u32>| k@)
}

/// A copy of a key.
fn copy_key(k: &Vec<u32>) -> (r: Vec<u32>)
    ensures
        r@ == k@,
{
    let mut v: Vec<u32> = Vec::new();
    let mut i: usize = 0;
    while i < k.len()
        invariant
            i <= k@.len(),
            v@ == k@.take(i as int),
        decreases k@.len() - i,
    {
        v.push(k[i]);
        assert(v@ =~= k@.take(i + 1));
        i = i + 1;
    }
    assert(v@ =~= k@);
    v
}

proof fn lemma_sorted_no_duplicates(s: Seq<Seq<u32>>)
    requires
        forall|i: int, j: int| 0 <= i < j < s.len() ==> lex_lt(#[trigger] s[i], #[trigger] s[j]),
    ensures
        s.no_duplicates(),
{
    assert forall|i: int, j: int| 0 <= i < s.len() && 0 <= j < s.len() && i != j implies s[i]
        != s[j] by {
        if i < j {
            lemma_lex_asymmetric(s[i], s[j]);
        } else {
            lemma_lex_asymmetric(s[j], s[i]);
        }
    }
}

/// The distinct paths of `db` in key order.
fn build_table(db: &[(String, DatabaseEntry)]) -> (t: Table)
    ensures
        table_of(db@, key_views(t.keys@), t.paths@, t.hashes@),
{
    let ghost pk = path_keys(db@);
    let mut all: Vec<Vec<u32>> = Vec::new();
    let mut i: usize = 0;
    while i < db.len()
        invariant
            i <= db@.len(),
            pk == path_keys(db@),
            key_views(all@) == pk.take(i as int),
        decreases db@.len() - i,
    {
        let k = path_key_of(db[i].0.as_str());
        assert(pk[i as int] == path_key(db@[i as int].0@));
        let ghost before = key_views(all@);
        all.push(k);
        assert(key_views(all@) =~= before.push(pk[i as int]));
        assert(key_views(all@) =~= pk.take(i + 1));
        i = i + 1;
    }
    assert(pk.take(db@.len() as int) =~= pk);
    let g = key_groups(&all);
    let mut keys: Vec<Vec<u32>> = Vec::new();
    let mut paths: Vec<String> = Vec::new();
    let mut hashes: Vec<String> = Vec::new();
    let mut j: usize = 0;
    while j < g.first.len()
        invariant
            key_views(all@) == pk,
            pk == path_keys(db@),
            groups_of(pk, g.first@, g.last@),
            j <= g.first@.len(),
            keys@.len() == j,
            paths@.len() == j,
            hashes@.len() == j,
            forall|a: int| 0 <= a < j ==> (#[trigger] keys@[a])@ == pk[g.first@[a] as int],
            forall|a: int| 0 <= a < j ==> (#[trigger] paths@[a])@ == db@[g.first@[a] as int].0@,
            forall|a: int| 0 <= a < j ==> (#[trigger] hashes@[a])@ == db@[g.last@[a] as int].1.hash@,
        decreases g.first@.len() - j,
    {
        let f = g.first[j];
        let l = g.last[j];
        proof {
            lemma_last_with_key(pk, pk[f as int]);
        }
        keys.push(copy_key(&all[f]));
        paths.push(db[f].0.clone());
        hashes.push(db[l].1.hash.clone());
        j = j + 1;
    }
    proof {
        let kv = key_views(keys@);
        assert forall|a: int| 0 <= a < kv.len() implies {
            &&& in_db(db@, #[trigger] kv[a])
            &&& paths@[a]@ == stored_path(db@, kv[a])
            &&& hashes@[a]@ == stored_hash(db@, kv[a])
            &&& path_key(paths@[a]@) == kv[a]
        } by {
            assert(kv[a] == keys@[a]@);
            assert(g.first@[a] < pk.len());
            assert(pk[g.first@[a] as int] == path_key(db@[g.first@[a] as int].0@));
        }
        assert forall|a: int, b: int| 0 <= a < b < kv.len() implies lex_lt(
            #[trigger] kv[a],
            #[trigger] kv[b],
        ) by {
            assert(kv[a] == keys@[a]@);
            assert(kv[b] == keys@[b]@);
            assert(lex_lt(pk[g.first@[a] as int], pk[g.first@[b] as int]));
        }
        assert forall|k: Seq<u32>| in_db(db@, k) implies exists|a: int|
            0 <= a < kv.len() && #[trigger] kv[a] == k by {
            let a = choose|a: int| 0 <= a < g.first@.len() && #[trigger] pk[g.first@[a] as int] == k;
            assert(kv[a] == keys@[a]@);
        }
    }
    Table { keys, paths, hashes }
}

/// The keys of the paths that both databases hold with the same hash.
pub open spec fn unchanged_keys(
    db1: Seq<(String, DatabaseEntry)>,
    db2: Seq<(String, DatabaseEntry)>,
) -> Set<Seq<u32>> {
    Set::new(
        |k: Seq<u32>| in_db(db1, k) && in_db(db2, k) && stored_hash(db1, k) == stored_hash(db2, k),
    )
}

/// `paths` are, in increasing key order and each once, the paths that `a`
/// holds and `b` does not, spelled as `a` keeps them.
pub open spec fn only_in(
    a: Seq<(String, DatabaseEntry)>,
    b: Seq<(String, DatabaseEntry)>,
    paths: Seq<String>,
) -> bool {
    &&& forall|t: int|
        0 <= t < paths.len() ==> {
            let k = path_key((#[trigger] paths[t])@);
            &&& in_db(a, k)
            &&& !in_db(b, k)
            &&& paths[t]@ == stored_path(a, k)
        }
    &&& forall|s: int, t: int|
        0 <= s < t < paths.len() ==> lex_lt(path_key((#[trigger] paths[s])@), path_key((#[trigger] paths[t])@))
    &&& forall|k: Seq<u32>|
        in_db(a, k) && !in_db(b, k) ==> exists|t: int| 0 <= t < paths.len() && path_key((#[trigger] paths[t])@) == k
}

/// `changed` lists, in increasing key order and each once, the paths that
/// both databases hold with different hashes: spelled as the first keeps
/// them, with the hash of each.
pub open spec fn changed_between(
    db1: Seq<(String, DatabaseEntry)>,
    db2: Seq<(String, DatabaseEntry)>,
    changed: Seq<ChangedFile>,
) -> bool {
    &&& forall|t: int|
        0 <= t < changed.len() ==> {
            let c = #[trigger] changed[t];
            let k = path_key(c.path@);
            &&& in_db(db1, k)
            &&& in_db(db2, k)
            &&& c.path@ == stored_path(db1, k)
            &&& c.hash_db1@ == stored_hash(db1, k)
            &&& c.hash_db2@ == stored_hash(db2, k)
            &&& c.hash_db1@ != c.hash_db2@
        }
    &&& forall|s: int, t: int|
        0 <= s < t < changed.len() ==> lex_lt(
            path_key((#[trigger] changed[s]).path@),
            path_key((#[trigger] changed[t]).path@),
        )
    &&& forall|k: Seq<u32>|
        in_db(db1, k) && in_db(db2, k) && stored_hash(db1, k) != stored_hash(db2, k) ==> exists|
            t: int,
        | 0 <= t < changed.len() && path_key((#[trigger] changed[t]).path@) == k
}

proof fn lemma_table_len(
    db: Seq<(String, DatabaseEntry)>,
    keys: Seq<Seq<u32>>,
    paths: Seq<String>,
    hashes: Seq<String>,
)
    requires
        table_of(db, keys, paths, hashes),
    ensures
        db_keys(db).finite(),
        db_keys(db).len() == keys.len(),
{
    lemma_sorted_no_duplicates(keys);
    keys.unique_seq_to_set();
    assert(keys.to_set() =~= db_keys(db)) by {
        assert forall|k: Seq<u32>| db_keys(db).contains(k) implies keys.to_set().contains(k) by {
            let i = choose|i: int| 0 <= i < keys.len() && #[trigger] keys[i] == k;
        }
    }
}

/// Keys `ka` are sorted strictly.
spec fn keys_sorted(ka: Seq<Seq<u32>>) -> bool {
    forall|x: int, y: int| 0 <= x < y < ka.len() ==> lex_lt(#[trigger] ka[x], #[trigger] ka[y])
}

/// The two walks stand at `i` and `j`: what each has passed is below where
/// the other stands.
#[verifier::opaque]
spec fn frontier(k1: Seq<Seq<u32>>, k2: Seq<Seq<u32>>, i: int, j: int) -> bool {
    &&& i < k1.len() ==> forall|b: int| 0 <= b < j ==> lex_lt(#[trigger] k2[b], k1[i])
    &&& j < k2.len() ==> forall|a: int| 0 <= a < i ==> lex_lt(#[trigger] k1[a], k2[j])
}

/// `list` holds, in key order, the paths among the first `i` keys of `a`
/// that `b` lacks.
#[verifier::opaque]
spec fn only_upto(
    a: Seq<(String, DatabaseEntry)>,
    b: Seq<(String, DatabaseEntry)>,
    ka: Seq<Seq<u32>>,
    i: int,
    list: Seq<String>,
) -> bool {
    &&& forall|t: int|
        0 <= t < list.len() ==> {
            let k = path_key((#[trigger] list[t])@);
            &&& in_db(a, k)
            &&& !in_db(b, k)
            &&& list[t]@ == stored_path(a, k)
            &&& exists|x: int| 0 <= x < i && ka[x] == k
        }
    &&& forall|s: int, t: int|
        0 <= s < t < list.len() ==> lex_lt(path_key((#[trigger] list[s])@), path_key((#[trigger] list[t])@))
    &&& forall|x: int|
        0 <= x < i && !in_db(b, #[trigger] ka[x]) ==> exists|t: int|
            0 <= t < list.len() && path_key(list[t]@) == ka[x]
}

/// `list` holds, in key order, the changed paths among the first `i` keys
/// of the first database.
#[verifier::opaque]
spec fn changed_upto(
    db1: Seq<(String, DatabaseEntry)>,
    db2: Seq<(String, DatabaseEntry)>,
    k1: Seq<Seq<u32>>,
    i: int,
    list: Seq<ChangedFile>,
) -> bool {
    &&& forall|t: int|
        0 <= t < list.len() ==> {
            let c = #[trigger] list[t];
            let k = path_key(c.path@);
            &&& in_db(db1, k)
            &&& in_db(db2, k)
            &&& c.path@ == stored_path(db1, k)
            &&& c.hash_db1@ == stored_hash(db1, k)
            &&& c.hash_db2@ == stored_hash(db2, k)
            &&& c.hash_db1@ != c.hash_db2@
            &&& exists|x: int| 0 <= x < i && k1[x] == k
        }
    &&& forall|s: int, t: int|
        0 <= s < t < list.len() ==> lex_lt(
            path_key((#[trigger] list[s]).path@),
            path_key((#[trigger] list[t]).path@),
        )
    &&& forall|x: int|
        0 <= x < i && in_db(db2, #[trigger] k1[x]) && stored_hash(db1, k1[x]) != stored_hash(
            db2,
            k1[x],
        ) ==> exists|t: int| 0 <= t < list.len() && path_key(list[t].path@) == k1[x]
}

/// `same` holds, in order, the unchanged keys among the first `i` keys of
/// the first database.
#[verifier::opaque]
spec fn same_upto(
    db1: Seq<(String, DatabaseEntry)>,
    db2: Seq<(String, DatabaseEntry)>,
    k1: Seq<Seq<u32>>,
    i: int,
    same: Seq<Seq<u32>>,
) -> bool {
    &&& forall|t: int| 0 <= t < same.len() ==> exists|x: int| 0 <= x < i && k1[x] == #[trigger] same[t]
    &&& forall|t: int| 0 <= t < same.len() ==> (#[trigger] unchanged_keys(db1, db2).contains(same[t]))
    &&& forall|s: int, t: int| 0 <= s < t < same.len() ==> lex_lt(#[trigger] same[s], #[trigger] same[t])
    &&& forall|x: int|
        0 <= x < i && unchanged_keys(db1, db2).contains(#[trigger] k1[x]) ==> same.contains(k1[x])
}

proof fn lemma_frontier_start(k1: Seq<Seq<u32>>, k2: Seq<Seq<u32>>)
    ensures
        frontier(k1, k2, 0, 0),
{
    reveal(frontier);
}

proof fn lemma_frontier_both(k1: Seq<Seq<u32>>, k2: Seq<Seq<u32>>, i: int, j: int)
    requires
        frontier(k1, k2, i, j),
        keys_sorted(k1),
        keys_sorted(k2),
        0 <= i < k1.len(),
        0 <= j < k2.len(),
        k1[i] == k2[j],
    ensures
        frontier(k1, k2, i + 1, j + 1),
{
    reveal(frontier);
    assert forall|b: int| 0 <= b < j + 1 && i + 1 < k1.len() implies lex_lt(#[trigger] k2[b], k1[i + 1]) by {
        assert(lex_lt(k1[i], k1[i + 1]));
        if b < j {
            lemma_lex_transitive(k2[b], k1[i], k1[i + 1]);
        }
    }
    assert forall|a: int| 0 <= a < i + 1 && j + 1 < k2.len() implies lex_lt(#[trigger] k1[a], k2[j + 1]) by {
        assert(lex_lt(k2[j], k2[j + 1]));
        if a < i {
            lemma_lex_transitive(k1[a], k2[j], k2[j + 1]);
        }
    }
}

proof fn lemma_frontier_left(k1: Seq<Seq<u32>>, k2: Seq<Seq<u32>>, i: int, j: int)
    requires
        frontier(k1, k2, i, j),
        keys_sorted(k1),
        0 <= i < k1.len(),
        0 <= j <= k2.len(),
        j < k2.len() ==> lex_lt(k1[i], k2[j]),
    ensures
        frontier(k1, k2, i + 1, j),
{
    reveal(frontier);
    assert forall|b: int| 0 <= b < j && i + 1 < k1.len() implies lex_lt(#[trigger] k2[b], k1[i + 1]) by {
        assert(lex_lt(k1[i], k1[i + 1]));
        lemma_lex_transitive(k2[b], k1[i], k1[i + 1]);
    }
}

proof fn lemma_frontier_flip(k1: Seq<Seq<u32>>, k2: Seq<Seq<u32>>, i: int, j: int)
    ensures
        frontier(k1, k2, i, j) == frontier(k2, k1, j, i),
{
    reveal(frontier);
}

/// Where the walks stand, a key of the one not yet passed is in the other
/// database only if it is where the other stands or beyond.
proof fn lemma_not_in_other(
    db2: Seq<(String, DatabaseEntry)>,
    k1: Seq<Seq<u32>>,
    k2: Seq<Seq<u32>>,
    p2: Seq<String>,
    h2: Seq<String>,
    i: int,
    j: int,
)
    requires
        frontier(k1, k2, i, j),
        table_of(db2, k2, p2, h2),
        0 <= i < k1.len(),
        0 <= j <= k2.len(),
        j < k2.len() ==> lex_lt(k1[i], k2[j]),
    ensures
        !in_db(db2, k1[i]),
{
    reveal(frontier);
    let k = k1[i];
    if in_db(db2, k) {
        let b = choose|b: int| 0 <= b < k2.len() && #[trigger] k2[b] == k;
        if b < j {
            lemma_lex_irreflexive(k);
        } else {
            if b > j {
                assert(lex_lt(k2[j], k2[b]));
                lemma_lex_transitive(k, k2[j], k2[b]);
            }
            lemma_lex_irreflexive(k);
        }
    }
}

proof fn lemma_only_start(
    a: Seq<(String, DatabaseEntry)>,
    b: Seq<(String, DatabaseEntry)>,
    ka: Seq<Seq<u32>>,
)
    ensures
        only_upto(a, b, ka, 0, Seq::empty()),
{
    reveal(only_upto);
}

proof fn lemma_only_skip(
    a: Seq<(String, DatabaseEntry)>,
    b: Seq<(String, DatabaseEntry)>,
    ka: Seq<Seq<u32>>,
    i: int,
    list: Seq<String>,
)
    requires
        only_upto(a, b, ka, i, list),
        0 <= i,
        in_db(b, ka[i]),
    ensures
        only_upto(a, b, ka, i + 1, list),
{
    reveal(only_upto);
    assert forall|t: int| 0 <= t < list.len() implies exists|x: int|
        0 <= x < i + 1 && ka[x] == path_key((#[trigger] list[t])@) by {
        let x = choose|x: int| 0 <= x < i && ka[x] == path_key(list[t]@);
    }
}

proof fn lemma_only_push(
    a: Seq<(String, DatabaseEntry)>,
    b: Seq<(String, DatabaseEntry)>,
    ka: Seq<Seq<u32>>,
    i: int,
    list: Seq<String>,
    p: String,
)
    requires
        only_upto(a, b, ka, i, list),
        keys_sorted(ka),
        0 <= i < ka.len(),
        in_db(a, ka[i]),
        !in_db(b, ka[i]),
        p@ == stored_path(a, ka[i]),
        path_key(p@) == ka[i],
    ensures
        only_upto(a, b, ka, i + 1, list.push(p)),
{
    reveal(only_upto);
    let nl = list.push(p);
    assert forall|t: int| 0 <= t < nl.len() implies {
        let k = path_key((#[trigger] nl[t])@);
        &&& in_db(a, k)
        &&& !in_db(b, k)
        &&& nl[t]@ == stored_path(a, k)
        &&& exists|x: int| 0 <= x < i + 1 && ka[x] == k
    } by {
        if t < list.len() {
            assert(nl[t] == list[t]);
            let x = choose|x: int| 0 <= x < i && ka[x] == path_key(list[t]@);
        } else {
            assert(nl[t] == p);
        }
    }
    assert forall|s: int, t: int| 0 <= s < t < nl.len() implies lex_lt(
        path_key((#[trigger] nl[s])@),
        path_key((#[trigger] nl[t])@),
    ) by {
        assert(nl[s] == list[s]);
        if t == list.len() {
            let x = choose|x: int| 0 <= x < i && ka[x] == path_key(list[s]@);
            assert(lex_lt(ka[x], ka[i]));
        } else {
            assert(nl[t] == list[t]);
        }
    }
    assert forall|x: int| 0 <= x < i + 1 && !in_db(b, #[trigger] ka[x]) implies exists|t: int|
        0 <= t < nl.len() && path_key(nl[t]@) == ka[x] by {
        if x < i {
            let t = choose|t: int| 0 <= t < list.len() && path_key(list[t]@) == ka[x];
            assert(nl[t] == list[t]);
        } else {
            assert(nl[list.len() as int] == p);
        }
    }
}

proof fn lemma_only_final(
    a: Seq<(String, DatabaseEntry)>,
    b: Seq<(String, DatabaseEntry)>,
    ka: Seq<Seq<u32>>,
    pa: Seq<String>,
    ha: Seq<String>,
    list: Seq<String>,
)
    requires
        only_upto(a, b, ka, ka.len() as int, list),
        table_of(a, ka, pa, ha),
    ensures
        only_in(a, b, list),
{
    reveal(only_upto);
    assert forall|k: Seq<u32>| in_db(a, k) && !in_db(b, k) implies exists|t: int|
        0 <= t < list.len() && path_key((#[trigger] list[t])@) == k by {
        let x = choose|x: int| 0 <= x < ka.len() && #[trigger] ka[x] == k;
    }
}

proof fn lemma_changed_start(
    db1: Seq<(String, DatabaseEntry)>,
    db2: Seq<(String, DatabaseEntry)>,
    k1: Seq<Seq<u32>>,
)
    ensures
        changed_upto(db1, db2, k1, 0, Seq::empty()),
{
    reveal(changed_upto);
}

proof fn lemma_changed_skip(
    db1: Seq<(String, DatabaseEntry)>,
    db2: Seq<(String, DatabaseEntry)>,
    k1: Seq<Seq<u32>>,
    i: int,
    list: Seq<ChangedFile>,
)
    requires
        changed_upto(db1, db2, k1, i, list),
        0 <= i,
        !in_db(db2, k1[i]) || stored_hash(db1, k1[i]) == stored_hash(db2, k1[i]),
    ensures
        changed_upto(db1, db2, k1, i + 1, list),
{
    reveal(changed_upto);
    assert forall|t: int| 0 <= t < list.len() implies exists|x: int|
        0 <= x < i + 1 && k1[x] == path_key((#[trigger] list[t]).path@) by {
        let x = choose|x: int| 0 <= x < i && k1[x] == path_key(list[t].path@);
    }
}

proof fn lemma_changed_push(
    db1: Seq<(String, DatabaseEntry)>,
    db2: Seq<(String, DatabaseEntry)>,
    k1: Seq<Seq<u32>>,
    i: int,
    list: Seq<ChangedFile>,
    c: ChangedFile,
)
    requires
        changed_upto(db1, db2, k1, i, list),
        keys_sorted(k1),
        0 <= i < k1.len(),
        in_db(db1, k1[i]),
        in_db(db2, k1[i]),
        path_key(c.path@) == k1[i],
        c.path@ == stored_path(db1, k1[i]),
        c.hash_db1@ == stored_hash(db1, k1[i]),
        c.hash_db2@ == stored_hash(db2, k1[i]),
        c.hash_db1@ != c.hash_db2@,
    ensures
        changed_upto(db1, db2, k1, i + 1, list.push(c)),
{
    reveal(changed_upto);
    let nl = list.push(c);
    assert forall|t: int| 0 <= t < nl.len() implies exists|x: int|
        0 <= x < i + 1 && k1[x] == path_key((#[trigger] nl[t]).path@) by {
        if t < list.len() {
            assert(nl[t] == list[t]);
            let x = choose|x: int| 0 <= x < i && k1[x] == path_key(list[t].path@);
        } else {
            assert(nl[t] == c);
        }
    }
    assert forall|t: int| 0 <= t < nl.len() implies ({
        let c = #[trigger] nl[t];
        let k = path_key(c.path@);
        &&& in_db(db1, k)
        &&& in_db(db2, k)
        &&& c.path@ == stored_path(db1, k)
        &&& c.hash_db1@ == stored_hash(db1, k)
        &&& c.hash_db2@ == stored_hash(db2, k)
        &&& c.hash_db1@ != c.hash_db2@
    }) by {
        if t < list.len() {
            assert(nl[t] == list[t]);
        }
    }
    assert forall|s: int, t: int| 0 <= s < t < nl.len() implies lex_lt(
        path_key((#[trigger] nl[s]).path@),
        path_key((#[trigger] nl[t]).path@),
    ) by {
        assert(nl[s] == list[s]);
        if t == list.len() {
            let x = choose|x: int| 0 <= x < i && k1[x] == path_key(list[s].path@);
            assert(lex_lt(k1[x], k1[i]));
        } else {
            assert(nl[t] == list[t]);
        }
    }
    assert forall|x: int|
        0 <= x < i + 1 && in_db(db2, #[trigger] k1[x]) && stored_hash(db1, k1[x]) != stored_hash(
            db2,
            k1[x],
        ) implies exists|t: int| 0 <= t < nl.len() && path_key(nl[t].path@) == k1[x] by {
        if x < i {
            let t = choose|t: int| 0 <= t < list.len() && path_key(list[t].path@) == k1[x];
            assert(nl[t] == list[t]);
        } else {
            assert(nl[list.len() as int] == c);
        }
    }
}

proof fn lemma_changed_final(
    db1: Seq<(String, DatabaseEntry)>,
    db2: Seq<(String, DatabaseEntry)>,
    k1: Seq<Seq<u32>>,
    p1: Seq<String>,
    h1: Seq<String>,
    list: Seq<ChangedFile>,
)
    requires
        changed_upto(db1, db2, k1, k1.len() as int, list),
        table_of(db1, k1, p1, h1),
    ensures
        changed_between(db1, db2, list),
{
    reveal(changed_upto);
    assert forall|k: Seq<u32>|
        in_db(db1, k) && in_db(db2, k) && stored_hash(db1, k) != stored_hash(db2, k) implies exists|
        t: int,
    | 0 <= t < list.len() && path_key((#[trigger] list[t]).path@) == k by {
        let x = choose|x: int| 0 <= x < k1.len() && #[trigger] k1[x] == k;
    }
}

proof fn lemma_same_start(
    db1: Seq<(String, DatabaseEntry)>,
    db2: Seq<(String, DatabaseEntry)>,
    k1: Seq<Seq<u32>>,
)
    ensures
        same_upto(db1, db2, k1, 0, Seq::empty()),
{
    reveal(same_upto);
}

proof fn lemma_same_skip(
    db1: Seq<(String, DatabaseEntry)>,
    db2: Seq<(String, DatabaseEntry)>,
    k1: Seq<Seq<u32>>,
    i: int,
    same: Seq<Seq<u32>>,
)
    requires
        same_upto(db1, db2, k1, i, same),
        0 <= i,
        !unchanged_keys(db1, db2).contains(k1[i]),
    ensures
        same_upto(db1, db2, k1, i + 1, same),
{
    reveal(same_upto);
    assert forall|t: int| 0 <= t < same.len() implies exists|x: int|
        0 <= x < i + 1 && k1[x] == #[trigger] same[t] by {
        let x = choose|x: int| 0 <= x < i && k1[x] == same[t];
    }
}

proof fn lemma_same_push(
    db1: Seq<(String, DatabaseEntry)>,
    db2: Seq<(String, DatabaseEntry)>,
    k1: Seq<Seq<u32>>,
    i: int,
    same: Seq<Seq<u32>>,
)
    requires
        same_upto(db1, db2, k1, i, same),
        keys_sorted(k1),
        0 <= i < k1.len(),
        unchanged_keys(db1, db2).contains(k1[i]),
    ensures
        same_upto(db1, db2, k1, i + 1, same.push(k1[i])),
{
    reveal(same_upto);
    let ns = same.push(k1[i]);
    assert forall|t: int| 0 <= t < ns.len() implies exists|x: int|
        0 <= x < i + 1 && k1[x] == #[trigger] ns[t] by {
        if t < same.len() {
            assert(ns[t] == same[t]);
            let x = choose|x: int| 0 <= x < i && k1[x] == same[t];
        } else {
            assert(ns[t] == k1[i]);
        }
    }
    assert forall|t: int| 0 <= t < ns.len() implies (#[trigger] unchanged_keys(db1, db2).contains(
        ns[t],
    )) by {
        if t < same.len() {
            assert(ns[t] == same[t]);
        }
    }
    assert forall|s: int, t: int| 0 <= s < t < ns.len() implies lex_lt(#[trigger] ns[s], #[trigger] ns[t]) by {
        assert(ns[s] == same[s]);
        if t == same.len() {
            let x = choose|x: int| 0 <= x < i && k1[x] == same[s];
            assert(lex_lt(k1[x], k1[i]));
        } else {
            assert(ns[t] == same[t]);
        }
    }
    assert forall|x: int| 0 <= x < i + 1 && unchanged_keys(db1, db2).contains(#[trigger] k1[x]) implies ns.contains(k1[x]) by {
        if x < i {
            assert(same.contains(k1[x]));
            let t = choose|t: int| 0 <= t < same.len() && same[t] == k1[x];
            assert(ns[t] == same[t]);
        } else {
            assert(ns[same.len() as int] == k1[x]);
        }
    }
}

proof fn lemma_same_final(
    db1: Seq<(String, DatabaseEntry)>,
    db2: Seq<(String, DatabaseEntry)>,
    k1: Seq<Seq<u32>>,
    p1: Seq<String>,
    h1: Seq<String>,
    same: Seq<Seq<u32>>,
)
    requires
        same_upto(db1, db2, k1, k1.len() as int, same),
        table_of(db1, k1, p1, h1),
    ensures
        unchanged_keys(db1, db2).finite(),
        unchanged_keys(db1, db2).len() == same.len(),
{
    reveal(same_upto);
    lemma_sorted_no_duplicates(same);
    same.unique_seq_to_set();
    assert(same.to_set() =~= unchanged_keys(db1, db2)) by {
        assert forall|k: Seq<u32>| unchanged_keys(db1, db2).contains(k) implies same.to_set().contains(k) by {
            let x = choose|x: int| 0 <= x < k1.len() && #[trigger] k1[x] == k;
        }
        assert forall|k: Seq<u32>| same.to_set().contains(k) implies unchanged_keys(db1, db2).contains(k) by {
            let t = choose|t: int| 0 <= t < same.len() && same[t] == k;
        }
    }
}

proof fn lemma_same_len(
    db1: Seq<(String, DatabaseEntry)>,
    db2: Seq<(String, DatabaseEntry)>,
    k1: Seq<Seq<u32>>,
    i: int,
    same: Seq<Seq<u32>>,
)
    requires
        same_upto(db1, db2, k1, i, same),
        keys_sorted(k1),
        0 <= i <= k1.len(),
    ensures
        same.len() <= i,
{
    reveal(same_upto);
    lemma_sorted_no_duplicates(same);
    same.unique_seq_to_set();
    let first_keys = k1.take(i);
    first_keys.lemma_cardinality_of_set();
    assert(same.to_set().subset_of(first_keys.to_set())) by {
        assert forall|k: Seq<u32>| same.to_set().contains(k) implies first_keys.to_set().contains(k) by {
            let t = choose|t: int| 0 <= t < same.len() && same[t] == k;
            let x = choose|x: int| 0 <= x < i && k1[x] == same[t];
            assert(first_keys[x] == k1[x]);
        }
    }
    vstd::set_lib::lemma_len_subset(same.to_set(), first_keys.to_set());
}

/// Walk two tables in key order together and sort their paths into
/// unchanged, changed, removed (only in the first) and added (only in the
/// second).
fn classify(
    Ghost(db1): Ghost<Seq<(String, DatabaseEntry)>>,
    Ghost(db2): Ghost<Seq<(String, DatabaseEntry)>>,
    t1: &Table,
    t2: &Table,
) -> (r: (usize, Vec<ChangedFile>, Vec<String>, Vec<String>))
    requires
        table_of(db1, key_views(t1.keys@), t1.paths@, t1.hashes@),
        table_of(db2, key_views(t2.keys@), t2.paths@, t2.hashes@),
    ensures
        unchanged_keys(db1, db2).finite(),
        r.0 == unchanged_keys(db1, db2).len(),
        changed_between(db1, db2, r.1@),
        only_in(db1, db2, r.2@),
        only_in(db2, db1, r.3@),
{
    let ghost k1 = key_views(t1.keys@);
    let ghost k2 = key_views(t2.keys@);
    let n1 = t1.keys.len();
    let n2 = t2.keys.len();
    let mut unchanged: usize = 0;
    let mut changed: Vec<ChangedFile> = Vec::new();
    let mut removed: Vec<String> = Vec::new();
    let mut added: Vec<String> = Vec::new();
    let ghost mut same: Seq<Seq<u32>> = Seq::empty();
    let mut i: usize = 0;
    let mut j: usize = 0;
    proof {
        lemma_frontier_start(k1, k2);
        lemma_only_start(db1, db2, k1);
        lemma_only_start(db2, db1, k2);
        lemma_changed_start(db1, db2, k1);
        lemma_same_start(db1, db2, k1);
    }
    while i < n1 || j < n2
        invariant
            k1 == key_views(t1.keys@),
            k2 == key_views(t2.keys@),
            n1 == k1.len(),
            n2 == k2.len(),
            table_of(db1, k1, t1.paths@, t1.hashes@),
            table_of(db2, k2, t2.paths@, t2.hashes@),
            i <= n1,
            j <= n2,
            frontier(k1, k2, i as int, j as int),
            unchanged == same.len(),
            unchanged <= i,
            same_upto(db1, db2, k1, i as int, same),
            only_upto(db1, db2, k1, i as int, removed@),
            only_upto(db2, db1, k2, j as int, added@),
            changed_upto(db1, db2, k1, i as int, changed@),
        decreases n1 + n2 - i - j,
    {
        proof {
            assert(keys_sorted(k1));
            assert(keys_sorted(k2));
        }
        let step: u8 = if i == n1 {
            2
        } else if j == n2 {
            1
        } else if lex_less(&t1.keys[i], &t2.keys[j]) {
            1
        } else if lex_less(&t2.keys[j], &t1.keys[i]) {
            2
        } else {
            0
        };
        if step == 0 {
            proof {
                assert(k1[i as int] == t1.keys@[i as int]@);
                assert(k2[j as int] == t2.keys@[j as int]@);
                lemma_lex_total(k1[i as int], k2[j as int]);
                lemma_frontier_both(k1, k2, i as int, j as int);
                lemma_only_skip(db1, db2, k1, i as int, removed@);
                lemma_only_skip(db2, db1, k2, j as int, added@);
            }
            if str_eq(t1.hashes[i].as_str(), t2.hashes[j].as_str()) {
                proof {
                    assert(unchanged_keys(db1, db2).contains(k1[i as int]));
                    lemma_same_push(db1, db2, k1, i as int, same);
                    lemma_changed_skip(db1, db2, k1, i as int, changed@);
                    same = same.push(k1[i as int]);
                    lemma_same_len(db1, db2, k1, i + 1, same);
                }
                unchanged = unchanged + 1;
            } else {
                let c = ChangedFile {
                    path: t1.paths[i].clone(),
                    hash_db1: t1.hashes[i].clone(),
                    hash_db2: t2.hashes[j].clone(),
                };
                proof {
                    lemma_changed_push(db1, db2, k1, i as int, changed@, c);
                    lemma_same_skip(db1, db2, k1, i as int, same);
                }
                changed.push(c);
            }
            i = i + 1;
            j = j + 1;
        } else if step == 1 {
            proof {
                assert(k1[i as int] == t1.keys@[i as int]@);
                if j < n2 {
                    assert(k2[j as int] == t2.keys@[j as int]@);
                }
                lemma_not_in_other(db2, k1, k2, t2.paths@, t2.hashes@, i as int, j as int);
                lemma_only_push(db1, db2, k1, i as int, removed@, t1.paths@[i as int]);
                lemma_changed_skip(db1, db2, k1, i as int, changed@);
                lemma_same_skip(db1, db2, k1, i as int, same);
                lemma_frontier_left(k1, k2, i as int, j as int);
            }
            removed.push(t1.paths[i].clone());
            i = i + 1;
        } else {
            proof {
                assert(k2[j as int] == t2.keys@[j as int]@);
                if i < n1 {
                    assert(k1[i as int] == t1.keys@[i as int]@);
                    lemma_lex_total(k1[i as int], k2[j as int]);
                }
                lemma_frontier_flip(k1, k2, i as int, j as int);
                lemma_not_in_other(db1, k2, k1, t1.paths@, t1.hashes@, j as int, i as int);
                lemma_only_push(db2, db1, k2, j as int, added@, t2.paths@[j as int]);
                lemma_frontier_left(k2, k1, j as int, i as int);
                lemma_frontier_flip(k1, k2, i as int, j + 1);
            }
            added.push(t2.paths[j].clone());
            j = j + 1;
        }
    }
    proof {
        lemma_only_final(db1, db2, k1, t1.paths@, t1.hashes@, removed@);
        lemma_only_final(db2, db1, k2, t2.paths@, t2.hashes@, added@);
        lemma_changed_final(db1, db2, k1, t1.paths@, t1.hashes@, changed@);
        lemma_same_final(db1, db2, k1, t1.paths@, t1.hashes@, same);
    }
    (unchanged, changed, removed, added)
}

/// `g` groups the paths of `db` whose kept hash is `g.hash`: at least two,
/// each once, in increasing key order, spelled as the database keeps them,
/// with their number.
pub open spec fn duplicate_group_of(db: Seq<(String, DatabaseEntry)>, g: DuplicateGroup) -> bool {
    &&& g.count == g.paths@.len()
    &&& g.paths@.len() >= 2
    &&& forall|t: int|
        0 <= t < g.paths@.len() ==> {
            let k = path_key((#[trigger] g.paths@[t])@);
            &&& in_db(db, k)
            &&& stored_hash(db, k) == g.hash@
            &&& g.paths@[t]@ == stored_path(db, k)
        }
    &&& forall|s: int, t: int|
        0 <= s < t < g.paths@.len() ==> lex_lt(
            path_key((#[trigger] g.paths@[s])@),
            path_key((#[trigger] g.paths@[t])@),
        )
    &&& forall|k: Seq<u32>|
        in_db(db, k) && stored_hash(db, k) == g.hash@ ==> exists|t: int|
            0 <= t < g.paths@.len() && path_key((#[trigger] g.paths@[t])@) == k
}

/// `groups` are the duplicate groups of `db`, one for each hash that two or
/// more of its paths share, in increasing order of the hash.
pub open spec fn duplicates_of(db: Seq<(String, DatabaseEntry)>, groups: Seq<DuplicateGroup>) -> bool {
    &&& forall|i: int| 0 <= i < groups.len() ==> duplicate_group_of(db, #[trigger] groups[i])
    &&& forall|i: int, j: int|
        0 <= i < j < groups.len() ==> lex_lt(
            text_key((#[trigger] groups[i]).hash@),
            text_key((#[trigger] groups[j]).hash@),
        )
    &&& forall|k1: Seq<u32>, k2: Seq<u32>|
        in_db(db, k1) && in_db(db, k2) && k1 != k2 && stored_hash(db, k1) == stored_hash(db, k2)
            ==> exists|i: int| 0 <= i < groups.len() && (#[trigger] groups[i]).hash@ == stored_hash(db, k1)
}

/// The duplicate groups of a database hold two or more paths each (their
/// count), no path is in two groups, and a path of the database is in a
/// group exactly when another of its paths has the same hash.
pub proof fn lemma_duplicate_groups_partition(
    db: Seq<(String, DatabaseEntry)>,
    groups: Seq<DuplicateGroup>,
)
    requires
        duplicates_of(db, groups),
    ensures
        forall|i: int|
            0 <= i < groups.len() ==> (#[trigger] groups[i]).count == groups[i].paths@.len()
                && groups[i].paths@.len() >= 2,
        forall|i: int, j: int, s: int, t: int|
            0 <= i < j < groups.len() && 0 <= s < groups[i].paths@.len() && 0 <= t
                < groups[j].paths@.len() ==> path_key((#[trigger] groups[i].paths@[s])@)
                != path_key((#[trigger] groups[j].paths@[t])@),
        forall|k: Seq<u32>|
            #![trigger in_db(db, k)]
            in_db(db, k) ==> ((exists|i: int, t: int|
                0 <= i < groups.len() && 0 <= t < groups[i].paths@.len() && path_key(
                    (#[trigger] groups[i].paths@[t])@,
                ) == k) <==> (exists|k2: Seq<u32>|
                in_db(db, k2) && k2 != k && #[trigger] stored_hash(db, k2) == stored_hash(db, k))),
{
    assert forall|i: int, j: int, s: int, t: int|
        0 <= i < j < groups.len() && 0 <= s < groups[i].paths@.len() && 0 <= t
            < groups[j].paths@.len() implies path_key((#[trigger] groups[i].paths@[s])@)
            != path_key((#[trigger] groups[j].paths@[t])@) by {
        assert(duplicate_group_of(db, groups[i]));
        assert(duplicate_group_of(db, groups[j]));
        if path_key(groups[i].paths@[s]@) == path_key(groups[j].paths@[t]@) {
            assert(groups[i].hash@ == groups[j].hash@);
            lemma_lex_irreflexive(text_key(groups[i].hash@));
        }
    }
    assert forall|k: Seq<u32>| #![trigger in_db(db, k)] in_db(db, k) implies ((exists|i: int, t: int|
        0 <= i < groups.len() && 0 <= t < groups[i].paths@.len() && path_key(
            (#[trigger] groups[i].paths@[t])@,
        ) == k) <==> (exists|k2: Seq<u32>|
        in_db(db, k2) && k2 != k && #[trigger] stored_hash(db, k2) == stored_hash(db, k))) by {
        if exists|i: int, t: int|
            0 <= i < groups.len() && 0 <= t < groups[i].paths@.len() && path_key(
                (#[trigger] groups[i].paths@[t])@,
            ) == k {
            let (i, t) = choose|i: int, t: int|
                0 <= i < groups.len() && 0 <= t < groups[i].paths@.len() && path_key(
                    (#[trigger] groups[i].paths@[t])@,
                ) == k;
            let g = groups[i];
            assert(duplicate_group_of(db, g));
            let other: int = if t == 0 { 1 } else { 0 };
            let k2 = path_key(g.paths@[other]@);
            if other < t {
                assert(lex_lt(k2, k));
            } else {
                assert(lex_lt(k, k2));
            }
            lemma_lex_irreflexive(k);
            assert(in_db(db, k2) && k2 != k && stored_hash(db, k2) == stored_hash(db, k));
        }
        if exists|k2: Seq<u32>| in_db(db, k2) && k2 != k && #[trigger] stored_hash(db, k2)
            == stored_hash(db, k) {
            let k2 = choose|k2: Seq<u32>| in_db(db, k2) && k2 != k && #[trigger] stored_hash(
                db,
                k2,
            ) == stored_hash(db, k);
            assert(in_db(db, k) && in_db(db, k2) && k != k2 && stored_hash(db, k) == stored_hash(
                db,
                k2,
            ));
            let i = choose|i: int| 0 <= i < groups.len() && (#[trigger] groups[i]).hash@
                == stored_hash(db, k);
            assert(duplicate_group_of(db, groups[i]));
            let t = choose|t: int| 0 <= t < groups[i].paths@.len() && path_key(
                (#[trigger] groups[i].paths@[t])@,
            ) == k;
            assert(path_key(groups[i].paths@[t]@) == k);
        }
    }
}

/// The keys of the hashes of duplicate groups, in order.
pub open spec fn group_hash_keys(gs: Seq<DuplicateGroup>) -> Seq<Seq<u32>> {
    gs.map_values(|g: DuplicateGroup| text_key(g.hash@))
}

/// The keys of the paths of a duplicate group, in order.
pub open spec fn group_path_keys(g: DuplicateGroup) -> Seq<Seq<u32>> {
    g.paths@.map_values(|p: String| path_key(p@))
}

proof fn lemma_group_hash_in_other(
    db: Seq<(String, DatabaseEntry)>,
    g1: Seq<DuplicateGroup>,
    g2: Seq<DuplicateGroup>,
    i: int,
)
    requires
        duplicates_of(db, g1),
        duplicates_of(db, g2),
        0 <= i < g1.len(),
    ensures
        group_hash_keys(g2).contains(text_key(g1[i].hash@)),
{
    let g = g1[i];
    assert(duplicate_group_of(db, g));
    let k1 = path_key(g.paths@[0]@);
    let k2 = path_key(g.paths@[1]@);
    assert(lex_lt(k1, k2));
    lemma_lex_irreflexive(k1);
    assert(in_db(db, k1) && in_db(db, k2) && k1 != k2 && stored_hash(db, k1) == stored_hash(db, k2));
    let j = choose|j: int| 0 <= j < g2.len() && (#[trigger] g2[j]).hash@ == stored_hash(db, k1);
    assert(group_hash_keys(g2)[j] == text_key(g1[i].hash@));
}

proof fn lemma_group_paths_in_other(
    db: Seq<(String, DatabaseEntry)>,
    a: DuplicateGroup,
    b: DuplicateGroup,
    t: int,
)
    requires
        duplicate_group_of(db, a),
        duplicate_group_of(db, b),
        a.hash@ == b.hash@,
        0 <= t < a.paths@.len(),
    ensures
        group_path_keys(b).contains(path_key(a.paths@[t]@)),
{
    let k = path_key(a.paths@[t]@);
    assert(in_db(db, k) && stored_hash(db, k) == b.hash@);
    let u = choose|u: int| 0 <= u < b.paths@.len() && path_key((#[trigger] b.paths@[u])@) == k;
    assert(group_path_keys(b)[u] == k);
}

/// The duplicate groups of a database are determined by it: two lists that
/// both are its duplicate groups have the same hashes, and the same paths,
/// spelled alike, and counts, group by group.
pub proof fn lemma_duplicate_groups_unique(
    db: Seq<(String, DatabaseEntry)>,
    g1: Seq<DuplicateGroup>,
    g2: Seq<DuplicateGroup>,
)
    requires
        duplicates_of(db, g1),
        duplicates_of(db, g2),
    ensures
        g1.len() == g2.len(),
        forall|i: int|
            0 <= i < g1.len() ==> {
                &&& (#[trigger] g1[i]).hash@ == g2[i].hash@
                &&& path_texts(g1[i].paths@) == path_texts(g2[i].paths@)
                &&& g1[i].count == g2[i].count
            },
{
    let h1 = group_hash_keys(g1);
    let h2 = group_hash_keys(g2);
    assert forall|x: Seq<u32>| h1.contains(x) <==> h2.contains(x) by {
        if h1.contains(x) {
            let i = choose|i: int| 0 <= i < h1.len() && h1[i] == x;
            lemma_group_hash_in_other(db, g1, g2, i);
        }
        if h2.contains(x) {
            let i = choose|i: int| 0 <= i < h2.len() && h2[i] == x;
            lemma_group_hash_in_other(db, g2, g1, i);
        }
    }
    assert(strictly_sorted(h1));
    assert(strictly_sorted(h2));
    lemma_sorted_same_members(h1, h2);
    assert(h1.len() == g1.len() && h2.len() == g2.len());
    assert forall|i: int| 0 <= i < g1.len() implies {
        &&& (#[trigger] g1[i]).hash@ == g2[i].hash@
        &&& path_texts(g1[i].paths@) == path_texts(g2[i].paths@)
        &&& g1[i].count == g2[i].count
    } by {
        assert(h1[i] == h2[i]);
        lemma_text_key_injective(g1[i].hash@, g2[i].hash@);
        let a = g1[i];
        let b = g2[i];
        assert(duplicate_group_of(db, a));
        assert(duplicate_group_of(db, b));
        let pa = group_path_keys(a);
        let pb = group_path_keys(b);
        assert forall|x: Seq<u32>| pa.contains(x) <==> pb.contains(x) by {
            if pa.contains(x) {
                let t = choose|t: int| 0 <= t < pa.len() && pa[t] == x;
                lemma_group_paths_in_other(db, a, b, t);
            }
            if pb.contains(x) {
                let t = choose|t: int| 0 <= t < pb.len() && pb[t] == x;
                lemma_group_paths_in_other(db, b, a, t);
            }
        }
        assert(strictly_sorted(pa));
        assert(strictly_sorted(pb));
        lemma_sorted_same_members(pa, pb);
        assert forall|t: int| 0 <= t < a.paths@.len() implies a.paths@[t]@ == b.paths@[t]@ by {
            assert(pa[t] == pb[t]);
        }
        assert(path_texts(a.paths@) =~= path_texts(b.paths@));
    }
}

/// The group made of the table entries at the sorted positions `g0..=p`,
/// all sharing one hash, is a duplicate group when it has two or more.
proof fn lemma_duplicate_group(
    db: Seq<(String, DatabaseEntry)>,
    keys: Seq<Seq<u32>>,
    paths: Seq<String>,
    hashes: Seq<String>,
    hk: Seq<Seq<u32>>,
    ord: Seq<usize>,
    g0: int,
    p: int,
    g: DuplicateGroup,
)
    requires
        table_of(db, keys, paths, hashes),
        hk.len() == hashes.len(),
        forall|x: int| 0 <= x < hk.len() ==> #[trigger] hk[x] == text_key(hashes[x]@),
        idx_sorted(hk, ord),
        forall|t: int| 0 <= t < ord.len() ==> (#[trigger] ord[t]) < hk.len(),
        forall|x: usize| x < hk.len() ==> ord.contains(x),
        hk.len() <= usize::MAX,
        0 <= g0 < p < ord.len(),
        forall|t: int| g0 <= t <= p ==> hk[#[trigger] ord[t] as int] == hk[ord[g0] as int],
        g0 > 0 ==> hk[ord[g0 - 1] as int] != hk[ord[g0] as int],
        p + 1 < ord.len() ==> hk[ord[p + 1] as int] != hk[ord[g0] as int],
        g.hash@ == hashes[ord[g0] as int]@,
        g.count == g.paths@.len(),
        g.paths@.len() == p - g0 + 1,
        forall|m: int| 0 <= m < g.paths@.len() ==> (#[trigger] g.paths@[m]) == paths[ord[g0 + m] as int],
    ensures
        duplicate_group_of(db, g),
{
    lemma_group_members(hk, ord, g0, p);
    let h = g.hash@;
    assert forall|t: int| 0 <= t < g.paths@.len() implies {
        let k = path_key((#[trigger] g.paths@[t])@);
        &&& in_db(db, k)
        &&& stored_hash(db, k) == g.hash@
        &&& g.paths@[t]@ == stored_path(db, k)
    } by {
        let x = ord[g0 + t] as int;
        assert(hk[x] == hk[ord[g0] as int]);
        assert(hk[x] == text_key(hashes[x]@));
        assert(hk[ord[g0] as int] == text_key(hashes[ord[g0] as int]@));
        lemma_text_key_injective(hashes[x]@, hashes[ord[g0] as int]@);
        assert(path_key(paths[x]@) == keys[x]);
        assert(g.paths@[t] == paths[x]);
    }
    assert forall|s: int, t: int| 0 <= s < t < g.paths@.len() implies lex_lt(
        path_key((#[trigger] g.paths@[s])@),
        path_key((#[trigger] g.paths@[t])@),
    ) by {
        assert(ord[g0 + s] < ord[g0 + t]);
        assert(lex_lt(keys[ord[g0 + s] as int], keys[ord[g0 + t] as int]));
    }
    assert forall|k: Seq<u32>| in_db(db, k) && stored_hash(db, k) == g.hash@ implies exists|t: int|
        0 <= t < g.paths@.len() && path_key((#[trigger] g.paths@[t])@) == k by {
        let x = choose|x: int| 0 <= x < keys.len() && #[trigger] keys[x] == k;
        assert(hashes[x]@ == h);
        assert(hk[x] == hk[ord[g0] as int]);
        assert(ord.contains(x as usize));
        let q = choose|q: int| 0 <= q < ord.len() && ord[q] == x as usize;
        assert(hk[ord[q] as int] == hk[ord[g0] as int]);
        assert(g0 <= q <= p);
        assert(g.paths@[q - g0] == paths[x]);
    }
}

/// Find duplicate hashes within a table.
fn duplicates_in(Ghost(db): Ghost<Seq<(String, DatabaseEntry)>>, t: &Table) -> (r: Vec<
    DuplicateGroup,
>)
    requires
        table_of(db, key_views(t.keys@), t.paths@, t.hashes@),
    ensures
        duplicates_of(db, r@),
{
    let ghost keys = key_views(t.keys@);
    let mut hkeys: Vec<Vec<u32>> = Vec::new();
    let mut x: usize = 0;
    while x < t.hashes.len()
        invariant
            x <= t.hashes@.len(),
            hkeys@.len() == x,
            forall|y: int| 0 <= y < x ==> (#[trigger] hkeys@[y])@ == text_key(t.hashes@[y]@),
        decreases t.hashes@.len() - x,
    {
        hkeys.push(text_key_of(t.hashes[x].as_str()));
        x = x + 1;
    }
    let ghost hk = key_views(hkeys@);
    assert forall|y: int| 0 <= y < hk.len() implies #[trigger] hk[y] == text_key(t.hashes@[y]@) by {
        assert(hk[y] == hkeys@[y]@);
    }
    let ord = sort_indices(&hkeys);
    let n = ord.len();
    let mut groups: Vec<DuplicateGroup> = Vec::new();
    let mut g0: usize = 0;
    let mut p: usize = 0;
    while p < n
        invariant
            n == ord@.len(),
            n == hk.len(),
            hk == key_views(hkeys@),
            table_of(db, keys, t.paths@, t.hashes@),
            keys == key_views(t.keys@),
            hk.len() == t.hashes@.len(),
            forall|y: int| 0 <= y < hk.len() ==> #[trigger] hk[y] == text_key(t.hashes@[y]@),
            idx_sorted(hk, ord@),
            forall|q: int| 0 <= q < ord@.len() ==> (#[trigger] ord@[q]) < hk.len(),
            forall|y: usize| y < hk.len() ==> ord@.contains(y),
            g0 <= p <= n,
            p < n ==> (forall|q: int| g0 <= q <= p ==> hk[#[trigger] ord@[q] as int] == hk[ord@[g0 as int] as int]),
            g0 < n && g0 > 0 ==> hk[ord@[g0 - 1] as int] != hk[ord@[g0 as int] as int],
            p == n ==> g0 == n,
            forall|i: int| 0 <= i < groups@.len() ==> duplicate_group_of(db, #[trigger] groups@[i]),
            groups@.len() > 0 && g0 < n ==> lex_lt(text_key(groups@.last().hash@), hk[ord@[g0 as int] as int]),
            forall|i: int, j: int|
                0 <= i < j < groups@.len() ==> lex_lt(
                    text_key((#[trigger] groups@[i]).hash@),
                    text_key((#[trigger] groups@[j]).hash@),
                ),
            forall|q1: int, q2: int|
                0 <= q1 < g0 && 0 <= q2 < n && q1 != q2 && hk[#[trigger] ord@[q1] as int] == hk[#[trigger] ord@[q2] as int]
                    ==> exists|i: int| 0 <= i < groups@.len() && (#[trigger] groups@[i]).hash@ == t.hashes@[ord@[q1] as int]@,
        decreases n - p,
    {
        let is_end = if p + 1 == n {
            true
        } else {
            !key_eq(&hkeys[ord[p + 1]], &hkeys[ord[p]])
        };
        if is_end {
            let ghost groups_before = groups@;
            proof {
                lemma_group_members(hk, ord@, g0 as int, p as int);
            }
            if p > g0 {
                let mut members: Vec<String> = Vec::new();
                let mut m: usize = g0;
                while m <= p
                    invariant
                        g0 <= m <= p + 1,
                        p < n,
                        n == ord@.len(),
                        members@.len() == m - g0,
                        forall|q: int| 0 <= q < ord@.len() ==> (#[trigger] ord@[q]) < hk.len(),
                        hk.len() == t.paths@.len(),
                        forall|c: int| 0 <= c < members@.len() ==> (#[trigger] members@[c]) == t.paths@[ord@[g0 + c] as int],
                    decreases p + 1 - m,
                {
                    members.push(t.paths[ord[m]].clone());
                    m = m + 1;
                }
                let count = members.len();
                let grp = DuplicateGroup { hash: t.hashes[ord[g0]].clone(), paths: members, count };
                proof {
                    lemma_duplicate_group(db, keys, t.paths@, t.hashes@, hk, ord@, g0 as int, p as int, grp);
                    assert(text_key(grp.hash@) == hk[ord@[g0 as int] as int]);
                    assert forall|i: int| 0 <= i < groups@.len() implies lex_lt(
                        text_key((#[trigger] groups@[i]).hash@),
                        text_key(grp.hash@),
                    ) by {
                        if i < groups@.len() - 1 {
                            assert(lex_lt(text_key(groups@[i].hash@), text_key(groups@.last().hash@)));
                            lemma_lex_transitive(text_key(groups@[i].hash@), text_key(groups@.last().hash@), text_key(grp.hash@));
                        }
                    }
                }
                let ghost prev = groups@;
                groups.push(grp);
                proof {
                    assert forall|i: int, j: int| 0 <= i < j < groups@.len() implies lex_lt(
                        text_key((#[trigger] groups@[i]).hash@),
                        text_key((#[trigger] groups@[j]).hash@),
                    ) by {
                        assert(groups@[i] == prev[i] || i == prev.len());
                        if j < prev.len() {
                            assert(groups@[j] == prev[j]);
                        }
                    }
                }
            }
            proof {
                let old_g0 = g0 as int;
                assert forall|q1: int, q2: int|
                    0 <= q1 < p + 1 && 0 <= q2 < n && q1 != q2 && hk[#[trigger] ord@[q1] as int] == hk[#[trigger] ord@[q2] as int]
                    implies exists|i: int| 0 <= i < groups@.len() && (#[trigger] groups@[i]).hash@ == t.hashes@[ord@[q1] as int]@ by {
                    if q1 >= old_g0 {
                        assert(hk[ord@[q1] as int] == hk[ord@[old_g0] as int]);
                        assert(old_g0 <= q2 <= p);
                        assert(p > old_g0);
                        let last = groups@.len() - 1;
                        assert(groups@[last].hash@ == t.hashes@[ord@[old_g0] as int]@);
                        assert(hk[ord@[q1] as int] == text_key(t.hashes@[ord@[q1] as int]@));
                        assert(hk[ord@[old_g0] as int] == text_key(t.hashes@[ord@[old_g0] as int]@));
                        lemma_text_key_injective(t.hashes@[ord@[q1] as int]@, t.hashes@[ord@[old_g0] as int]@);
                        assert(groups@[last].hash@ == t.hashes@[ord@[q1] as int]@);
                    } else {
                        let i = choose|i: int| 0 <= i < groups_before.len() && (#[trigger] groups_before[i]).hash@ == t.hashes@[ord@[q1] as int]@;
                        assert(groups@[i] == groups_before[i]);
                    }
                }
                if p + 1 < n {
                    assert(hk[ord@[p + 1] as int] != hk[ord@[p as int] as int]);
                    lemma_sorted_keys_le(hk, ord@, p as int, p + 1);
                    assert(lex_lt(hk[ord@[p as int] as int], hk[ord@[p + 1] as int]));
                    assert(hk[ord@[p as int] as int] == hk[ord@[old_g0] as int]);
                    if groups@.len() > 0 {
                        if p > old_g0 {
                            assert(text_key(groups@.last().hash@) == hk[ord@[old_g0] as int]);
                        } else {
                            assert(groups@ == groups_before);
                            lemma_lex_transitive(text_key(groups@.last().hash@), hk[ord@[p as int] as int], hk[ord@[p + 1] as int]);
                        }
                    }
                }
            }
            g0 = p + 1;
        } else {
            proof {
                assert(hk[ord@[p + 1] as int] == hk[ord@[p as int] as int]);
            }
        }
        p = p + 1;
    }
    proof {
        assert forall|k1: Seq<u32>, k2: Seq<u32>|
            in_db(db, k1) && in_db(db, k2) && k1 != k2 && stored_hash(db, k1) == stored_hash(db, k2)
            implies exists|i: int| 0 <= i < groups@.len() && (#[trigger] groups@[i]).hash@ == stored_hash(db, k1) by {
            let x1 = choose|x: int| 0 <= x < keys.len() && #[trigger] keys[x] == k1;
            let x2 = choose|x: int| 0 <= x < keys.len() && #[trigger] keys[x] == k2;
            assert(ord@.contains(x1 as usize));
            assert(ord@.contains(x2 as usize));
            let q1 = choose|q: int| 0 <= q < ord@.len() && ord@[q] == x1 as usize;
            let q2 = choose|q: int| 0 <= q < ord@.len() && ord@[q] == x2 as usize;
            assert(hk[ord@[q1] as int] == hk[ord@[q2] as int]);
        }
    }
    groups
}

impl CompareEngine {
    /// Create a new CompareEngine
    pub fn new() -> (r: Self) {
        CompareEngine
    }

    /// Compare two hash databases (their entries in the order read) and
    /// generate a detailed report: the number of paths in each, the paths
    /// with the same hash in both, those whose hash changed, those only in
    /// the first (removed) and only in the second (added), each list in
    /// path order, and the duplicate groups of each database.
    pub fn compare(
        &self,
        database1: &[(String, DatabaseEntry)],
        database2: &[(String, DatabaseEntry)],
    ) -> (r: CompareReport)
        ensures
            db_keys(database1@).finite(),
            db_keys(database2@).finite(),
            unchanged_keys(database1@, database2@).finite(),
            r.db1_total_files == db_keys(database1@).len(),
            r.db2_total_files == db_keys(database2@).len(),
            r.unchanged_files == unchanged_keys(database1@, database2@).len(),
            changed_between(database1@, database2@, r.changed_files@),
            only_in(database1@, database2@, r.removed_files@),
            only_in(database2@, database1@, r.added_files@),
            duplicates_of(database1@, r.duplicates_db1@),
            duplicates_of(database2@, r.duplicates_db2@),
            reports_comparison(database1@, database2@, r),
    {
        let t1 = build_table(database1);
        let t2 = build_table(database2);
        proof {
            lemma_table_len(database1@, key_views(t1.keys@), t1.paths@, t1.hashes@);
            lemma_table_len(database2@, key_views(t2.keys@), t2.paths@, t2.hashes@);
        }
        let duplicates_db1 = duplicates_in(Ghost(database1@), &t1);
        let duplicates_db2 = duplicates_in(Ghost(database2@), &t2);
        let (unchanged, changed, removed, added) = classify(
            Ghost(database1@),
            Ghost(database2@),
            &t1,
            &t2,
        );
        CompareReport {
            db1_total_files: t1.keys.len(),
            db2_total_files: t2.keys.len(),
            unchanged_files: unchanged,
            changed_files: changed,
            removed_files: removed,
            added_files: added,
            duplicates_db1,
            duplicates_db2,
        }
    }

    /// Find duplicate hashes within a database: one group per hash that two
    /// or more of its paths share, in hash order, each with its paths in
    /// path order and their number.
    pub fn find_duplicates(database: &[(String, DatabaseEntry)]) -> (r: Vec<DuplicateGroup>)
        ensures
            duplicates_of(database@, r@),
    {
        let t = build_table(database);
        duplicates_in(Ghost(database@), &t)
    }
}

/// Each path on a line of its own after `indent`.
pub open spec fn path_lines(paths: Seq<String>, indent: Seq<char>) -> Seq<char>
    decreases paths.len(),
{
    if paths.len() == 0 {
        Seq::empty()
    } else {
        path_lines(paths.drop_last(), indent) + indent + paths.last()@ + "\n"@
    }
}

/// The lines for changed files: the path, then its hash in each database.
pub open spec fn changed_lines(cs: Seq<ChangedFile>) -> Seq<char>
    decreases cs.len(),
{
    if cs.len() == 0 {
        Seq::empty()
    } else {
        let c = cs.last();
        changed_lines(cs.drop_last()) + "  "@ + c.path@ + "\n"@ + "    DB1: "@ + c.hash_db1@ + "\n"@
            + "    DB2: "@ + c.hash_db2@ + "\n"@
    }
}

/// The lines for duplicate groups: the hash and number of files, then the
/// paths.
pub open spec fn group_lines(gs: Seq<DuplicateGroup>) -> Seq<char>
    decreases gs.len(),
{
    if gs.len() == 0 {
        Seq::empty()
    } else {
        let g = gs.last();
        group_lines(gs.drop_last()) + "  Hash: "@ + g.hash@ + " ("@ + dec_str(g.count as nat)
            + " files)\n"@ + path_lines(g.paths@, "    "@)
    }
}

/// A section: nothing when empty, else a title and its lines.
pub open spec fn section(empty: bool, title: Seq<char>, lines: Seq<char>) -> Seq<char> {
    if empty {
        Seq::empty()
    } else {
        title + lines
    }
}

/// A line counting `n` things: `label`, the number, `unit`.
pub open spec fn count_line(label: Seq<char>, n: nat, unit: Seq<char>) -> Seq<char> {
    label + dec_str(n) + unit
}

/// The summary part of the plain text report.
pub open spec fn summary_text(r: CompareReport) -> Seq<char> {
    "\n=== Database Comparison Report ===\n\n"@ + "Summary:\n"@
        + count_line("  Database 1: "@, r.db1_total_files as nat, " files\n"@)
        + count_line("  Database 2: "@, r.db2_total_files as nat, " files\n"@)
        + count_line("  Unchanged:  "@, r.unchanged_files as nat, " files\n"@)
        + count_line("  Changed:    "@, r.changed_files@.len(), " files\n"@)
        + count_line("  Removed:    "@, r.removed_files@.len(), " files\n"@)
        + count_line("  Added:      "@, r.added_files@.len(), " files\n"@)
        + count_line("  Duplicates in DB1: "@, r.duplicates_db1@.len(), " groups\n"@)
        + count_line("  Duplicates in DB2: "@, r.duplicates_db2@.len(), " groups\n"@)
}

/// The plain text report.
pub open spec fn plain_text(r: CompareReport) -> Seq<char> {
    summary_text(r) + section(
        r.changed_files@.len() == 0,
        "\nChanged Files:\n"@,
        changed_lines(r.changed_files@),
    ) + section(
        r.removed_files@.len() == 0,
        "\nRemoved Files (in DB1 but not DB2):\n"@,
        path_lines(r.removed_files@, "  "@),
    ) + section(
        r.added_files@.len() == 0,
        "\nAdded Files (in DB2 but not DB1):\n"@,
        path_lines(r.added_files@, "  "@),
    ) + section(
        r.duplicates_db1@.len() == 0,
        "\nDuplicates in Database 1:\n"@,
        group_lines(r.duplicates_db1@),
    ) + section(
        r.duplicates_db2@.len() == 0,
        "\nDuplicates in Database 2:\n"@,
        group_lines(r.duplicates_db2@),
    ) + "\n"@
}

/// Append each path on a line of its own after `indent`.
fn push_path_lines(out: &mut String, paths: &Vec<String>, indent: &str)
    ensures
        final(out)@ == old(out)@ + path_lines(paths@, indent@),
{
    let ghost start = out@;
    let mut i: usize = 0;
    while i < paths.len()
        invariant
            i <= paths@.len(),
            out@ == start + path_lines(paths@.take(i as int), indent@),
        decreases paths@.len() - i,
    {
        proof {
            assert(paths@.take(i + 1).drop_last() =~= paths@.take(i as int));
            assert(paths@.take(i + 1).last() == paths@[i as int]);
        }
        push_str(out, indent);
        push_str(out, paths[i].as_str());
        push_str(out, "\n");
        i = i + 1;
    }
    assert(paths@.take(paths@.len() as int) =~= paths@);
}

/// Append a count line: `label`, the number, `unit`.
fn push_count(out: &mut String, label: &str, n: usize, unit: &str)
    ensures
        final(out)@ == old(out)@ + count_line(label@, n as nat, unit@),
{
    let ghost start = out@;
    push_str(out, label);
    let d = decimal(n as u64);
    push_str(out, d.as_str());
    push_str(out, unit);
    assert(out@ =~= start + count_line(label@, n as nat, unit@));
}

/// Append the summary part of the plain text report.
fn push_summary(out: &mut String, r: &CompareReport)
    ensures
        final(out)@ == old(out)@ + summary_text(*r),
{
    let ghost start = out@;
    push_str(out, "\n=== Database Comparison Report ===\n\n");
    push_str(out, "Summary:\n");
    let ghost head = out@;
    push_count(out, "  Database 1: ", r.db1_total_files, " files\n");
    push_count(out, "  Database 2: ", r.db2_total_files, " files\n");
    push_count(out, "  Unchanged:  ", r.unchanged_files, " files\n");
    push_count(out, "  Changed:    ", r.changed_files.len(), " files\n");
    push_count(out, "  Removed:    ", r.removed_files.len(), " files\n");
    push_count(out, "  Added:      ", r.added_files.len(), " files\n");
    push_count(out, "  Duplicates in DB1: ", r.duplicates_db1.len(), " groups\n");
    push_count(out, "  Duplicates in DB2: ", r.duplicates_db2.len(), " groups\n");
    assert(head =~= start + ("\n=== Database Comparison Report ===\n\n"@ + "Summary:\n"@));
    assert(out@ =~= start + summary_text(*r));
}

/// Append the section of changed files.
fn push_changed_section(out: &mut String, cs: &Vec<ChangedFile>)
    ensures
        final(out)@ == old(out)@ + section(cs@.len() == 0, "\nChanged Files:\n"@, changed_lines(cs@)),
{
    let ghost start = out@;
    if cs.len() == 0 {
        assert(out@ =~= start + Seq::<char>::empty());
        return;
    }
    push_str(out, "\nChanged Files:\n");
    let ghost base = out@;
    let mut i: usize = 0;
    while i < cs.len()
        invariant
            i <= cs@.len(),
            out@ == base + changed_lines(cs@.take(i as int)),
        decreases cs@.len() - i,
    {
        proof {
            let t = cs@.take(i + 1);
            assert(t.drop_last() =~= cs@.take(i as int));
            assert(t.last() == cs@[i as int]);
        }
        let c = &cs[i];
        push_str(out, "  ");
        push_str(out, c.path.as_str());
        push_str(out, "\n");
        push_str(out, "    DB1: ");
        push_str(out, c.hash_db1.as_str());
        push_str(out, "\n");
        push_str(out, "    DB2: ");
        push_str(out, c.hash_db2.as_str());
        push_str(out, "\n");
        i = i + 1;
    }
    assert(cs@.take(cs@.len() as int) =~= cs@);
    assert(out@ =~= start + ("\nChanged Files:\n"@ + changed_lines(cs@)));
}

/// Append a section of paths.
fn push_paths_section(out: &mut String, title: &str, paths: &Vec<String>)
    ensures
        final(out)@ == old(out)@ + section(paths@.len() == 0, title@, path_lines(paths@, "  "@)),
{
    let ghost start = out@;
    if paths.len() == 0 {
        assert(out@ =~= start + Seq::<char>::empty());
        return;
    }
    push_str(out, title);
    push_path_lines(out, paths, "  ");
    assert(out@ =~= start + (title@ + path_lines(paths@, "  "@)));
}

/// Append a section of duplicate groups.
fn push_groups_section(out: &mut String, title: &str, gs: &Vec<DuplicateGroup>)
    ensures
        final(out)@ == old(out)@ + section(gs@.len() == 0, title@, group_lines(gs@)),
{
    let ghost start = out@;
    if gs.len() == 0 {
        assert(out@ =~= start + Seq::<char>::empty());
        return;
    }
    push_str(out, title);
    CompareReport::push_groups(out, gs);
    assert(out@ =~= start + (title@ + group_lines(gs@)));
}

impl CompareReport {
    /// Format the comparison report as plain text string
    pub fn to_plain_text(&self) -> (r: String)
        ensures
            r@ == plain_text(*self),
    {
        let mut output = String::new();
        push_summary(&mut output, self);
        push_changed_section(&mut output, &self.changed_files);
        push_paths_section(&mut output, "\nRemoved Files (in DB1 but not DB2):\n", &self.removed_files);
        push_paths_section(&mut output, "\nAdded Files (in DB2 but not DB1):\n", &self.added_files);
        push_groups_section(&mut output, "\nDuplicates in Database 1:\n", &self.duplicates_db1);
        push_groups_section(&mut output, "\nDuplicates in Database 2:\n", &self.duplicates_db2);
        push_str(&mut output, "\n");
        assert(output@ =~= plain_text(*self));
        output
    }

    /// Append the lines of duplicate groups.
    fn push_groups(out: &mut String, gs: &Vec<DuplicateGroup>)
        ensures
            final(out)@ == old(out)@ + group_lines(gs@),
    {
        let ghost start = out@;
        let mut i: usize = 0;
        while i < gs.len()
            invariant
                i <= gs@.len(),
                out@ == start + group_lines(gs@.take(i as int)),
            decreases gs@.len() - i,
        {
            proof {
                assert(gs@.take(i + 1).drop_last() =~= gs@.take(i as int));
                assert(gs@.take(i + 1).last() == gs@[i as int]);
            }
            let g = &gs[i];
            push_str(out, "  Hash: ");
            push_str(out, g.hash.as_str());
            push_count(out, " (", g.count, " files)\n");
            push_path_lines(out, &g.paths, "    ");
            proof {
                assert(out@ =~= start + group_lines(gs@.take(i + 1)));
            }
            i = i + 1;
        }
        assert(gs@.take(gs@.len() as int) =~= gs@);
    }
}

/// Comparing a database with itself finds nothing changed, removed or
/// added, and every path unchanged.
pub proof fn lemma_compare_with_itself(
    db: Seq<(String, DatabaseEntry)>,
    changed: Seq<ChangedFile>,
    removed: Seq<String>,
    added: Seq<String>,
)
    requires
        changed_between(db, db, changed),
        only_in(db, db, removed),
        only_in(db, db, added),
    ensures
        changed.len() == 0,
        removed.len() == 0,
        added.len() == 0,
        unchanged_keys(db, db) == db_keys(db),
{
    if changed.len() > 0 {
        let c = changed[0];
        assert(c.hash_db1@ != c.hash_db2@);
    }
    if removed.len() > 0 {
        let k = path_key(removed[0]@);
        assert(in_db(db, k) && !in_db(db, k));
    }
    if added.len() > 0 {
        let k = path_key(added[0]@);
        assert(in_db(db, k) && !in_db(db, k));
    }
    assert(unchanged_keys(db, db) =~= db_keys(db));
}

/// The keys of a list of paths.
pub open spec fn keys_of_paths(paths: Seq<String>) -> Seq<Seq<u32>> {
    paths.map_values(|p: String| path_key(p@))
}

/// The texts of a list of paths.
pub open spec fn path_texts(paths: Seq<String>) -> Seq<Seq<char>> {
    paths.map_values(|p: String| p@)
}

proof fn lemma_only_in_keys(a: Seq<(String, DatabaseEntry)>, b: Seq<(String, DatabaseEntry)>, p: Seq<String>, k: Seq<u32>)
    requires
        only_in(a, b, p),
    ensures
        strictly_sorted(keys_of_paths(p)),
        keys_of_paths(p).contains(k) <==> (in_db(a, k) && !in_db(b, k)),
{
    let ks = keys_of_paths(p);
    assert forall|i: int, j: int| 0 <= i < j < ks.len() implies lex_lt(#[trigger] ks[i], #[trigger] ks[j]) by {
        assert(ks[i] == path_key(p[i]@) && ks[j] == path_key(p[j]@));
    }
    if ks.contains(k) {
        let t = choose|t: int| 0 <= t < ks.len() && ks[t] == k;
        assert(ks[t] == path_key(p[t]@));
    }
    if in_db(a, k) && !in_db(b, k) {
        let t = choose|t: int| 0 <= t < p.len() && path_key((#[trigger] p[t])@) == k;
        assert(ks[t] == k);
    }
}

/// Comparing the other way round reports as added exactly the paths that
/// were reported as removed, in the same order and spelling: both lists
/// hold the paths that `db1` has and `db2` has not.
pub proof fn lemma_swapped_comparison_trades_removed_and_added(
    db1: Seq<(String, DatabaseEntry)>,
    db2: Seq<(String, DatabaseEntry)>,
    removed: Seq<String>,
    added_when_swapped: Seq<String>,
)
    requires
        only_in(db1, db2, removed),
        only_in(db1, db2, added_when_swapped),
    ensures
        path_texts(removed) == path_texts(added_when_swapped),
{
    let k1 = keys_of_paths(removed);
    let k2 = keys_of_paths(added_when_swapped);
    assert forall|x: Seq<u32>| k1.contains(x) <==> k2.contains(x) by {
        lemma_only_in_keys(db1, db2, removed, x);
        lemma_only_in_keys(db1, db2, added_when_swapped, x);
    }
    lemma_only_in_keys(db1, db2, removed, Seq::empty());
    lemma_only_in_keys(db1, db2, added_when_swapped, Seq::empty());
    lemma_sorted_same_members(k1, k2);
    assert(removed.len() == k1.len() && added_when_swapped.len() == k2.len());
    assert forall|t: int| 0 <= t < removed.len() implies #[trigger] path_texts(removed)[t]
        == path_texts(added_when_swapped)[t] by {
        assert(k1[t] == path_key(removed[t]@));
        assert(k2[t] == path_key(added_when_swapped[t]@));
        assert(removed[t]@ == stored_path(db1, k1[t]));
        assert(added_when_swapped[t]@ == stored_path(db1, k2[t]));
    }
    assert(path_texts(removed) =~= path_texts(added_when_swapped));
}

/// The keys of the paths of a list of changed files.
pub open spec fn changed_keys(changed: Seq<ChangedFile>) -> Seq<Seq<u32>> {
    changed.map_values(|c: ChangedFile| path_key(c.path@))
}

proof fn lemma_changed_keys(
    a: Seq<(String, DatabaseEntry)>,
    b: Seq<(String, DatabaseEntry)>,
    c: Seq<ChangedFile>,
    k: Seq<u32>,
)
    requires
        changed_between(a, b, c),
    ensures
        strictly_sorted(changed_keys(c)),
        changed_keys(c).contains(k) <==> (in_db(a, k) && in_db(b, k) && stored_hash(a, k)
            != stored_hash(b, k)),
{
    let ks = changed_keys(c);
    assert forall|i: int, j: int| 0 <= i < j < ks.len() implies lex_lt(#[trigger] ks[i], #[trigger] ks[j]) by {
        assert(ks[i] == path_key(c[i].path@) && ks[j] == path_key(c[j].path@));
    }
    if ks.contains(k) {
        let t = choose|t: int| 0 <= t < ks.len() && ks[t] == k;
        assert(ks[t] == path_key(c[t].path@));
        let ct = c[t];
        assert(ct.hash_db1@ != ct.hash_db2@);
    }
    if in_db(a, k) && in_db(b, k) && stored_hash(a, k) != stored_hash(b, k) {
        let t = choose|t: int| 0 <= t < c.len() && path_key((#[trigger] c[t]).path@) == k;
        assert(ks[t] == k);
    }
}

/// Comparing the other way round reports the same changed paths, in the
/// same order, with the two hashes of each traded, and the same paths as
/// unchanged.
pub proof fn lemma_swapped_comparison_trades_hashes(
    db1: Seq<(String, DatabaseEntry)>,
    db2: Seq<(String, DatabaseEntry)>,
    changed: Seq<ChangedFile>,
    changed_when_swapped: Seq<ChangedFile>,
)
    requires
        changed_between(db1, db2, changed),
        changed_between(db2, db1, changed_when_swapped),
    ensures
        changed_when_swapped.len() == changed.len(),
        forall|t: int|
            0 <= t < changed.len() ==> {
                &&& path_key((#[trigger] changed_when_swapped[t]).path@) == path_key(changed[t].path@)
                &&& changed_when_swapped[t].hash_db1@ == changed[t].hash_db2@
                &&& changed_when_swapped[t].hash_db2@ == changed[t].hash_db1@
            },
        unchanged_keys(db2, db1) == unchanged_keys(db1, db2),
{
    let k1 = changed_keys(changed);
    let k2 = changed_keys(changed_when_swapped);
    assert forall|x: Seq<u32>| k1.contains(x) <==> k2.contains(x) by {
        lemma_changed_keys(db1, db2, changed, x);
        lemma_changed_keys(db2, db1, changed_when_swapped, x);
    }
    lemma_changed_keys(db1, db2, changed, Seq::empty());
    lemma_changed_keys(db2, db1, changed_when_swapped, Seq::empty());
    lemma_sorted_same_members(k1, k2);
    assert(k1.len() == changed.len() && k2.len() == changed_when_swapped.len());
    assert forall|t: int| 0 <= t < changed.len() implies {
        &&& path_key((#[trigger] changed_when_swapped[t]).path@) == path_key(changed[t].path@)
        &&& changed_when_swapped[t].hash_db1@ == changed[t].hash_db2@
        &&& changed_when_swapped[t].hash_db2@ == changed[t].hash_db1@
    } by {
        assert(k1[t] == path_key(changed[t].path@));
        assert(k2[t] == path_key(changed_when_swapped[t].path@));
        let c = changed[t];
        let d = changed_when_swapped[t];
        assert(c.hash_db1@ == stored_hash(db1, k1[t]));
        assert(d.hash_db1@ == stored_hash(db2, k2[t]));
    }
    assert(unchanged_keys(db2, db1) =~= unchanged_keys(db1, db2));
}

/// `r` is the report of comparing `db1` with `db2`, as `compare` makes it.
pub open spec fn reports_comparison(
    db1: Seq<(String, DatabaseEntry)>,
    db2: Seq<(String, DatabaseEntry)>,
    r: CompareReport,
) -> bool {
    &&& db_keys(db1).finite()
    &&& db_keys(db2).finite()
    &&& unchanged_keys(db1, db2).finite()
    &&& r.db1_total_files == db_keys(db1).len()
    &&& r.db2_total_files == db_keys(db2).len()
    &&& r.unchanged_files == unchanged_keys(db1, db2).len()
    &&& changed_between(db1, db2, r.changed_files@)
    &&& only_in(db1, db2, r.removed_files@)
    &&& only_in(db2, db1, r.added_files@)
    &&& duplicates_of(db1, r.duplicates_db1@)
    &&& duplicates_of(db2, r.duplicates_db2@)
}

/// Two duplicate-group lists with the same hashes, paths (spelled alike)
/// and counts, group by group.
pub open spec fn same_groups(a: Seq<DuplicateGroup>, b: Seq<DuplicateGroup>) -> bool {
    &&& a.len() == b.len()
    &&& forall|i: int|
        0 <= i < a.len() ==> {
            &&& (#[trigger] a[i]).hash@ == b[i].hash@
            &&& path_texts(a[i].paths@) == path_texts(b[i].paths@)
            &&& a[i].count == b[i].count
        }
}

/// Comparing the two databases the other way round trades the totals, the
/// removed and added paths, the duplicate groups and the two hashes of each
/// changed path, and keeps the number of unchanged paths.
pub proof fn lemma_swapped_comparison(
    db1: Seq<(String, DatabaseEntry)>,
    db2: Seq<(String, DatabaseEntry)>,
    r: CompareReport,
    s: CompareReport,
)
    requires
        reports_comparison(db1, db2, r),
        reports_comparison(db2, db1, s),
    ensures
        s.db1_total_files == r.db2_total_files,
        s.db2_total_files == r.db1_total_files,
        s.unchanged_files == r.unchanged_files,
        path_texts(s.added_files@) == path_texts(r.removed_files@),
        path_texts(s.removed_files@) == path_texts(r.added_files@),
        s.changed_files@.len() == r.changed_files@.len(),
        forall|t: int|
            0 <= t < r.changed_files@.len() ==> {
                &&& path_key((#[trigger] s.changed_files@[t]).path@) == path_key(
                    r.changed_files@[t].path@,
                )
                &&& s.changed_files@[t].hash_db1@ == r.changed_files@[t].hash_db2@
                &&& s.changed_files@[t].hash_db2@ == r.changed_files@[t].hash_db1@
            },
        same_groups(s.duplicates_db1@, r.duplicates_db2@),
        same_groups(s.duplicates_db2@, r.duplicates_db1@),
{
    lemma_swapped_comparison_trades_removed_and_added(db1, db2, r.removed_files@, s.added_files@);
    lemma_swapped_comparison_trades_removed_and_added(db2, db1, r.added_files@, s.removed_files@);
    lemma_swapped_comparison_trades_hashes(db1, db2, r.changed_files@, s.changed_files@);
    lemma_duplicate_groups_unique(db2, s.duplicates_db1@, r.duplicates_db2@);
    lemma_duplicate_groups_unique(db1, s.duplicates_db2@, r.duplicates_db1@);
}

/// Comparing a database with itself finds no changed, removed or added
/// path, counts every path unchanged, and gives the same duplicate groups
/// for both sides.
pub proof fn lemma_comparison_with_itself(db: Seq<(String, DatabaseEntry)>, r: CompareReport)
    requires
        reports_comparison(db, db, r),
    ensures
        r.changed_files@.len() == 0,
        r.removed_files@.len() == 0,
        r.added_files@.len() == 0,
        r.unchanged_files == r.db1_total_files,
        r.db1_total_files == r.db2_total_files,
        same_groups(r.duplicates_db1@, r.duplicates_db2@),
{
    lemma_compare_with_itself(db, r.changed_files@, r.removed_files@, r.added_files@);
    lemma_duplicate_groups_unique(db, r.duplicates_db1@, r.duplicates_db2@);
}

/// Read as a map from paths to entries, a database holds the paths of its
/// entries (by their keys) and gives each the hash of its last entry: later
/// lines override earlier ones.
pub proof fn lemma_database_as_map(db: Seq<(String, DatabaseEntry)>, k: Seq<u32>)
    ensures
        in_db(db, k) <==> exists|i: int| 0 <= i < db.len() && path_key((#[trigger] db[i]).0@) == k,
        in_db(db, k) ==> exists|j: int|
            {
                &&& 0 <= j < db.len()
                &&& path_key((#[trigger] db[j]).0@) == k
                &&& stored_hash(db, k) == db[j].1.hash@
                &&& forall|i: int| j < i < db.len() ==> path_key((#[trigger] db[i]).0@) != k
            },
{
    let keys = path_keys(db);
    if exists|i: int| 0 <= i < db.len() && path_key((#[trigger] db[i]).0@) == k {
        let i = choose|i: int| 0 <= i < db.len() && path_key((#[trigger] db[i]).0@) == k;
        assert(keys[i] == k);
    }
    if in_db(db, k) {
        lemma_last_with_key(keys, k);
        let j = last_with_key(keys, k);
        assert forall|i: int| j < i < db.len() implies path_key((#[trigger] db[i]).0@) != k by {
            assert(keys[i] == path_key(db[i].0@));
        }
        assert(keys[j] == path_key(db[j].0@));
    }
}

/// The plain text report opens with its title and the count of the first
/// database's paths, and ends with a newline.
pub proof fn lemma_report_text_shape(r: CompareReport)
    ensures
        ({
            let head = "\n=== Database Comparison Report ===\n\n"@ + "Summary:\n"@ + count_line(
                "  Database 1: "@,
                r.db1_total_files as nat,
                " files\n"@,
            );
            plain_text(r).take(head.len() as int) == head
        }),
        plain_text(r).len() > 0,
        plain_text(r).last() == '\n',
{
    reveal_strlit("\n");
    let head = "\n=== Database Comparison Report ===\n\n"@ + "Summary:\n"@ + count_line(
        "  Database 1: "@,
        r.db1_total_files as nat,
        " files\n"@,
    );
    let text = plain_text(r);
    assert(summary_text(r) =~= head + (summary_text(r).skip(head.len() as int)));
    assert(text.take(head.len() as int) =~= head);
}

} // verus!
