//! Kubernetes storage as the storage menu shows it: claims and volumes
//! from the fields of their API objects, and the namespaces in order.
use vstd::prelude::*;
use crate::fs::types::{PvcInfo, StorageInfo};
use crate::hash::order::{idx_sorted, index_range, sort_indices, text_key, text_key_of};
use crate::text::{push_str, to_string};

verus! {

/// The fields of a persistent volume claim that the menu reads: its name
/// and namespace, the `storage` entry of its capacity, its access modes.
pub struct ClaimRecord {
    pub name: Option<String>,
    pub namespace: Option<String>,
    pub storage_capacity: Option<String>,
    pub access_modes: Option<Vec<String>>,
}

/// The fields of a persistent volume that the menu reads: its name, the
/// `storage` entry of its capacity, its access modes, the namespace and
/// name of the claim bound to it, its phase.
pub struct VolumeRecord {
    pub name: Option<String>,
    pub storage_capacity: Option<String>,
    pub access_modes: Option<Vec<String>>,
    pub claim_ref: Option<(Option<String>, Option<String>)>,
    pub phase: Option<String>,
}

/// The text of an optional string, empty when absent.
pub open spec fn or_empty(s: Option<String>) -> Seq<char> {
    match s {
        Some(t) => t@,
        None => Seq::empty(),
    }
}

/// The text of an optional string, `Unknown` when absent.
pub open spec fn or_unknown(s: Option<String>) -> Seq<char> {
    match s {
        Some(t) => t@,
        None => "Unknown"@,
    }
}

/// The texts of optional strings, none when absent.
pub open spec fn modes_of(m: Option<Vec<String>>) -> Seq<Seq<char>> {
    match m {
        Some(v) => v@.map_values(|s: String| s@),
        None => Seq::empty(),
    }
}

/// The texts of a list of strings.
pub open spec fn string_texts(v: Seq<String>) -> Seq<Seq<char>> {
    v.map_values(|s: String| s@)
}

fn text_or_empty(s: &Option<String>) -> (r: String)
    ensures
        r@ == or_empty(*s),
{
    match s {
        Some(t) => t.clone(),
        None => String::new(),
    }
}

fn text_or_unknown(s: &Option<String>) -> (r: String)
    ensures
        r@ == or_unknown(*s),
{
    match s {
        Some(t) => t.clone(),
        None => to_string("Unknown"),
    }
}

fn copy_strings(v: &Vec<String>) -> (r: Vec<String>)
    ensures
        string_texts(r@) == string_texts(v@),
{
    let mut out: Vec<String> = Vec::new();
    let mut i: usize = 0;
    while i < v.len()
        invariant
            i <= v@.len(),
            string_texts(out@) == string_texts(v@.take(i as int)),
        decreases v@.len() - i,
    {
        let c = v[i].clone();
        let ghost before = out@;
        out.push(c);
        assert(out@ =~= before.push(c));
        assert(string_texts(v@.take(i + 1)) =~= string_texts(v@.take(i as int)).push(v@[i as int]@));
        assert(string_texts(out@) =~= string_texts(before).push(c@));
        i = i + 1;
    }
    assert(v@.take(i as int) =~= v@);
    out
}

fn modes_or_empty(m: &Option<Vec<String>>) -> (r: Vec<String>)
    ensures
        string_texts(r@) == modes_of(*m),
{
    match m {
        Some(v) => copy_strings(v),
        None => {
            let out: Vec<String> = Vec::new();
            assert(string_texts(out@) =~= Seq::<Seq<char>>::empty());
            out
        },
    }
}

/// A claim as the menu lists it: a missing name or namespace is empty, a
/// missing capacity unknown, missing access modes none.
pub fn claim_info(c: &ClaimRecord) -> (r: PvcInfo)
    ensures
        r.name@ == or_empty(c.name),
        r.namespace@ == or_empty(c.namespace),
        r.capacity@ == or_unknown(c.storage_capacity),
        string_texts(r.access_modes@) == modes_of(c.access_modes),
{
    PvcInfo {
        name: text_or_empty(&c.name),
        namespace: text_or_empty(&c.namespace),
        capacity: text_or_unknown(&c.storage_capacity),
        access_modes: modes_or_empty(&c.access_modes),
    }
}

/// A volume as the menu lists it: a missing name is empty, a missing
/// capacity or phase unknown, missing access modes none; a bound claim
/// shows as `namespace/name` (each empty when missing).
pub fn volume_info(v: &VolumeRecord) -> (r: StorageInfo)
    ensures
        r.name@ == or_empty(v.name),
        r.capacity@ == or_unknown(v.storage_capacity),
        string_texts(r.access_modes@) == modes_of(v.access_modes),
        match v.claim_ref {
            Some((ns, n)) => r.claim_ref matches Some(s) && s@ == or_empty(ns) + "/"@ + or_empty(n),
            None => r.claim_ref is None,
        },
        r.status@ == or_unknown(v.phase),
        r.is_pv,
{
    let claim_ref = match &v.claim_ref {
        Some((ns, n)) => {
            let mut s = text_or_empty(ns);
            push_str(&mut s, "/");
            let t = text_or_empty(n);
            push_str(&mut s, t.as_str());
            Some(s)
        },
        None => None,
    };
    StorageInfo {
        name: text_or_empty(&v.name),
        capacity: text_or_unknown(&v.storage_capacity),
        access_modes: modes_or_empty(&v.access_modes),
        claim_ref,
        status: text_or_unknown(&v.phase),
        is_pv: true,
    }
}

/// The named namespaces in order: `r` holds the present names of `names`
/// reordered by `ord` into increasing order.
pub open spec fn sorted_names(present: Seq<Seq<char>>, ord: Seq<usize>, r: Seq<Seq<char>>) -> bool {
    &&& ord.len() == present.len()
    &&& ord.to_multiset() == index_range(0, present.len() as int).to_multiset()
    &&& idx_sorted(present.map_values(|s: Seq<char>| text_key(s)), ord)
    &&& r.len() == present.len()
    &&& forall|t: int| 0 <= t < r.len() ==> #[trigger] r[t] == present[ord[t] as int]
}

/// The names that are present.
pub open spec fn present_names(names: Seq<Option<String>>) -> Seq<Seq<char>>
    decreases names.len(),
{
    if names.len() == 0 {
        Seq::empty()
    } else {
        let prev = present_names(names.drop_last());
        match names.last() {
            Some(n) => prev.push(n@),
            None => prev,
        }
    }
}

/// The namespaces to choose from: the names of the namespace objects that
/// have one, in increasing order.
pub fn namespace_names(names: &[Option<String>]) -> (r: Vec<String>)
    ensures
        exists|ord: Seq<usize>| sorted_names(present_names(names@), ord, string_texts(r@)),
{
    let mut present: Vec<String> = Vec::new();
    let mut i: usize = 0;
    while i < names.len()
        invariant
            i <= names@.len(),
            string_texts(present@) == present_names(names@.take(i as int)),
        decreases names@.len() - i,
    {
        proof {
            assert(names@.take(i + 1).drop_last() =~= names@.take(i as int));
            assert(names@.take(i + 1).last() == names@[i as int]);
        }
        match &names[i] {
            Some(n) => {
                let ghost before = present@;
                present.push(n.clone());
                assert(string_texts(present@) =~= string_texts(before).push(n@));
            },
            None => {},
        }
        i = i + 1;
    }
    assert(names@.take(i as int) =~= names@);
    let ghost p = string_texts(present@);
    let mut keys: Vec<Vec<u32>> = Vec::new();
    let mut j: usize = 0;
    while j < present.len()
        invariant
            j <= present@.len(),
            p == string_texts(present@),
            keys@.len() == j,
            forall|t: int| 0 <= t < j ==> (#[trigger] keys@[t])@ == text_key(p[t]),
        decreases present@.len() - j,
    {
        keys.push(text_key_of(present[j].as_str()));
        j = j + 1;
    }
    assert(keys@.map_values(|k: Vec<u32>| k@) =~= p.map_values(|s: Seq<char>| text_key(s)));
    let ord = sort_indices(&keys);
    let mut out: Vec<String> = Vec::new();
    let mut t: usize = 0;
    while t < ord.len()
        invariant
            t <= ord@.len(),
            ord@.len() == p.len(),
            p == string_texts(present@),
            forall|a: int| 0 <= a < ord@.len() ==> (#[trigger] ord@[a]) < p.len(),
            out@.len() == t,
            forall|a: int| 0 <= a < t ==> (#[trigger] out@[a])@ == p[ord@[a] as int],
        decreases ord@.len() - t,
    {
        out.push(present[ord[t]].clone());
        t = t + 1;
    }
    assert(sorted_names(p, ord@, string_texts(out@)));
    out
}

/// The key under which the helper pod of a claim is remembered.
pub fn pod_key(namespace: &str, pvc: &str) -> (r: String)
    ensures
        r@ == namespace@ + "/"@ + pvc@,
{
    let mut s = to_string(namespace);
    push_str(&mut s, "/");
    push_str(&mut s, pvc);
    s
}

/// What a helper pod's phase means while waiting for it to start.
#[derive(Debug, Clone)]
pub enum PodWait {
    /// The pod runs.
    Ready,
    /// The pod will not start; the message says why.
    Failed(String),
    /// Ask again later.
    Pending,
}

/// The meaning of a pod's reported phase: running is ready, failed or
/// unknown is a failure, anything else (or no phase) means waiting.
pub open spec fn pod_wait_spec(phase: Option<Seq<char>>, r: PodWait) -> bool {
    match phase {
        Some(p) => if p == "Running"@ {
            r is Ready
        } else if p == "Failed"@ || p == "Unknown"@ {
            r matches PodWait::Failed(m) && m@ == "Pod failed to start: "@ + p
        } else {
            r is Pending
        },
        None => r is Pending,
    }
}

/// What the reported phase of a starting helper pod means.
pub fn pod_wait(phase: Option<&str>) -> (r: PodWait)
    ensures
        pod_wait_spec(
            match phase {
                Some(p) => Some(p@),
                None => None,
            },
            r,
        ),
{
    match phase {
        Some(p) => {
            if crate::text::str_eq(p, "Running") {
                PodWait::Ready
            } else if crate::text::str_eq(p, "Failed") || crate::text::str_eq(p, "Unknown") {
                let mut m = to_string("Pod failed to start: ");
                push_str(&mut m, p);
                PodWait::Failed(m)
            } else {
                PodWait::Pending
            }
        },
        None => PodWait::Pending,
    }
}

} // verus!
