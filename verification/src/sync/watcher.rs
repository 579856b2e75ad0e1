//! File system change events and their debouncing.
use vstd::prelude::*;
use crate::text::to_string;
use crate::sync::throttle::{duration_as_nanos, instant_duration_since, instant_now};

verus! {

/// Whether two path strings name the same path for `Path`'s equality
/// (component by component).
pub uninterp spec fn path_eq(a: Seq<char>, b: Seq<char>) -> bool;

/// `Path::eq` on the paths spelled `a` and `b`; identical texts are equal
/// paths.
#[verifier::external_body]
fn paths_equal(a: &str, b: &str) -> (r: bool)
    ensures
        r == path_eq(a@, b@),
        a@ == b@ ==> r,
{
    std::path::Path::new(a) == std::path::Path::new(b)
}

/// Type of file system event.
#[derive(Debug, Clone, Copy, PartialEq, Eq, Structural)]
pub enum WatchEventKind {
    /// File or directory was created.
    Created,
    /// File was modified.
    Modified,
    /// File or directory was deleted.
    Deleted,
    /// File or directory was renamed (from path).
    RenamedFrom,
    /// File or directory was renamed (to path).
    RenamedTo,
    /// Other/unknown event.
    Other,
}

/// A file system watch event.
#[derive(Debug, Clone)]
pub struct WatchEvent {
    /// The kind of event.
    pub kind: WatchEventKind,
    /// The path(s) affected.
    pub paths: Vec<String>,
    /// Whether this affects a directory.
    pub is_dir: bool,
}

/// The texts of a list of paths.
pub open spec fn path_texts(v: Seq<String>) -> Seq<Seq<char>> {
    v.map_values(|s: String| s@)
}

/// A remembered event entry as path text and kind.
pub open spec fn entry_view(e: (std::time::Instant, String, WatchEventKind)) -> (
    Seq<char>,
    WatchEventKind,
) {
    (e.1@, e.2)
}

/// The remembered entries as path texts and kinds.
pub open spec fn entries_view(v: Seq<(std::time::Instant, String, WatchEventKind)>) -> Seq<
    (Seq<char>, WatchEventKind),
> {
    v.map_values(|e: (std::time::Instant, String, WatchEventKind)| entry_view(e))
}

/// Some entry records the same path (by path equality) with the same kind.
pub open spec fn is_duplicate(
    entries: Seq<(Seq<char>, WatchEventKind)>,
    path: Seq<char>,
    kind: WatchEventKind,
) -> bool {
    exists|i: int| 0 <= i < entries.len() && path_eq(#[trigger] entries[i].0, path) && entries[i].1 == kind
}

/// Entries for the paths `ps`, all of kind `kind`.
pub open spec fn entries_for(ps: Seq<Seq<char>>, kind: WatchEventKind) -> Seq<
    (Seq<char>, WatchEventKind),
> {
    ps.map_values(|p: Seq<char>| (p, kind))
}

/// The first path of `ps` found to duplicate a remembered entry, the paths
/// before it having been remembered in turn.
pub open spec fn first_duplicate(
    entries: Seq<(Seq<char>, WatchEventKind)>,
    ps: Seq<Seq<char>>,
    kind: WatchEventKind,
) -> Option<int>
    decreases ps.len(),
{
    if ps.len() == 0 {
        None
    } else {
        match first_duplicate(entries, ps.drop_last(), kind) {
            Some(j) => Some(j),
            None => if is_duplicate(
                entries + entries_for(ps.drop_last(), kind),
                ps.last(),
                kind,
            ) {
                Some(ps.len() - 1)
            } else {
                None
            },
        }
    }
}

/// The items of `s` whose flag in `mask` is set, in order.
pub open spec fn keep<T>(s: Seq<T>, mask: Seq<bool>) -> Seq<T>
    decreases s.len(),
{
    if s.len() == 0 || mask.len() == 0 {
        Seq::empty()
    } else {
        let p = keep(s.drop_last(), mask.drop_last());
        if mask.last() {
            p.push(s.last())
        } else {
            p
        }
    }
}

/// Every item kept from `s` is an item of `s`.
proof fn lemma_keep_within<T>(s: Seq<T>, mask: Seq<bool>)
    requires
        mask.len() == s.len(),
    ensures
        forall|k: int| 0 <= k < keep(s, mask).len() ==> s.contains(#[trigger] keep(s, mask)[k]),
    decreases s.len(),
{
    if s.len() > 0 {
        lemma_keep_within(s.drop_last(), mask.drop_last());
        let p = keep(s.drop_last(), mask.drop_last());
        assert forall|k: int| 0 <= k < keep(s, mask).len() implies s.contains(
            #[trigger] keep(s, mask)[k],
        ) by {
            if k < p.len() {
                let j = choose|j: int| 0 <= j < s.drop_last().len() && s.drop_last()[j] == p[k];
                assert(s[j] == p[k]);
            } else {
                assert(s[s.len() - 1] == s.last());
            }
        }
    }
}

/// The entries that the events `evs` would have remembered, every path of
/// each in turn.
pub open spec fn prior_entries(evs: Seq<WatchEvent>) -> Seq<(Seq<char>, WatchEventKind)>
    decreases evs.len(),
{
    if evs.len() == 0 {
        Seq::empty()
    } else {
        prior_entries(evs.drop_last()) + entries_for(path_texts(evs.last().paths@), evs.last().kind)
    }
}

/// What checking and remembering the paths `ps` of kind `kind` against the
/// entries `before` gives: the answer `r` (no path duplicated) and the
/// entries `after`, those before followed by the paths remembered up to the
/// first duplicate.
pub open spec fn records(
    before: Seq<(Seq<char>, WatchEventKind)>,
    ps: Seq<Seq<char>>,
    kind: WatchEventKind,
    r: bool,
    after: Seq<(Seq<char>, WatchEventKind)>,
) -> bool {
    &&& r == (first_duplicate(before, ps, kind) is None)
    &&& after == before + entries_for(
        ps.take(
            match first_duplicate(before, ps, kind) {
                Some(j) => j,
                None => ps.len() as int,
            },
        ),
        kind,
    )
}

/// The first duplicate is one of the paths.
proof fn lemma_first_duplicate_in_range(
    entries: Seq<(Seq<char>, WatchEventKind)>,
    ps: Seq<Seq<char>>,
    kind: WatchEventKind,
)
    ensures
        first_duplicate(entries, ps, kind) matches Some(j) ==> 0 <= j < ps.len(),
    decreases ps.len(),
{
    if ps.len() > 0 {
        lemma_first_duplicate_in_range(entries, ps.drop_last(), kind);
    }
}

/// Handling the events `evs` one after the other went through the entry
/// lists `states` (the first before any event): before event `j`, the
/// entries outside the window were forgotten as `expiries[j]` says, then
/// its paths were checked and remembered (`records`), `kept[j]` telling
/// whether it was kept.
pub open spec fn handled_in_turn(
    evs: Seq<WatchEvent>,
    expiries: Seq<Seq<bool>>,
    states: Seq<Seq<(Seq<char>, WatchEventKind)>>,
    kept: Seq<bool>,
) -> bool {
    &&& states.len() == evs.len() + 1
    &&& expiries.len() == evs.len()
    &&& kept.len() == evs.len()
    &&& forall|j: int|
        0 <= j < evs.len() ==> (#[trigger] expiries[j]).len() == states[j].len() && records(
            keep(states[j], expiries[j]),
            path_texts(evs[j].paths@),
            evs[j].kind,
            kept[j],
            states[j + 1],
        )
}

/// Filtering events handles each in turn exactly as `should_process` does
/// one: from the entries remembered before it, with some of them expired
/// by the clock, the event is kept or dropped and the entries remembered
/// after it are those `should_process` would leave.
pub proof fn lemma_filter_is_successive_should_process(
    evs: Seq<WatchEvent>,
    expiries: Seq<Seq<bool>>,
    states: Seq<Seq<(Seq<char>, WatchEventKind)>>,
    kept: Seq<bool>,
    j: int,
)
    requires
        handled_in_turn(evs, expiries, states, kept),
        0 <= j < evs.len(),
    ensures
        exists|mask: Seq<bool>|
            mask.len() == states[j].len() && records(
                keep(states[j], mask),
                path_texts(evs[j].paths@),
                evs[j].kind,
                kept[j],
                states[j + 1],
            ),
{
    assert(expiries[j].len() == states[j].len());
}

/// A duplicate found among some entries is found among any entries that
/// hold all of them.
proof fn lemma_first_duplicate_more(
    a: Seq<(Seq<char>, WatchEventKind)>,
    b: Seq<(Seq<char>, WatchEventKind)>,
    ps: Seq<Seq<char>>,
    kind: WatchEventKind,
)
    requires
        forall|k: int| 0 <= k < a.len() ==> b.contains(#[trigger] a[k]),
        first_duplicate(a, ps, kind) is Some,
    ensures
        first_duplicate(b, ps, kind) is Some,
    decreases ps.len(),
{
    if first_duplicate(a, ps.drop_last(), kind) is Some {
        lemma_first_duplicate_more(a, b, ps.drop_last(), kind);
    } else {
        let x = entries_for(ps.drop_last(), kind);
        let ax = a + x;
        let bx = b + x;
        let i = choose|i: int| 0 <= i < ax.len() && path_eq(#[trigger] ax[i].0, ps.last()) && ax[i].1 == kind;
        if i < a.len() {
            assert(b.contains(a[i]));
            let j = choose|j: int| 0 <= j < b.len() && b[j] == a[i];
            assert(bx[j] == a[i]);
            assert(is_duplicate(bx, ps.last(), kind));
        } else {
            assert(bx[b.len() + (i - a.len())] == ax[i]);
            assert(is_duplicate(bx, ps.last(), kind));
        }
    }
}

/// Event debouncer to avoid duplicate events.
#[derive(Debug)]
pub struct EventDebouncer {
    /// Debounce window in milliseconds.
    window_ms: u64,
    /// Recent events for deduplication.
    recent: Vec<(std::time::Instant, String, WatchEventKind)>,
}

proof fn lemma_first_duplicate_prefix(
    entries: Seq<(Seq<char>, WatchEventKind)>,
    ps: Seq<Seq<char>>,
    kind: WatchEventKind,
    n: int,
)
    requires
        0 <= n <= ps.len(),
        first_duplicate(entries, ps.take(n), kind) is Some,
    ensures
        first_duplicate(entries, ps, kind) == first_duplicate(entries, ps.take(n), kind),
    decreases ps.len() - n,
{
    if n < ps.len() {
        assert(ps.take(n + 1).drop_last() =~= ps.take(n));
        lemma_first_duplicate_prefix(entries, ps, kind, n + 1);
    } else {
        assert(ps.take(n) =~= ps);
    }
}

impl EventDebouncer {
    /// The debounce window in milliseconds.
    pub closed spec fn window(&self) -> u64 {
        self.window_ms
    }

    /// The remembered events as path texts and kinds, oldest first.
    pub closed spec fn remembered(&self) -> Seq<(Seq<char>, WatchEventKind)> {
        entries_view(self.recent@)
    }

    /// Create a new debouncer with the given window.
    pub fn new(window_ms: u64) -> (r: Self)
        ensures
            r.window() == window_ms,
            r.remembered() == Seq::<(Seq<char>, WatchEventKind)>::empty(),
    {
        let r = EventDebouncer { window_ms, recent: Vec::new() };
        assert(entries_view(r.recent@) =~= Seq::<(Seq<char>, WatchEventKind)>::empty());
        r
    }

    /// Default debouncer (100ms window).
    pub fn default_window() -> (r: Self)
        ensures
            r.window() == 100,
            r.remembered() == Seq::<(Seq<char>, WatchEventKind)>::empty(),
    {
        Self::new(100)
    }

    /// Forgets the remembered events that are not within the window of
    /// `now`; which ones those are depends on the clock, the others stay in
    /// order.
    fn expire(&mut self, now: &std::time::Instant)
        ensures
            final(self).window() == old(self).window(),
            exists|mask: Seq<bool>|
                mask.len() == old(self).remembered().len() && final(self).remembered() == keep(
                    old(self).remembered(),
                    mask,
                ),
    {
        let mut kept: Vec<(std::time::Instant, String, WatchEventKind)> = Vec::new();
        let mut old_recent: Vec<(std::time::Instant, String, WatchEventKind)> = Vec::new();
        std::mem::swap(&mut old_recent, &mut self.recent);
        let ghost all = entries_view(old_recent@);
        let ghost mut mask: Seq<bool> = Seq::empty();
        let n = old_recent.len();
        let mut i: usize = 0;
        assert(entries_view(kept@) =~= keep(all.take(0), mask));
        while i < n
            invariant
                n == old_recent@.len(),
                old_recent@ == old(self).recent@,
                all == entries_view(old_recent@),
                i <= n,
                mask.len() == i,
                entries_view(kept@) == keep(all.take(i as int), mask),
                self.window_ms == old(self).window_ms,
            decreases n - i,
        {
            let ghost prev = kept@;
            let since = instant_duration_since(now, &old_recent[i].0);
            let keep_it = duration_as_nanos(&since) < (self.window_ms as u128) * 1_000_000;
            if keep_it {
                let entry = (old_recent[i].0, old_recent[i].1.clone(), old_recent[i].2);
                kept.push(entry);
                assert(entries_view(kept@) =~= entries_view(prev).push(all[i as int]));
            }
            proof {
                let m2 = mask.push(keep_it);
                assert(all.take(i + 1).drop_last() =~= all.take(i as int));
                assert(m2.drop_last() =~= mask);
                assert(all.take(i + 1).last() == all[i as int]);
                mask = m2;
            }
            i = i + 1;
        }
        assert(all.take(n as int) =~= all);
        self.recent = kept;
        assert(self.remembered() == keep(old(self).remembered(), mask));
    }

    /// Checks the paths of `event`, in order, against the remembered events
    /// and remembers each one (stamped `now`) until one duplicates a
    /// remembered path of the same kind; returns whether none did.
    pub fn record_event(&mut self, event: &WatchEvent, now: std::time::Instant) -> (r: bool)
        ensures
            final(self).window() == old(self).window(),
            r == (first_duplicate(old(self).remembered(), path_texts(event.paths@), event.kind)
                is None),
            final(self).remembered() == old(self).remembered() + entries_for(
                path_texts(event.paths@).take(
                    match first_duplicate(
                        old(self).remembered(),
                        path_texts(event.paths@),
                        event.kind,
                    ) {
                        Some(j) => j,
                        None => event.paths@.len() as int,
                    },
                ),
                event.kind,
            ),
    {
        let ghost base = entries_view(self.recent@);
        let ghost ps = path_texts(event.paths@);
        let mut j: usize = 0;
        while j < event.paths.len()
            invariant
                j <= event.paths@.len(),
                ps == path_texts(event.paths@),
                self.window_ms == old(self).window_ms,
                base == old(self).remembered(),
                first_duplicate(base, ps.take(j as int), event.kind) is None,
                entries_view(self.recent@) == base + entries_for(ps.take(j as int), event.kind),
            decreases event.paths@.len() - j,
        {
            let path = event.paths[j].as_str();
            let mut dup = false;
            let mut k: usize = 0;
            while k < self.recent.len() && !dup
                invariant
                    k <= self.recent@.len(),
                    dup ==> k < self.recent@.len() && path_eq(
                        entries_view(self.recent@)[k as int].0,
                        path@,
                    ) && entries_view(self.recent@)[k as int].1 == event.kind,
                    !dup ==> forall|m: int|
                        0 <= m < k ==> !(path_eq(#[trigger] entries_view(self.recent@)[m].0, path@)
                            && entries_view(self.recent@)[m].1 == event.kind),
                decreases self.recent@.len() - k, if dup { 0int } else { 1int },
            {
                let same_path = paths_equal(self.recent[k].1.as_str(), path);
                if same_path && self.recent[k].2 == event.kind {
                    dup = true;
                } else {
                    k = k + 1;
                }
            }
            proof {
                let t = ps.take(j + 1);
                assert(t.drop_last() =~= ps.take(j as int));
                assert(t.last() == path@);
            }
            if dup {
                proof {
                    let es = entries_view(self.recent@);
                    assert(path_eq(es[k as int].0, path@) && es[k as int].1 == event.kind);
                    lemma_first_duplicate_prefix(base, ps, event.kind, j + 1);
                }
                return false;
            }
            let ghost prev = self.recent@;
            self.recent.push((now, event.paths[j].clone(), event.kind));
            proof {
                assert(entries_view(self.recent@) =~= entries_view(prev).push((path@, event.kind)));
                assert(entries_for(ps.take(j + 1), event.kind) =~= entries_for(
                    ps.take(j as int),
                    event.kind,
                ).push((path@, event.kind)));
                assert forall|m: int| 0 <= m < entries_view(prev).len() implies !(path_eq(
                    #[trigger] entries_view(prev)[m].0,
                    path@,
                ) && entries_view(prev)[m].1 == event.kind) by {}
            }
            j = j + 1;
        }
        assert(ps.take(j as int) =~= ps);
        true
    }

    /// Check if an event should be processed (not a duplicate): the
    /// remembered events outside the window are forgotten first (which
    /// depends on the clock), then `record_event` decides with the current
    /// time.
    pub fn should_process(&mut self, event: &WatchEvent) -> (r: bool)
        ensures
            final(self).window() == old(self).window(),
            exists|mask: Seq<bool>|
                mask.len() == old(self).remembered().len() && records(
                    keep(old(self).remembered(), mask),
                    path_texts(event.paths@),
                    event.kind,
                    r,
                    final(self).remembered(),
                ),
    {
        let t = instant_now();
        self.expire(&t);
        let ghost mid = self.remembered();
        let r = self.record_event(event, t);
        proof {
            let mask = choose|mask: Seq<bool>|
                mask.len() == old(self).remembered().len() && mid == keep(old(self).remembered(), mask);
            assert(records(keep(old(self).remembered(), mask), path_texts(event.paths@), event.kind, r, self.remembered()));
        }
        r
    }

    /// Process events and return only non-duplicate ones, in order: each
    /// event in turn is checked as `should_process` does, which remembered
    /// entries are still in the window depending on the clock. So an event
    /// is dropped only when one of its paths duplicates, with the same kind,
    /// a remembered entry, an entry of an earlier event or an earlier path
    /// of its own.
    pub fn filter(&mut self, events: Vec<WatchEvent>) -> (r: Vec<WatchEvent>)
        ensures
            final(self).window() == old(self).window(),
            exists|expiries: Seq<Seq<bool>>, states: Seq<Seq<(Seq<char>, WatchEventKind)>>, kept: Seq<bool>|
                {
                    &&& handled_in_turn(events@, expiries, states, kept)
                    &&& states[0] == old(self).remembered()
                    &&& states[events@.len() as int] == final(self).remembered()
                    &&& r@ == keep(events@, kept)
                },
            exists|mask: Seq<bool>|
                {
                    &&& mask.len() == events@.len()
                    &&& r@ == keep(events@, mask)
                    &&& forall|i: int|
                        0 <= i < events@.len() && !(#[trigger] mask[i]) ==> first_duplicate(
                            old(self).remembered() + prior_entries(events@.take(i)),
                            path_texts(events@[i].paths@),
                            events@[i].kind,
                        ) is Some
                },
    {
        let ghost evs = events@;
        let ghost base = self.remembered();
        let ghost mut mask: Seq<bool> = Seq::empty();
        let ghost mut expiries: Seq<Seq<bool>> = Seq::empty();
        let ghost mut states: Seq<Seq<(Seq<char>, WatchEventKind)>> = seq![base];
        let mut out: Vec<WatchEvent> = Vec::new();
        let mut events = events;
        let n = events.len();
        let mut i: usize = 0;
        assert(evs.skip(0) =~= evs);
        assert(prior_entries(evs.take(0)) =~= Seq::<(Seq<char>, WatchEventKind)>::empty());
        assert forall|k: int| 0 <= k < self.remembered().len() implies (base + prior_entries(
            evs.take(0),
        )).contains(#[trigger] self.remembered()[k]) by {
            assert((base + prior_entries(evs.take(0)))[k] == base[k]);
        }
        while events.len() > 0
            invariant
                n == evs.len(),
                base == old(self).remembered(),
                i <= n,
                events@ == evs.skip(i as int),
                mask.len() == i,
                out@ == keep(evs.take(i as int), mask),
                handled_in_turn(evs.take(i as int), expiries, states, mask),
                states[0] == base,
                states[i as int] == self.remembered(),
                forall|j: int|
                    0 <= j < i && !(#[trigger] mask[j]) ==> first_duplicate(
                        base + prior_entries(evs.take(j)),
                        path_texts(evs[j].paths@),
                        evs[j].kind,
                    ) is Some,
                forall|k: int|
                    0 <= k < self.remembered().len() ==> (base + prior_entries(
                        evs.take(i as int),
                    )).contains(#[trigger] self.remembered()[k]),
                self.window() == old(self).window(),
            decreases events@.len(),
        {
            let ghost cur = self.remembered();
            let ghost big = base + prior_entries(evs.take(i as int));
            let e = events.remove(0);
            assert(e == evs[i as int]);
            let ghost ps = path_texts(e.paths@);
            let ghost big2 = base + prior_entries(evs.take(i + 1));
            proof {
                assert(evs.take(i + 1).drop_last() =~= evs.take(i as int));
                assert(evs.take(i + 1).last() == e);
                assert(big2 =~= big + entries_for(ps, e.kind));
            }
            let ghost prev_out = out@;
            let keep_it = self.should_process(&e);
            proof {
                let m = choose|m: Seq<bool>|
                    m.len() == cur.len() && records(keep(cur, m), ps, e.kind, keep_it, self.remembered());
                let kept = keep(cur, m);
                let ex2 = expiries.push(m);
                let st2 = states.push(self.remembered());
                let mk2 = mask.push(keep_it);
                let ev2 = evs.take(i + 1);
                assert(ev2[i as int] == e);
                assert forall|j: int| 0 <= j < ev2.len() implies (#[trigger] ex2[j]).len() == st2[j].len()
                    && records(
                    keep(st2[j], ex2[j]),
                    path_texts(ev2[j].paths@),
                    ev2[j].kind,
                    mk2[j],
                    st2[j + 1],
                ) by {
                    if j < i {
                        assert(ex2[j] == expiries[j]);
                        assert(st2[j] == states[j]);
                        assert(st2[j + 1] == states[j + 1]);
                        assert(mk2[j] == mask[j]);
                        assert(ev2[j] == evs.take(i as int)[j]);
                    } else {
                        assert(st2[j] == cur);
                    }
                }
                expiries = ex2;
                states = st2;
                lemma_keep_within(cur, m);
                assert forall|k: int| 0 <= k < kept.len() implies big.contains(#[trigger] kept[k]) by {
                    assert(cur.contains(kept[k]));
                    let j = choose|j: int| 0 <= j < cur.len() && cur[j] == kept[k];
                    assert(big.contains(cur[j]));
                }
                if !keep_it {
                    lemma_first_duplicate_more(kept, big, ps, e.kind);
                }
                lemma_first_duplicate_in_range(kept, ps, e.kind);
                let t = match first_duplicate(kept, ps, e.kind) {
                    Some(j) => j,
                    None => ps.len() as int,
                };
                let added = entries_for(ps.take(t), e.kind);
                assert forall|k: int| 0 <= k < self.remembered().len() implies big2.contains(
                    #[trigger] self.remembered()[k],
                ) by {
                    if k < kept.len() {
                        assert(self.remembered()[k] == kept[k]);
                        assert(big.contains(kept[k]));
                        let j = choose|j: int| 0 <= j < big.len() && big[j] == kept[k];
                        assert(big2[j] == big[j]);
                    } else {
                        let q = k - kept.len();
                        assert(self.remembered()[k] == added[q]);
                        assert(added[q] == entries_for(ps, e.kind)[q]);
                        assert(big2[big.len() + q] == entries_for(ps, e.kind)[q]);
                    }
                }
            }
            if keep_it {
                out.push(e);
            }
            proof {
                let m2 = mask.push(keep_it);
                assert(evs.take(i + 1).drop_last() =~= evs.take(i as int));
                assert(m2.drop_last() =~= mask);
                assert(evs.skip(i + 1) =~= evs.skip(i as int).drop_first());
                assert forall|j: int|
                    0 <= j < i + 1 && !(#[trigger] m2[j]) implies first_duplicate(
                    base + prior_entries(evs.take(j)),
                    path_texts(evs[j].paths@),
                    evs[j].kind,
                ) is Some by {
                    if j < i {
                        assert(m2[j] == mask[j]);
                    }
                }
                mask = m2;
            }
            i = i + 1;
        }
        assert(evs.take(i as int) =~= evs);
        assert(handled_in_turn(evs, expiries, states, mask));
        out
    }
}

} // verus!
