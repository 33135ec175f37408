//! Combining two record sequences: pairing, merging, grouping by source.
use vstd::prelude::*;
use crate::aggregate::{derefs, source_keys};
use crate::analyze::idx;
use crate::group::{group_by_text, groups_view, is_grouping, positions_of, text_keys};
use crate::record::{meta_text, LogEntry};
use crate::window::times;

verus! {

/// The distance between two points in time.
pub open spec fn gap(a: int, b: int) -> int {
    if a >= b {
        a - b
    } else {
        b - a
    }
}

/// Position `j` of `ts` is within `tol` of `t`, and no position is nearer;
/// of equally near positions it is the first.
pub open spec fn is_nearest(ts: Seq<int>, t: int, tol: int, j: int) -> bool {
    &&& 0 <= j < ts.len()
    &&& gap(ts[j], t) <= tol
    &&& forall|k: int|
        0 <= k < ts.len() ==> gap(ts[j], t) < gap(#[trigger] ts[k], t) || (gap(ts[j], t) == gap(
            ts[k],
            t,
        ) && j <= k)
}

/// No position of `ts` is within `tol` of `t`.
pub open spec fn none_within(ts: Seq<int>, t: int, tol: int) -> bool {
    forall|k: int| 0 <= k < ts.len() ==> gap(#[trigger] ts[k], t) > tol
}

/// Position `j` of `s` is the last record whose metadata holds `v` under `key`.
pub open spec fn is_last_with(s: Seq<LogEntry>, key: Seq<char>, v: Seq<char>, j: int) -> bool {
    &&& 0 <= j < s.len()
    &&& meta_text(s[j], key) == Some(v)
    &&& forall|k: int| j < k < s.len() ==> meta_text(#[trigger] s[k], key) != Some(v)
}

/// No record of `s` holds `v` under `key`.
pub open spec fn none_with(s: Seq<LogEntry>, key: Seq<char>, v: Seq<char>) -> bool {
    forall|k: int| 0 <= k < s.len() ==> meta_text(#[trigger] s[k], key) != Some(v)
}

/// Position `x` comes before position `y` when ordering by `keys`, ties
/// going by position.
pub open spec fn before(keys: Seq<int>, x: int, y: int) -> bool {
    keys[x] < keys[y] || (keys[x] == keys[y] && x < y)
}

/// `ord` lists every position of `keys` once, ordered by key, positions with
/// equal keys in their original order: a stable sort.
pub open spec fn is_stable_order(keys: Seq<int>, ord: Seq<int>) -> bool {
    &&& ord.len() == keys.len()
    &&& forall|a: int| 0 <= a < ord.len() ==> 0 <= #[trigger] ord[a] < keys.len()
    &&& forall|a: int, b: int| 0 <= a < b < ord.len() ==> before(keys, #[trigger] ord[a], #[trigger] ord[b])
}

/// A primary record and the secondary record paired with it, if any.
#[derive(Debug)]
pub struct CombinedEntry<'a> {
    pub primary: &'a LogEntry,
    pub secondary: Option<&'a LogEntry>,
}

/// Records grouped by source, in order of first occurrence.
#[derive(Debug)]
pub struct SourceGroups<'a> {
    pub groups: Vec<(String, Vec<&'a LogEntry>)>,
}

impl<'a> SourceGroups<'a> {
    /// The records of source `source`, if it has any.
    pub fn get(&self, source: &str) -> (r: Option<&Vec<&'a LogEntry>>)
        ensures
            match r {
                Some(v) => exists|a: int|
                    0 <= a < self.groups@.len() && self.groups@[a].0@ == source@ && self.groups@[a].1
                        == *v,
                None => forall|a: int| 0 <= a < self.groups@.len() ==> self.groups@[a].0@ != source@,
            },
    {
        let wanted = source.to_owned();
        let mut a: usize = 0;
        while a < self.groups.len()
            invariant
                a <= self.groups@.len(),
                wanted@ == source@,
                forall|b: int| 0 <= b < a ==> self.groups@[b].0@ != source@,
            decreases self.groups@.len() - a,
        {
            if self.groups[a].0 == wanted {
                return Some(&self.groups[a].1);
            }
            a = a + 1;
        }
        None
    }

    /// The number of sources.
    pub fn len(&self) -> (r: usize)
        ensures
            r == self.groups@.len(),
    {
        self.groups.len()
    }
}

/// The first of the nearest records of `entries` within `tol_ms` of `t`.
fn nearest_within(entries: &[LogEntry], t: i64, tol_ms: i64) -> (r: Option<usize>)
    ensures
        match r {
            Some(j) => is_nearest(times(entries@), t as int, tol_ms as int, j as int),
            None => none_within(times(entries@), t as int, tol_ms as int),
        },
{
    let ghost ts = times(entries@);
    let mut best: Option<usize> = None;
    let mut best_gap: i128 = 0;
    let mut k: usize = 0;
    while k < entries.len()
        invariant
            ts == times(entries@),
            k <= entries@.len(),
            match best {
                Some(j) => j < k && best_gap == gap(ts[j as int], t as int) && best_gap <= tol_ms
                    && forall|m: int|
                    0 <= m < k ==> best_gap < gap(#[trigger] ts[m], t as int) || (best_gap == gap(
                        ts[m],
                        t as int,
                    ) && j <= m),
                None => forall|m: int| 0 <= m < k ==> gap(#[trigger] ts[m], t as int) > tol_ms,
            },
        decreases entries@.len() - k,
    {
        let tk = entries[k].timestamp.millis as i128;
        let t128 = t as i128;
        let g = if tk >= t128 {
            tk - t128
        } else {
            t128 - tk
        };
        assert(g == gap(ts[k as int], t as int));
        if g <= tol_ms as i128 {
            match best {
                Some(_) => {
                    if g < best_gap {
                        best = Some(k);
                        best_gap = g;
                    }
                },
                None => {
                    best = Some(k);
                    best_gap = g;
                },
            }
        }
        k = k + 1;
    }
    best
}

/// The last record of `entries` whose metadata holds `v` under `key`.
fn last_with(entries: &[LogEntry], key: &str, v: &String) -> (r: Option<usize>)
    ensures
        match r {
            Some(j) => is_last_with(entries@, key@, v@, j as int),
            None => none_with(entries@, key@, v@),
        },
{
    let mut k: usize = entries.len();
    while k > 0
        invariant
            k <= entries@.len(),
            forall|m: int| k <= m < entries@.len() ==> meta_text(#[trigger] entries@[m], key@) != Some(v@),
        decreases k,
    {
        k = k - 1;
        match entries[k].metadata_text(key) {
            Some(w) => {
                if *w == *v {
                    return Some(k);
                }
            },
            None => {},
        }
    }
    None
}

proof fn lemma_insert_sorted(keys: Seq<int>, ord: Seq<int>, pos: int, i: int)
    requires
        0 <= pos <= ord.len(),
        0 <= i < keys.len(),
        forall|a: int| 0 <= a < ord.len() ==> 0 <= #[trigger] ord[a] < i,
        forall|a: int, b: int| 0 <= a < b < ord.len() ==> before(keys, #[trigger] ord[a], #[trigger] ord[b]),
        forall|a: int| 0 <= a < pos ==> keys[#[trigger] ord[a]] <= keys[i],
        forall|a: int| pos <= a < ord.len() ==> keys[#[trigger] ord[a]] > keys[i],
    ensures
        forall|a: int| 0 <= a < ord.insert(pos, i).len() ==> 0 <= #[trigger] ord.insert(pos, i)[a] <= i,
        forall|a: int, b: int|
            0 <= a < b < ord.insert(pos, i).len() ==> before(
                keys,
                #[trigger] ord.insert(pos, i)[a],
                #[trigger] ord.insert(pos, i)[b],
            ),
{
    let nw = ord.insert(pos, i);
    ord.insert_ensures(pos, i);
    assert forall|a: int| 0 <= a < nw.len() implies 0 <= #[trigger] nw[a] <= i by {
        if a > pos {
            assert(nw[a] == ord[a - 1]);
        }
    }
    assert forall|a: int, b: int| 0 <= a < b < nw.len() implies before(keys, #[trigger] nw[a], #[trigger] nw[b]) by {
        if b < pos {
            assert(before(keys, ord[a], ord[b]));
        } else if b == pos {
            assert(keys[ord[a]] <= keys[i]);
        } else if a < pos {
            assert(nw[b] == ord[b - 1]);
            assert(before(keys, ord[a], ord[b - 1]));
        } else if a == pos {
            assert(nw[b] == ord[b - 1]);
            assert(keys[ord[b - 1]] > keys[i]);
        } else {
            assert(nw[b] == ord[b - 1]);
            assert(nw[a] == ord[a - 1]);
            assert(before(keys, ord[a - 1], ord[b - 1]));
        }
    }
}

pub struct LogCombiner<'a> {
    primary_entries: &'a [LogEntry],
    secondary_entries: &'a [LogEntry],
}

impl<'a> LogCombiner<'a> {
    /// The primary records.
    pub closed spec fn primary(&self) -> Seq<LogEntry> {
        self.primary_entries@
    }

    /// The secondary records.
    pub closed spec fn secondary(&self) -> Seq<LogEntry> {
        self.secondary_entries@
    }

    pub fn new(primary_entries: &'a [LogEntry], secondary_entries: &'a [LogEntry]) -> (r: Self)
        ensures
            r.primary() == primary_entries@,
            r.secondary() == secondary_entries@,
    {
        LogCombiner { primary_entries, secondary_entries }
    }

    /// Pairs each primary record with the secondary record nearest in time
    /// within `tolerance_ms` milliseconds; of equally near ones, the first.
    pub fn combine_by_timestamp(&self, tolerance_ms: i64) -> (r: Vec<CombinedEntry<'a>>)
        ensures
            r@.len() == self.primary().len(),
            forall|i: int|
                0 <= i < r@.len() ==> *(#[trigger] r@[i]).primary == self.primary()[i] && match r@[i].secondary {
                    Some(e) => exists|j: int|
                        is_nearest(
                            times(self.secondary()),
                            self.primary()[i].timestamp.millis as int,
                            tolerance_ms as int,
                            j,
                        ) && *e == self.secondary()[j],
                    None => none_within(
                        times(self.secondary()),
                        self.primary()[i].timestamp.millis as int,
                        tolerance_ms as int,
                    ),
                },
    {
        let mut r: Vec<CombinedEntry<'a>> = Vec::new();
        let mut i: usize = 0;
        while i < self.primary_entries.len()
            invariant
                i <= self.primary_entries@.len(),
                r@.len() == i,
                forall|m: int|
                    0 <= m < i ==> *(#[trigger] r@[m]).primary == self.primary_entries@[m] && match r@[m].secondary {
                        Some(e) => exists|j: int|
                            is_nearest(
                                times(self.secondary_entries@),
                                self.primary_entries@[m].timestamp.millis as int,
                                tolerance_ms as int,
                                j,
                            ) && *e == self.secondary_entries@[j],
                        None => none_within(
                            times(self.secondary_entries@),
                            self.primary_entries@[m].timestamp.millis as int,
                            tolerance_ms as int,
                        ),
                    },
            decreases self.primary_entries@.len() - i,
        {
            let p = &self.primary_entries[i];
            let secondary = match nearest_within(self.secondary_entries, p.timestamp.millis, tolerance_ms) {
                Some(j) => Some(&self.secondary_entries[j]),
                None => None,
            };
            r.push(CombinedEntry { primary: p, secondary });
            i = i + 1;
        }
        proof {
            assert(self.primary() == self.primary_entries@);
            assert(self.secondary() == self.secondary_entries@);
        }
        r
    }

    /// Pairs each primary record that holds a value under `key` with the last
    /// secondary record that holds the same value there.
    pub fn combine_by_metadata_key(&self, key: &str) -> (r: Vec<CombinedEntry<'a>>)
        ensures
            r@.len() == self.primary().len(),
            forall|i: int|
                0 <= i < r@.len() ==> *(#[trigger] r@[i]).primary == self.primary()[i] && match r@[i].secondary {
                    Some(e) => exists|v: Seq<char>, j: int|
                        meta_text(self.primary()[i], key@) == Some(v) && is_last_with(
                            self.secondary(),
                            key@,
                            v,
                            j,
                        ) && *e == self.secondary()[j],
                    None => match meta_text(self.primary()[i], key@) {
                        Some(v) => none_with(self.secondary(), key@, v),
                        None => true,
                    },
                },
    {
        let mut r: Vec<CombinedEntry<'a>> = Vec::new();
        let mut i: usize = 0;
        while i < self.primary_entries.len()
            invariant
                i <= self.primary_entries@.len(),
                r@.len() == i,
                forall|m: int|
                    0 <= m < i ==> *(#[trigger] r@[m]).primary == self.primary_entries@[m] && match r@[m].secondary {
                        Some(e) => exists|v: Seq<char>, j: int|
                            meta_text(self.primary_entries@[m], key@) == Some(v) && is_last_with(
                                self.secondary_entries@,
                                key@,
                                v,
                                j,
                            ) && *e == self.secondary_entries@[j],
                        None => match meta_text(self.primary_entries@[m], key@) {
                            Some(v) => none_with(self.secondary_entries@, key@, v),
                            None => true,
                        },
                    },
            decreases self.primary_entries@.len() - i,
        {
            let p = &self.primary_entries[i];
            let secondary = match p.metadata_text(key) {
                Some(v) => match last_with(self.secondary_entries, key, v) {
                    Some(j) => Some(&self.secondary_entries[j]),
                    None => None,
                },
                None => None,
            };
            r.push(CombinedEntry { primary: p, secondary });
            i = i + 1;
        }
        proof {
            assert(self.primary() == self.primary_entries@);
            assert(self.secondary() == self.secondary_entries@);
        }
        r
    }

    /// The timestamp of position `i` of the primary records followed by the secondary ones.
    fn time_at(&self, i: usize) -> (r: i64)
        requires
            i < self.primary_entries@.len() + self.secondary_entries@.len(),
        ensures
            r == times(self.primary_entries@ + self.secondary_entries@)[i as int],
    {
        if i < self.primary_entries.len() {
            self.primary_entries[i].timestamp.millis
        } else {
            self.secondary_entries[i - self.primary_entries.len()].timestamp.millis
        }
    }

    /// The primary records followed by the secondary ones, stably sorted by
    /// timestamp: records with equal timestamps keep that order, primary
    /// records before secondary ones.
    pub fn merge_chronologically(&self) -> (r: Vec<&'a LogEntry>)
        requires
            self.primary().len() + self.secondary().len() <= usize::MAX,
        ensures
            exists|ord: Seq<int>|
                is_stable_order(times(self.primary() + self.secondary()), ord) && derefs(r@)
                    == ord.map_values(|p: int| (self.primary() + self.secondary())[p]),
    {
        let ghost all = self.primary_entries@ + self.secondary_entries@;
        let ghost keys = times(all);
        let np = self.primary_entries.len();
        let n = np + self.secondary_entries.len();
        let mut ord: Vec<usize> = Vec::new();
        let mut i: usize = 0;
        while i < n
            invariant
                all == self.primary_entries@ + self.secondary_entries@,
                keys == times(all),
                n == all.len(),
                np == self.primary_entries@.len(),
                i <= n,
                ord@.len() == i,
                forall|a: int| 0 <= a < ord@.len() ==> 0 <= #[trigger] idx(ord@)[a] < i,
                forall|a: int, b: int|
                    0 <= a < b < ord@.len() ==> before(keys, #[trigger] idx(ord@)[a], #[trigger] idx(ord@)[b]),
            decreases n - i,
        {
            let ki = self.time_at(i);
            let mut pos: usize = ord.len();
            let mut settled = false;
            while pos > 0 && !settled
                invariant
                    all == self.primary_entries@ + self.secondary_entries@,
                    keys == times(all),
                    n == all.len(),
                    i < n,
                    ki == keys[i as int],
                    pos <= ord@.len(),
                    ord@.len() == i,
                    forall|a: int| 0 <= a < ord@.len() ==> 0 <= #[trigger] idx(ord@)[a] < i,
                    forall|a: int, b: int|
                        0 <= a < b < ord@.len() ==> before(keys, #[trigger] idx(ord@)[a], #[trigger] idx(ord@)[b]),
                    forall|a: int| pos <= a < ord@.len() ==> keys[#[trigger] idx(ord@)[a]] > ki,
                    settled ==> pos > 0 && keys[idx(ord@)[pos - 1]] <= ki,
                decreases pos + if settled { 0int } else { 1int },
            {
                assert(idx(ord@)[pos - 1] == ord@[pos - 1]);
                if self.time_at(ord[pos - 1]) <= ki {
                    settled = true;
                } else {
                    pos = pos - 1;
                }
            }
            proof {
                let o = idx(ord@);
                assert forall|a: int| 0 <= a < pos implies keys[#[trigger] o[a]] <= keys[i as int] by {
                    if a < pos - 1 {
                        assert(before(keys, o[a], o[pos - 1]));
                    }
                }
                lemma_insert_sorted(keys, o, pos as int, i as int);
            }
            let ghost before_insert = ord@;
            ord.insert(pos, i);
            proof {
                assert(idx(ord@) =~= idx(before_insert).insert(pos as int, i as int));
            }
            i = i + 1;
        }
        let mut r: Vec<&'a LogEntry> = Vec::new();
        let mut k: usize = 0;
        while k < n
            invariant
                all == self.primary_entries@ + self.secondary_entries@,
                n == all.len(),
                np == self.primary_entries@.len(),
                ord@.len() == n,
                forall|a: int| 0 <= a < ord@.len() ==> 0 <= #[trigger] idx(ord@)[a] < n,
                k <= n,
                derefs(r@) == idx(ord@).take(k as int).map_values(|p: int| all[p]),
            decreases n - k,
        {
            let p = ord[k];
            assert(idx(ord@)[k as int] == p);
            let e = if p < np {
                &self.primary_entries[p]
            } else {
                &self.secondary_entries[p - np]
            };
            assert(*e == all[p as int]);
            let ghost prev = r@;
            r.push(e);
            proof {
                assert(derefs(r@) =~= derefs(prev).push(all[p as int]));
                assert(idx(ord@).take(k + 1) =~= idx(ord@).take(k as int).push(p as int));
                assert(idx(ord@).take(k + 1).map_values(|p: int| all[p]) =~= idx(ord@).take(k as int).map_values(|p: int| all[p]).push(all[p as int]));
            }
            k = k + 1;
        }
        proof {
            assert(idx(ord@).take(n as int) =~= idx(ord@));
            assert(self.primary() + self.secondary() == all);
            assert(is_stable_order(keys, idx(ord@)));
        }
        r
    }

    /// The records of both sequences that have a source, grouped by source in
    /// order of first occurrence; within a group the primary records come
    /// first, then the secondary ones, each in their order.
    pub fn combine_by_source(&self) -> (r: SourceGroups<'a>)
        requires
            self.primary().len() + self.secondary().len() <= usize::MAX,
        ensures
            is_grouping(
                source_keys(self.primary() + self.secondary()),
                r.groups@.map_values(
                    |g: (String, Vec<&LogEntry>)| (g.0@, positions_of(source_keys(self.primary() + self.secondary()), g.0@)),
                ),
            ),
            forall|a: int|
                0 <= a < r.groups@.len() ==> derefs(#[trigger] r.groups@[a].1@) == positions_of(
                    source_keys(self.primary() + self.secondary()),
                    r.groups@[a].0@,
                ).map_values(|p: int| (self.primary() + self.secondary())[p]),
    {
        let ghost all = self.primary_entries@ + self.secondary_entries@;
        let np = self.primary_entries.len();
        let n = np + self.secondary_entries.len();
        let mut keys: Vec<Option<String>> = Vec::new();
        let mut i: usize = 0;
        while i < n
            invariant
                all == self.primary_entries@ + self.secondary_entries@,
                n == all.len(),
                np == self.primary_entries@.len(),
                i <= n,
                text_keys(keys@) == source_keys(all.take(i as int)),
            decreases n - i,
        {
            let e = if i < np {
                &self.primary_entries[i]
            } else {
                &self.secondary_entries[i - np]
            };
            assert(*e == all[i as int]);
            let source = match &e.source {
                Some(src) => Some(src.clone()),
                None => None,
            };
            let ghost prev = keys@;
            keys.push(source);
            proof {
                assert(all.take(i + 1) =~= all.take(i as int).push(all[i as int]));
                assert(source_keys(all.take(i + 1)) =~= source_keys(all.take(i as int)).push(
                    crate::record::source_text(all[i as int]),
                ));
                assert(text_keys(keys@) =~= text_keys(prev).push(crate::record::source_text(all[i as int])));
            }
            i = i + 1;
        }
        assert(all.take(n as int) =~= all);
        let ghost ks = source_keys(all);
        let groups = group_by_text(&keys);
        let ghost g = groups_view(groups@);
        let mut out: Vec<(String, Vec<&'a LogEntry>)> = Vec::new();
        let mut a: usize = 0;
        while a < groups.len()
            invariant
                all == self.primary_entries@ + self.secondary_entries@,
                n == all.len(),
                np == self.primary_entries@.len(),
                ks == source_keys(all),
                is_grouping(ks, g),
                g == groups_view(groups@),
                a <= groups@.len(),
                out@.len() == a,
                forall|b: int| 0 <= b < a ==> #[trigger] out@[b].0@ == g[b].0 && derefs(out@[b].1@)
                    == g[b].1.map_values(|p: int| all[p]),
            decreases groups@.len() - a,
        {
            proof {
                crate::group::lemma_positions_hold_key(ks, g[a as int].0);
                assert(g[a as int].1 == positions_of(ks, g[a as int].0));
            }
            let ps = &groups[a].1;
            let ghost gp = g[a as int].1;
            assert(gp == ps@.map_values(|p: usize| p as int));
            let mut members: Vec<&'a LogEntry> = Vec::new();
            let mut m: usize = 0;
            while m < ps.len()
                invariant
                    all == self.primary_entries@ + self.secondary_entries@,
                    n == all.len(),
                    np == self.primary_entries@.len(),
                    gp == ps@.map_values(|p: usize| p as int),
                    forall|x: int| 0 <= x < gp.len() ==> 0 <= #[trigger] gp[x] < n,
                    m <= ps@.len(),
                    derefs(members@) == gp.take(m as int).map_values(|p: int| all[p]),
                decreases ps@.len() - m,
            {
                let p = ps[m];
                assert(gp[m as int] == p);
                let e = if p < np {
                    &self.primary_entries[p]
                } else {
                    &self.secondary_entries[p - np]
                };
                assert(*e == all[p as int]);
                let ghost prev = members@;
                members.push(e);
                proof {
                    assert(derefs(members@) =~= derefs(prev).push(all[p as int]));
                    assert(gp.take(m + 1) =~= gp.take(m as int).push(p as int));
                    assert(gp.take(m + 1).map_values(|p: int| all[p]) =~= gp.take(m as int).map_values(|p: int| all[p]).push(all[p as int]));
                }
                m = m + 1;
            }
            assert(gp.take(ps@.len() as int) =~= gp);
            let ghost prev_out = out@;
            out.push((groups[a].0.clone(), members));
            proof {
                assert forall|b: int| 0 <= b < a implies out@[b] == prev_out[b] by {}
                assert(out@[a as int].0@ == g[a as int].0);
            }
            a = a + 1;
        }
        let r = SourceGroups { groups: out };
        proof {
            assert(self.primary() + self.secondary() == all);
            let view = r.groups@.map_values(
                |x: (String, Vec<&LogEntry>)| (x.0@, positions_of(ks, x.0@)),
            );
            assert forall|b: int| 0 <= b < view.len() implies view[b] == g[b] by {
                assert(out@[b].0@ == g[b].0);
            }
            assert(view =~= g);
        }
        r
    }
}

} // verus!
