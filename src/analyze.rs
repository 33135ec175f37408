//! Time series, message patterns, error clusters and frequency anomalies.
use vstd::prelude::*;
use crate::aggregate::{is_greatest, is_least, level_keys, lemma_level_keys};
use crate::anomaly::{anomalies, anomalies_upto, is_anomalous, spread, sum, sum_sq};
use crate::error::LogifyError;
use crate::group::{group_by_text, groups_view, is_grouping, positions_of, text_keys};
use crate::pattern::{message_template, template};
use crate::ratio::fraction_greater;
use crate::record::{meta_text, LogEntry, LogLevel, Timestamp};
use crate::tally::{level_count, tally_levels, LevelCounts};
use crate::window::{is_windowing, runs_view, times, window_runs};

verus! {

/// The texts held by a sequence of strings.
pub open spec fn texts(v: Seq<String>) -> Seq<Seq<char>> {
    v.map_values(|x: String| x@)
}

/// Positions as integers.
pub open spec fn idx(ps: Seq<usize>) -> Seq<int> {
    ps.map_values(|p: usize| p as int)
}

/// The timestamps of the records at positions `ps`.
pub open spec fn times_at(s: Seq<LogEntry>, ps: Seq<int>) -> Seq<int> {
    ps.map_values(|p: int| s[p].timestamp.millis as int)
}

/// The actions of the records at positions `ps`.
pub open spec fn actions_at(s: Seq<LogEntry>, ps: Seq<int>) -> Seq<Seq<char>> {
    ps.map_values(|p: int| s[p].action@)
}

/// The messages of the records at positions `ps`.
pub open spec fn messages_at(s: Seq<LogEntry>, ps: Seq<int>) -> Seq<Seq<char>> {
    ps.map_values(|p: int| s[p].message@)
}

/// One window of a time series.
#[derive(Debug)]
pub struct TimeSeriesData {
    pub timestamp: Timestamp,
    pub count: usize,
    pub level_distribution: LevelCounts,
}

/// A recurring message template.
#[derive(Debug)]
pub struct PatternAnalysis {
    pub pattern: String,
    pub occurrences: usize,
    pub first_seen: Timestamp,
    pub last_seen: Timestamp,
    /// The distinct actions of the matching records.
    pub related_actions: Vec<String>,
}

/// The errors that share one error code.
#[derive(Debug)]
pub struct ErrorAnalysis {
    pub error_code: String,
    pub frequency: usize,
    pub first_occurrence: Timestamp,
    pub last_occurrence: Timestamp,
    /// The messages of the matching records, in record order.
    pub related_messages: Vec<String>,
}

/// `series` is the time series of `s` for windows of width `w`: one point per
/// non-empty window, with the window's start, its number of records, and its
/// count of records per level.
pub open spec fn is_time_series(s: Seq<LogEntry>, w: int, series: Seq<TimeSeriesData>) -> bool {
    exists|runs: Seq<(int, int, int)>|
        is_windowing(times(s), w, runs) && series.len() == runs.len() && forall|k: int|
            0 <= k < series.len() ==> #[trigger] series[k].timestamp.millis == runs[k].0
                && series[k].count == runs[k].2 - runs[k].1 && forall|l: LogLevel|
                #[trigger] series[k].level_distribution.spec_count(l) == level_count(
                    level_keys(s.subrange(runs[k].1, runs[k].2)),
                    l,
                )
}

/// The number of records of each run.
pub open spec fn run_counts(runs: Seq<(int, int, int)>) -> Seq<int> {
    runs.map_values(|r: (int, int, int)| r.2 - r.1)
}

/// The window start of each run.
pub open spec fn run_starts(runs: Seq<(int, int, int)>) -> Seq<int> {
    runs.map_values(|r: (int, int, int)| r.0)
}

/// Each record's message template.
pub open spec fn pattern_keys(s: Seq<LogEntry>) -> Seq<Option<Seq<char>>> {
    s.map_values(|e: LogEntry| Some(template(e.message@)))
}

/// The error code of a record: the metadata value under `error_code`, else `UNKNOWN`.
pub open spec fn error_code_of(e: LogEntry) -> Seq<char> {
    match meta_text(e, "error_code"@) {
        Some(t) => t,
        None => "UNKNOWN"@,
    }
}

/// Each error record's error code; `None` for the other records.
pub open spec fn error_keys(s: Seq<LogEntry>) -> Seq<Option<Seq<char>>> {
    s.map_values(
        |e: LogEntry|
            if e.level == LogLevel::Error {
                Some(error_code_of(e))
            } else {
                None
            },
    )
}

/// `r` lists every template of `s` that at least `min` records have, once,
/// in order of first occurrence, each with its number of records, the least
/// and greatest of their timestamps and the set of their actions.
pub open spec fn is_pattern_report(s: Seq<LogEntry>, min: int, r: Seq<PatternAnalysis>) -> bool {
    let keys = pattern_keys(s);
    &&& forall|a: int, b: int| 0 <= a < b < r.len() ==> r[a].pattern@ != r[b].pattern@
    &&& forall|a: int|
        0 <= a < r.len() ==> {
            let ps = positions_of(keys, #[trigger] r[a].pattern@);
            &&& r[a].occurrences == ps.len()
            &&& ps.len() >= min
            &&& ps.len() > 0
            &&& is_least(times_at(s, ps), r[a].first_seen.millis as int)
            &&& is_greatest(times_at(s, ps), r[a].last_seen.millis as int)
            &&& texts(r[a].related_actions@).no_duplicates()
            &&& texts(r[a].related_actions@).to_set() == actions_at(s, ps).to_set()
        }
    &&& forall|i: int|
        0 <= i < s.len() && positions_of(keys, #[trigger] template(s[i].message@)).len() >= min
            ==> exists|a: int| 0 <= a < r.len() && r[a].pattern@ == template(s[i].message@)
    &&& forall|a: int, b: int|
        0 <= a < b < r.len() ==> positions_of(keys, #[trigger] r[a].pattern@)[0] < positions_of(
            keys,
            #[trigger] r[b].pattern@,
        )[0]
}

/// `r` lists every error code of the error records of `s` once, in order of
/// first occurrence, each with its number of records, the least and greatest
/// of their timestamps and their messages in record order.
pub open spec fn is_error_report(s: Seq<LogEntry>, r: Seq<ErrorAnalysis>) -> bool {
    let keys = error_keys(s);
    &&& forall|a: int, b: int| 0 <= a < b < r.len() ==> r[a].error_code@ != r[b].error_code@
    &&& forall|a: int|
        0 <= a < r.len() ==> {
            let ps = positions_of(keys, #[trigger] r[a].error_code@);
            &&& r[a].frequency == ps.len()
            &&& ps.len() > 0
            &&& is_least(times_at(s, ps), r[a].first_occurrence.millis as int)
            &&& is_greatest(times_at(s, ps), r[a].last_occurrence.millis as int)
            &&& texts(r[a].related_messages@) == messages_at(s, ps)
        }
    &&& forall|i: int|
        0 <= i < s.len() && s[i].level == LogLevel::Error ==> exists|a: int|
            0 <= a < r.len() && #[trigger] r[a].error_code@ == error_code_of(s[i])
    &&& forall|a: int, b: int|
        0 <= a < b < r.len() ==> positions_of(keys, #[trigger] r[a].error_code@)[0]
            < positions_of(keys, #[trigger] r[b].error_code@)[0]
}

/// The least and greatest timestamps of the records at positions `ps`.
fn span_at(entries: &[LogEntry], ps: &Vec<usize>) -> (r: (Timestamp, Timestamp))
    requires
        ps@.len() > 0,
        forall|k: int| 0 <= k < ps@.len() ==> #[trigger] ps@[k] < entries@.len(),
    ensures
        is_least(times_at(entries@, idx(ps@)), r.0.millis as int),
        is_greatest(times_at(entries@, idx(ps@)), r.1.millis as int),
{
    let ghost ts = times_at(entries@, idx(ps@));
    let mut lo: i64 = entries[ps[0]].timestamp.millis;
    let mut hi: i64 = lo;
    assert(ts[0] == lo);
    let mut k: usize = 1;
    while k < ps.len()
        invariant
            ts == times_at(entries@, idx(ps@)),
            1 <= k <= ps@.len(),
            forall|m: int| 0 <= m < ps@.len() ==> #[trigger] ps@[m] < entries@.len(),
            exists|j: int| 0 <= j < k && ts[j] == lo,
            exists|j: int| 0 <= j < k && ts[j] == hi,
            forall|j: int| 0 <= j < k ==> lo <= #[trigger] ts[j] <= hi,
        decreases ps@.len() - k,
    {
        let t = entries[ps[k]].timestamp.millis;
        assert(ts[k as int] == t);
        if t < lo {
            lo = t;
        }
        if t > hi {
            hi = t;
        }
        k = k + 1;
    }
    (Timestamp { millis: lo }, Timestamp { millis: hi })
}

/// The distinct actions of the records at positions `ps`.
fn distinct_actions_at(entries: &[LogEntry], ps: &Vec<usize>) -> (r: Vec<String>)
    requires
        forall|k: int| 0 <= k < ps@.len() ==> #[trigger] ps@[k] < entries@.len(),
    ensures
        texts(r@).no_duplicates(),
        texts(r@).to_set() == actions_at(entries@, idx(ps@)).to_set(),
{
    let ghost acts = actions_at(entries@, idx(ps@));
    let mut r: Vec<String> = Vec::new();
    let mut k: usize = 0;
    while k < ps.len()
        invariant
            acts == actions_at(entries@, idx(ps@)),
            k <= ps@.len(),
            forall|m: int| 0 <= m < ps@.len() ==> #[trigger] ps@[m] < entries@.len(),
            texts(r@).no_duplicates(),
            forall|x: Seq<char>| texts(r@).contains(x) <==> acts.take(k as int).contains(x),
        decreases ps@.len() - k,
    {
        let action = &entries[ps[k]].action;
        assert(acts[k as int] == action@);
        let mut found = false;
        let mut m: usize = 0;
        while m < r.len()
            invariant
                m <= r@.len(),
                found ==> texts(r@).contains(action@),
                !found ==> forall|j: int| 0 <= j < m ==> r@[j]@ != action@,
            decreases r@.len() - m,
        {
            if r[m] == *action {
                found = true;
                assert(texts(r@)[m as int] == action@);
            }
            m = m + 1;
        }
        let ghost prev = texts(r@);
        if !found {
            r.push(action.clone());
            assert(texts(r@) =~= prev.push(action@));
            assert forall|j: int| 0 <= j < prev.len() implies prev[j] != action@ by {
                assert(prev[j] == r@[j]@);
            }
        }
        let ghost nx = acts.take(k + 1);
        let ghost pv = acts.take(k as int);
        assert(nx =~= pv.push(action@));
        assert forall|x: Seq<char>| texts(r@).contains(x) <==> nx.contains(x) by {
            if x == action@ {
                assert(nx[k as int] == x);
                if !found {
                    assert(texts(r@)[prev.len() as int] == x);
                }
            } else {
                if texts(r@).contains(x) {
                    let j = choose|j: int| 0 <= j < texts(r@).len() && texts(r@)[j] == x;
                    if !found {
                        assert(j < prev.len());
                        assert(prev[j] == x);
                    }
                    assert(prev.contains(x));
                    let i = choose|i: int| 0 <= i < k && pv[i] == x;
                    assert(nx[i] == x);
                }
                if nx.contains(x) {
                    let i = choose|i: int| 0 <= i < k + 1 && nx[i] == x;
                    assert(pv[i] == x);
                    assert(pv.contains(x));
                    assert(prev.contains(x));
                    let j = choose|j: int| 0 <= j < prev.len() && prev[j] == x;
                    assert(texts(r@)[j] == x);
                }
            }
        }
        k = k + 1;
    }
    assert(acts.take(k as int) =~= acts);
    assert(texts(r@).to_set() =~= acts.to_set());
    r
}

/// The messages of the records at positions `ps`, in that order.
fn messages_at_positions(entries: &[LogEntry], ps: &Vec<usize>) -> (r: Vec<String>)
    requires
        forall|k: int| 0 <= k < ps@.len() ==> #[trigger] ps@[k] < entries@.len(),
    ensures
        texts(r@) == messages_at(entries@, idx(ps@)),
{
    let mut r: Vec<String> = Vec::new();
    let mut k: usize = 0;
    while k < ps.len()
        invariant
            k <= ps@.len(),
            forall|m: int| 0 <= m < ps@.len() ==> #[trigger] ps@[m] < entries@.len(),
            texts(r@) == messages_at(entries@, idx(ps@)).take(k as int),
        decreases ps@.len() - k,
    {
        let ghost prev = r@;
        let m = entries[ps[k]].message.clone();
        r.push(m);
        proof {
            let all = messages_at(entries@, idx(ps@));
            assert(all[k as int] == m@);
            assert(all.take(k + 1) =~= all.take(k as int).push(m@));
            assert(texts(r@) =~= texts(prev).push(m@));
        }
        k = k + 1;
    }
    assert(messages_at(entries@, idx(ps@)).take(k as int) =~= messages_at(entries@, idx(ps@)));
    r
}

/// The levels of the records in `lo..hi`.
fn levels_in(entries: &[LogEntry], lo: usize, hi: usize) -> (r: Vec<LogLevel>)
    requires
        lo <= hi <= entries@.len(),
    ensures
        r@ == entries@.subrange(lo as int, hi as int).map_values(|e: LogEntry| e.level),
{
    let mut r: Vec<LogLevel> = Vec::new();
    let mut j: usize = lo;
    while j < hi
        invariant
            lo <= j <= hi <= entries@.len(),
            r@ == entries@.subrange(lo as int, j as int).map_values(|e: LogEntry| e.level),
        decreases hi - j,
    {
        r.push(entries[j].level);
        j = j + 1;
        assert(r@ =~= entries@.subrange(lo as int, j as int).map_values(|e: LogEntry| e.level));
    }
    r
}

/// Positions of a grouping are in range.
proof fn lemma_group_positions_in_range(
    keys: Seq<Option<Seq<char>>>,
    g: Seq<(Seq<char>, Seq<int>)>,
    groups: Seq<(String, Vec<usize>)>,
    a: int,
)
    requires
        is_grouping(keys, g),
        g == groups_view(groups),
        0 <= a < g.len(),
    ensures
        forall|k: int| 0 <= k < groups[a].1@.len() ==> #[trigger] groups[a].1@[k] < keys.len(),
        idx(groups[a].1@) == positions_of(keys, groups[a].0@),
{
    crate::group::lemma_positions_hold_key(keys, g[a].0);
    assert(idx(groups[a].1@) == g[a].1);
    assert forall|k: int| 0 <= k < groups[a].1@.len() implies #[trigger] groups[a].1@[k] < keys.len() by {
        assert(g[a].1[k] == groups[a].1@[k] as int);
    }
}

pub struct LogAnalyzer<'a> {
    entries: &'a [LogEntry],
}

impl<'a> LogAnalyzer<'a> {
    /// The records this analyzer reads.
    pub closed spec fn records(&self) -> Seq<LogEntry> {
        self.entries@
    }

    pub fn new(entries: &'a [LogEntry]) -> (r: Self)
        ensures
            r.records() == entries@,
    {
        LogAnalyzer { entries }
    }

    /// The number of records and their levels in each non-empty window of
    /// `window_ms` milliseconds. A width that is not positive is a
    /// configuration error.
    pub fn generate_time_series(&self, window_ms: i64) -> (r: Result<Vec<TimeSeriesData>, LogifyError>)
        ensures
            window_ms <= 0 <==> r is Err,
            r matches Err(e) ==> e is ConfigError,
            r matches Ok(series) ==> is_time_series(self.records(), window_ms as int, series@),
    {
        if window_ms <= 0 {
            return Err(LogifyError::ConfigError("window width must be positive".to_owned()));
        }
        let runs = window_runs(self.entries, window_ms);
        let ghost rv = runs_view(runs@);
        let mut series: Vec<TimeSeriesData> = Vec::new();
        let mut k: usize = 0;
        while k < runs.len()
            invariant
                rv == runs_view(runs@),
                is_windowing(times(self.entries@), window_ms as int, rv),
                k <= runs@.len(),
                series@.len() == k,
                forall|b: int|
                    0 <= b < k ==> #[trigger] series@[b].timestamp.millis == rv[b].0 && series@[b].count
                        == rv[b].2 - rv[b].1 && forall|l: LogLevel|
                        #[trigger] series@[b].level_distribution.spec_count(l) == level_count(
                            level_keys(self.entries@.subrange(rv[b].1, rv[b].2)),
                            l,
                        ),
            decreases runs@.len() - k,
        {
            let (start, lo, hi) = runs[k];
            assert(rv[k as int] == (start.millis as int, lo as int, hi as int));
            assert(0 <= rv[k as int].1 < rv[k as int].2 <= self.entries@.len());
            let levels = levels_in(self.entries, lo, hi);
            let dist = tally_levels(&levels);
            proof {
                lemma_level_keys(self.entries@.subrange(lo as int, hi as int));
            }
            let ghost prev = series@;
            series.push(TimeSeriesData { timestamp: start, count: hi - lo, level_distribution: dist });
            proof {
                assert(series@[k as int].timestamp.millis == rv[k as int].0);
                assert(series@[k as int].count == rv[k as int].2 - rv[k as int].1);
                assert forall|l: LogLevel| #[trigger] dist.spec_count(l) == level_count(
                    level_keys(self.entries@.subrange(rv[k as int].1, rv[k as int].2)),
                    l,
                ) by {}
                assert forall|b: int| 0 <= b < k implies series@[b] == prev[b] by {}
                assert(series@[k as int].level_distribution == dist);
                assert forall|b: int| 0 <= b < k + 1 implies #[trigger] series@[b].timestamp.millis == rv[b].0 && series@[b].count
                        == rv[b].2 - rv[b].1 && forall|l: LogLevel|
                        #[trigger] series@[b].level_distribution.spec_count(l) == level_count(
                            level_keys(self.entries@.subrange(rv[b].1, rv[b].2)),
                            l,
                        ) by {
                    if b < k {
                        assert(series@[b] == prev[b]);
                    }
                }
            }
            k = k + 1;
        }
        proof {
            assert(self.records() == self.entries@);
            assert(is_windowing(times(self.records()), window_ms as int, rv) && series@.len() == rv.len());
        }
        Ok(series)
    }

    /// The message templates that at least `min_occurrences` records share,
    /// in order of first occurrence.
    pub fn detect_patterns(&self, min_occurrences: usize) -> (r: Vec<PatternAnalysis>)
        ensures
            is_pattern_report(self.records(), min_occurrences as int, r@),
    {
        let ghost s = self.entries@;
        let mut keys: Vec<Option<String>> = Vec::new();
        let mut i: usize = 0;
        while i < self.entries.len()
            invariant
                s == self.entries@,
                i <= s.len(),
                text_keys(keys@) == pattern_keys(s.take(i as int)),
            decreases s.len() - i,
        {
            let t = message_template(self.entries[i].message.as_str());
            let ghost prev = keys@;
            keys.push(Some(t));
            proof {
                assert(s.take(i + 1) =~= s.take(i as int).push(s[i as int]));
                assert(pattern_keys(s.take(i + 1)) =~= pattern_keys(s.take(i as int)).push(
                    Some(template(s[i as int].message@)),
                ));
                assert(text_keys(keys@) =~= text_keys(prev).push(Some(t@)));
            }
            i = i + 1;
        }
        assert(s.take(i as int) =~= s);
        let ghost ks = pattern_keys(s);
        let groups = group_by_text(&keys);
        let ghost g = groups_view(groups@);
        let mut r: Vec<PatternAnalysis> = Vec::new();
        let ghost mut chosen: Seq<int> = seq![];
        let mut a: usize = 0;
        while a < groups.len()
            invariant
                s == self.entries@,
                ks == pattern_keys(s),
                is_grouping(ks, g),
                g == groups_view(groups@),
                a <= groups@.len(),
                r@.len() == chosen.len(),
                forall|b: int| 0 <= b < chosen.len() ==> 0 <= #[trigger] chosen[b] < a,
                forall|b: int, c: int| 0 <= b < c < chosen.len() ==> chosen[b] < chosen[c],
                forall|b: int| 0 <= b < chosen.len() ==> #[trigger] r@[b].pattern@ == g[chosen[b]].0,
                forall|b: int|
                    0 <= b < r@.len() ==> {
                        let ps = positions_of(ks, #[trigger] r@[b].pattern@);
                        &&& r@[b].occurrences == ps.len()
                        &&& ps.len() >= min_occurrences
                        &&& ps.len() > 0
                        &&& is_least(times_at(s, ps), r@[b].first_seen.millis as int)
                        &&& is_greatest(times_at(s, ps), r@[b].last_seen.millis as int)
                        &&& texts(r@[b].related_actions@).no_duplicates()
                        &&& texts(r@[b].related_actions@).to_set() == actions_at(s, ps).to_set()
                    },
                forall|c: int|
                    0 <= c < a && g[c].1.len() >= min_occurrences ==> exists|b: int|
                        0 <= b < chosen.len() && #[trigger] chosen[b] == c,
            decreases groups@.len() - a,
        {
            proof {
                lemma_group_positions_in_range(ks, g, groups@, a as int);
            }
            let ps = &groups[a].1;
            assert(g[a as int].1.len() > 0);
            assert(g[a as int].1 == idx(ps@));
            if ps.len() >= min_occurrences {
                let (first_seen, last_seen) = span_at(self.entries, ps);
                let related_actions = distinct_actions_at(self.entries, ps);
                let ghost prev = r@;
                r.push(
                    PatternAnalysis {
                        pattern: groups[a].0.clone(),
                        occurrences: ps.len(),
                        first_seen,
                        last_seen,
                        related_actions,
                    },
                );
                proof {
                    assert(r@ == prev.push(r@[prev.len() as int]));
                    let old_chosen = chosen;
                    chosen = chosen.push(a as int);
                    assert(r@[prev.len() as int].pattern@ == g[a as int].0);
                    assert forall|b: int| 0 <= b < r@.len() implies {
                        let ps = positions_of(ks, #[trigger] r@[b].pattern@);
                        &&& r@[b].occurrences == ps.len()
                        &&& ps.len() >= min_occurrences
                        &&& ps.len() > 0
                        &&& is_least(times_at(s, ps), r@[b].first_seen.millis as int)
                        &&& is_greatest(times_at(s, ps), r@[b].last_seen.millis as int)
                        &&& texts(r@[b].related_actions@).no_duplicates()
                        &&& texts(r@[b].related_actions@).to_set() == actions_at(s, ps).to_set()
                    } by {
                        if b < prev.len() {
                            assert(r@[b] == prev[b]);
                        }
                    }
                    assert forall|c: int|
                        0 <= c < a + 1 && g[c].1.len() >= min_occurrences implies exists|b: int|
                            0 <= b < chosen.len() && #[trigger] chosen[b] == c by {
                        if c == a {
                            assert(chosen[chosen.len() - 1] == c);
                        } else {
                            let b = choose|b: int| 0 <= b < old_chosen.len() && #[trigger] old_chosen[b] == c;
                            assert(chosen[b] == c);
                        }
                    }
                }
            } else {
                proof {
                    assert(g[a as int].1.len() == ps@.len());
                }
            }
            a = a + 1;
        }
        proof {
            assert(self.records() == s);
            assert forall|b: int, c: int| 0 <= b < c < r@.len() implies r@[b].pattern@ != r@[c].pattern@ by {
                assert(chosen[b] < chosen[c]);
            }
            assert forall|b: int, c: int| 0 <= b < c < r@.len() implies positions_of(ks, #[trigger] r@[b].pattern@)[0] < positions_of(
                ks,
                #[trigger] r@[c].pattern@,
            )[0] by {
                assert(chosen[b] < chosen[c]);
                assert(g[chosen[b]].1 == positions_of(ks, g[chosen[b]].0));
                assert(g[chosen[c]].1 == positions_of(ks, g[chosen[c]].0));
            }
            assert forall|i: int|
                0 <= i < s.len() && positions_of(ks, #[trigger] template(s[i].message@)).len() >= min_occurrences
                    implies exists|b: int| 0 <= b < r@.len() && r@[b].pattern@ == template(s[i].message@) by {
                assert(ks[i] == Some(template(s[i].message@)));
                let c = choose|c: int| 0 <= c < g.len() && g[c].0 == ks[i]->0;
                assert(g[c].1 == positions_of(ks, g[c].0));
                let b = choose|b: int| 0 <= b < chosen.len() && #[trigger] chosen[b] == c;
                assert(r@[b].pattern@ == g[c].0);
            }
        }
        r
    }

    /// The error records grouped by error code, in order of first occurrence.
    pub fn analyze_errors(&self) -> (r: Vec<ErrorAnalysis>)
        ensures
            is_error_report(self.records(), r@),
    {
        let ghost s = self.entries@;
        let mut keys: Vec<Option<String>> = Vec::new();
        let mut i: usize = 0;
        while i < self.entries.len()
            invariant
                s == self.entries@,
                i <= s.len(),
                text_keys(keys@) == error_keys(s.take(i as int)),
            decreases s.len() - i,
        {
            let e = &self.entries[i];
            let key = if e.level == LogLevel::Error {
                Some(self.extract_error_code(e))
            } else {
                None
            };
            let ghost prev = keys@;
            proof {
                assert(s.take(i + 1) =~= s.take(i as int).push(s[i as int]));
                assert(error_keys(s.take(i + 1)) =~= error_keys(s.take(i as int)).push(
                    if s[i as int].level == LogLevel::Error {
                        Some(error_code_of(s[i as int]))
                    } else {
                        None
                    },
                ));
            }
            keys.push(key);
            proof {
                assert(text_keys(keys@) =~= error_keys(s.take(i + 1)));
            }
            i = i + 1;
        }
        assert(s.take(i as int) =~= s);
        let ghost ks = error_keys(s);
        let groups = group_by_text(&keys);
        let ghost g = groups_view(groups@);
        let mut r: Vec<ErrorAnalysis> = Vec::new();
        let mut a: usize = 0;
        while a < groups.len()
            invariant
                s == self.entries@,
                ks == error_keys(s),
                is_grouping(ks, g),
                g == groups_view(groups@),
                a <= groups@.len(),
                r@.len() == a,
                forall|b: int| 0 <= b < a ==> #[trigger] r@[b].error_code@ == g[b].0,
                forall|b: int|
                    0 <= b < r@.len() ==> {
                        let ps = positions_of(ks, #[trigger] r@[b].error_code@);
                        &&& r@[b].frequency == ps.len()
                        &&& ps.len() > 0
                        &&& is_least(times_at(s, ps), r@[b].first_occurrence.millis as int)
                        &&& is_greatest(times_at(s, ps), r@[b].last_occurrence.millis as int)
                        &&& texts(r@[b].related_messages@) == messages_at(s, ps)
                    },
            decreases groups@.len() - a,
        {
            proof {
                lemma_group_positions_in_range(ks, g, groups@, a as int);
            }
            let ps = &groups[a].1;
            assert(g[a as int].1.len() > 0);
            assert(g[a as int].1 == idx(ps@));
            let (first_occurrence, last_occurrence) = span_at(self.entries, ps);
            let related_messages = messages_at_positions(self.entries, ps);
            let ghost prev = r@;
            r.push(
                ErrorAnalysis {
                    error_code: groups[a].0.clone(),
                    frequency: ps.len(),
                    first_occurrence,
                    last_occurrence,
                    related_messages,
                },
            );
            proof {
                assert(r@[a as int].error_code@ == g[a as int].0);
                assert forall|b: int| 0 <= b < a implies r@[b] == prev[b] by {}
            }
            a = a + 1;
        }
        proof {
            assert(self.records() == s);
            assert forall|b: int| 0 <= b < r@.len() implies #[trigger] r@[b].error_code@ == g[b].0 by {}
            assert forall|b: int, c: int| 0 <= b < c < r@.len() implies r@[b].error_code@ != r@[c].error_code@ by {
                assert(g[b].0 != g[c].0);
            }
            assert forall|b: int, c: int| 0 <= b < c < r@.len() implies positions_of(ks, #[trigger] r@[b].error_code@)[0]
                < positions_of(ks, #[trigger] r@[c].error_code@)[0] by {
                assert(g[b].1 == positions_of(ks, g[b].0));
                assert(g[c].1 == positions_of(ks, g[c].0));
            }
            let rs = self.records();
            assert forall|i: int| 0 <= i < rs.len() && rs[i].level == LogLevel::Error implies exists|b: int|
                0 <= b < r@.len() && #[trigger] r@[b].error_code@ == error_code_of(rs[i]) by {
                assert(ks[i] == Some(error_code_of(s[i])));
                let c = choose|c: int| 0 <= c < g.len() && g[c].0 == ks[i]->0;
                assert(r@[c].error_code@ == g[c].0);
            }
        }
        r
    }

    /// The starts of the windows of `window_ms` milliseconds whose record
    /// count has a z-score strictly above the threshold
    /// `threshold_num / threshold_den`, in order. A width that is not
    /// positive, or a threshold with a zero denominator, is a configuration
    /// error. Fewer than two windows, or windows that all hold the same
    /// number of records, give no anomalies.
    pub fn detect_anomalies(&self, window_ms: i64, threshold_num: u64, threshold_den: u64) -> (r:
        Result<Vec<Timestamp>, LogifyError>)
        requires
            self.records().len() <= u32::MAX,
        ensures
            (window_ms <= 0 || threshold_den == 0) <==> r is Err,
            r matches Err(e) ==> e is ConfigError,
            r matches Ok(starts) ==> exists|runs: Seq<(int, int, int)>|
                is_windowing(times(self.records()), window_ms as int, runs) && starts@.map_values(
                    |t: Timestamp| t.millis as int,
                ) == anomalies(
                    run_counts(runs),
                    run_starts(runs),
                    threshold_num as int,
                    threshold_den as int,
                ),
    {
        if window_ms <= 0 {
            return Err(LogifyError::ConfigError("window width must be positive".to_owned()));
        }
        if threshold_den == 0 {
            return Err(LogifyError::ConfigError("threshold denominator must be positive".to_owned()));
        }
        let runs = window_runs(self.entries, window_ms);
        let ghost rv = runs_view(runs@);
        let ghost cs = run_counts(rv);
        let ghost n = self.entries@.len() as int;
        let nw = runs.len();
        let mut total: u128 = 0;
        let mut squares: u128 = 0;
        let mut k: usize = 0;
        while k < nw
            invariant
                nw == runs@.len(),
                rv == runs_view(runs@),
                cs == run_counts(rv),
                n == self.entries@.len(),
                n <= u32::MAX,
                is_windowing(times(self.entries@), window_ms as int, rv),
                k <= nw,
                total == sum(cs.take(k as int)),
                squares == sum_sq(cs.take(k as int)),
                k == 0 ==> total == 0,
                k > 0 ==> total == rv[k - 1].2,
                k <= total <= n,
                squares <= n * total,
            decreases nw - k,
        {
            let (_, lo, hi) = runs[k];
            assert(rv[k as int] == (runs@[k as int].0.millis as int, lo as int, hi as int));
            assert(0 <= rv[k as int].1 < rv[k as int].2 <= n);
            if k > 0 {
                assert(rv[k - 1].2 == rv[k as int].1);
            }
            let c = (hi - lo) as u128;
            proof {
                assert(cs.take(k + 1).drop_last() =~= cs.take(k as int));
                assert(cs.take(k + 1).last() == c);
                assert(c * c <= n * c) by (nonlinear_arith)
                    requires
                        c <= n,
                ;
                assert(n * total + n * c == n * (total + c)) by (nonlinear_arith);
                assert(n * (total + c) <= n * n) by (nonlinear_arith)
                    requires
                        total + c <= n,
                        n >= 0,
                ;
                assert(n * n <= 0xffff_ffff * 0xffff_ffffu64) by (nonlinear_arith)
                    requires
                        0 <= n <= 0xffff_ffff,
                ;
            }
            total = total + c;
            squares = squares + c * c;
            k = k + 1;
        }
        proof {
            assert(cs.take(nw as int) =~= cs);
            if nw > 0 {
                assert(rv.last().2 == n);
            }
            assert(nw <= n);
            assert(nw * squares <= n * (n * n)) by (nonlinear_arith)
                requires
                    0 <= nw <= n,
                    0 <= squares <= n * total,
                    total <= n,
            ;
            assert(n * n <= 0x1_0000_0000_0000_0000) by (nonlinear_arith)
                requires
                    0 <= n <= 0x1_0000_0000,
            ;
            assert(n * (n * n) <= 0x1_0000_0000 * 0x1_0000_0000_0000_0000) by (nonlinear_arith)
                requires
                    0 <= n <= 0x1_0000_0000,
                    n * n <= 0x1_0000_0000_0000_0000,
            ;
            assert(total * total <= n * n) by (nonlinear_arith)
                requires
                    0 <= total <= n,
            ;
        }
        let spread_value: i128 = (nw as u128 * squares) as i128 - (total * total) as i128;
        assert(spread_value == spread(cs));
        proof {
            assert(threshold_num * threshold_num <= 0xffff_ffff_ffff_ffffu128 * 0xffff_ffff_ffff_ffffu128) by (nonlinear_arith)
                requires
                    threshold_num <= 0xffff_ffff_ffff_ffffu64,
            ;
            assert(threshold_den * threshold_den <= 0xffff_ffff_ffff_ffffu128 * 0xffff_ffff_ffff_ffffu128) by (nonlinear_arith)
                requires
                    threshold_den <= 0xffff_ffff_ffff_ffffu64,
            ;
            assert(threshold_den * threshold_den > 0) by (nonlinear_arith)
                requires
                    threshold_den > 0,
            ;
        }
        let tn2: u128 = threshold_num as u128 * threshold_num as u128;
        let td2: u128 = threshold_den as u128 * threshold_den as u128;
        let mut out: Vec<Timestamp> = Vec::new();
        let mut k: usize = 0;
        while k < nw
            invariant
                nw == runs@.len(),
                rv == runs_view(runs@),
                cs == run_counts(rv),
                cs.len() == nw,
                n == self.entries@.len(),
                n <= u32::MAX,
                nw <= n,
                total == sum(cs),
                total <= n,
                spread_value == spread(cs),
                tn2 == threshold_num * threshold_num,
                td2 == threshold_den * threshold_den,
                td2 > 0,
                is_windowing(times(self.entries@), window_ms as int, rv),
                k <= nw,
                out@.map_values(|t: Timestamp| t.millis as int) == anomalies_upto(
                    cs,
                    run_starts(rv),
                    threshold_num as int,
                    threshold_den as int,
                    k as int,
                ),
            decreases nw - k,
        {
            let (start, lo, hi) = runs[k];
            assert(rv[k as int] == (start.millis as int, lo as int, hi as int));
            assert(0 <= rv[k as int].1 < rv[k as int].2 <= n);
            let c = (hi - lo) as u128;
            proof {
                assert(cs[k as int] == c);
                assert(nw * c <= n * n) by (nonlinear_arith)
                    requires
                        nw <= n,
                        c <= n,
                ;
                assert(n * n <= 0xffff_ffff * 0xffff_ffffu64) by (nonlinear_arith)
                    requires
                        0 <= n <= 0xffff_ffff,
                ;
            }
            let scaled: u128 = nw as u128 * c;
            let gap: u128 = if scaled >= total {
                scaled - total
            } else {
                total - scaled
            };
            proof {
                assert(gap * gap <= 0xffff_ffff_ffff_ffffu128 * 0xffff_ffff_ffff_ffffu128) by (nonlinear_arith)
                    requires
                        gap <= 0xffff_ffff_ffff_ffffu128,
                ;
            }
            let sq = gap * gap;
            let flagged = if spread_value > 0 {
                fraction_greater(sq, spread_value as u128, tn2, td2)
            } else {
                false
            };
            proof {
                let d = nw * cs[k as int] - sum(cs);
                assert(d * d == sq) by (nonlinear_arith)
                    requires
                        gap == d || gap == -d,
                        sq == gap * gap,
                ;
                assert(flagged == is_anomalous(cs, k as int, threshold_num as int, threshold_den as int));
            }
            let ghost prev = out@;
            if flagged {
                out.push(start);
            }
            proof {
                let m = out@.map_values(|t: Timestamp| t.millis as int);
                let pm = prev.map_values(|t: Timestamp| t.millis as int);
                assert(run_starts(rv)[k as int] == start.millis);
                if flagged {
                    assert(m =~= pm + seq![start.millis as int]);
                } else {
                    assert(m =~= pm + Seq::<int>::empty());
                }
            }
            k = k + 1;
        }
        proof {
            assert(self.records() == self.entries@);
        }
        Ok(out)
    }

    /// The error code of a record: the metadata value under `error_code`, else `UNKNOWN`.
    fn extract_error_code(&self, entry: &LogEntry) -> (r: String)
        ensures
            r@ == error_code_of(*entry),
    {
        match entry.metadata_text("error_code") {
            Some(t) => t.clone(),
            None => "UNKNOWN".to_owned(),
        }
    }
}

} // verus!
