//! Whole-dataset counts, time span and windows.
use vstd::prelude::*;
use crate::error::LogifyError;
use crate::group::text_keys;
use crate::record::{meta_text, source_text, LogEntry, LogLevel, Timestamp};
use crate::tally::{
    is_tally, lemma_level_counts_add_up, level_count, tally_levels, tally_text, CountTable, LevelCounts,
};
use crate::window::{is_windowing, runs_view, times, window_runs};

verus! {

/// Each record's level.
pub open spec fn level_keys(s: Seq<LogEntry>) -> Seq<Option<LogLevel>> {
    s.map_values(|e: LogEntry| Some(e.level))
}

/// Each record's action.
pub open spec fn action_keys(s: Seq<LogEntry>) -> Seq<Option<Seq<char>>> {
    s.map_values(|e: LogEntry| Some(e.action@))
}

/// Each record's source, where it has one.
pub open spec fn source_keys(s: Seq<LogEntry>) -> Seq<Option<Seq<char>>> {
    s.map_values(|e: LogEntry| source_text(e))
}

/// Each record's metadata value under `key`, where it has one.
pub open spec fn metadata_keys(s: Seq<LogEntry>, key: Seq<char>) -> Seq<Option<Seq<char>>> {
    s.map_values(|e: LogEntry| meta_text(e, key))
}

/// The records that a sequence of references points to.
pub open spec fn derefs(s: Seq<&LogEntry>) -> Seq<LogEntry> {
    s.map_values(|e: &LogEntry| *e)
}

/// `m` is the least of `ts`.
pub open spec fn is_least(ts: Seq<int>, m: int) -> bool {
    (exists|i: int| 0 <= i < ts.len() && ts[i] == m) && forall|i: int|
        0 <= i < ts.len() ==> m <= #[trigger] ts[i]
}

/// `m` is the greatest of `ts`.
pub open spec fn is_greatest(ts: Seq<int>, m: int) -> bool {
    (exists|i: int| 0 <= i < ts.len() && ts[i] == m) && forall|i: int|
        0 <= i < ts.len() ==> #[trigger] ts[i] <= m
}

/// The windows of `entries`: each window's start and its records, as
/// `is_windowing` describes them.
pub open spec fn is_window_list(
    entries: Seq<LogEntry>,
    w: int,
    r: Seq<(Timestamp, Vec<&LogEntry>)>,
) -> bool {
    exists|runs: Seq<(int, int, int)>|
        is_windowing(times(entries), w, runs) && r.len() == runs.len() && forall|k: int|
            0 <= k < r.len() ==> #[trigger] r[k].0.millis == runs[k].0 && derefs(r[k].1@) == entries.subrange(
                runs[k].1,
                runs[k].2,
            )
}

pub struct AggregateStats {
    pub total_entries: usize,
    pub level_counts: LevelCounts,
    pub action_counts: CountTable,
    pub source_counts: CountTable,
}

/// The time span of a non-empty set of records.
#[derive(Clone, Copy, Debug)]
pub struct TimeStats {
    pub start_time: Timestamp,
    pub end_time: Timestamp,
    /// `end_time - start_time`, in milliseconds.
    pub duration_ms: u64,
    pub total_entries: usize,
}

/// Milliseconds in an hour.
pub const MILLIS_PER_HOUR: u64 = 3_600_000;

impl TimeStats {
    /// The span in hours, as a fraction (numerator, denominator).
    pub fn duration_hours_ratio(&self) -> (r: (u64, u64))
        ensures
            r == (self.duration_ms, MILLIS_PER_HOUR),
    {
        (self.duration_ms, MILLIS_PER_HOUR)
    }

    /// Records per hour, as a fraction (numerator, denominator): the count
    /// divided by the span in hours, or the count itself where the span is zero.
    pub fn entries_per_hour_ratio(&self) -> (r: (u128, u128))
        ensures
            self.duration_ms > 0 ==> r == (
                (self.total_entries * MILLIS_PER_HOUR) as u128,
                self.duration_ms as u128,
            ),
            self.duration_ms == 0 ==> r == (self.total_entries as u128, 1u128),
    {
        if self.duration_ms > 0 {
            (self.total_entries as u128 * MILLIS_PER_HOUR as u128, self.duration_ms as u128)
        } else {
            (self.total_entries as u128, 1)
        }
    }
}

/// The records' levels, in order.
pub fn levels_of(entries: &[LogEntry]) -> (r: Vec<LogLevel>)
    ensures
        r@ == entries@.map_values(|e: LogEntry| e.level),
{
    let mut r: Vec<LogLevel> = Vec::new();
    let mut i: usize = 0;
    while i < entries.len()
        invariant
            i <= entries@.len(),
            r@ == entries@.take(i as int).map_values(|e: LogEntry| e.level),
        decreases entries@.len() - i,
    {
        r.push(entries[i].level);
        i = i + 1;
        assert(r@ =~= entries@.take(i as int).map_values(|e: LogEntry| e.level));
    }
    assert(entries@.take(i as int) =~= entries@);
    r
}

/// The records' levels, as counted: every record has one.
pub proof fn lemma_level_keys(s: Seq<LogEntry>)
    ensures
        s.map_values(|e: LogEntry| e.level).map_values(|x: LogLevel| Some(x)) == level_keys(s),
{
    assert(s.map_values(|e: LogEntry| e.level).map_values(|x: LogLevel| Some(x)) =~= level_keys(s));
}

/// Every record has exactly one of the five levels, so the per-level counts
/// of any set of records add up to the number of records.
pub proof fn lemma_level_counts_cover_all_records(s: Seq<LogEntry>)
    ensures
        level_count(level_keys(s), LogLevel::Error) + level_count(level_keys(s), LogLevel::Warn)
            + level_count(level_keys(s), LogLevel::Info) + level_count(level_keys(s), LogLevel::Debug)
            + level_count(level_keys(s), LogLevel::Trace) == s.len(),
{
    lemma_level_counts_add_up(s.map_values(|e: LogEntry| e.level));
    lemma_level_keys(s);
}

pub struct LogAggregator<'a> {
    entries: &'a [LogEntry],
}

impl<'a> LogAggregator<'a> {
    /// The records this aggregator reads.
    pub closed spec fn records(&self) -> Seq<LogEntry> {
        self.entries@
    }

    pub fn new(entries: &'a [LogEntry]) -> (r: Self)
        ensures
            r.records() == entries@,
    {
        LogAggregator { entries }
    }

    /// Counts of every record by level and action, and of every record that
    /// has a source by source.
    pub fn calculate_stats(&self) -> (r: AggregateStats)
        ensures
            r.total_entries == self.records().len(),
            forall|l: LogLevel| #[trigger] r.level_counts.spec_count(l) == level_count(
                level_keys(self.records()),
                l,
            ),
            r.level_counts.spec_total() == r.total_entries,
            is_tally(action_keys(self.records()), r.action_counts@),
            is_tally(source_keys(self.records()), r.source_counts@),
    {
        let levels = levels_of(self.entries);
        let level_counts = tally_levels(&levels);
        proof {
            lemma_level_keys(self.entries@);
        }
        let mut actions: Vec<Option<String>> = Vec::new();
        let mut sources: Vec<Option<String>> = Vec::new();
        let mut i: usize = 0;
        while i < self.entries.len()
            invariant
                i <= self.entries@.len(),
                text_keys(actions@) == action_keys(self.entries@.take(i as int)),
                text_keys(sources@) == source_keys(self.entries@.take(i as int)),
            decreases self.entries@.len() - i,
        {
            let e = &self.entries[i];
            let source = match &e.source {
                Some(src) => Some(src.clone()),
                None => None,
            };
            proof {
                assert(self.entries@.take(i + 1) =~= self.entries@.take(i as int).push(*e));
                assert(action_keys(self.entries@.take(i + 1)) =~= action_keys(self.entries@.take(i as int)).push(Some(e.action@)));
                assert(source_keys(self.entries@.take(i + 1)) =~= source_keys(self.entries@.take(i as int)).push(source_text(*e)));
            }
            let ghost prev_actions = actions@;
            let ghost prev_sources = sources@;
            let action = e.action.clone();
            actions.push(Some(action));
            sources.push(source);
            proof {
                assert(text_keys(actions@) =~= text_keys(prev_actions).push(Some(e.action@)));
                assert(text_keys(sources@) =~= text_keys(prev_sources).push(source_text(*e)));
            }
            i = i + 1;
        }
        assert(self.entries@.take(i as int) =~= self.entries@);
        AggregateStats {
            total_entries: self.entries.len(),
            level_counts,
            action_counts: tally_text(&actions),
            source_counts: tally_text(&sources),
        }
    }

    /// The earliest and latest timestamps and the span between them; `None`
    /// when there are no records.
    pub fn calculate_time_stats(&self) -> (r: Option<TimeStats>)
        ensures
            r is None <==> self.records().len() == 0,
            r matches Some(t) ==> is_least(times(self.records()), t.start_time.millis as int)
                && is_greatest(times(self.records()), t.end_time.millis as int) && t.duration_ms
                == t.end_time.millis - t.start_time.millis && t.total_entries
                == self.records().len(),
    {
        let n = self.entries.len();
        if n == 0 {
            return None;
        }
        let ghost ts = times(self.entries@);
        let mut lo: i64 = self.entries[0].timestamp.millis;
        let mut hi: i64 = lo;
        let mut i: usize = 1;
        assert(ts[0] == lo);
        while i < n
            invariant
                n == self.entries@.len(),
                ts == times(self.entries@),
                1 <= i <= n,
                exists|j: int| 0 <= j < i && ts[j] == lo,
                exists|j: int| 0 <= j < i && ts[j] == hi,
                forall|j: int| 0 <= j < i ==> lo <= #[trigger] ts[j] <= hi,
            decreases n - i,
        {
            let t = self.entries[i].timestamp.millis;
            assert(ts[i as int] == t);
            if t < lo {
                lo = t;
            }
            if t > hi {
                hi = t;
            }
            i = i + 1;
        }
        let duration = (hi as i128 - lo as i128) as u64;
        Some(
            TimeStats {
                start_time: Timestamp { millis: lo },
                end_time: Timestamp { millis: hi },
                duration_ms: duration,
                total_entries: n,
            },
        )
    }

    /// The records split into windows of `window_ms` milliseconds. A width that
    /// is not positive is a configuration error.
    pub fn group_by_window(&self, window_ms: i64) -> (r: Result<
        Vec<(Timestamp, Vec<&'a LogEntry>)>,
        LogifyError,
    >)
        ensures
            window_ms <= 0 <==> r is Err,
            r matches Err(e) ==> e is ConfigError,
            r matches Ok(ws) ==> is_window_list(self.records(), window_ms as int, ws@),
    {
        if window_ms <= 0 {
            return Err(LogifyError::ConfigError("window width must be positive".to_owned()));
        }
        let runs = window_runs(self.entries, window_ms);
        let ghost rv = runs_view(runs@);
        let mut out: Vec<(Timestamp, Vec<&'a LogEntry>)> = Vec::new();
        let mut k: usize = 0;
        while k < runs.len()
            invariant
                rv == runs_view(runs@),
                is_windowing(times(self.entries@), window_ms as int, rv),
                k <= runs@.len(),
                out@.len() == k,
                forall|b: int| 0 <= b < k ==> #[trigger] out@[b].0.millis == rv[b].0 && derefs(out@[b].1@)
                    == self.entries@.subrange(rv[b].1, rv[b].2),
            decreases runs@.len() - k,
        {
            let (start, lo, hi) = runs[k];
            assert(rv[k as int] == (start.millis as int, lo as int, hi as int));
            assert(0 <= rv[k as int].1 < rv[k as int].2 <= self.entries@.len());
            let mut members: Vec<&'a LogEntry> = Vec::new();
            let mut j: usize = lo;
            while j < hi
                invariant
                    lo <= j <= hi <= self.entries@.len(),
                    derefs(members@) == self.entries@.subrange(lo as int, j as int),
                decreases hi - j,
            {
                let ghost prev = members@;
                members.push(&self.entries[j]);
                proof {
                    assert(derefs(members@) =~= derefs(prev).push(self.entries@[j as int]));
                    assert(self.entries@.subrange(lo as int, j + 1) =~= self.entries@.subrange(lo as int, j as int).push(self.entries@[j as int]));
                }
                j = j + 1;
            }
            out.push((start, members));
            k = k + 1;
        }
        proof {
            assert(self.records() == self.entries@);
            assert(is_windowing(times(self.records()), window_ms as int, rv) && out@.len() == rv.len()
                && forall|b: int| 0 <= b < out@.len() ==> #[trigger] out@[b].0.millis == rv[b].0
                && derefs(out@[b].1@) == self.records().subrange(rv[b].1, rv[b].2));
        }
        Ok(out)
    }

    /// How often each metadata value occurs under `key`, over the records
    /// that have metadata with that key.
    pub fn aggregate_metadata_values(&self, key: &str) -> (r: CountTable)
        ensures
            is_tally(metadata_keys(self.records(), key@), r@),
    {
        let mut values: Vec<Option<String>> = Vec::new();
        let mut i: usize = 0;
        while i < self.entries.len()
            invariant
                i <= self.entries@.len(),
                text_keys(values@) == metadata_keys(self.entries@.take(i as int), key@),
            decreases self.entries@.len() - i,
        {
            let e = &self.entries[i];
            let v = match e.metadata_text(key) {
                Some(s) => Some(s.clone()),
                None => None,
            };
            proof {
                assert(self.entries@.take(i + 1) =~= self.entries@.take(i as int).push(*e));
                assert(metadata_keys(self.entries@.take(i + 1), key@) =~= metadata_keys(self.entries@.take(i as int), key@).push(meta_text(*e, key@)));
            }
            let ghost prev_values = values@;
            values.push(v);
            proof {
                assert(text_keys(values@) =~= text_keys(prev_values).push(meta_text(*e, key@)));
            }
            i = i + 1;
        }
        assert(self.entries@.take(i as int) =~= self.entries@);
        tally_text(&values)
    }
}

} // verus!
