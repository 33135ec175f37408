//! Splitting a record sequence into fixed-width time windows.
use vstd::prelude::*;
use vstd::arithmetic::div_mod::{lemma_fundamental_div_mod, lemma_mod_bound, lemma_mod_multiples_vanish};
use crate::record::{LogEntry, Timestamp};

verus! {

/// The timestamps of records, in milliseconds.
pub open spec fn times(entries: Seq<LogEntry>) -> Seq<int> {
    entries.map_values(|e: LogEntry| e.timestamp.millis as int)
}

/// `runs` splits the records with timestamps `ts` into windows of width `w`.
/// Each run is (window start, first position, position after the last); the
/// runs are non-empty and follow each other without gap or overlap, so that
/// together they hold every record exactly once. The windows lie on the grid
/// of width `w` that starts at the first timestamp, in increasing order, so
/// they do not overlap. Every record lies at or before its window's end, and
/// the record that opens a later window lies after that window's start: a new
/// window is opened exactly when a record falls past the current one, and it
/// is the window that holds that record. Empty windows are not listed.
pub open spec fn is_windowing(ts: Seq<int>, w: int, runs: Seq<(int, int, int)>) -> bool {
    &&& ts.len() == 0 ==> runs.len() == 0
    &&& ts.len() > 0 ==> runs.len() > 0 && runs[0].1 == 0 && runs[0].0 == ts[0]
        && runs.last().2 == ts.len()
    &&& forall|k: int| 0 <= k < runs.len() ==> 0 <= #[trigger] runs[k].1 < runs[k].2 <= ts.len()
    &&& forall|k: int| 0 < k < runs.len() ==> runs[k - 1].2 == #[trigger] runs[k].1
    &&& forall|k: int| 0 <= k < runs.len() ==> on_grid(#[trigger] runs[k].0, ts[0], w)
    &&& forall|k1: int, k2: int|
        0 <= k1 < k2 < runs.len() ==> #[trigger] runs[k1].0 < #[trigger] runs[k2].0
    &&& forall|k: int, j: int|
        0 <= k < runs.len() && runs[k].1 <= j < runs[k].2 ==> #[trigger] ts[j] <= #[trigger] runs[k].0 + w
    &&& forall|k: int| 0 < k < runs.len() ==> ts[#[trigger] runs[k].1] > runs[k].0
}

/// `x` lies on the grid of step `w` that starts at `origin`.
#[verifier::opaque]
pub open spec fn on_grid(x: int, origin: int, w: int) -> bool {
    x >= origin && (x - origin) % w == 0
}

/// Computed runs, as integers.
pub open spec fn runs_view(runs: Seq<(Timestamp, usize, usize)>) -> Seq<(int, int, int)> {
    runs.map_values(|r: (Timestamp, usize, usize)| (r.0.millis as int, r.1 as int, r.2 as int))
}

proof fn lemma_extend_run(
    ts: Seq<int>,
    w: int,
    runs: Seq<(int, int, int)>,
    s: int,
    lo: int,
    j: int,
)
    requires
        w > 0,
        0 < j < ts.len(),
        ts[j] <= s + w,
        is_windowing(ts.take(j), w, runs.push((s, lo, j))),
    ensures
        is_windowing(ts.take(j + 1), w, runs.push((s, lo, j + 1))),
{
    let a = ts.take(j);
    let b = ts.take(j + 1);
    let ra = runs.push((s, lo, j));
    let rb = runs.push((s, lo, j + 1));
    assert(a[0] == b[0]);
    assert forall|k: int| 0 <= k < rb.len() implies 0 <= #[trigger] rb[k].1 < rb[k].2 <= b.len() by {
        assert(0 <= ra[k].1 < ra[k].2 <= a.len());
    }
    assert forall|k: int| 0 < k < rb.len() implies rb[k - 1].2 == #[trigger] rb[k].1 by {
        assert(ra[k - 1].2 == ra[k].1);
    }
    assert forall|k: int| 0 <= k < rb.len() implies on_grid(#[trigger] rb[k].0, b[0], w) by {
        assert(on_grid(ra[k].0, a[0], w));
    }
    assert forall|k1: int, k2: int| 0 <= k1 < k2 < rb.len() implies #[trigger] rb[k1].0
        < #[trigger] rb[k2].0 by {
        assert(ra[k1].0 < ra[k2].0);
    }
    assert forall|k: int, i: int| 0 <= k < rb.len() && rb[k].1 <= i < rb[k].2 implies #[trigger] b[i]
        <= #[trigger] rb[k].0 + w by {
        assert(0 <= ra[k].1 < ra[k].2 <= a.len());
        if i < j {
            assert(a[i] == b[i]);
            assert(a[i] <= ra[k].0 + w);
        }
    }
    assert forall|k: int| 0 < k < rb.len() implies b[#[trigger] rb[k].1] > rb[k].0 by {
        assert(0 <= ra[k].1 < ra[k].2 <= a.len());
        assert(a[ra[k].1] > ra[k].0);
        assert(a[ra[k].1] == b[rb[k].1]);
    }
}

proof fn lemma_open_run(
    ts: Seq<int>,
    w: int,
    runs: Seq<(int, int, int)>,
    s: int,
    lo: int,
    j: int,
    s2: int,
)
    requires
        w > 0,
        0 < j < ts.len(),
        s < s2 < ts[j] <= s2 + w,
        on_grid(s2, ts[0], w),
        is_windowing(ts.take(j), w, runs.push((s, lo, j))),
    ensures
        is_windowing(ts.take(j + 1), w, runs.push((s, lo, j)).push((s2, j, j + 1))),
{
    let a = ts.take(j);
    let b = ts.take(j + 1);
    let ra = runs.push((s, lo, j));
    let rb = ra.push((s2, j, j + 1));
    let m = ra.len();
    assert(a[0] == b[0]);
    assert forall|k: int| 0 <= k < rb.len() implies 0 <= #[trigger] rb[k].1 < rb[k].2 <= b.len() by {
        if k < m {
            assert(0 <= ra[k].1 < ra[k].2 <= a.len());
        }
    }
    assert forall|k: int| 0 < k < rb.len() implies rb[k - 1].2 == #[trigger] rb[k].1 by {
        if k < m {
            assert(ra[k - 1].2 == ra[k].1);
        }
    }
    assert forall|k: int| 0 <= k < rb.len() implies on_grid(#[trigger] rb[k].0, b[0], w) by {
        if k < m {
            assert(on_grid(ra[k].0, a[0], w));
        }
    }
    assert forall|k1: int, k2: int| 0 <= k1 < k2 < rb.len() implies #[trigger] rb[k1].0
        < #[trigger] rb[k2].0 by {
        if k2 < m {
            assert(ra[k1].0 < ra[k2].0);
        } else if k1 < m - 1 {
            assert(ra[k1].0 < ra[m - 1].0);
        }
    }
    assert forall|k: int, i: int| 0 <= k < rb.len() && rb[k].1 <= i < rb[k].2 implies #[trigger] b[i]
        <= #[trigger] rb[k].0 + w by {
        if k < m {
            assert(0 <= ra[k].1 < ra[k].2 <= a.len());
            assert(a[i] == b[i]);
            assert(a[i] <= ra[k].0 + w);
        }
    }
    assert forall|k: int| 0 < k < rb.len() implies b[#[trigger] rb[k].1] > rb[k].0 by {
        if k < m {
            assert(0 <= ra[k].1 < ra[k].2 <= a.len());
            assert(a[ra[k].1] > ra[k].0);
            assert(a[ra[k].1] == b[rb[k].1]);
        }
    }
}

/// Splits records into windows of `width_ms` milliseconds that start at the
/// first record's timestamp, skipping windows that would be empty.
pub fn window_runs(entries: &[LogEntry], width_ms: i64) -> (runs: Vec<(Timestamp, usize, usize)>)
    requires
        width_ms > 0,
    ensures
        is_windowing(times(entries@), width_ms as int, runs_view(runs@)),
{
    let ghost ts = times(entries@);
    let ghost wi = width_ms as int;
    let n = entries.len();
    let mut runs: Vec<(Timestamp, usize, usize)> = Vec::new();
    if n == 0 {
        return runs;
    }
    let first: i128 = entries[0].timestamp.millis as i128;
    let w: i128 = width_ms as i128;
    let mut start: i128 = first;
    let mut lo: usize = 0;
    let mut j: usize = 1;
    proof {
        assert(ts.take(1) =~= seq![ts[0]]);
        assert(runs_view(runs@).push((start as int, 0, 1)) =~= seq![(ts[0], 0int, 1int)]);
        assert((start - first) % wi == 0) by {
            assert(((start - first) as int) == 0);
        }
        reveal(on_grid);
    }
    while j < n
        invariant
            n == entries@.len(),
            ts == times(entries@),
            wi == width_ms as int,
            w == wi,
            wi > 0,
            first == ts[0],
            1 <= j <= n,
            lo < j,
            first <= start <= i64::MAX,
            (start - first) % wi == 0,
            is_windowing(ts.take(j as int), wi, runs_view(runs@).push((start as int, lo as int, j as int))),
        decreases n - j,
    {
        let t: i128 = entries[j].timestamp.millis as i128;
        assert(t == ts[j as int]);
        if t > start + w {
            let ghost closed = runs_view(runs@);
            runs.push((Timestamp { millis: start as i64 }, lo, j));
            let d: i128 = t - start - 1;
            let q: i128 = d / w;
            proof {
                lemma_fundamental_div_mod(d as int, wi);
                lemma_mod_bound(d as int, wi);
                assert(q * w <= d) by (nonlinear_arith)
                    requires d == w * q + d % w, 0 <= d % w;
                assert(q >= 1) by (nonlinear_arith)
                    requires d == w * q + d % w, d % w < w, d >= w, w > 0;
            }
            let new_start: i128 = start + q * w;
            proof {
                lemma_mod_multiples_vanish(q as int, (start - first) as int, wi);
                assert(new_start - first == wi * q + (start - first));
                assert(q * w >= w) by (nonlinear_arith)
                    requires q >= 1, w > 0;
                assert(t <= new_start + w) by (nonlinear_arith)
                    requires d == w * q + d % w, d % w < w, d == t - start - 1, new_start == start + q * w;
                assert(runs_view(runs@) =~= closed.push((start as int, lo as int, j as int)));
                reveal(on_grid);
                lemma_open_run(ts, wi, closed, start as int, lo as int, j as int, new_start as int);
            }
            start = new_start;
            lo = j;
        } else {
            proof {
                lemma_extend_run(ts, wi, runs_view(runs@), start as int, lo as int, j as int);
            }
        }
        j = j + 1;
    }
    let ghost closed = runs_view(runs@);
    runs.push((Timestamp { millis: start as i64 }, lo, n));
    proof {
        assert(runs_view(runs@) =~= closed.push((start as int, lo as int, n as int)));
        assert(ts.take(n as int) =~= ts);
    }
    runs
}

proof fn lemma_runs_ordered(ts: Seq<int>, w: int, runs: Seq<(int, int, int)>, k1: int, k2: int)
    requires
        is_windowing(ts, w, runs),
        0 <= k1 < k2 < runs.len(),
    ensures
        runs[k1].2 <= runs[k2].1,
    decreases k2 - k1,
{
    assert(runs[k2 - 1].2 == runs[k2].1);
    if k1 < k2 - 1 {
        lemma_runs_ordered(ts, w, runs, k1, k2 - 1);
        assert(runs[k2 - 1].1 < runs[k2 - 1].2);
    }
}

proof fn lemma_runs_cover_prefix(ts: Seq<int>, w: int, runs: Seq<(int, int, int)>, k: int, j: int)
    requires
        is_windowing(ts, w, runs),
        0 <= k < runs.len(),
        0 <= j < runs[k].2,
    ensures
        exists|m: int| 0 <= m <= k && runs[m].1 <= j < #[trigger] runs[m].2,
    decreases k,
{
    assert(0 <= runs[k].1 < runs[k].2 <= ts.len());
    if j >= runs[k].1 {
        assert(runs[k].1 <= j < runs[k].2);
    } else if k > 0 {
        assert(runs[k - 1].2 == runs[k].1);
        lemma_runs_cover_prefix(ts, w, runs, k - 1, j);
        let m = choose|m: int| 0 <= m <= k - 1 && runs[m].1 <= j < #[trigger] runs[m].2;
        assert(runs[m].1 <= j < runs[m].2);
    }
}

/// Position `j` lies in run `k`.
pub open spec fn in_run(runs: Seq<(int, int, int)>, k: int, j: int) -> bool {
    0 <= k < runs.len() && runs[k].1 <= j < runs[k].2
}

/// Position `j` lies in some run.
pub open spec fn covered(runs: Seq<(int, int, int)>, j: int) -> bool {
    exists|k: int| #[trigger] in_run(runs, k, j)
}

/// The windows split the records without loss or repetition: every record
/// lies in exactly one window. The windows `[start, start + w)` are ordered
/// and do not overlap.
pub proof fn lemma_windows_partition(ts: Seq<int>, w: int, runs: Seq<(int, int, int)>)
    requires
        w > 0,
        is_windowing(ts, w, runs),
    ensures
        forall|j: int| 0 <= j < ts.len() ==> #[trigger] covered(runs, j),
        forall|k1: int, k2: int, j: int|
            0 <= k1 < k2 < runs.len() && #[trigger] in_run(runs, k1, j) ==> !#[trigger] in_run(runs, k2, j),
        forall|k1: int, k2: int|
            0 <= k1 < k2 < runs.len() ==> #[trigger] runs[k1].0 + w <= #[trigger] runs[k2].0,
{
    assert forall|j: int| 0 <= j < ts.len() implies #[trigger] covered(runs, j) by {
        lemma_runs_cover_prefix(ts, w, runs, runs.len() - 1, j);
        let m = choose|m: int| 0 <= m <= runs.len() - 1 && runs[m].1 <= j < #[trigger] runs[m].2;
        assert(in_run(runs, m, j));
    }
    assert forall|k1: int, k2: int, j: int|
        0 <= k1 < k2 < runs.len() && #[trigger] in_run(runs, k1, j) implies !#[trigger] in_run(runs, k2, j) by {
        lemma_runs_ordered(ts, w, runs, k1, k2);
    }
    assert forall|k1: int, k2: int| 0 <= k1 < k2 < runs.len() implies #[trigger] runs[k1].0 + w
        <= #[trigger] runs[k2].0 by {
        let a = runs[k1].0;
        let b = runs[k2].0;
        assert(a < b);
        assert(on_grid(a, ts[0], w) && on_grid(b, ts[0], w));
        reveal(on_grid);
        lemma_fundamental_div_mod(a - ts[0], w);
        lemma_fundamental_div_mod(b - ts[0], w);
        let qa = (a - ts[0]) / w;
        let qb = (b - ts[0]) / w;
        assert(a - ts[0] == w * qa);
        assert(b - ts[0] == w * qb);
        assert(qa < qb) by (nonlinear_arith)
            requires
                w * qa < w * qb,
                w > 0,
        ;
        assert(w * qb - w * qa >= w) by (nonlinear_arith)
            requires
                qa < qb,
                w > 0,
        ;
    }
}

} // verus!
