//! Statistics over window counts, and the windows whose count is unusual.
use vstd::prelude::*;

verus! {

/// The sum of `cs`.
pub open spec fn sum(cs: Seq<int>) -> int
    decreases cs.len(),
{
    if cs.len() == 0 {
        0
    } else {
        sum(cs.drop_last()) + cs.last()
    }
}

/// The sum of the squares of `cs`.
pub open spec fn sum_sq(cs: Seq<int>) -> int
    decreases cs.len(),
{
    if cs.len() == 0 {
        0
    } else {
        sum_sq(cs.drop_last()) + cs.last() * cs.last()
    }
}

/// `N * sum(c^2) - sum(c)^2` for the `N` counts `cs`: `N^2` times their
/// population variance, zero exactly when the standard deviation is zero.
pub open spec fn spread(cs: Seq<int>) -> int {
    cs.len() * sum_sq(cs) - sum(cs) * sum(cs)
}

/// Whether count `k` of `cs` is anomalous for the threshold `tn / td`: its
/// z-score `|c - mean| / std_dev` strictly exceeds the threshold. With
/// `mean = S / N` and `std_dev = sqrt(spread) / N` that is
/// `|N * c - S| * td > tn * sqrt(spread)`, compared here squared. A series
/// whose standard deviation is zero has no anomalous count.
pub open spec fn is_anomalous(cs: Seq<int>, k: int, tn: int, td: int) -> bool {
    let d = cs.len() * cs[k] - sum(cs);
    spread(cs) > 0 && d * d * (td * td) > (tn * tn) * spread(cs)
}

/// The starts of the anomalous counts among the first `m`, in order.
pub open spec fn anomalies_upto(cs: Seq<int>, starts: Seq<int>, tn: int, td: int, m: int) -> Seq<
    int,
>
    decreases m,
{
    if m <= 0 {
        seq![]
    } else {
        anomalies_upto(cs, starts, tn, td, m - 1) + if is_anomalous(cs, m - 1, tn, td) {
            seq![starts[m - 1]]
        } else {
            seq![]
        }
    }
}

/// The starts of the anomalous counts of `cs`, in order.
pub open spec fn anomalies(cs: Seq<int>, starts: Seq<int>, tn: int, td: int) -> Seq<int> {
    anomalies_upto(cs, starts, tn, td, cs.len() as int)
}

proof fn lemma_constant_sums(cs: Seq<int>, c: int)
    requires
        forall|k: int| 0 <= k < cs.len() ==> cs[k] == c,
    ensures
        sum(cs) == cs.len() * c,
        sum_sq(cs) == cs.len() * (c * c),
    decreases cs.len(),
{
    if cs.len() > 0 {
        lemma_constant_sums(cs.drop_last(), c);
        let n = cs.len() as int;
        assert(sum(cs) == (n - 1) * c + c);
        assert((n - 1) * c + c == n * c) by (nonlinear_arith);
        assert((n - 1) * (c * c) + c * c == n * (c * c)) by (nonlinear_arith);
    }
}

/// A series in which every window has the same count has no anomalies,
/// whatever the threshold.
pub proof fn lemma_constant_series_has_no_anomalies(
    cs: Seq<int>,
    starts: Seq<int>,
    tn: int,
    td: int,
)
    requires
        forall|k: int| 0 <= k < cs.len() ==> #[trigger] cs[k] == cs[0],
    ensures
        anomalies(cs, starts, tn, td) == Seq::<int>::empty(),
{
    if cs.len() > 0 {
        let c = cs[0];
        lemma_constant_sums(cs, c);
        let n = cs.len() as int;
        assert(n * (n * (c * c)) - (n * c) * (n * c) == 0) by (nonlinear_arith);
        assert(spread(cs) == 0);
    } else {
        assert(spread(cs) == 0);
    }
    lemma_no_anomalies_without_spread(cs, starts, tn, td, cs.len() as int);
}

proof fn lemma_no_anomalies_without_spread(
    cs: Seq<int>,
    starts: Seq<int>,
    tn: int,
    td: int,
    m: int,
)
    requires
        spread(cs) == 0,
    ensures
        anomalies_upto(cs, starts, tn, td, m) == Seq::<int>::empty(),
    decreases m,
{
    if m > 0 {
        lemma_no_anomalies_without_spread(cs, starts, tn, td, m - 1);
        assert(anomalies_upto(cs, starts, tn, td, m) =~= Seq::<int>::empty());
    }
}

} // verus!
