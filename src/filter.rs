//! Keeping the records that satisfy a rule.
use vstd::prelude::*;
use crate::record::{source_text, LogEntry, LogLevel, Timestamp};

verus! {

/// What a record must satisfy to be kept.
pub enum FilterRule {
    Level(LogLevel),
    /// Timestamps from the first to the second, both included.
    TimeRange(Timestamp, Timestamp),
    Source(String),
}

/// Whether record `e` satisfies `rule`.
pub open spec fn satisfies(e: LogEntry, rule: FilterRule) -> bool {
    match rule {
        FilterRule::Level(l) => e.level == l,
        FilterRule::TimeRange(start, end) => start.millis <= e.timestamp.millis
            && e.timestamp.millis <= end.millis,
        FilterRule::Source(s) => source_text(e) == Some(s@),
    }
}

/// The records of `s` that satisfy `rule`, in order.
pub open spec fn kept(s: Seq<LogEntry>, rule: FilterRule) -> Seq<LogEntry>
    decreases s.len(),
{
    if s.len() == 0 {
        seq![]
    } else if satisfies(s.last(), rule) {
        kept(s.drop_last(), rule).push(s.last())
    } else {
        kept(s.drop_last(), rule)
    }
}

fn check(e: &LogEntry, rule: &FilterRule) -> (r: bool)
    ensures
        r == satisfies(*e, *rule),
{
    match rule {
        FilterRule::Level(l) => e.level == *l,
        FilterRule::TimeRange(start, end) => start.millis <= e.timestamp.millis
            && e.timestamp.millis <= end.millis,
        FilterRule::Source(s) => match &e.source {
            Some(src) => *src == *s,
            None => false,
        },
    }
}

/// The records of `entries` that satisfy `rule`, in order.
fn retain_where(entries: Vec<LogEntry>, rule: &FilterRule) -> (r: Vec<LogEntry>)
    ensures
        r@ == kept(entries@, *rule),
{
    let ghost all = entries@;
    let mut rest = entries;
    let mut reversed: Vec<LogEntry> = Vec::new();
    while rest.len() > 0
        invariant
            rest@ == all.take(rest@.len() as int),
            rest@.len() <= all.len(),
            kept(all, *rule) == kept(rest@, *rule) + reversed@.reverse(),
        decreases rest@.len(),
    {
        let ghost before = rest@;
        match rest.pop() {
            Some(e) => {
                proof {
                    assert(before.drop_last() =~= rest@);
                    assert(before.last() == e);
                }
                if check(&e, rule) {
                    let ghost rv = reversed@;
                    reversed.push(e);
                    proof {
                        assert(reversed@.reverse() =~= seq![e] + rv.reverse());
                        assert(kept(before, *rule) == kept(rest@, *rule).push(e));
                        assert(kept(rest@, *rule).push(e) + rv.reverse() =~= kept(rest@, *rule)
                            + reversed@.reverse());
                    }
                }
                assert(rest@ =~= all.take(rest@.len() as int));
            },
            None => {},
        }
    }
    assert(kept(rest@, *rule) =~= seq![]);
    let mut r: Vec<LogEntry> = Vec::new();
    while reversed.len() > 0
        invariant
            kept(all, *rule) == r@ + reversed@.reverse(),
        decreases reversed@.len(),
    {
        let ghost before = reversed@;
        match reversed.pop() {
            Some(e) => {
                let ghost prev = r@;
                r.push(e);
                proof {
                    assert(before =~= reversed@.push(e));
                    assert(before.reverse() =~= seq![e] + reversed@.reverse());
                    assert(prev + before.reverse() =~= r@ + reversed@.reverse());
                }
            },
            None => {},
        }
    }
    assert(r@ + reversed@.reverse() =~= r@);
    r
}

/// A set of records narrowed step by step.
pub struct LogFilter {
    entries: Vec<LogEntry>,
}

impl LogFilter {
    /// The records still kept.
    pub closed spec fn records(&self) -> Seq<LogEntry> {
        self.entries@
    }

    pub fn new(entries: Vec<LogEntry>) -> (r: Self)
        ensures
            r.records() == entries@,
    {
        LogFilter { entries }
    }

    /// Keeps the records of level `level`.
    pub fn by_level(self, level: &LogLevel) -> (r: Self)
        ensures
            r.records() == kept(self.records(), FilterRule::Level(*level)),
    {
        LogFilter { entries: retain_where(self.entries, &FilterRule::Level(*level)) }
    }

    /// Keeps the records from `start` to `end`, both included.
    pub fn by_time_range(self, start: Timestamp, end: Timestamp) -> (r: Self)
        ensures
            r.records() == kept(self.records(), FilterRule::TimeRange(start, end)),
    {
        LogFilter { entries: retain_where(self.entries, &FilterRule::TimeRange(start, end)) }
    }

    /// Keeps the records whose source is `source`.
    pub fn by_source(self, source: &str) -> (r: Self)
        ensures
            forall|s: String| s@ == source@ ==> r.records() == kept(self.records(), FilterRule::Source(s)),
    {
        let rule = FilterRule::Source(source.to_owned());
        let r = LogFilter { entries: retain_where(self.entries, &rule) };
        proof {
            assert forall|s: String| s@ == source@ implies r.records() == kept(self.records(), FilterRule::Source(s)) by {
                lemma_kept_source_view(self.records(), rule, FilterRule::Source(s));
            }
        }
        r
    }

    /// The records still kept.
    pub fn entries(self) -> (r: Vec<LogEntry>)
        ensures
            r@ == self.records(),
    {
        self.entries
    }
}

proof fn lemma_kept_source_view(s: Seq<LogEntry>, a: FilterRule, b: FilterRule)
    requires
        a matches FilterRule::Source(x) && b matches FilterRule::Source(y) && x@ == y@,
    ensures
        kept(s, a) == kept(s, b),
    decreases s.len(),
{
    if s.len() > 0 {
        lemma_kept_source_view(s.drop_last(), a, b);
    }
}

} // verus!
