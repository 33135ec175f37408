//! Frequency tables.
use vstd::prelude::*;
use crate::group::{group_by_text, groups_view, is_grouping, positions_of, text_keys};
use crate::record::LogLevel;

verus! {

/// `t` lists each key present in `keys` once, in order of first occurrence,
/// with the number of times it occurs.
pub open spec fn is_tally<K>(keys: Seq<Option<K>>, t: Seq<(K, int)>) -> bool {
    &&& forall|a: int, b: int| 0 <= a < b < t.len() ==> t[a].0 != t[b].0
    &&& forall|a: int|
        0 <= a < t.len() ==> #[trigger] t[a].1 == positions_of(keys, t[a].0).len() && t[a].1 > 0
    &&& forall|i: int|
        0 <= i < keys.len() && keys[i] is Some ==> exists|a: int|
            0 <= a < t.len() && #[trigger] t[a].0 == keys[i]->0
    &&& forall|a: int, b: int|
        0 <= a < b < t.len() ==> positions_of(keys, #[trigger] t[a].0)[0] < positions_of(
            keys,
            #[trigger] t[b].0,
        )[0]
}

/// How often each text occurs.
#[derive(Clone, Debug)]
pub struct CountTable {
    pub entries: Vec<(String, usize)>,
}

impl View for CountTable {
    type V = Seq<(Seq<char>, int)>;

    open spec fn view(&self) -> Seq<(Seq<char>, int)> {
        self.entries@.map_values(|e: (String, usize)| (e.0@, e.1 as int))
    }
}

impl CountTable {
    /// The count stored for `key`, if the key is present.
    pub fn get(&self, key: &str) -> (r: Option<&usize>)
        ensures
            match r {
                Some(c) => exists|a: int| 0 <= a < self@.len() && self@[a] == (key@, *c as int),
                None => forall|a: int| 0 <= a < self@.len() ==> self@[a].0 != key@,
            },
    {
        let wanted = key.to_owned();
        let mut a: usize = 0;
        while a < self.entries.len()
            invariant
                a <= self@.len(),
                wanted@ == key@,
                forall|b: int| 0 <= b < a ==> self@[b].0 != key@,
            decreases self@.len() - a,
        {
            if self.entries[a].0 == wanted {
                assert(self@[a as int] == (key@, self.entries@[a as int].1 as int));
                return Some(&self.entries[a].1);
            }
            a = a + 1;
        }
        None
    }

    /// The number of distinct keys.
    pub fn len(&self) -> (r: usize)
        ensures
            r == self@.len(),
    {
        self.entries.len()
    }
}

/// Counts how often each text occurs among `keys`, skipping `None`.
pub fn tally_text(keys: &Vec<Option<String>>) -> (r: CountTable)
    ensures
        is_tally(text_keys(keys@), r@),
{
    let groups = group_by_text(keys);
    let ghost g = groups_view(groups@);
    let mut entries: Vec<(String, usize)> = Vec::new();
    let mut a: usize = 0;
    while a < groups.len()
        invariant
            a <= groups@.len(),
            g == groups_view(groups@),
            entries@.len() == a,
            forall|b: int| 0 <= b < a ==> #[trigger] entries@[b].0@ == g[b].0 && entries@[b].1 as int == g[b].1.len(),
        decreases groups@.len() - a,
    {
        let c = groups[a].1.len();
        entries.push((groups[a].0.clone(), c));
        a = a + 1;
    }
    let r = CountTable { entries };
    proof {
        let ks = text_keys(keys@);
        assert forall|b: int| 0 <= b < r@.len() implies r@[b] == (g[b].0, g[b].1.len() as int) by {
            assert(entries@[b].0@ == g[b].0);
        }
        assert forall|i: int| 0 <= i < ks.len() && ks[i] is Some implies exists|a: int|
            0 <= a < r@.len() && #[trigger] r@[a].0 == ks[i]->0 by {
            let a = choose|a: int| 0 <= a < g.len() && g[a].0 == ks[i]->0;
            assert(r@[a].0 == g[a].0);
        }
    }
    r
}

/// The positions of records' levels.
pub open spec fn level_count(levels: Seq<Option<LogLevel>>, l: LogLevel) -> int {
    positions_of(levels, l).len() as int
}

/// How many records there are of each level.
#[derive(Clone, Copy, Debug)]
pub struct LevelCounts {
    pub error: usize,
    pub warn: usize,
    pub info: usize,
    pub debug: usize,
    pub trace: usize,
}

impl LevelCounts {
    /// The count stored for level `l`.
    pub open spec fn spec_count(&self, l: LogLevel) -> int {
        match l {
            LogLevel::Error => self.error as int,
            LogLevel::Warn => self.warn as int,
            LogLevel::Info => self.info as int,
            LogLevel::Debug => self.debug as int,
            LogLevel::Trace => self.trace as int,
        }
    }

    /// The sum of the counts of all levels.
    pub open spec fn spec_total(&self) -> int {
        self.error + self.warn + self.info + self.debug + self.trace
    }

    /// The number of records of level `l`.
    pub fn count(&self, l: &LogLevel) -> (r: usize)
        ensures
            r == self.spec_count(*l),
    {
        match l {
            LogLevel::Error => self.error,
            LogLevel::Warn => self.warn,
            LogLevel::Info => self.info,
            LogLevel::Debug => self.debug,
            LogLevel::Trace => self.trace,
        }
    }

    /// The count for level `l`, or `None` where no record has that level.
    pub fn get(&self, l: &LogLevel) -> (r: Option<&usize>)
        ensures
            match r {
                Some(c) => *c == self.spec_count(*l) && *c > 0,
                None => self.spec_count(*l) == 0,
            },
    {
        let c = match l {
            LogLevel::Error => &self.error,
            LogLevel::Warn => &self.warn,
            LogLevel::Info => &self.info,
            LogLevel::Debug => &self.debug,
            LogLevel::Trace => &self.trace,
        };
        if *c == 0 {
            None
        } else {
            Some(c)
        }
    }

    /// The number of levels with at least one record.
    pub fn len(&self) -> (r: usize)
        ensures
            r == (if self.error > 0 { 1int } else { 0 }) + (if self.warn > 0 { 1int } else { 0 })
                + (if self.info > 0 { 1int } else { 0 }) + (if self.debug > 0 { 1int } else { 0 })
                + (if self.trace > 0 { 1int } else { 0 }),
    {
        let mut n: usize = 0;
        if self.error > 0 {
            n = n + 1;
        }
        if self.warn > 0 {
            n = n + 1;
        }
        if self.info > 0 {
            n = n + 1;
        }
        if self.debug > 0 {
            n = n + 1;
        }
        if self.trace > 0 {
            n = n + 1;
        }
        n
    }
}

/// Each level's count among `levels` is the number of its positions, and the
/// counts add up to the number of positions that hold a level.
pub proof fn lemma_level_counts_add_up(levels: Seq<LogLevel>)
    ensures
        level_count(levels.map_values(|l: LogLevel| Some(l)), LogLevel::Error) + level_count(
            levels.map_values(|l: LogLevel| Some(l)),
            LogLevel::Warn,
        ) + level_count(levels.map_values(|l: LogLevel| Some(l)), LogLevel::Info) + level_count(
            levels.map_values(|l: LogLevel| Some(l)),
            LogLevel::Debug,
        ) + level_count(levels.map_values(|l: LogLevel| Some(l)), LogLevel::Trace)
            == levels.len(),
    decreases levels.len(),
{
    if levels.len() > 0 {
        let ks = levels.map_values(|l: LogLevel| Some(l));
        assert(ks.drop_last() =~= levels.drop_last().map_values(|l: LogLevel| Some(l)));
        lemma_level_counts_add_up(levels.drop_last());
    }
}

/// Counts the records of each level.
pub fn tally_levels(levels: &Vec<LogLevel>) -> (r: LevelCounts)
    ensures
        forall|l: LogLevel| #[trigger] r.spec_count(l) == level_count(
            levels@.map_values(|x: LogLevel| Some(x)),
            l,
        ),
        r.spec_total() == levels@.len(),
{
    let ghost ks = levels@.map_values(|x: LogLevel| Some(x));
    let mut r = LevelCounts { error: 0, warn: 0, info: 0, debug: 0, trace: 0 };
    let mut i: usize = 0;
    while i < levels.len()
        invariant
            i <= levels@.len(),
            ks == levels@.map_values(|x: LogLevel| Some(x)),
            forall|l: LogLevel| #[trigger] r.spec_count(l) == level_count(ks.take(i as int), l),
            r.spec_total() == i,
        decreases levels@.len() - i,
    {
        proof {
            assert forall|l: LogLevel| #[trigger] level_count(ks.take(i + 1), l) == level_count(ks.take(i as int), l) + if ks[i as int] == Some(l) { 1int } else { 0 } by {
                crate::group::lemma_positions_step(ks, i as int, l);
            }
        }
        let ghost before = r;
        match levels[i] {
            LogLevel::Error => r.error = r.error + 1,
            LogLevel::Warn => r.warn = r.warn + 1,
            LogLevel::Info => r.info = r.info + 1,
            LogLevel::Debug => r.debug = r.debug + 1,
            LogLevel::Trace => r.trace = r.trace + 1,
        }
        proof {
            assert(ks[i as int] == Some(levels@[i as int]));
            assert forall|l: LogLevel| #[trigger] r.spec_count(l) == level_count(ks.take(i + 1), l) by {
                assert(before.spec_count(l) == level_count(ks.take(i as int), l));
            }
        }
        i = i + 1;
    }
    assert(ks.take(levels@.len() as int) =~= ks);
    r
}

} // verus!
