//! Reshaping records: mapping, per-level rules, picking metadata.
use vstd::prelude::*;
use crate::record::{meta_get, meta_text, LogEntry, LogLevel, Metadata};

verus! {

/// `keys` names `k`.
pub open spec fn names(keys: Seq<&str>, k: Seq<char>) -> bool {
    exists|j: int| 0 <= j < keys.len() && (#[trigger] keys[j])@ == k
}

/// `r` holds what `f` made of the records of `s` at the increasing positions
/// `from`, and `f` made nothing of the records at the other positions.
pub open spec fn drawn_from<F: Fn(&LogEntry, &LogLevel) -> Option<LogEntry>>(
    s: Seq<LogEntry>,
    r: Seq<LogEntry>,
    from: Seq<int>,
    f: F,
) -> bool {
    &&& from.len() == r.len()
    &&& forall|a: int, b: int| 0 <= a < b < from.len() ==> from[a] < from[b]
    &&& forall|k: int|
        #![trigger from[k]]
        0 <= k < from.len() ==> 0 <= from[k] < s.len() && f.ensures(
            (&s[from[k]], &s[from[k]].level),
            Some(r[k]),
        )
    &&& forall|i: int|
        0 <= i < s.len() && !from.contains(i) ==> f.ensures((&s[i], &s[i].level), None)
}

pub struct LogTransformer<'a> {
    entries: &'a [LogEntry],
}

impl<'a> LogTransformer<'a> {
    /// The records this transformer reads.
    pub closed spec fn records(&self) -> Seq<LogEntry> {
        self.entries@
    }

    pub fn new(entries: &'a [LogEntry]) -> (r: Self)
        ensures
            r.records() == entries@,
    {
        LogTransformer { entries }
    }

    /// `transform` applied to every record, in order.
    pub fn map<T, F: Fn(&LogEntry) -> T>(&self, transform: F) -> (r: Vec<T>)
        requires
            forall|i: int| 0 <= i < self.records().len() ==> transform.requires((&self.records()[i],)),
        ensures
            r@.len() == self.records().len(),
            forall|i: int| 0 <= i < r@.len() ==> transform.ensures((&self.records()[i],), #[trigger] r@[i]),
    {
        assert(self.records() == self.entries@);
        let mut r: Vec<T> = Vec::new();
        let mut i: usize = 0;
        while i < self.entries.len()
            invariant
                i <= self.entries@.len(),
                r@.len() == i,
                forall|m: int| 0 <= m < self.entries@.len() ==> transform.requires((&self.entries@[m],)),
                forall|m: int| 0 <= m < i ==> transform.ensures((&self.entries@[m],), #[trigger] r@[m]),
            decreases self.entries@.len() - i,
        {
            let v = transform(&self.entries[i]);
            r.push(v);
            i = i + 1;
        }
        r
    }

    /// The records that `transformer`, given each record and its level, turns
    /// into a record, in order; the records it maps to `None` are dropped.
    pub fn transform_by_level<F: Fn(&LogEntry, &LogLevel) -> Option<LogEntry>>(
        &self,
        transformer: F,
    ) -> (r: Vec<LogEntry>)
        requires
            forall|i: int|
                0 <= i < self.records().len() ==> transformer.requires(
                    (&self.records()[i], &self.records()[i].level),
                ),
        ensures
            exists|from: Seq<int>| #[trigger] drawn_from(self.records(), r@, from, transformer),
    {
        assert(self.records() == self.entries@);
        let mut r: Vec<LogEntry> = Vec::new();
        let ghost mut from: Seq<int> = seq![];
        let mut i: usize = 0;
        while i < self.entries.len()
            invariant
                i <= self.entries@.len(),
                from.len() == r@.len(),
                forall|m: int|
                    0 <= m < self.entries@.len() ==> transformer.requires(
                        (&self.entries@[m], &self.entries@[m].level),
                    ),
                forall|a: int, b: int| 0 <= a < b < from.len() ==> from[a] < from[b],
                forall|k: int|
                    #![trigger from[k]]
                    0 <= k < from.len() ==> 0 <= from[k] < i && transformer.ensures(
                        (&self.entries@[from[k]], &self.entries@[from[k]].level),
                        Some(r@[k]),
                    ),
                forall|m: int|
                    0 <= m < i && !from.contains(m) ==> transformer.ensures(
                        (&self.entries@[m], &self.entries@[m].level),
                        None,
                    ),
            decreases self.entries@.len() - i,
        {
            let e = &self.entries[i];
            let out = transformer(e, &e.level);
            let ghost before = from;
            match out {
                Some(x) => {
                    let ghost prev = r@;
                    r.push(x);
                    proof {
                        from = from.push(i as int);
                        assert forall|k: int| #![trigger from[k]] 0 <= k < from.len() implies 0 <= from[k] < i + 1
                            && transformer.ensures(
                            (&self.entries@[from[k]], &self.entries@[from[k]].level),
                            Some(r@[k]),
                        ) by {
                            if k < prev.len() {
                                assert(r@[k] == prev[k]);
                                assert(from[k] == before[k]);
                            }
                        }
                        assert forall|m: int| 0 <= m < i + 1 && !from.contains(m) implies transformer.ensures(
                            (&self.entries@[m], &self.entries@[m].level),
                            None,
                        ) by {
                            if m == i {
                                assert(from[from.len() - 1] == m);
                            } else if before.contains(m) {
                                let k = choose|k: int| 0 <= k < before.len() && before[k] == m;
                                assert(from[k] == m);
                            }
                        }
                    }
                },
                None => {
                    proof {
                        assert forall|m: int| 0 <= m < i + 1 && !from.contains(m) implies transformer.ensures(
                            (&self.entries@[m], &self.entries@[m].level),
                            None,
                        ) by {}
                    }
                },
            }
            i = i + 1;
        }
        assert(drawn_from(self.records(), r@, from, transformer));
        r
    }

    /// For every record, the metadata values it holds under the listed keys.
    pub fn flatten_metadata(&self, keys: &[&str]) -> (r: Vec<Metadata>)
        ensures
            r@.len() == self.records().len(),
            forall|i: int, k: Seq<char>|
                0 <= i < r@.len() ==> #[trigger] meta_get(r@[i]@, k) == if names(keys@, k) {
                    meta_text(self.records()[i], k)
                } else {
                    None
                },
    {
        let mut r: Vec<Metadata> = Vec::new();
        let mut i: usize = 0;
        while i < self.entries.len()
            invariant
                i <= self.entries@.len(),
                r@.len() == i,
                forall|m: int, k: Seq<char>|
                    0 <= m < i ==> #[trigger] meta_get(r@[m]@, k) == if names(keys@, k) {
                        meta_text(self.entries@[m], k)
                    } else {
                        None
                    },
            decreases self.entries@.len() - i,
        {
            let e = &self.entries[i];
            let mut picked = Metadata::new();
            let mut j: usize = 0;
            while j < keys.len()
                invariant
                    j <= keys@.len(),
                    forall|k: Seq<char>|
                        #[trigger] meta_get(picked@, k) == if names(keys@.take(j as int), k) {
                            meta_text(*e, k)
                        } else {
                            None
                        },
                decreases keys@.len() - j,
            {
                let key = keys[j];
                let ghost before = picked@;
                match e.metadata_text(key) {
                    Some(v) => {
                        picked.insert(key.to_owned(), v.clone());
                    },
                    None => {},
                }
                proof {
                    assert(keys@.take(j + 1) =~= keys@.take(j as int).push(key));
                    assert forall|k: Seq<char>| #[trigger] meta_get(picked@, k) == if names(keys@.take(j + 1), k) {
                        meta_text(*e, k)
                    } else {
                        None
                    } by {
                        if k == key@ {
                            assert(keys@.take(j + 1)[j as int] == key);
                        } else {
                            if names(keys@.take(j + 1), k) {
                                let x = choose|x: int| 0 <= x < j + 1 && (#[trigger] keys@.take(j + 1)[x])@ == k;
                                assert(keys@.take(j as int)[x] == keys@.take(j + 1)[x]);
                            }
                            if names(keys@.take(j as int), k) {
                                let x = choose|x: int| 0 <= x < j && (#[trigger] keys@.take(j as int)[x])@ == k;
                                assert(keys@.take(j as int)[x] == keys@.take(j + 1)[x]);
                            }
                        }
                    }
                }
                j = j + 1;
            }
            assert(keys@.take(keys@.len() as int) =~= keys@);
            let ghost prev = r@;
            r.push(picked);
            proof {
                assert forall|m: int, k: Seq<char>| 0 <= m < i + 1 implies #[trigger] meta_get(r@[m]@, k) == if names(keys@, k) {
                    meta_text(self.entries@[m], k)
                } else {
                    None
                } by {
                    if m < i {
                        assert(r@[m] == prev[m]);
                    } else {
                        assert(meta_get(picked@, k) == if names(keys@.take(keys@.len() as int), k) {
                            meta_text(*e, k)
                        } else {
                            None
                        });
                    }
                }
            }
            i = i + 1;
        }
        r
    }
}

} // verus!
