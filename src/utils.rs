//! Pairing helpers.
use vstd::prelude::*;
use crate::record::{source_text, LogEntry};

verus! {

/// Pairs ids with items position by position, as far as the shorter goes.
pub fn pair_with_ids<T>(ids: Vec<String>, items: Vec<T>) -> (r: Vec<(String, T)>)
    ensures
        r@.len() == if ids@.len() <= items@.len() {
            ids@.len()
        } else {
            items@.len()
        },
        forall|i: int| 0 <= i < r@.len() ==> #[trigger] r@[i].0 == ids@[i] && r@[i].1 == items@[i],
{
    let ghost all_ids = ids@;
    let ghost all_items = items@;
    let mut ids = ids;
    let mut items = items;
    let m = if ids.len() <= items.len() {
        ids.len()
    } else {
        items.len()
    };
    ids.truncate(m);
    items.truncate(m);
    let mut reversed: Vec<(String, T)> = Vec::new();
    while ids.len() > 0
        invariant
            ids@.len() == items@.len(),
            ids@.len() <= m,
            m <= all_ids.len(),
            m <= all_items.len(),
            ids@ == all_ids.take(ids@.len() as int),
            items@ == all_items.take(items@.len() as int),
            reversed@.len() == m - ids@.len(),
            forall|k: int|
                0 <= k < reversed@.len() ==> #[trigger] reversed@[k] == (
                    all_ids[m - 1 - k],
                    all_items[m - 1 - k],
                ),
        decreases ids@.len(),
    {
        let ghost len = ids@.len();
        let a = ids.pop();
        let b = items.pop();
        match (a, b) {
            (Some(a), Some(b)) => {
                reversed.push((a, b));
            },
            _ => {},
        }
        assert(ids@ =~= all_ids.take(ids@.len() as int));
        assert(items@ =~= all_items.take(items@.len() as int));
    }
    let mut r: Vec<(String, T)> = Vec::new();
    while reversed.len() > 0
        invariant
            reversed@.len() + r@.len() == m,
            m <= all_ids.len(),
            m <= all_items.len(),
            forall|k: int|
                0 <= k < reversed@.len() ==> #[trigger] reversed@[k] == (
                    all_ids[m - 1 - k],
                    all_items[m - 1 - k],
                ),
            forall|k: int| 0 <= k < r@.len() ==> #[trigger] r@[k] == (all_ids[k], all_items[k]),
        decreases reversed@.len(),
    {
        match reversed.pop() {
            Some(pair) => {
                r.push(pair);
            },
            None => {},
        }
    }
    r
}

/// Pairs the records of two sequences position by position, as far as the
/// shorter goes.
pub fn pair_log_entries<'a>(logs1: &'a [LogEntry], logs2: &'a [LogEntry]) -> (r: Vec<
    (&'a LogEntry, &'a LogEntry),
>)
    ensures
        r@.len() == if logs1@.len() <= logs2@.len() {
            logs1@.len()
        } else {
            logs2@.len()
        },
        forall|i: int|
            0 <= i < r@.len() ==> *(#[trigger] r@[i]).0 == logs1@[i] && *r@[i].1 == logs2@[i],
{
    let m = if logs1.len() <= logs2.len() {
        logs1.len()
    } else {
        logs2.len()
    };
    let mut r: Vec<(&'a LogEntry, &'a LogEntry)> = Vec::new();
    let mut i: usize = 0;
    while i < m
        invariant
            i <= m,
            m <= logs1@.len(),
            m <= logs2@.len(),
            r@.len() == i,
            forall|k: int| 0 <= k < i ==> *(#[trigger] r@[k]).0 == logs1@[k] && *r@[k].1 == logs2@[k],
        decreases m - i,
    {
        r.push((&logs1[i], &logs2[i]));
        i = i + 1;
    }
    r
}

/// Each record's source and message.
pub fn pair_log_sources_with_messages(logs: &[LogEntry]) -> (r: Vec<(Option<String>, String)>)
    ensures
        r@.len() == logs@.len(),
        forall|i: int|
            0 <= i < r@.len() ==> match (#[trigger] r@[i]).0 {
                Some(s) => source_text(logs@[i]) == Some(s@),
                None => source_text(logs@[i]) is None,
            } && r@[i].1@ == logs@[i].message@,
{
    let mut r: Vec<(Option<String>, String)> = Vec::new();
    let mut i: usize = 0;
    while i < logs.len()
        invariant
            i <= logs@.len(),
            r@.len() == i,
            forall|k: int|
                0 <= k < i ==> match (#[trigger] r@[k]).0 {
                    Some(s) => source_text(logs@[k]) == Some(s@),
                    None => source_text(logs@[k]) is None,
                } && r@[k].1@ == logs@[k].message@,
        decreases logs@.len() - i,
    {
        let e = &logs[i];
        let source = match &e.source {
            Some(s) => Some(s.clone()),
            None => None,
        };
        r.push((source, e.message.clone()));
        i = i + 1;
    }
    r
}

} // verus!
