//! The log record and its parts.
use vstd::prelude::*;

verus! {

/// A point in time, in milliseconds since the Unix epoch.
#[derive(Clone, Copy, Debug, PartialEq, Eq, Structural, Hash, PartialOrd, Ord)]
pub struct Timestamp {
    pub millis: i64,
}

impl Timestamp {
    pub fn from_millis(millis: i64) -> (r: Timestamp)
        ensures
            r.millis == millis,
    {
        Timestamp { millis }
    }

    pub fn as_millis(&self) -> (r: i64)
        ensures
            r == self.millis,
    {
        self.millis
    }
}

/// The severity of a record.
#[derive(Clone, Copy, Debug, PartialEq, Eq, Structural, Hash)]
pub enum LogLevel {
    Error,
    Warn,
    Info,
    Debug,
    Trace,
}

/// The value stored under `key`: the first pair whose key matches.
pub open spec fn meta_get(m: Seq<(Seq<char>, Seq<char>)>, key: Seq<char>) -> Option<Seq<char>>
    decreases m.len(),
{
    if m.len() == 0 {
        None
    } else if m[0].0 == key {
        Some(m[0].1)
    } else {
        meta_get(m.drop_first(), key)
    }
}

/// Free-form key/value data of a record. Each value is kept as the canonical
/// JSON text of the value (a string value keeps its quotes), which is what
/// equality and counting of metadata values go by.
#[derive(Clone, Debug)]
pub struct Metadata {
    entries: Vec<(String, String)>,
}

impl View for Metadata {
    type V = Seq<(Seq<char>, Seq<char>)>;

    closed spec fn view(&self) -> Seq<(Seq<char>, Seq<char>)> {
        self.entries@.map_values(|e: (String, String)| (e.0@, e.1@))
    }
}

impl Metadata {
    pub fn new() -> (r: Metadata)
        ensures
            r@.len() == 0,
    {
        Metadata { entries: Vec::new() }
    }

    fn position_of(&self, key: &String) -> (r: Option<usize>)
        ensures
            match r {
                Some(i) => i < self@.len() && self@[i as int].0 == key@ && forall|j: int|
                    0 <= j < i ==> self@[j].0 != key@,
                None => forall|j: int| 0 <= j < self@.len() ==> self@[j].0 != key@,
            },
    {
        let mut i: usize = 0;
        while i < self.entries.len()
            invariant
                i <= self.entries@.len(),
                forall|j: int| 0 <= j < i ==> self@[j].0 != key@,
            decreases self.entries@.len() - i,
        {
            if self.entries[i].0 == *key {
                return Some(i);
            }
            i = i + 1;
        }
        None
    }

    /// Stores `json_text` under `key`, replacing what was stored there.
    pub fn insert(&mut self, key: String, json_text: String)
        ensures
            meta_get(final(self)@, key@) == Some(json_text@),
            forall|k: Seq<char>|
                k != key@ ==> #[trigger] meta_get(final(self)@, k) == meta_get(old(self)@, k),
    {
        let ghost before = self@;
        let ghost text = json_text@;
        match self.position_of(&key) {
            Some(i) => {
                self.entries[i].1 = json_text;
                proof {
                    assert(self@ =~= before.update(i as int, (key@, text)));
                    lemma_meta_get_update(before, i as int, key@, text);
                }
            },
            None => {
                self.entries.push((key, json_text));
                proof {
                    assert(self@ =~= before.push((key@, text)));
                    lemma_meta_get_push(before, key@, text);
                }
            },
        }
    }

    /// The canonical JSON text stored under `key`, if any.
    pub fn get(&self, key: &str) -> (r: Option<&String>)
        ensures
            match r {
                Some(s) => meta_get(self@, key@) == Some(s@),
                None => meta_get(self@, key@) is None,
            },
    {
        let wanted = key.to_owned();
        let mut i: usize = 0;
        assert(self@.skip(0) =~= self@);
        while i < self.entries.len()
            invariant
                i <= self.entries@.len(),
                wanted@ == key@,
                meta_get(self@, key@) == meta_get(self@.skip(i as int), key@),
            decreases self.entries@.len() - i,
        {
            assert(self@.skip(i as int).drop_first() =~= self@.skip(i + 1));
            assert(self@.skip(i as int)[0] == self@[i as int]);
            if self.entries[i].0 == wanted {
                return Some(&self.entries[i].1);
            }
            i = i + 1;
        }
        None
    }

    pub fn len(&self) -> (r: usize)
        ensures
            r == self@.len(),
    {
        self.entries.len()
    }

    /// The keys, in the order they were first stored.
    pub fn keys(&self) -> (r: Vec<String>)
        ensures
            r@.len() == self@.len(),
            forall|i: int| 0 <= i < r@.len() ==> (#[trigger] r@[i])@ == self@[i].0,
    {
        let mut r: Vec<String> = Vec::new();
        let mut i: usize = 0;
        while i < self.entries.len()
            invariant
                i <= self.entries@.len(),
                r@.len() == i,
                forall|j: int| 0 <= j < i ==> (#[trigger] r@[j])@ == self@[j].0,
            decreases self.entries@.len() - i,
        {
            r.push(self.entries[i].0.clone());
            i = i + 1;
        }
        r
    }
}

proof fn lemma_meta_get_update(
    m: Seq<(Seq<char>, Seq<char>)>,
    i: int,
    key: Seq<char>,
    text: Seq<char>,
)
    requires
        0 <= i < m.len(),
        m[i].0 == key,
        forall|j: int| 0 <= j < i ==> m[j].0 != key,
    ensures
        meta_get(m.update(i, (key, text)), key) == Some(text),
        forall|k: Seq<char>|
            k != key ==> #[trigger] meta_get(m.update(i, (key, text)), k) == meta_get(m, k),
    decreases i,
{
    let u = m.update(i, (key, text));
    if i > 0 {
        assert(u.drop_first() =~= m.drop_first().update(i - 1, (key, text)));
        lemma_meta_get_update(m.drop_first(), i - 1, key, text);
    } else {
        assert(u.drop_first() =~= m.drop_first());
    }
    assert forall|k: Seq<char>| k != key implies #[trigger] meta_get(u, k) == meta_get(m, k) by {
        if i == 0 {
            assert(u[0] == (key, text));
            assert(meta_get(u, k) == meta_get(u.drop_first(), k));
            assert(meta_get(m, k) == meta_get(m.drop_first(), k));
        } else {
            assert(u[0] == m[0]);
            if m[0].0 != k {
                assert(meta_get(u, k) == meta_get(u.drop_first(), k));
                assert(meta_get(m.drop_first().update(i - 1, (key, text)), k) == meta_get(m.drop_first(), k));
            }
        }
    }
}

proof fn lemma_meta_get_push(m: Seq<(Seq<char>, Seq<char>)>, key: Seq<char>, text: Seq<char>)
    requires
        forall|j: int| 0 <= j < m.len() ==> m[j].0 != key,
    ensures
        meta_get(m.push((key, text)), key) == Some(text),
        forall|k: Seq<char>| k != key ==> #[trigger] meta_get(m.push((key, text)), k) == meta_get(m, k),
    decreases m.len(),
{
    if m.len() > 0 {
        assert(m.push((key, text)).drop_first() =~= m.drop_first().push((key, text)));
        lemma_meta_get_push(m.drop_first(), key, text);
    } else {
        assert(m.push((key, text)).drop_first() =~= m);
    }
}

/// One log record.
#[derive(Clone, Debug)]
pub struct LogEntry {
    pub timestamp: Timestamp,
    pub level: LogLevel,
    pub message: String,
    pub action: String,
    pub source: Option<String>,
    pub metadata: Option<Metadata>,
}

/// The canonical JSON text stored in a record's metadata under `key`.
pub open spec fn meta_text(e: LogEntry, key: Seq<char>) -> Option<Seq<char>> {
    match e.metadata {
        Some(m) => meta_get(m@, key),
        None => None,
    }
}

/// A record's source, as characters.
pub open spec fn source_text(e: LogEntry) -> Option<Seq<char>> {
    match e.source {
        Some(s) => Some(s@),
        None => None,
    }
}

impl LogEntry {
    pub fn new(
        timestamp: Timestamp,
        level: LogLevel,
        message: String,
        action: String,
        source: Option<String>,
        metadata: Option<Metadata>,
    ) -> (r: LogEntry)
        ensures
            r.timestamp == timestamp,
            r.level == level,
            r.message == message,
            r.action == action,
            r.source == source,
            r.metadata == metadata,
    {
        LogEntry { timestamp, level, message, action, source, metadata }
    }

    pub fn timestamp(&self) -> (r: &Timestamp)
        ensures
            *r == self.timestamp,
    {
        &self.timestamp
    }

    pub fn level(&self) -> (r: &LogLevel)
        ensures
            *r == self.level,
    {
        &self.level
    }

    pub fn message(&self) -> (r: &String)
        ensures
            *r == self.message,
    {
        &self.message
    }

    pub fn action(&self) -> (r: &String)
        ensures
            *r == self.action,
    {
        &self.action
    }

    pub fn source(&self) -> (r: &Option<String>)
        ensures
            *r == self.source,
    {
        &self.source
    }

    pub fn metadata(&self) -> (r: &Option<Metadata>)
        ensures
            *r == self.metadata,
    {
        &self.metadata
    }

    /// This record with `metadata` as its metadata.
    pub fn with_metadata(self, metadata: Metadata) -> (r: LogEntry)
        ensures
            r.timestamp == self.timestamp,
            r.level == self.level,
            r.message == self.message,
            r.action == self.action,
            r.source == self.source,
            r.metadata == Some(metadata),
    {
        let mut e = self;
        e.metadata = Some(metadata);
        e
    }

    /// The canonical JSON text stored in this record's metadata under `key`.
    pub fn metadata_text(&self, key: &str) -> (r: Option<&String>)
        ensures
            match r {
                Some(s) => meta_text(*self, key@) == Some(s@),
                None => meta_text(*self, key@) is None,
            },
    {
        match &self.metadata {
            Some(m) => m.get(key),
            None => None,
        }
    }
}

} // verus!
