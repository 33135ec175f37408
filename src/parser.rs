//! The reader of log files. Reading a file and decoding its JSON are left to
//! the caller; the parser names the levels.
use vstd::prelude::*;
use crate::record::LogLevel;
use crate::text::{eq_ignoring_ascii_case, equals_ignoring_ascii_case};

verus! {

pub struct LogParser {}

impl LogParser {
    pub fn new() -> (r: LogParser) {
        LogParser {}
    }

    /// The level named `name` (`error`, `warn`, `info`, `debug` or `trace`,
    /// ASCII letters in any case).
    pub fn parse_level(&self, name: &str) -> (r: Option<LogLevel>)
        ensures
            r == (if eq_ignoring_ascii_case(name@, "error"@) {
                Some(LogLevel::Error)
            } else if eq_ignoring_ascii_case(name@, "warn"@) {
                Some(LogLevel::Warn)
            } else if eq_ignoring_ascii_case(name@, "info"@) {
                Some(LogLevel::Info)
            } else if eq_ignoring_ascii_case(name@, "debug"@) {
                Some(LogLevel::Debug)
            } else if eq_ignoring_ascii_case(name@, "trace"@) {
                Some(LogLevel::Trace)
            } else {
                None
            }),
    {
        if equals_ignoring_ascii_case(name, "error") {
            Some(LogLevel::Error)
        } else if equals_ignoring_ascii_case(name, "warn") {
            Some(LogLevel::Warn)
        } else if equals_ignoring_ascii_case(name, "info") {
            Some(LogLevel::Info)
        } else if equals_ignoring_ascii_case(name, "debug") {
            Some(LogLevel::Debug)
        } else if equals_ignoring_ascii_case(name, "trace") {
            Some(LogLevel::Trace)
        } else {
            None
        }
    }
}

} // verus!
