//! Output formats.
use vstd::prelude::*;
use crate::error::LogifyError;
use crate::text::{ascii_lower, eq_ignoring_ascii_case, equals_ignoring_ascii_case};

verus! {

#[derive(Clone, Copy, Debug, PartialEq, Eq, Structural)]
pub enum ExportFormat {
    Json,
    Csv,
    Text,
}

impl ExportFormat {
    /// The format named `s` (`json`, `csv` or `text`, in any case); an
    /// unknown name is an error that carries it.
    pub fn from_str(s: &str) -> (r: Result<ExportFormat, LogifyError>)
        ensures
            eq_ignoring_ascii_case(s@, "json"@) ==> r == Ok::<ExportFormat, LogifyError>(ExportFormat::Json),
            eq_ignoring_ascii_case(s@, "csv"@) ==> r == Ok::<ExportFormat, LogifyError>(ExportFormat::Csv),
            eq_ignoring_ascii_case(s@, "text"@) ==> r == Ok::<ExportFormat, LogifyError>(ExportFormat::Text),
            !eq_ignoring_ascii_case(s@, "json"@) && !eq_ignoring_ascii_case(s@, "csv"@)
                && !eq_ignoring_ascii_case(s@, "text"@) ==> (r matches Err(LogifyError::InvalidFormat(t)) && t@ == s@),
    {
        proof {
            reveal_strlit("json");
            reveal_strlit("csv");
            reveal_strlit("text");
            if eq_ignoring_ascii_case(s@, "text"@) {
                assert(ascii_lower(s@[0]) == ascii_lower("text"@[0]));
                assert(ascii_lower(s@[0]) != ascii_lower("json"@[0]));
            }
        }
        if equals_ignoring_ascii_case(s, "json") {
            Ok(ExportFormat::Json)
        } else if equals_ignoring_ascii_case(s, "csv") {
            Ok(ExportFormat::Csv)
        } else if equals_ignoring_ascii_case(s, "text") {
            Ok(ExportFormat::Text)
        } else {
            Err(LogifyError::InvalidFormat(s.to_owned()))
        }
    }
}

} // verus!
