//! Errors of the library.
use vstd::prelude::*;

verus! {

/// What can go wrong. Errors raised by outside collaborators (file access,
/// JSON, CSV, time parsing) arrive here as their message text.
#[derive(Clone, Debug)]
pub enum LogifyError {
    Parser(String),
    Io(String),
    ParseError(String),
    FormatError(String),
    JsonError(String),
    CsvError(String),
    TimeError(String),
    ConfigError(String),
    FilterError(String),
    ExportError(String),
    AnalysisError(String),
    OperationError(String),
    MissingField(String),
    ValidationError(String),
    InvalidFormat(String),
}

/// A failure to read log input, carrying the reader's message.
#[derive(Clone, Debug)]
pub enum ParseError {
    Io(String),
}

/// `prefix` followed by `text`.
pub fn prefixed(prefix: &str, text: &String) -> (r: String)
    ensures
        r@ == prefix@ + text@,
{
    let mut s = prefix.to_owned();
    s.append(text.as_str());
    s
}

impl LogifyError {
    /// The message carried by the error.
    pub open spec fn detail(&self) -> Seq<char> {
        match self {
            LogifyError::Parser(m) => m@,
            LogifyError::Io(m) => m@,
            LogifyError::ParseError(m) => m@,
            LogifyError::FormatError(m) => m@,
            LogifyError::JsonError(m) => m@,
            LogifyError::CsvError(m) => m@,
            LogifyError::TimeError(m) => m@,
            LogifyError::ConfigError(m) => m@,
            LogifyError::FilterError(m) => m@,
            LogifyError::ExportError(m) => m@,
            LogifyError::AnalysisError(m) => m@,
            LogifyError::OperationError(m) => m@,
            LogifyError::MissingField(m) => m@,
            LogifyError::ValidationError(m) => m@,
            LogifyError::InvalidFormat(m) => m@,
        }
    }

    /// Returns true if the error is related to I/O operations.
    pub fn is_io_error(&self) -> (r: bool)
        ensures
            r == self is Io,
    {
        matches!(self, LogifyError::Io(_))
    }

    /// Returns true if the error is related to parsing.
    pub fn is_parse_error(&self) -> (r: bool)
        ensures
            r == self is ParseError,
    {
        matches!(self, LogifyError::ParseError(_))
    }

    /// Returns true if the error is related to validation.
    pub fn is_validation_error(&self) -> (r: bool)
        ensures
            r == self is ValidationError,
    {
        matches!(self, LogifyError::ValidationError(_))
    }

    /// The heading of the error's message, before its detail.
    pub open spec fn heading_of(&self) -> Seq<char> {
        match self {
            LogifyError::Parser(_) => "Parser error: "@,
            LogifyError::Io(_) => "IO error: "@,
            LogifyError::ParseError(_) => "Failed to parse log file: "@,
            LogifyError::FormatError(_) => "Invalid log format: "@,
            LogifyError::JsonError(_) => "JSON error: "@,
            LogifyError::CsvError(_) => "CSV error: "@,
            LogifyError::TimeError(_) => "Date/time parsing error: "@,
            LogifyError::ConfigError(_) => "Configuration error: "@,
            LogifyError::FilterError(_) => "Invalid filter condition: "@,
            LogifyError::ExportError(_) => "Export error: "@,
            LogifyError::AnalysisError(_) => "Analysis error: "@,
            LogifyError::OperationError(_) => "Invalid operation: "@,
            LogifyError::MissingField(_) => "Missing required field: "@,
            LogifyError::ValidationError(_) => "Validation error: "@,
            LogifyError::InvalidFormat(_) => "Invalid format: "@,
        }
    }

    pub fn heading(&self) -> (r: &'static str)
        ensures
            r@ == self.heading_of(),
    {
        match self {
            LogifyError::Parser(_) => "Parser error: ",
            LogifyError::Io(_) => "IO error: ",
            LogifyError::ParseError(_) => "Failed to parse log file: ",
            LogifyError::FormatError(_) => "Invalid log format: ",
            LogifyError::JsonError(_) => "JSON error: ",
            LogifyError::CsvError(_) => "CSV error: ",
            LogifyError::TimeError(_) => "Date/time parsing error: ",
            LogifyError::ConfigError(_) => "Configuration error: ",
            LogifyError::FilterError(_) => "Invalid filter condition: ",
            LogifyError::ExportError(_) => "Export error: ",
            LogifyError::AnalysisError(_) => "Analysis error: ",
            LogifyError::OperationError(_) => "Invalid operation: ",
            LogifyError::MissingField(_) => "Missing required field: ",
            LogifyError::ValidationError(_) => "Validation error: ",
            LogifyError::InvalidFormat(_) => "Invalid format: ",
        }
    }

    /// The detail carried by the error.
    pub fn detail_text(&self) -> (r: &String)
        ensures
            r@ == self.detail(),
    {
        match self {
            LogifyError::Parser(m) => m,
            LogifyError::Io(m) => m,
            LogifyError::ParseError(m) => m,
            LogifyError::FormatError(m) => m,
            LogifyError::JsonError(m) => m,
            LogifyError::CsvError(m) => m,
            LogifyError::TimeError(m) => m,
            LogifyError::ConfigError(m) => m,
            LogifyError::FilterError(m) => m,
            LogifyError::ExportError(m) => m,
            LogifyError::AnalysisError(m) => m,
            LogifyError::OperationError(m) => m,
            LogifyError::MissingField(m) => m,
            LogifyError::ValidationError(m) => m,
            LogifyError::InvalidFormat(m) => m,
        }
    }

    /// The error's message: its heading followed by its detail.
    pub fn message(&self) -> (r: String)
        ensures
            r@ == self.heading_of() + self.detail(),
    {
        prefixed(self.heading(), self.detail_text())
    }

    /// The heading of the error's message for people, before its detail.
    pub open spec fn friendly_heading_of(&self) -> Seq<char> {
        match self {
            LogifyError::Parser(_) => "Parser error: "@,
            LogifyError::Io(_) => "File operation failed: "@,
            LogifyError::ParseError(_) => "Failed to parse log file: "@,
            LogifyError::FormatError(_) => "Invalid log format: "@,
            LogifyError::JsonError(_) => "JSON processing failed: "@,
            LogifyError::CsvError(_) => "CSV processing failed: "@,
            LogifyError::TimeError(_) => "Invalid date/time format: "@,
            LogifyError::ConfigError(_) => "Configuration error: "@,
            LogifyError::FilterError(_) => "Invalid filter: "@,
            LogifyError::ExportError(_) => "Export failed: "@,
            LogifyError::AnalysisError(_) => "Analysis failed: "@,
            LogifyError::OperationError(_) => "Invalid operation: "@,
            LogifyError::MissingField(_) => "Missing required field: "@,
            LogifyError::ValidationError(_) => "Validation failed: "@,
            LogifyError::InvalidFormat(_) => "Invalid format: "@,
        }
    }

    fn friendly_heading(&self) -> (r: &'static str)
        ensures
            r@ == self.friendly_heading_of(),
    {
        match self {
            LogifyError::Parser(_) => "Parser error: ",
            LogifyError::Io(_) => "File operation failed: ",
            LogifyError::ParseError(_) => "Failed to parse log file: ",
            LogifyError::FormatError(_) => "Invalid log format: ",
            LogifyError::JsonError(_) => "JSON processing failed: ",
            LogifyError::CsvError(_) => "CSV processing failed: ",
            LogifyError::TimeError(_) => "Invalid date/time format: ",
            LogifyError::ConfigError(_) => "Configuration error: ",
            LogifyError::FilterError(_) => "Invalid filter: ",
            LogifyError::ExportError(_) => "Export failed: ",
            LogifyError::AnalysisError(_) => "Analysis failed: ",
            LogifyError::OperationError(_) => "Invalid operation: ",
            LogifyError::MissingField(_) => "Missing required field: ",
            LogifyError::ValidationError(_) => "Validation failed: ",
            LogifyError::InvalidFormat(_) => "Invalid format: ",
        }
    }

    /// The error's message for people: a plainer heading followed by its detail.
    pub fn user_friendly_message(&self) -> (r: String)
        ensures
            r@ == self.friendly_heading_of() + self.detail(),
    {
        prefixed(self.friendly_heading(), self.detail_text())
    }
}

} // verus!
