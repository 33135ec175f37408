use chrono::{TimeZone, Utc};
use logify::config::LogifyConfig;
use logify::error::LogifyError;
use logify::export::ExportFormat;
use logify::filter::LogFilter;
use logify::models::ActionType;
use logify::parser::LogParser;
use logify::record::{LogEntry, LogLevel, Metadata, Timestamp};
use logify::utils::{pair_log_entries, pair_log_sources_with_messages, pair_with_ids};

fn at(h: u32, mi: u32, s: u32) -> Timestamp {
    Timestamp::from_millis(Utc.with_ymd_and_hms(2023, 1, 1, h, mi, s).unwrap().timestamp_millis())
}

fn create_test_logs() -> Vec<LogEntry> {
    let parser = LogParser::new();
    let mut user = Metadata::new();
    user.insert("user_id".to_string(), serde_json::Value::from("123").to_string());
    let mut code = Metadata::new();
    code.insert("error_code".to_string(), serde_json::Value::from("DB001").to_string());
    vec![
        LogEntry::new(
            at(0, 0, 0),
            parser.parse_level("INFO").unwrap(),
            "User login successful".to_string(),
            "login".to_string(),
            Some("auth".to_string()),
            Some(user),
        ),
        LogEntry::new(
            at(0, 0, 1),
            parser.parse_level("ERROR").unwrap(),
            "Database connection failed".to_string(),
            "db_connect".to_string(),
            Some("database".to_string()),
            Some(code),
        ),
    ]
}

#[test]
fn test_default_config() {
    let config = LogifyConfig::default();
    assert_eq!(config.export.default_format, "json");
    assert_eq!(config.analysis.time_window_minutes, 60);
}

#[test]
fn test_merge_configs() {
    let mut base_config = LogifyConfig::default();
    let mut other_config = LogifyConfig::default();
    other_config.general.verbose = true;
    other_config.export.default_format = "csv".to_string();
    base_config.merge(other_config);
    assert!(base_config.general.verbose);
    assert_eq!(base_config.export.default_format, "csv");
}

#[test]
fn merge_appends_patterns_and_keeps_absent_values() {
    let mut base = LogifyConfig::new();
    base.filter.exclude_patterns.push("a".to_string());
    let mut other = LogifyConfig::new();
    other.filter.exclude_patterns.push("b".to_string());
    other.general.timezone = None;
    base.merge(other);
    assert_eq!(base.filter.exclude_patterns, vec!["a".to_string(), "b".to_string()]);
    assert_eq!(base.general.timezone, Some("UTC".to_string()));
}

#[test]
fn test_validation_error_macro() {
    let error = LogifyError::ValidationError(format!("Invalid value: {}", 42));
    assert!(matches!(error, LogifyError::ValidationError(_)));
    assert_eq!(error.message(), "Validation error: Invalid value: 42");
}

#[test]
fn test_parse_error_macro() {
    let error = LogifyError::ParseError(format!("Failed to parse line {}", 1));
    assert!(matches!(error, LogifyError::ParseError(_)));
    assert_eq!(error.message(), "Failed to parse log file: Failed to parse line 1");
}

#[test]
fn test_user_friendly_message() {
    let error = LogifyError::MissingField("timestamp".to_string());
    assert_eq!(error.user_friendly_message(), "Missing required field: timestamp");
}

#[test]
fn test_error_categorization() {
    let parse_error = LogifyError::ParseError("test".to_string());
    let validation_error = LogifyError::ValidationError("test".to_string());
    assert!(parse_error.is_parse_error());
    assert!(validation_error.is_validation_error());
    assert!(!parse_error.is_io_error());
    assert!(LogifyError::Io("gone".to_string()).is_io_error());
}

#[test]
fn test_end_to_end_filtering() {
    let entries = create_test_logs();
    let level = LogParser::new().parse_level("ERROR").unwrap();
    let error_logs = LogFilter::new(entries).by_level(&level).entries();
    assert_eq!(error_logs.len(), 1);
    assert_eq!(error_logs[0].message(), "Database connection failed");
}

#[test]
fn filters_by_time_range_and_source() {
    let entries = create_test_logs();
    let kept = LogFilter::new(entries.clone()).by_time_range(at(0, 0, 1), at(0, 0, 5)).entries();
    assert_eq!(kept.len(), 1);
    assert_eq!(kept[0].action, "db_connect");
    let auth = LogFilter::new(entries).by_source("auth").entries();
    assert_eq!(auth.len(), 1);
    assert_eq!(auth[0].action, "login");
}

#[test]
fn levels_and_formats_by_name() {
    let parser = LogParser::new();
    assert_eq!(parser.parse_level("Warn"), Some(LogLevel::Warn));
    assert_eq!(parser.parse_level("verbose"), None);
    assert_eq!(ExportFormat::from_str("JSON").unwrap(), ExportFormat::Json);
    assert_eq!(ExportFormat::from_str("csv").unwrap(), ExportFormat::Csv);
    assert_eq!(ExportFormat::from_str("Text").unwrap(), ExportFormat::Text);
    match ExportFormat::from_str("xml") {
        Err(LogifyError::InvalidFormat(s)) => assert_eq!(s, "xml"),
        _ => panic!("expected an invalid format"),
    }
}

#[test]
fn actions_by_name() {
    assert_eq!(ActionType::from_name("login"), ActionType::Login);
    assert_eq!(ActionType::from_name("search"), ActionType::Search);
    assert_eq!(ActionType::from_name("upload"), ActionType::Custom("upload".to_string()));
}

#[test]
fn pairing_helpers() {
    let ids = vec!["a".to_string(), "b".to_string(), "c".to_string()];
    let pairs = pair_with_ids(ids, vec![1, 2]);
    assert_eq!(pairs, vec![("a".to_string(), 1), ("b".to_string(), 2)]);
    let logs = create_test_logs();
    let zipped = pair_log_entries(&logs, &logs[1..]);
    assert_eq!(zipped.len(), 1);
    assert_eq!(zipped[0].1.action, "db_connect");
    let sm = pair_log_sources_with_messages(&logs);
    assert_eq!(sm[0], (Some("auth".to_string()), "User login successful".to_string()));
}

#[test]
fn metadata_insert_replaces() {
    let mut m = Metadata::new();
    m.insert("k".to_string(), "1".to_string());
    m.insert("j".to_string(), "2".to_string());
    m.insert("k".to_string(), "3".to_string());
    assert_eq!(m.len(), 2);
    assert_eq!(m.get("k").unwrap(), "3");
    assert!(m.get("x").is_none());
}
