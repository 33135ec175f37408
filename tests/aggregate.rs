use chrono::{TimeZone, Utc};
use logify::aggregate::LogAggregator;
use logify::record::{LogEntry, LogLevel, Metadata, Timestamp};

fn at(h: u32, mi: u32, s: u32) -> Timestamp {
    Timestamp::from_millis(Utc.with_ymd_and_hms(2023, 1, 1, h, mi, s).unwrap().timestamp_millis())
}

fn json_text(s: &str) -> String {
    serde_json::Value::from(s).to_string()
}

fn create_test_entry(
    timestamp: Timestamp,
    level: LogLevel,
    action: &str,
    source: Option<&str>,
    metadata: Option<Metadata>,
) -> LogEntry {
    LogEntry::new(
        timestamp,
        level,
        "Test message".to_string(),
        action.to_string(),
        source.map(String::from),
        metadata,
    )
}

fn status_success() -> Metadata {
    let mut m = Metadata::new();
    m.insert("status".to_string(), json_text("success"));
    m
}

#[test]
fn test_calculate_stats() {
    let entries = vec![
        create_test_entry(at(0, 0, 0), LogLevel::Info, "login", Some("web"), None),
        create_test_entry(at(0, 0, 1), LogLevel::Error, "login", Some("web"), None),
    ];
    let aggregator = LogAggregator::new(&entries);
    let stats = aggregator.calculate_stats();
    assert_eq!(stats.total_entries, 2);
    assert_eq!(*stats.level_counts.get(&LogLevel::Info).unwrap(), 1);
    assert_eq!(*stats.level_counts.get(&LogLevel::Error).unwrap(), 1);
    assert_eq!(*stats.action_counts.get("login").unwrap(), 2);
}

#[test]
fn test_calculate_time_stats() {
    let entries = vec![
        create_test_entry(at(0, 0, 0), LogLevel::Info, "login", None, None),
        create_test_entry(at(1, 0, 0), LogLevel::Info, "logout", None, None),
    ];
    let aggregator = LogAggregator::new(&entries);
    let stats = aggregator.calculate_time_stats().unwrap();
    let (hn, hd) = stats.duration_hours_ratio();
    assert_eq!(hn as f64 / hd as f64, 1.0);
    let (en, ed) = stats.entries_per_hour_ratio();
    assert_eq!(en as f64 / ed as f64, 2.0);
}

#[test]
fn test_group_by_window() {
    let entries = vec![
        create_test_entry(at(0, 0, 0), LogLevel::Info, "action1", None, None),
        create_test_entry(at(0, 30, 0), LogLevel::Info, "action2", None, None),
    ];
    let aggregator = LogAggregator::new(&entries);
    let windows = aggregator.group_by_window(3_600_000).unwrap();
    assert_eq!(windows.len(), 1);
    assert_eq!(windows[0].1.len(), 2);
}

#[test]
fn test_aggregate_metadata_values() {
    let entries = vec![
        create_test_entry(at(0, 0, 0), LogLevel::Info, "action1", None, Some(status_success())),
        create_test_entry(at(0, 0, 1), LogLevel::Info, "action2", None, Some(status_success())),
    ];
    let aggregator = LogAggregator::new(&entries);
    let status_counts = aggregator.aggregate_metadata_values("status");
    assert_eq!(*status_counts.get("\"success\"").unwrap(), 2);
}

#[test]
fn level_counts_add_up_to_total() {
    let entries = vec![
        create_test_entry(at(0, 0, 0), LogLevel::Info, "a", None, None),
        create_test_entry(at(0, 0, 1), LogLevel::Error, "b", Some("web"), None),
        create_test_entry(at(0, 0, 2), LogLevel::Debug, "a", None, None),
        create_test_entry(at(0, 0, 3), LogLevel::Info, "c", Some("db"), None),
        create_test_entry(at(0, 0, 4), LogLevel::Trace, "a", Some("web"), None),
    ];
    let stats = LogAggregator::new(&entries).calculate_stats();
    let c = stats.level_counts;
    let sum = c.count(&LogLevel::Error)
        + c.count(&LogLevel::Warn)
        + c.count(&LogLevel::Info)
        + c.count(&LogLevel::Debug)
        + c.count(&LogLevel::Trace);
    assert_eq!(sum, stats.total_entries);
    assert_eq!(c.len(), 4);
    assert!(c.get(&LogLevel::Warn).is_none());
    assert_eq!(stats.action_counts.len(), 3);
    assert_eq!(*stats.action_counts.get("a").unwrap(), 3);
    assert_eq!(stats.source_counts.len(), 2);
    assert_eq!(*stats.source_counts.get("web").unwrap(), 2);
    assert!(stats.source_counts.get("none").is_none());
}

#[test]
fn time_stats_absent_for_no_records() {
    let entries: Vec<LogEntry> = Vec::new();
    assert!(LogAggregator::new(&entries).calculate_time_stats().is_none());
}

#[test]
fn time_stats_single_timestamp_falls_back_to_count() {
    let entries = vec![
        create_test_entry(at(5, 0, 0), LogLevel::Info, "a", None, None),
        create_test_entry(at(5, 0, 0), LogLevel::Info, "b", None, None),
        create_test_entry(at(5, 0, 0), LogLevel::Info, "c", None, None),
    ];
    let stats = LogAggregator::new(&entries).calculate_time_stats().unwrap();
    assert_eq!(stats.duration_ms, 0);
    assert_eq!(stats.entries_per_hour_ratio(), (3, 1));
}

#[test]
fn time_stats_use_least_and_greatest() {
    let entries = vec![
        create_test_entry(at(2, 0, 0), LogLevel::Info, "a", None, None),
        create_test_entry(at(1, 0, 0), LogLevel::Info, "b", None, None),
        create_test_entry(at(4, 0, 0), LogLevel::Info, "c", None, None),
    ];
    let stats = LogAggregator::new(&entries).calculate_time_stats().unwrap();
    assert_eq!(stats.start_time, at(1, 0, 0));
    assert_eq!(stats.end_time, at(4, 0, 0));
    assert_eq!(stats.duration_ms, 3 * 3_600_000);
    let (en, ed) = stats.entries_per_hour_ratio();
    assert_eq!(en * 1000 / ed, 1000);
}

#[test]
fn windows_skip_empty_buckets() {
    let entries = vec![
        create_test_entry(at(0, 0, 0), LogLevel::Info, "a", None, None),
        create_test_entry(at(0, 10, 0), LogLevel::Info, "b", None, None),
        create_test_entry(at(3, 30, 0), LogLevel::Info, "c", None, None),
        create_test_entry(at(4, 0, 0), LogLevel::Info, "d", None, None),
        create_test_entry(at(4, 0, 1), LogLevel::Info, "e", None, None),
    ];
    let windows = LogAggregator::new(&entries).group_by_window(3_600_000).unwrap();
    assert_eq!(windows.len(), 3);
    assert_eq!(windows[0].0, at(0, 0, 0));
    assert_eq!(windows[0].1.len(), 2);
    assert_eq!(windows[1].0, at(3, 0, 0));
    assert_eq!(windows[1].1.len(), 2);
    assert_eq!(windows[2].0, at(4, 0, 0));
    assert_eq!(windows[2].1.len(), 1);
    let total: usize = windows.iter().map(|w| w.1.len()).sum();
    assert_eq!(total, entries.len());
    assert_eq!(windows[2].1[0].action, "e");
}

#[test]
fn windows_of_nothing_are_empty() {
    let entries: Vec<LogEntry> = Vec::new();
    assert!(LogAggregator::new(&entries).group_by_window(1000).unwrap().is_empty());
}

#[test]
fn window_width_must_be_positive() {
    let entries = vec![create_test_entry(at(0, 0, 0), LogLevel::Info, "a", None, None)];
    let aggregator = LogAggregator::new(&entries);
    assert!(matches!(
        aggregator.group_by_window(0),
        Err(logify::error::LogifyError::ConfigError(_))
    ));
    assert!(aggregator.group_by_window(-5).is_err());
}

#[test]
fn metadata_values_skip_records_without_key() {
    let mut other = Metadata::new();
    other.insert("user".to_string(), json_text("bob"));
    let entries = vec![
        create_test_entry(at(0, 0, 0), LogLevel::Info, "a", None, Some(status_success())),
        create_test_entry(at(0, 0, 1), LogLevel::Info, "a", None, Some(other)),
        create_test_entry(at(0, 0, 2), LogLevel::Info, "a", None, None),
    ];
    let counts = LogAggregator::new(&entries).aggregate_metadata_values("status");
    assert_eq!(counts.len(), 1);
    assert_eq!(*counts.get("\"success\"").unwrap(), 1);
}
