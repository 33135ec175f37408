use chrono::{TimeZone, Utc};
use logify::analyze::LogAnalyzer;
use logify::pattern::message_template;
use logify::record::{LogEntry, LogLevel, Metadata, Timestamp};

fn at(h: u32, mi: u32, s: u32) -> Timestamp {
    Timestamp::from_millis(Utc.with_ymd_and_hms(2023, 1, 1, h, mi, s).unwrap().timestamp_millis())
}

fn error_code(code: &str) -> Metadata {
    let mut m = Metadata::new();
    m.insert("error_code".to_string(), serde_json::Value::from(code).to_string());
    m
}

fn create_test_entry(
    timestamp: Timestamp,
    level: LogLevel,
    message: &str,
    action: &str,
    metadata: Option<Metadata>,
) -> LogEntry {
    LogEntry::new(
        timestamp,
        level,
        message.to_string(),
        action.to_string(),
        Some("test_source".to_string()),
        metadata,
    )
}

#[test]
fn test_time_series_generation() {
    let entries = vec![
        create_test_entry(at(0, 0, 0), LogLevel::Info, "Test message 1", "action1", None),
        create_test_entry(at(0, 0, 30), LogLevel::Error, "Test message 2", "action2", None),
    ];
    let analyzer = LogAnalyzer::new(&entries);
    let series = analyzer.generate_time_series(3_600_000).unwrap();
    assert_eq!(series.len(), 1);
    assert_eq!(series[0].count, 2);
}

#[test]
fn test_pattern_detection() {
    let entries = vec![
        create_test_entry(at(0, 0, 0), LogLevel::Info, "User 123 logged in", "login", None),
        create_test_entry(at(0, 0, 1), LogLevel::Info, "User 456 logged in", "login", None),
    ];
    let analyzer = LogAnalyzer::new(&entries);
    let patterns = analyzer.detect_patterns(2);
    assert_eq!(patterns.len(), 1);
    assert_eq!(patterns[0].occurrences, 2);
}

#[test]
fn test_error_analysis() {
    let entries = vec![
        create_test_entry(
            at(0, 0, 0),
            LogLevel::Error,
            "Database connection failed",
            "db_connect",
            Some(error_code("DB001")),
        ),
        create_test_entry(
            at(0, 0, 1),
            LogLevel::Error,
            "Database connection failed again",
            "db_connect",
            Some(error_code("DB001")),
        ),
    ];
    let analyzer = LogAnalyzer::new(&entries);
    let error_analysis = analyzer.analyze_errors();
    assert_eq!(error_analysis.len(), 1);
    assert_eq!(error_analysis[0].frequency, 2);
}

#[test]
fn templates_collapse_numbers() {
    assert_eq!(message_template("User 123 logged in"), "User # logged in");
    assert_eq!(message_template("User 456 logged in"), "User # logged in");
    assert_eq!(message_template("  took\t42 ms\n"), "took # ms");
    assert_eq!(message_template("v2 12a 007"), "v2 12a #");
    assert_eq!(message_template(""), "");
    assert_eq!(message_template("   "), "");
}

#[test]
fn patterns_group_and_report_span_and_actions() {
    let entries = vec![
        create_test_entry(at(0, 0, 5), LogLevel::Info, "User 123 logged in", "login", None),
        create_test_entry(at(0, 0, 1), LogLevel::Info, "Disk full", "disk", None),
        create_test_entry(at(0, 0, 9), LogLevel::Info, "User 456 logged in", "sso", None),
        create_test_entry(at(0, 0, 2), LogLevel::Info, "User 7 logged in", "login", None),
    ];
    let patterns = LogAnalyzer::new(&entries).detect_patterns(2);
    assert_eq!(patterns.len(), 1);
    let p = &patterns[0];
    assert_eq!(p.pattern, "User # logged in");
    assert_eq!(p.occurrences, 3);
    assert_eq!(p.first_seen, at(0, 0, 2));
    assert_eq!(p.last_seen, at(0, 0, 9));
    let mut actions = p.related_actions.clone();
    actions.sort();
    assert_eq!(actions, vec!["login".to_string(), "sso".to_string()]);
    let all = LogAnalyzer::new(&entries).detect_patterns(1);
    assert_eq!(all.len(), 2);
    assert_eq!(all[0].pattern, "User # logged in");
    assert_eq!(all[1].pattern, "Disk full");
    assert!(LogAnalyzer::new(&entries).detect_patterns(4).is_empty());
}

#[test]
fn errors_grouped_by_code_with_unknown() {
    let entries = vec![
        create_test_entry(at(0, 0, 3), LogLevel::Error, "first", "a", Some(error_code("DB001"))),
        create_test_entry(at(0, 0, 1), LogLevel::Error, "no code", "a", None),
        create_test_entry(at(0, 0, 2), LogLevel::Info, "not an error", "a", Some(error_code("DB001"))),
        create_test_entry(at(0, 0, 0), LogLevel::Error, "second", "a", Some(error_code("DB001"))),
    ];
    let errors = LogAnalyzer::new(&entries).analyze_errors();
    assert_eq!(errors.len(), 2);
    assert_eq!(errors[0].error_code, "\"DB001\"");
    assert_eq!(errors[0].frequency, 2);
    assert_eq!(errors[0].first_occurrence, at(0, 0, 0));
    assert_eq!(errors[0].last_occurrence, at(0, 0, 3));
    assert_eq!(errors[0].related_messages, vec!["first".to_string(), "second".to_string()]);
    assert_eq!(errors[1].error_code, "UNKNOWN");
    assert_eq!(errors[1].frequency, 1);
}

#[test]
fn time_series_counts_levels_per_window() {
    let entries = vec![
        create_test_entry(at(0, 0, 0), LogLevel::Info, "m", "a", None),
        create_test_entry(at(0, 20, 0), LogLevel::Error, "m", "a", None),
        create_test_entry(at(2, 10, 0), LogLevel::Error, "m", "a", None),
    ];
    let series = LogAnalyzer::new(&entries).generate_time_series(3_600_000).unwrap();
    assert_eq!(series.len(), 2);
    assert_eq!(series[0].timestamp, at(0, 0, 0));
    assert_eq!(series[0].level_distribution.count(&LogLevel::Info), 1);
    assert_eq!(series[0].level_distribution.count(&LogLevel::Error), 1);
    assert_eq!(series[1].timestamp, at(2, 0, 0));
    assert_eq!(series[1].count, 1);
    assert!(LogAnalyzer::new(&entries).generate_time_series(0).is_err());
}

fn series_with_counts(counts: &[usize]) -> Vec<LogEntry> {
    let mut entries = Vec::new();
    for (h, c) in counts.iter().enumerate() {
        for k in 0..*c {
            let second = k as u32 + if h == 0 { 0 } else { 1 };
            entries.push(create_test_entry(at(h as u32, 10, second), LogLevel::Info, "m", "a", None));
        }
    }
    entries
}

#[test]
fn constant_series_has_no_anomalies() {
    let entries = series_with_counts(&[10, 10, 10, 10, 10]);
    let analyzer = LogAnalyzer::new(&entries);
    assert_eq!(analyzer.generate_time_series(3_600_000).unwrap().len(), 5);
    for (num, den) in [(0u64, 1u64), (1, 2), (2, 1), (100, 1)] {
        assert!(analyzer.detect_anomalies(3_600_000, num, den).unwrap().is_empty());
    }
}

#[test]
fn spike_is_an_anomaly() {
    let entries = series_with_counts(&[2, 2, 2, 2, 20]);
    let analyzer = LogAnalyzer::new(&entries);
    let flagged = analyzer.detect_anomalies(3_600_000, 3, 2).unwrap();
    assert_eq!(flagged.len(), 1);
    assert_eq!(flagged[0], at(4, 10, 0));
    assert!(analyzer.detect_anomalies(3_600_000, 2, 1).unwrap().is_empty());
}

#[test]
fn anomaly_configuration_errors_and_single_window() {
    let entries = series_with_counts(&[3]);
    let analyzer = LogAnalyzer::new(&entries);
    assert!(analyzer.detect_anomalies(0, 1, 1).is_err());
    assert!(analyzer.detect_anomalies(1000, 1, 0).is_err());
    assert!(analyzer.detect_anomalies(3_600_000, 0, 1).unwrap().is_empty());
}
