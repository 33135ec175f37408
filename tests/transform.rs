use chrono::{TimeZone, Utc};
use logify::record::{LogEntry, LogLevel, Metadata, Timestamp};
use logify::transform::LogTransformer;

fn at(h: u32, mi: u32, s: u32) -> Timestamp {
    Timestamp::from_millis(Utc.with_ymd_and_hms(2023, 1, 1, h, mi, s).unwrap().timestamp_millis())
}

fn create_test_entry(timestamp: Timestamp, level: LogLevel, message: &str, metadata: Option<Metadata>) -> LogEntry {
    LogEntry::new(
        timestamp,
        level,
        message.to_string(),
        "test_action".to_string(),
        Some("test_source".to_string()),
        metadata,
    )
}

#[test]
fn test_map_transformation() {
    let entries = vec![create_test_entry(at(0, 0, 0), LogLevel::Info, "Test message", None)];
    let transformer = LogTransformer::new(&entries);
    let messages: Vec<String> = transformer.map(|entry| entry.message().to_string());
    assert_eq!(messages, vec!["Test message"]);
}

#[test]
fn test_flatten_metadata() {
    let mut m = Metadata::new();
    m.insert("user_id".to_string(), serde_json::Value::from("123").to_string());
    m.insert("session_id".to_string(), serde_json::Value::from("abc").to_string());
    let entries = vec![create_test_entry(at(0, 0, 0), LogLevel::Info, "Test message", Some(m))];
    let transformer = LogTransformer::new(&entries);
    let flattened = transformer.flatten_metadata(&["user_id", "session_id"]);
    assert_eq!(flattened[0].len(), 2);
}

#[test]
fn test_end_to_end_transformation() {
    let entries = vec![
        create_test_entry(at(0, 0, 0), LogLevel::Info, "User login successful", None),
        create_test_entry(at(0, 0, 1), LogLevel::Error, "Database connection failed", None),
    ];
    let transformer = LogTransformer::new(&entries);
    let transformed = transformer.map(|entry| entry.message().to_string());
    assert_eq!(transformed.len(), 2);
    assert!(transformed.contains(&"User login successful".to_string()));
}

#[test]
fn flatten_picks_only_listed_keys() {
    let mut m = Metadata::new();
    m.insert("a".to_string(), "1".to_string());
    m.insert("b".to_string(), "2".to_string());
    let entries = vec![
        create_test_entry(at(0, 0, 0), LogLevel::Info, "x", Some(m)),
        create_test_entry(at(0, 0, 1), LogLevel::Info, "y", None),
    ];
    let flattened = LogTransformer::new(&entries).flatten_metadata(&["b", "c"]);
    assert_eq!(flattened.len(), 2);
    assert_eq!(flattened[0].len(), 1);
    assert_eq!(flattened[0].get("b").unwrap(), "2");
    assert!(flattened[0].get("a").is_none());
    assert_eq!(flattened[1].len(), 0);
}

#[test]
fn transform_by_level_keeps_what_the_rule_returns() {
    let entries = vec![
        create_test_entry(at(0, 0, 0), LogLevel::Info, "keep", None),
        create_test_entry(at(0, 0, 1), LogLevel::Debug, "drop", None),
        create_test_entry(at(0, 0, 2), LogLevel::Error, "keep too", None),
    ];
    let kept = LogTransformer::new(&entries).transform_by_level(|e, level| {
        if *level == LogLevel::Debug {
            None
        } else {
            Some(e.clone())
        }
    });
    let messages: Vec<&str> = kept.iter().map(|e| e.message.as_str()).collect();
    assert_eq!(messages, vec!["keep", "keep too"]);
}
