use chrono::{TimeZone, Utc};
use logify::combine::LogCombiner;
use logify::record::{LogEntry, LogLevel, Metadata, Timestamp};

fn at(h: u32, mi: u32, s: u32) -> Timestamp {
    Timestamp::from_millis(Utc.with_ymd_and_hms(2023, 1, 1, h, mi, s).unwrap().timestamp_millis())
}

fn request(id: &str) -> Metadata {
    let mut m = Metadata::new();
    m.insert("request_id".to_string(), serde_json::Value::from(id).to_string());
    m
}

fn create_test_entry(
    timestamp: Timestamp,
    level: LogLevel,
    action: &str,
    source: Option<&str>,
    metadata: Option<Metadata>,
) -> LogEntry {
    LogEntry::new(
        timestamp,
        level,
        "Test message".to_string(),
        action.to_string(),
        source.map(String::from),
        metadata,
    )
}

#[test]
fn test_combine_by_timestamp() {
    let primary_entries = vec![create_test_entry(at(0, 0, 0), LogLevel::Info, "action1", None, None)];
    let secondary_entries = vec![create_test_entry(at(0, 0, 1), LogLevel::Info, "action2", None, None)];
    let combiner = LogCombiner::new(&primary_entries, &secondary_entries);
    let combined = combiner.combine_by_timestamp(2_000);
    assert_eq!(combined.len(), 1);
    assert!(combined[0].secondary.is_some());
}

#[test]
fn test_combine_by_metadata_key() {
    let primary_entries =
        vec![create_test_entry(at(0, 0, 0), LogLevel::Info, "action1", None, Some(request("123")))];
    let secondary_entries =
        vec![create_test_entry(at(0, 0, 1), LogLevel::Info, "action2", None, Some(request("123")))];
    let combiner = LogCombiner::new(&primary_entries, &secondary_entries);
    let combined = combiner.combine_by_metadata_key("request_id");
    assert_eq!(combined.len(), 1);
    assert!(combined[0].secondary.is_some());
}

#[test]
fn test_merge_chronologically() {
    let primary_entries = vec![create_test_entry(at(0, 0, 0), LogLevel::Info, "action1", None, None)];
    let secondary_entries = vec![create_test_entry(at(0, 0, 1), LogLevel::Info, "action2", None, None)];
    let combiner = LogCombiner::new(&primary_entries, &secondary_entries);
    let merged = combiner.merge_chronologically();
    assert_eq!(merged.len(), 2);
    assert!(merged[0].timestamp() <= merged[1].timestamp());
}

#[test]
fn test_combine_by_source() {
    let primary_entries = vec![create_test_entry(at(0, 0, 0), LogLevel::Info, "action1", Some("web"), None)];
    let secondary_entries =
        vec![create_test_entry(at(0, 0, 1), LogLevel::Info, "action2", Some("web"), None)];
    let combiner = LogCombiner::new(&primary_entries, &secondary_entries);
    let source_groups = combiner.combine_by_source();
    assert_eq!(source_groups.len(), 1);
    assert_eq!(source_groups.get("web").unwrap().len(), 2);
}

#[test]
fn tolerance_decides_pairing() {
    let primary = vec![create_test_entry(at(0, 0, 0), LogLevel::Info, "p", None, None)];
    let secondary = vec![create_test_entry(at(0, 0, 1), LogLevel::Info, "s", None, None)];
    let combiner = LogCombiner::new(&primary, &secondary);
    let paired = combiner.combine_by_timestamp(2_000);
    assert_eq!(paired[0].secondary.unwrap().action, "s");
    let unpaired = combiner.combine_by_timestamp(500);
    assert!(unpaired[0].secondary.is_none());
    assert_eq!(unpaired[0].primary.action, "p");
}

#[test]
fn nearest_secondary_wins_and_ties_go_to_first() {
    let primary = vec![create_test_entry(at(0, 0, 10), LogLevel::Info, "p", None, None)];
    let secondary = vec![
        create_test_entry(at(0, 0, 13), LogLevel::Info, "far", None, None),
        create_test_entry(at(0, 0, 8), LogLevel::Info, "near-before", None, None),
        create_test_entry(at(0, 0, 12), LogLevel::Info, "near-after", None, None),
    ];
    let combined = LogCombiner::new(&primary, &secondary).combine_by_timestamp(5_000);
    assert_eq!(combined[0].secondary.unwrap().action, "near-before");
}

#[test]
fn merge_puts_earlier_secondary_first() {
    let primary = vec![create_test_entry(at(1, 0, 0), LogLevel::Info, "primary", None, None)];
    let secondary = vec![create_test_entry(at(0, 0, 0), LogLevel::Info, "secondary", None, None)];
    let merged = LogCombiner::new(&primary, &secondary).merge_chronologically();
    assert_eq!(merged.len(), 2);
    assert_eq!(merged[0].action, "secondary");
    assert_eq!(merged[1].action, "primary");
}

#[test]
fn merge_is_stable_for_equal_timestamps() {
    let primary = vec![
        create_test_entry(at(0, 0, 5), LogLevel::Info, "first-primary", None, None),
        create_test_entry(at(0, 0, 1), LogLevel::Info, "second-primary", None, None),
    ];
    let secondary = vec![
        create_test_entry(at(0, 0, 5), LogLevel::Info, "first-secondary", None, None),
        create_test_entry(at(0, 0, 1), LogLevel::Info, "second-secondary", None, None),
    ];
    let merged = LogCombiner::new(&primary, &secondary).merge_chronologically();
    let actions: Vec<&str> = merged.iter().map(|e| e.action.as_str()).collect();
    assert_eq!(actions, vec!["second-primary", "second-secondary", "first-primary", "first-secondary"]);
}

#[test]
fn metadata_pairing_uses_last_match_and_skips_missing_keys() {
    let primary = vec![
        create_test_entry(at(0, 0, 0), LogLevel::Info, "first-primary", None, Some(request("1"))),
        create_test_entry(at(0, 0, 1), LogLevel::Info, "second-primary", None, None),
        create_test_entry(at(0, 0, 2), LogLevel::Info, "third-primary", None, Some(request("9"))),
    ];
    let secondary = vec![
        create_test_entry(at(0, 0, 0), LogLevel::Info, "first-secondary", None, Some(request("1"))),
        create_test_entry(at(0, 0, 1), LogLevel::Info, "second-secondary", None, Some(request("1"))),
    ];
    let combined = LogCombiner::new(&primary, &secondary).combine_by_metadata_key("request_id");
    assert_eq!(combined.len(), 3);
    assert_eq!(combined[0].secondary.unwrap().action, "second-secondary");
    assert!(combined[1].secondary.is_none());
    assert!(combined[2].secondary.is_none());
}

#[test]
fn source_grouping_excludes_records_without_source() {
    let primary = vec![
        create_test_entry(at(0, 0, 0), LogLevel::Info, "first-primary", Some("db"), None),
        create_test_entry(at(0, 0, 1), LogLevel::Info, "second-primary", None, None),
        create_test_entry(at(0, 0, 2), LogLevel::Info, "third-primary", Some("web"), None),
    ];
    let secondary = vec![create_test_entry(at(0, 0, 3), LogLevel::Info, "first-secondary", Some("db"), None)];
    let groups = LogCombiner::new(&primary, &secondary).combine_by_source();
    assert_eq!(groups.len(), 2);
    let db: Vec<&str> = groups.get("db").unwrap().iter().map(|e| e.action.as_str()).collect();
    assert_eq!(db, vec!["first-primary", "first-secondary"]);
    assert_eq!(groups.groups[0].0, "db");
    assert_eq!(groups.groups[1].0, "web");
    assert!(groups.get("none").is_none());
}
