use devkit::error_tracker::{ErrorSeverity, ErrorTracker};

#[test]
fn new_tracker_is_empty() {
    let tracker = ErrorTracker::new();
    assert_eq!(tracker.total(), 0);
    assert_eq!(tracker.unique_count(), 0);
}

#[test]
fn record_adds_error() {
    let mut tracker = ErrorTracker::new();
    tracker.record("E001", "not found", "db", ErrorSeverity::Error);
    assert_eq!(tracker.total(), 1);
    assert_eq!(tracker.unique_count(), 1);
}

#[test]
fn record_same_code_increments_count() {
    let mut tracker = ErrorTracker::new();
    tracker.record("E001", "not found", "db", ErrorSeverity::Error);
    tracker.record("E001", "not found", "db", ErrorSeverity::Error);
    assert_eq!(tracker.total(), 2);
    assert_eq!(tracker.unique_count(), 1);
    assert_eq!(tracker.get("E001").unwrap().count, 2);
}

#[test]
fn by_severity_filters_correctly() {
    let mut tracker = ErrorTracker::new();
    tracker.record("W01", "warning", "net", ErrorSeverity::Warning);
    tracker.record("E01", "error", "net", ErrorSeverity::Error);
    tracker.record("C01", "critical", "db", ErrorSeverity::Critical);
    assert_eq!(tracker.by_severity(ErrorSeverity::Error).len(), 1);
    assert_eq!(tracker.by_severity(ErrorSeverity::Critical).len(), 1);
}

#[test]
fn by_module_filters() {
    let mut tracker = ErrorTracker::new();
    tracker.record("E01", "err", "http", ErrorSeverity::Error);
    tracker.record("E02", "err", "db", ErrorSeverity::Error);
    assert_eq!(tracker.by_module("http").len(), 1);
    assert_eq!(tracker.by_module("db").len(), 1);
}

#[test]
fn critical_count_tracks_critical() {
    let mut tracker = ErrorTracker::new();
    tracker.record("C01", "critical", "core", ErrorSeverity::Critical);
    tracker.record("E01", "error", "core", ErrorSeverity::Error);
    assert_eq!(tracker.criticals(), 1);
    assert_eq!(tracker.warnings(), 0);
}

#[test]
fn warning_count_tracks_warnings() {
    let mut tracker = ErrorTracker::new();
    tracker.record("W01", "warn", "net", ErrorSeverity::Warning);
    assert_eq!(tracker.warnings(), 1);
}

#[test]
fn reset_clears_all_state() {
    let mut tracker = ErrorTracker::new();
    tracker.record("E01", "err", "mod", ErrorSeverity::Error);
    tracker.reset();
    assert_eq!(tracker.total(), 0);
    assert_eq!(tracker.unique_count(), 0);
    assert_eq!(tracker.criticals(), 0);
}

#[test]
fn top_returns_most_frequent() {
    let mut tracker = ErrorTracker::new();
    tracker.record("E01", "common", "mod", ErrorSeverity::Error);
    tracker.record("E01", "common", "mod", ErrorSeverity::Error);
    tracker.record("E01", "common", "mod", ErrorSeverity::Error);
    tracker.record("E02", "rare", "mod", ErrorSeverity::Error);
    let top = tracker.top(1);
    assert_eq!(top.len(), 1);
    assert_eq!(top[0].code, "E01");
}

#[test]
fn to_json_contains_counts() {
    let mut tracker = ErrorTracker::new();
    tracker.record("E01", "err", "mod", ErrorSeverity::Error);
    let json = tracker.to_json();
    assert!(json.contains("\"total\":1"));
    assert!(json.contains("\"E01\""));
}

#[test]
fn summary_string_has_info() {
    let mut tracker = ErrorTracker::new();
    tracker.record("E01", "err", "mod", ErrorSeverity::Error);
    let s = tracker.summary();
    assert!(s.contains("Error Tracker"));
}

#[test]
fn severity_from_str() {
    assert_eq!(ErrorSeverity::from_str("critical"), Some(ErrorSeverity::Critical));
    assert_eq!(ErrorSeverity::from_str("unknown"), None);
}

#[test]
fn severity_as_str() {
    assert_eq!(ErrorSeverity::Debug.as_str(), "debug");
    assert_eq!(ErrorSeverity::Critical.as_str(), "critical");
}

#[test]
fn all_returns_all_errors() {
    let mut tracker = ErrorTracker::new();
    tracker.record("A", "a", "m", ErrorSeverity::Error);
    tracker.record("B", "b", "m", ErrorSeverity::Warning);
    assert_eq!(tracker.all().len(), 2);
}

#[test]
fn get_nonexistent_code() {
    let tracker = ErrorTracker::new();
    assert!(tracker.get("NONE").is_none());
}

#[test]
fn severity_names_parse_back_ignoring_case() {
    for s in [ErrorSeverity::Debug, ErrorSeverity::Warning, ErrorSeverity::Error, ErrorSeverity::Critical] {
        assert_eq!(ErrorSeverity::from_str(s.as_str()), Some(s));
        assert_eq!(ErrorSeverity::from_str(&s.as_str().to_uppercase()), Some(s));
    }
}

#[test]
fn total_is_sum_of_counts() {
    let mut tracker = ErrorTracker::new();
    tracker.record("A", "a", "m", ErrorSeverity::Error);
    tracker.record("B", "b", "m", ErrorSeverity::Critical);
    tracker.record("A", "a", "m", ErrorSeverity::Error);
    let sum: u64 = tracker.all().iter().map(|e| e.count).sum();
    assert_eq!(sum, tracker.total());
    assert_eq!(tracker.total(), 3);
    assert_eq!(tracker.criticals(), 1);
}

#[test]
fn all_in_code_order() {
    let mut tracker = ErrorTracker::new();
    tracker.record("Z9", "z", "m", ErrorSeverity::Debug);
    tracker.record("A1", "a", "m", ErrorSeverity::Debug);
    let codes: Vec<String> = tracker.all().iter().map(|e| e.code.clone()).collect();
    assert_eq!(codes, vec!["A1".to_string(), "Z9".to_string()]);
}

#[test]
fn record_updates_only_its_own_code() {
    let mut t = ErrorTracker::new();
    t.record("B", "b", "m1", ErrorSeverity::Warning);
    t.record("A", "a", "m2", ErrorSeverity::Critical);
    t.record("B", "other text", "m3", ErrorSeverity::Error);
    let b = t.get("B").unwrap();
    assert_eq!(b.count, 2);
    assert_eq!(b.message, "b");
    assert_eq!(b.module, "m1");
    assert_eq!(b.severity, ErrorSeverity::Warning);
    assert_eq!(t.get("A").unwrap().count, 1);
    assert_eq!(t.total(), 3);
    assert_eq!(t.unique_count(), 2);
    assert_eq!(t.criticals(), 1);
    assert_eq!(t.warnings(), 1);
}
