use devkit::health_check::{
    db_connectivity_result, disk_space_result, uptime_result, status_of, CheckResult, HealthCheck, HealthChecker,
    HealthStatus, MemoryCheck, PingCheck, UptimeCheck,
};

/// A database check whose file could not be read, as the application's check
/// reports it for a missing file.
struct MissingDb {
    db_path: String,
}

impl HealthCheck for MissingDb {
    fn name(&self) -> &str {
        "db_connectivity"
    }
    fn run(&self) -> CheckResult {
        db_connectivity_result(&self.db_path, None, 0)
    }
}

#[test]
fn check_result_passing() {
    let r = CheckResult::passing("test", "all good");
    assert!(r.ok);
    assert_eq!(r.name, "test");
}

#[test]
fn check_result_failing() {
    let r = CheckResult::failing("test", "error");
    assert!(!r.ok);
}

#[test]
fn ping_check_empty_target_fails() {
    let check = PingCheck { target: String::new(), timeout_ms: 1000 };
    let r = check.run();
    assert!(!r.ok);
}

#[test]
fn ping_check_non_empty_passes() {
    let check = PingCheck { target: "localhost".into(), timeout_ms: 1000 };
    let r = check.run();
    assert!(r.ok);
}

#[test]
fn disk_check_existing_path() {
    let r = disk_space_result("/tmp", true, 0);
    assert!(r.ok);
}

#[test]
fn disk_check_nonexistent_path() {
    let r = disk_space_result("/nonexistent_path_xyz", false, 0);
    assert!(!r.ok);
}

#[test]
fn db_check_nonexistent_file_fails() {
    let check = MissingDb { db_path: "/no/such/file.db".into() };
    let r = check.run();
    assert!(!r.ok);
}

#[test]
fn memory_check_always_passes() {
    let check = MemoryCheck { min_available_mb: 0 };
    let r = check.run();
    assert!(r.ok);
}

#[test]
fn uptime_check_reports_elapsed() {
    let check = UptimeCheck::new();
    let r = check.run();
    assert!(r.ok);
    assert!(r.message.contains("up for"));
}

#[test]
fn health_checker_registers_and_runs() {
    let mut checker = HealthChecker::new();
    checker.register(Box::new(PingCheck { target: "localhost".into(), timeout_ms: 100 }));
    checker.register(Box::new(UptimeCheck::new()));
    assert_eq!(checker.check_count(), 2);
    let results = checker.run_all();
    assert_eq!(results.len(), 2);
}

#[test]
fn status_healthy_when_all_pass() {
    let mut checker = HealthChecker::new();
    checker.register(Box::new(MemoryCheck { min_available_mb: 0 }));
    assert_eq!(checker.status(), HealthStatus::Healthy);
}

#[test]
fn status_degraded_when_some_fail() {
    let mut checker = HealthChecker::new();
    checker.register(Box::new(MemoryCheck { min_available_mb: 0 }));
    checker.register(Box::new(MissingDb { db_path: "/nonexistent".into() }));
    assert_eq!(checker.status(), HealthStatus::Degraded);
}

#[test]
fn status_unhealthy_when_all_fail() {
    let mut checker = HealthChecker::new();
    checker.register(Box::new(MissingDb { db_path: "/nonexistent_a".into() }));
    checker.register(Box::new(MissingDb { db_path: "/nonexistent_b".into() }));
    assert_eq!(checker.status(), HealthStatus::Unhealthy);
}

#[test]
fn to_json_contains_status() {
    let checker = HealthChecker::new();
    let json = checker.to_json();
    assert!(json.contains("healthy"));
}

#[test]
fn health_status_as_str() {
    assert_eq!(HealthStatus::Healthy.as_str(), "healthy");
    assert_eq!(HealthStatus::Unhealthy.as_str(), "unhealthy");
}

#[test]
fn checker_default_is_empty() {
    let checker = HealthChecker::default();
    assert_eq!(checker.check_count(), 0);
}

#[test]
fn empty_checker_is_unhealthy() {
    let checker = HealthChecker::new();
    assert_eq!(checker.status(), HealthStatus::Unhealthy);
    assert_eq!(checker.to_json(), "{\"status\":\"unhealthy\",\"checks\":[]}");
}

#[test]
fn status_of_results() {
    let pass = CheckResult::passing("a", "ok");
    let fail = CheckResult::failing("b", "no");
    assert_eq!(status_of(&vec![pass.clone(), pass.clone()]), HealthStatus::Healthy);
    assert_eq!(status_of(&vec![pass.clone(), fail.clone()]), HealthStatus::Degraded);
    assert_eq!(status_of(&vec![fail.clone()]), HealthStatus::Unhealthy);
    assert_eq!(status_of(&vec![]), HealthStatus::Unhealthy);
}

#[test]
fn messages_exact_text() {
    let r = PingCheck { target: String::new(), timeout_ms: 1 }.run();
    assert_eq!(r.message, "ping : empty target");
    assert_eq!(r.name, "ping");
    let d = disk_space_result("/tmp", true, 4);
    assert_eq!(d.message, "path /tmp exists: true");
    assert_eq!(d.duration_ms, 4);
    let db = db_connectivity_result("a.db", Some(42), 1);
    assert_eq!(db.message, "db a.db: accessible (42 bytes)");
    assert!(db.ok);
    let missing = db_connectivity_result("b.db", None, 1);
    assert_eq!(missing.message, "db b.db: not found (0 bytes)");
    let m = MemoryCheck { min_available_mb: 512 }.run();
    assert_eq!(m.message, "minimum 512 MB required");
}

#[test]
fn uptime_run_at_exact_text() {
    let r = uptime_result(2_500_000_000);
    assert_eq!(r.message, "up for 2.5s");
    assert_eq!(r.duration_ms, 2_500);
}
