use devkit::execution_timer::ExecutionTimer;
use std::time::Duration;

#[test]
fn new_timer_has_zero_state() {
    let timer = ExecutionTimer::new("test");
    assert_eq!(timer.label, "test");
    assert_eq!(timer.count(), 0);
    assert_eq!(timer.total(), 0);
}

#[test]
fn multiple_runs_accumulate() {
    let mut timer = ExecutionTimer::new("batch");
    for _ in 0..5 {
        timer.start();
        timer.stop();
    }
    assert_eq!(timer.count(), 5);
}

#[test]
fn average_is_correct() {
    let mut timer = ExecutionTimer::new("test");
    timer.start();
    timer.stop();
    let avg = timer.average();
    assert_eq!(avg, timer.total() / 1);
}

#[test]
fn reset_clears_state() {
    let mut timer = ExecutionTimer::new("tmp");
    timer.start();
    timer.stop();
    timer.reset();
    assert_eq!(timer.count(), 0);
    assert_eq!(timer.total(), 0);
}

#[test]
fn stop_without_start_returns_zero() {
    let mut timer = ExecutionTimer::new("noop");
    assert_eq!(timer.stop(), 0);
}

#[test]
fn summary_includes_label() {
    let mut timer = ExecutionTimer::new("my-op");
    timer.start();
    timer.stop();
    let s = timer.summary();
    assert!(s.contains("my-op"));
}

#[test]
fn to_json_contains_label() {
    let mut timer = ExecutionTimer::new("json-test");
    timer.start();
    timer.stop();
    let json = timer.to_json();
    assert!(json.contains("json-test"));
    assert!(json.contains("runs"));
}

#[test]
fn average_with_no_runs_is_zero() {
    let timer = ExecutionTimer::new("empty");
    assert_eq!(timer.average(), 0);
}

#[test]
fn concurrent_timers_are_independent() {
    let mut a = ExecutionTimer::new("a");
    let mut b = ExecutionTimer::new("b");
    a.start();
    b.start();
    a.stop();
    b.stop();
    assert!(a.count() == 1);
    assert!(b.count() == 1);
}

#[test]
fn summary_and_json_exact_text() {
    let timer = ExecutionTimer { label: "op".to_string(), start: None, accumulated: 3_000_000, run_count: 2 };
    assert_eq!(timer.average(), 1_500_000);
    assert_eq!(timer.summary(), "op: 2 runs, total 3ms, avg 1.5ms");
    assert_eq!(timer.to_json(), "{\"label\":\"op\",\"runs\":2,\"total_ns\":3000000,\"avg_ns\":1500000}");
}

#[test]
fn average_divides_like_duration() {
    // 1.000000002 s split three ways: whole seconds first, then the carry and the nanoseconds.
    let timer = ExecutionTimer { label: "d".to_string(), start: None, accumulated: 1_000_000_002, run_count: 3 };
    assert_eq!(timer.average(), 333_333_333);
}

#[test]
fn stop_accumulates_elapsed() {
    let mut timer = ExecutionTimer::new("acc");
    timer.start();
    let first = timer.stop();
    timer.start();
    let second = timer.stop();
    assert_eq!(timer.total(), first + second);
}

#[test]
fn start_stop_records_elapsed() {
    let mut timer = ExecutionTimer::new("op");
    timer.start();
    let wait = std::time::Instant::now();
    while wait.elapsed() < Duration::from_micros(1) {}
    let elapsed = timer.stop();
    assert!(Duration::from_nanos(elapsed) > Duration::ZERO);
    assert!(timer.count() == 1);
}
