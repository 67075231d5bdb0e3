use devkit::timer_utility::{format_duration, Timer, TimerRegistry};

#[test]
fn timer_start_creates_timer() {
    let timer = Timer::start("op");
    assert_eq!(timer.name, "op");
    assert!(timer.elapsed.is_none());
}

#[test]
fn timer_stop_records_elapsed() {
    let mut timer = Timer::start("op");
    let dur = timer.stop();
    assert!(timer.elapsed.is_some());
    assert!(dur >= 0);
}

#[test]
fn timer_child_nesting() {
    let mut parent = Timer::start("parent");
    let child = parent.child("child");
    assert_eq!(child.name, "child");
    assert_eq!(parent.child_count(), 1);
}

#[test]
fn timer_tree_format_includes_names() {
    let mut parent = Timer::start("parent");
    parent.child("child");
    let tree = parent.format_tree(0);
    assert!(tree.contains("parent"));
    assert!(tree.contains("child"));
}

#[test]
fn timer_json_includes_children() {
    let mut parent = Timer::start("root");
    parent.child("leaf");
    let json = parent.to_json();
    assert!(json.contains("children"));
}

#[test]
fn timer_registry_start_stop() {
    let mut reg = TimerRegistry::new();
    reg.start("op");
    let dur = reg.stop("op");
    assert!(dur.is_some());
}

#[test]
fn timer_registry_elapsed() {
    let mut reg = TimerRegistry::new();
    reg.start("op");
    reg.stop("op");
    assert!(reg.elapsed("op").is_some());
}

#[test]
fn timer_registry_total_time() {
    let mut reg = TimerRegistry::new();
    reg.start("a");
    reg.stop("a");
    reg.start("b");
    reg.stop("b");
    assert!(reg.total_time() > 0);
}

#[test]
fn timer_registry_count() {
    let mut reg = TimerRegistry::new();
    reg.start("a");
    reg.start("b");
    assert_eq!(reg.count(), 2);
}

#[test]
fn timer_registry_reset() {
    let mut reg = TimerRegistry::new();
    reg.start("a");
    reg.reset();
    assert_eq!(reg.count(), 0);
}

#[test]
fn timer_registry_to_json() {
    let mut reg = TimerRegistry::new();
    reg.start("op");
    reg.stop("op");
    let json = reg.to_json();
    assert!(json.starts_with('['));
}

#[test]
fn format_duration_ns() {
    let s = format_duration(500);
    assert!(s.contains("ns"));
}

#[test]
fn format_duration_ms() {
    let s = format_duration(1_500_000_000);
    assert!(s.contains("ms") || s.contains("s"));
}

#[test]
fn timer_stop_returns_elapsed() {
    let mut t = Timer::start("x");
    let d = t.stop();
    assert!(d > 0 || d == 0);
}

#[test]
fn registry_get_returns_none_for_missing() {
    let reg = TimerRegistry::new();
    assert!(reg.get("nonexistent").is_none());
}

#[test]
fn format_duration_exact_texts() {
    assert_eq!(format_duration(500), "500ns");
    assert_eq!(format_duration(1_500_000_000), "1.500s");
    assert_eq!(format_duration(2_000_000), "2.000ms");
    assert_eq!(format_duration(3_250), "3.250\u{b5}s");
    assert_eq!(format_duration(1_234_567), "1.235ms");
}

#[test]
fn tree_and_json_of_stopped_timers() {
    let mut parent = Timer { name: "p".to_string(), start: std::time::Instant::now(), elapsed: Some(2_000), children: Vec::new() };
    {
        let c = parent.child("c");
        c.elapsed = Some(1_500_000);
    }
    assert_eq!(parent.format_tree(0), "p: 2\u{b5}s\n  c: 1.5ms\n");
    assert_eq!(
        parent.to_json(),
        "{\"name\":\"p\",\"elapsed_ns\":2000,\"children\":[{\"name\":\"c\",\"elapsed_ns\":1500000,\"children\":[]}]}"
    );
    assert_eq!(parent.total_with_children(), 1_502_000);
}

#[test]
fn registry_restart_replaces_timer() {
    let mut reg = TimerRegistry::new();
    reg.start("a");
    reg.stop("a");
    reg.start("a");
    assert_eq!(reg.count(), 1);
    assert!(reg.get("a").unwrap().elapsed.is_none());
    assert_eq!(reg.stop("missing"), None);
}

#[test]
fn registry_format_all_lists_names() {
    let mut reg = TimerRegistry::default();
    reg.start("b");
    reg.start("a");
    let text = reg.format_all();
    assert!(text.starts_with("a:\n  a: "));
    assert!(text.contains("b:\n  b: "));
}

#[test]
fn running_timer_has_no_elapsed_until_stopped() {
    let mut t = Timer::start("op");
    assert_eq!(t.elapsed(), None);
    assert_eq!(t.format_tree(0), "op: running\n");
    assert_eq!(t.to_json(), "{\"name\":\"op\",\"elapsed_ns\":0,\"children\":[]}");
    let d = t.stop();
    assert_eq!(t.elapsed(), Some(d));
    assert_eq!(t.elapsed(), Some(d));
}

#[test]
fn running_children_add_nothing_to_the_total() {
    let mut parent = Timer { name: "p".to_string(), start: std::time::Instant::now(), elapsed: Some(2_000), children: Vec::new() };
    parent.child("running");
    {
        let c = parent.child("done");
        c.elapsed = Some(500);
    }
    assert_eq!(parent.total_with_children(), 2_500);
    assert_eq!(parent.format_tree(0), "p: 2\u{b5}s\n  running: running\n  done: 500ns\n");
}

#[test]
fn registry_counts_only_stopped_timers() {
    let mut reg = TimerRegistry::new();
    reg.start("a");
    assert_eq!(reg.elapsed("a"), None);
    assert_eq!(reg.total_time(), 0);
    assert_eq!(reg.format_all(), "a:\n  a: running\n");
    let d = reg.stop("a").unwrap();
    assert_eq!(reg.elapsed("a"), Some(d));
    assert_eq!(reg.total_time(), d as u128);
}
