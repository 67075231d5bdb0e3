use devkit::metrics_collector::{Counter, Gauge, Histogram, MetricsCollector};

#[test]
fn counter_starts_at_zero() {
    let counter = Counter::new("requests");
    assert_eq!(counter.value(), 0);
    assert_eq!(counter.name(), "requests");
}

#[test]
fn counter_increment_adds_delta() {
    let mut counter = Counter::new("req");
    counter.increment(5);
    assert_eq!(counter.value(), 5);
    counter.increment(3);
    assert_eq!(counter.value(), 8);
}

#[test]
fn histogram_observe_increments_buckets() {
    let mut h = Histogram::new("latency");
    h.observe(7);
    h.observe(50);
    h.observe(200);
    assert_eq!(h.count(), 3);
    assert_eq!(h.sum(), 257);
}

#[test]
fn histogram_bucket_ordering() {
    let mut h = Histogram::new("order");
    h.observe(1000);
    assert!(h.count() == 1);
}

#[test]
fn empty_histogram_counts_nothing() {
    let h = Histogram::new("empty");
    assert_eq!(h.count(), 0);
    assert_eq!(h.sum(), 0);
}

#[test]
fn collector_creates_counter_on_first_access() {
    let mut col = MetricsCollector::new();
    col.counter("hits").increment(1);
    assert_eq!(col.metric_count(), 1);
}

#[test]
fn collector_reuses_existing_metric() {
    let mut col = MetricsCollector::new();
    col.counter("hits").increment(1);
    col.counter("hits").increment(1);
    assert_eq!(col.counter("hits").value(), 2);
}

#[test]
fn collector_multiple_metric_types() {
    let mut col = MetricsCollector::new();
    col.counter("req").increment(1);
    col.gauge("mem").set_bits(512.0f64.to_bits());
    col.histogram("lat").observe(10);
    assert_eq!(col.metric_count(), 3);
}

#[test]
fn collector_reset_clears_all() {
    let mut col = MetricsCollector::new();
    col.counter("a").increment(1);
    col.gauge("b").set_bits(1.0f64.to_bits());
    col.reset();
    assert_eq!(col.metric_count(), 0);
}

#[test]
fn snapshot_counters_returns_map() {
    let mut col = MetricsCollector::new();
    col.counter("x").increment(3);
    let snap = col.snapshot_counters();
    assert_eq!(snap.get("x"), Some(&3));
}

#[test]
fn collector_default_creates_empty() {
    let col = MetricsCollector::default();
    assert_eq!(col.metric_count(), 0);
}

#[test]
fn gauge_holds_value_bits() {
    let mut gauge = Gauge::new("temperature");
    assert_eq!(f64::from_bits(gauge.bits()), 0.0);
    gauge.set_bits(36.5f64.to_bits());
    assert_eq!(f64::from_bits(gauge.bits()), 36.5);
    assert_eq!(gauge.name(), "temperature");
}

#[test]
fn collector_keeps_metrics_by_name() {
    let mut col = MetricsCollector::new();
    col.histogram("lat").observe(7);
    col.histogram("lat").observe(50);
    col.gauge("mem").set_bits(2.5f64.to_bits());
    col.gauge("mem").set_bits(3.5f64.to_bits());
    col.counter("b").increment(2);
    col.counter("a").increment(5);
    assert_eq!(col.histogram("lat").count(), 2);
    assert_eq!(col.histogram("lat").sum(), 57);
    assert_eq!(col.metric_count(), 4);
    let counters = col.snapshot_counters();
    let keys: Vec<&str> = (0..counters.len()).map(|i| counters.key_at(i).as_str()).collect();
    assert_eq!(keys, vec!["a", "b"]);
    assert_eq!(counters.get("a"), Some(&5));
    let gauges = col.snapshot_gauges();
    assert_eq!(gauges.get("mem").map(|b| f64::from_bits(*b)), Some(3.5));
}
