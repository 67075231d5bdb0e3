use devkit::analysis_metrics::{AnalysisRunMetrics, AnalysisTypeStats};
use std::time::Duration;

#[test]
fn records_update_totals_and_types() {
    let mut m = AnalysisRunMetrics::new();
    m.record_percentile(100, 1_000);
    m.record_rolling_window(50, 500);
    m.record_spike_classification(200, 3, 2_000);
    m.record_percentile(10, 100);
    assert_eq!(m.total_operations(), 4);
    assert_eq!(m.total_points_analyzed, 360);
    assert_eq!(m.total_spikes_found, 3);
    assert_eq!(m.total_analysis_time_ns, 3_600);
    assert_eq!(m.avg_time_per_op(), 900);
    assert_eq!(m.by_type.get("percentile"), Some(&AnalysisTypeStats { operations: 2, points: 110, time_ns: 1_100 }));
    assert_eq!(m.by_type.len(), 3);
    assert!(m.last_analysis_at > 0);
}

#[test]
fn merge_adds_type_by_type() {
    let mut a = AnalysisRunMetrics::new();
    a.record_percentile(10, 10);
    let mut b = AnalysisRunMetrics::new();
    b.record_percentile(5, 5);
    b.record_rolling_window(7, 7);
    a.merge(&b);
    assert_eq!(a.percentile_computations, 2);
    assert_eq!(a.rolling_window_ops, 1);
    assert_eq!(a.by_type.get("percentile"), Some(&AnalysisTypeStats { operations: 2, points: 15, time_ns: 15 }));
    assert_eq!(a.by_type.get("rolling_window"), Some(&AnalysisTypeStats { operations: 1, points: 7, time_ns: 7 }));
}

#[test]
fn reset_and_empty_average() {
    let mut m = AnalysisRunMetrics::default();
    assert_eq!(m.avg_time_per_op(), 0);
    m.record_spike_classification(1, 1, 1);
    m.reset();
    assert_eq!(m.total_operations(), 0);
    assert_eq!(m.by_type.len(), 0);
}

#[test]
fn analysis_metrics_new_metrics_are_zeroed() {
    let m = AnalysisRunMetrics::new();
    assert_eq!(m.total_operations(), 0);
    assert_eq!(m.total_points_analyzed, 0);
}

#[test]
fn record_percentile_increments() {
    let mut m = AnalysisRunMetrics::new();
    m.record_percentile(1000, 500_000);
    assert_eq!(m.percentile_computations, 1);
    assert_eq!(m.total_points_analyzed, 1000);
}

#[test]
fn record_rolling_window_increments() {
    let mut m = AnalysisRunMetrics::new();
    m.record_rolling_window(500, 200_000);
    assert_eq!(m.rolling_window_ops, 1);
}

#[test]
fn record_spike_classification_increments() {
    let mut m = AnalysisRunMetrics::new();
    m.record_spike_classification(100, 5, 100_000);
    assert_eq!(m.spike_classifications, 1);
    assert_eq!(m.total_spikes_found, 5);
}

#[test]
fn total_operations_returns_sum() {
    let mut m = AnalysisRunMetrics::new();
    m.record_percentile(100, 1000);
    m.record_rolling_window(100, 1000);
    assert_eq!(m.total_operations(), 2);
}

#[test]
fn avg_time_per_op() {
    let mut m = AnalysisRunMetrics::new();
    m.record_percentile(100, 1_000_000);
    m.record_percentile(100, 1_000_000);
    assert_eq!(Duration::from_nanos(m.avg_time_per_op()), Duration::from_millis(1));
}

#[test]
fn by_type_tracks_separate_types() {
    let mut m = AnalysisRunMetrics::new();
    m.record_percentile(100, 1000);
    m.record_rolling_window(200, 1000);
    assert_eq!(m.by_type.len(), 2);
}

#[test]
fn analysis_metrics_reset_clears_all() {
    let mut m = AnalysisRunMetrics::new();
    m.record_percentile(100, 1000);
    m.reset();
    assert_eq!(m.total_operations(), 0);
    assert!(m.by_type.is_empty());
}

#[test]
fn merge_combines() {
    let mut a = AnalysisRunMetrics::new();
    a.record_percentile(100, 1000);
    let mut b = AnalysisRunMetrics::new();
    b.record_percentile(200, 2000);
    a.merge(&b);
    assert_eq!(a.percentile_computations, 2);
    assert_eq!(a.total_points_analyzed, 300);
}

#[test]
fn multiple_records_same_type() {
    let mut m = AnalysisRunMetrics::new();
    m.record_percentile(100, 1000);
    m.record_percentile(100, 1000);
    assert_eq!(m.by_type.get("percentile").unwrap().operations, 2);
}
