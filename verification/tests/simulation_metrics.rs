use devkit::simulation_metrics::{ScenarioStats, SimulationMetrics};
use std::time::Duration;

#[test]
fn simulation_metrics_new_metrics_are_zeroed() {
    let m = SimulationMetrics::new();
    assert_eq!(m.total_runs, 0);
    assert_eq!(m.total_points, 0);
}

#[test]
fn record_run_increments_counters() {
    let mut m = SimulationMetrics::new();
    m.record_run("normal", 1000, 5, 50, 500, 1_000_000);
    assert_eq!(m.total_runs, 1);
    assert_eq!(m.total_points, 1000);
    assert_eq!(m.total_spikes, 5);
}

#[test]
fn by_scenario_tracks_separately() {
    let mut m = SimulationMetrics::new();
    m.record_run("normal", 100, 1, 50, 150, 1_000_000);
    m.record_run("congested", 200, 10, 100, 500, 2_000_000);
    assert_eq!(m.by_scenario.len(), 2);
    assert_eq!(m.by_scenario.get("normal").unwrap().runs, 1);
    assert_eq!(m.by_scenario.get("congested").unwrap().runs, 1);
}

#[test]
fn simulation_metrics_reset_clears_all() {
    let mut m = SimulationMetrics::new();
    m.record_run("normal", 100, 1, 50, 150, 1_000_000);
    m.reset();
    assert_eq!(m.total_runs, 0);
    assert!(m.by_scenario.is_empty());
}

#[test]
fn merge_combines_metrics() {
    let mut a = SimulationMetrics::new();
    a.record_run("normal", 100, 1, 50, 150, 1_000_000);
    let mut b = SimulationMetrics::new();
    b.record_run("normal", 200, 2, 60, 160, 2_000_000);
    a.merge(&b);
    assert_eq!(a.total_runs, 2);
    assert_eq!(a.total_points, 300);
}

#[test]
fn avg_time_per_run() {
    let mut m = SimulationMetrics::new();
    m.record_run("normal", 100, 0, 50, 100, 2_000_000);
    assert_eq!(Duration::from_nanos(m.avg_time_per_run()), Duration::from_millis(2));
}

#[test]
fn scenario_keeps_fee_range_across_runs() {
    let mut m = SimulationMetrics::new();
    m.record_run("s1", 100, 1, 100, 200, 1_000_000);
    m.record_run("s1", 50, 0, 80, 150, 3_000_000);
    assert_eq!(
        m.by_scenario.get("s1"),
        Some(&ScenarioStats { runs: 2, points: 150, spikes: 1, min_fee: 80, max_fee: 200 })
    );
    assert_eq!(m.avg_time_per_run(), 2_000_000);
    assert!(m.last_run_at > 0);
}

#[test]
fn merge_takes_scenarios_from_both_sides() {
    let mut a = SimulationMetrics::new();
    a.record_run("normal", 10, 1, 50, 150, 10);
    let mut b = SimulationMetrics::default();
    b.record_run("normal", 20, 2, 40, 120, 20);
    b.record_run("spiky", 5, 5, 300, 900, 30);
    a.merge(&b);
    assert_eq!(a.total_runs, 3);
    assert_eq!(a.total_spikes, 8);
    assert_eq!(a.total_simulation_time_ns, 60);
    assert_eq!(
        a.by_scenario.get("normal"),
        Some(&ScenarioStats { runs: 2, points: 30, spikes: 3, min_fee: 40, max_fee: 150 })
    );
    assert_eq!(
        a.by_scenario.get("spiky"),
        Some(&ScenarioStats { runs: 1, points: 5, spikes: 5, min_fee: 300, max_fee: 900 })
    );
    assert!(a.last_run_at >= b.last_run_at);
}

#[test]
fn avg_time_is_zero_before_any_run() {
    let m = SimulationMetrics::new();
    assert_eq!(m.avg_time_per_run(), 0);
}
