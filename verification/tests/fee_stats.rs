use devkit::fee_point::FeePoint;
use devkit::fee_stats::{fee_max, fee_median, fee_min, fee_rank, spike_count, time_max, time_min};
use devkit::simulation_instrumentation::{FeeModel, FeeModelConfig};

fn pts(fees: &[u64]) -> Vec<FeePoint> {
    fees.iter()
        .enumerate()
        .map(|(i, f)| FeePoint { timestamp: 10 * i as u64, fee: *f, ledger: i as u64 + 1, is_spike: *f > 400 })
        .collect()
}

#[test]
fn min_max_median() {
    let p = pts(&[100, 200, 500, 150, 600]);
    assert_eq!(fee_min(&p), 100);
    assert_eq!(fee_max(&p), 600);
    assert_eq!(fee_median(&p), 200);
    assert_eq!(fee_min(&[]), 0);
    assert_eq!(fee_max(&[]), 0);
    assert_eq!(fee_median(&[]), 0);
}

#[test]
fn rank_counts_repeated_fees() {
    let p = pts(&[5, 1, 5, 3]);
    assert_eq!(fee_rank(&p, 0), 1);
    assert_eq!(fee_rank(&p, 1), 3);
    assert_eq!(fee_rank(&p, 2), 5);
    assert_eq!(fee_rank(&p, 3), 5);
    assert_eq!(fee_median(&p), 5);
}

#[test]
fn spikes_and_times() {
    let p = pts(&[100, 500, 600]);
    assert_eq!(spike_count(&p), 2);
    assert_eq!(time_min(&p), 0);
    assert_eq!(time_max(&p), 20);
}

#[test]
fn fee_model_percentiles() {
    let model = FeeModel { config: FeeModelConfig { min_fee: 100, max_fee: 10_000, base_reserve: 5, ledger_capacity: 1000 } };
    let samples = pts(&[10, 20, 30, 40, 50, 60, 70, 80, 90, 100]);
    let e = model.estimate(&samples);
    assert_eq!(e.sample_count, 10);
    assert_eq!(e.low, 20);
    assert_eq!(e.medium, 30);
    assert_eq!(e.recommended, 60);
    assert_eq!(e.high, 80);
    let none = model.estimate(&[]);
    assert_eq!(none.recommended, 0);
    assert_eq!(none.sample_count, 0);
}
