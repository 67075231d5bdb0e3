use devkit::compare_subcommand::{CompareArgs, Comparator};
use devkit::fee_point::FeePoint;

fn dataset_a() -> Vec<FeePoint> {
    vec![
        FeePoint { timestamp: 0, fee: 100, ledger: 1, is_spike: false },
        FeePoint { timestamp: 100, fee: 110, ledger: 2, is_spike: false },
        FeePoint { timestamp: 200, fee: 105, ledger: 3, is_spike: false },
        FeePoint { timestamp: 300, fee: 500, ledger: 4, is_spike: true },
    ]
}

fn dataset_b() -> Vec<FeePoint> {
    vec![
        FeePoint { timestamp: 0, fee: 200, ledger: 1, is_spike: false },
        FeePoint { timestamp: 100, fee: 210, ledger: 2, is_spike: false },
        FeePoint { timestamp: 200, fee: 205, ledger: 3, is_spike: false },
        FeePoint { timestamp: 300, fee: 205, ledger: 4, is_spike: false },
        FeePoint { timestamp: 400, fee: 600, ledger: 5, is_spike: true },
    ]
}

#[test]
fn histogram_bins_partitions_data() {
    let bins = Comparator::histogram_bins(&dataset_a(), 5);
    assert!(!bins.is_empty());
}

#[test]
fn compare_subcommand_validate_data_rejects_empty() {
    assert!(CompareArgs::validate_data(&[], &dataset_b()).is_err());
}

#[test]
fn compare_args_default() {
    let args = CompareArgs::default();
    assert_eq!(args.label_a, "A");
    assert_eq!(args.bins, 10);
}

#[test]
fn histogram_bins_exact_counts() {
    // width = 500 / 5 = 100: bins 100 (three fees) and 500 (one)
    let bins = Comparator::histogram_bins(&dataset_a(), 5);
    let pairs: Vec<(u64, usize)> = bins.into_iter().collect();
    assert_eq!(pairs, vec![(100, 3), (500, 1)]);
    assert!(Comparator::histogram_bins(&[], 0).is_empty());
}

#[test]
fn histogram_bins_width_at_least_one() {
    let data = vec![
        FeePoint { timestamp: 0, fee: 3, ledger: 1, is_spike: false },
        FeePoint { timestamp: 0, fee: 1, ledger: 2, is_spike: false },
    ];
    let pairs: Vec<(u64, usize)> = Comparator::histogram_bins(&data, 10).into_iter().collect();
    assert_eq!(pairs, vec![(1, 1), (3, 1)]);
}

#[test]
fn validate_data_messages() {
    assert_eq!(CompareArgs::validate_data(&[], &[]), Err("first data set is empty".to_string()));
    assert_eq!(CompareArgs::validate_data(&dataset_a(), &[]), Err("second data set is empty".to_string()));
    assert_eq!(CompareArgs::validate_data(&dataset_a(), &dataset_b()), Ok(()));
}

#[test]
fn overlap_of_time_ranges() {
    assert_eq!(Comparator::overlap(&dataset_a(), &dataset_b()), (0, 300));
}
