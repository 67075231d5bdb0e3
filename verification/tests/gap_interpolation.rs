use devkit::fee_point::FeePoint;
use devkit::gap_interpolation::{GapFillArgs, GapInterpolator};

fn with_gaps() -> Vec<FeePoint> {
    vec![
        FeePoint { timestamp: 0, fee: 100, ledger: 1, is_spike: false },
        FeePoint { timestamp: 200, fee: 200, ledger: 3, is_spike: false },
        FeePoint { timestamp: 400, fee: 300, ledger: 5, is_spike: false },
    ]
}

#[test]
fn fill_gaps_interpolates_missing_ledgers() {
    let filled = GapInterpolator::fill_gaps(&with_gaps());
    assert_eq!(filled.len(), 5);
    assert_eq!(filled[0].ledger, 1);
    assert_eq!(filled[1].ledger, 2);
    assert_eq!(filled[2].ledger, 3);
    assert_eq!(filled[3].ledger, 4);
    assert_eq!(filled[4].ledger, 5);
}

#[test]
fn interpolated_values_are_between_endpoints() {
    let filled = GapInterpolator::fill_gaps(&with_gaps());
    assert!(filled[1].fee > 100 && filled[1].fee < 200);
    assert!(filled[3].fee > 200 && filled[3].fee < 300);
}

#[test]
fn interpolated_only_returns_new_points() {
    let interp = GapInterpolator::interpolated_only(&with_gaps());
    assert_eq!(interp.len(), 2);
    assert_eq!(interp[0].ledger, 2);
    assert_eq!(interp[1].ledger, 4);
}

#[test]
fn gap_count_returns_correct_number() {
    let count = GapInterpolator::gap_count(&with_gaps());
    assert_eq!(count, 2);
}

#[test]
fn no_gaps_returns_same_points() {
    let data = vec![
        FeePoint { timestamp: 0, fee: 100, ledger: 1, is_spike: false },
        FeePoint { timestamp: 100, fee: 200, ledger: 2, is_spike: false },
    ];
    let filled = GapInterpolator::fill_gaps(&data);
    assert_eq!(filled.len(), 2);
}

#[test]
fn empty_input_returns_empty() {
    assert!(GapInterpolator::fill_gaps(&[]).is_empty());
}

#[test]
fn single_point_no_fill() {
    let data = vec![FeePoint { timestamp: 0, fee: 100, ledger: 5, is_spike: false }];
    let filled = GapInterpolator::fill_gaps(&data);
    assert_eq!(filled.len(), 1);
}

#[test]
fn time_span_calculation() {
    let span = GapInterpolator::time_span(&with_gaps());
    assert_eq!(span, 400);
}

#[test]
fn gap_count_single_point_zero() {
    let data = vec![FeePoint { timestamp: 0, fee: 100, ledger: 1, is_spike: false }];
    assert_eq!(GapInterpolator::gap_count(&data), 0);
}

#[test]
fn linear_interpolation_fees() {
    let data = vec![
        FeePoint { timestamp: 0, fee: 100, ledger: 1, is_spike: false },
        FeePoint { timestamp: 100, fee: 200, ledger: 3, is_spike: false },
    ];
    let filled = GapInterpolator::fill_gaps(&data);
    assert_eq!(filled[1].ledger, 2);
    assert_eq!(filled[1].fee, 150);
}

#[test]
fn interpolation_rounds_half_up_and_clears_spike() {
    let data = vec![
        FeePoint { timestamp: 0, fee: 100, ledger: 10, is_spike: true },
        FeePoint { timestamp: 3, fee: 101, ledger: 13, is_spike: true },
    ];
    let filled = GapInterpolator::fill_gaps(&data);
    assert_eq!(filled.len(), 4);
    // 100 + 1/3 rounds to 100, 100 + 2/3 rounds to 101; timestamps 1 and 2
    assert_eq!(filled[1].fee, 100);
    assert_eq!(filled[2].fee, 101);
    assert_eq!(filled[1].timestamp, 1);
    assert_eq!(filled[2].timestamp, 2);
    assert!(!filled[1].is_spike);
    assert!(filled[3].is_spike);
}

#[test]
fn filled_ledgers_are_consecutive() {
    let data = vec![
        FeePoint { timestamp: 0, fee: 10, ledger: 3, is_spike: false },
        FeePoint { timestamp: 10, fee: 20, ledger: 7, is_spike: false },
        FeePoint { timestamp: 20, fee: 5, ledger: 8, is_spike: false },
    ];
    let filled = GapInterpolator::fill_gaps(&data);
    let ledgers: Vec<u64> = filled.iter().map(|p| p.ledger).collect();
    assert_eq!(ledgers, vec![3, 4, 5, 6, 7, 8]);
}

#[test]
fn gap_fill_args_default() {
    let args = GapFillArgs::default();
    assert!(!args.dry_run);
    assert!(!args.show_interpolated);
}

#[test]
fn fillable_only_without_time_running_back_across_a_gap() {
    let p = |timestamp: u64, ledger: u64| FeePoint { timestamp, fee: 100, ledger, is_spike: false };
    assert!(GapInterpolator::is_fillable(&[]));
    assert!(GapInterpolator::is_fillable(&[p(10, 1), p(30, 4)]));
    // time runs back between neighbouring ledgers: nothing to fill there
    assert!(GapInterpolator::is_fillable(&[p(30, 1), p(10, 2)]));
    assert!(!GapInterpolator::is_fillable(&[p(10, 1), p(30, 4), p(20, 7)]));
}
