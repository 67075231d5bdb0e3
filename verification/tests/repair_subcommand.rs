use devkit::fee_point::FeePoint;
use devkit::repair_subcommand::{repair_fits, Issue, Repair, RepairAction, RepairArgs};
use std::collections::BTreeSet;

fn clean_data() -> Vec<FeePoint> {
    vec![
        FeePoint { timestamp: 0, fee: 100, ledger: 1, is_spike: false },
        FeePoint { timestamp: 100, fee: 110, ledger: 2, is_spike: false },
        FeePoint { timestamp: 200, fee: 105, ledger: 3, is_spike: false },
    ]
}

fn dirty_data() -> Vec<FeePoint> {
    vec![
        FeePoint { timestamp: 0, fee: 100, ledger: 1, is_spike: false },
        FeePoint { timestamp: 50, fee: 0, ledger: 1, is_spike: false },
        FeePoint { timestamp: 200, fee: 110, ledger: 3, is_spike: false },
        FeePoint { timestamp: 150, fee: 150, ledger: 2, is_spike: false },
        FeePoint { timestamp: 300, fee: 999_999, ledger: 5, is_spike: true },
    ]
}

/// In these samples no fee lies more than three standard deviations from the
/// mean (with n points no z-score exceeds (n - 1) / sqrt(n)), so none is an
/// outlier.
fn no_outliers(n: usize) -> Vec<bool> {
    vec![false; n]
}

#[test]
fn repair_plan_generates_actions() {
    let actions = Repair::plan(&dirty_data(), &no_outliers(5), 0);
    assert!(!actions.is_empty());
}

#[test]
fn repair_apply_removes_duplicates() {
    let (cleaned, _) = Repair::apply(&dirty_data(), false, &no_outliers(5), 0);
    let ledgers: Vec<u64> = cleaned.iter().map(|p| p.ledger).collect();
    let unique: BTreeSet<u64> = ledgers.clone().into_iter().collect();
    assert_eq!(ledgers.len(), unique.len());
}

#[test]
fn repair_args_default_is_dry_run() {
    let args = RepairArgs::default();
    assert!(args.dry_run);
}

#[test]
fn detect_clean_data_finds_nothing() {
    assert!(Repair::detect_issues(&clean_data(), &no_outliers(3)).is_empty());
}

#[test]
fn detect_dirty_data_in_order() {
    let issues = Repair::detect_issues(&dirty_data(), &no_outliers(5));
    assert_eq!(
        issues,
        vec![
            Issue::ZeroFee(1),
            Issue::DuplicateLedger(1),
            Issue::LedgerGap { from: 1, to: 3, gap_size: 1 },
            Issue::OutOfOrder { ledger: 2, expected: 200, actual: 150 },
            Issue::LedgerGap { from: 2, to: 5, gap_size: 2 },
        ]
    );
}

#[test]
fn plan_dirty_data_exact() {
    let actions = Repair::plan(&dirty_data(), &no_outliers(5), 0);
    // replacement for ledger 1: mean of 110, 150 and 999_999
    assert_eq!(
        actions,
        vec![
            RepairAction::FillZeroFee { ledger: 1, replacement: 333_419 },
            RepairAction::RemoveDuplicate(1),
            RepairAction::InterpolateGap { from: 1, to: 3, count: 1 },
            RepairAction::Reorder,
            RepairAction::InterpolateGap { from: 2, to: 5, count: 2 },
        ]
    );
}

#[test]
fn apply_sorts_dedups_and_fills() {
    let (cleaned, actions) = Repair::apply(&dirty_data(), false, &no_outliers(5), 0);
    assert_eq!(actions.len(), 5);
    // the zero-fee point was the dropped duplicate, so no fee is replaced
    assert_eq!(
        cleaned,
        vec![
            FeePoint { timestamp: 0, fee: 100, ledger: 1, is_spike: false },
            FeePoint { timestamp: 150, fee: 150, ledger: 2, is_spike: false },
            FeePoint { timestamp: 200, fee: 110, ledger: 3, is_spike: false },
            FeePoint { timestamp: 300, fee: 999_999, ledger: 5, is_spike: true },
        ]
    );
}

#[test]
fn zero_fee_kept_point_is_filled() {
    let data = vec![
        FeePoint { timestamp: 0, fee: 0, ledger: 1, is_spike: false },
        FeePoint { timestamp: 10, fee: 100, ledger: 1, is_spike: false },
        FeePoint { timestamp: 20, fee: 300, ledger: 2, is_spike: false },
    ];
    let (cleaned, actions) = Repair::apply(&data, false, &no_outliers(3), 0);
    assert_eq!(actions[0], RepairAction::FillZeroFee { ledger: 1, replacement: 300 });
    assert_eq!(cleaned[0].fee, 300);
    // a non-zero fee of the ledger is left alone
    let data = vec![
        FeePoint { timestamp: 0, fee: 100, ledger: 1, is_spike: false },
        FeePoint { timestamp: 10, fee: 0, ledger: 1, is_spike: false },
        FeePoint { timestamp: 20, fee: 300, ledger: 2, is_spike: false },
    ];
    let (cleaned, _) = Repair::apply(&data, false, &no_outliers(3), 0);
    assert_eq!(cleaned[0].fee, 100);
}

#[test]
fn apply_dry_run_returns_input() {
    let (cleaned, actions) = Repair::apply(&dirty_data(), true, &no_outliers(5), 0);
    assert_eq!(cleaned, dirty_data());
    assert_eq!(actions.len(), 5);
}

#[test]
fn outliers_are_capped() {
    let data = vec![
        FeePoint { timestamp: 0, fee: 100, ledger: 1, is_spike: false },
        FeePoint { timestamp: 1, fee: 10_000, ledger: 2, is_spike: true },
    ];
    let flags = vec![false, true];
    let (cleaned, actions) = Repair::apply(&data, false, &flags, 5_050);
    assert_eq!(actions, vec![RepairAction::CapOutlier { ledger: 2, original: 10_000, capped: 5_050 }]);
    assert_eq!(cleaned[1].fee, 5_050);
}

#[test]
fn zero_fee_without_neighbours_gets_default() {
    let data = vec![FeePoint { timestamp: 0, fee: 0, ledger: 7, is_spike: false }];
    let actions = Repair::plan(&data, &no_outliers(1), 0);
    assert_eq!(actions, vec![RepairAction::FillZeroFee { ledger: 7, replacement: 100 }]);
}

#[test]
fn large_timestamp_plans_a_fill_that_keeps_a_non_zero_fee() {
    let data = vec![FeePoint { timestamp: 2_000_000_000_000, fee: 40, ledger: 7, is_spike: false }];
    let (cleaned, actions) = Repair::apply(&data, false, &no_outliers(1), 0);
    assert_eq!(actions, vec![RepairAction::FillZeroFee { ledger: 7, replacement: 0 }]);
    assert_eq!(cleaned[0].fee, 40);
}

#[test]
fn reorder_planned_once() {
    let data = vec![
        FeePoint { timestamp: 30, fee: 1, ledger: 1, is_spike: false },
        FeePoint { timestamp: 20, fee: 1, ledger: 2, is_spike: false },
        FeePoint { timestamp: 10, fee: 1, ledger: 3, is_spike: false },
    ];
    let actions = Repair::plan(&data, &no_outliers(3), 0);
    assert_eq!(actions, vec![RepairAction::Reorder]);
    let (cleaned, _) = Repair::apply(&data, false, &no_outliers(3), 0);
    let ledgers: Vec<u64> = cleaned.iter().map(|p| p.ledger).collect();
    assert_eq!(ledgers, vec![3, 2, 1]);
}

#[test]
fn detect_clean_data_returns_no_issues() {
    let issues = Repair::detect_issues(&clean_data(), &no_outliers(3));
    assert_eq!(issues.len(), 0);
}

#[test]
fn detect_dirty_data_finds_issues() {
    let issues = Repair::detect_issues(&dirty_data(), &no_outliers(5));
    assert!(!issues.is_empty());
    assert!(issues.iter().any(|i| matches!(i, Issue::ZeroFee(_))));
    assert!(issues.iter().any(|i| matches!(i, Issue::DuplicateLedger(_))));
}

#[test]
fn detect_ledger_gap() {
    let data = vec![
        FeePoint { timestamp: 0, fee: 100, ledger: 1, is_spike: false },
        FeePoint { timestamp: 200, fee: 110, ledger: 5, is_spike: false },
    ];
    let issues = Repair::detect_issues(&data, &no_outliers(2));
    assert!(issues.iter().any(|i| matches!(i, Issue::LedgerGap { .. })));
}

#[test]
fn repair_fits_checks_replacement_sums() {
    let p = |fee: u64, ledger: u64| FeePoint { timestamp: ledger, fee, ledger, is_spike: false };
    assert!(repair_fits(&dirty_data()));
    assert!(repair_fits(&[p(u64::MAX, 1), p(u64::MAX, 2)]));
    assert!(!repair_fits(&[p(0, 1), p(u64::MAX, 2), p(1, 3)]));
    assert!(repair_fits(&[p(0, 1), p(u64::MAX, 2), p(0, 3)]));
    assert!(!repair_fits(&[p(5, u64::MAX), p(5, 1)]));
}
