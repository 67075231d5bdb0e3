use devkit::fee_point::FeePoint;
use devkit::inspect::{ledgers_json, InspectArgs, Inspector};

fn sample() -> Vec<FeePoint> {
    vec![
        FeePoint { timestamp: 0, fee: 100, ledger: 1, is_spike: false },
        FeePoint { timestamp: 100, fee: 200, ledger: 2, is_spike: false },
        FeePoint { timestamp: 200, fee: 500, ledger: 3, is_spike: true },
        FeePoint { timestamp: 300, fee: 150, ledger: 4, is_spike: false },
        FeePoint { timestamp: 400, fee: 600, ledger: 5, is_spike: true },
    ]
}

#[test]
fn inspect_above_threshold_filters() {
    let data = sample();
    let high = Inspector::above_threshold(&data, 300);
    assert_eq!(high.len(), 2);
}

#[test]
fn inspect_in_time_range() {
    let data = sample();
    let range = Inspector::in_time_range(&data, 100, 300);
    assert_eq!(range.len(), 3);
}

#[test]
fn inspect_top_n() {
    let data = sample();
    let top = Inspector::top_n(&data, 2);
    assert_eq!(top[0].fee, 600);
    assert_eq!(top[1].fee, 500);
}

#[test]
fn inspect_spike_runs() {
    let data = sample();
    let runs = Inspector::spike_runs(&data);
    assert_eq!(runs.len(), 2);
}

#[test]
fn inspect_gaps() {
    let g = Inspector::gaps(&sample());
    assert_eq!(g, vec![100, 100, 100, 100]);
}

#[test]
fn inspect_subcommand_validate_data_rejects_empty() {
    assert!(InspectArgs::validate_data(&[]).is_err());
}

#[test]
fn top_n_keeps_order_among_equal_fees() {
    let data = vec![
        FeePoint { timestamp: 0, fee: 5, ledger: 1, is_spike: false },
        FeePoint { timestamp: 1, fee: 9, ledger: 2, is_spike: false },
        FeePoint { timestamp: 2, fee: 5, ledger: 3, is_spike: false },
    ];
    let top = Inspector::top_n(&data, 5);
    let ledgers: Vec<u64> = top.iter().map(|p| p.ledger).collect();
    assert_eq!(ledgers, vec![2, 1, 3]);
}

#[test]
fn spike_runs_group_consecutive_spikes() {
    let data = vec![
        FeePoint { timestamp: 0, fee: 5, ledger: 1, is_spike: true },
        FeePoint { timestamp: 1, fee: 9, ledger: 2, is_spike: true },
        FeePoint { timestamp: 2, fee: 5, ledger: 3, is_spike: false },
        FeePoint { timestamp: 3, fee: 7, ledger: 4, is_spike: true },
    ];
    let runs = Inspector::spike_runs(&data);
    assert_eq!(runs.len(), 2);
    assert_eq!(runs[0].len(), 2);
    assert_eq!(runs[1][0].ledger, 4);
}

#[test]
fn validate_data_accepts_points() {
    assert!(InspectArgs::validate_data(&sample()).is_ok());
}

#[test]
fn ledgers_json_lists_ledgers() {
    let a = FeePoint { timestamp: 0, fee: 1, ledger: 12, is_spike: false };
    let b = FeePoint { timestamp: 0, fee: 1, ledger: 7, is_spike: false };
    assert_eq!(ledgers_json(&[]), "[]");
    assert_eq!(ledgers_json(&[&a]), "[12]");
    assert_eq!(ledgers_json(&[&a, &b, &a]), "[12,7,12]");
}
