use devkit::duplicate_removal::{DedupArgs, DuplicateRemover};
use devkit::fee_point::FeePoint;

fn with_duplicates() -> Vec<FeePoint> {
    vec![
        FeePoint { timestamp: 0, fee: 100, ledger: 1, is_spike: false },
        FeePoint { timestamp: 10, fee: 150, ledger: 1, is_spike: false },
        FeePoint { timestamp: 100, fee: 200, ledger: 2, is_spike: false },
        FeePoint { timestamp: 200, fee: 250, ledger: 2, is_spike: false },
        FeePoint { timestamp: 300, fee: 300, ledger: 3, is_spike: false },
    ]
}

#[test]
fn remove_duplicates_keeps_first_occurrence() {
    let cleaned = DuplicateRemover::remove_duplicates(&with_duplicates());
    assert_eq!(cleaned.len(), 3);
    assert_eq!(cleaned[0].fee, 100);
    assert_eq!(cleaned[1].fee, 200);
}

#[test]
fn remove_duplicates_keep_last() {
    let cleaned = DuplicateRemover::remove_duplicates_keep_last(&with_duplicates());
    assert_eq!(cleaned.len(), 3);
    assert_eq!(cleaned[0].fee, 150);
    assert_eq!(cleaned[1].fee, 250);
}

#[test]
fn removed_points_returns_duplicates() {
    let data = with_duplicates();
    let removed = DuplicateRemover::removed_points(&data);
    assert_eq!(removed.len(), 2);
    assert_eq!(removed[0].fee, 150);
    assert_eq!(removed[1].fee, 250);
}

#[test]
fn duplicate_count() {
    assert_eq!(DuplicateRemover::duplicate_count(&with_duplicates()), 2);
}

#[test]
fn no_duplicates_returns_same() {
    let data = vec![
        FeePoint { timestamp: 0, fee: 100, ledger: 1, is_spike: false },
        FeePoint { timestamp: 100, fee: 200, ledger: 2, is_spike: false },
    ];
    let cleaned = DuplicateRemover::remove_duplicates(&data);
    assert_eq!(cleaned.len(), 2);
    assert_eq!(DuplicateRemover::duplicate_count(&data), 0);
}

#[test]
fn merge_combines_and_deduplicates() {
    let a = vec![FeePoint { timestamp: 0, fee: 100, ledger: 1, is_spike: false }];
    let b = vec![FeePoint { timestamp: 10, fee: 150, ledger: 1, is_spike: false }];
    let merged = DuplicateRemover::merge(&a, &b);
    assert_eq!(merged.len(), 1);
}

#[test]
fn report_includes_counts() {
    let report = DuplicateRemover::report(&with_duplicates());
    assert!(report.contains("Duplicates:"));
    assert!(report.contains("2"));
}

#[test]
fn empty_input() {
    let cleaned = DuplicateRemover::remove_duplicates(&[]);
    assert!(cleaned.is_empty());
    assert_eq!(DuplicateRemover::duplicate_count(&[]), 0);
}

#[test]
fn has_duplicates_check() {
    assert!(DedupArgs::has_duplicates(&with_duplicates()));
    assert!(!DedupArgs::has_duplicates(&[]));
}

#[test]
fn dedup_args_default() {
    let args = DedupArgs::default();
    assert!(!args.keep_last);
    assert!(!args.verbose);
}

#[test]
fn single_point_no_issues() {
    let data = vec![FeePoint { timestamp: 0, fee: 100, ledger: 5, is_spike: false }];
    assert_eq!(DuplicateRemover::duplicate_count(&data), 0);
}

#[test]
fn merge_keeps_first_of_each_ledger_in_order() {
    let a = vec![
        FeePoint { timestamp: 0, fee: 100, ledger: 2, is_spike: false },
        FeePoint { timestamp: 5, fee: 110, ledger: 1, is_spike: false },
    ];
    let b = vec![
        FeePoint { timestamp: 10, fee: 150, ledger: 1, is_spike: false },
        FeePoint { timestamp: 20, fee: 300, ledger: 3, is_spike: true },
    ];
    let merged = DuplicateRemover::merge(&a, &b);
    let ledgers: Vec<u64> = merged.iter().map(|p| p.ledger).collect();
    assert_eq!(ledgers, vec![2, 1, 3]);
    assert_eq!(merged[1].fee, 110);
}

#[test]
fn dedup_twice_changes_nothing() {
    let once = DuplicateRemover::remove_duplicates(&with_duplicates());
    let twice = DuplicateRemover::remove_duplicates(&once);
    assert_eq!(once, twice);
}

#[test]
fn dedup_keeps_every_ledger() {
    let cleaned = DuplicateRemover::remove_duplicates(&with_duplicates());
    let ledgers: Vec<u64> = cleaned.iter().map(|p| p.ledger).collect();
    assert_eq!(ledgers, vec![1, 2, 3]);
}

#[test]
fn keep_first_and_keep_last_keep_each_ledger_once() {
    let p = |fee: u64, ledger: u64| FeePoint { timestamp: fee, fee, ledger, is_spike: false };
    let data = vec![p(1, 3), p(2, 1), p(3, 3), p(4, 2), p(5, 1)];
    let first = DuplicateRemover::remove_duplicates(&data);
    let last = DuplicateRemover::remove_duplicates_keep_last(&data);
    let ledgers = |v: &Vec<FeePoint>| v.iter().map(|q| q.ledger).collect::<Vec<u64>>();
    assert_eq!(ledgers(&first), vec![3, 1, 2]);
    assert_eq!(ledgers(&last), vec![3, 2, 1]);
    assert_eq!(last.iter().map(|q| q.fee).collect::<Vec<u64>>(), vec![3, 4, 5]);
    assert_eq!(first.len(), last.len());
}

#[test]
fn merge_keeps_ledgers_of_both() {
    let p = |fee: u64, ledger: u64| FeePoint { timestamp: 0, fee, ledger, is_spike: false };
    let merged = DuplicateRemover::merge(&[p(1, 1), p(2, 2)], &[p(3, 2), p(4, 3)]);
    let ledgers: Vec<u64> = merged.iter().map(|q| q.ledger).collect();
    assert_eq!(ledgers, vec![1, 2, 3]);
    assert_eq!(merged[1].fee, 2);
}

#[test]
fn kept_and_removed_add_up_to_the_input() {
    let data = with_duplicates();
    let kept = DuplicateRemover::remove_duplicates(&data);
    let removed = DuplicateRemover::removed_points(&data);
    assert_eq!(kept.len() + removed.len(), data.len());
    assert_eq!(DuplicateRemover::duplicate_count(&data), data.len() - kept.len());
}
