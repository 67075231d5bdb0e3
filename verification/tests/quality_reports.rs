use devkit::fee_point::FeePoint;
use devkit::quality_json_report::{ledgers_fit, scan_fits, scan_issues, JsonReportArgs, ReportStyle};
use devkit::quality_text_report::TextReportArgs;

#[test]
fn args_default() {
    let args = JsonReportArgs::default();
    assert!(!args.compact);
}

#[test]
fn text_report_args_default() {
    let args = TextReportArgs::default();
    assert!(!args.verbose);
}

#[test]
fn scan_detects_each_kind_in_order() {
    let data = vec![
        FeePoint { timestamp: 0, fee: 100, ledger: 1, is_spike: false },
        FeePoint { timestamp: 10, fee: 0, ledger: 1, is_spike: false },
        FeePoint { timestamp: 200, fee: 110, ledger: 5, is_spike: false },
        FeePoint { timestamp: 150, fee: 150, ledger: 3, is_spike: false },
    ];
    let notes = vec![None, None, None, Some("Fee 150 (z=3.2)".to_string())];
    let (counts, details) = scan_issues(&data, &notes, ReportStyle::Json);
    assert_eq!(counts.zero_fees, 1);
    assert_eq!(counts.duplicates, 1);
    assert_eq!(counts.gaps, 3);
    assert_eq!(counts.out_of_order, 1);
    assert_eq!(counts.outliers, 1);
    assert_eq!(counts.total, 7);
    let kinds: Vec<&str> = details.iter().map(|e| e.issue_type.as_str()).collect();
    assert_eq!(kinds, vec!["zero_fee", "duplicate", "gap", "out_of_order", "outlier"]);
    assert_eq!(details[0].description, "Zero fee at ledger 1");
    assert_eq!(details[1].description, "Duplicate ledger 1");
    assert_eq!(details[2].description, "Gap 1 -> 5 (3 missing)");
    assert_eq!(details[3].description, "Timestamp 150 < prev 200");
    assert_eq!(details[4].description, "Fee 150 (z=3.2)");
}

#[test]
fn scan_text_wording() {
    let data = vec![
        FeePoint { timestamp: 50, fee: 100, ledger: 2, is_spike: false },
        FeePoint { timestamp: 10, fee: 100, ledger: 4, is_spike: false },
    ];
    let (counts, details) = scan_issues(&data, &vec![None, None], ReportStyle::Text);
    assert_eq!(counts.total, 2);
    assert_eq!(details[0].description, "Ledger gap 2 -> 4 (1 missing)");
    assert_eq!(details[1].description, "Out-of-order at ledger 4: ts 10 < prev 50");
}

#[test]
fn scan_clean_data_has_no_issues() {
    let data = vec![
        FeePoint { timestamp: 0, fee: 100, ledger: 1, is_spike: false },
        FeePoint { timestamp: 100, fee: 200, ledger: 2, is_spike: false },
        FeePoint { timestamp: 200, fee: 150, ledger: 3, is_spike: false },
    ];
    let (counts, details) = scan_issues(&data, &vec![None, None, None], ReportStyle::Json);
    assert_eq!(counts.total, 0);
    assert!(details.is_empty());
}

#[test]
fn scan_fits_rejects_overflowing_gaps_and_maximal_ledgers() {
    let p = |ledger: u64| FeePoint { timestamp: 0, fee: 1, ledger, is_spike: false };
    let none = |n: usize| vec![None; n];
    let ok = vec![p(1), p(5), p(3)];
    assert!(scan_fits(&ok, &none(3)));
    assert!(ledgers_fit(&ok));
    assert!(ledgers_fit(&[p(1), p(u64::MAX)]));
    assert!(!ledgers_fit(&[p(u64::MAX), p(1)]));
    assert!(!scan_fits(&[p(u64::MAX), p(1)], &none(2)));
    // two jumps of nearly 2^64 missing ledgers each
    let wide = vec![p(0), p(u64::MAX - 1), p(0), p(u64::MAX - 1)];
    assert!(ledgers_fit(&wide));
    assert!(!scan_fits(&wide, &none(4)));
    assert!(scan_fits(&wide[..2], &none(2)));
}

#[test]
fn json_and_text_scans_agree_but_for_wording() {
    let data = vec![
        FeePoint { timestamp: 0, fee: 0, ledger: 1, is_spike: false },
        FeePoint { timestamp: 10, fee: 100, ledger: 1, is_spike: false },
        FeePoint { timestamp: 5, fee: 9_000, ledger: 4, is_spike: true },
    ];
    let json_notes = vec![None, None, Some("Fee 9000 (z=3.1)".to_string())];
    let text_notes = vec![None, None, Some("Outlier at ledger 4: fee=9000 (z=3.1)".to_string())];
    let (j, jd) = scan_issues(&data, &json_notes, ReportStyle::Json);
    let (t, td) = scan_issues(&data, &text_notes, ReportStyle::Text);
    assert_eq!(
        (j.duplicates, j.gaps, j.outliers, j.zero_fees, j.out_of_order, j.total),
        (t.duplicates, t.gaps, t.outliers, t.zero_fees, t.out_of_order, t.total)
    );
    let kinds = |d: &Vec<devkit::quality_json_report::IssueEntry>| {
        d.iter().map(|e| (e.issue_type.clone(), e.ledger)).collect::<Vec<_>>()
    };
    assert_eq!(kinds(&jd), kinds(&td));
    assert_eq!(jd.len(), 5);
    assert_ne!(jd[3].description, td[3].description);
}
