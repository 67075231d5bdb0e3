use devkit::convert::{Convert, ConvertArgs, FeePriority};
use devkit::fee_point::FeePoint;

fn sample_points() -> Vec<FeePoint> {
    vec![
        FeePoint { timestamp: 0, fee: 100, ledger: 1, is_spike: false },
        FeePoint { timestamp: 3600, fee: 250, ledger: 2, is_spike: true },
    ]
}

#[test]
fn to_stroops_uses_priority_multiplier() {
    let fee = Convert::to_stroops(100, FeePriority::High);
    assert_eq!(fee, 200);
}

#[test]
fn format_fee_uses_xlm_for_large_values() {
    let formatted = Convert::format_fee(50_000_000);
    assert!(formatted.contains("XLM"));
}

#[test]
fn format_fee_uses_stroops_for_small_values() {
    let formatted = Convert::format_fee(500);
    assert!(formatted.contains("stroop"));
}

#[test]
fn points_to_json_creates_array() {
    let json = Convert::points_to_json(&sample_points());
    assert!(json.starts_with('['));
    assert!(json.contains("\"t\":0"));
}

#[test]
fn to_tsv_includes_header() {
    let tsv = Convert::to_tsv(&sample_points());
    assert!(tsv.starts_with("timestamp"));
}

#[test]
fn fee_priority_parse_known_values() {
    assert_eq!(FeePriority::parse("low"), Some(FeePriority::Low));
    assert_eq!(FeePriority::parse("high"), Some(FeePriority::High));
}

#[test]
fn convert_args_default_is_valid() {
    let args = ConvertArgs::default();
    assert!(args.validate().is_ok());
}

#[test]
fn detect_format_from_extension() {
    assert_eq!(ConvertArgs::detect_format("data.csv"), "csv");
    assert_eq!(ConvertArgs::detect_format("data.tsv"), "tsv");
    assert_eq!(ConvertArgs::detect_format("data.json"), "json");
}

#[test]
fn fee_priority_parse_custom_number_value() {
    assert_eq!(FeePriority::parse("3"), Some(FeePriority::Custom(3)));
    assert_eq!(FeePriority::parse("+7"), Some(FeePriority::Custom(7)));
    assert_eq!(FeePriority::parse("urgent"), None);
}

#[test]
fn medium_priority_rounds_half_up() {
    assert_eq!(Convert::to_stroops(101, FeePriority::Medium), 152);
    assert_eq!(Convert::to_stroops(100, FeePriority::Medium), 150);
    assert_eq!(Convert::to_stroops(100, FeePriority::Low), 100);
}

#[test]
fn custom_priority_saturates() {
    assert_eq!(Convert::to_stroops(u64::MAX, FeePriority::Custom(2)), u64::MAX);
    assert_eq!(Convert::to_stroops(7, FeePriority::Custom(3)), 21);
}

#[test]
fn format_fee_exact_texts() {
    assert_eq!(Convert::format_fee(50_000_000), "5.0000 XLM");
    assert_eq!(Convert::format_fee(12_345_678), "1.2346 XLM");
    assert_eq!(Convert::format_fee(1), "1 stroop");
    assert_eq!(Convert::format_fee(500), "500 stroop");
    assert_eq!(Convert::format_fee(1000), "1000 stroops");
}

#[test]
fn validate_reports_both_formats() {
    let args = ConvertArgs {
        from: "xml".to_string(),
        to: "yaml".to_string(),
        priority: None,
        input: None,
        output: None,
    };
    let errs = args.validate().unwrap_err();
    assert_eq!(errs, vec!["unsupported input format: xml".to_string(), "unsupported output format: yaml".to_string()]);
}

#[test]
fn format_fee_matches_double_precision_formatting() {
    let mut samples: Vec<u64> = vec![
        10_000_000, 10_000_500, 10_312_500, 10_937_500, 12_345_678, 99_999_999, 100_000_000,
        1_234_567_890_123, 9_007_199_254_740_993, 18_446_744_073_709_551_615, 18_446_744_073_709_549_568,
    ];
    let mut x: u64 = 10_000_000;
    for _ in 0..20_000 {
        samples.push(x);
        x = x.wrapping_mul(6364136223846793005).wrapping_add(1442695040888963407) % 1_000_000_000_000 + 10_000_000;
    }
    for s in 10_000_000u64..10_002_000 {
        samples.push(s);
    }
    for s in samples {
        let expected = format!("{:.4} XLM", s as f64 / 10_000_000.0);
        assert_eq!(Convert::format_fee(s), expected, "stroops {}", s);
    }
    assert_eq!(Convert::format_fee(10_000_500), "1.0001 XLM");
}

#[test]
fn to_stroops_matches_double_precision_arithmetic() {
    let mut fees: Vec<u64> = vec![
        0, 1, 7, 100, 101, (1 << 53) + 1, (1 << 53) + 3, (1 << 52) + 1, 3_002_399_751_580_331,
        6_004_799_503_160_661, u64::MAX, u64::MAX - 1024, 1 << 63,
    ];
    let mut x: u64 = 12345;
    for _ in 0..5_000 {
        fees.push(x);
        fees.push(x >> (x % 60));
        x = x.wrapping_mul(6364136223846793005).wrapping_add(1442695040888963407);
    }
    let customs: Vec<u64> = vec![0, 1, 2, 3, 1000, (1 << 53) + 1, u64::MAX, 1 << 32];
    for &fee in &fees {
        let run = |p: FeePriority, m: f64| {
            assert_eq!(Convert::to_stroops(fee, p), (fee as f64 * m).round() as u64, "fee {} {:?}", fee, p);
        };
        run(FeePriority::Low, 1.0);
        run(FeePriority::Medium, 1.5);
        run(FeePriority::High, 2.0);
        for &c in &customs {
            run(FeePriority::Custom(c), c as f64);
        }
    }
    assert_eq!(Convert::to_stroops((1 << 53) + 1, FeePriority::Low), 1 << 53);
}
