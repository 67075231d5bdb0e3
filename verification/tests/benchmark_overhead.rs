use devkit::benchmark_overhead::BenchmarkOverheadArgs;

#[test]
fn format_duration_handles_ns() {
    let s = BenchmarkOverheadArgs::format_duration(&500);
    assert!(s.contains("ns"));
}

#[test]
fn benchmark_args_default() {
    let args = BenchmarkOverheadArgs::default();
    assert_eq!(args.iterations, 10_000);
    assert!(!args.json);
}

#[test]
fn format_duration_two_decimals() {
    assert_eq!(BenchmarkOverheadArgs::format_duration(&1_500_000_000), "1.50s");
    assert_eq!(BenchmarkOverheadArgs::format_duration(&2_344_000), "2.34ms");
    assert_eq!(BenchmarkOverheadArgs::format_duration(&2_356_000), "2.36ms");
    assert_eq!(BenchmarkOverheadArgs::format_duration(&1_000), "1.00\u{b5}s");
}
