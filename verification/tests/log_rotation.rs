use devkit::log_rotation::{
    parse_rotation_config, parse_size, size_fits_text, Compression, LogRotationArgs, LogRotationConfig,
};

#[test]
fn parse_size_bytes() {
    assert_eq!(parse_size("1024"), Some(1024));
}

#[test]
fn parse_size_kb() {
    assert_eq!(parse_size("1kb"), Some(1024));
}

#[test]
fn parse_size_mb() {
    assert_eq!(parse_size("10MB"), Some(10 * 1024 * 1024));
}

#[test]
fn parse_size_gb() {
    assert_eq!(parse_size("2gb"), Some(2 * 1024 * 1024 * 1024));
}

#[test]
fn parse_size_invalid_returns_none() {
    assert_eq!(parse_size("xyz"), None);
}

#[test]
fn config_validation_passes_for_default() {
    let cfg = LogRotationConfig::default();
    assert!(cfg.validate().is_empty());
}

#[test]
fn config_validation_fails_for_zero_size() {
    let cfg = LogRotationConfig { max_file_size: 0, ..Default::default() };
    assert!(!cfg.validate().is_empty());
}

#[test]
fn active_path_uses_base_name() {
    let cfg = LogRotationConfig::default();
    let path = cfg.active_path();
    assert!(path.ends_with("devkit.log"));
}

#[test]
fn archive_path_includes_index() {
    let cfg = LogRotationConfig::default();
    let path = cfg.archive_path(3);
    assert!(path.contains(".3."));
}

#[test]
fn parse_rotation_config_from_string() {
    let content = r#"
            max_file_size = "50MB"
            max_files = 3
            compression = "gzip"
            output_dir = "/var/log/devkit"
        "#;
    let cfg = parse_rotation_config(content);
    assert_eq!(cfg.max_file_size, 50 * 1024 * 1024);
    assert_eq!(cfg.max_files, 3);
    assert_eq!(cfg.compression, Compression::Gzip);
}

#[test]
fn log_rotation_args_default() {
    let args = LogRotationArgs::default();
    assert_eq!(args.max_files, 5);
}

#[test]
fn active_path_joins_directory() {
    let cfg = LogRotationConfig::default();
    assert_eq!(cfg.active_path(), "logs/devkit.log");
}

#[test]
fn archive_path_at_exact_text() {
    let cfg = LogRotationConfig::default();
    assert_eq!(cfg.archive_path_at(2, 1700000000), "logs/devkit.1700000000.2.log");
    let gz = LogRotationConfig { compression: Compression::Gzip, timestamp_suffix: false, ..Default::default() };
    assert_eq!(gz.archive_path_at(4, 99), "logs/devkit.4.log.gz");
}

#[test]
fn parse_size_with_spaces_and_units() {
    assert_eq!(parse_size(" 3KB "), Some(3 * 1024));
    assert_eq!(parse_size("3 KB"), None);
    assert_eq!(parse_size("7b"), Some(7));
    assert_eq!(parse_size("-1"), None);
}

#[test]
fn parse_rotation_config_keeps_defaults_for_bad_lines() {
    let cfg = parse_rotation_config("# comment\nmax_files = lots\nunknown = 1\nnot a pair\n");
    assert_eq!(cfg.max_files, 5);
    assert_eq!(cfg.max_file_size, 10 * 1024 * 1024);
    assert_eq!(cfg.output_dir, "logs");
}

#[test]
fn should_rotate_and_retire() {
    let cfg = LogRotationConfig { max_file_size: 10, max_files: 2, ..Default::default() };
    assert!(!cfg.should_rotate(5, 4));
    assert!(cfg.should_rotate(5, 5));
    assert_eq!(cfg.retired_archive(1), None);
    assert_eq!(cfg.retired_archive(3), Some(1));
}

#[test]
fn args_config_uses_size_and_dir() {
    let args = LogRotationArgs { max_size: "1MB".to_string(), max_files: 2, output_dir: Some("/tmp/x".to_string()), show: false, check: false };
    let cfg = args.config();
    assert_eq!(cfg.max_file_size, 1024 * 1024);
    assert_eq!(cfg.max_files, 2);
    assert_eq!(cfg.output_dir, "/tmp/x");
}

#[test]
fn size_fits_only_within_64_bits() {
    assert!(size_fits_text("10MB"));
    assert!(size_fits_text("not a size"));
    assert!(size_fits_text("17179869183gb"));
    assert!(!size_fits_text("17179869184gb"));
    assert!(!size_fits_text(" 18446744073709551615kb "));
    assert!(size_fits_text("18446744073709551615 kb"));
    assert!(size_fits_text("18446744073709551615"));
}
