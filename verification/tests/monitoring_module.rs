use devkit::monitoring_module::{
    module_summary, MetricLabel, MonitoringDocsArgs, MonitoringLevel, PropagationFormat,
    DEFAULT_LOG_DIR, DEFAULT_LOG_MAX_FILES, DEFAULT_LOG_MAX_SIZE, MAX_BAGGAGE_ENTRIES,
    MONITORING_VERSION, TRACEPARENT_MAX_LENGTH,
};

#[test]
fn monitoring_version_defined() {
    assert!(!MONITORING_VERSION.is_empty());
}

#[test]
fn propagation_format_header_name() {
    assert_eq!(PropagationFormat::W3CTraceparent.header_name(), "traceparent");
    assert_eq!(PropagationFormat::ZipkinB3.header_name(), "b3");
}

#[test]
fn propagation_format_all_returns_four() {
    assert_eq!(PropagationFormat::all().len(), 4);
}

#[test]
fn monitoring_level_parse() {
    assert_eq!(MonitoringLevel::parse("info"), Some(MonitoringLevel::Info));
    assert_eq!(MonitoringLevel::parse("WARN"), Some(MonitoringLevel::Warn));
    assert_eq!(MonitoringLevel::parse("unknown"), None);
}

#[test]
fn monitoring_level_as_str() {
    assert_eq!(MonitoringLevel::Debug.as_str(), "debug");
    assert_eq!(MonitoringLevel::Error.as_str(), "error");
}

#[test]
fn module_summary_returns_items() {
    let items = module_summary();
    assert!(items.len() >= 7);
    assert!(items.iter().any(|(n, _)| n == "TraceContext"));
}

#[test]
fn generate_docs_contains_overview() {
    let docs = MonitoringDocsArgs::generate_docs();
    assert!(docs.contains("Monitoring Module"));
    assert!(docs.contains("TraceContext"));
    assert!(docs.contains("RotatingLogWriter"));
}

#[test]
fn metric_label_new() {
    let label = MetricLabel::new("env", "prod");
    assert_eq!(label.key, "env");
    assert_eq!(label.value, "prod");
}

#[test]
fn monitoring_docs_args_default() {
    let args = MonitoringDocsArgs::default();
    assert!(args.summary);
    assert!(!args.config);
}

#[test]
fn max_baggage_entries_constant() {
    assert_eq!(MAX_BAGGAGE_ENTRIES, 64);
}

#[test]
fn constants_values() {
    assert_eq!(TRACEPARENT_MAX_LENGTH, 55);
    assert_eq!(DEFAULT_LOG_MAX_SIZE, 10 * 1024 * 1024);
    assert_eq!(DEFAULT_LOG_MAX_FILES, 5);
    assert_eq!(DEFAULT_LOG_DIR, "logs");
    assert_eq!(MONITORING_VERSION, "1.0.0");
}

#[test]
fn level_names_parse_back() {
    for l in [MonitoringLevel::Debug, MonitoringLevel::Info, MonitoringLevel::Warn, MonitoringLevel::Error] {
        assert_eq!(MonitoringLevel::parse(l.as_str()), Some(l));
    }
    assert_eq!(MonitoringLevel::parse("Warning"), Some(MonitoringLevel::Warn));
    assert_eq!(MonitoringLevel::parse("\u{212a}"), None);
}

#[test]
fn levels_are_ordered() {
    assert!(MonitoringLevel::Debug < MonitoringLevel::Info);
    assert!(MonitoringLevel::Warn < MonitoringLevel::Error);
}

#[test]
fn docs_table_rows() {
    let docs = MonitoringDocsArgs::generate_docs();
    assert!(docs.contains("| `TraceContext` | W3C trace context with baggage propagation |\n"));
    assert!(docs.starts_with("# Monitoring Module\n\n## Overview\n\n"));
    assert!(docs.ends_with("    level: Info,\n}\n```\n"));
    assert_eq!(module_summary().len(), 8);
    assert_eq!(PropagationFormat::Datadog.header_name(), "x-datadog-trace-id");
}
