use devkit::analysis_instrumentation::{
    instrument_percentile, instrument_rolling_window, instrument_spike_classifier, AnalysisInstrumentation,
    AnalysisSpan,
};

#[test]
fn span_start_creates_span() {
    let span = AnalysisSpan::start("test", "id-1", None);
    assert_eq!(span.operation, "test");
    assert_eq!(span.id, "id-1");
    assert!(span.end.is_none());
}

#[test]
fn span_with_attr_adds_attribute() {
    let span = AnalysisSpan::start("op", "id", None).with_attr("key", "value");
    assert_eq!(span.attributes.len(), 1);
    assert_eq!(span.attributes[0].0, "key");
}

#[test]
fn finish_records_end_time() {
    let mut span = AnalysisSpan::start("op", "id", None);
    let dur = span.finish();
    assert!(span.end.is_some());
    assert!(dur >= 0);
}

#[test]
fn elapsed_returns_duration() {
    let span = AnalysisSpan::start("op", "id", None);
    assert!(span.elapsed() >= 0);
}

#[test]
fn json_includes_id_and_op() {
    let mut span = AnalysisSpan::start("op", "my-id", None);
    span.finish();
    let json = span.to_json();
    assert!(json.contains("my-id"));
    assert!(json.contains("op"));
}

#[test]
fn instrumentation_creates_and_records_spans() {
    let mut inst = AnalysisInstrumentation::new(true);
    let mut s = inst.span("op", "id", None);
    inst.record(&mut s);
    assert_eq!(inst.completed_spans().len(), 1);
}

#[test]
fn instrumentation_disabled_still_creates_spans() {
    let mut inst = AnalysisInstrumentation::new(false);
    let mut s = inst.span("op", "id", None);
    inst.record(&mut s);
    assert_eq!(inst.span_count(), 1);
}

#[test]
fn by_operation_filters() {
    let mut inst = AnalysisInstrumentation::new(true);
    inst.span("a", "1", None);
    inst.span("b", "2", None);
    assert_eq!(inst.by_operation("a").len(), 1);
}

#[test]
fn total_time_accumulates() {
    let mut inst = AnalysisInstrumentation::new(true);
    let mut s1 = inst.span("op", "1", None);
    let mut s2 = inst.span("op", "2", None);
    inst.record(&mut s1);
    inst.record(&mut s2);
    assert!(inst.total_time() > 0);
}

#[test]
fn analysis_instrumentation_reset_clears_all() {
    let mut inst = AnalysisInstrumentation::new(true);
    inst.span("op", "1", None);
    inst.reset();
    assert_eq!(inst.span_count(), 0);
}

#[test]
fn to_json_returns_array() {
    let mut inst = AnalysisInstrumentation::new(true);
    let mut s = inst.span("op", "id", None);
    inst.record(&mut s);
    let json = inst.to_json();
    assert!(json.starts_with('['));
}

#[test]
fn instrument_percentile_creates_span() {
    let mut inst = AnalysisInstrumentation::new(true);
    let s = instrument_percentile(&mut inst, 100);
    assert_eq!(s.operation, "percentile");
}

#[test]
fn instrument_spike_classifier_with_attrs() {
    let mut inst = AnalysisInstrumentation::new(true);
    let s = instrument_spike_classifier(&mut inst, 500, None);
    assert!(s.attributes.iter().any(|(k, _)| k == "total_points"));
}

#[test]
fn span_json_exact_text() {
    let span = AnalysisSpan {
        id: "s1".to_string(),
        parent_id: Some("p0".to_string()),
        operation: "op".to_string(),
        start: std::time::Instant::now(),
        end: Some(3_000_000),
        attributes: vec![("k".to_string(), "v".to_string()), ("n".to_string(), "2".to_string())],
    };
    assert_eq!(span.elapsed(), 3_000_000);
    assert_eq!(
        span.to_json(),
        "{\"id\":\"s1\",\"op\":\"op\",\"dur_ms\":3,\"parent_id\":\"p0\",\"finished\":true,\"attrs\":{\"k\":\"v\",\"n\":\"2\"}}"
    );
}

#[test]
fn running_span_json_uses_the_given_time() {
    let span = AnalysisSpan::start("op", "r1", None);
    assert_eq!(span.elapsed_at(7_000_000), 7_000_000);
    assert_eq!(
        span.to_json_at(7_000_000),
        "{\"id\":\"r1\",\"op\":\"op\",\"dur_ms\":7,\"parent_id\":null,\"finished\":false,\"attrs\":{}}"
    );
    let mut inst = AnalysisInstrumentation::new(true);
    let mut a = inst.span("a", "1", None);
    let _b = inst.span("b", "2", None);
    a.finish();
    let json = inst.to_json_at(&vec![5_000_000, 9_000_000]);
    assert!(json.starts_with("[{\"id\":\"1\",\"op\":\"a\",\"dur_ms\":5,"));
    assert!(json.contains("{\"id\":\"2\",\"op\":\"b\",\"dur_ms\":9,"));
}

#[test]
fn disabled_record_leaves_span_running() {
    let mut inst = AnalysisInstrumentation::new(false);
    let mut s = inst.span("op", "id", None);
    inst.record(&mut s);
    assert!(s.end.is_none());
    assert_eq!(inst.completed_spans().len(), 0);
}

#[test]
fn instrument_ids_and_attributes() {
    let mut inst = AnalysisInstrumentation::new(true);
    let p = instrument_percentile(&mut inst, 42);
    assert_eq!(p.id, "pctl-42");
    let r = instrument_rolling_window(&mut inst, 7, Some("pctl-42".to_string()));
    assert!(r.id.starts_with("rw-7-"));
    assert_eq!(r.parent_id.as_deref(), Some("pctl-42"));
    let s = instrument_spike_classifier(&mut inst, 9, None);
    assert!(s.id.starts_with("spike-9-"));
    assert_eq!(s.attributes, vec![("total_points".to_string(), "9".to_string())]);
    assert_eq!(inst.span_count(), 3);
    assert_eq!(inst.by_operation("rolling_window").len(), 1);
}

#[test]
fn spike_classifier_span_is_registered_with_earlier_spans_kept() {
    let mut inst = AnalysisInstrumentation::new(true);
    let first = instrument_percentile(&mut inst, 10);
    let n0 = inst.span_count();
    let k0 = inst.by_operation("spike_classifier").len();
    let s = instrument_spike_classifier(&mut inst, 500, Some("p".to_string()));
    assert_eq!(s.operation, "spike_classifier");
    assert!(s.id.starts_with("spike-500-"));
    assert_eq!(s.parent_id, Some("p".to_string()));
    assert_eq!(s.attributes, vec![("total_points".to_string(), "500".to_string())]);
    assert_eq!(inst.span_count(), n0 + 1);
    assert_eq!(inst.by_operation("spike_classifier").len(), k0 + 1);
    assert_eq!(inst.by_operation("percentile")[0].id, first.id);
}
