use devkit::str_map::StrMap;
use devkit::trace_context::{Propagator, TraceContext, TraceRegistry, W3CPropagator};

#[test]
fn new_root_creates_unique_trace_id() {
    let a = TraceContext::new_root();
    let b = TraceContext::new_root();
    assert_ne!(a.trace_id, b.trace_id);
}

#[test]
fn child_span_preserves_trace_id() {
    let root = TraceContext::new_root();
    let child = root.child_span();
    assert_eq!(root.trace_id, child.trace_id);
    assert_eq!(child.parent_span_id.0, root.span_id.0);
}

#[test]
fn baggage_round_trip() {
    let ctx = TraceContext::new_root().with_baggage("env", "test");
    assert_eq!(ctx.baggage("env"), Some("test"));
}

#[test]
fn traceparent_round_trip() {
    let ctx = TraceContext::new_root();
    let header = ctx.to_traceparent();
    let parsed = TraceContext::from_traceparent(&header).unwrap();
    assert_eq!(ctx.trace_id, parsed.trace_id);
    assert_eq!(ctx.span_id, parsed.span_id);
}

#[test]
fn registry_get_creates_root() {
    let mut reg = TraceRegistry::new();
    let ctx = reg.get();
    assert!(!ctx.trace_id.0.is_empty());
}

#[test]
fn registry_start_span_increments_count() {
    let mut reg = TraceRegistry::new();
    reg.start_span();
    reg.start_span();
    assert_eq!(reg.span_count(), 2);
}

#[test]
fn w3c_propagator_inject_and_extract() {
    let propagator = W3CPropagator;
    let ctx = TraceContext::new_root().with_baggage("env", "prod");
    let mut carrier = StrMap::new();
    propagator.inject(&ctx, &mut carrier);
    assert!(carrier.contains_key("traceparent"));
    let extracted = propagator.extract(&carrier).unwrap();
    assert_eq!(ctx.trace_id, extracted.trace_id);
    assert_eq!(extracted.baggage("env"), Some("prod"));
}

#[test]
fn registry_clear_removes_context() {
    let mut reg = TraceRegistry::new();
    reg.set(TraceContext::new_root());
    reg.clear();
    let ctx = reg.get();
    assert!(!ctx.baggage.contains_key("env"));
}

#[test]
fn invalid_traceparent_returns_none() {
    assert!(TraceContext::from_traceparent("invalid").is_none());
    assert!(TraceContext::from_traceparent("00-abc").is_none());
}

#[test]
fn generated_ids_are_32_hex_digits() {
    let ctx = TraceContext::new_root();
    assert_eq!(ctx.trace_id.0.len(), 32);
    assert!(ctx.trace_id.0.chars().all(|c| c.is_ascii_hexdigit() && !c.is_ascii_uppercase()));
    assert_eq!(ctx.trace_id.0, ctx.span_id.0);
}

#[test]
fn traceparent_exact_text_and_parse() {
    let parsed = TraceContext::from_traceparent("00-abc-def-01").unwrap();
    assert_eq!(parsed.trace_id.0, "abc");
    assert_eq!(parsed.span_id.0, "def");
    assert_eq!(parsed.parent_span_id.0, "");
    assert_eq!(parsed.to_traceparent(), "00-abc-def-01");
    assert!(TraceContext::from_traceparent("01-abc-def-01").is_none());
    let extra = TraceContext::from_traceparent("00-a-b-c-d").unwrap();
    assert_eq!(extra.span_id.0, "b");
}

#[test]
fn extract_collects_prefixed_baggage_only() {
    let mut carrier = StrMap::new();
    carrier.insert("traceparent".to_string(), "00-t1-s1-01".to_string());
    carrier.insert("baggage-user".to_string(), "alice".to_string());
    carrier.insert("other".to_string(), "x".to_string());
    let ctx = W3CPropagator.extract(&carrier).unwrap();
    assert_eq!(ctx.baggage("user"), Some("alice"));
    assert_eq!(ctx.baggage("other"), None);
    assert_eq!(ctx.baggage.len(), 1);
    let empty: StrMap<String> = StrMap::new();
    assert!(W3CPropagator.extract(&empty).is_none());
}

#[test]
fn inject_writes_header_and_prefixed_items() {
    let ctx = TraceContext::from_traceparent("00-t-s-01").unwrap().with_baggage("k", "v");
    let mut carrier = StrMap::new();
    carrier.insert("keep".to_string(), "me".to_string());
    W3CPropagator.inject(&ctx, &mut carrier);
    assert_eq!(carrier.get("traceparent").map(|s| s.as_str()), Some("00-t-s-01"));
    assert_eq!(carrier.get("baggage-k").map(|s| s.as_str()), Some("v"));
    assert_eq!(carrier.get("keep").map(|s| s.as_str()), Some("me"));
}

#[test]
fn registry_get_keeps_the_same_context() {
    let mut reg = TraceRegistry::new();
    let first = reg.get();
    let second = reg.get();
    assert_eq!(first.trace_id, second.trace_id);
    let child = reg.start_span();
    assert_eq!(child.trace_id, first.trace_id);
    assert_eq!(child.parent_span_id.0, first.span_id.0);
}

#[test]
fn child_span_id_differs_from_parent() {
    let root = TraceContext::new_root();
    let child = root.child_span();
    let grandchild = child.child_span();
    assert_ne!(child.span_id, root.span_id);
    assert_ne!(grandchild.span_id, child.span_id);
    assert_eq!(child.span_id.0.len(), 32);
    assert!(child.span_id.0.chars().all(|c| c.is_ascii_hexdigit()));
}
