use vstd::prelude::*;
use crate::text::{chars_of, chars_eq, fold, fold_chars, push_str, string_from};

verus! {

/// Current version of the monitoring API.
pub const MONITORING_VERSION: &'static str = "1.0.0";

/// Maximum baggage key-value pairs per trace context.
pub const MAX_BAGGAGE_ENTRIES: usize = 64;

/// Maximum `traceparent` header length (W3C).
pub const TRACEPARENT_MAX_LENGTH: usize = 55;

/// Default log file size before rotation (10 MB).
pub const DEFAULT_LOG_MAX_SIZE: u64 = 10 * 1024 * 1024;

/// Default number of archived log files to keep.
pub const DEFAULT_LOG_MAX_FILES: u32 = 5;

/// Default log output directory.
pub const DEFAULT_LOG_DIR: &'static str = "logs";

/// Trace propagation formats.
#[derive(Debug, Clone, Copy, PartialEq, Eq, Structural)]
pub enum PropagationFormat {
    W3CTraceparent,
    ZipkinB3,
    Jaeger,
    Datadog,
}

/// The HTTP header of a propagation format.
pub open spec fn header_of(f: PropagationFormat) -> Seq<char> {
    match f {
        PropagationFormat::W3CTraceparent => "traceparent"@,
        PropagationFormat::ZipkinB3 => "b3"@,
        PropagationFormat::Jaeger => "uber-trace-id"@,
        PropagationFormat::Datadog => "x-datadog-trace-id"@,
    }
}

impl PropagationFormat {
    /// The HTTP header name this format uses.
    pub fn header_name(&self) -> (s: &'static str)
        ensures
            s@ == header_of(*self),
    {
        match self {
            PropagationFormat::W3CTraceparent => "traceparent",
            PropagationFormat::ZipkinB3 => "b3",
            PropagationFormat::Jaeger => "uber-trace-id",
            PropagationFormat::Datadog => "x-datadog-trace-id",
        }
    }

    /// Every supported format, in declaration order.
    pub fn all() -> (v: Vec<PropagationFormat>)
        ensures
            v@ == seq![
                PropagationFormat::W3CTraceparent,
                PropagationFormat::ZipkinB3,
                PropagationFormat::Jaeger,
                PropagationFormat::Datadog,
            ],
    {
        let v = vec![
            PropagationFormat::W3CTraceparent,
            PropagationFormat::ZipkinB3,
            PropagationFormat::Jaeger,
            PropagationFormat::Datadog,
        ];
        assert(v@ =~= seq![
            PropagationFormat::W3CTraceparent,
            PropagationFormat::ZipkinB3,
            PropagationFormat::Jaeger,
            PropagationFormat::Datadog,
        ]);
        v
    }
}

/// Severity levels of monitoring events, in increasing order.
#[derive(Debug, Clone, Copy, PartialEq, Eq, Structural, PartialOrd)]
pub enum MonitoringLevel {
    Debug,
    Info,
    Warn,
    Error,
}

/// The level a text names, compared after lower-casing: `debug`, `info`,
/// `warn` or `warning`, `error`.
pub open spec fn level_from_text(s: Seq<char>) -> Option<MonitoringLevel> {
    let f = fold(s);
    if f == "debug"@ {
        Some(MonitoringLevel::Debug)
    } else if f == "info"@ {
        Some(MonitoringLevel::Info)
    } else if f == "warn"@ || f == "warning"@ {
        Some(MonitoringLevel::Warn)
    } else if f == "error"@ {
        Some(MonitoringLevel::Error)
    } else {
        None
    }
}

/// The name of a level.
pub open spec fn level_name(l: MonitoringLevel) -> Seq<char> {
    match l {
        MonitoringLevel::Debug => "debug"@,
        MonitoringLevel::Info => "info"@,
        MonitoringLevel::Warn => "warn"@,
        MonitoringLevel::Error => "error"@,
    }
}

/// A level's name parses back to that level.
pub proof fn law_level_round_trip(l: MonitoringLevel)
    ensures
        level_from_text(level_name(l)) == Some(l),
{
    reveal_strlit("debug");
    reveal_strlit("info");
    reveal_strlit("warn");
    reveal_strlit("warning");
    reveal_strlit("error");
    assert(fold("debug"@) =~= "debug"@);
    assert(fold("info"@) =~= "info"@);
    assert(fold("warn"@) =~= "warn"@);
    assert(fold("error"@) =~= "error"@);
    assert("debug"@ != "error"@) by {
        assert("debug"@[0] != "error"@[0]);
    }
    assert("info"@ != "warn"@) by {
        assert("info"@[0] != "warn"@[0]);
    }
    assert("info"@ != "debug"@ && "warn"@ != "debug"@ && "error"@ != "info"@ && "error"@ != "warn"@
        && "error"@ != "warning"@ && "info"@ != "warning"@);
}

impl MonitoringLevel {
    /// The level that `s` names, case aside.
    pub fn parse(s: &str) -> (r: Option<Self>)
        ensures
            r == level_from_text(s@),
    {
        let f = fold_chars(&chars_of(s));
        if chars_eq(&f, &chars_of("debug")) {
            Some(MonitoringLevel::Debug)
        } else if chars_eq(&f, &chars_of("info")) {
            Some(MonitoringLevel::Info)
        } else if chars_eq(&f, &chars_of("warn")) || chars_eq(&f, &chars_of("warning")) {
            Some(MonitoringLevel::Warn)
        } else if chars_eq(&f, &chars_of("error")) {
            Some(MonitoringLevel::Error)
        } else {
            None
        }
    }

    /// `debug`, `info`, `warn` or `error`.
    pub fn as_str(&self) -> (s: &'static str)
        ensures
            s@ == level_name(*self),
    {
        match self {
            MonitoringLevel::Debug => "debug",
            MonitoringLevel::Info => "info",
            MonitoringLevel::Warn => "warn",
            MonitoringLevel::Error => "error",
        }
    }
}

/// A key-value label for tagging monitoring data.
#[derive(Debug, Clone, Hash, PartialEq, Eq)]
pub struct MetricLabel {
    pub key: String,
    pub value: String,
}

impl MetricLabel {
    /// The label `key = value`.
    pub fn new(key: &str, value: &str) -> (l: Self)
        ensures
            l.key@ == key@,
            l.value@ == value@,
    {
        MetricLabel { key: string_from(key), value: string_from(value) }
    }
}

/// The public components of the monitoring module, each with a description.
pub open spec fn summary_items() -> Seq<(Seq<char>, Seq<char>)> {
    seq![
        ("TraceContext"@, "W3C trace context with baggage propagation"@),
        ("TraceRegistry"@, "Thread-safe trace context store"@),
        ("W3CPropagator"@, "Inject/extract traceparent headers"@),
        ("MonitoringBenchmark"@, "Overhead measurement suite"@),
        ("Measurement"@, "Single benchmark result"@),
        ("LogRotationConfig"@, "Log file rotation settings"@),
        ("RotatingLogWriter"@, "Auto-rotating log file writer"@),
        ("MonitoringConfig"@, "Global monitoring settings"@),
    ]
}

/// The names and descriptions of the module's public components.
pub fn module_summary() -> (v: Vec<(String, String)>)
    ensures
        v@.len() == summary_items().len(),
        forall|i: int| 0 <= i < v@.len() ==> (#[trigger] v@[i]).0@ == summary_items()[i].0
            && v@[i].1@ == summary_items()[i].1,
{
    let v = vec![
        (string_from("TraceContext"), string_from("W3C trace context with baggage propagation")),
        (string_from("TraceRegistry"), string_from("Thread-safe trace context store")),
        (string_from("W3CPropagator"), string_from("Inject/extract traceparent headers")),
        (string_from("MonitoringBenchmark"), string_from("Overhead measurement suite")),
        (string_from("Measurement"), string_from("Single benchmark result")),
        (string_from("LogRotationConfig"), string_from("Log file rotation settings")),
        (string_from("RotatingLogWriter"), string_from("Auto-rotating log file writer")),
        (string_from("MonitoringConfig"), string_from("Global monitoring settings")),
    ];
    v
}

/// Options of the monitoring documentation command.
#[derive(Debug, Clone, Copy)]
pub struct MonitoringDocsArgs {
    /// Show the module summary.
    pub summary: bool,
    /// Show the configuration documentation.
    pub config: bool,
    /// Output as JSON.
    pub json: bool,
}

impl Default for MonitoringDocsArgs {
    /// The summary only, as text.
    fn default() -> (a: Self)
        ensures
            a.summary,
            !a.config,
            !a.json,
    {
        MonitoringDocsArgs { summary: true, config: false, json: false }
    }
}

/// One table row of the documentation: `| `name` | description |`.
pub open spec fn doc_row(item: (Seq<char>, Seq<char>)) -> Seq<char> {
    "| `"@ + item.0 + "` | "@ + item.1 + " |\n"@
}

/// The table rows of `items`.
pub open spec fn doc_rows(items: Seq<(Seq<char>, Seq<char>)>) -> Seq<char>
    decreases items.len(),
{
    if items.len() == 0 {
        Seq::empty()
    } else {
        doc_rows(items.drop_last()) + doc_row(items.last())
    }
}

/// The text before the component table.
pub open spec fn docs_head() -> Seq<char> {
    "# Monitoring Module\n\n"@ + "## Overview\n\n"@
        + "The monitoring module provides distributed tracing, benchmarking, and log rotation for the devkit.\n\n"@
        + "## Components\n\n"@ + "| Component | Description |\n"@ + "|-----------|-------------|\n"@
}

/// The text after the component table.
pub open spec fn docs_tail() -> Seq<char> {
    "\n## Configuration\n\n"@ + "```rust\n"@ + "MonitoringConfig {\n"@ + "    trace_enabled: true,\n"@
        + "    benchmark_enabled: false,\n"@ + "    log_rotation_enabled: true,\n"@
        + "    sampling_rate: 1.0,\n"@ + "    propagation_format: W3CTraceparent,\n"@
        + "    level: Info,\n"@ + "}\n```\n"@
}

impl MonitoringDocsArgs {
    /// The Markdown documentation of the monitoring module: an overview, a
    /// table of the components, and the default configuration.
    pub fn generate_docs() -> (s: String)
        ensures
            s@ == docs_head() + doc_rows(summary_items()) + docs_tail(),
    {
        let mut docs = String::new();
        push_str(&mut docs, "# Monitoring Module\n\n");
        push_str(&mut docs, "## Overview\n\n");
        push_str(
            &mut docs,
            "The monitoring module provides distributed tracing, benchmarking, and log rotation for the devkit.\n\n",
        );
        push_str(&mut docs, "## Components\n\n");
        push_str(&mut docs, "| Component | Description |\n");
        push_str(&mut docs, "|-----------|-------------|\n");
        assert(docs@ =~= docs_head());
        let items = module_summary();
        let ghost want = summary_items();
        let mut i: usize = 0;
        while i < items.len()
            invariant
                i <= items@.len(),
                items@.len() == want.len(),
                want == summary_items(),
                forall|j: int| 0 <= j < items@.len() ==> (#[trigger] items@[j]).0@ == want[j].0
                    && items@[j].1@ == want[j].1,
                docs@ == docs_head() + doc_rows(want.take(i as int)),
            decreases items.len() - i,
        {
            push_str(&mut docs, "| `");
            push_str(&mut docs, items[i].0.as_str());
            push_str(&mut docs, "` | ");
            push_str(&mut docs, items[i].1.as_str());
            push_str(&mut docs, " |\n");
            assert(want.take(i + 1).drop_last() =~= want.take(i as int));
            assert(docs@ =~= docs_head() + doc_rows(want.take(i + 1)));
            i += 1;
        }
        assert(want.take(i as int) =~= want);
        let ghost mid = docs@;
        push_str(&mut docs, "\n## Configuration\n\n");
        push_str(&mut docs, "```rust\n");
        push_str(&mut docs, "MonitoringConfig {\n");
        push_str(&mut docs, "    trace_enabled: true,\n");
        push_str(&mut docs, "    benchmark_enabled: false,\n");
        push_str(&mut docs, "    log_rotation_enabled: true,\n");
        push_str(&mut docs, "    sampling_rate: 1.0,\n");
        push_str(&mut docs, "    propagation_format: W3CTraceparent,\n");
        push_str(&mut docs, "    level: Info,\n");
        push_str(&mut docs, "}\n```\n");
        assert(docs@ =~= mid + docs_tail());
        docs
    }
}

} // verus!
