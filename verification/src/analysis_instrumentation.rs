use vstd::prelude::*;
use crate::clock::{instant_now, nanos_since, now_nanos, same_instant};
use crate::text::{chars_of, chars_eq, push_str, push_u64, string_from, dec};

verus! {

/// A timed span of an analysis operation, with metadata. Durations are
/// nanoseconds on the monotonic clock.
#[derive(Debug)]
pub struct AnalysisSpan {
    /// Span identifier.
    pub id: String,
    /// Parent span identifier.
    pub parent_id: Option<String>,
    /// Name of the analysis operation.
    pub operation: String,
    /// When the span started, on the monotonic clock.
    pub start: std::time::Instant,
    /// When the span finished, once it has: nanoseconds after its start.
    pub end: Option<u64>,
    /// Key-value attributes, in the order they were added.
    pub attributes: Vec<(String, String)>,
}

/// The attributes of a span, each as a pair of texts.
pub open spec fn attrs_view(a: Seq<(String, String)>) -> Seq<(Seq<char>, Seq<char>)> {
    a.map_values(|p: (String, String)| (p.0@, p.1@))
}

/// The parent of a span, as text.
pub open spec fn parent_view(p: Option<String>) -> Option<Seq<char>> {
    match p {
        Some(s) => Some(s@),
        None => None,
    }
}

/// `b` is a copy of `a`.
pub open spec fn same_span(a: AnalysisSpan, b: AnalysisSpan) -> bool {
    &&& b.id@ == a.id@
    &&& parent_view(b.parent_id) == parent_view(a.parent_id)
    &&& b.operation@ == a.operation@
    &&& b.start == a.start
    &&& b.end == a.end
    &&& attrs_view(b.attributes@) == attrs_view(a.attributes@)
}

/// The duration of a span: up to its end when finished, else `running`, the
/// time since its start.
pub open spec fn span_elapsed(s: AnalysisSpan, running: u64) -> u64 {
    match s.end {
        Some(e) => e,
        None => running,
    }
}

/// `"k":"v"` pairs of the attributes, separated by commas.
pub open spec fn attrs_json(a: Seq<(Seq<char>, Seq<char>)>) -> Seq<char>
    decreases a.len(),
{
    if a.len() == 0 {
        Seq::empty()
    } else if a.len() == 1 {
        "\""@ + a[0].0 + "\":\""@ + a[0].1 + "\""@
    } else {
        attrs_json(a.drop_last()) + ","@ + "\""@ + a.last().0 + "\":\""@ + a.last().1 + "\""@
    }
}

/// The JSON of a span, a running one having run for `running` nanoseconds.
pub open spec fn span_json(s: AnalysisSpan, running: u64) -> Seq<char> {
    "{\"id\":\""@ + s.id@ + "\",\"op\":\""@ + s.operation@ + "\",\"dur_ms\":"@ + dec(
        (span_elapsed(s, running) / 1_000_000) as nat,
    ) + ","@ + (match s.parent_id {
        Some(p) => "\"parent_id\":\""@ + p@ + "\""@,
        None => "\"parent_id\":null"@,
    }) + ","@ + (if s.end is Some {
        "\"finished\":true"@
    } else {
        "\"finished\":false"@
    }) + ",\"attrs\":{"@ + attrs_json(attrs_view(s.attributes@)) + "}}"@
}

fn copy_attrs(a: &Vec<(String, String)>) -> (r: Vec<(String, String)>)
    ensures
        attrs_view(r@) == attrs_view(a@),
{
    let mut r: Vec<(String, String)> = Vec::new();
    let mut i: usize = 0;
    while i < a.len()
        invariant
            i <= a@.len(),
            attrs_view(r@) == attrs_view(a@.take(i as int)),
        decreases a.len() - i,
    {
        let k = string_from(a[i].0.as_str());
        let v = string_from(a[i].1.as_str());
        let ghost before = r@;
        r.push((k, v));
        assert(r@ == before.push((k, v)));
        assert(a@.take(i + 1) =~= a@.take(i as int).push(a@[i as int]));
        assert(attrs_view(r@) =~= attrs_view(before).push((k@, v@)));
        assert(attrs_view(a@.take(i + 1)) =~= attrs_view(a@.take(i as int)).push((a@[i as int].0@, a@[i as int].1@)));
        i += 1;
    }
    assert(a@.take(i as int) =~= a@);
    r
}

fn copy_parent(p: &Option<String>) -> (r: Option<String>)
    ensures
        parent_view(r) == parent_view(*p),
{
    match p {
        Some(s) => Some(string_from(s.as_str())),
        None => None,
    }
}

impl AnalysisSpan {
    /// A running span of `operation` with identifier `id`, started now.
    pub fn start(operation: &str, id: &str, parent_id: Option<String>) -> (s: Self)
        ensures
            s.id@ == id@,
            s.parent_id == parent_id,
            s.operation@ == operation@,
            s.end is None,
            s.attributes@.len() == 0,
    {
        AnalysisSpan {
            id: string_from(id),
            parent_id,
            operation: string_from(operation),
            start: instant_now(),
            end: None,
            attributes: Vec::new(),
        }
    }

    /// A copy of this span.
    pub fn copy(&self) -> (s: Self)
        ensures
            same_span(*self, s),
    {
        AnalysisSpan {
            id: string_from(self.id.as_str()),
            parent_id: copy_parent(&self.parent_id),
            operation: string_from(self.operation.as_str()),
            start: self.start,
            end: self.end,
            attributes: copy_attrs(&self.attributes),
        }
    }

    /// This span with the attribute `key = value` added last.
    pub fn with_attr(self, key: &str, value: &str) -> (s: Self)
        ensures
            attrs_view(s.attributes@) == attrs_view(self.attributes@).push((key@, value@)),
            s.id == self.id,
            s.parent_id == self.parent_id,
            s.operation == self.operation,
            s.start == self.start,
            s.end == self.end,
    {
        let mut span = self;
        span.attributes.push((string_from(key), string_from(value)));
        assert(attrs_view(span.attributes@) =~= attrs_view(self.attributes@).push((key@, value@)));
        span
    }

    /// Finishes the span now and returns its duration.
    pub fn finish(&mut self) -> (d: u64)
        ensures
            final(self).end == Some(d),
            final(self).id == old(self).id,
            final(self).parent_id == old(self).parent_id,
            final(self).operation == old(self).operation,
            final(self).start == old(self).start,
            final(self).attributes == old(self).attributes,
    {
        let d = nanos_since(&self.start);
        self.end = Some(d);
        d
    }

    /// The duration of the span, a running one having run for `running`
    /// nanoseconds.
    pub fn elapsed_at(&self, running: u64) -> (d: u64)
        ensures
            d == span_elapsed(*self, running),
    {
        match self.end {
            Some(e) => e,
            None => running,
        }
    }

    /// The duration of the span: up to its end, or, on the monotonic clock, up
    /// to now while it runs.
    pub fn elapsed(&self) -> (d: u64)
        ensures
            self.end is Some ==> d == self.end->0,
    {
        match self.end {
            Some(e) => e,
            None => nanos_since(&self.start),
        }
    }

    /// The JSON of the span, a running one having run for `running`
    /// nanoseconds.
    pub fn to_json_at(&self, running: u64) -> (s: String)
        ensures
            s@ == span_json(*self, running),
    {
        let mut out = String::new();
        push_str(&mut out, "{\"id\":\"");
        push_str(&mut out, self.id.as_str());
        push_str(&mut out, "\",\"op\":\"");
        push_str(&mut out, self.operation.as_str());
        push_str(&mut out, "\",\"dur_ms\":");
        push_u64(&mut out, self.elapsed_at(running) / 1_000_000);
        push_str(&mut out, ",");
        match &self.parent_id {
            Some(p) => {
                push_str(&mut out, "\"parent_id\":\"");
                push_str(&mut out, p.as_str());
                push_str(&mut out, "\"");
            },
            None => {
                push_str(&mut out, "\"parent_id\":null");
            },
        }
        push_str(&mut out, ",");
        if self.end.is_some() {
            push_str(&mut out, "\"finished\":true");
        } else {
            push_str(&mut out, "\"finished\":false");
        }
        push_str(&mut out, ",\"attrs\":{");
        let ghost head = out@;
        let ghost av = attrs_view(self.attributes@);
        let mut i: usize = 0;
        while i < self.attributes.len()
            invariant
                i <= self.attributes@.len(),
                av == attrs_view(self.attributes@),
                out@ == head + attrs_json(av.take(i as int)),
            decreases self.attributes.len() - i,
        {
            if i > 0 {
                push_str(&mut out, ",");
            }
            push_str(&mut out, "\"");
            push_str(&mut out, self.attributes[i].0.as_str());
            push_str(&mut out, "\":\"");
            push_str(&mut out, self.attributes[i].1.as_str());
            push_str(&mut out, "\"");
            proof {
                reveal_strlit(",");
                assert(av.take(i + 1).drop_last() =~= av.take(i as int));
                assert(av.take(i + 1)[0] == av[0]);
            }
            assert(out@ =~= head + attrs_json(av.take(i + 1)));
            i += 1;
        }
        assert(av.take(i as int) =~= av);
        push_str(&mut out, "}}");
        assert(out@ =~= span_json(*self, running));
        out
    }

    /// The JSON of the span, a running one measured up to now on the
    /// monotonic clock.
    pub fn to_json(&self) -> (s: String)
        ensures
            exists|running: u64| s@ == span_json(*self, running),
            self.end is Some ==> s@ == span_json(*self, 0),
    {
        let running = match self.end {
            Some(_) => 0,
            None => nanos_since(&self.start),
        };
        self.to_json_at(running)
    }
}

/// The sum of the durations of the finished spans in `s`.
pub open spec fn finished_total(s: Seq<AnalysisSpan>) -> nat
    decreases s.len(),
{
    if s.len() == 0 {
        0
    } else {
        finished_total(s.drop_last()) + match s.last().end {
            Some(e) => e as nat,
            None => 0,
        }
    }
}

/// The JSON of the spans in `s`, separated by commas, the running span `s[i]`
/// having run for `running[i]` nanoseconds.
pub open spec fn spans_json(s: Seq<AnalysisSpan>, running: Seq<u64>) -> Seq<char>
    decreases s.len(),
{
    if s.len() == 0 {
        Seq::empty()
    } else if s.len() == 1 {
        span_json(s[0], running[0])
    } else {
        spans_json(s.drop_last(), running.take(s.len() - 1)) + ","@ + span_json(
            s.last(),
            running[s.len() - 1],
        )
    }
}

/// `b` is `a` with the copies of `span` (same identifier and start) given the
/// end of `span`.
pub open spec fn recorded(a: Seq<AnalysisSpan>, b: Seq<AnalysisSpan>, span: AnalysisSpan) -> bool {
    &&& b.len() == a.len()
    &&& forall|i: int|
        0 <= i < a.len() ==> #[trigger] b[i] == (if a[i].id@ == span.id@ && a[i].start == span.start {
            AnalysisSpan { end: span.end, ..a[i] }
        } else {
            a[i]
        })
}

/// Spans of analysis operations.
#[derive(Debug)]
pub struct AnalysisInstrumentation {
    spans: Vec<AnalysisSpan>,
    enabled: bool,
}

impl AnalysisInstrumentation {
    /// The registered spans, in the order they were made.
    pub closed spec fn spans(&self) -> Seq<AnalysisSpan> {
        self.spans@
    }

    /// Whether finishing spans is enabled.
    pub closed spec fn is_enabled(&self) -> bool {
        self.enabled
    }

    /// No spans yet.
    pub fn new(enabled: bool) -> (r: Self)
        ensures
            r.spans().len() == 0,
            r.is_enabled() == enabled,
    {
        AnalysisInstrumentation { spans: Vec::new(), enabled }
    }

    /// Starts a span, registers a copy of it, and hands it out.
    pub fn span(&mut self, operation: &str, id: &str, parent_id: Option<String>) -> (s: AnalysisSpan)
        ensures
            s.id@ == id@,
            s.parent_id == parent_id,
            s.operation@ == operation@,
            s.end is None,
            s.attributes@.len() == 0,
            final(self).spans().len() == old(self).spans().len() + 1,
            forall|i: int| 0 <= i < old(self).spans().len() ==> #[trigger] final(self).spans()[i]
                == old(self).spans()[i],
            same_span(s, final(self).spans().last()),
            final(self).is_enabled() == old(self).is_enabled(),
    {
        let span = AnalysisSpan::start(operation, id, parent_id);
        self.spans.push(span.copy());
        span
    }

    /// When enabled, finishes `span` and marks its registered copies finished
    /// at the same time; when disabled, changes nothing.
    pub fn record(&mut self, span: &mut AnalysisSpan)
        ensures
            !old(self).is_enabled() ==> final(self).spans() == old(self).spans() && *final(span)
                == *old(span),
            old(self).is_enabled() ==> {
                &&& final(span).end is Some
                &&& final(span).id == old(span).id
                &&& final(span).start == old(span).start
                &&& final(span).operation == old(span).operation
                &&& final(span).parent_id == old(span).parent_id
                &&& final(span).attributes == old(span).attributes
                &&& recorded(old(self).spans(), final(self).spans(), *final(span))
            },
            final(self).is_enabled() == old(self).is_enabled(),
    {
        if self.enabled {
            span.finish();
            let ghost before = self.spans@;
            let mut i: usize = 0;
            while i < self.spans.len()
                invariant
                    i <= self.spans@.len(),
                    self.spans@.len() == before.len(),
                    self.enabled == old(self).enabled,
                    span.end is Some,
                    forall|j: int| i <= j < before.len() ==> #[trigger] self.spans@[j] == before[j],
                    forall|j: int| 0 <= j < i ==> #[trigger] self.spans@[j] == (if before[j].id@
                        == span.id@ && before[j].start == span.start {
                        AnalysisSpan { end: span.end, ..before[j] }
                    } else {
                        before[j]
                    }),
                decreases self.spans.len() - i,
            {
                let matches = same_instant(&self.spans[i].start, &span.start) && self.spans[i].id == span.id;
                if matches {
                    let mut s = self.spans.remove(i);
                    s.end = span.end;
                    self.spans.insert(i, s);
                }
                proof {
                    assert forall|j: int| 0 <= j < i + 1 implies #[trigger] self.spans@[j] == (if before[j].id@
                        == span.id@ && before[j].start == span.start {
                        AnalysisSpan { end: span.end, ..before[j] }
                    } else {
                        before[j]
                    }) by {}
                }
                i += 1;
            }
        }
    }

    /// The finished spans, in order.
    pub fn completed_spans(&self) -> (r: Vec<&AnalysisSpan>)
        ensures
            r@.map_values(|s: &AnalysisSpan| *s) == self.spans().filter(|s: AnalysisSpan| s.end is Some),
    {
        let mut r: Vec<&AnalysisSpan> = Vec::new();
        let mut i: usize = 0;
        while i < self.spans.len()
            invariant
                i <= self.spans@.len(),
                r@.map_values(|s: &AnalysisSpan| *s) == self.spans@.take(i as int).filter(
                    |s: AnalysisSpan| s.end is Some,
                ),
            decreases self.spans.len() - i,
        {
            let ghost before = r@;
            proof {
                reveal(Seq::filter);
                assert(self.spans@.take(i + 1).drop_last() =~= self.spans@.take(i as int));
            }
            if self.spans[i].end.is_some() {
                r.push(&self.spans[i]);
            }
            assert(r@.map_values(|s: &AnalysisSpan| *s) =~= self.spans@.take(i + 1).filter(
                |s: AnalysisSpan| s.end is Some,
            ));
            i += 1;
        }
        assert(self.spans@.take(i as int) =~= self.spans@);
        r
    }

    /// The spans of `operation`, in order.
    pub fn by_operation(&self, operation: &str) -> (r: Vec<&AnalysisSpan>)
        ensures
            r@.map_values(|s: &AnalysisSpan| *s) == self.spans().filter(
                |s: AnalysisSpan| s.operation@ == operation@,
            ),
    {
        let op = chars_of(operation);
        let mut r: Vec<&AnalysisSpan> = Vec::new();
        let mut i: usize = 0;
        while i < self.spans.len()
            invariant
                i <= self.spans@.len(),
                op@ == operation@,
                r@.map_values(|s: &AnalysisSpan| *s) == self.spans@.take(i as int).filter(
                    |s: AnalysisSpan| s.operation@ == operation@,
                ),
            decreases self.spans.len() - i,
        {
            proof {
                reveal(Seq::filter);
                assert(self.spans@.take(i + 1).drop_last() =~= self.spans@.take(i as int));
            }
            let name = chars_of(self.spans[i].operation.as_str());
            if chars_eq(&name, &op) {
                r.push(&self.spans[i]);
            }
            assert(r@.map_values(|s: &AnalysisSpan| *s) =~= self.spans@.take(i + 1).filter(
                |s: AnalysisSpan| s.operation@ == operation@,
            ));
            i += 1;
        }
        assert(self.spans@.take(i as int) =~= self.spans@);
        r
    }

    /// The sum of the durations of the finished spans.
    pub fn total_time(&self) -> (d: u128)
        ensures
            d == finished_total(self.spans()),
    {
        let mut total: u128 = 0;
        let mut i: usize = 0;
        while i < self.spans.len()
            invariant
                i <= self.spans@.len(),
                total == finished_total(self.spans@.take(i as int)),
                total <= i * 0x1_0000_0000_0000_0000,
            decreases self.spans.len() - i,
        {
            let d: u64 = match self.spans[i].end {
                Some(e) => e,
                None => 0,
            };
            assert(self.spans@.take(i + 1).drop_last() =~= self.spans@.take(i as int));
            assert((i + 1) * 0x1_0000_0000_0000_0000 <= 0x1_0000_0000_0000_0000 * 0x1_0000_0000_0000_0000) by (nonlinear_arith)
                requires i < usize::MAX;
            total = total + d as u128;
            i += 1;
        }
        assert(self.spans@.take(i as int) =~= self.spans@);
        total
    }

    /// The number of spans made.
    pub fn span_count(&self) -> (n: usize)
        ensures
            n == self.spans().len(),
    {
        self.spans.len()
    }

    /// Forgets every span.
    pub fn reset(&mut self)
        ensures
            final(self).spans().len() == 0,
            final(self).is_enabled() == old(self).is_enabled(),
    {
        self.spans = Vec::new();
    }

    /// `[..]` holding the JSON of every span, the running span `i` having run
    /// for `running[i]` nanoseconds.
    pub fn to_json_at(&self, running: &Vec<u64>) -> (s: String)
        requires
            running@.len() == self.spans().len(),
        ensures
            s@ == "["@ + spans_json(self.spans(), running@) + "]"@,
    {
        let mut out = String::new();
        push_str(&mut out, "[");
        let ghost head = out@;
        let mut i: usize = 0;
        while i < self.spans.len()
            invariant
                i <= self.spans@.len(),
                running@.len() == self.spans@.len(),
                out@ == head + spans_json(self.spans@.take(i as int), running@.take(i as int)),
            decreases self.spans.len() - i,
        {
            if i > 0 {
                push_str(&mut out, ",");
            }
            let j = self.spans[i].to_json_at(running[i]);
            push_str(&mut out, j.as_str());
            proof {
                reveal_strlit(",");
                assert(self.spans@.take(i + 1).drop_last() =~= self.spans@.take(i as int));
                assert(running@.take(i + 1).take(i as int) =~= running@.take(i as int));
                assert(self.spans@.take(i + 1)[0] == self.spans@[0]);
                assert(running@.take(i + 1)[0] == running@[0]);
                assert(running@.take(i + 1)[i as int] == running@[i as int]);
            }
            assert(out@ =~= head + spans_json(self.spans@.take(i + 1), running@.take(i + 1)));
            i += 1;
        }
        assert(self.spans@.take(i as int) =~= self.spans@);
        assert(running@.take(i as int) =~= running@);
        push_str(&mut out, "]");
        assert(out@ =~= "["@ + spans_json(self.spans@, running@) + "]"@);
        out
    }

    /// `[..]` holding the JSON of every span, each running one measured up to
    /// now on the monotonic clock.
    pub fn to_json(&self) -> (s: String)
        ensures
            exists|running: Seq<u64>|
                running.len() == self.spans().len() && s@ == "["@ + spans_json(self.spans(), running)
                    + "]"@,
    {
        let mut running: Vec<u64> = Vec::new();
        let mut i: usize = 0;
        while i < self.spans.len()
            invariant
                i <= self.spans@.len(),
                running@.len() == i,
            decreases self.spans.len() - i,
        {
            let r = match self.spans[i].end {
                Some(e) => e,
                None => nanos_since(&self.spans[i].start),
            };
            running.push(r);
            i += 1;
        }
        self.to_json_at(&running)
    }
}

/// Starts and registers the span of a percentile analysis over `data_points`
/// points: operation `percentile`, identifier `pctl-<data_points>`, no parent.
pub fn instrument_percentile(instrumentation: &mut AnalysisInstrumentation, data_points: usize) -> (s: AnalysisSpan)
    ensures
        s.operation@ == "percentile"@,
        s.id@ == "pctl-"@ + dec(data_points as nat),
        s.parent_id is None,
        s.end is None,
        final(instrumentation).spans().len() == old(instrumentation).spans().len() + 1,
        same_span(s, final(instrumentation).spans().last()),
        forall|i: int| 0 <= i < old(instrumentation).spans().len() ==> #[trigger] final(instrumentation).spans()[i]
            == old(instrumentation).spans()[i],
        final(instrumentation).is_enabled() == old(instrumentation).is_enabled(),
{
    let mut id = String::new();
    push_str(&mut id, "pctl-");
    push_u64(&mut id, data_points as u64);
    instrumentation.span("percentile", id.as_str(), None)
}

/// A number that tells spans apart: the wall clock in nanoseconds.
fn rand_id() -> u64 {
    now_nanos()
}

/// Starts and registers the span of a rolling-window analysis: operation
/// `rolling_window`, identifier `rw-<window_size>-<clock>`.
pub fn instrument_rolling_window(
    instrumentation: &mut AnalysisInstrumentation,
    window_size: usize,
    parent_id: Option<String>,
) -> (s: AnalysisSpan)
    ensures
        s.operation@ == "rolling_window"@,
        exists|n: u64| s.id@ == "rw-"@ + dec(window_size as nat) + "-"@ + dec(n as nat),
        s.parent_id == parent_id,
        s.end is None,
        final(instrumentation).spans().len() == old(instrumentation).spans().len() + 1,
        same_span(s, final(instrumentation).spans().last()),
        forall|i: int| 0 <= i < old(instrumentation).spans().len() ==> #[trigger] final(instrumentation).spans()[i]
            == old(instrumentation).spans()[i],
        final(instrumentation).is_enabled() == old(instrumentation).is_enabled(),
{
    let n = rand_id();
    let mut id = String::new();
    push_str(&mut id, "rw-");
    push_u64(&mut id, window_size as u64);
    push_str(&mut id, "-");
    push_u64(&mut id, n);
    assert(id@ == "rw-"@ + dec(window_size as nat) + "-"@ + dec(n as nat));
    instrumentation.span("rolling_window", id.as_str(), parent_id)
}

/// Starts and registers the span of a spike classification over
/// `total_points` points: operation `spike_classifier`, identifier
/// `spike-<total_points>-<clock>`, attribute `total_points`. The registered
/// copy is taken before the attribute is added.
pub fn instrument_spike_classifier(
    instrumentation: &mut AnalysisInstrumentation,
    total_points: usize,
    parent_id: Option<String>,
) -> (s: AnalysisSpan)
    ensures
        s.operation@ == "spike_classifier"@,
        exists|n: u64| s.id@ == "spike-"@ + dec(total_points as nat) + "-"@ + dec(n as nat),
        s.parent_id == parent_id,
        s.end is None,
        attrs_view(s.attributes@) == seq![("total_points"@, dec(total_points as nat))],
        final(instrumentation).spans().len() == old(instrumentation).spans().len() + 1,
        final(instrumentation).spans().last().id@ == s.id@,
        final(instrumentation).spans().last().operation@ == "spike_classifier"@,
        parent_view(final(instrumentation).spans().last().parent_id) == parent_view(parent_id),
        final(instrumentation).spans().last().start == s.start,
        final(instrumentation).spans().last().end is None,
        final(instrumentation).spans().last().attributes@.len() == 0,
        forall|i: int| 0 <= i < old(instrumentation).spans().len() ==> #[trigger] final(instrumentation).spans()[i]
            == old(instrumentation).spans()[i],
        final(instrumentation).is_enabled() == old(instrumentation).is_enabled(),
{
    let n = rand_id();
    let mut id = String::new();
    push_str(&mut id, "spike-");
    push_u64(&mut id, total_points as u64);
    push_str(&mut id, "-");
    push_u64(&mut id, n);
    assert(id@ == "spike-"@ + dec(total_points as nat) + "-"@ + dec(n as nat));
    let span = instrumentation.span("spike_classifier", id.as_str(), parent_id);
    let mut count = String::new();
    push_u64(&mut count, total_points as u64);
    let span = span.with_attr("total_points", count.as_str());
    assert(attrs_view(span.attributes@) =~= seq![("total_points"@, dec(total_points as nat))]);
    span
}

} // verus!
