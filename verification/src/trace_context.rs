use vstd::prelude::*;
use crate::clock::now_nanos;
use crate::execution_timer::sat_sub;
use crate::str_map::{StrMap, has_key, key_index, lookup, sorted_keys, lemma_lookup_at, lemma_sorted_unique};
use crate::text::{
    chars_of, chars_eq, push_str, string_of, string_from, hex, zero_pad, hex_padded, digit_char,
    split_on, split_chars, sub_chars, starts_with, starts_with_chars, lemma_split_on_piece,
    lemma_split_on_whole,
};

verus! {

/// A trace identifier.
#[derive(Debug, Clone, PartialEq, Eq, Hash)]
pub struct TraceId(pub String);

/// A span identifier within a trace.
#[derive(Debug, Clone, PartialEq, Eq, Hash)]
pub struct SpanId(pub String);

/// Context carried across module boundaries during a trace.
#[derive(Debug)]
pub struct TraceContext {
    /// The trace this context belongs to.
    pub trace_id: TraceId,
    /// The current span.
    pub span_id: SpanId,
    /// The parent span (empty for a root span).
    pub parent_span_id: SpanId,
    /// Key-value baggage carried along.
    pub baggage: StrMap<String>,
    /// When the trace started, in nanoseconds since the Unix epoch.
    pub start_ns: u64,
}

/// A generated identifier: 32 lower-case hexadecimal digits.
pub open spec fn is_generated_id(s: Seq<char>) -> bool {
    exists|n: u64| s == zero_pad(hex(n as nat), 32)
}

/// No `'-'` in `s`.
pub open spec fn no_dash(s: Seq<char>) -> bool {
    forall|k: int| 0 <= k < s.len() ==> s[k] != '-'
}

/// The W3C `traceparent` header of a trace and a span.
pub open spec fn traceparent_text(trace: Seq<char>, span: Seq<char>) -> Seq<char> {
    "00-"@ + trace + "-"@ + span + "-01"@
}

/// The trace and span that a `traceparent` header names: the second and third
/// `'-'`-separated fields, when there are at least four and the first is `00`.
pub open spec fn parsed_ids(header: Seq<char>) -> Option<(Seq<char>, Seq<char>)> {
    let parts = split_on(header, '-');
    if parts.len() < 4 || parts[0] != "00"@ {
        None
    } else {
        Some((parts[1], parts[2]))
    }
}

/// The carrier key under which the baggage item `k` travels.
pub open spec fn baggage_key(k: Seq<char>) -> Seq<char> {
    "baggage-"@ + k
}

/// `q` is the carrier key of an item of the baggage `b`.
pub open spec fn is_baggage_of(b: Seq<(Seq<char>, String)>, q: Seq<char>) -> bool {
    starts_with(q, "baggage-"@) && has_key(b, q.skip(8))
}

/// The carrier `after` is `before` with the context `ctx` injected: its
/// `traceparent` header and each baggage item under its carrier key; every
/// other key keeps its value.
pub open spec fn injected(
    before: Seq<(Seq<char>, String)>,
    after: Seq<(Seq<char>, String)>,
    ctx: TraceContext,
) -> bool {
    &&& lookup(after, "traceparent"@) matches Some(v) && v@ == traceparent_text(
        ctx.trace_id.0@,
        ctx.span_id.0@,
    )
    &&& forall|k: Seq<char>| #[trigger]
        has_key(ctx.baggage@, k) ==> lookup(after, baggage_key(k)) == lookup(ctx.baggage@, k)
    &&& forall|q: Seq<char>|
        q != "traceparent"@ && !is_baggage_of(ctx.baggage@, q) ==> #[trigger] lookup(after, q)
            == lookup(before, q)
}

/// What extracting a context from the carrier `c` gives: nothing without a
/// `traceparent` header that parses; else a context with the trace and span it
/// names, no parent, and as baggage every carrier item whose key starts with
/// `baggage-`, under the rest of its key.
pub open spec fn extracted(c: Seq<(Seq<char>, String)>, r: Option<TraceContext>) -> bool {
    match lookup(c, "traceparent"@) {
        None => r is None,
        Some(h) => match parsed_ids(h@) {
            None => r is None,
            Some(ids) => r matches Some(x) && x.trace_id.0@ == ids.0 && x.span_id.0@ == ids.1
                && x.parent_span_id.0@ == Seq::<char>::empty() && forall|q: Seq<char>| #[trigger]
                lookup(x.baggage@, q) == lookup(c, baggage_key(q)),
        },
    }
}

/// A `RandomState` made by `RandomState::new`, whose hashing keys differ
/// from one instance to the next. Nothing is stated of it.
#[verifier::external_body]
fn new_random_state() -> std::collections::hash_map::RandomState {
    std::collections::hash_map::RandomState::new()
}

/// The hash of the byte zero under the keys of `state`
/// (`BuildHasher::hash_one`). Nothing is stated of the value: it depends on the
/// keys that the state drew.
#[verifier::external_body]
fn hash_of_zero(state: &std::collections::hash_map::RandomState) -> u64 {
    std::hash::BuildHasher::hash_one(state, 0u8)
}

/// A fresh pseudo-random number: the hash of zero under newly drawn keys.
fn random_u64() -> u64 {
    let state = new_random_state();
    hash_of_zero(&state)
}

proof fn lemma_hex_no_dash(n: nat)
    ensures
        no_dash(hex(n)),
    decreases n,
{
    if n >= 16 {
        lemma_hex_no_dash(n / 16);
        let h = hex(n);
        assert forall|k: int| 0 <= k < h.len() implies h[k] != '-' by {
            if k < h.len() - 1 {
                assert(h[k] == hex(n / 16)[k]);
            }
        }
    }
}

/// A generated identifier holds no `'-'`.
pub proof fn law_generated_id_no_dash(s: Seq<char>)
    requires
        is_generated_id(s),
    ensures
        no_dash(s),
{
    let n = choose|n: u64| s == zero_pad(hex(n as nat), 32);
    lemma_hex_no_dash(n as nat);
    let h = hex(n as nat);
    if h.len() < 32 {
        assert forall|k: int| 0 <= k < s.len() implies s[k] != '-' by {
            if k >= 32 - h.len() {
                assert(s[k] == h[k - (32 - h.len())]);
            }
        }
    }
}

fn generate_id() -> (s: String)
    ensures
        is_generated_id(s@),
{
    let n = random_u64();
    let v = hex_padded(n, 32);
    let s = string_of(&v);
    assert(s@ == zero_pad(hex(n as nat), 32));
    s
}

proof fn lemma_generated_last(n: nat)
    ensures
        zero_pad(hex(n), 32).len() >= 1,
        zero_pad(hex(n), 32).last() == digit_char(n % 16),
{
    let h = hex(n);
    assert(h.len() >= 1 && h.last() == digit_char(n % 16));
    if h.len() < 32 {
        let p = zero_pad(h, 32);
        assert(p.last() == h.last());
    }
}

/// A generated identifier that differs from `avoid`: should the drawn number
/// give `avoid`, its neighbour, whose last hexadecimal digit differs, is taken.
fn generate_id_other_than(avoid: &str) -> (s: String)
    ensures
        is_generated_id(s@),
        s@ != avoid@,
{
    let n = random_u64();
    let v = hex_padded(n, 32);
    if chars_eq(&v, &chars_of(avoid)) {
        let m = if n % 16 == 15 { n - 1 } else { n + 1 };
        let w = hex_padded(m, 32);
        proof {
            lemma_generated_last(n as nat);
            lemma_generated_last(m as nat);
            assert((m as nat) % 16 != (n as nat) % 16);
            assert(digit_char((m as nat) % 16) != digit_char((n as nat) % 16));
        }
        string_of(&w)
    } else {
        string_of(&v)
    }
}

/// The parsed `traceparent` of a trace and span is that trace and span, when
/// neither holds a `'-'`.
pub proof fn law_traceparent_round_trip(trace: Seq<char>, span: Seq<char>)
    requires
        no_dash(trace),
        no_dash(span),
    ensures
        parsed_ids(traceparent_text(trace, span)) == Some((trace, span)),
{
    let zz: Seq<char> = seq!['0', '0'];
    let one: Seq<char> = seq!['0', '1'];
    assert("00-"@ =~= zz + seq!['-']) by {
        reveal_strlit("00-");
    }
    assert("-"@ =~= seq!['-']) by {
        reveal_strlit("-");
    }
    assert("-01"@ =~= seq!['-'] + one) by {
        reveal_strlit("-01");
    }
    assert("00"@ =~= zz) by {
        reveal_strlit("00");
    }
    let h = traceparent_text(trace, span);
    let rest1 = trace + seq!['-'] + (span + seq!['-'] + one);
    assert(h =~= zz + seq!['-'] + rest1);
    lemma_split_on_piece(zz, rest1, '-');
    let rest2 = span + seq!['-'] + one;
    lemma_split_on_piece(trace, rest2, '-');
    lemma_split_on_piece(span, one, '-');
    lemma_split_on_whole(one, '-');
    let parts = split_on(h, '-');
    assert(parts =~= seq![zz, trace, span, one]);
}

/// Injecting a context into an empty carrier and extracting it again gives
/// back its trace, its span and its baggage, when the identifiers hold no `'-'`.
pub proof fn law_propagation_round_trip(
    ctx: TraceContext,
    carrier: Seq<(Seq<char>, String)>,
    r: Option<TraceContext>,
)
    requires
        no_dash(ctx.trace_id.0@),
        no_dash(ctx.span_id.0@),
        injected(Seq::empty(), carrier, ctx),
        extracted(carrier, r),
    ensures
        r matches Some(x) && x.trace_id.0@ == ctx.trace_id.0@ && x.span_id.0@ == ctx.span_id.0@
            && forall|q: Seq<char>| #[trigger] lookup(x.baggage@, q) == lookup(ctx.baggage@, q),
{
    law_traceparent_round_trip(ctx.trace_id.0@, ctx.span_id.0@);
    let x = r.unwrap();
    assert forall|q: Seq<char>| #[trigger] lookup(x.baggage@, q) == lookup(ctx.baggage@, q) by {
        let bq = baggage_key(q);
        assert(bq.skip(8) =~= q) by {
            reveal_strlit("baggage-");
        }
        assert(bq[0] == 'b') by {
            reveal_strlit("baggage-");
        }
        assert("traceparent"@[0] == 't') by {
            reveal_strlit("traceparent");
        }
        assert(bq != "traceparent"@);
        if !has_key(ctx.baggage@, q) {
            assert(!is_baggage_of(ctx.baggage@, bq));
            assert(lookup(carrier, bq) == lookup(Seq::<(Seq<char>, String)>::empty(), bq));
            assert(!has_key(Seq::<(Seq<char>, String)>::empty(), bq));
        }
    }
}

proof fn lemma_key_texts()
    ensures
        "baggage-"@ =~= seq!['b', 'a', 'g', 'g', 'a', 'g', 'e', '-'],
        "traceparent"@ =~= seq!['t', 'r', 'a', 'c', 'e', 'p', 'a', 'r', 'e', 'n', 't'],
{
    reveal_strlit("baggage-");
    reveal_strlit("traceparent");
}

/// In entries with increasing keys, the last entry is found under its key and
/// every other key finds what it found before that entry.
proof fn lemma_lookup_push<V>(e: Seq<(Seq<char>, V)>, x: (Seq<char>, V), k: Seq<char>)
    requires
        sorted_keys(e.push(x)),
    ensures
        lookup(e.push(x), k) == (if k == x.0 { Some(x.1) } else { lookup(e, k) }),
{
    let f = e.push(x);
    assert(sorted_keys(e)) by {
        assert forall|i: int, j: int| 0 <= i < j < e.len() implies crate::str_map::str_lt(
            #[trigger] e[i].0,
            #[trigger] e[j].0,
        ) by {
            assert(e[i] == f[i] && e[j] == f[j]);
        }
    }
    if k == x.0 {
        lemma_lookup_at(f, e.len() as int);
        assert(f[e.len() as int] == x);
    } else {
        if has_key(e, k) {
            let a = key_index(e, k);
            lemma_lookup_at(e, a);
            assert(f[a] == e[a]);
            lemma_lookup_at(f, a);
        }
        if has_key(f, k) {
            let b = key_index(f, k);
            assert(b != e.len());
            assert(f[b] == e[b]);
            lemma_lookup_at(e, b);
        }
    }
}

impl TraceContext {
    /// A copy of this context.
    pub fn copy(&self) -> (r: Self)
        ensures
            r.trace_id.0@ == self.trace_id.0@,
            r.span_id.0@ == self.span_id.0@,
            r.parent_span_id.0@ == self.parent_span_id.0@,
            r.baggage@ == self.baggage@,
            r.start_ns == self.start_ns,
    {
        TraceContext {
            trace_id: TraceId(string_from(self.trace_id.0.as_str())),
            span_id: SpanId(string_from(self.span_id.0.as_str())),
            parent_span_id: SpanId(string_from(self.parent_span_id.0.as_str())),
            baggage: self.baggage.copy(),
            start_ns: self.start_ns,
        }
    }

    /// A new root context: a fresh identifier serves as both trace and span,
    /// with no parent and no baggage, started now.
    pub fn new_root() -> (r: Self)
        ensures
            is_generated_id(r.trace_id.0@),
            r.span_id.0@ == r.trace_id.0@,
            r.parent_span_id.0@ == Seq::<char>::empty(),
            r.baggage@ == Seq::<(Seq<char>, String)>::empty(),
    {
        let id = generate_id();
        TraceContext {
            trace_id: TraceId(string_from(id.as_str())),
            span_id: SpanId(id),
            parent_span_id: SpanId(String::new()),
            baggage: StrMap::new(),
            start_ns: now_nanos(),
        }
    }

    /// A child span of this context: same trace and baggage, a fresh span,
    /// other than this context's, whose parent is this context's span, started
    /// now.
    pub fn child_span(&self) -> (r: Self)
        ensures
            r.trace_id.0@ == self.trace_id.0@,
            is_generated_id(r.span_id.0@),
            r.span_id.0@ != self.span_id.0@,
            r.parent_span_id.0@ == self.span_id.0@,
            r.baggage@ == self.baggage@,
    {
        let child_id = generate_id_other_than(self.span_id.0.as_str());
        TraceContext {
            trace_id: TraceId(string_from(self.trace_id.0.as_str())),
            span_id: SpanId(child_id),
            parent_span_id: SpanId(string_from(self.span_id.0.as_str())),
            baggage: self.baggage.copy(),
            start_ns: now_nanos(),
        }
    }

    /// This context with `value` stored in the baggage under `key`.
    pub fn with_baggage(self, key: &str, value: &str) -> (r: Self)
        ensures
            lookup(r.baggage@, key@) matches Some(v) && v@ == value@,
            forall|k: Seq<char>| k != key@ ==> #[trigger] lookup(r.baggage@, k) == lookup(
                self.baggage@,
                k,
            ),
            r.trace_id == self.trace_id,
            r.span_id == self.span_id,
            r.parent_span_id == self.parent_span_id,
            r.start_ns == self.start_ns,
    {
        let mut ctx = self;
        ctx.baggage.insert(string_from(key), string_from(value));
        ctx
    }

    /// The baggage value stored under `key`, if any.
    pub fn baggage(&self, key: &str) -> (r: Option<&str>)
        ensures
            match lookup(self.baggage@, key@) {
                Some(v) => r matches Some(s) && s@ == v@,
                None => r is None,
            },
    {
        match self.baggage.get(key) {
            Some(v) => Some(v.as_str()),
            None => None,
        }
    }

    /// Whole milliseconds since the start when the clock reads `now`.
    pub fn elapsed_ms_at(&self, now: u64) -> (ms: u64)
        ensures
            ms == sat_sub(now, self.start_ns) / 1_000_000,
    {
        let d = if now >= self.start_ns { now - self.start_ns } else { 0 };
        d / 1_000_000
    }

    /// Whole milliseconds since the start.
    pub fn elapsed_ms(&self) -> (ms: u64)
        ensures
            exists|now: u64| ms == sat_sub(now, self.start_ns) / 1_000_000,
    {
        let now = now_nanos();
        self.elapsed_ms_at(now)
    }

    /// The W3C `traceparent` header: `00-<trace>-<span>-01`.
    pub fn to_traceparent(&self) -> (s: String)
        ensures
            s@ == traceparent_text(self.trace_id.0@, self.span_id.0@),
    {
        let mut out = String::new();
        push_str(&mut out, "00-");
        push_str(&mut out, self.trace_id.0.as_str());
        push_str(&mut out, "-");
        push_str(&mut out, self.span_id.0.as_str());
        push_str(&mut out, "-01");
        assert(out@ =~= traceparent_text(self.trace_id.0@, self.span_id.0@));
        out
    }

    /// The context a `traceparent` header names, with no parent and no
    /// baggage, started now; `None` when the header does not parse.
    pub fn from_traceparent(header: &str) -> (r: Option<Self>)
        ensures
            match parsed_ids(header@) {
                None => r is None,
                Some(ids) => r matches Some(x) && x.trace_id.0@ == ids.0 && x.span_id.0@ == ids.1
                    && x.parent_span_id.0@ == Seq::<char>::empty() && x.baggage@ == Seq::<
                    (Seq<char>, String),
                >::empty(),
            },
    {
        let h = chars_of(header);
        let parts = split_chars(&h, '-');
        if parts.len() < 4 {
            return None;
        }
        let zz: Vec<char> = vec!['0', '0'];
        proof {
            reveal_strlit("00");
            assert(zz@ =~= "00"@);
        }
        if !chars_eq(&parts[0], &zz) {
            return None;
        }
        Some(
            TraceContext {
                trace_id: TraceId(string_of(&parts[1])),
                span_id: SpanId(string_of(&parts[2])),
                parent_span_id: SpanId(String::new()),
                baggage: StrMap::new(),
                start_ns: now_nanos(),
            },
        )
    }
}

/// The current trace context of a scope, and a count of the spans started.
#[derive(Debug)]
pub struct TraceRegistry {
    current: Option<TraceContext>,
    spans_created: u64,
}

/// `b` has the same trace, span, parent, baggage and start as `a`.
pub open spec fn same_context(a: TraceContext, b: TraceContext) -> bool {
    &&& b.trace_id.0@ == a.trace_id.0@
    &&& b.span_id.0@ == a.span_id.0@
    &&& b.parent_span_id.0@ == a.parent_span_id.0@
    &&& b.baggage@ == a.baggage@
    &&& b.start_ns == a.start_ns
}

impl TraceRegistry {
    /// The current context, if one is set.
    pub closed spec fn current(&self) -> Option<TraceContext> {
        self.current
    }

    /// The number of spans started, modulo 2^64.
    pub closed spec fn spans(&self) -> u64 {
        self.spans_created
    }

    /// A registry with no current context and no span started.
    pub fn new() -> (r: Self)
        ensures
            r.current() is None,
            r.spans() == 0,
    {
        TraceRegistry { current: None, spans_created: 0 }
    }

    /// Makes `ctx` the current context.
    pub fn set(&mut self, ctx: TraceContext)
        ensures
            final(self).current() == Some(ctx),
            final(self).spans() == old(self).spans(),
    {
        self.current = Some(ctx);
    }

    /// A copy of the current context; when none is set, a new root context
    /// becomes the current one first.
    pub fn get(&mut self) -> (r: TraceContext)
        ensures
            final(self).spans() == old(self).spans(),
            final(self).current() matches Some(c) && same_context(c, r),
            old(self).current() is Some ==> final(self).current() == old(self).current(),
            old(self).current() is None ==> {
                &&& is_generated_id(r.trace_id.0@)
                &&& r.span_id.0@ == r.trace_id.0@
                &&& r.parent_span_id.0@ == Seq::<char>::empty()
                &&& r.baggage@ == Seq::<(Seq<char>, String)>::empty()
            },
    {
        match &self.current {
            Some(c) => c.copy(),
            None => {
                let root = TraceContext::new_root();
                let r = root.copy();
                self.current = Some(root);
                r
            },
        }
    }

    /// Starts a child span of the current context (made a new root first when
    /// none is set) and counts it.
    pub fn start_span(&mut self) -> (r: TraceContext)
        ensures
            final(self).spans() == old(self).spans().wrapping_add(1),
            final(self).current() matches Some(c) && r.trace_id.0@ == c.trace_id.0@
                && r.parent_span_id.0@ == c.span_id.0@ && r.baggage@ == c.baggage@,
            is_generated_id(r.span_id.0@),
            old(self).current() is Some ==> final(self).current() == old(self).current(),
    {
        let cur = self.get();
        let child = cur.child_span();
        self.spans_created = self.spans_created.wrapping_add(1);
        child
    }

    /// Drops the current context.
    pub fn clear(&mut self)
        ensures
            final(self).current() is None,
            final(self).spans() == old(self).spans(),
    {
        self.current = None;
    }

    /// The number of spans started, modulo 2^64.
    pub fn span_count(&self) -> (n: u64)
        ensures
            n == self.spans(),
    {
        self.spans_created
    }
}

/// Moves a trace context between two modules through a carrier map.
pub trait Propagator {
    /// Puts the context into the carrier.
    fn inject(&self, ctx: &TraceContext, carrier: &mut StrMap<String>);

    /// Takes a context out of the carrier.
    fn extract(&self, carrier: &StrMap<String>) -> Option<TraceContext>;
}

/// A propagator that uses the W3C `traceparent` header, and one `baggage-`
/// key per baggage item.
#[derive(Debug, Clone, Copy)]
pub struct W3CPropagator;

impl Propagator for W3CPropagator {
    fn inject(&self, ctx: &TraceContext, carrier: &mut StrMap<String>)
        ensures
            injected(old(carrier)@, final(carrier)@, *ctx),
    {
        proof {
            use_type_invariant(&ctx.baggage);
            use_type_invariant(&*carrier);
            lemma_key_texts();
        }
        let ghost c0 = carrier@;
        let ghost bag = ctx.baggage@;
        let tp = ctx.to_traceparent();
        let ghost tpv = tp;
        carrier.insert(string_from("traceparent"), tp);
        let n = ctx.baggage.len();
        let mut i: usize = 0;
        while i < n
            invariant
                n == bag.len(),
                bag == ctx.baggage@,
                sorted_keys(bag),
                i <= n,
                lookup(carrier@, "traceparent"@) == Some(tpv),
                tpv@ == traceparent_text(ctx.trace_id.0@, ctx.span_id.0@),
                forall|j: int| 0 <= j < i ==> #[trigger] lookup(carrier@, baggage_key(bag[j].0)) == Some(
                    bag[j].1,
                ),
                forall|q: Seq<char>|
                    q != "traceparent"@ && !(exists|j: int| 0 <= j < i && q == baggage_key(
                        #[trigger] bag[j].0,
                    )) ==> #[trigger] lookup(carrier@, q) == lookup(c0, q),
            decreases n - i,
        {
            proof {
                lemma_key_texts();
            }
            let mut key = String::new();
            push_str(&mut key, "baggage-");
            push_str(&mut key, ctx.baggage.key_at(i).as_str());
            let value = ctx.baggage.value_at(i).clone();
            let ghost bk = key@;
            assert(bk == baggage_key(bag[i as int].0));
            assert(bk[0] == 'b');
            assert("traceparent"@[0] == 't');
            assert(bk != "traceparent"@);
            let ghost before = carrier@;
            carrier.insert(key, value);
            proof {
                assert forall|j: int| 0 <= j < i + 1 implies #[trigger] lookup(
                    carrier@,
                    baggage_key(bag[j].0),
                ) == Some(bag[j].1) by {
                    if j < i {
                        if baggage_key(bag[j].0) == bk {
                            assert(baggage_key(bag[j].0).skip(8) =~= bag[j].0);
                            assert(bk.skip(8) =~= bag[i as int].0);
                            lemma_sorted_unique(bag, j, i as int);
                        }
                    }
                }
                assert forall|q: Seq<char>|
                    q != "traceparent"@ && !(exists|j: int| 0 <= j < i + 1 && q == baggage_key(
                        #[trigger] bag[j].0,
                    )) implies #[trigger] lookup(carrier@, q) == lookup(c0, q) by {
                    assert(q != bk);
                    assert(!(exists|j: int| 0 <= j < i && q == baggage_key(#[trigger] bag[j].0)));
                }
            }
            i += 1;
        }
        proof {
            assert forall|k: Seq<char>| #[trigger]
                has_key(bag, k) implies lookup(carrier@, baggage_key(k)) == lookup(bag, k) by {
                let j = key_index(bag, k);
                lemma_lookup_at(bag, j);
            }
            assert forall|q: Seq<char>|
                q != "traceparent"@ && !is_baggage_of(bag, q) implies #[trigger] lookup(carrier@, q)
                == lookup(c0, q) by {
                if exists|j: int| 0 <= j < n && q == baggage_key(#[trigger] bag[j].0) {
                    let j = choose|j: int| 0 <= j < n && q == baggage_key(#[trigger] bag[j].0);
                    assert(q.skip(8) =~= bag[j].0);
                    assert(starts_with(q, "baggage-"@)) by {
                        assert(q.take(8) =~= "baggage-"@);
                    }
                    assert(has_key(bag, q.skip(8)));
                }
            }
        }
    }

    fn extract(&self, carrier: &StrMap<String>) -> (r: Option<TraceContext>)
        ensures
            extracted(carrier@, r),
    {
        proof {
            use_type_invariant(carrier);
            lemma_key_texts();
        }
        let header = match carrier.get("traceparent") {
            Some(h) => h,
            None => {
                return None;
            },
        };
        let mut ctx = match TraceContext::from_traceparent(header.as_str()) {
            Some(c) => c,
            None => {
                return None;
            },
        };
        let ghost c = carrier@;
        let prefix = chars_of("baggage-");
        let n = carrier.len();
        let mut i: usize = 0;
        assert(c.take(0) =~= Seq::<(Seq<char>, String)>::empty());
        while i < n
            invariant
                n == c.len(),
                c == carrier@,
                sorted_keys(c),
                i <= n,
                prefix@ == "baggage-"@,
                forall|q: Seq<char>| #[trigger] lookup(ctx.baggage@, q) == lookup(
                    c.take(i as int),
                    baggage_key(q),
                ),
                ctx.trace_id.0@ == parsed_ids(lookup(c, "traceparent"@).unwrap()@).unwrap().0,
                ctx.span_id.0@ == parsed_ids(lookup(c, "traceparent"@).unwrap()@).unwrap().1,
                ctx.parent_span_id.0@ == Seq::<char>::empty(),
            decreases n - i,
        {
            let key = chars_of(carrier.key_at(i).as_str());
            let ghost entry = c[i as int];
            proof {
                lemma_key_texts();
                assert(sorted_keys(c.take(i + 1))) by {
                    assert forall|a: int, b: int| 0 <= a < b < c.take(i + 1).len() implies crate::str_map::str_lt(
                        #[trigger] c.take(i + 1)[a].0,
                        #[trigger] c.take(i + 1)[b].0,
                    ) by {
                        assert(c.take(i + 1)[a] == c[a] && c.take(i + 1)[b] == c[b]);
                    }
                }
                assert(c.take(i + 1) =~= c.take(i as int).push(entry));
            }
            if starts_with_chars(&key, &prefix) {
                let rest = sub_chars(&key, 8, key.len());
                let value = carrier.value_at(i).clone();
                let ghost before = ctx.baggage@;
                ctx.baggage.insert(string_of(&rest), value);
                proof {
                    assert(baggage_key(rest@) =~= entry.0) by {
                        assert(key@.take(8) =~= "baggage-"@);
                    }
                    assert forall|q: Seq<char>| #[trigger] lookup(ctx.baggage@, q) == lookup(
                        c.take(i + 1),
                        baggage_key(q),
                    ) by {
                        lemma_lookup_push(c.take(i as int), entry, baggage_key(q));
                        if q != rest@ {
                            if baggage_key(q) == entry.0 {
                                assert(baggage_key(q).skip(8) =~= q);
                                assert(baggage_key(rest@).skip(8) =~= rest@);
                            }
                        }
                    }
                }
            } else {
                proof {
                    assert forall|q: Seq<char>| #[trigger] lookup(ctx.baggage@, q) == lookup(
                        c.take(i + 1),
                        baggage_key(q),
                    ) by {
                        lemma_lookup_push(c.take(i as int), entry, baggage_key(q));
                        if baggage_key(q) == entry.0 {
                            assert(starts_with(key@, prefix@)) by {
                                assert(key@.take(8) =~= baggage_key(q).take(8));
                                assert(baggage_key(q).take(8) =~= "baggage-"@);
                            }
                        }
                    }
                }
            }
            i += 1;
        }
        assert(c.take(n as int) =~= c);
        Some(ctx)
    }
}

} // verus!
