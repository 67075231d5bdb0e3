use vstd::prelude::*;
use crate::clock::now_secs;
use crate::sort::{sort_desc, sort_desc_by_key, lemma_sort_desc_len, lemma_sort_desc_deref};
use crate::str_map::{StrMap, has_key, key_index, lookup, sorted_keys, lemma_lookup_at};
use crate::text::{
    chars_of, chars_eq, fold, fold_chars, push_str, push_u64, push_char, string_from, dec,
};

verus! {

/// Severity of an error event.
#[derive(Debug, Clone, Copy, PartialEq, Eq, Structural)]
pub enum ErrorSeverity {
    Debug,
    Warning,
    Error,
    Critical,
}

/// The lower-case name of a severity.
pub open spec fn severity_name(s: ErrorSeverity) -> Seq<char> {
    match s {
        ErrorSeverity::Debug => "debug"@,
        ErrorSeverity::Warning => "warning"@,
        ErrorSeverity::Error => "error"@,
        ErrorSeverity::Critical => "critical"@,
    }
}

/// The severity named by a lower-cased text, if any.
pub open spec fn severity_from_text(t: Seq<char>) -> Option<ErrorSeverity> {
    if t == "debug"@ {
        Some(ErrorSeverity::Debug)
    } else if t == "warning"@ {
        Some(ErrorSeverity::Warning)
    } else if t == "error"@ {
        Some(ErrorSeverity::Error)
    } else if t == "critical"@ {
        Some(ErrorSeverity::Critical)
    } else {
        None
    }
}

/// A severity's name parses back to that severity.
pub proof fn law_severity_round_trip(s: ErrorSeverity)
    ensures
        severity_from_text(fold(severity_name(s))) == Some(s),
{
    reveal_strlit("debug");
    reveal_strlit("warning");
    reveal_strlit("error");
    reveal_strlit("critical");
    assert(fold("debug"@) =~= "debug"@);
    assert(fold("warning"@) =~= "warning"@);
    assert(fold("error"@) =~= "error"@);
    assert(fold("critical"@) =~= "critical"@);
    assert("debug"@ != "error"@) by {
        assert("debug"@[0] != "error"@[0]);
    }
}

impl ErrorSeverity {
    pub fn as_str(&self) -> (r: &'static str)
        ensures
            r@ == severity_name(*self),
    {
        match self {
            ErrorSeverity::Debug => "debug",
            ErrorSeverity::Warning => "warning",
            ErrorSeverity::Error => "error",
            ErrorSeverity::Critical => "critical",
        }
    }

    /// Parses a severity name, ignoring case.
    pub fn from_str(s: &str) -> (r: Option<Self>)
        ensures
            r == severity_from_text(fold(s@)),
    {
        let t = fold_chars(&chars_of(s));
        if chars_eq(&t, &chars_of("debug")) {
            Some(ErrorSeverity::Debug)
        } else if chars_eq(&t, &chars_of("warning")) {
            Some(ErrorSeverity::Warning)
        } else if chars_eq(&t, &chars_of("error")) {
            Some(ErrorSeverity::Error)
        } else if chars_eq(&t, &chars_of("critical")) {
            Some(ErrorSeverity::Critical)
        } else {
            None
        }
    }
}

/// A single tracked error event.
#[derive(Debug)]
pub struct ErrorEvent {
    /// Unique error code.
    pub code: String,
    /// Human-readable message.
    pub message: String,
    /// Module where the error occurred.
    pub module: String,
    /// Severity level.
    pub severity: ErrorSeverity,
    /// Unix timestamp (seconds).
    pub timestamp: u64,
    /// Number of times this error has been seen.
    pub count: u64,
}

/// Entries of an error table: code, then the event recorded under it.
pub type ErrorEntries = Seq<(Seq<char>, ErrorEvent)>;

/// The sum of the per-code counts.
pub open spec fn count_sum(e: ErrorEntries) -> int
    decreases e.len(),
{
    if e.len() == 0 {
        0
    } else {
        count_sum(e.drop_last()) + e.last().1.count
    }
}

proof fn lemma_count_sum_update(e: ErrorEntries, i: int, x: (Seq<char>, ErrorEvent))
    requires
        0 <= i < e.len(),
    ensures
        count_sum(e.update(i, x)) == count_sum(e) - e[i].1.count + x.1.count,
    decreases e.len(),
{
    if i < e.len() - 1 {
        lemma_count_sum_update(e.drop_last(), i, x);
        assert(e.update(i, x).drop_last() =~= e.drop_last().update(i, x));
    } else {
        assert(e.update(i, x).drop_last() =~= e.drop_last());
    }
}

proof fn lemma_count_sum_insert(e: ErrorEntries, i: int, x: (Seq<char>, ErrorEvent))
    requires
        0 <= i <= e.len(),
    ensures
        count_sum(e.insert(i, x)) == count_sum(e) + x.1.count,
    decreases e.len(),
{
    if i < e.len() {
        lemma_count_sum_insert(e.drop_last(), i, x);
        assert(e.insert(i, x).drop_last() =~= e.drop_last().insert(i, x));
    } else {
        assert(e.insert(i, x).drop_last() =~= e);
    }
}

proof fn lemma_count_le_sum(e: ErrorEntries, i: int)
    requires
        0 <= i < e.len(),
    ensures
        e[i].1.count <= count_sum(e),
    decreases e.len(),
{
    lemma_count_sum_nonneg(e.drop_last());
    if i < e.len() - 1 {
        lemma_count_le_sum(e.drop_last(), i);
    }
}

proof fn lemma_count_sum_nonneg(e: ErrorEntries)
    ensures
        count_sum(e) >= 0,
    decreases e.len(),
{
    if e.len() > 0 {
        lemma_count_sum_nonneg(e.drop_last());
    }
}

/// `ev` is a newly recorded event for these arguments, seen once.
pub open spec fn fresh_event(
    ev: ErrorEvent,
    code: Seq<char>,
    message: Seq<char>,
    module: Seq<char>,
    severity: ErrorSeverity,
) -> bool {
    &&& ev.code@ == code
    &&& ev.message@ == message
    &&& ev.module@ == module
    &&& ev.severity == severity
    &&& ev.count == 1
}

/// `new` is `old` seen once more: same code, message, module and severity.
pub open spec fn repeated_event(new: ErrorEvent, old: ErrorEvent) -> bool {
    &&& new.code@ == old.code@
    &&& new.message@ == old.message@
    &&& new.module@ == old.module@
    &&& new.severity == old.severity
    &&& new.count == old.count + 1
}

/// The events of entries, in key order.
pub open spec fn event_values(e: ErrorEntries) -> Seq<ErrorEvent> {
    e.map_values(|p: (Seq<char>, ErrorEvent)| p.1)
}

/// The values a sequence of references points to.
pub open spec fn derefs<T>(s: Seq<&T>) -> Seq<T> {
    s.map_values(|x: &T| *x)
}

/// Tracks error events with deduplication and aggregation.
#[derive(Debug)]
pub struct ErrorTracker {
    errors: StrMap<ErrorEvent>,
    total_errors: u64,
    critical_count: u64,
    warning_count: u64,
}

impl ErrorTracker {
    /// The recorded events under their codes, in increasing code order.
    pub closed spec fn events(&self) -> ErrorEntries {
        self.errors@
    }

    pub closed spec fn spec_total(&self) -> u64 {
        self.total_errors
    }

    pub closed spec fn spec_criticals(&self) -> u64 {
        self.critical_count
    }

    pub closed spec fn spec_warnings(&self) -> u64 {
        self.warning_count
    }

    /// Every event sits under its own code and was seen at least once; the counts
    /// add up to the total; criticals and warnings are among the total.
    pub closed spec fn wf(&self) -> bool {
        &&& sorted_keys(self.events())
        &&& forall|i: int|
            0 <= i < self.events().len() ==> (#[trigger] self.events()[i]).1.code@
                == self.events()[i].0 && self.events()[i].1.count >= 1
        &&& count_sum(self.events()) == self.spec_total()
        &&& self.spec_criticals() + self.spec_warnings() <= self.spec_total()
    }

    pub fn new() -> (t: Self)
        ensures
            t.wf(),
            t.events() == Seq::<(Seq<char>, ErrorEvent)>::empty(),
            t.spec_total() == 0,
            t.spec_criticals() == 0,
            t.spec_warnings() == 0,
    {
        let t = ErrorTracker {
            errors: StrMap::new(),
            total_errors: 0,
            critical_count: 0,
            warning_count: 0,
        };
        t
    }

    /// Records an error event. An event already seen under `code` has its count
    /// raised and its timestamp renewed; otherwise a new event is added.
    pub fn record(&mut self, code: &str, message: &str, module: &str, severity: ErrorSeverity)
        requires
            old(self).wf(),
            old(self).spec_total() < u64::MAX,
        ensures
            final(self).wf(),
            final(self).spec_total() == old(self).spec_total() + 1,
            final(self).spec_criticals() == old(self).spec_criticals() + (if severity
                == ErrorSeverity::Critical {
                1int
            } else {
                0int
            }),
            final(self).spec_warnings() == old(self).spec_warnings() + (if severity
                == ErrorSeverity::Warning {
                1int
            } else {
                0int
            }),
            has_key(old(self).events(), code@) ==> {
                let i = key_index(old(self).events(), code@);
                &&& final(self).events().len() == old(self).events().len()
                &&& forall|j: int|
                    0 <= j < old(self).events().len() && j != i ==> final(self).events()[j]
                        == old(self).events()[j]
                &&& final(self).events()[i].0 == code@
                &&& repeated_event(final(self).events()[i].1, old(self).events()[i].1)
            },
            !has_key(old(self).events(), code@) ==> exists|pos: int|
                0 <= pos <= old(self).events().len() && final(self).events()
                    == old(self).events().insert(pos, (code@, final(self).events()[pos].1))
                    && fresh_event(final(self).events()[pos].1, code@, message@, module@, severity),
            sorted_keys(final(self).events()),
            lookup(final(self).events(), code@) matches Some(e) && match lookup(old(self).events(), code@) {
                Some(o) => repeated_event(e, o),
                None => fresh_event(e, code@, message@, module@, severity),
            },
            forall|k: Seq<char>| k != code@ ==> #[trigger] lookup(final(self).events(), k) == lookup(
                old(self).events(),
                k,
            ),
    {
        proof {
            use_type_invariant(&self.errors);
        }
        let now = now_secs();
        let ghost old_events = self.errors@;
        match self.errors.index_of(code) {
            Some(i) => {
                let ev = self.errors.value_at(i);
                proof {
                    lemma_count_le_sum(old_events, i as int);
                }
                let updated = ErrorEvent {
                    code: ev.code.clone(),
                    message: ev.message.clone(),
                    module: ev.module.clone(),
                    severity: ev.severity,
                    timestamp: now,
                    count: ev.count + 1,
                };
                let ghost upd = updated;
                self.errors.insert(string_from(code), updated);
                proof {
                    lemma_lookup_at(old_events, i as int);
                    assert(self.errors@[i as int] == (code@, upd));
                    lemma_count_sum_update(old_events, i as int, self.errors@[i as int]);
                }
            },
            None => {
                let ev = ErrorEvent {
                    code: string_from(code),
                    message: string_from(message),
                    module: string_from(module),
                    severity,
                    timestamp: now,
                    count: 1,
                };
                let ghost x = (code@, ev);
                self.errors.insert(string_from(code), ev);
                proof {
                    let pos = choose|pos: int|
                        0 <= pos <= old_events.len() && self.errors@ == old_events.insert(pos, x);
                    lemma_count_sum_insert(old_events, pos, x);
                    assert(self.errors@[pos] == x);
                }
            },
        }
        self.total_errors = self.total_errors + 1;
        match severity {
            ErrorSeverity::Critical => self.critical_count = self.critical_count + 1,
            ErrorSeverity::Warning => self.warning_count = self.warning_count + 1,
            _ => {},
        }
    }

    /// The event recorded under `code`, if any.
    pub fn get(&self, code: &str) -> (r: Option<&ErrorEvent>)
        ensures
            match lookup(self.events(), code@) {
                Some(v) => r == Some(&v),
                None => r is None,
            },
    {
        self.errors.get(code)
    }

    /// All tracked events, in increasing code order.
    pub fn all(&self) -> (r: Vec<&ErrorEvent>)
        ensures
            derefs(r@) == event_values(self.events()),
    {
        let mut r: Vec<&ErrorEvent> = Vec::new();
        let mut i: usize = 0;
        while i < self.errors.len()
            invariant
                i <= self.events().len(),
                derefs(r@) == event_values(self.events()).take(i as int),
            decreases self.events().len() - i,
        {
            let v = self.errors.value_at(i);
            let ghost old_r = r@;
            r.push(v);
            assert(derefs(r@) =~= derefs(old_r).push(*v));
            assert(event_values(self.events()).take(i + 1) =~= event_values(self.events()).take(
                i as int,
            ).push(self.events()[i as int].1));
            assert(derefs(r@) =~= event_values(self.events()).take(i + 1));
            i += 1;
        }
        assert(event_values(self.events()).take(i as int) =~= event_values(self.events()));
        r
    }

    /// Events of the given severity, in increasing code order.
    pub fn by_severity(&self, severity: ErrorSeverity) -> (r: Vec<&ErrorEvent>)
        ensures
            derefs(r@) == event_values(self.events()).filter(
                |e: ErrorEvent| e.severity == severity,
            ),
    {
        let ghost vals = event_values(self.events());
        let ghost pred = |e: ErrorEvent| e.severity == severity;
        let mut r: Vec<&ErrorEvent> = Vec::new();
        let mut i: usize = 0;
        while i < self.errors.len()
            invariant
                i <= self.events().len(),
                vals == event_values(self.events()),
                pred == (|e: ErrorEvent| e.severity == severity),
                derefs(r@) == vals.take(i as int).filter(pred),
            decreases self.events().len() - i,
        {
            let ev = self.errors.value_at(i);
            proof {
                reveal_with_fuel(Seq::<_>::filter, 1);
                assert(vals.take(i + 1).drop_last() =~= vals.take(i as int));
                assert(vals.take(i + 1).last() == *ev);
            }
            if ev.severity == severity {
                r.push(ev);
            }
            assert(derefs(r@) =~= vals.take(i + 1).filter(pred));
            i += 1;
        }
        assert(vals.take(i as int) =~= vals);
        r
    }

    /// Events from the given module, in increasing code order.
    pub fn by_module(&self, module: &str) -> (r: Vec<&ErrorEvent>)
        ensures
            derefs(r@) == event_values(self.events()).filter(|e: ErrorEvent| e.module@ == module@),
    {
        let ghost vals = event_values(self.events());
        let ghost pred = |e: ErrorEvent| e.module@ == module@;
        let m = chars_of(module);
        let mut r: Vec<&ErrorEvent> = Vec::new();
        let mut i: usize = 0;
        while i < self.errors.len()
            invariant
                i <= self.events().len(),
                vals == event_values(self.events()),
                pred == (|e: ErrorEvent| e.module@ == module@),
                m@ == module@,
                derefs(r@) == vals.take(i as int).filter(pred),
            decreases self.events().len() - i,
        {
            let ev = self.errors.value_at(i);
            proof {
                reveal_with_fuel(Seq::<_>::filter, 1);
                assert(vals.take(i + 1).drop_last() =~= vals.take(i as int));
                assert(vals.take(i + 1).last() == *ev);
            }
            if chars_eq(&chars_of(ev.module.as_str()), &m) {
                r.push(ev);
            }
            assert(derefs(r@) =~= vals.take(i + 1).filter(pred));
            i += 1;
        }
        assert(vals.take(i as int) =~= vals);
        r
    }

    /// Total number of error events recorded (including repeats).
    pub fn total(&self) -> (n: u64)
        ensures
            n == self.spec_total(),
    {
        self.total_errors
    }

    /// Number of distinct error codes.
    pub fn unique_count(&self) -> (n: usize)
        ensures
            n == self.events().len(),
    {
        self.errors.len()
    }

    /// Number of critical events recorded.
    pub fn criticals(&self) -> (n: u64)
        ensures
            n == self.spec_criticals(),
    {
        self.critical_count
    }

    /// Number of warnings recorded.
    pub fn warnings(&self) -> (n: u64)
        ensures
            n == self.spec_warnings(),
    {
        self.warning_count
    }

    /// Resets the tracker to its initial state.
    pub fn reset(&mut self)
        ensures
            final(self).wf(),
            final(self).events() == Seq::<(Seq<char>, ErrorEvent)>::empty(),
            final(self).spec_total() == 0,
            final(self).spec_criticals() == 0,
            final(self).spec_warnings() == 0,
    {
        self.errors = StrMap::new();
        self.total_errors = 0;
        self.critical_count = 0;
        self.warning_count = 0;
    }

    /// The `n` most frequent events: by decreasing count, events with equal counts
    /// in increasing code order.
    pub fn top(&self, n: usize) -> (r: Vec<&ErrorEvent>)
        ensures
            derefs(r@) == ranked(event_values(self.events())).take(
                if n < self.events().len() { n as int } else { self.events().len() as int },
            ),
    {
        let ghost vals = event_values(self.events());
        let mut pairs: Vec<(u64, &ErrorEvent)> = Vec::new();
        let mut i: usize = 0;
        while i < self.errors.len()
            invariant
                i <= self.events().len(),
                vals == event_values(self.events()),
                pairs@.len() == i,
                forall|k: int| 0 <= k < i ==> *(#[trigger] pairs@[k]).1 == vals[k] && pairs@[k].0
                    == vals[k].count,
            decreases self.events().len() - i,
        {
            let ev = self.errors.value_at(i);
            pairs.push((ev.count, ev));
            i += 1;
        }
        let sorted = sort_desc_by_key(pairs);
        proof {
            lemma_sort_desc_len(pairs@);
        }
        let limit = if n < sorted.len() { n } else { sorted.len() };
        let mut r: Vec<&ErrorEvent> = Vec::new();
        let mut j: usize = 0;
        while j < limit
            invariant
                j <= limit <= sorted@.len(),
                r@.len() == j,
                forall|k: int| 0 <= k < j ==> r@[k] == (#[trigger] sorted@[k]).1,
            decreases limit - j,
        {
            r.push(sorted[j].1);
            j += 1;
        }
        proof {
            lemma_ranked_refs(vals, pairs@);
            assert(derefs(r@) =~= ranked(vals).take(limit as int));
        }
        r
    }

    /// A JSON object with the counters and every event, in increasing code order.
    pub fn to_json(&self) -> (s: String)
        ensures
            s@ == tracker_json(
                self.spec_total(),
                self.events().len() as nat,
                self.spec_criticals(),
                self.spec_warnings(),
                event_values(self.events()),
            ),
    {
        let mut out = String::new();
        push_str(&mut out, "{\"total\":");
        push_u64(&mut out, self.total_errors);
        push_str(&mut out, ",\"unique\":");
        push_u64(&mut out, self.errors.len() as u64);
        push_str(&mut out, ",\"critical\":");
        push_u64(&mut out, self.critical_count);
        push_str(&mut out, ",\"warning\":");
        push_u64(&mut out, self.warning_count);
        push_str(&mut out, ",\"errors\":[");
        let ghost head = out@;
        let ghost vals = event_values(self.events());
        let mut i: usize = 0;
        while i < self.errors.len()
            invariant
                i <= self.events().len(),
                vals == event_values(self.events()),
                out@ == head + events_json(vals.take(i as int)),
            decreases self.events().len() - i,
        {
            let ev = self.errors.value_at(i);
            let ghost before = out@;
            if i > 0 {
                push_char(&mut out, ',');
            }
            push_event_json(&mut out, ev);
            proof {
                assert(vals.take(i + 1).drop_last() =~= vals.take(i as int));
                assert(vals.take(i + 1).last() == *ev);
                if i > 0 {
                    assert(out@ =~= head + events_json(vals.take(i as int)) + seq![','] + event_json(*ev));
                } else {
                    assert(out@ =~= head + event_json(*ev));
                }
            }
            i += 1;
        }
        push_str(&mut out, "]}");
        assert(vals.take(i as int) =~= vals);
        out
    }

    /// A one-line summary of the counters.
    pub fn summary(&self) -> (s: String)
        ensures
            s@ == "Error Tracker: "@ + dec(self.spec_total() as nat) + " total, "@ + dec(
                self.events().len() as nat,
            ) + " unique, "@ + dec(self.spec_criticals() as nat) + " critical, "@ + dec(
                self.spec_warnings() as nat,
            ) + " warnings"@,
    {
        let mut out = String::new();
        push_str(&mut out, "Error Tracker: ");
        push_u64(&mut out, self.total_errors);
        push_str(&mut out, " total, ");
        push_u64(&mut out, self.errors.len() as u64);
        push_str(&mut out, " unique, ");
        push_u64(&mut out, self.critical_count);
        push_str(&mut out, " critical, ");
        push_u64(&mut out, self.warning_count);
        push_str(&mut out, " warnings");
        assert(out@ =~= "Error Tracker: "@ + dec(self.spec_total() as nat) + " total, "@ + dec(
            self.events().len() as nat,
        ) + " unique, "@ + dec(self.spec_criticals() as nat) + " critical, "@ + dec(
            self.spec_warnings() as nat,
        ) + " warnings"@);
        out
    }
}

impl Default for ErrorTracker {
    fn default() -> (t: Self)
        ensures
            t.wf(),
            t.events() == Seq::<(Seq<char>, ErrorEvent)>::empty(),
            t.spec_total() == 0,
            t.spec_criticals() == 0,
            t.spec_warnings() == 0,
    {
        Self::new()
    }
}

/// Events keyed by their counts.
pub open spec fn by_count(vals: Seq<ErrorEvent>) -> Seq<(u64, ErrorEvent)> {
    vals.map_values(|e: ErrorEvent| (e.count, e))
}

/// Events ranked by decreasing count, ties kept in their given order.
pub open spec fn ranked(vals: Seq<ErrorEvent>) -> Seq<ErrorEvent> {
    sort_desc(by_count(vals)).map_values(|p: (u64, ErrorEvent)| p.1)
}

proof fn lemma_ranked_refs(vals: Seq<ErrorEvent>, pairs: Seq<(u64, &ErrorEvent)>)
    requires
        pairs.len() == vals.len(),
        forall|k: int| 0 <= k < vals.len() ==> *(#[trigger] pairs[k]).1 == vals[k] && pairs[k].0
            == vals[k].count,
    ensures
        sort_desc(pairs).map_values(|p: (u64, &ErrorEvent)| *p.1) == ranked(vals),
{
    assert(pairs.map_values(|p: (u64, &ErrorEvent)| (p.0, *p.1)) =~= by_count(vals));
    lemma_sort_desc_deref(pairs);
    assert(sort_desc(pairs).map_values(|p: (u64, &ErrorEvent)| *p.1) =~= sort_desc(pairs).map_values(
        |p: (u64, &ErrorEvent)| (p.0, *p.1),
    ).map_values(|p: (u64, ErrorEvent)| p.1));
}

/// The JSON object of one event.
pub open spec fn event_json(e: ErrorEvent) -> Seq<char> {
    "{\"code\":\""@ + e.code@ + "\",\"msg\":\""@ + e.message@ + "\",\"module\":\""@ + e.module@
        + "\",\"sev\":\""@ + severity_name(e.severity) + "\",\"count\":"@ + dec(e.count as nat)
        + "}"@
}

/// The JSON objects of events, separated by commas.
pub open spec fn events_json(vals: Seq<ErrorEvent>) -> Seq<char>
    decreases vals.len(),
{
    if vals.len() == 0 {
        Seq::empty()
    } else if vals.len() == 1 {
        event_json(vals[0])
    } else {
        events_json(vals.drop_last()) + seq![','] + event_json(vals.last())
    }
}

/// The JSON text of a tracker's counters and events.
pub open spec fn tracker_json(
    total: u64,
    unique: nat,
    critical: u64,
    warning: u64,
    vals: Seq<ErrorEvent>,
) -> Seq<char> {
    "{\"total\":"@ + dec(total as nat) + ",\"unique\":"@ + dec(unique) + ",\"critical\":"@ + dec(
        critical as nat,
    ) + ",\"warning\":"@ + dec(warning as nat) + ",\"errors\":["@ + events_json(vals) + "]}"@
}

fn push_event_json(out: &mut String, e: &ErrorEvent)
    ensures
        final(out)@ == old(out)@ + event_json(*e),
{
    let ghost start = out@;
    push_str(out, "{\"code\":\"");
    push_str(out, e.code.as_str());
    push_str(out, "\",\"msg\":\"");
    push_str(out, e.message.as_str());
    push_str(out, "\",\"module\":\"");
    push_str(out, e.module.as_str());
    push_str(out, "\",\"sev\":\"");
    push_str(out, e.severity.as_str());
    push_str(out, "\",\"count\":");
    push_u64(out, e.count);
    push_str(out, "}");
    assert(out@ =~= start + event_json(*e));
}

proof fn lemma_count_sum_at_least_len(e: ErrorEntries)
    requires
        forall|i: int| 0 <= i < e.len() ==> (#[trigger] e[i]).1.count >= 1,
    ensures
        count_sum(e) >= e.len(),
    decreases e.len(),
{
    if e.len() > 0 {
        assert forall|i: int| 0 <= i < e.drop_last().len() implies (#[trigger] e.drop_last()[i]).1.count >= 1 by {
            assert(e.drop_last()[i] == e[i]);
        }
        lemma_count_sum_at_least_len(e.drop_last());
        assert(e[e.len() - 1] == e.last());
    }
}

/// The total is the sum of the per-code counts; there are no more distinct
/// codes than errors recorded, and criticals and warnings are among them; each
/// code is held once, in increasing order, under its own event.
pub proof fn law_tracker_totals(t: ErrorTracker)
    requires
        t.wf(),
    ensures
        count_sum(t.events()) == t.spec_total(),
        t.events().len() <= t.spec_total(),
        sorted_keys(t.events()),
        t.spec_criticals() + t.spec_warnings() <= t.spec_total(),
        forall|i: int| 0 <= i < t.events().len() ==> (#[trigger] t.events()[i]).1.code@ == t.events()[i].0,
{
    lemma_count_sum_at_least_len(t.events());
}

} // verus!
