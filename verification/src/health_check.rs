use vstd::prelude::*;
use crate::clock::{instant_now, nanos_since};
use crate::text::{push_str, push_u64, push_bool, push_duration_debug, string_from, dec, bool_text, duration_debug};

verus! {

/// The result of one health check.
#[derive(Debug, Clone)]
pub struct CheckResult {
    /// Name of the check.
    pub name: String,
    /// Whether the check passed.
    pub ok: bool,
    /// Human-readable message.
    pub message: String,
    /// How long the check took, in milliseconds.
    pub duration_ms: u64,
}

impl CheckResult {
    /// A passing result that took no time.
    pub fn passing(name: &str, msg: &str) -> (r: Self)
        ensures
            r.name@ == name@,
            r.ok,
            r.message@ == msg@,
            r.duration_ms == 0,
    {
        CheckResult { name: string_from(name), ok: true, message: string_from(msg), duration_ms: 0 }
    }

    /// A failing result that took no time.
    pub fn failing(name: &str, msg: &str) -> (r: Self)
        ensures
            r.name@ == name@,
            !r.ok,
            r.message@ == msg@,
            r.duration_ms == 0,
    {
        CheckResult { name: string_from(name), ok: false, message: string_from(msg), duration_ms: 0 }
    }
}

/// One health check; checks can be sent to other threads.
pub trait HealthCheck: Send {
    /// The name of the check.
    fn name(&self) -> &str;

    /// Runs the check.
    fn run(&self) -> CheckResult;
}

/// Whole milliseconds since `start` on the monotonic clock.
fn millis_since(start: &std::time::Instant) -> u64 {
    nanos_since(start) / 1_000_000
}

/// Checks that a target is configured.
#[derive(Debug, Clone)]
pub struct PingCheck {
    /// What to ping.
    pub target: String,
    /// How long a ping may take, in milliseconds.
    pub timeout_ms: u64,
}

/// The message of a ping check.
pub open spec fn ping_message(target: Seq<char>) -> Seq<char> {
    "ping "@ + target + ": "@ + (if target.len() > 0 { "ok"@ } else { "empty target"@ })
}

impl HealthCheck for PingCheck {
    fn name(&self) -> (n: &str)
        ensures
            n@ == "ping"@,
    {
        "ping"
    }

    fn run(&self) -> (r: CheckResult)
        ensures
            r.name@ == "ping"@,
            r.ok == (self.target@.len() > 0),
            r.message@ == ping_message(self.target@),
    {
        let start = instant_now();
        let ok = !self.target.as_str().is_empty();
        let elapsed = millis_since(&start);
        let mut message = String::new();
        push_str(&mut message, "ping ");
        push_str(&mut message, self.target.as_str());
        push_str(&mut message, ": ");
        if ok {
            push_str(&mut message, "ok");
        } else {
            push_str(&mut message, "empty target");
        }
        assert(message@ =~= ping_message(self.target@));
        CheckResult { name: string_from("ping"), ok, message, duration_ms: elapsed }
    }
}

/// The message of a disk-space check.
pub open spec fn disk_space_message(path: Seq<char>, exists: bool) -> Seq<char> {
    "path "@ + path + " exists: "@ + bool_text(exists)
}

/// The result of a disk-space check on `path`, given whether the path exists
/// and how long finding out took.
pub fn disk_space_result(path: &str, exists: bool, elapsed_ms: u64) -> (r: CheckResult)
    ensures
        r.name@ == "disk_space"@,
        r.ok == exists,
        r.message@ == disk_space_message(path@, exists),
        r.duration_ms == elapsed_ms,
{
    let mut message = String::new();
    push_str(&mut message, "path ");
    push_str(&mut message, path);
    push_str(&mut message, " exists: ");
    push_bool(&mut message, exists);
    assert(message@ =~= disk_space_message(path@, exists));
    CheckResult { name: string_from("disk_space"), ok: exists, message, duration_ms: elapsed_ms }
}

/// The message of a database check: accessible with its size, or not found.
pub open spec fn db_message(db_path: Seq<char>, size: Option<u64>) -> Seq<char> {
    "db "@ + db_path + ": "@ + (if size is Some { "accessible"@ } else { "not found"@ }) + " ("@
        + dec((match size {
        Some(n) => n,
        None => 0,
    }) as nat) + " bytes)"@
}

/// The result of a database check on `db_path`, given the size of the file
/// when it could be read and how long finding out took.
pub fn db_connectivity_result(db_path: &str, size: Option<u64>, elapsed_ms: u64) -> (r: CheckResult)
    ensures
        r.name@ == "db_connectivity"@,
        r.ok == size is Some,
        r.message@ == db_message(db_path@, size),
        r.duration_ms == elapsed_ms,
{
    let mut message = String::new();
    push_str(&mut message, "db ");
    push_str(&mut message, db_path);
    push_str(&mut message, ": ");
    let n: u64 = match size {
        Some(n) => {
            push_str(&mut message, "accessible");
            n
        },
        None => {
            push_str(&mut message, "not found");
            0
        },
    };
    push_str(&mut message, " (");
    push_u64(&mut message, n);
    push_str(&mut message, " bytes)");
    assert(message@ =~= db_message(db_path@, size));
    CheckResult { name: string_from("db_connectivity"), ok: size.is_some(), message, duration_ms: elapsed_ms }
}

/// Checks the memory requirement; it always passes.
#[derive(Debug, Clone, Copy)]
pub struct MemoryCheck {
    /// Megabytes that must be available.
    pub min_available_mb: u64,
}

impl HealthCheck for MemoryCheck {
    fn name(&self) -> (n: &str)
        ensures
            n@ == "memory"@,
    {
        "memory"
    }

    fn run(&self) -> (r: CheckResult)
        ensures
            r.name@ == "memory"@,
            r.ok,
            r.message@ == "minimum "@ + dec(self.min_available_mb as nat) + " MB required"@,
    {
        let start = instant_now();
        let elapsed = millis_since(&start);
        let mut message = String::new();
        push_str(&mut message, "minimum ");
        push_u64(&mut message, self.min_available_mb);
        push_str(&mut message, " MB required");
        CheckResult { name: string_from("memory"), ok: true, message, duration_ms: elapsed }
    }
}

/// Reports how long the process has been up.
#[derive(Debug, Clone, Copy)]
pub struct UptimeCheck {
    /// When the check was made, on the monotonic clock.
    pub started_at: std::time::Instant,
}

/// The result of an uptime check after `elapsed` nanoseconds: it passes, its
/// message is `up for ` and the time as `Duration`'s debug text, and it took
/// the whole milliseconds of that time.
pub fn uptime_result(elapsed: u64) -> (r: CheckResult)
    ensures
        r.name@ == "uptime"@,
        r.ok,
        r.message@ == "up for "@ + duration_debug(elapsed as nat),
        r.duration_ms == elapsed / 1_000_000,
{
    let mut message = String::new();
    push_str(&mut message, "up for ");
    push_duration_debug(&mut message, elapsed);
    CheckResult { name: string_from("uptime"), ok: true, message, duration_ms: elapsed / 1_000_000 }
}

impl UptimeCheck {
    /// An uptime check counting from now.
    pub fn new() -> (c: Self) {
        UptimeCheck { started_at: instant_now() }
    }
}

impl HealthCheck for UptimeCheck {
    fn name(&self) -> (n: &str)
        ensures
            n@ == "uptime"@,
    {
        "uptime"
    }

    fn run(&self) -> (r: CheckResult)
        ensures
            exists|elapsed: u64|
                r.message@ == "up for "@ + duration_debug(elapsed as nat) && r.duration_ms == elapsed
                    / 1_000_000,
            r.name@ == "uptime"@,
            r.ok,
    {
        uptime_result(nanos_since(&self.started_at))
    }
}

/// Overall health.
#[derive(Debug, Clone, Copy, PartialEq, Eq, Structural)]
pub enum HealthStatus {
    Healthy,
    Degraded,
    Unhealthy,
}

/// The name of a status.
pub open spec fn status_name(s: HealthStatus) -> Seq<char> {
    match s {
        HealthStatus::Healthy => "healthy"@,
        HealthStatus::Degraded => "degraded"@,
        HealthStatus::Unhealthy => "unhealthy"@,
    }
}

impl HealthStatus {
    /// `healthy`, `degraded` or `unhealthy`.
    pub fn as_str(&self) -> (s: &'static str)
        ensures
            s@ == status_name(*self),
    {
        match self {
            HealthStatus::Healthy => "healthy",
            HealthStatus::Degraded => "degraded",
            HealthStatus::Unhealthy => "unhealthy",
        }
    }
}

/// The status that a set of results gives: unhealthy when none passed (no
/// result at all included), degraded when some failed, healthy otherwise.
pub open spec fn status_spec(results: Seq<CheckResult>) -> HealthStatus {
    if forall|i: int| 0 <= i < results.len() ==> !(#[trigger] results[i]).ok {
        HealthStatus::Unhealthy
    } else if exists|i: int| 0 <= i < results.len() && !(#[trigger] results[i]).ok {
        HealthStatus::Degraded
    } else {
        HealthStatus::Healthy
    }
}

/// The overall status of a set of check results: healthy exactly when there
/// are results and every one passed, unhealthy exactly when none passed (so
/// also for no results), degraded exactly when some passed and some failed.
pub proof fn law_status_of_results(results: Seq<CheckResult>)
    ensures
        (status_spec(results) == HealthStatus::Healthy) <==> (results.len() > 0 && forall|i: int|
            0 <= i < results.len() ==> (#[trigger] results[i]).ok),
        (status_spec(results) == HealthStatus::Unhealthy) <==> (forall|i: int|
            0 <= i < results.len() ==> !(#[trigger] results[i]).ok),
        (status_spec(results) == HealthStatus::Degraded) <==> ((exists|i: int|
            0 <= i < results.len() && (#[trigger] results[i]).ok) && (exists|j: int|
            0 <= j < results.len() && !(#[trigger] results[j]).ok)),
{
    if results.len() > 0 && forall|i: int| 0 <= i < results.len() ==> (#[trigger] results[i]).ok {
        assert(results[0].ok);
    }
}

/// The JSON health report names, as its status, the status of the results it
/// lists: `healthy` when there are results and all passed, `unhealthy` when
/// none passed, `degraded` otherwise; the list follows.
pub proof fn law_report_names_status_of_its_results(results: Seq<CheckResult>)
    ensures
        health_json_spec(status_spec(results), results) == "{\"status\":\""@ + (if results.len() > 0
            && forall|i: int| 0 <= i < results.len() ==> (#[trigger] results[i]).ok {
            "healthy"@
        } else if forall|i: int| 0 <= i < results.len() ==> !(#[trigger] results[i]).ok {
            "unhealthy"@
        } else {
            "degraded"@
        }) + "\",\"checks\":["@ + results_json(results) + "]}"@,
{
    law_status_of_results(results);
}

/// The status of a set of results.
pub fn status_of(results: &Vec<CheckResult>) -> (s: HealthStatus)
    ensures
        s == status_spec(results@),
{
    let mut any_failed = false;
    let mut all_failed = true;
    let mut i: usize = 0;
    while i < results.len()
        invariant
            i <= results@.len(),
            any_failed == exists|j: int| 0 <= j < i && !(#[trigger] results@[j]).ok,
            all_failed == forall|j: int| 0 <= j < i ==> !(#[trigger] results@[j]).ok,
        decreases results.len() - i,
    {
        if !results[i].ok {
            any_failed = true;
        } else {
            all_failed = false;
        }
        i += 1;
    }
    if all_failed {
        HealthStatus::Unhealthy
    } else if any_failed {
        HealthStatus::Degraded
    } else {
        HealthStatus::Healthy
    }
}

/// `{"name":..,"ok":..,"msg":..,"dur_ms":..}` for one result.
pub open spec fn result_json(r: CheckResult) -> Seq<char> {
    "{\"name\":\""@ + r.name@ + "\",\"ok\":"@ + bool_text(r.ok) + ",\"msg\":\""@ + r.message@
        + "\",\"dur_ms\":"@ + dec(r.duration_ms as nat) + "}"@
}

/// The JSON of `results`, separated by commas.
pub open spec fn results_json(results: Seq<CheckResult>) -> Seq<char>
    decreases results.len(),
{
    if results.len() == 0 {
        Seq::empty()
    } else if results.len() == 1 {
        result_json(results[0])
    } else {
        results_json(results.drop_last()) + ","@ + result_json(results.last())
    }
}

/// `{"status":..,"checks":[..]}`.
pub open spec fn health_json_spec(status: HealthStatus, results: Seq<CheckResult>) -> Seq<char> {
    "{\"status\":\""@ + status_name(status) + "\",\"checks\":["@ + results_json(results) + "]}"@
}

/// The JSON report of a status and a set of results.
pub fn health_json(status: HealthStatus, results: &Vec<CheckResult>) -> (s: String)
    ensures
        s@ == health_json_spec(status, results@),
{
    let mut out = String::new();
    push_str(&mut out, "{\"status\":\"");
    push_str(&mut out, status.as_str());
    push_str(&mut out, "\",\"checks\":[");
    let ghost head = out@;
    let mut i: usize = 0;
    while i < results.len()
        invariant
            i <= results@.len(),
            out@ == head + results_json(results@.take(i as int)),
        decreases results.len() - i,
    {
        if i > 0 {
            push_str(&mut out, ",");
        }
        let r = &results[i];
        push_str(&mut out, "{\"name\":\"");
        push_str(&mut out, r.name.as_str());
        push_str(&mut out, "\",\"ok\":");
        push_bool(&mut out, r.ok);
        push_str(&mut out, ",\"msg\":\"");
        push_str(&mut out, r.message.as_str());
        push_str(&mut out, "\",\"dur_ms\":");
        push_u64(&mut out, r.duration_ms);
        push_str(&mut out, "}");
        proof {
            reveal_strlit(",");
            assert(results@.take(i + 1).drop_last() =~= results@.take(i as int));
            assert(results@.take(i + 1)[0] == results@[0]);
        }
        assert(out@ =~= head + results_json(results@.take(i + 1)));
        i += 1;
    }
    assert(results@.take(i as int) =~= results@);
    push_str(&mut out, "]}");
    assert(out@ =~= health_json_spec(status, results@));
    out
}

/// Runs a suite of health checks.
pub struct HealthChecker {
    checks: Vec<(String, Box<dyn HealthCheck>)>,
}

impl HealthChecker {
    /// The number of registered checks.
    pub closed spec fn size(&self) -> nat {
        self.checks@.len()
    }

    /// A checker with no checks.
    pub fn new() -> (c: Self)
        ensures
            c.size() == 0,
    {
        HealthChecker { checks: Vec::new() }
    }

    /// Registers a check, after those already there.
    pub fn register(&mut self, check: Box<dyn HealthCheck>)
        ensures
            final(self).size() == old(self).size() + 1,
    {
        let name = string_from(check.name());
        let ghost before = self.checks@;
        let entry = (name, check);
        let ghost e = entry;
        self.checks.push(entry);
        proof {
            vstd::seq::axiom_seq_push_len(before, e);
        }
    }

    /// Runs every check, in registration order.
    pub fn run_all(&self) -> (r: Vec<CheckResult>)
        ensures
            r@.len() == self.size(),
    {
        let mut results: Vec<CheckResult> = Vec::new();
        let mut i: usize = 0;
        while i < self.checks.len()
            invariant
                i <= self.checks@.len(),
                results@.len() == i,
            decreases self.checks.len() - i,
        {
            results.push(self.checks[i].1.run());
            i += 1;
        }
        results
    }

    /// Runs every check and gives the overall status.
    pub fn status(&self) -> (s: HealthStatus)
        ensures
            exists|results: Seq<CheckResult>| results.len() == self.size() && s == status_spec(results),
            self.size() == 0 ==> s == HealthStatus::Unhealthy,
    {
        let results = self.run_all();
        status_of(&results)
    }

    /// Runs every check and reports the results and, with them, the status
    /// that those results give, as JSON.
    pub fn to_json(&self) -> (s: String)
        ensures
            exists|results: Seq<CheckResult>|
                results.len() == self.size() && s@ == health_json_spec(status_spec(results), results),
            self.size() == 0 ==> s@ == health_json_spec(HealthStatus::Unhealthy, Seq::empty()),
    {
        let results = self.run_all();
        let status = status_of(&results);
        health_json(status, &results)
    }

    /// The number of registered checks.
    pub fn check_count(&self) -> (n: usize)
        ensures
            n == self.size(),
    {
        self.checks.len()
    }
}

impl Default for HealthChecker {
    fn default() -> (c: Self)
        ensures
            c.size() == 0,
    {
        HealthChecker::new()
    }
}

} // verus!
