use vstd::prelude::*;
use crate::clock::{instant_now, nanos_since};
use crate::text::{push_str, push_u64, push_duration_debug, string_from, dec, duration_debug};

verus! {

/// `a + b`, or `u64::MAX` when that does not fit.
pub open spec fn sat_add(a: u64, b: u64) -> u64 {
    if a + b > u64::MAX { u64::MAX } else { (a + b) as u64 }
}

/// `a - b`, or zero when `b` is larger.
pub open spec fn sat_sub(a: u64, b: u64) -> u64 {
    if a >= b { (a - b) as u64 } else { 0 }
}

/// Measures and records execution time of operations. Times are in nanoseconds.
#[derive(Debug)]
pub struct ExecutionTimer {
    /// Label identifying the measured operation.
    pub label: String,
    /// When the running measurement started on the monotonic clock, if one runs.
    pub start: Option<std::time::Instant>,
    /// Accumulated duration across runs.
    pub accumulated: u64,
    /// Number of times the timer was stopped.
    pub run_count: u64,
}

/// The divisor that a run count gives: its low 32 bits.
pub open spec fn divisor_of(runs: u64) -> nat {
    (runs as nat) % 0x1_0000_0000
}

/// A duration of `total` nanoseconds divided by `d` the way `Duration` divides:
/// whole seconds first, then the carried seconds and the nanoseconds apart.
pub open spec fn duration_div(total: u64, d: nat) -> nat {
    let secs = total as nat / 1_000_000_000;
    let nanos = total as nat % 1_000_000_000;
    let q = secs / d;
    let carry = (secs - q * d) as nat;
    q * 1_000_000_000 + carry * 1_000_000_000 / d + nanos / d
}

/// The mean time per run (zero before the first run).
pub open spec fn average_of(accumulated: u64, runs: u64) -> nat {
    if runs == 0 { 0 } else { duration_div(accumulated, divisor_of(runs)) }
}

/// The pieces of a `Duration` division stay within the dividend.
proof fn lemma_duration_div_fits(total: u64, rhs: u64)
    requires
        rhs > 0,
    ensures
        ({
            let d = rhs as int;
            let secs = total as int / 1_000_000_000;
            let q = secs / d;
            &&& q * d <= secs
            &&& (secs - q * d) * 1_000_000_000 <= u64::MAX
            &&& q * 1_000_000_000 + (secs - q * d) * 1_000_000_000 / d
                + (total as int % 1_000_000_000) / d <= total
        }),
{
    let d = rhs as int;
    let secs = total as int / 1_000_000_000;
    let nanos = total as int % 1_000_000_000;
    let q = secs / d;
    assert(q * d <= secs && q <= q * d && q >= 0) by (nonlinear_arith)
        requires q == secs / d, d > 0, secs >= 0;
    let carry = secs - q * d;
    assert(secs * 1_000_000_000 + nanos == total) by (nonlinear_arith)
        requires secs == total as int / 1_000_000_000, nanos == total as int % 1_000_000_000;
    assert(carry * 1_000_000_000 / d <= carry * 1_000_000_000) by (nonlinear_arith)
        requires d > 0, carry >= 0;
    assert(nanos / d <= nanos) by (nonlinear_arith)
        requires d > 0, nanos >= 0;
    assert((q + carry) * 1_000_000_000 <= secs * 1_000_000_000) by (nonlinear_arith)
        requires q + carry <= secs;
    assert(carry * 1_000_000_000 <= secs * 1_000_000_000) by (nonlinear_arith)
        requires carry <= secs, carry >= 0;
}

impl ExecutionTimer {
    /// A stopped timer with nothing recorded.
    pub fn new(label: &str) -> (t: Self)
        ensures
            t.label@ == label@,
            t.start is None,
            t.accumulated == 0,
            t.run_count == 0,
    {
        ExecutionTimer { label: string_from(label), start: None, accumulated: 0, run_count: 0 }
    }

    /// Starts a measurement at the current time.
    pub fn start(&mut self)
        ensures
            final(self).start is Some,
            final(self).label == old(self).label,
            final(self).accumulated == old(self).accumulated,
            final(self).run_count == old(self).run_count,
    {
        self.start = Some(instant_now());
    }

    /// Ends the measurement: its duration on the monotonic clock (zero when
    /// none ran) is added to the total and returned, and one more run is
    /// counted.
    pub fn stop(&mut self) -> (elapsed: u64)
        requires
            old(self).run_count < u64::MAX,
        ensures
            old(self).start is None ==> elapsed == 0,
            final(self).start is None,
            final(self).accumulated == sat_add(old(self).accumulated, elapsed),
            final(self).run_count == old(self).run_count + 1,
            final(self).label == old(self).label,
    {
        let elapsed = match self.start {
            Some(s) => nanos_since(&s),
            None => 0,
        };
        self.start = None;
        self.accumulated = self.accumulated.saturating_add(elapsed);
        self.run_count = self.run_count + 1;
        elapsed
    }

    /// The total accumulated duration.
    pub fn total(&self) -> (d: u64)
        ensures
            d == self.accumulated,
    {
        self.accumulated
    }

    /// The mean duration per run. The run count is taken by its low 32 bits, so a
    /// count that is a nonzero multiple of 2^32 has no average.
    pub fn average(&self) -> (d: u64)
        requires
            self.run_count == 0 || divisor_of(self.run_count) != 0,
        ensures
            d == average_of(self.accumulated, self.run_count),
    {
        if self.run_count == 0 {
            0
        } else {
            let rhs: u64 = self.run_count % 0x1_0000_0000;
            let secs: u64 = self.accumulated / 1_000_000_000;
            let nanos: u64 = self.accumulated % 1_000_000_000;
            let q: u64 = secs / rhs;
            proof {
                lemma_duration_div_fits(self.accumulated, rhs);
            }
            let carry: u64 = secs - q * rhs;
            let extra: u64 = (carry * 1_000_000_000) / rhs;
            q * 1_000_000_000 + extra + nanos / rhs
        }
    }

    /// The number of runs.
    pub fn count(&self) -> (n: u64)
        ensures
            n == self.run_count,
    {
        self.run_count
    }

    /// Back to the initial state (the label stays).
    pub fn reset(&mut self)
        ensures
            final(self).start is None,
            final(self).accumulated == 0,
            final(self).run_count == 0,
            final(self).label == old(self).label,
    {
        self.start = None;
        self.accumulated = 0;
        self.run_count = 0;
    }

    /// `label: N runs, total T, avg A`, durations as `Debug` writes them.
    pub fn summary(&self) -> (s: String)
        requires
            self.run_count == 0 || divisor_of(self.run_count) != 0,
        ensures
            s@ == self.label@ + ": "@ + dec(self.run_count as nat) + " runs, total "@
                + duration_debug(self.accumulated as nat) + ", avg "@ + duration_debug(
                average_of(self.accumulated, self.run_count) as nat,
            ),
    {
        let mut out = String::new();
        push_str(&mut out, self.label.as_str());
        push_str(&mut out, ": ");
        push_u64(&mut out, self.run_count);
        push_str(&mut out, " runs, total ");
        push_duration_debug(&mut out, self.accumulated);
        push_str(&mut out, ", avg ");
        let avg = self.average();
        push_duration_debug(&mut out, avg);
        assert(out@ =~= self.label@ + ": "@ + dec(self.run_count as nat) + " runs, total "@
            + duration_debug(self.accumulated as nat) + ", avg "@ + duration_debug(avg as nat));
        out
    }

    /// `{"label":..,"runs":..,"total_ns":..,"avg_ns":..}`.
    pub fn to_json(&self) -> (s: String)
        requires
            self.run_count == 0 || divisor_of(self.run_count) != 0,
        ensures
            s@ == "{\"label\":\""@ + self.label@ + "\",\"runs\":"@ + dec(self.run_count as nat)
                + ",\"total_ns\":"@ + dec(self.accumulated as nat) + ",\"avg_ns\":"@ + dec(
                average_of(self.accumulated, self.run_count) as nat,
            ) + "}"@,
    {
        let mut out = String::new();
        push_str(&mut out, "{\"label\":\"");
        push_str(&mut out, self.label.as_str());
        push_str(&mut out, "\",\"runs\":");
        push_u64(&mut out, self.run_count);
        push_str(&mut out, ",\"total_ns\":");
        push_u64(&mut out, self.accumulated);
        push_str(&mut out, ",\"avg_ns\":");
        let avg = self.average();
        push_u64(&mut out, avg);
        push_str(&mut out, "}");
        assert(out@ =~= "{\"label\":\""@ + self.label@ + "\",\"runs\":"@ + dec(
            self.run_count as nat,
        ) + ",\"total_ns\":"@ + dec(self.accumulated as nat) + ",\"avg_ns\":"@ + dec(avg as nat)
            + "}"@);
        out
    }
}

} // verus!
