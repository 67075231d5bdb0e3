use vstd::prelude::*;

verus! {

/// The machine's clock (`std::time::SystemTime`).
#[verifier::external_type_specification]
#[verifier::external_body]
pub struct ExSystemTime(std::time::SystemTime);

/// The present reading of the machine's clock (`SystemTime::now`). Nothing is
/// stated of it: it is whatever the clock says.
#[verifier::external_body]
fn system_now() -> std::time::SystemTime {
    std::time::SystemTime::now()
}

/// The time from the Unix epoch to `t` (`SystemTime::duration_since`), or
/// `None` where `t` lies before the epoch. Nothing is stated of the value.
#[verifier::external_body]
fn since_epoch(t: &std::time::SystemTime) -> Option<std::time::Duration> {
    t.duration_since(std::time::UNIX_EPOCH).ok()
}

/// The whole nanoseconds of a duration (`Duration::as_nanos`). Nothing is
/// stated of the value: a `Duration` is opaque here.
#[verifier::external_body]
fn duration_nanos(d: &std::time::Duration) -> u128 {
    d.as_nanos()
}

/// Wall-clock time in nanoseconds since the Unix epoch; zero before the
/// epoch, and cut to 64 bits.
pub(crate) fn now_nanos() -> u64 {
    match since_epoch(&system_now()) {
        Some(d) => duration_nanos(&d) as u64,
        None => 0,
    }
}

/// Wall-clock time in whole seconds since the Unix epoch: the reading of
/// `now_nanos` divided by a billion.
pub(crate) fn now_secs() -> u64 {
    now_nanos() / 1_000_000_000
}

/// A reading of the machine's monotonic clock (`std::time::Instant`).
#[verifier::external_type_specification]
#[verifier::external_body]
pub struct ExInstant(std::time::Instant);

/// Whether two readings of the monotonic clock are the same (`==` on
/// `Instant`, which compares the readings field by field). The contract claims
/// that it answers `true` exactly for one and the same reading.
#[verifier::external_body]
pub(crate) fn same_instant(a: &std::time::Instant, b: &std::time::Instant) -> (r: bool)
    ensures
        r == (*a == *b),
{
    *a == *b
}

/// The present reading of the monotonic clock (`Instant::now`). Nothing is
/// stated of it.
#[verifier::external_body]
pub(crate) fn instant_now() -> std::time::Instant {
    std::time::Instant::now()
}

/// The time from `earlier` to `later`, zero when `later` comes first
/// (`Instant::saturating_duration_since`). Nothing is stated of the value.
#[verifier::external_body]
fn duration_between(earlier: &std::time::Instant, later: &std::time::Instant) -> std::time::Duration {
    later.saturating_duration_since(*earlier)
}

/// The whole nanoseconds from `earlier` to `later` on the monotonic clock,
/// zero when `later` comes first, cut to 64 bits.
pub(crate) fn nanos_between(earlier: &std::time::Instant, later: &std::time::Instant) -> u64 {
    duration_nanos(&duration_between(earlier, later)) as u64
}

/// The whole nanoseconds since `start` on the monotonic clock, as
/// `Instant::elapsed` measures them.
pub(crate) fn nanos_since(start: &std::time::Instant) -> u64 {
    let now = instant_now();
    nanos_between(start, &now)
}

} // verus!
