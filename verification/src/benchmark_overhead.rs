use vstd::prelude::*;
use crate::timer_utility::{human_duration, human_duration_text};

verus! {

/// Options of the monitoring-overhead benchmark.
#[derive(Debug, Clone, Copy)]
pub struct BenchmarkOverheadArgs {
    /// Number of iterations per benchmark.
    pub iterations: u64,
    /// Output as JSON.
    pub json: bool,
}

impl Default for BenchmarkOverheadArgs {
    /// Ten thousand iterations, text output.
    fn default() -> (a: Self)
        ensures
            a.iterations == 10_000,
            !a.json,
    {
        BenchmarkOverheadArgs { iterations: 10_000, json: false }
    }
}

impl BenchmarkOverheadArgs {
    /// A duration of `d` nanoseconds with two decimals in its largest unit:
    /// `1.50s`, `2.00ms`, `3.25\u{b5}s`, or `500ns`.
    pub fn format_duration(d: &u64) -> (s: String)
        ensures
            s@ == human_duration(*d as nat, 2),
    {
        human_duration_text(*d, 2)
    }
}

} // verus!
