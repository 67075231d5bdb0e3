use vstd::prelude::*;
use crate::clock::now_nanos;
use crate::str_map::{StrMap, lookup, sorted_keys, lemma_lookup_at};
use crate::analysis_metrics::{lemma_lookup_prefix_absent, lemma_lookup_prefix_push};
use crate::text::string_from;

verus! {

/// Counts of one simulation scenario. Its average fee, a floating-point
/// running mean, is kept beside it by the caller.
#[derive(Debug, Clone, Copy, PartialEq, Eq, Structural)]
pub struct ScenarioStats {
    /// Number of runs.
    pub runs: u64,
    /// Points generated.
    pub points: u64,
    /// Spikes detected.
    pub spikes: u64,
    /// Smallest fee observed (`u64::MAX` before any run).
    pub min_fee: u64,
    /// Largest fee observed.
    pub max_fee: u64,
}

/// Counts of simulation runs.
#[derive(Debug)]
pub struct SimulationMetrics {
    /// Number of runs.
    pub total_runs: u64,
    /// Fee points generated.
    pub total_points: u64,
    /// Spikes detected.
    pub total_spikes: u64,
    /// Time spent simulating, in nanoseconds.
    pub total_simulation_time_ns: u64,
    /// The counts of each scenario, by name.
    pub by_scenario: StrMap<ScenarioStats>,
    /// When the last run was recorded, in nanoseconds since the Unix epoch.
    pub last_run_at: u64,
}

/// The smaller of two values.
pub open spec fn min_u64(a: u64, b: u64) -> u64 {
    if a <= b { a } else { b }
}

/// The larger of two values.
pub open spec fn max_u64(a: u64, b: u64) -> u64 {
    if a >= b { a } else { b }
}

/// The stats of a scenario after one more run.
pub open spec fn scenario_after(old: Option<ScenarioStats>, points: u64, spikes: u64, min_fee: u64, max_fee: u64) -> ScenarioStats {
    let s = match old {
        Some(s) => s,
        None => ScenarioStats { runs: 0, points: 0, spikes: 0, min_fee: u64::MAX, max_fee: 0 },
    };
    ScenarioStats {
        runs: (s.runs + 1) as u64,
        points: (s.points + points) as u64,
        spikes: (s.spikes + spikes) as u64,
        min_fee: min_u64(s.min_fee, min_fee),
        max_fee: max_u64(s.max_fee, max_fee),
    }
}

/// One more run fits in the stats of a scenario.
pub open spec fn scenario_room(old: Option<ScenarioStats>, points: u64, spikes: u64) -> bool {
    match old {
        Some(s) => s.runs < u64::MAX && s.points + points <= u64::MAX && s.spikes + spikes <= u64::MAX,
        None => true,
    }
}

/// The stats of two collectors for one scenario, combined.
pub open spec fn scenario_sum(a: Option<ScenarioStats>, b: Option<ScenarioStats>) -> Option<ScenarioStats> {
    match (a, b) {
        (Some(x), Some(y)) => Some(
            ScenarioStats {
                runs: (x.runs + y.runs) as u64,
                points: (x.points + y.points) as u64,
                spikes: (x.spikes + y.spikes) as u64,
                min_fee: min_u64(x.min_fee, y.min_fee),
                max_fee: max_u64(x.max_fee, y.max_fee),
            },
        ),
        (Some(x), None) => Some(x),
        (None, Some(y)) => Some(y),
        (None, None) => None,
    }
}

/// The two stats add up without overflow.
pub open spec fn scenario_sum_fits(a: Option<ScenarioStats>, b: Option<ScenarioStats>) -> bool {
    match (a, b) {
        (Some(x), Some(y)) => x.runs + y.runs <= u64::MAX && x.points + y.points <= u64::MAX
            && x.spikes + y.spikes <= u64::MAX,
        _ => true,
    }
}

impl SimulationMetrics {
    /// Everything at zero.
    pub fn new() -> (m: Self)
        ensures
            m.total_runs == 0,
            m.total_points == 0,
            m.total_spikes == 0,
            m.total_simulation_time_ns == 0,
            m.by_scenario@ == Seq::<(Seq<char>, ScenarioStats)>::empty(),
            m.last_run_at == 0,
    {
        SimulationMetrics {
            total_runs: 0,
            total_points: 0,
            total_spikes: 0,
            total_simulation_time_ns: 0,
            by_scenario: StrMap::new(),
            last_run_at: 0,
        }
    }

    /// Records a run of `scenario` that made `points` points with `spikes`
    /// spikes and fees from `min_fee` to `max_fee`, taking `elapsed_ns`.
    pub fn record_run(&mut self, scenario: &str, points: u64, spikes: u64, min_fee: u64, max_fee: u64, elapsed_ns: u64)
        requires
            old(self).total_runs < u64::MAX,
            old(self).total_points + points <= u64::MAX,
            old(self).total_spikes + spikes <= u64::MAX,
            old(self).total_simulation_time_ns + elapsed_ns <= u64::MAX,
            scenario_room(lookup(old(self).by_scenario@, scenario@), points, spikes),
        ensures
            final(self).total_runs == old(self).total_runs + 1,
            final(self).total_points == old(self).total_points + points,
            final(self).total_spikes == old(self).total_spikes + spikes,
            final(self).total_simulation_time_ns == old(self).total_simulation_time_ns + elapsed_ns,
            lookup(final(self).by_scenario@, scenario@) == Some(
                scenario_after(lookup(old(self).by_scenario@, scenario@), points, spikes, min_fee, max_fee),
            ),
            forall|k: Seq<char>| k != scenario@ ==> #[trigger] lookup(final(self).by_scenario@, k)
                == lookup(old(self).by_scenario@, k),
    {
        self.total_runs = self.total_runs + 1;
        self.total_points = self.total_points + points;
        self.total_spikes = self.total_spikes + spikes;
        self.total_simulation_time_ns = self.total_simulation_time_ns + elapsed_ns;
        self.last_run_at = now_nanos();
        let s = match self.by_scenario.get(scenario) {
            Some(s) => *s,
            None => ScenarioStats { runs: 0, points: 0, spikes: 0, min_fee: u64::MAX, max_fee: 0 },
        };
        let updated = ScenarioStats {
            runs: s.runs + 1,
            points: s.points + points,
            spikes: s.spikes + spikes,
            min_fee: if s.min_fee <= min_fee { s.min_fee } else { min_fee },
            max_fee: if s.max_fee >= max_fee { s.max_fee } else { max_fee },
        };
        self.by_scenario.insert(string_from(scenario), updated);
    }

    /// The mean simulation time per run in nanoseconds, rounded down; zero
    /// before any run.
    pub fn avg_time_per_run(&self) -> (d: u64)
        ensures
            d == (if self.total_runs == 0 { 0 } else { self.total_simulation_time_ns / self.total_runs }),
    {
        if self.total_runs == 0 {
            0
        } else {
            self.total_simulation_time_ns / self.total_runs
        }
    }

    /// Everything back to zero.
    pub fn reset(&mut self)
        ensures
            final(self).total_runs == 0,
            final(self).total_points == 0,
            final(self).total_spikes == 0,
            final(self).total_simulation_time_ns == 0,
            final(self).by_scenario@ == Seq::<(Seq<char>, ScenarioStats)>::empty(),
            final(self).last_run_at == 0,
    {
        self.total_runs = 0;
        self.total_points = 0;
        self.total_spikes = 0;
        self.total_simulation_time_ns = 0;
        self.by_scenario.clear();
        self.last_run_at = 0;
    }

    /// Adds the counts of `other` to these, scenario by scenario (fees by
    /// their minimum and maximum); the time of the last run is the later one.
    pub fn merge(&mut self, other: &SimulationMetrics)
        requires
            old(self).total_runs + other.total_runs <= u64::MAX,
            old(self).total_points + other.total_points <= u64::MAX,
            old(self).total_spikes + other.total_spikes <= u64::MAX,
            old(self).total_simulation_time_ns + other.total_simulation_time_ns <= u64::MAX,
            forall|k: Seq<char>| #[trigger]
                scenario_sum_fits(lookup(old(self).by_scenario@, k), lookup(other.by_scenario@, k)),
        ensures
            final(self).total_runs == old(self).total_runs + other.total_runs,
            final(self).total_points == old(self).total_points + other.total_points,
            final(self).total_spikes == old(self).total_spikes + other.total_spikes,
            final(self).total_simulation_time_ns == old(self).total_simulation_time_ns
                + other.total_simulation_time_ns,
            forall|k: Seq<char>| #[trigger] lookup(final(self).by_scenario@, k) == scenario_sum(
                lookup(old(self).by_scenario@, k),
                lookup(other.by_scenario@, k),
            ),
            final(self).last_run_at == max_u64(old(self).last_run_at, other.last_run_at),
    {
        proof {
            use_type_invariant(&other.by_scenario);
        }
        self.total_runs = self.total_runs + other.total_runs;
        self.total_points = self.total_points + other.total_points;
        self.total_spikes = self.total_spikes + other.total_spikes;
        self.total_simulation_time_ns = self.total_simulation_time_ns + other.total_simulation_time_ns;
        let ghost mine = self.by_scenario@;
        let ghost theirs = other.by_scenario@;
        let n = other.by_scenario.len();
        let mut i: usize = 0;
        while i < n
            invariant
                n == theirs.len(),
                theirs == other.by_scenario@,
                sorted_keys(theirs),
                i <= n,
                forall|k: Seq<char>| #[trigger] scenario_sum_fits(lookup(mine, k), lookup(theirs, k)),
                self.total_runs == old(self).total_runs + other.total_runs,
                self.total_points == old(self).total_points + other.total_points,
                self.total_spikes == old(self).total_spikes + other.total_spikes,
                self.total_simulation_time_ns == old(self).total_simulation_time_ns
                    + other.total_simulation_time_ns,
                self.last_run_at == old(self).last_run_at,
                forall|k: Seq<char>| #[trigger]
                    lookup(self.by_scenario@, k) == scenario_sum(lookup(mine, k), lookup(theirs.take(i as int), k)),
            decreases n - i,
        {
            let name = other.by_scenario.key_at(i);
            let stats = *other.by_scenario.value_at(i);
            let ghost key = theirs[i as int].0;
            proof {
                lemma_lookup_at(theirs, i as int);
                lemma_lookup_prefix_push(theirs, i as int);
                lemma_lookup_prefix_absent(theirs, i as int);
            }
            let combined = match self.by_scenario.get(name.as_str()) {
                Some(s) => {
                    proof {
                        assert(lookup(self.by_scenario@, key) == Some(*s));
                        assert(scenario_sum_fits(lookup(mine, key), lookup(theirs, key)));
                    }
                    ScenarioStats {
                        runs: s.runs + stats.runs,
                        points: s.points + stats.points,
                        spikes: s.spikes + stats.spikes,
                        min_fee: if s.min_fee <= stats.min_fee { s.min_fee } else { stats.min_fee },
                        max_fee: if s.max_fee >= stats.max_fee { s.max_fee } else { stats.max_fee },
                    }
                },
                None => stats,
            };
            self.by_scenario.insert(string_from(name.as_str()), combined);
            i += 1;
        }
        assert(theirs.take(n as int) =~= theirs);
        if other.last_run_at > self.last_run_at {
            self.last_run_at = other.last_run_at;
        }
    }
}

impl Default for SimulationMetrics {
    /// Everything at zero.
    fn default() -> (m: Self)
        ensures
            m.total_runs == 0,
            m.by_scenario@ == Seq::<(Seq<char>, ScenarioStats)>::empty(),
    {
        SimulationMetrics::new()
    }
}

} // verus!
