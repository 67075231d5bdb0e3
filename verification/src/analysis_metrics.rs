use vstd::prelude::*;
use crate::clock::now_nanos;
use crate::str_map::{StrMap, has_key, key_index, lookup, sorted_keys, lemma_lookup_at};
use crate::text::string_from;

verus! {

/// Counts of one type of analysis. Its processing rate follows from the points
/// and the time.
#[derive(Debug, Clone, Copy, PartialEq, Eq, Structural)]
pub struct AnalysisTypeStats {
    /// Number of operations.
    pub operations: u64,
    /// Points processed.
    pub points: u64,
    /// Time spent, in nanoseconds.
    pub time_ns: u64,
}

/// Counts of analysis runs.
#[derive(Debug)]
pub struct AnalysisRunMetrics {
    /// Number of percentile computations.
    pub percentile_computations: u64,
    /// Number of rolling window operations.
    pub rolling_window_ops: u64,
    /// Number of spike classifications.
    pub spike_classifications: u64,
    /// Points analyzed.
    pub total_points_analyzed: u64,
    /// Spikes identified.
    pub total_spikes_found: u64,
    /// Time spent in analysis, in nanoseconds.
    pub total_analysis_time_ns: u64,
    /// The counts of each type of analysis, by name.
    pub by_type: StrMap<AnalysisTypeStats>,
    /// When the last analysis was recorded, in nanoseconds since the Unix epoch.
    pub last_analysis_at: u64,
}

/// The stats of a type after one more operation over `points` taking `elapsed_ns`.
pub open spec fn stats_after(old: Option<AnalysisTypeStats>, points: u64, elapsed_ns: u64) -> AnalysisTypeStats {
    match old {
        Some(s) => AnalysisTypeStats {
            operations: (s.operations + 1) as u64,
            points: (s.points + points) as u64,
            time_ns: (s.time_ns + elapsed_ns) as u64,
        },
        None => AnalysisTypeStats { operations: 1, points, time_ns: elapsed_ns },
    }
}

/// One more operation fits in the stats of a type.
pub open spec fn stats_room(old: Option<AnalysisTypeStats>, points: u64, elapsed_ns: u64) -> bool {
    match old {
        Some(s) => s.operations < u64::MAX && s.points + points <= u64::MAX && s.time_ns + elapsed_ns
            <= u64::MAX,
        None => true,
    }
}

/// The stats of two collectors for one type, added up.
pub open spec fn stats_sum(a: Option<AnalysisTypeStats>, b: Option<AnalysisTypeStats>) -> Option<AnalysisTypeStats> {
    match (a, b) {
        (Some(x), Some(y)) => Some(
            AnalysisTypeStats {
                operations: (x.operations + y.operations) as u64,
                points: (x.points + y.points) as u64,
                time_ns: (x.time_ns + y.time_ns) as u64,
            },
        ),
        (Some(x), None) => Some(x),
        (None, Some(y)) => Some(y),
        (None, None) => None,
    }
}

/// The two stats add up without overflow.
pub open spec fn stats_sum_fits(a: Option<AnalysisTypeStats>, b: Option<AnalysisTypeStats>) -> bool {
    match (a, b) {
        (Some(x), Some(y)) => x.operations + y.operations <= u64::MAX && x.points + y.points
            <= u64::MAX && x.time_ns + y.time_ns <= u64::MAX,
        _ => true,
    }
}

/// The totals other than the type breakdown and the time of the last run.
pub open spec fn same_totals(a: &AnalysisRunMetrics, b: &AnalysisRunMetrics) -> bool {
    &&& a.percentile_computations == b.percentile_computations
    &&& a.rolling_window_ops == b.rolling_window_ops
    &&& a.spike_classifications == b.spike_classifications
    &&& a.total_points_analyzed == b.total_points_analyzed
    &&& a.total_spikes_found == b.total_spikes_found
    &&& a.total_analysis_time_ns == b.total_analysis_time_ns
}

/// The three operation counts add up without overflow.
pub open spec fn operations_fit(m: &AnalysisRunMetrics) -> bool {
    m.percentile_computations + m.rolling_window_ops + m.spike_classifications <= u64::MAX
}

/// The number of operations of all types.
pub open spec fn operations_total(m: &AnalysisRunMetrics) -> nat {
    (m.percentile_computations + m.rolling_window_ops + m.spike_classifications) as nat
}

impl AnalysisRunMetrics {
    /// Everything at zero.
    pub fn new() -> (m: Self)
        ensures
            m.percentile_computations == 0,
            m.rolling_window_ops == 0,
            m.spike_classifications == 0,
            m.total_points_analyzed == 0,
            m.total_spikes_found == 0,
            m.total_analysis_time_ns == 0,
            m.by_type@ == Seq::<(Seq<char>, AnalysisTypeStats)>::empty(),
            m.last_analysis_at == 0,
    {
        AnalysisRunMetrics {
            percentile_computations: 0,
            rolling_window_ops: 0,
            spike_classifications: 0,
            total_points_analyzed: 0,
            total_spikes_found: 0,
            total_analysis_time_ns: 0,
            by_type: StrMap::new(),
            last_analysis_at: 0,
        }
    }

    /// Adds one operation of type `name` to the breakdown.
    fn update_type_stats(&mut self, name: &str, points: u64, elapsed_ns: u64)
        requires
            stats_room(lookup(old(self).by_type@, name@), points, elapsed_ns),
        ensures
            lookup(final(self).by_type@, name@) == Some(
                stats_after(lookup(old(self).by_type@, name@), points, elapsed_ns),
            ),
            forall|k: Seq<char>| k != name@ ==> #[trigger] lookup(final(self).by_type@, k) == lookup(
                old(self).by_type@,
                k,
            ),
            same_totals(old(self), final(self)),
            final(self).last_analysis_at == old(self).last_analysis_at,
    {
        let updated = match self.by_type.get(name) {
            Some(s) => AnalysisTypeStats {
                operations: s.operations + 1,
                points: s.points + points,
                time_ns: s.time_ns + elapsed_ns,
            },
            None => AnalysisTypeStats { operations: 1, points, time_ns: elapsed_ns },
        };
        self.by_type.insert(string_from(name), updated);
    }

    /// Records a percentile computation over `points` points taking `elapsed_ns`.
    pub fn record_percentile(&mut self, points: u64, elapsed_ns: u64)
        requires
            old(self).percentile_computations < u64::MAX,
            old(self).total_points_analyzed + points <= u64::MAX,
            old(self).total_analysis_time_ns + elapsed_ns <= u64::MAX,
            stats_room(lookup(old(self).by_type@, "percentile"@), points, elapsed_ns),
        ensures
            final(self).percentile_computations == old(self).percentile_computations + 1,
            final(self).rolling_window_ops == old(self).rolling_window_ops,
            final(self).spike_classifications == old(self).spike_classifications,
            final(self).total_points_analyzed == old(self).total_points_analyzed + points,
            final(self).total_spikes_found == old(self).total_spikes_found,
            final(self).total_analysis_time_ns == old(self).total_analysis_time_ns + elapsed_ns,
            lookup(final(self).by_type@, "percentile"@) == Some(
                stats_after(lookup(old(self).by_type@, "percentile"@), points, elapsed_ns),
            ),
            forall|k: Seq<char>| k != "percentile"@ ==> #[trigger] lookup(final(self).by_type@, k)
                == lookup(old(self).by_type@, k),
    {
        self.percentile_computations = self.percentile_computations + 1;
        self.total_points_analyzed = self.total_points_analyzed + points;
        self.total_analysis_time_ns = self.total_analysis_time_ns + elapsed_ns;
        self.last_analysis_at = now_nanos();
        self.update_type_stats("percentile", points, elapsed_ns);
    }

    /// Records a rolling-window operation over `points` points taking `elapsed_ns`.
    pub fn record_rolling_window(&mut self, points: u64, elapsed_ns: u64)
        requires
            old(self).rolling_window_ops < u64::MAX,
            old(self).total_points_analyzed + points <= u64::MAX,
            old(self).total_analysis_time_ns + elapsed_ns <= u64::MAX,
            stats_room(lookup(old(self).by_type@, "rolling_window"@), points, elapsed_ns),
        ensures
            final(self).percentile_computations == old(self).percentile_computations,
            final(self).rolling_window_ops == old(self).rolling_window_ops + 1,
            final(self).spike_classifications == old(self).spike_classifications,
            final(self).total_points_analyzed == old(self).total_points_analyzed + points,
            final(self).total_spikes_found == old(self).total_spikes_found,
            final(self).total_analysis_time_ns == old(self).total_analysis_time_ns + elapsed_ns,
            lookup(final(self).by_type@, "rolling_window"@) == Some(
                stats_after(lookup(old(self).by_type@, "rolling_window"@), points, elapsed_ns),
            ),
            forall|k: Seq<char>| k != "rolling_window"@ ==> #[trigger] lookup(final(self).by_type@, k)
                == lookup(old(self).by_type@, k),
    {
        self.rolling_window_ops = self.rolling_window_ops + 1;
        self.total_points_analyzed = self.total_points_analyzed + points;
        self.total_analysis_time_ns = self.total_analysis_time_ns + elapsed_ns;
        self.last_analysis_at = now_nanos();
        self.update_type_stats("rolling_window", points, elapsed_ns);
    }

    /// Records a spike classification over `points` points that found `spikes`
    /// spikes, taking `elapsed_ns`.
    pub fn record_spike_classification(&mut self, points: u64, spikes: u64, elapsed_ns: u64)
        requires
            old(self).spike_classifications < u64::MAX,
            old(self).total_points_analyzed + points <= u64::MAX,
            old(self).total_spikes_found + spikes <= u64::MAX,
            old(self).total_analysis_time_ns + elapsed_ns <= u64::MAX,
            stats_room(lookup(old(self).by_type@, "spike_classifier"@), points, elapsed_ns),
        ensures
            final(self).percentile_computations == old(self).percentile_computations,
            final(self).rolling_window_ops == old(self).rolling_window_ops,
            final(self).spike_classifications == old(self).spike_classifications + 1,
            final(self).total_points_analyzed == old(self).total_points_analyzed + points,
            final(self).total_spikes_found == old(self).total_spikes_found + spikes,
            final(self).total_analysis_time_ns == old(self).total_analysis_time_ns + elapsed_ns,
            lookup(final(self).by_type@, "spike_classifier"@) == Some(
                stats_after(lookup(old(self).by_type@, "spike_classifier"@), points, elapsed_ns),
            ),
            forall|k: Seq<char>| k != "spike_classifier"@ ==> #[trigger] lookup(final(self).by_type@, k)
                == lookup(old(self).by_type@, k),
    {
        self.spike_classifications = self.spike_classifications + 1;
        self.total_points_analyzed = self.total_points_analyzed + points;
        self.total_spikes_found = self.total_spikes_found + spikes;
        self.total_analysis_time_ns = self.total_analysis_time_ns + elapsed_ns;
        self.last_analysis_at = now_nanos();
        self.update_type_stats("spike_classifier", points, elapsed_ns);
    }

    /// The number of operations of all types.
    pub fn total_operations(&self) -> (n: u64)
        requires
            operations_fit(self),
        ensures
            n == operations_total(self),
    {
        self.percentile_computations + self.rolling_window_ops + self.spike_classifications
    }

    /// The mean time per operation in nanoseconds, rounded down; zero before
    /// any operation.
    pub fn avg_time_per_op(&self) -> (d: u64)
        requires
            operations_fit(self),
        ensures
            d == (if operations_total(self) == 0 { 0 } else { self.total_analysis_time_ns as nat
                / operations_total(self) }),
    {
        let ops = self.total_operations();
        if ops == 0 {
            0
        } else {
            self.total_analysis_time_ns / ops
        }
    }

    /// Everything back to zero.
    pub fn reset(&mut self)
        ensures
            final(self).percentile_computations == 0,
            final(self).rolling_window_ops == 0,
            final(self).spike_classifications == 0,
            final(self).total_points_analyzed == 0,
            final(self).total_spikes_found == 0,
            final(self).total_analysis_time_ns == 0,
            final(self).by_type@ == Seq::<(Seq<char>, AnalysisTypeStats)>::empty(),
            final(self).last_analysis_at == 0,
    {
        self.percentile_computations = 0;
        self.rolling_window_ops = 0;
        self.spike_classifications = 0;
        self.total_points_analyzed = 0;
        self.total_spikes_found = 0;
        self.total_analysis_time_ns = 0;
        self.by_type.clear();
        self.last_analysis_at = 0;
    }

    /// Adds the counts of `other` to these: every total, and the breakdown
    /// type by type; the time of the last run is the later one.
    pub fn merge(&mut self, other: &AnalysisRunMetrics)
        requires
            old(self).percentile_computations + other.percentile_computations <= u64::MAX,
            old(self).rolling_window_ops + other.rolling_window_ops <= u64::MAX,
            old(self).spike_classifications + other.spike_classifications <= u64::MAX,
            old(self).total_points_analyzed + other.total_points_analyzed <= u64::MAX,
            old(self).total_spikes_found + other.total_spikes_found <= u64::MAX,
            old(self).total_analysis_time_ns + other.total_analysis_time_ns <= u64::MAX,
            forall|k: Seq<char>| #[trigger]
                stats_sum_fits(lookup(old(self).by_type@, k), lookup(other.by_type@, k)),
        ensures
            final(self).percentile_computations == old(self).percentile_computations
                + other.percentile_computations,
            final(self).rolling_window_ops == old(self).rolling_window_ops + other.rolling_window_ops,
            final(self).spike_classifications == old(self).spike_classifications
                + other.spike_classifications,
            final(self).total_points_analyzed == old(self).total_points_analyzed
                + other.total_points_analyzed,
            final(self).total_spikes_found == old(self).total_spikes_found + other.total_spikes_found,
            final(self).total_analysis_time_ns == old(self).total_analysis_time_ns
                + other.total_analysis_time_ns,
            forall|k: Seq<char>| #[trigger] lookup(final(self).by_type@, k) == stats_sum(
                lookup(old(self).by_type@, k),
                lookup(other.by_type@, k),
            ),
            final(self).last_analysis_at == (if old(self).last_analysis_at >= other.last_analysis_at {
                old(self).last_analysis_at
            } else {
                other.last_analysis_at
            }),
    {
        proof {
            use_type_invariant(&other.by_type);
        }
        self.percentile_computations = self.percentile_computations + other.percentile_computations;
        self.rolling_window_ops = self.rolling_window_ops + other.rolling_window_ops;
        self.spike_classifications = self.spike_classifications + other.spike_classifications;
        self.total_points_analyzed = self.total_points_analyzed + other.total_points_analyzed;
        self.total_spikes_found = self.total_spikes_found + other.total_spikes_found;
        self.total_analysis_time_ns = self.total_analysis_time_ns + other.total_analysis_time_ns;
        let ghost mine = self.by_type@;
        let ghost theirs = other.by_type@;
        let n = other.by_type.len();
        let mut i: usize = 0;
        while i < n
            invariant
                n == theirs.len(),
                theirs == other.by_type@,
                sorted_keys(theirs),
                i <= n,
                forall|k: Seq<char>| #[trigger] stats_sum_fits(lookup(mine, k), lookup(theirs, k)),
                self.percentile_computations == old(self).percentile_computations + other.percentile_computations,
                self.rolling_window_ops == old(self).rolling_window_ops + other.rolling_window_ops,
                self.spike_classifications == old(self).spike_classifications + other.spike_classifications,
                self.total_points_analyzed == old(self).total_points_analyzed + other.total_points_analyzed,
                self.total_spikes_found == old(self).total_spikes_found + other.total_spikes_found,
                self.total_analysis_time_ns == old(self).total_analysis_time_ns + other.total_analysis_time_ns,
                self.last_analysis_at == old(self).last_analysis_at,
                forall|k: Seq<char>| #[trigger]
                    lookup(self.by_type@, k) == stats_sum(lookup(mine, k), lookup(theirs.take(i as int), k)),
            decreases n - i,
        {
            let name = other.by_type.key_at(i);
            let stats = *other.by_type.value_at(i);
            let ghost key = theirs[i as int].0;
            proof {
                lemma_lookup_at(theirs, i as int);
                lemma_lookup_prefix_push(theirs, i as int);
            }
            let combined = match self.by_type.get(name.as_str()) {
                Some(s) => {
                    proof {
                        assert(lookup(self.by_type@, key) == Some(*s));
                        lemma_lookup_prefix_absent(theirs, i as int);
                        assert(lookup(theirs.take(i as int), key) is None);
                        assert(stats_sum_fits(lookup(mine, key), lookup(theirs, key)));
                    }
                    AnalysisTypeStats {
                        operations: s.operations + stats.operations,
                        points: s.points + stats.points,
                        time_ns: s.time_ns + stats.time_ns,
                    }
                },
                None => stats,
            };
            proof {
                lemma_lookup_prefix_absent(theirs, i as int);
            }
            self.by_type.insert(string_from(name.as_str()), combined);
            i += 1;
        }
        assert(theirs.take(n as int) =~= theirs);
        if other.last_analysis_at > self.last_analysis_at {
            self.last_analysis_at = other.last_analysis_at;
        }
    }
}

/// In sorted entries, the key at `i` is not among the first `i` entries.
pub proof fn lemma_lookup_prefix_absent<V>(e: Seq<(Seq<char>, V)>, i: int)
    requires
        sorted_keys(e),
        0 <= i < e.len(),
    ensures
        lookup(e.take(i), e[i].0) is None,
{
    if has_key(e.take(i), e[i].0) {
        let j = key_index(e.take(i), e[i].0);
        assert(e.take(i)[j] == e[j]);
        crate::str_map::lemma_sorted_unique(e, j, i);
    }
}

/// Looking up in the first `i + 1` entries: the entry at `i` by its key, the
/// first `i` for any other key.
pub proof fn lemma_lookup_prefix_push<V>(e: Seq<(Seq<char>, V)>, i: int)
    requires
        sorted_keys(e),
        0 <= i < e.len(),
    ensures
        lookup(e.take(i + 1), e[i].0) == Some(e[i].1),
        forall|k: Seq<char>| k != e[i].0 ==> #[trigger] lookup(e.take(i + 1), k) == lookup(e.take(i), k),
{
    let t = e.take(i + 1);
    assert(sorted_keys(t)) by {
        assert forall|a: int, b: int| 0 <= a < b < t.len() implies crate::str_map::str_lt(
            #[trigger] t[a].0,
            #[trigger] t[b].0,
        ) by {
            assert(t[a] == e[a] && t[b] == e[b]);
        }
    }
    lemma_lookup_at(t, i);
    assert(t[i] == e[i]);
    assert forall|k: Seq<char>| k != e[i].0 implies #[trigger] lookup(e.take(i + 1), k) == lookup(e.take(i), k) by {
        let s = e.take(i);
        if has_key(s, k) {
            let a = key_index(s, k);
            assert(s[a] == t[a]);
            lemma_lookup_at(t, a);
            assert(sorted_keys(s)) by {
                assert forall|x: int, y: int| 0 <= x < y < s.len() implies crate::str_map::str_lt(
                    #[trigger] s[x].0,
                    #[trigger] s[y].0,
                ) by {
                    assert(s[x] == e[x] && s[y] == e[y]);
                }
            }
            lemma_lookup_at(s, a);
        }
        if has_key(t, k) {
            let b = key_index(t, k);
            assert(b != i);
            assert(s[b] == t[b]);
            assert(has_key(s, k));
        }
    }
}

impl Default for AnalysisRunMetrics {
    /// Everything at zero.
    fn default() -> (m: Self)
        ensures
            m.percentile_computations == 0,
            m.total_points_analyzed == 0,
            m.by_type@ == Seq::<(Seq<char>, AnalysisTypeStats)>::empty(),
    {
        AnalysisRunMetrics::new()
    }
}

} // verus!
