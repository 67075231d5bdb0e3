use vstd::prelude::*;
use std::collections::BTreeMap;
use crate::text::{chars_eq, chars_of, string_from};
use crate::str_map::{StrMap, lookup};

verus! {

broadcast use {vstd::std_specs::btree::group_btree_axioms, vstd::laws_cmp::group_laws_cmp};

/// A counter metric that can be incremented and read.
#[derive(Debug, Clone)]
pub struct Counter {
    name: String,
    value: u64,
}

impl Counter {
    /// The counter's name.
    pub closed spec fn label(&self) -> Seq<char> {
        self.name@
    }

    /// The counter's value.
    pub closed spec fn total(&self) -> u64 {
        self.value
    }

    /// A counter named `name` at zero.
    pub fn new(name: &str) -> (c: Self)
        ensures
            c.label() == name@,
            c.total() == 0,
    {
        Counter { name: string_from(name), value: 0 }
    }

    /// Adds `delta`.
    pub fn increment(&mut self, delta: u64)
        requires
            old(self).total() + delta <= u64::MAX,
        ensures
            final(self).total() == old(self).total() + delta,
            final(self).label() == old(self).label(),
    {
        self.value = self.value + delta;
    }

    /// The current value.
    pub fn value(&self) -> (v: u64)
        ensures
            v == self.total(),
    {
        self.value
    }

    /// The counter's name.
    pub fn name(&self) -> (n: &str)
        ensures
            n@ == self.label(),
    {
        self.name.as_str()
    }
}

/// How many of the values are at most `b`.
pub open spec fn count_at_most(s: Seq<u64>, b: u64) -> nat
    decreases s.len(),
{
    if s.len() == 0 {
        0
    } else {
        count_at_most(s.drop_last(), b) + if s.last() <= b { 1nat } else { 0nat }
    }
}

/// The sum of the values.
pub open spec fn sum_of(s: Seq<u64>) -> nat
    decreases s.len(),
{
    if s.len() == 0 {
        0
    } else {
        sum_of(s.drop_last()) + s.last() as nat
    }
}

/// `b` is one of the bucket bounds: 1, 5, 10, 50, 100, 500, 1000.
pub open spec fn is_bound(b: u64) -> bool {
    b == 1 || b == 5 || b == 10 || b == 50 || b == 100 || b == 500 || b == 1000
}

/// A histogram of observed values: their number, their sum, and for each bucket
/// bound how many were at most that bound.
pub struct Histogram {
    name: String,
    buckets: BTreeMap<u64, u64>,
    count: u64,
    sum: u64,
    observed: Ghost<Seq<u64>>,
}

/// Counts `value` in the bucket of `bound` when it is at most the bound.
fn bump(buckets: &mut BTreeMap<u64, u64>, bound: u64, value: u64)
    requires
        old(buckets)@.contains_key(bound),
        old(buckets)@[bound] < u64::MAX,
    ensures
        forall|k: u64| #[trigger] final(buckets)@.contains_key(k) <==> old(buckets)@.contains_key(k),
        forall|k: u64| k != bound && old(buckets)@.contains_key(k) ==> #[trigger] final(buckets)@[k] == old(buckets)@[k],
        final(buckets)@[bound] == old(buckets)@[bound] + if value <= bound { 1int } else { 0int },
{
    if value <= bound {
        let n: u64 = match buckets.get(&bound) {
            Some(c) => *c,
            None => 0,
        };
        buckets.insert(bound, n + 1);
    }
}

impl Histogram {
    /// The histogram's name.
    pub closed spec fn label(&self) -> Seq<char> {
        self.name@
    }

    /// The values observed so far, in order.
    pub closed spec fn history(&self) -> Seq<u64> {
        self.observed@
    }

    /// For each bucket bound, how many observations were at most that bound.
    pub closed spec fn bucket_counts(&self) -> Map<u64, u64> {
        self.buckets@
    }

    /// The counts agree with the observed values.
    pub closed spec fn wf(&self) -> bool {
        &&& forall|b: u64| #[trigger] self.buckets@.contains_key(b) <==> is_bound(b)
        &&& forall|b: u64| #[trigger] self.buckets@.contains_key(b) ==> self.buckets@[b] == count_at_most(self.observed@, b)
        &&& self.count == self.observed@.len()
        &&& self.sum == sum_of(self.observed@)
    }

    /// An empty histogram named `name`.
    pub fn new(name: &str) -> (h: Self)
        ensures
            h.wf(),
            h.label() == name@,
            h.history() == Seq::<u64>::empty(),
            forall|b: u64| #[trigger] h.bucket_counts().contains_key(b) <==> is_bound(b),
            forall|b: u64| #[trigger] h.bucket_counts().contains_key(b) ==> h.bucket_counts()[b] == 0,
    {
        let mut buckets: BTreeMap<u64, u64> = BTreeMap::new();
        buckets.insert(1, 0);
        buckets.insert(5, 0);
        buckets.insert(10, 0);
        buckets.insert(50, 0);
        buckets.insert(100, 0);
        buckets.insert(500, 0);
        buckets.insert(1000, 0);
        Histogram { name: string_from(name), buckets, count: 0, sum: 0, observed: Ghost(Seq::empty()) }
    }

    /// Records one observation.
    pub fn observe(&mut self, value: u64)
        requires
            old(self).wf(),
            old(self).history().len() < u64::MAX,
            sum_of(old(self).history()) + value <= u64::MAX,
        ensures
            final(self).wf(),
            final(self).history() == old(self).history().push(value),
            final(self).label() == old(self).label(),
            forall|b: u64| #[trigger] final(self).bucket_counts().contains_key(b) <==> is_bound(b),
            forall|b: u64| #[trigger] final(self).bucket_counts().contains_key(b) ==> final(self).bucket_counts()[b]
                == old(self).bucket_counts()[b] + if value <= b { 1int } else { 0int },
    {
        let ghost old_obs = self.observed@;
        let ghost new_obs = old_obs.push(value);
        assert(new_obs.drop_last() =~= old_obs);
        self.count = self.count + 1;
        self.sum = self.sum + value;
        self.observed = Ghost(new_obs);
        let ghost old_buckets = self.buckets@;
        assert forall|b: u64| is_bound(b) implies #[trigger] old_buckets[b] < u64::MAX by {
            assert(old_buckets.contains_key(b));
            lemma_count_at_most_len(old_obs, b);
        }
        assert(old_buckets[1] < u64::MAX && old_buckets[5] < u64::MAX && old_buckets[10] < u64::MAX
            && old_buckets[50] < u64::MAX && old_buckets[100] < u64::MAX && old_buckets[500] < u64::MAX
            && old_buckets[1000] < u64::MAX);
        bump(&mut self.buckets, 1, value);
        bump(&mut self.buckets, 5, value);
        bump(&mut self.buckets, 10, value);
        bump(&mut self.buckets, 50, value);
        bump(&mut self.buckets, 100, value);
        bump(&mut self.buckets, 500, value);
        bump(&mut self.buckets, 1000, value);
        assert forall|b: u64| #[trigger] self.buckets@.contains_key(b) implies self.buckets@[b] == count_at_most(new_obs, b) by {
            assert(old_buckets.contains_key(b));
            assert(count_at_most(new_obs, b) == count_at_most(old_obs, b) + if value <= b { 1nat } else { 0nat });
        }
    }

    /// The number of observations.
    pub fn count(&self) -> (n: u64)
        requires
            self.wf(),
        ensures
            n == self.history().len(),
    {
        self.count
    }

    /// The sum of the observations.
    pub fn sum(&self) -> (s: u64)
        requires
            self.wf(),
        ensures
            s == sum_of(self.history()),
    {
        self.sum
    }
}

proof fn lemma_count_at_most_len(s: Seq<u64>, b: u64)
    ensures
        count_at_most(s, b) <= s.len(),
    decreases s.len(),
{
    if s.len() > 0 {
        lemma_count_at_most_len(s.drop_last(), b);
    }
}

proof fn lemma_count_at_most_mono(s: Seq<u64>, a: u64, b: u64)
    requires
        a <= b,
    ensures
        count_at_most(s, a) <= count_at_most(s, b),
    decreases s.len(),
{
    if s.len() > 0 {
        lemma_count_at_most_mono(s.drop_last(), a, b);
    }
}

/// The buckets are those of the bounds 1, 5, 10, 50, 100, 500 and 1000, and
/// each counts the observations at most its bound.
pub proof fn law_buckets_count_observations(h: Histogram)
    requires
        h.wf(),
    ensures
        forall|b: u64| #[trigger] h.bucket_counts().contains_key(b) <==> is_bound(b),
        forall|b: u64| #[trigger] h.bucket_counts().contains_key(b) ==> h.bucket_counts()[b] == count_at_most(
            h.history(),
            b,
        ),
{
}

/// Each bucket counts the observations at most its bound: no bucket holds more
/// than all observations, and a bucket with a larger bound holds at least as many.
pub proof fn law_buckets_cumulative(h: Histogram)
    requires
        h.wf(),
    ensures
        forall|b: u64| #[trigger] h.bucket_counts().contains_key(b) ==> h.bucket_counts()[b] <= h.history().len(),
        forall|b1: u64, b2: u64|
            #[trigger] h.bucket_counts().contains_key(b1) && #[trigger] h.bucket_counts().contains_key(b2) && b1 <= b2
                ==> h.bucket_counts()[b1] <= h.bucket_counts()[b2],
{
    assert forall|b: u64| #[trigger] h.bucket_counts().contains_key(b) implies h.bucket_counts()[b] <= h.history().len() by {
        lemma_count_at_most_len(h.history(), b);
    }
    assert forall|b1: u64, b2: u64|
        #[trigger] h.bucket_counts().contains_key(b1) && #[trigger] h.bucket_counts().contains_key(b2) && b1 <= b2
            implies h.bucket_counts()[b1] <= h.bucket_counts()[b2] by {
        lemma_count_at_most_mono(h.history(), b1, b2);
    }
}

/// A gauge metric that holds a current value, an IEEE-754 double kept as its
/// bits (`f64::to_bits`); zero bits are `0.0`.
#[derive(Debug, Clone)]
pub struct Gauge {
    name: String,
    bits: u64,
}

impl Gauge {
    /// The gauge's name.
    pub closed spec fn label(&self) -> Seq<char> {
        self.name@
    }

    /// The bits of the gauge's value.
    pub closed spec fn reading(&self) -> u64 {
        self.bits
    }

    /// A gauge named `name` at `0.0`.
    pub fn new(name: &str) -> (g: Self)
        ensures
            g.label() == name@,
            g.reading() == 0,
    {
        Gauge { name: string_from(name), bits: 0 }
    }

    /// Sets the value, given by its bits.
    pub fn set_bits(&mut self, bits: u64)
        ensures
            final(self).reading() == bits,
            final(self).label() == old(self).label(),
    {
        self.bits = bits;
    }

    /// The bits of the current value.
    pub fn bits(&self) -> (b: u64)
        ensures
            b == self.reading(),
    {
        self.bits
    }

    /// The gauge's name.
    pub fn name(&self) -> (n: &str)
        ensures
            n@ == self.label(),
    {
        self.name.as_str()
    }
}

/// The index of the entry called `name` among `names`, if any.
pub open spec fn position(names: Seq<Seq<char>>, name: Seq<char>) -> Option<int> {
    if exists|i: int| 0 <= i < names.len() && names[i] == name {
        Some(choose|i: int| 0 <= i < names.len() && names[i] == name)
    } else {
        None
    }
}

/// No name occurs twice.
pub open spec fn distinct(names: Seq<Seq<char>>) -> bool {
    forall|i: int, j: int| 0 <= i < names.len() && 0 <= j < names.len() && i != j ==> names[i] != names[j]
}

/// The names of counters.
pub open spec fn counter_names(s: Seq<Counter>) -> Seq<Seq<char>> {
    s.map_values(|c: Counter| c.label())
}

/// The names of gauges.
pub open spec fn gauge_names(s: Seq<Gauge>) -> Seq<Seq<char>> {
    s.map_values(|g: Gauge| g.label())
}

/// The names of histograms.
pub open spec fn histogram_names(s: Seq<Histogram>) -> Seq<Seq<char>> {
    s.map_values(|h: Histogram| h.label())
}

/// Counters, gauges and histograms, each made on first use of its name.
pub struct MetricsCollector {
    counters: Vec<Counter>,
    gauges: Vec<Gauge>,
    histograms: Vec<Histogram>,
    collections: u64,
}

impl MetricsCollector {
    /// The counters, in the order they were made.
    pub closed spec fn counter_list(&self) -> Seq<Counter> {
        self.counters@
    }

    /// The gauges, in the order they were made.
    pub closed spec fn gauge_list(&self) -> Seq<Gauge> {
        self.gauges@
    }

    /// The histograms, in the order they were made.
    pub closed spec fn histogram_list(&self) -> Seq<Histogram> {
        self.histograms@
    }

    /// No two metrics of a kind share a name, and each histogram is well formed.
    pub open spec fn wf(&self) -> bool {
        &&& distinct(counter_names(self.counter_list()))
        &&& distinct(gauge_names(self.gauge_list()))
        &&& distinct(histogram_names(self.histogram_list()))
        &&& forall|i: int| 0 <= i < self.histogram_list().len() ==> (#[trigger] self.histogram_list()[i]).wf()
    }

    /// A collector with no metrics.
    pub fn new() -> (c: Self)
        ensures
            c.wf(),
            c.counter_list() == Seq::<Counter>::empty(),
            c.gauge_list() == Seq::<Gauge>::empty(),
            c.histogram_list() == Seq::<Histogram>::empty(),
    {
        MetricsCollector { counters: Vec::new(), gauges: Vec::new(), histograms: Vec::new(), collections: 0 }
    }
}

/// In names without repeats, the entry at `i` is the position of its name.
proof fn lemma_position_at(names: Seq<Seq<char>>, i: int)
    requires
        distinct(names),
        0 <= i < names.len(),
    ensures
        position(names, names[i]) == Some(i),
{
    let n = names[i];
    assert(exists|j: int| 0 <= j < names.len() && names[j] == n);
    let c = choose|j: int| 0 <= j < names.len() && names[j] == n;
    assert(c == i);
}

/// A name added at the end of names without repeats is found there, and the
/// other names where they were.
proof fn lemma_position_push(names: Seq<Seq<char>>, n: Seq<char>)
    requires
        distinct(names.push(n)),
    ensures
        position(names.push(n), n) == Some(names.len() as int),
        forall|k: Seq<char>| k != n ==> #[trigger] position(names.push(n), k) == position(names, k),
{
    let all = names.push(n);
    lemma_position_at(all, names.len() as int);
    assert forall|k: Seq<char>| k != n implies #[trigger] position(all, k) == position(names, k) by {
        if exists|j: int| 0 <= j < names.len() && names[j] == k {
            let j = choose|j: int| 0 <= j < names.len() && names[j] == k;
            assert(all[j] == k);
            lemma_position_at(all, j);
            assert(distinct(names)) by {
                assert forall|a: int, b: int| 0 <= a < names.len() && 0 <= b < names.len() && a != b implies names[a] != names[b] by {
                    assert(all[a] == names[a] && all[b] == names[b]);
                }
            }
            lemma_position_at(names, j);
        } else {
            if exists|j: int| 0 <= j < all.len() && all[j] == k {
                let j = choose|j: int| 0 <= j < all.len() && all[j] == k;
                if j < names.len() {
                    assert(names[j] == k);
                }
            }
        }
    }
}

/// A name absent from names stays distinct from them when added.
proof fn lemma_distinct_push(names: Seq<Seq<char>>, n: Seq<char>)
    requires
        distinct(names),
        position(names, n) is None,
    ensures
        distinct(names.push(n)),
{
    let all = names.push(n);
    assert forall|a: int, b: int| 0 <= a < all.len() && 0 <= b < all.len() && a != b implies all[a] != all[b] by {
        if a < names.len() && b < names.len() {
            assert(all[a] == names[a] && all[b] == names[b]);
        } else if a < names.len() {
            assert(all[a] == names[a]);
        } else {
            assert(all[b] == names[b]);
        }
    }
}

fn find_counter(counters: &Vec<Counter>, name: &str) -> (r: Option<usize>)
    requires
        distinct(counter_names(counters@)),
    ensures
        match r {
            Some(i) => i < counters@.len() && position(counter_names(counters@), name@) == Some(i as int),
            None => position(counter_names(counters@), name@) is None,
        },
{
    let ghost names = counter_names(counters@);
    let key = chars_of(name);
    let mut i: usize = 0;
    while i < counters.len()
        invariant
            i <= counters@.len(),
            names == counter_names(counters@),
            distinct(names),
            key@ == name@,
            forall|j: int| 0 <= j < i ==> names[j] != name@,
        decreases counters.len() - i,
    {
        let here = chars_of(counters[i].name());
        if chars_eq(&here, &key) {
            proof {
                lemma_position_at(names, i as int);
            }
            return Some(i);
        }
        i += 1;
    }
    None
}

fn find_gauge(gauges: &Vec<Gauge>, name: &str) -> (r: Option<usize>)
    requires
        distinct(gauge_names(gauges@)),
    ensures
        match r {
            Some(i) => i < gauges@.len() && position(gauge_names(gauges@), name@) == Some(i as int),
            None => position(gauge_names(gauges@), name@) is None,
        },
{
    let ghost names = gauge_names(gauges@);
    let key = chars_of(name);
    let mut i: usize = 0;
    while i < gauges.len()
        invariant
            i <= gauges@.len(),
            names == gauge_names(gauges@),
            distinct(names),
            key@ == name@,
            forall|j: int| 0 <= j < i ==> names[j] != name@,
        decreases gauges.len() - i,
    {
        let here = chars_of(gauges[i].name());
        if chars_eq(&here, &key) {
            proof {
                lemma_position_at(names, i as int);
            }
            return Some(i);
        }
        i += 1;
    }
    None
}

fn find_histogram(histograms: &Vec<Histogram>, name: &str) -> (r: Option<usize>)
    requires
        distinct(histogram_names(histograms@)),
    ensures
        match r {
            Some(i) => i < histograms@.len() && position(histogram_names(histograms@), name@) == Some(i as int),
            None => position(histogram_names(histograms@), name@) is None,
        },
{
    let ghost names = histogram_names(histograms@);
    let key = chars_of(name);
    let mut i: usize = 0;
    while i < histograms.len()
        invariant
            i <= histograms@.len(),
            names == histogram_names(histograms@),
            distinct(names),
            key@ == name@,
            forall|j: int| 0 <= j < i ==> names[j] != name@,
        decreases histograms.len() - i,
    {
        let here = chars_of(histograms[i].name.as_str());
        if chars_eq(&here, &key) {
            proof {
                lemma_position_at(names, i as int);
            }
            return Some(i);
        }
        i += 1;
    }
    None
}

impl MetricsCollector {
    /// The counter named `name`, made at zero if there is none yet.
    pub fn counter(&mut self, name: &str) -> (c: &mut Counter)
        requires
            old(self).wf(),
        ensures
            c.label() == name@,
            match position(counter_names(old(self).counter_list()), name@) {
                Some(i) => *c == old(self).counter_list()[i] && final(self).counter_list()
                    == old(self).counter_list().update(i, *final(c)),
                None => c.total() == 0 && final(self).counter_list() == old(self).counter_list().push(
                    *final(c),
                ),
            },
            final(self).gauge_list() == old(self).gauge_list(),
            final(self).histogram_list() == old(self).histogram_list(),
            final(c).label() == name@ ==> final(self).wf(),
    {
        self.collections = self.collections.wrapping_add(1);
        let ghost names = counter_names(self.counters@);
        let i = match find_counter(&self.counters, name) {
            Some(i) => i,
            None => {
                proof {
                    lemma_distinct_push(names, name@);
                }
                self.counters.push(Counter::new(name));
                assert(counter_names(self.counters@) =~= names.push(name@));
                self.counters.len() - 1
            },
        };
        let ghost before = self.counters@;
        let c = &mut self.counters[i];
        proof {
            assert(final(c).label() == name@ ==> counter_names(before.update(i as int, *final(c))) =~= counter_names(before));
        }
        c
    }

    /// The gauge named `name`, made at `0.0` if there is none yet.
    pub fn gauge(&mut self, name: &str) -> (g: &mut Gauge)
        requires
            old(self).wf(),
        ensures
            g.label() == name@,
            match position(gauge_names(old(self).gauge_list()), name@) {
                Some(i) => *g == old(self).gauge_list()[i] && final(self).gauge_list()
                    == old(self).gauge_list().update(i, *final(g)),
                None => g.reading() == 0 && final(self).gauge_list() == old(self).gauge_list().push(
                    *final(g),
                ),
            },
            final(self).counter_list() == old(self).counter_list(),
            final(self).histogram_list() == old(self).histogram_list(),
            final(g).label() == name@ ==> final(self).wf(),
    {
        self.collections = self.collections.wrapping_add(1);
        let ghost names = gauge_names(self.gauges@);
        let i = match find_gauge(&self.gauges, name) {
            Some(i) => i,
            None => {
                proof {
                    lemma_distinct_push(names, name@);
                }
                self.gauges.push(Gauge::new(name));
                assert(gauge_names(self.gauges@) =~= names.push(name@));
                self.gauges.len() - 1
            },
        };
        let ghost before = self.gauges@;
        let g = &mut self.gauges[i];
        proof {
            assert(final(g).label() == name@ ==> gauge_names(before.update(i as int, *final(g))) =~= gauge_names(before));
        }
        g
    }

    /// The histogram named `name`, made empty if there is none yet.
    pub fn histogram(&mut self, name: &str) -> (h: &mut Histogram)
        requires
            old(self).wf(),
        ensures
            h.label() == name@,
            h.wf(),
            match position(histogram_names(old(self).histogram_list()), name@) {
                Some(i) => *h == old(self).histogram_list()[i] && final(self).histogram_list()
                    == old(self).histogram_list().update(i, *final(h)),
                None => h.history() == Seq::<u64>::empty() && final(self).histogram_list()
                    == old(self).histogram_list().push(*final(h)),
            },
            final(self).counter_list() == old(self).counter_list(),
            final(self).gauge_list() == old(self).gauge_list(),
            final(h).label() == name@ && final(h).wf() ==> final(self).wf(),
    {
        self.collections = self.collections.wrapping_add(1);
        let ghost names = histogram_names(self.histograms@);
        let i = match find_histogram(&self.histograms, name) {
            Some(i) => i,
            None => {
                proof {
                    lemma_distinct_push(names, name@);
                }
                self.histograms.push(Histogram::new(name));
                assert(histogram_names(self.histograms@) =~= names.push(name@));
                self.histograms.len() - 1
            },
        };
        let ghost before = self.histograms@;
        assert(before[i as int].wf());
        let h = &mut self.histograms[i];
        proof {
            assert(final(h).label() == name@ ==> histogram_names(before.update(i as int, *final(h))) =~= histogram_names(before));
        }
        h
    }

    /// The number of metrics of all kinds.
    pub fn metric_count(&self) -> (n: usize)
        requires
            self.counter_list().len() + self.gauge_list().len() + self.histogram_list().len() <= usize::MAX,
        ensures
            n == self.counter_list().len() + self.gauge_list().len() + self.histogram_list().len(),
    {
        self.counters.len() + self.gauges.len() + self.histograms.len()
    }

    /// Removes every metric.
    pub fn reset(&mut self)
        ensures
            final(self).wf(),
            final(self).counter_list() == Seq::<Counter>::empty(),
            final(self).gauge_list() == Seq::<Gauge>::empty(),
            final(self).histogram_list() == Seq::<Histogram>::empty(),
    {
        self.counters = Vec::new();
        self.gauges = Vec::new();
        self.histograms = Vec::new();
    }

    /// Each counter's value under its name, in name order.
    pub fn snapshot_counters(&self) -> (r: StrMap<u64>)
        requires
            self.wf(),
        ensures
            forall|k: Seq<char>| #[trigger] lookup(r@, k) == (
            match position(counter_names(self.counter_list()), k) {
                Some(i) => Some(self.counter_list()[i].total()),
                None => None,
            }),
    {
        let ghost all = self.counters@;
        let ghost names = counter_names(all);
        let mut r: StrMap<u64> = StrMap::new();
        let mut i: usize = 0;
        while i < self.counters.len()
            invariant
                i <= all.len(),
                all == self.counters@,
                names == counter_names(all),
                distinct(names),
                forall|k: Seq<char>| #[trigger] lookup(r@, k) == (
                match position(names.take(i as int), k) {
                    Some(j) => Some(all[j].total()),
                    None => None,
                }),
            decreases all.len() - i,
        {
            let c = &self.counters[i];
            proof {
                assert(names.take(i + 1) =~= names.take(i as int).push(names[i as int]));
                lemma_distinct_take(names, i + 1);
                lemma_position_push(names.take(i as int), names[i as int]);
            }
            r.insert(string_from(c.name()), c.value());
            i += 1;
        }
        assert(names.take(all.len() as int) =~= names);
        r
    }

    /// Each gauge's value bits under its name, in name order.
    pub fn snapshot_gauges(&self) -> (r: StrMap<u64>)
        requires
            self.wf(),
        ensures
            forall|k: Seq<char>| #[trigger] lookup(r@, k) == (
            match position(gauge_names(self.gauge_list()), k) {
                Some(i) => Some(self.gauge_list()[i].reading()),
                None => None,
            }),
    {
        let ghost all = self.gauges@;
        let ghost names = gauge_names(all);
        let mut r: StrMap<u64> = StrMap::new();
        let mut i: usize = 0;
        while i < self.gauges.len()
            invariant
                i <= all.len(),
                all == self.gauges@,
                names == gauge_names(all),
                distinct(names),
                forall|k: Seq<char>| #[trigger] lookup(r@, k) == (
                match position(names.take(i as int), k) {
                    Some(j) => Some(all[j].reading()),
                    None => None,
                }),
            decreases all.len() - i,
        {
            let g = &self.gauges[i];
            proof {
                assert(names.take(i + 1) =~= names.take(i as int).push(names[i as int]));
                lemma_distinct_take(names, i + 1);
                lemma_position_push(names.take(i as int), names[i as int]);
            }
            r.insert(string_from(g.name()), g.bits());
            i += 1;
        }
        assert(names.take(all.len() as int) =~= names);
        r
    }
}

impl Default for MetricsCollector {
    /// A collector with no metrics.
    fn default() -> (c: Self)
        ensures
            c.wf(),
            c.counter_list() == Seq::<Counter>::empty(),
            c.gauge_list() == Seq::<Gauge>::empty(),
            c.histogram_list() == Seq::<Histogram>::empty(),
    {
        MetricsCollector::new()
    }
}

/// A prefix of names without repeats has none.
proof fn lemma_distinct_take(names: Seq<Seq<char>>, n: int)
    requires
        distinct(names),
        0 <= n <= names.len(),
    ensures
        distinct(names.take(n)),
{
    let t = names.take(n);
    assert forall|a: int, b: int| 0 <= a < t.len() && 0 <= b < t.len() && a != b implies t[a] != t[b] by {
        assert(t[a] == names[a] && t[b] == names[b]);
    }
}

} // verus!
