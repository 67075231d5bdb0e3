use vstd::prelude::*;
use crate::fee_point::FeePoint;

verus! {

/// The smallest fee, zero for no points.
pub open spec fn min_fee_of(s: Seq<FeePoint>) -> u64
    decreases s.len(),
{
    if s.len() == 0 {
        0
    } else if s.len() == 1 {
        s[0].fee
    } else {
        let m = min_fee_of(s.drop_last());
        if s.last().fee < m { s.last().fee } else { m }
    }
}

/// The largest fee, zero for no points.
pub open spec fn max_fee_of(s: Seq<FeePoint>) -> u64
    decreases s.len(),
{
    if s.len() == 0 {
        0
    } else {
        let m = max_fee_of(s.drop_last());
        if s.last().fee > m { s.last().fee } else { m }
    }
}

/// `m` is the smallest fee of `s`: some point has it and none has less.
pub open spec fn is_least_fee(s: Seq<FeePoint>, m: u64) -> bool {
    &&& exists|i: int| 0 <= i < s.len() && (#[trigger] s[i]).fee == m
    &&& forall|i: int| 0 <= i < s.len() ==> m <= (#[trigger] s[i]).fee
}

/// `m` is the largest fee of `s`: some point has it and none has more.
pub open spec fn is_greatest_fee(s: Seq<FeePoint>, m: u64) -> bool {
    &&& exists|i: int| 0 <= i < s.len() && (#[trigger] s[i]).fee == m
    &&& forall|i: int| 0 <= i < s.len() ==> (#[trigger] s[i]).fee <= m
}

/// The smallest fee of a nonempty series is the fee of one of its points, and
/// no point has a smaller fee; no points give zero.
pub proof fn law_min_fee_is_least(s: Seq<FeePoint>)
    ensures
        s.len() > 0 ==> is_least_fee(s, min_fee_of(s)),
        s.len() == 0 ==> min_fee_of(s) == 0,
    decreases s.len(),
{
    if s.len() > 1 {
        law_min_fee_is_least(s.drop_last());
        let m = min_fee_of(s.drop_last());
        let j = choose|j: int| 0 <= j < s.drop_last().len() && (#[trigger] s.drop_last()[j]).fee == m;
        assert(s[j] == s.drop_last()[j]);
        assert(s[s.len() - 1] == s.last());
        assert forall|k: int| 0 <= k < s.len() implies min_fee_of(s) <= (#[trigger] s[k]).fee by {
            if k < s.len() - 1 {
                assert(s[k] == s.drop_last()[k]);
            }
        }
    }
}

/// The largest fee of a nonempty series is the fee of one of its points, and
/// no point has a larger fee; no points give zero.
pub proof fn law_max_fee_is_greatest(s: Seq<FeePoint>)
    ensures
        s.len() > 0 ==> is_greatest_fee(s, max_fee_of(s)),
        s.len() == 0 ==> max_fee_of(s) == 0,
    decreases s.len(),
{
    if s.len() > 1 {
        law_max_fee_is_greatest(s.drop_last());
        let m = max_fee_of(s.drop_last());
        let j = choose|j: int| 0 <= j < s.drop_last().len() && (#[trigger] s.drop_last()[j]).fee == m;
        assert(s[j] == s.drop_last()[j]);
        assert(s[s.len() - 1] == s.last());
        assert forall|k: int| 0 <= k < s.len() implies (#[trigger] s[k]).fee <= max_fee_of(s) by {
            if k < s.len() - 1 {
                assert(s[k] == s.drop_last()[k]);
            }
        }
    } else if s.len() == 1 {
        assert(s[0] == s.last());
        assert(max_fee_of(s.drop_last()) == 0);
    }
}

/// The smallest fee of the points, zero for none.
pub fn fee_min(points: &[FeePoint]) -> (m: u64)
    ensures
        m == min_fee_of(points@),
        points@.len() > 0 ==> is_least_fee(points@, m),
        points@.len() == 0 ==> m == 0,
{
    proof {
        law_min_fee_is_least(points@);
    }
    let mut m: u64 = 0;
    let mut i: usize = 0;
    while i < points.len()
        invariant
            i <= points@.len(),
            m == min_fee_of(points@.take(i as int)),
        decreases points.len() - i,
    {
        assert(points@.take(i + 1).drop_last() =~= points@.take(i as int));
        if i == 0 || points[i].fee < m {
            m = points[i].fee;
        }
        i += 1;
    }
    assert(points@.take(i as int) =~= points@);
    m
}

/// The largest fee of the points, zero for none.
pub fn fee_max(points: &[FeePoint]) -> (m: u64)
    ensures
        m == max_fee_of(points@),
        points@.len() > 0 ==> is_greatest_fee(points@, m),
        points@.len() == 0 ==> m == 0,
{
    proof {
        law_max_fee_is_greatest(points@);
    }
    let mut m: u64 = 0;
    let mut i: usize = 0;
    while i < points.len()
        invariant
            i <= points@.len(),
            m == max_fee_of(points@.take(i as int)),
        decreases points.len() - i,
    {
        assert(points@.take(i + 1).drop_last() =~= points@.take(i as int));
        if points[i].fee > m {
            m = points[i].fee;
        }
        i += 1;
    }
    assert(points@.take(i as int) =~= points@);
    m
}

/// How many points have a fee below `f`.
pub open spec fn count_below(s: Seq<FeePoint>, f: u64) -> nat
    decreases s.len(),
{
    if s.len() == 0 {
        0
    } else {
        count_below(s.drop_last(), f) + if s.last().fee < f { 1nat } else { 0nat }
    }
}

/// How many points have a fee of at most `f`.
pub open spec fn count_upto(s: Seq<FeePoint>, f: u64) -> nat
    decreases s.len(),
{
    if s.len() == 0 {
        0
    } else {
        count_upto(s.drop_last(), f) + if s.last().fee <= f { 1nat } else { 0nat }
    }
}

/// `m` is the fee at index `rank` of the fees sorted in increasing order: at
/// most `rank` fees are below it, and more than `rank` are at most it.
pub open spec fn is_rank_fee(s: Seq<FeePoint>, rank: int, m: u64) -> bool {
    &&& exists|i: int| 0 <= i < s.len() && (#[trigger] s[i]).fee == m
    &&& count_below(s, m) <= rank
    &&& rank < count_upto(s, m)
}

fn count_fees(points: &[FeePoint], f: u64) -> (r: (usize, usize))
    ensures
        r.0 == count_below(points@, f),
        r.1 == count_upto(points@, f),
{
    let mut below: usize = 0;
    let mut upto: usize = 0;
    let mut i: usize = 0;
    while i < points.len()
        invariant
            i <= points@.len(),
            below == count_below(points@.take(i as int), f),
            upto == count_upto(points@.take(i as int), f),
            below <= i && upto <= i,
        decreases points.len() - i,
    {
        assert(points@.take(i + 1).drop_last() =~= points@.take(i as int));
        if points[i].fee < f {
            below += 1;
        }
        if points[i].fee <= f {
            upto += 1;
        }
        i += 1;
    }
    assert(points@.take(i as int) =~= points@);
    (below, upto)
}

proof fn lemma_count_below_upto(s: Seq<FeePoint>, f: u64, g: u64)
    requires
        f < g,
    ensures
        count_upto(s, f) <= count_below(s, g),
    decreases s.len(),
{
    if s.len() > 0 {
        lemma_count_below_upto(s.drop_last(), f, g);
    }
}

proof fn lemma_count_below_le_upto(s: Seq<FeePoint>, f: u64)
    ensures
        count_below(s, f) <= count_upto(s, f),
        count_upto(s, f) <= s.len(),
    decreases s.len(),
{
    if s.len() > 0 {
        lemma_count_below_le_upto(s.drop_last(), f);
    }
}

proof fn lemma_count_upto_all(s: Seq<FeePoint>, f: u64)
    requires
        forall|i: int| 0 <= i < s.len() ==> (#[trigger] s[i]).fee <= f,
    ensures
        count_upto(s, f) == s.len(),
    decreases s.len(),
{
    if s.len() > 0 {
        assert forall|i: int| 0 <= i < s.drop_last().len() implies (#[trigger] s.drop_last()[i]).fee <= f by {
            assert(s.drop_last()[i] == s[i]);
        }
        lemma_count_upto_all(s.drop_last(), f);
    }
}

/// The fee at index `rank` of the fees in increasing order.
pub fn fee_rank(points: &[FeePoint], rank: usize) -> (m: u64)
    requires
        rank < points@.len(),
    ensures
        is_rank_fee(points@, rank as int, m),
{
    let half = rank;
    let mut best: Option<u64> = None;
    let mut i: usize = 0;
    // The smallest fee `f` with more than `half` fees at most `f`.
    while i < points.len()
        invariant
            i <= points@.len(),
            half == rank,
            rank < points@.len(),
            best matches Some(b) ==> (exists|j: int| 0 <= j < points@.len() && (#[trigger] points@[j]).fee == b)
                && half < count_upto(points@, b),
            forall|j: int| 0 <= j < i && half < count_upto(points@, (#[trigger] points@[j]).fee) ==> (best
                matches Some(b) && b <= points@[j].fee),
        decreases points.len() - i,
    {
        let f = points[i].fee;
        let (_below, upto) = count_fees(points, f);
        if upto > half {
            match best {
                Some(b) => {
                    if f < b {
                        best = Some(f);
                    }
                },
                None => {
                    best = Some(f);
                },
            }
        }
        i += 1;
    }
    let ghost mx = max_fee_of(points@);
    proof {
        law_max_fee_is_greatest(points@);
        let j = choose|j: int| 0 <= j < points@.len() && (#[trigger] points@[j]).fee == mx;
        lemma_count_upto_all(points@, mx);
        assert(half < count_upto(points@, points@[j].fee));
    }
    let b = match best {
        Some(b) => b,
        None => 0,
    };
    proof {
        let jb = choose|j: int| 0 <= j < points@.len() && (#[trigger] points@[j]).fee == b;
        // every fee below `b` has at most `half` fees at most it
        if count_below(points@, b) > half {
            let f = max_below(points@, b);
            lemma_max_below_upto(points@, b);
            let jf = choose|j: int| 0 <= j < points@.len() && (#[trigger] points@[j]).fee == f;
            assert(half < count_upto(points@, points@[jf].fee));
        }
    }
    b
}

/// The median fee: the fee at index `len / 2` of the fees in increasing
/// order; zero for no points.
pub fn fee_median(points: &[FeePoint]) -> (m: u64)
    ensures
        points@.len() == 0 ==> m == 0,
        points@.len() > 0 ==> is_rank_fee(points@, (points@.len() / 2) as int, m),
{
    if points.len() == 0 {
        return 0;
    }
    fee_rank(points, points.len() / 2)
}

/// The largest fee below `b`, when some fee is below it.
spec fn max_below(s: Seq<FeePoint>, b: u64) -> u64
    decreases s.len(),
{
    if s.len() == 0 {
        0
    } else {
        let m = max_below(s.drop_last(), b);
        if s.last().fee < b && (count_below(s.drop_last(), b) == 0 || s.last().fee > m) {
            s.last().fee
        } else {
            m
        }
    }
}

proof fn lemma_max_below_upto(s: Seq<FeePoint>, b: u64)
    requires
        count_below(s, b) > 0,
    ensures
        max_below(s, b) < b,
        exists|j: int| 0 <= j < s.len() && (#[trigger] s[j]).fee == max_below(s, b),
        count_upto(s, max_below(s, b)) == count_below(s, b),
    decreases s.len(),
{
    let t = s.drop_last();
    let m = max_below(s, b);
    if count_below(t, b) > 0 {
        lemma_max_below_upto(t, b);
        let j = choose|j: int| 0 <= j < t.len() && (#[trigger] t[j]).fee == max_below(t, b);
        assert(s[j] == t[j]);
        if s.last().fee < b && s.last().fee > max_below(t, b) {
            assert(s[s.len() - 1] == s.last());
            lemma_count_between(t, max_below(t, b), s.last().fee, b);
        } else {
            assert(count_upto(s, m) == count_upto(t, m) + if s.last().fee <= m { 1nat } else { 0nat });
        }
    } else {
        assert(s[s.len() - 1] == s.last());
        lemma_count_none_below(t, b, s.last().fee);
    }
}

proof fn lemma_count_none_below(t: Seq<FeePoint>, b: u64, f: u64)
    requires
        count_below(t, b) == 0,
        f < b,
    ensures
        count_upto(t, f) == 0,
    decreases t.len(),
{
    if t.len() > 0 {
        lemma_count_none_below(t.drop_last(), b, f);
    }
}

proof fn lemma_count_between(t: Seq<FeePoint>, m: u64, f: u64, b: u64)
    requires
        m < f < b,
        count_upto(t, m) == count_below(t, b),
    ensures
        count_upto(t, f) == count_below(t, b),
    decreases t.len(),
{
    lemma_count_below_upto(t, m, f);
    lemma_count_below_upto(t, f, b);
    lemma_count_below_le_upto(t, f);
    lemma_count_below_le_upto(t, m);
}

/// How many points are spikes.
pub open spec fn spike_total(s: Seq<FeePoint>) -> nat
    decreases s.len(),
{
    if s.len() == 0 {
        0
    } else {
        spike_total(s.drop_last()) + if s.last().is_spike { 1nat } else { 0nat }
    }
}

/// The spike count of a series is the number of its points marked as spikes:
/// the length of the series kept to its spikes.
pub proof fn law_spike_total_counts_spikes(s: Seq<FeePoint>)
    ensures
        spike_total(s) == s.filter(|p: FeePoint| p.is_spike).len(),
    decreases s.len(),
{
    reveal(Seq::filter);
    if s.len() > 0 {
        law_spike_total_counts_spikes(s.drop_last());
    }
}

/// The number of fees below `f` is the length of the series kept to those
/// points, and the number at most `f` likewise.
pub proof fn law_counts_are_filter_lengths(s: Seq<FeePoint>, f: u64)
    ensures
        count_below(s, f) == s.filter(|p: FeePoint| p.fee < f).len(),
        count_upto(s, f) == s.filter(|p: FeePoint| p.fee <= f).len(),
    decreases s.len(),
{
    reveal(Seq::filter);
    if s.len() > 0 {
        law_counts_are_filter_lengths(s.drop_last(), f);
    }
}

/// The number of spike points.
pub fn spike_count(points: &[FeePoint]) -> (n: usize)
    ensures
        n == spike_total(points@),
        n == points@.filter(|p: FeePoint| p.is_spike).len(),
{
    proof {
        law_spike_total_counts_spikes(points@);
    }
    let mut n: usize = 0;
    let mut i: usize = 0;
    while i < points.len()
        invariant
            i <= points@.len(),
            n == spike_total(points@.take(i as int)),
            n <= i,
        decreases points.len() - i,
    {
        assert(points@.take(i + 1).drop_last() =~= points@.take(i as int));
        if points[i].is_spike {
            n += 1;
        }
        i += 1;
    }
    assert(points@.take(i as int) =~= points@);
    n
}

/// The earliest timestamp, zero for no points.
pub open spec fn min_time_of(s: Seq<FeePoint>) -> u64
    decreases s.len(),
{
    if s.len() == 0 {
        0
    } else if s.len() == 1 {
        s[0].timestamp
    } else {
        let m = min_time_of(s.drop_last());
        if s.last().timestamp < m { s.last().timestamp } else { m }
    }
}

/// The latest timestamp, zero for no points.
pub open spec fn max_time_of(s: Seq<FeePoint>) -> u64
    decreases s.len(),
{
    if s.len() == 0 {
        0
    } else {
        let m = max_time_of(s.drop_last());
        if s.last().timestamp > m { s.last().timestamp } else { m }
    }
}

/// `t` is the earliest timestamp of `s`, zero when `s` is empty.
pub open spec fn is_earliest(s: Seq<FeePoint>, t: u64) -> bool {
    if s.len() == 0 {
        t == 0
    } else {
        &&& exists|i: int| 0 <= i < s.len() && (#[trigger] s[i]).timestamp == t
        &&& forall|i: int| 0 <= i < s.len() ==> t <= (#[trigger] s[i]).timestamp
    }
}

/// `t` is the latest timestamp of `s`, zero when `s` is empty.
pub open spec fn is_latest(s: Seq<FeePoint>, t: u64) -> bool {
    if s.len() == 0 {
        t == 0
    } else {
        &&& exists|i: int| 0 <= i < s.len() && (#[trigger] s[i]).timestamp == t
        &&& forall|i: int| 0 <= i < s.len() ==> (#[trigger] s[i]).timestamp <= t
    }
}

/// The earliest timestamp of a series is the timestamp of one of its points
/// and no point is earlier; it is the only such value.
pub proof fn law_min_time_is_earliest(s: Seq<FeePoint>)
    ensures
        is_earliest(s, min_time_of(s)),
        forall|t: u64| #[trigger] is_earliest(s, t) ==> t == min_time_of(s),
    decreases s.len(),
{
    if s.len() > 1 {
        law_min_time_is_earliest(s.drop_last());
        let m = min_time_of(s.drop_last());
        let j = choose|j: int| 0 <= j < s.drop_last().len() && (#[trigger] s.drop_last()[j]).timestamp == m;
        assert(s[j] == s.drop_last()[j]);
        assert(s[s.len() - 1] == s.last());
        assert forall|k: int| 0 <= k < s.len() implies min_time_of(s) <= (#[trigger] s[k]).timestamp by {
            if k < s.len() - 1 {
                assert(s[k] == s.drop_last()[k]);
            }
        }
    }
    assert forall|t: u64| #[trigger] is_earliest(s, t) implies t == min_time_of(s) by {
        if s.len() > 0 {
            let i = choose|i: int| 0 <= i < s.len() && (#[trigger] s[i]).timestamp == t;
            let j = choose|j: int| 0 <= j < s.len() && (#[trigger] s[j]).timestamp == min_time_of(s);
            assert(t <= s[j].timestamp);
            assert(min_time_of(s) <= s[i].timestamp);
        }
    }
}

/// The latest timestamp of a series is the timestamp of one of its points and
/// no point is later; it is the only such value.
pub proof fn law_max_time_is_latest(s: Seq<FeePoint>)
    ensures
        is_latest(s, max_time_of(s)),
        forall|t: u64| #[trigger] is_latest(s, t) ==> t == max_time_of(s),
    decreases s.len(),
{
    if s.len() > 1 {
        law_max_time_is_latest(s.drop_last());
        let m = max_time_of(s.drop_last());
        let j = choose|j: int| 0 <= j < s.drop_last().len() && (#[trigger] s.drop_last()[j]).timestamp == m;
        assert(s[j] == s.drop_last()[j]);
        assert(s[s.len() - 1] == s.last());
        assert forall|k: int| 0 <= k < s.len() implies (#[trigger] s[k]).timestamp <= max_time_of(s) by {
            if k < s.len() - 1 {
                assert(s[k] == s.drop_last()[k]);
            }
        }
    } else if s.len() == 1 {
        assert(s[0] == s.last());
        assert(max_time_of(s.drop_last()) == 0);
    }
    assert forall|t: u64| #[trigger] is_latest(s, t) implies t == max_time_of(s) by {
        if s.len() > 0 {
            let i = choose|i: int| 0 <= i < s.len() && (#[trigger] s[i]).timestamp == t;
            let j = choose|j: int| 0 <= j < s.len() && (#[trigger] s[j]).timestamp == max_time_of(s);
            assert(s[j].timestamp <= t);
            assert(s[i].timestamp <= max_time_of(s));
        }
    }
}

/// The earliest timestamp of the points, zero for none.
pub fn time_min(points: &[FeePoint]) -> (t: u64)
    ensures
        t == min_time_of(points@),
        is_earliest(points@, t),
{
    proof {
        law_min_time_is_earliest(points@);
    }
    let mut m: u64 = 0;
    let mut i: usize = 0;
    while i < points.len()
        invariant
            i <= points@.len(),
            m == min_time_of(points@.take(i as int)),
        decreases points.len() - i,
    {
        assert(points@.take(i + 1).drop_last() =~= points@.take(i as int));
        if i == 0 || points[i].timestamp < m {
            m = points[i].timestamp;
        }
        i += 1;
    }
    assert(points@.take(i as int) =~= points@);
    m
}

/// The latest timestamp of the points, zero for none.
pub fn time_max(points: &[FeePoint]) -> (t: u64)
    ensures
        t == max_time_of(points@),
        is_latest(points@, t),
{
    proof {
        law_max_time_is_latest(points@);
    }
    let mut m: u64 = 0;
    let mut i: usize = 0;
    while i < points.len()
        invariant
            i <= points@.len(),
            m == max_time_of(points@.take(i as int)),
        decreases points.len() - i,
    {
        assert(points@.take(i + 1).drop_last() =~= points@.take(i as int));
        if points[i].timestamp > m {
            m = points[i].timestamp;
        }
        i += 1;
    }
    assert(points@.take(i as int) =~= points@);
    m
}

} // verus!
