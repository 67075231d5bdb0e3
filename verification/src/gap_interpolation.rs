use vstd::prelude::*;
use std::collections::BTreeSet;
use crate::fee_point::FeePoint;
use crate::duplicate_removal::{ledgers, lemma_ledgers_push};

verus! {

broadcast use vstd::std_specs::btree::group_btree_axioms;

/// `num / den` rounded to the nearest integer, halves rounded up (for `num >= 0`).
pub open spec fn round_div(num: int, den: int) -> int {
    num / den + (if 2 * (num % den) >= den { 1int } else { 0int })
}

/// The value `k/gap` of the way from `from` to `to`, rounded to the nearest integer.
pub open spec fn lerp(from: int, to: int, k: int, gap: int) -> int {
    round_div(from * gap + (to - from) * k, gap)
}

/// The ledger distance from `a` to `b` (zero when `b` does not come after `a`).
pub open spec fn ledger_gap(a: FeePoint, b: FeePoint) -> int {
    if b.ledger > a.ledger { b.ledger - a.ledger } else { 0 }
}

/// The point interpolated `k` ledgers after `a` on the way to `b`.
pub open spec fn interp_point(a: FeePoint, b: FeePoint, k: int) -> FeePoint {
    let gap = ledger_gap(a, b);
    FeePoint {
        timestamp: lerp(a.timestamp as int, b.timestamp as int, k, gap) as u64,
        fee: lerp(a.fee as int, b.fee as int, k, gap) as u64,
        ledger: (a.ledger + k) as u64,
        is_spike: false,
    }
}

/// The points interpolated for the ledgers strictly between `a` and `b`.
pub open spec fn between(a: FeePoint, b: FeePoint) -> Seq<FeePoint> {
    let gap = ledger_gap(a, b);
    Seq::new(if gap > 1 { (gap - 1) as nat } else { 0 }, |k: int| interp_point(a, b, k + 1))
}

/// The points with every missing ledger between neighbours filled in.
pub open spec fn filled(s: Seq<FeePoint>) -> Seq<FeePoint>
    decreases s.len(),
{
    if s.len() <= 1 {
        s
    } else {
        filled(s.drop_last()) + between(s[s.len() - 2], s.last()).push(s.last())
    }
}

/// Where a ledger gap must be filled, time does not run backwards across it.
pub open spec fn fillable(s: Seq<FeePoint>) -> bool {
    forall|i: int|
        1 <= i < s.len() && #[trigger] ledger_gap(s[i - 1], s[i]) > 1 ==> s[i - 1].timestamp
            <= s[i].timestamp
}

proof fn lemma_round_div_bounds(num: int, den: int, lo: int, hi: int)
    requires
        den > 0,
        lo * den <= num <= hi * den,
    ensures
        lo <= round_div(num, den) <= hi,
{
    let q = num / den;
    let r = num % den;
    assert(num == den * q + r && 0 <= r < den) by {
        vstd::arithmetic::div_mod::lemma_fundamental_div_mod(num, den);
    }
    assert(lo <= q) by (nonlinear_arith)
        requires lo * den <= den * q + r, 0 <= r < den, den > 0;
    assert(q <= hi) by (nonlinear_arith)
        requires den * q + r <= hi * den, 0 <= r < den, den > 0;
    if q == hi {
        assert(r == 0) by (nonlinear_arith)
            requires den * q + r <= hi * den, q == hi, 0 <= r;
    }
}

/// An interpolated value lies between its two endpoints.
pub proof fn lemma_lerp_between(from: int, to: int, k: int, gap: int)
    requires
        gap > 0,
        0 <= k <= gap,
    ensures
        from <= to ==> from <= lerp(from, to, k, gap) <= to,
        to <= from ==> to <= lerp(from, to, k, gap) <= from,
{
    let num = from * gap + (to - from) * k;
    if from <= to {
        assert(from * gap <= num <= to * gap) by (nonlinear_arith)
            requires num == from * gap + (to - from) * k, from <= to, 0 <= k <= gap;
        lemma_round_div_bounds(num, gap, from, to);
    } else {
        assert(to * gap <= num <= from * gap) by (nonlinear_arith)
            requires num == from * gap + (to - from) * k, to <= from, 0 <= k <= gap;
        lemma_round_div_bounds(num, gap, to, from);
    }
}

/// `lerp` computed without overflow on 64-bit endpoints.
fn lerp_u64(from: u64, to: u64, k: u64, gap: u64) -> (r: u64)
    requires
        gap > 0,
        k <= gap,
    ensures
        r == lerp(from as int, to as int, k as int, gap as int),
{
    let f = from as u128;
    let g = gap as u128;
    let kk = k as u128;
    assert(f * g <= u64::MAX * u64::MAX) by (nonlinear_arith)
        requires f <= u64::MAX, g <= u64::MAX;
    let base: u128 = f * g;
    let num: u128 = if to >= from {
        let d = (to - from) as u128;
        assert(d * kk <= (to - from) * g) by (nonlinear_arith)
            requires d == to - from, kk <= g;
        assert(f * g + d * kk <= to * g) by (nonlinear_arith)
            requires d == to - from, kk <= g, f == from;
        assert(to * g <= u64::MAX * u64::MAX) by (nonlinear_arith)
            requires to <= u64::MAX, g <= u64::MAX;
        base + d * kk
    } else {
        let d = (from - to) as u128;
        assert(d * kk <= d * g) by (nonlinear_arith)
            requires kk <= g;
        assert(f * g - d * kk >= to * g) by (nonlinear_arith)
            requires d == from - to, kk <= g, f == from;
        base - d * kk
    };
    assert(num as int == from * gap + (to - from) * k) by (nonlinear_arith)
        requires
            f == from, g == gap, kk == k, base == f * g,
            to >= from ==> num as int == base + (to - from) * kk,
            to < from ==> num as int == base - (from - to) * kk;
    let q = num / g;
    let rem = num % g;
    let bump: u128 = if 2 * rem >= g { 1 } else { 0 };
    proof {
        lemma_lerp_between(from as int, to as int, k as int, gap as int);
    }
    let r = q + bump;
    assert(r as int == lerp(from as int, to as int, k as int, gap as int));
    r as u64
}

/// Interpolates missing fee values in ledger sequences.
pub struct GapInterpolator;

impl GapInterpolator {
    /// Whether time never runs backwards across a ledger gap: the condition
    /// under which the gaps can be filled.
    pub fn is_fillable(points: &[FeePoint]) -> (b: bool)
        ensures
            b == fillable(points@),
    {
        let mut i: usize = 1;
        while i < points.len()
            invariant
                1 <= i,
                i <= points@.len() || points@.len() == 0,
                forall|j: int| 1 <= j < i && j < points@.len() && #[trigger] ledger_gap(points@[j - 1], points@[j]) > 1
                    ==> points@[j - 1].timestamp <= points@[j].timestamp,
            decreases points.len() - i,
        {
            let a = points[i - 1];
            let b = points[i];
            if b.ledger > a.ledger && b.ledger - a.ledger > 1 && b.timestamp < a.timestamp {
                assert(ledger_gap(points@[i - 1], points@[i as int]) > 1);
                return false;
            }
            i += 1;
        }
        true
    }

    /// Fills gaps in a ledger sequence: between neighbours whose ledgers are more
    /// than one apart, adds one point per missing ledger, with timestamp and fee
    /// interpolated linearly (rounded to the nearest integer) and no spike flag.
    /// Points are expected sorted by ledger.
    pub fn fill_gaps(points: &[FeePoint]) -> (r: Vec<FeePoint>)
        requires
            fillable(points@),
        ensures
            r@ == filled(points@),
    {
        let mut result: Vec<FeePoint> = Vec::new();
        if points.len() == 0 {
            return result;
        }
        result.push(points[0]);
        assert(result@ =~= filled(points@.take(1)));
        let mut i: usize = 1;
        while i < points.len()
            invariant
                1 <= i <= points@.len(),
                fillable(points@),
                result@ == filled(points@.take(i as int)),
            decreases points.len() - i,
        {
            let prev = points[i - 1];
            let point = points[i];
            let ghost head = result@;
            let gap = if point.ledger > prev.ledger { point.ledger - prev.ledger } else { 0 };
            assert(gap == ledger_gap(prev, point));
            if gap > 1 {
                assert(ledger_gap(points@[i - 1], points@[i as int]) > 1);
                let mut k: u64 = 1;
                while k < gap
                    invariant
                        1 <= k <= gap,
                        gap == ledger_gap(prev, point),
                        gap > 1,
                        prev.timestamp <= point.timestamp,
                        prev.ledger + gap == point.ledger,
                        result@ == head + between(prev, point).take(k - 1),
                    decreases gap - k,
                {
                    let ts = lerp_u64(prev.timestamp, point.timestamp, k, gap);
                    let fee = lerp_u64(prev.fee, point.fee, k, gap);
                    let p = FeePoint { timestamp: ts, fee, ledger: prev.ledger + k, is_spike: false };
                    assert(p == interp_point(prev, point, k as int));
                    result.push(p);
                    assert(between(prev, point).take(k as int) =~= between(prev, point).take(k - 1).push(p));
                    k += 1;
                }
                assert(between(prev, point).take(gap - 1) =~= between(prev, point));
            } else {
                assert(between(prev, point) =~= Seq::<FeePoint>::empty());
            }
            result.push(point);
            proof {
                let t = points@.take(i + 1);
                assert(t.drop_last() =~= points@.take(i as int));
                assert(t[t.len() - 2] == prev);
                assert(t.last() == point);
            }
            assert(result@ =~= filled(points@.take(i + 1)));
            i += 1;
        }
        assert(points@.take(i as int) =~= points@);
        result
    }

    /// Only the points that `fill_gaps` adds: those whose ledger no given point has.
    pub fn interpolated_only(points: &[FeePoint]) -> (r: Vec<FeePoint>)
        requires
            fillable(points@),
        ensures
            r@ == filled(points@).filter(|p: FeePoint| !ledgers(points@).contains(p.ledger)),
    {
        let filled_pts = Self::fill_gaps(points);
        let mut original: BTreeSet<u64> = BTreeSet::new();
        let mut i: usize = 0;
        while i < points.len()
            invariant
                i <= points@.len(),
                original@ == ledgers(points@.take(i as int)),
            decreases points.len() - i,
        {
            proof {
                assert(points@.take(i + 1) =~= points@.take(i as int).push(points@[i as int]));
                lemma_ledgers_push(points@.take(i as int), points@[i as int]);
            }
            original.insert(points[i].ledger);
            i += 1;
        }
        assert(points@.take(i as int) =~= points@);
        let ghost pred = |p: FeePoint| !ledgers(points@).contains(p.ledger);
        let mut r: Vec<FeePoint> = Vec::new();
        let mut j: usize = 0;
        while j < filled_pts.len()
            invariant
                j <= filled_pts@.len(),
                original@ == ledgers(points@),
                pred == (|p: FeePoint| !ledgers(points@).contains(p.ledger)),
                r@ == filled_pts@.take(j as int).filter(pred),
            decreases filled_pts.len() - j,
        {
            let p = filled_pts[j];
            proof {
                reveal_with_fuel(Seq::<_>::filter, 1);
                assert(filled_pts@.take(j + 1).drop_last() =~= filled_pts@.take(j as int));
            }
            if !original.contains(&p.ledger) {
                r.push(p);
            }
            j += 1;
        }
        assert(filled_pts@.take(j as int) =~= filled_pts@);
        r
    }

    /// The number of ledgers missing between the first and the last point.
    pub fn gap_count(points: &[FeePoint]) -> (n: u64)
        requires
            points@.len() >= 2 ==> points@[0].ledger <= points@.last().ledger,
            points@.len() >= 2 ==> points@.last().ledger - points@[0].ledger + 1 <= u64::MAX,
        ensures
            points@.len() < 2 ==> n == 0,
            points@.len() >= 2 ==> {
                let expected = (points@.last().ledger - points@[0].ledger + 1) as usize;
                n == (if expected > points@.len() { (expected - points@.len()) as u64 } else { 0u64 })
            },
    {
        if points.len() < 2 {
            return 0;
        }
        let first = points[0].ledger;
        let last = points[points.len() - 1].ledger;
        let expected = (last - first + 1) as usize;
        if expected > points.len() {
            (expected - points.len()) as u64
        } else {
            0
        }
    }

    /// The time between the first and the last point (zero if time runs backwards).
    pub fn time_span(points: &[FeePoint]) -> (n: u64)
        ensures
            n == (if points@.len() < 2 || points@.last().timestamp < points@[0].timestamp {
                0
            } else {
                points@.last().timestamp - points@[0].timestamp
            }),
    {
        if points.len() < 2 {
            return 0;
        }
        let first_ts = points[0].timestamp;
        let last_ts = points[points.len() - 1].timestamp;
        if last_ts >= first_ts { last_ts - first_ts } else { 0 }
    }
}

/// The ledgers of `s` strictly increase.
pub open spec fn increasing_ledgers(s: Seq<FeePoint>) -> bool {
    forall|i: int, j: int| 0 <= i < j < s.len() ==> (#[trigger] s[i]).ledger < (#[trigger] s[j]).ledger
}

/// Filling the gaps of points with increasing ledgers gives one point per
/// ledger from the first to the last, in order, and keeps the given points.
pub proof fn law_filled_consecutive(s: Seq<FeePoint>)
    requires
        s.len() > 0,
        increasing_ledgers(s),
    ensures
        filled(s).len() == s.last().ledger - s[0].ledger + 1,
        forall|i: int| 0 <= i < filled(s).len() ==> (#[trigger] filled(s)[i]).ledger == s[0].ledger + i,
        forall|i: int| 0 <= i < s.len() ==> filled(s)[s[i].ledger - s[0].ledger] == #[trigger] s[i],
    decreases s.len(),
{
    if s.len() > 1 {
        let t = s.drop_last();
        assert forall|i: int, j: int| 0 <= i < j < t.len() implies (#[trigger] t[i]).ledger < (#[trigger] t[j]).ledger by {
            assert(t[i] == s[i] && t[j] == s[j]);
        }
        law_filled_consecutive(t);
        let a = s[s.len() - 2];
        let b = s.last();
        assert(a == t.last());
        assert(t[0] == s[0]);
        assert(a.ledger < b.ledger);
        let f = filled(s);
        let ft = filled(t);
        let mid = between(a, b);
        assert(f =~= ft + mid.push(b));
        assert forall|i: int| 0 <= i < f.len() implies (#[trigger] f[i]).ledger == s[0].ledger + i by {
            if i < ft.len() {
                assert(f[i] == ft[i]);
            } else if i < ft.len() + mid.len() {
                assert(f[i] == mid[i - ft.len()]);
                assert(mid[i - ft.len()] == interp_point(a, b, i - ft.len() + 1));
            } else {
                assert(f[i] == b);
            }
        }
        assert forall|i: int| 0 <= i < s.len() implies f[s[i].ledger - s[0].ledger] == #[trigger] s[i] by {
            if i < s.len() - 1 {
                assert(s[i] == t[i]);
                assert(s[i].ledger <= a.ledger);
                assert(ft[t[i].ledger - t[0].ledger] == t[i]);
                assert(f[s[i].ledger - s[0].ledger] == ft[s[i].ledger - s[0].ledger]);
            } else {
                assert(s[i] == b);
            }
        }
    }
}

/// Each point filled in between two neighbours has a fee and a timestamp
/// between theirs.
pub proof fn law_between_in_range(a: FeePoint, b: FeePoint, k: int)
    requires
        0 <= k < between(a, b).len(),
    ensures
        a.fee <= b.fee ==> a.fee <= between(a, b)[k].fee <= b.fee,
        b.fee <= a.fee ==> b.fee <= between(a, b)[k].fee <= a.fee,
        a.timestamp <= b.timestamp ==> a.timestamp <= between(a, b)[k].timestamp <= b.timestamp,
        b.timestamp <= a.timestamp ==> b.timestamp <= between(a, b)[k].timestamp <= a.timestamp,
{
    let gap = ledger_gap(a, b);
    lemma_lerp_between(a.fee as int, b.fee as int, k + 1, gap);
    lemma_lerp_between(a.timestamp as int, b.timestamp as int, k + 1, gap);
}

/// Options of the gap-fill command.
#[derive(Debug, Clone, Copy)]
pub struct GapFillArgs {
    /// Show what would be interpolated without changing anything.
    pub dry_run: bool,
    /// Show the interpolated points only.
    pub show_interpolated: bool,
}

impl Default for GapFillArgs {
    /// Apply the fill, show nothing extra.
    fn default() -> (a: Self)
        ensures
            !a.dry_run,
            !a.show_interpolated,
    {
        GapFillArgs { dry_run: false, show_interpolated: false }
    }
}

} // verus!
