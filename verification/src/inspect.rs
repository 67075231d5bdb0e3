use vstd::prelude::*;
use crate::fee_point::FeePoint;
use crate::error_tracker::derefs;
use crate::sort::{sort_desc, sort_desc_by_key, lemma_sort_desc_len, lemma_sort_desc_deref};
use crate::text::{string_from, push_char, push_u64, dec};

verus! {

/// Points keyed by their fees.
pub open spec fn by_fee(s: Seq<FeePoint>) -> Seq<(u64, FeePoint)> {
    s.map_values(|p: FeePoint| (p.fee, p))
}

/// Points by decreasing fee, points with equal fees in their given order.
pub open spec fn by_fee_desc(s: Seq<FeePoint>) -> Seq<FeePoint> {
    sort_desc(by_fee(s)).map_values(|p: (u64, FeePoint)| p.1)
}

/// Runs of spike points scanned so far: the closed runs, and the open one.
pub open spec fn spike_scan(s: Seq<FeePoint>) -> (Seq<Seq<FeePoint>>, Seq<FeePoint>)
    decreases s.len(),
{
    if s.len() == 0 {
        (Seq::empty(), Seq::empty())
    } else {
        let (runs, cur) = spike_scan(s.drop_last());
        if s.last().is_spike {
            (runs, cur.push(s.last()))
        } else if cur.len() > 0 {
            (runs.push(cur), Seq::empty())
        } else {
            (runs, cur)
        }
    }
}

/// The maximal runs of consecutive spike points, in order.
pub open spec fn spike_runs_of(s: Seq<FeePoint>) -> Seq<Seq<FeePoint>> {
    let (runs, cur) = spike_scan(s);
    if cur.len() > 0 {
        runs.push(cur)
    } else {
        runs
    }
}

/// The time from each point to the next (zero where time runs backwards).
pub open spec fn time_gaps(s: Seq<FeePoint>) -> Seq<u64> {
    Seq::new(
        if s.len() > 0 { (s.len() - 1) as nat } else { 0 },
        |i: int|
            if s[i + 1].timestamp >= s[i].timestamp {
                (s[i + 1].timestamp - s[i].timestamp) as u64
            } else {
                0u64
            },
    )
}

/// Fee point inspector for detailed examination of fee data.
pub struct Inspector;

impl Inspector {
    /// The points whose fee is above `threshold`, in order.
    pub fn above_threshold(points: &[FeePoint], threshold: u64) -> (r: Vec<&FeePoint>)
        ensures
            derefs(r@) == points@.filter(|p: FeePoint| p.fee > threshold),
    {
        let ghost pred = |p: FeePoint| p.fee > threshold;
        let mut r: Vec<&FeePoint> = Vec::new();
        let mut i: usize = 0;
        while i < points.len()
            invariant
                i <= points@.len(),
                pred == (|p: FeePoint| p.fee > threshold),
                derefs(r@) == points@.take(i as int).filter(pred),
            decreases points.len() - i,
        {
            let p = &points[i];
            proof {
                reveal_with_fuel(Seq::<_>::filter, 1);
                assert(points@.take(i + 1).drop_last() =~= points@.take(i as int));
            }
            if p.fee > threshold {
                let ghost old_r = r@;
                r.push(p);
                assert(derefs(r@) =~= derefs(old_r).push(*p));
            }
            i += 1;
        }
        assert(points@.take(i as int) =~= points@);
        r
    }

    /// The points with `start <= timestamp <= end`, in order.
    pub fn in_time_range<'a>(points: &'a [FeePoint], start: u64, end: u64) -> (r: Vec<
        &'a FeePoint,
    >)
        ensures
            derefs(r@) == points@.filter(|p: FeePoint| start <= p.timestamp <= end),
    {
        let ghost pred = |p: FeePoint| start <= p.timestamp <= end;
        let mut r: Vec<&FeePoint> = Vec::new();
        let mut i: usize = 0;
        while i < points.len()
            invariant
                i <= points@.len(),
                pred == (|p: FeePoint| start <= p.timestamp <= end),
                derefs(r@) == points@.take(i as int).filter(pred),
            decreases points.len() - i,
        {
            let p = &points[i];
            proof {
                reveal_with_fuel(Seq::<_>::filter, 1);
                assert(points@.take(i + 1).drop_last() =~= points@.take(i as int));
            }
            if p.timestamp >= start && p.timestamp <= end {
                let ghost old_r = r@;
                r.push(p);
                assert(derefs(r@) =~= derefs(old_r).push(*p));
            }
            i += 1;
        }
        assert(points@.take(i as int) =~= points@);
        r
    }

    /// The `n` points with the largest fees, by decreasing fee; points with equal
    /// fees in their given order.
    pub fn top_n(points: &[FeePoint], n: usize) -> (r: Vec<&FeePoint>)
        ensures
            derefs(r@) == by_fee_desc(points@).take(
                if n < points@.len() { n as int } else { points@.len() as int },
            ),
    {
        let mut pairs: Vec<(u64, &FeePoint)> = Vec::new();
        let mut i: usize = 0;
        while i < points.len()
            invariant
                i <= points@.len(),
                pairs@.len() == i,
                forall|k: int|
                    0 <= k < i ==> *(#[trigger] pairs@[k]).1 == points@[k] && pairs@[k].0
                        == points@[k].fee,
            decreases points.len() - i,
        {
            let p = &points[i];
            pairs.push((p.fee, p));
            i += 1;
        }
        let ghost pv = pairs@;
        let sorted = sort_desc_by_key(pairs);
        proof {
            lemma_sort_desc_len(pv);
        }
        let limit = if n < sorted.len() { n } else { sorted.len() };
        let mut r: Vec<&FeePoint> = Vec::new();
        let mut j: usize = 0;
        while j < limit
            invariant
                j <= limit <= sorted@.len(),
                r@.len() == j,
                forall|k: int| 0 <= k < j ==> r@[k] == (#[trigger] sorted@[k]).1,
            decreases limit - j,
        {
            r.push(sorted[j].1);
            j += 1;
        }
        proof {
            assert(pv.map_values(|p: (u64, &FeePoint)| (p.0, *p.1)) =~= by_fee(points@));
            lemma_sort_desc_deref(pv);
            assert(derefs(r@) =~= by_fee_desc(points@).take(limit as int));
        }
        r
    }

    /// The maximal runs of consecutive spike points.
    pub fn spike_runs(points: &[FeePoint]) -> (r: Vec<Vec<&FeePoint>>)
        ensures
            r@.len() == spike_runs_of(points@).len(),
            forall|k: int| 0 <= k < r@.len() ==> derefs((#[trigger] r@[k])@) == spike_runs_of(points@)[k],
    {
        let mut runs: Vec<Vec<&FeePoint>> = Vec::new();
        let mut current: Vec<&FeePoint> = Vec::new();
        let mut i: usize = 0;
        while i < points.len()
            invariant
                i <= points@.len(),
                runs@.len() == spike_scan(points@.take(i as int)).0.len(),
                forall|k: int|
                    0 <= k < runs@.len() ==> derefs((#[trigger] runs@[k])@) == spike_scan(
                        points@.take(i as int),
                    ).0[k],
                derefs(current@) == spike_scan(points@.take(i as int)).1,
            decreases points.len() - i,
        {
            let p = &points[i];
            proof {
                assert(points@.take(i + 1).drop_last() =~= points@.take(i as int));
            }
            if p.is_spike {
                let ghost old_c = current@;
                current.push(p);
                assert(derefs(current@) =~= derefs(old_c).push(*p));
            } else if current.len() > 0 {
                let mut done: Vec<&FeePoint> = Vec::new();
                std::mem::swap(&mut done, &mut current);
                runs.push(done);
                assert(derefs(current@) =~= Seq::<FeePoint>::empty());
            }
            i += 1;
        }
        assert(points@.take(i as int) =~= points@);
        if current.len() > 0 {
            runs.push(current);
        }
        runs
    }

    /// The time from each point to the next.
    pub fn gaps(points: &[FeePoint]) -> (r: Vec<u64>)
        ensures
            r@ == time_gaps(points@),
    {
        let mut r: Vec<u64> = Vec::new();
        if points.len() < 2 {
            assert(r@ =~= time_gaps(points@));
            return r;
        }
        let mut i: usize = 1;
        while i < points.len()
            invariant
                1 <= i <= points@.len(),
                r@ == time_gaps(points@).take(i - 1),
            decreases points.len() - i,
        {
            let a = points[i - 1].timestamp;
            let b = points[i].timestamp;
            let g = if b >= a { b - a } else { 0 };
            r.push(g);
            assert(time_gaps(points@).take(i as int) =~= time_gaps(points@).take(i - 1).push(g));
            i += 1;
        }
        assert(time_gaps(points@).take(i - 1) =~= time_gaps(points@));
        r
    }
}

/// Arguments for the `inspect` subcommand.
pub struct InspectArgs {
    /// Show a full fee summary report.
    pub summary: bool,
    /// Filter points above this fee threshold.
    pub above: Option<u64>,
    /// Show the top-N highest fees.
    pub top: Option<usize>,
    /// Show spike runs.
    pub spike_runs: bool,
    /// Output as JSON.
    pub json: bool,
}

impl Default for InspectArgs {
    fn default() -> (a: Self)
        ensures
            a.summary,
            a.above is None,
            a.top is None,
            !a.spike_runs,
            !a.json,
    {
        InspectArgs { summary: true, above: None, top: None, spike_runs: false, json: false }
    }
}

impl InspectArgs {
    /// Rejects an empty set of points.
    pub fn validate_data(points: &[FeePoint]) -> (r: Result<(), String>)
        ensures
            points@.len() == 0 <==> r is Err,
            r matches Err(e) ==> e@ == "no fee points to inspect"@,
    {
        if points.len() == 0 {
            Err(string_from("no fee points to inspect"))
        } else {
            Ok(())
        }
    }
}

/// The decimal ledgers of points, separated by commas.
pub open spec fn ledger_items(s: Seq<FeePoint>) -> Seq<char>
    decreases s.len(),
{
    if s.len() == 0 {
        Seq::empty()
    } else if s.len() == 1 {
        dec(s[0].ledger as nat)
    } else {
        ledger_items(s.drop_last()) + seq![','] + dec(s.last().ledger as nat)
    }
}

/// The ledgers of some points as a JSON array of numbers, `[l1,l2,..]`.
pub fn ledgers_json(points: &[&FeePoint]) -> (s: String)
    ensures
        s@ == seq!['['] + ledger_items(derefs(points@)) + seq![']'],
{
    let ghost all = derefs(points@);
    let mut out = String::new();
    push_char(&mut out, '[');
    let mut i: usize = 0;
    while i < points.len()
        invariant
            i <= points@.len(),
            all == derefs(points@),
            out@ == seq!['['] + ledger_items(all.take(i as int)),
        decreases points.len() - i,
    {
        let ghost before = out@;
        if i > 0 {
            push_char(&mut out, ',');
        }
        push_u64(&mut out, points[i].ledger);
        proof {
            let t = all.take(i + 1);
            assert(t.drop_last() =~= all.take(i as int));
            assert(t.last() == *points@[i as int]);
            if i > 0 {
                assert(out@ =~= before + seq![','] + dec(t.last().ledger as nat));
            } else {
                assert(out@ =~= before + dec(t.last().ledger as nat));
            }
        }
        i += 1;
    }
    push_char(&mut out, ']');
    assert(all.take(i as int) =~= all);
    out
}

} // verus!
