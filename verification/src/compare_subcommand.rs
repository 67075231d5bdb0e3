use vstd::prelude::*;
use std::collections::BTreeMap;
use crate::fee_point::FeePoint;
use crate::fee_stats::{
    max_fee_of, min_time_of, max_time_of, fee_max, time_min, time_max, is_earliest, is_latest,
    law_min_time_is_earliest, law_max_time_is_latest,
};
use crate::text::string_from;

verus! {

broadcast use {vstd::std_specs::btree::group_btree_axioms, vstd::laws_cmp::group_laws_cmp};

/// Side-by-side comparison of fee distributions.
#[derive(Debug, Clone, Copy)]
pub struct Comparator;

/// The lower edge of the bin of `fee` for bins `width` wide.
pub open spec fn bin_of(fee: u64, width: u64) -> u64 {
    ((fee / width) * width) as u64
}

/// The width of the bins: the largest fee divided by the number of bins,
/// at least one.
pub open spec fn bin_width(s: Seq<FeePoint>, bin_count: usize) -> u64 {
    let w = max_fee_of(s) / (bin_count as u64);
    if w >= 1 { w as u64 } else { 1 }
}

/// How many points fall in the bin starting at `b`.
pub open spec fn bin_tally(s: Seq<FeePoint>, width: u64, b: u64) -> nat
    decreases s.len(),
{
    if s.len() == 0 {
        0
    } else {
        bin_tally(s.drop_last(), width, b) + if bin_of(s.last().fee, width) == b { 1nat } else { 0nat }
    }
}

/// The later of the two first timestamps and the earlier of the two last ones.
pub open spec fn overlap_of(a: Seq<FeePoint>, b: Seq<FeePoint>) -> (u64, u64) {
    let start = if min_time_of(a) >= min_time_of(b) { min_time_of(a) } else { min_time_of(b) };
    let end = if max_time_of(a) <= max_time_of(b) { max_time_of(a) } else { max_time_of(b) };
    (start, end)
}

/// The overlap of two series runs from the later of their earliest
/// timestamps to the earlier of their latest ones (an empty series counting
/// zero for both): it starts no earlier than either series starts and ends no
/// later than either ends.
pub proof fn law_overlap_is_common_range(
    a: Seq<FeePoint>,
    b: Seq<FeePoint>,
    ta: u64,
    tb: u64,
    ua: u64,
    ub: u64,
)
    requires
        is_earliest(a, ta),
        is_earliest(b, tb),
        is_latest(a, ua),
        is_latest(b, ub),
    ensures
        overlap_of(a, b) == (if ta >= tb { ta } else { tb }, if ua <= ub { ua } else { ub }),
        overlap_of(a, b).0 >= ta && overlap_of(a, b).0 >= tb,
        overlap_of(a, b).1 <= ua && overlap_of(a, b).1 <= ub,
{
    law_min_time_is_earliest(a);
    law_min_time_is_earliest(b);
    law_max_time_is_latest(a);
    law_max_time_is_latest(b);
}

/// The tally of a bin is the number of points whose fee falls in it: the
/// length of the series kept to those points.
pub proof fn law_bin_tally_counts_bin(s: Seq<FeePoint>, width: u64, b: u64)
    ensures
        bin_tally(s, width, b) == s.filter(|p: FeePoint| bin_of(p.fee, width) == b).len(),
    decreases s.len(),
{
    reveal(Seq::filter);
    if s.len() > 0 {
        law_bin_tally_counts_bin(s.drop_last(), width, b);
    }
}

proof fn lemma_bin_tally_bound(s: Seq<FeePoint>, width: u64, b: u64)
    ensures
        bin_tally(s, width, b) <= s.len(),
    decreases s.len(),
{
    if s.len() > 0 {
        lemma_bin_tally_bound(s.drop_last(), width, b);
    }
}

impl Comparator {
    /// The fees binned into buckets: each bin, by its lower edge, with the
    /// number of points in it; no bins for no points.
    pub fn histogram_bins(points: &[FeePoint], bin_count: usize) -> (r: BTreeMap<u64, usize>)
        requires
            points@.len() > 0 ==> bin_count > 0,
        ensures
            points@.len() == 0 ==> r@ == Map::<u64, usize>::empty(),
            points@.len() > 0 ==> forall|b: u64|
                #![trigger r@.contains_key(b)]
                #![trigger bin_tally(points@, bin_width(points@, bin_count), b)]
                (r@.contains_key(b) <==> bin_tally(points@, bin_width(points@, bin_count), b) > 0)
                    && (r@.contains_key(b) ==> r@[b] == bin_tally(points@, bin_width(points@, bin_count), b)),
    {
        let mut bins: BTreeMap<u64, usize> = BTreeMap::new();
        if points.len() == 0 {
            return bins;
        }
        let max_fee = fee_max(points);
        let w0 = max_fee / (bin_count as u64);
        let width: u64 = if w0 >= 1 { w0 } else { 1 };
        let ghost s = points@;
        assert(width == bin_width(s, bin_count));
        let mut i: usize = 0;
        while i < points.len()
            invariant
                s == points@,
                i <= s.len(),
                width >= 1,
                forall|b: u64|
                    #![trigger bins@.contains_key(b)]
                    #![trigger bin_tally(s.take(i as int), width, b)]
                    (bins@.contains_key(b) <==> bin_tally(s.take(i as int), width, b) > 0)
                        && (bins@.contains_key(b) ==> bins@[b] == bin_tally(s.take(i as int), width, b)),
            decreases s.len() - i,
        {
            let fee = points[i].fee;
            assert((fee / width) * width <= fee) by (nonlinear_arith)
                requires width >= 1;
            let bin: u64 = (fee / width) * width;
            assert(s.take(i + 1).drop_last() =~= s.take(i as int));
            assert(s.take(i + 1).last() == s[i as int]);
            proof {
                lemma_bin_tally_bound(s.take(i as int), width, bin);
            }
            let count: usize = match bins.get(&bin) {
                Some(c) => *c,
                None => 0,
            };
            let ghost before = bins@;
            assert(count == (if before.contains_key(bin) { before[bin] } else { 0 }));
            bins.insert(bin, count + 1);
            assert(bins@ == before.insert(bin, (count + 1) as usize));
            proof {
                assert(bin == bin_of(s[i as int].fee, width));
                assert forall|b: u64|
                    #![trigger bins@.contains_key(b)]
                    #![trigger bin_tally(s.take(i + 1), width, b)]
                    (bins@.contains_key(b) <==> bin_tally(s.take(i + 1), width, b) > 0)
                        && (bins@.contains_key(b) ==> bins@[b] == bin_tally(s.take(i + 1), width, b)) by {
                    assert(before.contains_key(b) <==> bin_tally(s.take(i as int), width, b) > 0);
                    assert(before.contains_key(b) ==> before[b] == bin_tally(s.take(i as int), width, b));
                    assert(bin_tally(s.take(i + 1), width, b) == bin_tally(s.take(i as int), width, b) + if bin_of(
                        s[i as int].fee,
                        width,
                    ) == b { 1nat } else { 0nat });
                    if b != bin {
                        assert(bins@.contains_key(b) == before.contains_key(b));
                    }
                }
            }
            i += 1;
        }
        assert(s.take(i as int) =~= s);
        assert forall|b: u64|
            #![trigger bins@.contains_key(b)]
            #![trigger bin_tally(points@, bin_width(points@, bin_count), b)]
            (bins@.contains_key(b) <==> bin_tally(points@, bin_width(points@, bin_count), b) > 0)
                && (bins@.contains_key(b) ==> bins@[b] == bin_tally(points@, bin_width(points@, bin_count), b)) by {
            assert(bins@.contains_key(b) <==> bin_tally(s.take(i as int), width, b) > 0);
        }
        bins
    }

    /// The time range both series cover: from the later first timestamp to
    /// the earlier last one (zero stands for the times of an empty series).
    pub fn overlap(a: &[FeePoint], b: &[FeePoint]) -> (r: (u64, u64))
        ensures
            r == overlap_of(a@, b@),
            exists|ta: u64, tb: u64, ua: u64, ub: u64|
                #![trigger is_earliest(a@, ta), is_earliest(b@, tb), is_latest(a@, ua), is_latest(b@, ub)]
                is_earliest(a@, ta) && is_earliest(b@, tb) && is_latest(a@, ua) && is_latest(b@, ub)
                    && r == (if ta >= tb { ta } else { tb }, if ua <= ub { ua } else { ub }),
    {
        let (min_a, min_b) = (time_min(a), time_min(b));
        let (max_a, max_b) = (time_max(a), time_max(b));
        let start = if min_a >= min_b { min_a } else { min_b };
        let end = if max_a <= max_b { max_a } else { max_b };
        assert(is_earliest(a@, min_a) && is_earliest(b@, min_b) && is_latest(a@, max_a) && is_latest(b@, max_b));
        (start, end)
    }
}

/// Options of the compare command.
#[derive(Debug, Clone)]
pub struct CompareArgs {
    /// Label of the first data set.
    pub label_a: String,
    /// Label of the second data set.
    pub label_b: String,
    /// Output as JSON.
    pub json: bool,
    /// Show the histogram comparison.
    pub histogram: bool,
    /// Number of histogram bins.
    pub bins: usize,
}

/// Why a comparison cannot be made: the first or the second data set is empty.
pub open spec fn compare_data_check(a_len: nat, b_len: nat) -> Result<(), Seq<char>> {
    if a_len == 0 {
        Err("first data set is empty"@)
    } else if b_len == 0 {
        Err("second data set is empty"@)
    } else {
        Ok(())
    }
}

impl Default for CompareArgs {
    /// Labels `A` and `B`, text output, no histogram, ten bins.
    fn default() -> (a: Self)
        ensures
            a.label_a@ == "A"@,
            a.label_b@ == "B"@,
            !a.json,
            !a.histogram,
            a.bins == 10,
    {
        CompareArgs { label_a: string_from("A"), label_b: string_from("B"), json: false, histogram: false, bins: 10 }
    }
}

impl CompareArgs {
    /// Both data sets must have points.
    pub fn validate_data(a: &[FeePoint], b: &[FeePoint]) -> (r: Result<(), String>)
        ensures
            match compare_data_check(a@.len(), b@.len()) {
                Ok(()) => r is Ok,
                Err(msg) => r matches Err(m) && m@ == msg,
            },
    {
        if a.len() == 0 {
            return Err(string_from("first data set is empty"));
        }
        if b.len() == 0 {
            return Err(string_from("second data set is empty"));
        }
        Ok(())
    }
}

} // verus!
