use vstd::prelude::*;
use std::collections::BTreeSet;
use crate::fee_point::FeePoint;
use crate::duplicate_removal::{
    DuplicateRemover, dedup_first, distinct_ledgers, ledgers, lemma_ledgers_push, lemma_ledgers_contains,
    law_dedup_first_distinct,
};
use crate::quality_json_report::{is_repeat, gap_before, back_in_time, ledgers_below_max, lemma_repeat_seen};

verus! {

broadcast use vstd::std_specs::btree::group_btree_axioms;

/// Finds and repairs common issues in fee data.
#[derive(Debug, Clone, Copy)]
pub struct Repair;

/// An issue found in fee data. Outliers are found by the caller, from
/// statistics of the fees; the rest is found here.
#[derive(Debug, Clone, Copy, PartialEq, Eq, Structural)]
pub enum Issue {
    /// A ledger seen before.
    DuplicateLedger(u64),
    /// A timestamp earlier than the one before.
    OutOfOrder { ledger: u64, expected: u64, actual: u64 },
    /// A zero fee.
    ZeroFee(u64),
    /// An abnormal fee.
    Outlier { ledger: u64, fee: u64 },
    /// Ledgers missing before this point.
    LedgerGap { from: u64, to: u64, gap_size: u64 },
    /// A timestamp too large to be a time in seconds.
    NegativeTimestamp(u64),
}

/// A repair that can be applied to fee data.
#[derive(Debug, Clone, Copy, PartialEq, Eq, Structural)]
pub enum RepairAction {
    /// Remove a duplicate point.
    RemoveDuplicate(u64),
    /// Reorder points by timestamp.
    Reorder,
    /// Replace the fee of a point.
    FillZeroFee { ledger: u64, replacement: u64 },
    /// Cap an outlier fee.
    CapOutlier { ledger: u64, original: u64, capped: u64 },
    /// Interpolate missing ledgers.
    InterpolateGap { from: u64, to: u64, count: u64 },
}

/// Timestamps above this are not times in seconds.
pub const TIMESTAMP_LIMIT: u64 = 1_000_000_000_000;

/// The issues of point `i`, in this order: zero fee, repeated ledger, earlier
/// than the point before, missing ledgers before it, outlier (as `outliers`
/// says), timestamp too large.
pub open spec fn point_issue_list(s: Seq<FeePoint>, outliers: Seq<bool>, i: int) -> Seq<Issue> {
    let p = s[i];
    (if p.fee == 0 { seq![Issue::ZeroFee(p.ledger)] } else { Seq::empty() }) + (if is_repeat(s, i) {
        seq![Issue::DuplicateLedger(p.ledger)]
    } else {
        Seq::empty()
    }) + (if back_in_time(s, i) {
        seq![Issue::OutOfOrder { ledger: p.ledger, expected: s[i - 1].timestamp, actual: p.timestamp }]
    } else {
        Seq::empty()
    }) + (if gap_before(s, i) > 0 {
        seq![Issue::LedgerGap { from: s[i - 1].ledger, to: p.ledger, gap_size: gap_before(s, i) as u64 }]
    } else {
        Seq::empty()
    }) + (if outliers[i] {
        seq![Issue::Outlier { ledger: p.ledger, fee: p.fee }]
    } else {
        Seq::empty()
    }) + (if p.timestamp > TIMESTAMP_LIMIT {
        seq![Issue::NegativeTimestamp(p.ledger)]
    } else {
        Seq::empty()
    })
}

/// The issues of the first `k` points, point by point.
pub open spec fn issue_list(s: Seq<FeePoint>, outliers: Seq<bool>, k: int) -> Seq<Issue>
    decreases k,
{
    if k <= 0 {
        Seq::empty()
    } else {
        issue_list(s, outliers, k - 1) + point_issue_list(s, outliers, k - 1)
    }
}

/// The sum of the positive fees of the points of other ledgers than `l`.
pub open spec fn other_fee_sum(s: Seq<FeePoint>, l: u64) -> nat
    decreases s.len(),
{
    if s.len() == 0 {
        0
    } else {
        other_fee_sum(s.drop_last(), l) + if s.last().ledger != l && s.last().fee > 0 {
            s.last().fee as nat
        } else {
            0
        }
    }
}

/// How many points of other ledgers than `l` have a positive fee.
pub open spec fn other_fee_count(s: Seq<FeePoint>, l: u64) -> nat
    decreases s.len(),
{
    if s.len() == 0 {
        0
    } else {
        other_fee_count(s.drop_last(), l) + if s.last().ledger != l && s.last().fee > 0 {
            1nat
        } else {
            0
        }
    }
}

/// The fee that replaces a zero fee at ledger `l`: the mean (rounded down) of
/// the positive fees of the other ledgers, or 100 when there are none.
pub open spec fn zero_replacement(s: Seq<FeePoint>, l: u64) -> u64 {
    if other_fee_count(s, l) == 0 {
        100
    } else {
        (other_fee_sum(s, l) / other_fee_count(s, l)) as u64
    }
}

/// The actions an issue calls for; a reorder only when none was planned.
pub open spec fn actions_for(s: Seq<FeePoint>, issue: Issue, reorder_planned: bool, cap: u64) -> Seq<RepairAction> {
    match issue {
        Issue::DuplicateLedger(l) => seq![RepairAction::RemoveDuplicate(l)],
        Issue::OutOfOrder { .. } => if reorder_planned { Seq::empty() } else { seq![RepairAction::Reorder] },
        Issue::ZeroFee(l) => seq![RepairAction::FillZeroFee { ledger: l, replacement: zero_replacement(s, l) }],
        Issue::Outlier { ledger, fee } => seq![RepairAction::CapOutlier { ledger, original: fee, capped: cap }],
        Issue::LedgerGap { from, to, gap_size } => seq![RepairAction::InterpolateGap { from, to, count: gap_size }],
        Issue::NegativeTimestamp(l) => seq![RepairAction::FillZeroFee { ledger: l, replacement: 0 }],
    }
}

/// The actions for a list of issues, in order.
pub open spec fn plan_actions(s: Seq<FeePoint>, issues: Seq<Issue>, cap: u64) -> Seq<RepairAction>
    decreases issues.len(),
{
    if issues.len() == 0 {
        Seq::empty()
    } else {
        let before = plan_actions(s, issues.drop_last(), cap);
        before + actions_for(s, issues.last(), before.contains(RepairAction::Reorder), cap)
    }
}

/// Every zero fee has a replacement whose sum fits in 64 bits.
pub open spec fn replacements_fit(s: Seq<FeePoint>) -> bool {
    forall|i: int| 0 <= i < s.len() && (#[trigger] s[i]).fee == 0 ==> other_fee_sum(s, s[i].ledger) <= u64::MAX
}

/// The index of the first point of ledger `l`, if any.
pub open spec fn first_with_ledger(s: Seq<FeePoint>, l: u64) -> Option<int>
    decreases s.len(),
{
    if s.len() == 0 {
        None
    } else {
        match first_with_ledger(s.drop_last(), l) {
            Some(i) => Some(i),
            None => if s.last().ledger == l { Some(s.len() - 1) } else { None },
        }
    }
}

/// The points after one action, at the first point of its ledger: a zero fee
/// replaced (a fee that is not zero stays), or a fee above the cap capped; the
/// other actions change nothing here.
pub open spec fn apply_action(s: Seq<FeePoint>, a: RepairAction) -> Seq<FeePoint> {
    match a {
        RepairAction::FillZeroFee { ledger, replacement } => match first_with_ledger(s, ledger) {
            Some(i) => if s[i].fee == 0 { s.update(i, FeePoint { fee: replacement, ..s[i] }) } else { s },
            None => s,
        },
        RepairAction::CapOutlier { ledger, capped, .. } => match first_with_ledger(s, ledger) {
            Some(i) => if s[i].fee > capped { s.update(i, FeePoint { fee: capped, ..s[i] }) } else { s },
            None => s,
        },
        _ => s,
    }
}

/// The points after the actions, applied in order.
pub open spec fn apply_actions(s: Seq<FeePoint>, actions: Seq<RepairAction>) -> Seq<FeePoint>
    decreases actions.len(),
{
    if actions.len() == 0 {
        s
    } else {
        apply_action(apply_actions(s, actions.drop_last()), actions.last())
    }
}

/// `a` comes before `b` by timestamp, then by ledger.
pub open spec fn time_le(a: FeePoint, b: FeePoint) -> bool {
    a.timestamp < b.timestamp || (a.timestamp == b.timestamp && a.ledger <= b.ledger)
}

fn time_le_exec(a: FeePoint, b: FeePoint) -> (r: bool)
    ensures
        r == time_le(a, b),
{
    a.timestamp < b.timestamp || (a.timestamp == b.timestamp && a.ledger <= b.ledger)
}

/// The points are in increasing order of timestamp, then of ledger.
pub open spec fn time_sorted(s: Seq<FeePoint>) -> bool {
    forall|i: int, j: int| 0 <= i < j < s.len() ==> time_le(#[trigger] s[i], #[trigger] s[j])
}

/// The points of `points` sorted by timestamp, then ledger.
pub fn sort_by_time(points: Vec<FeePoint>) -> (r: Vec<FeePoint>)
    ensures
        time_sorted(r@),
        r@.to_multiset() == points@.to_multiset(),
{
    broadcast use vstd::seq_lib::group_to_multiset_ensures;

    let mut r: Vec<FeePoint> = Vec::new();
    let mut i: usize = 0;
    while i < points.len()
        invariant
            i <= points@.len(),
            time_sorted(r@),
            r@.to_multiset() == points@.take(i as int).to_multiset(),
        decreases points.len() - i,
    {
        let p = points[i];
        let mut pos: usize = 0;
        while pos < r.len() && time_le_exec(r[pos], p)
            invariant
                pos <= r@.len(),
                forall|j: int| 0 <= j < pos ==> time_le(#[trigger] r@[j], p),
            decreases r.len() - pos,
        {
            pos += 1;
        }
        proof {
            vstd::seq_lib::to_multiset_insert(r@, pos as int, p);
            vstd::seq_lib::to_multiset_build(points@.take(i as int), p);
            assert(points@.take(i + 1) =~= points@.take(i as int).push(p));
        }
        let ghost old_r = r@;
        r.insert(pos, p);
        proof {
            assert forall|a: int, b: int| 0 <= a < b < r@.len() implies time_le(#[trigger] r@[a], #[trigger] r@[b]) by {
                if b < pos {
                    assert(r@[a] == old_r[a] && r@[b] == old_r[b]);
                } else if b == pos {
                    assert(r@[a] == old_r[a]);
                } else if a < pos {
                    assert(r@[a] == old_r[a] && r@[b] == old_r[b - 1]);
                    assert(time_le(old_r[a], p));
                } else if a == pos {
                    assert(r@[b] == old_r[b - 1]);
                    assert(!time_le(old_r[pos as int], p));
                    assert(time_le(old_r[pos as int], old_r[b - 1]) || pos as int == b - 1);
                } else {
                    assert(r@[a] == old_r[a - 1] && r@[b] == old_r[b - 1]);
                }
            }
        }
        i += 1;
    }
    assert(points@.take(i as int) =~= points@);
    r
}

fn fee_sum_others(points: &[FeePoint], l: u64) -> (r: (u64, u64))
    requires
        other_fee_sum(points@, l) <= u64::MAX,
    ensures
        r.0 == other_fee_sum(points@, l),
        r.1 == other_fee_count(points@, l),
{
    let mut sum: u64 = 0;
    let mut count: u64 = 0;
    let mut i: usize = 0;
    while i < points.len()
        invariant
            i <= points@.len(),
            other_fee_sum(points@, l) <= u64::MAX,
            sum == other_fee_sum(points@.take(i as int), l),
            count == other_fee_count(points@.take(i as int), l),
            count <= i,
        decreases points.len() - i,
    {
        assert(points@.take(i + 1).drop_last() =~= points@.take(i as int));
        proof {
            lemma_other_sum_prefix(points@, l, i + 1);
        }
        if points[i].ledger != l && points[i].fee > 0 {
            sum = sum + points[i].fee;
            count = count + 1;
        }
        i += 1;
    }
    assert(points@.take(i as int) =~= points@);
    (sum, count)
}

proof fn lemma_other_sum_prefix(s: Seq<FeePoint>, l: u64, k: int)
    requires
        0 <= k <= s.len(),
    ensures
        other_fee_sum(s.take(k), l) <= other_fee_sum(s, l),
    decreases s.len() - k,
{
    if k < s.len() {
        lemma_other_sum_prefix(s, l, k + 1);
        assert(s.take(k + 1).drop_last() =~= s.take(k));
    } else {
        assert(s.take(k) =~= s);
    }
}

/// Whether the positive fees of the ledgers other than `l` add up within
/// 64 bits.
fn other_sum_fits(points: &[FeePoint], l: u64) -> (b: bool)
    ensures
        b == (other_fee_sum(points@, l) <= u64::MAX),
{
    let mut sum: u64 = 0;
    let mut i: usize = 0;
    while i < points.len()
        invariant
            i <= points@.len(),
            sum == other_fee_sum(points@.take(i as int), l),
        decreases points.len() - i,
    {
        assert(points@.take(i + 1).drop_last() =~= points@.take(i as int));
        if points[i].ledger != l && points[i].fee > 0 {
            match sum.checked_add(points[i].fee) {
                Some(t) => {
                    sum = t;
                },
                None => {
                    proof {
                        lemma_other_sum_prefix(points@, l, i + 1);
                    }
                    return false;
                },
            }
        }
        i += 1;
    }
    assert(points@.take(i as int) =~= points@);
    true
}

/// Whether a repair of the points can be planned: no ledger but the last is
/// `u64::MAX`, and the fees that replace each zero fee add up within 64 bits.
/// This is the condition under which `Repair::plan` and `Repair::apply` may be
/// called.
pub fn repair_fits(points: &[FeePoint]) -> (b: bool)
    ensures
        b == (ledgers_below_max(points@) && replacements_fit(points@)),
{
    let mut i: usize = 0;
    while i < points.len()
        invariant
            i <= points@.len(),
            forall|j: int| 0 <= j < i && j < points@.len() - 1 ==> (#[trigger] points@[j]).ledger < u64::MAX,
            forall|j: int| 0 <= j < i && (#[trigger] points@[j]).fee == 0 ==> other_fee_sum(points@, points@[j].ledger)
                <= u64::MAX,
        decreases points.len() - i,
    {
        let p = points[i];
        if i + 1 < points.len() && p.ledger == u64::MAX {
            assert(points@[i as int].ledger == u64::MAX);
            return false;
        }
        if p.fee == 0 && !other_sum_fits(points, p.ledger) {
            assert(points@[i as int].fee == 0);
            return false;
        }
        i += 1;
    }
    true
}

/// The issues of point `i`, given whether its ledger was seen before.
fn issues_at(points: &[FeePoint], outliers: &Vec<bool>, i: usize, repeat: bool) -> (v: Vec<Issue>)
    requires
        i < points@.len(),
        outliers@.len() == points@.len(),
        ledgers_below_max(points@),
        repeat == is_repeat(points@, i as int),
    ensures
        v@ == point_issue_list(points@, outliers@, i as int),
{
    let ghost s = points@;
    let ghost k = i as int;
    let p = points[i];
    let mut issues: Vec<Issue> = Vec::new();
    if p.fee == 0 {
        issues.push(Issue::ZeroFee(p.ledger));
    }
    let ghost a1 = issues@;
    if repeat {
        issues.push(Issue::DuplicateLedger(p.ledger));
    }
    let ghost a2 = issues@;
    if i > 0 {
        let prev = points[i - 1];
        if p.timestamp < prev.timestamp {
            issues.push(Issue::OutOfOrder { ledger: p.ledger, expected: prev.timestamp, actual: p.timestamp });
        }
    }
    let ghost a3 = issues@;
    if i > 0 {
        let prev = points[i - 1];
        if p.ledger > prev.ledger + 1 {
            issues.push(Issue::LedgerGap { from: prev.ledger, to: p.ledger, gap_size: p.ledger - prev.ledger - 1 });
        }
    }
    let ghost a4 = issues@;
    if outliers[i] {
        issues.push(Issue::Outlier { ledger: p.ledger, fee: p.fee });
    }
    let ghost a5 = issues@;
    if p.timestamp > TIMESTAMP_LIMIT {
        issues.push(Issue::NegativeTimestamp(p.ledger));
    }
    assert(issues@ =~= point_issue_list(s, outliers@, k));
    issues
}

impl Repair {
    /// The issues of a series of fee points; `outliers` flags, for each
    /// point, whether it is an outlier.
    pub fn detect_issues(points: &[FeePoint], outliers: &Vec<bool>) -> (r: Vec<Issue>)
        requires
            outliers@.len() == points@.len(),
            ledgers_below_max(points@),
        ensures
            r@ == issue_list(points@, outliers@, points@.len() as int),
    {
        let ghost s = points@;
        let mut issues: Vec<Issue> = Vec::new();
        let mut seen: BTreeSet<u64> = BTreeSet::new();
        let mut i: usize = 0;
        while i < points.len()
            invariant
                s == points@,
                outliers@.len() == s.len(),
                ledgers_below_max(s),
                i <= s.len(),
                seen@ == ledgers(s.take(i as int)),
                issues@ == issue_list(s, outliers@, i as int),
            decreases s.len() - i,
        {
            let p = points[i];
            let ghost k = i as int;
            let ghost before = issues@;
            proof {
                lemma_repeat_seen(s, k);
            }
            let repeat = !seen.insert(p.ledger);
            let mut found = issues_at(points, outliers, i, repeat);
            issues.append(&mut found);
            assert(issues@ =~= issue_list(s, outliers@, k + 1));
            i += 1;
        }
        issues
    }

    /// The repair actions for the issues of a series of fee points, in the
    /// order of the issues: duplicates removed, one reorder for the first
    /// point out of order, zero fees replaced by the mean of the other
    /// ledgers' positive fees, outliers capped at `cap`, gaps interpolated,
    /// and fees of points with too large a timestamp set to zero.
    pub fn plan(points: &[FeePoint], outliers: &Vec<bool>, cap: u64) -> (r: Vec<RepairAction>)
        requires
            outliers@.len() == points@.len(),
            ledgers_below_max(points@),
            replacements_fit(points@),
        ensures
            r@ == plan_actions(points@, issue_list(points@, outliers@, points@.len() as int), cap),
    {
        let issues = Repair::detect_issues(points, outliers);
        let ghost all = issues@;
        let mut actions: Vec<RepairAction> = Vec::new();
        let mut reorder_planned = false;
        let mut i: usize = 0;
        while i < issues.len()
            invariant
                all == issues@,
                all == issue_list(points@, outliers@, points@.len() as int),
                replacements_fit(points@),
                i <= all.len(),
                actions@ == plan_actions(points@, all.take(i as int), cap),
                reorder_planned == actions@.contains(RepairAction::Reorder),
            decreases issues.len() - i,
        {
            assert(all.take(i + 1).drop_last() =~= all.take(i as int));
            let ghost before = actions@;
            match issues[i] {
                Issue::DuplicateLedger(l) => {
                    actions.push(RepairAction::RemoveDuplicate(l));
                },
                Issue::OutOfOrder { .. } => {
                    if !reorder_planned {
                        actions.push(RepairAction::Reorder);
                        reorder_planned = true;
                    }
                },
                Issue::ZeroFee(l) => {
                    proof {
                        lemma_zero_issue_point(points@, outliers@, points@.len() as int, i as int);
                    }
                    let (sum, count) = fee_sum_others(points, l);
                    let replacement = if count == 0 { 100 } else { sum / count };
                    actions.push(RepairAction::FillZeroFee { ledger: l, replacement });
                },
                Issue::Outlier { ledger, fee } => {
                    actions.push(RepairAction::CapOutlier { ledger, original: fee, capped: cap });
                },
                Issue::LedgerGap { from, to, gap_size } => {
                    actions.push(RepairAction::InterpolateGap { from, to, count: gap_size });
                },
                Issue::NegativeTimestamp(l) => {
                    actions.push(RepairAction::FillZeroFee { ledger: l, replacement: 0 });
                },
            }
            proof {
                let a = actions_for(points@, all[i as int], before.contains(RepairAction::Reorder), cap);
                assert(actions@ =~= before + a);
                assert(reorder_planned == actions@.contains(RepairAction::Reorder)) by {
                    if actions@.contains(RepairAction::Reorder) {
                        let j = choose|j: int| 0 <= j < actions@.len() && actions@[j] == RepairAction::Reorder;
                        if j < before.len() {
                            assert(before[j] == actions@[j]);
                        } else {
                            assert(actions@[j] == a[j - before.len()]);
                        }
                    }
                    if before.contains(RepairAction::Reorder) {
                        let j = choose|j: int| 0 <= j < before.len() && before[j] == RepairAction::Reorder;
                        assert(actions@[j] == before[j]);
                    }
                    if a.len() > 0 && a[0] == RepairAction::Reorder {
                        assert(actions@[before.len() as int] == a[0]);
                    }
                }
            }
            i += 1;
        }
        assert(all.take(i as int) =~= all);
        actions
    }

    /// The cleaned points and the planned actions. In a dry run the points
    /// come back unchanged; otherwise the first point of each ledger is kept,
    /// the points are sorted by timestamp then ledger, and the fee actions are
    /// applied in order.
    pub fn apply(points: &[FeePoint], dry_run: bool, outliers: &Vec<bool>, cap: u64) -> (r: (Vec<FeePoint>, Vec<RepairAction>))
        requires
            outliers@.len() == points@.len(),
            ledgers_below_max(points@),
            replacements_fit(points@),
        ensures
            r.1@ == plan_actions(points@, issue_list(points@, outliers@, points@.len() as int), cap),
            dry_run ==> r.0@ == points@,
            !dry_run ==> exists|sorted: Seq<FeePoint>|
                time_sorted(sorted) && sorted.to_multiset() == dedup_first(points@).to_multiset()
                    && r.0@ == apply_actions(sorted, r.1@),
    {
        let actions = Repair::plan(points, outliers, cap);
        if dry_run {
            let mut copy: Vec<FeePoint> = Vec::new();
            let mut i: usize = 0;
            while i < points.len()
                invariant
                    i <= points@.len(),
                    copy@ == points@.take(i as int),
                decreases points.len() - i,
            {
                copy.push(points[i]);
                assert(copy@ =~= points@.take(i + 1));
                i += 1;
            }
            assert(points@.take(i as int) =~= points@);
            return (copy, actions);
        }
        let unique = DuplicateRemover::remove_duplicates(points);
        let mut cleaned = sort_by_time(unique);
        let ghost sorted = cleaned@;
        let mut k: usize = 0;
        while k < actions.len()
            invariant
                k <= actions@.len(),
                cleaned@ == apply_actions(sorted, actions@.take(k as int)),
            decreases actions.len() - k,
        {
            assert(actions@.take(k + 1).drop_last() =~= actions@.take(k as int));
            let ghost before = cleaned@;
            match actions[k] {
                RepairAction::FillZeroFee { ledger, replacement } => {
                    match find_ledger(&cleaned, ledger) {
                        Some(j) => {
                            let mut p = cleaned[j];
                            if p.fee == 0 {
                                p.fee = replacement;
                                cleaned.set(j, p);
                                assert(cleaned@ =~= before.update(j as int, FeePoint { fee: replacement, ..before[j as int] }));
                            }
                        },
                        None => {},
                    }
                },
                RepairAction::CapOutlier { ledger, capped, .. } => {
                    match find_ledger(&cleaned, ledger) {
                        Some(j) => {
                            let mut p = cleaned[j];
                            if p.fee > capped {
                                p.fee = capped;
                                cleaned.set(j, p);
                                assert(cleaned@ =~= before.update(j as int, FeePoint { fee: capped, ..before[j as int] }));
                            }
                        },
                        None => {},
                    }
                },
                _ => {},
            }
            assert(actions@.take(k + 1).last() == actions@[k as int]);
            assert(cleaned@ == apply_action(before, actions@[k as int]));
            k += 1;
        }
        assert(actions@.take(k as int) =~= actions@);
        (cleaned, actions)
    }
}

proof fn lemma_zero_issue_point(s: Seq<FeePoint>, outliers: Seq<bool>, k: int, i: int)
    requires
        0 <= k <= s.len(),
        0 <= i < issue_list(s, outliers, k).len(),
        issue_list(s, outliers, k)[i] is ZeroFee,
    ensures
        exists|j: int| 0 <= j < s.len() && (#[trigger] s[j]).fee == 0 && s[j].ledger == issue_list(
            s,
            outliers,
            k,
        )[i]->ZeroFee_0,
    decreases k,
{
    let prev = issue_list(s, outliers, k - 1);
    if i < prev.len() {
        assert(issue_list(s, outliers, k)[i] == prev[i]);
        lemma_zero_issue_point(s, outliers, k - 1, i);
    } else {
        let p = s[k - 1];
        let local = point_issue_list(s, outliers, k - 1);
        assert(issue_list(s, outliers, k)[i] == local[i - prev.len()]);
        if p.fee != 0 {
            assert(local[i - prev.len()] !is ZeroFee);
        }
    }
}

fn find_ledger(points: &Vec<FeePoint>, l: u64) -> (r: Option<usize>)
    ensures
        match r {
            Some(j) => j < points@.len() && first_with_ledger(points@, l) == Some(j as int),
            None => first_with_ledger(points@, l) is None,
        },
{
    let mut i: usize = 0;
    while i < points.len()
        invariant
            i <= points@.len(),
            first_with_ledger(points@.take(i as int), l) is None,
        decreases points.len() - i,
    {
        assert(points@.take(i + 1).drop_last() =~= points@.take(i as int));
        if points[i].ledger == l {
            proof {
                lemma_first_with_ledger_prefix(points@, l, i as int + 1);
            }
            return Some(i);
        }
        i += 1;
    }
    assert(points@.take(i as int) =~= points@);
    None
}

proof fn lemma_first_with_ledger_prefix(s: Seq<FeePoint>, l: u64, k: int)
    requires
        0 <= k <= s.len(),
        first_with_ledger(s.take(k), l) is Some,
    ensures
        first_with_ledger(s, l) == first_with_ledger(s.take(k), l),
    decreases s.len() - k,
{
    if k < s.len() {
        assert(s.take(k + 1).drop_last() =~= s.take(k));
        lemma_first_with_ledger_prefix(s, l, k + 1);
    } else {
        assert(s.take(k) =~= s);
    }
}

proof fn lemma_apply_keeps_keys(s: Seq<FeePoint>, actions: Seq<RepairAction>)
    ensures
        apply_actions(s, actions).len() == s.len(),
        forall|i: int| 0 <= i < s.len() ==> (#[trigger] apply_actions(s, actions)[i]).ledger == s[i].ledger
            && apply_actions(s, actions)[i].timestamp == s[i].timestamp,
    decreases actions.len(),
{
    if actions.len() > 0 {
        lemma_apply_keeps_keys(s, actions.drop_last());
        let t = apply_actions(s, actions.drop_last());
        lemma_first_with_ledger_bound(t, match actions.last() {
            RepairAction::FillZeroFee { ledger, .. } => ledger,
            RepairAction::CapOutlier { ledger, .. } => ledger,
            _ => 0,
        });
    }
}

proof fn lemma_first_with_ledger_bound(s: Seq<FeePoint>, l: u64)
    ensures
        first_with_ledger(s, l) matches Some(i) ==> 0 <= i < s.len(),
    decreases s.len(),
{
    if s.len() > 0 {
        lemma_first_with_ledger_bound(s.drop_last(), l);
    }
}

/// A repair that is not a dry run leaves at most one point per ledger, in
/// increasing order of timestamp then ledger, one point for each ledger of
/// the input.
pub proof fn law_repair_clean(points: Seq<FeePoint>, sorted: Seq<FeePoint>, actions: Seq<RepairAction>)
    requires
        time_sorted(sorted),
        sorted.to_multiset() == dedup_first(points).to_multiset(),
    ensures
        time_sorted(apply_actions(sorted, actions)),
        distinct_ledgers(apply_actions(sorted, actions)),
        apply_actions(sorted, actions).len() == dedup_first(points).len(),
{
    broadcast use vstd::seq_lib::group_to_multiset_ensures;

    let d = dedup_first(points);
    law_dedup_first_distinct(points);
    assert(d.no_duplicates()) by {
        assert forall|i: int, j: int| 0 <= i < d.len() && 0 <= j < d.len() && i != j implies d[i] != d[j] by {
            if i < j {
                assert(d[i].ledger != d[j].ledger);
            } else {
                assert(d[j].ledger != d[i].ledger);
            }
        }
    }
    d.lemma_multiset_has_no_duplicates();
    sorted.lemma_multiset_has_no_duplicates_conv();
    vstd::seq_lib::to_multiset_len(sorted);
    vstd::seq_lib::to_multiset_len(d);
    assert(distinct_ledgers(sorted)) by {
        assert forall|i: int, j: int| 0 <= i < j < sorted.len() implies (#[trigger] sorted[i]).ledger != (#[trigger] sorted[j]).ledger by {
            if sorted[i].ledger == sorted[j].ledger {
                assert(sorted[i] != sorted[j]);
                assert(sorted.contains(sorted[i]));
                assert(sorted.contains(sorted[j]));
                vstd::seq_lib::to_multiset_contains(sorted, sorted[i]);
                vstd::seq_lib::to_multiset_contains(sorted, sorted[j]);
                vstd::seq_lib::to_multiset_contains(d, sorted[i]);
                vstd::seq_lib::to_multiset_contains(d, sorted[j]);
                assert(d.contains(sorted[i]));
                assert(d.contains(sorted[j]));
                let a = choose|a: int| 0 <= a < d.len() && d[a] == sorted[i];
                let b = choose|b: int| 0 <= b < d.len() && d[b] == sorted[j];
                if a < b {
                    assert(d[a].ledger != d[b].ledger);
                } else {
                    assert(d[b].ledger != d[a].ledger);
                }
            }
        }
    }
    lemma_apply_keeps_keys(sorted, actions);
    let r = apply_actions(sorted, actions);
    assert forall|i: int, j: int| 0 <= i < j < r.len() implies time_le(#[trigger] r[i], #[trigger] r[j]) by {
        assert(time_le(sorted[i], sorted[j]));
    }
    assert forall|i: int, j: int| 0 <= i < j < r.len() implies (#[trigger] r[i]).ledger != (#[trigger] r[j]).ledger by {
        assert(sorted[i].ledger != sorted[j].ledger);
    }
}

/// Options of the repair command.
#[derive(Debug, Clone, Copy)]
pub struct RepairArgs {
    /// Plan the repairs without applying them.
    pub dry_run: bool,
    /// Output the repair report as JSON.
    pub json: bool,
    /// Only show issues, do not repair.
    pub check_only: bool,
}

impl Default for RepairArgs {
    /// A dry run with a text report.
    fn default() -> (a: Self)
        ensures
            a.dry_run,
            !a.json,
            !a.check_only,
    {
        RepairArgs { dry_run: true, json: false, check_only: false }
    }
}

} // verus!
