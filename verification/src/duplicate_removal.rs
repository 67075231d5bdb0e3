use vstd::prelude::*;
use std::collections::BTreeSet;
use crate::fee_point::FeePoint;
use crate::text::{push_str, push_u64, dec};

verus! {

broadcast use vstd::std_specs::btree::group_btree_axioms;

/// The ledgers of a sequence of points.
pub open spec fn ledgers(s: Seq<FeePoint>) -> Set<u64> {
    s.map_values(|p: FeePoint| p.ledger).to_set()
}

/// No point before index `i` has the ledger of `s[i]`.
pub open spec fn first_of_ledger(s: Seq<FeePoint>, i: int) -> bool {
    forall|j: int| 0 <= j < i ==> (#[trigger] s[j]).ledger != s[i].ledger
}

/// The points of `s` that come first among those of their ledger, in order.
pub open spec fn dedup_first(s: Seq<FeePoint>) -> Seq<FeePoint>
    decreases s.len(),
{
    if s.len() == 0 {
        s
    } else if first_of_ledger(s, s.len() - 1) {
        dedup_first(s.drop_last()).push(s.last())
    } else {
        dedup_first(s.drop_last())
    }
}

/// The points of `s` whose ledger an earlier point already had, in order.
pub open spec fn repeats(s: Seq<FeePoint>) -> Seq<FeePoint>
    decreases s.len(),
{
    if s.len() == 0 {
        s
    } else if first_of_ledger(s, s.len() - 1) {
        repeats(s.drop_last())
    } else {
        repeats(s.drop_last()).push(s.last())
    }
}

/// The points of `s` that no later point shares a ledger with, in order.
pub open spec fn dedup_last(s: Seq<FeePoint>) -> Seq<FeePoint>
    decreases s.len(),
{
    if s.len() == 0 {
        s
    } else if ledgers(s.drop_first()).contains(s[0].ledger) {
        dedup_last(s.drop_first())
    } else {
        seq![s[0]] + dedup_last(s.drop_first())
    }
}

pub proof fn lemma_ledgers_push(s: Seq<FeePoint>, p: FeePoint)
    ensures
        ledgers(s.push(p)) == ledgers(s).insert(p.ledger),
{
    assert forall|l: u64| ledgers(s.push(p)).contains(l) <==> ledgers(s).insert(p.ledger).contains(l) by {
        lemma_ledgers_contains(s.push(p), l);
        lemma_ledgers_contains(s, l);
        if exists|j: int| 0 <= j < s.len() && (#[trigger] s[j]).ledger == l {
            let j = choose|j: int| 0 <= j < s.len() && (#[trigger] s[j]).ledger == l;
            assert(s.push(p)[j] == s[j]);
        }
        if l == p.ledger {
            assert(s.push(p)[s.len() as int] == p);
        }
        if exists|j: int| 0 <= j < s.push(p).len() && (#[trigger] s.push(p)[j]).ledger == l {
            let j = choose|j: int| 0 <= j < s.push(p).len() && (#[trigger] s.push(p)[j]).ledger == l;
            if j < s.len() {
                assert(s[j] == s.push(p)[j]);
            }
        }
    }
    assert(ledgers(s.push(p)) =~= ledgers(s).insert(p.ledger));
}

pub proof fn lemma_ledgers_contains(s: Seq<FeePoint>, l: u64)
    ensures
        ledgers(s).contains(l) <==> exists|j: int| 0 <= j < s.len() && (#[trigger] s[j]).ledger == l,
{
    let f = |q: FeePoint| q.ledger;
    let m = s.map_values(f);
    if ledgers(s).contains(l) {
        let j = choose|j: int| 0 <= j < m.len() && m[j] == l;
        assert(s[j].ledger == l);
    }
    if exists|j: int| 0 <= j < s.len() && (#[trigger] s[j]).ledger == l {
        let j = choose|j: int| 0 <= j < s.len() && (#[trigger] s[j]).ledger == l;
        assert(m[j] == l);
    }
}

proof fn lemma_first_of_ledger(s: Seq<FeePoint>)
    requires
        s.len() > 0,
    ensures
        first_of_ledger(s, s.len() - 1) <==> !ledgers(s.drop_last()).contains(s.last().ledger),
{
    lemma_ledgers_contains(s.drop_last(), s.last().ledger);
    if !first_of_ledger(s, s.len() - 1) {
        let j = choose|j: int| 0 <= j < s.len() - 1 && (#[trigger] s[j]).ledger == s[s.len() - 1].ledger;
        assert(s.drop_last()[j] == s[j]);
    }
    if ledgers(s.drop_last()).contains(s.last().ledger) {
        let j = choose|j: int| 0 <= j < s.drop_last().len() && (#[trigger] s.drop_last()[j]).ledger == s.last().ledger;
        assert(s.drop_last()[j] == s[j]);
    }
}

/// Removes duplicate ledger entries, keeping the first point of each ledger.
pub struct DuplicateRemover;

impl DuplicateRemover {
    /// The first point of each ledger, in their original order.
    pub fn remove_duplicates(points: &[FeePoint]) -> (r: Vec<FeePoint>)
        ensures
            r@ == dedup_first(points@),
    {
        let mut seen: BTreeSet<u64> = BTreeSet::new();
        let mut result: Vec<FeePoint> = Vec::new();
        let mut i: usize = 0;
        while i < points.len()
            invariant
                i <= points@.len(),
                seen@ == ledgers(points@.take(i as int)),
                result@ == dedup_first(points@.take(i as int)),
            decreases points.len() - i,
        {
            let p = points[i];
            proof {
                let t = points@.take(i + 1);
                assert(t.drop_last() =~= points@.take(i as int));
                lemma_first_of_ledger(t);
                lemma_ledgers_push(points@.take(i as int), p);
                assert(points@.take(i as int).push(p) =~= t);
            }
            if seen.insert(p.ledger) {
                result.push(p);
            }
            i += 1;
        }
        assert(points@.take(i as int) =~= points@);
        result
    }

    /// The last point of each ledger, in their original order.
    pub fn remove_duplicates_keep_last(points: &[FeePoint]) -> (r: Vec<FeePoint>)
        ensures
            r@ == dedup_last(points@),
    {
        let mut seen: BTreeSet<u64> = BTreeSet::new();
        let mut result: Vec<FeePoint> = Vec::new();
        let mut i: usize = points.len();
        assert(points@.skip(i as int) =~= Seq::<FeePoint>::empty());
        assert(ledgers(Seq::<FeePoint>::empty()) =~= Set::<u64>::empty());
        while i > 0
            invariant
                i <= points@.len(),
                seen@ == ledgers(points@.skip(i as int)),
                result@ == dedup_last(points@.skip(i as int)),
            decreases i,
        {
            i -= 1;
            let p = points[i];
            proof {
                let t = points@.skip(i as int);
                assert(t.drop_first() =~= points@.skip(i + 1));
                assert(t[0] == p);
                lemma_ledgers_prepend(t.drop_first(), p);
                assert(seq![p] + t.drop_first() =~= t);
            }
            if seen.insert(p.ledger) {
                result.insert(0, p);
                assert(result@ =~= seq![p] + dedup_last(points@.skip(i + 1)));
            }
        }
        assert(points@.skip(0) =~= points@);
        result
    }

    /// The points whose ledger an earlier point already had, in order.
    pub fn removed_points(points: &[FeePoint]) -> (r: Vec<&FeePoint>)
        ensures
            r@.len() == repeats(points@).len(),
            forall|k: int| 0 <= k < r@.len() ==> *(#[trigger] r@[k]) == repeats(points@)[k],
    {
        let mut seen: BTreeSet<u64> = BTreeSet::new();
        let mut removed: Vec<&FeePoint> = Vec::new();
        let mut i: usize = 0;
        while i < points.len()
            invariant
                i <= points@.len(),
                seen@ == ledgers(points@.take(i as int)),
                removed@.len() == repeats(points@.take(i as int)).len(),
                forall|k: int|
                    0 <= k < removed@.len() ==> *(#[trigger] removed@[k]) == repeats(
                        points@.take(i as int),
                    )[k],
            decreases points.len() - i,
        {
            let p = &points[i];
            proof {
                let t = points@.take(i + 1);
                assert(t.drop_last() =~= points@.take(i as int));
                lemma_first_of_ledger(t);
                lemma_ledgers_push(points@.take(i as int), *p);
                assert(points@.take(i as int).push(*p) =~= t);
            }
            if !seen.insert(p.ledger) {
                removed.push(p);
            }
            i += 1;
        }
        assert(points@.take(i as int) =~= points@);
        removed
    }

    /// The number of points whose ledger an earlier point already had.
    pub fn duplicate_count(points: &[FeePoint]) -> (n: usize)
        ensures
            n == repeats(points@).len(),
    {
        let mut seen: BTreeSet<u64> = BTreeSet::new();
        let mut count: usize = 0;
        let mut i: usize = 0;
        while i < points.len()
            invariant
                i <= points@.len(),
                seen@ == ledgers(points@.take(i as int)),
                count == repeats(points@.take(i as int)).len(),
            decreases points.len() - i,
        {
            let p = points[i];
            proof {
                let t = points@.take(i + 1);
                assert(t.drop_last() =~= points@.take(i as int));
                lemma_first_of_ledger(t);
                lemma_ledgers_push(points@.take(i as int), p);
                assert(points@.take(i as int).push(p) =~= t);
                law_kept_plus_removed(points@.take(i as int));
            }
            if !seen.insert(p.ledger) {
                count = count + 1;
            }
            i += 1;
        }
        assert(points@.take(i as int) =~= points@);
        count
    }

    /// The first point of each ledger over `a` followed by `b`.
    pub fn merge(a: &[FeePoint], b: &[FeePoint]) -> (r: Vec<FeePoint>)
        ensures
            r@ == dedup_first(a@ + b@),
    {
        let mut combined: Vec<FeePoint> = Vec::new();
        let mut i: usize = 0;
        while i < a.len()
            invariant
                i <= a@.len(),
                combined@ == a@.take(i as int),
            decreases a.len() - i,
        {
            combined.push(a[i]);
            assert(a@.take(i + 1) =~= a@.take(i as int).push(a@[i as int]));
            i += 1;
        }
        let mut j: usize = 0;
        while j < b.len()
            invariant
                j <= b@.len(),
                combined@ == a@ + b@.take(j as int),
            decreases b.len() - j,
        {
            combined.push(b[j]);
            assert(a@ + b@.take(j + 1) =~= (a@ + b@.take(j as int)).push(b@[j as int]));
            j += 1;
        }
        assert(a@.take(a@.len() as int) =~= a@);
        assert(b@.take(b@.len() as int) =~= b@);
        Self::remove_duplicates(combined.as_slice())
    }

    /// A report of the duplicates found.
    pub fn report(points: &[FeePoint]) -> (s: String)
        ensures
            s@ == dedup_report(points@),
    {
        let dup_count = Self::duplicate_count(points);
        proof {
            law_kept_plus_removed(points@);
        }
        let mut out = String::new();
        push_str(&mut out, "Duplicate removal report\n");
        push_str(&mut out, "========================\n");
        push_str(&mut out, "Total points:  ");
        push_u64(&mut out, points.len() as u64);
        push_str(&mut out, "\nDuplicates:    ");
        push_u64(&mut out, dup_count as u64);
        push_str(&mut out, "\nAfter removal: ");
        push_u64(&mut out, (points.len() - dup_count) as u64);
        push_str(&mut out, "\n");
        let ghost head = out@;
        assert(head =~= report_head(points@));
        if dup_count > 0 {
            let removed = Self::removed_points(points);
            push_str(&mut out, "Removed:\n");
            let ghost mid = out@;
            let mut k: usize = 0;
            while k < removed.len()
                invariant
                    k <= removed@.len(),
                    removed@.len() == repeats(points@).len(),
                    forall|m: int| 0 <= m < removed@.len() ==> *(#[trigger] removed@[m]) == repeats(points@)[m],
                    out@ == mid + removed_lines(repeats(points@).take(k as int)),
                decreases removed.len() - k,
            {
                let p = removed[k];
                let ghost before = out@;
                push_str(&mut out, "  ledger ");
                push_u64(&mut out, p.ledger);
                push_str(&mut out, " | fee ");
                push_u64(&mut out, p.fee);
                push_str(&mut out, " | ts ");
                push_u64(&mut out, p.timestamp);
                push_str(&mut out, "\n");
                proof {
                    let r = repeats(points@);
                    assert(r.take(k + 1).drop_last() =~= r.take(k as int));
                    assert(out@ =~= before + removed_line(*p));
                }
                k += 1;
            }
            assert(repeats(points@).take(removed@.len() as int) =~= repeats(points@));
        }
        out
    }
}

proof fn lemma_ledgers_prepend(s: Seq<FeePoint>, p: FeePoint)
    ensures
        ledgers(seq![p] + s) == ledgers(s).insert(p.ledger),
{
    let f = |q: FeePoint| q.ledger;
    assert((seq![p] + s).map_values(f) =~= seq![p.ledger] + s.map_values(f));
    assert forall|l: u64| ledgers(seq![p] + s).contains(l) <==> ledgers(s).insert(p.ledger).contains(l) by {
        lemma_ledgers_contains(seq![p] + s, l);
        lemma_ledgers_contains(s, l);
        if l == p.ledger {
            assert((seq![p] + s)[0] == p);
        }
        if exists|j: int| 0 <= j < s.len() && (#[trigger] s[j]).ledger == l {
            let j = choose|j: int| 0 <= j < s.len() && (#[trigger] s[j]).ledger == l;
            assert((seq![p] + s)[j + 1] == s[j]);
        }
        if exists|j: int| 0 <= j < (seq![p] + s).len() && (#[trigger] (seq![p] + s)[j]).ledger == l {
            let j = choose|j: int| 0 <= j < (seq![p] + s).len() && (#[trigger] (seq![p] + s)[j]).ledger == l;
            if j > 0 {
                assert(s[j - 1] == (seq![p] + s)[j]);
            }
        }
    }
    assert(ledgers(seq![p] + s) =~= ledgers(s).insert(p.ledger));
}

/// Every point is either kept by duplicate removal (the first of its ledger)
/// or among the removed points (a repeat): the kept and the removed points add
/// up to the input.
pub proof fn law_kept_plus_removed(s: Seq<FeePoint>)
    ensures
        dedup_first(s).len() + repeats(s).len() == s.len(),
    decreases s.len(),
{
    if s.len() > 0 {
        law_kept_plus_removed(s.drop_last());
    }
}

/// The fixed lines at the head of the duplicate report.
pub open spec fn report_head(s: Seq<FeePoint>) -> Seq<char> {
    "Duplicate removal report\n"@ + "========================\n"@ + "Total points:  "@ + dec(
        s.len(),
    ) + "\nDuplicates:    "@ + dec(repeats(s).len()) + "\nAfter removal: "@ + dec(
        (s.len() - repeats(s).len()) as nat,
    ) + "\n"@
}

/// The report line of one removed point.
pub open spec fn removed_line(p: FeePoint) -> Seq<char> {
    "  ledger "@ + dec(p.ledger as nat) + " | fee "@ + dec(p.fee as nat) + " | ts "@ + dec(
        p.timestamp as nat,
    ) + "\n"@
}

/// The report lines of removed points, in order.
pub open spec fn removed_lines(s: Seq<FeePoint>) -> Seq<char>
    decreases s.len(),
{
    if s.len() == 0 {
        Seq::empty()
    } else {
        removed_lines(s.drop_last()) + removed_line(s.last())
    }
}

/// The duplicate report: counts, then each removed point when there are any.
pub open spec fn dedup_report(s: Seq<FeePoint>) -> Seq<char> {
    if repeats(s).len() > 0 {
        report_head(s) + "Removed:\n"@ + removed_lines(repeats(s))
    } else {
        report_head(s)
    }
}

/// Arguments for the dedup subcommand.
pub struct DedupArgs {
    /// Keep the last occurrence instead of the first.
    pub keep_last: bool,
    /// Show a detailed report.
    pub verbose: bool,
}

impl Default for DedupArgs {
    fn default() -> (a: Self)
        ensures
            !a.keep_last,
            !a.verbose,
    {
        DedupArgs { keep_last: false, verbose: false }
    }
}

impl DedupArgs {
    /// Whether removing duplicates would change the points.
    pub fn has_duplicates(points: &[FeePoint]) -> (b: bool)
        ensures
            b == (repeats(points@).len() > 0),
    {
        DuplicateRemover::duplicate_count(points) > 0
    }
}

/// No two points of `s` share a ledger.
pub open spec fn distinct_ledgers(s: Seq<FeePoint>) -> bool {
    forall|i: int, j: int| 0 <= i < j < s.len() ==> (#[trigger] s[i]).ledger != (#[trigger] s[j]).ledger
}

proof fn lemma_dedup_first_from(s: Seq<FeePoint>)
    ensures
        forall|i: int| 0 <= i < dedup_first(s).len() ==> exists|j: int| 0 <= j < s.len() && s[j]
            == #[trigger] dedup_first(s)[i],
    decreases s.len(),
{
    if s.len() > 0 {
        let t = s.drop_last();
        lemma_dedup_first_from(t);
        assert forall|i: int| 0 <= i < dedup_first(s).len() implies exists|j: int| 0 <= j < s.len() && s[j]
            == #[trigger] dedup_first(s)[i] by {
            if i < dedup_first(t).len() {
                assert(dedup_first(s)[i] == dedup_first(t)[i]);
                let j = choose|j: int| 0 <= j < t.len() && t[j] == dedup_first(t)[i];
                assert(s[j] == t[j]);
            } else {
                assert(s[s.len() - 1] == dedup_first(s)[i]);
            }
        }
    }
}

/// Removing duplicates keeps at most one point per ledger.
pub proof fn law_dedup_first_distinct(s: Seq<FeePoint>)
    ensures
        distinct_ledgers(dedup_first(s)),
    decreases s.len(),
{
    if s.len() > 0 {
        let t = s.drop_last();
        law_dedup_first_distinct(t);
        lemma_dedup_first_from(t);
        let d = dedup_first(s);
        if first_of_ledger(s, s.len() - 1) {
            assert forall|i: int, j: int| 0 <= i < j < d.len() implies (#[trigger] d[i]).ledger != (#[trigger] d[j]).ledger by {
                let dt = dedup_first(t);
                assert(d[i] == dt[i]);
                if j < dt.len() {
                    assert(d[j] == dt[j]);
                } else {
                    let k = choose|k: int| 0 <= k < t.len() && t[k] == dt[i];
                    assert(s[k] == t[k]);
                }
            }
        }
    }
}

/// Removing duplicates loses no ledger.
pub proof fn law_dedup_first_keeps_ledgers(s: Seq<FeePoint>)
    ensures
        ledgers(dedup_first(s)) == ledgers(s),
    decreases s.len(),
{
    if s.len() > 0 {
        let t = s.drop_last();
        law_dedup_first_keeps_ledgers(t);
        lemma_ledgers_push(t, s.last());
        assert(t.push(s.last()) =~= s);
        if first_of_ledger(s, s.len() - 1) {
            lemma_ledgers_push(dedup_first(t), s.last());
        } else {
            let j = choose|j: int| 0 <= j < s.len() - 1 && (#[trigger] s[j]).ledger == s[s.len() - 1].ledger;
            lemma_ledgers_contains(t, s.last().ledger);
            assert(t[j] == s[j]);
            assert(ledgers(t).insert(s.last().ledger) =~= ledgers(t));
        }
    }
}

/// Points with distinct ledgers have no duplicates to remove.
pub proof fn law_dedup_first_of_distinct(s: Seq<FeePoint>)
    requires
        distinct_ledgers(s),
    ensures
        dedup_first(s) == s,
    decreases s.len(),
{
    if s.len() > 0 {
        let t = s.drop_last();
        assert forall|i: int, j: int| 0 <= i < j < t.len() implies (#[trigger] t[i]).ledger != (#[trigger] t[j]).ledger by {
            assert(t[i] == s[i] && t[j] == s[j]);
        }
        law_dedup_first_of_distinct(t);
        assert forall|j: int| 0 <= j < s.len() - 1 implies (#[trigger] s[j]).ledger != s[s.len() - 1].ledger by {}
        assert(t.push(s.last()) =~= s);
    }
}

/// Removing duplicates a second time changes nothing.
pub proof fn law_dedup_first_idempotent(s: Seq<FeePoint>)
    ensures
        dedup_first(dedup_first(s)) == dedup_first(s),
{
    law_dedup_first_distinct(s);
    law_dedup_first_of_distinct(dedup_first(s));
}

/// Keeping the last point of each ledger loses no ledger.
pub proof fn law_dedup_last_keeps_ledgers(s: Seq<FeePoint>)
    ensures
        ledgers(dedup_last(s)) == ledgers(s),
    decreases s.len(),
{
    if s.len() > 0 {
        let t = s.drop_first();
        law_dedup_last_keeps_ledgers(t);
        assert(seq![s[0]] + t =~= s);
        lemma_ledgers_prepend(t, s[0]);
        if ledgers(t).contains(s[0].ledger) {
            assert(ledgers(t).insert(s[0].ledger) =~= ledgers(t));
        } else {
            lemma_ledgers_prepend(dedup_last(t), s[0]);
        }
    }
}

/// Keeping the last point of each ledger keeps at most one point per ledger.
pub proof fn law_dedup_last_distinct(s: Seq<FeePoint>)
    ensures
        distinct_ledgers(dedup_last(s)),
    decreases s.len(),
{
    if s.len() > 0 {
        let t = s.drop_first();
        law_dedup_last_distinct(t);
        if !ledgers(t).contains(s[0].ledger) {
            let dt = dedup_last(t);
            let d = seq![s[0]] + dt;
            law_dedup_last_keeps_ledgers(t);
            assert forall|i: int, j: int| 0 <= i < j < d.len() implies (#[trigger] d[i]).ledger != (#[trigger] d[j]).ledger by {
                assert(d[j] == dt[j - 1]);
                if i == 0 {
                    lemma_ledgers_contains(dt, dt[j - 1].ledger);
                } else {
                    assert(d[i] == dt[i - 1]);
                }
            }
        }
    }
}

/// Keeping the first or the last point of each ledger keeps as many points:
/// one per ledger.
pub proof fn law_dedup_first_last_same_len(s: Seq<FeePoint>)
    ensures
        dedup_first(s).len() == dedup_last(s).len(),
        dedup_first(s).len() == ledgers(s).len(),
{
    law_dedup_first_distinct(s);
    law_dedup_first_keeps_ledgers(s);
    law_dedup_last_distinct(s);
    law_dedup_last_keeps_ledgers(s);
    lemma_distinct_len(dedup_first(s));
    lemma_distinct_len(dedup_last(s));
}

/// Points with distinct ledgers are as many as their ledgers.
proof fn lemma_distinct_len(s: Seq<FeePoint>)
    requires
        distinct_ledgers(s),
    ensures
        ledgers(s).len() == s.len(),
{
    let m = s.map_values(|p: FeePoint| p.ledger);
    assert forall|i: int, j: int| 0 <= i < m.len() && 0 <= j < m.len() && i != j implies m[i] != m[j] by {
        if i < j {
            assert(s[i].ledger != s[j].ledger);
        } else {
            assert(s[j].ledger != s[i].ledger);
        }
    }
    m.unique_seq_to_set();
}

/// Merging two sequences keeps exactly the ledgers of both, each once.
pub proof fn law_merge_ledgers(a: Seq<FeePoint>, b: Seq<FeePoint>)
    ensures
        ledgers(dedup_first(a + b)) == ledgers(a).union(ledgers(b)),
        distinct_ledgers(dedup_first(a + b)),
{
    law_dedup_first_keeps_ledgers(a + b);
    law_dedup_first_distinct(a + b);
    assert forall|l: u64| #[trigger] ledgers(a + b).contains(l) <==> ledgers(a).union(ledgers(b)).contains(l) by {
        lemma_ledgers_contains(a + b, l);
        lemma_ledgers_contains(a, l);
        lemma_ledgers_contains(b, l);
        if exists|j: int| 0 <= j < (a + b).len() && (#[trigger] (a + b)[j]).ledger == l {
            let j = choose|j: int| 0 <= j < (a + b).len() && (#[trigger] (a + b)[j]).ledger == l;
            if j < a.len() {
                assert(a[j] == (a + b)[j]);
            } else {
                assert(b[j - a.len()] == (a + b)[j]);
            }
        }
        if exists|j: int| 0 <= j < a.len() && (#[trigger] a[j]).ledger == l {
            let j = choose|j: int| 0 <= j < a.len() && (#[trigger] a[j]).ledger == l;
            assert((a + b)[j] == a[j]);
        }
        if exists|j: int| 0 <= j < b.len() && (#[trigger] b[j]).ledger == l {
            let j = choose|j: int| 0 <= j < b.len() && (#[trigger] b[j]).ledger == l;
            assert((a + b)[a.len() + j] == b[j]);
        }
    }
    assert(ledgers(a + b) =~= ledgers(a).union(ledgers(b)));
}

} // verus!
