use vstd::prelude::*;
use std::collections::BTreeSet;
use crate::fee_point::FeePoint;
use crate::duplicate_removal::{ledgers, lemma_ledgers_push, lemma_ledgers_contains};
use crate::text::{push_str, push_u64, string_from, dec};

verus! {

broadcast use vstd::std_specs::btree::group_btree_axioms;

/// Counts of the data-quality issues found in a series of fee points.
#[derive(Debug, Clone, Copy, PartialEq, Eq, Structural)]
pub struct QualityIssues {
    /// Points whose ledger appeared earlier.
    pub duplicates: usize,
    /// Ledgers missing between consecutive points.
    pub gaps: usize,
    /// Points flagged as statistical outliers.
    pub outliers: usize,
    /// Points with a zero fee.
    pub zero_fees: usize,
    /// Points earlier in time than the point before them.
    pub out_of_order: usize,
    /// The sum of the five counts above.
    pub total: usize,
}

/// One issue found in a series of fee points.
#[derive(Debug, Clone)]
pub struct IssueEntry {
    /// `zero_fee`, `duplicate`, `gap`, `out_of_order` or `outlier`.
    pub issue_type: String,
    /// The ledger of the point where it was found.
    pub ledger: u64,
    /// What was found.
    pub description: String,
}

/// The wording of issue descriptions: that of the JSON report or of the text report.
#[derive(Debug, Clone, Copy, PartialEq, Eq, Structural)]
pub enum ReportStyle {
    Json,
    Text,
}

/// An issue as three values: its type, its ledger and its description.
pub type IssueModel = (Seq<char>, u64, Seq<char>);

/// The view of an issue entry.
pub open spec fn issue_model(e: IssueEntry) -> IssueModel {
    (e.issue_type@, e.ledger, e.description@)
}

/// Some point before index `i` has the ledger of point `i`.
pub open spec fn is_repeat(s: Seq<FeePoint>, i: int) -> bool {
    exists|j: int| 0 <= j < i && (#[trigger] s[j]).ledger == s[i].ledger
}

/// The ledgers missing between point `i - 1` and point `i`.
pub open spec fn gap_before(s: Seq<FeePoint>, i: int) -> nat {
    if i > 0 && s[i].ledger > s[i - 1].ledger + 1 {
        (s[i].ledger - s[i - 1].ledger - 1) as nat
    } else {
        0
    }
}

/// Point `i` is earlier in time than point `i - 1`.
pub open spec fn back_in_time(s: Seq<FeePoint>, i: int) -> bool {
    i > 0 && s[i].timestamp < s[i - 1].timestamp
}

/// The description of a zero fee.
pub open spec fn zero_text(ledger: u64) -> Seq<char> {
    "Zero fee at ledger "@ + dec(ledger as nat)
}

/// The description of a repeated ledger.
pub open spec fn duplicate_text(ledger: u64) -> Seq<char> {
    "Duplicate ledger "@ + dec(ledger as nat)
}

/// The description of missing ledgers between `prev` and `ledger`.
pub open spec fn gap_text(style: ReportStyle, prev: u64, ledger: u64, missing: nat) -> Seq<char> {
    (match style {
        ReportStyle::Json => "Gap "@,
        ReportStyle::Text => "Ledger gap "@,
    }) + dec(prev as nat) + " -> "@ + dec(ledger as nat) + " ("@ + dec(missing) + " missing)"@
}

/// The description of a point earlier in time than the one before it.
pub open spec fn order_text(style: ReportStyle, ledger: u64, ts: u64, prev_ts: u64) -> Seq<char> {
    match style {
        ReportStyle::Json => "Timestamp "@ + dec(ts as nat) + " < prev "@ + dec(prev_ts as nat),
        ReportStyle::Text => "Out-of-order at ledger "@ + dec(ledger as nat) + ": ts "@ + dec(
            ts as nat,
        ) + " < prev "@ + dec(prev_ts as nat),
    }
}

/// The issues of point `i`, in this order: zero fee, repeated ledger, missing
/// ledgers before it, earlier than the point before, outlier (as `notes` says).
pub open spec fn point_issues(
    s: Seq<FeePoint>,
    notes: Seq<Option<Seq<char>>>,
    style: ReportStyle,
    i: int,
) -> Seq<IssueModel> {
    let p = s[i];
    (if p.fee == 0 {
        seq![("zero_fee"@, p.ledger, zero_text(p.ledger))]
    } else {
        Seq::empty()
    }) + (if is_repeat(s, i) {
        seq![("duplicate"@, p.ledger, duplicate_text(p.ledger))]
    } else {
        Seq::empty()
    }) + (if gap_before(s, i) > 0 {
        seq![("gap"@, p.ledger, gap_text(style, s[i - 1].ledger, p.ledger, gap_before(s, i)))]
    } else {
        Seq::empty()
    }) + (if back_in_time(s, i) {
        seq![("out_of_order"@, p.ledger, order_text(style, p.ledger, p.timestamp, s[i - 1].timestamp))]
    } else {
        Seq::empty()
    }) + (match notes[i] {
        Some(d) => seq![("outlier"@, p.ledger, d)],
        None => Seq::empty(),
    })
}

/// The issues of the first `k` points, point by point.
pub open spec fn issues_upto(
    s: Seq<FeePoint>,
    notes: Seq<Option<Seq<char>>>,
    style: ReportStyle,
    k: int,
) -> Seq<IssueModel>
    decreases k,
{
    if k <= 0 {
        Seq::empty()
    } else {
        issues_upto(s, notes, style, k - 1) + point_issues(s, notes, style, k - 1)
    }
}

/// How many of the first `k` points have a zero fee.
pub open spec fn zero_count(s: Seq<FeePoint>, k: int) -> nat
    decreases k,
{
    if k <= 0 { 0 } else { zero_count(s, k - 1) + if s[k - 1].fee == 0 { 1nat } else { 0nat } }
}

/// How many of the first `k` points repeat an earlier ledger.
pub open spec fn repeat_count(s: Seq<FeePoint>, k: int) -> nat
    decreases k,
{
    if k <= 0 { 0 } else { repeat_count(s, k - 1) + if is_repeat(s, k - 1) { 1nat } else { 0nat } }
}

/// How many ledgers are missing before the first `k` points.
pub open spec fn gap_sum(s: Seq<FeePoint>, k: int) -> nat
    decreases k,
{
    if k <= 0 { 0 } else { gap_sum(s, k - 1) + gap_before(s, k - 1) }
}

/// How many of the first `k` points are earlier than the point before them.
pub open spec fn back_count(s: Seq<FeePoint>, k: int) -> nat
    decreases k,
{
    if k <= 0 { 0 } else { back_count(s, k - 1) + if back_in_time(s, k - 1) { 1nat } else { 0nat } }
}

/// How many of the first `k` notes flag an outlier.
pub open spec fn note_count(notes: Seq<Option<Seq<char>>>, k: int) -> nat
    decreases k,
{
    if k <= 0 { 0 } else { note_count(notes, k - 1) + if notes[k - 1] is Some { 1nat } else { 0nat } }
}

/// The sum of all issue counts.
pub open spec fn issue_total(s: Seq<FeePoint>, notes: Seq<Option<Seq<char>>>) -> nat {
    repeat_count(s, s.len() as int) + gap_sum(s, s.len() as int) + note_count(notes, s.len() as int)
        + zero_count(s, s.len() as int) + back_count(s, s.len() as int)
}

/// The notes as texts.
pub open spec fn notes_view(notes: Seq<Option<String>>) -> Seq<Option<Seq<char>>> {
    notes.map_values(|n: Option<String>| match n {
        Some(d) => Some(d@),
        None => None,
    })
}

/// Every point but the last has a ledger below `u64::MAX`.
pub open spec fn ledgers_below_max(s: Seq<FeePoint>) -> bool {
    forall|i: int| 0 <= i < s.len() - 1 ==> (#[trigger] s[i]).ledger < u64::MAX
}

/// Whether every point but the last has a ledger below `u64::MAX`: the
/// condition under which the ledger after each point can be named.
pub fn ledgers_fit(points: &[FeePoint]) -> (b: bool)
    ensures
        b == ledgers_below_max(points@),
{
    let mut i: usize = 0;
    while i < points.len()
        invariant
            i <= points@.len(),
            forall|j: int| 0 <= j < i && j < points@.len() - 1 ==> (#[trigger] points@[j]).ledger < u64::MAX,
        decreases points.len() - i,
    {
        if i + 1 < points.len() && points[i].ledger == u64::MAX {
            assert(points@[i as int].ledger == u64::MAX);
            return false;
        }
        i += 1;
    }
    true
}

/// Point `k` repeats an earlier ledger exactly when its ledger is among
/// those before it.
pub proof fn lemma_repeat_seen(s: Seq<FeePoint>, k: int)
    requires
        0 <= k < s.len(),
    ensures
        ledgers(s.take(k + 1)) == ledgers(s.take(k)).insert(s[k].ledger),
        is_repeat(s, k) <==> ledgers(s.take(k)).contains(s[k].ledger),
{
    let p = s[k];
    lemma_ledgers_push(s.take(k), p);
    assert(s.take(k).push(p) =~= s.take(k + 1));
    lemma_ledgers_contains(s.take(k), p.ledger);
    if is_repeat(s, k) {
        let j = choose|j: int| 0 <= j < k && (#[trigger] s[j]).ledger == s[k].ledger;
        assert(s.take(k)[j] == s[j]);
    }
    if exists|j: int| 0 <= j < s.take(k).len() && (#[trigger] s.take(k)[j]).ledger == p.ledger {
        let j = choose|j: int| 0 <= j < s.take(k).len() && (#[trigger] s.take(k)[j]).ledger == p.ledger;
        assert(s[j] == s.take(k)[j]);
    }
}

proof fn lemma_counts_bounded(s: Seq<FeePoint>, notes: Seq<Option<Seq<char>>>, k: int)
    requires
        0 <= k <= s.len(),
    ensures
        zero_count(s, k) <= k,
        repeat_count(s, k) <= k,
        back_count(s, k) <= k,
        note_count(notes, k) <= k,
        zero_count(s, k) <= zero_count(s, s.len() as int),
        repeat_count(s, k) <= repeat_count(s, s.len() as int),
        back_count(s, k) <= back_count(s, s.len() as int),
        note_count(notes, k) <= note_count(notes, s.len() as int),
        gap_sum(s, k) <= gap_sum(s, s.len() as int),
    decreases s.len() - k,
{
    if k > 0 {
        lemma_counts_prefix(s, notes, k - 1);
    }
    if k < s.len() {
        lemma_counts_bounded(s, notes, k + 1);
    }
}

proof fn lemma_counts_prefix(s: Seq<FeePoint>, notes: Seq<Option<Seq<char>>>, k: int)
    requires
        0 <= k,
    ensures
        zero_count(s, k) <= k,
        repeat_count(s, k) <= k,
        back_count(s, k) <= k,
        note_count(notes, k) <= k,
    decreases k,
{
    if k > 0 {
        lemma_counts_prefix(s, notes, k - 1);
    }
}

fn issue(kind: &str, ledger: u64, description: String) -> (e: IssueEntry)
    ensures
        issue_model(e) == (kind@, ledger, description@),
{
    IssueEntry { issue_type: string_from(kind), ledger, description }
}

/// The sum of the issue counts of the first `k` points.
pub open spec fn total_upto(s: Seq<FeePoint>, notes: Seq<Option<Seq<char>>>, k: int) -> nat {
    repeat_count(s, k) + gap_sum(s, k) + note_count(notes, k) + zero_count(s, k) + back_count(s, k)
}

/// The issues that point `k` adds to the sum.
pub open spec fn issues_of_point(s: Seq<FeePoint>, notes: Seq<Option<Seq<char>>>, k: int) -> nat {
    (if s[k].fee == 0 { 1nat } else { 0nat }) + (if is_repeat(s, k) { 1nat } else { 0nat }) + gap_before(s, k)
        + (if back_in_time(s, k) { 1nat } else { 0nat }) + (if notes[k] is Some { 1nat } else { 0nat })
}

proof fn lemma_total_step(s: Seq<FeePoint>, notes: Seq<Option<Seq<char>>>, k: int)
    requires
        0 <= k,
    ensures
        total_upto(s, notes, k + 1) == total_upto(s, notes, k) + issues_of_point(s, notes, k),
{
}

/// Whether the issues of a series of fee points can be counted: no ledger
/// but the last is `u64::MAX`, and all the issue counts add up within
/// `usize`. This is the condition under which `scan_issues` may be called.
#[verifier::spinoff_prover]
pub fn scan_fits(points: &[FeePoint], outlier_notes: &Vec<Option<String>>) -> (b: bool)
    requires
        outlier_notes@.len() == points@.len(),
    ensures
        b == (ledgers_below_max(points@) && issue_total(points@, notes_view(outlier_notes@)) <= usize::MAX),
{
    let ghost s = points@;
    let ghost notes = notes_view(outlier_notes@);
    let mut seen: BTreeSet<u64> = BTreeSet::new();
    let mut total: u128 = 0;
    let mut i: usize = 0;
    while i < points.len()
        invariant
            s == points@,
            notes == notes_view(outlier_notes@),
            outlier_notes@.len() == s.len(),
            i <= s.len(),
            seen@ == ledgers(s.take(i as int)),
            total == total_upto(s, notes, i as int),
            total <= usize::MAX,
            forall|j: int| 0 <= j < i && j < s.len() - 1 ==> (#[trigger] s[j]).ledger < u64::MAX,
        decreases s.len() - i,
    {
        let p = points[i];
        let ghost k = i as int;
        proof {
            lemma_repeat_seen(s, k);
            lemma_total_step(s, notes, k);
        }
        if i + 1 < points.len() && p.ledger == u64::MAX {
            return false;
        }
        let zero: u128 = if p.fee == 0 { 1 } else { 0 };
        let repeat: u128 = if seen.insert(p.ledger) { 0 } else { 1 };
        let mut gap: u128 = 0;
        let mut back: u128 = 0;
        if i > 0 {
            let prev = points[i - 1];
            if p.ledger > prev.ledger && p.ledger - prev.ledger > 1 {
                gap = (p.ledger - prev.ledger - 1) as u128;
            }
            if p.timestamp < prev.timestamp {
                back = 1;
            }
        }
        let note: u128 = if outlier_notes[i].is_some() { 1 } else { 0 };
        assert(notes[k] is Some <==> outlier_notes@[k] is Some);
        assert(zero + repeat + gap + back + note == issues_of_point(s, notes, k));
        total = total + zero + repeat + gap + back + note;
        if total > usize::MAX as u128 {
            proof {
                lemma_counts_bounded(s, notes, k + 1);
            }
            return false;
        }
        i += 1;
    }
    assert(s.take(s.len() as int) =~= s);
    true
}

/// The issues of a series of fee points and their counts. `outlier_notes`
/// holds, for each point, the description of its outlier issue when it is
/// one; `style` picks the wording of the other descriptions.
#[verifier::rlimit(40)]
pub fn scan_issues(points: &[FeePoint], outlier_notes: &Vec<Option<String>>, style: ReportStyle) -> (r: (
    QualityIssues,
    Vec<IssueEntry>,
))
    requires
        outlier_notes@.len() == points@.len(),
        ledgers_below_max(points@),
        issue_total(points@, notes_view(outlier_notes@)) <= usize::MAX,
    ensures
        ({
            let s = points@;
            let notes = notes_view(outlier_notes@);
            let n = s.len() as int;
            &&& r.0.duplicates == repeat_count(s, n)
            &&& r.0.gaps == gap_sum(s, n)
            &&& r.0.outliers == note_count(notes, n)
            &&& r.0.zero_fees == zero_count(s, n)
            &&& r.0.out_of_order == back_count(s, n)
            &&& r.0.total == issue_total(s, notes)
            &&& r.1@.map_values(|e: IssueEntry| issue_model(e)) == issues_upto(s, notes, style, n)
        }),
{
    let ghost s = points@;
    let ghost notes = notes_view(outlier_notes@);
    let ghost n = s.len() as int;
    let mut details: Vec<IssueEntry> = Vec::new();
    let mut seen: BTreeSet<u64> = BTreeSet::new();
    let mut duplicates: usize = 0;
    let mut gaps: usize = 0;
    let mut outliers: usize = 0;
    let mut zero_fees: usize = 0;
    let mut out_of_order: usize = 0;
    let mut i: usize = 0;
    while i < points.len()
        invariant
            s == points@,
            notes == notes_view(outlier_notes@),
            n == s.len(),
            outlier_notes@.len() == s.len(),
            ledgers_below_max(s),
            issue_total(s, notes) <= usize::MAX,
            i <= s.len(),
            seen@ == ledgers(s.take(i as int)),
            duplicates == repeat_count(s, i as int),
            gaps == gap_sum(s, i as int),
            outliers == note_count(notes, i as int),
            zero_fees == zero_count(s, i as int),
            out_of_order == back_count(s, i as int),
            details@.map_values(|e: IssueEntry| issue_model(e)) == issues_upto(s, notes, style, i as int),
        decreases s.len() - i,
    {
        let p = points[i];
        let ghost before = details@.map_values(|e: IssueEntry| issue_model(e));
        let ghost k = i as int;
        proof {
            lemma_counts_bounded(s, notes, k + 1);
            lemma_repeat_seen(s, k);
        }
        let ghost mut added: Seq<IssueModel> = Seq::empty();
        if p.fee == 0 {
            zero_fees = zero_fees + 1;
            let mut d = String::new();
            push_str(&mut d, "Zero fee at ledger ");
            push_u64(&mut d, p.ledger);
            details.push(issue("zero_fee", p.ledger, d));
            proof {
                added = added.push(("zero_fee"@, p.ledger, zero_text(p.ledger)));
            }
        }
        assert(details@.map_values(|e: IssueEntry| issue_model(e)) =~= before + added);
        if !seen.insert(p.ledger) {
            duplicates = duplicates + 1;
            let mut d = String::new();
            push_str(&mut d, "Duplicate ledger ");
            push_u64(&mut d, p.ledger);
            details.push(issue("duplicate", p.ledger, d));
            proof {
                added = added.push(("duplicate"@, p.ledger, duplicate_text(p.ledger)));
            }
        }
        assert(details@.map_values(|e: IssueEntry| issue_model(e)) =~= before + added);
        if i > 0 {
            let pl = points[i - 1].ledger;
            if p.ledger > pl + 1 {
                let gap = p.ledger - pl - 1;
                gaps = gaps + gap as usize;
                let mut d = String::new();
                match style {
                    ReportStyle::Json => push_str(&mut d, "Gap "),
                    ReportStyle::Text => push_str(&mut d, "Ledger gap "),
                }
                push_u64(&mut d, pl);
                push_str(&mut d, " -> ");
                push_u64(&mut d, p.ledger);
                push_str(&mut d, " (");
                push_u64(&mut d, gap);
                push_str(&mut d, " missing)");
                assert(d@ =~= gap_text(style, pl, p.ledger, gap as nat));
                details.push(issue("gap", p.ledger, d));
                proof {
                    added = added.push(("gap"@, p.ledger, gap_text(style, pl, p.ledger, gap as nat)));
                }
            }
        }
        assert(details@.map_values(|e: IssueEntry| issue_model(e)) =~= before + added);
        if i > 0 {
            let pt = points[i - 1].timestamp;
            if p.timestamp < pt {
                out_of_order = out_of_order + 1;
                let mut d = String::new();
                match style {
                    ReportStyle::Json => {
                        push_str(&mut d, "Timestamp ");
                        push_u64(&mut d, p.timestamp);
                        push_str(&mut d, " < prev ");
                        push_u64(&mut d, pt);
                    },
                    ReportStyle::Text => {
                        push_str(&mut d, "Out-of-order at ledger ");
                        push_u64(&mut d, p.ledger);
                        push_str(&mut d, ": ts ");
                        push_u64(&mut d, p.timestamp);
                        push_str(&mut d, " < prev ");
                        push_u64(&mut d, pt);
                    },
                }
                assert(d@ =~= order_text(style, p.ledger, p.timestamp, pt));
                details.push(issue("out_of_order", p.ledger, d));
                proof {
                    added = added.push(("out_of_order"@, p.ledger, order_text(style, p.ledger, p.timestamp, pt)));
                }
            }
        }
        assert(details@.map_values(|e: IssueEntry| issue_model(e)) =~= before + added);
        match &outlier_notes[i] {
            Some(note) => {
                outliers = outliers + 1;
                details.push(issue("outlier", p.ledger, string_from(note.as_str())));
                proof {
                    added = added.push(("outlier"@, p.ledger, note@));
                }
            },
            None => {},
        }
        assert(notes[k] == match outlier_notes@[k] {
            Some(d) => Some(d@),
            None => None,
        });
        assert(added =~= point_issues(s, notes, style, k));
        assert(details@.map_values(|e: IssueEntry| issue_model(e)) =~= issues_upto(s, notes, style, k + 1));
        i += 1;
    }
    proof {
        lemma_counts_bounded(s, notes, n);
    }
    let total = duplicates + gaps + outliers + zero_fees + out_of_order;
    (QualityIssues { duplicates, gaps, outliers, zero_fees, out_of_order, total }, details)
}

/// Options of the JSON quality report.
#[derive(Debug, Clone, Copy)]
pub struct JsonReportArgs {
    /// Use the compact, single-line format.
    pub compact: bool,
}

impl Default for JsonReportArgs {
    /// The full format.
    fn default() -> (a: Self)
        ensures
            !a.compact,
    {
        JsonReportArgs { compact: false }
    }
}

/// The kind and the ledger of each issue.
pub open spec fn issue_kinds(issues: Seq<IssueModel>) -> Seq<(Seq<char>, u64)> {
    issues.map_values(|m: IssueModel| (m.0, m.1))
}

/// Two sets of outlier notes flag the same points.
pub open spec fn same_flags(n1: Seq<Option<Seq<char>>>, n2: Seq<Option<Seq<char>>>) -> bool {
    n1.len() == n2.len() && forall|i: int| 0 <= i < n1.len() ==> (#[trigger] n1[i] is Some <==> n2[i] is Some)
}

proof fn lemma_styles_agree_upto(
    s: Seq<FeePoint>,
    n1: Seq<Option<Seq<char>>>,
    n2: Seq<Option<Seq<char>>>,
    st1: ReportStyle,
    st2: ReportStyle,
    k: int,
)
    requires
        0 <= k <= s.len(),
        n1.len() == s.len(),
        same_flags(n1, n2),
    ensures
        issue_kinds(issues_upto(s, n1, st1, k)) == issue_kinds(issues_upto(s, n2, st2, k)),
        note_count(n1, k) == note_count(n2, k),
    decreases k,
{
    if k > 0 {
        lemma_styles_agree_upto(s, n1, n2, st1, st2, k - 1);
        let a = issues_upto(s, n1, st1, k - 1);
        let b = issues_upto(s, n2, st2, k - 1);
        let pa = point_issues(s, n1, st1, k - 1);
        let pb = point_issues(s, n2, st2, k - 1);
        assert(n1[k - 1] is Some <==> n2[k - 1] is Some);
        assert(issue_kinds(pa) =~= issue_kinds(pb));
        assert(issue_kinds(a + pa) =~= issue_kinds(a) + issue_kinds(pa));
        assert(issue_kinds(b + pb) =~= issue_kinds(b) + issue_kinds(pb));
    }
}

/// The JSON report and the text report of the same points, with outlier notes
/// that flag the same points, find the same issues: the same counts, and the
/// same kinds at the same ledgers in the same order; only the descriptions
/// differ.
pub proof fn law_report_styles_agree(
    s: Seq<FeePoint>,
    json_notes: Seq<Option<Seq<char>>>,
    text_notes: Seq<Option<Seq<char>>>,
)
    requires
        json_notes.len() == s.len(),
        same_flags(json_notes, text_notes),
    ensures
        note_count(json_notes, s.len() as int) == note_count(text_notes, s.len() as int),
        issue_total(s, json_notes) == issue_total(s, text_notes),
        issue_kinds(issues_upto(s, json_notes, ReportStyle::Json, s.len() as int)) == issue_kinds(
            issues_upto(s, text_notes, ReportStyle::Text, s.len() as int),
        ),
        issues_upto(s, json_notes, ReportStyle::Json, s.len() as int).len() == issues_upto(
            s,
            text_notes,
            ReportStyle::Text,
            s.len() as int,
        ).len(),
{
    lemma_styles_agree_upto(s, json_notes, text_notes, ReportStyle::Json, ReportStyle::Text, s.len() as int);
    let a = issues_upto(s, json_notes, ReportStyle::Json, s.len() as int);
    let b = issues_upto(s, text_notes, ReportStyle::Text, s.len() as int);
    assert(issue_kinds(a).len() == a.len() && issue_kinds(b).len() == b.len());
}

} // verus!
