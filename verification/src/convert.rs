use vstd::prelude::*;
use vstd::arithmetic::power2::{
    pow2, lemma2_to64, lemma2_to64_rest, lemma_pow2_adds, lemma_pow2_pos, lemma_pow2_unfold, lemma_pow2_strictly_increases,
};
use crate::fee_point::FeePoint;
use crate::text::{
    chars_of, chars_eq, ends_with, ends_with_chars, parse_uint, parse_u64_chars, push_str, push_u64,
    push_bool, push_char, push_chars, string_from, dec, bool_text, zero_pad,
};

verus! {

/// Priority level for fee conversion targets.
#[derive(Debug, Clone, Copy, PartialEq, Eq, Structural)]
pub enum FeePriority {
    Low,
    Medium,
    High,
    Custom(u64),
}

/// The priority a text names: `low`, `medium`, `high`, or a number as `str::parse` reads it.
pub open spec fn priority_from_text(s: Seq<char>) -> Option<FeePriority> {
    if s == "low"@ {
        Some(FeePriority::Low)
    } else if s == "medium"@ {
        Some(FeePriority::Medium)
    } else if s == "high"@ {
        Some(FeePriority::High)
    } else {
        match parse_uint(s, u64::MAX as nat) {
            Some(v) => Some(FeePriority::Custom(v as u64)),
            None => None,
        }
    }
}

/// The recommended fee for a priority as double-precision arithmetic gives
/// it: `fee as f64` times 1, 1.5, 2 or `custom as f64`, each product rounded to
/// the nearest double, then to the nearest integer (halves away from zero), and
/// cut to `u64::MAX`.
pub open spec fn stroops_for(fee: u64, p: FeePriority) -> u64 {
    let f = double_of_int(fee as nat);
    let product: nat = match p {
        FeePriority::Low => f,
        FeePriority::Medium => if 3 * f < pow2(53) {
            (3 * f + 1) / 2
        } else {
            double_of_int(3 * f) / 2
        },
        FeePriority::High => 2 * f,
        FeePriority::Custom(v) => double_of_int(f * double_of_int(v as nat)),
    };
    if product > u64::MAX { u64::MAX } else { product as u64 }
}

/// The number of binary digits of `n` (none for zero).
pub open spec fn bit_len(n: nat) -> nat
    decreases n,
{
    if n == 0 { 0 } else { 1 + bit_len(n / 2) }
}

/// `num / den` rounded to the nearest integer, ties to the even one.
pub open spec fn round_half_even(num: nat, den: nat) -> nat {
    let q = num / den;
    let r = num % den;
    if 2 * r > den || (2 * r == den && q % 2 == 1) { q + 1 } else { q }
}

/// The double-precision value nearest `n` (53 significant bits, ties to
/// even), as `n as f64` gives it.
pub open spec fn double_of_int(n: nat) -> nat {
    if bit_len(n) <= 53 {
        n
    } else {
        let p = pow2((bit_len(n) - 53) as nat);
        round_half_even(n, p) * p
    }
}

/// For `x >= 10^7`: the `k` with which the double nearest `x / 10^7` is
/// `m / 2^k`, its 53-bit significand `m` in place.
pub open spec fn xlm_scale(x: nat) -> nat {
    (53 - bit_len(x / 10_000_000)) as nat
}

/// The significand of the double nearest `x / 10^7` (ties to even).
pub open spec fn xlm_significand(x: nat) -> nat {
    round_half_even(x * pow2(xlm_scale(x)), 10_000_000)
}

/// The number of ten-thousandths of an XLM shown for `stroops` (a stroop is
/// 10^-7 XLM): `stroops as f64 / 10^7` in double precision, then rounded to
/// four decimals, ties to even.
pub open spec fn xlm_ten_thousandths(stroops: u64) -> nat {
    let x = double_of_int(stroops as nat);
    round_half_even(xlm_significand(x) * 10000, pow2(xlm_scale(x)))
}

/// A number of `b` binary digits is below `2^b`.
proof fn lemma_bit_len_upper(n: nat)
    ensures
        n < pow2(bit_len(n)),
    decreases n,
{
    if n > 0 {
        lemma_bit_len_upper(n / 2);
        assert(bit_len(n) == 1 + bit_len(n / 2));
        lemma_pow2_unfold(bit_len(n));
        assert(pow2(bit_len(n)) == 2 * pow2(bit_len(n / 2)));
    } else {
        lemma_pow2_pos(0);
    }
}

/// A number below `2^b` has at most `b` binary digits.
proof fn lemma_bit_len_le(n: nat, b: nat)
    requires
        n < pow2(b),
    ensures
        bit_len(n) <= b,
    decreases n,
{
    if n > 0 {
        if b == 0 {
            lemma2_to64();
        }
        assert(b > 0);
        lemma_pow2_unfold(b);
        assert(n / 2 < pow2((b - 1) as nat));
        lemma_bit_len_le(n / 2, (b - 1) as nat);
    }
}

proof fn lemma_bit_len_le_self(n: nat)
    ensures
        bit_len(n) <= n,
    decreases n,
{
    if n > 0 {
        lemma_bit_len_le_self(n / 2);
    }
}

fn bit_len_exec(n: u128) -> (b: u128)
    ensures
        b == bit_len(n as nat),
{
    let mut m = n;
    let mut b: u128 = 0;
    proof {
        lemma_bit_len_le_self(n as nat);
    }
    while m > 0
        invariant
            b + bit_len(m as nat) == bit_len(n as nat),
            bit_len(n as nat) <= n,
        decreases m,
    {
        m = m / 2;
        b = b + 1;
    }
    b
}

fn pow2_exec(e: u128) -> (p: u128)
    requires
        e <= 64,
    ensures
        p == pow2(e as nat),
{
    proof {
        lemma2_to64();
    }
    let mut p: u128 = 1;
    let mut i: u128 = 0;
    while i < e
        invariant
            i <= e <= 64,
            p == pow2(i as nat),
            pow2(64) == 0x1_0000_0000_0000_0000,
        decreases e - i,
    {
        proof {
            lemma2_to64();
            lemma2_to64_rest();
            if i < 63 {
                lemma_pow2_strictly_increases(i as nat, 63);
                assert(pow2(i as nat) < pow2(63));
            } else {
                assert(i == 63);
                assert(pow2(i as nat) == pow2(63));
            }
            assert(pow2(63) == 0x8000_0000_0000_0000);
            lemma_pow2_unfold((i + 1) as nat);
            assert(p <= 0x8000_0000_0000_0000);
        }
        p = p * 2;
        i = i + 1;
    }
    p
}

fn round_half_even_exec(num: u128, den: u128) -> (r: u128)
    requires
        den > 0,
        num / den < u128::MAX,
    ensures
        r == round_half_even(num as nat, den as nat),
        r <= num / den + 1,
{
    let q = num / den;
    let rem = num % den;
    if rem > den - rem || (rem == den - rem && q % 2 == 1) {
        q + 1
    } else {
        q
    }
}

/// A number of `b > 0` binary digits is at least `2^(b - 1)`.
proof fn lemma_bit_len_lower(n: nat)
    requires
        n >= 1,
    ensures
        bit_len(n) >= 1,
        pow2((bit_len(n) - 1) as nat) <= n,
    decreases n,
{
    if n == 1 {
        assert(bit_len(0) == 0);
        lemma2_to64();
    } else {
        lemma_bit_len_lower(n / 2);
        lemma_pow2_unfold((bit_len(n) - 1) as nat);
    }
}

/// A number of at least `2^64` stays at least `2^64` as a double.
proof fn lemma_double_of_int_big(n: nat)
    requires
        n >= pow2(64),
    ensures
        double_of_int(n) >= pow2(64),
{
    let b = bit_len(n);
    lemma_bit_len_upper(n);
    lemma2_to64();
    if b <= 64 {
        if b < 64 {
            lemma_pow2_strictly_increases(b, 64);
        }
        assert(false);
    }
    lemma_bit_len_lower(n);
    let sh = (b - 53) as nat;
    let p = pow2(sh);
    lemma_pow2_pos(sh);
    lemma_pow2_adds(52, sh);
    assert(pow2((b - 1) as nat) == pow2(52) * p);
    let q = n / p;
    assert(q >= pow2(52)) by (nonlinear_arith)
        requires pow2(52) * p <= n, p > 0, q == n / p;
    assert(round_half_even(n, p) >= q);
    assert(round_half_even(n, p) * p >= pow2(52) * p) by (nonlinear_arith)
        requires round_half_even(n, p) >= pow2(52), p > 0;
    if b - 1 > 64 {
        lemma_pow2_strictly_increases(64, (b - 1) as nat);
    }
}

/// `n as f64`, for `n < 2^66`, as an integer.
fn double_of_int_exec(n: u128) -> (d: u128)
    requires
        n < 0x4_0000_0000_0000_0000,
    ensures
        d == double_of_int(n as nat),
        d <= n + 0x2000,
{
    proof {
        lemma2_to64();
        lemma2_to64_rest();
        lemma_pow2_unfold(65);
        lemma_pow2_unfold(66);
        lemma_bit_len_le(n as nat, 66);
    }
    let bits = bit_len_exec(n);
    if bits <= 53 {
        n
    } else {
        let p = pow2_exec(bits - 53);
        proof {
            lemma_pow2_pos((bits - 53) as nat);
            if bits - 53 < 13 {
                lemma_pow2_strictly_increases((bits - 53) as nat, 13);
            }
        }
        let r = round_half_even_exec(n, p);
        assert(r * p <= n + p) by (nonlinear_arith)
            requires r <= n / p + 1, p >= 1;
        r * p
    }
}

/// The number of ten-thousandths of an XLM shown for `stroops`.
fn xlm_ten_thousandths_exec(stroops: u64) -> (t: u64)
    requires
        stroops >= 10_000_000,
    ensures
        t == xlm_ten_thousandths(stroops),
{
    let s = stroops as u128;
    proof {
        lemma2_to64();
        lemma_bit_len_le(s as nat, 64);
    }
    let bits = bit_len_exec(s);
    let x: u128 = if bits <= 53 {
        s
    } else {
        let p = pow2_exec(bits - 53);
        proof {
            lemma2_to64();
            lemma_pow2_pos((bits - 53) as nat);
            if bits - 53 < 11 {
                lemma_pow2_strictly_increases((bits - 53) as nat, 11);
            }
        }
        let r = round_half_even_exec(s, p);
        assert(r * p <= s + p) by (nonlinear_arith)
            requires r <= s / p + 1, p >= 1;
        r * p
    };
    assert(x <= 0x1_0000_0000_0000_0000 + 2048);
    assert(x == double_of_int(stroops as nat));
    let y = x / 10_000_000;
    proof {
        lemma2_to64_rest();
        lemma_bit_len_le(y as nat, 41);
    }
    let k = 53 - bit_len_exec(y);
    let pk = pow2_exec(k);
    proof {
        lemma2_to64_rest();
        lemma_pow2_pos(k as nat);
        if k < 53 {
            lemma_pow2_strictly_increases(k as nat, 53);
        }
    }
    assert(x * pk <= (0x1_0000_0000_0000_0000 + 2048) * 0x20_0000_0000_0000) by (nonlinear_arith)
        requires x <= 0x1_0000_0000_0000_0000 + 2048, pk <= 0x20_0000_0000_0000;
    let num = x * pk;
    let m = round_half_even_exec(num, 10_000_000);
    assert(m * 10_000_000 <= num + 10_000_000) by (nonlinear_arith)
        requires m <= num / 10_000_000 + 1;
    assert(m * 10000 <= num + 10_000_000) by (nonlinear_arith)
        requires m * 10_000_000 <= num + 10_000_000;
    let t = round_half_even_exec(m * 10000, pk);
    assert(t * pk <= m * 10000 + pk) by (nonlinear_arith)
        requires t <= (m * 10000) / (pk as int) + 1, pk >= 1;
    assert(t * 10_000_000 <= x * 10000 + 100_000_000_000 + 10_000_000) by (nonlinear_arith)
        requires
            t * pk <= m * 10000 + pk,
            m * 10_000_000 <= x * pk + 10_000_000,
            pk >= 1;
    assert(t < 0x1_0000_0000_0000_0000);
    t as u64
}

/// A fee with its unit: XLM with four decimals from 10^7 stroops, else stroops.
pub open spec fn fee_text(stroops: u64) -> Seq<char> {
    if stroops >= 10_000_000 {
        let t = xlm_ten_thousandths(stroops);
        dec(t / 10000) + seq!['.'] + zero_pad(dec(t % 10000), 4) + " XLM"@
    } else if stroops >= 1000 {
        dec(stroops as nat) + " stroops"@
    } else {
        dec(stroops as nat) + " stroop"@
    }
}

/// The JSON object of one point.
pub open spec fn point_json(p: FeePoint) -> Seq<char> {
    "{\"t\":"@ + dec(p.timestamp as nat) + ",\"f\":"@ + dec(p.fee as nat) + ",\"l\":"@ + dec(
        p.ledger as nat,
    ) + ",\"s\":"@ + bool_text(p.is_spike) + "}"@
}

/// The JSON objects of points, separated by commas.
pub open spec fn points_json_items(s: Seq<FeePoint>) -> Seq<char>
    decreases s.len(),
{
    if s.len() == 0 {
        Seq::empty()
    } else if s.len() == 1 {
        point_json(s[0])
    } else {
        points_json_items(s.drop_last()) + seq![','] + point_json(s.last())
    }
}

/// The tab-separated line of one point.
pub open spec fn point_tsv(p: FeePoint) -> Seq<char> {
    dec(p.timestamp as nat) + seq!['\t'] + dec(p.fee as nat) + seq!['\t'] + dec(p.ledger as nat)
        + seq!['\t'] + bool_text(p.is_spike) + seq!['\n']
}

/// The tab-separated lines of points.
pub open spec fn points_tsv_lines(s: Seq<FeePoint>) -> Seq<char>
    decreases s.len(),
{
    if s.len() == 0 {
        Seq::empty()
    } else {
        points_tsv_lines(s.drop_last()) + point_tsv(s.last())
    }
}

impl FeePriority {
    /// Parses a priority name (`low`, `medium`, `high`) or a custom factor.
    pub fn parse(s: &str) -> (r: Option<Self>)
        ensures
            r == priority_from_text(s@),
    {
        let t = chars_of(s);
        if chars_eq(&t, &chars_of("low")) {
            Some(FeePriority::Low)
        } else if chars_eq(&t, &chars_of("medium")) {
            Some(FeePriority::Medium)
        } else if chars_eq(&t, &chars_of("high")) {
            Some(FeePriority::High)
        } else {
            match parse_u64_chars(&t) {
                Some(v) => Some(FeePriority::Custom(v)),
                None => None,
            }
        }
    }
}

/// Converts fee data between different representations.
pub struct Convert;

impl Convert {
    /// The recommended fee in stroops for a given priority.
    pub fn to_stroops(fee: u64, priority: FeePriority) -> (r: u64)
        ensures
            r == stroops_for(fee, priority),
    {
        proof {
            lemma2_to64();
            lemma2_to64_rest();
        }
        let f = double_of_int_exec(fee as u128);
        let product: u128 = match priority {
            FeePriority::Low => f,
            FeePriority::High => 2 * f,
            FeePriority::Medium => {
                if 3 * f < 0x20_0000_0000_0000 {
                    (3 * f + 1) / 2
                } else {
                    proof {
                        lemma_pow2_unfold(65);
                        lemma_pow2_unfold(66);
                    }
                    double_of_int_exec(3 * f) / 2
                }
            },
            FeePriority::Custom(v) => {
                let w = double_of_int_exec(v as u128);
                match f.checked_mul(w) {
                    None => {
                        proof {
                            lemma_double_of_int_big((f * w) as nat);
                        }
                        0x1_0000_0000_0000_0000
                    },
                    Some(x) => {
                        if x > u64::MAX as u128 {
                            proof {
                                lemma_double_of_int_big(x as nat);
                            }
                            0x1_0000_0000_0000_0000
                        } else {
                            double_of_int_exec(x)
                        }
                    },
                }
            },
        };
        if product > u64::MAX as u128 { u64::MAX } else { product as u64 }
    }

    /// A fee as text with its unit.
    pub fn format_fee(stroops: u64) -> (s: String)
        ensures
            s@ == fee_text(stroops),
    {
        let mut out = String::new();
        if stroops >= 10_000_000 {
            let t = xlm_ten_thousandths_exec(stroops);
            push_u64(&mut out, t / 10000);
            push_char(&mut out, '.');
            let frac = crate::text::dec_chars(t % 10000);
            let mut padded: Vec<char> = Vec::new();
            let mut k: usize = frac.len();
            while k < 4
                invariant
                    frac.len() <= k <= 4 || (frac.len() > 4 && k == frac.len()),
                    padded@ == Seq::new((k - frac.len()) as nat, |i: int| '0'),
                decreases 4 - k,
            {
                padded.push('0');
                assert(padded@ =~= Seq::new((k + 1 - frac.len()) as nat, |i: int| '0'));
                k += 1;
            }
            push_chars(&mut out, &padded);
            push_chars(&mut out, &frac);
            push_str(&mut out, " XLM");
            proof {
                if frac@.len() < 4 {
                    assert(padded@ + frac@ =~= zero_pad(frac@, 4));
                } else {
                    assert(padded@ + frac@ =~= zero_pad(frac@, 4));
                }
            }
            assert(out@ =~= fee_text(stroops));
        } else if stroops >= 1000 {
            push_u64(&mut out, stroops);
            push_str(&mut out, " stroops");
            assert(out@ =~= fee_text(stroops));
        } else {
            push_u64(&mut out, stroops);
            push_str(&mut out, " stroop");
            assert(out@ =~= fee_text(stroops));
        }
        out
    }

    /// The points as a JSON array of `{"t","f","l","s"}` objects.
    pub fn points_to_json(points: &[FeePoint]) -> (s: String)
        ensures
            s@ == seq!['['] + points_json_items(points@) + seq![']'],
    {
        let mut out = String::new();
        push_char(&mut out, '[');
        let mut i: usize = 0;
        while i < points.len()
            invariant
                i <= points@.len(),
                out@ == seq!['['] + points_json_items(points@.take(i as int)),
            decreases points.len() - i,
        {
            let p = points[i];
            let ghost before = out@;
            if i > 0 {
                push_char(&mut out, ',');
            }
            push_str(&mut out, "{\"t\":");
            push_u64(&mut out, p.timestamp);
            push_str(&mut out, ",\"f\":");
            push_u64(&mut out, p.fee);
            push_str(&mut out, ",\"l\":");
            push_u64(&mut out, p.ledger);
            push_str(&mut out, ",\"s\":");
            push_bool(&mut out, p.is_spike);
            push_str(&mut out, "}");
            proof {
                let t = points@.take(i + 1);
                assert(t.drop_last() =~= points@.take(i as int));
                assert(t.last() == p);
                if i > 0 {
                    assert(out@ =~= before + seq![','] + point_json(p));
                } else {
                    assert(out@ =~= before + point_json(p));
                }
            }
            i += 1;
        }
        push_char(&mut out, ']');
        assert(points@.take(i as int) =~= points@);
        out
    }

    /// The points as tab-separated values under a header line.
    pub fn to_tsv(points: &[FeePoint]) -> (s: String)
        ensures
            s@ == "timestamp\tfee\tledger\tspike\n"@ + points_tsv_lines(points@),
    {
        let mut out = String::new();
        push_str(&mut out, "timestamp\tfee\tledger\tspike\n");
        let ghost head = out@;
        let mut i: usize = 0;
        while i < points.len()
            invariant
                i <= points@.len(),
                out@ == head + points_tsv_lines(points@.take(i as int)),
            decreases points.len() - i,
        {
            let p = points[i];
            let ghost before = out@;
            push_u64(&mut out, p.timestamp);
            push_char(&mut out, '\t');
            push_u64(&mut out, p.fee);
            push_char(&mut out, '\t');
            push_u64(&mut out, p.ledger);
            push_char(&mut out, '\t');
            push_bool(&mut out, p.is_spike);
            push_char(&mut out, '\n');
            proof {
                let t = points@.take(i + 1);
                assert(t.drop_last() =~= points@.take(i as int));
                assert(t.last() == p);
                assert(out@ =~= before + point_tsv(p));
            }
            i += 1;
        }
        assert(points@.take(i as int) =~= points@);
        out
    }
}

/// The formats the `convert` subcommand reads and writes.
pub open spec fn known_format(s: Seq<char>) -> bool {
    s == "json"@ || s == "csv"@ || s == "tsv"@ || s == "xlm"@ || s == "stroops"@
}

fn is_known_format(s: &str) -> (b: bool)
    ensures
        b == known_format(s@),
{
    let t = chars_of(s);
    chars_eq(&t, &chars_of("json")) || chars_eq(&t, &chars_of("csv")) || chars_eq(
        &t,
        &chars_of("tsv"),
    ) || chars_eq(&t, &chars_of("xlm")) || chars_eq(&t, &chars_of("stroops"))
}

/// Arguments for the `convert` subcommand.
pub struct ConvertArgs {
    /// Input format (json, csv, tsv).
    pub from: String,
    /// Output format (json, csv, tsv, xlm, stroops).
    pub to: String,
    /// Priority level for fee calculation.
    pub priority: Option<String>,
    /// Input file path; reads from stdin if not provided.
    pub input: Option<String>,
    /// Output file path; writes to stdout if not provided.
    pub output: Option<String>,
}

impl Default for ConvertArgs {
    fn default() -> (a: Self)
        ensures
            a.from@ == "json"@,
            a.to@ == "csv"@,
            a.priority is None,
            a.input is None,
            a.output is None,
    {
        ConvertArgs {
            from: string_from("json"),
            to: string_from("csv"),
            priority: None,
            input: None,
            output: None,
        }
    }
}

/// The path's format by its extension: `csv`, `tsv` (`.tsv` or `.tab`), `xlm`, else `json`.
pub open spec fn format_of_path(p: Seq<char>) -> Seq<char> {
    if ends_with(p, ".csv"@) {
        "csv"@
    } else if ends_with(p, ".tsv"@) || ends_with(p, ".tab"@) {
        "tsv"@
    } else if ends_with(p, ".xlm"@) {
        "xlm"@
    } else {
        "json"@
    }
}

impl ConvertArgs {
    /// Checks both formats; every unsupported one gives a message, input first.
    pub fn validate(&self) -> (r: Result<(), Vec<String>>)
        ensures
            r is Ok <==> known_format(self.from@) && known_format(self.to@),
            r matches Err(errs) ==> {
                let msgs = errs@.map_values(|e: String| e@);
                msgs == (if known_format(self.from@) { Seq::<Seq<char>>::empty() } else {
                    seq!["unsupported input format: "@ + self.from@]
                }) + (if known_format(self.to@) { Seq::<Seq<char>>::empty() } else {
                    seq!["unsupported output format: "@ + self.to@]
                })
            },
    {
        let mut errors: Vec<String> = Vec::new();
        let from_ok = is_known_format(self.from.as_str());
        let to_ok = is_known_format(self.to.as_str());
        if !from_ok {
            let mut m = string_from("unsupported input format: ");
            push_str(&mut m, self.from.as_str());
            errors.push(m);
        }
        if !to_ok {
            let mut m = string_from("unsupported output format: ");
            push_str(&mut m, self.to.as_str());
            errors.push(m);
        }
        if errors.len() == 0 {
            Ok(())
        } else {
            let ghost msgs = errors@.map_values(|e: String| e@);
            assert(msgs =~= (if from_ok { Seq::<Seq<char>>::empty() } else {
                seq!["unsupported input format: "@ + self.from@]
            }) + (if to_ok { Seq::<Seq<char>>::empty() } else {
                seq!["unsupported output format: "@ + self.to@]
            }));
            Err(errors)
        }
    }

    /// The input format a file extension names.
    pub fn detect_format(path: &str) -> (r: &str)
        ensures
            r@ == format_of_path(path@),
    {
        let p = chars_of(path);
        if ends_with_chars(&p, &chars_of(".csv")) {
            "csv"
        } else if ends_with_chars(&p, &chars_of(".tsv")) || ends_with_chars(&p, &chars_of(".tab")) {
            "tsv"
        } else if ends_with_chars(&p, &chars_of(".xlm")) {
            "xlm"
        } else {
            "json"
        }
    }
}

} // verus!
