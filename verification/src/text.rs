use vstd::prelude::*;
use vstd::string::StringExecFns;

verus! {

// ---------------------------------------------------------------------------
// Building strings
// ---------------------------------------------------------------------------

/// Appends one character to `out` (`String::push`).
#[verifier::external_body]
pub(crate) fn push_char(out: &mut String, c: char)
    ensures
        final(out)@ == old(out)@.push(c),
{
    out.push(c);
}

/// Appends a string slice to `out`.
pub(crate) fn push_str(out: &mut String, s: &str)
    ensures
        final(out)@ == old(out)@ + s@,
{
    out.append(s);
}

/// The characters of a string slice, in order.
pub fn chars_of(s: &str) -> (v: Vec<char>)
    ensures
        v@ == s@,
{
    let mut v: Vec<char> = Vec::new();
    for c in it: s.chars()
        invariant
            v@ == it.seq().take(it.index() as int),
            it.seq() == s@,
    {
        v.push(c);
    }
    v
}

/// Appends a sequence of characters to `out`.
pub fn push_chars(out: &mut String, cs: &Vec<char>)
    ensures
        final(out)@ == old(out)@ + cs@,
{
    let ghost start = out@;
    let mut i: usize = 0;
    while i < cs.len()
        invariant
            i <= cs.len(),
            out@ == start + cs@.take(i as int),
        decreases cs.len() - i,
    {
        push_char(out, cs[i]);
        assert(cs@.take(i + 1) =~= cs@.take(i as int).push(cs@[i as int]));
        i += 1;
    }
    assert(cs@.take(cs.len() as int) =~= cs@);
}

/// A new string holding the given characters.
pub fn string_of(cs: &Vec<char>) -> (s: String)
    ensures
        s@ == cs@,
{
    let mut s = String::new();
    push_chars(&mut s, cs);
    assert(Seq::<char>::empty() + cs@ =~= cs@);
    s
}

/// A new string equal to a string slice.
pub fn string_from(s: &str) -> (r: String)
    ensures
        r@ == s@,
{
    let mut r = String::new();
    push_str(&mut r, s);
    assert(Seq::<char>::empty() + s@ =~= s@);
    r
}

// ---------------------------------------------------------------------------
// Decimal and hexadecimal numerals
// ---------------------------------------------------------------------------

/// The character of a digit value below 16 (lower-case letters above 9).
pub open spec fn digit_char(d: nat) -> char {
    if d == 0 { '0' }
    else if d == 1 { '1' }
    else if d == 2 { '2' }
    else if d == 3 { '3' }
    else if d == 4 { '4' }
    else if d == 5 { '5' }
    else if d == 6 { '6' }
    else if d == 7 { '7' }
    else if d == 8 { '8' }
    else if d == 9 { '9' }
    else if d == 10 { 'a' }
    else if d == 11 { 'b' }
    else if d == 12 { 'c' }
    else if d == 13 { 'd' }
    else if d == 14 { 'e' }
    else { 'f' }
}

/// Decimal numeral of `n`, without leading zeros (`"0"` for zero).
pub open spec fn dec(n: nat) -> Seq<char>
    decreases n,
{
    if n < 10 {
        seq![digit_char(n)]
    } else {
        dec(n / 10).push(digit_char(n % 10))
    }
}

/// Lower-case hexadecimal numeral of `n`, without leading zeros.
pub open spec fn hex(n: nat) -> Seq<char>
    decreases n,
{
    if n < 16 {
        seq![digit_char(n)]
    } else {
        hex(n / 16).push(digit_char(n % 16))
    }
}

/// `s` padded on the left with `'0'` up to `width` characters.
pub open spec fn zero_pad(s: Seq<char>, width: nat) -> Seq<char> {
    if s.len() >= width {
        s
    } else {
        Seq::new((width - s.len()) as nat, |i: int| '0') + s
    }
}

/// The decimal numeral of a boolean in Rust's `Display` form.
pub open spec fn bool_text(b: bool) -> Seq<char> {
    if b { seq!['t', 'r', 'u', 'e'] } else { seq!['f', 'a', 'l', 's', 'e'] }
}

fn digit_of(d: u64) -> (c: char)
    requires
        d < 16,
    ensures
        c == digit_char(d as nat),
{
    if d == 0 { '0' }
    else if d == 1 { '1' }
    else if d == 2 { '2' }
    else if d == 3 { '3' }
    else if d == 4 { '4' }
    else if d == 5 { '5' }
    else if d == 6 { '6' }
    else if d == 7 { '7' }
    else if d == 8 { '8' }
    else if d == 9 { '9' }
    else if d == 10 { 'a' }
    else if d == 11 { 'b' }
    else if d == 12 { 'c' }
    else if d == 13 { 'd' }
    else if d == 14 { 'e' }
    else { 'f' }
}

/// The decimal numeral of `n` as characters.
pub fn dec_chars(n: u64) -> (v: Vec<char>)
    ensures
        v@ == dec(n as nat),
{
    let mut m = n;
    let mut v: Vec<char> = Vec::new();
    while m >= 10
        invariant
            dec(n as nat) == dec(m as nat) + v@,
        decreases m,
    {
        let d = digit_of(m % 10);
        v.insert(0, d);
        let ghost old_m = m;
        m = m / 10;
        assert(dec(old_m as nat) == dec(m as nat).push(d));
        assert(dec(m as nat).push(d) + v@.drop_first() =~= dec(m as nat) + v@);
    }
    let d = digit_of(m);
    v.insert(0, d);
    assert(dec(m as nat) + v@.drop_first() =~= v@);
    v
}

/// Appends the decimal numeral of `n` to `out`.
pub fn push_u64(out: &mut String, n: u64)
    ensures
        final(out)@ == old(out)@ + dec(n as nat),
{
    let v = dec_chars(n);
    push_chars(out, &v);
}

/// Appends `true` or `false` to `out`.
pub fn push_bool(out: &mut String, b: bool)
    ensures
        final(out)@ == old(out)@ + bool_text(b),
{
    let ghost start = out@;
    if b {
        push_char(out, 't');
        push_char(out, 'r');
        push_char(out, 'u');
        push_char(out, 'e');
    } else {
        push_char(out, 'f');
        push_char(out, 'a');
        push_char(out, 'l');
        push_char(out, 's');
        push_char(out, 'e');
    }
    assert(out@ =~= start + bool_text(b));
}

/// The hexadecimal numeral of `n`, left-padded with zeros to `width` characters.
pub fn hex_padded(n: u64, width: usize) -> (v: Vec<char>)
    ensures
        v@ == zero_pad(hex(n as nat), width as nat),
{
    let mut m = n;
    let mut v: Vec<char> = Vec::new();
    while m >= 16
        invariant
            hex(n as nat) == hex(m as nat) + v@,
        decreases m,
    {
        let d = digit_of(m % 16);
        v.insert(0, d);
        let ghost old_m = m;
        m = m / 16;
        assert(hex(old_m as nat) == hex(m as nat).push(d));
        assert(hex(m as nat).push(d) + v@.drop_first() =~= hex(m as nat) + v@);
    }
    let d = digit_of(m);
    v.insert(0, d);
    assert(hex(m as nat) + v@.drop_first() =~= v@);
    let ghost digits = v@;
    if v.len() < width {
        let pad = width - v.len();
        let mut i: usize = 0;
        while i < pad
            invariant
                i <= pad,
                pad == width - digits.len(),
                v@ == Seq::new(i as nat, |k: int| '0') + digits,
            decreases pad - i,
        {
            v.insert(0, '0');
            assert(v@ =~= Seq::new((i + 1) as nat, |k: int| '0') + digits);
            i += 1;
        }
    }
    v
}

// ---------------------------------------------------------------------------
// Fixed-point decimals
// ---------------------------------------------------------------------------

/// `10^k`.
pub open spec fn pow10(k: nat) -> nat
    decreases k,
{
    if k == 0 { 1 } else { 10 * pow10((k - 1) as nat) }
}

fn pow10_exec(k: u32) -> (r: u64)
    requires
        k <= 9,
    ensures
        r == pow10(k as nat),
{
    let mut r: u64 = 1;
    let mut i: u32 = 0;
    while i < k
        invariant
            i <= k <= 9,
            r == pow10(i as nat),
            r <= 1_000_000_000,
        decreases k - i,
    {
        assert(pow10((i + 1) as nat) == 10 * pow10(i as nat));
        proof {
            lemma_pow10_bound(i as nat, 9);
        }
        r = r * 10;
        i += 1;
    }
    r
}

proof fn lemma_pow10_bound(i: nat, k: nat)
    requires
        i < k <= 9,
    ensures
        pow10(i) * 10 <= 1_000_000_000,
    decreases k - i,
{
    reveal_with_fuel(pow10, 10);
    if i + 1 < k {
        lemma_pow10_bound(i + 1, k);
        assert(pow10(i + 1) == 10 * pow10(i));
    } else {
        assert(i <= 8);
        if i == 0 {} else if i == 1 {} else if i == 2 {} else if i == 3 {} else if i == 4 {} else if i == 5 {} else if i == 6 {} else if i == 7 {} else {}
    }
}

/// `n / d` rounded to the nearest integer, ties to even.
pub open spec fn div_round_even(n: nat, d: nat) -> nat {
    let q = n / d;
    let r = n % d;
    if 2 * r > d || (2 * r == d && q % 2 == 1) { q + 1 } else { q }
}

/// `n / 10^(drop + decimals)` written with `decimals` decimals, rounded to the
/// nearest last digit, ties to even.
pub open spec fn fixed_text(n: nat, drop: nat, decimals: nat) -> Seq<char> {
    let m = div_round_even(n, pow10(drop));
    dec(m / pow10(decimals)) + seq!['.'] + zero_pad(dec(m % pow10(decimals)), decimals)
}

/// Appends `n / 10^(drop + decimals)` with `decimals` decimals.
pub fn push_fixed(out: &mut String, n: u64, drop: u32, decimals: u32)
    requires
        drop <= 9,
        1 <= decimals <= 9,
    ensures
        final(out)@ == old(out)@ + fixed_text(n as nat, drop as nat, decimals as nat),
{
    let d = pow10_exec(drop);
    assert(d > 0) by {
        lemma_pow10_pos(drop as nat);
    }
    let q = n / d;
    let r = n % d;
    let m: u64 = if (r > d - r) || (r == d - r && q % 2 == 1) {
        assert(q < u64::MAX) by (nonlinear_arith)
            requires q == n / d, d >= 2 || r == 0, r > 0 || d == 0, d > 0, n <= u64::MAX, r == n % d;
        q + 1
    } else {
        q
    };
    assert(m == div_round_even(n as nat, d as nat));
    let p = pow10_exec(decimals);
    assert(p > 0) by {
        lemma_pow10_pos(decimals as nat);
    }
    push_u64(out, m / p);
    push_char(out, '.');
    let frac = dec_chars(m % p);
    let mut padded: Vec<char> = Vec::new();
    let width = decimals as usize;
    let mut k: usize = frac.len();
    if k < width {
        while k < width
            invariant
                frac.len() <= k <= width,
                padded@ == Seq::new((k - frac.len()) as nat, |i: int| '0'),
            decreases width - k,
        {
            padded.push('0');
            assert(padded@ =~= Seq::new((k + 1 - frac.len()) as nat, |i: int| '0'));
            k += 1;
        }
    }
    let ghost before = out@;
    push_chars(out, &padded);
    push_chars(out, &frac);
    assert(padded@ + frac@ =~= zero_pad(frac@, decimals as nat));
}

/// `s` without its trailing `'0'` characters.
pub open spec fn trim_zeros_end(s: Seq<char>) -> Seq<char>
    decreases s.len(),
{
    if s.len() > 0 && s.last() == '0' {
        trim_zeros_end(s.drop_last())
    } else {
        s
    }
}

/// The fractional part `f` of a `w`-digit fraction as `Debug` for `Duration`
/// writes it: nothing when zero, else a point and the digits without trailing zeros.
pub open spec fn frac_text(f: nat, w: nat) -> Seq<char> {
    if f == 0 {
        Seq::empty()
    } else {
        seq!['.'] + trim_zeros_end(zero_pad(dec(f), w))
    }
}

/// `Debug` of a `Duration` of `ns` nanoseconds: seconds, milliseconds,
/// microseconds or nanoseconds, the largest unit that is at least one.
pub open spec fn duration_debug(ns: nat) -> Seq<char> {
    let secs = ns / 1_000_000_000;
    let nanos = ns % 1_000_000_000;
    if secs > 0 {
        dec(secs) + frac_text(nanos, 9) + "s"@
    } else if nanos >= 1_000_000 {
        dec(nanos / 1_000_000) + frac_text(nanos % 1_000_000, 6) + "ms"@
    } else if nanos >= 1_000 {
        dec(nanos / 1_000) + frac_text(nanos % 1_000, 3) + "\u{b5}s"@
    } else {
        dec(nanos) + "ns"@
    }
}

fn push_frac(out: &mut String, f: u64, w: usize)
    ensures
        final(out)@ == old(out)@ + frac_text(f as nat, w as nat),
{
    if f == 0 {
        assert(old(out)@ + frac_text(f as nat, w as nat) =~= old(out)@);
        return;
    }
    let digits = dec_chars(f);
    let mut v: Vec<char> = Vec::new();
    let mut k: usize = digits.len();
    while k < w
        invariant
            digits.len() <= k <= w || (k == digits.len() && k >= w),
            v@ == Seq::new((k - digits.len()) as nat, |i: int| '0'),
        decreases w - k,
    {
        v.push('0');
        assert(v@ =~= Seq::new((k + 1 - digits.len()) as nat, |i: int| '0'));
        k += 1;
    }
    let mut i: usize = 0;
    while i < digits.len()
        invariant
            i <= digits.len(),
            v@ == Seq::new((k - digits.len()) as nat, |j: int| '0') + digits@.take(i as int),
        decreases digits.len() - i,
    {
        v.push(digits[i]);
        assert(digits@.take(i + 1) =~= digits@.take(i as int).push(digits@[i as int]));
        i += 1;
    }
    assert(digits@.take(i as int) =~= digits@);
    assert(v@ =~= zero_pad(digits@, w as nat));
    let ghost padded = v@;
    while v.len() > 0 && v[v.len() - 1] == '0'
        invariant
            trim_zeros_end(padded) == trim_zeros_end(v@),
        decreases v.len(),
    {
        let ghost before = v@;
        v.pop();
        assert(v@ =~= before.drop_last());
    }
    push_char(out, '.');
    push_chars(out, &v);
    assert(out@ =~= old(out)@ + frac_text(f as nat, w as nat));
}

/// Appends the `Debug` text of a duration of `ns` nanoseconds.
pub fn push_duration_debug(out: &mut String, ns: u64)
    ensures
        final(out)@ == old(out)@ + duration_debug(ns as nat),
{
    let secs = ns / 1_000_000_000;
    let nanos = ns % 1_000_000_000;
    let ghost start = out@;
    if secs > 0 {
        push_u64(out, secs);
        push_frac(out, nanos, 9);
        push_str(out, "s");
    } else if nanos >= 1_000_000 {
        push_u64(out, nanos / 1_000_000);
        push_frac(out, nanos % 1_000_000, 6);
        push_str(out, "ms");
    } else if nanos >= 1_000 {
        push_u64(out, nanos / 1_000);
        push_frac(out, nanos % 1_000, 3);
        push_str(out, "\u{b5}s");
    } else {
        push_u64(out, nanos);
        push_str(out, "ns");
    }
    assert(out@ =~= start + duration_debug(ns as nat));
}

proof fn lemma_pow10_pos(k: nat)
    ensures
        pow10(k) > 0,
    decreases k,
{
    if k > 0 {
        lemma_pow10_pos((k - 1) as nat);
    }
}

// ---------------------------------------------------------------------------
// Character classes
// ---------------------------------------------------------------------------

/// Unicode `White_Space`, the property behind `char::is_whitespace` and `str::trim`.
pub open spec fn is_ws(c: char) -> bool {
    ||| ('\u{9}' <= c && c <= '\u{d}')
    ||| c == ' '
    ||| c == '\u{85}'
    ||| c == '\u{a0}'
    ||| c == '\u{1680}'
    ||| ('\u{2000}' <= c && c <= '\u{200a}')
    ||| c == '\u{2028}'
    ||| c == '\u{2029}'
    ||| c == '\u{202f}'
    ||| c == '\u{205f}'
    ||| c == '\u{3000}'
}

pub fn is_ws_char(c: char) -> (b: bool)
    ensures
        b == is_ws(c),
{
    ('\u{9}' <= c && c <= '\u{d}') || c == ' ' || c == '\u{85}' || c == '\u{a0}' || c
        == '\u{1680}' || ('\u{2000}' <= c && c <= '\u{200a}') || c == '\u{2028}' || c
        == '\u{2029}' || c == '\u{202f}' || c == '\u{205f}' || c == '\u{3000}'
}

/// ASCII decimal digit.
pub open spec fn is_digit(c: char) -> bool {
    '0' <= c && c <= '9'
}

/// The value of an ASCII decimal digit.
pub open spec fn digit_value(c: char) -> nat {
    (c as int - '0' as int) as nat
}

/// The character `c` folded to lower case, as far as lower-casing can turn a character
/// into an ASCII one: ASCII capitals and the Kelvin sign (which lower-cases to `'k'`).
/// Every other character either lower-cases to itself or to characters outside ASCII,
/// so comparing a folded text with an ASCII lower-case word decides the same as
/// comparing `str::to_lowercase` of it.
pub open spec fn fold_char(c: char) -> char {
    if 'A' <= c && c <= 'Z' {
        (c as int + 32) as char
    } else if c == '\u{212a}' {
        'k'
    } else {
        c
    }
}

pub fn fold_char_exec(c: char) -> (r: char)
    ensures
        r == fold_char(c),
{
    if 'A' <= c && c <= 'Z' {
        let code = c as u32 + 32;
        char_from_ascii(code)
    } else if c == '\u{212a}' {
        'k'
    } else {
        c
    }
}

fn char_from_ascii(code: u32) -> (c: char)
    requires
        code < 128,
    ensures
        c as int == code as int,
{
    let b: u8 = code as u8;
    let c = b as char;
    c
}

/// A text folded character by character with `fold_char`.
pub open spec fn fold(s: Seq<char>) -> Seq<char> {
    s.map_values(|c: char| fold_char(c))
}

pub fn fold_chars(s: &Vec<char>) -> (r: Vec<char>)
    ensures
        r@ == fold(s@),
{
    let mut r: Vec<char> = Vec::new();
    let mut i: usize = 0;
    while i < s.len()
        invariant
            i <= s.len(),
            r@ == fold(s@.take(i as int)),
        decreases s.len() - i,
    {
        let c = fold_char_exec(s[i]);
        r.push(c);
        assert(fold(s@.take(i + 1)) =~= fold(s@.take(i as int)).push(fold_char(s@[i as int])));
        i += 1;
    }
    assert(s@.take(s.len() as int) =~= s@);
    r
}

// ---------------------------------------------------------------------------
// Trimming, affixes, splitting
// ---------------------------------------------------------------------------

/// `s` without its leading whitespace.
pub open spec fn trim_start(s: Seq<char>) -> Seq<char>
    decreases s.len(),
{
    if s.len() > 0 && is_ws(s[0]) {
        trim_start(s.drop_first())
    } else {
        s
    }
}

/// `s` without its trailing whitespace.
pub open spec fn trim_end(s: Seq<char>) -> Seq<char>
    decreases s.len(),
{
    if s.len() > 0 && is_ws(s.last()) {
        trim_end(s.drop_last())
    } else {
        s
    }
}

/// `str::trim`: `s` without leading and trailing whitespace.
pub open spec fn trim(s: Seq<char>) -> Seq<char> {
    trim_end(trim_start(s))
}

/// The characters of `s` from `lo` (inclusive) to `hi` (exclusive).
pub fn sub_chars(s: &Vec<char>, lo: usize, hi: usize) -> (r: Vec<char>)
    requires
        lo <= hi <= s.len(),
    ensures
        r@ == s@.subrange(lo as int, hi as int),
{
    let mut r: Vec<char> = Vec::new();
    let mut i: usize = lo;
    while i < hi
        invariant
            lo <= i <= hi,
            hi <= s.len(),
            r@ == s@.subrange(lo as int, i as int),
        decreases hi - i,
    {
        r.push(s[i]);
        assert(s@.subrange(lo as int, i + 1) =~= s@.subrange(lo as int, i as int).push(
            s@[i as int],
        ));
        i += 1;
    }
    r
}

proof fn lemma_trim_start_skip(s: Seq<char>, i: int)
    requires
        0 <= i <= s.len(),
        forall|k: int| 0 <= k < i ==> is_ws(#[trigger] s[k]),
    ensures
        trim_start(s) == trim_start(s.subrange(i, s.len() as int)),
    decreases i,
{
    if i > 0 {
        assert(s.drop_first().subrange(i - 1, s.drop_first().len() as int) =~= s.subrange(
            i,
            s.len() as int,
        ));
        lemma_trim_start_skip(s.drop_first(), i - 1);
    } else {
        assert(s.subrange(0, s.len() as int) =~= s);
    }
}

proof fn lemma_trim_end_cut(s: Seq<char>, j: int)
    requires
        0 <= j <= s.len(),
        forall|k: int| j <= k < s.len() ==> is_ws(#[trigger] s[k]),
    ensures
        trim_end(s) == trim_end(s.subrange(0, j)),
    decreases s.len() - j,
{
    if j < s.len() {
        assert(s.drop_last().subrange(0, j) =~= s.subrange(0, j));
        lemma_trim_end_cut(s.drop_last(), j);
    } else {
        assert(s.subrange(0, j) =~= s);
    }
}

/// `str::trim` on a sequence of characters.
pub fn trim_chars(s: &Vec<char>) -> (r: Vec<char>)
    ensures
        r@ == trim(s@),
{
    let mut i: usize = 0;
    while i < s.len() && is_ws_char(s[i])
        invariant
            i <= s.len(),
            forall|k: int| 0 <= k < i ==> is_ws(#[trigger] s@[k]),
        decreases s.len() - i,
    {
        i += 1;
    }
    proof {
        lemma_trim_start_skip(s@, i as int);
    }
    let ghost t = s@.subrange(i as int, s.len() as int);
    assert(trim_start(t) == t);
    let mut j: usize = s.len();
    while j > i && is_ws_char(s[j - 1])
        invariant
            i <= j <= s.len(),
            forall|k: int| j <= k < s.len() ==> is_ws(#[trigger] s@[k]),
        decreases j,
    {
        j -= 1;
    }
    proof {
        let u = s@.subrange(i as int, j as int);
        assert forall|k: int| (j - i) <= k < t.len() implies is_ws(#[trigger] t[k]) by {
            assert(t[k] == s@[k + i]);
        }
        lemma_trim_end_cut(t, j - i);
        assert(t.subrange(0, j - i) =~= u);
        if u.len() > 0 {
            assert(u.last() == s@[j - 1]);
        }
    }
    sub_chars(s, i, j)
}

/// The index of the first occurrence of `c` in `s`, if any.
pub open spec fn find_char(s: Seq<char>, c: char) -> Option<int>
    decreases s.len(),
{
    if s.len() == 0 {
        None
    } else if s[0] == c {
        Some(0)
    } else {
        match find_char(s.drop_first(), c) {
            Some(i) => Some(i + 1),
            None => None,
        }
    }
}

/// The position `find_char` gives holds `c`.
pub proof fn lemma_find_char_some(s: Seq<char>, c: char)
    ensures
        find_char(s, c) matches Some(i) ==> 0 <= i < s.len() && s[i] == c,
        find_char(s, c) is None ==> forall|k: int| 0 <= k < s.len() ==> s[k] != c,
    decreases s.len(),
{
    if s.len() > 0 && s[0] != c {
        lemma_find_char_some(s.drop_first(), c);
        if find_char(s.drop_first(), c) is None {
            assert forall|k: int| 0 <= k < s.len() implies s[k] != c by {
                if k > 0 {
                    assert(s[k] == s.drop_first()[k - 1]);
                }
            }
        }
    }
}

/// `find_char` finds the first `c`, and finds none where there is none.
pub proof fn lemma_find_char(s: Seq<char>, c: char, i: int)
    requires
        0 <= i <= s.len(),
        forall|k: int| 0 <= k < i ==> s[k] != c,
    ensures
        i < s.len() && s[i] == c ==> find_char(s, c) == Some(i),
        i == s.len() ==> find_char(s, c) is None,
    decreases i,
{
    if i > 0 {
        lemma_find_char(s.drop_first(), c, i - 1);
    }
}

/// The position of the first `c` in `s`.
pub fn find_char_exec(s: &Vec<char>, c: char) -> (r: Option<usize>)
    ensures
        r matches Some(i) ==> find_char(s@, c) == Some(i as int) && i < s@.len() && s@[i as int] == c,
        r is None ==> find_char(s@, c) is None,
{
    let mut i: usize = 0;
    while i < s.len()
        invariant
            i <= s.len(),
            forall|k: int| 0 <= k < i ==> s@[k] != c,
        decreases s.len() - i,
    {
        if s[i] == c {
            proof {
                lemma_find_char(s@, c, i as int);
            }
            assert(find_char(s@, c) == Some(i as int));
            return Some(i);
        }
        i += 1;
    }
    proof {
        lemma_find_char(s@, c, i as int);
    }
    None
}

/// The pieces of `s` between the occurrences of `c`.
pub open spec fn split_on(s: Seq<char>, c: char) -> Seq<Seq<char>>
    decreases s.len(),
{
    match find_char(s, c) {
        Some(i) => {
            if 0 <= i < s.len() {
                seq![s.take(i)] + split_on(s.skip(i + 1), c)
            } else {
                seq![s]
            }
        },
        None => seq![s],
    }
}

/// A piece free of `c`, then `c`, then the rest: the piece comes first.
pub proof fn lemma_split_on_piece(a: Seq<char>, b: Seq<char>, c: char)
    requires
        forall|k: int| 0 <= k < a.len() ==> a[k] != c,
    ensures
        split_on(a + seq![c] + b, c) == seq![a] + split_on(b, c),
{
    let s = a + seq![c] + b;
    lemma_find_char(s, c, a.len() as int);
    assert(s.take(a.len() as int) =~= a);
    assert(s.skip(a.len() as int + 1) =~= b);
}

/// A text free of `c` is one piece.
pub proof fn lemma_split_on_whole(a: Seq<char>, c: char)
    requires
        forall|k: int| 0 <= k < a.len() ==> a[k] != c,
    ensures
        split_on(a, c) == seq![a],
{
    lemma_find_char(a, c, a.len() as int);
}

/// The pieces of `s` between the occurrences of `c`.
pub fn split_chars(s: &Vec<char>, c: char) -> (r: Vec<Vec<char>>)
    ensures
        r@.len() == split_on(s@, c).len(),
        forall|i: int| 0 <= i < r@.len() ==> #[trigger] r@[i]@ == split_on(s@, c)[i],
{
    let mut pieces: Vec<Vec<char>> = Vec::new();
    let mut rest: Vec<char> = sub_chars(s, 0, s.len());
    assert(rest@ =~= s@);
    loop
        invariant_except_break
            pieces@.map_values(|p: Vec<char>| p@) + split_on(rest@, c) == split_on(s@, c),
        ensures
            pieces@.map_values(|p: Vec<char>| p@) == split_on(s@, c),
        decreases rest@.len(),
    {
        let ghost before = pieces@.map_values(|p: Vec<char>| p@);
        match find_char_exec(&rest, c) {
            Some(i) => {
                let piece = sub_chars(&rest, 0, i);
                let tail = sub_chars(&rest, i + 1, rest.len());
                proof {
                    assert(rest@.subrange(0, i as int) =~= rest@.take(i as int));
                    assert(rest@.subrange(i + 1, rest@.len() as int) =~= rest@.skip(i + 1));
                }
                pieces.push(piece);
                assert(pieces@.map_values(|p: Vec<char>| p@) =~= before.push(rest@.take(i as int)));
                assert(before + split_on(rest@, c) =~= before.push(rest@.take(i as int)) + split_on(tail@, c));
                rest = tail;
            },
            None => {
                let ghost r = rest@;
                pieces.push(rest);
                assert(split_on(r, c) == seq![r]);
                assert(pieces@.map_values(|p: Vec<char>| p@) =~= before + seq![r]);
                break;
            },
        }
    }
    let ghost views = pieces@.map_values(|p: Vec<char>| p@);
    assert forall|i: int| 0 <= i < pieces@.len() implies #[trigger] pieces@[i]@ == split_on(s@, c)[i] by {
        assert(views[i] == pieces@[i]@);
    }
    pieces
}

/// `s` starts with `p`.
pub open spec fn starts_with(s: Seq<char>, p: Seq<char>) -> bool {
    p.len() <= s.len() && s.take(p.len() as int) == p
}

/// `s` ends with `p`.
pub open spec fn ends_with(s: Seq<char>, p: Seq<char>) -> bool {
    p.len() <= s.len() && s.skip(s.len() - p.len()) == p
}

/// Equality of two character sequences.
pub fn chars_eq(a: &Vec<char>, b: &Vec<char>) -> (r: bool)
    ensures
        r == (a@ == b@),
{
    if a.len() != b.len() {
        return false;
    }
    let mut i: usize = 0;
    while i < a.len()
        invariant
            i <= a.len(),
            a.len() == b.len(),
            forall|k: int| 0 <= k < i ==> a@[k] == b@[k],
        decreases a.len() - i,
    {
        if a[i] != b[i] {
            return false;
        }
        i += 1;
    }
    assert(a@ =~= b@);
    true
}

/// Whether `s` ends with the characters `p`.
pub fn ends_with_chars(s: &Vec<char>, p: &Vec<char>) -> (r: bool)
    ensures
        r == ends_with(s@, p@),
{
    if p.len() > s.len() {
        return false;
    }
    let off = s.len() - p.len();
    let mut i: usize = 0;
    while i < p.len()
        invariant
            i <= p.len(),
            off == s.len() - p.len(),
            forall|k: int| 0 <= k < i ==> s@[off + k] == p@[k],
        decreases p.len() - i,
    {
        if s[off + i] != p[i] {
            assert(s@.skip(off as int)[i as int] == s@[off + i]);
            return false;
        }
        i += 1;
    }
    assert(s@.skip(off as int) =~= p@);
    true
}

/// Whether `s` starts with the characters `p`.
pub fn starts_with_chars(s: &Vec<char>, p: &Vec<char>) -> (r: bool)
    ensures
        r == starts_with(s@, p@),
{
    if p.len() > s.len() {
        return false;
    }
    let mut i: usize = 0;
    while i < p.len()
        invariant
            i <= p.len() <= s.len(),
            forall|k: int| 0 <= k < i ==> s@[k] == p@[k],
        decreases p.len() - i,
    {
        if s[i] != p[i] {
            assert(s@.take(p.len() as int)[i as int] == s@[i as int]);
            return false;
        }
        i += 1;
    }
    assert(s@.take(p.len() as int) =~= p@);
    true
}

// ---------------------------------------------------------------------------
// Unsigned integers in the syntax of `str::parse`
// ---------------------------------------------------------------------------

/// Value of a string of decimal digits (most significant first).
pub open spec fn digits_value(s: Seq<char>) -> nat
    decreases s.len(),
{
    if s.len() == 0 {
        0
    } else {
        digits_value(s.drop_last()) * 10 + digit_value(s.last())
    }
}

/// Every character of `s` is a decimal digit.
pub open spec fn all_digits(s: Seq<char>) -> bool {
    forall|i: int| 0 <= i < s.len() ==> is_digit(#[trigger] s[i])
}

/// What `str::parse` gives for an unsigned integer type whose largest value is `max`:
/// an optional `'+'`, then one or more decimal digits, with a value no larger than `max`.
pub open spec fn parse_uint(s: Seq<char>, max: nat) -> Option<nat> {
    let body = if s.len() > 0 && s[0] == '+' { s.drop_first() } else { s };
    if body.len() > 0 && all_digits(body) && digits_value(body) <= max {
        Some(digits_value(body))
    } else {
        None
    }
}

proof fn lemma_digits_value_take(s: Seq<char>, i: int)
    requires
        0 <= i < s.len(),
    ensures
        digits_value(s.take(i + 1)) == digits_value(s.take(i)) * 10 + digit_value(s[i]),
{
    assert(s.take(i + 1).drop_last() =~= s.take(i));
}

proof fn lemma_digits_value_mono(s: Seq<char>, i: int)
    requires
        0 <= i <= s.len(),
        all_digits(s),
    ensures
        digits_value(s.take(i)) <= digits_value(s),
    decreases s.len() - i,
{
    if i < s.len() {
        lemma_digits_value_mono(s, i + 1);
        lemma_digits_value_take(s, i);
    } else {
        assert(s.take(i) =~= s);
    }
}

/// `str::parse::<u64>` on a sequence of characters.
#[verifier::spinoff_prover]
#[verifier::rlimit(40)]
pub fn parse_u64_chars(s: &Vec<char>) -> (r: Option<u64>)
    ensures
        match parse_uint(s@, u64::MAX as nat) {
            Some(v) => r == Some(v as u64),
            None => r is None,
        },
{
    let start: usize = if s.len() > 0 && s[0] == '+' { 1 } else { 0 };
    let ghost body = if s@.len() > 0 && s@[0] == '+' { s@.drop_first() } else { s@ };
    assert(body =~= s@.skip(start as int));
    if start >= s.len() {
        return None;
    }
    let mut acc: u64 = 0;
    let mut i: usize = start;
    while i < s.len()
        invariant
            start <= i <= s.len(),
            body == s@.skip(start as int),
            body == (if s@.len() > 0 && s@[0] == '+' { s@.drop_first() } else { s@ }),
            body.len() > 0,
            forall|k: int| 0 <= k < i - start ==> is_digit(#[trigger] body[k]),
            acc == digits_value(body.take(i - start)),
        decreases s.len() - i,
    {
        let c = s[i];
        if !('0' <= c && c <= '9') {
            assert(body[i - start] == c);
            assert(!is_digit(body[i - start]));
            assert(!all_digits(body));
            return None;
        }
        let d: u64 = (c as u32 - '0' as u32) as u64;
        proof {
            lemma_digits_value_take(body, i - start);
        }
        assert(body[i - start] == c);
        if acc > (u64::MAX - d) / 10 {
            proof {
                assert(forall|k: int| 0 <= k < i + 1 - start ==> is_digit(#[trigger] body[k]));
                assert(acc * 10 + d > u64::MAX) by (nonlinear_arith)
                    requires acc > (u64::MAX - d) / 10, d <= 9;
                assert(digit_value(body[i - start]) == d);
                assert(digits_value(body.take(i - start + 1)) > u64::MAX);
                if all_digits(body) {
                    lemma_digits_value_mono(body, i + 1 - start);
                    assert(digits_value(body) > u64::MAX);
                }
            }
            return None;
        }
        assert(acc * 10 + d <= u64::MAX) by (nonlinear_arith)
            requires acc <= (u64::MAX - d) / 10, d <= 9;
        acc = acc * 10 + d;
        i += 1;
    }
    assert(body.take(body.len() as int) =~= body);
    Some(acc)
}

/// `str::parse::<u32>` on a sequence of characters.
pub fn parse_u32_chars(s: &Vec<char>) -> (r: Option<u32>)
    ensures
        match parse_uint(s@, u32::MAX as nat) {
            Some(v) => r == Some(v as u32),
            None => r is None,
        },
{
    match parse_u64_chars(s) {
        Some(v) => {
            if v <= u32::MAX as u64 {
                Some(v as u32)
            } else {
                None
            }
        },
        None => None,
    }
}

} // verus!
