//! Numbers as they travel on the bus and in the exposition text.
//!
//! Readings are held in fixed point: an `i64` counting millionths of the
//! unit (a temperature of 16.1 degrees is `16_100_000`).

use vstd::prelude::*;

verus! {

/// Millionths in one unit of a reading.
pub const MICROS: i64 = 1_000_000;

/// Largest magnitude, in millionths, that a decoded reading may have.
pub const READING_LIMIT: i64 = 1_000_000_000_000_000;

pub open spec fn pow10(n: nat) -> int
    decreases n,
{
    if n == 0 {
        1
    } else {
        10 * pow10((n - 1) as nat)
    }
}

/// Value of a digit in bases up to sixteen; 16 for any other character.
pub open spec fn digit_value(c: char) -> int {
    if '0' <= c && c <= '9' {
        c as int - '0' as int
    } else if 'a' <= c && c <= 'f' {
        c as int - 'a' as int + 10
    } else if 'A' <= c && c <= 'F' {
        c as int - 'A' as int + 10
    } else {
        16
    }
}

pub open spec fn all_digits(s: Seq<char>, radix: int) -> bool {
    forall|i: int| 0 <= i < s.len() ==> #[trigger] digit_value(s[i]) < radix
}

/// Value of a run of digits in base `radix`, most significant first.
pub open spec fn digits_value(s: Seq<char>, radix: int) -> int
    decreases s.len(),
{
    if s.len() == 0 {
        0
    } else {
        digits_value(s.drop_last(), radix) * radix + digit_value(s.last())
    }
}

/// The digits of an unsigned number: the text without one leading `+`.
pub open spec fn unsigned_body(s: Seq<char>) -> Seq<char> {
    if s.len() > 0 && s[0] == '+' {
        s.drop_first()
    } else {
        s
    }
}

/// An unsigned integer in base `radix` that must not exceed `max`,
/// written as one or more digits after an optional `+`.
pub open spec fn unsigned_value(s: Seq<char>, radix: int, max: int) -> Option<int> {
    let d = unsigned_body(s);
    if d.len() > 0 && all_digits(d, radix) && digits_value(d, radix) <= max {
        Some(digits_value(d, radix))
    } else {
        None
    }
}

pub proof fn lemma_digits_nonneg(s: Seq<char>, radix: int)
    requires
        2 <= radix,
        all_digits(s, radix),
    ensures
        0 <= digits_value(s, radix),
    decreases s.len(),
{
    if s.len() > 0 {
        lemma_digits_nonneg(s.drop_last(), radix);
        assert(digit_value(s[s.len() - 1]) < radix);
        assert(0 <= digits_value(s.drop_last(), radix) * radix) by (nonlinear_arith)
            requires
                0 <= digits_value(s.drop_last(), radix),
                2 <= radix,
        ;
    }
}

/// A run of digits is worth at least any of its prefixes.
pub proof fn lemma_digits_prefix(s: Seq<char>, k: int, radix: int)
    requires
        2 <= radix,
        0 <= k <= s.len(),
        all_digits(s, radix),
    ensures
        digits_value(s.take(k), radix) <= digits_value(s, radix),
    decreases s.len(),
{
    if k < s.len() {
        let p = s.drop_last();
        assert(p.take(k) == s.take(k));
        lemma_digits_prefix(p, k, radix);
        lemma_digits_nonneg(p, radix);
        assert(digit_value(s[s.len() - 1]) >= 0);
        assert(digits_value(p, radix) <= digits_value(p, radix) * radix) by (nonlinear_arith)
            requires
                0 <= digits_value(p, radix),
                2 <= radix,
        ;
    } else {
        assert(s.take(k) == s);
    }
}

pub(crate) fn digit_of(c: char) -> (r: u32)
    ensures
        r as int == digit_value(c),
{
    if '0' <= c && c <= '9' {
        (c as u32) - ('0' as u32)
    } else if 'a' <= c && c <= 'f' {
        (c as u32) - ('a' as u32) + 10
    } else if 'A' <= c && c <= 'F' {
        (c as u32) - ('A' as u32) + 10
    } else {
        16
    }
}

/// Reads an unsigned integer in base 10 or 16 that must not exceed `max`.
pub fn parse_unsigned(s: &[char], radix: u32, max: u32) -> (r: Option<u32>)
    requires
        radix == 10 || radix == 16,
    ensures
        r is Some <==> unsigned_value(s@, radix as int, max as int) is Some,
        r is Some ==> r->0 as int == unsigned_value(s@, radix as int, max as int)->0,
{
    let start: usize = if s.len() > 0 && s[0] == '+' {
        1
    } else {
        0
    };
    let ghost d = unsigned_body(s@);
    assert(d == s@.subrange(start as int, s@.len() as int));
    if start >= s.len() {
        return None;
    }
    let mut acc: u64 = 0;
    let mut i: usize = start;
    while i < s.len()
        invariant
            start <= i <= s.len(),
            d == s@.subrange(start as int, s@.len() as int),
            d == unsigned_body(s@),
            all_digits(d.take(i - start), radix as int),
            acc as int == digits_value(d.take(i - start), radix as int),
            acc <= max,
            radix == 10 || radix == 16,
        decreases s.len() - i,
    {
        let v = digit_of(s[i]);
        let ghost k: int = i - start;
        assert(d[k] == s@[i as int]);
        assert(d.take(k + 1).drop_last() == d.take(k));
        if v >= radix {
            assert(digit_value(d[k]) >= radix);
            return None;
        }
        assert(acc * (radix as u64) <= 0xffff_ffffu64 * 16) by (nonlinear_arith)
            requires
                acc <= 0xffff_ffffu64,
                radix <= 16,
        ;
        acc = acc * (radix as u64) + (v as u64);
        assert(all_digits(d.take(k + 1), radix as int));
        if acc > max as u64 {
            proof {
                if all_digits(d, radix as int) {
                    lemma_digits_prefix(d, k + 1, radix as int);
                }
            }
            return None;
        }
        i = i + 1;
    }
    assert(d.take(d.len() as int) == d);
    Some(acc as u32)
}


/// Every digit run of length `n` in base ten is below `10^n`.
pub proof fn lemma_digits_bound(s: Seq<char>)
    requires
        all_digits(s, 10),
    ensures
        digits_value(s, 10) < pow10(s.len()),
    decreases s.len(),
{
    if s.len() > 0 {
        let p = s.drop_last();
        lemma_digits_bound(p);
        assert(digit_value(s[s.len() - 1]) < 10);
        assert(pow10(s.len()) == 10 * pow10(p.len()));
        assert(digits_value(p, 10) * 10 + 9 < 10 * pow10(p.len())) by (nonlinear_arith)
            requires
                digits_value(p, 10) < pow10(p.len()),
        ;
    }
}

/// Checks that `s[lo..hi]` holds decimal digits only and reads them,
/// giving up once the value exceeds `max`.
fn digits_within(s: &[char], lo: usize, hi: usize, max: u64) -> (r: Option<u64>)
    requires
        lo <= hi <= s.len(),
        max <= 1_000_000_000_000,
    ensures
        r is Some <==> all_digits(s@.subrange(lo as int, hi as int), 10) && digits_value(
            s@.subrange(lo as int, hi as int),
            10,
        ) <= max,
        r is Some ==> r->0 as int == digits_value(s@.subrange(lo as int, hi as int), 10),
{
    let ghost d = s@.subrange(lo as int, hi as int);
    let mut acc: u64 = 0;
    let mut i: usize = lo;
    while i < hi
        invariant
            lo <= i <= hi <= s.len(),
            d == s@.subrange(lo as int, hi as int),
            all_digits(d.take(i - lo), 10),
            acc as int == digits_value(d.take(i - lo), 10),
            acc <= max,
            max <= 1_000_000_000_000,
        decreases hi - i,
    {
        let v = digit_of(s[i]);
        let ghost k: int = i - lo;
        assert(d[k] == s@[i as int]);
        assert(d.take(k + 1).drop_last() == d.take(k));
        if v >= 10 {
            assert(digit_value(d[k]) >= 10);
            return None;
        }
        acc = acc * 10 + (v as u64);
        assert(all_digits(d.take(k + 1), 10));
        if acc > max {
            proof {
                if all_digits(d, 10) {
                    lemma_digits_prefix(d, k + 1, 10);
                }
            }
            return None;
        }
        i = i + 1;
    }
    assert(d.take(d.len() as int) == d);
    Some(acc)
}

/// Whether `s[lo..hi]` holds decimal digits only.
fn all_digits_within(s: &[char], lo: usize, hi: usize) -> (r: bool)
    requires
        lo <= hi <= s.len(),
    ensures
        r == all_digits(s@.subrange(lo as int, hi as int), 10),
{
    let mut i: usize = lo;
    while i < hi
        invariant
            lo <= i <= hi <= s.len(),
            forall|j: int| lo <= j < i ==> digit_value(#[trigger] s@[j]) < 10,
        decreases hi - i,
    {
        if digit_of(s[i]) >= 10 {
            assert(digit_value(s@.subrange(lo as int, hi as int)[i - lo]) >= 10);
            return false;
        }
        i = i + 1;
    }
    assert forall|j: int| 0 <= j < hi - lo implies #[trigger] digit_value(
        s@.subrange(lo as int, hi as int)[j],
    ) < 10 by {
        assert(s@.subrange(lo as int, hi as int)[j] == s@[lo + j]);
    }
    true
}

/// `10^n` for the few powers that fraction digits need.
fn small_pow10(n: usize) -> (r: u64)
    requires
        n <= 6,
    ensures
        r as int == pow10(n as nat),
{
    proof {
        reveal_with_fuel(pow10, 7);
    }
    if n == 0 {
        1
    } else if n == 1 {
        10
    } else if n == 2 {
        100
    } else if n == 3 {
        1000
    } else if n == 4 {
        10000
    } else if n == 5 {
        100000
    } else {
        1000000
    }
}

/// The text after one leading sign character.
pub open spec fn signed_body(s: Seq<char>) -> Seq<char> {
    if s.len() > 0 && (s[0] == '-' || s[0] == '+') {
        s.drop_first()
    } else {
        s
    }
}

/// Millionths given by the digits after a decimal point; digits past the
/// sixth are dropped.
pub open spec fn fraction_micros(f: Seq<char>) -> int {
    if f.len() >= 6 {
        digits_value(f.take(6), 10)
    } else {
        digits_value(f, 10) * pow10((6 - f.len()) as nat)
    }
}

pub open spec fn has_point(b: Seq<char>) -> bool {
    exists|k: int| 0 <= k < b.len() && b[k] == '.'
}

pub open spec fn point_of(b: Seq<char>) -> int {
    choose|k: int| 0 <= k < b.len() && b[k] == '.'
}

/// Magnitude, in millionths, of an unsigned decimal: digits, optionally
/// with one decimal point, and at least one digit in all.
pub open spec fn magnitude_micros(b: Seq<char>) -> Option<int> {
    if has_point(b) {
        let k = point_of(b);
        if b.len() > 1 && all_digits(b.take(k), 10) && all_digits(b.skip(k + 1), 10) {
            Some(digits_value(b.take(k), 10) * 1_000_000 + fraction_micros(b.skip(k + 1)))
        } else {
            None
        }
    } else if b.len() > 0 && all_digits(b, 10) {
        Some(digits_value(b, 10) * 1_000_000)
    } else {
        None
    }
}

/// A reading written as a decimal with an optional sign, in millionths;
/// none when the text is no such decimal or its magnitude passes
/// `READING_LIMIT`.
pub open spec fn reading_value(s: Seq<char>) -> Option<int> {
    match magnitude_micros(signed_body(s)) {
        Some(m) => if m <= READING_LIMIT {
            Some(
                if s[0] == '-' {
                    -m
                } else {
                    m
                },
            )
        } else {
            None
        },
        None => None,
    }
}

proof fn lemma_fraction_nonneg(f: Seq<char>)
    requires
        all_digits(f, 10),
    ensures
        0 <= fraction_micros(f) < 1_000_000,
{
    reveal_with_fuel(pow10, 7);
    if f.len() >= 6 {
        let t = f.take(6);
        assert(all_digits(t, 10));
        lemma_digits_nonneg(t, 10);
        lemma_digits_bound(t);
    } else {
        let e = (6 - f.len()) as nat;
        lemma_digits_nonneg(f, 10);
        lemma_digits_bound(f);
        lemma_pow10_mono(0, e);
        lemma_pow10_split(f.len(), e);
        let v = digits_value(f, 10);
        assert(v * pow10(e) < pow10(f.len()) * pow10(e)) by (nonlinear_arith)
            requires
                v < pow10(f.len()),
                pow10(e) >= 1,
        ;
        assert(0 <= v * pow10(e)) by (nonlinear_arith)
            requires
                v >= 0,
                pow10(e) >= 1,
        ;
    }
}

pub proof fn lemma_pow10_split(a: nat, b: nat)
    ensures
        pow10(a) * pow10(b) == pow10(a + b),
    decreases a,
{
    if a > 0 {
        lemma_pow10_split((a - 1) as nat, b);
        assert(pow10(a) * pow10(b) == 10 * (pow10((a - 1) as nat) * pow10(b))) by (nonlinear_arith)
            requires
                pow10(a) == 10 * pow10((a - 1) as nat),
        ;
    }
}

/// Magnitude of `s[start..]` when it holds one decimal point, at `k`.
fn point_magnitude(s: &[char], start: usize, k: usize) -> (r: Option<u64>)
    requires
        start <= k < s.len(),
        s@[k as int] == '.',
        forall|j: int| start <= j < k ==> s@[j] != '.',
    ensures
        ({
            let m = magnitude_micros(s@.subrange(start as int, s@.len() as int));
            &&& r is Some <==> (m is Some && m->0 <= READING_LIMIT)
            &&& r is Some ==> r->0 as int == m->0
        }),
{
    let ghost b = s@.subrange(start as int, s@.len() as int);
    let ghost kb: int = k - start;
    assert(b[kb] == '.');
    assert(has_point(b));
    let ghost f = b.skip(kb + 1);
    assert(f == s@.subrange(k + 1, s@.len() as int));
    if s.len() - start <= 1 {
        return None;
    }
    if !all_digits_within(s, k + 1, s.len()) {
        proof {
            let c = point_of(b);
            if c < kb {
                assert(s@[start + c] == '.');
            } else if c > kb {
                assert(b.take(c)[kb] == '.');
                assert(digit_value(b.take(c)[kb]) >= 10);
            }
        }
        return None;
    }
    assert(point_of(b) == kb) by {
        let c = point_of(b);
        if c < kb {
            assert(s@[start + c] == '.');
        } else if c > kb {
            assert(f[c - kb - 1] == '.');
            assert(digit_value(f[c - kb - 1]) >= 10);
        }
    }
    assert(b.take(kb) == s@.subrange(start as int, k as int));
    proof {
        lemma_fraction_nonneg(f);
    }
    let ip = match digits_within(s, start, k, 1_000_000_000) {
        None => {
            return None;
        },
        Some(v) => v,
    };
    let frac_end: usize = if s.len() - (k + 1) >= 6 {
        k + 7
    } else {
        s.len()
    };
    let ghost taken = s@.subrange(k + 1, frac_end as int);
    assert(all_digits(taken, 10));
    proof {
        lemma_digits_bound(taken);
        lemma_pow10_mono(taken.len(), 6);
        reveal_with_fuel(pow10, 7);
    }
    let fp = match digits_within(s, k + 1, frac_end, 999_999) {
        Some(v) => v,
        None => {
            return None;
        },
    };
    let scale = small_pow10(6 - (frac_end - (k + 1)));
    proof {
        lemma_pow10_mono((6 - taken.len()) as nat, 6);
        if f.len() >= 6 {
            assert(taken == f.take(6));
            assert(scale == 1);
            assert(fraction_micros(f) == fp);
        } else {
            assert(taken == f);
            assert(scale as int == pow10((6 - f.len()) as nat));
            assert(fraction_micros(f) == fp * scale);
        }
    }
    assert(fp * scale <= 999_999 * 1_000_000) by (nonlinear_arith)
        requires
            fp <= 999_999,
            scale <= 1_000_000,
    ;
    let m = ip * 1_000_000 + fp * scale;
    assert(fp * scale == fraction_micros(f));
    assert(ip == digits_value(b.take(kb), 10));
    assert(magnitude_micros(b) == Some(m as int));
    if m > READING_LIMIT as u64 {
        return None;
    }
    Some(m)
}

/// Magnitude of `s[start..]` when it holds no decimal point.
fn plain_magnitude(s: &[char], start: usize) -> (r: Option<u64>)
    requires
        start <= s.len(),
        forall|j: int| start <= j < s.len() ==> s@[j] != '.',
    ensures
        ({
            let m = magnitude_micros(s@.subrange(start as int, s@.len() as int));
            &&& r is Some <==> (m is Some && m->0 <= READING_LIMIT)
            &&& r is Some ==> r->0 as int == m->0
        }),
{
    let ghost b = s@.subrange(start as int, s@.len() as int);
    assert(!has_point(b)) by {
        if has_point(b) {
            let c = point_of(b);
            assert(s@[start + c] == '.');
        }
    }
    if start == s.len() {
        return None;
    }
    match digits_within(s, start, s.len(), 1_000_000_000) {
        None => None,
        Some(v) => Some(v * 1_000_000),
    }
}

/// Reads a decimal reading such as `-12.75` into millionths.
pub fn parse_reading(s: &[char]) -> (r: Option<i64>)
    ensures
        r is Some <==> reading_value(s@) is Some,
        r is Some ==> r->0 as int == reading_value(s@)->0,
        r is Some ==> -READING_LIMIT <= r->0 <= READING_LIMIT,
{
    let start: usize = if s.len() > 0 && (s[0] == '-' || s[0] == '+') {
        1
    } else {
        0
    };
    assert(signed_body(s@) == s@.subrange(start as int, s@.len() as int));
    let mut k: usize = start;
    while k < s.len() && s[k] != '.'
        invariant
            start <= k <= s.len(),
            forall|j: int| start <= j < k ==> s@[j] != '.',
        decreases s.len() - k,
    {
        k = k + 1;
    }
    let magnitude = if k == s.len() {
        plain_magnitude(s, start)
    } else {
        point_magnitude(s, start, k)
    };
    match magnitude {
        None => None,
        Some(m) => if start == 1 && s[0] == '-' {
            Some(-(m as i64))
        } else {
            Some(m as i64)
        },
    }
}

pub proof fn lemma_pow10_mono(a: nat, b: nat)
    requires
        a <= b,
    ensures
        1 <= pow10(a) <= pow10(b),
    decreases b,
{
    if a < b {
        lemma_pow10_mono(a, (b - 1) as nat);
    } else if a > 0 {
        lemma_pow10_mono((a - 1) as nat, (a - 1) as nat);
    }
}


/// A number given as sign, mantissa and decimal exponent, scaled to
/// millionths; digits below a millionth are dropped.
pub open spec fn scaled_micros(mantissa: int, exponent: int) -> int {
    if exponent + 6 >= 0 {
        mantissa * pow10((exponent + 6) as nat)
    } else {
        mantissa / pow10((-(exponent + 6)) as nat)
    }
}

/// A number given as sign, mantissa and decimal exponent, as a reading in
/// millionths; none when its magnitude passes `READING_LIMIT`.
pub open spec fn number_micros(positive: bool, mantissa: int, exponent: int) -> Option<int> {
    let v = scaled_micros(mantissa, exponent);
    if v <= READING_LIMIT {
        Some(
            if positive {
                v
            } else {
                -v
            },
        )
    } else {
        None
    }
}

proof fn lemma_scale_grows(m: int, i: nat, n: nat)
    requires
        0 <= m,
        i <= n,
    ensures
        m * pow10(i) <= m * pow10(n),
{
    lemma_pow10_mono(i, n);
    assert(m * pow10(i) <= m * pow10(n)) by (nonlinear_arith)
        requires
            0 <= m,
            pow10(i) <= pow10(n),
    ;
}

/// Scales a number given as sign, mantissa and decimal exponent to
/// millionths.
pub fn micros_of_number(positive: bool, mantissa: u64, exponent: i16) -> (r: Option<i64>)
    ensures
        r is Some <==> number_micros(positive, mantissa as int, exponent as int) is Some,
        r is Some ==> r->0 as int == number_micros(positive, mantissa as int, exponent as int)->0,
{
    let shift: i32 = exponent as i32 + 6;
    let mut acc: u64 = mantissa;
    if shift >= 0 {
        let n: u32 = shift as u32;
        let mut i: u32 = 0;
        while i < n
            invariant
                i <= n,
                n == exponent as int + 6,
                acc as int == mantissa as int * pow10(i as nat),
                acc <= READING_LIMIT || i == 0,
            decreases n - i,
        {
            if acc > (READING_LIMIT as u64) / 10 {
                proof {
                    lemma_scale_grows(mantissa as int, (i + 1) as nat, n as nat);
                    assert(mantissa as int * pow10((i + 1) as nat) == acc * 10) by (nonlinear_arith)
                        requires
                            acc as int == mantissa as int * pow10(i as nat),
                            pow10((i + 1) as nat) == 10 * pow10(i as nat),
                    ;
                }
                return None;
            }
            proof {
                assert(mantissa as int * pow10((i + 1) as nat) == acc * 10) by (nonlinear_arith)
                    requires
                        acc as int == mantissa as int * pow10(i as nat),
                        pow10((i + 1) as nat) == 10 * pow10(i as nat),
                ;
            }
            acc = acc * 10;
            i = i + 1;
        }
    } else {
        let n: u32 = (-shift) as u32;
        let mut i: u32 = 0;
        while i < n
            invariant
                i <= n,
                n == -(exponent as int + 6),
                acc as int == mantissa as int / pow10(i as nat),
            decreases n - i,
        {
            proof {
                lemma_pow10_mono(0, i as nat);
                vstd::arithmetic::div_mod::lemma_div_denominator(
                    mantissa as int,
                    pow10(i as nat),
                    10,
                );
                assert(pow10(i as nat) * 10 == pow10((i + 1) as nat));
            }
            acc = acc / 10;
            i = i + 1;
        }
    }
    if acc > READING_LIMIT as u64 {
        return None;
    }
    if positive {
        Some(acc as i64)
    } else {
        Some(-(acc as i64))
    }
}

/// Whether a number given as sign, mantissa and decimal exponent is
/// above one.
pub open spec fn exceeds_one(positive: bool, mantissa: int, exponent: int) -> bool {
    positive && if exponent >= 0 {
        mantissa * pow10(exponent as nat) > 1
    } else {
        mantissa > pow10((-exponent) as nat)
    }
}

/// Whether a number given as sign, mantissa and decimal exponent is
/// above one, compared exactly.
pub fn number_exceeds_one(positive: bool, mantissa: u64, exponent: i16) -> (r: bool)
    ensures
        r == exceeds_one(positive, mantissa as int, exponent as int),
{
    if !positive {
        return false;
    }
    if exponent >= 0 {
        proof {
            let p = pow10(exponent as nat);
            lemma_pow10_mono(0, exponent as nat);
            if exponent > 0 {
                lemma_pow10_mono(1, exponent as nat);
                reveal_with_fuel(pow10, 2);
            }
            assert(mantissa >= 2 ==> mantissa * p > 1) by (nonlinear_arith)
                requires
                    p >= 1,
            ;
            assert(mantissa == 1 ==> mantissa * p == p) by (nonlinear_arith);
            assert(mantissa == 0 ==> mantissa * p == 0) by (nonlinear_arith);
        }
        return mantissa >= 2 || (mantissa == 1 && exponent > 0);
    }
    let k: u32 = (-(exponent as i32)) as u32;
    proof {
        reveal_with_fuel(pow10, 21);
    }
    if k >= 20 {
        proof {
            lemma_pow10_mono(20, k as nat);
        }
        return false;
    }
    let mut p: u128 = 1;
    let mut i: u32 = 0;
    while i < k
        invariant
            i <= k < 20,
            p as int == pow10(i as nat),
            pow10(19) == 10_000_000_000_000_000_000,
        decreases k - i,
    {
        proof {
            lemma_pow10_mono((i + 1) as nat, 19);
        }
        p = p * 10;
        i = i + 1;
    }
    (mantissa as u128) > p
}

pub open spec fn digit_char(d: int) -> char {
    if d == 0 {
        '0'
    } else if d == 1 {
        '1'
    } else if d == 2 {
        '2'
    } else if d == 3 {
        '3'
    } else if d == 4 {
        '4'
    } else if d == 5 {
        '5'
    } else if d == 6 {
        '6'
    } else if d == 7 {
        '7'
    } else if d == 8 {
        '8'
    } else {
        '9'
    }
}

fn digit_char_of(d: u128) -> (r: char)
    requires
        d < 10,
    ensures
        r == digit_char(d as int),
{
    if d == 0 {
        '0'
    } else if d == 1 {
        '1'
    } else if d == 2 {
        '2'
    } else if d == 3 {
        '3'
    } else if d == 4 {
        '4'
    } else if d == 5 {
        '5'
    } else if d == 6 {
        '6'
    } else if d == 7 {
        '7'
    } else if d == 8 {
        '8'
    } else {
        '9'
    }
}

/// Decimal digits of `n`, without leading zeros.
pub open spec fn decimal_text(n: nat) -> Seq<char>
    decreases n,
{
    if n < 10 {
        seq![digit_char(n as int)]
    } else {
        decimal_text(n / 10) + seq![digit_char((n % 10) as int)]
    }
}

/// The last `w` decimal digits of `n`, with leading zeros.
pub open spec fn padded_text(n: nat, w: nat) -> Seq<char>
    decreases w,
{
    if w == 0 {
        seq![]
    } else {
        padded_text(n / 10, (w - 1) as nat) + seq![digit_char((n % 10) as int)]
    }
}

pub open spec fn trim_zeros(s: Seq<char>) -> Seq<char>
    decreases s.len(),
{
    if s.len() > 0 && s.last() == '0' {
        trim_zeros(s.drop_last())
    } else {
        s
    }
}

pub open spec fn abs(v: int) -> int {
    if v < 0 {
        -v
    } else {
        v
    }
}

/// A reading in millionths as shortest decimal text: `16100000` is
/// `16.1`, `37000000` is `37`, `-500000` is `-0.5`.
pub open spec fn reading_text(v: int) -> Seq<char> {
    let m = abs(v);
    let whole = m / 1_000_000;
    let frac = m % 1_000_000;
    (if v < 0 {
        seq!['-']
    } else {
        seq![]
    }) + decimal_text(whole as nat) + (if frac == 0 {
        seq![]
    } else {
        seq!['.'] + trim_zeros(padded_text(frac as nat, 6))
    })
}

/// Appends the decimal digits of `n`.
pub fn push_decimal(out: &mut String, n: u128)
    ensures
        final(out)@ == old(out)@ + decimal_text(n as nat),
    decreases n,
{
    if n >= 10 {
        push_decimal(out, n / 10);
        crate::text::push_char(out, digit_char_of(n % 10));
    } else {
        crate::text::push_char(out, digit_char_of(n));
    }
}

fn padded_digits(n: u128, w: u128) -> (r: Vec<char>)
    ensures
        r@ == padded_text(n as nat, w as nat),
    decreases w,
{
    if w == 0 {
        Vec::new()
    } else {
        let mut r = padded_digits(n / 10, w - 1);
        r.push(digit_char_of(n % 10));
        r
    }
}

/// Appends a reading in millionths as shortest decimal text.
pub fn push_reading(out: &mut String, v: i128)
    requires
        v > i128::MIN,
    ensures
        final(out)@ == old(out)@ + reading_text(v as int),
{
    let m: u128 = if v < 0 {
        (-v) as u128
    } else {
        v as u128
    };
    let ghost start = out@;
    if v < 0 {
        crate::text::push_char(out, '-');
    }
    push_decimal(out, m / 1_000_000);
    let frac = m % 1_000_000;
    if frac != 0 {
        crate::text::push_char(out, '.');
        let mut digits = padded_digits(frac, 6);
        while digits.len() > 0 && digits[digits.len() - 1] == '0'
            invariant
                trim_zeros(digits@) == trim_zeros(padded_text(frac as nat, 6)),
            decreases digits.len(),
        {
            let ghost before = digits@;
            digits.pop();
            assert(digits@ == before.drop_last());
        }
        let mut i: usize = 0;
        let ghost mid = out@;
        while i < digits.len()
            invariant
                i <= digits.len(),
                out@ == mid + digits@.take(i as int),
            decreases digits.len() - i,
        {
            crate::text::push_char(out, digits[i]);
            assert(digits@.take(i + 1) == digits@.take(i as int).push(digits@[i as int]));
            i = i + 1;
        }
        assert(digits@.take(digits.len() as int) == digits@);
    }
    assert(out@ == start + reading_text(v as int));
}

} // verus!
