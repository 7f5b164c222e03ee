//! Exact decimal numbers for numeric literals and constant folding.
//!
//! A literal in the source language is a run of digits and dots.  The lexer
//! turns it into a [`Numeral`], the exact value `mantissa / 10^scale`, kept in
//! lowest decimal terms.  Folding two numerals adds, subtracts, multiplies,
//! divides or compares these exact values; an operation whose exact result
//! does not fit the representation reports `None` rather than rounding.

use vstd::prelude::*;
use vstd::arithmetic::div_mod::{
    lemma_fundamental_div_mod, lemma_fundamental_div_mod_converse, lemma_div_multiples_vanish,
};
use vstd::math::abs;

verus! {

/// Largest number of fractional digits a numeral keeps after normalization.
pub const MAX_SCALE: u32 = 18;

/// An exact decimal number: the value `mantissa / 10^scale`.
///
/// A well-formed numeral is in lowest decimal terms: the mantissa of a
/// fractional value is not divisible by ten, zero is `0 / 10^0`, the scale is
/// at most [`MAX_SCALE`] and the mantissa stays in the symmetric range
/// `-i64::MAX ..= i64::MAX`.  Two well-formed numerals are therefore equal as
/// values exactly when they are equal as structures.
#[derive(Clone, Copy, Debug, PartialEq, Eq, Structural)]
pub struct Numeral {
    pub mantissa: i64,
    pub scale: u32,
}

/// `10^e` as a mathematical integer.
pub open spec fn pow10(e: nat) -> int
    decreases e,
{
    if e == 0 {
        1
    } else {
        10 * pow10((e - 1) as nat)
    }
}

pub proof fn lemma_pow10_pos(e: nat)
    ensures
        pow10(e) >= 1,
    decreases e,
{
    if e > 0 {
        lemma_pow10_pos((e - 1) as nat);
    }
}

pub proof fn lemma_pow10_mono(a: nat, b: nat)
    requires
        a <= b,
    ensures
        pow10(a) <= pow10(b),
    decreases b,
{
    if a < b {
        lemma_pow10_mono(a, (b - 1) as nat);
        lemma_pow10_pos((b - 1) as nat);
    }
}

pub proof fn lemma_pow10_at_most_max_scale(e: nat)
    requires
        e <= MAX_SCALE,
    ensures
        1 <= pow10(e) <= 1_000_000_000_000_000_000,
{
    lemma_pow10_pos(e);
    lemma_pow10_mono(e, MAX_SCALE as nat);
    reveal_with_fuel(pow10, 19);
    assert(pow10(MAX_SCALE as nat) == 1_000_000_000_000_000_000);
}

impl Numeral {
    /// Lowest decimal terms, bounded mantissa and scale.
    pub open spec fn wf(self) -> bool {
        &&& self.scale <= MAX_SCALE
        &&& self.scale > 0 ==> self.mantissa % 10 != 0
        &&& self.mantissa == 0 ==> self.scale == 0
        &&& -(i64::MAX as int) <= self.mantissa as int <= i64::MAX as int
    }
}

/// `(m, s)` with all factors of ten moved out of the fractional part:
/// the lowest-terms form of the value `m / 10^s`.
pub open spec fn norm(m: int, s: nat) -> (int, nat)
    decreases s,
{
    if m == 0 {
        (0, 0)
    } else if s > 0 && m % 10 == 0 {
        norm(m / 10, (s - 1) as nat)
    } else {
        (m, s)
    }
}

/// Whether a lowest-terms value fits the representation of [`Numeral`].
pub open spec fn fits(p: (int, nat)) -> bool {
    &&& -(i64::MAX as int) <= p.0 <= i64::MAX as int
    &&& p.1 <= MAX_SCALE
}

/// Normalization does not change the value: `m / 10^s == m' / 10^s'`,
/// stated by cross-multiplication.
pub proof fn lemma_norm_value(m: int, s: nat)
    ensures
        m * pow10(norm(m, s).1) == norm(m, s).0 * pow10(s),
    decreases s,
{
    if m == 0 {
        assert(norm(m, s) == (0int, 0nat));
        assert(0int * pow10(s) == 0) by (nonlinear_arith);
        assert(0int * pow10(0) == 0) by (nonlinear_arith);
        assert(m * pow10(norm(m, s).1) == norm(m, s).0 * pow10(s));
    } else if s > 0 && m % 10 == 0 {
        lemma_norm_value(m / 10, (s - 1) as nat);
        lemma_fundamental_div_mod(m, 10);
        assert(m == 10 * (m / 10));
        let m2 = norm(m / 10, (s - 1) as nat).0;
        let s2 = norm(m / 10, (s - 1) as nat).1;
        assert(norm(m, s) == norm(m / 10, (s - 1) as nat));
        assert((m / 10) * pow10(s2) == m2 * pow10((s - 1) as nat));
        assert(m * pow10(s2) == 10 * ((m / 10) * pow10(s2))) by {
            lemma_mul_ten_shift(m / 10, pow10(s2));
        }
        assert(10 * (m2 * pow10((s - 1) as nat)) == m2 * pow10(s)) by {
            assert(pow10(s) == 10 * pow10((s - 1) as nat));
            lemma_mul_ten_commute(m2, pow10((s - 1) as nat));
        }
        assert(m * pow10(s2) == m2 * pow10(s));
    }
}

/// The shape of a normalized pair: in lowest terms, with the scale and the
/// magnitude no larger than they started.
pub proof fn lemma_norm_shape(m: int, s: nat)
    ensures
        norm(m, s).1 <= s,
        norm(m, s).1 > 0 ==> norm(m, s).0 % 10 != 0,
        norm(m, s).0 == 0 ==> norm(m, s).1 == 0,
        m >= 0 ==> 0 <= norm(m, s).0 <= m,
        m <= 0 ==> m <= norm(m, s).0 <= 0,
    decreases s,
{
    if m == 0 {
    } else if s > 0 && m % 10 == 0 {
        lemma_fundamental_div_mod(m, 10);
        lemma_norm_shape(m / 10, (s - 1) as nat);
    }
}

proof fn lemma_mul_ten_shift(x: int, y: int)
    by (nonlinear_arith)
    ensures
        (10 * x) * y == 10 * (x * y),
{
}

proof fn lemma_mul_ten_commute(x: int, y: int)
    by (nonlinear_arith)
    ensures
        x * (10 * y) == 10 * (x * y),
{
}

proof fn lemma_mul_magnitude(x: int, p: int, a: int, b: int)
    by (nonlinear_arith)
    requires
        -a <= x <= a,
        0 <= p <= b,
        0 <= a,
    ensures
        -(a * b) <= x * p <= a * b,
{
}

/// `10^e` as a machine integer; exact for every scale a numeral can carry.
fn pow10_exec(e: u32) -> (r: i64)
    requires
        e <= MAX_SCALE,
    ensures
        r as int == pow10(e as nat),
        1 <= r <= 1_000_000_000_000_000_000,
{
    let mut i: u32 = 0;
    let mut acc: i64 = 1;
    while i < e
        invariant
            i <= e <= MAX_SCALE,
            acc as int == pow10(i as nat),
            1 <= acc <= 1_000_000_000_000_000_000,
        decreases e - i,
    {
        proof {
            lemma_pow10_at_most_max_scale(i as nat);
            lemma_pow10_mono((i + 1) as nat, MAX_SCALE as nat);
            lemma_pow10_at_most_max_scale(MAX_SCALE as nat);
        }
        acc = acc * 10;
        i = i + 1;
    }
    proof {
        lemma_pow10_at_most_max_scale(e as nat);
    }
    acc
}

/// Reduces a signed magnitude to lowest decimal terms and packs it into a
/// [`Numeral`]; `None` exactly when the lowest-terms form does not fit.
fn normalize_parts(neg: bool, mag0: u128, s0: usize) -> (r: Option<Numeral>)
    ensures
        ({
            let m0 = if neg { -(mag0 as int) } else { mag0 as int };
            match r {
                Some(n) => n.wf() && (n.mantissa as int, n.scale as nat) == norm(m0, s0 as nat),
                None => !fits(norm(m0, s0 as nat)),
            }
        }),
{
    let ghost m0: int = if neg { -(mag0 as int) } else { mag0 as int };
    let mut mag: u128 = mag0;
    let mut s: usize = s0;
    while s > 0 && mag % 10 == 0 && mag > 0
        invariant
            norm(m0, s0 as nat) == norm(
                if neg { -(mag as int) } else { mag as int },
                s as nat,
            ),
            mag <= mag0,
        decreases s,
    {
        proof {
            let m = mag as int;
            lemma_fundamental_div_mod(m, 10);
            assert(m == 10 * (m / 10));
            if neg {
                assert(-m == 10 * (-(m / 10)));
                lemma_div_multiples_vanish(-(m / 10), 10);
                lemma_fundamental_div_mod(-m, 10);
            }
        }
        mag = mag / 10;
        s = s - 1;
    }
    if mag == 0 {
        return Some(Numeral { mantissa: 0, scale: 0 });
    }
    if s > MAX_SCALE as usize || mag > i64::MAX as u128 {
        return None;
    }
    let m = mag as i64;
    let out = Numeral { mantissa: if neg { -m } else { m }, scale: s as u32 };
    proof {
        if neg {
            assert(norm(-(mag as int), s as nat) == (-(mag as int), s as nat));
        }
    }
    Some(out)
}

/// One digit of the decimal alphabet.
pub open spec fn is_digit_char(c: char) -> bool {
    48 <= c as int <= 57
}

/// The numeric value of a digit character.
pub open spec fn digit_value(c: char) -> int {
    c as int - 48
}

/// Left-to-right scan of a literal: accumulates the digits into a mantissa
/// and counts the digits after the dot.  `None` on a second dot, on a
/// character that is neither digit nor dot, on a literal without digits, and
/// on a mantissa too long for the scan's accumulator.
pub open spec fn lit_scan(
    t: Seq<char>,
    i: int,
    mag: int,
    frac: nat,
    dot: bool,
    has_digit: bool,
) -> Option<(int, nat)>
    decreases t.len() - i,
{
    if i >= t.len() {
        if has_digit {
            Some((mag, frac))
        } else {
            None
        }
    } else if t[i] == '.' {
        if dot {
            None
        } else {
            lit_scan(t, i + 1, mag, frac, true, has_digit)
        }
    } else if is_digit_char(t[i]) {
        if mag > (u128::MAX - 9) as int / 10 {
            None
        } else {
            lit_scan(
                t,
                i + 1,
                mag * 10 + digit_value(t[i]),
                if dot { frac + 1 } else { frac },
                dot,
                true,
            )
        }
    } else {
        None
    }
}

/// The numeral a literal denotes: the scanned digits in lowest terms, or
/// `None` when the text is not a valid literal or its exact value does not
/// fit a [`Numeral`].
pub open spec fn spec_literal(t: Seq<char>) -> Option<Numeral> {
    match lit_scan(t, 0, 0, 0, false, false) {
        Some((m, s)) => {
            if fits(norm(m, s)) {
                Some(Numeral { mantissa: norm(m, s).0 as i64, scale: norm(m, s).1 as u32 })
            } else {
                None
            }
        },
        None => None,
    }
}

impl Numeral {
    /// Parses the characters `text[start..end]` as a numeric literal.
    pub fn from_literal(text: &Vec<char>, start: usize, end: usize) -> (r: Option<Numeral>)
        requires
            start <= end <= text@.len(),
        ensures
            r == spec_literal(text@.subrange(start as int, end as int)),
            r is Some ==> r->Some_0.wf(),
    {
        let ghost t = text@.subrange(start as int, end as int);
        let mut i: usize = start;
        let mut mag: u128 = 0;
        let mut frac: usize = 0;
        let mut dot = false;
        let mut has_digit = false;
        while i < end
            invariant
                start <= i <= end <= text@.len(),
                t == text@.subrange(start as int, end as int),
                frac <= i - start,
                lit_scan(t, 0, 0, 0, false, false) == lit_scan(
                    t,
                    i - start,
                    mag as int,
                    frac as nat,
                    dot,
                    has_digit,
                ),
            decreases end - i,
        {
            let c = text[i];
            proof {
                assert(t[i - start] == c);
            }
            if c == '.' {
                if dot {
                    return None;
                }
                dot = true;
            } else if '0' <= c && c <= '9' {
                if mag > (u128::MAX - 9) / 10 {
                    return None;
                }
                mag = mag * 10 + (c as u32 as u128 - 48);
                if dot {
                    frac = frac + 1;
                }
                has_digit = true;
            } else {
                return None;
            }
            i = i + 1;
        }
        if !has_digit {
            return None;
        }
        let r = normalize_parts(false, mag, frac);
        proof {
            lemma_norm_shape(mag as int, frac as nat);
        }
        r
    }

    /// The exact sum `self + other` in lowest terms, or `None` when it does
    /// not fit the representation.
    pub fn checked_add(self, other: Numeral) -> (r: Option<Numeral>)
        requires
            self.wf(),
            other.wf(),
        ensures
            ({
                let v = sum_value(self, other);
                match r {
                    Some(c) => c.wf() && (c.mantissa as int, c.scale as nat) == norm(v.0, v.1),
                    None => !fits(norm(v.0, v.1)),
                }
            }),
    {
        let (am, bm, u) = align(self, other);
        let total: i128 = am + bm;
        signed_to_numeral(total, u)
    }

    /// The exact difference `self - other` in lowest terms, or `None` when it
    /// does not fit the representation.
    pub fn checked_sub(self, other: Numeral) -> (r: Option<Numeral>)
        requires
            self.wf(),
            other.wf(),
        ensures
            ({
                let v = diff_value(self, other);
                match r {
                    Some(c) => c.wf() && (c.mantissa as int, c.scale as nat) == norm(v.0, v.1),
                    None => !fits(norm(v.0, v.1)),
                }
            }),
    {
        let (am, bm, u) = align(self, other);
        let total: i128 = am - bm;
        signed_to_numeral(total, u)
    }

    /// The exact product `self * other` in lowest terms, or `None` when it
    /// does not fit the representation.
    pub fn checked_mul(self, other: Numeral) -> (r: Option<Numeral>)
        requires
            self.wf(),
            other.wf(),
        ensures
            ({
                let v = prod_value(self, other);
                match r {
                    Some(c) => c.wf() && (c.mantissa as int, c.scale as nat) == norm(v.0, v.1),
                    None => !fits(norm(v.0, v.1)),
                }
            }),
    {
        proof {
            lemma_mul_magnitude(
                self.mantissa as int,
                if other.mantissa >= 0 { other.mantissa as int } else { -(other.mantissa as int) },
                i64::MAX as int,
                i64::MAX as int,
            );
            lemma_mul_swap_sign(self.mantissa as int, other.mantissa as int);
        }
        let total: i128 = (self.mantissa as i128) * (other.mantissa as i128);
        signed_to_numeral(total, self.scale + other.scale)
    }

    /// Exact comparison `self < other` of the two values.
    pub fn less_than(self, other: Numeral) -> (r: bool)
        requires
            self.wf(),
            other.wf(),
        ensures
            r == value_lt(self, other),
    {
        let (am, bm, _) = align(self, other);
        am < bm
    }

    /// Exact comparison `self > other` of the two values.
    pub fn greater_than(self, other: Numeral) -> (r: bool)
        requires
            self.wf(),
            other.wf(),
        ensures
            r == value_lt(other, self),
    {
        let (am, bm, _) = align(self, other);
        am > bm
    }

    /// The exact quotient `self / other` in lowest terms, or `None` when the
    /// divisor is zero or no representable numeral denotes the exact
    /// quotient.
    #[verifier::loop_isolation(false)]
    pub fn checked_div(self, other: Numeral) -> (r: Option<Numeral>)
        requires
            self.wf(),
            other.wf(),
        ensures
            r == spec_quotient(self, other),
            r matches Some(c) ==> c.wf(),
    {
        if other.mantissa == 0 {
            return None;
        }
        let neg = (self.mantissa < 0) != (other.mantissa < 0);
        let am: i64 = if self.mantissa < 0 {
            -self.mantissa
        } else {
            self.mantissa
        };
        let bm: i64 = if other.mantissa < 0 {
            -other.mantissa
        } else {
            other.mantissa
        };
        let pn = pow10_exec(other.scale);
        let pd = pow10_exec(self.scale);
        proof {
            lemma_abs_mul_pow(self.mantissa as int, pn as int);
            lemma_abs_mul_pow(other.mantissa as int, pd as int);
            lemma_mul_magnitude(am as int, pn as int, i64::MAX as int, 1_000_000_000_000_000_000);
            lemma_mul_magnitude(bm as int, pd as int, i64::MAX as int, 1_000_000_000_000_000_000);
            lemma_pos_mul_pos(bm as int, pd as int);
        }
        let n: u128 = (am as u128) * (pn as u128);
        let d: u128 = (bm as u128) * (pd as u128);
        let mut q: u128 = n / d;
        let mut r: u128 = n % d;
        let mut k: u32 = 0;
        proof {
            lemma_div_scan_shape(n as int, d as int, 0, q as int, r as int);
            lemma_fundamental_div_mod(n as int, d as int);
        }
        // long division: find the least scale at which the division is exact
        loop
            invariant
                1 <= d <= (i64::MAX as u128) * 1_000_000_000_000_000_000,
                r < d,
                k <= MAX_SCALE,
                div_scan(n as int, d as int, 0, (n / d) as int, (n % d) as int) == div_scan(
                    n as int,
                    d as int,
                    k as nat,
                    q as int,
                    r as int,
                ),
            decreases MAX_SCALE - k,
        {
            if r == 0 {
                if q <= i64::MAX as u128 {
                    let m = q as i64;
                    return Some(Numeral { mantissa: if neg { -m } else { m }, scale: k });
                }
                return None;
            }
            if q > i64::MAX as u128 {
                return None;
            }
            if k == MAX_SCALE {
                return None;
            }
            let t = (r * 10) / d;
            q = q * 10 + t;
            r = (r * 10) % d;
            k = k + 1;
        }
    }
}

proof fn lemma_mul_swap_sign(x: int, y: int)
    by (nonlinear_arith)
    ensures
        x * (-y) == -(x * y),
{
}

/// The larger of the two scales: both values are compared and combined at
/// this common scale.
pub open spec fn common_scale(a: Numeral, b: Numeral) -> nat {
    if a.scale >= b.scale {
        a.scale as nat
    } else {
        b.scale as nat
    }
}

/// The mantissa of `n` rescaled to the common scale `u`.
pub open spec fn scaled_mantissa(n: Numeral, u: nat) -> int
    recommends
        n.scale <= u,
{
    n.mantissa * pow10((u - n.scale) as nat)
}

/// The exact sum as a value `v.0 / 10^v.1` at the common scale.
pub open spec fn sum_value(a: Numeral, b: Numeral) -> (int, nat) {
    let u = common_scale(a, b);
    (scaled_mantissa(a, u) + scaled_mantissa(b, u), u)
}

/// The exact difference as a value `v.0 / 10^v.1` at the common scale.
pub open spec fn diff_value(a: Numeral, b: Numeral) -> (int, nat) {
    let u = common_scale(a, b);
    (scaled_mantissa(a, u) - scaled_mantissa(b, u), u)
}

/// The exact product as a value `v.0 / 10^v.1`.
pub open spec fn prod_value(a: Numeral, b: Numeral) -> (int, nat) {
    (a.mantissa as int * b.mantissa as int, (a.scale + b.scale) as nat)
}

/// Whether the value of `a` is strictly below the value of `b`.
pub open spec fn value_lt(a: Numeral, b: Numeral) -> bool {
    let u = common_scale(a, b);
    scaled_mantissa(a, u) < scaled_mantissa(b, u)
}

/// Whether the values of `a` and `b` are equal.
pub open spec fn same_value(a: Numeral, b: Numeral) -> bool {
    let u = common_scale(a, b);
    scaled_mantissa(a, u) == scaled_mantissa(b, u)
}

/// The numerator of the exact quotient `a / b`: both values brought to the
/// common denominator `10^(a.scale + b.scale)`.
pub open spec fn quot_num(a: Numeral, b: Numeral) -> int {
    a.mantissa * pow10(b.scale as nat)
}

/// The denominator of the exact quotient `a / b`, over the same common
/// denominator; zero exactly when the divisor is zero.
pub open spec fn quot_den(a: Numeral, b: Numeral) -> int {
    b.mantissa * pow10(a.scale as nat)
}

/// Decimal long division of `n` by `d`, continued from partial quotient `q`
/// and remainder `r` at scale `k`: the least scale at which the division
/// comes out exact with a mantissa in range, or `None` when no scale up to
/// [`MAX_SCALE`] does.
pub open spec fn div_scan(n: int, d: int, k: nat, q: int, r: int) -> Option<(int, nat)>
    recommends
        d >= 1,
    decreases MAX_SCALE - k,
{
    if r == 0 {
        if q <= i64::MAX as int {
            Some((q, k))
        } else {
            None
        }
    } else if q > i64::MAX as int {
        None
    } else if k >= MAX_SCALE {
        None
    } else {
        div_scan(n, d, (k + 1) as nat, q * 10 + (r * 10) / d, (r * 10) % d)
    }
}

/// The exact quotient `a / b` in lowest terms: `None` for a zero divisor,
/// and for a quotient that no well-formed numeral denotes.
pub open spec fn spec_quotient(a: Numeral, b: Numeral) -> Option<Numeral> {
    if b.mantissa == 0 {
        None
    } else {
        let n = abs(quot_num(a, b)) as int;
        let d = abs(quot_den(a, b)) as int;
        let neg = (a.mantissa < 0) != (b.mantissa < 0);
        match div_scan(n, d, 0, n / d, n % d) {
            Some((m, s)) => Some(
                Numeral {
                    mantissa: (if neg {
                        -m
                    } else {
                        m
                    }) as i64,
                    scale: s as u32,
                },
            ),
            None => None,
        }
    }
}

/// The two mantissas rescaled to the common scale, which is also returned.
fn align(a: Numeral, b: Numeral) -> (r: (i128, i128, u32))
    requires
        a.wf(),
        b.wf(),
    ensures
        r.2 as nat == common_scale(a, b),
        r.0 as int == scaled_mantissa(a, common_scale(a, b)),
        r.1 as int == scaled_mantissa(b, common_scale(a, b)),
        -(i64::MAX as int) * 1_000_000_000_000_000_000 <= r.0 as int <= (i64::MAX as int)
            * 1_000_000_000_000_000_000,
        -(i64::MAX as int) * 1_000_000_000_000_000_000 <= r.1 as int <= (i64::MAX as int)
            * 1_000_000_000_000_000_000,
{
    let u = if a.scale >= b.scale {
        a.scale
    } else {
        b.scale
    };
    let pa = pow10_exec(u - a.scale);
    let pb = pow10_exec(u - b.scale);
    proof {
        lemma_mul_magnitude(a.mantissa as int, pa as int, i64::MAX as int, 1_000_000_000_000_000_000);
        lemma_mul_magnitude(b.mantissa as int, pb as int, i64::MAX as int, 1_000_000_000_000_000_000);
    }
    let am: i128 = (a.mantissa as i128) * (pa as i128);
    let bm: i128 = (b.mantissa as i128) * (pb as i128);
    (am, bm, u)
}

/// Splits a signed total into sign and magnitude and normalizes it.
fn signed_to_numeral(total: i128, scale: u32) -> (r: Option<Numeral>)
    requires
        total != i128::MIN,
    ensures
        match r {
            Some(c) => c.wf() && (c.mantissa as int, c.scale as nat) == norm(
                total as int,
                scale as nat,
            ),
            None => !fits(norm(total as int, scale as nat)),
        },
{
    let neg = total < 0;
    let mag: u128 = if neg {
        (-total) as u128
    } else {
        total as u128
    };
    let r = normalize_parts(neg, mag, scale as usize);
    proof {
        if neg {
            assert(-(mag as int) == total as int);
        }
    }
    r
}

proof fn lemma_mul_sign(x: int, y: int)
    by (nonlinear_arith)
    ensures
        x > 0 && y > 0 ==> x * y > 0,
        x > 0 && y < 0 ==> x * y < 0,
        x < 0 && y > 0 ==> x * y < 0,
        x < 0 && y < 0 ==> x * y > 0,
        x == 0 ==> x * y == 0,
        y == 0 ==> x * y == 0,
        (-x) * y == -(x * y),
        x * (-y) == -(x * y),
{
}

proof fn lemma_pos_mul_pos(x: int, y: int)
    by (nonlinear_arith)
    requires
        x >= 1,
        y >= 1,
    ensures
        x * y >= 1,
        x * y >= x,
        x * y >= y,
{
}

proof fn lemma_mul_distribute(x: int, y: int, d: int)
    by (nonlinear_arith)
    ensures
        (x + y) * d == x * d + y * d,
{
}

proof fn lemma_mul_cancel(x: int, y: int, d: int)
    by (nonlinear_arith)
    requires
        d >= 1,
    ensures
        x * d == y * d ==> x == y,
        x * d <= y * d ==> x <= y,
{
}

proof fn lemma_mul_mono_left(n: int, p1: int, p2: int)
    by (nonlinear_arith)
    requires
        n >= 0,
        p1 <= p2,
    ensures
        n * p1 <= n * p2,
{
}

/// The magnitude of a product is the product of the magnitudes.
proof fn lemma_abs_mul(x: int, y: int)
    ensures
        abs(x * y) == abs(x) * abs(y),
{
    lemma_mul_sign(x, y);
    if x >= 0 && y >= 0 {
        assert(x * y >= 0) by (nonlinear_arith)
            requires
                x >= 0,
                y >= 0,
        ;
    } else if x < 0 && y >= 0 {
        assert(abs(x * y) == (-x) * y) by {
            if y != 0 {
                assert(x * y < 0);
            }
        }
    } else if x >= 0 && y < 0 {
        assert(abs(x * y) == x * (-y)) by {
            if x != 0 {
                assert(x * y < 0);
            }
        }
    } else {
        assert((-x) * (-y) == x * y) by (nonlinear_arith);
    }
}

/// The magnitude and sign of a value scaled by a positive power.
proof fn lemma_abs_mul_pow(x: int, p: int)
    requires
        p >= 1,
    ensures
        abs(x * p) == abs(x) * p,
        x * p < 0 <==> x < 0,
        x * p == 0 <==> x == 0,
        x * p > 0 <==> x > 0,
{
    lemma_mul_sign(x, p);
    lemma_abs_mul(x, p);
}

proof fn lemma_neg_mod_ten(m: int)
    requires
        m % 10 != 0,
    ensures
        (-m) % 10 != 0,
{
    if (-m) % 10 == 0 {
        lemma_fundamental_div_mod(-m, 10);
        assert(-m == 10 * ((-m) / 10));
        let y = (-m) / 10;
        assert(m == 10 * (-y));
        lemma_times_ten_mod(-y);
    }
}

pub proof fn lemma_pow10_adds(a: nat, b: nat)
    ensures
        pow10(a + b) == pow10(a) * pow10(b),
    decreases a,
{
    if a == 0 {
        assert(pow10(b) == 1 * pow10(b)) by (nonlinear_arith);
    } else {
        lemma_pow10_adds((a - 1) as nat, b);
        assert(pow10(a + b) == 10 * pow10((a - 1) as nat + b));
        lemma_mul_ten_shift(pow10((a - 1) as nat), pow10(b));
    }
}

/// The shape of what long division finds: a mantissa in range, at a scale
/// no smaller than where it stood, in lowest terms when any digit was
/// appended.
proof fn lemma_div_scan_shape(n: int, d: int, k: nat, q: int, r: int)
    requires
        d >= 1,
        0 <= r < d,
        q >= 0,
        k <= MAX_SCALE,
    ensures
        div_scan(n, d, k, q, r) matches Some(p) ==> {
            &&& 0 <= p.0 <= i64::MAX as int
            &&& k <= p.1 <= MAX_SCALE
            &&& (p.1 > k ==> 1 <= p.0 && p.0 % 10 != 0)
        },
        r != 0 ==> (div_scan(n, d, k, q, r) matches Some(p) ==> p.1 > k),
    decreases MAX_SCALE - k,
{
    if r == 0 {
    } else if q > i64::MAX as int {
    } else if k >= MAX_SCALE {
    } else {
        let t = (r * 10) / d;
        let r2 = (r * 10) % d;
        let q2 = q * 10 + t;
        lemma_fundamental_div_mod(r * 10, d);
        assert(0 <= r2 < d) by (nonlinear_arith)
            requires
                r * 10 == d * t + r2,
                r2 == (r * 10) % d,
                d >= 1,
                0 <= r,
        ;
        assert(0 <= t <= 9) by (nonlinear_arith)
            requires
                r * 10 == d * t + r2,
                0 <= r2 < d,
                1 <= d,
                0 < r < d,
        ;
        if r2 == 0 {
            assert(t >= 1) by (nonlinear_arith)
                requires
                    r * 10 == d * t,
                    r >= 1,
                    d >= 1,
                    t >= 0,
            ;
            lemma_fundamental_div_mod_converse(q2, 10, q, t);
            assert(q2 % 10 == t);
        } else {
            lemma_div_scan_shape(n, d, (k + 1) as nat, q2, r2);
        }
    }
}

/// What long division finds is exact: `n * 10^s == m * d` for the returned
/// mantissa `m` and scale `s`.
proof fn lemma_div_scan_sound(n: int, d: int, k: nat, q: int, r: int)
    requires
        d >= 1,
        0 <= r < d,
        q >= 0,
        n >= 0,
        n * pow10(k) == q * d + r,
    ensures
        div_scan(n, d, k, q, r) matches Some(p) ==> n * pow10(p.1) == p.0 * d,
    decreases MAX_SCALE - k,
{
    if r == 0 {
    } else if q > i64::MAX as int {
    } else if k >= MAX_SCALE {
    } else {
        let t = (r * 10) / d;
        let r2 = (r * 10) % d;
        let q2 = q * 10 + t;
        lemma_fundamental_div_mod(r * 10, d);
        assert(0 <= r2 < d) by (nonlinear_arith)
            requires
                r * 10 == d * t + r2,
                r2 == (r * 10) % d,
                d >= 1,
                0 <= r,
        ;
        assert(t >= 0) by (nonlinear_arith)
            requires
                r * 10 == d * t + r2,
                0 <= r2 < d,
                1 <= d,
                0 <= r,
        ;
        assert(n * pow10((k + 1) as nat) == q2 * d + r2) by {
            assert(pow10((k + 1) as nat) == 10 * pow10(k));
            lemma_mul_ten_commute(n, pow10(k));
            assert(n * pow10((k + 1) as nat) == 10 * (q * d + r));
            lemma_mul_ten_shift(q, d);
            assert(10 * (q * d) == (10 * q) * d);
            lemma_mul_distribute(10 * q, t, d);
            assert(q2 * d == (10 * q) * d + t * d) by (nonlinear_arith)
                requires
                    q2 == q * 10 + t,
                    (10 * q + t) * d == (10 * q) * d + t * d,
            ;
            assert(r * 10 == d * t + r2);
            assert(d * t == t * d) by (nonlinear_arith);
        }
        lemma_div_scan_sound(n, d, (k + 1) as nat, q2, r2);
    }
}

/// What long division finds is all there is: a well-formed exact mantissa
/// and scale are exactly what the scan returns.
proof fn lemma_div_scan_complete(n: int, d: int, k: nat, q: int, r: int, m: int, s: nat)
    requires
        d >= 1,
        0 <= r < d,
        q >= 0,
        n >= 0,
        n * pow10(k) == q * d + r,
        k <= s <= MAX_SCALE,
        0 <= m <= i64::MAX as int,
        n * pow10(s) == m * d,
        s > 0 ==> m % 10 != 0,
        m == 0 ==> s == 0,
    ensures
        div_scan(n, d, k, q, r) == Some((m, s)),
    decreases MAX_SCALE - k,
{
    lemma_pow10_pos(k);
    lemma_pow10_pos(s);
    if r == 0 {
        // the division is already exact here; the witness scale must agree
        lemma_pow10_adds(k, (s - k) as nat);
        lemma_pow10_pos((s - k) as nat);
        assert(m * d == (q * d) * pow10((s - k) as nat)) by (nonlinear_arith)
            requires
                n * pow10(k) == q * d,
                n * pow10(s) == m * d,
                pow10(s) == pow10(k) * pow10((s - k) as nat),
        ;
        assert(m == q * pow10((s - k) as nat)) by {
            assert((q * pow10((s - k) as nat)) * d == (q * d) * pow10((s - k) as nat)) by (nonlinear_arith);
            lemma_mul_cancel(m, q * pow10((s - k) as nat), d);
        }
        if s > k {
            if q == 0 {
                assert(m == 0) by (nonlinear_arith)
                    requires
                        m == q * pow10((s - k) as nat),
                        q == 0,
                ;
            } else {
                lemma_pow10_adds((s - k - 1) as nat, 1);
                assert(pow10(1) == 10) by {
                    reveal_with_fuel(pow10, 2);
                }
                assert(m == (q * pow10((s - k - 1) as nat)) * 10) by (nonlinear_arith)
                    requires
                        m == q * pow10((s - k) as nat),
                        pow10((s - k) as nat) == pow10((s - k - 1) as nat) * 10,
                ;
                lemma_times_ten_mod(q * pow10((s - k - 1) as nat));
            }
            assert(false);
        }
        assert(s == k);
        assert(pow10((s - k) as nat) == 1);
        assert(m == q) by (nonlinear_arith)
            requires
                m == q * pow10((s - k) as nat),
                pow10((s - k) as nat) == 1,
        ;
    } else {
        // not exact here, so the witness lives at a strictly larger scale
        if s == k {
            lemma_fundamental_div_mod_converse(n * pow10(k), d, q, r);
            broadcast use vstd::arithmetic::div_mod::lemma_mod_multiples_basic;
            assert((m * d) % d == 0);
            assert(false);
        }
        assert(s >= k + 1);
        // the partial quotient cannot already exceed the witness
        assert(q <= m) by {
            lemma_pow10_adds(k, (s - k) as nat);
            lemma_pow10_pos((s - k) as nat);
            assert(q * d <= n * pow10(k));
            assert(n * pow10(k) <= n * pow10(s)) by {
                lemma_pow10_mono(k, s);
                lemma_mul_mono_left(n, pow10(k), pow10(s));
            }
            lemma_mul_cancel(q, m, d);
        }
        let t = (r * 10) / d;
        let r2 = (r * 10) % d;
        let q2 = q * 10 + t;
        lemma_fundamental_div_mod(r * 10, d);
        assert(0 <= r2 < d) by (nonlinear_arith)
            requires
                r * 10 == d * t + r2,
                r2 == (r * 10) % d,
                d >= 1,
                0 <= r,
        ;
        assert(t >= 0) by (nonlinear_arith)
            requires
                r * 10 == d * t + r2,
                0 <= r2 < d,
                1 <= d,
                0 <= r,
        ;
        assert(n * pow10((k + 1) as nat) == q2 * d + r2) by {
            assert(pow10((k + 1) as nat) == 10 * pow10(k));
            lemma_mul_ten_commute(n, pow10(k));
            assert(n * pow10((k + 1) as nat) == 10 * (q * d + r));
            lemma_mul_ten_shift(q, d);
            lemma_mul_distribute(10 * q, t, d);
            assert(q2 * d == (10 * q) * d + t * d) by (nonlinear_arith)
                requires
                    q2 == q * 10 + t,
                    (10 * q + t) * d == (10 * q) * d + t * d,
            ;
            assert(d * t == t * d) by (nonlinear_arith);
        }
        lemma_div_scan_complete(n, d, (k + 1) as nat, q2, r2, m, s);
    }
}

/// Law: a folded quotient is exact — where [`spec_quotient`] yields a
/// literal, that literal is well formed and denotes precisely the quotient
/// of the two values, stated by cross-multiplication against numerator and
/// denominator over the common denominator `10^(a.scale + b.scale)`.
pub proof fn lemma_quotient_exact(a: Numeral, b: Numeral)
    requires
        a.wf(),
        b.wf(),
    ensures
        spec_quotient(a, b) matches Some(c) ==> c.wf() && (c.mantissa as int) * quot_den(a, b)
            == quot_num(a, b) * pow10(c.scale as nat),
{
    if b.mantissa != 0 && spec_quotient(a, b) is Some {
        let nn = quot_num(a, b);
        let dd = quot_den(a, b);
        let n = abs(nn) as int;
        let d = abs(dd) as int;
        lemma_pow10_pos(b.scale as nat);
        lemma_pow10_pos(a.scale as nat);
        lemma_abs_mul_pow(a.mantissa as int, pow10(b.scale as nat));
        lemma_abs_mul_pow(b.mantissa as int, pow10(a.scale as nat));
        assert(d >= 1) by {
            if b.mantissa > 0 {
                lemma_pos_mul_pos(b.mantissa as int, pow10(a.scale as nat));
            } else {
                lemma_pos_mul_pos(-(b.mantissa as int), pow10(a.scale as nat));
                lemma_mul_sign(b.mantissa as int, pow10(a.scale as nat));
            }
        }
        lemma_fundamental_div_mod(n, d);
        assert((n / d) * d == d * (n / d)) by (nonlinear_arith);
        assert(n * pow10(0) == n) by (nonlinear_arith)
            requires
                pow10(0) == 1,
        ;
        lemma_div_scan_shape(n, d, 0, n / d, n % d);
        lemma_div_scan_sound(n, d, 0, n / d, n % d);
        let p = div_scan(n, d, 0, n / d, n % d)->Some_0;
        let m = p.0;
        let s = p.1;
        assert(n * pow10(s) == m * d);
        let neg = (a.mantissa < 0) != (b.mantissa < 0);
        let c = spec_quotient(a, b)->Some_0;
        // well-formedness of the packed result
        assert(c.wf()) by {
            if s > 0 {
                lemma_neg_mod_ten(m);
            }
        }
        // sign lift: from magnitudes back to the signed values
        lemma_pow10_pos(s);
        lemma_mul_sign(m, d);
        lemma_mul_sign(m, dd);
        lemma_mul_sign(nn, pow10(s));
        if nn == 0 {
            assert(m * d == 0);
            assert(m == 0) by (nonlinear_arith)
                requires
                    m * d == 0,
                    d >= 1,
                    m >= 0,
            ;
            assert(c.mantissa as int == 0);
        } else if nn > 0 && dd > 0 {
            assert(c.mantissa as int == m && n == nn && d == dd);
        } else if nn > 0 && dd < 0 {
            assert(n == nn && d == -dd && neg);
            assert((-m) * dd == m * d) by (nonlinear_arith)
                requires
                    d == -dd,
            ;
        } else if nn < 0 && dd > 0 {
            assert(n == -nn && d == dd && neg);
            assert((-m) * dd == -(m * d));
            assert(nn * pow10(s) == -(n * pow10(s))) by (nonlinear_arith)
                requires
                    n == -nn,
            ;
        } else {
            assert(n == -nn && d == -dd && !neg);
            assert(m * dd == -(m * d)) by (nonlinear_arith)
                requires
                    d == -dd,
            ;
            assert(nn * pow10(s) == -(n * pow10(s))) by (nonlinear_arith)
                requires
                    n == -nn,
            ;
        }
    }
}

/// Law: success is owed — whenever the divisor is nonzero and some
/// well-formed numeral denotes the exact quotient, [`spec_quotient`] yields
/// exactly that numeral.
pub proof fn lemma_quotient_complete(a: Numeral, b: Numeral, c: Numeral)
    requires
        a.wf(),
        b.wf(),
        c.wf(),
        b.mantissa != 0,
        (c.mantissa as int) * quot_den(a, b) == quot_num(a, b) * pow10(c.scale as nat),
    ensures
        spec_quotient(a, b) == Some(c),
{
    let nn = quot_num(a, b);
    let dd = quot_den(a, b);
    let n = abs(nn) as int;
    let d = abs(dd) as int;
    let s = c.scale as nat;
    let mm = abs(c.mantissa as int) as int;
    lemma_pow10_pos(b.scale as nat);
    lemma_pow10_pos(a.scale as nat);
    lemma_pow10_pos(s);
    lemma_abs_mul_pow(a.mantissa as int, pow10(b.scale as nat));
    lemma_abs_mul_pow(b.mantissa as int, pow10(a.scale as nat));
    assert(d >= 1) by {
        if b.mantissa > 0 {
            lemma_pos_mul_pos(b.mantissa as int, pow10(a.scale as nat));
        } else {
            lemma_pos_mul_pos(-(b.mantissa as int), pow10(a.scale as nat));
            lemma_mul_sign(b.mantissa as int, pow10(a.scale as nat));
        }
    }
    // the witness on magnitudes
    lemma_abs_mul(c.mantissa as int, dd);
    lemma_abs_mul_pow(nn, pow10(s));
    assert(mm * d == n * pow10(s));
    if c.scale > 0 {
        if c.mantissa < 0 {
            lemma_neg_mod_ten(-(c.mantissa as int));
        }
    }
    lemma_fundamental_div_mod(n, d);
    assert((n / d) * d == d * (n / d)) by (nonlinear_arith);
    assert(n * pow10(0) == n) by (nonlinear_arith)
        requires
            pow10(0) == 1,
    ;
    lemma_div_scan_complete(n, d, 0, n / d, n % d, mm, s);
    // and back to signs: the packed result is the witness itself
    let neg = (a.mantissa < 0) != (b.mantissa < 0);
    lemma_mul_sign(c.mantissa as int, dd);
    lemma_mul_sign(nn, pow10(s));
    if c.mantissa == 0 {
        assert(nn * pow10(s) == 0);
        assert(nn == 0) by (nonlinear_arith)
            requires
                nn * pow10(s) == 0,
                pow10(s) >= 1,
        ;
    } else if c.mantissa > 0 {
        assert(!neg) by {
            if nn == 0 {
                assert((c.mantissa as int) * dd == 0);
            }
        }
    } else {
        assert(neg) by {
            if nn == 0 {
                assert((c.mantissa as int) * dd == 0);
            }
        }
    }
}

/// Whether the numeral `c` denotes exactly the value `v.0 / 10^v.1`, stated
/// by cross-multiplication.
pub open spec fn denotes(c: Numeral, v: (int, nat)) -> bool {
    c.mantissa as int * pow10(v.1) == v.0 * pow10(c.scale as nat)
}

/// Two well-formed numerals with the same value are the same structure:
/// the lowest-terms representation is unique.
pub proof fn lemma_canonical(a: Numeral, b: Numeral)
    requires
        a.wf(),
        b.wf(),
        same_value(a, b),
    ensures
        a == b,
{
    if a.scale == b.scale {
        let u = common_scale(a, b);
        assert(pow10((u - a.scale) as nat) == 1);
        assert(a.mantissa as int * 1 == a.mantissa as int) by (nonlinear_arith);
        assert(b.mantissa as int * 1 == b.mantissa as int) by (nonlinear_arith);
    } else {
        let (lo, hi) = if a.scale < b.scale {
            (a, b)
        } else {
            (b, a)
        };
        let u = common_scale(a, b);
        assert(u == hi.scale as nat);
        let d = (hi.scale - lo.scale) as nat;
        assert(scaled_mantissa(hi, u) == hi.mantissa as int) by {
            assert(pow10((u - hi.scale) as nat) == 1);
            assert(hi.mantissa as int * 1 == hi.mantissa as int) by (nonlinear_arith);
        }
        assert(hi.mantissa as int == lo.mantissa as int * pow10(d));
        assert(d >= 1);
        if lo.mantissa == 0 {
            assert(0int * pow10(d) == 0) by (nonlinear_arith);
            assert(hi.mantissa == 0);
            assert(hi.scale == 0);
            assert(false);
        } else {
            assert(hi.mantissa as int == (lo.mantissa as int * pow10((d - 1) as nat)) * 10) by {
                assert(pow10(d) == 10 * pow10((d - 1) as nat));
                lemma_mul_assoc_ten(lo.mantissa as int, pow10((d - 1) as nat));
            }
            assert((hi.mantissa as int) % 10 == 0) by {
                lemma_times_ten_mod(lo.mantissa as int * pow10((d - 1) as nat));
            }
            assert(hi.mantissa != 0) by {
                if hi.mantissa == 0 {
                    assert(hi.scale == 0);
                }
            }
            assert(false);
        }
    }
}

proof fn lemma_mul_assoc_ten(x: int, y: int)
    by (nonlinear_arith)
    ensures
        x * (10 * y) == (x * y) * 10,
{
}

proof fn lemma_times_ten_mod(x: int)
    by (nonlinear_arith)
    ensures
        (x * 10) % 10 == 0,
{
}

} // verus!
