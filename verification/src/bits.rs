//! Recorded 64-bit floats and fixed-point decimals, on the bit patterns of the floats: one bit of
//! sign, eleven of exponent, fifty-two of fraction.

use vstd::prelude::*;
use vstd::arithmetic::power2::{lemma_pow2_adds, lemma_pow2_pos, lemma_pow2_strictly_increases, lemma_pow2_unfold, pow2};
use crate::units::{abs_int, div_round, lemma_div_round_exact, lemma_div_round_monotone, lemma_mul_bound, lemma_pow10, min_int, pow10, power_of_ten, round_div, AMOUNT_DIGITS};

verus! {

/// The exponent field.
pub open spec fn exponent_field(b: u64) -> int {
    (b as int / 0x10_0000_0000_0000) % 0x800
}

pub open spec fn fraction_field(b: u64) -> int {
    b as int % 0x10_0000_0000_0000
}

pub open spec fn sign_bit(b: u64) -> bool {
    b >= 0x8000_0000_0000_0000
}

/// The whole number that a power of two scales: a leading one stands before the fraction except in
/// the smallest numbers.
pub open spec fn significand(b: u64) -> int {
    if exponent_field(b) == 0 {
        fraction_field(b)
    } else {
        fraction_field(b) + 0x10_0000_0000_0000
    }
}

/// The power of two by which the significand is scaled.
pub open spec fn scale_of(b: u64) -> int {
    if exponent_field(b) == 0 {
        -1074
    } else {
        exponent_field(b) - 1075
    }
}

/// The magnitude with so many decimal places, rounded to the nearest, ties away from zero.
pub open spec fn magnitude(b: u64, places: u32) -> int {
    if scale_of(b) >= 0 {
        significand(b) * pow10(places as nat) * pow2(scale_of(b) as nat)
    } else {
        div_round(significand(b) * pow10(places as nat), pow2((-scale_of(b)) as nat) as int)
    }
}

/// The decimal with so many places: infinities and values out of range stand at the ends of the
/// range, what is no number is zero.
pub open spec fn fixed_value(b: u64, places: u32) -> int {
    let m = if exponent_field(b) == 0x7ff {
        if fraction_field(b) == 0 {
            i64::MAX as int
        } else {
            0
        }
    } else {
        min_int(magnitude(b, places), i64::MAX as int)
    };
    if sign_bit(b) {
        -m
    } else {
        m
    }
}

fn power_of_two(n: u32) -> (r: i128)
    requires
        n <= 110,
    ensures
        r == pow2(n as nat),
        r > 0,
{
    let mut r: i128 = 1;
    let mut i: u32 = 0;
    proof {
        vstd::arithmetic::power2::lemma2_to64();
    }
    while i < n
        invariant
            i <= n <= 110,
            r == pow2(i as nat),
            r > 0,
        decreases n - i,
    {
        proof {
            lemma_pow2_unfold((i + 1) as nat);
            lemma_bound(i as nat);
        }
        r = r * 2;
        i = i + 1;
    }
    r
}

proof fn lemma_bound(i: nat)
    requires
        i <= 110,
    ensures
        pow2(i) <= 0x4000_0000_0000_0000_0000_0000_0000,
{
    vstd::arithmetic::power2::lemma2_to64();
    lemma_pow2_adds(55, 55);
    lemma_pow2_adds(32, 23);
    if i < 110 {
        lemma_pow2_strictly_increases(i, 110);
    }
    assert(pow2(23) == 0x80_0000 && pow2(32) == 0x1_0000_0000);
    assert(pow2(55) == 0x80_0000_0000_0000);
    assert(pow2(110) == 0x80_0000_0000_0000 * 0x80_0000_0000_0000);
}

/// What a divisor more than twice as large makes of a number.
proof fn lemma_round_to_zero(a: int, d: int)
    requires
        0 <= a,
        2 * a < d,
    ensures
        div_round(a, d) == 0,
{
    assert((2 * a + d) / (2 * d) == 0) by (nonlinear_arith)
        requires
            0 <= a,
            2 * a < d,
    ;
}

/// The decimal with so many places nearest to a recorded float.
pub fn fixed_of_bits(b: u64, places: u32) -> (r: i64)
    requires
        places <= AMOUNT_DIGITS,
    ensures
        r == fixed_value(b, places),
{
    let e: u64 = (b / 0x10_0000_0000_0000) % 0x800;
    let f: u64 = b % 0x10_0000_0000_0000;
    let m: i64 = if e == 0x7ff {
        if f == 0 {
            i64::MAX
        } else {
            0
        }
    } else {
        let s: u64 = if e == 0 {
            f
        } else {
            f + 0x10_0000_0000_0000
        };
        let k: i64 = if e == 0 {
            -1074
        } else {
            e as i64 - 1075
        };
        let one: i128 = power_of_ten(places);
        proof {
            lemma_mul_bound(s as int, one as int, 0x20_0000_0000_0000, 10_000_000_000_000_000);
            assert(s * one >= s) by (nonlinear_arith)
                requires
                    s >= 0,
                    one >= 1,
            ;
        }
        let a: i128 = s as i128 * one;
        if k >= 0 {
            whole_magnitude(a, k)
        } else if k < -110 {
            proof {
                let d = pow2((-k) as nat) as int;
                lemma_pow2_strictly_increases(110, (-k) as nat);
                lemma_bound(110);
                vstd::arithmetic::power2::lemma2_to64();
                lemma_pow2_adds(55, 55);
                lemma_pow2_adds(32, 23);
                assert(pow2(110) == 0x80_0000_0000_0000 * 0x80_0000_0000_0000);
                lemma_round_to_zero(a as int, d);
            }
            0
        } else {
            let d: i128 = power_of_two((-k) as u32);
            let q: i128 = round_div(a, d);
            if q > i64::MAX as i128 {
                i64::MAX
            } else {
                proof {
                    lemma_div_round_monotone(0, a as int, d as int);
                    lemma_div_round_exact(0, d as int);
                }
                q as i64
            }
        }
    };
    if b >= 0x8000_0000_0000_0000 {
        -m
    } else {
        m
    }
}

fn whole_magnitude(a: i128, k: i64) -> (r: i64)
    requires
        a >= 0x10_0000_0000_0000,
        k >= 0,
    ensures
        r == min_int(a * pow2(k as nat), i64::MAX as int),
{
    proof {
        lemma_pow2_pos(k as nat);
        assert(a * pow2(k as nat) >= a) by (nonlinear_arith)
            requires
                a >= 0,
                pow2(k as nat) >= 1,
        ;
        vstd::arithmetic::power2::lemma2_to64();
    }
    if a > i64::MAX as i128 {
        i64::MAX
    } else if k >= 12 {
        proof {
            if k > 12 {
                lemma_pow2_strictly_increases(12, k as nat);
            }
            assert(a * pow2(k as nat) >= 0x10_0000_0000_0000 * 0x1000) by (nonlinear_arith)
                requires
                    a >= 0x10_0000_0000_0000,
                    pow2(k as nat) >= 0x1000,
            ;
        }
        i64::MAX
    } else {
        let d: i128 = power_of_two(k as u32);
        proof {
            lemma_pow2_strictly_increases(k as nat, 12);
            lemma_mul_bound(a as int, d as int, 0x7fff_ffff_ffff_ffff, 0x1000);
        }
        let v: i128 = a * d;
        if v > i64::MAX as i128 {
            i64::MAX
        } else {
            proof {
                assert(v >= 0) by (nonlinear_arith)
                    requires
                        v == a * d,
                        a >= 0,
                        d >= 0,
                ;
            }
            v as i64
        }
    }
}

// ------------------------------------------------------------------------------
// Encoding
// ------------------------------------------------------------------------------

/// The quotient to the nearest whole number, ties to the even one.
pub open spec fn half_even(a: int, b: int) -> int {
    let q = a / b;
    let r = a % b;
    if 2 * r > b || (2 * r == b && q % 2 == 1) {
        q + 1
    } else {
        q
    }
}

/// The first number of doublings, from `t` on, that makes `a` at least 2^63 times the divisor.
pub open spec fn doublings(a: int, den: int, t: nat) -> nat
    decreases 128 - t,
{
    if t >= 128 || a * pow2(t) >= 0x8000_0000_0000_0000 * den {
        t
    } else {
        doublings(a, den, t + 1)
    }
}

/// The bit pattern of the float nearest to a decimal with so many places. A significand that rounds
/// up to the next power of two carries into the exponent.
pub open spec fn bits_value(x: int, places: u32) -> int {
    if x == 0 {
        0
    } else {
        let a = abs_int(x);
        let den = pow10(places as nat);
        let t = doublings(a, den, 0);
        let m = half_even(a * pow2(t), 0x800 * den);
        (if x < 0 { 0x8000_0000_0000_0000int } else { 0 }) + (1086 - t) * 0x10_0000_0000_0000 + (m - 0x10_0000_0000_0000)
    }
}

/// There are at most 117 doublings, and the value fills the significand after them.
proof fn lemma_doublings(a: int, den: int, t: nat)
    requires
        1 <= a,
        1 <= den <= 10_000_000_000_000_000,
        t <= 117,
        a * pow2(t) < 0x1_0000_0000_0000_0000 * den,
    ensures
        t <= doublings(a, den, t) <= 117,
        0x8000_0000_0000_0000 * den <= a * pow2(doublings(a, den, t)) < 0x1_0000_0000_0000_0000 * den,
    decreases 128 - t,
{
    if a * pow2(t) < 0x8000_0000_0000_0000 * den {
        lemma_pow2_unfold(t + 1);
        assert(a * pow2(t + 1) == 2 * (a * pow2(t))) by (nonlinear_arith)
            requires
                pow2(t + 1) == 2 * pow2(t),
        ;
        if t == 117 {
            lemma_powers();
            assert(a * pow2(117) >= pow2(117)) by (nonlinear_arith)
                requires
                    a >= 1,
            ;
        } else {
            lemma_doublings(a, den, t + 1);
        }
    }
}

proof fn lemma_powers()
    ensures
        pow2(117) == 0x20_0000_0000_0000 * 0x1_0000_0000_0000_0000,
        pow2(0) == 1,
        pow2(11) == 0x800,
{
    vstd::arithmetic::power2::lemma2_to64();
    lemma_pow2_adds(64, 53);
    lemma_pow2_adds(32, 21);
}

proof fn lemma_doublings_at_least(a: int, den: int, t: nat)
    ensures
        doublings(a, den, t) >= t,
    decreases 128 - t,
{
    if t < 128 {
        lemma_doublings_at_least(a, den, t + 1);
    }
}

/// Halving to the even one moves a quotient by at most one half.
proof fn lemma_half_even(a: int, b: int)
    requires
        b > 0,
        a >= 0,
    ensures
        -b <= 2 * (half_even(a, b) * b - a) <= b,
{
    let q = a / b;
    let r = a % b;
    assert(a == q * b + r && 0 <= r < b) by (nonlinear_arith)
        requires
            b > 0,
            q == a / b,
            r == a % b,
    ;
    assert((q + 1) * b == q * b + b) by (nonlinear_arith);
}

/// A value that fills the significand has a significand of 53 bits.
proof fn lemma_significand(v: int, den: int)
    requires
        den >= 1,
        0x8000_0000_0000_0000 * den <= v < 0x1_0000_0000_0000_0000 * den,
    ensures
        0x10_0000_0000_0000 <= half_even(v, 0x800 * den) <= 0x20_0000_0000_0000,
        v / (0x800 * den) <= 0x20_0000_0000_0000,
{
    let b = 0x800 * den;
    assert(0x10_0000_0000_0000 <= v / b < 0x20_0000_0000_0000) by (nonlinear_arith)
        requires
            b == 0x800 * den,
            den >= 1,
            0x8000_0000_0000_0000 * den <= v < 0x1_0000_0000_0000_0000 * den,
    ;
}

/// The bit pattern of the float nearest to a decimal with so many places.
pub fn bits_of_fixed(x: i64, places: u32) -> (r: u64)
    requires
        places <= AMOUNT_DIGITS,
    ensures
        r == bits_value(x as int, places),
{
    if x == 0 {
        return 0;
    }
    let a: i128 = if x < 0 {
        -(x as i128)
    } else {
        x as i128
    };
    let den: i128 = power_of_ten(places);
    let mut v: i128 = a;
    let mut t: u32 = 0;
    proof {
        lemma_powers();
        assert(a * pow2(0) == a);
        lemma_doublings(a as int, den as int, 0);
    }
    while v < 0x8000_0000_0000_0000 * den
        invariant
            t <= 117,
            1 <= a <= 0x8000_0000_0000_0000,
            1 <= den <= 10_000_000_000_000_000,
            v == a * pow2(t as nat),
            0 < v < 0x1_0000_0000_0000_0000 * den,
            doublings(a as int, den as int, 0) == doublings(a as int, den as int, t as nat),
            doublings(a as int, den as int, 0) <= 117,
            0x8000_0000_0000_0000 * den <= a * pow2(doublings(a as int, den as int, 0)),
        decreases 117 - t,
    {
        proof {
            lemma_doublings_at_least(a as int, den as int, (t + 1) as nat);
            lemma_pow2_unfold((t + 1) as nat);
            assert(a * pow2((t + 1) as nat) == 2 * (a * pow2(t as nat))) by (nonlinear_arith)
                requires
                    pow2((t + 1) as nat) == 2 * pow2(t as nat),
            ;
        }
        v = v * 2;
        t = t + 1;
    }
    let b: i128 = 0x800 * den;
    let q: i128 = v / b;
    let r: i128 = v % b;
    proof {
        lemma_significand(v as int, den as int);
    }
    let m: i128 = if 2 * r > b || (2 * r == b && q % 2 == 1) {
        q + 1
    } else {
        q
    };
    proof {
        assert(doublings(a as int, den as int, t as nat) == t);
        assert(m == half_even(v as int, b as int));
    }
    let sign: i128 = if x < 0 {
        0x8000_0000_0000_0000
    } else {
        0
    };
    (sign + (1086 - t as i128) * 0x10_0000_0000_0000 + (m - 0x10_0000_0000_0000)) as u64
}

/// A decimal below 2^52 in magnitude is read back from its float.
pub const EXACT: i64 = 0x10_0000_0000_0000;

/// A quotient that is off by less than one half rounds to the number itself.
proof fn lemma_nearby(n: int, d: int, a: int)
    requires
        d > 0,
        a >= 0,
        n >= 0,
        -d < 2 * (n - a * d) < d,
    ensures
        div_round(n, d) == a,
{
    assert((2 * n + d) / (2 * d) == a) by (nonlinear_arith)
        requires
            d > 0,
            -d < 2 * (n - a * d) < d,
    ;
}

/// Below the limit half of the last significand digit is less than half of the last decimal digit.
proof fn lemma_fine(a: int, den: int, t: nat)
    requires
        1 <= a < EXACT,
        den >= 1,
        0x8000_0000_0000_0000 * den <= a * pow2(t),
    ensures
        t > 11,
        pow2(t) == 0x800 * pow2((t - 11) as nat),
        den < pow2((t - 11) as nat),
{
    lemma_powers();
    lemma_pow2_pos(t);
    assert(0x800 * den < pow2(t)) by (nonlinear_arith)
        requires
            1 <= a < 0x10_0000_0000_0000,
            0x8000_0000_0000_0000 * den <= a * pow2(t),
            den >= 1,
            pow2(t) >= 1,
    ;
    if t < 11 {
        lemma_pow2_strictly_increases(t, 11);
    }
    lemma_pow2_adds(11, (t - 11) as nat);
}

/// A decimal below the limit survives the trip through the float nearest to it.
pub proof fn law_float_round_trip(x: i64, places: u32)
    requires
        -EXACT < x < EXACT,
        places <= AMOUNT_DIGITS,
    ensures
        0 <= bits_value(x as int, places) <= u64::MAX,
        fixed_value(bits_value(x as int, places) as u64, places) == x,
{
    lemma_powers();
    let den = pow10(places as nat);
    lemma_pow10(places as nat);
    if x != 0 {
        let a = abs_int(x as int);
        assert(a * pow2(0) == a);
        lemma_doublings(a, den, 0);
        let t = doublings(a, den, 0);
        let v = a * pow2(t);
        let m = half_even(v, 0x800 * den);
        lemma_significand(v, den);
        lemma_half_even(v, 0x800 * den);
        lemma_fine(a, den, t);
        let s = (t - 11) as nat;
        let b = bits_value(x as int, places) as u64;
        let top = 0x10_0000_0000_0000int;
        let d = pow2(s) as int;
        assert(v == 0x800 * (a * d)) by (nonlinear_arith)
            requires
                v == a * pow2(t),
                pow2(t) == 0x800 * d,
        ;
        assert(m * (0x800 * den) == 0x800 * (m * den)) by (nonlinear_arith);
        assert(-d < 2 * (m * den - a * d) < d);
        assert(m * den >= 0) by (nonlinear_arith)
            requires
                m >= 0,
                den >= 1,
        ;
        if m < 2 * top {
            assert(fraction_field(b) == m - top);
            assert(exponent_field(b) == 1075 - s);
            assert(significand(b) == m);
            assert(scale_of(b) == -s);
            lemma_nearby(m * den, d, a);
        } else {
            assert(fraction_field(b) == 0);
            assert(exponent_field(b) == 1076 - s);
            assert(significand(b) == top);
            assert(scale_of(b) == 1 - s);
            lemma_pow2_unfold(s);
            let h = pow2((s - 1) as nat) as int;
            assert(d == 2 * h);
            assert(a * d == 2 * (a * h)) by (nonlinear_arith)
                requires
                    d == 2 * h,
            ;
            assert(m * den == 2 * (top * den)) by (nonlinear_arith)
                requires
                    m == 2 * top,
            ;
            if s == 1 {
                assert(den < 2);
            }
            assert(-h < 2 * (top * den - a * h) < h);
            if s - 1 == 0 {
                assert(pow2(0) == 1);
                assert(top * den == a * h);
                assert(magnitude(b, places) == a);
            } else {
                lemma_nearby(top * den, h, a);
            }
        }
        assert(sign_bit(b) == (x < 0));
        assert(magnitude(b, places) == a);
    } else {
        lemma_pow2_pos(1074);
        assert(significand(0) == 0);
        assert(0 * den == 0) by (nonlinear_arith);
        lemma_div_round_exact(0, pow2(1074) as int);
        assert(magnitude(0, places) == 0);
    }
}

} // verus!
