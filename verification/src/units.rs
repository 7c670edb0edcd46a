//! Fixed-point decimals.
//!
//! A number `x` (fee rate, basis points, weight, ratio, limit in money) is held as the integer
//! `x * 10^8`. The prices of an instrument have as many fractional digits as its description says,
//! its quantities have what is left to sixteen; for most instruments both are eight. The product of
//! a price and a quantity is therefore an amount of money with sixteen fractional digits, whatever
//! the instrument; it is held in an `i128`. Where a result leaves the range of its type it stops at
//! the end of the range.

use vstd::prelude::*;
use vstd::arithmetic::div_mod::lemma_fundamental_div_mod;
use vstd::arithmetic::div_mod::lemma_fundamental_div_mod_converse;

verus! {

/// 1.0 as a fixed-point decimal.
pub const ONE: i64 = 100_000_000;

/// 1.0 as a fixed-point decimal, in the width of products.
pub const ONE128: i128 = 100_000_000;

/// Basis points in one.
pub const BPS: i64 = 10_000;

/// `BPS * ONE`: the factor that turns a ratio into basis points.
pub const BPS_ONE: i128 = 1_000_000_000_000;

/// 2^63, which bounds the magnitude of every `i64`.
pub const TWO63: i128 = 9_223_372_036_854_775_808;

/// 2^126, which bounds the magnitude of a product of two `i64`s.
pub const TWO126: i128 = 85_070_591_730_234_615_865_843_651_857_942_052_864;

/// The value nearest to `x` in the range of `i64`.
pub open spec fn clamp64(x: int) -> int {
    if x < i64::MIN {
        i64::MIN as int
    } else if x > i64::MAX {
        i64::MAX as int
    } else {
        x
    }
}

/// The value nearest to `x` in the range of `i128`.
pub open spec fn clamp128(x: int) -> int {
    if x < i128::MIN {
        i128::MIN as int
    } else if x > i128::MAX {
        i128::MAX as int
    } else {
        x
    }
}

pub open spec fn abs_int(x: int) -> int {
    if x < 0 {
        -x
    } else {
        x
    }
}

pub open spec fn max_int(a: int, b: int) -> int {
    if a >= b {
        a
    } else {
        b
    }
}

pub open spec fn min_int(a: int, b: int) -> int {
    if a <= b {
        a
    } else {
        b
    }
}

/// `a / b` rounded to the nearest integer, halves away from zero (`b > 0`).
pub open spec fn div_round(a: int, b: int) -> int {
    if a >= 0 {
        (2 * a + b) / (2 * b)
    } else {
        -((2 * (-a) + b) / (2 * b))
    }
}

/// The least integer that is not below `a / b` (`b > 0`).
pub open spec fn div_ceil(a: int, b: int) -> int {
    -((-a) / b)
}

/// `a / b` rounded toward zero (`b > 0`).
pub open spec fn trunc_div(a: int, b: int) -> int {
    if a >= 0 {
        a / b
    } else {
        -((-a) / b)
    }
}

/// A counter one further, held at the end of its range.
pub open spec fn inc32(x: u32) -> u32 {
    if x < u32::MAX {
        (x + 1) as u32
    } else {
        x
    }
}

/// A counter one further, held at the end of its range.
pub open spec fn inc64(x: u64) -> u64 {
    if x < u64::MAX {
        (x + 1) as u64
    } else {
        x
    }
}

/// The fractional digits of an amount, a price times a quantity.
pub const AMOUNT_DIGITS: u32 = 16;

pub open spec fn pow10(n: nat) -> int
    decreases n,
{
    if n == 0 {
        1
    } else {
        10 * pow10((n - 1) as nat)
    }
}

/// The powers of ten up to the digits of an amount.
pub proof fn lemma_pow10(n: nat)
    requires
        n <= AMOUNT_DIGITS,
    ensures
        1 <= pow10(n) <= 10_000_000_000_000_000,
        pow10(8) == ONE,
{
    reveal_with_fuel(pow10, 17);
    lemma_pow10_grows(n, 16);
}

pub proof fn lemma_pow10_grows(m: nat, n: nat)
    requires
        m <= n,
    ensures
        1 <= pow10(m) <= pow10(n),
    decreases n,
{
    if m < n {
        lemma_pow10_grows(m, (n - 1) as nat);
    } else if m > 0 {
        lemma_pow10_grows((m - 1) as nat, (m - 1) as nat);
    }
}

/// A power of ten divides every larger one.
pub proof fn lemma_pow10_split(m: nat, n: nat)
    requires
        m <= n,
    ensures
        pow10(n) == pow10(m) * pow10((n - m) as nat),
    decreases n,
{
    if m < n {
        lemma_pow10_split(m, (n - 1) as nat);
        let a = pow10(m);
        let b = pow10((n - 1 - m) as nat);
        assert(10 * (a * b) == a * (10 * b)) by (nonlinear_arith);
        assert(pow10((n - m) as nat) == 10 * b);
    } else {
        assert(pow10(m) * 1 == pow10(m));
    }
}

pub fn power_of_ten(n: u32) -> (r: i128)
    requires
        n <= AMOUNT_DIGITS,
    ensures
        r == pow10(n as nat),
        1 <= r <= 10_000_000_000_000_000,
{
    let mut r: i128 = 1;
    let mut i: u32 = 0;
    while i < n
        invariant
            i <= n <= AMOUNT_DIGITS,
            r == pow10(i as nat),
            1 <= r <= 10_000_000_000_000_000,
        decreases n - i,
    {
        proof {
            lemma_pow10((i + 1) as nat);
        }
        r = r * 10;
        i = i + 1;
    }
    r
}

/// The fractional digits of prices where the description asks for `digits`.
pub open spec fn price_places(digits: u32) -> u32 {
    if digits <= AMOUNT_DIGITS {
        digits
    } else {
        AMOUNT_DIGITS
    }
}

/// The fractional digits of quantities: what the prices leave to the digits of an amount.
pub open spec fn qty_places(digits: u32) -> u32 {
    (AMOUNT_DIGITS - price_places(digits)) as u32
}

pub fn places_of_price(digits: u32) -> (r: u32)
    ensures
        r == price_places(digits),
        r <= AMOUNT_DIGITS,
{
    if digits <= AMOUNT_DIGITS {
        digits
    } else {
        AMOUNT_DIGITS
    }
}

pub fn places_of_qty(digits: u32) -> (r: u32)
    ensures
        r == qty_places(digits),
        r <= AMOUNT_DIGITS,
{
    AMOUNT_DIGITS - places_of_price(digits)
}

/// A quantity with sixteen fractional digits, whatever the instrument.
pub open spec fn wide_qty(qty: int, digits: u32) -> int {
    qty * pow10(price_places(digits) as nat)
}

/// 1e-12 with sixteen fractional digits: a position smaller than this is flat.
pub const FLAT_QTY: i128 = 10_000;

/// 1e-10 with sixteen fractional digits: order sizes are whole multiples of it.
pub const QTY_GRID: i128 = 1_000_000;

/// 1e-9 with sixteen fractional digits: what is left of an order may be as little as this.
pub const QTY_EPS: i64 = 10_000_000;

/// Widening keeps the sign and the order of quantities.
pub proof fn lemma_wide(a: int, b: int, digits: u32)
    ensures
        pow10(price_places(digits) as nat) >= 1,
        a < b <==> wide_qty(a, digits) < wide_qty(b, digits),
        wide_qty(0, digits) == 0,
        wide_qty(-a, digits) == -wide_qty(a, digits),
        digits >= 5 && a > 0 ==> wide_qty(a, digits) > FLAT_QTY,
{
    let u = pow10(price_places(digits) as nat);
    lemma_pow10(price_places(digits) as nat);
    assert(a < b <==> a * u < b * u) by (nonlinear_arith)
        requires
            u >= 1,
    ;
    assert((-a) * u == -(a * u)) by (nonlinear_arith);
    assert(0 * u == 0);
    if digits >= 5 {
        reveal_with_fuel(pow10, 6);
        lemma_pow10_grows(5, price_places(digits) as nat);
        assert(a > 0 ==> a * u > 10_000) by (nonlinear_arith)
            requires
                u >= 100_000,
        ;
    }
}

pub fn widen(qty: i128, digits: u32) -> (r: i128)
    requires
        -4 * TWO63 <= qty <= 4 * TWO63,
    ensures
        r == wide_qty(qty as int, digits),
        -4 * TWO63 * 10_000_000_000_000_000 <= r <= 4 * TWO63 * 10_000_000_000_000_000,
{
    let u: i128 = power_of_ten(places_of_price(digits));
    proof {
        lemma_mul_bound(qty as int, u as int, 4 * TWO63 as int, 10_000_000_000_000_000);
    }
    qty * u
}

/// The magnitude of a product is at most the product of the bounds.
pub proof fn lemma_mul_bound(a: int, b: int, m: int, n: int)
    requires
        -m <= a <= m,
        -n <= b <= n,
    ensures
        -(m * n) <= a * b <= m * n,
{
    assert(-(m * n) <= a * b <= m * n) by (nonlinear_arith)
        requires
            -m <= a <= m,
            -n <= b <= n,
    ;
}

/// The product of two `i64`s fits in an `i128` with room to spare.
pub proof fn lemma_mul64(a: i64, b: i64)
    ensures
        -TWO126 <= a * b <= TWO126,
{
    lemma_mul_bound(a as int, b as int, TWO63 as int, TWO63 as int);
}

/// Dividing by a positive integer does not increase the magnitude.
pub proof fn lemma_div_bound(a: int, b: int, m: int)
    requires
        b > 0,
        -m <= a <= m,
    ensures
        -m <= a / b <= m,
        -m <= div_round(a, b) <= m,
        -m <= div_ceil(a, b) <= m,
{
    lemma_floor_bound(a, b, m);
    lemma_floor_bound(-a, b, m);
    let n = abs_int(a);
    assert(0 <= (2 * n + b) / (2 * b) <= n) by (nonlinear_arith)
        requires
            b > 0,
            n >= 0,
    ;
}

proof fn lemma_floor_bound(a: int, b: int, m: int)
    requires
        b > 0,
        -m <= a <= m,
    ensures
        -m <= a / b <= m,
{
    assert(-m <= a / b <= m) by (nonlinear_arith)
        requires
            b > 0,
            -m <= a <= m,
    ;
}

/// Rounding keeps the order.
pub proof fn lemma_div_round_monotone(a: int, c: int, b: int)
    requires
        b > 0,
        a <= c,
    ensures
        div_round(a, b) <= div_round(c, b),
{
    if a >= 0 {
        assert((2 * a + b) / (2 * b) <= (2 * c + b) / (2 * b)) by (nonlinear_arith)
            requires
                b > 0,
                a <= c,
        ;
    } else if c >= 0 {
        assert((2 * (-a) + b) / (2 * b) >= 0) by (nonlinear_arith)
            requires
                b > 0,
                a < 0,
        ;
        assert((2 * c + b) / (2 * b) >= 0) by (nonlinear_arith)
            requires
                b > 0,
                c >= 0,
        ;
    } else {
        assert((2 * (-a) + b) / (2 * b) >= (2 * (-c) + b) / (2 * b)) by (nonlinear_arith)
            requires
                b > 0,
                a <= c,
        ;
    }
}

/// A multiple of the divisor is divided exactly.
pub proof fn lemma_div_round_exact(k: int, b: int)
    requires
        b > 0,
    ensures
        div_round(k * b, b) == k,
        (k * b) / b == k,
        div_ceil(k * b, b) == k,
{
    assert((k * b) / b == k) by (nonlinear_arith)
        requires
            b > 0,
    ;
    assert((-(k * b)) / b == -k) by (nonlinear_arith)
        requires
            b > 0,
    ;
    if k * b >= 0 {
        assert((2 * (k * b) + b) / (2 * b) == k) by (nonlinear_arith)
            requires
                b > 0,
        ;
    } else {
        assert((2 * (-(k * b)) + b) / (2 * b) == -k) by (nonlinear_arith)
            requires
                b > 0,
        ;
    }
}

pub fn sat64(x: i128) -> (r: i64)
    ensures
        r == clamp64(x as int),
{
    if x < -9_223_372_036_854_775_808 {
        i64::MIN
    } else if x > 9_223_372_036_854_775_807 {
        i64::MAX
    } else {
        x as i64
    }
}

/// Sum of two amounts, held at the limits of the type.
pub fn add_sat(a: i128, b: i128) -> (r: i128)
    ensures
        r == clamp128(a + b),
{
    match a.checked_add(b) {
        Some(s) => s,
        None => if b < 0 {
            i128::MIN
        } else {
            i128::MAX
        },
    }
}

/// Difference of two amounts, held at the limits of the type.
pub fn sub_sat(a: i128, b: i128) -> (r: i128)
    ensures
        r == clamp128(a - b),
{
    match a.checked_sub(b) {
        Some(s) => s,
        None => if b < 0 {
            i128::MAX
        } else {
            i128::MIN
        },
    }
}

pub fn max128(a: i128, b: i128) -> (r: i128)
    ensures
        r == max_int(a as int, b as int),
{
    if a >= b {
        a
    } else {
        b
    }
}

pub fn max64(a: i64, b: i64) -> (r: i64)
    ensures
        r == max_int(a as int, b as int),
{
    if a >= b {
        a
    } else {
        b
    }
}

pub fn min64(a: i64, b: i64) -> (r: i64)
    ensures
        r == min_int(a as int, b as int),
{
    if a <= b {
        a
    } else {
        b
    }
}

/// Exact product of two decimals (sixteen fractional digits).
pub fn mul64(a: i64, b: i64) -> (r: i128)
    ensures
        r == a * b,
        -TWO126 <= r <= TWO126,
{
    proof {
        lemma_mul64(a, b);
    }
    (a as i128) * (b as i128)
}

/// `a / b` rounded down.
pub fn floor_div(a: i128, b: i128) -> (r: i128)
    requires
        b > 0,
        a > i128::MIN,
    ensures
        r == (a as int) / (b as int),
{
    if a >= 0 {
        a / b
    } else {
        let n: i128 = -a;
        let q: i128 = n / b;
        let m: i128 = n % b;
        proof {
            lemma_fundamental_div_mod(n as int, b as int);
            if m == 0 {
                assert(a == (-q) * b) by (nonlinear_arith)
                    requires
                        n == b * q,
                        a == -n,
                ;
                lemma_fundamental_div_mod_converse(a as int, b as int, -(q as int), 0);
            } else {
                assert(a == (-q - 1) * b + (b - m)) by (nonlinear_arith)
                    requires
                        n == b * q + m,
                        a == -n,
                ;
                lemma_fundamental_div_mod_converse(a as int, b as int, -q - 1, b - m);
            }
            assert(0 <= q <= n) by (nonlinear_arith)
                requires
                    n == b * q + m,
                    0 <= m < b,
                    n >= 0,
                    b > 0,
            ;
        }
        if m == 0 {
            -q
        } else {
            -q - 1
        }
    }
}

/// `a / b` rounded up.
pub fn ceil_div(a: i128, b: i128) -> (r: i128)
    requires
        b > 0,
        a > i128::MIN,
    ensures
        r == div_ceil(a as int, b as int),
{
    proof {
        lemma_floor_bound(-(a as int), b as int, abs_int(a as int));
    }
    -floor_div(-a, b)
}

fn round_quot(n: i128, b: i128) -> (r: i128)
    requires
        b > 0,
        n >= 0,
    ensures
        r == (2 * n + b) / (2 * b),
        0 <= r <= n,
{
    let q: i128 = n / b;
    let m: i128 = n % b;
    proof {
        lemma_fundamental_div_mod(n as int, b as int);
        lemma_div_bound(n as int, b as int, n as int);
        if m >= b - m {
            assert(2 * n + b == (q + 1) * (2 * b) + (2 * m - b)) by (nonlinear_arith)
                requires
                    n == b * q + m,
            ;
            lemma_fundamental_div_mod_converse(2 * n + b, 2 * b, q + 1, 2 * m - b);
        } else {
            assert(2 * n + b == q * (2 * b) + (2 * m + b)) by (nonlinear_arith)
                requires
                    n == b * q + m,
            ;
            lemma_fundamental_div_mod_converse(2 * n + b, 2 * b, q as int, 2 * m + b);
        }
    }
    if m >= b - m {
        q + 1
    } else {
        q
    }
}

/// `a / b` rounded to the nearest integer, halves away from zero.
pub fn round_div(a: i128, b: i128) -> (r: i128)
    requires
        b > 0,
        a > i128::MIN,
    ensures
        r == div_round(a as int, b as int),
{
    if a >= 0 {
        round_quot(a, b)
    } else {
        -round_quot(-a, b)
    }
}

/// `a * k / d` rounded down, without overflow on the way.
pub fn mul_div(a: i128, k: i128, d: i128) -> (r: i64)
    requires
        a > i128::MIN,
        0 < k <= ONE128,
        0 < d <= 2 * TWO63,
    ensures
        r == clamp64((a * k) / (d as int)),
{
    let q: i128 = floor_div(a, d);
    proof {
        lemma_fundamental_div_mod(a as int, d as int);
        vstd::arithmetic::div_mod::lemma_mod_bound(a as int, d as int);
        assert(q * d <= a) by (nonlinear_arith)
            requires
                a == d * q + (a as int) % (d as int),
                0 <= (a as int) % (d as int),
        ;
        assert(q * d > a - d) by (nonlinear_arith)
            requires
                a == d * q + (a as int) % (d as int),
                (a as int) % (d as int) < d,
        ;
    }
    if q >= TWO63 {
        proof {
            lemma_mul_div_large(a as int, k as int, d as int, q as int);
        }
        i64::MAX
    } else if q < -TWO63 {
        proof {
            lemma_mul_div_large(a as int, k as int, d as int, q as int);
        }
        i64::MIN
    } else {
        proof {
            lemma_mul_bound(q as int, d as int, TWO63 as int, 2 * TWO63 as int);
        }
        let m: i128 = a - q * d;
        proof {
            lemma_mul_bound(m as int, k as int, 2 * TWO63 as int, ONE as int);
            lemma_mul_bound(q as int, k as int, TWO63 as int, ONE as int);
            let t = (m * k) / (d as int);
            lemma_fundamental_div_mod(m * k, d as int);
            vstd::arithmetic::div_mod::lemma_mod_bound(m * k, d as int);
            assert(a * k == (q * k + t) * d + (m * k) % (d as int)) by (nonlinear_arith)
                requires
                    m == a - q * d,
                    m * k == d * t + (m * k) % (d as int),
            ;
            lemma_fundamental_div_mod_converse(a * k, d as int, q * k + t, (m * k) % (d as int));
            lemma_floor_bound(m * k, d as int, 2 * TWO63 * ONE);
        }
        sat64(q * k + floor_div(m * k, d))
    }
}

proof fn lemma_mul_div_large(a: int, k: int, d: int, q: int)
    requires
        k > 0,
        d > 0,
        a - d < q * d <= a,
        q >= TWO63 || q < -TWO63,
    ensures
        q >= TWO63 ==> (a * k) / d >= TWO63,
        q < -TWO63 ==> (a * k) / d < -TWO63,
{
    if q >= TWO63 {
        assert((a * k) / d >= q) by (nonlinear_arith)
            requires
                q * d <= a,
                k >= 1,
                d > 0,
                q > 0,
        ;
    } else {
        assert((a * k) / d <= q) by (nonlinear_arith)
            requires
                a < q * d + d,
                k >= 1,
                d > 0,
                q < -1,
        ;
    }
}

/// `m * k / b` to the nearest, from the quotient `a` and the remainder `r` of `m`.
proof fn lemma_ratio(m: int, k: int, b: int, a: int, r: int)
    requires
        m >= 0,
        k >= 0,
        b > 0,
        m == a * b + r,
        0 <= r < b,
    ensures
        a >= 0,
        (2 * (m * k) + b) / (2 * b) == a * k + (2 * (r * k) + b) / (2 * b),
        a * k >= 0,
        0 <= r * k <= b * k,
        (2 * (r * k) + b) / (2 * b) >= 0,
        m * k >= 0,
{
    let c = 2 * b;
    assert(a >= 0) by (nonlinear_arith)
        requires
            m >= 0,
            m == a * b + r,
            r < b,
            b > 0,
    ;
    assert(m * k == (a * k) * b + r * k) by (nonlinear_arith)
        requires
            m == a * b + r,
    ;
    assert(0 <= r * k <= b * k) by (nonlinear_arith)
        requires
            0 <= r < b,
            k >= 0,
    ;
    assert(a * k >= 0) by (nonlinear_arith)
        requires
            a >= 0,
            k >= 0,
    ;
    assert((a * k) * b >= 0) by (nonlinear_arith)
        requires
            a * k >= 0,
            b > 0,
    ;
    let y = 2 * (r * k) + b;
    lemma_fundamental_div_mod(y, c);
    vstd::arithmetic::div_mod::lemma_mod_bound(y, c);
    let q = y / c;
    assert(q >= 0) by (nonlinear_arith)
        requires
            y >= 0,
            c > 0,
            q == y / c,
    ;
    assert((a * k) * c == 2 * ((a * k) * b)) by (nonlinear_arith)
        requires
            c == 2 * b,
    ;
    assert((a * k + q) * c == (a * k) * c + c * q) by (nonlinear_arith);
    lemma_fundamental_div_mod_converse(2 * (m * k) + b, c, a * k + q, y % c);
}

/// `a * n / b`, rounded to the nearest and held in range.
pub fn mul_ratio(a: i128, n: i128, b: i128) -> (r: i128)
    requires
        -TWO63 <= n <= TWO63,
        0 < b <= TWO63,
    ensures
        r == clamp128(div_round(a * n, b as int)),
{
    let m: u128 = if a < 0 {
        (-(a + 1)) as u128 + 1
    } else {
        a as u128
    };
    let k: u128 = if n < 0 {
        (-n) as u128
    } else {
        n as u128
    };
    let d: u128 = b as u128;
    let whole: u128 = m / d;
    let rest: u128 = m % d;
    proof {
        lemma_fundamental_div_mod(m as int, d as int);
        assert(whole * d == d * whole) by (nonlinear_arith);
        lemma_ratio(m as int, k as int, d as int, whole as int, rest as int);
        lemma_mul_bound(rest as int, k as int, TWO63 as int, TWO63 as int);
        assert(a * n == if (a < 0) != (n < 0) { -(m * k) } else { m * k }) by (nonlinear_arith)
            requires
                m == if a < 0 { -a } else { a as int },
                k == if n < 0 { -n } else { n as int },
        ;
    }
    let x: u128 = (2 * (rest * k) + d) / (2 * d);
    assert(div_round(m * k, b as int) == whole * k + x);
    assert(div_round(-(m * k), b as int) == -(whole * k + x)) by {
        if m * k == 0 {
            lemma_div_round_exact(0, b as int);
            assert(0 * b == 0);
        }
    }
    let negative: bool = (a < 0) != (n < 0);
    let far: i128 = if negative {
        i128::MIN
    } else {
        i128::MAX
    };
    match whole.checked_mul(k) {
        Some(y) => match y.checked_add(x) {
            Some(z) => if z >= 0x8000_0000_0000_0000_0000_0000_0000_0000 {
                far
            } else if negative {
                -(z as i128)
            } else {
                z as i128
            },
            None => far,
        },
        None => far,
    }
}

/// A rounded quotient is the integer nearest to the quotient: no other is nearer, and of two that are
/// equally near it is the one farther from zero.
pub proof fn law_rounds_to_nearest(a: int, b: int)
    requires
        b > 0,
    ensures
        -b <= 2 * (a - div_round(a, b) * b) <= b,
        a >= 0 ==> div_round(a, b) >= 0 && 2 * (a - div_round(a, b) * b) < b,
        a <= 0 ==> div_round(a, b) <= 0 && -b < 2 * (a - div_round(a, b) * b),
{
    let n = if a >= 0 { a } else { -a };
    let k = (2 * n + b) / (2 * b);
    assert(-b <= 2 * (n - k * b) < b && k >= 0) by (nonlinear_arith)
        requires
            b > 0,
            n >= 0,
            k == (2 * n + b) / (2 * b),
    ;
    assert((-k) * b == -(k * b)) by (nonlinear_arith);
    if a == 0 {
        lemma_div_round_exact(0, b);
        assert(0 * b == 0);
    }
}

/// A quotient rounded toward zero: what is left has the sign of the number and is less than the
/// divisor.
pub proof fn law_truncates(a: int, b: int)
    requires
        b > 0,
    ensures
        a >= 0 ==> 0 <= a - trunc_div(a, b) * b < b,
        a <= 0 ==> -b < a - trunc_div(a, b) * b <= 0,
{
    let n = if a >= 0 { a } else { -a };
    let k = n / b;
    assert(0 <= n - k * b < b) by (nonlinear_arith)
        requires
            b > 0,
            n >= 0,
            k == n / b,
    ;
    assert((-k) * b == -(k * b)) by (nonlinear_arith);
}

/// A value held in range is itself where it is in range, and the nearer end of the range elsewhere.
pub proof fn law_held_in_range(x: int)
    ensures
        i64::MIN <= clamp64(x) <= i64::MAX,
        i64::MIN <= x <= i64::MAX ==> clamp64(x) == x,
        x > i64::MAX ==> clamp64(x) == i64::MAX,
        x < i64::MIN ==> clamp64(x) == i64::MIN,
        i128::MIN <= clamp128(x) <= i128::MAX,
        i128::MIN <= x <= i128::MAX ==> clamp128(x) == x,
        x > i128::MAX ==> clamp128(x) == i128::MAX,
        x < i128::MIN ==> clamp128(x) == i128::MIN,
{
}

/// A quantity at sixteen digits is the quantity at its own digits: the two differ by the power of ten
/// between them, and so do prices.
pub proof fn law_digits_share_sixteen(qty: int, digits: u32)
    ensures
        price_places(digits) + qty_places(digits) == AMOUNT_DIGITS,
        digits <= AMOUNT_DIGITS ==> price_places(digits) == digits,
        wide_qty(qty, digits) * pow10(qty_places(digits) as nat) == qty * pow10(AMOUNT_DIGITS as nat),
{
    lemma_pow10_split(price_places(digits) as nat, AMOUNT_DIGITS as nat);
    let (p, q) = (pow10(price_places(digits) as nat), pow10(qty_places(digits) as nat));
    assert((qty * p) * q == qty * (p * q)) by (nonlinear_arith);
}

/// A ratio of no more than one leaves an amount within itself.
pub proof fn lemma_ratio_within(a: int, n: int, b: int)
    requires
        0 <= n <= b,
        b > 0,
    ensures
        a >= 0 ==> 0 <= div_round(a * n, b) <= a,
        a <= 0 ==> a <= div_round(a * n, b) <= 0,
{
    let m = if a >= 0 { a } else { -a };
    assert(0 <= m * n <= m * b) by (nonlinear_arith)
        requires
            m >= 0,
            0 <= n <= b,
    ;
    lemma_div_round_monotone(0, m * n, b);
    lemma_div_round_monotone(m * n, m * b, b);
    lemma_div_round_exact(m, b);
    lemma_div_round_exact(0, b);
    assert(0 * b == 0);
    if a < 0 {
        assert(a * n == -(m * n)) by (nonlinear_arith)
            requires
                m == -a,
        ;
    }
}

/// `a / b` rounded toward zero.
pub fn quot(a: i64, b: i64) -> (r: i64)
    requires
        b > 0,
    ensures
        r == trunc_div(a as int, b as int),
{
    if a >= 0 {
        a / b
    } else {
        let n: i128 = -(a as i128);
        proof {
            lemma_floor_bound(n as int, b as int, n as int);
        }
        (-(n / (b as i128))) as i64
    }
}

/// The non-negative remainder of `a` divided by `n`.
pub fn modulo(a: i64, n: i64) -> (r: i64)
    requires
        n > 0,
    ensures
        r == (a as int) % (n as int),
        0 <= r < n,
{
    proof {
        vstd::arithmetic::div_mod::lemma_mod_bound(a as int, n as int);
    }
    match a.checked_rem_euclid(n) {
        Some(r) => r,
        None => 0,
    }
}

pub fn next32(x: u32) -> (r: u32)
    ensures
        r == inc32(x),
{
    if x < u32::MAX {
        x + 1
    } else {
        x
    }
}

pub fn next64(x: u64) -> (r: u64)
    ensures
        r == inc64(x),
{
    if x < u64::MAX {
        x + 1
    } else {
        x
    }
}

/// The integer square root: the greatest `r` with `r * r <= x`.
pub open spec fn is_isqrt(r: int, x: int) -> bool {
    &&& r >= 0
    &&& r * r <= x < (r + 1) * (r + 1)
}

/// Two numbers that are both the integer square root of `x` are equal.
pub proof fn lemma_isqrt_unique(r: int, s: int, x: int)
    requires
        is_isqrt(r, x),
        is_isqrt(s, x),
    ensures
        r == s,
{
    if r < s {
        assert((r + 1) * (r + 1) <= s * s) by (nonlinear_arith)
            requires
                0 <= r,
                r + 1 <= s,
        ;
    }
    if s < r {
        assert((s + 1) * (s + 1) <= r * r) by (nonlinear_arith)
            requires
                0 <= s,
                s + 1 <= r,
        ;
    }
}

/// The square root of `x`, rounded down.
pub open spec fn sqrt_floor(x: int) -> int {
    choose|r: int| is_isqrt(r, x)
}

/// The root of a larger number is not smaller.
pub proof fn lemma_isqrt_monotone(r: int, s: int, x: int, y: int)
    requires
        is_isqrt(r, x),
        is_isqrt(s, y),
        x <= y,
    ensures
        r <= s,
{
    if s < r {
        assert((s + 1) * (s + 1) <= r * r) by (nonlinear_arith)
            requires
                0 <= s,
                s + 1 <= r,
        ;
    }
}

/// Every number that is not negative has a square root, rounded down.
pub proof fn lemma_sqrt_floor(x: int)
    requires
        x >= 0,
    ensures
        is_isqrt(sqrt_floor(x), x),
    decreases x,
{
    if x == 0 {
        assert(is_isqrt(0, 0));
    } else {
        lemma_sqrt_floor(x - 1);
        let r = sqrt_floor(x - 1);
        if x < (r + 1) * (r + 1) {
            assert(is_isqrt(r, x));
        } else {
            assert((r + 1) * (r + 1) < (r + 2) * (r + 2)) by (nonlinear_arith)
                requires
                    r >= 0,
            ;
            assert((r + 1 + 1) * (r + 1 + 1) == (r + 2) * (r + 2));
            assert(is_isqrt(r + 1, x));
        }
    }
}

pub fn isqrt(x: i128) -> (r: i128)
    requires
        0 <= x <= TWO126,
    ensures
        is_isqrt(r as int, x as int),
        r == sqrt_floor(x as int),
        r <= TWO63,
{
    let mut lo: i128 = 0;
    let mut hi: i128 = TWO63 + 1;
    proof {
        assert(TWO63 * TWO63 == TWO126);
        assert((TWO63 + 1) * (TWO63 + 1) > TWO126);
    }
    while hi - lo > 1
        invariant
            0 <= lo < hi <= TWO63 + 1,
            0 <= x <= TWO126,
            lo * lo <= x < hi * hi,
        decreases hi - lo,
    {
        let mid: i128 = lo + (hi - lo) / 2;
        proof {
            lemma_mul_bound(mid as int, mid as int, TWO63 as int, TWO63 as int);
        }
        if mid * mid <= x {
            lo = mid;
        } else {
            hi = mid;
        }
    }
    proof {
        assert(is_isqrt(lo as int, x as int));
        lemma_isqrt_unique(lo as int, sqrt_floor(x as int), x as int);
    }
    lo
}

} // verus!
