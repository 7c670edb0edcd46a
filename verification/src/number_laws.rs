//! What a number in text is worth.

use vstd::prelude::*;
use crate::text::{after_sign, decimals_in, digit_at, first_point, integer_value, is_digit, is_infinity, is_nan, leading, lemma_leading_grows, number_at, rounded, run_end, without_zeros, written, Written};
use crate::units::{abs_int, lemma_pow10_grows, pow10};

verus! {

pub open spec fn all_digits(d: Seq<u8>) -> bool {
    forall|i: int| 0 <= i < d.len() ==> 48 <= #[trigger] d[i] <= 57
}

/// Digits stand for a number as everybody reads them: a further digit is ten times what stood before it
/// and its own value.
pub proof fn law_digits_read(d: Seq<u8>, c: u8)
    ensures
        leading(Seq::<u8>::empty(), 0) == 0,
        leading(d.push(c), d.len() + 1) == 10 * leading(d, d.len()) + (c - 48),
{
    lemma_leading_prefix(d, d.push(c), d.len());
}

proof fn lemma_leading_prefix(d: Seq<u8>, e: Seq<u8>, n: nat)
    requires
        n <= d.len() <= e.len(),
        forall|i: int| 0 <= i < d.len() ==> #[trigger] d[i] == e[i],
    ensures
        leading(d, n) == leading(e, n),
    decreases n,
{
    if n > 0 {
        lemma_leading_prefix(d, e, (n - 1) as nat);
        assert(d[n - 1] == e[n - 1]);
    }
}

/// The digits behind the first `n` add less than one unit of the last of these.
proof fn lemma_tail(d: Seq<u8>, n: nat, m: nat)
    requires
        all_digits(d),
        n <= m <= d.len(),
    ensures
        leading(d, n) * pow10((m - n) as nat) <= leading(d, m) < (leading(d, n) + 1) * pow10((m - n) as nat),
        pow10((m - n) as nat) >= 1,
    decreases m - n,
{
    lemma_pow10_grows(0, (m - n) as nat);
    if n < m {
        lemma_tail(d, n, (m - 1) as nat);
        let p = pow10((m - 1 - n) as nat);
        assert(pow10((m - n) as nat) == 10 * p);
        let (a, b) = (leading(d, n), leading(d, (m - 1) as nat));
        let c = digit_at(d, m - 1);
        assert(48 <= d[m - 1] <= 57);
        assert(a * (10 * p) <= 10 * b + c < (a + 1) * (10 * p)) by (nonlinear_arith)
            requires
                a * p <= b < (a + 1) * p,
                0 <= c <= 9,
        ;
    } else {
        assert(leading(d, n) * 1 == leading(d, n));
    }
}

/// Places that the text does not fill are zeros.
proof fn lemma_filled(d: Seq<u8>, n: nat)
    requires
        d.len() <= n,
    ensures
        leading(d, n) == leading(d, d.len()) * pow10((n - d.len()) as nat),
    decreases n,
{
    if d.len() < n {
        lemma_filled(d, (n - 1) as nat);
        let p = pow10((n - 1 - d.len()) as nat);
        assert(pow10((n - d.len()) as nat) == 10 * p);
        let a = leading(d, d.len());
        assert((a * p) * 10 == a * (10 * p)) by (nonlinear_arith);
    } else {
        assert(leading(d, n) * 1 == leading(d, n));
    }
}

/// With so many decimal places a number is what its digits stand for, moved by its point: exactly where
/// there are places enough, else to the nearest.
pub proof fn law_number_value(w: Written, places: u32)
    requires
        all_digits(w.digits),
    ensures
        ({
            let all = leading(w.digits, w.digits.len());
            let n = w.point + places;
            let k = w.digits.len() - n;
            &&& k <= 0 ==> rounded(w, places) == all * pow10((-k) as nat)
            &&& k > 0 && n >= 0 ==> 2 * abs_int(rounded(w, places) * pow10(k as nat) - all) <= pow10(k as nat)
            &&& n < 0 ==> rounded(w, places) == 0 && 10 * all < pow10(k as nat)
            &&& rounded(w, places) <= i64::MAX && !w.negative ==> number_at(w, places) == rounded(w, places)
            &&& rounded(w, places) <= i64::MAX && w.negative ==> number_at(w, places) == -rounded(w, places)
        }),
{
    let d = w.digits;
    let all = leading(d, d.len());
    let n = w.point + places;
    let k = d.len() - n;
    assert(forall|i: int| 0 <= i < d.len() ==> is_digit(#[trigger] d[i]));
    if n >= 0 {
        lemma_leading_grows(d, n as nat, n as nat);
        if k <= 0 {
            lemma_filled(d, n as nat);
        } else {
            lemma_tail(d, n as nat, d.len());
            lemma_tail(d, (n + 1) as nat, d.len());
            let (a, c) = (leading(d, n as nat), digit_at(d, n));
            let p = pow10((k - 1) as nat);
            assert(pow10(k as nat) == 10 * p);
            assert(leading(d, (n + 1) as nat) == a * 10 + c);
            assert(48 <= d[n] <= 57);
            let up = if c >= 5 { 1int } else { 0int };
            assert(2 * abs_int((a + up) * (10 * p) - all) <= 10 * p) by (nonlinear_arith)
                requires
                    (a * 10 + c) * p <= all < (a * 10 + c + 1) * p,
                    0 <= c <= 9,
                    up == if c >= 5 { 1int } else { 0int },
                    p >= 1,
            ;
        }
    } else {
        lemma_tail(d, 0, d.len());
        assert(leading(d, 0) == 0);
        assert((0 + 1) * pow10(d.len()) == pow10(d.len()));
        assert(all < pow10(d.len()));
        lemma_pow10_grows((d.len() + 1) as nat, k as nat);
        assert(pow10((d.len() + 1) as nat) == 10 * pow10(d.len()));
    }
}

/// Where a run of digits ends.
proof fn lemma_run_to(s: Seq<u8>, i: int, j: int)
    requires
        0 <= i <= j <= s.len(),
        forall|k: int| i <= k < j ==> 48 <= #[trigger] s[k] <= 57,
        j < s.len() ==> !(48 <= s[j] <= 57),
    ensures
        run_end(s, i) == j,
    decreases j - i,
{
    if i < j {
        assert(48 <= s[i] <= 57);
        lemma_run_to(s, i + 1, j);
    }
}

/// The bytes of a sign: none, a plus or a minus.
pub open spec fn sign_bytes(sign: int) -> Seq<u8> {
    if sign == 0 {
        seq![]
    } else if sign > 0 {
        seq![43u8]
    } else {
        seq![45u8]
    }
}

/// Digits with a point between them are the number with the point there, behind a minus the negative one.
pub proof fn law_plain_text(sign: int, whole: Seq<u8>, fraction: Seq<u8>)
    requires
        all_digits(whole),
        all_digits(fraction),
        whole.len() + fraction.len() > 0,
    ensures
        written(sign_bytes(sign) + whole + seq![46u8] + fraction) == Some(
            Written { negative: sign < 0, digits: whole + fraction, point: whole.len() as int },
        ),
        whole.len() > 0 ==> written(sign_bytes(sign) + whole) == Some(Written { negative: sign < 0, digits: whole, point: whole.len() as int }),
{
    let h = sign_bytes(sign);
    let s = h + whole + seq![46u8] + fraction;
    let a = h.len() as int;
    let b = a + whole.len();
    assert forall|k: int| a <= k < b implies 48 <= #[trigger] s[k] <= 57 by {
        assert(s[k] == whole[k - a]);
    }
    assert(s[b] == 46);
    assert forall|k: int| b + 1 <= k < s.len() implies 48 <= #[trigger] s[k] <= 57 by {
        assert(s[k] == fraction[k - b - 1]);
    }
    if whole.len() > 0 {
        assert(s[a] == whole[0]);
    }
    assert(after_sign(s, 0) == a);
    lemma_run_to(s, a, b);
    lemma_run_to(s, b + 1, s.len() as int);
    assert(s.subrange(a, b) + s.subrange(b + 1, s.len() as int) =~= whole + fraction);
    assert(!is_infinity(s, a) && !is_nan(s, a));
    if whole.len() > 0 {
        let t = h + whole;
        assert forall|k: int| a <= k < b implies 48 <= #[trigger] t[k] <= 57 by {
            assert(t[k] == whole[k - a]);
        }
        assert(t[a] == whole[0]);
        assert(after_sign(t, 0) == a);
        lemma_run_to(t, a, b);
        assert(t.subrange(a, b) =~= whole);
        assert(!is_infinity(t, a) && !is_nan(t, a));
    }
}

/// An exponent moves the point by its value: to the right, or to the left where it is negative.
pub proof fn law_exponent_text(sign: int, whole: Seq<u8>, capital: bool, by: int, power: Seq<u8>)
    requires
        all_digits(whole),
        all_digits(power),
        whole.len() > 0,
        power.len() > 0,
        leading(power, power.len()) <= 1_000_000,
    ensures
        written(sign_bytes(sign) + whole + seq![if capital { 69u8 } else { 101u8 }] + sign_bytes(by) + power) == Some(
            Written {
                negative: sign < 0,
                digits: whole,
                point: whole.len() + if by < 0 { -leading(power, power.len()) } else { leading(power, power.len()) },
            },
        ),
{
    let (h, g) = (sign_bytes(sign), sign_bytes(by));
    let e = if capital { 69u8 } else { 101u8 };
    let s = h + whole + seq![e] + g + power;
    let a = h.len() as int;
    let b = a + whole.len();
    let c = b + 1 + g.len();
    assert forall|k: int| a <= k < b implies 48 <= #[trigger] s[k] <= 57 by {
        assert(s[k] == whole[k - a]);
    }
    assert(s[b] == e);
    assert forall|k: int| c <= k < s.len() implies 48 <= #[trigger] s[k] <= 57 by {
        assert(s[k] == power[k - c]);
    }
    assert(s[a] == whole[0]);
    assert(after_sign(s, 0) == a);
    lemma_run_to(s, a, b);
    assert(s.subrange(a, b) =~= whole);
    assert(s[c] == power[0]);
    if by != 0 {
        assert(s[b + 1] == g[0]);
    }
    assert(after_sign(s, b + 1) == c);
    lemma_run_to(s, c, s.len() as int);
    assert(s.subrange(c, s.len() as int) =~= power);
    lemma_leading_grows(power, power.len(), power.len());
    assert(!is_infinity(s, a) && !is_nan(s, a));
}

/// The decimals of a text are what stands behind its first point without the zeros at the end.
pub proof fn law_decimals_counted(whole: Seq<u8>, fraction: Seq<u8>, zeros: Seq<u8>)
    requires
        forall|i: int| 0 <= i < whole.len() ==> #[trigger] whole[i] != 46,
        fraction.len() > 0 ==> fraction.last() != 48,
        forall|i: int| 0 <= i < zeros.len() ==> #[trigger] zeros[i] == 48,
    ensures
        decimals_in(whole + seq![46u8] + fraction + zeros) == fraction.len(),
        decimals_in(whole) == 0,
{
    let s = whole + seq![46u8] + fraction + zeros;
    let n = whole.len() as int;
    assert forall|i: int| 0 <= i < n implies #[trigger] s[i] != 46 by {
        assert(s[i] == whole[i]);
    }
    assert(s[n] == 46);
    lemma_first(s, 0, n);
    lemma_none(whole, 0);
    lemma_stripped(s, n + 1, n + 1 + fraction.len(), s.len() as int);
}

proof fn lemma_first(s: Seq<u8>, i: int, n: int)
    requires
        0 <= i <= n < s.len(),
        forall|k: int| i <= k < n ==> #[trigger] s[k] != 46,
        s[n] == 46,
    ensures
        first_point(s, i) == Some(n),
    decreases n - i,
{
    if i < n {
        assert(s[i] != 46);
        lemma_first(s, i + 1, n);
    }
}

proof fn lemma_none(s: Seq<u8>, i: int)
    requires
        0 <= i <= s.len(),
        forall|k: int| i <= k < s.len() ==> #[trigger] s[k] != 46,
    ensures
        first_point(s, i) is None,
    decreases s.len() - i,
{
    if i < s.len() {
        assert(s[i] != 46);
        lemma_none(s, i + 1);
    }
}

proof fn lemma_stripped(s: Seq<u8>, lo: int, mid: int, hi: int)
    requires
        0 <= lo <= mid <= hi <= s.len(),
        forall|k: int| mid <= k < hi ==> #[trigger] s[k] == 48,
        mid > lo ==> s[mid - 1] != 48,
    ensures
        without_zeros(s, lo, hi) == mid - lo,
    decreases hi - mid,
{
    if hi > mid {
        assert(s[hi - 1] == 48);
        lemma_stripped(s, lo, mid, hi - 1);
    }
}

/// Digits behind an optional sign are an integer, where it is in range; nothing else is one.
pub proof fn law_integer_text(sign: int, digits: Seq<u8>)
    requires
        all_digits(digits),
        digits.len() > 0,
    ensures
        ({
            let v = leading(digits, digits.len());
            let x = if sign < 0 { -v } else { v };
            &&& i64::MIN <= x <= i64::MAX ==> integer_value(sign_bytes(sign) + digits) == Some(x as i64)
            &&& !(i64::MIN <= x <= i64::MAX) ==> integer_value(sign_bytes(sign) + digits) is None
        }),
{
    let h = sign_bytes(sign);
    let s = h + digits;
    let a = h.len() as int;
    assert forall|k: int| a <= k < s.len() implies 48 <= #[trigger] s[k] <= 57 by {
        assert(s[k] == digits[k - a]);
    }
    assert(s[a] == digits[0]);
    assert(after_sign(s, 0) == a);
    lemma_run_to(s, a, s.len() as int);
    assert(s.subrange(a, s.len() as int) =~= digits);
}

} // verus!
