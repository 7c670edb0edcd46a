//! Numbers and names in text, read byte by byte.

use vstd::prelude::*;
use vstd::utf8::encode_utf8;
use crate::units::{min_int, pow10};

verus! {

pub open spec fn is_digit(c: u8) -> bool {
    48 <= c <= 57
}

fn digit(c: u8) -> (r: bool)
    ensures
        r == is_digit(c),
{
    48 <= c && c <= 57
}

/// Where the run of digits that starts at `i` ends.
pub open spec fn run_end(s: Seq<u8>, i: int) -> int
    decreases s.len() - i,
{
    if 0 <= i < s.len() && is_digit(s[i]) {
        run_end(s, i + 1)
    } else {
        i
    }
}

pub(crate) proof fn lemma_run_end(s: Seq<u8>, i: int)
    requires
        0 <= i <= s.len(),
    ensures
        i <= run_end(s, i) <= s.len(),
        forall|k: int| i <= k < run_end(s, i) ==> is_digit(#[trigger] s[k]),
        run_end(s, i) < s.len() ==> !is_digit(s[run_end(s, i)]),
    decreases s.len() - i,
{
    if i < s.len() && is_digit(s[i]) {
        lemma_run_end(s, i + 1);
    }
}

fn find_run_end(s: &[u8], i: usize) -> (r: usize)
    requires
        i <= s@.len(),
    ensures
        r == run_end(s@, i as int),
        i <= r <= s@.len(),
{
    let mut k: usize = i;
    while k < s.len() && digit(s[k])
        invariant
            i <= k <= s@.len(),
            run_end(s@, i as int) == run_end(s@, k as int),
        decreases s@.len() - k,
    {
        k = k + 1;
    }
    k
}

/// The number that the first `n` digits form; beyond the last digit stand zeros.
pub open spec fn leading(d: Seq<u8>, n: nat) -> int
    decreases n,
{
    if n == 0 {
        0
    } else {
        leading(d, (n - 1) as nat) * 10 + digit_at(d, n - 1)
    }
}

pub open spec fn digit_at(d: Seq<u8>, i: int) -> int {
    if 0 <= i < d.len() {
        d[i] - 48
    } else {
        0
    }
}

/// A number in decimal notation, as it is written: sign, digits, and after how many of the digits
/// the decimal point stands.
pub struct Written {
    pub negative: bool,
    pub digits: Seq<u8>,
    pub point: int,
}

pub open spec fn is_sign(c: u8) -> bool {
    c == 43 || c == 45
}

/// Where the digits start, behind an optional sign.
pub open spec fn after_sign(s: Seq<u8>, i: int) -> int {
    if 0 <= i < s.len() && is_sign(s[i]) {
        i + 1
    } else {
        i
    }
}

/// More places than any text has digits.
pub const MAX_POINT: i128 = 0x2_0000_0000_0000_0000;

pub open spec fn capped(e: int) -> int {
    if e > MAX_POINT {
        MAX_POINT as int
    } else if e < -MAX_POINT {
        -MAX_POINT
    } else {
        e
    }
}

/// The exponent that stands behind the `e` at `i`, if that is an optional sign and digits up to the
/// end. One that moves the point beyond every text counts like the limit.
pub open spec fn exponent(s: Seq<u8>, i: int) -> Option<int> {
    let j = after_sign(s, i + 1);
    let k = run_end(s, j);
    if k == s.len() && j < k {
        let v = leading(s.subrange(j, k), (k - j) as nat);
        Some(
            capped(
                if s[i + 1] == 45 {
                    -v
                } else {
                    v
                },
            ),
        )
    } else {
        None
    }
}

/// The text as a decimal number: optional sign, digits with an optional point, optional exponent.
pub open spec fn written_in_digits(s: Seq<u8>) -> Option<Written> {
    let a = after_sign(s, 0);
    let b = run_end(s, a);
    let dot = b < s.len() && s[b] == 46;
    let c = if dot { run_end(s, b + 1) } else { b };
    let digits = if dot { s.subrange(a, b) + s.subrange(b + 1, c) } else { s.subrange(a, b) };
    let negative = s.len() > 0 && s[0] == 45;
    if digits.len() == 0 {
        None
    } else if c == s.len() {
        Some(Written { negative, digits, point: b - a })
    } else if s[c] == 101 || s[c] == 69 {
        match exponent(s, c) {
            Some(e) => Some(Written { negative, digits, point: b - a + e }),
            None => None,
        }
    } else {
        None
    }
}

/// The small letter `c` stands at `i`, or its capital.
pub open spec fn letter_at(s: Seq<u8>, i: int, c: u8) -> bool {
    0 <= i < s.len() && (s[i] == c || s[i] + 32 == c)
}

/// From `i` on the text is `inf` or `infinity`.
pub open spec fn is_infinity(s: Seq<u8>, i: int) -> bool {
    &&& letter_at(s, i, 105) && letter_at(s, i + 1, 110) && letter_at(s, i + 2, 102)
    &&& s.len() == i + 3 || (s.len() == i + 8 && letter_at(s, i + 3, 105) && letter_at(s, i + 4, 110) && letter_at(s, i + 5, 105) && letter_at(
        s,
        i + 6,
        116,
    ) && letter_at(s, i + 7, 121))
}

/// From `i` on the text is `nan`.
pub open spec fn is_nan(s: Seq<u8>, i: int) -> bool {
    s.len() == i + 3 && letter_at(s, i, 110) && letter_at(s, i + 1, 97) && letter_at(s, i + 2, 110)
}

/// The text as a number: in digits, or one of the words for infinity and for no number at all. Infinity
/// stands as a number beyond every range, and what is no number as zero.
pub open spec fn written(s: Seq<u8>) -> Option<Written> {
    let a = after_sign(s, 0);
    if is_infinity(s, a) {
        Some(Written { negative: s[0] == 45, digits: seq![49u8], point: MAX_POINT as int })
    } else if is_nan(s, a) {
        Some(Written { negative: false, digits: seq![48u8], point: 1 })
    } else {
        written_in_digits(s)
    }
}

/// The digits up to the decimal place asked for, rounded by the next one.
pub open spec fn rounded(w: Written, places: u32) -> int {
    let n = w.point + places;
    if n < 0 {
        0
    } else {
        leading(w.digits, n as nat) + if digit_at(w.digits, n) >= 5 {
            1int
        } else {
            0int
        }
    }
}

/// The number with so many decimal places, the largest one where it is out of range.
pub open spec fn number_at(w: Written, places: u32) -> i64 {
    if w.negative {
        (-min_int(rounded(w, places), i64::MAX as int)) as i64
    } else {
        min_int(rounded(w, places), i64::MAX as int) as i64
    }
}

/// The decimal with so many places that the text stands for; none if the text is no number.
pub open spec fn decimal_at(s: Seq<u8>, places: u32) -> Option<i64> {
    match written(s) {
        Some(w) => Some(number_at(w, places)),
        None => None,
    }
}

/// The decimal with eight places that the text stands for; none if the text is no number.
pub open spec fn decimal_value(s: Seq<u8>) -> Option<i64> {
    decimal_at(s, 8)
}

/// The number is above zero: it has no minus sign, and a digit that is not zero.
pub open spec fn is_positive(w: Written) -> bool {
    !w.negative && exists|i: int| 0 <= i < w.digits.len() && #[trigger] w.digits[i] != 48
}

/// The number has no digit beyond so many decimal places.
pub open spec fn ends_within(w: Written, places: int) -> bool {
    forall|i: int| 0 <= i < w.digits.len() && w.point + places <= i ==> #[trigger] w.digits[i] == 48
}

/// Infinity lies beyond every range, with however many places.
pub proof fn law_infinity_is_out_of_range(s: Seq<u8>, places: u32)
    requires
        is_infinity(s, after_sign(s, 0)),
    ensures
        decimal_at(s, places) == Some(
            if s[0] == 45 {
                (-i64::MAX) as i64
            } else {
                i64::MAX
            },
        ),
{
    let d = seq![49u8];
    lemma_one_grows(d, 19);
    lemma_leading_grows(d, 20, (MAX_POINT + places) as nat);
    reveal_with_fuel(pow10, 20);
    let w = Written { negative: s[0] == 45, digits: d, point: MAX_POINT as int };
    assert(written(s) == Some(w));
    assert(rounded(w, places) >= i64::MAX);
}

/// A one before so many zeros.
proof fn lemma_one_grows(d: Seq<u8>, n: nat)
    requires
        d == seq![49u8],
    ensures
        leading(d, n + 1) == pow10(n),
    decreases n,
{
    if n > 0 {
        lemma_one_grows(d, (n - 1) as nat);
    } else {
        assert(leading(d, 0) == 0);
    }
}

/// The digits of a number are digits.
pub(crate) proof fn lemma_written_digits(s: Seq<u8>)
    ensures
        written(s) matches Some(w) ==> forall|k: int| 0 <= k < w.digits.len() ==> is_digit(#[trigger] w.digits[k]),
{
    let a = after_sign(s, 0);
    let b = run_end(s, a);
    lemma_run_end(s, a);
    if b < s.len() && s[b] == 46 {
        let c = run_end(s, b + 1);
        lemma_run_end(s, b + 1);
        let d = s.subrange(a, b) + s.subrange(b + 1, c);
        assert forall|k: int| 0 <= k < d.len() implies is_digit(#[trigger] d[k]) by {
            if k < b - a {
                assert(d[k] == s[a + k]);
            } else {
                assert(d[k] == s[b + 1 + (k - (b - a))]);
            }
        }
    } else {
        let d = s.subrange(a, b);
        assert forall|k: int| 0 <= k < d.len() implies is_digit(#[trigger] d[k]) by {
            assert(d[k] == s[a + k]);
        }
    }
}

/// More digits never make the number smaller.
pub(crate) proof fn lemma_leading_grows(d: Seq<u8>, m: nat, n: nat)
    requires
        m <= n,
        forall|k: int| 0 <= k < d.len() ==> is_digit(#[trigger] d[k]),
    ensures
        0 <= leading(d, m) <= leading(d, n),
    decreases n,
{
    if m < n {
        lemma_leading_grows(d, m, (n - 1) as nat);
    } else if m > 0 {
        lemma_leading_grows(d, (m - 1) as nat, (m - 1) as nat);
    }
}

/// A number in decimal notation, taken apart.
pub struct Number {
    pub negative: bool,
    pub digits: Vec<u8>,
    pub point: i128,
}

impl View for Number {
    type V = Written;

    open spec fn view(&self) -> Written {
        Written { negative: self.negative, digits: self.digits@, point: self.point as int }
    }
}

impl Number {
    pub open spec fn wf(&self) -> bool {
        &&& forall|k: int| 0 <= k < self.digits@.len() ==> is_digit(#[trigger] self.digits@[k])
        &&& -MAX_POINT <= self.point <= 2 * MAX_POINT
    }

    /// The number with so many decimal places.
    pub fn at(&self, places: u32) -> (r: i64)
        requires
            self.wf(),
        ensures
            r == number_at(self@, places),
    {
        let x: i64 = round_digits(&self.digits, self.point, places);
        proof {
            assert(rounded(self@, places) == rounded(Written { negative: false, digits: self.digits@, point: self.point as int }, places));
        }
        if self.negative {
            -x
        } else {
            x
        }
    }

    pub fn positive(&self) -> (r: bool)
        ensures
            r == is_positive(self@),
    {
        if self.negative {
            return false;
        }
        let mut i: usize = 0;
        while i < self.digits.len()
            invariant
                i <= self.digits@.len(),
                forall|k: int| 0 <= k < i ==> #[trigger] self.digits@[k] == 48,
            decreases self.digits@.len() - i,
        {
            if self.digits[i] != 48 {
                assert(self@.digits[i as int] != 48);
                return !self.negative;
            }
            i = i + 1;
        }
        false
    }

    /// Whether the number has no digit beyond so many decimal places.
    pub fn fits_in(&self, places: u32) -> (r: bool)
        requires
            self.wf(),
        ensures
            r == ends_within(self@, places as int),
    {
        let end: i128 = self.point + places as i128;
        let mut i: usize = 0;
        while i < self.digits.len()
            invariant
                i <= self.digits@.len(),
                end == self.point + places,
                forall|k: int| 0 <= k < i && end <= k ==> #[trigger] self.digits@[k] == 48,
            decreases self.digits@.len() - i,
        {
            if i as i128 >= end && self.digits[i] != 48 {
                assert(self@.digits[i as int] != 48);
                return false;
            }
            i = i + 1;
        }
        true
    }
}

fn round_digits(d: &Vec<u8>, point: i128, places: u32) -> (r: i64)
    requires
        forall|k: int| 0 <= k < d@.len() ==> is_digit(#[trigger] d@[k]),
        -MAX_POINT <= point <= 2 * MAX_POINT,
    ensures
        0 <= r,
        r == min_int(rounded(Written { negative: false, digits: d@, point: point as int }, places), i64::MAX as int),
{
    let n: i128 = point + places as i128;
    if n < 0 {
        return 0;
    }
    let mut acc: i128 = 0;
    let mut i: i128 = 0;
    while i < n
        invariant
            0 <= i <= n,
            n == point + places,
            n <= 2 * MAX_POINT + u32::MAX,
            forall|k: int| 0 <= k < d@.len() ==> is_digit(#[trigger] d@[k]),
            acc == leading(d@, i as nat),
            0 <= acc <= i64::MAX,
        decreases n - i,
    {
        let x: i128 = if i < d.len() as i128 {
            (d[i as usize] - 48) as i128
        } else {
            if acc == 0 {
                proof {
                    lemma_zeros(d@, i as nat, n as nat);
                }
                return 0;
            }
            0
        };
        acc = acc * 10 + x;
        i = i + 1;
        if acc > i64::MAX as i128 {
            proof {
                lemma_leading_grows(d@, i as nat, n as nat);
            }
            return i64::MAX;
        }
    }
    let up: bool = n < d.len() as i128 && d[n as usize] - 48 >= 5;
    if up {
        acc = acc + 1;
    }
    if acc <= i64::MAX as i128 {
        acc as i64
    } else {
        i64::MAX
    }
}

/// Past the digits a zero stays a zero.
proof fn lemma_zeros(d: Seq<u8>, m: nat, n: nat)
    requires
        d.len() <= m <= n,
        leading(d, m) == 0,
    ensures
        leading(d, n) == 0,
    decreases n,
{
    if m < n {
        lemma_zeros(d, m, (n - 1) as nat);
    }
}

fn collect(s: &[u8], from: usize, to: usize, out: &mut Vec<u8>)
    requires
        from <= to <= s@.len(),
    ensures
        final(out)@ == old(out)@ + s@.subrange(from as int, to as int),
{
    let mut i: usize = from;
    assert(out@ =~= old(out)@ + s@.subrange(from as int, from as int));
    while i < to
        invariant
            from <= i <= to <= s@.len(),
            out@ == old(out)@ + s@.subrange(from as int, i as int),
        decreases to - i,
    {
        out.push(s[i]);
        i = i + 1;
        assert(out@ =~= old(out)@ + s@.subrange(from as int, i as int));
    }
}

fn find_after_sign(s: &[u8], i: usize) -> (r: usize)
    requires
        i <= s@.len(),
    ensures
        r == after_sign(s@, i as int),
        i <= r <= s@.len(),
{
    if i < s.len() && (s[i] == 43 || s[i] == 45) {
        i + 1
    } else {
        i
    }
}

fn read_exponent(s: &[u8], i: usize) -> (r: Option<i128>)
    requires
        i < s@.len(),
    ensures
        match r {
            Some(e) => exponent(s@, i as int) == Some(e as int) && -MAX_POINT <= e <= MAX_POINT,
            None => exponent(s@, i as int) is None,
        },
{
    let n: usize = s.len();
    let j: usize = find_after_sign(s, i + 1);
    let k: usize = find_run_end(s, j);
    if k != n || k <= j {
        return None;
    }
    proof {
        lemma_run_end(s@, j as int);
    }
    let ghost d = s@.subrange(j as int, k as int);
    let mut v: i128 = 0;
    let mut x: usize = j;
    while x < k
        invariant
            j <= x <= k <= s@.len(),
            d == s@.subrange(j as int, k as int),
            forall|m: int| j <= m < k ==> is_digit(#[trigger] s@[m]),
            0 <= leading(d, (x - j) as nat),
            v == min_int(leading(d, (x - j) as nat), MAX_POINT as int),
        decreases k - x,
    {
        assert(d[x - j] == s@[x as int]);
        v = v * 10 + (s[x] - 48) as i128;
        if v > MAX_POINT {
            v = MAX_POINT;
        }
        x = x + 1;
    }
    if s[i + 1] == 45 {
        Some(-v)
    } else {
        Some(v)
    }
}

fn has_letter(s: &[u8], i: usize, c: u8) -> (r: bool)
    requires
        c >= 32,
    ensures
        r == letter_at(s@, i as int, c),
{
    i < s.len() && (s[i] == c || s[i] == c - 32)
}

/// A number in text, taken apart.
pub fn read_number(text: &str) -> (r: Option<Number>)
    ensures
        match r {
            Some(n) => n.wf() && written(encode_utf8(text@)) == Some(n@),
            None => written(encode_utf8(text@)) is None,
        },
{
    let s: &[u8] = text.as_bytes();
    let a: usize = find_after_sign(s, 0);
    if s.len() - a == 3 && has_letter(s, a, 110) && has_letter(s, a + 1, 97) && has_letter(s, a + 2, 110) {
        let mut digits: Vec<u8> = Vec::new();
        digits.push(48);
        assert(digits@ =~= seq![48u8]);
        return Some(Number { negative: false, digits, point: 1 });
    }
    if s.len() - a >= 3 && has_letter(s, a, 105) && has_letter(s, a + 1, 110) && has_letter(s, a + 2, 102) {
        if s.len() - a == 3 || (s.len() - a == 8 && has_letter(s, a + 3, 105) && has_letter(s, a + 4, 110) && has_letter(s, a + 5, 105)
            && has_letter(s, a + 6, 116) && has_letter(s, a + 7, 121)) {
            let mut digits: Vec<u8> = Vec::new();
            digits.push(49);
            assert(digits@ =~= seq![49u8]);
            return Some(Number { negative: s[0] == 45, digits, point: MAX_POINT });
        }
    }
    read_in_digits(s)
}

fn read_in_digits(s: &[u8]) -> (r: Option<Number>)
    ensures
        match r {
            Some(n) => n.wf() && written_in_digits(s@) == Some(n@),
            None => written_in_digits(s@) is None,
        },
{
    let a: usize = find_after_sign(s, 0);
    let b: usize = find_run_end(s, a);
    let mut digits: Vec<u8> = Vec::new();
    collect(s, a, b, &mut digits);
    proof {
        lemma_run_end(s@, a as int);
        assert(digits@ =~= s@.subrange(a as int, b as int));
    }
    let mut c: usize = b;
    if b < s.len() && s[b] == 46 {
        c = find_run_end(s, b + 1);
        proof {
            lemma_run_end(s@, b + 1);
        }
        collect(s, b + 1, c, &mut digits);
    }
    proof {
        assert forall|k: int| 0 <= k < digits@.len() implies is_digit(#[trigger] digits@[k]) by {
            if k < b - a {
                assert(digits@[k] == s@[a + k]);
            } else {
                assert(digits@[k] == s@[b + 1 + (k - (b - a))]);
            }
        }
    }
    if digits.len() == 0 {
        return None;
    }
    let mut point: i128 = (b - a) as i128;
    if c < s.len() {
        if s[c] == 101 || s[c] == 69 {
            match read_exponent(s, c) {
                Some(e) => {
                    point = point + e;
                },
                None => {
                    return None;
                },
            }
        } else {
            return None;
        }
    }
    let negative: bool = s.len() > 0 && s[0] == 45;
    let n = Number { negative, digits, point };
    assert(written_in_digits(s@) matches Some(w) && w.digits =~= n@.digits);
    Some(n)
}

/// A number in text as a decimal with so many places, rounded to the last one.
pub fn parse_decimal_at(text: &str, places: u32) -> (r: Option<i64>)
    ensures
        r == decimal_at(encode_utf8(text@), places),
{
    match read_number(text) {
        Some(n) => Some(n.at(places)),
        None => None,
    }
}

/// A number in text as a decimal with eight places.
pub fn parse_decimal(text: &str) -> (r: Option<i64>)
    ensures
        r == decimal_value(encode_utf8(text@)),
{
    parse_decimal_at(text, 8)
}

/// The number with so many places, or zero where the text is none.
pub fn decimal_or_zero_at(text: &str, places: u32) -> (r: i64)
    ensures
        r == match decimal_at(encode_utf8(text@), places) {
            Some(x) => x,
            None => 0,
        },
{
    match parse_decimal_at(text, places) {
        Some(x) => x,
        None => 0,
    }
}

/// The number, or zero where the text is none.
pub fn decimal_or_zero(text: &str) -> (r: i64)
    ensures
        r == match decimal_value(encode_utf8(text@)) {
            Some(x) => x,
            None => 0,
        },
{
    decimal_or_zero_at(text, 8)
}

/// The integer that the text stands for: optional sign and digits, in the range of the type.
pub open spec fn integer_value(s: Seq<u8>) -> Option<i64> {
    let a = after_sign(s, 0);
    let v = leading(s.subrange(a, s.len() as int), (s.len() - a) as nat);
    let x = if s.len() > 0 && s[0] == 45 { -v } else { v };
    if a < s.len() && run_end(s, a) == s.len() && i64::MIN <= x <= i64::MAX {
        Some(x as i64)
    } else {
        None
    }
}

/// An integer in bytes of text.
pub fn parse_integer_bytes(s: &[u8]) -> (r: Option<i64>)
    ensures
        r == integer_value(s@),
{
    let a: usize = find_after_sign(s, 0);
    let b: usize = find_run_end(s, a);
    if a == s.len() || b != s.len() {
        return None;
    }
    proof {
        lemma_run_end(s@, a as int);
    }
    let ghost d = s@.subrange(a as int, s@.len() as int);
    let negative: bool = s[0] == 45;
    let mut v: i128 = 0;
    let mut x: usize = a;
    while x < s.len()
        invariant
            a <= x <= s@.len(),
            d == s@.subrange(a as int, s@.len() as int),
            forall|m: int| a <= m < s@.len() ==> is_digit(#[trigger] s@[m]),
            v == leading(d, (x - a) as nat),
            0 <= v <= 0x8000_0000_0000_0000,
            a == after_sign(s@, 0),
            a < s@.len(),
        decreases s@.len() - x,
    {
        assert(d[x - a] == s@[x as int]);
        v = v * 10 + (s[x] - 48) as i128;
        x = x + 1;
        if v > 0x8000_0000_0000_0000 {
            proof {
                assert forall|k: int| 0 <= k < d.len() implies is_digit(#[trigger] d[k]) by {
                    assert(d[k] == s@[a + k]);
                }
                lemma_leading_grows(d, (x - a) as nat, (s@.len() - a) as nat);
            }
            return None;
        }
    }
    if negative {
        Some((-v) as i64)
    } else if v <= 0x7fff_ffff_ffff_ffff {
        Some(v as i64)
    } else {
        None
    }
}

/// Where the first point at or behind `from` stands.
pub open spec fn first_point(s: Seq<u8>, from: int) -> Option<int>
    decreases s.len() - from,
{
    if from >= s.len() {
        None
    } else if s[from] == 46 {
        Some(from)
    } else {
        first_point(s, from + 1)
    }
}

/// Length of the stretch from `lo` to `hi` without the zeros at its end.
pub open spec fn without_zeros(s: Seq<u8>, lo: int, hi: int) -> int
    decreases hi - lo,
{
    if hi > lo && s[hi - 1] == 48 {
        without_zeros(s, lo, hi - 1)
    } else {
        hi - lo
    }
}

pub open spec fn decimals_in(s: Seq<u8>) -> int {
    match first_point(s, 0) {
        Some(i) => without_zeros(s, i + 1, s.len() as int),
        None => 0,
    }
}

/// Number of decimals in a decimal string like "0.0010" -> 3.
pub fn decimals_of(text: &str) -> (r: u32)
    ensures
        r == decimals_in(encode_utf8(text@)) as u32,
{
    let s: &[u8] = text.as_bytes();
    let mut i: usize = 0;
    while i < s.len() && s[i] != 46
        invariant
            i <= s@.len(),
            first_point(s@, 0) == first_point(s@, i as int),
        decreases s@.len() - i,
    {
        i = i + 1;
    }
    if i == s.len() {
        return 0;
    }
    let mut hi: usize = s.len();
    while hi > i + 1 && s[hi - 1] == 48
        invariant
            i + 1 <= hi <= s@.len(),
            without_zeros(s@, i + 1, s@.len() as int) == without_zeros(s@, i + 1, hi as int),
        decreases hi,
    {
        hi = hi - 1;
    }
    (hi - (i + 1)) as u32
}

/// `a` stands before `b` in the byte order of texts.
pub open spec fn text_lt(a: Seq<u8>, b: Seq<u8>, i: int) -> bool
    decreases a.len() - i,
{
    if i >= b.len() {
        false
    } else if i >= a.len() {
        true
    } else if a[i] != b[i] {
        a[i] < b[i]
    } else {
        text_lt(a, b, i + 1)
    }
}

pub fn text_before(x: &str, y: &str) -> (r: bool)
    ensures
        r == text_lt(encode_utf8(x@), encode_utf8(y@), 0),
{
    let a: &[u8] = x.as_bytes();
    let b: &[u8] = y.as_bytes();
    let mut i: usize = 0;
    while i < a.len() && i < b.len()
        invariant
            i <= a@.len(),
            i <= b@.len(),
            a@ == encode_utf8(x@),
            b@ == encode_utf8(y@),
            text_lt(a@, b@, 0) == text_lt(a@, b@, i as int),
        decreases a@.len() - i,
    {
        if a[i] != b[i] {
            return a[i] < b[i];
        }
        i = i + 1;
    }
    i == a.len() && i < b.len()
}

/// The byte order is a strict order in which any two different texts are comparable.
pub proof fn law_text_order(a: Seq<u8>, b: Seq<u8>, c: Seq<u8>, i: int)
    requires
        0 <= i <= a.len(),
        i <= b.len(),
        i <= c.len(),
        forall|k: int| 0 <= k < i ==> a[k] == b[k] && b[k] == c[k],
    ensures
        !text_lt(a, a, i),
        text_lt(a, b, i) ==> !text_lt(b, a, i),
        text_lt(a, b, i) && text_lt(b, c, i) ==> text_lt(a, c, i),
        a != b ==> text_lt(a, b, i) || text_lt(b, a, i),
    decreases a.len() - i,
{
    if i < a.len() && i < b.len() && a[i] == b[i] {
        if i < c.len() && b[i] == c[i] {
            law_text_order(a, b, c, i + 1);
        } else {
            law_text_order(a, b, b, i + 1);
        }
    } else if i < a.len() {
        lemma_text_irreflexive(a, i);
    }
    if i == a.len() && i == b.len() {
        assert(a =~= b);
    }
}

proof fn lemma_text_irreflexive(a: Seq<u8>, i: int)
    requires
        0 <= i <= a.len(),
    ensures
        !text_lt(a, a, i),
    decreases a.len() - i,
{
    if i < a.len() {
        lemma_text_irreflexive(a, i + 1);
    }
}

} // verus!
