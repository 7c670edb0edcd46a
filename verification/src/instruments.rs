//! Instrument definitions as the exchange lists them, and which of them are traded.

use vstd::prelude::*;
use vstd::arithmetic::div_mod::lemma_fundamental_div_mod;
use vstd::utf8::encode_utf8;
use crate::config::Config;
use crate::order::{is_stable_order, stable_order};
use crate::table::{contains_text, entry_value, find_entry, has_text};
use crate::text::{after_sign, decimal_at, decimal_or_zero, decimal_or_zero_at, decimals_in, decimals_of, digit_at, ends_within, first_point, is_digit, is_positive, law_text_order, leading, lemma_leading_grows, lemma_run_end, lemma_written_digits, number_at, read_number, rounded, run_end, text_before, text_lt, without_zeros, written, Number, Written};
use crate::types::{Bbo, lemma_scale_unit, scale_unit, str_eq, SymbolId, SymbolMeta};
use crate::units::{lemma_mul_bound, lemma_pow10, max64, max_int, min_int, places_of_qty, pow10, power_of_ten, qty_places, sat64, AMOUNT_DIGITS};

verus! {

/// One entry of the instrument list, as it comes.
#[derive(Clone, Debug)]
pub struct Instrument {
    pub symbol: String,
    pub contract_type: String,
    pub status: String,
    pub base_coin: String,
    pub quote_coin: String,
    pub tick_size: String,
    pub min_order_qty: String,
    pub max_order_qty: String,
    pub qty_step: String,
    pub min_notional_value: String,
}

/// The number in a text, with so many decimal places; zero where there is none.
pub open spec fn number_in(s: Seq<char>, places: u32) -> int {
    match decimal_at(encode_utf8(s), places) {
        Some(x) => x as int,
        None => 0,
    }
}

/// The text is a number above zero.
pub open spec fn positive_in(s: Seq<char>) -> bool {
    written(encode_utf8(s)) matches Some(w) && is_positive(w)
}

/// The largest order where the list gives no limit, in whole units.
pub const NO_MAX_QTY: i64 = 1_000_000_000_000;

/// The same with so many decimal places, as far as that is in range.
pub open spec fn open_limit(places: u32) -> int {
    min_int(NO_MAX_QTY * pow10(places as nat), i64::MAX as int)
}

fn no_limit(places: u32) -> (r: i64)
    requires
        places <= AMOUNT_DIGITS,
    ensures
        r == open_limit(places),
{
    let u: i128 = power_of_ten(places);
    proof {
        lemma_mul_bound(NO_MAX_QTY as int, u as int, NO_MAX_QTY as int, 10_000_000_000_000_000);
    }
    sat64((NO_MAX_QTY as i128) * u)
}

/// The least order value where the list gives none.
pub const DEFAULT_MIN_NOTIONAL: i64 = 500_000_000;

// ------------------------------------------------------------------------------
// Digits
// ------------------------------------------------------------------------------

/// Prices are held with this many digits below the tick size where there is room for them, so that
/// middles and averages are finer than the tick.
pub const SPARE_DIGITS: u32 = 4;

/// Prices with so many fractional digits, and quantities with the rest, hold both steps to the last
/// digit and within range.
pub open spec fn steps_held(tick: Written, step: Written, digits: u32) -> bool {
    &&& ends_within(tick, digits as int)
    &&& ends_within(step, AMOUNT_DIGITS - digits)
    &&& number_at(tick, digits) < i64::MAX
    &&& number_at(step, (AMOUNT_DIGITS - digits) as u32) < i64::MAX
}

/// So do they, and leave prices the digits to spare.
pub open spec fn steps_held_finely(tick: Written, step: Written, digits: u32) -> bool {
    steps_held(tick, step, digits) && ends_within(tick, digits - SPARE_DIGITS)
}

/// The fewest digits for prices, from `from` on, that leave digits to spare.
pub open spec fn first_fine(tick: Written, step: Written, from: u32) -> Option<u32>
    decreases AMOUNT_DIGITS + 1 - from,
{
    if from > AMOUNT_DIGITS {
        None
    } else if steps_held_finely(tick, step, from) {
        Some(from)
    } else {
        first_fine(tick, step, (from + 1) as u32)
    }
}

/// The most digits for prices, below `end`, that hold the steps.
pub open spec fn last_held(tick: Written, step: Written, end: u32) -> Option<u32>
    decreases end,
{
    if end == 0 {
        None
    } else if steps_held(tick, step, (end - 1) as u32) {
        Some((end - 1) as u32)
    } else {
        last_held(tick, step, (end - 1) as u32)
    }
}

/// The fewest digits, from `from` on, that hold the tick; sixteen where fewer do not.
pub open spec fn tick_digits(tick: Written, from: u32) -> u32
    decreases AMOUNT_DIGITS - from,
{
    if from >= AMOUNT_DIGITS || ends_within(tick, from as int) {
        if from >= AMOUNT_DIGITS {
            AMOUNT_DIGITS
        } else {
            from
        }
    } else {
        tick_digits(tick, (from + 1) as u32)
    }
}

/// The fractional digits for the prices of an instrument: eight, or as many more as leave digits to
/// spare below the tick; failing that as many as the quantity step leaves. Where no split of sixteen
/// digits between prices and quantities holds both steps, the tick goes first.
pub open spec fn digits_for(tick: Written, step: Written) -> u32 {
    match first_fine(tick, step, 8) {
        Some(d) => d,
        None => match last_held(tick, step, (AMOUNT_DIGITS + 1) as u32) {
            Some(d) => d,
            None => tick_digits(tick, 8),
        },
    }
}

/// The fractional digits for prices with this tick and this quantity step, both numbers in text.
pub open spec fn digits_of_steps(tick: Seq<char>, step: Seq<char>) -> Option<u32> {
    match (written(encode_utf8(tick)), written(encode_utf8(step))) {
        (Some(t), Some(s)) => Some(digits_for(t, s)),
        _ => None,
    }
}

/// A step as it is held: rounded to the last digit where there are not enough of them, but never to
/// nothing.
pub open spec fn step_at(w: Written, places: u32) -> int {
    max_int(number_at(w, places) as int, 1)
}

fn holds_steps(tick: &Number, step: &Number, digits: u32) -> (r: bool)
    requires
        tick.wf(),
        step.wf(),
        digits <= AMOUNT_DIGITS,
    ensures
        r == steps_held(tick@, step@, digits),
{
    let rest: u32 = AMOUNT_DIGITS - digits;
    tick.fits_in(digits) && step.fits_in(rest) && tick.at(digits) < i64::MAX && step.at(rest) < i64::MAX
}

fn choose_digits(tick: &Number, step: &Number) -> (r: u32)
    requires
        tick.wf(),
        step.wf(),
    ensures
        r == digits_for(tick@, step@),
        r <= AMOUNT_DIGITS,
{
    let mut d: u32 = 8;
    while d <= AMOUNT_DIGITS
        invariant
            8 <= d <= AMOUNT_DIGITS + 1,
            tick.wf(),
            step.wf(),
            first_fine(tick@, step@, 8) == first_fine(tick@, step@, d),
        decreases AMOUNT_DIGITS + 1 - d,
    {
        if holds_steps(tick, step, d) && tick.fits_in(d - SPARE_DIGITS) {
            return d;
        }
        d = d + 1;
    }
    let mut e: u32 = AMOUNT_DIGITS + 1;
    while e > 0
        invariant
            e <= AMOUNT_DIGITS + 1,
            tick.wf(),
            step.wf(),
            first_fine(tick@, step@, 8) is None,
            last_held(tick@, step@, (AMOUNT_DIGITS + 1) as u32) == last_held(tick@, step@, e),
        decreases e,
    {
        e = e - 1;
        if holds_steps(tick, step, e) {
            return e;
        }
    }
    let mut t: u32 = 8;
    while t < AMOUNT_DIGITS && !tick.fits_in(t)
        invariant
            8 <= t <= AMOUNT_DIGITS,
            tick.wf(),
            digits_for(tick@, step@) == tick_digits(tick@, 8),
            tick_digits(tick@, 8) == tick_digits(tick@, t),
        decreases AMOUNT_DIGITS - t,
    {
        t = t + 1;
    }
    t
}

/// The fractional digits for the prices of an instrument with these steps.
pub fn price_digits(tick: &str, step: &str) -> (r: Option<u32>)
    ensures
        r == digits_of_steps(tick@, step@),
{
    match (read_number(tick), read_number(step)) {
        (Some(t), Some(s)) => Some(choose_digits(&t, &s)),
        _ => None,
    }
}

/// A step in text as it is held with so many decimal places; what is not above zero stays as it is.
pub open spec fn step_in(s: Seq<char>, places: u32) -> int {
    match written(encode_utf8(s)) {
        Some(w) => if is_positive(w) {
            step_at(w, places)
        } else {
            number_at(w, places) as int
        },
        None => 0,
    }
}

pub fn read_step(text: &str, places: u32) -> (r: i64)
    ensures
        r == step_in(text@, places),
{
    match read_number(text) {
        Some(n) => {
            let x: i64 = n.at(places);
            if n.positive() {
                max64(x, 1)
            } else {
                x
            }
        },
        None => 0,
    }
}

proof fn lemma_first_fine(tick: Written, step: Written, from: u32)
    ensures
        first_fine(tick, step, from) matches Some(d) ==> d <= AMOUNT_DIGITS && steps_held_finely(tick, step, d),
    decreases AMOUNT_DIGITS + 1 - from,
{
    if from <= AMOUNT_DIGITS && !steps_held_finely(tick, step, from) {
        lemma_first_fine(tick, step, (from + 1) as u32);
    }
}

proof fn lemma_last_held(tick: Written, step: Written, end: u32, d: u32)
    requires
        end <= AMOUNT_DIGITS + 1,
    ensures
        last_held(tick, step, end) matches Some(x) ==> x < end && steps_held(tick, step, x),
        d < end && steps_held(tick, step, d) ==> last_held(tick, step, end) is Some,
    decreases end,
{
    if end > 0 && !steps_held(tick, step, (end - 1) as u32) {
        lemma_last_held(tick, step, (end - 1) as u32, d);
    }
}

proof fn lemma_tick_digits(tick: Written, from: u32)
    ensures
        tick_digits(tick, from) <= AMOUNT_DIGITS,
    decreases AMOUNT_DIGITS - from,
{
    if from < AMOUNT_DIGITS && !ends_within(tick, from as int) {
        lemma_tick_digits(tick, (from + 1) as u32);
    }
}

/// Whenever some split of sixteen digits between prices and quantities holds both steps to the last
/// digit, the one that is chosen does.
pub proof fn law_steps_held(tick: Written, step: Written, d: u32)
    ensures
        digits_for(tick, step) <= AMOUNT_DIGITS,
        d <= AMOUNT_DIGITS && steps_held(tick, step, d) ==> steps_held(tick, step, digits_for(tick, step)),
{
    lemma_first_fine(tick, step, 8);
    lemma_last_held(tick, step, (AMOUNT_DIGITS + 1) as u32, d);
    lemma_tick_digits(tick, 8);
}

/// A digit that is not zero makes the number of the digits up to it, or beyond it, positive.
proof fn lemma_leading_positive(d: Seq<u8>, i: int, n: nat)
    requires
        forall|k: int| 0 <= k < d.len() ==> is_digit(#[trigger] d[k]),
        0 <= i < d.len(),
        d[i] != 48,
        i < n,
    ensures
        leading(d, n) > 0,
    decreases n,
{
    if i < n - 1 {
        lemma_leading_positive(d, i, (n - 1) as nat);
    } else {
        lemma_leading_grows(d, i as nat, i as nat);
    }
}

/// A positive number that ends within so many places is positive at them.
proof fn lemma_positive_at(w: Written, places: u32)
    requires
        forall|k: int| 0 <= k < w.digits.len() ==> is_digit(#[trigger] w.digits[k]),
        is_positive(w),
        ends_within(w, places as int),
    ensures
        number_at(w, places) > 0,
{
    let i = choose|i: int| 0 <= i < w.digits.len() && #[trigger] w.digits[i] != 48;
    assert(i < w.point + places);
    lemma_leading_positive(w.digits, i, (w.point + places) as nat);
}

impl Instrument {
    /// The instrument trades, in the quote coin that is asked for, and, among the linear contracts,
    /// is a perpetual; its price and quantity steps are positive.
    pub open spec fn is_traded(&self, category: Seq<char>, quote_coin: Seq<char>) -> bool {
        &&& self.status@ == "Trading"@
        &&& quote_coin.len() == 0 || self.quote_coin@ == quote_coin
        &&& category == "linear"@ && self.contract_type@.len() != 0 ==> self.contract_type@ == "LinearPerpetual"@
        &&& positive_in(self.tick_size@)
        &&& positive_in(self.qty_step@)
    }

    /// The price step as it is written.
    pub open spec fn tick(&self) -> Written {
        written(encode_utf8(self.tick_size@))->0
    }

    /// The quantity step as it is written.
    pub open spec fn step(&self) -> Written {
        written(encode_utf8(self.qty_step@))->0
    }

    /// The same instrument as the engine describes it.
    pub open spec fn described_by(&self, m: SymbolMeta) -> bool {
        let q = qty_places(m.price_digits);
        &&& m.id == 0
        &&& m.name@ == self.symbol@
        &&& m.base_coin@ == self.base_coin@
        &&& m.quote_coin@ == self.quote_coin@
        &&& m.price_digits == digits_for(self.tick(), self.step())
        &&& m.tick_size == step_at(self.tick(), m.price_digits)
        &&& m.qty_step == step_at(self.step(), q)
        &&& m.min_qty == max_int(number_in(self.min_order_qty@, q), m.qty_step as int)
        &&& m.max_qty == if self.max_order_qty@.len() == 0 { open_limit(q) } else { number_in(self.max_order_qty@, q) }
        &&& m.min_notional == if self.min_notional_value@.len() == 0 { DEFAULT_MIN_NOTIONAL as int } else { number_in(self.min_notional_value@, 8) }
        &&& m.price_scale == decimals_in(encode_utf8(self.tick_size@)) as u32
        &&& m.turnover_24h == 0
    }

    /// The instrument as the engine describes it, if it is traded here.
    pub fn to_meta(&self, category: &str, quote_coin: &str) -> (r: Option<SymbolMeta>)
        ensures
            match r {
                Some(m) => self.is_traded(category@, quote_coin@) && self.described_by(m),
                None => !self.is_traded(category@, quote_coin@),
            },
    {
        if !str_eq(self.status.as_str(), "Trading") {
            return None;
        }
        if !empty(quote_coin) && !str_eq(self.quote_coin.as_str(), quote_coin) {
            return None;
        }
        if str_eq(category, "linear") && !empty(self.contract_type.as_str()) && !str_eq(self.contract_type.as_str(), "LinearPerpetual") {
            return None;
        }
        let (tick, step): (Number, Number) = match (read_number(self.tick_size.as_str()), read_number(self.qty_step.as_str())) {
            (Some(t), Some(s)) => (t, s),
            _ => {
                return None;
            },
        };
        if !tick.positive() || !step.positive() {
            return None;
        }
        let digits: u32 = choose_digits(&tick, &step);
        let q: u32 = places_of_qty(digits);
        let qty_step: i64 = max64(step.at(q), 1);
        let min_qty: i64 = decimal_or_zero_at(self.min_order_qty.as_str(), q);
        let max_qty: i64 = if empty(self.max_order_qty.as_str()) {
            no_limit(q)
        } else {
            decimal_or_zero_at(self.max_order_qty.as_str(), q)
        };
        let min_notional: i64 = if empty(self.min_notional_value.as_str()) {
            DEFAULT_MIN_NOTIONAL
        } else {
            decimal_or_zero(self.min_notional_value.as_str())
        };
        Some(
            SymbolMeta {
                id: 0,
                name: self.symbol.clone(),
                base_coin: self.base_coin.clone(),
                quote_coin: self.quote_coin.clone(),
                tick_size: max64(tick.at(digits), 1),
                qty_step,
                min_qty: max64(min_qty, qty_step),
                max_qty,
                min_notional,
                price_scale: decimals_of(self.tick_size.as_str()),
                price_digits: digits,
                turnover_24h: 0,
            },
        )
    }
}

/// Every instrument that is traded enters the list, with positive steps and an order size of at least
/// one step; the steps are those that are written, to the last digit, whenever some split of sixteen
/// digits between its prices and its quantities holds both.
pub proof fn law_traded_is_described(i: Instrument, category: Seq<char>, quote_coin: Seq<char>, m: SymbolMeta, d: u32)
    requires
        i.is_traded(category, quote_coin),
        i.described_by(m),
    ensures
        m.tick_size > 0,
        m.qty_step > 0,
        m.min_qty >= m.qty_step,
        m.price_digits <= AMOUNT_DIGITS,
        d <= AMOUNT_DIGITS && steps_held(i.tick(), i.step(), d) ==> {
            &&& ends_within(i.tick(), m.price_digits as int)
            &&& ends_within(i.step(), qty_places(m.price_digits) as int)
            &&& m.tick_size == number_at(i.tick(), m.price_digits)
            &&& m.qty_step == number_at(i.step(), qty_places(m.price_digits))
        },
{
    law_steps_held(i.tick(), i.step(), d);
    if d <= AMOUNT_DIGITS && steps_held(i.tick(), i.step(), d) {
        lemma_written_digits(encode_utf8(i.tick_size@));
        lemma_written_digits(encode_utf8(i.qty_step@));
        lemma_positive_at(i.tick(), m.price_digits);
        lemma_positive_at(i.step(), qty_places(m.price_digits));
    }
}

/// Zeros behind the first `m` digits multiply by ten.
proof fn lemma_leading_zeros(d: Seq<u8>, m: nat, n: nat)
    requires
        m <= n,
        forall|i: int| m <= i < d.len() ==> #[trigger] d[i] == 48,
    ensures
        leading(d, n) == leading(d, m) * pow10((n - m) as nat),
    decreases n,
{
    if m < n {
        lemma_leading_zeros(d, m, (n - 1) as nat);
        let p = pow10((n - 1 - m) as nat);
        assert(pow10((n - m) as nat) == 10 * p);
        assert(digit_at(d, n - 1) == 0);
        let x = leading(d, m);
        assert((x * p) * 10 == x * (10 * p)) by (nonlinear_arith);
    } else {
        assert(leading(d, m) * 1 == leading(d, m));
    }
}

proof fn lemma_without_zeros(s: Seq<u8>, lo: int, hi: int)
    requires
        0 <= lo <= hi <= s.len(),
    ensures
        0 <= without_zeros(s, lo, hi) <= hi - lo,
        forall|i: int| lo + without_zeros(s, lo, hi) <= i < hi ==> #[trigger] s[i] == 48,
    decreases hi - lo,
{
    if hi > lo && s[hi - 1] == 48 {
        lemma_without_zeros(s, lo, hi - 1);
    }
}

proof fn lemma_first_point(s: Seq<u8>, from: int, b: int)
    requires
        0 <= from <= b <= s.len(),
        forall|i: int| from <= i < b ==> #[trigger] s[i] != 46,
        b < s.len() ==> s[b] == 46,
    ensures
        first_point(s, from) == if b < s.len() {
            Some(b)
        } else {
            None
        },
    decreases b - from,
{
    if from < b {
        lemma_first_point(s, from + 1, b);
    }
}

/// The text has no exponent: it is digits, with an optional sign and point, to its end.
pub open spec fn is_plain(s: Seq<u8>) -> bool {
    let a = after_sign(s, 0);
    let b = run_end(s, a);
    b == s.len() || (s[b] == 46 && run_end(s, b + 1) == s.len())
}

/// A number in plain notation has no digit, other than zero, beyond its decimals.
proof fn lemma_plain_decimals(s: Seq<u8>)
    requires
        is_plain(s),
        written(s) is Some,
    ensures
        0 <= decimals_in(s) <= s.len(),
        (written(s)->0).point >= 0,
        ends_within(written(s)->0, decimals_in(s)),
{
    let a = after_sign(s, 0);
    let b = run_end(s, a);
    lemma_run_end(s, a);
    let w = written(s)->0;
    assert forall|i: int| 0 <= i < b implies #[trigger] s[i] != 46 by {
        if i >= a {
            assert(is_digit(s[i]));
        }
    }
    lemma_first_point(s, 0, b);
    if b < s.len() {
        lemma_run_end(s, b + 1);
        lemma_without_zeros(s, b + 1, s.len() as int);
        let k = decimals_in(s);
        assert forall|i: int| 0 <= i < w.digits.len() && w.point + k <= i implies #[trigger] w.digits[i] == 48 by {
            assert(w.digits[i] == s[b + 1 + (i - (b - a))]);
        }
    } else {
        assert(w.digits.len() == b - a);
    }
}

/// The tick of an instrument that lists it in plain notation shows in the decimals of its prices: so
/// rounding a price to those decimals leaves every whole number of ticks as it is.
pub proof fn law_tick_shows(i: Instrument, category: Seq<char>, quote_coin: Seq<char>, m: SymbolMeta, d: u32)
    requires
        i.is_traded(category, quote_coin),
        i.described_by(m),
        d <= AMOUNT_DIGITS,
        steps_held(i.tick(), i.step(), d),
        is_plain(encode_utf8(i.tick_size@)),
        encode_utf8(i.tick_size@).len() <= u32::MAX,
    ensures
        m.tick_size as int % scale_unit(m.price_digits, m.price_scale) == 0,
{
    let s = encode_utf8(i.tick_size@);
    let w = i.tick();
    law_traded_is_described(i, category, quote_coin, m, d);
    law_steps_held(w, i.step(), d);
    lemma_plain_decimals(s);
    let k = decimals_in(s);
    let p = m.price_digits;
    lemma_scale_unit(p, m.price_scale);
    if k < p {
        let u = pow10((p - k) as nat);
        let n = (w.point + p) as nat;
        lemma_leading_zeros(w.digits, (w.point + k) as nat, n);
        assert(digit_at(w.digits, n as int) == 0);
        lemma_written_digits(s);
        lemma_leading_grows(w.digits, n, n);
        assert(rounded(w, p) == leading(w.digits, n));
        assert(number_at(w, p) < i64::MAX);
        let x = leading(w.digits, (w.point + k) as nat);
        assert((x * u) % u == 0) by (nonlinear_arith)
            requires
                u > 0,
        ;
    } else {
        assert(m.tick_size as int % 1 == 0);
    }
}

/// A tick for which prices have digits to spare is a whole number of ten thousand last digits.
proof fn lemma_spare(w: Written, step: Written, d: u32)
    requires
        steps_held_finely(w, step, d),
        is_positive(w),
        forall|k: int| 0 <= k < w.digits.len() ==> is_digit(#[trigger] w.digits[k]),
    ensures
        number_at(w, d) as int % pow10(SPARE_DIGITS as nat) == 0,
{
    let n = w.point + d;
    let i = choose|i: int| 0 <= i < w.digits.len() && #[trigger] w.digits[i] != 48;
    assert(i < n - SPARE_DIGITS);
    let m = (n - SPARE_DIGITS) as nat;
    lemma_leading_zeros(w.digits, m, n as nat);
    assert(digit_at(w.digits, n) == 0);
    lemma_leading_grows(w.digits, n as nat, n as nat);
    assert(rounded(w, d) == leading(w.digits, n as nat));
    let (x, u) = (leading(w.digits, m), pow10(SPARE_DIGITS as nat));
    lemma_pow10(SPARE_DIGITS as nat);
    vstd::arithmetic::div_mod::lemma_mod_multiples_basic(x, u);
}

/// Where prices have digits to spare below the tick, the middle between two prices on the tick grid is
/// held exactly.
pub proof fn law_middle_is_exact(i: Instrument, category: Seq<char>, quote_coin: Seq<char>, m: SymbolMeta, b: Bbo)
    requires
        i.is_traded(category, quote_coin),
        i.described_by(m),
        first_fine(i.tick(), i.step(), 8) is Some,
        b.bid as int % m.tick_size as int == 0,
        b.ask as int % m.tick_size as int == 0,
    ensures
        2 * b.spec_mid() == b.bid + b.ask,
{
    let d = m.price_digits;
    let t = m.tick_size as int;
    lemma_first_fine(i.tick(), i.step(), 8);
    lemma_written_digits(encode_utf8(i.tick_size@));
    lemma_spare(i.tick(), i.step(), d);
    lemma_positive_at(i.tick(), d);
    lemma_ten_thousand();
    lemma_even_grid(b.bid as int, b.ask as int, t, t / 10_000);
}

proof fn lemma_ten_thousand()
    ensures
        pow10(SPARE_DIGITS as nat) == 10_000,
{
    reveal_with_fuel(pow10, 5);
}

/// Two multiples of an even number have an even sum.
proof fn lemma_even_grid(a: int, b: int, t: int, k: int)
    requires
        t > 0,
        t == 10_000 * k,
        a % t == 0,
        b % t == 0,
    ensures
        (a + b) % 2 == 0,
{
    lemma_fundamental_div_mod(a, t);
    lemma_fundamental_div_mod(b, t);
    let (x, y) = (a / t, b / t);
    let h = 5_000 * (k * (x + y));
    assert(t * x + t * y == 2 * h) by (nonlinear_arith)
        requires
            t == 10_000 * k,
            h == 5_000 * (k * (x + y)),
    ;
}

fn empty(s: &str) -> (r: bool)
    ensures
        r == (s@.len() == 0),
{
    s.unicode_len() == 0
}

// ------------------------------------------------------------------------------
// Pages
// ------------------------------------------------------------------------------

/// No more pages than this are read.
pub const MAX_PAGES: u32 = 50;

/// A page of the instrument list, and where the next one starts.
pub struct Page {
    pub list: Vec<Instrument>,
    pub next_cursor: String,
}

/// The list as far as it has been read.
pub struct Listing {
    pub pages: u32,
    pub cursor: String,
    pub found: Vec<SymbolMeta>,
    /// Another page is to be fetched.
    pub more: bool,
}

/// `out` is `acc` with the traded ones of the first `n` instruments behind it.
pub open spec fn traded_added(
    acc: Seq<SymbolMeta>,
    out: Seq<SymbolMeta>,
    list: Seq<Instrument>,
    category: Seq<char>,
    quote_coin: Seq<char>,
    n: nat,
) -> bool
    decreases n,
{
    if n == 0 {
        out == acc
    } else if list[n - 1].is_traded(category, quote_coin) {
        out.len() > 0 && list[n - 1].described_by(out.last()) && traded_added(acc, out.drop_last(), list, category, quote_coin, (n - 1) as nat)
    } else {
        traded_added(acc, out, list, category, quote_coin, (n - 1) as nat)
    }
}

/// A reply taken: an error code ends the listing, so does a reply without a result, an empty
/// cursor, and the last page that is allowed.
pub open spec fn page_taken(a: Listing, b: Listing, page: Option<Page>, category: Seq<char>, quote_coin: Seq<char>) -> bool {
    match page {
        None => b == (Listing { more: false, ..a }),
        Some(p) => {
            &&& traded_added(a.found@, b.found@, p.list@, category, quote_coin, p.list@.len())
            &&& b.pages == a.pages + 1
            &&& b.more == (p.next_cursor@.len() != 0 && a.pages + 1 < MAX_PAGES)
            &&& b.cursor@ == if p.next_cursor@.len() == 0 { a.cursor@ } else { p.next_cursor@ }
        },
    }
}

impl Listing {
    pub fn new() -> (r: Listing)
        ensures
            r.pages == 0,
            r.cursor@.len() == 0,
            r.found@.len() == 0,
            r.more,
    {
        proof {
            reveal_strlit("");
        }
        Listing { pages: 0, cursor: "".to_owned(), found: Vec::new(), more: true }
    }

    /// Take the reply to the request for the present page.
    pub fn take(&mut self, ret_code: i64, page: Option<Page>, category: &str, quote_coin: &str) -> (r: Result<(), i64>)
        requires
            old(self).pages < MAX_PAGES,
        ensures
            match r {
                Err(code) => code == ret_code && code != 0 && *final(self) == *old(self),
                Ok(_) => ret_code == 0 && page_taken(*old(self), *final(self), page, category@, quote_coin@),
            },
    {
        if ret_code != 0 {
            return Err(ret_code);
        }
        match page {
            None => {
                self.more = false;
            },
            Some(p) => {
                self.add(&p.list, category, quote_coin);
                self.pages = self.pages + 1;
                if empty(p.next_cursor.as_str()) {
                    self.more = false;
                } else {
                    self.cursor = p.next_cursor;
                    self.more = self.pages < MAX_PAGES;
                }
            },
        }
        Ok(())
    }

    fn add(&mut self, list: &Vec<Instrument>, category: &str, quote_coin: &str)
        ensures
            *final(self) == (Listing { found: final(self).found, ..*old(self) }),
            traded_added(old(self).found@, final(self).found@, list@, category@, quote_coin@, list@.len()),
    {
        let mut i: usize = 0;
        while i < list.len()
            invariant
                i <= list@.len(),
                *self == (Listing { found: self.found, ..*old(self) }),
                traded_added(old(self).found@, self.found@, list@, category@, quote_coin@, i as nat),
            decreases list@.len() - i,
        {
            let ghost f = self.found@;
            if let Some(m) = list[i].to_meta(category, quote_coin) {
                self.found.push(m);
                assert(self.found@.drop_last() =~= f);
            }
            i = i + 1;
        }
    }

    /// The instruments that were found, by name.
    pub fn sorted(self) -> (r: Vec<SymbolMeta>)
        ensures
            exists|p: Seq<usize>| #[trigger] is_listing_order(self.found@, false, p) && arranged(self.found@, p, r@),
    {
        let p: Vec<usize> = listing_order(&self.found, false);
        arrange(&self.found, &p)
    }
}

// ------------------------------------------------------------------------------
// Order
// ------------------------------------------------------------------------------

/// Instrument `a` stands before instrument `b`: by turnover, the highest first, where that counts,
/// then by name, then by place.
pub open spec fn precedes(m: Seq<SymbolMeta>, by_turnover: bool, a: int, b: int) -> bool {
    let x = encode_utf8(m[a].name@);
    let y = encode_utf8(m[b].name@);
    if by_turnover && m[a].turnover_24h != m[b].turnover_24h {
        m[a].turnover_24h > m[b].turnover_24h
    } else {
        text_lt(x, y, 0) || (x == y && a < b)
    }
}

/// `p` lists every instrument once, in this order.
pub open spec fn is_listing_order(m: Seq<SymbolMeta>, by_turnover: bool, p: Seq<usize>) -> bool {
    &&& p.len() == m.len()
    &&& forall|i: int| 0 <= i < p.len() ==> #[trigger] p[i] < m.len()
    &&& forall|i: int, j: int| 0 <= i < j < p.len() ==> precedes(m, by_turnover, #[trigger] p[i] as int, #[trigger] p[j] as int)
}

/// The instruments in the order given.
pub open spec fn arranged(m: Seq<SymbolMeta>, p: Seq<usize>, r: Seq<SymbolMeta>) -> bool {
    &&& r.len() == p.len()
    &&& forall|i: int| 0 <= i < p.len() ==> #[trigger] r[i] == m[p[i] as int]
}

/// The order of instruments is a strict one in which any two are comparable.
pub proof fn law_listing_order(m: Seq<SymbolMeta>, by_turnover: bool, a: int, b: int, c: int)
    ensures
        !precedes(m, by_turnover, a, a),
        precedes(m, by_turnover, a, b) && precedes(m, by_turnover, b, c) ==> precedes(m, by_turnover, a, c),
        a != b ==> precedes(m, by_turnover, a, b) || precedes(m, by_turnover, b, a),
{
    law_text_order(encode_utf8(m[a].name@), encode_utf8(m[b].name@), encode_utf8(m[c].name@), 0);
}

fn comes_before(m: &Vec<SymbolMeta>, by_turnover: bool, a: usize, b: usize) -> (r: bool)
    requires
        a < m@.len(),
        b < m@.len(),
    ensures
        r == precedes(m@, by_turnover, a as int, b as int),
{
    proof {
        let x = encode_utf8(m@[a as int].name@);
        let y = encode_utf8(m@[b as int].name@);
        law_text_order(x, y, x, 0);
        law_text_order(y, x, y, 0);
    }
    if by_turnover && m[a].turnover_24h != m[b].turnover_24h {
        m[a].turnover_24h > m[b].turnover_24h
    } else if text_before(m[a].name.as_str(), m[b].name.as_str()) {
        true
    } else {
        a < b && !text_before(m[b].name.as_str(), m[a].name.as_str())
    }
}

/// The order of the instruments.
pub fn listing_order(m: &Vec<SymbolMeta>, by_turnover: bool) -> (p: Vec<usize>)
    ensures
        is_listing_order(m@, by_turnover, p@),
{
    let mut p: Vec<usize> = Vec::new();
    let mut i: usize = 0;
    while i < m.len()
        invariant
            i <= m@.len(),
            p@.len() == i,
            forall|x: int| 0 <= x < p@.len() ==> #[trigger] p@[x] < i,
            forall|x: int, y: int| 0 <= x < y < p@.len() ==> precedes(m@, by_turnover, #[trigger] p@[x] as int, #[trigger] p@[y] as int),
        decreases m@.len() - i,
    {
        let mut k: usize = p.len();
        while k > 0 && comes_before(m, by_turnover, i, p[k - 1])
            invariant
                k <= p@.len() == i < m@.len(),
                forall|x: int| 0 <= x < p@.len() ==> #[trigger] p@[x] < i,
                forall|x: int| k <= x < p@.len() ==> precedes(m@, by_turnover, i as int, #[trigger] p@[x] as int),
            decreases k,
        {
            k = k - 1;
        }
        let ghost q = p@;
        p.insert(k, i);
        proof {
            let s = p@;
            assert forall|x: int, y: int| 0 <= x < y < s.len() implies precedes(m@, by_turnover, #[trigger] s[x] as int, #[trigger] s[y] as int) by {
                let u = if x < k { q[x] } else { q[x - 1] };
                let v = if y < k { q[y] } else { q[y - 1] };
                if y == k {
                    law_listing_order(m@, by_turnover, q[k - 1] as int, i as int, i as int);
                    if x < k - 1 {
                        law_listing_order(m@, by_turnover, q[x] as int, q[k - 1] as int, i as int);
                    }
                } else if x == k {
                    assert(precedes(m@, by_turnover, i as int, q[y - 1] as int));
                } else {
                    assert(s[x] == u && s[y] == v);
                }
            }
            assert forall|x: int| 0 <= x < s.len() implies #[trigger] s[x] < i + 1 by {
                if x < k {
                    assert(q[x] < i);
                } else if x > k {
                    assert(q[x - 1] < i);
                }
            }
        }
        i = i + 1;
    }
    p
}

fn arrange(m: &Vec<SymbolMeta>, p: &Vec<usize>) -> (r: Vec<SymbolMeta>)
    requires
        forall|i: int| 0 <= i < p@.len() ==> #[trigger] p@[i] < m@.len(),
    ensures
        arranged(m@, p@, r@),
{
    let mut r: Vec<SymbolMeta> = Vec::new();
    let mut i: usize = 0;
    while i < p.len()
        invariant
            i <= p@.len(),
            r@.len() == i,
            forall|i: int| 0 <= i < p@.len() ==> #[trigger] p@[i] < m@.len(),
            forall|k: int| 0 <= k < i ==> #[trigger] r@[k] == m@[p@[k] as int],
        decreases p@.len() - i,
    {
        r.push(m[p[i]].copy());
        i = i + 1;
    }
    r
}

// ------------------------------------------------------------------------------
// Selection
// ------------------------------------------------------------------------------

/// The instruments, among the first `n`, whose name is in the list; all of them where the list is
/// empty.
pub open spec fn wanted_among(m: Seq<SymbolMeta>, want: Seq<String>, n: nat) -> Seq<SymbolMeta>
    decreases n,
{
    if n == 0 {
        Seq::empty()
    } else {
        let r = wanted_among(m, want, (n - 1) as nat);
        if want.len() == 0 || has_text(want, m[n - 1].name@) {
            r.push(m[n - 1])
        } else {
            r
        }
    }
}

/// The instruments whose name is in the list.
pub open spec fn wanted(m: Seq<SymbolMeta>, want: Seq<String>) -> Seq<SymbolMeta> {
    wanted_among(m, want, m.len())
}

/// The names on the command line, or else those in the configuration.
pub open spec fn names_wanted(cli: Seq<String>, configured: Seq<String>) -> Seq<String> {
    if cli.len() != 0 {
        cli
    } else {
        configured
    }
}

/// The cap on the command line, or else that of the configuration.
pub open spec fn cap_in_force(cli: Option<usize>, configured: usize) -> int {
    match cli {
        Some(n) => n as int,
        None => configured as int,
    }
}

/// How many of `n` instruments a cap leaves; no cap is zero.
pub open spec fn within_cap(n: int, cap: int) -> int {
    if 0 < cap < n {
        cap
    } else {
        n
    }
}

/// `r` is the `wanted` instruments in the order `p`, highest turnover first, up to the cap, and
/// numbered.
pub open spec fn is_selection(wanted: Seq<SymbolMeta>, cap: int, p: Seq<usize>, r: Seq<SymbolMeta>) -> bool {
    &&& is_listing_order(wanted, true, p)
    &&& r.len() == within_cap(wanted.len() as int, cap)
    &&& forall|i: int| 0 <= i < r.len() ==> #[trigger] r[i] == (SymbolMeta { id: i as SymbolId, ..wanted[p[i] as int] })
}

fn keep_wanted(m: &Vec<SymbolMeta>, want: &Vec<String>) -> (r: Vec<SymbolMeta>)
    ensures
        r@ == wanted(m@, want@),
        r@.len() <= m@.len(),
{
    let mut r: Vec<SymbolMeta> = Vec::new();
    let mut i: usize = 0;
    while i < m.len()
        invariant
            i <= m@.len(),
            r@.len() <= i,
            r@ == wanted_among(m@, want@, i as nat),
        decreases m@.len() - i,
    {
        if want.len() == 0 || contains_text(want, m[i].name.as_str()) {
            r.push(m[i].copy());
        }
        i = i + 1;
    }
    r
}

/// The symbols of a run: those on the command line, or else in the configuration, or else all;
/// highest turnover first, so a cap keeps the liquid names.
pub fn select_symbols(metas: &Vec<SymbolMeta>, cfg: &Config, cli_symbols: &Vec<String>, max_symbols: Option<usize>) -> (r: Vec<SymbolMeta>)
    requires
        metas@.len() <= u32::MAX,
    ensures
        exists|p: Seq<usize>|
            #[trigger] is_selection(
                wanted(metas@, names_wanted(cli_symbols@, cfg.exchange.symbols@)),
                cap_in_force(max_symbols, cfg.exchange.max_symbols),
                p,
                r@,
            ),
{
    let kept: Vec<SymbolMeta> = if cli_symbols.len() != 0 {
        keep_wanted(metas, cli_symbols)
    } else {
        keep_wanted(metas, &cfg.exchange.symbols)
    };
    let p: Vec<usize> = listing_order(&kept, true);
    let cap: usize = match max_symbols {
        Some(n) => n,
        None => cfg.exchange.max_symbols,
    };
    let n: usize = if cap > 0 && kept.len() > cap {
        cap
    } else {
        kept.len()
    };
    let mut r: Vec<SymbolMeta> = Vec::new();
    let mut i: usize = 0;
    while i < n
        invariant
            i <= n <= kept@.len() <= u32::MAX,
            r@.len() == i,
            is_listing_order(kept@, true, p@),
            forall|k: int| 0 <= k < i ==> #[trigger] r@[k] == (SymbolMeta { id: k as SymbolId, ..kept@[p@[k] as int] }),
        decreases n - i,
    {
        let mut m: SymbolMeta = kept[p[i]].copy();
        m.id = i as SymbolId;
        r.push(m);
        i = i + 1;
    }
    assert(kept@ == wanted(metas@, names_wanted(cli_symbols@, cfg.exchange.symbols@)));
    assert(is_selection(kept@, cap_in_force(max_symbols, cfg.exchange.max_symbols), p@, r@));
    r
}

proof fn lemma_wanted(m: Seq<SymbolMeta>, want: Seq<String>, n: nat)
    requires
        n <= m.len(),
    ensures
        forall|i: int|
            0 <= i < wanted_among(m, want, n).len() ==> want.len() == 0 || has_text(want, (#[trigger] wanted_among(m, want, n)[i]).name@),
    decreases n,
{
    if n > 0 {
        lemma_wanted(m, want, (n - 1) as nat);
        let r = wanted_among(m, want, (n - 1) as nat);
        let s = wanted_among(m, want, n);
        assert forall|i: int| 0 <= i < s.len() implies want.len() == 0 || has_text(want, (#[trigger] s[i]).name@) by {
            if i < r.len() {
                assert(s[i] == r[i]);
            }
        }
    }
}

/// A selection holds wanted symbols only, numbered by their place, in falling order of turnover, and
/// no more than the cap.
pub proof fn law_selection(m: Seq<SymbolMeta>, want: Seq<String>, cap: int, p: Seq<usize>, r: Seq<SymbolMeta>)
    requires
        is_selection(wanted(m, want), cap, p, r),
    ensures
        cap > 0 ==> r.len() <= cap,
        forall|i: int| 0 <= i < r.len() ==> (#[trigger] r[i]).id == i as SymbolId && (want.len() == 0 || has_text(want, r[i].name@)),
        forall|i: int, j: int| 0 <= i < j < r.len() ==> (#[trigger] r[i]).turnover_24h >= (#[trigger] r[j]).turnover_24h,
{
    let w = wanted(m, want);
    lemma_wanted(m, want, m.len());
    assert forall|i: int| 0 <= i < r.len() implies (#[trigger] r[i]).id == i as SymbolId && (want.len() == 0 || has_text(want, r[i].name@)) by {
        assert(w[p[i] as int].name@ == r[i].name@);
    }
    assert forall|i: int, j: int| 0 <= i < j < r.len() implies (#[trigger] r[i]).turnover_24h >= (#[trigger] r[j]).turnover_24h by {
        assert(precedes(w, true, p[i] as int, p[j] as int));
    }
}

// ------------------------------------------------------------------------------
// Turnover
// ------------------------------------------------------------------------------

/// The turnover of each symbol in a list of tickers.
pub fn tickers(list: &Vec<(String, String)>) -> (r: Vec<(String, i64)>)
    ensures
        r@.len() == list@.len(),
        forall|i: int| 0 <= i < list@.len() ==> (#[trigger] r@[i]).0@ == list@[i].0@ && r@[i].1 == number_in(list@[i].1@, 8),
{
    let mut r: Vec<(String, i64)> = Vec::new();
    let mut i: usize = 0;
    while i < list.len()
        invariant
            i <= list@.len(),
            r@.len() == i,
            forall|k: int| 0 <= k < i ==> (#[trigger] r@[k]).0@ == list@[k].0@ && r@[k].1 == number_in(list@[k].1@, 8),
        decreases list@.len() - i,
    {
        let v: i64 = decimal_or_zero(list[i].1.as_str());
        r.push((list[i].0.clone(), v));
        i = i + 1;
    }
    r
}

/// The turnover after the tickers: theirs where they have the symbol.
pub open spec fn turnover_after(m: SymbolMeta, t: Seq<(String, i64)>) -> i64 {
    match entry_value(t, m.name@) {
        Some(v) => v,
        None => m.turnover_24h,
    }
}

/// Enter the turnover from the tickers.
pub fn apply_tickers(metas: &mut Vec<SymbolMeta>, t: &Vec<(String, i64)>)
    ensures
        final(metas)@.len() == old(metas)@.len(),
        forall|i: int|
            0 <= i < old(metas)@.len() ==> #[trigger] final(metas)@[i] == (SymbolMeta {
                turnover_24h: turnover_after(old(metas)@[i], t@),
                ..old(metas)@[i]
            }),
{
    let n: usize = metas.len();
    let mut i: usize = 0;
    while i < n
        invariant
            i <= n == metas@.len() == old(metas)@.len(),
            forall|k: int|
                0 <= k < i ==> #[trigger] metas@[k] == (SymbolMeta { turnover_24h: turnover_after(old(metas)@[k], t@), ..old(metas)@[k] }),
            forall|k: int| i <= k < n ==> #[trigger] metas@[k] == old(metas)@[k],
        decreases n - i,
    {
        if let Some(k) = find_entry(t, metas[i].name.as_str()) {
            let v: i64 = t[k].1;
            metas[i].turnover_24h = v;
        }
        i = i + 1;
    }
}

/// The number of the last of the first `n` instruments that has the name.
pub open spec fn id_of(m: Seq<SymbolMeta>, name: Seq<char>, n: nat) -> Option<SymbolId>
    decreases n,
{
    if n == 0 {
        None
    } else if m[n - 1].name@ == name {
        Some(m[n - 1].id)
    } else {
        id_of(m, name, (n - 1) as nat)
    }
}

/// The turnover of the first `n` tickers, by the numbers of the instruments that have them.
pub open spec fn turnover_by_id(m: Seq<SymbolMeta>, t: Seq<(String, i64)>, n: nat) -> Seq<(SymbolId, i64)>
    decreases n,
{
    if n == 0 {
        Seq::empty()
    } else {
        let r = turnover_by_id(m, t, (n - 1) as nat);
        match id_of(m, t[n - 1].0@, m.len()) {
            Some(id) => r.push((id, t[n - 1].1)),
            None => r,
        }
    }
}

fn find_id(m: &Vec<SymbolMeta>, name: &str) -> (r: Option<SymbolId>)
    ensures
        r == id_of(m@, name@, m@.len()),
{
    let mut n: usize = m.len();
    while n > 0
        invariant
            n <= m@.len(),
            id_of(m@, name@, m@.len()) == id_of(m@, name@, n as nat),
        decreases n,
    {
        if str_eq(m[n - 1].name.as_str(), name) {
            return Some(m[n - 1].id);
        }
        n = n - 1;
    }
    None
}

/// What a refresh of the tickers tells the engine.
pub fn turnover_update(m: &Vec<SymbolMeta>, t: &Vec<(String, i64)>) -> (r: Vec<(SymbolId, i64)>)
    ensures
        r@ == turnover_by_id(m@, t@, t@.len()),
{
    let mut r: Vec<(SymbolId, i64)> = Vec::new();
    let mut i: usize = 0;
    while i < t.len()
        invariant
            i <= t@.len(),
            r@ == turnover_by_id(m@, t@, i as nat),
        decreases t@.len() - i,
    {
        if let Some(id) = find_id(m, t[i].0.as_str()) {
            r.push((id, t[i].1));
        }
        i = i + 1;
    }
    r
}

/// Highest turnover first, otherwise as they stand.
pub fn by_turnover(m: &Vec<SymbolMeta>) -> (r: Vec<SymbolMeta>)
    ensures
        exists|keys: Seq<i128>, p: Seq<usize>| #[trigger] falling_turnover(m@, keys, p) && arranged(m@, p, r@),
{
    let mut keys: Vec<i128> = Vec::new();
    let mut i: usize = 0;
    while i < m.len()
        invariant
            i <= m@.len(),
            keys@.len() == i,
            forall|k: int| 0 <= k < i ==> #[trigger] keys@[k] == -m@[k].turnover_24h,
        decreases m@.len() - i,
    {
        keys.push(-(m[i].turnover_24h as i128));
        i = i + 1;
    }
    let p: Vec<usize> = stable_order(&keys);
    assert(falling_turnover(m@, keys@, p@));
    arrange(m, &p)
}

/// `p` is the stable order of the instruments by falling turnover.
pub open spec fn falling_turnover(m: Seq<SymbolMeta>, keys: Seq<i128>, p: Seq<usize>) -> bool {
    &&& keys.len() == m.len()
    &&& forall|k: int| 0 <= k < m.len() ==> #[trigger] keys[k] == -m[k].turnover_24h
    &&& is_stable_order(keys, p)
}

} // verus!
