//! Shared value types used by every module (live engine, paper exchange, replay).

use vstd::prelude::*;
use crate::bytes::{signed_of, to_signed};
use vstd::arithmetic::div_mod::{lemma_fundamental_div_mod_converse, lemma_mod_multiples_basic};
use crate::units::{abs_int, clamp64, div_round, floor_div, lemma_div_bound, lemma_div_round_exact, lemma_div_round_monotone, lemma_pow10, lemma_pow10_split, lemma_wide, min_int, mul64, places_of_price, pow10, power_of_ten, price_places, round_div, sat64, wide_qty, widen, BPS_ONE, FLAT_QTY, ONE, ONE128, QTY_GRID};

verus! {

/// Dense index of a symbol inside one run. Stable for the lifetime of the process.
pub type SymbolId = u32;

#[derive(Clone, Copy, Debug, PartialEq, Eq, Structural, Hash)]
pub enum Side {
    Buy,
    Sell,
}

impl Side {
    /// +1 for a buy, -1 for a sell.
    pub open spec fn spec_sign(self) -> int {
        match self {
            Side::Buy => 1,
            Side::Sell => -1,
        }
    }

    pub open spec fn spec_opposite(self) -> Side {
        match self {
            Side::Buy => Side::Sell,
            Side::Sell => Side::Buy,
        }
    }

    pub fn sign(self) -> (r: i64)
        ensures
            r == self.spec_sign(),
    {
        match self {
            Side::Buy => 1,
            Side::Sell => -1,
        }
    }

    pub fn opposite(self) -> (r: Side)
        ensures
            r == self.spec_opposite(),
    {
        match self {
            Side::Buy => Side::Sell,
            Side::Sell => Side::Buy,
        }
    }

    pub open spec fn spec_as_str(self) -> &'static str {
        match self {
            Side::Buy => "Buy",
            Side::Sell => "Sell",
        }
    }

    pub fn as_str(self) -> (r: &'static str)
        ensures
            r == self.spec_as_str(),
    {
        match self {
            Side::Buy => "Buy",
            Side::Sell => "Sell",
        }
    }

    pub open spec fn spec_as_u8(self) -> u8 {
        match self {
            Side::Buy => 0,
            Side::Sell => 1,
        }
    }

    pub open spec fn spec_from_u8(v: u8) -> Side {
        if v == 0 {
            Side::Buy
        } else {
            Side::Sell
        }
    }

    pub fn as_u8(self) -> (r: u8)
        ensures
            r == self.spec_as_u8(),
    {
        match self {
            Side::Buy => 0,
            Side::Sell => 1,
        }
    }

    pub fn from_u8(v: u8) -> (r: Side)
        ensures
            r == Side::spec_from_u8(v),
    {
        if v == 0 {
            Side::Buy
        } else {
            Side::Sell
        }
    }
}

/// A side survives the trip through its byte code, and taking the opposite twice gives it back.
pub proof fn law_side_codes(s: Side)
    ensures
        Side::spec_from_u8(s.spec_as_u8()) == s,
        s.spec_opposite().spec_opposite() == s,
        s.spec_opposite().spec_sign() == -s.spec_sign(),
{
}

/// Static instrument description plus slowly changing fields refreshed from the tickers.
#[derive(Clone, Debug)]
pub struct SymbolMeta {
    pub id: SymbolId,
    pub name: String,
    pub base_coin: String,
    pub quote_coin: String,
    pub tick_size: i64,
    pub qty_step: i64,
    pub min_qty: i64,
    pub max_qty: i64,
    pub min_notional: i64,
    pub price_scale: u32,
    /// Fractional digits with which prices of the instrument are held; its quantities have the rest of
    /// sixteen.
    pub price_digits: u32,
    /// 24h turnover in quote currency, refreshed periodically (0 if unknown).
    pub turnover_24h: i64,
}

/// The size of the last decimal place that a price with `scale` decimals shows, where prices have so
/// many fractional digits.
pub open spec fn scale_unit(digits: u32, scale: u32) -> int {
    if scale < price_places(digits) {
        pow10((price_places(digits) - scale) as nat)
    } else {
        1
    }
}

pub fn decimal_unit(digits: u32, scale: u32) -> (r: i128)
    ensures
        r == scale_unit(digits, scale),
        1 <= r <= 10_000_000_000_000_000,
{
    let places: u32 = places_of_price(digits);
    if scale < places {
        power_of_ten(places - scale)
    } else {
        1
    }
}

/// The last decimal place has a size.
pub proof fn lemma_scale_unit(digits: u32, scale: u32)
    ensures
        1 <= scale_unit(digits, scale) <= 10_000_000_000_000_000,
{
    if scale < price_places(digits) {
        lemma_pow10((price_places(digits) - scale) as nat);
    }
}

/// `ticks` tick sizes, rounded to the decimals that the instrument shows.
pub open spec fn grid_price(tick_size: int, digits: u32, scale: u32, ticks: int) -> int {
    div_round(ticks * tick_size, scale_unit(digits, scale)) * scale_unit(digits, scale)
}

/// A lot step counts as reached a billionth of it early.
pub const LOT_HAIR: i128 = 1_000_000_000;

/// Whole steps in `qty`, one that lacks no more than a billionth included, as a quantity.
pub open spec fn lots_of(step: int, qty: int) -> int {
    ((qty * LOT_HAIR + step) / (step * LOT_HAIR)) * step
}

/// `qty` to the tenth decimal place, with sixteen digits.
pub open spec fn on_qty_grid(qty: int, digits: u32) -> int {
    div_round(wide_qty(qty, digits), QTY_GRID as int) * QTY_GRID
}

/// The whole `step`s that `qty` holds, to the tenth decimal place, as a quantity of at most `max`; 0
/// when it is below `min` by a trillionth or more. Without a step the quantity is taken as it is.
pub open spec fn lot_floor(digits: u32, step: int, min: int, max: int, qty: int) -> int {
    if step <= 0 {
        qty
    } else {
        let w = on_qty_grid(lots_of(step, qty), digits);
        if w < wide_qty(min, digits) - FLAT_QTY {
            0
        } else {
            clamp64(min_int(w / pow10(price_places(digits) as nat), max))
        }
    }
}

/// The quantity lacks no more than a billionth of a step to a whole number of steps.
pub open spec fn a_hair_below(step: int, qty: int) -> bool {
    qty % step != 0 && (step - qty % step) * LOT_HAIR <= step
}

/// The steps of a quantity that is not a hair below a whole number of them are those in it; a step
/// that is a hair away is counted.
pub proof fn lemma_lots_of(step: int, qty: int)
    requires
        step > 0,
    ensures
        lots_of(step, qty) == (qty / step) * step + if a_hair_below(step, qty) {
            step
        } else {
            0
        },
        qty - step < lots_of(step, qty),
        lots_of(step, qty) * LOT_HAIR <= qty * LOT_HAIR + step,
{
    let h = LOT_HAIR as int;
    let k = qty / step;
    let m = qty % step;
    let d = step * h;
    assert(qty == k * step + m && 0 <= m < step) by (nonlinear_arith)
        requires
            step > 0,
            k == qty / step,
            m == qty % step,
    ;
    let up = a_hair_below(step, qty);
    let n = if up { k + 1 } else { k };
    let x = qty * h + step;
    assert(x == k * d + (m * h + step)) by (nonlinear_arith)
        requires
            qty == k * step + m,
            d == step * h,
            x == qty * h + step,
    ;
    assert((k + 1) * d == k * d + d) by (nonlinear_arith);
    assert((step - m) * h == d - m * h) by (nonlinear_arith)
        requires
            d == step * h,
    ;
    assert(m * h <= (step - 1) * h) by (nonlinear_arith)
        requires
            m <= step - 1,
            h > 0,
    ;
    assert((step - 1) * h == d - h) by (nonlinear_arith)
        requires
            d == step * h,
    ;
    assert(m * h >= 0) by (nonlinear_arith)
        requires
            m >= 0,
            h > 0,
    ;
    assert(d >= 2 * step) by (nonlinear_arith)
        requires
            d == step * h,
            h >= 2,
            step > 0,
    ;
    assert(n * d <= x < n * d + d);
    lemma_fundamental_div_mod_converse(x, d, n, x - n * d);
    assert((k + 1) * step == k * step + step) by (nonlinear_arith);
    assert((n * step) * h == n * d) by (nonlinear_arith)
        requires
            d == step * h,
    ;
}

/// Where quantities have no more than ten digits, every one is on the grid of quantities.
pub proof fn lemma_qty_grid(qty: int, digits: u32)
    ensures
        digits >= 6 ==> on_qty_grid(qty, digits) == wide_qty(qty, digits),
        on_qty_grid(qty, digits) / pow10(price_places(digits) as nat) * pow10(price_places(digits) as nat) == on_qty_grid(qty, digits),
        on_qty_grid(qty, digits) <= wide_qty(qty, digits) + QTY_GRID,
        on_qty_grid(qty, digits) >= wide_qty(qty, digits) - QTY_GRID,
        qty >= 0 ==> on_qty_grid(qty, digits) >= 0,
{
    let p = price_places(digits);
    let u = pow10(p as nat);
    let g = QTY_GRID as int;
    let w = wide_qty(qty, digits);
    let r = div_round(w, g);
    lemma_pow10(p as nat);
    lemma_round_to_near(w, g);
    if qty >= 0 {
        assert(w >= 0) by (nonlinear_arith)
            requires
                w == qty * u,
                qty >= 0,
                u >= 1,
        ;
        lemma_div_round_monotone(0, w, g);
        lemma_div_round_exact(0, g);
    }
    reveal_with_fuel(pow10, 7);
    if p >= 6 {
        lemma_pow10_split(6, p as nat);
        let v = pow10((p - 6) as nat);
        assert(w == (qty * v) * g) by (nonlinear_arith)
            requires
                w == qty * u,
                u == g * v,
        ;
        lemma_div_round_exact(qty * v, g);
        lemma_div_round_exact(qty, u);
        assert(qty * u == w);
    } else {
        lemma_pow10_split(p as nat, 6);
        let v = pow10((6 - p) as nat);
        assert(r * g == (r * v) * u) by (nonlinear_arith)
            requires
                g == u * v,
        ;
        lemma_div_round_exact(r * v, u);
    }
}

impl SymbolMeta {
    /// Same value, field by field.
    pub fn copy(&self) -> (r: SymbolMeta)
        ensures
            r == *self,
    {
        SymbolMeta {
            id: self.id,
            name: self.name.clone(),
            base_coin: self.base_coin.clone(),
            quote_coin: self.quote_coin.clone(),
            tick_size: self.tick_size,
            qty_step: self.qty_step,
            min_qty: self.min_qty,
            max_qty: self.max_qty,
            min_notional: self.min_notional,
            price_scale: self.price_scale,
            price_digits: self.price_digits,
            turnover_24h: self.turnover_24h,
        }
    }

    pub open spec fn spec_price_to_ticks(&self, price: int) -> int {
        div_round(price, self.tick_size as int)
    }

    pub open spec fn spec_ticks_to_price(&self, ticks: int) -> int {
        clamp64(grid_price(self.tick_size as int, self.price_digits, self.price_scale, ticks))
    }

    pub open spec fn spec_round_qty_down(&self, qty: int) -> int {
        lot_floor(self.price_digits, self.qty_step as int, self.min_qty as int, self.max_qty as int, qty)
    }

    pub open spec fn spec_tick_bps(&self, price: int) -> int {
        if price <= 0 {
            0
        } else {
            clamp64(div_round(self.tick_size * BPS_ONE, price))
        }
    }

    pub fn price_to_ticks(&self, price: i64) -> (r: i64)
        requires
            self.tick_size > 0,
        ensures
            r == self.spec_price_to_ticks(price as int),
    {
        proof {
            lemma_ticks_fit(price as int, self.tick_size as int);
        }
        round_div(price as i128, self.tick_size as i128) as i64
    }

    pub fn ticks_to_price(&self, ticks: i64) -> (r: i64)
        ensures
            r == self.spec_ticks_to_price(ticks as int),
    {
        let p: i128 = mul64(ticks, self.tick_size);
        sat64(round_to_scale(p, self.price_digits, self.price_scale))
    }

    pub fn round_price(&self, price: i64) -> (r: i64)
        requires
            self.tick_size > 0,
        ensures
            r == self.spec_ticks_to_price(self.spec_price_to_ticks(price as int)),
    {
        let t: i64 = self.price_to_ticks(price);
        self.ticks_to_price(t)
    }

    /// Round quantity DOWN to the lot step; returns 0 if below min_qty.
    pub fn round_qty_down(&self, qty: i64) -> (r: i64)
        ensures
            r == self.spec_round_qty_down(qty as int),
    {
        if self.qty_step <= 0 {
            return qty;
        }
        let step: i128 = self.qty_step as i128;
        let steps: i128 = floor_div(qty as i128 * LOT_HAIR + step, step * LOT_HAIR);
        proof {
            lemma_lots_of(step as int, qty as int);
            assert(lots_of(step as int, qty as int) == steps * step);
        }
        let q: i128 = steps * step;
        let w: i128 = round_div(widen(q, self.price_digits), QTY_GRID);
        proof {
            lemma_qty_grid(q as int, self.price_digits);
        }
        let w: i128 = w * QTY_GRID;
        if w < widen(self.min_qty as i128, self.price_digits) - FLAT_QTY {
            return 0;
        }
        let u: i128 = power_of_ten(places_of_price(self.price_digits));
        let x: i128 = floor_div(w, u);
        proof {
            lemma_div_bound(w as int, u as int, abs_int(w as int));
        }
        if x <= self.max_qty as i128 {
            sat64(x)
        } else {
            self.max_qty
        }
    }

    pub fn tick_bps(&self, price: i64) -> (r: i64)
        ensures
            r == self.spec_tick_bps(price as int),
    {
        if price <= 0 {
            0
        } else {
            sat64(round_div((self.tick_size as i128) * BPS_ONE, price as i128))
        }
    }
}

pub(crate) proof fn lemma_ticks_fit(a: int, b: int)
    requires
        i64::MIN <= a <= i64::MAX,
        b > 0,
    ensures
        i64::MIN <= div_round(a, b) <= i64::MAX,
{
    if a >= 0 {
        lemma_div_bound(a, b, a);
    } else {
        lemma_div_bound(a, b, -a);
        assert(div_round(a, b) <= 0) by {
            assert((2 * (-a) + b) / (2 * b) >= 0) by (nonlinear_arith)
                requires
                    b > 0,
                    a < 0,
            ;
        }
    }
}

/// `p` rounded to the decimals that the instrument shows.
pub fn round_to_scale(p: i128, digits: u32, scale: u32) -> (r: i128)
    requires
        -0x4000_0000_0000_0000_0000_0000_0000_0000 <= p <= 0x4000_0000_0000_0000_0000_0000_0000_0000,
    ensures
        r == div_round(p as int, scale_unit(digits, scale)) * scale_unit(digits, scale),
{
    let u: i128 = decimal_unit(digits, scale);
    let k: i128 = round_div(p, u);
    proof {
        lemma_round_to_near(p as int, u as int);
    }
    k * u
}

/// Rounding to a multiple of `u` moves a number by less than `u`.
pub proof fn lemma_round_to_near(p: int, u: int)
    requires
        u > 0,
    ensures
        p - u <= div_round(p, u) * u <= p + u,
{
    let n = if p >= 0 { p } else { -p };
    let k = (2 * n + u) / (2 * u);
    assert(n - u <= k * u <= n + u) by (nonlinear_arith)
        requires
            u > 0,
            n >= 0,
            k == (2 * n + u) / (2 * u),
    ;
    if p < 0 {
        assert((-k) * u == -(k * u)) by (nonlinear_arith);
    }
}

/// Where quantities have no more than ten digits, a lot-rounded quantity is a whole number of steps
/// unless the upper limit cuts it, and is not negative. It exceeds what was asked for only where that
/// is a hair below a whole number of steps, and then by no more than the hair; a whole number of
/// steps within the limits is kept as it is.
pub proof fn law_round_qty_down(digits: u32, step: i64, min: i64, max: i64, qty: i64)
    requires
        digits >= 6,
        step > 0,
        qty >= 0,
        min >= 0,
        max >= 0,
    ensures
        ({
            let r = lot_floor(digits, step as int, min as int, max as int, qty as int);
            &&& 0 <= r <= max
            &&& r % (step as int) == 0 || r == max
            &&& r * LOT_HAIR <= qty * LOT_HAIR + step
            &&& !a_hair_below(step as int, qty as int) ==> r <= qty
            &&& qty as int % (step as int) == 0 && min <= qty <= max ==> r == qty
        }),
{
    let s = step as int;
    let q = lots_of(s, qty as int);
    let k = qty as int / s;
    lemma_lots_of(s, qty as int);
    lemma_qty_grid(q, digits);
    lemma_wide(q, min as int, digits);
    let u = pow10(price_places(digits) as nat);
    lemma_div_round_exact(q, u);
    assert(q * u == wide_qty(q, digits));
    assert(0 <= k * s <= qty && (qty as int % s == 0 ==> k * s == qty)) by (nonlinear_arith)
        requires
            s > 0,
            qty >= 0,
            k == qty as int / s,
    ;
    assert(k * s + s == (k + 1) * s) by (nonlinear_arith);
    lemma_div_round_exact(k, s);
    lemma_div_round_exact(k + 1, s);
    lemma_mod_multiples_basic(k, s);
    lemma_mod_multiples_basic(k + 1, s);
    lemma_mod_multiples_basic(0, s);
    assert(0 * s == 0);
}

/// Best bid / offer snapshot.
#[derive(Clone, Copy, Debug, PartialEq, Eq, Structural)]
pub struct Bbo {
    pub ts: i64,
    pub bid: i64,
    pub ask: i64,
    pub bid_qty: i64,
    pub ask_qty: i64,
}

impl Default for Bbo {
    fn default() -> (r: Bbo)
        ensures
            r == Bbo::spec_default(),
    {
        Bbo { ts: 0, bid: 0, ask: 0, bid_qty: 0, ask_qty: 0 }
    }
}

impl Bbo {
    pub open spec fn spec_default() -> Bbo {
        Bbo { ts: 0, bid: 0, ask: 0, bid_qty: 0, ask_qty: 0 }
    }

    /// Both sides are there and the market is not crossed.
    pub open spec fn valid(self) -> bool {
        self.bid > 0 && self.ask > 0 && self.ask > self.bid
    }

    /// Prices and sizes are not negative.
    pub open spec fn sane(self) -> bool {
        self.bid >= 0 && self.ask >= 0 && self.bid_qty >= 0 && self.ask_qty >= 0
    }

    pub open spec fn spec_mid(self) -> int {
        (self.bid + self.ask) / 2
    }

    pub open spec fn spec_spread_bps(self) -> int {
        if self.bid + self.ask > 0 {
            clamp64(div_round(2 * ((self.ask - self.bid) * BPS_ONE), self.bid + self.ask))
        } else {
            0
        }
    }

    pub open spec fn spec_imbalance(self) -> int {
        let tot = self.bid_qty + self.ask_qty;
        if tot > 0 {
            clamp64(div_round((self.bid_qty - self.ask_qty) * ONE, tot))
        } else {
            0
        }
    }

    pub fn is_valid(&self) -> (r: bool)
        ensures
            r == self.valid(),
    {
        self.bid > 0 && self.ask > 0 && self.ask > self.bid
    }

    pub fn mid(&self) -> (r: i64)
        ensures
            r == self.spec_mid(),
    {
        floor_div(self.bid as i128 + self.ask as i128, 2) as i64
    }

    pub fn spread_bps(&self) -> (r: i64)
        ensures
            r == self.spec_spread_bps(),
    {
        let sum: i128 = self.bid as i128 + self.ask as i128;
        if sum > 0 {
            sat64(round_div(2 * ((self.ask as i128 - self.bid as i128) * BPS_ONE), sum))
        } else {
            0
        }
    }

    /// Size imbalance at the top of book in [-1, 1] (positive = more bid size).
    pub fn imbalance(&self) -> (r: i64)
        ensures
            r == self.spec_imbalance(),
    {
        let tot: i128 = self.bid_qty as i128 + self.ask_qty as i128;
        if tot > 0 {
            sat64(round_div((self.bid_qty as i128 - self.ask_qty as i128) * ONE128, tot))
        } else {
            0
        }
    }
}

/// The mid of a valid quote lies between the two prices, and the size imbalance of a quote
/// without negative sizes lies in [-1, 1].
pub proof fn law_bbo_derived(b: Bbo)
    ensures
        b.valid() ==> b.bid <= b.spec_mid() < b.ask,
        b.sane() ==> -ONE <= b.spec_imbalance() <= ONE,
{
    if b.sane() && b.bid_qty + b.ask_qty > 0 {
        lemma_ratio_unit(b.bid_qty as int, b.ask_qty as int);
    }
}

/// `(x - y) / (x + y)` is at most one in magnitude when neither part is negative.
pub proof fn lemma_ratio_unit(x: int, y: int)
    requires
        x >= 0,
        y >= 0,
        x + y > 0,
    ensures
        -ONE <= div_round((x - y) * ONE, x + y) <= ONE,
{
    let t = x + y;
    let n = if x >= y { x - y } else { y - x };
    assert((2 * (n * 100_000_000) + t) / (2 * t) <= 100_000_000) by (nonlinear_arith)
        requires
            0 <= n <= t,
            t > 0,
    ;
    assert((2 * (n * 100_000_000) + t) / (2 * t) >= 0) by (nonlinear_arith)
        requires
            0 <= n <= t,
            t > 0,
    ;
}

#[derive(Clone, Copy, Debug, PartialEq, Eq, Structural)]
pub struct Trade {
    pub ts: i64,
    pub price: i64,
    pub qty: i64,
    /// Side of the taker (aggressor).
    pub taker_side: Side,
}

/// Events flowing from a feed (WebSocket, synthetic generator or replay) into the engine.
#[derive(Clone, Debug)]
pub enum MarketEvent {
    /// Level-2 update (snapshot or delta) from the orderbook topic.
    Book { sym: SymbolId, ts: i64, snapshot: bool, bids: Vec<(i64, i64)>, asks: Vec<(i64, i64)> },
    /// Direct top-of-book update (replay and synthetic feed).
    Bbo { sym: SymbolId, bbo: Bbo },
    Trades { sym: SymbolId, trades: Vec<Trade> },
    /// 24h turnover refresh: (symbol id, turnover).
    Turnover(Vec<(SymbolId, i64)>),
    /// Top of book of a leading venue; a lower rank is a better provider.
    Reference { sym: SymbolId, ts: i64, bid: i64, ask: i64, rank: u8 },
    /// Connection status message for logging / dashboard.
    Status { conn: usize, msg: String },
}

/// Why an order was placed: helps analytics separate entries from exits.
#[derive(Clone, Copy, Debug, PartialEq, Eq, Structural)]
pub enum Purpose {
    Entry,
    Exit,
    StaleExit,
    StopLoss,
}

impl Purpose {
    pub open spec fn spec_as_str(self) -> &'static str {
        match self {
            Purpose::Entry => "entry",
            Purpose::Exit => "exit",
            Purpose::StaleExit => "stale_exit",
            Purpose::StopLoss => "stop_loss",
        }
    }

    pub fn as_str(self) -> (r: &'static str)
        ensures
            r == self.spec_as_str(),
    {
        match self {
            Purpose::Entry => "entry",
            Purpose::Exit => "exit",
            Purpose::StaleExit => "stale_exit",
            Purpose::StopLoss => "stop_loss",
        }
    }
}

/// A (partial) execution of a paper order.
#[derive(Clone, Copy, Debug)]
pub struct Fill {
    pub order_id: u64,
    pub sym: SymbolId,
    pub side: Side,
    pub price: i64,
    pub qty: i64,
    /// Sixteen fractional digits.
    pub fee: i128,
    pub ts: i64,
    pub is_maker: bool,
    pub purpose: Purpose,
    /// Market context at the moment of the fill.
    pub bid: i64,
    pub ask: i64,
    /// Order context at placement time.
    pub placed_ts: i64,
    pub mid_at_place: i64,
    pub spread_bps_at_place: i64,
    pub queue_ahead_initial: i64,
    pub inventory_before: i64,
    pub param_version: u32,
    /// Fractional digits of the prices.
    pub price_digits: u32,
}

/// Final state of an order (written once, when it leaves the book).
#[derive(Clone, Copy, Debug)]
pub struct OrderDone {
    pub order_id: u64,
    pub sym: SymbolId,
    pub side: Side,
    pub price: i64,
    pub qty: i64,
    pub filled: i64,
    pub ts_created: i64,
    pub ts_done: i64,
    pub status: &'static str,
    pub purpose: Purpose,
    pub queue_ahead_initial: i64,
    pub spread_bps_at_place: i64,
    pub param_version: u32,
    /// Fractional digits of the prices.
    pub price_digits: u32,
}

/// Text equality.
pub fn str_eq(a: &str, b: &str) -> (r: bool)
    ensures
        r == (a@ == b@),
{
    a.to_owned() == b.to_owned()
}

// ------------------------------------------------------------------------------
// Clock
// ------------------------------------------------------------------------------

/// `std::time::SystemTime::now`, as milliseconds since the Unix epoch; none when the clock stands
/// before it. Nothing is claimed of what the clock shows.
#[verifier::external_body]
fn clock_ms() -> (r: Option<u128>) {
    std::time::SystemTime::now().duration_since(std::time::UNIX_EPOCH).ok().map(|d| d.as_millis())
}

/// Milliseconds since the epoch in the type of timestamps, wrapping around at its ends; 0 before the
/// epoch.
pub open spec fn spec_epoch_ms(t: Option<u128>) -> int {
    match t {
        Some(ms) => signed_of(ms as int % 0x1_0000_0000_0000_0000),
        None => 0,
    }
}

pub fn epoch_ms(t: Option<u128>) -> (r: i64)
    ensures
        r == spec_epoch_ms(t),
{
    match t {
        Some(ms) => to_signed((ms % 0x1_0000_0000_0000_0000) as u64),
        None => 0,
    }
}

/// The time now, in milliseconds since the epoch.
pub fn now_ms() -> (r: i64)
    ensures
        exists|t: Option<u128>| r == #[trigger] spec_epoch_ms(t),
{
    let t: Option<u128> = clock_ms();
    epoch_ms(t)
}

} // verus!
