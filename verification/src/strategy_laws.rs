//! What every set of quotes keeps: exits never flip a position, entries stay within the cap, a
//! blocked symbol only reduces, passive quotes never cross, inside quotes never queue.

use vstd::prelude::*;
use crate::strategy::{ceil_tick, ceil_ticks, floor_tick, floor_ticks, snap, QuoteInput};
use crate::types::{a_hair_below, grid_price, lemma_lots_of, lemma_qty_grid, lemma_scale_unit, lots_of, scale_unit, Purpose, Side, SymbolMeta};
use crate::units::{abs_int, clamp64, div_round, lemma_div_round_exact, lemma_div_round_monotone, lemma_wide, min_int, pow10, price_places, BPS_ONE, ONE, TWO63};

verus! {

/// Every displayed tick is a whole number of the last decimal place.
pub open spec fn tick_shows(meta: SymbolMeta) -> bool {
    meta.tick_size > 0 && (meta.tick_size as int) % scale_unit(meta.price_digits, meta.price_scale) == 0
}

/// The market quotes in whole ticks.
pub open spec fn market_on_grid(inp: QuoteInput) -> bool {
    &&& tick_shows(*inp.meta)
    &&& (inp.bbo.bid as int) % inp.tick() == 0
    &&& (inp.bbo.ask as int) % inp.tick() == 0
}

/// Fair value, and what a quote keeps from it, lie in the range of prices.
pub open spec fn fair_in_range(inp: QuoteInput) -> bool {
    abs_int(inp.fair()) + abs_int(inp.req_half()) + abs_int(inp.inside_half()) + 2 * (inp.tick() * ONE) <= i64::MAX * ONE
}

/// Whole lots of the amount are what is in it: quantities have no more than ten digits, and the amount
/// is not a hair below a whole number of lots.
pub open spec fn plain_lots(meta: SymbolMeta, qty: int) -> bool {
    meta.price_digits >= 6 && (meta.qty_step > 0 ==> !a_hair_below(meta.qty_step as int, qty))
}

/// Whole lots of an amount never exceed it.
pub(crate) proof fn lemma_lot_floor(m: SymbolMeta, qty: int)
    requires
        i64::MIN <= qty <= i64::MAX,
        plain_lots(m, qty),
    ensures
        m.spec_round_qty_down(qty) > 0 ==> m.spec_round_qty_down(qty) <= qty,
{
    let step = m.qty_step as int;
    if step > 0 {
        let k = qty / step;
        let q = lots_of(step, qty);
        lemma_lots_of(step, qty);
        lemma_qty_grid(q, m.price_digits);
        lemma_wide(q, 0, m.price_digits);
        lemma_div_round_exact(q, pow10(price_places(m.price_digits) as nat));
        assert(k * step <= qty) by (nonlinear_arith)
            requires
                step > 0,
                k == qty / step,
        ;
    }
}

/// A quote that closes a position never exceeds it: the position is not flipped through zero. (Where
/// the position lacks a hair to a whole number of lots, the quote is for that whole number.)
pub proof fn law_exit_within_position(inp: QuoteInput)
    requires
        plain_lots(*inp.meta, clamp64(abs_int(inp.position_qty as int))),
    ensures
        inp.quotes().bid matches Some(q) ==> q.side == Side::Buy && (q.purpose != Purpose::Entry ==> inp.position_qty <= 0 && 0 < q.qty
            <= abs_int(inp.position_qty as int)),
        inp.quotes().ask matches Some(q) ==> q.side == Side::Sell && (q.purpose != Purpose::Entry ==> inp.position_qty >= 0 && 0 < q.qty
            <= abs_int(inp.position_qty as int)),
{
    reveal(QuoteInput::quotes);
    lemma_lot_floor(*inp.meta, clamp64(abs_int(inp.position_qty as int)));
}

/// Without leave to take new exposure, or when the symbol may only be reduced, every quote closes
/// part of the position.
pub proof fn law_no_new_exposure(inp: QuoteInput)
    requires
        !inp.allow_new_exposure || inp.reduce_only,
    ensures
        inp.quotes().bid matches Some(q) ==> q.purpose != Purpose::Entry && inp.position_qty <= 0,
        inp.quotes().ask matches Some(q) ==> q.purpose != Purpose::Entry && inp.position_qty >= 0,
{
    reveal(QuoteInput::quotes);
}

/// A stop-loss or a stale position leaves on one side only, and nothing else is quoted.
pub proof fn law_forced_exit_alone(inp: QuoteInput)
    requires
        inp.bbo.valid(),
        inp.is_stopped() || inp.is_stale(),
    ensures
        inp.quotes().bid is None || inp.quotes().ask is None,
        inp.quotes().bid matches Some(q) ==> inp.position_qty <= 0 && q.purpose == if inp.is_stopped() {
            Purpose::StopLoss
        } else {
            Purpose::StaleExit
        },
        inp.quotes().ask matches Some(q) ==> inp.position_qty >= 0 && q.purpose == if inp.is_stopped() {
            Purpose::StopLoss
        } else {
            Purpose::StaleExit
        },
{
    reveal(QuoteInput::quotes);
}

/// An entry, once filled at the mid, leaves the position within its cap.
pub proof fn law_entry_within_cap(inp: QuoteInput)
    requires
        inp.bbo.valid(),
        plain_lots(*inp.meta, clamp64(inp.room2(Side::Buy) / inp.mid2())),
        plain_lots(*inp.meta, clamp64(inp.room2(Side::Sell) / inp.mid2())),
    ensures
        inp.quotes().bid matches Some(q) ==> (q.purpose == Purpose::Entry ==> (inp.position_qty + q.qty) * inp.mid2() <= 2 * (
        inp.params.max_position_notional_usd * ONE)),
        inp.quotes().ask matches Some(q) ==> (q.purpose == Purpose::Entry ==> (q.qty - inp.position_qty) * inp.mid2() <= 2 * (
        inp.params.max_position_notional_usd * ONE)),
{
    reveal(QuoteInput::quotes);
    lemma_entry_side(inp, Side::Buy, inp.bid_price(), inp.block_bid());
    lemma_entry_side(inp, Side::Sell, inp.ask_price(), inp.block_ask());
    let p = inp.position_qty as int;
    let m2 = inp.mid2();
    if let Some(q) = inp.quotes().bid {
        assert((p + q.qty) * m2 == p * m2 + q.qty * m2) by (nonlinear_arith);
    }
    if let Some(q) = inp.quotes().ask {
        assert((q.qty - p) * m2 == q.qty * m2 - p * m2) by (nonlinear_arith);
    }
}

proof fn lemma_entry_side(inp: QuoteInput, side: Side, price: int, blocked: bool)
    requires
        inp.bbo.valid(),
        plain_lots(*inp.meta, clamp64(inp.room2(side) / inp.mid2())),
    ensures
        inp.side_quote(side, price, blocked) matches Some(q) ==> (q.purpose == Purpose::Entry ==> q.qty * inp.mid2() <= 2 * (
        inp.params.max_position_notional_usd * ONE) - side.spec_sign() * (inp.position_qty * inp.mid2())),
{
    if let Some(q) = inp.side_quote(side, price, blocked) {
        if q.purpose == Purpose::Entry {
            let m = *inp.meta;
            let m2 = inp.mid2();
            let room = inp.room2(side);
            let arg = clamp64(room / m2);
            lemma_lot_floor(m, arg);
            assert(room >= -TWO63 * ONE);
            assert(room / m2 >= -TWO63 * ONE) by (nonlinear_arith)
                requires
                    m2 > 0,
                    room >= -TWO63 * ONE,
            ;
            assert(q.qty <= room / m2);
            assert(q.qty * m2 <= room) by (nonlinear_arith)
                requires
                    m2 > 0,
                    q.qty <= room / m2,
            ;
        }
    }
}

/// `k` ticks as a price.
pub(crate) proof fn lemma_tick_price(meta: SymbolMeta, k: int)
    requires
        tick_shows(meta),
    ensures
        meta.spec_ticks_to_price(clamp64(k)) == clamp64(k * meta.tick_size),
        snap(meta, k * meta.tick_size) == clamp64(k * meta.tick_size),
{
    let t = meta.tick_size as int;
    let u = scale_unit(meta.price_digits, meta.price_scale);
    lemma_scale_unit(meta.price_digits, meta.price_scale);
    let c = clamp64(k);
    let n = t / u;
    assert(t == n * u) by (nonlinear_arith)
        requires
            t % u == 0,
            n == t / u,
            u > 0,
    ;
    assert(c * t == (c * n) * u) by (nonlinear_arith)
        requires
            t == n * u,
    ;
    lemma_div_round_exact(c * n, u);
    assert(grid_price(t, meta.price_digits, meta.price_scale, c) == c * t);
    lemma_div_round_exact(k, t);
    if k > i64::MAX {
        assert(c * t >= c && k * t >= c) by (nonlinear_arith)
            requires
                t >= 1,
                k >= c,
                c > 0,
        ;
    } else if k < i64::MIN {
        assert(c * t <= c && k * t <= c) by (nonlinear_arith)
            requires
                t >= 1,
                k <= c,
                c < 0,
        ;
    }
}

/// `x` is a whole number of ticks.
pub(crate) proof fn lemma_multiple(x: int, t: int) -> (k: int)
    requires
        t > 0,
        x % t == 0,
    ensures
        x == k * t,
{
    let k = x / t;
    assert(x == k * t) by (nonlinear_arith)
        requires
            t > 0,
            x % t == 0,
            k == x / t,
    ;
    k
}

/// Rounding down to a tick, in the range of prices: the result is whole ticks, at most a
/// billionth of a tick above the price.
pub(crate) proof fn lemma_floor_tick(meta: SymbolMeta, px16: int)
    requires
        tick_shows(meta),
        -(i64::MAX * ONE) <= px16 - 2 * (meta.tick_size * ONE),
        px16 + 2 * (meta.tick_size * ONE) <= i64::MAX * ONE,
    ensures
        floor_tick(meta, px16) == floor_ticks(px16, meta.tick_size as int) * meta.tick_size,
        10 * (floor_tick(meta, px16) * ONE) <= 10 * px16 + meta.tick_size,
        10 * ((floor_tick(meta, px16) + meta.tick_size) * ONE) > 10 * px16 + meta.tick_size,
        -i64::MAX <= floor_tick(meta, px16),
{
    let t = meta.tick_size as int;
    let k = floor_ticks(px16, t);
    let d = 10 * (t * ONE);
    assert(k * d <= 10 * px16 + t < k * d + d) by (nonlinear_arith)
        requires
            d > 0,
            k == (10 * px16 + t) / d,
    ;
    assert(k * d == 10 * ((k * t) * ONE)) by (nonlinear_arith)
        requires
            d == 10 * (t * ONE),
    ;
    assert(-i64::MAX <= k * t <= i64::MAX);
    lemma_tick_price(meta, k);
}

pub(crate) proof fn lemma_ceil_tick(meta: SymbolMeta, px16: int)
    requires
        tick_shows(meta),
        -(i64::MAX * ONE) <= px16 - 2 * (meta.tick_size * ONE),
        px16 + 2 * (meta.tick_size * ONE) <= i64::MAX * ONE,
    ensures
        ceil_tick(meta, px16) == ceil_ticks(px16, meta.tick_size as int) * meta.tick_size,
        10 * (ceil_tick(meta, px16) * ONE) >= 10 * px16 - meta.tick_size,
        10 * ((ceil_tick(meta, px16) - meta.tick_size) * ONE) < 10 * px16 - meta.tick_size,
{
    let t = meta.tick_size as int;
    let k = ceil_ticks(px16, t);
    lemma_floor_tick(meta, -px16);
    let f = floor_ticks(-px16, t);
    assert(k * t == -(f * t)) by (nonlinear_arith)
        requires
            k == -f,
    ;
    lemma_tick_price(meta, k);
}

/// The bid before the skew is a whole number of ticks.
pub(crate) proof fn lemma_bid_plan_grid(inp: QuoteInput) -> (k: int)
    requires
        inp.bbo.valid(),
        market_on_grid(inp),
        fair_in_range(inp),
    ensures
        inp.bid_plan().px == k * inp.tick(),
{
    reveal(QuoteInput::bid_plan);
    let t = inp.tick();
    let m = *inp.meta;
    let kb = lemma_multiple(inp.bbo.bid as int, t);
    let ka = lemma_multiple(inp.bbo.ask as int, t);
    assert((kb + 1) * t == inp.bbo.bid + t) by (nonlinear_arith)
        requires
            inp.bbo.bid == kb * t,
    ;
    assert((ka - 1) * t == inp.bbo.ask - t) by (nonlinear_arith)
        requires
            inp.bbo.ask == ka * t,
    ;
    if inp.is_inside() {
        let px = inp.fair() - inp.inside_half();
        lemma_floor_tick(m, px);
        lemma_tick_price(m, ka - 1);
        let b = min_int(floor_tick(m, px), snap(m, inp.bbo.ask - t));
        if 2 * b > 2 * inp.bbo.bid + t {
            if floor_tick(m, px) <= snap(m, inp.bbo.ask - t) {
                floor_ticks(px, t)
            } else {
                ka - 1
            }
        } else if inp.improves() {
            kb + 1
        } else {
            kb
        }
    } else if inp.base_bid() * ONE > inp.fair() - inp.req_half() {
        lemma_floor_tick(m, inp.fair() - inp.req_half());
        floor_ticks(inp.fair() - inp.req_half(), t)
    } else if inp.improves() {
        kb + 1
    } else {
        kb
    }
}

pub(crate) proof fn lemma_ask_plan_grid(inp: QuoteInput) -> (k: int)
    requires
        inp.bbo.valid(),
        market_on_grid(inp),
        fair_in_range(inp),
    ensures
        inp.ask_plan().px == k * inp.tick(),
{
    reveal(QuoteInput::ask_plan);
    let t = inp.tick();
    let m = *inp.meta;
    let kb = lemma_multiple(inp.bbo.bid as int, t);
    let ka = lemma_multiple(inp.bbo.ask as int, t);
    assert((kb + 1) * t == inp.bbo.bid + t) by (nonlinear_arith)
        requires
            inp.bbo.bid == kb * t,
    ;
    assert((ka - 1) * t == inp.bbo.ask - t) by (nonlinear_arith)
        requires
            inp.bbo.ask == ka * t,
    ;
    if inp.is_inside() {
        let px = inp.fair() + inp.inside_half();
        lemma_ceil_tick(m, px);
        lemma_tick_price(m, kb + 1);
        let a = crate::units::max_int(ceil_tick(m, px), snap(m, inp.bbo.bid + t));
        if 2 * a < 2 * inp.bbo.ask - t {
            if ceil_tick(m, px) >= snap(m, inp.bbo.bid + t) {
                ceil_ticks(px, t)
            } else {
                kb + 1
            }
        } else if inp.improves() {
            ka - 1
        } else {
            ka
        }
    } else if inp.base_ask() * ONE < inp.fair() + inp.req_half() {
        lemma_ceil_tick(m, inp.fair() + inp.req_half());
        ceil_ticks(inp.fair() + inp.req_half(), t)
    } else if inp.improves() {
        ka - 1
    } else {
        ka
    }
}

/// The bid after the skew stays below the ask, and the ask above the bid.
proof fn lemma_prices_passive(inp: QuoteInput)
    requires
        inp.bbo.valid(),
        market_on_grid(inp),
        fair_in_range(inp),
    ensures
        i64::MIN <= inp.bid_price() < inp.bbo.ask,
        inp.bbo.bid < inp.ask_price() <= i64::MAX,
{
    reveal(QuoteInput::bid_price);
    reveal(QuoteInput::ask_price);
    let t = inp.tick();
    let m = *inp.meta;
    let kb = lemma_multiple(inp.bbo.bid as int, t);
    let ka = lemma_multiple(inp.bbo.ask as int, t);
    let k = lemma_bid_plan_grid(inp);
    let j = lemma_ask_plan_grid(inp);
    let s = inp.skew_ticks();
    assert(k * t - s * t == (k - s) * t) by (nonlinear_arith);
    assert(j * t - s * t == (j - s) * t) by (nonlinear_arith);
    assert((kb + 1) * t == inp.bbo.bid + t) by (nonlinear_arith)
        requires
            inp.bbo.bid == kb * t,
    ;
    assert((ka - 1) * t == inp.bbo.ask - t) by (nonlinear_arith)
        requires
            inp.bbo.ask == ka * t,
    ;
    lemma_tick_price(m, k - s);
    lemma_tick_price(m, j - s);
    lemma_tick_price(m, kb);
    lemma_tick_price(m, ka);
    lemma_tick_price(m, kb + 1);
    lemma_tick_price(m, ka - 1);
}

/// A forced exit that does not cross stays passive.
proof fn lemma_forced_passive(inp: QuoteInput)
    requires
        inp.bbo.valid(),
        market_on_grid(inp),
    ensures
        inp.exit_side() == Side::Buy ==> i64::MIN <= inp.forced_price(false) < inp.bbo.ask,
        inp.exit_side() == Side::Sell ==> inp.bbo.bid < inp.forced_price(false) <= i64::MAX,
{
    let t = inp.tick();
    let m = *inp.meta;
    let kb = lemma_multiple(inp.bbo.bid as int, t);
    let ka = lemma_multiple(inp.bbo.ask as int, t);
    assert((kb + 1) * t == inp.bbo.bid + t) by (nonlinear_arith)
        requires
            inp.bbo.bid == kb * t,
    ;
    assert((ka - 1) * t == inp.bbo.ask - t) by (nonlinear_arith)
        requires
            inp.bbo.ask == ka * t,
    ;
    lemma_tick_price(m, kb);
    lemma_tick_price(m, ka);
    lemma_tick_price(m, kb + 1);
    lemma_tick_price(m, ka - 1);
}

/// A quote that is not a taker order never crosses the market.
pub proof fn law_quotes_passive(inp: QuoteInput)
    requires
        inp.bbo.valid(),
        market_on_grid(inp),
        fair_in_range(inp),
    ensures
        inp.quotes().bid matches Some(q) ==> (!q.taker ==> q.price < inp.bbo.ask),
        inp.quotes().ask matches Some(q) ==> (!q.taker ==> q.price > inp.bbo.bid),
{
    reveal(QuoteInput::quotes);
    lemma_prices_passive(inp);
    lemma_forced_passive(inp);
}

/// In inside mode a quote around fair value stands strictly inside the spread: it never queues
/// behind others.
pub proof fn law_inside_never_queues(inp: QuoteInput)
    requires
        inp.bbo.valid(),
        market_on_grid(inp),
        fair_in_range(inp),
        inp.is_inside(),
        !inp.is_stopped(),
        !inp.is_stale(),
        !inp.is_volatile(),
        !inp.is_narrow(),
    ensures
        inp.quotes().bid matches Some(q) ==> inp.bbo.bid < q.price < inp.bbo.ask,
        inp.quotes().ask matches Some(q) ==> inp.bbo.bid < q.price < inp.bbo.ask,
{
    reveal(QuoteInput::quotes);
    lemma_prices_passive(inp);
}

/// Without a position there is nothing to exit and nothing to skew.
pub(crate) proof fn lemma_flat(inp: QuoteInput)
    requires
        inp.bbo.valid(),
        inp.position_qty == 0,
    ensures
        !inp.has_position(),
        inp.skew_ticks() == 0,
        inp.skew_ticks() * inp.tick() == 0,
{
    let m2 = inp.mid2();
    assert(0int * m2 == 0) by (nonlinear_arith);
    assert(!inp.has_position()) by {
        let least = crate::units::max_int(inp.meta.min_notional as int, ONE as int);
        assert(least * ONE > 0);
    }
    if inp.params.max_position_notional_usd > 0 {
        let c = 2 * inp.params.max_position_notional_usd;
        lemma_div_round_exact(0, c);
        assert(0int * c == 0);
    }
    assert(inp.inv_ratio() == 0);
    assert(inp.params.inventory_skew_bps * inp.inv_ratio() == 0) by (nonlinear_arith)
        requires
            inp.inv_ratio() == 0,
    ;
    lemma_div_round_exact(0, ONE as int);
    assert(0int * ONE == 0);
    assert(inp.skew_ticks() * inp.tick() == 0) by (nonlinear_arith)
        requires
            inp.skew_ticks() == 0,
    ;
}

/// A price below `kk` ticks by any amount rounds down to at most `kk` ticks.
pub(crate) proof fn lemma_floor_below(meta: SymbolMeta, px16: int, kk: int)
    requires
        tick_shows(meta),
        (kk * meta.tick_size) * ONE > px16,
        -(i64::MAX * ONE) <= px16 - 2 * (meta.tick_size * ONE),
        px16 + 2 * (meta.tick_size * ONE) <= i64::MAX * ONE,
    ensures
        floor_tick(meta, px16) <= kk * meta.tick_size,
{
    lemma_floor_tick(meta, px16);
    let t = meta.tick_size as int;
    let k = floor_ticks(px16, t);
    assert(k * t < kk * t + t);
    assert(k <= kk) by (nonlinear_arith)
        requires
            k * t < kk * t + t,
            t > 0,
    ;
    assert(k * t <= kk * t) by (nonlinear_arith)
        requires
            k <= kk,
            t > 0,
    ;
}

/// Accepted parameters require a positive spread, so the levels to quote from are uncrossed.
pub(crate) proof fn lemma_base_uncrossed(inp: QuoteInput)
    requires
        inp.bbo.valid(),
        inp.meta.tick_size > 0,
        inp.params.fault() is None,
    ensures
        inp.base_bid() < inp.bbo.ask,
        inp.base_ask() > inp.bbo.bid,
        inp.req_half() >= 0,
{
    assert(inp.required_bps() * inp.mid2() > 0) by (nonlinear_arith)
        requires
            inp.required_bps() > 0,
            inp.mid2() > 0,
    ;
}

proof fn lemma_bid_keeps_edge(inp: QuoteInput)
    requires
        inp.bbo.valid(),
        market_on_grid(inp),
        fair_in_range(inp),
        inp.params.fault() is None,
        inp.position_qty == 0,
        !inp.bid_plan().no_room,
    ensures
        10 * (inp.bid_price() * ONE) <= 10 * (inp.fair() - inp.req_half()) + inp.tick(),
        i64::MIN <= inp.bid_price() <= i64::MAX,
{
    reveal(QuoteInput::bid_plan);
    reveal(QuoteInput::bid_price);
    let t = inp.tick();
    let m = *inp.meta;
    lemma_flat(inp);
    lemma_base_uncrossed(inp);
    let kb = lemma_multiple(inp.bbo.bid as int, t);
    let ka = lemma_multiple(inp.bbo.ask as int, t);
    let k = lemma_bid_plan_grid(inp);
    lemma_tick_price(m, k);
    if inp.is_inside() {
        lemma_floor_tick(m, inp.fair() - inp.inside_half());
        assert((ka - 1) * t == inp.bbo.ask - t) by (nonlinear_arith)
            requires
                inp.bbo.ask == ka * t,
        ;
        lemma_tick_price(m, ka - 1);
    } else if inp.base_bid() * ONE > inp.fair() - inp.req_half() {
        lemma_floor_tick(m, inp.fair() - inp.req_half());
        let kk = if inp.improves() { kb + 1 } else { kb };
        assert((kb + 1) * t == inp.bbo.bid + t) by (nonlinear_arith)
            requires
                inp.bbo.bid == kb * t,
        ;
        lemma_floor_below(m, inp.fair() - inp.req_half(), kk);
    }
}

proof fn lemma_ask_keeps_edge(inp: QuoteInput)
    requires
        inp.bbo.valid(),
        market_on_grid(inp),
        fair_in_range(inp),
        inp.params.fault() is None,
        inp.position_qty == 0,
        !inp.ask_plan().no_room,
    ensures
        10 * (inp.ask_price() * ONE) >= 10 * (inp.fair() + inp.req_half()) - inp.tick(),
        i64::MIN <= inp.ask_price() <= i64::MAX,
{
    reveal(QuoteInput::ask_plan);
    reveal(QuoteInput::ask_price);
    let t = inp.tick();
    let m = *inp.meta;
    lemma_flat(inp);
    lemma_base_uncrossed(inp);
    let kb = lemma_multiple(inp.bbo.bid as int, t);
    let ka = lemma_multiple(inp.bbo.ask as int, t);
    let k = lemma_ask_plan_grid(inp);
    lemma_tick_price(m, k);
    if inp.is_inside() {
        lemma_ceil_tick(m, inp.fair() + inp.inside_half());
        assert((kb + 1) * t == inp.bbo.bid + t) by (nonlinear_arith)
            requires
                inp.bbo.bid == kb * t,
        ;
        lemma_tick_price(m, kb + 1);
    } else if inp.base_ask() * ONE < inp.fair() + inp.req_half() {
        let px = inp.fair() + inp.req_half();
        lemma_ceil_tick(m, px);
        lemma_floor_tick(m, -px);
        let kk = if inp.improves() { ka - 1 } else { ka };
        assert((ka - 1) * t == inp.bbo.ask - t) by (nonlinear_arith)
            requires
                inp.bbo.ask == ka * t,
        ;
        assert((-kk) * t == -(kk * t)) by (nonlinear_arith);
        lemma_floor_below(m, -px, -kk);
        let f = floor_ticks(-px, t);
        assert((-f) * t == -(f * t)) by (nonlinear_arith);
    }
}

/// With no position, each quote around fair value keeps at least half of the required spread from
/// it (to within the rounding tolerance of a billionth of a tick).
pub proof fn law_keeps_edge(inp: QuoteInput)
    requires
        inp.bbo.valid(),
        market_on_grid(inp),
        fair_in_range(inp),
        inp.params.fault() is None,
        inp.position_qty == 0,
    ensures
        inp.quotes().bid matches Some(q) ==> 10 * (q.price * ONE) <= 10 * (inp.fair() - inp.req_half()) + inp.tick(),
        inp.quotes().ask matches Some(q) ==> 10 * (q.price * ONE) >= 10 * (inp.fair() + inp.req_half()) - inp.tick(),
{
    reveal(QuoteInput::quotes);
    lemma_flat(inp);
    if !inp.bid_plan().no_room {
        lemma_bid_keeps_edge(inp);
    }
    if !inp.ask_plan().no_room {
        lemma_ask_keeps_edge(inp);
    }
}

/// Under the volatility guard, or when the spread is too narrow, nothing is quoted but a passive exit
/// of the open position at the touch.
pub proof fn law_guarded_only_exits(inp: QuoteInput)
    requires
        inp.bbo.valid(),
        !inp.is_stopped(),
        !inp.is_stale(),
        inp.is_volatile() || inp.is_narrow(),
    ensures
        inp.quotes().bid matches Some(q) ==> inp.position_qty <= 0 && q.purpose == Purpose::Exit && !q.taker && q.price == inp.bbo.bid,
        inp.quotes().ask matches Some(q) ==> inp.position_qty >= 0 && q.purpose == Purpose::Exit && !q.taker && q.price == inp.bbo.ask,
        !inp.has_position() ==> inp.quotes().bid is None && inp.quotes().ask is None,
{
    reveal(QuoteInput::quotes);
}

/// Around fair value, the side that the taker flow or the reference venue is about to run over is not
/// quoted.
pub proof fn law_dangerous_side_not_quoted(inp: QuoteInput)
    requires
        inp.bbo.valid(),
        !inp.is_stopped(),
        !inp.is_stale(),
        !inp.is_volatile(),
        !inp.is_narrow(),
    ensures
        inp.tox_bid() || inp.ref_bid() ==> inp.quotes().bid is None,
        inp.tox_ask() || inp.ref_ask() ==> inp.quotes().ask is None,
{
    reveal(QuoteInput::quotes);
}

/// The inventory skew moves both quotes against the position: down when long, up when short, not at
/// all without a position.
pub proof fn law_skew_against_position(inp: QuoteInput)
    requires
        inp.bbo.valid(),
        inp.meta.tick_size > 0,
        inp.params.inventory_skew_bps >= 0,
    ensures
        inp.position_qty >= 0 ==> inp.skew_ticks() >= 0,
        inp.position_qty <= 0 ==> inp.skew_ticks() <= 0,
        inp.position_qty == 0 ==> inp.skew_ticks() == 0,
{
    let m2 = inp.mid2();
    let cap = 2 * inp.params.max_position_notional_usd;
    let n = inp.position_qty * m2;
    if inp.params.max_position_notional_usd > 0 {
        assert(inp.position_qty >= 0 ==> n >= 0) by (nonlinear_arith)
            requires
                n == inp.position_qty * m2,
                m2 > 0,
        ;
        assert(inp.position_qty <= 0 ==> n <= 0) by (nonlinear_arith)
            requires
                n == inp.position_qty * m2,
                m2 > 0,
        ;
        lemma_div_round_sign(n, cap);
    }
    let r = inp.inv_ratio();
    let w = inp.params.inventory_skew_bps as int;
    assert(r >= 0 ==> w * r >= 0) by (nonlinear_arith)
        requires
            w >= 0,
    ;
    assert(r <= 0 ==> w * r <= 0) by (nonlinear_arith)
        requires
            w >= 0,
    ;
    lemma_div_round_sign(w * r, ONE as int);
    let skew = clamp64(div_round(w * r, ONE as int));
    assert(skew >= 0 ==> skew * m2 >= 0) by (nonlinear_arith)
        requires
            m2 > 0,
    ;
    assert(skew <= 0 ==> skew * m2 <= 0) by (nonlinear_arith)
        requires
            m2 > 0,
    ;
    lemma_div_round_sign(skew * m2, 2 * (inp.tick() * BPS_ONE));
}

/// Rounding keeps the sign.
proof fn lemma_div_round_sign(a: int, b: int)
    requires
        b > 0,
    ensures
        a >= 0 ==> div_round(a, b) >= 0,
        a <= 0 ==> div_round(a, b) <= 0,
{
    lemma_div_round_exact(0, b);
    if a >= 0 {
        lemma_div_round_monotone(0, a, b);
    }
    if a <= 0 {
        lemma_div_round_monotone(a, 0, b);
    }
}

} // verus!
