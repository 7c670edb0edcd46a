//! What the quotes are for: fair value moves with the signals, each side stands at the best price that
//! keeps its edge from fair value, a side is withheld only for cause, inventory leans against itself,
//! and positions that must go do go.

use vstd::prelude::*;
use crate::stats::{bought, sold};
use crate::strategy::{ceil_tick, ceil_ticks, floor_tick, floor_ticks, QuoteInput};
use crate::strategy_laws::{fair_in_range, lemma_ask_plan_grid, lemma_base_uncrossed, lemma_bid_plan_grid, lemma_ceil_tick, lemma_flat, lemma_floor_below, lemma_floor_tick, lemma_multiple, lemma_tick_price, market_on_grid};
use crate::types::{Purpose, Side};
use crate::units::{abs_int, clamp64, div_round, law_rounds_to_nearest, lemma_div_round_exact, lemma_div_round_monotone, lemma_ratio_within, max_int, min_int, BPS_ONE, ONE};

verus! {

// ------------------------------------------------------------------------------
// Fair value
// ------------------------------------------------------------------------------

/// The book sizes make sense, and the flow is a share.
pub open spec fn signals_sane(inp: QuoteInput) -> bool {
    &&& inp.bbo.valid()
    &&& inp.bbo.sane()
    &&& -ONE <= inp.flow() <= ONE
    &&& -(i64::MAX / 2) <= inp.ref_dev_bps <= i64::MAX / 2
}

/// A weight of at most one leaves a share within itself.
proof fn lemma_weighted_share(w: int, x: int)
    requires
        0 <= w <= ONE,
        -ONE <= x <= ONE,
    ensures
        -ONE <= div_round(w * x, ONE as int) <= ONE,
{
    lemma_ratio_within(x, w, ONE as int);
    assert(w * x == x * w) by (nonlinear_arith);
}

/// Fair value lies off the mid by the weighted imbalances of book and taker flow, in half spreads, and
/// the weighted deviation of the reference: the share of the half spread to eight digits, the rest to
/// the last.
pub proof fn law_fair_value(inp: QuoteInput)
    requires
        signals_sane(inp),
        inp.params.fault() is None,
    ensures
        ({
            let width = inp.bbo.ask - inp.bbo.bid;
            let m2 = inp.bbo.bid + inp.bbo.ask;
            let pressure = inp.params.imbalance_weight * inp.bbo.spec_imbalance() + inp.params.flow_weight * inp.flow();
            let lead = inp.params.ref_weight * inp.ref_dev_bps;
            abs_int(10_000 * (ONE * (2 * inp.fair() - m2 * ONE)) - (10_000 * (pressure * width) + lead * m2)) <= ONE * (10_000 * width + m2 + 40_000)
        }),
{
    reveal(QuoteInput::shift);
    let p = *inp.params;
    let width = inp.bbo.ask - inp.bbo.bid;
    let m2 = inp.bbo.bid + inp.bbo.ask;
    let (imb, flow, rd) = (inp.bbo.spec_imbalance(), inp.flow(), inp.ref_dev_bps as int);
    crate::types::law_bbo_derived(*inp.bbo);
    let (x, y, z) = (p.imbalance_weight * imb, p.flow_weight * flow, p.ref_weight * rd);
    lemma_weighted_share(p.imbalance_weight as int, imb);
    lemma_weighted_share(p.flow_weight as int, flow);
    law_rounds_to_nearest(x, ONE as int);
    law_rounds_to_nearest(y, ONE as int);
    law_rounds_to_nearest(z, ONE as int);
    let lean = div_round(x, ONE as int) + div_round(y, ONE as int);
    assert(inp.lean_share() == lean);
    let r = div_round(z, ONE as int);
    assert(abs_int(z) <= 200_000_000 * (i64::MAX / 2)) by (nonlinear_arith)
        requires
            z == p.ref_weight * rd,
            0 <= p.ref_weight <= 200_000_000,
            -(i64::MAX / 2) <= rd <= i64::MAX / 2,
    ;
    assert(abs_int(r * ONE) <= 2 * abs_int(z) + ONE);
    assert(inp.ref_shift_bps() == r);
    let e1 = x + y - lean * ONE;
    assert(abs_int(e1) <= ONE);
    let e3 = z - r * ONE;
    let (a, b) = (lean * width, r * m2);
    let (f, g) = (a / 2, b / 20_000);
    assert(inp.shift() == f + g);
    assert(0 <= a - 2 * f <= 1);
    assert(0 <= b - 20_000 * g < 20_000);
    assert((x + y) * width == ONE * a + e1 * width) by (nonlinear_arith)
        requires
            e1 == x + y - lean * ONE,
            a == lean * width,
    ;
    assert(z * m2 == ONE * b + e3 * m2) by (nonlinear_arith)
        requires
            e3 == z - r * ONE,
            b == r * m2,
    ;
    assert(abs_int(e1 * width) <= ONE * width) by (nonlinear_arith)
        requires
            -ONE <= e1 <= ONE,
            width >= 0,
    ;
    assert(2 * abs_int(e3 * m2) <= ONE * m2) by (nonlinear_arith)
        requires
            -ONE <= 2 * e3 <= ONE,
            m2 >= 0,
    ;
    assert(2 * inp.fair() - m2 * ONE == 2 * (f + g));
    assert(ONE * (2 * (f + g)) == 2 * (ONE * f) + 2 * (ONE * g)) by (nonlinear_arith);
    assert(ONE * (10_000 * width + m2 + 40_000) == 10_000 * (ONE * width) + ONE * m2 + 40_000 * ONE) by (nonlinear_arith);
    assert(ONE * a - ONE <= 2 * (ONE * f) <= ONE * a) by (nonlinear_arith)
        requires
            0 <= a - 2 * f <= 1,
    ;
    assert(ONE * b - 20_000 * ONE <= 20_000 * (ONE * g) <= ONE * b) by (nonlinear_arith)
        requires
            0 <= b - 20_000 * g < 20_000,
    ;
}

/// The same terms: instrument, prices, parameters, position; only the signals may differ.
pub open spec fn same_terms(a: QuoteInput, b: QuoteInput) -> bool {
    &&& *a.meta == *b.meta
    &&& *a.params == *b.params
    &&& a.bbo.bid == b.bbo.bid
    &&& a.bbo.ask == b.bbo.ask
    &&& a.stats.vol_bps == b.stats.vol_bps
    &&& a.maker_fee == b.maker_fee
    &&& a.position_qty == b.position_qty
    &&& a.position_avg == b.position_avg
    &&& a.position_age_secs == b.position_age_secs
    &&& a.allow_new_exposure == b.allow_new_exposure
    &&& a.reduce_only == b.reduce_only
}

/// No signal of `a` points higher than that of `b`.
pub open spec fn signals_no_higher(a: QuoteInput, b: QuoteInput) -> bool {
    &&& a.bbo.spec_imbalance() <= b.bbo.spec_imbalance()
    &&& a.flow() <= b.flow()
    &&& a.ref_dev_bps <= b.ref_dev_bps
}

/// A rounded product grows with its factor.
proof fn lemma_product_order(w: int, x: int, y: int, d: int)
    requires
        w >= 0,
        x <= y,
        d > 0,
    ensures
        w * x <= w * y,
        div_round(w * x, d) <= div_round(w * y, d),
        (x * w) / d <= (y * w) / d,
{
    assert(w * x <= w * y && x * w <= y * w) by (nonlinear_arith)
        requires
            w >= 0,
            x <= y,
    ;
    lemma_div_round_monotone(w * x, w * y, d);
    vstd::arithmetic::div_mod::lemma_div_is_ordered(x * w, y * w, d);
}

/// More on the bid than on the ask, more taker buying than selling, a leading venue that trades higher:
/// none of them ever lowers fair value, nor the shift that is shown.
pub proof fn law_signals_move_fair(a: QuoteInput, b: QuoteInput)
    requires
        a.bbo.valid(),
        a.params.fault() is None,
        same_terms(a, b),
        signals_no_higher(a, b),
    ensures
        a.fair() <= b.fair(),
        a.quotes().fair_shift_bps <= b.quotes().fair_shift_bps,
        a.shift_bps() <= b.shift_bps(),
{
    reveal(QuoteInput::shift);
    reveal(QuoteInput::quotes);
    let p = *a.params;
    lemma_product_order(p.imbalance_weight as int, a.bbo.spec_imbalance(), b.bbo.spec_imbalance(), ONE as int);
    lemma_product_order(p.flow_weight as int, a.flow(), b.flow(), ONE as int);
    lemma_product_order(p.ref_weight as int, a.ref_dev_bps as int, b.ref_dev_bps as int, ONE as int);
    lemma_product_order(a.bbo.ask - a.bbo.bid, a.lean_share(), b.lean_share(), 2);
    lemma_product_order(a.mid2(), a.ref_shift_bps(), b.ref_shift_bps(), 20_000);
    lemma_product_order(20_000, a.shift(), b.shift(), a.mid2());
}

/// Without pressure on either side fair value is the mid; taker buying alone lifts it, taker selling
/// alone lowers it, and so do a heavier bid and a leading venue above us.
pub proof fn law_fair_side_of_mid(inp: QuoteInput, lo: int)
    requires
        inp.bbo.valid(),
        inp.params.fault() is None,
        lo == crate::units::trunc_div(inp.now_ms as int, 1000) - inp.params.toxicity_window_secs + 1,
    ensures
        ({
            let m2 = inp.bbo.bid + inp.bbo.ask;
            let buy = bought(inp.stats.buckets@, lo, inp.params.toxicity_window_secs as nat);
            let sell = sold(inp.stats.buckets@, lo, inp.params.toxicity_window_secs as nat);
            let (bids, asks) = (inp.bbo.bid_qty, inp.bbo.ask_qty);
            &&& bids >= asks && buy >= sell && inp.ref_dev_bps >= 0 ==> 2 * inp.fair() >= m2 * ONE && inp.quotes().fair_shift_bps >= 0
            &&& bids <= asks && buy <= sell && inp.ref_dev_bps <= 0 ==> 2 * inp.fair() <= m2 * ONE && inp.quotes().fair_shift_bps <= 0
        }),
{
    reveal(QuoteInput::shift);
    reveal(QuoteInput::quotes);
    let p = *inp.params;
    let buy = bought(inp.stats.buckets@, lo, p.toxicity_window_secs as nat);
    let sell = sold(inp.stats.buckets@, lo, p.toxicity_window_secs as nat);
    let (bids, asks) = (inp.bbo.bid_qty as int, inp.bbo.ask_qty as int);
    if bids + asks > 0 {
        law_rounds_to_nearest((bids - asks) * ONE, bids + asks);
    }
    if buy + sell > 0 {
        law_rounds_to_nearest((buy - sell) * ONE, buy + sell);
    }
    let (imb, flow, rd) = (inp.bbo.spec_imbalance(), inp.flow(), inp.ref_dev_bps as int);
    lemma_sign(p.imbalance_weight as int, imb, ONE as int);
    lemma_sign(p.flow_weight as int, flow, ONE as int);
    lemma_sign(p.ref_weight as int, rd, ONE as int);
    lemma_sign(inp.bbo.ask - inp.bbo.bid, inp.lean_share(), 2);
    lemma_sign(inp.mid2(), inp.ref_shift_bps(), 20_000);
    lemma_sign(20_000, inp.shift(), inp.mid2());
}

/// A product with a factor that is not negative has the sign of the other one, rounded or not.
proof fn lemma_sign(w: int, x: int, d: int)
    requires
        w >= 0,
        d > 0,
    ensures
        x >= 0 ==> div_round(w * x, d) >= 0 && (x * w) / d >= 0,
        x <= 0 ==> div_round(w * x, d) <= 0 && (x * w) / d <= 0,
{
    lemma_div_round_exact(0, d);
    assert(0 * d == 0);
    assert(w * 0 == 0 && 0 * w == 0);
    if x >= 0 {
        lemma_product_order(w, 0, x, d);
    } else {
        lemma_product_order(w, x, 0, d);
    }
}

// ------------------------------------------------------------------------------
// Prices
// ------------------------------------------------------------------------------

/// The least spread that is worth quoting covers the fees of both legs and the edge that is asked for,
/// and is no less than the least one that is allowed; a quote keeps half of it from fair value. An inside
/// quote keeps at least its share of the half spread.
pub proof fn law_required_edge(inp: QuoteInput)
    requires
        inp.bbo.valid(),
        inp.params.fault() is None,
        i64::MIN <= 20_000 * inp.maker_fee + inp.params.min_edge_bps <= i64::MAX,
    ensures
        ({
            let m2 = inp.bbo.bid + inp.bbo.ask;
            let least = inp.params.min_spread_bps as int;
            let costs = 20_000 * inp.maker_fee + inp.params.min_edge_bps;
            let r = if least >= costs { least } else { costs };
            let width = inp.bbo.ask - inp.bbo.bid;
            &&& 0 <= r * m2 - 40_000 * inp.req_half() < 40_000
            &&& inp.inside_half() >= inp.req_half()
            &&& 2 * inp.inside_half() + 1 >= inp.params.inside_spread_frac * width
            &&& inp.inside_half() == inp.req_half() || 2 * inp.inside_half() <= inp.params.inside_spread_frac * width
        }),
{
    let m2 = inp.bbo.bid + inp.bbo.ask;
    vstd::arithmetic::div_mod::lemma_fundamental_div_mod(inp.required_bps() * m2, 40_000);
}

/// The price up to which the bid may go, whatever its edge: below the ask in inside mode, else the best
/// bid, or a tick better where that leaves the required spread.
pub open spec fn bid_limit(inp: QuoteInput) -> int {
    if inp.is_inside() {
        inp.bbo.ask - inp.tick()
    } else if inp.improves() {
        inp.bbo.bid + inp.tick()
    } else {
        inp.bbo.bid as int
    }
}

pub open spec fn ask_limit(inp: QuoteInput) -> int {
    if inp.is_inside() {
        inp.bbo.bid + inp.tick()
    } else if inp.improves() {
        inp.bbo.ask - inp.tick()
    } else {
        inp.bbo.ask as int
    }
}

/// What a quote keeps from fair value.
pub open spec fn edge(inp: QuoteInput) -> int {
    if inp.is_inside() {
        inp.inside_half()
    } else {
        inp.req_half()
    }
}

/// A bid at `px` keeps its edge, to within a billionth of a tick.
pub open spec fn bid_keeps_edge(inp: QuoteInput, px: int) -> bool {
    10 * (px * ONE) <= 10 * (inp.fair() - edge(inp)) + inp.tick()
}

pub open spec fn ask_keeps_edge(inp: QuoteInput, px: int) -> bool {
    10 * (px * ONE) >= 10 * (inp.fair() + edge(inp)) - inp.tick()
}

proof fn lemma_bid_plan(inp: QuoteInput)
    requires
        inp.bbo.valid(),
        market_on_grid(inp),
        fair_in_range(inp),
        inp.params.fault() is None,
    ensures
        inp.bid_plan().px < inp.bbo.ask,
        !inp.bid_plan().no_room ==> {
            let px = inp.bid_plan().px as int;
            &&& px <= bid_limit(inp)
            &&& bid_keeps_edge(inp, px)
            &&& px == bid_limit(inp) || !bid_keeps_edge(inp, px + inp.tick())
        },
        inp.bid_plan().no_room ==> inp.is_inside() && (!bid_keeps_edge(inp, inp.bbo.bid + inp.tick()) || inp.bbo.bid + inp.tick() >= inp.bbo.ask),
        inp.bid_plan().lean ==> !inp.is_inside() && !bid_keeps_edge(inp, inp.bbo.bid - inp.params.max_lean_ticks * inp.tick()),
        !inp.is_inside() && !inp.bid_plan().lean && inp.params.max_lean_ticks < i64::MAX ==> inp.bid_plan().px >= inp.bbo.bid - inp.params.max_lean_ticks * inp.tick(),
{
    reveal(QuoteInput::bid_plan);
    let t = inp.tick();
    let m = *inp.meta;
    lemma_base_uncrossed(inp);
    let kb = lemma_multiple(inp.bbo.bid as int, t);
    let ka = lemma_multiple(inp.bbo.ask as int, t);
    assert((kb + 1) * t == inp.bbo.bid + t) by (nonlinear_arith)
        requires
            inp.bbo.bid == kb * t,
    ;
    assert((ka - 1) * t == inp.bbo.ask - t) by (nonlinear_arith)
        requires
            inp.bbo.ask == ka * t,
    ;
    let lean = inp.params.max_lean_ticks as int;
    assert(lean * t >= 0) by (nonlinear_arith)
        requires
            lean >= 0,
            t > 0,
    ;
    if inp.is_inside() {
        let px = inp.fair() - inp.inside_half();
        lemma_floor_tick(m, px);
        lemma_tick_price(m, ka - 1);
        let f = floor_ticks(px, t);
        let b = min_int(floor_tick(m, px), inp.bbo.ask - t);
        if 2 * b <= 2 * inp.bbo.bid + t {
            if floor_tick(m, px) <= inp.bbo.ask - t {
                // f * t <= kb * t + t / 2, so f <= kb
                assert(f <= kb) by (nonlinear_arith)
                    requires
                        2 * (f * t) <= 2 * (kb * t) + t,
                        t > 0,
                ;
                assert(f * t <= kb * t) by (nonlinear_arith)
                    requires
                        f <= kb,
                        t > 0,
                ;
            } else {
                assert(ka - 1 <= kb) by (nonlinear_arith)
                    requires
                        2 * ((ka - 1) * t) <= 2 * (kb * t) + t,
                        t > 0,
                ;
                assert((ka - 1) * t <= kb * t) by (nonlinear_arith)
                    requires
                        ka - 1 <= kb,
                        t > 0,
                ;
            }
        }
    } else if inp.base_bid() * ONE > inp.fair() - inp.req_half() {
        let px = inp.fair() - inp.req_half();
        let kk = if inp.improves() { kb + 1 } else { kb };
        lemma_floor_tick(m, px);
        lemma_floor_below(m, px, kk);
        let f = floor_ticks(px, t);
        let b = floor_tick(m, px);
        assert(inp.bbo.bid - b == (kb - f) * t) by (nonlinear_arith)
            requires
                inp.bbo.bid == kb * t,
                b == f * t,
        ;
        lemma_div_round_exact(kb - f, t);
        assert(inp.base_bid() == kk * t);
        if clamp64(kb - f) > lean {
            assert(b + t <= inp.bbo.bid - lean * t) by (nonlinear_arith)
                requires
                    inp.bbo.bid - b == (kb - f) * t,
                    kb - f >= lean + 1,
                    t > 0,
            ;
        } else if lean < i64::MAX {
            assert(b >= inp.bbo.bid - lean * t) by (nonlinear_arith)
                requires
                    inp.bbo.bid - b == (kb - f) * t,
                    kb - f <= lean,
                    t > 0,
            ;
        }
    }
}

proof fn lemma_ask_plan(inp: QuoteInput)
    requires
        inp.bbo.valid(),
        market_on_grid(inp),
        fair_in_range(inp),
        inp.params.fault() is None,
    ensures
        inp.ask_plan().px > inp.bbo.bid,
        !inp.ask_plan().no_room ==> {
            let px = inp.ask_plan().px as int;
            &&& px >= ask_limit(inp)
            &&& ask_keeps_edge(inp, px)
            &&& px == ask_limit(inp) || !ask_keeps_edge(inp, px - inp.tick())
        },
        inp.ask_plan().no_room ==> inp.is_inside() && (!ask_keeps_edge(inp, inp.bbo.ask - inp.tick()) || inp.bbo.ask - inp.tick() <= inp.bbo.bid),
        inp.ask_plan().lean ==> !inp.is_inside() && !ask_keeps_edge(inp, inp.bbo.ask + inp.params.max_lean_ticks * inp.tick()),
        !inp.is_inside() && !inp.ask_plan().lean ==> inp.ask_plan().px <= inp.bbo.ask + inp.params.max_lean_ticks * inp.tick(),
{
    reveal(QuoteInput::ask_plan);
    let t = inp.tick();
    let m = *inp.meta;
    lemma_base_uncrossed(inp);
    let kb = lemma_multiple(inp.bbo.bid as int, t);
    let ka = lemma_multiple(inp.bbo.ask as int, t);
    assert((kb + 1) * t == inp.bbo.bid + t) by (nonlinear_arith)
        requires
            inp.bbo.bid == kb * t,
    ;
    assert((ka - 1) * t == inp.bbo.ask - t) by (nonlinear_arith)
        requires
            inp.bbo.ask == ka * t,
    ;
    let lean = inp.params.max_lean_ticks as int;
    assert(lean * t >= 0) by (nonlinear_arith)
        requires
            lean >= 0,
            t > 0,
    ;
    if inp.is_inside() {
        let px = inp.fair() + inp.inside_half();
        lemma_ceil_tick(m, px);
        lemma_tick_price(m, kb + 1);
        let f = ceil_ticks(px, t);
        let a = max_int(ceil_tick(m, px), inp.bbo.bid + t);
        if 2 * a >= 2 * inp.bbo.ask - t {
            if ceil_tick(m, px) >= inp.bbo.bid + t {
                assert(f >= ka) by (nonlinear_arith)
                    requires
                        2 * (f * t) >= 2 * (ka * t) - t,
                        t > 0,
                ;
                assert(f * t >= ka * t) by (nonlinear_arith)
                    requires
                        f >= ka,
                        t > 0,
                ;
            } else {
                assert(kb + 1 >= ka) by (nonlinear_arith)
                    requires
                        2 * ((kb + 1) * t) >= 2 * (ka * t) - t,
                        t > 0,
                ;
                assert((kb + 1) * t >= ka * t) by (nonlinear_arith)
                    requires
                        kb + 1 >= ka,
                        t > 0,
                ;
            }
        }
    } else if inp.base_ask() * ONE < inp.fair() + inp.req_half() {
        let px = inp.fair() + inp.req_half();
        let kk = if inp.improves() { ka - 1 } else { ka };
        lemma_ceil_tick(m, px);
        lemma_floor_tick(m, -px);
        assert((-kk) * t == -(kk * t)) by (nonlinear_arith);
        lemma_floor_below(m, -px, -kk);
        let g = floor_ticks(-px, t);
        let f = ceil_ticks(px, t);
        assert(f * t == -(g * t)) by (nonlinear_arith)
            requires
                f == -g,
        ;
        let a = ceil_tick(m, px);
        assert(a - inp.bbo.ask == (f - ka) * t) by (nonlinear_arith)
            requires
                inp.bbo.ask == ka * t,
                a == f * t,
        ;
        lemma_div_round_exact(f - ka, t);
        assert(inp.base_ask() == kk * t);
        if clamp64(f - ka) > lean {
            assert(a - t >= inp.bbo.ask + lean * t) by (nonlinear_arith)
                requires
                    a - inp.bbo.ask == (f - ka) * t,
                    f - ka >= lean + 1,
                    t > 0,
            ;
        } else {
            assert(a <= inp.bbo.ask + lean * t) by (nonlinear_arith)
                requires
                    a - inp.bbo.ask == (f - ka) * t,
                    f - ka <= lean,
                    t > 0,
            ;
        }
    }
}

/// Without a position the prices are those that were planned.
proof fn lemma_flat_prices(inp: QuoteInput)
    requires
        inp.bbo.valid(),
        market_on_grid(inp),
        fair_in_range(inp),
        inp.params.fault() is None,
        inp.position_qty == 0,
    ensures
        !inp.has_position(),
        inp.skew_ticks() == 0,
        i64::MIN <= inp.bid_plan().px <= i64::MAX ==> inp.bid_price() == inp.bid_plan().px,
        i64::MIN <= inp.ask_plan().px <= i64::MAX ==> inp.ask_price() == inp.ask_plan().px,
        inp.bid_price() == clamp64(inp.bid_plan().px as int),
        inp.ask_price() == clamp64(inp.ask_plan().px as int),
{
    reveal(QuoteInput::bid_price);
    reveal(QuoteInput::ask_price);
    lemma_flat(inp);
    lemma_bid_plan(inp);
    lemma_ask_plan(inp);
    let k = lemma_bid_plan_grid(inp);
    let j = lemma_ask_plan_grid(inp);
    lemma_tick_price(*inp.meta, k);
    lemma_tick_price(*inp.meta, j);
}

/// Neither a stop, nor a stale position, nor volatility, nor a narrow spread stands in the way of quoting
/// around fair value.
pub open spec fn quotes_around_fair(inp: QuoteInput) -> bool {
    inp.bbo.valid() && !inp.is_stopped() && !inp.is_stale() && !inp.is_volatile() && !inp.is_narrow()
}

/// Without a position, each quote around fair value stands at the best price on the grid that keeps its
/// edge: it keeps it, and a tick better would not, unless that is as far as the side may go.
pub proof fn law_best_price_with_edge(inp: QuoteInput)
    requires
        quotes_around_fair(inp),
        market_on_grid(inp),
        fair_in_range(inp),
        inp.params.fault() is None,
        inp.position_qty == 0,
    ensures
        inp.quotes().bid matches Some(q) ==> {
            &&& q.price <= bid_limit(inp)
            &&& bid_keeps_edge(inp, q.price as int)
            &&& q.price == bid_limit(inp) || !bid_keeps_edge(inp, q.price + inp.tick())
            &&& !inp.is_inside() && inp.params.max_lean_ticks < i64::MAX ==> q.price >= inp.bbo.bid - inp.params.max_lean_ticks * inp.tick()
            &&& inp.is_inside() ==> q.price > inp.bbo.bid
        },
        inp.quotes().ask matches Some(q) ==> {
            &&& q.price >= ask_limit(inp)
            &&& ask_keeps_edge(inp, q.price as int)
            &&& q.price == ask_limit(inp) || !ask_keeps_edge(inp, q.price - inp.tick())
            &&& !inp.is_inside() ==> q.price <= inp.bbo.ask + inp.params.max_lean_ticks * inp.tick()
            &&& inp.is_inside() ==> q.price < inp.bbo.ask
        },
{
    reveal(QuoteInput::quotes);
    lemma_flat_prices(inp);
    lemma_bid_plan(inp);
    lemma_ask_plan(inp);
    lemma_plan_in_range(inp);
}

/// The planned prices are prices.
proof fn lemma_plan_in_range(inp: QuoteInput)
    requires
        inp.bbo.valid(),
        market_on_grid(inp),
        fair_in_range(inp),
        inp.params.fault() is None,
    ensures
        i64::MIN <= inp.bid_plan().px <= i64::MAX,
        i64::MIN <= inp.ask_plan().px <= i64::MAX,
{
    reveal(QuoteInput::bid_plan);
    reveal(QuoteInput::ask_plan);
    lemma_base_uncrossed(inp);
}

/// A side around fair value is withheld for cause only. Without a position, with leave to take exposure
/// and an order that is worth placing, the bid is quoted unless takers sell too hard, the leading venue
/// trades too low, or a bid that keeps its edge would stand too deep, or not inside the spread; and so it
/// is with the ask, the other way round.
pub proof fn law_withheld_for_cause(inp: QuoteInput)
    requires
        quotes_around_fair(inp),
        market_on_grid(inp),
        fair_in_range(inp),
        inp.params.fault() is None,
        inp.position_qty == 0,
        inp.allow_new_exposure,
        !inp.reduce_only,
        inp.base_qty() > 0,
        inp.worth_min(inp.base_qty()),
        inp.meta.spec_round_qty_down(clamp64((2 * (inp.params.max_position_notional_usd * ONE)) / inp.mid2())) >= inp.base_qty(),
    ensures
        ({
            let p = *inp.params;
            &&& inp.quotes().bid is None ==> {
                ||| p.toxicity_imbalance > 0 && inp.flow() < -p.toxicity_imbalance
                ||| p.ref_block_bps > 0 && inp.ref_dev_bps < -p.ref_block_bps
                ||| !inp.is_inside() && !bid_keeps_edge(inp, inp.bbo.bid - p.max_lean_ticks * inp.tick())
                ||| inp.is_inside() && (!bid_keeps_edge(inp, inp.bbo.bid + inp.tick()) || inp.bbo.bid + inp.tick() >= inp.bbo.ask)
            }
            &&& inp.quotes().ask is None ==> {
                ||| p.toxicity_imbalance > 0 && inp.flow() > p.toxicity_imbalance
                ||| p.ref_block_bps > 0 && inp.ref_dev_bps > p.ref_block_bps
                ||| !inp.is_inside() && !ask_keeps_edge(inp, inp.bbo.ask + p.max_lean_ticks * inp.tick())
                ||| inp.is_inside() && (!ask_keeps_edge(inp, inp.bbo.ask - inp.tick()) || inp.bbo.ask - inp.tick() <= inp.bbo.bid)
            }
        }),
{
    reveal(QuoteInput::quotes);
    reveal(QuoteInput::bid_plan);
    reveal(QuoteInput::ask_plan);
    lemma_flat_prices(inp);
    lemma_bid_plan(inp);
    lemma_ask_plan(inp);
    lemma_plan_in_range(inp);
    assert(0 * inp.mid2() == 0);
    let cap2 = 2 * (inp.params.max_position_notional_usd * ONE);
    assert(inp.room2(Side::Buy) == cap2 && inp.room2(Side::Sell) == cap2);
}

/// Around fair value, the side that the taker flow or the leading venue is about to run over is not
/// quoted: no bid into hard selling or below a venue that trades lower, no ask into hard buying or above
/// a venue that trades higher.
pub proof fn law_no_quote_in_the_way(inp: QuoteInput)
    requires
        quotes_around_fair(inp),
    ensures
        ({
            let p = *inp.params;
            &&& p.toxicity_imbalance > 0 && inp.flow() < -p.toxicity_imbalance ==> inp.quotes().bid is None
            &&& p.toxicity_imbalance > 0 && inp.flow() > p.toxicity_imbalance ==> inp.quotes().ask is None
            &&& p.ref_block_bps > 0 && inp.ref_dev_bps < -p.ref_block_bps ==> inp.quotes().bid is None
            &&& p.ref_block_bps > 0 && inp.ref_dev_bps > p.ref_block_bps ==> inp.quotes().ask is None
        }),
{
    reveal(QuoteInput::quotes);
}

/// Signals that point higher never lower a price that is quoted without a position.
pub proof fn law_quotes_follow_signals(a: QuoteInput, b: QuoteInput)
    requires
        quotes_around_fair(a),
        quotes_around_fair(b),
        market_on_grid(a),
        fair_in_range(a),
        fair_in_range(b),
        a.params.fault() is None,
        a.position_qty == 0,
        same_terms(a, b),
        signals_no_higher(a, b),
    ensures
        a.quotes().bid is Some && b.quotes().bid is Some ==> (a.quotes().bid->0).price <= (b.quotes().bid->0).price,
        a.quotes().ask is Some && b.quotes().ask is Some ==> (a.quotes().ask->0).price <= (b.quotes().ask->0).price,
{
    law_signals_move_fair(a, b);
    law_best_price_with_edge(a);
    law_best_price_with_edge(b);
    let t = a.tick();
    let k = lemma_bid_plan_grid(a);
    let l = lemma_bid_plan_grid(b);
    let i = lemma_ask_plan_grid(a);
    let j = lemma_ask_plan_grid(b);
    lemma_flat_prices(a);
    lemma_flat_prices(b);
    lemma_plan_in_range(a);
    lemma_plan_in_range(b);
    reveal(QuoteInput::quotes);
    assert(bid_limit(a) == bid_limit(b) && ask_limit(a) == ask_limit(b) && edge(a) == edge(b));
    if a.quotes().bid is Some && b.quotes().bid is Some {
        let (p, q) = ((a.quotes().bid->0).price as int, (b.quotes().bid->0).price as int);
        assert(p == k * t && q == l * t);
        if p > q {
            assert(p >= q + t) by (nonlinear_arith)
                requires
                    p == k * t,
                    q == l * t,
                    p > q,
                    t > 0,
            ;
        }
    }
    if a.quotes().ask is Some && b.quotes().ask is Some {
        let (p, q) = ((a.quotes().ask->0).price as int, (b.quotes().ask->0).price as int);
        assert(p == i * t && q == j * t);
        if p > q {
            assert(p >= q + t) by (nonlinear_arith)
                requires
                    p == i * t,
                    q == j * t,
                    p > q,
                    t > 0,
            ;
        }
    }
}

// ------------------------------------------------------------------------------
// Positions that must go
// ------------------------------------------------------------------------------

/// The position is worth its while: at least the least order, and one unit of the quote currency.
pub open spec fn worth_closing(inp: QuoteInput) -> bool {
    let held2 = abs_int(inp.position_qty as int) * (inp.bbo.bid + inp.bbo.ask);
    held2 >= 2 * (inp.meta.min_notional * ONE) && held2 >= 2 * (ONE * ONE)
}

/// The mid has moved against the position by the limit or more, in basis points of what it cost.
pub open spec fn lost_the_limit(inp: QuoteInput) -> bool {
    let m2 = inp.bbo.bid + inp.bbo.ask;
    let loss2 = if inp.position_qty > 0 { 2 * inp.position_avg - m2 } else { m2 - 2 * inp.position_avg };
    inp.params.stop_loss_bps > 0 && inp.position_avg > 0 && loss2 * BPS_ONE >= 2 * (inp.params.stop_loss_bps * inp.position_avg)
}

/// The market is too volatile, or its spread is less than the required one.
pub open spec fn not_worth_quoting(inp: QuoteInput) -> bool {
    ||| inp.params.max_vol_bps > 0 && inp.stats.vol_bps > inp.params.max_vol_bps
    ||| 2 * ((inp.bbo.ask - inp.bbo.bid) * BPS_ONE) < inp.required_bps() * (inp.bbo.bid + inp.bbo.ask)
}

/// What of the position can be closed.
pub open spec fn closable(inp: QuoteInput) -> int {
    inp.meta.spec_round_qty_down(clamp64(abs_int(inp.position_qty as int)))
}

/// `q` closes what can be closed of the position, for that purpose, and stands alone: a long position
/// sells, a short one buys.
pub open spec fn only_closes(inp: QuoteInput, purpose: Purpose, taker: bool, px_sell: int, px_buy: int) -> bool {
    let r = inp.quotes();
    if inp.position_qty > 0 {
        &&& r.bid is None
        &&& closable(inp) <= 0 ==> r.ask is None
        &&& closable(inp) > 0 ==> (r.ask matches Some(q) && q.side == Side::Sell && q.purpose == purpose && q.taker == taker && q.qty == closable(inp)
            && q.price == px_sell)
    } else {
        &&& r.ask is None
        &&& closable(inp) <= 0 ==> r.bid is None
        &&& closable(inp) > 0 ==> (r.bid matches Some(q) && q.side == Side::Buy && q.purpose == purpose && q.taker == taker && q.qty == closable(inp)
            && q.price == px_buy)
    }
}

proof fn lemma_regimes(inp: QuoteInput)
    requires
        inp.bbo.valid(),
        inp.meta.tick_size > 0,
    ensures
        inp.has_position() <==> worth_closing(inp),
        inp.is_stopped() <==> worth_closing(inp) && lost_the_limit(inp),
        inp.is_stale() <==> worth_closing(inp) && inp.position_age_secs >= inp.params.max_hold_secs,
        inp.is_volatile() || inp.is_narrow() <==> not_worth_quoting(inp),
        inp.exit_qty() == closable(inp),
{
    let moved = inp.mid2() - 2 * inp.position_avg;
    assert((-moved) * BPS_ONE == (2 * inp.position_avg - inp.mid2()) * BPS_ONE);
}

/// A position that has lost the limit leaves at once, whole, and nothing else is quoted: to a taker's
/// price where the mode says so, else a tick inside the spread where there is room, and at the best
/// price where there is none. So does one that was held too long.
pub proof fn law_position_must_go(inp: QuoteInput)
    requires
        inp.bbo.valid(),
        market_on_grid(inp),
        worth_closing(inp),
    ensures
        ({
            let t = inp.tick();
            let (b, a) = (inp.bbo.bid as int, inp.bbo.ask as int);
            let (sell, buy) = if a - b > t { (a - t, b + t) } else { (a, b) };
            let stop = inp.params.stop_loss_mode@ == "taker"@;
            let stale = inp.params.stale_exit_mode@ == "taker"@;
            &&& lost_the_limit(inp) ==> only_closes(inp, Purpose::StopLoss, stop, if stop { b } else { sell }, if stop { a } else { buy })
            &&& !lost_the_limit(inp) && inp.position_age_secs >= inp.params.max_hold_secs ==> only_closes(
                inp,
                Purpose::StaleExit,
                stale,
                if stale { b } else { sell },
                if stale { a } else { buy },
            )
        }),
{
    reveal(QuoteInput::quotes);
    lemma_regimes(inp);
    let t = inp.tick();
    let m = *inp.meta;
    let kb = lemma_multiple(inp.bbo.bid as int, t);
    let ka = lemma_multiple(inp.bbo.ask as int, t);
    assert((kb + 1) * t == inp.bbo.bid + t) by (nonlinear_arith)
        requires
            inp.bbo.bid == kb * t,
    ;
    assert((ka - 1) * t == inp.bbo.ask - t) by (nonlinear_arith)
        requires
            inp.bbo.ask == ka * t,
    ;
    lemma_tick_price(m, kb);
    lemma_tick_price(m, ka);
    lemma_tick_price(m, kb + 1);
    lemma_tick_price(m, ka - 1);
}

/// Otherwise, in a market that is not worth quoting, the position is offered whole at the best price of
/// its side, passively; without one that is worth its while nothing is quoted. In every other market the
/// quotes stand around fair value, as makers, and a side that would reduce the position is an exit.
pub proof fn law_position_may_stay(inp: QuoteInput)
    requires
        inp.bbo.valid(),
        inp.meta.tick_size > 0,
        !(worth_closing(inp) && (lost_the_limit(inp) || inp.position_age_secs >= inp.params.max_hold_secs)),
    ensures
        not_worth_quoting(inp) && worth_closing(inp) ==> only_closes(inp, Purpose::Exit, false, inp.bbo.ask as int, inp.bbo.bid as int),
        not_worth_quoting(inp) && !worth_closing(inp) ==> inp.quotes().bid is None && inp.quotes().ask is None,
        quotes_around_fair(inp) <==> !not_worth_quoting(inp),
        !not_worth_quoting(inp) ==> {
            &&& inp.quotes().bid matches Some(q) ==> q.side == Side::Buy && !q.taker && q.purpose == if inp.position_qty < 0 {
                Purpose::Exit
            } else {
                Purpose::Entry
            }
            &&& inp.quotes().ask matches Some(q) ==> q.side == Side::Sell && !q.taker && q.purpose == if inp.position_qty > 0 {
                Purpose::Exit
            } else {
                Purpose::Entry
            }
        },
{
    reveal(QuoteInput::quotes);
    lemma_regimes(inp);
}

/// A market without two sides is not quoted at all.
pub proof fn law_no_market_no_quotes(inp: QuoteInput)
    requires
        inp.bbo.bid <= 0 || inp.bbo.ask <= inp.bbo.bid,
    ensures
        inp.quotes().bid is None,
        inp.quotes().ask is None,
        inp.quotes().reason == "invalid_bbo",
{
    reveal(QuoteInput::quotes);
}

/// The reason says which rule decided.
pub proof fn law_reason_tells(inp: QuoteInput)
    requires
        inp.bbo.valid(),
        inp.meta.tick_size > 0,
    ensures
        ({
            let p = *inp.params;
            let r = inp.quotes();
            let stopped = worth_closing(inp) && lost_the_limit(inp);
            let stale = worth_closing(inp) && inp.position_age_secs >= p.max_hold_secs;
            let wild = p.max_vol_bps > 0 && inp.stats.vol_bps > p.max_vol_bps;
            let lead = p.ref_block_bps > 0 && (inp.ref_dev_bps < -p.ref_block_bps || inp.ref_dev_bps > p.ref_block_bps);
            let toxic = p.toxicity_imbalance > 0 && (inp.flow() < -p.toxicity_imbalance || inp.flow() > p.toxicity_imbalance);
            let fair = !stopped && !stale && !not_worth_quoting(inp);
            let quoted = r.bid is Some || r.ask is Some;
            &&& stopped ==> r.reason == "stop_loss"
            &&& !stopped && stale ==> r.reason == "stale_exit"
            &&& !stopped && !stale && wild ==> r.reason == "vol_guard"
            &&& !stopped && !stale && !wild && not_worth_quoting(inp) ==> r.reason == "spread_too_narrow"
            &&& fair && inp.base_qty() > 0 && inp.worth_min(inp.base_qty()) ==> {
                &&& lead ==> r.reason == if quoted { "ref_one_side" } else { "ref_block" }
                &&& !lead && toxic ==> r.reason == if quoted { "toxic_one_side" } else { "toxic_flow" }
            }
            &&& fair && (inp.base_qty() <= 0 || !inp.worth_min(inp.base_qty())) ==> r.reason == "size_below_min" && !quoted
            &&& fair && r.bid is Some && r.ask is Some ==> r.reason == "ok"
        }),
{
    reveal(QuoteInput::quotes);
    lemma_regimes(inp);
}

// ------------------------------------------------------------------------------
// Sizes
// ------------------------------------------------------------------------------

/// Around fair value each quote is for the order size in whole lots, or for less: an exit for no more
/// than can be closed of the position, an entry for no more than the cap leaves room for. Its value is
/// at least the least order's, and there is room for half an order at least.
pub proof fn law_quote_sizes(inp: QuoteInput)
    requires
        quotes_around_fair(inp),
        inp.params.fault() is None,
    ensures
        ({
            let m2 = inp.bbo.bid + inp.bbo.ask;
            let order = inp.meta.spec_round_qty_down(clamp64((2 * (inp.params.order_notional_usd * ONE)) / m2));
            let cap2 = 2 * (inp.params.max_position_notional_usd * ONE);
            let held2 = inp.position_qty * m2;
            &&& inp.quotes().bid matches Some(q) ==> {
                &&& 0 < q.qty <= order
                &&& q.qty * m2 >= 2 * (inp.meta.min_notional * ONE)
                &&& inp.position_qty < 0 ==> q.qty == if order <= closable(inp) { order } else { closable(inp) }
                &&& inp.position_qty >= 0 ==> inp.allow_new_exposure && !inp.reduce_only
                &&& inp.position_qty >= 0 && i128::MIN <= cap2 - held2 <= i128::MAX ==> {
                    let room = inp.meta.spec_round_qty_down(clamp64((cap2 - held2) / m2));
                    q.qty == if order <= room { order } else { room } && cap2 - held2 >= inp.params.order_notional_usd * ONE
                }
            }
            &&& inp.quotes().ask matches Some(q) ==> {
                &&& 0 < q.qty <= order
                &&& q.qty * m2 >= 2 * (inp.meta.min_notional * ONE)
                &&& inp.position_qty > 0 ==> q.qty == if order <= closable(inp) { order } else { closable(inp) }
                &&& inp.position_qty <= 0 ==> inp.allow_new_exposure && !inp.reduce_only
                &&& inp.position_qty <= 0 && i128::MIN <= cap2 + held2 <= i128::MAX ==> {
                    let room = inp.meta.spec_round_qty_down(clamp64((cap2 + held2) / m2));
                    q.qty == if order <= room { order } else { room } && cap2 + held2 >= inp.params.order_notional_usd * ONE
                }
            }
        }),
{
    reveal(QuoteInput::quotes);
}

// ------------------------------------------------------------------------------
// Inventory
// ------------------------------------------------------------------------------

/// The position as a share of the cap: its value over the cap, to the nearest last digit, and one at
/// most either way.
pub proof fn law_inventory_share(inp: QuoteInput)
    requires
        inp.bbo.valid(),
        inp.params.fault() is None,
    ensures
        ({
            let cap2 = 2 * inp.params.max_position_notional_usd;
            let held2 = inp.position_qty * (inp.bbo.bid + inp.bbo.ask);
            let r = inp.inv_ratio();
            &&& -ONE <= r <= ONE
            &&& abs_int(held2) <= cap2 * ONE ==> 2 * abs_int(r * cap2 - held2) <= cap2
            &&& held2 >= cap2 * ONE ==> r == ONE
            &&& held2 <= -(cap2 * ONE) ==> r == -ONE
        }),
{
    let cap2 = 2 * inp.params.max_position_notional_usd;
    let held2 = inp.position_qty * (inp.bbo.bid + inp.bbo.ask);
    law_rounds_to_nearest(held2, cap2);
    lemma_div_round_exact(ONE as int, cap2);
    lemma_div_round_exact(-ONE, cap2);
    assert(ONE * cap2 == cap2 * ONE && (-ONE) * cap2 == -(cap2 * ONE)) by (nonlinear_arith);
    if held2 >= cap2 * ONE {
        lemma_div_round_monotone(cap2 * ONE, held2, cap2);
    }
    if held2 <= cap2 * ONE {
        lemma_div_round_monotone(held2, cap2 * ONE, cap2);
    }
    if held2 <= -(cap2 * ONE) {
        lemma_div_round_monotone(held2, -(cap2 * ONE), cap2);
    }
    if held2 >= -(cap2 * ONE) {
        lemma_div_round_monotone(-(cap2 * ONE), held2, cap2);
    }
}

/// The skew is the share of the cap times the skew that is asked for, in whole ticks to the nearest, and
/// one tick at least from half the cap on.
pub proof fn law_skew_value(inp: QuoteInput)
    requires
        inp.bbo.valid(),
        inp.meta.tick_size > 0,
        inp.params.fault() is None,
        0 <= inp.params.inventory_skew_bps,
    ensures
        ({
            let m2 = inp.bbo.bid + inp.bbo.ask;
            let r = inp.inv_ratio();
            let s = inp.skew_ticks();
            let unit = 2 * (inp.tick() * BPS_ONE);
            exists|k: int|
                {
                    &&& 2 * abs_int(#[trigger] (k * ONE) - inp.params.inventory_skew_bps * r) <= ONE
                    &&& k == 0 ==> s == 0
                    &&& i64::MIN < s < i64::MAX ==> 2 * abs_int(s * unit - k * m2) <= unit || (s == 1 && 2 * r >= ONE) || (s == -1 && 2 * r <= -ONE)
                    &&& k != 0 && 2 * r >= ONE ==> s >= 1
                    &&& k != 0 && 2 * r <= -ONE ==> s <= -1
                }
        }),
{
    let m2 = inp.bbo.bid + inp.bbo.ask;
    let r = inp.inv_ratio();
    let w = inp.params.inventory_skew_bps as int;
    let unit = 2 * (inp.tick() * BPS_ONE);
    law_inventory_share(inp);
    law_rounds_to_nearest(w * r, ONE as int);
    lemma_ratio_small(w, r);
    let k = div_round(w * r, ONE as int);
    law_rounds_to_nearest(k * m2, unit);
    assert(2 * abs_int(k * ONE - w * r) <= ONE);
    assert(k >= 0 ==> k * m2 >= 0) by (nonlinear_arith)
        requires
            m2 > 0,
    ;
    assert(k <= 0 ==> k * m2 <= 0) by (nonlinear_arith)
        requires
            m2 > 0,
    ;
    assert(w * r >= 0 || r < 0) by (nonlinear_arith)
        requires
            w >= 0,
    ;
    assert(w * r <= 0 || r > 0) by (nonlinear_arith)
        requires
            w >= 0,
    ;
}

proof fn lemma_ratio_small(w: int, r: int)
    requires
        0 <= w <= i64::MAX,
        -ONE <= r <= ONE,
    ensures
        -i64::MAX <= div_round(w * r, ONE as int) <= i64::MAX,
{
    let a = abs_int(r);
    lemma_ratio_within(w, a, ONE as int);
    if r < 0 {
        lemma_ratio_within(-w, a, ONE as int);
        assert(w * r == (-w) * a) by (nonlinear_arith)
            requires
                a == -r,
        ;
    }
}

/// Inventory leans against itself: every tick of skew moves both prices down by one when long and up by
/// one when short, compared with the same market without a position, as long as they stay on their own
/// side of the market.
pub proof fn law_skew_moves_prices(flat: QuoteInput, inp: QuoteInput)
    requires
        inp.bbo.valid(),
        market_on_grid(inp),
        fair_in_range(inp),
        inp.params.fault() is None,
        *flat.meta == *inp.meta,
        *flat.params == *inp.params,
        *flat.bbo == *inp.bbo,
        *flat.stats == *inp.stats,
        flat.maker_fee == inp.maker_fee,
        flat.now_ms == inp.now_ms,
        flat.ref_dev_bps == inp.ref_dev_bps,
        flat.position_qty == 0,
    ensures
        ({
            let move_by = inp.skew_ticks() * inp.tick();
            let (bid, ask) = (flat.bid_price() - move_by, flat.ask_price() - move_by);
            &&& i64::MIN <= bid < inp.bbo.ask ==> inp.bid_price() == bid
            &&& inp.bbo.bid < ask <= i64::MAX ==> inp.ask_price() == ask
        }),
{
    assert(flat.fair() == inp.fair()) by {
        reveal(QuoteInput::shift);
    }
    assert(flat.bid_plan() == inp.bid_plan()) by {
        reveal(QuoteInput::bid_plan);
    }
    assert(flat.ask_plan() == inp.ask_plan()) by {
        reveal(QuoteInput::ask_plan);
    }
    lemma_flat_prices(flat);
    lemma_plan_in_range(flat);
    reveal(QuoteInput::bid_price);
    reveal(QuoteInput::ask_price);
    let t = inp.tick();
    let s = inp.skew_ticks();
    let k = lemma_bid_plan_grid(inp);
    let j = lemma_ask_plan_grid(inp);
    assert(k * t - s * t == (k - s) * t) by (nonlinear_arith);
    assert(j * t - s * t == (j - s) * t) by (nonlinear_arith);
    lemma_tick_price(*inp.meta, k - s);
    lemma_tick_price(*inp.meta, j - s);
}

/// Improving is for its own mode, and only where the spread that two ticks leave is still the required one.
pub proof fn law_when_improved(inp: QuoteInput)
    requires
        inp.bbo.valid(),
        i64::MIN <= 20_000 * inp.maker_fee + inp.params.min_edge_bps <= i64::MAX,
    ensures
        ({
            let m2 = inp.bbo.bid + inp.bbo.ask;
            let least = inp.params.min_spread_bps as int;
            let costs = 20_000 * inp.maker_fee + inp.params.min_edge_bps;
            let r = if least >= costs { least } else { costs };
            let left = inp.bbo.ask - inp.bbo.bid - 2 * inp.tick();
            &&& inp.required_bps() == r
            &&& inp.improves() <==> inp.params.quote_mode@ == "improve"@ && 2 * (left * BPS_ONE) >= r * m2
            &&& inp.is_inside() <==> inp.params.quote_mode@ == "inside"@
        }),
{
}

/// The shift that is shown is how far fair value lies from the mid, over the mid, in basis points to the
/// last digit below.
pub proof fn law_shift_shown(inp: QuoteInput)
    requires
        quotes_around_fair(inp),
        i64::MIN < inp.quotes().fair_shift_bps < i64::MAX,
    ensures
        ({
            let m2 = inp.bbo.bid + inp.bbo.ask;
            let off2 = 2 * inp.fair() - m2 * ONE;
            0 <= 10_000 * off2 - inp.quotes().fair_shift_bps * m2 < m2
        }),
{
    reveal(QuoteInput::quotes);
    let m2 = inp.bbo.bid + inp.bbo.ask;
    vstd::arithmetic::div_mod::lemma_fundamental_div_mod(inp.shift() * 20_000, m2);
    vstd::arithmetic::div_mod::lemma_mod_bound(inp.shift() * 20_000, m2);
    let k = (inp.shift() * 20_000) / m2;
    assert(m2 * k == k * m2) by (nonlinear_arith);
    assert(inp.quotes().fair_shift_bps == inp.shift_bps() as i64);
}

/// A price that the skew would carry through the market stays on its own side: a tick from the other side
/// in inside mode, at the best price of its own otherwise.
pub proof fn law_skew_never_crosses(inp: QuoteInput)
    requires
        inp.bbo.valid(),
        market_on_grid(inp),
    ensures
        ({
            let move_by = inp.skew_ticks() * inp.tick();
            &&& inp.bid_plan().px - move_by >= inp.bbo.ask ==> inp.bid_price() == if inp.is_inside() { inp.bbo.ask - inp.tick() } else { inp.bbo.bid as int }
            &&& inp.ask_plan().px - move_by <= inp.bbo.bid ==> inp.ask_price() == if inp.is_inside() { inp.bbo.bid + inp.tick() } else { inp.bbo.ask as int }
                || inp.bbo.bid + inp.tick() > i64::MAX
        }),
{
    reveal(QuoteInput::bid_price);
    reveal(QuoteInput::ask_price);
    let t = inp.tick();
    let m = *inp.meta;
    let kb = lemma_multiple(inp.bbo.bid as int, t);
    let ka = lemma_multiple(inp.bbo.ask as int, t);
    assert((kb + 1) * t == inp.bbo.bid + t) by (nonlinear_arith)
        requires
            inp.bbo.bid == kb * t,
    ;
    assert((ka - 1) * t == inp.bbo.ask - t) by (nonlinear_arith)
        requires
            inp.bbo.ask == ka * t,
    ;
    lemma_tick_price(m, kb);
    lemma_tick_price(m, ka);
    lemma_tick_price(m, kb + 1);
    lemma_tick_price(m, ka - 1);
}

/// With a position too, a side around fair value is withheld for cause only: it is in the way of the flow
/// or of the leading venue, stands too deep or not inside, would add exposure without leave or room, or is
/// too small. What is quoted stands at the price of its side.
pub proof fn law_side_withheld_for_cause(inp: QuoteInput)
    requires
        quotes_around_fair(inp),
        inp.base_qty() > 0,
        inp.worth_min(inp.base_qty()),
    ensures
        ({
            let p = *inp.params;
            let m2 = inp.bbo.bid + inp.bbo.ask;
            let cap2 = 2 * (p.max_position_notional_usd * ONE);
            let held2 = inp.position_qty * m2;
            let order = p.order_notional_usd * ONE;
            let free = inp.allow_new_exposure && !inp.reduce_only;
            &&& inp.quotes().bid matches Some(q) ==> q.price == inp.bid_price() as i64
            &&& inp.quotes().ask matches Some(q) ==> q.price == inp.ask_price() as i64
            &&& i128::MIN <= cap2 - held2 <= i128::MAX && inp.quotes().bid is None ==> {
                ||| p.toxicity_imbalance > 0 && inp.flow() < -p.toxicity_imbalance
                ||| p.ref_block_bps > 0 && inp.ref_dev_bps < -p.ref_block_bps
                ||| inp.bid_plan().lean || inp.bid_plan().no_room || (inp.is_inside() && 2 * inp.bid_price() <= 2 * inp.bbo.bid + inp.tick())
                ||| cap2 - held2 < order
                ||| inp.position_qty >= 0 && !free
                ||| inp.side_qty(Side::Buy) <= 0 || inp.side_qty(Side::Buy) * m2 < 2 * (inp.meta.min_notional * ONE)
            }
            &&& i128::MIN <= cap2 + held2 <= i128::MAX && inp.quotes().ask is None ==> {
                ||| p.toxicity_imbalance > 0 && inp.flow() > p.toxicity_imbalance
                ||| p.ref_block_bps > 0 && inp.ref_dev_bps > p.ref_block_bps
                ||| inp.ask_plan().lean || inp.ask_plan().no_room || (inp.is_inside() && 2 * inp.ask_price() >= 2 * inp.bbo.ask - inp.tick())
                ||| cap2 + held2 < order
                ||| inp.position_qty <= 0 && !free
                ||| inp.side_qty(Side::Sell) <= 0 || inp.side_qty(Side::Sell) * m2 < 2 * (inp.meta.min_notional * ONE)
            }
        }),
{
    reveal(QuoteInput::quotes);
}

} // verus!
