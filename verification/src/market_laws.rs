//! What the figures of a market mean: mid, spread and imbalance of a quote, prices and sizes on the
//! grids of an instrument, and the order book that they come from.

use vstd::prelude::*;
use crate::book::Book;
use crate::types::{a_hair_below, lemma_lots_of, lemma_qty_grid, lemma_scale_unit, lot_floor, lots_of, scale_unit, Bbo, Side, SymbolMeta};
use crate::units::{abs_int, div_round, law_rounds_to_nearest, lemma_div_round_exact, lemma_div_round_monotone, lemma_wide, pow10, price_places, wide_qty, BPS_ONE, ONE};

verus! {

/// A market is one with both sides where the ask stands above the bid; its mid is half of their sum, to
/// the last digit below.
pub proof fn law_mid_is_half(b: Bbo)
    ensures
        b.valid() <==> b.bid > 0 && b.ask > b.bid,
        2 * b.spec_mid() <= b.bid + b.ask <= 2 * b.spec_mid() + 1,
{
}

/// The spread in basis points is the distance of the two prices over the mid, to the nearest last digit.
pub proof fn law_spread_value(b: Bbo)
    requires
        b.valid(),
    ensures
        b.spec_spread_bps() > 0 || 2 * ((b.ask - b.bid) * BPS_ONE) < b.bid + b.ask,
        b.spec_spread_bps() >= 0,
        b.spec_spread_bps() < i64::MAX ==> abs_int(2 * (b.spec_spread_bps() * (b.bid + b.ask)) - 4 * ((b.ask - b.bid) * BPS_ONE)) <= b.bid + b.ask,
{
    law_rounds_to_nearest(2 * ((b.ask - b.bid) * BPS_ONE), b.bid + b.ask);
    assert(b.spec_spread_bps() == 0 ==> 0 * (b.bid + b.ask) == 0);
}

/// With the same bid a higher ask shows no smaller spread.
pub proof fn law_spread_order(a: Bbo, b: Bbo)
    requires
        a.valid(),
        a.bid == b.bid,
        a.ask <= b.ask,
    ensures
        a.spec_spread_bps() <= b.spec_spread_bps(),
{
    let (n, d) = (2 * ((a.ask - a.bid) * BPS_ONE), a.bid + a.ask);
    let (m, e) = (2 * ((b.ask - b.bid) * BPS_ONE), b.bid + b.ask);
    let (x, y, z) = (a.ask - a.bid, b.ask - b.bid, a.bid as int);
    // x / (x + 2z) <= y / (y + 2z)
    assert(n * e <= m * d) by (nonlinear_arith)
        requires
            n == 2 * (x * BPS_ONE),
            m == 2 * (y * BPS_ONE),
            d == x + 2 * z,
            e == y + 2 * z,
            0 <= x <= y,
            z >= 0,
    ;
    lemma_fraction_order(n, d, m, e);
}

/// A smaller fraction rounds to no more.
pub proof fn lemma_fraction_order(n: int, d: int, m: int, e: int)
    requires
        n >= 0,
        m >= 0,
        d > 0,
        e > 0,
        n * e <= m * d,
    ensures
        div_round(n, d) <= div_round(m, e),
{
    let (p, q) = (div_round(n, d), div_round(m, e));
    law_rounds_to_nearest(n, d);
    law_rounds_to_nearest(m, e);
    if p > q {
        // p * d <= n + d / 2 and q * e > m - e / 2
        assert(false) by (nonlinear_arith)
            requires
                n * e <= m * d,
                d > 0,
                e > 0,
                p >= q + 1,
                2 * (n - p * d) >= -d,
                2 * (m - q * e) < e,
        ;
    }
}

/// The imbalance is what the bid size exceeds the ask size by, over both, to the nearest last digit: it is
/// positive for a heavier bid, negative for a heavier ask, and one with nothing on the other side.
pub proof fn law_imbalance_value(b: Bbo)
    requires
        b.bid_qty >= 0,
        b.ask_qty >= 0,
    ensures
        ({
            let all = b.bid_qty + b.ask_qty;
            let i = b.spec_imbalance();
            &&& all == 0 ==> i == 0
            &&& all > 0 ==> 2 * abs_int(i * all - (b.bid_qty - b.ask_qty) * ONE) <= all
            &&& b.bid_qty >= b.ask_qty ==> i >= 0
            &&& b.bid_qty <= b.ask_qty ==> i <= 0
            &&& b.bid_qty > 0 && b.ask_qty == 0 ==> i == ONE
            &&& b.ask_qty > 0 && b.bid_qty == 0 ==> i == -ONE
            &&& -ONE <= i <= ONE
        }),
{
    let all = b.bid_qty + b.ask_qty;
    crate::types::law_bbo_derived(Bbo { bid: 0, ask: 0, ..b });
    if all > 0 {
        law_rounds_to_nearest((b.bid_qty - b.ask_qty) * ONE, all);
        lemma_div_round_exact(ONE as int, all);
        lemma_div_round_exact(-ONE, all);
        assert(ONE * all == all * ONE && (-ONE) * all == -all * ONE) by (nonlinear_arith);
    }
}

/// A buy counts up and a sell counts down.
pub proof fn law_sides(s: Side)
    ensures
        Side::Buy.spec_sign() == 1,
        Side::Sell.spec_sign() == -1,
        s.spec_opposite() != s,
{
}

// ------------------------------------------------------------------------------
// Grids
// ------------------------------------------------------------------------------

/// A price in ticks is the nearest whole number of them, and whole ticks are a price again, to the
/// decimals that the instrument shows.
pub proof fn law_price_grid(m: SymbolMeta, price: int, ticks: int)
    requires
        m.tick_size > 0,
    ensures
        2 * abs_int(price - m.spec_price_to_ticks(price) * m.tick_size) <= m.tick_size,
        m.spec_price_to_ticks(ticks * m.tick_size) == ticks,
        (m.tick_size as int) % scale_unit(m.price_digits, m.price_scale) == 0 && i64::MIN <= ticks * m.tick_size <= i64::MAX
            ==> m.spec_ticks_to_price(ticks) == ticks * m.tick_size,
        i64::MIN < m.spec_ticks_to_price(ticks) < i64::MAX ==> 2 * abs_int(m.spec_ticks_to_price(ticks) - ticks * m.tick_size) <= scale_unit(
            m.price_digits,
            m.price_scale,
        ),
{
    let t = m.tick_size as int;
    let u = scale_unit(m.price_digits, m.price_scale);
    law_rounds_to_nearest(price, t);
    lemma_div_round_exact(ticks, t);
    lemma_scale_unit(m.price_digits, m.price_scale);
    law_rounds_to_nearest(ticks * t, u);
    if t % u == 0 {
        let n = t / u;
        assert(t == n * u) by (nonlinear_arith)
            requires
                t % u == 0,
                n == t / u,
                u > 0,
        ;
        assert(ticks * t == (ticks * n) * u) by (nonlinear_arith)
            requires
                t == n * u,
        ;
        lemma_div_round_exact(ticks * n, u);
    }
}

/// A tick in basis points of a price is the tick over the price, to the nearest last digit.
pub proof fn law_tick_bps_value(m: SymbolMeta, price: int)
    requires
        m.tick_size > 0,
    ensures
        price <= 0 ==> m.spec_tick_bps(price) == 0,
        price > 0 && m.spec_tick_bps(price) < i64::MAX ==> 2 * abs_int(m.spec_tick_bps(price) * price - m.tick_size * BPS_ONE) <= price,
{
    if price > 0 {
        law_rounds_to_nearest(m.tick_size * BPS_ONE, price);
        assert(m.tick_size * BPS_ONE >= 0);
    }
}

/// Whole lots of a quantity are the most that it holds: one lot more would be more than the quantity. They
/// are at most the largest order, and none where they are less than the least.
pub proof fn law_lots_are_most(digits: u32, step: i64, min: i64, max: i64, qty: i64)
    requires
        digits >= 6,
        step > 0,
        qty >= 0,
        0 <= min <= max,
        !a_hair_below(step as int, qty as int),
    ensures
        ({
            let r = lot_floor(digits, step as int, min as int, max as int, qty as int);
            &&& 0 <= r <= qty
            &&& r <= max
            &&& r == 0 || r >= min
            &&& r + step > qty || r == max || (r == 0 && exists|k: int| #[trigger] (k * step) < min && k * step + step > qty)
        }),
{
    let s = step as int;
    let q = lots_of(s, qty as int);
    let k = qty as int / s;
    lemma_lots_of(s, qty as int);
    lemma_qty_grid(q, digits);
    lemma_wide(q, min as int, digits);
    lemma_wide(min as int - q, 0, digits);
    let u = pow10(price_places(digits) as nat);
    lemma_div_round_exact(q, u);
    assert(q * u == wide_qty(q, digits));
    assert(k * s <= qty < k * s + s && k >= 0) by (nonlinear_arith)
        requires
            s > 0,
            qty >= 0,
            k == qty as int / s,
    ;
    assert(k * s >= 0) by (nonlinear_arith)
        requires
            k >= 0,
            s > 0,
    ;
    assert(wide_qty(min - q, digits) == wide_qty(min as int, digits) - wide_qty(q, digits)) by (nonlinear_arith)
        requires
            wide_qty(min - q, digits) == (min - q) * u,
            wide_qty(min as int, digits) == min * u,
            wide_qty(q, digits) == q * u,
    ;
    if q < min {
        assert(k * step < min);
    }
}

// ------------------------------------------------------------------------------
// The order book
// ------------------------------------------------------------------------------

/// The top of the book is the best of each side: no bid is priced higher than the best bid and no ask
/// lower than the best ask, and the sizes are those at these prices.
pub proof fn law_top_is_best(book: Book, q: Bbo, k: i64)
    requires
        book.is_bbo(Some(q)),
        book.tick_size > 0,
    ensures
        book.bids@.contains_key(k) ==> book.spec_price(k as int) <= q.bid,
        book.asks@.contains_key(k) ==> book.spec_price(k as int) >= q.ask,
        exists|b: i64| #[trigger] book.bids@.contains_key(b) && book.bids@[b] == q.bid_qty && book.spec_price(b as int) == q.bid,
        exists|a: i64| #[trigger] book.asks@.contains_key(a) && book.asks@[a] == q.ask_qty && book.spec_price(a as int) == q.ask,
        q.ts == book.last_ts,
        0 < q.bid < q.ask,
{
    let (bk, ak) = choose|bk: i64, ak: i64| book.is_top(bk, ak, q);
    if book.bids@.contains_key(k) {
        lemma_price_order(book, k as int, bk as int);
    }
    if book.asks@.contains_key(k) {
        lemma_price_order(book, ak as int, k as int);
    }
    assert(book.bids@.contains_key(bk) && book.bids@[bk] == q.bid_qty);
    assert(book.asks@.contains_key(ak) && book.asks@[ak] == q.ask_qty);
}

/// More ticks are no lower price.
proof fn lemma_price_order(book: Book, a: int, b: int)
    requires
        book.tick_size > 0,
        a <= b,
    ensures
        book.spec_price(a) <= book.spec_price(b),
{
    let t = book.tick_size as int;
    let u = scale_unit(book.price_digits, book.price_scale);
    lemma_scale_unit(book.price_digits, book.price_scale);
    assert(a * t <= b * t) by (nonlinear_arith)
        requires
            a <= b,
            t > 0,
    ;
    lemma_div_round_monotone(a * t, b * t, u);
    let (x, y) = (div_round(a * t, u), div_round(b * t, u));
    assert(x * u <= y * u) by (nonlinear_arith)
        requires
            x <= y,
            u > 0,
    ;
}

/// After a message, the levels of the side that it brought are as it says, the last word on a level
/// counting; a level that it does not name is as before, or gone with a snapshot. Where the sides would
/// cross, asks at or below the best bid go if the message brought bids alone, and bids at or above the
/// best ask go otherwise.
pub proof fn law_message_applied(old: Book, new: Book, ts: i64, snapshot: bool, bids: Seq<(i64, i64)>, asks: Seq<(i64, i64)>, k: i64)
    requires
        new.after_apply(&old, ts, snapshot, bids, asks),
    ensures
        ({
            let t = old.tick_size as int;
            let only_bids = bids.len() > 0 && asks.len() == 0;
            let b = old.raw_bids(snapshot, bids);
            let a = old.raw_asks(snapshot, asks);
            &&& new.last_ts == ts && new.tick_size == old.tick_size
            &&& new.has_snapshot == (snapshot || old.has_snapshot)
            &&& snapshot && bids.len() == 0 ==> new.bids@.dom() =~= Set::<i64>::empty()
            &&& snapshot && asks.len() == 0 ==> new.asks@.dom() =~= Set::<i64>::empty()
            &&& !snapshot && bids.len() == 0 ==> b == old.bids@
            &&& !snapshot && asks.len() == 0 ==> a == old.asks@
            &&& only_bids ==> new.bids@ == b && (new.asks@.contains_key(k) <==> a.contains_key(k) && forall|j: i64| #[trigger] b.contains_key(j) ==> j < k)
            &&& !only_bids ==> new.asks@ == a && (new.bids@.contains_key(k) <==> b.contains_key(k) && forall|j: i64| #[trigger] a.contains_key(j) ==> k
                < j)
            &&& new.bids@.contains_key(k) ==> b.contains_key(k) && new.bids@[k] == b[k]
            &&& new.asks@.contains_key(k) ==> a.contains_key(k) && new.asks@[k] == a[k]
        }),
{
}

} // verus!
