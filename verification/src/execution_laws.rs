//! How the paper exchange executes: every print at or through the price of a resting order acts on
//! it, the queue ahead goes first, a market that moves through the order takes all of it, and nothing
//! else touches it.

use vstd::prelude::*;
use crate::paper::{dones_by, fee_of, fills_by, kept_by, new_order, orders_of, step, OrderState, PaperEvent, PaperExchange, PaperOrder, PlaceReq, Terms};
use crate::paper_laws::fill_qty;
use crate::types::{Bbo, Fill, Side, SymbolId, Trade};
use crate::units::{abs_int, law_rounds_to_nearest, lemma_wide, wide_qty, ONE};

verus! {

/// A public trade acts on every resting order of its symbol on the other side whose price it reaches.
/// Through the price, it fills all that remains. At the price, it first takes from the queue ahead, and
/// what is left of it, as far as that counts, fills the order up to what remains. It leaves every other
/// order as it was.
pub proof fn law_trade_acts(t: Terms, b: Bbo, now: i64, o: PaperOrder, sym: SymbolId, x: Trade)
    requires
        o.wf(),
        o.queue_ahead >= 0,
        o.state != OrderState::Pending,
        x.qty >= 0,
        t.qty_eps >= 0,
    ensures
        ({
            let r = step(t, b, now, o, PaperEvent::Trade(sym, x));
            let buys = o.side == Side::Buy && x.taker_side == Side::Sell;
            let sells = o.side == Side::Sell && x.taker_side == Side::Buy;
            let through = buys && x.price < o.price || sells && x.price > o.price;
            let at = (buys || sells) && x.price == o.price;
            let remaining = o.qty - o.filled;
            &&& o.sym == sym && through ==> {
                &&& r.fill matches Some(f) && f.qty == remaining && f.price == o.price && f.is_maker
                &&& r.order is None
                &&& r.done matches Some(d) && d.filled == o.qty && d.status == "filled"
            }
            &&& o.sym == sym && at ==> {
                let left = if x.qty > o.queue_ahead { x.qty - o.queue_ahead } else { 0 };
                let got = if left < remaining { left } else { remaining };
                &&& r.fill is Some <==> wide_qty(left, o.price_digits) > t.qty_eps
                &&& r.fill matches Some(f) ==> f.qty == got && f.price == o.price && f.is_maker
                &&& r.fill is Some ==> (r.order is None <==> wide_qty(remaining - got, o.price_digits) <= t.qty_eps)
                &&& r.fill is None ==> r.order is Some
                &&& r.order matches Some(p) ==> p.queue_ahead == if x.qty < o.queue_ahead { o.queue_ahead - x.qty } else { 0 }
                &&& r.order matches Some(p) ==> p.filled == o.filled + fill_qty(r.fill) && p.state == o.state
            }
            &&& o.sym != sym || !(through || at) ==> r.order == Some(o) && r.fill is None && r.done is None
        }),
{
    let q = o.queue_ahead as int;
    lemma_wide(0, x.qty - q, o.price_digits);
    lemma_wide(0, x.qty as int, o.price_digits);
    lemma_wide(0, 0, o.price_digits);
    lemma_wide(0, o.qty - o.filled, o.price_digits);
}

/// Two prints at the order's price one after the other do what one print of both does.
pub proof fn law_prints_add_up(t: Terms, b: Bbo, now: i64, o: PaperOrder, x: Trade, y: Trade, z: Trade)
    requires
        o.wf(),
        o.queue_ahead >= 0,
        o.state != OrderState::Pending,
        o.filled < o.qty,
        t.qty_eps == 0,
        x.qty >= 0,
        y.qty >= 0,
        z.qty == x.qty + y.qty,
        x.price == o.price && y.price == o.price && z.price == o.price,
        x.taker_side != o.side && y.taker_side != o.side && z.taker_side != o.side,
        step(t, b, now, o, PaperEvent::Trade(o.sym, x)).order is Some,
    ensures
        ({
            let first = step(t, b, now, o, PaperEvent::Trade(o.sym, x));
            let then = step(t, b, now, first.order->0, PaperEvent::Trade(o.sym, y));
            let both = step(t, b, now, o, PaperEvent::Trade(o.sym, z));
            &&& fill_qty(first.fill) + fill_qty(then.fill) == fill_qty(both.fill)
            &&& then.order == both.order
        }),
{
    let first = step(t, b, now, o, PaperEvent::Trade(o.sym, x));
    let p = first.order->0;
    law_trade_acts(t, b, now, o, o.sym, x);
    law_trade_acts(t, b, now, p, o.sym, y);
    law_trade_acts(t, b, now, o, o.sym, z);
    let (q, m) = (o.queue_ahead as int, o.qty - o.filled);
    let left = if x.qty > q { x.qty - q } else { 0 };
    let all = if z.qty > q { z.qty - q } else { 0 };
    let more = if y.qty > p.queue_ahead { y.qty - p.queue_ahead } else { 0 };
    lemma_wide(0, left, o.price_digits);
    lemma_wide(0, all, o.price_digits);
    lemma_wide(0, more, o.price_digits);
    lemma_wide(0, m - left, o.price_digits);
    lemma_wide(0, m - all, o.price_digits);
    lemma_wide(0, 0, o.price_digits);
    assert(left < m);
    assert(all == left + more);
    assert(p.qty - p.filled == m - left);
}

/// A new top of book acts on the resting orders of its symbol alone. A bid of ours is taken whole once
/// the best ask comes down to it, an ask once the best bid comes up to it. Otherwise nothing is filled,
/// and the queue ahead is at most what is shown: at the best price no more than the size there, inside
/// the spread none, behind the best price as before.
pub proof fn law_book_acts(t: Terms, b: Bbo, now: i64, o: PaperOrder, sym: SymbolId, x: Bbo)
    requires
        o.wf(),
        o.state != OrderState::Pending,
        t.qty_eps >= 0,
    ensures
        ({
            let r = step(t, b, now, o, PaperEvent::Book(sym, x));
            let taken = o.side == Side::Buy && x.ask <= o.price || o.side == Side::Sell && x.bid >= o.price;
            let (best, size) = if o.side == Side::Buy { (x.bid, x.bid_qty) } else { (x.ask, x.ask_qty) };
            let inside = if o.side == Side::Buy { o.price > best } else { o.price < best };
            &&& o.sym != sym ==> r.order == Some(o) && r.fill is None && r.done is None
            &&& o.sym == sym && taken ==> {
                &&& r.fill matches Some(f) && f.qty == o.qty - o.filled && f.price == o.price && f.is_maker && f.bid == x.bid && f.ask == x.ask
                &&& r.order is None
                &&& r.done matches Some(d) && d.filled == o.qty && d.status == "filled"
            }
            &&& o.sym == sym && !taken ==> {
                &&& r.fill is None && r.done is None
                &&& r.order matches Some(p) && p.filled == o.filled && p.state == o.state && {
                    &&& inside ==> p.queue_ahead == 0
                    &&& o.price == best ==> p.queue_ahead <= size && p.queue_ahead <= o.queue_ahead && (p.queue_ahead == size || p.queue_ahead
                        == o.queue_ahead)
                    &&& !inside && o.price != best ==> p.queue_ahead == o.queue_ahead
                }
            }
        }),
{
    lemma_wide(0, 0, o.price_digits);
}

/// What the clock does to an order. One whose cancel is due leaves, with what it has filled. One whose
/// time has come, where there is a market, becomes active: a taker order is filled whole at the touch of
/// the other side; a post-only order that would trade at once is rejected, and otherwise rests behind
/// the size shown at the best price, or behind nothing inside the spread. Before its time, without a
/// market, or once it is active, it stays as it is.
pub proof fn law_clock_acts(t: Terms, b: Bbo, now: i64, o: PaperOrder)
    requires
        o.wf(),
        t.qty_eps >= 0,
    ensures
        ({
            let r = step(t, b, now, o, PaperEvent::Time);
            let due = o.cancel_at matches Some(c) && c <= now;
            let market = b.bid > 0 && b.ask > b.bid;
            let starts = !due && o.state == OrderState::Pending && o.ts_active <= now && market;
            let trades = if o.side == Side::Buy { o.price >= b.ask } else { o.price <= b.bid };
            let inside = if o.side == Side::Buy { o.price > b.bid } else { o.price < b.ask };
            let size = if o.side == Side::Buy { b.bid_qty } else { b.ask_qty };
            &&& due ==> r.order is None && r.fill is None && (r.done matches Some(d) && d.filled == o.filled && d.ts_done == now && d.status == if o.filled
                > 0 { "partial_cancelled" } else { "cancelled" })
            &&& starts && o.taker ==> {
                &&& r.fill matches Some(f) && f.qty == o.qty - o.filled && !f.is_maker && f.price == if o.side == Side::Buy { b.ask } else { b.bid }
                &&& r.order is None && (r.done matches Some(d) && d.filled == o.qty && d.status == "filled")
            }
            &&& starts && !o.taker && trades ==> r.order is None && r.fill is None && (r.done matches Some(d) && d.status == "rejected_post_only"
                && d.filled == o.filled)
            &&& starts && !o.taker && !trades ==> {
                &&& r.fill is None && r.done is None
                &&& r.order matches Some(p) && p.state == OrderState::Active && p.ts_active == now && p.filled == o.filled && p.queue_ahead == if inside {
                    0
                } else {
                    size
                } && p.queue_ahead_initial == p.queue_ahead
            }
            &&& !due && !starts ==> r.order == Some(o) && r.fill is None && r.done is None
        }),
{
    lemma_wide(0, 0, o.price_digits);
}

/// A cancel acts on the order it names, or on all of a symbol, and asks each to leave once the latency
/// has passed; one that was asked before keeps its time.
pub proof fn law_cancel_acts(t: Terms, b: Bbo, now: i64, o: PaperOrder, ev: PaperEvent)
    requires
        ev is Cancel || ev is CancelAll,
        i64::MIN <= now + t.latency_ms <= i64::MAX,
    ensures
        ({
            let r = step(t, b, now, o, ev);
            let meant = (ev matches PaperEvent::Cancel(id) && id == o.id) || (ev matches PaperEvent::CancelAll(sym) && sym == o.sym);
            &&& r.fill is None && r.done is None && r.order is Some
            &&& !meant || o.cancel_at is Some ==> r.order == Some(o)
            &&& meant && o.cancel_at is None ==> {
                let p = r.order->0;
                &&& p.cancel_at == Some((now + t.latency_ms) as i64)
                &&& o.state == OrderState::Active ==> p.state == OrderState::CancelPending
                &&& o.state != OrderState::Active ==> p.state == o.state
                &&& p == (PaperOrder { cancel_at: p.cancel_at, state: p.state, ..o })
            }
        }),
{
}

/// An order is booked as it was asked for, to become active once the latency has passed.
pub proof fn law_booked_as_asked(t: Terms, b: Bbo, now: i64, id: u64, req: PlaceReq)
    requires
        i64::MIN <= now + t.latency_ms <= i64::MAX,
    ensures
        ({
            let o = new_order(t, b, now, id, req);
            &&& o.id == id && o.sym == req.sym && o.side == req.side && o.price == req.price && o.qty == req.qty
            &&& o.taker == req.taker && o.purpose == req.purpose && o.param_version == req.param_version && o.price_digits == req.price_digits
            &&& o.inventory_before == req.inventory_before
            &&& o.filled == 0 && o.state == OrderState::Pending && o.cancel_at is None && o.ts_created == now
            &&& o.ts_active == now + t.latency_ms
            &&& b.bid > 0 && b.ask > b.bid ==> 2 * o.mid_at_place <= b.bid + b.ask <= 2 * o.mid_at_place + 1
            &&& !(b.bid > 0 && b.ask > b.bid) ==> o.mid_at_place == req.price && o.spread_bps_at_place == 0
        }),
{
}

/// The fee is the value of the fill times the rate, to the nearest last digit: a maker's for a maker, a
/// taker's for a taker.
pub proof fn law_fee_charged(t: Terms, b: Bbo, now: i64, o: PaperOrder, ev: PaperEvent)
    ensures
        step(t, b, now, o, ev).fill matches Some(f) ==> {
            let rate = if f.is_maker { t.maker_fee } else { t.taker_fee };
            i128::MIN < f.fee < i128::MAX ==> 2 * abs_int(f.fee * ONE - (f.qty * f.price) * rate) <= ONE
        },
{
    if let Some(f) = step(t, b, now, o, ev).fill {
        let rate = if f.is_maker { t.maker_fee as int } else { t.taker_fee as int };
        law_rounds_to_nearest((f.qty * f.price) * rate, ONE as int);
        assert(f.fee == fee_of(f.qty as int, f.price as int, rate));
    }
}

/// A fill and a final record tell of the order that they are about.
pub proof fn law_records_tell(t: Terms, b: Bbo, now: i64, o: PaperOrder, ev: PaperEvent)
    ensures
        step(t, b, now, o, ev).fill matches Some(f) ==> {
            &&& f.order_id == o.id && f.sym == o.sym && f.side == o.side && f.purpose == o.purpose && f.ts == now
            &&& f.placed_ts == o.ts_created && f.mid_at_place == o.mid_at_place && f.spread_bps_at_place == o.spread_bps_at_place
            &&& f.queue_ahead_initial == o.queue_ahead_initial && f.inventory_before == o.inventory_before
            &&& f.param_version == o.param_version && f.price_digits == o.price_digits
        },
        step(t, b, now, o, ev).done matches Some(d) ==> {
            &&& d.order_id == o.id && d.sym == o.sym && d.side == o.side && d.price == o.price && d.qty == o.qty && d.purpose == o.purpose
            &&& d.ts_created == o.ts_created && d.ts_done == now && d.spread_bps_at_place == o.spread_bps_at_place
            &&& d.queue_ahead_initial == o.queue_ahead_initial && d.param_version == o.param_version && d.price_digits == o.price_digits
        },
{
}

/// An event acts on each order by itself: what it does to the orders is what it does to the first of
/// them, followed by what it does to the rest.
pub proof fn law_orders_apart(t: Terms, m: Map<SymbolId, Bbo>, now: i64, os: Seq<PaperOrder>, more: Seq<PaperOrder>, ev: PaperEvent)
    ensures
        kept_by(t, m, now, os + more, ev) == kept_by(t, m, now, os, ev) + kept_by(t, m, now, more, ev),
        fills_by(t, m, now, os + more, ev) == fills_by(t, m, now, os, ev) + fills_by(t, m, now, more, ev),
        dones_by(t, m, now, os + more, ev) == dones_by(t, m, now, os, ev) + dones_by(t, m, now, more, ev),
    decreases more.len(),
{
    if more.len() == 0 {
        assert(os + more =~= os);
        assert(kept_by(t, m, now, os, ev) + kept_by(t, m, now, more, ev) =~= kept_by(t, m, now, os, ev));
        assert(fills_by(t, m, now, os, ev) + fills_by(t, m, now, more, ev) =~= fills_by(t, m, now, os, ev));
        assert(dones_by(t, m, now, os, ev) + dones_by(t, m, now, more, ev) =~= dones_by(t, m, now, os, ev));
    } else {
        let d = more.drop_last();
        law_orders_apart(t, m, now, os, d, ev);
        assert((os + more).drop_last() =~= os + d);
        assert((os + more).last() == more.last());
        assert(kept_by(t, m, now, os + more, ev) =~= kept_by(t, m, now, os, ev) + kept_by(t, m, now, more, ev));
        assert(fills_by(t, m, now, os + more, ev) =~= fills_by(t, m, now, os, ev) + fills_by(t, m, now, more, ev));
        assert(dones_by(t, m, now, os + more, ev) =~= dones_by(t, m, now, os, ev) + dones_by(t, m, now, more, ev));
    }
}

/// What an event does to a single order, as the exchange sees it: the market is the last one known of
/// the order's symbol.
pub proof fn law_one_order(t: Terms, m: Map<SymbolId, Bbo>, now: i64, o: PaperOrder, ev: PaperEvent)
    requires
        m.contains_key(o.sym),
    ensures
        ({
            let r = step(t, m[o.sym], now, o, ev);
            &&& kept_by(t, m, now, seq![o], ev) == match r.order {
                Some(p) => seq![p],
                None => Seq::empty(),
            }
            &&& fills_by(t, m, now, seq![o], ev) == match r.fill {
                Some(f) => seq![f],
                None => Seq::empty(),
            }
        }),
{
    let s = seq![o];
    let e = s.drop_last();
    assert(e =~= Seq::<PaperOrder>::empty());
    assert(s.last() == o);
    reveal_with_fuel(kept_by, 2);
    reveal_with_fuel(fills_by, 2);
    assert(kept_by(t, m, now, e, ev) =~= Seq::<PaperOrder>::empty());
    assert(fills_by(t, m, now, e, ev) =~= Seq::<Fill>::empty());
    assert(kept_by(t, m, now, s, ev) =~= match step(t, m[o.sym], now, o, ev).order {
        Some(p) => seq![p],
        None => Seq::empty(),
    });
    assert(fills_by(t, m, now, s, ev) =~= match step(t, m[o.sym], now, o, ev).fill {
        Some(f) => seq![f],
        None => Seq::empty(),
    });
}

/// The terms are the exchange's own, each under its name.
pub proof fn law_terms_are_its_own(ex: PaperExchange)
    ensures
        ex.terms().latency_ms == ex.latency_ms,
        ex.terms().maker_fee == ex.maker_fee,
        ex.terms().taker_fee == ex.taker_fee,
        ex.terms().qty_eps == ex.qty_eps,
{
}

/// Placing books one order behind the others, under an id of its own, and touches nothing else.
pub proof fn law_place_books(a: PaperExchange, b: PaperExchange, now: i64, req: PlaceReq)
    requires
        b.after_place(&a, now, req),
        a.next_id < u64::MAX,
    ensures
        b.orders@.len() == a.orders@.len() + 1,
        b.orders@.drop_last() == a.orders@,
        b.orders@.last().id == a.next_id,
        b.orders@.last() == new_order(a.terms(), a.market(req.sym), now, a.next_id, req),
        b.next_id == a.next_id + 1,
        b.fills@ == a.fills@ && b.done@ == a.done@ && b.last_bbo@ == a.last_bbo@,
{
    assert(b.orders@.drop_last() =~= a.orders@);
}

/// A top of book is the market of its symbol from then on, and of no other; one that is no market moves no
/// order.
pub proof fn law_top_is_noted(a: PaperExchange, b: PaperExchange, now: i64, sym: SymbolId, bbo: Bbo, other: SymbolId)
    requires
        b.after_bbo(&a, now, sym, bbo),
        other != sym,
    ensures
        b.market(sym) == bbo,
        b.market(other) == a.market(other),
        bbo.bid <= 0 || bbo.ask <= bbo.bid ==> b.orders@ == a.orders@ && b.fills@ == a.fills@ && b.done@ == a.done@,
        b.next_id == a.next_id,
{
}

/// What is handed over is gone from the exchange, and nothing else is.
pub proof fn law_drained_once(a: PaperExchange, b: PaperExchange)
    requires
        b.after_drain(&a),
    ensures
        b.fills@.len() == 0,
        b.done@.len() == 0,
        b.orders@ == a.orders@,
        b.next_id == a.next_id,
        b.last_bbo@ == a.last_bbo@,
{
}

/// The orders of a symbol are those of them that are its own.
pub proof fn law_orders_of_a_symbol(os: Seq<PaperOrder>, sym: SymbolId, o: PaperOrder)
    ensures
        orders_of(os, sym).contains(o) <==> os.contains(o) && o.sym == sym,
        orders_of(os, sym).len() <= os.len(),
    decreases os.len(),
{
    if os.len() > 0 {
        let d = os.drop_last();
        law_orders_of_a_symbol(d, sym, o);
        let (r, s) = (orders_of(d, sym), orders_of(os, sym));
        assert(os =~= d.push(os.last()));
        if os.contains(o) {
            let i = choose|i: int| 0 <= i < os.len() && os[i] == o;
            if i < d.len() {
                assert(d[i] == o);
            }
        }
        if d.contains(o) {
            let i = choose|i: int| 0 <= i < d.len() && d[i] == o;
            assert(os[i] == o);
        }
        if os.last().sym == sym {
            assert(s == r.push(os.last()));
            assert(s[r.len() as int] == os.last());
            if r.contains(o) {
                let i = choose|i: int| 0 <= i < r.len() && r[i] == o;
                assert(s[i] == o);
            }
            if s.contains(o) {
                let i = choose|i: int| 0 <= i < s.len() && s[i] == o;
                if i < r.len() {
                    assert(r[i] == o);
                }
            }
        }
        assert(os[os.len() - 1] == os.last());
    }
}

} // verus!
