//! What the paper exchange keeps through every event: no order fills beyond its size, each order
//! ends once, latency is honoured, post-only orders never take, queues only shrink.

use vstd::prelude::*;
use crate::paper::{activated, PaperExchange, cancel_requested, counts, crosses, dones_by, eaten, fills_by, kept_by, market_of, new_order, next_order_id, on_clock, step, unchanged, OrderState, PaperEvent, PaperOrder, PlaceReq, Terms};
use crate::types::{Bbo, Fill, OrderDone, Side, SymbolId};
use crate::units::lemma_wide;

verus! {

/// The parts of an order that never change.
pub open spec fn same_order(a: PaperOrder, b: PaperOrder) -> bool {
    &&& a.id == b.id
    &&& a.sym == b.sym
    &&& a.side == b.side
    &&& a.price == b.price
    &&& a.qty == b.qty
    &&& a.taker == b.taker
    &&& a.purpose == b.purpose
    &&& a.ts_created == b.ts_created
    &&& a.price_digits == b.price_digits
}

pub open spec fn fill_qty(f: Option<Fill>) -> int {
    match f {
        Some(x) => x.qty as int,
        None => 0,
    }
}

/// No event fills an order beyond its size. What is filled after the event is what was filled
/// before plus the fill that was reported, and an order leaves the book exactly with one final
/// record, which carries that amount. A fill ends the order exactly when what is left counts as
/// nothing.
pub proof fn law_step_conserves(t: Terms, b: Bbo, now: i64, o: PaperOrder, ev: PaperEvent)
    requires
        o.wf(),
        t.qty_eps >= 0,
    ensures
        ({
            let r = step(t, b, now, o, ev);
            let got = fill_qty(r.fill);
            &&& r.fill matches Some(f) ==> f.order_id == o.id && f.sym == o.sym && f.side == o.side && f.qty >= 0
            &&& match r.order {
                Some(p) => r.done is None && p.wf() && same_order(p, o) && p.filled == o.filled + got && (r.fill is Some ==> counts(
                    t,
                    p.qty - p.filled,
                    p.price_digits,
                )),
                None => r.done matches Some(d) && d.order_id == o.id && d.qty == o.qty && d.filled == o.filled + got && d.filled <= d.qty
                    && d.ts_done == now && d.price_digits == o.price_digits && (r.fill is Some ==> !counts(t, d.qty - d.filled, d.price_digits)),
            }
        }),
{
    lemma_wide(0, o.qty - o.filled, o.price_digits);
    if let PaperEvent::Trade(_, x) = ev {
        lemma_wide(0, x.qty - eaten(o, x), o.price_digits);
    }
}

/// A pending order does not react to the market, and before its latency has elapsed not to time
/// either unless a cancel falls due.
pub proof fn law_pending_waits(t: Terms, b: Bbo, now: i64, o: PaperOrder, ev: PaperEvent)
    requires
        o.state == OrderState::Pending,
        ev is Book || ev is Trade || (ev is Time && now < o.ts_active && (o.cancel_at matches Some(c) ==> now < c)),
    ensures
        step(t, b, now, o, ev) == unchanged(o),
{
}

/// An order placed at `at` stays pending until the latency has elapsed.
pub proof fn law_placement_latency(t: Terms, b: Bbo, at: i64, id: u64, req: PlaceReq, b2: Bbo, now: i64)
    requires
        at <= now < at + t.latency_ms,
        at + t.latency_ms <= i64::MAX,
    ensures
        step(t, b2, now, new_order(t, b, at, id, req), PaperEvent::Time) == unchanged(new_order(t, b, at, id, req)),
{
}

/// A cancel asked for at `at` takes effect once the latency has elapsed and not before: until
/// then an active order rests on, from then on the next tick of the clock ends it.
pub proof fn law_cancel_latency(t: Terms, b: Bbo, at: i64, o: PaperOrder, now: i64)
    requires
        o.cancel_at is None,
        o.state == OrderState::Active,
        at + t.latency_ms <= i64::MAX,
        at + t.latency_ms >= i64::MIN,
    ensures
        cancel_requested(t, at, o).state == OrderState::CancelPending,
        now < at + t.latency_ms ==> on_clock(t, b, now, cancel_requested(t, at, o)) == unchanged(cancel_requested(t, at, o)),
        now >= at + t.latency_ms ==> on_clock(t, b, now, cancel_requested(t, at, o)).order is None && on_clock(
            t,
            b,
            now,
            cancel_requested(t, at, o),
        ).fill is None,
        now >= at + t.latency_ms ==> (on_clock(t, b, now, cancel_requested(t, at, o)).done matches Some(d) && d.status == if o.filled > 0 {
            "partial_cancelled"
        } else {
            "cancelled"
        }),
{
}

/// Asking twice changes nothing: the first request counts.
pub proof fn law_cancel_once(t: Terms, at: i64, later: i64, o: PaperOrder)
    ensures
        cancel_requested(t, later, cancel_requested(t, at, o)) == cancel_requested(t, at, o),
{
}

/// Activation never fills a post-only order: it is rejected if it would cross and rests otherwise.
/// A taker order is filled at the touch of the other side.
pub proof fn law_activation(t: Terms, b: Bbo, now: i64, o: PaperOrder)
    requires
        b.valid(),
        o.wf(),
        t.qty_eps >= 0,
    ensures
        !o.taker ==> activated(t, b, now, o).fill is None,
        !o.taker ==> (crosses(o, b) <==> activated(t, b, now, o).order is None),
        !o.taker && crosses(o, b) ==> (activated(t, b, now, o).done matches Some(d) && d.status == "rejected_post_only"),
        !o.taker && !crosses(o, b) ==> (activated(t, b, now, o).order matches Some(p) && p.state == OrderState::Active && p.queue_ahead
            == p.queue_ahead_initial),
        o.taker ==> (activated(t, b, now, o).fill matches Some(f) && !f.is_maker && f.qty == o.qty - o.filled && f.price == match o.side {
            Side::Buy => b.ask,
            Side::Sell => b.bid,
        }),
        o.taker ==> activated(t, b, now, o).order is None,
{
    lemma_wide(0, 0, o.price_digits);
}

/// A maker fill is at the order's own price; only the activation of a taker order fills elsewhere.
pub proof fn law_fill_price(t: Terms, b: Bbo, now: i64, o: PaperOrder, ev: PaperEvent)
    ensures
        step(t, b, now, o, ev).fill matches Some(f) ==> {
            if f.is_maker {
                f.price == o.price && o.state != OrderState::Pending && !(ev is Time)
            } else {
                o.taker && o.state == OrderState::Pending && ev is Time && f.price == match o.side {
                    Side::Buy => b.ask,
                    Side::Sell => b.bid,
                }
            }
        },
{
}

/// The market does not push a resting order back in its queue.
pub proof fn law_queue_only_shrinks(t: Terms, b: Bbo, now: i64, o: PaperOrder, ev: PaperEvent)
    requires
        o.state != OrderState::Pending,
        o.queue_ahead >= 0,
        ev matches PaperEvent::Book(_, x) ==> x.sane(),
        ev matches PaperEvent::Trade(_, x) ==> x.qty >= 0,
    ensures
        step(t, b, now, o, ev).order matches Some(p) ==> 0 <= p.queue_ahead <= o.queue_ahead,
{
}

/// Every order either stays or gets one final record.
pub proof fn law_every_order_accounted(t: Terms, m: Map<SymbolId, Bbo>, now: i64, os: Seq<PaperOrder>, ev: PaperEvent)
    requires
        t.qty_eps >= 0,
        forall|i: int| 0 <= i < os.len() ==> (#[trigger] os[i]).wf(),
    ensures
        kept_by(t, m, now, os, ev).len() + dones_by(t, m, now, os, ev).len() == os.len(),
        forall|i: int| 0 <= i < kept_by(t, m, now, os, ev).len() ==> (#[trigger] kept_by(t, m, now, os, ev)[i]).wf(),
    decreases os.len(),
{
    if os.len() > 0 {
        let d = os.drop_last();
        assert forall|i: int| 0 <= i < d.len() implies (#[trigger] d[i]).wf() by {
            assert(d[i] == os[i]);
        }
        law_every_order_accounted(t, m, now, d, ev);
        assert(os[os.len() - 1].wf());
        law_step_conserves(t, market_of(m, os.last().sym), now, os.last(), ev);
    }
}

/// What the orders with this id have filled.
pub open spec fn filled_live(os: Seq<PaperOrder>, id: u64) -> int
    decreases os.len(),
{
    if os.len() == 0 {
        0
    } else {
        filled_live(os.drop_last(), id) + if os.last().id == id {
            os.last().filled as int
        } else {
            0
        }
    }
}

/// What the final records with this id have filled.
pub open spec fn filled_done(ds: Seq<OrderDone>, id: u64) -> int
    decreases ds.len(),
{
    if ds.len() == 0 {
        0
    } else {
        filled_done(ds.drop_last(), id) + if ds.last().order_id == id {
            ds.last().filled as int
        } else {
            0
        }
    }
}

/// What the fills with this id add up to.
pub open spec fn filled_by(fs: Seq<Fill>, id: u64) -> int
    decreases fs.len(),
{
    if fs.len() == 0 {
        0
    } else {
        filled_by(fs.drop_last(), id) + if fs.last().order_id == id {
            fs.last().qty as int
        } else {
            0
        }
    }
}

/// The fills of an order add up to what it has filled, whether it still rests or is done.
pub proof fn law_fills_add_up(t: Terms, m: Map<SymbolId, Bbo>, now: i64, os: Seq<PaperOrder>, ev: PaperEvent, id: u64)
    requires
        t.qty_eps >= 0,
        forall|i: int| 0 <= i < os.len() ==> (#[trigger] os[i]).wf(),
    ensures
        filled_live(kept_by(t, m, now, os, ev), id) + filled_done(dones_by(t, m, now, os, ev), id) == filled_live(os, id) + filled_by(
            fills_by(t, m, now, os, ev),
            id,
        ),
    decreases os.len(),
{
    if os.len() > 0 {
        let d = os.drop_last();
        assert forall|i: int| 0 <= i < d.len() implies (#[trigger] d[i]).wf() by {
            assert(d[i] == os[i]);
        }
        law_fills_add_up(t, m, now, d, ev, id);
        let o = os.last();
        assert(os[os.len() - 1].wf());
        let r = step(t, market_of(m, o.sym), now, o, ev);
        law_step_conserves(t, market_of(m, o.sym), now, o, ev);
        let k = kept_by(t, m, now, d, ev);
        let f = fills_by(t, m, now, d, ev);
        let e = dones_by(t, m, now, d, ev);
        if let Some(p) = r.order {
            assert(k.push(p).drop_last() =~= k);
        }
        if let Some(x) = r.fill {
            assert(f.push(x).drop_last() =~= f);
        }
        if let Some(x) = r.done {
            assert(e.push(x).drop_last() =~= e);
        }
    }
}

/// Orders stand in the order of their ids, all below the next one to be given.
pub open spec fn ids_ascend(os: Seq<PaperOrder>, next: u64) -> bool {
    &&& forall|i: int, j: int| 0 <= i < j < os.len() ==> (#[trigger] os[i]).id < (#[trigger] os[j]).id
    &&& forall|i: int| 0 <= i < os.len() ==> (#[trigger] os[i]).id < next
}

/// Ids are never given twice: placing keeps them ascending.
pub proof fn law_place_new_id(t: Terms, b: Bbo, now: i64, os: Seq<PaperOrder>, next: u64, req: PlaceReq)
    requires
        ids_ascend(os, next),
        next < u64::MAX,
    ensures
        ids_ascend(os.push(new_order(t, b, now, next, req)), next_order_id(next)),
{
}

/// No event reorders the orders or changes their ids.
pub proof fn law_events_keep_ids(t: Terms, m: Map<SymbolId, Bbo>, now: i64, os: Seq<PaperOrder>, ev: PaperEvent, next: u64)
    requires
        ids_ascend(os, next),
    ensures
        ids_ascend(kept_by(t, m, now, os, ev), next),
        os.len() > 0 ==> forall|i: int|
            0 <= i < kept_by(t, m, now, os, ev).len() ==> (#[trigger] kept_by(t, m, now, os, ev)[i]).id <= os.last().id,
    decreases os.len(),
{
    if os.len() > 0 {
        let d = os.drop_last();
        assert(ids_ascend(d, next)) by {
            assert forall|i: int, j: int| 0 <= i < j < d.len() implies (#[trigger] d[i]).id < (#[trigger] d[j]).id by {
                assert(d[i] == os[i] && d[j] == os[j]);
            }
            assert forall|i: int| 0 <= i < d.len() implies (#[trigger] d[i]).id < next by {
                assert(d[i] == os[i]);
            }
        }
        law_events_keep_ids(t, m, now, d, ev, next);
        let o = os.last();
        assert(os[os.len() - 1].id < next);
        let k = kept_by(t, m, now, d, ev);
        if d.len() > 0 {
            assert(os[d.len() - 1].id < os[os.len() - 1].id);
            assert(d.last() == os[d.len() - 1]);
        }
        let r = step(t, market_of(m, o.sym), now, o, ev);
        assert(r.order matches Some(p) ==> p.id == o.id);
        if d.len() == 0 {
            assert(k.len() == 0);
        }
    }
}

/// Every order, fill and final record is of one of the first `n` symbols.
pub open spec fn syms_below(ex: PaperExchange, n: int) -> bool {
    &&& forall|i: int| 0 <= i < ex.orders@.len() ==> (#[trigger] ex.orders@[i]).sym < n
    &&& forall|i: int| 0 <= i < ex.fills@.len() ==> (#[trigger] ex.fills@[i]).sym < n
    &&& forall|i: int| 0 <= i < ex.done@.len() ==> (#[trigger] ex.done@[i]).sym < n
}

proof fn lemma_step_syms(t: Terms, m: Map<SymbolId, Bbo>, now: i64, os: Seq<PaperOrder>, ev: PaperEvent, n: int)
    requires
        forall|i: int| 0 <= i < os.len() ==> (#[trigger] os[i]).sym < n,
    ensures
        forall|i: int| 0 <= i < kept_by(t, m, now, os, ev).len() ==> (#[trigger] kept_by(t, m, now, os, ev)[i]).sym < n,
        forall|i: int| 0 <= i < fills_by(t, m, now, os, ev).len() ==> (#[trigger] fills_by(t, m, now, os, ev)[i]).sym < n,
        forall|i: int| 0 <= i < dones_by(t, m, now, os, ev).len() ==> (#[trigger] dones_by(t, m, now, os, ev)[i]).sym < n,
    decreases os.len(),
{
    if os.len() > 0 {
        let d = os.drop_last();
        assert forall|i: int| 0 <= i < d.len() implies (#[trigger] d[i]).sym < n by {
            assert(d[i] == os[i]);
        }
        lemma_step_syms(t, m, now, d, ev, n);
        assert(os[os.len() - 1].sym < n);
    }
}

/// No event moves anything to another symbol.
pub proof fn law_events_keep_symbols(before: PaperExchange, after: PaperExchange, now: i64, ev: PaperEvent, n: int)
    requires
        after.after(&before, now, ev),
        syms_below(before, n),
    ensures
        syms_below(after, n),
{
    let t = before.terms();
    let m = before.last_bbo@;
    let os = before.orders@;
    lemma_step_syms(t, m, now, os, ev, n);
    assert forall|i: int| 0 <= i < after.fills@.len() implies (#[trigger] after.fills@[i]).sym < n by {
        let k = before.fills@.len() as int;
        if i < k {
            assert(after.fills@[i] == before.fills@[i]);
        } else {
            assert(after.fills@[i] == fills_by(t, m, now, os, ev)[i - k]);
        }
    }
    assert forall|i: int| 0 <= i < after.done@.len() implies (#[trigger] after.done@[i]).sym < n by {
        let k = before.done@.len() as int;
        if i < k {
            assert(after.done@[i] == before.done@[i]);
        } else {
            assert(after.done@[i] == dones_by(t, m, now, os, ev)[i - k]);
        }
    }
}

} // verus!
