//! At most one order of ours rests on each side of a symbol, and the symbol knows which: the engine
//! starts that way and every step of it keeps it so.

use vstd::prelude::*;
use crate::config::{Config, Overrides, SymbolLists};
use crate::engine::{active_refreshed, active_selected, aged_out, bbo_handled, bbo_noted, book_applied, book_counted, called_back, called_back_upto, clocked, closed_out, config_applied, config_checked, done_taken, dones_taken, drained, emptied, event_taken, fill_taken, fills_taken, finished_run, market_taken, markouts_resolved, matters, noted, paper_clocked, place_req, placed, reference_noted, refresh_stamped, requoted, rests_out, risk_taken, snapshots_sent, started, swept_upto, symbol_swept, symbols_judged, synced, takes_reference, tick_checked, tick_counted, ticked, time_taken, too_old, trade_taken, trades_taken, wanted_quotes, Engine, SymbolState};
use crate::paper::{dones_by, find_order, kept_by, market_of, new_order, step, OrderState, PaperEvent, PaperExchange, PaperOrder, Terms};
use crate::paper_laws::{ids_ascend, law_events_keep_ids, law_events_keep_symbols, law_place_new_id, syms_below};
use crate::strategy::Quote;
use crate::types::{Bbo, Fill, MarketEvent, OrderDone, Side, SymbolId, SymbolMeta, Trade};

verus! {

/// No order that rests has a final record waiting to be taken, and no id was given twice.
pub open spec fn ends_apart(os: Seq<PaperOrder>, ds: Seq<OrderDone>, next: u64) -> bool {
    &&& ids_ascend(os, next)
    &&& forall|k: int| 0 <= k < ds.len() ==> (#[trigger] ds[k]).order_id < next
    &&& forall|i: int, k: int| 0 <= i < os.len() && 0 <= k < ds.len() ==> (#[trigger] os[i]).id != (#[trigger] ds[k]).order_id
}

/// Each order is the one that its symbol has on its side.
pub open spec fn known_to_symbols(os: Seq<PaperOrder>, s: Seq<SymbolState>) -> bool {
    forall|i: int| 0 <= i < os.len() ==> (#[trigger] os[i]).sym < s.len() && s[os[i].sym as int].order_on(os[i].side) == Some(os[i].id)
}

/// What a symbol tracks on a side was given to an order, and if that order rests, it rests there.
pub open spec fn tracks_its_own(os: Seq<PaperOrder>, s: Seq<SymbolState>, next: u64) -> bool {
    &&& forall|x: int|
        0 <= x < s.len() ==> ((#[trigger] s[x]).bid_order matches Some(id) ==> id < next) && (s[x].ask_order matches Some(id) ==> id < next)
    &&& forall|x: int, i: int|
        0 <= x < s.len() && 0 <= i < os.len() ==> ((#[trigger] s[x]).bid_order == Some((#[trigger] os[i]).id) ==> os[i].sym == x && os[i].side
            == Side::Buy) && (s[x].ask_order == Some(os[i].id) ==> os[i].sym == x && os[i].side == Side::Sell)
}

/// Every order that rests is the one that its symbol tracks on that side.
pub open spec fn orders_tracked(e: Engine) -> bool {
    &&& ends_apart(e.paper.orders@, e.paper.done@, e.paper.next_id)
    &&& known_to_symbols(e.paper.orders@, e.symbols@)
    &&& tracks_its_own(e.paper.orders@, e.symbols@, e.paper.next_id)
    &&& syms_below(e.paper, e.symbols@.len() as int)
}

/// So no two orders rest on the same side of a symbol.
pub proof fn law_at_most_one_order(e: Engine, i: int, j: int)
    requires
        orders_tracked(e),
        0 <= i < e.paper.orders@.len(),
        0 <= j < e.paper.orders@.len(),
        e.paper.orders@[i].sym == e.paper.orders@[j].sym,
        e.paper.orders@[i].side == e.paper.orders@[j].side,
    ensures
        i == j,
{
    let os = e.paper.orders@;
    assert(os[i].id == os[j].id);
}

/// The symbols track the same orders.
pub open spec fn same_tracking(a: Engine, b: Engine) -> bool {
    &&& b.symbols@.len() == a.symbols@.len()
    &&& forall|i: int|
        0 <= i < a.symbols@.len() ==> (#[trigger] b.symbols@[i]).bid_order == a.symbols@[i].bid_order && b.symbols@[i].ask_order
            == a.symbols@[i].ask_order
}

/// A step that keeps the orders tracked and gives at most `k` new ids.
pub open spec fn keeps_tracking(a: Engine, b: Engine, k: int) -> bool {
    orders_tracked(a) && a.paper.next_id + k < u64::MAX ==> orders_tracked(b) && b.paper.next_id <= a.paper.next_id + k && b.symbols@.len()
        == a.symbols@.len()
}

proof fn lemma_trans(a: Engine, b: Engine, c: Engine, k: int, l: int)
    requires
        keeps_tracking(a, b, k),
        keeps_tracking(b, c, l),
        k >= 0,
        l >= 0,
    ensures
        keeps_tracking(a, c, k + l),
{
}

/// Nothing happens to the orders.
proof fn lemma_same(a: Engine, b: Engine)
    requires
        same_tracking(a, b),
        b.paper.orders@ == a.paper.orders@,
        b.paper.done@ == a.paper.done@,
        b.paper.fills@ == a.paper.fills@,
        b.paper.next_id == a.paper.next_id,
    ensures
        keeps_tracking(a, b, 0),
{
    if orders_tracked(a) {
        let os = b.paper.orders@;
        assert forall|i: int| 0 <= i < os.len() implies rested(a.paper.orders@, #[trigger] os[i]) by {
            assert(a.paper.orders@[i].id == os[i].id);
        }
        assert forall|i: int| 0 <= i < os.len() implies (#[trigger] os[i]).sym < b.symbols@.len() && b.symbols@[os[i].sym as int].order_on(os[i].side)
            == Some(os[i].id) by {
            assert(a.paper.orders@[i] == os[i]);
            assert(b.symbols@[os[i].sym as int].bid_order == a.symbols@[os[i].sym as int].bid_order);
        }
        lemma_tracks(a, b);
    }
}

/// What the symbols track does not change, and what rests rested before.
proof fn lemma_tracks(a: Engine, b: Engine)
    requires
        same_tracking(a, b),
        b.paper.next_id == a.paper.next_id,
        tracks_its_own(a.paper.orders@, a.symbols@, a.paper.next_id),
        forall|i: int| 0 <= i < b.paper.orders@.len() ==> rested(a.paper.orders@, #[trigger] b.paper.orders@[i]),
    ensures
        tracks_its_own(b.paper.orders@, b.symbols@, b.paper.next_id),
{
    let (os, s) = (b.paper.orders@, b.symbols@);
    assert forall|x: int| 0 <= x < s.len() implies ((#[trigger] s[x]).bid_order matches Some(id) ==> id < b.paper.next_id) && (s[x].ask_order matches Some(
        id,
    ) ==> id < b.paper.next_id) by {
        assert(a.symbols@[x].bid_order == s[x].bid_order && a.symbols@[x].ask_order == s[x].ask_order);
    }
    assert forall|x: int, i: int| 0 <= x < s.len() && 0 <= i < os.len() implies ((#[trigger] s[x]).bid_order == Some((#[trigger] os[i]).id) ==> os[i].sym
        == x && os[i].side == Side::Buy) && (s[x].ask_order == Some(os[i].id) ==> os[i].sym == x && os[i].side == Side::Sell) by {
        assert(rested(a.paper.orders@, os[i]));
        let j = choose|j: int|
            0 <= j < a.paper.orders@.len() && (#[trigger] a.paper.orders@[j]).id == os[i].id && a.paper.orders@[j].sym == os[i].sym
                && a.paper.orders@[j].side == os[i].side;
        assert(a.symbols@[x].bid_order == s[x].bid_order && a.symbols@[x].ask_order == s[x].ask_order);
    }
}

/// What an event leaves of the orders is of the orders, and those that it ends are not among it.
proof fn lemma_kept(t: Terms, m: Map<SymbolId, Bbo>, now: i64, os: Seq<PaperOrder>, ev: PaperEvent, next: u64, s: Seq<SymbolState>)
    requires
        ids_ascend(os, next),
        known_to_symbols(os, s),
    ensures
        known_to_symbols(kept_by(t, m, now, os, ev), s),
        ends_apart(kept_by(t, m, now, os, ev), dones_by(t, m, now, os, ev), next),
        os.len() > 0 ==> forall|k: int|
            0 <= k < dones_by(t, m, now, os, ev).len() ==> (#[trigger] dones_by(t, m, now, os, ev)[k]).order_id <= os.last().id,
        forall|i: int| 0 <= i < kept_by(t, m, now, os, ev).len() ==> rested(os, #[trigger] kept_by(t, m, now, os, ev)[i]),
    decreases os.len(),
{
    law_events_keep_ids(t, m, now, os, ev, next);
    if os.len() > 0 {
        let p = os.drop_last();
        assert(ids_ascend(p, next)) by {
            assert forall|i: int, j: int| 0 <= i < j < p.len() implies (#[trigger] p[i]).id < (#[trigger] p[j]).id by {
                assert(p[i] == os[i] && p[j] == os[j]);
            }
            assert forall|i: int| 0 <= i < p.len() implies (#[trigger] p[i]).id < next by {
                assert(p[i] == os[i]);
            }
        }
        assert forall|i: int| 0 <= i < p.len() implies (#[trigger] p[i]).sym < s.len() && s[p[i].sym as int].order_on(p[i].side) == Some(p[i].id) by {
            assert(p[i] == os[i]);
        }
        lemma_kept(t, m, now, p, ev, next, s);
        law_events_keep_ids(t, m, now, p, ev, next);
        let o = os.last();
        assert(o == os[os.len() - 1]);
        let r = step(t, market_of(m, o.sym), now, o, ev);
        assert(r.order matches Some(x) ==> x.id == o.id && x.sym == o.sym && x.side == o.side && r.done is None);
        assert(r.done matches Some(d) ==> d.order_id == o.id && r.order is None);
        let k0 = kept_by(t, m, now, p, ev);
        let d0 = dones_by(t, m, now, p, ev);
        let k = kept_by(t, m, now, os, ev);
        let d = dones_by(t, m, now, os, ev);
        if p.len() > 0 {
            assert(p.last() == os[os.len() - 2]);
            assert(p.last().id < o.id);
        }
        assert forall|i: int| 0 <= i < k.len() implies (#[trigger] k[i]).sym < s.len() && s[k[i].sym as int].order_on(k[i].side) == Some(k[i].id)
            && rested(os, k[i]) by {
            if i < k0.len() {
                assert(k[i] == k0[i]);
                assert(rested(p, k0[i]));
                let j = choose|j: int| 0 <= j < p.len() && (#[trigger] p[j]).id == k0[i].id && p[j].sym == k0[i].sym && p[j].side == k0[i].side;
                assert(os[j].id == k[i].id);
            } else {
                assert(os[os.len() - 1].id == k[i].id);
            }
        }
        assert forall|x: int| 0 <= x < d.len() implies (#[trigger] d[x]).order_id < next && d[x].order_id <= o.id by {
            if x < d0.len() {
                assert(d[x] == d0[x]);
                if p.len() == 0 {
                    assert(d0.len() == 0);
                }
            }
        }
        assert forall|i: int, x: int| 0 <= i < k.len() && 0 <= x < d.len() implies (#[trigger] k[i]).id != (#[trigger] d[x]).order_id by {
            if i < k0.len() {
                assert(k[i] == k0[i]);
            }
            if x < d0.len() {
                assert(d[x] == d0[x]);
            }
            if p.len() == 0 {
                assert(k0.len() == 0 && d0.len() == 0);
            }
        }
    }
}

/// The order was among those.
pub open spec fn rested(os: Seq<PaperOrder>, o: PaperOrder) -> bool {
    exists|j: int| 0 <= j < os.len() && (#[trigger] os[j]).id == o.id && os[j].sym == o.sym && os[j].side == o.side
}

/// An event of the paper exchange keeps the orders tracked.
proof fn lemma_event(a: Engine, b: Engine, now: i64, ev: PaperEvent)
    requires
        b.paper.after(&a.paper, now, ev),
        same_tracking(a, b),
    ensures
        keeps_tracking(a, b, 0),
{
    if orders_tracked(a) {
        let (t, m, os) = (a.paper.terms(), a.paper.last_bbo@, a.paper.orders@);
        lemma_kept(t, m, now, os, ev, a.paper.next_id, a.symbols@);
        law_events_keep_symbols(a.paper, b.paper, now, ev, a.symbols@.len() as int);
        lemma_tracks(a, b);
        let k = b.paper.orders@;
        let d = dones_by(t, m, now, os, ev);
        let ds = b.paper.done@;
        let n = a.paper.done@.len();
        assert forall|i: int| 0 <= i < k.len() implies (#[trigger] k[i]).sym < b.symbols@.len() && b.symbols@[k[i].sym as int].order_on(k[i].side)
            == Some(k[i].id) by {
            assert(a.symbols@[k[i].sym as int].order_on(k[i].side) == Some(k[i].id));
            assert(b.symbols@[k[i].sym as int].bid_order == a.symbols@[k[i].sym as int].bid_order);
        }
        assert forall|x: int| 0 <= x < ds.len() implies (#[trigger] ds[x]).order_id < b.paper.next_id by {
            if x < n {
                assert(ds[x] == a.paper.done@[x]);
            } else {
                assert(ds[x] == d[x - n]);
            }
        }
        assert forall|i: int, x: int| 0 <= i < k.len() && 0 <= x < ds.len() implies (#[trigger] k[i]).id != (#[trigger] ds[x]).order_id by {
            if x < n {
                assert(ds[x] == a.paper.done@[x]);
                assert(rested(os, k[i]));
                let j = choose|j: int| 0 <= j < os.len() && (#[trigger] os[j]).id == k[i].id && os[j].sym == k[i].sym && os[j].side == k[i].side;
                assert(os[j].id != a.paper.done@[x].order_id);
            } else {
                assert(ds[x] == d[x - n]);
            }
        }
    }
}

/// The place of an order is found by its id.
proof fn lemma_found(os: Seq<PaperOrder>, id: u64, from: int)
    requires
        0 <= from <= os.len(),
    ensures
        match find_order(os, id, from) {
            Some(i) => from <= i < os.len() && os[i].id == id,
            None => forall|i: int| from <= i < os.len() ==> (#[trigger] os[i]).id != id,
        },
    decreases os.len() - from,
{
    if from < os.len() && os[from].id != id {
        lemma_found(os, id, from + 1);
    }
}

/// Nothing rests on the side.
pub open spec fn side_empty(e: Engine, sym: SymbolId, side: Side) -> bool {
    forall|i: int| 0 <= i < e.paper.orders@.len() ==> !((#[trigger] e.paper.orders@[i]).sym == sym && e.paper.orders@[i].side == side)
}

proof fn lemma_placed(a: Engine, b: Engine, sym: SymbolId, side: Side, desired: Option<Quote>, now: i64)
    requires
        placed(a, b, sym, side, desired, now),
        (sym as int) < a.symbols@.len(),
        orders_tracked(a),
        side_empty(a, sym, side),
        a.paper.next_id < u64::MAX,
    ensures
        orders_tracked(b),
        b.paper.next_id <= a.paper.next_id + 1,
{
    let os = a.paper.orders@;
    let k = b.paper.orders@;
    if let Some(d) = desired {
        let o = new_order(a.paper.terms(), a.paper.market(sym), now, a.paper.next_id, place_req(a, sym, side, d));
        law_place_new_id(a.paper.terms(), a.paper.market(sym), now, os, a.paper.next_id, place_req(a, sym, side, d));
        assert(k == os.push(o));
    }
    assert forall|i: int| 0 <= i < k.len() implies (#[trigger] k[i]).sym < b.symbols@.len() && b.symbols@[k[i].sym as int].order_on(k[i].side) == Some(
        k[i].id,
    ) by {
        if i < os.len() {
            assert(k[i] == os[i]);
            assert(!(os[i].sym == sym && os[i].side == side));
            if os[i].sym == sym {
                assert(b.symbols@[sym as int] == a.sym(sym).with_order(side, b.symbols@[sym as int].order_on(side)));
            } else {
                assert(b.symbols@[os[i].sym as int] == a.symbols@[os[i].sym as int]);
            }
        }
    }
    assert forall|i: int, x: int| 0 <= i < k.len() && 0 <= x < b.paper.done@.len() implies (#[trigger] k[i]).id != (#[trigger] b.paper.done@[x]).order_id by {
        assert(b.paper.done@[x] == a.paper.done@[x]);
        if i < os.len() {
            assert(k[i] == os[i]);
        }
    }
    assert forall|i: int| 0 <= i < k.len() implies (#[trigger] k[i]).sym < b.symbols@.len() by {
        if i < os.len() {
            assert(k[i] == os[i]);
        }
    }
    let s = b.symbols@;
    assert forall|x: int| 0 <= x < s.len() implies ((#[trigger] s[x]).bid_order matches Some(id) ==> id < b.paper.next_id) && (s[x].ask_order matches Some(
        id,
    ) ==> id < b.paper.next_id) by {
        if x != sym as int {
            assert(s[x] == a.symbols@[x]);
        } else {
            assert(a.symbols@[x] == a.sym(sym));
        }
    }
    assert forall|x: int, i: int| 0 <= x < s.len() && 0 <= i < k.len() implies ((#[trigger] s[x]).bid_order == Some((#[trigger] k[i]).id) ==> k[i].sym
        == x && k[i].side == Side::Buy) && (s[x].ask_order == Some(k[i].id) ==> k[i].sym == x && k[i].side == Side::Sell) by {
        assert(a.symbols@[x].bid_order matches Some(id) ==> id < a.paper.next_id);
        if x != sym as int {
            assert(s[x] == a.symbols@[x]);
        }
        if i < os.len() {
            assert(k[i] == os[i]);
            assert(os[i].id < a.paper.next_id);
        }
    }
}

/// Bringing a side in line keeps at most one order on each side, the tracked one. A new order is
/// placed exactly when nothing rested on the side and one is wanted, and it is the wanted one; an
/// order that rests is left as it is if it matches or is on its way out, and is asked to cancel
/// otherwise, with nothing in its place yet.
pub proof fn law_side_synced(a: Engine, b: Engine, sym: SymbolId, side: Side, desired: Option<Quote>, now: i64)
    requires
        synced(a, b, sym, side, desired, now),
        (sym as int) < a.symbols@.len(),
        orders_tracked(a),
        a.paper.next_id < u64::MAX,
    ensures
        orders_tracked(b),
        b.paper.next_id <= a.paper.next_id + 1,
        b.symbols@.len() == a.symbols@.len(),
        b.paper.next_id != a.paper.next_id <==> side_empty(a, sym, side) && desired is Some,
        side_empty(a, sym, side) ==> match desired {
            Some(d) => b.paper.after_place(&a.paper, now, place_req(a, sym, side, d)) && b.sym(sym).order_on(side) == Some(a.paper.next_id),
            None => b.paper == a.paper && b.sym(sym).order_on(side) is None,
        },
        forall|i: int|
            0 <= i < a.paper.orders@.len() && (#[trigger] a.paper.orders@[i]).sym == sym && a.paper.orders@[i].side == side ==> {
                let o = a.paper.orders@[i];
                if o.state == OrderState::CancelPending || (desired matches Some(d) && crate::engine::matches_quote(
                    d,
                    o,
                    a.sym(sym).meta.tick_size as int,
                )) {
                    b == a
                } else {
                    b.paper.after(&a.paper, now, PaperEvent::Cancel(o.id)) && b.symbols@ == a.symbols@
                }
            },
{
    let os = a.paper.orders@;
    match a.sym(sym).order_on(side) {
        None => {
            assert(side_empty(a, sym, side));
            lemma_placed(a, b, sym, side, desired, now);
        },
        Some(id) => {
            lemma_found(os, id, 0);
            match find_order(os, id, 0) {
                None => {
                    assert(side_empty(a, sym, side));
                    lemma_placed(a, b, sym, side, desired, now);
                },
                Some(i) => {
                    assert forall|j: int| 0 <= j < os.len() && (#[trigger] os[j]).sym == sym && os[j].side == side implies j == i by {
                        assert(os[j].id == id);
                    }
                    if b.symbols@ == a.symbols@ && b != a {
                        lemma_event(a, b, now, PaperEvent::Cancel(id));
                    }
                    assert(a.symbols@[sym as int].order_on(side) == Some(os[i].id));
                    assert(os[i].sym == sym && os[i].side == side);
                    assert(!side_empty(a, sym, side));
                },
            }
        },
    }
}

/// Bringing a side in line keeps the orders tracked, as long as there are ids to give.
pub proof fn law_sync_tracks(a: Engine, b: Engine, sym: SymbolId, side: Side, desired: Option<Quote>, now: i64)
    requires
        synced(a, b, sym, side, desired, now),
        (sym as int) < a.symbols@.len(),
    ensures
        orders_tracked(a) && a.paper.next_id < u64::MAX ==> orders_tracked(b),
{
    if orders_tracked(a) && a.paper.next_id < u64::MAX {
        law_side_synced(a, b, sym, side, desired, now);
    }
}

proof fn lemma_synced(a: Engine, b: Engine, sym: SymbolId, side: Side, desired: Option<Quote>, now: i64)
    requires
        synced(a, b, sym, side, desired, now),
        (sym as int) < a.symbols@.len(),
    ensures
        keeps_tracking(a, b, 1),
{
    if orders_tracked(a) && a.paper.next_id + 1 < u64::MAX {
        law_side_synced(a, b, sym, side, desired, now);
    }
}

/// Quoting a symbol keeps at most one order on each side.
pub proof fn law_requote_tracks(a: Engine, b: Engine, sym: SymbolId, now: i64)
    requires
        requoted(a, b, sym, now),
        (sym as int) < a.symbols@.len(),
    ensures
        keeps_tracking(a, b, 2),
{
    match a.sym(sym).bbo {
        None => {},
        Some(bbo) => {
            if rests_out(a, sym) {
                if a.sym(sym).has_order() {
                    lemma_event(a, b, now, PaperEvent::CancelAll(sym));
                } else {
                    lemma_same(a, b);
                }
            } else if now - a.sym(sym).last_requote_ms >= a.sym(sym).params.min_requote_ms {
                let q = wanted_quotes(a, sym, bbo, now);
                let (x, y) = choose|x: Engine, y: Engine|
                    #[trigger] noted(a, x, sym, q, now) && #[trigger] synced(x, y, sym, Side::Buy, q.bid, now) && synced(
                        y,
                        b,
                        sym,
                        Side::Sell,
                        q.ask,
                        now,
                    );
                lemma_same(a, x);
                lemma_synced(x, y, sym, Side::Buy, q.bid, now);
                lemma_trans(a, x, y, 0, 1);
                if orders_tracked(a) && a.paper.next_id + 2 < u64::MAX {
                    lemma_synced(y, b, sym, Side::Sell, q.ask, now);
                }
            }
        },
    }
}

proof fn lemma_fills(a: Engine, b: Engine, fs: Seq<Fill>, now: i64)
    requires
        fills_taken(a, b, fs, now),
        forall|i: int| 0 <= i < fs.len() ==> (#[trigger] fs[i]).sym < a.symbols@.len(),
    ensures
        same_tracking(a, b),
        b.paper == a.paper,
    decreases fs.len(),
{
    if fs.len() > 0 {
        let m = choose|m: Engine| fills_taken(a, m, fs.drop_last(), now) && #[trigger] fill_taken(m, b, fs.last(), now);
        let p = fs.drop_last();
        assert forall|i: int| 0 <= i < p.len() implies (#[trigger] p[i]).sym < a.symbols@.len() by {
            assert(p[i] == fs[i]);
        }
        lemma_fills(a, m, p, now);
        let f = fs.last();
        assert(f == fs[fs.len() - 1]);
        assert forall|i: int| 0 <= i < a.symbols@.len() implies (#[trigger] b.symbols@[i]).bid_order == a.symbols@[i].bid_order
            && b.symbols@[i].ask_order == a.symbols@[i].ask_order by {
            assert(m.symbols@[i].bid_order == a.symbols@[i].bid_order && m.symbols@[i].ask_order == a.symbols@[i].ask_order);
            if i != f.sym as int {
                assert(b.symbols@[i] == m.symbols@[i]);
            }
        }
    }
}

/// Taking final records clears only what does not rest any more.
proof fn lemma_dones(a: Engine, b: Engine, ds: Seq<OrderDone>)
    requires
        dones_taken(a, b, ds),
        forall|k: int| 0 <= k < ds.len() ==> (#[trigger] ds[k]).sym < a.symbols@.len(),
        forall|i: int, k: int|
            0 <= i < a.paper.orders@.len() && 0 <= k < ds.len() ==> (#[trigger] a.paper.orders@[i]).id != (#[trigger] ds[k]).order_id,
        orders_tracked(a),
    ensures
        orders_tracked(b),
        b.paper == a.paper,
        b.symbols@.len() == a.symbols@.len(),
    decreases ds.len(),
{
    if ds.len() > 0 {
        let m = choose|m: Engine| dones_taken(a, m, ds.drop_last()) && #[trigger] done_taken(m, b, ds.last());
        let p = ds.drop_last();
        assert forall|k: int| 0 <= k < p.len() implies (#[trigger] p[k]).sym < a.symbols@.len() by {
            assert(p[k] == ds[k]);
        }
        assert forall|i: int, k: int| 0 <= i < a.paper.orders@.len() && 0 <= k < p.len() implies (#[trigger] a.paper.orders@[i]).id
            != (#[trigger] p[k]).order_id by {
            assert(p[k] == ds[k]);
        }
        lemma_dones(a, m, p);
        let d = ds.last();
        assert(d == ds[ds.len() - 1]);
        let os = b.paper.orders@;
        let s = b.symbols@;
        assert forall|i: int| 0 <= i < os.len() implies (#[trigger] os[i]).sym < s.len() && s[os[i].sym as int].order_on(os[i].side) == Some(os[i].id) by {
            assert(os[i] == a.paper.orders@[i]);
            assert(os[i].id != d.order_id);
            assert(m.symbols@[os[i].sym as int].order_on(os[i].side) == Some(os[i].id));
            if os[i].sym != d.sym {
                assert(s[os[i].sym as int] == m.symbols@[os[i].sym as int]);
            }
        }
        assert forall|x: int| 0 <= x < s.len() implies ((#[trigger] s[x]).bid_order == m.symbols@[x].bid_order || s[x].bid_order is None) && (
        s[x].ask_order == m.symbols@[x].ask_order || s[x].ask_order is None) by {
            if x != d.sym as int {
                assert(s[x] == m.symbols@[x]);
            }
        }
        assert(tracks_its_own(os, s, b.paper.next_id)) by {
            assert forall|x: int| 0 <= x < s.len() implies ((#[trigger] s[x]).bid_order matches Some(id) ==> id < b.paper.next_id) && (
            s[x].ask_order matches Some(id) ==> id < b.paper.next_id) by {
                assert(m.symbols@[x].bid_order matches Some(id) ==> id < m.paper.next_id);
            }
            assert forall|x: int, i: int| 0 <= x < s.len() && 0 <= i < os.len() implies ((#[trigger] s[x]).bid_order == Some((#[trigger] os[i]).id)
                ==> os[i].sym == x && os[i].side == Side::Buy) && (s[x].ask_order == Some(os[i].id) ==> os[i].sym == x && os[i].side
                == Side::Sell) by {
                assert(m.paper.orders@[i] == os[i]);
                assert(m.symbols@[x].bid_order == Some(os[i].id) ==> os[i].sym == x);
            }
        }
    }
}

/// Taking in what the paper exchange reports keeps the orders tracked.
pub proof fn law_drain_tracks(a: Engine, b: Engine, now: i64)
    requires
        drained(a, b, now),
    ensures
        keeps_tracking(a, b, 0),
{
    if orders_tracked(a) && (a.paper.fills@.len() != 0 || a.paper.done@.len() != 0) {
        let (x, y) = choose|x: Engine, y: Engine|
            #[trigger] emptied(a, x) && #[trigger] fills_taken(x, y, a.paper.fills@, now) && dones_taken(y, b, a.paper.done@);
        assert(orders_tracked(x)) by {
            assert(x.paper.orders@ == a.paper.orders@);
        }
        lemma_fills(x, y, a.paper.fills@, now);
        lemma_same(x, y);
        lemma_dones(y, b, a.paper.done@);
    }
}

proof fn lemma_bbo(a: Engine, b: Engine, sym: SymbolId, q: Bbo, now: i64)
    requires
        bbo_handled(a, b, sym, q, now),
        (sym as int) < a.symbols@.len(),
    ensures
        keeps_tracking(a, b, 2),
{
    let (x, y) = choose|x: Engine, y: Engine|
        #[trigger] bbo_noted(a, x, sym, q, now) && #[trigger] drained(x, y, now) && requoted(y, b, sym, now);
    assert(same_tracking(a, x));
    let n = Engine { paper: PaperExchange { last_bbo: x.paper.last_bbo, ..a.paper }, ..a };
    lemma_same(a, n);
    if q.valid() {
        lemma_event(n, x, now, PaperEvent::Book(sym, q));
    } else {
        lemma_same(n, x);
    }
    lemma_trans(a, n, x, 0, 0);
    law_drain_tracks(x, y, now);
    lemma_trans(a, x, y, 0, 0);
    if orders_tracked(a) && a.paper.next_id + 2 < u64::MAX {
        law_requote_tracks(y, b, sym, now);
    }
}

proof fn lemma_trades(a: Engine, b: Engine, sym: SymbolId, ts: Seq<Trade>, now: i64, rec: bool)
    requires
        trades_taken(a, b, sym, ts, now, rec),
        (sym as int) < a.symbols@.len(),
    ensures
        keeps_tracking(a, b, 0),
        b.symbols@.len() == a.symbols@.len(),
    decreases ts.len(),
{
    if ts.len() > 0 {
        let m = choose|m: Engine|
            trades_taken(a, m, sym, ts.drop_last(), now, rec) && #[trigger] trade_taken(m, b, sym, ts.last(), now, rec);
        lemma_trades(a, m, sym, ts.drop_last(), now, rec);
        lemma_event(m, b, now, PaperEvent::Trade(sym, ts.last()));
        lemma_trans(a, m, b, 0, 0);
    }
}

proof fn lemma_market_event(a: Engine, b: Engine, ev: MarketEvent, now: i64, ends: bool)
    requires
        event_taken(a, b, ev, now, ends),
    ensures
        keeps_tracking(a, b, 2),
{
    match ev {
        MarketEvent::Book { sym, ts, snapshot, bids, asks } => {
            if (sym as int) < a.symbols@.len() {
                let (m, q) = choose|m: Engine, q: Option<Bbo>|
                    #[trigger] book_applied(a, m, sym, ts, snapshot, bids@, asks@) && #[trigger] m.sym(sym).book.is_bbo(q) && match q {
                        Some(x) => bbo_handled(m, b, sym, x, now),
                        None => b == m,
                    };
                lemma_same(a, m);
                if let Some(x) = q {
                    lemma_bbo(m, b, sym, x, now);
                    lemma_trans(a, m, b, 0, 2);
                }
            }
        },
        MarketEvent::Bbo { sym, bbo } => {
            if (sym as int) < a.symbols@.len() {
                let m = choose|m: Engine| #[trigger] book_counted(a, m) && bbo_handled(m, b, sym, bbo, now);
                lemma_same(a, m);
                lemma_bbo(m, b, sym, bbo, now);
                lemma_trans(a, m, b, 0, 2);
            }
        },
        MarketEvent::Trades { sym, trades } => {
            if (sym as int) < a.symbols@.len() {
                let m = choose|m: Engine| #[trigger] trades_taken(a, m, sym, trades@, now, a.records(sym)) && drained(m, b, now);
                lemma_trades(a, m, sym, trades@, now, a.records(sym));
                law_drain_tracks(m, b, now);
                lemma_trans(a, m, b, 0, 0);
            }
        },
        MarketEvent::Turnover(v) => {
            lemma_same(a, b);
        },
        MarketEvent::Reference { sym, ts, bid, ask, rank } => {
            if (sym as int) < a.symbols@.len() && takes_reference(a, sym, bid, ask, rank, now) && bid > 0 && ask >= bid {
                let m = choose|m: Engine|
                    #[trigger] reference_noted(a, m, sym, ts, bid, ask, rank, now) && requoted(m, b, sym, now);
                lemma_same(a, m);
                law_requote_tracks(m, b, sym, now);
                lemma_trans(a, m, b, 0, 2);
            } else {
                lemma_same(a, b);
            }
        },
        MarketEvent::Status { conn, msg } => {
            lemma_same(a, b);
        },
    }
}

/// A market event keeps at most one order on each side of a symbol, the tracked one.
pub proof fn law_market_tracks(a: Engine, b: Engine, ev: MarketEvent, now: i64, due: bool)
    requires
        market_taken(a, b, ev, now, due),
        orders_tracked(a),
        a.paper.next_id + 2 < u64::MAX,
    ensures
        orders_tracked(b),
        b.paper.next_id <= a.paper.next_id + 2,
{
    let (x, y, ends) = choose|x: Engine, y: Engine, ends: bool|
        #[trigger] clocked(a, x, now) && #[trigger] event_taken(x, y, ev, now, ends) && if ends {
            b == y && !due
        } else {
            tick_checked(y, b, now, due)
        };
    lemma_event(a, x, now, PaperEvent::Time);
    lemma_market_event(x, y, ev, now, ends);
    lemma_trans(a, x, y, 0, 2);
    lemma_same(y, b);
}

/// So does the passing of time.
pub proof fn law_time_tracks(a: Engine, b: Engine, now: i64, due: bool)
    requires
        time_taken(a, b, now, due),
        orders_tracked(a),
        a.paper.next_id < u64::MAX,
    ensures
        orders_tracked(b),
        b.paper.next_id == a.paper.next_id,
{
    let (x, y) = choose|x: Engine, y: Engine|
        #[trigger] paper_clocked(a, x, now) && #[trigger] drained(x, y, now) && tick_checked(y, b, now, due);
    lemma_event(a, x, now, PaperEvent::Time);
    law_drain_tracks(x, y, now);
    lemma_same(y, b);
    lemma_drain_next(x, y, now);
}

proof fn lemma_fills_next(a: Engine, b: Engine, fs: Seq<Fill>, now: i64)
    requires
        fills_taken(a, b, fs, now),
    ensures
        b.paper == a.paper,
    decreases fs.len(),
{
    if fs.len() > 0 {
        let m = choose|m: Engine| fills_taken(a, m, fs.drop_last(), now) && #[trigger] fill_taken(m, b, fs.last(), now);
        lemma_fills_next(a, m, fs.drop_last(), now);
    }
}

proof fn lemma_dones_next(a: Engine, b: Engine, ds: Seq<OrderDone>)
    requires
        dones_taken(a, b, ds),
    ensures
        b.paper == a.paper,
    decreases ds.len(),
{
    if ds.len() > 0 {
        let m = choose|m: Engine| dones_taken(a, m, ds.drop_last()) && #[trigger] done_taken(m, b, ds.last());
        lemma_dones_next(a, m, ds.drop_last());
    }
}

proof fn lemma_drain_next(a: Engine, b: Engine, now: i64)
    requires
        drained(a, b, now),
    ensures
        b.paper.next_id == a.paper.next_id,
{
    if a.paper.fills@.len() != 0 || a.paper.done@.len() != 0 {
        let (x, y) = choose|x: Engine, y: Engine|
            #[trigger] emptied(a, x) && #[trigger] fills_taken(x, y, a.paper.fills@, now) && dones_taken(y, b, a.paper.done@);
        lemma_fills_next(x, y, a.paper.fills@, now);
        lemma_dones_next(y, b, a.paper.done@);
    }
}

proof fn lemma_aged(a: Engine, b: Engine, id: Option<u64>, max_age: i64, now: i64)
    requires
        aged_out(a, b, id, max_age, now),
    ensures
        keeps_tracking(a, b, 0),
        b.symbols@.len() == a.symbols@.len(),
{
    if too_old(a, id, max_age, now) {
        lemma_event(a, b, now, PaperEvent::Cancel(id->0));
    }
}

proof fn lemma_swept(a: Engine, b: Engine, n: nat, now: i64)
    requires
        swept_upto(a, b, n, now),
        n <= a.symbols@.len() <= u32::MAX,
        orders_tracked(a),
        a.paper.next_id + 2 * a.symbols@.len() < u64::MAX,
    ensures
        orders_tracked(b),
        b.paper.next_id <= a.paper.next_id + 2 * n,
        b.symbols@.len() == a.symbols@.len(),
    decreases n,
{
    if n > 0 {
        let m = choose|m: Engine| swept_upto(a, m, (n - 1) as nat, now) && #[trigger] symbol_swept(m, b, (n - 1) as SymbolId, now);
        lemma_swept(a, m, (n - 1) as nat, now);
        let sym = (n - 1) as SymbolId;
        let st = m.sym(sym);
        let (x, y) = choose|x: Engine, y: Engine|
            #[trigger] aged_out(m, x, st.bid_order, st.params.max_order_age_ms, now) && #[trigger] aged_out(
                x,
                y,
                st.ask_order,
                st.params.max_order_age_ms,
                now,
            ) && if matters(y, sym) {
                requoted(y, b, sym, now)
            } else {
                b == y
            };
        lemma_aged(m, x, st.bid_order, st.params.max_order_age_ms, now);
        lemma_aged(x, y, st.ask_order, st.params.max_order_age_ms, now);
        lemma_trans(m, x, y, 0, 0);
        if matters(y, sym) {
            law_requote_tracks(y, b, sym, now);
        }
    }
}

/// Housekeeping keeps at most one order on each side of a symbol, the tracked one.
pub proof fn law_tick_tracks(a: Engine, b: Engine, now: i64, vols: Seq<i64>, check: bool)
    requires
        ticked(a, b, now, vols, check),
        orders_tracked(a),
        a.symbols@.len() <= u32::MAX,
        a.paper.next_id + 2 * a.symbols@.len() < u64::MAX,
    ensures
        orders_tracked(b),
        b.paper.next_id <= a.paper.next_id + 2 * a.symbols@.len(),
{
    let (p, q, r, s, t, u) = choose|p: Engine, q: Engine, r: Engine, s: Engine, t: Engine, u: Engine|
        #[trigger] markouts_resolved(tick_counted(a), p, now) && #[trigger] symbols_judged(p, q, now, vols) && #[trigger] active_refreshed(q, r, now)
            && #[trigger] risk_taken(r, s, now) && #[trigger] swept_upto(s, t, s.symbols@.len(), now) && #[trigger] snapshots_sent(
            t,
            u,
            now,
        ) && config_checked(u, b, now, check);
    assert(same_tracking(a, p)) by {
        assert forall|i: int| 0 <= i < a.symbols@.len() implies (#[trigger] p.symbols@[i]).bid_order == a.symbols@[i].bid_order
            && p.symbols@[i].ask_order == a.symbols@[i].ask_order by {}
    }
    lemma_same(a, p);
    lemma_same(p, q);
    lemma_refreshed(q, r, now);
    lemma_same(r, s);
    lemma_swept(s, t, s.symbols@.len(), now);
    lemma_same(t, u);
    lemma_same(u, b);
}

proof fn lemma_refreshed(a: Engine, b: Engine, now: i64)
    requires
        active_refreshed(a, b, now),
    ensures
        keeps_tracking(a, b, 0),
        b.paper == a.paper,
        b.symbols@.len() == a.symbols@.len(),
{
    if b != a {
        let m = choose|m: Engine| #[trigger] refresh_stamped(a, m, now) && active_selected(m, b, now);
        assert(refresh_stamped(a, m, now) && active_selected(m, b, now));
        assert(same_tracking(a, b)) by {
            assert forall|i: int| 0 <= i < a.symbols@.len() implies (#[trigger] b.symbols@[i]).bid_order == a.symbols@[i].bid_order
                && b.symbols@[i].ask_order == a.symbols@[i].ask_order by {
                assert(m.symbols@[i] == a.symbols@[i]);
            }
        }
        lemma_same(a, b);
    }
}

/// So does a new configuration.
pub proof fn law_config_tracks(a: Engine, b: Engine, cfg: Config, ov: Overrides, lists: SymbolLists, now: i64)
    requires
        config_applied(a, b, cfg, ov, lists, now),
        orders_tracked(a),
        a.paper.next_id < u64::MAX,
    ensures
        orders_tracked(b),
        b.paper.next_id == a.paper.next_id,
{
    lemma_same(a, b);
}

/// An engine that has just started has no orders, and so tracks them all.
pub proof fn law_started_tracks(
    e: Engine,
    cfg: Config,
    ov: Overrides,
    lists: SymbolLists,
    metas: Seq<SymbolMeta>,
    null_store: bool,
    run_id: i64,
    mode: Seq<char>,
    start_ts: i64,
)
    requires
        started(e, cfg, ov, lists, metas, null_store, run_id, mode, start_ts),
    ensures
        orders_tracked(e),
        e.paper.next_id == 1,
{
    assert forall|x: int| 0 <= x < e.symbols@.len() implies (#[trigger] e.symbols@[x]).bid_order is None && e.symbols@[x].ask_order is None by {}
}

proof fn lemma_called_back(a: Engine, b: Engine, n: nat, now: i64)
    requires
        called_back_upto(a, b, n, now),
    ensures
        keeps_tracking(a, b, 0),
        b.symbols@ == a.symbols@,
    decreases n,
{
    if n > 0 {
        let m = choose|m: Engine| called_back_upto(a, m, (n - 1) as nat, now) && #[trigger] called_back(m, b, (n - 1) as SymbolId, now);
        lemma_called_back(a, m, (n - 1) as nat, now);
        if m.sym((n - 1) as SymbolId).has_order() {
            lemma_event(m, b, now, PaperEvent::CancelAll((n - 1) as SymbolId));
        }
        lemma_trans(a, m, b, 0, 0);
    }
}

/// The end of a run leaves no order that its symbol does not track.
pub proof fn law_finish_tracks(a: Engine, b: Engine, now: i64)
    requires
        finished_run(a, b, now),
        orders_tracked(a),
        a.paper.next_id < u64::MAX,
    ensures
        orders_tracked(b),
{
    let (x, y, z) = choose|x: Engine, y: Engine, z: Engine|
        #[trigger] called_back_upto(a, x, a.symbols@.len(), now) && #[trigger] paper_clocked(
            x,
            y,
            crate::units::clamp64(now + x.paper.latency_ms + 1) as i64,
        ) && #[trigger] drained(y, z, now) && closed_out(z, b, now);
    lemma_called_back(a, x, a.symbols@.len(), now);
    lemma_event(x, y, crate::units::clamp64(now + x.paper.latency_ms + 1) as i64, PaperEvent::Time);
    lemma_trans(a, x, y, 0, 0);
    law_drain_tracks(y, z, now);
    lemma_trans(a, y, z, 0, 0);
    lemma_same(z, b);
}

} // verus!
