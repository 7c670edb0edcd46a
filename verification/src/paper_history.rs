//! What holds of the paper exchange over every sequence of calls: the fills of an order add up to what
//! it has filled, and every order that was placed either rests or has ended exactly once.

use vstd::prelude::*;
use crate::paper::{counts, dones_by, fee_of, fills_by, kept_by, market_of, new_order, step, OrderState, PaperEvent, PaperExchange, PaperOrder, PlaceReq, Terms};
use crate::paper_laws::{filled_by, filled_done, filled_live, law_fills_add_up, law_step_conserves};
use crate::types::{Bbo, Fill, OrderDone, SymbolId, Trade};
use crate::units::lemma_wide;

verus! {

/// A call of the exchange.
pub enum Call {
    Place(i64, PlaceReq),
    Time(i64),
    Quote(i64, SymbolId, Bbo),
    Print(i64, SymbolId, Trade),
    Cancel(i64, u64),
    CancelAll(i64, SymbolId),
    Drain,
}

/// `b` is `a` after the call.
pub open spec fn called(a: PaperExchange, b: PaperExchange, c: Call) -> bool {
    match c {
        Call::Place(now, req) => b.after_place(&a, now, req),
        Call::Time(now) => b.after(&a, now, PaperEvent::Time),
        Call::Quote(now, sym, bbo) => b.after_bbo(&a, now, sym, bbo),
        Call::Print(now, sym, x) => b.after(&a, now, PaperEvent::Trade(sym, x)),
        Call::Cancel(now, id) => b.after(&a, now, PaperEvent::Cancel(id)),
        Call::CancelAll(now, sym) => b.after(&a, now, PaperEvent::CancelAll(sym)),
        Call::Drain => b.after_drain(&a),
    }
}

/// The exchange goes through the states `xs`, starting fresh, one call after the other; every order
/// that is placed has a size that counts.
pub open spec fn history(xs: Seq<PaperExchange>, cs: Seq<Call>, t: Terms) -> bool {
    &&& xs.len() == cs.len() + 1
    &&& cs.len() < u64::MAX - 1
    &&& t.qty_eps >= 0
    &&& xs[0].is_fresh(t)
    &&& forall|i: int| 0 <= i < cs.len() ==> called(xs[i], xs[i + 1], #[trigger] cs[i])
    &&& forall|i: int| 0 <= i < cs.len() ==> ((#[trigger] cs[i]) matches Call::Place(_, req) ==> counts(t, req.qty as int, req.price_digits))
}

/// The fills that were handed over in the first `n` calls.
pub open spec fn fills_taken(xs: Seq<PaperExchange>, cs: Seq<Call>, n: nat) -> Seq<Fill>
    decreases n,
{
    if n == 0 {
        Seq::empty()
    } else if cs[n - 1] is Drain {
        fills_taken(xs, cs, (n - 1) as nat) + xs[n - 1].fills@
    } else {
        fills_taken(xs, cs, (n - 1) as nat)
    }
}

/// The final records that were handed over in the first `n` calls.
pub open spec fn dones_taken(xs: Seq<PaperExchange>, cs: Seq<Call>, n: nat) -> Seq<OrderDone>
    decreases n,
{
    if n == 0 {
        Seq::empty()
    } else if cs[n - 1] is Drain {
        dones_taken(xs, cs, (n - 1) as nat) + xs[n - 1].done@
    } else {
        dones_taken(xs, cs, (n - 1) as nat)
    }
}

/// Every fill of the first `n` calls, handed over or not.
pub open spec fn all_fills(xs: Seq<PaperExchange>, cs: Seq<Call>, n: nat) -> Seq<Fill> {
    fills_taken(xs, cs, n) + xs[n as int].fills@
}

/// Every final record of the first `n` calls, handed over or not.
pub open spec fn all_dones(xs: Seq<PaperExchange>, cs: Seq<Call>, n: nat) -> Seq<OrderDone> {
    dones_taken(xs, cs, n) + xs[n as int].done@
}

/// How many of the orders have the id.
pub open spec fn live_count(os: Seq<PaperOrder>, id: u64) -> int
    decreases os.len(),
{
    if os.len() == 0 {
        0
    } else {
        live_count(os.drop_last(), id) + if os.last().id == id {
            1int
        } else {
            0int
        }
    }
}

/// How many of the final records have the id.
pub open spec fn done_count(ds: Seq<OrderDone>, id: u64) -> int
    decreases ds.len(),
{
    if ds.len() == 0 {
        0
    } else {
        done_count(ds.drop_last(), id) + if ds.last().order_id == id {
            1int
        } else {
            0int
        }
    }
}

/// The id has been given to an order.
pub open spec fn given(id: u64, next: u64) -> bool {
    1 <= id < next
}

/// A final record that is right: no more filled than ordered, and "filled" exactly when what is left
/// counts as nothing.
pub open spec fn right_record(t: Terms, d: OrderDone) -> bool {
    &&& 0 <= d.filled <= d.qty
    &&& d.status@ == "filled"@ <==> !counts(t, d.qty - d.filled, d.price_digits)
}

/// An order of which something is left.
pub open spec fn unfinished(t: Terms, o: PaperOrder) -> bool {
    0 <= o.filled <= o.qty && counts(t, o.qty - o.filled, o.price_digits)
}

/// The books are right: each id that was given belongs to one order that rests or to one that has
/// ended, and no other does; the fills of an id add up to what its order has filled.
pub open spec fn accounted(ex: PaperExchange, fs: Seq<Fill>, ds: Seq<OrderDone>) -> bool {
    &&& forall|id: u64|
        #[trigger] live_count(ex.orders@, id) + done_count(ds, id) == if given(id, ex.next_id) {
            1int
        } else {
            0int
        }
    &&& forall|id: u64| #[trigger] filled_by(fs, id) == filled_live(ex.orders@, id) + filled_done(ds, id)
    &&& forall|i: int| 0 <= i < ex.orders@.len() ==> unfinished(ex.terms(), #[trigger] ex.orders@[i])
    &&& forall|k: int| 0 <= k < ds.len() ==> right_record(ex.terms(), #[trigger] ds[k])
}

proof fn lemma_filled_by_add(a: Seq<Fill>, b: Seq<Fill>, id: u64)
    ensures
        filled_by(a + b, id) == filled_by(a, id) + filled_by(b, id),
    decreases b.len(),
{
    if b.len() == 0 {
        assert(a + b =~= a);
    } else {
        lemma_filled_by_add(a, b.drop_last(), id);
        assert((a + b).drop_last() =~= a + b.drop_last());
    }
}

proof fn lemma_dones_add(a: Seq<OrderDone>, b: Seq<OrderDone>, id: u64)
    ensures
        filled_done(a + b, id) == filled_done(a, id) + filled_done(b, id),
        done_count(a + b, id) == done_count(a, id) + done_count(b, id),
    decreases b.len(),
{
    if b.len() == 0 {
        assert(a + b =~= a);
    } else {
        lemma_dones_add(a, b.drop_last(), id);
        assert((a + b).drop_last() =~= a + b.drop_last());
    }
}

/// An order that has not filled completely ends with a record that is right.
proof fn lemma_right_record(t: Terms, b: Bbo, now: i64, o: PaperOrder, ev: PaperEvent)
    requires
        unfinished(t, o),
        t.qty_eps >= 0,
    ensures
        step(t, b, now, o, ev).done matches Some(d) ==> right_record(t, d),
        step(t, b, now, o, ev).order matches Some(p) ==> unfinished(t, p),
{
    law_step_conserves(t, b, now, o, ev);
    reveal_strlit("filled");
    reveal_strlit("cancelled");
    reveal_strlit("partial_cancelled");
    reveal_strlit("rejected_post_only");
    assert("filled"@.len() == 6 && "cancelled"@.len() == 9 && "partial_cancelled"@.len() == 17 && "rejected_post_only"@.len() == 18);
}

/// What an event does to the counts: an order that does not stay ends.
proof fn lemma_event_counts(t: Terms, m: Map<SymbolId, Bbo>, now: i64, os: Seq<PaperOrder>, ev: PaperEvent, id: u64)
    requires
        t.qty_eps >= 0,
        forall|i: int| 0 <= i < os.len() ==> unfinished(t, #[trigger] os[i]),
    ensures
        live_count(kept_by(t, m, now, os, ev), id) + done_count(dones_by(t, m, now, os, ev), id) == live_count(os, id),
        forall|i: int|
            0 <= i < kept_by(t, m, now, os, ev).len() ==> unfinished(t, #[trigger] kept_by(t, m, now, os, ev)[i]),
        forall|k: int| 0 <= k < dones_by(t, m, now, os, ev).len() ==> right_record(t, #[trigger] dones_by(t, m, now, os, ev)[k]),
    decreases os.len(),
{
    if os.len() > 0 {
        let p = os.drop_last();
        assert forall|i: int| 0 <= i < p.len() implies unfinished(t, #[trigger] p[i]) by {
            assert(p[i] == os[i]);
        }
        lemma_event_counts(t, m, now, p, ev, id);
        let o = os.last();
        assert(unfinished(t, os[os.len() - 1]));
        let r = step(t, market_of(m, o.sym), now, o, ev);
        law_step_conserves(t, market_of(m, o.sym), now, o, ev);
        lemma_right_record(t, market_of(m, o.sym), now, o, ev);
        let k = kept_by(t, m, now, p, ev);
        let e = dones_by(t, m, now, p, ev);
        if let Some(x) = r.order {
            assert(k.push(x).drop_last() =~= k);
        }
        if let Some(x) = r.done {
            assert(e.push(x).drop_last() =~= e);
        }
    }
}

/// An event keeps the books right.
proof fn lemma_event_accounted(a: PaperExchange, b: PaperExchange, now: i64, ev: PaperEvent, fs: Seq<Fill>, ds: Seq<OrderDone>)
    requires
        b.after(&a, now, ev),
        a.qty_eps >= 0,
        accounted(a, fs + a.fills@, ds + a.done@),
    ensures
        accounted(b, fs + b.fills@, ds + b.done@),
{
    let (t, m, os) = (a.terms(), a.last_bbo@, a.orders@);
    let f = fills_by(t, m, now, os, ev);
    let d = dones_by(t, m, now, os, ev);
    assert(fs + b.fills@ =~= fs + a.fills@ + f);
    assert(ds + b.done@ =~= ds + a.done@ + d);
    assert forall|i: int| 0 <= i < os.len() implies (#[trigger] os[i]).wf() by {
        assert(unfinished(t, os[i]));
    }
    assert forall|id: u64|
        #[trigger] live_count(b.orders@, id) + done_count(ds + b.done@, id) == if given(id, b.next_id) {
            1int
        } else {
            0int
        } by {
        lemma_event_counts(t, m, now, os, ev, id);
        lemma_dones_add(ds + a.done@, d, id);
        assert(live_count(os, id) + done_count(ds + a.done@, id) == if given(id, a.next_id) { 1int } else { 0int });
    }
    assert forall|id: u64| #[trigger] filled_by(fs + b.fills@, id) == filled_live(b.orders@, id) + filled_done(ds + b.done@, id) by {
        law_fills_add_up(t, m, now, os, ev, id);
        lemma_filled_by_add(fs + a.fills@, f, id);
        lemma_dones_add(ds + a.done@, d, id);
        assert(filled_by(fs + a.fills@, id) == filled_live(os, id) + filled_done(ds + a.done@, id));
    }
    lemma_event_counts(t, m, now, os, ev, 0);
    assert forall|k: int| 0 <= k < (ds + b.done@).len() implies right_record(t, #[trigger] (ds + b.done@)[k]) by {
        let n = (ds + a.done@).len();
        if k < n {
            assert((ds + b.done@)[k] == (ds + a.done@)[k]);
        } else {
            assert((ds + b.done@)[k] == d[k - n]);
        }
    }
}

/// Placing keeps the books right.
proof fn lemma_place_accounted(a: PaperExchange, b: PaperExchange, now: i64, req: PlaceReq, fs: Seq<Fill>, ds: Seq<OrderDone>)
    requires
        b.after_place(&a, now, req),
        a.qty_eps >= 0,
        counts(a.terms(), req.qty as int, req.price_digits),
        1 <= a.next_id < u64::MAX,
        accounted(a, fs, ds),
    ensures
        accounted(b, fs, ds),
{
    let o = new_order(a.terms(), a.market(req.sym), now, a.next_id, req);
    assert(b.orders@.drop_last() =~= a.orders@);
    assert forall|id: u64|
        #[trigger] live_count(b.orders@, id) + done_count(ds, id) == if given(id, b.next_id) {
            1int
        } else {
            0int
        } by {
        assert(live_count(a.orders@, id) + done_count(ds, id) == if given(id, a.next_id) { 1int } else { 0int });
    }
    assert forall|id: u64| #[trigger] filled_by(fs, id) == filled_live(b.orders@, id) + filled_done(ds, id) by {
        assert(filled_by(fs, id) == filled_live(a.orders@, id) + filled_done(ds, id));
    }
    assert forall|i: int| 0 <= i < b.orders@.len() implies unfinished(b.terms(), #[trigger] b.orders@[i]) by {
        if i < a.orders@.len() {
            assert(b.orders@[i] == a.orders@[i]);
            assert(unfinished(a.terms(), a.orders@[i]));
        } else {
            lemma_wide(req.qty as int, 0, req.price_digits);
        }
    }
}

/// Over every sequence of calls of a fresh exchange: each order that was placed rests or has ended,
/// once and not both; its fills add up to what it has filled, which is never more than its size, and
/// it ends as filled exactly when what is left of it counts as nothing.
pub proof fn law_orders_accounted(xs: Seq<PaperExchange>, cs: Seq<Call>, t: Terms, n: nat)
    requires
        history(xs, cs, t),
        n <= cs.len(),
    ensures
        accounted(xs[n as int], all_fills(xs, cs, n), all_dones(xs, cs, n)),
        1 <= xs[n as int].next_id <= n + 1,
        xs[n as int].terms() == t,
    decreases n,
{
    if n == 0 {
        assert(all_fills(xs, cs, 0) =~= Seq::<Fill>::empty());
        assert(all_dones(xs, cs, 0) =~= Seq::<OrderDone>::empty());
    } else {
        law_orders_accounted(xs, cs, t, (n - 1) as nat);
        let (a, b, c) = (xs[n - 1], xs[n as int], cs[n - 1]);
        assert(called(xs[n - 1], xs[n - 1 + 1], cs[n - 1]));
        let fs = fills_taken(xs, cs, (n - 1) as nat);
        let ds = dones_taken(xs, cs, (n - 1) as nat);
        match c {
            Call::Place(now, req) => {
                assert(cs[n - 1] matches Call::Place(_, r) ==> counts(t, r.qty as int, r.price_digits));
                lemma_place_accounted(a, b, now, req, fs + a.fills@, ds + a.done@);
            },
            Call::Time(now) => {
                lemma_event_accounted(a, b, now, PaperEvent::Time, fs, ds);
            },
            Call::Quote(now, sym, bbo) => {
                let x = PaperExchange { last_bbo: b.last_bbo, ..a };
                assert(accounted(x, fs + x.fills@, ds + x.done@));
                if bbo.valid() {
                    lemma_event_accounted(x, b, now, PaperEvent::Book(sym, bbo), fs, ds);
                }
            },
            Call::Print(now, sym, x) => {
                lemma_event_accounted(a, b, now, PaperEvent::Trade(sym, x), fs, ds);
            },
            Call::Cancel(now, id) => {
                lemma_event_accounted(a, b, now, PaperEvent::Cancel(id), fs, ds);
            },
            Call::CancelAll(now, sym) => {
                lemma_event_accounted(a, b, now, PaperEvent::CancelAll(sym), fs, ds);
            },
            Call::Drain => {
                assert(all_fills(xs, cs, n) =~= fs + a.fills@);
                assert(all_dones(xs, cs, n) =~= ds + a.done@);
            },
        }
    }
}

/// A public trade fills resting orders of its symbol on the other side only, as a maker, at the
/// order's own price and for the maker's fee.
pub proof fn law_trade_fills(t: Terms, b: Bbo, now: i64, o: PaperOrder, sym: SymbolId, x: Trade)
    ensures
        step(t, b, now, o, PaperEvent::Trade(sym, x)).fill matches Some(f) ==> {
            &&& f.order_id == o.id
            &&& f.price == o.price
            &&& f.is_maker
            &&& f.fee == fee_of(f.qty as int, o.price as int, t.maker_fee as int) as i128
            &&& o.state != OrderState::Pending
            &&& o.sym == sym
            &&& o.side == x.taker_side.spec_opposite()
        },
{
}

} // verus!
