//! What the engine keeps through every event: the kill switch latches and stops entries, settings
//! change only on request, nothing that was sent is lost, the active set is the best of the
//! eligible.

use vstd::prelude::*;
use crate::config::{Config, Overrides, SymbolLists};
use crate::eligibility::Experience;
use crate::engine::{active_refreshed, active_selected, aged_out, bbo_handled, bbo_noted, book_applied, book_counted, called_back, called_back_upto, clocked, closed_out, config_applied, config_checked, count_roundtrip, done_taken, dones_taken, drained, eligible_among, emptied, event_taken, fill_taken, fills_taken, finished_run, folded, is_chosen, is_ranking, market_taken, markouts_resolved, markout_bps, markout_sum, matters, noted, paper_clocked, place_req, placed, reference_noted, refresh_stamped, requoted, resolved, rests_out, risk_taken, score_keys, share, snapshots_sent, swapped_out, swept_upto, symbol_resolved, symbol_swept, symbols_judged, synced, takes_reference, tick_checked, tick_counted, ticked, time_taken, too_old, trade_taken, trades_taken, wanted_quotes, Counters, Engine, Markout, SymbolState};
use crate::order::{before, lemma_order_covers};
use crate::paper::{find_order, kept_by, market_of, step, PaperEvent, PaperExchange, PaperOrder, Terms};
use crate::paper_laws::same_order;
use crate::portfolio::Position;
use crate::risk::{lost_too_much, verdict};
use crate::store::StoreMsg;
use crate::strategy::{Quote, QuoteInput};
use crate::strategy_laws::law_no_new_exposure;
use crate::types::{Bbo, Fill, MarketEvent, OrderDone, Purpose, Side, SymbolId, Trade};
use crate::units::{div_round, law_rounds_to_nearest, lemma_div_round_exact, lemma_div_round_monotone, min_int, ONE};

verus! {

/// What only a configuration change, or a tripped kill switch, alters.
pub open spec fn same_settings(a: Engine, b: Engine) -> bool {
    &&& b.halted == a.halted
    &&& b.risk == a.risk
    &&& same_config(a, b)
}

pub open spec fn same_config(a: Engine, b: Engine) -> bool {
    &&& b.cfg == a.cfg
    &&& b.overrides == a.overrides
    &&& b.lists == a.lists
    &&& b.param_version == a.param_version
    &&& b.run_id == a.run_id
    &&& b.record_md == a.record_md
}

/// What was put into the outbox stays there, in order.
pub open spec fn outbox_grows(a: Engine, b: Engine) -> bool {
    &&& a.outbox@.len() <= b.outbox@.len()
    &&& forall|i: int| 0 <= i < a.outbox@.len() ==> #[trigger] b.outbox@[i] == a.outbox@[i]
}

/// `o` was in the book already.
pub open spec fn known(os: Seq<PaperOrder>, o: PaperOrder) -> bool {
    exists|j: int| 0 <= j < os.len() && same_order(#[trigger] os[j], o)
}

/// Every entry order of `b` was there in `a`.
pub open spec fn no_new_entries(a: Seq<PaperOrder>, b: Seq<PaperOrder>) -> bool {
    forall|i: int| 0 <= i < b.len() ==> ((#[trigger] b[i]).purpose == Purpose::Entry ==> known(a, b[i]))
}

/// A step that changes no settings, loses no message and, while the kill switch is on, places no
/// entry.
pub open spec fn quiet(a: Engine, b: Engine) -> bool {
    &&& same_settings(a, b)
    &&& outbox_grows(a, b)
    &&& a.halted ==> no_new_entries(a.paper.orders@, b.paper.orders@)
}

proof fn lemma_entries_refl(a: Seq<PaperOrder>)
    ensures
        no_new_entries(a, a),
{
    assert forall|i: int| 0 <= i < a.len() && (#[trigger] a[i]).purpose == Purpose::Entry implies known(a, a[i]) by {
        assert(same_order(a[i], a[i]));
    }
}

proof fn lemma_entries_trans(a: Seq<PaperOrder>, b: Seq<PaperOrder>, c: Seq<PaperOrder>)
    requires
        no_new_entries(a, b),
        no_new_entries(b, c),
    ensures
        no_new_entries(a, c),
{
    assert forall|i: int| 0 <= i < c.len() && (#[trigger] c[i]).purpose == Purpose::Entry implies known(a, c[i]) by {
        if c[i].purpose == Purpose::Entry {
            let j = choose|j: int| 0 <= j < b.len() && same_order(#[trigger] b[j], c[i]);
            assert(b[j].purpose == Purpose::Entry);
            let k = choose|k: int| 0 <= k < a.len() && same_order(#[trigger] a[k], b[j]);
            assert(same_order(a[k], c[i]));
        }
    }
}

proof fn lemma_quiet_trans(a: Engine, b: Engine, c: Engine)
    requires
        quiet(a, b),
        quiet(b, c),
    ensures
        quiet(a, c),
{
    if a.halted {
        lemma_entries_trans(a.paper.orders@, b.paper.orders@, c.paper.orders@);
    }
    assert forall|i: int| 0 <= i < a.outbox@.len() implies #[trigger] c.outbox@[i] == a.outbox@[i] by {
        assert(b.outbox@[i] == a.outbox@[i]);
    }
}

proof fn lemma_quiet_same_orders(a: Engine, b: Engine)
    requires
        same_settings(a, b),
        outbox_grows(a, b),
        b.paper.orders@ == a.paper.orders@,
    ensures
        quiet(a, b),
{
    lemma_entries_refl(a.paper.orders@);
}

/// No event of the paper exchange brings a new order.
proof fn lemma_kept_known(t: Terms, m: Map<SymbolId, Bbo>, now: i64, os: Seq<PaperOrder>, ev: PaperEvent)
    ensures
        no_new_entries(os, kept_by(t, m, now, os, ev)),
    decreases os.len(),
{
    if os.len() > 0 {
        let d = os.drop_last();
        lemma_kept_known(t, m, now, d, ev);
        let k = kept_by(t, m, now, os, ev);
        let kd = kept_by(t, m, now, d, ev);
        assert forall|i: int| 0 <= i < k.len() && (#[trigger] k[i]).purpose == Purpose::Entry implies known(os, k[i]) by {
            if k[i].purpose == Purpose::Entry {
                if i < kd.len() {
                    assert(kd[i] == k[i]);
                    let j = choose|j: int| 0 <= j < d.len() && same_order(#[trigger] d[j], k[i]);
                    assert(same_order(os[j], k[i]));
                } else {
                    let o = os.last();
                    assert(step(t, market_of(m, o.sym), now, o, ev).order == Some(k[i]));
                    assert(same_order(os[os.len() - 1], k[i]));
                }
            }
        }
    }
}

proof fn lemma_paper_event(a: PaperExchange, b: PaperExchange, now: i64, ev: PaperEvent)
    requires
        b.after(&a, now, ev),
    ensures
        no_new_entries(a.orders@, b.orders@),
{
    lemma_kept_known(a.terms(), a.last_bbo@, now, a.orders@, ev);
}

proof fn lemma_placed_quiet(a: Engine, b: Engine, sym: SymbolId, side: Side, desired: Option<Quote>, now: i64)
    requires
        placed(a, b, sym, side, desired, now),
        a.halted ==> (desired matches Some(d) ==> d.purpose != Purpose::Entry),
    ensures
        quiet(a, b),
{
    lemma_entries_refl(a.paper.orders@);
    if desired is Some {
        let os = b.paper.orders@;
        assert forall|i: int| 0 <= i < os.len() && a.halted && (#[trigger] os[i]).purpose == Purpose::Entry implies known(a.paper.orders@, os[i]) by {
            if i < a.paper.orders@.len() {
                assert(os[i] == a.paper.orders@[i]);
            }
        }
    }
}

proof fn lemma_synced_quiet(a: Engine, b: Engine, sym: SymbolId, side: Side, desired: Option<Quote>, now: i64)
    requires
        synced(a, b, sym, side, desired, now),
        a.halted ==> (desired matches Some(d) ==> d.purpose != Purpose::Entry),
    ensures
        quiet(a, b),
{
    lemma_entries_refl(a.paper.orders@);
    match a.sym(sym).order_on(side) {
        None => {
            lemma_placed_quiet(a, b, sym, side, desired, now);
        },
        Some(id) => match find_order(a.paper.orders@, id, 0) {
            None => {
                lemma_placed_quiet(a, b, sym, side, desired, now);
            },
            Some(i) => {
                if b != a {
                    lemma_paper_event(a.paper, b.paper, now, PaperEvent::Cancel(id));
                }
            },
        },
    }
}

/// Nothing but reducing is allowed: the kill switch is on, the risk limits are reached, or the symbol
/// is not in the active set.
pub open spec fn blocked(e: Engine, sym: SymbolId) -> bool {
    e.halted || !e.risk.allow_entries || !e.sym(sym).active
}

/// While a symbol is blocked the strategy wants no entry.
proof fn lemma_blocked_wants_no_entry(e: Engine, sym: SymbolId, bbo: Bbo, now: i64)
    requires
        blocked(e, sym),
    ensures
        wanted_quotes(e, sym, bbo, now).bid matches Some(q) ==> q.purpose != Purpose::Entry,
        wanted_quotes(e, sym, bbo, now).ask matches Some(q) ==> q.purpose != Purpose::Entry,
{
    let st = e.sym(sym);
    let pos = e.portfolio.held(sym);
    let inp = QuoteInput {
        meta: &st.meta,
        bbo: &bbo,
        stats: &st.stats,
        params: &st.params,
        maker_fee: e.cfg.fees.maker_rate,
        position_qty: pos.qty,
        position_avg: pos.avg_price,
        position_age_secs: pos.spec_age_secs(now as int) as i64,
        now_ms: now,
        allow_new_exposure: e.risk.allow_entries && !e.halted,
        reduce_only: !st.active,
        ref_dev_bps: st.ref_dev(e.cfg.reference.stale_ms as int, now as int) as i64,
    };
    law_no_new_exposure(inp);
    assert(wanted_quotes(e, sym, bbo, now) == inp.quotes());
}

/// Quoting a symbol is quiet: in particular, while the kill switch is on no entry is placed.
pub proof fn law_requote_quiet(a: Engine, b: Engine, sym: SymbolId, now: i64)
    requires
        requoted(a, b, sym, now),
    ensures
        quiet(a, b),
{
    lemma_entries_refl(a.paper.orders@);
    match a.sym(sym).bbo {
        None => {},
        Some(bbo) => {
            if rests_out(a, sym) {
                if a.sym(sym).has_order() {
                    lemma_paper_event(a.paper, b.paper, now, PaperEvent::CancelAll(sym));
                }
            } else if now - a.sym(sym).last_requote_ms >= a.sym(sym).params.min_requote_ms {
                let q = wanted_quotes(a, sym, bbo, now);
                if a.halted {
                    lemma_blocked_wants_no_entry(a, sym, bbo, now);
                }
                let (x, y) = choose|x: Engine, y: Engine|
                    #[trigger] noted(a, x, sym, q, now) && #[trigger] synced(x, y, sym, Side::Buy, q.bid, now) && synced(
                        y,
                        b,
                        sym,
                        Side::Sell,
                        q.ask,
                        now,
                    );
                lemma_quiet_same_orders(a, x);
                lemma_synced_quiet(x, y, sym, Side::Buy, q.bid, now);
                lemma_synced_quiet(y, b, sym, Side::Sell, q.ask, now);
                lemma_quiet_trans(a, x, y);
                lemma_quiet_trans(a, y, b);
            }
        },
    }
}

proof fn lemma_synced_no_entry(a: Engine, b: Engine, sym: SymbolId, side: Side, desired: Option<Quote>, now: i64)
    requires
        synced(a, b, sym, side, desired, now),
        desired matches Some(d) ==> d.purpose != Purpose::Entry,
    ensures
        no_new_entries(a.paper.orders@, b.paper.orders@),
{
    let h = Engine { halted: true, ..a };
    let k = Engine { halted: true, ..b };
    assert(place_req(h, sym, side, desired->0) == place_req(a, sym, side, desired->0));
    assert(h.sym(sym) == a.sym(sym));
    assert(synced(h, k, sym, side, desired, now));
    lemma_synced_quiet(h, k, sym, side, desired, now);
}

/// Quoting a blocked symbol never brings a new entry.
pub proof fn law_blocked_places_no_entry(a: Engine, b: Engine, sym: SymbolId, now: i64)
    requires
        requoted(a, b, sym, now),
        blocked(a, sym),
    ensures
        no_new_entries(a.paper.orders@, b.paper.orders@),
{
    lemma_entries_refl(a.paper.orders@);
    if let Some(bbo) = a.sym(sym).bbo {
        if rests_out(a, sym) {
            if a.sym(sym).has_order() {
                lemma_paper_event(a.paper, b.paper, now, PaperEvent::CancelAll(sym));
            }
        } else if now - a.sym(sym).last_requote_ms >= a.sym(sym).params.min_requote_ms {
            let q = wanted_quotes(a, sym, bbo, now);
            lemma_blocked_wants_no_entry(a, sym, bbo, now);
            let (x, y) = choose|x: Engine, y: Engine|
                #[trigger] noted(a, x, sym, q, now) && #[trigger] synced(x, y, sym, Side::Buy, q.bid, now) && synced(
                    y,
                    b,
                    sym,
                    Side::Sell,
                    q.ask,
                    now,
                );
            lemma_synced_no_entry(x, y, sym, Side::Buy, q.bid, now);
            lemma_synced_no_entry(y, b, sym, Side::Sell, q.ask, now);
            lemma_entries_trans(x.paper.orders@, y.paper.orders@, b.paper.orders@);
        }
    }
}

proof fn lemma_fills_quiet(a: Engine, b: Engine, fs: Seq<Fill>, now: i64)
    requires
        fills_taken(a, b, fs, now),
    ensures
        quiet(a, b),
        b.paper == a.paper,
    decreases fs.len(),
{
    lemma_quiet_same_orders(a, a);
    if fs.len() > 0 {
        let m = choose|m: Engine| fills_taken(a, m, fs.drop_last(), now) && #[trigger] fill_taken(m, b, fs.last(), now);
        lemma_fills_quiet(a, m, fs.drop_last(), now);
        lemma_quiet_same_orders(m, b);
        lemma_quiet_trans(a, m, b);
    }
}

proof fn lemma_dones_quiet(a: Engine, b: Engine, ds: Seq<OrderDone>)
    requires
        dones_taken(a, b, ds),
    ensures
        quiet(a, b),
        b.paper == a.paper,
    decreases ds.len(),
{
    lemma_quiet_same_orders(a, a);
    if ds.len() > 0 {
        let m = choose|m: Engine| dones_taken(a, m, ds.drop_last()) && #[trigger] done_taken(m, b, ds.last());
        lemma_dones_quiet(a, m, ds.drop_last());
        lemma_quiet_same_orders(m, b);
        lemma_quiet_trans(a, m, b);
    }
}

proof fn lemma_drained_quiet(a: Engine, b: Engine, now: i64)
    requires
        drained(a, b, now),
    ensures
        quiet(a, b),
{
    lemma_quiet_same_orders(a, a);
    if a.paper.fills@.len() != 0 || a.paper.done@.len() != 0 {
        let (x, y) = choose|x: Engine, y: Engine|
            #[trigger] emptied(a, x) && #[trigger] fills_taken(x, y, a.paper.fills@, now) && dones_taken(y, b, a.paper.done@);
        lemma_quiet_same_orders(a, x);
        lemma_fills_quiet(x, y, a.paper.fills@, now);
        lemma_dones_quiet(y, b, a.paper.done@);
        lemma_quiet_trans(a, x, y);
        lemma_quiet_trans(a, y, b);
    }
}

/// After draining, the paper exchange has nothing left to report.
pub proof fn law_drain_empties(a: Engine, b: Engine, now: i64)
    requires
        drained(a, b, now),
    ensures
        b.paper.fills@.len() == 0,
        b.paper.done@.len() == 0,
        b.paper.orders@ == a.paper.orders@,
{
    if a.paper.fills@.len() != 0 || a.paper.done@.len() != 0 {
        let (x, y) = choose|x: Engine, y: Engine|
            #[trigger] emptied(a, x) && #[trigger] fills_taken(x, y, a.paper.fills@, now) && dones_taken(y, b, a.paper.done@);
        lemma_fills_quiet(x, y, a.paper.fills@, now);
        lemma_dones_quiet(y, b, a.paper.done@);
    }
}

proof fn lemma_fills_counted(a: Engine, b: Engine, fs: Seq<Fill>, now: i64)
    requires
        fills_taken(a, b, fs, now),
    ensures
        b.outbox@.len() == a.outbox@.len() + 2 * fs.len(),
        b.portfolio.n_fills == min_int(a.portfolio.n_fills + fs.len(), u64::MAX as int),
    decreases fs.len(),
{
    if fs.len() > 0 {
        let m = choose|m: Engine| fills_taken(a, m, fs.drop_last(), now) && #[trigger] fill_taken(m, b, fs.last(), now);
        lemma_fills_counted(a, m, fs.drop_last(), now);
    }
}

proof fn lemma_dones_counted(a: Engine, b: Engine, ds: Seq<OrderDone>)
    requires
        dones_taken(a, b, ds),
    ensures
        b.outbox@.len() == a.outbox@.len() + ds.len(),
        b.portfolio == a.portfolio,
        b.counters.orders_done == min_int(a.counters.orders_done + ds.len(), u64::MAX as int),
    decreases ds.len(),
{
    if ds.len() > 0 {
        let m = choose|m: Engine| dones_taken(a, m, ds.drop_last()) && #[trigger] done_taken(m, b, ds.last());
        lemma_dones_counted(a, m, ds.drop_last());
    }
}

proof fn lemma_fills_keep_orders_done(a: Engine, b: Engine, fs: Seq<Fill>, now: i64)
    requires
        fills_taken(a, b, fs, now),
    ensures
        b.counters.orders_done == a.counters.orders_done,
    decreases fs.len(),
{
    if fs.len() > 0 {
        let m = choose|m: Engine| fills_taken(a, m, fs.drop_last(), now) && #[trigger] fill_taken(m, b, fs.last(), now);
        lemma_fills_keep_orders_done(a, m, fs.drop_last(), now);
    }
}

/// Every fill that the paper exchange reports is booked once and persisted with the position it
/// leaves, and every order that ended is counted and persisted once.
pub proof fn law_drain_books_everything(a: Engine, b: Engine, now: i64)
    requires
        drained(a, b, now),
    ensures
        b.portfolio.n_fills == min_int(a.portfolio.n_fills + a.paper.fills@.len(), u64::MAX as int),
        b.counters.orders_done == min_int(a.counters.orders_done + a.paper.done@.len(), u64::MAX as int),
        b.outbox@.len() == a.outbox@.len() + 2 * a.paper.fills@.len() + a.paper.done@.len(),
{
    if a.paper.fills@.len() != 0 || a.paper.done@.len() != 0 {
        let (x, y) = choose|x: Engine, y: Engine|
            #[trigger] emptied(a, x) && #[trigger] fills_taken(x, y, a.paper.fills@, now) && dones_taken(y, b, a.paper.done@);
        lemma_fills_counted(x, y, a.paper.fills@, now);
        lemma_fills_keep_orders_done(x, y, a.paper.fills@, now);
        lemma_dones_counted(y, b, a.paper.done@);
    }
}

proof fn lemma_bbo_quiet(a: Engine, b: Engine, sym: SymbolId, q: Bbo, now: i64)
    requires
        bbo_handled(a, b, sym, q, now),
    ensures
        quiet(a, b),
{
    let (x, y) = choose|x: Engine, y: Engine|
        #[trigger] bbo_noted(a, x, sym, q, now) && #[trigger] drained(x, y, now) && requoted(y, b, sym, now);
    lemma_entries_refl(a.paper.orders@);
    if q.valid() {
        let n = PaperExchange { last_bbo: x.paper.last_bbo, ..a.paper };
        lemma_paper_event(n, x.paper, now, PaperEvent::Book(sym, q));
    }
    assert(quiet(a, x));
    lemma_drained_quiet(x, y, now);
    law_requote_quiet(y, b, sym, now);
    lemma_quiet_trans(a, x, y);
    lemma_quiet_trans(a, y, b);
}

proof fn lemma_trades_quiet(a: Engine, b: Engine, sym: SymbolId, ts: Seq<Trade>, now: i64, rec: bool)
    requires
        trades_taken(a, b, sym, ts, now, rec),
    ensures
        quiet(a, b),
    decreases ts.len(),
{
    lemma_quiet_same_orders(a, a);
    if ts.len() > 0 {
        let m = choose|m: Engine|
            trades_taken(a, m, sym, ts.drop_last(), now, rec) && #[trigger] trade_taken(m, b, sym, ts.last(), now, rec);
        lemma_trades_quiet(a, m, sym, ts.drop_last(), now, rec);
        lemma_paper_event(m.paper, b.paper, now, PaperEvent::Trade(sym, ts.last()));
        assert(quiet(m, b));
        lemma_quiet_trans(a, m, b);
    }
}

proof fn lemma_event_quiet(a: Engine, b: Engine, ev: MarketEvent, now: i64, ends: bool)
    requires
        event_taken(a, b, ev, now, ends),
    ensures
        quiet(a, b),
{
    lemma_quiet_same_orders(a, a);
    match ev {
        MarketEvent::Book { sym, ts, snapshot, bids, asks } => {
            if (sym as int) < a.symbols@.len() {
                let (m, q) = choose|m: Engine, q: Option<Bbo>|
                    #[trigger] book_applied(a, m, sym, ts, snapshot, bids@, asks@) && #[trigger] m.sym(sym).book.is_bbo(q) && match q {
                        Some(x) => bbo_handled(m, b, sym, x, now),
                        None => b == m,
                    };
                lemma_quiet_same_orders(a, m);
                if let Some(x) = q {
                    lemma_bbo_quiet(m, b, sym, x, now);
                    lemma_quiet_trans(a, m, b);
                }
            }
        },
        MarketEvent::Bbo { sym, bbo } => {
            if (sym as int) < a.symbols@.len() {
                let m = choose|m: Engine| #[trigger] book_counted(a, m) && bbo_handled(m, b, sym, bbo, now);
                lemma_quiet_same_orders(a, m);
                lemma_bbo_quiet(m, b, sym, bbo, now);
                lemma_quiet_trans(a, m, b);
            }
        },
        MarketEvent::Trades { sym, trades } => {
            if (sym as int) < a.symbols@.len() {
                let m = choose|m: Engine| #[trigger] trades_taken(a, m, sym, trades@, now, a.records(sym)) && drained(m, b, now);
                lemma_trades_quiet(a, m, sym, trades@, now, a.records(sym));
                lemma_drained_quiet(m, b, now);
                lemma_quiet_trans(a, m, b);
            }
        },
        MarketEvent::Turnover(v) => {
            lemma_quiet_same_orders(a, b);
        },
        MarketEvent::Reference { sym, ts, bid, ask, rank } => {
            if takes_reference(a, sym, bid, ask, rank, now) {
                let m = choose|m: Engine|
                    #[trigger] reference_noted(a, m, sym, ts, bid, ask, rank, now) && requoted(m, b, sym, now);
                lemma_quiet_same_orders(a, m);
                law_requote_quiet(m, b, sym, now);
                lemma_quiet_trans(a, m, b);
            }
        },
        MarketEvent::Status { conn, msg } => {
            lemma_quiet_same_orders(a, b);
        },
    }
}

/// A market event changes no settings, loses no message and, while the kill switch is on, leads to
/// no entry.
pub proof fn law_market_quiet(a: Engine, b: Engine, ev: MarketEvent, now: i64, due: bool)
    requires
        market_taken(a, b, ev, now, due),
    ensures
        quiet(a, b),
{
    let (x, y, ends) = choose|x: Engine, y: Engine, ends: bool|
        #[trigger] clocked(a, x, now) && #[trigger] event_taken(x, y, ev, now, ends) && if ends {
            b == y && !due
        } else {
            tick_checked(y, b, now, due)
        };
    lemma_paper_event(a.paper, x.paper, now, PaperEvent::Time);
    assert(quiet(a, x));
    lemma_event_quiet(x, y, ev, now, ends);
    lemma_quiet_trans(a, x, y);
    lemma_quiet_same_orders(y, b);
    lemma_quiet_trans(a, y, b);
}

/// Neither does the passing of time.
pub proof fn law_time_quiet(a: Engine, b: Engine, now: i64, due: bool)
    requires
        time_taken(a, b, now, due),
    ensures
        quiet(a, b),
{
    let (x, y) = choose|x: Engine, y: Engine|
        #[trigger] paper_clocked(a, x, now) && #[trigger] drained(x, y, now) && tick_checked(y, b, now, due);
    lemma_paper_event(a.paper, x.paper, now, PaperEvent::Time);
    assert(quiet(a, x));
    lemma_drained_quiet(x, y, now);
    lemma_quiet_trans(a, x, y);
    lemma_quiet_same_orders(y, b);
    lemma_quiet_trans(a, y, b);
}

proof fn lemma_aged_quiet(a: Engine, b: Engine, id: Option<u64>, max_age: i64, now: i64)
    requires
        aged_out(a, b, id, max_age, now),
    ensures
        quiet(a, b),
{
    lemma_quiet_same_orders(a, a);
    if too_old(a, id, max_age, now) {
        lemma_paper_event(a.paper, b.paper, now, PaperEvent::Cancel(id->0));
    }
}

proof fn lemma_swept_quiet(a: Engine, b: Engine, n: nat, now: i64)
    requires
        swept_upto(a, b, n, now),
    ensures
        quiet(a, b),
    decreases n,
{
    lemma_quiet_same_orders(a, a);
    if n > 0 {
        let m = choose|m: Engine| swept_upto(a, m, (n - 1) as nat, now) && #[trigger] symbol_swept(m, b, (n - 1) as SymbolId, now);
        lemma_swept_quiet(a, m, (n - 1) as nat, now);
        let sym = (n - 1) as SymbolId;
        let st = m.sym(sym);
        let (x, y) = choose|x: Engine, y: Engine|
            #[trigger] aged_out(m, x, st.bid_order, st.params.max_order_age_ms, now) && #[trigger] aged_out(
                x,
                y,
                st.ask_order,
                st.params.max_order_age_ms,
                now,
            ) && if matters(y, sym) {
                requoted(y, b, sym, now)
            } else {
                b == y
            };
        lemma_aged_quiet(m, x, st.bid_order, st.params.max_order_age_ms, now);
        lemma_aged_quiet(x, y, st.ask_order, st.params.max_order_age_ms, now);
        lemma_quiet_trans(m, x, y);
        if matters(y, sym) {
            law_requote_quiet(y, b, sym, now);
            lemma_quiet_trans(m, y, b);
        }
        lemma_quiet_trans(a, m, b);
    }
}

/// Housekeeping never lifts the kill switch and trips it only at the daily loss limit; from the
/// moment it is on no entry is placed. It changes no configuration and loses no message.
pub proof fn law_tick_halts(a: Engine, b: Engine, now: i64, vols: Seq<i64>, check: bool)
    requires
        ticked(a, b, now, vols, check),
    ensures
        a.halted ==> b.halted,
        b.halted && !a.halted ==> lost_too_much(a.cfg.risk, b.risk.daily_pnl as int),
        b.halted ==> !b.risk.allow_entries,
        b.halted ==> no_new_entries(a.paper.orders@, b.paper.orders@),
        same_config(a, b),
        outbox_grows(a, b),
{
    let (p, q, r, s, t, u) = choose|p: Engine, q: Engine, r: Engine, s: Engine, t: Engine, u: Engine|
        #[trigger] markouts_resolved(tick_counted(a), p, now) && #[trigger] symbols_judged(p, q, now, vols) && #[trigger] active_refreshed(q, r, now)
            && #[trigger] risk_taken(r, s, now) && #[trigger] swept_upto(s, t, s.symbols@.len(), now) && #[trigger] snapshots_sent(
            t,
            u,
            now,
        ) && config_checked(u, b, now, check);
    lemma_quiet_same_orders(a, p);
    lemma_quiet_same_orders(p, q);
    lemma_quiet_trans(a, p, q);
    lemma_active_quiet(q, r, now);
    lemma_quiet_trans(a, q, r);
    lemma_swept_quiet(s, t, s.symbols@.len(), now);
    lemma_quiet_same_orders(t, u);
    lemma_quiet_trans(s, t, u);
    lemma_quiet_same_orders(u, b);
    lemma_quiet_trans(s, u, b);
    assert(outbox_grows(r, s));
    assert forall|i: int| 0 <= i < a.outbox@.len() implies #[trigger] b.outbox@[i] == a.outbox@[i] by {
        assert(r.outbox@[i] == a.outbox@[i]);
        assert(s.outbox@[i] == r.outbox@[i]);
    }
    assert(s.paper.orders@ == a.paper.orders@);
}

proof fn lemma_active_quiet(a: Engine, b: Engine, now: i64)
    requires
        active_refreshed(a, b, now),
    ensures
        quiet(a, b),
        b.paper == a.paper,
{
    lemma_quiet_same_orders(a, a);
    if b != a {
        let m = choose|m: Engine| #[trigger] refresh_stamped(a, m, now) && active_selected(m, b, now);
        assert(refresh_stamped(a, m, now) && active_selected(m, b, now));
        assert forall|i: int| 0 <= i < a.outbox@.len() implies #[trigger] b.outbox@[i] == a.outbox@[i] by {
            if b.outbox@.len() == a.outbox@.len() + 1 {
                assert(b.outbox@.drop_last()[i] == b.outbox@[i]);
            }
        }
        lemma_quiet_same_orders(a, b);
    }
}

/// A new configuration raises the version by one (up to the end of its range), keeps the kill
/// switch, the books and the orders.
pub proof fn law_config_keeps_state(a: Engine, b: Engine, cfg: Config, ov: Overrides, lists: SymbolLists, now: i64)
    requires
        config_applied(a, b, cfg, ov, lists, now),
    ensures
        b.halted == a.halted,
        b.portfolio == a.portfolio,
        b.paper.orders@ == a.paper.orders@,
        a.param_version < u32::MAX ==> b.param_version == a.param_version + 1,
        outbox_grows(a, b),
{
}

proof fn lemma_called_back_quiet(a: Engine, b: Engine, n: nat, now: i64)
    requires
        called_back_upto(a, b, n, now),
    ensures
        quiet(a, b),
    decreases n,
{
    lemma_quiet_same_orders(a, a);
    if n > 0 {
        let m = choose|m: Engine| called_back_upto(a, m, (n - 1) as nat, now) && #[trigger] called_back(m, b, (n - 1) as SymbolId, now);
        lemma_called_back_quiet(a, m, (n - 1) as nat, now);
        if m.sym((n - 1) as SymbolId).has_order() {
            lemma_paper_event(m.paper, b.paper, now, PaperEvent::CancelAll((n - 1) as SymbolId));
        }
        lemma_quiet_same_orders(m, m);
        assert(quiet(m, b));
        lemma_quiet_trans(a, m, b);
    }
}

/// The end of a run places no order at all that is an entry once halted, loses no message and ends
/// with the note that the run is over.
pub proof fn law_finish(a: Engine, b: Engine, now: i64)
    requires
        finished_run(a, b, now),
    ensures
        quiet(a, b),
        b.outbox@.len() > a.outbox@.len(),
        b.outbox@.last() == (StoreMsg::RunEnd { ended_ts: now }),
        b.paper.fills@.len() == 0,
        b.paper.done@.len() == 0,
{
    let (x, y, z) = choose|x: Engine, y: Engine, z: Engine|
        #[trigger] called_back_upto(a, x, a.symbols@.len(), now) && #[trigger] paper_clocked(
            x,
            y,
            crate::units::clamp64(now + x.paper.latency_ms + 1) as i64,
        ) && #[trigger] drained(y, z, now) && closed_out(z, b, now);
    lemma_called_back_quiet(a, x, a.symbols@.len(), now);
    lemma_paper_event(x.paper, y.paper, crate::units::clamp64(now + x.paper.latency_ms + 1) as i64, PaperEvent::Time);
    assert(quiet(x, y));
    lemma_quiet_trans(a, x, y);
    lemma_drained_quiet(y, z, now);
    law_drain_empties(y, z, now);
    lemma_quiet_trans(a, y, z);
    assert(outbox_grows(z, b));
    lemma_quiet_same_orders(z, b);
    lemma_quiet_trans(a, z, b);
}

proof fn lemma_eligible(s: Seq<SymbolState>, n: nat)
    requires
        n <= s.len() <= usize::MAX,
    ensures
        forall|k: int|
            0 <= k < eligible_among(s, n).len() ==> (#[trigger] eligible_among(s, n)[k]) < n && s[eligible_among(s, n)[k] as int].verdict.eligible,
        forall|i: int| 0 <= i < n && (#[trigger] s[i]).verdict.eligible ==> eligible_among(s, n).contains(i as usize),
    decreases n,
{
    if n > 0 {
        lemma_eligible(s, (n - 1) as nat);
        let r = eligible_among(s, (n - 1) as nat);
        let e = eligible_among(s, n);
        assert forall|i: int| 0 <= i < n && (#[trigger] s[i]).verdict.eligible implies e.contains(i as usize) by {
            if i < n - 1 {
                let k = choose|k: int| 0 <= k < r.len() && r[k] == i as usize;
                assert(e[k] == i as usize);
            } else {
                assert(e[e.len() - 1] == i as usize);
            }
        }
    }
}

proof fn lemma_eligible_rising(s: Seq<SymbolState>, n: nat)
    requires
        n <= s.len() <= usize::MAX,
    ensures
        forall|k: int| 0 <= k < eligible_among(s, n).len() ==> (#[trigger] eligible_among(s, n)[k]) < n,
        forall|k: int, l: int|
            0 <= k < l < eligible_among(s, n).len() ==> (#[trigger] eligible_among(s, n)[k]) < (#[trigger] eligible_among(s, n)[l]),
    decreases n,
{
    if n > 0 {
        lemma_eligible_rising(s, (n - 1) as nat);
        let r = eligible_among(s, (n - 1) as nat);
        let e = eligible_among(s, n);
        assert forall|k: int| 0 <= k < e.len() implies (#[trigger] e[k]) < n by {
            if k < r.len() {
                assert(e[k] == r[k]);
            }
        }
        assert forall|k: int, l: int| 0 <= k < l < e.len() implies (#[trigger] e[k]) < (#[trigger] e[l]) by {
            assert(e[k] == r[k]);
            if l < r.len() {
                assert(e[l] == r[l]);
            }
        }
    }
}

/// The symbols that are active.
pub open spec fn active_set(e: Engine) -> Set<int> {
    Set::new(|i: int| 0 <= i < e.symbols@.len() && e.symbols@[i].active)
}

/// The number of symbols that are eligible.
pub open spec fn eligible_count(e: Engine) -> nat {
    eligible_among(e.symbols@, e.symbols@.len()).len()
}

/// The active set is the best of the eligible: every active symbol is eligible, there are as many as
/// are eligible but no more than allowed, that number is what the engine shows, and no eligible
/// symbol outside scores higher than one inside.
pub proof fn law_active_set_is_best(a: Engine, b: Engine, now: i64)
    requires
        active_selected(a, b, now),
        a.symbols@.len() <= usize::MAX,
    ensures
        forall|i: int| 0 <= i < a.symbols@.len() && (#[trigger] b.symbols@[i]).active ==> a.symbols@[i].verdict.eligible,
        active_set(b).len() == b.n_active,
        b.n_active == min_int(eligible_count(a) as int, a.cfg.eligibility.max_active_symbols as int),
        forall|i: int, j: int|
            0 <= i < a.symbols@.len() && 0 <= j < a.symbols@.len() && (#[trigger] b.symbols@[i]).active && a.symbols@[j].verdict.eligible
                && !(#[trigger] b.symbols@[j]).active ==> a.symbols@[i].verdict.score >= a.symbols@[j].verdict.score,
{
    let s = a.symbols@;
    let max = a.cfg.eligibility.max_active_symbols as int;
    let p = choose|p: Seq<usize>|
        #[trigger] is_ranking(s, p) && b.n_active == min_int(max, p.len() as int) && forall|i: int|
            0 <= i < s.len() ==> #[trigger] b.symbols@[i] == (SymbolState { active: is_chosen(s, p, max, i), ..s[i] });
    let c = eligible_among(s, s.len());
    let keys = score_keys(s, c);
    let n = min_int(max, p.len() as int);
    lemma_eligible(s, s.len());
    lemma_eligible_rising(s, s.len());
    assert forall|i: int| 0 <= i < s.len() && (#[trigger] b.symbols@[i]).active implies s[i].verdict.eligible by {
        let k = choose|k: int| 0 <= k < n && #[trigger] c[p[k] as int] == i;
        assert(p[k] < keys.len());
    }
    assert forall|i: int, j: int|
        0 <= i < s.len() && 0 <= j < s.len() && (#[trigger] b.symbols@[i]).active && s[j].verdict.eligible && !(#[trigger] b.symbols@[j]).active implies
        s[i].verdict.score >= s[j].verdict.score by {
        assert(is_chosen(s, p, max, i));
        assert(!is_chosen(s, p, max, j));
        let k = choose|k: int| 0 <= k < n && #[trigger] c[p[k] as int] == i;
        let x = choose|x: int| 0 <= x < c.len() && c[x] == j as usize;
        assert(p[k] < keys.len());
        lemma_order_covers(keys, p, x as usize);
        let y = choose|y: int| 0 <= y < p.len() && p[y] == x as usize;
        assert(c[p[y] as int] == j);
        assert(y >= n);
        assert(before(keys, p[k] as int, p[y] as int));
        assert(keys[p[k] as int] == -s[i].verdict.score);
        assert(keys[p[y] as int] == -s[j].verdict.score);
    }
    let q = Seq::new(n as nat, |k: int| c[p[k] as int] as int);
    assert(q.no_duplicates()) by {
        assert forall|k: int, l: int| 0 <= k < q.len() && 0 <= l < q.len() && k != l implies q[k] != q[l] by {
            assert(p[k] < keys.len() && p[l] < keys.len());
            if k < l {
                assert(before(keys, p[k] as int, p[l] as int));
            } else {
                assert(before(keys, p[l] as int, p[k] as int));
            }
            if p[k] < p[l] {
                assert(c[p[k] as int] < c[p[l] as int]);
            } else {
                assert(c[p[l] as int] < c[p[k] as int]);
            }
        }
    }
    q.unique_seq_to_set();
    assert(active_set(b) =~= q.to_set()) by {
        assert forall|i: int| active_set(b).contains(i) <==> q.to_set().contains(i) by {
            if active_set(b).contains(i) {
                assert(is_chosen(s, p, max, i));
                let k = choose|k: int| 0 <= k < n && #[trigger] c[p[k] as int] == i;
                assert(q[k] == i);
                assert(q.contains(i));
            }
            if q.to_set().contains(i) {
                let k = choose|k: int| 0 <= k < q.len() && q[k] == i;
                assert(p[k] < keys.len());
                assert(c[p[k] as int] == i);
                assert(is_chosen(s, p, max, i));
                assert(b.symbols@[i].active);
            }
        }
    }
}

/// What `f` makes of the first `n` markouts, added up.
pub open spec fn tally(s: Seq<Markout>, f: spec_fn(Markout) -> int, n: nat) -> int
    decreases n,
{
    if n == 0 {
        0
    } else {
        tally(s, f, (n - 1) as nat) + f(s[n - 1])
    }
}

/// One for a markout that is due and can be measured.
pub open spec fn due_one(now: int) -> spec_fn(Markout) -> int {
    |m: Markout|
        if m.due <= now && m.mid0 > 0 {
            1int
        } else {
            0int
        }
}

/// The markout in bps where it is due and can be measured.
pub open spec fn due_bps(mid: int, now: int) -> spec_fn(Markout) -> int {
    |m: Markout|
        if m.due <= now && m.mid0 > 0 {
            markout_bps(m, mid)
        } else {
            0int
        }
}

/// One for a markout that equals `x`.
pub open spec fn same_as(x: Markout) -> spec_fn(Markout) -> int {
    |m: Markout|
        if m == x {
            1int
        } else {
            0int
        }
}

proof fn lemma_tally_prefix(s: Seq<Markout>, t: Seq<Markout>, f: spec_fn(Markout) -> int, n: nat)
    requires
        n <= s.len(),
        n <= t.len(),
        forall|k: int| 0 <= k < n ==> s[k] == #[trigger] t[k],
    ensures
        tally(s, f, n) == tally(t, f, n),
    decreases n,
{
    if n > 0 {
        lemma_tally_prefix(s, t, f, (n - 1) as nat);
    }
}

proof fn lemma_tally_update(s: Seq<Markout>, f: spec_fn(Markout) -> int, i: int, x: Markout, n: nat)
    requires
        0 <= i < s.len(),
        n <= s.len(),
    ensures
        tally(s.update(i, x), f, n) == tally(s, f, n) + if i < n {
            f(x) - f(s[i])
        } else {
            0
        },
    decreases n,
{
    if n > 0 {
        lemma_tally_update(s, f, i, x, (n - 1) as nat);
    }
}

/// Taking a markout off takes its share off the tally.
proof fn lemma_tally_swapped(s: Seq<Markout>, f: spec_fn(Markout) -> int, i: int)
    requires
        0 <= i < s.len(),
    ensures
        tally(swapped_out(s, i), f, swapped_out(s, i).len()) == tally(s, f, s.len()) - f(s[i]),
{
    let n = (s.len() - 1) as nat;
    let u = s.update(i, s.last());
    lemma_tally_update(s, f, i, s.last(), n);
    lemma_tally_prefix(swapped_out(s, i), u, f, n);
    if i == n {
        assert(s.last() == s[i]);
    }
}

/// The tally of those that are not due, up to `i`, is none for what counts the due.
proof fn lemma_tally_none(s: Seq<Markout>, f: spec_fn(Markout) -> int, now: int, n: nat)
    requires
        n <= s.len(),
        forall|k: int| 0 <= k < n ==> (#[trigger] s[k]).due > now,
        forall|m: Markout| m.due > now ==> #[trigger] f(m) == 0,
    ensures
        tally(s, f, n) == 0,
    decreases n,
{
    if n > 0 {
        lemma_tally_none(s, f, now, (n - 1) as nat);
        assert(s[n - 1].due > now);
    }
}

/// `markout_bps` is the even mean of `n` markouts that add up to `sum`, to the nearest last digit.
pub open spec fn exact_mean(e: Experience, sum: int) -> bool {
    let n = e.markout_n as int;
    &&& markout_sum(e) == sum
    &&& n > 0 ==> e.markout_bps == div_round(sum, n)
    &&& n * i64::MIN <= sum <= n * i64::MAX
}

proof fn lemma_folded(e: Experience, m: Markout, mid: int, sum: int)
    requires
        m.mid0 > 0,
        mid > 0,
        e.markout_n < 30,
        exact_mean(e, sum),
    ensures
        exact_mean(folded(e, m, mid), sum + markout_bps(m, mid)),
        folded(e, m, mid).markout_n == e.markout_n + 1,
{
    let n = e.markout_n + 1;
    let s = sum + markout_bps(m, mid);
    assert(n * i64::MIN <= s <= n * i64::MAX);
    lemma_div_round_monotone(i64::MIN * n, s, n);
    lemma_div_round_monotone(s, i64::MAX * n, n);
    lemma_div_round_exact(i64::MIN as int, n);
    lemma_div_round_exact(i64::MAX as int, n);
    let mean = div_round(s, n);
    lemma_rounded_near(s, n);
    assert(n * mean == mean * n) by (nonlinear_arith);
}

/// Rounding is off by at most half.
proof fn lemma_rounded_near(a: int, b: int)
    requires
        b > 0,
    ensures
        -b <= 2 * (a - div_round(a, b) * b) <= b,
{
    law_rounds_to_nearest(a, b);
}

/// Resolving takes exactly the markouts that are due, each once: of the others none is lost or
/// doubled, none that is due stays pending, and the count grows by the number that was measured.
pub proof fn law_markouts_resolved(s: Seq<Markout>, e: Experience, mid: int, now: int, x: Markout)
    requires
        mid > 0,
        e.markout_n + tally(s, due_one(now), s.len()) <= u32::MAX,
    ensures
        ({
            let (t, d) = resolved(s, e, 0, mid, now);
            &&& forall|k: int| 0 <= k < t.len() ==> (#[trigger] t[k]).due > now
            &&& x.due > now ==> tally(t, same_as(x), t.len()) == tally(s, same_as(x), s.len())
            &&& d.markout_n == e.markout_n + tally(s, due_one(now), s.len())
        }),
{
    lemma_resolved(s, e, 0, mid, now);
    lemma_resolved_tally(s, e, 0, mid, now, x);
}

/// As long as no more than thirty markouts have been measured, their figure is the even mean of all of
/// them, to the nearest last digit.
pub proof fn law_markouts_mean(s: Seq<Markout>, e: Experience, mid: int, now: int, sum: int)
    requires
        mid > 0,
        e.markout_n + tally(s, due_one(now), s.len()) <= 30,
        exact_mean(e, sum),
    ensures
        exact_mean(resolved(s, e, 0, mid, now).1, sum + tally(s, due_bps(mid, now), s.len())),
{
    lemma_resolved_mean(s, e, 0, mid, now, sum);
}

/// So it is with every symbol when the engine resolves markouts: those that are due are taken, each
/// once, and as long as no more than thirty have been measured the figure is the even mean of all.
pub proof fn law_symbol_markouts(a: SymbolState, b: SymbolState, now: i64, sum: int)
    requires
        symbol_resolved(a, b, now),
        a.bbo matches Some(q) && q.spec_mid() > 0,
        a.experience.markout_n + tally(a.pending_markouts@, due_one(now as int), a.pending_markouts@.len()) <= 30,
        exact_mean(a.experience, sum),
    ensures
        forall|k: int| 0 <= k < b.pending_markouts@.len() ==> (#[trigger] b.pending_markouts@[k]).due > now,
        b.experience.markout_n == a.experience.markout_n + tally(a.pending_markouts@, due_one(now as int), a.pending_markouts@.len()),
        exact_mean(b.experience, sum + tally(a.pending_markouts@, due_bps(a.bbo->0.spec_mid(), now as int), a.pending_markouts@.len())),
{
    let mid = a.bbo->0.spec_mid();
    let s = a.pending_markouts@;
    let none = Markout { due: now, side: crate::types::Side::Buy, mid0: 0 };
    law_markouts_resolved(s, a.experience, mid, now as int, none);
    law_markouts_mean(s, a.experience, mid, now as int, sum);
}

proof fn lemma_tally_grows(s: Seq<Markout>, now: int, n: nat)
    ensures
        tally(s, due_one(now), n) >= 0,
    decreases n,
{
    if n > 0 {
        lemma_tally_grows(s, now, (n - 1) as nat);
    }
}

proof fn lemma_resolved_mean(s: Seq<Markout>, e: Experience, i: int, mid: int, now: int, sum: int)
    requires
        0 <= i <= s.len(),
        mid > 0,
        e.markout_n + tally(s, due_one(now), s.len()) <= 30,
        exact_mean(e, sum),
        forall|k: int| 0 <= k < i ==> (#[trigger] s[k]).due > now,
    ensures
        exact_mean(resolved(s, e, i, mid, now).1, sum + tally(s, due_bps(mid, now), s.len())),
    decreases s.len() - i,
{
    if i >= s.len() {
        lemma_tally_none(s, due_bps(mid, now), now, s.len());
    } else if s[i].due <= now {
        let t = swapped_out(s, i);
        lemma_tally_swapped(s, due_one(now), i);
        lemma_tally_swapped(s, due_bps(mid, now), i);
        lemma_tally_grows(t, now, t.len());
        assert forall|k: int| 0 <= k < i implies (#[trigger] t[k]).due > now by {
            assert(t[k] == s[k]);
        }
        if s[i].mid0 > 0 {
            lemma_folded(e, s[i], mid, sum);
            lemma_resolved_mean(t, folded(e, s[i], mid), i, mid, now, sum + markout_bps(s[i], mid));
        } else {
            lemma_resolved_mean(t, e, i, mid, now, sum);
        }
    } else {
        lemma_resolved_mean(s, e, i + 1, mid, now, sum);
    }
}

proof fn lemma_resolved_tally(s: Seq<Markout>, e: Experience, i: int, mid: int, now: int, x: Markout)
    requires
        0 <= i <= s.len(),
        mid > 0,
        e.markout_n + tally(s, due_one(now), s.len()) <= u32::MAX,
        forall|k: int| 0 <= k < i ==> (#[trigger] s[k]).due > now,
    ensures
        ({
            let (t, d) = resolved(s, e, i, mid, now);
            &&& x.due > now ==> tally(t, same_as(x), t.len()) == tally(s, same_as(x), s.len())
            &&& d.markout_n == e.markout_n + tally(s, due_one(now), s.len())
        }),
    decreases s.len() - i,
{
    if i >= s.len() {
        lemma_tally_none(s, due_one(now), now, s.len());
    } else if s[i].due <= now {
        let t = swapped_out(s, i);
        lemma_tally_swapped(s, due_one(now), i);
        lemma_tally_swapped(s, same_as(x), i);
        lemma_tally_grows(t, now, t.len());
        assert forall|k: int| 0 <= k < i implies (#[trigger] t[k]).due > now by {
            assert(t[k] == s[k]);
        }
        lemma_resolved_tally(t, folded(e, s[i], mid), i, mid, now, x);
    } else {
        lemma_resolved_tally(s, e, i + 1, mid, now, x);
    }
}

proof fn lemma_resolved(s: Seq<Markout>, e: Experience, i: int, mid: int, now: int)
    requires
        0 <= i <= s.len(),
        forall|k: int| 0 <= k < i ==> (#[trigger] s[k]).due > now,
    ensures
        forall|k: int| 0 <= k < resolved(s, e, i, mid, now).0.len() ==> (#[trigger] resolved(s, e, i, mid, now).0[k]).due > now,
    decreases s.len() - i,
{
    if i < s.len() {
        if s[i].due <= now {
            let t = swapped_out(s, i);
            assert forall|k: int| 0 <= k < i implies (#[trigger] t[k]).due > now by {
                assert(t[k] == s[k]);
            }
            lemma_resolved(t, folded(e, s[i], mid), i, mid, now);
        } else {
            lemma_resolved(s, e, i + 1, mid, now);
        }
    }
}

/// No more round trips are won than made, so the win rate lies in [0, 1].
pub proof fn law_wins_within_roundtrips(c: Counters, marks: Option<(i128, i128)>, p0: Position, p1: Position)
    requires
        c.roundtrip_wins <= c.roundtrips,
    ensures
        count_roundtrip(c, marks, p0, p1).roundtrip_wins <= count_roundtrip(c, marks, p0, p1).roundtrips,
        0 <= share(c.roundtrip_wins as int, c.roundtrips as int) <= ONE,
{
    let a = c.roundtrip_wins as int;
    let b = c.roundtrips as int;
    if b > 0 {
        assert(0 <= a * ONE <= ONE * b);
        lemma_div_round_exact(ONE as int, b);
        lemma_div_round_exact(0, b);
        assert(0int * b == 0);
        lemma_div_round_monotone(a * ONE, ONE * b, b);
        lemma_div_round_monotone(0, a * ONE, b);
    }
}

} // verus!
