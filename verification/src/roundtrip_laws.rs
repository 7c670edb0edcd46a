//! Every open position has the marks from which its round trip is reckoned: the engine starts that
//! way and every step of it keeps it so. So no position closes without being counted.

use vstd::prelude::*;
use crate::config::{Config, Overrides, SymbolLists};
use crate::engine::{active_refreshed, active_selected, aged_out, bbo_handled, bbo_noted, book_applied, book_counted, called_back, called_back_upto, clocked, closed_out, config_applied, config_checked, done_taken, dones_taken, drained, emptied, event_taken, fill_taken, fills_taken, finished_run, market_taken, markouts_resolved, matters, noted, paper_clocked, place_req, reference_noted, refresh_stamped, requoted, rests_out, risk_taken, snapshots_sent, started, swept_upto, symbol_swept, symbols_judged, synced, takes_reference, tick_checked, tick_counted, ticked, time_taken, too_old, trade_taken, trades_taken, wanted_quotes, Engine};
use crate::paper::{new_order, PaperEvent, PaperExchange};
use crate::paper_laws::{law_events_keep_symbols, syms_below};
use crate::portfolio::{position_of, with_position, Position};
use crate::portfolio_laws::{law_positions_are_a_table, one_each};
use crate::strategy::Quote;
use crate::types::{Bbo, Fill, MarketEvent, OrderDone, Side, SymbolId, SymbolMeta, Trade};
use crate::units::{lemma_wide, min_int};

verus! {

/// Every symbol with an open position has the marks of its round trip.
pub open spec fn marks_stand(e: Engine) -> bool {
    &&& one_each(e.portfolio.positions@)
    &&& syms_below(e.paper, e.symbols@.len() as int)
    &&& forall|sym: SymbolId|
        (sym as int) < e.symbols@.len() && !(#[trigger] e.portfolio.held(sym)).flat() ==> e.sym(sym).rt_open_marks is Some
}

/// A step that keeps the marks.
pub open spec fn keeps_marks(a: Engine, b: Engine) -> bool {
    marks_stand(a) ==> marks_stand(b) && b.symbols@.len() == a.symbols@.len()
}

/// Neither positions nor marks change.
pub open spec fn same_books(a: Engine, b: Engine) -> bool {
    &&& b.symbols@.len() == a.symbols@.len()
    &&& forall|sym: SymbolId| (sym as int) < a.symbols@.len() ==> (#[trigger] b.sym(sym)).rt_open_marks == a.sym(sym).rt_open_marks
    &&& b.portfolio.positions@ == a.portfolio.positions@
}

proof fn lemma_still(a: Engine, b: Engine)
    requires
        same_books(a, b),
        syms_below(a.paper, a.symbols@.len() as int) ==> syms_below(b.paper, a.symbols@.len() as int),
    ensures
        keeps_marks(a, b),
{
    if marks_stand(a) {
        assert forall|sym: SymbolId| (sym as int) < b.symbols@.len() && !(#[trigger] b.portfolio.held(sym)).flat() implies b.sym(
            sym,
        ).rt_open_marks is Some by {
            assert(b.portfolio.held(sym) == a.portfolio.held(sym));
        }
    }
}

proof fn lemma_event(a: Engine, b: Engine, now: i64, ev: PaperEvent)
    requires
        b.paper.after(&a.paper, now, ev),
        same_books(a, b),
    ensures
        keeps_marks(a, b),
{
    if syms_below(a.paper, a.symbols@.len() as int) {
        law_events_keep_symbols(a.paper, b.paper, now, ev, a.symbols@.len() as int);
    }
    lemma_still(a, b);
}

proof fn lemma_synced(a: Engine, b: Engine, sym: SymbolId, side: Side, desired: Option<Quote>, now: i64)
    requires
        synced(a, b, sym, side, desired, now),
        (sym as int) < a.symbols@.len(),
    ensures
        keeps_marks(a, b),
{
    if b.paper.next_id != a.paper.next_id || b.paper.orders@.len() > a.paper.orders@.len() {
        if let Some(d) = desired {
            let o = new_order(a.paper.terms(), a.paper.market(sym), now, a.paper.next_id, place_req(a, sym, side, d));
            if syms_below(a.paper, a.symbols@.len() as int) && b.paper.orders@ == a.paper.orders@.push(o) {
                assert forall|i: int| 0 <= i < b.paper.orders@.len() implies (#[trigger] b.paper.orders@[i]).sym < a.symbols@.len() by {
                    if i < a.paper.orders@.len() {
                        assert(b.paper.orders@[i] == a.paper.orders@[i]);
                    }
                }
            }
        }
    }
    assert(same_books(a, b));
    match a.sym(sym).order_on(side) {
        Some(id) if crate::paper::find_order(a.paper.orders@, id, 0) is Some => {
            if b != a {
                lemma_event(a, b, now, PaperEvent::Cancel(id));
            }
        },
        _ => {
            lemma_still(a, b);
        },
    }
}

/// Quoting a symbol keeps the marks.
proof fn lemma_requoted(a: Engine, b: Engine, sym: SymbolId, now: i64)
    requires
        requoted(a, b, sym, now),
        (sym as int) < a.symbols@.len(),
    ensures
        keeps_marks(a, b),
{
    if let Some(bbo) = a.sym(sym).bbo {
        if rests_out(a, sym) {
            if a.sym(sym).has_order() {
                lemma_event(a, b, now, PaperEvent::CancelAll(sym));
            } else {
                lemma_still(a, b);
            }
        } else if now - a.sym(sym).last_requote_ms >= a.sym(sym).params.min_requote_ms {
            let q = wanted_quotes(a, sym, bbo, now);
            let (x, y) = choose|x: Engine, y: Engine|
                #[trigger] noted(a, x, sym, q, now) && #[trigger] synced(x, y, sym, Side::Buy, q.bid, now) && synced(y, b, sym, Side::Sell, q.ask, now);
            lemma_still(a, x);
            lemma_synced(x, y, sym, Side::Buy, q.bid, now);
            if marks_stand(a) {
                lemma_synced(y, b, sym, Side::Sell, q.ask, now);
            }
        }
    }
}

/// A fill keeps the marks, and it is counted as the end of a round trip exactly when it closes an
/// open position.
pub proof fn law_close_is_counted(a: Engine, b: Engine, f: Fill, now: i64)
    requires
        fill_taken(a, b, f, now),
        marks_stand(a),
        (f.sym as int) < a.symbols@.len(),
    ensures
        marks_stand(b),
        b.symbols@.len() == a.symbols@.len(),
        b.counters.roundtrips == if !a.portfolio.held(f.sym).flat() && b.portfolio.held(f.sym).flat() {
            min_int(u64::MAX as int, a.counters.roundtrips + 1)
        } else {
            a.counters.roundtrips as int
        },
{
    let p1 = a.portfolio.held(f.sym).after(f);
    law_positions_are_a_table(a.portfolio.positions@, f.sym, p1, f.sym);
    assert forall|sym: SymbolId| (sym as int) < b.symbols@.len() && !(#[trigger] b.portfolio.held(sym)).flat() implies b.sym(sym).rt_open_marks is Some by {
        law_positions_are_a_table(a.portfolio.positions@, f.sym, p1, sym);
        if sym != f.sym {
            assert(b.portfolio.held(sym) == a.portfolio.held(sym));
            assert(b.sym(sym) == a.sym(sym));
        } else {
            assert(b.portfolio.held(sym) == p1);
        }
    }
}

/// The position among others.
pub open spec fn held_in(ps: Seq<(SymbolId, Position)>, sym: SymbolId) -> Position {
    match position_of(ps, sym) {
        Some(p) => p,
        None => Position::spec_default(),
    }
}

/// The positions after the fills.
pub open spec fn positions_after(ps: Seq<(SymbolId, Position)>, fs: Seq<Fill>) -> Seq<(SymbolId, Position)>
    decreases fs.len(),
{
    if fs.len() == 0 {
        ps
    } else {
        let qs = positions_after(ps, fs.drop_last());
        with_position(qs, fs.last().sym, held_in(qs, fs.last().sym).after(fs.last()))
    }
}

/// How many of the fills close an open position.
pub open spec fn closes(ps: Seq<(SymbolId, Position)>, fs: Seq<Fill>) -> nat
    decreases fs.len(),
{
    if fs.len() == 0 {
        0
    } else {
        let p = held_in(positions_after(ps, fs.drop_last()), fs.last().sym);
        closes(ps, fs.drop_last()) + if !p.flat() && p.after(fs.last()).flat() {
            1nat
        } else {
            0nat
        }
    }
}

/// Of the fills that are taken, each that closes an open position is counted as a round trip, and
/// no other.
pub proof fn law_closes_are_counted(a: Engine, b: Engine, fs: Seq<Fill>, now: i64)
    requires
        fills_taken(a, b, fs, now),
        marks_stand(a),
        forall|i: int| 0 <= i < fs.len() ==> (#[trigger] fs[i]).sym < a.symbols@.len(),
    ensures
        marks_stand(b),
        b.symbols@.len() == a.symbols@.len(),
        b.paper == a.paper,
        b.portfolio.positions@ == positions_after(a.portfolio.positions@, fs),
        b.counters.roundtrips == min_int(u64::MAX as int, a.counters.roundtrips + closes(a.portfolio.positions@, fs)),
    decreases fs.len(),
{
    if fs.len() > 0 {
        let m = choose|m: Engine| fills_taken(a, m, fs.drop_last(), now) && #[trigger] fill_taken(m, b, fs.last(), now);
        let p = fs.drop_last();
        assert forall|i: int| 0 <= i < p.len() implies (#[trigger] p[i]).sym < a.symbols@.len() by {
            assert(p[i] == fs[i]);
        }
        law_closes_are_counted(a, m, p, now);
        assert(fs.last() == fs[fs.len() - 1]);
        law_close_is_counted(m, b, fs.last(), now);
        law_positions_are_a_table(m.portfolio.positions@, fs.last().sym, m.portfolio.held(fs.last().sym).after(fs.last()), fs.last().sym);
    }
}

proof fn lemma_dones(a: Engine, b: Engine, ds: Seq<OrderDone>)
    requires
        dones_taken(a, b, ds),
        forall|k: int| 0 <= k < ds.len() ==> (#[trigger] ds[k]).sym < a.symbols@.len(),
    ensures
        same_books(a, b),
        b.paper == a.paper,
        b.counters.roundtrips == a.counters.roundtrips,
    decreases ds.len(),
{
    if ds.len() > 0 {
        let m = choose|m: Engine| dones_taken(a, m, ds.drop_last()) && #[trigger] done_taken(m, b, ds.last());
        let p = ds.drop_last();
        assert forall|k: int| 0 <= k < p.len() implies (#[trigger] p[k]).sym < a.symbols@.len() by {
            assert(p[k] == ds[k]);
        }
        lemma_dones(a, m, p);
        assert(ds.last() == ds[ds.len() - 1]);
        assert forall|sym: SymbolId| (sym as int) < a.symbols@.len() implies (#[trigger] b.sym(sym)).rt_open_marks == a.sym(sym).rt_open_marks by {
            assert(m.sym(sym).rt_open_marks == a.sym(sym).rt_open_marks);
        }
    }
}

/// What the paper exchange reports is taken in with the marks kept: each fill that closes an open
/// position is counted as a round trip, and no other.
pub proof fn law_drain_counts(a: Engine, b: Engine, now: i64)
    requires
        drained(a, b, now),
        marks_stand(a),
    ensures
        marks_stand(b),
        b.symbols@.len() == a.symbols@.len(),
        b.portfolio.positions@ == positions_after(a.portfolio.positions@, a.paper.fills@),
        b.counters.roundtrips == min_int(u64::MAX as int, a.counters.roundtrips + closes(a.portfolio.positions@, a.paper.fills@)),
{
    if a.paper.fills@.len() != 0 || a.paper.done@.len() != 0 {
        let (x, y) = choose|x: Engine, y: Engine|
            #[trigger] emptied(a, x) && #[trigger] fills_taken(x, y, a.paper.fills@, now) && dones_taken(y, b, a.paper.done@);
        assert(marks_stand(x)) by {
            lemma_still(a, x);
        }
        law_closes_are_counted(x, y, a.paper.fills@, now);
        lemma_dones(y, b, a.paper.done@);
        lemma_still(y, b);
    }
}

proof fn lemma_drained(a: Engine, b: Engine, now: i64)
    requires
        drained(a, b, now),
    ensures
        keeps_marks(a, b),
{
    if marks_stand(a) {
        law_drain_counts(a, b, now);
    }
}

/// A mid noted in the portfolio leaves what is held as it is.
proof fn lemma_mid(a: Engine, b: Engine, sym: SymbolId, mid: i64)
    requires
        b.portfolio.after_mid(&a.portfolio, sym, mid),
        b.paper == a.paper,
        b.symbols@ == a.symbols@,
    ensures
        keeps_marks(a, b),
{
    if marks_stand(a) {
        let ps = a.portfolio.positions@;
        match position_of(ps, sym) {
            None => {
                lemma_still(a, b);
            },
            Some(p) => {
                let p1 = Position { last_mid: mid, ..p };
                law_positions_are_a_table(ps, sym, p1, sym);
                assert forall|x: SymbolId| (x as int) < b.symbols@.len() && !(#[trigger] b.portfolio.held(x)).flat() implies b.sym(
                    x,
                ).rt_open_marks is Some by {
                    law_positions_are_a_table(ps, sym, p1, x);
                    assert(a.portfolio.held(x).flat() == b.portfolio.held(x).flat());
                    assert(b.sym(x) == a.sym(x));
                }
            },
        }
    }
}

proof fn lemma_bbo(a: Engine, b: Engine, sym: SymbolId, q: Bbo, now: i64)
    requires
        bbo_handled(a, b, sym, q, now),
        (sym as int) < a.symbols@.len(),
    ensures
        keeps_marks(a, b),
{
    let (x, y) = choose|x: Engine, y: Engine|
        #[trigger] bbo_noted(a, x, sym, q, now) && #[trigger] drained(x, y, now) && requoted(y, b, sym, now);
    let n = Engine { portfolio: x.portfolio, ..a };
    lemma_mid(a, n, sym, q.spec_mid() as i64);
    let o = Engine { paper: PaperExchange { last_bbo: x.paper.last_bbo, ..a.paper }, ..n };
    lemma_still(n, o);
    if q.valid() {
        lemma_event(o, x, now, PaperEvent::Book(sym, q));
    } else {
        lemma_still(o, x);
    }
    lemma_drained(x, y, now);
    if marks_stand(a) {
        lemma_requoted(y, b, sym, now);
    }
}

proof fn lemma_trades(a: Engine, b: Engine, sym: SymbolId, ts: Seq<Trade>, now: i64, rec: bool)
    requires
        trades_taken(a, b, sym, ts, now, rec),
        (sym as int) < a.symbols@.len(),
    ensures
        keeps_marks(a, b),
        b.symbols@.len() == a.symbols@.len(),
    decreases ts.len(),
{
    if ts.len() > 0 {
        let m = choose|m: Engine|
            trades_taken(a, m, sym, ts.drop_last(), now, rec) && #[trigger] trade_taken(m, b, sym, ts.last(), now, rec);
        lemma_trades(a, m, sym, ts.drop_last(), now, rec);
        lemma_event(m, b, now, PaperEvent::Trade(sym, ts.last()));
    }
}

proof fn lemma_market_event(a: Engine, b: Engine, ev: MarketEvent, now: i64, ends: bool)
    requires
        event_taken(a, b, ev, now, ends),
    ensures
        keeps_marks(a, b),
{
    match ev {
        MarketEvent::Book { sym, ts, snapshot, bids, asks } => {
            if (sym as int) < a.symbols@.len() {
                let (m, q) = choose|m: Engine, q: Option<Bbo>|
                    #[trigger] book_applied(a, m, sym, ts, snapshot, bids@, asks@) && #[trigger] m.sym(sym).book.is_bbo(q) && match q {
                        Some(x) => bbo_handled(m, b, sym, x, now),
                        None => b == m,
                    };
                lemma_still(a, m);
                if let Some(x) = q {
                    lemma_bbo(m, b, sym, x, now);
                }
            }
        },
        MarketEvent::Bbo { sym, bbo } => {
            if (sym as int) < a.symbols@.len() {
                let m = choose|m: Engine| #[trigger] book_counted(a, m) && bbo_handled(m, b, sym, bbo, now);
                lemma_still(a, m);
                lemma_bbo(m, b, sym, bbo, now);
            }
        },
        MarketEvent::Trades { sym, trades } => {
            if (sym as int) < a.symbols@.len() {
                let m = choose|m: Engine| #[trigger] trades_taken(a, m, sym, trades@, now, a.records(sym)) && drained(m, b, now);
                lemma_trades(a, m, sym, trades@, now, a.records(sym));
                lemma_drained(m, b, now);
            }
        },
        MarketEvent::Turnover(v) => {
            lemma_still(a, b);
        },
        MarketEvent::Reference { sym, ts, bid, ask, rank } => {
            if (sym as int) < a.symbols@.len() && takes_reference(a, sym, bid, ask, rank, now) && bid > 0 && ask >= bid {
                let m = choose|m: Engine|
                    #[trigger] reference_noted(a, m, sym, ts, bid, ask, rank, now) && requoted(m, b, sym, now);
                lemma_still(a, m);
                lemma_requoted(m, b, sym, now);
            } else {
                lemma_still(a, b);
            }
        },
        MarketEvent::Status { conn, msg } => {
            lemma_still(a, b);
        },
    }
}

/// A market event leaves every open position with its marks.
pub proof fn law_market_keeps_marks(a: Engine, b: Engine, ev: MarketEvent, now: i64, due: bool)
    requires
        market_taken(a, b, ev, now, due),
        marks_stand(a),
    ensures
        marks_stand(b),
{
    let (x, y, ends) = choose|x: Engine, y: Engine, ends: bool|
        #[trigger] clocked(a, x, now) && #[trigger] event_taken(x, y, ev, now, ends) && if ends {
            b == y && !due
        } else {
            tick_checked(y, b, now, due)
        };
    lemma_event(a, x, now, PaperEvent::Time);
    lemma_market_event(x, y, ev, now, ends);
    lemma_still(y, b);
}

/// So does the passing of time.
pub proof fn law_time_keeps_marks(a: Engine, b: Engine, now: i64, due: bool)
    requires
        time_taken(a, b, now, due),
        marks_stand(a),
    ensures
        marks_stand(b),
{
    let (x, y) = choose|x: Engine, y: Engine|
        #[trigger] paper_clocked(a, x, now) && #[trigger] drained(x, y, now) && tick_checked(y, b, now, due);
    lemma_event(a, x, now, PaperEvent::Time);
    lemma_drained(x, y, now);
    lemma_still(y, b);
}

proof fn lemma_aged(a: Engine, b: Engine, id: Option<u64>, max_age: i64, now: i64)
    requires
        aged_out(a, b, id, max_age, now),
    ensures
        keeps_marks(a, b),
        b.symbols@.len() == a.symbols@.len(),
{
    if too_old(a, id, max_age, now) {
        lemma_event(a, b, now, PaperEvent::Cancel(id->0));
    }
}

proof fn lemma_swept(a: Engine, b: Engine, n: nat, now: i64)
    requires
        swept_upto(a, b, n, now),
        n <= a.symbols@.len() <= u32::MAX,
        marks_stand(a),
    ensures
        marks_stand(b),
        b.symbols@.len() == a.symbols@.len(),
    decreases n,
{
    if n > 0 {
        let m = choose|m: Engine| swept_upto(a, m, (n - 1) as nat, now) && #[trigger] symbol_swept(m, b, (n - 1) as SymbolId, now);
        lemma_swept(a, m, (n - 1) as nat, now);
        let sym = (n - 1) as SymbolId;
        let st = m.sym(sym);
        let (x, y) = choose|x: Engine, y: Engine|
            #[trigger] aged_out(m, x, st.bid_order, st.params.max_order_age_ms, now) && #[trigger] aged_out(
                x,
                y,
                st.ask_order,
                st.params.max_order_age_ms,
                now,
            ) && if matters(y, sym) {
                requoted(y, b, sym, now)
            } else {
                b == y
            };
        lemma_aged(m, x, st.bid_order, st.params.max_order_age_ms, now);
        lemma_aged(x, y, st.ask_order, st.params.max_order_age_ms, now);
        if matters(y, sym) {
            lemma_requoted(y, b, sym, now);
        }
    }
}

proof fn lemma_refreshed(a: Engine, b: Engine, now: i64)
    requires
        active_refreshed(a, b, now),
    ensures
        keeps_marks(a, b),
        b.symbols@.len() == a.symbols@.len(),
{
    if b != a {
        let m = choose|m: Engine| #[trigger] refresh_stamped(a, m, now) && active_selected(m, b, now);
        assert(refresh_stamped(a, m, now) && active_selected(m, b, now));
        assert forall|sym: SymbolId| (sym as int) < a.symbols@.len() implies (#[trigger] b.sym(sym)).rt_open_marks == a.sym(sym).rt_open_marks by {
            assert(m.symbols@[sym as int] == a.symbols@[sym as int]);
        }
        lemma_still(a, b);
    }
}

/// Housekeeping leaves every open position with its marks.
pub proof fn law_tick_keeps_marks(a: Engine, b: Engine, now: i64, vols: Seq<i64>, check: bool)
    requires
        ticked(a, b, now, vols, check),
        marks_stand(a),
        a.symbols@.len() <= u32::MAX,
    ensures
        marks_stand(b),
{
    let (p, q, r, s, t, u) = choose|p: Engine, q: Engine, r: Engine, s: Engine, t: Engine, u: Engine|
        #[trigger] markouts_resolved(tick_counted(a), p, now) && #[trigger] symbols_judged(p, q, now, vols) && #[trigger] active_refreshed(q, r, now)
            && #[trigger] risk_taken(r, s, now) && #[trigger] swept_upto(s, t, s.symbols@.len(), now) && #[trigger] snapshots_sent(
            t,
            u,
            now,
        ) && config_checked(u, b, now, check);
    lemma_still(a, p);
    lemma_still(p, q);
    lemma_refreshed(q, r, now);
    lemma_still(r, s);
    lemma_swept(s, t, s.symbols@.len(), now);
    lemma_still(t, u);
    lemma_still(u, b);
}

/// So does a new configuration.
pub proof fn law_config_keeps_marks(a: Engine, b: Engine, cfg: Config, ov: Overrides, lists: SymbolLists, now: i64)
    requires
        config_applied(a, b, cfg, ov, lists, now),
        marks_stand(a),
    ensures
        marks_stand(b),
{
    lemma_still(a, b);
}

/// An engine that has just started holds no position, and so lacks no marks.
pub proof fn law_started_has_marks(
    e: Engine,
    cfg: Config,
    ov: Overrides,
    lists: SymbolLists,
    metas: Seq<SymbolMeta>,
    null_store: bool,
    run_id: i64,
    mode: Seq<char>,
    start_ts: i64,
)
    requires
        started(e, cfg, ov, lists, metas, null_store, run_id, mode, start_ts),
    ensures
        marks_stand(e),
{
    lemma_wide(0, 0, Position::spec_default().price_digits);
}

proof fn lemma_called_back(a: Engine, b: Engine, n: nat, now: i64)
    requires
        called_back_upto(a, b, n, now),
    ensures
        keeps_marks(a, b),
        b.symbols@ == a.symbols@,
    decreases n,
{
    if n > 0 {
        let m = choose|m: Engine| called_back_upto(a, m, (n - 1) as nat, now) && #[trigger] called_back(m, b, (n - 1) as SymbolId, now);
        lemma_called_back(a, m, (n - 1) as nat, now);
        if m.sym((n - 1) as SymbolId).has_order() {
            lemma_event(m, b, now, PaperEvent::CancelAll((n - 1) as SymbolId));
        }
    }
}

/// The end of a run leaves every position that is still open with its marks.
pub proof fn law_finish_keeps_marks(a: Engine, b: Engine, now: i64)
    requires
        finished_run(a, b, now),
        marks_stand(a),
    ensures
        marks_stand(b),
{
    let (x, y, z) = choose|x: Engine, y: Engine, z: Engine|
        #[trigger] called_back_upto(a, x, a.symbols@.len(), now) && #[trigger] paper_clocked(
            x,
            y,
            crate::units::clamp64(now + x.paper.latency_ms + 1) as i64,
        ) && #[trigger] drained(y, z, now) && closed_out(z, b, now);
    lemma_called_back(a, x, a.symbols@.len(), now);
    lemma_event(x, y, crate::units::clamp64(now + x.paper.latency_ms + 1) as i64, PaperEvent::Time);
    lemma_drained(y, z, now);
    lemma_still(z, b);
}

} // verus!
