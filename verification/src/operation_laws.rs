//! How the engine runs: when it quotes and from what, how round trips and markouts are reckoned, what
//! trips the kill switch, what is due when, and what a run has come to.

use vstd::prelude::*;
use crate::config::{Config, Overrides, ParamError, StrategyParams, SymbolLists};
use crate::eligibility::{judged, Experience};
use crate::engine::{active_refreshed, aged_out, bbo_handled, bbo_noted, book_counted, called_back, called_back_upto, clocked, closed_out, config_applied, config_checked, done_taken, drained, event_taken, fill_taken, finished_run, folded, is_summary, markout_bps, markout_of, market_taken, matches_quote, matters, noted, paper_clocked, pnl_row, records_bbo, requoted, rests_out, results, risk_taken, snapshots_sent, started, symbol_judged, symbol_row, symbols_judged, synced, tick_checked, time_taken, trade_taken, trades_taken, turned, turnover_of, turnovers_taken, vol_of, wanted_quotes, Engine, Markout, Summary, SymbolState};
use crate::engine_laws::law_drain_empties;
use crate::execution_laws::law_cancel_acts;
use crate::order_laws::orders_tracked;
use crate::paper::{dones_by, fills_by, kept_by, market_of, step, PaperEvent, PaperOrder, Terms};
use crate::portfolio_laws::law_position_set;
use crate::store::StoreMsg;
use crate::strategy::{Quote, QuoteInput};
use crate::types::{Bbo, Fill, MarketEvent, OrderDone, Side, SymbolId, SymbolMeta, Trade};
use crate::units::{abs_int, clamp64, div_round, law_rounds_to_nearest, BPS_ONE, ONE};
use crate::value_laws::{law_equity_adds_up, open_profits, stays_in_range, total};

verus! {

// ------------------------------------------------------------------------------
// Quoting
// ------------------------------------------------------------------------------

/// The quotes that are wanted are those for the state of the symbol: its instrument, market, statistics
/// and parameters, the position that is held, the fee of a maker, the leave to take exposure, which a halt
/// withdraws, and the deviation of the reference; a symbol that is not active may only reduce.
pub proof fn law_quotes_from_state(e: Engine, sym: SymbolId, bbo: Bbo, now: i64, inp: QuoteInput)
    requires
        *inp.meta == e.sym(sym).meta,
        *inp.bbo == bbo,
        *inp.stats == e.sym(sym).stats,
        *inp.params == e.sym(sym).params,
        inp.maker_fee == e.cfg.fees.maker_rate,
        inp.position_qty == e.portfolio.held(sym).qty,
        inp.position_avg == e.portfolio.held(sym).avg_price,
        inp.position_age_secs == e.portfolio.held(sym).spec_age_secs(now as int),
        inp.now_ms == now,
        inp.allow_new_exposure <==> e.risk.allow_entries && !e.halted,
        inp.reduce_only <==> !e.sym(sym).active,
        inp.ref_dev_bps == e.sym(sym).ref_dev(e.cfg.reference.stale_ms as int, now as int),
    ensures
        wanted_quotes(e, sym, bbo, now) == inp.quotes(),
{
}

/// When a symbol is quoted: not without a market, and not before its interval has passed. A symbol
/// without a position that is not active, or while halted, is taken out of the book, and nothing of it is
/// placed. Otherwise the round is counted, and its time and reason are noted.
pub proof fn law_when_quoted(a: Engine, b: Engine, sym: SymbolId, now: i64)
    requires
        requoted(a, b, sym, now),
        (sym as int) < a.symbols@.len(),
        a.counters.requotes < u64::MAX,
    ensures
        ({
            let st = a.sym(sym);
            let out = a.portfolio.held(sym).flat() && (!st.active || a.halted);
            &&& st.bbo is None ==> b == a
            &&& st.bbo is Some && out ==> {
                &&& b.paper.next_id == a.paper.next_id
                &&& st.bid_order is Some || st.ask_order is Some ==> b.paper.after(&a.paper, now, PaperEvent::CancelAll(sym))
                &&& st.bid_order is None && st.ask_order is None ==> b.paper == a.paper
                &&& b.sym(sym).quote_reason == if a.halted { "halted" } else { "inactive" }
                &&& b.counters.requotes == a.counters.requotes
            }
            &&& st.bbo is Some && !out && now - st.last_requote_ms < st.params.min_requote_ms ==> b == a
            &&& st.bbo is Some && !out && now - st.last_requote_ms >= st.params.min_requote_ms ==> {
                &&& b.sym(sym).last_requote_ms == now
                &&& b.counters.requotes == a.counters.requotes + 1
                &&& b.sym(sym).quote_reason == wanted_quotes(a, sym, st.bbo->0, now).reason
            }
            &&& b.portfolio == a.portfolio && b.halted == a.halted && b.risk == a.risk
        }),
{
}

/// An order is left to rest exactly when it is for the same size, kind and purpose as the quote that is
/// wanted, at a price less than half a tick away.
pub proof fn law_what_matches(d: Quote, o: PaperOrder, tick: int)
    ensures
        matches_quote(d, o, tick) <==> d.qty == o.qty && d.taker == o.taker && d.purpose == o.purpose && 2 * (d.price - o.price) < tick && 2 * (o.price
            - d.price) < tick,
{
}

// ------------------------------------------------------------------------------
// Round trips and markouts
// ------------------------------------------------------------------------------

/// A round trip begins with the fill that opens a position: what had been realized and paid before that
/// fill is noted. It is won when, by the fill that closes the position, more has been realized since than
/// paid in fees. A fill in between counts nothing, and notes something only where nothing was noted yet.
pub proof fn law_round_trip_reckoned(a: Engine, b: Engine, f: Fill, now: i64)
    requires
        fill_taken(a, b, f, now),
        (f.sym as int) < a.symbols@.len(),
        a.counters.roundtrips < u64::MAX,
        a.counters.roundtrip_wins < u64::MAX,
        ({
            let (p, q) = (a.portfolio.held(f.sym), b.portfolio.held(f.sym));
            &&& q.realized_pnl == p.realized_pnl + p.realized_by(f)
            &&& q.fees == p.fees + f.fee
            &&& a.sym(f.sym).rt_open_marks matches Some(m) ==> {
                &&& i128::MIN <= q.realized_pnl - m.0 <= i128::MAX
                &&& i128::MIN <= q.fees - m.1 <= i128::MAX
                &&& i128::MIN <= (q.realized_pnl - m.0) - (q.fees - m.1) <= i128::MAX
            }
        }),
    ensures
        ({
            let (p, q) = (a.portfolio.held(f.sym), b.portfolio.held(f.sym));
            let (m, n) = (a.sym(f.sym).rt_open_marks, b.sym(f.sym).rt_open_marks);
            &&& p.flat() && !q.flat() ==> n == Some((p.realized_pnl, p.fees)) && b.counters.roundtrips == a.counters.roundtrips
            &&& !p.flat() && !q.flat() && m is Some ==> n == m && b.counters == a.counters
            &&& !p.flat() && !q.flat() && m is None ==> n == Some((p.realized_pnl, p.fees))
            &&& !p.flat() && q.flat() && m is Some ==> {
                let won = q.realized_pnl - (m->0).0 > q.fees - (m->0).1;
                &&& n is None
                &&& b.counters.roundtrips == a.counters.roundtrips + 1
                &&& b.counters.roundtrip_wins == a.counters.roundtrip_wins + if won { 1int } else { 0int }
            }
        }),
{
    law_position_set(a.portfolio.positions@, f.sym, a.portfolio.held(f.sym).after(f));
}

/// Every fill is to be measured once the horizon has passed, from the mid of the market it met, or from
/// its price where there was none.
pub proof fn law_markout_noted(a: Engine, b: Engine, f: Fill, now: i64)
    requires
        fill_taken(a, b, f, now),
        (f.sym as int) < a.symbols@.len(),
        f.ts + a.cfg.eligibility.markout_horizon_secs * 1000 <= i64::MAX,
    ensures
        ({
            let (s, t) = (a.sym(f.sym).pending_markouts@, b.sym(f.sym).pending_markouts@);
            &&& t.len() == s.len() + 1
            &&& t.drop_last() == s
            &&& t.last().due == f.ts + a.cfg.eligibility.markout_horizon_secs * 1000
            &&& t.last().side == f.side
            &&& f.bid > 0 && f.ask > f.bid ==> 2 * t.last().mid0 <= f.bid + f.ask <= 2 * t.last().mid0 + 1
            &&& !(f.bid > 0 && f.ask > f.bid) ==> t.last().mid0 == f.price
        }),
{
    let s = a.sym(f.sym).pending_markouts@;
    assert(s.push(markout_of(f, a.cfg.eligibility.markout_horizon_secs)).drop_last() =~= s);
}

/// The markout is how far the mid went our way since, over what it was, in basis points to the nearest
/// last digit: up after a buy and down after a sell are gains.
pub proof fn law_markout_value(m: Markout, mid: int)
    requires
        m.mid0 > 0,
        i64::MIN < markout_bps(m, mid) < i64::MAX,
    ensures
        ({
            let way = if m.side == Side::Buy { mid - m.mid0 } else { m.mid0 - mid };
            &&& 2 * abs_int(markout_bps(m, mid) * m.mid0 - way * BPS_ONE) <= m.mid0
            &&& way >= 0 ==> markout_bps(m, mid) >= 0
            &&& way <= 0 ==> markout_bps(m, mid) <= 0
        }),
{
    let way = if m.side == Side::Buy { mid - m.mid0 } else { m.mid0 - mid };
    assert(m.side.spec_sign() * (mid - m.mid0) == way) by (nonlinear_arith)
        requires
            m.side.spec_sign() == 1 && way == mid - m.mid0 || m.side.spec_sign() == -1 && way == m.mid0 - mid,
    ;
    law_rounds_to_nearest(way * BPS_ONE, m.mid0 as int);
}

/// After the first thirty, each markout moves the figure a thirtieth of the way toward itself; one without
/// a mid to measure by is not counted.
pub proof fn law_later_markouts(e: Experience, m: Markout, mid: int)
    requires
        30 <= e.markout_n < u32::MAX,
    ensures
        m.mid0 <= 0 || mid <= 0 ==> folded(e, m, mid) == e,
        m.mid0 > 0 && mid > 0 ==> {
            let (old, new, x) = (e.markout_bps as int, folded(e, m, mid).markout_bps as int, markout_bps(m, mid));
            &&& folded(e, m, mid).markout_n == e.markout_n + 1
            &&& old <= x ==> old <= new <= x
            &&& old >= x ==> x <= new <= old
            &&& 2 * abs_int(30 * (new - old) - (x - old)) <= 30
        },
{
    if m.mid0 > 0 && mid > 0 {
        let (old, x) = (e.markout_bps as int, markout_bps(m, mid));
        law_rounds_to_nearest(x - old, 30);
        let k = div_round(x - old, 30);
        assert(x >= old ==> 0 <= k <= x - old);
        assert(x <= old ==> x - old <= k <= 0);
    }
}

// ------------------------------------------------------------------------------
// Counting
// ------------------------------------------------------------------------------

/// An order that has left the book is counted: as done, as filled, or as rejected; its symbol no longer
/// tracks it, and what else the symbol tracks stays.
pub proof fn law_order_counted(a: Engine, b: Engine, d: OrderDone)
    requires
        done_taken(a, b, d),
        (d.sym as int) < a.symbols@.len(),
        a.counters.orders_done < u64::MAX,
        a.counters.orders_filled < u64::MAX,
        a.counters.orders_rejected < u64::MAX,
    ensures
        b.counters.orders_done == a.counters.orders_done + 1,
        b.counters.orders_filled == a.counters.orders_filled + if d.status@ == "filled"@ { 1int } else { 0int },
        d.status@ != "filled"@ ==> b.counters.orders_rejected == a.counters.orders_rejected + if d.status@ == "rejected_post_only"@ { 1int } else { 0int },
        b.sym(d.sym).bid_order != Some(d.order_id),
        b.sym(d.sym).ask_order != Some(d.order_id),
        a.sym(d.sym).bid_order != Some(d.order_id) ==> b.sym(d.sym).bid_order == a.sym(d.sym).bid_order,
        a.sym(d.sym).ask_order != Some(d.order_id) ==> b.sym(d.sym).ask_order == a.sym(d.sym).ask_order,
        b.counters.roundtrips == a.counters.roundtrips,
        b.portfolio == a.portfolio,
{
}

/// A public trade reaches the statistics and the orders of its symbol and is counted once.
pub proof fn law_trade_reaches(a: Engine, b: Engine, sym: SymbolId, t: Trade, now: i64, rec: bool)
    requires
        trade_taken(a, b, sym, t, now, rec),
        (sym as int) < a.symbols@.len(),
        a.counters.trades < u64::MAX,
    ensures
        b.counters.trades == a.counters.trades + 1,
        b.sym(sym).stats.after_trade(&a.sym(sym).stats, t, now),
        b.paper.after(&a.paper, now, PaperEvent::Trade(sym, t)),
        b.outbox@.len() == a.outbox@.len() + if rec { 1int } else { 0int },
{
}

/// The clock runs first, and every event is counted.
pub proof fn law_event_counted(a: Engine, b: Engine, now: i64)
    requires
        clocked(a, b, now),
        a.counters.events < u64::MAX,
    ensures
        b.counters.events == a.counters.events + 1,
        b.paper.after(&a.paper, now, PaperEvent::Time),
        b.counters.books == a.counters.books,
        b.counters.trades == a.counters.trades,
{
}

/// Of the figures that a message brings for a symbol the last one is its turnover; a symbol that is not
/// named keeps its own, and nothing else of it changes.
pub proof fn law_turnover_taken(a: Engine, b: Engine, v: Seq<(SymbolId, i64)>, i: int, j: int)
    requires
        turnovers_taken(a, b, v),
        0 <= i < a.symbols@.len() <= u32::MAX,
    ensures
        0 <= j < v.len() && v[j].0 == i && (forall|k: int| j < k < v.len() ==> (#[trigger] v[k]).0 != i) ==> b.symbols@[i].meta.turnover_24h == v[j].1,
        (forall|k: int| 0 <= k < v.len() ==> (#[trigger] v[k]).0 != i) ==> b.symbols@[i].meta.turnover_24h == a.symbols@[i].meta.turnover_24h,
        b.symbols@[i] == (SymbolState { meta: SymbolMeta { turnover_24h: b.symbols@[i].meta.turnover_24h, ..a.symbols@[i].meta }, ..a.symbols@[i] }),
{
    lemma_turnover(a.symbols@[i], i, v, j);
}

proof fn lemma_turnover(st: SymbolState, i: int, v: Seq<(SymbolId, i64)>, j: int)
    ensures
        0 <= j < v.len() && v[j].0 == i && (forall|k: int| j < k < v.len() ==> (#[trigger] v[k]).0 != i) ==> turnover_of(st, i, v) == v[j].1,
        (forall|k: int| 0 <= k < v.len() ==> (#[trigger] v[k]).0 != i) ==> turnover_of(st, i, v) == st.meta.turnover_24h,
    decreases v.len(),
{
    if v.len() > 0 {
        let d = v.drop_last();
        lemma_turnover(st, i, d, j);
        assert(v.last() == v[v.len() - 1]);
        assert(forall|k: int| 0 <= k < d.len() ==> d[k] == v[k]);
    }
}

// ------------------------------------------------------------------------------
// Risk
// ------------------------------------------------------------------------------

/// Once a tick the books are marked and held against the limits. The kill switch trips when the day has
/// lost its limit or more, and never releases; entries are allowed while it has not tripped, the gross
/// exposure is below its limit and fewer positions are open than allowed, a limit of zero being none.
pub proof fn law_risk_decides(a: Engine, b: Engine, now: i64)
    requires
        risk_taken(a, b, now),
    ensures
        ({
            let (c, p) = (a.cfg.risk, b.portfolio);
            let lost = c.max_daily_loss_usd > 0 && p.spec_daily_pnl() + c.max_daily_loss_usd * ONE <= 0;
            let full = c.max_gross_exposure_usd > 0 && p.spec_gross_exposure() >= c.max_gross_exposure_usd * ONE;
            let many = c.max_open_positions > 0 && p.spec_open_positions() >= c.max_open_positions;
            &&& p == a.portfolio.marked(now as int)
            &&& b.halted <==> a.halted || lost
            &&& b.risk.halted == b.halted
            &&& b.risk.allow_entries <==> !b.halted && !full && !many
            &&& b.risk.gross_exposure == p.spec_gross_exposure() as i128
            &&& b.risk.daily_pnl == p.spec_daily_pnl() as i128
            &&& b.outbox@.len() == a.outbox@.len() + if b.halted && !a.halted { 1int } else { 0int }
            &&& b.symbols@ == a.symbols@ && b.paper == a.paper
            &&& i128::MIN <= a.counters.exposure_sum + p.spec_gross_exposure() <= i128::MAX ==> b.counters.exposure_sum == a.counters.exposure_sum
                + p.spec_gross_exposure()
        }),
{
}

// ------------------------------------------------------------------------------
// What is due
// ------------------------------------------------------------------------------

/// Housekeeping is due in the first call of every second.
pub proof fn law_tick_once_a_second(a: Engine, b: Engine, now: i64, due: bool, later: i64, again: bool, c: Engine)
    requires
        tick_checked(a, b, now, due),
        tick_checked(b, c, later, again),
        0 <= now <= later,
    ensures
        now / 1000 != a.last_tick_sec <==> due,
        later / 1000 == now / 1000 <==> !again,
{
}

/// The active set is chosen anew only once its interval has passed.
pub proof fn law_refresh_interval(a: Engine, b: Engine, now: i64)
    requires
        active_refreshed(a, b, now),
        a.cfg.eligibility.refresh_secs <= 1_000_000_000_000,
    ensures
        now - a.last_refresh_ms < 1000 * a.cfg.eligibility.refresh_secs ==> b == a,
        now - a.last_refresh_ms >= 1000 * a.cfg.eligibility.refresh_secs ==> b.last_refresh_ms == now,
{
}

/// An order of ours that has rested longer than it may is asked to leave, unless it has been asked; a
/// younger one stays, and with no limit on its age every one does.
pub proof fn law_old_orders_go(a: Engine, b: Engine, i: int, max_age: i64, now: i64)
    requires
        0 <= i < a.paper.orders@.len(),
        aged_out(a, b, Some(a.paper.orders@[i].id), max_age, now),
        forall|j: int| 0 <= j < i ==> (#[trigger] a.paper.orders@[j]).id != a.paper.orders@[i].id,
    ensures
        ({
            let o = a.paper.orders@[i];
            let old = max_age > 0 && now - o.ts_created > max_age && o.state != crate::paper::OrderState::CancelPending;
            &&& old ==> b.paper.after(&a.paper, now, PaperEvent::Cancel(o.id))
            &&& !old ==> b == a
        }),
{
    lemma_first(a.paper.orders@, i, 0);
}

proof fn lemma_first(os: Seq<PaperOrder>, i: int, from: int)
    requires
        0 <= from <= i < os.len(),
        forall|j: int| 0 <= j < i ==> (#[trigger] os[j]).id != os[i].id,
    ensures
        crate::paper::find_order(os, os[i].id, from) == Some(i),
    decreases i - from,
{
    if from < i {
        lemma_first(os, i, from + 1);
    }
}

/// A symbol is looked at while it is active, holds anything, or has an order out.
pub proof fn law_who_matters(e: Engine, sym: SymbolId)
    ensures
        !matters(e, sym) <==> !e.sym(sym).active && e.portfolio.held(sym).qty == 0 && e.sym(sym).bid_order is None && e.sym(sym).ask_order is None,
{
}

/// Snapshots go out when their intervals have passed and not before, and the configuration is looked at
/// every five seconds.
pub proof fn law_snapshots_due(a: Engine, b: Engine, c: Engine, now: i64, check: bool)
    requires
        snapshots_sent(a, b, now),
        config_checked(b, c, now, check),
        a.cfg.storage.pnl_snapshot_interval_secs <= 1_000_000_000_000,
        a.cfg.storage.symbol_stats_interval_secs <= 1_000_000_000_000,
    ensures
        ({
            let pnl = now - a.last_pnl_snap_ms >= 1000 * a.cfg.storage.pnl_snapshot_interval_secs;
            let sym = now - a.last_stats_snap_ms >= 1000 * a.cfg.storage.symbol_stats_interval_secs;
            &&& !pnl && !sym ==> b.outbox@ == a.outbox@
            &&& pnl && !sym ==> b.outbox@.len() == a.outbox@.len() + 1
            &&& b.last_pnl_snap_ms == if pnl { now } else { a.last_pnl_snap_ms }
            &&& b.last_stats_snap_ms == if sym { now } else { a.last_stats_snap_ms }
            &&& check <==> now - a.last_cfg_check_ms >= 5000
            &&& c.last_cfg_check_ms == if check { now } else { a.last_cfg_check_ms }
            &&& b.portfolio == a.portfolio && b.paper == a.paper && b.symbols@ == a.symbols@
        }),
{
}

/// A top of book goes to the records when recording is on for its symbol, it differs from the last one
/// that went there, and that is long enough ago.
pub proof fn law_what_is_recorded(e: Engine, sym: SymbolId, b: Bbo, now: i64)
    ensures
        ({
            let st = e.sym(sym);
            let wanted = e.record_md && (e.cfg.recording.symbols@ != "eligible"@ || st.active || st.verdict.eligible);
            let same = st.last_rec_bbo matches Some(p) && p.bid == b.bid && p.ask == b.ask && p.bid_qty == b.bid_qty && p.ask_qty == b.ask_qty;
            records_bbo(e, sym, b, now) <==> wanted && !same && now - st.last_rec_bbo_ts >= e.cfg.recording.bbo_min_interval_ms
        }),
{
}

// ------------------------------------------------------------------------------
// Start, configuration, end
// ------------------------------------------------------------------------------

/// A run starts with the equity that was put in, without positions, orders or a halt, free to enter.
pub proof fn law_start(
    e: Engine,
    cfg: Config,
    ov: Overrides,
    lists: SymbolLists,
    metas: Seq<SymbolMeta>,
    null_store: bool,
    run_id: i64,
    mode: Seq<char>,
    start_ts: i64,
)
    requires
        started(e, cfg, ov, lists, metas, null_store, run_id, mode, start_ts),
    ensures
        e.portfolio.spec_equity() == cfg.paper.initial_equity_usd * ONE,
        e.portfolio.spec_daily_pnl() == 0,
        e.portfolio.spec_gross_exposure() == 0,
        e.portfolio.spec_open_positions() == 0,
        e.portfolio.max_drawdown == 0,
        e.paper.orders@.len() == 0,
        !e.halted && e.risk.allow_entries,
        e.paper.maker_fee == cfg.fees.maker_rate,
        e.paper.taker_fee == cfg.fees.taker_rate,
        e.paper.latency_ms == cfg.paper.latency_ms,
        forall|i: int| 0 <= i < metas.len() ==> (#[trigger] e.symbols@[i]).meta.name == metas[i].name && !e.symbols@[i].active,
        e.symbols@.len() == metas.len(),
{
    let ps = e.portfolio.positions@;
    assert(ps.len() == 0);
    assert forall|i: int| 0 <= i < metas.len() implies (#[trigger] e.symbols@[i]).meta.name == metas[i].name && !e.symbols@[i].active by {
        assert(crate::engine::fresh_symbol(e.symbols@[i], metas[i], i, cfg, ov));
    }
}

/// A new configuration brings its fees and its latency to the paper exchange, and leaves what rests there.
pub proof fn law_config_in_force(a: Engine, b: Engine, cfg: Config, ov: Overrides, lists: SymbolLists, now: i64)
    requires
        config_applied(a, b, cfg, ov, lists, now),
    ensures
        b.cfg == cfg,
        b.lists == lists,
        b.overrides == ov,
        b.paper.maker_fee == cfg.fees.maker_rate,
        b.paper.taker_fee == cfg.fees.taker_rate,
        b.paper.latency_ms == cfg.paper.latency_ms,
        b.paper.orders@ == a.paper.orders@,
        b.portfolio == a.portfolio,
{
}

/// The order is asked to leave by then.
pub open spec fn leaves_by(o: PaperOrder, at: int) -> bool {
    o.cancel_at matches Some(c) && c <= at
}

/// Cancelling all of a symbol keeps every order in its place.
proof fn lemma_cancel_all(t: Terms, m: Map<SymbolId, Bbo>, now: i64, os: Seq<PaperOrder>, sym: SymbolId)
    ensures
        ({
            let k = kept_by(t, m, now, os, PaperEvent::CancelAll(sym));
            &&& k.len() == os.len()
            &&& forall|i: int|
                0 <= i < os.len() ==> Some(#[trigger] k[i]) == step(t, market_of(m, os[i].sym), now, os[i], PaperEvent::CancelAll(sym)).order
        }),
    decreases os.len(),
{
    if os.len() > 0 {
        let d = os.drop_last();
        lemma_cancel_all(t, m, now, d, sym);
        let k = kept_by(t, m, now, os, PaperEvent::CancelAll(sym));
        let l = kept_by(t, m, now, d, PaperEvent::CancelAll(sym));
        assert forall|i: int| 0 <= i < os.len() implies Some(#[trigger] k[i]) == step(t, market_of(m, os[i].sym), now, os[i], PaperEvent::CancelAll(sym)).order by {
            if i < d.len() {
                assert(k[i] == l[i]);
                assert(d[i] == os[i]);
            }
        }
    }
}

proof fn lemma_all_leave(t: Terms, m: Map<SymbolId, Bbo>, now: i64, os: Seq<PaperOrder>)
    requires
        forall|i: int| 0 <= i < os.len() ==> leaves_by(#[trigger] os[i], now as int),
    ensures
        kept_by(t, m, now, os, PaperEvent::Time).len() == 0,
        fills_by(t, m, now, os, PaperEvent::Time).len() == 0,
    decreases os.len(),
{
    if os.len() > 0 {
        let d = os.drop_last();
        assert forall|i: int| 0 <= i < d.len() implies leaves_by(#[trigger] d[i], now as int) by {
            assert(d[i] == os[i]);
        }
        lemma_all_leave(t, m, now, d);
        assert(leaves_by(os[os.len() - 1], now as int));
    }
}

proof fn lemma_called_back(a: Engine, b: Engine, n: nat, now: i64)
    requires
        called_back_upto(a, b, n, now),
        n <= a.symbols@.len() <= u32::MAX,
        i64::MIN <= now + a.paper.latency_ms <= i64::MAX,
        forall|i: int| 0 <= i < a.paper.orders@.len() ==> (#[trigger] a.paper.orders@[i]).cancel_at is None || leaves_by(a.paper.orders@[i], now + a.paper.latency_ms),
        forall|i: int|
            0 <= i < a.paper.orders@.len() ==> (#[trigger] a.paper.orders@[i]).sym < a.symbols@.len() && a.symbols@[a.paper.orders@[i].sym as int].has_order(),
    ensures
        b.paper.orders@.len() == a.paper.orders@.len(),
        b.paper.latency_ms == a.paper.latency_ms,
        b.symbols@ == a.symbols@,
        forall|i: int|
            0 <= i < a.paper.orders@.len() ==> (#[trigger] b.paper.orders@[i]).sym == a.paper.orders@[i].sym && (leaves_by(
                b.paper.orders@[i],
                now + a.paper.latency_ms,
            ) || (b.paper.orders@[i].cancel_at is None && b.paper.orders@[i].sym >= n)),
    decreases n,
{
    if n > 0 {
        let m = choose|m: Engine| called_back_upto(a, m, (n - 1) as nat, now) && #[trigger] called_back(m, b, (n - 1) as SymbolId, now);
        lemma_called_back(a, m, (n - 1) as nat, now);
        let sym = (n - 1) as SymbolId;
        let os = m.paper.orders@;
        if m.sym(sym).has_order() {
            lemma_cancel_all(m.paper.terms(), m.paper.last_bbo@, now, os, sym);
            assert forall|i: int| 0 <= i < os.len() implies (#[trigger] b.paper.orders@[i]).sym == os[i].sym && (leaves_by(
                b.paper.orders@[i],
                now + a.paper.latency_ms,
            ) || (b.paper.orders@[i].cancel_at is None && b.paper.orders@[i].sym >= n)) by {
                law_cancel_acts(m.paper.terms(), market_of(m.paper.last_bbo@, os[i].sym), now, os[i], PaperEvent::CancelAll(sym));
            }
        } else {
            assert forall|i: int| 0 <= i < os.len() implies (leaves_by(#[trigger] b.paper.orders@[i], now + a.paper.latency_ms) || (
            b.paper.orders@[i].cancel_at is None && b.paper.orders@[i].sym >= n)) by {
                assert(a.symbols@[os[i].sym as int].has_order());
            }
        }
    }
}

/// At the end of a run nothing rests in the book any more: every order has been asked to leave and has
/// left, and nothing is left to be reported.
pub proof fn law_run_ends_empty(a: Engine, b: Engine, now: i64)
    requires
        finished_run(a, b, now),
        orders_tracked(a),
        a.symbols@.len() <= u32::MAX,
        0 <= a.paper.latency_ms,
        now + a.paper.latency_ms < i64::MAX,
        forall|i: int| 0 <= i < a.paper.orders@.len() ==> (#[trigger] a.paper.orders@[i]).cancel_at is None || leaves_by(a.paper.orders@[i], now + a.paper.latency_ms),
    ensures
        b.paper.orders@.len() == 0,
        b.paper.fills@.len() == 0,
        b.paper.done@.len() == 0,
{
    let (x, y, z) = choose|x: Engine, y: Engine, z: Engine|
        #[trigger] called_back_upto(a, x, a.symbols@.len(), now) && #[trigger] paper_clocked(x, y, clamp64(now + x.paper.latency_ms + 1) as i64)
            && #[trigger] drained(y, z, now) && closed_out(z, b, now);
    assert forall|i: int| 0 <= i < a.paper.orders@.len() implies (#[trigger] a.paper.orders@[i]).sym < a.symbols@.len() && a.symbols@[a.paper.orders@[i].sym as int].has_order() by {
        let o = a.paper.orders@[i];
        assert(a.symbols@[o.sym as int].order_on(o.side) == Some(o.id));
    }
    lemma_called_back(a, x, a.symbols@.len(), now);
    let then = clamp64(now + x.paper.latency_ms + 1) as i64;
    assert forall|i: int| 0 <= i < x.paper.orders@.len() implies leaves_by(#[trigger] x.paper.orders@[i], then as int) by {
        assert(x.paper.orders@[i].sym == a.paper.orders@[i].sym);
    }
    lemma_all_leave(x.paper.terms(), x.paper.last_bbo@, then, x.paper.orders@);
    law_drain_empties(y, z, now);
}

/// What a run has come to: the net profit is what was realized less the fees plus what is open, which is
/// what the equity has gained; the win rate is the share of round trips that were won, and the fill ratio
/// the share of orders that were filled among those that were not rejected; the inventory is the mean of
/// the exposures at the ticks.
pub proof fn law_summary_adds_up(e: Engine, r: Summary)
    requires
        is_summary(e, r),
        stays_in_range(open_profits(e.portfolio.positions@)),
        stays_in_range(
            seq![
                e.portfolio.initial_equity * ONE,
                e.portfolio.realized_total as int,
                e.portfolio.fees_total as int,
                total(open_profits(e.portfolio.positions@)),
            ],
        ),
        e.counters.exposure_sum >= 0,
    ensures
        r.net_pnl == r.gross_pnl - r.fees + r.unrealized,
        r.equity == e.portfolio.initial_equity * ONE + r.net_pnl,
        r.gross_pnl == e.portfolio.realized_total,
        r.fees == e.portfolio.fees_total,
        r.n_roundtrips > 0 && r.win_rate < i64::MAX ==> 2 * abs_int(r.win_rate * r.n_roundtrips - e.counters.roundtrip_wins * ONE) <= r.n_roundtrips,
        r.n_roundtrips == 0 ==> r.win_rate == 0,
        ({
            let orders = e.counters.orders_done - e.counters.orders_rejected;
            &&& orders > 0 && r.fill_ratio < i64::MAX ==> 2 * abs_int(r.fill_ratio * orders - e.counters.orders_filled * ONE) <= orders
            &&& orders <= 0 ==> r.fill_ratio == 0
        }),
        e.counters.ticks > 0 ==> 2 * abs_int(r.avg_abs_inventory * e.counters.ticks - e.counters.exposure_sum) <= e.counters.ticks,
        r.n_fills == e.portfolio.n_fills,
        r.n_roundtrips == e.counters.roundtrips,
        r.max_drawdown == e.portfolio.max_drawdown,
{
    law_equity_adds_up(e.portfolio);
    crate::value_laws::law_totals_are_sums(e.portfolio);
    let xs = seq![
        e.portfolio.initial_equity * ONE,
        e.portfolio.realized_total as int,
        e.portfolio.fees_total as int,
        total(open_profits(e.portfolio.positions@)),
    ];
    let ys = Seq::new(xs.len(), |i: int| abs_int(xs[i]));
    reveal_with_fuel(total, 6);
    assert(total(ys) == abs_int(xs[0]) + abs_int(xs[1]) + abs_int(xs[2]) + abs_int(xs[3])) by {
        assert(ys.skip(1).skip(1).skip(1).skip(1).len() == 0);
    }
    let c = e.counters;
    if c.roundtrips > 0 {
        law_rounds_to_nearest(c.roundtrip_wins * ONE, c.roundtrips as int);
    }
    if c.orders_done > c.orders_rejected {
        law_rounds_to_nearest(c.orders_filled * ONE, c.orders_done - c.orders_rejected);
    }
    if c.ticks > 0 {
        law_rounds_to_nearest(c.exposure_sum as int, c.ticks as int);
    }
}

/// A new top of book reaches everything that depends on it: the statistics of its symbol, the orders on the
/// paper exchange and the mark of the position, which is its mid.
pub proof fn law_book_reaches(a: Engine, b: Engine, sym: SymbolId, q: Bbo, now: i64)
    requires
        bbo_noted(a, b, sym, q, now),
        (sym as int) < a.symbols@.len(),
    ensures
        b.sym(sym).bbo == Some(q),
        b.sym(sym).stats.after_bbo(&a.sym(sym).stats, q, now),
        b.paper.after_bbo(&a.paper, now, sym, q),
        exists|mid: i64| #[trigger] b.portfolio.after_mid(&a.portfolio, sym, mid) && 2 * mid <= q.bid + q.ask <= 2 * mid + 1,
        b.counters == a.counters,
{
    assert(b.portfolio.after_mid(&a.portfolio, sym, q.spec_mid() as i64));
    assert(i64::MIN <= q.spec_mid() <= i64::MAX);
}

/// Every symbol is judged by its own figures, as they stand after they were refreshed, and by the least
/// spread that its own parameters ask for.
pub proof fn law_judged_by_its_own(a: Engine, b: Engine, now: i64, vols: Seq<i64>, i: int)
    requires
        symbols_judged(a, b, now, vols),
        0 <= i < a.symbols@.len(),
    ensures
        ({
            let (s, t) = (a.symbols@[i], b.symbols@[i]);
            &&& t.stats.after_refresh(&s.stats, now, if i < vols.len() { vols[i] } else { 0 })
            &&& t.verdict == judged(a.cfg.eligibility, s.meta, t.stats, a.lists, s.params.min_spread_bps as int, now as int, s.experience)
            &&& t.active == s.active && t.params == s.params && t.experience == s.experience
        }),
{
    assert(symbol_judged(a.symbols@[i], b.symbols@[i], a, now, vol_of(vols, i)));
}

/// With a new configuration a symbol has the parameters that it resolves to, or keeps its own where that is
/// refused; nothing else of it changes.
pub proof fn law_parameters_renewed(a: Engine, b: Engine, cfg: Config, ov: Overrides, lists: SymbolLists, now: i64, i: int)
    requires
        config_applied(a, b, cfg, ov, lists, now),
        0 <= i < a.symbols@.len(),
    ensures
        ({
            let (s, t) = (a.symbols@[i], b.symbols@[i]);
            &&& exists|r: Result<StrategyParams, ParamError>|
                #[trigger] ov.is_resolved(cfg.strategy, s.meta.name@, r) && (r is Ok ==> t.params == r->Ok_0) && (r is Err ==> t.params == s.params)
            &&& t.bid_order == s.bid_order && t.ask_order == s.ask_order && t.bbo == s.bbo && t.active == s.active && t.experience == s.experience
        }),
{
    assert(crate::engine::reparametrized(a.symbols@[i], b.symbols@[i], ov, cfg.strategy));
}

/// The results by symbol are those of the symbols that have traded, each under its name.
pub proof fn law_results_by_symbol(e: Engine, n: nat)
    requires
        n < e.symbols@.len() <= u32::MAX,
    ensures
        ({
            let p = e.portfolio.held(n as SymbolId);
            let (r, s) = (results(e, n), results(e, n + 1));
            &&& results(e, 0).len() == 0
            &&& p.n_fills == 0 ==> s == r
            &&& p.n_fills > 0 ==> {
                &&& s.len() == r.len() + 1 && s.drop_last() == r
                &&& s.last().0 == e.symbols@[n as int].meta.name
                &&& s.last().1.realized == p.realized_pnl && s.last().1.fees == p.fees && s.last().1.n_fills == p.n_fills
                &&& s.last().1.position_qty == p.qty && s.last().1.unrealized == p.spec_unrealized()
            }
        }),
{
    let r = results(e, n);
    let s = results(e, n + 1);
    if e.portfolio.held(n as SymbolId).n_fills > 0 {
        assert(s.drop_last() =~= r);
    }
}

// ------------------------------------------------------------------------------
// Nothing is left unreported
// ------------------------------------------------------------------------------

/// A cancel brings neither fills nor ends.
proof fn lemma_cancel_reports_nothing(t: Terms, m: Map<SymbolId, Bbo>, now: i64, os: Seq<PaperOrder>, ev: PaperEvent)
    requires
        ev is Cancel || ev is CancelAll,
    ensures
        fills_by(t, m, now, os, ev).len() == 0,
        dones_by(t, m, now, os, ev).len() == 0,
    decreases os.len(),
{
    if os.len() > 0 {
        lemma_cancel_reports_nothing(t, m, now, os.drop_last(), ev);
    }
}

proof fn lemma_quoting_reports_nothing(a: Engine, b: Engine, sym: SymbolId, now: i64)
    requires
        requoted(a, b, sym, now),
    ensures
        b.paper.fills@ =~= a.paper.fills@,
        b.paper.done@ =~= a.paper.done@,
{
    let (t, m, os) = (a.paper.terms(), a.paper.last_bbo@, a.paper.orders@);
    lemma_cancel_reports_nothing(t, m, now, os, PaperEvent::CancelAll(sym));
    if let Some(bbo) = a.sym(sym).bbo {
        if !rests_out(a, sym) && now - a.sym(sym).last_requote_ms >= a.sym(sym).params.min_requote_ms {
            let q = wanted_quotes(a, sym, bbo, now);
            let (x, y) = choose|x: Engine, y: Engine|
                #[trigger] noted(a, x, sym, q, now) && #[trigger] synced(x, y, sym, Side::Buy, q.bid, now) && synced(y, b, sym, Side::Sell, q.ask, now);
            if let Some(id) = x.sym(sym).order_on(Side::Buy) {
                lemma_cancel_reports_nothing(x.paper.terms(), x.paper.last_bbo@, now, x.paper.orders@, PaperEvent::Cancel(id));
            }
            if let Some(id) = y.sym(sym).order_on(Side::Sell) {
                lemma_cancel_reports_nothing(y.paper.terms(), y.paper.last_bbo@, now, y.paper.orders@, PaperEvent::Cancel(id));
            }
        }
    }
}

/// After a top of book or trades of a known symbol, and after the passing of time, every fill and every
/// order that ended has been taken into the books: the paper exchange has nothing left to report.
pub proof fn law_all_is_taken_in(a: Engine, b: Engine, ev: MarketEvent, now: i64, due: bool)
    requires
        market_taken(a, b, ev, now, due),
        (ev matches MarketEvent::Bbo { sym, bbo } && (sym as int) < a.symbols@.len()) || (ev matches MarketEvent::Trades { sym, trades } && (sym as int)
            < a.symbols@.len()),
    ensures
        b.paper.fills@.len() == 0,
        b.paper.done@.len() == 0,
{
    let (x, y, ends) = choose|x: Engine, y: Engine, ends: bool|
        #[trigger] clocked(a, x, now) && #[trigger] event_taken(x, y, ev, now, ends) && if ends {
            b == y && !due
        } else {
            tick_checked(y, b, now, due)
        };
    match ev {
        MarketEvent::Bbo { sym, bbo } => {
            let m = choose|m: Engine| #[trigger] book_counted(x, m) && bbo_handled(m, y, sym, bbo, now);
            let (p, q) = choose|p: Engine, q: Engine|
                #[trigger] bbo_noted(m, p, sym, bbo, now) && #[trigger] drained(p, q, now) && requoted(q, y, sym, now);
            law_drain_empties(p, q, now);
            lemma_quoting_reports_nothing(q, y, sym, now);
        },
        MarketEvent::Trades { sym, trades } => {
            let m = choose|m: Engine| #[trigger] trades_taken(x, m, sym, trades@, now, x.records(sym)) && drained(m, y, now);
            law_drain_empties(m, y, now);
        },
        _ => {},
    }
}

/// So it is after the passing of time.
pub proof fn law_time_takes_all_in(a: Engine, b: Engine, now: i64, due: bool)
    requires
        time_taken(a, b, now, due),
    ensures
        b.paper.fills@.len() == 0,
        b.paper.done@.len() == 0,
{
    let (x, y) = choose|x: Engine, y: Engine|
        #[trigger] paper_clocked(a, x, now) && #[trigger] drained(x, y, now) && tick_checked(y, b, now, due);
    law_drain_empties(x, y, now);
}

// ------------------------------------------------------------------------------
// What is told
// ------------------------------------------------------------------------------

/// Market data is recorded as it was seen: a quote with its prices and sizes, a trade with the side of its
/// taker, its price and its size, each for its symbol and at the time of the engine.
pub proof fn law_recorded_as_seen(a: Engine, b: Engine, sym: SymbolId, q: Bbo, t: Trade, now: i64)
    requires
        (sym as int) < a.symbols@.len(),
    ensures
        bbo_noted(a, b, sym, q, now) && records_bbo(a, sym, q, now) ==> {
            &&& b.outbox@.len() == a.outbox@.len() + 1
            &&& b.outbox@.last() matches StoreMsg::MdBbo(m) && m.ts == now && m.sym == sym && m.bid == q.bid && m.ask == q.ask && m.bid_qty == q.bid_qty
                && m.ask_qty == q.ask_qty && m.price_digits == a.sym(sym).meta.price_digits
            &&& b.sym(sym).last_rec_bbo == Some(q) && b.sym(sym).last_rec_bbo_ts == now
        },
        bbo_noted(a, b, sym, q, now) && !records_bbo(a, sym, q, now) ==> b.outbox@ == a.outbox@ && b.sym(sym).last_rec_bbo == a.sym(sym).last_rec_bbo,
        trade_taken(a, b, sym, t, now, true) ==> {
            &&& b.outbox@.len() == a.outbox@.len() + 1
            &&& b.outbox@.last() matches StoreMsg::MdTrade(m) && m.ts == now && m.sym == sym && m.price == t.price && m.qty == t.qty && m.price_digits
                == a.sym(sym).meta.price_digits && m.side == if t.taker_side == Side::Buy { 0u8 } else { 1u8 }
        },
{
}

/// A fill is told first, with what it realized, and then the position that it leaves.
pub proof fn law_fill_is_told(a: Engine, b: Engine, f: Fill, now: i64)
    requires
        fill_taken(a, b, f, now),
        (f.sym as int) < a.symbols@.len(),
    ensures
        ({
            let n = a.outbox@.len() as int;
            let p = b.portfolio.held(f.sym);
            &&& b.outbox@.len() == n + 2
            &&& b.outbox@.take(n) == a.outbox@
            &&& b.outbox@[n] matches StoreMsg::Fill { fill, symbol, price_digits, realized } && fill == f && symbol == a.sym(f.sym).meta.name
                && realized == a.portfolio.held(f.sym).realized_by(f) as i128
            &&& b.outbox@[n + 1] matches StoreMsg::PositionState { symbol, price_digits, qty, avg_price, realized_pnl, fees, opened_ts, last_mid, updated_ts }
                && symbol == a.sym(f.sym).meta.name && qty == p.qty && avg_price == p.avg_price && realized_pnl == p.realized_pnl && fees == p.fees
                && opened_ts == p.opened_ts && last_mid == p.last_mid && updated_ts == now
        }),
{
    law_position_set(a.portfolio.positions@, f.sym, a.portfolio.held(f.sym).after(f));
    assert(b.outbox@.take(a.outbox@.len() as int) =~= a.outbox@);
}

/// A snapshot of the books shows them as they stand.
pub proof fn law_snapshot_shows(e: Engine, now: i64)
    ensures
        pnl_row(e, now) matches StoreMsg::Pnl(r) && {
            &&& r.ts == now
            &&& r.equity == e.portfolio.spec_equity() as i128
            &&& r.realized == e.portfolio.realized_total && r.fees == e.portfolio.fees_total
            &&& r.unrealized == e.portfolio.spec_unrealized_total() as i128
            &&& r.gross_exposure == e.portfolio.spec_gross_exposure() as i128
            &&& r.open_positions == e.portfolio.spec_open_positions() as usize
            &&& r.daily_pnl == e.portfolio.spec_daily_pnl() as i128
            &&& r.max_drawdown == e.portfolio.max_drawdown
            &&& r.n_fills == e.portfolio.n_fills
            &&& r.n_active_symbols == e.n_active
            &&& r.halted == e.halted
            &&& r.n_live_orders == e.paper.orders@.len() as usize
        },
{
}

/// So does a snapshot of a symbol.
pub proof fn law_symbol_snapshot_shows(e: Engine, sym: SymbolId, q: Bbo, now: i64)
    ensures
        symbol_row(e, sym, q, now) matches StoreMsg::SymbolStats(r) && {
            let st = e.sym(sym);
            &&& r.ts == now && r.symbol == st.meta.name
            &&& r.spread_med_bps == st.stats.spread_med_bps && r.spread_mean_bps == st.stats.spread_mean_bps
            &&& r.vol_bps == st.stats.vol_bps && r.trades_per_min == st.stats.trades_per_min
            &&& r.turnover_24h == st.meta.turnover_24h
            &&& r.eligible == st.verdict.eligible && r.reason == st.verdict.reason && r.score == st.verdict.score
            &&& r.active == st.active
            &&& r.bid == q.bid && r.ask == q.ask
            &&& r.position_qty == e.portfolio.held(sym).qty
            &&& r.quote_reason == st.quote_reason
            &&& r.markout_bps == st.experience.markout_bps && r.markout_n == st.experience.markout_n
        },
{
}

/// Of a change of the active set those are told that became active, and those that no longer are.
pub proof fn law_turned_are_named(a: Seq<SymbolState>, b: Seq<SymbolState>, to: bool, n: nat)
    requires
        n < a.len(),
        n < b.len(),
    ensures
        turned(a, b, to, 0).len() == 0,
        b[n as int].active == to && a[n as int].active == !to ==> turned(a, b, to, n + 1) == turned(a, b, to, n).push(a[n as int].meta.name),
        b[n as int].active == a[n as int].active || b[n as int].active == !to ==> turned(a, b, to, n + 1) == turned(a, b, to, n),
{
}

} // verus!
