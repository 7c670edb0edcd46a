use spr_core::config::{default_config, Config, OverrideValue, Overrides, SymbolLists};
use spr_core::engine::{Engine, Markout};
use spr_core::store::{Note, StoreMsg};
use spr_core::strategy::Quote;
use spr_core::types::{Bbo, MarketEvent, Purpose, Side, SymbolMeta, Trade};

fn d(x: f64) -> i64 {
    (x * 1e8).round() as i64
}

fn meta(name: &str) -> SymbolMeta {
    SymbolMeta {
        id: 0,
        name: name.to_string(),
        base_coin: "T".to_string(),
        quote_coin: "USDT".to_string(),
        tick_size: d(0.001),
        qty_step: d(1.0),
        min_qty: d(1.0),
        max_qty: d(1e9),
        min_notional: d(5.0),
        price_scale: 3,
        price_digits: 8,
        turnover_24h: d(1e7),
    }
}

fn config() -> Config {
    let mut cfg = default_config();
    cfg.eligibility.min_trades_per_min = d(1.0);
    cfg.eligibility.window_secs = 20;
    cfg.eligibility.refresh_secs = 1;
    cfg.recording.enabled = false;
    cfg.paper.latency_ms = 10;
    cfg
}

fn engine() -> Engine {
    Engine::new(config(), Overrides::default(), SymbolLists::default(), vec![meta("AUSDT")], true, 1, "test", 1_700_000_000_000)
}

/// Housekeeping, with the volatility of each symbol's mids.
fn tick(e: &mut Engine, now: i64) {
    let vols: Vec<i64> = e
        .symbols
        .iter()
        .map(|s| {
            let rets: Vec<f64> = s.stats.vol_pairs(now).iter().map(|p| (p.to as f64 / p.from as f64).ln() / (p.dt as f64).sqrt()).collect();
            if rets.len() < 5 {
                return 0;
            }
            let mean = rets.iter().sum::<f64>() / rets.len() as f64;
            let var = rets.iter().map(|r| (r - mean) * (r - mean)).sum::<f64>() / (rets.len() - 1) as f64;
            d(var.sqrt() * 60f64.sqrt() * 1e4)
        })
        .collect();
    e.tick(now, &vols);
}

fn market(e: &mut Engine, ev: MarketEvent, now: i64) {
    if e.on_market(ev, now) {
        tick(e, now);
    }
}

fn time(e: &mut Engine, now: i64) {
    if e.on_time(now) {
        tick(e, now);
    }
}

fn quote(ts: i64, bid: f64, ask: f64) -> MarketEvent {
    MarketEvent::Bbo { sym: 0, bbo: Bbo { ts, bid: d(bid), ask: d(ask), bid_qty: d(50.0), ask_qty: d(50.0) } }
}

fn trade(ts: i64, price: f64, qty: f64, taker_side: Side) -> MarketEvent {
    MarketEvent::Trades { sym: 0, trades: vec![Trade { ts, price: d(price), qty: d(qty), taker_side }] }
}

/// 30 seconds of quotes and trades: enough samples to become eligible.
fn warm_up(e: &mut Engine) -> i64 {
    let t0 = 1_700_000_000_000i64;
    let mut now = t0;
    for i in 0..30 {
        now = t0 + i * 1000;
        market(e, quote(now, 1.000, 1.020), now);
        market(e, trade(now, 1.010, 1.0, if i % 2 == 0 { Side::Buy } else { Side::Sell }), now + 1);
    }
    now
}

/// After the next quotes both sides should rest in the paper book (two steps: an order that just
/// aged out is re-placed only once its cancel has gone through).
fn rest(e: &mut Engine, mut now: i64) -> i64 {
    for _ in 0..2 {
        now += 1000;
        market(e, quote(now, 1.000, 1.020), now);
        time(e, now + 20);
    }
    now
}

#[test]
fn warms_up_activates_and_captures_spread() {
    let mut e = engine();
    let now = warm_up(&mut e);
    assert!(e.symbols[0].verdict.eligible, "reason={}", e.symbols[0].verdict.reason);
    assert!(e.symbols[0].active);
    let now = rest(&mut e, now);
    assert!(e.symbols[0].bid_order.is_some() && e.symbols[0].ask_order.is_some(), "{}", e.symbols[0].quote_reason);
    // a seller sweeps through our bid, then a buyer lifts through our ask: one round trip
    market(&mut e, trade(now + 30, 0.999, 500.0, Side::Sell), now + 30);
    assert!(e.portfolio.qty(0) > 0, "no long after sweep");
    market(&mut e, trade(now + 40, 1.021, 500.0, Side::Buy), now + 40);
    assert_eq!(e.portfolio.qty(0), 0);
    let s = e.summary();
    assert_eq!(s.n_roundtrips, 1);
    assert!(s.gross_pnl > 0, "gross={}", s.gross_pnl);
    assert!(s.net_pnl > 0, "net={}", s.net_pnl);
    assert_eq!(s.win_rate, d(1.0));
}

#[test]
fn kill_switch_stops_entries() {
    let mut e = engine();
    e.cfg.risk.max_daily_loss_usd = d(1.0);
    let now = warm_up(&mut e);
    let now = rest(&mut e, now);
    assert!(e.symbols[0].bid_order.is_some(), "{}", e.symbols[0].quote_reason);
    // fill our bid then crash the market: the loss trips the daily limit
    market(&mut e, trade(now + 30, 0.999, 500.0, Side::Sell), now + 30);
    market(&mut e, quote(now + 2000, 0.900, 0.920), now + 2000);
    time(&mut e, now + 3000);
    assert!(e.halted);
    assert!(!e.risk.allow_entries);
    assert!(e.outbox.iter().any(|m| matches!(m, StoreMsg::Event { note: Note::KillSwitch { .. }, .. })));
    // only the exit side may rest
    time(&mut e, now + 4000);
    assert!(
        e.symbols[0].bid_order.is_none() || e.paper.order(e.symbols[0].bid_order.unwrap()).map_or(true, |o| o.is_cancel_pending())
    );
    // nothing lifts the switch: not a recovery of the market, not a new configuration
    market(&mut e, quote(now + 5000, 2.000, 2.020), now + 5000);
    e.apply_config(config(), Overrides::default(), SymbolLists::default(), now + 5500);
    time(&mut e, now + 6000);
    assert!(e.halted);
    assert!(e.symbols[0].bid_order.is_none() || e.paper.order(e.symbols[0].bid_order.unwrap()).map_or(true, |o| o.is_cancel_pending()));
}

#[test]
fn a_run_starts_and_ends_with_its_marks() {
    let mut e = engine();
    assert!(matches!(&e.outbox[0], StoreMsg::RunStart { started_ts: 1_700_000_000_000, mode } if mode == "test"));
    assert!(matches!(e.outbox[1], StoreMsg::ParamVersion { version: 1, .. }));
    let now = warm_up(&mut e);
    let now = rest(&mut e, now);
    let before = e.outbox.len();
    e.finish(now + 100);
    assert!(e.outbox.len() > before);
    assert!(matches!(e.outbox.last(), Some(StoreMsg::RunEnd { .. })));
    // the orders were called back
    assert_eq!(e.paper.n_live(), 0);
    assert!(e.symbols[0].bid_order.is_none() && e.symbols[0].ask_order.is_none());
}

#[test]
fn the_active_set_is_the_best_of_the_eligible() {
    let mut cfg = config();
    cfg.eligibility.max_active_symbols = 1;
    let metas = vec![meta("AUSDT"), meta("BUSDT"), meta("CUSDT")];
    let mut e = Engine::new(cfg, Overrides::default(), SymbolLists::default(), metas, true, 1, "test", 1_700_000_000_000);
    assert_eq!(e.symbol_id("CUSDT"), Some(2));
    assert_eq!(e.symbol_id("ZUSDT"), None);
    let t0 = 1_700_000_000_000i64;
    for i in 0..30 {
        let now = t0 + i * 1000;
        for (sym, ask) in [(0u32, 1.02), (1, 1.05), (2, 1.0001)] {
            let bbo = Bbo { ts: now, bid: d(1.0), ask: d(ask), bid_qty: d(50.0), ask_qty: d(50.0) };
            market(&mut e, MarketEvent::Bbo { sym, bbo }, now);
            market(&mut e, MarketEvent::Trades { sym, trades: vec![Trade { ts: now, price: d(1.0), qty: d(1.0), taker_side: Side::Buy }] }, now);
        }
    }
    assert_eq!(e.n_active, 1);
    assert!(e.symbols[1].active && !e.symbols[0].active && !e.symbols[2].active);
    assert!(e.symbols[0].verdict.eligible && e.symbols[0].verdict.score < e.symbols[1].verdict.score);
    assert_eq!(e.symbols[2].verdict.reason, "spread_low");
    assert!(e.outbox.iter().any(|m| matches!(m, StoreMsg::Event { note: Note::ActiveSet { n_active: 1, .. }, .. })));
}

#[test]
fn events_of_unknown_symbols_change_nothing_but_the_count() {
    let mut e = engine();
    let t0 = 1_700_000_000_000i64;
    assert!(!e.on_market(MarketEvent::Bbo { sym: 9, bbo: Bbo { ts: t0, bid: 1, ask: 2, bid_qty: 1, ask_qty: 1 } }, t0));
    assert_eq!(e.counters.events, 1);
    assert_eq!(e.counters.books, 0);
    e.on_market(MarketEvent::Turnover(vec![(0, d(7.0)), (5, d(8.0))]), t0);
    assert_eq!(e.symbols[0].meta.turnover_24h, d(7.0));
    e.on_market(MarketEvent::Status { conn: 3, msg: "connected".to_string() }, t0);
    assert!(matches!(e.outbox.last(), Some(StoreMsg::Event { note: Note::Feed { conn: 3, .. }, .. })));
}

#[test]
fn a_refused_override_keeps_the_old_parameters() {
    let mut e = engine();
    let mut ov = Overrides::default();
    ov.per_symbol.push(("AUSDT".to_string(), vec![("quote_mode".to_string(), OverrideValue::Text("weird".to_string()))]));
    let mut cfg = config();
    cfg.strategy.min_spread_bps = d(44.0);
    let old = e.symbols[0].params.min_spread_bps;
    e.apply_config(cfg, ov, SymbolLists::default(), 1_700_000_000_500);
    assert_eq!(e.symbols[0].params.min_spread_bps, old);
    assert_eq!(e.param_version, 2);
    assert!(matches!(e.outbox.last(), Some(StoreMsg::Event { note: Note::ConfigReloaded { version: 2, rejected: 1 }, .. })));
    let mut cfg = config();
    cfg.strategy.min_spread_bps = d(44.0);
    e.apply_config(cfg, Overrides::default(), SymbolLists::default(), 1_700_000_000_600);
    assert_eq!(e.symbols[0].params.min_spread_bps, d(44.0));
    assert_eq!(e.param_version, 3);
}

#[test]
fn a_leading_reference_is_measured_against_the_basis() {
    let mut e = engine();
    let now = warm_up(&mut e);
    for i in 0..10 {
        let t = now + 100 + i;
        market(&mut e, MarketEvent::Reference { sym: 0, ts: t, bid: d(1.009), ask: d(1.011), rank: 0 }, t);
    }
    // the reference sits on our mid
    assert_eq!(e.symbols[0].basis_n, 10);
    assert_eq!(e.symbols[0].basis, 0);
    // a venue of lower rank does not replace it while it is fresh
    market(&mut e, MarketEvent::Reference { sym: 0, ts: now + 120, bid: d(2.0), ask: d(2.1), rank: 1 }, now + 120);
    assert_eq!(e.symbols[0].ref_bbo.unwrap().bid, d(1.009));
}

#[test]
fn market_data_is_recorded_when_asked() {
    let mut cfg = config();
    cfg.recording.enabled = true;
    cfg.recording.symbols = "all".to_string();
    let mut e = Engine::new(cfg, Overrides::default(), SymbolLists::default(), vec![meta("AUSDT")], false, 1, "test", 1_700_000_000_000);
    assert!(e.record_md);
    let t = 1_700_000_000_000i64;
    e.on_market(quote(t, 1.0, 1.02), t);
    e.on_market(trade(t, 1.01, 2.0, Side::Sell), t + 1);
    assert!(e.outbox.iter().any(|m| matches!(m, StoreMsg::MdBbo(q) if q.bid == d(1.0))));
    assert!(e.outbox.iter().any(|m| matches!(m, StoreMsg::MdTrade(p) if p.side == 1 && p.qty == d(2.0))));
}

#[test]
fn an_order_of_another_size_is_replaced() {
    let mut e = engine();
    let now = warm_up(&mut e);
    let now = rest(&mut e, now);
    let id = e.symbols[0].bid_order.unwrap();
    let old = *e.paper.order(id).unwrap();
    assert!(!old.is_cancel_pending());
    // the same price, but twice the size is wanted now
    let mut cfg = config();
    cfg.strategy.order_notional_usd = 2 * cfg.strategy.order_notional_usd;
    cfg.strategy.max_position_notional_usd = 4 * cfg.strategy.max_position_notional_usd;
    e.apply_config(cfg, Overrides::default(), SymbolLists::default(), now + 100);
    let cancelled = e.counters.cancelled;
    let placed = e.counters.placed;
    let t = now + 1000;
    e.on_market(quote(t, 1.000, 1.020), t);
    let o = *e.paper.order(id).unwrap();
    assert_eq!((o.cancel_at, o.price), (Some(t + 10), old.price));
    // both sides go, nothing takes their place yet
    assert_eq!((e.counters.cancelled, e.counters.placed), (cancelled + 2, placed));
    assert_eq!(e.paper.live_orders(0).len(), 2);
    // once the cancels have gone through the new size is placed
    time(&mut e, t + 20);
    assert!(e.paper.order(id).is_none());
    let t = t + 2000;
    e.on_market(quote(t, 1.000, 1.020), t);
    let next = *e.paper.order(e.symbols[0].bid_order.unwrap()).unwrap();
    assert!(next.id != id && next.price == old.price && next.qty > old.qty, "{} {}", next.qty, old.qty);
    assert_eq!(e.paper.live_orders(0).len(), 2);
}

#[test]
fn at_most_one_order_rests_on_each_side() {
    let mut e = engine();
    let mut now = warm_up(&mut e);
    for i in 0..200i64 {
        now += 300;
        let bid = 1.0 + 0.001 * ((i * 7) % 5) as f64;
        market(&mut e, quote(now, bid, bid + 0.02), now);
        if i % 3 == 0 {
            market(&mut e, trade(now + 5, bid, 40.0, Side::Sell), now + 5);
        }
        if i % 4 == 0 {
            market(&mut e, trade(now + 6, bid + 0.02, 40.0, Side::Buy), now + 6);
        }
        time(&mut e, now + 20);
        for side in [Side::Buy, Side::Sell] {
            let ids: Vec<u64> = e.paper.live_orders(0).iter().filter(|o| o.side == side).map(|o| o.id).collect();
            let known = if side == Side::Buy { e.symbols[0].bid_order } else { e.symbols[0].ask_order };
            assert!(ids.is_empty() || ids == vec![known.unwrap()], "{ids:?} {known:?}");
        }
    }
    assert!(e.counters.placed > 10);
}

#[test]
fn the_first_markouts_are_an_even_mean() {
    let mut cfg = config();
    cfg.eligibility.markout_horizon_secs = 5;
    let mut e = Engine::new(cfg, Overrides::default(), SymbolLists::default(), vec![meta("AUSDT")], true, 1, "test", 1_700_000_000_000);
    let t = 1_700_000_000_000i64;
    let bbo = |now: i64, bid: f64, ask: f64| MarketEvent::Bbo { sym: 0, bbo: Bbo { ts: now, bid: d(bid), ask: d(ask), bid_qty: 1, ask_qty: 1 } };
    e.on_market(bbo(t, 101.0, 103.0), t);
    for (due, side, mid0) in [(t, Side::Buy, 100.0), (t + 5_000, Side::Buy, 100.0), (t, Side::Sell, 100.0), (t - 1, Side::Buy, 80.0)] {
        e.symbols[0].pending_markouts.push(Markout { due, side, mid0: d(mid0) });
    }
    e.tick(t, &vec![0]);
    // +200, -200 and +2750 bps; the fourth is not due
    assert_eq!(e.symbols[0].experience.markout_n, 3);
    // 916.666... bps; what is left of the sum is kept
    assert_eq!(e.symbols[0].experience.markout_bps, 91_666_666_667);
    assert_eq!(e.symbols[0].experience.markout_rest, -1);
    assert_eq!(e.symbols[0].pending_markouts.len(), 1);
    assert_eq!(e.symbols[0].pending_markouts[0].due, t + 5_000);
    // nothing is resolved twice
    e.tick(t + 1_000, &vec![0]);
    assert_eq!(e.symbols[0].experience.markout_n, 3);
}

#[test]
fn markouts_are_resolved_once_and_average_exactly() {
    let t = 1_700_000_000_000i64;
    let mut e = engine();
    e.symbols[0].pending_markouts.push(Markout { due: t, side: Side::Buy, mid0: d(1.0) });
    // without a market nothing is measured
    e.resolve_markouts(t);
    assert_eq!((e.symbols[0].experience.markout_n, e.symbols[0].pending_markouts.len()), (0, 1));
    e.on_market(quote(t, 1.01, 1.03), t);
    e.symbols[0].pending_markouts.clear();
    // 200 bps and, thirty times over, 0: the mean of the first thirty is 200 / 30
    for i in 0..31 {
        e.symbols[0].pending_markouts.push(Markout { due: t, side: Side::Buy, mid0: if i == 0 { d(1.0) } else { d(1.02) } });
        e.resolve_markouts(t);
        assert!(e.symbols[0].pending_markouts.is_empty());
        if i == 29 {
            assert_eq!((e.symbols[0].experience.markout_bps, e.symbols[0].experience.markout_n), (666_666_667, 30));
        }
    }
    // from there on each counts for a thirtieth
    assert_eq!((e.symbols[0].experience.markout_bps, e.symbols[0].experience.markout_n), (644_444_445, 31));
    assert_eq!(e.counters.ticks, 0);
}

#[test]
fn a_side_is_brought_in_line() {
    let t = 1_700_000_000_000i64;
    let mut e = engine();
    e.on_market(quote(t, 1.0, 1.02), t);
    let want = |price: f64| Some(Quote { side: Side::Buy, price: d(price), qty: d(10.0), taker: false, purpose: Purpose::Entry });
    e.sync_side(0, Side::Buy, want(1.0), t);
    let id = e.symbols[0].bid_order.unwrap();
    assert_eq!(e.paper.order(id).unwrap().qty, d(10.0));
    assert_eq!(e.paper.order(id).unwrap().price_digits, 8);
    // the same again changes nothing
    e.sync_side(0, Side::Buy, want(1.0), t);
    assert_eq!((e.paper.n_live(), e.symbols[0].bid_order), (1, Some(id)));
    e.on_time(t + 20);
    // another price: the order is asked to go first, and nothing takes its place yet
    e.sync_side(0, Side::Buy, want(0.99), t + 20);
    assert!(e.paper.order(id).unwrap().is_cancel_pending());
    e.sync_side(0, Side::Buy, want(0.99), t + 20);
    assert_eq!(e.paper.n_live(), 1);
    e.on_time(t + 100);
    assert_eq!((e.paper.n_live(), e.symbols[0].bid_order), (0, None));
    e.sync_side(0, Side::Buy, want(0.99), t + 100);
    let next = e.symbols[0].bid_order.unwrap();
    assert!(next > id);
    assert_eq!(e.paper.order(next).unwrap().price, d(0.99));
    assert!(e.symbols[0].ask_order.is_none());
}

#[test]
fn every_close_is_a_round_trip() {
    let mut e = engine();
    let mut now = warm_up(&mut e);
    let mut open = false;
    let mut closed = 0;
    for i in 0..12 {
        now = rest(&mut e, now);
        let (price, side) = if i % 2 == 0 { (0.999, Side::Sell) } else { (1.021, Side::Buy) };
        market(&mut e, trade(now + 30, price, 500.0, side), now + 30);
        let held = e.portfolio.position(0).map_or(false, |p| !p.is_flat());
        // an open position has its marks, and only a close is counted
        assert!(!held || e.symbols[0].rt_open_marks.is_some());
        if open && !held {
            closed += 1;
        }
        open = held;
        assert_eq!(e.counters.roundtrips, closed);
    }
    assert!(closed > 0);
}
