use spr_core::config::StrategyParams;
use spr_core::stats::SymbolStats;
use spr_core::strategy::{compute_quotes, QuoteInput};
use spr_core::types::{Bbo, Purpose, SymbolMeta};

fn d(x: f64) -> i64 {
    (x * 1e8).round() as i64
}

fn meta() -> SymbolMeta {
    SymbolMeta {
        id: 0,
        name: "TESTUSDT".to_string(),
        base_coin: "TEST".to_string(),
        quote_coin: "USDT".to_string(),
        tick_size: d(0.001),
        qty_step: d(1.0),
        min_qty: d(1.0),
        max_qty: d(1e9),
        min_notional: d(5.0),
        price_scale: 3,
        price_digits: 8,
        turnover_24h: d(1e7),
    }
}

fn book(bid: f64, ask: f64, bid_qty: f64, ask_qty: f64) -> Bbo {
    Bbo { ts: 0, bid: d(bid), ask: d(ask), bid_qty: d(bid_qty), ask_qty: d(ask_qty) }
}

/// Parameters with the fair-value model switched off, to test the classic behaviour.
fn plain() -> StrategyParams {
    StrategyParams {
        quote_mode: "join".to_string(),
        min_spread_bps: d(10.0),
        imbalance_weight: 0,
        flow_weight: 0,
        ref_weight: 0,
        ref_block_bps: 0,
        stop_loss_bps: 0,
        ..StrategyParams::default()
    }
}

/// Default model (fair value on) but the classic join mode.
fn joined() -> StrategyParams {
    StrategyParams { quote_mode: "join".to_string(), min_spread_bps: d(10.0), ..StrategyParams::default() }
}

fn input<'a>(meta: &'a SymbolMeta, bbo: &'a Bbo, stats: &'a SymbolStats, params: &'a StrategyParams) -> QuoteInput<'a> {
    QuoteInput {
        meta,
        bbo,
        stats,
        params,
        maker_fee: d(0.0002),
        position_qty: 0,
        position_avg: 0,
        position_age_secs: 0,
        now_ms: 1_700_000_000_000,
        allow_new_exposure: true,
        reduce_only: false,
        ref_dev_bps: 0,
    }
}

#[test]
fn joins_both_sides_when_spread_is_wide() {
    let m = meta();
    // spread 0.02 on ~1.0 => 200 bps
    let bbo = book(1.000, 1.020, 100.0, 100.0);
    let st = SymbolStats::new(60);
    let p = plain();
    let q = compute_quotes(&input(&m, &bbo, &st, &p));
    assert_eq!(q.reason, "ok");
    let b = q.bid.unwrap();
    let a = q.ask.unwrap();
    assert_eq!(b.price, d(1.000));
    assert_eq!(a.price, d(1.020));
    assert_eq!(b.qty, d(99.0)); // 100 usd / 1.01 mid = 99.0 rounded down to lot 1
    assert_eq!(b.purpose, Purpose::Entry);
}

#[test]
fn balanced_book_with_default_model_still_joins() {
    let m = meta();
    let bbo = book(1.000, 1.020, 100.0, 100.0);
    let st = SymbolStats::new(60);
    let p = joined();
    let q = compute_quotes(&input(&m, &bbo, &st, &p));
    assert_eq!(q.reason, "ok");
    assert_eq!(q.bid.unwrap().price, d(1.000));
    assert_eq!(q.ask.unwrap().price, d(1.020));
    assert_eq!(q.fair_shift_bps, 0);
}

#[test]
fn withholds_when_spread_narrow() {
    let m = meta();
    let bbo = book(1.000, 1.0005, 100.0, 100.0);
    let st = SymbolStats::new(60);
    let p = plain();
    let q = compute_quotes(&input(&m, &bbo, &st, &p));
    assert_eq!(q.reason, "spread_too_narrow");
    assert!(q.bid.is_none() && q.ask.is_none());
}

#[test]
fn improve_mode_steps_inside() {
    let m = meta();
    let bbo = book(1.000, 1.020, 100.0, 100.0);
    let st = SymbolStats::new(60);
    let mut p = plain();
    p.quote_mode = "improve".to_string();
    let q = compute_quotes(&input(&m, &bbo, &st, &p));
    assert_eq!(q.bid.unwrap().price, d(1.001));
    assert_eq!(q.ask.unwrap().price, d(1.019));
}

#[test]
fn long_at_cap_only_sells_and_skews_down() {
    let m = meta();
    let bbo = book(1.000, 1.020, 100.0, 100.0);
    let st = SymbolStats::new(60);
    let p = plain();
    let mut i = input(&m, &bbo, &st, &p);
    i.position_qty = d(300.0); // ~303 usd, at the cap
    i.position_avg = d(1.0);
    let q = compute_quotes(&i);
    assert!(q.bid.is_none());
    let a = q.ask.unwrap();
    assert_eq!(a.purpose, Purpose::Exit);
    assert!(a.price < d(1.020) && a.price > d(1.000), "ask {}", a.price);
    assert_eq!(a.qty, d(99.0));
}

#[test]
fn stale_position_exits_aggressively() {
    let m = meta();
    let bbo = book(1.000, 1.020, 100.0, 100.0);
    let st = SymbolStats::new(60);
    let mut p = plain();
    p.stale_exit_mode = "taker".to_string();
    let mut i = input(&m, &bbo, &st, &p);
    i.position_qty = d(-50.0);
    i.position_avg = d(1.01);
    i.position_age_secs = 1000;
    let q = compute_quotes(&i);
    assert_eq!(q.reason, "stale_exit");
    let b = q.bid.unwrap();
    assert!(b.taker);
    assert_eq!(b.price, d(1.020));
    assert_eq!(b.qty, d(50.0));
    assert!(q.ask.is_none());
}

#[test]
fn reduce_only_blocks_entries_but_not_exits() {
    let m = meta();
    let bbo = book(1.000, 1.020, 100.0, 100.0);
    let st = SymbolStats::new(60);
    let p = plain();
    let mut i = input(&m, &bbo, &st, &p);
    i.reduce_only = true;
    i.position_qty = d(40.0);
    i.position_avg = d(1.0);
    let q = compute_quotes(&i);
    assert!(q.bid.is_none());
    assert_eq!(q.ask.unwrap().qty, d(40.0));
}

#[test]
fn stop_loss_exits_at_market_when_price_runs_away() {
    let m = meta();
    // long from 1.010, market now 0.990/0.992: ~-20 bps against us
    let bbo = book(0.990, 0.992, 100.0, 100.0);
    let st = SymbolStats::new(60);
    let mut p = joined();
    p.stop_loss_bps = d(12.0);
    let mut i = input(&m, &bbo, &st, &p);
    i.position_qty = d(90.0);
    i.position_avg = d(1.010);
    let q = compute_quotes(&i);
    assert_eq!(q.reason, "stop_loss");
    let a = q.ask.unwrap();
    assert!(a.taker);
    assert_eq!(a.purpose, Purpose::StopLoss);
    assert_eq!(a.price, d(0.990));
    assert!(q.bid.is_none());
    // a small move is tolerated
    let bbo2 = book(1.005, 1.025, 100.0, 100.0);
    let mut i2 = input(&m, &bbo2, &st, &p);
    i2.position_qty = d(90.0);
    i2.position_avg = d(1.010);
    assert_ne!(compute_quotes(&i2).reason, "stop_loss");
}

#[test]
fn book_imbalance_leans_the_dangerous_side() {
    let m = meta();
    // heavy asks, thin bids: price likely to fall -> fair below mid -> bid leans down
    let bbo = book(1.000, 1.020, 5.0, 200.0);
    let st = SymbolStats::new(60);
    let mut p = joined();
    p.imbalance_weight = d(1.0);
    p.max_lean_ticks = 100;
    let q = compute_quotes(&input(&m, &bbo, &st, &p));
    assert!(q.fair_shift_bps < 0);
    let b = q.bid.unwrap();
    assert!(b.price < d(1.000), "bid should lean down, got {}", b.price);
    assert_eq!(q.ask.unwrap().price, d(1.020), "ask stays at the touch");
    // when no leaning is allowed the leaned bid is dropped instead
    p.max_lean_ticks = 0;
    let q = compute_quotes(&input(&m, &bbo, &st, &p));
    assert!(q.bid.is_none());
    assert_eq!(q.reason, "lean_one_side");
}

#[test]
fn inside_mode_quotes_inside_the_spread_and_never_queues() {
    let m = meta();
    // 200 bps spread: with inside_spread_frac 0.8 we quote 160 bps wide, strictly inside
    let bbo = book(1.000, 1.020, 100.0, 100.0);
    let st = SymbolStats::new(60);
    let mut p = StrategyParams::default();
    p.quote_mode = "inside".to_string();
    let q = compute_quotes(&input(&m, &bbo, &st, &p));
    assert_eq!(q.reason, "ok");
    let b = q.bid.unwrap().price;
    let a = q.ask.unwrap().price;
    assert!(b > d(1.000) && a < d(1.020), "bid {b} ask {a}");
    assert!(b == d(1.002) && a == d(1.018), "bid {b} ask {a}");
    // a narrow spread of 2 ticks leaves no room inside: nothing is quoted, nothing queues
    let narrow = book(1.000, 1.002, 100.0, 100.0);
    let q = compute_quotes(&input(&m, &narrow, &st, &p));
    assert!(q.bid.is_none() && q.ask.is_none(), "{}", q.reason);
    // spread of 12 bps (12 ticks): 80% of the half spread -> quotes ~5 bps around mid, inside
    let mid_spread = book(1.000, 1.012, 100.0, 100.0);
    let q = compute_quotes(&input(&m, &mid_spread, &st, &p));
    assert_eq!(q.reason, "ok");
    assert!(q.bid.unwrap().price > d(1.000) && q.ask.unwrap().price < d(1.012));
    // a long position: the ask side is an exit and stays inside, the bid leans down
    let mut i = input(&m, &bbo, &st, &p);
    i.position_qty = d(150.0);
    i.position_avg = d(1.010);
    let q = compute_quotes(&i);
    assert_eq!(q.ask.unwrap().purpose, Purpose::Exit);
    assert!(q.ask.unwrap().price < d(1.020));
}

#[test]
fn reference_deviation_blocks_and_shifts() {
    let m = meta();
    let bbo = book(1.000, 1.020, 100.0, 100.0);
    let st = SymbolStats::new(60);
    let p = joined(); // ref_weight 1, ref_block_bps 4
    // the leading venue is already 10 bps higher: do not sell, bid may stay
    let mut i = input(&m, &bbo, &st, &p);
    i.ref_dev_bps = d(10.0);
    let q = compute_quotes(&i);
    assert!(q.ask.is_none());
    assert!(q.bid.is_some());
    assert_eq!(q.reason, "ref_one_side");
    // a small positive deviation just shifts fair value: ask leans up by a tick or two
    let mut i = input(&m, &bbo, &st, &p);
    i.ref_dev_bps = d(3.0);
    let q = compute_quotes(&i);
    assert!(q.ask.is_some() && q.bid.is_some(), "{}", q.reason);
    assert!(q.fair_shift_bps > d(2.9) && q.fair_shift_bps < d(3.1));
}

#[test]
fn blocked_entries_leave_nothing_without_a_position() {
    let m = meta();
    let bbo = book(1.000, 1.020, 100.0, 100.0);
    let st = SymbolStats::new(60);
    let p = plain();
    let mut i = input(&m, &bbo, &st, &p);
    i.allow_new_exposure = false;
    let q = compute_quotes(&i);
    assert!(q.bid.is_none() && q.ask.is_none(), "{}", q.reason);
    // with a short position the bid is an exit no larger than the position
    i.position_qty = d(-7.0);
    i.position_avg = d(1.01);
    let q = compute_quotes(&i);
    assert!(q.ask.is_none());
    let b = q.bid.unwrap();
    assert_eq!(b.purpose, Purpose::Exit);
    assert_eq!(b.qty, d(7.0));
}

#[test]
fn quotes_never_cross_the_book() {
    let m = meta();
    let st = SymbolStats::new(60);
    let mut p = joined();
    for mode in ["join", "improve", "inside"] {
        p.quote_mode = mode.to_string();
        for k in 0..40i64 {
            let bbo = Bbo { ts: 0, bid: d(1.0), ask: d(1.0) + 100_000 * (k + 1), bid_qty: d(1.0 + k as f64), ask_qty: d(40.0) };
            for pos in [-200.0, -20.0, 0.0, 20.0, 200.0] {
                let mut i = input(&m, &bbo, &st, &p);
                i.position_qty = d(pos);
                i.position_avg = d(1.0);
                let q = compute_quotes(&i);
                if let Some(b) = q.bid {
                    assert!(b.taker || b.price < bbo.ask);
                }
                if let Some(a) = q.ask {
                    assert!(a.taker || a.price > bbo.bid);
                }
            }
        }
    }
}

#[test]
fn invalid_book_is_not_quoted() {
    let m = meta();
    let bbo = book(1.020, 1.000, 100.0, 100.0);
    let st = SymbolStats::new(60);
    let p = joined();
    let q = compute_quotes(&input(&m, &bbo, &st, &p));
    assert!(q.bid.is_none() && q.ask.is_none());
    assert_eq!(q.reason, "invalid_bbo");
}
