use spr_core::stats::{MidPair, SymbolStats};
use spr_core::types::{Bbo, Side, Trade};

fn d(x: f64) -> i64 {
    (x * 1e8).round() as i64
}

/// Standard deviation of one-second log returns, scaled to a minute, in bps.
fn volatility(pairs: &[MidPair]) -> i64 {
    if pairs.len() < 5 {
        return 0;
    }
    let rets: Vec<f64> = pairs.iter().map(|p| (p.to as f64 / p.from as f64).ln() / (p.dt as f64).sqrt()).collect();
    let mean = rets.iter().sum::<f64>() / rets.len() as f64;
    let var = rets.iter().map(|r| (r - mean) * (r - mean)).sum::<f64>() / (rets.len() - 1) as f64;
    d(var.sqrt() * 60f64.sqrt() * 1e4)
}

#[test]
fn spread_median_and_trade_rate() {
    let mut s = SymbolStats::new(60);
    let t0 = 1_700_000_000_000i64;
    for i in 0..60 {
        let bbo = Bbo { ts: t0 + i * 1000, bid: d(100.0), ask: d(100.0 + 0.01 * (1 + (i % 3)) as f64), bid_qty: d(1.0), ask_qty: d(1.0) };
        s.on_bbo(&bbo, t0 + i * 1000);
        if i % 2 == 0 {
            s.on_trade(&Trade { ts: t0 + i * 1000, price: d(100.0), qty: d(1.0), taker_side: Side::Buy }, t0 + i * 1000);
        }
    }
    let now = t0 + 59 * 1000;
    let vol = volatility(&s.vol_pairs(now));
    s.refresh(now, vol);
    // spreads cycle 1,2,3 ticks of 0.01 on ~100 => 1,2,3 bps; median = 2 bps
    assert!((s.spread_med_bps - d(2.0)).abs() < d(0.05), "med={}", s.spread_med_bps);
    assert!((s.trades_per_min - d(30.0)).abs() < d(1.0), "tpm={}", s.trades_per_min);
    assert_eq!(s.vol_bps, vol);
    assert_eq!(s.flow_imbalance(now, 10), d(1.0));
    assert_eq!(s.samples_in_window(), 60);
    assert_eq!(s.trades_in_last(now, 10), 5);
}

#[test]
fn volatility_is_positive_for_moving_mid() {
    let mut s = SymbolStats::new(120);
    let t0 = 1_700_000_000_000i64;
    let mut px = 100.0;
    for i in 0..120 {
        px *= if i % 2 == 0 { 1.001 } else { 0.999 };
        let bbo = Bbo { ts: t0 + i * 1000, bid: d(px), ask: d(px + 0.01), bid_qty: d(1.0), ask_qty: d(1.0) };
        s.on_bbo(&bbo, t0 + i * 1000);
    }
    let now = t0 + 119 * 1000;
    let vol = volatility(&s.vol_pairs(now));
    s.refresh(now, vol);
    assert!(s.vol_bps > d(50.0), "vol={}", s.vol_bps);
}

#[test]
fn mid_pairs_are_consecutive_seconds() {
    let mut s = SymbolStats::new(60);
    let t0 = 1_700_000_000_000i64;
    for (i, ask) in [(0i64, 100.01), (1, 100.02), (3, 100.03), (4, 100.01), (5, 100.02), (6, 100.03)] {
        let bbo = Bbo { ts: t0 + i * 1000, bid: d(100.0), ask: d(ask), bid_qty: d(1.0), ask_qty: d(1.0) };
        s.on_bbo(&bbo, t0 + i * 1000);
        // a second quote in the same second is no sample
        s.on_bbo(&Bbo { ask: d(200.0), ..bbo }, t0 + i * 1000 + 500);
    }
    let p = s.vol_pairs(t0 + 6000);
    assert_eq!(p.len(), 5);
    assert_eq!((p[0].dt, p[0].from, p[0].to), (1, d(100.005), d(100.010)));
    assert_eq!((p[1].dt, p[1].from, p[1].to), (2, d(100.010), d(100.015)));
    let v = volatility(&p);
    s.refresh(t0 + 6000, v);
    assert_eq!(s.vol_bps, v);
    assert!(v > d(4.0) && v < d(7.0), "vol={v}");
    // four pairs are too few
    let mut few = SymbolStats::new(60);
    for i in 0..5i64 {
        few.on_bbo(&Bbo { ts: t0, bid: d(100.0 + i as f64), ask: d(101.0 + i as f64), bid_qty: d(1.0), ask_qty: d(1.0) }, t0 + i * 1000);
    }
    few.refresh(t0 + 4000, d(77.0));
    assert_eq!(few.vol_bps, 0);
}

#[test]
fn sells_pull_the_flow_down_and_old_trades_do_not_count() {
    let mut s = SymbolStats::new(60);
    let t0 = 1_700_000_000_000i64;
    s.on_trade(&Trade { ts: t0, price: d(2.0), qty: d(3.0), taker_side: Side::Buy }, t0);
    s.on_trade(&Trade { ts: t0 + 1000, price: d(2.0), qty: d(1.0), taker_side: Side::Sell }, t0 + 1000);
    // (6 - 2) / (6 + 2)
    assert_eq!(s.flow_imbalance(t0 + 1000, 5), d(0.5));
    assert_eq!(s.flow_imbalance(t0 + 1000, 1), d(-1.0));
    assert_eq!(s.flow_imbalance(t0 + 100_000, 5), 0);
}

#[test]
fn without_samples_every_figure_is_zero() {
    let mut s = SymbolStats::new(60);
    s.refresh(1_700_000_000_000, d(99.0));
    assert_eq!((s.spread_med_bps, s.spread_mean_bps, s.vol_bps, s.trades_per_min), (0, 0, 0, 0));
}
