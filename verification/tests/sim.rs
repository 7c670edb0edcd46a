use rand::rngs::StdRng;
use rand::{Rng, SeedableRng};
use rand_distr::{Distribution, LogNormal, Normal, Poisson};
use spr_core::instruments::{price_digits, read_step};
use spr_core::sim::{lag_steps, net_buys, Draw, SimSymbol};
use spr_core::types::{MarketEvent, Side, SymbolMeta};
use spr_core::units::{places_of_price, places_of_qty};

fn d(x: f64) -> i64 {
    (x * 1e8).round() as i64
}

fn meta() -> SymbolMeta {
    SymbolMeta {
        id: 0,
        name: "SIM000USDT".to_string(),
        base_coin: "SIM000".to_string(),
        quote_coin: "USDT".to_string(),
        tick_size: d(0.01),
        qty_step: d(0.1),
        min_qty: d(0.1),
        max_qty: i64::MAX,
        min_notional: d(5.0),
        price_scale: 2,
        price_digits: 8,
        turnover_24h: d(1e7),
    }
}

#[test]
fn the_book_stands_around_the_price() {
    let s = SimSymbol::new(meta(), d(100.003), 3, 0);
    let q = s.quote(7);
    assert_eq!((q.bid, q.ask, q.ts), (d(99.98), d(100.01), 7));
    let s = SimSymbol::new(meta(), d(100.003), -5, 0);
    assert_eq!((s.quote(7).bid, s.quote(7).ask), (d(99.99), d(100.0)));
}

#[test]
fn the_book_lags_behind_the_price() {
    assert_eq!(lag_steps(300, 100), 3);
    assert_eq!(lag_steps(301, 100), 4);
    assert_eq!(lag_steps(1, 100), 1);
    assert_eq!(lag_steps(0, 100), 0);
    let mut s = SimSymbol::new(meta(), d(100.0), 2, 2);
    assert_eq!(s.book_mid(), d(100.0));
    s.advance(d(101.0), 2, 100);
    assert_eq!(s.book_mid(), d(101.0));
    s.advance(d(102.0), 2, 200);
    assert_eq!(s.book_mid(), d(101.0));
    s.advance(d(103.0), 2, 300);
    assert_eq!(s.book_mid(), d(102.0));
}

#[test]
fn a_book_is_sent_when_it_moves_or_grows_old() {
    let mut s = SimSymbol::new(meta(), d(100.0), 2, 0);
    assert!(s.advance(d(100.0), 2, 5000));
    match s.book_event(4, 5000, d(1.25), 0) {
        MarketEvent::Bbo { sym, bbo } => {
            assert_eq!(sym, 4);
            assert_eq!((bbo.bid, bbo.ask), (d(99.99), d(100.01)));
            assert_eq!((bbo.bid_qty, bbo.ask_qty), (d(1.2), d(0.1)));
        }
        _ => panic!("expected a book"),
    }
    assert!(!s.advance(d(100.0), 2, 7999));
    assert!(s.advance(d(100.0), 2, 8000));
    assert!(s.advance(d(101.0), 2, 5100));
}

#[test]
fn trades_print_at_the_touch() {
    let s = SimSymbol::new(meta(), d(100.0), 2, 0);
    let draws = vec![(true, d(0.34)), (false, d(0.01)), (true, d(2.0))];
    let t = s.trades(1000, 100, &draws);
    assert_eq!(t.len(), 3);
    assert_eq!((t[0].ts, t[0].price, t[0].qty, t[0].taker_side), (1000, d(100.01), d(0.3), Side::Buy));
    assert_eq!((t[1].ts, t[1].price, t[1].qty, t[1].taker_side), (1025, d(99.99), d(0.1), Side::Sell));
    assert_eq!(t[2].ts, 1050);
    assert_eq!(net_buys(&draws), 1);
    assert_eq!(net_buys(&vec![]), 0);
}

#[test]
fn the_reference_shows_the_true_price() {
    let mut s = SimSymbol::new(meta(), d(100.0), 2, 3);
    match s.reference_event(1, 10) {
        Some(MarketEvent::Reference { sym, ts, bid, ask, rank }) => assert_eq!((sym, ts, bid, ask, rank), (1, 10, d(99.99), d(100.01), 0)),
        _ => panic!("expected a reference"),
    }
    assert!(s.reference_event(1, 20).is_none());
    assert!(s.reference_event(1, 1010).is_some());
    s.advance(d(100.02), 2, 1020);
    assert!(s.reference_event(1, 1020).is_some());
    let mut none = SimSymbol::new(meta(), d(100.0), 2, 0);
    assert!(none.reference_event(1, 10).is_none());
}

/// A fixed run of numbers to draw from.
struct Numbers(u64);

impl Numbers {
    fn next(&mut self, n: i64) -> i64 {
        self.0 = self.0.wrapping_mul(6364136223846793005).wrapping_add(1442695040888963407);
        ((self.0 >> 33) as i64) % n
    }
}

#[test]
fn steps_have_consistent_books_and_trades() {
    let mut syms: Vec<SimSymbol> = (0..5).map(|i| SimSymbol::new(meta(), d(50.0 + 10.0 * i as f64), 3, lag_steps(300, 100) as usize)).collect();
    let mut rng = Numbers(1);
    let mut out: Vec<MarketEvent> = Vec::new();
    let (mut n_bbo, mut n_trd, mut n_ref) = (0, 0, 0);
    let mut t = 1_700_000_000_000i64;
    for _ in 0..600 {
        t += 100;
        for (i, s) in syms.iter_mut().enumerate() {
            let trades: Vec<(bool, i64)> = (0..rng.next(3)).map(|_| (rng.next(2) == 0, rng.next(d(2.0)))).collect();
            let mid = s.mid + rng.next(d(0.04)) - d(0.02);
            let draw = Draw { trades, mid, spread_ticks: rng.next(6), bid_size: rng.next(d(5.0)), ask_size: rng.next(d(5.0)) };
            let due = s.will_send(draw.mid, draw.spread_ticks, t);
            let before = out.len();
            s.step(i as u32, t, 100, &draw, &mut out);
            let kinds: Vec<i32> = out[before..]
                .iter()
                .map(|e| match e {
                    MarketEvent::Trades { .. } => 0,
                    MarketEvent::Bbo { .. } => 1,
                    MarketEvent::Reference { .. } => 2,
                    _ => panic!("unexpected event"),
                })
                .collect();
            assert!(kinds.windows(2).all(|w| w[0] < w[1]), "{kinds:?}");
            assert_eq!(kinds.contains(&0), !draw.trades.is_empty());
            assert_eq!(kinds.contains(&1), due);
            for e in &out[before..] {
                match e {
                    MarketEvent::Bbo { sym, bbo } => {
                        assert_eq!(*sym, i as u32);
                        assert!(bbo.is_valid());
                        assert!(bbo.bid_qty > 0 && bbo.ask_qty > 0);
                        n_bbo += 1;
                    }
                    MarketEvent::Trades { sym, trades } => {
                        assert_eq!(*sym, i as u32);
                        for x in trades {
                            assert!(x.qty > 0 && x.price > 0);
                            n_trd += 1;
                        }
                    }
                    MarketEvent::Reference { bid, ask, .. } => {
                        assert!(ask > bid && *bid > 0);
                        n_ref += 1;
                    }
                    _ => panic!("unexpected event"),
                }
            }
        }
    }
    assert!(n_bbo > 100 && n_trd > 10 && n_ref > 10, "bbo={n_bbo} trd={n_trd} ref={n_ref}");
}

/// The random walk behind a symbol.
struct Walk {
    mid: f64,
    spread_mean_ticks: f64,
    spread_ticks: f64,
    sigma_step: f64,
    lambda_step: f64,
    impact: f64,
    drift: f64,
    drift_left: i64,
    size_scale: f64,
}

struct Feed {
    rng: StdRng,
    walks: Vec<Walk>,
    syms: Vec<SimSymbol>,
    t: i64,
    step_ms: i64,
    toxicity: f64,
}

fn fixed(x: f64, places: u32) -> i64 {
    (x * 10f64.powi(places as i32)).round() as i64
}

fn feed(n_symbols: usize, seed: u64, step_ms: i64, toxicity: f64, ref_lag_ms: i64, start_ts: i64) -> Feed {
    let mut rng = StdRng::seed_from_u64(seed);
    let lag = lag_steps(ref_lag_ms, step_ms) as usize;
    let (mut walks, mut syms) = (Vec::new(), Vec::new());
    for i in 0..n_symbols {
        let price = 10f64.powf(rng.gen_range(-2.0..4.7));
        let tick_bps_target: f64 = rng.gen_range(0.5..8.0);
        let k = (-(price * tick_bps_target / 1e4).log10()).ceil().max(0.0) as u32;
        let tick = 10f64.powi(-(k as i32));
        let step_usd: f64 = rng.gen_range(0.5..5.0);
        let qty_step = 10f64.powi(-((-(step_usd / price).log10()).floor().max(0.0) as i32));
        let turnover = 10f64.powf(rng.gen_range(6.0..9.0));
        let (tick_text, step_text) = (tick.to_string(), qty_step.to_string());
        let price_digits = price_digits(&tick_text, &step_text).unwrap();
        let (p, q) = (places_of_price(price_digits), places_of_qty(price_digits));
        let meta = SymbolMeta {
            id: i as u32,
            name: format!("SIM{i:03}USDT"),
            base_coin: format!("SIM{i:03}"),
            quote_coin: "USDT".to_string(),
            tick_size: read_step(&tick_text, p),
            qty_step: read_step(&step_text, q),
            min_qty: read_step(&step_text, q),
            max_qty: i64::MAX,
            min_notional: d(5.0),
            price_scale: k,
            price_digits,
            turnover_24h: d(turnover),
        };
        let spread_bps = 10f64.powf(rng.gen_range(0.3..1.6));
        let spread_mean_ticks = (spread_bps / (tick / price * 1e4)).max(1.0);
        let vol_bpm = 10f64.powf(rng.gen_range(0.5..1.6));
        let steps_per_min = 60_000.0 / step_ms as f64;
        let sigma_step = vol_bpm / 1e4 / steps_per_min.sqrt();
        let tpm = 10f64.powf(rng.gen_range(0.0..2.5));
        walks.push(Walk {
            mid: price,
            spread_mean_ticks,
            spread_ticks: spread_mean_ticks,
            sigma_step,
            lambda_step: tpm / steps_per_min,
            impact: sigma_step * 0.25,
            drift: 0.0,
            drift_left: 0,
            size_scale: 40.0 / price,
        });
        syms.push(SimSymbol::new(meta, fixed(price, p), spread_mean_ticks.round() as i64, lag));
    }
    Feed { rng, walks, syms, t: start_ts, step_ms, toxicity }
}

impl Feed {
    fn step(&mut self, out: &mut Vec<MarketEvent>) {
        let normal = Normal::new(0.0, 1.0).unwrap();
        let sizes = LogNormal::new(0.0, 1.0).unwrap();
        self.t += self.step_ms;
        let t = self.t;
        for (i, (w, s)) in self.walks.iter_mut().zip(self.syms.iter_mut()).enumerate() {
            let (price, size) = (places_of_price(s.meta.price_digits), places_of_qty(s.meta.price_digits));
            if w.drift_left <= 0 {
                w.drift_left = self.rng.gen_range(50..600);
                let r: f64 = self.rng.gen();
                w.drift = if r < 0.25 { -1.0 } else if r < 0.5 { 1.0 } else { 0.0 } * w.sigma_step * 0.5;
            }
            w.drift_left -= 1;
            let n_trades = Poisson::new(w.lambda_step).map(|x| x.sample(&mut self.rng) as usize).unwrap_or(0);
            let mut trades: Vec<(bool, i64)> = Vec::new();
            if n_trades > 0 {
                let bbo = s.quote(t);
                let unit = 10f64.powi(price as i32);
                let gap = (w.mid - bbo.mid() as f64 / unit) / ((bbo.ask - bbo.bid) as f64 / unit * 0.5).max(1e-12);
                let p_buy = (0.5 + 0.5 * self.toxicity * w.drift.signum() + 0.3 * self.toxicity * gap.clamp(-1.0, 1.0)).clamp(0.05, 0.95);
                for _ in 0..n_trades {
                    let buy = self.rng.gen::<f64>() < p_buy;
                    trades.push((buy, fixed(w.size_scale * sizes.sample(&mut self.rng), size)));
                }
                w.mid *= (w.impact * net_buys(&trades) as f64).exp();
            }
            let (z, z2): (f64, f64) = (normal.sample(&mut self.rng), normal.sample(&mut self.rng));
            w.mid *= (w.drift + w.sigma_step * z).exp();
            let target = w.spread_mean_ticks * if w.drift != 0.0 { 1.3 } else { 1.0 };
            w.spread_ticks = (w.spread_ticks + 0.05 * (target - w.spread_ticks) + 0.15 * target * z2).max(1.0);
            let mut draw = Draw { trades, mid: fixed(w.mid, price), spread_ticks: w.spread_ticks.round() as i64, bid_size: 0, ask_size: 0 };
            if s.will_send(draw.mid, draw.spread_ticks, t) {
                draw.bid_size = fixed(w.size_scale * 8.0 * sizes.sample(&mut self.rng), size);
                draw.ask_size = fixed(w.size_scale * 8.0 * sizes.sample(&mut self.rng), size);
            }
            s.step(i as u32, t, self.step_ms, &draw, out);
        }
    }
}

#[test]
fn generates_consistent_books_and_trades() {
    let mut f = feed(5, 1, 100, 0.5, 300, 1_700_000_000_000);
    let mut out: Vec<MarketEvent> = Vec::new();
    let mut n_bbo = 0;
    let mut n_trd = 0;
    for _ in 0..600 {
        f.step(&mut out);
        for ev in out.drain(..) {
            match ev {
                MarketEvent::Bbo { bbo, .. } => {
                    assert!(bbo.is_valid());
                    assert!(bbo.bid_qty > 0 && bbo.ask_qty > 0);
                    n_bbo += 1;
                }
                MarketEvent::Trades { trades, .. } => {
                    for t in trades {
                        assert!(t.qty > 0 && t.price > 0);
                        n_trd += 1;
                    }
                }
                MarketEvent::Reference { bid, ask, .. } => assert!(ask > bid && bid > 0),
                _ => panic!("unexpected event"),
            }
        }
    }
    assert!(n_bbo > 100 && n_trd > 10, "bbo={n_bbo} trd={n_trd}");
    let metas: Vec<SymbolMeta> = f.syms.iter().map(|s| s.meta.clone()).collect();
    assert_eq!(metas.len(), 5);
    assert!(metas.iter().all(|m| m.tick_size > 0 && m.qty_step > 0));
}
