use spr_core::bytes::{push_le, read_le, to_signed, to_unsigned};
use spr_core::config::{default_elig, default_risk, SymbolLists};
use spr_core::eligibility::{evaluate, score, Experience};
use spr_core::order::stable_order;
use spr_core::portfolio::Portfolio;
use spr_core::stats::SymbolStats;
use spr_core::types::{epoch_ms, now_ms, Bbo, Fill, Purpose, Side, SymbolMeta, Trade};
use spr_core::units::{ceil_div, floor_div, isqrt, round_div};

fn d(x: f64) -> i64 {
    (x * 1e8).round() as i64
}

fn meta() -> SymbolMeta {
    SymbolMeta {
        id: 0,
        name: "AUSDT".to_string(),
        base_coin: "A".to_string(),
        quote_coin: "USDT".to_string(),
        tick_size: d(0.01),
        qty_step: d(0.1),
        min_qty: d(0.5),
        max_qty: d(100.0),
        min_notional: d(5.0),
        price_scale: 2,
        price_digits: 8,
        turnover_24h: d(1e7),
    }
}

/// Forty seconds of a 20 bps spread and a trade each second.
fn stats(t0: i64) -> SymbolStats {
    let mut s = SymbolStats::new(120);
    for i in 0..40 {
        let now = t0 + i * 1000;
        s.on_bbo(&Bbo { ts: now, bid: d(100.0), ask: d(100.2), bid_qty: d(1.0), ask_qty: d(1.0) }, now);
        s.on_trade(&Trade { ts: now, price: d(100.0), qty: d(1.0), taker_side: Side::Buy }, now);
    }
    s.refresh(t0 + 39_000, d(5.0));
    s
}

#[test]
fn each_refusal_has_its_reason() {
    let t0 = 1_700_000_000_000i64;
    let now = t0 + 39_000;
    let none = Experience { markout_bps: 0, markout_n: 0, markout_rest: 0 };
    let lists = SymbolLists::default();
    let cfg = default_elig();
    let v = evaluate(&cfg, &meta(), &stats(t0), &lists, d(10.0), now, none);
    assert!(v.eligible, "{}", v.reason);
    assert_eq!(v.reason, "ok");
    assert!(v.score > 0);

    let mut c = default_elig();
    c.deny.push("AUSDT".to_string());
    assert_eq!(evaluate(&c, &meta(), &stats(t0), &lists, d(10.0), now, none).reason, "denied");
    let mut c = default_elig();
    c.allow.push("BUSDT".to_string());
    assert_eq!(evaluate(&c, &meta(), &stats(t0), &lists, d(10.0), now, none).reason, "not_in_allow");
    assert_eq!(evaluate(&cfg, &meta(), &stats(t0), &lists, d(10.0), now + 5001, none).reason, "stale_book");
    let mut m = meta();
    m.turnover_24h = d(10.0);
    assert_eq!(evaluate(&cfg, &m, &stats(t0), &lists, d(10.0), now, none).reason, "low_turnover");
    let mut few = SymbolStats::new(120);
    few.on_bbo(&Bbo { ts: now, bid: d(100.0), ask: d(100.2), bid_qty: d(1.0), ask_qty: d(1.0) }, now);
    assert_eq!(evaluate(&cfg, &meta(), &few, &lists, d(10.0), now, none).reason, "warming_up");
    assert_eq!(evaluate(&cfg, &meta(), &stats(t0), &lists, d(25.0), now, none).reason, "spread_low");
    let mut c = default_elig();
    c.min_trades_per_min = d(500.0);
    assert_eq!(evaluate(&c, &meta(), &stats(t0), &lists, d(10.0), now, none).reason, "few_trades");
    let mut c = default_elig();
    c.min_spread_vol_ratio = d(100.0);
    let mut s = stats(t0);
    s.vol_bps = d(5.0);
    assert_eq!(evaluate(&c, &meta(), &s, &lists, d(10.0), now, none).reason, "vol_high");
    let bad = Experience { markout_bps: d(-4.0), markout_n: 20, markout_rest: 0 };
    assert_eq!(evaluate(&cfg, &meta(), &stats(t0), &lists, d(10.0), now, bad).reason, "toxic_flow");
    let early = Experience { markout_bps: d(-4.0), markout_n: 19, markout_rest: 0 };
    assert!(evaluate(&cfg, &meta(), &stats(t0), &lists, d(10.0), now, early).eligible);
}

#[test]
fn the_score_rises_with_spread_and_trades_and_falls_with_volatility() {
    // 10 * sqrt(4) / (1 + 1)
    assert_eq!(score(d(10.0), d(4.0), d(1.0)), d(10.0));
    assert_eq!(score(0, d(4.0), d(1.0)), 0);
    assert_eq!(score(d(10.0), 0, d(1.0)), 0);
    assert!(score(d(11.0), d(4.0), d(1.0)) > score(d(10.0), d(4.0), d(1.0)));
    assert!(score(d(10.0), d(9.0), d(1.0)) > score(d(10.0), d(4.0), d(1.0)));
    assert!(score(d(10.0), d(4.0), d(2.0)) < score(d(10.0), d(4.0), d(1.0)));
}

#[test]
fn risk_limits_come_in_order() {
    let mut pf = Portfolio::new(d(1000.0));
    let cfg = default_risk();
    let r = spr_core::risk::evaluate(&cfg, &pf, false);
    assert!(r.allow_entries && !r.halted);
    assert_eq!(r.reason, "ok");
    let r = spr_core::risk::evaluate(&cfg, &pf, true);
    assert_eq!((r.allow_entries, r.halted, r.reason), (false, true, "halted_daily_loss"));
    pf.mark(86_400_000);
    pf.on_fill(&Fill {
        order_id: 1,
        sym: 0,
        side: Side::Buy,
        price: d(100.0),
        qty: d(40.0),
        fee: 0,
        ts: 86_400_001,
        is_maker: true,
        purpose: Purpose::Entry,
        bid: 0,
        ask: 0,
        placed_ts: 0,
        mid_at_place: 0,
        spread_bps_at_place: 0,
        queue_ahead_initial: 0,
        inventory_before: 0,
        param_version: 1,
        price_digits: 8,
    });
    pf.on_mid(0, d(100.0));
    let r = spr_core::risk::evaluate(&cfg, &pf, false);
    assert_eq!((r.allow_entries, r.halted, r.reason), (false, false, "gross_exposure_limit"));
    let mut c = default_risk();
    c.max_gross_exposure_usd = 0;
    c.max_open_positions = 1;
    assert_eq!(spr_core::risk::evaluate(&c, &pf, false).reason, "max_open_positions");
    pf.on_mid(0, d(94.0));
    let r = spr_core::risk::evaluate(&cfg, &pf, false);
    assert_eq!((r.allow_entries, r.halted, r.reason), (false, true, "daily_loss_limit"));
}

#[test]
fn instruments_round_to_their_steps() {
    let m = meta();
    assert_eq!(m.price_to_ticks(d(1.006)), 101);
    assert_eq!(m.ticks_to_price(101), d(1.01));
    assert_eq!(m.round_price(d(1.004)), d(1.0));
    assert_eq!(m.round_qty_down(d(0.99)), d(0.9));
    assert_eq!(m.round_qty_down(d(0.49)), 0);
    assert_eq!(m.round_qty_down(d(250.0)), d(100.0));
    // a billionth of a step below a whole one counts as the whole one (fourteen digits)
    let one = 100_000_000_000_000i64;
    let mut fine = meta();
    fine.price_digits = 2;
    (fine.qty_step, fine.min_qty, fine.max_qty) = (one, one, 100 * one);
    assert_eq!(fine.round_qty_down(3 * one - 100_000), 3 * one);
    assert_eq!(fine.round_qty_down(3 * one - 100_001), 2 * one);
    // a trillionth below the least order is still an order, more is none
    (fine.qty_step, fine.min_qty) = (one / 10, one + 100);
    assert_eq!(fine.round_qty_down(one), one);
    fine.min_qty = one + 101;
    assert_eq!(fine.round_qty_down(one), 0);
    // no order is finer than ten digits
    (fine.qty_step, fine.min_qty) = (one + 3_000, one);
    assert_eq!(fine.round_qty_down(one + 3_000), one);
    (fine.qty_step, fine.min_qty) = (one + 7_000, one);
    assert_eq!(fine.round_qty_down(one + 7_000), one + 10_000);
    // 0.01 on 100 is one basis point
    assert_eq!(m.tick_bps(d(100.0)), d(1.0));
    assert_eq!(m.tick_bps(0), 0);
    let b = Bbo { ts: 0, bid: d(99.0), ask: d(101.0), bid_qty: d(3.0), ask_qty: d(1.0) };
    assert!(b.is_valid());
    assert_eq!((b.mid(), b.spread_bps(), b.imbalance()), (d(100.0), d(200.0), d(0.5)));
    assert_eq!(Side::from_u8(Side::Sell.as_u8()), Side::Sell);
    assert_eq!(Side::Buy.opposite().as_str(), "Sell");
    assert_eq!(Side::Sell.sign(), -1);
    assert_eq!(Purpose::StaleExit.as_str(), "stale_exit");
}

#[test]
fn division_roots_and_order() {
    assert_eq!((round_div(5, 2), round_div(-5, 2), round_div(4, 3)), (3, -3, 1));
    assert_eq!((floor_div(-1, 3), ceil_div(-1, 3), ceil_div(1, 3)), (-1, 0, 1));
    assert_eq!((isqrt(0), isqrt(15), isqrt(16)), (0, 3, 4));
    assert_eq!(stable_order(&vec![3, 1, 3, 2]), vec![1, 3, 0, 2]);
    let mut v = vec![7u8];
    push_le(&mut v, 0x0102_0304, 4);
    assert_eq!(v, vec![7, 4, 3, 2, 1]);
    assert_eq!(read_le(&v, 1, 4), 0x0102_0304);
    assert_eq!(to_signed(to_unsigned(-9)), -9);
}

#[test]
fn the_clock_counts_milliseconds() {
    assert_eq!(epoch_ms(None), 0);
    assert_eq!(epoch_ms(Some(1_700_000_000_000)), 1_700_000_000_000);
    assert_eq!(epoch_ms(Some(u64::MAX as u128)), -1);
    let a = now_ms();
    let b = now_ms();
    assert!(a > 1_600_000_000_000 && b < 100_000_000_000_000);
}
