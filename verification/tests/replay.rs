use spr_core::bits::{bits_of_fixed, fixed_of_bits};
use spr_core::config::{default_config, OverrideValue, Overrides, SymbolLists};
use spr_core::reader::MdEvent;
use spr_core::recorder::{BboRec, Segment, TrdRec};
use spr_core::replay::{market_event, parse_time, replay_instruments, Replay, ReplayError, ReplayRequest, ReplayStats};
use spr_core::store::{MdPrint, MdQuote};
use spr_core::times::first_time;
use spr_core::types::{MarketEvent, Side, SymbolMeta};

fn d(x: f64) -> i64 {
    (x * 1e8).round() as i64
}

fn meta(name: &str, tick: f64) -> SymbolMeta {
    SymbolMeta {
        id: 0,
        name: name.to_string(),
        base_coin: "X".to_string(),
        quote_coin: "USDT".to_string(),
        tick_size: d(tick),
        qty_step: d(1.0),
        min_qty: d(1.0),
        max_qty: d(1e9),
        min_notional: d(5.0),
        price_scale: 3,
        price_digits: 8,
        turnover_24h: d(1e7),
    }
}

fn seg(run_id: i64, symbols: Vec<SymbolMeta>) -> Segment {
    Segment { day: "20231114".to_string(), day_start_ms: 1_699_920_000_000, run_id, symbols }
}

fn request(symbols: Vec<&str>) -> ReplayRequest {
    ReplayRequest {
        md_dir: "data/md".to_string(),
        from_ms: 1_699_920_000_000,
        to_ms: 1_700_006_400_000,
        symbols: symbols.into_iter().map(|s| s.to_string()).collect(),
        params: None,
    }
}

fn bbo(ts: i64, sym: u32, bid: f64, ask: f64) -> MdEvent {
    MdEvent::Bbo(BboRec { ts, sym, bid: bid.to_bits(), ask: ask.to_bits(), bid_qty: 50.0f64.to_bits(), ask_qty: 50.0f64.to_bits() })
}

#[test]
fn parses_times() {
    assert_eq!(parse_time("1700000000").unwrap(), 1_700_000_000_000);
    assert_eq!(parse_time("1700000000000").unwrap(), 1_700_000_000_000);
    assert_eq!(parse_time("2023-11-14T22:13:20").unwrap(), 1_700_000_000_000);
    assert_eq!(parse_time("2023-11-14").unwrap(), 1_699_920_000_000);
    assert!(parse_time("yesterday").is_err());
}

#[test]
fn every_notation_of_a_time_is_read() {
    assert_eq!(parse_time("  2023-11-14T22:13\t").unwrap(), 1_699_999_980_000);
    assert_eq!(parse_time("2023-11-14 22:13:20").unwrap(), 1_700_000_000_000);
    assert_eq!(parse_time("2023-11-14 22:13").unwrap(), 1_699_999_980_000);
    assert_eq!(parse_time("2023-11-14T22:13:20Z").unwrap(), 1_700_000_000_000);
    assert_eq!(parse_time("2023-11-15T00:13:20+02:00").unwrap(), 1_700_000_000_000);
    assert_eq!(parse_time("\u{3000}99999999999\u{a0}").unwrap(), 99_999_999_999_000);
    assert_eq!(parse_time("100000000000").unwrap(), 100_000_000_000);
    assert_eq!(parse_time("-5").unwrap(), -5000);
    assert_eq!(parse_time("  not a time ").unwrap_err().text, "not a time");
    assert_eq!(parse_time("").unwrap_err().text, "");
    assert_eq!(first_time(None, &vec![None, Some(3), Some(4)]), Some(3));
    assert_eq!(first_time(Some(7), &vec![Some(3)]), Some(7000));
    assert_eq!(first_time(None, &vec![None]), None);
}

#[test]
fn bit_patterns_become_decimals() {
    for x in [0.0, 1.5, 0.00000001, -2.25, 84228.9, 1e-9, 123456.78901234, 1e10] {
        assert_eq!(fixed_of_bits((x as f64).to_bits(), 8), d(x), "{x}");
    }
    assert_eq!(fixed_of_bits(0.0000000049f64.to_bits(), 8), 0);
    assert_eq!(fixed_of_bits(0.0000000051f64.to_bits(), 8), 1);
    assert_eq!(fixed_of_bits(1e300f64.to_bits(), 8), i64::MAX);
    assert_eq!(fixed_of_bits((-1e300f64).to_bits(), 8), -i64::MAX);
    assert_eq!(fixed_of_bits(f64::INFINITY.to_bits(), 8), i64::MAX);
    assert_eq!(fixed_of_bits(f64::NEG_INFINITY.to_bits(), 8), -i64::MAX);
    assert_eq!(fixed_of_bits(f64::NAN.to_bits(), 8), 0);
    assert_eq!(fixed_of_bits(f64::MIN_POSITIVE.to_bits(), 8), 0);
    assert_eq!(fixed_of_bits(1, 8), 0);
}

#[test]
fn first_definition_of_an_instrument_wins() {
    let segs = vec![seg(1, vec![meta("A", 0.1), meta("B", 0.1)]), seg(2, vec![meta("B", 0.2), meta("C", 0.2)])];
    let all = replay_instruments(&segs, &vec![]);
    let got: Vec<(&str, i64)> = all.iter().map(|m| (m.name.as_str(), m.tick_size)).collect();
    assert_eq!(got, vec![("A", d(0.1)), ("B", d(0.1)), ("C", d(0.2))]);
    let some = replay_instruments(&segs, &vec!["C".to_string(), "Z".to_string()]);
    assert_eq!(some.len(), 1);
    assert_eq!(some[0].name, "C");
}

#[test]
fn nothing_to_replay_is_an_error() {
    let r = Replay::prepare(default_config(), Overrides::default(), SymbolLists::default(), &request(vec![]), &vec![], true, 1);
    assert!(matches!(r, Err(ReplayError::NoData)));
    let segs = vec![seg(1, vec![meta("A", 0.001)])];
    let r = Replay::prepare(default_config(), Overrides::default(), SymbolLists::default(), &request(vec!["Z"]), &segs, true, 1);
    assert!(matches!(r, Err(ReplayError::NoSymbols)));
}

#[test]
fn parameters_go_to_every_replayed_symbol() {
    let segs = vec![seg(1, vec![meta("A", 0.001), meta("B", 0.001)])];
    let mut req = request(vec![]);
    req.params = Some(vec![("min_spread_bps".to_string(), OverrideValue::Int(33))]);
    let mut ov = Overrides::default();
    ov.per_symbol.push(("A".to_string(), vec![("min_spread_bps".to_string(), OverrideValue::Int(22)), ("min_edge_bps".to_string(), OverrideValue::Int(1))]));
    let mut cfg = default_config();
    cfg.recording.enabled = true;
    let r = Replay::prepare(cfg, ov, SymbolLists::default(), &req, &segs, false, 7);
    let r = match r {
        Ok(r) => r,
        Err(_) => panic!("no replay"),
    };
    assert!(!r.engine.cfg.recording.enabled && !r.engine.record_md);
    assert_eq!(r.engine.symbols[0].params.min_spread_bps, d(33.0));
    assert_eq!(r.engine.symbols[0].params.min_edge_bps, d(1.0));
    assert_eq!(r.engine.symbols[1].params.min_spread_bps, d(33.0));
    assert_eq!((r.stats.segments, r.stats.symbols), (1, 2));
    assert_eq!(r.engine.run_id, 7);
}

#[test]
fn recorded_events_reach_the_engine_under_its_own_ids() {
    let segs = vec![seg(1, vec![meta("A", 0.001), meta("B", 0.001)]), seg(2, vec![meta("B", 0.001), meta("A", 0.001)])];
    let req = request(vec!["B"]);
    let mut r = match Replay::prepare(default_config(), Overrides::default(), SymbolLists::default(), &req, &segs, true, 1) {
        Ok(r) => r,
        Err(_) => panic!("no replay"),
    };
    assert_eq!(r.open_segment(&segs[0]), Some(vec![1]));
    let t = 1_700_000_000_000i64;
    // of the symbol that is not replayed, and of one that does not exist
    assert!(!r.feed(&bbo(t, 0, 1.0, 1.02)));
    assert!(!r.feed(&bbo(t, 9, 1.0, 1.02)));
    assert_eq!(r.stats.first_ts, 0);
    assert!(r.feed(&bbo(t, 1, 1.0, 1.02)));
    assert_eq!(r.stats.first_ts, t);
    assert_eq!(r.engine.symbols[0].bbo.unwrap().bid, d(1.0));
    assert_eq!(r.open_segment(&segs[1]), Some(vec![0]));
    r.feed(&bbo(t + 500, 0, 1.001, 1.02));
    assert_eq!(r.engine.symbols[0].bbo.unwrap().bid, d(1.001));
    r.count(2, 0);
    r.count(3, 1);
    r.finish();
    let rep = r.report(77);
    assert_eq!((rep.stats.n_bbo, rep.stats.n_trades, rep.stats.first_ts, rep.stats.last_ts, rep.stats.elapsed_ms), (5, 1, t, t + 500, 77));
    assert_eq!(rep.summary.n_events, 2);
    let all = vec![seg(1, vec![meta("B", 0.001)])];
    assert_eq!(r.open_segment(&all[0]), None);
    let z = ReplayStats::default();
    assert_eq!((z.segments, z.n_bbo, z.first_ts), (0, 0, 0));
}

#[test]
fn trades_and_references_convert() {
    let t = MdEvent::Trade(TrdRec { ts: 5, sym: 0, side: 1, price: 2.5f64.to_bits(), qty: 3.0f64.to_bits() });
    match market_event(&t, 4, 8) {
        MarketEvent::Trades { sym, trades } => {
            assert_eq!(sym, 4);
            assert_eq!(trades.len(), 1);
            assert_eq!((trades[0].ts, trades[0].price, trades[0].qty, trades[0].taker_side), (5, d(2.5), d(3.0), Side::Sell));
        }
        _ => panic!("expected trades"),
    }
    let q = BboRec { ts: 6, sym: 0, bid: 1.25f64.to_bits(), ask: 1.5f64.to_bits(), bid_qty: 0, ask_qty: 0 };
    match market_event(&MdEvent::Ref(q), 2, 8) {
        MarketEvent::Reference { sym, ts, bid, ask, rank } => assert_eq!((sym, ts, bid, ask, rank), (2, 6, d(1.25), d(1.5), 0)),
        _ => panic!("expected a reference"),
    }
}

#[test]
fn decimals_become_the_nearest_float() {
    for text in ["0", "1", "-1", "0.1", "84228.9", "0.00000001", "-0.00000003", "123456.78901234", "67108863.99999999", "92233720368.54775807", "0.3", "1e9"] {
        let x = spr_core::text::parse_decimal(text).unwrap();
        let f: f64 = text.parse().unwrap();
        assert_eq!(bits_of_fixed(x, 8), f.to_bits(), "{text}");
    }
    assert_eq!(bits_of_fixed(i64::MIN, 8), (-92233720368.54775808f64).to_bits());
    for x in [1i64, 2, 3, 7, 99_999_999, 100_000_001, 4_503_599_627_370_495, -4_503_599_627_370_495, 6_710_886_399_999_999] {
        assert_eq!(fixed_of_bits(bits_of_fixed(x, 8), 8), x);
    }
}

#[test]
fn what_was_recorded_is_replayed() {
    let q = MdQuote { ts: 77, sym: 3, bid: d(84228.9), ask: d(84229.0), bid_qty: 1, ask_qty: d(0.3), price_digits: 8 };
    let back = BboRec::from_bytes(&q.record().to_bytes());
    match market_event(&MdEvent::Bbo(back), 5, q.price_digits) {
        MarketEvent::Bbo { sym, bbo } => {
            assert_eq!((sym, bbo.ts, bbo.bid, bbo.ask, bbo.bid_qty, bbo.ask_qty), (5, 77, q.bid, q.ask, q.bid_qty, q.ask_qty));
        }
        _ => panic!("expected a book"),
    }
    let p = MdPrint { ts: 78, sym: 3, side: 1, price: d(0.1), qty: d(123.45678901), price_digits: 8 };
    match market_event(&MdEvent::Trade(TrdRec::from_bytes(&p.record().to_bytes())), 5, p.price_digits) {
        MarketEvent::Trades { trades, .. } => assert_eq!((trades[0].price, trades[0].qty, trades[0].taker_side), (p.price, p.qty, Side::Sell)),
        _ => panic!("expected trades"),
    }
}

#[test]
fn floats_and_decimals_at_other_places() {
    assert_eq!(fixed_of_bits(1e-9f64.to_bits(), 13), 10_000);
    assert_eq!(fixed_of_bits(1e-16f64.to_bits(), 16), 1);
    assert_eq!(fixed_of_bits(123_456_700.0f64.to_bits(), 0), 123_456_700);
    assert_eq!(fixed_of_bits(9_007_199_254_740_994.0f64.to_bits(), 0), 9_007_199_254_740_994);
    assert_eq!(fixed_of_bits(1e19f64.to_bits(), 0), i64::MAX);
    assert_eq!(fixed_of_bits(0.5f64.to_bits(), 0), 1);
    for places in [0u32, 3, 8, 13, 16] {
        for x in [1i64, -1, 7, 10_000, 99_999, 4_503_599_627_370_495, -4_503_599_627_370_495] {
            assert_eq!(fixed_of_bits(bits_of_fixed(x, places), places), x);
        }
    }
    assert_eq!(bits_of_fixed(10_000, 13), 1e-9f64.to_bits());
    assert_eq!(bits_of_fixed(i64::MAX, 0), 9223372036854775807f64.to_bits());
    assert_eq!(bits_of_fixed(1, 16), 1e-16f64.to_bits());
    let q = MdQuote { ts: 1, sym: 0, bid: 12_345, ask: 12_346, bid_qty: 7, ask_qty: 8, price_digits: 13 };
    let r = q.record();
    assert_eq!((r.bid, r.bid_qty), (1.2345e-9f64.to_bits(), 0.007f64.to_bits()));
    match market_event(&MdEvent::Bbo(r), 0, 13) {
        MarketEvent::Bbo { bbo, .. } => assert_eq!((bbo.bid, bbo.ask, bbo.bid_qty, bbo.ask_qty), (12_345, 12_346, 7, 8)),
        _ => panic!("expected a book"),
    }
}
