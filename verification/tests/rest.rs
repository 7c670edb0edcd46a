use serde_json::Value;
use spr_core::config::default_config;
use spr_core::instruments::{apply_tickers, by_turnover, price_digits, select_symbols, tickers, turnover_update, Instrument, Listing, Page};
use spr_core::text::{decimal_or_zero, decimals_of, parse_decimal, parse_decimal_at, text_before};
use spr_core::types::SymbolMeta;

fn d(x: f64) -> i64 {
    (x * 1e8).round() as i64
}

fn instrument(v: &Value) -> Instrument {
    let t = |v: &Value| v.as_str().unwrap_or("").to_string();
    let lot = &v["lotSizeFilter"];
    Instrument {
        symbol: t(&v["symbol"]),
        contract_type: t(&v["contractType"]),
        status: t(&v["status"]),
        base_coin: t(&v["baseCoin"]),
        quote_coin: t(&v["quoteCoin"]),
        tick_size: t(&v["priceFilter"]["tickSize"]),
        min_order_qty: t(&lot["minOrderQty"]),
        max_order_qty: t(&lot["maxOrderQty"]),
        qty_step: t(&lot["qtyStep"]),
        min_notional_value: t(&lot["minNotionalValue"]),
    }
}

fn plain(name: &str) -> Instrument {
    Instrument {
        symbol: name.to_string(),
        contract_type: "LinearPerpetual".to_string(),
        status: "Trading".to_string(),
        base_coin: "X".to_string(),
        quote_coin: "USDT".to_string(),
        tick_size: "0.010".to_string(),
        min_order_qty: "".to_string(),
        max_order_qty: "".to_string(),
        qty_step: "0.5".to_string(),
        min_notional_value: "".to_string(),
    }
}

fn meta_of(i: &Instrument, category: &str, quote_coin: &str) -> Option<SymbolMeta> {
    i.to_meta(category, quote_coin)
}

fn meta(name: &str, turnover: f64) -> SymbolMeta {
    let mut m = meta_of(&plain(name), "linear", "USDT").unwrap();
    m.turnover_24h = d(turnover);
    m
}

#[test]
fn decimals() {
    assert_eq!(decimals_of("0.01"), 2);
    assert_eq!(decimals_of("0.0010"), 3);
    assert_eq!(decimals_of("1"), 0);
    assert_eq!(decimals_of("0.5"), 1);
}

#[test]
fn parses_instrument_payload() {
    let text = r#"{"retCode":0,"retMsg":"OK","result":{"category":"linear","list":[{"symbol":"BTCUSDT","contractType":"LinearPerpetual","status":"Trading","baseCoin":"BTC","quoteCoin":"USDT","priceScale":"2","priceFilter":{"minPrice":"0.10","maxPrice":"1999999.80","tickSize":"0.10"},"lotSizeFilter":{"maxOrderQty":"1190.000","minOrderQty":"0.001","qtyStep":"0.001","minNotionalValue":"5"}}],"nextPageCursor":""}}"#;
    let r: Value = serde_json::from_str(text).unwrap();
    let l: Vec<Instrument> = r["result"]["list"].as_array().unwrap().iter().map(instrument).collect();
    assert_eq!(l[0].symbol, "BTCUSDT");
    assert_eq!(decimals_of(&l[0].tick_size), 1);
    assert_eq!(decimal_or_zero(&l[0].qty_step), d(0.001));
    let m = meta_of(&l[0], "linear", "USDT").unwrap();
    assert_eq!(m.name, "BTCUSDT");
    assert_eq!((m.tick_size, m.qty_step, m.min_qty, m.max_qty), (d(0.1), d(0.001), d(0.001), d(1190.0)));
    assert_eq!((m.min_notional, m.price_scale, m.turnover_24h, m.id), (d(5.0), 1, 0, 0));
    assert_eq!(m.price_digits, 8);
}

#[test]
fn numbers_in_text() {
    assert_eq!(parse_decimal("84228.9"), Some(8_422_890_000_000));
    assert_eq!(parse_decimal("-.5"), Some(-50_000_000));
    assert_eq!(parse_decimal("+1e-8"), Some(1));
    assert_eq!(parse_decimal("1.E2"), Some(10_000_000_000));
    assert_eq!(parse_decimal("0.000000005"), Some(1));
    assert_eq!(parse_decimal("0.0000000049999"), Some(0));
    assert_eq!(parse_decimal("1e400000000000000000000000000000"), Some(i64::MAX));
    assert_eq!(parse_decimal("-1e40"), Some(-i64::MAX));
    assert_eq!(parse_decimal("0e99999999999"), Some(0));
    assert_eq!(parse_decimal("5e-99999999999"), Some(0));
    assert_eq!(parse_decimal("92233720368.54775807"), Some(i64::MAX));
    for word in ["inf", "+INF", "Infinity", "+iNfInItY"] {
        assert_eq!(parse_decimal(word), Some(i64::MAX), "{word}");
    }
    assert_eq!(parse_decimal("-inf"), Some(-i64::MAX));
    assert_eq!(parse_decimal("NaN"), Some(0));
    assert_eq!(parse_decimal("-nan"), Some(0));
    for bad in ["infi", "in", "infinit", "infinityy", "nano", "na", "--inf", "i", "n", "", ".", "-", "1e", "e5", "1.2.3", " 1", "1 ", "0x10", "1_000"] {
        assert_eq!(parse_decimal(bad), None, "{bad}");
        assert_eq!(decimal_or_zero(bad), 0);
    }
    assert!(text_before("A", "B") && text_before("A", "AB") && !text_before("A", "A") && text_before("Z", "a"));
}

#[test]
fn instruments_that_do_not_trade_are_left_out() {
    assert!(meta_of(&plain("A"), "linear", "USDT").is_some());
    assert!(meta_of(&plain("A"), "linear", "").is_some());
    assert!(meta_of(&plain("A"), "linear", "USDC").is_none());
    let mut i = plain("A");
    i.status = "PreLaunch".to_string();
    assert!(meta_of(&i, "linear", "USDT").is_none());
    let mut i = plain("A");
    i.contract_type = "LinearFutures".to_string();
    assert!(meta_of(&i, "linear", "USDT").is_none());
    assert!(meta_of(&i, "spot", "USDT").is_some());
    i.contract_type = "".to_string();
    assert!(meta_of(&i, "linear", "USDT").is_some());
    let mut i = plain("A");
    i.tick_size = "0".to_string();
    assert!(meta_of(&i, "linear", "USDT").is_none());
    let mut i = plain("A");
    i.qty_step = "x".to_string();
    assert!(meta_of(&i, "linear", "USDT").is_none());
    let m = meta_of(&plain("A"), "linear", "USDT").unwrap();
    assert_eq!((m.min_qty, m.max_qty, m.min_notional, m.price_scale), (d(0.5), i64::MAX, d(5.0), 2));
    // without a limit a trillion, where that is in range
    let mut i = plain("A");
    i.tick_size = "0.0000000001".to_string();
    i.max_order_qty = "".to_string();
    let m = meta_of(&i, "linear", "USDT").unwrap();
    assert_eq!((m.price_digits, m.max_qty), (14, 100_000_000_000_000));
}

#[test]
fn pages_are_read_to_the_end_and_sorted() {
    let mut l = Listing::new();
    assert!(l.more && l.cursor.is_empty());
    let page = |names: Vec<&str>, next: &str| Some(Page { list: names.into_iter().map(plain).collect(), next_cursor: next.to_string() });
    assert_eq!(l.take(10001, page(vec!["Q"], ""), "linear", "USDT"), Err(10001));
    assert!(l.found.is_empty() && l.more);
    assert_eq!(l.take(0, page(vec!["C", "A"], "p2"), "linear", "USDT"), Ok(()));
    assert!(l.more);
    assert_eq!(l.cursor, "p2");
    assert_eq!(l.take(0, page(vec!["B"], ""), "linear", "USDT"), Ok(()));
    assert!(!l.more);
    let names: Vec<String> = l.sorted().into_iter().map(|m| m.name).collect();
    assert_eq!(names, vec!["A", "B", "C"]);
    let mut l = Listing::new();
    assert_eq!(l.take(0, None, "linear", "USDT"), Ok(()));
    assert!(!l.more);
    let mut l = Listing::new();
    let mut n = 0;
    while l.more {
        l.take(0, page(vec!["A"], "again"), "linear", "USDT").unwrap();
        n += 1;
    }
    assert_eq!(n, 50);
}

#[test]
fn the_liquid_names_are_selected() {
    let metas = vec![meta("C", 5.0), meta("A", 1.0), meta("B", 5.0), meta("D", 9.0)];
    let mut cfg = default_config();
    cfg.exchange.symbols = vec![];
    cfg.exchange.max_symbols = 0;
    let all = select_symbols(&metas, &cfg, &vec![], None);
    let names: Vec<&str> = all.iter().map(|m| m.name.as_str()).collect();
    assert_eq!(names, vec!["D", "B", "C", "A"]);
    assert_eq!(all.iter().map(|m| m.id).collect::<Vec<u32>>(), vec![0, 1, 2, 3]);
    cfg.exchange.max_symbols = 2;
    assert_eq!(select_symbols(&metas, &cfg, &vec![], None).len(), 2);
    assert_eq!(select_symbols(&metas, &cfg, &vec![], Some(0)).len(), 4);
    cfg.exchange.symbols = vec!["A".to_string(), "B".to_string()];
    let some = select_symbols(&metas, &cfg, &vec![], Some(10));
    assert_eq!(some[0].name, "B");
    assert_eq!(some.len(), 2);
    let cli = select_symbols(&metas, &cfg, &vec!["D".to_string()], None);
    assert_eq!(cli.len(), 1);
    assert_eq!(cli[0].name, "D");
}

#[test]
fn tickers_bring_the_turnover() {
    let t = tickers(&vec![("A".to_string(), "12.5".to_string()), ("X".to_string(), "1".to_string()), ("B".to_string(), "".to_string())]);
    assert_eq!(t[0], ("A".to_string(), d(12.5)));
    let mut metas = vec![meta("A", 1.0), meta("B", 2.0), meta("C", 3.0)];
    for (i, m) in metas.iter_mut().enumerate() {
        m.id = i as u32;
    }
    apply_tickers(&mut metas, &t);
    assert_eq!(metas.iter().map(|m| m.turnover_24h).collect::<Vec<i64>>(), vec![d(12.5), 0, d(3.0)]);
    assert_eq!(turnover_update(&metas, &t), vec![(0, d(12.5)), (1, 0)]);
    let names: Vec<String> = by_turnover(&metas).into_iter().map(|m| m.name).collect();
    assert_eq!(names, vec!["A", "C", "B"]);
}

#[test]
fn the_finest_steps_are_held_as_they_are_listed() {
    let mut i = plain("A");
    i.tick_size = "0.000000001".to_string();
    i.qty_step = "100".to_string();
    i.min_order_qty = "100".to_string();
    i.max_order_qty = "1000000000000".to_string();
    let m = meta_of(&i, "linear", "USDT").unwrap();
    // thirteen digits for prices leave three for quantities
    assert_eq!((m.price_digits, m.tick_size, m.price_scale), (13, 10_000, 9));
    assert_eq!((m.qty_step, m.min_qty, m.max_qty), (100_000, 100_000, 1_000_000_000_000_000));
    // no room for digits to spare
    i.qty_step = "0.0000001".to_string();
    let m = meta_of(&i, "linear", "USDT").unwrap();
    assert_eq!((m.price_digits, m.tick_size, m.qty_step), (9, 1, 1));
    // quantities finer than prices
    i.tick_size = "0.5".to_string();
    i.qty_step = "0.00000000025".to_string();
    let m = meta_of(&i, "linear", "USDT").unwrap();
    assert_eq!((m.price_digits, m.tick_size, m.qty_step), (5, 50_000, 25));
    // of seventeen digits together the last one of the quantity gives way
    i.tick_size = "0.000000001".to_string();
    i.qty_step = "0.00000001".to_string();
    let m = meta_of(&i, "linear", "USDT").unwrap();
    assert_eq!((m.price_digits, m.tick_size, m.qty_step), (9, 1, 1));
    // however fine, a step is never nothing
    i.tick_size = "1e-300".to_string();
    let m = meta_of(&i, "linear", "USDT").unwrap();
    assert_eq!((m.price_digits, m.tick_size, m.qty_step), (16, 1, 1));
    i.tick_size = "-0.000000001".to_string();
    assert!(meta_of(&i, "linear", "USDT").is_none());
    i.tick_size = "0.000000000".to_string();
    assert!(meta_of(&i, "linear", "USDT").is_none());
    assert_eq!(price_digits("1e-16", "1"), Some(16));
    assert_eq!(price_digits("0.1", "0.001"), Some(8));
    assert_eq!(price_digits("x", "1"), None);
}

#[test]
fn numbers_at_other_places() {
    assert_eq!(parse_decimal_at("0.000000001", 13), Some(10_000));
    assert_eq!(parse_decimal_at("123456", 0), Some(123_456));
    assert_eq!(parse_decimal_at("0.5", 0), Some(1));
    assert_eq!(parse_decimal_at("0.49", 0), Some(0));
    assert_eq!(parse_decimal_at("-2.5e-3", 4), Some(-25));
    assert_eq!(parse_decimal_at("1e3", 16), Some(i64::MAX));
}
