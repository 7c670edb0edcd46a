use serde_json::Value;
use spr_core::feed::{
    book_event, references_per_connection, symbols_per_connection, trade_event, Backoff, BookData, BookTicker, Envelope, Route, Target, TradeData,
};
use spr_core::types::{MarketEvent, Side};

fn d(x: f64) -> i64 {
    (x * 1e8).round() as i64
}

fn json(text: &str) -> Value {
    serde_json::from_str(text).unwrap()
}

fn text(v: &Value) -> Option<String> {
    v.as_str().map(|s| s.to_string())
}

fn envelope(v: &Value) -> Envelope {
    Envelope {
        topic: text(&v["topic"]),
        typ: text(&v["type"]),
        ts: v["ts"].as_i64(),
        has_data: !v["data"].is_null(),
        op: text(&v["op"]),
        success: v["success"].as_bool(),
    }
}

fn pairs(v: &Value) -> Vec<(String, String)> {
    v.as_array().unwrap().iter().map(|p| (text(&p[0]).unwrap(), text(&p[1]).unwrap())).collect()
}

fn book_data(v: &Value) -> BookData {
    BookData { s: text(&v["s"]).unwrap(), b: pairs(&v["b"]), a: pairs(&v["a"]), u: v["u"].as_u64() }
}

fn trade_data(v: &Value) -> Vec<TradeData> {
    v.as_array()
        .unwrap()
        .iter()
        .map(|t| TradeData { ts: t["T"].as_i64().unwrap(), s: text(&t["s"]).unwrap(), side: text(&t["S"]).unwrap(), v: text(&t["v"]).unwrap(), p: text(&t["p"]).unwrap() })
        .collect()
}

fn ticker(v: &Value) -> BookTicker {
    let x = &v["data"];
    BookTicker { s: text(&x["s"]).unwrap(), b: text(&x["b"]).unwrap(), a: text(&x["a"]).unwrap(), t: x["T"].as_i64(), e: x["E"].as_i64() }
}

#[test]
fn parses_book_and_trade_messages() {
    let by_name = vec![("BTCUSDT".to_string(), Target { sym: 3, price_digits: 8 })];
    let mut n = 0;
    let book = json(
        r#"{"topic":"orderbook.1.BTCUSDT","type":"snapshot","ts":1700000000000,"data":{"s":"BTCUSDT","b":[["84228.9","1.25"]],"a":[["84229.0","0.5"]],"u":1,"seq":123},"cts":1699999999999}"#,
    );
    let e = envelope(&book);
    assert_eq!(e.route(), Route::Book);
    match book_event(&by_name, &e, &book_data(&book["data"])).unwrap() {
        MarketEvent::Book { sym, ts, snapshot, bids, asks } => {
            assert_eq!(sym, 3);
            assert_eq!(ts, 1_700_000_000_000);
            assert!(snapshot);
            assert_eq!(bids, vec![(d(84228.9), d(1.25))]);
            assert_eq!(asks, vec![(d(84229.0), d(0.5))]);
        }
        _ => panic!("expected book"),
    }
    let trade = json(
        r#"{"topic":"publicTrade.BTCUSDT","type":"snapshot","ts":1700000000001,"data":[{"T":1700000000000,"s":"BTCUSDT","S":"Sell","v":"0.002","p":"84228.9","L":"MinusTick","i":"abc","BT":false}]}"#,
    );
    let e = envelope(&trade);
    assert_eq!(e.route(), Route::Trades);
    match trade_event(&by_name, &trade_data(&trade["data"])).unwrap() {
        MarketEvent::Trades { sym, trades } => {
            assert_eq!(sym, 3);
            assert_eq!(trades.len(), 1);
            assert_eq!(trades[0].taker_side, Side::Sell);
            assert_eq!(trades[0].qty, d(0.002));
            assert_eq!(trades[0].price, d(84228.9));
        }
        _ => panic!("expected trades"),
    }
    let sub = json(r#"{"success":true,"ret_msg":"subscribe","conn_id":"x","op":"subscribe"}"#);
    if envelope(&sub).route() == Route::Subscribed {
        n += 1;
    }
    assert_eq!(n, 1);
    let pong = json(r#"{"success":true,"ret_msg":"pong","conn_id":"x","op":"ping"}"#);
    assert_eq!(envelope(&pong).route(), Route::Nothing);
    // unknown symbol is ignored
    let other = json(r#"{"topic":"orderbook.1.ETHUSDT","type":"delta","ts":1,"data":{"s":"ETHUSDT","b":[],"a":[["1","1"]],"u":5,"seq":1}}"#);
    let e = envelope(&other);
    assert_eq!(e.route(), Route::Book);
    assert!(book_event(&by_name, &e, &book_data(&other["data"])).is_none());
}

#[test]
fn parses_futures_and_spot_payloads() {
    let by_name = vec![("PEAQUSDT".to_string(), Target { sym: 4, price_digits: 8 })];
    let fut = json(
        r#"{"stream":"peaqusdt@bookTicker","data":{"e":"bookTicker","u":400900217,"E":1568014460893,"T":1568014460891,"s":"PEAQUSDT","b":"0.0123","B":"31.2","a":"0.0124","A":"40.6"}}"#,
    );
    match ticker(&fut).event(&by_name, 0, 1).unwrap() {
        MarketEvent::Reference { sym, ts, bid, ask, rank } => assert_eq!((sym, ts, bid, ask, rank), (4, 1568014460891, d(0.0123), d(0.0124), 0)),
        _ => panic!(),
    }
    let spot = json(r#"{"stream":"peaqusdt@bookTicker","data":{"u":1,"s":"PEAQUSDT","b":"0.0120","B":"1","a":"0.0121","A":"1"}}"#);
    assert!(matches!(ticker(&spot).event(&by_name, 1, 77), Some(MarketEvent::Reference { rank: 1, ts: 77, .. })));
    let unknown = json(r#"{"stream":"xusdt@bookTicker","data":{"u":1,"s":"XUSDT","b":"1","B":"1","a":"2","A":"1"}}"#);
    assert!(ticker(&unknown).event(&by_name, 0, 1).is_none());
}

#[test]
fn bad_reference_quotes_are_dropped() {
    let by_name = vec![("A".to_string(), Target { sym: 0, price_digits: 8 })];
    let t = |b: &str, a: &str| BookTicker { s: "A".to_string(), b: b.to_string(), a: a.to_string(), t: None, e: Some(9) };
    assert!(t("0", "1").event(&by_name, 0, 1).is_none());
    assert!(t("2", "1").event(&by_name, 0, 1).is_none());
    assert!(t("x", "1").event(&by_name, 0, 1).is_none());
    assert!(t("1", "").event(&by_name, 0, 1).is_none());
    assert!(matches!(t("1", "1").event(&by_name, 0, 1), Some(MarketEvent::Reference { ts: 9, .. })));
}

#[test]
fn routes_of_control_messages() {
    let e = |op: Option<&str>, success: Option<bool>, topic: Option<&str>, has_data: bool| Envelope {
        topic: topic.map(|s| s.to_string()),
        typ: None,
        ts: None,
        has_data,
        op: op.map(|s| s.to_string()),
        success,
    };
    assert_eq!(e(Some("subscribe"), Some(false), None, false).route(), Route::Refused);
    assert_eq!(e(Some("subscribe"), None, Some("orderbook.1.A"), true).route(), Route::Subscribed);
    assert_eq!(e(Some("pong"), None, None, false).route(), Route::Nothing);
    assert_eq!(e(Some("auth"), None, None, false).route(), Route::OtherOp);
    assert_eq!(e(None, None, Some("orderbook.1.A"), false).route(), Route::Nothing);
    assert_eq!(e(None, None, Some("tickers.A"), true).route(), Route::Nothing);
    assert_eq!(e(None, None, None, true).route(), Route::Nothing);
}

#[test]
fn unreadable_figures_are_left_out() {
    let by_name = vec![("A".to_string(), Target { sym: 1, price_digits: 8 })];
    let env = Envelope { topic: None, typ: Some("delta".to_string()), ts: None, has_data: true, op: None, success: None };
    let p = |a: &str, b: &str| (a.to_string(), b.to_string());
    let data = BookData { s: "A".to_string(), b: vec![p("1", "2"), p("x", "2"), p("3", "")], a: vec![p("1e2", "-0.5")], u: Some(1) };
    match book_event(&by_name, &env, &data).unwrap() {
        MarketEvent::Book { ts, snapshot, bids, asks, .. } => {
            assert_eq!(ts, 0);
            // numbering starts anew
            assert!(snapshot);
            assert_eq!(bids, vec![(d(1.0), d(2.0))]);
            assert_eq!(asks, vec![(d(100.0), d(-0.5))]);
        }
        _ => panic!("expected book"),
    }
    assert!(trade_event(&by_name, &vec![]).is_none());
}

#[test]
fn connections_share_symbols_and_back_off() {
    assert_eq!(symbols_per_connection(0), 1);
    assert_eq!(symbols_per_connection(21), 10);
    assert_eq!(references_per_connection(0), 1);
    assert_eq!(references_per_connection(150), 150);
    assert_eq!(references_per_connection(5000), 1000);
    let mut b = Backoff::new(30);
    let waits: Vec<u64> = (0..7).map(|_| b.ended(false)).collect();
    assert_eq!(waits, vec![1, 2, 4, 8, 16, 30, 30]);
    assert_eq!(b.ended(true), 1);
    assert_eq!(b.ended(false), 2);
}

#[test]
fn figures_have_the_digits_of_their_instrument() {
    let names = vec![("A".to_string(), Target { sym: 2, price_digits: 13 })];
    let env = Envelope { topic: None, typ: None, ts: Some(5), has_data: true, op: None, success: None };
    let data = BookData { s: "A".to_string(), b: vec![("0.000000001".to_string(), "12.345".to_string())], a: vec![], u: None };
    match book_event(&names, &env, &data).unwrap() {
        MarketEvent::Book { sym, bids, .. } => assert_eq!((sym, bids), (2, vec![(10_000, 12_345)])),
        _ => panic!("expected a book"),
    }
    let list = vec![TradeData { ts: 1, s: "A".to_string(), side: "Buy".to_string(), v: "2".to_string(), p: "0.0000000025".to_string() }];
    match trade_event(&names, &list).unwrap() {
        MarketEvent::Trades { trades, .. } => assert_eq!((trades[0].price, trades[0].qty), (25_000, 2_000)),
        _ => panic!("expected trades"),
    }
    let t = BookTicker { s: "A".to_string(), b: "1e-9".to_string(), a: "2e-9".to_string(), t: None, e: None };
    match t.event(&names, 0, 7).unwrap() {
        MarketEvent::Reference { bid, ask, ts, .. } => assert_eq!((bid, ask, ts), (10_000, 20_000, 7)),
        _ => panic!("expected a reference"),
    }
}
