use spr_core::paper::{PaperExchange, PlaceReq};
use spr_core::types::{Bbo, Purpose, Side, Trade};

fn d(x: f64) -> i64 {
    (x * 1e8).round() as i64
}

fn bbo(bid: f64, ask: f64, bq: f64, aq: f64) -> Bbo {
    Bbo { ts: 0, bid: d(bid), ask: d(ask), bid_qty: d(bq), ask_qty: d(aq) }
}

fn req(side: Side, price: f64, qty: f64) -> PlaceReq {
    PlaceReq { sym: 0, side, price: d(price), qty: d(qty), taker: false, purpose: Purpose::Entry, inventory_before: 0, param_version: 1, price_digits: 8 }
}

fn trade(ts: i64, price: f64, qty: f64, taker_side: Side) -> Trade {
    Trade { ts, price: d(price), qty: d(qty), taker_side }
}

#[test]
fn queue_then_fill_on_trades() {
    let mut ex = PaperExchange::new(50, d(0.0002), d(0.00055));
    ex.on_bbo(0, 0, &bbo(100.0, 100.1, 10.0, 10.0));
    let id = ex.place(0, req(Side::Buy, 100.0, 5.0));
    ex.on_time(49); // still pending
    ex.on_trade(49, 0, &trade(49, 100.0, 100.0, Side::Sell));
    assert!(ex.fills.is_empty());
    ex.on_time(50); // active, queue ahead = 10
    assert_eq!(ex.order(id).unwrap().queue_ahead, d(10.0));
    ex.on_trade(60, 0, &trade(60, 100.0, 8.0, Side::Sell));
    assert!(ex.fills.is_empty());
    assert_eq!(ex.order(id).unwrap().queue_ahead, d(2.0));
    // taker buy at our price does not hit a bid
    ex.on_trade(61, 0, &trade(61, 100.0, 8.0, Side::Buy));
    assert!(ex.fills.is_empty());
    ex.on_trade(70, 0, &trade(70, 100.0, 5.0, Side::Sell));
    assert_eq!(ex.fills.len(), 1);
    assert_eq!(ex.fills[0].qty, d(3.0));
    assert!(ex.order(id).is_some());
    // trade through our price fills the rest
    ex.on_trade(80, 0, &trade(80, 99.9, 0.1, Side::Sell));
    assert_eq!(ex.fills.len(), 2);
    assert_eq!(ex.fills[1].qty, d(2.0));
    assert!(ex.order(id).is_none());
    assert_eq!(ex.done.len(), 1);
    assert_eq!(ex.done[0].status, "filled");
    let fee: i128 = ex.fills.iter().map(|f| f.fee).sum();
    // 5.0 * 100.0 * 0.0002, sixteen digits
    assert_eq!(fee, 1_000_000_000_000_000);
}

#[test]
fn cancel_has_latency_and_can_fill_meanwhile() {
    let mut ex = PaperExchange::new(50, d(0.0002), d(0.00055));
    ex.on_bbo(0, 0, &bbo(100.0, 100.1, 0.0, 10.0));
    let id = ex.place(0, req(Side::Buy, 100.0, 5.0));
    ex.on_time(50);
    ex.cancel(60, id);
    assert!(ex.order(id).unwrap().is_cancel_pending());
    ex.on_trade(70, 0, &trade(70, 100.0, 1.0, Side::Sell));
    assert_eq!(ex.fills.len(), 1);
    ex.on_time(110);
    assert!(ex.order(id).is_none());
    assert_eq!(ex.done[0].status, "partial_cancelled");
    assert_eq!(ex.done[0].filled, d(1.0));
}

#[test]
fn post_only_reject_and_sweep_fill() {
    let mut ex = PaperExchange::new(0, d(0.0002), d(0.00055));
    ex.on_bbo(0, 0, &bbo(100.0, 100.1, 1.0, 1.0));
    let id = ex.place(0, req(Side::Sell, 100.0, 1.0)); // at the bid => crosses
    ex.on_time(0);
    assert!(ex.order(id).is_none());
    assert_eq!(ex.done[0].status, "rejected_post_only");
    let id2 = ex.place(1, req(Side::Sell, 100.1, 1.0));
    ex.on_time(1);
    assert_eq!(ex.order(id2).unwrap().queue_ahead, d(1.0));
    // market lifts through our ask
    ex.on_bbo(2, 0, &bbo(100.2, 100.3, 1.0, 1.0));
    assert_eq!(ex.fills.len(), 1);
    assert_eq!(ex.fills[0].price, d(100.1));
    assert_eq!(ex.fills[0].side, Side::Sell);
}

#[test]
fn taker_order_fills_at_touch_with_taker_fee() {
    let mut ex = PaperExchange::new(10, d(0.0002), d(0.00055));
    ex.on_bbo(0, 0, &bbo(100.0, 100.1, 1.0, 1.0));
    let mut r = req(Side::Buy, 100.1, 2.0);
    r.taker = true;
    ex.place(0, r);
    ex.on_time(10);
    assert_eq!(ex.fills.len(), 1);
    assert_eq!(ex.fills[0].price, d(100.1));
    assert!(!ex.fills[0].is_maker);
    // 2.0 * 100.1 * 0.00055
    assert_eq!(ex.fills[0].fee, 1_101_100_000_000_000);
}

#[test]
fn cancelling_twice_changes_nothing_and_ids_grow() {
    let mut ex = PaperExchange::new(50, d(0.0002), d(0.00055));
    ex.on_bbo(0, 0, &bbo(100.0, 100.1, 0.0, 10.0));
    let a = ex.place(0, req(Side::Buy, 100.0, 5.0));
    let b = ex.place(0, req(Side::Buy, 99.0, 5.0));
    assert!(b > a);
    ex.on_time(50);
    ex.cancel(60, a);
    let at = ex.order(a).unwrap().cancel_at;
    ex.cancel(90, a);
    assert_eq!(ex.order(a).unwrap().cancel_at, at);
    assert_eq!(at, Some(110));
    // an unknown id is ignored
    ex.cancel(90, 12345);
    assert_eq!(ex.live_orders(0).len(), 2);
    assert_eq!(ex.n_live(), 2);
    ex.cancel_all(91, 0);
    assert!(ex.order(b).unwrap().is_cancel_pending());
    ex.on_time(200);
    assert_eq!(ex.n_live(), 0);
    let (fills, done) = ex.drain();
    assert!(fills.is_empty());
    assert_eq!(done.len(), 2);
    assert_eq!(done[0].status, "cancelled");
    assert!(ex.fills.is_empty() && ex.done.is_empty());
}

#[test]
fn fills_and_leftover_add_up_to_the_order() {
    let mut ex = PaperExchange::new(0, d(0.0002), d(0.00055));
    ex.on_bbo(0, 0, &bbo(100.0, 100.1, 0.0, 10.0));
    let id = ex.place(0, req(Side::Buy, 100.0, 5.0));
    ex.on_time(0);
    for i in 1..4 {
        ex.on_trade(i, 0, &trade(i, 100.0, 1.25, Side::Sell));
    }
    let filled: i64 = ex.fills.iter().map(|f| f.qty).sum();
    let o = ex.order(id).unwrap();
    assert_eq!(filled, o.filled);
    assert_eq!(o.remaining() + filled, d(5.0));
}

#[test]
fn over_many_calls_every_order_is_accounted_for() {
    let mut ex = PaperExchange::new(20, d(0.0002), d(0.00055));
    let (mut fills, mut dones) = (Vec::new(), Vec::new());
    let mut ids: Vec<u64> = Vec::new();
    for i in 0..400i64 {
        let now = i * 10;
        let bid = 100.0 + 0.1 * ((i * 13) % 7) as f64;
        ex.on_bbo(now, 0, &bbo(bid, bid + 0.1, 2.0, 2.0));
        if i % 5 == 0 {
            let mut r = req(if i % 2 == 0 { Side::Buy } else { Side::Sell }, if i % 2 == 0 { bid } else { bid + 0.1 }, 3.0);
            r.taker = i % 35 == 0;
            ids.push(ex.place(now, r));
        }
        ex.on_time(now + 1);
        ex.on_trade(now + 2, 0, &trade(now + 2, bid, 1.7, Side::Sell));
        if i % 11 == 0 && !ids.is_empty() {
            ex.cancel(now + 3, ids[(i as usize * 7) % ids.len()]);
        }
        if i % 97 == 0 {
            ex.cancel_all(now + 4, 0);
        }
        if i % 6 == 0 {
            let (f, o) = ex.drain();
            fills.extend(f);
            dones.extend(o);
        }
    }
    fills.extend(ex.fills.iter().copied());
    dones.extend(ex.done.iter().copied());
    assert!(dones.iter().any(|o| o.status == "filled") && dones.iter().any(|o| o.status == "cancelled"));
    for id in ids {
        let ended: Vec<_> = dones.iter().filter(|o| o.order_id == id).collect();
        let live = ex.order(id);
        assert_eq!(ended.len() + live.is_some() as usize, 1);
        let sum: i64 = fills.iter().filter(|f| f.order_id == id).map(|f| f.qty).sum();
        match live {
            Some(o) => assert!(sum == o.filled && o.filled < o.qty),
            None => {
                assert_eq!(sum, ended[0].filled);
                assert_eq!(ended[0].status == "filled", ended[0].filled == ended[0].qty);
            }
        }
    }
}

#[test]
fn a_billionth_left_over_is_nothing() {
    // twelve digits of a quantity: a thousand of the last one are a billionth
    let one = 1_000_000_000_000i64;
    let price = 1_000_000i64;
    for (left, status) in [(1_000, Some("filled")), (1_001, None)] {
        let mut ex = PaperExchange::new(0, 0, 0);
        assert_eq!(ex.qty_eps, 10_000_000);
        ex.on_bbo(0, 0, &Bbo { ts: 0, bid: price, ask: price + 100, bid_qty: 0, ask_qty: one });
        let mut r = req(Side::Buy, 100.0, 5.0);
        r.price = price;
        r.qty = 5 * one;
        r.price_digits = 4;
        let id = ex.place(0, r);
        ex.on_time(0);
        ex.on_trade(1, 0, &Trade { ts: 1, price, qty: 5 * one - left, taker_side: Side::Sell });
        assert_eq!(ex.fills.len(), 1);
        assert_eq!(ex.fills[0].qty, 5 * one - left);
        assert_eq!(ex.fills[0].price_digits, 4);
        assert_eq!(ex.done.first().map(|x| x.status), status);
        assert_eq!(ex.order(id).is_none(), status.is_some());
    }
}

#[test]
fn the_fee_has_sixteen_digits() {
    let mut ex = PaperExchange::new(0, 0, d(0.00055));
    ex.on_bbo(0, 0, &bbo(100.0, 100.1, 1.0, 1.0));
    let mut r = req(Side::Buy, 100.1, 0.0);
    r.qty = 3;
    r.taker = true;
    ex.place(0, r);
    ex.on_time(0);
    // 0.00000003 * 100.1 * 0.00055
    assert_eq!(ex.fills[0].fee, 16_516_500);
}
