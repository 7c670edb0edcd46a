use spr_core::book::Book;
use spr_core::types::SymbolMeta;

fn d(x: f64) -> i64 {
    (x * 1e8).round() as i64
}

fn l(v: &[(f64, f64)]) -> Vec<(i64, i64)> {
    v.iter().map(|(p, q)| (d(*p), d(*q))).collect()
}

fn meta() -> SymbolMeta {
    SymbolMeta {
        id: 0,
        name: "TESTUSDT".to_string(),
        base_coin: "TEST".to_string(),
        quote_coin: "USDT".to_string(),
        tick_size: d(0.01),
        qty_step: d(0.1),
        min_qty: d(0.1),
        max_qty: d(1e6),
        min_notional: d(5.0),
        price_scale: 2,
        price_digits: 8,
        turnover_24h: 0,
    }
}

#[test]
fn snapshot_delta_and_bbo() {
    let mut b = Book::new(&meta());
    b.apply(1, true, &l(&[(100.0, 5.0), (99.99, 2.0)]), &l(&[(100.02, 3.0), (100.03, 1.0)]));
    let q = b.bbo().unwrap();
    assert_eq!(q.bid, d(100.0));
    assert_eq!(q.ask, d(100.02));
    assert_eq!(q.bid_qty, d(5.0));
    // delete best bid, new best is 99.99
    b.apply(2, false, &l(&[(100.0, 0.0)]), &l(&[]));
    assert_eq!(b.bbo().unwrap().bid, d(99.99));
    // improve ask inside
    b.apply(3, false, &l(&[]), &l(&[(100.01, 0.5)]));
    let q = b.bbo().unwrap();
    assert_eq!(q.ask, d(100.01));
    assert_eq!(q.ask_qty, d(0.5));
    assert_eq!(b.size_at(false, d(100.02)), d(3.0));
    assert_eq!(b.size_at(true, d(50.0)), 0);
}

#[test]
fn crossed_book_is_repaired() {
    let mut b = Book::new(&meta());
    b.apply(1, true, &l(&[(100.0, 1.0)]), &l(&[(100.02, 1.0)]));
    // a bid arrives above the stale ask: the ask must go
    b.apply(2, false, &l(&[(100.05, 1.0)]), &l(&[]));
    let q = b.bbo();
    assert!(q.is_none() || q.unwrap().ask > q.unwrap().bid);
}

#[test]
fn a_snapshot_forgets_what_was_there() {
    let mut b = Book::new(&meta());
    assert!(b.bbo().is_none());
    b.apply(1, true, &l(&[(100.0, 5.0), (99.0, 2.0)]), &l(&[(101.0, 3.0)]));
    assert_eq!(b.depth(), (2, 1));
    b.apply(2, true, &l(&[(50.0, 1.0)]), &l(&[(51.0, 1.0)]));
    assert_eq!(b.depth(), (1, 1));
    assert_eq!(b.size_at(true, d(100.0)), 0);
    assert_eq!(b.bbo().unwrap().bid, d(50.0));
    assert_eq!(b.bbo().unwrap().ts, 2);
}

#[test]
fn noise_in_a_price_makes_no_second_level_and_the_last_update_counts() {
    let mut b = Book::new(&meta());
    b.apply(1, true, &l(&[(100.0, 5.0), (100.00004, 6.0)]), &l(&[(101.0, 1.0), (101.0, 0.0), (102.0, 0.0), (102.0, 7.0)]));
    assert_eq!(b.depth(), (1, 1));
    assert_eq!(b.size_at(true, d(99.9999)), d(6.0));
    assert_eq!(b.size_at(false, d(101.0)), 0);
    assert_eq!(b.size_at(false, d(102.0)), d(7.0));
}
