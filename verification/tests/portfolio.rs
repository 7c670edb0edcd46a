use spr_core::portfolio::Portfolio;
use spr_core::types::{Fill, Purpose, Side};

fn d(x: f64) -> i64 {
    (x * 1e8).round() as i64
}

fn money(x: f64) -> i128 {
    d(x) as i128 * 100_000_000
}

fn fill(side: Side, price: f64, qty: f64, ts: i64) -> Fill {
    Fill {
        order_id: 1,
        sym: 0,
        side,
        price: d(price),
        qty: d(qty),
        fee: money(qty * price * 0.0002),
        ts,
        is_maker: true,
        purpose: Purpose::Entry,
        bid: 0,
        ask: 0,
        placed_ts: ts,
        mid_at_place: d(price),
        spread_bps_at_place: 0,
        queue_ahead_initial: 0,
        inventory_before: 0,
        param_version: 1,
        price_digits: 8,
    }
}

#[test]
fn round_trip_and_flip() {
    let mut pf = Portfolio::new(d(1000.0));
    pf.on_fill(&fill(Side::Buy, 100.0, 2.0, 1000));
    pf.on_fill(&fill(Side::Buy, 102.0, 2.0, 2000));
    let p = pf.position(0).unwrap();
    assert_eq!(p.qty, d(4.0));
    assert_eq!(p.avg_price, d(101.0));
    assert_eq!(p.opened_ts, 1000);
    let r = pf.on_fill(&fill(Side::Sell, 103.0, 3.0, 3000));
    assert_eq!(r, money(6.0));
    // sell 3 more: closes remaining 1 at +2, opens short 2 at 103
    let r = pf.on_fill(&fill(Side::Sell, 103.0, 3.0, 4000));
    assert_eq!(r, money(2.0));
    let p = pf.position(0).unwrap();
    assert_eq!(p.qty, d(-2.0));
    assert_eq!(p.avg_price, d(103.0));
    assert_eq!(p.opened_ts, 4000);
    pf.on_mid(0, d(100.0));
    assert_eq!(pf.unrealized_total(), money(6.0));
    assert!(pf.fees_total > 0);
    assert_eq!(pf.equity(), money(1000.0) + money(8.0) - pf.fees_total + money(6.0));
}

#[test]
fn exposure_counts_open_positions_at_their_marks() {
    let mut pf = Portfolio::new(d(500.0));
    assert_eq!(pf.qty(3), 0);
    assert_eq!(pf.open_positions(), 0);
    let mut f = fill(Side::Sell, 10.0, 4.0, 1);
    f.sym = 3;
    pf.on_fill(&f);
    pf.on_mid(3, d(11.0));
    assert_eq!(pf.qty(3), d(-4.0));
    assert_eq!(pf.open_positions(), 1);
    assert_eq!(pf.gross_exposure(), money(44.0));
    assert_eq!(pf.unrealized_total(), money(-4.0));
    let p = pf.position(3).unwrap();
    assert!(!p.is_flat());
    assert_eq!(p.notional(), money(44.0));
    assert_eq!(p.age_secs(61_001), 61);
}

#[test]
fn the_day_and_the_drawdown_are_marked() {
    let mut pf = Portfolio::new(d(1000.0));
    let day = 86_400_000i64;
    pf.mark(day);
    pf.on_fill(&fill(Side::Buy, 100.0, 1.0, day + 1));
    pf.on_mid(0, d(90.0));
    pf.mark(day + 2);
    assert_eq!(pf.daily_pnl(), money(-10.02));
    assert_eq!(pf.max_drawdown, money(10.02));
    // a new day starts from the equity at its first mark
    pf.mark(2 * day);
    assert_eq!(pf.daily_pnl(), 0);
    assert_eq!(pf.max_drawdown, money(10.02));
}

#[test]
fn the_cost_of_a_position_is_exact() {
    let mut pf = Portfolio::new(d(1000.0));
    // three units at 1.00000001, 1.00000001 and 1.0: the average is not a price
    for price in [100_000_001i64, 100_000_001, 100_000_000] {
        let mut f = fill(Side::Buy, 1.0, 1.0, 1);
        f.price = price;
        f.fee = 0;
        pf.on_fill(&f);
    }
    let p = pf.position(0).unwrap();
    assert_eq!(p.avg_price, 100_000_001);
    assert_eq!(p.cost, 300_000_002i128 * 100_000_000);
    pf.on_mid(0, d(1.0));
    assert_eq!(pf.unrealized_total(), -2 * 100_000_000);
    pf.mark(1);
    // trading at the mark moves no equity, whether it adds, closes a part, or flips
    let equity = pf.equity();
    for (side, qty) in [(Side::Buy, 7.0), (Side::Sell, 4.0), (Side::Sell, 1.0), (Side::Sell, 10.0), (Side::Buy, 5.0)] {
        let mut f = fill(side, 1.0, qty, 2);
        f.fee = 0;
        pf.on_fill(&f);
        assert_eq!(pf.equity(), equity, "{qty}");
    }
    assert_eq!(pf.qty(0), 0);
    assert_eq!(pf.position(0).unwrap().cost, 0);
    assert_eq!(pf.realized_total, -2 * 100_000_000);
}

#[test]
fn next_to_nothing_is_no_position() {
    // fourteen digits of a quantity: a hundred of the last one are a trillionth
    let with = |side: Side, qty: i64| {
        let mut f = fill(side, 1.0, 1.0, 5);
        f.price = 100;
        f.qty = qty;
        f.fee = 0;
        f.price_digits = 2;
        f
    };
    let one = 100_000_000_000_000i64;
    let mut pf = Portfolio::new(d(1000.0));
    pf.on_fill(&with(Side::Buy, 99));
    assert_eq!((pf.qty(0), pf.open_positions()), (99, 0));
    assert!(pf.position(0).unwrap().is_flat());
    assert_eq!(pf.position(0).unwrap().unrealized(), 0);
    assert_eq!(pf.position(0).unwrap().age_secs(900_000), 0);
    // a position on top of that opens anew
    pf.on_fill(&with(Side::Buy, one));
    assert_eq!((pf.qty(0), pf.open_positions()), (one + 99, 1));
    assert_eq!(pf.position(0).unwrap().opened_ts, 5);
    // a close that leaves less than a trillionth leaves nothing
    pf.on_fill(&with(Side::Sell, one));
    assert_eq!(pf.qty(0), 0);
    let p = pf.position(0).unwrap();
    assert_eq!((p.avg_price, p.cost, p.opened_ts), (0, 0, 0));
    // a trillionth is a position
    pf.on_fill(&with(Side::Sell, 100));
    assert!(!pf.position(0).unwrap().is_flat());
    assert_eq!(pf.open_positions(), 1);
}
