use spr_core::reader::MdEvent;
use spr_core::rows::{Action, Cell, Row, Texts};
use spr_core::store::{md_records, plan_batch, takes_more, AfterWrite, MdPrint, MdQuote, Note, PnlRow, StoreMsg, SymbolStatsRow, WriterState};
use spr_core::types::{Fill, OrderDone, Purpose, Side};

fn d(x: f64) -> i64 {
    (x * 1e8).round() as i64
}

fn texts() -> Texts {
    Texts { config_json: "{}".to_string(), symbols_json: "[]".to_string(), params_json: "{\"a\":1}".to_string(), message: "hello".to_string() }
}

fn fill() -> Fill {
    Fill {
        order_id: 9,
        sym: 0,
        side: Side::Buy,
        price: d(1.0),
        qty: d(2.0),
        fee: d(0.0004) as i128 * 100_000_000,
        ts: 5,
        is_maker: true,
        purpose: Purpose::Entry,
        bid: d(1.0),
        ask: d(1.01),
        placed_ts: 1,
        mid_at_place: d(1.005),
        spread_bps_at_place: d(10.0),
        queue_ahead_initial: d(3.0),
        inventory_before: 0,
        param_version: 1,
        price_digits: 8,
    }
}

fn int_of(r: &Row, column: &str) -> i64 {
    match r.cells.iter().find(|c| c.0 == column) {
        Some((_, Cell::Int(x))) => *x,
        _ => panic!("no integer {column}"),
    }
}

fn num(r: &Row, column: &str) -> i64 {
    match r.cells.iter().find(|c| c.0 == column) {
        Some((_, Cell::Num(x, 8))) => *x,
        _ => panic!("no number {column}"),
    }
}

fn text(r: &Row, column: &str) -> String {
    match r.cells.iter().find(|c| c.0 == column) {
        Some((_, Cell::Text(x))) => x.clone(),
        _ => panic!("no text {column}"),
    }
}

#[test]
fn a_fill_and_an_event_become_rows() {
    let r = StoreMsg::Fill { fill: fill(), symbol: "AUSDT".to_string(), price_digits: 8, realized: -7 }.row(1, &texts()).unwrap();
    assert_eq!((r.table, r.action), ("fills", Action::Insert));
    assert_eq!(r.cells.len(), 19);
    assert_eq!(int_of(&r, "run_id"), 1);
    assert_eq!(int_of(&r, "order_id"), 9);
    assert_eq!(text(&r, "symbol"), "AUSDT");
    assert_eq!(text(&r, "side"), "Buy");
    assert_eq!(num(&r, "ask"), d(1.01));
    assert_eq!(int_of(&r, "is_maker"), 1);
    assert_eq!(text(&r, "purpose"), "entry");
    assert!(matches!(r.cells[6], ("fee", Cell::Money(4_000_000_000_000))));
    assert!(matches!(r.cells[18], ("realized_pnl", Cell::Money(-7))));
    let e = StoreMsg::Event { ts: 6, level: "info", note: Note::Feed { conn: 0, msg: "x".to_string() } };
    let r = e.row(1, &texts()).unwrap();
    assert_eq!((r.table, r.action), ("events", Action::Insert));
    assert_eq!(text(&r, "msg"), "hello");
    assert_eq!(text(&r, "level"), "info");
}

#[test]
fn every_other_message_has_its_table() {
    let t = texts();
    let r = StoreMsg::RunStart { started_ts: 3, mode: "live".to_string() }.row(8, &t).unwrap();
    assert_eq!((r.table, r.action, text(&r, "config_json"), text(&r, "symbols_json")), ("runs", Action::Replace, "{}".to_string(), "[]".to_string()));
    let r = StoreMsg::RunEnd { ended_ts: 4 }.row(8, &t).unwrap();
    assert_eq!((r.table, r.action, int_of(&r, "ended_ts")), ("runs", Action::Update, 4));
    let done = OrderDone {
        order_id: u64::MAX,
        sym: 0,
        side: Side::Sell,
        price: 1,
        qty: 2,
        filled: 3,
        ts_created: 4,
        ts_done: 5,
        status: "cancelled",
        purpose: Purpose::StopLoss,
        queue_ahead_initial: 6,
        spread_bps_at_place: 7,
        param_version: 8,
        price_digits: 8,
    };
    let r = StoreMsg::OrderDone { done, symbol: "B".to_string(), price_digits: 8 }.row(8, &t).unwrap();
    assert_eq!((r.table, r.cells.len(), text(&r, "purpose"), int_of(&r, "order_id")), ("orders", 14, "stop_loss".to_string(), -1));
    let p = StoreMsg::PositionState { symbol: "B".to_string(), price_digits: 8, qty: -1, avg_price: 2, realized_pnl: 3, fees: 4, opened_ts: 5, last_mid: 6, updated_ts: 7 };
    let r = p.row(8, &t).unwrap();
    assert_eq!((r.table, r.action, num(&r, "qty")), ("position_state", Action::Replace, -1));
    let s = SymbolStatsRow {
        ts: 1,
        symbol: "B".to_string(),
        price_digits: 8,
        spread_med_bps: 2,
        spread_mean_bps: 3,
        vol_bps: 4,
        trades_per_min: 5,
        turnover_24h: 6,
        eligible: false,
        reason: "spread_low",
        score: 7,
        active: true,
        bid: 8,
        ask: 9,
        position_qty: 10,
        quote_reason: "ok",
        markout_bps: 11,
        markout_n: 12,
        ref_dev_bps: 13,
    };
    let r = StoreMsg::SymbolStats(s).row(8, &t).unwrap();
    assert_eq!((r.table, r.cells.len(), int_of(&r, "eligible"), int_of(&r, "active")), ("symbol_stats", 16, 0, 1));
    let p = PnlRow {
        ts: 1,
        equity: 2,
        realized: 3,
        fees: 4,
        unrealized: 5,
        gross_exposure: 6,
        open_positions: 7,
        n_fills: 8,
        daily_pnl: 9,
        max_drawdown: 10,
        n_live_orders: 11,
        n_active_symbols: 12,
        halted: true,
    };
    let r = StoreMsg::Pnl(p).row(8, &t).unwrap();
    assert_eq!((r.table, r.cells.len(), int_of(&r, "n_fills"), int_of(&r, "halted")), ("pnl_snapshots", 14, 8, 1));
    let r = StoreMsg::ParamVersion { version: 2, ts: 3 }.row(8, &t).unwrap();
    assert_eq!((r.table, r.action, text(&r, "params_json")), ("param_versions", Action::Replace, "{\"a\":1}".to_string()));
}

#[test]
fn market_data_is_no_row() {
    let q = MdQuote { ts: 1, sym: 0, bid: 1, ask: 2, bid_qty: 3, ask_qty: 4, price_digits: 8 };
    let p = MdPrint { ts: 1, sym: 0, side: 0, price: 1, qty: 2, price_digits: 8 };
    let batch = vec![StoreMsg::MdBbo(q), StoreMsg::MdTrade(p), StoreMsg::MdRef(q), StoreMsg::RunEnd { ended_ts: 1 }];
    let plan = plan_batch(&batch);
    assert_eq!((plan.rows, plan.shutdown), (1, false));
    for m in &batch[0..3] {
        assert!(!m.is_row() && m.row(1, &texts()).is_none());
    }
    let records = md_records(&batch);
    assert_eq!(records, vec![MdEvent::Bbo(q.record()), MdEvent::Trade(p.record()), MdEvent::Ref(q.record())]);
    let plan = plan_batch(&vec![StoreMsg::Shutdown]);
    assert_eq!((plan.rows, plan.shutdown), (0, true));
    assert!(takes_more(1999) && !takes_more(2000));
}

#[test]
fn a_batch_is_tried_five_times() {
    let mut w = WriterState::new();
    w.begin_batch();
    for _ in 0..4 {
        assert_eq!(w.written(false), AfterWrite::Retry);
    }
    assert_eq!(w.written(false), AfterWrite::Drop);
    w.begin_batch();
    assert_eq!(w.written(true), AfterWrite::Written { recovered_after: 5 });
    assert_eq!(w.written(true), AfterWrite::Written { recovered_after: 0 });
    assert!(w.reports_md_error(60_001));
    assert!(!w.reports_md_error(120_001));
    assert!(w.reports_md_error(120_002));
}

#[test]
fn prices_and_quantities_carry_their_digits() {
    let r = StoreMsg::Fill { fill: fill(), symbol: "A".to_string(), price_digits: 13, realized: 0 }.row(1, &texts()).unwrap();
    let places = |column: &str| match r.cells.iter().find(|c| c.0 == column) {
        Some((_, Cell::Num(_, p))) => *p,
        _ => panic!("no number {column}"),
    };
    assert_eq!((places("price"), places("bid"), places("mid_at_place")), (13, 13, 13));
    assert_eq!((places("qty"), places("queue_ahead_initial"), places("inventory_before")), (3, 3, 3));
    assert_eq!(places("spread_bps_at_place"), 8);
}

#[test]
fn statements_name_their_columns() {
    let t = texts();
    let r = StoreMsg::RunStart { started_ts: 3, mode: "live".to_string() }.row(8, &t).unwrap();
    assert_eq!(
        r.statement(),
        "INSERT OR REPLACE INTO runs(run_id, started_ts, mode, config_json, symbols_json) VALUES (?1, ?2, ?3, ?4, ?5)"
    );
    let r = StoreMsg::RunEnd { ended_ts: 4 }.row(8, &t).unwrap();
    assert_eq!(r.statement(), "UPDATE runs SET ended_ts = ?2 WHERE run_id = ?1");
    let e = StoreMsg::Event { ts: 6, level: "info", note: Note::Feed { conn: 0, msg: "x".to_string() } };
    assert_eq!(e.row(1, &t).unwrap().statement(), "INSERT INTO events(run_id, ts, level, msg) VALUES (?1, ?2, ?3, ?4)");
    let r = StoreMsg::Fill { fill: fill(), symbol: "A".to_string(), price_digits: 8, realized: 0 }.row(1, &t).unwrap();
    assert_eq!(
        r.statement(),
        "INSERT INTO fills(run_id, order_id, symbol, side, price, qty, fee, ts, is_maker, purpose, bid, ask, placed_ts, mid_at_place, spread_bps_at_place, queue_ahead_initial, inventory_before, param_version, realized_pnl) \
         VALUES (?1, ?2, ?3, ?4, ?5, ?6, ?7, ?8, ?9, ?10, ?11, ?12, ?13, ?14, ?15, ?16, ?17, ?18, ?19)"
    );
}
