use rusqlite::types::Value;
use rusqlite::Connection;
use spr_core::bits::bits_of_fixed;
use spr_core::rows::{Cell, Texts};
use spr_core::store::{Note, StoreMsg};
use spr_core::types::{Fill, Purpose, Side};

fn d(x: f64) -> i64 {
    (x * 1e8).round() as i64
}

const SCHEMA: &str = "
CREATE TABLE runs (run_id INTEGER PRIMARY KEY, started_ts INTEGER NOT NULL, ended_ts INTEGER, mode TEXT NOT NULL, config_json TEXT, symbols_json TEXT);
CREATE TABLE fills (id INTEGER PRIMARY KEY AUTOINCREMENT, run_id INTEGER NOT NULL, order_id INTEGER NOT NULL, symbol TEXT NOT NULL, side TEXT NOT NULL,
    price REAL NOT NULL, qty REAL NOT NULL, fee REAL NOT NULL, ts INTEGER NOT NULL, is_maker INTEGER NOT NULL, purpose TEXT NOT NULL, bid REAL, ask REAL,
    placed_ts INTEGER, mid_at_place REAL, spread_bps_at_place REAL, queue_ahead_initial REAL, inventory_before REAL, param_version INTEGER, realized_pnl REAL);
CREATE TABLE position_state (run_id INTEGER NOT NULL, symbol TEXT NOT NULL, qty REAL, avg_price REAL, realized_pnl REAL, fees REAL, opened_ts INTEGER,
    last_mid REAL, updated_ts INTEGER, PRIMARY KEY (run_id, symbol));
CREATE TABLE events (id INTEGER PRIMARY KEY AUTOINCREMENT, run_id INTEGER NOT NULL, ts INTEGER NOT NULL, level TEXT NOT NULL, msg TEXT NOT NULL);
CREATE TABLE param_versions (run_id INTEGER NOT NULL, version INTEGER NOT NULL, ts INTEGER NOT NULL, params_json TEXT NOT NULL, PRIMARY KEY (run_id, version));
";

fn open() -> Connection {
    let conn = Connection::open_in_memory().unwrap();
    conn.execute_batch(SCHEMA).unwrap();
    conn
}

fn write(conn: &Connection, m: StoreMsg, message: &str) {
    let texts = Texts { config_json: "{}".to_string(), symbols_json: "[]".to_string(), params_json: "{}".to_string(), message: message.to_string() };
    let row = m.row(1, &texts).unwrap();
    let sql = row.statement();
    let values: Vec<Value> = row
        .cells
        .into_iter()
        .map(|(_, c)| match c {
            Cell::Int(x) => Value::Integer(x),
            Cell::Num(x, places) => Value::Real(f64::from_bits(bits_of_fixed(x, places))),
            Cell::Money(x) => Value::Real(x as f64 / 1e16),
            Cell::Text(t) => Value::Text(t),
        })
        .collect();
    conn.execute(&sql, rusqlite::params_from_iter(values)).unwrap();
}

fn fill() -> Fill {
    Fill {
        order_id: 9,
        sym: 0,
        side: Side::Buy,
        price: d(1.0),
        qty: d(2.0),
        fee: d(0.0004) as i128 * 100_000_000,
        ts: 5,
        is_maker: true,
        purpose: Purpose::Entry,
        bid: d(1.0),
        ask: d(1.01),
        placed_ts: 1,
        mid_at_place: d(1.005),
        spread_bps_at_place: d(10.0),
        queue_ahead_initial: d(3.0),
        inventory_before: 0,
        param_version: 1,
        price_digits: 8,
    }
}

fn event(ts: i64) -> StoreMsg {
    StoreMsg::Event { ts, level: "info", note: Note::Feed { conn: 0, msg: "x".to_string() } }
}

fn position(symbol: &str, qty: f64) -> StoreMsg {
    StoreMsg::PositionState {
        symbol: symbol.to_string(),
        price_digits: 8,
        qty: d(qty),
        avg_price: d(1.5),
        realized_pnl: 0,
        fees: 0,
        opened_ts: 0,
        last_mid: d(1.5),
        updated_ts: 7,
    }
}

#[test]
fn writes_fill_and_event() {
    let conn = open();
    write(&conn, StoreMsg::RunStart { started_ts: 1, mode: "test".to_string() }, "");
    write(&conn, StoreMsg::Fill { fill: fill(), symbol: "AUSDT".to_string(), price_digits: 8, realized: 0 }, "");
    write(&conn, event(6), "hello");
    let n: i64 = conn.query_row("SELECT count(*) FROM fills WHERE symbol='AUSDT' AND run_id=1", [], |r| r.get(0)).unwrap();
    assert_eq!(n, 1);
    let m: String = conn.query_row("SELECT msg FROM events", [], |r| r.get(0)).unwrap();
    assert_eq!(m, "hello");
    let (price, qty, fee, ask): (f64, f64, f64, f64) =
        conn.query_row("SELECT price, qty, fee, ask FROM fills", [], |r| Ok((r.get(0)?, r.get(1)?, r.get(2)?, r.get(3)?))).unwrap();
    assert_eq!((price, qty, fee, ask), (1.0, 2.0, 0.0004, 1.01));
}

#[test]
fn tables_hold_what_the_rows_make_of_them() {
    let conn = open();
    let count = |table: &str| -> i64 { conn.query_row(&format!("SELECT count(*) FROM {table}"), [], |r| r.get(0)).unwrap() };
    // the end of a run that has not started sets nothing
    write(&conn, StoreMsg::RunEnd { ended_ts: 3 }, "");
    assert_eq!(count("runs"), 0);
    write(&conn, StoreMsg::RunStart { started_ts: 1, mode: "live".to_string() }, "");
    write(&conn, StoreMsg::RunStart { started_ts: 2, mode: "live".to_string() }, "");
    write(&conn, StoreMsg::RunEnd { ended_ts: 9 }, "");
    assert_eq!(count("runs"), 1);
    let run: (i64, i64) = conn.query_row("SELECT started_ts, ended_ts FROM runs", [], |r| Ok((r.get(0)?, r.get(1)?))).unwrap();
    assert_eq!(run, (2, 9));
    // one row per symbol, the last one
    for (symbol, qty) in [("A", 1.0), ("B", 2.0), ("A", -3.5)] {
        write(&conn, position(symbol, qty), "");
    }
    assert_eq!(count("position_state"), 2);
    let q: f64 = conn.query_row("SELECT qty FROM position_state WHERE symbol='A'", [], |r| r.get(0)).unwrap();
    assert_eq!(q, -3.5);
    // one row per version
    for (version, ts) in [(1u32, 10i64), (2, 20), (2, 30)] {
        write(&conn, StoreMsg::ParamVersion { version, ts }, "");
    }
    assert_eq!(count("param_versions"), 2);
    let ts: i64 = conn.query_row("SELECT ts FROM param_versions WHERE version=2", [], |r| r.get(0)).unwrap();
    assert_eq!(ts, 30);
    // one row more per event, in order
    for ts in [5i64, 4, 6] {
        write(&conn, event(ts), "e");
    }
    let all: String = conn.query_row("SELECT group_concat(ts) FROM (SELECT ts FROM events ORDER BY id)", [], |r| r.get(0)).unwrap();
    assert_eq!(all, "5,4,6");
}
