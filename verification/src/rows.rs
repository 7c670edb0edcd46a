//! The database row that each message becomes: the table, how the row enters it, and the value of
//! each column.

use vstd::prelude::*;
use crate::bytes::{signed_of, to_signed};
use crate::store::{PnlRow, StoreMsg, SymbolStatsRow};
use crate::types::{Fill, OrderDone};
use crate::units::{places_of_price, places_of_qty, price_places, qty_places};

verus! {

/// A value in a row.
#[derive(Clone, Debug)]
pub enum Cell {
    Int(i64),
    /// A number and its fractional digits.
    Num(i64, u32),
    /// Sixteen fractional digits.
    Money(i128),
    Text(String),
}

pub enum CellView {
    Int(int),
    Num(int, int),
    Money(int),
    Text(Seq<char>),
}

impl View for Cell {
    type V = CellView;

    open spec fn view(&self) -> CellView {
        match self {
            Cell::Int(x) => CellView::Int(*x as int),
            Cell::Num(x, places) => CellView::Num(*x as int, *places as int),
            Cell::Money(x) => CellView::Money(*x as int),
            Cell::Text(t) => CellView::Text(t@),
        }
    }
}

/// How a row enters its table.
#[derive(Clone, Copy, Debug, PartialEq, Eq, Structural)]
pub enum Action {
    Insert,
    /// In place of a row with the same key.
    Replace,
    /// The other columns are set where the first one has its value.
    Update,
}

#[derive(Debug)]
pub struct Row {
    pub table: &'static str,
    pub action: Action,
    pub cells: Vec<(&'static str, Cell)>,
}

pub struct RowView {
    pub table: Seq<char>,
    pub action: Action,
    pub cells: Seq<(Seq<char>, CellView)>,
}

pub open spec fn cells_view(c: Seq<(&'static str, Cell)>) -> Seq<(Seq<char>, CellView)> {
    c.map_values(|x: (&'static str, Cell)| (x.0@, x.1@))
}

impl View for Row {
    type V = RowView;

    open spec fn view(&self) -> RowView {
        RowView { table: self.table@, action: self.action, cells: cells_view(self.cells@) }
    }
}

/// What a message says in words, or in JSON.
#[derive(Clone, Debug)]
pub struct Texts {
    pub config_json: String,
    pub symbols_json: String,
    pub params_json: String,
    pub message: String,
}

pub open spec fn price_cell(x: i64, digits: u32) -> CellView {
    CellView::Num(x as int, price_places(digits) as int)
}

pub open spec fn qty_cell(x: i64, digits: u32) -> CellView {
    CellView::Num(x as int, qty_places(digits) as int)
}

pub open spec fn flag(b: bool) -> int {
    if b {
        1
    } else {
        0
    }
}

impl Row {
    fn new(table: &'static str, action: Action) -> (r: Row)
        ensures
            r.table@ == table@,
            r.action == action,
            cells_view(r.cells@) == Seq::<(Seq<char>, CellView)>::empty(),
    {
        let r: Row = Row { table, action, cells: Vec::new() };
        assert(cells_view(r.cells@) =~= Seq::<(Seq<char>, CellView)>::empty());
        r
    }

    fn put(&mut self, column: &'static str, c: Cell)
        ensures
            final(self).table == old(self).table,
            final(self).action == old(self).action,
            cells_view(final(self).cells@) == cells_view(old(self).cells@).push((column@, c@)),
    {
        self.cells.push((column, c));
        assert(cells_view(self.cells@) =~= cells_view(old(self).cells@).push((column@, c@)));
    }

    fn put_int(&mut self, column: &'static str, x: i64)
        ensures
            final(self).table == old(self).table,
            final(self).action == old(self).action,
            cells_view(final(self).cells@) == cells_view(old(self).cells@).push((column@, CellView::Int(x as int))),
    {
        self.put(column, Cell::Int(x));
    }

    /// A number that is never negative, in the column's signed type.
    fn put_count(&mut self, column: &'static str, x: u64)
        ensures
            final(self).table == old(self).table,
            final(self).action == old(self).action,
            cells_view(final(self).cells@) == cells_view(old(self).cells@).push((column@, CellView::Int(signed_of(x as int)))),
    {
        self.put(column, Cell::Int(to_signed(x)));
    }

    fn put_num(&mut self, column: &'static str, x: i64)
        ensures
            final(self).table == old(self).table,
            final(self).action == old(self).action,
            cells_view(final(self).cells@) == cells_view(old(self).cells@).push((column@, CellView::Num(x as int, 8))),
    {
        self.put(column, Cell::Num(x, 8));
    }

    /// A price, with the digits that the instrument's prices have.
    fn put_price(&mut self, column: &'static str, x: i64, digits: u32)
        ensures
            final(self).table == old(self).table,
            final(self).action == old(self).action,
            cells_view(final(self).cells@) == cells_view(old(self).cells@).push((column@, price_cell(x, digits))),
    {
        self.put(column, Cell::Num(x, places_of_price(digits)));
    }

    /// A quantity, with the digits that the instrument's quantities have.
    fn put_qty(&mut self, column: &'static str, x: i64, digits: u32)
        ensures
            final(self).table == old(self).table,
            final(self).action == old(self).action,
            cells_view(final(self).cells@) == cells_view(old(self).cells@).push((column@, qty_cell(x, digits))),
    {
        self.put(column, Cell::Num(x, places_of_qty(digits)));
    }

    fn put_money(&mut self, column: &'static str, x: i128)
        ensures
            final(self).table == old(self).table,
            final(self).action == old(self).action,
            cells_view(final(self).cells@) == cells_view(old(self).cells@).push((column@, CellView::Money(x as int))),
    {
        self.put(column, Cell::Money(x));
    }

    fn put_text(&mut self, column: &'static str, x: &str)
        ensures
            final(self).table == old(self).table,
            final(self).action == old(self).action,
            cells_view(final(self).cells@) == cells_view(old(self).cells@).push((column@, CellView::Text(x@))),
    {
        self.put(column, Cell::Text(x.to_owned()));
    }

    fn put_flag(&mut self, column: &'static str, x: bool)
        ensures
            final(self).table == old(self).table,
            final(self).action == old(self).action,
            cells_view(final(self).cells@) == cells_view(old(self).cells@).push((column@, CellView::Int(flag(x)))),
    {
        self.put(
            column,
            Cell::Int(
                if x {
                    1
                } else {
                    0
                },
            ),
        );
    }
}

pub open spec fn fill_cells(run_id: i64, f: Fill, symbol: Seq<char>, digits: u32, realized: i128) -> Seq<(Seq<char>, CellView)> {
    seq![
        ("run_id"@, CellView::Int(run_id as int)),
        ("order_id"@, CellView::Int(signed_of(f.order_id as int))),
        ("symbol"@, CellView::Text(symbol)),
        ("side"@, CellView::Text(f.side.spec_as_str()@)),
        ("price"@, price_cell(f.price, digits)),
        ("qty"@, qty_cell(f.qty, digits)),
        ("fee"@, CellView::Money(f.fee as int)),
        ("ts"@, CellView::Int(f.ts as int)),
        ("is_maker"@, CellView::Int(flag(f.is_maker))),
        ("purpose"@, CellView::Text(f.purpose.spec_as_str()@)),
        ("bid"@, price_cell(f.bid, digits)),
        ("ask"@, price_cell(f.ask, digits)),
        ("placed_ts"@, CellView::Int(f.placed_ts as int)),
        ("mid_at_place"@, price_cell(f.mid_at_place, digits)),
        ("spread_bps_at_place"@, CellView::Num(f.spread_bps_at_place as int, 8)),
        ("queue_ahead_initial"@, qty_cell(f.queue_ahead_initial, digits)),
        ("inventory_before"@, qty_cell(f.inventory_before, digits)),
        ("param_version"@, CellView::Int(f.param_version as int)),
        ("realized_pnl"@, CellView::Money(realized as int)),
    ]
}

fn fill_row(run_id: i64, f: &Fill, symbol: &str, digits: u32, realized: i128) -> (r: Row)
    ensures
        r@ == (RowView { table: "fills"@, action: Action::Insert, cells: fill_cells(run_id, *f, symbol@, digits, realized) }),
{
    let mut r: Row = Row::new("fills", Action::Insert);
    r.put_int("run_id", run_id);
    r.put_count("order_id", f.order_id);
    r.put_text("symbol", symbol);
    r.put_text("side", f.side.as_str());
    r.put_price("price", f.price, digits);
    r.put_qty("qty", f.qty, digits);
    r.put_money("fee", f.fee);
    r.put_int("ts", f.ts);
    r.put_flag("is_maker", f.is_maker);
    r.put_text("purpose", f.purpose.as_str());
    r.put_price("bid", f.bid, digits);
    r.put_price("ask", f.ask, digits);
    r.put_int("placed_ts", f.placed_ts);
    r.put_price("mid_at_place", f.mid_at_place, digits);
    r.put_num("spread_bps_at_place", f.spread_bps_at_place);
    r.put_qty("queue_ahead_initial", f.queue_ahead_initial, digits);
    r.put_qty("inventory_before", f.inventory_before, digits);
    r.put_int("param_version", f.param_version as i64);
    r.put_money("realized_pnl", realized);
    assert(cells_view(r.cells@) =~= fill_cells(run_id, *f, symbol@, digits, realized));
    r
}

pub open spec fn order_cells(run_id: i64, o: OrderDone, symbol: Seq<char>, digits: u32) -> Seq<(Seq<char>, CellView)> {
    seq![
        ("run_id"@, CellView::Int(run_id as int)),
        ("order_id"@, CellView::Int(signed_of(o.order_id as int))),
        ("symbol"@, CellView::Text(symbol)),
        ("side"@, CellView::Text(o.side.spec_as_str()@)),
        ("price"@, price_cell(o.price, digits)),
        ("qty"@, qty_cell(o.qty, digits)),
        ("filled"@, qty_cell(o.filled, digits)),
        ("ts_created"@, CellView::Int(o.ts_created as int)),
        ("ts_done"@, CellView::Int(o.ts_done as int)),
        ("status"@, CellView::Text(o.status@)),
        ("purpose"@, CellView::Text(o.purpose.spec_as_str()@)),
        ("queue_ahead_initial"@, qty_cell(o.queue_ahead_initial, digits)),
        ("spread_bps_at_place"@, CellView::Num(o.spread_bps_at_place as int, 8)),
        ("param_version"@, CellView::Int(o.param_version as int)),
    ]
}

fn order_row(run_id: i64, o: &OrderDone, symbol: &str, digits: u32) -> (r: Row)
    ensures
        r@ == (RowView { table: "orders"@, action: Action::Insert, cells: order_cells(run_id, *o, symbol@, digits) }),
{
    let mut r: Row = Row::new("orders", Action::Insert);
    r.put_int("run_id", run_id);
    r.put_count("order_id", o.order_id);
    r.put_text("symbol", symbol);
    r.put_text("side", o.side.as_str());
    r.put_price("price", o.price, digits);
    r.put_qty("qty", o.qty, digits);
    r.put_qty("filled", o.filled, digits);
    r.put_int("ts_created", o.ts_created);
    r.put_int("ts_done", o.ts_done);
    r.put_text("status", o.status);
    r.put_text("purpose", o.purpose.as_str());
    r.put_qty("queue_ahead_initial", o.queue_ahead_initial, digits);
    r.put_num("spread_bps_at_place", o.spread_bps_at_place);
    r.put_int("param_version", o.param_version as i64);
    assert(cells_view(r.cells@) =~= order_cells(run_id, *o, symbol@, digits));
    r
}

pub open spec fn stats_cells(run_id: i64, s: SymbolStatsRow) -> Seq<(Seq<char>, CellView)> {
    seq![
        ("run_id"@, CellView::Int(run_id as int)),
        ("ts"@, CellView::Int(s.ts as int)),
        ("symbol"@, CellView::Text(s.symbol@)),
        ("spread_med_bps"@, CellView::Num(s.spread_med_bps as int, 8)),
        ("spread_mean_bps"@, CellView::Num(s.spread_mean_bps as int, 8)),
        ("vol_bps"@, CellView::Num(s.vol_bps as int, 8)),
        ("trades_per_min"@, CellView::Num(s.trades_per_min as int, 8)),
        ("turnover_24h"@, CellView::Num(s.turnover_24h as int, 8)),
        ("eligible"@, CellView::Int(flag(s.eligible))),
        ("reason"@, CellView::Text(s.reason@)),
        ("score"@, CellView::Num(s.score as int, 8)),
        ("active"@, CellView::Int(flag(s.active))),
        ("bid"@, price_cell(s.bid, s.price_digits)),
        ("ask"@, price_cell(s.ask, s.price_digits)),
        ("position_qty"@, qty_cell(s.position_qty, s.price_digits)),
        ("quote_reason"@, CellView::Text(s.quote_reason@)),
    ]
}

fn stats_row(run_id: i64, s: &SymbolStatsRow) -> (r: Row)
    ensures
        r@ == (RowView { table: "symbol_stats"@, action: Action::Insert, cells: stats_cells(run_id, *s) }),
{
    let mut r: Row = Row::new("symbol_stats", Action::Insert);
    r.put_int("run_id", run_id);
    r.put_int("ts", s.ts);
    r.put_text("symbol", s.symbol.as_str());
    r.put_num("spread_med_bps", s.spread_med_bps);
    r.put_num("spread_mean_bps", s.spread_mean_bps);
    r.put_num("vol_bps", s.vol_bps);
    r.put_num("trades_per_min", s.trades_per_min);
    r.put_num("turnover_24h", s.turnover_24h);
    r.put_flag("eligible", s.eligible);
    r.put_text("reason", s.reason);
    r.put_num("score", s.score);
    r.put_flag("active", s.active);
    r.put_price("bid", s.bid, s.price_digits);
    r.put_price("ask", s.ask, s.price_digits);
    r.put_qty("position_qty", s.position_qty, s.price_digits);
    r.put_text("quote_reason", s.quote_reason);
    assert(cells_view(r.cells@) =~= stats_cells(run_id, *s));
    r
}

pub open spec fn pnl_cells(run_id: i64, p: PnlRow) -> Seq<(Seq<char>, CellView)> {
    seq![
        ("run_id"@, CellView::Int(run_id as int)),
        ("ts"@, CellView::Int(p.ts as int)),
        ("equity"@, CellView::Money(p.equity as int)),
        ("realized"@, CellView::Money(p.realized as int)),
        ("fees"@, CellView::Money(p.fees as int)),
        ("unrealized"@, CellView::Money(p.unrealized as int)),
        ("gross_exposure"@, CellView::Money(p.gross_exposure as int)),
        ("open_positions"@, CellView::Int(signed_of(p.open_positions as int))),
        ("n_fills"@, CellView::Int(signed_of(p.n_fills as int))),
        ("daily_pnl"@, CellView::Money(p.daily_pnl as int)),
        ("max_drawdown"@, CellView::Money(p.max_drawdown as int)),
        ("n_live_orders"@, CellView::Int(signed_of(p.n_live_orders as int))),
        ("n_active_symbols"@, CellView::Int(signed_of(p.n_active_symbols as int))),
        ("halted"@, CellView::Int(flag(p.halted))),
    ]
}

fn pnl_row(run_id: i64, p: &PnlRow) -> (r: Row)
    ensures
        r@ == (RowView { table: "pnl_snapshots"@, action: Action::Insert, cells: pnl_cells(run_id, *p) }),
{
    let mut r: Row = Row::new("pnl_snapshots", Action::Insert);
    r.put_int("run_id", run_id);
    r.put_int("ts", p.ts);
    r.put_money("equity", p.equity);
    r.put_money("realized", p.realized);
    r.put_money("fees", p.fees);
    r.put_money("unrealized", p.unrealized);
    r.put_money("gross_exposure", p.gross_exposure);
    r.put_count("open_positions", p.open_positions as u64);
    r.put_count("n_fills", p.n_fills);
    r.put_money("daily_pnl", p.daily_pnl);
    r.put_money("max_drawdown", p.max_drawdown);
    r.put_count("n_live_orders", p.n_live_orders as u64);
    r.put_count("n_active_symbols", p.n_active_symbols as u64);
    r.put_flag("halted", p.halted);
    assert(cells_view(r.cells@) =~= pnl_cells(run_id, *p));
    r
}

/// The row of a message; market data and the order to stop have none.
pub open spec fn row_of(m: StoreMsg, run_id: i64, t: Texts) -> Option<RowView> {
    match m {
        StoreMsg::RunStart { started_ts, mode } => Some(
            RowView {
                table: "runs"@,
                action: Action::Replace,
                cells: seq![
                    ("run_id"@, CellView::Int(run_id as int)),
                    ("started_ts"@, CellView::Int(started_ts as int)),
                    ("mode"@, CellView::Text(mode@)),
                    ("config_json"@, CellView::Text(t.config_json@)),
                    ("symbols_json"@, CellView::Text(t.symbols_json@)),
                ],
            },
        ),
        StoreMsg::RunEnd { ended_ts } => Some(
            RowView {
                table: "runs"@,
                action: Action::Update,
                cells: seq![("run_id"@, CellView::Int(run_id as int)), ("ended_ts"@, CellView::Int(ended_ts as int))],
            },
        ),
        StoreMsg::Fill { fill, symbol, price_digits, realized } => Some(
            RowView { table: "fills"@, action: Action::Insert, cells: fill_cells(run_id, fill, symbol@, price_digits, realized) },
        ),
        StoreMsg::OrderDone { done, symbol, price_digits } => Some(
            RowView { table: "orders"@, action: Action::Insert, cells: order_cells(run_id, done, symbol@, price_digits) },
        ),
        StoreMsg::PositionState { symbol, price_digits, qty, avg_price, realized_pnl, fees, opened_ts, last_mid, updated_ts } => Some(
            RowView {
                table: "position_state"@,
                action: Action::Replace,
                cells: seq![
                    ("run_id"@, CellView::Int(run_id as int)),
                    ("symbol"@, CellView::Text(symbol@)),
                    ("qty"@, qty_cell(qty, price_digits)),
                    ("avg_price"@, price_cell(avg_price, price_digits)),
                    ("realized_pnl"@, CellView::Money(realized_pnl as int)),
                    ("fees"@, CellView::Money(fees as int)),
                    ("opened_ts"@, CellView::Int(opened_ts as int)),
                    ("last_mid"@, price_cell(last_mid, price_digits)),
                    ("updated_ts"@, CellView::Int(updated_ts as int)),
                ],
            },
        ),
        StoreMsg::SymbolStats(s) => Some(RowView { table: "symbol_stats"@, action: Action::Insert, cells: stats_cells(run_id, s) }),
        StoreMsg::Pnl(p) => Some(RowView { table: "pnl_snapshots"@, action: Action::Insert, cells: pnl_cells(run_id, p) }),
        StoreMsg::Event { ts, level, note: _ } => Some(
            RowView {
                table: "events"@,
                action: Action::Insert,
                cells: seq![
                    ("run_id"@, CellView::Int(run_id as int)),
                    ("ts"@, CellView::Int(ts as int)),
                    ("level"@, CellView::Text(level@)),
                    ("msg"@, CellView::Text(t.message@)),
                ],
            },
        ),
        StoreMsg::ParamVersion { version, ts } => Some(
            RowView {
                table: "param_versions"@,
                action: Action::Replace,
                cells: seq![
                    ("run_id"@, CellView::Int(run_id as int)),
                    ("version"@, CellView::Int(version as int)),
                    ("ts"@, CellView::Int(ts as int)),
                    ("params_json"@, CellView::Text(t.params_json@)),
                ],
            },
        ),
        StoreMsg::MdBbo(_) | StoreMsg::MdTrade(_) | StoreMsg::MdRef(_) | StoreMsg::Shutdown => None,
    }
}

impl StoreMsg {
    pub fn row(&self, run_id: i64, t: &Texts) -> (r: Option<Row>)
        ensures
            match r {
                Some(x) => row_of(*self, run_id, *t) == Some(x@),
                None => row_of(*self, run_id, *t) is None,
            },
    {
        match self {
            StoreMsg::RunStart { started_ts, mode } => {
                let mut r: Row = Row::new("runs", Action::Replace);
                r.put_int("run_id", run_id);
                r.put_int("started_ts", *started_ts);
                r.put_text("mode", mode.as_str());
                r.put_text("config_json", t.config_json.as_str());
                r.put_text("symbols_json", t.symbols_json.as_str());
                assert(row_of(*self, run_id, *t)->0.cells =~= cells_view(r.cells@));
                Some(r)
            },
            StoreMsg::RunEnd { ended_ts } => {
                let mut r: Row = Row::new("runs", Action::Update);
                r.put_int("run_id", run_id);
                r.put_int("ended_ts", *ended_ts);
                assert(row_of(*self, run_id, *t)->0.cells =~= cells_view(r.cells@));
                Some(r)
            },
            StoreMsg::Fill { fill, symbol, price_digits, realized } => Some(fill_row(run_id, fill, symbol.as_str(), *price_digits, *realized)),
            StoreMsg::OrderDone { done, symbol, price_digits } => Some(order_row(run_id, done, symbol.as_str(), *price_digits)),
            StoreMsg::PositionState { symbol, price_digits, qty, avg_price, realized_pnl, fees, opened_ts, last_mid, updated_ts } => {
                let mut r: Row = Row::new("position_state", Action::Replace);
                r.put_int("run_id", run_id);
                r.put_text("symbol", symbol.as_str());
                r.put_qty("qty", *qty, *price_digits);
                r.put_price("avg_price", *avg_price, *price_digits);
                r.put_money("realized_pnl", *realized_pnl);
                r.put_money("fees", *fees);
                r.put_int("opened_ts", *opened_ts);
                r.put_price("last_mid", *last_mid, *price_digits);
                r.put_int("updated_ts", *updated_ts);
                assert(row_of(*self, run_id, *t)->0.cells =~= cells_view(r.cells@));
                Some(r)
            },
            StoreMsg::SymbolStats(s) => Some(stats_row(run_id, s)),
            StoreMsg::Pnl(p) => Some(pnl_row(run_id, p)),
            StoreMsg::Event { ts, level, note: _ } => {
                let mut r: Row = Row::new("events", Action::Insert);
                r.put_int("run_id", run_id);
                r.put_int("ts", *ts);
                r.put_text("level", level);
                r.put_text("msg", t.message.as_str());
                assert(row_of(*self, run_id, *t)->0.cells =~= cells_view(r.cells@));
                Some(r)
            },
            StoreMsg::ParamVersion { version, ts } => {
                let mut r: Row = Row::new("param_versions", Action::Replace);
                r.put_int("run_id", run_id);
                r.put_int("version", *version as i64);
                r.put_int("ts", *ts);
                r.put_text("params_json", t.params_json.as_str());
                assert(row_of(*self, run_id, *t)->0.cells =~= cells_view(r.cells@));
                Some(r)
            },
            StoreMsg::MdBbo(_) | StoreMsg::MdTrade(_) | StoreMsg::MdRef(_) | StoreMsg::Shutdown => None,
        }
    }
}

/// The messages that have a row are exactly those that are counted as rows, and every row starts
/// with the run that it belongs to.
pub proof fn law_rows(m: StoreMsg, run_id: i64, t: Texts)
    ensures
        row_of(m, run_id, t) is Some <==> m.spec_is_row(),
        row_of(m, run_id, t) matches Some(r) ==> r.cells.len() > 0 && r.cells[0] == ("run_id"@, CellView::Int(run_id as int)),
{
}

} // verus!
