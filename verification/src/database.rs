//! What the rows of a run make of the tables they enter, and the statements that enter them.

use vstd::prelude::*;
use crate::rows::{row_of, Action, Cell, CellView, Row, RowView, Texts};
use crate::store::StoreMsg;

verus! {

/// The cells of a row, each with the name of its column.
pub type Cells = Seq<(Seq<char>, CellView)>;

// ------------------------------------------------------------------------------
// Tables
// ------------------------------------------------------------------------------

/// How many of a row's first columns are the key of its table; none where every row gets a number of
/// its own.
pub open spec fn key_columns(table: Seq<char>) -> nat {
    if table == "runs"@ {
        1
    } else if table == "position_state"@ || table == "param_versions"@ {
        2
    } else {
        0
    }
}

/// The row starts with these cells.
pub open spec fn has_key(row: Cells, key: Cells) -> bool {
    row.len() >= key.len() && row.take(key.len() as int) == key
}

/// The rows that start with the key, in their order.
pub open spec fn rows_with(rows: Seq<Cells>, key: Cells) -> Seq<Cells>
    decreases rows.len(),
{
    if rows.len() == 0 {
        Seq::empty()
    } else {
        let r = rows_with(rows.drop_last(), key);
        if has_key(rows.last(), key) {
            r.push(rows.last())
        } else {
            r
        }
    }
}

/// The rows that do not start with the key.
pub open spec fn rows_without(rows: Seq<Cells>, key: Cells) -> Seq<Cells>
    decreases rows.len(),
{
    if rows.len() == 0 {
        Seq::empty()
    } else {
        let r = rows_without(rows.drop_last(), key);
        if has_key(rows.last(), key) {
            r
        } else {
            r.push(rows.last())
        }
    }
}

/// The row with its other columns set from the cells behind the first one.
pub open spec fn with_columns(row: Cells, cells: Cells) -> Cells
    decreases cells.len(),
{
    if cells.len() <= 1 {
        row
    } else {
        with_column(with_columns(row, cells.drop_last()), cells.last())
    }
}

/// The place of the column among the first `n` cells.
pub open spec fn column_at(row: Cells, column: Seq<char>, n: nat) -> Option<int>
    decreases n,
{
    if n == 0 {
        None
    } else if row[n - 1].0 == column {
        Some(n - 1)
    } else {
        column_at(row, column, (n - 1) as nat)
    }
}

/// The row with one column set; a column that had no value gets one.
pub open spec fn with_column(row: Cells, cell: (Seq<char>, CellView)) -> Cells {
    match column_at(row, cell.0, row.len()) {
        Some(i) => row.update(i, cell),
        None => row.push(cell),
    }
}

/// The rows with the columns set in those that start with the first cell.
pub open spec fn rows_updated(rows: Seq<Cells>, cells: Cells) -> Seq<Cells> {
    rows.map_values(
        |r: Cells|
            if has_key(r, cells.take(1)) {
                with_columns(r, cells)
            } else {
                r
            },
    )
}

/// A table after a row has entered it.
pub open spec fn entered(rows: Seq<Cells>, r: RowView) -> Seq<Cells> {
    match r.action {
        Action::Insert => rows.push(r.cells),
        Action::Replace => rows_without(rows, r.cells.take(key_columns(r.table) as int)).push(r.cells),
        Action::Update => rows_updated(rows, r.cells),
    }
}

/// A message with its words.
pub struct Worded {
    pub msg: StoreMsg,
    pub texts: Texts,
}

impl Worded {
    pub open spec fn row(&self, run_id: i64) -> Option<RowView> {
        row_of(self.msg, run_id, self.texts)
    }

    /// The row of the message, if it is one of this table.
    pub open spec fn row_in(&self, run_id: i64, table: Seq<char>) -> Option<RowView> {
        match self.row(run_id) {
            Some(r) => if r.table == table {
                Some(r)
            } else {
                None
            },
            None => None,
        }
    }
}

/// What the table holds after the messages, from what it held before.
pub open spec fn table_after(table: Seq<char>, rows: Seq<Cells>, ms: Seq<Worded>, run_id: i64) -> Seq<Cells>
    decreases ms.len(),
{
    if ms.len() == 0 {
        rows
    } else {
        let t = table_after(table, rows, ms.drop_last(), run_id);
        match ms.last().row_in(run_id, table) {
            Some(r) => entered(t, r),
            None => t,
        }
    }
}

/// The rows that the messages have for the table, in their order.
pub open spec fn rows_for(table: Seq<char>, ms: Seq<Worded>, run_id: i64) -> Seq<Cells>
    decreases ms.len(),
{
    if ms.len() == 0 {
        Seq::empty()
    } else {
        let r = rows_for(table, ms.drop_last(), run_id);
        match ms.last().row_in(run_id, table) {
            Some(x) => r.push(x.cells),
            None => r,
        }
    }
}

/// The last row that the messages have for the table under the key.
pub open spec fn last_row(table: Seq<char>, key: Cells, ms: Seq<Worded>, run_id: i64) -> Option<Cells>
    decreases ms.len(),
{
    if ms.len() == 0 {
        None
    } else {
        match ms.last().row_in(run_id, table) {
            Some(x) => if has_key(x.cells, key) {
                Some(x.cells)
            } else {
                last_row(table, key, ms.drop_last(), run_id)
            },
            None => last_row(table, key, ms.drop_last(), run_id),
        }
    }
}

/// The tables to which rows are only ever added.
pub open spec fn only_grows(table: Seq<char>) -> bool {
    table == "fills"@ || table == "orders"@ || table == "symbol_stats"@ || table == "pnl_snapshots"@ || table == "events"@
}

proof fn lemma_table_names()
    ensures
        "runs"@ != "position_state"@,
        "runs"@ != "param_versions"@,
        "position_state"@ != "param_versions"@,
        forall|t: Seq<char>| #[trigger] only_grows(t) ==> t != "runs"@ && t != "position_state"@ && t != "param_versions"@,
        only_grows("fills"@),
        only_grows("orders"@),
        only_grows("symbol_stats"@),
        only_grows("pnl_snapshots"@),
        only_grows("events"@),
{
    reveal_strlit("runs");
    reveal_strlit("position_state");
    reveal_strlit("param_versions");
    reveal_strlit("fills");
    reveal_strlit("orders");
    reveal_strlit("symbol_stats");
    reveal_strlit("pnl_snapshots");
    reveal_strlit("events");
    assert("runs"@.len() == 4 && "position_state"@.len() == 14 && "param_versions"@.len() == 14);
    assert("fills"@.len() == 5 && "orders"@.len() == 6 && "symbol_stats"@.len() == 12 && "pnl_snapshots"@.len() == 13 && "events"@.len() == 6);
    assert("position_state"@[1] != "param_versions"@[1]);
    assert forall|t: Seq<char>| #[trigger] only_grows(t) implies t != "runs"@ && t != "position_state"@ && t != "param_versions"@ by {
        assert(t.len() == 5 || t.len() == 6 || t.len() == 12 || t.len() == 13);
    }
}

/// Fills, orders, statistics, snapshots and events each get one row more per message, in the order of
/// the messages, and lose none.
pub proof fn law_growing_tables(table: Seq<char>, rows: Seq<Cells>, ms: Seq<Worded>, run_id: i64)
    requires
        only_grows(table),
    ensures
        table_after(table, rows, ms, run_id) == rows + rows_for(table, ms, run_id),
    decreases ms.len(),
{
    lemma_table_names();
    if ms.len() == 0 {
        assert(rows + rows_for(table, ms, run_id) =~= rows);
    } else {
        law_growing_tables(table, rows, ms.drop_last(), run_id);
        match ms.last().row_in(run_id, table) {
            Some(r) => {
                let t = rows_for(table, ms.drop_last(), run_id);
                assert(r.action == Action::Insert);
                assert((rows + t).push(r.cells) =~= rows + t.push(r.cells));
            },
            None => {},
        }
    }
}

/// Each message has a row in the table of its kind and in no other; market data and the order to stop
/// have none.
pub proof fn law_one_table_per_message(m: Worded, run_id: i64, table: Seq<char>)
    ensures
        m.row_in(run_id, table) is Some <==> match m.msg {
            StoreMsg::RunStart { .. } | StoreMsg::RunEnd { .. } => table == "runs"@,
            StoreMsg::Fill { .. } => table == "fills"@,
            StoreMsg::OrderDone { .. } => table == "orders"@,
            StoreMsg::PositionState { .. } => table == "position_state"@,
            StoreMsg::SymbolStats(_) => table == "symbol_stats"@,
            StoreMsg::Pnl(_) => table == "pnl_snapshots"@,
            StoreMsg::Event { .. } => table == "events"@,
            StoreMsg::ParamVersion { .. } => table == "param_versions"@,
            StoreMsg::MdBbo(_) | StoreMsg::MdTrade(_) | StoreMsg::MdRef(_) | StoreMsg::Shutdown => false,
        },
{
}

/// Taking out the rows of a key leaves none of them, and the others as they were.
proof fn lemma_without(rows: Seq<Cells>, key: Cells, other: Cells)
    requires
        key.len() == other.len(),
    ensures
        rows_with(rows_without(rows, key), other) == if other == key {
            Seq::empty()
        } else {
            rows_with(rows, other)
        },
    decreases rows.len(),
{
    if rows.len() > 0 {
        lemma_without(rows.drop_last(), key, other);
        let r = rows_without(rows.drop_last(), key);
        if !has_key(rows.last(), key) {
            assert(r.push(rows.last()).drop_last() =~= r);
        }
    }
}

proof fn lemma_with_push(rows: Seq<Cells>, row: Cells, key: Cells)
    ensures
        rows_with(rows.push(row), key) == if has_key(row, key) {
            rows_with(rows, key).push(row)
        } else {
            rows_with(rows, key)
        },
{
    assert(rows.push(row).drop_last() =~= rows);
}

/// Of a symbol's position, and of a version of the parameters, there is one row in the table, the one
/// of the last message; a key that no message has keeps the rows that it had.
pub proof fn law_last_row_stands(table: Seq<char>, rows: Seq<Cells>, ms: Seq<Worded>, run_id: i64, key: Cells)
    requires
        table == "position_state"@ || table == "param_versions"@,
        key.len() == 2,
    ensures
        rows_with(table_after(table, rows, ms, run_id), key) == match last_row(table, key, ms, run_id) {
            Some(c) => seq![c],
            None => rows_with(rows, key),
        },
    decreases ms.len(),
{
    lemma_table_names();
    if ms.len() > 0 {
        law_last_row_stands(table, rows, ms.drop_last(), run_id, key);
        let t = table_after(table, rows, ms.drop_last(), run_id);
        match ms.last().row_in(run_id, table) {
            Some(r) => {
                assert(r.action == Action::Replace);
                assert(r.cells.len() >= 2);
                let k = r.cells.take(2);
                assert(k.len() == 2);
                lemma_without(t, k, key);
                lemma_with_push(rows_without(t, k), r.cells, key);
                if has_key(r.cells, key) {
                    assert(k == key);
                    assert(Seq::<Cells>::empty().push(r.cells) =~= seq![r.cells]);
                }
            },
            None => {},
        }
    }
}

/// The row of a run: what its last start says, with what was set since.
pub open spec fn run_row(ms: Seq<Worded>, run_id: i64) -> Option<Cells>
    decreases ms.len(),
{
    if ms.len() == 0 {
        None
    } else {
        let before = run_row(ms.drop_last(), run_id);
        match ms.last().row_in(run_id, "runs"@) {
            Some(r) => match r.action {
                Action::Update => match before {
                    Some(c) => Some(with_columns(c, r.cells)),
                    None => None,
                },
                _ => Some(r.cells),
            },
            None => before,
        }
    }
}

/// The cell in which every row of a run starts.
pub open spec fn run_key(run_id: i64) -> Cells {
    seq![("run_id"@, CellView::Int(run_id as int))]
}

proof fn lemma_column_at(row: Cells, column: Seq<char>, n: nat)
    ensures
        column_at(row, column, n) matches Some(i) ==> 0 <= i < n && row[i].0 == column,
    decreases n,
{
    if n > 0 && row[n - 1].0 != column {
        lemma_column_at(row, column, (n - 1) as nat);
    }
}

/// Setting another column keeps the first one.
proof fn lemma_with_column(row: Cells, cell: (Seq<char>, CellView))
    requires
        row.len() > 0,
        row[0].0 != cell.0,
    ensures
        with_column(row, cell).len() > 0,
        with_column(row, cell)[0] == row[0],
{
    lemma_column_at(row, cell.0, row.len());
}

/// After the messages of a run there is at most one row of it, exactly one once it has started; that
/// row is what the last start says, with what was set since. Rows of other runs do not matter.
pub proof fn law_one_row_per_run(rows: Seq<Cells>, ms: Seq<Worded>, run_id: i64)
    requires
        rows_with(rows, run_key(run_id)).len() == 0,
    ensures
        rows_with(table_after("runs"@, rows, ms, run_id), run_key(run_id)) == match run_row(ms, run_id) {
            Some(c) => seq![c],
            None => Seq::<Cells>::empty(),
        },
        run_row(ms, run_id) matches Some(c) ==> has_key(c, run_key(run_id)),
        run_row(ms, run_id) is Some <==> exists|i: int| 0 <= i < ms.len() && (#[trigger] ms[i]).msg is RunStart,
    decreases ms.len(),
{
    lemma_table_names();
    let key = run_key(run_id);
    if ms.len() > 0 {
        let p = ms.drop_last();
        law_one_row_per_run(rows, p, run_id);
        let t = table_after("runs"@, rows, p, run_id);
        assert forall|i: int| 0 <= i < p.len() implies (#[trigger] p[i]) == ms[i] by {}
        if exists|i: int| 0 <= i < p.len() && (#[trigger] p[i]).msg is RunStart {
            let i = choose|i: int| 0 <= i < p.len() && (#[trigger] p[i]).msg is RunStart;
            assert(ms[i].msg is RunStart);
        }
        if exists|i: int| 0 <= i < ms.len() && (#[trigger] ms[i]).msg is RunStart {
            let i = choose|i: int| 0 <= i < ms.len() && (#[trigger] ms[i]).msg is RunStart;
            if i < p.len() {
                assert(p[i].msg is RunStart);
            } else {
                assert(ms.last().msg is RunStart);
            }
        }
        match ms.last().row_in(run_id, "runs"@) {
            Some(r) => {
                if r.action == Action::Update {
                    assert(r.cells.take(1) =~= key);
                    lemma_updated(t, r.cells, run_id);
                    if run_row(p, run_id) is Some {
                        let c = run_row(p, run_id)->0;
                        lemma_set_ended(c, r.cells, run_id);
                        assert(rows_with(t, key).map_values(|x: Cells| with_columns(x, r.cells)) =~= seq![with_columns(c, r.cells)]);
                    } else {
                        assert(rows_with(t, key).map_values(|x: Cells| with_columns(x, r.cells)) =~= Seq::<Cells>::empty());
                    }
                } else {
                    assert(r.action == Action::Replace);
                    assert(ms.last().msg is RunStart);
                    assert(ms[ms.len() - 1].msg is RunStart);
                    assert(r.cells.take(1) =~= key);
                    lemma_without(t, key, key);
                    lemma_with_push(rows_without(t, key), r.cells, key);
                    assert(Seq::<Cells>::empty().push(r.cells) =~= seq![r.cells]);
                }
            },
            None => {
                assert(!(ms.last().msg is RunStart));
            },
        }
    }
}

/// Setting the end of a run leaves its row under the run's key.
proof fn lemma_set_ended(row: Cells, cells: Cells, run_id: i64)
    requires
        has_key(row, run_key(run_id)),
        cells.len() == 2,
        cells[1].0 == "ended_ts"@,
    ensures
        has_key(with_columns(row, cells), run_key(run_id)),
{
    reveal_strlit("run_id");
    reveal_strlit("ended_ts");
    assert("run_id"@.len() == 6 && "ended_ts"@.len() == 8);
    reveal_with_fuel(with_columns, 2);
    assert(row.take(1)[0] == row[0]);
    assert(run_key(run_id)[0] == row[0]);
    lemma_with_column(row, cells.last());
    assert(with_columns(row, cells).take(1) =~= run_key(run_id));
}

/// The rows of a run after its end was set are those rows with it set.
proof fn lemma_updated(rows: Seq<Cells>, cells: Cells, run_id: i64)
    requires
        cells.len() == 2,
        cells.take(1) == run_key(run_id),
        cells[1].0 == "ended_ts"@,
    ensures
        rows_with(rows_updated(rows, cells), run_key(run_id)) == rows_with(rows, run_key(run_id)).map_values(|x: Cells| with_columns(x, cells)),
    decreases rows.len(),
{
    let key = run_key(run_id);
    let f = |x: Cells| with_columns(x, cells);
    if rows.len() == 0 {
        assert(rows_updated(rows, cells) =~= Seq::<Cells>::empty());
        assert(rows_with(rows, key).map_values(f) =~= Seq::<Cells>::empty());
    } else {
        lemma_updated(rows.drop_last(), cells, run_id);
        let u = rows_updated(rows, cells);
        assert(u.drop_last() =~= rows_updated(rows.drop_last(), cells));
        let r = rows_with(rows.drop_last(), key);
        if has_key(rows.last(), key) {
            lemma_set_ended(rows.last(), cells, run_id);
            assert(u.last() == with_columns(rows.last(), cells));
            assert(r.push(rows.last()).map_values(f) =~= r.map_values(f).push(with_columns(rows.last(), cells)));
        }
    }
}

// ------------------------------------------------------------------------------
// Statements
// ------------------------------------------------------------------------------

/// A decimal digit.
pub open spec fn digit_text(d: int) -> Seq<char> {
    if d == 0 {
        "0"@
    } else if d == 1 {
        "1"@
    } else if d == 2 {
        "2"@
    } else if d == 3 {
        "3"@
    } else if d == 4 {
        "4"@
    } else if d == 5 {
        "5"@
    } else if d == 6 {
        "6"@
    } else if d == 7 {
        "7"@
    } else if d == 8 {
        "8"@
    } else {
        "9"@
    }
}

/// A number in decimal notation.
pub open spec fn number_text(n: nat) -> Seq<char>
    decreases n,
{
    if n < 10 {
        digit_text(n as int)
    } else {
        number_text(n / 10) + digit_text((n % 10) as int)
    }
}

fn put_number(s: &mut String, n: usize)
    ensures
        final(s)@ == old(s)@ + number_text(n as nat),
    decreases n,
{
    if n >= 10 {
        put_number(s, n / 10);
    }
    let d: usize = n % 10;
    let t: &str = if d == 0 {
        "0"
    } else if d == 1 {
        "1"
    } else if d == 2 {
        "2"
    } else if d == 3 {
        "3"
    } else if d == 4 {
        "4"
    } else if d == 5 {
        "5"
    } else if d == 6 {
        "6"
    } else if d == 7 {
        "7"
    } else if d == 8 {
        "8"
    } else {
        "9"
    };
    let ghost g = s@;
    s.append(t);
    assert(s@ =~= old(s)@ + number_text(n as nat));
}

/// The parameter of column `n`, counted from one.
pub open spec fn mark(n: nat) -> Seq<char> {
    "?"@ + number_text(n)
}

/// What stands between two of a list: nothing before the first.
pub open spec fn comma(first: bool) -> Seq<char> {
    if first {
        Seq::empty()
    } else {
        ", "@
    }
}

/// The names of the first `n` columns.
pub open spec fn column_list(cells: Cells, n: nat) -> Seq<char>
    decreases n,
{
    if n == 0 {
        Seq::empty()
    } else {
        column_list(cells, (n - 1) as nat) + comma(n == 1) + cells[n - 1].0
    }
}

/// The first `n` parameters.
pub open spec fn mark_list(n: nat) -> Seq<char>
    decreases n,
{
    if n == 0 {
        Seq::empty()
    } else {
        mark_list((n - 1) as nat) + comma(n == 1) + mark(n)
    }
}

/// The settings of the columns behind the first one, up to the `n`th.
pub open spec fn setting_list(cells: Cells, n: nat) -> Seq<char>
    decreases n,
{
    if n <= 1 {
        Seq::empty()
    } else {
        setting_list(cells, (n - 1) as nat) + comma(n == 2) + cells[n - 1].0 + " = "@ + mark(n)
    }
}

/// The statement that enters a row: its columns by name, their values as parameters in order.
pub open spec fn statement_of(r: RowView) -> Seq<char> {
    if r.action == Action::Update && r.cells.len() > 0 {
        "UPDATE "@ + r.table + " SET "@ + setting_list(r.cells, r.cells.len()) + " WHERE "@ + r.cells[0].0 + " = ?1"@
    } else {
        (if r.action == Action::Replace {
            "INSERT OR REPLACE INTO "@
        } else {
            "INSERT INTO "@
        }) + r.table + "("@ + column_list(r.cells, r.cells.len()) + ") VALUES ("@ + mark_list(r.cells.len()) + ")"@
    }
}

fn put_comma(s: &mut String, first: bool)
    ensures
        final(s)@ == old(s)@ + comma(first),
{
    if !first {
        s.append(", ");
    }
    assert(s@ =~= old(s)@ + comma(first));
}

fn put_columns(s: &mut String, cells: &Vec<(&'static str, Cell)>)
    ensures
        final(s)@ == old(s)@ + column_list(crate::rows::cells_view(cells@), cells@.len()),
{
    let ghost v = crate::rows::cells_view(cells@);
    let mut i: usize = 0;
    assert(s@ =~= old(s)@ + column_list(v, 0));
    while i < cells.len()
        invariant
            i <= cells@.len(),
            v == crate::rows::cells_view(cells@),
            s@ == old(s)@ + column_list(v, i as nat),
        decreases cells@.len() - i,
    {
        put_comma(s, i == 0);
        s.append(cells[i].0);
        i = i + 1;
        assert(v[i - 1].0 == cells@[i - 1].0@);
        assert(s@ =~= old(s)@ + column_list(v, i as nat));
    }
}

fn put_mark(s: &mut String, n: usize)
    ensures
        final(s)@ == old(s)@ + mark(n as nat),
{
    s.append("?");
    put_number(s, n);
    assert(s@ =~= old(s)@ + mark(n as nat));
}

fn put_marks(s: &mut String, n: usize)
    ensures
        final(s)@ == old(s)@ + mark_list(n as nat),
{
    let mut i: usize = 0;
    assert(s@ =~= old(s)@ + mark_list(0));
    while i < n
        invariant
            i <= n,
            s@ == old(s)@ + mark_list(i as nat),
        decreases n - i,
    {
        put_comma(s, i == 0);
        i = i + 1;
        put_mark(s, i);
        assert(s@ =~= old(s)@ + mark_list(i as nat));
    }
}

fn put_settings(s: &mut String, cells: &Vec<(&'static str, Cell)>)
    requires
        cells@.len() > 0,
    ensures
        final(s)@ == old(s)@ + setting_list(crate::rows::cells_view(cells@), cells@.len()),
{
    let ghost v = crate::rows::cells_view(cells@);
    let mut i: usize = 1;
    assert(s@ =~= old(s)@ + setting_list(v, 1));
    while i < cells.len()
        invariant
            1 <= i <= cells@.len(),
            v == crate::rows::cells_view(cells@),
            s@ == old(s)@ + setting_list(v, i as nat),
        decreases cells@.len() - i,
    {
        put_comma(s, i == 1);
        s.append(cells[i].0);
        s.append(" = ");
        i = i + 1;
        put_mark(s, i);
        assert(v[i - 1].0 == cells@[i - 1].0@);
        assert(s@ =~= old(s)@ + setting_list(v, i as nat));
    }
}

impl Row {
    /// The statement that enters the row.
    pub fn statement(&self) -> (r: String)
        ensures
            r@ == statement_of(self@),
    {
        match self.action {
            Action::Update => {
                if self.cells.len() > 0 {
                    let mut s: String = "UPDATE ".to_owned();
                    s.append(self.table);
                    s.append(" SET ");
                    put_settings(&mut s, &self.cells);
                    s.append(" WHERE ");
                    s.append(self.cells[0].0);
                    s.append(" = ?1");
                    assert(self@.cells[0].0 == self.cells@[0].0@);
                    assert(s@ =~= statement_of(self@));
                    return s;
                }
            },
            _ => {},
        }
        let mut s: String = match self.action {
            Action::Replace => "INSERT OR REPLACE INTO ".to_owned(),
            _ => "INSERT INTO ".to_owned(),
        };
        s.append(self.table);
        s.append("(");
        put_columns(&mut s, &self.cells);
        s.append(") VALUES (");
        put_marks(&mut s, self.cells.len());
        s.append(")");
        assert(s@ =~= statement_of(self@));
        s
    }
}

} // verus!
