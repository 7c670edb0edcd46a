//! What is written down and read back: the layout of records, floats, days, times and names of files,
//! and the rows of the database.

use vstd::prelude::*;
use vstd::arithmetic::power2::pow2;
use crate::bits::{fixed_value, magnitude};
use crate::bytes::{law_le_round_trip, le_bytes, le_value, signed_of, unsigned_of};
use crate::config::{Config, OverrideBlock, Overrides};
use crate::number_laws::{all_digits, law_integer_text, sign_bytes};
use crate::paths::{beside, last_slash, parent, without_tail};
use crate::reader::{Heads, MdEvent, Source, Wanted};
use crate::recorder::{bbo_bytes, day_number, is_segment_order, law_bbo_round_trip, law_trd_round_trip, symbols_file_run, trd_bytes, BboRec, TrdRec};
use crate::replay::{block_after, fed, has_instrument, mapped, replay_config, replay_overrides, Replay};
use crate::rows::{fill_cells, order_cells, pnl_cells, row_of, stats_cells, Action, CellView, Texts};
use crate::store::{row_count, AfterWrite, PnlRow, StoreMsg, SymbolStatsRow, WriterState};
use crate::table::{entry_value, last_entry, law_last_entry};
use crate::text::{is_digit, leading, lemma_leading_grows};
use crate::times::time_of_number;
use crate::types::{Fill, OrderDone, Side, SymbolMeta};
use crate::units::{abs_int, law_rounds_to_nearest, pow10, price_places, qty_places};

verus! {

// ------------------------------------------------------------------------------
// Bytes
// ------------------------------------------------------------------------------

/// Bytes are read lowest first.
pub proof fn law_lowest_byte_first(b: u8, s: Seq<u8>)
    ensures
        le_value(Seq::<u8>::empty()) == 0,
        le_value(seq![b] + s) == b + 256 * le_value(s),
{
    assert((seq![b] + s).skip(1) =~= s);
}

/// A record of a top of book: the time, the symbol, four empty bytes, then bid, ask and their sizes, each
/// in its place.
pub proof fn law_bbo_layout(r: BboRec)
    ensures
        ({
            let b = bbo_bytes(r);
            &&& b.len() == 48
            &&& signed_of(le_value(b.subrange(0, 8))) == r.ts
            &&& le_value(b.subrange(8, 12)) == r.sym
            &&& b.subrange(12, 16) =~= seq![0u8, 0u8, 0u8, 0u8]
            &&& le_value(b.subrange(16, 24)) == r.bid
            &&& le_value(b.subrange(24, 32)) == r.ask
            &&& le_value(b.subrange(32, 40)) == r.bid_qty
            &&& le_value(b.subrange(40, 48)) == r.ask_qty
        }),
{
    law_bbo_round_trip(r);
    crate::bytes::lemma_pow256();
    law_le_round_trip(unsigned_of(r.ts), 8);
    law_le_round_trip(r.sym as int, 4);
    law_le_round_trip(r.bid as int, 8);
    law_le_round_trip(r.ask as int, 8);
    law_le_round_trip(r.bid_qty as int, 8);
    law_le_round_trip(r.ask_qty as int, 8);
    let b = bbo_bytes(r);
    assert(b.subrange(0, 8) =~= le_bytes(unsigned_of(r.ts), 8));
    assert(b.subrange(8, 12) =~= le_bytes(r.sym as int, 4));
    assert(b.subrange(16, 24) =~= le_bytes(r.bid as int, 8));
    assert(b.subrange(24, 32) =~= le_bytes(r.ask as int, 8));
    assert(b.subrange(32, 40) =~= le_bytes(r.bid_qty as int, 8));
    assert(b.subrange(40, 48) =~= le_bytes(r.ask_qty as int, 8));
}

/// A record of a trade: the time, the symbol, the side, three empty bytes, then price and size.
pub proof fn law_trd_layout(r: TrdRec)
    ensures
        ({
            let b = trd_bytes(r);
            &&& b.len() == 32
            &&& signed_of(le_value(b.subrange(0, 8))) == r.ts
            &&& le_value(b.subrange(8, 12)) == r.sym
            &&& b[12] == r.side
            &&& b[13] == 0 && b[14] == 0 && b[15] == 0
            &&& le_value(b.subrange(16, 24)) == r.price
            &&& le_value(b.subrange(24, 32)) == r.qty
        }),
{
    law_trd_round_trip(r);
    crate::bytes::lemma_pow256();
    law_le_round_trip(unsigned_of(r.ts), 8);
    law_le_round_trip(r.sym as int, 4);
    law_le_round_trip(r.price as int, 8);
    law_le_round_trip(r.qty as int, 8);
    let b = trd_bytes(r);
    assert(b.subrange(0, 8) =~= le_bytes(unsigned_of(r.ts), 8));
    assert(b.subrange(8, 12) =~= le_bytes(r.sym as int, 4));
    assert(b.subrange(16, 24) =~= le_bytes(r.price as int, 8));
    assert(b.subrange(24, 32) =~= le_bytes(r.qty as int, 8));
}

/// A float with this sign, exponent and fraction is one and the fraction over 2^52, times two to the
/// exponent less 1023: as a decimal, exactly so where it is a whole number, else to the nearest.
pub proof fn law_float_value(b: u64, negative: bool, exponent: int, fraction: int, places: u32)
    requires
        0 < exponent < 0x7ff,
        0 <= fraction < 0x10_0000_0000_0000,
        b == (if negative { 0x8000_0000_0000_0000int } else { 0 }) + exponent * 0x10_0000_0000_0000 + fraction,
    ensures
        ({
            let whole = (0x10_0000_0000_0000 + fraction) * pow10(places as nat);
            let m = magnitude(b, places);
            &&& exponent >= 1075 ==> m == whole * pow2((exponent - 1075) as nat)
            &&& exponent < 1075 ==> 2 * abs_int(m * pow2((1075 - exponent) as nat) - whole) <= pow2((1075 - exponent) as nat)
            &&& m <= i64::MAX ==> fixed_value(b, places) == if negative { -m } else { m }
            &&& m > i64::MAX ==> fixed_value(b, places) == if negative { -i64::MAX as int } else { i64::MAX as int }
        }),
{
    assert(crate::bits::exponent_field(b) == exponent);
    assert(crate::bits::fraction_field(b) == fraction);
    if exponent < 1075 {
        let d = pow2((1075 - exponent) as nat) as int;
        vstd::arithmetic::power2::lemma_pow2_pos((1075 - exponent) as nat);
        law_rounds_to_nearest((0x10_0000_0000_0000 + fraction) * pow10(places as nat), d);
    }
}

// ------------------------------------------------------------------------------
// Days, times, files
// ------------------------------------------------------------------------------

/// Days are counted in UTC from the start of 1970, each of twenty-four hours.
pub proof fn law_day_counted(ts: int)
    ensures
        day_number(ts) * 86_400_000 <= ts < (day_number(ts) + 1) * 86_400_000,
{
}

/// A number is milliseconds, or seconds where it is too small to be that.
pub proof fn law_number_as_time(n: int)
    ensures
        n < 100_000_000_000 ==> time_of_number(n) == 1000 * n,
        n >= 100_000_000_000 ==> time_of_number(n) == n,
{
}

/// A file beside another one lies in the same directory.
pub proof fn law_files_side_by_side(dir: Seq<char>, file: Seq<char>, name: Seq<char>)
    requires
        dir.len() > 0,
        file.len() > 0,
        forall|i: int| 0 <= i < file.len() ==> #[trigger] file[i] != '/',
        file.len() == 1 ==> file[0] != '.',
        dir.last() != '/',
        dir.len() >= 2 ==> !(dir.last() == '.' && dir[dir.len() - 2] == '/'),
    ensures
        parent(dir + seq!['/'] + file) == Some(dir),
        beside(dir + seq!['/'] + file, name) == dir + seq!['/'] + name,
{
    let p = dir + seq!['/'] + file;
    let (d, n) = (dir.len() as int, p.len() as int);
    assert(p[n - 1] == file.last());
    assert(file[file.len() - 1] != '/');
    if file.len() >= 2 {
        assert(p[n - 2] == file[file.len() - 2]);
    }
    assert(without_tail(p, p.len()) == p.take(n));
    assert(p.take(n) =~= p);
    assert(p[d] == '/');
    assert forall|i: int| d < i < n implies #[trigger] p[i] != '/' by {
        assert(p[i] == file[i - d - 1]);
    }
    lemma_last_slash(p, d, p.len());
    assert(p[d - 1] == dir.last());
    if d >= 2 {
        assert(p[d - 2] == dir[d - 2]);
    }
    assert(without_tail(p, (d + 1) as nat) == without_tail(p, d as nat));
    assert(without_tail(p, d as nat) == p.take(d));
    assert(p.take(d) =~= dir);
    assert(p.len() > 1);
}

proof fn lemma_last_slash(p: Seq<char>, d: int, n: nat)
    requires
        0 <= d < n <= p.len(),
        p[d] == '/',
        forall|i: int| d < i < n ==> #[trigger] p[i] != '/',
    ensures
        last_slash(p, n) == Some(d),
    decreases n,
{
    if n - 1 > d {
        assert(p[n - 1] != '/');
        lemma_last_slash(p, d, (n - 1) as nat);
    }
}

// ------------------------------------------------------------------------------
// Reading and replaying
// ------------------------------------------------------------------------------

/// The next event of three streams is the earliest; of several at the same time a trade goes first, then
/// the book, then the reference.
pub proof fn law_earliest_goes_first(h: Heads)
    ensures
        h.trade is None && h.book is None && h.reference is None <==> h.spec_pick() is None,
        h.spec_pick() matches Some((s, e)) ==> {
            &&& h.trade matches Some(x) ==> e.spec_ts() <= x.spec_ts() && (s != Source::Trade ==> e.spec_ts() < x.spec_ts())
            &&& h.book matches Some(x) ==> e.spec_ts() <= x.spec_ts() && (s == Source::Reference ==> e.spec_ts() < x.spec_ts())
            &&& h.reference matches Some(x) ==> e.spec_ts() <= x.spec_ts()
            &&& s == Source::Trade ==> h.trade == Some(e)
            &&& s == Source::Book ==> h.book == Some(e)
            &&& s == Source::Reference ==> h.reference == Some(e)
        },
{
}

/// An event is wanted when it lies in the period, both ends included, and its symbol is asked for, or every
/// one is.
pub proof fn law_what_is_wanted(w: Wanted, e: MdEvent)
    ensures
        ({
            let (ts, sym) = match e {
                MdEvent::Bbo(r) => (r.ts, r.sym),
                MdEvent::Ref(r) => (r.ts, r.sym),
                MdEvent::Trade(r) => (r.ts, r.sym),
            };
            w.keeps(e) <==> w.from_ms <= ts && ts <= w.to_ms && (w.syms is None || (w.syms->0)@.contains(sym))
        }),
{
}

/// A replay hands every event of a symbol that it replays to the engine, at the time of its record, and
/// passes over the others; it notes when the first one came. It never records anew.
pub proof fn law_replay_hands_on(a: Replay, b: Replay, ev: MdEvent, due: bool, cfg: Config)
    requires
        fed(a, b, ev, due),
    ensures
        mapped(a.ids@, ev.spec_sym()) is None ==> b == a,
        mapped(a.ids@, ev.spec_sym()) is Some ==> b.last_ts == ev.spec_ts() && (a.stats.first_ts != 0 ==> b.stats.first_ts == a.stats.first_ts) && (
        a.stats.first_ts == 0 ==> b.stats.first_ts == ev.spec_ts()),
        !replay_config(cfg).recording.enabled,
        replay_config(cfg).strategy == cfg.strategy,
        replay_config(cfg).paper == cfg.paper,
        replay_config(cfg).fees == cfg.fees,
        replay_config(cfg).risk == cfg.risk,
        replay_config(cfg).eligibility == cfg.eligibility,
        replay_config(cfg).reference == cfg.reference,
{
}

/// A batch that is written ends the failures; one that is not counts one more of them, and of its own
/// attempts.
pub proof fn law_attempts_counted(s: WriterState)
    requires
        s.attempt < u32::MAX,
        s.failures < u32::MAX,
    ensures
        s.attempted(true).0.failures == 0,
        s.attempted(true).1 == (AfterWrite::Written { recovered_after: s.failures }),
        s.attempted(false).0.failures == s.failures + 1,
        s.attempted(false).0.attempt == s.attempt + 1,
        s.attempted(false).1 == AfterWrite::Drop <==> s.attempt >= 4,
{
}

// ------------------------------------------------------------------------------
// Rows
// ------------------------------------------------------------------------------

/// A fill enters the database under the names of what it is.
pub proof fn law_fill_row(run_id: i64, f: Fill, symbol: Seq<char>, digits: u32, realized: i128)
    ensures
        ({
            let cells = fill_cells(run_id, f, symbol, digits, realized);
            &&& cells.contains(("order_id"@, CellView::Int(signed_of(f.order_id as int))))
            &&& cells.contains(("symbol"@, CellView::Text(symbol)))
            &&& cells.contains(("side"@, CellView::Text(if f.side == Side::Buy { "Buy"@ } else { "Sell"@ })))
            &&& cells.contains(("price"@, CellView::Num(f.price as int, price_places(digits) as int)))
            &&& cells.contains(("qty"@, CellView::Num(f.qty as int, qty_places(digits) as int)))
            &&& cells.contains(("fee"@, CellView::Money(f.fee as int)))
            &&& cells.contains(("ts"@, CellView::Int(f.ts as int)))
            &&& cells.contains(("is_maker"@, CellView::Int(if f.is_maker { 1int } else { 0int })))
            &&& cells.contains(("bid"@, CellView::Num(f.bid as int, price_places(digits) as int)))
            &&& cells.contains(("ask"@, CellView::Num(f.ask as int, price_places(digits) as int)))
            &&& cells.contains(("placed_ts"@, CellView::Int(f.placed_ts as int)))
            &&& cells.contains(("mid_at_place"@, CellView::Num(f.mid_at_place as int, price_places(digits) as int)))
            &&& cells.contains(("spread_bps_at_place"@, CellView::Num(f.spread_bps_at_place as int, 8)))
            &&& cells.contains(("queue_ahead_initial"@, CellView::Num(f.queue_ahead_initial as int, qty_places(digits) as int)))
            &&& cells.contains(("inventory_before"@, CellView::Num(f.inventory_before as int, qty_places(digits) as int)))
            &&& cells.contains(("param_version"@, CellView::Int(f.param_version as int)))
            &&& cells.contains(("realized_pnl"@, CellView::Money(realized as int)))
        }),
{
    let cells = fill_cells(run_id, f, symbol, digits, realized);
    assert(cells[1] == ("order_id"@, CellView::Int(signed_of(f.order_id as int))));
    assert(cells[2] == ("symbol"@, CellView::Text(symbol)));
    assert(cells[3] == ("side"@, CellView::Text(if f.side == Side::Buy { "Buy"@ } else { "Sell"@ })));
    assert(cells[4] == ("price"@, CellView::Num(f.price as int, price_places(digits) as int)));
    assert(cells[5] == ("qty"@, CellView::Num(f.qty as int, qty_places(digits) as int)));
    assert(cells[6] == ("fee"@, CellView::Money(f.fee as int)));
    assert(cells[7] == ("ts"@, CellView::Int(f.ts as int)));
    assert(cells[8] == ("is_maker"@, CellView::Int(if f.is_maker { 1int } else { 0int })));
    assert(cells[10] == ("bid"@, CellView::Num(f.bid as int, price_places(digits) as int)));
    assert(cells[11] == ("ask"@, CellView::Num(f.ask as int, price_places(digits) as int)));
    assert(cells[12] == ("placed_ts"@, CellView::Int(f.placed_ts as int)));
    assert(cells[13] == ("mid_at_place"@, CellView::Num(f.mid_at_place as int, price_places(digits) as int)));
    assert(cells[14] == ("spread_bps_at_place"@, CellView::Num(f.spread_bps_at_place as int, 8)));
    assert(cells[15] == ("queue_ahead_initial"@, CellView::Num(f.queue_ahead_initial as int, qty_places(digits) as int)));
    assert(cells[16] == ("inventory_before"@, CellView::Num(f.inventory_before as int, qty_places(digits) as int)));
    assert(cells[17] == ("param_version"@, CellView::Int(f.param_version as int)));
    assert(cells[18] == ("realized_pnl"@, CellView::Money(realized as int)));
}

/// So does an order that has ended.
pub proof fn law_order_row(run_id: i64, o: OrderDone, symbol: Seq<char>, digits: u32)
    ensures
        ({
            let cells = order_cells(run_id, o, symbol, digits);
            &&& cells.contains(("order_id"@, CellView::Int(signed_of(o.order_id as int))))
            &&& cells.contains(("price"@, CellView::Num(o.price as int, price_places(digits) as int)))
            &&& cells.contains(("qty"@, CellView::Num(o.qty as int, qty_places(digits) as int)))
            &&& cells.contains(("filled"@, CellView::Num(o.filled as int, qty_places(digits) as int)))
            &&& cells.contains(("ts_created"@, CellView::Int(o.ts_created as int)))
            &&& cells.contains(("ts_done"@, CellView::Int(o.ts_done as int)))
            &&& cells.contains(("status"@, CellView::Text(o.status@)))
            &&& cells.contains(("queue_ahead_initial"@, CellView::Num(o.queue_ahead_initial as int, qty_places(digits) as int)))
            &&& cells.contains(("spread_bps_at_place"@, CellView::Num(o.spread_bps_at_place as int, 8)))
            &&& cells.contains(("param_version"@, CellView::Int(o.param_version as int)))
        }),
{
    let cells = order_cells(run_id, o, symbol, digits);
    assert(cells[1] == ("order_id"@, CellView::Int(signed_of(o.order_id as int))));
    assert(cells[4] == ("price"@, CellView::Num(o.price as int, price_places(digits) as int)));
    assert(cells[5] == ("qty"@, CellView::Num(o.qty as int, qty_places(digits) as int)));
    assert(cells[6] == ("filled"@, CellView::Num(o.filled as int, qty_places(digits) as int)));
    assert(cells[7] == ("ts_created"@, CellView::Int(o.ts_created as int)));
    assert(cells[8] == ("ts_done"@, CellView::Int(o.ts_done as int)));
    assert(cells[9] == ("status"@, CellView::Text(o.status@)));
    assert(cells[11] == ("queue_ahead_initial"@, CellView::Num(o.queue_ahead_initial as int, qty_places(digits) as int)));
    assert(cells[12] == ("spread_bps_at_place"@, CellView::Num(o.spread_bps_at_place as int, 8)));
    assert(cells[13] == ("param_version"@, CellView::Int(o.param_version as int)));
}

/// So does a snapshot of the books.
pub proof fn law_pnl_row(run_id: i64, p: PnlRow)
    ensures
        ({
            let cells = pnl_cells(run_id, p);
            &&& cells.contains(("ts"@, CellView::Int(p.ts as int)))
            &&& cells.contains(("equity"@, CellView::Money(p.equity as int)))
            &&& cells.contains(("realized"@, CellView::Money(p.realized as int)))
            &&& cells.contains(("fees"@, CellView::Money(p.fees as int)))
            &&& cells.contains(("unrealized"@, CellView::Money(p.unrealized as int)))
            &&& cells.contains(("gross_exposure"@, CellView::Money(p.gross_exposure as int)))
            &&& cells.contains(("open_positions"@, CellView::Int(signed_of(p.open_positions as int))))
            &&& cells.contains(("n_fills"@, CellView::Int(signed_of(p.n_fills as int))))
            &&& cells.contains(("daily_pnl"@, CellView::Money(p.daily_pnl as int)))
            &&& cells.contains(("max_drawdown"@, CellView::Money(p.max_drawdown as int)))
            &&& cells.contains(("n_live_orders"@, CellView::Int(signed_of(p.n_live_orders as int))))
            &&& cells.contains(("n_active_symbols"@, CellView::Int(signed_of(p.n_active_symbols as int))))
            &&& cells.contains(("halted"@, CellView::Int(if p.halted { 1int } else { 0int })))
        }),
{
    let cells = pnl_cells(run_id, p);
    assert(cells[1] == ("ts"@, CellView::Int(p.ts as int)));
    assert(cells[2] == ("equity"@, CellView::Money(p.equity as int)));
    assert(cells[3] == ("realized"@, CellView::Money(p.realized as int)));
    assert(cells[4] == ("fees"@, CellView::Money(p.fees as int)));
    assert(cells[5] == ("unrealized"@, CellView::Money(p.unrealized as int)));
    assert(cells[6] == ("gross_exposure"@, CellView::Money(p.gross_exposure as int)));
    assert(cells[7] == ("open_positions"@, CellView::Int(signed_of(p.open_positions as int))));
    assert(cells[8] == ("n_fills"@, CellView::Int(signed_of(p.n_fills as int))));
    assert(cells[9] == ("daily_pnl"@, CellView::Money(p.daily_pnl as int)));
    assert(cells[10] == ("max_drawdown"@, CellView::Money(p.max_drawdown as int)));
    assert(cells[11] == ("n_live_orders"@, CellView::Int(signed_of(p.n_live_orders as int))));
    assert(cells[12] == ("n_active_symbols"@, CellView::Int(signed_of(p.n_active_symbols as int))));
    assert(cells[13] == ("halted"@, CellView::Int(if p.halted { 1int } else { 0int })));
}

/// So does a snapshot of a symbol.
pub proof fn law_stats_row(run_id: i64, s: SymbolStatsRow)
    ensures
        ({
            let cells = stats_cells(run_id, s);
            &&& cells.contains(("ts"@, CellView::Int(s.ts as int)))
            &&& cells.contains(("symbol"@, CellView::Text(s.symbol@)))
            &&& cells.contains(("spread_med_bps"@, CellView::Num(s.spread_med_bps as int, 8)))
            &&& cells.contains(("spread_mean_bps"@, CellView::Num(s.spread_mean_bps as int, 8)))
            &&& cells.contains(("vol_bps"@, CellView::Num(s.vol_bps as int, 8)))
            &&& cells.contains(("trades_per_min"@, CellView::Num(s.trades_per_min as int, 8)))
            &&& cells.contains(("turnover_24h"@, CellView::Num(s.turnover_24h as int, 8)))
            &&& cells.contains(("eligible"@, CellView::Int(if s.eligible { 1int } else { 0int })))
            &&& cells.contains(("reason"@, CellView::Text(s.reason@)))
            &&& cells.contains(("score"@, CellView::Num(s.score as int, 8)))
            &&& cells.contains(("active"@, CellView::Int(if s.active { 1int } else { 0int })))
            &&& cells.contains(("bid"@, CellView::Num(s.bid as int, price_places(s.price_digits) as int)))
            &&& cells.contains(("ask"@, CellView::Num(s.ask as int, price_places(s.price_digits) as int)))
            &&& cells.contains(("position_qty"@, CellView::Num(s.position_qty as int, qty_places(s.price_digits) as int)))
            &&& cells.contains(("quote_reason"@, CellView::Text(s.quote_reason@)))
        }),
{
    let cells = stats_cells(run_id, s);
    assert(cells[1] == ("ts"@, CellView::Int(s.ts as int)));
    assert(cells[2] == ("symbol"@, CellView::Text(s.symbol@)));
    assert(cells[3] == ("spread_med_bps"@, CellView::Num(s.spread_med_bps as int, 8)));
    assert(cells[4] == ("spread_mean_bps"@, CellView::Num(s.spread_mean_bps as int, 8)));
    assert(cells[5] == ("vol_bps"@, CellView::Num(s.vol_bps as int, 8)));
    assert(cells[6] == ("trades_per_min"@, CellView::Num(s.trades_per_min as int, 8)));
    assert(cells[7] == ("turnover_24h"@, CellView::Num(s.turnover_24h as int, 8)));
    assert(cells[8] == ("eligible"@, CellView::Int(if s.eligible { 1int } else { 0int })));
    assert(cells[9] == ("reason"@, CellView::Text(s.reason@)));
    assert(cells[10] == ("score"@, CellView::Num(s.score as int, 8)));
    assert(cells[11] == ("active"@, CellView::Int(if s.active { 1int } else { 0int })));
    assert(cells[12] == ("bid"@, CellView::Num(s.bid as int, price_places(s.price_digits) as int)));
    assert(cells[13] == ("ask"@, CellView::Num(s.ask as int, price_places(s.price_digits) as int)));
    assert(cells[14] == ("position_qty"@, CellView::Num(s.position_qty as int, qty_places(s.price_digits) as int)));
    assert(cells[15] == ("quote_reason"@, CellView::Text(s.quote_reason@)));
}

// ------------------------------------------------------------------------------
// Parameters of a replay
// ------------------------------------------------------------------------------

/// What is asked for goes before what was there, name by name.
proof fn lemma_behind<V>(y: Seq<(String, V)>, p: Seq<(String, V)>, key: Seq<char>, n: nat)
    requires
        n <= p.len(),
    ensures
        last_entry(y + p, key, (y.len() + n) as nat) == match last_entry(p, key, n) {
            Some(i) => Some(y.len() + i),
            None => last_entry(y, key, y.len()),
        },
        last_entry(p, key, n) matches Some(i) ==> 0 <= i < n,
    decreases n,
{
    if n > 0 {
        lemma_behind(y, p, key, (n - 1) as nat);
        assert((y + p)[y.len() + n - 1] == p[n - 1]);
    } else {
        lemma_front(y, p, key, y.len());
    }
}

proof fn lemma_front<V>(y: Seq<(String, V)>, p: Seq<(String, V)>, key: Seq<char>, n: nat)
    requires
        n <= y.len(),
    ensures
        last_entry(y + p, key, n) == last_entry(y, key, n),
    decreases n,
{
    if n > 0 {
        assert((y + p)[n - 1] == y[n - 1]);
        lemma_front(y, p, key, (n - 1) as nat);
    }
}

/// Parameters that a replay is asked for hold for every instrument that is replayed, before its own
/// overrides; what is not asked for stays as it was, and so do the blocks of other names.
pub proof fn law_asked_parameters_hold(a: Overrides, b: Overrides, metas: Seq<SymbolMeta>, p: OverrideBlock, name: Seq<char>, key: Seq<char>)
    requires
        replay_overrides(a, b, metas, Some(p)),
    ensures
        (exists|i: int| 0 <= i < metas.len() && (#[trigger] metas[i]).name@ == name) ==> {
            &&& b.block(name) is Some
            &&& entry_value(p@, key) is Some ==> entry_value((b.block(name)->0)@, key) == entry_value(p@, key)
            &&& entry_value(p@, key) is None && a.block(name) is Some ==> entry_value((b.block(name)->0)@, key) == entry_value((a.block(name)->0)@, key)
            &&& entry_value(p@, key) is None && a.block(name) is None ==> entry_value((b.block(name)->0)@, key) is None
        },
        (forall|i: int| 0 <= i < metas.len() ==> (#[trigger] metas[i]).name@ != name) ==> b.block(name) == a.block(name),
{
    assert(block_after(a.block(name), b.block(name), has_instrument(metas, name), p@));
    if let Some(y) = a.block(name) {
        lemma_behind(y@, p@, key, p@.len());
        law_last_entry(y@, key, y@.len());
    }
}

// ------------------------------------------------------------------------------
// Tables
// ------------------------------------------------------------------------------

/// Each kind of message has its table; what describes a state replaces what stood there, and what tells of
/// an event is added.
pub proof fn law_tables(m: StoreMsg, run_id: i64, t: Texts)
    ensures
        ({
            let r = row_of(m, run_id, t);
            &&& m is Fill ==> (r matches Some(x) && x.table == "fills"@ && x.action == Action::Insert)
            &&& m is OrderDone ==> (r matches Some(x) && x.table == "orders"@ && x.action == Action::Insert)
            &&& m is Pnl ==> (r matches Some(x) && x.table == "pnl_snapshots"@ && x.action == Action::Insert)
            &&& m is SymbolStats ==> (r matches Some(x) && x.table == "symbol_stats"@ && x.action == Action::Insert)
            &&& m is Event ==> (r matches Some(x) && x.table == "events"@ && x.action == Action::Insert)
            &&& m is PositionState ==> (r matches Some(x) && x.table == "position_state"@ && x.action == Action::Replace)
            &&& m is ParamVersion ==> (r matches Some(x) && x.table == "param_versions"@ && x.action == Action::Replace)
            &&& m is RunStart ==> (r matches Some(x) && x.table == "runs"@ && x.action == Action::Replace)
            &&& m is RunEnd ==> (r matches Some(x) && x.table == "runs"@ && x.action == Action::Update)
            &&& m is MdBbo || m is MdTrade || m is MdRef || m is Shutdown ==> r is None
        }),
{
}

// ------------------------------------------------------------------------------
// Segments
// ------------------------------------------------------------------------------

/// Segments are read day by day, and within a day run by run.
pub proof fn law_segments_in_order(keys: Seq<(i64, i64)>, p: Seq<usize>, i: int, j: int)
    requires
        is_segment_order(keys, p),
        0 <= i < j < p.len(),
    ensures
        ({
            let (a, b) = (keys[p[i] as int], keys[p[j] as int]);
            &&& a.0 <= b.0
            &&& a.0 == b.0 ==> a.1 <= b.1
            &&& p[i] != p[j]
        }),
{
}

/// The file that lists the symbols of a run bears its number: behind `run`, before `_symbols.json`.
pub proof fn law_run_in_file_name(digits: Seq<u8>)
    requires
        all_digits(digits),
        digits.len() > 0,
    ensures
        ({
            let v = leading(digits, digits.len());
            let name = seq![114u8, 117u8, 110u8] + digits + seq![95u8, 115u8, 121u8, 109u8, 98u8, 111u8, 108u8, 115u8, 46u8, 106u8, 115u8, 111u8, 110u8];
            &&& v <= i64::MAX ==> symbols_file_run(name) == Some(v as i64)
            &&& v > i64::MAX ==> symbols_file_run(name) is None
        }),
{
    let name = seq![114u8, 117u8, 110u8] + digits + seq![95u8, 115u8, 121u8, 109u8, 98u8, 111u8, 108u8, 115u8, 46u8, 106u8, 115u8, 111u8, 110u8];
    let n = name.len() as int;
    assert(name.subrange(0, 3) =~= seq![114u8, 117u8, 110u8]);
    assert(name.subrange(n - 13, n) =~= seq![95u8, 115u8, 121u8, 109u8, 98u8, 111u8, 108u8, 115u8, 46u8, 106u8, 115u8, 111u8, 110u8]);
    assert(name.subrange(3, n - 13) =~= digits);
    law_integer_text(0, digits);
    assert(sign_bytes(0) + digits =~= digits);
    assert(forall|i: int| 0 <= i < digits.len() ==> is_digit(#[trigger] digits[i]));
    lemma_leading_grows(digits, digits.len(), digits.len());
}

/// Rows are counted one by one, and what is market data or the order to stop is none.
pub proof fn law_rows_counted(s: Seq<StoreMsg>, m: StoreMsg)
    ensures
        row_count(Seq::<StoreMsg>::empty()) == 0,
        row_count(s.push(m)) == row_count(s) + if m is MdBbo || m is MdTrade || m is MdRef || m is Shutdown { 0int } else { 1int },
{
    assert(s.push(m).drop_last() =~= s);
}

} // verus!
