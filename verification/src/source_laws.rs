//! What the sources of market data say: the meaning of feed messages, the synthetic market, and the list
//! of instruments.

use vstd::prelude::*;
use vstd::utf8::encode_utf8;
use crate::feed::{after_failures, has_prefix, is_book_event, is_trade_event, levels, targets_of, trades_of, Backoff, BookData, BookTicker, Envelope, Route, Target, TradeData};
use crate::instruments::{cap_in_force, names_wanted, page_taken, turnover_after, Instrument, Listing, Page};
use crate::market_laws::law_price_grid;
use crate::sim::{has_room, lag_in_steps, lots, moved, net_of, on_grid, reference_of, sim_trade, tradable, SimSymbol};
use crate::table::{entry_value, law_last_entry};
use crate::text::decimal_at;
use crate::types::{Bbo, MarketEvent, Side, SymbolId, SymbolMeta};
use crate::units::{abs_int, law_rounds_to_nearest, min_int, pow10, price_places, qty_places};

verus! {

// ------------------------------------------------------------------------------
// Feed messages
// ------------------------------------------------------------------------------

/// A level is a price and a size, in this order, each with its own digits; a pair that is not two numbers
/// is left out, and the others stand in their order.
pub proof fn law_levels_read(u: Seq<(String, String)>, p: (String, String), digits: u32)
    ensures
        levels(Seq::<(String, String)>::empty(), digits, 0).len() == 0,
        ({
            let (x, y) = (decimal_at(encode_utf8(p.0@), price_places(digits)), decimal_at(encode_utf8(p.1@), qty_places(digits)));
            levels(u.push(p), digits, u.len() + 1) == if x is Some && y is Some {
                levels(u, digits, u.len()).push((x->0, y->0))
            } else {
                levels(u, digits, u.len())
            }
        }),
{
    lemma_levels_prefix(u, u.push(p), digits, u.len());
}

proof fn lemma_levels_prefix(u: Seq<(String, String)>, v: Seq<(String, String)>, digits: u32, n: nat)
    requires
        n <= u.len() <= v.len(),
        forall|i: int| 0 <= i < u.len() ==> #[trigger] u[i] == v[i],
    ensures
        levels(u, digits, n) == levels(v, digits, n),
    decreases n,
{
    if n > 0 {
        lemma_levels_prefix(u, v, digits, (n - 1) as nat);
        assert(u[n - 1] == v[n - 1]);
    }
}

/// A book message brings bids from the one list and asks from the other to the symbol that it names; it
/// is whole when it says so, or when the numbering starts anew.
pub proof fn law_book_message(names: Seq<(String, Target)>, env: Envelope, d: BookData, r: Option<MarketEvent>)
    requires
        is_book_event(names, env, d, r),
    ensures
        entry_value(names, d.s@) is None <==> r is None,
        r is Some ==> {
            let to = entry_value(names, d.s@)->0;
            &&& r->0 matches MarketEvent::Book { sym, ts, snapshot, bids, asks }
            &&& sym == to.sym
            &&& bids@ == levels(d.b@, to.price_digits, d.b@.len())
            &&& asks@ == levels(d.a@, to.price_digits, d.a@.len())
            &&& env.ts is Some ==> ts == env.ts->0
            &&& snapshot <==> (env.typ matches Some(t) && t@ == "snapshot"@) || d.u == Some(1u64)
        },
{
}

/// A trade is by the side that it names, at its price and for its size; one whose figures are no numbers
/// is left out, and the others stand in their order.
pub proof fn law_trades_read(u: Seq<TradeData>, t: TradeData, digits: u32)
    ensures
        trades_of(Seq::<TradeData>::empty(), digits, 0).len() == 0,
        ({
            let (x, y) = (decimal_at(encode_utf8(t.p@), price_places(digits)), decimal_at(encode_utf8(t.v@), qty_places(digits)));
            let (r, s) = (trades_of(u, digits, u.len()), trades_of(u.push(t), digits, u.len() + 1));
            &&& x is None || y is None ==> s == r
            &&& x is Some && y is Some ==> {
                &&& s.len() == r.len() + 1 && s.drop_last() == r
                &&& s.last().price == x->0 && s.last().qty == y->0 && s.last().ts == t.ts
                &&& s.last().taker_side == Side::Buy <==> t.side@ == "Buy"@
            }
        }),
{
    lemma_trades_prefix(u, u.push(t), digits, u.len());
    let r = trades_of(u, digits, u.len());
    if let Some(x) = t.spec_trade(digits) {
        assert(r.push(x).drop_last() =~= r);
    }
}

proof fn lemma_trades_prefix(u: Seq<TradeData>, v: Seq<TradeData>, digits: u32, n: nat)
    requires
        n <= u.len() <= v.len(),
        forall|i: int| 0 <= i < u.len() ==> #[trigger] u[i] == v[i],
    ensures
        trades_of(u, digits, n) == trades_of(v, digits, n),
    decreases n,
{
    if n > 0 {
        lemma_trades_prefix(u, v, digits, (n - 1) as nat);
        assert(u[n - 1] == v[n - 1]);
    }
}

/// A trade message is about the symbol of its first trade; an empty one, or one of an unknown symbol, says
/// nothing.
pub proof fn law_trade_message(names: Seq<(String, Target)>, list: Seq<TradeData>, r: Option<MarketEvent>)
    requires
        is_trade_event(names, list, r),
    ensures
        r is None <==> list.len() == 0 || entry_value(names, list[0].s@) is None,
        r is Some ==> (r->0 matches MarketEvent::Trades { sym, trades } && sym == (entry_value(names, list[0].s@)->0).sym && trades@ == trades_of(
            list,
            (entry_value(names, list[0].s@)->0).price_digits,
            list.len(),
        )),
{
}

/// A quote of the leading venue is passed on exactly when its symbol is known and both prices are numbers,
/// the bid above zero and the ask not below it; its time is that of the transaction, or of the event, or
/// of its arrival.
pub proof fn law_reference_read(d: BookTicker, names: Seq<(String, Target)>, rank: u8, now: i64)
    ensures
        ({
            let to = entry_value(names, d.s@);
            let r = d.spec_event(names, rank, now);
            let places = price_places((to->0).price_digits);
            let (b, a) = (decimal_at(encode_utf8(d.b@), places), decimal_at(encode_utf8(d.a@), places));
            &&& r is Some <==> to is Some && b is Some && a is Some && b->0 > 0 && a->0 >= b->0
            &&& r matches Some(m) ==> (m matches MarketEvent::Reference { sym, ts, bid, ask, rank: k } && sym == (to->0).sym && bid == b->0 && ask
                == a->0 && k == rank && (d.t is Some ==> ts == d.t->0) && (d.t is None && d.e is Some ==> ts == d.e->0) && (d.t is None && d.e is None
                ==> ts == now))
        }),
{
}

/// A name in a message stands for the instrument that has it.
pub proof fn law_names_lead_to_instruments(m: Seq<SymbolMeta>, r: Seq<(String, Target)>, i: int)
    requires
        targets_of(m, r),
        0 <= i < m.len(),
        forall|j: int| 0 <= j < m.len() && j != i ==> (#[trigger] m[j]).name@ != m[i].name@,
    ensures
        entry_value(r, m[i].name@) matches Some(t) && t.sym == m[i].id && t.price_digits == m[i].price_digits,
{
    law_last_entry(r, m[i].name@, r.len());
    assert(r[i].0@ == m[i].name@);
    let k = crate::table::last_entry(r, m[i].name@, r.len())->0;
    assert(r[k].0@ == m[k].name@);
}

/// Every failed connection doubles the wait, up to the cap.
pub proof fn law_waits_double(b: Backoff, n: nat, power: int)
    requires
        b.wf(),
        power == two_to(n),
    ensures
        after_failures(b, n).secs == min_int(b.secs * power, b.cap as int),
    decreases n,
{
    if n > 0 {
        law_waits_double(b, (n - 1) as nat, two_to((n - 1) as nat));
        crate::feed::law_backoff(b, (n - 1) as nat);
        let (s, p) = (b.secs as int, two_to((n - 1) as nat));
        assert(s * (2 * p) == 2 * (s * p)) by (nonlinear_arith);
    } else {
        assert(b.secs * 1 == b.secs);
    }
}

pub open spec fn two_to(n: nat) -> int
    decreases n,
{
    if n == 0 {
        1
    } else {
        2 * two_to((n - 1) as nat)
    }
}

// ------------------------------------------------------------------------------
// The synthetic market
// ------------------------------------------------------------------------------

/// The lag in steps is the least number of whole steps that covers it.
pub proof fn law_lag_covered(ref_lag_ms: int, step_ms: int)
    requires
        step_ms > 0,
    ensures
        ref_lag_ms <= 0 ==> lag_in_steps(ref_lag_ms, step_ms) == 0,
        ref_lag_ms > 0 ==> {
            let n = lag_in_steps(ref_lag_ms, step_ms);
            (n - 1) * step_ms < ref_lag_ms <= n * step_ms
        },
{
    if ref_lag_ms > 0 {
        let n = lag_in_steps(ref_lag_ms, step_ms);
        assert((n - 1) * step_ms < ref_lag_ms <= n * step_ms) by (nonlinear_arith)
            requires
                n == (ref_lag_ms + step_ms - 1) / step_ms,
                step_ms > 0,
        ;
    }
}

/// The book is built from the price of so many steps ago, the oldest one that is kept while fewer have
/// passed; without a lag from the present one.
pub proof fn law_book_lags(a: SimSymbol, b: SimSymbol, mid: i64, spread_ticks: i64)
    requires
        moved(a, b, mid, spread_ticks),
        a.mids@.len() <= a.lag_steps,
    ensures
        b.mid == mid,
        b.spread_ticks == spread_ticks,
        a.lag_steps == 0 ==> b.spec_book_mid() == mid,
        a.lag_steps > 0 ==> b.mids@.len() <= a.lag_steps && b.mids@.len() > 0 && b.mids@.last() == mid,
        0 < a.mids@.len() < a.lag_steps ==> b.spec_book_mid() == a.spec_book_mid(),
        a.lag_steps > 1 && a.mids@.len() == a.lag_steps ==> b.spec_book_mid() == a.mids@[1],
        a.lag_steps == 1 ==> b.spec_book_mid() == mid,
{
    let t = a.mids@.push(mid);
    if a.lag_steps > 0 && t.len() > a.lag_steps {
        assert(b.mids@ == t.subrange(t.len() - a.lag_steps, t.len() as int));
    }
}

/// A trade prints at the touch that it takes from: a buy at the ask, a sell at the bid; it is for at least
/// one lot, and the trades of a step lie within it, in their order.
pub proof fn law_trades_print_at_the_touch(m: SymbolMeta, b: Bbo, t: int, step_ms: int, draws: Seq<(bool, i64)>, k: int)
    requires
        0 <= k < draws.len(),
        step_ms >= 0,
        i64::MIN <= t,
        t + step_ms <= i64::MAX,
        i64::MIN <= lots(m, draws[k].1 as int) <= i64::MAX,
    ensures
        ({
            let x = sim_trade(m, b, t, step_ms, draws, k);
            &&& draws[k].0 ==> x.taker_side == Side::Buy && x.price == b.ask
            &&& !draws[k].0 ==> x.taker_side == Side::Sell && x.price == b.bid
            &&& x.qty >= m.qty_step
            &&& t <= x.ts <= t + step_ms
            &&& k + 1 < draws.len() ==> x.ts <= sim_trade(m, b, t, step_ms, draws, k + 1).ts
        }),
{
    let n = draws.len() as int + 1;
    let g = step_ms / n;
    assert(0 <= g && g * n <= step_ms) by (nonlinear_arith)
        requires
            g == step_ms / n,
            n > 0,
            step_ms >= 0,
    ;
    assert(0 <= k * g <= (k + 1) * g && (k + 1) * g <= n * g) by (nonlinear_arith)
        requires
            0 <= k < n - 1,
            g >= 0,
    ;
    assert(n * g == g * n) by (nonlinear_arith);
}

/// What the trades of a step do to the price: every buy counts one up and every sell one down.
pub proof fn law_net_counts(draws: Seq<(bool, i64)>, d: (bool, i64))
    ensures
        net_of(Seq::<(bool, i64)>::empty(), 0) == 0,
        net_of(draws.push(d), draws.len() + 1) == net_of(draws, draws.len()) + if d.0 { 1int } else { -1int },
{
    lemma_net_prefix(draws, draws.push(d), draws.len());
}

proof fn lemma_net_prefix(u: Seq<(bool, i64)>, v: Seq<(bool, i64)>, n: nat)
    requires
        n <= u.len() <= v.len(),
        forall|i: int| 0 <= i < u.len() ==> #[trigger] u[i] == v[i],
    ensures
        net_of(u, n) == net_of(v, n),
    decreases n,
{
    if n > 0 {
        lemma_net_prefix(u, v, (n - 1) as nat);
        assert(u[n - 1] == v[n - 1]);
    }
}

/// A book is sent when its prices differ from the last one that was sent, or that is old; so is the true
/// price when it has moved half a tick, or the last one is old, and there is a lag to lead by.
pub proof fn law_when_sent(s: SimSymbol, t: i64)
    ensures
        ({
            let q = s.spec_quote(t);
            let m = on_grid(s.meta, s.mid as int);
            &&& !s.book_due(t) <==> (s.last_bbo matches Some(p) && p.bid == q.bid && p.ask == q.ask) && t - s.last_emit_ts < 3000
            &&& s.lag_steps == 0 ==> !s.reference_due(t)
            &&& s.lag_steps > 0 ==> (!s.reference_due(t) <==> 2 * (m - s.last_ref_mid) < s.meta.tick_size && 2 * (s.last_ref_mid - m) < s.meta.tick_size
                && t - s.last_ref_ts < 1000)
        }),
{
}

/// What a message is: an answer to a subscription, refused only where it says so; another control message;
/// or, with data, books or trades by its topic.
pub proof fn law_messages_told_apart(e: Envelope)
    ensures
        ({
            let topic = |s: Seq<char>| e.op is None && e.has_data && (e.topic matches Some(t) && t@.len() >= s.len() && t@.take(s.len() as int) == s);
            &&& e.spec_route() == Route::Book ==> topic("orderbook."@)
            &&& e.spec_route() == Route::Trades ==> topic("publicTrade."@)
            &&& topic("orderbook."@) ==> e.spec_route() == Route::Book
            &&& e.spec_route() == Route::Refused <==> (e.op matches Some(op) && op@ == "subscribe"@) && e.success == Some(false)
            &&& e.spec_route() == Route::Subscribed <==> (e.op matches Some(op) && op@ == "subscribe"@) && e.success != Some(false)
        }),
{
    if let Some(t) = e.topic {
        let (a, b) = ("orderbook."@, "publicTrade."@);
        assert(t@.len() >= a.len() && t@.take(a.len() as int) == a ==> has_prefix(t@, a)) by {
            if t@.len() >= a.len() && t@.take(a.len() as int) == a {
                assert(forall|i: int| 0 <= i < a.len() ==> t@[i] == t@.take(a.len() as int)[i]);
            }
        }
        assert(has_prefix(t@, a) ==> t@.len() >= a.len() && t@.take(a.len() as int) =~= a);
        assert(has_prefix(t@, b) ==> t@.len() >= b.len() && t@.take(b.len() as int) =~= b);
    }
}

/// The leading venue shows the true price: a tick below and a tick above it, as it stands on the grid.
pub proof fn law_reference_straddles(m: SimSymbol, sym: SymbolId, t: i64)
    requires
        tradable(m.meta),
        has_room(m.meta, m.mid as int, 2),
    ensures
        reference_of(m, sym, t) matches MarketEvent::Reference { sym: s, ts, bid, ask, rank } && s == sym && ts == t && rank == 0 && ask - bid == 2
            * m.meta.tick_size && abs_int(bid + ask - 2 * m.mid) <= m.meta.tick_size,
{
    let d = m.meta.tick_size as int;
    let k = m.meta.spec_price_to_ticks(m.mid as int);
    law_price_grid(m.meta, m.mid as int, k);
    law_rounds_to_nearest(m.mid as int, d);
    assert(k * d <= m.mid + d);
    assert(k >= 1) by (nonlinear_arith)
        requires
            d > 0,
            2 * (m.mid - k * d) <= d,
            4 * d <= 2 * m.mid,
    ;
    assert((k - 1) * d == k * d - d && (k + 1) * d == k * d + d) by (nonlinear_arith);
    assert((k - 1) * d >= 0) by (nonlinear_arith)
        requires
            k >= 1,
            d > 0,
    ;
    law_price_grid(m.meta, (k - 1) * d, k - 1);
    law_price_grid(m.meta, (k + 1) * d, k + 1);
    law_price_grid(m.meta, k * d, k);
}

// ------------------------------------------------------------------------------
// Instruments
// ------------------------------------------------------------------------------

/// An instrument is described as it is listed: its name and coins, the larger of its least order and its
/// step, its largest order, the value of its least order, and the decimals of its tick; what the list
/// leaves open has its default.
pub proof fn law_described_as_listed(i: Instrument, m: SymbolMeta)
    requires
        i.described_by(m),
    ensures
        m.name@ == i.symbol@,
        m.base_coin@ == i.base_coin@,
        m.quote_coin@ == i.quote_coin@,
        ({
            let places = qty_places(m.price_digits);
            let least = match decimal_at(encode_utf8(i.min_order_qty@), places) {
                Some(x) => x as int,
                None => 0,
            };
            &&& m.min_qty >= least && m.min_qty >= m.qty_step && (m.min_qty == least || m.min_qty == m.qty_step)
            &&& i.max_order_qty@.len() > 0 ==> (decimal_at(encode_utf8(i.max_order_qty@), places) matches Some(x) ==> m.max_qty == x)
            &&& i.max_order_qty@.len() == 0 ==> m.max_qty == i64::MAX || m.max_qty == 1_000_000_000_000 * pow10(places as nat)
            &&& i.min_notional_value@.len() == 0 ==> m.min_notional == 500_000_000
            &&& i.min_notional_value@.len() > 0 ==> (decimal_at(encode_utf8(i.min_notional_value@), 8) matches Some(x) ==> m.min_notional == x)
        }),
        m.turnover_24h == 0,
{
}

/// Of the names for a run those on the command line go before those of the configuration, and so does the
/// cap.
pub proof fn law_command_line_goes_first(cli: Seq<String>, configured: Seq<String>, cap: Option<usize>, n: usize)
    ensures
        cli.len() > 0 ==> names_wanted(cli, configured) == cli,
        cli.len() == 0 ==> names_wanted(cli, configured) == configured,
        cap is Some ==> cap_in_force(cap, n) == cap->0,
        cap is None ==> cap_in_force(cap, n) == n,
{
}

/// An instrument has the turnover that the tickers give for its name, the last one if there are several,
/// and keeps its own where they give none.
pub proof fn law_turnover_by_name(m: SymbolMeta, t: Seq<(String, i64)>, j: int)
    requires
        0 <= j < t.len(),
        forall|k: int| j < k < t.len() ==> (#[trigger] t[k]).0@ != m.name@,
    ensures
        t[j].0@ == m.name@ ==> turnover_after(m, t) == t[j].1,
        (forall|k: int| 0 <= k < t.len() ==> (#[trigger] t[k]).0@ != m.name@) ==> turnover_after(m, t) == m.turnover_24h,
{
    law_last_entry(t, m.name@, t.len());
    if let Some(i) = crate::table::last_entry(t, m.name@, t.len()) {
        if i < j {
            assert(t[j].0@ != m.name@);
        }
    }
}

/// A page that was taken is counted; another one follows while it names one and no more than fifty have
/// been read.
pub proof fn law_pages_followed(a: Listing, b: Listing, page: Option<Page>, category: Seq<char>, quote_coin: Seq<char>)
    requires
        page_taken(a, b, page, category, quote_coin),
    ensures
        page is None ==> !b.more && b.found == a.found,
        page matches Some(p) ==> {
            &&& b.pages == a.pages + 1
            &&& b.more <==> p.next_cursor@.len() > 0 && b.pages < 50
            &&& p.next_cursor@.len() > 0 ==> b.cursor@ == p.next_cursor@
        },
{
}

} // verus!
