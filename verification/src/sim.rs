//! A synthetic symbol as the engine sees it: its book follows a true price with a lag, trades print
//! at the touch, and a reference venue shows the true price itself. The true price, the spread and
//! every random draw come from outside.

use vstd::prelude::*;
use crate::types::{Bbo, MarketEvent, Side, SymbolId, SymbolMeta, Trade};
use crate::types::{lemma_scale_unit, scale_unit};
use crate::units::{abs_int, clamp64, floor_div, lemma_div_round_exact, max64, max_int, mul64, sat64};

verus! {

/// An unchanged book is sent again after this long.
pub const BOOK_REPEAT_MS: i64 = 3000;

/// So is an unchanged reference price.
pub const REF_REPEAT_MS: i64 = 1000;

/// Steps by which the book lags behind the true price: the lag in whole steps, rounded up. Without a
/// lag there is no reference venue.
pub open spec fn lag_in_steps(ref_lag_ms: int, step_ms: int) -> int {
    if ref_lag_ms > 0 {
        (ref_lag_ms + step_ms - 1) / step_ms
    } else {
        0
    }
}

pub fn lag_steps(ref_lag_ms: i64, step_ms: i64) -> (r: u64)
    requires
        step_ms > 0,
    ensures
        r == lag_in_steps(ref_lag_ms as int, step_ms as int),
        ref_lag_ms > 0 ==> r >= 1,
{
    if ref_lag_ms > 0 {
        let n: i128 = floor_div(ref_lag_ms as i128 + step_ms as i128 - 1, step_ms as i128);
        proof {
            let a = ref_lag_ms + step_ms - 1;
            let b = step_ms as int;
            assert(1 <= a / b <= a) by (nonlinear_arith)
                requires
                    b > 0,
                    a >= b,
            ;
        }
        n as u64
    } else {
        0
    }
}

pub struct SimSymbol {
    pub meta: SymbolMeta,
    /// The true price.
    pub mid: i64,
    pub spread_ticks: i64,
    pub lag_steps: usize,
    /// Recent true prices; the book is built from the oldest one.
    pub mids: Vec<i64>,
    pub last_bbo: Option<Bbo>,
    pub last_emit_ts: i64,
    pub last_ref_mid: i64,
    pub last_ref_ts: i64,
}

/// The price rounded to the instrument's grid.
pub open spec fn on_grid(m: SymbolMeta, price: int) -> int {
    m.spec_ticks_to_price(m.spec_price_to_ticks(price))
}

/// The best bid around a mid: half the spread below it, down to the tick.
pub open spec fn sim_bid(m: SymbolMeta, mid: int, ticks: int) -> int {
    on_grid(m, clamp64((2 * mid - ticks * m.tick_size) / (2 * m.tick_size as int) * m.tick_size))
}

/// The best ask: the spread above the bid.
pub open spec fn sim_ask(m: SymbolMeta, mid: int, ticks: int) -> int {
    on_grid(m, clamp64(sim_bid(m, mid, ticks) + ticks * m.tick_size))
}

/// A drawn size in lots, at least one.
pub open spec fn lots(m: SymbolMeta, raw: int) -> int {
    max_int(m.spec_round_qty_down(raw), m.qty_step as int)
}

/// The last `n` of a sequence.
pub open spec fn last_of(s: Seq<i64>, n: nat) -> Seq<i64> {
    if s.len() <= n {
        s
    } else {
        s.subrange(s.len() - n, s.len() as int)
    }
}

/// The trade of draw `k`: a buy prints at the ask, a sell at the bid; the trades of a step are spread
/// evenly over it.
pub open spec fn sim_trade(m: SymbolMeta, b: Bbo, t: int, step_ms: int, draws: Seq<(bool, i64)>, k: int) -> Trade {
    Trade {
        ts: clamp64(t + k * (step_ms / (draws.len() as int + 1))) as i64,
        price: if draws[k].0 { b.ask } else { b.bid },
        qty: lots(m, draws[k].1 as int) as i64,
        taker_side: if draws[k].0 { Side::Buy } else { Side::Sell },
    }
}

impl SimSymbol {
    pub open spec fn wf(&self) -> bool {
        self.meta.tick_size > 0
    }

    /// The mid the book is built from: the true one delayed by the lag.
    pub open spec fn spec_book_mid(&self) -> i64 {
        if self.lag_steps > 0 && self.mids@.len() > 0 {
            self.mids@[0]
        } else {
            self.mid
        }
    }

    pub fn book_mid(&self) -> (r: i64)
        ensures
            r == self.spec_book_mid(),
    {
        if self.lag_steps > 0 && self.mids.len() > 0 {
            self.mids[0]
        } else {
            self.mid
        }
    }

    pub open spec fn spec_quote(&self, ts: i64) -> Bbo {
        Bbo {
            ts,
            bid: sim_bid(self.meta, self.spec_book_mid() as int, max_int(self.spread_ticks as int, 1)) as i64,
            ask: sim_ask(self.meta, self.spec_book_mid() as int, max_int(self.spread_ticks as int, 1)) as i64,
            bid_qty: 0,
            ask_qty: 0,
        }
    }

    /// A symbol that has sent nothing yet.
    pub fn new(meta: SymbolMeta, mid: i64, spread_ticks: i64, lag_steps: usize) -> (r: SimSymbol)
        ensures
            r.meta == meta,
            r.mid == mid,
            r.spread_ticks == spread_ticks,
            r.lag_steps == lag_steps,
            r.mids@.len() == 0,
            r.last_bbo is None,
            r.last_emit_ts == 0,
            r.last_ref_mid == 0,
            r.last_ref_ts == 0,
    {
        SimSymbol { meta, mid, spread_ticks, lag_steps, mids: Vec::new(), last_bbo: None, last_emit_ts: 0, last_ref_mid: 0, last_ref_ts: 0 }
    }

    /// The book as it stands, without sizes.
    pub fn quote(&self, ts: i64) -> (r: Bbo)
        requires
            self.wf(),
        ensures
            r == self.spec_quote(ts),
    {
        let tick: i64 = self.meta.tick_size;
        let ticks: i64 = max64(self.spread_ticks, 1);
        let mid: i64 = self.book_mid();
        let width: i128 = mul64(ticks, tick);
        let a: i128 = 2 * (mid as i128) - width;
        let k: i128 = floor_div(a, 2 * (tick as i128));
        proof {
            let q = k as int;
            let d = tick as int;
            let x = a as int;
            assert(x - 2 * d < q * (2 * d) <= x) by (nonlinear_arith)
                requires
                    d > 0,
                    q == x / (2 * d),
            ;
            assert(q * (2 * d) == 2 * (q * d)) by (nonlinear_arith);
        }
        let bid: i64 = self.meta.round_price(sat64(k * (tick as i128)));
        let ask: i64 = self.meta.round_price(sat64(bid as i128 + width));
        Bbo { ts, bid, ask, bid_qty: 0, ask_qty: 0 }
    }

    fn lot(&self, raw: i64) -> (r: i64)
        ensures
            r == lots(self.meta, raw as int),
    {
        max64(self.meta.round_qty_down(raw), self.meta.qty_step)
    }

    /// The trades of a step, from the drawn sides (true = buy) and sizes, on the book before it.
    pub fn trades(&self, t: i64, step_ms: i64, draws: &Vec<(bool, i64)>) -> (r: Vec<Trade>)
        requires
            self.wf(),
            step_ms >= 0,
            draws@.len() < i64::MAX,
        ensures
            r@.len() == draws@.len(),
            forall|k: int|
                0 <= k < draws@.len() ==> #[trigger] r@[k] == sim_trade(self.meta, self.spec_quote(t), t as int, step_ms as int, draws@, k),
    {
        let b: Bbo = self.quote(t);
        let n: usize = draws.len();
        let gap: i64 = step_ms / (n as i64 + 1);
        let mut r: Vec<Trade> = Vec::new();
        let mut k: usize = 0;
        while k < n
            invariant
                k <= n == draws@.len() < i64::MAX,
                b == self.spec_quote(t),
                gap == step_ms as int / (draws@.len() as int + 1),
                r@.len() == k,
                forall|j: int|
                    0 <= j < k ==> #[trigger] r@[j] == sim_trade(self.meta, self.spec_quote(t), t as int, step_ms as int, draws@, j),
            decreases n - k,
        {
            let buy: bool = draws[k].0;
            let qty: i64 = self.lot(draws[k].1);
            let after: i128 = mul64(k as i64, gap);
            let ts: i64 = sat64(t as i128 + after);
            r.push(
                Trade {
                    ts,
                    price: if buy {
                        b.ask
                    } else {
                        b.bid
                    },
                    qty,
                    taker_side: if buy {
                        Side::Buy
                    } else {
                        Side::Sell
                    },
                },
            );
            k = k + 1;
        }
        r
    }

    /// The true price and the spread have moved. Returns whether the book is to be sent: its prices
    /// changed, or it was last sent long ago.
    pub open spec fn book_due(&self, t: i64) -> bool {
        let q = self.spec_quote(t);
        (self.last_bbo matches Some(p) ==> p.bid != q.bid || p.ask != q.ask) || t - self.last_emit_ts >= BOOK_REPEAT_MS
    }

    pub fn advance(&mut self, mid: i64, spread_ticks: i64, t: i64) -> (due: bool)
        requires
            old(self).wf(),
        ensures
            *final(self) == (SimSymbol { mid, spread_ticks, mids: final(self).mids, ..*old(self) }),
            final(self).mids@ == if old(self).lag_steps > 0 {
                last_of(old(self).mids@.push(mid), old(self).lag_steps as nat)
            } else {
                old(self).mids@
            },
            due == final(self).book_due(t),
    {
        self.mid = mid;
        self.spread_ticks = spread_ticks;
        if self.lag_steps > 0 {
            self.mids.push(mid);
            let ghost s = self.mids@;
            let ghost n = s.len();
            assert(s.subrange(0, n as int) =~= s);
            while self.mids.len() > self.lag_steps
                invariant
                    self.lag_steps > 0,
                    self.mids@.len() <= n,
                    n == s.len(),
                    self.mids@ == s.subrange(n - self.mids@.len(), n as int),
                    self.mids@.len() == n || self.mids@.len() >= self.lag_steps,
                    s == old(self).mids@.push(mid),
                    *self == (SimSymbol { mid, spread_ticks, mids: self.mids, ..*old(self) }),
                decreases self.mids@.len(),
            {
                let _ = self.mids.remove(0);
                assert(self.mids@ =~= s.subrange(n - self.mids@.len(), n as int));
            }
        }
        let q: Bbo = self.quote(t);
        let changed: bool = match self.last_bbo {
            Some(p) => p.bid != q.bid || p.ask != q.ask,
            None => true,
        };
        changed || t as i128 - self.last_emit_ts as i128 >= BOOK_REPEAT_MS as i128
    }

    /// The book with drawn sizes.
    pub open spec fn sized_quote(&self, t: i64, bid_raw: i64, ask_raw: i64) -> Bbo {
        Bbo { bid_qty: lots(self.meta, bid_raw as int) as i64, ask_qty: lots(self.meta, ask_raw as int) as i64, ..self.spec_quote(t) }
    }

    /// Send the book.
    pub fn book_event(&mut self, sym: SymbolId, t: i64, bid_raw: i64, ask_raw: i64) -> (r: MarketEvent)
        requires
            old(self).wf(),
        ensures
            r == (MarketEvent::Bbo { sym, bbo: old(self).sized_quote(t, bid_raw, ask_raw) }),
            *final(self) == (SimSymbol { last_bbo: Some(old(self).sized_quote(t, bid_raw, ask_raw)), last_emit_ts: t, ..*old(self) }),
    {
        let mut bbo: Bbo = self.quote(t);
        bbo.bid_qty = self.lot(bid_raw);
        bbo.ask_qty = self.lot(ask_raw);
        self.last_bbo = Some(bbo);
        self.last_emit_ts = t;
        MarketEvent::Bbo { sym, bbo }
    }

    /// The reference venue sends the true price: it moved half a tick, or was last sent long ago.
    pub open spec fn reference_due(&self, t: i64) -> bool {
        self.lag_steps > 0 && (2 * abs_int(on_grid(self.meta, self.mid as int) - self.last_ref_mid) >= self.meta.tick_size || t - self.last_ref_ts
            >= REF_REPEAT_MS)
    }

    /// One tick each side of the true price: the reference mid is exact.
    pub fn reference_event(&mut self, sym: SymbolId, t: i64) -> (r: Option<MarketEvent>)
        requires
            old(self).wf(),
        ensures
            ({
                let m = on_grid(old(self).meta, old(self).mid as int);
                let tick = old(self).meta.tick_size;
                if old(self).reference_due(t) {
                    &&& r == Some(
                        MarketEvent::Reference {
                            sym,
                            ts: t,
                            bid: on_grid(old(self).meta, clamp64(m - tick)) as i64,
                            ask: on_grid(old(self).meta, clamp64(m + tick)) as i64,
                            rank: 0,
                        },
                    )
                    &&& *final(self) == (SimSymbol { last_ref_mid: m as i64, last_ref_ts: t, ..*old(self) })
                } else {
                    r is None && *final(self) == *old(self)
                }
            }),
    {
        if self.lag_steps == 0 {
            return None;
        }
        let tick: i64 = self.meta.tick_size;
        let m: i64 = self.meta.round_price(self.mid);
        let d: i128 = m as i128 - self.last_ref_mid as i128;
        let moved: i128 = if d >= 0 {
            d
        } else {
            -d
        };
        if 2 * moved >= tick as i128 || t as i128 - self.last_ref_ts as i128 >= REF_REPEAT_MS as i128 {
            self.last_ref_mid = m;
            self.last_ref_ts = t;
            let bid: i64 = self.meta.round_price(sat64(m as i128 - tick as i128));
            let ask: i64 = self.meta.round_price(sat64(m as i128 + tick as i128));
            Some(MarketEvent::Reference { sym, ts: t, bid, ask, rank: 0 })
        } else {
            None
        }
    }
}

/// What is drawn for one step of a symbol.
pub struct Draw {
    /// Sides (true = buy) and sizes of the trades.
    pub trades: Vec<(bool, i64)>,
    /// The true price after the step.
    pub mid: i64,
    pub spread_ticks: i64,
    /// Sizes of the book, used when it is sent.
    pub bid_size: i64,
    pub ask_size: i64,
}

/// `m` is `pre` with the true price and the spread of the step.
pub open spec fn moved(pre: SimSymbol, m: SimSymbol, mid: i64, spread_ticks: i64) -> bool {
    &&& m == (SimSymbol { mid, spread_ticks, mids: m.mids, ..pre })
    &&& m.mids@ == if pre.lag_steps > 0 {
        last_of(pre.mids@.push(mid), pre.lag_steps as nat)
    } else {
        pre.mids@
    }
}

/// The state after the book has been sent, where it is due.
pub open spec fn book_sent(m: SimSymbol, t: i64, d: Draw) -> SimSymbol {
    if m.book_due(t) {
        SimSymbol { last_bbo: Some(m.sized_quote(t, d.bid_size, d.ask_size)), last_emit_ts: t, ..m }
    } else {
        m
    }
}

/// The state after the reference price has been sent, where it is due.
pub open spec fn reference_sent(m: SimSymbol, t: i64) -> SimSymbol {
    if m.reference_due(t) {
        SimSymbol { last_ref_mid: on_grid(m.meta, m.mid as int) as i64, last_ref_ts: t, ..m }
    } else {
        m
    }
}

/// The trades of a step, on the book before it.
pub open spec fn is_trade_event(pre: SimSymbol, e: MarketEvent, sym: SymbolId, t: i64, step_ms: i64, draws: Seq<(bool, i64)>) -> bool {
    &&& e matches MarketEvent::Trades { sym: s, trades }
    &&& s == sym
    &&& trades@ == Seq::new(draws.len(), |k: int| sim_trade(pre.meta, pre.spec_quote(t), t as int, step_ms as int, draws, k))
}

/// The reference price one tick each side of the true price.
pub open spec fn reference_of(m: SimSymbol, sym: SymbolId, t: i64) -> MarketEvent {
    let x = on_grid(m.meta, m.mid as int);
    MarketEvent::Reference {
        sym,
        ts: t,
        bid: on_grid(m.meta, clamp64(x - m.meta.tick_size)) as i64,
        ask: on_grid(m.meta, clamp64(x + m.meta.tick_size)) as i64,
        rank: 0,
    }
}

/// The book and the reference price of a step, as far as they are due.
pub open spec fn quotes_sent(m: SimSymbol, sym: SymbolId, t: i64, d: Draw) -> Seq<MarketEvent> {
    let b = book_sent(m, t, d);
    let book = if m.book_due(t) {
        seq![MarketEvent::Bbo { sym, bbo: m.sized_quote(t, d.bid_size, d.ask_size) }]
    } else {
        Seq::empty()
    };
    if b.reference_due(t) {
        book.push(reference_of(b, sym, t))
    } else {
        book
    }
}

/// One step of a symbol: the events are appended, trades first, then the book that reflects them,
/// then the reference price.
pub open spec fn stepped(
    pre: SimSymbol,
    post: SimSymbol,
    sym: SymbolId,
    t: i64,
    step_ms: i64,
    d: Draw,
    old_out: Seq<MarketEvent>,
    out: Seq<MarketEvent>,
) -> bool {
    let m = SimSymbol { mid: d.mid, spread_ticks: d.spread_ticks, mids: post.mids, ..pre };
    let n = old_out.len() as int;
    &&& moved(pre, m, d.mid, d.spread_ticks)
    &&& post == reference_sent(book_sent(m, t, d), t)
    &&& if d.trades@.len() == 0 {
        out == old_out + quotes_sent(m, sym, t, d)
    } else {
        &&& n < out.len()
        &&& is_trade_event(pre, out[n], sym, t, step_ms, d.trades@)
        &&& out == old_out.push(out[n]) + quotes_sent(m, sym, t, d)
    }
}

impl SimSymbol {
    /// Whether the book will be sent once the true price and the spread are these.
    pub fn will_send(&self, mid: i64, spread_ticks: i64, t: i64) -> (r: bool)
        requires
            self.wf(),
        ensures
            exists|m: SimSymbol| #[trigger] moved(*self, m, mid, spread_ticks) && r == m.book_due(t),
    {
        let mut mids: Vec<i64> = Vec::new();
        let mut i: usize = 0;
        while i < self.mids.len()
            invariant
                i <= self.mids@.len(),
                mids@ == self.mids@.take(i as int),
            decreases self.mids@.len() - i,
        {
            mids.push(self.mids[i]);
            i = i + 1;
            assert(mids@ =~= self.mids@.take(i as int));
        }
        assert(mids@ =~= self.mids@);
        let mut m = SimSymbol {
            meta: self.meta.copy(),
            mid: self.mid,
            spread_ticks: self.spread_ticks,
            lag_steps: self.lag_steps,
            mids,
            last_bbo: self.last_bbo,
            last_emit_ts: self.last_emit_ts,
            last_ref_mid: self.last_ref_mid,
            last_ref_ts: self.last_ref_ts,
        };
        let due: bool = m.advance(mid, spread_ticks, t);
        assert(moved(*self, m, mid, spread_ticks));
        due
    }

    /// Advance by one step and append its events.
    pub fn step(&mut self, sym: SymbolId, t: i64, step_ms: i64, d: &Draw, out: &mut Vec<MarketEvent>)
        requires
            old(self).wf(),
            step_ms >= 0,
            d.trades@.len() < i64::MAX,
        ensures
            final(self).wf(),
            stepped(*old(self), *final(self), sym, t, step_ms, *d, old(out)@, final(out)@),
    {
        let ghost before = out@;
        if d.trades.len() > 0 {
            let trades: Vec<Trade> = self.trades(t, step_ms, &d.trades);
            assert(trades@ =~= Seq::new(
                d.trades@.len(),
                |k: int| sim_trade(old(self).meta, old(self).spec_quote(t), t as int, step_ms as int, d.trades@, k),
            ));
            out.push(MarketEvent::Trades { sym, trades });
        }
        let ghost traded = out@;
        let due: bool = self.advance(d.mid, d.spread_ticks, t);
        let ghost m = *self;
        assert(moved(*old(self), m, d.mid, d.spread_ticks));
        if due {
            let e: MarketEvent = self.book_event(sym, t, d.bid_size, d.ask_size);
            out.push(e);
        }
        let ghost b = *self;
        assert(b == book_sent(m, t, *d));
        if let Some(e) = self.reference_event(sym, t) {
            out.push(e);
        }
        proof {
            assert(out@ =~= traded + quotes_sent(m, sym, t, *d));
            if d.trades@.len() == 0 {
                assert(traded =~= before);
            } else {
                assert(out@[before.len() as int] == traded[before.len() as int]);
                assert(traded =~= before.push(out@[before.len() as int]));
            }
        }
    }
}

/// The instrument's tick shows in its decimals, and its lots are positive.
pub open spec fn tradable(m: SymbolMeta) -> bool {
    &&& m.tick_size > 0
    &&& m.tick_size as int % scale_unit(m.price_digits, m.price_scale) == 0
    &&& m.qty_step > 0
}

/// There is room for the spread around the price, above zero and within range.
pub open spec fn has_room(m: SymbolMeta, mid: int, ticks: int) -> bool {
    &&& 2 * m.tick_size + max_int(ticks, 1) * m.tick_size <= 2 * mid
    &&& mid + max_int(ticks, 1) * m.tick_size <= i64::MAX
}

/// An event of the symbol with nothing wrong in it.
pub open spec fn sound_event(e: MarketEvent, sym: SymbolId) -> bool {
    match e {
        MarketEvent::Trades { sym: s, trades } => s == sym && trades@.len() > 0 && forall|k: int|
            0 <= k < trades@.len() ==> (#[trigger] trades@[k]).price > 0 && trades@[k].qty > 0,
        MarketEvent::Bbo { sym: s, bbo } => s == sym && bbo.valid() && bbo.bid_qty > 0 && bbo.ask_qty > 0,
        MarketEvent::Reference { sym: s, ts: _, bid, ask, rank: _ } => s == sym && 0 < bid < ask,
        _ => false,
    }
}

/// Trades before the book before the reference price.
pub open spec fn place_in_step(e: MarketEvent) -> int {
    match e {
        MarketEvent::Trades { .. } => 0,
        MarketEvent::Bbo { .. } => 1,
        _ => 2,
    }
}

/// Whatever is drawn, as long as there is room around the prices: a step keeps the events that were
/// there, appends at most one event of each kind, trades before the book before the reference price,
/// and every one of them is sound.
pub proof fn law_step_sound(
    pre: SimSymbol,
    post: SimSymbol,
    sym: SymbolId,
    t: i64,
    step_ms: i64,
    d: Draw,
    old_out: Seq<MarketEvent>,
    out: Seq<MarketEvent>,
)
    requires
        stepped(pre, post, sym, t, step_ms, d, old_out, out),
        tradable(pre.meta),
        has_room(pre.meta, pre.spec_book_mid() as int, pre.spread_ticks as int),
        has_room(pre.meta, post.spec_book_mid() as int, d.spread_ticks as int),
        has_room(pre.meta, d.mid as int, 2),
    ensures
        old_out.len() <= out.len(),
        out.take(old_out.len() as int) == old_out,
        forall|i: int| old_out.len() <= i < out.len() ==> sound_event(#[trigger] out[i], sym),
        forall|i: int, j: int| old_out.len() <= i < j < out.len() ==> place_in_step(#[trigger] out[i]) < place_in_step(#[trigger] out[j]),
{
    let n = old_out.len() as int;
    let m = SimSymbol { mid: d.mid, spread_ticks: d.spread_ticks, mids: post.mids, ..pre };
    let b = book_sent(m, t, d);
    assert(post.spec_book_mid() == m.spec_book_mid());
    let q = quotes_sent(m, sym, t, d);
    law_sim_book(pre.meta, pre.spec_book_mid() as int, max_int(pre.spread_ticks as int, 1));
    law_sim_book(pre.meta, m.spec_book_mid() as int, max_int(d.spread_ticks as int, 1));
    lemma_reference(pre.meta, d.mid as int);
    assert(out.take(n) =~= old_out);
    assert forall|i: int| 0 <= i < q.len() implies sound_event(#[trigger] q[i], sym) && place_in_step(q[i]) >= 1 && (i > 0 ==> q[i] is Reference
        && q[0] is Bbo) by {}
    assert forall|i: int| n <= i < out.len() implies sound_event(#[trigger] out[i], sym) by {
        if d.trades@.len() == 0 {
            assert(out[i] == q[i - n]);
        } else if i > n {
            assert(out[i] == q[i - n - 1]);
        }
    }
    assert forall|i: int, j: int| n <= i < j < out.len() implies place_in_step(#[trigger] out[i]) < place_in_step(#[trigger] out[j]) by {
        if d.trades@.len() == 0 {
            assert(out[i] == q[i - n] && out[j] == q[j - n]);
        } else {
            assert(out[j] == q[j - n - 1]);
            if i > n {
                assert(out[i] == q[i - n - 1]);
            }
        }
    }
}

/// One tick each side of a price with room around it is a positive bid below an ask.
proof fn lemma_reference(m: SymbolMeta, mid: int)
    requires
        tradable(m),
        has_room(m, mid, 2),
    ensures
        0 < on_grid(m, clamp64(on_grid(m, mid) - m.tick_size)) < on_grid(m, clamp64(on_grid(m, mid) + m.tick_size)) <= i64::MAX,
{
    let d = m.tick_size as int;
    let k = m.spec_price_to_ticks(mid);
    assert(k == (2 * mid + d) / (2 * d));
    assert(2 * mid - d < k * (2 * d) <= 2 * mid + d) by (nonlinear_arith)
        requires
            d > 0,
            k == (2 * mid + d) / (2 * d),
    ;
    assert(k * (2 * d) == 2 * (k * d)) by (nonlinear_arith);
    assert(k >= 2) by (nonlinear_arith)
        requires
            d > 0,
            3 * d <= 2 * mid,
            k == (2 * mid + d) / (2 * d),
    ;
    assert((k - 1) * d == k * d - d && (k + 1) * d == k * d + d) by (nonlinear_arith);
    assert((k - 1) * d >= d) by (nonlinear_arith)
        requires
            d > 0,
            k >= 2,
    ;
    lemma_whole_ticks(m, k - 1);
    lemma_whole_ticks(m, k + 1);
    lemma_grid_of_whole(m, k);
}

/// A whole number of ticks as a price, held within range.
proof fn lemma_grid_of_whole(m: SymbolMeta, k: int)
    requires
        tradable(m),
        k * m.tick_size <= i64::MAX,
        k >= 0,
    ensures
        m.spec_ticks_to_price(k) == k * m.tick_size,
{
    let d = m.tick_size as int;
    assert(k * d >= 0) by (nonlinear_arith)
        requires
            k >= 0,
            d > 0,
    ;
    lemma_whole_ticks(m, k);
    lemma_div_round_exact(k, d);
}

/// A whole number of ticks is on the grid, when the tick shows in the instrument's decimals.
proof fn lemma_whole_ticks(m: SymbolMeta, q: int)
    requires
        m.tick_size > 0,
        m.tick_size as int % scale_unit(m.price_digits, m.price_scale) == 0,
        i64::MIN <= q * m.tick_size <= i64::MAX,
    ensures
        on_grid(m, q * m.tick_size) == q * m.tick_size,
{
    let d = m.tick_size as int;
    let u = scale_unit(m.price_digits, m.price_scale);
    lemma_scale_unit(m.price_digits, m.price_scale);
    let k = d / u;
    lemma_div_round_exact(q, d);
    assert(d == k * u) by (nonlinear_arith)
        requires
            u > 0,
            d % u == 0,
            k == d / u,
    ;
    assert(q * d == (q * k) * u) by (nonlinear_arith)
        requires
            d == k * u,
    ;
    lemma_div_round_exact(q * k, u);
}

/// Around a price that leaves room for it below, a synthetic book is sound: a positive bid, an ask
/// exactly the spread above it, and the middle within a tick of the price.
pub proof fn law_sim_book(m: SymbolMeta, mid: int, ticks: int)
    requires
        m.tick_size > 0,
        m.tick_size as int % scale_unit(m.price_digits, m.price_scale) == 0,
        ticks >= 1,
        2 * m.tick_size + ticks * m.tick_size <= 2 * mid,
        mid + ticks * m.tick_size <= i64::MAX,
    ensures
        0 < sim_bid(m, mid, ticks) < sim_ask(m, mid, ticks),
        sim_ask(m, mid, ticks) - sim_bid(m, mid, ticks) == ticks * m.tick_size,
        sim_bid(m, mid, ticks) + sim_ask(m, mid, ticks) <= 2 * mid < sim_bid(m, mid, ticks) + sim_ask(m, mid, ticks) + 2 * m.tick_size,
{
    let d = m.tick_size as int;
    let x = 2 * mid - ticks * d;
    let q = x / (2 * d);
    assert(x - 2 * d < q * (2 * d) <= x) by (nonlinear_arith)
        requires
            d > 0,
            q == x / (2 * d),
    ;
    assert(q * (2 * d) == 2 * (q * d)) by (nonlinear_arith);
    assert(0 < ticks * d) by (nonlinear_arith)
        requires
            d > 0,
            ticks >= 1,
    ;
    lemma_whole_ticks(m, q);
    assert((q + ticks) * d == q * d + ticks * d) by (nonlinear_arith);
    lemma_whole_ticks(m, q + ticks);
}

/// Buys minus sells among the draws: what the trades of a step do to the price.
pub open spec fn net_of(draws: Seq<(bool, i64)>, n: nat) -> int
    decreases n,
{
    if n == 0 {
        0
    } else {
        net_of(draws, (n - 1) as nat) + if draws[n - 1].0 {
            1int
        } else {
            -1
        }
    }
}

pub fn net_buys(draws: &Vec<(bool, i64)>) -> (r: i64)
    requires
        draws@.len() < i64::MAX,
    ensures
        r == net_of(draws@, draws@.len()),
{
    let mut r: i64 = 0;
    let mut i: usize = 0;
    while i < draws.len()
        invariant
            i <= draws@.len() < i64::MAX,
            -i <= r <= i,
            r == net_of(draws@, i as nat),
        decreases draws@.len() - i,
    {
        if draws[i].0 {
            r = r + 1;
        } else {
            r = r - 1;
        }
        i = i + 1;
    }
    r
}

} // verus!
