//! The trading core. Single-threaded: every piece of mutable state lives here and is
//! touched only from `on_market` / `on_time` / `tick`. The same code runs live (system clock,
//! WebSocket feed), in simulation (synthetic feed) and in replay (recorded feed, clock
//! = record timestamps), so what the optimizer measures is exactly what trades.
//!
//! What is to be persisted is put into the `outbox`, from where the caller takes it. Each step of
//! the engine is described by a relation between its state before and after; a step that consists
//! of several is described by the states in between.

use vstd::prelude::*;
use crate::book::Book;
use crate::config::{Config, Overrides, ParamError, StrategyParams, SymbolLists};
use crate::eligibility::{judged, Experience, Verdict};
use crate::order::{is_stable_order, stable_order};
use crate::order_laws::{law_sync_tracks, orders_tracked};
use crate::paper::{find_order, PaperEvent, PaperExchange, PaperOrder, PlaceReq};
use crate::paper_laws::{law_events_keep_symbols, syms_below};
use crate::portfolio::{Portfolio, Position};
use crate::portfolio_laws::law_position_set;
use crate::risk::{verdict, RiskState};
use crate::stats::SymbolStats;
use crate::store::{MdPrint, MdQuote, Note, PnlRow, StoreMsg, SymbolStatsRow};
use crate::strategy::{compute_quotes, Quote, QuoteInput, Quotes};
use crate::types::{str_eq, Bbo, Fill, MarketEvent, OrderDone, Side, SymbolId, SymbolMeta, Trade};
use crate::units::{abs_int, add_sat, clamp128, clamp64, div_round, inc32, inc64, lemma_mul_bound, max128, max_int, min_int, next32, next64, quot, round_div, sat64, sub_sat, trunc_div, BPS_ONE, ONE, ONE128, TWO126, TWO63};

verus! {

/// A fill whose markout is not known yet.
#[derive(Clone, Copy, Debug, PartialEq, Eq, Structural)]
pub struct Markout {
    pub due: i64,
    pub side: Side,
    /// The mid when it filled.
    pub mid0: i64,
}

#[derive(Debug)]
pub struct SymbolState {
    pub meta: SymbolMeta,
    pub book: Book,
    pub stats: SymbolStats,
    pub bbo: Option<Bbo>,
    pub bid_order: Option<u64>,
    pub ask_order: Option<u64>,
    pub last_requote_ms: i64,
    pub verdict: Verdict,
    pub active: bool,
    pub params: StrategyParams,
    pub quote_reason: &'static str,
    pub last_rec_bbo_ts: i64,
    pub last_rec_bbo: Option<Bbo>,
    pub last_rec_ref_ts: i64,
    /// realized pnl and fees of the symbol when its current position was opened
    pub rt_open_marks: Option<(i128, i128)>,
    /// leading-venue top of book and its provider rank / arrival time
    pub ref_bbo: Option<Bbo>,
    pub ref_ts: i64,
    pub ref_rank: u8,
    /// EWMA of (our mid - reference mid): perps trade at a basis to spot / other venues
    pub basis: i64,
    pub basis_n: u32,
    pub last_ref_dev_bps: i64,
    /// online markouts after our own fills
    pub experience: Experience,
    pub pending_markouts: Vec<Markout>,
}

#[derive(Clone, Copy, Debug, PartialEq, Eq, Structural)]
pub struct Counters {
    pub events: u64,
    pub books: u64,
    pub trades: u64,
    pub requotes: u64,
    pub placed: u64,
    pub cancelled: u64,
    pub orders_filled: u64,
    pub orders_done: u64,
    pub orders_rejected: u64,
    pub roundtrips: u64,
    pub roundtrip_wins: u64,
    pub ticks: u64,
    /// Sixteen fractional digits.
    pub exposure_sum: i128,
}

impl Counters {
    pub open spec fn zero() -> Counters {
        Counters {
            events: 0,
            books: 0,
            trades: 0,
            requotes: 0,
            placed: 0,
            cancelled: 0,
            orders_filled: 0,
            orders_done: 0,
            orders_rejected: 0,
            roundtrips: 0,
            roundtrip_wins: 0,
            ticks: 0,
            exposure_sum: 0,
        }
    }
}

impl Default for Counters {
    fn default() -> (r: Counters)
        ensures
            r == Counters::zero(),
    {
        Counters {
            events: 0,
            books: 0,
            trades: 0,
            requotes: 0,
            placed: 0,
            cancelled: 0,
            orders_filled: 0,
            orders_done: 0,
            orders_rejected: 0,
            roundtrips: 0,
            roundtrip_wins: 0,
            ticks: 0,
            exposure_sum: 0,
        }
    }
}

#[derive(Debug)]
pub struct Engine {
    pub cfg: Config,
    pub overrides: Overrides,
    pub lists: SymbolLists,
    pub symbols: Vec<SymbolState>,
    pub paper: PaperExchange,
    pub portfolio: Portfolio,
    pub risk: RiskState,
    pub halted: bool,
    /// What is to be persisted, in order.
    pub outbox: Vec<StoreMsg>,
    pub param_version: u32,
    pub run_id: i64,
    pub record_md: bool,
    pub last_tick_sec: i64,
    pub last_refresh_ms: i64,
    pub last_stats_snap_ms: i64,
    pub last_pnl_snap_ms: i64,
    pub last_cfg_check_ms: i64,
    pub n_active: usize,
    pub counters: Counters,
    pub started_ts: i64,
}

impl SymbolState {
    pub open spec fn wf(&self) -> bool {
        self.meta.tick_size > 0 && self.book.tick_size > 0 && self.stats.wf()
    }

    pub open spec fn order_on(&self, side: Side) -> Option<u64> {
        match side {
            Side::Buy => self.bid_order,
            Side::Sell => self.ask_order,
        }
    }

    pub open spec fn with_order(self, side: Side, id: Option<u64>) -> SymbolState {
        match side {
            Side::Buy => SymbolState { bid_order: id, ..self },
            Side::Sell => SymbolState { ask_order: id, ..self },
        }
    }

    pub open spec fn has_order(&self) -> bool {
        self.bid_order is Some || self.ask_order is Some
    }

    /// (reference mid + basis - our mid) / our mid in bps, 0 when the reference is stale or unknown.
    pub open spec fn ref_dev(&self, stale_ms: int, now: int) -> int {
        match (self.ref_bbo, self.bbo) {
            (Some(r), Some(o)) => {
                let o2 = o.bid + o.ask;
                if now - self.ref_ts <= stale_ms && self.basis_n >= 5 && o2 > 0 {
                    clamp64(div_round((r.bid + r.ask + 2 * self.basis - o2) * BPS_ONE, o2))
                } else {
                    0
                }
            },
            _ => 0,
        }
    }

    fn ref_dev_bps(&self, stale_ms: i64, now: i64) -> (r: i64)
        ensures
            r == self.ref_dev(stale_ms as int, now as int),
    {
        match (self.ref_bbo, self.bbo) {
            (Some(r), Some(o)) => {
                let o2: i128 = o.bid as i128 + o.ask as i128;
                if now as i128 - self.ref_ts as i128 <= stale_ms as i128 && self.basis_n >= 5 && o2 > 0 {
                    let d: i128 = r.bid as i128 + r.ask as i128 + 2 * (self.basis as i128) - o2;
                    sat64(round_div(d * BPS_ONE, o2))
                } else {
                    0
                }
            },
            _ => 0,
        }
    }
}

impl Engine {
    pub open spec fn wf(&self) -> bool {
        &&& self.symbols@.len() <= u32::MAX
        &&& forall|i: int| 0 <= i < self.symbols@.len() ==> (#[trigger] self.symbols@[i]).wf()
        &&& syms_below(self.paper, self.symbols@.len() as int)
    }

    pub open spec fn sym(&self, sym: SymbolId) -> SymbolState {
        self.symbols@[sym as int]
    }

    /// Market data of the symbol is recorded.
    pub open spec fn records(&self, sym: SymbolId) -> bool {
        self.record_md && (self.cfg.recording.symbols@ == "eligible"@ ==> self.sym(sym).active || self.sym(sym).verdict.eligible)
    }

    fn should_record(&self, idx: usize) -> (r: bool)
        requires
            idx < self.symbols@.len(),
            idx <= u32::MAX,
        ensures
            r == self.records(idx as u32),
    {
        if !self.record_md {
            false
        } else if str_eq(self.cfg.recording.symbols.as_str(), "eligible") {
            self.symbols[idx].active || self.symbols[idx].verdict.eligible
        } else {
            true
        }
    }
}

// ------------------------------------------------------------------------------
// Quotes and orders
// ------------------------------------------------------------------------------

/// The resting order already is what is wanted: within half a tick, of the size that is wanted, same
/// kind, same purpose. The size is the one that was ordered, whatever has been filled of it since.
pub open spec fn matches_quote(d: Quote, o: PaperOrder, tick: int) -> bool {
    2 * abs_int(d.price - o.price) < tick && d.qty == o.qty && d.taker == o.taker && d.purpose == o.purpose
}

/// The order that puts the quote into the book.
pub open spec fn place_req(e: Engine, sym: SymbolId, side: Side, d: Quote) -> PlaceReq {
    PlaceReq {
        sym,
        side,
        price: d.price,
        qty: d.qty,
        taker: d.taker,
        purpose: d.purpose,
        inventory_before: e.portfolio.spec_qty(sym),
        param_version: e.param_version,
        price_digits: e.sym(sym).meta.price_digits,
    }
}

/// Nothing rests on the side: the wanted quote, if any, is placed.
pub open spec fn placed(pre: Engine, post: Engine, sym: SymbolId, side: Side, desired: Option<Quote>, now: i64) -> bool {
    match desired {
        None => {
            &&& post.symbols@ == pre.symbols@.update(sym as int, pre.sym(sym).with_order(side, None))
            &&& post == (Engine { symbols: post.symbols, ..pre })
        },
        Some(d) => {
            &&& post.paper.after_place(&pre.paper, now, place_req(pre, sym, side, d))
            &&& post.symbols@ == pre.symbols@.update(sym as int, pre.sym(sym).with_order(side, Some(pre.paper.next_id)))
            &&& post == (Engine {
                paper: post.paper,
                symbols: post.symbols,
                counters: Counters { placed: inc64(pre.counters.placed), ..pre.counters },
                ..pre
            })
        },
    }
}

/// The order is asked to leave.
pub open spec fn cancelled(pre: Engine, post: Engine, now: i64, ev: PaperEvent) -> bool {
    &&& post.paper.after(&pre.paper, now, ev)
    &&& post == (Engine {
        paper: post.paper,
        counters: Counters { cancelled: inc64(pre.counters.cancelled), ..pre.counters },
        ..pre
    })
}

/// One side is brought in line with the wanted quote: an order that matches, or that is already on
/// its way out, stays; one whose price, size, kind or purpose differs is cancelled, and the new one
/// is placed once it is gone.
pub open spec fn synced(pre: Engine, post: Engine, sym: SymbolId, side: Side, desired: Option<Quote>, now: i64) -> bool {
    match pre.sym(sym).order_on(side) {
        None => placed(pre, post, sym, side, desired, now),
        Some(id) => match find_order(pre.paper.orders@, id, 0) {
            None => placed(pre, post, sym, side, desired, now),
            Some(i) => {
                let o = pre.paper.orders@[i];
                if o.state == crate::paper::OrderState::CancelPending || (desired matches Some(d) && matches_quote(
                    d,
                    o,
                    pre.sym(sym).meta.tick_size as int,
                )) {
                    post == pre
                } else {
                    cancelled(pre, post, now, PaperEvent::Cancel(id))
                }
            },
        },
    }
}

/// The quotes that the strategy wants for the symbol now.
pub open spec fn wanted_quotes(e: Engine, sym: SymbolId, bbo: Bbo, now: i64) -> Quotes {
    let st = e.sym(sym);
    let pos = e.portfolio.held(sym);
    QuoteInput {
        meta: &st.meta,
        bbo: &bbo,
        stats: &st.stats,
        params: &st.params,
        maker_fee: e.cfg.fees.maker_rate,
        position_qty: pos.qty,
        position_avg: pos.avg_price,
        position_age_secs: pos.spec_age_secs(now as int) as i64,
        now_ms: now,
        allow_new_exposure: e.risk.allow_entries && !e.halted,
        reduce_only: !st.active,
        ref_dev_bps: st.ref_dev(e.cfg.reference.stale_ms as int, now as int) as i64,
    }.quotes()
}

/// The symbol has no position and is not to be quoted.
pub open spec fn rests_out(e: Engine, sym: SymbolId) -> bool {
    e.portfolio.held(sym).flat() && (!e.sym(sym).active || e.halted)
}

/// Nothing is wanted in the book: whatever rests there is cancelled.
pub open spec fn withdrawn(pre: Engine, post: Engine, sym: SymbolId, now: i64) -> bool {
    &&& post.symbols@ == pre.symbols@.update(
        sym as int,
        SymbolState {
            quote_reason: if pre.halted {
                "halted"
            } else {
                "inactive"
            },
            ..pre.sym(sym)
        },
    )
    &&& if pre.sym(sym).has_order() {
        &&& post.paper.after(&pre.paper, now, PaperEvent::CancelAll(sym))
        &&& post == (Engine {
            symbols: post.symbols,
            paper: post.paper,
            counters: Counters { cancelled: inc64(pre.counters.cancelled), ..pre.counters },
            ..pre
        })
    } else {
        post == (Engine { symbols: post.symbols, ..pre })
    }
}

/// The symbol's state takes note of a new set of quotes.
pub open spec fn noted(pre: Engine, post: Engine, sym: SymbolId, q: Quotes, now: i64) -> bool {
    &&& post.symbols@ == pre.symbols@.update(
        sym as int,
        SymbolState {
            last_ref_dev_bps: pre.sym(sym).ref_dev(pre.cfg.reference.stale_ms as int, now as int) as i64,
            quote_reason: q.reason,
            last_requote_ms: now,
            ..pre.sym(sym)
        },
    )
    &&& post == (Engine {
        symbols: post.symbols,
        counters: Counters { requotes: inc64(pre.counters.requotes), ..pre.counters },
        ..pre
    })
}

/// Both sides are brought in line with the quotes that are wanted.
pub open spec fn quoted(pre: Engine, post: Engine, sym: SymbolId, q: Quotes, now: i64) -> bool {
    exists|a: Engine, b: Engine|
        #[trigger] noted(pre, a, sym, q, now) && #[trigger] synced(a, b, sym, Side::Buy, q.bid, now) && synced(b, post, sym, Side::Sell, q.ask, now)
}

/// One round of quoting a symbol: nothing without a market, out of the book when it is not to be
/// quoted, nothing before the minimum interval has passed.
pub open spec fn requoted(pre: Engine, post: Engine, sym: SymbolId, now: i64) -> bool {
    match pre.sym(sym).bbo {
        None => post == pre,
        Some(bbo) => if rests_out(pre, sym) {
            withdrawn(pre, post, sym, now)
        } else if now - pre.sym(sym).last_requote_ms < pre.sym(sym).params.min_requote_ms {
            post == pre
        } else {
            quoted(pre, post, sym, wanted_quotes(pre, sym, bbo, now), now)
        },
    }
}

impl Engine {
    fn set_order_id(&mut self, idx: usize, side: Side, id: Option<u64>)
        requires
            idx < old(self).symbols@.len(),
        ensures
            final(self).symbols@ == old(self).symbols@.update(idx as int, old(self).symbols@[idx as int].with_order(side, id)),
            *final(self) == (Engine { symbols: final(self).symbols, ..*old(self) }),
    {
        match side {
            Side::Buy => {
                self.symbols[idx].bid_order = id;
            },
            Side::Sell => {
                self.symbols[idx].ask_order = id;
            },
        }
    }

    fn place_wanted(&mut self, sym: SymbolId, side: Side, desired: Option<Quote>, now: i64)
        requires
            old(self).wf(),
            (sym as int) < old(self).symbols@.len(),
        ensures
            final(self).wf(),
            placed(*old(self), *final(self), sym, side, desired, now),
    {
        let idx: usize = sym as usize;
        match desired {
            None => {
                self.set_order_id(idx, side, None);
            },
            Some(d) => {
                let req = PlaceReq {
                    sym,
                    side,
                    price: d.price,
                    qty: d.qty,
                    taker: d.taker,
                    purpose: d.purpose,
                    inventory_before: self.portfolio.qty(sym),
                    param_version: self.param_version,
                    price_digits: self.symbols[idx].meta.price_digits,
                };
                let id: u64 = self.paper.place(now, req);
                self.set_order_id(idx, side, Some(id));
                self.counters.placed = next64(self.counters.placed);
            },
        }
    }

    /// Bring the resting order on one side in line with the desired quote:
    /// keep it if price, size, kind and purpose match, otherwise cancel it (and place the new one once
    /// the cancel has gone through, on a later requote), or place when nothing rests. At most one order
    /// rests on each side, the tracked one.
    pub fn sync_side(&mut self, sym: SymbolId, side: Side, desired: Option<Quote>, now: i64)
        requires
            old(self).wf(),
            (sym as int) < old(self).symbols@.len(),
        ensures
            final(self).wf(),
            synced(*old(self), *final(self), sym, side, desired, now),
            orders_tracked(*old(self)) && old(self).paper.next_id < u64::MAX ==> orders_tracked(*final(self)),
    {
        let idx: usize = sym as usize;
        let existing: Option<u64> = match side {
            Side::Buy => self.symbols[idx].bid_order,
            Side::Sell => self.symbols[idx].ask_order,
        };
        let id: u64 = match existing {
            None => {
                self.place_wanted(sym, side, desired, now);
                proof {
                    law_sync_tracks(*old(self), *self, sym, side, desired, now);
                }
                return;
            },
            Some(id) => id,
        };
        let o: PaperOrder = match self.paper.order(id) {
            None => {
                // finished but not yet drained: treat as gone
                self.place_wanted(sym, side, desired, now);
                proof {
                    law_sync_tracks(*old(self), *self, sym, side, desired, now);
                }
                return;
            },
            Some(o) => *o,
        };
        if o.is_cancel_pending() {
            return;
        }
        let same: bool = match desired {
            Some(d) => {
                let diff: i128 = d.price as i128 - o.price as i128;
                let dist: i128 = if diff < 0 {
                    -diff
                } else {
                    diff
                };
                2 * dist < self.symbols[idx].meta.tick_size as i128 && d.qty == o.qty && d.taker == o.taker && d.purpose == o.purpose
            },
            None => false,
        };
        if same {
            return;
        }
        self.paper.cancel(now, id);
        proof {
            law_events_keep_symbols(old(self).paper, self.paper, now, PaperEvent::Cancel(id), self.symbols@.len() as int);
        }
        self.counters.cancelled = next64(self.counters.cancelled);
        proof {
            law_sync_tracks(*old(self), *self, sym, side, desired, now);
        }
    }

    fn requote(&mut self, sym: SymbolId, now: i64)
        requires
            old(self).wf(),
            (sym as int) < old(self).symbols@.len(),
        ensures
            final(self).wf(),
            requoted(*old(self), *final(self), sym, now),
    {
        let idx: usize = sym as usize;
        let pos: Position = match self.portfolio.position(sym) {
            Some(p) => *p,
            None => Position::default(),
        };
        let bbo: Bbo = match self.symbols[idx].bbo {
            Some(b) => b,
            None => {
                return;
            },
        };
        if pos.is_flat() && (!self.symbols[idx].active || self.halted) {
            // nothing to do here: make sure nothing rests in the book
            if self.symbols[idx].bid_order.is_some() || self.symbols[idx].ask_order.is_some() {
                self.paper.cancel_all(now, sym);
                proof {
                    law_events_keep_symbols(old(self).paper, self.paper, now, PaperEvent::CancelAll(sym), self.symbols@.len() as int);
                }
                self.counters.cancelled = next64(self.counters.cancelled);
            }
            self.symbols[idx].quote_reason = if self.halted {
                "halted"
            } else {
                "inactive"
            };
            return;
        }
        if (now as i128 - self.symbols[idx].last_requote_ms as i128) < self.symbols[idx].params.min_requote_ms as i128 {
            return;
        }
        let ref_dev: i64 = self.symbols[idx].ref_dev_bps(self.cfg.reference.stale_ms, now);
        let age: i64 = pos.age_secs(now);
        let quotes: Quotes = {
            let st: &SymbolState = &self.symbols[idx];
            let inp = QuoteInput {
                meta: &st.meta,
                bbo: &bbo,
                stats: &st.stats,
                params: &st.params,
                maker_fee: self.cfg.fees.maker_rate,
                position_qty: pos.qty,
                position_avg: pos.avg_price,
                position_age_secs: age,
                now_ms: now,
                allow_new_exposure: self.risk.allow_entries && !self.halted,
                reduce_only: !st.active,
                ref_dev_bps: ref_dev,
            };
            compute_quotes(&inp)
        };
        assert(quotes == wanted_quotes(*old(self), sym, bbo, now));
        self.symbols[idx].last_ref_dev_bps = ref_dev;
        self.symbols[idx].quote_reason = quotes.reason;
        self.symbols[idx].last_requote_ms = now;
        self.counters.requotes = next64(self.counters.requotes);
        let ghost a = *self;
        assert(a.symbols@ =~= old(self).symbols@.update(
            idx as int,
            SymbolState {
                last_ref_dev_bps: ref_dev,
                quote_reason: quotes.reason,
                last_requote_ms: now,
                ..old(self).sym(sym)
            },
        ));
        assert(noted(*old(self), a, sym, quotes, now));
        self.sync_side(sym, Side::Buy, quotes.bid, now);
        let ghost b = *self;
        assert(synced(a, b, sym, Side::Buy, quotes.bid, now));
        self.sync_side(sym, Side::Sell, quotes.ask, now);
    }
}

// ------------------------------------------------------------------------------
// Fills and orders
// ------------------------------------------------------------------------------

/// Profit and fees of the position when its round trip began.
pub open spec fn open_marks(p: Position, realized: int, fee: int) -> (i128, i128) {
    (clamp128(p.realized_pnl - realized) as i128, clamp128(p.fees - fee) as i128)
}

/// The marks of the round trip after a fill took the position from `p0` to `p1`.
pub open spec fn marks_after(marks: Option<(i128, i128)>, p0: Position, p1: Position, realized: int, fee: int) -> Option<(i128, i128)> {
    if p1.flat() {
        if p0.flat() {
            marks
        } else {
            None
        }
    } else if p0.flat() || marks is None {
        Some(open_marks(p1, realized, fee))
    } else {
        marks
    }
}

/// Net profit of the round trip that ends with the position `p`.
pub open spec fn roundtrip_pnl(marks: (i128, i128), p: Position) -> int {
    clamp128(clamp128(p.realized_pnl - marks.0) - clamp128(p.fees - marks.1))
}

/// A round trip ends where an open position goes flat.
pub open spec fn count_roundtrip(c: Counters, marks: Option<(i128, i128)>, p0: Position, p1: Position) -> Counters {
    if !p0.flat() && p1.flat() && marks is Some {
        Counters {
            roundtrips: inc64(c.roundtrips),
            roundtrip_wins: if roundtrip_pnl(marks->0, p1) > 0 {
                inc64(c.roundtrip_wins)
            } else {
                c.roundtrip_wins
            },
            ..c
        }
    } else {
        c
    }
}

/// The markout to be taken of a fill: against the mid at the fill, or its price without a market.
pub open spec fn markout_of(f: Fill, horizon_secs: u32) -> Markout {
    Markout {
        due: clamp64(f.ts + horizon_secs * 1000) as i64,
        side: f.side,
        mid0: if f.bid > 0 && f.ask > f.bid {
            ((f.bid + f.ask) / 2) as i64
        } else {
            f.price
        },
    }
}

pub open spec fn position_msg(name: String, price_digits: u32, p: Position, now: i64) -> StoreMsg {
    StoreMsg::PositionState {
        symbol: name,
        price_digits,
        qty: p.qty,
        avg_price: p.avg_price,
        realized_pnl: p.realized_pnl,
        fees: p.fees,
        opened_ts: p.opened_ts,
        last_mid: p.last_mid,
        updated_ts: now,
    }
}

/// A fill goes into the books: position, round trips, pending markouts, messages.
pub open spec fn fill_taken(pre: Engine, post: Engine, f: Fill, now: i64) -> bool {
    let st = pre.sym(f.sym);
    let p0 = pre.portfolio.held(f.sym);
    let p1 = p0.after(f);
    let realized = p0.realized_by(f);
    &&& post.portfolio.after_fill(&pre.portfolio, f)
    &&& post.sym(f.sym).pending_markouts@ == st.pending_markouts@.push(markout_of(f, pre.cfg.eligibility.markout_horizon_secs))
    &&& post.symbols@ == pre.symbols@.update(
        f.sym as int,
        SymbolState {
            rt_open_marks: marks_after(st.rt_open_marks, p0, p1, realized, f.fee as int),
            pending_markouts: post.sym(f.sym).pending_markouts,
            ..st
        },
    )
    &&& post.outbox@ == pre.outbox@.push(StoreMsg::Fill { fill: f, symbol: st.meta.name, price_digits: st.meta.price_digits, realized: realized as i128 }).push(
        position_msg(st.meta.name, st.meta.price_digits, p1, now),
    )
    &&& post == (Engine {
        portfolio: post.portfolio,
        symbols: post.symbols,
        outbox: post.outbox,
        counters: count_roundtrip(pre.counters, st.rt_open_marks, p0, p1),
        ..pre
    })
}

/// The fills go into the books one by one.
pub open spec fn fills_taken(pre: Engine, post: Engine, fs: Seq<Fill>, now: i64) -> bool
    decreases fs.len(),
{
    if fs.len() == 0 {
        post == pre
    } else {
        exists|m: Engine| fills_taken(pre, m, fs.drop_last(), now) && #[trigger] fill_taken(m, post, fs.last(), now)
    }
}

pub open spec fn cleared(id: Option<u64>, done: u64) -> Option<u64> {
    if id == Some(done) {
        None
    } else {
        id
    }
}

/// An order that has left the book is no longer anybody's resting order.
pub open spec fn done_taken(pre: Engine, post: Engine, d: OrderDone) -> bool {
    let st = pre.sym(d.sym);
    &&& post.symbols@ == pre.symbols@.update(
        d.sym as int,
        SymbolState {
            bid_order: cleared(st.bid_order, d.order_id),
            ask_order: cleared(st.ask_order, d.order_id),
            ..st
        },
    )
    &&& post.outbox@ == pre.outbox@.push(StoreMsg::OrderDone { done: d, symbol: st.meta.name, price_digits: st.meta.price_digits })
    &&& post == (Engine {
        symbols: post.symbols,
        outbox: post.outbox,
        counters: Counters {
            orders_done: inc64(pre.counters.orders_done),
            orders_filled: if d.status@ == "filled"@ {
                inc64(pre.counters.orders_filled)
            } else {
                pre.counters.orders_filled
            },
            orders_rejected: if d.status@ != "filled"@ && d.status@ == "rejected_post_only"@ {
                inc64(pre.counters.orders_rejected)
            } else {
                pre.counters.orders_rejected
            },
            ..pre.counters
        },
        ..pre
    })
}

pub open spec fn dones_taken(pre: Engine, post: Engine, ds: Seq<OrderDone>) -> bool
    decreases ds.len(),
{
    if ds.len() == 0 {
        post == pre
    } else {
        exists|m: Engine| dones_taken(pre, m, ds.drop_last()) && #[trigger] done_taken(m, post, ds.last())
    }
}

pub open spec fn emptied(pre: Engine, post: Engine) -> bool {
    &&& post.paper.after_drain(&pre.paper)
    &&& post == (Engine { paper: post.paper, ..pre })
}

/// What the paper exchange has reported is taken in: fills first, then finished orders.
pub open spec fn drained(pre: Engine, post: Engine, now: i64) -> bool {
    if pre.paper.fills@.len() == 0 && pre.paper.done@.len() == 0 {
        post == pre
    } else {
        exists|a: Engine, b: Engine|
            #[trigger] emptied(pre, a) && #[trigger] fills_taken(a, b, pre.paper.fills@, now) && dones_taken(b, post, pre.paper.done@)
    }
}

impl Engine {
    fn take_fill(&mut self, f: &Fill, now: i64)
        requires
            old(self).wf(),
            (f.sym as int) < old(self).symbols@.len(),
        ensures
            final(self).wf(),
            final(self).symbols@.len() == old(self).symbols@.len(),
            fill_taken(*old(self), *final(self), *f, now),
    {
        let idx: usize = f.sym as usize;
        let p0: Position = match self.portfolio.position(f.sym) {
            Some(p) => *p,
            None => Position::default(),
        };
        let realized: i128 = self.portfolio.on_fill(f);
        proof {
            law_position_set(old(self).portfolio.positions@, f.sym, p0.after(*f));
        }
        let p1: Position = match self.portfolio.position(f.sym) {
            Some(p) => *p,
            None => Position::default(),
        };
        assert(p1 == p0.after(*f));
        let marks: Option<(i128, i128)> = self.symbols[idx].rt_open_marks;
        if p1.is_flat() {
            if !p0.is_flat() {
                if let Some((r0, f0)) = marks {
                    let pnl: i128 = sub_sat(sub_sat(p1.realized_pnl, r0), sub_sat(p1.fees, f0));
                    self.counters.roundtrips = next64(self.counters.roundtrips);
                    if pnl > 0 {
                        self.counters.roundtrip_wins = next64(self.counters.roundtrip_wins);
                    }
                }
                self.symbols[idx].rt_open_marks = None;
            }
        } else if p0.is_flat() || marks.is_none() {
            self.symbols[idx].rt_open_marks = Some((sub_sat(p1.realized_pnl, realized), sub_sat(p1.fees, f.fee)));
        }
        let mid0: i64 = if f.bid > 0 && f.ask > f.bid {
            ((f.bid as i128 + f.ask as i128) / 2) as i64
        } else {
            f.price
        };
        let horizon: i128 = (self.cfg.eligibility.markout_horizon_secs as i128) * 1000;
        let m = Markout { due: sat64(f.ts as i128 + horizon), side: f.side, mid0 };
        self.symbols[idx].pending_markouts.push(m);
        let name: String = self.symbols[idx].meta.name.clone();
        let price_digits: u32 = self.symbols[idx].meta.price_digits;
        self.outbox.push(StoreMsg::Fill { fill: *f, symbol: name.clone(), price_digits, realized });
        self.outbox.push(
            StoreMsg::PositionState {
                symbol: name,
                price_digits,
                qty: p1.qty,
                avg_price: p1.avg_price,
                realized_pnl: p1.realized_pnl,
                fees: p1.fees,
                opened_ts: p1.opened_ts,
                last_mid: p1.last_mid,
                updated_ts: now,
            },
        );
        proof {
            let st = old(self).sym(f.sym);
            assert(self.symbols@ =~= old(self).symbols@.update(
                f.sym as int,
                SymbolState {
                    rt_open_marks: marks_after(st.rt_open_marks, p0, p1, realized as int, f.fee as int),
                    pending_markouts: self.sym(f.sym).pending_markouts,
                    ..st
                },
            ));
        }
    }

    fn take_done(&mut self, d: &OrderDone)
        requires
            old(self).wf(),
            (d.sym as int) < old(self).symbols@.len(),
        ensures
            final(self).wf(),
            final(self).symbols@.len() == old(self).symbols@.len(),
            done_taken(*old(self), *final(self), *d),
    {
        let idx: usize = d.sym as usize;
        if let Some(id) = self.symbols[idx].bid_order {
            if id == d.order_id {
                self.symbols[idx].bid_order = None;
            }
        }
        if let Some(id) = self.symbols[idx].ask_order {
            if id == d.order_id {
                self.symbols[idx].ask_order = None;
            }
        }
        self.counters.orders_done = next64(self.counters.orders_done);
        if str_eq(d.status, "filled") {
            self.counters.orders_filled = next64(self.counters.orders_filled);
        } else if str_eq(d.status, "rejected_post_only") {
            self.counters.orders_rejected = next64(self.counters.orders_rejected);
        }
        let name: String = self.symbols[idx].meta.name.clone();
        self.outbox.push(StoreMsg::OrderDone { done: *d, symbol: name, price_digits: self.symbols[idx].meta.price_digits });
        proof {
            let st = old(self).sym(d.sym);
            assert(self.symbols@ =~= old(self).symbols@.update(
                d.sym as int,
                SymbolState {
                    bid_order: cleared(st.bid_order, d.order_id),
                    ask_order: cleared(st.ask_order, d.order_id),
                    ..st
                },
            ));
        }
    }

    fn drain_fills(&mut self, now: i64)
        requires
            old(self).wf(),
        ensures
            final(self).wf(),
            final(self).symbols@.len() == old(self).symbols@.len(),
            drained(*old(self), *final(self), now),
    {
        if self.paper.fills.len() == 0 && self.paper.done.len() == 0 {
            return;
        }
        let (fills, done): (Vec<Fill>, Vec<OrderDone>) = self.paper.drain();
        let ghost n = self.symbols@.len();
        let ghost a = *self;
        assert(emptied(*old(self), a));
        let mut i: usize = 0;
        assert(fills@.take(0) =~= Seq::<Fill>::empty());
        while i < fills.len()
            invariant
                i <= fills@.len(),
                self.wf(),
                self.symbols@.len() == n,
                forall|k: int| 0 <= k < fills@.len() ==> (#[trigger] fills@[k]).sym < n,
                fills_taken(a, *self, fills@.take(i as int), now),
            decreases fills@.len() - i,
        {
            let ghost m = *self;
            assert(fills@[i as int].sym < n);
            self.take_fill(&fills[i], now);
            proof {
                let t = fills@.take(i + 1);
                assert(t.drop_last() =~= fills@.take(i as int));
                assert(fills_taken(a, m, t.drop_last(), now));
                assert(fill_taken(m, *self, t.last(), now));
                assert(fills_taken(a, *self, t, now));
            }
            i = i + 1;
        }
        assert(fills@.take(i as int) =~= fills@);
        let ghost b = *self;
        let mut j: usize = 0;
        assert(done@.take(0) =~= Seq::<OrderDone>::empty());
        while j < done.len()
            invariant
                j <= done@.len(),
                self.wf(),
                self.symbols@.len() == n,
                forall|k: int| 0 <= k < done@.len() ==> (#[trigger] done@[k]).sym < n,
                dones_taken(b, *self, done@.take(j as int)),
            decreases done@.len() - j,
        {
            let ghost m = *self;
            assert(done@[j as int].sym < n);
            self.take_done(&done[j]);
            proof {
                let t = done@.take(j + 1);
                assert(t.drop_last() =~= done@.take(j as int));
                assert(dones_taken(b, m, t.drop_last()));
                assert(done_taken(m, *self, t.last()));
                assert(dones_taken(b, *self, t));
            }
            j = j + 1;
        }
        assert(done@.take(j as int) =~= done@);
        assert(fills_taken(a, b, old(self).paper.fills@, now));
        assert(dones_taken(b, *self, old(self).paper.done@));
    }
}

// ------------------------------------------------------------------------------
// Inputs
// ------------------------------------------------------------------------------

/// The top of book differs from the one recorded last in price or size.
pub open spec fn differs(last: Option<Bbo>, b: Bbo) -> bool {
    last matches Some(p) ==> p.bid != b.bid || p.ask != b.ask || p.bid_qty != b.bid_qty || p.ask_qty != b.ask_qty
}

/// A top of book is recorded when it changed and the last record is old enough.
pub open spec fn records_bbo(e: Engine, sym: SymbolId, b: Bbo, now: i64) -> bool {
    e.records(sym) && differs(e.sym(sym).last_rec_bbo, b) && now - e.sym(sym).last_rec_bbo_ts >= e.cfg.recording.bbo_min_interval_ms
}

pub open spec fn quote_msg(sym: SymbolId, price_digits: u32, b: Bbo, now: i64) -> StoreMsg {
    StoreMsg::MdBbo(MdQuote { ts: now, sym, bid: b.bid, ask: b.ask, bid_qty: b.bid_qty, ask_qty: b.ask_qty, price_digits })
}

/// A new top of book is noted everywhere: statistics, paper exchange, portfolio, records.
pub open spec fn bbo_noted(pre: Engine, post: Engine, sym: SymbolId, b: Bbo, now: i64) -> bool {
    let st = pre.sym(sym);
    let rec = records_bbo(pre, sym, b, now);
    &&& post.sym(sym).stats.after_bbo(&st.stats, b, now)
    &&& post.symbols@ == pre.symbols@.update(
        sym as int,
        SymbolState {
            bbo: Some(b),
            stats: post.sym(sym).stats,
            last_rec_bbo_ts: if rec { now } else { st.last_rec_bbo_ts },
            last_rec_bbo: if rec { Some(b) } else { st.last_rec_bbo },
            ..st
        },
    )
    &&& post.paper.after_bbo(&pre.paper, now, sym, b)
    &&& post.portfolio.after_mid(&pre.portfolio, sym, b.spec_mid() as i64)
    &&& post.outbox@ == if rec { pre.outbox@.push(quote_msg(sym, st.meta.price_digits, b, now)) } else { pre.outbox@ }
    &&& post == (Engine { symbols: post.symbols, paper: post.paper, portfolio: post.portfolio, outbox: post.outbox, ..pre })
}

/// A new top of book: it is noted, fills it caused are taken in, the symbol is quoted anew.
pub open spec fn bbo_handled(pre: Engine, post: Engine, sym: SymbolId, b: Bbo, now: i64) -> bool {
    exists|x: Engine, y: Engine| #[trigger] bbo_noted(pre, x, sym, b, now) && #[trigger] drained(x, y, now) && requoted(y, post, sym, now)
}

/// A public trade goes to statistics, paper exchange and, where it is recorded, to the records.
pub open spec fn trade_taken(pre: Engine, post: Engine, sym: SymbolId, t: Trade, now: i64, rec: bool) -> bool {
    let st = pre.sym(sym);
    &&& post.sym(sym).stats.after_trade(&st.stats, t, now)
    &&& post.symbols@ == pre.symbols@.update(sym as int, SymbolState { stats: post.sym(sym).stats, ..st })
    &&& post.paper.after(&pre.paper, now, PaperEvent::Trade(sym, t))
    &&& post.outbox@ == if rec {
        pre.outbox@.push(
            StoreMsg::MdTrade(MdPrint { ts: now, sym, side: t.taker_side.spec_as_u8(), price: t.price, qty: t.qty, price_digits: st.meta.price_digits }),
        )
    } else {
        pre.outbox@
    }
    &&& post == (Engine {
        symbols: post.symbols,
        paper: post.paper,
        outbox: post.outbox,
        counters: Counters { trades: inc64(pre.counters.trades), ..pre.counters },
        ..pre
    })
}

pub open spec fn trades_taken(pre: Engine, post: Engine, sym: SymbolId, ts: Seq<Trade>, now: i64, rec: bool) -> bool
    decreases ts.len(),
{
    if ts.len() == 0 {
        post == pre
    } else {
        exists|m: Engine| trades_taken(pre, m, sym, ts.drop_last(), now, rec) && #[trigger] trade_taken(m, post, sym, ts.last(), now, rec)
    }
}

/// New turnovers; a symbol that is not ours is passed over, a later figure replaces an earlier one.
pub open spec fn turnover_of(st: SymbolState, i: int, v: Seq<(SymbolId, i64)>) -> i64
    decreases v.len(),
{
    if v.len() == 0 {
        st.meta.turnover_24h
    } else if v.last().0 == i {
        v.last().1
    } else {
        turnover_of(st, i, v.drop_last())
    }
}

pub open spec fn with_turnover(st: SymbolState, t: i64) -> SymbolState {
    SymbolState { meta: SymbolMeta { turnover_24h: t, ..st.meta }, ..st }
}

pub open spec fn turnovers_taken(pre: Engine, post: Engine, v: Seq<(SymbolId, i64)>) -> bool {
    &&& post.symbols@.len() == pre.symbols@.len()
    &&& forall|i: int|
        0 <= i < pre.symbols@.len() ==> #[trigger] post.symbols@[i] == with_turnover(pre.symbols@[i], turnover_of(pre.symbols@[i], i, v))
    &&& post == (Engine { symbols: post.symbols, ..pre })
}

/// A reference quote is used if its provider is at least as good as the present one, or the present
/// one has been silent for too long.
pub open spec fn takes_reference(e: Engine, sym: SymbolId, bid: i64, ask: i64, rank: u8, now: i64) -> bool {
    &&& (sym as int) < e.symbols@.len()
    &&& bid > 0 && ask >= bid
    &&& rank <= e.sym(sym).ref_rank || now - e.sym(sym).ref_ts > e.cfg.reference.stale_ms
}

/// Our mid less the reference's.
pub open spec fn basis_sample(ours: Bbo, bid: i64, ask: i64) -> int {
    clamp64(div_round(ours.bid + ours.ask - (bid + ask), 2))
}

/// The basis after another sample: the first one counts whole, later ones by the smoothing factor.
pub open spec fn basis_after(st: SymbolState, bid: i64, ask: i64, alpha: i64) -> int {
    match st.bbo {
        None => st.basis as int,
        Some(ours) => {
            let x = basis_sample(ours, bid, ask);
            if st.basis_n == 0 {
                x
            } else {
                clamp64(st.basis + div_round((x - st.basis) * alpha, ONE as int))
            }
        },
    }
}

pub open spec fn records_ref(e: Engine, sym: SymbolId, now: i64) -> bool {
    e.records(sym) && now - e.sym(sym).last_rec_ref_ts >= e.cfg.recording.bbo_min_interval_ms
}

/// A difference taken so many times.
fn gain(to: i64, from: i64, weight: i64) -> (r: i128)
    ensures
        r == (to - from) * weight,
        -2 * TWO126 + TWO63 <= r <= 2 * TWO126 - TWO63,
{
    proof {
        lemma_mul_bound(to - from, weight as int, 2 * TWO63 - 1, TWO63 as int);
        assert((2 * TWO63 - 1) * TWO63 == 2 * TWO126 - TWO63);
    }
    (to as i128 - from as i128) * (weight as i128)
}

/// A reference quote is noted: provider, basis, records.
pub open spec fn reference_noted(pre: Engine, post: Engine, sym: SymbolId, ts: i64, bid: i64, ask: i64, rank: u8, now: i64) -> bool {
    let st = pre.sym(sym);
    let rec = records_ref(pre, sym, now);
    &&& post.symbols@ == pre.symbols@.update(
        sym as int,
        SymbolState {
            ref_rank: rank,
            ref_ts: now,
            ref_bbo: Some(Bbo { ts, bid, ask, bid_qty: 0, ask_qty: 0 }),
            basis: basis_after(st, bid, ask, pre.cfg.reference.basis_alpha) as i64,
            basis_n: if st.bbo is Some { inc32(st.basis_n) } else { st.basis_n },
            last_rec_ref_ts: if rec { now } else { st.last_rec_ref_ts },
            ..st
        },
    )
    &&& post.outbox@ == if rec {
        pre.outbox@.push(StoreMsg::MdRef(MdQuote { ts: now, sym, bid, ask, bid_qty: 0, ask_qty: 0, price_digits: st.meta.price_digits }))
    } else {
        pre.outbox@
    }
    &&& post == (Engine { symbols: post.symbols, outbox: post.outbox, ..pre })
}

/// The clock of the paper exchange advances and the event is counted.
pub open spec fn clocked(pre: Engine, post: Engine, now: i64) -> bool {
    &&& post.paper.after(&pre.paper, now, PaperEvent::Time)
    &&& post == (Engine { paper: post.paper, counters: Counters { events: inc64(pre.counters.events), ..pre.counters }, ..pre })
}

pub open spec fn book_counted(pre: Engine, post: Engine) -> bool {
    post == (Engine { counters: Counters { books: inc64(pre.counters.books), ..pre.counters }, ..pre })
}

/// A message of the order book channel is applied to the local book.
pub open spec fn book_applied(
    pre: Engine,
    post: Engine,
    sym: SymbolId,
    ts: i64,
    snapshot: bool,
    bids: Seq<(i64, i64)>,
    asks: Seq<(i64, i64)>,
) -> bool {
    &&& post.sym(sym).book.after_apply(&pre.sym(sym).book, ts, snapshot, bids, asks)
    &&& post.symbols@ == pre.symbols@.update(sym as int, SymbolState { book: post.sym(sym).book, ..pre.sym(sym) })
    &&& post == (Engine {
        symbols: post.symbols,
        counters: Counters { books: inc64(pre.counters.books), ..pre.counters },
        ..pre
    })
}

/// What an event does to the state, after the clock advanced. `ends` says that the event is dropped
/// and no housekeeping follows it.
pub open spec fn event_taken(pre: Engine, post: Engine, ev: MarketEvent, now: i64, ends: bool) -> bool {
    match ev {
        MarketEvent::Book { sym, ts, snapshot, bids, asks } => if sym as int >= pre.symbols@.len() {
            ends && post == pre
        } else {
            !ends && exists|m: Engine, b: Option<Bbo>|
                #[trigger] book_applied(pre, m, sym, ts, snapshot, bids@, asks@) && #[trigger] m.sym(sym).book.is_bbo(b) && match b {
                    Some(q) => bbo_handled(m, post, sym, q, now),
                    None => post == m,
                }
        },
        MarketEvent::Bbo { sym, bbo } => if sym as int >= pre.symbols@.len() {
            !ends && post == pre
        } else {
            !ends && exists|m: Engine| #[trigger] book_counted(pre, m) && bbo_handled(m, post, sym, bbo, now)
        },
        MarketEvent::Trades { sym, trades } => if sym as int >= pre.symbols@.len() {
            ends && post == pre
        } else {
            !ends && exists|m: Engine| #[trigger] trades_taken(pre, m, sym, trades@, now, pre.records(sym)) && drained(m, post, now)
        },
        MarketEvent::Turnover(v) => !ends && turnovers_taken(pre, post, v@),
        MarketEvent::Reference { sym, ts, bid, ask, rank } => if sym as int >= pre.symbols@.len() || !(bid > 0 && ask >= bid) {
            ends && post == pre
        } else if takes_reference(pre, sym, bid, ask, rank, now) {
            !ends && exists|m: Engine| #[trigger] reference_noted(pre, m, sym, ts, bid, ask, rank, now) && requoted(m, post, sym, now)
        } else {
            !ends && post == pre
        },
        MarketEvent::Status { conn, msg } => {
            &&& !ends
            &&& post.outbox@ == pre.outbox@.push(StoreMsg::Event { ts: now, level: "info", note: Note::Feed { conn, msg } })
            &&& post == (Engine { outbox: post.outbox, ..pre })
        },
    }
}

/// Housekeeping is due once per second of the clock; the second is noted.
pub open spec fn tick_checked(pre: Engine, post: Engine, now: i64, due: bool) -> bool {
    let sec = trunc_div(now as int, 1000);
    &&& due == (sec != pre.last_tick_sec)
    &&& post == (Engine { last_tick_sec: sec as i64, ..pre })
}

/// One market event, up to the housekeeping that may be due after it.
pub open spec fn market_taken(pre: Engine, post: Engine, ev: MarketEvent, now: i64, due: bool) -> bool {
    exists|a: Engine, b: Engine, ends: bool|
        #[trigger] clocked(pre, a, now) && #[trigger] event_taken(a, b, ev, now, ends) && if ends {
            post == b && !due
        } else {
            tick_checked(b, post, now, due)
        }
}

/// The clock advances without an event.
pub open spec fn time_taken(pre: Engine, post: Engine, now: i64, due: bool) -> bool {
    exists|a: Engine, b: Engine|
        #[trigger] paper_clocked(pre, a, now) && #[trigger] drained(a, b, now) && tick_checked(b, post, now, due)
}

pub open spec fn paper_clocked(pre: Engine, post: Engine, now: i64) -> bool {
    &&& post.paper.after(&pre.paper, now, PaperEvent::Time)
    &&& post == (Engine { paper: post.paper, ..pre })
}

impl Engine {
    fn note_bbo(&mut self, sym: SymbolId, bbo: Bbo, now: i64)
        requires
            old(self).wf(),
            (sym as int) < old(self).symbols@.len(),
        ensures
            final(self).wf(),
            final(self).symbols@.len() == old(self).symbols@.len(),
            bbo_noted(*old(self), *final(self), sym, bbo, now),
    {
        let idx: usize = sym as usize;
        self.symbols[idx].bbo = Some(bbo);
        self.symbols[idx].stats.on_bbo(&bbo, now);
        self.paper.on_bbo(now, sym, &bbo);
        proof {
            if bbo.valid() {
                let x = PaperExchange { last_bbo: self.paper.last_bbo, ..old(self).paper };
                assert(syms_below(x, self.symbols@.len() as int));
                law_events_keep_symbols(x, self.paper, now, PaperEvent::Book(sym, bbo), self.symbols@.len() as int);
            }
        }
        self.portfolio.on_mid(sym, bbo.mid());
        if self.should_record(idx) {
            let changed: bool = match self.symbols[idx].last_rec_bbo {
                Some(p) => p.bid != bbo.bid || p.ask != bbo.ask || p.bid_qty != bbo.bid_qty || p.ask_qty != bbo.ask_qty,
                None => true,
            };
            if changed && now as i128 - self.symbols[idx].last_rec_bbo_ts as i128 >= self.cfg.recording.bbo_min_interval_ms as i128 {
                self.symbols[idx].last_rec_bbo_ts = now;
                self.symbols[idx].last_rec_bbo = Some(bbo);
                self.outbox.push(
                    StoreMsg::MdBbo(
                        MdQuote {
                            ts: now,
                            sym,
                            bid: bbo.bid,
                            ask: bbo.ask,
                            bid_qty: bbo.bid_qty,
                            ask_qty: bbo.ask_qty,
                            price_digits: self.symbols[idx].meta.price_digits,
                        },
                    ),
                );
            }
        }
        proof {
            let st = old(self).sym(sym);
            let rec = records_bbo(*old(self), sym, bbo, now);
            assert(self.symbols@ =~= old(self).symbols@.update(
                sym as int,
                SymbolState {
                    bbo: Some(bbo),
                    stats: self.sym(sym).stats,
                    last_rec_bbo_ts: if rec { now } else { st.last_rec_bbo_ts },
                    last_rec_bbo: if rec { Some(bbo) } else { st.last_rec_bbo },
                    ..st
                },
            ));
        }
    }

    fn handle_bbo(&mut self, sym: SymbolId, bbo: Bbo, now: i64)
        requires
            old(self).wf(),
            (sym as int) < old(self).symbols@.len(),
        ensures
            final(self).wf(),
            bbo_handled(*old(self), *final(self), sym, bbo, now),
    {
        self.note_bbo(sym, bbo, now);
        let ghost x = *self;
        self.drain_fills(now);
        let ghost y = *self;
        self.requote(sym, now);
        assert(bbo_noted(*old(self), x, sym, bbo, now));
        assert(drained(x, y, now));
    }

    fn take_trades(&mut self, sym: SymbolId, trades: &Vec<Trade>, now: i64)
        requires
            old(self).wf(),
            (sym as int) < old(self).symbols@.len(),
        ensures
            final(self).wf(),
            trades_taken(*old(self), *final(self), sym, trades@, now, old(self).records(sym)),
    {
        let idx: usize = sym as usize;
        let record: bool = self.should_record(idx);
        let ghost n = self.symbols@.len();
        let mut i: usize = 0;
        assert(trades@.take(0) =~= Seq::<Trade>::empty());
        while i < trades.len()
            invariant
                i <= trades@.len(),
                self.wf(),
                self.symbols@.len() == n,
                idx == sym as usize,
                (sym as int) < n,
                record == old(self).records(sym),
                trades_taken(*old(self), *self, sym, trades@.take(i as int), now, record),
            decreases trades@.len() - i,
        {
            let ghost m = *self;
            let t: Trade = trades[i];
            self.counters.trades = next64(self.counters.trades);
            self.symbols[idx].stats.on_trade(&t, now);
            self.paper.on_trade(now, sym, &t);
            proof {
                law_events_keep_symbols(m.paper, self.paper, now, PaperEvent::Trade(sym, t), n as int);
            }
            if record {
                self.outbox.push(
                    StoreMsg::MdTrade(
                        MdPrint {
                            ts: now,
                            sym,
                            side: t.taker_side.as_u8(),
                            price: t.price,
                            qty: t.qty,
                            price_digits: self.symbols[idx].meta.price_digits,
                        },
                    ),
                );
            }
            proof {
                assert(self.symbols@ =~= m.symbols@.update(sym as int, SymbolState { stats: self.sym(sym).stats, ..m.sym(sym) }));
                let s = trades@.take(i + 1);
                assert(s.drop_last() =~= trades@.take(i as int));
                assert(trade_taken(m, *self, sym, s.last(), now, record));
            }
            i = i + 1;
        }
        assert(trades@.take(i as int) =~= trades@);
    }

    fn take_turnovers(&mut self, v: &Vec<(SymbolId, i64)>)
        requires
            old(self).wf(),
        ensures
            final(self).wf(),
            turnovers_taken(*old(self), *final(self), v@),
    {
        let mut k: usize = 0;
        assert(v@.take(0) =~= Seq::<(SymbolId, i64)>::empty());
        while k < v.len()
            invariant
                k <= v@.len(),
                self.wf(),
                turnovers_taken(*old(self), *self, v@.take(k as int)),
            decreases v@.len() - k,
        {
            let (sym, t): (SymbolId, i64) = v[k];
            let ghost m = *self;
            if (sym as usize) < self.symbols.len() {
                self.symbols[sym as usize].meta.turnover_24h = t;
            }
            proof {
                let s = v@.take(k + 1);
                assert(s.drop_last() =~= v@.take(k as int));
                assert forall|i: int| 0 <= i < self.symbols@.len() implies #[trigger] self.symbols@[i] == with_turnover(
                    old(self).symbols@[i],
                    turnover_of(old(self).symbols@[i], i, s),
                ) by {
                    assert(m.symbols@[i] == with_turnover(old(self).symbols@[i], turnover_of(old(self).symbols@[i], i, s.drop_last())));
                }
                assert(turnovers_taken(*old(self), *self, s));
            }
            k = k + 1;
        }
        assert(v@.take(k as int) =~= v@);
    }

    fn note_reference(&mut self, sym: SymbolId, ts: i64, bid: i64, ask: i64, rank: u8, now: i64)
        requires
            old(self).wf(),
            (sym as int) < old(self).symbols@.len(),
        ensures
            final(self).wf(),
            final(self).symbols@.len() == old(self).symbols@.len(),
            reference_noted(*old(self), *final(self), sym, ts, bid, ask, rank, now),
    {
        let idx: usize = sym as usize;
        self.symbols[idx].ref_rank = rank;
        self.symbols[idx].ref_ts = now;
        self.symbols[idx].ref_bbo = Some(Bbo { ts, bid, ask, bid_qty: 0, ask_qty: 0 });
        if let Some(ours) = self.symbols[idx].bbo {
            let sample: i64 = sat64(round_div(ours.bid as i128 + ours.ask as i128 - (bid as i128 + ask as i128), 2));
            let basis: i64 = self.symbols[idx].basis;
            if self.symbols[idx].basis_n == 0 {
                self.symbols[idx].basis = sample;
            } else {
                let g: i128 = gain(sample, basis, self.cfg.reference.basis_alpha);
                self.symbols[idx].basis = sat64(add_sat(basis as i128, round_div(g, ONE128)));
            }
            let n: u32 = self.symbols[idx].basis_n;
            self.symbols[idx].basis_n = next32(n);
        }
        if self.should_record(idx) {
            if now as i128 - self.symbols[idx].last_rec_ref_ts as i128 >= self.cfg.recording.bbo_min_interval_ms as i128 {
                self.symbols[idx].last_rec_ref_ts = now;
                let price_digits: u32 = self.symbols[idx].meta.price_digits;
                self.outbox.push(StoreMsg::MdRef(MdQuote { ts: now, sym, bid, ask, bid_qty: 0, ask_qty: 0, price_digits }));
            }
        }
        proof {
            let st = old(self).sym(sym);
            let rec = records_ref(*old(self), sym, now);
            assert(self.symbols@ =~= old(self).symbols@.update(
                sym as int,
                SymbolState {
                    ref_rank: rank,
                    ref_ts: now,
                    ref_bbo: Some(Bbo { ts, bid, ask, bid_qty: 0, ask_qty: 0 }),
                    basis: basis_after(st, bid, ask, old(self).cfg.reference.basis_alpha) as i64,
                    basis_n: if st.bbo is Some { inc32(st.basis_n) } else { st.basis_n },
                    last_rec_ref_ts: if rec { now } else { st.last_rec_ref_ts },
                    ..st
                },
            ));
        }
    }

    fn tick_due(&mut self, now: i64) -> (due: bool)
        requires
            old(self).wf(),
        ensures
            final(self).wf(),
            tick_checked(*old(self), *final(self), now, due),
    {
        let sec: i64 = quot(now, 1000);
        if sec != self.last_tick_sec {
            self.last_tick_sec = sec;
            true
        } else {
            false
        }
    }

    /// Takes in an event; returns whether it was dropped.
    fn take_event(&mut self, ev: MarketEvent, now: i64) -> (ends: bool)
        requires
            old(self).wf(),
        ensures
            final(self).wf(),
            event_taken(*old(self), *final(self), ev, now, ends),
    {
        match ev {
            MarketEvent::Book { sym, ts, snapshot, bids, asks } => {
                let idx: usize = sym as usize;
                if idx >= self.symbols.len() {
                    return true;
                }
                self.counters.books = next64(self.counters.books);
                self.symbols[idx].book.apply(ts, snapshot, bids.as_slice(), asks.as_slice());
                let ghost m = *self;
                let b: Option<Bbo> = self.symbols[idx].book.bbo();
                proof {
                    assert(m.symbols@ =~= old(self).symbols@.update(
                        sym as int,
                        SymbolState { book: m.sym(sym).book, ..old(self).sym(sym) },
                    ));
                    assert(book_applied(*old(self), m, sym, ts, snapshot, bids@, asks@));
                    assert(m.sym(sym).book.is_bbo(b));
                }
                if let Some(q) = b {
                    self.handle_bbo(sym, q, now);
                }
                false
            },
            MarketEvent::Bbo { sym, bbo } => {
                if (sym as usize) < self.symbols.len() {
                    self.counters.books = next64(self.counters.books);
                    let ghost m = *self;
                    assert(book_counted(*old(self), m));
                    self.handle_bbo(sym, bbo, now);
                }
                false
            },
            MarketEvent::Trades { sym, trades } => {
                if sym as usize >= self.symbols.len() {
                    return true;
                }
                self.take_trades(sym, &trades, now);
                let ghost m = *self;
                assert(trades_taken(*old(self), m, sym, trades@, now, old(self).records(sym)));
                self.drain_fills(now);
                false
            },
            MarketEvent::Turnover(v) => {
                self.take_turnovers(&v);
                false
            },
            MarketEvent::Reference { sym, ts, bid, ask, rank } => {
                let idx: usize = sym as usize;
                if idx >= self.symbols.len() || !(bid > 0 && ask >= bid) {
                    return true;
                }
                // a better provider always wins; a worse one only fills in when the better one is silent
                let silent: bool = now as i128 - self.symbols[idx].ref_ts as i128 > self.cfg.reference.stale_ms as i128;
                if rank <= self.symbols[idx].ref_rank || silent {
                    self.note_reference(sym, ts, bid, ask, rank, now);
                    let ghost m = *self;
                    assert(reference_noted(*old(self), m, sym, ts, bid, ask, rank, now));
                    // a leading-venue move is exactly when our quotes must be re-checked
                    self.requote(sym, now);
                }
                false
            },
            MarketEvent::Status { conn, msg } => {
                self.outbox.push(StoreMsg::Event { ts: now, level: "info", note: Note::Feed { conn, msg } });
                false
            },
        }
    }

    /// Feed one market event. `now` is the engine clock (system time live, record time in replay).
    /// Returns whether the once-per-second housekeeping, `tick`, is due.
    pub fn on_market(&mut self, ev: MarketEvent, now: i64) -> (due: bool)
        requires
            old(self).wf(),
        ensures
            final(self).wf(),
            market_taken(*old(self), *final(self), ev, now, due),
    {
        self.counters.events = next64(self.counters.events);
        self.paper.on_time(now);
        proof {
            law_events_keep_symbols(old(self).paper, self.paper, now, PaperEvent::Time, self.symbols@.len() as int);
        }
        let ghost a = *self;
        assert(clocked(*old(self), a, now));
        let ghost g = ev;
        let ends: bool = self.take_event(ev, now);
        let ghost b = *self;
        assert(event_taken(a, b, g, now, ends));
        if ends {
            false
        } else {
            self.tick_due(now)
        }
    }

    /// Advance the clock without a market event (timers in the live loop). Returns whether `tick`
    /// is due.
    pub fn on_time(&mut self, now: i64) -> (due: bool)
        requires
            old(self).wf(),
        ensures
            final(self).wf(),
            time_taken(*old(self), *final(self), now, due),
    {
        self.paper.on_time(now);
        proof {
            law_events_keep_symbols(old(self).paper, self.paper, now, PaperEvent::Time, self.symbols@.len() as int);
        }
        let ghost a = *self;
        assert(paper_clocked(*old(self), a, now));
        self.drain_fills(now);
        let ghost b = *self;
        assert(drained(a, b, now));
        self.tick_due(now)
    }
}

// ------------------------------------------------------------------------------
// Once-per-second housekeeping
// ------------------------------------------------------------------------------

/// The markout of a fill in bps: how far the mid went our way since.
pub open spec fn markout_bps(m: Markout, mid: int) -> int {
    clamp64(div_round(m.side.spec_sign() * (mid - m.mid0) * BPS_ONE, m.mid0 as int))
}

/// What the markouts add up to, while the figure is their mean.
pub open spec fn markout_sum(e: Experience) -> int {
    e.markout_n * e.markout_bps + e.markout_rest
}

/// A markout folded in: the mean of the first thirty, then an EWMA over about 30 fills.
pub open spec fn folded(e: Experience, m: Markout, mid: int) -> Experience {
    if m.mid0 > 0 && mid > 0 {
        let x = markout_bps(m, mid);
        let n = e.markout_n + 1;
        if n <= 30 {
            let sum = markout_sum(e) + x;
            let mean = clamp64(div_round(sum, n));
            Experience { markout_bps: mean as i64, markout_n: n as u32, markout_rest: clamp64(sum - n * mean) as i64 }
        } else {
            Experience {
                markout_bps: clamp64(e.markout_bps + div_round(x - e.markout_bps, 30)) as i64,
                markout_n: inc32(e.markout_n),
                markout_rest: 0,
            }
        }
    } else {
        e
    }
}

/// `s` without the item at `i`, in whose place the last one moves.
pub open spec fn swapped_out(s: Seq<Markout>, i: int) -> Seq<Markout> {
    s.update(i, s.last()).drop_last()
}

/// The markouts from `i` on whose time has come are folded in and taken off.
pub open spec fn resolved(s: Seq<Markout>, e: Experience, i: int, mid: int, now: int) -> (Seq<Markout>, Experience)
    decreases s.len() - i,
{
    if i < 0 || i >= s.len() {
        (s, e)
    } else if s[i].due <= now {
        resolved(swapped_out(s, i), folded(e, s[i], mid), i, mid, now)
    } else {
        resolved(s, e, i + 1, mid, now)
    }
}

/// The due markouts of a symbol are resolved, if it has a market.
pub open spec fn symbol_resolved(a: SymbolState, b: SymbolState, now: i64) -> bool {
    match a.bbo {
        None => b == a,
        Some(bbo) => {
            let r = resolved(a.pending_markouts@, a.experience, 0, bbo.spec_mid(), now as int);
            &&& b.pending_markouts@ == r.0
            &&& b == (SymbolState { pending_markouts: b.pending_markouts, experience: r.1, ..a })
        },
    }
}

/// `b` has the same symbols as `a`, each related to what it was.
pub open spec fn markouts_resolved(pre: Engine, post: Engine, now: i64) -> bool {
    &&& post.symbols@.len() == pre.symbols@.len()
    &&& forall|i: int| 0 <= i < pre.symbols@.len() ==> symbol_resolved(pre.symbols@[i], #[trigger] post.symbols@[i], now)
    &&& post == (Engine { symbols: post.symbols, ..pre })
}

/// The engine with one more tick counted.
pub open spec fn tick_counted(e: Engine) -> Engine {
    Engine { counters: Counters { ticks: inc64(e.counters.ticks), ..e.counters }, ..e }
}

pub open spec fn vol_of(vols: Seq<i64>, i: int) -> i64 {
    if 0 <= i < vols.len() {
        vols[i]
    } else {
        0
    }
}

/// A symbol's statistics are refreshed and it is judged anew.
pub open spec fn symbol_judged(a: SymbolState, b: SymbolState, e: Engine, now: i64, vol: i64) -> bool {
    &&& b.stats.after_refresh(&a.stats, now, vol)
    &&& b == (SymbolState {
        stats: b.stats,
        verdict: judged(e.cfg.eligibility, a.meta, b.stats, e.lists, a.params.min_spread_bps as int, now as int, a.experience),
        ..a
    })
}

pub open spec fn symbols_judged(pre: Engine, post: Engine, now: i64, vols: Seq<i64>) -> bool {
    &&& post.symbols@.len() == pre.symbols@.len()
    &&& forall|i: int|
        0 <= i < pre.symbols@.len() ==> symbol_judged(pre.symbols@[i], #[trigger] post.symbols@[i], pre, now, vol_of(vols, i))
    &&& post == (Engine { symbols: post.symbols, ..pre })
}

/// The eligible among the first `n` symbols.
pub open spec fn eligible_among(s: Seq<SymbolState>, n: nat) -> Seq<usize>
    decreases n,
{
    if n == 0 {
        Seq::empty()
    } else {
        let r = eligible_among(s, (n - 1) as nat);
        if s[n - 1].verdict.eligible {
            r.push((n - 1) as usize)
        } else {
            r
        }
    }
}

/// Keys by which candidates are ordered: the best score first.
pub open spec fn score_keys(s: Seq<SymbolState>, c: Seq<usize>) -> Seq<i128> {
    Seq::new(c.len(), |k: int| (-s[c[k] as int].verdict.score) as i128)
}

/// `p` is the candidates' order by score, best first; equals keep the order of the symbols.
pub open spec fn is_ranking(s: Seq<SymbolState>, p: Seq<usize>) -> bool {
    is_stable_order(score_keys(s, eligible_among(s, s.len())), p)
}

/// Symbol `i` is among the best `max` candidates.
pub open spec fn is_chosen(s: Seq<SymbolState>, p: Seq<usize>, max: int, i: int) -> bool {
    exists|k: int| 0 <= k < min_int(max, p.len() as int) && #[trigger] eligible_among(s, s.len())[p[k] as int] == i
}

/// Names of the first `n` symbols that become active (`to` is true) or inactive.
pub open spec fn turned(a: Seq<SymbolState>, b: Seq<SymbolState>, to: bool, n: nat) -> Seq<String>
    decreases n,
{
    if n == 0 {
        Seq::empty()
    } else {
        let r = turned(a, b, to, (n - 1) as nat);
        if b[n - 1].active == to && a[n - 1].active != to {
            r.push(a[n - 1].meta.name)
        } else {
            r
        }
    }
}

/// The note on a change of the active set.
pub open spec fn is_active_note(m: StoreMsg, pre: Engine, post: Engine, now: i64) -> bool {
    m matches StoreMsg::Event { ts, level, note } && ts == now && level == "info" && (note matches Note::ActiveSet {
        n_active,
        activated,
        deactivated,
    } && n_active == post.n_active && activated@ == turned(pre.symbols@, post.symbols@, true, pre.symbols@.len()) && deactivated@ == turned(
        pre.symbols@,
        post.symbols@,
        false,
        pre.symbols@.len(),
    ))
}

/// The best eligible symbols, up to the maximum, become the active set.
pub open spec fn active_selected(pre: Engine, post: Engine, now: i64) -> bool {
    let s = pre.symbols@;
    let max = pre.cfg.eligibility.max_active_symbols as int;
    &&& post.symbols@.len() == s.len()
    &&& exists|p: Seq<usize>|
        #[trigger] is_ranking(s, p) && post.n_active == min_int(max, p.len() as int) && forall|i: int|
            0 <= i < s.len() ==> #[trigger] post.symbols@[i] == (SymbolState { active: is_chosen(s, p, max, i), ..s[i] })
    &&& if turned(s, post.symbols@, true, s.len()).len() + turned(s, post.symbols@, false, s.len()).len() > 0 {
        post.outbox@.len() == pre.outbox@.len() + 1 && post.outbox@.drop_last() == pre.outbox@ && is_active_note(
            post.outbox@.last(),
            pre,
            post,
            now,
        )
    } else {
        post.outbox@ == pre.outbox@
    }
    &&& post == (Engine { symbols: post.symbols, n_active: post.n_active, outbox: post.outbox, ..pre })
}

/// So many whole seconds have passed since `last`.
pub open spec fn passed(now: i64, last: i64, secs: u64) -> bool {
    now - last >= secs * 1000
}

/// The active set is selected anew when its interval has passed.
pub open spec fn active_refreshed(pre: Engine, post: Engine, now: i64) -> bool {
    if passed(now, pre.last_refresh_ms, pre.cfg.eligibility.refresh_secs) {
        exists|m: Engine| #[trigger] refresh_stamped(pre, m, now) && active_selected(m, post, now)
    } else {
        post == pre
    }
}

pub open spec fn refresh_stamped(pre: Engine, post: Engine, now: i64) -> bool {
    post == (Engine { last_refresh_ms: now, ..pre })
}

/// Portfolio marks and risk; the kill switch latches.
pub open spec fn risk_taken(pre: Engine, post: Engine, now: i64) -> bool {
    let pf = pre.portfolio.marked(now as int);
    let risk = verdict(pre.cfg.risk, pf.spec_gross_exposure(), pf.spec_daily_pnl(), pf.spec_open_positions(), pre.halted);
    &&& post.outbox@ == if risk.halted && !pre.halted {
        pre.outbox@.push(
            StoreMsg::Event {
                ts: now,
                level: "error",
                note: Note::KillSwitch { daily_pnl: risk.daily_pnl, limit: pre.cfg.risk.max_daily_loss_usd },
            },
        )
    } else {
        pre.outbox@
    }
    &&& post == (Engine {
        portfolio: pf,
        risk,
        halted: pre.halted || risk.halted,
        outbox: post.outbox,
        counters: Counters {
            exposure_sum: clamp128(pre.counters.exposure_sum + pf.spec_gross_exposure()) as i128,
            ..pre.counters
        },
        ..pre
    })
}

/// The order is older than orders may get and not on its way out.
pub open spec fn too_old(e: Engine, id: Option<u64>, max_age: i64, now: i64) -> bool {
    id matches Some(x) && find_order(e.paper.orders@, x, 0) matches Some(i) && e.paper.orders@[i].state
        != crate::paper::OrderState::CancelPending && max_age > 0 && now - e.paper.orders@[i].ts_created > max_age
}

/// An order that got too old is cancelled.
pub open spec fn aged_out(pre: Engine, post: Engine, id: Option<u64>, max_age: i64, now: i64) -> bool {
    if too_old(pre, id, max_age, now) {
        cancelled(pre, post, now, PaperEvent::Cancel(id->0))
    } else {
        post == pre
    }
}

/// The symbol is worth a look: active, with a position, or with an order in the book.
pub open spec fn matters(e: Engine, sym: SymbolId) -> bool {
    e.sym(sym).active || e.portfolio.spec_qty(sym) != 0 || e.sym(sym).has_order()
}

/// Old orders of the symbol go, then it is quoted anew.
pub open spec fn symbol_swept(pre: Engine, post: Engine, sym: SymbolId, now: i64) -> bool {
    let st = pre.sym(sym);
    exists|a: Engine, b: Engine|
        #[trigger] aged_out(pre, a, st.bid_order, st.params.max_order_age_ms, now) && #[trigger] aged_out(
            a,
            b,
            st.ask_order,
            st.params.max_order_age_ms,
            now,
        ) && if matters(b, sym) {
            requoted(b, post, sym, now)
        } else {
            post == b
        }
}

/// The first `n` symbols are swept in turn.
pub open spec fn swept_upto(pre: Engine, post: Engine, n: nat, now: i64) -> bool
    decreases n,
{
    if n == 0 {
        post == pre
    } else {
        exists|m: Engine| swept_upto(pre, m, (n - 1) as nat, now) && #[trigger] symbol_swept(m, post, (n - 1) as SymbolId, now)
    }
}

pub open spec fn pnl_row(e: Engine, now: i64) -> StoreMsg {
    let pf = e.portfolio;
    StoreMsg::Pnl(
        PnlRow {
            ts: now,
            equity: pf.spec_equity() as i128,
            realized: pf.realized_total,
            fees: pf.fees_total,
            unrealized: pf.spec_unrealized_total() as i128,
            gross_exposure: pf.spec_gross_exposure() as i128,
            open_positions: pf.spec_open_positions() as usize,
            n_fills: pf.n_fills,
            daily_pnl: pf.spec_daily_pnl() as i128,
            max_drawdown: pf.max_drawdown,
            n_live_orders: e.paper.orders@.len() as usize,
            n_active_symbols: e.n_active,
            halted: e.halted,
        },
    )
}

pub open spec fn symbol_row(e: Engine, sym: SymbolId, bbo: Bbo, now: i64) -> StoreMsg {
    let st = e.sym(sym);
    StoreMsg::SymbolStats(
        SymbolStatsRow {
            ts: now,
            symbol: st.meta.name,
            price_digits: st.meta.price_digits,
            spread_med_bps: st.stats.spread_med_bps,
            spread_mean_bps: st.stats.spread_mean_bps,
            vol_bps: st.stats.vol_bps,
            trades_per_min: st.stats.trades_per_min,
            turnover_24h: st.meta.turnover_24h,
            eligible: st.verdict.eligible,
            reason: st.verdict.reason,
            score: st.verdict.score,
            active: st.active,
            bid: bbo.bid,
            ask: bbo.ask,
            position_qty: e.portfolio.spec_qty(sym),
            quote_reason: st.quote_reason,
            markout_bps: st.experience.markout_bps,
            markout_n: st.experience.markout_n,
            ref_dev_bps: st.ref_dev(e.cfg.reference.stale_ms as int, now as int) as i64,
        },
    )
}

/// Rows of the first `n` symbols, as far as they have a market.
pub open spec fn symbol_rows(e: Engine, n: nat, now: i64) -> Seq<StoreMsg>
    decreases n,
{
    if n == 0 {
        Seq::empty()
    } else {
        let r = symbol_rows(e, (n - 1) as nat, now);
        match e.symbols@[n - 1].bbo {
            Some(b) => r.push(symbol_row(e, (n - 1) as SymbolId, b, now)),
            None => r,
        }
    }
}

/// Snapshots go out when their intervals have passed.
pub open spec fn snapshots_sent(pre: Engine, post: Engine, now: i64) -> bool {
    let pnl = passed(now, pre.last_pnl_snap_ms, pre.cfg.storage.pnl_snapshot_interval_secs);
    let sym = passed(now, pre.last_stats_snap_ms, pre.cfg.storage.symbol_stats_interval_secs);
    let one = if pnl { pre.outbox@.push(pnl_row(pre, now)) } else { pre.outbox@ };
    &&& post.outbox@ == if sym { one + symbol_rows(pre, pre.symbols@.len(), now) } else { one }
    &&& post == (Engine {
        outbox: post.outbox,
        last_pnl_snap_ms: if pnl { now } else { pre.last_pnl_snap_ms },
        last_stats_snap_ms: if sym { now } else { pre.last_stats_snap_ms },
        ..pre
    })
}

/// Every five seconds the configuration files are to be looked at.
pub open spec fn config_checked(pre: Engine, post: Engine, now: i64, check: bool) -> bool {
    &&& check == (now - pre.last_cfg_check_ms >= 5000)
    &&& post == (Engine { last_cfg_check_ms: if check { now } else { pre.last_cfg_check_ms }, ..pre })
}

/// The once-per-second housekeeping, step by step.
pub open spec fn ticked(pre: Engine, post: Engine, now: i64, vols: Seq<i64>, check: bool) -> bool {
    exists|a: Engine, b: Engine, c: Engine, d: Engine, e: Engine, f: Engine|
        #[trigger] markouts_resolved(tick_counted(pre), a, now) && #[trigger] symbols_judged(a, b, now, vols) && #[trigger] active_refreshed(b, c, now)
            && #[trigger] risk_taken(c, d, now) && #[trigger] swept_upto(d, e, d.symbols@.len(), now) && #[trigger] snapshots_sent(e, f, now)
            && config_checked(f, post, now, check)
}

impl SymbolState {
    fn fold(&mut self, m: Markout, mid: i64)
        requires
            old(self).wf(),
        ensures
            *final(self) == (SymbolState { experience: folded(old(self).experience, m, mid as int), ..*old(self) }),
    {
        if m.mid0 > 0 && mid > 0 {
            let d: i128 = mid as i128 - m.mid0 as i128;
            let signed: i128 = match m.side {
                Side::Buy => d,
                Side::Sell => -d,
            };
            proof {
                let s = m.side.spec_sign();
                assert(s * (mid - m.mid0) == signed) by (nonlinear_arith)
                    requires
                        s == 1 && signed == mid - m.mid0 || s == -1 && signed == -(mid - m.mid0),
                ;
            }
            let mo: i64 = sat64(round_div(signed * BPS_ONE, m.mid0 as i128));
            let k: i128 = self.experience.markout_n as i128;
            let n: i128 = k + 1;
            let cur: i128 = self.experience.markout_bps as i128;
            assert(mo == markout_bps(m, mid as int));
            if n <= 30 {
                proof {
                    lemma_mul_bound(k as int, cur as int, 30, TWO63 as int);
                }
                let sum: i128 = k * cur + self.experience.markout_rest as i128 + mo as i128;
                assert(sum == markout_sum(old(self).experience) + mo);
                let mean: i64 = sat64(round_div(sum, n));
                proof {
                    lemma_mul_bound(n as int, mean as int, 30, TWO63 as int);
                }
                self.experience.markout_rest = sat64(sum - n * (mean as i128));
                self.experience.markout_bps = mean;
            } else {
                proof {
                    crate::units::lemma_div_bound(mo - cur, 30, 2 * TWO63 as int);
                }
                self.experience.markout_bps = sat64(cur + round_div(mo as i128 - cur, 30));
                self.experience.markout_rest = 0;
            }
            self.experience.markout_n = next32(self.experience.markout_n);
        }
    }

    fn resolve_due(&mut self, now: i64)
        requires
            old(self).wf(),
        ensures
            final(self).wf(),
            symbol_resolved(*old(self), *final(self), now),
            old(self).bbo is Some ==> forall|k: int|
                0 <= k < final(self).pending_markouts@.len() ==> (#[trigger] final(self).pending_markouts@[k]).due > now,
    {
        let bbo: Bbo = match self.bbo {
            Some(b) => b,
            None => {
                return;
            },
        };
        let mid: i64 = bbo.mid();
        let ghost goal = resolved(self.pending_markouts@, self.experience, 0, mid as int, now as int);
        let mut i: usize = 0;
        while i < self.pending_markouts.len()
            invariant
                i <= self.pending_markouts@.len(),
                goal == resolved(self.pending_markouts@, self.experience, i as int, mid as int, now as int),
                forall|k: int| 0 <= k < i ==> (#[trigger] self.pending_markouts@[k]).due > now,
                *self == (SymbolState {
                    pending_markouts: self.pending_markouts,
                    experience: self.experience,
                    ..*old(self)
                }),
                self.wf(),
            decreases self.pending_markouts@.len() - i,
        {
            let m: Markout = self.pending_markouts[i];
            if m.due <= now {
                self.fold(m, mid);
                let _ = self.pending_markouts.swap_remove(i);
            } else {
                i = i + 1;
            }
        }
    }
}

impl Engine {
    /// Resolve the markouts of fills whose horizon has passed and fold them into the EWMA: on a symbol
    /// with a market, none that is due stays pending.
    pub fn resolve_markouts(&mut self, now: i64)
        requires
            old(self).wf(),
        ensures
            final(self).wf(),
            markouts_resolved(*old(self), *final(self), now),
            forall|i: int, k: int|
                0 <= i < final(self).symbols@.len() && 0 <= k < final(self).symbols@[i].pending_markouts@.len() && final(self).symbols@[i].bbo is Some
                    ==> (#[trigger] final(self).symbols@[i].pending_markouts@[k]).due > now,
    {
        let mut i: usize = 0;
        while i < self.symbols.len()
            invariant
                i <= self.symbols@.len(),
                self.symbols@.len() == old(self).symbols@.len(),
                forall|k: int| 0 <= k < i ==> symbol_resolved(old(self).symbols@[k], #[trigger] self.symbols@[k], now),
                forall|j: int, k: int|
                    0 <= j < i && 0 <= k < self.symbols@[j].pending_markouts@.len() && self.symbols@[j].bbo is Some ==> (
                    #[trigger] self.symbols@[j].pending_markouts@[k]).due > now,
                forall|k: int| i <= k < self.symbols@.len() ==> #[trigger] self.symbols@[k] == old(self).symbols@[k],
                forall|k: int| 0 <= k < self.symbols@.len() ==> (#[trigger] self.symbols@[k]).wf(),
                old(self).wf(),
                *self == (Engine { symbols: self.symbols, ..*old(self) }),
            decreases self.symbols@.len() - i,
        {
            let ghost m = self.symbols@;
            self.symbols[i].resolve_due(now);
            proof {
                assert(self.symbols@ =~= m.update(i as int, self.symbols@[i as int]));
            }
            i = i + 1;
        }
    }

    fn judge_all(&mut self, now: i64, vols: &Vec<i64>)
        requires
            old(self).wf(),
        ensures
            final(self).wf(),
            symbols_judged(*old(self), *final(self), now, vols@),
    {
        let mut i: usize = 0;
        while i < self.symbols.len()
            invariant
                i <= self.symbols@.len(),
                self.symbols@.len() == old(self).symbols@.len(),
                forall|k: int|
                    0 <= k < i ==> symbol_judged(old(self).symbols@[k], #[trigger] self.symbols@[k], *old(self), now, vol_of(vols@, k)),
                forall|k: int| i <= k < self.symbols@.len() ==> #[trigger] self.symbols@[k] == old(self).symbols@[k],
                forall|k: int| 0 <= k < self.symbols@.len() ==> (#[trigger] self.symbols@[k]).wf(),
                old(self).wf(),
                *self == (Engine { symbols: self.symbols, ..*old(self) }),
            decreases self.symbols@.len() - i,
        {
            let vol: i64 = if i < vols.len() {
                vols[i]
            } else {
                0
            };
            let ghost m = self.symbols@;
            self.symbols[i].stats.refresh(now, vol);
            let v: Verdict = {
                let st: &SymbolState = &self.symbols[i];
                crate::eligibility::evaluate(
                    &self.cfg.eligibility,
                    &st.meta,
                    &st.stats,
                    &self.lists,
                    st.params.min_spread_bps,
                    now,
                    st.experience,
                )
            };
            self.symbols[i].verdict = v;
            proof {
                assert(self.symbols@ =~= m.update(i as int, self.symbols@[i as int]));
                assert(symbol_judged(m[i as int], self.symbols@[i as int], *old(self), now, vol));
            }
            i = i + 1;
        }
    }

    fn candidates(&self) -> (r: Vec<usize>)
        ensures
            r@ == eligible_among(self.symbols@, self.symbols@.len()),
            forall|k: int| 0 <= k < r@.len() ==> #[trigger] r@[k] < self.symbols@.len(),
    {
        let mut r: Vec<usize> = Vec::new();
        let mut i: usize = 0;
        while i < self.symbols.len()
            invariant
                i <= self.symbols@.len(),
                r@ == eligible_among(self.symbols@, i as nat),
                forall|k: int| 0 <= k < r@.len() ==> #[trigger] r@[k] < i,
            decreases self.symbols@.len() - i,
        {
            if self.symbols[i].verdict.eligible {
                r.push(i);
            }
            i = i + 1;
        }
        r
    }

    /// Flags of the symbols to be active, and how many they are.
    fn choose_active(&self) -> (r: (Vec<bool>, usize))
        ensures
            exists|p: Seq<usize>|
                #[trigger] is_ranking(self.symbols@, p) && r.1 == min_int(self.cfg.eligibility.max_active_symbols as int, p.len() as int)
                    && r.0@.len() == self.symbols@.len() && forall|i: int|
                    0 <= i < self.symbols@.len() ==> #[trigger] r.0@[i] == is_chosen(
                        self.symbols@,
                        p,
                        self.cfg.eligibility.max_active_symbols as int,
                        i,
                    ),
    {
        let cands: Vec<usize> = self.candidates();
        let mut keys: Vec<i128> = Vec::new();
        let mut i: usize = 0;
        while i < cands.len()
            invariant
                i <= cands@.len(),
                forall|k: int| 0 <= k < cands@.len() ==> #[trigger] cands@[k] < self.symbols@.len(),
                keys@.len() == i,
                forall|k: int| 0 <= k < i ==> #[trigger] keys@[k] == -self.symbols@[cands@[k] as int].verdict.score,
            decreases cands@.len() - i,
        {
            keys.push(-(self.symbols[cands[i]].verdict.score as i128));
            i = i + 1;
        }
        assert(keys@ =~= score_keys(self.symbols@, cands@));
        let p: Vec<usize> = stable_order(&keys);
        let n: usize = if self.cfg.eligibility.max_active_symbols <= p.len() {
            self.cfg.eligibility.max_active_symbols
        } else {
            p.len()
        };
        let mut flags: Vec<bool> = Vec::new();
        let mut j: usize = 0;
        while j < self.symbols.len()
            invariant
                j <= self.symbols@.len(),
                flags@.len() == j,
                forall|k: int| 0 <= k < j ==> !(#[trigger] flags@[k]),
            decreases self.symbols@.len() - j,
        {
            flags.push(false);
            j = j + 1;
        }
        let ghost s = self.symbols@;
        let ghost c = eligible_among(s, s.len());
        let mut q: usize = 0;
        while q < n
            invariant
                q <= n <= p@.len(),
                p@.len() == cands@.len(),
                cands@ == c,
                flags@.len() == s.len(),
                s == self.symbols@,
                forall|k: int| 0 <= k < cands@.len() ==> #[trigger] cands@[k] < s.len(),
                forall|k: int| 0 <= k < p@.len() ==> #[trigger] p@[k] < cands@.len(),
                forall|i: int| 0 <= i < s.len() ==> #[trigger] flags@[i] == exists|k: int| 0 <= k < q && #[trigger] c[p@[k] as int] == i,
            decreases n - q,
        {
            let at: usize = cands[p[q]];
            let ghost before = flags@;
            flags[at] = true;
            proof {
                assert forall|i: int| 0 <= i < s.len() implies #[trigger] flags@[i] == exists|k: int|
                    0 <= k < q + 1 && #[trigger] c[p@[k] as int] == i by {
                    if i == at {
                        assert(c[p@[q as int] as int] == i);
                    } else {
                        assert(flags@[i] == before[i]);
                        if before[i] {
                            let k = choose|k: int| 0 <= k < q && #[trigger] c[p@[k] as int] == i;
                            assert(c[p@[k] as int] == i);
                        }
                    }
                }
            }
            q = q + 1;
        }
        assert(is_ranking(self.symbols@, p@));
        (flags, n)
    }

    fn select_active(&mut self, now: i64)
        requires
            old(self).wf(),
        ensures
            final(self).wf(),
            active_selected(*old(self), *final(self), now),
    {
        let (flags, n): (Vec<bool>, usize) = self.choose_active();
        let mut activated: Vec<String> = Vec::new();
        let mut deactivated: Vec<String> = Vec::new();
        let ghost s = self.symbols@;
        let ghost post = Seq::new(s.len(), |k: int| SymbolState { active: flags@[k], ..s[k] });
        let mut i: usize = 0;
        while i < self.symbols.len()
            invariant
                i <= self.symbols@.len(),
                s == old(self).symbols@,
                self.symbols@.len() == s.len(),
                flags@.len() == s.len(),
                post == Seq::new(s.len(), |k: int| SymbolState { active: flags@[k], ..s[k] }),
                forall|k: int| 0 <= k < i ==> #[trigger] self.symbols@[k] == post[k],
                forall|k: int| i <= k < s.len() ==> #[trigger] self.symbols@[k] == s[k],
                activated@ == turned(s, post, true, i as nat),
                deactivated@ == turned(s, post, false, i as nat),
                *self == (Engine { symbols: self.symbols, ..*old(self) }),
            decreases s.len() - i,
        {
            let on: bool = flags[i];
            let name: String = self.symbols[i].meta.name.clone();
            if on && !self.symbols[i].active {
                activated.push(name);
            } else if !on && self.symbols[i].active {
                deactivated.push(name);
            }
            self.symbols[i].active = on;
            i = i + 1;
        }
        assert(self.symbols@ =~= post);
        self.n_active = n;
        let ghost box0 = self.outbox@;
        if activated.len() > 0 || deactivated.len() > 0 {
            self.outbox.push(StoreMsg::Event { ts: now, level: "info", note: Note::ActiveSet { n_active: n, activated, deactivated } });
            assert(self.outbox@.drop_last() =~= box0);
        }
        proof {
            let max = old(self).cfg.eligibility.max_active_symbols as int;
            let p = choose|p: Seq<usize>|
                #[trigger] is_ranking(s, p) && n == min_int(max, p.len() as int) && flags@.len() == s.len() && forall|i: int|
                    0 <= i < s.len() ==> #[trigger] flags@[i] == is_chosen(s, p, max, i);
            assert(is_ranking(s, p));
            assert forall|k: int| 0 <= k < s.len() implies #[trigger] self.symbols@[k] == (SymbolState {
                active: is_chosen(s, p, max, k),
                ..s[k]
            }) by {
                assert(flags@[k] == is_chosen(s, p, max, k));
            }
            assert forall|k: int| 0 <= k < s.len() implies (#[trigger] self.symbols@[k]).wf() by {
                assert(s[k].wf());
            }
        }
    }

    fn refresh_active(&mut self, now: i64)
        requires
            old(self).wf(),
        ensures
            final(self).wf(),
            active_refreshed(*old(self), *final(self), now),
    {
        if now as i128 - self.last_refresh_ms as i128 >= (self.cfg.eligibility.refresh_secs as i128) * 1000 {
            self.last_refresh_ms = now;
            let ghost m = *self;
            assert(refresh_stamped(*old(self), m, now));
            self.select_active(now);
        }
    }

    fn take_risk(&mut self, now: i64)
        requires
            old(self).wf(),
        ensures
            final(self).wf(),
            final(self).symbols@ == old(self).symbols@,
            risk_taken(*old(self), *final(self), now),
    {
        let _ = self.portfolio.mark(now);
        self.risk = crate::risk::evaluate(&self.cfg.risk, &self.portfolio, self.halted);
        if self.risk.halted && !self.halted {
            self.halted = true;
            self.outbox.push(
                StoreMsg::Event {
                    ts: now,
                    level: "error",
                    note: Note::KillSwitch { daily_pnl: self.risk.daily_pnl, limit: self.cfg.risk.max_daily_loss_usd },
                },
            );
        }
        self.counters.exposure_sum = add_sat(self.counters.exposure_sum, self.portfolio.gross_exposure());
    }

    fn age_out(&mut self, id: Option<u64>, max_age: i64, now: i64)
        requires
            old(self).wf(),
        ensures
            final(self).wf(),
            final(self).symbols@ == old(self).symbols@,
            aged_out(*old(self), *final(self), id, max_age, now),
    {
        let x: u64 = match id {
            Some(x) => x,
            None => {
                return;
            },
        };
        let old_enough: bool = match self.paper.order(x) {
            Some(o) => !o.is_cancel_pending() && max_age > 0 && now as i128 - o.ts_created as i128 > max_age as i128,
            None => false,
        };
        if old_enough {
            self.paper.cancel(now, x);
            proof {
                law_events_keep_symbols(old(self).paper, self.paper, now, PaperEvent::Cancel(x), self.symbols@.len() as int);
            }
            self.counters.cancelled = next64(self.counters.cancelled);
        }
    }

    fn sweep(&mut self, idx: usize, now: i64)
        requires
            old(self).wf(),
            idx < old(self).symbols@.len(),
        ensures
            final(self).wf(),
            final(self).symbols@.len() == old(self).symbols@.len(),
            symbol_swept(*old(self), *final(self), idx as SymbolId, now),
    {
        let sym: SymbolId = idx as SymbolId;
        let max_age: i64 = self.symbols[idx].params.max_order_age_ms;
        let bid: Option<u64> = self.symbols[idx].bid_order;
        let ask: Option<u64> = self.symbols[idx].ask_order;
        self.age_out(bid, max_age, now);
        let ghost a = *self;
        assert(aged_out(*old(self), a, bid, max_age, now));
        self.age_out(ask, max_age, now);
        let ghost b = *self;
        assert(aged_out(a, b, ask, max_age, now));
        let has_pos: bool = self.portfolio.qty(sym) != 0;
        if self.symbols[idx].active || has_pos || self.symbols[idx].bid_order.is_some() || self.symbols[idx].ask_order.is_some() {
            self.requote(sym, now);
            proof {
                lemma_requoted_len(b, *self, sym, now);
            }
        }
    }

    fn sweep_all(&mut self, now: i64)
        requires
            old(self).wf(),
        ensures
            final(self).wf(),
            swept_upto(*old(self), *final(self), old(self).symbols@.len(), now),
    {
        let n: usize = self.symbols.len();
        let mut i: usize = 0;
        while i < n
            invariant
                i <= n,
                n == old(self).symbols@.len(),
                n == self.symbols@.len(),
                self.wf(),
                swept_upto(*old(self), *self, i as nat, now),
            decreases n - i,
        {
            let ghost m = *self;
            self.sweep(i, now);
            proof {
                let k = (i + 1) as nat;
                assert(symbol_swept(m, *self, (k - 1) as SymbolId, now));
                assert(swept_upto(*old(self), m, (k - 1) as nat, now));
                assert(swept_upto(*old(self), *self, k, now));
            }
            i = i + 1;
        }
    }

    fn make_pnl_row(&self, now: i64) -> (r: StoreMsg)
        ensures
            r == pnl_row(*self, now),
    {
        let pf: &Portfolio = &self.portfolio;
        StoreMsg::Pnl(
            PnlRow {
                ts: now,
                equity: pf.equity(),
                realized: pf.realized_total,
                fees: pf.fees_total,
                unrealized: pf.unrealized_total(),
                gross_exposure: pf.gross_exposure(),
                open_positions: pf.open_positions(),
                n_fills: pf.n_fills,
                daily_pnl: pf.daily_pnl(),
                max_drawdown: pf.max_drawdown,
                n_live_orders: self.paper.n_live(),
                n_active_symbols: self.n_active,
                halted: self.halted,
            },
        )
    }

    fn make_symbol_rows(&self, now: i64) -> (r: Vec<StoreMsg>)
        requires
            self.wf(),
        ensures
            r@ == symbol_rows(*self, self.symbols@.len(), now),
    {
        let mut r: Vec<StoreMsg> = Vec::new();
        let mut i: usize = 0;
        while i < self.symbols.len()
            invariant
                i <= self.symbols@.len(),
                self.wf(),
                r@ == symbol_rows(*self, i as nat, now),
            decreases self.symbols@.len() - i,
        {
            let st: &SymbolState = &self.symbols[i];
            if let Some(bbo) = st.bbo {
                // computed here rather than taken from the last requote, so inactive symbols show it too
                r.push(
                    StoreMsg::SymbolStats(
                        SymbolStatsRow {
                            ts: now,
                            symbol: st.meta.name.clone(),
                            price_digits: st.meta.price_digits,
                            spread_med_bps: st.stats.spread_med_bps,
                            spread_mean_bps: st.stats.spread_mean_bps,
                            vol_bps: st.stats.vol_bps,
                            trades_per_min: st.stats.trades_per_min,
                            turnover_24h: st.meta.turnover_24h,
                            eligible: st.verdict.eligible,
                            reason: st.verdict.reason,
                            score: st.verdict.score,
                            active: st.active,
                            bid: bbo.bid,
                            ask: bbo.ask,
                            position_qty: self.portfolio.qty(i as SymbolId),
                            quote_reason: st.quote_reason,
                            markout_bps: st.experience.markout_bps,
                            markout_n: st.experience.markout_n,
                            ref_dev_bps: st.ref_dev_bps(self.cfg.reference.stale_ms, now),
                        },
                    ),
                );
            }
            i = i + 1;
        }
        r
    }

    fn send_snapshots(&mut self, now: i64)
        requires
            old(self).wf(),
        ensures
            final(self).wf(),
            snapshots_sent(*old(self), *final(self), now),
    {
        let pnl: bool = now as i128 - self.last_pnl_snap_ms as i128 >= (self.cfg.storage.pnl_snapshot_interval_secs as i128) * 1000;
        let sym: bool = now as i128 - self.last_stats_snap_ms as i128 >= (self.cfg.storage.symbol_stats_interval_secs as i128) * 1000;
        let mut rows: Vec<StoreMsg> = if sym {
            self.make_symbol_rows(now)
        } else {
            Vec::new()
        };
        if pnl {
            let row: StoreMsg = self.make_pnl_row(now);
            self.last_pnl_snap_ms = now;
            self.outbox.push(row);
        }
        let ghost one = self.outbox@;
        if sym {
            self.last_stats_snap_ms = now;
            self.outbox.append(&mut rows);
            assert(self.outbox@ =~= one + symbol_rows(*old(self), old(self).symbols@.len(), now));
        }
    }

    /// The once-per-second housekeeping. `vols` holds the volatility of each symbol's window in bps.
    /// Returns whether the configuration files are to be looked at now.
    pub fn tick(&mut self, now: i64, vols: &Vec<i64>) -> (check: bool)
        requires
            old(self).wf(),
        ensures
            final(self).wf(),
            ticked(*old(self), *final(self), now, vols@, check),
    {
        self.counters.ticks = next64(self.counters.ticks);
        self.resolve_markouts(now);
        let ghost a = *self;
        // statistics and eligibility
        self.judge_all(now, vols);
        let ghost b = *self;
        // active set
        self.refresh_active(now);
        let ghost c = *self;
        // portfolio marks and risk
        self.take_risk(now);
        let ghost d = *self;
        // stale orders and a requote pass over everything that matters
        self.sweep_all(now);
        let ghost e = *self;
        self.send_snapshots(now);
        let ghost f = *self;
        // hot config reload
        let check: bool = now as i128 - self.last_cfg_check_ms as i128 >= 5000;
        if check {
            self.last_cfg_check_ms = now;
        }
        proof {
            assert(markouts_resolved(tick_counted(*old(self)), a, now));
            assert(symbols_judged(a, b, now, vols@));
            assert(active_refreshed(b, c, now));
            assert(risk_taken(c, d, now));
            assert(swept_upto(d, e, d.symbols@.len(), now));
            assert(snapshots_sent(e, f, now));
        }
        check
    }
}

/// Quoting a symbol neither adds nor removes symbols.
proof fn lemma_requoted_len(pre: Engine, post: Engine, sym: SymbolId, now: i64)
    requires
        requoted(pre, post, sym, now),
        (sym as int) < pre.symbols@.len(),
    ensures
        post.symbols@.len() == pre.symbols@.len(),
{
    if let Some(bbo) = pre.sym(sym).bbo {
        if !rests_out(pre, sym) && now - pre.sym(sym).last_requote_ms >= pre.sym(sym).params.min_requote_ms {
            let q = wanted_quotes(pre, sym, bbo, now);
            let (a, b) = choose|a: Engine, b: Engine|
                #[trigger] noted(pre, a, sym, q, now) && #[trigger] synced(a, b, sym, Side::Buy, q.bid, now) && synced(
                    b,
                    post,
                    sym,
                    Side::Sell,
                    q.ask,
                    now,
                );
            assert(a.symbols@.len() == pre.symbols@.len());
            assert(b.symbols@.len() == a.symbols@.len());
        }
    }
}

// ------------------------------------------------------------------------------
// Start, configuration, shutdown, metrics
// ------------------------------------------------------------------------------

/// The parameters that a symbol starts with: its overrides, or the base where those are refused.
pub open spec fn starts_with(ov: Overrides, base: StrategyParams, name: Seq<char>, p: StrategyParams) -> bool {
    exists|r: Result<StrategyParams, ParamError>| #[trigger] ov.is_resolved(base, name, r) && match r {
        Ok(q) => p == q,
        Err(_) => p == base,
    }
}

/// A symbol of which nothing is known but its instrument.
pub open spec fn fresh_symbol(st: SymbolState, meta: SymbolMeta, i: int, cfg: Config, ov: Overrides) -> bool {
    &&& st.meta == (SymbolMeta { id: i as SymbolId, ..meta })
    &&& st.book.is_fresh(meta)
    &&& st.stats.is_fresh(cfg.eligibility.window_secs)
    &&& st.bbo is None
    &&& st.bid_order is None
    &&& st.ask_order is None
    &&& st.last_requote_ms == 0
    &&& st.verdict == (Verdict { eligible: false, reason: "warming_up", score: 0 })
    &&& !st.active
    &&& starts_with(ov, cfg.strategy, meta.name@, st.params)
    &&& st.quote_reason == "init"
    &&& st.last_rec_bbo_ts == 0
    &&& st.last_rec_bbo is None
    &&& st.last_rec_ref_ts == 0
    &&& st.rt_open_marks is None
    &&& st.ref_bbo is None
    &&& st.ref_ts == 0
    &&& st.ref_rank == u8::MAX
    &&& st.basis == 0
    &&& st.basis_n == 0
    &&& st.last_ref_dev_bps == 0
    &&& st.experience == (Experience { markout_bps: 0, markout_n: 0, markout_rest: 0 })
    &&& st.pending_markouts@.len() == 0
}

/// An engine at the start of a run.
pub open spec fn started(
    e: Engine,
    cfg: Config,
    overrides: Overrides,
    lists: SymbolLists,
    metas: Seq<SymbolMeta>,
    null_store: bool,
    run_id: i64,
    mode: Seq<char>,
    start_ts: i64,
) -> bool {
    &&& e.cfg == cfg
    &&& e.overrides == overrides
    &&& e.lists == lists
    &&& e.symbols@.len() == metas.len()
    &&& forall|i: int| 0 <= i < metas.len() ==> fresh_symbol(#[trigger] e.symbols@[i], metas[i], i, cfg, overrides)
    &&& e.paper.is_fresh(
        crate::paper::Terms { latency_ms: cfg.paper.latency_ms, maker_fee: cfg.fees.maker_rate, taker_fee: cfg.fees.taker_rate, qty_eps: crate::units::QTY_EPS },
    )
    &&& e.portfolio.is_fresh(cfg.paper.initial_equity_usd)
    &&& e.risk == (RiskState { allow_entries: true, halted: false, reason: "", gross_exposure: 0, daily_pnl: 0, open_positions: 0 })
    &&& !e.halted
    &&& e.outbox@.len() == 2
    &&& e.outbox@[0] matches StoreMsg::RunStart { started_ts, mode: m } && started_ts == start_ts && m@ == mode
    &&& e.outbox@[1] == (StoreMsg::ParamVersion { version: 1, ts: start_ts })
    &&& e.param_version == 1
    &&& e.run_id == run_id
    &&& e.record_md == (cfg.recording.enabled && !null_store)
    &&& e.last_tick_sec == trunc_div(start_ts as int, 1000)
    &&& e.last_refresh_ms == 0
    &&& e.last_stats_snap_ms == 0
    &&& e.last_pnl_snap_ms == 0
    &&& e.last_cfg_check_ms == start_ts
    &&& e.n_active == 0
    &&& e.counters == Counters::zero()
    &&& e.started_ts == start_ts
}

/// The last of the first `n` symbols that has the name.
pub open spec fn last_named(s: Seq<SymbolState>, name: Seq<char>, n: nat) -> Option<int>
    decreases n,
{
    if n == 0 {
        None
    } else if s[n - 1].meta.name@ == name {
        Some(n - 1)
    } else {
        last_named(s, name, (n - 1) as nat)
    }
}

/// The overrides of a symbol are refused.
pub open spec fn override_refused(ov: Overrides, base: StrategyParams, name: Seq<char>) -> bool {
    exists|e: ParamError| ov.is_resolved(base, name, #[trigger] refusal_of(e))
}

pub open spec fn refusal_of(e: ParamError) -> Result<StrategyParams, ParamError> {
    Err(e)
}

/// How many of the first `n` symbols have their overrides refused.
pub open spec fn refused_among(s: Seq<SymbolState>, ov: Overrides, base: StrategyParams, n: nat) -> int
    decreases n,
{
    if n == 0 {
        0
    } else {
        refused_among(s, ov, base, (n - 1) as nat) + if override_refused(ov, base, s[n - 1].meta.name@) {
            1int
        } else {
            0int
        }
    }
}

/// New parameters for a symbol; where its overrides are refused it keeps the present ones.
pub open spec fn reparametrized(a: SymbolState, b: SymbolState, ov: Overrides, base: StrategyParams) -> bool {
    &&& b == (SymbolState { params: b.params, ..a })
    &&& exists|r: Result<StrategyParams, ParamError>| #[trigger] ov.is_resolved(base, a.meta.name@, r) && match r {
        Ok(p) => b.params == p,
        Err(_) => b.params == a.params,
    }
}

/// New tunables are in force: parameters of every symbol, terms of the paper exchange, a new
/// version.
pub open spec fn config_applied(pre: Engine, post: Engine, cfg: Config, ov: Overrides, lists: SymbolLists, now: i64) -> bool {
    let version = inc32(pre.param_version);
    &&& post.symbols@.len() == pre.symbols@.len()
    &&& forall|i: int| 0 <= i < pre.symbols@.len() ==> reparametrized(pre.symbols@[i], #[trigger] post.symbols@[i], ov, cfg.strategy)
    &&& post.outbox@ == pre.outbox@.push(StoreMsg::ParamVersion { version, ts: now }).push(
        StoreMsg::Event {
            ts: now,
            level: "info",
            note: Note::ConfigReloaded {
                version,
                rejected: refused_among(pre.symbols@, ov, cfg.strategy, pre.symbols@.len()) as u32,
            },
        },
    )
    &&& post == (Engine {
        symbols: post.symbols,
        outbox: post.outbox,
        paper: PaperExchange {
            latency_ms: cfg.paper.latency_ms,
            maker_fee: cfg.fees.maker_rate,
            taker_fee: cfg.fees.taker_rate,
            ..pre.paper
        },
        param_version: version,
        cfg,
        overrides: ov,
        lists,
        ..pre
    })
}

/// Whatever the symbol has in the book is asked to leave.
pub open spec fn called_back(pre: Engine, post: Engine, sym: SymbolId, now: i64) -> bool {
    if pre.sym(sym).has_order() {
        &&& post.paper.after(&pre.paper, now, PaperEvent::CancelAll(sym))
        &&& post == (Engine { paper: post.paper, ..pre })
    } else {
        post == pre
    }
}

pub open spec fn called_back_upto(pre: Engine, post: Engine, n: nat, now: i64) -> bool
    decreases n,
{
    if n == 0 {
        post == pre
    } else {
        exists|m: Engine| called_back_upto(pre, m, (n - 1) as nat, now) && #[trigger] called_back(m, post, (n - 1) as SymbolId, now)
    }
}

/// Final marks and messages.
pub open spec fn closed_out(pre: Engine, post: Engine, now: i64) -> bool {
    let m = Engine { portfolio: pre.portfolio.marked(now as int), ..pre };
    &&& post.outbox@ == (pre.outbox@.push(pnl_row(m, now)) + symbol_rows(m, m.symbols@.len(), now)).push(
        StoreMsg::RunEnd { ended_ts: now },
    )
    &&& post == (Engine { outbox: post.outbox, ..m })
}

/// The run ends: all orders are cancelled and their cancels take effect, the last fills are taken
/// in, final snapshots go out. Positions stay as they are.
pub open spec fn finished_run(pre: Engine, post: Engine, now: i64) -> bool {
    exists|a: Engine, b: Engine, c: Engine|
        #[trigger] called_back_upto(pre, a, pre.symbols@.len(), now) && #[trigger] paper_clocked(
            a,
            b,
            clamp64(now + a.paper.latency_ms + 1) as i64,
        ) && #[trigger] drained(b, c, now) && closed_out(c, post, now)
}

#[derive(Debug)]
pub struct SymbolSummary {
    pub realized: i128,
    pub fees: i128,
    pub n_fills: u32,
    pub position_qty: i64,
    /// Fractional digits of the prices.
    pub price_digits: u32,
    pub unrealized: i128,
}

/// End-of-run metrics, also the objective inputs for the optimizer. Money carries sixteen
/// fractional digits, ratios are decimals.
#[derive(Debug)]
pub struct Summary {
    pub net_pnl: i128,
    pub gross_pnl: i128,
    pub fees: i128,
    pub unrealized: i128,
    pub equity: i128,
    pub max_drawdown: i128,
    pub n_fills: u64,
    pub n_roundtrips: u64,
    pub win_rate: i64,
    pub fill_ratio: i64,
    pub avg_abs_inventory: i128,
    pub n_events: u64,
    pub n_placed: u64,
    pub n_cancelled: u64,
    pub per_symbol: Vec<(String, SymbolSummary)>,
}

/// `a` of `b` as a ratio; 0 of nothing.
pub open spec fn share(a: int, b: int) -> int {
    if b > 0 {
        clamp64(div_round(a * ONE, b))
    } else {
        0
    }
}

/// `r` is the outcome of the run so far.
pub open spec fn is_summary(e: Engine, r: Summary) -> bool {
    let pf = e.portfolio;
    let c = e.counters;
    let decided = if c.orders_done > c.orders_rejected { c.orders_done - c.orders_rejected } else { 0 };
    &&& r.net_pnl == clamp128(clamp128(pf.realized_total - pf.fees_total) + pf.spec_unrealized_total())
    &&& r.gross_pnl == pf.realized_total
    &&& r.fees == pf.fees_total
    &&& r.unrealized == pf.spec_unrealized_total()
    &&& r.equity == pf.spec_equity()
    &&& r.max_drawdown == pf.max_drawdown
    &&& r.n_fills == pf.n_fills
    &&& r.n_roundtrips == c.roundtrips
    &&& r.win_rate == share(c.roundtrip_wins as int, c.roundtrips as int)
    &&& r.fill_ratio == share(c.orders_filled as int, decided)
    &&& r.avg_abs_inventory == if c.ticks > 0 { div_round(max_int(c.exposure_sum as int, i128::MIN + 1), c.ticks as int) } else { 0 }
    &&& r.n_events == c.events
    &&& r.n_placed == c.placed
    &&& r.n_cancelled == c.cancelled
    &&& r.per_symbol@ == results(e, e.symbols@.len())
}

/// Results of the first `n` symbols, as far as they have traded.
pub open spec fn results(e: Engine, n: nat) -> Seq<(String, SymbolSummary)>
    decreases n,
{
    if n == 0 {
        Seq::empty()
    } else {
        let r = results(e, (n - 1) as nat);
        let p = e.portfolio.held((n - 1) as SymbolId);
        if p.n_fills > 0 {
            r.push(
                (
                    e.symbols@[n - 1].meta.name,
                    SymbolSummary {
                        realized: p.realized_pnl,
                        fees: p.fees,
                        n_fills: p.n_fills,
                        position_qty: p.qty,
                        price_digits: e.symbols@[n - 1].meta.price_digits,
                        unrealized: p.spec_unrealized() as i128,
                    },
                ),
            )
        } else {
            r
        }
    }
}

fn ratio(a: u64, b: u64) -> (r: i64)
    ensures
        r == share(a as int, b as int),
{
    if b > 0 {
        sat64(round_div((a as i128) * ONE128, b as i128))
    } else {
        0
    }
}

impl Engine {
    pub fn new(
        cfg: Config,
        overrides: Overrides,
        lists: SymbolLists,
        metas: Vec<SymbolMeta>,
        null_store: bool,
        run_id: i64,
        mode: &str,
        start_ts: i64,
    ) -> (r: Engine)
        requires
            metas@.len() <= u32::MAX,
            forall|i: int| 0 <= i < metas@.len() ==> (#[trigger] metas@[i]).tick_size > 0,
        ensures
            r.wf(),
            started(r, cfg, overrides, lists, metas@, null_store, run_id, mode@, start_ts),
    {
        let mut symbols: Vec<SymbolState> = Vec::new();
        let mut i: usize = 0;
        while i < metas.len()
            invariant
                i <= metas@.len(),
                metas@.len() <= u32::MAX,
                forall|k: int| 0 <= k < metas@.len() ==> (#[trigger] metas@[k]).tick_size > 0,
                symbols@.len() == i,
                forall|k: int| 0 <= k < i ==> fresh_symbol(#[trigger] symbols@[k], metas@[k], k, cfg, overrides) && symbols@[k].wf(),
            decreases metas@.len() - i,
        {
            let mut m: SymbolMeta = metas[i].copy();
            m.id = i as SymbolId;
            let resolved: Result<StrategyParams, ParamError> = overrides.resolve(&cfg.strategy, m.name.as_str());
            let ghost g = resolved;
            assert(overrides.is_resolved(cfg.strategy, metas@[i as int].name@, g));
            let params: StrategyParams = match resolved {
                Ok(p) => p,
                Err(_) => cfg.strategy.copy(),
            };
            let book: Book = Book::new(&metas[i]);
            assert(starts_with(overrides, cfg.strategy, metas@[i as int].name@, params));
            symbols.push(
                SymbolState {
                    book,
                    stats: SymbolStats::new(cfg.eligibility.window_secs),
                    bbo: None,
                    bid_order: None,
                    ask_order: None,
                    last_requote_ms: 0,
                    verdict: Verdict { eligible: false, reason: "warming_up", score: 0 },
                    active: false,
                    params,
                    quote_reason: "init",
                    last_rec_bbo_ts: 0,
                    last_rec_bbo: None,
                    last_rec_ref_ts: 0,
                    rt_open_marks: None,
                    ref_bbo: None,
                    ref_ts: 0,
                    ref_rank: u8::MAX,
                    basis: 0,
                    basis_n: 0,
                    last_ref_dev_bps: 0,
                    experience: Experience::default(),
                    pending_markouts: Vec::new(),
                    meta: m,
                },
            );
            i = i + 1;
        }
        let mut outbox: Vec<StoreMsg> = Vec::new();
        outbox.push(StoreMsg::RunStart { started_ts: start_ts, mode: mode.to_owned() });
        outbox.push(StoreMsg::ParamVersion { version: 1, ts: start_ts });
        Engine {
            symbols,
            paper: PaperExchange::new(cfg.paper.latency_ms, cfg.fees.maker_rate, cfg.fees.taker_rate),
            portfolio: Portfolio::new(cfg.paper.initial_equity_usd),
            risk: RiskState {
                allow_entries: true,
                halted: false,
                reason: "",
                gross_exposure: 0,
                daily_pnl: 0,
                open_positions: 0,
            },
            halted: false,
            outbox,
            param_version: 1,
            run_id,
            record_md: cfg.recording.enabled && !null_store,
            last_tick_sec: quot(start_ts, 1000),
            last_refresh_ms: 0,
            last_stats_snap_ms: 0,
            last_pnl_snap_ms: 0,
            last_cfg_check_ms: start_ts,
            n_active: 0,
            counters: Counters::default(),
            started_ts: start_ts,
            cfg,
            overrides,
            lists,
        }
    }

    pub fn symbol_id(&self, name: &str) -> (r: Option<SymbolId>)
        requires
            self.wf(),
        ensures
            match r {
                Some(i) => last_named(self.symbols@, name@, self.symbols@.len()) == Some(i as int) && i < self.symbols@.len(),
                None => last_named(self.symbols@, name@, self.symbols@.len()) is None,
            },
    {
        let mut n: usize = self.symbols.len();
        while n > 0
            invariant
                n <= self.symbols@.len(),
                self.wf(),
                last_named(self.symbols@, name@, self.symbols@.len()) == last_named(self.symbols@, name@, n as nat),
            decreases n,
        {
            if str_eq(self.symbols[n - 1].meta.name.as_str(), name) {
                return Some((n - 1) as SymbolId);
            }
            n = n - 1;
        }
        None
    }

    /// The configuration files changed but could not be read: everything stays, with a note.
    pub fn reject_config(&mut self, why: String, now: i64)
        requires
            old(self).wf(),
        ensures
            final(self).wf(),
            final(self).outbox@ == old(self).outbox@.push(StoreMsg::Event { ts: now, level: "error", note: Note::ConfigRejected { why } }),
            *final(self) == (Engine { outbox: final(self).outbox, ..*old(self) }),
    {
        self.outbox.push(StoreMsg::Event { ts: now, level: "error", note: Note::ConfigRejected { why } });
    }

    /// Replace tunables at runtime. Structural settings (exchange, storage) need a restart.
    pub fn apply_config(&mut self, cfg: Config, ov: Overrides, lists: SymbolLists, now: i64)
        requires
            old(self).wf(),
        ensures
            final(self).wf(),
            config_applied(*old(self), *final(self), cfg, ov, lists, now),
    {
        self.param_version = next32(self.param_version);
        let mut rejected: u32 = 0;
        let ghost s = self.symbols@;
        let mut i: usize = 0;
        while i < self.symbols.len()
            invariant
                i <= self.symbols@.len(),
                s == old(self).symbols@,
                old(self).wf(),
                self.symbols@.len() == s.len(),
                s.len() <= u32::MAX,
                forall|k: int| 0 <= k < i ==> reparametrized(s[k], #[trigger] self.symbols@[k], ov, cfg.strategy),
                forall|k: int| i <= k < s.len() ==> #[trigger] self.symbols@[k] == s[k],
                rejected == refused_among(s, ov, cfg.strategy, i as nat),
                rejected <= i,
                *self == (Engine { symbols: self.symbols, param_version: inc32(old(self).param_version), ..*old(self) }),
            decreases s.len() - i,
        {
            let ghost m = self.symbols@;
            let r: Result<StrategyParams, ParamError> = ov.resolve(&cfg.strategy, self.symbols[i].meta.name.as_str());
            let ghost g = r;
            assert(ov.is_resolved(cfg.strategy, s[i as int].meta.name@, g));
            match r {
                Ok(p) => {
                    self.symbols[i].params = p;
                    proof {
                        if override_refused(ov, cfg.strategy, s[i as int].meta.name@) {
                            let e = choose|e: ParamError| ov.is_resolved(cfg.strategy, s[i as int].meta.name@, #[trigger] refusal_of(e));
                            crate::config::law_resolve_unique(ov, cfg.strategy, s[i as int].meta.name@, g, refusal_of(e));
                        }
                    }
                },
                Err(e) => {
                    assert(ov.is_resolved(cfg.strategy, s[i as int].meta.name@, refusal_of(e)));
                    rejected = rejected + 1;
                },
            }
            proof {
                assert(self.symbols@ =~= m.update(i as int, self.symbols@[i as int]));
                assert(reparametrized(s[i as int], self.symbols@[i as int], ov, cfg.strategy));
            }
            i = i + 1;
        }
        self.paper.latency_ms = cfg.paper.latency_ms;
        self.paper.maker_fee = cfg.fees.maker_rate;
        self.paper.taker_fee = cfg.fees.taker_rate;
        self.cfg = cfg;
        self.overrides = ov;
        self.lists = lists;
        self.outbox.push(StoreMsg::ParamVersion { version: self.param_version, ts: now });
        self.outbox.push(
            StoreMsg::Event { ts: now, level: "info", note: Note::ConfigReloaded { version: self.param_version, rejected } },
        );
        proof {
            assert forall|k: int| 0 <= k < self.symbols@.len() implies (#[trigger] self.symbols@[k]).wf() by {
                assert(reparametrized(s[k], self.symbols@[k], ov, self.cfg.strategy));
                assert(s[k].wf());
            }
        }
    }

    fn call_back_all(&mut self, now: i64)
        requires
            old(self).wf(),
        ensures
            final(self).wf(),
            called_back_upto(*old(self), *final(self), old(self).symbols@.len(), now),
    {
        let n: usize = self.symbols.len();
        let mut i: usize = 0;
        while i < n
            invariant
                i <= n,
                n == old(self).symbols@.len(),
                n == self.symbols@.len(),
                self.wf(),
                called_back_upto(*old(self), *self, i as nat, now),
            decreases n - i,
        {
            let ghost m = *self;
            if self.symbols[i].bid_order.is_some() || self.symbols[i].ask_order.is_some() {
                self.paper.cancel_all(now, i as SymbolId);
                proof {
                    law_events_keep_symbols(m.paper, self.paper, now, PaperEvent::CancelAll(i as SymbolId), n as int);
                }
            }
            proof {
                let k = (i + 1) as nat;
                assert(called_back(m, *self, (k - 1) as SymbolId, now));
                assert(called_back_upto(*old(self), m, (k - 1) as nat, now));
                assert(called_back_upto(*old(self), *self, k, now));
            }
            i = i + 1;
        }
    }

    /// Cancel everything, write final snapshots. Positions stay as they are (paper).
    pub fn finish(&mut self, now: i64)
        requires
            old(self).wf(),
        ensures
            final(self).wf(),
            finished_run(*old(self), *final(self), now),
    {
        self.call_back_all(now);
        let ghost a = *self;
        let later: i64 = sat64(now as i128 + self.paper.latency_ms as i128 + 1);
        self.paper.on_time(later);
        proof {
            law_events_keep_symbols(a.paper, self.paper, later, PaperEvent::Time, self.symbols@.len() as int);
        }
        let ghost b = *self;
        self.drain_fills(now);
        let ghost c = *self;
        let _ = self.portfolio.mark(now);
        let ghost m = *self;
        let row: StoreMsg = self.make_pnl_row(now);
        let mut rows: Vec<StoreMsg> = self.make_symbol_rows(now);
        self.outbox.push(row);
        self.outbox.append(&mut rows);
        self.outbox.push(StoreMsg::RunEnd { ended_ts: now });
        proof {
            assert(called_back_upto(*old(self), a, old(self).symbols@.len(), now));
            assert(paper_clocked(a, b, clamp64(now + a.paper.latency_ms + 1) as i64));
            assert(drained(b, c, now));
            assert(m == (Engine { portfolio: c.portfolio.marked(now as int), ..c }));
            assert(self.outbox@ =~= (c.outbox@.push(pnl_row(m, now)) + symbol_rows(m, m.symbols@.len(), now)).push(
                StoreMsg::RunEnd { ended_ts: now },
            ));
            assert(closed_out(c, *self, now));
        }
    }

    pub fn summary(&self) -> (r: Summary)
        requires
            self.wf(),
        ensures
            is_summary(*self, r),
    {
        let pf: &Portfolio = &self.portfolio;
        let c: Counters = self.counters;
        let mut per_symbol: Vec<(String, SymbolSummary)> = Vec::new();
        let mut i: usize = 0;
        while i < self.symbols.len()
            invariant
                i <= self.symbols@.len(),
                self.wf(),
                *pf == self.portfolio,
                per_symbol@ == results(*self, i as nat),
            decreases self.symbols@.len() - i,
        {
            if let Some(p) = pf.position(i as SymbolId) {
                if p.n_fills > 0 {
                    per_symbol.push(
                        (
                            self.symbols[i].meta.name.clone(),
                            SymbolSummary {
                                realized: p.realized_pnl,
                                fees: p.fees,
                                n_fills: p.n_fills,
                                position_qty: p.qty,
                                price_digits: self.symbols[i].meta.price_digits,
                                unrealized: p.unrealized(),
                            },
                        ),
                    );
                }
            }
            i = i + 1;
        }
        let decided: u64 = c.orders_done.saturating_sub(c.orders_rejected);
        Summary {
            net_pnl: add_sat(sub_sat(pf.realized_total, pf.fees_total), pf.unrealized_total()),
            gross_pnl: pf.realized_total,
            fees: pf.fees_total,
            unrealized: pf.unrealized_total(),
            equity: pf.equity(),
            max_drawdown: pf.max_drawdown,
            n_fills: pf.n_fills,
            n_roundtrips: c.roundtrips,
            win_rate: ratio(c.roundtrip_wins, c.roundtrips),
            fill_ratio: ratio(c.orders_filled, decided),
            avg_abs_inventory: if c.ticks > 0 {
                round_div(max128(c.exposure_sum, i128::MIN + 1), c.ticks as i128)
            } else {
                0
            },
            n_events: c.events,
            n_placed: c.placed,
            n_cancelled: c.cancelled,
            per_symbol,
        }
    }
}

} // verus!
