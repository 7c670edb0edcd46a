//! Paper exchange: simulates maker execution for our resting limit orders using
//! the public trade stream and top-of-book moves.
//!
//! Model:
//! * an order becomes active `latency_ms` after placement; a cancel takes effect
//!   `latency_ms` after the request (the order can still fill in between);
//! * on activation the queue ahead of us equals the displayed size at our price
//!   (0 if we are alone inside the spread); if the displayed size later drops below
//!   our estimate, we move up (cancellations ahead of us);
//! * a public trade at our price on our side first consumes the queue ahead, the rest
//!   fills us; a trade through our price fills the remainder;
//! * a top-of-book move through our price (best ask <= our bid) fills the remainder;
//! * post-only semantics: an order that would cross on activation is rejected.
//!
//! What an event does to an order depends on that order and the market alone, so `step` says it
//! for one order, and every event is `step` applied to the orders in turn.

use std::collections::HashMap;
use vstd::prelude::*;
use crate::types::{Bbo, Fill, OrderDone, Purpose, Side, SymbolId, Trade};
use crate::units::{clamp128, clamp64, div_round, max_int, min64, min_int, mul64, mul_ratio, sat64, wide_qty, widen, ONE, ONE128, QTY_EPS, TWO63};

verus! {

broadcast use vstd::std_specs::hash::group_hash_axioms;

#[derive(Clone, Copy, Debug, PartialEq, Eq, Structural)]
pub enum OrderState {
    Pending,
    Active,
    CancelPending,
}

#[derive(Clone, Copy, Debug, PartialEq, Eq, Structural)]
pub struct PaperOrder {
    pub id: u64,
    pub sym: SymbolId,
    pub side: Side,
    pub price: i64,
    pub qty: i64,
    pub filled: i64,
    pub taker: bool,
    pub purpose: Purpose,
    pub ts_created: i64,
    pub ts_active: i64,
    pub cancel_at: Option<i64>,
    pub state: OrderState,
    pub queue_ahead: i64,
    pub queue_ahead_initial: i64,
    pub mid_at_place: i64,
    pub spread_bps_at_place: i64,
    pub inventory_before: i64,
    pub param_version: u32,
    /// Fractional digits of the instrument's prices.
    pub price_digits: u32,
}

impl PaperOrder {
    /// No more is filled than was asked for.
    pub open spec fn wf(&self) -> bool {
        0 <= self.filled <= self.qty
    }

    pub open spec fn spec_remaining(&self) -> int {
        clamp64(max_int(self.qty - self.filled, 0))
    }

    pub fn remaining(&self) -> (r: i64)
        ensures
            r == self.spec_remaining(),
    {
        let left: i128 = self.qty as i128 - self.filled as i128;
        if left > 0 {
            sat64(left)
        } else {
            0
        }
    }

    /// An order that has left the book is gone from the exchange, so every order is live.
    pub fn is_live(&self) -> (r: bool)
        ensures
            r,
    {
        match self.state {
            OrderState::Pending | OrderState::Active | OrderState::CancelPending => true,
        }
    }

    pub fn is_cancel_pending(&self) -> (r: bool)
        ensures
            r == (self.state == OrderState::CancelPending),
    {
        match self.state {
            OrderState::CancelPending => true,
            _ => false,
        }
    }

    fn is_pending(&self) -> (r: bool)
        ensures
            r == (self.state == OrderState::Pending),
    {
        match self.state {
            OrderState::Pending => true,
            _ => false,
        }
    }
}

#[derive(Clone, Copy, Debug)]
pub struct PlaceReq {
    pub sym: SymbolId,
    pub side: Side,
    pub price: i64,
    pub qty: i64,
    pub taker: bool,
    pub purpose: Purpose,
    pub inventory_before: i64,
    pub param_version: u32,
    /// Fractional digits of the instrument's prices.
    pub price_digits: u32,
}

/// Terms of the venue: latency and fee rates, and what counts as nothing left of an order (sixteen
/// fractional digits).
#[derive(Clone, Copy, Debug, PartialEq, Eq, Structural)]
pub struct Terms {
    pub latency_ms: i64,
    pub maker_fee: i64,
    pub taker_fee: i64,
    pub qty_eps: i64,
}

/// Something that resting orders react to.
#[derive(Clone, Copy, Debug)]
pub enum PaperEvent {
    Time,
    Book(SymbolId, Bbo),
    Trade(SymbolId, Trade),
    Cancel(u64),
    CancelAll(SymbolId),
}

/// What an event makes of one order: the order as it stays, or `None` with its final record.
#[derive(Clone, Copy, Debug)]
pub struct Outcome {
    pub order: Option<PaperOrder>,
    pub fill: Option<Fill>,
    pub done: Option<OrderDone>,
}

pub open spec fn unchanged(o: PaperOrder) -> Outcome {
    Outcome { order: Some(o), fill: None, done: None }
}

/// The order leaves the book.
pub open spec fn finished(o: PaperOrder, now: i64, status: &'static str) -> OrderDone {
    OrderDone {
        order_id: o.id,
        sym: o.sym,
        side: o.side,
        price: o.price,
        qty: o.qty,
        filled: o.filled,
        ts_created: o.ts_created,
        ts_done: now,
        status,
        purpose: o.purpose,
        queue_ahead_initial: o.queue_ahead_initial,
        spread_bps_at_place: o.spread_bps_at_place,
        param_version: o.param_version,
        price_digits: o.price_digits,
    }
}

pub open spec fn leaves(o: PaperOrder, now: i64, status: &'static str) -> Outcome {
    Outcome { order: None, fill: None, done: Some(finished(o, now, status)) }
}

/// The fee on `qty` at `price`: the notional times the rate, to the sixteenth digit.
pub open spec fn fee_of(qty: int, price: int, rate: int) -> int {
    clamp128(div_round((qty * price) * rate, ONE as int))
}

/// The quantity is more than what counts as nothing.
pub open spec fn counts(t: Terms, qty: int, digits: u32) -> bool {
    wide_qty(qty, digits) > t.qty_eps
}

pub open spec fn with_filled(o: PaperOrder, qty: int) -> PaperOrder {
    PaperOrder { filled: clamp64(o.filled + qty) as i64, ..o }
}

/// `qty` of the order is executed at `price`; once nothing remains the order is done.
pub open spec fn executed(t: Terms, b: Bbo, now: i64, o: PaperOrder, qty: int, price: i64, is_maker: bool) -> Outcome {
    let after = with_filled(o, qty);
    let fill = Fill {
        order_id: o.id,
        sym: o.sym,
        side: o.side,
        price,
        qty: qty as i64,
        fee: fee_of(qty, price as int, if is_maker { t.maker_fee as int } else { t.taker_fee as int }) as i128,
        ts: now,
        is_maker,
        purpose: o.purpose,
        bid: b.bid,
        ask: b.ask,
        placed_ts: o.ts_created,
        mid_at_place: o.mid_at_place,
        spread_bps_at_place: o.spread_bps_at_place,
        queue_ahead_initial: o.queue_ahead_initial,
        inventory_before: o.inventory_before,
        param_version: o.param_version,
        price_digits: o.price_digits,
    };
    if !counts(t, after.spec_remaining(), o.price_digits) {
        Outcome { order: None, fill: Some(fill), done: Some(finished(after, now, "filled")) }
    } else {
        Outcome { order: Some(after), fill: Some(fill), done: None }
    }
}

/// A post-only order that would trade at once.
pub open spec fn crosses(o: PaperOrder, b: Bbo) -> bool {
    match o.side {
        Side::Buy => o.price >= b.ask,
        Side::Sell => o.price <= b.bid,
    }
}

/// Displayed size ahead of a new order: nothing inside the spread, else the size at the best level
/// (deeper than best the depth is unknown, the best size is a proxy).
pub open spec fn ahead_of(o: PaperOrder, b: Bbo) -> i64 {
    match o.side {
        Side::Buy => if o.price > b.bid {
            0
        } else {
            b.bid_qty
        },
        Side::Sell => if o.price < b.ask {
            0
        } else {
            b.ask_qty
        },
    }
}

pub open spec fn activated(t: Terms, b: Bbo, now: i64, o: PaperOrder) -> Outcome {
    if !b.valid() {
        // no market: keep pending until we see a book
        unchanged(o)
    } else if o.taker {
        executed(
            t,
            b,
            now,
            PaperOrder { state: OrderState::Active, ..o },
            o.spec_remaining(),
            match o.side {
                Side::Buy => b.ask,
                Side::Sell => b.bid,
            },
            false,
        )
    } else if crosses(o, b) {
        leaves(o, now, "rejected_post_only")
    } else {
        unchanged(
            PaperOrder {
                state: OrderState::Active,
                ts_active: now,
                queue_ahead: ahead_of(o, b),
                queue_ahead_initial: ahead_of(o, b),
                ..o
            },
        )
    }
}

pub open spec fn on_clock(t: Terms, b: Bbo, now: i64, o: PaperOrder) -> Outcome {
    if o.cancel_at matches Some(c) && c <= now {
        leaves(
            o,
            now,
            if o.filled > 0 {
                "partial_cancelled"
            } else {
                "cancelled"
            },
        )
    } else if o.state == OrderState::Pending && o.ts_active <= now {
        activated(t, b, now, o)
    } else {
        unchanged(o)
    }
}

/// The market moved through the order's price.
pub open spec fn swept(o: PaperOrder, b: Bbo) -> bool {
    match o.side {
        Side::Buy => b.ask <= o.price,
        Side::Sell => b.bid >= o.price,
    }
}

/// The queue ahead after the displayed sizes are known: cancellations ahead move us up.
pub open spec fn requeued(o: PaperOrder, b: Bbo) -> i64 {
    match o.side {
        Side::Buy => if o.price == b.bid {
            min_int(o.queue_ahead as int, b.bid_qty as int) as i64
        } else if o.price > b.bid {
            0
        } else {
            o.queue_ahead
        },
        Side::Sell => if o.price == b.ask {
            min_int(o.queue_ahead as int, b.ask_qty as int) as i64
        } else if o.price < b.ask {
            0
        } else {
            o.queue_ahead
        },
    }
}

pub open spec fn on_book(t: Terms, now: i64, o: PaperOrder, b: Bbo) -> Outcome {
    if o.state == OrderState::Pending {
        unchanged(o)
    } else if swept(o, b) {
        executed(t, b, now, o, o.spec_remaining(), o.price, true)
    } else {
        unchanged(PaperOrder { queue_ahead: requeued(o, b), ..o })
    }
}

/// A taker SELL executes against resting BIDS (ours is a bid => side Buy).
pub open spec fn hits(o: PaperOrder, x: Trade) -> bool {
    match o.side {
        Side::Buy => x.taker_side == Side::Sell && x.price <= o.price,
        Side::Sell => x.taker_side == Side::Buy && x.price >= o.price,
    }
}

/// The part of a trade at our price that the queue ahead of us takes.
pub open spec fn eaten(o: PaperOrder, x: Trade) -> int {
    if o.queue_ahead > 0 {
        min_int(x.qty as int, o.queue_ahead as int)
    } else {
        0
    }
}

pub open spec fn on_print(t: Terms, b: Bbo, now: i64, o: PaperOrder, x: Trade) -> Outcome {
    if o.state == OrderState::Pending || !hits(o, x) {
        unchanged(o)
    } else if x.price != o.price {
        executed(t, b, now, o, o.spec_remaining(), o.price, true)
    } else {
        let moved = PaperOrder { queue_ahead: clamp64(o.queue_ahead - eaten(o, x)) as i64, ..o };
        let left = x.qty - eaten(o, x);
        if counts(t, left, o.price_digits) {
            executed(t, b, now, moved, clamp64(min_int(left, o.spec_remaining())), o.price, true)
        } else {
            unchanged(moved)
        }
    }
}

pub open spec fn cancel_requested(t: Terms, now: i64, o: PaperOrder) -> PaperOrder {
    if o.cancel_at is None {
        PaperOrder {
            cancel_at: Some(clamp64(now + t.latency_ms) as i64),
            state: if o.state == OrderState::Active {
                OrderState::CancelPending
            } else {
                o.state
            },
            ..o
        }
    } else {
        o
    }
}

/// What `ev` at time `now` makes of the order `o`, the last known market of whose symbol is `b`.
pub open spec fn step(t: Terms, b: Bbo, now: i64, o: PaperOrder, ev: PaperEvent) -> Outcome {
    match ev {
        PaperEvent::Time => on_clock(t, b, now, o),
        PaperEvent::Book(sym, book) => if o.sym == sym {
            on_book(t, now, o, book)
        } else {
            unchanged(o)
        },
        PaperEvent::Trade(sym, x) => if o.sym == sym {
            on_print(t, b, now, o, x)
        } else {
            unchanged(o)
        },
        PaperEvent::Cancel(id) => if o.id == id {
            unchanged(cancel_requested(t, now, o))
        } else {
            unchanged(o)
        },
        PaperEvent::CancelAll(sym) => if o.sym == sym {
            unchanged(cancel_requested(t, now, o))
        } else {
            unchanged(o)
        },
    }
}

/// The last market seen of a symbol; none yet counts as an empty one.
pub open spec fn market_of(m: Map<SymbolId, Bbo>, sym: SymbolId) -> Bbo {
    if m.contains_key(sym) {
        m[sym]
    } else {
        Bbo::spec_default()
    }
}

/// The orders that stay after `ev`.
pub open spec fn kept_by(t: Terms, m: Map<SymbolId, Bbo>, now: i64, os: Seq<PaperOrder>, ev: PaperEvent) -> Seq<PaperOrder>
    decreases os.len(),
{
    if os.len() == 0 {
        Seq::empty()
    } else {
        let r = kept_by(t, m, now, os.drop_last(), ev);
        match step(t, market_of(m, os.last().sym), now, os.last(), ev).order {
            Some(o) => r.push(o),
            None => r,
        }
    }
}

/// The fills that `ev` brings, in the order of the orders.
pub open spec fn fills_by(t: Terms, m: Map<SymbolId, Bbo>, now: i64, os: Seq<PaperOrder>, ev: PaperEvent) -> Seq<Fill>
    decreases os.len(),
{
    if os.len() == 0 {
        Seq::empty()
    } else {
        let r = fills_by(t, m, now, os.drop_last(), ev);
        match step(t, market_of(m, os.last().sym), now, os.last(), ev).fill {
            Some(f) => r.push(f),
            None => r,
        }
    }
}

/// The final records of the orders that `ev` ends.
pub open spec fn dones_by(t: Terms, m: Map<SymbolId, Bbo>, now: i64, os: Seq<PaperOrder>, ev: PaperEvent) -> Seq<OrderDone>
    decreases os.len(),
{
    if os.len() == 0 {
        Seq::empty()
    } else {
        let r = dones_by(t, m, now, os.drop_last(), ev);
        match step(t, market_of(m, os.last().sym), now, os.last(), ev).done {
            Some(d) => r.push(d),
            None => r,
        }
    }
}

/// The orders of one symbol.
pub open spec fn orders_of(os: Seq<PaperOrder>, sym: SymbolId) -> Seq<PaperOrder>
    decreases os.len(),
{
    if os.len() == 0 {
        Seq::empty()
    } else {
        let r = orders_of(os.drop_last(), sym);
        if os.last().sym == sym {
            r.push(os.last())
        } else {
            r
        }
    }
}

/// The place of the first of the orders from `from` on that has the id.
pub open spec fn find_order(os: Seq<PaperOrder>, id: u64, from: int) -> Option<int>
    decreases os.len() - from,
{
    if from >= os.len() {
        None
    } else if os[from].id == id {
        Some(from)
    } else {
        find_order(os, id, from + 1)
    }
}

pub open spec fn next_order_id(id: u64) -> u64 {
    if id < u64::MAX {
        (id + 1) as u64
    } else {
        0
    }
}

/// A new order as it is booked.
pub open spec fn new_order(t: Terms, b: Bbo, now: i64, id: u64, req: PlaceReq) -> PaperOrder {
    PaperOrder {
        id,
        sym: req.sym,
        side: req.side,
        price: req.price,
        qty: req.qty,
        filled: 0,
        taker: req.taker,
        purpose: req.purpose,
        ts_created: now,
        ts_active: clamp64(now + t.latency_ms) as i64,
        cancel_at: None,
        state: OrderState::Pending,
        queue_ahead: 0,
        queue_ahead_initial: 0,
        mid_at_place: if b.valid() {
            b.spec_mid() as i64
        } else {
            req.price
        },
        spread_bps_at_place: if b.valid() {
            b.spec_spread_bps() as i64
        } else {
            0
        },
        inventory_before: req.inventory_before,
        param_version: req.param_version,
        price_digits: req.price_digits,
    }
}

fn make_done(o: &PaperOrder, now: i64, status: &'static str) -> (r: OrderDone)
    ensures
        r == finished(*o, now, status),
{
    OrderDone {
        order_id: o.id,
        sym: o.sym,
        side: o.side,
        price: o.price,
        qty: o.qty,
        filled: o.filled,
        ts_created: o.ts_created,
        ts_done: now,
        status,
        purpose: o.purpose,
        queue_ahead_initial: o.queue_ahead_initial,
        spread_bps_at_place: o.spread_bps_at_place,
        param_version: o.param_version,
        price_digits: o.price_digits,
    }
}

fn stays(o: PaperOrder) -> (r: Outcome)
    ensures
        r == unchanged(o),
{
    Outcome { order: Some(o), fill: None, done: None }
}

fn finish(o: &PaperOrder, now: i64, status: &'static str) -> (r: Outcome)
    ensures
        r == leaves(*o, now, status),
{
    Outcome { order: None, fill: None, done: Some(make_done(o, now, status)) }
}

fn still_counts(t: &Terms, qty: i128, digits: u32) -> (r: bool)
    requires
        -2 * TWO63 <= qty <= 2 * TWO63,
    ensures
        r == counts(*t, qty as int, digits),
{
    widen(qty, digits) > t.qty_eps as i128
}

fn at_most(left: i128, rem: i64) -> (r: i64)
    requires
        left >= -2 * TWO63,
        rem >= 0,
    ensures
        r == clamp64(min_int(left as int, rem as int)),
{
    if left <= rem as i128 {
        sat64(left)
    } else {
        rem
    }
}

fn fee_on(qty: i64, price: i64, rate: i64) -> (r: i128)
    ensures
        r == fee_of(qty as int, price as int, rate as int),
{
    mul_ratio(mul64(qty, price), rate as i128, ONE128)
}

fn emit_fill(t: &Terms, b: &Bbo, now: i64, o: &PaperOrder, qty: i64, price: i64, is_maker: bool) -> (r: Outcome)
    ensures
        r == executed(*t, *b, now, *o, qty as int, price, is_maker),
{
    let rate: i64 = if is_maker {
        t.maker_fee
    } else {
        t.taker_fee
    };
    let fill = Fill {
        order_id: o.id,
        sym: o.sym,
        side: o.side,
        price,
        qty,
        fee: fee_on(qty, price, rate),
        ts: now,
        is_maker,
        purpose: o.purpose,
        bid: b.bid,
        ask: b.ask,
        placed_ts: o.ts_created,
        mid_at_place: o.mid_at_place,
        spread_bps_at_place: o.spread_bps_at_place,
        queue_ahead_initial: o.queue_ahead_initial,
        inventory_before: o.inventory_before,
        param_version: o.param_version,
        price_digits: o.price_digits,
    };
    let after = PaperOrder { filled: sat64(o.filled as i128 + qty as i128), ..*o };
    if !still_counts(t, after.remaining() as i128, o.price_digits) {
        Outcome { order: None, fill: Some(fill), done: Some(make_done(&after, now, "filled")) }
    } else {
        Outcome { order: Some(after), fill: Some(fill), done: None }
    }
}

fn activate(t: &Terms, b: &Bbo, now: i64, o: &PaperOrder) -> (r: Outcome)
    ensures
        r == activated(*t, *b, now, *o),
{
    if !b.is_valid() {
        return stays(*o);
    }
    if o.taker {
        // market-like: fill at the touch on the opposite side, taker fee
        let px: i64 = match o.side {
            Side::Buy => b.ask,
            Side::Sell => b.bid,
        };
        let rem: i64 = o.remaining();
        let active = PaperOrder { state: OrderState::Active, ..*o };
        return emit_fill(t, b, now, &active, rem, px, false);
    }
    let crossing: bool = match o.side {
        Side::Buy => o.price >= b.ask,
        Side::Sell => o.price <= b.bid,
    };
    if crossing {
        return finish(o, now, "rejected_post_only");
    }
    let ahead: i64 = match o.side {
        Side::Buy => if o.price > b.bid {
            0
        } else {
            b.bid_qty
        },
        Side::Sell => if o.price < b.ask {
            0
        } else {
            b.ask_qty
        },
    };
    stays(
        PaperOrder { state: OrderState::Active, ts_active: now, queue_ahead: ahead, queue_ahead_initial: ahead, ..*o },
    )
}

/// Activate a pending order or finalize a cancel whose latency elapsed.
fn step_time(t: &Terms, b: &Bbo, now: i64, o: &PaperOrder) -> (r: Outcome)
    ensures
        r == on_clock(*t, *b, now, *o),
{
    let due: bool = match o.cancel_at {
        Some(c) => c <= now,
        None => false,
    };
    if due {
        finish(
            o,
            now,
            if o.filled > 0 {
                "partial_cancelled"
            } else {
                "cancelled"
            },
        )
    } else if o.is_pending() && o.ts_active <= now {
        activate(t, b, now, o)
    } else {
        stays(*o)
    }
}

fn step_book(t: &Terms, now: i64, o: &PaperOrder, b: &Bbo) -> (r: Outcome)
    ensures
        r == on_book(*t, now, *o, *b),
{
    if o.is_pending() {
        return stays(*o);
    }
    let through: bool = match o.side {
        Side::Buy => b.ask <= o.price,
        Side::Sell => b.bid >= o.price,
    };
    if through {
        return emit_fill(t, b, now, o, o.remaining(), o.price, true);
    }
    // queue shrink from cancellations ahead of us
    let queue: i64 = match o.side {
        Side::Buy => if o.price == b.bid {
            min64(o.queue_ahead, b.bid_qty)
        } else if o.price > b.bid {
            0
        } else {
            o.queue_ahead
        },
        Side::Sell => if o.price == b.ask {
            min64(o.queue_ahead, b.ask_qty)
        } else if o.price < b.ask {
            0
        } else {
            o.queue_ahead
        },
    };
    stays(PaperOrder { queue_ahead: queue, ..*o })
}

fn step_trade(t: &Terms, b: &Bbo, now: i64, o: &PaperOrder, x: &Trade) -> (r: Outcome)
    ensures
        r == on_print(*t, *b, now, *o, *x),
{
    if o.is_pending() {
        return stays(*o);
    }
    let hit: bool = match (o.side, x.taker_side) {
        (Side::Buy, Side::Sell) => x.price <= o.price,
        (Side::Sell, Side::Buy) => x.price >= o.price,
        _ => false,
    };
    if !hit {
        return stays(*o);
    }
    let rem: i64 = o.remaining();
    if x.price != o.price {
        return emit_fill(t, b, now, o, rem, o.price, true);
    }
    let eat: i64 = if o.queue_ahead > 0 {
        min64(x.qty, o.queue_ahead)
    } else {
        0
    };
    let moved = PaperOrder { queue_ahead: sat64(o.queue_ahead as i128 - eat as i128), ..*o };
    let left: i128 = x.qty as i128 - eat as i128;
    if still_counts(t, left, o.price_digits) {
        emit_fill(t, b, now, &moved, at_most(left, rem), o.price, true)
    } else {
        stays(moved)
    }
}

fn request_cancel(t: &Terms, now: i64, o: &PaperOrder) -> (r: PaperOrder)
    ensures
        r == cancel_requested(*t, now, *o),
{
    match o.cancel_at {
        Some(_) => *o,
        None => PaperOrder {
            cancel_at: Some(sat64(now as i128 + t.latency_ms as i128)),
            state: match o.state {
                OrderState::Active => OrderState::CancelPending,
                s => s,
            },
            ..*o
        },
    }
}

fn step_order(t: &Terms, b: &Bbo, now: i64, o: &PaperOrder, ev: &PaperEvent) -> (r: Outcome)
    ensures
        r == step(*t, *b, now, *o, *ev),
{
    match ev {
        PaperEvent::Time => step_time(t, b, now, o),
        PaperEvent::Book(sym, book) => if o.sym == *sym {
            step_book(t, now, o, book)
        } else {
            stays(*o)
        },
        PaperEvent::Trade(sym, x) => if o.sym == *sym {
            step_trade(t, b, now, o, x)
        } else {
            stays(*o)
        },
        PaperEvent::Cancel(id) => if o.id == *id {
            stays(request_cancel(t, now, o))
        } else {
            stays(*o)
        },
        PaperEvent::CancelAll(sym) => if o.sym == *sym {
            stays(request_cancel(t, now, o))
        } else {
            stays(*o)
        },
    }
}

#[derive(Debug)]
pub struct PaperExchange {
    pub latency_ms: i64,
    pub maker_fee: i64,
    pub taker_fee: i64,
    /// No more than this left of an order is nothing (sixteen fractional digits).
    pub qty_eps: i64,
    /// In the order of placement.
    pub orders: Vec<PaperOrder>,
    pub last_bbo: HashMap<SymbolId, Bbo>,
    pub next_id: u64,
    pub fills: Vec<Fill>,
    pub done: Vec<OrderDone>,
}

impl PaperExchange {
    pub open spec fn terms(&self) -> Terms {
        Terms { latency_ms: self.latency_ms, maker_fee: self.maker_fee, taker_fee: self.taker_fee, qty_eps: self.qty_eps }
    }

    pub open spec fn market(&self, sym: SymbolId) -> Bbo {
        market_of(self.last_bbo@, sym)
    }

    /// `self` after `ev` came to `old`: what stays, what was filled, what ended; nothing else moved.
    pub open spec fn after(&self, old: &PaperExchange, now: i64, ev: PaperEvent) -> bool {
        &&& self.orders@ == kept_by(old.terms(), old.last_bbo@, now, old.orders@, ev)
        &&& self.fills@ == old.fills@ + fills_by(old.terms(), old.last_bbo@, now, old.orders@, ev)
        &&& self.done@ == old.done@ + dones_by(old.terms(), old.last_bbo@, now, old.orders@, ev)
        &&& *self == (PaperExchange { orders: self.orders, fills: self.fills, done: self.done, ..*old })
    }

    /// An exchange on which nothing has happened yet.
    pub open spec fn is_fresh(&self, t: Terms) -> bool {
        &&& self.terms() == t
        &&& self.orders@ == Seq::<PaperOrder>::empty()
        &&& self.last_bbo@ == Map::<SymbolId, Bbo>::empty()
        &&& self.next_id == 1
        &&& self.fills@ == Seq::<Fill>::empty()
        &&& self.done@ == Seq::<OrderDone>::empty()
    }

    /// `self` is `old` with the order asked for booked under the next id.
    pub open spec fn after_place(&self, old: &PaperExchange, now: i64, req: PlaceReq) -> bool {
        &&& self.orders@ == old.orders@.push(new_order(old.terms(), old.market(req.sym), now, old.next_id, req))
        &&& *self == (PaperExchange { orders: self.orders, next_id: next_order_id(old.next_id), ..*old })
    }

    /// `self` is `old` after a new top of book: it is noted, and if it is a market, orders react.
    pub open spec fn after_bbo(&self, old: &PaperExchange, now: i64, sym: SymbolId, bbo: Bbo) -> bool {
        let noted = PaperExchange { last_bbo: self.last_bbo, ..*old };
        &&& self.last_bbo@ == old.last_bbo@.insert(sym, bbo)
        &&& if bbo.valid() {
            self.after(&noted, now, PaperEvent::Book(sym, bbo))
        } else {
            *self == noted
        }
    }

    /// `self` is `old` with its fills and final records handed over.
    pub open spec fn after_drain(&self, old: &PaperExchange) -> bool {
        &&& self.fills@ == Seq::<Fill>::empty()
        &&& self.done@ == Seq::<OrderDone>::empty()
        &&& *self == (PaperExchange { fills: self.fills, done: self.done, ..*old })
    }

    pub fn new(latency_ms: i64, maker_fee: i64, taker_fee: i64) -> (r: PaperExchange)
        ensures
            r.is_fresh((Terms { latency_ms, maker_fee, taker_fee, qty_eps: QTY_EPS })),
    {
        PaperExchange {
            latency_ms,
            maker_fee,
            taker_fee,
            qty_eps: QTY_EPS,
            orders: Vec::new(),
            last_bbo: HashMap::new(),
            next_id: 1,
            fills: Vec::new(),
            done: Vec::new(),
        }
    }

    fn venue(&self) -> (r: Terms)
        ensures
            r == self.terms(),
    {
        Terms { latency_ms: self.latency_ms, maker_fee: self.maker_fee, taker_fee: self.taker_fee, qty_eps: self.qty_eps }
    }

    fn last_market(&self, sym: SymbolId) -> (r: Bbo)
        ensures
            r == self.market(sym),
    {
        match self.last_bbo.get(&sym) {
            Some(b) => *b,
            None => Bbo::default(),
        }
    }

    pub fn order(&self, id: u64) -> (r: Option<&PaperOrder>)
        ensures
            match r {
                Some(o) => find_order(self.orders@, id, 0) matches Some(i) && 0 <= i < self.orders@.len() && *o == self.orders@[i] && o.id
                    == id,
                None => find_order(self.orders@, id, 0) is None,
            },
    {
        let mut i: usize = 0;
        while i < self.orders.len()
            invariant
                i <= self.orders@.len(),
                find_order(self.orders@, id, 0) == find_order(self.orders@, id, i as int),
            decreases self.orders@.len() - i,
        {
            if self.orders[i].id == id {
                return Some(&self.orders[i]);
            }
            i = i + 1;
        }
        None
    }

    pub fn live_orders(&self, sym: SymbolId) -> (r: Vec<PaperOrder>)
        ensures
            r@ == orders_of(self.orders@, sym),
    {
        let mut r: Vec<PaperOrder> = Vec::new();
        let mut i: usize = 0;
        assert(self.orders@.take(0) =~= Seq::<PaperOrder>::empty());
        while i < self.orders.len()
            invariant
                i <= self.orders@.len(),
                r@ == orders_of(self.orders@.take(i as int), sym),
            decreases self.orders@.len() - i,
        {
            assert(self.orders@.take(i + 1).drop_last() =~= self.orders@.take(i as int));
            if self.orders[i].sym == sym {
                r.push(self.orders[i]);
            }
            i = i + 1;
        }
        assert(self.orders@.take(i as int) =~= self.orders@);
        r
    }

    pub fn n_live(&self) -> (r: usize)
        ensures
            r == self.orders@.len(),
    {
        self.orders.len()
    }

    pub fn place(&mut self, now: i64, req: PlaceReq) -> (r: u64)
        ensures
            r == old(self).next_id,
            final(self).after_place(old(self), now, req),
    {
        let id: u64 = self.next_id;
        self.next_id = if id < u64::MAX {
            id + 1
        } else {
            0
        };
        let bbo: Bbo = self.last_market(req.sym);
        let valid: bool = bbo.is_valid();
        let o = PaperOrder {
            id,
            sym: req.sym,
            side: req.side,
            price: req.price,
            qty: req.qty,
            filled: 0,
            taker: req.taker,
            purpose: req.purpose,
            ts_created: now,
            ts_active: sat64(now as i128 + self.latency_ms as i128),
            cancel_at: None,
            state: OrderState::Pending,
            queue_ahead: 0,
            queue_ahead_initial: 0,
            mid_at_place: if valid {
                bbo.mid()
            } else {
                req.price
            },
            spread_bps_at_place: if valid {
                bbo.spread_bps()
            } else {
                0
            },
            inventory_before: req.inventory_before,
            param_version: req.param_version,
            price_digits: req.price_digits,
        };
        self.orders.push(o);
        id
    }

    fn run(&mut self, now: i64, ev: PaperEvent)
        ensures
            final(self).after(old(self), now, ev),
    {
        let t: Terms = self.venue();
        let mut kept: Vec<PaperOrder> = Vec::new();
        let mut i: usize = 0;
        let ghost os = self.orders@;
        let ghost m = self.last_bbo@;
        assert(os.take(0) =~= Seq::<PaperOrder>::empty());
        assert(self.fills@ =~= old(self).fills@ + Seq::<Fill>::empty());
        assert(self.done@ =~= old(self).done@ + Seq::<OrderDone>::empty());
        while i < self.orders.len()
            invariant
                i <= os.len(),
                os == old(self).orders@,
                m == old(self).last_bbo@,
                t == old(self).terms(),
                kept@ == kept_by(t, m, now, os.take(i as int), ev),
                self.fills@ == old(self).fills@ + fills_by(t, m, now, os.take(i as int), ev),
                self.done@ == old(self).done@ + dones_by(t, m, now, os.take(i as int), ev),
                *self == (PaperExchange { fills: self.fills, done: self.done, ..*old(self) }),
            decreases os.len() - i,
        {
            let o: PaperOrder = self.orders[i];
            let b: Bbo = self.last_market(o.sym);
            let out: Outcome = step_order(&t, &b, now, &o, &ev);
            proof {
                let s = os.take(i + 1);
                assert(s.drop_last() =~= os.take(i as int));
                assert(s.last() == o);
                assert(out == step(t, market_of(m, o.sym), now, o, ev));
            }
            let ghost f0 = self.fills@;
            let ghost d0 = self.done@;
            if let Some(f) = out.fill {
                self.fills.push(f);
                assert(self.fills@ =~= old(self).fills@ + fills_by(t, m, now, os.take(i as int), ev).push(f));
            }
            if let Some(d) = out.done {
                self.done.push(d);
                assert(self.done@ =~= old(self).done@ + dones_by(t, m, now, os.take(i as int), ev).push(d));
            }
            if let Some(n) = out.order {
                kept.push(n);
            }
            i = i + 1;
        }
        assert(os.take(i as int) =~= os);
        self.orders = kept;
    }

    pub fn cancel(&mut self, now: i64, id: u64)
        ensures
            final(self).after(old(self), now, PaperEvent::Cancel(id)),
    {
        self.run(now, PaperEvent::Cancel(id));
    }

    pub fn cancel_all(&mut self, now: i64, sym: SymbolId)
        ensures
            final(self).after(old(self), now, PaperEvent::CancelAll(sym)),
    {
        self.run(now, PaperEvent::CancelAll(sym));
    }

    /// Activate pending orders and finalize cancels whose latency elapsed.
    pub fn on_time(&mut self, now: i64)
        ensures
            final(self).after(old(self), now, PaperEvent::Time),
    {
        self.run(now, PaperEvent::Time);
    }

    /// Top-of-book update: refresh queue estimates and fill orders the market moved through.
    pub fn on_bbo(&mut self, now: i64, sym: SymbolId, bbo: &Bbo)
        ensures
            final(self).after_bbo(old(self), now, sym, *bbo),
    {
        let _ = self.last_bbo.insert(sym, *bbo);
        if !bbo.is_valid() {
            return;
        }
        self.run(now, PaperEvent::Book(sym, *bbo));
    }

    /// Public trade: consume queue ahead of us, then fill.
    pub fn on_trade(&mut self, now: i64, sym: SymbolId, t: &Trade)
        ensures
            final(self).after(old(self), now, PaperEvent::Trade(sym, *t)),
    {
        self.run(now, PaperEvent::Trade(sym, *t));
    }

    /// Hand over the fills and final records collected so far.
    pub fn drain(&mut self) -> (r: (Vec<Fill>, Vec<OrderDone>))
        ensures
            r.0@ == old(self).fills@,
            r.1@ == old(self).done@,
            final(self).after_drain(old(self)),
    {
        let mut fills: Vec<Fill> = Vec::new();
        let mut done: Vec<OrderDone> = Vec::new();
        std::mem::swap(&mut fills, &mut self.fills);
        std::mem::swap(&mut done, &mut self.done);
        (fills, done)
    }
}

} // verus!
