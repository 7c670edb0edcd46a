//! What the messages of the market data feeds mean: the exchange's own stream (books and trades)
//! and the book tickers of the reference venue. The messages arrive here with their fields taken
//! apart; figures are still text.

use vstd::prelude::*;
use vstd::utf8::encode_utf8;
use crate::text::{decimal_at, parse_decimal_at};
use crate::table::{entry_value, find_entry};
use crate::types::{str_eq, MarketEvent, Side, SymbolId, SymbolMeta, Trade};
use crate::units::{places_of_price, places_of_qty, price_places, qty_places};

verus! {

/// A connection without a message for this long is dead.
pub const SILENCE_SECS: u64 = 40;

/// The reference venue pings every 3 minutes; silence beyond that means the socket is dead.
pub const REFERENCE_SILENCE_SECS: u64 = 300;

pub const PING_SECS: u64 = 20;

/// A connection that lived longer than this resets the backoff.
pub const LONG_LIVED_SECS: u64 = 60;

/// Reference connections are numbered from here.
pub const REFERENCE_CONN: usize = 1000;

pub open spec fn has_prefix(s: Seq<char>, p: Seq<char>) -> bool {
    s.len() >= p.len() && s.subrange(0, p.len() as int) == p
}

fn starts_with(s: &str, p: &str) -> (r: bool)
    ensures
        r == has_prefix(s@, p@),
{
    let n: usize = p.unicode_len();
    if s.unicode_len() < n {
        return false;
    }
    str_eq(s.substring_char(0, n), p)
}

pub open spec fn text_is(s: Option<String>, t: Seq<char>) -> bool {
    s matches Some(x) && x@ == t
}

fn is_text(s: &Option<String>, t: &str) -> (r: bool)
    ensures
        r == text_is(*s, t@),
{
    match s {
        Some(x) => str_eq(x.as_str(), t),
        None => false,
    }
}

// ------------------------------------------------------------------------------
// Exchange stream
// ------------------------------------------------------------------------------

/// The outer fields of a message.
#[derive(Clone, Debug)]
pub struct Envelope {
    pub topic: Option<String>,
    pub typ: Option<String>,
    pub ts: Option<i64>,
    pub has_data: bool,
    pub op: Option<String>,
    pub success: Option<bool>,
}

/// What a message is.
#[derive(Clone, Copy, Debug, PartialEq, Eq, Structural)]
pub enum Route {
    /// A subscription was accepted.
    Subscribed,
    /// A subscription was refused.
    Refused,
    /// An answer to a ping, or nothing of interest.
    Nothing,
    /// Another control message.
    OtherOp,
    Book,
    Trades,
}

impl Envelope {
    pub open spec fn spec_route(&self) -> Route {
        match self.op {
            Some(op) => if op@ == "subscribe"@ {
                if self.success == Some(false) {
                    Route::Refused
                } else {
                    Route::Subscribed
                }
            } else if op@ == "ping"@ || op@ == "pong"@ {
                Route::Nothing
            } else {
                Route::OtherOp
            },
            None => match self.topic {
                Some(t) => if !self.has_data {
                    Route::Nothing
                } else if has_prefix(t@, "orderbook."@) {
                    Route::Book
                } else if has_prefix(t@, "publicTrade."@) {
                    Route::Trades
                } else {
                    Route::Nothing
                },
                None => Route::Nothing,
            },
        }
    }

    pub fn route(&self) -> (r: Route)
        ensures
            r == self.spec_route(),
    {
        if let Some(op) = &self.op {
            if str_eq(op.as_str(), "subscribe") {
                return match self.success {
                    Some(false) => Route::Refused,
                    _ => Route::Subscribed,
                };
            }
            if str_eq(op.as_str(), "ping") || str_eq(op.as_str(), "pong") {
                return Route::Nothing;
            }
            return Route::OtherOp;
        }
        match &self.topic {
            Some(t) => {
                if !self.has_data {
                    Route::Nothing
                } else if starts_with(t.as_str(), "orderbook.") {
                    Route::Book
                } else if starts_with(t.as_str(), "publicTrade.") {
                    Route::Trades
                } else {
                    Route::Nothing
                }
            },
            None => Route::Nothing,
        }
    }
}

/// A control message is never taken for market data.
pub proof fn law_control_is_no_data(e: Envelope)
    requires
        e.op is Some,
    ensures
        e.spec_route() != Route::Book,
        e.spec_route() != Route::Trades,
{
}

/// The symbol that a name in a message stands for, and how its figures are held.
#[derive(Clone, Copy, Debug, PartialEq, Eq, Structural)]
pub struct Target {
    pub sym: SymbolId,
    /// Fractional digits of the prices.
    pub price_digits: u32,
}

/// The targets of the instruments, by name.
pub open spec fn targets_of(m: Seq<SymbolMeta>, r: Seq<(String, Target)>) -> bool {
    &&& r.len() == m.len()
    &&& forall|i: int| 0 <= i < m.len() ==> (#[trigger] r[i]).0@ == m[i].name@ && r[i].1 == (Target { sym: m[i].id, price_digits: m[i].price_digits })
}

pub fn targets(m: &Vec<SymbolMeta>) -> (r: Vec<(String, Target)>)
    ensures
        targets_of(m@, r@),
{
    let mut r: Vec<(String, Target)> = Vec::new();
    let mut i: usize = 0;
    while i < m.len()
        invariant
            i <= m@.len(),
            targets_of(m@.take(i as int), r@),
        decreases m@.len() - i,
    {
        r.push((m[i].name.clone(), Target { sym: m[i].id, price_digits: m[i].price_digits }));
        i = i + 1;
    }
    assert(m@.take(i as int) =~= m@);
    r
}

/// The payload of a book message: price and size pairs in text.
#[derive(Clone, Debug)]
pub struct BookData {
    pub s: String,
    pub b: Vec<(String, String)>,
    pub a: Vec<(String, String)>,
    pub u: Option<u64>,
}

/// The pair as numbers, if both are.
pub open spec fn level(p: (String, String), digits: u32) -> Option<(i64, i64)> {
    match (decimal_at(encode_utf8(p.0@), price_places(digits)), decimal_at(encode_utf8(p.1@), qty_places(digits))) {
        (Some(x), Some(y)) => Some((x, y)),
        _ => None,
    }
}

/// The levels among the first `n` pairs; what is no number is left out.
pub open spec fn levels(v: Seq<(String, String)>, digits: u32, n: nat) -> Seq<(i64, i64)>
    decreases n,
{
    if n == 0 {
        Seq::empty()
    } else {
        let r = levels(v, digits, (n - 1) as nat);
        match level(v[n - 1], digits) {
            Some(l) => r.push(l),
            None => r,
        }
    }
}

fn parse_levels(v: &Vec<(String, String)>, digits: u32) -> (r: Vec<(i64, i64)>)
    ensures
        r@ == levels(v@, digits, v@.len()),
{
    let mut r: Vec<(i64, i64)> = Vec::new();
    let mut i: usize = 0;
    while i < v.len()
        invariant
            i <= v@.len(),
            r@ == levels(v@, digits, i as nat),
        decreases v@.len() - i,
    {
        let p: Option<i64> = parse_decimal_at(v[i].0.as_str(), places_of_price(digits));
        let q: Option<i64> = parse_decimal_at(v[i].1.as_str(), places_of_qty(digits));
        if let (Some(x), Some(y)) = (p, q) {
            r.push((x, y));
        }
        i = i + 1;
    }
    r
}

/// A book is whole in a message of type "snapshot", and when the exchange starts its numbering anew.
pub open spec fn is_snapshot(env: Envelope, d: BookData) -> bool {
    text_is(env.typ, "snapshot"@) || d.u == Some(1u64)
}

/// `r` is what a book message means; one about an unknown symbol means nothing.
pub open spec fn is_book_event(names: Seq<(String, Target)>, env: Envelope, d: BookData, r: Option<MarketEvent>) -> bool {
    match entry_value(names, d.s@) {
        None => r is None,
        Some(id) => {
            &&& r matches Some(MarketEvent::Book { sym, ts, snapshot, bids, asks })
            &&& sym == id.sym
            &&& ts == match env.ts {
                Some(t) => t,
                None => 0,
            }
            &&& snapshot == is_snapshot(env, d)
            &&& bids@ == levels(d.b@, id.price_digits, d.b@.len())
            &&& asks@ == levels(d.a@, id.price_digits, d.a@.len())
        },
    }
}

pub fn book_event(names: &Vec<(String, Target)>, env: &Envelope, d: &BookData) -> (r: Option<MarketEvent>)
    ensures
        is_book_event(names@, *env, *d, r),
{
    match find_entry(names, d.s.as_str()) {
        None => None,
        Some(i) => {
            let snapshot: bool = is_text(&env.typ, "snapshot") || match d.u {
                Some(u) => u == 1,
                None => false,
            };
            let ts: i64 = match env.ts {
                Some(t) => t,
                None => 0,
            };
            let to: Target = names[i].1;
            Some(
                MarketEvent::Book {
                    sym: to.sym,
                    ts,
                    snapshot,
                    bids: parse_levels(&d.b, to.price_digits),
                    asks: parse_levels(&d.a, to.price_digits),
                },
            )
        },
    }
}

/// A trade in a message.
#[derive(Clone, Debug)]
pub struct TradeData {
    pub ts: i64,
    pub s: String,
    pub side: String,
    pub v: String,
    pub p: String,
}

impl TradeData {
    pub open spec fn spec_trade(&self, digits: u32) -> Option<Trade> {
        match (decimal_at(encode_utf8(self.p@), price_places(digits)), decimal_at(encode_utf8(self.v@), qty_places(digits))) {
            (Some(price), Some(qty)) => Some(
                Trade { ts: self.ts, price, qty, taker_side: if self.side@ == "Buy"@ { Side::Buy } else { Side::Sell } },
            ),
            _ => None,
        }
    }

    fn trade(&self, digits: u32) -> (r: Option<Trade>)
        ensures
            r == self.spec_trade(digits),
    {
        match (parse_decimal_at(self.p.as_str(), places_of_price(digits)), parse_decimal_at(self.v.as_str(), places_of_qty(digits))) {
            (Some(price), Some(qty)) => Some(
                Trade { ts: self.ts, price, qty, taker_side: if str_eq(self.side.as_str(), "Buy") { Side::Buy } else { Side::Sell } },
            ),
            _ => None,
        }
    }
}

/// The trades among the first `n` entries; those whose figures are no numbers are left out.
pub open spec fn trades_of(v: Seq<TradeData>, digits: u32, n: nat) -> Seq<Trade>
    decreases n,
{
    if n == 0 {
        Seq::empty()
    } else {
        let r = trades_of(v, digits, (n - 1) as nat);
        match v[n - 1].spec_trade(digits) {
            Some(t) => r.push(t),
            None => r,
        }
    }
}

/// `r` is what a trade message means: all its trades are of the first one's symbol.
pub open spec fn is_trade_event(names: Seq<(String, Target)>, list: Seq<TradeData>, r: Option<MarketEvent>) -> bool {
    if list.len() == 0 || entry_value(names, list[0].s@) is None {
        r is None
    } else {
        let to = entry_value(names, list[0].s@)->0;
        r matches Some(MarketEvent::Trades { sym, trades }) && sym == to.sym && trades@ == trades_of(list, to.price_digits, list.len())
    }
}

pub fn trade_event(names: &Vec<(String, Target)>, list: &Vec<TradeData>) -> (r: Option<MarketEvent>)
    ensures
        is_trade_event(names@, list@, r),
{
    if list.len() == 0 {
        return None;
    }
    match find_entry(names, list[0].s.as_str()) {
        None => None,
        Some(k) => {
            let to: Target = names[k].1;
            let mut trades: Vec<Trade> = Vec::new();
            let mut i: usize = 0;
            while i < list.len()
                invariant
                    i <= list@.len(),
                    trades@ == trades_of(list@, to.price_digits, i as nat),
                decreases list@.len() - i,
            {
                if let Some(t) = list[i].trade(to.price_digits) {
                    trades.push(t);
                }
                i = i + 1;
            }
            Some(MarketEvent::Trades { sym: to.sym, trades })
        },
    }
}

// ------------------------------------------------------------------------------
// Reference venue
// ------------------------------------------------------------------------------

/// Best bid and ask of the reference venue, with the transaction and event times where it sends
/// them.
#[derive(Clone, Debug)]
pub struct BookTicker {
    pub s: String,
    pub b: String,
    pub a: String,
    pub t: Option<i64>,
    pub e: Option<i64>,
}

impl BookTicker {
    /// The transaction time, or else the event time, or else the time of arrival.
    pub open spec fn stamp(&self, now: i64) -> i64 {
        match self.t {
            Some(t) => t,
            None => match self.e {
                Some(e) => e,
                None => now,
            },
        }
    }

    /// The event, if the symbol is known and the quote is sane.
    pub open spec fn spec_event(&self, names: Seq<(String, Target)>, rank: u8, now: i64) -> Option<MarketEvent> {
        match entry_value(names, self.s@) {
            Some(to) => {
                let p = price_places(to.price_digits);
                match (decimal_at(encode_utf8(self.b@), p), decimal_at(encode_utf8(self.a@), p)) {
                    (Some(bid), Some(ask)) => if bid > 0 && ask >= bid {
                        Some(MarketEvent::Reference { sym: to.sym, ts: self.stamp(now), bid, ask, rank })
                    } else {
                        None
                    },
                    _ => None,
                }
            },
            None => None,
        }
    }

    pub fn event(&self, names: &Vec<(String, Target)>, rank: u8, now: i64) -> (r: Option<MarketEvent>)
        ensures
            r == self.spec_event(names@, rank, now),
    {
        match find_entry(names, self.s.as_str()) {
            None => None,
            Some(i) => {
                let to: Target = names[i].1;
                let p: u32 = places_of_price(to.price_digits);
                match (parse_decimal_at(self.b.as_str(), p), parse_decimal_at(self.a.as_str(), p)) {
                    (Some(bid), Some(ask)) => {
                        if !(bid > 0 && ask >= bid) {
                            return None;
                        }
                        let ts: i64 = match self.t {
                            Some(t) => t,
                            None => match self.e {
                                Some(e) => e,
                                None => now,
                            },
                        };
                        Some(MarketEvent::Reference { sym: to.sym, ts, bid, ask, rank })
                    },
                    _ => None,
                }
            },
        }
    }
}

/// A reference quote that is passed on has a positive bid and an ask that is not below it.
pub proof fn law_reference_quote(d: BookTicker, names: Seq<(String, Target)>, rank: u8, now: i64)
    ensures
        d.spec_event(names, rank, now) matches Some(m) ==> (m matches MarketEvent::Reference { sym: _, ts: _, bid, ask, rank: k } && 0 < bid <= ask && k
            == rank),
{
}

// ------------------------------------------------------------------------------
// Connections
// ------------------------------------------------------------------------------

/// Symbols per connection: each takes two topics.
pub fn symbols_per_connection(topics_per_connection: usize) -> (r: usize)
    ensures
        r == if topics_per_connection / 2 >= 1 { topics_per_connection / 2 } else { 1 },
        r >= 1,
        r > 1 ==> 2 * r <= topics_per_connection,
        2 * r + 2 > topics_per_connection,
{
    let n: usize = topics_per_connection / 2;
    if n >= 1 {
        n
    } else {
        1
    }
}

/// Symbols per connection of the reference venue, within 1 to 1000.
pub fn references_per_connection(n: usize) -> (r: usize)
    ensures
        r == if n < 1 { 1 } else if n > 1000 { 1000 } else { n },
{
    if n < 1 {
        1
    } else if n > 1000 {
        1000
    } else {
        n
    }
}

/// How long to wait before a dead connection is tried again, in seconds.
#[derive(Clone, Copy, Debug, PartialEq, Eq, Structural)]
pub struct Backoff {
    pub secs: u64,
    pub cap: u64,
}

impl Backoff {
    pub open spec fn wf(&self) -> bool {
        1 <= self.secs <= self.cap <= 3600
    }

    pub fn new(cap: u64) -> (r: Backoff)
        requires
            1 <= cap <= 3600,
        ensures
            r == (Backoff { secs: 1, cap }),
            r.wf(),
    {
        Backoff { secs: 1, cap }
    }

    /// The wait after a connection that lived long, or did not.
    pub open spec fn wait(&self, long_lived: bool) -> u64 {
        if long_lived {
            1
        } else {
            self.secs
        }
    }

    /// The wait doubles up to the cap.
    pub open spec fn doubled(&self, long_lived: bool) -> Backoff {
        Backoff { secs: crate::units::min_int(self.wait(long_lived) * 2, self.cap as int) as u64, cap: self.cap }
    }

    /// A connection has ended: how long to wait now.
    pub fn ended(&mut self, long_lived: bool) -> (r: u64)
        requires
            old(self).wf(),
        ensures
            r == old(self).wait(long_lived),
            *final(self) == old(self).doubled(long_lived),
            final(self).wf(),
    {
        if long_lived {
            self.secs = 1;
        }
        let wait: u64 = self.secs;
        self.secs = if wait * 2 < self.cap {
            wait * 2
        } else {
            self.cap
        };
        wait
    }
}

/// The wait after `n` connections that did not live long.
pub open spec fn after_failures(b: Backoff, n: nat) -> Backoff
    decreases n,
{
    if n == 0 {
        b
    } else {
        after_failures(b, (n - 1) as nat).doubled(false)
    }
}

/// However many connections fail in a row, the wait stays between one second and the cap and never
/// gets shorter; one that lived long brings it back to one second.
pub proof fn law_backoff(b: Backoff, n: nat)
    requires
        b.wf(),
    ensures
        after_failures(b, n).wf(),
        after_failures(b, n).cap == b.cap,
        after_failures(b, n).secs <= after_failures(b, n + 1).secs,
        after_failures(b, n).wait(true) == 1,
    decreases n,
{
    if n > 0 {
        law_backoff(b, (n - 1) as nat);
    }
}

} // verus!
