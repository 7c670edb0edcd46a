//! Positions and PnL with average-cost accounting per symbol.
//!
//! Profit, fees, equity and exposure carry sixteen fractional digits.

use vstd::prelude::*;
use crate::types::{Fill, Side, SymbolId};
use crate::units::{abs_int, add_sat, clamp128, clamp64, div_round, inc32, inc64, lemma_mul_bound, lemma_wide, min_int, mul64, mul_ratio, next32, next64, quot, sat64, sub_sat, trunc_div, wide_qty, widen, FLAT_QTY, ONE, TWO126, TWO63};

verus! {

#[derive(Clone, Copy, Debug, PartialEq, Eq, Structural)]
pub struct Position {
    /// Signed quantity (positive = long).
    pub qty: i64,
    /// What the present position cost per unit, to the last digit of a price.
    pub avg_price: i64,
    /// What the present position cost in all, with its sign.
    pub cost: i128,
    /// Fractional digits of the instrument's prices.
    pub price_digits: u32,
    pub realized_pnl: i128,
    pub fees: i128,
    pub n_fills: u32,
    /// When the current non-flat position was opened (ms).
    pub opened_ts: i64,
    pub last_fill_ts: i64,
    pub last_mid: i64,
}

impl Default for Position {
    fn default() -> (r: Position)
        ensures
            r == Position::spec_default(),
    {
        Position { qty: 0, avg_price: 0, cost: 0, price_digits: 8, realized_pnl: 0, fees: 0, n_fills: 0, opened_ts: 0, last_fill_ts: 0, last_mid: 0 }
    }
}

fn abs_wide(x: i64) -> (r: i128)
    ensures
        r == abs_int(x as int),
        0 <= r <= TWO63,
{
    if x < 0 {
        -(x as i128)
    } else {
        x as i128
    }
}

/// The value of a quantity at a price.
fn value(price: i64, qty: i128) -> (r: i128)
    requires
        -TWO63 <= qty <= TWO63,
    ensures
        r == price * qty,
        -TWO126 <= r <= TWO126,
{
    proof {
        lemma_mul_bound(price as int, qty as int, TWO63 as int, TWO63 as int);
    }
    (price as i128) * qty
}

pub open spec fn sign_of(x: int) -> int {
    if x > 0 {
        1
    } else {
        -1
    }
}

impl Position {
    pub open spec fn spec_default() -> Position {
        Position { qty: 0, avg_price: 0, cost: 0, price_digits: 8, realized_pnl: 0, fees: 0, n_fills: 0, opened_ts: 0, last_fill_ts: 0, last_mid: 0 }
    }

    pub open spec fn spec_unrealized(&self) -> int {
        if self.flat() || self.last_mid <= 0 {
            0
        } else {
            clamp128(self.last_mid * self.qty - self.cost)
        }
    }

    /// There is no position to speak of.
    pub open spec fn flat(&self) -> bool {
        abs_int(wide_qty(self.qty as int, self.price_digits)) < FLAT_QTY
    }

    pub open spec fn spec_notional(&self) -> int {
        abs_int(self.qty as int) * if self.last_mid > 0 {
            self.last_mid as int
        } else {
            self.avg_price as int
        }
    }

    pub open spec fn spec_age_secs(&self, now: int) -> int {
        if self.flat() {
            0
        } else {
            trunc_div(clamp64(now - self.opened_ts), 1000)
        }
    }

    pub fn is_flat(&self) -> (r: bool)
        ensures
            r == self.flat(),
    {
        tiny(self.qty, self.price_digits)
    }

    pub fn unrealized(&self) -> (r: i128)
        ensures
            r == self.spec_unrealized(),
    {
        if self.is_flat() || self.last_mid <= 0 {
            0
        } else {
            sub_sat(value(self.last_mid, self.qty as i128), self.cost)
        }
    }

    pub fn notional(&self) -> (r: i128)
        ensures
            r == self.spec_notional(),
    {
        let px: i64 = if self.last_mid > 0 {
            self.last_mid
        } else {
            self.avg_price
        };
        let q: i128 = abs_wide(self.qty);
        proof {
            lemma_mul_bound(q as int, px as int, TWO63 as int, TWO63 as int);
        }
        q * (px as i128)
    }

    pub fn age_secs(&self, now: i64) -> (r: i64)
        ensures
            r == self.spec_age_secs(now as int),
    {
        if self.is_flat() {
            0
        } else {
            quot(sat64(now as i128 - self.opened_ts as i128), 1000)
        }
    }

    /// The quantity of a fill, with its sign.
    pub open spec fn signed(f: Fill) -> int {
        f.side.spec_sign() * f.qty
    }

    /// The fill opens a position or adds to it.
    pub open spec fn adds(&self, f: Fill) -> bool {
        self.flat() || (self.qty > 0) == (Position::signed(f) > 0)
    }

    /// The quantity after the fill; a close that leaves next to nothing leaves nothing.
    pub open spec fn qty_after(&self, f: Fill) -> int {
        let n = clamp64(self.qty + Position::signed(f));
        if !self.adds(f) && abs_int(wide_qty(n, f.price_digits)) < FLAT_QTY {
            0
        } else {
            n
        }
    }

    /// How much of the fill closes the present position.
    pub open spec fn closed_by(&self, f: Fill) -> int {
        min_int(f.qty as int, abs_int(self.qty as int))
    }

    /// The fill closes the position and opens one on the other side.
    pub open spec fn flips(&self, f: Fill) -> bool {
        !self.adds(f) && wide_qty(f.qty - self.closed_by(f), f.price_digits) > FLAT_QTY
    }

    /// The share of the position's cost that the fill closes.
    pub open spec fn closed_cost(&self, f: Fill) -> int {
        clamp128(div_round(self.cost * self.closed_by(f), abs_int(self.qty as int)))
    }

    /// Profit that the fill realizes, before fees: what it pays for the closed part, less what that
    /// part cost.
    pub open spec fn realized_by(&self, f: Fill) -> int {
        if self.adds(f) {
            0
        } else {
            clamp128(f.price * (sign_of(self.qty as int) * self.closed_by(f)) - self.closed_cost(f))
        }
    }

    /// The cost of the position after the fill.
    pub open spec fn cost_after(&self, f: Fill) -> int {
        let n = self.qty_after(f);
        if self.adds(f) {
            if self.flat() {
                f.price * n
            } else {
                clamp128(self.cost + f.price * Position::signed(f))
            }
        } else if n == 0 {
            0
        } else if self.flips(f) {
            f.price * n
        } else if self.closed_by(f) == abs_int(self.qty as int) {
            // a trillionth is left on the other side
            self.avg_price * n
        } else {
            clamp128(self.cost - self.closed_cost(f))
        }
    }

    /// Average cost after the fill: adding averages, closing leaves it, a flip starts anew at the fill
    /// price.
    pub open spec fn avg_after(&self, f: Fill) -> int {
        let n = self.qty_after(f);
        if self.adds(f) {
            if self.flat() {
                f.price as int
            } else if n == 0 {
                0
            } else {
                clamp64(clamp128(div_round(self.cost_after(f) * sign_of(n), abs_int(n))))
            }
        } else if n == 0 {
            0
        } else if self.flips(f) {
            f.price as int
        } else {
            self.avg_price as int
        }
    }

    pub open spec fn opened_after(&self, f: Fill) -> i64 {
        if self.adds(f) {
            if self.flat() {
                f.ts
            } else {
                self.opened_ts
            }
        } else if self.qty_after(f) == 0 {
            0
        } else if self.flips(f) {
            f.ts
        } else {
            self.opened_ts
        }
    }

    /// The position after the fill.
    pub open spec fn after(&self, f: Fill) -> Position {
        Position {
            qty: self.qty_after(f) as i64,
            avg_price: self.avg_after(f) as i64,
            cost: self.cost_after(f) as i128,
            price_digits: f.price_digits,
            realized_pnl: clamp128(self.realized_pnl + self.realized_by(f)) as i128,
            fees: clamp128(self.fees + f.fee) as i128,
            n_fills: inc32(self.n_fills),
            opened_ts: self.opened_after(f),
            last_fill_ts: f.ts,
            last_mid: if self.last_mid <= 0 {
                f.price
            } else {
                self.last_mid
            },
        }
    }

    /// Apply a fill; returns the position and what the fill realized.
    fn apply(&self, f: &Fill) -> (r: (Position, i128))
        ensures
            r.0 == self.after(*f),
            r.1 == self.realized_by(*f),
    {
        let signed: i128 = match f.side {
            Side::Buy => f.qty as i128,
            Side::Sell => -(f.qty as i128),
        };
        let moved: i64 = sat64(self.qty as i128 + signed);
        let mut n: i64 = moved;
        let flat: bool = self.is_flat();
        let mut avg: i64 = self.avg_price;
        let mut cost: i128 = self.cost;
        let mut opened: i64 = self.opened_ts;
        let mut realized: i128 = 0;
        assert(signed == Position::signed(*f));
        if flat || (self.qty > 0) == (signed > 0) {
            // opening or adding
            if flat {
                opened = f.ts;
                avg = f.price;
                cost = value(f.price, n as i128);
            } else {
                cost = add_sat(self.cost, value(f.price, signed));
                avg = if n == 0 {
                    0
                } else {
                    average(cost, n)
                };
            }
        } else {
            // reducing (possibly flipping)
            let held: i128 = abs_wide(self.qty);
            proof {
                lemma_wide(0, self.qty as int, self.price_digits);
            }
            let close: i128 = if f.qty as i128 <= held {
                f.qty as i128
            } else {
                held
            };
            let part: i128 = mul_ratio(self.cost, close, held);
            let paid: i128 = if self.qty > 0 {
                value(f.price, close)
            } else {
                value(f.price, -close)
            };
            realized = sub_sat(paid, part);
            if tiny(moved, f.price_digits) {
                n = 0;
                avg = 0;
                cost = 0;
                opened = 0;
            } else {
                if moved == 0 {
                    proof {
                        lemma_wide(0, 0, f.price_digits);
                    }
                }
                if widen(f.qty as i128 - close, f.price_digits) > FLAT_QTY {
                    // flipped: the leftover opens a new position at the fill price
                    avg = f.price;
                    cost = value(f.price, n as i128);
                    opened = f.ts;
                } else if close == held {
                    cost = value(avg, n as i128);
                } else {
                    cost = sub_sat(self.cost, part);
                }
            }
        }
        let p = Position {
            qty: n,
            avg_price: avg,
            cost,
            price_digits: f.price_digits,
            realized_pnl: add_sat(self.realized_pnl, realized),
            fees: add_sat(self.fees, f.fee),
            n_fills: next32(self.n_fills),
            opened_ts: opened,
            last_fill_ts: f.ts,
            last_mid: if self.last_mid <= 0 {
                f.price
            } else {
                self.last_mid
            },
        };
        (p, realized)
    }
}

/// The quantity is next to nothing.
fn tiny(qty: i64, digits: u32) -> (r: bool)
    ensures
        r == (abs_int(wide_qty(qty as int, digits)) < FLAT_QTY),
{
    let w: i128 = widen(qty as i128, digits);
    -FLAT_QTY < w && w < FLAT_QTY
}

/// The cost per unit.
fn average(cost: i128, n: i64) -> (r: i64)
    requires
        n != 0,
    ensures
        r == clamp64(clamp128(div_round(cost * sign_of(n as int), abs_int(n as int)))),
{
    let s: i128 = if n > 0 {
        1
    } else {
        -1
    };
    sat64(mul_ratio(cost, s, abs_wide(n)))
}

/// The place of the position of `sym` among the first `n`.
pub open spec fn place_of(ps: Seq<(SymbolId, Position)>, sym: SymbolId, n: nat) -> Option<int>
    decreases n,
{
    if n == 0 {
        None
    } else if ps[n - 1].0 == sym {
        Some(n - 1)
    } else {
        place_of(ps, sym, (n - 1) as nat)
    }
}

pub open spec fn position_of(ps: Seq<(SymbolId, Position)>, sym: SymbolId) -> Option<Position> {
    match place_of(ps, sym, ps.len()) {
        Some(i) => Some(ps[i].1),
        None => None,
    }
}

/// `ps` with the position of `sym` set to `p`.
pub open spec fn with_position(ps: Seq<(SymbolId, Position)>, sym: SymbolId, p: Position) -> Seq<(SymbolId, Position)> {
    match place_of(ps, sym, ps.len()) {
        Some(i) => ps.update(i, (sym, p)),
        None => ps.push((sym, p)),
    }
}

/// Open profit over the first `n` positions.
pub open spec fn unrealized_of(ps: Seq<(SymbolId, Position)>, n: nat) -> int
    decreases n,
{
    if n == 0 {
        0
    } else {
        clamp128(unrealized_of(ps, (n - 1) as nat) + ps[n - 1].1.spec_unrealized())
    }
}

pub open spec fn notional_of(ps: Seq<(SymbolId, Position)>, n: nat) -> int
    decreases n,
{
    if n == 0 {
        0
    } else {
        clamp128(notional_of(ps, (n - 1) as nat) + ps[n - 1].1.spec_notional())
    }
}

pub open spec fn open_of(ps: Seq<(SymbolId, Position)>, n: nat) -> int
    decreases n,
{
    if n == 0 {
        0
    } else {
        open_of(ps, (n - 1) as nat) + if !ps[n - 1].1.flat() {
            1int
        } else {
            0int
        }
    }
}

#[derive(Debug)]
pub struct Portfolio {
    pub initial_equity: i64,
    /// One entry per symbol, in the order of their first fills.
    pub positions: Vec<(SymbolId, Position)>,
    pub realized_total: i128,
    pub fees_total: i128,
    pub n_fills: u64,
    pub day_start_equity: i128,
    pub day_key: i64,
    pub peak_equity: i128,
    pub max_drawdown: i128,
}

pub open spec fn day_of(now_ms: int) -> int {
    trunc_div(now_ms, 86_400_000)
}

impl Portfolio {
    pub open spec fn spec_unrealized_total(&self) -> int {
        unrealized_of(self.positions@, self.positions@.len())
    }

    pub open spec fn spec_equity(&self) -> int {
        clamp128(
            clamp128(clamp128(self.initial_equity * ONE + self.realized_total) - self.fees_total) + self.spec_unrealized_total(),
        )
    }

    pub open spec fn spec_gross_exposure(&self) -> int {
        notional_of(self.positions@, self.positions@.len())
    }

    pub open spec fn spec_open_positions(&self) -> int {
        open_of(self.positions@, self.positions@.len())
    }

    pub open spec fn spec_daily_pnl(&self) -> int {
        clamp128(self.spec_equity() - self.day_start_equity)
    }

    /// The books after marking at `now_ms`: a new day starts from the present equity.
    pub open spec fn marked(&self, now_ms: int) -> Portfolio {
        let day = day_of(now_ms);
        let eq = self.spec_equity();
        let peak = if eq > self.peak_equity { eq } else { self.peak_equity as int };
        let dd = clamp128(peak - eq);
        Portfolio {
            day_key: day as i64,
            day_start_equity: if day != self.day_key { eq as i128 } else { self.day_start_equity },
            peak_equity: peak as i128,
            max_drawdown: if dd > self.max_drawdown { dd as i128 } else { self.max_drawdown },
            ..*self
        }
    }

    /// A portfolio that has traded nothing yet.
    pub open spec fn is_fresh(&self, initial_equity: i64) -> bool {
        &&& self.initial_equity == initial_equity
        &&& self.positions@ == Seq::<(SymbolId, Position)>::empty()
        &&& self.realized_total == 0
        &&& self.fees_total == 0
        &&& self.n_fills == 0
        &&& self.day_start_equity == initial_equity * ONE
        &&& self.day_key == -1
        &&& self.peak_equity == initial_equity * ONE
        &&& self.max_drawdown == 0
    }

    /// The position in a symbol; without any fill yet, an empty one.
    pub open spec fn held(&self, sym: SymbolId) -> Position {
        match position_of(self.positions@, sym) {
            Some(p) => p,
            None => Position::spec_default(),
        }
    }

    /// `self` is `old` with the last mid of a symbol noted.
    pub open spec fn after_mid(&self, old: &Portfolio, sym: SymbolId, mid: i64) -> bool {
        &&& self.positions@ == match position_of(old.positions@, sym) {
            Some(p) => with_position(old.positions@, sym, Position { last_mid: mid, ..p }),
            None => old.positions@,
        }
        &&& *self == (Portfolio { positions: self.positions, ..*old })
    }

    /// `self` is `old` after a fill.
    pub open spec fn after_fill(&self, old: &Portfolio, f: Fill) -> bool {
        let p = old.held(f.sym);
        &&& self.positions@ == with_position(old.positions@, f.sym, p.after(f))
        &&& *self == (Portfolio {
            positions: self.positions,
            realized_total: clamp128(old.realized_total + p.realized_by(f)) as i128,
            fees_total: clamp128(old.fees_total + f.fee) as i128,
            n_fills: inc64(old.n_fills),
            ..*old
        })
    }

    pub open spec fn spec_qty(&self, sym: SymbolId) -> i64 {
        self.held(sym).qty
    }

    pub fn new(initial_equity: i64) -> (r: Portfolio)
        ensures
            r.is_fresh(initial_equity),
    {
        let e: i128 = mul64(initial_equity, ONE);
        Portfolio {
            initial_equity,
            positions: Vec::new(),
            realized_total: 0,
            fees_total: 0,
            n_fills: 0,
            day_start_equity: e,
            day_key: -1,
            peak_equity: e,
            max_drawdown: 0,
        }
    }

    fn find(&self, sym: SymbolId) -> (r: Option<usize>)
        ensures
            match r {
                Some(i) => i < self.positions@.len() && self.positions@[i as int].0 == sym && place_of(
                    self.positions@,
                    sym,
                    self.positions@.len(),
                ) == Some(i as int),
                None => place_of(self.positions@, sym, self.positions@.len()) is None,
            },
    {
        let mut n: usize = self.positions.len();
        while n > 0
            invariant
                n <= self.positions@.len(),
                place_of(self.positions@, sym, self.positions@.len()) == place_of(self.positions@, sym, n as nat),
            decreases n,
        {
            if self.positions[n - 1].0 == sym {
                return Some(n - 1);
            }
            n = n - 1;
        }
        None
    }

    pub fn position(&self, sym: SymbolId) -> (r: Option<&Position>)
        ensures
            match r {
                Some(p) => position_of(self.positions@, sym) == Some(*p),
                None => position_of(self.positions@, sym) is None,
            },
    {
        match self.find(sym) {
            Some(i) => Some(&self.positions[i].1),
            None => None,
        }
    }

    pub fn qty(&self, sym: SymbolId) -> (r: i64)
        ensures
            r == self.spec_qty(sym),
    {
        match self.find(sym) {
            Some(i) => self.positions[i].1.qty,
            None => 0,
        }
    }

    pub fn on_mid(&mut self, sym: SymbolId, mid: i64)
        ensures
            final(self).after_mid(old(self), sym, mid),
    {
        match self.find(sym) {
            Some(i) => {
                let p: Position = self.positions[i].1;
                self.positions[i] = (sym, Position { last_mid: mid, ..p });
            },
            None => {},
        }
    }

    /// Apply a fill. Returns the realized PnL of this fill (before fees).
    pub fn on_fill(&mut self, f: &Fill) -> (r: i128)
        ensures
            r == old(self).held(f.sym).realized_by(*f),
            final(self).after_fill(old(self), *f),
    {
        let realized: i128 = match self.find(f.sym) {
            Some(i) => {
                let (p, g): (Position, i128) = self.positions[i].1.apply(f);
                self.positions[i] = (f.sym, p);
                g
            },
            None => {
                let (p, g): (Position, i128) = Position::default().apply(f);
                self.positions.push((f.sym, p));
                g
            },
        };
        self.realized_total = add_sat(self.realized_total, realized);
        self.fees_total = add_sat(self.fees_total, f.fee);
        self.n_fills = next64(self.n_fills);
        realized
    }

    pub fn unrealized_total(&self) -> (r: i128)
        ensures
            r == self.spec_unrealized_total(),
    {
        let mut s: i128 = 0;
        let mut i: usize = 0;
        while i < self.positions.len()
            invariant
                i <= self.positions@.len(),
                s == unrealized_of(self.positions@, i as nat),
            decreases self.positions@.len() - i,
        {
            s = add_sat(s, self.positions[i].1.unrealized());
            i = i + 1;
        }
        s
    }

    pub fn equity(&self) -> (r: i128)
        ensures
            r == self.spec_equity(),
    {
        add_sat(
            sub_sat(add_sat(mul64(self.initial_equity, ONE), self.realized_total), self.fees_total),
            self.unrealized_total(),
        )
    }

    pub fn gross_exposure(&self) -> (r: i128)
        ensures
            r == self.spec_gross_exposure(),
    {
        let mut s: i128 = 0;
        let mut i: usize = 0;
        while i < self.positions.len()
            invariant
                i <= self.positions@.len(),
                s == notional_of(self.positions@, i as nat),
            decreases self.positions@.len() - i,
        {
            s = add_sat(s, self.positions[i].1.notional());
            i = i + 1;
        }
        s
    }

    pub fn open_positions(&self) -> (r: usize)
        ensures
            r == self.spec_open_positions(),
    {
        let mut c: usize = 0;
        let mut i: usize = 0;
        while i < self.positions.len()
            invariant
                i <= self.positions@.len(),
                c == open_of(self.positions@, i as nat),
                c <= i,
            decreases self.positions@.len() - i,
        {
            if !self.positions[i].1.is_flat() {
                c = c + 1;
            }
            i = i + 1;
        }
        c
    }

    /// Update day boundary and drawdown bookkeeping. Returns daily PnL.
    pub fn mark(&mut self, now_ms: i64) -> (r: i128)
        ensures
            *final(self) == old(self).marked(now_ms as int),
            r == final(self).spec_daily_pnl(),
    {
        let day: i64 = quot(now_ms, 86_400_000);
        let eq: i128 = self.equity();
        if day != self.day_key {
            self.day_key = day;
            self.day_start_equity = eq;
        }
        if eq > self.peak_equity {
            self.peak_equity = eq;
        }
        let dd: i128 = sub_sat(self.peak_equity, eq);
        if dd > self.max_drawdown {
            self.max_drawdown = dd;
        }
        sub_sat(eq, self.day_start_equity)
    }

    pub fn daily_pnl(&self) -> (r: i128)
        ensures
            r == self.spec_daily_pnl(),
    {
        sub_sat(self.equity(), self.day_start_equity)
    }
}

} // verus!
