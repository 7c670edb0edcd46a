//! Quote generation. A pure function of the market state, position and parameters,
//! so it is trivially reusable by the live engine and the replay optimizer.
//!
//! The quotes are placed around a *fair value*, not around the mid: the top-of-book size
//! imbalance, the recent taker flow and the deviation of a leading venue's price all shift
//! the fair price, and a side whose quote would have to sit too deep behind the best level
//! to keep the required edge is simply not quoted. This is what turns "sit at the best
//! price and get run over" into "quote where the informed flow is not coming from".
//!
//! Twice the mid, the sum of bid and ask, is used wherever the mid itself would not be exact.
//! Prices on the way to a quote carry sixteen fractional digits.

use vstd::prelude::*;
use vstd::arithmetic::div_mod::{lemma_fundamental_div_mod, lemma_fundamental_div_mod_converse};
use crate::config::StrategyParams;
use crate::stats::SymbolStats;
use crate::types::{str_eq, Bbo, Purpose, Side, SymbolMeta};
use crate::units::{abs_int, clamp128, clamp64, div_round, floor_div, lemma_div_bound, lemma_mul_bound, max128, max64, max_int, min64, min_int, mul64, mul_div, round_div, sat64, sub_sat, add_sat, BPS_ONE, ONE, ONE128, TWO126, TWO63};

verus! {

#[derive(Clone, Copy, Debug, PartialEq, Eq, Structural)]
pub struct Quote {
    pub side: Side,
    pub price: i64,
    pub qty: i64,
    pub purpose: Purpose,
    /// true = cross the spread with a taker order (stale exits and stop-losses)
    pub taker: bool,
}

#[derive(Clone, Copy, Debug)]
pub struct Quotes {
    pub bid: Option<Quote>,
    pub ask: Option<Quote>,
    /// Human-readable reason when one or both sides are withheld.
    pub reason: &'static str,
    /// Fair value shift that was applied, in bps of mid (positive = price expected to rise).
    pub fair_shift_bps: i64,
}

pub struct QuoteInput<'a> {
    pub meta: &'a SymbolMeta,
    pub bbo: &'a Bbo,
    pub stats: &'a SymbolStats,
    pub params: &'a StrategyParams,
    pub maker_fee: i64,
    pub position_qty: i64,
    pub position_avg: i64,
    pub position_age_secs: i64,
    pub now_ms: i64,
    /// Risk layer verdicts.
    pub allow_new_exposure: bool,
    /// Symbol dropped out of the active set: only reduce.
    pub reduce_only: bool,
    /// (reference mid + basis - our mid) / our mid in bps; 0 when no fresh reference.
    pub ref_dev_bps: i64,
}

/// Where one side would be quoted before the inventory skew.
#[derive(Clone, Copy, Debug, PartialEq, Eq, Structural)]
pub struct SidePlan {
    pub px: i128,
    /// The quote would sit deeper behind the touch than allowed.
    pub lean: bool,
    /// There is no price strictly inside the spread.
    pub no_room: bool,
}

/// Whole ticks in a price with sixteen digits, rounded down (a billionth of a tick counts as one).
pub open spec fn floor_ticks(px16: int, tick: int) -> int {
    (10 * px16 + tick) / (10 * (tick * ONE))
}

/// Whole ticks in a price with sixteen digits, rounded up (with the same tolerance).
pub open spec fn ceil_ticks(px16: int, tick: int) -> int {
    -floor_ticks(-px16, tick)
}

pub open spec fn floor_tick(meta: SymbolMeta, px16: int) -> int {
    meta.spec_ticks_to_price(clamp64(floor_ticks(px16, meta.tick_size as int)))
}

pub open spec fn ceil_tick(meta: SymbolMeta, px16: int) -> int {
    meta.spec_ticks_to_price(clamp64(ceil_ticks(px16, meta.tick_size as int)))
}

/// The price on the instrument's grid that is nearest to `px`.
pub open spec fn snap(meta: SymbolMeta, px: int) -> int {
    meta.spec_ticks_to_price(clamp64(div_round(px, meta.tick_size as int)))
}

impl<'a> QuoteInput<'a> {
    pub open spec fn wf(&self) -> bool {
        self.meta.tick_size > 0 && self.stats.wf()
    }

    /// Twice the mid.
    pub open spec fn mid2(&self) -> int {
        self.bbo.bid + self.bbo.ask
    }

    pub open spec fn tick(&self) -> int {
        self.meta.tick_size as int
    }

    /// The position is worth at least the instrument's minimum and one unit of the quote currency.
    pub open spec fn has_position(&self) -> bool {
        abs_int(self.position_qty as int) * self.mid2() >= 2 * (max_int(self.meta.min_notional as int, ONE as int) * ONE)
    }

    /// What of the position can be closed in whole lots.
    pub open spec fn exit_qty(&self) -> int {
        self.meta.spec_round_qty_down(clamp64(abs_int(self.position_qty as int)))
    }

    pub open spec fn exit_side(&self) -> Side {
        if self.position_qty > 0 {
            Side::Sell
        } else {
            Side::Buy
        }
    }

    /// The mid moved against the position by at least the limit.
    pub open spec fn is_stopped(&self) -> bool {
        let moved = self.mid2() - 2 * self.position_avg;
        let adverse = if self.position_qty > 0 { -moved } else { moved };
        self.has_position() && self.params.stop_loss_bps > 0 && self.position_avg > 0 && adverse * BPS_ONE
            >= 2 * (self.params.stop_loss_bps * self.position_avg)
    }

    pub open spec fn is_stale(&self) -> bool {
        self.has_position() && self.position_age_secs >= self.params.max_hold_secs
    }

    /// Price of an exit that must leave now.
    pub open spec fn forced_price(&self, taker: bool) -> int {
        let b = *self.bbo;
        match self.exit_side() {
            Side::Sell => if taker {
                b.bid as int
            } else {
                snap(*self.meta, if b.ask - self.tick() > b.bid { b.ask - self.tick() } else { b.ask as int })
            },
            Side::Buy => if taker {
                b.ask as int
            } else {
                snap(*self.meta, if b.bid + self.tick() < b.ask { b.bid + self.tick() } else { b.bid as int })
            },
        }
    }

    pub open spec fn spec_forced_exit(&self, mode: Seq<char>, purpose: Purpose) -> Option<Quote> {
        if self.exit_qty() <= 0 {
            None
        } else {
            Some(
                Quote {
                    side: self.exit_side(),
                    price: self.forced_price(mode == "taker"@) as i64,
                    qty: self.exit_qty() as i64,
                    purpose,
                    taker: mode == "taker"@,
                },
            )
        }
    }

    pub open spec fn is_volatile(&self) -> bool {
        self.stats.vol_bps > self.params.max_vol_bps && self.params.max_vol_bps > 0
    }

    /// Minimum total spread: fees on both legs plus the edge target.
    pub open spec fn required_bps(&self) -> int {
        max_int(self.params.min_spread_bps as int, clamp64(20_000 * self.maker_fee + self.params.min_edge_bps))
    }

    /// A spread of `width` is at least the required one.
    pub open spec fn wide_enough(&self, width: int) -> bool {
        2 * (width * BPS_ONE) >= self.required_bps() * self.mid2()
    }

    pub open spec fn is_inside(&self) -> bool {
        self.params.quote_mode@ == "inside"@
    }

    pub open spec fn improves(&self) -> bool {
        self.params.quote_mode@ == "improve"@ && self.wide_enough(self.bbo.ask - self.bbo.bid - 2 * self.tick())
    }

    /// Join the best level, or improve by one tick when the spread allows.
    pub open spec fn base_bid(&self) -> int {
        if self.improves() {
            self.bbo.bid + self.tick()
        } else {
            self.bbo.bid as int
        }
    }

    pub open spec fn base_ask(&self) -> int {
        if self.improves() {
            self.bbo.ask - self.tick()
        } else {
            self.bbo.ask as int
        }
    }

    pub open spec fn is_narrow(&self) -> bool {
        !self.wide_enough(self.base_ask() - self.base_bid())
    }

    pub open spec fn flow(&self) -> int {
        self.stats.spec_flow_imbalance(self.now_ms as int, self.params.toxicity_window_secs as nat)
    }

    /// Share of the half spread by which book and flow shift the fair price.
    pub open spec fn lean_share(&self) -> int {
        clamp64(
            div_round(self.params.imbalance_weight * self.bbo.spec_imbalance(), ONE as int) + div_round(
                self.params.flow_weight * self.flow(),
                ONE as int,
            ),
        )
    }

    /// Deviation of the reference that counts, in bps.
    pub open spec fn ref_shift_bps(&self) -> int {
        clamp64(div_round(self.params.ref_weight * self.ref_dev_bps, ONE as int))
    }

    /// Fair value less the mid, sixteen digits.
    #[verifier::opaque]
    pub open spec fn shift(&self) -> int {
        (self.lean_share() * (self.bbo.ask - self.bbo.bid)) / 2 + (self.ref_shift_bps() * self.mid2()) / 20_000
    }

    /// Where the price is likely to be in a moment, sixteen digits.
    pub open spec fn fair(&self) -> int {
        self.mid2() * 50_000_000 + self.shift()
    }

    /// Half of the required spread, sixteen digits.
    pub open spec fn req_half(&self) -> int {
        (self.required_bps() * self.mid2()) / 40_000
    }

    /// What an inside quote keeps from fair value.
    pub open spec fn inside_half(&self) -> int {
        max_int(self.req_half(), (self.params.inside_spread_frac * (self.bbo.ask - self.bbo.bid)) / 2)
    }

    #[verifier::opaque]
    pub open spec fn bid_plan(&self) -> SidePlan {
        if self.is_inside() {
            let b = min_int(floor_tick(*self.meta, self.fair() - self.inside_half()), snap(*self.meta, self.bbo.ask - self.tick()));
            if 2 * b > 2 * self.bbo.bid + self.tick() {
                SidePlan { px: b as i128, lean: false, no_room: false }
            } else {
                SidePlan { px: self.base_bid() as i128, lean: false, no_room: true }
            }
        } else if self.base_bid() * ONE > self.fair() - self.req_half() {
            let b = floor_tick(*self.meta, self.fair() - self.req_half());
            SidePlan {
                px: b as i128,
                lean: clamp64(div_round(self.bbo.bid - b, self.tick())) > self.params.max_lean_ticks,
                no_room: false,
            }
        } else {
            SidePlan { px: self.base_bid() as i128, lean: false, no_room: false }
        }
    }

    #[verifier::opaque]
    pub open spec fn ask_plan(&self) -> SidePlan {
        if self.is_inside() {
            let a = max_int(ceil_tick(*self.meta, self.fair() + self.inside_half()), snap(*self.meta, self.bbo.bid + self.tick()));
            if 2 * a < 2 * self.bbo.ask - self.tick() {
                SidePlan { px: a as i128, lean: false, no_room: false }
            } else {
                SidePlan { px: self.base_ask() as i128, lean: false, no_room: true }
            }
        } else if self.base_ask() * ONE < self.fair() + self.req_half() {
            let a = ceil_tick(*self.meta, self.fair() + self.req_half());
            SidePlan {
                px: a as i128,
                lean: clamp64(div_round(a - self.bbo.ask, self.tick())) > self.params.max_lean_ticks,
                no_room: false,
            }
        } else {
            SidePlan { px: self.base_ask() as i128, lean: false, no_room: false }
        }
    }

    /// Position as a share of the cap, in [-1, 1].
    pub open spec fn inv_ratio(&self) -> int {
        if self.params.max_position_notional_usd > 0 {
            let r = div_round(self.position_qty * self.mid2(), 2 * self.params.max_position_notional_usd);
            max_int(-ONE, min_int(r, ONE as int))
        } else {
            0
        }
    }

    /// Ticks by which both quotes move against the position. With a coarse tick the skew can round
    /// to nothing; from half the cap on it is one tick at least, so that inventory unwinds.
    pub open spec fn skew_ticks(&self) -> int {
        let skew_bps = clamp64(div_round(self.params.inventory_skew_bps * self.inv_ratio(), ONE as int));
        let t = clamp64(div_round(skew_bps * self.mid2(), 2 * (self.tick() * BPS_ONE)));
        if skew_bps == 0 {
            0
        } else if t == 0 && abs_int(self.inv_ratio()) >= 50_000_000 {
            if self.inv_ratio() > 0 {
                1
            } else {
                -1
            }
        } else {
            t
        }
    }

    /// The bid after the skew, kept passive and put on the grid.
    #[verifier::opaque]
    pub open spec fn bid_price(&self) -> int {
        let px = self.bid_plan().px - self.skew_ticks() * self.tick();
        snap(
            *self.meta,
            if px >= self.bbo.ask {
                if self.is_inside() {
                    self.bbo.ask - self.tick()
                } else {
                    self.bbo.bid as int
                }
            } else {
                px
            },
        )
    }

    #[verifier::opaque]
    pub open spec fn ask_price(&self) -> int {
        let px = self.ask_plan().px - self.skew_ticks() * self.tick();
        snap(
            *self.meta,
            if px <= self.bbo.bid {
                if self.is_inside() {
                    self.bbo.bid + self.tick()
                } else {
                    self.bbo.ask as int
                }
            } else {
                px
            },
        )
    }

    /// In inside mode a bid that is not strictly inside the spread is given up.
    pub open spec fn no_room_bid(&self) -> bool {
        self.bid_plan().no_room || (self.is_inside() && 2 * self.bid_price() <= 2 * self.bbo.bid + self.tick())
    }

    pub open spec fn no_room_ask(&self) -> bool {
        self.ask_plan().no_room || (self.is_inside() && 2 * self.ask_price() >= 2 * self.bbo.ask - self.tick())
    }

    pub open spec fn tox_bid(&self) -> bool {
        self.params.toxicity_imbalance > 0 && self.flow() < -self.params.toxicity_imbalance
    }

    pub open spec fn tox_ask(&self) -> bool {
        self.params.toxicity_imbalance > 0 && self.flow() > self.params.toxicity_imbalance
    }

    pub open spec fn ref_bid(&self) -> bool {
        self.params.ref_block_bps > 0 && self.ref_dev_bps < -self.params.ref_block_bps
    }

    pub open spec fn ref_ask(&self) -> bool {
        self.params.ref_block_bps > 0 && self.ref_dev_bps > self.params.ref_block_bps
    }

    pub open spec fn block_bid(&self) -> bool {
        self.tox_bid() || self.ref_bid() || self.bid_plan().lean || self.no_room_bid()
    }

    pub open spec fn block_ask(&self) -> bool {
        self.tox_ask() || self.ref_ask() || self.ask_plan().lean || self.no_room_ask()
    }

    /// The order size in whole lots.
    pub open spec fn base_qty(&self) -> int {
        self.meta.spec_round_qty_down(clamp64((2 * (self.params.order_notional_usd * ONE)) / self.mid2()))
    }

    /// The quantity is worth at least the instrument's minimum.
    pub open spec fn worth_min(&self, qty: int) -> bool {
        qty * self.mid2() >= 2 * (self.meta.min_notional * ONE)
    }

    /// Twice the notional that may still be added on `side`, sixteen digits.
    pub open spec fn room2(&self, side: Side) -> int {
        let cap2 = 2 * (self.params.max_position_notional_usd * ONE);
        match side {
            Side::Buy => clamp128(cap2 - self.position_qty * self.mid2()),
            Side::Sell => clamp128(cap2 + self.position_qty * self.mid2()),
        }
    }

    pub open spec fn side_purpose(&self, side: Side) -> Purpose {
        match side {
            Side::Buy => if self.position_qty < 0 {
                Purpose::Exit
            } else {
                Purpose::Entry
            },
            Side::Sell => if self.position_qty > 0 {
                Purpose::Exit
            } else {
                Purpose::Entry
            },
        }
    }

    /// An exit does not flip the position through zero; an entry stays within the cap.
    pub open spec fn side_qty(&self, side: Side) -> int {
        if self.side_purpose(side) == Purpose::Exit {
            max_int(min_int(self.base_qty(), self.exit_qty()), 0)
        } else {
            min_int(self.base_qty(), self.meta.spec_round_qty_down(clamp64(self.room2(side) / self.mid2())))
        }
    }

    pub open spec fn side_quote(&self, side: Side, price: int, blocked: bool) -> Option<Quote> {
        let purpose = self.side_purpose(side);
        let allowed = !blocked && self.room2(side) >= self.params.order_notional_usd * ONE && (purpose == Purpose::Exit || (
        self.allow_new_exposure && !self.reduce_only));
        if allowed && self.side_qty(side) > 0 && self.worth_min(self.side_qty(side)) {
            Some(Quote { side, price: price as i64, qty: self.side_qty(side) as i64, purpose, taker: false })
        } else {
            None
        }
    }

    pub open spec fn reason_none(&self) -> &'static str {
        if self.ref_bid() || self.ref_ask() {
            "ref_block"
        } else if self.tox_bid() || self.tox_ask() {
            "toxic_flow"
        } else if self.bid_plan().lean || self.ask_plan().lean {
            "lean_out"
        } else if self.no_room_bid() || self.no_room_ask() {
            "no_room_inside"
        } else if self.reduce_only {
            "reduce_only"
        } else if !self.allow_new_exposure {
            "risk_limit"
        } else {
            "position_cap"
        }
    }

    pub open spec fn reason_some(&self) -> &'static str {
        if self.ref_bid() || self.ref_ask() {
            "ref_one_side"
        } else if self.tox_bid() || self.tox_ask() {
            "toxic_one_side"
        } else if self.bid_plan().lean || self.ask_plan().lean {
            "lean_one_side"
        } else if self.no_room_bid() || self.no_room_ask() {
            "inside_one_side"
        } else {
            "ok"
        }
    }

    pub open spec fn shift_bps(&self) -> int {
        clamp64((self.shift() * 20_000) / self.mid2())
    }

    /// Quotes around fair value.
    pub open spec fn fair_quotes(&self) -> Quotes {
        if self.base_qty() <= 0 || !self.worth_min(self.base_qty()) {
            Quotes { bid: None, ask: None, reason: "size_below_min", fair_shift_bps: self.shift_bps() as i64 }
        } else {
            let bid = self.side_quote(Side::Buy, self.bid_price(), self.block_bid());
            let ask = self.side_quote(Side::Sell, self.ask_price(), self.block_ask());
            Quotes {
                bid,
                ask,
                reason: if bid is None && ask is None {
                    self.reason_none()
                } else {
                    self.reason_some()
                },
                fair_shift_bps: self.shift_bps() as i64,
            }
        }
    }

    /// A single exit, or nothing.
    pub open spec fn exit_quotes(&self, q: Option<Quote>, reason: &'static str) -> Quotes {
        match self.exit_side() {
            Side::Sell => Quotes { bid: None, ask: q, reason, fair_shift_bps: 0 },
            Side::Buy => Quotes { bid: q, ask: None, reason, fair_shift_bps: 0 },
        }
    }

    /// The position leaves passively at the best price.
    pub open spec fn passive_exit(&self) -> Option<Quote> {
        if self.has_position() && self.exit_qty() > 0 {
            Some(
                Quote {
                    side: self.exit_side(),
                    price: match self.exit_side() {
                        Side::Sell => self.bbo.ask,
                        Side::Buy => self.bbo.bid,
                    },
                    qty: self.exit_qty() as i64,
                    purpose: Purpose::Exit,
                    taker: false,
                },
            )
        } else {
            None
        }
    }

    /// The quotes that are wanted in this state.
    #[verifier::opaque]
    pub open spec fn quotes(&self) -> Quotes {
        if !self.bbo.valid() {
            Quotes { bid: None, ask: None, reason: "invalid_bbo", fair_shift_bps: 0 }
        } else if self.is_stopped() {
            self.exit_quotes(self.spec_forced_exit(self.params.stop_loss_mode@, Purpose::StopLoss), "stop_loss")
        } else if self.is_stale() {
            self.exit_quotes(self.spec_forced_exit(self.params.stale_exit_mode@, Purpose::StaleExit), "stale_exit")
        } else if self.is_volatile() {
            self.exit_quotes(self.passive_exit(), "vol_guard")
        } else if self.is_narrow() {
            self.exit_quotes(self.passive_exit(), "spread_too_narrow")
        } else {
            self.fair_quotes()
        }
    }
}

/// `q` times twice the mid.
fn times_mid(q: i64, m2: i128) -> (r: i128)
    requires
        0 <= m2 <= 2 * TWO63 - 2,
    ensures
        r == q * m2,
        -2 * (TWO126 - TWO63) <= r <= 2 * (TWO126 - TWO63),
{
    proof {
        lemma_mul_bound(q as int, m2 as int, TWO63 as int, 2 * TWO63 - 2);
    }
    (q as i128) * m2
}

fn ticks_below(px16: i128, tick: i64) -> (r: i128)
    requires
        tick > 0,
        -TWO126 - TWO126 / 2 <= px16 <= TWO126 + TWO126 / 2,
    ensures
        r == floor_ticks(px16 as int, tick as int),
        -i128::MAX <= r <= i128::MAX,
{
    let d: i128 = (tick as i128) * ONE128;
    let q: i128 = floor_div(px16, d);
    proof {
        lemma_fundamental_div_mod(px16 as int, d as int);
        vstd::arithmetic::div_mod::lemma_mod_bound(px16 as int, d as int);
        let m = (px16 as int) % (d as int);
        lemma_div_bound(px16 as int, d as int, TWO126 + TWO126 / 2);
        assert(px16 == q * d + m) by (nonlinear_arith)
            requires
                px16 == d * q + m,
        ;
        if m * 10 + tick >= 10 * d {
            assert(10 * px16 + tick == (q + 1) * (10 * d) + (10 * m + tick - 10 * d)) by (nonlinear_arith)
                requires
                    px16 == q * d + m,
            ;
            lemma_fundamental_div_mod_converse(10 * px16 + tick, 10 * d, q + 1, 10 * m + tick - 10 * d);
        } else {
            assert(10 * px16 + tick == q * (10 * d) + (10 * m + tick)) by (nonlinear_arith)
                requires
                    px16 == q * d + m,
            ;
            lemma_fundamental_div_mod_converse(10 * px16 + tick, 10 * d, q as int, 10 * m + tick);
        }
    }
    let m: i128 = px16 - q * d;
    if m * 10 + (tick as i128) >= 10 * d {
        q + 1
    } else {
        q
    }
}

fn at_or_below(meta: &SymbolMeta, px16: i128) -> (r: i64)
    requires
        meta.tick_size > 0,
        -TWO126 - TWO126 / 2 <= px16 <= TWO126 + TWO126 / 2,
    ensures
        r == floor_tick(*meta, px16 as int),
{
    meta.ticks_to_price(sat64(ticks_below(px16, meta.tick_size)))
}

fn at_or_above(meta: &SymbolMeta, px16: i128) -> (r: i64)
    requires
        meta.tick_size > 0,
        -TWO126 - TWO126 / 2 <= px16 <= TWO126 + TWO126 / 2,
    ensures
        r == ceil_tick(*meta, px16 as int),
{
    meta.ticks_to_price(sat64(-ticks_below(-px16, meta.tick_size)))
}

fn on_grid(meta: &SymbolMeta, px: i128) -> (r: i64)
    requires
        meta.tick_size > 0,
        px > i128::MIN,
    ensures
        r == snap(*meta, px as int),
{
    meta.ticks_to_price(sat64(round_div(px, meta.tick_size as i128)))
}

impl<'a> QuoteInput<'a> {
    fn mid_sum(&self) -> (r: i128)
        requires
            self.bbo.valid(),
        ensures
            r == self.mid2(),
            3 <= r <= 2 * TWO63 - 2,
    {
        self.bbo.bid as i128 + self.bbo.ask as i128
    }

    fn abs_position(&self) -> (r: i64)
        ensures
            r == clamp64(abs_int(self.position_qty as int)),
            r >= 0,
    {
        let q: i128 = self.position_qty as i128;
        sat64(
            if q < 0 {
                -q
            } else {
                q
            },
        )
    }

    fn holds_position(&self) -> (r: bool)
        requires
            self.bbo.valid(),
        ensures
            r == self.has_position(),
    {
        let m2: i128 = self.mid_sum();
        let least: i64 = max64(self.meta.min_notional, ONE);
        let v: i128 = times_mid(self.position_qty, m2);
        proof {
            let q = self.position_qty as int;
            assert(abs_int(q) * m2 == abs_int(q * m2)) by (nonlinear_arith)
                requires
                    m2 >= 0,
            ;
        }
        let a: i128 = if v < 0 {
            -v
        } else {
            v
        };
        a >= 2 * mul64(least, ONE)
    }

    fn stop_hit(&self) -> (r: bool)
        requires
            self.bbo.valid(),
        ensures
            r == self.is_stopped(),
    {
        if self.holds_position() && self.params.stop_loss_bps > 0 && self.position_avg > 0 {
            let moved: i128 = self.mid_sum() - 2 * (self.position_avg as i128);
            let adverse: i128 = if self.position_qty > 0 {
                -moved
            } else {
                moved
            };
            proof {
                let s = self.params.stop_loss_bps as int;
                let a = self.position_avg as int;
                assert(s * a <= (TWO63 - 1) * (TWO63 - 1)) by (nonlinear_arith)
                    requires
                        0 < s <= TWO63 - 1,
                        0 < a <= TWO63 - 1,
                ;
            }
            adverse * BPS_ONE >= 2 * mul64(self.params.stop_loss_bps, self.position_avg)
        } else {
            false
        }
    }

    /// Build the exit quote for a position that must leave now (stale or stop-loss).
    fn forced_exit(&self, mode: &str, purpose: Purpose) -> (r: Option<Quote>)
        requires
            self.bbo.valid(),
            self.meta.tick_size > 0,
        ensures
            r == self.spec_forced_exit(mode@, purpose),
    {
        let side: Side = if self.position_qty > 0 {
            Side::Sell
        } else {
            Side::Buy
        };
        let qty: i64 = self.meta.round_qty_down(self.abs_position());
        if qty <= 0 {
            return None;
        }
        let taker: bool = str_eq(mode, "taker");
        let bid: i128 = self.bbo.bid as i128;
        let ask: i128 = self.bbo.ask as i128;
        let tick: i128 = self.meta.tick_size as i128;
        // without crossing: one tick inside the spread when there is room, else join
        let price: i64 = match side {
            Side::Sell => if taker {
                self.bbo.bid
            } else {
                on_grid(
                    self.meta,
                    if ask - tick > bid {
                        ask - tick
                    } else {
                        ask
                    },
                )
            },
            Side::Buy => if taker {
                self.bbo.ask
            } else {
                on_grid(
                    self.meta,
                    if bid + tick < ask {
                        bid + tick
                    } else {
                        bid
                    },
                )
            },
        };
        Some(Quote { side, price, qty, purpose, taker })
    }

    /// When new exposure is not allowed, still let an open position leave passively at the best price.
    fn add_exit_only(&self) -> (r: Option<Quote>)
        requires
            self.bbo.valid(),
        ensures
            r == self.passive_exit(),
    {
        if !self.holds_position() {
            return None;
        }
        let qty: i64 = self.meta.round_qty_down(self.abs_position());
        if qty <= 0 {
            return None;
        }
        if self.position_qty > 0 {
            Some(Quote { side: Side::Sell, price: self.bbo.ask, qty, purpose: Purpose::Exit, taker: false })
        } else {
            Some(Quote { side: Side::Buy, price: self.bbo.bid, qty, purpose: Purpose::Exit, taker: false })
        }
    }

    fn as_exit(&self, q: Option<Quote>, reason: &'static str) -> (r: Quotes)
        ensures
            r == self.exit_quotes(q, reason),
    {
        if self.position_qty > 0 {
            Quotes { bid: None, ask: q, reason, fair_shift_bps: 0 }
        } else {
            Quotes { bid: q, ask: None, reason, fair_shift_bps: 0 }
        }
    }

    fn required(&self) -> (r: i64)
        ensures
            r == self.required_bps(),
    {
        max64(self.params.min_spread_bps, sat64(20_000 * (self.maker_fee as i128) + self.params.min_edge_bps as i128))
    }

    fn is_wide(&self, width: i128) -> (r: bool)
        requires
            self.bbo.valid(),
            -4 * TWO63 <= width <= 4 * TWO63,
        ensures
            r == self.wide_enough(width as int),
    {
        2 * (width * BPS_ONE) >= times_mid(self.required(), self.mid_sum())
    }

    fn steps_inside(&self) -> (r: bool)
        requires
            self.bbo.valid(),
        ensures
            r == self.improves(),
    {
        str_eq(self.params.quote_mode.as_str(), "improve") && self.is_wide(
            self.bbo.ask as i128 - self.bbo.bid as i128 - 2 * (self.meta.tick_size as i128),
        )
    }

    fn fair_shift(&self, flow: i64) -> (r: i128)
        requires
            self.bbo.valid(),
            flow == self.flow(),
        ensures
            r == self.shift(),
            -TWO126 / 2 - TWO126 / 4 <= r <= TWO126 / 2 + TWO126 / 4,
    {
        proof {
            reveal(QuoteInput::shift);
        }
        let book: i128 = round_div(mul64(self.params.imbalance_weight, self.bbo.imbalance()), ONE128);
        let taken: i128 = round_div(mul64(self.params.flow_weight, flow), ONE128);
        let led: i128 = round_div(mul64(self.params.ref_weight, self.ref_dev_bps), ONE128);
        proof {
            lemma_div_bound(self.params.imbalance_weight * self.bbo.spec_imbalance(), ONE as int, TWO126 as int);
            lemma_div_bound(self.params.flow_weight * flow, ONE as int, TWO126 as int);
        }
        let share: i64 = sat64(book + taken);
        let width: i64 = self.bbo.ask - self.bbo.bid;
        let a: i128 = mul64(share, width);
        let b: i128 = times_mid(sat64(led), self.mid_sum());
        floor_div(a, 2) + floor_div(b, 20_000)
    }

    fn half_required(&self) -> (r: i128)
        requires
            self.bbo.valid(),
        ensures
            r == self.req_half(),
            -TWO126 / 10_000 <= r <= TWO126 / 10_000,
    {
        floor_div(times_mid(self.required(), self.mid_sum()), 40_000)
    }

    fn plan_bid(&self, fair: i128, base: i128) -> (r: SidePlan)
        requires
            self.wf(),
            self.bbo.valid(),
            fair == self.fair(),
            base == self.base_bid(),
            -TWO126 <= fair <= TWO126,
        ensures
            r == self.bid_plan(),
            -4 * TWO63 <= r.px <= 4 * TWO63,
    {
        proof {
            reveal(QuoteInput::bid_plan);
        }
        let tick: i128 = self.meta.tick_size as i128;
        let req: i128 = self.half_required();
        if str_eq(self.params.quote_mode.as_str(), "inside") {
            // Best price that keeps the required edge from fair value and a share of the touch
            // spread, strictly inside the spread so we are first in line. If that price would
            // be at or behind the touch, we do not queue behind others: the side is skipped.
            let half: i128 = max128(req, floor_div(mul64(self.params.inside_spread_frac, self.bbo.ask - self.bbo.bid), 2));
            let b: i64 = min64(
                at_or_below(self.meta, fair - half),
                on_grid(self.meta, self.bbo.ask as i128 - tick),
            );
            if 2 * (b as i128) > 2 * (self.bbo.bid as i128) + tick {
                SidePlan { px: b as i128, lean: false, no_room: false }
            } else {
                SidePlan { px: base, lean: false, no_room: true }
            }
        } else if base * ONE128 > fair - req {
            let b: i64 = at_or_below(self.meta, fair - req);
            let behind: i64 = sat64(round_div(self.bbo.bid as i128 - b as i128, tick));
            SidePlan { px: b as i128, lean: behind > self.params.max_lean_ticks, no_room: false }
        } else {
            SidePlan { px: base, lean: false, no_room: false }
        }
    }

    fn plan_ask(&self, fair: i128, base: i128) -> (r: SidePlan)
        requires
            self.wf(),
            self.bbo.valid(),
            fair == self.fair(),
            base == self.base_ask(),
            -TWO126 <= fair <= TWO126,
        ensures
            r == self.ask_plan(),
            -4 * TWO63 <= r.px <= 4 * TWO63,
    {
        proof {
            reveal(QuoteInput::ask_plan);
        }
        let tick: i128 = self.meta.tick_size as i128;
        let req: i128 = self.half_required();
        if str_eq(self.params.quote_mode.as_str(), "inside") {
            let half: i128 = max128(req, floor_div(mul64(self.params.inside_spread_frac, self.bbo.ask - self.bbo.bid), 2));
            let a: i64 = max64(
                at_or_above(self.meta, fair + half),
                on_grid(self.meta, self.bbo.bid as i128 + tick),
            );
            if 2 * (a as i128) < 2 * (self.bbo.ask as i128) - tick {
                SidePlan { px: a as i128, lean: false, no_room: false }
            } else {
                SidePlan { px: base, lean: false, no_room: true }
            }
        } else if base * ONE128 < fair + req {
            let a: i64 = at_or_above(self.meta, fair + req);
            let behind: i64 = sat64(round_div(a as i128 - self.bbo.ask as i128, tick));
            SidePlan { px: a as i128, lean: behind > self.params.max_lean_ticks, no_room: false }
        } else {
            SidePlan { px: base, lean: false, no_room: false }
        }
    }
}

impl<'a> QuoteInput<'a> {
    fn ratio(&self) -> (r: i64)
        requires
            self.bbo.valid(),
        ensures
            r == self.inv_ratio(),
            -ONE <= r <= ONE,
    {
        let cap: i64 = self.params.max_position_notional_usd;
        if cap > 0 {
            let v: i128 = round_div(times_mid(self.position_qty, self.mid_sum()), 2 * (cap as i128));
            if v > ONE128 {
                ONE
            } else if v < -ONE128 {
                -ONE
            } else {
                v as i64
            }
        } else {
            0
        }
    }

    fn skew(&self) -> (r: i64)
        requires
            self.bbo.valid(),
            self.meta.tick_size > 0,
        ensures
            r == self.skew_ticks(),
    {
        let ratio: i64 = self.ratio();
        let skew_bps: i64 = sat64(round_div(mul64(self.params.inventory_skew_bps, ratio), ONE128));
        if skew_bps == 0 {
            return 0;
        }
        let v: i128 = times_mid(skew_bps, self.mid_sum());
        let t: i64 = sat64(round_div(v, 2 * ((self.meta.tick_size as i128) * BPS_ONE)));
        if t == 0 && (ratio >= 50_000_000 || ratio <= -50_000_000) {
            if ratio > 0 {
                1
            } else {
                -1
            }
        } else {
            t
        }
    }

    fn place_bid(&self, plan: SidePlan, skew: i128, inside: bool) -> (r: i64)
        requires
            self.bbo.valid(),
            self.meta.tick_size > 0,
            plan == self.bid_plan(),
            -4 * TWO63 <= plan.px <= 4 * TWO63,
            skew == self.skew_ticks() * self.tick(),
            -TWO126 <= skew <= TWO126,
            inside == self.is_inside(),
        ensures
            r == self.bid_price(),
    {
        proof {
            reveal(QuoteInput::bid_price);
        }
        // long => push both quotes down (sell sooner, buy later); short => push up
        let px: i128 = plan.px - skew;
        // never cross the market: keep quotes passive (inside mode stays inside the spread)
        let kept: i128 = if px >= self.bbo.ask as i128 {
            if inside {
                self.bbo.ask as i128 - self.meta.tick_size as i128
            } else {
                self.bbo.bid as i128
            }
        } else {
            px
        };
        on_grid(self.meta, kept)
    }

    fn place_ask(&self, plan: SidePlan, skew: i128, inside: bool) -> (r: i64)
        requires
            self.bbo.valid(),
            self.meta.tick_size > 0,
            plan == self.ask_plan(),
            -4 * TWO63 <= plan.px <= 4 * TWO63,
            skew == self.skew_ticks() * self.tick(),
            -TWO126 <= skew <= TWO126,
            inside == self.is_inside(),
        ensures
            r == self.ask_price(),
    {
        proof {
            reveal(QuoteInput::ask_price);
        }
        let px: i128 = plan.px - skew;
        let kept: i128 = if px <= self.bbo.bid as i128 {
            if inside {
                self.bbo.bid as i128 + self.meta.tick_size as i128
            } else {
                self.bbo.ask as i128
            }
        } else {
            px
        };
        on_grid(self.meta, kept)
    }

    fn is_worth_min(&self, qty: i64) -> (r: bool)
        requires
            self.bbo.valid(),
        ensures
            r == self.worth_min(qty as int),
    {
        times_mid(qty, self.mid_sum()) >= 2 * mul64(self.meta.min_notional, ONE)
    }

    fn order_qty(&self) -> (r: i64)
        requires
            self.bbo.valid(),
        ensures
            r == self.base_qty(),
    {
        let v: i128 = 2 * ((self.params.order_notional_usd as i128) * ONE128);
        self.meta.round_qty_down(sat64(floor_div(v, self.mid_sum())))
    }

    /// One side of the quotes. BID: entry when short/flat room exists; when long at cap, no bid.
    fn make_side(&self, side: Side, price: i64, blocked: bool, base_qty: i64) -> (r: Option<Quote>)
        requires
            self.bbo.valid(),
            base_qty == self.base_qty(),
        ensures
            r == self.side_quote(side, price as int, blocked),
    {
        let m2: i128 = self.mid_sum();
        let cap2: i128 = 2 * ((self.params.max_position_notional_usd as i128) * ONE128);
        let pos2: i128 = times_mid(self.position_qty, m2);
        let (room, purpose): (i128, Purpose) = match side {
            Side::Buy => (
                sub_sat(cap2, pos2),
                if self.position_qty < 0 {
                    Purpose::Exit
                } else {
                    Purpose::Entry
                },
            ),
            Side::Sell => (
                add_sat(cap2, pos2),
                if self.position_qty > 0 {
                    Purpose::Exit
                } else {
                    Purpose::Entry
                },
            ),
        };
        let exits: bool = match purpose {
            Purpose::Exit => true,
            _ => false,
        };
        if blocked || room < (self.params.order_notional_usd as i128) * ONE128 || !(exits || (self.allow_new_exposure
            && !self.reduce_only)) {
            return None;
        }
        let qty: i64 = if exits {
            // do not flip through zero when reducing: cap at the position size
            max64(min64(base_qty, self.meta.round_qty_down(self.abs_position())), 0)
        } else {
            min64(base_qty, self.meta.round_qty_down(sat64(floor_div(room, m2))))
        };
        if qty > 0 && self.is_worth_min(qty) {
            Some(Quote { side, price, qty, purpose, taker: false })
        } else {
            None
        }
    }

    fn quote_around_fair(&self, base_bid: i128, base_ask: i128) -> (r: Quotes)
        requires
            self.wf(),
            self.bbo.valid(),
            base_bid == self.base_bid(),
            base_ask == self.base_ask(),
        ensures
            r == self.fair_quotes(),
    {
        let p: &StrategyParams = self.params;
        let flow: i64 = self.stats.flow_imbalance(self.now_ms, p.toxicity_window_secs);
        let m2: i128 = self.mid_sum();
        let shift: i128 = self.fair_shift(flow);
        let fair_shift_bps: i64 = mul_div(shift, 20_000, m2);
        let fair: i128 = m2 * 50_000_000 + shift;
        let inside: bool = str_eq(p.quote_mode.as_str(), "inside");
        let bid: SidePlan = self.plan_bid(fair, base_bid);
        let ask: SidePlan = self.plan_ask(fair, base_ask);
        // ---- inventory skew: shift both quotes against the position, in whole ticks ----
        let skew: i128 = mul64(self.skew(), self.meta.tick_size);
        let bid_px: i64 = self.place_bid(bid, skew, inside);
        let ask_px: i64 = self.place_ask(ask, skew, inside);
        let tick: i128 = self.meta.tick_size as i128;
        // the skew may have pushed an inside quote onto or behind the touch: then it is a queue
        // quote, drop it
        let no_room_bid: bool = bid.no_room || (inside && 2 * (bid_px as i128) <= 2 * (self.bbo.bid as i128) + tick);
        let no_room_ask: bool = ask.no_room || (inside && 2 * (ask_px as i128) >= 2 * (self.bbo.ask as i128) - tick);
        // ---- hard blocks: toxic flow and a reference that already moved ----
        let tox_ask: bool = p.toxicity_imbalance > 0 && flow > p.toxicity_imbalance;
        let tox_bid: bool = p.toxicity_imbalance > 0 && flow < -p.toxicity_imbalance;
        let ref_ask: bool = p.ref_block_bps > 0 && self.ref_dev_bps > p.ref_block_bps;
        let ref_bid: bool = p.ref_block_bps > 0 && self.ref_dev_bps < -p.ref_block_bps;
        // ---- sizes ----
        let base_qty: i64 = self.order_qty();
        if base_qty <= 0 || !self.is_worth_min(base_qty) {
            return Quotes { bid: None, ask: None, reason: "size_below_min", fair_shift_bps };
        }
        let b: Option<Quote> = self.make_side(Side::Buy, bid_px, tox_bid || ref_bid || bid.lean || no_room_bid, base_qty);
        let a: Option<Quote> = self.make_side(Side::Sell, ask_px, tox_ask || ref_ask || ask.lean || no_room_ask, base_qty);
        let reason: &'static str = if b.is_none() && a.is_none() {
            if ref_bid || ref_ask {
                "ref_block"
            } else if tox_bid || tox_ask {
                "toxic_flow"
            } else if bid.lean || ask.lean {
                "lean_out"
            } else if no_room_bid || no_room_ask {
                "no_room_inside"
            } else if self.reduce_only {
                "reduce_only"
            } else if !self.allow_new_exposure {
                "risk_limit"
            } else {
                "position_cap"
            }
        } else if ref_bid || ref_ask {
            "ref_one_side"
        } else if tox_bid || tox_ask {
            "toxic_one_side"
        } else if bid.lean || ask.lean {
            "lean_one_side"
        } else if no_room_bid || no_room_ask {
            "inside_one_side"
        } else {
            "ok"
        };
        Quotes { bid: b, ask: a, reason, fair_shift_bps }
    }
}

/// Compute the desired quotes. Returns empty quotes with a reason when the symbol should not be quoted.
pub fn compute_quotes(inp: &QuoteInput) -> (r: Quotes)
    requires
        inp.wf(),
    ensures
        r == inp.quotes(),
{
    proof {
        reveal(QuoteInput::quotes);
    }
    if !inp.bbo.is_valid() {
        return Quotes { bid: None, ask: None, reason: "invalid_bbo", fair_shift_bps: 0 };
    }
    let p: &StrategyParams = inp.params;
    // ---- stop-loss: the mid moved against the position beyond the limit ----
    if inp.stop_hit() {
        return inp.as_exit(inp.forced_exit(p.stop_loss_mode.as_str(), Purpose::StopLoss), "stop_loss");
    }
    // ---- stale inventory: exit first, no matter what the spread looks like ----
    if inp.position_age_secs >= p.max_hold_secs && inp.holds_position() {
        return inp.as_exit(inp.forced_exit(p.stale_exit_mode.as_str(), Purpose::StaleExit), "stale_exit");
    }
    // ---- guards that stop new quoting entirely; an open position may still leave passively ----
    if inp.stats.vol_bps > p.max_vol_bps && p.max_vol_bps > 0 {
        return inp.as_exit(inp.add_exit_only(), "vol_guard");
    }
    let improve: bool = inp.steps_inside();
    let tick: i128 = inp.meta.tick_size as i128;
    let base_bid: i128 = if improve {
        inp.bbo.bid as i128 + tick
    } else {
        inp.bbo.bid as i128
    };
    let base_ask: i128 = if improve {
        inp.bbo.ask as i128 - tick
    } else {
        inp.bbo.ask as i128
    };
    if !inp.is_wide(base_ask - base_bid) {
        return inp.as_exit(inp.add_exit_only(), "spread_too_narrow");
    }
    inp.quote_around_fair(base_bid, base_ask)
}

} // verus!
