//! What average-cost accounting keeps: a round trip realizes the price difference, a fill at the
//! mark creates no profit, totals agree with the positions, drawdown only grows.

use vstd::prelude::*;
use crate::portfolio::{day_of, place_of, position_of, sign_of, with_position, Portfolio, Position};
use crate::types::{Fill, SymbolId};
use crate::units::{abs_int, clamp128, clamp64, div_round, lemma_div_round_exact, lemma_mul_bound, lemma_ratio_within, lemma_wide, wide_qty, FLAT_QTY, TWO126, TWO63};

verus! {

/// The quantity after the fill is in range, so that nothing is cut.
pub open spec fn fits(p: Position, f: Fill) -> bool {
    f.qty >= 0 && i64::MIN < p.qty + Position::signed(f) <= i64::MAX
}

/// What is held before and after the fill is nothing at all or more than the least quantity that
/// counts as a position, and the cost is an amount with room for one fill more.
pub open spec fn clear(p: Position, f: Fill) -> bool {
    &&& p.flat() ==> p.qty == 0 && p.cost == 0
    &&& p.qty + Position::signed(f) == 0 || abs_int(wide_qty(p.qty + Position::signed(f), f.price_digits)) > FLAT_QTY
    &&& -TWO126 < p.cost < TWO126
}

/// Closing takes along a share of the cost between nothing and all of it; closing everything takes
/// all of it.
proof fn lemma_closed_cost(p: Position, f: Fill)
    requires
        f.qty >= 0,
        !p.flat(),
    ensures
        p.qty != 0,
        p.cost >= 0 ==> 0 <= p.closed_cost(f) <= p.cost,
        p.cost <= 0 ==> p.cost <= p.closed_cost(f) <= 0,
        p.closed_by(f) == abs_int(p.qty as int) ==> p.closed_cost(f) == p.cost,
{
    lemma_wide(0, p.qty as int, p.price_digits);
    let q = abs_int(p.qty as int);
    lemma_ratio_within(p.cost as int, p.closed_by(f), q);
    if p.closed_by(f) == q {
        lemma_div_round_exact(p.cost as int, q);
    }
}

/// Opening with one fill and closing with an opposite one of the same size leaves no position and
/// realizes the price difference on that size.
pub proof fn law_round_trip(p: Position, f: Fill, g: Fill)
    requires
        p.qty == 0,
        f.qty > 0,
        wide_qty(f.qty as int, f.price_digits) >= FLAT_QTY,
        g.qty == f.qty,
        g.price_digits == f.price_digits,
        g.side == f.side.spec_opposite(),
    ensures
        p.realized_by(f) == 0,
        p.after(f).qty == Position::signed(f),
        p.after(f).avg_price == f.price,
        p.after(f).cost == f.price * Position::signed(f),
        p.after(f).realized_by(g) == f.side.spec_sign() * ((g.price - f.price) * f.qty),
        p.after(f).after(g).qty == 0,
        p.after(f).after(g).avg_price == 0,
        p.after(f).after(g).cost == 0,
{
    let h = p.after(f);
    let q = f.qty as int;
    lemma_wide(0, 0, p.price_digits);
    lemma_wide(0, 0, f.price_digits);
    lemma_wide(0, q, f.price_digits);
    lemma_wide(q, 0, f.price_digits);
    lemma_mul_bound(f.price as int, Position::signed(f), TWO63 as int, TWO63 as int);
    lemma_closed_cost(h, g);
    assert(f.price * (-q) == -(f.price * q)) by (nonlinear_arith);
    assert(g.price * (-q) == -(g.price * q)) by (nonlinear_arith);
    assert((g.price - f.price) * q == g.price * q - f.price * q) by (nonlinear_arith);
    lemma_mul_bound(g.price - f.price, q, 2 * TWO63 - 1, TWO63 as int);
    assert((2 * TWO63 - 1) * TWO63 == 2 * TWO126 - TWO63);
}

/// A fill larger than the position on the other side closes all of it and opens the leftover at
/// the fill price.
pub proof fn law_flip(p: Position, f: Fill)
    requires
        fits(p, f),
        clear(p, f),
        !p.adds(f),
        f.qty > abs_int(p.qty as int),
    ensures
        abs_int(p.after(f).qty as int) == f.qty - abs_int(p.qty as int),
        (p.after(f).qty > 0) == (p.qty < 0),
        p.after(f).avg_price == f.price,
        p.after(f).cost == f.price * p.after(f).qty,
        p.after(f).opened_ts == f.ts,
        p.realized_by(f) == f.price * p.qty - p.cost,
{
    lemma_closed_cost(p, f);
    lemma_after_in_range(p, f);
}

/// A partial close realizes profit on the closed part alone, leaves the average cost, and takes
/// along the closed part's share of the cost, to the nearest last digit.
pub proof fn law_partial_close(p: Position, f: Fill)
    requires
        fits(p, f),
        clear(p, f),
        !p.adds(f),
        f.qty < abs_int(p.qty as int),
    ensures
        p.after(f).avg_price == p.avg_price,
        p.after(f).opened_ts == p.opened_ts,
        abs_int(p.after(f).qty as int) == abs_int(p.qty as int) - f.qty,
        p.realized_by(f) == f.price * (sign_of(p.qty as int) * f.qty) - p.closed_cost(f),
        p.after(f).cost == p.cost - p.closed_cost(f),
        p.closed_cost(f) == div_round(p.cost * f.qty, abs_int(p.qty as int)),
{
    lemma_closed_cost(p, f);
    lemma_after_in_range(p, f);
    lemma_ratio_within(p.cost as int, f.qty as int, abs_int(p.qty as int));
    lemma_wide(0, f.qty - p.closed_by(f), f.price_digits);
}

/// Adding realizes nothing and adds to the cost what the fill cost; the average is the cost per
/// unit, to the nearest last digit.
pub proof fn law_adding_averages(p: Position, f: Fill)
    requires
        fits(p, f),
        clear(p, f),
        p.adds(f),
    ensures
        p.realized_by(f) == 0,
        p.after(f).cost == p.cost + f.price * Position::signed(f),
        !p.flat() ==> p.after(f).avg_price == clamp64(div_round(p.after(f).cost * sign_of(p.after(f).qty as int), abs_int(p.after(f).qty as int))),
{
    lemma_after_in_range(p, f);
    let n = p.after(f).qty as int;
    let s = sign_of(n);
    if !p.flat() {
        lemma_wide(0, p.qty as int, p.price_digits);
        let m = abs_int(n);
        lemma_ratio_within(p.after(f).cost as int, 1, m);
        assert(p.after(f).cost * 1 == p.after(f).cost);
        assert(p.after(f).cost * s == if s == 1 { p.after(f).cost as int } else { -p.after(f).cost }) by (nonlinear_arith)
            requires
                s == 1 || s == -1,
        ;
        lemma_ratio_within(p.after(f).cost * s, 1, m);
        assert(p.after(f).cost * s * 1 == p.after(f).cost * s);
    }
}

/// Nothing of the arithmetic of a clear fill is cut.
proof fn lemma_after_in_range(p: Position, f: Fill)
    requires
        fits(p, f),
        clear(p, f),
    ensures
        p.qty_after(f) == p.qty + Position::signed(f),
        -TWO126 <= f.price * Position::signed(f) <= TWO126,
        p.adds(f) ==> p.cost_after(f) == p.cost + f.price * Position::signed(f),
        !p.adds(f) ==> p.realized_by(f) == f.price * (sign_of(p.qty as int) * p.closed_by(f)) - p.closed_cost(f),
        !p.adds(f) && f.qty <= abs_int(p.qty as int) ==> p.cost_after(f) == p.cost - p.closed_cost(f),
        !p.adds(f) && f.qty > abs_int(p.qty as int) ==> p.flips(f) && p.cost_after(f) == f.price * p.qty_after(f) && p.qty_after(f) != 0,
        !p.adds(f) ==> (p.qty > 0) != (Position::signed(f) > 0),
        i128::MIN <= p.cost_after(f) <= i128::MAX,
{
    let n = p.qty + Position::signed(f);
    lemma_wide(0, n, f.price_digits);
    lemma_wide(0, -n, f.price_digits);
    lemma_wide(n, -n, f.price_digits);
    lemma_wide(0, 0, f.price_digits);
    lemma_mul_bound(f.price as int, Position::signed(f), TWO63 as int, TWO63 as int);
    lemma_mul_bound(f.price as int, n, TWO63 as int, TWO63 as int);
    if !p.flat() {
        lemma_wide(0, p.qty as int, p.price_digits);
        lemma_closed_cost(p, f);
        lemma_mul_bound(f.price as int, sign_of(p.qty as int) * p.closed_by(f), TWO63 as int, TWO63 as int);
        if !p.adds(f) && f.qty > abs_int(p.qty as int) {
            assert(f.qty - p.closed_by(f) == abs_int(n));
        }
    }
}

/// Trading at the mark moves no equity before fees, whatever the fill does to the position: the
/// quantity moves by the fill; only a fill against the position realizes anything; and what it
/// realizes, with what the position is worth at the fill price above its cost after it, is exactly
/// what the position was worth above its cost before.
pub proof fn law_fill_moves_no_equity(p: Position, f: Fill)
    requires
        fits(p, f),
        clear(p, f),
    ensures
        p.after(f).qty == p.qty + Position::signed(f),
        p.realized_by(f) != 0 ==> !p.adds(f),
        p.realized_by(f) + (f.price * p.after(f).qty - p.after(f).cost) == f.price * p.qty - p.cost,
        p.after(f).flat() ==> p.after(f).qty == 0 && p.after(f).cost == 0,
{
    lemma_after_in_range(p, f);
    lemma_wide(0, 0, f.price_digits);
    let q = p.qty as int;
    let x = Position::signed(f);
    let n = q + x;
    assert(f.price * n == f.price * q + f.price * x) by (nonlinear_arith)
        requires
            n == q + x,
    ;
    assert(f.price * 0 == 0);
    if p.adds(f) {
        if !p.flat() {
            lemma_wide(0, q, p.price_digits);
        }
    } else {
        lemma_closed_cost(p, f);
        let c = sign_of(q) * p.closed_by(f);
        if f.qty <= abs_int(q) {
            assert(c == -x);
            assert(f.price * c == -(f.price * x)) by (nonlinear_arith)
                requires
                    c == -x,
            ;
        } else {
            assert(c == q);
        }
    }
}

/// With the mark at the fill price, what the position has realized and what it is worth above its
/// cost add up to the same before a fill and after it: equity changes by the fee alone.
pub proof fn law_equity_kept(p: Position, f: Fill)
    requires
        fits(p, f),
        clear(p, f),
        p.last_mid == f.price,
        f.price > 0,
        i128::MIN <= p.realized_pnl + p.realized_by(f) <= i128::MAX,
        i128::MIN <= f.price * p.qty - p.cost <= i128::MAX,
        i128::MIN <= f.price * p.after(f).qty - p.after(f).cost <= i128::MAX,
    ensures
        p.after(f).realized_pnl + p.after(f).spec_unrealized() == p.realized_pnl + p.spec_unrealized(),
{
    law_fill_moves_no_equity(p, f);
    assert(f.price * 0 == 0);
}

/// One entry per symbol.
pub open spec fn one_each(ps: Seq<(SymbolId, Position)>) -> bool {
    forall|i: int, j: int| 0 <= i < j < ps.len() ==> (#[trigger] ps[i]).0 != (#[trigger] ps[j]).0
}

proof fn lemma_place(ps: Seq<(SymbolId, Position)>, sym: SymbolId, n: nat)
    requires
        n <= ps.len(),
    ensures
        match place_of(ps, sym, n) {
            Some(i) => 0 <= i < n && ps[i].0 == sym && forall|j: int| i < j < n ==> (#[trigger] ps[j]).0 != sym,
            None => forall|j: int| 0 <= j < n ==> (#[trigger] ps[j]).0 != sym,
        },
    decreases n,
{
    if n > 0 && ps[n - 1].0 != sym {
        lemma_place(ps, sym, (n - 1) as nat);
    }
}

/// A position that was set is read back.
pub proof fn law_position_set(ps: Seq<(SymbolId, Position)>, sym: SymbolId, p: Position)
    ensures
        position_of(with_position(ps, sym, p), sym) == Some(p),
{
    let qs = with_position(ps, sym, p);
    lemma_place(ps, sym, ps.len());
    lemma_place(qs, sym, qs.len());
    match place_of(ps, sym, ps.len()) {
        Some(i) => {
            assert(qs[i].0 == sym);
            assert(forall|j: int| i < j < qs.len() ==> qs[j] == ps[j]);
            match place_of(qs, sym, qs.len()) {
                Some(k) => {
                    if k > i {
                        assert(ps[k].0 == sym);
                    }
                },
                None => {},
            }
        },
        None => {
            assert(qs[ps.len() as int].0 == sym);
        },
    }
}

/// Setting a position is read back, leaves the other symbols alone and keeps one entry per symbol.
pub proof fn law_positions_are_a_table(ps: Seq<(SymbolId, Position)>, sym: SymbolId, p: Position, other: SymbolId)
    requires
        one_each(ps),
    ensures
        one_each(with_position(ps, sym, p)),
        position_of(with_position(ps, sym, p), sym) == Some(p),
        other != sym ==> position_of(with_position(ps, sym, p), other) == position_of(ps, other),
{
    let qs = with_position(ps, sym, p);
    lemma_place(ps, sym, ps.len());
    lemma_place(ps, other, ps.len());
    lemma_place(qs, sym, qs.len());
    lemma_place(qs, other, qs.len());
    match place_of(ps, sym, ps.len()) {
        Some(i) => {
            assert(qs[i].0 == sym);
            assert forall|a: int, b: int| 0 <= a < b < qs.len() implies (#[trigger] qs[a]).0 != (#[trigger] qs[b]).0 by {
                assert(qs[a].0 == ps[a].0 && qs[b].0 == ps[b].0);
            }
        },
        None => {
            assert(qs[ps.len() as int].0 == sym);
        },
    }
    if other != sym {
        match place_of(qs, other, qs.len()) {
            Some(i) => {
                assert(ps[i].0 == other);
            },
            None => {
                assert forall|j: int| 0 <= j < ps.len() implies (#[trigger] ps[j]).0 != other by {
                    assert(qs[j].0 == ps[j].0);
                }
            },
        }
    }
}

/// What the first `n` positions have realized.
pub open spec fn realized_of(ps: Seq<(SymbolId, Position)>, n: nat) -> int
    decreases n,
{
    if n == 0 {
        0
    } else {
        realized_of(ps, (n - 1) as nat) + ps[n - 1].1.realized_pnl
    }
}

proof fn lemma_realized_update(ps: Seq<(SymbolId, Position)>, i: int, e: (SymbolId, Position), n: nat)
    requires
        0 <= i < ps.len(),
        n <= ps.len(),
    ensures
        realized_of(ps.update(i, e), n) == realized_of(ps, n) + if i < n {
            e.1.realized_pnl - ps[i].1.realized_pnl
        } else {
            0
        },
    decreases n,
{
    if n > 0 {
        lemma_realized_update(ps, i, e, (n - 1) as nat);
    }
}

proof fn lemma_realized_push(ps: Seq<(SymbolId, Position)>, e: (SymbolId, Position), n: nat)
    requires
        n <= ps.len(),
    ensures
        realized_of(ps.push(e), n) == realized_of(ps, n),
    decreases n,
{
    if n > 0 {
        lemma_realized_push(ps, e, (n - 1) as nat);
    }
}

/// A fill adds the same profit to the total and to the positions, so that the two stay equal (as
/// long as neither reaches the end of its range).
pub proof fn law_totals_agree(before: Portfolio, after: Portfolio, f: Fill)
    requires
        before.realized_total == realized_of(before.positions@, before.positions@.len()),
        after.after_fill(&before, f),
        i128::MIN <= before.realized_total + before.held(f.sym).realized_by(f) <= i128::MAX,
        i128::MIN <= before.held(f.sym).realized_pnl + before.held(f.sym).realized_by(f) <= i128::MAX,
    ensures
        after.realized_total == realized_of(after.positions@, after.positions@.len()),
{
    let p = before.held(f.sym);
    let ps = before.positions@;
    lemma_place(ps, f.sym, ps.len());
    match place_of(ps, f.sym, ps.len()) {
        Some(i) => {
            lemma_realized_update(ps, i, (f.sym, p.after(f)), ps.len());
        },
        None => {
            lemma_realized_push(ps, (f.sym, p.after(f)), ps.len());
        },
    }
}

/// Marking never lowers the peak or the drawdown, the peak is never below the equity, and within a
/// day the reference for the daily profit stays.
pub proof fn law_mark_grows(pf: Portfolio, now_ms: i64)
    ensures
        pf.marked(now_ms as int).peak_equity >= pf.peak_equity,
        pf.marked(now_ms as int).peak_equity >= pf.spec_equity(),
        pf.marked(now_ms as int).max_drawdown >= pf.max_drawdown,
        pf.marked(now_ms as int).max_drawdown >= clamp128(pf.marked(now_ms as int).peak_equity - pf.spec_equity()) >= 0,
        day_of(now_ms as int) == pf.day_key ==> pf.marked(now_ms as int).day_start_equity == pf.day_start_equity,
        pf.marked(now_ms as int).spec_equity() == pf.spec_equity(),
{
}

} // verus!
