//! What the books are worth: totals are sums over the positions, whatever their order; a mark moves
//! them by its own position alone; equity is what was put in plus what was made.

use vstd::prelude::*;
use crate::portfolio::{day_of, notional_of, open_of, place_of, position_of, unrealized_of, Portfolio, Position};
use crate::portfolio_laws::{clear, fits, law_fill_moves_no_equity, law_flip, law_partial_close, law_positions_are_a_table, one_each};
use crate::types::{Fill, Side, SymbolId};
use crate::units::{abs_int, lemma_wide, wide_qty, FLAT_QTY, ONE};

verus! {

/// A sum of amounts.
pub open spec fn total(xs: Seq<int>) -> int
    decreases xs.len(),
{
    if xs.len() == 0 {
        0
    } else {
        xs[0] + total(xs.skip(1))
    }
}

/// What the positions have made at their marks, each by itself.
pub open spec fn open_profits(ps: Seq<(SymbolId, Position)>) -> Seq<int> {
    Seq::new(ps.len(), |i: int| ps[i].1.spec_unrealized())
}

/// What the positions are worth at their marks, each by itself.
pub open spec fn exposures(ps: Seq<(SymbolId, Position)>) -> Seq<int> {
    Seq::new(ps.len(), |i: int| ps[i].1.spec_notional())
}

/// One for every position that is open.
pub open spec fn openings(ps: Seq<(SymbolId, Position)>) -> Seq<int> {
    Seq::new(ps.len(), |i: int| if ps[i].1.flat() { 0 } else { 1 })
}

/// However they are added up, the amounts stay in range.
pub open spec fn stays_in_range(xs: Seq<int>) -> bool {
    total(Seq::new(xs.len(), |i: int| abs_int(xs[i]))) <= i128::MAX
}

/// A sum can be taken from its end.
pub(crate) proof fn lemma_total_last(xs: Seq<int>)
    requires
        xs.len() > 0,
    ensures
        total(xs) == total(xs.drop_last()) + xs.last(),
    decreases xs.len(),
{
    if xs.len() > 1 {
        lemma_total_last(xs.skip(1));
        assert(xs.skip(1).drop_last() =~= xs.drop_last().skip(1));
        assert(xs.drop_last()[0] == xs[0]);
    } else {
        assert(xs.skip(1) =~= Seq::<int>::empty());
        assert(xs.drop_last() =~= Seq::<int>::empty());
    }
}

/// Replacing one of the amounts changes the sum by the difference.
proof fn lemma_total_update(xs: Seq<int>, i: int, x: int)
    requires
        0 <= i < xs.len(),
    ensures
        total(xs.update(i, x)) == total(xs) - xs[i] + x,
    decreases xs.len(),
{
    if i == 0 {
        assert(xs.update(0, x).skip(1) =~= xs.skip(1));
    } else {
        lemma_total_update(xs.skip(1), i - 1, x);
        assert(xs.update(i, x).skip(1) =~= xs.skip(1).update(i - 1, x));
    }
}

/// The amounts of the first positions are bounded by those of all.
proof fn lemma_in_range(xs: Seq<int>)
    requires
        stays_in_range(xs),
    ensures
        -i128::MAX <= total(xs) <= i128::MAX,
        xs.len() > 0 ==> stays_in_range(xs.drop_last()),
    decreases xs.len(),
{
    let ys = Seq::new(xs.len(), |i: int| abs_int(xs[i]));
    if xs.len() > 0 {
        lemma_total_last(ys);
        lemma_total_last(xs);
        assert(ys.drop_last() =~= Seq::new(xs.drop_last().len(), |i: int| abs_int(xs.drop_last()[i])));
        lemma_in_range(xs.drop_last());
        lemma_abs_total(xs);
    }
}

proof fn lemma_abs_total(xs: Seq<int>)
    ensures
        abs_int(total(xs)) <= total(Seq::new(xs.len(), |i: int| abs_int(xs[i]))),
    decreases xs.len(),
{
    let ys = Seq::new(xs.len(), |i: int| abs_int(xs[i]));
    if xs.len() > 0 {
        lemma_abs_total(xs.skip(1));
        assert(ys.skip(1) =~= Seq::new(xs.skip(1).len(), |i: int| abs_int(xs.skip(1)[i])));
    }
}

proof fn lemma_unrealized(ps: Seq<(SymbolId, Position)>, n: nat)
    requires
        n <= ps.len(),
        stays_in_range(open_profits(ps.take(n as int))),
    ensures
        unrealized_of(ps, n) == total(open_profits(ps.take(n as int))),
    decreases n,
{
    let xs = open_profits(ps.take(n as int));
    if n > 0 {
        lemma_total_last(xs);
        lemma_in_range(xs);
        assert(xs.drop_last() =~= open_profits(ps.take(n - 1)));
        lemma_unrealized(ps, (n - 1) as nat);
        assert(xs.last() == ps[n - 1].1.spec_unrealized());
    }
}

proof fn lemma_notional(ps: Seq<(SymbolId, Position)>, n: nat)
    requires
        n <= ps.len(),
        stays_in_range(exposures(ps.take(n as int))),
    ensures
        notional_of(ps, n) == total(exposures(ps.take(n as int))),
    decreases n,
{
    let xs = exposures(ps.take(n as int));
    if n > 0 {
        lemma_total_last(xs);
        lemma_in_range(xs);
        assert(xs.drop_last() =~= exposures(ps.take(n - 1)));
        lemma_notional(ps, (n - 1) as nat);
        assert(xs.last() == ps[n - 1].1.spec_notional());
    }
}

proof fn lemma_open(ps: Seq<(SymbolId, Position)>, n: nat)
    requires
        n <= ps.len(),
    ensures
        open_of(ps, n) == total(openings(ps.take(n as int))),
        0 <= open_of(ps, n) <= n,
    decreases n,
{
    let xs = openings(ps.take(n as int));
    if n > 0 {
        lemma_total_last(xs);
        assert(xs.drop_last() =~= openings(ps.take(n - 1)));
        lemma_open(ps, (n - 1) as nat);
    }
}

/// Open profit, gross exposure and the number of open positions are the sums over the positions (the
/// first two while nothing leaves its range).
pub proof fn law_totals_are_sums(pf: Portfolio)
    ensures
        stays_in_range(open_profits(pf.positions@)) ==> pf.spec_unrealized_total() == total(open_profits(pf.positions@)),
        stays_in_range(exposures(pf.positions@)) ==> pf.spec_gross_exposure() == total(exposures(pf.positions@)),
        pf.spec_open_positions() == total(openings(pf.positions@)),
        0 <= pf.spec_open_positions() <= pf.positions@.len(),
{
    let ps = pf.positions@;
    assert(ps.take(ps.len() as int) =~= ps);
    if stays_in_range(open_profits(ps)) {
        lemma_unrealized(ps, ps.len());
    }
    if stays_in_range(exposures(ps)) {
        lemma_notional(ps, ps.len());
    }
    lemma_open(ps, ps.len());
}

/// Equity is what was put in, plus what was realized, less the fees, plus the open profit of every
/// position; the profit of the day is how far it has come since the day began.
pub proof fn law_equity_adds_up(pf: Portfolio)
    requires
        stays_in_range(open_profits(pf.positions@)),
        stays_in_range(seq![pf.initial_equity * ONE, pf.realized_total as int, pf.fees_total as int, total(open_profits(pf.positions@))]),
    ensures
        pf.spec_equity() == pf.initial_equity * ONE + pf.realized_total - pf.fees_total + total(open_profits(pf.positions@)),
        i128::MIN <= pf.spec_equity() - pf.day_start_equity <= i128::MAX ==> pf.spec_daily_pnl() == pf.spec_equity() - pf.day_start_equity,
{
    law_totals_are_sums(pf);
    let xs = seq![pf.initial_equity * ONE, pf.realized_total as int, pf.fees_total as int, total(open_profits(pf.positions@))];
    let ys = Seq::new(xs.len(), |i: int| abs_int(xs[i]));
    reveal_with_fuel(total, 6);
    assert(total(ys) == abs_int(xs[0]) + abs_int(xs[1]) + abs_int(xs[2]) + abs_int(xs[3])) by {
        assert(ys.skip(1).skip(1).skip(1).skip(1).len() == 0);
    }
}

/// Two positions that change places change no total.
pub proof fn law_order_of_positions_is_free(a: Portfolio, b: Portfolio, i: int, j: int)
    requires
        0 <= i < a.positions@.len(),
        0 <= j < a.positions@.len(),
        b.positions@ == a.positions@.update(i, a.positions@[j]).update(j, a.positions@[i]),
        stays_in_range(open_profits(a.positions@)),
        stays_in_range(open_profits(b.positions@)),
        stays_in_range(exposures(a.positions@)),
        stays_in_range(exposures(b.positions@)),
    ensures
        b.spec_unrealized_total() == a.spec_unrealized_total(),
        b.spec_gross_exposure() == a.spec_gross_exposure(),
        b.spec_open_positions() == a.spec_open_positions(),
{
    law_totals_are_sums(a);
    law_totals_are_sums(b);
    let (xs, ys, zs) = (open_profits(a.positions@), exposures(a.positions@), openings(a.positions@));
    assert(open_profits(b.positions@) =~= xs.update(i, xs[j]).update(j, xs[i]));
    assert(exposures(b.positions@) =~= ys.update(i, ys[j]).update(j, ys[i]));
    assert(openings(b.positions@) =~= zs.update(i, zs[j]).update(j, zs[i]));
    lemma_total_update(xs, i, xs[j]);
    lemma_total_update(xs.update(i, xs[j]), j, xs[i]);
    lemma_total_update(ys, i, ys[j]);
    lemma_total_update(ys.update(i, ys[j]), j, ys[i]);
    lemma_total_update(zs, i, zs[j]);
    lemma_total_update(zs.update(i, zs[j]), j, zs[i]);
}

/// A mark that rises by so much raises the open profit by so much for every unit held, and the exposure
/// by so much for every unit held either way; what other positions are worth does not change.
pub proof fn law_mark_moves_its_position(a: Portfolio, b: Portfolio, sym: SymbolId, p: Position, mid: i64)
    requires
        b.after_mid(&a, sym, mid),
        position_of(a.positions@, sym) == Some(p),
        p.last_mid > 0,
        mid > 0,
        !p.flat(),
        i128::MIN <= p.last_mid * p.qty - p.cost <= i128::MAX,
        i128::MIN <= mid * p.qty - p.cost <= i128::MAX,
        stays_in_range(open_profits(a.positions@)),
        stays_in_range(open_profits(b.positions@)),
        stays_in_range(exposures(a.positions@)),
        stays_in_range(exposures(b.positions@)),
    ensures
        b.spec_unrealized_total() - a.spec_unrealized_total() == (mid - p.last_mid) * p.qty,
        b.spec_gross_exposure() - a.spec_gross_exposure() == (mid - p.last_mid) * abs_int(p.qty as int),
        b.spec_open_positions() == a.spec_open_positions(),
        stays_in_range(seq![a.initial_equity * ONE, a.realized_total as int, a.fees_total as int, a.spec_unrealized_total()]) && stays_in_range(
            seq![b.initial_equity * ONE, b.realized_total as int, b.fees_total as int, b.spec_unrealized_total()],
        ) ==> b.spec_equity() - a.spec_equity() == (mid - p.last_mid) * p.qty,
{
    let ps = a.positions@;
    let q = Position { last_mid: mid, ..p };
    let i = place_of(ps, sym, ps.len())->0;
    lemma_place_in(ps, sym, ps.len());
    law_totals_are_sums(a);
    law_totals_are_sums(b);
    let (xs, ys, zs) = (open_profits(ps), exposures(ps), openings(ps));
    assert(open_profits(b.positions@) =~= xs.update(i, q.spec_unrealized()));
    assert(exposures(b.positions@) =~= ys.update(i, q.spec_notional()));
    assert(openings(b.positions@) =~= zs.update(i, zs[i]));
    lemma_total_update(xs, i, q.spec_unrealized());
    lemma_total_update(ys, i, q.spec_notional());
    lemma_total_update(zs, i, zs[i]);
    assert((mid - p.last_mid) * p.qty == mid * p.qty - p.last_mid * p.qty) by (nonlinear_arith);
    let n = abs_int(p.qty as int);
    assert((mid - p.last_mid) * n == n * mid - n * p.last_mid) by (nonlinear_arith);
    if stays_in_range(seq![a.initial_equity * ONE, a.realized_total as int, a.fees_total as int, a.spec_unrealized_total()]) && stays_in_range(
        seq![b.initial_equity * ONE, b.realized_total as int, b.fees_total as int, b.spec_unrealized_total()],
    ) {
        law_equity_adds_up(a);
        law_equity_adds_up(b);
    }
}

proof fn lemma_place_in(ps: Seq<(SymbolId, Position)>, sym: SymbolId, n: nat)
    requires
        n <= ps.len(),
    ensures
        place_of(ps, sym, n) matches Some(i) ==> 0 <= i < n && ps[i].0 == sym,
    decreases n,
{
    if n > 0 && ps[n - 1].0 != sym {
        lemma_place_in(ps, sym, (n - 1) as nat);
    }
}

/// A mid touches the books of its own symbol alone, and there the mark alone; for a symbol that has
/// never traded it changes nothing.
pub proof fn law_mid_is_noted(a: Portfolio, b: Portfolio, sym: SymbolId, mid: i64, other: SymbolId)
    requires
        b.after_mid(&a, sym, mid),
        one_each(a.positions@),
        other != sym,
    ensures
        b.held(other) == a.held(other),
        position_of(a.positions@, sym) is None ==> b == a || b.positions@ == a.positions@,
        position_of(a.positions@, sym) is Some ==> b.held(sym).last_mid == mid && b.held(sym) == (Position { last_mid: mid, ..a.held(sym) }),
        b.realized_total == a.realized_total,
        b.fees_total == a.fees_total,
        b.initial_equity == a.initial_equity,
        b.n_fills == a.n_fills,
{
    if let Some(p) = position_of(a.positions@, sym) {
        law_positions_are_a_table(a.positions@, sym, Position { last_mid: mid, ..p }, other);
        law_positions_are_a_table(a.positions@, sym, Position { last_mid: mid, ..p }, sym);
    }
}

/// A fill changes the books of its own symbol alone; it costs its fee, and the totals take up exactly
/// what the position does.
pub proof fn law_fill_is_booked(a: Portfolio, b: Portfolio, f: Fill, other: SymbolId)
    requires
        b.after_fill(&a, f),
        one_each(a.positions@),
        other != f.sym,
        i128::MIN <= a.fees_total + f.fee <= i128::MAX,
        i128::MIN <= a.held(f.sym).fees + f.fee <= i128::MAX,
        i128::MIN <= a.realized_total + a.held(f.sym).realized_by(f) <= i128::MAX,
        i128::MIN <= a.held(f.sym).realized_pnl + a.held(f.sym).realized_by(f) <= i128::MAX,
        a.n_fills < u64::MAX,
        a.held(f.sym).n_fills < u32::MAX,
    ensures
        b.held(other) == a.held(other),
        b.fees_total == a.fees_total + f.fee,
        b.held(f.sym).fees == a.held(f.sym).fees + f.fee,
        b.realized_total - a.realized_total == b.held(f.sym).realized_pnl - a.held(f.sym).realized_pnl,
        b.n_fills == a.n_fills + 1,
        b.held(f.sym).n_fills == a.held(f.sym).n_fills + 1,
        b.held(f.sym).last_fill_ts == f.ts,
        a.held(f.sym).last_mid > 0 ==> b.held(f.sym).last_mid == a.held(f.sym).last_mid,
        a.held(f.sym).last_mid <= 0 ==> b.held(f.sym).last_mid == f.price,
        b.initial_equity == a.initial_equity,
        b.day_start_equity == a.day_start_equity,
        b.day_key == a.day_key,
        b.peak_equity == a.peak_equity,
        b.max_drawdown == a.max_drawdown,
{
    law_positions_are_a_table(a.positions@, f.sym, a.held(f.sym).after(f), other);
    law_positions_are_a_table(a.positions@, f.sym, a.held(f.sym).after(f), f.sym);
}

/// A buy moves the position up by its quantity and a sell moves it down, as long as the position stays
/// in range and what is left of it counts.
pub proof fn law_fill_moves_quantity(p: Position, f: Fill)
    requires
        f.qty >= 0,
        ({
            let n = if f.side == Side::Buy { p.qty + f.qty } else { p.qty - f.qty };
            &&& i64::MIN <= n <= i64::MAX
            &&& n == 0 || abs_int(wide_qty(n, f.price_digits)) >= FLAT_QTY
        }),
    ensures
        f.side == Side::Buy ==> p.after(f).qty == p.qty + f.qty,
        f.side == Side::Sell ==> p.after(f).qty == p.qty - f.qty,
{
}

/// When a position counts as open: with eight digits for its quantity, exactly when there is any.
pub proof fn law_flat_means_nothing(p: Position)
    ensures
        p.qty == 0 ==> p.flat() && p.spec_unrealized() == 0 && p.spec_age_secs(0) == 0 && p.spec_notional() == 0,
        p.price_digits >= 5 ==> (p.flat() <==> p.qty == 0),
        p.flat() ==> -FLAT_QTY < wide_qty(p.qty as int, p.price_digits) < FLAT_QTY,
        !p.flat() ==> p.qty != 0,
{
    lemma_wide(0, 0, p.price_digits);
    lemma_wide(0, p.qty as int, p.price_digits);
    lemma_wide(p.qty as int, 0, p.price_digits);
    lemma_wide(-p.qty, 0, p.price_digits);
    assert(0 * p.avg_price == 0 && 0 * p.last_mid == 0);
}

/// An open position is worth its quantity, either way, at the mark, or at its cost before there is one;
/// it is as old as the time since it was opened, in whole seconds.
pub proof fn law_position_figures(p: Position, now: int)
    requires
        !p.flat(),
        0 <= now - p.opened_ts <= i64::MAX,
    ensures
        p.last_mid > 0 ==> p.spec_notional() == abs_int(p.qty * p.last_mid),
        p.last_mid <= 0 && p.avg_price >= 0 ==> p.spec_notional() == abs_int(p.qty * p.avg_price),
        p.last_mid <= 0 ==> p.spec_unrealized() == 0,
        p.last_mid > 0 && i128::MIN <= p.last_mid * p.qty - p.cost <= i128::MAX ==> p.spec_unrealized() + p.cost == p.last_mid * p.qty,
        1000 * p.spec_age_secs(now) <= now - p.opened_ts < 1000 * (p.spec_age_secs(now) + 1),
{
    let (q, m, a) = (p.qty as int, p.last_mid as int, p.avg_price as int);
    assert(m > 0 ==> abs_int(q) * m == abs_int(q * m)) by (nonlinear_arith);
    assert(a >= 0 ==> abs_int(q) * a == abs_int(q * a)) by (nonlinear_arith);
}

/// Marking raises the peak to the equity and no further, and the drawdown to the distance from the peak
/// and no further; the first mark of a day makes the present equity its start, so that the day has made
/// nothing yet.
pub proof fn law_mark_is_tight(pf: Portfolio, now_ms: i64)
    requires
        i128::MIN <= pf.peak_equity - pf.spec_equity() <= i128::MAX,
    ensures
        ({
            let m = pf.marked(now_ms as int);
            &&& m.peak_equity == pf.peak_equity || m.peak_equity == pf.spec_equity()
            &&& pf.spec_equity() <= pf.peak_equity ==> m.peak_equity == pf.peak_equity
            &&& m.max_drawdown == pf.max_drawdown || m.max_drawdown == m.peak_equity - pf.spec_equity()
            &&& m.max_drawdown >= m.peak_equity - pf.spec_equity()
            &&& m.day_key != pf.day_key ==> m.day_start_equity == pf.spec_equity() && m.spec_daily_pnl() == 0
            &&& m.day_key == pf.day_key ==> m.day_start_equity == pf.day_start_equity
            &&& m.positions == pf.positions
            &&& now_ms >= 0 ==> m.day_key * 86_400_000 <= now_ms < (m.day_key + 1) * 86_400_000
            &&& m.realized_total == pf.realized_total && m.fees_total == pf.fees_total && m.initial_equity == pf.initial_equity
        }),
{
    assert(pf.marked(now_ms as int).spec_equity() == pf.spec_equity());
    assert(now_ms >= 0 ==> day_of(now_ms as int) * 86_400_000 <= now_ms < (day_of(now_ms as int) + 1) * 86_400_000);
}

/// A position is as old as the fill that opened it: one that opens it, or flips it, sets the time; one that
/// adds to it or closes a part leaves it; one that closes it clears it.
pub proof fn law_opened_when(p: Position, f: Fill)
    requires
        fits(p, f),
        clear(p, f),
    ensures
        ({
            let q = p.after(f);
            let adds = p.qty > 0 && f.side == Side::Buy || p.qty < 0 && f.side == Side::Sell;
            &&& p.qty == 0 ==> q.opened_ts == f.ts
            &&& p.qty != 0 && f.qty > 0 && adds ==> q.opened_ts == p.opened_ts
            &&& p.qty != 0 && !adds && 0 < f.qty < abs_int(p.qty as int) ==> q.opened_ts == p.opened_ts
            &&& p.qty != 0 && !adds && f.qty == abs_int(p.qty as int) ==> q.opened_ts == 0 && q.avg_price == 0
            &&& p.qty != 0 && !adds && f.qty > abs_int(p.qty as int) ==> q.opened_ts == f.ts && q.avg_price == f.price
            &&& p.qty == 0 ==> q.avg_price == f.price
            &&& p.qty != 0 && !adds && 0 < f.qty < abs_int(p.qty as int) ==> q.avg_price == p.avg_price
        }),
{
    lemma_wide(0, 0, p.price_digits);
    lemma_wide(0, 0, f.price_digits);
    lemma_wide(0, p.qty as int, p.price_digits);
    lemma_wide(p.qty as int, 0, p.price_digits);
    if !p.flat() && !p.adds(f) {
        if f.qty > abs_int(p.qty as int) {
            law_flip(p, f);
        } else if f.qty < abs_int(p.qty as int) {
            law_partial_close(p, f);
        }
    }
}

/// What was realized comes from closing: a sale above cost gains on a long position and loses on a short
/// one the other way round, and what is closed at its own cost gains nothing.
pub proof fn law_realized_has_the_sign_of_the_move(p: Position, f: Fill)
    requires
        fits(p, f),
        clear(p, f),
        p.qty != 0,
        f.qty == abs_int(p.qty as int),
        (p.qty > 0) != (f.side == Side::Buy),
    ensures
        p.realized_by(f) == f.price * p.qty - p.cost,
        f.price * p.qty > p.cost <==> p.realized_by(f) > 0,
{
    law_fill_moves_no_equity(p, f);
    assert(f.price * 0 == 0);
    lemma_wide(0, 0, f.price_digits);
    lemma_wide(0, p.qty as int, p.price_digits);
    lemma_wide(p.qty as int, 0, p.price_digits);
}

} // verus!
