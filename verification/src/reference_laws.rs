//! What the leading venue tells: the basis follows the distance between the two markets, and the
//! deviation is what the reference, moved by the basis, lies away from us.

use vstd::prelude::*;
use crate::engine::{basis_sample, event_taken, reference_noted, Engine, SymbolState};
use crate::types::{Bbo, MarketEvent, SymbolId};
use crate::units::{abs_int, div_round, law_rounds_to_nearest, lemma_div_round_exact, lemma_div_round_monotone, BPS_ONE, ONE};

verus! {

/// The reference is known, fresh and has been compared with our market often enough.
pub open spec fn can_tell(st: SymbolState, stale_ms: int, now: int) -> bool {
    &&& st.ref_bbo is Some
    &&& st.bbo matches Some(o) && o.bid + o.ask > 0
    &&& now - st.ref_ts <= stale_ms
    &&& st.basis_n >= 5
}

/// Twice the distance from our mid to the reference mid moved by the basis.
pub open spec fn gap2(st: SymbolState) -> int {
    (st.ref_bbo->0.bid + st.ref_bbo->0.ask) + 2 * st.basis - (st.bbo->0.bid + st.bbo->0.ask)
}

/// The deviation is the distance from our mid to the reference mid moved by the basis, over our mid, in
/// basis points to the nearest last digit. So it is zero when the two agree, and has the sign of the
/// distance; where the reference cannot tell, it is zero.
pub proof fn law_deviation_value(st: SymbolState, stale_ms: int, now: int)
    ensures
        ({
            let d = st.ref_dev(stale_ms, now);
            let o2 = st.bbo->0.bid + st.bbo->0.ask;
            &&& !can_tell(st, stale_ms, now) ==> d == 0
            &&& can_tell(st, stale_ms, now) ==> {
                &&& i64::MIN < d < i64::MAX ==> 2 * abs_int(d * o2 - gap2(st) * BPS_ONE) <= o2
                &&& gap2(st) == 0 ==> d == 0
                &&& d == 0 ==> 2 * abs_int(gap2(st) * BPS_ONE) <= o2
                &&& gap2(st) >= 0 ==> d >= 0
                &&& gap2(st) <= 0 ==> d <= 0
            }
        }),
{
    if can_tell(st, stale_ms, now) {
        let o2 = st.bbo->0.bid + st.bbo->0.ask;
        law_rounds_to_nearest(gap2(st) * BPS_ONE, o2);
        assert(0 * o2 == 0);
    }
}

/// A higher reference, or a higher basis, never lowers the deviation.
pub proof fn law_deviation_order(a: SymbolState, b: SymbolState, stale_ms: int, now: int)
    requires
        can_tell(a, stale_ms, now),
        can_tell(b, stale_ms, now),
        b.bbo->0.bid + b.bbo->0.ask == a.bbo->0.bid + a.bbo->0.ask,
        a.ref_bbo->0.bid <= b.ref_bbo->0.bid,
        a.ref_bbo->0.ask <= b.ref_bbo->0.ask,
        a.basis <= b.basis,
    ensures
        a.ref_dev(stale_ms, now) <= b.ref_dev(stale_ms, now),
{
    let o2 = a.bbo->0.bid + a.bbo->0.ask;
    lemma_div_round_monotone(gap2(a) * BPS_ONE, gap2(b) * BPS_ONE, o2);
}

/// A reference quote that is taken is the reference from then on: its prices, its provider and the
/// time. Nothing of another symbol changes.
pub proof fn law_reference_is_kept(a: Engine, b: Engine, sym: SymbolId, ts: i64, bid: i64, ask: i64, rank: u8, now: i64, other: SymbolId)
    requires
        reference_noted(a, b, sym, ts, bid, ask, rank, now),
        (sym as int) < a.symbols@.len(),
        (other as int) < a.symbols@.len(),
        other != sym,
    ensures
        b.sym(sym).ref_bbo matches Some(r) && r.bid == bid && r.ask == ask && r.ts == ts,
        b.sym(sym).ref_rank == rank,
        b.sym(sym).ref_ts == now,
        b.sym(sym).bbo == a.sym(sym).bbo,
        b.sym(other) == a.sym(other),
        a.sym(sym).bbo is None ==> b.sym(sym).basis == a.sym(sym).basis && b.sym(sym).basis_n == a.sym(sym).basis_n,
        a.sym(sym).bbo is Some && a.sym(sym).basis_n < u32::MAX ==> b.sym(sym).basis_n == a.sym(sym).basis_n + 1,
{
}

/// A quote of a provider that is no better than the present one, while that one is not silent, changes
/// nothing; neither does one that is no market.
pub proof fn law_worse_reference_is_passed_over(a: Engine, b: Engine, ev: MarketEvent, now: i64, ends: bool)
    requires
        event_taken(a, b, ev, now, ends),
        ev matches MarketEvent::Reference { sym, ts, bid, ask, rank } && ((sym as int) >= a.symbols@.len() || bid <= 0 || ask < bid || (rank
            > a.sym(sym).ref_rank && now - a.sym(sym).ref_ts <= a.cfg.reference.stale_ms)),
    ensures
        b == a,
{
}

/// The first comparison sets the basis to the distance between the two mids; each later one moves it
/// toward that distance, by the smoothing factor, and never past it.
pub proof fn law_basis_follows(a: Engine, b: Engine, sym: SymbolId, ts: i64, bid: i64, ask: i64, rank: u8, now: i64)
    requires
        reference_noted(a, b, sym, ts, bid, ask, rank, now),
        (sym as int) < a.symbols@.len(),
        a.sym(sym).bbo is Some,
        ({
            let s2 = (a.sym(sym).bbo->0.bid + a.sym(sym).bbo->0.ask) - (bid + ask);
            2 * i64::MIN < s2 < 2 * i64::MAX
        }),
        0 <= a.cfg.reference.basis_alpha <= ONE,
    ensures
        ({
            let s2 = (a.sym(sym).bbo->0.bid + a.sym(sym).bbo->0.ask) - (bid + ask);
            let (old, new, alpha) = (a.sym(sym).basis as int, b.sym(sym).basis as int, a.cfg.reference.basis_alpha as int);
            &&& a.sym(sym).basis_n == 0 ==> abs_int(2 * new - s2) <= 1
            &&& a.sym(sym).basis_n > 0 ==> {
                &&& abs_int(2 * ((new - old) * ONE) - (s2 - 2 * old) * alpha) <= alpha + ONE
                &&& 2 * old <= s2 ==> old <= new && 2 * new <= s2 + 1
                &&& 2 * old >= s2 ==> new <= old && 2 * new >= s2 - 1
            }
        }),
{
    let o = a.sym(sym).bbo->0;
    let s2 = (o.bid + o.ask) - (bid + ask);
    let (old, alpha) = (a.sym(sym).basis as int, a.cfg.reference.basis_alpha as int);
    law_rounds_to_nearest(s2, 2);
    let x = div_round(s2, 2);
    assert(abs_int(2 * x - s2) <= 1);
    lemma_half_in_range(s2);
    assert(basis_sample(o, bid, ask) == x);
    if a.sym(sym).basis_n > 0 {
        let m = (x - old) * alpha;
        let k = div_round(m, ONE as int);
        law_rounds_to_nearest(m, ONE as int);
        lemma_part(x - old, alpha);
        let e = 2 * x - s2;
        assert((s2 - 2 * old) * alpha == 2 * m - e * alpha) by (nonlinear_arith)
            requires
                m == (x - old) * alpha,
                e == 2 * x - s2,
        ;
        assert(abs_int(e * alpha) <= alpha) by (nonlinear_arith)
            requires
                -1 <= e <= 1,
                alpha >= 0,
        ;
    }
}

proof fn lemma_half_in_range(s2: int)
    requires
        2 * i64::MIN < s2 < 2 * i64::MAX,
    ensures
        i64::MIN <= div_round(s2, 2) <= i64::MAX,
{
    law_rounds_to_nearest(s2, 2);
}

/// A part of a distance is no more than the distance.
proof fn lemma_part(d: int, alpha: int)
    requires
        0 <= alpha <= ONE,
    ensures
        d >= 0 ==> 0 <= div_round(d * alpha, ONE as int) <= d,
        d <= 0 ==> d <= div_round(d * alpha, ONE as int) <= 0,
{
    crate::units::lemma_ratio_within(d, alpha, ONE as int);
}

/// While both markets stand still the basis is their distance from the first comparison on, so that
/// after five the deviation is nothing but rounding: exactly zero where the distance halves evenly.
pub proof fn law_standing_still(es: Seq<Engine>, sym: SymbolId, ts: i64, bid: i64, ask: i64, rank: u8, times: Seq<i64>, o: Bbo, n: nat)
    requires
        es.len() == times.len() + 1,
        forall|k: int| 0 <= k < times.len() ==> reference_noted(#[trigger] es[k], es[k + 1], sym, ts, bid, ask, rank, times[k]),
        (sym as int) < es[0].symbols@.len(),
        es[0].sym(sym).bbo == Some(o),
        es[0].sym(sym).basis_n == 0,
        2 * i64::MIN < (o.bid + o.ask) - (bid + ask) < 2 * i64::MAX,
        o.bid + o.ask > 0,
        1 <= n <= times.len(),
        n < u32::MAX,
    ensures
        es[n as int].sym(sym).basis_n == n,
        abs_int(2 * es[n as int].sym(sym).basis - ((o.bid + o.ask) - (bid + ask))) <= 1,
        forall|stale_ms: int, now: int|
            #![trigger es[n as int].sym(sym).ref_dev(stale_ms, now)]
            ({
                let d = es[n as int].sym(sym).ref_dev(stale_ms, now);
                &&& ((o.bid + o.ask) - (bid + ask)) % 2 == 0 ==> d == 0
                &&& abs_int(d) * (o.bid + o.ask) <= BPS_ONE + (o.bid + o.ask)
            }),
{
    let s2 = (o.bid + o.ask) - (bid + ask);
    let o2 = o.bid + o.ask;
    let x = div_round(s2, 2);
    lemma_still(es, sym, ts, bid, ask, rank, times, o, n);
    law_rounds_to_nearest(s2, 2);
    let st = es[n as int].sym(sym);
    assert forall|stale_ms: int, now: int| #![trigger st.ref_dev(stale_ms, now)] ({
        let d = st.ref_dev(stale_ms, now);
        &&& s2 % 2 == 0 ==> d == 0
        &&& abs_int(d) * o2 <= BPS_ONE + o2
    }) by {
        let d = st.ref_dev(stale_ms, now);
        law_deviation_value(st, stale_ms, now);
        if can_tell(st, stale_ms, now) {
            let g = gap2(st);
            assert(g == 2 * x - s2);
            assert(abs_int(g * BPS_ONE) <= BPS_ONE);
            if s2 % 2 == 0 {
                assert(g == 0);
            }
            lemma_div_round_exact(0, o2);
            law_rounds_to_nearest(g * BPS_ONE, o2);
            let r = div_round(g * BPS_ONE, o2);
            lemma_small(r, o2, g * BPS_ONE);
            assert(abs_int(d) <= abs_int(r));
            assert(abs_int(d) * o2 <= abs_int(r) * o2) by (nonlinear_arith)
                requires
                    abs_int(d) <= abs_int(r),
                    o2 > 0,
            ;
        } else {
            assert(0 * o2 == 0);
        }
    }
}

proof fn lemma_small(r: int, o2: int, m: int)
    requires
        -o2 <= 2 * (m - r * o2) <= o2,
        o2 > 0,
        abs_int(m) <= BPS_ONE,
    ensures
        abs_int(r) * o2 <= BPS_ONE + o2,
{
    assert(abs_int(r) * o2 == abs_int(r * o2)) by (nonlinear_arith)
        requires
            o2 > 0,
    ;
}

proof fn lemma_still(es: Seq<Engine>, sym: SymbolId, ts: i64, bid: i64, ask: i64, rank: u8, times: Seq<i64>, o: Bbo, n: nat)
    requires
        es.len() == times.len() + 1,
        forall|k: int| 0 <= k < times.len() ==> reference_noted(#[trigger] es[k], es[k + 1], sym, ts, bid, ask, rank, times[k]),
        (sym as int) < es[0].symbols@.len(),
        es[0].sym(sym).bbo == Some(o),
        es[0].sym(sym).basis_n == 0,
        2 * i64::MIN < (o.bid + o.ask) - (bid + ask) < 2 * i64::MAX,
        n <= times.len(),
        n < u32::MAX,
    ensures
        (sym as int) < es[n as int].symbols@.len(),
        es[n as int].sym(sym).bbo == Some(o),
        es[n as int].sym(sym).basis_n == n,
        n > 0 ==> es[n as int].sym(sym).basis == div_round((o.bid + o.ask) - (bid + ask), 2),
        n > 0 ==> (es[n as int].sym(sym).ref_bbo matches Some(r) && r.bid == bid && r.ask == ask),
    decreases n,
{
    if n > 0 {
        lemma_still(es, sym, ts, bid, ask, rank, times, o, (n - 1) as nat);
        lemma_half_in_range((o.bid + o.ask) - (bid + ask));
        assert(reference_noted(es[n - 1], es[n - 1 + 1], sym, ts, bid, ask, rank, times[n - 1]));
        let alpha = es[n - 1].cfg.reference.basis_alpha;
        assert(0 * alpha == 0);
        lemma_div_round_exact(0, ONE as int);
    }
}

} // verus!
