//! How symbols are ranked: by spread, trades and calm, by what is known of them from before, and by
//! what they have paid us.

use vstd::prelude::*;
use crate::config::{EligibilityCfg, SymbolLists};
use crate::eligibility::{blended_score, experience_share, final_score, judged, law_score_order, spec_score, Experience};
use crate::stats::SymbolStats;
use crate::table::{entry_value, has_text};
use crate::types::SymbolMeta;
use crate::units::{abs_int, div_round, law_rounds_to_nearest, lemma_div_round_exact, lemma_div_round_monotone, lemma_isqrt_unique, lemma_sqrt_floor, max_int, ONE};

verus! {

/// The score is the median spread times the square root of the trades per minute, over one plus the
/// volatility, to the nearest last digit; without a spread or without trades it is nothing.
pub proof fn law_score_value(spread_bps: i64, trades_per_min: i64, vol_bps: i64, root: int)
    requires
        vol_bps >= 0,
        root >= 0,
        root * root <= trades_per_min * ONE < (root + 1) * (root + 1),
    ensures
        ({
            let s = spec_score(spread_bps as int, trades_per_min as int, vol_bps as int);
            &&& spread_bps <= 0 || trades_per_min <= 0 ==> s == 0
            &&& spread_bps > 0 && trades_per_min > 0 && s < i64::MAX ==> 2 * abs_int(s * (ONE + vol_bps) - spread_bps * root) <= ONE + vol_bps
        }),
{
    if spread_bps > 0 && trades_per_min > 0 {
        lemma_sqrt_floor(trades_per_min * ONE);
        lemma_isqrt_unique(root, crate::units::sqrt_floor(trades_per_min * ONE), trades_per_min * ONE);
        let n = spread_bps * root;
        assert(n >= 0) by (nonlinear_arith)
            requires
                n == spread_bps * root,
                spread_bps > 0,
                root >= 0,
        ;
        law_rounds_to_nearest(n, ONE + vol_bps);
    }
}

/// A score from before counts as much as the present one: the two are averaged, so that the better
/// either is the better is their blend, and it lies between them.
pub proof fn law_scores_blend(stats: SymbolStats, a: SymbolLists, b: SymbolLists, name: Seq<char>)
    requires
        stats.vol_bps >= 0,
    ensures
        ({
            let online = spec_score(stats.spread_med_bps as int, stats.trades_per_min as int, stats.vol_bps as int);
            &&& entry_value(a.scores@, name) is None ==> blended_score(stats, a, name) == online
            &&& entry_value(a.scores@, name) matches Some(x) ==> {
                &&& x <= 0 ==> blended_score(stats, a, name) == online
                &&& x > 0 ==> 0 <= 2 * blended_score(stats, a, name) - (online + x) <= 1
                &&& x > 0 && (entry_value(b.scores@, name) matches Some(y) && x <= y) ==> blended_score(stats, a, name) <= blended_score(stats, b, name)
            }
        }),
{
    let online = spec_score(stats.spread_med_bps as int, stats.trades_per_min as int, stats.vol_bps as int);
    law_score_order(stats.spread_med_bps, stats.spread_med_bps, stats.trades_per_min, stats.trades_per_min, stats.vol_bps, stats.vol_bps);
    if let Some(x) = entry_value(a.scores@, name) {
        if x > 0 {
            law_rounds_to_nearest(online + x, 2);
            if let Some(y) = entry_value(b.scores@, name) {
                if x <= y {
                    lemma_div_round_monotone(online + x, online + y, 2);
                }
            }
        }
    }
}

proof fn lemma_blend_positive(stats: SymbolStats, lists: SymbolLists, name: Seq<char>)
    requires
        stats.vol_bps >= 0,
    ensures
        0 <= blended_score(stats, lists, name) <= i64::MAX,
{
    law_scores_blend(stats, lists, lists, name);
    law_score_order(stats.spread_med_bps, stats.spread_med_bps, stats.trades_per_min, stats.trades_per_min, stats.vol_bps, stats.vol_bps);
}

/// A larger markout is no smaller share, and the share has the sign of the markout.
proof fn lemma_share(spread_bps: int, m1: int, m2: int)
    requires
        m1 <= m2,
    ensures
        experience_share(spread_bps, m1) <= experience_share(spread_bps, m2),
        m1 >= 0 ==> 0 <= experience_share(spread_bps, m1) <= 50_000_000,
        m1 <= 0 ==> -50_000_000 <= experience_share(spread_bps, m1) <= 0,
{
    let d = max_int(spread_bps, 2 * ONE);
    assert(m1 * (2 * ONE) == 200_000_000 * m1 && m2 * (2 * ONE) == 200_000_000 * m2) by (nonlinear_arith);
    lemma_div_round_monotone(m1 * (2 * ONE), m2 * (2 * ONE), d);
    law_rounds_to_nearest(m1 * (2 * ONE), d);
}

/// `s` times one plus a share, to the nearest.
proof fn lemma_weighted(s: int, k: int, l: int)
    requires
        s >= 0,
        -50_000_000 <= k <= l,
    ensures
        div_round(s * (ONE + k), ONE as int) <= div_round(s * (ONE + l), ONE as int),
        k >= 0 ==> s <= div_round(s * (ONE + k), ONE as int),
        k <= 0 ==> 0 <= div_round(s * (ONE + k), ONE as int) <= s,
{
    assert(s * (ONE + k) <= s * (ONE + l)) by (nonlinear_arith)
        requires
            s >= 0,
            k <= l,
    ;
    lemma_div_round_monotone(s * (ONE + k), s * (ONE + l), ONE as int);
    lemma_div_round_exact(s, ONE as int);
    assert(k >= 0 ==> s * ONE <= s * (ONE + k)) by (nonlinear_arith)
        requires
            s >= 0,
    ;
    assert(k <= 0 ==> 0 <= s * (ONE + k) <= s * ONE) by (nonlinear_arith)
        requires
            s >= 0,
            k >= -50_000_000,
    ;
    if k >= 0 {
        lemma_div_round_monotone(s * ONE, s * (ONE + k), ONE as int);
    }
    if k <= 0 {
        lemma_div_round_monotone(s * (ONE + k), s * ONE, ONE as int);
        law_rounds_to_nearest(s * (ONE + k), ONE as int);
    }
}

/// Of two experiences with the same symbol the one that paid us more ranks it no lower. One that paid
/// ranks it no lower than its market does, one that cost us no higher, and one that did neither
/// exactly there.
pub proof fn law_experience_ranks(
    cfg: EligibilityCfg,
    meta: SymbolMeta,
    stats: SymbolStats,
    lists: SymbolLists,
    min_spread_bps: int,
    now_ms: int,
    e1: Experience,
    e2: Experience,
)
    requires
        stats.vol_bps >= 0,
        0 < cfg.min_markout_samples <= e1.markout_n,
        cfg.min_markout_samples <= e2.markout_n,
        e1.markout_bps <= e2.markout_bps,
        judged(cfg, meta, stats, lists, min_spread_bps, now_ms, e1).eligible,
        judged(cfg, meta, stats, lists, min_spread_bps, now_ms, e2).eligible,
    ensures
        ({
            let (a, b) = (
                judged(cfg, meta, stats, lists, min_spread_bps, now_ms, e1).score,
                judged(cfg, meta, stats, lists, min_spread_bps, now_ms, e2).score,
            );
            let s = blended_score(stats, lists, meta.name@);
            &&& 0 <= a <= b
            &&& e1.markout_bps >= 0 ==> a >= s
            &&& e1.markout_bps <= 0 ==> a <= s
        }),
{
    let s = blended_score(stats, lists, meta.name@);
    let sp = stats.spread_med_bps as int;
    lemma_blend_positive(stats, lists, meta.name@);
    lemma_share(sp, e1.markout_bps as int, e2.markout_bps as int);
    lemma_share(sp, e2.markout_bps as int, e2.markout_bps as int);
    lemma_weighted(s, experience_share(sp, e1.markout_bps as int), experience_share(sp, e2.markout_bps as int));
    lemma_weighted(s, experience_share(sp, e2.markout_bps as int), experience_share(sp, e2.markout_bps as int));
}

/// How far: by twice the markout over the median spread (two basis points where that is less), to the
/// nearest last digit, and by half of it at most either way. Too few fills count for nothing.
pub proof fn law_experience_value(cfg: EligibilityCfg, stats: SymbolStats, lists: SymbolLists, name: Seq<char>, e: Experience)
    requires
        stats.vol_bps >= 0,
    ensures
        ({
            let s = blended_score(stats, lists, name);
            let d = if stats.spread_med_bps > 2 * ONE { stats.spread_med_bps as int } else { 2 * ONE };
            let r = final_score(cfg, stats, lists, name, e);
            let m = e.markout_bps as int;
            let known = cfg.min_markout_samples > 0 && e.markout_n >= cfg.min_markout_samples;
            &&& !known ==> r == s
            &&& known && 4 * abs_int(m) <= d && r < i64::MAX ==> 2 * abs_int((r * ONE) * d - (s * ONE) * (d + 2 * m)) <= (s + ONE) * d
            &&& known && 4 * m >= d && r < i64::MAX ==> 2 * abs_int(2 * r - 3 * s) <= 2
            &&& known && 4 * m <= -d ==> 2 * abs_int(2 * r - s) <= 2
        }),
{
    let s = blended_score(stats, lists, name);
    let d = max_int(stats.spread_med_bps as int, 2 * ONE);
    let m = e.markout_bps as int;
    let raw = div_round(m * (2 * ONE), d);
    let k = experience_share(stats.spread_med_bps as int, m);
    lemma_blend_positive(stats, lists, name);
    law_rounds_to_nearest(m * (2 * ONE), d);
    lemma_half(m, d);
    let r = div_round(s * (ONE + k), ONE as int);
    law_rounds_to_nearest(s * (ONE + k), ONE as int);
    lemma_share(stats.spread_med_bps as int, m, m);
    lemma_weighted(s, k, k);
    if 4 * abs_int(m) <= d {
        assert(k == raw);
        assert(r >= 0);
        let e1 = s * (ONE + k) - r * ONE;
        let e2 = m * (2 * ONE) - k * d;
        // r * ONE * d == s * (ONE * d + k * d) - e1 * d
        assert((r * ONE) * d - (s * ONE) * (d + 2 * m) == -(s * e2) - e1 * d) by (nonlinear_arith)
            requires
                e1 == s * (ONE + k) - r * ONE,
                e2 == m * (2 * ONE) - k * d,
        ;
        assert(2 * abs_int(s * e2) <= s * d) by (nonlinear_arith)
            requires
                s >= 0,
                -d <= 2 * e2 <= d,
        ;
        assert(2 * abs_int(e1 * d) <= ONE * d) by (nonlinear_arith)
            requires
                d > 0,
                -ONE <= 2 * e1 <= ONE,
        ;
        assert((s + ONE) * d == s * d + ONE * d) by (nonlinear_arith);
    }
    if 4 * m >= d {
        assert(k == 50_000_000);
        assert(s * (ONE + k) == 150_000_000 * s) by (nonlinear_arith)
            requires
                k == 50_000_000,
        ;
        assert(r * ONE == 100_000_000 * r) by (nonlinear_arith);
    }
    if 4 * m <= -d {
        assert(k == -50_000_000);
        assert(s * (ONE + k) == 50_000_000 * s) by (nonlinear_arith)
            requires
                k == -50_000_000,
        ;
        assert(r * ONE == 100_000_000 * r) by (nonlinear_arith);
    }
}

/// Within a quarter of the divisor the share is not cut, beyond it is.
proof fn lemma_half(m: int, d: int)
    requires
        d > 0,
    ensures
        4 * abs_int(m) <= d ==> -50_000_000 <= div_round(m * (2 * ONE), d) <= 50_000_000,
        4 * m >= d ==> div_round(m * (2 * ONE), d) >= 50_000_000,
        4 * m <= -d ==> div_round(m * (2 * ONE), d) <= -50_000_000,
{
    assert(m * (2 * ONE) == 200_000_000 * m) by (nonlinear_arith);
    lemma_div_round_exact(50_000_000, d);
    lemma_div_round_exact(-50_000_000, d);
    if m * (2 * ONE) <= 50_000_000 * d {
        lemma_div_round_monotone(m * (2 * ONE), 50_000_000 * d, d);
    }
    if m * (2 * ONE) >= 50_000_000 * d {
        lemma_div_round_monotone(50_000_000 * d, m * (2 * ONE), d);
    }
    if m * (2 * ONE) <= -50_000_000 * d {
        lemma_div_round_monotone(m * (2 * ONE), -50_000_000 * d, d);
    }
    if m * (2 * ONE) >= -50_000_000 * d {
        lemma_div_round_monotone(-50_000_000 * d, m * (2 * ONE), d);
    }
}

/// A symbol is eligible exactly when it is listed, its book is fresh, it turns over enough, it has been
/// watched long enough, its spread, its trades and its calm suffice, and it has not run over us.
pub proof fn law_eligible_exactly(
    cfg: EligibilityCfg,
    meta: SymbolMeta,
    stats: SymbolStats,
    lists: SymbolLists,
    min_spread_bps: int,
    now_ms: int,
    e: Experience,
)
    ensures
        ({
            let v = judged(cfg, meta, stats, lists, min_spread_bps, now_ms, e);
            let name = meta.name@;
            let listed = !has_text(cfg.deny@, name) && !has_text(lists.deny@, name) && (cfg.allow@.len() == 0 || has_text(cfg.allow@, name)) && (
            lists.allow@.len() == 0 || has_text(lists.allow@, name));
            let fresh = stats.last_bbo_ts != 0 && now_ms <= stats.last_bbo_ts + 5_000;
            let liquid = cfg.min_turnover_24h_usd <= 0 || meta.turnover_24h <= 0 || meta.turnover_24h >= cfg.min_turnover_24h_usd;
            let watched = stats.samples@.len() >= 10 && 4 * stats.samples@.len() + 3 >= cfg.window_secs;
            let wide = stats.spread_med_bps >= cfg.min_spread_med_bps && stats.spread_med_bps >= min_spread_bps;
            let busy = stats.trades_per_min >= cfg.min_trades_per_min;
            let calm = stats.vol_bps <= 0 || cfg.min_spread_vol_ratio <= 0 || stats.spread_med_bps * ONE >= cfg.min_spread_vol_ratio * stats.vol_bps;
            let kind = cfg.min_markout_samples == 0 || e.markout_n < cfg.min_markout_samples || cfg.max_adverse_markout_bps <= 0 || e.markout_bps
                + cfg.max_adverse_markout_bps >= 0;
            &&& v.eligible <==> listed && fresh && liquid && watched && wide && busy && calm && kind
            &&& v.eligible ==> v.reason == "ok"
            &&& !v.eligible ==> v.score == 0
        }),
{
}

/// A better market does not make an eligible symbol ineligible: a wider spread, more trades, less
/// volatility, a fresher book, more samples.
pub proof fn law_better_market_stays_eligible(
    cfg: EligibilityCfg,
    meta: SymbolMeta,
    a: SymbolStats,
    b: SymbolStats,
    lists: SymbolLists,
    min_spread_bps: int,
    now_ms: int,
    e: Experience,
)
    requires
        judged(cfg, meta, a, lists, min_spread_bps, now_ms, e).eligible,
        b.spread_med_bps >= a.spread_med_bps,
        b.trades_per_min >= a.trades_per_min,
        b.vol_bps <= a.vol_bps,
        a.last_bbo_ts != 0,
        b.last_bbo_ts != 0,
        b.last_bbo_ts >= a.last_bbo_ts,
        b.samples@.len() >= a.samples@.len(),
    ensures
        judged(cfg, meta, b, lists, min_spread_bps, now_ms, e).eligible,
{
    let k = cfg.min_spread_vol_ratio as int;
    assert(k > 0 ==> k * b.vol_bps <= k * a.vol_bps) by (nonlinear_arith)
        requires
            b.vol_bps <= a.vol_bps,
    ;
}

/// The reason for a refusal is one that holds.
pub proof fn law_refused_for_cause(
    cfg: EligibilityCfg,
    meta: SymbolMeta,
    stats: SymbolStats,
    lists: SymbolLists,
    min_spread_bps: int,
    now_ms: int,
    e: Experience,
)
    requires
        !judged(cfg, meta, stats, lists, min_spread_bps, now_ms, e).eligible,
    ensures
        ({
            let r = judged(cfg, meta, stats, lists, min_spread_bps, now_ms, e).reason;
            let name = meta.name@;
            ||| r == "denied" && (has_text(cfg.deny@, name) || has_text(lists.deny@, name))
            ||| r == "not_in_allow" && (cfg.allow@.len() > 0 && !has_text(cfg.allow@, name) || lists.allow@.len() > 0 && !has_text(lists.allow@, name))
            ||| r == "stale_book" && (stats.last_bbo_ts == 0 || now_ms - stats.last_bbo_ts > 5_000)
            ||| r == "low_turnover" && 0 < meta.turnover_24h < cfg.min_turnover_24h_usd
            ||| r == "warming_up" && (stats.samples@.len() < 10 || 4 * (stats.samples@.len() + 1) <= cfg.window_secs)
            ||| r == "spread_low" && (stats.spread_med_bps < cfg.min_spread_med_bps || stats.spread_med_bps < min_spread_bps)
            ||| r == "few_trades" && stats.trades_per_min < cfg.min_trades_per_min
            ||| r == "vol_high" && stats.vol_bps > 0 && stats.spread_med_bps * ONE < cfg.min_spread_vol_ratio * stats.vol_bps
            ||| r == "toxic_flow" && cfg.min_markout_samples <= e.markout_n && e.markout_bps + cfg.max_adverse_markout_bps < 0
        }),
{
}

} // verus!
