//! Online symbol filter: decides which instruments are worth quoting right now and
//! ranks them. The offline pair scorer computes the same score over history
//! and can pin/blacklist symbols through the symbol lists.

use vstd::prelude::*;
use crate::config::{EligibilityCfg, SymbolLists};
use crate::stats::SymbolStats;
use crate::table::{contains_text, entry_value, find_entry, has_text};
use crate::types::SymbolMeta;
use crate::units::{clamp64, div_round, isqrt, lemma_div_round_monotone, lemma_isqrt_monotone, lemma_mul_bound, lemma_sqrt_floor, max64, max_int, min_int, mul64, round_div, sat64, sqrt_floor, ONE, ONE128, TWO63};

verus! {

#[derive(Clone, Copy, Debug)]
pub struct Verdict {
    pub eligible: bool,
    pub reason: &'static str,
    pub score: i64,
}

/// What the core has measured about its own fills on this symbol so far.
#[derive(Clone, Copy, Debug, PartialEq, Eq, Structural)]
pub struct Experience {
    /// EWMA of the markout after our fills (bps, negative = adverse selection).
    pub markout_bps: i64,
    pub markout_n: u32,
    /// What `markout_n` times the figure falls short of the sum of the markouts, while it is their
    /// mean.
    pub markout_rest: i64,
}

impl Default for Experience {
    fn default() -> (r: Experience)
        ensures
            r == (Experience { markout_bps: 0, markout_n: 0, markout_rest: 0 }),
    {
        Experience { markout_bps: 0, markout_n: 0, markout_rest: 0 }
    }
}

/// `n / d` as a score, for a divisor of either sign; a divisor of zero gives the largest score.
pub open spec fn ratio_of(n: int, d: int) -> int {
    if d > 0 {
        clamp64(div_round(n, d))
    } else if d < 0 {
        clamp64(div_round(-n, -d))
    } else {
        i64::MAX as int
    }
}

pub open spec fn spec_score(spread_med_bps: int, trades_per_min: int, vol_bps: int) -> int {
    if spread_med_bps <= 0 || trades_per_min <= 0 {
        0
    } else {
        ratio_of(spread_med_bps * sqrt_floor(trades_per_min * ONE), ONE + vol_bps)
    }
}

/// Expected capture rate proxy: wider spread and more trades are good, volatility is bad.
pub fn score(spread_med_bps: i64, trades_per_min: i64, vol_bps: i64) -> (r: i64)
    ensures
        r == spec_score(spread_med_bps as int, trades_per_min as int, vol_bps as int),
{
    if spread_med_bps <= 0 || trades_per_min <= 0 {
        return 0;
    }
    let root: i128 = isqrt((trades_per_min as i128) * ONE128);
    proof {
        lemma_mul_bound(spread_med_bps as int, root as int, TWO63 as int, TWO63 as int);
    }
    let n: i128 = (spread_med_bps as i128) * root;
    let d: i128 = ONE128 + vol_bps as i128;
    if d > 0 {
        sat64(round_div(n, d))
    } else if d < 0 {
        sat64(round_div(-n, -d))
    } else {
        i64::MAX
    }
}

/// A wider spread or more trades never lower the score, and a higher volatility never raises it.
pub proof fn law_score_order(s1: i64, s2: i64, t1: i64, t2: i64, v1: i64, v2: i64)
    requires
        s1 <= s2,
        t1 <= t2,
        v1 >= v2 >= 0,
    ensures
        0 <= spec_score(s1 as int, t1 as int, v1 as int) <= spec_score(s2 as int, t2 as int, v2 as int),
{
    if s2 > 0 && t2 > 0 {
        lemma_sqrt_floor(t2 * ONE);
        let b = sqrt_floor(t2 * ONE);
        let d2 = ONE + v2;
        assert(s2 * b >= 0) by (nonlinear_arith)
            requires
                s2 > 0,
                b >= 0,
        ;
        lemma_div_round_monotone(0, s2 * b, d2);
        crate::units::lemma_div_round_exact(0, d2);
        assert(0int * d2 == 0);
        if s1 > 0 && t1 > 0 {
            lemma_sqrt_floor(t1 * ONE);
            let a = sqrt_floor(t1 * ONE);
            let d1 = ONE + v1;
            lemma_isqrt_monotone(a, b, t1 * ONE, t2 * ONE);
            assert(0 <= s1 * a <= s2 * b) by (nonlinear_arith)
                requires
                    0 < s1 <= s2,
                    0 <= a <= b,
            ;
            lemma_div_round_monotone(s1 * a, s2 * b, d1);
            lemma_div_round_monotone(0, s1 * a, d1);
            crate::units::lemma_div_round_exact(0, d1);
            assert(0int * d1 == 0);
            let n = s2 * b;
            assert((2 * n + d1) / (2 * d1) <= (2 * n + d2) / (2 * d2)) by {
                lemma_smaller_divisor(n, d1, d2);
            }
        }
    }
}

/// Dividing by less gives no less, after rounding.
proof fn lemma_smaller_divisor(n: int, d1: int, d2: int)
    requires
        n >= 0,
        d1 >= d2 > 0,
    ensures
        (2 * n + d1) / (2 * d1) <= (2 * n + d2) / (2 * d2),
{
    let q = (2 * n + d1) / (2 * d1);
    assert(q * (2 * d1) <= 2 * n + d1) by (nonlinear_arith)
        requires
            d1 > 0,
            q == (2 * n + d1) / (2 * d1),
    ;
    assert(q >= 0) by (nonlinear_arith)
        requires
            d1 > 0,
            n >= 0,
            q == (2 * n + d1) / (2 * d1),
    ;
    assert(q * (2 * d2) <= 2 * n + d2) by (nonlinear_arith)
        requires
            q * (2 * d1) <= 2 * n + d1,
            q >= 0,
            n >= 0,
            d1 >= d2 > 0,
    ;
    assert(q <= (2 * n + d2) / (2 * d2)) by (nonlinear_arith)
        requires
            q * (2 * d2) <= 2 * n + d2,
            d2 > 0,
    ;
}

pub open spec fn is_experienced(cfg: EligibilityCfg, exp: Experience) -> bool {
    cfg.min_markout_samples > 0 && exp.markout_n >= cfg.min_markout_samples
}

/// The rule that keeps the symbol out, if any.
pub open spec fn refusal(
    cfg: EligibilityCfg,
    meta: SymbolMeta,
    stats: SymbolStats,
    lists: SymbolLists,
    min_spread_bps: int,
    now_ms: int,
    exp: Experience,
) -> Option<&'static str> {
    if has_text(cfg.deny@, meta.name@) || has_text(lists.deny@, meta.name@) {
        Some("denied")
    } else if cfg.allow@.len() > 0 && !has_text(cfg.allow@, meta.name@) {
        Some("not_in_allow")
    } else if lists.allow@.len() > 0 && !has_text(lists.allow@, meta.name@) {
        Some("not_in_allow")
    } else if stats.last_bbo_ts == 0 || now_ms - stats.last_bbo_ts > 5000 {
        Some("stale_book")
    } else if cfg.min_turnover_24h_usd > 0 && meta.turnover_24h > 0 && meta.turnover_24h < cfg.min_turnover_24h_usd {
        Some("low_turnover")
    } else if stats.samples@.len() < max_int(cfg.window_secs as int / 4, 10) {
        Some("warming_up")
    } else if stats.spread_med_bps < max_int(cfg.min_spread_med_bps as int, min_spread_bps) {
        Some("spread_low")
    } else if stats.trades_per_min < cfg.min_trades_per_min {
        Some("few_trades")
    } else if stats.vol_bps > 0 && cfg.min_spread_vol_ratio > 0 && stats.spread_med_bps * ONE < cfg.min_spread_vol_ratio * stats.vol_bps {
        Some("vol_high")
    } else if is_experienced(cfg, exp) && cfg.max_adverse_markout_bps > 0 && exp.markout_bps < -cfg.max_adverse_markout_bps {
        Some("toxic_flow")
    } else {
        None
    }
}

/// The online score, averaged with the offline one where there is one.
pub open spec fn blended_score(stats: SymbolStats, lists: SymbolLists, name: Seq<char>) -> int {
    let online = spec_score(stats.spread_med_bps as int, stats.trades_per_min as int, stats.vol_bps as int);
    match entry_value(lists.scores@, name) {
        Some(off) => if off > 0 {
            div_round(online + off, 2)
        } else {
            online
        },
        None => online,
    }
}

/// Markout after our fills as a share of the half spread, within half of one.
pub open spec fn experience_share(spread_med_bps: int, markout_bps: int) -> int {
    let r = div_round(markout_bps * (2 * ONE), max_int(spread_med_bps, 2 * ONE));
    max_int(-50_000_000, min_int(r, 50_000_000))
}

/// Realized experience beats the quoted spread: a symbol that pays us after fills ranks higher,
/// one that runs over us ranks lower.
pub open spec fn final_score(cfg: EligibilityCfg, stats: SymbolStats, lists: SymbolLists, name: Seq<char>, exp: Experience) -> int {
    let s = blended_score(stats, lists, name);
    if is_experienced(cfg, exp) {
        clamp64(div_round(s * (ONE + experience_share(stats.spread_med_bps as int, exp.markout_bps as int)), ONE as int))
    } else {
        s
    }
}

/// The verdict on a symbol: refused by the first rule that keeps it out, else ranked by its score.
pub open spec fn judged(
    cfg: EligibilityCfg,
    meta: SymbolMeta,
    stats: SymbolStats,
    lists: SymbolLists,
    min_spread_bps: int,
    now_ms: int,
    exp: Experience,
) -> Verdict {
    match refusal(cfg, meta, stats, lists, min_spread_bps, now_ms, exp) {
        Some(reason) => Verdict { eligible: false, reason, score: 0 },
        None => Verdict { eligible: true, reason: "ok", score: final_score(cfg, stats, lists, meta.name@, exp) as i64 },
    }
}

fn refuse(reason: &'static str) -> (r: Verdict)
    ensures
        r == (Verdict { eligible: false, reason, score: 0 }),
{
    Verdict { eligible: false, reason, score: 0 }
}

fn blend(stats: &SymbolStats, lists: &SymbolLists, name: &str) -> (r: i64)
    ensures
        r == blended_score(*stats, *lists, name@),
{
    let online: i64 = score(stats.spread_med_bps, stats.trades_per_min, stats.vol_bps);
    match find_entry(&lists.scores, name) {
        Some(i) => {
            let off: i64 = lists.scores[i].1;
            if off > 0 {
                round_div(online as i128 + off as i128, 2) as i64
            } else {
                online
            }
        },
        None => online,
    }
}

pub fn evaluate(
    cfg: &EligibilityCfg,
    meta: &SymbolMeta,
    stats: &SymbolStats,
    lists: &SymbolLists,
    min_spread_bps: i64,
    now_ms: i64,
    exp: Experience,
) -> (r: Verdict)
    ensures
        r == judged(*cfg, *meta, *stats, *lists, min_spread_bps as int, now_ms as int, exp),
{
    let name: &str = meta.name.as_str();
    if contains_text(&cfg.deny, name) || contains_text(&lists.deny, name) {
        return refuse("denied");
    }
    if cfg.allow.len() > 0 && !contains_text(&cfg.allow, name) {
        return refuse("not_in_allow");
    }
    if lists.allow.len() > 0 && !contains_text(&lists.allow, name) {
        return refuse("not_in_allow");
    }
    if stats.last_bbo_ts == 0 || now_ms as i128 - stats.last_bbo_ts as i128 > 5000 {
        return refuse("stale_book");
    }
    if cfg.min_turnover_24h_usd > 0 && meta.turnover_24h > 0 && meta.turnover_24h < cfg.min_turnover_24h_usd {
        return refuse("low_turnover");
    }
    let quarter: u32 = cfg.window_secs / 4;
    let need: usize = if quarter >= 10 {
        quarter as usize
    } else {
        10
    };
    if stats.samples_in_window() < need {
        return refuse("warming_up");
    }
    if stats.spread_med_bps < max64(cfg.min_spread_med_bps, min_spread_bps) {
        return refuse("spread_low");
    }
    if stats.trades_per_min < cfg.min_trades_per_min {
        return refuse("few_trades");
    }
    if stats.vol_bps > 0 && cfg.min_spread_vol_ratio > 0 && (stats.spread_med_bps as i128) * ONE128 < mul64(
        cfg.min_spread_vol_ratio,
        stats.vol_bps,
    ) {
        return refuse("vol_high");
    }
    let experienced: bool = cfg.min_markout_samples > 0 && exp.markout_n >= cfg.min_markout_samples;
    if experienced && cfg.max_adverse_markout_bps > 0 && exp.markout_bps < -cfg.max_adverse_markout_bps {
        return refuse("toxic_flow");
    }
    let s: i64 = blend(stats, lists, name);
    if !experienced {
        return Verdict { eligible: true, reason: "ok", score: s };
    }
    let share: i128 = round_div((exp.markout_bps as i128) * (2 * ONE128), max64(stats.spread_med_bps, 2 * ONE) as i128);
    let kept: i128 = if share > 50_000_000 {
        50_000_000
    } else if share < -50_000_000 {
        -50_000_000
    } else {
        share
    };
    proof {
        lemma_mul_bound(s as int, ONE + kept, TWO63 as int, 2 * ONE);
    }
    Verdict { eligible: true, reason: "ok", score: sat64(round_div((s as i128) * (ONE128 + kept), ONE128)) }
}

/// A denied symbol is refused whatever its market looks like, and where there is an allow list
/// only its symbols are eligible.
pub proof fn law_lists_decide(
    cfg: EligibilityCfg,
    meta: SymbolMeta,
    stats: SymbolStats,
    lists: SymbolLists,
    min_spread_bps: int,
    now_ms: int,
    exp: Experience,
)
    ensures
        has_text(cfg.deny@, meta.name@) || has_text(lists.deny@, meta.name@) ==> refusal(
            cfg,
            meta,
            stats,
            lists,
            min_spread_bps,
            now_ms,
            exp,
        ) == Some("denied"),
        refusal(cfg, meta, stats, lists, min_spread_bps, now_ms, exp) is None ==> (cfg.allow@.len() == 0 || has_text(
            cfg.allow@,
            meta.name@,
        )) && (lists.allow@.len() == 0 || has_text(lists.allow@, meta.name@)),
{
}

/// An eligible symbol has a fresh book and a median spread of at least what the strategy needs.
pub proof fn law_eligible_is_tradable(
    cfg: EligibilityCfg,
    meta: SymbolMeta,
    stats: SymbolStats,
    lists: SymbolLists,
    min_spread_bps: int,
    now_ms: int,
    exp: Experience,
)
    requires
        refusal(cfg, meta, stats, lists, min_spread_bps, now_ms, exp) is None,
    ensures
        now_ms - stats.last_bbo_ts <= 5000,
        stats.spread_med_bps >= min_spread_bps,
        stats.spread_med_bps >= cfg.min_spread_med_bps,
        stats.trades_per_min >= cfg.min_trades_per_min,
        stats.samples@.len() >= 10,
{
}

} // verus!
