//! Portfolio-level risk limits. Evaluated once per tick, cheap.

use vstd::prelude::*;
use crate::config::RiskCfg;
use crate::portfolio::Portfolio;
use crate::units::{mul64, ONE};

verus! {

#[derive(Clone, Copy, Debug)]
pub struct RiskState {
    /// New exposure (entries) allowed.
    pub allow_entries: bool,
    /// Kill switch tripped: cancel everything and exit positions.
    pub halted: bool,
    pub reason: &'static str,
    pub gross_exposure: i128,
    pub daily_pnl: i128,
    pub open_positions: usize,
}

impl Default for RiskState {
    fn default() -> (r: RiskState)
        ensures
            r == (RiskState {
                allow_entries: false,
                halted: false,
                reason: "",
                gross_exposure: 0,
                daily_pnl: 0,
                open_positions: 0,
            }),
    {
        RiskState { allow_entries: false, halted: false, reason: "", gross_exposure: 0, daily_pnl: 0, open_positions: 0 }
    }
}

/// The loss of the day has reached the limit (0 = no limit).
pub open spec fn lost_too_much(cfg: RiskCfg, daily: int) -> bool {
    cfg.max_daily_loss_usd > 0 && daily <= -(cfg.max_daily_loss_usd * ONE)
}

pub open spec fn exposed_too_much(cfg: RiskCfg, gross: int) -> bool {
    cfg.max_gross_exposure_usd > 0 && gross >= cfg.max_gross_exposure_usd * ONE
}

pub open spec fn too_many_open(cfg: RiskCfg, open: int) -> bool {
    cfg.max_open_positions > 0 && open >= cfg.max_open_positions
}

/// The verdict for exposure `gross`, profit of the day `daily` and `open` open positions.
pub open spec fn verdict(cfg: RiskCfg, gross: int, daily: int, open: int, latched: bool) -> RiskState {
    let halted = latched || lost_too_much(cfg, daily);
    RiskState {
        allow_entries: !halted && !exposed_too_much(cfg, gross) && !too_many_open(cfg, open),
        halted,
        reason: if latched {
            "halted_daily_loss"
        } else if lost_too_much(cfg, daily) {
            "daily_loss_limit"
        } else if exposed_too_much(cfg, gross) {
            "gross_exposure_limit"
        } else if too_many_open(cfg, open) {
            "max_open_positions"
        } else {
            "ok"
        },
        gross_exposure: gross as i128,
        daily_pnl: daily as i128,
        open_positions: open as usize,
    }
}

pub fn evaluate(cfg: &RiskCfg, pf: &Portfolio, halted_latched: bool) -> (r: RiskState)
    ensures
        r == verdict(*cfg, pf.spec_gross_exposure(), pf.spec_daily_pnl(), pf.spec_open_positions(), halted_latched),
{
    let gross: i128 = pf.gross_exposure();
    let daily: i128 = pf.daily_pnl();
    let open: usize = pf.open_positions();
    let mut st = RiskState {
        allow_entries: true,
        halted: halted_latched,
        reason: "ok",
        gross_exposure: gross,
        daily_pnl: daily,
        open_positions: open,
    };
    if halted_latched {
        st.allow_entries = false;
        st.reason = "halted_daily_loss";
        return st;
    }
    if cfg.max_daily_loss_usd > 0 && daily <= -mul64(cfg.max_daily_loss_usd, ONE) {
        st.allow_entries = false;
        st.halted = true;
        st.reason = "daily_loss_limit";
        return st;
    }
    if cfg.max_gross_exposure_usd > 0 && gross >= mul64(cfg.max_gross_exposure_usd, ONE) {
        st.allow_entries = false;
        st.reason = "gross_exposure_limit";
    } else if cfg.max_open_positions > 0 && open >= cfg.max_open_positions {
        st.allow_entries = false;
        st.reason = "max_open_positions";
    }
    st
}

/// Once halted, halted: no later state of the portfolio lifts the latch, and a halt always blocks
/// entries.
pub proof fn law_halt_latches(cfg: RiskCfg, gross: int, daily: int, open: int, latched: bool)
    ensures
        latched ==> verdict(cfg, gross, daily, open, latched).halted,
        verdict(cfg, gross, daily, open, latched).halted ==> !verdict(cfg, gross, daily, open, latched).allow_entries,
        !latched && verdict(cfg, gross, daily, open, latched).halted ==> lost_too_much(cfg, daily),
{
}

/// Entries are allowed exactly while no limit is reached, and the reason is "ok" exactly then.
pub proof fn law_entries_allowed(cfg: RiskCfg, gross: int, daily: int, open: int, latched: bool)
    ensures
        verdict(cfg, gross, daily, open, latched).allow_entries <==> !latched && !lost_too_much(cfg, daily) && !exposed_too_much(cfg, gross)
            && !too_many_open(cfg, open),
        verdict(cfg, gross, daily, open, latched).allow_entries ==> verdict(cfg, gross, daily, open, latched).reason == "ok",
{
}

/// A worse day, more exposure or more open positions never bring back the leave to enter, nor lift a halt;
/// the reason names the limit that was reached.
pub proof fn law_worse_is_no_better(cfg: RiskCfg, g1: int, g2: int, d1: int, d2: int, o1: int, o2: int, latched: bool)
    requires
        g1 <= g2,
        d1 >= d2,
        o1 <= o2,
    ensures
        ({
            let (a, b) = (verdict(cfg, g1, d1, o1, latched), verdict(cfg, g2, d2, o2, latched));
            &&& b.allow_entries ==> a.allow_entries
            &&& a.halted ==> b.halted
        }),
{
}

/// What each limit means; zero is no limit.
pub proof fn law_limits(cfg: RiskCfg, gross: int, daily: int, open: int)
    ensures
        ({
            let v = verdict(cfg, gross, daily, open, false);
            let lost = cfg.max_daily_loss_usd > 0 && daily + cfg.max_daily_loss_usd * ONE <= 0;
            let full = cfg.max_gross_exposure_usd > 0 && gross >= cfg.max_gross_exposure_usd * ONE;
            let many = cfg.max_open_positions > 0 && open >= cfg.max_open_positions;
            &&& v.halted <==> lost
            &&& v.allow_entries <==> !lost && !full && !many
            &&& lost ==> v.reason == "daily_loss_limit"
            &&& !lost && full ==> v.reason == "gross_exposure_limit"
            &&& !lost && !full && many ==> v.reason == "max_open_positions"
            &&& !lost && !full && !many ==> v.reason == "ok"
            &&& verdict(cfg, gross, daily, open, true).reason == "halted_daily_loss"
            &&& verdict(cfg, gross, daily, open, true).halted && !verdict(cfg, gross, daily, open, true).allow_entries
        }),
{
}

} // verus!
