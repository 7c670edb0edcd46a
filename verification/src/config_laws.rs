//! How parameters come about: a symbol's own block goes before the one for all symbols, and that before
//! the base; each name stands for the parameter that bears it; and what is refused breaks a rule.

use vstd::prelude::*;
use crate::config::{is_applied, is_merged, types_ok, OverrideBlock, Overrides, OverrideValue, ParamError, StrategyParams};
use crate::table::entry_value;
use crate::units::{clamp64, ONE};

verus! {

/// What a block gives for a number: whole numbers and decimals alike.
pub open spec fn gives_number(ov: Option<OverrideBlock>, key: Seq<char>) -> Option<int> {
    match ov {
        Some(b) => match entry_value(b@, key) {
            Some(OverrideValue::Int(n)) => Some(clamp64(n * ONE)),
            Some(OverrideValue::Num(x)) => Some(x as int),
            _ => None,
        },
        None => None,
    }
}

pub open spec fn gives_integer(ov: Option<OverrideBlock>, key: Seq<char>) -> Option<int> {
    match ov {
        Some(b) => match entry_value(b@, key) {
            Some(OverrideValue::Int(n)) => Some(n as int),
            _ => None,
        },
        None => None,
    }
}

pub open spec fn gives_text(ov: Option<OverrideBlock>, key: Seq<char>) -> Option<Seq<char>> {
    match ov {
        Some(b) => match entry_value(b@, key) {
            Some(OverrideValue::Text(s)) => Some(s@),
            _ => None,
        },
        None => None,
    }
}

/// The first of the two that is there, or else the last resort.
pub open spec fn first_of<T>(a: Option<T>, b: Option<T>, c: T) -> T {
    match a {
        Some(x) => x,
        None => match b {
            Some(y) => y,
            None => c,
        },
    }
}

/// Every parameter of a symbol is what its own block gives under the parameter's name, or else what the
/// block for all symbols gives, or else that of the base.
pub proof fn law_own_block_goes_first(ov: Overrides, base: StrategyParams, symbol: Seq<char>, r: Result<StrategyParams, ParamError>)
    requires
        ov.is_resolved(base, symbol, r),
        r is Ok,
    ensures
        ({
            let (own, all) = (ov.block(symbol), ov.block("*"@));
            let p = r->Ok_0;
            &&& p.min_spread_bps == first_of(gives_number(own, "min_spread_bps"@), gives_number(all, "min_spread_bps"@), base.min_spread_bps as int)
            &&& p.min_edge_bps == first_of(gives_number(own, "min_edge_bps"@), gives_number(all, "min_edge_bps"@), base.min_edge_bps as int)
            &&& p.order_notional_usd == first_of(gives_number(own, "order_notional_usd"@), gives_number(all, "order_notional_usd"@), base.order_notional_usd as int)
            &&& p.max_position_notional_usd == first_of(gives_number(own, "max_position_notional_usd"@), gives_number(all, "max_position_notional_usd"@), base.max_position_notional_usd as int)
            &&& p.inventory_skew_bps == first_of(gives_number(own, "inventory_skew_bps"@), gives_number(all, "inventory_skew_bps"@), base.inventory_skew_bps as int)
            &&& p.max_vol_bps == first_of(gives_number(own, "max_vol_bps"@), gives_number(all, "max_vol_bps"@), base.max_vol_bps as int)
            &&& p.toxicity_imbalance == first_of(gives_number(own, "toxicity_imbalance"@), gives_number(all, "toxicity_imbalance"@), base.toxicity_imbalance as int)
            &&& p.imbalance_weight == first_of(gives_number(own, "imbalance_weight"@), gives_number(all, "imbalance_weight"@), base.imbalance_weight as int)
            &&& p.flow_weight == first_of(gives_number(own, "flow_weight"@), gives_number(all, "flow_weight"@), base.flow_weight as int)
            &&& p.ref_weight == first_of(gives_number(own, "ref_weight"@), gives_number(all, "ref_weight"@), base.ref_weight as int)
            &&& p.ref_block_bps == first_of(gives_number(own, "ref_block_bps"@), gives_number(all, "ref_block_bps"@), base.ref_block_bps as int)
            &&& p.stop_loss_bps == first_of(gives_number(own, "stop_loss_bps"@), gives_number(all, "stop_loss_bps"@), base.stop_loss_bps as int)
            &&& p.inside_spread_frac == first_of(gives_number(own, "inside_spread_frac"@), gives_number(all, "inside_spread_frac"@), base.inside_spread_frac as int)
            &&& p.min_requote_ms == first_of(gives_integer(own, "min_requote_ms"@), gives_integer(all, "min_requote_ms"@), base.min_requote_ms as int)
            &&& p.max_order_age_ms == first_of(gives_integer(own, "max_order_age_ms"@), gives_integer(all, "max_order_age_ms"@), base.max_order_age_ms as int)
            &&& p.max_hold_secs == first_of(gives_integer(own, "max_hold_secs"@), gives_integer(all, "max_hold_secs"@), base.max_hold_secs as int)
            &&& p.toxicity_window_secs == first_of(gives_integer(own, "toxicity_window_secs"@), gives_integer(all, "toxicity_window_secs"@), base.toxicity_window_secs as int)
            &&& p.max_lean_ticks == first_of(gives_integer(own, "max_lean_ticks"@), gives_integer(all, "max_lean_ticks"@), base.max_lean_ticks as int)
            &&& p.quote_mode@ == first_of(gives_text(own, "quote_mode"@), gives_text(all, "quote_mode"@), base.quote_mode@)
            &&& p.stale_exit_mode@ == first_of(gives_text(own, "stale_exit_mode"@), gives_text(all, "stale_exit_mode"@), base.stale_exit_mode@)
            &&& p.stop_loss_mode@ == first_of(gives_text(own, "stop_loss_mode"@), gives_text(all, "stop_loss_mode"@), base.stop_loss_mode@)
        }),
{
    let m = choose|m: Result<StrategyParams, ParamError>|
        #[trigger] is_applied(base, ov.block("*"@), m) && match m {
            Err(e) => r == Err::<StrategyParams, ParamError>(e),
            Ok(p) => is_applied(p, ov.block(symbol), r),
        };
    lemma_applied(base, ov.block("*"@), m);
    lemma_applied(m->Ok_0, ov.block(symbol), r);
}

proof fn lemma_applied(p: StrategyParams, block: Option<OverrideBlock>, r: Result<StrategyParams, ParamError>)
    requires
        is_applied(p, block, r),
        r is Ok,
    ensures
        ({
            let q = r->Ok_0;
            &&& q.min_spread_bps == first_of(gives_number(block, "min_spread_bps"@), None, p.min_spread_bps as int)
            &&& q.min_edge_bps == first_of(gives_number(block, "min_edge_bps"@), None, p.min_edge_bps as int)
            &&& q.order_notional_usd == first_of(gives_number(block, "order_notional_usd"@), None, p.order_notional_usd as int)
            &&& q.max_position_notional_usd == first_of(gives_number(block, "max_position_notional_usd"@), None, p.max_position_notional_usd as int)
            &&& q.inventory_skew_bps == first_of(gives_number(block, "inventory_skew_bps"@), None, p.inventory_skew_bps as int)
            &&& q.max_vol_bps == first_of(gives_number(block, "max_vol_bps"@), None, p.max_vol_bps as int)
            &&& q.toxicity_imbalance == first_of(gives_number(block, "toxicity_imbalance"@), None, p.toxicity_imbalance as int)
            &&& q.imbalance_weight == first_of(gives_number(block, "imbalance_weight"@), None, p.imbalance_weight as int)
            &&& q.flow_weight == first_of(gives_number(block, "flow_weight"@), None, p.flow_weight as int)
            &&& q.ref_weight == first_of(gives_number(block, "ref_weight"@), None, p.ref_weight as int)
            &&& q.ref_block_bps == first_of(gives_number(block, "ref_block_bps"@), None, p.ref_block_bps as int)
            &&& q.stop_loss_bps == first_of(gives_number(block, "stop_loss_bps"@), None, p.stop_loss_bps as int)
            &&& q.inside_spread_frac == first_of(gives_number(block, "inside_spread_frac"@), None, p.inside_spread_frac as int)
            &&& q.min_requote_ms == first_of(gives_integer(block, "min_requote_ms"@), None, p.min_requote_ms as int)
            &&& q.max_order_age_ms == first_of(gives_integer(block, "max_order_age_ms"@), None, p.max_order_age_ms as int)
            &&& q.max_hold_secs == first_of(gives_integer(block, "max_hold_secs"@), None, p.max_hold_secs as int)
            &&& q.toxicity_window_secs == first_of(gives_integer(block, "toxicity_window_secs"@), None, p.toxicity_window_secs as int)
            &&& q.max_lean_ticks == first_of(gives_integer(block, "max_lean_ticks"@), None, p.max_lean_ticks as int)
            &&& q.quote_mode@ == first_of(gives_text(block, "quote_mode"@), None, p.quote_mode@)
            &&& q.stale_exit_mode@ == first_of(gives_text(block, "stale_exit_mode"@), None, p.stale_exit_mode@)
            &&& q.stop_loss_mode@ == first_of(gives_text(block, "stop_loss_mode"@), None, p.stop_loss_mode@)
        }),
{
}

/// Parameters are refused for a rule that they break.
pub proof fn law_refused_for_cause(p: StrategyParams)
    ensures
        match p.fault() {
            None => true,
            Some(ParamError::MinSpread) => p.min_spread_bps <= 0,
            Some(ParamError::OrderNotional) => p.order_notional_usd <= 0,
            Some(ParamError::MaxPosition) => p.max_position_notional_usd < p.order_notional_usd,
            Some(ParamError::QuoteMode) => p.quote_mode@ != "join"@ && p.quote_mode@ != "improve"@ && p.quote_mode@ != "inside"@,
            Some(ParamError::StaleExitMode) => p.stale_exit_mode@ != "improve"@ && p.stale_exit_mode@ != "taker"@,
            Some(ParamError::ToxicityWindow) => !(1 <= p.toxicity_window_secs <= 300),
            Some(ParamError::ImbalanceWeight) => !(0 <= p.imbalance_weight <= ONE),
            Some(ParamError::FlowWeight) => !(0 <= p.flow_weight <= ONE),
            Some(ParamError::RefWeight) => !(0 <= p.ref_weight <= 2 * ONE),
            Some(ParamError::RefBlock) => p.ref_block_bps < 0,
            Some(ParamError::MaxLeanTicks) => p.max_lean_ticks < 0,
            Some(ParamError::StopLoss) => p.stop_loss_bps < 0,
            Some(ParamError::StopLossMode) => p.stop_loss_mode@ != "taker"@ && p.stop_loss_mode@ != "improve"@,
            Some(ParamError::BadOverrideTypes) => false,
        },
{
}

/// A block with a value of the wrong kind under the name of a parameter is refused, whatever else it
/// holds, and no other is refused for that.
pub proof fn law_wrong_kind_is_refused(p: StrategyParams, ov: OverrideBlock, r: Result<StrategyParams, ParamError>)
    requires
        is_applied(p, Some(ov), r),
    ensures
        ({
            let at = |key: Seq<char>| entry_value(ov@, key);
            let number = |v: Option<OverrideValue>| v is None || (v->0 is Int) || (v->0 is Num);
            let fits = number(at("min_spread_bps"@)) && number(at("order_notional_usd"@)) && number(at("flow_weight"@)) && number(at("stop_loss_bps"@));
            !fits ==> r == Err::<StrategyParams, ParamError>(ParamError::BadOverrideTypes)
        }),
        r == Err::<StrategyParams, ParamError>(ParamError::BadOverrideTypes) ==> !types_ok(ov@),
{
    if types_ok(ov@) && r is Err {
        let e = r->Err_0;
        let q = choose|q: StrategyParams| #[trigger] is_merged(p, ov@, q) && q.fault() == Some(e);
        law_refused_for_cause(q);
    }
}

} // verus!
