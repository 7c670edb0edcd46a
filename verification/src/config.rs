//! Configuration: base settings, per-symbol parameter overrides written by the optimizer,
//! and the allow/deny symbol lists written by the pair scorer. All three are hot-reloaded.
//!
//! Amounts, rates, weights and basis points are fixed-point decimals (see `units`).

use vstd::prelude::*;
use crate::table::{entry_value, find_entry};
use crate::types::str_eq;
use crate::units::{clamp64, mul64, sat64, ONE};

verus! {

/// Name of the overrides file beside the base configuration.
pub const OVERRIDES_FILE: &'static str = "overrides.json";

/// Name of the symbol lists file beside the base configuration.
pub const SYMBOLS_FILE: &'static str = "symbols.json";

#[derive(Clone, Debug)]
pub struct ExchangeCfg {
    pub category: String,
    pub rest_url: String,
    pub ws_url: String,
    pub orderbook_depth: u32,
    pub topics_per_connection: usize,
    pub args_per_subscribe: usize,
    pub quote_coin: String,
    pub symbols: Vec<String>,
    pub max_symbols: usize,
    pub tickers_refresh_secs: u64,
}

impl ExchangeCfg {
    /// The values that stand where a setting is left out.
    pub open spec fn is_default(&self) -> bool {
        &&& self.category@ == "linear"@
        &&& self.rest_url@ == "https://api.bybit.com"@
        &&& self.ws_url@ == "wss://stream.bybit.com/v5/public/linear"@
        &&& self.orderbook_depth == 1
        &&& self.topics_per_connection == 200
        &&& self.args_per_subscribe == 50
        &&& self.quote_coin@ == "USDT"@
        &&& self.symbols@.len() == 0
        &&& self.max_symbols == 0
        &&& self.tickers_refresh_secs == 300
    }
}

pub fn default_exchange() -> (r: ExchangeCfg)
    ensures
        r.is_default(),
{
    ExchangeCfg {
        category: "linear".to_owned(),
        rest_url: "https://api.bybit.com".to_owned(),
        ws_url: "wss://stream.bybit.com/v5/public/linear".to_owned(),
        orderbook_depth: 1,
        topics_per_connection: 200,
        args_per_subscribe: 50,
        quote_coin: "USDT".to_owned(),
        symbols: Vec::new(),
        max_symbols: 0,
        tickers_refresh_secs: 300,
    }
}

#[derive(Clone, Debug)]
pub struct FeesCfg {
    pub maker_rate: i64,
    pub taker_rate: i64,
}

impl FeesCfg {
    /// The values that stand where a setting is left out.
    pub open spec fn is_default(&self) -> bool {
        &&& self.maker_rate == 20_000
        &&& self.taker_rate == 55_000
    }
}

pub fn default_fees() -> (r: FeesCfg)
    ensures
        r.is_default(),
{
    FeesCfg {
        maker_rate: 20_000,
        taker_rate: 55_000,
    }
}

#[derive(Clone, Debug)]
pub struct PaperCfg {
    pub latency_ms: i64,
    pub initial_equity_usd: i64,
}

impl PaperCfg {
    /// The values that stand where a setting is left out.
    pub open spec fn is_default(&self) -> bool {
        &&& self.latency_ms == 60
        &&& self.initial_equity_usd == 1_000_000_000_000
    }
}

pub fn default_paper() -> (r: PaperCfg)
    ensures
        r.is_default(),
{
    PaperCfg {
        latency_ms: 60,
        initial_equity_usd: 1_000_000_000_000,
    }
}

#[derive(Clone, Debug)]
pub struct EligibilityCfg {
    pub min_turnover_24h_usd: i64,
    pub min_spread_med_bps: i64,
    pub min_trades_per_min: i64,
    pub min_spread_vol_ratio: i64,
    pub window_secs: u32,
    pub max_active_symbols: usize,
    pub refresh_secs: u64,
    pub allow: Vec<String>,
    pub deny: Vec<String>,
    /// Horizon for the online markout the core measures after its own entries, seconds.
    pub markout_horizon_secs: u32,
    /// Exclude a symbol whose average entry markout is worse than this (bps, 0 = off).
    pub max_adverse_markout_bps: i64,
    pub min_markout_samples: u32,
}

impl EligibilityCfg {
    /// The values that stand where a setting is left out.
    pub open spec fn is_default(&self) -> bool {
        &&& self.min_turnover_24h_usd == 200_000_000_000_000
        &&& self.min_spread_med_bps == 1_000_000_000
        &&& self.min_trades_per_min == 300_000_000
        &&& self.min_spread_vol_ratio == 80_000_000
        &&& self.window_secs == 120
        &&& self.max_active_symbols == 40
        &&& self.refresh_secs == 15
        &&& self.allow@.len() == 0
        &&& self.deny@.len() == 0
        &&& self.markout_horizon_secs == 5
        &&& self.max_adverse_markout_bps == 300_000_000
        &&& self.min_markout_samples == 20
    }
}

pub fn default_elig() -> (r: EligibilityCfg)
    ensures
        r.is_default(),
{
    EligibilityCfg {
        min_turnover_24h_usd: 200_000_000_000_000,
        min_spread_med_bps: 1_000_000_000,
        min_trades_per_min: 300_000_000,
        min_spread_vol_ratio: 80_000_000,
        window_secs: 120,
        max_active_symbols: 40,
        refresh_secs: 15,
        allow: Vec::new(),
        deny: Vec::new(),
        markout_horizon_secs: 5,
        max_adverse_markout_bps: 300_000_000,
        min_markout_samples: 20,
    }
}

/// Leading-venue price feeds. A cheap perp on one venue follows the same coin on a liquid
/// venue with a lag; the deviation of (reference mid + basis) from our mid is the
/// strongest short-term signal we have.
#[derive(Clone, Debug)]
pub struct ReferenceCfg {
    pub enabled: bool,
    /// In priority order: "binance_futures", "binance_spot", "bybit_spot".
    pub providers: Vec<String>,
    /// A reference quote older than this is ignored, ms.
    pub stale_ms: i64,
    pub symbols_per_connection: usize,
    /// EWMA factor for the basis (our mid - reference mid), per reference update.
    pub basis_alpha: i64,
}

impl ReferenceCfg {
    /// The values that stand where a setting is left out.
    pub open spec fn is_default(&self) -> bool {
        &&& self.enabled
        &&& self.providers@.len() == 2
        &&& self.providers@[0]@ == "binance_futures"@
        &&& self.providers@[1]@ == "bybit_spot"@
        &&& self.stale_ms == 3_000
        &&& self.symbols_per_connection == 100
        &&& self.basis_alpha == 2_000_000
    }
}

pub fn default_reference() -> (r: ReferenceCfg)
    ensures
        r.is_default(),
{
    let mut providers: Vec<String> = Vec::new();
    providers.push("binance_futures".to_owned());
    providers.push("bybit_spot".to_owned());
    ReferenceCfg {
        enabled: true,
        providers,
        stale_ms: 3_000,
        symbols_per_connection: 100,
        basis_alpha: 2_000_000,
    }
}

#[derive(Clone, Debug)]
pub struct RiskCfg {
    pub max_gross_exposure_usd: i64,
    pub max_daily_loss_usd: i64,
    pub max_open_positions: usize,
}

impl RiskCfg {
    /// The values that stand where a setting is left out.
    pub open spec fn is_default(&self) -> bool {
        &&& self.max_gross_exposure_usd == 300_000_000_000
        &&& self.max_daily_loss_usd == 20_000_000_000
        &&& self.max_open_positions == 30
    }
}

pub fn default_risk() -> (r: RiskCfg)
    ensures
        r.is_default(),
{
    RiskCfg {
        max_gross_exposure_usd: 300_000_000_000,
        max_daily_loss_usd: 20_000_000_000,
        max_open_positions: 30,
    }
}

#[derive(Clone, Debug)]
pub struct RecordingCfg {
    pub enabled: bool,
    pub bbo_min_interval_ms: i64,
    pub symbols: String,
}

impl RecordingCfg {
    /// The values that stand where a setting is left out.
    pub open spec fn is_default(&self) -> bool {
        &&& self.enabled
        &&& self.bbo_min_interval_ms == 250
        &&& self.symbols@ == "all"@
    }
}

pub fn default_rec() -> (r: RecordingCfg)
    ensures
        r.is_default(),
{
    RecordingCfg {
        enabled: true,
        bbo_min_interval_ms: 250,
        symbols: "all".to_owned(),
    }
}

#[derive(Clone, Debug)]
pub struct StorageCfg {
    pub db_path: String,
    pub md_dir: String,
    pub symbol_stats_interval_secs: u64,
    pub pnl_snapshot_interval_secs: u64,
}

impl StorageCfg {
    /// The values that stand where a setting is left out.
    pub open spec fn is_default(&self) -> bool {
        &&& self.db_path@ == "data/spr.db"@
        &&& self.md_dir@ == "data/md"@
        &&& self.symbol_stats_interval_secs == 30
        &&& self.pnl_snapshot_interval_secs == 5
    }
}

pub fn default_storage() -> (r: StorageCfg)
    ensures
        r.is_default(),
{
    StorageCfg {
        db_path: "data/spr.db".to_owned(),
        md_dir: "data/md".to_owned(),
        symbol_stats_interval_secs: 30,
        pnl_snapshot_interval_secs: 5,
    }
}

/// The tunable part of the strategy. This is what the optimizer searches over and
/// what per-symbol overrides can replace field by field.
#[derive(Clone, Debug)]
pub struct StrategyParams {
    pub min_spread_bps: i64,
    pub min_edge_bps: i64,
    pub quote_mode: String,
    pub order_notional_usd: i64,
    pub max_position_notional_usd: i64,
    pub inventory_skew_bps: i64,
    pub min_requote_ms: i64,
    pub max_order_age_ms: i64,
    pub max_hold_secs: i64,
    pub stale_exit_mode: String,
    pub max_vol_bps: i64,
    pub toxicity_imbalance: i64,
    pub toxicity_window_secs: u32,
    /// Fair-value model: how much of the half spread the top-of-book size imbalance shifts
    /// the fair price (0 = ignore the book).
    pub imbalance_weight: i64,
    /// Same for the taker-flow imbalance over `toxicity_window_secs`.
    pub flow_weight: i64,
    /// Share of the reference-venue deviation (reference mid + basis - our mid) added to fair value.
    pub ref_weight: i64,
    /// Block a side outright when the reference says the price is already this many bps away (0 = off).
    pub ref_block_bps: i64,
    /// Give up a side when fair value pushes its quote deeper than this many ticks behind the best level.
    pub max_lean_ticks: i64,
    /// Exit at once when the mid moved this many bps against the position (0 = off).
    pub stop_loss_bps: i64,
    /// "taker" (cross the spread) or "improve" (one tick inside) for stop-loss exits.
    pub stop_loss_mode: String,
    /// In "inside" mode each quote keeps at least this share of the half spread from fair value.
    pub inside_spread_frac: i64,
}

/// Why a set of parameters is refused.
#[derive(Clone, Copy, Debug, PartialEq, Eq, Structural)]
pub enum ParamError {
    BadOverrideTypes,
    MinSpread,
    OrderNotional,
    MaxPosition,
    QuoteMode,
    StaleExitMode,
    ToxicityWindow,
    ImbalanceWeight,
    FlowWeight,
    RefWeight,
    RefBlock,
    MaxLeanTicks,
    StopLoss,
    StopLossMode,
}

impl ParamError {
    pub open spec fn spec_message(self) -> &'static str {
        match self {
            ParamError::BadOverrideTypes => "bad override types",
            ParamError::MinSpread => "min_spread_bps must be > 0",
            ParamError::OrderNotional => "order_notional_usd must be > 0",
            ParamError::MaxPosition => "max_position_notional_usd must be >= order_notional_usd",
            ParamError::QuoteMode => "quote_mode must be join|improve|inside",
            ParamError::StaleExitMode => "stale_exit_mode must be improve|taker",
            ParamError::ToxicityWindow => "toxicity_window_secs in 1..300",
            ParamError::ImbalanceWeight => "imbalance_weight in 0..1",
            ParamError::FlowWeight => "flow_weight in 0..1",
            ParamError::RefWeight => "ref_weight in 0..2",
            ParamError::RefBlock => "ref_block_bps must be >= 0",
            ParamError::MaxLeanTicks => "max_lean_ticks must be >= 0",
            ParamError::StopLoss => "stop_loss_bps must be >= 0",
            ParamError::StopLossMode => "stop_loss_mode must be taker|improve",
        }
    }

    pub fn message(self) -> (r: &'static str)
        ensures
            r == self.spec_message(),
    {
        match self {
            ParamError::BadOverrideTypes => "bad override types",
            ParamError::MinSpread => "min_spread_bps must be > 0",
            ParamError::OrderNotional => "order_notional_usd must be > 0",
            ParamError::MaxPosition => "max_position_notional_usd must be >= order_notional_usd",
            ParamError::QuoteMode => "quote_mode must be join|improve|inside",
            ParamError::StaleExitMode => "stale_exit_mode must be improve|taker",
            ParamError::ToxicityWindow => "toxicity_window_secs in 1..300",
            ParamError::ImbalanceWeight => "imbalance_weight in 0..1",
            ParamError::FlowWeight => "flow_weight in 0..1",
            ParamError::RefWeight => "ref_weight in 0..2",
            ParamError::RefBlock => "ref_block_bps must be >= 0",
            ParamError::MaxLeanTicks => "max_lean_ticks must be >= 0",
            ParamError::StopLoss => "stop_loss_bps must be >= 0",
            ParamError::StopLossMode => "stop_loss_mode must be taker|improve",
        }
    }
}

/// A value in an override block.
#[derive(Clone, Debug)]
pub enum OverrideValue {
    /// A JSON integer.
    Int(i64),
    /// Any other JSON number, as a decimal.
    Num(i64),
    Text(String),
    /// A value of a type that no parameter has.
    Other,
}

pub type OverrideBlock = Vec<(String, OverrideValue)>;

impl OverrideValue {
    /// Same value.
    pub fn copy(&self) -> (r: OverrideValue)
        ensures
            r == *self,
    {
        match self {
            OverrideValue::Int(n) => OverrideValue::Int(*n),
            OverrideValue::Num(x) => OverrideValue::Num(*x),
            OverrideValue::Text(t) => OverrideValue::Text(t.clone()),
            OverrideValue::Other => OverrideValue::Other,
        }
    }
}

pub open spec fn num_ok(v: Option<OverrideValue>) -> bool {
    v matches Some(x) ==> x is Int || x is Num
}

pub open spec fn int_ok(v: Option<OverrideValue>) -> bool {
    v matches Some(x) ==> x is Int
}

pub open spec fn u32_ok(v: Option<OverrideValue>) -> bool {
    v matches Some(x) ==> (x matches OverrideValue::Int(n) && 0 <= n <= u32::MAX)
}

pub open spec fn text_ok(v: Option<OverrideValue>) -> bool {
    v matches Some(x) ==> x is Text
}

/// The decimal that an override gives, or the present one.
pub open spec fn num_or(v: Option<OverrideValue>, cur: i64) -> int {
    match v {
        Some(OverrideValue::Int(n)) => clamp64(n * ONE),
        Some(OverrideValue::Num(x)) => x as int,
        _ => cur as int,
    }
}

pub open spec fn int_or(v: Option<OverrideValue>, cur: int) -> int {
    match v {
        Some(OverrideValue::Int(n)) => n as int,
        _ => cur,
    }
}

pub open spec fn text_or(v: Option<OverrideValue>, cur: Seq<char>) -> Seq<char> {
    match v {
        Some(OverrideValue::Text(s)) => s@,
        _ => cur,
    }
}

/// Every parameter that the block names has a value of its type.
pub open spec fn types_ok(ov: Seq<(String, OverrideValue)>) -> bool {
    &&& num_ok(entry_value(ov, "min_spread_bps"@))
    &&& num_ok(entry_value(ov, "min_edge_bps"@))
    &&& text_ok(entry_value(ov, "quote_mode"@))
    &&& num_ok(entry_value(ov, "order_notional_usd"@))
    &&& num_ok(entry_value(ov, "max_position_notional_usd"@))
    &&& num_ok(entry_value(ov, "inventory_skew_bps"@))
    &&& int_ok(entry_value(ov, "min_requote_ms"@))
    &&& int_ok(entry_value(ov, "max_order_age_ms"@))
    &&& int_ok(entry_value(ov, "max_hold_secs"@))
    &&& text_ok(entry_value(ov, "stale_exit_mode"@))
    &&& num_ok(entry_value(ov, "max_vol_bps"@))
    &&& num_ok(entry_value(ov, "toxicity_imbalance"@))
    &&& u32_ok(entry_value(ov, "toxicity_window_secs"@))
    &&& num_ok(entry_value(ov, "imbalance_weight"@))
    &&& num_ok(entry_value(ov, "flow_weight"@))
    &&& num_ok(entry_value(ov, "ref_weight"@))
    &&& num_ok(entry_value(ov, "ref_block_bps"@))
    &&& int_ok(entry_value(ov, "max_lean_ticks"@))
    &&& num_ok(entry_value(ov, "stop_loss_bps"@))
    &&& text_ok(entry_value(ov, "stop_loss_mode"@))
    &&& num_ok(entry_value(ov, "inside_spread_frac"@))
}

/// The same parameters, text by its characters.
pub open spec fn same_params(a: StrategyParams, b: StrategyParams) -> bool {
    &&& a.min_spread_bps == b.min_spread_bps
    &&& a.min_edge_bps == b.min_edge_bps
    &&& a.quote_mode@ == b.quote_mode@
    &&& a.order_notional_usd == b.order_notional_usd
    &&& a.max_position_notional_usd == b.max_position_notional_usd
    &&& a.inventory_skew_bps == b.inventory_skew_bps
    &&& a.min_requote_ms == b.min_requote_ms
    &&& a.max_order_age_ms == b.max_order_age_ms
    &&& a.max_hold_secs == b.max_hold_secs
    &&& a.stale_exit_mode@ == b.stale_exit_mode@
    &&& a.max_vol_bps == b.max_vol_bps
    &&& a.toxicity_imbalance == b.toxicity_imbalance
    &&& a.toxicity_window_secs == b.toxicity_window_secs
    &&& a.imbalance_weight == b.imbalance_weight
    &&& a.flow_weight == b.flow_weight
    &&& a.ref_weight == b.ref_weight
    &&& a.ref_block_bps == b.ref_block_bps
    &&& a.max_lean_ticks == b.max_lean_ticks
    &&& a.stop_loss_bps == b.stop_loss_bps
    &&& a.stop_loss_mode@ == b.stop_loss_mode@
    &&& a.inside_spread_frac == b.inside_spread_frac
}

/// `p` is `base` with the parameters that the block names replaced.
pub open spec fn is_merged(base: StrategyParams, ov: Seq<(String, OverrideValue)>, p: StrategyParams) -> bool {
    &&& p.min_spread_bps == num_or(entry_value(ov, "min_spread_bps"@), base.min_spread_bps)
    &&& p.min_edge_bps == num_or(entry_value(ov, "min_edge_bps"@), base.min_edge_bps)
    &&& p.quote_mode@ == text_or(entry_value(ov, "quote_mode"@), base.quote_mode@)
    &&& p.order_notional_usd == num_or(entry_value(ov, "order_notional_usd"@), base.order_notional_usd)
    &&& p.max_position_notional_usd == num_or(entry_value(ov, "max_position_notional_usd"@), base.max_position_notional_usd)
    &&& p.inventory_skew_bps == num_or(entry_value(ov, "inventory_skew_bps"@), base.inventory_skew_bps)
    &&& p.min_requote_ms == int_or(entry_value(ov, "min_requote_ms"@), base.min_requote_ms as int)
    &&& p.max_order_age_ms == int_or(entry_value(ov, "max_order_age_ms"@), base.max_order_age_ms as int)
    &&& p.max_hold_secs == int_or(entry_value(ov, "max_hold_secs"@), base.max_hold_secs as int)
    &&& p.stale_exit_mode@ == text_or(entry_value(ov, "stale_exit_mode"@), base.stale_exit_mode@)
    &&& p.max_vol_bps == num_or(entry_value(ov, "max_vol_bps"@), base.max_vol_bps)
    &&& p.toxicity_imbalance == num_or(entry_value(ov, "toxicity_imbalance"@), base.toxicity_imbalance)
    &&& p.toxicity_window_secs == int_or(entry_value(ov, "toxicity_window_secs"@), base.toxicity_window_secs as int)
    &&& p.imbalance_weight == num_or(entry_value(ov, "imbalance_weight"@), base.imbalance_weight)
    &&& p.flow_weight == num_or(entry_value(ov, "flow_weight"@), base.flow_weight)
    &&& p.ref_weight == num_or(entry_value(ov, "ref_weight"@), base.ref_weight)
    &&& p.ref_block_bps == num_or(entry_value(ov, "ref_block_bps"@), base.ref_block_bps)
    &&& p.max_lean_ticks == int_or(entry_value(ov, "max_lean_ticks"@), base.max_lean_ticks as int)
    &&& p.stop_loss_bps == num_or(entry_value(ov, "stop_loss_bps"@), base.stop_loss_bps)
    &&& p.stop_loss_mode@ == text_or(entry_value(ov, "stop_loss_mode"@), base.stop_loss_mode@)
    &&& p.inside_spread_frac == num_or(entry_value(ov, "inside_spread_frac"@), base.inside_spread_frac)
}

fn value_of<'a>(ov: &'a OverrideBlock, key: &str) -> (r: Option<&'a OverrideValue>)
    ensures
        match r {
            Some(v) => entry_value(ov@, key@) == Some(*v),
            None => entry_value(ov@, key@) is None,
        },
{
    match find_entry(ov, key) {
        Some(i) => Some(&ov[i].1),
        None => None,
    }
}

fn num_param(ov: &OverrideBlock, key: &str, cur: i64) -> (r: Option<i64>)
    ensures
        r is Some <==> num_ok(entry_value(ov@, key@)),
        r matches Some(x) ==> x == num_or(entry_value(ov@, key@), cur),
{
    match value_of(ov, key) {
        None => Some(cur),
        Some(OverrideValue::Int(n)) => Some(sat64(mul64(*n, ONE))),
        Some(OverrideValue::Num(x)) => Some(*x),
        Some(_) => None,
    }
}

fn int_param(ov: &OverrideBlock, key: &str, cur: i64) -> (r: Option<i64>)
    ensures
        r is Some <==> int_ok(entry_value(ov@, key@)),
        r matches Some(x) ==> x == int_or(entry_value(ov@, key@), cur as int),
{
    match value_of(ov, key) {
        None => Some(cur),
        Some(OverrideValue::Int(n)) => Some(*n),
        Some(_) => None,
    }
}

fn u32_param(ov: &OverrideBlock, key: &str, cur: u32) -> (r: Option<u32>)
    ensures
        r is Some <==> u32_ok(entry_value(ov@, key@)),
        r matches Some(x) ==> x == int_or(entry_value(ov@, key@), cur as int),
{
    match value_of(ov, key) {
        None => Some(cur),
        Some(OverrideValue::Int(n)) => if 0 <= *n && *n <= 0xffff_ffff {
            Some(*n as u32)
        } else {
            None
        },
        Some(_) => None,
    }
}

fn text_param(ov: &OverrideBlock, key: &str, cur: &String) -> (r: Option<String>)
    ensures
        r is Some <==> text_ok(entry_value(ov@, key@)),
        r matches Some(x) ==> x@ == text_or(entry_value(ov@, key@), cur@),
{
    match value_of(ov, key) {
        None => Some(cur.clone()),
        Some(OverrideValue::Text(s)) => Some(s.clone()),
        Some(_) => None,
    }
}

impl Default for StrategyParams {
    fn default() -> (r: StrategyParams)
        ensures
            r.is_default(),
    {
        StrategyParams {
            min_spread_bps: 1_000_000_000,
            min_edge_bps: 300_000_000,
            quote_mode: "join".to_owned(),
            order_notional_usd: 10_000_000_000,
            max_position_notional_usd: 30_000_000_000,
            inventory_skew_bps: 400_000_000,
            min_requote_ms: 300,
            max_order_age_ms: 15_000,
            max_hold_secs: 120,
            stale_exit_mode: "improve".to_owned(),
            max_vol_bps: 2_500_000_000,
            toxicity_imbalance: 60_000_000,
            toxicity_window_secs: 10,
            imbalance_weight: 50_000_000,
            flow_weight: 30_000_000,
            ref_weight: 100_000_000,
            ref_block_bps: 400_000_000,
            max_lean_ticks: 3,
            stop_loss_bps: 1_200_000_000,
            stop_loss_mode: "taker".to_owned(),
            inside_spread_frac: 80_000_000,
        }
    }
}

impl StrategyParams {
    pub open spec fn is_default(&self) -> bool {
        &&& self.min_spread_bps == 1_000_000_000
        &&& self.min_edge_bps == 300_000_000
        &&& self.quote_mode@ == "join"@
        &&& self.order_notional_usd == 10_000_000_000
        &&& self.max_position_notional_usd == 30_000_000_000
        &&& self.inventory_skew_bps == 400_000_000
        &&& self.min_requote_ms == 300
        &&& self.max_order_age_ms == 15_000
        &&& self.max_hold_secs == 120
        &&& self.stale_exit_mode@ == "improve"@
        &&& self.max_vol_bps == 2_500_000_000
        &&& self.toxicity_imbalance == 60_000_000
        &&& self.toxicity_window_secs == 10
        &&& self.imbalance_weight == 50_000_000
        &&& self.flow_weight == 30_000_000
        &&& self.ref_weight == 100_000_000
        &&& self.ref_block_bps == 400_000_000
        &&& self.max_lean_ticks == 3
        &&& self.stop_loss_bps == 1_200_000_000
        &&& self.stop_loss_mode@ == "taker"@
        &&& self.inside_spread_frac == 80_000_000
    }

    /// Same value, field by field.
    pub fn copy(&self) -> (r: StrategyParams)
        ensures
            r == *self,
    {
        StrategyParams {
            min_spread_bps: self.min_spread_bps,
            min_edge_bps: self.min_edge_bps,
            quote_mode: self.quote_mode.clone(),
            order_notional_usd: self.order_notional_usd,
            max_position_notional_usd: self.max_position_notional_usd,
            inventory_skew_bps: self.inventory_skew_bps,
            min_requote_ms: self.min_requote_ms,
            max_order_age_ms: self.max_order_age_ms,
            max_hold_secs: self.max_hold_secs,
            stale_exit_mode: self.stale_exit_mode.clone(),
            max_vol_bps: self.max_vol_bps,
            toxicity_imbalance: self.toxicity_imbalance,
            toxicity_window_secs: self.toxicity_window_secs,
            imbalance_weight: self.imbalance_weight,
            flow_weight: self.flow_weight,
            ref_weight: self.ref_weight,
            ref_block_bps: self.ref_block_bps,
            max_lean_ticks: self.max_lean_ticks,
            stop_loss_bps: self.stop_loss_bps,
            stop_loss_mode: self.stop_loss_mode.clone(),
            inside_spread_frac: self.inside_spread_frac,
        }
    }

    /// The first rule that the parameters break.
    pub open spec fn fault(&self) -> Option<ParamError> {
        if self.min_spread_bps <= 0 {
            Some(ParamError::MinSpread)
        } else if self.order_notional_usd <= 0 {
            Some(ParamError::OrderNotional)
        } else if self.max_position_notional_usd < self.order_notional_usd {
            Some(ParamError::MaxPosition)
        } else if self.quote_mode@ != "join"@ && self.quote_mode@ != "improve"@ && self.quote_mode@ != "inside"@ {
            Some(ParamError::QuoteMode)
        } else if self.stale_exit_mode@ != "improve"@ && self.stale_exit_mode@ != "taker"@ {
            Some(ParamError::StaleExitMode)
        } else if self.toxicity_window_secs < 1 || self.toxicity_window_secs > 300 {
            Some(ParamError::ToxicityWindow)
        } else if self.imbalance_weight < 0 || self.imbalance_weight > ONE {
            Some(ParamError::ImbalanceWeight)
        } else if self.flow_weight < 0 || self.flow_weight > ONE {
            Some(ParamError::FlowWeight)
        } else if self.ref_weight < 0 || self.ref_weight > 200_000_000 {
            Some(ParamError::RefWeight)
        } else if self.ref_block_bps < 0 {
            Some(ParamError::RefBlock)
        } else if self.max_lean_ticks < 0 {
            Some(ParamError::MaxLeanTicks)
        } else if self.stop_loss_bps < 0 {
            Some(ParamError::StopLoss)
        } else if self.stop_loss_mode@ != "taker"@ && self.stop_loss_mode@ != "improve"@ {
            Some(ParamError::StopLossMode)
        } else {
            None
        }
    }

    pub fn validate(&self) -> (r: Result<(), ParamError>)
        ensures
            match r {
                Ok(_) => self.fault() is None,
                Err(e) => self.fault() == Some(e),
            },
    {
        if self.min_spread_bps <= 0 {
            Err(ParamError::MinSpread)
        } else if self.order_notional_usd <= 0 {
            Err(ParamError::OrderNotional)
        } else if self.max_position_notional_usd < self.order_notional_usd {
            Err(ParamError::MaxPosition)
        } else if !(str_eq(self.quote_mode.as_str(), "join") || str_eq(self.quote_mode.as_str(), "improve") || str_eq(self.quote_mode.as_str(), "inside")) {
            Err(ParamError::QuoteMode)
        } else if !(str_eq(self.stale_exit_mode.as_str(), "improve") || str_eq(self.stale_exit_mode.as_str(), "taker")) {
            Err(ParamError::StaleExitMode)
        } else if self.toxicity_window_secs < 1 || self.toxicity_window_secs > 300 {
            Err(ParamError::ToxicityWindow)
        } else if self.imbalance_weight < 0 || self.imbalance_weight > ONE {
            Err(ParamError::ImbalanceWeight)
        } else if self.flow_weight < 0 || self.flow_weight > ONE {
            Err(ParamError::FlowWeight)
        } else if self.ref_weight < 0 || self.ref_weight > 200_000_000 {
            Err(ParamError::RefWeight)
        } else if self.ref_block_bps < 0 {
            Err(ParamError::RefBlock)
        } else if self.max_lean_ticks < 0 {
            Err(ParamError::MaxLeanTicks)
        } else if self.stop_loss_bps < 0 {
            Err(ParamError::StopLoss)
        } else if !(str_eq(self.stop_loss_mode.as_str(), "taker") || str_eq(self.stop_loss_mode.as_str(), "improve")) {
            Err(ParamError::StopLossMode)
        } else {
            Ok(())
        }
    }

    /// Apply a block of overrides on top of `self` (unknown keys are ignored,
    /// wrong types are reported as an error so a bad optimizer output never silently applies).
    pub fn with_overrides(&self, ov: &OverrideBlock) -> (r: Result<StrategyParams, ParamError>)
        ensures
            match r {
                Ok(p) => types_ok(ov@) && is_merged(*self, ov@, p) && p.fault() is None,
                Err(e) => if types_ok(ov@) {
                    exists|p: StrategyParams| #[trigger] is_merged(*self, ov@, p) && p.fault() == Some(e)
                } else {
                    e == ParamError::BadOverrideTypes
                },
            },
    {
        let min_spread_bps: i64 = match num_param(ov, "min_spread_bps", self.min_spread_bps) {
            Some(x) => x,
            None => return Err(ParamError::BadOverrideTypes),
        };
        let min_edge_bps: i64 = match num_param(ov, "min_edge_bps", self.min_edge_bps) {
            Some(x) => x,
            None => return Err(ParamError::BadOverrideTypes),
        };
        let quote_mode: String = match text_param(ov, "quote_mode", &self.quote_mode) {
            Some(x) => x,
            None => return Err(ParamError::BadOverrideTypes),
        };
        let order_notional_usd: i64 = match num_param(ov, "order_notional_usd", self.order_notional_usd) {
            Some(x) => x,
            None => return Err(ParamError::BadOverrideTypes),
        };
        let max_position_notional_usd: i64 = match num_param(ov, "max_position_notional_usd", self.max_position_notional_usd) {
            Some(x) => x,
            None => return Err(ParamError::BadOverrideTypes),
        };
        let inventory_skew_bps: i64 = match num_param(ov, "inventory_skew_bps", self.inventory_skew_bps) {
            Some(x) => x,
            None => return Err(ParamError::BadOverrideTypes),
        };
        let min_requote_ms: i64 = match int_param(ov, "min_requote_ms", self.min_requote_ms) {
            Some(x) => x,
            None => return Err(ParamError::BadOverrideTypes),
        };
        let max_order_age_ms: i64 = match int_param(ov, "max_order_age_ms", self.max_order_age_ms) {
            Some(x) => x,
            None => return Err(ParamError::BadOverrideTypes),
        };
        let max_hold_secs: i64 = match int_param(ov, "max_hold_secs", self.max_hold_secs) {
            Some(x) => x,
            None => return Err(ParamError::BadOverrideTypes),
        };
        let stale_exit_mode: String = match text_param(ov, "stale_exit_mode", &self.stale_exit_mode) {
            Some(x) => x,
            None => return Err(ParamError::BadOverrideTypes),
        };
        let max_vol_bps: i64 = match num_param(ov, "max_vol_bps", self.max_vol_bps) {
            Some(x) => x,
            None => return Err(ParamError::BadOverrideTypes),
        };
        let toxicity_imbalance: i64 = match num_param(ov, "toxicity_imbalance", self.toxicity_imbalance) {
            Some(x) => x,
            None => return Err(ParamError::BadOverrideTypes),
        };
        let toxicity_window_secs: u32 = match u32_param(ov, "toxicity_window_secs", self.toxicity_window_secs) {
            Some(x) => x,
            None => return Err(ParamError::BadOverrideTypes),
        };
        let imbalance_weight: i64 = match num_param(ov, "imbalance_weight", self.imbalance_weight) {
            Some(x) => x,
            None => return Err(ParamError::BadOverrideTypes),
        };
        let flow_weight: i64 = match num_param(ov, "flow_weight", self.flow_weight) {
            Some(x) => x,
            None => return Err(ParamError::BadOverrideTypes),
        };
        let ref_weight: i64 = match num_param(ov, "ref_weight", self.ref_weight) {
            Some(x) => x,
            None => return Err(ParamError::BadOverrideTypes),
        };
        let ref_block_bps: i64 = match num_param(ov, "ref_block_bps", self.ref_block_bps) {
            Some(x) => x,
            None => return Err(ParamError::BadOverrideTypes),
        };
        let max_lean_ticks: i64 = match int_param(ov, "max_lean_ticks", self.max_lean_ticks) {
            Some(x) => x,
            None => return Err(ParamError::BadOverrideTypes),
        };
        let stop_loss_bps: i64 = match num_param(ov, "stop_loss_bps", self.stop_loss_bps) {
            Some(x) => x,
            None => return Err(ParamError::BadOverrideTypes),
        };
        let stop_loss_mode: String = match text_param(ov, "stop_loss_mode", &self.stop_loss_mode) {
            Some(x) => x,
            None => return Err(ParamError::BadOverrideTypes),
        };
        let inside_spread_frac: i64 = match num_param(ov, "inside_spread_frac", self.inside_spread_frac) {
            Some(x) => x,
            None => return Err(ParamError::BadOverrideTypes),
        };
        let p = StrategyParams {
            min_spread_bps,
            min_edge_bps,
            quote_mode,
            order_notional_usd,
            max_position_notional_usd,
            inventory_skew_bps,
            min_requote_ms,
            max_order_age_ms,
            max_hold_secs,
            stale_exit_mode,
            max_vol_bps,
            toxicity_imbalance,
            toxicity_window_secs,
            imbalance_weight,
            flow_weight,
            ref_weight,
            ref_block_bps,
            max_lean_ticks,
            stop_loss_bps,
            stop_loss_mode,
            inside_spread_frac,
        };
        assert(is_merged(*self, ov@, p));
        match p.validate() {
            Ok(_) => Ok(p),
            Err(e) => Err(e),
        }
    }
}

/// The default parameters are accepted.
pub proof fn law_default_valid(p: StrategyParams)
    requires
        p.is_default(),
    ensures
        p.fault() is None,
{
}

/// Parameters are accepted exactly when every rule holds.
pub proof fn law_valid(p: StrategyParams)
    ensures
        p.fault() is None <==> {
            &&& p.min_spread_bps > 0
            &&& p.order_notional_usd > 0
            &&& p.max_position_notional_usd >= p.order_notional_usd
            &&& (p.quote_mode@ == "join"@ || p.quote_mode@ == "improve"@ || p.quote_mode@ == "inside"@)
            &&& (p.stale_exit_mode@ == "improve"@ || p.stale_exit_mode@ == "taker"@)
            &&& 1 <= p.toxicity_window_secs <= 300
            &&& 0 <= p.imbalance_weight <= ONE
            &&& 0 <= p.flow_weight <= ONE
            &&& 0 <= p.ref_weight <= 2 * ONE
            &&& p.ref_block_bps >= 0
            &&& p.max_lean_ticks >= 0
            &&& p.stop_loss_bps >= 0
            &&& (p.stop_loss_mode@ == "taker"@ || p.stop_loss_mode@ == "improve"@)
        },
{
}

/// Merging decides every parameter: two results of the same merge are the same parameters, and
/// the same rule, if any, refuses them.
pub proof fn law_merge_unique(base: StrategyParams, ov: Seq<(String, OverrideValue)>, p: StrategyParams, q: StrategyParams)
    requires
        is_merged(base, ov, p),
        is_merged(base, ov, q),
    ensures
        same_params(p, q),
        p.fault() == q.fault(),
{
}

/// A block that names no parameter changes nothing.
pub proof fn law_unknown_keys_ignored(base: StrategyParams, ov: Seq<(String, OverrideValue)>)
    requires
        forall|i: int| 0 <= i < ov.len() ==> !is_param_name((#[trigger] ov[i]).0@),
    ensures
        types_ok(ov),
        is_merged(base, ov, base),
{
    crate::table::law_last_entry(ov, "min_spread_bps"@, ov.len());
    crate::table::law_last_entry(ov, "min_edge_bps"@, ov.len());
    crate::table::law_last_entry(ov, "quote_mode"@, ov.len());
    crate::table::law_last_entry(ov, "order_notional_usd"@, ov.len());
    crate::table::law_last_entry(ov, "max_position_notional_usd"@, ov.len());
    crate::table::law_last_entry(ov, "inventory_skew_bps"@, ov.len());
    crate::table::law_last_entry(ov, "min_requote_ms"@, ov.len());
    crate::table::law_last_entry(ov, "max_order_age_ms"@, ov.len());
    crate::table::law_last_entry(ov, "max_hold_secs"@, ov.len());
    crate::table::law_last_entry(ov, "stale_exit_mode"@, ov.len());
    crate::table::law_last_entry(ov, "max_vol_bps"@, ov.len());
    crate::table::law_last_entry(ov, "toxicity_imbalance"@, ov.len());
    crate::table::law_last_entry(ov, "toxicity_window_secs"@, ov.len());
    crate::table::law_last_entry(ov, "imbalance_weight"@, ov.len());
    crate::table::law_last_entry(ov, "flow_weight"@, ov.len());
    crate::table::law_last_entry(ov, "ref_weight"@, ov.len());
    crate::table::law_last_entry(ov, "ref_block_bps"@, ov.len());
    crate::table::law_last_entry(ov, "max_lean_ticks"@, ov.len());
    crate::table::law_last_entry(ov, "stop_loss_bps"@, ov.len());
    crate::table::law_last_entry(ov, "stop_loss_mode"@, ov.len());
    crate::table::law_last_entry(ov, "inside_spread_frac"@, ov.len());
}

/// The names that an override block can replace.
pub open spec fn is_param_name(s: Seq<char>) -> bool {
    ||| s == "min_spread_bps"@
    ||| s == "min_edge_bps"@
    ||| s == "quote_mode"@
    ||| s == "order_notional_usd"@
    ||| s == "max_position_notional_usd"@
    ||| s == "inventory_skew_bps"@
    ||| s == "min_requote_ms"@
    ||| s == "max_order_age_ms"@
    ||| s == "max_hold_secs"@
    ||| s == "stale_exit_mode"@
    ||| s == "max_vol_bps"@
    ||| s == "toxicity_imbalance"@
    ||| s == "toxicity_window_secs"@
    ||| s == "imbalance_weight"@
    ||| s == "flow_weight"@
    ||| s == "ref_weight"@
    ||| s == "ref_block_bps"@
    ||| s == "max_lean_ticks"@
    ||| s == "stop_loss_bps"@
    ||| s == "stop_loss_mode"@
    ||| s == "inside_spread_frac"@
}

#[derive(Clone, Debug)]
pub struct Config {
    pub exchange: ExchangeCfg,
    pub fees: FeesCfg,
    pub paper: PaperCfg,
    pub strategy: StrategyParams,
    pub eligibility: EligibilityCfg,
    pub reference: ReferenceCfg,
    pub risk: RiskCfg,
    pub recording: RecordingCfg,
    pub storage: StorageCfg,
}

/// The configuration of an empty file.
pub fn default_config() -> (r: Config)
    ensures
        r.exchange.is_default(),
        r.fees.is_default(),
        r.paper.is_default(),
        r.strategy.is_default(),
        r.eligibility.is_default(),
        r.reference.is_default(),
        r.risk.is_default(),
        r.recording.is_default(),
        r.storage.is_default(),
{
    Config {
        exchange: default_exchange(),
        fees: default_fees(),
        paper: default_paper(),
        strategy: StrategyParams::default(),
        eligibility: default_elig(),
        reference: default_reference(),
        risk: default_risk(),
        recording: default_rec(),
        storage: default_storage(),
    }
}

impl Config {
    /// A configuration as read is accepted when its strategy parameters are.
    pub fn checked(self) -> (r: Result<Config, ParamError>)
        ensures
            match r {
                Ok(c) => self.strategy.fault() is None && c == self,
                Err(e) => self.strategy.fault() == Some(e),
            },
    {
        match self.strategy.validate() {
            Ok(_) => Ok(self),
            Err(e) => Err(e),
        }
    }
}

/// Per-symbol parameter overrides: {"BTCUSDT": {"min_spread_bps": 12.0}, "*": {...}}.
/// The special key "*" applies to every symbol before the symbol-specific block.
#[derive(Clone, Debug)]
pub struct Overrides {
    pub per_symbol: Vec<(String, OverrideBlock)>,
}

impl Default for Overrides {
    fn default() -> (r: Overrides)
        ensures
            r.per_symbol@.len() == 0,
    {
        Overrides { per_symbol: Vec::new() }
    }
}

/// `r` is what comes of applying the block, where there is one, to `p`.
pub open spec fn is_applied(p: StrategyParams, block: Option<OverrideBlock>, r: Result<StrategyParams, ParamError>) -> bool {
    match block {
        None => r matches Ok(q) && same_params(p, q),
        Some(ov) => match r {
            Ok(q) => types_ok(ov@) && is_merged(p, ov@, q) && q.fault() is None,
            Err(e) => if types_ok(ov@) {
                exists|q: StrategyParams| #[trigger] is_merged(p, ov@, q) && q.fault() == Some(e)
            } else {
                e == ParamError::BadOverrideTypes
            },
        },
    }
}

impl Overrides {
    pub open spec fn block(&self, key: Seq<char>) -> Option<OverrideBlock> {
        entry_value(self.per_symbol@, key)
    }

    /// `r` is the parameters of `symbol`: the block of "*" applied to `base`, then that of the
    /// symbol itself; the first refusal ends it.
    pub open spec fn is_resolved(&self, base: StrategyParams, symbol: Seq<char>, r: Result<StrategyParams, ParamError>) -> bool {
        exists|m: Result<StrategyParams, ParamError>|
            #[trigger] is_applied(base, self.block("*"@), m) && match m {
                Err(e) => r == Err::<StrategyParams, ParamError>(e),
                Ok(p) => is_applied(p, self.block(symbol), r),
            }
    }

    fn apply(&self, p: StrategyParams, key: &str) -> (r: Result<StrategyParams, ParamError>)
        ensures
            is_applied(p, self.block(key@), r),
    {
        match find_entry(&self.per_symbol, key) {
            Some(i) => p.with_overrides(&self.per_symbol[i].1),
            None => Ok(p),
        }
    }

    pub fn resolve(&self, base: &StrategyParams, symbol: &str) -> (r: Result<StrategyParams, ParamError>)
        ensures
            self.is_resolved(*base, symbol@, r),
    {
        let m: Result<StrategyParams, ParamError> = self.apply(base.copy(), "*");
        let ghost g = m;
        assert(is_applied(*base, self.block("*"@), g));
        match m {
            Ok(p) => self.apply(p, symbol),
            Err(e) => Err(e),
        }
    }
}

/// Parameters that resolving hands out are never ones that `validate` refuses, provided the base
/// was accepted.
pub proof fn law_resolved_valid(ov: Overrides, base: StrategyParams, symbol: Seq<char>, r: Result<StrategyParams, ParamError>)
    requires
        base.fault() is None,
        ov.is_resolved(base, symbol, r),
    ensures
        r matches Ok(p) ==> p.fault() is None,
{
}

/// Resolving decides the outcome: two results for the same symbol agree.
pub proof fn law_resolve_unique(ov: Overrides, base: StrategyParams, symbol: Seq<char>, r: Result<StrategyParams, ParamError>, s: Result<StrategyParams, ParamError>)
    requires
        ov.is_resolved(base, symbol, r),
        ov.is_resolved(base, symbol, s),
    ensures
        match (r, s) {
            (Ok(p), Ok(q)) => same_params(p, q),
            (Err(e), Err(f)) => e == f,
            _ => false,
        },
{
    let m = choose|m: Result<StrategyParams, ParamError>|
        #[trigger] is_applied(base, ov.block("*"@), m) && match m {
            Err(e) => r == Err::<StrategyParams, ParamError>(e),
            Ok(p) => is_applied(p, ov.block(symbol), r),
        };
    let n = choose|m: Result<StrategyParams, ParamError>|
        #[trigger] is_applied(base, ov.block("*"@), m) && match m {
            Err(e) => s == Err::<StrategyParams, ParamError>(e),
            Ok(p) => is_applied(p, ov.block(symbol), s),
        };
    assert(is_applied(base, ov.block("*"@), m));
    assert(is_applied(base, ov.block("*"@), n));
    lemma_applied_unique(base, base, ov.block("*"@), m, n);
    if let (Ok(p), Ok(q)) = (m, n) {
        lemma_applied_unique(p, q, ov.block(symbol), r, s);
    }
}

proof fn lemma_applied_unique(p: StrategyParams, q: StrategyParams, block: Option<OverrideBlock>, r: Result<StrategyParams, ParamError>, s: Result<StrategyParams, ParamError>)
    requires
        same_params(p, q),
        is_applied(p, block, r),
        is_applied(q, block, s),
    ensures
        match (r, s) {
            (Ok(a), Ok(b)) => same_params(a, b),
            (Err(e), Err(f)) => e == f,
            _ => false,
        },
{
    if let Some(ov) = block {
        if types_ok(ov@) {
            let a = match r {
                Ok(x) => x,
                Err(e) => choose|x: StrategyParams| #[trigger] is_merged(p, ov@, x) && x.fault() == Some(e),
            };
            let b = match s {
                Ok(x) => x,
                Err(e) => choose|x: StrategyParams| #[trigger] is_merged(q, ov@, x) && x.fault() == Some(e),
            };
            assert(is_merged(p, ov@, a));
            assert(is_merged(q, ov@, b));
            assert(is_merged(p, ov@, b));
            law_merge_unique(p, ov@, a, b);
        }
    }
}

/// Symbol lists produced by the offline pair scorer (or edited by hand).
#[derive(Clone, Debug)]
pub struct SymbolLists {
    pub allow: Vec<String>,
    pub deny: Vec<String>,
    pub scores: Vec<(String, i64)>,
}

impl Default for SymbolLists {
    fn default() -> (r: SymbolLists)
        ensures
            r.allow@.len() == 0,
            r.deny@.len() == 0,
            r.scores@.len() == 0,
    {
        SymbolLists { allow: Vec::new(), deny: Vec::new(), scores: Vec::new() }
    }
}

/// Modification times of the three watched files; a file that is not there has none.
#[derive(Clone, Copy, Debug, PartialEq, Eq, Structural)]
pub struct FileTimes {
    pub config: Option<i64>,
    pub overrides: Option<i64>,
    pub symbols: Option<i64>,
}

/// Tracks the three config files and reports when any of them changed on disk.
#[derive(Debug)]
pub struct ConfigWatcher {
    pub config_path: String,
    pub overrides_path: String,
    pub symbols_path: String,
    pub mtimes: FileTimes,
}

fn same_time(a: Option<i64>, b: Option<i64>) -> (r: bool)
    ensures
        r == (a == b),
{
    match (a, b) {
        (Some(x), Some(y)) => x == y,
        (None, None) => true,
        _ => false,
    }
}

impl ConfigWatcher {
    /// Watch the files at these paths, of which `now` are the present modification times.
    pub fn new(config_path: String, overrides_path: String, symbols_path: String, now: FileTimes) -> (r: ConfigWatcher)
        ensures
            r == (ConfigWatcher { config_path, overrides_path, symbols_path, mtimes: now }),
    {
        ConfigWatcher { config_path, overrides_path, symbols_path, mtimes: now }
    }

    /// Returns true if any watched file changed since the last call; `cur` are the present
    /// modification times.
    pub fn changed(&mut self, cur: FileTimes) -> (r: bool)
        ensures
            r == (cur != old(self).mtimes),
            *final(self) == (ConfigWatcher { mtimes: cur, ..*old(self) }),
    {
        let same: bool = same_time(cur.config, self.mtimes.config) && same_time(cur.overrides, self.mtimes.overrides)
            && same_time(cur.symbols, self.mtimes.symbols);
        if same {
            false
        } else {
            self.mtimes = cur;
            true
        }
    }
}

} // verus!
