use spr_core::config::{
    default_config, ConfigWatcher, FileTimes, OverrideBlock, OverrideValue, Overrides, ParamError, StrategyParams, SymbolLists,
};

fn d(x: f64) -> i64 {
    (x * 1e8).round() as i64
}

fn num(x: f64) -> OverrideValue {
    OverrideValue::Num(d(x))
}

fn text(s: &str) -> OverrideValue {
    OverrideValue::Text(s.to_string())
}

fn block(v: Vec<(&str, OverrideValue)>) -> OverrideBlock {
    v.into_iter().map(|(k, x)| (k.to_string(), x)).collect()
}

#[test]
fn overrides_merge_and_validate() {
    let base = StrategyParams::default();
    let mut ov = Overrides::default();
    ov.per_symbol.push(("*".to_string(), block(vec![("min_spread_bps", num(15.0))])));
    ov.per_symbol.push(("BTCUSDT".to_string(), block(vec![("quote_mode", text("improve")), ("unknown_key", OverrideValue::Int(1))])));
    let p = ov.resolve(&base, "BTCUSDT").unwrap();
    assert_eq!(p.min_spread_bps, d(15.0));
    assert_eq!(p.quote_mode, "improve");
    let q = ov.resolve(&base, "ETHUSDT").unwrap();
    assert_eq!(q.quote_mode, "join");
    assert_eq!(q.min_spread_bps, d(15.0));
    let bad = block(vec![("quote_mode", text("weird"))]);
    assert!(base.with_overrides(&bad).is_err());
}

#[test]
fn default_config_parses() {
    let cfg = default_config();
    assert_eq!(cfg.exchange.category, "linear");
    assert_eq!(cfg.strategy.min_spread_bps, d(10.0));
    assert!(cfg.checked().is_ok());
}

#[test]
fn each_fault_is_named() {
    let ok = StrategyParams::default();
    assert!(ok.validate().is_ok());
    let faults: Vec<(Vec<(&str, OverrideValue)>, ParamError)> = vec![
        (vec![("min_spread_bps", num(0.0))], ParamError::MinSpread),
        (vec![("order_notional_usd", num(0.0))], ParamError::OrderNotional),
        (vec![("max_position_notional_usd", num(1.0))], ParamError::MaxPosition),
        (vec![("quote_mode", text("weird"))], ParamError::QuoteMode),
        (vec![("stale_exit_mode", text("weird"))], ParamError::StaleExitMode),
        (vec![("toxicity_window_secs", OverrideValue::Int(0))], ParamError::ToxicityWindow),
        (vec![("imbalance_weight", num(1.5))], ParamError::ImbalanceWeight),
        (vec![("flow_weight", num(-0.5))], ParamError::FlowWeight),
        (vec![("ref_weight", num(2.5))], ParamError::RefWeight),
        (vec![("ref_block_bps", num(-1.0))], ParamError::RefBlock),
        (vec![("max_lean_ticks", OverrideValue::Int(-1))], ParamError::MaxLeanTicks),
        (vec![("stop_loss_bps", num(-1.0))], ParamError::StopLoss),
        (vec![("stop_loss_mode", text("weird"))], ParamError::StopLossMode),
    ];
    for (v, want) in faults {
        let name = v[0].0;
        let e = ok.with_overrides(&block(v)).unwrap_err();
        assert_eq!(e, want);
        assert!(e.message().contains(name), "{} / {}", e.message(), name);
    }
    let e = ok.with_overrides(&block(vec![("min_spread_bps", text("ten"))])).unwrap_err();
    assert_eq!(e, ParamError::BadOverrideTypes);
    assert_eq!(e.message(), "bad override types");
}

#[test]
fn whole_numbers_count_as_numbers_and_the_last_entry_wins() {
    let base = StrategyParams::default();
    let p = base.with_overrides(&block(vec![("min_spread_bps", num(1.0)), ("min_spread_bps", OverrideValue::Int(12))])).unwrap();
    assert_eq!(p.min_spread_bps, d(12.0));
    let p = base.with_overrides(&block(vec![("max_lean_ticks", OverrideValue::Int(3))])).unwrap();
    assert_eq!(p.max_lean_ticks, 3);
    assert_eq!(base.with_overrides(&block(vec![("max_lean_ticks", num(3.0))])).unwrap_err(), ParamError::BadOverrideTypes);
}

#[test]
fn the_symbol_block_refused_refuses_the_symbol_only() {
    let base = StrategyParams::default();
    let mut ov = Overrides::default();
    ov.per_symbol.push(("AUSDT".to_string(), block(vec![("quote_mode", text("weird"))])));
    assert!(ov.resolve(&base, "AUSDT").is_err());
    assert!(ov.resolve(&base, "BUSDT").is_ok());
    let lists = SymbolLists::default();
    assert!(lists.allow.is_empty() && lists.deny.is_empty() && lists.scores.is_empty());
}

#[test]
fn the_watcher_reports_each_change_once() {
    let t0 = FileTimes { config: Some(1), overrides: None, symbols: None };
    let mut w = ConfigWatcher::new("a.toml".to_string(), "overrides.json".to_string(), "symbols.json".to_string(), t0);
    assert!(!w.changed(t0));
    let t1 = FileTimes { overrides: Some(5), ..t0 };
    assert!(w.changed(t1));
    assert!(!w.changed(t1));
    assert!(w.changed(t0));
}
