//! Core of a spread-capture paper-trading bot for linear perpetuals: order book, market
//! statistics, symbol filter, quoting strategy, paper exchange, accounting, risk limits,
//! market-data records and the engine that ties them together.
//!
//! Rates, ratios and limits are decimals held in an `i64` with eight fractional digits; the prices of
//! an instrument have as many digits as its steps ask for, its quantities the rest of sixteen (see
//! [`units`]).

pub mod bits;
pub mod book;
pub mod bytes;
pub mod config;
pub mod config_laws;
pub mod database;
pub mod eligibility;
pub mod engine;
pub mod engine_laws;
pub mod execution_laws;
pub mod feed;
pub mod instruments;
pub mod market_laws;
pub mod number_laws;
pub mod operation_laws;
pub mod order;
pub mod order_laws;
pub mod paper;
pub mod paper_history;
pub mod paper_laws;
pub mod paths;
pub mod portfolio;
pub mod portfolio_laws;
pub mod quote_laws;
pub mod ranking_laws;
pub mod reader;
pub mod record_laws;
pub mod recorder;
pub mod reference_laws;
pub mod replay;
pub mod risk;
pub mod roundtrip_laws;
pub mod rows;
pub mod sim;
pub mod source_laws;
pub mod stats;
pub mod stats_laws;
pub mod store;
pub mod strategy;
pub mod strategy_laws;
pub mod table;
pub mod text;
pub mod times;
pub mod types;
pub mod units;
pub mod value_laws;

