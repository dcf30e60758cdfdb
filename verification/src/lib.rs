//! Fund data ingestion and backtesting library.
//!
//! The library unwraps JavaScript-literal payloads scraped from a fund-data
//! web endpoint, repairs them into strict JSON, extracts dated net-asset-value
//! records from the embedded HTML table, classifies fund-type labels, merges
//! paginated fetches, and runs a long-only moving-average breakout backtest
//! over the resulting series.

pub mod backtest;
pub mod context;
pub mod database;
pub mod deserializer;
pub mod east_money;
pub mod errors;
pub mod frame;
pub mod fund_list_model;
pub mod fund_value_model;
pub mod http;
pub mod normalizer;
pub mod numparse;
pub mod pagination;
pub mod strutil;
