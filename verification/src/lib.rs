//! Verified core of a market-data processing pipeline: timeframe bucketing,
//! candle aggregation, fair-value-gap and swing indicators, strategy state
//! machines, and a position manager, all specified against a mathematical
//! model of calendar time and fixed-point prices.
use vstd::prelude::*;

pub mod backtest;
pub mod bus;
pub mod calendar;
pub mod digits;
pub mod exchange;
pub mod fvg;
pub mod fvg_close;
pub mod models;
pub mod position;
pub mod price;
pub mod store;
pub mod strategy;
pub mod swing;
pub mod ticker;
pub mod timeframe;

verus! {

/// Errors surfaced by the library's fallible operations.
#[derive(Debug)]
pub enum Error {
    /// A timeframe failed validation or could not be parsed.
    TimeframeError(String),
    /// A trade could not be constructed from the given inputs.
    TradeError(String),
    /// An inbound message or field could not be decoded.
    DecodeError(String),
}

} // verus!
