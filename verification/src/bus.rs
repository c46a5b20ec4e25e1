//! Event-bus naming and the websocket republishing rules: topic names with
//! their backtest namespace, and the filter that decides which broadcast
//! payloads reach a downstream client.
use crate::timeframe::Timeframe;
use vstd::prelude::*;
use vstd::string::StringExecFns;

verus! {

/// The topic a component publishes on: the base name, or the base name
/// under the `backtest-` prefix when replaying.
pub fn topic_name(base: &str, is_backtest: bool) -> (r: String)
    ensures
        is_backtest ==> r@ == "backtest-"@ + base@,
        !is_backtest ==> r@ == base@,
{
    if is_backtest {
        let mut s = "backtest-".to_owned();
        s.append(base);
        s
    } else {
        base.to_owned()
    }
}

/// A bus payload as rebroadcast to websocket clients, tagged by its origin
/// topic.
#[derive(Debug)]
pub enum WsBroadcastMessage {
    Candle(String),
    BacktestCandle(String),
    Fvg(String),
    BacktestFvg(String),
}

impl WsBroadcastMessage {
    /// The payload to forward to backtest websocket clients: only messages
    /// of the backtest namespace are forwarded.
    pub fn backtest_payload(&self) -> (r: Option<&String>)
        ensures
            match self {
                WsBroadcastMessage::BacktestCandle(x) => r == Some(x),
                WsBroadcastMessage::BacktestFvg(x) => r == Some(x),
                _ => r is None,
            },
    {
        match self {
            WsBroadcastMessage::BacktestCandle(x) => Some(x),
            WsBroadcastMessage::BacktestFvg(x) => Some(x),
            WsBroadcastMessage::Candle(_) => None,
            WsBroadcastMessage::Fvg(_) => None,
        }
    }
}

/// Whether a payload's `pair` and `timeframe` fields pass a client's
/// filter: the pair must match, and the timeframe must match the filter's
/// timeframe when one is set.
pub fn passes_filter(
    pair: &String,
    timeframe: &String,
    product_id: &String,
    wanted: &Option<String>,
) -> (r: bool)
    ensures
        r == (pair@ == product_id@ && match wanted {
            Some(w) => timeframe@ == w@,
            None => true,
        }),
{
    if !(*pair == *product_id) {
        return false;
    }
    match wanted {
        Some(w) => *timeframe == *w,
        None => true,
    }
}

/// Query parameters of the candle and gap listings.
#[derive(Debug)]
pub struct Pagination {
    pub start_timestamp: u32,
    pub end_timestamp: u32,
    pub timeframe: Timeframe,
}

/// Query parameters of the websocket subscription: an optional timeframe
/// filter.
#[derive(Debug)]
pub struct WsPagination {
    pub timeframe: Option<Timeframe>,
}

} // verus!
