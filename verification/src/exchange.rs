//! Exchange-facing data: websocket channels, ticker messages, and the
//! historical-candles REST request. Timestamps are Unix milliseconds and
//! prices fixed-point values; the JSON framing lives outside the library.
use crate::digits::{dec_digits, push_decimal};
use crate::price::Price;
use vstd::prelude::*;
use vstd::string::StringExecFns;

verus! {

/// The two exchange services a signed token can address.
#[derive(Debug, Clone, Copy, PartialEq, Eq, Structural)]
pub enum CoinbaseService {
    Websocket,
    Rest,
}

impl CoinbaseService {
    pub open spec fn name_spec(self) -> Seq<char> {
        match self {
            CoinbaseService::Websocket => "public_websocket_api"@,
            CoinbaseService::Rest => "retail_rest_api_proxy"@,
        }
    }

    /// The audience name of the service.
    pub fn name(&self) -> (r: String)
        ensures
            r@ == self.name_spec(),
    {
        match self {
            CoinbaseService::Websocket => "public_websocket_api".to_owned(),
            CoinbaseService::Rest => "retail_rest_api_proxy".to_owned(),
        }
    }
}

/// Granularity tokens of the exchange's candles endpoint; orthogonal to the
/// internal timeframe form.
#[derive(Debug, Clone, Copy, PartialEq, Eq, Structural)]
pub enum Granularity {
    Unknown,
    OneMinute,
    FiveMinute,
    FifteenMinute,
    ThirtyMinute,
    OneHour,
    TwoHour,
    SixHour,
    OneDay,
}

impl Granularity {
    pub open spec fn token_spec(self) -> Seq<char> {
        match self {
            Granularity::Unknown => "UNKNOWN_GRANULARITY"@,
            Granularity::OneMinute => "ONE_MINUTE"@,
            Granularity::FiveMinute => "FIVE_MINUTE"@,
            Granularity::FifteenMinute => "FIFTEEN_MINUTE"@,
            Granularity::ThirtyMinute => "THIRTY_MINUTE"@,
            Granularity::OneHour => "ONE_HOUR"@,
            Granularity::TwoHour => "TWO_HOUR"@,
            Granularity::SixHour => "SIX_HOUR"@,
            Granularity::OneDay => "ONE_DAY"@,
        }
    }

    /// The exchange's SCREAMING_SNAKE_CASE token.
    pub fn token(&self) -> (r: String)
        ensures
            r@ == self.token_spec(),
    {
        match self {
            Granularity::Unknown => "UNKNOWN_GRANULARITY".to_owned(),
            Granularity::OneMinute => "ONE_MINUTE".to_owned(),
            Granularity::FiveMinute => "FIVE_MINUTE".to_owned(),
            Granularity::FifteenMinute => "FIFTEEN_MINUTE".to_owned(),
            Granularity::ThirtyMinute => "THIRTY_MINUTE".to_owned(),
            Granularity::OneHour => "ONE_HOUR".to_owned(),
            Granularity::TwoHour => "TWO_HOUR".to_owned(),
            Granularity::SixHour => "SIX_HOUR".to_owned(),
            Granularity::OneDay => "ONE_DAY".to_owned(),
        }
    }
}

/// Subscription request data of the per-trade ticker channel.
#[derive(Debug)]
pub struct TickerChannel {
    pub product_id: String,
}

impl TickerChannel {
    pub fn name(&self) -> (r: String)
        ensures
            r@ == "ticker"@,
    {
        "ticker".to_owned()
    }

    pub fn product_id(&self) -> (r: &String)
        ensures
            r == &self.product_id,
    {
        &self.product_id
    }
}

/// Subscription request data of the batched ticker channel.
#[derive(Debug)]
pub struct TickerBatchChannel {
    pub product_id: String,
}

impl TickerBatchChannel {
    pub fn name(&self) -> (r: String)
        ensures
            r@ == "ticker_batch"@,
    {
        "ticker_batch".to_owned()
    }

    pub fn product_id(&self) -> (r: &String)
        ensures
            r == &self.product_id,
    {
        &self.product_id
    }
}

/// Whether a ticker event carries a full snapshot or an update.
#[derive(Debug, Clone, Copy, PartialEq, Eq, Structural)]
pub enum EventType {
    Snapshot,
    Update,
}

/// One traded instrument's current price.
#[derive(Debug)]
pub struct Ticker {
    pub product_id: String,
    pub price: Price,
}

impl Clone for Ticker {
    fn clone(&self) -> (r: Self)
        ensures
            r == *self,
    {
        Ticker { product_id: self.product_id.clone(), price: self.price }
    }
}

/// A batch of tickers sharing one event type.
#[derive(Debug)]
pub struct TickerEvent {
    pub event_type: EventType,
    pub tickers: Vec<Ticker>,
}

/// A ticker message from the exchange stream: a timestamp shared by a list
/// of events.
#[derive(Debug)]
pub struct Response {
    pub channel: String,
    pub client_id: String,
    pub timestamp: i64,
    pub sequence_num: u64,
    pub events: Vec<TickerEvent>,
}

/// Historical-candles REST request: product, half-open time range in Unix
/// seconds, and granularity token.
#[derive(Debug)]
pub struct Candles {
    pub product_id: String,
    pub start: i64,
    pub end: i64,
    pub granularity: Granularity,
}

impl Candles {
    /// REST path of the request.
    pub fn endpoint(&self) -> (r: String)
        ensures
            r@ == "api/v3/brokerage/products/"@ + self.product_id@ + "/candles"@,
    {
        let mut s = "api/v3/brokerage/products/".to_owned();
        s.append(self.product_id.as_str());
        s.append("/candles");
        s
    }

    /// Query parameters of the request, in order.
    pub fn params(&self) -> (r: Vec<(String, String)>)
        requires
            self.start >= 0,
            self.end >= 0,
        ensures
            r@.len() == 3,
            r@[0].0@ == "start"@ && r@[0].1@ == dec_digits(self.start as int),
            r@[1].0@ == "end"@ && r@[1].1@ == dec_digits(self.end as int),
            r@[2].0@ == "granularity"@ && r@[2].1@ == self.granularity.token_spec(),
    {
        let mut out: Vec<(String, String)> = Vec::new();
        let mut sv = String::new();
        push_decimal(&mut sv, self.start as u64);
        out.push(("start".to_owned(), sv));
        let mut ev = String::new();
        push_decimal(&mut ev, self.end as u64);
        out.push(("end".to_owned(), ev));
        out.push(("granularity".to_owned(), self.granularity.token()));
        out
    }
}

} // verus!
