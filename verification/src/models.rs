//! Domain entities: candles, fair-value gaps, swings and trades, with their
//! invariants. Identity of each entity is the `(pair, open_time, timeframe)`
//! triple; prices are fixed-point `Price` values and instants are Unix
//! milliseconds.
use crate::price::Price;
use vstd::prelude::*;

verus! {

/// Direction label of an indicator or trade.
#[derive(Debug, Clone, Copy, PartialEq, Eq, Structural)]
pub enum Flow {
    Bull,
    Bear,
}

/// An OHLC aggregation bucket over one timeframe window.
#[derive(Debug)]
pub struct Candle {
    pub pair: String,
    pub open_time: i64,
    pub timeframe: String,
    pub open: Price,
    pub high: Price,
    pub low: Price,
    pub close: Price,
    pub size_in_millis: i64,
}

impl Clone for Candle {
    fn clone(&self) -> (r: Self)
        ensures
            r == *self,
    {
        Candle {
            pair: self.pair.clone(),
            open_time: self.open_time,
            timeframe: self.timeframe.clone(),
            open: self.open,
            high: self.high,
            low: self.low,
            close: self.close,
            size_in_millis: self.size_in_millis,
        }
    }
}

impl Candle {
    /// Price ordering and a positive window size.
    pub open spec fn wf(self) -> bool {
        &&& self.low.atoms <= self.open.atoms <= self.high.atoms
        &&& self.low.atoms <= self.close.atoms <= self.high.atoms
        &&& self.open.wf()
        &&& self.high.wf()
        &&& self.low.wf()
        &&& self.close.wf()
        &&& self.size_in_millis >= 1
    }

    /// Same primary key as another candle.
    pub open spec fn same_key(self, o: Candle) -> bool {
        self.pair@ == o.pair@ && self.open_time == o.open_time && self.timeframe@ == o.timeframe@
    }

    /// Primary key given as parts.
    pub open spec fn has_key(self, pair: Seq<char>, timeframe: Seq<char>, open_time: int) -> bool {
        self.pair@ == pair && self.open_time == open_time && self.timeframe@ == timeframe
    }

    /// Same `(pair, timeframe)` series as another candle.
    pub open spec fn same_series(self, o: Candle) -> bool {
        self.pair@ == o.pair@ && self.timeframe@ == o.timeframe@
    }
}

/// A fair-value gap: a price range skipped between two candles; open while
/// `close_time` is unset.
#[derive(Debug)]
pub struct FVG {
    pub pair: String,
    pub open_time: i64,
    pub timeframe: String,
    pub high: Price,
    pub low: Price,
    pub flow: Flow,
    pub close_time: Option<i64>,
}

impl Clone for FVG {
    fn clone(&self) -> (r: Self)
        ensures
            r == *self,
    {
        FVG {
            pair: self.pair.clone(),
            open_time: self.open_time,
            timeframe: self.timeframe.clone(),
            high: self.high,
            low: self.low,
            flow: self.flow,
            close_time: self.close_time,
        }
    }
}

impl FVG {
    pub open spec fn wf(self) -> bool {
        &&& self.high.atoms > self.low.atoms
        &&& self.high.wf()
        &&& self.low.wf()
        &&& match self.close_time {
            Some(t) => t >= self.open_time,
            None => true,
        }
    }

    pub open spec fn same_key(self, o: FVG) -> bool {
        self.pair@ == o.pair@ && self.open_time == o.open_time && self.timeframe@ == o.timeframe@
    }

    /// The gap is pierced by a closing price: a bull gap by a close below its
    /// low edge, a bear gap by a close above its high edge.
    pub open spec fn pierced_by(self, close: Price) -> bool {
        match self.flow {
            Flow::Bull => self.low.atoms > close.atoms,
            Flow::Bear => self.high.atoms < close.atoms,
        }
    }
}

/// A pivot: a local extreme surrounded by higher lows or lower highs; open
/// while `close_time` is unset.
#[derive(Debug)]
pub struct Swing {
    pub pair: String,
    pub open_time: i64,
    pub timeframe: String,
    pub price: Price,
    pub flow: Flow,
    pub close_time: Option<i64>,
}

impl Clone for Swing {
    fn clone(&self) -> (r: Self)
        ensures
            r == *self,
    {
        Swing {
            pair: self.pair.clone(),
            open_time: self.open_time,
            timeframe: self.timeframe.clone(),
            price: self.price,
            flow: self.flow,
            close_time: self.close_time,
        }
    }
}

impl Swing {
    pub open spec fn wf(self) -> bool {
        &&& self.price.wf()
        &&& match self.close_time {
            Some(t) => t >= self.open_time,
            None => true,
        }
    }

    pub open spec fn same_key(self, o: Swing) -> bool {
        self.pair@ == o.pair@ && self.open_time == o.open_time && self.timeframe@ == o.timeframe@
    }

    /// A bull pivot is breached by a close below its price, a bear pivot by
    /// a close above it.
    pub open spec fn breached_by(self, close: Price) -> bool {
        match self.flow {
            Flow::Bull => self.price.atoms > close.atoms,
            Flow::Bear => self.price.atoms < close.atoms,
        }
    }
}

/// A simulated trade: pending until filled, then closed at take-profit or
/// stop-loss.
#[derive(Debug)]
pub struct Trade {
    pub pair: String,
    pub open_time: i64,
    pub timeframe: String,
    pub fill_time: Option<i64>,
    pub quantity: Price,
    pub entry: Price,
    pub stop_loss: Price,
    pub take_profit: Price,
    pub flow: Flow,
    pub close_time: Option<i64>,
    pub close: Option<Price>,
}

impl Clone for Trade {
    fn clone(&self) -> (r: Self)
        ensures
            r == *self,
    {
        Trade {
            pair: self.pair.clone(),
            open_time: self.open_time,
            timeframe: self.timeframe.clone(),
            fill_time: self.fill_time,
            quantity: self.quantity,
            entry: self.entry,
            stop_loss: self.stop_loss,
            take_profit: self.take_profit,
            flow: self.flow,
            close_time: self.close_time,
            close: self.close,
        }
    }
}

impl Trade {
    pub open spec fn wf(self) -> bool {
        &&& self.quantity.atoms > 0
        &&& self.quantity.wf()
        &&& self.entry.wf()
        &&& self.stop_loss.wf()
        &&& self.take_profit.wf()
        &&& match self.flow {
            Flow::Bull => self.stop_loss.atoms < self.entry.atoms < self.take_profit.atoms,
            Flow::Bear => self.stop_loss.atoms > self.entry.atoms > self.take_profit.atoms,
        }
    }

    pub open spec fn same_key(self, o: Trade) -> bool {
        self.pair@ == o.pair@ && self.open_time == o.open_time && self.timeframe@ == o.timeframe@
    }
}

} // verus!
