//! The strategy engines.
//!
//! Strategy A keeps the most recent gap per watched timeframe and republishes
//! the buffered gap. Strategy B ("Combo") is a state machine over gaps,
//! swings and candle closes: `Idle -> V1 -> V1Test -> V2 -> Idle`, with a
//! transition function `combo_step` that the handler provably implements.
use crate::models::{Candle, Flow, Swing, FVG};
use crate::timeframe::Timeframe;
use vstd::prelude::*;

verus! {

/// Textual form of the daily timeframe.
pub open spec fn tf_1d() -> Seq<char> {
    Timeframe::Day(1).format_spec()
}

/// Textual form of the hourly timeframe.
pub open spec fn tf_1h() -> Seq<char> {
    Timeframe::Hour(1).format_spec()
}

/// Textual form of the five-minute timeframe.
pub open spec fn tf_5m() -> Seq<char> {
    Timeframe::Minute(5).format_spec()
}

/// Textual form of the four-hour timeframe.
pub open spec fn tf_4h() -> Seq<char> {
    Timeframe::Hour(4).format_spec()
}

/// Buffer update of strategy A: keep the newer gap, by strict open-time
/// order; an equal or older gap leaves the slot as it is.
pub open spec fn slot_update(slot: Option<FVG>, data: FVG) -> Option<FVG> {
    match slot {
        None => Some(data),
        Some(f) => if f.open_time < data.open_time {
            Some(data)
        } else {
            Some(f)
        },
    }
}

/// Strategy A: the most recent gap per timeframe in {1D, 1h, 5m}.
pub struct AlgoABStrat {
    pub fvg_1d: Option<FVG>,
    pub fvg_1h: Option<FVG>,
    pub fvg_5m: Option<FVG>,
}

impl AlgoABStrat {
    pub fn new() -> (r: AlgoABStrat)
        ensures
            r.fvg_1d is None,
            r.fvg_1h is None,
            r.fvg_5m is None,
    {
        AlgoABStrat { fvg_1d: None, fvg_1h: None, fvg_5m: None }
    }

    /// Consumes one gap event: updates the slot of the gap's timeframe and
    /// returns the gap to republish — the buffered gap of that slot — or
    /// `None` for an unwatched timeframe.
    pub fn handle_fvg(&mut self, data: FVG) -> (r: Option<FVG>)
        ensures
            data.timeframe@ == tf_1d() ==> {
                &&& final (self).fvg_1d == slot_update(old(self).fvg_1d, data)
                &&& r == final (self).fvg_1d
                &&& final (self).fvg_1h == old(self).fvg_1h
                &&& final (self).fvg_5m == old(self).fvg_5m
            },
            data.timeframe@ != tf_1d() && data.timeframe@ == tf_1h() ==> {
                &&& final (self).fvg_1h == slot_update(old(self).fvg_1h, data)
                &&& r == final (self).fvg_1h
                &&& final (self).fvg_1d == old(self).fvg_1d
                &&& final (self).fvg_5m == old(self).fvg_5m
            },
            data.timeframe@ != tf_1d() && data.timeframe@ != tf_1h() && data.timeframe@ == tf_5m()
                ==> {
                &&& final (self).fvg_5m == slot_update(old(self).fvg_5m, data)
                &&& r == final (self).fvg_5m
                &&& final (self).fvg_1d == old(self).fvg_1d
                &&& final (self).fvg_1h == old(self).fvg_1h
            },
            data.timeframe@ != tf_1d() && data.timeframe@ != tf_1h() && data.timeframe@ != tf_5m()
                ==> *final (self) == *old(self) && r is None,
    {
        if data.timeframe == Timeframe::Day(1).format() {
            let keep = match &self.fvg_1d {
                None => false,
                Some(f) => !(f.open_time < data.open_time),
            };
            if !keep {
                self.fvg_1d = Some(data);
            }
            match &self.fvg_1d {
                Some(f) => Some(f.clone()),
                None => None,
            }
        } else if data.timeframe == Timeframe::Hour(1).format() {
            let keep = match &self.fvg_1h {
                None => false,
                Some(f) => !(f.open_time < data.open_time),
            };
            if !keep {
                self.fvg_1h = Some(data);
            }
            match &self.fvg_1h {
                Some(f) => Some(f.clone()),
                None => None,
            }
        } else if data.timeframe == Timeframe::Minute(5).format() {
            let keep = match &self.fvg_5m {
                None => false,
                Some(f) => !(f.open_time < data.open_time),
            };
            if !keep {
                self.fvg_5m = Some(data);
            }
            match &self.fvg_5m {
                Some(f) => Some(f.clone()),
                None => None,
            }
        } else {
            None
        }
    }
}

/// Inputs of the Combo state machine.
#[derive(Debug)]
pub enum Event {
    Fvg(FVG),
    Swing(Swing),
    CandleClose(Candle),
}

/// States of the Combo state machine.
#[derive(Debug, Clone, Copy, PartialEq, Eq, Structural)]
pub enum State {
    Idle,
    V1,
    V1Test,
    V2,
}

/// Strategy B: the hierarchical Combo machine with its slots.
#[derive(Debug)]
pub struct Combo {
    pub state: State,
    pub v1: Option<FVG>,
    pub v2: Option<FVG>,
    pub v3: Option<Swing>,
    pub v4: Option<FVG>,
}

impl Combo {
    /// In the states that read `v1`, the slot is set.
    pub open spec fn wf(self) -> bool {
        (self.state == State::V1 || self.state == State::V1Test) ==> self.v1 is Some
    }

    pub fn new() -> (r: Combo)
        ensures
            r.state == State::Idle,
            r.v1 is None,
            r.v2 is None,
            r.v3 is None,
            r.v4 is None,
            r.wf(),
    {
        Combo { state: State::Idle, v1: None, v2: None, v3: None, v4: None }
    }
}

/// The 4h candle tags the buffered daily gap: for a bull gap its low dips
/// into the gap's high edge, for a bear gap its high reaches the low edge.
pub open spec fn tags_v1(v1: FVG, c: Candle) -> bool {
    match v1.flow {
        Flow::Bull => c.low.atoms <= v1.high.atoms,
        Flow::Bear => c.high.atoms >= v1.low.atoms,
    }
}

/// The transition function of the Combo machine. Events not handled by the
/// current state fall through unchanged.
pub open spec fn combo_step(m: Combo, e: Event) -> Combo {
    match m.state {
        State::Idle => match e {
            Event::Fvg(x) => if x.timeframe@ == tf_1d() {
                Combo { state: State::V1, v1: Some(x), ..m }
            } else {
                m
            },
            _ => m,
        },
        State::V1 => match e {
            Event::CandleClose(x) => if x.timeframe@ == tf_4h() && tags_v1(m.v1->0, x) {
                Combo { state: State::V1Test, ..m }
            } else {
                m
            },
            Event::Fvg(x) => if x.timeframe@ == tf_1d() {
                Combo { v1: Some(x), ..m }
            } else {
                m
            },
            _ => m,
        },
        State::V1Test => match e {
            Event::Fvg(x) => if x.timeframe@ == tf_4h() && x.flow == m.v1->0.flow {
                Combo { state: State::V2, v2: Some(x), ..m }
            } else {
                m
            },
            _ => m,
        },
        State::V2 => match e {
            Event::CandleClose(x) => if x.timeframe@ == tf_4h() {
                Combo { state: State::Idle, v1: None, v2: None, v3: None, v4: None }
            } else {
                m
            },
            _ => m,
        },
    }
}

impl Combo {
    /// Processes one event, implementing `combo_step` exactly.
    pub fn handle(&mut self, event: &Event)
        requires
            old(self).wf(),
        ensures
            final (self).wf(),
            *final (self) == combo_step(*old(self), *event),
    {
        match self.state {
            State::Idle => {
                match event {
                    Event::Fvg(x) => {
                        if x.timeframe == Timeframe::Day(1).format() {
                            self.v1 = Some(x.clone());
                            self.state = State::V1;
                        }
                    },
                    _ => {},
                }
            },
            State::V1 => {
                match event {
                    Event::CandleClose(x) => {
                        if x.timeframe == Timeframe::Hour(4).format() {
                            let tagged = match &self.v1 {
                                Some(v1) => match v1.flow {
                                    Flow::Bull => x.low.le(&v1.high),
                                    Flow::Bear => x.high.ge(&v1.low),
                                },
                                None => false,
                            };
                            if tagged {
                                self.state = State::V1Test;
                            }
                        }
                    },
                    Event::Fvg(x) => {
                        if x.timeframe == Timeframe::Day(1).format() {
                            self.v1 = Some(x.clone());
                        }
                    },
                    _ => {},
                }
            },
            State::V1Test => {
                match event {
                    Event::Fvg(x) => {
                        let flow_matches = match &self.v1 {
                            Some(v1) => x.flow == v1.flow,
                            None => false,
                        };
                        if x.timeframe == Timeframe::Hour(4).format() && flow_matches {
                            self.v2 = Some(x.clone());
                            self.state = State::V2;
                        }
                    },
                    _ => {},
                }
            },
            State::V2 => {
                match event {
                    Event::CandleClose(x) => {
                        if x.timeframe == Timeframe::Hour(4).format() {
                            self.v1 = None;
                            self.v2 = None;
                            self.v3 = None;
                            self.v4 = None;
                            self.state = State::Idle;
                        }
                    },
                    _ => {},
                }
            },
        }
    }
}

} // verus!
