//! The fair-value-gap indicator: on each candle close, detects a gap
//! between the closing candle and its immediately preceding candle, and
//! closes every open gap of the series that the new close pierces.
use crate::models::{Candle, Flow, FVG};
use crate::store::{closed_fvg_list, latest_before_spec, Store};
use vstd::prelude::*;

verus! {

/// The gap a closing candle `c` opens against its predecessor `prev`:
/// bullish when the predecessor's high is below `c`'s low, bearish when the
/// predecessor's low is above `c`'s high; the gap is the skipped range and
/// it opens at the predecessor's open time.
pub open spec fn detected_fvg(prev: Candle, c: Candle) -> Option<FVG> {
    if prev.high.atoms < c.low.atoms {
        Some(
            FVG {
                pair: c.pair,
                open_time: prev.open_time,
                timeframe: c.timeframe,
                high: c.low,
                low: prev.high,
                flow: Flow::Bull,
                close_time: None,
            },
        )
    } else if prev.low.atoms > c.high.atoms {
        Some(
            FVG {
                pair: c.pair,
                open_time: prev.open_time,
                timeframe: c.timeframe,
                high: prev.low,
                low: c.high,
                flow: Flow::Bear,
                close_time: None,
            },
        )
    } else {
        None
    }
}

/// The gap created by processing the close of `c` against the candle table
/// `s`: the detection applied to `c`'s immediate predecessor, if one exists.
pub open spec fn fvg_creation(s: Seq<Candle>, c: Candle) -> Option<FVG> {
    match latest_before_spec(s, c.pair@, c.timeframe@, c.open_time as int) {
        None => None,
        Some(prev) => detected_fvg(prev, c),
    }
}

/// Consumes `candle_close` events and maintains the gap table.
pub struct FvgIndicator {}

impl FvgIndicator {
    pub fn new() -> (r: FvgIndicator) {
        FvgIndicator {  }
    }

    /// Detects and stores a new gap for the closing candle `candle`.
    /// Returns the created gap; a gap that already exists under its key is
    /// returned but leaves the table unchanged.
    pub fn handle_fvg_creation(&self, store: &mut Store, candle: &Candle) -> (r: Option<FVG>)
        requires
            old(store).wf(),
            candle.wf(),
        ensures
            final (store).wf(),
            final (store).candles@ == old(store).candles@,
            final (store).swings@ == old(store).swings@,
            final (store).trades@ == old(store).trades@,
            final (store).closes@ == old(store).closes@,
            r == fvg_creation(old(store).candles@, *candle),
            r is None ==> final (store).fvgs@ == old(store).fvgs@,
            r matches Some(f) ==> {
                &&& f.wf()
                &&& f.close_time is None
                &&& (exists|i: int|
                    0 <= i < old(store).fvgs@.len() && (#[trigger] old(store).fvgs@[i]).same_key(
                        f,
                    )) ==> final (store).fvgs@ == old(store).fvgs@
                &&& !(exists|i: int|
                    0 <= i < old(store).fvgs@.len() && (#[trigger] old(store).fvgs@[i]).same_key(
                        f,
                    )) ==> final (store).fvgs@ == old(store).fvgs@.push(f)
            },
    {
        let prev = store.latest_candle_before(&candle.pair, &candle.timeframe, candle.open_time);
        match prev {
            None => None,
            Some(p) => {
                proof {
                    let sc = store.candles@;
                    let wi = choose|wi: int| 0 <= wi < sc.len() && sc[wi] == p;
                    assert(sc[wi].wf());
                }
                let fvg = if p.high.lt(&candle.low) {
                    FVG {
                        pair: candle.pair.clone(),
                        open_time: p.open_time,
                        timeframe: candle.timeframe.clone(),
                        high: candle.low,
                        low: p.high,
                        flow: Flow::Bull,
                        close_time: None,
                    }
                } else if p.low.gt(&candle.high) {
                    FVG {
                        pair: candle.pair.clone(),
                        open_time: p.open_time,
                        timeframe: candle.timeframe.clone(),
                        high: p.low,
                        low: candle.high,
                        flow: Flow::Bear,
                        close_time: None,
                    }
                } else {
                    return None;
                };
                store.insert_fvg(fvg.clone());
                Some(fvg)
            },
        }
    }

    /// Closes every open gap of the series pierced by the closing candle,
    /// returning the closed gaps.
    pub fn handle_closed_fvgs(&self, store: &mut Store, candle: &Candle) -> (r: Vec<FVG>)
        requires
            old(store).wf(),
        ensures
            final (store).wf(),
            final (store).candles@ == old(store).candles@,
            final (store).swings@ == old(store).swings@,
            final (store).trades@ == old(store).trades@,
            final (store).closes@ == old(store).closes@.push(*candle),
            final (store).fvgs@.len() == old(store).fvgs@.len(),
            forall|i: int|
                0 <= i < old(store).fvgs@.len() ==> final (store).fvgs@[i]
                    == if crate::store::fvg_should_close(#[trigger] old(store).fvgs@[i], *candle) {
                    crate::store::close_fvg(old(store).fvgs@[i], candle.open_time)
                } else {
                    old(store).fvgs@[i]
                },
            r@ == closed_fvg_list(old(store).fvgs@, *candle),
    {
        store.close_fvgs(candle)
    }

    /// Processes one candle close: first gap creation, then gap closing.
    /// Returns the created gap and the closed gaps.
    pub fn process(&self, store: &mut Store, candle: &Candle) -> (r: (Option<FVG>, Vec<FVG>))
        requires
            old(store).wf(),
            candle.wf(),
        ensures
            final (store).wf(),
            final (store).candles@ == old(store).candles@,
            final (store).swings@ == old(store).swings@,
            final (store).trades@ == old(store).trades@,
            final (store).closes@ == old(store).closes@.push(*candle),
            r.0 == fvg_creation(old(store).candles@, *candle),
            ({
                let mid = if r.0 matches Some(f) && !(exists|i: int|
                    0 <= i < old(store).fvgs@.len() && (#[trigger] old(store).fvgs@[i]).same_key(
                        f,
                    )) {
                    old(store).fvgs@.push(r.0->0)
                } else {
                    old(store).fvgs@
                };
                &&& final (store).fvgs@.len() == mid.len()
                &&& (forall|i: int|
                    0 <= i < mid.len() ==> final (store).fvgs@[i]
                        == if crate::store::fvg_should_close(#[trigger] mid[i], *candle) {
                        crate::store::close_fvg(mid[i], candle.open_time)
                    } else {
                        mid[i]
                    })
                &&& r.1@ == closed_fvg_list(mid, *candle)
            }),
    {
        let created = self.handle_fvg_creation(store, candle);
        let closed = self.handle_closed_fvgs(store, candle);
        (created, closed)
    }
}

/// Entry point of the indicator service for one `candle_close` message:
/// runs the gap indicator over the closing candle.
pub fn handle_candle_close(store: &mut Store, candle: &Candle) -> (r: (Option<FVG>, Vec<FVG>))
    requires
        old(store).wf(),
        candle.wf(),
    ensures
        final (store).wf(),
        final (store).candles@ == old(store).candles@,
        final (store).swings@ == old(store).swings@,
        final (store).trades@ == old(store).trades@,
        r.0 == fvg_creation(old(store).candles@, *candle),
{
    let indicator = FvgIndicator::new();
    indicator.process(store, candle)
}

} // verus!
