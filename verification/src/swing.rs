//! The swing indicator: on each candle close, looks for a five-candle pivot
//! with the middle candle as the local extreme, and closes every open swing
//! that the new close breaches.
use crate::models::{Candle, Flow, Swing};
use crate::store::{closed_swing_list, Store};
use vstd::prelude::*;

verus! {

/// The pivot decision over the four strictly earlier candles (most recent
/// first, as the store query returns them) and the closing candle. With
/// fewer than four earlier candles there is no pivot. The middle candle of
/// the five is `last4[1]`: a bullish swing at its low when that low is
/// strictly below the other four lows, a bearish swing at its high when
/// that high is strictly above the other four highs.
pub open spec fn swing_decision(last4: Seq<Candle>, c: Candle) -> Option<Swing> {
    if last4.len() != 4 {
        None
    } else {
        let first = last4[3];
        let second = last4[2];
        let third = last4[1];
        let fourth = last4[0];
        if third.low.atoms < first.low.atoms && third.low.atoms < second.low.atoms
            && third.low.atoms < fourth.low.atoms && third.low.atoms < c.low.atoms {
            Some(
                Swing {
                    pair: c.pair,
                    open_time: third.open_time,
                    timeframe: c.timeframe,
                    price: third.low,
                    flow: Flow::Bull,
                    close_time: None,
                },
            )
        } else if third.high.atoms > first.high.atoms && third.high.atoms > second.high.atoms
            && third.high.atoms > fourth.high.atoms && third.high.atoms > c.high.atoms {
            Some(
                Swing {
                    pair: c.pair,
                    open_time: third.open_time,
                    timeframe: c.timeframe,
                    price: third.high,
                    flow: Flow::Bear,
                    close_time: None,
                },
            )
        } else {
            None
        }
    }
}

/// The four most recent candles of `c`'s series strictly before `c`, most
/// recent first: descending, complete, and all from `s`.
pub open spec fn is_last_four(s: Seq<Candle>, c: Candle, top: Seq<Candle>) -> bool {
    &&& top.len() <= 4
    &&& forall|j: int|
        0 <= j < top.len() ==> {
            &&& s.contains(#[trigger] top[j])
            &&& top[j].pair@ == c.pair@
            &&& top[j].timeframe@ == c.timeframe@
            &&& top[j].open_time < c.open_time
        }
    &&& forall|j1: int, j2: int|
        0 <= j1 < j2 < top.len() ==> (#[trigger] top[j1]).open_time > (#[trigger] top[j2]).open_time
    &&& forall|i: int|
        0 <= i < s.len() && (#[trigger] s[i]).pair@ == c.pair@ && s[i].timeframe@ == c.timeframe@
            && s[i].open_time < c.open_time ==> top.contains(s[i]) || (top.len() == 4 && s[
            i].open_time < top[top.len() - 1].open_time)
}

/// Consumes `candle_close` events and maintains the swing table.
pub struct SwingIndicator {}

impl SwingIndicator {
    pub fn new() -> (r: SwingIndicator) {
        SwingIndicator {  }
    }

    /// Detects and stores a new swing for the closing candle. Returns the
    /// created swing; one that already exists under its key is returned but
    /// leaves the table unchanged.
    pub fn handle_swing_creation(&self, store: &mut Store, candle: &Candle) -> (r: Option<Swing>)
        requires
            old(store).wf(),
            candle.wf(),
        ensures
            final (store).wf(),
            final (store).candles@ == old(store).candles@,
            final (store).fvgs@ == old(store).fvgs@,
            final (store).trades@ == old(store).trades@,
            final (store).closes@ == old(store).closes@,
            exists|top: Seq<Candle>|
                {
                    &&& is_last_four(old(store).candles@, *candle, top)
                    &&& r == swing_decision(top, *candle)
                },
            r is None ==> final (store).swings@ == old(store).swings@,
            r matches Some(w) ==> {
                &&& w.wf()
                &&& w.close_time is None
                &&& (exists|i: int|
                    0 <= i < old(store).swings@.len() && (#[trigger] old(
                        store,
                    ).swings@[i]).same_key(w)) ==> final (store).swings@ == old(store).swings@
                &&& !(exists|i: int|
                    0 <= i < old(store).swings@.len() && (#[trigger] old(
                        store,
                    ).swings@[i]).same_key(w)) ==> final (store).swings@ == old(store).swings@.push(
                    w,
                )
            },
    {
        let last4 = store.recent_candles_before(&candle.pair, &candle.timeframe, candle.open_time, 4);
        let ghost top = last4@;
        if last4.len() != 4 {
            proof {
                assert(is_last_four(store.candles@, *candle, top));
                assert(swing_decision(top, *candle) is None);
            }
            return None;
        }
        proof {
            assert(is_last_four(store.candles@, *candle, top));
            let sc = store.candles@;
            let w0 = choose|w: int| 0 <= w < sc.len() && sc[w] == top[0];
            let w1 = choose|w: int| 0 <= w < sc.len() && sc[w] == top[1];
            let w2 = choose|w: int| 0 <= w < sc.len() && sc[w] == top[2];
            let w3 = choose|w: int| 0 <= w < sc.len() && sc[w] == top[3];
            assert(sc[w0].wf() && sc[w1].wf() && sc[w2].wf() && sc[w3].wf());
        }
        let third = &last4[1];
        let swing = if third.low.lt(&last4[3].low) && third.low.lt(&last4[2].low) && third.low.lt(
            &last4[0].low,
        ) && third.low.lt(&candle.low) {
            Swing {
                pair: candle.pair.clone(),
                open_time: third.open_time,
                timeframe: candle.timeframe.clone(),
                price: third.low,
                flow: Flow::Bull,
                close_time: None,
            }
        } else if third.high.gt(&last4[3].high) && third.high.gt(&last4[2].high) && third.high.gt(
            &last4[0].high,
        ) && third.high.gt(&candle.high) {
            Swing {
                pair: candle.pair.clone(),
                open_time: third.open_time,
                timeframe: candle.timeframe.clone(),
                price: third.high,
                flow: Flow::Bear,
                close_time: None,
            }
        } else {
            return None;
        };
        store.insert_swing(swing.clone());
        Some(swing)
    }

    /// Closes every open swing of the series breached by the closing
    /// candle, returning the closed swings.
    pub fn handle_closed_swings(&self, store: &mut Store, candle: &Candle) -> (r: Vec<Swing>)
        requires
            old(store).wf(),
        ensures
            final (store).wf(),
            final (store).candles@ == old(store).candles@,
            final (store).fvgs@ == old(store).fvgs@,
            final (store).trades@ == old(store).trades@,
            final (store).closes@ == old(store).closes@,
            final (store).swings@.len() == old(store).swings@.len(),
            forall|i: int|
                0 <= i < old(store).swings@.len() ==> final (store).swings@[i]
                    == if crate::store::swing_should_close(
                    #[trigger] old(store).swings@[i],
                    *candle,
                ) {
                    crate::store::close_swing(old(store).swings@[i], candle.open_time)
                } else {
                    old(store).swings@[i]
                },
            r@ == closed_swing_list(old(store).swings@, *candle),
    {
        store.close_swings(candle)
    }

    /// Processes one candle close: first pivot creation, then swing
    /// closing. Returns the created swing and the closed swings.
    pub fn process(&self, store: &mut Store, candle: &Candle) -> (r: (Option<Swing>, Vec<Swing>))
        requires
            old(store).wf(),
            candle.wf(),
        ensures
            final (store).wf(),
            final (store).candles@ == old(store).candles@,
            final (store).fvgs@ == old(store).fvgs@,
            final (store).trades@ == old(store).trades@,
            final (store).closes@ == old(store).closes@,
            exists|top: Seq<Candle>|
                {
                    &&& is_last_four(old(store).candles@, *candle, top)
                    &&& r.0 == swing_decision(top, *candle)
                },
            ({
                let mid = if r.0 matches Some(w) && !(exists|i: int|
                    0 <= i < old(store).swings@.len() && (#[trigger] old(
                        store,
                    ).swings@[i]).same_key(w)) {
                    old(store).swings@.push(r.0->0)
                } else {
                    old(store).swings@
                };
                &&& final (store).swings@.len() == mid.len()
                &&& (forall|i: int|
                    0 <= i < mid.len() ==> final (store).swings@[i]
                        == if crate::store::swing_should_close(#[trigger] mid[i], *candle) {
                        crate::store::close_swing(mid[i], candle.open_time)
                    } else {
                        mid[i]
                    })
                &&& r.1@ == closed_swing_list(mid, *candle)
            }),
    {
        let created = self.handle_swing_creation(store, candle);
        let closed = self.handle_closed_swings(store, candle);
        (created, closed)
    }
}

} // verus!
