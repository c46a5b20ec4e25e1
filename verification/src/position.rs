//! The position manager: every candle drives trade fills, take-profit
//! closes and stop-loss closes, in that order, over the trades of the
//! candle's series.
use crate::models::{Candle, Flow, Trade};
use crate::store::Store;
use vstd::pervasive::VecAdditionalExecFns;
use vstd::prelude::*;

verus! {

/// A pending trade fills when the candle's close has reached its entry:
/// from above for bull entries, from below for bear entries.
pub open spec fn fill_cond(t: Trade, c: Candle) -> bool {
    &&& t.pair@ == c.pair@
    &&& t.timeframe@ == c.timeframe@
    &&& t.fill_time is None
    &&& t.open_time < c.open_time
    &&& match t.flow {
        Flow::Bull => t.entry.atoms >= c.close.atoms,
        Flow::Bear => t.entry.atoms <= c.close.atoms,
    }
}

pub open spec fn fill_step(t: Trade, c: Candle) -> Trade {
    if fill_cond(t, c) {
        Trade { fill_time: Some(c.open_time), ..t }
    } else {
        t
    }
}

/// A filled open trade closes at take-profit when the close has reached it.
pub open spec fn tp_cond(t: Trade, c: Candle) -> bool {
    &&& t.pair@ == c.pair@
    &&& t.timeframe@ == c.timeframe@
    &&& t.close_time is None
    &&& match t.fill_time {
        Some(ft) => ft <= c.open_time,
        None => false,
    }
    &&& match t.flow {
        Flow::Bull => t.take_profit.atoms <= c.close.atoms,
        Flow::Bear => t.take_profit.atoms >= c.close.atoms,
    }
}

pub open spec fn tp_step(t: Trade, c: Candle) -> Trade {
    if tp_cond(t, c) {
        Trade { close_time: Some(c.open_time), close: Some(t.take_profit), ..t }
    } else {
        t
    }
}

/// A filled open trade closes at stop-loss when the close has reached it.
pub open spec fn sl_cond(t: Trade, c: Candle) -> bool {
    &&& t.pair@ == c.pair@
    &&& t.timeframe@ == c.timeframe@
    &&& t.close_time is None
    &&& match t.fill_time {
        Some(ft) => ft <= c.open_time,
        None => false,
    }
    &&& match t.flow {
        Flow::Bull => t.stop_loss.atoms >= c.close.atoms,
        Flow::Bear => t.stop_loss.atoms <= c.close.atoms,
    }
}

pub open spec fn sl_step(t: Trade, c: Candle) -> Trade {
    if sl_cond(t, c) {
        Trade { close_time: Some(c.open_time), close: Some(t.stop_loss), ..t }
    } else {
        t
    }
}

/// One candle's full effect on a trade: fill, then take-profit, then
/// stop-loss.
pub open spec fn position_step(t: Trade, c: Candle) -> Trade {
    sl_step(tp_step(fill_step(t, c), c), c)
}

/// The trades of `s` that the fill pass updates, in store order, updated.
pub open spec fn filled_list(s: Seq<Trade>, c: Candle) -> Seq<Trade>
    decreases s.len(),
{
    if s.len() == 0 {
        Seq::empty()
    } else {
        filled_list(s.drop_last(), c) + if fill_cond(s.last(), c) {
            seq![fill_step(s.last(), c)]
        } else {
            Seq::empty()
        }
    }
}

pub open spec fn tp_list(s: Seq<Trade>, c: Candle) -> Seq<Trade>
    decreases s.len(),
{
    if s.len() == 0 {
        Seq::empty()
    } else {
        tp_list(s.drop_last(), c) + if tp_cond(s.last(), c) {
            seq![tp_step(s.last(), c)]
        } else {
            Seq::empty()
        }
    }
}

pub open spec fn sl_list(s: Seq<Trade>, c: Candle) -> Seq<Trade>
    decreases s.len(),
{
    if s.len() == 0 {
        Seq::empty()
    } else {
        sl_list(s.drop_last(), c) + if sl_cond(s.last(), c) {
            seq![sl_step(s.last(), c)]
        } else {
            Seq::empty()
        }
    }
}

/// Processes one `candle` message: fills pending trades whose entry the
/// close reached, then closes filled trades at take-profit, then at
/// stop-loss. Returns the rows each pass updated, in that order.
pub fn handle_candle(store: &mut Store, data: &Candle) -> (r: (Vec<Trade>, Vec<Trade>, Vec<Trade>))
    requires
        old(store).wf(),
    ensures
        final (store).wf(),
        final (store).candles@ == old(store).candles@,
        final (store).fvgs@ == old(store).fvgs@,
        final (store).swings@ == old(store).swings@,
        final (store).closes@ == old(store).closes@,
        final (store).trades@.len() == old(store).trades@.len(),
        forall|i: int|
            0 <= i < old(store).trades@.len() ==> final (store).trades@[i] == position_step(
                #[trigger] old(store).trades@[i],
                *data,
            ),
        r.0@ == filled_list(old(store).trades@, *data),
        r.1@ == tp_list(old(store).trades@.map_values(|t: Trade| fill_step(t, *data)), *data),
        r.2@ == sl_list(
            old(store).trades@.map_values(|t: Trade| tp_step(fill_step(t, *data), *data)),
            *data,
        ),
{
    let ghost s0 = old(store).trades@;
    let ghost s1 = s0.map_values(|t: Trade| fill_step(t, *data));
    let ghost s2 = s0.map_values(|t: Trade| tp_step(fill_step(t, *data), *data));
    let n = store.trades.len();
    let mut filled: Vec<Trade> = Vec::new();
    let mut i: usize = 0;
    while i < n
        invariant
            old(store).wf(),
            n == store.trades@.len(),
            n == s0.len(),
            s0 == old(store).trades@,
            0 <= i <= n,
            store.candles@ == old(store).candles@,
            store.fvgs@ == old(store).fvgs@,
            store.swings@ == old(store).swings@,
            store.closes@ == old(store).closes@,
            forall|j: int| 0 <= j < i ==> store.trades@[j] == fill_step(#[trigger] s0[j], *data),
            forall|j: int| i <= j < n ==> store.trades@[j] == s0[j],
            filled@ == filled_list(s0.subrange(0, i as int), *data),
            forall|j: int| 0 <= j < n ==> (#[trigger] store.trades@[j]).wf(),
            crate::store::unique_trades(store.trades@),
        decreases n - i,
    {
        let ghost pre = s0.subrange(0, i as int);
        let ghost cur = s0.subrange(0, i as int + 1);
        proof {
            assert(cur.drop_last() =~= pre);
            assert(cur.last() == s0[i as int]);
        }
        let t = &store.trades[i];
        let hit = match t.flow {
            Flow::Bull => t.entry.ge(&data.close),
            Flow::Bear => t.entry.le(&data.close),
        };
        if t.fill_time.is_none() && t.open_time < data.open_time && hit && t.pair == data.pair
            && t.timeframe == data.timeframe {
            let u = Trade { fill_time: Some(data.open_time), ..t.clone() };
            proof {
                assert(u == fill_step(s0[i as int], *data));
            }
            filled.push(u.clone());
            store.trades.set(i, u);
        }
        i = i + 1;
    }
    proof {
        assert(s0.subrange(0, n as int) =~= s0);
        assert(store.trades@ =~= s1);
    }
    let mut tp_closed: Vec<Trade> = Vec::new();
    let mut i2: usize = 0;
    while i2 < n
        invariant
            old(store).wf(),
            n == store.trades@.len(),
            n == s1.len(),
            s1 == old(store).trades@.map_values(|t: Trade| fill_step(t, *data)),
            0 <= i2 <= n,
            store.candles@ == old(store).candles@,
            store.fvgs@ == old(store).fvgs@,
            store.swings@ == old(store).swings@,
            store.closes@ == old(store).closes@,
            forall|j: int| 0 <= j < i2 ==> store.trades@[j] == tp_step(#[trigger] s1[j], *data),
            forall|j: int| i2 <= j < n ==> store.trades@[j] == s1[j],
            tp_closed@ == tp_list(s1.subrange(0, i2 as int), *data),
            forall|j: int| 0 <= j < n ==> (#[trigger] store.trades@[j]).wf(),
            crate::store::unique_trades(store.trades@),
        decreases n - i2,
    {
        let ghost pre = s1.subrange(0, i2 as int);
        let ghost cur = s1.subrange(0, i2 as int + 1);
        proof {
            assert(cur.drop_last() =~= pre);
            assert(cur.last() == s1[i2 as int]);
        }
        let t = &store.trades[i2];
        let hit = match t.flow {
            Flow::Bull => t.take_profit.le(&data.close),
            Flow::Bear => t.take_profit.ge(&data.close),
        };
        let filled_in_time = match t.fill_time {
            Some(ft) => ft <= data.open_time,
            None => false,
        };
        if t.close_time.is_none() && filled_in_time && hit && t.pair == data.pair && t.timeframe
            == data.timeframe {
            let u = Trade {
                close_time: Some(data.open_time),
                close: Some(t.take_profit),
                ..t.clone()
            };
            proof {
                assert(u == tp_step(s1[i2 as int], *data));
            }
            tp_closed.push(u.clone());
            store.trades.set(i2, u);
        }
        i2 = i2 + 1;
    }
    proof {
        assert(s1.subrange(0, n as int) =~= s1);
        assert(store.trades@ =~= s2);
    }
    let mut sl_closed: Vec<Trade> = Vec::new();
    let mut i3: usize = 0;
    while i3 < n
        invariant
            old(store).wf(),
            n == store.trades@.len(),
            n == s2.len(),
            s2 == old(store).trades@.map_values(
                |t: Trade| tp_step(fill_step(t, *data), *data),
            ),
            s0 == old(store).trades@,
            0 <= i3 <= n,
            store.candles@ == old(store).candles@,
            store.fvgs@ == old(store).fvgs@,
            store.swings@ == old(store).swings@,
            store.closes@ == old(store).closes@,
            forall|j: int| 0 <= j < i3 ==> store.trades@[j] == sl_step(#[trigger] s2[j], *data),
            forall|j: int| i3 <= j < n ==> store.trades@[j] == s2[j],
            sl_closed@ == sl_list(s2.subrange(0, i3 as int), *data),
            forall|j: int| 0 <= j < n ==> (#[trigger] store.trades@[j]).wf(),
            crate::store::unique_trades(store.trades@),
        decreases n - i3,
    {
        let ghost pre = s2.subrange(0, i3 as int);
        let ghost cur = s2.subrange(0, i3 as int + 1);
        proof {
            assert(cur.drop_last() =~= pre);
            assert(cur.last() == s2[i3 as int]);
        }
        let t = &store.trades[i3];
        let hit = match t.flow {
            Flow::Bull => t.stop_loss.ge(&data.close),
            Flow::Bear => t.stop_loss.le(&data.close),
        };
        let filled_in_time = match t.fill_time {
            Some(ft) => ft <= data.open_time,
            None => false,
        };
        if t.close_time.is_none() && filled_in_time && hit && t.pair == data.pair && t.timeframe
            == data.timeframe {
            let u = Trade { close_time: Some(data.open_time), close: Some(t.stop_loss), ..t.clone() };
            proof {
                assert(u == sl_step(s2[i3 as int], *data));
            }
            sl_closed.push(u.clone());
            store.trades.set(i3, u);
        }
        i3 = i3 + 1;
    }
    proof {
        assert(s2.subrange(0, n as int) =~= s2);
        assert forall|i: int| 0 <= i < s0.len() implies store.trades@[i] == position_step(
            #[trigger] s0[i],
            *data,
        ) by {
            assert(s1[i] == fill_step(s0[i], *data));
            assert(s2[i] == tp_step(fill_step(s0[i], *data), *data));
        }
    }
    (filled, tp_closed, sl_closed)
}

} // verus!
