//! The entity store: candles, fair-value gaps, swings and trades, keyed by
//! `(pair, open_time, timeframe)`.
//!
//! The store upholds the primary-key invariant — at most one candle (gap,
//! swing, trade) per key — and the candle upsert merges on conflict exactly
//! as the aggregator requires: highest high, lowest low, latest close.
//! A ghost history records every candle-close event applied to the gap
//! table, so that each closed gap provably points back to the candle whose
//! close pierced it.
use crate::models::{Candle, Flow, Swing, Trade, FVG};
use crate::price::Price;
use crate::timeframe::{Timeframe, TS_LIMIT, TS_MIN};
use vstd::prelude::*;
use vstd::pervasive::VecAdditionalExecFns;

verus! {

/// No two candles share a key.
pub open spec fn unique_candles(s: Seq<Candle>) -> bool {
    forall|i: int, j: int| 0 <= i < j < s.len() ==> !(#[trigger] s[i]).same_key(#[trigger] s[j])
}

pub open spec fn unique_fvgs(s: Seq<FVG>) -> bool {
    forall|i: int, j: int| 0 <= i < j < s.len() ==> !(#[trigger] s[i]).same_key(#[trigger] s[j])
}

pub open spec fn unique_swings(s: Seq<Swing>) -> bool {
    forall|i: int, j: int| 0 <= i < j < s.len() ==> !(#[trigger] s[i]).same_key(#[trigger] s[j])
}

pub open spec fn unique_trades(s: Seq<Trade>) -> bool {
    forall|i: int, j: int| 0 <= i < j < s.len() ==> !(#[trigger] s[i]).same_key(#[trigger] s[j])
}

/// The candle key is a real window of some valid timeframe: its open time is
/// its own window open, and its size is that window's length.
pub open spec fn window_key_ok(timeframe: Seq<char>, open_time: int, size: int) -> bool {
    exists|tf: Timeframe|
        {
            &&& tf.is_valid()
            &&& #[trigger] tf.format_spec() == timeframe
            &&& TS_MIN <= open_time < TS_LIMIT
            &&& tf.window_open_unix(open_time) == open_time
            &&& size == tf.window_size_unix(open_time)
        }
}

/// A closed gap is supported by a recorded candle-close event: same series,
/// close time equal to that candle's open time, and the gap pierced by its
/// close.
pub open spec fn fvg_close_supported(f: FVG, closes: Seq<Candle>) -> bool {
    match f.close_time {
        None => true,
        Some(t) => exists|i: int|
            {
                &&& 0 <= i < closes.len()
                &&& (#[trigger] closes[i]).pair@ == f.pair@
                &&& closes[i].timeframe@ == f.timeframe@
                &&& closes[i].open_time == t
                &&& f.pierced_by(closes[i].close)
            },
    }
}

pub open spec fn candle_key_at(
    s: Seq<Candle>,
    pair: Seq<char>,
    timeframe: Seq<char>,
    open_time: int,
    i: int,
) -> bool {
    0 <= i < s.len() && s[i].has_key(pair, timeframe, open_time)
}

pub open spec fn has_candle_key(
    s: Seq<Candle>,
    pair: Seq<char>,
    timeframe: Seq<char>,
    open_time: int,
) -> bool {
    exists|i: int| candle_key_at(s, pair, timeframe, open_time, i)
}

/// Index `i` holds the most recent candle of the series strictly before
/// `before`.
pub open spec fn is_latest_candle_before(
    s: Seq<Candle>,
    pair: Seq<char>,
    tf: Seq<char>,
    before: int,
    i: int,
) -> bool {
    &&& 0 <= i < s.len()
    &&& s[i].pair@ == pair
    &&& s[i].timeframe@ == tf
    &&& s[i].open_time < before
    &&& forall|j: int|
        0 <= j < s.len() && (#[trigger] s[j]).pair@ == pair && s[j].timeframe@ == tf
            && s[j].open_time < before ==> s[j].open_time <= s[i].open_time
}

/// The most recent candle of the series strictly before `before`, if any.
pub open spec fn latest_before_spec(
    s: Seq<Candle>,
    pair: Seq<char>,
    tf: Seq<char>,
    before: int,
) -> Option<Candle> {
    if exists|i: int| is_latest_candle_before(s, pair, tf, before, i) {
        Some(s[choose|i: int| is_latest_candle_before(s, pair, tf, before, i)])
    } else {
        None
    }
}

/// Conflict policy of the candle upsert: highest high, lowest low, latest
/// close; `open` and the key are untouched.
pub open spec fn merge_candle(c: Candle, price: Price) -> Candle {
    Candle {
        high: if price.atoms >= c.high.atoms {
            price
        } else {
            c.high
        },
        low: if price.atoms <= c.low.atoms {
            price
        } else {
            c.low
        },
        close: price,
        ..c
    }
}

pub struct Store {
    pub candles: Vec<Candle>,
    pub fvgs: Vec<FVG>,
    pub swings: Vec<Swing>,
    pub trades: Vec<Trade>,
    /// History of candle-close events applied to the gap table.
    pub closes: Ghost<Seq<Candle>>,
}

impl Store {
    pub open spec fn candles_ok(self) -> bool {
        &&& unique_candles(self.candles@)
        &&& forall|i: int|
            0 <= i < self.candles@.len() ==> (#[trigger] self.candles@[i]).wf() && window_key_ok(
                self.candles@[i].timeframe@,
                self.candles@[i].open_time as int,
                self.candles@[i].size_in_millis as int,
            )
    }

    pub open spec fn fvgs_ok(self) -> bool {
        &&& unique_fvgs(self.fvgs@)
        &&& forall|i: int|
            0 <= i < self.fvgs@.len() ==> (#[trigger] self.fvgs@[i]).wf() && fvg_close_supported(
                self.fvgs@[i],
                self.closes@,
            )
    }

    pub open spec fn swings_ok(self) -> bool {
        &&& unique_swings(self.swings@)
        &&& forall|i: int| 0 <= i < self.swings@.len() ==> (#[trigger] self.swings@[i]).wf()
    }

    pub open spec fn trades_ok(self) -> bool {
        &&& unique_trades(self.trades@)
        &&& forall|i: int| 0 <= i < self.trades@.len() ==> (#[trigger] self.trades@[i]).wf()
    }

    /// The store invariant; in particular at most one candle per
    /// `(pair, open_time, timeframe)`.
    pub open spec fn wf(self) -> bool {
        self.candles_ok() && self.fvgs_ok() && self.swings_ok() && self.trades_ok()
    }

    pub fn new() -> (r: Store)
        ensures
            r.wf(),
            r.candles@.len() == 0,
            r.fvgs@.len() == 0,
            r.swings@.len() == 0,
            r.trades@.len() == 0,
            r.closes@.len() == 0,
    {
        Store {
            candles: Vec::new(),
            fvgs: Vec::new(),
            swings: Vec::new(),
            trades: Vec::new(),
            closes: Ghost(Seq::empty()),
        }
    }

    /// Empties every table, as a backtest run does before replaying.
    pub fn clear(&mut self)
        ensures
            final (self).wf(),
            final (self).candles@.len() == 0,
            final (self).fvgs@.len() == 0,
            final (self).swings@.len() == 0,
            final (self).trades@.len() == 0,
    {
        self.candles = Vec::new();
        self.fvgs = Vec::new();
        self.swings = Vec::new();
        self.trades = Vec::new();
        self.closes = Ghost(Seq::empty());
    }

    /// Index of the candle with the given key, if any.
    fn find_candle_index(&self, pair: &String, timeframe: &String, open_time: i64) -> (r: Option<
        usize,
    >)
        ensures
            r matches Some(i) ==> candle_key_at(
                self.candles@,
                pair@,
                timeframe@,
                open_time as int,
                i as int,
            ),
            r is None ==> !has_candle_key(self.candles@, pair@, timeframe@, open_time as int),
    {
        let n = self.candles.len();
        let mut i: usize = 0;
        while i < n
            invariant
                n == self.candles@.len(),
                0 <= i <= n,
                forall|j: int|
                    0 <= j < i ==> !candle_key_at(
                        self.candles@,
                        pair@,
                        timeframe@,
                        open_time as int,
                        j,
                    ),
            decreases n - i,
        {
            let c = &self.candles[i];
            if c.open_time == open_time && c.pair == *pair && c.timeframe == *timeframe {
                return Some(i);
            }
            i = i + 1;
        }
        None
    }

    /// Insert-or-merge under the primary key, returning the stored candle.
    /// On conflict the high becomes the greatest high, the low the least
    /// low, the close the new price; `open` is not touched.
    pub fn upsert_candle(
        &mut self,
        pair: &String,
        open_time: i64,
        timeframe: &String,
        size_in_millis: i64,
        price: Price,
    ) -> (r: Candle)
        requires
            old(self).wf(),
            price.wf(),
            window_key_ok(timeframe@, open_time as int, size_in_millis as int),
            size_in_millis >= 1,
        ensures
            final (self).wf(),
            final (self).fvgs@ == old(self).fvgs@,
            final (self).swings@ == old(self).swings@,
            final (self).trades@ == old(self).trades@,
            final (self).closes@ == old(self).closes@,
            r.wf(),
            r.has_key(pair@, timeframe@, open_time as int),
            has_candle_key(old(self).candles@, pair@, timeframe@, open_time as int) ==> exists|
                i: int,
            |
                {
                    &&& candle_key_at(old(self).candles@, pair@, timeframe@, open_time as int, i)
                    &&& final (self).candles@ == old(self).candles@.update(
                        i,
                        merge_candle(#[trigger] old(self).candles@[i], price),
                    )
                    &&& r == merge_candle(old(self).candles@[i], price)
                },
            !has_candle_key(old(self).candles@, pair@, timeframe@, open_time as int) ==> {
                &&& final (self).candles@ == old(self).candles@.push(r)
                &&& r.pair == *pair
                &&& r.open_time == open_time
                &&& r.timeframe == *timeframe
                &&& r.open == price
                &&& r.high == price
                &&& r.low == price
                &&& r.close == price
                &&& r.size_in_millis == size_in_millis
            },
    {
        let found = self.find_candle_index(pair, timeframe, open_time);
        match found {
            Some(i) => {
                let cur = self.candles[i].clone();
                let merged = Candle {
                    pair: cur.pair,
                    open_time: cur.open_time,
                    timeframe: cur.timeframe,
                    open: cur.open,
                    high: cur.high.max(price),
                    low: cur.low.min(price),
                    close: price,
                    size_in_millis: cur.size_in_millis,
                };
                let r = merged.clone();
                proof {
                    assert(merged == merge_candle(old(self).candles@[i as int], price));
                }
                self.candles.set(i, merged);
                proof {
                    let s0 = old(self).candles@;
                    let s1 = self.candles@;
                    assert forall|p: int, q: int| 0 <= p < q < s1.len() implies !(
                    #[trigger] s1[p]).same_key(#[trigger] s1[q]) by {
                        assert(s1[p].same_key(s0[p]) || s1[p] == s0[p] || p == i);
                        assert(s0[p].same_key(s0[p]));
                        if p == i {
                            assert(s1[p].same_key(s0[p]));
                        }
                        if q == i {
                            assert(s1[q].same_key(s0[q]));
                        }
                        assert(!s0[p].same_key(s0[q]));
                    }
                }
                r
            },
            None => {
                let r = Candle {
                    pair: pair.clone(),
                    open_time,
                    timeframe: timeframe.clone(),
                    open: price,
                    high: price,
                    low: price,
                    close: price,
                    size_in_millis,
                };
                self.candles.push(r.clone());
                proof {
                    let s0 = old(self).candles@;
                    let s1 = self.candles@;
                    assert forall|p: int, q: int| 0 <= p < q < s1.len() implies !(
                    #[trigger] s1[p]).same_key(#[trigger] s1[q]) by {
                        if q < s0.len() {
                            assert(s1[p] == s0[p] && s1[q] == s0[q]);
                        } else {
                            assert(s1[q] == r);
                            assert(s1[p] == s0[p]);
                            if s0[p].same_key(r) {
                                assert(candle_key_at(s0, pair@, timeframe@, open_time as int, p));
                            }
                        }
                    }
                }
                r
            },
        }
    }

    /// The close-detection query: if no candle exists yet at `open_time` for
    /// this series, the most recent earlier candle of the series — the one
    /// that just closed. `None` when the window is already open or the
    /// series has no earlier candle.
    pub fn closed_candle_for(&self, pair: &String, timeframe: &String, open_time: i64) -> (r:
        Option<Candle>)
        ensures
            r matches Some(c) ==> {
                &&& !has_candle_key(self.candles@, pair@, timeframe@, open_time as int)
                &&& self.candles@.contains(c)
                &&& c.pair@ == pair@
                &&& c.timeframe@ == timeframe@
                &&& c.open_time < open_time
                &&& forall|j: int|
                    0 <= j < self.candles@.len() && (#[trigger] self.candles@[j]).pair@ == pair@
                        && self.candles@[j].timeframe@ == timeframe@ && self.candles@[j].open_time
                        < open_time ==> self.candles@[j].open_time <= c.open_time
            },
            r is None ==> has_candle_key(self.candles@, pair@, timeframe@, open_time as int)
                || forall|j: int|
                0 <= j < self.candles@.len() && (#[trigger] self.candles@[j]).pair@ == pair@
                    && self.candles@[j].timeframe@ == timeframe@ ==> self.candles@[j].open_time
                    >= open_time,
    {
        let found = self.find_candle_index(pair, timeframe, open_time);
        if found.is_some() {
            return None;
        }
        self.latest_candle_before(pair, timeframe, open_time)
    }

    /// Most recent candle of the series strictly before `before`.
    pub fn latest_candle_before(&self, pair: &String, timeframe: &String, before: i64) -> (r:
        Option<Candle>)
        ensures
            r matches Some(c) ==> {
                &&& self.candles@.contains(c)
                &&& c.pair@ == pair@
                &&& c.timeframe@ == timeframe@
                &&& c.open_time < before
                &&& forall|j: int|
                    0 <= j < self.candles@.len() && (#[trigger] self.candles@[j]).pair@ == pair@
                        && self.candles@[j].timeframe@ == timeframe@ && self.candles@[j].open_time
                        < before ==> self.candles@[j].open_time <= c.open_time
            },
            r is None ==> forall|j: int|
                0 <= j < self.candles@.len() && (#[trigger] self.candles@[j]).pair@ == pair@
                    && self.candles@[j].timeframe@ == timeframe@ ==> self.candles@[j].open_time
                    >= before,
            self.wf() ==> r == latest_before_spec(self.candles@, pair@, timeframe@, before as int),
    {
        let n = self.candles.len();
        let mut best: Option<usize> = None;
        let mut i: usize = 0;
        while i < n
            invariant
                n == self.candles@.len(),
                0 <= i <= n,
                best matches Some(b) ==> b < i && self.candles@[b as int].pair@ == pair@
                    && self.candles@[b as int].timeframe@ == timeframe@ && self.candles@[
                    b as int].open_time < before,
                forall|j: int|
                    0 <= j < i && (#[trigger] self.candles@[j]).pair@ == pair@ && self.candles@[
                        j].timeframe@ == timeframe@ && self.candles@[j].open_time < before ==> (
                    best matches Some(b) && self.candles@[j].open_time <= self.candles@[
                        b as int].open_time),
            decreases n - i,
        {
            let c = &self.candles[i];
            if c.pair == *pair && c.timeframe == *timeframe && c.open_time < before {
                match best {
                    Some(b) => {
                        if self.candles[b].open_time < c.open_time {
                            best = Some(i);
                        }
                    },
                    None => {
                        best = Some(i);
                    },
                }
            }
            i = i + 1;
        }
        proof {
            if self.wf() {
                let sc = self.candles@;
                if best is Some {
                    let b = best->0 as int;
                    assert(is_latest_candle_before(sc, pair@, timeframe@, before as int, b));
                    let ci = choose|ci: int|
                        is_latest_candle_before(sc, pair@, timeframe@, before as int, ci);
                    assert(sc[ci].open_time <= sc[b].open_time && sc[b].open_time
                        <= sc[ci].open_time);
                    if ci != b {
                        if ci < b {
                            assert(!sc[ci].same_key(sc[b]));
                        } else {
                            assert(!sc[b].same_key(sc[ci]));
                        }
                        assert(false);
                    }
                } else {
                    if exists|i: int|
                        is_latest_candle_before(sc, pair@, timeframe@, before as int, i) {
                        let i = choose|i: int|
                            is_latest_candle_before(sc, pair@, timeframe@, before as int, i);
                        assert(sc[i].open_time >= before);
                    }
                }
            }
        }
        match best {
            Some(b) => Some(self.candles[b].clone()),
            None => None,
        }
    }
}

/// Does a candle close `c` close the gap `f`? Same series, strictly earlier
/// gap, gap still open, and the close pierces the gap.
pub open spec fn fvg_should_close(f: FVG, c: Candle) -> bool {
    &&& f.pair@ == c.pair@
    &&& f.timeframe@ == c.timeframe@
    &&& f.open_time < c.open_time
    &&& f.close_time is None
    &&& f.pierced_by(c.close)
}

pub open spec fn close_fvg(f: FVG, t: i64) -> FVG {
    FVG { close_time: Some(t), ..f }
}

/// The gaps of `s` that `c` closes, in store order, in their closed state.
pub open spec fn closed_fvg_list(s: Seq<FVG>, c: Candle) -> Seq<FVG>
    decreases s.len(),
{
    if s.len() == 0 {
        Seq::empty()
    } else {
        closed_fvg_list(s.drop_last(), c) + if fvg_should_close(s.last(), c) {
            seq![close_fvg(s.last(), c.open_time)]
        } else {
            Seq::empty()
        }
    }
}

pub open spec fn swing_should_close(w: Swing, c: Candle) -> bool {
    &&& w.pair@ == c.pair@
    &&& w.timeframe@ == c.timeframe@
    &&& w.open_time < c.open_time
    &&& w.close_time is None
    &&& w.breached_by(c.close)
}

pub open spec fn close_swing(w: Swing, t: i64) -> Swing {
    Swing { close_time: Some(t), ..w }
}

pub open spec fn closed_swing_list(s: Seq<Swing>, c: Candle) -> Seq<Swing>
    decreases s.len(),
{
    if s.len() == 0 {
        Seq::empty()
    } else {
        closed_swing_list(s.drop_last(), c) + if swing_should_close(s.last(), c) {
            seq![close_swing(s.last(), c.open_time)]
        } else {
            Seq::empty()
        }
    }
}

impl Store {
    /// Inserts an open gap; a key conflict is a no-op for idempotency.
    /// Returns whether the gap was inserted.
    pub fn insert_fvg(&mut self, fvg: FVG) -> (r: bool)
        requires
            old(self).wf(),
            fvg.wf(),
            fvg.close_time is None,
        ensures
            final (self).wf(),
            final (self).candles@ == old(self).candles@,
            final (self).swings@ == old(self).swings@,
            final (self).trades@ == old(self).trades@,
            final (self).closes@ == old(self).closes@,
            r == !(exists|i: int|
                0 <= i < old(self).fvgs@.len() && (#[trigger] old(self).fvgs@[i]).same_key(fvg)),
            r ==> final (self).fvgs@ == old(self).fvgs@.push(fvg),
            !r ==> final (self).fvgs@ == old(self).fvgs@,
    {
        let n = self.fvgs.len();
        let mut i: usize = 0;
        while i < n
            invariant
                old(self).wf(),
                self == old(self),
                n == self.fvgs@.len(),
                0 <= i <= n,
                forall|j: int| 0 <= j < i ==> !(#[trigger] self.fvgs@[j]).same_key(fvg),
            decreases n - i,
        {
            let f = &self.fvgs[i];
            if f.open_time == fvg.open_time && f.pair == fvg.pair && f.timeframe == fvg.timeframe {
                return false;
            }
            i = i + 1;
        }
        self.fvgs.push(fvg);
        proof {
            let s0 = old(self).fvgs@;
            let s1 = self.fvgs@;
            assert forall|p: int, q: int| 0 <= p < q < s1.len() implies !(#[trigger] s1[p]).same_key(
                #[trigger] s1[q],
            ) by {
                if q < s0.len() {
                    assert(s1[p] == s0[p] && s1[q] == s0[q]);
                } else {
                    assert(s1[p] == s0[p] && s1[q] == fvg);
                }
            }
        }
        true
    }

    /// Inserts an open swing; a key conflict is a no-op for idempotency.
    pub fn insert_swing(&mut self, swing: Swing) -> (r: bool)
        requires
            old(self).wf(),
            swing.wf(),
        ensures
            final (self).wf(),
            final (self).candles@ == old(self).candles@,
            final (self).fvgs@ == old(self).fvgs@,
            final (self).trades@ == old(self).trades@,
            final (self).closes@ == old(self).closes@,
            r == !(exists|i: int|
                0 <= i < old(self).swings@.len() && (#[trigger] old(self).swings@[i]).same_key(
                    swing,
                )),
            r ==> final (self).swings@ == old(self).swings@.push(swing),
            !r ==> final (self).swings@ == old(self).swings@,
    {
        let n = self.swings.len();
        let mut i: usize = 0;
        while i < n
            invariant
                old(self).wf(),
                self == old(self),
                n == self.swings@.len(),
                0 <= i <= n,
                forall|j: int| 0 <= j < i ==> !(#[trigger] self.swings@[j]).same_key(swing),
            decreases n - i,
        {
            let w = &self.swings[i];
            if w.open_time == swing.open_time && w.pair == swing.pair && w.timeframe
                == swing.timeframe {
                return false;
            }
            i = i + 1;
        }
        self.swings.push(swing);
        proof {
            let s0 = old(self).swings@;
            let s1 = self.swings@;
            assert forall|p: int, q: int| 0 <= p < q < s1.len() implies !(#[trigger] s1[p]).same_key(
                #[trigger] s1[q],
            ) by {
                if q < s0.len() {
                    assert(s1[p] == s0[p] && s1[q] == s0[q]);
                } else {
                    assert(s1[p] == s0[p] && s1[q] == swing);
                }
            }
        }
        true
    }

    /// Inserts a trade; a key conflict is a no-op for idempotency.
    pub fn insert_trade(&mut self, trade: Trade) -> (r: bool)
        requires
            old(self).wf(),
            trade.wf(),
        ensures
            final (self).wf(),
            final (self).candles@ == old(self).candles@,
            final (self).fvgs@ == old(self).fvgs@,
            final (self).swings@ == old(self).swings@,
            final (self).closes@ == old(self).closes@,
            r == !(exists|i: int|
                0 <= i < old(self).trades@.len() && (#[trigger] old(self).trades@[i]).same_key(
                    trade,
                )),
            r ==> final (self).trades@ == old(self).trades@.push(trade),
            !r ==> final (self).trades@ == old(self).trades@,
    {
        let n = self.trades.len();
        let mut i: usize = 0;
        while i < n
            invariant
                old(self).wf(),
                self == old(self),
                n == self.trades@.len(),
                0 <= i <= n,
                forall|j: int| 0 <= j < i ==> !(#[trigger] self.trades@[j]).same_key(trade),
            decreases n - i,
        {
            let t = &self.trades[i];
            if t.open_time == trade.open_time && t.pair == trade.pair && t.timeframe
                == trade.timeframe {
                return false;
            }
            i = i + 1;
        }
        self.trades.push(trade);
        proof {
            let s0 = old(self).trades@;
            let s1 = self.trades@;
            assert forall|p: int, q: int| 0 <= p < q < s1.len() implies !(#[trigger] s1[p]).same_key(
                #[trigger] s1[q],
            ) by {
                if q < s0.len() {
                    assert(s1[p] == s0[p] && s1[q] == s0[q]);
                } else {
                    assert(s1[p] == s0[p] && s1[q] == trade);
                }
            }
        }
        true
    }

    /// Closes every open gap of `candle`'s series that `candle`'s close
    /// pierces, setting its close time to `candle`'s open time, and returns
    /// the closed gaps. Records the close event in the ghost history.
    pub fn close_fvgs(&mut self, candle: &Candle) -> (r: Vec<FVG>)
        requires
            old(self).wf(),
        ensures
            final (self).wf(),
            final (self).candles@ == old(self).candles@,
            final (self).swings@ == old(self).swings@,
            final (self).trades@ == old(self).trades@,
            final (self).closes@ == old(self).closes@.push(*candle),
            final (self).fvgs@.len() == old(self).fvgs@.len(),
            forall|i: int|
                0 <= i < old(self).fvgs@.len() ==> final (self).fvgs@[i] == if fvg_should_close(
                    #[trigger] old(self).fvgs@[i],
                    *candle,
                ) {
                    close_fvg(old(self).fvgs@[i], candle.open_time)
                } else {
                    old(self).fvgs@[i]
                },
            r@ == closed_fvg_list(old(self).fvgs@, *candle),
    {
        proof {
            let c0 = self.closes@;
            self.closes@ = c0.push(*candle);
            assert forall|i: int| 0 <= i < self.fvgs@.len() implies fvg_close_supported(
                #[trigger] self.fvgs@[i],
                self.closes@,
            ) by {
                let f = self.fvgs@[i];
                assert(fvg_close_supported(f, c0));
                if f.close_time is Some {
                    let w = choose|w: int|
                        {
                            &&& 0 <= w < c0.len()
                            &&& (#[trigger] c0[w]).pair@ == f.pair@
                            &&& c0[w].timeframe@ == f.timeframe@
                            &&& c0[w].open_time == f.close_time->0
                            &&& f.pierced_by(c0[w].close)
                        };
                    assert(self.closes@[w] == c0[w]);
                }
            }
        }
        let n = self.fvgs.len();
        let mut out: Vec<FVG> = Vec::new();
        let mut i: usize = 0;
        while i < n
            invariant
                old(self).wf(),
                n == self.fvgs@.len(),
                n == old(self).fvgs@.len(),
                0 <= i <= n,
                self.candles@ == old(self).candles@,
                self.swings@ == old(self).swings@,
                self.trades@ == old(self).trades@,
                self.closes@ == old(self).closes@.push(*candle),
                forall|j: int|
                    0 <= j < i ==> self.fvgs@[j] == if fvg_should_close(
                        #[trigger] old(self).fvgs@[j],
                        *candle,
                    ) {
                        close_fvg(old(self).fvgs@[j], candle.open_time)
                    } else {
                        old(self).fvgs@[j]
                    },
                forall|j: int| i <= j < n ==> self.fvgs@[j] == old(self).fvgs@[j],
                out@ == closed_fvg_list(old(self).fvgs@.subrange(0, i as int), *candle),
                forall|j: int|
                    0 <= j < self.fvgs@.len() ==> (#[trigger] self.fvgs@[j]).wf()
                        && fvg_close_supported(self.fvgs@[j], self.closes@),
            decreases n - i,
        {
            let ghost pre = old(self).fvgs@.subrange(0, i as int);
            let ghost cur = old(self).fvgs@.subrange(0, i as int + 1);
            proof {
                assert(cur.drop_last() =~= pre);
                assert(cur.last() == old(self).fvgs@[i as int]);
            }
            let f = &self.fvgs[i];
            let pierced = match f.flow {
                Flow::Bull => f.low.gt(&candle.close),
                Flow::Bear => f.high.lt(&candle.close),
            };
            if f.open_time < candle.open_time && f.close_time.is_none() && pierced && f.pair
                == candle.pair && f.timeframe == candle.timeframe {
                let closed = FVG {
                    pair: f.pair.clone(),
                    open_time: f.open_time,
                    timeframe: f.timeframe.clone(),
                    high: f.high,
                    low: f.low,
                    flow: f.flow,
                    close_time: Some(candle.open_time),
                };
                proof {
                    assert(closed == close_fvg(old(self).fvgs@[i as int], candle.open_time));
                }
                out.push(closed.clone());
                self.fvgs.set(i, closed);
                proof {
                    let g = self.fvgs@[i as int];
                    assert(g.close_time == Some(candle.open_time));
                    let cl = self.closes@;
                    assert(cl[cl.len() - 1] == *candle);
                    assert(fvg_close_supported(g, cl));
                }
            }
            i = i + 1;
        }
        proof {
            assert(old(self).fvgs@.subrange(0, n as int) =~= old(self).fvgs@);
            let s1 = self.fvgs@;
            assert forall|p: int, q: int| 0 <= p < q < s1.len() implies !(#[trigger] s1[p]).same_key(
                #[trigger] s1[q],
            ) by {
                let s0 = old(self).fvgs@;
                assert(s1[p].pair@ == s0[p].pair@ && s1[p].open_time == s0[p].open_time && s1[
                    p].timeframe@ == s0[p].timeframe@);
                assert(s1[q].pair@ == s0[q].pair@ && s1[q].open_time == s0[q].open_time && s1[
                    q].timeframe@ == s0[q].timeframe@);
                assert(!s0[p].same_key(s0[q]));
            }
        }
        out
    }

    /// Closes every open swing of `candle`'s series that `candle`'s close
    /// breaches, and returns the closed swings.
    pub fn close_swings(&mut self, candle: &Candle) -> (r: Vec<Swing>)
        requires
            old(self).wf(),
        ensures
            final (self).wf(),
            final (self).candles@ == old(self).candles@,
            final (self).fvgs@ == old(self).fvgs@,
            final (self).trades@ == old(self).trades@,
            final (self).closes@ == old(self).closes@,
            final (self).swings@.len() == old(self).swings@.len(),
            forall|i: int|
                0 <= i < old(self).swings@.len() ==> final (self).swings@[i]
                    == if swing_should_close(#[trigger] old(self).swings@[i], *candle) {
                    close_swing(old(self).swings@[i], candle.open_time)
                } else {
                    old(self).swings@[i]
                },
            r@ == closed_swing_list(old(self).swings@, *candle),
    {
        let n = self.swings.len();
        let mut out: Vec<Swing> = Vec::new();
        let mut i: usize = 0;
        while i < n
            invariant
                old(self).wf(),
                n == self.swings@.len(),
                n == old(self).swings@.len(),
                0 <= i <= n,
                self.candles@ == old(self).candles@,
                self.fvgs@ == old(self).fvgs@,
                self.trades@ == old(self).trades@,
                self.closes@ == old(self).closes@,
                forall|j: int|
                    0 <= j < i ==> self.swings@[j] == if swing_should_close(
                        #[trigger] old(self).swings@[j],
                        *candle,
                    ) {
                        close_swing(old(self).swings@[j], candle.open_time)
                    } else {
                        old(self).swings@[j]
                    },
                forall|j: int| i <= j < n ==> self.swings@[j] == old(self).swings@[j],
                out@ == closed_swing_list(old(self).swings@.subrange(0, i as int), *candle),
                forall|j: int| 0 <= j < self.swings@.len() ==> (#[trigger] self.swings@[j]).wf(),
            decreases n - i,
        {
            let ghost pre = old(self).swings@.subrange(0, i as int);
            let ghost cur = old(self).swings@.subrange(0, i as int + 1);
            proof {
                assert(cur.drop_last() =~= pre);
                assert(cur.last() == old(self).swings@[i as int]);
            }
            let w = &self.swings[i];
            let breached = match w.flow {
                Flow::Bull => w.price.gt(&candle.close),
                Flow::Bear => w.price.lt(&candle.close),
            };
            if w.open_time < candle.open_time && w.close_time.is_none() && breached && w.pair
                == candle.pair && w.timeframe == candle.timeframe {
                let closed = Swing {
                    pair: w.pair.clone(),
                    open_time: w.open_time,
                    timeframe: w.timeframe.clone(),
                    price: w.price,
                    flow: w.flow,
                    close_time: Some(candle.open_time),
                };
                proof {
                    assert(closed == close_swing(old(self).swings@[i as int], candle.open_time));
                }
                out.push(closed.clone());
                self.swings.set(i, closed);
            }
            i = i + 1;
        }
        proof {
            assert(old(self).swings@.subrange(0, n as int) =~= old(self).swings@);
            let s1 = self.swings@;
            assert forall|p: int, q: int| 0 <= p < q < s1.len() implies !(#[trigger] s1[p]).same_key(
                #[trigger] s1[q],
            ) by {
                let s0 = old(self).swings@;
                assert(s1[p].pair@ == s0[p].pair@ && s1[p].open_time == s0[p].open_time && s1[
                    p].timeframe@ == s0[p].timeframe@);
                assert(s1[q].pair@ == s0[q].pair@ && s1[q].open_time == s0[q].open_time && s1[
                    q].timeframe@ == s0[q].timeframe@);
                assert(!s0[p].same_key(s0[q]));
            }
        }
        out
    }

    /// Up to `k` most recent candles of the series strictly before `before`,
    /// most recent first. When fewer than `k` exist, all of them are
    /// returned.
    pub fn recent_candles_before(
        &self,
        pair: &String,
        timeframe: &String,
        before: i64,
        k: usize,
    ) -> (r: Vec<Candle>)
        requires
            self.wf(),
        ensures
            r@.len() <= k,
            forall|j: int|
                0 <= j < r@.len() ==> {
                    &&& self.candles@.contains(#[trigger] r@[j])
                    &&& r@[j].pair@ == pair@
                    &&& r@[j].timeframe@ == timeframe@
                    &&& r@[j].open_time < before
                },
            forall|j1: int, j2: int|
                0 <= j1 < j2 < r@.len() ==> (#[trigger] r@[j1]).open_time > (
                #[trigger] r@[j2]).open_time,
            r@.len() < k ==> forall|i: int|
                0 <= i < self.candles@.len() && (#[trigger] self.candles@[i]).pair@ == pair@
                    && self.candles@[i].timeframe@ == timeframe@ && self.candles@[i].open_time
                    < before ==> r@.contains(self.candles@[i]),
            k > 0 ==> forall|i: int|
                0 <= i < self.candles@.len() && (#[trigger] self.candles@[i]).pair@ == pair@
                    && self.candles@[i].timeframe@ == timeframe@ && self.candles@[i].open_time
                    < before ==> r@.contains(self.candles@[i]) || (r@.len() == k && self.candles@[
                    i].open_time < r@[r@.len() - 1].open_time),
    {
        let mut out: Vec<Candle> = Vec::new();
        let mut bound = before;
        while out.len() < k
            invariant
                self.wf(),
                out@.len() <= k,
                bound <= before,
                out@.len() == 0 ==> bound == before,
                out@.len() > 0 ==> out@[out@.len() - 1].open_time == bound,
                forall|j: int|
                    0 <= j < out@.len() ==> {
                        &&& self.candles@.contains(#[trigger] out@[j])
                        &&& out@[j].pair@ == pair@
                        &&& out@[j].timeframe@ == timeframe@
                        &&& out@[j].open_time < before
                    },
                forall|j1: int, j2: int|
                    0 <= j1 < j2 < out@.len() ==> (#[trigger] out@[j1]).open_time > (
                    #[trigger] out@[j2]).open_time,
                forall|i: int|
                    0 <= i < self.candles@.len() && (#[trigger] self.candles@[i]).pair@ == pair@
                        && self.candles@[i].timeframe@ == timeframe@ && self.candles@[i].open_time
                        < before ==> out@.contains(self.candles@[i]) || self.candles@[i].open_time
                        < bound,
            decreases k - out.len(),
        {
            let found = self.latest_candle_before(pair, timeframe, bound);
            match found {
                None => {
                    return out;
                },
                Some(c) => {
                    let ghost out0 = out@;
                    let next_bound = c.open_time;
                    proof {
                        // an unselected matching candle with this open time
                        // would share the key with `c`, hence be `c` itself
                        let ci = choose|ci: int|
                            0 <= ci < self.candles@.len() && self.candles@[ci] == c;
                        assert(self.candles@[ci] == c);
                        assert forall|i: int|
                            0 <= i < self.candles@.len() && (#[trigger] self.candles@[i]).pair@
                                == pair@ && self.candles@[i].timeframe@ == timeframe@
                                && self.candles@[i].open_time < bound && self.candles@[i].open_time
                                == c.open_time implies self.candles@[i] == c by {
                            if i != ci {
                                if i < ci {
                                    assert(!self.candles@[i].same_key(self.candles@[ci]));
                                } else {
                                    assert(!self.candles@[ci].same_key(self.candles@[i]));
                                }
                            }
                        }
                    }
                    out.push(c);
                    proof {
                        assert forall|j: int|
                            0 <= j < out@.len() implies self.candles@.contains(#[trigger] out@[j])
                            && out@[j].pair@ == pair@ && out@[j].timeframe@ == timeframe@ && out@[
                            j].open_time < before by {
                            if j < out0.len() {
                                assert(out@[j] == out0[j]);
                            } else {
                                assert(out@[j] == out@[out@.len() - 1]);
                            }
                        }
                        assert forall|i: int|
                            0 <= i < self.candles@.len() && (#[trigger] self.candles@[i]).pair@
                                == pair@ && self.candles@[i].timeframe@ == timeframe@
                                && self.candles@[i].open_time < before implies out@.contains(
                            self.candles@[i],
                        ) || self.candles@[i].open_time < next_bound by {
                            let x = self.candles@[i];
                            if !out@.contains(x) {
                                assert(!out0.contains(x)) by {
                                    if out0.contains(x) {
                                        let w = choose|w: int|
                                            0 <= w < out0.len() && out0[w] == x;
                                        assert(out@[w] == x);
                                    }
                                }
                                assert(x.open_time < bound);
                                if x.open_time == c.open_time {
                                    assert(x == c);
                                    assert(out@[out@.len() - 1] == c);
                                }
                            }
                        }
                    }
                    bound = next_bound;
                },
            }
        }
        out
    }
}

/// Candle invariant: every stored candle's low is at most its open and
/// close, which are at most its high; its open time is exactly the window
/// open of its own timeframe at that instant; and its size is that
/// window's length.
pub proof fn lemma_candle_invariant(s: Store, i: int)
    requires
        s.wf(),
        0 <= i < s.candles@.len(),
    ensures
        s.candles@[i].low.atoms <= s.candles@[i].open.atoms <= s.candles@[i].high.atoms,
        s.candles@[i].low.atoms <= s.candles@[i].close.atoms <= s.candles@[i].high.atoms,
        s.candles@[i].size_in_millis >= 1,
        exists|tf: Timeframe|
            {
                &&& tf.is_valid()
                &&& #[trigger] tf.format_spec() == s.candles@[i].timeframe@
                &&& tf.window_open_unix(s.candles@[i].open_time as int) == s.candles@[
                    i].open_time as int
                &&& s.candles@[i].size_in_millis == tf.window_size_unix(
                    s.candles@[i].open_time as int,
                )
            },
{
    assert(window_key_ok(
        s.candles@[i].timeframe@,
        s.candles@[i].open_time as int,
        s.candles@[i].size_in_millis as int,
    ));
}

/// Gap-close invariant: a stored gap with a close time was closed at or
/// after it opened, by a recorded candle-close event of its series whose
/// close pierced the gap.
pub proof fn lemma_closed_fvg_supported(s: Store, i: int)
    requires
        s.wf(),
        0 <= i < s.fvgs@.len(),
        s.fvgs@[i].close_time is Some,
    ensures
        s.fvgs@[i].close_time->0 >= s.fvgs@[i].open_time,
        exists|j: int|
            {
                &&& 0 <= j < s.closes@.len()
                &&& (#[trigger] s.closes@[j]).pair@ == s.fvgs@[i].pair@
                &&& s.closes@[j].timeframe@ == s.fvgs@[i].timeframe@
                &&& s.closes@[j].open_time == s.fvgs@[i].close_time->0
                &&& s.fvgs@[i].pierced_by(s.closes@[j].close)
            },
{
    assert(s.fvgs@[i].wf());
    assert(fvg_close_supported(s.fvgs@[i], s.closes@));
}

/// Primary-key invariant: no two stored candles share
/// `(pair, open_time, timeframe)`.
pub proof fn lemma_candle_primary_key(s: Store, i: int, j: int)
    requires
        s.wf(),
        0 <= i < s.candles@.len(),
        0 <= j < s.candles@.len(),
        i != j,
    ensures
        !s.candles@[i].same_key(s.candles@[j]),
{
    if i < j {
        assert(!s.candles@[i].same_key(s.candles@[j]));
    } else {
        assert(!s.candles@[j].same_key(s.candles@[i]));
        assert(s.candles@[i].same_key(s.candles@[j]) ==> s.candles@[j].same_key(s.candles@[i]));
    }
}

impl Store {
    /// Earliest candle of the series with open time in `[lo, hi]`.
    pub fn earliest_candle_in_range(
        &self,
        pair: &String,
        timeframe: &String,
        lo: i64,
        hi: i64,
    ) -> (r: Option<Candle>)
        ensures
            r matches Some(c) ==> {
                &&& self.candles@.contains(c)
                &&& c.pair@ == pair@
                &&& c.timeframe@ == timeframe@
                &&& lo <= c.open_time <= hi
                &&& forall|j: int|
                    0 <= j < self.candles@.len() && (#[trigger] self.candles@[j]).pair@ == pair@
                        && self.candles@[j].timeframe@ == timeframe@ && lo <= self.candles@[
                        j].open_time <= hi ==> self.candles@[j].open_time >= c.open_time
            },
            r is None ==> forall|j: int|
                0 <= j < self.candles@.len() && (#[trigger] self.candles@[j]).pair@ == pair@
                    && self.candles@[j].timeframe@ == timeframe@ ==> !(lo <= self.candles@[
                j].open_time <= hi),
    {
        let n = self.candles.len();
        let mut best: Option<usize> = None;
        let mut i: usize = 0;
        while i < n
            invariant
                n == self.candles@.len(),
                0 <= i <= n,
                best matches Some(b) ==> b < i && self.candles@[b as int].pair@ == pair@
                    && self.candles@[b as int].timeframe@ == timeframe@ && lo <= self.candles@[
                    b as int].open_time <= hi,
                forall|j: int|
                    0 <= j < i && (#[trigger] self.candles@[j]).pair@ == pair@ && self.candles@[
                        j].timeframe@ == timeframe@ && lo <= self.candles@[j].open_time <= hi ==> (
                    best matches Some(b) && self.candles@[j].open_time >= self.candles@[
                        b as int].open_time),
            decreases n - i,
        {
            let c = &self.candles[i];
            if c.pair == *pair && c.timeframe == *timeframe && lo <= c.open_time && c.open_time
                <= hi {
                match best {
                    Some(b) => {
                        if c.open_time < self.candles[b].open_time {
                            best = Some(i);
                        }
                    },
                    None => {
                        best = Some(i);
                    },
                }
            }
            i = i + 1;
        }
        match best {
            Some(b) => Some(self.candles[b].clone()),
            None => None,
        }
    }

    /// Candles of the series with open time in `[start, end]`, in ascending
    /// open-time order; every stored candle of the range appears.
    pub fn candles_in_range(&self, pair: &String, timeframe: &String, start: i64, end: i64) -> (r:
        Vec<Candle>)
        requires
            self.wf(),
            end < i64::MAX,
        ensures
            forall|j: int|
                0 <= j < r@.len() ==> {
                    &&& self.candles@.contains(#[trigger] r@[j])
                    &&& r@[j].pair@ == pair@
                    &&& r@[j].timeframe@ == timeframe@
                    &&& start <= r@[j].open_time <= end
                },
            forall|j1: int, j2: int|
                0 <= j1 < j2 < r@.len() ==> (#[trigger] r@[j1]).open_time < (
                #[trigger] r@[j2]).open_time,
            forall|i: int|
                0 <= i < self.candles@.len() && (#[trigger] self.candles@[i]).pair@ == pair@
                    && self.candles@[i].timeframe@ == timeframe@ && start <= self.candles@[
                    i].open_time <= end ==> r@.contains(self.candles@[i]),
    {
        let mut out: Vec<Candle> = Vec::new();
        let mut lo = start;
        while lo <= end
            invariant
                self.wf(),
                end < i64::MAX,
                out@.len() == 0 ==> lo == start,
                out@.len() > 0 ==> lo == out@[out@.len() - 1].open_time + 1 && start
                    <= out@[out@.len() - 1].open_time,
                forall|j: int|
                    0 <= j < out@.len() ==> {
                        &&& self.candles@.contains(#[trigger] out@[j])
                        &&& out@[j].pair@ == pair@
                        &&& out@[j].timeframe@ == timeframe@
                        &&& start <= out@[j].open_time <= end
                    },
                forall|j1: int, j2: int|
                    0 <= j1 < j2 < out@.len() ==> (#[trigger] out@[j1]).open_time < (
                    #[trigger] out@[j2]).open_time,
                forall|i: int|
                    0 <= i < self.candles@.len() && (#[trigger] self.candles@[i]).pair@ == pair@
                        && self.candles@[i].timeframe@ == timeframe@ && start <= self.candles@[
                        i].open_time <= end && self.candles@[i].open_time < lo ==> out@.contains(
                        self.candles@[i],
                    ),
            decreases end + 1 - lo,
        {
            let found = self.earliest_candle_in_range(pair, timeframe, lo, end);
            match found {
                None => {
                    return out;
                },
                Some(c) => {
                    let ghost out0 = out@;
                    proof {
                        let ci = choose|ci: int|
                            0 <= ci < self.candles@.len() && self.candles@[ci] == c;
                        assert(self.candles@[ci] == c);
                        assert forall|i: int|
                            0 <= i < self.candles@.len() && (#[trigger] self.candles@[i]).pair@
                                == pair@ && self.candles@[i].timeframe@ == timeframe@
                                && self.candles@[i].open_time == c.open_time implies self.candles@[
                            i] == c by {
                            if i != ci {
                                if i < ci {
                                    assert(!self.candles@[i].same_key(self.candles@[ci]));
                                } else {
                                    assert(!self.candles@[ci].same_key(self.candles@[i]));
                                }
                            }
                        }
                    }
                    let next_lo = c.open_time + 1;
                    out.push(c);
                    proof {
                        assert forall|j: int|
                            0 <= j < out@.len() implies self.candles@.contains(#[trigger] out@[j])
                            && out@[j].pair@ == pair@ && out@[j].timeframe@ == timeframe@ && start
                            <= out@[j].open_time <= end by {
                            if j < out0.len() {
                                assert(out@[j] == out0[j]);
                            } else {
                                assert(out@[j] == out@[out@.len() - 1]);
                            }
                        }
                        assert forall|i: int|
                            0 <= i < self.candles@.len() && (#[trigger] self.candles@[i]).pair@
                                == pair@ && self.candles@[i].timeframe@ == timeframe@ && start
                                <= self.candles@[i].open_time <= end && self.candles@[i].open_time
                                < next_lo implies out@.contains(self.candles@[i]) by {
                            let x = self.candles@[i];
                            if x.open_time < lo {
                                assert(out0.contains(x));
                                let w = choose|w: int| 0 <= w < out0.len() && out0[w] == x;
                                assert(out@[w] == x);
                            } else {
                                assert(x.open_time >= c.open_time);
                                assert(x == self.candles@[i] && x.open_time == c.open_time);
                                assert(x == c);
                                assert(out@[out@.len() - 1] == c);
                            }
                        }
                    }
                    lo = next_lo;
                },
            }
        }
        out
    }

    /// Earliest gap of the series with open time in `[lo, hi]`.
    pub fn earliest_fvg_in_range(&self, pair: &String, timeframe: &String, lo: i64, hi: i64) -> (r:
        Option<FVG>)
        ensures
            r matches Some(f) ==> {
                &&& self.fvgs@.contains(f)
                &&& f.pair@ == pair@
                &&& f.timeframe@ == timeframe@
                &&& lo <= f.open_time <= hi
                &&& forall|j: int|
                    0 <= j < self.fvgs@.len() && (#[trigger] self.fvgs@[j]).pair@ == pair@
                        && self.fvgs@[j].timeframe@ == timeframe@ && lo <= self.fvgs@[j].open_time
                        <= hi ==> self.fvgs@[j].open_time >= f.open_time
            },
            r is None ==> forall|j: int|
                0 <= j < self.fvgs@.len() && (#[trigger] self.fvgs@[j]).pair@ == pair@
                    && self.fvgs@[j].timeframe@ == timeframe@ ==> !(lo <= self.fvgs@[j].open_time
                    <= hi),
    {
        let n = self.fvgs.len();
        let mut best: Option<usize> = None;
        let mut i: usize = 0;
        while i < n
            invariant
                n == self.fvgs@.len(),
                0 <= i <= n,
                best matches Some(b) ==> b < i && self.fvgs@[b as int].pair@ == pair@
                    && self.fvgs@[b as int].timeframe@ == timeframe@ && lo <= self.fvgs@[
                    b as int].open_time <= hi,
                forall|j: int|
                    0 <= j < i && (#[trigger] self.fvgs@[j]).pair@ == pair@ && self.fvgs@[
                        j].timeframe@ == timeframe@ && lo <= self.fvgs@[j].open_time <= hi ==> (
                    best matches Some(b) && self.fvgs@[j].open_time >= self.fvgs@[
                        b as int].open_time),
            decreases n - i,
        {
            let f = &self.fvgs[i];
            if f.pair == *pair && f.timeframe == *timeframe && lo <= f.open_time && f.open_time
                <= hi {
                match best {
                    Some(b) => {
                        if f.open_time < self.fvgs[b].open_time {
                            best = Some(i);
                        }
                    },
                    None => {
                        best = Some(i);
                    },
                }
            }
            i = i + 1;
        }
        match best {
            Some(b) => Some(self.fvgs[b].clone()),
            None => None,
        }
    }

    /// Gaps of the series with open time in `[start, end]`, ascending by
    /// open time; every stored gap of the range appears.
    pub fn fvgs_in_range(&self, pair: &String, timeframe: &String, start: i64, end: i64) -> (r: Vec<
        FVG,
    >)
        requires
            self.wf(),
            end < i64::MAX,
        ensures
            forall|j: int|
                0 <= j < r@.len() ==> {
                    &&& self.fvgs@.contains(#[trigger] r@[j])
                    &&& r@[j].pair@ == pair@
                    &&& r@[j].timeframe@ == timeframe@
                    &&& start <= r@[j].open_time <= end
                },
            forall|j1: int, j2: int|
                0 <= j1 < j2 < r@.len() ==> (#[trigger] r@[j1]).open_time < (
                #[trigger] r@[j2]).open_time,
            forall|i: int|
                0 <= i < self.fvgs@.len() && (#[trigger] self.fvgs@[i]).pair@ == pair@
                    && self.fvgs@[i].timeframe@ == timeframe@ && start <= self.fvgs@[i].open_time
                    <= end ==> r@.contains(self.fvgs@[i]),
    {
        let mut out: Vec<FVG> = Vec::new();
        let mut lo = start;
        while lo <= end
            invariant
                self.wf(),
                end < i64::MAX,
                out@.len() == 0 ==> lo == start,
                out@.len() > 0 ==> lo == out@[out@.len() - 1].open_time + 1 && start
                    <= out@[out@.len() - 1].open_time,
                forall|j: int|
                    0 <= j < out@.len() ==> {
                        &&& self.fvgs@.contains(#[trigger] out@[j])
                        &&& out@[j].pair@ == pair@
                        &&& out@[j].timeframe@ == timeframe@
                        &&& start <= out@[j].open_time <= end
                    },
                forall|j1: int, j2: int|
                    0 <= j1 < j2 < out@.len() ==> (#[trigger] out@[j1]).open_time < (
                    #[trigger] out@[j2]).open_time,
                forall|i: int|
                    0 <= i < self.fvgs@.len() && (#[trigger] self.fvgs@[i]).pair@ == pair@
                        && self.fvgs@[i].timeframe@ == timeframe@ && start <= self.fvgs@[
                        i].open_time <= end && self.fvgs@[i].open_time < lo ==> out@.contains(
                        self.fvgs@[i],
                    ),
            decreases end + 1 - lo,
        {
            let found = self.earliest_fvg_in_range(pair, timeframe, lo, end);
            match found {
                None => {
                    return out;
                },
                Some(f) => {
                    let ghost out0 = out@;
                    proof {
                        let fi = choose|fi: int| 0 <= fi < self.fvgs@.len() && self.fvgs@[fi] == f;
                        assert(self.fvgs@[fi] == f);
                        assert forall|i: int|
                            0 <= i < self.fvgs@.len() && (#[trigger] self.fvgs@[i]).pair@ == pair@
                                && self.fvgs@[i].timeframe@ == timeframe@ && self.fvgs@[
                                i].open_time == f.open_time implies self.fvgs@[i] == f by {
                            if i != fi {
                                if i < fi {
                                    assert(!self.fvgs@[i].same_key(self.fvgs@[fi]));
                                } else {
                                    assert(!self.fvgs@[fi].same_key(self.fvgs@[i]));
                                }
                            }
                        }
                    }
                    let next_lo = f.open_time + 1;
                    out.push(f);
                    proof {
                        assert forall|j: int|
                            0 <= j < out@.len() implies self.fvgs@.contains(#[trigger] out@[j])
                            && out@[j].pair@ == pair@ && out@[j].timeframe@ == timeframe@ && start
                            <= out@[j].open_time <= end by {
                            if j < out0.len() {
                                assert(out@[j] == out0[j]);
                            } else {
                                assert(out@[j] == out@[out@.len() - 1]);
                            }
                        }
                        assert forall|i: int|
                            0 <= i < self.fvgs@.len() && (#[trigger] self.fvgs@[i]).pair@ == pair@
                                && self.fvgs@[i].timeframe@ == timeframe@ && start <= self.fvgs@[
                                i].open_time <= end && self.fvgs@[i].open_time < next_lo
                             implies out@.contains(self.fvgs@[i]) by {
                            let x = self.fvgs@[i];
                            if x.open_time < lo {
                                assert(out0.contains(x));
                                let w = choose|w: int| 0 <= w < out0.len() && out0[w] == x;
                                assert(out@[w] == x);
                            } else {
                                assert(x.open_time >= f.open_time);
                                assert(x == f);
                                assert(out@[out@.len() - 1] == f);
                            }
                        }
                    }
                    lo = next_lo;
                },
            }
        }
        out
    }
}

} // verus!
