//! The tick-to-candle aggregator: folds every ticker of a message into the
//! candle store, for each configured timeframe, and collects the candles to
//! publish and the candle-close events to emit.
//!
//! The contract pins the whole fold down: the final candle table and both
//! emission lists equal the recursive model `run_events` applied to the
//! initial table.
use crate::exchange::{Response, Ticker, TickerEvent};
use crate::models::Candle;
use crate::store::{
    candle_key_at, has_candle_key, is_latest_candle_before, merge_candle, unique_candles,
    window_key_ok, Store,
};
use crate::timeframe::{Timeframe, TS_LIMIT, TS_MIN};
use crate::Error;
use vstd::prelude::*;

verus! {

/// The default candle timeframe set: 1m, 5m, 15m, 1h, 4h, 1D, 1W.
pub fn default_timeframes() -> (r: Vec<Timeframe>)
    ensures
        r@.len() == 7,
        forall|i: int| 0 <= i < r@.len() ==> (#[trigger] r@[i]).is_valid(),
        r@[0] == Timeframe::Minute(1),
        r@[1] == Timeframe::Minute(5),
        r@[2] == Timeframe::Minute(15),
        r@[3] == Timeframe::Hour(1),
        r@[4] == Timeframe::Hour(4),
        r@[5] == Timeframe::Day(1),
        r@[6] == Timeframe::Week(1),
{
    let mut v: Vec<Timeframe> = Vec::new();
    v.push(Timeframe::Minute(1));
    v.push(Timeframe::Minute(5));
    v.push(Timeframe::Minute(15));
    v.push(Timeframe::Hour(1));
    v.push(Timeframe::Hour(4));
    v.push(Timeframe::Day(1));
    v.push(Timeframe::Week(1));
    v
}

/// Startup validation of a configured timeframe set.
pub fn validate_timeframes(tfs: &Vec<Timeframe>) -> (r: Result<(), Error>)
    ensures
        r is Ok <==> forall|i: int| 0 <= i < tfs@.len() ==> (#[trigger] tfs@[i]).is_valid(),
        r matches Err(e) ==> e is TimeframeError,
{
    let n = tfs.len();
    let mut i: usize = 0;
    while i < n
        invariant
            n == tfs@.len(),
            0 <= i <= n,
            forall|j: int| 0 <= j < i ==> (#[trigger] tfs@[j]).is_valid(),
        decreases n - i,
    {
        if !tfs[i].validate() {
            return Err(Error::TimeframeError("timeframe out of range".to_owned()));
        }
        i = i + 1;
    }
    Ok(())
}

/// The candle-close the aggregator detects on the first tick of a window:
/// the most recent earlier candle of the series, provided the window is not
/// open yet.
pub open spec fn detected_close(
    s: Seq<Candle>,
    pair: Seq<char>,
    tf: Seq<char>,
    open_time: int,
) -> Option<Candle> {
    if has_candle_key(s, pair, tf, open_time) {
        None
    } else if exists|i: int| is_latest_candle_before(s, pair, tf, open_time, i) {
        Some(s[choose|i: int| is_latest_candle_before(s, pair, tf, open_time, i)])
    } else {
        None
    }
}

/// The candle the upsert stores: the merged existing candle on conflict, a
/// fresh single-price candle otherwise.
pub open spec fn upserted_candle(
    s: Seq<Candle>,
    tk: Ticker,
    open_time: i64,
    tf_str: String,
    size: i64,
) -> Candle {
    if has_candle_key(s, tk.product_id@, tf_str@, open_time as int) {
        let i = choose|i: int| candle_key_at(s, tk.product_id@, tf_str@, open_time as int, i);
        merge_candle(s[i], tk.price)
    } else {
        Candle {
            pair: tk.product_id,
            open_time,
            timeframe: tf_str,
            open: tk.price,
            high: tk.price,
            low: tk.price,
            close: tk.price,
            size_in_millis: size,
        }
    }
}

/// The candle table after one upsert.
pub open spec fn upsert_result(
    s: Seq<Candle>,
    tk: Ticker,
    open_time: i64,
    tf_str: String,
    size: i64,
) -> Seq<Candle> {
    if has_candle_key(s, tk.product_id@, tf_str@, open_time as int) {
        let i = choose|i: int| candle_key_at(s, tk.product_id@, tf_str@, open_time as int, i);
        s.update(i, merge_candle(s[i], tk.price))
    } else {
        s.push(upserted_candle(s, tk, open_time, tf_str, size))
    }
}

/// Folds the tickers of one event into one timeframe window, collecting
/// close detections and upserted candles: `(candles, closes, emitted)`.
pub open spec fn run_tickers(
    s: Seq<Candle>,
    tks: Seq<Ticker>,
    open_time: i64,
    size: i64,
    tf_str: String,
) -> (Seq<Candle>, Seq<Candle>, Seq<Candle>)
    decreases tks.len(),
{
    if tks.len() == 0 {
        (s, Seq::empty(), Seq::empty())
    } else {
        let prev = run_tickers(s, tks.drop_last(), open_time, size, tf_str);
        let tk = tks.last();
        let cl = match detected_close(prev.0, tk.product_id@, tf_str@, open_time as int) {
            Some(c) => prev.1.push(c),
            None => prev.1,
        };
        let em = prev.2.push(upserted_candle(prev.0, tk, open_time, tf_str, size));
        (upsert_result(prev.0, tk, open_time, tf_str, size), cl, em)
    }
}

/// Folds one event's tickers over every configured timeframe.
pub open spec fn run_timeframes(
    s: Seq<Candle>,
    tfs: Seq<Timeframe>,
    tf_strs: Seq<String>,
    tks: Seq<Ticker>,
    ts: i64,
) -> (Seq<Candle>, Seq<Candle>, Seq<Candle>)
    decreases tfs.len(),
{
    if tfs.len() == 0 {
        (s, Seq::empty(), Seq::empty())
    } else {
        let prev = run_timeframes(s, tfs.drop_last(), tf_strs.drop_last(), tks, ts);
        let tf = tfs.last();
        let open_time = tf.window_open_unix(ts as int) as i64;
        let size = tf.window_size_unix(ts as int) as i64;
        let step = run_tickers(prev.0, tks, open_time, size, tf_strs.last());
        (step.0, prev.1 + step.1, prev.2 + step.2)
    }
}

/// Folds a whole ticker message: every event, every timeframe, every ticker.
pub open spec fn run_events(
    s: Seq<Candle>,
    events: Seq<TickerEvent>,
    tfs: Seq<Timeframe>,
    tf_strs: Seq<String>,
    ts: i64,
) -> (Seq<Candle>, Seq<Candle>, Seq<Candle>)
    decreases events.len(),
{
    if events.len() == 0 {
        (s, Seq::empty(), Seq::empty())
    } else {
        let prev = run_events(s, events.drop_last(), tfs, tf_strs, ts);
        let step = run_timeframes(prev.0, tfs, tf_strs, events.last().tickers@, ts);
        (step.0, prev.1 + step.1, prev.2 + step.2)
    }
}

/// Two candles with the same key at two positions of a unique table are at
/// the same position.
proof fn lemma_key_index_unique(
    s: Seq<Candle>,
    pair: Seq<char>,
    tf: Seq<char>,
    t: int,
    i: int,
    j: int,
)
    requires
        unique_candles(s),
        candle_key_at(s, pair, tf, t, i),
        candle_key_at(s, pair, tf, t, j),
    ensures
        i == j,
{
    if i < j {
        assert(s[i].same_key(s[j]));
    }
    if j < i {
        assert(s[j].same_key(s[i]));
    }
}

/// One tick against one window: detects the close, upserts the candle,
/// returns `(detected close, stored candle)`.
fn process_tick(store: &mut Store, tk: &Ticker, open_time: i64, size: i64, tf_str: &String) -> (r:
    (Option<Candle>, Candle))
    requires
        old(store).wf(),
        tk.price.wf(),
        window_key_ok(tf_str@, open_time as int, size as int),
        size >= 1,
    ensures
        final (store).wf(),
        final (store).fvgs@ == old(store).fvgs@,
        final (store).swings@ == old(store).swings@,
        final (store).trades@ == old(store).trades@,
        final (store).closes@ == old(store).closes@,
        final (store).candles@ == upsert_result(old(store).candles@, *tk, open_time, *tf_str, size),
        r.0 == detected_close(old(store).candles@, tk.product_id@, tf_str@, open_time as int),
        r.1 == upserted_candle(old(store).candles@, *tk, open_time, *tf_str, size),
{
    let ghost s0 = store.candles@;
    let closed = store.closed_candle_for(&tk.product_id, tf_str, open_time);
    proof {
        if closed is Some {
            let c = closed->0;
            {
                let wi = choose|wi: int| 0 <= wi < s0.len() && s0[wi] == c;
                assert(is_latest_candle_before(s0, tk.product_id@, tf_str@, open_time as int, wi));
                let ci = choose|ci: int|
                    is_latest_candle_before(s0, tk.product_id@, tf_str@, open_time as int, ci);
                assert(s0[ci].open_time <= s0[wi].open_time && s0[wi].open_time
                    <= s0[ci].open_time);
                if ci != wi {
                    if ci < wi {
                        assert(!s0[ci].same_key(s0[wi]));
                    } else {
                        assert(!s0[wi].same_key(s0[ci]));
                    }
                    assert(false);
                }
                assert(detected_close(s0, tk.product_id@, tf_str@, open_time as int) == Some(c));
            }
        } else {
            if !has_candle_key(s0, tk.product_id@, tf_str@, open_time as int) {
                assert(!(exists|i: int|
                    is_latest_candle_before(s0, tk.product_id@, tf_str@, open_time as int, i))) by {
                    if exists|i: int|
                        is_latest_candle_before(s0, tk.product_id@, tf_str@, open_time as int, i) {
                        let i = choose|i: int|
                            is_latest_candle_before(s0, tk.product_id@, tf_str@, open_time as int, i);
                        assert(s0[i].open_time >= open_time);
                    }
                }
            }
        }
    }
    let cand = store.upsert_candle(&tk.product_id, open_time, tf_str, size, tk.price);
    proof {
        if !has_candle_key(s0, tk.product_id@, tf_str@, open_time as int) {
            assert(cand == upserted_candle(s0, *tk, open_time, *tf_str, size));
        }
        if has_candle_key(s0, tk.product_id@, tf_str@, open_time as int) {
            let i = choose|i: int|
                candle_key_at(s0, tk.product_id@, tf_str@, open_time as int, i);
            let j = choose|j: int|
                {
                    &&& candle_key_at(s0, tk.product_id@, tf_str@, open_time as int, j)
                    &&& store.candles@ == s0.update(j, merge_candle(s0[j], tk.price))
                    &&& cand == merge_candle(s0[j], tk.price)
                };
            lemma_key_index_unique(s0, tk.product_id@, tf_str@, open_time as int, i, j);
        }
    }
    (closed, cand)
}

/// The candles and candle-close events produced by one ticker message.
pub struct TickerOutput {
    /// Upserted candles, one per (event, timeframe, ticker), in order.
    pub candles: Vec<Candle>,
    /// Detected candle closes, in order of detection.
    pub closes: Vec<Candle>,
}

/// Consumes one ticker message: for every event, timeframe and ticker,
/// detects a window transition (emitting the candle that closed) and
/// upserts the current window's candle. The store's candle table and both
/// emission lists are exactly the fold `run_events` of the message.
pub fn handle_ticker(store: &mut Store, msg: &Response, timeframes: &Vec<Timeframe>) -> (r:
    TickerOutput)
    requires
        old(store).wf(),
        TS_MIN <= msg.timestamp < TS_LIMIT,
        forall|i: int| 0 <= i < timeframes@.len() ==> (#[trigger] timeframes@[i]).is_valid(),
        forall|e: int, t: int|
            0 <= e < msg.events@.len() && 0 <= t < msg.events@[e].tickers@.len() ==> (#[trigger] msg.events@[e].tickers@[t]).price.wf(),
    ensures
        final (store).wf(),
        final (store).fvgs@ == old(store).fvgs@,
        final (store).swings@ == old(store).swings@,
        final (store).trades@ == old(store).trades@,
        final (store).closes@ == old(store).closes@,
        exists|tf_strs: Seq<String>|
            {
                &&& tf_strs.len() == timeframes@.len()
                &&& (forall|i: int|
                    0 <= i < tf_strs.len() ==> (#[trigger] tf_strs[i])@ == timeframes@[
                        i].format_spec())
                &&& final (store).candles@ == run_events(
                    old(store).candles@,
                    msg.events@,
                    timeframes@,
                    tf_strs,
                    msg.timestamp,
                ).0
                &&& r.closes@ == run_events(
                    old(store).candles@,
                    msg.events@,
                    timeframes@,
                    tf_strs,
                    msg.timestamp,
                ).1
                &&& r.candles@ == run_events(
                    old(store).candles@,
                    msg.events@,
                    timeframes@,
                    tf_strs,
                    msg.timestamp,
                ).2
            },
{
    let ghost s_init = store.candles@;
    let ghost ts = msg.timestamp;
    let n_tf = timeframes.len();
    let mut tf_strs: Vec<String> = Vec::new();
    let mut j: usize = 0;
    while j < n_tf
        invariant
            n_tf == timeframes@.len(),
            forall|i: int| 0 <= i < timeframes@.len() ==> (#[trigger] timeframes@[i]).is_valid(),
            0 <= j <= n_tf,
            tf_strs@.len() == j,
            forall|i: int|
                0 <= i < j ==> (#[trigger] tf_strs@[i])@ == timeframes@[i].format_spec(),
        decreases n_tf - j,
    {
        tf_strs.push(timeframes[j].format());
        j = j + 1;
    }
    let mut out = TickerOutput { candles: Vec::new(), closes: Vec::new() };
    let n_ev = msg.events.len();
    let mut e: usize = 0;
    while e < n_ev
        invariant
            store.wf(),
            store.fvgs@ == old(store).fvgs@,
            store.swings@ == old(store).swings@,
            store.trades@ == old(store).trades@,
            store.closes@ == old(store).closes@,
            s_init == old(store).candles@,
            ts == msg.timestamp,
            TS_MIN <= msg.timestamp < TS_LIMIT,
            n_ev == msg.events@.len(),
            n_tf == timeframes@.len(),
            tf_strs@.len() == n_tf,
            0 <= e <= n_ev,
            forall|i: int| 0 <= i < timeframes@.len() ==> (#[trigger] timeframes@[i]).is_valid(),
            forall|i: int|
                0 <= i < n_tf ==> (#[trigger] tf_strs@[i])@ == timeframes@[i].format_spec(),
            forall|ee: int, t: int|
                0 <= ee < msg.events@.len() && 0 <= t < msg.events@[ee].tickers@.len() ==> (
                #[trigger] msg.events@[ee].tickers@[t]).price.wf(),
            store.candles@ == run_events(
                s_init,
                msg.events@.subrange(0, e as int),
                timeframes@,
                tf_strs@,
                ts,
            ).0,
            out.closes@ == run_events(
                s_init,
                msg.events@.subrange(0, e as int),
                timeframes@,
                tf_strs@,
                ts,
            ).1,
            out.candles@ == run_events(
                s_init,
                msg.events@.subrange(0, e as int),
                timeframes@,
                tf_strs@,
                ts,
            ).2,
        decreases n_ev - e,
    {
        let ghost se = run_events(s_init, msg.events@.subrange(0, e as int), timeframes@, tf_strs@, ts).0;
        let ghost cle = out.closes@;
        let ghost eme = out.candles@;
        let ev = &msg.events[e];
        let mut tj: usize = 0;
        while tj < n_tf
            invariant
                store.wf(),
                store.fvgs@ == old(store).fvgs@,
                store.swings@ == old(store).swings@,
                store.trades@ == old(store).trades@,
                store.closes@ == old(store).closes@,
                ts == msg.timestamp,
                TS_MIN <= msg.timestamp < TS_LIMIT,
                n_tf == timeframes@.len(),
                tf_strs@.len() == n_tf,
                0 <= tj <= n_tf,
                forall|i: int|
                    0 <= i < timeframes@.len() ==> (#[trigger] timeframes@[i]).is_valid(),
                forall|i: int|
                    0 <= i < n_tf ==> (#[trigger] tf_strs@[i])@ == timeframes@[i].format_spec(),
                forall|t: int|
                    0 <= t < ev.tickers@.len() ==> (#[trigger] ev.tickers@[t]).price.wf(),
                store.candles@ == run_timeframes(
                    se,
                    timeframes@.subrange(0, tj as int),
                    tf_strs@.subrange(0, tj as int),
                    ev.tickers@,
                    ts,
                ).0,
                out.closes@ == cle + run_timeframes(
                    se,
                    timeframes@.subrange(0, tj as int),
                    tf_strs@.subrange(0, tj as int),
                    ev.tickers@,
                    ts,
                ).1,
                out.candles@ == eme + run_timeframes(
                    se,
                    timeframes@.subrange(0, tj as int),
                    tf_strs@.subrange(0, tj as int),
                    ev.tickers@,
                    ts,
                ).2,
            decreases n_tf - tj,
        {
            let ghost stj = run_timeframes(
                se,
                timeframes@.subrange(0, tj as int),
                tf_strs@.subrange(0, tj as int),
                ev.tickers@,
                ts,
            ).0;
            let ghost clj = out.closes@;
            let ghost emj = out.candles@;
            let tf = timeframes[tj];
            let os = tf.open_and_size(msg.timestamp);
            let (open_time, size) = match os {
                Ok(p) => p,
                Err(_) => {
                    proof {
                        assert(false);
                    }
                    (0i64, 1i64)
                },
            };
            proof {
                crate::timeframe::lemma_window_open_idempotent(tf, ts as int);
                assert(window_key_ok(tf_strs@[tj as int]@, open_time as int, size as int)) by {
                    assert(tf.is_valid() && tf.format_spec() == tf_strs@[tj as int]@);
                }
            }
            let n_tk = ev.tickers.len();
            let mut t: usize = 0;
            while t < n_tk
                invariant
                    store.wf(),
                    store.fvgs@ == old(store).fvgs@,
                    store.swings@ == old(store).swings@,
                    store.trades@ == old(store).trades@,
                    store.closes@ == old(store).closes@,
                    n_tk == ev.tickers@.len(),
                    0 <= t <= n_tk,
                    tj < n_tf,
                    n_tf == tf_strs@.len(),
                    size >= 1,
                    window_key_ok(tf_strs@[tj as int]@, open_time as int, size as int),
                    forall|tt: int|
                        0 <= tt < ev.tickers@.len() ==> (#[trigger] ev.tickers@[tt]).price.wf(),
                    store.candles@ == run_tickers(
                        stj,
                        ev.tickers@.subrange(0, t as int),
                        open_time,
                        size,
                        tf_strs@[tj as int],
                    ).0,
                    out.closes@ == clj + run_tickers(
                        stj,
                        ev.tickers@.subrange(0, t as int),
                        open_time,
                        size,
                        tf_strs@[tj as int],
                    ).1,
                    out.candles@ == emj + run_tickers(
                        stj,
                        ev.tickers@.subrange(0, t as int),
                        open_time,
                        size,
                        tf_strs@[tj as int],
                    ).2,
                decreases n_tk - t,
            {
                let ghost pre = ev.tickers@.subrange(0, t as int);
                let ghost cur = ev.tickers@.subrange(0, t as int + 1);
                proof {
                    assert(cur.drop_last() =~= pre);
                    assert(cur.last() == ev.tickers@[t as int]);
                }
                let tk = &ev.tickers[t];
                let tf_str = &tf_strs[tj];
                let (closed, cand) = process_tick(store, tk, open_time, size, tf_str);
                match closed {
                    Some(c) => {
                        out.closes.push(c);
                    },
                    None => {},
                }
                out.candles.push(cand);
                t = t + 1;
            }
            proof {
                assert(ev.tickers@.subrange(0, n_tk as int) =~= ev.tickers@);
                let tcur = timeframes@.subrange(0, tj as int + 1);
                let scur = tf_strs@.subrange(0, tj as int + 1);
                assert(tcur.drop_last() =~= timeframes@.subrange(0, tj as int));
                assert(scur.drop_last() =~= tf_strs@.subrange(0, tj as int));
                assert(tcur.last() == timeframes@[tj as int]);
                assert(scur.last() == tf_strs@[tj as int]);
            }
            tj = tj + 1;
        }
        proof {
            assert(timeframes@.subrange(0, n_tf as int) =~= timeframes@);
            assert(tf_strs@.subrange(0, n_tf as int) =~= tf_strs@);
            let ecur = msg.events@.subrange(0, e as int + 1);
            assert(ecur.drop_last() =~= msg.events@.subrange(0, e as int));
            assert(ecur.last() == msg.events@[e as int]);
        }
        e = e + 1;
    }
    proof {
        assert(msg.events@.subrange(0, n_ev as int) =~= msg.events@);
    }
    out
}

} // verus!
