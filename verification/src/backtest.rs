//! Backtest planning: chunking a historical range into fetch windows,
//! reading the exchange's candle rows, and replaying each row as four
//! synthesized ticker messages (open, low, high, close) in start order.
use crate::digits::{all_digits, chars_of, digits_to_value, digits_value};
use crate::exchange::{EventType, Response, Ticker, TickerEvent};
use crate::price::{parse_price, Price};
use crate::Error;
use vstd::prelude::*;

verus! {

/// Seconds per fetch window: 300 minutes.
pub const WINDOW_SECONDS: i64 = 18_000;

/// The fetch windows covering `[start, end)`, each `WINDOW_SECONDS` long,
/// the last one possibly reaching past `end`.
pub open spec fn backtest_windows_spec(start: int, end: int) -> Seq<(i64, i64)>
    decreases (if end - start > 0 {
        end - start
    } else {
        0
    }),
{
    if start >= end {
        Seq::empty()
    } else {
        seq![((start as i64), ((start + WINDOW_SECONDS) as i64))] + backtest_windows_spec(
            start + WINDOW_SECONDS,
            end,
        )
    }
}

/// Splits a backtest range (Unix seconds) into consecutive fetch windows.
pub fn backtest_windows(start: i64, end: i64) -> (r: Vec<(i64, i64)>)
    requires
        0 <= start,
        end <= 4_294_967_295,
    ensures
        r@ == backtest_windows_spec(start as int, end as int),
{
    let mut out: Vec<(i64, i64)> = Vec::new();
    let mut cur = start;
    while cur < end
        invariant
            0 <= start <= cur,
            end <= 4_294_967_295,
            backtest_windows_spec(start as int, end as int) == out@ + backtest_windows_spec(
                cur as int,
                end as int,
            ),
        decreases (if end - cur > 0 {
            end - cur
        } else {
            0
        }),
    {
        let next = cur + WINDOW_SECONDS;
        proof {
            let tail = backtest_windows_spec(cur as int, end as int);
            let tail2 = backtest_windows_spec(next as int, end as int);
            assert(tail == seq![(cur, next)] + tail2);
            assert(out@ + tail =~= (out@ + seq![(cur, next)]) + tail2);
            assert(out@ + seq![(cur, next)] =~= out@.push((cur, next)));
        }
        out.push((cur, next));
        cur = next;
    }
    proof {
        assert(backtest_windows_spec(cur as int, end as int) =~= Seq::<(i64, i64)>::empty());
        assert(out@ + Seq::<(i64, i64)>::empty() =~= out@);
    }
    out
}

/// One row of the exchange's historical-candles response, as delivered:
/// Unix seconds and decimal prices, all as strings.
#[derive(Debug)]
pub struct RawCandle {
    pub start: String,
    pub open: String,
    pub high: String,
    pub low: String,
    pub close: String,
}

/// A parsed row: the start instant in Unix seconds and fixed-point prices.
#[derive(Debug, Clone, Copy, PartialEq, Eq, Structural)]
pub struct ParsedRow {
    pub start_s: i64,
    pub open: Price,
    pub high: Price,
    pub low: Price,
    pub close: Price,
}

/// A valid start field: one or more digits denoting at most the largest
/// 32-bit timestamp.
pub open spec fn start_seconds_of(s: Seq<char>) -> Option<int> {
    if s.len() >= 1 && all_digits(s) && digits_value(s) <= 4_294_967_295 {
        Some(digits_value(s))
    } else {
        None
    }
}

/// What a whole row parses to.
pub open spec fn parsed_row_of(row: RawCandle) -> Option<ParsedRow> {
    match start_seconds_of(row.start@) {
        None => None,
        Some(ts) => {
            let open = crate::price::decimal_parts_of(row.open@);
            let high = crate::price::decimal_parts_of(row.high@);
            let low = crate::price::decimal_parts_of(row.low@);
            let close = crate::price::decimal_parts_of(row.close@);
            if open is Some && high is Some && low is Some && close is Some {
                let po = crate::price::price_of_parts((open->0).0 as int, (open->0).1 as int);
                let ph = crate::price::price_of_parts((high->0).0 as int, (high->0).1 as int);
                let pl = crate::price::price_of_parts((low->0).0 as int, (low->0).1 as int);
                let pc = crate::price::price_of_parts((close->0).0 as int, (close->0).1 as int);
                if po is Some && ph is Some && pl is Some && pc is Some {
                    Some(
                        ParsedRow {
                            start_s: ts as i64,
                            open: po->0,
                            high: ph->0,
                            low: pl->0,
                            close: pc->0,
                        },
                    )
                } else {
                    None
                }
            } else {
                None
            }
        },
    }
}

/// Reads the start field of a row.
fn parse_start_seconds(s: &String) -> (r: Option<i64>)
    ensures
        r matches Some(v) ==> start_seconds_of(s@) == Some(v as int),
        r is None ==> start_seconds_of(s@) is None,
{
    let v = chars_of(s.as_str());
    let n = v.len();
    if n == 0 {
        return None;
    }
    let mut i: usize = 0;
    while i < n
        invariant
            n == v@.len(),
            v@ == s@,
            0 <= i <= n,
            forall|j: int| 0 <= j < i ==> crate::digits::is_digit(#[trigger] v@[j]),
        decreases n - i,
    {
        let c = v[i];
        if !('0' <= c && c <= '9') {
            return None;
        }
        i = i + 1;
    }
    proof {
        assert(v@.subrange(0, n as int) =~= s@);
    }
    let value = digits_to_value(&v, 0, n, 4_294_967_295);
    if value > 4_294_967_295 {
        return None;
    }
    Some(value as i64)
}

/// Parses one response row; fails with `DecodeError` exactly on rows whose
/// start is no 32-bit timestamp or whose prices are no representable
/// decimals.
pub fn parse_row(row: &RawCandle) -> (r: Result<ParsedRow, Error>)
    ensures
        r matches Ok(p) ==> parsed_row_of(*row) == Some(p),
        r is Ok <==> parsed_row_of(*row) is Some,
        r matches Err(e) ==> e is DecodeError,
{
    let ts = match parse_start_seconds(&row.start) {
        Some(t) => t,
        None => {
            return Err(Error::DecodeError("candle start is not a timestamp".to_owned()));
        },
    };
    let open = match parse_price(row.open.as_str()) {
        Some(p) => p,
        None => {
            return Err(Error::DecodeError("candle open is not a price".to_owned()));
        },
    };
    let high = match parse_price(row.high.as_str()) {
        Some(p) => p,
        None => {
            return Err(Error::DecodeError("candle high is not a price".to_owned()));
        },
    };
    let low = match parse_price(row.low.as_str()) {
        Some(p) => p,
        None => {
            return Err(Error::DecodeError("candle low is not a price".to_owned()));
        },
    };
    let close = match parse_price(row.close.as_str()) {
        Some(p) => p,
        None => {
            return Err(Error::DecodeError("candle close is not a price".to_owned()));
        },
    };
    Ok(ParsedRow { start_s: ts, open, high, low, close })
}

/// Sorts parsed rows by start instant, ascending; the result is a
/// permutation of the input.
pub fn sort_rows(rows: Vec<ParsedRow>) -> (r: Vec<ParsedRow>)
    ensures
        r@.len() == rows@.len(),
        r@.to_multiset() == rows@.to_multiset(),
        forall|j1: int, j2: int|
            0 <= j1 < j2 < r@.len() ==> (#[trigger] r@[j1]).start_s <= (#[trigger] r@[j2]).start_s,
{
    broadcast use vstd::seq_lib::group_to_multiset_ensures;

    let mut rest = rows;
    let mut out: Vec<ParsedRow> = Vec::new();
    while rest.len() > 0
        invariant
            out@.len() + rest@.len() == rows@.len(),
            out@.to_multiset().add(rest@.to_multiset()) =~= rows@.to_multiset(),
            forall|j1: int, j2: int|
                0 <= j1 < j2 < out@.len() ==> (#[trigger] out@[j1]).start_s <= (
                #[trigger] out@[j2]).start_s,
            forall|j: int, k: int|
                0 <= j < out@.len() && 0 <= k < rest@.len() ==> (#[trigger] out@[j]).start_s <= (
                #[trigger] rest@[k]).start_s,
        decreases rest@.len(),
    {
        let m = rest.len();
        let mut mi: usize = 0;
        let mut i: usize = 1;
        while i < m
            invariant
                m == rest@.len(),
                0 <= mi < m,
                1 <= i <= m,
                forall|k: int| 0 <= k < i ==> rest@[mi as int].start_s <= (#[trigger] rest@[k]).start_s,
            decreases m - i,
        {
            if rest[i].start_s < rest[mi].start_s {
                mi = i;
            }
            i = i + 1;
        }
        let ghost rest0 = rest@;
        let ghost out0 = out@;
        let v = rest.remove(mi);
        out.push(v);
        proof {
            rest0.to_multiset_ensures();
            out0.to_multiset_ensures();
            assert(rest@ == rest0.remove(mi as int));
            assert(rest@.to_multiset() =~= rest0.to_multiset().remove(v));
            assert(out@.to_multiset() =~= out0.to_multiset().insert(v));
            assert(rest0.to_multiset().count(v) > 0) by {
                assert(rest0.contains(v)) by {
                    assert(rest0[mi as int] == v);
                }
            }
            assert(out@.to_multiset().add(rest@.to_multiset()) =~= rows@.to_multiset());
            assert forall|j: int, k: int|
                0 <= j < out@.len() && 0 <= k < rest@.len() implies (#[trigger] out@[j]).start_s
                <= (#[trigger] rest@[k]).start_s by {
                let kk = if k < mi as int {
                    k
                } else {
                    k + 1
                };
                assert(rest@[k] == rest0[kk]);
                if j < out0.len() {
                    assert(out@[j] == out0[j]);
                } else {
                    assert(out@[j] == v);
                    assert(rest0[mi as int].start_s <= rest0[kk].start_s);
                }
            }
            assert forall|j1: int, j2: int|
                0 <= j1 < j2 < out@.len() implies (#[trigger] out@[j1]).start_s <= (
            #[trigger] out@[j2]).start_s by {
                if j2 < out0.len() {
                    assert(out@[j1] == out0[j1] && out@[j2] == out0[j2]);
                } else {
                    assert(out@[j2] == v);
                    assert(out@[j1] == out0[j1]);
                    assert(rest0.contains(v));
                }
            }
        }
    }
    out
}

/// One synthesized ticker message of a replay: the `ticker` channel, an
/// empty client, sequence zero, and a single snapshot event holding one
/// ticker of the product at the given price.
pub open spec fn replay_msg_ok(m: Response, product_id: Seq<char>, ts_ms: int, price: Price) -> bool {
    &&& m.channel@ == "ticker"@
    &&& m.client_id@ == Seq::<char>::empty()
    &&& m.timestamp == ts_ms
    &&& m.sequence_num == 0
    &&& m.events@.len() == 1
    &&& m.events@[0].event_type == EventType::Snapshot
    &&& m.events@[0].tickers@.len() == 1
    &&& m.events@[0].tickers@[0].product_id@ == product_id
    &&& m.events@[0].tickers@[0].price == price
}

fn replay_msg(product_id: &String, ts_ms: i64, price: Price) -> (r: Response)
    ensures
        replay_msg_ok(r, product_id@, ts_ms as int, price),
{
    let mut tickers: Vec<Ticker> = Vec::new();
    tickers.push(Ticker { product_id: product_id.clone(), price });
    let mut events: Vec<TickerEvent> = Vec::new();
    events.push(TickerEvent { event_type: EventType::Snapshot, tickers });
    Response {
        channel: "ticker".to_owned(),
        client_id: String::new(),
        timestamp: ts_ms,
        sequence_num: 0,
        events,
    }
}

/// Expands sorted rows into replay ticker messages: four per row, at the
/// row's instant, in the order open, low, high, close.
pub fn replay_messages(product_id: &String, sorted: &Vec<ParsedRow>) -> (r: Vec<Response>)
    requires
        forall|i: int| 0 <= i < sorted@.len() ==> 0 <= (#[trigger] sorted@[i]).start_s
            <= 4_294_967_295,
    ensures
        r@.len() == 4 * sorted@.len(),
        forall|i: int|
            0 <= i < sorted@.len() ==> {
                &&& replay_msg_ok(
                    #[trigger] r@[4 * i],
                    product_id@,
                    sorted@[i].start_s * 1000,
                    sorted@[i].open,
                )
                &&& replay_msg_ok(r@[4 * i + 1], product_id@, sorted@[i].start_s * 1000, sorted@[i].low)
                &&& replay_msg_ok(
                    r@[4 * i + 2],
                    product_id@,
                    sorted@[i].start_s * 1000,
                    sorted@[i].high,
                )
                &&& replay_msg_ok(
                    r@[4 * i + 3],
                    product_id@,
                    sorted@[i].start_s * 1000,
                    sorted@[i].close,
                )
            },
{
    let n = sorted.len();
    let mut out: Vec<Response> = Vec::new();
    let mut i: usize = 0;
    while i < n
        invariant
            n == sorted@.len(),
            0 <= i <= n,
            forall|k: int| 0 <= k < n ==> 0 <= (#[trigger] sorted@[k]).start_s <= 4_294_967_295,
            out@.len() == 4 * i,
            forall|k: int|
                0 <= k < i ==> {
                    &&& replay_msg_ok(
                        #[trigger] out@[4 * k],
                        product_id@,
                        sorted@[k].start_s * 1000,
                        sorted@[k].open,
                    )
                    &&& replay_msg_ok(
                        out@[4 * k + 1],
                        product_id@,
                        sorted@[k].start_s * 1000,
                        sorted@[k].low,
                    )
                    &&& replay_msg_ok(
                        out@[4 * k + 2],
                        product_id@,
                        sorted@[k].start_s * 1000,
                        sorted@[k].high,
                    )
                    &&& replay_msg_ok(
                        out@[4 * k + 3],
                        product_id@,
                        sorted@[k].start_s * 1000,
                        sorted@[k].close,
                    )
                },
        decreases n - i,
    {
        let ghost out_pre = out@;
        let row = &sorted[i];
        let ts_ms = row.start_s * 1000;
        out.push(replay_msg(product_id, ts_ms, row.open));
        out.push(replay_msg(product_id, ts_ms, row.low));
        out.push(replay_msg(product_id, ts_ms, row.high));
        out.push(replay_msg(product_id, ts_ms, row.close));
        proof {
            assert forall|k: int| 0 <= k < i + 1 implies {
                &&& replay_msg_ok(
                    #[trigger] out@[4 * k],
                    product_id@,
                    sorted@[k].start_s * 1000,
                    sorted@[k].open,
                )
                &&& replay_msg_ok(
                    out@[4 * k + 1],
                    product_id@,
                    sorted@[k].start_s * 1000,
                    sorted@[k].low,
                )
                &&& replay_msg_ok(
                    out@[4 * k + 2],
                    product_id@,
                    sorted@[k].start_s * 1000,
                    sorted@[k].high,
                )
                &&& replay_msg_ok(
                    out@[4 * k + 3],
                    product_id@,
                    sorted@[k].start_s * 1000,
                    sorted@[k].close,
                )
            } by {
                if k < i as int {
                    assert(out@[4 * k] == out_pre[4 * k]);
                    assert(out@[4 * k + 1] == out_pre[4 * k + 1]);
                    assert(out@[4 * k + 2] == out_pre[4 * k + 2]);
                    assert(out@[4 * k + 3] == out_pre[4 * k + 3]);
                } else {
                    assert(4 * k == out_pre.len());
                }
            }
        }
        i = i + 1;
    }
    out
}

} // verus!
