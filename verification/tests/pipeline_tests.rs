use chrono::TimeZone;
use marketpipe::backtest::{backtest_windows, parse_row, replay_messages, sort_rows, ParsedRow, RawCandle};
use marketpipe::bus::{passes_filter, topic_name, WsBroadcastMessage};
use marketpipe::exchange::{Candles, CoinbaseService, EventType, Granularity, Response, Ticker, TickerChannel, TickerEvent};
use marketpipe::fvg::FvgIndicator;
use marketpipe::fvg_close::handle_fvg_close;
use marketpipe::models::{Candle, Flow, Swing, FVG};
use marketpipe::position::handle_candle;
use marketpipe::price::{parse_price, Price, PRICE_UNIT};
use marketpipe::store::Store;
use marketpipe::strategy::{AlgoABStrat, Combo, Event, State};
use marketpipe::swing::SwingIndicator;
use marketpipe::ticker::{default_timeframes, handle_ticker, validate_timeframes, TickerOutput};
use marketpipe::timeframe::Timeframe;

fn at(y: i32, mo: u32, d: u32, h: u32, mi: u32, s: u32) -> i64 {
    chrono::Utc
        .with_ymd_and_hms(y, mo, d, h, mi, s)
        .unwrap()
        .timestamp_millis()
}

fn tick_msg(pair: &str, price: &str, timestamp: i64) -> Response {
    Response {
        channel: "ticker".to_owned(),
        client_id: String::new(),
        timestamp,
        sequence_num: 0,
        events: vec![TickerEvent {
            event_type: EventType::Snapshot,
            tickers: vec![Ticker {
                product_id: pair.to_owned(),
                price: parse_price(price).unwrap(),
            }],
        }],
    }
}

fn feed(store: &mut Store, tfs: &Vec<Timeframe>, pair: &str, price: &str, ts: i64) -> TickerOutput {
    let msg = tick_msg(pair, price, ts);
    handle_ticker(store, &msg, tfs)
}

#[test]
fn single_candle_from_two_ticks() {
    let mut store = Store::new();
    let tfs = vec![Timeframe::Minute(1)];
    feed(&mut store, &tfs, "BTC-USD", "100", at(2024, 1, 1, 0, 0, 10));
    let out = feed(&mut store, &tfs, "BTC-USD", "101", at(2024, 1, 1, 0, 0, 40));
    assert_eq!(store.candles.len(), 1);
    let c = &store.candles[0];
    assert_eq!(c.pair, "BTC-USD");
    assert_eq!(c.timeframe, "1m");
    assert_eq!(c.open_time, at(2024, 1, 1, 0, 0, 0));
    assert_eq!(c.open.atoms, 100 * PRICE_UNIT);
    assert_eq!(c.high.atoms, 101 * PRICE_UNIT);
    assert_eq!(c.low.atoms, 100 * PRICE_UNIT);
    assert_eq!(c.close.atoms, 101 * PRICE_UNIT);
    assert_eq!(c.size_in_millis, 60_000);
    assert!(out.closes.is_empty());
}

#[test]
fn candle_close_emitted_once_on_window_transition() {
    let mut store = Store::new();
    let tfs = vec![Timeframe::Minute(1)];
    feed(&mut store, &tfs, "BTC-USD", "100", at(2024, 1, 1, 0, 0, 10));
    feed(&mut store, &tfs, "BTC-USD", "101", at(2024, 1, 1, 0, 0, 40));
    let out = feed(&mut store, &tfs, "BTC-USD", "99", at(2024, 1, 1, 0, 1, 5));
    assert_eq!(store.candles.len(), 2);
    assert_eq!(out.closes.len(), 1);
    let closed = &out.closes[0];
    assert_eq!(closed.open_time, at(2024, 1, 1, 0, 0, 0));
    assert_eq!(closed.close.atoms, 101 * PRICE_UNIT);
    // a second tick in the same window emits no further close
    let out2 = feed(&mut store, &tfs, "BTC-USD", "98", at(2024, 1, 1, 0, 1, 20));
    assert!(out2.closes.is_empty());
    assert_eq!(store.candles.len(), 2);
}

#[test]
fn bullish_fvg_created_from_gap() {
    let mut store = Store::new();
    let tfs = vec![Timeframe::Minute(1)];
    // three one-minute candles: highs/lows shaped so that candle 2's high
    // (105) sits below candle 3's low (110)
    feed(&mut store, &tfs, "BTC-USD", "95", at(2024, 1, 1, 0, 0, 5));
    feed(&mut store, &tfs, "BTC-USD", "100", at(2024, 1, 1, 0, 0, 40));
    feed(&mut store, &tfs, "BTC-USD", "103", at(2024, 1, 1, 0, 1, 5));
    feed(&mut store, &tfs, "BTC-USD", "105", at(2024, 1, 1, 0, 1, 40));
    feed(&mut store, &tfs, "BTC-USD", "110", at(2024, 1, 1, 0, 2, 5));
    let out = feed(&mut store, &tfs, "BTC-USD", "112", at(2024, 1, 1, 0, 3, 5));
    assert_eq!(out.closes.len(), 1);
    let closing = out.closes[0].clone();
    assert_eq!(closing.open_time, at(2024, 1, 1, 0, 2, 0));
    let indicator = FvgIndicator::new();
    let (created, closed) = indicator.process(&mut store, &closing);
    let fvg = created.expect("a bullish gap should be created");
    assert!(matches!(fvg.flow, Flow::Bull));
    assert_eq!(fvg.low.atoms, 105 * PRICE_UNIT);
    assert_eq!(fvg.high.atoms, 110 * PRICE_UNIT);
    assert_eq!(fvg.open_time, at(2024, 1, 1, 0, 1, 0));
    assert!(fvg.close_time.is_none());
    assert!(closed.is_empty());
    assert_eq!(store.fvgs.len(), 1);
}

#[test]
fn fvg_closed_by_piercing_close() {
    let mut store = Store::new();
    let tfs = vec![Timeframe::Minute(1)];
    feed(&mut store, &tfs, "BTC-USD", "95", at(2024, 1, 1, 0, 0, 5));
    feed(&mut store, &tfs, "BTC-USD", "105", at(2024, 1, 1, 0, 1, 5));
    feed(&mut store, &tfs, "BTC-USD", "110", at(2024, 1, 1, 0, 2, 5));
    let out = feed(&mut store, &tfs, "BTC-USD", "112", at(2024, 1, 1, 0, 3, 5));
    let indicator = FvgIndicator::new();
    let (created, _) = indicator.process(&mut store, &out.closes[0]);
    assert!(created.is_some());
    // a later candle closes at 102, through the bull gap's low edge (105)
    let out2 = feed(&mut store, &tfs, "BTC-USD", "102", at(2024, 1, 1, 0, 4, 5));
    let closing = out2.closes[0].clone();
    assert_eq!(closing.close.atoms, 112 * PRICE_UNIT);
    let out3 = feed(&mut store, &tfs, "BTC-USD", "101", at(2024, 1, 1, 0, 5, 5));
    let closing2 = out3.closes[0].clone();
    assert_eq!(closing2.close.atoms, 102 * PRICE_UNIT);
    let (_, closed) = indicator.process(&mut store, &closing2);
    assert_eq!(closed.len(), 1);
    assert!(matches!(closed[0].flow, Flow::Bull));
    assert_eq!(closed[0].close_time, Some(closing2.open_time));
}

#[test]
fn bullish_swing_from_five_daily_candles() {
    let mut store = Store::new();
    let tfs = vec![Timeframe::Day(1)];
    let lows = ["100", "102", "95", "101", "99"];
    for (i, p) in lows.iter().enumerate() {
        feed(&mut store, &tfs, "BTC-USD", p, at(2024, 1, 1 + i as u32, 0, 0, 5));
    }
    // the first tick of day six closes the fifth daily candle
    let out = feed(&mut store, &tfs, "BTC-USD", "98", at(2024, 1, 6, 0, 0, 5));
    assert_eq!(out.closes.len(), 1);
    let closing = out.closes[0].clone();
    assert_eq!(closing.open_time, at(2024, 1, 5, 0, 0, 0));
    let indicator = SwingIndicator::new();
    let (created, closed) = indicator.process(&mut store, &closing);
    let swing = created.expect("a bullish swing should be created");
    assert!(matches!(swing.flow, Flow::Bull));
    assert_eq!(swing.price.atoms, 95 * PRICE_UNIT);
    assert_eq!(swing.open_time, at(2024, 1, 3, 0, 0, 0));
    assert!(swing.close_time.is_none());
    assert!(closed.is_empty());
}

fn fvg_event(tf: &str, flow: Flow, high: i64, low: i64, open_time: i64) -> FVG {
    FVG {
        pair: "BTC-USD".to_owned(),
        open_time,
        timeframe: tf.to_owned(),
        high: Price::from_int(high),
        low: Price::from_int(low),
        flow,
        close_time: None,
    }
}

fn candle_event(tf: &str, low: i64, high: i64, close: i64, open_time: i64) -> Candle {
    Candle {
        pair: "BTC-USD".to_owned(),
        open_time,
        timeframe: tf.to_owned(),
        open: Price::from_int(low),
        high: Price::from_int(high),
        low: Price::from_int(low),
        close: Price::from_int(close),
        size_in_millis: 14_400_000,
    }
}

#[test]
fn combo_walks_through_all_states() {
    let mut combo = Combo::new();
    assert!(matches!(combo.state, State::Idle));
    combo.handle(&Event::Fvg(fvg_event("1D", Flow::Bull, 100, 90, 1000)));
    assert!(matches!(combo.state, State::V1));
    assert!(combo.v1.is_some());
    // a 4h candle whose low (95) tags the gap's high edge (100)
    combo.handle(&Event::CandleClose(candle_event("4h", 95, 99, 97, 2000)));
    assert!(matches!(combo.state, State::V1Test));
    combo.handle(&Event::Fvg(fvg_event("4h", Flow::Bull, 98, 96, 3000)));
    assert!(matches!(combo.state, State::V2));
    assert!(combo.v2.is_some());
    combo.handle(&Event::CandleClose(candle_event("4h", 90, 95, 92, 4000)));
    assert!(matches!(combo.state, State::Idle));
    assert!(combo.v1.is_none());
    assert!(combo.v2.is_none());
    assert!(combo.v3.is_none());
    assert!(combo.v4.is_none());
}

#[test]
fn combo_ignores_unhandled_events() {
    let mut combo = Combo::new();
    combo.handle(&Event::Swing(Swing {
        pair: "BTC-USD".to_owned(),
        open_time: 1,
        timeframe: "1D".to_owned(),
        price: Price::from_int(5),
        flow: Flow::Bear,
        close_time: None,
    }));
    assert!(matches!(combo.state, State::Idle));
    // a 1h gap does not arm the machine
    combo.handle(&Event::Fvg(fvg_event("1h", Flow::Bull, 100, 90, 1000)));
    assert!(matches!(combo.state, State::Idle));
    // in V1 a newer daily gap refreshes the slot without a transition
    combo.handle(&Event::Fvg(fvg_event("1D", Flow::Bull, 100, 90, 1000)));
    combo.handle(&Event::Fvg(fvg_event("1D", Flow::Bear, 80, 70, 2000)));
    assert!(matches!(combo.state, State::V1));
    assert_eq!(combo.v1.as_ref().unwrap().open_time, 2000);
    assert!(matches!(combo.v1.as_ref().unwrap().flow, Flow::Bear));
}

#[test]
fn algo_ab_keeps_most_recent_fvg_per_timeframe() {
    let mut strat = AlgoABStrat::new();
    let first = fvg_event("1D", Flow::Bull, 100, 90, 1000);
    let older = fvg_event("1D", Flow::Bear, 80, 70, 500);
    let newer = fvg_event("1D", Flow::Bear, 85, 75, 2000);
    let r1 = strat.handle_fvg(first).unwrap();
    assert_eq!(r1.open_time, 1000);
    // an older gap is ignored but the buffer is still republished
    let r2 = strat.handle_fvg(older).unwrap();
    assert_eq!(r2.open_time, 1000);
    let r3 = strat.handle_fvg(newer).unwrap();
    assert_eq!(r3.open_time, 2000);
    // an unwatched timeframe is not buffered
    assert!(strat.handle_fvg(fvg_event("4h", Flow::Bull, 10, 5, 9000)).is_none());
    // the hourly and five-minute slots are independent
    let h = strat.handle_fvg(fvg_event("1h", Flow::Bull, 10, 5, 100)).unwrap();
    assert_eq!(h.open_time, 100);
    let m = strat.handle_fvg(fvg_event("5m", Flow::Bull, 10, 5, 200)).unwrap();
    assert_eq!(m.open_time, 200);
    assert_eq!(strat.fvg_1d.as_ref().unwrap().open_time, 2000);
}

#[test]
fn trade_from_fvg_close_and_lifecycle() {
    let mut store = Store::new();
    let mut fvg = fvg_event("1m", Flow::Bear, 100, 90, 1000);
    fvg.close_time = Some(5000);
    let trade = handle_fvg_close(&mut store, &fvg).unwrap();
    assert!(matches!(trade.flow, Flow::Bull));
    assert_eq!(trade.entry.atoms, 100 * PRICE_UNIT);
    assert_eq!(trade.stop_loss.atoms, 90 * PRICE_UNIT);
    assert_eq!(trade.take_profit.atoms, 120 * PRICE_UNIT);
    assert_eq!(trade.quantity.atoms, 10 * PRICE_UNIT);
    assert_eq!(trade.open_time, 5000);
    assert!(trade.fill_time.is_none());
    assert_eq!(store.trades.len(), 1);
    // a candle closing at 99 fills the bull entry at 100
    let fill_candle = candle_event("1m", 99, 99, 99, 6000);
    let (filled, tp1, sl1) = handle_candle(&mut store, &fill_candle);
    assert_eq!(filled.len(), 1);
    assert_eq!(filled[0].fill_time, Some(6000));
    assert!(tp1.is_empty() && sl1.is_empty());
    // a candle closing at 121 reaches the take-profit at 120
    let tp_candle = candle_event("1m", 121, 121, 121, 7000);
    let (f2, tp2, sl2) = handle_candle(&mut store, &tp_candle);
    assert!(f2.is_empty() && sl2.is_empty());
    assert_eq!(tp2.len(), 1);
    assert_eq!(tp2[0].close_time, Some(7000));
    assert_eq!(tp2[0].close.unwrap().atoms, 120 * PRICE_UNIT);
}

#[test]
fn trade_from_degenerate_fvg_fails() {
    let mut store = Store::new();
    // a bear-side entry at the gap's low of zero cannot be sized
    let mut fvg = fvg_event("1m", Flow::Bull, 1, 0, 1000);
    fvg.close_time = Some(2000);
    let r = handle_fvg_close(&mut store, &fvg);
    assert!(r.is_err());
    assert!(store.trades.is_empty());
}

#[test]
fn stop_loss_close() {
    let mut store = Store::new();
    let mut fvg = fvg_event("1m", Flow::Bear, 100, 90, 1000);
    fvg.close_time = Some(5000);
    handle_fvg_close(&mut store, &fvg).unwrap();
    let fill_candle = candle_event("1m", 99, 99, 99, 6000);
    handle_candle(&mut store, &fill_candle);
    // a candle closing at 90 reaches the stop-loss
    let sl_candle = candle_event("1m", 89, 90, 90, 7000);
    let (_, tp, sl) = handle_candle(&mut store, &sl_candle);
    assert!(tp.is_empty());
    assert_eq!(sl.len(), 1);
    assert_eq!(sl[0].close.unwrap().atoms, 90 * PRICE_UNIT);
    assert_eq!(sl[0].close_time, Some(7000));
}

#[test]
fn price_parsing() {
    assert_eq!(parse_price("100").unwrap().atoms, 100 * PRICE_UNIT);
    assert_eq!(parse_price("100.5").unwrap().atoms, 100_500_000_000);
    assert_eq!(parse_price("0.000000001").unwrap().atoms, 1);
    // digits beyond the ninth decimal place are truncated
    assert_eq!(parse_price("0.1234567891").unwrap().atoms, 123_456_789);
    assert!(parse_price("-1").is_none());
    assert!(parse_price("not a number").is_none());
    assert!(parse_price("").is_none());
}

#[test]
fn backtest_planning() {
    let windows = backtest_windows(0, 40_000);
    assert_eq!(windows, vec![(0, 18_000), (18_000, 36_000), (36_000, 54_000)]);
    assert!(backtest_windows(10, 10).is_empty());

    let row = RawCandle {
        start: "1704067200".to_owned(),
        open: "100.5".to_owned(),
        high: "101".to_owned(),
        low: "99.25".to_owned(),
        close: "100".to_owned(),
    };
    let parsed = parse_row(&row).unwrap();
    assert_eq!(parsed.start_s, 1_704_067_200);
    assert_eq!(parsed.open.atoms, 100_500_000_000);
    assert_eq!(parsed.high.atoms, 101 * PRICE_UNIT);
    assert_eq!(parsed.low.atoms, 99_250_000_000);
    assert_eq!(parsed.close.atoms, 100 * PRICE_UNIT);
    assert!(parse_row(&RawCandle {
        start: "later".to_owned(),
        open: "1".to_owned(),
        high: "1".to_owned(),
        low: "1".to_owned(),
        close: "1".to_owned(),
    })
    .is_err());

    let mk = |s: i64| ParsedRow {
        start_s: s,
        open: Price::from_int(1),
        high: Price::from_int(2),
        low: Price::from_int(1),
        close: Price::from_int(2),
    };
    let sorted = sort_rows(vec![mk(3), mk(1), mk(2)]);
    assert_eq!(sorted[0].start_s, 1);
    assert_eq!(sorted[1].start_s, 2);
    assert_eq!(sorted[2].start_s, 3);

    let msgs = replay_messages(&"BTC-USD".to_owned(), &vec![parsed]);
    assert_eq!(msgs.len(), 4);
    assert_eq!(msgs[0].timestamp, 1_704_067_200_000);
    assert_eq!(msgs[0].events[0].tickers[0].price.atoms, 100_500_000_000);
    assert_eq!(msgs[1].events[0].tickers[0].price.atoms, 99_250_000_000);
    assert_eq!(msgs[2].events[0].tickers[0].price.atoms, 101 * PRICE_UNIT);
    assert_eq!(msgs[3].events[0].tickers[0].price.atoms, 100 * PRICE_UNIT);
    assert_eq!(msgs[0].channel, "ticker");
    assert_eq!(msgs[0].events[0].tickers[0].product_id, "BTC-USD");
}

#[test]
fn exchange_request_shapes() {
    let req = Candles {
        product_id: "BTC-USD".to_owned(),
        start: 10,
        end: 20,
        granularity: Granularity::OneMinute,
    };
    assert_eq!(req.endpoint(), "api/v3/brokerage/products/BTC-USD/candles");
    let params = req.params();
    assert_eq!(params[0], ("start".to_owned(), "10".to_owned()));
    assert_eq!(params[1], ("end".to_owned(), "20".to_owned()));
    assert_eq!(params[2], ("granularity".to_owned(), "ONE_MINUTE".to_owned()));
    assert_eq!(Granularity::OneDay.token(), "ONE_DAY");
    assert_eq!(CoinbaseService::Websocket.name(), "public_websocket_api");
    assert_eq!(CoinbaseService::Rest.name(), "retail_rest_api_proxy");
    let channel = TickerChannel { product_id: "BTC-USD".to_owned() };
    assert_eq!(channel.name(), "ticker");
    assert_eq!(channel.product_id(), "BTC-USD");
}

#[test]
fn bus_topics_and_filters() {
    assert_eq!(topic_name("candle", false), "candle");
    assert_eq!(topic_name("candle", true), "backtest-candle");
    assert_eq!(topic_name("fvg_close", true), "backtest-fvg_close");
    let msg = WsBroadcastMessage::BacktestCandle("payload".to_owned());
    assert_eq!(msg.backtest_payload(), Some(&"payload".to_owned()));
    assert!(WsBroadcastMessage::Candle("p".to_owned()).backtest_payload().is_none());
    let pair = "BTC-USD".to_owned();
    let tf = "1m".to_owned();
    assert!(passes_filter(&pair, &tf, &"BTC-USD".to_owned(), &None));
    assert!(passes_filter(&pair, &tf, &"BTC-USD".to_owned(), &Some("1m".to_owned())));
    assert!(!passes_filter(&pair, &tf, &"BTC-USD".to_owned(), &Some("5m".to_owned())));
    assert!(!passes_filter(&pair, &tf, &"ETH-USD".to_owned(), &None));
}

#[test]
fn store_queries_and_primary_key() {
    let mut store = Store::new();
    let tfs = vec![Timeframe::Minute(1)];
    for i in 0..5u32 {
        feed(&mut store, &tfs, "BTC-USD", "100", at(2024, 1, 1, 0, i, 5));
    }
    // same window twice never duplicates a key
    feed(&mut store, &tfs, "BTC-USD", "101", at(2024, 1, 1, 0, 4, 30));
    assert_eq!(store.candles.len(), 5);
    let pair = "BTC-USD".to_owned();
    let tf = "1m".to_owned();
    let recent = store.recent_candles_before(&pair, &tf, at(2024, 1, 1, 0, 4, 0), 4);
    assert_eq!(recent.len(), 4);
    assert_eq!(recent[0].open_time, at(2024, 1, 1, 0, 3, 0));
    assert_eq!(recent[3].open_time, at(2024, 1, 1, 0, 0, 0));
    let asc = store.candles_in_range(&pair, &tf, at(2024, 1, 1, 0, 1, 0), at(2024, 1, 1, 0, 3, 0));
    assert_eq!(asc.len(), 3);
    assert_eq!(asc[0].open_time, at(2024, 1, 1, 0, 1, 0));
    assert_eq!(asc[2].open_time, at(2024, 1, 1, 0, 3, 0));
    let latest = store.latest_candle_before(&pair, &tf, at(2024, 1, 1, 0, 4, 0)).unwrap();
    assert_eq!(latest.open_time, at(2024, 1, 1, 0, 3, 0));
    assert!(store
        .closed_candle_for(&pair, &tf, at(2024, 1, 1, 0, 4, 0))
        .is_none());
    let closed = store
        .closed_candle_for(&pair, &tf, at(2024, 1, 1, 0, 5, 0))
        .unwrap();
    assert_eq!(closed.open_time, at(2024, 1, 1, 0, 4, 0));
    store.clear();
    assert!(store.candles.is_empty());
}

#[test]
fn timeframe_config_validation() {
    assert!(validate_timeframes(&default_timeframes()).is_ok());
    assert!(validate_timeframes(&vec![Timeframe::Minute(0)]).is_err());
    assert!(validate_timeframes(&vec![Timeframe::Minute(2), Timeframe::Minute(1441)]).is_err());
    let tfs = default_timeframes();
    assert_eq!(tfs.len(), 7);
    assert_eq!(tfs[0], Timeframe::Minute(1));
    assert_eq!(tfs[6], Timeframe::Week(1));
}

#[test]
fn century_leap_rules() {
    // 1900 is no leap year, 2000 is
    assert_eq!(
        Timeframe::Month(1).open_and_size(at(1900, 2, 10, 0, 0, 0)).unwrap(),
        (
            at(1900, 2, 1, 0, 0, 0),
            chrono::Duration::days(28).num_milliseconds()
        ),
    );
    assert_eq!(
        Timeframe::Month(1).open_and_size(at(2000, 2, 10, 0, 0, 0)).unwrap(),
        (
            at(2000, 2, 1, 0, 0, 0),
            chrono::Duration::days(29).num_milliseconds()
        ),
    );
    assert_eq!(
        Timeframe::Day(1).open_and_size(at(2024, 2, 29, 13, 0, 0)).unwrap(),
        (
            at(2024, 2, 29, 0, 0, 0),
            chrono::Duration::days(1).num_milliseconds()
        ),
    );
}

#[test]
fn price_out_of_range_is_rejected() {
    // a value whose atoms exceed the representable bound
    assert!(parse_price("100000000000000000000000000000").is_none());
    assert!(parse_price("20000000000000000000000000000").is_some());
}

#[test]
fn fvg_range_query() {
    let mut store = Store::new();
    let tfs = vec![Timeframe::Minute(1)];
    feed(&mut store, &tfs, "BTC-USD", "95", at(2024, 1, 1, 0, 0, 5));
    feed(&mut store, &tfs, "BTC-USD", "105", at(2024, 1, 1, 0, 1, 5));
    feed(&mut store, &tfs, "BTC-USD", "110", at(2024, 1, 1, 0, 2, 5));
    let out = feed(&mut store, &tfs, "BTC-USD", "112", at(2024, 1, 1, 0, 3, 5));
    let indicator = FvgIndicator::new();
    indicator.process(&mut store, &out.closes[0]);
    let pair = "BTC-USD".to_owned();
    let tf = "1m".to_owned();
    let fvgs = store.fvgs_in_range(&pair, &tf, at(2024, 1, 1, 0, 0, 0), at(2024, 1, 1, 1, 0, 0));
    assert_eq!(fvgs.len(), 1);
    assert_eq!(fvgs[0].open_time, at(2024, 1, 1, 0, 1, 0));
    let none = store.fvgs_in_range(&pair, &tf, at(2024, 1, 1, 0, 2, 0), at(2024, 1, 1, 1, 0, 0));
    assert!(none.is_empty());
}
