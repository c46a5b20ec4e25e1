use chrono::TimeZone;
use marketpipe::timeframe::Timeframe;

fn at(y: i32, mo: u32, d: u32, h: u32, mi: u32, s: u32) -> i64 {
    chrono::Utc
        .with_ymd_and_hms(y, mo, d, h, mi, s)
        .unwrap()
        .timestamp_millis()
}

#[test]
fn error_handling() {
    Timeframe::Minute(0)
        .open_and_size(at(2024, 1, 1, 0, 0, 36))
        .expect_err("Timeframe::Minute(< 0) should not be valid");
    Timeframe::Minute(1)
        .open_and_size(at(2024, 1, 1, 0, 0, 36))
        .expect("Timeframe::Minute(>= 1) should be valid");
    Timeframe::Minute(1440)
        .open_and_size(at(2024, 1, 1, 0, 0, 36))
        .expect("Timeframe::Minute(<= 1440) should be valid");
    Timeframe::Minute(1441)
        .open_and_size(at(2024, 1, 1, 0, 0, 36))
        .expect_err("Timeframe::Minute(> 1440) should not be valid");

    Timeframe::Hour(0)
        .open_and_size(at(2024, 1, 1, 0, 0, 36))
        .expect_err("Timeframe::Hour(< 0) should not be valid");
    Timeframe::Hour(1)
        .open_and_size(at(2024, 1, 1, 0, 0, 36))
        .expect("Timeframe::Hour(>= 1) should be valid");
    Timeframe::Hour(24)
        .open_and_size(at(2024, 1, 1, 0, 0, 36))
        .expect("Timeframe::Hour(<= 24) should be valid");
    Timeframe::Hour(25)
        .open_and_size(at(2024, 1, 1, 0, 0, 36))
        .expect_err("Timeframe::Hour(> 24) should not be valid");

    Timeframe::Day(0)
        .open_and_size(at(2024, 1, 1, 0, 0, 36))
        .expect_err("Timeframe::Day(< 0) should not be valid");
    Timeframe::Day(1)
        .open_and_size(at(2024, 1, 1, 0, 0, 36))
        .expect("Timeframe::Day(>= 1) should be valid");
    Timeframe::Day(365)
        .open_and_size(at(2024, 1, 1, 0, 0, 36))
        .expect("Timeframe::Day(<= 365 should be valid");
    Timeframe::Day(366)
        .open_and_size(at(2024, 1, 1, 0, 0, 36))
        .expect_err("Timeframe::Day(> 365 should not be valid");

    Timeframe::Week(0)
        .open_and_size(at(2024, 1, 1, 0, 0, 36))
        .expect_err("Timeframe::Week(< 0) should not be valid");
    Timeframe::Week(1)
        .open_and_size(at(2024, 1, 1, 0, 0, 36))
        .expect("Timeframe::Week(>= 1) should be valid");
    Timeframe::Week(52)
        .open_and_size(at(2024, 1, 1, 0, 0, 36))
        .expect("Timeframe::Week(<= 52 should be valid");
    Timeframe::Week(53)
        .open_and_size(at(2024, 1, 1, 0, 0, 36))
        .expect_err("Timeframe::Week(> 52 should not be valid");

    Timeframe::Month(0)
        .open_and_size(at(2024, 1, 1, 0, 0, 36))
        .expect_err("Timeframe::Month(< 0) should not be valid");
    Timeframe::Month(1)
        .open_and_size(at(2024, 1, 1, 0, 0, 36))
        .expect("Timeframe::Month(>= 1) should be valid");
    Timeframe::Month(12)
        .open_and_size(at(2024, 1, 1, 0, 0, 36))
        .expect("Timeframe::Month(<= 12 should be valid");
    Timeframe::Month(13)
        .open_and_size(at(2024, 1, 1, 0, 0, 36))
        .expect_err("Timeframe::Month(> 12 should not be valid");
}

#[test]
fn candle_open_minutes() {
    assert_eq!(
        Timeframe::Minute(1)
            .open_and_size(at(2024, 1, 1, 0, 0, 36))
            .unwrap(),
        (
            at(2024, 1, 1, 0, 0, 0),
            chrono::Duration::minutes(1).num_milliseconds()
        ),
    );
    assert_eq!(
        Timeframe::Minute(1)
            .open_and_size(at(2024, 1, 1, 0, 36, 0))
            .unwrap(),
        (
            at(2024, 1, 1, 0, 36, 0),
            chrono::Duration::minutes(1).num_milliseconds()
        ),
    );

    assert_eq!(
        Timeframe::Minute(5)
            .open_and_size(at(2024, 1, 1, 0, 3, 36))
            .unwrap(),
        (
            at(2024, 1, 1, 0, 0, 0),
            chrono::Duration::minutes(5).num_milliseconds()
        ),
    );
    assert_eq!(
        Timeframe::Minute(5)
            .open_and_size(at(2024, 1, 1, 0, 35, 0))
            .unwrap(),
        (
            at(2024, 1, 1, 0, 35, 0),
            chrono::Duration::minutes(5).num_milliseconds()
        ),
    );

    assert_eq!(
        Timeframe::Minute(138)
            .open_and_size(at(2024, 1, 1, 1, 15, 36))
            .unwrap(),
        (
            at(2024, 1, 1, 0, 0, 0),
            chrono::Duration::minutes(138).num_milliseconds()
        ),
    );
    assert_eq!(
        Timeframe::Minute(138)
            .open_and_size(at(2024, 1, 1, 3, 0, 0))
            .unwrap(),
        (
            at(2024, 1, 1, 2, 18, 0),
            chrono::Duration::minutes(138).num_milliseconds()
        ),
    );
    assert_eq!(
        Timeframe::Minute(138)
            .open_and_size(at(2024, 1, 1, 23, 0, 0))
            .unwrap(),
        (
            at(2024, 1, 1, 23, 0, 0),
            chrono::Duration::minutes(60).num_milliseconds()
        ),
    );
    assert_eq!(
        Timeframe::Minute(138)
            .open_and_size(at(2024, 1, 2, 0, 0, 0))
            .unwrap(),
        (
            at(2024, 1, 2, 0, 0, 0),
            chrono::Duration::minutes(138).num_milliseconds()
        ),
    );
}

#[test]
fn candle_open_days() {
    assert_eq!(
        Timeframe::Day(1)
            .open_and_size(at(2024, 1, 1, 0, 0, 36))
            .unwrap(),
        (
            at(2024, 1, 1, 0, 0, 0),
            chrono::Duration::days(1).num_milliseconds()
        ),
    );
    assert_eq!(
        Timeframe::Day(1)
            .open_and_size(at(2024, 2, 1, 0, 0, 36))
            .unwrap(),
        (
            at(2024, 2, 1, 0, 0, 0),
            chrono::Duration::days(1).num_milliseconds()
        ),
    );

    assert_eq!(
        Timeframe::Day(2)
            .open_and_size(at(2024, 1, 1, 0, 0, 36))
            .unwrap(),
        (
            at(2024, 1, 1, 0, 0, 0),
            chrono::Duration::days(2).num_milliseconds()
        ),
    );
    assert_eq!(
        Timeframe::Day(2)
            .open_and_size(at(2024, 2, 1, 0, 0, 36))
            .unwrap(),
        (
            at(2024, 1, 31, 0, 0, 0),
            chrono::Duration::days(2).num_milliseconds()
        ),
    );

    assert_eq!(
        Timeframe::Day(365)
            .open_and_size(at(2024, 12, 31, 0, 0, 0))
            .unwrap(),
        (
            at(2024, 12, 31, 0, 0, 0),
            chrono::Duration::days(1).num_milliseconds()
        ),
    );
    assert_eq!(
        Timeframe::Day(365)
            .open_and_size(at(2023, 12, 31, 0, 0, 0))
            .unwrap(),
        (
            at(2023, 1, 1, 0, 0, 0),
            chrono::Duration::days(365).num_milliseconds()
        ),
    );
}

#[test]
fn candle_open_hours() {
    assert_eq!(
        Timeframe::Hour(1)
            .open_and_size(at(2024, 1, 1, 0, 0, 36))
            .unwrap(),
        (
            at(2024, 1, 1, 0, 0, 0),
            chrono::Duration::hours(1).num_milliseconds()
        ),
    );
    assert_eq!(
        Timeframe::Hour(1)
            .open_and_size(at(2024, 1, 1, 1, 0, 36))
            .unwrap(),
        (
            at(2024, 1, 1, 1, 0, 0),
            chrono::Duration::hours(1).num_milliseconds()
        ),
    );

    assert_eq!(
        Timeframe::Hour(2)
            .open_and_size(at(2024, 1, 1, 0, 0, 36))
            .unwrap(),
        (
            at(2024, 1, 1, 0, 0, 0),
            chrono::Duration::hours(2).num_milliseconds()
        ),
    );
    assert_eq!(
        Timeframe::Hour(2)
            .open_and_size(at(2024, 1, 1, 1, 0, 36))
            .unwrap(),
        (
            at(2024, 1, 1, 0, 0, 0),
            chrono::Duration::hours(2).num_milliseconds()
        ),
    );

    assert_eq!(
        Timeframe::Hour(24)
            .open_and_size(at(2024, 1, 1, 23, 59, 59))
            .unwrap(),
        (
            at(2024, 1, 1, 0, 0, 0),
            chrono::Duration::hours(24).num_milliseconds()
        ),
    );
    assert_eq!(
        Timeframe::Hour(24)
            .open_and_size(at(2024, 1, 2, 0, 0, 0))
            .unwrap(),
        (
            at(2024, 1, 2, 0, 0, 0),
            chrono::Duration::hours(24).num_milliseconds()
        ),
    );
}

#[test]
fn candle_open_months() {
    assert_eq!(
        Timeframe::Month(1)
            .open_and_size(at(2024, 1, 1, 10, 0, 36))
            .unwrap(),
        (
            at(2024, 1, 1, 0, 0, 0),
            chrono::Duration::days(31).num_milliseconds()
        ),
    );
    assert_eq!(
        Timeframe::Month(1)
            .open_and_size(at(2024, 2, 1, 0, 0, 00))
            .unwrap(),
        (
            at(2024, 2, 1, 0, 0, 0),
            chrono::Duration::days(29).num_milliseconds()
        ),
    );

    assert_eq!(
        Timeframe::Month(2)
            .open_and_size(at(2024, 1, 1, 0, 0, 36))
            .unwrap(),
        (
            at(2024, 1, 1, 0, 0, 0),
            chrono::Duration::days(60).num_milliseconds()
        ),
    );
    assert_eq!(
        Timeframe::Month(2)
            .open_and_size(at(2024, 2, 1, 0, 0, 36))
            .unwrap(),
        (
            at(2024, 1, 1, 0, 0, 0),
            chrono::Duration::days(60).num_milliseconds()
        ),
    );

    assert_eq!(
        Timeframe::Month(12)
            .open_and_size(at(2024, 1, 1, 23, 59, 59))
            .unwrap(),
        (
            at(2024, 1, 1, 0, 0, 0),
            chrono::Duration::days(366).num_milliseconds()
        ),
    );
    assert_eq!(
        Timeframe::Month(12)
            .open_and_size(at(2024, 12, 31, 0, 0, 0))
            .unwrap(),
        (
            at(2024, 1, 1, 0, 0, 0),
            chrono::Duration::days(366).num_milliseconds()
        ),
    );
}

#[test]
fn candle_open_weeks() {
    assert_eq!(
        Timeframe::Week(1)
            .open_and_size(at(2024, 1, 1, 10, 0, 36))
            .unwrap(),
        (
            at(2024, 1, 1, 0, 0, 0),
            chrono::Duration::days(7).num_milliseconds()
        ),
    );
    assert_eq!(
        Timeframe::Week(1)
            .open_and_size(at(2024, 1, 8, 10, 0, 36))
            .unwrap(),
        (
            at(2024, 1, 8, 0, 0, 0),
            chrono::Duration::days(7).num_milliseconds()
        ),
    );
    assert_eq!(
        Timeframe::Week(1)
            .open_and_size(at(2023, 1, 1, 0, 0, 00))
            .unwrap(),
        (
            at(2022, 12, 26, 0, 0, 0),
            chrono::Duration::days(7).num_milliseconds()
        ),
    );

    assert_eq!(
        Timeframe::Week(2)
            .open_and_size(at(2024, 1, 1, 0, 0, 36))
            .unwrap(),
        (
            at(2024, 1, 1, 0, 0, 0),
            chrono::Duration::days(14).num_milliseconds()
        ),
    );
    assert_eq!(
        Timeframe::Week(2)
            .open_and_size(at(2024, 1, 8, 0, 0, 36))
            .unwrap(),
        (
            at(2024, 1, 1, 0, 0, 0),
            chrono::Duration::days(14).num_milliseconds()
        ),
    );
    assert_eq!(
        Timeframe::Week(2)
            .open_and_size(at(2023, 1, 1, 0, 0, 36))
            .unwrap(),
        (
            at(2022, 12, 19, 0, 0, 0),
            chrono::Duration::days(14).num_milliseconds()
        ),
    );

    assert_eq!(
        Timeframe::Week(7)
            .open_and_size(at(2024, 1, 1, 0, 0, 36))
            .unwrap(),
        (
            at(2024, 1, 1, 0, 0, 0),
            chrono::Duration::days(49).num_milliseconds()
        ),
    );
    assert_eq!(
        Timeframe::Week(7)
            .open_and_size(at(2024, 2, 18, 0, 0, 36))
            .unwrap(),
        (
            at(2024, 1, 1, 0, 0, 0),
            chrono::Duration::days(49).num_milliseconds()
        ),
    );
    assert_eq!(
        Timeframe::Week(7)
            .open_and_size(at(2024, 2, 19, 0, 0, 36))
            .unwrap(),
        (
            at(2024, 2, 19, 0, 0, 0),
            chrono::Duration::days(49).num_milliseconds()
        ),
    );
    assert_eq!(
        Timeframe::Week(7)
            .open_and_size(at(2023, 1, 1, 0, 0, 36))
            .unwrap(),
        (
            at(2022, 12, 12, 0, 0, 0),
            chrono::Duration::days(21).num_milliseconds()
        ),
    );

    assert_eq!(
        Timeframe::Week(52)
            .open_and_size(at(2024, 1, 1, 0, 0, 36))
            .unwrap(),
        (
            at(2024, 1, 1, 0, 0, 0),
            chrono::Duration::days(364).num_milliseconds()
        ),
    );
    assert_eq!(
        Timeframe::Week(52)
            .open_and_size(at(2024, 12, 30, 0, 0, 36))
            .unwrap(),
        (
            at(2024, 12, 30, 0, 0, 0),
            chrono::Duration::days(364).num_milliseconds()
        ),
    );
    assert_eq!(
        Timeframe::Week(52)
            .open_and_size(at(2023, 1, 1, 0, 0, 36))
            .unwrap(),
        (
            at(2022, 1, 3, 0, 0, 0),
            chrono::Duration::days(364).num_milliseconds()
        ),
    );
}

#[test]
fn timeframe_round_trip() {
    let cases = [
        Timeframe::Minute(1),
        Timeframe::Minute(138),
        Timeframe::Minute(1440),
        Timeframe::Hour(4),
        Timeframe::Day(1),
        Timeframe::Week(52),
        Timeframe::Month(12),
    ];
    for tf in cases {
        let text = tf.format();
        let back = marketpipe::timeframe::parse_timeframe(text.as_str()).unwrap();
        assert_eq!(back, tf);
    }
    assert_eq!(Timeframe::Day(1).format(), "1D");
    assert_eq!(Timeframe::Minute(5).format(), "5m");
    assert_eq!(Timeframe::Hour(4).format(), "4h");
    assert_eq!(Timeframe::Week(2).format(), "2W");
    assert_eq!(Timeframe::Month(3).format(), "3M");
    assert!(marketpipe::timeframe::parse_timeframe("").is_err());
    assert!(marketpipe::timeframe::parse_timeframe("m").is_err());
    assert!(marketpipe::timeframe::parse_timeframe("12x").is_err());
    assert!(marketpipe::timeframe::parse_timeframe("x5m").is_err());
    assert!(marketpipe::timeframe::parse_timeframe("0m").is_err());
    assert!(marketpipe::timeframe::parse_timeframe("1441m").is_err());
    assert!(marketpipe::timeframe::parse_timeframe("53W").is_err());
    assert!(marketpipe::timeframe::parse_timeframe("13M").is_err());
    assert!(marketpipe::timeframe::parse_timeframe("99999999999999999999m").is_err());
}

#[test]
fn bucketing_idempotent() {
    let frames = [
        Timeframe::Minute(138),
        Timeframe::Hour(7),
        Timeframe::Day(11),
        Timeframe::Week(5),
        Timeframe::Month(5),
    ];
    let instants = [
        at(2024, 1, 1, 23, 0, 0),
        at(2023, 1, 1, 0, 0, 36),
        at(2024, 2, 29, 12, 30, 30),
        at(1999, 12, 31, 23, 59, 59),
    ];
    for tf in frames {
        for t in instants {
            let (open, size) = tf.open_and_size(t).unwrap();
            let (open2, size2) = tf.open_and_size(open).unwrap();
            assert_eq!(open2, open);
            assert_eq!(size2, size);
            assert!(open <= t);
            assert!(size >= 1);
        }
    }
}
