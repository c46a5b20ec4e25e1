//! Timeframes and the bucketing of instants into candle windows.
//!
//! A timeframe maps any instant to the unique window that opens on or before
//! it: minute and hour windows align to the start of the UTC day, day windows
//! to January 1, week windows to ISO-week Mondays, and month windows to
//! January; windows that would cross their alignment boundary are truncated.
//! Instants are Unix milliseconds; the model below works in "absolute"
//! milliseconds counted from 0001-01-01T00:00:00.
use crate::calendar::{
    days_before_month, days_before_year, days_in_month, days_in_year, day_of_month_start,
    days_to_year, lemma_days_before_month_full, lemma_days_before_month_mono,
    lemma_days_before_year_step, lemma_month_of_year_day_unique, lemma_year_of_day,
    lemma_year_of_day_unique, month_and_day_of_doy, month_of_year_day, year_and_doy_of_day,
    year_of_day, DAY_LIMIT, MS_PER_DAY, MS_PER_HOUR, MS_PER_MINUTE,
};
use crate::digits::{
    all_digits, chars_of, dec_digits, digits_to_value, digits_value, lemma_dec_digits_value,
    push_char, push_decimal,
};
use crate::Error;
use vstd::arithmetic::div_mod::{
    lemma_fundamental_div_mod, lemma_fundamental_div_mod_converse_div,
    lemma_fundamental_div_mod_converse_mod, lemma_mod_division_less_than_divisor,
};
use vstd::prelude::*;

verus! {

/// Smallest supported instant, 0001-01-01T00:00:00 in Unix milliseconds.
pub const TS_MIN: i64 = -62_135_596_800_000;

/// First unsupported instant, 10000-01-01T00:00:00 in Unix milliseconds.
pub const TS_LIMIT: i64 = 253_402_300_800_000;

/// Milliseconds from 0001-01-01 to the Unix epoch.
pub const EPOCH_ABS_MS: i64 = 62_135_596_800_000;

#[derive(Debug, Clone, Copy, PartialEq, Eq, Structural)]
pub enum Timeframe {
    Month(i64),
    Week(i64),
    Day(i64),
    Hour(i64),
    Minute(i64),
}

pub open spec fn min_int(a: int, b: int) -> int {
    if a < b {
        a
    } else {
        b
    }
}

/// Largest multiple of `u` that is at most `v` (for non-negative `v`).
pub open spec fn aligned_down(v: int, u: int) -> int {
    v / u * u
}

/// Day number of the Monday of the week holding day `d`.
pub open spec fn monday_of(d: int) -> int {
    d - d % 7
}

/// Day number of the Monday of ISO week 1 of year `y`: the Monday of the
/// week holding January 4.
pub open spec fn week1_monday(y: int) -> int {
    monday_of(days_before_year(y) + 3)
}

/// ISO year of day `d`: the year holding the Thursday of `d`'s week.
pub open spec fn iso_year_of_day(d: int) -> int {
    year_of_day(monday_of(d) + 3)
}

/// Window open for sub-day units (minutes, hours), aligned to the UTC day.
pub open spec fn subday_open(unit: int, a: int) -> int {
    aligned_down(a, MS_PER_DAY as int) + aligned_down(
        a - aligned_down(a, MS_PER_DAY as int),
        unit,
    )
}

/// Sub-day window size: truncated at the next midnight.
pub open spec fn subday_size(unit: int, a: int) -> int {
    min_int(unit, aligned_down(a, MS_PER_DAY as int) + MS_PER_DAY - subday_open(unit, a))
}

/// Day-of-instant helper: absolute day number of `a`.
pub open spec fn day_of_abs(a: int) -> int {
    a / (MS_PER_DAY as int)
}

pub open spec fn day_open(x: int, a: int) -> int {
    let ys = days_before_year(year_of_day(day_of_abs(a))) * MS_PER_DAY;
    ys + aligned_down(a - ys, x * MS_PER_DAY)
}

pub open spec fn day_size(x: int, a: int) -> int {
    let y = year_of_day(day_of_abs(a));
    min_int(x * MS_PER_DAY, days_before_year(y + 1) * MS_PER_DAY - day_open(x, a))
}

pub open spec fn week_open_day(x: int, a: int) -> int {
    let iy = iso_year_of_day(day_of_abs(a));
    let w1 = week1_monday(iy);
    let k = (monday_of(day_of_abs(a)) - w1) / 7;
    w1 + 7 * aligned_down(k, x)
}

pub open spec fn week_open(x: int, a: int) -> int {
    week_open_day(x, a) * MS_PER_DAY
}

pub open spec fn week_size(x: int, a: int) -> int {
    let iy = iso_year_of_day(day_of_abs(a));
    min_int(x * 7 * MS_PER_DAY, (week1_monday(iy + 1) - week_open_day(x, a)) * MS_PER_DAY)
}

/// First month of the month-window holding month `m` (1-based).
pub open spec fn month_window_start(x: int, m: int) -> int {
    1 + (m - 1) / x * x
}

pub open spec fn month_open_day(x: int, a: int) -> int {
    let y = year_of_day(day_of_abs(a));
    let m = month_of_year_day(y, day_of_abs(a) - days_before_year(y));
    days_before_year(y) + days_before_month(y, month_window_start(x, m))
}

pub open spec fn month_open(x: int, a: int) -> int {
    month_open_day(x, a) * MS_PER_DAY
}

/// Month windows are not truncated: the size is the exact distance to the
/// next window open (or to January 1 of the next year).
pub open spec fn month_next_day(x: int, a: int) -> int {
    let y = year_of_day(day_of_abs(a));
    let m = month_of_year_day(y, day_of_abs(a) - days_before_year(y));
    let om = month_window_start(x, m);
    if om + x > 12 {
        days_before_year(y + 1)
    } else {
        days_before_year(y) + days_before_month(y, om + x)
    }
}

pub open spec fn month_size(x: int, a: int) -> int {
    (month_next_day(x, a) - month_open_day(x, a)) * MS_PER_DAY
}

impl Timeframe {
    /// Range validation: each unit admits a bounded multiplier.
    pub open spec fn is_valid(self) -> bool {
        match self {
            Timeframe::Month(x) => 1 <= x <= 12,
            Timeframe::Week(x) => 1 <= x <= 52,
            Timeframe::Day(x) => 1 <= x <= 365,
            Timeframe::Hour(x) => 1 <= x <= 24,
            Timeframe::Minute(x) => 1 <= x <= 1440,
        }
    }

    /// Window open of the window holding absolute instant `a`.
    pub open spec fn window_open_abs(self, a: int) -> int {
        match self {
            Timeframe::Month(x) => month_open(x as int, a),
            Timeframe::Week(x) => week_open(x as int, a),
            Timeframe::Day(x) => day_open(x as int, a),
            Timeframe::Hour(x) => subday_open(x as int * MS_PER_HOUR, a),
            Timeframe::Minute(x) => subday_open(x as int * MS_PER_MINUTE, a),
        }
    }

    /// Window size in milliseconds of the window holding `a`.
    pub open spec fn window_size_abs(self, a: int) -> int {
        match self {
            Timeframe::Month(x) => month_size(x as int, a),
            Timeframe::Week(x) => week_size(x as int, a),
            Timeframe::Day(x) => day_size(x as int, a),
            Timeframe::Hour(x) => subday_size(x as int * MS_PER_HOUR, a),
            Timeframe::Minute(x) => subday_size(x as int * MS_PER_MINUTE, a),
        }
    }

    /// Window open in Unix milliseconds.
    pub open spec fn window_open_unix(self, t: int) -> int {
        self.window_open_abs(t + EPOCH_ABS_MS) - EPOCH_ABS_MS
    }

    /// Window size for the window holding Unix instant `t`.
    pub open spec fn window_size_unix(self, t: int) -> int {
        self.window_size_abs(t + EPOCH_ABS_MS)
    }

    pub fn validate(&self) -> (r: bool)
        ensures
            r == self.is_valid(),
    {
        match self {
            Timeframe::Month(x) => 1 <= *x && *x <= 12,
            Timeframe::Week(x) => 1 <= *x && *x <= 52,
            Timeframe::Day(x) => 1 <= *x && *x <= 365,
            Timeframe::Hour(x) => 1 <= *x && *x <= 24,
            Timeframe::Minute(x) => 1 <= *x && *x <= 1440,
        }
    }

    /// Maps Unix instant `t` to `(window_open, window_size_ms)` for this
    /// timeframe, or fails with `TimeframeError` exactly when the timeframe
    /// is out of range.
    pub fn open_and_size(&self, t: i64) -> (r: Result<(i64, i64), Error>)
        requires
            TS_MIN <= t < TS_LIMIT,
        ensures
            r is Ok <==> self.is_valid(),
            r matches Ok(p) ==> p.0 == self.window_open_unix(t as int) && p.1
                == self.window_size_unix(t as int),
            r matches Ok(p) ==> TS_MIN <= p.0 <= t && 1 <= p.1,
            r matches Err(e) ==> e is TimeframeError,
    {
        if !self.validate() {
            return Err(Error::TimeframeError("timeframe out of range".to_owned()));
        }
        let a: u64 = (t + EPOCH_ABS_MS) as u64;
        proof {
            assert(a < DAY_LIMIT * MS_PER_DAY);
        }
        let (open_abs, size) = match self {
            Timeframe::Minute(x) => subday_open_and_size((*x as u64) * MS_PER_MINUTE, a),
            Timeframe::Hour(x) => subday_open_and_size((*x as u64) * MS_PER_HOUR, a),
            Timeframe::Day(x) => day_open_and_size(*x as u64, a),
            Timeframe::Week(x) => week_open_and_size(*x as u64, a),
            Timeframe::Month(x) => month_open_and_size(*x as u64, a),
        };
        proof {
            assert(a as int == t + EPOCH_ABS_MS);
            assert(open_abs as int == self.window_open_abs(t + EPOCH_ABS_MS));
            assert(size as int == self.window_size_abs(t + EPOCH_ABS_MS));
        }
        Ok(((open_abs as i64) - EPOCH_ABS_MS, size as i64))
    }
}

/// Largest multiple of `u` at most `v`.
fn align_down(v: u64, u: u64) -> (r: u64)
    requires
        1 <= u,
    ensures
        r == aligned_down(v as int, u as int),
        r <= v,
        v - r < u,
    {
    proof {
        lemma_align_down(v as int, u as int);
    }
    v / u * u
}

/// Facts about rounding a non-negative value down to a multiple of `u`.
pub proof fn lemma_align_down(v: int, u: int)
    requires
        0 <= v,
        1 <= u,
    ensures
        0 <= aligned_down(v, u) <= v,
        v - aligned_down(v, u) < u,
        aligned_down(aligned_down(v, u), u) == aligned_down(v, u),
        aligned_down(v, u) % u == 0,
{
    lemma_fundamental_div_mod(v, u);
    lemma_mod_division_less_than_divisor(v, u);
    let q = v / u;
    assert(q * u == u * q) by (nonlinear_arith);
    assert(q >= 0) by {
        if q < 0 {
            assert(u * q <= -u) by (nonlinear_arith)
                requires
                    q <= -1,
                    u >= 1,
            ;
        }
    }
    assert(q * u >= 0) by (nonlinear_arith)
        requires
            q >= 0,
            u >= 1,
    ;
    lemma_fundamental_div_mod_converse_div(q * u, u, q, 0);
    lemma_fundamental_div_mod_converse_mod(q * u, u, q, 0);
}

fn min64(a: u64, b: u64) -> (r: u64)
    ensures
        r == min_int(a as int, b as int),
{
    if a < b {
        a
    } else {
        b
    }
}

fn subday_open_and_size(unit: u64, a: u64) -> (r: (u64, u64))
    requires
        1 <= unit <= 1440 * MS_PER_MINUTE,
        a < DAY_LIMIT * MS_PER_DAY,
    ensures
        r.0 == subday_open(unit as int, a as int),
        r.1 == subday_size(unit as int, a as int),
        r.0 <= a,
        1 <= r.1,
        r.1 <= 366 * MS_PER_DAY,
{
    let ds = align_down(a, MS_PER_DAY);
    let off = a - ds;
    let open = ds + align_down(off, unit);
    let next_day = ds + MS_PER_DAY;
    let size = min64(unit, next_day - open);
    (open, size)
}

fn day_open_and_size(x: u64, a: u64) -> (r: (u64, u64))
    requires
        1 <= x <= 365,
        a < DAY_LIMIT * MS_PER_DAY,
    ensures
        r.0 == day_open(x as int, a as int),
        r.1 == day_size(x as int, a as int),
        r.0 <= a,
        1 <= r.1,
        r.1 <= 366 * MS_PER_DAY,
{
    let d = a / MS_PER_DAY;
    proof {
        lemma_fundamental_div_mod(a as int, MS_PER_DAY as int);
        lemma_mod_division_less_than_divisor(a as int, MS_PER_DAY as int);
        assert(d < DAY_LIMIT) by {
            if d >= DAY_LIMIT {
                assert(MS_PER_DAY * (d as int) >= MS_PER_DAY * (DAY_LIMIT as int))
                    by (nonlinear_arith)
                    requires
                        d as int >= DAY_LIMIT as int,
                ;
            }
        }
    }
    let (y, _doy) = year_and_doy_of_day(d);
    let ys_days = days_to_year(y);
    let ys = ys_days * MS_PER_DAY;
    proof {
        assert(MS_PER_DAY * (ys_days as int) <= MS_PER_DAY * (d as int)) by (nonlinear_arith)
            requires
                ys_days as int <= d as int,
        ;
        assert(ys <= a);
    }
    let unit = x * MS_PER_DAY;
    let open = ys + align_down(a - ys, unit);
    let next_ys = days_to_year(y + 1) * MS_PER_DAY;
    proof {
        lemma_days_before_year_step(y as int);
        assert(d as int + 1 <= days_before_year(y as int + 1));
        assert(MS_PER_DAY * (d as int + 1) <= MS_PER_DAY * days_before_year(y as int + 1))
            by (nonlinear_arith)
            requires
                d as int + 1 <= days_before_year(y as int + 1),
        ;
        assert(a < next_ys);
    }
    let size = min64(unit, next_ys - open);
    (open, size)
}

/// ISO bracketing: the Monday of `d`'s week lies between the week-1 Mondays
/// of its ISO year and the next.
pub proof fn lemma_iso_bracket(d: int)
    requires
        0 <= d,
    ensures
        1 <= iso_year_of_day(d),
        week1_monday(iso_year_of_day(d)) <= monday_of(d),
        monday_of(d) < week1_monday(iso_year_of_day(d) + 1),
        0 <= week1_monday(iso_year_of_day(d)),
        monday_of(d) % 7 == 0,
        (monday_of(d) - week1_monday(iso_year_of_day(d))) % 7 == 0,
{
    lemma_mod_division_less_than_divisor(d, 7);
    lemma_fundamental_div_mod(d, 7);
    let monday = monday_of(d);
    assert(7 * (d / 7) == (d / 7) * 7) by (nonlinear_arith);
    lemma_fundamental_div_mod_converse_mod(monday, 7, d / 7, 0);
    let iy = iso_year_of_day(d);
    lemma_year_of_day(monday + 3);
    let jan1 = days_before_year(iy);
    let jan1n = days_before_year(iy + 1);
    let j4 = jan1 + 3;
    let j4n = jan1n + 3;
    lemma_mod_division_less_than_divisor(j4, 7);
    lemma_fundamental_div_mod(j4, 7);
    let w1 = week1_monday(iy);
    assert(7 * (j4 / 7) == (j4 / 7) * 7) by (nonlinear_arith);
    lemma_fundamental_div_mod_converse_mod(w1, 7, j4 / 7, 0);
    lemma_mod_division_less_than_divisor(j4n, 7);
    lemma_fundamental_div_mod(j4n, 7);
    let w1n = week1_monday(iy + 1);
    assert(7 * (j4n / 7) == (j4n / 7) * 7) by (nonlinear_arith);
    // w1 and monday are both multiples of 7 and w1 <= monday + 6, so
    // w1 <= monday; and monday + 3 < jan1n - 3 + 3 <= w1n + 6, similarly.
    assert(w1 <= monday) by {
        assert(w1 == 7 * (j4 / 7));
        assert(monday == 7 * (d / 7));
        assert(w1 <= jan1 + 3);
        assert(jan1 <= monday + 3);
        if w1 > monday {
            assert(7 * (j4 / 7) >= 7 * (d / 7 + 1)) by (nonlinear_arith)
                requires
                    j4 / 7 >= d / 7 + 1,
            ;
        }
    }
    assert(monday < w1n) by {
        assert(monday + 3 < jan1n);
        assert(w1n > jan1n + 3 - 7);
    }
    assert((monday - w1) % 7 == 0) by {
        assert(monday - w1 == 7 * (d / 7 - j4 / 7)) by (nonlinear_arith)
            requires
                monday == 7 * (d / 7),
                w1 == 7 * (j4 / 7),
        ;
        lemma_fundamental_div_mod_converse_mod(monday - w1, 7, d / 7 - j4 / 7, 0);
    }
}

fn week_open_and_size(x: u64, a: u64) -> (r: (u64, u64))
    requires
        1 <= x <= 52,
        a < DAY_LIMIT * MS_PER_DAY,
    ensures
        r.0 == week_open(x as int, a as int),
        r.1 == week_size(x as int, a as int),
        r.0 <= a,
        1 <= r.1,
        r.1 <= 366 * MS_PER_DAY,
{
    let d = a / MS_PER_DAY;
    proof {
        lemma_fundamental_div_mod(a as int, MS_PER_DAY as int);
        lemma_mod_division_less_than_divisor(a as int, MS_PER_DAY as int);
        assert(d < DAY_LIMIT) by {
            if d >= DAY_LIMIT {
                assert(MS_PER_DAY * (d as int) >= MS_PER_DAY * (DAY_LIMIT as int))
                    by (nonlinear_arith)
                    requires
                        d as int >= DAY_LIMIT as int,
                ;
            }
        }
        lemma_iso_bracket(d as int);
    }
    let monday = d - d % 7;
    let (iy, _doy) = year_and_doy_of_day(monday + 3);
    let j4 = days_to_year(iy) + 3;
    let w1 = j4 - j4 % 7;
    let k = (monday - w1) / 7;
    let ko = align_down(k, x);
    let open_day = w1 + 7 * ko;
    let j4n = days_to_year(iy + 1) + 3;
    let w1n = j4n - j4n % 7;
    proof {
        assert(open_day <= monday);
        assert(monday as int <= d as int);
        assert(MS_PER_DAY * (open_day as int) <= MS_PER_DAY * (d as int)) by (nonlinear_arith)
            requires
                open_day as int <= d as int,
        ;
        assert(MS_PER_DAY * (d as int) <= a as int);
        assert(w1n as int <= days_before_year(iy as int + 1) + 3);
        assert(days_before_year(iy as int + 1) <= days_before_year(10_001)) by {
            crate::calendar::lemma_days_before_year_mono(iy as int + 1, 10_001);
        }
    }
    let open = open_day * MS_PER_DAY;
    let cap = x * 7 * MS_PER_DAY;
    let rem = (w1n - open_day) * MS_PER_DAY;
    proof {
        assert(1 <= w1n as int - open_day as int);
        assert(MS_PER_DAY * 1 <= MS_PER_DAY * (w1n as int - open_day as int))
            by (nonlinear_arith)
            requires
                1 <= w1n as int - open_day as int,
        ;
    }
    let size = min64(cap, rem);
    (open, size)
}

fn month_open_and_size(x: u64, a: u64) -> (r: (u64, u64))
    requires
        1 <= x <= 12,
        a < DAY_LIMIT * MS_PER_DAY,
    ensures
        r.0 == month_open(x as int, a as int),
        r.1 == month_size(x as int, a as int),
        r.0 <= a,
        1 <= r.1,
        r.1 <= 366 * MS_PER_DAY,
{
    let d = a / MS_PER_DAY;
    proof {
        lemma_fundamental_div_mod(a as int, MS_PER_DAY as int);
        lemma_mod_division_less_than_divisor(a as int, MS_PER_DAY as int);
        assert(d < DAY_LIMIT) by {
            if d >= DAY_LIMIT {
                assert(MS_PER_DAY * (d as int) >= MS_PER_DAY * (DAY_LIMIT as int))
                    by (nonlinear_arith)
                    requires
                        d as int >= DAY_LIMIT as int,
                ;
            }
        }
    }
    let (y, doy) = year_and_doy_of_day(d);
    let (m, _dm) = month_and_day_of_doy(y, doy);
    proof {
        lemma_align_down(m as int - 1, x as int);
    }
    let om = 1 + align_down(m - 1, x);
    let open_day = day_of_month_start(y, om);
    let next_day = if om + x > 12 {
        proof {
            lemma_days_before_year_step(y as int);
            lemma_days_before_month_full(y as int);
            lemma_days_before_month_mono(y as int, om as int + 1, 13);
            assert(days_before_month(y as int, om as int + 1) == days_before_month(
                y as int,
                om as int,
            ) + days_in_month(y as int, om as int));
        }
        days_to_year(y + 1)
    } else {
        proof {
            lemma_days_before_month_mono(y as int, om as int + 1, om as int + x as int);
            assert(days_before_month(y as int, om as int + 1) == days_before_month(
                y as int,
                om as int,
            ) + days_in_month(y as int, om as int));
        }
        day_of_month_start(y, om + x)
    };
    proof {
        lemma_days_before_year_step(y as int);
        lemma_days_before_month_full(y as int);
        if om + x <= 12 {
            lemma_days_before_month_mono(y as int, om as int + x as int, 13);
        }
        crate::calendar::lemma_days_before_year_mono(y as int + 1, 10_001);
        assert(next_day as int <= days_before_year(10_001));
        lemma_days_before_month_mono(y as int, 1, om as int);
        assert(days_before_year(y as int) <= open_day as int);
        assert(next_day as int <= days_before_year(y as int) + 366);
        // the instant lies at or after its month-window open
        lemma_days_before_month_mono(y as int, om as int, m as int);
        assert(days_before_month(y as int, m as int) <= doy as int) by {
            crate::calendar::lemma_month_of_year_day(y as int, doy as int);
        }
        assert(open_day as int <= d as int);
        assert(MS_PER_DAY * (open_day as int) <= MS_PER_DAY * (d as int)) by (nonlinear_arith)
            requires
                open_day as int <= d as int,
        ;
        assert(MS_PER_DAY * (d as int) <= a as int);
        assert(1 <= next_day as int - open_day as int);
        assert(MS_PER_DAY * 1 <= MS_PER_DAY * (next_day as int - open_day as int))
            by (nonlinear_arith)
            requires
                1 <= next_day as int - open_day as int,
        ;
    }
    let open = open_day * MS_PER_DAY;
    let size = (next_day - open_day) * MS_PER_DAY;
    (open, size)
}

impl Timeframe {
    /// The numeric multiplier of the timeframe.
    pub open spec fn payload(self) -> int {
        match self {
            Timeframe::Month(x) => x as int,
            Timeframe::Week(x) => x as int,
            Timeframe::Day(x) => x as int,
            Timeframe::Hour(x) => x as int,
            Timeframe::Minute(x) => x as int,
        }
    }

    /// The unit suffix of the textual form.
    pub open spec fn unit_char(self) -> char {
        match self {
            Timeframe::Month(_) => 'M',
            Timeframe::Week(_) => 'W',
            Timeframe::Day(_) => 'D',
            Timeframe::Hour(_) => 'h',
            Timeframe::Minute(_) => 'm',
        }
    }

    /// Textual form: decimal multiplier followed by the unit letter.
    pub open spec fn format_spec(self) -> Seq<char> {
        dec_digits(self.payload()) + seq![self.unit_char()]
    }

    /// Renders the timeframe in its textual form, e.g. `5m`, `4h`, `1D`.
    pub fn format(&self) -> (r: String)
        requires
            0 <= self.payload(),
        ensures
            r@ == self.format_spec(),
    {
        let mut s = String::new();
        let v: u64 = match self {
            Timeframe::Month(x) => *x as u64,
            Timeframe::Week(x) => *x as u64,
            Timeframe::Day(x) => *x as u64,
            Timeframe::Hour(x) => *x as u64,
            Timeframe::Minute(x) => *x as u64,
        };
        push_decimal(&mut s, v);
        let u: char = match self {
            Timeframe::Month(_) => 'M',
            Timeframe::Week(_) => 'W',
            Timeframe::Day(_) => 'D',
            Timeframe::Hour(_) => 'h',
            Timeframe::Minute(_) => 'm',
        };
        push_char(&mut s, u);
        s
    }
}

/// The timeframe denoted by unit letter `u` with multiplier `v`, if the
/// letter is known and `v` is in the unit's admitted range.
pub open spec fn timeframe_of_unit(u: char, v: int) -> Option<Timeframe> {
    if u == 'M' && 1 <= v <= 12 {
        Some(Timeframe::Month(v as i64))
    } else if u == 'W' && 1 <= v <= 52 {
        Some(Timeframe::Week(v as i64))
    } else if u == 'D' && 1 <= v <= 365 {
        Some(Timeframe::Day(v as i64))
    } else if u == 'h' && 1 <= v <= 24 {
        Some(Timeframe::Hour(v as i64))
    } else if u == 'm' && 1 <= v <= 1440 {
        Some(Timeframe::Minute(v as i64))
    } else {
        None
    }
}

/// What a textual timeframe denotes: one or more digits followed by one of
/// `M W D h m`, with the multiplier in range; anything else is rejected.
pub open spec fn parse_spec(s: Seq<char>) -> Option<Timeframe> {
    if s.len() < 2 {
        None
    } else if !all_digits(s.drop_last()) {
        None
    } else {
        timeframe_of_unit(s.last(), digits_value(s.drop_last()))
    }
}

/// Reads a timeframe from its textual form; fails with `TimeframeError`
/// exactly on strings that denote no valid timeframe.
pub fn parse_timeframe(s: &str) -> (r: Result<Timeframe, Error>)
    ensures
        r is Ok <==> parse_spec(s@) is Some,
        r matches Ok(tf) ==> parse_spec(s@) == Some(tf) && tf.is_valid(),
        r matches Err(e) ==> e is TimeframeError,
{
    let v = chars_of(s);
    let n = v.len();
    if n < 2 {
        return Err(Error::TimeframeError("timeframe too short".to_owned()));
    }
    let mut i: usize = 0;
    while i < n - 1
        invariant
            n == v@.len(),
            v@ == s@,
            2 <= n,
            0 <= i <= n - 1,
            forall|j: int| 0 <= j < i ==> crate::digits::is_digit(#[trigger] v@[j]),
        decreases n - 1 - i,
    {
        let c = v[i];
        if !('0' <= c && c <= '9') {
            proof {
                assert(s@.drop_last()[i as int] == v@[i as int]);
            }
            return Err(Error::TimeframeError("timeframe multiplier is not a number".to_owned()));
        }
        i = i + 1;
    }
    proof {
        assert(s@.drop_last() =~= v@.subrange(0, n as int - 1));
        assert forall|j: int| 0 <= j < s@.drop_last().len() implies crate::digits::is_digit(
            #[trigger] s@.drop_last()[j],
        ) by {
            assert(s@.drop_last()[j] == v@[j]);
        }
    }
    let value = digits_to_value(&v, 0, n - 1, 10_000);
    let u = v[n - 1];
    proof {
        assert(s@.last() == v@[n as int - 1]);
    }
    let tf = if u == 'M' && 1 <= value && value <= 12 {
        Timeframe::Month(value as i64)
    } else if u == 'W' && 1 <= value && value <= 52 {
        Timeframe::Week(value as i64)
    } else if u == 'D' && 1 <= value && value <= 365 {
        Timeframe::Day(value as i64)
    } else if u == 'h' && 1 <= value && value <= 24 {
        Timeframe::Hour(value as i64)
    } else if u == 'm' && 1 <= value && value <= 1440 {
        Timeframe::Minute(value as i64)
    } else {
        return Err(Error::TimeframeError("unknown timeframe".to_owned()));
    };
    Ok(tf)
}

/// Round trip: the textual form of a valid timeframe reads back to it.
pub proof fn lemma_parse_format_round_trip(tf: Timeframe)
    requires
        tf.is_valid(),
    ensures
        parse_spec(tf.format_spec()) == Some(tf),
{
    lemma_dec_digits_value(tf.payload());
    let s = tf.format_spec();
    assert(s.drop_last() =~= dec_digits(tf.payload()));
    assert(s.last() == tf.unit_char());
}

/// Rounding a multiple of `u` down to a multiple of `u` changes nothing,
/// and a non-negative base below `u` on top of a multiple is rounded away.
proof fn lemma_align_multiple_plus(base: int, r: int, u: int)
    requires
        1 <= u,
        0 <= base,
        base % u == 0,
        0 <= r < u,
    ensures
        aligned_down(base + r, u) == base,
{
    lemma_fundamental_div_mod(base, u);
    let q = base / u;
    assert(base + r == q * u + r) by (nonlinear_arith)
        requires
            base == u * q,
    ;
    lemma_fundamental_div_mod_converse_div(base + r, u, q, r);
    assert((base + r) / u * u == base) by (nonlinear_arith)
        requires
            (base + r) / u == q,
            base == u * q,
    ;
}

proof fn lemma_subday_open_idem(unit: int, a: int)
    requires
        1 <= unit <= MS_PER_DAY,
        0 <= a,
    ensures
        0 <= subday_open(unit, a) <= a,
        subday_open(unit, subday_open(unit, a)) == subday_open(unit, a),
        subday_size(unit, subday_open(unit, a)) == subday_size(unit, a),
{
    lemma_align_down(a, MS_PER_DAY as int);
    let ds = aligned_down(a, MS_PER_DAY as int);
    let off = a - ds;
    lemma_align_down(off, unit);
    let al = aligned_down(off, unit);
    let open = ds + al;
    assert(0 <= al <= off);
    lemma_align_multiple_plus(ds, al, MS_PER_DAY as int);
    assert(aligned_down(open, MS_PER_DAY as int) == ds);
    assert(subday_open(unit, open) == ds + aligned_down(al, unit));
    assert(aligned_down(al, unit) == al);
}

proof fn lemma_day_open_idem(x: int, a: int)
    requires
        1 <= x <= 365,
        0 <= a < DAY_LIMIT * MS_PER_DAY,
    ensures
        0 <= day_open(x, a) <= a,
        day_open(x, day_open(x, a)) == day_open(x, a),
        day_size(x, day_open(x, a)) == day_size(x, a),
{
    let d = day_of_abs(a);
    lemma_fundamental_div_mod(a, MS_PER_DAY as int);
    lemma_mod_division_less_than_divisor(a, MS_PER_DAY as int);
    assert(d < DAY_LIMIT) by (nonlinear_arith)
        requires
            a == MS_PER_DAY * d + a % (MS_PER_DAY as int),
            0 <= a % (MS_PER_DAY as int),
            a < DAY_LIMIT * MS_PER_DAY,
    ;
    lemma_year_of_day(d);
    let y = year_of_day(d);
    let ys = days_before_year(y) * MS_PER_DAY;
    assert(MS_PER_DAY * days_before_year(y) <= MS_PER_DAY * d) by (nonlinear_arith)
        requires
            days_before_year(y) <= d,
    ;
    assert(ys <= a);
    let unit = x * MS_PER_DAY;
    assert(MS_PER_DAY <= unit <= 365 * MS_PER_DAY) by (nonlinear_arith)
        requires
            1 <= x <= 365,
            unit == x * MS_PER_DAY,
    ;
    lemma_align_down(a - ys, unit);
    let al = aligned_down(a - ys, unit);
    let open = ys + al;
    assert(open <= a);
    // the reopened instant falls on the same year
    let j = (a - ys) / unit;
    assert(j >= 0 && al == j * unit) by {
        lemma_fundamental_div_mod(a - ys, unit);
        assert(j >= 0) by (nonlinear_arith)
            requires
                a - ys == unit * j + (a - ys) % unit,
                0 <= (a - ys) % unit < unit,
                a - ys >= 0,
                unit >= 1,
        ;
    }
    let dd = days_before_year(y) + j * x;
    assert(open == dd * MS_PER_DAY && days_before_year(y) <= dd) by (nonlinear_arith)
        requires
            open == ys + al,
            ys == days_before_year(y) * MS_PER_DAY,
            al == j * unit,
            unit == x * MS_PER_DAY,
            dd == days_before_year(y) + j * x,
            j >= 0,
            x >= 1,
    ;
    assert(day_of_abs(open) == dd) by {
        lemma_fundamental_div_mod_converse_div(open, MS_PER_DAY as int, dd, 0);
        assert(open == dd * (MS_PER_DAY as int) + 0);
    }
    assert(dd <= d) by {
        vstd::arithmetic::div_mod::lemma_div_is_ordered(open, a, MS_PER_DAY as int);
    }
    lemma_year_of_day_unique(dd, y);
    assert(day_open(x, open) == ys + aligned_down(al, unit));
    assert(aligned_down(al, unit) == al);
}

/// A Monday pinned between two consecutive week-1 Mondays belongs to that
/// ISO year.
proof fn lemma_iso_of_aligned_monday(m: int, iy: int)
    requires
        1 <= iy,
        0 <= m,
        m % 7 == 0,
        week1_monday(iy) <= m,
        m < week1_monday(iy + 1),
    ensures
        iso_year_of_day(m) == iy,
        monday_of(m) == m,
{
    let jan1 = days_before_year(iy);
    let jan1n = days_before_year(iy + 1);
    lemma_mod_division_less_than_divisor(jan1 + 3, 7);
    lemma_mod_division_less_than_divisor(jan1n + 3, 7);
    let w1 = week1_monday(iy);
    let w1n = week1_monday(iy + 1);
    assert(w1 >= jan1 - 3);
    assert(w1n <= jan1n + 3);
    // both m and w1n are multiples of 7, so m <= w1n - 7
    lemma_fundamental_div_mod(m, 7);
    lemma_fundamental_div_mod(jan1n + 3, 7);
    let p = m / 7;
    let q = (jan1n + 3) / 7;
    assert(m == 7 * p && w1n == 7 * q);
    assert(m + 7 <= w1n) by (nonlinear_arith)
        requires
            m == 7 * p,
            w1n == 7 * q,
            m < w1n,
    ;
    assert(jan1 <= m + 3 < jan1n);
    lemma_year_of_day_unique(m + 3, iy);
}

#[verifier::rlimit(60)]
proof fn lemma_week_open_idem(x: int, a: int)
    requires
        1 <= x <= 52,
        0 <= a < DAY_LIMIT * MS_PER_DAY,
    ensures
        0 <= week_open(x, a) <= a,
        week_open(x, week_open(x, a)) == week_open(x, a),
        week_size(x, week_open(x, a)) == week_size(x, a),
{
    let d = day_of_abs(a);
    lemma_fundamental_div_mod(a, MS_PER_DAY as int);
    lemma_mod_division_less_than_divisor(a, MS_PER_DAY as int);
    lemma_iso_bracket(d);
    let monday = monday_of(d);
    let iy = iso_year_of_day(d);
    let w1 = week1_monday(iy);
    let k = (monday - w1) / 7;
    // monday - w1 is an exact multiple of 7
    lemma_fundamental_div_mod(monday - w1, 7);
    assert(monday - w1 == 7 * k);
    assert(k >= 0) by (nonlinear_arith)
        requires
            monday - w1 == 7 * k,
            monday - w1 >= 0,
    ;
    lemma_align_down(k, x);
    let ko = aligned_down(k, x);
    let od = w1 + 7 * ko;
    assert(7 * ko <= 7 * k) by (nonlinear_arith)
        requires
            ko <= k,
    ;
    assert(w1 <= od <= monday);
    assert(monday <= d);
    let open = od * MS_PER_DAY;
    assert(MS_PER_DAY * od <= MS_PER_DAY * d) by (nonlinear_arith)
        requires
            od <= d,
    ;
    assert(0 <= open <= a);
    // reopening lands on the very same Monday-aligned day
    assert(day_of_abs(open) == od) by {
        lemma_fundamental_div_mod_converse_div(open, MS_PER_DAY as int, od, 0);
        assert(open == od * (MS_PER_DAY as int) + 0);
    }
    assert(od % 7 == 0) by {
        lemma_fundamental_div_mod(w1, 7);
        let wq = w1 / 7;
        assert(od == (wq + ko) * 7 + 0) by (nonlinear_arith)
            requires
                w1 == 7 * wq,
                od == w1 + 7 * ko,
        ;
        lemma_fundamental_div_mod_converse_mod(od, 7, wq + ko, 0);
    }
    lemma_iso_of_aligned_monday(od, iy);
    assert(monday_of(day_of_abs(open)) == od);
    let k2 = (od - w1) / 7;
    assert(k2 == ko) by {
        assert(od - w1 == ko * 7 + 0) by (nonlinear_arith)
            requires
                od == w1 + 7 * ko,
        ;
        lemma_fundamental_div_mod_converse_div(od - w1, 7, ko, 0);
    }
    assert(aligned_down(ko, x) == ko);
    assert(week_open_day(x, open) == od);
}

proof fn lemma_month_open_idem(x: int, a: int)
    requires
        1 <= x <= 12,
        0 <= a < DAY_LIMIT * MS_PER_DAY,
    ensures
        0 <= month_open(x, a) <= a,
        month_open(x, month_open(x, a)) == month_open(x, a),
        month_size(x, month_open(x, a)) == month_size(x, a),
{
    let d = day_of_abs(a);
    lemma_fundamental_div_mod(a, MS_PER_DAY as int);
    lemma_mod_division_less_than_divisor(a, MS_PER_DAY as int);
    lemma_year_of_day(d);
    let y = year_of_day(d);
    let doy = d - days_before_year(y);
    lemma_days_before_year_step(y);
    assert(doy < days_in_year(y));
    crate::calendar::lemma_month_of_year_day(y, doy);
    let m = month_of_year_day(y, doy);
    lemma_align_down(m - 1, x);
    let om = month_window_start(x, m);
    assert(1 <= om <= m);
    lemma_days_before_month_mono(y, om, m);
    lemma_days_before_month_mono(y, 1, om);
    let od = days_before_year(y) + days_before_month(y, om);
    assert(days_before_month(y, m) <= doy);
    assert(od <= d);
    let open = od * MS_PER_DAY;
    assert(MS_PER_DAY * od <= MS_PER_DAY * d) by (nonlinear_arith)
        requires
            od <= d,
    ;
    assert(0 <= open <= a);
    assert(day_of_abs(open) == od) by {
        lemma_fundamental_div_mod_converse_div(open, MS_PER_DAY as int, od, 0);
        assert(open == od * (MS_PER_DAY as int) + 0);
    }
    // the reopened instant is the first day of month `om` of year `y`
    lemma_days_before_month_full(y);
    assert(days_before_month(y, om + 1) == days_before_month(y, om) + days_in_month(y, om));
    lemma_days_before_month_mono(y, om + 1, 13);
    assert(days_before_month(y, om) < days_in_year(y));
    lemma_year_of_day_unique(od, y);
    let doy2 = od - days_before_year(y);
    assert(doy2 == days_before_month(y, om));
    lemma_month_of_year_day_unique(y, doy2, om);
    // realigning month `om` gives `om` again
    assert(month_window_start(x, om) == om) by {
        lemma_fundamental_div_mod(m - 1, x);
        let q = (m - 1) / x;
        assert(om - 1 == q * x + 0) by (nonlinear_arith)
            requires
                om == 1 + (m - 1) / x * x,
                q == (m - 1) / x,
        ;
        lemma_fundamental_div_mod_converse_div(om - 1, x, q, 0);
        assert((om - 1) / x * x == q * x);
    }
}

/// Bucketing is idempotent: the window open of a window open is itself.
pub proof fn lemma_window_open_idempotent(tf: Timeframe, t: int)
    requires
        tf.is_valid(),
        TS_MIN <= t < TS_LIMIT,
    ensures
        TS_MIN <= tf.window_open_unix(t) <= t,
        tf.window_open_unix(tf.window_open_unix(t)) == tf.window_open_unix(t),
        tf.window_size_unix(tf.window_open_unix(t)) == tf.window_size_unix(t),
{
    let a = t + EPOCH_ABS_MS;
    match tf {
        Timeframe::Minute(x) => {
            assert(1 <= x as int * MS_PER_MINUTE <= MS_PER_DAY) by (nonlinear_arith)
                requires
                    1 <= x <= 1440,
            ;
            lemma_subday_open_idem(x as int * MS_PER_MINUTE, a);
        },
        Timeframe::Hour(x) => {
            assert(1 <= x as int * MS_PER_HOUR <= MS_PER_DAY) by (nonlinear_arith)
                requires
                    1 <= x <= 24,
            ;
            lemma_subday_open_idem(x as int * MS_PER_HOUR, a);
        },
        Timeframe::Day(x) => {
            lemma_day_open_idem(x as int, a);
        },
        Timeframe::Week(x) => {
            lemma_week_open_idem(x as int, a);
        },
        Timeframe::Month(x) => {
            lemma_month_open_idem(x as int, a);
        },
    }
}

} // verus!
