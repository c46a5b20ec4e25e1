//! Proleptic-Gregorian calendar arithmetic over day numbers.
//!
//! Instants are measured in milliseconds; days are counted from 0001-01-01
//! (day 0), which is a Monday, so `day % 7` is the weekday index with Monday
//! at 0. All executable functions are proved against the calendar model
//! below.
use vstd::arithmetic::div_mod::{
    lemma_div_is_ordered_by_denominator, lemma_fundamental_div_mod,
    lemma_fundamental_div_mod_converse_div, lemma_fundamental_div_mod_converse_mod,
};
use vstd::prelude::*;

verus! {

pub const MS_PER_SECOND: u64 = 1_000;

pub const MS_PER_MINUTE: u64 = 60_000;

pub const MS_PER_HOUR: u64 = 3_600_000;

pub const MS_PER_DAY: u64 = 86_400_000;

/// Days from 0001-01-01 to 1970-01-01, i.e. `days_before_year(1970)`.
pub const DAYS_BEFORE_UNIX_EPOCH: u64 = 719_162;

/// Day number of 10000-01-01, i.e. `days_before_year(10000)`.
pub const DAY_LIMIT: u64 = 3_652_059;

pub open spec fn is_leap_year(y: int) -> bool {
    (y % 4 == 0 && y % 100 != 0) || y % 400 == 0
}

pub open spec fn days_in_year(y: int) -> int {
    if is_leap_year(y) {
        366
    } else {
        365
    }
}

pub open spec fn days_in_month(y: int, m: int) -> int {
    if m == 2 {
        if is_leap_year(y) {
            29
        } else {
            28
        }
    } else if m == 4 || m == 6 || m == 9 || m == 11 {
        30
    } else {
        31
    }
}

/// Leap years strictly before year `y`.
pub open spec fn leap_years_before(y: int) -> int {
    (y - 1) / 4 - (y - 1) / 100 + (y - 1) / 400
}

/// Days from 0001-01-01 to the first day of year `y`.
pub open spec fn days_before_year(y: int) -> int {
    365 * (y - 1) + leap_years_before(y)
}

/// Days from the first day of year `y` to the first day of month `m` of `y`.
pub open spec fn days_before_month(y: int, m: int) -> int
    decreases m,
{
    if m <= 1 {
        0
    } else {
        days_before_month(y, m - 1) + days_in_month(y, m - 1)
    }
}

/// Day number of the civil date `y`-`m`-`d`.
pub open spec fn day_number(y: int, m: int, d: int) -> int {
    days_before_year(y) + days_before_month(y, m) + d - 1
}

pub open spec fn valid_date(y: int, m: int, d: int) -> bool {
    &&& 1 <= y
    &&& 1 <= m <= 12
    &&& 1 <= d <= days_in_month(y, m)
}

/// Year that day `n` falls in, found by walking years from `start`.
pub open spec fn year_from(start: int, n: int) -> int
    decreases n,
{
    if n < days_in_year(start) || n < 0 {
        start
    } else {
        year_from(start + 1, n - days_in_year(start))
    }
}

pub open spec fn year_of_day(n: int) -> int {
    year_from(1, n)
}

/// Month that the `r`-th day (0-based) of year `y` falls in, walking months
/// from `start`.
pub open spec fn month_from(y: int, start: int, r: int) -> int
    decreases 12 - start,
{
    if start >= 12 || r < days_in_month(y, start) {
        start
    } else {
        month_from(y, start + 1, r - days_in_month(y, start))
    }
}

pub open spec fn month_of_year_day(y: int, doy: int) -> int {
    month_from(y, 1, doy)
}

/// Adding one to the dividend raises the quotient exactly when the divisor
/// starts dividing evenly.
proof fn lemma_div_step(a: int, d: int)
    requires
        0 <= a,
        0 < d,
    ensures
        (a + 1) / d == a / d + if (a + 1) % d == 0 {
            1int
        } else {
            0int
        },
{
    lemma_fundamental_div_mod(a, d);
    let q = a / d;
    let r = a % d;
    assert(q * d == d * q) by (nonlinear_arith);
    if r + 1 < d {
        assert(a + 1 == q * d + (r + 1));
        lemma_fundamental_div_mod_converse_div(a + 1, d, q, r + 1);
        lemma_fundamental_div_mod_converse_mod(a + 1, d, q, r + 1);
    } else {
        assert(a + 1 == (q + 1) * d + 0) by (nonlinear_arith)
            requires
                a == d * q + r,
                r + 1 == d,
        ;
        lemma_fundamental_div_mod_converse_div(a + 1, d, q + 1, 0);
        lemma_fundamental_div_mod_converse_mod(a + 1, d, q + 1, 0);
    }
}

/// A multiple of 400 is a multiple of 100 and of 4; a multiple of 100 is a
/// multiple of 4.
proof fn lemma_divisibility_transfer(y: int)
    ensures
        y % 400 == 0 ==> y % 100 == 0 && y % 4 == 0,
        y % 100 == 0 ==> y % 4 == 0,
{
    if y % 400 == 0 {
        lemma_fundamental_div_mod(y, 400);
        let k = y / 400;
        assert(y == (4 * k) * 100 + 0 && y == (100 * k) * 4 + 0) by (nonlinear_arith)
            requires
                y == 400 * k + y % 400,
                y % 400 == 0,
        ;
        lemma_fundamental_div_mod_converse_mod(y, 100, 4 * k, 0);
        lemma_fundamental_div_mod_converse_mod(y, 4, 100 * k, 0);
    }
    if y % 100 == 0 {
        lemma_fundamental_div_mod(y, 100);
        let k = y / 100;
        assert(y == (25 * k) * 4 + 0) by (nonlinear_arith)
            requires
                y == 100 * k + y % 100,
                y % 100 == 0,
        ;
        lemma_fundamental_div_mod_converse_mod(y, 4, 25 * k, 0);
    }
}

/// The closed form steps by exactly the length of year `y`.
pub proof fn lemma_days_before_year_step(y: int)
    requires
        1 <= y,
    ensures
        days_before_year(y + 1) == days_before_year(y) + days_in_year(y),
{
    lemma_div_step(y - 1, 4);
    lemma_div_step(y - 1, 100);
    lemma_div_step(y - 1, 400);
    lemma_divisibility_transfer(y);
}

pub proof fn lemma_days_before_year_mono(y1: int, y2: int)
    requires
        1 <= y1 <= y2,
    ensures
        days_before_year(y1) <= days_before_year(y2),
    decreases y2 - y1,
{
    if y1 < y2 {
        lemma_days_before_year_mono(y1, y2 - 1);
        lemma_days_before_year_step(y2 - 1);
    }
}

pub proof fn lemma_days_before_month_mono(y: int, m1: int, m2: int)
    requires
        m1 <= m2,
    ensures
        days_before_month(y, m1) <= days_before_month(y, m2),
    decreases m2 - m1,
{
    if m1 < m2 {
        lemma_days_before_month_mono(y, m1, m2 - 1);
    }
}

/// The months of a year sum to its length.
pub proof fn lemma_days_before_month_full(y: int)
    ensures
        days_before_month(y, 13) == days_in_year(y),
{
    assert(days_before_month(y, 1) == 0);
    assert(days_before_month(y, 2) == days_before_month(y, 1) + days_in_month(y, 1));
    assert(days_before_month(y, 3) == days_before_month(y, 2) + days_in_month(y, 2));
    assert(days_before_month(y, 4) == days_before_month(y, 3) + days_in_month(y, 3));
    assert(days_before_month(y, 5) == days_before_month(y, 4) + days_in_month(y, 4));
    assert(days_before_month(y, 6) == days_before_month(y, 5) + days_in_month(y, 5));
    assert(days_before_month(y, 7) == days_before_month(y, 6) + days_in_month(y, 6));
    assert(days_before_month(y, 8) == days_before_month(y, 7) + days_in_month(y, 7));
    assert(days_before_month(y, 9) == days_before_month(y, 8) + days_in_month(y, 8));
    assert(days_before_month(y, 10) == days_before_month(y, 9) + days_in_month(y, 9));
    assert(days_before_month(y, 11) == days_before_month(y, 10) + days_in_month(y, 10));
    assert(days_before_month(y, 12) == days_before_month(y, 11) + days_in_month(y, 11));
    assert(days_before_month(y, 13) == days_before_month(y, 12) + days_in_month(y, 12));
}

/// `year_from(start, n)` lands in the unique year whose day range holds `n`.
proof fn lemma_year_from(start: int, n: int)
    requires
        1 <= start,
        0 <= n,
    ensures
        year_from(start, n) >= start,
        days_before_year(year_from(start, n)) - days_before_year(start) <= n,
        n < days_before_year(year_from(start, n) + 1) - days_before_year(start),
    decreases n,
{
    if n < days_in_year(start) {
        lemma_days_before_year_step(start);
    } else {
        lemma_year_from(start + 1, n - days_in_year(start));
        lemma_days_before_year_step(start);
    }
}

pub proof fn lemma_year_of_day(n: int)
    requires
        0 <= n,
    ensures
        1 <= year_of_day(n),
        days_before_year(year_of_day(n)) <= n,
        n < days_before_year(year_of_day(n) + 1),
{
    lemma_year_from(1, n);
}

/// A day range that holds `n` pins the year down.
pub proof fn lemma_year_of_day_unique(n: int, y: int)
    requires
        1 <= y,
        days_before_year(y) <= n,
        n < days_before_year(y + 1),
    ensures
        year_of_day(n) == y,
{
    lemma_year_of_day(n);
    let w = year_of_day(n);
    if w < y {
        lemma_days_before_year_mono(w + 1, y);
    }
    if y < w {
        lemma_days_before_year_mono(y + 1, w);
    }
}

proof fn lemma_month_from(y: int, start: int, r: int)
    requires
        1 <= start <= 12,
        0 <= r,
        days_before_month(y, start) + r < days_before_month(y, 13),
    ensures
        start <= month_from(y, start, r) <= 12,
        days_before_month(y, month_from(y, start, r)) - days_before_month(y, start) <= r,
        r < days_before_month(y, month_from(y, start, r) + 1) - days_before_month(y, start),
    decreases 12 - start,
{
    if start >= 12 || r < days_in_month(y, start) {
        if start >= 12 {
            assert(days_before_month(y, 13) == days_before_month(y, 12) + days_in_month(y, 12));
        }
    } else {
        lemma_month_from(y, start + 1, r - days_in_month(y, start));
    }
}

pub proof fn lemma_month_of_year_day(y: int, doy: int)
    requires
        0 <= doy < days_in_year(y),
    ensures
        1 <= month_of_year_day(y, doy) <= 12,
        days_before_month(y, month_of_year_day(y, doy)) <= doy,
        doy < days_before_month(y, month_of_year_day(y, doy) + 1),
{
    lemma_days_before_month_full(y);
    lemma_month_from(y, 1, doy);
}

pub proof fn lemma_month_of_year_day_unique(y: int, doy: int, m: int)
    requires
        1 <= m <= 12,
        days_before_month(y, m) <= doy,
        doy < days_before_month(y, m + 1),
        doy < days_in_year(y),
    ensures
        month_of_year_day(y, doy) == m,
{
    lemma_days_before_month_mono(y, 1, m);
    lemma_month_of_year_day(y, doy);
    let w = month_of_year_day(y, doy);
    if w < m {
        lemma_days_before_month_mono(y, w + 1, m);
    }
    if m < w {
        lemma_days_before_month_mono(y, m + 1, w);
    }
}

pub fn leap_year(y: u64) -> (r: bool)
    ensures
        r == is_leap_year(y as int),
{
    (y % 4 == 0 && y % 100 != 0) || y % 400 == 0
}

pub fn year_days(y: u64) -> (r: u64)
    ensures
        r == days_in_year(y as int),
{
    if leap_year(y) {
        366
    } else {
        365
    }
}

pub fn month_days(y: u64, m: u64) -> (r: u64)
    requires
        1 <= m <= 12,
    ensures
        r == days_in_month(y as int, m as int),
{
    if m == 2 {
        if leap_year(y) {
            29
        } else {
            28
        }
    } else if m == 4 || m == 6 || m == 9 || m == 11 {
        30
    } else {
        31
    }
}

/// Day number of the first day of year `y`.
pub fn days_to_year(y: u64) -> (r: u64)
    requires
        1 <= y <= 10_001,
    ensures
        r == days_before_year(y as int),
{
    let a = y - 1;
    proof {
        lemma_div_is_ordered_by_denominator(a as int, 4, 100);
    }
    365 * a + a / 4 - a / 100 + a / 400
}

/// Year holding day `n`, together with the day-of-year (0-based).
pub fn year_and_doy_of_day(n: u64) -> (r: (u64, u64))
    requires
        n <= DAY_LIMIT + 6,
    ensures
        r.0 == year_of_day(n as int),
        1 <= r.0 <= 10_000,
        r.1 == n - days_before_year(r.0 as int),
        0 <= r.1 < days_in_year(r.0 as int),
{
    let mut y: u64 = 1;
    let mut acc: u64 = 0;
    while acc + year_days(y) <= n
        invariant
            1 <= y <= 10_000,
            n <= DAY_LIMIT + 6,
            acc == days_before_year(y as int),
            acc <= n,
        decreases DAY_LIMIT + 7 - acc,
    {
        proof {
            lemma_days_before_year_step(y as int);
        }
        acc = acc + year_days(y);
        y = y + 1;
    }
    proof {
        lemma_days_before_year_step(y as int);
        lemma_year_of_day_unique(n as int, y as int);
    }
    (y, n - acc)
}

/// Month and day-of-month of the `doy`-th day (0-based) of year `y`.
pub fn month_and_day_of_doy(y: u64, doy: u64) -> (r: (u64, u64))
    requires
        1 <= y,
        doy < days_in_year(y as int),
    ensures
        r.0 == month_of_year_day(y as int, doy as int),
        1 <= r.0 <= 12,
        valid_date(y as int, r.0 as int, r.1 as int),
        day_number(y as int, r.0 as int, r.1 as int) == days_before_year(y as int) + doy,
        day_number(y as int, r.0 as int, 1) == days_before_year(y as int) + days_before_month(
            y as int,
            r.0 as int,
        ),
{
    let mut m: u64 = 1;
    let mut acc: u64 = 0;
    proof {
        lemma_days_before_month_full(y as int);
    }
    while m < 12 && acc + month_days(y, m) <= doy
        invariant
            1 <= m <= 12,
            doy < days_in_year(y as int),
            acc == days_before_month(y as int, m as int),
            acc <= doy,
            days_before_month(y as int, 13) == days_in_year(y as int),
        decreases 12 - m,
    {
        acc = acc + month_days(y, m);
        m = m + 1;
    }
    proof {
        if m == 12 {
            assert(days_before_month(y as int, 13) == days_before_month(y as int, 12)
                + days_in_month(y as int, 12));
        }
        assert(days_before_month(y as int, m as int + 1) == days_before_month(y as int, m as int)
            + days_in_month(y as int, m as int));
        lemma_month_of_year_day_unique(y as int, doy as int, m as int);
    }
    (m, doy - acc + 1)
}

/// Day number of the first day of month `m` of year `y`.
pub fn day_of_month_start(y: u64, m: u64) -> (r: u64)
    requires
        1 <= y <= 10_001,
        1 <= m <= 13,
    ensures
        r == days_before_year(y as int) + days_before_month(y as int, m as int),
{
    let base = days_to_year(y);
    let mut i: u64 = 1;
    let mut acc: u64 = 0;
    while i < m
        invariant
            1 <= i <= m <= 13,
            acc == days_before_month(y as int, i as int),
            acc <= 366,
        decreases m - i,
    {
        proof {
            lemma_days_before_month_full(y as int);
            lemma_days_before_month_mono(y as int, i as int + 1, 13);
        }
        acc = acc + month_days(y, i);
        i = i + 1;
    }
    base + acc
}

} // verus!
