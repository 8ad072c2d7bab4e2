//! Proleptic Gregorian calendar arithmetic from the 1970 epoch onward.
//!
//! A *day number* counts days since 1970-01-01; a *local second count* is
//! `day_number * 86400 + seconds_within_day` for a wall-clock reading. Both
//! are pure integers, so every conversion here is verified; only time-zone
//! offsets (which need the tz database) live elsewhere.

use vstd::prelude::*;

verus! {

/// Largest year the library computes with; keeps every count in comfortable `i64` range.
pub const MAX_YEAR: i64 = 12000;

pub open spec fn is_leap_year(y: int) -> bool {
    (y % 4 == 0 && y % 100 != 0) || y % 400 == 0
}

pub open spec fn days_in_year(y: int) -> int {
    if is_leap_year(y) {
        366
    } else {
        365
    }
}

pub open spec fn days_in_month(y: int, m: int) -> int {
    if m == 2 {
        if is_leap_year(y) {
            29
        } else {
            28
        }
    } else if m == 4 || m == 6 || m == 9 || m == 11 {
        30
    } else {
        31
    }
}

/// A calendar date the library accepts: epoch year onward, real day of a real month.
pub open spec fn valid_date(y: int, m: int, d: int) -> bool {
    1970 <= y && 1 <= m <= 12 && 1 <= d <= days_in_month(y, m)
}

/// Days in all years from 1970 up to (excluding) `y`.
pub open spec fn days_before_year(y: int) -> int
    decreases y - 1970,
{
    if y <= 1970 {
        0
    } else {
        days_before_year(y - 1) + days_in_year(y - 1)
    }
}

/// Days in the months of year `y` before month `m`.
pub open spec fn days_before_month(y: int, m: int) -> int
    decreases m,
{
    if m <= 1 {
        0
    } else {
        days_before_month(y, m - 1) + days_in_month(y, m - 1)
    }
}

/// Day number of the date `(y, m, d)`: days since 1970-01-01.
pub open spec fn day_number(y: int, m: int, d: int) -> int {
    days_before_year(y) + days_before_month(y, m) + d - 1
}

/// A full year is exactly the sum of its twelve months.
pub proof fn lemma_year_is_twelve_months(y: int)
    ensures
        days_before_month(y, 13) == days_in_year(y),
{
    reveal_with_fuel(days_before_month, 13);
}

pub proof fn lemma_days_before_month_nonneg(y: int, m: int)
    requires
        1 <= m,
    ensures
        0 <= days_before_month(y, m),
    decreases m,
{
    if m > 1 {
        lemma_days_before_month_nonneg(y, m - 1);
    }
}

pub proof fn lemma_days_before_month_bounds(y: int, m: int)
    requires
        1 <= m <= 13,
    ensures
        0 <= days_before_month(y, m) <= days_in_year(y),
        days_before_month(y, m) + days_in_month(y, m) <= days_in_year(y) || m == 13,
    decreases 13 - m,
{
    lemma_year_is_twelve_months(y);
    lemma_days_before_month_nonneg(y, m);
    if m < 13 {
        lemma_days_before_month_bounds(y, m + 1);
    }
}

/// Every date of year `y` has a day number inside `[days_before_year(y), days_before_year(y+1))`.
pub proof fn lemma_day_number_in_year(y: int, m: int, d: int)
    requires
        valid_date(y, m, d),
    ensures
        days_before_year(y) <= day_number(y, m, d) < days_before_year(y + 1),
{
    lemma_days_before_month_bounds(y, m);
}

/// Crude upper bound: no year has more than 366 days.
pub proof fn lemma_days_before_year_upper(y: int)
    requires
        1970 <= y,
    ensures
        days_before_year(y) <= 366 * (y - 1970),
    decreases y - 1970,
{
    if y > 1970 {
        lemma_days_before_year_upper(y - 1);
    }
}

pub proof fn lemma_days_before_year_mono(y1: int, y2: int)
    requires
        y1 <= y2,
    ensures
        days_before_year(y1) <= days_before_year(y2),
    decreases y2 - y1,
{
    if y1 < y2 {
        lemma_days_before_year_mono(y1, y2 - 1);
    }
}

pub fn leap_year(y: i64) -> (r: bool)
    ensures
        r == is_leap_year(y as int),
{
    (y % 4 == 0 && y % 100 != 0) || y % 400 == 0
}

pub fn month_days(y: i64, m: i64) -> (r: i64)
    requires
        1 <= m <= 12,
    ensures
        r == days_in_month(y as int, m as int),
{
    if m == 2 {
        if leap_year(y) {
            29
        } else {
            28
        }
    } else if m == 4 || m == 6 || m == 9 || m == 11 {
        30
    } else {
        31
    }
}

pub fn year_days(y: i64) -> (r: i64)
    ensures
        r == days_in_year(y as int),
{
    if leap_year(y) {
        366
    } else {
        365
    }
}

/// Day number of a valid date, computed by summing whole years, then months.
pub fn days_from_civil(y: i64, m: i64, d: i64) -> (z: i64)
    requires
        valid_date(y as int, m as int, d as int),
        y <= MAX_YEAR,
    ensures
        z == day_number(y as int, m as int, d as int),
        0 <= z < days_before_year(MAX_YEAR as int + 1),
{
    let mut acc: i64 = 0;
    let mut yy: i64 = 1970;
    while yy < y
        invariant
            1970 <= yy <= y <= MAX_YEAR,
            acc == days_before_year(yy as int),
            0 <= acc <= 366 * (yy - 1970),
        decreases y - yy,
    {
        acc = acc + year_days(yy);
        yy = yy + 1;
    }
    let mut mm: i64 = 1;
    let ybase = acc;
    while mm < m
        invariant
            1 <= mm <= m <= 12,
            acc == ybase + days_before_month(y as int, mm as int),
            ybase <= acc <= ybase + 366,
            0 <= ybase <= 366 * (MAX_YEAR - 1970),
        decreases m - mm,
    {
        proof {
            lemma_days_before_month_bounds(y as int, (mm + 1) as int);
        }
        acc = acc + month_days(y, mm);
        mm = mm + 1;
    }
    proof {
        lemma_day_number_in_year(y as int, m as int, d as int);
        lemma_days_before_year_mono(y as int + 1, MAX_YEAR as int + 1);
    }
    acc + d - 1
}

/// Inverse of [`days_from_civil`]: the unique valid date with this day number.
pub fn civil_from_days(z: i64) -> (ymd: (i64, i64, i64))
    requires
        0 <= z < days_before_year(MAX_YEAR as int + 1),
    ensures
        valid_date(ymd.0 as int, ymd.1 as int, ymd.2 as int),
        ymd.0 <= MAX_YEAR,
        day_number(ymd.0 as int, ymd.1 as int, ymd.2 as int) == z,
{
    let mut y: i64 = 1970;
    let mut rest: i64 = z;
    loop
        invariant
            1970 <= y <= MAX_YEAR + 1,
            0 <= rest,
            days_before_year(y as int) + rest == z,
            z < days_before_year(MAX_YEAR as int + 1),
        ensures
            0 <= rest < days_in_year(y as int),
            days_before_year(y as int) + rest == z,
            1970 <= y <= MAX_YEAR,
        decreases days_before_year(MAX_YEAR as int + 1) - days_before_year(y as int),
    {
        let dy = year_days(y);
        if rest < dy {
            proof {
                if y > MAX_YEAR {
                    lemma_days_before_year_mono(MAX_YEAR as int + 1, y as int);
                }
            }
            break;
        }
        proof {
            lemma_days_before_year_mono(y as int + 1, MAX_YEAR as int + 1);
        }
        rest = rest - dy;
        y = y + 1;
    }
    let mut m: i64 = 1;
    loop
        invariant
            1 <= m <= 12,
            0 <= rest,
            days_before_month(y as int, m as int) + rest < days_in_year(y as int),
            day_number(y as int, m as int, 1) + rest == z,
            1970 <= y <= MAX_YEAR,
        ensures
            1 <= m <= 12,
            0 <= rest < days_in_month(y as int, m as int),
            day_number(y as int, m as int, 1) + rest == z,
            1970 <= y <= MAX_YEAR,
        decreases 12 - m,
    {
        let dm = month_days(y, m);
        if rest < dm {
            break;
        }
        proof {
            lemma_days_before_month_bounds(y as int, (m + 1) as int);
            lemma_year_is_twelve_months(y as int);
        }
        rest = rest - dm;
        m = m + 1;
    }
    (y, m, rest + 1)
}

/// Weekday of a day number, counted from Monday = 0; the epoch fell on a Thursday.
pub open spec fn weekday_of_day(z: int) -> int {
    (z + 3) % 7
}

pub fn weekday_from_days(z: i64) -> (w: i64)
    requires
        0 <= z,
        z <= 0x7fff_ffff_ffff_fff0,
    ensures
        w == weekday_of_day(z as int),
        0 <= w < 7,
{
    (z + 3) % 7
}

/// Microseconds in one second; instants are UTC microseconds since the epoch.
pub const MICROS_PER_SEC: i64 = 1000000;

pub const SECS_PER_DAY: i64 = 86400;

/// The instants the library computes with: from one day past the epoch to
/// comfortably past year 9999, so that every conversion stays in range.
pub open spec fn valid_instant(t: int) -> bool {
    86400000000 <= t < 260000000000000000
}

/// Local second count of a wall-clock reading: days since the epoch in whole
/// seconds, plus the seconds within the day.
pub open spec fn civil_secs(y: int, m: int, d: int, h: int, mi: int, s: int) -> int {
    day_number(y, m, d) * 86400 + h * 3600 + mi * 60 + s
}

/// Month and day-of-month of the `r`-th day (0-based) counted from month `m` of year `y`.
pub open spec fn month_day_of(y: int, m: int, r: int) -> (int, int)
    decreases 12 - m,
{
    if m >= 12 || r < days_in_month(y, m) {
        (m, r + 1)
    } else {
        month_day_of(y, m + 1, r - days_in_month(y, m))
    }
}

/// The date of day number `z`, counted from year `y` onward.
pub open spec fn date_of_day_from(y: int, z: int) -> (int, int, int)
    decreases z,
{
    if z < days_in_year(y) || z <= 0 {
        let md = month_day_of(y, 1, z);
        (y, md.0, md.1)
    } else {
        date_of_day_from(y + 1, z - days_in_year(y))
    }
}

/// The unique date carrying day number `z`.
pub open spec fn date_of_day(z: int) -> (int, int, int) {
    date_of_day_from(1970, z)
}

proof fn lemma_month_day_of_from(y: int, m0: int, m: int, d: int)
    requires
        1 <= m0 <= m,
        valid_date(y, m, d),
    ensures
        month_day_of(y, m0, days_before_month(y, m) - days_before_month(y, m0) + d - 1) == (m, d),
    decreases m - m0,
{
    lemma_days_before_month_nonneg(y, m0);
    if m0 == m {
        assert(days_before_month(y, m) - days_before_month(y, m0) + d - 1 == d - 1);
    } else {
        lemma_month_day_of_from(y, m0 + 1, m, d);
        let r = days_before_month(y, m) - days_before_month(y, m0) + d - 1;
        lemma_days_before_month_mono(y, m0 + 1, m);
        assert(r - days_in_month(y, m0) == days_before_month(y, m) - days_before_month(y, m0 + 1)
            + d - 1);
    }
}

pub proof fn lemma_days_before_month_mono(y: int, m1: int, m2: int)
    requires
        m1 <= m2,
    ensures
        days_before_month(y, m1) <= days_before_month(y, m2),
    decreases m2 - m1,
{
    if m1 < m2 {
        lemma_days_before_month_mono(y, m1, m2 - 1);
    }
}

proof fn lemma_date_of_day_from(y0: int, y: int, off: int)
    requires
        1970 <= y0 <= y,
        0 <= off < days_in_year(y),
    ensures
        date_of_day_from(y0, days_before_year(y) - days_before_year(y0) + off) == date_of_day_from(
            y,
            off,
        ),
    decreases y - y0,
{
    if y0 < y {
        lemma_date_of_day_from(y0 + 1, y, off);
        lemma_days_before_year_mono(y0 + 1, y);
        let z = days_before_year(y) - days_before_year(y0) + off;
        assert(z - days_in_year(y0) == days_before_year(y) - days_before_year(y0 + 1) + off);
    }
}

/// Each valid date is recovered from its day number.
pub proof fn lemma_date_of_day_id(y: int, m: int, d: int)
    requires
        valid_date(y, m, d),
    ensures
        date_of_day(day_number(y, m, d)) == (y, m, d),
{
    lemma_days_before_month_bounds(y, m);
    let off = days_before_month(y, m) + d - 1;
    lemma_date_of_day_from(1970, y, off);
    lemma_month_day_of_from(y, 1, m, d);
    lemma_days_before_year_mono(1970, y);
    if off < days_in_year(y) && off > 0 {
    }
}

/// Every day number within year `y` decodes to a date in year `y`.
pub proof fn lemma_day_in_year_bounds(y: int, z: int)
    requires
        1970 <= y,
        days_before_year(y) <= z < days_before_year(y + 1),
    ensures
        date_of_day(z).0 == y,
{
    let off = z - days_before_year(y);
    lemma_date_of_day_from(1970, y, off);
}

/// Division pinned by an explicit quotient and range.
pub proof fn lemma_div_range(a: int, q: int, n: int)
    requires
        n > 0,
        q * n <= a < (q + 1) * n,
    ensures
        a / n == q,
        a % n == a - q * n,
{
    assert(0 <= a - q * n < n) by (nonlinear_arith)
        requires q * n <= a < (q + 1) * n;
    assert(a == q * n + (a - q * n));
    vstd::arithmetic::div_mod::lemma_fundamental_div_mod_converse_div(a, n, q, a - q * n);
    vstd::arithmetic::div_mod::lemma_fundamental_div_mod_converse_mod(a, n, q, a - q * n);
}

/// Crude lower bound: every year has at least 365 days.
pub proof fn lemma_days_before_year_lower(y: int)
    requires
        1970 <= y,
    ensures
        days_before_year(y) >= 365 * (y - 1970),
    decreases y - 1970,
{
    if y > 1970 {
        lemma_days_before_year_lower(y - 1);
    }
}

} // verus!
