//! Wall-clock arithmetic on instants: read an instant's civil fields in a
//! zone, replace one field and map the reading back, or move by a duration.
//! A replacement that lands on a nonexistent date, or on a wall-clock
//! reading the zone skips or duplicates, yields `None`; callers fall back to
//! the unchanged instant, so these operations never invent a time.

use vstd::prelude::*;

use crate::civil;
use crate::tz;
use crate::tz::Zone;

verus! {

/// An instant read as zone wall-clock fields, plus the sub-second remainder.
pub struct LocalView {
    pub year: i64,
    pub month: i64,
    pub day: i64,
    pub hour: i64,
    pub minute: i64,
    pub second: i64,
    pub frac: i64,
}

impl LocalView {
    pub open spec fn wf(&self) -> bool {
        &&& civil::valid_date(self.year as int, self.month as int, self.day as int)
        &&& self.year <= 10220
        &&& 0 <= self.hour < 24
        &&& 0 <= self.minute < 60
        &&& 0 <= self.second < 60
        &&& 0 <= self.frac < 1000000
    }

    /// The local second count this reading stands at.
    pub open spec fn local_secs(&self) -> int {
        civil::civil_secs(
            self.year as int,
            self.month as int,
            self.day as int,
            self.hour as int,
            self.minute as int,
            self.second as int,
        )
    }
}

/// The instant whose reading is `t`'s with the time of day set to `tod`.
pub open spec fn tod_replaced(tz: Seq<char>, t: int, tod: int) -> Option<int> {
    replaced(tz, time_target(tz, t, tod), t % 1000000)
}

/// The instant whose reading is `t`'s with the day of the month set to `d`.
pub open spec fn day_replaced(tz: Seq<char>, t: int, d: int) -> Option<int> {
    let l = reading_of(tz, t);
    let ymd = civil::date_of_day(l / 86400);
    if 1 <= d <= civil::days_in_month(ymd.0, ymd.1) {
        replaced(tz, civil::day_number(ymd.0, ymd.1, d) * 86400 + l % 86400, t % 1000000)
    } else {
        None
    }
}

/// The instant whose reading is `t`'s with the month set to `m`.
pub open spec fn month_replaced(tz: Seq<char>, t: int, m: int) -> Option<int> {
    let l = reading_of(tz, t);
    let ymd = civil::date_of_day(l / 86400);
    if 1 <= m <= 12 && ymd.2 <= civil::days_in_month(ymd.0, m) {
        replaced(tz, civil::day_number(ymd.0, m, ymd.2) * 86400 + l % 86400, t % 1000000)
    } else {
        None
    }
}

/// The instant whose reading is `t`'s with the year set to `y`.
pub open spec fn year_replaced(tz: Seq<char>, t: int, y: int) -> Option<int> {
    let l = reading_of(tz, t);
    let ymd = civil::date_of_day(l / 86400);
    if 1970 <= y <= 9999 && ymd.2 <= civil::days_in_month(y, ymd.1) {
        replaced(tz, civil::day_number(y, ymd.1, ymd.2) * 86400 + l % 86400, t % 1000000)
    } else {
        None
    }
}

/// Decomposes `t` into its wall-clock reading in zone `z`.
pub fn local_view(z: &Zone, t: i64) -> (r: LocalView)
    requires
        civil::valid_instant(t as int),
    ensures
        r.wf(),
        r.local_secs() == t as int / 1000000 + tz::zone_offset_at(z@, t as int / 1000000),
        r.frac == t as int % 1000000,
        civil::weekday_of_day(civil::day_number(r.year as int, r.month as int, r.day as int))
            == (r.local_secs() / 86400 + 3) % 7,
{
    let secs = t / 1000000;
    let frac = t % 1000000;
    let off = z.offset_at(secs);
    let l = secs + off as i64;
    let zday = l / 86400;
    let sod = l % 86400;
    proof {
        vstd::arithmetic::div_mod::lemma_fundamental_div_mod(l as int, 86400);
        vstd::arithmetic::div_mod::lemma_fundamental_div_mod(sod as int, 3600);
        vstd::arithmetic::div_mod::lemma_fundamental_div_mod(sod as int % 3600, 60);
        civil::lemma_days_before_year_lower(civil::MAX_YEAR as int + 1);
    }
    let ymd = civil::civil_from_days(zday);
    let h = sod / 3600;
    let mi = (sod % 3600) / 60;
    let sec = (sod % 3600) % 60;
    proof {
        civil::lemma_days_before_year_lower(ymd.0 as int);
        assert(365 * (ymd.0 as int - 1970) <= zday) by {
            civil::lemma_day_number_in_year(ymd.0 as int, ymd.1 as int, ymd.2 as int);
        }
        assert(ymd.0 <= 10220) by (nonlinear_arith)
            requires 365 * (ymd.0 as int - 1970) <= zday, zday <= 3009261;
        assert(sec == sod % 60) by {
            vstd::arithmetic::div_mod::lemma_mod_mod(sod as int, 60, 60);
            vstd::arithmetic::div_mod::lemma_fundamental_div_mod(sod as int % 3600, 60);
        }
    }
    LocalView { year: ymd.0, month: ymd.1, day: ymd.2, hour: h, minute: mi, second: sec, frac }
}

/// Maps a wall-clock reading back to the unique instant showing it, carrying
/// the sub-second remainder; `None` when the zone skips or duplicates the
/// reading or the instant falls outside the library's range.
pub fn from_local(z: &Zone, v: &LocalView) -> (r: Option<i64>)
    requires
        v.wf(),
    ensures
        r matches Some(t) ==> {
            &&& civil::valid_instant(t as int)
            &&& t as int % 1000000 == v.frac
            &&& tz::zone_resolve_local(z@, v.local_secs()) == Some((t as int / 1000000) as i64)
            &&& t as int / 1000000 + tz::zone_offset_at(z@, t as int / 1000000)
                == v.local_secs()
        },
        r is None ==> v.year > civil::MAX_YEAR || match tz::zone_resolve_local(
            z@,
            v.local_secs(),
        ) {
            None => true,
            Some(us) => !civil::valid_instant(us * 1000000 + v.frac),
        },
{
    if v.year > civil::MAX_YEAR {
        return None;
    }
    match z.resolve_local(v.year, v.month, v.day, v.hour, v.minute, v.second) {
        Some(us) => {
            proof {
                civil::lemma_days_before_year_upper(civil::MAX_YEAR as int + 1);
                civil::lemma_day_number_in_year(v.year as int, v.month as int, v.day as int);
                civil::lemma_days_before_year_mono(1970, v.year as int);
                civil::lemma_days_before_year_mono(v.year as int + 1, civil::MAX_YEAR as int + 1);
                assert(v.local_secs() < civil::days_before_year(civil::MAX_YEAR as int + 1)
                    * 86400 + 86400) by (nonlinear_arith)
                    requires
                        civil::day_number(v.year as int, v.month as int, v.day as int)
                            < civil::days_before_year(civil::MAX_YEAR as int + 1),
                        v.local_secs() == civil::day_number(
                            v.year as int,
                            v.month as int,
                            v.day as int,
                        ) * 86400 + v.hour * 3600 + v.minute * 60 + v.second,
                        v.hour * 3600 + v.minute * 60 + v.second < 86400,
                        civil::day_number(v.year as int, v.month as int, v.day as int) >= 0;
            }
            let t = us * 1000000 + v.frac;
            if t >= 86400000000 && t < 260000000000000000 {
                proof {
                    civil::lemma_div_range(t as int, us as int, 1000000);
                }
                Some(t)
            } else {
                None
            }
        }
        None => None,
    }
}

/// The wall-clock reading of `t` in the named zone, as a local second count.
pub open spec fn reading_of(tz: Seq<char>, t: int) -> int {
    t / 1000000 + tz::zone_offset_at(tz, t / 1000000)
}

/// The reading of `t` with its time of day replaced by `tod` seconds.
pub open spec fn time_target(tz: Seq<char>, t: int, tod: int) -> int {
    (reading_of(tz, t) / 86400) * 86400 + tod
}

/// The instant showing a changed reading, sub-second remainder carried over:
/// `None` when the zone skips or duplicates the reading, or the instant
/// leaves the library's range.
pub open spec fn replaced(tz: Seq<char>, target: int, frac: int) -> Option<int> {
    match tz::zone_resolve_local(tz, target) {
        Some(us) => if civil::valid_instant(us * 1000000 + frac) {
            Some(us * 1000000 + frac)
        } else {
            None
        },
        None => None,
    }
}

/// Replaces the clock fields of `t`, like reading the same date at another
/// time of day.
pub fn with_time(z: &Zone, t: i64, h: i64, mi: i64, s: i64) -> (r: Option<i64>)
    requires
        civil::valid_instant(t as int),
        0 <= h < 24,
        0 <= mi < 60,
        0 <= s < 60,
    ensures
        match tod_replaced(z@, t as int, h * 3600 + mi * 60 + s) {
            Some(u) => r == Some(u as i64),
            None => r is None,
        },
{
    let v = local_view(z, t);
    let v2 = LocalView { hour: h, minute: mi, second: s, ..v };
    proof {
        lemma_reading_day(z@, t as int, &v);
    }
    from_local(z, &v2)
}

/// The date part of a reading is its whole-day count: the day number of the
/// fields `local_view` hands back.
pub(crate) proof fn lemma_reading_day(tz: Seq<char>, t: int, v: &LocalView)
    requires
        v.wf(),
        v.local_secs() == reading_of(tz, t),
    ensures
        civil::day_number(v.year as int, v.month as int, v.day as int) == reading_of(tz, t)
            / 86400,
        civil::date_of_day(reading_of(tz, t) / 86400) == (
            v.year as int,
            v.month as int,
            v.day as int,
        ),
        reading_of(tz, t) % 86400 == v.hour * 3600 + v.minute * 60 + v.second,
{
    let dn = civil::day_number(v.year as int, v.month as int, v.day as int);
    let l = reading_of(tz, t);
    civil::lemma_div_range(l, dn, 86400);
    civil::lemma_date_of_day_id(v.year as int, v.month as int, v.day as int);
}

/// Replaces the day of the month (1-based); `None` when the month has no
/// such day.
pub fn with_day(z: &Zone, t: i64, d: i64) -> (r: Option<i64>)
    requires
        civil::valid_instant(t as int),
    ensures
        match day_replaced(z@, t as int, d as int) {
            Some(u) => r == Some(u as i64),
            None => r is None,
        },
{
    let v = local_view(z, t);
    proof {
        lemma_reading_day(z@, t as int, &v);
    }
    if d < 1 || d > civil::month_days(v.year, v.month) {
        return None;
    }
    let v2 = LocalView { day: d, ..v };
    from_local(z, &v2)
}

/// Replaces the month (1-based); `None` when the day does not exist there.
pub fn with_month(z: &Zone, t: i64, m: i64) -> (r: Option<i64>)
    requires
        civil::valid_instant(t as int),
    ensures
        match month_replaced(z@, t as int, m as int) {
            Some(u) => r == Some(u as i64),
            None => r is None,
        },
{
    let v = local_view(z, t);
    proof {
        lemma_reading_day(z@, t as int, &v);
    }
    if m < 1 || m > 12 {
        return None;
    }
    if v.day > civil::month_days(v.year, m) {
        return None;
    }
    let v2 = LocalView { month: m, ..v };
    from_local(z, &v2)
}

/// Replaces the year; `None` when the date does not exist there.
pub fn with_year(z: &Zone, t: i64, y: i64) -> (r: Option<i64>)
    requires
        civil::valid_instant(t as int),
    ensures
        match year_replaced(z@, t as int, y as int) {
            Some(u) => r == Some(u as i64),
            None => r is None,
        },
{
    let v = local_view(z, t);
    proof {
        lemma_reading_day(z@, t as int, &v);
    }
    if y < 1970 || y > 9999 {
        return None;
    }
    if v.day > civil::month_days(y, v.month) {
        return None;
    }
    let v2 = LocalView { year: y, ..v };
    from_local(z, &v2)
}

/// Moves an instant by a signed number of microseconds, refusing to leave
/// the library's range.
pub fn add_micros(t: i64, delta: i64) -> (r: Option<i64>)
    requires
        civil::valid_instant(t as int),
    ensures
        r matches Some(u) ==> u == t + delta && civil::valid_instant(u as int),
        r is None ==> !civil::valid_instant(t as int + delta as int),
{
    if delta >= 0 {
        if delta < 260000000000000000 && t + delta < 260000000000000000 {
            Some(t + delta)
        } else {
            None
        }
    } else {
        if delta > -260000000000000000 && t + delta >= 86400000000 {
            Some(t + delta)
        } else {
            None
        }
    }
}

} // verus!
