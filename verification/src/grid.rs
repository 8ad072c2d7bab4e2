//! The recurrence grid: six calendar bitmaps, a year cadence and anchor, and
//! a time zone. Its one question is "what is the next wall-clock minute,
//! strictly after a given instant, whose calendar fields all lie in the
//! bitmaps?" — answered over local time and mapped back to UTC, skipping
//! wall-clock minutes that a daylight-saving transition makes missing or
//! ambiguous.

use vstd::prelude::*;

use crate::bitmap::Bitmap;
use crate::civil;
use crate::tz;
use crate::tz::Zone;

verus! {

/// Which calendar bitmap of a grid to read back.
pub enum ScheduleInspection {
    Minute,
    Hour,
    WeekOfMonth,
    DayOfMonth,
    DaysOfWeek,
    MonthsOfYear,
}

pub struct ScheduleGrid {
    minutes: Bitmap,
    hours: Bitmap,
    weeks_of_month: Bitmap,
    days_of_month: Bitmap,
    days_of_week: Bitmap,
    months_of_year: Bitmap,
    year_cadence: u8,
    year_start: u32,
    timezone: Zone,
}

impl ScheduleGrid {
    pub closed spec fn wf(&self) -> bool {
        &&& self.year_cadence >= 1
        &&& self.year_start <= 9999
        &&& self.minutes.spec_width() <= 100000
        &&& self.hours.spec_width() <= 100000
        &&& self.weeks_of_month.spec_width() <= 100000
        &&& self.days_of_month.spec_width() <= 100000
        &&& self.days_of_week.spec_width() <= 100000
        &&& self.months_of_year.spec_width() <= 100000
    }

    pub closed spec fn spec_minutes(&self) -> Bitmap {
        self.minutes
    }

    pub closed spec fn spec_hours(&self) -> Bitmap {
        self.hours
    }

    pub closed spec fn spec_weeks_of_month(&self) -> Bitmap {
        self.weeks_of_month
    }

    pub closed spec fn spec_days_of_month(&self) -> Bitmap {
        self.days_of_month
    }

    pub closed spec fn spec_days_of_week(&self) -> Bitmap {
        self.days_of_week
    }

    pub closed spec fn spec_months_of_year(&self) -> Bitmap {
        self.months_of_year
    }

    pub closed spec fn spec_year_cadence(&self) -> int {
        self.year_cadence as int
    }

    pub closed spec fn spec_year_start(&self) -> int {
        self.year_start as int
    }

    pub closed spec fn spec_timezone(&self) -> Seq<char> {
        self.timezone@
    }

    /// Whether `y` is the anchor year or a whole number of cadences past it.
    pub open spec fn year_aligned(&self, y: int) -> bool {
        y >= self.spec_year_start() && (y - self.spec_year_start()) % self.spec_year_cadence()
            == 0
    }

    /// Whether the wall-clock minute at local second count `lm` lies in every
    /// calendar bitmap and in an anchored cadence year. This is the calendar
    /// side of a firing; the time zone decides which UTC instant shows it.
    pub open spec fn minute_matches(&self, lm: int) -> bool {
        let z = lm / 86400;
        let sod = lm % 86400;
        let ymd = civil::date_of_day(z);
        &&& sod % 60 == 0
        &&& self.spec_months_of_year().spec_get(ymd.1 - 1)
        &&& self.spec_days_of_month().spec_get(ymd.2 - 1)
        &&& self.spec_days_of_week().spec_get(civil::weekday_of_day(z))
        &&& self.spec_weeks_of_month().spec_get((ymd.2 - 1) / 7)
        &&& self.spec_hours().spec_get(sod / 3600)
        &&& self.spec_minutes().spec_get((sod % 3600) / 60)
        &&& self.year_aligned(ymd.0)
    }

    /// Whether the wall-clock minute `lm` produces a firing after `now`
    /// (a UTC instant in microseconds): its calendar fields match, the zone
    /// shows it exactly once, and that instant lies strictly after `now`.
    pub open spec fn candidate_fires(&self, now: int, lm: int) -> bool {
        &&& self.minute_matches(lm)
        &&& match tz::zone_resolve_local(self.spec_timezone(), lm) {
            Some(u) => u * 1000000 > now,
            None => false,
        }
    }

    pub open spec fn no_fire_between(&self, now: int, lo: int, hi: int) -> bool {
        forall|lm: int| lo <= lm < hi ==> !self.candidate_fires(now, lm)
    }

    /// The wall-clock minute the search starts from: one minute past `now`,
    /// truncated to the minute, read in the grid's zone.
    pub open spec fn start_minute(&self, now: int) -> int {
        let t1 = now / 1000000 + 60;
        let l1 = t1 + tz::zone_offset_at(self.spec_timezone(), t1);
        l1 - l1 % 60
    }

    /// The smallest cadence-anchored year at or after `y`.
    pub open spec fn aligned_year_from(&self, y: int) -> int {
        let ys = self.spec_year_start();
        let c = self.spec_year_cadence();
        if y <= ys {
            ys
        } else if (y - ys) % c == 0 {
            y
        } else {
            y + c - (y - ys) % c
        }
    }

    /// Where the bounded search gives up: after fifty cadence years, or at
    /// the last representable year.
    pub open spec fn search_end(&self, now: int) -> int {
        let l0 = self.start_minute(now);
        let y0 = self.aligned_year_from(civil::date_of_day(l0 / 86400).0);
        let c = self.spec_year_cadence();
        let ycap = if y0 > 9999 {
            y0
        } else {
            let kcap = (9999 - y0) / c + 1;
            let steps = if kcap < 50 {
                kcap
            } else {
                50
            };
            y0 + steps * c
        };
        civil::days_before_year(ycap) * 86400
    }

    pub fn explicitly_new(
        minutes: Vec<usize>,
        hours: Vec<usize>,
        weeks_of_month: Vec<usize>,
        days_of_month: Vec<usize>,
        days_of_week: Vec<usize>,
        months_of_year: Vec<usize>,
        year_cadence: u8,
        year_start: u32,
        timezone: Zone,
    ) -> (r: ScheduleGrid)
        requires
            year_cadence >= 1,
            year_start <= 9999,
        ensures
            r.wf(),
            forall|i: int|
                r.spec_minutes().spec_get(i) == (Bitmap::listed(minutes@, i) && 0 <= i < 64),
            forall|i: int|
                r.spec_hours().spec_get(i) == (Bitmap::listed(hours@, i) && 0 <= i < 64),
            forall|i: int|
                r.spec_weeks_of_month().spec_get(i) == (Bitmap::listed(weeks_of_month@, i) && 0 <= i
                    < 8),
            forall|i: int|
                r.spec_days_of_month().spec_get(i) == (Bitmap::listed(days_of_month@, i) && 0 <= i
                    < 32),
            forall|i: int|
                r.spec_days_of_week().spec_get(i) == (Bitmap::listed(days_of_week@, i) && 0 <= i
                    < 8),
            forall|i: int|
                r.spec_months_of_year().spec_get(i) == (Bitmap::listed(months_of_year@, i) && 0 <= i
                    < 16),
            r.spec_year_cadence() == year_cadence as int,
            r.spec_year_start() == year_start as int,
            r.spec_timezone() == timezone@,
    {
        ScheduleGrid {
            minutes: Bitmap::explicitly_set(60, minutes),
            hours: Bitmap::explicitly_set(60, hours),
            weeks_of_month: Bitmap::explicitly_set(5, weeks_of_month),
            days_of_month: Bitmap::explicitly_set(31, days_of_month),
            days_of_week: Bitmap::explicitly_set(7, days_of_week),
            months_of_year: Bitmap::explicitly_set(12, months_of_year),
            year_cadence,
            year_start,
            timezone,
        }
    }

    pub fn new(
        minutes: Bitmap,
        hours: Bitmap,
        weeks_of_month: Bitmap,
        days_of_month: Bitmap,
        days_of_week: Bitmap,
        months_of_year: Bitmap,
        year_cadence: u8,
        year_start: u32,
        timezone: Zone,
    ) -> (r: ScheduleGrid)
        requires
            year_cadence >= 1,
            year_start <= 9999,
            minutes.spec_width() <= 100000,
            hours.spec_width() <= 100000,
            weeks_of_month.spec_width() <= 100000,
            days_of_month.spec_width() <= 100000,
            days_of_week.spec_width() <= 100000,
            months_of_year.spec_width() <= 100000,
        ensures
            r.wf(),
            r.spec_minutes() == minutes,
            r.spec_hours() == hours,
            r.spec_weeks_of_month() == weeks_of_month,
            r.spec_days_of_month() == days_of_month,
            r.spec_days_of_week() == days_of_week,
            r.spec_months_of_year() == months_of_year,
            r.spec_year_cadence() == year_cadence as int,
            r.spec_year_start() == year_start as int,
            r.spec_timezone() == timezone@,
    {
        ScheduleGrid {
            minutes,
            hours,
            weeks_of_month,
            days_of_month,
            days_of_week,
            months_of_year,
            year_cadence,
            year_start,
            timezone,
        }
    }

    /// The little-endian encoding of one calendar bitmap.
    pub fn inspect(&self, inspect_type: ScheduleInspection) -> (r: Vec<u8>)
        requires
            self.wf(),
        ensures
            r@ == match inspect_type {
                ScheduleInspection::Minute => self.spec_minutes().spec_bytes(),
                ScheduleInspection::Hour => self.spec_hours().spec_bytes(),
                ScheduleInspection::WeekOfMonth => self.spec_weeks_of_month().spec_bytes(),
                ScheduleInspection::DayOfMonth => self.spec_days_of_month().spec_bytes(),
                ScheduleInspection::DaysOfWeek => self.spec_days_of_week().spec_bytes(),
                ScheduleInspection::MonthsOfYear => self.spec_months_of_year().spec_bytes(),
            },
    {
        match inspect_type {
            ScheduleInspection::Minute => self.minutes.to_bytes(),
            ScheduleInspection::Hour => self.hours.to_bytes(),
            ScheduleInspection::WeekOfMonth => self.weeks_of_month.to_bytes(),
            ScheduleInspection::DayOfMonth => self.days_of_month.to_bytes(),
            ScheduleInspection::DaysOfWeek => self.days_of_week.to_bytes(),
            ScheduleInspection::MonthsOfYear => self.months_of_year.to_bytes(),
        }
    }

    pub fn inspect_year_and_cadence(&self) -> (r: (u32, u8))
        ensures
            r.0 == self.spec_year_start(),
            r.1 == self.spec_year_cadence(),
    {
        (self.year_start, self.year_cadence)
    }

    pub fn inspect_timezone(&self) -> (r: &Zone)
        ensures
            r@ == self.spec_timezone(),
    {
        &self.timezone
    }
}

/// A wall-clock time of day, to the second.
pub struct TimeOfDay {
    pub hour: u8,
    pub minute: u8,
    pub second: u8,
}

/// Builds a [`ScheduleGrid`] by narrowing from "every minute of every day":
/// a fresh builder has every bitmap fully set, cadence one and anchor 1970,
/// and each `with_*` call replaces one bitmap with the listed positions.
pub struct ScheduleGridBuilder {
    minutes: Bitmap,
    hours: Bitmap,
    weeks_of_month: Bitmap,
    days_of_month: Bitmap,
    days_of_week: Bitmap,
    months_of_year: Bitmap,
    year_cadence: u8,
    year_start: u32,
    timezone: Zone,
}

impl ScheduleGridBuilder {
    pub closed spec fn wf(&self) -> bool {
        &&& self.year_cadence >= 1
        &&& self.year_start <= 9999
        &&& self.minutes.spec_width() == 64
        &&& self.hours.spec_width() == 64
        &&& self.weeks_of_month.spec_width() == 8
        &&& self.days_of_month.spec_width() == 32
        &&& self.days_of_week.spec_width() == 8
        &&& self.months_of_year.spec_width() == 16
    }

    pub closed spec fn spec_minutes(&self) -> Bitmap {
        self.minutes
    }

    pub closed spec fn spec_hours(&self) -> Bitmap {
        self.hours
    }

    pub closed spec fn spec_weeks_of_month(&self) -> Bitmap {
        self.weeks_of_month
    }

    pub closed spec fn spec_days_of_month(&self) -> Bitmap {
        self.days_of_month
    }

    pub closed spec fn spec_days_of_week(&self) -> Bitmap {
        self.days_of_week
    }

    pub closed spec fn spec_months_of_year(&self) -> Bitmap {
        self.months_of_year
    }

    pub closed spec fn spec_year_cadence(&self) -> int {
        self.year_cadence as int
    }

    pub closed spec fn spec_year_start(&self) -> int {
        self.year_start as int
    }

    pub closed spec fn spec_timezone(&self) -> Seq<char> {
        self.timezone@
    }

    pub fn new(timezone: Zone) -> (r: ScheduleGridBuilder)
        ensures
            r.wf(),
            forall|i: int| r.spec_minutes().spec_get(i) == (0 <= i < 60),
            forall|i: int| r.spec_hours().spec_get(i) == (0 <= i < 60),
            forall|i: int| r.spec_weeks_of_month().spec_get(i) == (0 <= i < 5),
            forall|i: int| r.spec_days_of_month().spec_get(i) == (0 <= i < 31),
            forall|i: int| r.spec_days_of_week().spec_get(i) == (0 <= i < 7),
            forall|i: int| r.spec_months_of_year().spec_get(i) == (0 <= i < 12),
            r.spec_year_cadence() == 1,
            r.spec_year_start() == 1970,
            r.spec_timezone() == timezone@,
    {
        ScheduleGridBuilder {
            minutes: Bitmap::all_set(60),
            hours: Bitmap::all_set(60),
            weeks_of_month: Bitmap::all_set(5),
            days_of_month: Bitmap::all_set(31),
            days_of_week: Bitmap::all_set(7),
            months_of_year: Bitmap::all_set(12),
            year_cadence: 1,
            year_start: 1970,
            timezone,
        }
    }

    pub fn build(self) -> (r: ScheduleGrid)
        requires
            self.wf(),
        ensures
            r.wf(),
            r.spec_minutes() == self.spec_minutes(),
            r.spec_hours() == self.spec_hours(),
            r.spec_weeks_of_month() == self.spec_weeks_of_month(),
            r.spec_days_of_month() == self.spec_days_of_month(),
            r.spec_days_of_week() == self.spec_days_of_week(),
            r.spec_months_of_year() == self.spec_months_of_year(),
            r.spec_year_cadence() == self.spec_year_cadence(),
            r.spec_year_start() == self.spec_year_start(),
            r.spec_timezone() == self.spec_timezone(),
    {
        ScheduleGrid::new(
            self.minutes,
            self.hours,
            self.weeks_of_month,
            self.days_of_month,
            self.days_of_week,
            self.months_of_year,
            self.year_cadence,
            self.year_start,
            self.timezone,
        )
    }

    /// Narrows hours and minutes to the listed times of day.
    pub fn with_times(&mut self, times: Vec<TimeOfDay>)
        requires
            old(self).wf(),
        ensures
            final(self).wf(),
            forall|i: int|
                final(self).spec_hours().spec_get(i) == (0 <= i < 64 && exists|j: int|
                    0 <= j < times@.len() && times@[j].hour as int == i),
            forall|i: int|
                final(self).spec_minutes().spec_get(i) == (0 <= i < 64 && exists|j: int|
                    0 <= j < times@.len() && times@[j].minute as int == i),
            final(self).unchanged_but_times(*old(self)),
    {
        let mut hours: Vec<usize> = Vec::new();
        let mut minutes: Vec<usize> = Vec::new();
        let n = times.len();
        let mut k: usize = 0;
        while k < n
            invariant
                k <= n,
                times@.len() == n,
                hours@.len() == k,
                minutes@.len() == k,
                forall|j: int| 0 <= j < k ==> hours@[j] == times@[j].hour as usize,
                forall|j: int| 0 <= j < k ==> minutes@[j] == times@[j].minute as usize,
            decreases n - k,
        {
            hours.push(times[k].hour as usize);
            minutes.push(times[k].minute as usize);
            k = k + 1;
        }
        self.hours = Bitmap::explicitly_set(60, hours);
        self.minutes = Bitmap::explicitly_set(60, minutes);
        proof {
            assert forall|i: int|
                self.hours.spec_get(i) == (0 <= i < 64 && exists|j: int|
                    0 <= j < times@.len() && times@[j].hour as int == i) by {
                if exists|j: int| 0 <= j < times@.len() && times@[j].hour as int == i {
                    let j = choose|j: int| 0 <= j < times@.len() && times@[j].hour as int == i;
                    assert(hours@[j] as int == i);
                }
                if Bitmap::listed(hours@, i) {
                    let j = choose|j: int| 0 <= j < hours@.len() && #[trigger] hours@[j] as int
                        == i;
                    assert(times@[j].hour as int == i);
                }
            }
            assert forall|i: int|
                self.minutes.spec_get(i) == (0 <= i < 64 && exists|j: int|
                    0 <= j < times@.len() && times@[j].minute as int == i) by {
                if exists|j: int| 0 <= j < times@.len() && times@[j].minute as int == i {
                    let j = choose|j: int| 0 <= j < times@.len() && times@[j].minute as int == i;
                    assert(minutes@[j] as int == i);
                }
                if Bitmap::listed(minutes@, i) {
                    let j = choose|j: int| 0 <= j < minutes@.len() && #[trigger] minutes@[j] as int
                        == i;
                    assert(times@[j].minute as int == i);
                }
            }
        }
    }

    /// Everything except hours and minutes is kept.
    pub open spec fn unchanged_but_times(self, other: ScheduleGridBuilder) -> bool {
        &&& self.spec_weeks_of_month() == other.spec_weeks_of_month()
        &&& self.spec_days_of_month() == other.spec_days_of_month()
        &&& self.spec_days_of_week() == other.spec_days_of_week()
        &&& self.spec_months_of_year() == other.spec_months_of_year()
        &&& self.spec_year_cadence() == other.spec_year_cadence()
        &&& self.spec_year_start() == other.spec_year_start()
        &&& self.spec_timezone() == other.spec_timezone()
    }

    /// Replaces one bitmap with the listed positions; the listed width is the
    /// bitmap's own.
    pub fn with_hours(&mut self, hours: Vec<usize>)
        requires
            old(self).wf(),
        ensures
            final(self).wf(),
            forall|i: int|
                final(self).spec_hours().spec_get(i) == (Bitmap::listed(hours@, i) && 0 <= i < 64),
            final(self).spec_minutes() == old(self).spec_minutes(),
            final(self).unchanged_but_times(*old(self)),
    {
        self.hours = Bitmap::explicitly_set(60, hours);
    }

    pub fn with_minutes(&mut self, minutes: Vec<usize>)
        requires
            old(self).wf(),
        ensures
            final(self).wf(),
            forall|i: int|
                final(self).spec_minutes().spec_get(i) == (Bitmap::listed(minutes@, i) && 0 <= i
                    < 64),
            final(self).spec_hours() == old(self).spec_hours(),
            final(self).unchanged_but_times(*old(self)),
    {
        self.minutes = Bitmap::explicitly_set(60, minutes);
    }

    pub fn with_weeks_of_month(&mut self, weeks: Vec<usize>)
        requires
            old(self).wf(),
        ensures
            final(self).wf(),
            forall|i: int|
                final(self).spec_weeks_of_month().spec_get(i) == (Bitmap::listed(weeks@, i) && 0
                    <= i < 8),
            final(self).spec_days_of_week() == old(self).spec_days_of_week(),
            final(self).spec_minutes() == old(self).spec_minutes(),
            final(self).spec_hours() == old(self).spec_hours(),
            final(self).spec_days_of_month() == old(self).spec_days_of_month(),
            final(self).spec_months_of_year() == old(self).spec_months_of_year(),
            final(self).spec_year_cadence() == old(self).spec_year_cadence(),
            final(self).spec_year_start() == old(self).spec_year_start(),
            final(self).spec_timezone() == old(self).spec_timezone(),
    {
        self.weeks_of_month = Bitmap::explicitly_set(5, weeks);
    }

    /// Weekdays are counted from Monday = 0.
    pub fn with_weekdays(&mut self, weekdays: Vec<usize>)
        requires
            old(self).wf(),
        ensures
            final(self).wf(),
            forall|i: int|
                final(self).spec_days_of_week().spec_get(i) == (Bitmap::listed(weekdays@, i) && 0
                    <= i < 8),
            final(self).spec_weeks_of_month() == old(self).spec_weeks_of_month(),
            final(self).spec_minutes() == old(self).spec_minutes(),
            final(self).spec_hours() == old(self).spec_hours(),
            final(self).spec_days_of_month() == old(self).spec_days_of_month(),
            final(self).spec_months_of_year() == old(self).spec_months_of_year(),
            final(self).spec_year_cadence() == old(self).spec_year_cadence(),
            final(self).spec_year_start() == old(self).spec_year_start(),
            final(self).spec_timezone() == old(self).spec_timezone(),
    {
        self.days_of_week = Bitmap::explicitly_set(7, weekdays);
    }

    pub fn with_year(&mut self, year: u32)
        requires
            old(self).wf(),
            year <= 9999,
        ensures
            final(self).wf(),
            final(self).spec_year_start() == year as int,
            final(self).spec_year_cadence() == old(self).spec_year_cadence(),
            final(self).spec_minutes() == old(self).spec_minutes(),
            final(self).spec_hours() == old(self).spec_hours(),
            final(self).spec_weeks_of_month() == old(self).spec_weeks_of_month(),
            final(self).spec_days_of_month() == old(self).spec_days_of_month(),
            final(self).spec_days_of_week() == old(self).spec_days_of_week(),
            final(self).spec_months_of_year() == old(self).spec_months_of_year(),
            final(self).spec_timezone() == old(self).spec_timezone(),
    {
        self.year_start = year;
    }

    /// Months are counted from January = 1; the bitmap stores them from 0.
    pub fn with_months(&mut self, months: Vec<u8>)
        requires
            old(self).wf(),
            forall|j: int| 0 <= j < months@.len() ==> 1 <= #[trigger] months@[j],
        ensures
            final(self).wf(),
            forall|i: int|
                final(self).spec_months_of_year().spec_get(i) == ((exists|j: int|
                    0 <= j < months@.len() && #[trigger] months@[j] as int - 1 == i) && 0 <= i
                    < 16),
            final(self).spec_weeks_of_month() == old(self).spec_weeks_of_month(),
            final(self).spec_days_of_week() == old(self).spec_days_of_week(),
            final(self).spec_minutes() == old(self).spec_minutes(),
            final(self).spec_hours() == old(self).spec_hours(),
            final(self).spec_days_of_month() == old(self).spec_days_of_month(),
            final(self).spec_year_cadence() == old(self).spec_year_cadence(),
            final(self).spec_year_start() == old(self).spec_year_start(),
            final(self).spec_timezone() == old(self).spec_timezone(),
    {
        let mut indices: Vec<usize> = Vec::new();
        let n = months.len();
        let mut k: usize = 0;
        while k < n
            invariant
                k <= n,
                months@.len() == n,
                indices@.len() == k,
                forall|j: int| 0 <= j < months@.len() ==> 1 <= #[trigger] months@[j],
                forall|j: int| 0 <= j < k ==> indices@[j] as int == months@[j] as int - 1,
            decreases n - k,
        {
            indices.push((months[k] - 1) as usize);
            k = k + 1;
        }
        self.months_of_year = Bitmap::explicitly_set(12, indices);
        proof {
            assert forall|i: int|
                Bitmap::listed(indices@, i) == (exists|j: int|
                    0 <= j < months@.len() && #[trigger] months@[j] as int - 1 == i) by {
                if Bitmap::listed(indices@, i) {
                    let j = choose|j: int| 0 <= j < indices@.len() && #[trigger] indices@[j] as int
                        == i;
                    assert(months@[j] as int - 1 == i);
                }
                if exists|j: int| 0 <= j < months@.len() && #[trigger] months@[j] as int - 1 == i {
                    let j = choose|j: int|
                        0 <= j < months@.len() && #[trigger] months@[j] as int - 1 == i;
                    assert(indices@[j] as int == i);
                }
            }
        }
    }

    /// Days of the month are counted from 1; the bitmap stores them from 0.
    pub fn with_days_of_month(&mut self, days: Vec<u8>)
        requires
            old(self).wf(),
            forall|j: int| 0 <= j < days@.len() ==> 1 <= #[trigger] days@[j],
        ensures
            final(self).wf(),
            forall|i: int|
                final(self).spec_days_of_month().spec_get(i) == ((exists|j: int|
                    0 <= j < days@.len() && #[trigger] days@[j] as int - 1 == i) && 0 <= i < 32),
            final(self).spec_weeks_of_month() == old(self).spec_weeks_of_month(),
            final(self).spec_days_of_week() == old(self).spec_days_of_week(),
            final(self).spec_minutes() == old(self).spec_minutes(),
            final(self).spec_hours() == old(self).spec_hours(),
            final(self).spec_months_of_year() == old(self).spec_months_of_year(),
            final(self).spec_year_cadence() == old(self).spec_year_cadence(),
            final(self).spec_year_start() == old(self).spec_year_start(),
            final(self).spec_timezone() == old(self).spec_timezone(),
    {
        let mut indices: Vec<usize> = Vec::new();
        let n = days.len();
        let mut k: usize = 0;
        while k < n
            invariant
                k <= n,
                days@.len() == n,
                indices@.len() == k,
                forall|j: int| 0 <= j < days@.len() ==> 1 <= #[trigger] days@[j],
                forall|j: int| 0 <= j < k ==> indices@[j] as int == days@[j] as int - 1,
            decreases n - k,
        {
            indices.push((days[k] - 1) as usize);
            k = k + 1;
        }
        self.days_of_month = Bitmap::explicitly_set(31, indices);
        proof {
            assert forall|i: int|
                Bitmap::listed(indices@, i) == (exists|j: int|
                    0 <= j < days@.len() && #[trigger] days@[j] as int - 1 == i) by {
                if Bitmap::listed(indices@, i) {
                    let j = choose|j: int| 0 <= j < indices@.len() && #[trigger] indices@[j] as int
                        == i;
                    assert(days@[j] as int - 1 == i);
                }
                if exists|j: int| 0 <= j < days@.len() && #[trigger] days@[j] as int - 1 == i {
                    let j = choose|j: int| 0 <= j < days@.len() && #[trigger] days@[j] as int - 1
                        == i;
                    assert(indices@[j] as int == i);
                }
            }
        }
    }

    /// Turns every hour back on, on top of what is set.
    pub fn all_hours(&mut self)
        requires
            old(self).wf(),
        ensures
            final(self).wf(),
            forall|i: int|
                final(self).spec_hours().spec_get(i) == (old(self).spec_hours().spec_get(i) || 0
                    <= i < 24),
            final(self).spec_minutes() == old(self).spec_minutes(),
            final(self).unchanged_but_times(*old(self)),
    {
        let mut i: usize = 0;
        while i < 24
            invariant
                i <= 24,
                self.wf(),
                forall|k: int|
                    self.spec_hours().spec_get(k) == (old(self).spec_hours().spec_get(k) || 0 <= k
                        < i),
                self.spec_minutes() == old(self).spec_minutes(),
                self.unchanged_but_times(*old(self)),
            decreases 24 - i,
        {
            self.hours.set(i);
            i = i + 1;
        }
    }

    /// Turns every minute back on, on top of what is set.
    pub fn all_minutes(&mut self)
        requires
            old(self).wf(),
        ensures
            final(self).wf(),
            forall|i: int|
                final(self).spec_minutes().spec_get(i) == (old(self).spec_minutes().spec_get(i)
                    || 0 <= i < 60),
            final(self).spec_hours() == old(self).spec_hours(),
            final(self).unchanged_but_times(*old(self)),
    {
        let mut i: usize = 0;
        while i < 60
            invariant
                i <= 60,
                self.wf(),
                forall|k: int|
                    self.spec_minutes().spec_get(k) == (old(self).spec_minutes().spec_get(k) || 0
                        <= k < i),
                self.spec_hours() == old(self).spec_hours(),
                self.unchanged_but_times(*old(self)),
            decreases 60 - i,
        {
            self.minutes.set(i);
            i = i + 1;
        }
    }

    /// Turns every week of the month back on, on top of what is set.
    pub fn all_weeks(&mut self)
        requires
            old(self).wf(),
        ensures
            final(self).wf(),
            forall|i: int|
                final(self).spec_weeks_of_month().spec_get(i) == (old(
                    self,
                ).spec_weeks_of_month().spec_get(i) || 0 <= i < 5),
            final(self).spec_minutes() == old(self).spec_minutes(),
            final(self).spec_hours() == old(self).spec_hours(),
            final(self).spec_days_of_week() == old(self).spec_days_of_week(),
            final(self).spec_days_of_month() == old(self).spec_days_of_month(),
            final(self).spec_months_of_year() == old(self).spec_months_of_year(),
            final(self).spec_year_cadence() == old(self).spec_year_cadence(),
            final(self).spec_year_start() == old(self).spec_year_start(),
            final(self).spec_timezone() == old(self).spec_timezone(),
    {
        let mut i: usize = 0;
        while i < 5
            invariant
                i <= 5,
                self.wf(),
                forall|k: int|
                    self.spec_weeks_of_month().spec_get(k) == (old(
                        self,
                    ).spec_weeks_of_month().spec_get(k) || 0 <= k < i),
                self.spec_minutes() == old(self).spec_minutes(),
                self.spec_hours() == old(self).spec_hours(),
                self.spec_days_of_week() == old(self).spec_days_of_week(),
                self.spec_days_of_month() == old(self).spec_days_of_month(),
                self.spec_months_of_year() == old(self).spec_months_of_year(),
                self.spec_year_cadence() == old(self).spec_year_cadence(),
                self.spec_year_start() == old(self).spec_year_start(),
                self.spec_timezone() == old(self).spec_timezone(),
            decreases 5 - i,
        {
            self.weeks_of_month.set(i);
            i = i + 1;
        }
    }

    /// Turns every month back on, on top of what is set.
    pub fn all_months(&mut self)
        requires
            old(self).wf(),
        ensures
            final(self).wf(),
            forall|i: int|
                final(self).spec_months_of_year().spec_get(i) == (old(
                    self,
                ).spec_months_of_year().spec_get(i) || 0 <= i < 12),
            final(self).spec_minutes() == old(self).spec_minutes(),
            final(self).spec_hours() == old(self).spec_hours(),
            final(self).spec_days_of_week() == old(self).spec_days_of_week(),
            final(self).spec_days_of_month() == old(self).spec_days_of_month(),
            final(self).spec_weeks_of_month() == old(self).spec_weeks_of_month(),
            final(self).spec_year_cadence() == old(self).spec_year_cadence(),
            final(self).spec_year_start() == old(self).spec_year_start(),
            final(self).spec_timezone() == old(self).spec_timezone(),
    {
        let mut i: usize = 0;
        while i < 12
            invariant
                i <= 12,
                self.wf(),
                forall|k: int|
                    self.spec_months_of_year().spec_get(k) == (old(
                        self,
                    ).spec_months_of_year().spec_get(k) || 0 <= k < i),
                self.spec_minutes() == old(self).spec_minutes(),
                self.spec_hours() == old(self).spec_hours(),
                self.spec_days_of_week() == old(self).spec_days_of_week(),
                self.spec_days_of_month() == old(self).spec_days_of_month(),
                self.spec_weeks_of_month() == old(self).spec_weeks_of_month(),
                self.spec_year_cadence() == old(self).spec_year_cadence(),
                self.spec_year_start() == old(self).spec_year_start(),
                self.spec_timezone() == old(self).spec_timezone(),
            decreases 12 - i,
        {
            self.months_of_year.set(i);
            i = i + 1;
        }
    }

    /// Turns every day of the month back on, on top of what is set.
    pub fn all_days_of_month(&mut self)
        requires
            old(self).wf(),
        ensures
            final(self).wf(),
            forall|i: int|
                final(self).spec_days_of_month().spec_get(i) == (old(
                    self,
                ).spec_days_of_month().spec_get(i) || 0 <= i < 31),
            final(self).spec_minutes() == old(self).spec_minutes(),
            final(self).spec_hours() == old(self).spec_hours(),
            final(self).spec_days_of_week() == old(self).spec_days_of_week(),
            final(self).spec_months_of_year() == old(self).spec_months_of_year(),
            final(self).spec_weeks_of_month() == old(self).spec_weeks_of_month(),
            final(self).spec_year_cadence() == old(self).spec_year_cadence(),
            final(self).spec_year_start() == old(self).spec_year_start(),
            final(self).spec_timezone() == old(self).spec_timezone(),
    {
        let mut i: usize = 0;
        while i < 31
            invariant
                i <= 31,
                self.wf(),
                forall|k: int|
                    self.spec_days_of_month().spec_get(k) == (old(
                        self,
                    ).spec_days_of_month().spec_get(k) || 0 <= k < i),
                self.spec_minutes() == old(self).spec_minutes(),
                self.spec_hours() == old(self).spec_hours(),
                self.spec_days_of_week() == old(self).spec_days_of_week(),
                self.spec_months_of_year() == old(self).spec_months_of_year(),
                self.spec_weeks_of_month() == old(self).spec_weeks_of_month(),
                self.spec_year_cadence() == old(self).spec_year_cadence(),
                self.spec_year_start() == old(self).spec_year_start(),
                self.spec_timezone() == old(self).spec_timezone(),
            decreases 31 - i,
        {
            self.days_of_month.set(i);
            i = i + 1;
        }
    }

    /// A cadence of zero is read as one.
    pub fn with_year_cadence(&mut self, year: u8)
        requires
            old(self).wf(),
        ensures
            final(self).wf(),
            final(self).spec_year_cadence() == if year >= 1 {
                year as int
            } else {
                1
            },
            final(self).spec_year_start() == old(self).spec_year_start(),
            final(self).spec_minutes() == old(self).spec_minutes(),
            final(self).spec_hours() == old(self).spec_hours(),
            final(self).spec_weeks_of_month() == old(self).spec_weeks_of_month(),
            final(self).spec_days_of_month() == old(self).spec_days_of_month(),
            final(self).spec_days_of_week() == old(self).spec_days_of_week(),
            final(self).spec_months_of_year() == old(self).spec_months_of_year(),
            final(self).spec_timezone() == old(self).spec_timezone(),
    {
        self.year_cadence = if year >= 1 {
            year
        } else {
            1
        };
    }
}

} // verus!

verus! {

impl ScheduleGrid {
    /// The shape of a successful search: `u` is a whole microsecond instant
    /// after `now` whose wall-clock minute in the grid's zone matches every
    /// calendar field, and the zone shows that minute exactly once, at `u`.
    pub open spec fn fires_result(&self, now: int, u: int) -> bool {
        let us = u / 1000000;
        let lu = us + tz::zone_offset_at(self.spec_timezone(), us);
        &&& u == us * 1000000
        &&& u > now
        &&& civil::valid_instant(u)
        &&& self.minute_matches(lu)
        &&& tz::zone_resolve_local(self.spec_timezone(), lu) == Some(us as i64)
    }

    /// A successful search result in full: it fires, its wall-clock minute
    /// lies inside the searched window, and no earlier minute of the window
    /// fires — the result is the earliest firing the grid has after `now`.
    pub open spec fn first_fire(&self, now: int, u: int) -> bool {
        &&& self.fires_result(now, u)
        &&& self.start_minute(now) <= self.result_minute(u) < self.search_end(now)
        &&& self.no_fire_between(now, self.start_minute(now), self.result_minute(u))
    }

    /// The wall-clock minute a successful result was found at.
    pub open spec fn result_minute(&self, u: int) -> int {
        u / 1000000 + tz::zone_offset_at(self.spec_timezone(), u / 1000000)
    }

    /// No minute of a day whose date-level fields fail can match.
    proof fn lemma_skip_day(&self, now: int, z: int, y: int, mo: int, d: int)
        requires
            civil::valid_date(y, mo, d),
            civil::day_number(y, mo, d) == z,
            !(self.spec_months_of_year().spec_get(mo - 1) && self.spec_days_of_month().spec_get(
                d - 1,
            ) && self.spec_days_of_week().spec_get(civil::weekday_of_day(z))
                && self.spec_weeks_of_month().spec_get((d - 1) / 7) && self.year_aligned(y)),
        ensures
            self.no_fire_between(now, z * 86400, (z + 1) * 86400),
    {
        civil::lemma_date_of_day_id(y, mo, d);
        assert forall|lm: int| z * 86400 <= lm < (z + 1) * 86400 implies !self.candidate_fires(
            now,
            lm,
        ) by {
            civil::lemma_div_range(lm, z, 86400);
        }
    }

    /// No minute of an hour whose bit is out can match.
    proof fn lemma_skip_hour(&self, now: int, z: int, h: int)
        requires
            0 <= h < 24,
            z >= 0,
            !self.spec_hours().spec_get(h),
        ensures
            self.no_fire_between(now, z * 86400 + h * 3600, z * 86400 + (h + 1) * 3600),
    {
        assert forall|lm: int|
            z * 86400 + h * 3600 <= lm < z * 86400 + (h + 1) * 3600 implies !self.candidate_fires(
            now,
            lm,
        ) by {
            civil::lemma_div_range(lm, z, 86400);
            civil::lemma_div_range(lm % 86400, h, 3600);
        }
    }

    /// One wall-clock minute cannot fire when its bit is out, when the zone
    /// skips or duplicates it, or when its instant is not after `now`.
    proof fn lemma_skip_minute(&self, now: int, z: int, h: int, mi: int)
        requires
            0 <= h < 24,
            0 <= mi < 60,
            z >= 0,
            !self.spec_minutes().spec_get(mi) || match tz::zone_resolve_local(
                self.spec_timezone(),
                z * 86400 + h * 3600 + mi * 60,
            ) {
                Some(u) => u * 1000000 <= now,
                None => true,
            },
        ensures
            self.no_fire_between(
                now,
                z * 86400 + h * 3600 + mi * 60,
                z * 86400 + h * 3600 + (mi + 1) * 60,
            ),
    {
        let base = z * 86400 + h * 3600 + mi * 60;
        assert forall|lm: int| base <= lm < base + 60 implies !self.candidate_fires(now, lm) by {
            civil::lemma_div_range(lm, z, 86400);
            let sod = lm % 86400;
            if lm > base {
                assert(sod % 60 != 0) by {
                    civil::lemma_div_range(sod, h * 60 + mi, 60);
                }
            } else {
                civil::lemma_div_range(sod, h, 3600);
                civil::lemma_div_range(sod % 3600, mi, 60);
            }
        }
    }

    /// No minute of a year below the anchor or off the cadence can match.
    proof fn lemma_skip_years(&self, now: int, ya: int, yb: int)
        requires
            1970 <= ya <= yb,
            forall|y: int| ya <= y < yb ==> !#[trigger] self.year_aligned(y),
        ensures
            self.no_fire_between(
                now,
                civil::days_before_year(ya) * 86400,
                civil::days_before_year(yb) * 86400,
            ),
        decreases yb - ya,
    {
        if ya < yb {
            self.lemma_skip_years(now, ya + 1, yb);
            civil::lemma_days_before_year_mono(ya, ya + 1);
            assert forall|lm: int|
                civil::days_before_year(ya) * 86400 <= lm < civil::days_before_year(ya + 1) * 86400
                    implies !self.candidate_fires(now, lm) by {
                let z = lm / 86400;
                assert(civil::days_before_year(ya) <= z < civil::days_before_year(ya + 1)) by {
                    vstd::arithmetic::div_mod::lemma_fundamental_div_mod(lm, 86400);
                    assert(z >= civil::days_before_year(ya)) by (nonlinear_arith)
                        requires
                            lm >= civil::days_before_year(ya) * 86400,
                            lm == 86400 * z + lm % 86400,
                            0 <= lm % 86400 < 86400;
                    assert(z < civil::days_before_year(ya + 1)) by (nonlinear_arith)
                        requires
                            lm < civil::days_before_year(ya + 1) * 86400,
                            lm == 86400 * z + lm % 86400,
                            0 <= lm % 86400 < 86400;
                }
                civil::lemma_day_in_year_bounds(ya, z);
            }
        }
    }

    /// Scans the in-bitmap times of one day whose date-level fields all
    /// match, starting at the given wall-clock time.
    fn scan_day(
        &self,
        now: i64,
        y: i64,
        mo: i64,
        d: i64,
        z: i64,
        h_from: i64,
        m_from: i64,
    ) -> (r: Option<i64>)
        requires
            self.wf(),
            civil::valid_instant(now as int),
            civil::valid_date(y as int, mo as int, d as int),
            y <= 9999,
            civil::day_number(y as int, mo as int, d as int) == z,
            0 <= h_from < 24,
            0 <= m_from < 60,
            self.spec_months_of_year().spec_get(mo - 1),
            self.spec_days_of_month().spec_get(d - 1),
            self.spec_days_of_week().spec_get(civil::weekday_of_day(z as int)),
            self.spec_weeks_of_month().spec_get((d - 1) / 7),
            self.year_aligned(y as int),
        ensures
            match r {
                Some(u) => self.fires_result(now as int, u as int) && z * 86400 + h_from * 3600
                    + m_from * 60 <= self.result_minute(u as int) && self.result_minute(u as int)
                    < (z + 1) * 86400 && self.no_fire_between(
                    now as int,
                    z * 86400 + h_from * 3600 + m_from * 60,
                    self.result_minute(u as int),
                ),
                None => self.no_fire_between(
                    now as int,
                    z * 86400 + h_from * 3600 + m_from * 60,
                    (z + 1) * 86400,
                ),
            },
    {
        proof {
            civil::lemma_day_number_in_year(y as int, mo as int, d as int);
            civil::lemma_days_before_year_mono(y as int + 1, 10001);
            civil::lemma_days_before_year_mono(1970, y as int);
            civil::lemma_days_before_year_upper(10001);
            civil::lemma_date_of_day_id(y as int, mo as int, d as int);
        }
        let base: i64 = z * 86400;
        let start: i64 = base + h_from * 3600 + m_from * 60;
        let mut h: i64 = h_from;
        while h < 24
            invariant
                self.wf(),
                civil::valid_instant(now as int),
                civil::valid_date(y as int, mo as int, d as int),
                y <= 9999,
                civil::day_number(y as int, mo as int, d as int) == z,
                civil::date_of_day(z as int) == (y as int, mo as int, d as int),
                0 <= h_from <= h <= 24,
                0 <= m_from < 60,
                0 <= z < 2939346,
                base == z * 86400,
                start == base + h_from * 3600 + m_from * 60,
                self.spec_months_of_year().spec_get(mo - 1),
                self.spec_days_of_month().spec_get(d - 1),
                self.spec_days_of_week().spec_get(civil::weekday_of_day(z as int)),
                self.spec_weeks_of_month().spec_get((d - 1) / 7),
                self.year_aligned(y as int),
                self.no_fire_between(
                    now as int,
                    start as int,
                    if h == h_from {
                        start as int
                    } else {
                        base as int + h * 3600
                    },
                ),
            decreases 24 - h,
        {
            let m_start: i64 = if h == h_from {
                m_from
            } else {
                0
            };
            if self.hours.get(h as usize) {
                let mut mi: i64 = m_start;
                while mi < 60
                    invariant
                        self.wf(),
                        civil::valid_instant(now as int),
                        civil::valid_date(y as int, mo as int, d as int),
                        y <= 9999,
                        civil::day_number(y as int, mo as int, d as int) == z,
                        civil::date_of_day(z as int) == (y as int, mo as int, d as int),
                        0 <= h_from <= h < 24,
                        0 <= m_from < 60,
                        0 <= z < 2939346,
                        base == z * 86400,
                        start == base + h_from * 3600 + m_from * 60,
                        m_start == if h == h_from { m_from } else { 0i64 },
                        m_start <= mi <= 60,
                        self.spec_months_of_year().spec_get(mo - 1),
                        self.spec_days_of_month().spec_get(d - 1),
                        self.spec_days_of_week().spec_get(civil::weekday_of_day(z as int)),
                        self.spec_weeks_of_month().spec_get((d - 1) / 7),
                        self.year_aligned(y as int),
                        self.spec_hours().spec_get(h as int),
                        self.no_fire_between(
                            now as int,
                            start as int,
                            base as int + h * 3600 + mi * 60,
                        ),
                    decreases 60 - mi,
                {
                    let lm: i64 = base + h * 3600 + mi * 60;
                    if self.minutes.get(mi as usize) {
                        match self.timezone.resolve_local(y, mo, d, h, mi, 0) {
                            Some(us) => {
                                if us > now / 1000000 || us * 1000000 > now {
                                    let u = us * 1000000;
                                    proof {
                                        assert(civil::civil_secs(
                                            y as int,
                                            mo as int,
                                            d as int,
                                            h as int,
                                            mi as int,
                                            0,
                                        ) == lm as int);
                                        civil::lemma_div_range(lm as int, z as int, 86400);
                                        civil::lemma_div_range((lm as int) % 86400, h as int, 3600);
                                        civil::lemma_div_range(
                                            ((lm as int) % 86400) % 3600,
                                            mi as int,
                                            60,
                                        );
                                        civil::lemma_div_range(u as int, us as int, 1000000);
                                        assert(self.minute_matches(lm as int));
                                        assert(self.result_minute(u as int) == lm as int);
                                        assert((lm as int) < 253959494400) by (nonlinear_arith)
                                            requires
                                                lm as int == z as int * 86400 + h * 3600 + mi * 60,
                                                0 <= z < 2939346,
                                                0 <= h < 24,
                                                0 <= mi < 60;
                                        assert((u as int) < 260000000000000000) by (nonlinear_arith)
                                            requires
                                                u as int == us as int * 1000000,
                                                (us as int) < lm as int + 86400,
                                                (lm as int) < 253959494400;
                                        assert(civil::valid_instant(u as int));
                                    }
                                    return Some(u);
                                } else {
                                    proof {
                                        self.lemma_skip_minute(
                                            now as int,
                                            z as int,
                                            h as int,
                                            mi as int,
                                        );
                                        assert(civil::civil_secs(
                                            y as int,
                                            mo as int,
                                            d as int,
                                            h as int,
                                            mi as int,
                                            0,
                                        ) == lm as int);
                                    }
                                }
                            }
                            None => {
                                proof {
                                    self.lemma_skip_minute(now as int, z as int, h as int, mi as int);
                                    assert(civil::civil_secs(
                                        y as int,
                                        mo as int,
                                        d as int,
                                        h as int,
                                        mi as int,
                                        0,
                                    ) == lm as int);
                                }
                            }
                        }
                    } else {
                        proof {
                            self.lemma_skip_minute(now as int, z as int, h as int, mi as int);
                        }
                    }
                    mi = mi + 1;
                }
            } else {
                proof {
                    self.lemma_skip_hour(now as int, z as int, h as int);
                }
            }
            h = h + 1;
        }
        None
    }
}

} // verus!

verus! {

impl ScheduleGrid {
    /// The aligned year found from `y` is aligned, not before `y`, and no
    /// year between them is aligned.
    proof fn lemma_aligned_from(&self, y: int)
        requires
            self.spec_year_cadence() >= 1,
        ensures
            self.year_aligned(self.aligned_year_from(y)),
            self.aligned_year_from(y) >= y,
            self.aligned_year_from(y) >= self.spec_year_start(),
            forall|w: int| y <= w < self.aligned_year_from(y) ==> !#[trigger] self.year_aligned(w),
    {
        let ys = self.spec_year_start();
        let c = self.spec_year_cadence();
        let a = self.aligned_year_from(y);
        if y <= ys {
            assert((ys - ys) % c == 0) by {
                vstd::arithmetic::div_mod::lemma_small_mod(0, c as nat);
            }
            assert forall|w: int| y <= w < a implies !#[trigger] self.year_aligned(w) by {}
        } else {
            let delta = (y - ys) % c;
            vstd::arithmetic::div_mod::lemma_fundamental_div_mod(y - ys, c);
            let q = (y - ys) / c;
            if delta == 0 {
            } else {
                assert((a - ys) == c * (q + 1)) by (nonlinear_arith)
                    requires
                        y - ys == c * q + delta,
                        a == y + c - delta;
                assert((a - ys) % c == 0) by {
                    vstd::arithmetic::div_mod::lemma_mod_multiples_vanish(q + 1, 0, c);
                }
                assert forall|w: int| y <= w < a implies !#[trigger] self.year_aligned(w) by {
                    let j = w - y;
                    assert(w - ys == c * q + (delta + j)) by (nonlinear_arith)
                        requires
                            y - ys == c * q + delta,
                            w == y + j;
                    assert((w - ys) % c == delta + j) by {
                        vstd::arithmetic::div_mod::lemma_mod_multiples_vanish(q, delta + j, c);
                        vstd::arithmetic::div_mod::lemma_small_mod((delta + j) as nat, c as nat);
                    }
                }
            }
        }
    }

    /// Years a whole number of cadences past an aligned year are aligned;
    /// the years strictly between are not.
    proof fn lemma_aligned_stride(&self, ybase: int, k: int)
        requires
            self.spec_year_cadence() >= 1,
            self.year_aligned(ybase),
            k >= 0,
        ensures
            self.year_aligned(ybase + k * self.spec_year_cadence()),
            forall|w: int|
                ybase < w < ybase + self.spec_year_cadence() ==> !#[trigger] self.year_aligned(w),
    {
        let ys = self.spec_year_start();
        let c = self.spec_year_cadence();
        vstd::arithmetic::div_mod::lemma_fundamental_div_mod(ybase - ys, c);
        let q = (ybase - ys) / c;
        assert(ybase + k * c - ys == c * (q + k)) by (nonlinear_arith)
            requires ybase - ys == c * q;
        assert((ybase + k * c - ys) % c == 0) by {
            vstd::arithmetic::div_mod::lemma_mod_multiples_vanish(q + k, 0, c);
            vstd::arithmetic::div_mod::lemma_small_mod(0, c as nat);
        }
        assert(ybase + k * c >= ybase) by (nonlinear_arith)
            requires k >= 0, c >= 1;
        assert forall|w: int| ybase < w < ybase + c implies !#[trigger] self.year_aligned(w) by {
            let j = w - ybase;
            assert(w - ys == c * q + j) by (nonlinear_arith)
                requires ybase - ys == c * q, w == ybase + j;
            assert((w - ys) % c == j) by {
                vstd::arithmetic::div_mod::lemma_mod_multiples_vanish(q, j, c);
                vstd::arithmetic::div_mod::lemma_small_mod(j as nat, c as nat);
            }
        }
    }

    /// The next wall-clock minute, strictly after `now`, whose calendar
    /// fields all lie in the bitmaps, mapped back to a UTC instant in
    /// microseconds — or `None` when fifty cadence years (or the year-9999
    /// horizon) pass without one. The result is the earliest candidate: no
    /// wall-clock minute between the starting minute and the result fires.
    pub fn next_scheduled_after(&self, now: i64) -> (r: Option<i64>)
        requires
            self.wf(),
            civil::valid_instant(now as int),
        ensures
            match r {
                Some(u) => self.first_fire(now as int, u as int),
                None => self.no_fire_between(
                    now as int,
                    self.start_minute(now as int),
                    self.search_end(now as int),
                ),
            },
    {
        let n_secs = now / 1000000;
        let t1 = n_secs + 60;
        let off1 = self.timezone.offset_at(t1);
        let l1 = t1 + off1 as i64;
        let rem = l1 % 60;
        let l0 = l1 - rem;
        proof {
            assert(l0 as int == self.start_minute(now as int));
            vstd::arithmetic::div_mod::lemma_fundamental_div_mod(l1 as int, 60);
            assert(l0 % 60 == 0) by {
                vstd::arithmetic::div_mod::lemma_mod_multiples_vanish(l1 as int / 60, 0, 60);
                vstd::arithmetic::div_mod::lemma_small_mod(0, 60);
            }
        }
        let z0 = l0 / 86400;
        let sod0 = l0 % 86400;
        let h0 = sod0 / 3600;
        let m0 = (sod0 % 3600) / 60;
        proof {
            vstd::arithmetic::div_mod::lemma_fundamental_div_mod(l0 as int, 86400);
            vstd::arithmetic::div_mod::lemma_fundamental_div_mod(sod0 as int, 3600);
            vstd::arithmetic::div_mod::lemma_fundamental_div_mod(sod0 as int % 3600, 60);
            assert(sod0 % 60 == 0) by {
                vstd::arithmetic::div_mod::lemma_mod_mod(l0 as int, 60, 1440);
            }
            assert((sod0 as int % 3600) % 60 == 0) by {
                vstd::arithmetic::div_mod::lemma_mod_mod(sod0 as int, 60, 60);
            }
        }
        proof {
            civil::lemma_days_before_year_lower(civil::MAX_YEAR as int + 1);
        }
        let ymd0 = civil::civil_from_days(z0);
        let y_l0 = ymd0.0;
        proof {
            civil::lemma_date_of_day_id(ymd0.0 as int, ymd0.1 as int, ymd0.2 as int);
            civil::lemma_day_number_in_year(ymd0.0 as int, ymd0.1 as int, ymd0.2 as int);
            civil::lemma_days_before_year_mono(1970, y_l0 as int);
        }
        let c = self.year_cadence as i64;
        let ys = self.year_start as i64;
        let y0 = if y_l0 <= ys {
            ys
        } else {
            let delta = (y_l0 - ys) % c;
            if delta == 0 {
                y_l0
            } else {
                y_l0 + c - delta
            }
        };
        proof {
            assert(y0 as int == self.aligned_year_from(y_l0 as int));
            self.lemma_aligned_from(y_l0 as int);
            civil::lemma_days_before_year_lower(y_l0 as int);
            vstd::arithmetic::div_mod::lemma_div_is_ordered(
                l0 as int,
                260000086459,
                86400,
            );
            assert(365 * (y_l0 as int - 1970) <= 3009260);
            assert(y_l0 <= 10214) by (nonlinear_arith)
                requires 365 * (y_l0 as int - 1970) <= 3009260;
        }
        let ghost l0g = l0 as int;
        let ghost nowg = now as int;
        let mut k: i64 = 0;
        while k < 50
            invariant
                self.wf(),
                civil::valid_instant(nowg),
                nowg == now as int,
                0 <= k <= 50,
                c == self.spec_year_cadence(),
                ys == self.spec_year_start(),
                1 <= c <= 255,
                0 <= ys <= 9999,
                l0g == l0 as int,
                l0g == self.start_minute(nowg),
                0 <= z0 < civil::days_before_year(civil::MAX_YEAR as int + 1),
                l0g == z0 * 86400 + sod0,
                0 <= sod0 < 86400,
                sod0 == h0 * 3600 + m0 * 60,
                0 <= h0 < 24,
                0 <= m0 < 60,
                civil::date_of_day(z0 as int) == (y_l0 as int, ymd0.1 as int, ymd0.2 as int),
                civil::day_number(y_l0 as int, ymd0.1 as int, ymd0.2 as int) == z0,
                civil::valid_date(y_l0 as int, ymd0.1 as int, ymd0.2 as int),
                1970 <= y_l0 <= civil::MAX_YEAR,
                civil::days_before_year(y_l0 as int) <= z0 < civil::days_before_year(
                    y_l0 as int + 1,
                ),
                y0 as int == self.aligned_year_from(y_l0 as int),
                self.year_aligned(y0 as int),
                y0 >= y_l0,
                y0 >= ys,
                1970 <= y0 <= 10470,
                forall|w: int| y_l0 as int <= w < y0 as int ==> !#[trigger] self.year_aligned(w),
                k > 0 ==> y0 + (k - 1) * c <= 9999,
                self.no_fire_between(
                    nowg,
                    l0g,
                    if k == 0 {
                        l0g
                    } else {
                        civil::days_before_year(y0 as int + (k - 1) * c + 1) * 86400
                    },
                ),
            decreases 50 - k,
        {
            proof {
                assert(k * c <= 12750) by (nonlinear_arith)
                    requires 0 <= k <= 50, 0 < c <= 255;
                assert(k * c >= 0) by (nonlinear_arith)
                    requires 0 <= k, 0 < c;
            }
            let yk = y0 + k * c;
            proof {
                self.lemma_aligned_stride(y0 as int, k as int);
                assert(self.year_aligned(yk as int));
            }
            // Cover the stretch from the frontier to the start of year `yk`:
            // every year in between is off the cadence or below the anchor.
            proof {
                if k == 0 {
                    if y0 > y_l0 {
                        self.lemma_skip_years(nowg, y_l0 as int, y0 as int);
                        assert(civil::days_before_year(y_l0 as int) * 86400 <= l0g) by (
                        nonlinear_arith)
                            requires
                                civil::days_before_year(y_l0 as int) <= z0,
                                l0g == z0 * 86400 + sod0,
                                sod0 >= 0;
                    }
                } else {
                    let yprev = y0 as int + (k - 1) * c;
                    assert(yk as int == yprev + c) by (nonlinear_arith)
                        requires yk as int == y0 as int + k * c, yprev == y0 as int + (k - 1) * c;
                    self.lemma_aligned_stride(y0 as int, k as int - 1);
                    self.lemma_aligned_stride(yprev, 0);
                    self.lemma_skip_years(nowg, yprev + 1, yk as int);
                }
                assert(self.no_fire_between(nowg, l0g, civil::days_before_year(yk as int) * 86400)
                    || (k == 0 && y0 == y_l0));
            }
            if yk > 9999 {
                proof {
                    // The search gave up at the year horizon; this is exactly
                    // where `search_end` says the covered window closes.
                    let kcap = (9999 - y0 as int) / (c as int);
                    if k > 0 {
                        assert(y0 + (k - 1) * c <= 9999 && y0 + k * c > 9999);
                        civil::lemma_div_range(9999 - y0 as int, k as int - 1, c as int);
                        assert(kcap == k - 1);
                    } else {
                        assert(y0 > 9999);
                    }
                    assert(self.search_end(nowg) == civil::days_before_year(yk as int) * 86400);
                    if k == 0 && y0 == y_l0 {
                        assert(civil::days_before_year(yk as int) * 86400 <= l0g) by (
                        nonlinear_arith)
                            requires
                                civil::days_before_year(yk as int) <= z0,
                                l0g == z0 * 86400 + sod0,
                                sod0 >= 0;
                    }
                }
                return None;
            }
            let z_end = civil::days_from_civil(yk + 1, 1, 1);
            let mut z: i64 = if k == 0 && y0 == y_l0 {
                z0
            } else {
                civil::days_from_civil(yk, 1, 1)
            };
            proof {
                civil::lemma_days_before_month_nonneg(yk as int, 1);
                assert(civil::day_number(yk as int, 1, 1) == civil::days_before_year(yk as int));
                assert(civil::day_number(yk as int + 1, 1, 1) == civil::days_before_year(
                    yk as int + 1,
                ));
                if !(k == 0 && y0 == y_l0) {
                    assert(z as int == civil::days_before_year(yk as int));
                    assert(z0 < z) by {
                        civil::lemma_days_before_year_mono(y_l0 as int + 1, yk as int);
                    }
                }
                assert(z0 <= z);
            }
            while z < z_end
                invariant
                    self.wf(),
                    civil::valid_instant(nowg),
                    nowg == now as int,
                    c == self.spec_year_cadence(),
                    ys == self.spec_year_start(),
                    1 <= c <= 255,
                    0 <= ys <= 9999,
                    l0g == l0 as int,
                    l0g == self.start_minute(nowg),
                    l0g == z0 * 86400 + sod0,
                    0 <= sod0 < 86400,
                    sod0 == h0 * 3600 + m0 * 60,
                    0 <= h0 < 24,
                    0 <= m0 < 60,
                    1970 <= yk <= 9999,
                    self.year_aligned(yk as int),
                    0 <= k < 50,
                    yk as int == y0 as int + k as int * c,
                    1970 <= y0 <= 9999,
                    y0 as int == self.aligned_year_from(y_l0 as int),
                    civil::date_of_day(z0 as int) == (y_l0 as int, ymd0.1 as int, ymd0.2 as int),
                    z_end as int == civil::days_before_year(yk as int + 1),
                    0 <= z0 <= z <= z_end,
                    civil::days_before_year(yk as int) <= z,
                    z_end <= civil::days_before_year(civil::MAX_YEAR as int + 1),
                    self.no_fire_between(
                        nowg,
                        l0g,
                        if z as int * 86400 <= l0g {
                            l0g
                        } else {
                            z as int * 86400
                        },
                    ),
                decreases z_end - z,
            {
                let date = civil::civil_from_days(z);
                let mo = date.1;
                let d = date.2;
                proof {
                    civil::lemma_day_number_in_year(date.0 as int, mo as int, d as int);
                    if date.0 < yk {
                        civil::lemma_days_before_year_mono(date.0 as int + 1, yk as int);
                    }
                    if date.0 > yk {
                        civil::lemma_days_before_year_mono(yk as int + 1, date.0 as int);
                    }
                    assert(date.0 == yk);
                }
                proof {
                    civil::lemma_days_before_year_upper(civil::MAX_YEAR as int + 1);
                }
                let dow = civil::weekday_from_days(z);
                let ok = self.months_of_year.get((mo - 1) as usize) && self.days_of_month.get(
                    (d - 1) as usize,
                ) && self.days_of_week.get(dow as usize) && self.weeks_of_month.get(
                    ((d - 1) / 7) as usize,
                );
                if ok {
                    let hf: i64 = if z == z0 {
                        h0
                    } else {
                        0
                    };
                    let mf: i64 = if z == z0 {
                        m0
                    } else {
                        0
                    };
                    proof {
                        if z == z0 {
                            assert(z as int * 86400 + hf * 3600 + mf * 60 == l0g);
                        } else {
                            assert(z0 < z);
                            assert(z as int * 86400 >= (z0 + 1) * 86400) by (nonlinear_arith)
                                requires z as int >= z0 + 1;
                            assert((z0 + 1) * 86400 > l0g);
                        }
                    }
                    match self.scan_day(now, yk, mo, d, z, hf, mf) {
                        Some(u) => {
                            proof {
                                assert(self.no_fire_between(
                                    nowg,
                                    l0g,
                                    self.result_minute(u as int),
                                ));
                                assert(l0g <= self.result_minute(u as int));
                                // The result's minute sits inside the searched
                                // window: its day precedes the start of the
                                // year after `yk`, which precedes where the
                                // bounded search would have closed.
                                let lu = self.result_minute(u as int);
                                let c_ = self.spec_year_cadence();
                                let kcap = (9999 - y0 as int) / c_;
                                assert(k as int * c_ >= 0 && (k as int + 1) * c_ > k as int * c_)
                                    by (nonlinear_arith)
                                    requires k >= 0, c_ >= 1;
                                civil::lemma_div_range(k as int * c_, k as int, c_);
                                assert(k as int * c_ <= 9999 - y0 as int);
                                vstd::arithmetic::div_mod::lemma_div_is_ordered(
                                    k as int * c_,
                                    9999 - y0 as int,
                                    c_,
                                );
                                assert(k as int <= kcap);
                                let steps = if kcap + 1 < 50 { kcap + 1 } else { 50int };
                                let ycap = y0 as int + steps * c_;
                                assert(steps >= k as int + 1);
                                assert(steps * c_ >= (k as int + 1) * c_) by (nonlinear_arith)
                                    requires steps >= k as int + 1, c_ >= 1;
                                assert((k as int + 1) * c_ >= k as int * c_ + 1) by (
                                nonlinear_arith)
                                    requires c_ >= 1;
                                assert(ycap >= yk as int + 1);
                                civil::lemma_days_before_year_mono(yk as int + 1, ycap);
                                assert(lu < (z as int + 1) * 86400);
                                assert((z as int + 1) * 86400 <= z_end as int * 86400) by (
                                nonlinear_arith)
                                    requires z as int + 1 <= z_end as int;
                                assert(z_end as int * 86400 <= civil::days_before_year(ycap)
                                    * 86400) by (nonlinear_arith)
                                    requires
                                        z_end as int == civil::days_before_year(yk as int + 1),
                                        civil::days_before_year(yk as int + 1)
                                            <= civil::days_before_year(ycap);
                                civil::lemma_div_range(l0g, z0 as int, 86400);
                                assert(self.search_end(nowg) == civil::days_before_year(ycap)
                                    * 86400);
                                assert(lu < self.search_end(nowg));
                            }
                            return Some(u);
                        }
                        None => {
                            proof {
                                assert(self.no_fire_between(
                                    nowg,
                                    l0g,
                                    (z as int + 1) * 86400,
                                ));
                            }
                        }
                    }
                } else {
                    proof {
                        self.lemma_skip_day(nowg, z as int, yk as int, mo as int, d as int);
                        assert(self.no_fire_between(nowg, l0g, (z as int + 1) * 86400));
                    }
                }
                proof {
                    assert((z as int + 1) * 86400 > l0g) by (nonlinear_arith)
                        requires
                            z as int >= z0,
                            l0g == z0 * 86400 + sod0,
                            sod0 < 86400;
                }
                z = z + 1;
            }
            proof {
                assert(z as int * 86400 == civil::days_before_year(yk as int + 1) * 86400);
                assert(civil::days_before_year(yk as int + 1) * 86400 > l0g) by (nonlinear_arith)
                    requires
                        z as int == civil::days_before_year(yk as int + 1),
                        z as int >= z0 + 1 || z as int > z0,
                        z0 * 86400 + sod0 == l0g,
                        0 <= sod0 < 86400;
                assert(yk as int + 1 == y0 as int + k * c + 1);
            }
            k = k + 1;
        }
        proof {
            // Fifty cadence years were scanned; the window closes a cadence
            // past the last one, and the years between are off the cadence.
            let yl = y0 as int + 49 * c;
            let yn = y0 as int + 50 * c;
            self.lemma_aligned_stride(y0 as int, 49);
            self.lemma_aligned_stride(yl, 0);
            self.lemma_skip_years(nowg, yl + 1, yn);
            assert(yl + 1 <= yn);
            let kcap = (9999 - y0 as int) / (c as int);
            assert(y0 + 49 * c <= 9999);
            assert(kcap >= 49) by (nonlinear_arith)
                requires y0 as int + 49 * c <= 9999, c >= 1, kcap == (9999 - y0 as int) / (c as int);
            assert(self.search_end(nowg) == civil::days_before_year(yn) * 86400);
        }
        None
    }
}

/// What a successful search means for the calendar, spelled out: the
/// result's wall-clock minute in the grid's zone has its month, day of the
/// month, weekday, week of the month, hour and minute each in the matching
/// bitmap, and its year is the anchor year or a whole number of cadences
/// past it.
pub proof fn lemma_result_fields_in_grid(g: &ScheduleGrid, now: int, u: int)
    requires
        g.fires_result(now, u),
    ensures
        ({
            let lu = g.result_minute(u);
            let ymd = civil::date_of_day(lu / 86400);
            &&& u > now
            &&& g.spec_months_of_year().spec_get(ymd.1 - 1)
            &&& g.spec_days_of_month().spec_get(ymd.2 - 1)
            &&& g.spec_days_of_week().spec_get(civil::weekday_of_day(lu / 86400))
            &&& g.spec_weeks_of_month().spec_get((ymd.2 - 1) / 7)
            &&& g.spec_hours().spec_get((lu % 86400) / 3600)
            &&& g.spec_minutes().spec_get(((lu % 86400) % 3600) / 60)
            &&& ymd.0 >= g.spec_year_start()
            &&& (ymd.0 - g.spec_year_start()) % g.spec_year_cadence() == 0
        }),
{
}

impl ScheduleGrid {
    /// A copy that constrains identically: every bit and scalar carried over.
    pub fn duplicate(&self) -> (r: ScheduleGrid)
        requires
            self.wf(),
        ensures
            r.wf(),
            forall|i: int| r.spec_minutes().spec_get(i) == self.spec_minutes().spec_get(i),
            forall|i: int| r.spec_hours().spec_get(i) == self.spec_hours().spec_get(i),
            forall|i: int|
                r.spec_weeks_of_month().spec_get(i) == self.spec_weeks_of_month().spec_get(i),
            forall|i: int|
                r.spec_days_of_month().spec_get(i) == self.spec_days_of_month().spec_get(i),
            forall|i: int|
                r.spec_days_of_week().spec_get(i) == self.spec_days_of_week().spec_get(i),
            forall|i: int|
                r.spec_months_of_year().spec_get(i) == self.spec_months_of_year().spec_get(i),
            r.spec_year_cadence() == self.spec_year_cadence(),
            r.spec_year_start() == self.spec_year_start(),
            r.spec_timezone() == self.spec_timezone(),
    {
        ScheduleGrid {
            minutes: self.minutes.duplicate(),
            hours: self.hours.duplicate(),
            weeks_of_month: self.weeks_of_month.duplicate(),
            days_of_month: self.days_of_month.duplicate(),
            days_of_week: self.days_of_week.duplicate(),
            months_of_year: self.months_of_year.duplicate(),
            year_cadence: self.year_cadence,
            year_start: self.year_start,
            timezone: self.timezone.duplicate(),
        }
    }
}

} // verus!
