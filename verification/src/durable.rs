//! The flat, store-agnostic layout of a reminder record: instants in whole
//! microseconds and calendar bitmaps as little-endian byte sequences. A
//! document store persists these records; this module only converts, both
//! ways, and rejects records that cannot rebuild a well-formed schedule.

use vstd::prelude::*;

use crate::bitmap::Bitmap;
use crate::civil;
use crate::grid::ScheduleGrid;
use crate::grid::ScheduleInspection;
use crate::schedule::Schedule;
use crate::store::ReminderDefinition;
use crate::tz;
use crate::tz::Zone;

verus! {

pub struct DurableGrid {
    pub minutes: Vec<u8>,
    pub hours: Vec<u8>,
    pub weeks_of_month: Vec<u8>,
    pub days_of_month: Vec<u8>,
    pub days_of_week: Vec<u8>,
    pub months_of_year: Vec<u8>,
    pub year_cadence: u8,
    pub year_start: u32,
    pub timezone: String,
}

pub enum DurableSchedule {
    Once { when_micros: i64 },
    Recurrent { since_micros: i64, schedule: DurableGrid },
    RecurrentUntil { since_micros: i64, until_micros: i64, schedule: DurableGrid },
}

/// One persisted reminder: its primary key, message and schedule.
pub struct DurableReminder {
    pub user: u64,
    pub id: i32,
    pub message: String,
    pub schedule: DurableSchedule,
}

/// Whether a stored grid can rebuild a well-formed one.
pub open spec fn grid_restorable(g: &DurableGrid) -> bool {
    &&& tz::zone_name_known(g.timezone@)
    &&& g.year_cadence >= 1
    &&& g.year_start <= 9999
    &&& g.minutes@.len() <= 12000
    &&& g.hours@.len() <= 12000
    &&& g.weeks_of_month@.len() <= 12000
    &&& g.days_of_month@.len() <= 12000
    &&& g.days_of_week@.len() <= 12000
    &&& g.months_of_year@.len() <= 12000
}

/// A grid flattened to bytes, field for field.
pub open spec fn is_grid_record(g: &DurableGrid, grid: &ScheduleGrid) -> bool {
    &&& g.minutes@ == grid.spec_minutes().spec_bytes()
    &&& g.hours@ == grid.spec_hours().spec_bytes()
    &&& g.weeks_of_month@ == grid.spec_weeks_of_month().spec_bytes()
    &&& g.days_of_month@ == grid.spec_days_of_month().spec_bytes()
    &&& g.days_of_week@ == grid.spec_days_of_week().spec_bytes()
    &&& g.months_of_year@ == grid.spec_months_of_year().spec_bytes()
    &&& g.year_cadence as int == grid.spec_year_cadence()
    &&& g.year_start as int == grid.spec_year_start()
    &&& g.timezone@ == grid.spec_timezone()
}

pub fn grid_to_durable(grid: &ScheduleGrid) -> (r: DurableGrid)
    requires
        grid.wf(),
    ensures
        is_grid_record(&r, grid),
{
    DurableGrid {
        minutes: grid.inspect(ScheduleInspection::Minute),
        hours: grid.inspect(ScheduleInspection::Hour),
        weeks_of_month: grid.inspect(ScheduleInspection::WeekOfMonth),
        days_of_month: grid.inspect(ScheduleInspection::DayOfMonth),
        days_of_week: grid.inspect(ScheduleInspection::DaysOfWeek),
        months_of_year: grid.inspect(ScheduleInspection::MonthsOfYear),
        year_cadence: grid.inspect_year_and_cadence().1,
        year_start: grid.inspect_year_and_cadence().0,
        timezone: grid.inspect_timezone().name().clone(),
    }
}

/// What rebuilding a grid from its record means: well-formed, every bit read
/// back exactly as the bytes encode it, and the scalar fields carried over.
pub open spec fn grid_restored(g: &DurableGrid, grid: &ScheduleGrid) -> bool {
    &&& grid.wf()
    &&& forall|i: int| grid.spec_minutes().spec_get(i) == Bitmap::decoded_bit(g.minutes@, i)
    &&& forall|i: int| grid.spec_hours().spec_get(i) == Bitmap::decoded_bit(g.hours@, i)
    &&& forall|i: int|
        grid.spec_weeks_of_month().spec_get(i) == Bitmap::decoded_bit(g.weeks_of_month@, i)
    &&& forall|i: int|
        grid.spec_days_of_month().spec_get(i) == Bitmap::decoded_bit(g.days_of_month@, i)
    &&& forall|i: int|
        grid.spec_days_of_week().spec_get(i) == Bitmap::decoded_bit(g.days_of_week@, i)
    &&& forall|i: int|
        grid.spec_months_of_year().spec_get(i) == Bitmap::decoded_bit(g.months_of_year@, i)
    &&& grid.spec_year_cadence() == g.year_cadence as int
    &&& grid.spec_year_start() == g.year_start as int
    &&& grid.spec_timezone() == g.timezone@
}

/// Rebuilds a grid from its bytes: every bit read back as encoded, the zone
/// looked up by name. `None` exactly when the record is not restorable.
pub fn durable_to_grid(g: &DurableGrid) -> (r: Option<ScheduleGrid>)
    ensures
        r is Some <==> grid_restorable(g),
        r matches Some(grid) ==> grid_restored(g, &grid),
{
    if g.year_cadence < 1 || g.year_start > 9999 {
        return None;
    }
    if g.minutes.len() > 12000 || g.hours.len() > 12000 || g.weeks_of_month.len() > 12000
        || g.days_of_month.len() > 12000 || g.days_of_week.len() > 12000
        || g.months_of_year.len() > 12000 {
        return None;
    }
    let zone = match Zone::from_name(g.timezone.as_str()) {
        Some(z) => z,
        None => {
            return None;
        }
    };
    Some(
        ScheduleGrid::new(
            Bitmap::from_bytes(&g.minutes),
            Bitmap::from_bytes(&g.hours),
            Bitmap::from_bytes(&g.weeks_of_month),
            Bitmap::from_bytes(&g.days_of_month),
            Bitmap::from_bytes(&g.days_of_week),
            Bitmap::from_bytes(&g.months_of_year),
            g.year_cadence,
            g.year_start,
            zone,
        ),
    )
}

/// A schedule flattened to its record, variant for variant.
pub open spec fn is_schedule_record(d: &DurableSchedule, s: &Schedule) -> bool {
    match (d, s) {
        (DurableSchedule::Once { when_micros }, Schedule::Once { when }) => when_micros == when,
        (
            DurableSchedule::Recurrent { since_micros, schedule: dg },
            Schedule::Recurrent { since, schedule },
        ) => since_micros == since && is_grid_record(dg, schedule),
        (
            DurableSchedule::RecurrentUntil { since_micros, until_micros, schedule: dg },
            Schedule::RecurrentUntil { since, until, schedule },
        ) => since_micros == since && until_micros == until && is_grid_record(dg, schedule),
        _ => false,
    }
}

pub fn schedule_to_durable(s: &Schedule) -> (r: DurableSchedule)
    requires
        s.wf(),
    ensures
        is_schedule_record(&r, s),
{
    match s {
        Schedule::Once { when } => DurableSchedule::Once { when_micros: *when },
        Schedule::Recurrent { since, schedule } => DurableSchedule::Recurrent {
            since_micros: *since,
            schedule: grid_to_durable(schedule),
        },
        Schedule::RecurrentUntil { since, until, schedule } => DurableSchedule::RecurrentUntil {
            since_micros: *since,
            until_micros: *until,
            schedule: grid_to_durable(schedule),
        },
    }
}

/// Whether a stored schedule can rebuild a well-formed one: its grid is
/// restorable and its lower bound is an instant the library computes with.
pub open spec fn schedule_restorable(d: &DurableSchedule) -> bool {
    match d {
        DurableSchedule::Once { .. } => true,
        DurableSchedule::Recurrent { since_micros, schedule } => grid_restorable(schedule)
            && civil::valid_instant(*since_micros as int),
        DurableSchedule::RecurrentUntil { since_micros, until_micros, schedule } => grid_restorable(
            schedule,
        ) && civil::valid_instant(*since_micros as int),
    }
}

/// What rebuilding a schedule from its record means: the variant and its
/// instants carried over, and the grid read back bit for bit.
pub open spec fn schedule_restored(d: &DurableSchedule, s: &Schedule) -> bool {
    match (d, s) {
        (DurableSchedule::Once { when_micros }, Schedule::Once { when }) => when_micros == when,
        (
            DurableSchedule::Recurrent { since_micros, schedule: dg },
            Schedule::Recurrent { since, schedule },
        ) => since_micros == since && grid_restored(dg, schedule),
        (
            DurableSchedule::RecurrentUntil { since_micros, until_micros, schedule: dg },
            Schedule::RecurrentUntil { since, until, schedule },
        ) => since_micros == since && until_micros == until && grid_restored(dg, schedule),
        _ => false,
    }
}

/// Rebuilds a schedule; `None` exactly when the grid is not restorable or a
/// stored lower bound is outside the instants the library computes with.
pub fn durable_to_schedule(d: &DurableSchedule) -> (r: Option<Schedule>)
    ensures
        r is Some <==> schedule_restorable(d),
        r matches Some(s) ==> s.wf() && schedule_restored(d, &s),
{
    match d {
        DurableSchedule::Once { when_micros } => Some(Schedule::Once { when: *when_micros }),
        DurableSchedule::Recurrent { since_micros, schedule } => {
            if *since_micros < 86400000000 || *since_micros >= 260000000000000000 {
                return None;
            }
            match durable_to_grid(schedule) {
                Some(grid) => Some(
                    Schedule::Recurrent { since: *since_micros, schedule: grid },
                ),
                None => None,
            }
        }
        DurableSchedule::RecurrentUntil { since_micros, until_micros, schedule } => {
            if *since_micros < 86400000000 || *since_micros >= 260000000000000000 {
                return None;
            }
            match durable_to_grid(schedule) {
                Some(grid) => Some(
                    Schedule::RecurrentUntil {
                        since: *since_micros,
                        until: *until_micros,
                        schedule: grid,
                    },
                ),
                None => None,
            }
        }
    }
}

/// Flattens one reminder to its record.
pub fn reminder_to_durable(definition: &ReminderDefinition, id: i32) -> (r: DurableReminder)
    requires
        definition.wf(),
    ensures
        r.user == definition.user_id,
        r.id == id,
        r.message == definition.message,
        is_schedule_record(&r.schedule, &definition.schedule),
{
    DurableReminder {
        user: definition.user_id,
        id,
        message: definition.message.clone(),
        schedule: schedule_to_durable(&definition.schedule),
    }
}

/// Rebuilds one reminder from its record; `None` exactly when its schedule
/// cannot be restored.
pub fn durable_to_reminder(rec: &DurableReminder) -> (r: Option<(ReminderDefinition, i32)>)
    ensures
        r is Some <==> schedule_restorable(&rec.schedule),
        r matches Some(p) ==> p.0.wf() && p.0.user_id == rec.user && p.0.message == rec.message
            && p.1 == rec.id && schedule_restored(&rec.schedule, &p.0.schedule),
{
    match durable_to_schedule(&rec.schedule) {
        Some(schedule) => Some(
            (
                ReminderDefinition {
                    schedule,
                    user_id: rec.user,
                    message: rec.message.clone(),
                },
                rec.id,
            ),
        ),
        None => None,
    }
}

/// Writing a grid out and reading its bytes back loses no calendar bit:
/// every bit decoded from a grid's record equals the grid's own bit.
pub proof fn lemma_grid_record_keeps_bits(rec: &DurableGrid, grid: &ScheduleGrid)
    requires
        is_grid_record(rec, grid),
    ensures
        forall|i: int| Bitmap::decoded_bit(rec.minutes@, i) == grid.spec_minutes().spec_get(i),
        forall|i: int| Bitmap::decoded_bit(rec.hours@, i) == grid.spec_hours().spec_get(i),
        forall|i: int|
            Bitmap::decoded_bit(rec.weeks_of_month@, i) == grid.spec_weeks_of_month().spec_get(i),
        forall|i: int|
            Bitmap::decoded_bit(rec.days_of_month@, i) == grid.spec_days_of_month().spec_get(i),
        forall|i: int|
            Bitmap::decoded_bit(rec.days_of_week@, i) == grid.spec_days_of_week().spec_get(i),
        forall|i: int|
            Bitmap::decoded_bit(rec.months_of_year@, i) == grid.spec_months_of_year().spec_get(i),
{
    crate::bitmap::lemma_width_whole_bytes(&grid.spec_minutes());
    crate::bitmap::lemma_bytes_round_trip(&grid.spec_minutes());
    crate::bitmap::lemma_width_whole_bytes(&grid.spec_hours());
    crate::bitmap::lemma_bytes_round_trip(&grid.spec_hours());
    crate::bitmap::lemma_width_whole_bytes(&grid.spec_weeks_of_month());
    crate::bitmap::lemma_bytes_round_trip(&grid.spec_weeks_of_month());
    crate::bitmap::lemma_width_whole_bytes(&grid.spec_days_of_month());
    crate::bitmap::lemma_bytes_round_trip(&grid.spec_days_of_month());
    crate::bitmap::lemma_width_whole_bytes(&grid.spec_days_of_week());
    crate::bitmap::lemma_bytes_round_trip(&grid.spec_days_of_week());
    crate::bitmap::lemma_width_whole_bytes(&grid.spec_months_of_year());
    crate::bitmap::lemma_bytes_round_trip(&grid.spec_months_of_year());
}

/// Two grids that constrain identically: every calendar bit and every scalar
/// field agrees.
pub open spec fn grids_agree(a: &ScheduleGrid, b: &ScheduleGrid) -> bool {
    &&& forall|i: int| a.spec_minutes().spec_get(i) == b.spec_minutes().spec_get(i)
    &&& forall|i: int| a.spec_hours().spec_get(i) == b.spec_hours().spec_get(i)
    &&& forall|i: int|
        a.spec_weeks_of_month().spec_get(i) == b.spec_weeks_of_month().spec_get(i)
    &&& forall|i: int| a.spec_days_of_month().spec_get(i) == b.spec_days_of_month().spec_get(i)
    &&& forall|i: int| a.spec_days_of_week().spec_get(i) == b.spec_days_of_week().spec_get(i)
    &&& forall|i: int|
        a.spec_months_of_year().spec_get(i) == b.spec_months_of_year().spec_get(i)
    &&& a.spec_year_cadence() == b.spec_year_cadence()
    &&& a.spec_year_start() == b.spec_year_start()
    &&& a.spec_timezone() == b.spec_timezone()
}

/// The schedule round trip loses nothing: writing a schedule out and
/// rebuilding one from the record gives the same variant, the same instants,
/// and a grid that constrains identically, bit for bit.
pub proof fn lemma_schedule_record_round_trip(rec: &DurableSchedule, s: &Schedule, s2: &Schedule)
    requires
        is_schedule_record(rec, s),
        schedule_restored(rec, s2),
    ensures
        match (s, s2) {
            (Schedule::Once { when }, Schedule::Once { when: when2 }) => when == when2,
            (
                Schedule::Recurrent { since, schedule },
                Schedule::Recurrent { since: since2, schedule: schedule2 },
            ) => since == since2 && grids_agree(schedule, schedule2),
            (
                Schedule::RecurrentUntil { since, until, schedule },
                Schedule::RecurrentUntil { since: since2, until: until2, schedule: schedule2 },
            ) => since == since2 && until == until2 && grids_agree(schedule, schedule2),
            _ => false,
        },
{
    match rec {
        DurableSchedule::Once { .. } => {}
        DurableSchedule::Recurrent { schedule: dg, .. } => {
            match (s, s2) {
                (
                    Schedule::Recurrent { schedule, .. },
                    Schedule::Recurrent { schedule: schedule2, .. },
                ) => {
                    lemma_grid_record_keeps_bits(dg, schedule);
                }
                _ => {}
            }
        }
        DurableSchedule::RecurrentUntil { schedule: dg, .. } => {
            match (s, s2) {
                (
                    Schedule::RecurrentUntil { schedule, .. },
                    Schedule::RecurrentUntil { schedule: schedule2, .. },
                ) => {
                    lemma_grid_record_keeps_bits(dg, schedule);
                }
                _ => {}
            }
        }
    }
}

} // verus!
