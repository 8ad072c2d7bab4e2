//! Recurrent parses: grids built from `ogni ...` clauses, with bounds read
//! from `dal ... al ...`, checked against exact next-tick instants.

use chrono::DateTime;
use reminders::bitmap::Bitmap;
use reminders::grid::ScheduleGrid;
use reminders::grid::ScheduleInspection;
use reminders::parsing::try_parse;
use reminders::schedule::Schedule;

fn micros(s: &str) -> i64 {
    DateTime::parse_from_rfc3339(s).unwrap().timestamp_micros()
}

fn grid_bit(grid: &ScheduleGrid, which: ScheduleInspection, i: usize) -> bool {
    let bytes = grid.inspect(which);
    Bitmap::from_bytes(&bytes).get(i)
}

fn parse_recurrent(msg: &str, date_str: &str) -> (i64, ScheduleGrid, Schedule) {
    let tokens: Vec<&str> = msg.split(' ').collect();
    match try_parse(tokens, micros(date_str)) {
        Some(Schedule::Recurrent { since, schedule }) => {
            let again: Vec<&str> = msg.split(' ').collect();
            let s = try_parse(again, micros(date_str)).unwrap();
            (since, schedule, s)
        }
        _ => panic!("Expecting Recurrent for {} @ {}", msg, date_str),
    }
}

fn parse_recurrent_until(msg: &str, date_str: &str) -> (i64, i64, ScheduleGrid, Schedule) {
    let tokens: Vec<&str> = msg.split(' ').collect();
    match try_parse(tokens, micros(date_str)) {
        Some(Schedule::RecurrentUntil { since, until, schedule }) => {
            let again: Vec<&str> = msg.split(' ').collect();
            let s = try_parse(again, micros(date_str)).unwrap();
            (since, until, schedule, s)
        }
        _ => panic!("Expecting RecurrentUntil for {} @ {}", msg, date_str),
    }
}

#[test]
fn ricordami_ogni_2_anni() {
    let (since, grid, _) = parse_recurrent("Ricordami ogni 2 anni", "2024-08-17T20:58:00+02:00");
    assert_eq!(micros("2024-08-17T20:58:00+02:00"), since);
    assert_eq!(2u8, grid.inspect_year_and_cadence().1);
}

#[test]
fn ricordami_ogni_2_anni_ogni_primo_sabato_di_gennaio_dal_1_1_2025() {
    let (since, grid, schedule) = parse_recurrent(
        "Ricordami ogni 2 anni ogni primo sabato di gennaio dal 1/1/2025",
        "2024-08-17T20:58:00+02:00",
    );
    assert_eq!(micros("2025-01-01T20:58:00+01:00"), since);
    assert_eq!(2u8, grid.inspect_year_and_cadence().1);
    assert_eq!(2025u32, grid.inspect_year_and_cadence().0);
    let result = schedule.next_tick(since).expect("Next schedule available");
    assert_eq!(micros("2025-01-04T20:58:00+01:00"), result, "Next schedule available");
}

#[test]
fn ricordami_ogni_primo_e_terzo_giovedi() {
    let (_, grid, schedule) = parse_recurrent(
        "Ricordami ogni primo e terzo giovedì alle 00:00",
        "2024-08-17T20:58:00+02:00",
    );
    assert!(grid_bit(&grid, ScheduleInspection::WeekOfMonth, 0), "Expecting first week set");
    assert!(grid_bit(&grid, ScheduleInspection::WeekOfMonth, 2), "Expecting third week set");
    assert!(grid_bit(&grid, ScheduleInspection::DaysOfWeek, 3), "Expecting fourth day of week set");
    let now = micros("2024-08-17T20:58:00+02:00");
    let result = schedule.next_tick(now).expect("Next schedule available");
    assert_eq!(micros("2024-09-05T00:00:00+02:00"), result, "Next schedule available");
}

#[test]
fn ricordami_ogni_primo_e_terzo_giovedi_e_venerdi() {
    let (_, grid, schedule) = parse_recurrent(
        "Ricordami ogni primo e terzo giovedì e venerdì alle 00:00",
        "2024-08-17T20:58:00+02:00",
    );
    assert!(grid_bit(&grid, ScheduleInspection::WeekOfMonth, 0), "Expecting first week set");
    assert!(grid_bit(&grid, ScheduleInspection::WeekOfMonth, 2), "Expecting third week set");
    assert!(grid_bit(&grid, ScheduleInspection::DaysOfWeek, 3), "Expecting fourth day of week set");
    assert!(grid_bit(&grid, ScheduleInspection::DaysOfWeek, 4), "Expecting fifth day of week set");
    let now = micros("2024-08-17T20:58:00+02:00");
    let result = schedule.next_tick(now).expect("Next schedule available");
    assert_eq!(micros("2024-09-05T00:00:00+02:00"), result, "Next schedule available");
}

#[test]
fn ricordami_ogni_12_05_alle_13() {
    let (_, grid, schedule) = parse_recurrent(
        "Ricordami ogni 12/05 alle 13",
        "2024-08-17T20:58:00+02:00",
    );
    assert!(grid_bit(&grid, ScheduleInspection::DayOfMonth, 11), "Expecting twelfth day of month set");
    assert!(grid_bit(&grid, ScheduleInspection::MonthsOfYear, 4), "Expecting fifth month of year set");
    let now = micros("2024-08-17T20:58:00+02:00");
    let result = schedule.next_tick(now).expect("Next schedule available");
    assert_eq!(micros("2025-05-12T13:00:00+02:00"), result, "Next schedule available");
}

#[test]
fn ricordami_ogni_mercoledi_alle_20_da_ottobre() {
    let (since, _, schedule) = parse_recurrent(
        "Ricordami ogni mercoledì alle 20 da ottobre",
        "2024-08-17T20:58:00+02:00",
    );
    assert_eq!(micros("2024-10-17T20:58:00+02:00"), since);
    let now = micros("2024-08-17T20:58:00+02:00");
    let result = schedule.next_tick(now).expect("Next schedule available");
    assert_eq!(micros("2024-10-23T20:00:00+02:00"), result, "Next schedule available");
}

#[test]
fn ricordami_ogni_mercoledi_alle_20_da_ottobre_a_dicembre() {
    let (since, until, _, schedule) = parse_recurrent_until(
        "Ricordami ogni mercoledì alle 20 da ottobre a dicembre",
        "2024-08-17T20:58:00+02:00",
    );
    assert_eq!(micros("2024-10-17T20:58:00+02:00"), since);
    assert_eq!(micros("2024-12-17T20:58:00+01:00"), until);
    let now = micros("2024-08-17T20:58:00+02:00");
    let result = schedule.next_tick(now).expect("Next schedule available");
    assert_eq!(micros("2024-10-23T20:00:00+02:00"), result, "Next schedule available");
}

#[test]
fn ricordami_ogni_mercoledi_alle_20_da_ottobre_a_dicembre_after() {
    let (since, until, _, schedule) = parse_recurrent_until(
        "Ricordami ogni mercoledì alle 20 da ottobre a dicembre",
        "2024-08-17T20:58:00+02:00",
    );
    assert_eq!(micros("2024-10-17T20:58:00+02:00"), since);
    assert_eq!(micros("2024-12-17T20:58:00+01:00"), until);
    let one_year_later = micros("2024-08-17T20:58:00+02:00") + 365 * 86_400_000_000;
    let result = schedule.next_tick(one_year_later);
    assert_eq!(None, result, "No next schedule available at {}", one_year_later);
}

#[test]
fn ricordami_ogni_venerdi_alle_18_dal_30_agosto_al_26_ottobre() {
    let expected = [
        "2024-08-30T18:00:00+02:00",
        "2024-09-06T18:00:00+02:00",
        "2024-09-13T18:00:00+02:00",
        "2024-09-20T18:00:00+02:00",
        "2024-09-27T18:00:00+02:00",
        "2024-10-04T18:00:00+02:00",
        "2024-10-11T18:00:00+02:00",
        "2024-10-18T18:00:00+02:00",
        "2024-10-25T18:00:00+02:00",
    ];
    let tokens: Vec<&str> =
        "Ricordami ogni venerdì alle 18 dal 29 agosto al 26 ottobre".split(' ').collect();
    let now = micros("2024-08-17T20:58:00+02:00");
    let schedule = match try_parse(tokens, now) {
        Some(s @ Schedule::RecurrentUntil { .. }) => s,
        _ => panic!("Expecting RecurrentUntil"),
    };
    let mut current = now;
    let mut dates: Vec<i64> = Vec::new();
    while let Some(next) = schedule.next_tick(current) {
        dates.push(next);
        current = next;
    }
    let expected_micros: Vec<i64> = expected.iter().map(|s| micros(s)).collect();
    assert_eq!(expected_micros, dates, "Expecting sequence of dates");
}
