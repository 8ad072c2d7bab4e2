//! Single-firing parses: each case gives the tokenized request, the current
//! instant, and the expected firing instant.

use chrono::DateTime;
use reminders::parsing::try_parse;
use reminders::schedule::Schedule;

fn micros(s: &str) -> i64 {
    DateTime::parse_from_rfc3339(s).unwrap().timestamp_micros()
}

fn assert_schedule_once(msg: &str, date_str: &str, expected_when_str: &str) {
    let tokens: Vec<&str> = msg.split(' ').collect();
    match try_parse(tokens, micros(date_str)) {
        Some(Schedule::Once { when }) => {
            assert_eq!(micros(expected_when_str), when, "When parsing \"{msg}\"");
        }
        _ => panic!("Expecting Once when parsing \"{msg}\""),
    }
}

fn assert_schedule_once_none(msg: &str, date_str: &str) {
    let tokens: Vec<&str> = msg.split(' ').collect();
    assert!(try_parse(tokens, micros(date_str)).is_none(), "When parsing \"{msg}\"");
}

#[test]
fn test_ricordami_il_18() {
    assert_schedule_once(
        "Ricordami il 18",
        "2024-08-17T20:58:00+02:00",
        "2024-08-18T20:58:00+02:00",
    );
}

#[test]
fn test_ricordami_tra_60_secondi_2_settimane_e_1_minuto() {
    assert_schedule_once(
        "Ricordami tra 60 secondi 2 settimane e 1 minuto",
        "2024-08-17T20:58:00+02:00",
        "2024-08-31T21:00:00+02:00",
    );
}

#[test]
fn test_ricordami_il_18_alle_00_01() {
    assert_schedule_once(
        "Ricordami il 18 alle 00:01",
        "2024-08-17T20:58:00+02:00",
        "2024-08-18T00:01:00+02:00",
    );
}

#[test]
fn test_ricordami_alle_2_e_59() {
    assert_schedule_once(
        "Ricordami alle 2 e 59",
        "2024-08-17T20:58:00+02:00",
        "2024-08-18T02:59:00+02:00",
    );
}

#[test]
fn test_ricordami_venerdi_alle_00() {
    assert_schedule_once(
        "Ricordami venerdì alle 00",
        "2024-08-17T20:58:00+02:00",
        "2024-08-18T00:00:00+02:00",
    );
}

#[test]
fn test_ricordami_nel_2025() {
    assert_schedule_once(
        "Ricordami nel 2025",
        "2024-08-17T20:58:00+02:00",
        "2025-01-01T20:58:00+01:00",
    );
}

#[test]
fn test_ricordami_il_12_maggio_2025() {
    assert_schedule_once(
        "Ricordami il 12 maggio 2025",
        "2024-08-17T20:58:00+02:00",
        "2025-05-12T20:58:00+02:00",
    );
}

#[test]
fn test_ricordami_l_1() {
    assert_schedule_once(
        "Ricordami l 1",
        "2024-08-17T20:58:00+02:00",
        "2024-09-01T20:58:00+02:00",
    );
}

#[test]
fn test_ricordami_ad_agosto_2025_alle_02_20() {
    assert_schedule_once(
        "Ricordami ad agosto 2025 alle 02:20",
        "2024-08-17T20:58:00+02:00",
        "2025-08-17T02:20:00+02:00",
    );
}

#[test]
fn test_ricordami_il_12_05_2025_alle_13_e_20() {
    assert_schedule_once(
        "Ricordami il 12/05/2025 alle 13 e 20",
        "2024-08-17T20:58:00+02:00",
        "2025-05-12T13:20:00+02:00",
    );
}

#[test]
fn test_ricordami_il_3_dicembre_alle_13_e_20() {
    assert_schedule_once(
        "Ricordami il 3 dicembre alle 13 e 20",
        "2024-08-17T20:58:00+02:00",
        "2024-12-03T13:20:00+01:00",
    );
}

#[test]
fn test_ricordami_il_3_dicembre_alle_13_20_ignores_minutes() {
    assert_schedule_once(
        "Ricordami il 3 dicembre alle 13 20",
        "2024-08-17T20:58:00+02:00",
        "2024-12-03T13:00:00+01:00",
    );
}

#[test]
fn test_ricordami_per_domani_does_not_work() {
    assert_schedule_once_none("Ricordami per domani", "2024-08-17T20:58:00+02:00");
}
