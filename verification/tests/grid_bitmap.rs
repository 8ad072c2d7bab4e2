//! Grid boundary behavior, bitmap semantics and the byte round trip, the
//! durable record round trip, and the user records.

use chrono::DateTime;
use reminders::bitmap::Bitmap;
use reminders::durable::durable_to_reminder;
use reminders::durable::reminder_to_durable;
use reminders::grid::ScheduleGridBuilder;
use reminders::schedule::Schedule;
use reminders::store::ReminderDefinition;
use reminders::tz::Zone;
use reminders::users::User;
use reminders::users::UserId;

fn micros(s: &str) -> i64 {
    DateTime::parse_from_rfc3339(s).unwrap().timestamp_micros()
}

#[test]
fn all_set_grid_fires_every_minute() {
    let grid = ScheduleGridBuilder::new(Zone::rome()).build();
    let mut t = micros("2024-08-17T20:58:30+02:00");
    let mut expected = micros("2024-08-17T20:59:00+02:00");
    for _ in 0..5 {
        let next = grid.next_scheduled_after(t).expect("an unconstrained grid always fires");
        assert_eq!(expected, next);
        t = next;
        expected += 60_000_000;
    }
}

#[test]
fn impossible_date_grid_gives_up_after_the_year_bound() {
    let mut builder = ScheduleGridBuilder::new(Zone::rome());
    builder.with_days_of_month(vec![30]);
    builder.with_months(vec![2]);
    let grid = builder.build();
    assert_eq!(None, grid.next_scheduled_after(micros("2024-08-17T20:58:00+02:00")));
}

#[test]
fn ambiguous_dst_minute_is_skipped() {
    // Rome turns its clocks back on 2024-10-27: 02:30 shows twice that day.
    let mut builder = ScheduleGridBuilder::new(Zone::rome());
    builder.with_hours(vec![2]);
    builder.with_minutes(vec![30]);
    builder.with_days_of_month(vec![27]);
    builder.with_months(vec![10]);
    let grid = builder.build();
    let next = grid.next_scheduled_after(micros("2024-10-26T12:00:00+02:00")).unwrap();
    assert_eq!(micros("2025-10-27T02:30:00+01:00"), next, "the duplicated reading is skipped");
}

#[test]
fn skipped_dst_minute_is_skipped() {
    // Rome turns its clocks forward on 2025-03-30: 02:30 never shows that day.
    let mut builder = ScheduleGridBuilder::new(Zone::rome());
    builder.with_hours(vec![2]);
    builder.with_minutes(vec![30]);
    builder.with_days_of_month(vec![30]);
    builder.with_months(vec![3]);
    let grid = builder.build();
    let next = grid.next_scheduled_after(micros("2025-03-29T12:00:00+01:00")).unwrap();
    assert_eq!(micros("2026-03-30T02:30:00+02:00"), next, "the missing reading is skipped");
}

#[test]
fn once_schedule_next_tick_is_exact() {
    let when = micros("2024-08-17T20:58:00+02:00");
    let s = Schedule::Once { when };
    assert_eq!(Some(when), s.next_tick(when - 1));
    assert_eq!(None, s.next_tick(when));
    assert_eq!(None, s.next_tick(when + 1));
}

#[test]
fn bitmap_set_get_unset() {
    let mut b = Bitmap::of_size(60);
    assert!(!b.get(13));
    b.set(13);
    assert!(b.get(13));
    assert!(!b.get(12));
    b.unset(13);
    assert!(!b.get(13));
    b.set(500);
    assert!(!b.get(500), "writes outside the width are ignored");
    assert!(!b.get(100000), "reads outside the width are false");
}

#[test]
fn bitmap_navigation() {
    let b = Bitmap::explicitly_set(31, vec![4, 9, 30]);
    assert_eq!(Some(4), b.first_set());
    assert_eq!(Some(9), b.next_set(4));
    assert_eq!(Some(30), b.next_set(9));
    assert_eq!(None, b.next_set(30));
    assert_eq!(vec![9usize, 30], b.iter(4));
}

#[test]
fn bitmap_byte_round_trip() {
    let widths_and_bits: Vec<(usize, Vec<usize>)> = vec![
        (8, vec![0, 7]),
        (16, vec![3, 15]),
        (31, vec![0, 13, 30]),
        (60, vec![0, 42, 59]),
        (130, vec![1, 64, 129]),
    ];
    for (width, bits) in widths_and_bits {
        let b = Bitmap::explicitly_set(width, bits.clone());
        let bytes = b.to_bytes();
        let back = Bitmap::from_bytes(&bytes);
        assert_eq!(b.len(), back.len());
        for i in 0..b.len() {
            assert_eq!(b.get(i), back.get(i), "bit {i} after the round trip, width {width}");
        }
        for bit in bits {
            assert!(back.get(bit));
        }
    }
}

#[test]
fn durable_record_round_trip() {
    let now = micros("2024-08-17T20:58:00+02:00");
    let tokens: Vec<&str> =
        "Ricordami ogni venerdì alle 18 dal 29 agosto al 26 ottobre".split(' ').collect();
    let schedule = reminders::parsing::try_parse(tokens, now).unwrap();
    let def = ReminderDefinition::new(schedule, 11, "ciao".to_string());
    let record = reminder_to_durable(&def, 23);
    let (back, id) = durable_to_reminder(&record).expect("a written record restores");
    assert_eq!(23, id);
    assert_eq!(11, back.user_id());
    assert_eq!("ciao", back.message());
    assert_eq!(def.next_tick(now), back.next_tick(now), "the restored schedule ticks alike");
    let t1 = def.next_tick(now).unwrap();
    assert_eq!(def.next_tick(t1), back.next_tick(t1));
}

#[test]
fn user_records() {
    let simple = User::SimpleUser { id: UserId(42) };
    assert_eq!(UserId(42), simple.id());
    assert_eq!("User 42", simple.name());
    assert!(!simple.is_super_user());
    let boss = User::SuperUser { id: UserId(1), powers: () };
    assert_eq!("Signore", boss.name());
    assert!(boss.is_super_user());
    let named = User::NamedUser { id: UserId(3), name: "Gio".to_string() };
    assert_eq!("Gio", named.name());
    assert!(!named.is_super_user());
}

#[test]
fn bare_time_means_today_or_tomorrow() {
    let now = micros("2024-08-17T20:58:00+02:00");
    let tokens: Vec<&str> = "Ricordami alle 14".split(' ').collect();
    match reminders::parsing::try_parse(tokens, now) {
        Some(Schedule::Once { when }) => {
            assert_eq!(micros("2024-08-18T14:00:00+02:00"), when, "already past, so tomorrow");
        }
        _ => panic!("expected Once"),
    }
    let tokens: Vec<&str> = "Ricordami alle 22".split(' ').collect();
    match reminders::parsing::try_parse(tokens, now) {
        Some(Schedule::Once { when }) => {
            assert_eq!(micros("2024-08-17T22:00:00+02:00"), when, "not yet passed, so today");
        }
        _ => panic!("expected Once"),
    }
}

#[test]
fn unrestorable_records_are_rejected() {
    let now = micros("2024-08-17T20:58:00+02:00");
    let grid = ScheduleGridBuilder::new(Zone::rome()).build();
    let def = ReminderDefinition::new(
        Schedule::Recurrent { since: now, schedule: grid },
        1,
        "x".to_string(),
    );
    let mut record = reminder_to_durable(&def, 5);
    match &mut record.schedule {
        reminders::durable::DurableSchedule::Recurrent { schedule, .. } => {
            schedule.timezone = "Nowhere/Special".to_string();
        }
        _ => panic!("expected a recurrent record"),
    }
    assert!(durable_to_reminder(&record).is_none(), "an unknown zone cannot be restored");

    let mut record2 = reminder_to_durable(&def, 6);
    match &mut record2.schedule {
        reminders::durable::DurableSchedule::Recurrent { schedule, .. } => {
            schedule.year_cadence = 0;
        }
        _ => panic!("expected a recurrent record"),
    }
    assert!(durable_to_reminder(&record2).is_none(), "a zero cadence cannot be restored");
}

#[test]
fn zone_lookup_follows_the_database() {
    assert!(Zone::from_name("Europe/Rome").is_some());
    assert!(Zone::from_name("America/New_York").is_some());
    assert!(Zone::from_name("Nowhere/Special").is_none());
    assert_eq!("Europe/Rome", Zone::rome().name().as_str());
}

#[test]
fn decoding_infers_the_smallest_width() {
    assert_eq!(8, Bitmap::from_bytes(&vec![0xffu8]).len());
    assert_eq!(16, Bitmap::from_bytes(&vec![1u8, 2]).len());
    assert_eq!(32, Bitmap::from_bytes(&vec![1u8, 2, 3]).len());
    assert_eq!(32, Bitmap::from_bytes(&vec![1u8, 2, 3, 4]).len());
    assert_eq!(64, Bitmap::from_bytes(&vec![1u8, 2, 3, 4, 5]).len());
    let b = Bitmap::from_bytes(&vec![0b0000_0101u8, 0b1000_0000, 0, 0, 0]);
    assert!(b.get(0) && !b.get(1) && b.get(2) && b.get(15));
}

#[test]
fn until_bound_is_exclusive() {
    let now = micros("2024-08-17T20:58:00+02:00");
    let grid = ScheduleGridBuilder::new(Zone::rome()).build();
    let next_minute = micros("2024-08-17T20:59:00+02:00");
    let s = Schedule::RecurrentUntil { since: now, until: next_minute, schedule: grid };
    assert_eq!(None, s.next_tick(now), "a tick at the bound is already out");
}
