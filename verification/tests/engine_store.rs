//! Engine and store scenarios: one-shot reminders fire exactly once, two
//! reminders fire in tick order, a defused reminder never reaches the loop,
//! an expired insertion is rejected, and re-insertion keeps recurrences.

use chrono::DateTime;
use reminders::engine::ReminderEngine;
use reminders::grid::ScheduleGridBuilder;
use reminders::schedule::Schedule;
use reminders::store::InMemoryStorage;
use reminders::store::ReminderDefinition;
use reminders::tz::Zone;

fn micros(s: &str) -> i64 {
    DateTime::parse_from_rfc3339(s).unwrap().timestamp_micros()
}

fn base_now() -> i64 {
    micros("2024-08-17T20:58:00+02:00")
}

fn once_def(user: u64, when: i64, message: &str) -> ReminderDefinition {
    ReminderDefinition::new(Schedule::Once { when }, user, message.to_string())
}

#[test]
fn once_reminder_fires_exactly_once() {
    let now = base_now();
    let mut engine = ReminderEngine::new_and_init(Vec::new(), now);
    let def = once_def(7, now + 100_000, "drink water");
    let id = engine.add(def, now).expect("still ahead, must be accepted");
    let rem = engine.dequeue_next().expect("one reminder is scheduled");
    assert_eq!((7, id), rem.reminder_id());
    assert_eq!(Some(now + 100_000), rem.current_tick());
    assert_eq!("drink water", rem.message().as_str());
    let fired_at = now + 100_000;
    engine.advance(rem, fired_at);
    assert!(engine.dequeue_next().is_none(), "a one-shot reminder must not fire twice");
    assert!(engine.get(&7, &id).is_none());
}

#[test]
fn two_reminders_fire_in_tick_order() {
    let now = base_now();
    let mut engine = ReminderEngine::new_and_init(Vec::new(), now);
    let a = engine.add(once_def(7, now + 200_000, "a"), now).unwrap();
    let b = engine.add(once_def(7, now + 100_000, "b"), now).unwrap();
    let first = engine.dequeue_next().unwrap();
    assert_eq!((7, b), first.reminder_id(), "the earlier tick fires first");
    engine.advance(first, now + 100_000);
    let second = engine.dequeue_next().unwrap();
    assert_eq!((7, a), second.reminder_id());
    engine.advance(second, now + 200_000);
    assert!(engine.dequeue_next().is_none());
}

#[test]
fn defused_reminder_never_fires_and_reads_none() {
    let now = base_now();
    let mut engine = ReminderEngine::new_and_init(Vec::new(), now);
    let id = engine.add(once_def(9, now + 500_000, "never"), now).unwrap();
    assert!(engine.get(&9, &id).is_some());
    engine.defuse(&9, &id);
    assert!(engine.get(&9, &id).is_none(), "a defused reminder reads as gone");
    assert!(engine.dequeue_next().is_none(), "a defused reminder never reaches the loop");
}

#[test]
fn add_in_the_past_returns_none() {
    let now = base_now();
    let mut engine = ReminderEngine::new_and_init(Vec::new(), now);
    assert_eq!(None, engine.add(once_def(3, now - 1_000_000, "late"), now));
    assert_eq!(None, engine.add(once_def(3, now, "now itself is already past"), now));
    assert!(engine.dequeue_next().is_none());
}

#[test]
fn rollback_add_behaves_like_defuse() {
    let now = base_now();
    let mut engine = ReminderEngine::new_and_init(Vec::new(), now);
    let id = engine.add(once_def(4, now + 300_000, "to roll back"), now).unwrap();
    engine.rollback_add(4, id);
    assert!(engine.get(&4, &id).is_none());
    assert!(engine.dequeue_next().is_none());
}

#[test]
fn advance_reinserts_recurrent_reminders() {
    let now = base_now();
    let builder = ScheduleGridBuilder::new(Zone::rome());
    let grid = builder.build();
    let def = ReminderDefinition::new(
        Schedule::Recurrent { since: now, schedule: grid },
        5,
        "every minute".to_string(),
    );
    let mut engine = ReminderEngine::new_and_init(Vec::new(), now);
    let id = engine.add(def, now).unwrap();
    let first = engine.dequeue_next().expect("scheduled");
    let t1 = first.current_tick().unwrap();
    assert!(t1 > now);
    engine.advance(first, t1);
    let second = engine.dequeue_next().expect("a recurrence is not lost by advancing");
    assert_eq!((5, id), second.reminder_id());
    let t2 = second.current_tick().unwrap();
    assert!(t2 > t1, "the reminder moved to a strictly later tick");
}

#[test]
fn get_all_lists_only_live_reminders_of_the_user() {
    let now = base_now();
    let mut engine = ReminderEngine::new_and_init(Vec::new(), now);
    let a = engine.add(once_def(1, now + 100_000, "a"), now).unwrap();
    let b = engine.add(once_def(1, now + 200_000, "b"), now).unwrap();
    let _other = engine.add(once_def(2, now + 300_000, "other user"), now).unwrap();
    engine.defuse(&1, &b);
    let mine = engine.get_all(&1);
    assert_eq!(1, mine.len());
    assert_eq!((1, a), mine[0].reminder_id());
}

#[test]
fn new_and_init_loads_pending_records_and_skips_expired_ones() {
    let now = base_now();
    let records = vec![
        (once_def(8, now + 60_000_000, "pending"), 41),
        (once_def(8, now - 60_000_000, "expired"), 42),
    ];
    let mut engine = ReminderEngine::new_and_init(records, now);
    assert!(engine.get(&8, &41).is_some());
    assert!(engine.get(&8, &42).is_none(), "an expired record is not rehydrated");
    let rem = engine.dequeue_next().unwrap();
    assert_eq!((8, 41), rem.reminder_id());
}

#[test]
fn storage_insert_respects_preassigned_ids() {
    let now = base_now();
    let mut storage = InMemoryStorage::new();
    let id = storage
        .insert(once_def(6, now + 100_000, "boot"), now, Some(77))
        .expect("free id accepted");
    assert_eq!(77, id);
    assert!(
        storage.insert(once_def(6, now + 100_000, "boot again"), now, Some(77)).is_none(),
        "a colliding preassigned id is rejected"
    );
    assert!(storage.get(&6, &77).is_some());
}

#[test]
fn time_to_wait_is_never_negative() {
    assert_eq!(250_000u64, ReminderEngine::time_to_wait(1_000_250_000, 1_000_000_000));
    assert_eq!(0u64, ReminderEngine::time_to_wait(1_000_000_000, 1_000_250_000));
    assert_eq!(0u64, ReminderEngine::time_to_wait(1_000_000_000, 1_000_000_000));
}

#[test]
fn new_and_init_rejects_colliding_record_ids() {
    let now = base_now();
    let records = vec![
        (once_def(2, now + 60_000_000, "first"), 9),
        (once_def(2, now + 120_000_000, "same id again"), 9),
    ];
    let mut engine = ReminderEngine::new_and_init(records, now);
    let rem = engine.get(&2, &9).expect("the first record is loaded");
    assert_eq!(Some(now + 60_000_000), rem.current_tick(), "the first record wins the id");
    let first = engine.dequeue_next().unwrap();
    engine.advance(first, now + 60_000_000);
    assert!(engine.dequeue_next().is_none(), "the colliding record was not loaded");
}
