//! The engine core: the verified decisions of the reminder loop. An event
//! loop around it blocks on a signal channel when nothing is scheduled,
//! sleeps until the earliest tick otherwise, fires the callback when the
//! sleep runs out, and always re-inserts through [`ReminderEngine::advance`].
//! Durable writes happen outside; their outcome comes back as a plain `bool`
//! and decides between keeping and rolling back an insertion.

use vstd::prelude::*;

use crate::civil;
use crate::schedule::Schedule;
use crate::store::InMemoryStorage;
use crate::store::Reminder;
use crate::store::ReminderDefinition;
use crate::store::ReminderState;
use crate::store::en_key;
use crate::store::st_key;

verus! {

/// What the signal channel carries to the loop.
pub enum EngineMessage {
    WakeUp,
    Stop,
}

/// The external sink a firing is handed to.
pub trait ReminderCallback {
    fn call(&self, user: u64, reminder_id: i32, message: &String);
}

pub trait TimeProvider {
    fn now(&self) -> i64;
}

/// The wall clock.
pub struct ChronoTimeProvider {}

impl ChronoTimeProvider {
    /// Relies on `chrono::Utc::now`: the system clock, in whole microseconds.
    #[verifier::external_body]
    pub(crate) fn now_micros() -> i64 {
        chrono::Utc::now().timestamp_micros()
    }
}

impl TimeProvider for ChronoTimeProvider {
    fn now(&self) -> i64 {
        ChronoTimeProvider::now_micros()
    }
}

/// No earlier stored record claims record `j`'s `(user, id)` key.
pub open spec fn record_key_fresh(records: Seq<(ReminderDefinition, i32)>, j: int) -> bool {
    forall|j2: int|
        0 <= j2 < j ==> !((#[trigger] records[j2]).0.user_id == records[j].0.user_id
            && records[j2].1 == records[j].1)
}

pub struct ReminderEngine {
    storage: InMemoryStorage,
}

impl ReminderEngine {
    pub closed spec fn storage(&self) -> InMemoryStorage {
        self.storage
    }

    pub open spec fn wf(&self) -> bool {
        self.storage().wf() && self.storage().fully_scheduled()
    }

    /// Builds an engine from the durably stored records: every record whose
    /// schedule still has a tick after `now` is scheduled under its stored
    /// id, except one whose key an earlier record already claimed; records
    /// with no tick left are skipped, and nothing else is loaded.
    pub fn new_and_init(records: Vec<(ReminderDefinition, i32)>, now: i64) -> (r: ReminderEngine)
        requires
            forall|j: int| 0 <= j < records@.len() ==> (#[trigger] records@[j]).0.wf(),
            civil::valid_instant(now as int),
        ensures
            r.wf(),
            forall|st: ReminderState|
                r.storage().spec_states().contains(st) ==> !st.defused && exists|j: int|
                    0 <= j < records@.len() && (#[trigger] records@[j]).0 == st.definition && records@[j].1
                        == st.id,
            forall|j: int|
                0 <= j < records@.len() && !(#[trigger] records@[j]).0.schedule.no_tick_of(
                    now as int,
                ) && record_key_fresh(records@, j) ==> r.storage().has_state_key(
                    records@[j].0.user_id,
                    records@[j].1,
                ),
    {
        let ghost orig = records@;
        let mut records = records;
        let mut storage = InMemoryStorage::new();
        let ghost mut k: int = 0;
        while records.len() > 0
            invariant
                storage.wf(),
                storage.fully_scheduled(),
                civil::valid_instant(now as int),
                0 <= k <= orig.len(),
                records@ == orig.skip(k),
                forall|j: int| 0 <= j < orig.len() ==> (#[trigger] orig[j]).0.wf(),
                forall|st: ReminderState|
                    storage.spec_states().contains(st) ==> !st.defused && exists|j: int|
                        0 <= j < k && (#[trigger] orig[j]).0 == st.definition && orig[j].1
                            == st.id,
                forall|uq: u64, iq: i32|
                    storage.has_queue_key(uq, iq) ==> storage.has_state_key(uq, iq),
                forall|j: int|
                    0 <= j < k && !(#[trigger] orig[j]).0.schedule.no_tick_of(now as int)
                        && record_key_fresh(orig, j) ==> storage.has_state_key(
                        orig[j].0.user_id,
                        orig[j].1,
                    ),
            decreases records@.len(),
        {
            let ghost prev = storage;
            let (definition, id) = records.remove(0);
            proof {
                assert(definition == orig[k].0 && id == orig[k].1);
                assert(definition.wf());
                k = k + 1;
                assert(orig.skip(k - 1).remove(0) =~= orig.skip(k));
            }
            let inserted = storage.insert(definition, now, Some(id));
            proof {
                assert forall|st: ReminderState|
                    storage.spec_states().contains(st) implies !st.defused && exists|j: int|
                    0 <= j < k && (#[trigger] orig[j]).0 == st.definition && orig[j].1 == st.id by {
                    if !prev.spec_states().contains(st) {
                        let j2 = choose|j2: int|
                            0 <= j2 < storage.spec_states().len() && storage.spec_states()[j2]
                                == st;
                        if j2 < storage.spec_states().len() - 1 && storage.spec_states()
                            != prev.spec_states() {
                            assert(prev.spec_states()[j2] == st);
                        }
                        assert((#[trigger] orig[k - 1]).0 == st.definition && orig[k - 1].1
                            == st.id && !st.defused);
                    }
                }
                // Keys already stored survive the insertion untouched.
                assert forall|uq: u64, iq: i32|
                    prev.has_state_key(uq, iq) implies storage.has_state_key(uq, iq) by {
                    let si = choose|si: int|
                        0 <= si < prev.spec_states().len() && st_key(
                            #[trigger] prev.spec_states()[si],
                        ) == (uq, iq);
                    assert(storage.spec_states()[si] == prev.spec_states()[si]);
                }
                // Every queued key still has its state: the one insertion
                // pushes a state and an entry with the same key.
                assert forall|uq: u64, iq: i32|
                    storage.has_queue_key(uq, iq) implies storage.has_state_key(uq, iq) by {
                    let qi = choose|qi: int|
                        0 <= qi < storage.spec_queue().len() && en_key(
                            #[trigger] storage.spec_queue()[qi],
                        ) == (uq, iq);
                    if qi < prev.spec_queue().len() && storage.spec_queue()
                        != prev.spec_queue() {
                        assert(prev.spec_queue()[qi] == storage.spec_queue()[qi]);
                        assert(prev.has_queue_key(uq, iq));
                    } else if storage.spec_queue() == prev.spec_queue() {
                        assert(prev.has_queue_key(uq, iq));
                    } else {
                        assert(st_key(
                            storage.spec_states()[storage.spec_states().len() - 1],
                        ) == (uq, iq));
                    }
                }
                // The record just handled is now scheduled, unless it was
                // expired or its key was already claimed by an earlier one.
                assert forall|j: int|
                    0 <= j < k && !(#[trigger] orig[j]).0.schedule.no_tick_of(now as int)
                        && record_key_fresh(orig, j) implies storage.has_state_key(
                    orig[j].0.user_id,
                    orig[j].1,
                ) by {
                    if j < k - 1 {
                        assert(prev.has_state_key(orig[j].0.user_id, orig[j].1));
                    } else {
                        if inserted is None {
                            assert(prev.has_state_key(definition.user_id, id)
                                || prev.has_queue_key(definition.user_id, id));
                            if prev.has_queue_key(definition.user_id, id) {
                                assert(prev.has_state_key(definition.user_id, id));
                            }
                            let si = choose|si: int|
                                0 <= si < prev.spec_states().len() && st_key(
                                    #[trigger] prev.spec_states()[si],
                                ) == (definition.user_id, id);
                            assert(prev.spec_states().contains(prev.spec_states()[si]));
                            let j2 = choose|j2: int|
                                0 <= j2 < k - 1 && (#[trigger] orig[j2]).0
                                    == prev.spec_states()[si].definition && orig[j2].1
                                    == prev.spec_states()[si].id;
                            assert(orig[j2].0.user_id == orig[j].0.user_id && orig[j2].1
                                == orig[j].1);
                        } else {
                            assert(st_key(
                                storage.spec_states()[storage.spec_states().len() - 1],
                            ) == (definition.user_id, id));
                        }
                    }
                }
            }
        }
        ReminderEngine { storage }
    }

    /// Schedules a definition in memory under a fresh id. The caller then
    /// writes it durably and, on failure, rolls back with
    /// [`ReminderEngine::rollback_add`]. An already expired schedule is
    /// rejected with `None` and nothing is stored.
    pub fn add(&mut self, def: ReminderDefinition, now: i64) -> (r: Option<i32>)
        requires
            old(self).wf(),
            def.wf(),
            civil::valid_instant(now as int),
        ensures
            final(self).wf(),
            r is None ==> *final(self) == *old(self),
            def.schedule.no_tick_of(now as int) ==> r is None,
            match r {
                Some(id) => exists|u: i64|
                    #[trigger] def.schedule.tick_of(now as int, u as int) && u > now && final(
                    self).storage().spec_states().contains(
                        ReminderState { id, definition: def, current_tick: Some(u), defused: false },
                    ),
                None => def.schedule.no_tick_of(now as int) || old(
                    self,
                ).storage().spec_states().len() + old(self).storage().spec_queue().len()
                    >= 0x7ffffffe,
            },
    {
        let ghost prev = self.storage;
        let r = self.storage.insert(def, now, None);
        proof {
            match r {
                Some(id) => {
                    let u = choose|u: i64|
                        #[trigger] def.schedule.tick_of(now as int, u as int) && u > now
                            && self.storage.spec_states() == prev.spec_states().push(
                            ReminderState {
                                id,
                                definition: def,
                                current_tick: Some(u),
                                defused: false,
                            },
                        ) && self.storage.spec_queue() == prev.spec_queue().push(
                            crate::store::HeapEntry { user_id: def.user_id, id, next_tick: u },
                        );
                    let st = ReminderState {
                        id,
                        definition: def,
                        current_tick: Some(u),
                        defused: false,
                    };
                    assert(self.storage.spec_states()[self.storage.spec_states().len() - 1] == st);
                    assert(self.storage.spec_states().contains(st));
                }
                None => {}
            }
        }
        r
    }

    /// Undoes the in-memory half of an `add` whose durable write failed.
    pub fn rollback_add(&mut self, user_id: u64, id: i32)
        requires
            old(self).wf(),
        ensures
            final(self).wf(),
            forall|st: ReminderState|
                final(self).storage().spec_states().contains(st) && !st.defused ==> old(self).storage().spec_states().contains(st) && st_key(st) != (user_id, id),
            forall|st: ReminderState|
                old(self).storage().spec_states().contains(st) && st_key(st) != (user_id, id)
                    ==> final(self).storage().spec_states().contains(st),
            forall|st: ReminderState|
                old(self).storage().spec_states().contains(st) && st_key(st) == (user_id, id)
                    ==> final(self).storage().spec_states().contains(
                    ReminderState {
                        id: st.id,
                        definition: st.definition,
                        current_tick: st.current_tick,
                        defused: true,
                    },
                ),
            !old(self).storage().has_state_key(user_id, id) ==> *final(self) == *old(self),
            final(self).storage().spec_queue() == old(self).storage().spec_queue(),
    {
        self.storage.defuse(&user_id, &id);
    }

    /// Marks a reminder as cancelled in memory; the caller deletes it durably
    /// first and calls this only on success.
    pub fn defuse(&mut self, user_id: &u64, id: &i32)
        requires
            old(self).wf(),
        ensures
            final(self).wf(),
            forall|st: ReminderState|
                final(self).storage().spec_states().contains(st) && !st.defused ==> old(self).storage().spec_states().contains(st) && st_key(st) != (*user_id, *id),
            forall|st: ReminderState|
                old(self).storage().spec_states().contains(st) && st_key(st) != (*user_id, *id)
                    ==> final(self).storage().spec_states().contains(st),
            forall|st: ReminderState|
                old(self).storage().spec_states().contains(st) && st_key(st) == (*user_id, *id)
                    ==> final(self).storage().spec_states().contains(
                    ReminderState {
                        id: st.id,
                        definition: st.definition,
                        current_tick: st.current_tick,
                        defused: true,
                    },
                ),
            !old(self).storage().has_state_key(*user_id, *id) ==> *final(self) == *old(self),
            final(self).storage().spec_queue() == old(self).storage().spec_queue(),
    {
        self.storage.defuse(user_id, id);
    }

    /// The earliest scheduled live reminder, for the loop to sleep towards.
    pub fn dequeue_next(&mut self) -> (r: Option<Reminder>)
        requires
            old(self).wf(),
        ensures
            final(self).wf(),
            old(self).storage().preserves_states(&final(self).storage()),
            match r {
                Some(rem) => final(self).storage().snapshot_in(rem) && rem.current_tick is Some
                    && (forall|e: crate::store::HeapEntry|
                    final(self).storage().spec_queue().contains(e) && final(self).storage().entry_live(e) ==> (rem.current_tick matches Some(t) && t
                        <= e.next_tick)),
                None => final(self).storage().spec_queue().len() == 0,
            },
    {
        self.storage.dequeue_next()
    }

    /// Re-inserts a fired (or preempted) reminder at its next tick after
    /// `then`, or drops it when its schedule is exhausted or it was defused.
    pub fn advance(&mut self, reminder: Reminder, then: i64)
        requires
            old(self).wf(),
            civil::valid_instant(then as int),
        ensures
            final(self).wf(),
            forall|st: ReminderState|
                old(self).storage().spec_states().contains(st) && st_key(st) == (
                    reminder.user_id,
                    reminder.id,
                ) && !st.defused ==> ((exists|u: i64|
                    u > then && #[trigger] st.definition.schedule.tick_of(then as int, u as int)
                        && final(self).storage().spec_states().contains(
                        ReminderState {
                            id: st.id,
                            definition: st.definition,
                            current_tick: Some(u),
                            defused: st.defused,
                        },
                    )) || (st.definition.schedule.no_tick_of(then as int) && !final(self).storage().has_state_key(reminder.user_id, reminder.id))),
            forall|st: ReminderState|
                old(self).storage().spec_states().contains(st) && st_key(st) != (
                    reminder.user_id,
                    reminder.id,
                ) ==> final(self).storage().spec_states().contains(st),
            forall|st: ReminderState|
                final(self).storage().spec_states().contains(st) && st_key(st) != (
                    reminder.user_id,
                    reminder.id,
                ) ==> old(self).storage().spec_states().contains(st),
            forall|st: ReminderState|
                old(self).storage().spec_states().contains(st) && st_key(st) == (
                    reminder.user_id,
                    reminder.id,
                ) && st.defused ==> !final(self).storage().has_state_key(
                    reminder.user_id,
                    reminder.id,
                ),
            !old(self).storage().has_state_key(reminder.user_id, reminder.id) ==> *final(self)
                == *old(self),
    {
        self.storage.advance(reminder, then);
    }

    pub fn get(&self, user_id: &u64, reminder_id: &i32) -> (r: Option<Reminder>)
        requires
            self.wf(),
        ensures
            match r {
                Some(rem) => self.storage().snapshot_in(rem) && rem.user_id == *user_id && rem.id
                    == *reminder_id,
                None => forall|st: ReminderState|
                    self.storage().spec_states().contains(st) && st_key(st) == (
                        *user_id,
                        *reminder_id,
                    ) ==> st.defused,
            },
    {
        self.storage.get(user_id, reminder_id)
    }

    pub fn get_all(&self, user_id: &u64) -> (r: Vec<Reminder>)
        requires
            self.wf(),
        ensures
            forall|j: int|
                0 <= j < r@.len() ==> self.storage().snapshot_in(#[trigger] r@[j]) && r@[j].user_id
                    == *user_id,
            forall|i: int|
                0 <= i < self.storage().spec_states().len() && (
                #[trigger] self.storage().spec_states()[i]).definition.user_id == *user_id
                    && !self.storage().spec_states()[i].defused ==> exists|j: int|
                    0 <= j < r@.len() && #[trigger] r@[j].id
                        == self.storage().spec_states()[i].id,
            forall|j1: int, j2: int| 0 <= j1 < j2 < r@.len() ==> r@[j1].id != r@[j2].id,
    {
        self.storage.get_all(user_id)
    }

    /// How long the loop sleeps before a tick: never negative, and exactly
    /// the distance when the tick is still ahead.
    pub fn time_to_wait(target: i64, now: i64) -> (r: u64)
        requires
            now >= 0,
        ensures
            r as int == if target > now {
                target - now
            } else {
                0
            },
    {
        if target > now {
            (target - now) as u64
        } else {
            0
        }
    }
}

/// A schedule that fires once never yields a tick at or past its instant:
/// together with `advance`, which drops a reminder whose schedule has no
/// tick left, the engine fires a one-shot reminder at most once.
pub proof fn lemma_once_fires_at_most_once(s: Schedule, when: i64, then: int)
    requires
        s == (Schedule::Once { when }),
        then >= when,
    ensures
        s.no_tick_of(then),
        forall|u: int| !s.tick_of(then, u),
{
}

/// A defused reminder is never what `dequeue_next` hands to the loop: no
/// snapshot reads a key whose every state is defused.
pub proof fn lemma_defused_never_dequeued(s: &InMemoryStorage, rem: Reminder)
    requires
        forall|st: ReminderState|
            s.spec_states().contains(st) && st_key(st) == (rem.user_id, rem.id) ==> st.defused,
    ensures
        !s.snapshot_in(rem),
{
    if s.snapshot_in(rem) {
        let i = choose|i: int|
            0 <= i < s.spec_states().len() && st_key(#[trigger] s.spec_states()[i]) == (
            rem.user_id,
            rem.id,
        ) && !s.spec_states()[i].defused && rem.current_tick == s.spec_states()[i].current_tick
            && rem.message == s.spec_states()[i].definition.message;
        assert(s.spec_states().contains(s.spec_states()[i]));
    }
}

} // verus!
