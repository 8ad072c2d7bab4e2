//! Reminder records and the in-memory store: a pool of scheduled entries
//! keyed by next firing instant, plus per-reminder state with a defuse flag.
//!
//! Dequeuing returns the earliest live entry; entries whose state is gone or
//! defused are tombstones, silently dropped when encountered. A `(user, id)`
//! pair keys at most one state and at most one entry at any moment, and every
//! live state is scheduled — except, between a dequeue and the advance that
//! re-inserts it, the one reminder being fired.

use vstd::prelude::*;
use vstd::assert_by_contradiction;

use crate::civil;
use crate::schedule::Schedule;

verus! {

pub struct ReminderDefinition {
    pub schedule: Schedule,
    pub user_id: u64,
    pub message: String,
}

impl ReminderDefinition {
    pub open spec fn wf(&self) -> bool {
        self.schedule.wf()
    }

    pub fn new(schedule: Schedule, user_id: u64, message: String) -> (r: ReminderDefinition)
        ensures
            r.schedule == schedule,
            r.user_id == user_id,
            r.message == message,
    {
        ReminderDefinition { schedule, user_id, message }
    }

    pub fn next_tick(&self, now: i64) -> (r: Option<i64>)
        requires
            self.wf(),
            civil::valid_instant(now as int),
        ensures
            match r {
                Some(u) => self.schedule.tick_of(now as int, u as int) && u > now,
                None => self.schedule.no_tick_of(now as int),
            },
    {
        self.schedule.next_tick(now)
    }

    pub fn user_id(&self) -> (r: u64)
        ensures
            r == self.user_id,
    {
        self.user_id
    }

    pub fn message(&self) -> (r: &String)
        ensures
            r == &self.message,
    {
        &self.message
    }

    pub fn schedule(&self) -> (r: &Schedule)
        ensures
            r == &self.schedule,
    {
        &self.schedule
    }

    /// A copy that behaves identically: same user, same message, and a
    /// schedule with the same instants, bits and scalars.
    pub fn duplicate(&self) -> (r: ReminderDefinition)
        requires
            self.wf(),
        ensures
            r.wf(),
            r.user_id == self.user_id,
            r.message == self.message,
            match (&self.schedule, &r.schedule) {
                (Schedule::Once { when }, Schedule::Once { when: when2 }) => when == when2,
                (
                    Schedule::Recurrent { since, schedule },
                    Schedule::Recurrent { since: since2, schedule: schedule2 },
                ) => since == since2 && crate::durable::grids_agree(schedule, schedule2),
                (
                    Schedule::RecurrentUntil { since, until, schedule },
                    Schedule::RecurrentUntil {
                        since: since2,
                        until: until2,
                        schedule: schedule2,
                    },
                ) => since == since2 && until == until2 && crate::durable::grids_agree(
                    schedule,
                    schedule2,
                ),
                _ => false,
            },
    {
        ReminderDefinition {
            schedule: self.schedule.duplicate(),
            user_id: self.user_id,
            message: self.message.clone(),
        }
    }
}

/// A read-only snapshot of one stored reminder.
pub struct Reminder {
    pub user_id: u64,
    pub id: i32,
    pub current_tick: Option<i64>,
    pub message: String,
}

impl Reminder {
    pub fn new(user_id: u64, id: i32, current_tick: Option<i64>, message: String) -> (r: Reminder)
        ensures
            r.user_id == user_id,
            r.id == id,
            r.current_tick == current_tick,
            r.message == message,
    {
        Reminder { user_id, id, current_tick, message }
    }

    pub fn reminder_id(&self) -> (r: (u64, i32))
        ensures
            r.0 == self.user_id,
            r.1 == self.id,
    {
        (self.user_id, self.id)
    }

    pub fn current_tick(&self) -> (r: Option<i64>)
        ensures
            r == self.current_tick,
    {
        self.current_tick
    }

    pub fn message(&self) -> (r: &String)
        ensures
            r == &self.message,
    {
        &self.message
    }
}

/// The stored state of one reminder.
pub struct ReminderState {
    pub id: i32,
    pub definition: ReminderDefinition,
    pub current_tick: Option<i64>,
    pub defused: bool,
}

impl ReminderState {
    pub open spec fn wf(&self) -> bool {
        self.definition.wf()
    }

    /// Moves the stored tick to the next one strictly after `then`; a state
    /// whose tick was already exhausted stays exhausted.
    pub fn fast_forward_after(&mut self, then: i64) -> (r: Option<i64>)
        requires
            old(self).wf(),
            civil::valid_instant(then as int),
        ensures
            final(self).id == old(self).id,
            final(self).definition == old(self).definition,
            final(self).defused == old(self).defused,
            final(self).current_tick == r,
            match old(self).current_tick {
                None => r is None,
                Some(_) => match r {
                    Some(u) => old(self).definition.schedule.tick_of(then as int, u as int) && u
                        > then,
                    None => old(self).definition.schedule.no_tick_of(then as int),
                },
            },
    {
        let next = if self.current_tick.is_some() {
            self.definition.next_tick(then)
        } else {
            None
        };
        self.current_tick = next;
        next
    }

    pub fn defuse(&mut self)
        ensures
            final(self).id == old(self).id,
            final(self).definition == old(self).definition,
            final(self).current_tick == old(self).current_tick,
            final(self).defused,
    {
        self.defused = true;
    }

    /// The next firing instant, masked once the state is defused.
    pub fn current_tick(&self) -> (r: Option<i64>)
        ensures
            r == if self.defused {
                None
            } else {
                self.current_tick
            },
    {
        if self.defused {
            None
        } else {
            self.current_tick
        }
    }

    pub fn reminder_id(&self) -> (r: (u64, i32))
        ensures
            r.0 == self.definition.user_id,
            r.1 == self.id,
    {
        (self.definition.user_id, self.id)
    }
}

/// One scheduled firing: the key of a reminder and its next instant.
pub struct HeapEntry {
    pub user_id: u64,
    pub id: i32,
    pub next_tick: i64,
}

pub open spec fn st_key(st: ReminderState) -> (u64, i32) {
    (st.definition.user_id, st.id)
}

pub open spec fn en_key(e: HeapEntry) -> (u64, i32) {
    (e.user_id, e.id)
}

pub struct InMemoryStorage {
    queue: Vec<HeapEntry>,
    states: Vec<ReminderState>,
}

impl InMemoryStorage {
    pub closed spec fn spec_states(&self) -> Seq<ReminderState> {
        self.states@
    }

    pub closed spec fn spec_queue(&self) -> Seq<HeapEntry> {
        self.queue@
    }

    /// Structural soundness: unique keys on both sides, well-formed
    /// definitions, every state carrying a tick, and every entry agreeing
    /// with its state's tick.
    pub open spec fn wf(&self) -> bool {
        &&& forall|i: int, j: int|
            0 <= i < j < self.spec_states().len() ==> st_key(#[trigger] self.spec_states()[i])
                != st_key(#[trigger] self.spec_states()[j])
        &&& forall|i: int, j: int|
            0 <= i < j < self.spec_queue().len() ==> en_key(#[trigger] self.spec_queue()[i])
                != en_key(#[trigger] self.spec_queue()[j])
        &&& forall|i: int|
            0 <= i < self.spec_states().len() ==> (#[trigger] self.spec_states()[i]).wf()
                && self.spec_states()[i].current_tick is Some
        &&& forall|i: int, j: int|
            0 <= i < self.spec_queue().len() && 0 <= j < self.spec_states().len() && en_key(
                #[trigger] self.spec_queue()[i],
            ) == st_key(#[trigger] self.spec_states()[j]) ==> self.spec_states()[j].current_tick
                == Some(self.spec_queue()[i].next_tick)
    }

    pub open spec fn has_state_key(&self, user_id: u64, id: i32) -> bool {
        exists|i: int|
            0 <= i < self.spec_states().len() && st_key(#[trigger] self.spec_states()[i]) == (
            user_id,
            id,
        )
    }

    pub open spec fn has_queue_key(&self, user_id: u64, id: i32) -> bool {
        exists|i: int|
            0 <= i < self.spec_queue().len() && en_key(#[trigger] self.spec_queue()[i]) == (
            user_id,
            id,
        )
    }

    /// Every live state is scheduled, except possibly the one given key
    /// (the reminder checked out between a dequeue and its advance).
    pub open spec fn fully_scheduled_except(&self, eu: u64, ei: i32) -> bool {
        forall|i: int|
            0 <= i < self.spec_states().len() && !(#[trigger] self.spec_states()[i]).defused
                && st_key(self.spec_states()[i]) != (eu, ei) ==> exists|qi: int|
                0 <= qi < self.spec_queue().len() && en_key(#[trigger] self.spec_queue()[qi])
                    == st_key(self.spec_states()[i]) && Some(self.spec_queue()[qi].next_tick)
                    == self.spec_states()[i].current_tick
    }

    /// Every live state is scheduled: the store's resting invariant.
    pub open spec fn fully_scheduled(&self) -> bool {
        forall|i: int|
            0 <= i < self.spec_states().len() && !(#[trigger] self.spec_states()[i]).defused
                ==> exists|qi: int|
                0 <= qi < self.spec_queue().len() && en_key(#[trigger] self.spec_queue()[qi])
                    == st_key(self.spec_states()[i]) && Some(self.spec_queue()[qi].next_tick)
                    == self.spec_states()[i].current_tick
    }

    /// A snapshot reads back some live state of the store.
    pub open spec fn snapshot_in(&self, rem: Reminder) -> bool {
        exists|i: int|
            0 <= i < self.spec_states().len() && st_key(#[trigger] self.spec_states()[i]) == (
            rem.user_id,
            rem.id,
        ) && !self.spec_states()[i].defused && rem.current_tick
            == self.spec_states()[i].current_tick && rem.message
            == self.spec_states()[i].definition.message
    }

    /// An entry whose reminder is still live (not a tombstone).
    pub open spec fn entry_live(&self, e: HeapEntry) -> bool {
        exists|i: int|
            0 <= i < self.spec_states().len() && st_key(#[trigger] self.spec_states()[i]) == en_key(
                e,
            ) && !self.spec_states()[i].defused
    }

    pub fn new() -> (r: InMemoryStorage)
        ensures
            r.wf(),
            r.fully_scheduled(),
            r.spec_states().len() == 0,
            r.spec_queue().len() == 0,
    {
        InMemoryStorage { queue: Vec::new(), states: Vec::new() }
    }

    pub fn size(&self) -> (r: usize)
        ensures
            r == self.spec_states().len(),
    {
        self.states.len()
    }

    fn find_state_index(&self, user_id: u64, id: i32) -> (r: Option<usize>)
        ensures
            match r {
                Some(i) => i < self.spec_states().len() && st_key(self.spec_states()[i as int]) == (
                    user_id,
                    id,
                ),
                None => !self.has_state_key(user_id, id),
            },
    {
        let n = self.states.len();
        let mut i: usize = 0;
        while i < n
            invariant
                i <= n,
                n == self.spec_states().len(),
                forall|j: int|
                    0 <= j < i ==> st_key(#[trigger] self.spec_states()[j]) != (user_id, id),
            decreases n - i,
        {
            if self.states[i].definition.user_id == user_id && self.states[i].id == id {
                return Some(i);
            }
            i = i + 1;
        }
        None
    }

    fn find_queue_index(&self, user_id: u64, id: i32) -> (r: Option<usize>)
        ensures
            match r {
                Some(i) => i < self.spec_queue().len() && en_key(self.spec_queue()[i as int]) == (
                    user_id,
                    id,
                ),
                None => !self.has_queue_key(user_id, id),
            },
    {
        let n = self.queue.len();
        let mut i: usize = 0;
        while i < n
            invariant
                i <= n,
                n == self.spec_queue().len(),
                forall|j: int|
                    0 <= j < i ==> en_key(#[trigger] self.spec_queue()[j]) != (user_id, id),
            decreases n - i,
        {
            if self.queue[i].user_id == user_id && self.queue[i].id == id {
                return Some(i);
            }
            i = i + 1;
        }
        None
    }

    /// Relies on `rand::random`, which draws from the thread-local generator.
    #[verifier::external_body]
    fn random_id() -> i32 {
        rand::random::<i32>()
    }

    /// Draws random ids until one is unused in this user's namespace; after
    /// a bounded number of collisions it scans the smallest candidates, of
    /// which one is always free while the store holds fewer entries than the
    /// candidate range. Only a store within two entries of that range — over
    /// two billion — has no id to give.
    fn fresh_id(&self, user_id: u64) -> (r: Option<i32>)
        requires
            self.wf(),
        ensures
            match r {
                Some(id) => !self.has_state_key(user_id, id) && !self.has_queue_key(user_id, id),
                None => self.spec_states().len() + self.spec_queue().len() >= 0x7ffffffe,
            },
    {
        let mut attempts: u8 = 0;
        while attempts < 50
            decreases 50 - attempts,
        {
            let cand = Self::random_id();
            let taken_s = self.find_state_index(user_id, cand);
            let taken_q = self.find_queue_index(user_id, cand);
            if taken_s.is_none() && taken_q.is_none() {
                return Some(cand);
            }
            attempts = attempts + 1;
        }
        let slen = self.states.len();
        let qlen = self.queue.len();
        if slen >= 0x7ffffffe || qlen >= 0x7ffffffe - slen {
            return None;
        }
        let n = slen + qlen;
        let mut c: usize = 0;
        while c <= n
            invariant
                self.wf(),
                n == self.spec_states().len() + self.spec_queue().len(),
                n < 0x7ffffffe,
                c <= n + 1,
                forall|cc: int|
                    0 <= cc < c ==> self.has_state_key(user_id, #[trigger] (cc as i32))
                        || self.has_queue_key(user_id, cc as i32),
            decreases n + 1 - c,
        {
            let cand = c as i32;
            let taken_s = self.find_state_index(user_id, cand);
            let taken_q = self.find_queue_index(user_id, cand);
            if taken_s.is_none() && taken_q.is_none() {
                return Some(cand);
            }
            c = c + 1;
        }
        proof {
            self.lemma_some_candidate_free(user_id, n as int);
        }
        None
    }

    /// With `n` entries in the store, some candidate id in `0 ..= n` is
    /// free: each taken candidate names an entry of its own, and there is
    /// one entry fewer than there are candidates.
    proof fn lemma_some_candidate_free(&self, user_id: u64, n: int)
        requires
            self.wf(),
            n == self.spec_states().len() + self.spec_queue().len(),
            0 <= n <= 0x7ffffffd,
        ensures
            exists|cc: int|
                0 <= cc <= n && !self.has_state_key(user_id, #[trigger] (cc as i32))
                    && !self.has_queue_key(user_id, cc as i32),
    {
        assert_by_contradiction!(exists|cc: int|
            0 <= cc <= n && !self.has_state_key(user_id, #[trigger] (cc as i32))
                && !self.has_queue_key(user_id, cc as i32), {
            let slen = self.spec_states().len() as int;
            let dom = vstd::set_lib::set_int_range(0, n + 1);
            vstd::set_lib::lemma_int_range(0, n + 1);
            let f = |cc: int|
                if self.has_state_key(user_id, cc as i32) {
                    choose|si: int|
                        0 <= si < self.spec_states().len() && st_key(
                            #[trigger] self.spec_states()[si],
                        ) == (user_id, cc as i32)
                } else {
                    slen + choose|qi: int|
                        0 <= qi < self.spec_queue().len() && en_key(
                            #[trigger] self.spec_queue()[qi],
                        ) == (user_id, cc as i32)
                };
            assert forall|cc: int| dom.contains(cc) implies 0 <= #[trigger] f(cc) < n by {
                if self.has_state_key(user_id, cc as i32) {
                } else {
                    assert(self.has_queue_key(user_id, cc as i32));
                }
            }
            assert(vstd::relations::injective_on(f, dom)) by {
                assert forall|c1: int, c2: int|
                    #![trigger f(c1), f(c2)]
                    dom.contains(c1) && dom.contains(c2) && f(c1) == f(c2) implies c1 == c2 by {
                    if self.has_state_key(user_id, c1 as i32) && self.has_state_key(
                        user_id,
                        c2 as i32,
                    ) {
                        assert(st_key(self.spec_states()[f(c1)]) == (user_id, c1 as i32));
                        assert(st_key(self.spec_states()[f(c2)]) == (user_id, c2 as i32));
                    } else if !self.has_state_key(user_id, c1 as i32) && !self.has_state_key(
                        user_id,
                        c2 as i32,
                    ) {
                        assert(self.has_queue_key(user_id, c1 as i32));
                        assert(self.has_queue_key(user_id, c2 as i32));
                        assert(en_key(self.spec_queue()[f(c1) - slen]) == (user_id, c1 as i32));
                        assert(en_key(self.spec_queue()[f(c2) - slen]) == (user_id, c2 as i32));
                    } else {
                        assert(self.has_queue_key(user_id, c1 as i32) || self.has_queue_key(
                            user_id,
                            c2 as i32,
                        ));
                        assert(f(c1) < slen <= f(c2) || f(c2) < slen <= f(c1));
                    }
                }
            }
            let img = dom.map(f);
            vstd::set_lib::lemma_map_size(dom, img, f);
            assert forall|y: int| img.contains(y) implies vstd::set_lib::set_int_range(
                0,
                n,
            ).contains(y) by {
                let cc = choose|cc: int| dom.contains(cc) && #[trigger] f(cc) == y;
            }
            vstd::set_lib::lemma_int_range(0, n);
            vstd::set_lib::lemma_len_subset(img, vstd::set_lib::set_int_range(0, n));
        });
    }

    /// Stores a definition whose schedule still has a tick after `now`, under
    /// a fresh random id (or the caller's id at boot), and schedules it.
    /// A schedule with no tick left is never stored; a preassigned id that
    /// collides is rejected.
    pub fn insert(&mut self, definition: ReminderDefinition, now: i64, preassigned: Option<i32>) -> (r:
        Option<i32>)
        requires
            old(self).wf(),
            definition.wf(),
            civil::valid_instant(now as int),
        ensures
            final(self).wf(),
            definition.schedule.no_tick_of(now as int) ==> r is None,
            preassigned matches Some(pid) ==> (r is None <==> (definition.schedule.no_tick_of(
                now as int,
            ) || old(self).has_state_key(definition.user_id, pid) || old(self).has_queue_key(
                definition.user_id,
                pid,
            ))),
            match r {
                None => *final(self) == *old(self) && (definition.schedule.no_tick_of(now as int)
                    || (match preassigned {
                    Some(pid) => old(self).has_state_key(definition.user_id, pid) || old(
                        self,
                    ).has_queue_key(definition.user_id, pid),
                    None => old(self).spec_states().len() + old(self).spec_queue().len()
                        >= 0x7ffffffe,
                })),
                Some(id) => exists|u: i64|
                    #[trigger] definition.schedule.tick_of(now as int, u as int) && u > now && !old(
                        self,
                    ).has_state_key(definition.user_id, id) && !old(self).has_queue_key(
                        definition.user_id,
                        id,
                    ) && final(self).spec_states() == old(self).spec_states().push(
                        ReminderState { id, definition, current_tick: Some(u), defused: false },
                    ) && final(self).spec_queue() == old(self).spec_queue().push(
                        HeapEntry { user_id: definition.user_id, id, next_tick: u },
                    ) && (preassigned matches Some(pid) ==> id == pid),
            },
            forall|eu: u64, ei: i32|
                old(self).fully_scheduled_except(eu, ei) ==> final(self).fully_scheduled_except(
                    eu,
                    ei,
                ),
            old(self).fully_scheduled() ==> final(self).fully_scheduled(),
    {
        let tick = match definition.next_tick(now) {
            Some(t) => t,
            None => {
                return None;
            }
        };
        proof {
            crate::schedule::lemma_tick_exclusive(&definition.schedule, now as int, tick as int);
        }
        let user_id = definition.user_id;
        let id: i32;
        match preassigned {
            Some(pid) => {
                let taken_s = self.find_state_index(user_id, pid);
                let taken_q = self.find_queue_index(user_id, pid);
                if taken_s.is_some() || taken_q.is_some() {
                    return None;
                }
                id = pid;
            }
            None => {
                match self.fresh_id(user_id) {
                    Some(fresh) => {
                        id = fresh;
                    }
                    None => {
                        return None;
                    }
                }
            }
        }
        let state = ReminderState { id, definition: definition, current_tick: Some(tick), defused: false };
        let entry = HeapEntry { user_id, id, next_tick: tick };
        self.states.push(state);
        self.queue.push(entry);
        proof {
            assert forall|eu: u64, ei: i32|
                old(self).fully_scheduled_except(eu, ei) implies self.fully_scheduled_except(
                eu,
                ei,
            ) by {
                assert forall|i: int|
                    0 <= i < self.spec_states().len() && !(#[trigger] self.spec_states()[i]).defused
                        && st_key(self.spec_states()[i]) != (eu, ei) implies exists|qi: int|
                    0 <= qi < self.spec_queue().len() && en_key(#[trigger] self.spec_queue()[qi])
                        == st_key(self.spec_states()[i]) && Some(self.spec_queue()[qi].next_tick)
                        == self.spec_states()[i].current_tick by {
                    if i < self.spec_states().len() - 1 {
                        let qi = choose|qi: int|
                            0 <= qi < old(self).spec_queue().len() && en_key(
                                #[trigger] old(self).spec_queue()[qi],
                            ) == st_key(old(self).spec_states()[i]) && Some(
                                old(self).spec_queue()[qi].next_tick,
                            ) == old(self).spec_states()[i].current_tick;
                        assert(en_key(self.spec_queue()[qi]) == st_key(self.spec_states()[i]));
                    } else {
                        let qi = self.spec_queue().len() - 1;
                        assert(en_key(self.spec_queue()[qi]) == st_key(self.spec_states()[i]));
                    }
                }
            }
            assert(old(self).fully_scheduled() ==> self.fully_scheduled()) by {
                if old(self).fully_scheduled() {
                    assert forall|i: int|
                        0 <= i < self.spec_states().len() && !(
                        #[trigger] self.spec_states()[i]).defused implies exists|qi: int|
                        0 <= qi < self.spec_queue().len() && en_key(
                            #[trigger] self.spec_queue()[qi],
                        ) == st_key(self.spec_states()[i]) && Some(
                            self.spec_queue()[qi].next_tick,
                        ) == self.spec_states()[i].current_tick by {
                        if i < self.spec_states().len() - 1 {
                            let qi = choose|qi: int|
                                0 <= qi < old(self).spec_queue().len() && en_key(
                                    #[trigger] old(self).spec_queue()[qi],
                                ) == st_key(old(self).spec_states()[i]) && Some(
                                    old(self).spec_queue()[qi].next_tick,
                                ) == old(self).spec_states()[i].current_tick;
                            assert(en_key(self.spec_queue()[qi]) == st_key(self.spec_states()[i]));
                        } else {
                            let qi = self.spec_queue().len() - 1;
                            assert(en_key(self.spec_queue()[qi]) == st_key(
                                self.spec_states()[i],
                            ));
                        }
                    }
                }
            }
        }
        Some(id)
    }
}

} // verus!

verus! {

impl InMemoryStorage {
    /// Index contents stay as they were, but for tombstone cleanup: no state
    /// appears, and live states survive untouched.
    pub open spec fn preserves_states(&self, other: &InMemoryStorage) -> bool {
        &&& forall|st: ReminderState|
            self.spec_states().contains(st) && !st.defused ==> other.spec_states().contains(st)
        &&& forall|st: ReminderState|
            other.spec_states().contains(st) ==> self.spec_states().contains(st)
    }

    /// Returns a snapshot of the scheduled reminder with the earliest tick
    /// whose state is still live. Tombstones met on the way — entries whose
    /// state is gone or defused — are dropped, a defused state being removed
    /// for good. `None` means nothing scheduled is left.
    pub fn dequeue_next(&mut self) -> (r: Option<Reminder>)
        requires
            old(self).wf(),
            old(self).fully_scheduled(),
        ensures
            final(self).wf(),
            final(self).fully_scheduled(),
            old(self).preserves_states(&*final(self)),
            forall|e: HeapEntry|
                final(self).spec_queue().contains(e) ==> old(self).spec_queue().contains(e),
            match r {
                Some(rem) => final(self).snapshot_in(rem) && rem.current_tick is Some && (forall|
                    e: HeapEntry,
                |
                    final(self).spec_queue().contains(e) && final(self).entry_live(e) ==> (
                    rem.current_tick matches Some(t) && t <= e.next_tick)),
                None => final(self).spec_queue().len() == 0,
            },
    {
        loop
            invariant
                self.wf(),
                self.fully_scheduled(),
                old(self).preserves_states(&*self),
                forall|e: HeapEntry|
                    self.spec_queue().contains(e) ==> old(self).spec_queue().contains(e),
            decreases self.spec_queue().len(),
        {
            let n = self.queue.len();
            if n == 0 {
                return None;
            }
            let mut imin: usize = 0;
            let mut i: usize = 1;
            while i < n
                invariant
                    n == self.spec_queue().len(),
                    imin < i <= n,
                    forall|j: int|
                        0 <= j < i ==> self.spec_queue()[imin as int].next_tick <= (
                        #[trigger] self.spec_queue()[j]).next_tick,
                decreases n - i,
            {
                if self.queue[i].next_tick < self.queue[imin].next_tick {
                    imin = i;
                }
                i = i + 1;
            }
            let e_user = self.queue[imin].user_id;
            let e_id = self.queue[imin].id;
            let e_tick = self.queue[imin].next_tick;
            match self.find_state_index(e_user, e_id) {
                None => {
                    let ghost prev = self.queue@;
                    self.queue.remove(imin);
                    proof {
                        assert forall|e: HeapEntry| self.spec_queue().contains(e) implies
                            prev.contains(e) by {
                            let j = choose|j: int|
                                0 <= j < self.spec_queue().len() && self.spec_queue()[j] == e;
                            if j < imin {
                                assert(prev[j] == e);
                            } else {
                                assert(prev[j + 1] == e);
                            }
                        }
                        assert forall|i2: int|
                            0 <= i2 < self.spec_states().len() && !(
                            #[trigger] self.spec_states()[i2]).defused implies exists|qi: int|
                            0 <= qi < self.spec_queue().len() && en_key(
                                #[trigger] self.spec_queue()[qi],
                            ) == st_key(self.spec_states()[i2]) && Some(
                                self.spec_queue()[qi].next_tick,
                            ) == self.spec_states()[i2].current_tick by {
                            let qi = choose|qi: int|
                                0 <= qi < prev.len() && en_key(#[trigger] prev[qi]) == st_key(
                                    self.spec_states()[i2],
                                ) && Some(prev[qi].next_tick)
                                    == self.spec_states()[i2].current_tick;
                            assert(qi != imin);
                            if qi < imin {
                                assert(self.spec_queue()[qi] == prev[qi]);
                            } else {
                                assert(self.spec_queue()[qi - 1] == prev[qi]);
                            }
                        }
                    }
                }
                Some(si) => {
                    if self.states[si].defused {
                        let ghost prevq = self.queue@;
                        let ghost prevs = self.states@;
                        self.queue.remove(imin);
                        self.states.remove(si);
                        proof {
                            assert forall|e: HeapEntry| self.spec_queue().contains(e) implies
                                prevq.contains(e) by {
                                let j = choose|j: int|
                                    0 <= j < self.spec_queue().len() && self.spec_queue()[j] == e;
                                if j < imin {
                                    assert(prevq[j] == e);
                                } else {
                                    assert(prevq[j + 1] == e);
                                }
                            }
                            assert forall|st: ReminderState|
                                self.spec_states().contains(st) implies prevs.contains(st) by {
                                let j = choose|j: int|
                                    0 <= j < self.spec_states().len() && self.spec_states()[j]
                                        == st;
                                if j < si {
                                    assert(prevs[j] == st);
                                } else {
                                    assert(prevs[j + 1] == st);
                                }
                            }
                            assert forall|st: ReminderState|
                                prevs.contains(st) && !st.defused implies self.spec_states()
                                    .contains(st) by {
                                let j = choose|j: int| 0 <= j < prevs.len() && prevs[j] == st;
                                assert(j != si);
                                if j < si {
                                    assert(self.spec_states()[j] == st);
                                } else {
                                    assert(self.spec_states()[j - 1] == st);
                                }
                            }
                            assert forall|i2: int|
                                0 <= i2 < self.spec_states().len() && !(
                                #[trigger] self.spec_states()[i2]).defused implies exists|qi: int|
                                0 <= qi < self.spec_queue().len() && en_key(
                                    #[trigger] self.spec_queue()[qi],
                                ) == st_key(self.spec_states()[i2]) && Some(
                                    self.spec_queue()[qi].next_tick,
                                ) == self.spec_states()[i2].current_tick by {
                                let sti = self.spec_states()[i2];
                                let j = if i2 < si {
                                    i2
                                } else {
                                    i2 + 1
                                };
                                assert(prevs[j] == sti);
                                let qi = choose|qi: int|
                                    0 <= qi < prevq.len() && en_key(#[trigger] prevq[qi])
                                        == st_key(sti) && Some(prevq[qi].next_tick)
                                        == sti.current_tick;
                                assert(qi != imin);
                                if qi < imin {
                                    assert(self.spec_queue()[qi] == prevq[qi]);
                                } else {
                                    assert(self.spec_queue()[qi - 1] == prevq[qi]);
                                }
                            }
                        }
                    } else {
                        let tick = self.states[si].current_tick;
                        let msg = self.states[si].definition.message.clone();
                        let rem = Reminder { user_id: e_user, id: e_id, current_tick: tick, message: msg };
                        proof {
                            assert(self.spec_states()[si as int].current_tick == Some(e_tick));
                            assert forall|e: HeapEntry|
                                self.spec_queue().contains(e) && self.entry_live(e) implies (
                            rem.current_tick matches Some(t) && t <= e.next_tick) by {
                                let j = choose|j: int|
                                    0 <= j < self.spec_queue().len() && self.spec_queue()[j] == e;
                                assert(self.spec_queue()[imin as int].next_tick <= e.next_tick);
                            }
                        }
                        return Some(rem);
                    }
                }
            }
        }
    }
}

} // verus!

verus! {

impl InMemoryStorage {
    /// Moves a reminder to its next tick strictly after `then` and schedules
    /// it there; a reminder whose schedule is exhausted, or which was defused
    /// meanwhile, is removed for good. No other reminder is touched.
    pub fn advance(&mut self, reminder: Reminder, then: i64)
        requires
            old(self).wf(),
            old(self).fully_scheduled(),
            civil::valid_instant(then as int),
        ensures
            final(self).wf(),
            final(self).fully_scheduled(),
            forall|st: ReminderState|
                old(self).spec_states().contains(st) && st_key(st) != (
                    reminder.user_id,
                    reminder.id,
                ) ==> final(self).spec_states().contains(st),
            forall|st: ReminderState|
                final(self).spec_states().contains(st) && st_key(st) != (
                    reminder.user_id,
                    reminder.id,
                ) ==> old(self).spec_states().contains(st),
            forall|st: ReminderState|
                old(self).spec_states().contains(st) && st_key(st) == (
                    reminder.user_id,
                    reminder.id,
                ) ==> (st.defused ==> !final(self).has_state_key(reminder.user_id, reminder.id))
                    && (!st.defused ==> ((exists|u: i64|
                    u > then && #[trigger] st.definition.schedule.tick_of(then as int, u as int)
                        && final(self).spec_states().contains(
                        ReminderState {
                            id: st.id,
                            definition: st.definition,
                            current_tick: Some(u),
                            defused: st.defused,
                        },
                    )) || (st.definition.schedule.no_tick_of(then as int)
                        && !final(self).has_state_key(reminder.user_id, reminder.id)))),
            !old(self).has_state_key(reminder.user_id, reminder.id) ==> *final(self) == *old(self),
    {
        let (user_id, id) = reminder.reminder_id();
        match self.find_state_index(user_id, id) {
            None => {}
            Some(si) => {
                let ghost prevs = self.states@;
                if self.states[si].defused {
                    self.states.remove(si);
                    proof {
                        assert forall|st: ReminderState|
                            self.spec_states().contains(st) implies prevs.contains(st) && st_key(
                            st,
                        ) != (user_id, id) by {
                            let j = choose|j: int|
                                0 <= j < self.spec_states().len() && self.spec_states()[j] == st;
                            if j < si {
                                assert(prevs[j] == st);
                            } else {
                                assert(prevs[j + 1] == st);
                            }
                        }
                        assert forall|st: ReminderState|
                            prevs.contains(st) && st_key(st) != (user_id, id) implies
                            self.spec_states().contains(st) by {
                            let j = choose|j: int| 0 <= j < prevs.len() && prevs[j] == st;
                            assert(j != si);
                            if j < si {
                                assert(self.spec_states()[j] == st);
                            } else {
                                assert(self.spec_states()[j - 1] == st);
                            }
                        }
                        assert forall|i2: int|
                            0 <= i2 < self.spec_states().len() && !(
                            #[trigger] self.spec_states()[i2]).defused implies exists|qi: int|
                            0 <= qi < self.spec_queue().len() && en_key(
                                #[trigger] self.spec_queue()[qi],
                            ) == st_key(self.spec_states()[i2]) && Some(
                                self.spec_queue()[qi].next_tick,
                            ) == self.spec_states()[i2].current_tick by {
                            let j = if i2 < si {
                                i2
                            } else {
                                i2 + 1
                            };
                            assert(prevs[j] == self.spec_states()[i2]);
                            assert(old(self).spec_states()[j] == self.spec_states()[i2]);
                            let qi = choose|qi: int|
                                0 <= qi < old(self).spec_queue().len() && en_key(
                                    #[trigger] old(self).spec_queue()[qi],
                                ) == st_key(old(self).spec_states()[j]) && Some(
                                    old(self).spec_queue()[qi].next_tick,
                                ) == old(self).spec_states()[j].current_tick;
                            assert(self.spec_queue()[qi] == old(self).spec_queue()[qi]);
                        }
                    }
                } else {
                    let mut st = self.states.remove(si);
                    let next = st.fast_forward_after(then);
                    proof {
                        assert forall|st2: ReminderState|
                            self.spec_states().contains(st2) implies prevs.contains(st2) && st_key(
                            st2,
                        ) != (user_id, id) by {
                            let j = choose|j: int|
                                0 <= j < self.spec_states().len() && self.spec_states()[j] == st2;
                            if j < si {
                                assert(prevs[j] == st2);
                            } else {
                                assert(prevs[j + 1] == st2);
                            }
                        }
                        assert forall|st2: ReminderState|
                            prevs.contains(st2) && st_key(st2) != (user_id, id) implies
                            self.spec_states().contains(st2) by {
                            let j = choose|j: int| 0 <= j < prevs.len() && prevs[j] == st2;
                            assert(j != si);
                            if j < si {
                                assert(self.spec_states()[j] == st2);
                            } else {
                                assert(self.spec_states()[j - 1] == st2);
                            }
                        }
                    }
                    match next {
                        Some(u) => {
                            let ghost mids = self.states@;
                            self.states.insert(si, st);
                            proof {
                                assert forall|k: int|
                                    0 <= k < self.spec_states().len() implies self.spec_states()[k]
                                        == (if k == si {
                                        st
                                    } else {
                                        prevs[k]
                                    }) by {
                                    if k < si {
                                        assert(self.spec_states()[k] == mids[k]);
                                    } else if k > si {
                                        assert(self.spec_states()[k] == mids[k - 1]);
                                    }
                                }
                            }
                            let ghost prevq = self.queue@;
                            let mut qpos: usize;
                            match self.find_queue_index(user_id, id) {
                                Some(qi) => {
                                    self.queue.remove(qi);
                                    let ghost midq = self.queue@;
                                    self.queue.insert(
                                        qi,
                                        HeapEntry { user_id, id, next_tick: u },
                                    );
                                    qpos = qi;
                                    proof {
                                        assert forall|k: int|
                                            0 <= k < self.spec_queue().len() implies
                                            self.spec_queue()[k] == (if k == qi {
                                                HeapEntry { user_id, id, next_tick: u }
                                            } else {
                                                prevq[k]
                                            }) by {
                                            if k < qi {
                                                assert(self.spec_queue()[k] == midq[k]);
                                                assert(midq[k] == prevq[k]);
                                            } else if k > qi {
                                                assert(self.spec_queue()[k] == midq[k - 1]);
                                                assert(midq[k - 1] == prevq[k]);
                                            }
                                        }
                                        assert(self.spec_queue().len() == prevq.len());
                                    }
                                }
                                None => {
                                    qpos = self.queue.len();
                                    self.queue.push(HeapEntry { user_id, id, next_tick: u });
                                }
                            }
                            proof {
                                assert(self.spec_states().contains(st)) by {
                                    assert(self.spec_states()[si as int] == st);
                                }
                                assert(st_key(st) == (user_id, id));
                                assert forall|st2: ReminderState|
                                    prevs.contains(st2) && st_key(st2) != (user_id, id) implies
                                    self.spec_states().contains(st2) by {
                                    let j = choose|j: int|
                                        0 <= j < prevs.len() && prevs[j] == st2;
                                    assert(j != si);
                                    assert(self.spec_states()[j] == st2);
                                }
                                assert forall|st2: ReminderState|
                                    self.spec_states().contains(st2) && st_key(st2) != (
                                        user_id,
                                        id,
                                    ) implies prevs.contains(st2) by {
                                    let k = choose|k: int|
                                        0 <= k < self.spec_states().len()
                                            && self.spec_states()[k] == st2;
                                    assert(k != si);
                                    assert(prevs[k] == st2);
                                }
                                assert(self.spec_queue()[qpos as int] == HeapEntry {
                                    user_id,
                                    id,
                                    next_tick: u,
                                });
                                assert forall|k: int|
                                    0 <= k < self.spec_queue().len() && k != qpos implies
                                    #[trigger] self.spec_queue()[k] == prevq[k] && en_key(
                                    self.spec_queue()[k]) != (user_id, id) by {
                                }
                                assert forall|i2: int|
                                    0 <= i2 < self.spec_states().len() && !(
                                    #[trigger] self.spec_states()[i2]).defused implies exists|
                                    qi2: int,
                                |
                                    0 <= qi2 < self.spec_queue().len() && en_key(
                                        #[trigger] self.spec_queue()[qi2],
                                    ) == st_key(self.spec_states()[i2]) && Some(
                                        self.spec_queue()[qi2].next_tick,
                                    ) == self.spec_states()[i2].current_tick by {
                                    if i2 == si {
                                        assert(en_key(self.spec_queue()[qpos as int]) == st_key(
                                            self.spec_states()[i2],
                                        ));
                                        assert(Some(self.spec_queue()[qpos as int].next_tick)
                                            == self.spec_states()[i2].current_tick);
                                    } else {
                                        let sto = self.spec_states()[i2];
                                        assert(prevs[i2] == sto);
                                        assert(old(self).spec_states()[i2] == sto);
                                        let qio = choose|qio: int|
                                            0 <= qio < old(self).spec_queue().len() && en_key(
                                                #[trigger] old(self).spec_queue()[qio],
                                            ) == st_key(old(self).spec_states()[i2]) && Some(
                                                old(self).spec_queue()[qio].next_tick,
                                            ) == old(self).spec_states()[i2].current_tick;
                                        assert(en_key(prevq[qio]) != (user_id, id));
                                        assert(qio != qpos);
                                        assert(self.spec_queue()[qio] == prevq[qio]);
                                    }
                                }
                            }
                        }
                        None => {
                            proof {
                                assert forall|i2: int|
                                    0 <= i2 < self.spec_states().len() && !(
                                    #[trigger] self.spec_states()[i2]).defused implies exists|
                                    qi2: int,
                                |
                                    0 <= qi2 < self.spec_queue().len() && en_key(
                                        #[trigger] self.spec_queue()[qi2],
                                    ) == st_key(self.spec_states()[i2]) && Some(
                                        self.spec_queue()[qi2].next_tick,
                                    ) == self.spec_states()[i2].current_tick by {
                                    let j = if i2 < si {
                                        i2
                                    } else {
                                        i2 + 1
                                    };
                                    assert(prevs[j] == self.spec_states()[i2]);
                                    assert(old(self).spec_states()[j] == self.spec_states()[i2]);
                                    let qi = choose|qi: int|
                                        0 <= qi < old(self).spec_queue().len() && en_key(
                                            #[trigger] old(self).spec_queue()[qi],
                                        ) == st_key(old(self).spec_states()[j]) && Some(
                                            old(self).spec_queue()[qi].next_tick,
                                        ) == old(self).spec_states()[j].current_tick;
                                    assert(self.spec_queue()[qi] == old(self).spec_queue()[qi]);
                                }
                            }
                        }
                    }
                }
            }
        }
    }

    /// Flags a reminder so it never fires again; its entry stays behind as a
    /// tombstone that the next dequeue drops.
    pub fn defuse(&mut self, user_id: &u64, reminder_id: &i32)
        requires
            old(self).wf(),
            old(self).fully_scheduled(),
        ensures
            final(self).wf(),
            final(self).fully_scheduled(),
            forall|st: ReminderState|
                old(self).spec_states().contains(st) && st_key(st) != (*user_id, *reminder_id)
                    ==> final(self).spec_states().contains(st),
            forall|st: ReminderState|
                old(self).spec_states().contains(st) && st_key(st) == (*user_id, *reminder_id)
                    ==> final(self).spec_states().contains(
                    ReminderState {
                        id: st.id,
                        definition: st.definition,
                        current_tick: st.current_tick,
                        defused: true,
                    },
                ),
            forall|st: ReminderState|
                final(self).spec_states().contains(st) && !st.defused ==> old(
                    self,
                ).spec_states().contains(st),
            !old(self).has_state_key(*user_id, *reminder_id) ==> *final(self) == *old(self),
            final(self).spec_queue() == old(self).spec_queue(),
    {
        match self.find_state_index(*user_id, *reminder_id) {
            None => {}
            Some(si) => {
                let ghost prevs = self.states@;
                let mut st = self.states.remove(si);
                st.defuse();
                let ghost mids = self.states@;
                self.states.insert(si, st);
                proof {
                    assert forall|k: int|
                        0 <= k < self.spec_states().len() implies self.spec_states()[k] == (if k
                            == si {
                            st
                        } else {
                            prevs[k]
                        }) by {
                        if k < si {
                            assert(self.spec_states()[k] == mids[k]);
                        } else if k > si {
                            assert(self.spec_states()[k] == mids[k - 1]);
                        }
                    }
                    assert forall|st2: ReminderState|
                        old(self).spec_states().contains(st2) && st_key(st2) != (
                            *user_id,
                            *reminder_id,
                        ) implies self.spec_states().contains(st2) by {
                        let j = choose|j: int| 0 <= j < prevs.len() && prevs[j] == st2;
                        assert(j != si);
                        assert(self.spec_states()[j] == st2);
                    }
                    assert(self.spec_states()[si as int] == st);
                    assert forall|i2: int|
                        0 <= i2 < self.spec_states().len() && !(
                        #[trigger] self.spec_states()[i2]).defused implies exists|qi: int|
                        0 <= qi < self.spec_queue().len() && en_key(
                            #[trigger] self.spec_queue()[qi],
                        ) == st_key(self.spec_states()[i2]) && Some(
                            self.spec_queue()[qi].next_tick,
                        ) == self.spec_states()[i2].current_tick by {
                        assert(i2 != si);
                        assert(self.spec_states()[i2] == prevs[i2]);
                        assert(old(self).spec_states()[i2] == self.spec_states()[i2]);
                        let qi = choose|qi: int|
                            0 <= qi < old(self).spec_queue().len() && en_key(
                                #[trigger] old(self).spec_queue()[qi],
                            ) == st_key(old(self).spec_states()[i2]) && Some(
                                old(self).spec_queue()[qi].next_tick,
                            ) == old(self).spec_states()[i2].current_tick;
                        assert(self.spec_queue()[qi] == old(self).spec_queue()[qi]);
                    }
                }
            }
        }
    }

    /// A snapshot of one live reminder; a defused or absent one reads `None`.
    pub fn get(&self, user_id: &u64, reminder_id: &i32) -> (r: Option<Reminder>)
        requires
            self.wf(),
        ensures
            match r {
                Some(rem) => self.snapshot_in(rem) && rem.user_id == *user_id && rem.id
                    == *reminder_id,
                None => forall|st: ReminderState|
                    self.spec_states().contains(st) && st_key(st) == (*user_id, *reminder_id)
                        ==> st.defused,
            },
    {
        match self.find_state_index(*user_id, *reminder_id) {
            None => {
                proof {
                    assert forall|st: ReminderState|
                        self.spec_states().contains(st) && st_key(st) == (*user_id, *reminder_id)
                            implies st.defused by {
                        let j = choose|j: int|
                            0 <= j < self.spec_states().len() && self.spec_states()[j] == st;
                        assert(self.has_state_key(*user_id, *reminder_id));
                    }
                }
                None
            }
            Some(si) => {
                if self.states[si].defused {
                    proof {
                        assert forall|st: ReminderState|
                            self.spec_states().contains(st) && st_key(st) == (
                                *user_id,
                                *reminder_id,
                            ) implies st.defused by {
                            let j = choose|j: int|
                                0 <= j < self.spec_states().len() && self.spec_states()[j] == st;
                            assert(st_key(self.spec_states()[j]) == st_key(
                                self.spec_states()[si as int],
                            ));
                            assert(j == si);
                        }
                    }
                    None
                } else {
                    Some(
                        Reminder {
                            user_id: *user_id,
                            id: *reminder_id,
                            current_tick: self.states[si].current_tick,
                            message: self.states[si].definition.message.clone(),
                        },
                    )
                }
            }
        }
    }

    /// Snapshots of every live reminder of one user, in storage order: one
    /// entry per live id, no id twice.
    pub fn get_all(&self, user_id: &u64) -> (r: Vec<Reminder>)
        requires
            self.wf(),
        ensures
            forall|j: int|
                0 <= j < r@.len() ==> self.snapshot_in(#[trigger] r@[j]) && r@[j].user_id
                    == *user_id,
            forall|i: int|
                0 <= i < self.spec_states().len() && (#[trigger] self.spec_states()[i]).definition.user_id
                    == *user_id && !self.spec_states()[i].defused ==> exists|j: int|
                    0 <= j < r@.len() && #[trigger] r@[j].id == self.spec_states()[i].id,
            forall|j1: int, j2: int| 0 <= j1 < j2 < r@.len() ==> r@[j1].id != r@[j2].id,
    {
        let mut out: Vec<Reminder> = Vec::new();
        let n = self.states.len();
        let mut i: usize = 0;
        while i < n
            invariant
                i <= n,
                self.wf(),
                n == self.spec_states().len(),
                forall|j: int|
                    0 <= j < out@.len() ==> self.snapshot_in(#[trigger] out@[j]) && out@[j].user_id
                        == *user_id,
                forall|i2: int|
                    0 <= i2 < i && (#[trigger] self.spec_states()[i2]).definition.user_id
                        == *user_id && !self.spec_states()[i2].defused ==> exists|j: int|
                        0 <= j < out@.len() && #[trigger] out@[j].id == self.spec_states()[i2].id,
                forall|j: int|
                    0 <= j < out@.len() ==> exists|i2: int|
                        0 <= i2 < i && st_key(#[trigger] self.spec_states()[i2]) == (
                        *user_id,
                        (#[trigger] out@[j]).id,
                    ),
                forall|j1: int, j2: int| 0 <= j1 < j2 < out@.len() ==> out@[j1].id != out@[j2].id,
            decreases n - i,
        {
            if self.states[i].definition.user_id == *user_id && !self.states[i].defused {
                let rem = Reminder {
                    user_id: *user_id,
                    id: self.states[i].id,
                    current_tick: self.states[i].current_tick,
                    message: self.states[i].definition.message.clone(),
                };
                let ghost prevout = out@;
                out.push(rem);
                proof {
                    assert(self.snapshot_in(rem)) by {
                        assert(st_key(self.spec_states()[i as int]) == (rem.user_id, rem.id));
                    }
                    assert(st_key(self.spec_states()[i as int]) == (*user_id, rem.id));
                    // The new snapshot's id is new: a repeat would name two
                    // states with one key.
                    assert forall|j1: int, j2: int|
                        0 <= j1 < j2 < out@.len() implies out@[j1].id != out@[j2].id by {
                        if j2 == out@.len() - 1 {
                            let ia = choose|ia: int|
                                0 <= ia < i && st_key(#[trigger] self.spec_states()[ia]) == (
                                *user_id,
                                prevout[j1].id,
                            );
                            if out@[j1].id == rem.id {
                                assert(st_key(self.spec_states()[ia]) == st_key(
                                    self.spec_states()[i as int],
                                ));
                            }
                        }
                    }
                    assert forall|i2: int|
                        0 <= i2 < i + 1 && (#[trigger] self.spec_states()[i2]).definition.user_id
                            == *user_id && !self.spec_states()[i2].defused implies exists|j: int|
                        0 <= j < out@.len() && #[trigger] out@[j].id
                            == self.spec_states()[i2].id by {
                        if i2 == i {
                            assert(out@[out@.len() - 1].id == self.spec_states()[i2].id);
                        } else {
                            let j = choose|j: int|
                                0 <= j < prevout.len() && #[trigger] prevout[j].id
                                    == self.spec_states()[i2].id;
                            assert(out@[j].id == self.spec_states()[i2].id);
                        }
                    }
                }
            }
            i = i + 1;
        }
        out
    }
}

} // verus!
