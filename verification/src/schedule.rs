//! A schedule: one firing instant, or a recurrence grid bounded below (and
//! possibly above). Instants are UTC microseconds since the epoch.

use vstd::prelude::*;

use crate::civil;
use crate::grid::ScheduleGrid;
use vstd::assert_by_contradiction;

verus! {

pub enum Schedule {
    Once { when: i64 },
    Recurrent { since: i64, schedule: ScheduleGrid },
    RecurrentUntil { since: i64, until: i64, schedule: ScheduleGrid },
}

/// The instant a recurrence is measured from: the later of `now` and `since`.
pub open spec fn tick_base(now: int, since: int) -> int {
    if now >= since {
        now
    } else {
        since
    }
}

impl Schedule {
    pub open spec fn wf(&self) -> bool {
        match self {
            Schedule::Once { .. } => true,
            Schedule::Recurrent { since, schedule } => schedule.wf() && civil::valid_instant(
                *since as int,
            ),
            Schedule::RecurrentUntil { since, until, schedule } => schedule.wf()
                && civil::valid_instant(*since as int),
        }
    }

    /// What a produced tick `u` means, seen from `now`: for a single firing
    /// it is the stored instant, still ahead; for a recurrence it is the
    /// earliest grid firing after the base instant (and before `until`).
    pub open spec fn tick_of(&self, now: int, u: int) -> bool {
        match self {
            Schedule::Once { when } => u == *when as int && now < *when as int,
            Schedule::Recurrent { since, schedule } => schedule.first_fire(
                tick_base(now, *since as int),
                u,
            ),
            Schedule::RecurrentUntil { since, until, schedule } => u < *until as int
                && schedule.first_fire(tick_base(now, *since as int), u),
        }
    }

    /// What "no tick" means, seen from `now`: a single firing already past,
    /// a bounded search that found nothing, or a first firing at or past
    /// `until`.
    pub open spec fn no_tick_of(&self, now: int) -> bool {
        match self {
            Schedule::Once { when } => now >= *when as int,
            Schedule::Recurrent { since, schedule } => {
                let base = tick_base(now, *since as int);
                schedule.no_fire_between(
                    base,
                    schedule.start_minute(base),
                    schedule.search_end(base),
                )
            },
            Schedule::RecurrentUntil { since, until, schedule } => {
                let base = tick_base(now, *since as int);
                schedule.no_fire_between(
                    base,
                    schedule.start_minute(base),
                    schedule.search_end(base),
                ) || exists|u0: i64|
                    u0 >= *until && #[trigger] schedule.first_fire(base, u0 as int)
            },
        }
    }

    /// The next firing instant strictly after `now`, if the schedule still
    /// has one: the stored instant of a pending single firing, or the
    /// earliest grid firing after `max(now, since)` (and, for a bounded
    /// recurrence, strictly before `until`).
    pub fn next_tick(&self, now: i64) -> (r: Option<i64>)
        requires
            self.wf(),
            civil::valid_instant(now as int),
        ensures
            match r {
                Some(u) => self.tick_of(now as int, u as int) && u > now,
                None => self.no_tick_of(now as int),
            },
    {
        match self {
            Schedule::Once { when } => {
                if now < *when {
                    Some(*when)
                } else {
                    None
                }
            }
            Schedule::Recurrent { since, schedule } => {
                let base = if now >= *since {
                    now
                } else {
                    *since
                };
                schedule.next_scheduled_after(base)
            }
            Schedule::RecurrentUntil { since, until, schedule } => {
                let base = if now >= *since {
                    now
                } else {
                    *since
                };
                match schedule.next_scheduled_after(base) {
                    Some(u) => {
                        if u < *until {
                            Some(u)
                        } else {
                            proof {
                                let baseg = tick_base(now as int, *since as int);
                                assert(u >= *until && schedule.first_fire(baseg, u as int));
                            }
                            None
                        }
                    }
                    None => None,
                }
            }
        }
    }
}

/// A schedule cannot both produce and lack a tick at one instant: `tick_of`
/// and `no_tick_of` exclude each other. For a single firing this is the
/// comparison with `when`; for a recurrence, a produced tick is the earliest
/// firing minute of the searched window, which an empty window has none of,
/// and two distinct earliest firings would each contradict the other's
/// minimality.
pub proof fn lemma_tick_exclusive(s: &Schedule, now: int, u: int)
    requires
        s.tick_of(now, u),
    ensures
        !s.no_tick_of(now),
{
    assert_by_contradiction!(!s.no_tick_of(now), {
        match s {
            Schedule::Once { when } => {}
            Schedule::Recurrent { since, schedule } => {
                let base = tick_base(now, *since as int);
                let lu = schedule.result_minute(u);
                assert(schedule.candidate_fires(base, lu));
            }
            Schedule::RecurrentUntil { since, until, schedule } => {
                let base = tick_base(now, *since as int);
                let lu = schedule.result_minute(u);
                assert(schedule.candidate_fires(base, lu));
                if !schedule.no_fire_between(
                    base,
                    schedule.start_minute(base),
                    schedule.search_end(base),
                ) {
                    let u0 = choose|u0: i64|
                        u0 >= *until && #[trigger] schedule.first_fire(base, u0 as int);
                    let lu0 = schedule.result_minute(u0 as int);
                    assert(schedule.candidate_fires(base, lu0));
                    if lu < lu0 {
                        assert(!schedule.candidate_fires(base, lu));
                    } else if lu0 < lu {
                        assert(!schedule.candidate_fires(base, lu0));
                    } else {
                        assert(u == (u / 1000000) * 1000000 && u0 as int == (u0 as int / 1000000)
                            * 1000000);
                        assert((u / 1000000) as i64 == (u0 as int / 1000000) as i64);
                        assert(u / 1000000 == u0 as int / 1000000);
                        assert(u == u0 as int);
                    }
                }
            }
        }
    });
}

impl Schedule {
    /// A copy that schedules identically: the same instants and, for a
    /// recurrence, a grid with the same bits and scalars.
    pub fn duplicate(&self) -> (r: Schedule)
        requires
            self.wf(),
        ensures
            r.wf(),
            match (self, &r) {
                (Schedule::Once { when }, Schedule::Once { when: when2 }) => when == when2,
                (
                    Schedule::Recurrent { since, schedule },
                    Schedule::Recurrent { since: since2, schedule: schedule2 },
                ) => since == since2 && crate::durable::grids_agree(schedule, schedule2),
                (
                    Schedule::RecurrentUntil { since, until, schedule },
                    Schedule::RecurrentUntil {
                        since: since2,
                        until: until2,
                        schedule: schedule2,
                    },
                ) => since == since2 && until == until2 && crate::durable::grids_agree(
                    schedule,
                    schedule2,
                ),
                _ => false,
            },
    {
        match self {
            Schedule::Once { when } => Schedule::Once { when: *when },
            Schedule::Recurrent { since, schedule } => Schedule::Recurrent {
                since: *since,
                schedule: schedule.duplicate(),
            },
            Schedule::RecurrentUntil { since, until, schedule } => Schedule::RecurrentUntil {
                since: *since,
                until: *until,
                schedule: schedule.duplicate(),
            },
        }
    }
}

} // verus!
