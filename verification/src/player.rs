//! Sessions and their aggregation: pairing connect/disconnect events,
//! grouping sessions into calendar-day buckets, and keeping running totals.
//!
//! Pairing is a per-player state machine over a stack of pending events:
//! a connect is pushed; a disconnect pops the most recent pending event and
//! closes a session with it, or — when nothing is pending — is itself
//! retained, in case a matching event arrives later. Every closed session
//! lands in the day bucket of its start date, opening a new bucket exactly
//! when that date differs from the last bucket's.

use crate::datetime::Date;
use crate::datetime::Duration;
use crate::datetime::MAX_TIMESTAMP_SECS;
use crate::datetime::Timestamp;
use crate::parser::PlayerAction;
use crate::parser::PlayerEvent;
use crate::parser::PlayerEventV;
use vstd::prelude::*;
use vstd::string::StringExecFns;

verus! {

/// Totals are admitted only while they leave room for one more session,
/// whose span is below `2 * MAX_TIMESTAMP_SECS` in absolute value.
pub const TOTAL_TIME_LIMIT: i64 = i64::MAX - 2 * MAX_TIMESTAMP_SECS;

/// One continuous interval a player was connected, bounded by a matched
/// connect and disconnect. The duration is signed: nothing rejects a stop
/// before its start, as the callers' policy allows such pairs through.
#[derive(Clone, Copy, Debug, PartialEq, Eq, Structural)]
pub struct Session {
    pub start: Timestamp,
    pub stop: Timestamp,
    pub duration: Duration,
}

/// The session closing a connect at `start` by a disconnect at `stop`.
pub open spec fn spec_build(start: Timestamp, stop: Timestamp) -> Session {
    Session {
        start,
        stop,
        duration: Duration {
            secs: (stop.spec_total_secs() - start.spec_total_secs()) as i64,
        },
    }
}

impl Session {
    /// Timestamps are real dates and clock readings, and the duration is
    /// exactly the signed span from start to stop.
    pub open spec fn wf(self) -> bool {
        &&& self.start.wf()
        &&& self.stop.wf()
        &&& self.duration.secs == self.stop.spec_total_secs() - self.start.spec_total_secs()
    }

    /// Builds the session for a matched connect/disconnect pair: it runs
    /// from the connect's timestamp to the disconnect's, and its duration
    /// is their signed difference in seconds.
    pub fn build(joined: &PlayerEvent, left: &PlayerEvent) -> (s: Session)
        requires
            joined@.wf(),
            left@.wf(),
        ensures
            s == spec_build(joined@.timestamp, left@.timestamp),
            s.start == joined@.timestamp,
            s.stop == left@.timestamp,
            s.wf(),
    {
        let d: i64 = left.timestamp.total_secs() - joined.timestamp.total_secs();
        Session { start: joined.timestamp, stop: left.timestamp, duration: Duration { secs: d } }
    }

    /// Get the session's duration.
    pub fn duration(&self) -> (d: Duration)
        ensures
            d == self.duration,
    {
        self.duration
    }
}

/// The summed durations of a run of sessions, in seconds.
pub open spec fn sum_durations(ss: Seq<Session>) -> int
    decreases ss.len(),
{
    if ss.len() == 0 {
        0
    } else {
        sum_durations(ss.drop_last()) + ss.last().duration.secs
    }
}

/// The sessions of one player that start on one calendar date, with their
/// summed duration.
#[derive(Debug, Clone)]
pub struct PlayerDay {
    pub date: Date,
    pub sessions: Vec<Session>,
    pub total_time: Duration,
}

/// The mathematical image of a `PlayerDay`.
pub ghost struct PlayerDayV {
    pub date: Date,
    pub sessions: Seq<Session>,
    pub total_time: int,
}

impl View for PlayerDay {
    type V = PlayerDayV;

    open spec fn view(&self) -> PlayerDayV {
        PlayerDayV {
            date: self.date,
            sessions: self.sessions@,
            total_time: self.total_time.secs as int,
        }
    }
}

impl PlayerDayV {
    /// Every session starts on this bucket's date, and the bucket's total
    /// is the sum of its sessions' durations.
    pub open spec fn wf(self) -> bool {
        &&& self.date.wf()
        &&& forall|i: int|
            0 <= i < self.sessions.len() ==> (#[trigger] self.sessions[i]).wf()
                && self.sessions[i].start.date == self.date
        &&& self.total_time == sum_durations(self.sessions)
    }
}

/// The bucket `d` after absorbing `s`.
pub open spec fn day_with_session(d: PlayerDayV, s: Session) -> PlayerDayV {
    PlayerDayV {
        date: d.date,
        sessions: d.sessions.push(s),
        total_time: d.total_time + s.duration.secs,
    }
}

impl PlayerDay {
    /// Opens an empty bucket for the given date.
    pub fn new(date: Date) -> (d: Self)
        ensures
            d@ == (PlayerDayV { date, sessions: Seq::<Session>::empty(), total_time: 0 }),
            date.wf() ==> d@.wf(),
    {
        let d = PlayerDay { date, sessions: Vec::new(), total_time: Duration::zero() };
        proof {
            assert(d@.sessions =~= Seq::<Session>::empty());
        }
        d
    }

    /// Accepts the session and adds its duration to the running total only
    /// when it starts on this bucket's date; otherwise hands the session
    /// back untouched, signalling the caller to open a new bucket.
    pub fn add_session(&mut self, session: Session) -> (r: Result<(), Session>)
        requires
            old(self)@.wf(),
            session.wf(),
            -TOTAL_TIME_LIMIT <= old(self)@.total_time <= TOTAL_TIME_LIMIT,
        ensures
            match r {
                Ok(()) => session.start.date == old(self).date && final(self)@ == day_with_session(
                    old(self)@,
                    session,
                ) && final(self)@.wf(),
                Err(s) => s == session && session.start.date != old(self).date && *final(self)
                    == *old(self),
            },
    {
        if self.date == session.start.date {
            proof {
                crate::datetime::lemma_total_secs_bounded(session.start);
                crate::datetime::lemma_total_secs_bounded(session.stop);
            }
            self.total_time = Duration { secs: self.total_time.secs + session.duration.secs };
            self.sessions.push(session);
            proof {
                assert(self.sessions@.drop_last() =~= old(self).sessions@);
            }
            Ok(())
        } else {
            Err(session)
        }
    }
}

/// The summed durations over a run of day buckets, in seconds.
pub open spec fn sum_day_durations(days: Seq<PlayerDayV>) -> int
    decreases days.len(),
{
    if days.len() == 0 {
        0
    } else {
        sum_day_durations(days.drop_last()) + days.last().total_time
    }
}

/// The day buckets after absorbing `s`: a new bucket is opened exactly
/// when there is none yet or the last one carries another date; otherwise
/// the last bucket absorbs the session.
pub open spec fn days_with_session(days: Seq<PlayerDayV>, s: Session) -> Seq<PlayerDayV> {
    if days.len() == 0 || days.last().date != s.start.date {
        days.push(
            PlayerDayV {
                date: s.start.date,
                sessions: seq![s],
                total_time: s.duration.secs as int,
            },
        )
    } else {
        days.update(days.len() - 1, day_with_session(days.last(), s))
    }
}

/// One player's aggregate: the stack of pending (unmatched) events, the
/// day buckets of closed sessions, and the total time over all sessions.
#[derive(Debug, Clone)]
pub struct PlayerData {
    pub name: String,
    pub events: Vec<PlayerEvent>,
    pub days: Vec<PlayerDay>,
    pub total_time: Duration,
}

/// The mathematical image of a `PlayerData`.
pub ghost struct PlayerDataV {
    pub name: Seq<char>,
    pub events: Seq<PlayerEventV>,
    pub days: Seq<PlayerDayV>,
    pub total_time: int,
}

impl View for PlayerData {
    type V = PlayerDataV;

    open spec fn view(&self) -> PlayerDataV {
        PlayerDataV {
            name: self.name@,
            events: self.events@.map_values(|e: PlayerEvent| e@),
            days: self.days@.map_values(|d: PlayerDay| d@),
            total_time: self.total_time.secs as int,
        }
    }
}

impl PlayerDataV {
    /// Pending events carry real timestamps, every bucket is well formed,
    /// and the player's total is the sum over the buckets.
    pub open spec fn wf(self) -> bool {
        &&& forall|i: int| 0 <= i < self.events.len() ==> (#[trigger] self.events[i]).wf()
        &&& forall|i: int| 0 <= i < self.days.len() ==> (#[trigger] self.days[i]).wf()
        &&& self.total_time == sum_day_durations(self.days)
    }

    /// Room to absorb one more session without the totals leaving `i64`.
    pub open spec fn has_headroom(self) -> bool {
        &&& -TOTAL_TIME_LIMIT <= self.total_time <= TOTAL_TIME_LIMIT
        &&& self.days.len() > 0 ==> -TOTAL_TIME_LIMIT <= self.days.last().total_time
            <= TOTAL_TIME_LIMIT
    }
}

/// The fresh aggregate of a player nothing has been recorded for.
pub open spec fn new_player(name: Seq<char>) -> PlayerDataV {
    PlayerDataV {
        name,
        events: Seq::<PlayerEventV>::empty(),
        days: Seq::<PlayerDayV>::empty(),
        total_time: 0,
    }
}

/// The aggregate `p` after one step of the pairing state machine on `e`:
/// a connect is pushed as pending; a disconnect closes a session with the
/// most recent pending event, or is itself pushed when none is pending.
pub open spec fn player_with_event(p: PlayerDataV, e: PlayerEventV) -> PlayerDataV {
    if e.action is Connect || p.events.len() == 0 {
        PlayerDataV {
            name: p.name,
            events: p.events.push(e),
            days: p.days,
            total_time: p.total_time,
        }
    } else {
        let start = p.events.last();
        let s = spec_build(start.timestamp, e.timestamp);
        PlayerDataV {
            name: p.name,
            events: p.events.drop_last(),
            days: days_with_session(p.days, s),
            total_time: p.total_time + s.duration.secs,
        }
    }
}

impl PlayerData {
    /// Creates the empty aggregate for the named player.
    pub fn new(name: &str) -> (p: Self)
        ensures
            p@ == new_player(name@),
            p@.wf(),
    {
        let p = PlayerData {
            name: String::from_str(name),
            events: Vec::new(),
            days: Vec::new(),
            total_time: Duration::zero(),
        };
        proof {
            assert(p@.events =~= Seq::<PlayerEventV>::empty());
            assert(p@.days =~= Seq::<PlayerDayV>::empty());
        }
        p
    }

    /// Whether one more session surely fits in the totals.
    pub fn has_headroom(&self) -> (b: bool)
        ensures
            b == self@.has_headroom(),
    {
        let n = self.days.len();
        -TOTAL_TIME_LIMIT <= self.total_time.secs && self.total_time.secs <= TOTAL_TIME_LIMIT && (n
            == 0 || (-TOTAL_TIME_LIMIT <= self.days[n - 1].total_time.secs
            && self.days[n - 1].total_time.secs <= TOTAL_TIME_LIMIT))
    }

    /// Files a closed session under its day bucket — opening a new bucket
    /// exactly when the last one carries another date or none exists —
    /// and adds its duration to the player's total.
    fn add_session(&mut self, session: Session)
        requires
            old(self)@.wf(),
            session.wf(),
            old(self)@.has_headroom(),
        ensures
            final(self)@ == (PlayerDataV {
                name: old(self)@.name,
                events: old(self)@.events,
                days: days_with_session(old(self)@.days, session),
                total_time: old(self)@.total_time + session.duration.secs,
            }),
            final(self)@.wf(),
    {
        proof {
            crate::datetime::lemma_total_secs_bounded(session.start);
            crate::datetime::lemma_total_secs_bounded(session.stop);
        }
        let n = self.days.len();
        let needs_new: bool = if n == 0 {
            true
        } else {
            let last = &self.days[n - 1];
            !(last.date == session.start.date)
        };
        if needs_new {
            let mut day = PlayerDay::new(session.start.date);
            let _ = day.add_session(session);
            self.days.push(day);
            proof {
                assert(self.days@.map_values(|d: PlayerDay| d@).drop_last() =~= old(
                    self,
                ).days@.map_values(|d: PlayerDay| d@));
                assert(self.days@.map_values(|d: PlayerDay| d@) =~= days_with_session(
                    old(self)@.days,
                    session,
                ));
            }
        } else {
            let idx = n - 1;
            let _ = self.days[idx].add_session(session);
            proof {
                assert(self.days@.map_values(|d: PlayerDay| d@).drop_last() =~= old(
                    self,
                ).days@.map_values(|d: PlayerDay| d@).drop_last());
                assert(self.days@.map_values(|d: PlayerDay| d@) =~= days_with_session(
                    old(self)@.days,
                    session,
                ));
            }
        }
        self.total_time = Duration { secs: self.total_time.secs + session.duration.secs };
    }

    /// Applies one event to the pairing state machine: a connect is
    /// recorded as pending; a disconnect closes a session with the most
    /// recently pending event, or is itself recorded when none is pending.
    pub fn add_event(&mut self, event: PlayerEvent)
        requires
            old(self)@.wf(),
            event@.wf(),
            old(self)@.has_headroom(),
        ensures
            final(self)@ == player_with_event(old(self)@, event@),
            final(self)@.wf(),
    {
        let is_connect: bool = match event.action {
            PlayerAction::Connect => true,
            PlayerAction::Disconnect => false,
        };
        let ghost ev = event@;
        if is_connect {
            self.events.push(event);
            proof {
                assert(self@.events =~= old(self)@.events.push(ev));
            }
        } else {
            match self.events.pop() {
                Some(start) => {
                    proof {
                        assert(old(self)@.events.last() == start@);
                        assert(self.events@.map_values(|e: PlayerEvent| e@) =~= old(
                            self,
                        )@.events.drop_last());
                    }
                    let session = Session::build(&start, &event);
                    self.add_session(session);
                },
                None => {
                    self.events.push(event);
                    proof {
                        assert(self@.events =~= old(self)@.events.push(ev));
                    }
                },
            }
        }
    }

    /// Get the player's total time over all closed sessions.
    pub fn total_time(&self) -> (d: Duration)
        ensures
            d.secs == self@.total_time,
    {
        self.total_time
    }
}

} // verus!
