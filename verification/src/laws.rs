//! Laws of the pairing state machine and the day bucketing, stated over
//! the same spec-level transitions that the executable methods are proved
//! to implement.

use crate::datetime::Timestamp;
use crate::datetime::lemma_total_secs_bounded;
use crate::parser::PlayerAction;
use crate::parser::PlayerEventV;
use crate::player::PlayerDataV;
use crate::player::PlayerDayV;
use crate::player::Session;
use crate::player::days_with_session;
use crate::player::player_with_event;
use crate::player::spec_build;
use vstd::prelude::*;

verus! {

/// Round-trip pairing: feeding `Connect(t1)` then `Disconnect(t2)` for one
/// player closes exactly one session, which runs from `t1` to `t2` with
/// duration `t2 - t1`, and the player's total time grows by exactly that
/// duration while the pending stack returns to where it began.
pub proof fn lemma_round_trip(p: PlayerDataV, name: Seq<char>, t1: Timestamp, t2: Timestamp)
    requires
        p.wf(),
        t1.wf(),
        t2.wf(),
        t2.spec_total_secs() > t1.spec_total_secs(),
    ensures
        ({
            let e1 = PlayerEventV { name, action: PlayerAction::Connect, timestamp: t1 };
            let e2 = PlayerEventV { name, action: PlayerAction::Disconnect, timestamp: t2 };
            let p2 = player_with_event(player_with_event(p, e1), e2);
            let s = spec_build(t1, t2);
            &&& s.start == t1
            &&& s.stop == t2
            &&& s.duration.secs == t2.spec_total_secs() - t1.spec_total_secs()
            &&& p2.days.len() > 0
            &&& p2.days.last().sessions.len() > 0
            &&& p2.days.last().sessions.last() == s
            &&& p2.total_time == p.total_time + (t2.spec_total_secs() - t1.spec_total_secs())
            &&& p2.events == p.events
        }),
{
    lemma_total_secs_bounded(t1);
    lemma_total_secs_bounded(t2);
    let e1 = PlayerEventV { name, action: PlayerAction::Connect, timestamp: t1 };
    let p1 = player_with_event(p, e1);
    assert(p1.events.last() == e1);
    assert(p1.events.drop_last() =~= p.events);
}

/// Day bucketing, first half: absorbing a session opens a new day bucket
/// exactly when there is no bucket yet or the last bucket's date differs
/// from the session's start date; either way the session lands in a last
/// bucket carrying its start date.
pub proof fn lemma_new_day_exactly_on_new_date(days: Seq<PlayerDayV>, s: Session)
    ensures
        days_with_session(days, s).len() == if days.len() == 0 || days.last().date
            != s.start.date {
            days.len() + 1
        } else {
            days.len()
        },
        days_with_session(days, s).last().date == s.start.date,
        days_with_session(days, s).last().sessions.last() == s,
{
}

/// Day bucketing, second half: in a well-formed aggregate, every session
/// of every day bucket starts on that bucket's date.
pub proof fn lemma_sessions_share_bucket_date(p: PlayerDataV)
    requires
        p.wf(),
    ensures
        forall|i: int, j: int|
            0 <= i < p.days.len() && 0 <= j < p.days[i].sessions.len()
                ==> (#[trigger] p.days[i].sessions[j]).start.date == p.days[i].date,
{
    assert forall|i: int, j: int|
        0 <= i < p.days.len() && 0 <= j < p.days[i].sessions.len() implies (
    #[trigger] p.days[i].sessions[j]).start.date == p.days[i].date by {
        assert(p.days[i].wf());
    }
}

/// Unmatched disconnect: a disconnect for a player with nothing pending is
/// itself retained as pending, and no session, bucket or total changes.
pub proof fn lemma_unmatched_disconnect(p: PlayerDataV, e: PlayerEventV)
    requires
        p.events.len() == 0,
        e.action is Disconnect,
    ensures
        player_with_event(p, e).events == p.events.push(e),
        player_with_event(p, e).days == p.days,
        player_with_event(p, e).total_time == p.total_time,
{
}

/// Stacked connects pair most-recent-first: `Connect(t1), Connect(t2),
/// Disconnect(t3)` closes the session from `t2` to `t3`, grows the total
/// by `t3 - t2`, and leaves `t1` pending.
pub proof fn lemma_stacked_connects(
    p: PlayerDataV,
    name: Seq<char>,
    t1: Timestamp,
    t2: Timestamp,
    t3: Timestamp,
)
    requires
        p.wf(),
        t1.wf(),
        t2.wf(),
        t3.wf(),
    ensures
        ({
            let e1 = PlayerEventV { name, action: PlayerAction::Connect, timestamp: t1 };
            let e2 = PlayerEventV { name, action: PlayerAction::Connect, timestamp: t2 };
            let e3 = PlayerEventV { name, action: PlayerAction::Disconnect, timestamp: t3 };
            let p3 = player_with_event(player_with_event(player_with_event(p, e1), e2), e3);
            let s = spec_build(t2, t3);
            &&& p3.events == p.events.push(e1)
            &&& p3.days.len() > 0
            &&& p3.days.last().sessions.last() == s
            &&& p3.total_time == p.total_time + (t3.spec_total_secs() - t2.spec_total_secs())
        }),
{
    lemma_total_secs_bounded(t2);
    lemma_total_secs_bounded(t3);
    let e1 = PlayerEventV { name, action: PlayerAction::Connect, timestamp: t1 };
    let e2 = PlayerEventV { name, action: PlayerAction::Connect, timestamp: t2 };
    let p2 = player_with_event(player_with_event(p, e1), e2);
    assert(p2.events.last() == e2);
    assert(p2.events.drop_last() =~= p.events.push(e1));
}

} // verus!
