//! Tests of the pairing state machine, the day bucketing and the registry.

use log_parse::Date;
use log_parse::GameInfo;
use log_parse::PlayerAction;
use log_parse::PlayerData;
use log_parse::PlayerDay;
use log_parse::PlayerEvent;
use log_parse::Session;
use log_parse::TimeOfDay;
use log_parse::Timestamp;
use log_parse::duration_hhmmss;

fn day(year: u32, month: u32, d: u32) -> Date {
    Date { year, month, day: d }
}

fn at(date: Date, hour: u32, minute: u32, second: u32) -> Timestamp {
    Timestamp { date, time: TimeOfDay { hour, minute, second } }
}

fn ev(name: &str, action: PlayerAction, t: Timestamp) -> PlayerEvent {
    PlayerEvent::new(name.to_string(), action, t)
}

fn days_equal(a: &PlayerDay, b: &PlayerDay) -> bool {
    a.date == b.date && a.sessions == b.sessions && a.total_time == b.total_time
}

#[test]
fn session_build_takes_signed_difference() {
    let d = day(2022, 3, 29);
    let joined = ev("Alice", PlayerAction::Connect, at(d, 10, 0, 0));
    let left = ev("Alice", PlayerAction::Disconnect, at(d, 10, 30, 0));
    let s = Session::build(&joined, &left);
    assert_eq!(s.start, at(d, 10, 0, 0));
    assert_eq!(s.stop, at(d, 10, 30, 0));
    assert_eq!(s.duration().secs, 1800);
}

#[test]
fn session_build_spans_midnight() {
    let joined = ev("A", PlayerAction::Connect, at(day(2022, 3, 29), 23, 0, 0));
    let left = ev("A", PlayerAction::Disconnect, at(day(2022, 3, 30), 1, 0, 0));
    let s = Session::build(&joined, &left);
    assert_eq!(s.duration().secs, 7200);
}

#[test]
fn session_build_knows_the_calendar() {
    // leap year: the day after 2024-02-28 is 2024-02-29
    let s = Session::build(
        &ev("A", PlayerAction::Connect, at(day(2024, 2, 28), 23, 0, 0)),
        &ev("A", PlayerAction::Disconnect, at(day(2024, 2, 29), 1, 0, 0)),
    );
    assert_eq!(s.duration().secs, 7200);
    // ordinary year: the day after 2023-02-28 is 2023-03-01
    let s = Session::build(
        &ev("A", PlayerAction::Connect, at(day(2023, 2, 28), 23, 0, 0)),
        &ev("A", PlayerAction::Disconnect, at(day(2023, 3, 1), 1, 0, 0)),
    );
    assert_eq!(s.duration().secs, 7200);
    // in a leap year, 03-01 is two days after 02-28
    let s = Session::build(
        &ev("A", PlayerAction::Connect, at(day(2024, 2, 28), 23, 0, 0)),
        &ev("A", PlayerAction::Disconnect, at(day(2024, 3, 1), 1, 0, 0)),
    );
    assert_eq!(s.duration().secs, 93_600);
    // across a year boundary
    let s = Session::build(
        &ev("A", PlayerAction::Connect, at(day(2022, 12, 31), 23, 0, 0)),
        &ev("A", PlayerAction::Disconnect, at(day(2023, 1, 1), 1, 0, 0)),
    );
    assert_eq!(s.duration().secs, 7200);
    // a century year that is not leap: 1900-03-01 follows 1900-02-28
    let s = Session::build(
        &ev("A", PlayerAction::Connect, at(day(1900, 2, 28), 23, 0, 0)),
        &ev("A", PlayerAction::Disconnect, at(day(1900, 3, 1), 1, 0, 0)),
    );
    assert_eq!(s.duration().secs, 7200);
}

#[test]
fn round_trip_pairing_updates_total() {
    let d = day(2022, 3, 29);
    let mut p = PlayerData::new("Alice");
    p.add_event(ev("Alice", PlayerAction::Connect, at(d, 10, 0, 0)));
    assert_eq!(p.events.len(), 1);
    assert_eq!(p.total_time().secs, 0);
    p.add_event(ev("Alice", PlayerAction::Disconnect, at(d, 10, 30, 0)));
    assert_eq!(p.events.len(), 0);
    assert_eq!(p.total_time().secs, 1800);
    assert_eq!(p.days.len(), 1);
    let s = p.days[0].sessions[0];
    assert_eq!(s.start, at(d, 10, 0, 0));
    assert_eq!(s.stop, at(d, 10, 30, 0));
    assert_eq!(s.duration().secs, 1800);
}

#[test]
fn unmatched_disconnect_is_retained_as_pending() {
    let d = day(2022, 3, 29);
    let mut p = PlayerData::new("Alice");
    p.add_event(ev("Alice", PlayerAction::Disconnect, at(d, 10, 30, 0)));
    assert_eq!(p.events.len(), 1);
    assert_eq!(p.events[0].action, PlayerAction::Disconnect);
    assert_eq!(p.days.len(), 0);
    assert_eq!(p.total_time().secs, 0);
}

#[test]
fn stacked_connects_pair_most_recent_first() {
    let d = day(2022, 3, 29);
    let t1 = at(d, 9, 0, 0);
    let t2 = at(d, 10, 0, 0);
    let t3 = at(d, 10, 45, 0);
    let mut p = PlayerData::new("Alice");
    p.add_event(ev("Alice", PlayerAction::Connect, t1));
    p.add_event(ev("Alice", PlayerAction::Connect, t2));
    p.add_event(ev("Alice", PlayerAction::Disconnect, t3));
    // t2 paired with t3; t1 left pending forever
    assert_eq!(p.events.len(), 1);
    assert_eq!(p.events[0].timestamp, t1);
    assert_eq!(p.days.len(), 1);
    assert_eq!(p.days[0].sessions.len(), 1);
    assert_eq!(p.days[0].sessions[0].start, t2);
    assert_eq!(p.days[0].sessions[0].stop, t3);
    assert_eq!(p.total_time().secs, 2700);
}

#[test]
fn day_buckets_open_exactly_on_new_dates() {
    let d1 = day(2022, 3, 29);
    let d2 = day(2022, 3, 30);
    let mut p = PlayerData::new("Alice");
    p.add_event(ev("Alice", PlayerAction::Connect, at(d1, 10, 0, 0)));
    p.add_event(ev("Alice", PlayerAction::Disconnect, at(d1, 10, 30, 0)));
    p.add_event(ev("Alice", PlayerAction::Connect, at(d1, 11, 0, 0)));
    p.add_event(ev("Alice", PlayerAction::Disconnect, at(d1, 11, 5, 0)));
    assert_eq!(p.days.len(), 1);
    assert_eq!(p.days[0].sessions.len(), 2);
    p.add_event(ev("Alice", PlayerAction::Connect, at(d2, 9, 0, 0)));
    p.add_event(ev("Alice", PlayerAction::Disconnect, at(d2, 9, 10, 0)));
    assert_eq!(p.days.len(), 2);
    for bucket in &p.days {
        for s in &bucket.sessions {
            assert_eq!(s.start.date, bucket.date);
        }
    }
    assert_eq!(p.days[0].date, d1);
    assert_eq!(p.days[0].total_time.secs, 2100);
    assert_eq!(p.days[1].date, d2);
    assert_eq!(p.days[1].total_time.secs, 600);
    assert_eq!(p.total_time().secs, 2700);
}

#[test]
fn player_day_rejects_session_of_another_date() {
    let d1 = day(2022, 3, 29);
    let d2 = day(2022, 3, 30);
    let mut bucket = PlayerDay::new(d1);
    let joined = ev("A", PlayerAction::Connect, at(d2, 1, 0, 0));
    let left = ev("A", PlayerAction::Disconnect, at(d2, 2, 0, 0));
    let s = Session::build(&joined, &left);
    let rejected = bucket.add_session(s).unwrap_err();
    assert_eq!(rejected, s);
    assert_eq!(bucket.sessions.len(), 0);
    assert_eq!(bucket.total_time.secs, 0);

    let joined = ev("A", PlayerAction::Connect, at(d1, 1, 0, 0));
    let left = ev("A", PlayerAction::Disconnect, at(d1, 2, 0, 0));
    let s = Session::build(&joined, &left);
    assert!(bucket.add_session(s).is_ok());
    assert_eq!(bucket.sessions.len(), 1);
    assert_eq!(bucket.total_time.secs, 3600);
}

#[test]
fn negative_duration_propagates_into_totals() {
    // the stop precedes the start: nothing rejects the pair, and the
    // negative span silently flows into the totals
    let d = day(2022, 3, 29);
    let mut p = PlayerData::new("Alice");
    p.add_event(ev("Alice", PlayerAction::Connect, at(d, 12, 0, 0)));
    p.add_event(ev("Alice", PlayerAction::Disconnect, at(d, 11, 0, 0)));
    assert_eq!(p.total_time().secs, -3600);
}

#[test]
fn registry_routes_by_player_name() {
    let d = day(2022, 3, 29);
    let mut g = GameInfo::new();
    g.add_event(ev("Alice", PlayerAction::Connect, at(d, 10, 0, 0)));
    g.add_event(ev("Bob", PlayerAction::Connect, at(d, 10, 5, 0)));
    g.add_event(ev("Alice", PlayerAction::Disconnect, at(d, 10, 30, 0)));
    g.add_event(ev("Bob", PlayerAction::Disconnect, at(d, 10, 6, 0)));
    assert_eq!(g.players.len(), 2);
    assert_eq!(g.players[0].name, "Alice");
    assert_eq!(g.players[0].total_time().secs, 1800);
    assert_eq!(g.players[1].name, "Bob");
    assert_eq!(g.players[1].total_time().secs, 60);
}

#[test]
fn end_to_end_scenario() {
    let lines = [
        "[10:00:00] [Server]: Alice joined the game",
        "[10:30:00] [Server]: Alice left the game",
        "[11:00:00] [Server]: Alice joined the game",
        "[11:05:00] [Server]: Alice left the game",
    ];
    let ambient = day(2022, 3, 29);
    let mut g = GameInfo::new();
    for line in lines {
        assert!(g.all_have_headroom());
        assert!(g.ingest_line(line, ambient));
    }
    assert_eq!(g.players.len(), 1);
    let alice = &g.players[0];
    assert_eq!(alice.name, "Alice");
    assert_eq!(alice.days.len(), 1);
    let bucket = &alice.days[0];
    assert_eq!(bucket.date, ambient);
    assert_eq!(bucket.sessions.len(), 2);
    assert_eq!(bucket.sessions[0].duration().secs, 1800);
    assert_eq!(bucket.sessions[1].duration().secs, 300);
    assert_eq!(duration_hhmmss(bucket.sessions[0].duration()), "00:30:00");
    assert_eq!(duration_hhmmss(bucket.sessions[1].duration()), "00:05:00");
    assert_eq!(alice.total_time().secs, 2100);
    assert_eq!(duration_hhmmss(alice.total_time()), "00:35:00");
}

#[test]
fn unrecognized_line_leaves_registry_unchanged() {
    let ambient = day(2022, 3, 29);
    let mut g = GameInfo::new();
    assert!(g.ingest_line("[10:00:00] [Server]: Alice joined the game", ambient));
    assert!(g.ingest_line("[10:30:00] [Server]: Alice left the game", ambient));
    let before: Vec<_> = g
        .players
        .iter()
        .map(|p| (p.name.clone(), p.events.clone(), p.days.clone(), p.total_time))
        .collect();

    assert!(!g.ingest_line("random unrelated text", ambient));

    assert_eq!(g.players.len(), before.len());
    for (p, (name, events, days, total)) in g.players.iter().zip(before.iter()) {
        assert_eq!(&p.name, name);
        assert_eq!(&p.events, events);
        assert_eq!(p.days.len(), days.len());
        for (a, b) in p.days.iter().zip(days.iter()) {
            assert!(days_equal(a, b));
        }
        assert_eq!(&p.total_time, total);
    }
}

#[test]
fn pending_event_survives_across_sources() {
    // a connect left open in one file closes in the next, under the
    // next file's ambient date
    let mut g = GameInfo::new();
    assert!(g.ingest_line("[23:50:00] [Server]: Alice joined the game", day(2022, 3, 29)));
    assert!(g.ingest_line("[00:10:00] [Server]: Alice left the game", day(2022, 3, 30)));
    let alice = &g.players[0];
    assert_eq!(alice.total_time().secs, 1200);
    assert_eq!(alice.days.len(), 1);
    // the session is filed under the date it started... the bucket takes
    // the start date of the session
    assert_eq!(alice.days[0].date, day(2022, 3, 29));
}

#[test]
fn headroom_checks_accept_fresh_registries() {
    let d = day(2022, 3, 29);
    let mut g = GameInfo::new();
    assert!(g.all_have_headroom());
    let e = ev("Alice", PlayerAction::Connect, at(d, 10, 0, 0));
    assert!(g.can_absorb(&e));
    assert!(e.is_valid());
    g.add_event(e);
    assert!(g.all_have_headroom());
}

#[test]
fn invalid_timestamp_detected_by_validity_check() {
    let bad = PlayerEvent::new(
        "Alice".to_string(),
        PlayerAction::Connect,
        Timestamp {
            date: Date { year: 2022, month: 2, day: 30 },
            time: TimeOfDay { hour: 10, minute: 0, second: 0 },
        },
    );
    assert!(!bad.is_valid());
}
