//! Tests of the line grammar: headers, clocks, the action phrasings, and
//! the date pattern of log file names.

use log_parse::Date;
use log_parse::Duration;
use log_parse::ParseFailure;
use log_parse::PlayerAction;
use log_parse::TimeOfDay;
use log_parse::bracketed;
use log_parse::duration_hhmmss;
use log_parse::parse_action;
use log_parse::parse_datelike;
use log_parse::parse_event;
use log_parse::parse_log_header;
use log_parse::timestamp;
use log_parse::ts;
use log_parse::user_name;

fn ambient() -> Date {
    Date { year: 2022, month: 3, day: 29 }
}

#[test]
fn bracketed_splits_content_and_rest() {
    let (rest, content) = bracketed("[10:00:00] tail").unwrap();
    assert_eq!(content, "10:00:00");
    assert_eq!(rest, " tail");
}

#[test]
fn bracketed_rejects_unopened_unclosed_or_empty() {
    assert!(bracketed("10:00:00]").is_none());
    assert!(bracketed("[10:00:00").is_none());
    assert!(bracketed("[]rest").is_none());
    assert!(bracketed("").is_none());
}

#[test]
fn ts_recognizes_clock_shape_prefix() {
    let (rest, matched) = ts("10:00:00] x").unwrap();
    assert_eq!(matched, "10:00:00");
    assert_eq!(rest, "] x");
    // the shape recognizer does not range-check the fields
    let (_, loose) = ts("123:456:789").unwrap();
    assert_eq!(loose, "123:456:789");
    assert!(ts("10:00").is_none());
    assert!(ts("ab:cd:ef").is_none());
}

#[test]
fn timestamp_reads_bracketed_clock() {
    let (rest, t) = timestamp("[01:19:56] more").unwrap();
    assert_eq!(t, TimeOfDay { hour: 1, minute: 19, second: 56 });
    assert_eq!(rest, " more");
}

#[test]
fn timestamp_rejects_out_of_range_fields() {
    assert!(timestamp("[24:00:00] x").is_none());
    assert!(timestamp("[10:60:00] x").is_none());
    assert!(timestamp("[10:00:60] x").is_none());
    assert!(timestamp("[10:00] x").is_none());
    assert!(timestamp("[103:00:00] x").is_none());
}

#[test]
fn timestamp_accepts_unpadded_fields() {
    let (_, t) = timestamp("[1:2:3]").unwrap();
    assert_eq!(t, TimeOfDay { hour: 1, minute: 2, second: 3 });
}

#[test]
fn user_name_takes_one_token_between_spaces() {
    let (rest, name) = user_name(" Alice joined").unwrap();
    assert_eq!(name, "Alice");
    assert_eq!(rest, "joined");
    assert!(user_name("Alice ").is_none());
    assert!(user_name("  x").is_none());
    assert!(user_name(" Alice").is_none());
}

#[test]
fn parse_log_header_reads_clock_and_tag() {
    let (rest, header) = parse_log_header("[01:38:25] [Server thread/INFO]: body").unwrap();
    assert_eq!(header.timestamp, TimeOfDay { hour: 1, minute: 38, second: 25 });
    assert_eq!(header.tag, "Server thread/INFO");
    assert_eq!(rest, " body");
}

#[test]
fn parse_log_header_distinguishes_failures() {
    assert_eq!(
        parse_log_header("no brackets here").unwrap_err(),
        ParseFailure::MalformedTimestamp
    );
    assert_eq!(
        parse_log_header("[nonsense] [Tag]: x").unwrap_err(),
        ParseFailure::MalformedTimestamp
    );
    assert_eq!(
        parse_log_header("[10:00:00] no tag").unwrap_err(),
        ParseFailure::MalformedHeader
    );
    assert_eq!(
        parse_log_header("[10:00:00] [Tag] missing colon").unwrap_err(),
        ParseFailure::MalformedHeader
    );
}

#[test]
fn parse_action_chat_style() {
    let (rest, name, action) = parse_action(" Alice joined the game").unwrap();
    assert_eq!(name, "Alice");
    assert_eq!(action, PlayerAction::Connect);
    assert_eq!(rest, "");
    let (_, name, action) = parse_action(" Bob left the game").unwrap();
    assert_eq!(name, "Bob");
    assert_eq!(action, PlayerAction::Disconnect);
}

#[test]
fn parse_action_server_style() {
    let (rest, name, action) =
        parse_action(" UUID of player C4charlieh is 385ac9cd-4e1a-312c-b90c-67b9e947e7ca")
            .unwrap();
    assert_eq!(name, "C4charlieh");
    assert_eq!(action, PlayerAction::Connect);
    assert_eq!(rest, " 385ac9cd-4e1a-312c-b90c-67b9e947e7ca");
    let (_, name, action) = parse_action(" C4charlieh lost connection: Disconnected").unwrap();
    assert_eq!(name, "C4charlieh");
    assert_eq!(action, PlayerAction::Disconnect);
}

#[test]
fn parse_action_rejects_other_text() {
    assert!(parse_action(" Alice strolled the game").is_none());
    assert!(parse_action("no leading space").is_none());
    assert!(parse_action("").is_none());
}

#[test]
fn parse_event_joined_line() {
    let (name, event) =
        parse_event("[10:00:00] [Server]: Alice joined the game", ambient()).unwrap();
    assert_eq!(name, "Alice");
    assert_eq!(event.name, "Alice");
    assert_eq!(event.action, PlayerAction::Connect);
    assert_eq!(event.timestamp.date, ambient());
    assert_eq!(event.timestamp.time, TimeOfDay { hour: 10, minute: 0, second: 0 });
}

#[test]
fn parse_event_server_log_lines() {
    let (name, event) = parse_event(
        "[01:19:56] [User Authenticator #1/INFO]: UUID of player C4charlieh is 385ac9cd",
        ambient(),
    )
    .unwrap();
    assert_eq!(name, "C4charlieh");
    assert_eq!(event.action, PlayerAction::Connect);
    assert_eq!(event.timestamp.time, TimeOfDay { hour: 1, minute: 19, second: 56 });

    let (name, event) = parse_event(
        "[01:38:25] [Server thread/INFO]: C4charlieh lost connection: Disconnected",
        ambient(),
    )
    .unwrap();
    assert_eq!(name, "C4charlieh");
    assert_eq!(event.action, PlayerAction::Disconnect);
}

#[test]
fn parse_event_skips_unrecognized_lines() {
    assert_eq!(
        parse_event("random unrelated text", ambient()).unwrap_err(),
        ParseFailure::MalformedTimestamp
    );
    assert_eq!(
        parse_event("[10:00:00] [Server]: something else entirely", ambient()).unwrap_err(),
        ParseFailure::UnrecognizedLine
    );
}

#[test]
fn parse_datelike_reads_file_name_dates() {
    let (rest, date) = parse_datelike("2022-03-29-1.log.gz").unwrap();
    assert_eq!(date, Date { year: 2022, month: 3, day: 29 });
    assert_eq!(rest, "-1.log.gz");
}

#[test]
fn parse_datelike_checks_the_calendar() {
    assert!(parse_datelike("2022-13-01").is_none());
    assert!(parse_datelike("2022-00-10").is_none());
    assert!(parse_datelike("2022-04-31").is_none());
    assert!(parse_datelike("2023-02-29").is_none());
    assert!(parse_datelike("2024-02-29").is_some());
    assert!(parse_datelike("2000-02-29").is_some());
    assert!(parse_datelike("1900-02-29").is_none());
    assert!(parse_datelike("nodate.log").is_none());
    assert!(parse_datelike("202-03-29").is_none());
}

#[test]
fn duration_hhmmss_formats_3725_seconds() {
    assert_eq!(duration_hhmmss(Duration { secs: 3725 }), "01:02:05");
}

#[test]
fn duration_hhmmss_edge_values() {
    assert_eq!(duration_hhmmss(Duration { secs: 0 }), "00:00:00");
    assert_eq!(duration_hhmmss(Duration { secs: 59 }), "00:00:59");
    assert_eq!(duration_hhmmss(Duration { secs: 60 }), "00:01:00");
    // hours beyond a day are not wrapped
    assert_eq!(duration_hhmmss(Duration { secs: 90_061 }), "25:01:01");
    assert_eq!(duration_hhmmss(Duration { secs: 360_000 }), "100:00:00");
    // negative spans follow the rounding of machine division per field
    assert_eq!(duration_hhmmss(Duration { secs: -3725 }), "-1:-2:-5");
    assert_eq!(duration_hhmmss(Duration { secs: -65 }), "00:-1:-5");
    assert_eq!(
        duration_hhmmss(Duration { secs: i64::MIN }),
        "-2562047788015215:-30:-8"
    );
}
