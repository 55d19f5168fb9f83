//! Reconstructs per-player connection sessions from line-oriented server
//! logs.
//!
//! Raw lines carry a `[H:M:S] [tag]:` header followed by one of the known
//! connect/disconnect phrasings. Each recognized line, combined with the
//! ambient calendar date of its source, becomes a timestamped event; a
//! per-player state machine pairs connects with disconnects into sessions,
//! groups sessions into calendar-day buckets, and keeps running totals,
//! ready for read-only reporting.
//!
//! Reading files, decompression, date inference from file metadata and
//! report printing are left to the surrounding program; the library works
//! on plain lines and dates and never performs I/O.

pub mod datetime;
pub mod game;
pub mod laws;
pub mod parser;
pub mod player;

pub use datetime::Date;
pub use datetime::Duration;
pub use datetime::TimeOfDay;
pub use datetime::Timestamp;
pub use datetime::duration_hhmmss;
pub use game::GameInfo;
pub use parser::LogHeader;
pub use parser::ParseFailure;
pub use parser::PlayerAction;
pub use parser::PlayerEvent;
pub use parser::bracketed;
pub use parser::parse_action;
pub use parser::parse_datelike;
pub use parser::parse_event;
pub use parser::parse_log_header;
pub use parser::timestamp;
pub use parser::ts;
pub use parser::user_name;
pub use player::PlayerData;
pub use player::PlayerDay;
pub use player::Session;
