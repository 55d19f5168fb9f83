//! The line grammar: a bracketed clock reading and a bracketed tag form the
//! header, and the remainder of the line is matched against the known
//! connect/disconnect phrasings.
//!
//! Lines that do not match are skipped by callers, never fatal. The grammar
//! is tolerant of two historical phrasings: a chat style
//! (`<name> joined the game` / `<name> left the game`) and a server-log
//! style (`UUID of player <name> is` / `<name> lost connection:
//! Disconnected`), tried in that order.

use crate::datetime::Date;
use crate::datetime::TimeOfDay;
use crate::datetime::Timestamp;
use vstd::prelude::*;
use vstd::string::StrSliceExecFns;
use vstd::string::StringExecFns;

verus! {

/// Why a line could not be read as an event. None of these is fatal: the
/// caller drops the line and goes on.
#[derive(Clone, Copy, Debug, PartialEq, Eq, Structural)]
pub enum ParseFailure {
    /// The leading bracketed text is absent or is not a clock reading.
    MalformedTimestamp,
    /// The space, bracketed tag and colon after the clock are absent.
    MalformedHeader,
    /// The header parsed but no known phrasing matched the remainder.
    UnrecognizedLine,
}

/// What a recognized line says the player did.
#[derive(Clone, Copy, Debug, PartialEq, Eq, Structural)]
pub enum PlayerAction {
    Connect,
    Disconnect,
}

/// One recognized connect or disconnect, stamped with the full timestamp
/// formed from the ambient date and the line's clock reading.
#[derive(Debug, Clone)]
pub struct PlayerEvent {
    pub name: String,
    pub action: PlayerAction,
    pub timestamp: Timestamp,
}

/// The mathematical image of a `PlayerEvent`.
pub ghost struct PlayerEventV {
    pub name: Seq<char>,
    pub action: PlayerAction,
    pub timestamp: Timestamp,
}

impl PlayerEventV {
    pub open spec fn wf(self) -> bool {
        self.timestamp.wf()
    }
}

impl View for PlayerEvent {
    type V = PlayerEventV;

    open spec fn view(&self) -> PlayerEventV {
        PlayerEventV { name: self.name@, action: self.action, timestamp: self.timestamp }
    }
}

impl PlayerEvent {
    pub fn new(name: String, action: PlayerAction, timestamp: Timestamp) -> (e: Self)
        ensures
            e@ == (PlayerEventV { name: name@, action, timestamp }),
    {
        Self { name, action, timestamp }
    }

    /// Checks that the event's timestamp is a real calendar date and clock
    /// reading; unverified callers test this before handing the event on.
    pub fn is_valid(&self) -> (b: bool)
        ensures
            b == self@.wf(),
    {
        self.timestamp.date.is_valid() && self.timestamp.time.hour <= 23
            && self.timestamp.time.minute <= 59 && self.timestamp.time.second <= 59
    }
}

impl PartialEq for PlayerEvent {
    /// Two events are equal iff name, action and timestamp all are.
    fn eq(&self, other: &Self) -> (r: bool) {
        self.name == other.name && self.action == other.action && self.timestamp
            == other.timestamp
    }
}

impl vstd::std_specs::cmp::PartialEqSpecImpl for PlayerEvent {
    open spec fn obeys_eq_spec() -> bool {
        true
    }

    open spec fn eq_spec(&self, other: &Self) -> bool {
        self@ == other@
    }
}

/// The header of a log line: the clock reading and the bracketed tag after
/// it. The tag is unused downstream but captured for forward compatibility.
#[derive(Debug, Clone)]
pub struct LogHeader {
    pub timestamp: TimeOfDay,
    pub tag: String,
}

pub open spec fn is_digit(c: char) -> bool {
    '0' <= c && c <= '9'
}

pub open spec fn digit_val(c: char) -> int {
    c as int - '0' as int
}

/// First position at or after `i` that does not hold a decimal digit.
pub open spec fn digit_run_end(s: Seq<char>, i: int) -> int
    decreases s.len() - i,
{
    if i < s.len() && is_digit(s[i]) {
        digit_run_end(s, i + 1)
    } else {
        i
    }
}

/// First position at or after `i` that holds `']'`, or the end.
pub open spec fn non_close_end(s: Seq<char>, i: int) -> int
    decreases s.len() - i,
{
    if i < s.len() && s[i] != ']' {
        non_close_end(s, i + 1)
    } else {
        i
    }
}

/// First position at or after `i` that holds `' '`, or the end.
pub open spec fn non_space_end(s: Seq<char>, i: int) -> int
    decreases s.len() - i,
{
    if i < s.len() && s[i] != ' ' {
        non_space_end(s, i + 1)
    } else {
        i
    }
}

/// The value of the decimal digits `s[i..j)`.
pub open spec fn digits_value(s: Seq<char>, i: int, j: int) -> int
    decreases j - i,
{
    if i < j {
        10 * digits_value(s, i, j - 1) + digit_val(s[j - 1])
    } else {
        0
    }
}

/// The literal `lit` occurs in `s` starting at position `i`.
pub open spec fn lit_at(s: Seq<char>, i: int, lit: Seq<char>) -> bool {
    0 <= i && i + lit.len() <= s.len() && s.subrange(i, i + lit.len()) == lit
}

fn is_digit_exec(c: char) -> (b: bool)
    ensures
        b == is_digit(c),
{
    '0' <= c && c <= '9'
}

fn scan_digits(s: &str, i: usize) -> (j: usize)
    requires
        i <= s@.len(),
    ensures
        j == digit_run_end(s@, i as int),
        i <= j <= s@.len(),
        forall|t: int| i <= t < j ==> is_digit(s@[t]),
        j < s@.len() ==> !is_digit(s@[j as int]),
{
    let n = s.unicode_len();
    let mut j = i;
    while j < n && is_digit_exec(s.get_char(j))
        invariant
            i <= j <= n,
            n == s@.len(),
            digit_run_end(s@, i as int) == digit_run_end(s@, j as int),
            forall|t: int| i <= t < j ==> is_digit(s@[t]),
        decreases n - j,
    {
        j += 1;
    }
    j
}

fn scan_non_close(s: &str, i: usize) -> (j: usize)
    requires
        i <= s@.len(),
    ensures
        j == non_close_end(s@, i as int),
        i <= j <= s@.len(),
        forall|t: int| i <= t < j ==> s@[t] != ']',
        j < s@.len() ==> s@[j as int] == ']',
{
    let n = s.unicode_len();
    let mut j = i;
    while j < n && s.get_char(j) != ']'
        invariant
            i <= j <= n,
            n == s@.len(),
            non_close_end(s@, i as int) == non_close_end(s@, j as int),
            forall|t: int| i <= t < j ==> s@[t] != ']',
        decreases n - j,
    {
        j += 1;
    }
    j
}

fn scan_non_space(s: &str, i: usize) -> (j: usize)
    requires
        i <= s@.len(),
    ensures
        j == non_space_end(s@, i as int),
        i <= j <= s@.len(),
        forall|t: int| i <= t < j ==> s@[t] != ' ',
        j < s@.len() ==> s@[j as int] == ' ',
{
    let n = s.unicode_len();
    let mut j = i;
    while j < n && s.get_char(j) != ' '
        invariant
            i <= j <= n,
            n == s@.len(),
            non_space_end(s@, i as int) == non_space_end(s@, j as int),
            forall|t: int| i <= t < j ==> s@[t] != ' ',
        decreases n - j,
    {
        j += 1;
    }
    j
}

/// Whether `lit` occurs in `s` at position `i`.
fn match_lit(s: &str, i: usize, lit: &str) -> (b: bool)
    requires
        i <= s@.len(),
    ensures
        b == lit_at(s@, i as int, lit@),
{
    let n = s.unicode_len();
    let m = lit.unicode_len();
    if m > n - i {
        return false;
    }
    let mut k: usize = 0;
    while k < m
        invariant
            0 <= k <= m,
            i + m <= n,
            n == s@.len(),
            m == lit@.len(),
            forall|t: int| 0 <= t < k ==> s@[i + t] == lit@[t],
        decreases m - k,
    {
        if s.get_char(i + k) != lit.get_char(k) {
            proof {
                let ghost sub = s@.subrange(i as int, i + m);
                assert(sub == lit@ ==> sub[k as int] == lit@[k as int]);
            }
            return false;
        }
        k += 1;
    }
    proof {
        assert(s@.subrange(i as int, i + m) =~= lit@);
    }
    true
}

pub open spec fn pow10(n: nat) -> int
    decreases n,
{
    if n == 0 {
        1
    } else {
        10 * pow10((n - 1) as nat)
    }
}

/// A run of `j - i` digits has a value below `10^(j - i)`.
proof fn lemma_digits_value_bound(s: Seq<char>, i: int, j: int)
    requires
        0 <= i <= j <= s.len(),
        forall|t: int| i <= t < j ==> is_digit(s[t]),
    ensures
        0 <= digits_value(s, i, j) < pow10((j - i) as nat),
    decreases j - i,
{
    if i < j {
        lemma_digits_value_bound(s, i, j - 1);
    }
}

/// Reads the decimal digits `s[i..j)` as a number.
fn read_digits(s: &str, i: usize, j: usize) -> (v: u32)
    requires
        i <= j <= s@.len(),
        j - i <= 4,
        forall|t: int| i <= t < j ==> is_digit(s@[t]),
    ensures
        v == digits_value(s@, i as int, j as int),
        v <= 9999,
{
    let mut v: u32 = 0;
    let mut k = i;
    while k < j
        invariant
            i <= k <= j <= s@.len(),
            j - i <= 4,
            forall|t: int| i <= t < j ==> is_digit(s@[t]),
            v == digits_value(s@, i as int, k as int),
            v <= 9999,
        decreases j - k,
    {
        proof {
            lemma_digits_value_bound(s@, i as int, k as int);
            assert(pow10((k - i) as nat) <= 1000) by {
                reveal_with_fuel(pow10, 5);
            }
        }
        let c = s.get_char(k);
        let d: u32 = (c as u32) - ('0' as u32);
        v = 10 * v + d;
        k += 1;
    }
    v
}

/// Everything up to the end of a digit run is a digit.
proof fn lemma_digit_run_digits(s: Seq<char>, i: int)
    requires
        0 <= i <= s.len(),
    ensures
        i <= digit_run_end(s, i) <= s.len(),
        forall|t: int| i <= t < digit_run_end(s, i) ==> is_digit(s[t]),
    decreases s.len() - i,
{
    if i < s.len() && is_digit(s[i]) {
        lemma_digit_run_digits(s, i + 1);
    }
}

/// A clock reading produced by the grammar is a valid 24-hour reading.
proof fn lemma_clock_wf(s: Seq<char>)
    ensures
        spec_clock(s) matches Some(t) ==> t.wf(),
{
    let i1 = digit_run_end(s, 0);
    let i2 = digit_run_end(s, i1 + 1);
    let i3 = digit_run_end(s, i2 + 1);
    if 1 <= i1 <= 2 && i1 < s.len() && s[i1] == ':' && 1 <= i2 - (i1 + 1) <= 2 && i2 < s.len()
        && s[i2] == ':' && 1 <= i3 - (i2 + 1) <= 2 && i3 == s.len() {
        lemma_digit_run_digits(s, 0);
        lemma_digit_run_digits(s, i1 + 1);
        lemma_digit_run_digits(s, i2 + 1);
        lemma_digits_value_bound(s, 0, i1);
        lemma_digits_value_bound(s, i1 + 1, i2);
        lemma_digits_value_bound(s, i2 + 1, i3);
    }
}

/// The whole of `s` read as an `H:M:S` clock: one or two digits per field,
/// each field in range for a 24-hour clock.
pub open spec fn spec_clock(s: Seq<char>) -> Option<TimeOfDay> {
    let i1 = digit_run_end(s, 0);
    let i2 = digit_run_end(s, i1 + 1);
    let i3 = digit_run_end(s, i2 + 1);
    if 1 <= i1 <= 2 && i1 < s.len() && s[i1] == ':' && 1 <= i2 - (i1 + 1) <= 2 && i2 < s.len()
        && s[i2] == ':' && 1 <= i3 - (i2 + 1) <= 2 && i3 == s.len() {
        let h = digits_value(s, 0, i1);
        let m = digits_value(s, i1 + 1, i2);
        let sec = digits_value(s, i2 + 1, i3);
        if h <= 23 && m <= 59 && sec <= 59 {
            Some(TimeOfDay { hour: h as u32, minute: m as u32, second: sec as u32 })
        } else {
            None
        }
    } else {
        None
    }
}

/// Reads the whole of `s` as an `H:M:S` clock.
fn parse_clock(s: &str) -> (r: Option<TimeOfDay>)
    ensures
        r == spec_clock(s@),
{
    let n = s.unicode_len();
    let i1 = scan_digits(s, 0);
    if !(1 <= i1 && i1 <= 2 && i1 < n && s.get_char(i1) == ':') {
        return None;
    }
    let i2 = scan_digits(s, i1 + 1);
    if !(i1 + 1 < i2 && i2 - (i1 + 1) <= 2 && i2 < n && s.get_char(i2) == ':') {
        return None;
    }
    let i3 = scan_digits(s, i2 + 1);
    if !(i2 + 1 < i3 && i3 - (i2 + 1) <= 2 && i3 == n) {
        return None;
    }
    let h = read_digits(s, 0, i1);
    let m = read_digits(s, i1 + 1, i2);
    let sec = read_digits(s, i2 + 1, i3);
    if h <= 23 && m <= 59 && sec <= 59 {
        Some(TimeOfDay { hour: h, minute: m, second: sec })
    } else {
        None
    }
}

/// `s` holds at position `i` a `[`, then at least one character other than
/// `]`, then a `]`.
pub open spec fn bracket_ok(s: Seq<char>, i: int) -> bool {
    &&& 0 <= i < s.len()
    &&& s[i] == '['
    &&& non_close_end(s, i + 1) < s.len()
    &&& non_close_end(s, i + 1) > i + 1
}

/// The text between the brackets that open at position `i`.
pub open spec fn bracket_content(s: Seq<char>, i: int) -> Seq<char> {
    s.subrange(i + 1, non_close_end(s, i + 1))
}

/// The position just after the `]` that closes the bracket at position `i`.
pub open spec fn bracket_after(s: Seq<char>, i: int) -> int {
    non_close_end(s, i + 1) + 1
}

/// Splits off a leading bracketed field: `[` then the content (nonempty,
/// free of `]`) then `]`. Returns the remainder and the content, or `None`
/// when the input does not open with such a field.
pub fn bracketed<'a>(input: &'a str) -> (r: Option<(&'a str, &'a str)>)
    ensures
        match r {
            Some(p) => bracket_ok(input@, 0) && p.1@ == bracket_content(input@, 0) && p.0@
                == input@.subrange(bracket_after(input@, 0), input@.len() as int),
            None => !bracket_ok(input@, 0),
        },
{
    let n = input.unicode_len();
    if n == 0 || input.get_char(0) != '[' {
        return None;
    }
    let j = scan_non_close(input, 1);
    if j >= n || j == 1 {
        return None;
    }
    let content = input.substring_char(1, j);
    let rest = input.substring_char(j + 1, n);
    Some((rest, content))
}

/// End of a leading `digits:digits:digits` shape (runs of one or more
/// digits, values unchecked), or `-1` when the input does not open with one.
pub open spec fn spec_ts_end(s: Seq<char>) -> int {
    let i1 = digit_run_end(s, 0);
    let i2 = digit_run_end(s, i1 + 1);
    let i3 = digit_run_end(s, i2 + 1);
    if i1 > 0 && i1 < s.len() && s[i1] == ':' && i2 > i1 + 1 && i2 < s.len() && s[i2] == ':' && i3
        > i2 + 1 {
        i3
    } else {
        -1
    }
}

/// Recognizes a leading `digits:digits:digits` shape: a looser clock shape
/// whose digit runs may be any length and whose values are not
/// range-checked. Returns the remainder and the matched prefix.
pub fn ts<'a>(input: &'a str) -> (r: Option<(&'a str, &'a str)>)
    ensures
        match r {
            Some(p) => spec_ts_end(input@) >= 0 && p.1@ == input@.subrange(0, spec_ts_end(input@))
                && p.0@ == input@.subrange(spec_ts_end(input@), input@.len() as int),
            None => spec_ts_end(input@) == -1,
        },
{
    let n = input.unicode_len();
    let i1 = scan_digits(input, 0);
    if !(i1 > 0 && i1 < n && input.get_char(i1) == ':') {
        return None;
    }
    let i2 = scan_digits(input, i1 + 1);
    if !(i2 > i1 + 1 && i2 < n && input.get_char(i2) == ':') {
        return None;
    }
    let i3 = scan_digits(input, i2 + 1);
    if !(i3 > i2 + 1) {
        return None;
    }
    Some((input.substring_char(i3, n), input.substring_char(0, i3)))
}

/// `s` opens at position `i` with a bracketed field whose content is a
/// valid clock reading.
pub open spec fn spec_timestamp_ok(s: Seq<char>) -> bool {
    bracket_ok(s, 0) && spec_clock(bracket_content(s, 0)) is Some
}

/// Reads a leading `[H:M:S]` clock field. Returns the remainder and the
/// clock reading, or `None` when the brackets or the clock are malformed.
pub fn timestamp<'a>(input: &'a str) -> (r: Option<(&'a str, TimeOfDay)>)
    ensures
        match r {
            Some(p) => spec_timestamp_ok(input@) && Some(p.1) == spec_clock(
                bracket_content(input@, 0),
            ) && p.0@ == input@.subrange(bracket_after(input@, 0), input@.len() as int),
            None => !spec_timestamp_ok(input@),
        },
{
    match bracketed(input) {
        None => None,
        Some((rest, content)) => match parse_clock(content) {
            None => None,
            Some(t) => Some((rest, t)),
        },
    }
}

/// `s` holds at position `i` a space, then a nonempty run free of spaces,
/// then a space.
pub open spec fn token_ok(s: Seq<char>, i: int) -> bool {
    &&& 0 <= i < s.len()
    &&& s[i] == ' '
    &&& non_space_end(s, i + 1) > i + 1
    &&& non_space_end(s, i + 1) < s.len()
}

/// The space-free run of the token at position `i`.
pub open spec fn token_name(s: Seq<char>, i: int) -> Seq<char> {
    s.subrange(i + 1, non_space_end(s, i + 1))
}

/// The position just after the space that closes the token at position `i`.
pub open spec fn token_after(s: Seq<char>, i: int) -> int {
    non_space_end(s, i + 1) + 1
}

/// Splits off a leading user-name token: a space, the name (nonempty, free
/// of spaces), a space. Returns the remainder and the name.
pub fn user_name<'a>(input: &'a str) -> (r: Option<(&'a str, &'a str)>)
    ensures
        match r {
            Some(p) => token_ok(input@, 0) && p.1@ == token_name(input@, 0) && p.0@
                == input@.subrange(token_after(input@, 0), input@.len() as int),
            None => !token_ok(input@, 0),
        },
{
    let n = input.unicode_len();
    if n == 0 || input.get_char(0) != ' ' {
        return None;
    }
    let j = scan_non_space(input, 1);
    if j == 1 || j >= n {
        return None;
    }
    let name = input.substring_char(1, j);
    let rest = input.substring_char(j + 1, n);
    Some((rest, name))
}

/// The server-log phrasings: ` UUID of player <name> is` records a
/// connect, `<name> lost connection: Disconnected` a disconnect. Yields
/// the name, the action and the position of the remainder.
pub open spec fn spec_server_action(s: Seq<char>) -> Option<(Seq<char>, PlayerAction, int)> {
    if lit_at(s, 0, " UUID of player"@) && token_ok(s, " UUID of player"@.len() as int) && lit_at(
        s,
        token_after(s, " UUID of player"@.len() as int),
        "is"@,
    ) {
        let i = " UUID of player"@.len() as int;
        Some((token_name(s, i), PlayerAction::Connect, token_after(s, i) + "is"@.len()))
    } else if token_ok(s, 0) && lit_at(s, token_after(s, 0), "lost connection: Disconnected"@) {
        Some(
            (
                token_name(s, 0),
                PlayerAction::Disconnect,
                token_after(s, 0) + "lost connection: Disconnected"@.len(),
            ),
        )
    } else {
        None
    }
}

/// The action grammar over what follows the header: the chat phrasings
/// (`<name> joined the game` / `<name> left the game`) are tried first,
/// then the server-log phrasings; the first that matches wins.
pub open spec fn spec_action(s: Seq<char>) -> Option<(Seq<char>, PlayerAction, int)> {
    if token_ok(s, 0) && lit_at(s, token_after(s, 0), "joined the game"@) {
        Some((token_name(s, 0), PlayerAction::Connect, token_after(s, 0) + "joined the game"@.len()))
    } else if token_ok(s, 0) && lit_at(s, token_after(s, 0), "left the game"@) {
        Some((token_name(s, 0), PlayerAction::Disconnect, token_after(s, 0) + "left the game"@.len()))
    } else {
        spec_server_action(s)
    }
}

/// Matches the known phrasings against `input`, the part of a line after
/// its header. Returns the remainder, the player name and the action, or
/// `None` when no phrasing matches.
pub fn parse_action<'a>(input: &'a str) -> (r: Option<(&'a str, &'a str, PlayerAction)>)
    ensures
        match spec_action(input@) {
            Some(p) => r matches Some(e) && e.1@ == p.0 && e.2 == p.1 && e.0@ == input@.subrange(
                p.2,
                input@.len() as int,
            ),
            None => r is None,
        },
{
    let n = input.unicode_len();
    if n > 0 && input.get_char(0) == ' ' {
        let j = scan_non_space(input, 1);
        if j > 1 && j < n {
            // a leading token is present: try the chat phrasings
            let lit_joined = "joined the game";
            let lit_left = "left the game";
            if match_lit(input, j + 1, lit_joined) {
                let name = input.substring_char(1, j);
                let rest = input.substring_char(j + 1 + lit_joined.unicode_len(), n);
                return Some((rest, name, PlayerAction::Connect));
            }
            if match_lit(input, j + 1, lit_left) {
                let name = input.substring_char(1, j);
                let rest = input.substring_char(j + 1 + lit_left.unicode_len(), n);
                return Some((rest, name, PlayerAction::Disconnect));
            }
        }
    }
    parse_server_action(input)
}

/// The server-log phrasings, tried after the chat phrasings fail.
fn parse_server_action<'a>(input: &'a str) -> (r: Option<(&'a str, &'a str, PlayerAction)>)
    ensures
        match spec_server_action(input@) {
            Some(p) => r matches Some(e) && e.1@ == p.0 && e.2 == p.1 && e.0@ == input@.subrange(
                p.2,
                input@.len() as int,
            ),
            None => r is None,
        },
{
    let n = input.unicode_len();
    let lit_uuid = " UUID of player";
    let lit_is = "is";
    let lit_lost = "lost connection: Disconnected";
    let ul = lit_uuid.unicode_len();
    if match_lit(input, 0, lit_uuid) {
        if ul < n && input.get_char(ul) == ' ' {
            let j = scan_non_space(input, ul + 1);
            if j > ul + 1 && j < n && match_lit(input, j + 1, lit_is) {
                let name = input.substring_char(ul + 1, j);
                let rest = input.substring_char(j + 1 + lit_is.unicode_len(), n);
                return Some((rest, name, PlayerAction::Connect));
            }
        }
    }
    if n > 0 && input.get_char(0) == ' ' {
        let j = scan_non_space(input, 1);
        if j > 1 && j < n && match_lit(input, j + 1, lit_lost) {
            let name = input.substring_char(1, j);
            let rest = input.substring_char(j + 1 + lit_lost.unicode_len(), n);
            return Some((rest, name, PlayerAction::Disconnect));
        }
    }
    None
}

/// The header grammar: a bracketed clock reading, one space, a bracketed
/// tag, a colon. A missing or unreadable clock is `MalformedTimestamp`;
/// anything wrong after it is `MalformedHeader`. Yields the clock, the tag
/// and the position of the remainder.
pub open spec fn spec_header(s: Seq<char>) -> Result<(TimeOfDay, Seq<char>, int), ParseFailure> {
    if !bracket_ok(s, 0) {
        Err(ParseFailure::MalformedTimestamp)
    } else {
        match spec_clock(bracket_content(s, 0)) {
            None => Err(ParseFailure::MalformedTimestamp),
            Some(t) => {
                let j = bracket_after(s, 0);
                if !(j < s.len() && s[j] == ' ' && bracket_ok(s, j + 1)) {
                    Err(ParseFailure::MalformedHeader)
                } else {
                    let k = bracket_after(s, j + 1);
                    if !(k < s.len() && s[k] == ':') {
                        Err(ParseFailure::MalformedHeader)
                    } else {
                        Ok((t, bracket_content(s, j + 1), k + 1))
                    }
                }
            },
        }
    }
}

/// Reads a line's header: `[H:M:S] [tag]:`. Returns the remainder and the
/// header, or the failure that `spec_header` assigns to the line.
pub fn parse_log_header<'a>(input: &'a str) -> (r: Result<(&'a str, LogHeader), ParseFailure>)
    ensures
        match spec_header(input@) {
            Ok(p) => r matches Ok(o) && o.1.timestamp == p.0 && o.1.tag@ == p.1 && o.0@
                == input@.subrange(p.2, input@.len() as int),
            Err(e) => r matches Err(e2) && e2 == e,
        },
{
    let ghost s = input@;
    let ghost j = bracket_after(s, 0);
    let (rest1, t) = match timestamp(input) {
        None => {
            return Err(ParseFailure::MalformedTimestamp);
        },
        Some(p) => p,
    };
    let m = rest1.unicode_len();
    if m == 0 || rest1.get_char(0) != ' ' {
        return Err(ParseFailure::MalformedHeader);
    }
    let tail = rest1.substring_char(1, m);
    proof {
        assert(tail@ =~= s.subrange(j + 1, s.len() as int));
        if tail@.len() >= 1 {
            lemma_non_close_shift(s, j + 1, tail@, 1);
        }
    }
    let (rest2, tag) = match bracketed(tail) {
        None => {
            return Err(ParseFailure::MalformedHeader);
        },
        Some(p) => p,
    };
    let ghost k = bracket_after(s, j + 1);
    proof {
        assert(bracket_content(s, j + 1) =~= bracket_content(tail@, 0));
        assert(rest2@ =~= s.subrange(k, s.len() as int));
    }
    let kl = rest2.unicode_len();
    if kl == 0 || rest2.get_char(0) != ':' {
        return Err(ParseFailure::MalformedHeader);
    }
    let rest = rest2.substring_char(1, kl);
    proof {
        assert(rest@ =~= s.subrange(k + 1, s.len() as int));
    }
    Ok((rest, LogHeader { timestamp: t, tag: String::from_str(tag) }))
}

/// A whole line read as an event: the header yields the clock reading,
/// the action grammar yields the name and the action, and the ambient
/// `date` supplies the calendar day of the timestamp.
pub open spec fn spec_parse_event(s: Seq<char>, date: Date) -> Result<PlayerEventV, ParseFailure> {
    match spec_header(s) {
        Err(e) => Err(e),
        Ok(p) => match spec_action(s.subrange(p.2, s.len() as int)) {
            None => Err(ParseFailure::UnrecognizedLine),
            Some(a) => Ok(
                PlayerEventV {
                    name: a.0,
                    action: a.1,
                    timestamp: Timestamp { date, time: p.0 },
                },
            ),
        },
    }
}

/// Reads one log line against the ambient calendar date of its source.
/// On success returns the player's name and the event; any failure only
/// tells the caller to skip the line.
pub fn parse_event(input: &str, date: Date) -> (r: Result<(String, PlayerEvent), ParseFailure>)
    ensures
        match spec_parse_event(input@, date) {
            Ok(ev) => r matches Ok(p) && p.0@ == ev.name && p.1@ == ev && (date.wf() ==> ev.wf()),
            Err(e) => r matches Err(e2) && e2 == e,
        },
{
    let (rest, header) = match parse_log_header(input) {
        Err(e) => {
            return Err(e);
        },
        Ok(p) => p,
    };
    let (_tail, name, action) = match parse_action(rest) {
        None => {
            return Err(ParseFailure::UnrecognizedLine);
        },
        Some(p) => p,
    };
    proof {
        lemma_clock_wf(bracket_content(input@, 0));
    }
    let name_owned = String::from_str(name);
    let name_copy = name_owned.clone();
    let event = PlayerEvent::new(
        name_owned,
        action,
        Timestamp { date, time: header.timestamp },
    );
    Ok((name_copy, event))
}

/// A leading `YYYY-MM-DD` calendar date: four digits, a dash, one or two
/// digits, a dash, one or two digits, naming a real calendar date. Yields
/// the date and the position of the remainder.
pub open spec fn spec_datelike(s: Seq<char>) -> Option<(Date, int)> {
    let i1 = digit_run_end(s, 0);
    if !(i1 == 4 && i1 < s.len() && s[i1] == '-') {
        None
    } else {
        let i2 = digit_run_end(s, 5);
        if !(1 <= i2 - 5 <= 2 && i2 < s.len() && s[i2] == '-') {
            None
        } else {
            let i3 = digit_run_end(s, i2 + 1);
            if !(1 <= i3 - (i2 + 1) <= 2) {
                None
            } else {
                let d = Date {
                    year: digits_value(s, 0, 4) as u32,
                    month: digits_value(s, 5, i2) as u32,
                    day: digits_value(s, i2 + 1, i3) as u32,
                };
                if d.wf() {
                    Some((d, i3))
                } else {
                    None
                }
            }
        }
    }
}

/// Reads a leading `YYYY-MM-DD` date, as found in log file names. Returns
/// the remainder and the date, or `None` when no real date opens the input.
pub fn parse_datelike<'a>(input: &'a str) -> (r: Option<(&'a str, Date)>)
    ensures
        match spec_datelike(input@) {
            Some(p) => r matches Some(o) && o.1 == p.0 && o.0@ == input@.subrange(
                p.1,
                input@.len() as int,
            ),
            None => r is None,
        },
{
    let n = input.unicode_len();
    let i1 = scan_digits(input, 0);
    if !(i1 == 4 && i1 < n && input.get_char(i1) == '-') {
        return None;
    }
    let i2 = scan_digits(input, 5);
    if !(5 < i2 && i2 - 5 <= 2 && i2 < n && input.get_char(i2) == '-') {
        return None;
    }
    let i3 = scan_digits(input, i2 + 1);
    if !(i2 + 1 < i3 && i3 - (i2 + 1) <= 2) {
        return None;
    }
    let d = Date {
        year: read_digits(input, 0, 4),
        month: read_digits(input, 5, i2),
        day: read_digits(input, i2 + 1, i3),
    };
    if d.is_valid() {
        Some((input.substring_char(i3, n), d))
    } else {
        None
    }
}

/// Scanning for `]` in a suffix agrees with scanning in the whole line,
/// shifted by the cut position.
proof fn lemma_non_close_shift(s: Seq<char>, off: int, t: Seq<char>, i: int)
    requires
        0 <= off <= s.len(),
        t == s.subrange(off, s.len() as int),
        0 <= i <= t.len(),
    ensures
        non_close_end(s, off + i) == off + non_close_end(t, i),
    decreases t.len() - i,
{
    if i < t.len() && t[i] != ']' {
        lemma_non_close_shift(s, off, t, i + 1);
    }
}

} // verus!
