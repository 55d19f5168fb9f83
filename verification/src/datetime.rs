//! Calendar dates, clock readings, timestamps and signed time spans.
//!
//! A log line carries only a time of day; the calendar date of the whole
//! source is supplied from outside and combined with each clock reading to
//! form a full timestamp. Dates are proleptic Gregorian, with years bounded
//! so that all second counts fit comfortably in 64 bits.

use vstd::prelude::*;
use vstd::string::StringExecFns;

verus! {

/// Largest year a well-formed `Date` may carry.
pub const MAX_YEAR: u32 = 9999;

/// A calendar date (proleptic Gregorian).
#[derive(Clone, Copy, Debug, PartialEq, Eq, Structural)]
pub struct Date {
    pub year: u32,
    pub month: u32,
    pub day: u32,
}

/// A 24-hour wall-clock reading.
#[derive(Clone, Copy, Debug, PartialEq, Eq, Structural)]
pub struct TimeOfDay {
    pub hour: u32,
    pub minute: u32,
    pub second: u32,
}

/// A calendar date together with a time of day.
#[derive(Clone, Copy, Debug, PartialEq, Eq, Structural)]
pub struct Timestamp {
    pub date: Date,
    pub time: TimeOfDay,
}

/// A signed span of time, counted in whole seconds.
#[derive(Clone, Copy, Debug, PartialEq, Eq, Structural)]
pub struct Duration {
    pub secs: i64,
}

pub open spec fn is_leap_year(y: int) -> bool {
    y % 4 == 0 && (y % 100 != 0 || y % 400 == 0)
}

pub open spec fn days_in_month(y: int, m: int) -> int {
    if m == 2 {
        if is_leap_year(y) {
            29
        } else {
            28
        }
    } else if m == 4 || m == 6 || m == 9 || m == 11 {
        30
    } else {
        31
    }
}

/// Number of leap years strictly before year `y`, counting from year 0
/// (which is itself a leap year).
pub open spec fn leap_years_before(y: int) -> int {
    if y <= 0 {
        0
    } else {
        1 + (y - 1) / 4 - (y - 1) / 100 + (y - 1) / 400
    }
}

/// Days from the start of year `y` to the start of month `m` of that year.
pub open spec fn days_before_month(y: int, m: int) -> int {
    let base: int = if m == 1 {
        0
    } else if m == 2 {
        31
    } else if m == 3 {
        59
    } else if m == 4 {
        90
    } else if m == 5 {
        120
    } else if m == 6 {
        151
    } else if m == 7 {
        181
    } else if m == 8 {
        212
    } else if m == 9 {
        243
    } else if m == 10 {
        273
    } else if m == 11 {
        304
    } else {
        334
    };
    base + if m > 2 && is_leap_year(y) {
        1int
    } else {
        0int
    }
}

/// Days elapsed from the start of year 0 to the given date.
pub open spec fn spec_day_number(d: Date) -> int {
    365 * d.year + leap_years_before(d.year as int) + days_before_month(
        d.year as int,
        d.month as int,
    ) + (d.day - 1)
}

impl Date {
    /// A real calendar date within the supported year range.
    pub open spec fn wf(self) -> bool {
        &&& self.year <= MAX_YEAR
        &&& 1 <= self.month <= 12
        &&& 1 <= self.day <= days_in_month(self.year as int, self.month as int)
    }

    /// Checks that this is a real calendar date within the supported range.
    pub fn is_valid(&self) -> (b: bool)
        ensures
            b == self.wf(),
    {
        let leap: bool = self.year % 4 == 0 && (self.year % 100 != 0 || self.year % 400 == 0);
        let dim: u32 = if self.month == 2 {
            if leap {
                29
            } else {
                28
            }
        } else if self.month == 4 || self.month == 6 || self.month == 9 || self.month == 11 {
            30
        } else {
            31
        };
        self.year <= MAX_YEAR && 1 <= self.month && self.month <= 12 && 1 <= self.day && self.day
            <= dim
    }

    /// Days elapsed from the start of year 0 to this date.
    pub fn day_number(&self) -> (n: u32)
        requires
            self.wf(),
        ensures
            n == spec_day_number(*self),
    {
        let y = self.year;
        let leaps: u32 = if y == 0 {
            0
        } else {
            proof {
                lemma_div_denominator_ordered((y - 1) as int);
            }
            1 + (y - 1) / 4 + (y - 1) / 400 - (y - 1) / 100
        };
        let leap: bool = y % 4 == 0 && (y % 100 != 0 || y % 400 == 0);
        let base: u32 = match self.month {
            1 => 0,
            2 => 31,
            3 => 59,
            4 => 90,
            5 => 120,
            6 => 151,
            7 => 181,
            8 => 212,
            9 => 243,
            10 => 273,
            11 => 304,
            _ => 334,
        };
        let before_month: u32 = base + if self.month > 2 && leap {
            1
        } else {
            0
        };
        365 * y + leaps + before_month + (self.day - 1)
    }
}

/// For a nonnegative `x`, dividing by 100 never exceeds dividing by 4.
proof fn lemma_div_denominator_ordered(x: int)
    requires
        0 <= x,
    ensures
        x / 100 <= x / 4,
{
    vstd::arithmetic::div_mod::lemma_div_is_ordered_by_denominator(x, 4, 100);
}

impl TimeOfDay {
    /// A valid 24-hour clock reading.
    pub open spec fn wf(self) -> bool {
        self.hour <= 23 && self.minute <= 59 && self.second <= 59
    }

    /// Seconds elapsed since the start of the day.
    pub open spec fn spec_secs_of_day(self) -> int {
        3600 * self.hour + 60 * self.minute + self.second
    }

    /// Seconds elapsed since the start of the day.
    pub fn secs_of_day(&self) -> (n: u32)
        requires
            self.wf(),
        ensures
            n == self.spec_secs_of_day(),
    {
        3600 * self.hour + 60 * self.minute + self.second
    }
}

/// An upper bound on the absolute second count of any well-formed timestamp.
pub const MAX_TIMESTAMP_SECS: i64 = 400_000_000_000;

impl Timestamp {
    pub open spec fn wf(self) -> bool {
        self.date.wf() && self.time.wf()
    }

    /// Seconds elapsed from the start of year 0 to this timestamp.
    pub open spec fn spec_total_secs(self) -> int {
        86400 * spec_day_number(self.date) + self.time.spec_secs_of_day()
    }

    /// Seconds elapsed from the start of year 0 to this timestamp.
    pub fn total_secs(&self) -> (n: i64)
        requires
            self.wf(),
        ensures
            n == self.spec_total_secs(),
            0 <= n < MAX_TIMESTAMP_SECS,
    {
        let days: u32 = self.date.day_number();
        86400 * (days as i64) + (self.time.secs_of_day() as i64)
    }
}

/// Every well-formed timestamp counts fewer than `MAX_TIMESTAMP_SECS` seconds.
pub proof fn lemma_total_secs_bounded(ts: Timestamp)
    requires
        ts.wf(),
    ensures
        0 <= ts.spec_total_secs() < MAX_TIMESTAMP_SECS,
{
}

impl Duration {
    /// The empty time span.
    pub fn zero() -> (d: Duration)
        ensures
            d.secs == 0,
    {
        Duration { secs: 0 }
    }
}

/// Quotient of truncating division, as the `/` of machine integers rounds.
pub open spec fn t_div(a: int, b: int) -> int {
    if a >= 0 {
        a / b
    } else {
        -((-a) / b)
    }
}

/// Remainder of truncating division, as the `%` of machine integers rounds.
pub open spec fn t_mod(a: int, b: int) -> int {
    if a >= 0 {
        a % b
    } else {
        -((-a) % b)
    }
}

pub open spec fn digit_char(d: int) -> char {
    if d == 0 {
        '0'
    } else if d == 1 {
        '1'
    } else if d == 2 {
        '2'
    } else if d == 3 {
        '3'
    } else if d == 4 {
        '4'
    } else if d == 5 {
        '5'
    } else if d == 6 {
        '6'
    } else if d == 7 {
        '7'
    } else if d == 8 {
        '8'
    } else {
        '9'
    }
}

/// The decimal digits of `n`, most significant first, no leading zeros.
pub open spec fn dec_digits(n: nat) -> Seq<char>
    decreases n,
{
    if n < 10 {
        seq![digit_char(n as int)]
    } else {
        dec_digits(n / 10).push(digit_char((n % 10) as int))
    }
}

/// A numeric field of the `HH:MM:SS` scheme: zero-padded to two digits,
/// wider when the value needs more, with a leading minus sign when negative.
pub open spec fn pad2(n: int) -> Seq<char> {
    if n < 0 {
        seq!['-'] + dec_digits((-n) as nat)
    } else if n < 10 {
        seq!['0'] + dec_digits(n as nat)
    } else {
        dec_digits(n as nat)
    }
}

/// The `HH:MM:SS` rendering of a span of `total` seconds: hours are not
/// wrapped at 24, and each field follows the rounding of machine division.
pub open spec fn spec_hhmmss(total: int) -> Seq<char> {
    pad2(t_div(t_div(total, 60), 60)) + seq![':'] + pad2(t_mod(t_div(total, 60), 60)) + seq![':']
        + pad2(t_mod(total, 60))
}

fn digit_str(d: u64) -> (r: &'static str)
    requires
        d < 10,
    ensures
        r@ == seq![digit_char(d as int)],
{
    proof {
        reveal_strlit("0");
        reveal_strlit("1");
        reveal_strlit("2");
        reveal_strlit("3");
        reveal_strlit("4");
        reveal_strlit("5");
        reveal_strlit("6");
        reveal_strlit("7");
        reveal_strlit("8");
        reveal_strlit("9");
    }
    let r: &'static str = match d {
        0 => "0",
        1 => "1",
        2 => "2",
        3 => "3",
        4 => "4",
        5 => "5",
        6 => "6",
        7 => "7",
        8 => "8",
        _ => "9",
    };
    proof {
        assert(r@ =~= seq![digit_char(d as int)]);
    }
    r
}

fn dec_digits_exec(n: u64) -> (r: String)
    ensures
        r@ == dec_digits(n as nat),
    decreases n,
{
    if n < 10 {
        let r = String::from_str(digit_str(n));
        proof {
            assert(r@ =~= dec_digits(n as nat));
        }
        r
    } else {
        let mut r = dec_digits_exec(n / 10);
        r.append(digit_str(n % 10));
        proof {
            assert(r@ =~= dec_digits(n as nat));
        }
        r
    }
}

fn pad2_exec(neg: bool, mag: u64) -> (r: String)
    requires
        mag <= 0x7fff_ffff_ffff_ffff,
    ensures
        r@ == pad2(
            if neg {
                -(mag as int)
            } else {
                mag as int
            },
        ),
{
    proof {
        reveal_strlit("-");
        reveal_strlit("0");
    }
    if neg && mag > 0 {
        let mut r = String::from_str("-");
        let digits = dec_digits_exec(mag);
        r.append(digits.as_str());
        proof {
            assert(r@ =~= pad2(-(mag as int)));
        }
        r
    } else if mag < 10 {
        let mut r = String::from_str("0");
        let digits = dec_digits_exec(mag);
        r.append(digits.as_str());
        proof {
            assert(r@ =~= pad2(mag as int));
        }
        r
    } else {
        let r = dec_digits_exec(mag);
        r
    }
}

/// Renders a time span in the `HH:MM:SS` scheme of the reports: hours,
/// minutes within the hour, seconds within the minute, each zero-padded to
/// two digits, with hours exceeding a day left unwrapped.
pub fn duration_hhmmss(duration: Duration) -> (r: String)
    ensures
        r@ == spec_hhmmss(duration.secs as int),
{
    proof {
        reveal_strlit(":");
    }
    let neg: bool = duration.secs < 0;
    let mag: u64 = if duration.secs < 0 {
        (-(duration.secs as i128)) as u64
    } else {
        duration.secs as u64
    };
    let s_mag: u64 = mag % 60;
    let m_mag: u64 = (mag / 60) % 60;
    let h_mag: u64 = (mag / 60) / 60;
    let ghost total: int = duration.secs as int;
    proof {
        assert(t_mod(total, 60) == if neg {
            -(s_mag as int)
        } else {
            s_mag as int
        });
        assert(t_div(total, 60) == if neg {
            -((mag / 60) as int)
        } else {
            (mag / 60) as int
        });
        assert(t_mod(t_div(total, 60), 60) == if neg {
            -(m_mag as int)
        } else {
            m_mag as int
        });
        assert(t_div(t_div(total, 60), 60) == if neg {
            -(h_mag as int)
        } else {
            h_mag as int
        });
    }
    let mut r = pad2_exec(neg, h_mag);
    r.append(":");
    let m_part = pad2_exec(neg, m_mag);
    r.append(m_part.as_str());
    r.append(":");
    let s_part = pad2_exec(neg, s_mag);
    r.append(s_part.as_str());
    proof {
        assert(r@ =~= spec_hhmmss(duration.secs as int));
    }
    r
}

} // verus!
