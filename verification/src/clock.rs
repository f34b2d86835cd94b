//! Points in time as numbers, and how they are written.
//!
//! A point in time is a number of milliseconds since the Unix epoch, UTC.
//! Days are counted from the epoch; the epoch fell on a Thursday.

use vstd::prelude::*;
use vstd::string::StringExecFns;

verus! {

/// The number of milliseconds in a day.
pub const DAY_MS: i64 = 86400000;

/// The number of milliseconds in an hour.
pub const HOUR_MS: i64 = 3600000;

/// The last millisecond of the year 9999.
pub const LAST_PLAIN_INSTANT: i64 = 253402300799999;

/// The format of a calendar day: year, month and day.
pub const DAY_FORMAT: &'static str = "%Y-%m-%d";

/// The format of an instant to the second.
pub const SECOND_FORMAT: &'static str = "%Y-%m-%d %H:%M:%S";

/// What chrono writes for an instant, in UTC, under a format.
pub uninterp spec fn instant_text(ms: i64, format: Seq<char>) -> Seq<char>;

/// `DateTime::from_timestamp_millis`, then `DateTime::format`: the instant
/// in UTC, written under one of the two formats of this module. Chrono has
/// a date for every instant from the epoch to the end of the year 9999;
/// outside its own range it gives none.
#[verifier::external_body]
pub(crate) fn format_instant(ms: i64, format: &str) -> (out: Option<String>)
    requires
        format@ == DAY_FORMAT@ || format@ == SECOND_FORMAT@,
    ensures
        out matches Some(s) ==> s@ == instant_text(ms, format@),
        0 <= ms <= LAST_PLAIN_INSTANT ==> out is Some,
{
    match chrono::DateTime::<chrono::Utc>::from_timestamp_millis(ms) {
        Some(t) => Some(t.format(format).to_string()),
        None => None,
    }
}

/// The calendar day of an instant in UTC, as it is written.
pub open spec fn day_text(ms: i64) -> Seq<char> {
    instant_text(ms, DAY_FORMAT@)
}

/// An instant in UTC, as it is written to the second.
pub open spec fn second_text(ms: i64) -> Seq<char> {
    instant_text(ms, SECOND_FORMAT@)
}

/// The calendar day of the instant in UTC, where it can be written: for
/// every instant from the epoch to the end of the year 9999 at least.
pub fn format_day(ms: i64) -> (out: Option<String>)
    ensures
        out matches Some(s) ==> s@ == day_text(ms),
        0 <= ms <= LAST_PLAIN_INSTANT ==> out is Some,
{
    format_instant(ms, DAY_FORMAT)
}

/// The instant in UTC to the second, where it can be written: for every
/// instant from the epoch to the end of the year 9999 at least.
pub fn format_second(ms: i64) -> (out: Option<String>)
    ensures
        out matches Some(s) ==> s@ == second_text(ms),
        0 <= ms <= LAST_PLAIN_INSTANT ==> out is Some,
{
    format_instant(ms, SECOND_FORMAT)
}

/// A day of the week.
#[derive(Debug, Clone, Copy, PartialEq, Eq, Structural)]
pub enum Weekday {
    Mon,
    Tue,
    Wed,
    Thu,
    Fri,
    Sat,
    Sun,
}

impl Weekday {
    /// The number of days from Monday to this day.
    pub open spec fn days_from_monday(self) -> int {
        match self {
            Weekday::Mon => 0,
            Weekday::Tue => 1,
            Weekday::Wed => 2,
            Weekday::Thu => 3,
            Weekday::Fri => 4,
            Weekday::Sat => 5,
            Weekday::Sun => 6,
        }
    }

    /// The number of days from Monday to this day.
    pub fn num_days_from_monday(&self) -> (n: u32)
        ensures
            n == self.days_from_monday(),
    {
        match self {
            Weekday::Mon => 0,
            Weekday::Tue => 1,
            Weekday::Wed => 2,
            Weekday::Thu => 3,
            Weekday::Fri => 4,
            Weekday::Sat => 5,
            Weekday::Sun => 6,
        }
    }

    /// The short English name of the day.
    pub open spec fn name(self) -> Seq<char> {
        match self {
            Weekday::Mon => "Mon"@,
            Weekday::Tue => "Tue"@,
            Weekday::Wed => "Wed"@,
            Weekday::Thu => "Thu"@,
            Weekday::Fri => "Fri"@,
            Weekday::Sat => "Sat"@,
            Weekday::Sun => "Sun"@,
        }
    }

    /// The short English name of the day.
    pub fn to_string(&self) -> (out: String)
        ensures
            out@ == self.name(),
    {
        match self {
            Weekday::Mon => String::from_str("Mon"),
            Weekday::Tue => String::from_str("Tue"),
            Weekday::Wed => String::from_str("Wed"),
            Weekday::Thu => String::from_str("Thu"),
            Weekday::Fri => String::from_str("Fri"),
            Weekday::Sat => String::from_str("Sat"),
            Weekday::Sun => String::from_str("Sun"),
        }
    }
}

/// The number of the day of an instant, counted from the epoch; days
/// before the epoch have negative numbers.
pub open spec fn day_number(ms: i64) -> int {
    ms as int / DAY_MS as int
}

/// The milliseconds of an instant since the start of its day.
pub open spec fn ms_of_day(ms: i64) -> int {
    ms as int % DAY_MS as int
}

/// The hour of the day of an instant, from 0 to 23.
pub open spec fn hour_of(ms: i64) -> int {
    ms_of_day(ms) / HOUR_MS as int
}

/// The number of days from Monday to the day of an instant.
pub open spec fn weekday_index(ms: i64) -> int {
    (day_number(ms) + 3) % 7
}

/// The number of the day of an instant and its milliseconds since the
/// start of that day.
pub fn split_day(ms: i64) -> (out: (i64, i64))
    ensures
        out.0 == day_number(ms),
        out.1 == ms_of_day(ms),
        0 <= out.1 < DAY_MS,
{
    let q = ms / DAY_MS;
    let r = ms % DAY_MS;
    if r < 0 {
        proof {
            assert(ms as int == (q - 1) * (DAY_MS as int) + (r + DAY_MS)) by (nonlinear_arith)
                requires
                    ms as int == q * (DAY_MS as int) + r,
            ;
            lemma_div_mod_unique(ms as int, DAY_MS as int, q - 1, r + DAY_MS);
        }
        (q - 1, r + DAY_MS)
    } else {
        proof {
            lemma_div_mod_unique(ms as int, DAY_MS as int, q as int, r as int);
        }
        (q, r)
    }
}

/// Quotient and remainder are determined by the division equation.
pub proof fn lemma_div_mod_unique(x: int, d: int, q: int, r: int)
    requires
        d > 0,
        0 <= r < d,
        x == q * d + r,
    ensures
        x / d == q,
        x % d == r,
{
    vstd::arithmetic::div_mod::lemma_fundamental_div_mod_converse(x, d, q, r);
}

/// The whole seconds of an instant since the epoch, rounded toward the
/// past.
pub open spec fn whole_seconds(ms: i64) -> int {
    ms as int / 1000
}

/// The whole seconds of an instant since the epoch.
pub fn seconds_of(ms: i64) -> (secs: i64)
    ensures
        secs == whole_seconds(ms),
{
    let q = ms / 1000;
    let r = ms % 1000;
    if r < 0 {
        proof {
            assert(ms as int == (q - 1) * 1000 + (r + 1000)) by (nonlinear_arith)
                requires
                    ms as int == q * 1000 + r,
            ;
            lemma_div_mod_unique(ms as int, 1000, q - 1, r + 1000);
        }
        q - 1
    } else {
        proof {
            lemma_div_mod_unique(ms as int, 1000, q as int, r as int);
        }
        q
    }
}

/// The hour of the day of an instant.
pub fn hour_of_day(ms: i64) -> (h: u32)
    ensures
        h == hour_of(ms),
        h < 24,
{
    let (_, r) = split_day(ms);
    (r / HOUR_MS) as u32
}

/// The number of days from Monday to the day of an instant.
pub fn weekday_of(ms: i64) -> (n: u32)
    ensures
        n == weekday_index(ms),
        n < 7,
{
    let (d, _) = split_day(ms);
    let shifted: i128 = d as i128 + 3;
    let q: i128 = shifted / 7;
    let m: i128 = shifted % 7;
    let n: i128 = if m < 0 {
        m + 7
    } else {
        m
    };
    proof {
        if m < 0 {
            assert(shifted as int == (q - 1) * 7 + (m + 7)) by (nonlinear_arith)
                requires
                    shifted as int == q * 7 + m,
            ;
            lemma_div_mod_unique(shifted as int, 7, q - 1, m + 7);
        } else {
            lemma_div_mod_unique(shifted as int, 7, q as int, m as int);
        }
    }
    n as u32
}

} // verus!
