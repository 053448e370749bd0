//! Calendar dates, UTC timestamps and durations.
//!
//! A date is a day number counted from 1970-01-01 in the proleptic Gregorian
//! calendar; a timestamp is a nanosecond count from the same origin.

use crate::text::{
    law_digits_of_a_number, law_figures_of_a_number, law_four_figures, law_two_figures, nat_text,
    padded_text,
};
use vstd::prelude::*;

verus! {

pub const NANOS_PER_SECOND: i64 = 1_000_000_000;

pub const NANOS_PER_DAY: i64 = 86_400_000_000_000;

/// Day number of the first date of the calendar, -262143-01-01.
pub const MIN_DATE_DAYS: i32 = -96_465_292;

/// Day number of the last date of the calendar, 262142-12-31.
pub const MAX_DATE_DAYS: i32 = 95_026_236;

/// First day whose midnight is a representable timestamp.
pub const MIN_CLOCK_DAYS: i32 = -106_751;

/// Last day whose final second is a representable timestamp.
pub const MAX_CLOCK_DAYS: i32 = 106_750;

// ---------------------------------------------------------------------------
// Calendar arithmetic
// ---------------------------------------------------------------------------

/// Gregorian leap-year rule.
pub open spec fn is_leap_year(year: int) -> bool {
    year % 4 == 0 && (year % 100 != 0 || year % 400 == 0)
}

/// Length of a month (`1..=12`) of a year.
pub open spec fn month_length(year: int, month: int) -> int {
    if month == 2 {
        if is_leap_year(year) {
            29
        } else {
            28
        }
    } else if month == 4 || month == 6 || month == 9 || month == 11 {
        30
    } else {
        31
    }
}

/// Days from 0001-01-01 to January 1st of `year`.
pub open spec fn days_before_year(year: int) -> int {
    365 * (year - 1) + (year - 1) / 4 - (year - 1) / 100 + (year - 1) / 400
}

/// Days from January 1st to the first day of `month` (`1..=12`).
pub open spec fn days_before_month(year: int, month: int) -> int
    decreases month,
{
    if month <= 1 {
        0
    } else {
        days_before_month(year, month - 1) + month_length(year, month - 1)
    }
}

/// Whether a calendar date exists within the supported years.
pub open spec fn valid_ymd(year: int, month: int, day: int) -> bool {
    &&& -262143 <= year <= 262142
    &&& 1 <= month <= 12
    &&& 1 <= day <= month_length(year, month)
}

/// Day number of a calendar date.
pub open spec fn epoch_days(year: int, month: int, day: int) -> int {
    days_before_year(year) + days_before_month(year, month) + day - 1 - 719162
}

/// A calendar date, held as its day number.
#[derive(Clone, Copy, Debug, PartialEq, Eq, PartialOrd, Ord, Hash, Structural)]
pub struct Date {
    pub days: i32,
}

/// Builds the date `year-month-day`.
///
/// Wraps `chrono::NaiveDate::from_ymd_opt`: it yields a date exactly when the
/// year is in range and the day exists in that month, and the day number of
/// that date is the Gregorian count from 1970-01-01.
#[verifier::external_body]
fn chrono_from_ymd(year: i32, month: u32, day: u32) -> (res: Option<i32>)
    ensures
        res is Some <==> valid_ymd(year as int, month as int, day as int),
        res matches Some(days) ==> days == epoch_days(year as int, month as int, day as int),
{
    let date = chrono::NaiveDate::from_ymd_opt(year, month, day)?;
    Some(date.to_epoch_days())
}

/// Year, month and day of a day number.
///
/// Wraps `chrono::NaiveDate::from_epoch_days`: every day number inside the
/// supported range names exactly one existing calendar date, and that date is
/// returned; outside the range there is none.
#[verifier::external_body]
fn chrono_from_epoch_days(days: i32) -> (res: Option<(i32, u32, u32)>)
    ensures
        res is Some <==> MIN_DATE_DAYS <= days <= MAX_DATE_DAYS,
        res matches Some((year, month, day)) ==> {
            &&& valid_ymd(year as int, month as int, day as int)
            &&& epoch_days(year as int, month as int, day as int) == days
        },
{
    let date = chrono::NaiveDate::from_epoch_days(days)?;
    Some((chrono::Datelike::year(&date), chrono::Datelike::month(&date), chrono::Datelike::day(&date)))
}

impl Date {
    /// Whether the day number lies inside the supported calendar.
    pub open spec fn in_calendar(self) -> bool {
        MIN_DATE_DAYS <= self.days <= MAX_DATE_DAYS
    }

    /// Whether every second of the day is a representable timestamp.
    pub open spec fn on_clock(self) -> bool {
        MIN_CLOCK_DAYS <= self.days <= MAX_CLOCK_DAYS
    }

    /// The date `year-month-day`, if it exists.
    pub fn from_ymd(year: i32, month: u32, day: u32) -> (res: Option<Date>)
        ensures
            res is Some <==> valid_ymd(year as int, month as int, day as int),
            res matches Some(date) ==> date.days == epoch_days(year as int, month as int, day as int),
            res == civil(year as int, month as int, day as int),
            res matches Some(date) ==> date.in_calendar(),
    {
        match chrono_from_ymd(year, month, day) {
            Some(days) => {
                proof {
                    lemma_epoch_days_range(year as int, month as int, day as int);
                }
                Some(Date { days })
            },
            None => None,
        }
    }

    /// Year, month and day of the date.
    pub fn ymd(self) -> (res: (i32, u32, u32))
        requires
            self.in_calendar(),
        ensures
            valid_ymd(res.0 as int, res.1 as int, res.2 as int),
            epoch_days(res.0 as int, res.1 as int, res.2 as int) == self.days,
            ymd_of(self.days as int) == (res.0 as int, res.1 as int, res.2 as int),
    {
        match chrono_from_epoch_days(self.days) {
            Some(ymd) => {
                proof {
                    lemma_ymd_of(ymd.0 as int, ymd.1 as int, ymd.2 as int);
                }
                ymd
            },
            None => (1970, 1, 1),
        }
    }
}

/// Nanoseconds of the longest duration.
pub const MAX_DURATION_NANOS: u128 = 18_446_744_073_709_551_615_999_999_999;

/// A span of time, in nanoseconds.
#[derive(Clone, Copy, Debug, PartialEq, Eq, PartialOrd, Ord, Hash, Structural)]
pub struct Duration {
    pub nanos: u128,
}

impl Duration {
    pub open spec fn wf(self) -> bool {
        self.nanos <= MAX_DURATION_NANOS
    }

    pub fn from_millis(millis: u64) -> (res: Duration)
        ensures
            res.nanos == millis * 1_000_000,
            res.wf(),
    {
        Duration { nanos: millis as u128 * 1_000_000 }
    }

    pub fn from_secs(secs: u64) -> (res: Duration)
        ensures
            res.nanos == secs * 1_000_000_000,
            res.wf(),
    {
        Duration { nanos: secs as u128 * 1_000_000_000 }
    }

    /// Twice the span, at most the longest duration.
    pub fn saturating_double(self) -> (res: Duration)
        requires
            self.wf(),
        ensures
            res.nanos == (if self.nanos * 2 > MAX_DURATION_NANOS {
                MAX_DURATION_NANOS as int
            } else {
                self.nanos * 2
            }),
            res.wf(),
    {
        let doubled: u128 = self.nanos * 2;
        if doubled > MAX_DURATION_NANOS {
            Duration { nanos: MAX_DURATION_NANOS }
        } else {
            Duration { nanos: doubled }
        }
    }

    pub fn min(self, other: Duration) -> (res: Duration)
        ensures
            res == (if self.nanos <= other.nanos {
                self
            } else {
                other
            }),
    {
        if self.nanos <= other.nanos {
            self
        } else {
            other
        }
    }
}

/// Day number of a timestamp.
pub open spec fn day_of(ns: int) -> int {
    ns / (NANOS_PER_DAY as int)
}

/// Nanoseconds since midnight of a timestamp.
pub open spec fn time_of_day(ns: int) -> int {
    ns % (NANOS_PER_DAY as int)
}

/// Nanosecond count of a second of a day.
pub open spec fn clock_ns(days: int, seconds: int) -> int {
    days * NANOS_PER_DAY + seconds * NANOS_PER_SECOND
}

/// A UTC timestamp.
#[derive(Clone, Copy, Debug, PartialEq, Eq, PartialOrd, Ord, Hash, Structural)]
pub struct DateTime {
    pub ns: i64,
}

impl DateTime {
    /// Day number of the UTC date.
    pub open spec fn day(self) -> int {
        day_of(self.ns as int)
    }

    /// The UTC date.
    pub open spec fn date(self) -> Date {
        Date { days: self.day() as i32 }
    }

    /// Nanoseconds since midnight, UTC.
    pub open spec fn tod(self) -> int {
        time_of_day(self.ns as int)
    }

    pub proof fn lemma_day(self)
        ensures
            -106_752 <= self.day() <= 106_751,
            0 <= self.tod() < NANOS_PER_DAY,
            self.ns == self.day() * NANOS_PER_DAY + self.tod(),
            self.date().in_calendar(),
            self.date().days == self.day(),
    {
    }

    /// The UTC date.
    pub fn date_utc(self) -> (res: Date)
        ensures
            res == self.date(),
            res.days == self.day(),
            -106_752 <= res.days <= 106_751,
    {
        proof {
            self.lemma_day();
        }
        match self.ns.checked_div_euclid(NANOS_PER_DAY) {
            Some(days) => Date { days: days as i32 },
            None => Date { days: 0 },
        }
    }

    /// Nanoseconds since midnight, UTC.
    pub fn nanos_of_day(self) -> (res: i64)
        ensures
            res == self.tod(),
            0 <= res < NANOS_PER_DAY,
    {
        match self.ns.checked_rem_euclid(NANOS_PER_DAY) {
            Some(n) => n,
            None => 0,
        }
    }

    /// The instant `seconds` after midnight of `date`.
    pub fn at(date: Date, seconds: i64) -> (res: DateTime)
        requires
            date.on_clock(),
            0 <= seconds < 86_400,
        ensures
            res.ns == clock_ns(date.days as int, seconds as int),
            res.day() == date.days,
            res.tod() == seconds * NANOS_PER_SECOND,
            res.date() == date,
    {
        let ns: i64 = date.days as i64 * NANOS_PER_DAY + seconds * NANOS_PER_SECOND;
        proof {
            vstd::arithmetic::div_mod::lemma_fundamental_div_mod_converse(
                ns as int,
                NANOS_PER_DAY as int,
                date.days as int,
                seconds * NANOS_PER_SECOND,
            );
        }
        DateTime { ns }
    }
}

impl Date {
    /// The following day; none after the last date of the calendar.
    pub fn succ_opt(self) -> (res: Option<Date>)
        requires
            self.in_calendar(),
        ensures
            res == (if self.days < MAX_DATE_DAYS {
                Some(Date { days: (self.days + 1) as i32 })
            } else {
                None
            }),
    {
        if self.days < MAX_DATE_DAYS {
            Some(Date { days: self.days + 1 })
        } else {
            None
        }
    }

    /// The preceding day; none before the first date of the calendar.
    pub fn pred_opt(self) -> (res: Option<Date>)
        requires
            self.in_calendar(),
        ensures
            res == (if self.days > MIN_DATE_DAYS {
                Some(Date { days: (self.days - 1) as i32 })
            } else {
                None
            }),
    {
        if self.days > MIN_DATE_DAYS {
            Some(Date { days: self.days - 1 })
        } else {
            None
        }
    }

    pub fn max(self, other: Date) -> (res: Date)
        ensures
            res.days == (if self.days >= other.days {
                self.days
            } else {
                other.days
            }),
    {
        if self.days >= other.days {
            self
        } else {
            other
        }
    }

    pub fn min(self, other: Date) -> (res: Date)
        ensures
            res.days == (if self.days <= other.days {
                self.days
            } else {
                other.days
            }),
    {
        if self.days <= other.days {
            self
        } else {
            other
        }
    }
}

/// Text of a year: four digits, or a sign and at least four digits outside the
/// years 0 to 9999.
pub open spec fn year_text(year: int) -> Seq<char> {
    if 0 <= year <= 9999 {
        padded_text(year as nat, 4)
    } else if year > 9999 {
        seq!['+'] + nat_text(year as nat)
    } else if year > -1000 {
        seq!['-'] + padded_text((-year) as nat, 4)
    } else {
        seq!['-'] + nat_text((-year) as nat)
    }
}

/// Text of a date: year, month and day, with dashes between them.
pub open spec fn date_text(days: int) -> Seq<char> {
    let (year, month, day) = ymd_of(days);
    year_text(year) + seq!['-'] + padded_text(month as nat, 2) + seq!['-'] + padded_text(
        day as nat,
        2,
    )
}

/// Text of a fraction of a second in as few groups of three digits as it takes.
pub open spec fn fraction_text(nanos: int) -> Seq<char> {
    if nanos == 0 {
        Seq::empty()
    } else if nanos % 1_000_000 == 0 {
        seq!['.'] + padded_text((nanos / 1_000_000) as nat, 3)
    } else if nanos % 1_000 == 0 {
        seq!['.'] + padded_text((nanos / 1_000) as nat, 6)
    } else {
        seq!['.'] + padded_text(nanos as nat, 9)
    }
}

/// RFC 3339 text of a timestamp, with the offset of UTC.
pub open spec fn timestamp_text(ns: int) -> Seq<char> {
    let nanos = ns - day_of(ns) * NANOS_PER_DAY;
    let seconds = nanos / 1_000_000_000;
    date_text(day_of(ns)) + seq!['T'] + padded_text((seconds / 3600) as nat, 2) + seq![':']
        + padded_text((seconds / 60 % 60) as nat, 2) + seq![':'] + padded_text(
        (seconds % 60) as nat,
        2,
    ) + fraction_text(nanos % 1_000_000_000) + seq!['+', '0', '0', ':', '0', '0']
}

/// Wraps `to_string` of `chrono::NaiveDate`: year, month and day with dashes
/// between them. Outside the calendar there is no date and no text.
#[verifier::external_body]
fn chrono_date_to_string(days: i32) -> (res: Option<String>)
    ensures
        res is Some <==> MIN_DATE_DAYS <= days <= MAX_DATE_DAYS,
        res matches Some(text) ==> text@ == date_text(days as int),
{
    let date = chrono::NaiveDate::from_epoch_days(days)?;
    Some(date.to_string())
}

/// Wraps `chrono::DateTime::<Utc>::to_rfc3339`: date and time of day, the fraction
/// of the second where there is one, and the offset of UTC.
#[verifier::external_body]
fn chrono_to_rfc3339(ns: i64) -> (res: String)
    ensures
        res@ == timestamp_text(ns as int),
{
    chrono::DateTime::from_timestamp_nanos(ns).to_rfc3339()
}

impl Date {
    /// The date in text, year first.
    pub fn to_text(self) -> (res: String)
        requires
            self.in_calendar(),
        ensures
            res@ == date_text(self.days as int),
    {
        match chrono_date_to_string(self.days) {
            Some(text) => text,
            None => String::new(),
        }
    }
}

impl DateTime {
    /// The instant in RFC 3339 text.
    pub fn to_rfc3339(self) -> (res: String)
        ensures
            res@ == timestamp_text(self.ns as int),
    {
        chrono_to_rfc3339(self.ns)
    }
}

/// The calendar date of a day number.
pub open spec fn ymd_of(days: int) -> (int, int, int) {
    choose|t: (int, int, int)| valid_ymd(t.0, t.1, t.2) && #[trigger] epoch_days(t.0, t.1, t.2) == days
}

/// The date `year-month-day`, if it exists.
pub open spec fn civil(year: int, month: int, day: int) -> Option<Date> {
    if valid_ymd(year, month, day) {
        Some(Date { days: epoch_days(year, month, day) as i32 })
    } else {
        None
    }
}

/// A year is as long as the distance to the start of the next.
#[verifier::spinoff_prover]
#[verifier::rlimit(40)]
pub proof fn lemma_year_length(year: int)
    ensures
        days_before_year(year + 1) == days_before_year(year) + days_before_month(year, 12)
            + month_length(year, 12),
        days_before_year(year) + 365 <= days_before_year(year + 1),
{
    reveal_with_fuel(days_before_month, 13);
    let x = year - 1;
    assert(year / 4 - x / 4 == if year % 4 == 0 { 1int } else { 0int });
    assert(year / 100 - x / 100 == if year % 100 == 0 { 1int } else { 0int });
    assert(year / 400 - x / 400 == if year % 400 == 0 { 1int } else { 0int });
}

/// Years start at least 365 days apart.
#[verifier::spinoff_prover]
#[verifier::rlimit(40)]
proof fn lemma_days_before_year_monotonic(a: int, b: int)
    requires
        a < b,
    ensures
        days_before_year(a) + 365 <= days_before_year(b),
    decreases b - a,
{
    lemma_year_length(b - 1);
    if a < b - 1 {
        lemma_days_before_year_monotonic(a, b - 1);
    }
}

/// A month ends where the next one starts.
#[verifier::spinoff_prover]
#[verifier::rlimit(40)]
proof fn lemma_months_increase(year: int, a: int, b: int)
    requires
        1 <= a < b <= 12,
    ensures
        days_before_month(year, a) + month_length(year, a) <= days_before_month(year, b),
    decreases b - a,
{
    reveal_with_fuel(days_before_month, 2);
    if a < b - 1 {
        lemma_months_increase(year, a, b - 1);
    }
}

/// A day lies within the year it is counted in.
#[verifier::spinoff_prover]
#[verifier::rlimit(40)]
proof fn lemma_day_in_year(year: int, month: int, day: int)
    requires
        valid_ymd(year, month, day),
    ensures
        days_before_year(year) - 719162 <= epoch_days(year, month, day) < days_before_year(year + 1)
            - 719162,
        0 <= days_before_month(year, month),
{
    lemma_year_length(year);
    reveal_with_fuel(days_before_month, 13);
    if month < 12 {
        lemma_months_increase(year, month, 12);
    }
    if month > 1 {
        lemma_months_increase(year, 1, month);
    }
}

/// Two calendar dates with one day number are the same date.
#[verifier::spinoff_prover]
#[verifier::rlimit(40)]
pub proof fn lemma_epoch_days_injective(y1: int, m1: int, d1: int, y2: int, m2: int, d2: int)
    requires
        valid_ymd(y1, m1, d1),
        valid_ymd(y2, m2, d2),
        epoch_days(y1, m1, d1) == epoch_days(y2, m2, d2),
    ensures
        y1 == y2,
        m1 == m2,
        d1 == d2,
{
    lemma_day_in_year(y1, m1, d1);
    lemma_day_in_year(y2, m2, d2);
    if y1 < y2 {
        if y1 + 1 < y2 {
            lemma_days_before_year_monotonic(y1 + 1, y2);
        }
    }
    if y2 < y1 {
        if y2 + 1 < y1 {
            lemma_days_before_year_monotonic(y2 + 1, y1);
        }
    }
    assert(y1 == y2);
    if m1 < m2 {
        lemma_months_increase(y1, m1, m2);
    }
    if m2 < m1 {
        lemma_months_increase(y1, m2, m1);
    }
}

/// The calendar date found for the day number of an existing date is that date.
#[verifier::spinoff_prover]
#[verifier::rlimit(40)]
pub proof fn lemma_ymd_of(year: int, month: int, day: int)
    requires
        valid_ymd(year, month, day),
    ensures
        ymd_of(epoch_days(year, month, day)) == (year, month, day),
{
    let days = epoch_days(year, month, day);
    let w = (year, month, day);
    assert(valid_ymd(w.0, w.1, w.2) && epoch_days(w.0, w.1, w.2) == days);
    let t = ymd_of(days);
    lemma_epoch_days_injective(t.0, t.1, t.2, year, month, day);
}

/// Existing dates have day numbers inside the calendar.
#[verifier::spinoff_prover]
#[verifier::rlimit(40)]
pub proof fn lemma_epoch_days_range(year: int, month: int, day: int)
    requires
        valid_ymd(year, month, day),
    ensures
        MIN_DATE_DAYS <= epoch_days(year, month, day) <= MAX_DATE_DAYS,
{
    lemma_day_in_year(year, month, day);
    if year > -262143 {
        lemma_days_before_year_monotonic(-262143, year);
    }
    if year + 1 < 262143 {
        lemma_days_before_year_monotonic(year + 1, 262143);
    }
}

/// Calendar order and day-number order agree across months.
#[verifier::spinoff_prover]
#[verifier::rlimit(40)]
pub proof fn lemma_date_order(y1: int, m1: int, d1: int, y2: int, m2: int, d2: int)
    requires
        valid_ymd(y1, m1, d1),
        valid_ymd(y2, m2, d2),
        y1 < y2 || (y1 == y2 && m1 < m2),
    ensures
        epoch_days(y1, m1, d1) < epoch_days(y2, m2, d2),
{
    lemma_day_in_year(y1, m1, d1);
    lemma_day_in_year(y2, m2, d2);
    if y1 < y2 {
        if y1 + 1 < y2 {
            lemma_days_before_year_monotonic(y1 + 1, y2);
        }
    } else {
        lemma_months_increase(y1, m1, m2);
    }
}

/// Every day number inside the calendar belongs to a calendar date.
#[verifier::spinoff_prover]
#[verifier::rlimit(40)]
pub proof fn lemma_ymd_exists(days: int)
    requires
        MIN_DATE_DAYS <= days <= MAX_DATE_DAYS,
    ensures
        ({
            let t = ymd_of(days);
            valid_ymd(t.0, t.1, t.2) && epoch_days(t.0, t.1, t.2) == days
        }),
{
    let year = lemma_year_of_day(days, 262142);
    lemma_year_length(year);
    reveal_with_fuel(days_before_month, 13);
    let month = lemma_month_of_day(days, year, 12);
    let w = (year, month, days - epoch_days(year, month, 1) + 1);
    assert(valid_ymd(w.0, w.1, w.2) && epoch_days(w.0, w.1, w.2) == days);
}

#[verifier::spinoff_prover]
#[verifier::rlimit(40)]
proof fn lemma_year_of_day(days: int, last: int) -> (year: int)
    requires
        -262143 <= last <= 262142,
        days_before_year(-262143) - 719162 <= days < days_before_year(last + 1) - 719162,
    ensures
        -262143 <= year <= last,
        days_before_year(year) - 719162 <= days < days_before_year(year + 1) - 719162,
    decreases last + 262143,
{
    if days >= days_before_year(last) - 719162 {
        last
    } else {
        lemma_year_of_day(days, last - 1)
    }
}

#[verifier::spinoff_prover]
#[verifier::rlimit(40)]
proof fn lemma_month_of_day(days: int, year: int, last: int) -> (month: int)
    requires
        1 <= last <= 12,
        epoch_days(year, 1, 1) <= days < epoch_days(year, last, 1) + month_length(year, last),
    ensures
        1 <= month <= last,
        epoch_days(year, month, 1) <= days < epoch_days(year, month, 1) + month_length(
            year,
            month,
        ),
    decreases last,
{
    if days >= epoch_days(year, last, 1) {
        last
    } else {
        reveal_with_fuel(days_before_month, 2);
        lemma_month_of_day(days, year, last - 1)
    }
}

/// A second of a day is read back from its timestamp, and seconds are as long
/// apart on the clock as they are in the day.
pub proof fn law_clock_reads_back(days: int, seconds: int)
    requires
        0 <= seconds < 86_400,
    ensures
        day_of(clock_ns(days, seconds)) == days,
        time_of_day(clock_ns(days, seconds)) == seconds * 1_000_000_000,
        clock_ns(days, seconds) == clock_ns(days, 0) + seconds * 1_000_000_000,
        clock_ns(days + 1, 0) == clock_ns(days, 86_399) + 1_000_000_000,
{
    vstd::arithmetic::div_mod::lemma_fundamental_div_mod_converse(
        clock_ns(days, seconds),
        NANOS_PER_DAY as int,
        days,
        seconds * NANOS_PER_SECOND,
    );
}

/// A leap year comes every fourth year, but for full centuries that four hundred does not
/// divide; February is a day longer in it, and so is the year.
pub proof fn law_leap_years(year: int)
    ensures
        year % 4 != 0 ==> !is_leap_year(year),
        year % 400 == 0 ==> is_leap_year(year),
        year % 100 == 0 && year % 400 != 0 ==> !is_leap_year(year),
        year % 4 == 0 && year % 100 != 0 ==> is_leap_year(year),
        month_length(year, 2) == (if is_leap_year(year) {
            29int
        } else {
            28int
        }),
        month_length(year, 1) == 31 && month_length(year, 4) == 30 && month_length(year, 12) == 31,
{
}

/// Every day has the number after that of the day before it, over the ends of months and of
/// years, and the first day of 1970 has the number zero.
pub proof fn law_days_follow_each_other(year: int, month: int, day: int)
    ensures
        epoch_days(year, month, day + 1) == epoch_days(year, month, day) + 1,
        1 <= month < 12 ==> epoch_days(year, month + 1, 1) == epoch_days(
            year,
            month,
            month_length(year, month),
        ) + 1,
        epoch_days(year + 1, 1, 1) == epoch_days(year, 12, 31) + 1,
        epoch_days(1970, 1, 1) == 0,
{
    lemma_year_length(year);
}

/// A date is written as four figures of the year, two of the month and two of the day, with
/// dashes between them. A year outside the four figures has its sign in front.
pub proof fn law_dates_are_written_in_figures(year: int, month: int, day: int)
    requires
        valid_ymd(year, month, day),
    ensures
        ({
            let text = date_text(epoch_days(year, month, day));
            let end = text.len();
            &&& 0 <= year <= 9999 ==> {
                &&& end == 10
                &&& text[0] as u32 == 48 + year / 1000
                &&& text[1] as u32 == 48 + year / 100 % 10
                &&& text[2] as u32 == 48 + year / 10 % 10
                &&& text[3] as u32 == 48 + year % 10
            }
            &&& year > 9999 ==> text[0] == '+' && text.subrange(1, end - 6) == nat_text(
                year as nat,
            )
            &&& year < 0 ==> text[0] == '-'
            &&& year <= -1000 ==> text.subrange(1, end - 6) == nat_text((-year) as nat)
            &&& end >= 10
            &&& text[end - 6] == '-'
            &&& text[end - 5] as u32 == 48 + month / 10
            &&& text[end - 4] as u32 == 48 + month % 10
            &&& text[end - 3] == '-'
            &&& text[end - 2] as u32 == 48 + day / 10
            &&& text[end - 1] as u32 == 48 + day % 10
        }),
{
    lemma_ymd_of(year, month, day);
    law_two_figures(month as nat);
    law_two_figures(day as nat);
    let text = date_text(epoch_days(year, month, day));
    if 0 <= year <= 9999 {
        law_four_figures(year as nat);
    } else if year > 9999 {
        lemma_long_number(year as nat);
        assert(text.subrange(1, text.len() - 6) =~= nat_text(year as nat));
    } else if year > -1000 {
        law_four_figures((-year) as nat);
    } else {
        lemma_long_number((-year) as nat);
        assert(text.subrange(1, text.len() - 6) =~= nat_text((-year) as nat));
    }
}

/// A number from a thousand on has four digits or more.
proof fn lemma_long_number(n: nat)
    requires
        n >= 1000,
    ensures
        nat_text(n).len() >= 4,
{
    reveal_with_fuel(nat_text, 4);
    law_digits_of_a_number(n / 1000);
}

/// A timestamp is written as its date, a T, and two figures each of the hour, the minute and
/// the second with colons between them. A fraction of a second follows in three, six or nine
/// figures behind a point, the fewest that hold it, and the offset of UTC ends the text.
#[verifier::spinoff_prover]
#[verifier::rlimit(40)]
pub proof fn law_timestamps_are_written_in_figures(
    days: int,
    hour: int,
    minute: int,
    second: int,
    nanos: int,
)
    requires
        0 <= hour < 24,
        0 <= minute < 60,
        0 <= second < 60,
        0 <= nanos < 1_000_000_000,
    ensures
        ({
            let text = timestamp_text(
                clock_ns(days, hour * 3600 + minute * 60 + second) + nanos,
            );
            let date = date_text(days);
            let at = date.len() as int;
            let end = text.len() as int;
            let figures = if nanos == 0 {
                0int
            } else if nanos % 1_000_000 == 0 {
                4
            } else if nanos % 1_000 == 0 {
                7
            } else {
                10
            };
            &&& end == at + 9 + figures + 6
            &&& text.take(at) == date
            &&& text[at] == 'T'
            &&& text[at + 1] as u32 == 48 + hour / 10
            &&& text[at + 2] as u32 == 48 + hour % 10
            &&& text[at + 3] == ':'
            &&& text[at + 4] as u32 == 48 + minute / 10
            &&& text[at + 5] as u32 == 48 + minute % 10
            &&& text[at + 6] == ':'
            &&& text[at + 7] as u32 == 48 + second / 10
            &&& text[at + 8] as u32 == 48 + second % 10
            &&& nanos > 0 ==> text[at + 9] == '.'
            &&& figures == 4 ==> text.subrange(at + 10, end - 6) == padded_text(
                (nanos / 1_000_000) as nat,
                3,
            )
            &&& figures == 7 ==> text.subrange(at + 10, end - 6) == padded_text(
                (nanos / 1_000) as nat,
                6,
            )
            &&& figures == 10 ==> text.subrange(at + 10, end - 6) == padded_text(nanos as nat, 9)
            &&& text.skip(end - 6) == seq!['+', '0', '0', ':', '0', '0']
        }),
{
    let seconds = hour * 3600 + minute * 60 + second;
    let ns = clock_ns(days, seconds) + nanos;
    let rest = seconds * 1_000_000_000 + nanos;
    vstd::arithmetic::div_mod::lemma_fundamental_div_mod_converse(
        ns,
        NANOS_PER_DAY as int,
        days,
        rest,
    );
    assert(day_of(ns) == days);
    assert(rest / 1_000_000_000 == seconds);
    assert(rest % 1_000_000_000 == nanos);
    assert(seconds / 3600 == hour);
    assert(seconds / 60 == hour * 60 + minute);
    assert(seconds / 60 % 60 == minute);
    assert(seconds % 60 == second);
    law_two_figures(hour as nat);
    law_two_figures(minute as nat);
    law_two_figures(second as nat);
    law_figures_of_a_number((nanos / 1_000_000) as nat, 3);
    law_figures_of_a_number((nanos / 1_000) as nat, 6);
    law_figures_of_a_number(nanos as nat, 9);
    let text = timestamp_text(ns);
    let date = date_text(days);
    let at = date.len() as int;
    let end = text.len() as int;
    assert(text.take(at) =~= date);
    assert(text.skip(end - 6) =~= seq!['+', '0', '0', ':', '0', '0']);
    let fraction = fraction_text(nanos);
    assert(text.subrange(at + 9, end - 6) =~= fraction);
    if nanos > 0 {
        assert(text[at + 9] == text.subrange(at + 9, end - 6)[0]);
        assert(text.subrange(at + 10, end - 6) =~= fraction.skip(1));
        if nanos % 1_000_000 == 0 {
            assert(fraction.skip(1) =~= padded_text((nanos / 1_000_000) as nat, 3));
        } else if nanos % 1_000 == 0 {
            assert(fraction.skip(1) =~= padded_text((nanos / 1_000) as nat, 6));
        } else {
            assert(fraction.skip(1) =~= padded_text(nanos as nat, 9));
        }
    }
}

} // verus!
