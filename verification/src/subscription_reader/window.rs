//! Date windows: how far one cache fill reaches, which dates it must hold and
//! which instants belong to it.

use crate::model::{ExchangeHours, Resolution, SecurityType};
use crate::time::{
    civil, clock_ns, day_of, epoch_days, lemma_epoch_days_range, lemma_ymd_of, month_length,
    valid_ymd, ymd_of, Date, DateTime, MAX_DATE_DAYS, MIN_DATE_DAYS,
};
use vstd::prelude::*;

verus! {

/// `x` held within the range of an `i32`.
pub open spec fn saturate_i32(x: int) -> int {
    if x > i32::MAX {
        i32::MAX as int
    } else if x < i32::MIN {
        i32::MIN as int
    } else {
        x
    }
}

fn saturating_add_i32(a: i32, b: i32) -> (res: i32)
    ensures
        res == saturate_i32(a + b),
{
    let sum: i64 = a as i64 + b as i64;
    if sum > i32::MAX as i64 {
        i32::MAX
    } else if sum < i32::MIN as i64 {
        i32::MIN
    } else {
        sum as i32
    }
}

/// The same calendar day `years` later. February 29th becomes February 28th in
/// a year without it, and a year outside the calendar leaves the date as it is.
pub open spec fn years_later(date: Date, years: int) -> Date {
    let (y, m, d) = ymd_of(date.days as int);
    let year = saturate_i32(y + years);
    match civil(year, m, d) {
        Some(found) => found,
        None => match civil(year, 2, 28) {
            Some(found) => found,
            None => date,
        },
    }
}

fn years_after(date: Date, years: i32) -> (res: Date)
    requires
        date.in_calendar(),
    ensures
        res == years_later(date, years as int),
        res.in_calendar(),
{
    let (y, m, d) = date.ymd();
    let year: i32 = saturating_add_i32(y, years);
    match Date::from_ymd(year, m, d) {
        Some(found) => found,
        None => match Date::from_ymd(year, 2, 28) {
            Some(found) => found,
            None => date,
        },
    }
}

/// Last day of a span of `years` years that starts on `date`.
pub fn add_years_saturating(date: Date, years: i32) -> (res: Date)
    requires
        date.in_calendar(),
        years_later(date, years as int).days > MIN_DATE_DAYS,
    ensures
        res.days == years_later(date, years as int).days - 1,
        res.in_calendar(),
{
    Date { days: years_after(date, years).days - 1 }
}

/// Length of a month; 28 where the first of the following month, or the day
/// before it, is outside the calendar.
pub open spec fn calendar_month_length(year: int, month: int) -> int {
    if -262143 <= year <= 262142 && !(year == 262142 && month == 12) {
        month_length(year, month)
    } else {
        28
    }
}

pub fn days_in_month(year: i32, month: u32) -> (res: u32)
    requires
        1 <= month <= 12,
    ensures
        res == calendar_month_length(year as int, month as int),
{
    let next_year: i32 = if month == 12 {
        saturating_add_i32(year, 1)
    } else {
        year
    };
    let next_month: u32 = if month == 12 {
        1
    } else {
        month + 1
    };
    proof {
        lemma_last_of_month(year as int, month as int);
    }
    match Date::from_ymd(next_year, next_month, 1) {
        Some(first) => match first.pred_opt() {
            Some(last) => last.ymd().2,
            None => 28,
        },
        None => 28,
    }
}

/// The day before the first of the next month is the last of this month.
proof fn lemma_last_of_month(year: int, month: int)
    requires
        1 <= month <= 12,
    ensures
        ({
            let next_year = if month == 12 {
                year + 1
            } else {
                year
            };
            let next_month = if month == 12 {
                1
            } else {
                month + 1
            };
            &&& epoch_days(next_year, next_month, 1) - 1 == epoch_days(
                year,
                month,
                month_length(year, month),
            )
            &&& -262143 <= year <= 262142 ==> ymd_of(epoch_days(next_year, next_month, 1) - 1) == (
                year,
                month,
                month_length(year, month),
            )
            &&& -262143 <= year <= 262142 ==> epoch_days(next_year, next_month, 1) > MIN_DATE_DAYS
            &&& epoch_days(-262143, 1, 1) == MIN_DATE_DAYS
        }),
{
    reveal_with_fuel(crate::time::days_before_month, 13);
    crate::time::lemma_year_length(year);
    if -262143 <= year <= 262142 {
        lemma_ymd_of(year, month, month_length(year, month));
        lemma_epoch_days_range(year, month, month_length(year, month));
    }
}

/// The same calendar day `months` later, or the last day of that month where it
/// is shorter; outside the calendar the date stays.
pub open spec fn months_later(date: Date, months: int) -> Date {
    let (y, m, d) = ymd_of(date.days as int);
    let month0 = m - 1 + months;
    let year = saturate_i32(y + month0 / 12);
    let month = month0 % 12 + 1;
    let length = calendar_month_length(year, month);
    let day = if d <= length {
        d
    } else {
        length
    };
    match civil(year, month, day) {
        Some(found) => found,
        None => date,
    }
}

fn months_after(date: Date, months: i32) -> (res: Date)
    requires
        date.in_calendar(),
        ymd_of(date.days as int).1 - 1 + months <= i32::MAX,
    ensures
        res == months_later(date, months as int),
        res.in_calendar(),
{
    let (y, m, d) = date.ymd();
    let month0: i32 = (m - 1) as i32 + months;
    let carried: i32 = match month0.checked_div_euclid(12) {
        Some(q) => q,
        None => 0,
    };
    let rest: i32 = match month0.checked_rem_euclid(12) {
        Some(r) => r,
        None => 0,
    };
    let year: i32 = saturating_add_i32(y, carried);
    let month: u32 = rest as u32 + 1;
    let length: u32 = days_in_month(year, month);
    let day: u32 = if d <= length {
        d
    } else {
        length
    };
    match Date::from_ymd(year, month, day) {
        Some(found) => found,
        None => date,
    }
}

/// Last day of a span of `months` months that starts on `date`.
pub fn add_months_saturating(date: Date, months: i32) -> (res: Date)
    requires
        date.in_calendar(),
        ymd_of(date.days as int).1 - 1 + months <= i32::MAX,
        months_later(date, months as int).days > MIN_DATE_DAYS,
    ensures
        res.days == months_later(date, months as int).days - 1,
        res.in_calendar(),
{
    Date { days: months_after(date, months).days - 1 }
}

/// Midnight at the start of a day.
pub fn partition_day_start(date: Date) -> (res: DateTime)
    requires
        date.on_clock(),
    ensures
        res.ns == clock_ns(date.days as int, 0),
        res.date() == date,
        res.day() == date.days,
        res.tod() == 0,
{
    DateTime::at(date, 0)
}

/// The last second of a day.
pub fn partition_day_end(date: Date) -> (res: DateTime)
    requires
        date.on_clock(),
    ensures
        res.ns == clock_ns(date.days as int, 86_399),
        res.date() == date,
        res.day() == date.days,
{
    DateTime::at(date, 86_399)
}

/// Whether an instant lies between midnight of the first and the last second of
/// the last day of a window.
pub open spec fn in_window(ns: int, window_start: Date, window_end: Date) -> bool {
    clock_ns(window_start.days as int, 0) <= ns <= clock_ns(window_end.days as int, 86_399)
}

pub fn timestamp_belongs_to_window(timestamp: DateTime, window_start: Date, window_end: Date) -> (res:
    bool)
    requires
        window_start.on_clock(),
        window_end.on_clock(),
    ensures
        res == in_window(timestamp.ns as int, window_start, window_end),
{
    timestamp.ns >= partition_day_start(window_start).ns && timestamp.ns <= partition_day_end(
        window_end,
    ).ns
}

/// Day range and securities of a store scan.
#[derive(Clone, Copy, Debug, PartialEq, Eq, Structural)]
pub struct QueryParams {
    pub day_start: DateTime,
    pub day_end: DateTime,
    /// Whether bar timestamps are limited to the range too.
    pub limit_bars: bool,
    /// Whether the range limits timestamps in place of partition days.
    pub by_time: bool,
    pub sid: u64,
}

/// Scan for the daily rows of a window: one day is added on either side.
pub open spec fn daily_query(sid: u64, window_start: Date, window_end: Date) -> QueryParams {
    QueryParams {
        day_start: DateTime { ns: clock_ns(window_start.days - 1, 0) as i64 },
        day_end: DateTime { ns: clock_ns(window_end.days + 1, 86_399) as i64 },
        limit_bars: false,
        by_time: false,
        sid,
    }
}

pub fn daily_market_query_params(sid: u64, window_start: Date, window_end: Date) -> (res: QueryParams)
    requires
        crate::time::MIN_CLOCK_DAYS < window_start.days <= crate::time::MAX_CLOCK_DAYS,
        crate::time::MIN_CLOCK_DAYS <= window_end.days < crate::time::MAX_CLOCK_DAYS,
    ensures
        res == daily_query(sid, window_start, window_end),
{
    let query_start = match window_start.pred_opt() {
        Some(date) => date,
        None => window_start,
    };
    let query_end = match window_end.succ_opt() {
        Some(date) => date,
        None => window_end,
    };
    QueryParams {
        day_start: partition_day_start(query_start),
        day_end: partition_day_end(query_end),
        limit_bars: false,
        by_time: false,
        sid,
    }
}

/// Whether an equity market trades on a date.
pub fn is_open_equity_date(exchange_hours: &ExchangeHours, date: Date) -> (res: bool)
    ensures
        res == exchange_hours.opens_on(date),
{
    exchange_hours.is_open_on(date)
}

/// Whether the cache of a window must hold a date: it lies inside the window
/// and the run, and an equity market trades on it.
pub open spec fn is_expected_date(
    days: int,
    window_start: Date,
    window_end: Date,
    hard_end: Date,
    exchange_hours: Option<&ExchangeHours>,
    security_type: SecurityType,
) -> bool {
    &&& window_start.days <= days <= window_end.days
    &&& days <= hard_end.days
    &&& security_type == SecurityType::Equity ==> match exchange_hours {
        Some(hours) => hours.opens_on(Date { days: days as i32 }),
        None => false,
    }
}

/// Dates in strictly increasing order.
pub open spec fn increasing(dates: Seq<Date>) -> bool {
    forall|i: int, j: int|
        0 <= i < j < dates.len() ==> (#[trigger] dates[i]).days < (#[trigger] dates[j]).days
}

/// The dates that the cache of a window must hold, in order.
pub fn expected_market_dates(
    window_start: Date,
    window_end: Date,
    hard_end: Date,
    exchange_hours: Option<&ExchangeHours>,
    security_type: SecurityType,
) -> (res: Vec<Date>)
    requires
        window_start.in_calendar(),
        window_end.days < MAX_DATE_DAYS || hard_end.days < MAX_DATE_DAYS,
    ensures
        increasing(res@),
        forall|d: Date|
            #[trigger] res@.contains(d) <==> is_expected_date(
                d.days as int,
                window_start,
                window_end,
                hard_end,
                exchange_hours,
                security_type,
            ),
{
    let end = window_end.min(hard_end);
    let mut out: Vec<Date> = Vec::new();
    let mut date = window_start;
    while date.days <= end.days
        invariant
            window_start.days <= date.days,
            date.days <= end.days + 1 || date.days == window_start.days,
            end.days < MAX_DATE_DAYS,
            end.days == (if window_end.days <= hard_end.days {
                window_end.days
            } else {
                hard_end.days
            }),
            increasing(out@),
            forall|i: int| 0 <= i < out@.len() ==> (#[trigger] out@[i]).days < date.days,
            forall|d: Date|
                #[trigger] out@.contains(d) <==> (d.days < date.days && is_expected_date(
                    d.days as int,
                    window_start,
                    window_end,
                    hard_end,
                    exchange_hours,
                    security_type,
                )),
        decreases end.days + 1 - date.days,
    {
        let expected = if security_type == SecurityType::Equity {
            match exchange_hours {
                Some(hours) => hours.is_open_on(date),
                None => false,
            }
        } else {
            true
        };
        let ghost before = out@;
        if expected {
            out.push(date);
            assert(out@ == before.push(date));
            assert(out@[before.len() as int] == date);
            assert(out@.contains(date));
            assert forall|d: Date| #[trigger] out@.contains(d) <==> (before.contains(d) || d
                == date) by {
                if before.contains(d) {
                    let i = choose|i: int| 0 <= i < before.len() && before[i] == d;
                    assert(out@[i] == d);
                }
                if out@.contains(d) && d != date {
                    let i = choose|i: int| 0 <= i < out@.len() && out@[i] == d;
                    assert(before[i] == d);
                }
            }
        }
        date = Date { days: date.days + 1 };
    }
    out
}

/// Day number of a nanosecond count.
pub fn days_since_epoch(ns: i64) -> (res: i32)
    ensures
        res == day_of(ns as int),
{
    DateTime { ns }.date_utc().days
}

/// The date with a day number, if the calendar holds it.
pub fn date_from_days_since_epoch(days: i32) -> (res: Option<Date>)
    ensures
        res == (if MIN_DATE_DAYS <= days <= MAX_DATE_DAYS {
            Some(Date { days })
        } else {
            None
        }),
{
    if MIN_DATE_DAYS <= days && days <= MAX_DATE_DAYS {
        Some(Date { days })
    } else {
        None
    }
}

/// A count cut to 32 bits with a sign.
pub open spec fn wrapped_i32(n: int) -> int {
    (n + 0x8000_0000) % 0x1_0000_0000 - 0x8000_0000
}

/// A count cut to 64 bits with a sign.
pub open spec fn wrapped_i64(n: int) -> int {
    (n + 0x8000_0000_0000_0000) % 0x1_0000_0000_0000_0000 - 0x8000_0000_0000_0000
}

fn to_i32(n: usize) -> (res: i32)
    ensures
        res == wrapped_i32(n as int),
{
    let low: i64 = (n as u64 % 0x1_0000_0000) as i64;
    if low >= 0x8000_0000 {
        (low - 0x1_0000_0000) as i32
    } else {
        low as i32
    }
}

fn to_i64(n: usize) -> (res: i64)
    ensures
        res == wrapped_i64(n as int),
{
    let wide: i128 = n as u64 as i128;
    if wide >= 0x8000_0000_0000_0000 {
        (wide - 0x1_0000_0000_0000_0000) as i64
    } else {
        wide as i64
    }
}

/// Last date of the window that starts at `start`: whole years of daily bars,
/// whole months of hourly bars, whole days of anything finer.
pub open spec fn fill_end(start: Date, resolution: Resolution, intervals: int) -> int {
    match resolution {
        Resolution::Daily => years_later(start, wrapped_i32(intervals)).days - 1,
        Resolution::Hour => months_later(start, wrapped_i32(intervals)).days - 1,
        _ => start.days + wrapped_i64(intervals - 1),
    }
}

/// Whether the end of a window lies in the calendar, and the months up to it can
/// be counted.
pub open spec fn fill_in_calendar(start: Date, resolution: Resolution, intervals: int) -> bool {
    &&& MIN_DATE_DAYS <= fill_end(start, resolution, intervals) <= MAX_DATE_DAYS
    &&& resolution == Resolution::Hour ==> ymd_of(start.days as int).1 - 1 + wrapped_i32(intervals)
        <= i32::MAX
}

/// Last date of the window that starts at `start`, if it lies in the calendar.
pub fn fill_end_date(start: Date, resolution: Resolution, intervals: usize) -> (res: Option<Date>)
    requires
        start.in_calendar(),
        intervals >= 1,
    ensures
        res == (if fill_in_calendar(start, resolution, intervals as int) {
            Some(Date { days: fill_end(start, resolution, intervals as int) as i32 })
        } else {
            None
        }),
{
    match resolution {
        Resolution::Daily => {
            let years: i32 = to_i32(intervals);
            if years_after(start, years).days > MIN_DATE_DAYS {
                Some(add_years_saturating(start, years))
            } else {
                None
            }
        },
        Resolution::Hour => {
            let months: i32 = to_i32(intervals);
            let (_, month, _) = start.ymd();
            if (month - 1) as i64 + months as i64 > i32::MAX as i64 {
                return None;
            }
            if months_after(start, months).days > MIN_DATE_DAYS {
                Some(add_months_saturating(start, months))
            } else {
                None
            }
        },
        _ => {
            let end: i128 = start.days as i128 + to_i64(intervals - 1) as i128;
            if MIN_DATE_DAYS as i128 <= end && end <= MAX_DATE_DAYS as i128 {
                Some(Date { days: end as i32 })
            } else {
                None
            }
        },
    }
}

/// A window ends no earlier than the day before it starts, for any number of
/// intervals that 32 bits hold.
pub proof fn law_window_does_not_end_before_it_starts(
    start: Date,
    resolution: Resolution,
    intervals: int,
)
    requires
        start.in_calendar(),
        1 <= intervals <= i32::MAX,
    ensures
        start.days - 1 <= fill_end(start, resolution, intervals),
{
    match resolution {
        Resolution::Daily => {
            lemma_years_later(start, intervals);
        },
        Resolution::Hour => {
            lemma_months_later(start, intervals);
        },
        _ => {},
    }
}

#[verifier::spinoff_prover]
#[verifier::rlimit(40)]
proof fn lemma_years_later(start: Date, years: int)
    requires
        start.in_calendar(),
        1 <= years <= i32::MAX,
    ensures
        years_later(start, years).days >= start.days,
{
    crate::time::lemma_ymd_exists(start.days as int);
    let (y, m, d) = ymd_of(start.days as int);
    lemma_later_date(y, m, d, saturate_i32(y + years), m, d);
    lemma_later_date(y, m, d, saturate_i32(y + years), 2, 28);
}

#[verifier::spinoff_prover]
#[verifier::rlimit(40)]
proof fn lemma_months_later(start: Date, months: int)
    requires
        start.in_calendar(),
        1 <= months <= i32::MAX,
    ensures
        months_later(start, months).days >= start.days,
{
    crate::time::lemma_ymd_exists(start.days as int);
    let (y, m, d) = ymd_of(start.days as int);
    let month0 = m - 1 + months;
    let year = saturate_i32(y + month0 / 12);
    let month = month0 % 12 + 1;
    let length = calendar_month_length(year, month);
    let day = if d <= length {
        d
    } else {
        length
    };
    lemma_later_date(y, m, d, year, month, day);
}

/// A date in a later month has a later day number.
#[verifier::spinoff_prover]
#[verifier::rlimit(40)]
proof fn lemma_later_date(y1: int, m1: int, d1: int, y2: int, m2: int, d2: int)
    requires
        valid_ymd(y1, m1, d1),
        y1 < y2 || (y1 == y2 && m1 < m2),
    ensures
        civil(y2, m2, d2) matches Some(date) ==> date.days > epoch_days(y1, m1, d1),
{
    if valid_ymd(y2, m2, d2) {
        lemma_epoch_days_range(y2, m2, d2);
        crate::time::lemma_date_order(y1, m1, d1, y2, m2, d2);
    }
}

/// A window holds the instants of its days, up to the last whole second of the last
/// one, and no instant of any other day.
pub proof fn law_window_holds_its_days(time: DateTime, window_start: Date, window_end: Date)
    requires
        window_start.on_clock(),
        window_end.on_clock(),
    ensures
        in_window(time.ns as int, window_start, window_end) ==> window_start.days <= time.day()
            <= window_end.days,
        window_start.days <= time.day() < window_end.days ==> in_window(
            time.ns as int,
            window_start,
            window_end,
        ),
        window_start.days <= time.day() == window_end.days && time.tod() <= 86_399_000_000_000
            ==> in_window(time.ns as int, window_start, window_end),
{
    let day = crate::time::NANOS_PER_DAY as int;
    vstd::arithmetic::div_mod::lemma_fundamental_div_mod(time.ns as int, day);
    assert(time.ns == time.day() * day + time.tod());
    assert(0 <= time.tod() < day) by (nonlinear_arith)
        requires
            time.tod() == time.ns as int % day,
            day > 0,
    ;
    let a = window_start.days as int;
    let b = window_end.days as int;
    let d = time.day();
    assert(d < a ==> d * day + day <= a * day) by (nonlinear_arith)
        requires
            day > 0,
    ;
    assert(d > b ==> b * day + day <= d * day) by (nonlinear_arith)
        requires
            day > 0,
    ;
    assert(a <= d ==> a * day <= d * day) by (nonlinear_arith)
        requires
            day > 0,
    ;
    assert(d < b ==> d * day + day <= b * day) by (nonlinear_arith)
        requires
            day > 0,
    ;
}

/// The scan for the daily rows of a window reaches one whole day further on either
/// side, and reads the rows of the security by their days.
pub proof fn law_daily_scan_reaches_one_day_further(
    sid: u64,
    window_start: Date,
    window_end: Date,
)
    requires
        crate::time::MIN_CLOCK_DAYS < window_start.days <= crate::time::MAX_CLOCK_DAYS,
        crate::time::MIN_CLOCK_DAYS <= window_end.days < crate::time::MAX_CLOCK_DAYS,
    ensures
        ({
            let query = daily_query(sid, window_start, window_end);
            &&& query.sid == sid
            &&& !query.limit_bars
            &&& !query.by_time
            &&& query.day_start.day() == window_start.days - 1
            &&& query.day_start.tod() == 0
            &&& query.day_end.day() == window_end.days + 1
            &&& query.day_end.tod() == 86_399_000_000_000
        }),
{
    crate::time::law_clock_reads_back(window_start.days - 1, 0);
    crate::time::law_clock_reads_back(window_end.days + 1, 86_399);
}

/// A cache must hold no date outside its window or after the run. Other securities
/// trade every day, equities on the days their market opens; without known hours an
/// equity has no expected date.
pub proof fn law_expected_dates_are_trading_days(
    date: Date,
    window_start: Date,
    window_end: Date,
    hard_end: Date,
    hours: &ExchangeHours,
    security_type: SecurityType,
)
    ensures
        ({
            let inside = window_start.days <= date.days && date.days <= window_end.days && date.days
                <= hard_end.days;
            let days = date.days as int;
            &&& !inside ==> !is_expected_date(
                days,
                window_start,
                window_end,
                hard_end,
                Some(hours),
                security_type,
            )
            &&& inside && security_type != SecurityType::Equity ==> is_expected_date(
                days,
                window_start,
                window_end,
                hard_end,
                Some(hours),
                security_type,
            ) && is_expected_date(days, window_start, window_end, hard_end, None, security_type)
            &&& inside && security_type == SecurityType::Equity ==> (is_expected_date(
                days,
                window_start,
                window_end,
                hard_end,
                Some(hours),
                security_type,
            ) <==> hours.opens_on(date)) && !is_expected_date(
                days,
                window_start,
                window_end,
                hard_end,
                None,
                security_type,
            )
        }),
{
    assert(Date { days: date.days as int as i32 } == date);
}

/// A window of anything finer than an hour spans as many days as there are intervals.
pub proof fn law_window_spans_whole_days(start: Date, intervals: int)
    requires
        1 <= intervals <= i32::MAX,
    ensures
        fill_end(start, Resolution::Minute, intervals) == start.days + intervals - 1,
        fill_end(start, Resolution::Second, intervals) == start.days + intervals - 1,
        fill_end(start, Resolution::Tick, intervals) == start.days + intervals - 1,
{
}

/// A window of daily bars ends the day before the same date some years later, where
/// that date exists.
#[verifier::spinoff_prover]
#[verifier::rlimit(40)]
pub proof fn law_window_spans_whole_years(start: Date, intervals: int)
    requires
        1 <= intervals <= i32::MAX,
        ({
            let (y, m, d) = ymd_of(start.days as int);
            valid_ymd(y, m, d) && valid_ymd(y + intervals, m, d)
        }),
    ensures
        ({
            let (y, m, d) = ymd_of(start.days as int);
            fill_end(start, Resolution::Daily, intervals) == epoch_days(y + intervals, m, d) - 1
        }),
{
    let (y, m, d) = ymd_of(start.days as int);
    lemma_epoch_days_range(y + intervals, m, d);
    assert(saturate_i32(y + intervals) == y + intervals);
    assert(wrapped_i32(intervals) == intervals);
}

/// A window of hourly bars ends the day before the same date some months later, where
/// that date exists in the same year.
#[verifier::spinoff_prover]
#[verifier::rlimit(40)]
pub proof fn law_window_spans_whole_months(start: Date, intervals: int)
    requires
        1 <= intervals < 12,
        ({
            let (y, m, d) = ymd_of(start.days as int);
            valid_ymd(y, m, d) && m + intervals <= 12 && y < 262142 && valid_ymd(
                y,
                m + intervals,
                d,
            )
        }),
    ensures
        ({
            let (y, m, d) = ymd_of(start.days as int);
            fill_end(start, Resolution::Hour, intervals) == epoch_days(y, m + intervals, d) - 1
        }),
{
    let (y, m, d) = ymd_of(start.days as int);
    lemma_epoch_days_range(y, m + intervals, d);
    let month0 = m - 1 + intervals;
    assert(month0 / 12 == 0 && month0 % 12 == month0);
    assert(wrapped_i32(intervals) == intervals);
    assert(calendar_month_length(y, m + intervals) == month_length(y, m + intervals));
}

} // verus!
