//! Which dates the daily rows at hand cover.

use crate::model::ExchangeHours;
use crate::subscription_reader::window::{increasing, is_open_equity_date};
use crate::time::{clock_ns, Date, DateTime, MAX_DATE_DAYS};
use vstd::prelude::*;

verus! {

/// Nanoseconds from midnight to 16:00, the equity close.
pub const EQUITY_CLOSE_NS: i64 = 57_600_000_000_000;

/// Security and time span of a stored row.
#[derive(Clone, Copy, Debug, PartialEq, Eq, Structural)]
pub struct RowSpan {
    pub sid: u64,
    pub time: DateTime,
    pub end_time: DateTime,
}

/// A bar from one midnight to another.
pub open spec fn midnight_bar(time: DateTime, end_time: DateTime) -> bool {
    time.tod() == 0 && end_time.tod() == 0 && time.day() != end_time.day()
}

/// A bar from one 16:00 to the 16:00 of another day.
pub open spec fn source_dated_bar(time: DateTime, end_time: DateTime) -> bool {
    time.day() != end_time.day() && time.tod() == EQUITY_CLOSE_NS && end_time.tod()
        == EQUITY_CLOSE_NS
}

/// Any other bar: it ends with the session it belongs to.
pub open spec fn session_close_bar(time: DateTime, end_time: DateTime) -> bool {
    !midnight_bar(time, end_time) && !source_dated_bar(time, end_time)
}

pub fn is_midnight_daily_bar(time: DateTime, end_time: DateTime) -> (res: bool)
    ensures
        res == midnight_bar(time, end_time),
{
    time.nanos_of_day() == 0 && end_time.nanos_of_day() == 0 && time.date_utc().days
        != end_time.date_utc().days
}

pub fn is_source_dated_daily_bar(time: DateTime, end_time: DateTime) -> (res: bool)
    ensures
        res == source_dated_bar(time, end_time),
{
    time.date_utc().days != end_time.date_utc().days && time.nanos_of_day()
        == end_time.nanos_of_day() && time.nanos_of_day() == EQUITY_CLOSE_NS
}

pub fn is_session_close_daily_bar(time: DateTime, end_time: DateTime) -> (res: bool)
    ensures
        res == session_close_bar(time, end_time),
{
    !is_midnight_daily_bar(time, end_time) && !is_source_dated_daily_bar(time, end_time)
}

/// 16:00 of a date.
pub fn equity_daily_frontier(date: Date) -> (res: DateTime)
    requires
        date.on_clock(),
    ensures
        res.ns == clock_ns(date.days as int, 57_600),
        res.date() == date,
        res.day() == date.days,
        res.tod() == EQUITY_CLOSE_NS,
{
    DateTime::at(date, 57_600)
}

/// The instant that places a bar in a day partition.
pub open spec fn partition_time(time: DateTime, end_time: DateTime) -> DateTime {
    if time.day() != end_time.day() {
        end_time
    } else {
        time
    }
}

pub fn market_partition_time(time: DateTime, end_time: DateTime) -> (res: DateTime)
    ensures
        res == partition_time(time, end_time),
{
    if time.date_utc().days != end_time.date_utc().days {
        end_time
    } else {
        time
    }
}

/// The date whose session a stored daily row covers: the date it starts on for
/// bars dated by their source, otherwise the date it ends on.
pub open spec fn coverage_date(time: DateTime, end_time: DateTime) -> Date {
    if midnight_bar(time, end_time) || source_dated_bar(time, end_time) {
        time.date()
    } else {
        end_time.date()
    }
}

pub fn daily_row_coverage_date(
    exchange_hours: &ExchangeHours,
    time: DateTime,
    end_time: DateTime,
) -> (res: Date)
    ensures
        res == coverage_date(time, end_time),
{
    if is_midnight_daily_bar(time, end_time) {
        return time.date_utc();
    }
    if is_source_dated_daily_bar(time, end_time) {
        return time.date_utc();
    }
    let time_date = time.date_utc();
    if time_date.days != end_time.date_utc().days {
        return end_time.date_utc();
    }
    if is_open_equity_date(exchange_hours, time_date) {
        time_date
    } else {
        end_time.date_utc()
    }
}

pub open spec fn later_date(a: Date, b: Date) -> Date {
    if a.days >= b.days {
        a
    } else {
        b
    }
}

pub open spec fn earlier_date(a: Date, b: Date) -> Date {
    if a.days <= b.days {
        a
    } else {
        b
    }
}

/// The date that a freshly fetched daily row covers, no earlier than the window
/// it was fetched for. A bar from 16:00 to 16:00 is moreover held to the date on
/// which it ends.
pub open spec fn fetched_coverage_date(
    time: DateTime,
    end_time: DateTime,
    window_start: Date,
) -> Date {
    if midnight_bar(time, end_time) {
        later_date(time.date(), window_start)
    } else if source_dated_bar(time, end_time) {
        earlier_date(later_date(time.date(), window_start), end_time.date())
    } else {
        later_date(end_time.date(), window_start)
    }
}

pub fn fetched_daily_row_coverage_date(
    exchange_hours: &ExchangeHours,
    time: DateTime,
    end_time: DateTime,
    window_start: Date,
) -> (res: Date)
    ensures
        res == fetched_coverage_date(time, end_time, window_start),
{
    if is_midnight_daily_bar(time, end_time) {
        return time.date_utc().max(window_start);
    }
    if time.date_utc().days == end_time.date_utc().days && time.nanos_of_day() == 0 {
        return time.date_utc().max(window_start);
    }
    if is_session_close_daily_bar(time, end_time) {
        return market_partition_time(time, end_time).date_utc().max(window_start);
    }
    daily_row_coverage_date(exchange_hours, time, end_time).max(window_start).min(
        end_time.date_utc(),
    )
}

/// Whether a date is among `dates`.
pub fn has_date(dates: &Vec<Date>, date: Date) -> (res: bool)
    ensures
        res == dates@.contains(date),
{
    let mut i: usize = 0;
    while i < dates.len()
        invariant
            i <= dates@.len(),
            forall|j: int| 0 <= j < i ==> dates@[j] != date,
        decreases dates.len() - i,
    {
        if dates[i] == date {
            return true;
        }
        i = i + 1;
    }
    false
}

/// Whether every date of `dates` is among `available`.
pub open spec fn all_among(dates: Seq<Date>, available: Seq<Date>) -> bool {
    forall|i: int| 0 <= i < dates.len() ==> available.contains(#[trigger] dates[i])
}

pub fn is_subset(dates: &Vec<Date>, available: &Vec<Date>) -> (res: bool)
    ensures
        res == all_among(dates@, available@),
{
    let mut i: usize = 0;
    while i < dates.len()
        invariant
            i <= dates@.len(),
            forall|j: int| 0 <= j < i ==> available@.contains(#[trigger] dates@[j]),
        decreases dates.len() - i,
    {
        if !has_date(available, dates[i]) {
            assert(!available@.contains(dates@[i as int]));
            return false;
        }
        i = i + 1;
    }
    true
}

/// The rows that cover an expected date.
pub open spec fn rows_on_expected(rows: Seq<RowSpan>, expected: Seq<Date>) -> Seq<RowSpan> {
    rows.filter(|row: RowSpan| expected.contains(coverage_date(row.time, row.end_time)))
}

/// Whether stored daily rows are as many, counted without repetition, as the
/// dates expected of them.
pub open spec fn enough_rows(rows: Seq<RowSpan>, expected: Seq<Date>) -> bool {
    rows_on_expected(rows, expected).to_set().len() >= expected.len()
}

/// Whether `date` is an expected date that one of the rows covers.
pub open spec fn covered_by(rows: Seq<RowSpan>, expected: Seq<Date>, date: Date) -> bool {
    expected.contains(date) && exists|i: int|
        0 <= i < rows.len() && coverage_date(
            (#[trigger] rows[i]).time,
            rows[i].end_time,
        ) == date
}

fn has_span(rows: &Vec<RowSpan>, row: RowSpan) -> (res: bool)
    ensures
        res == rows@.contains(row),
{
    let mut i: usize = 0;
    while i < rows.len()
        invariant
            i <= rows@.len(),
            forall|j: int| 0 <= j < i ==> rows@[j] != row,
        decreases rows.len() - i,
    {
        if rows[i] == row {
            return true;
        }
        i = i + 1;
    }
    false
}

/// Expected dates that stored daily rows cover; none at all when the rows are
/// fewer than the dates expected.
pub fn daily_row_dates(
    rows: &Vec<RowSpan>,
    expected: &Vec<Date>,
    exchange_hours: &ExchangeHours,
) -> (res: Vec<Date>)
    ensures
        res@.no_duplicates(),
        !enough_rows(rows@, expected@) ==> res@.len() == 0,
        enough_rows(rows@, expected@) ==> forall|d: Date| #[trigger]
            res@.contains(d) <==> covered_by(rows@, expected@, d),
{
    let mut dates: Vec<Date> = Vec::new();
    let mut unique_rows: Vec<RowSpan> = Vec::new();
    let mut i: usize = 0;
    let ghost keep = |row: RowSpan| expected@.contains(coverage_date(row.time, row.end_time));
    assert(rows@.take(0).filter(keep) =~= Seq::<RowSpan>::empty()) by {
        reveal(Seq::filter);
    }
    assert(unique_rows@.to_set() =~= rows@.take(0).filter(keep).to_set());
    while i < rows.len()
        invariant
            i <= rows@.len(),
            keep == |row: RowSpan| expected@.contains(coverage_date(row.time, row.end_time)),
            dates@.no_duplicates(),
            unique_rows@.no_duplicates(),
            unique_rows@.to_set() == rows@.take(i as int).filter(keep).to_set(),
            forall|d: Date| #[trigger]
                dates@.contains(d) <==> covered_by(rows@.take(i as int), expected@, d),
        decreases rows.len() - i,
    {
        let row = rows[i];
        let date = daily_row_coverage_date(exchange_hours, row.time, row.end_time);
        let ghost dates_before = dates@;
        let ghost unique_before = unique_rows@;
        let ghost head = rows@.take(i as int);
        let ghost next = rows@.take(i + 1);
        proof {
            assert(next.drop_last() =~= head);
            assert(next.last() == row);
            reveal(Seq::filter);
            assert forall|d: Date| covered_by(next, expected@, d) <==> (covered_by(
                head,
                expected@,
                d,
            ) || (d == date && expected@.contains(d))) by {
                if covered_by(head, expected@, d) {
                    let j = choose|j: int|
                        0 <= j < head.len() && coverage_date(
                            (#[trigger] head[j]).time,
                            head[j].end_time,
                        ) == d;
                    assert(next[j] == head[j]);
                }
                if covered_by(next, expected@, d) {
                    let j = choose|j: int|
                        0 <= j < next.len() && coverage_date(
                            (#[trigger] next[j]).time,
                            next[j].end_time,
                        ) == d;
                    if j < i {
                        assert(head[j] == next[j]);
                    }
                }
                assert(next[i as int] == row);
            }
        }
        if has_date(expected, date) {
            if !has_date(&dates, date) {
                dates.push(date);
                proof {
                    lemma_push_contains(dates_before, date);
                }
            }
            if !has_span(&unique_rows, row) {
                unique_rows.push(row);
                proof {
                    lemma_push_contains(unique_before, row);
                }
            }
            proof {
                let f = head.filter(keep);
                lemma_push_contains(f, row);
                assert(next.filter(keep) == f.push(row));
                assert(unique_rows@.to_set() =~= next.filter(keep).to_set()) by {
                    assert forall|r: RowSpan| unique_rows@.to_set().contains(r)
                        == next.filter(keep).to_set().contains(r) by {
                        assert(unique_before.to_set().contains(r) == f.to_set().contains(r));
                    }
                }
            }
        } else {
            assert(next.filter(keep) == head.filter(keep));
        }
        i = i + 1;
    }
    assert(rows@.take(rows@.len() as int) =~= rows@);
    proof {
        unique_rows@.unique_seq_to_set();
    }
    if unique_rows.len() < expected.len() {
        dates.clear();
    }
    dates
}

/// Membership after one more element.
pub proof fn lemma_push_contains<T>(s: Seq<T>, x: T)
    ensures
        forall|y: T| #[trigger] s.push(x).contains(y) <==> (s.contains(y) || y == x),
        s.no_duplicates() && !s.contains(x) ==> s.push(x).no_duplicates(),
{
    assert forall|y: T| #[trigger] s.push(x).contains(y) <==> (s.contains(y) || y == x) by {
        if s.contains(y) {
            let i = choose|i: int| 0 <= i < s.len() && s[i] == y;
            assert(s.push(x)[i] == y);
        }
        assert(s.push(x)[s.len() as int] == x);
        if s.push(x).contains(y) && y != x {
            let i = choose|i: int| 0 <= i < s.push(x).len() && s.push(x)[i] == y;
            assert(s[i] == y);
        }
    }
}

/// Whether `date` is an expected date that one of the fetched rows covers.
pub open spec fn fetched_covers(
    rows: Seq<RowSpan>,
    window_start: Date,
    expected: Seq<Date>,
    date: Date,
) -> bool {
    expected.contains(date) && exists|i: int|
        0 <= i < rows.len() && fetched_coverage_date(
            (#[trigger] rows[i]).time,
            rows[i].end_time,
            window_start,
        ) == date
}

/// Expected dates that freshly fetched daily rows cover.
pub fn fetched_daily_row_dates(
    rows: &Vec<RowSpan>,
    window_start: Date,
    expected: &Vec<Date>,
    exchange_hours: &ExchangeHours,
) -> (res: Vec<Date>)
    ensures
        res@.no_duplicates(),
        forall|d: Date| #[trigger]
            res@.contains(d) <==> fetched_covers(rows@, window_start, expected@, d),
{
    let mut dates: Vec<Date> = Vec::new();
    let mut i: usize = 0;
    while i < rows.len()
        invariant
            i <= rows@.len(),
            dates@.no_duplicates(),
            forall|d: Date| #[trigger]
                dates@.contains(d) <==> fetched_covers(
                    rows@.take(i as int),
                    window_start,
                    expected@,
                    d,
                ),
        decreases rows.len() - i,
    {
        let row = rows[i];
        let date = fetched_daily_row_coverage_date(
            exchange_hours,
            row.time,
            row.end_time,
            window_start,
        );
        let ghost before = dates@;
        let ghost head = rows@.take(i as int);
        let ghost next = rows@.take(i + 1);
        proof {
            assert forall|d: Date| fetched_covers(next, window_start, expected@, d) <==> (
            fetched_covers(head, window_start, expected@, d) || (d == date && expected@.contains(
                d,
            ))) by {
                if fetched_covers(head, window_start, expected@, d) {
                    let j = choose|j: int|
                        0 <= j < head.len() && fetched_coverage_date(
                            (#[trigger] head[j]).time,
                            head[j].end_time,
                            window_start,
                        ) == d;
                    assert(next[j] == head[j]);
                }
                if fetched_covers(next, window_start, expected@, d) {
                    let j = choose|j: int|
                        0 <= j < next.len() && fetched_coverage_date(
                            (#[trigger] next[j]).time,
                            next[j].end_time,
                            window_start,
                        ) == d;
                    if j < i {
                        assert(head[j] == next[j]);
                    }
                }
                assert(next[i as int] == row);
            }
            lemma_push_contains(before, date);
        }
        if has_date(expected, date) && !has_date(&dates, date) {
            dates.push(date);
        }
        i = i + 1;
    }
    assert(rows@.take(rows@.len() as int) =~= rows@);
    dates
}

/// Whether every date from the start of a window through `last` is either not
/// expected or covered.
pub open spec fn unbroken_through(
    window_start: Date,
    last: int,
    expected: Seq<Date>,
    covered: Seq<Date>,
) -> bool {
    forall|d: Date|
        window_start.days <= d.days <= last && #[trigger] expected.contains(d) ==> covered.contains(
            d,
        )
}

/// Last date up to which a window is covered without a gap.
pub fn contiguous_covered_until(
    window_start: Date,
    window_end: Date,
    hard_end: Date,
    expected: &Vec<Date>,
    covered: &Vec<Date>,
) -> (res: Option<Date>)
    requires
        window_start.in_calendar(),
        window_end.days < MAX_DATE_DAYS || hard_end.days < MAX_DATE_DAYS,
    ensures
        ({
            let end = earlier_date(window_end, hard_end);
            match res {
                Some(last) => {
                    &&& window_start.days <= last.days <= end.days
                    &&& unbroken_through(window_start, last.days as int, expected@, covered@)
                    &&& last.days < end.days ==> !unbroken_through(
                        window_start,
                        last.days + 1,
                        expected@,
                        covered@,
                    )
                },
                None => window_start.days > end.days || !unbroken_through(
                    window_start,
                    window_start.days as int,
                    expected@,
                    covered@,
                ),
            }
        }),
{
    let mut date = window_start;
    let end = window_end.min(hard_end);
    let mut last: Option<Date> = None;
    while date.days <= end.days
        invariant
            window_start.days <= date.days,
            date.days <= end.days + 1 || date == window_start,
            end.days == earlier_date(window_end, hard_end).days,
            end.days < MAX_DATE_DAYS,
            last == (if date.days == window_start.days {
                None
            } else {
                Some(Date { days: (date.days - 1) as i32 })
            }),
            unbroken_through(window_start, date.days - 1, expected@, covered@),
        decreases end.days + 1 - date.days,
    {
        if has_date(expected, date) && !has_date(covered, date) {
            assert(expected@.contains(date));
            return last;
        }
        last = Some(date);
        date = Date { days: date.days + 1 };
    }
    last
}

/// Whether the covered dates reach from the first to the last expected date.
pub open spec fn brackets(rows: Seq<RowSpan>, first: Date, last: Date) -> bool {
    &&& exists|i: int|
        0 <= i < rows.len() && coverage_date((#[trigger] rows[i]).time, rows[i].end_time).days
            <= first.days
    &&& exists|i: int|
        0 <= i < rows.len() && coverage_date((#[trigger] rows[i]).time, rows[i].end_time).days
            >= last.days
}

pub fn rows_bracket(
    rows: &Vec<RowSpan>,
    exchange_hours: &ExchangeHours,
    first: Date,
    last: Date,
) -> (res: bool)
    ensures
        res == brackets(rows@, first, last),
{
    let mut head = false;
    let mut tail = false;
    let mut i: usize = 0;
    while i < rows.len()
        invariant
            i <= rows@.len(),
            head <==> exists|j: int|
                0 <= j < i && coverage_date((#[trigger] rows@[j]).time, rows@[j].end_time).days
                    <= first.days,
            tail <==> exists|j: int|
                0 <= j < i && coverage_date((#[trigger] rows@[j]).time, rows@[j].end_time).days
                    >= last.days,
        decreases rows.len() - i,
    {
        let row = rows[i];
        let date = daily_row_coverage_date(exchange_hours, row.time, row.end_time);
        assert(rows@[i as int] == row);
        if date.days <= first.days {
            head = true;
        }
        if date.days >= last.days {
            tail = true;
        }
        i = i + 1;
    }
    head && tail
}

/// Whether stored daily trade rows make a fetch of their window unnecessary:
/// they cover every expected date, or they reach from the first to the last of
/// them, so that only dates in between are missing.
pub open spec fn trade_rows_suffice(rows: Seq<RowSpan>, expected: Seq<Date>) -> bool {
    ||| expected.len() == 0
    ||| rows.len() > 0 && quote_rows_suffice(rows, expected)
    ||| rows.len() > 0 && brackets(rows, expected[0], expected.last())
}

/// Whether stored daily quote rows cover every expected date.
pub open spec fn quote_rows_suffice(rows: Seq<RowSpan>, expected: Seq<Date>) -> bool {
    &&& enough_rows(rows, expected)
    &&& forall|i: int| 0 <= i < expected.len() ==> covered_by(rows, expected, #[trigger] expected[i])
}

/// Decides whether stored daily quote rows cover the expected dates.
pub fn quote_rows_cover(
    rows: &Vec<RowSpan>,
    expected: &Vec<Date>,
    exchange_hours: &ExchangeHours,
) -> (res: bool)
    requires
        expected@.len() > 0,
    ensures
        res == quote_rows_suffice(rows@, expected@),
{
    let available = daily_row_dates(rows, expected, exchange_hours);
    let res = is_subset(expected, &available);
    proof {
        if !enough_rows(rows@, expected@) {
            assert(available@.len() == 0);
            assert(!available@.contains(expected@[0]));
        } else {
            assert forall|i: int| 0 <= i < expected@.len() implies (available@.contains(
                #[trigger] expected@[i],
            ) <==> covered_by(rows@, expected@, expected@[i])) by {}
        }
    }
    res
}

/// Decides whether stored daily trade rows make a fetch unnecessary.
pub fn trade_rows_cover(
    rows: &Vec<RowSpan>,
    expected: &Vec<Date>,
    exchange_hours: &ExchangeHours,
) -> (res: bool)
    requires
        expected@.len() > 0,
        increasing(expected@),
    ensures
        res == trade_rows_suffice(rows@, expected@),
{
    if rows.len() == 0 {
        return false;
    }
    if quote_rows_cover(rows, expected, exchange_hours) {
        return true;
    }
    let first = expected[0];
    let last = expected[expected.len() - 1];
    rows_bracket(rows, exchange_hours, first, last)
}

/// What a filter keeps satisfies it and stood in the sequence.
pub proof fn lemma_filter_index<T>(s: Seq<T>, keep: spec_fn(T) -> bool, k: int)
    requires
        0 <= k < s.filter(keep).len(),
    ensures
        keep(s.filter(keep)[k]),
        exists|j: int| 0 <= j < s.len() && #[trigger] s[j] == s.filter(keep)[k],
    decreases s.len(),
{
    reveal(Seq::filter);
    let head = s.drop_last();
    if k < head.filter(keep).len() {
        lemma_filter_index(head, keep, k);
        let j = choose|j: int| 0 <= j < head.len() && #[trigger] head[j] == head.filter(keep)[k];
        assert(s[j] == s.filter(keep)[k]);
    } else {
        assert(s[s.len() - 1] == s.filter(keep)[k]);
    }
}

/// The session that a daily row covers. A bar from midnight to the midnight of
/// another day covers the day it starts on, and so does one from 16:00 to 16:00;
/// any other bar covers the day it ends on, a bar within one day that day.
pub proof fn law_daily_rows_cover_their_session(time: DateTime, end_time: DateTime)
    ensures
        time.day() != end_time.day() && time.tod() == 0 && end_time.tod() == 0 ==> coverage_date(
            time,
            end_time,
        ).days == time.day(),
        time.day() != end_time.day() && time.tod() == 57_600_000_000_000 && end_time.tod()
            == 57_600_000_000_000 ==> coverage_date(time, end_time).days == time.day(),
        time.day() == end_time.day() ==> coverage_date(time, end_time).days == end_time.day(),
        time.tod() != end_time.tod() ==> coverage_date(time, end_time).days == end_time.day(),
        time.tod() == end_time.tod() && time.tod() != 0 && time.tod() != 57_600_000_000_000
            ==> coverage_date(time, end_time).days == end_time.day(),
{
    time.lemma_day();
    end_time.lemma_day();
}

/// A row that was fetched for a window covers the same session as a stored one, but
/// never a date before the window; and never one after the row has ended, where it
/// runs from 16:00 to 16:00.
pub proof fn law_fetched_rows_cover_their_window(
    time: DateTime,
    end_time: DateTime,
    window_start: Date,
)
    ensures
        ({
            let stored = coverage_date(time, end_time);
            let fetched = fetched_coverage_date(time, end_time, window_start);
            &&& stored.days >= window_start.days && time.day() <= end_time.day() ==> fetched
                == stored
            &&& fetched.days >= window_start.days || fetched == end_time.date()
            &&& stored.days < window_start.days && time.tod() != 57_600_000_000_000 ==> fetched
                == window_start
        }),
{
    time.lemma_day();
    end_time.lemma_day();
}

/// The later and the earlier of two dates are the two dates.
pub proof fn law_later_and_earlier(a: Date, b: Date)
    ensures
        later_date(a, b).days >= a.days && later_date(a, b).days >= b.days,
        later_date(a, b) == a || later_date(a, b) == b,
        earlier_date(a, b).days <= a.days && earlier_date(a, b).days <= b.days,
        earlier_date(a, b) == a || earlier_date(a, b) == b,
{
}

/// A bar belongs to the partition of the day it starts on, unless it reaches into
/// another day: then to that of its end.
pub proof fn law_partition_of_a_bar(time: DateTime, end_time: DateTime)
    ensures
        time.day() == end_time.day() ==> partition_time(time, end_time) == time,
        time.day() != end_time.day() ==> partition_time(time, end_time) == end_time,
{
}

/// Stored daily rows spare a fetch only where nothing can be missing outside of
/// them: without an expected date always, without a row never, and otherwise only
/// if some row covers the first expected date or an earlier one, and some row the
/// last or a later one. Rows that cover every expected date, as many as there are
/// dates, always do.
pub proof fn law_stored_rows_that_spare_a_fetch(
    rows: Seq<RowSpan>,
    expected: Seq<Date>,
    k: int,
)
    requires
        increasing(expected),
    ensures
        expected.len() == 0 ==> trade_rows_suffice(rows, expected),
        expected.len() > 0 && rows.len() == 0 ==> !trade_rows_suffice(rows, expected)
            && !quote_rows_suffice(rows, expected),
        expected.len() > 0 && trade_rows_suffice(rows, expected) ==> {
            &&& exists|i: int|
                0 <= i < rows.len() && coverage_date((#[trigger] rows[i]).time, rows[i].end_time).days
                    <= expected[0].days
            &&& exists|i: int|
                0 <= i < rows.len() && coverage_date((#[trigger] rows[i]).time, rows[i].end_time).days
                    >= expected.last().days
        },
        quote_rows_suffice(rows, expected) && 0 <= k < expected.len() ==> exists|i: int|
            0 <= i < rows.len() && coverage_date((#[trigger] rows[i]).time, rows[i].end_time)
                == expected[k],
        quote_rows_suffice(rows, expected) && rows.len() > 0 ==> trade_rows_suffice(
            rows,
            expected,
        ),
{
    if expected.len() > 0 && quote_rows_suffice(rows, expected) {
        assert(covered_by(rows, expected, expected[0]));
        assert(covered_by(rows, expected, expected[expected.len() - 1]));
        if 0 <= k < expected.len() {
            assert(covered_by(rows, expected, expected[k]));
        }
    }
}

/// Trade rows that reach from the first to the last expected date spare a fetch, whatever is
/// missing in between.
pub proof fn law_rows_that_bracket_spare_a_fetch(
    rows: Seq<RowSpan>,
    expected: Seq<Date>,
    i: int,
    j: int,
)
    requires
        expected.len() > 0,
        0 <= i < rows.len(),
        0 <= j < rows.len(),
        coverage_date(rows[i].time, rows[i].end_time).days <= expected[0].days,
        coverage_date(rows[j].time, rows[j].end_time).days >= expected.last().days,
    ensures
        trade_rows_suffice(rows, expected),
{
}

/// A date is covered only if it is expected and some row covers it.
pub proof fn law_covered_dates(rows: Seq<RowSpan>, expected: Seq<Date>, date: Date, i: int)
    ensures
        0 <= i < rows.len() && coverage_date(rows[i].time, rows[i].end_time) == date
            && expected.contains(date) ==> covered_by(rows, expected, date),
        !expected.contains(date) ==> !covered_by(rows, expected, date),
        (forall|k: int|
            0 <= k < rows.len() ==> coverage_date((#[trigger] rows[k]).time, rows[k].end_time)
                != date) ==> !covered_by(rows, expected, date),
{
}

/// A daily bar is of one kind: over whole days it runs from midnight to midnight or from
/// close to close, and any other ends with its session. Within one day it does always.
pub proof fn law_daily_bars_are_of_one_kind(time: DateTime, end_time: DateTime)
    ensures
        !(midnight_bar(time, end_time) && source_dated_bar(time, end_time)),
        session_close_bar(time, end_time) <==> !midnight_bar(time, end_time)
            && !source_dated_bar(time, end_time),
        time.day() == end_time.day() ==> session_close_bar(time, end_time),
        time.tod() != end_time.tod() ==> session_close_bar(time, end_time),
        time.day() != end_time.day() && time.tod() == end_time.tod() ==> {
            &&& midnight_bar(time, end_time) <==> time.tod() == 0
            &&& source_dated_bar(time, end_time) <==> time.tod() == 16 * 3_600_000_000_000
        },
{
}

} // verus!
