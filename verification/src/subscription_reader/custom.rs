//! Custom data of a subscription: which dates are read, when the source is
//! asked and which rows are delivered.

use crate::model::{CustomDataPoint, CustomDataQuery, ExchangeHours, FieldValue, Resolution};
use crate::name_map::NameMap;
use crate::subscription_data::SubscriptionDataPoint;
use crate::subscription_reader::coverage::has_date;
use crate::subscription_reader::ordering::all_wf;
use crate::subscription_reader::producer::{
    lemma_day_monotonic, on_readable_day, LoadedPartition, SubscriptionProducerState, MAX_FEED_DAYS,
    MIN_FEED_DAYS,
};
use crate::text::{
    ascii_upper, eq_ignore_ascii_case, lemma_lower_of_upper, pieces, same_ignoring_case, split,
    text_eq, texts, to_ascii_uppercase, trim, trimmed,
};
use crate::time::{Date, MAX_DATE_DAYS};
use vstd::prelude::*;
use vstd::string::*;

verus! {

/// Text of a field of a row; fields that hold something else have none.
pub open spec fn text_field(point: CustomDataPoint, name: Seq<char>) -> Option<Seq<char>> {
    if point.fields@.dom().contains(name) {
        match point.fields@[name] {
            FieldValue::Text(text) => Some(text@),
            FieldValue::Json(_) => None,
        }
    } else {
        None
    }
}

fn get_text<'a>(point: &'a CustomDataPoint, name: &str) -> (res: Option<&'a String>)
    requires
        point.fields.wf(),
    ensures
        match res {
            Some(text) => text_field(*point, name@) == Some(text@),
            None => text_field(*point, name@) is None,
        },
{
    match point.fields.get(name) {
        Some(FieldValue::Text(text)) => Some(text),
        _ => None,
    }
}

/// Whether a row is of one of the listed symbols, whatever their case.
pub open spec fn is_of_symbols(point: CustomDataPoint, symbols: Seq<String>) -> bool {
    text_field(point, "usymbol"@) matches Some(symbol) && exists|i: int|
        0 <= i < symbols.len() && same_ignoring_case((#[trigger] symbols[i])@, symbol)
}

/// Whether every named field holds exactly the given text.
pub open spec fn fields_equal(point: CustomDataPoint, wanted: Seq<(String, String)>) -> bool {
    forall|i: int|
        0 <= i < wanted.len() ==> text_field(point, (#[trigger] wanted[i]).0@) == Some(wanted[i].1@)
}

/// Whether every named field holds one of the given texts.
pub open spec fn fields_among(point: CustomDataPoint, wanted: Seq<(String, Vec<String>)>) -> bool {
    forall|i: int|
        0 <= i < wanted.len() ==> (text_field(point, (#[trigger] wanted[i]).0@) matches Some(text)
            && texts(wanted[i].1@).contains(text))
}

/// How a field of a row compares with a numeric bound of a query.
pub struct BoundOutcome {
    pub field: String,
    /// Whether the value is within the bound; none where it is no number.
    pub within: Option<bool>,
}

/// Whether a row is within all numeric bounds: every bounded field is there, is a
/// number and is within its bound.
pub open spec fn bounds_hold(point: CustomDataPoint, bounds: Seq<BoundOutcome>) -> bool {
    forall|i: int|
        0 <= i < bounds.len() ==> {
            &&& point.fields@.dom().contains((#[trigger] bounds[i]).field@)
            &&& bounds[i].within == Some(true)
        }
}

pub fn numeric_bounds_hold(point: &CustomDataPoint, bounds: &Vec<BoundOutcome>) -> (res: bool)
    requires
        point.fields.wf(),
    ensures
        res == bounds_hold(*point, bounds@),
{
    let mut i: usize = 0;
    while i < bounds.len()
        invariant
            i <= bounds@.len(),
            point.fields.wf(),
            forall|k: int|
                0 <= k < i ==> {
                    &&& point.fields@.dom().contains((#[trigger] bounds@[k]).field@)
                    &&& bounds@[k].within == Some(true)
                },
        decreases bounds.len() - i,
    {
        let within = match bounds[i].within {
            Some(holds) => holds,
            None => false,
        };
        if !within || !point.fields.contains_key(bounds[i].field.as_str()) {
            assert(!(point.fields@.dom().contains(bounds@[i as int].field@)
                && bounds@[i as int].within == Some(true)));
            return false;
        }
        i = i + 1;
    }
    true
}

/// Whether a row passes a query. How its fields compare with the numeric bounds
/// of the query is found out outside.
pub open spec fn matches_query(
    point: CustomDataPoint,
    query: CustomDataQuery,
    bounds: Seq<BoundOutcome>,
) -> bool {
    &&& query.symbols matches Some(symbols) ==> is_of_symbols(point, symbols@)
    &&& fields_equal(point, query.string_equals.entries@)
    &&& fields_among(point, query.string_in.entries@)
    &&& bounds_hold(point, bounds)
}

pub fn custom_point_matches_query(
    point: &CustomDataPoint,
    query: &CustomDataQuery,
    bounds: &Vec<BoundOutcome>,
) -> (res: bool)
    requires
        point.fields.wf(),
    ensures
        res == matches_query(*point, *query, bounds@),
{
    if let Some(symbols) = &query.symbols {
        match get_text(point, "usymbol") {
            Some(symbol) => {
                if !has_symbol(symbols, symbol.as_str()) {
                    return false;
                }
            },
            None => {
                return false;
            },
        }
    }
    let mut i: usize = 0;
    while i < query.string_equals.entries.len()
        invariant
            i <= query.string_equals.entries@.len(),
            point.fields.wf(),
            forall|j: int|
                0 <= j < i ==> text_field(*point, (#[trigger] query.string_equals.entries@[j]).0@)
                    == Some(query.string_equals.entries@[j].1@),
        decreases query.string_equals.entries.len() - i,
    {
        let entry = &query.string_equals.entries[i];
        let same = match get_text(point, entry.0.as_str()) {
            Some(actual) => text_eq(actual.as_str(), entry.1.as_str()),
            None => false,
        };
        if !same {
            assert(text_field(*point, query.string_equals.entries@[i as int].0@) != Some(
                query.string_equals.entries@[i as int].1@,
            ));
            return false;
        }
        i = i + 1;
    }
    let mut k: usize = 0;
    while k < query.string_in.entries.len()
        invariant
            k <= query.string_in.entries@.len(),
            point.fields.wf(),
            forall|j: int|
                0 <= j < k ==> (text_field(*point, (#[trigger] query.string_in.entries@[j]).0@)
                    matches Some(text) && texts(query.string_in.entries@[j].1@).contains(text)),
        decreases query.string_in.entries.len() - k,
    {
        let entry = &query.string_in.entries[k];
        let among = match get_text(point, entry.0.as_str()) {
            Some(actual) => has_text(&entry.1, actual.as_str()),
            None => false,
        };
        if !among {
            let ghost e = query.string_in.entries@[k as int];
            assert(!(text_field(*point, e.0@) matches Some(text) && texts(e.1@).contains(text)));
            return false;
        }
        k = k + 1;
    }
    numeric_bounds_hold(point, bounds)
}

fn has_symbol(symbols: &Vec<String>, symbol: &str) -> (res: bool)
    ensures
        res == exists|i: int|
            0 <= i < symbols@.len() && same_ignoring_case((#[trigger] symbols@[i])@, symbol@),
{
    let upper = to_ascii_uppercase(symbol);
    proof {
        lemma_lower_of_upper(symbol@);
    }
    let mut i: usize = 0;
    while i < symbols.len()
        invariant
            i <= symbols@.len(),
            upper@ == ascii_upper(symbol@),
            crate::text::ascii_lower(upper@) == crate::text::ascii_lower(symbol@),
            forall|j: int|
                0 <= j < i ==> !same_ignoring_case((#[trigger] symbols@[j])@, symbol@),
        decreases symbols.len() - i,
    {
        if eq_ignore_ascii_case(symbols[i].as_str(), upper.as_str()) {
            assert(same_ignoring_case(symbols@[i as int]@, symbol@));
            return true;
        }
        i = i + 1;
    }
    false
}

fn has_text(list: &Vec<String>, text: &str) -> (res: bool)
    ensures
        res == texts(list@).contains(text@),
{
    let mut i: usize = 0;
    while i < list.len()
        invariant
            i <= list@.len(),
            forall|j: int| 0 <= j < i ==> (#[trigger] list@[j])@ != text@,
        decreases list.len() - i,
    {
        if text_eq(list[i].as_str(), text) {
            assert(texts(list@)[i as int] == text@);
            return true;
        }
        i = i + 1;
    }
    proof {
        if texts(list@).contains(text@) {
            let k = choose|k: int| 0 <= k < texts(list@).len() && texts(list@)[k] == text@;
            assert(list@[k]@ == text@);
        }
    }
    false
}

/// Columns looked for when the configuration names none.
pub open spec fn default_value_columns() -> Seq<Seq<char>> {
    seq![
        "value"@,
        "close"@,
        "gdp_nowcast"@,
        "atm_ivol"@,
        "option_volume"@,
        "size"@,
    ]
}

/// The columns of a comma-separated list, trimmed, without empty ones.
pub open spec fn listed_columns(list: Seq<char>) -> Seq<Seq<char>> {
    pieces(list, ',').map_values(|piece: Seq<char>| trimmed(piece)).filter(
        |column: Seq<char>| column.len() > 0,
    )
}

/// The columns that may hold the value of a row: the one configured, then those
/// of the configured list, or the usual ones where neither is given.
pub open spec fn value_columns(properties: NameMap<String>) -> Seq<Seq<char>> {
    let single = if properties@.dom().contains("value_column"@) {
        seq![properties@["value_column"@]@]
    } else {
        Seq::empty()
    };
    let listed = if properties@.dom().contains("value_columns"@) {
        listed_columns(properties@["value_columns"@]@)
    } else {
        Seq::empty()
    };
    if (single + listed).len() == 0 {
        default_value_columns()
    } else {
        single + listed
    }
}

pub fn custom_value_columns(properties: &NameMap<String>) -> (res: Vec<String>)
    requires
        properties.wf(),
    ensures
        texts(res@) == value_columns(*properties),
{
    let mut out: Vec<String> = Vec::new();
    let ghost single = if properties@.dom().contains("value_column"@) {
        seq![properties@["value_column"@]@]
    } else {
        Seq::empty()
    };
    if let Some(column) = properties.get("value_column") {
        out.push(column.clone());
    }
    assert(texts(out@) =~= single);
    if let Some(list) = properties.get("value_columns") {
        let parts = split(list.as_str(), ',');
        let ghost all = texts(parts@);
        let ghost f = |piece: Seq<char>| trimmed(piece);
        let ghost keep = |column: Seq<char>| column.len() > 0;
        let mut i: usize = 0;
        proof {
            reveal(Seq::filter);
            assert(all.take(0).map_values(f) =~= Seq::<Seq<char>>::empty());
            assert(texts(out@) =~= single + all.take(0).map_values(f).filter(keep));
        }
        while i < parts.len()
            invariant
                i <= parts@.len(),
                all == texts(parts@),
                f == |piece: Seq<char>| trimmed(piece),
                keep == |column: Seq<char>| column.len() > 0,
                texts(out@) == single + all.take(i as int).map_values(f).filter(keep),
            decreases parts.len() - i,
        {
            let column = trim(parts[i].as_str());
            let ghost before = texts(out@);
            let ghost mapped = all.take(i as int).map_values(f);
            let ghost next = all.take(i + 1).map_values(f);
            proof {
                reveal(Seq::filter);
                assert(all[i as int] == parts@[i as int]@);
                assert(next.drop_last() =~= mapped);
                assert(next.last() == column@);
            }
            if !column.as_str().is_empty() {
                out.push(column);
                proof {
                    assert(texts(out@) =~= before.push(column@));
                    assert(next.filter(keep) == mapped.filter(keep).push(column@));
                    assert(texts(out@) =~= single + next.filter(keep));
                }
            } else {
                assert(next.filter(keep) == mapped.filter(keep));
            }
            i = i + 1;
        }
        assert(all.take(i as int) =~= all);
    }
    if out.len() == 0 {
        out.push("value".to_owned());
        out.push("close".to_owned());
        out.push("gdp_nowcast".to_owned());
        out.push("atm_ivol".to_owned());
        out.push("option_volume".to_owned());
        out.push("size".to_owned());
        assert(texts(out@) =~= default_value_columns());
    }
    out
}

/// First step of loading a custom partition.
#[derive(Clone, Copy, Debug, PartialEq, Eq, Structural)]
pub enum CustomStep {
    /// There is nothing to read through a date.
    Empty { through_date: Date },
    /// Read the stored rows of a window.
    Scan { window_start: Date, window_end: Date },
}

/// What is asked of a custom source.
pub enum CustomFetchPlan {
    Nothing,
    /// The whole series between two dates.
    FullHistory { start_date: Date, end_date: Date },
    /// The rows of each of these days.
    PerDay(Vec<Date>),
}

/// A row, with how it compares with each numeric bound of the query.
pub struct CustomCandidate {
    pub point: CustomDataPoint,
    pub bounds: Vec<BoundOutcome>,
}

/// How a fetch from a custom source ended.
#[derive(Clone, Copy, Debug, PartialEq, Eq, Structural)]
pub enum CustomFetchOutcome {
    Rows,
    NoRows,
    Failed,
}

/// Where the points of a custom partition come from after a fetch.
#[derive(Clone, Copy, Debug, PartialEq, Eq, Structural)]
pub enum CustomPointSource {
    /// What was scanned before.
    Scanned,
    /// What was fetched, once it is stored.
    Fetched,
    /// The store, once what was fetched is stored.
    Rescan,
}

/// Whether a market trades on some day of a window.
pub open spec fn opens_in_window(hours: ExchangeHours, window_start: Date, window_end: Date) -> bool {
    exists|d: Date|
        window_start.days <= d.days <= window_end.days && #[trigger] hours.opens_on(d)
}

impl SubscriptionProducerState {
    /// Window of a custom partition: one day for daily rows.
    pub open spec fn custom_window(&self) -> (Date, Date) {
        if self.config.resolution == Resolution::Daily {
            (self.partition_date, self.partition_date)
        } else {
            self.window()
        }
    }

    /// Decides what a custom partition reads. Nothing is read for a
    /// subscription without a source, for a window without a trading day, or
    /// for a query that lists no symbol.
    pub fn begin_custom_partition(
        &self,
        us_equity_hours: &ExchangeHours,
        query: &CustomDataQuery,
    ) -> (res: CustomStep)
        requires
            self.dates_wf(),
            self.config.custom is Some && self.config.resolution != Resolution::Daily
                ==> self.window_readable(),
        ensures
            res == ({
                let (window_start, window_end) = self.custom_window();
                if self.config.custom is None {
                    CustomStep::Empty { through_date: self.partition_date }
                } else if !opens_in_window(*us_equity_hours, window_start, window_end) || (
                query.symbols matches Some(symbols) && symbols@.len() == 0) {
                    CustomStep::Empty { through_date: window_end }
                } else {
                    CustomStep::Scan { window_start, window_end }
                }
            }),
            self.config.custom is Some && self.config.resolution != Resolution::Daily
                ==> MIN_FEED_DAYS - 1 <= self.custom_window().1.days <= MAX_FEED_DAYS,
    {
        if self.config.custom.is_none() {
            return CustomStep::Empty { through_date: self.partition_date };
        }
        let (window_start, window_end) = if self.config.resolution == Resolution::Daily {
            (self.partition_date, self.partition_date)
        } else {
            self.cache_fill_window()
        };
        let mut has_open_date = false;
        let mut date = window_start;
        while date.days <= window_end.days && !has_open_date
            invariant
                window_start.days <= date.days,
                date.days <= window_end.days + 1 || date == window_start,
                window_end.days <= MAX_FEED_DAYS + 1,
                has_open_date ==> opens_in_window(*us_equity_hours, window_start, window_end),
                !has_open_date ==> forall|d: Date|
                    window_start.days <= d.days < date.days
                        ==> !#[trigger] us_equity_hours.opens_on(d),
            decreases window_end.days + 1 - date.days, !has_open_date as int,
        {
            if us_equity_hours.is_open_on(date) {
                has_open_date = true;
            } else {
                date = Date { days: date.days + 1 };
            }
        }
        if !has_open_date {
            return CustomStep::Empty { through_date: window_end };
        }
        if let Some(symbols) = &query.symbols {
            if symbols.len() == 0 {
                return CustomStep::Empty { through_date: window_end };
            }
        }
        CustomStep::Scan { window_start, window_end }
    }

    /// Whether every date of a window, and at least its first, is known to be
    /// without rows.
    pub open spec fn known_empty(&self, window_start: Date, window_end: Date) -> bool {
        &&& self.custom_empty_dates@.contains(window_start)
        &&& forall|d: Date|
            window_start.days <= d.days <= window_end.days
                ==> #[trigger] self.custom_empty_dates@.contains(d)
    }

    /// Whether the source is asked for the rows of a window: fetching is on, the
    /// store holds none for it whatever the query, not every date is known to be
    /// empty, and a source of whole series has not delivered already.
    pub open spec fn fetches_custom(
        &self,
        window_is_stored: bool,
        source_is_full_history: Option<bool>,
        window_start: Date,
        window_end: Date,
    ) -> bool {
        &&& self.fetch_missing_custom_data
        &&& !window_is_stored
        &&& !self.known_empty(window_start, window_end)
        &&& source_is_full_history == Some(true) ==> !self.custom_history_fetched
    }

    /// Decides whether the source is asked. `matching_rows` is how many stored
    /// rows of the window the query selects, and `window_rows` how many there are
    /// at all: a query that selects none of them is no reason to fetch.
    pub fn should_fetch_custom(
        &self,
        matching_rows: usize,
        window_rows: usize,
        source_is_full_history: Option<bool>,
        window_start: Date,
        window_end: Date,
    ) -> (res: bool)
        requires
            window_end.days < MAX_DATE_DAYS,
        ensures
            res == self.fetches_custom(
                matching_rows > 0 || window_rows > 0,
                source_is_full_history,
                window_start,
                window_end,
            ),
    {
        let cache_has_window_data = matching_rows > 0 || window_rows > 0;
        let is_full_history = match source_is_full_history {
            Some(full) => full,
            None => false,
        };
        let mut probe_date = window_start;
        let mut window_dates_empty = has_date(&self.custom_empty_dates, probe_date);
        while window_dates_empty && probe_date.days < window_end.days
            invariant
                window_start.days <= probe_date.days,
                probe_date.days <= window_end.days || probe_date == window_start,
                window_dates_empty ==> self.custom_empty_dates@.contains(window_start),
                window_dates_empty ==> forall|d: Date|
                    window_start.days <= d.days <= probe_date.days
                        ==> #[trigger] self.custom_empty_dates@.contains(d),
                !window_dates_empty ==> !self.custom_empty_dates@.contains(probe_date),
            decreases window_end.days - probe_date.days,
        {
            probe_date = Date { days: probe_date.days + 1 };
            window_dates_empty = has_date(&self.custom_empty_dates, probe_date);
        }
        self.fetch_missing_custom_data && if is_full_history {
            !cache_has_window_data && !self.custom_history_fetched && !window_dates_empty
        } else {
            !cache_has_window_data && !window_dates_empty
        }
    }

    /// Plans the fetch of a window. A source of whole series is asked once, for
    /// the dates of the query or else of the run; any other source is asked day
    /// by day.
    pub fn plan_custom_fetch(
        &self,
        source_is_full_history: Option<bool>,
        query: &CustomDataQuery,
        window_start: Date,
        window_end: Date,
    ) -> (res: CustomFetchPlan)
        requires
            window_end.days < MAX_DATE_DAYS,
        ensures
            match source_is_full_history {
                None => res is Nothing,
                Some(true) => if self.custom_history_fetched {
                    res is Nothing
                } else {
                    res == (CustomFetchPlan::FullHistory {
                        start_date: match query.start_date {
                            Some(date) => date,
                            None => self.start.date(),
                        },
                        end_date: match query.end_date {
                            Some(date) => date,
                            None => self.end.date(),
                        },
                    })
                },
                Some(false) => {
                    &&& res is PerDay
                    &&& res->PerDay_0@.len() == (if window_end.days >= window_start.days {
                        window_end.days - window_start.days + 1
                    } else {
                        0
                    })
                    &&& forall|i: int|
                        0 <= i < res->PerDay_0@.len() ==> (#[trigger] res->PerDay_0@[i]).days
                            == window_start.days + i
                },
            },
    {
        let is_full_history = match source_is_full_history {
            Some(full) => full,
            None => {
                return CustomFetchPlan::Nothing;
            },
        };
        if is_full_history {
            if self.custom_history_fetched {
                return CustomFetchPlan::Nothing;
            }
            let start_date = match query.start_date {
                Some(date) => date,
                None => self.start.date_utc(),
            };
            let end_date = match query.end_date {
                Some(date) => date,
                None => self.end.date_utc(),
            };
            return CustomFetchPlan::FullHistory { start_date, end_date };
        }
        let mut days: Vec<Date> = Vec::new();
        let mut date = window_start;
        while date.days <= window_end.days
            invariant
                window_start.days <= date.days,
                date.days <= window_end.days + 1 || date == window_start,
                window_end.days < MAX_DATE_DAYS,
                days@.len() == date.days - window_start.days,
                forall|i: int|
                    0 <= i < days@.len() ==> (#[trigger] days@[i]).days == window_start.days + i,
            decreases window_end.days + 1 - date.days,
        {
            days.push(date);
            date = Date { days: date.days + 1 };
        }
        CustomFetchPlan::PerDay(days)
    }

    /// Takes in a whole series: it counts as fetched once it has any row, and
    /// the rows dated within the run are to be stored.
    pub fn accept_full_history(&mut self, points: Vec<CustomDataPoint>) -> (res: Vec<
        CustomDataPoint,
    >)
        ensures
            *final(self) == (SubscriptionProducerState {
                custom_history_fetched: old(self).custom_history_fetched || points@.len() > 0,
                ..*old(self)
            }),
            res@ == points@.filter(
                |point: CustomDataPoint|
                    old(self).start.day() <= point.time.days <= old(self).end.day(),
            ),
    {
        if points.len() > 0 {
            self.custom_history_fetched = true;
        }
        let first = self.start.date_utc();
        let last = self.end.date_utc();
        let mut out: Vec<CustomDataPoint> = Vec::new();
        let ghost all = points@;
        let ghost keep = |point: CustomDataPoint|
            old(self).start.day() <= point.time.days <= old(self).end.day();
        proof {
            reveal(Seq::filter);
        }
        for point in it: points
            invariant
                it.seq() == all,
                keep == |point: CustomDataPoint|
                    old(self).start.day() <= point.time.days <= old(self).end.day(),
                first.days == old(self).start.day(),
                last.days == old(self).end.day(),
                out@ =~= all.take(it.index() as int).filter(keep),
        {
            proof {
                reveal(Seq::filter);
                assert(all.take(it.index() + 1).drop_last() =~= all.take(it.index() as int));
                assert(all.take(it.index() + 1).last() == point);
            }
            if point.time.days >= first.days && point.time.days <= last.days {
                out.push(point);
            }
        }
        assert(all.take(all.len() as int) =~= all);
        out
    }

    /// Goes on after a fetch. Rows of a source of whole series are read back
    /// from the store, rows of any other are used as they came. Where a source
    /// asked day by day has no rows, or there is no source, the days are noted as
    /// empty.
    pub fn after_custom_fetch(
        &mut self,
        outcome: CustomFetchOutcome,
        source_is_full_history: Option<bool>,
        window_start: Date,
        window_end: Date,
    ) -> (res: CustomPointSource)
        requires
            window_end.days < MAX_DATE_DAYS,
        ensures
            res == (if outcome == CustomFetchOutcome::Rows {
                if source_is_full_history == Some(true) {
                    CustomPointSource::Rescan
                } else {
                    CustomPointSource::Fetched
                }
            } else {
                CustomPointSource::Scanned
            }),
            *final(self) == (SubscriptionProducerState {
                custom_empty_dates: final(self).custom_empty_dates,
                ..*old(self)
            }),
            if outcome == CustomFetchOutcome::NoRows && source_is_full_history != Some(true) {
                forall|d: Date| #[trigger]
                    final(self).custom_empty_dates@.contains(d) <==> (old(self).custom_empty_dates@.contains(d) || d == window_start || window_start.days
                        <= d.days <= window_end.days)
            } else {
                final(self).custom_empty_dates == old(self).custom_empty_dates
            },
            custom_fetched(
                *old(self),
                outcome,
                source_is_full_history,
                window_start,
                window_end,
                *final(self),
                res,
            ),
    {
        let is_full_history = match source_is_full_history {
            Some(full) => full,
            None => false,
        };
        match outcome {
            CustomFetchOutcome::Rows => if is_full_history {
                CustomPointSource::Rescan
            } else {
                CustomPointSource::Fetched
            },
            CustomFetchOutcome::NoRows => {
                if !is_full_history {
                    self.note_empty_dates(window_start, window_end);
                }
                CustomPointSource::Scanned
            },
            CustomFetchOutcome::Failed => CustomPointSource::Scanned,
        }
    }

    /// Notes one date as being without rows.
    fn note_empty_date(&mut self, date: Date)
        ensures
            *final(self) == (SubscriptionProducerState {
                custom_empty_dates: final(self).custom_empty_dates,
                ..*old(self)
            }),
            forall|d: Date| #[trigger]
                final(self).custom_empty_dates@.contains(d) <==> (old(self).custom_empty_dates@.contains(d) || d == date),
    {
        if !has_date(&self.custom_empty_dates, date) {
            proof {
                crate::subscription_reader::coverage::lemma_push_contains(
                    self.custom_empty_dates@,
                    date,
                );
            }
            self.custom_empty_dates.push(date);
        }
    }

    fn note_empty_dates(&mut self, window_start: Date, window_end: Date)
        requires
            window_end.days < MAX_DATE_DAYS,
        ensures
            *final(self) == (SubscriptionProducerState {
                custom_empty_dates: final(self).custom_empty_dates,
                ..*old(self)
            }),
            forall|d: Date| #[trigger]
                final(self).custom_empty_dates@.contains(d) <==> (old(self).custom_empty_dates@.contains(d) || d == window_start || window_start.days
                    <= d.days <= window_end.days),
    {
        let mut date = window_start;
        self.note_empty_date(date);
        while date.days < window_end.days
            invariant
                window_start.days <= date.days,
                date.days <= window_end.days || date == window_start,
                *self == (SubscriptionProducerState {
                    custom_empty_dates: self.custom_empty_dates,
                    ..*old(self)
                }),
                forall|d: Date| #[trigger]
                    self.custom_empty_dates@.contains(d) <==> (old(self).custom_empty_dates@.contains(d) || window_start.days <= d.days <= date.days),
            decreases window_end.days - date.days,
        {
            date = Date { days: date.days + 1 };
            self.note_empty_date(date);
        }
    }

    /// The point that a custom row becomes.
    pub open spec fn custom_point(&self, point: CustomDataPoint) -> SubscriptionDataPoint {
        SubscriptionDataPoint::CustomData {
            symbol: self.config.symbol,
            ticker: self.config.custom->Some_0.ticker,
            point,
        }
    }

    /// Whether a custom row is delivered: it passes the query and becomes known
    /// within the run.
    pub open spec fn delivers_custom(
        &self,
        candidate: CustomCandidate,
        query: CustomDataQuery,
    ) -> bool {
        &&& matches_query(candidate.point, query, candidate.bounds@)
        &&& self.start.ns <= self.custom_point(candidate.point).frontier().ns <= self.end.ns
    }

    /// The points that custom rows become.
    pub open spec fn custom_points(
        &self,
        candidates: Seq<CustomCandidate>,
        query: CustomDataQuery,
    ) -> Seq<SubscriptionDataPoint> {
        candidates.filter(
            |candidate: CustomCandidate| self.delivers_custom(candidate, query),
        ).map_values(|candidate: CustomCandidate| self.custom_point(candidate.point))
    }

    /// Completes a custom partition from the rows at hand.
    pub fn finish_custom_partition(
        &self,
        candidates: Vec<CustomCandidate>,
        query: &CustomDataQuery,
        window_end: Date,
    ) -> (res: LoadedPartition)
        requires
            self.config.custom is Some,
            self.end.day() <= MAX_FEED_DAYS,
            forall|i: int|
                0 <= i < candidates@.len() ==> (#[trigger] candidates@[i]).point.fields.wf()
                    && self.custom_point(candidates@[i].point).wf(),
        ensures
            res.through_date == window_end,
            res.points@ == self.custom_points(candidates@, *query),
            all_wf(res.points@),
            forall|i: int|
                0 <= i < res.points@.len() ==> on_readable_day(#[trigger] res.points@[i]),
    {
        let mut out: Vec<SubscriptionDataPoint> = Vec::new();
        let ghost all = candidates@;
        let ghost keep = |candidate: CustomCandidate| self.delivers_custom(candidate, *query);
        let ghost wrap = |candidate: CustomCandidate| self.custom_point(candidate.point);
        proof {
            reveal(Seq::filter);
        }
        if let Some(custom) = &self.config.custom {
            for candidate in it: candidates
                invariant
                    it.seq() == all,
                    self.config.custom == Some(*custom),
                    self.end.day() <= MAX_FEED_DAYS,
                    forall|i: int|
                        0 <= i < all.len() ==> (#[trigger] all[i]).point.fields.wf()
                            && self.custom_point(all[i].point).wf(),
                    keep == |candidate: CustomCandidate| self.delivers_custom(candidate, *query),
                    wrap == |candidate: CustomCandidate| self.custom_point(candidate.point),
                    out@ =~= all.take(it.index() as int).filter(keep).map_values(wrap),
                    all_wf(out@),
                    forall|i: int| 0 <= i < out@.len() ==> on_readable_day(#[trigger] out@[i]),
            {
                proof {
                    reveal(Seq::filter);
                    assert(all[it.index() as int] == candidate);
                    assert(all.take(it.index() + 1).drop_last() =~= all.take(it.index() as int));
                    assert(all.take(it.index() + 1).last() == candidate);
                }
                let matches = custom_point_matches_query(
                    &candidate.point,
                    query,
                    &candidate.bounds,
                );
                let point = SubscriptionDataPoint::CustomData {
                    symbol: self.config.symbol.duplicate(),
                    ticker: custom.ticker.clone(),
                    point: candidate.point,
                };
                let time = point.frontier_time();
                if matches && time.ns >= self.start.ns && time.ns <= self.end.ns {
                    proof {
                        lemma_day_monotonic(time, self.end);
                    }
                    out.push(point);
                }
            }
        }
        assert(all.take(all.len() as int) =~= all);
        LoadedPartition { points: out, through_date: window_end }
    }
}

/// A row passes a query only if every part of it holds. It is of one of the symbols
/// where there are any, each field that is to equal a text holds that text, each
/// field that is to be among some texts holds one of them, and each bounded field is
/// a number within its bound. A query that asks for nothing lets every row pass.
pub proof fn law_every_part_of_a_query_counts(
    point: CustomDataPoint,
    query: CustomDataQuery,
    bounds: Seq<BoundOutcome>,
    i: int,
)
    ensures
        matches_query(point, query, bounds) ==> {
            &&& query.symbols matches Some(symbols) ==> (text_field(point, "usymbol"@) matches Some(
                symbol,
            ) && exists|k: int|
                0 <= k < symbols@.len() && same_ignoring_case((#[trigger] symbols@[k])@, symbol))
            &&& 0 <= i < query.string_equals.entries@.len() ==> text_field(
                point,
                query.string_equals.entries@[i].0@,
            ) == Some(query.string_equals.entries@[i].1@)
            &&& 0 <= i < query.string_in.entries@.len() ==> (text_field(
                point,
                query.string_in.entries@[i].0@,
            ) matches Some(text) && exists|k: int|
                0 <= k < query.string_in.entries@[i].1@.len()
                    && (#[trigger] query.string_in.entries@[i].1@[k])@ == text)
            &&& 0 <= i < bounds.len() ==> bounds[i].within == Some(true)
                && point.fields@.dom().contains(bounds[i].field@)
        },
        query.symbols is None && query.string_equals.entries@.len() == 0
            && query.string_in.entries@.len() == 0 && bounds.len() == 0 ==> matches_query(
            point,
            query,
            bounds,
        ),
        query.symbols matches Some(symbols) && symbols@.len() == 0 ==> !matches_query(
            point,
            query,
            bounds,
        ),
{
    if matches_query(point, query, bounds) && 0 <= i < query.string_in.entries@.len() {
        let list = query.string_in.entries@[i].1@;
        let text = text_field(point, query.string_in.entries@[i].0@)->Some_0;
        assert(texts(list).contains(text));
        let k = choose|k: int| 0 <= k < texts(list).len() && texts(list)[k] == text;
        assert(list[k]@ == text);
    }
}

/// Symbols are compared whatever their case, and a field counts as text only where it
/// is text.
pub proof fn law_text_fields(point: CustomDataPoint, name: Seq<char>)
    ensures
        text_field(point, name) matches Some(text) ==> point.fields@.dom().contains(name) && (
        point.fields@[name] matches FieldValue::Text(held) && held@ == text),
        point.fields@.dom().contains(name) && point.fields@[name] is Text ==> text_field(point, name)
            is Some,
{
}

/// Whether a custom row is delivered depends on the row alone: it passes the query
/// and becomes known within the run, from its start to its end. What is delivered is
/// the row itself, of the subscribed symbol and ticker.
pub proof fn law_custom_rows_are_delivered_within_the_run(
    state: SubscriptionProducerState,
    candidate: CustomCandidate,
    query: CustomDataQuery,
)
    requires
        state.config.custom is Some,
    ensures
        state.delivers_custom(candidate, query) ==> matches_query(
            candidate.point,
            query,
            candidate.bounds@,
        ) && (candidate.point.end_time matches Some(end) ==> state.start.ns <= end.ns
            <= state.end.ns),
        matches_query(candidate.point, query, candidate.bounds@) && (
        candidate.point.end_time matches Some(end) && state.start.ns <= end.ns <= state.end.ns)
            ==> state.delivers_custom(candidate, query),
        state.custom_point(candidate.point) matches SubscriptionDataPoint::CustomData {
            symbol,
            ticker,
            point,
        } && symbol == state.config.symbol && ticker == state.config.custom->Some_0.ticker && point
            == candidate.point,
{
}

/// Rows are delivered one by one and in their order.
pub proof fn law_custom_rows_are_read_one_by_one(
    state: SubscriptionProducerState,
    candidates: Seq<CustomCandidate>,
    candidate: CustomCandidate,
    query: CustomDataQuery,
)
    ensures
        state.custom_points(candidates.push(candidate), query) == (if state.delivers_custom(
            candidate,
            query,
        ) {
            state.custom_points(candidates, query).push(state.custom_point(candidate.point))
        } else {
            state.custom_points(candidates, query)
        }),
{
    reveal(Seq::filter);
    let all = candidates.push(candidate);
    assert(all.drop_last() =~= candidates);
    assert(all.last() == candidate);
    if state.delivers_custom(candidate, query) {
        assert(state.custom_points(all, query) =~= state.custom_points(candidates, query).push(
            state.custom_point(candidate.point),
        ));
    }
}

/// A source is asked only where that is allowed and can bring something: never for a
/// window of which the store holds rows, nor for one all of whose days are known to
/// be empty, nor again for a whole series that was delivered. Otherwise it is asked.
pub proof fn law_sources_are_asked_when_rows_are_missing(
    state: SubscriptionProducerState,
    stored: bool,
    full: Option<bool>,
    window_start: Date,
    window_end: Date,
)
    ensures
        stored ==> !state.fetches_custom(stored, full, window_start, window_end),
        !state.fetch_missing_custom_data ==> !state.fetches_custom(
            stored,
            full,
            window_start,
            window_end,
        ),
        full == Some(true) && state.custom_history_fetched ==> !state.fetches_custom(
            stored,
            full,
            window_start,
            window_end,
        ),
        (forall|d: Date|
            window_start.days <= d.days <= window_end.days
                ==> #[trigger] state.custom_empty_dates@.contains(d)) && window_start.days
            <= window_end.days ==> !state.fetches_custom(stored, full, window_start, window_end),
        state.fetch_missing_custom_data && !stored && !state.custom_empty_dates@.contains(
            window_start,
        ) && !(full == Some(true) && state.custom_history_fetched) ==> state.fetches_custom(
            stored,
            full,
            window_start,
            window_end,
        ),
{
}

/// Daily custom rows are read day by day, all others window by window.
pub proof fn law_custom_windows(state: SubscriptionProducerState)
    ensures
        state.config.resolution == Resolution::Daily ==> state.custom_window().0
            == state.partition_date && state.custom_window().1 == state.partition_date,
        state.config.resolution != Resolution::Daily ==> state.custom_window() == state.window(),
{
}

/// The column that is named comes first, those of the list follow in their order, and
/// only where neither names any the usual ones are looked for, `value` first.
pub proof fn law_named_columns_come_first(properties: NameMap<String>)
    ensures
        properties@.dom().contains("value_column"@) ==> value_columns(properties).len() > 0
            && value_columns(properties)[0] == properties@["value_column"@]@,
        !properties@.dom().contains("value_column"@) && !properties@.dom().contains(
            "value_columns"@,
        ) ==> value_columns(properties).len() == 6 && value_columns(properties)[0] == "value"@
            && value_columns(properties)[1] == "close"@ && value_columns(properties)[5] == "size"@,
        value_columns(properties).len() > 0,
        properties@.dom().contains("value_column"@) && !properties@.dom().contains(
            "value_columns"@,
        ) ==> value_columns(properties).len() == 1,
{
}

/// A row for which every part of a query holds passes it.
pub proof fn law_rows_that_pass_a_query(
    point: CustomDataPoint,
    query: CustomDataQuery,
    bounds: Seq<BoundOutcome>,
)
    requires
        query.symbols matches Some(symbols) ==> exists|k: int|
            0 <= k < symbols@.len() && (text_field(point, "usymbol"@) matches Some(symbol)
                && same_ignoring_case((#[trigger] symbols@[k])@, symbol)),
        forall|i: int|
            0 <= i < query.string_equals.entries@.len() ==> text_field(
                point,
                (#[trigger] query.string_equals.entries@[i]).0@,
            ) == Some(query.string_equals.entries@[i].1@),
        forall|i: int|
            0 <= i < query.string_in.entries@.len() ==> (text_field(
                point,
                (#[trigger] query.string_in.entries@[i]).0@,
            ) matches Some(text) && texts(query.string_in.entries@[i].1@).contains(text)),
        forall|i: int|
            0 <= i < bounds.len() ==> (#[trigger] bounds[i]).within == Some(true)
                && point.fields@.dom().contains(bounds[i].field@),
    ensures
        matches_query(point, query, bounds),
{
}

/// A window is known to be empty only if each of its days is.
pub proof fn law_known_empty_windows(
    state: SubscriptionProducerState,
    window_start: Date,
    window_end: Date,
    date: Date,
)
    ensures
        state.known_empty(window_start, window_end) && window_start.days <= date.days
            <= window_end.days ==> state.custom_empty_dates@.contains(date),
        state.custom_empty_dates@.len() == 0 ==> !state.known_empty(window_start, window_end),
{
}

/// A market opens in a window if it does on one of its days.
pub proof fn law_markets_open_in_a_window(
    hours: ExchangeHours,
    window_start: Date,
    window_end: Date,
    date: Date,
)
    ensures
        window_start.days <= date.days <= window_end.days && hours.opens_on(date)
            ==> opens_in_window(hours, window_start, window_end),
        hours.open_dates@.len() == 0 ==> !opens_in_window(hours, window_start, window_end),
{
}

/// Columns of a list are named without white space around them, and none is without a name.
pub proof fn law_listed_columns_have_names(list: Seq<char>, k: int)
    requires
        0 <= k < listed_columns(list).len(),
    ensures
        listed_columns(list)[k].len() > 0,
        listed_columns(list).len() <= pieces(list, ',').len(),
        exists|i: int|
            0 <= i < pieces(list, ',').len() && trimmed(#[trigger] pieces(list, ',')[i])
                == listed_columns(list)[k],
{
    let named = pieces(list, ',').map_values(|piece: Seq<char>| trimmed(piece));
    let keep = |column: Seq<char>| column.len() > 0;
    crate::subscription_reader::coverage::lemma_filter_index(named, keep, k);
    let j = choose|j: int| 0 <= j < named.len() && #[trigger] named[j] == named.filter(keep)[k];
    assert(trimmed(pieces(list, ',')[j]) == listed_columns(list)[k]);
    lemma_filter_is_no_longer(named, keep);
}

proof fn lemma_filter_is_no_longer<T>(s: Seq<T>, keep: spec_fn(T) -> bool)
    ensures
        s.filter(keep).len() <= s.len(),
    decreases s.len(),
{
    reveal(Seq::filter);
    if s.len() > 0 {
        lemma_filter_is_no_longer(s.drop_last(), keep);
    }
}

/// What follows from a fetch of custom rows.
pub open spec fn custom_fetched(
    before: SubscriptionProducerState,
    outcome: CustomFetchOutcome,
    full_history: Option<bool>,
    window_start: Date,
    window_end: Date,
    after: SubscriptionProducerState,
    source: CustomPointSource,
) -> bool {
    &&& match outcome {
        CustomFetchOutcome::Rows => if full_history == Some(true) {
            source == CustomPointSource::Rescan
        } else {
            source == CustomPointSource::Fetched
        },
        _ => source == CustomPointSource::Scanned,
    }
    &&& if outcome == CustomFetchOutcome::NoRows && full_history != Some(true) {
        forall|d: Date| #[trigger]
            after.custom_empty_dates@.contains(d) <==> (before.custom_empty_dates@.contains(d) || d
                == window_start || window_start.days <= d.days <= window_end.days)
    } else {
        after.custom_empty_dates == before.custom_empty_dates
    }
}

/// Fetched rows are used; without any, what was stored is. A day is noted as empty only where
/// its source was asked for it and had nothing: a fetch that failed marks no day, so that it
/// is asked for again, and a day once noted stays noted.
pub proof fn law_failed_fetches_mark_no_day(
    before: SubscriptionProducerState,
    outcome: CustomFetchOutcome,
    full_history: Option<bool>,
    window_start: Date,
    window_end: Date,
    after: SubscriptionProducerState,
    source: CustomPointSource,
    day: Date,
)
    requires
        custom_fetched(before, outcome, full_history, window_start, window_end, after, source),
        window_start.days <= window_end.days,
    ensures
        source == CustomPointSource::Scanned <==> outcome != CustomFetchOutcome::Rows,
        source == CustomPointSource::Rescan ==> full_history == Some(true),
        outcome == CustomFetchOutcome::Failed || outcome == CustomFetchOutcome::Rows
            ==> after.custom_empty_dates@ == before.custom_empty_dates@,
        before.custom_empty_dates@.contains(day) ==> after.custom_empty_dates@.contains(day),
        after.custom_empty_dates@.contains(day) && !before.custom_empty_dates@.contains(day)
            ==> outcome == CustomFetchOutcome::NoRows && window_start.days <= day.days
            <= window_end.days,
        outcome == CustomFetchOutcome::NoRows && full_history is None && window_start.days
            <= day.days <= window_end.days ==> after.custom_empty_dates@.contains(day),
{
}

} // verus!
