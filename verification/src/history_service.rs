//! History requests of an algorithm: their windows and what they return.

use crate::decimal::Decimal;
use crate::model::{
    CustomDataPoint, DataNormalizationMode, DataType, HistoryRequest, Resolution,
    SubscriptionDataConfig, Symbol, TickType, TradeBar,
};
use crate::name_map::NameMap;
use crate::sorting::{
    last_rows, lemma_last_sorted_row, sort_rows, sorted, take_last, SortBy, Sortable,
};
use crate::subscription_reader::window::{partition_day_end, partition_day_start};
use crate::text::texts;
use crate::time::{clock_ns, date_text, timestamp_text, Date, DateTime, NANOS_PER_DAY};
use vstd::prelude::*;
use vstd::string::*;

verus! {

/// Most days that a span of days may count.
pub const MAX_SPAN_DAYS: i64 = 106_751_991_167;

/// Days that a search for a last known price reaches back.
pub open spec fn lookback_days(resolution: Resolution) -> int {
    match resolution {
        Resolution::Hour => 14,
        Resolution::Daily => 31,
        _ => 7,
    }
}

pub fn last_known_lookback_days(resolution: Resolution) -> (res: i64)
    ensures
        res == lookback_days(resolution),
{
    match resolution {
        Resolution::Tick | Resolution::Second | Resolution::Minute => 7,
        Resolution::Hour => 14,
        Resolution::Daily => 31,
    }
}

/// The instant as of which history is asked: the time of the algorithm, or its
/// start date while its clock has not started.
pub fn history_end(utc_time: DateTime, start_date: DateTime) -> (res: DateTime)
    ensures
        res == (if utc_time.ns == 0 {
            start_date
        } else {
            utc_time
        }),
{
    if utc_time.ns == 0 {
        start_date
    } else {
        utc_time
    }
}

/// `x` held to the largest `usize`.
pub open spec fn saturate_usize(x: int) -> int {
    if x > usize::MAX {
        usize::MAX as int
    } else {
        x
    }
}

/// Calendar days in which a number of bars surely lies.
pub open spec fn calendar_days(periods: int, resolution: Resolution) -> int {
    match resolution {
        Resolution::Daily => saturate_usize(saturate_usize(periods * 3) + 31),
        Resolution::Hour => saturate_usize(periods / 6 + 14),
        _ => saturate_usize(periods / 390 + 7),
    }
}

/// A number of days as a signed 64-bit number, which wraps round.
pub open spec fn signed_days(days: int) -> int {
    if days > i64::MAX {
        days - 0x1_0000_0000_0000_0000
    } else {
        days
    }
}

/// Whether a number of days is a span that can be counted back.
pub open spec fn days_are_span(days: int) -> bool {
    -MAX_SPAN_DAYS <= signed_days(days) <= MAX_SPAN_DAYS
}

/// Start of a request for a number of bars.
pub open spec fn count_start(end: DateTime, periods: int, resolution: Resolution) -> int {
    let days = signed_days(calendar_days(periods, resolution));
    let span = if i64::MIN <= days * NANOS_PER_DAY <= i64::MAX {
        days * NANOS_PER_DAY
    } else {
        i64::MAX as int
    };
    if end.ns - span < i64::MIN {
        i64::MIN as int
    } else if end.ns - span > i64::MAX {
        i64::MAX as int
    } else {
        end.ns - span
    }
}

pub fn history_count_start(end: DateTime, periods: usize, resolution: Resolution) -> (res: DateTime)
    requires
        days_are_span(calendar_days(periods as int, resolution)),
    ensures
        res.ns == count_start(end, periods as int, resolution),
{
    let days: u128 = match resolution {
        Resolution::Daily => {
            let tripled: u128 = saturated(periods as u128 * 3);
            saturated(tripled + 31)
        },
        Resolution::Hour => saturated(periods as u128 / 6 + 14),
        Resolution::Minute | Resolution::Second | Resolution::Tick => saturated(
            periods as u128 / 390 + 7,
        ),
    };
    let signed: i128 = if days > i64::MAX as u128 {
        days as i128 - 0x1_0000_0000_0000_0000
    } else {
        days as i128
    };
    let span: i128 = signed * NANOS_PER_DAY as i128;
    let capped: i128 = if i64::MIN as i128 <= span && span <= i64::MAX as i128 {
        span
    } else {
        i64::MAX as i128
    };
    let start: i128 = end.ns as i128 - capped;
    if start < i64::MIN as i128 {
        DateTime { ns: i64::MIN }
    } else if start > i64::MAX as i128 {
        DateTime { ns: i64::MAX }
    } else {
        DateTime { ns: start as i64 }
    }
}

fn saturated(x: u128) -> (res: u128)
    ensures
        res == saturate_usize(x as int),
{
    if x > usize::MAX as u128 {
        usize::MAX as u128
    } else {
        x
    }
}

/// Start of the search for the last known price: midnight, the lookback of the
/// resolution before the date of the request.
pub fn last_known_start(as_of: DateTime, resolution: Resolution) -> (res: DateTime)
    requires
        as_of.day() - 31 >= crate::time::MIN_CLOCK_DAYS,
        as_of.day() <= crate::time::MAX_CLOCK_DAYS,
    ensures
        res.ns == clock_ns(as_of.day() - lookback_days(resolution), 0),
{
    let days: i32 = as_of.date_utc().days - last_known_lookback_days(resolution) as i32;
    DateTime::at(Date { days }, 0)
}

/// Whether a bar can be the last known one: it has a price and has ended.
pub open spec fn is_known(bar: TradeBar, as_of: DateTime) -> bool {
    bar.close.mantissa > 0 && bar.end_time.ns <= as_of.ns
}

/// The last known bar among some: at most one, the latest that has a price and
/// has ended.
pub fn select_last_known(bars: Vec<TradeBar>, as_of: DateTime) -> (res: Vec<TradeBar>)
    ensures
        res@ == last_rows(
            sorted(bars@.filter(|bar: TradeBar| is_known(bar, as_of)), SortBy::End),
            1,
        ),
{
    let mut known: Vec<TradeBar> = Vec::new();
    let ghost all = bars@;
    let ghost keep = |bar: TradeBar| is_known(bar, as_of);
    proof {
        reveal(Seq::filter);
    }
    for bar in it: bars
        invariant
            it.seq() == all,
            keep == |bar: TradeBar| is_known(bar, as_of),
            known@ =~= all.take(it.index() as int).filter(keep),
    {
        proof {
            reveal(Seq::filter);
            assert(all.take(it.index() + 1).drop_last() =~= all.take(it.index() as int));
            assert(all.take(it.index() + 1).last() == bar);
        }
        if bar.close.is_positive() && bar.end_time.ns <= as_of.ns {
            known.push(bar);
        }
    }
    assert(all.take(all.len() as int) =~= all);
    let ordered = sort_rows(known, SortBy::End);
    take_last(ordered, 1)
}

/// The last `periods` rows in order of their ends.
pub fn select_history<T: Sortable>(rows: Vec<T>, periods: usize) -> (res: Vec<T>)
    ensures
        res@ == last_rows(sorted(rows@, SortBy::End), periods as int),
{
    let ordered = sort_rows(rows, SortBy::End);
    take_last(ordered, periods)
}

/// Position of the first subscription that satisfies a condition on resolution
/// and tick type; the length if there is none.
pub open spec fn first_match(
    configs: Seq<SubscriptionDataConfig>,
    resolution: Option<Resolution>,
    trades_only: bool,
) -> int
    decreases configs.len(),
{
    if configs.len() == 0 || ((resolution matches Some(r) ==> configs[0].resolution == r) && (
    trades_only ==> configs[0].tick_type == TickType::Trade)) {
        0
    } else {
        1 + first_match(configs.skip(1), resolution, trades_only)
    }
}

fn find_match(
    configs: &Vec<SubscriptionDataConfig>,
    resolution: Option<Resolution>,
    trades_only: bool,
) -> (res: Option<DataNormalizationMode>)
    ensures
        ({
            let i = first_match(configs@, resolution, trades_only);
            match res {
                Some(mode) => 0 <= i < configs@.len() && mode == configs@[i].normalization_mode,
                None => i == configs@.len(),
            }
        }),
{
    let mut i: usize = 0;
    assert(configs@.skip(0) =~= configs@);
    while i < configs.len()
        invariant
            i <= configs@.len(),
            first_match(configs@, resolution, trades_only) == i + first_match(
                configs@.skip(i as int),
                resolution,
                trades_only,
            ),
        decreases configs.len() - i,
    {
        assert(configs@.skip(i as int)[0] == configs@[i as int]);
        assert(configs@.skip(i as int).skip(1) =~= configs@.skip(i + 1));
        let resolution_fits = match resolution {
            Some(wanted) => configs[i].resolution == wanted,
            None => true,
        };
        if resolution_fits && (!trades_only || configs[i].tick_type == TickType::Trade) {
            return Some(configs[i].normalization_mode);
        }
        i = i + 1;
    }
    None
}

/// The normalization of a history request: that of a trade subscription at its
/// resolution, else of any subscription at it, else of a trade subscription,
/// else of the first subscription, else the fallback.
pub open spec fn matching_mode(
    configs: Seq<SubscriptionDataConfig>,
    resolution: Option<Resolution>,
    fallback: DataNormalizationMode,
) -> DataNormalizationMode {
    let n = configs.len();
    let exact = first_match(configs, resolution, true);
    let same = first_match(configs, resolution, false);
    let trade = first_match(configs, None, true);
    if resolution is Some && exact < n {
        configs[exact].normalization_mode
    } else if resolution is Some && same < n {
        configs[same].normalization_mode
    } else if trade < n {
        configs[trade].normalization_mode
    } else if n > 0 {
        configs[0].normalization_mode
    } else {
        fallback
    }
}

pub fn matching_normalization_mode(
    configs: &Vec<SubscriptionDataConfig>,
    resolution: Option<Resolution>,
    fallback: DataNormalizationMode,
) -> (res: DataNormalizationMode)
    ensures
        res == matching_mode(configs@, resolution, fallback),
{
    if resolution.is_some() {
        if let Some(mode) = find_match(configs, resolution, true) {
            return mode;
        }
        if let Some(mode) = find_match(configs, resolution, false) {
            return mode;
        }
    }
    if let Some(mode) = find_match(configs, None, true) {
        return mode;
    }
    if configs.len() > 0 {
        return configs[0].normalization_mode;
    }
    fallback
}

/// Whether a table has a column of given texts.
pub open spec fn has_column(
    columns: NameMap<Vec<String>>,
    name: Seq<char>,
    values: Seq<Seq<char>>,
) -> bool {
    columns@.dom().contains(name) && texts(columns@[name]@) == values
}

/// Text of the end of a custom row: its instant, or its date.
pub open spec fn custom_end_text(point: CustomDataPoint) -> Seq<char> {
    match point.end_time {
        Some(time) => timestamp_text(time.ns as int),
        None => date_text(point.time.days as int),
    }
}

proof fn lemma_column<T>(
    rows: Seq<T>,
    i: int,
    f: spec_fn(T) -> Seq<char>,
    column: Seq<String>,
    text: String,
)
    requires
        0 <= i < rows.len(),
        texts(column) == rows.take(i).map_values(f),
        text@ == f(rows[i]),
    ensures
        texts(column.push(text)) == rows.take(i + 1).map_values(f),
{
    assert(texts(column.push(text)) =~= texts(column).push(text@));
    assert(rows.take(i + 1).map_values(f) =~= rows.take(i).map_values(f).push(f(rows[i])));
}

/// Whether a table holds exactly the columns of some trade bars.
pub open spec fn are_bar_columns(columns: NameMap<Vec<String>>, bars: Seq<TradeBar>) -> bool {
    &&& columns.wf()
    &&& columns@.dom() == set![
        "time"@,
        "end_time"@,
        "open"@,
        "high"@,
        "low"@,
        "close"@,
        "volume"@,
    ]
    &&& has_column(
        columns,
        "time"@,
        bars.map_values(|bar: TradeBar| timestamp_text(bar.time.ns as int)),
    )
    &&& has_column(
        columns,
        "end_time"@,
        bars.map_values(|bar: TradeBar| timestamp_text(bar.end_time.ns as int)),
    )
    &&& has_column(columns, "open"@, bars.map_values(|bar: TradeBar| bar.open.digits()))
    &&& has_column(columns, "high"@, bars.map_values(|bar: TradeBar| bar.high.digits()))
    &&& has_column(columns, "low"@, bars.map_values(|bar: TradeBar| bar.low.digits()))
    &&& has_column(columns, "close"@, bars.map_values(|bar: TradeBar| bar.close.digits()))
    &&& has_column(columns, "volume"@, bars.map_values(|bar: TradeBar| bar.volume.digits()))
}

/// Whether the numbers of a bar are decimals.
pub open spec fn bar_numbers_wf(bar: TradeBar) -> bool {
    bar.open.wf() && bar.high.wf() && bar.low.wf() && bar.close.wf() && bar.volume.wf()
}

/// Columns of trade bars.
pub fn trade_bars_to_columns(bars: &Vec<TradeBar>) -> (res: NameMap<Vec<String>>)
    requires
        forall|i: int|
            0 <= i < bars@.len() ==> bar_numbers_wf(#[trigger] bars@[i]),
    ensures
        are_bar_columns(res, bars@),
{
    let mut time: Vec<String> = Vec::new();
    let mut end_time: Vec<String> = Vec::new();
    let mut open: Vec<String> = Vec::new();
    let mut high: Vec<String> = Vec::new();
    let mut low: Vec<String> = Vec::new();
    let mut close: Vec<String> = Vec::new();
    let mut volume: Vec<String> = Vec::new();
    let ghost f_time = |bar: TradeBar| timestamp_text(bar.time.ns as int);
    let ghost f_end = |bar: TradeBar| timestamp_text(bar.end_time.ns as int);
    let ghost f_open = |bar: TradeBar| bar.open.digits();
    let ghost f_high = |bar: TradeBar| bar.high.digits();
    let ghost f_low = |bar: TradeBar| bar.low.digits();
    let ghost f_close = |bar: TradeBar| bar.close.digits();
    let ghost f_volume = |bar: TradeBar| bar.volume.digits();
    let mut i: usize = 0;
    assert(texts(time@) =~= bars@.take(0).map_values(f_time));
    assert(texts(time@) =~= bars@.take(0).map_values(f_end));
    assert(texts(time@) =~= bars@.take(0).map_values(f_open));
    assert(texts(time@) =~= bars@.take(0).map_values(f_high));
    assert(texts(time@) =~= bars@.take(0).map_values(f_low));
    assert(texts(time@) =~= bars@.take(0).map_values(f_close));
    assert(texts(time@) =~= bars@.take(0).map_values(f_volume));
    while i < bars.len()
        invariant
            i <= bars@.len(),
            forall|k: int|
                0 <= k < bars@.len() ==> bar_numbers_wf(#[trigger] bars@[k]),
            f_time == |bar: TradeBar| timestamp_text(bar.time.ns as int),
            f_end == |bar: TradeBar| timestamp_text(bar.end_time.ns as int),
            f_open == |bar: TradeBar| bar.open.digits(),
            f_high == |bar: TradeBar| bar.high.digits(),
            f_low == |bar: TradeBar| bar.low.digits(),
            f_close == |bar: TradeBar| bar.close.digits(),
            f_volume == |bar: TradeBar| bar.volume.digits(),
            texts(time@) == bars@.take(i as int).map_values(f_time),
            texts(end_time@) == bars@.take(i as int).map_values(f_end),
            texts(open@) == bars@.take(i as int).map_values(f_open),
            texts(high@) == bars@.take(i as int).map_values(f_high),
            texts(low@) == bars@.take(i as int).map_values(f_low),
            texts(close@) == bars@.take(i as int).map_values(f_close),
            texts(volume@) == bars@.take(i as int).map_values(f_volume),
        decreases bars.len() - i,
    {
        let bar = &bars[i];
        assert(bar_numbers_wf(bars@[i as int]));
        let text = bar.time.to_rfc3339();
        proof {
            lemma_column(bars@, i as int, f_time, time@, text);
        }
        time.push(text);
        let text = bar.end_time.to_rfc3339();
        proof {
            lemma_column(bars@, i as int, f_end, end_time@, text);
        }
        end_time.push(text);
        let text = bar.open.to_text();
        proof {
            lemma_column(bars@, i as int, f_open, open@, text);
        }
        open.push(text);
        let text = bar.high.to_text();
        proof {
            lemma_column(bars@, i as int, f_high, high@, text);
        }
        high.push(text);
        let text = bar.low.to_text();
        proof {
            lemma_column(bars@, i as int, f_low, low@, text);
        }
        low.push(text);
        let text = bar.close.to_text();
        proof {
            lemma_column(bars@, i as int, f_close, close@, text);
        }
        close.push(text);
        let text = bar.volume.to_text();
        proof {
            lemma_column(bars@, i as int, f_volume, volume@, text);
        }
        volume.push(text);
        i = i + 1;
    }
    assert(bars@.take(i as int) =~= bars@);
    let mut columns: NameMap<Vec<String>> = NameMap::new();
    columns.insert("time".to_owned(), time);
    columns.insert("end_time".to_owned(), end_time);
    columns.insert("open".to_owned(), open);
    columns.insert("high".to_owned(), high);
    columns.insert("low".to_owned(), low);
    columns.insert("close".to_owned(), close);
    columns.insert("volume".to_owned(), volume);
    proof {
        lemma_bar_columns_differ();
        assert(columns@.dom() =~= set![
            "time"@,
            "end_time"@,
            "open"@,
            "high"@,
            "low"@,
            "close"@,
            "volume"@,
        ]);
    }
    columns
}

proof fn lemma_bar_columns_differ()
    ensures
        "time"@ != "end_time"@,
        "time"@ != "open"@,
        "time"@ != "high"@,
        "time"@ != "low"@,
        "time"@ != "close"@,
        "time"@ != "volume"@,
        "end_time"@ != "open"@,
        "end_time"@ != "high"@,
        "end_time"@ != "low"@,
        "end_time"@ != "close"@,
        "end_time"@ != "volume"@,
        "open"@ != "high"@,
        "open"@ != "low"@,
        "open"@ != "close"@,
        "open"@ != "volume"@,
        "high"@ != "low"@,
        "high"@ != "close"@,
        "high"@ != "volume"@,
        "low"@ != "close"@,
        "low"@ != "volume"@,
        "close"@ != "volume"@,
        "value"@ != "time"@,
        "value"@ != "end_time"@,
{
    reveal_strlit("time");
    reveal_strlit("end_time");
    reveal_strlit("open");
    reveal_strlit("high");
    reveal_strlit("low");
    reveal_strlit("close");
    reveal_strlit("volume");
    reveal_strlit("value");
    assert("time"@.len() == 4 && "time"@[0] == 't');
    assert("open"@.len() == 4 && "open"@[0] == 'o');
    assert("high"@.len() == 4 && "high"@[0] == 'h');
    assert("end_time"@.len() == 8);
    assert("low"@.len() == 3);
    assert("close"@.len() == 5 && "close"@[0] == 'c');
    assert("value"@.len() == 5);
    assert("volume"@.len() == 6);
}

/// Whether a table holds exactly the columns of some custom rows.
pub open spec fn are_custom_columns(
    columns: NameMap<Vec<String>>,
    points: Seq<CustomDataPoint>,
) -> bool {
    &&& columns.wf()
    &&& columns@.dom() == set!["time"@, "end_time"@, "value"@]
    &&& has_column(
        columns,
        "time"@,
        points.map_values(|point: CustomDataPoint| date_text(point.time.days as int)),
    )
    &&& has_column(
        columns,
        "end_time"@,
        points.map_values(|point: CustomDataPoint| custom_end_text(point)),
    )
    &&& has_column(
        columns,
        "value"@,
        points.map_values(|point: CustomDataPoint| point.value.digits()),
    )
}

/// Whether the value of a custom row is a decimal and its date in the calendar.
pub open spec fn custom_numbers_wf(point: CustomDataPoint) -> bool {
    point.value.wf() && point.time.in_calendar()
}

/// Columns of custom rows.
pub fn custom_points_to_columns(points: &Vec<CustomDataPoint>) -> (res: NameMap<Vec<String>>)
    requires
        forall|i: int|
            0 <= i < points@.len() ==> custom_numbers_wf(#[trigger] points@[i]),
    ensures
        are_custom_columns(res, points@),
{
    let mut time: Vec<String> = Vec::new();
    let mut end_time: Vec<String> = Vec::new();
    let mut value: Vec<String> = Vec::new();
    let ghost f_time = |point: CustomDataPoint| date_text(point.time.days as int);
    let ghost f_end = |point: CustomDataPoint| custom_end_text(point);
    let ghost f_value = |point: CustomDataPoint| point.value.digits();
    let mut i: usize = 0;
    assert(texts(time@) =~= points@.take(0).map_values(f_time));
    assert(texts(time@) =~= points@.take(0).map_values(f_end));
    assert(texts(time@) =~= points@.take(0).map_values(f_value));
    while i < points.len()
        invariant
            i <= points@.len(),
            forall|k: int|
                0 <= k < points@.len() ==> custom_numbers_wf(#[trigger] points@[k]),
            f_time == |point: CustomDataPoint| date_text(point.time.days as int),
            f_end == |point: CustomDataPoint| custom_end_text(point),
            f_value == |point: CustomDataPoint| point.value.digits(),
            texts(time@) == points@.take(i as int).map_values(f_time),
            texts(end_time@) == points@.take(i as int).map_values(f_end),
            texts(value@) == points@.take(i as int).map_values(f_value),
        decreases points.len() - i,
    {
        let point = &points[i];
        assert(custom_numbers_wf(points@[i as int]));
        let text = point.time.to_text();
        proof {
            lemma_column(points@, i as int, f_time, time@, text);
        }
        time.push(text);
        let text = match point.end_time {
            Some(instant) => instant.to_rfc3339(),
            None => point.time.to_text(),
        };
        proof {
            lemma_column(points@, i as int, f_end, end_time@, text);
        }
        end_time.push(text);
        let text = point.value.to_text();
        proof {
            lemma_column(points@, i as int, f_value, value@, text);
        }
        value.push(text);
        i = i + 1;
    }
    assert(points@.take(i as int) =~= points@);
    let mut columns: NameMap<Vec<String>> = NameMap::new();
    columns.insert("time".to_owned(), time);
    columns.insert("end_time".to_owned(), end_time);
    columns.insert("value".to_owned(), value);
    proof {
        lemma_bar_columns_differ();
        assert(columns@.dom() =~= set!["time"@, "end_time"@, "value"@]);
    }
    columns
}

/// What a request for a number of bars reads.
pub enum HistoryPlan {
    /// Nothing was asked for.
    Nothing,
    /// The custom rows of the subscription at a position.
    Custom { config: usize, start: DateTime, end: DateTime },
    /// Trade bars under a normalization.
    Bars { request: HistoryRequest, normalization: DataNormalizationMode },
}

/// Position of the first custom subscription; the length if there is none.
pub open spec fn first_custom(configs: Seq<SubscriptionDataConfig>) -> int
    decreases configs.len(),
{
    if configs.len() == 0 || configs[0].custom is Some {
        0
    } else {
        1 + first_custom(configs.skip(1))
    }
}

fn find_custom(configs: &Vec<SubscriptionDataConfig>) -> (res: Option<usize>)
    ensures
        match res {
            Some(i) => i == first_custom(configs@) && i < configs@.len(),
            None => first_custom(configs@) == configs@.len(),
        },
{
    let mut i: usize = 0;
    assert(configs@.skip(0) =~= configs@);
    while i < configs.len()
        invariant
            i <= configs@.len(),
            first_custom(configs@) == i + first_custom(configs@.skip(i as int)),
        decreases configs.len() - i,
    {
        assert(configs@.skip(i as int)[0] == configs@[i as int]);
        assert(configs@.skip(i as int).skip(1) =~= configs@.skip(i + 1));
        if configs[i].custom.is_some() {
            return Some(i);
        }
        i = i + 1;
    }
    None
}

/// Plans a request for the last `periods` rows of a security that has the given
/// subscriptions. Custom data is read where one of them is custom, and trade
/// bars otherwise, far enough back from the time of the algorithm.
pub fn plan_history_count(
    symbol: &Symbol,
    periods: usize,
    resolution: Resolution,
    utc_time: DateTime,
    start_date: DateTime,
    configs: &Vec<SubscriptionDataConfig>,
) -> (res: HistoryPlan)
    requires
        periods > 0 ==> days_are_span(calendar_days(periods as int, resolution)),
    ensures
        ({
            let end = if utc_time.ns == 0 {
                start_date
            } else {
                utc_time
            };
            let start = DateTime { ns: count_start(end, periods as int, resolution) as i64 };
            let custom = first_custom(configs@);
            res == (if periods == 0 {
                HistoryPlan::Nothing
            } else if custom < configs@.len() {
                HistoryPlan::Custom { config: custom as usize, start, end }
            } else {
                HistoryPlan::Bars {
                    request: HistoryRequest {
                        symbol: *symbol,
                        resolution,
                        start,
                        end,
                        data_type: DataType::TradeBar,
                    },
                    normalization: matching_mode(
                        configs@,
                        Some(resolution),
                        DataNormalizationMode::Adjusted,
                    ),
                }
            })
        }),
        is_history_plan(*symbol, configs@, resolution, periods, utc_time, start_date, res),
{
    if periods == 0 {
        return HistoryPlan::Nothing;
    }
    let end = history_end(utc_time, start_date);
    let start = history_count_start(end, periods, resolution);
    match find_custom(configs) {
        Some(config) => HistoryPlan::Custom { config, start, end },
        None => HistoryPlan::Bars {
            request: HistoryRequest {
                symbol: symbol.duplicate(),
                resolution,
                start,
                end,
                data_type: DataType::TradeBar,
            },
            normalization: matching_normalization_mode(
                configs,
                Some(resolution),
                DataNormalizationMode::Adjusted,
            ),
        },
    }
}

/// Columns of the last `periods` of the bars that were read.
pub fn bar_history_columns(bars: Vec<TradeBar>, periods: usize) -> (res: NameMap<Vec<String>>)
    requires
        forall|i: int| 0 <= i < bars@.len() ==> bar_numbers_wf(#[trigger] bars@[i]),
    ensures
        are_bar_columns(res, last_rows(sorted(bars@, SortBy::End), periods as int)),
{
    let ghost all = bars@;
    let rows = select_history(bars, periods);
    assert forall|i: int| 0 <= i < rows@.len() implies bar_numbers_wf(#[trigger] rows@[i]) by {
        lemma_last_sorted_row(all, SortBy::End, periods as int, i);
        let k = choose|k: int| 0 <= k < all.len() && all[k] == rows@[i];
        assert(bar_numbers_wf(all[k]));
    }
    trade_bars_to_columns(&rows)
}

/// Columns of the last `periods` of the custom rows that were read.
pub fn custom_history_columns(points: Vec<CustomDataPoint>, periods: usize) -> (res: NameMap<
    Vec<String>,
>)
    requires
        forall|i: int| 0 <= i < points@.len() ==> custom_numbers_wf(#[trigger] points@[i]),
    ensures
        are_custom_columns(res, last_rows(sorted(points@, SortBy::End), periods as int)),
{
    let ghost all = points@;
    let rows = select_history(points, periods);
    assert forall|i: int| 0 <= i < rows@.len() implies custom_numbers_wf(#[trigger] rows@[i]) by {
        lemma_last_sorted_row(all, SortBy::End, periods as int, i);
        let k = choose|k: int| 0 <= k < all.len() && all[k] == rows@[i];
        assert(custom_numbers_wf(all[k]));
    }
    custom_points_to_columns(&rows)
}

/// Plans the search for the last known price of a security that has the given
/// subscriptions.
pub fn plan_last_known(
    symbol: &Symbol,
    resolution: Resolution,
    utc_time: DateTime,
    start_date: DateTime,
    configs: &Vec<SubscriptionDataConfig>,
) -> (res: (HistoryRequest, DataNormalizationMode))
    requires
        ({
            let as_of = if utc_time.ns == 0 {
                start_date
            } else {
                utc_time
            };
            as_of.day() - 31 >= crate::time::MIN_CLOCK_DAYS && as_of.day()
                <= crate::time::MAX_CLOCK_DAYS
        }),
    ensures
        ({
            let as_of = if utc_time.ns == 0 {
                start_date
            } else {
                utc_time
            };
            res.0 == (HistoryRequest {
                symbol: *symbol,
                resolution,
                start: DateTime { ns: clock_ns(as_of.day() - lookback_days(resolution), 0) as i64 },
                end: as_of,
                data_type: DataType::TradeBar,
            })
        }),
        res.1 == matching_mode(configs@, Some(resolution), DataNormalizationMode::Adjusted),
{
    let as_of = history_end(utc_time, start_date);
    let normalization = matching_normalization_mode(
        configs,
        Some(resolution),
        DataNormalizationMode::Adjusted,
    );
    let start = last_known_start(as_of, resolution);
    (
        HistoryRequest {
            symbol: symbol.duplicate(),
            resolution,
            start,
            end: as_of,
            data_type: DataType::TradeBar,
        },
        normalization,
    )
}

/// The last known price among the bars that were read: the close of the latest
/// bar that has a price and has ended.
pub fn last_known_close_price(bars: Vec<TradeBar>, as_of: DateTime) -> (res: Option<Decimal>)
    ensures
        ({
            let known = sorted(bars@.filter(|bar: TradeBar| is_known(bar, as_of)), SortBy::End);
            res == (if known.len() == 0 {
                None
            } else {
                Some(known.last().close)
            })
        }),
        res matches Some(price) ==> price.mantissa > 0,
{
    let ghost held = bars@.filter(|bar: TradeBar| is_known(bar, as_of));
    let rows = select_last_known(bars, as_of);
    if rows.len() == 0 {
        return None;
    }
    proof {
        lemma_last_sorted_row(held, SortBy::End, 1, 0);
        let k = choose|k: int| 0 <= k < held.len() && held[k] == rows@[0];
        lemma_filtered(bars@, |bar: TradeBar| is_known(bar, as_of), k);
    }
    Some(rows[0].close)
}

proof fn lemma_filtered<T>(rows: Seq<T>, keep: spec_fn(T) -> bool, k: int)
    requires
        0 <= k < rows.filter(keep).len(),
    ensures
        keep(rows.filter(keep)[k]),
    decreases rows.len(),
{
    reveal(Seq::filter);
    if k < rows.drop_last().filter(keep).len() {
        lemma_filtered(rows.drop_last(), keep, k);
    }
}

/// The instants from the start of one date to the last second of another.
pub fn date_window(start: Date, end: Date) -> (res: (DateTime, DateTime))
    requires
        start.on_clock(),
        end.on_clock(),
    ensures
        res.0.ns == clock_ns(start.days as int, 0),
        res.1.ns == clock_ns(end.days as int, 86_399),
{
    (partition_day_start(start), partition_day_end(end))
}

/// The window of a request for custom history, which only a custom subscription
/// can answer.
pub fn custom_history_window(
    subscription: &SubscriptionDataConfig,
    start: Date,
    end: Date,
) -> (res: Result<(DateTime, DateTime), String>)
    requires
        start.on_clock(),
        end.on_clock(),
    ensures
        match res {
            Ok(window) => {
                &&& subscription.custom is Some
                &&& window.0.ns == clock_ns(start.days as int, 0)
                &&& window.1.ns == clock_ns(end.days as int, 86_399)
            },
            Err(message) => {
                &&& subscription.custom is None
                &&& message@ == "custom history requested for non-custom subscription"@
            },
        },
{
    if subscription.custom.is_none() {
        return Err("custom history requested for non-custom subscription".to_owned());
    }
    Ok(date_window(start, end))
}

/// A search for a last known price reaches back a week among intraday bars finer than an
/// hour, two weeks among hourly bars and a month among daily ones.
pub proof fn law_lookback_grows_with_the_resolution()
    ensures
        lookback_days(Resolution::Tick) == 7,
        lookback_days(Resolution::Second) == 7,
        lookback_days(Resolution::Minute) == 7,
        lookback_days(Resolution::Hour) == 2 * lookback_days(Resolution::Minute),
        lookback_days(Resolution::Daily) == 31,
{
}

/// A request for a number of bars reaches back far enough for them and more: three
/// calendar days for a daily bar, a day for six hours or 390 minutes, and some weeks
/// besides. More bars never reach back less.
pub proof fn law_count_reaches_back_far_enough(
    end: DateTime,
    periods: int,
    more: int,
    resolution: Resolution,
)
    requires
        0 <= periods <= more,
        calendar_days(more, resolution) <= 106_751,
    ensures
        calendar_days(periods, resolution) <= calendar_days(more, resolution),
        resolution == Resolution::Daily ==> calendar_days(periods, resolution) == 3 * periods + 31,
        resolution == Resolution::Hour ==> calendar_days(periods, resolution) == periods / 6 + 14,
        resolution == Resolution::Minute ==> calendar_days(periods, resolution) == periods / 390 + 7,
        count_start(end, more, resolution) <= count_start(end, periods, resolution) <= end.ns,
        end.ns - calendar_days(periods, resolution) * 86_400_000_000_000 >= i64::MIN ==> count_start(
            end,
            periods,
            resolution,
        ) == end.ns - calendar_days(periods, resolution) * 86_400_000_000_000,
{
    assert(periods / 6 <= more / 6) by (nonlinear_arith)
        requires
            periods <= more,
    ;
    assert(periods / 390 <= more / 390) by (nonlinear_arith)
        requires
            periods <= more,
    ;
}

/// A price is known once its bar has ended, and only if it is a price.
pub proof fn law_known_prices_have_ended(bar: TradeBar, as_of: DateTime)
    ensures
        is_known(bar, as_of) <==> bar.close.mantissa > 0 && bar.end_time.ns <= as_of.ns,
{
}

/// The normalization of a request is that of the subscription that fits it best: the
/// first trade subscription at its resolution, then the first at its resolution, then the
/// first trade subscription, then the first of all. Without any it is the fallback.
pub proof fn law_best_subscription_decides(
    configs: Seq<SubscriptionDataConfig>,
    wanted: Resolution,
    fallback: DataNormalizationMode,
    k: int,
)
    ensures
        configs.len() == 0 ==> matching_mode(configs, Some(wanted), fallback) == fallback,
        0 <= k < configs.len() && configs[k].resolution == wanted && configs[k].tick_type
            == TickType::Trade && (forall|j: int|
            0 <= j < k ==> !((#[trigger] configs[j]).resolution == wanted && configs[j].tick_type
                == TickType::Trade)) ==> matching_mode(configs, Some(wanted), fallback)
            == configs[k].normalization_mode,
        0 <= k < configs.len() && configs[k].resolution == wanted && (forall|j: int|
            0 <= j < configs.len() ==> !((#[trigger] configs[j]).resolution == wanted
                && configs[j].tick_type == TickType::Trade)) && (forall|j: int|
            0 <= j < k ==> (#[trigger] configs[j]).resolution != wanted) ==> matching_mode(
            configs,
            Some(wanted),
            fallback,
        ) == configs[k].normalization_mode,
        0 <= k < configs.len() && configs[k].tick_type == TickType::Trade && (forall|j: int|
            0 <= j < configs.len() ==> (#[trigger] configs[j]).resolution != wanted) && (forall|
            j: int,
        |
            0 <= j < k ==> (#[trigger] configs[j]).tick_type != TickType::Trade) ==> matching_mode(
            configs,
            Some(wanted),
            fallback,
        ) == configs[k].normalization_mode,
        configs.len() > 0 && (forall|j: int|
            0 <= j < configs.len() ==> (#[trigger] configs[j]).resolution != wanted
                && configs[j].tick_type != TickType::Trade) ==> matching_mode(
            configs,
            Some(wanted),
            fallback,
        ) == configs[0].normalization_mode,
{
    lemma_first_match(configs, Some(wanted), true);
    lemma_first_match(configs, Some(wanted), false);
    lemma_first_match(configs, None, true);
}

proof fn lemma_first_match(
    configs: Seq<SubscriptionDataConfig>,
    resolution: Option<Resolution>,
    trades_only: bool,
)
    ensures
        ({
            let i = first_match(configs, resolution, trades_only);
            &&& 0 <= i <= configs.len()
            &&& i < configs.len() ==> (resolution matches Some(r) ==> configs[i].resolution == r)
                && (trades_only ==> configs[i].tick_type == TickType::Trade)
            &&& forall|j: int|
                0 <= j < i ==> !((resolution matches Some(r) ==> (
                #[trigger] configs[j]).resolution == r) && (trades_only ==> configs[j].tick_type
                    == TickType::Trade))
        }),
    decreases configs.len(),
{
    if configs.len() > 0 && !((resolution matches Some(r) ==> configs[0].resolution == r) && (
    trades_only ==> configs[0].tick_type == TickType::Trade)) {
        let rest = configs.skip(1);
        lemma_first_match(rest, resolution, trades_only);
        let i = first_match(rest, resolution, trades_only);
        if i < rest.len() {
            assert(rest[i] == configs[i + 1]);
        }
        assert forall|j: int| 0 <= j < i + 1 implies !((resolution matches Some(r) ==> (
        #[trigger] configs[j]).resolution == r) && (trades_only ==> configs[j].tick_type
            == TickType::Trade)) by {
            if j > 0 {
                assert(rest[j - 1] == configs[j]);
            }
        }
    }
}

/// The table of some bars has a row for each bar, and each value stands in the column of
/// its own name.
pub proof fn law_columns_hold_their_bars(
    columns: NameMap<Vec<String>>,
    bars: Seq<TradeBar>,
    k: int,
)
    requires
        are_bar_columns(columns, bars),
        0 <= k < bars.len(),
    ensures
        columns@["open"@]@.len() == bars.len() && columns@["open"@]@[k]@ == bars[k].open.digits(),
        columns@["high"@]@.len() == bars.len() && columns@["high"@]@[k]@ == bars[k].high.digits(),
        columns@["low"@]@.len() == bars.len() && columns@["low"@]@[k]@ == bars[k].low.digits(),
        columns@["close"@]@.len() == bars.len() && columns@["close"@]@[k]@
            == bars[k].close.digits(),
        columns@["volume"@]@.len() == bars.len() && columns@["volume"@]@[k]@
            == bars[k].volume.digits(),
        columns@["time"@]@.len() == bars.len() && columns@["time"@]@[k]@ == timestamp_text(
            bars[k].time.ns as int,
        ),
        columns@["end_time"@]@.len() == bars.len() && columns@["end_time"@]@[k]@ == timestamp_text(
            bars[k].end_time.ns as int,
        ),
{
    lemma_column_at(
        columns,
        "open"@,
        bars.map_values(|bar: TradeBar| bar.open.digits()),
        k,
    );
    lemma_column_at(
        columns,
        "high"@,
        bars.map_values(|bar: TradeBar| bar.high.digits()),
        k,
    );
    lemma_column_at(
        columns,
        "low"@,
        bars.map_values(|bar: TradeBar| bar.low.digits()),
        k,
    );
    lemma_column_at(
        columns,
        "close"@,
        bars.map_values(|bar: TradeBar| bar.close.digits()),
        k,
    );
    lemma_column_at(
        columns,
        "volume"@,
        bars.map_values(|bar: TradeBar| bar.volume.digits()),
        k,
    );
    lemma_column_at(
        columns,
        "time"@,
        bars.map_values(|bar: TradeBar| timestamp_text(bar.time.ns as int)),
        k,
    );
    lemma_column_at(
        columns,
        "end_time"@,
        bars.map_values(|bar: TradeBar| timestamp_text(bar.end_time.ns as int)),
        k,
    );
}

/// The same of custom rows; a row without an end time ends with its date.
pub proof fn law_columns_hold_their_rows(
    columns: NameMap<Vec<String>>,
    points: Seq<CustomDataPoint>,
    k: int,
)
    requires
        are_custom_columns(columns, points),
        0 <= k < points.len(),
    ensures
        columns@["value"@]@.len() == points.len() && columns@["value"@]@[k]@
            == points[k].value.digits(),
        columns@["time"@]@.len() == points.len() && columns@["time"@]@[k]@ == date_text(
            points[k].time.days as int,
        ),
        columns@["end_time"@]@.len() == points.len() && columns@["end_time"@]@[k]@ == (
        match points[k].end_time {
            Some(end) => timestamp_text(end.ns as int),
            None => date_text(points[k].time.days as int),
        }),
{
    lemma_column_at(
        columns,
        "value"@,
        points.map_values(|point: CustomDataPoint| point.value.digits()),
        k,
    );
    lemma_column_at(
        columns,
        "time"@,
        points.map_values(|point: CustomDataPoint| date_text(point.time.days as int)),
        k,
    );
    lemma_column_at(
        columns,
        "end_time"@,
        points.map_values(|point: CustomDataPoint| custom_end_text(point)),
        k,
    );
}

/// The first custom subscription is custom, and none before it is.
pub proof fn law_first_custom_subscription(configs: Seq<SubscriptionDataConfig>, k: int)
    ensures
        0 <= first_custom(configs) <= configs.len(),
        first_custom(configs) < configs.len() ==> configs[first_custom(configs)].custom is Some,
        0 <= k < first_custom(configs) ==> configs[k].custom is None,
    decreases configs.len(),
{
    if configs.len() > 0 && configs[0].custom is None {
        let rest = configs.skip(1);
        law_first_custom_subscription(rest, k - 1);
        if first_custom(rest) < rest.len() {
            assert(rest[first_custom(rest)] == configs[first_custom(rest) + 1]);
        }
        if 0 < k < first_custom(configs) {
            assert(rest[k - 1] == configs[k]);
        }
    }
}

proof fn lemma_column_at(
    columns: NameMap<Vec<String>>,
    name: Seq<char>,
    values: Seq<Seq<char>>,
    k: int,
)
    requires
        has_column(columns, name, values),
        0 <= k < values.len(),
    ensures
        columns@[name]@.len() == values.len(),
        columns@[name]@[k]@ == values[k],
{
    let held = columns@[name]@;
    assert(texts(held).len() == held.len());
    assert(texts(held)[k] == held[k]@);
}

/// What a request for a number of bars asks for.
pub open spec fn is_history_plan(
    symbol: Symbol,
    configs: Seq<SubscriptionDataConfig>,
    resolution: Resolution,
    periods: usize,
    utc_time: DateTime,
    start_date: DateTime,
    plan: HistoryPlan,
) -> bool {
    let end = if utc_time.ns == 0 {
        start_date
    } else {
        utc_time
    };
    match plan {
        HistoryPlan::Nothing => periods == 0,
        HistoryPlan::Custom { config, start, end: until } => {
            &&& periods > 0
            &&& config == first_custom(configs) && config < configs.len()
            &&& until == end
            &&& start.ns == count_start(end, periods as int, resolution)
        },
        HistoryPlan::Bars { request, normalization } => {
            &&& periods > 0
            &&& first_custom(configs) == configs.len()
            &&& request.symbol == symbol
            &&& request.resolution == resolution
            &&& request.start.ns == count_start(end, periods as int, resolution)
            &&& request.end == end
            &&& request.data_type == DataType::TradeBar
            &&& normalization == matching_mode(
                configs,
                Some(resolution),
                DataNormalizationMode::Adjusted,
            )
        },
    }
}

/// History never looks ahead: it ends with the time of the algorithm, or with its start
/// before the clock has started. It is of the security and the resolution that are asked
/// for, and nothing is asked for where no bar is wanted.
pub proof fn law_history_does_not_look_ahead(
    symbol: Symbol,
    configs: Seq<SubscriptionDataConfig>,
    resolution: Resolution,
    periods: usize,
    utc_time: DateTime,
    start_date: DateTime,
    plan: HistoryPlan,
)
    requires
        is_history_plan(symbol, configs, resolution, periods, utc_time, start_date, plan),
    ensures
        plan is Nothing <==> periods == 0,
        plan matches HistoryPlan::Bars { request, .. } ==> {
            &&& utc_time.ns != 0 ==> request.end == utc_time
            &&& utc_time.ns == 0 ==> request.end == start_date
            &&& request.symbol.sid == symbol.sid
            &&& request.resolution == resolution
            &&& request.data_type == DataType::TradeBar
        },
        plan matches HistoryPlan::Custom { config, start, end } ==> {
            &&& utc_time.ns != 0 ==> end == utc_time
            &&& utc_time.ns == 0 ==> end == start_date
            &&& configs[config as int].custom is Some
        },
{
    law_first_custom_subscription(configs, 0);
}

} // verus!
