//! Loading a market partition: whether the stored rows suffice, what is asked
//! of the provider otherwise, and what is delivered.

use crate::model::{
    DataType, HistoryRequest, QuoteBar, Resolution, SecurityType, SubscriptionDataKind, Tick,
    TickType, TradeBar,
};
use crate::subscription_data::SubscriptionDataPoint;
use crate::subscription_reader::coverage::{
    contiguous_covered_until, earlier_date, fetched_coverage_date, fetched_covers,
    fetched_daily_row_dates, is_subset,
    quote_rows_cover, quote_rows_suffice, trade_rows_cover, trade_rows_suffice, RowSpan,
};
use crate::subscription_reader::market::PreparedTradeBar;
use crate::subscription_reader::ordering::all_wf;
use crate::subscription_reader::producer::{
    is_daily_equity, lemma_day_monotonic, on_readable_day, LoadedPartition,
    SubscriptionProducerState, MAX_FEED_DAYS, MIN_FEED_DAYS,
};
use crate::subscription_reader::window::{
    daily_market_query_params, daily_query, date_from_days_since_epoch, days_since_epoch,
    expected_market_dates, increasing, is_expected_date, partition_day_end, partition_day_start,
    QueryParams,
};
use crate::time::{clock_ns, Date, DateTime, MAX_DATE_DAYS};
use vstd::prelude::*;

verus! {

/// Tables of market rows.
#[derive(Clone, Copy, Debug, PartialEq, Eq, Structural)]
pub enum MarketTable {
    TradeBars,
    QuoteBars,
    Ticks,
}

/// The table that holds rows of a resolution and tick type.
pub open spec fn table_of(resolution: Resolution, tick_type: TickType) -> MarketTable {
    if resolution == Resolution::Tick {
        MarketTable::Ticks
    } else if tick_type == TickType::Quote {
        MarketTable::QuoteBars
    } else {
        MarketTable::TradeBars
    }
}

pub fn market_table(resolution: Resolution, tick_type: TickType) -> (res: MarketTable)
    ensures
        res == table_of(resolution, tick_type),
{
    if resolution.is_tick() {
        MarketTable::Ticks
    } else if tick_type == TickType::Quote {
        MarketTable::QuoteBars
    } else {
        MarketTable::TradeBars
    }
}

/// What is read from the store to learn whether it covers a window.
#[derive(Clone, Copy, Debug, PartialEq, Eq, Structural)]
pub enum LocalWindowProbe {
    /// Nothing is expected of the window.
    Covered,
    /// The days, from first to last, for which a table has partitions.
    PartitionDays { table: MarketTable, first_day: i32, last_day: i32 },
    /// The daily quote rows of a query.
    DailyQuotes(QueryParams),
    /// The daily trade rows of a query.
    DailyTrades(QueryParams),
}

/// What the store answered to a [`LocalWindowProbe`].
pub enum LocalWindowRows {
    PartitionDays(Vec<i32>),
    DailyQuotes(Vec<RowSpan>),
    DailyTrades(Vec<RowSpan>),
}

/// First step of filling the cache of a window.
#[derive(Clone, Copy, Debug, PartialEq, Eq, Structural)]
pub enum MarketFetchStep {
    /// There is no provider, or the window is filled already.
    Skip,
    /// Look whether the store covers the window.
    CheckLocal { window_start: Date, window_end: Date },
}

/// Rows to store, and the date through which they fill the cache.
pub struct FetchedRows<T> {
    pub rows: Vec<T>,
    pub filled_until: Option<Date>,
}

/// Requests for the data that come with the rows of a crypto future.
pub struct DerivedRequests {
    pub contexts: HistoryRequest,
    pub margin_rates: HistoryRequest,
    pub open_interest: HistoryRequest,
}

impl SubscriptionProducerState {
    /// Whether the cache of a window must hold a date: it is expected of the
    /// market and rows can exist for it.
    pub open spec fn is_cacheable(&self, date: Date, window_start: Date, window_end: Date) -> bool {
        let equity = self.config.symbol.security_type == SecurityType::Equity;
        &&& window_start.days <= date.days <= window_end.days
        &&& date.days <= self.end_partition_date.days
        &&& equity ==> self.exchange_hours.opens_on(date)
        &&& self.provider_earliest_date matches Some(first) ==> date.days >= first.days
    }

    /// The dates that the cache of a window must hold, in order.
    pub open spec fn is_expected_list(
        &self,
        dates: Seq<Date>,
        window_start: Date,
        window_end: Date,
    ) -> bool {
        &&& increasing(dates)
        &&& forall|d: Date| #[trigger]
            dates.contains(d) <==> self.is_cacheable(d, window_start, window_end)
    }

    pub fn expected_cacheable_dates(&self, window_start: Date, window_end: Date) -> (res: Vec<Date>)
        requires
            window_start.in_calendar(),
            self.end_partition_date.days < MAX_DATE_DAYS,
        ensures
            self.is_expected_list(res@, window_start, window_end),
    {
        let equity = self.config.symbol.security_type == SecurityType::Equity;
        let hours = if equity {
            Some(&self.exchange_hours)
        } else {
            None
        };
        let expected = expected_market_dates(
            window_start,
            window_end,
            self.end_partition_date,
            hours,
            self.config.symbol.security_type,
        );
        let earliest = match self.provider_earliest_date {
            Some(earliest) => earliest,
            None => {
                assert forall|d: Date| #[trigger] expected@.contains(d) <==> self.is_cacheable(
                    d,
                    window_start,
                    window_end,
                ) by {}
                return expected;
            },
        };
        let mut out: Vec<Date> = Vec::new();
        let mut i: usize = 0;
        while i < expected.len()
            invariant
                i <= expected@.len(),
                increasing(expected@),
                increasing(out@),
                forall|k: int|
                    0 <= k < out@.len() && i < expected@.len() ==> (#[trigger] out@[k]).days
                        < expected@[i as int].days,
                forall|d: Date| #[trigger]
                    out@.contains(d) <==> (expected@.take(i as int).contains(d) && d.days
                        >= earliest.days),
            decreases expected.len() - i,
        {
            let date = expected[i];
            let ghost before = out@;
            proof {
                let head = expected@.take(i as int);
                let next = expected@.take(i + 1);
                assert(next =~= head.push(date));
                crate::subscription_reader::coverage::lemma_push_contains(head, date);
                crate::subscription_reader::coverage::lemma_push_contains(before, date);
            }
            if date.days >= earliest.days {
                out.push(date);
            }
            i = i + 1;
        }
        assert(expected@.take(i as int) =~= expected@);
        assert forall|d: Date| #[trigger] out@.contains(d) <==> self.is_cacheable(
            d,
            window_start,
            window_end,
        ) by {
            assert(expected@.contains(d) <==> is_expected_date(
                d.days as int,
                window_start,
                window_end,
                self.end_partition_date,
                hours,
                self.config.symbol.security_type,
            ));
        }
        out
    }

    /// What tells whether the store covers a window.
    pub fn local_window_probe(&self, window_start: Date, window_end: Date) -> (res: LocalWindowProbe)
        requires
            MIN_FEED_DAYS - 1 <= window_start.days <= MAX_FEED_DAYS,
            MIN_FEED_DAYS - 1 <= window_end.days <= MAX_FEED_DAYS,
            self.end_partition_date.days < MAX_DATE_DAYS,
        ensures
            ({
                let nothing = forall|d: Date| !#[trigger] self.is_cacheable(
                    d,
                    window_start,
                    window_end,
                );
                res == (if nothing {
                    LocalWindowProbe::Covered
                } else if self.config.resolution != Resolution::Daily {
                    LocalWindowProbe::PartitionDays {
                        table: table_of(self.config.resolution, self.config.tick_type),
                        first_day: window_start.days,
                        last_day: window_end.days,
                    }
                } else if self.config.tick_type == TickType::Quote {
                    LocalWindowProbe::DailyQuotes(
                        daily_query(self.config.symbol.sid, window_start, window_end),
                    )
                } else {
                    LocalWindowProbe::DailyTrades(
                        daily_query(self.config.symbol.sid, window_start, window_end),
                    )
                })
            }),
    {
        let day_start = partition_day_start(window_start);
        let day_end = partition_day_end(window_end);
        let expected = self.expected_cacheable_dates(window_start, window_end);
        if expected.len() == 0 {
            assert forall|d: Date| !#[trigger] self.is_cacheable(d, window_start, window_end) by {
                assert(!expected@.contains(d));
            }
            return LocalWindowProbe::Covered;
        }
        assert(expected@.contains(expected@[0]));
        assert(self.is_cacheable(expected@[0], window_start, window_end));
        if self.config.resolution != Resolution::Daily {
            return LocalWindowProbe::PartitionDays {
                table: market_table(self.config.resolution, self.config.tick_type),
                first_day: days_since_epoch(day_start.ns),
                last_day: days_since_epoch(day_end.ns),
            };
        }
        let params = daily_market_query_params(self.config.symbol.sid, window_start, window_end);
        if self.config.tick_type == TickType::Quote {
            LocalWindowProbe::DailyQuotes(params)
        } else {
            LocalWindowProbe::DailyTrades(params)
        }
    }

    /// Whether what the store holds makes a fetch of the window unnecessary.
    pub open spec fn local_window_suffices(
        &self,
        expected: Seq<Date>,
        rows: LocalWindowRows,
    ) -> bool {
        expected.len() == 0 || match rows {
            LocalWindowRows::PartitionDays(days) => forall|i: int|
                0 <= i < expected.len() ==> days@.contains((#[trigger] expected[i]).days),
            LocalWindowRows::DailyQuotes(spans) => quote_rows_suffice(spans@, expected),
            LocalWindowRows::DailyTrades(spans) => trade_rows_suffice(spans@, expected),
        }
    }

    /// Decides whether what the store holds makes a fetch unnecessary.
    pub fn has_local_market_window(
        &self,
        window_start: Date,
        window_end: Date,
        rows: &LocalWindowRows,
    ) -> (res: bool)
        requires
            window_start.in_calendar(),
            self.end_partition_date.days < MAX_DATE_DAYS,
        ensures
            exists|expected: Seq<Date>| #[trigger]
                self.is_expected_list(expected, window_start, window_end) && res
                    == self.local_window_suffices(expected, *rows),
            forall|expected: Seq<Date>| #[trigger]
                self.is_expected_list(expected, window_start, window_end) ==> res
                    == self.local_window_suffices(expected, *rows),
    {
        let expected = self.expected_cacheable_dates(window_start, window_end);
        proof {
            assert forall|list: Seq<Date>| #[trigger]
                self.is_expected_list(list, window_start, window_end) implies list
                == expected@ by {
                self.lemma_expected_list_unique(list, expected@, window_start, window_end);
            }
        }
        if expected.len() == 0 {
            return true;
        }
        match rows {
            LocalWindowRows::PartitionDays(days) => {
                let available = dates_of_days(days);
                let res = is_subset(&expected, &available);
                proof {
                    assert forall|i: int| 0 <= i < expected@.len() implies (available@.contains(
                        #[trigger] expected@[i],
                    ) <==> days@.contains(expected@[i].days)) by {
                        assert(expected@.contains(expected@[i]));
                        assert(self.is_cacheable(expected@[i], window_start, window_end));
                    }
                }
                res
            },
            LocalWindowRows::DailyQuotes(spans) => quote_rows_cover(
                spans,
                &expected,
                &self.exchange_hours,
            ),
            LocalWindowRows::DailyTrades(spans) => trade_rows_cover(
                spans,
                &expected,
                &self.exchange_hours,
            ),
        }
    }

    /// There is one list of expected dates for a window.
    pub proof fn lemma_expected_list_unique(
        &self,
        a: Seq<Date>,
        b: Seq<Date>,
        window_start: Date,
        window_end: Date,
    )
        requires
            self.is_expected_list(a, window_start, window_end),
            self.is_expected_list(b, window_start, window_end),
        ensures
            a == b,
    {
        assert forall|d: Date| a.contains(d) == b.contains(d) by {}
        lemma_increasing_unique(a, b);
    }

    /// Whether the cache is known to be filled at the current date.
    pub open spec fn filled_here(&self) -> bool {
        self.cache_filled_until matches Some(date) && self.partition_date.days <= date.days
    }

    /// Decides whether the window at the current date needs looking at.
    pub fn begin_market_fetch(&self) -> (res: MarketFetchStep)
        requires
            self.dates_wf(),
            self.has_history_provider && !self.filled_here() ==> self.window_readable(),
        ensures
            res == (if !self.has_history_provider || self.filled_here() {
                MarketFetchStep::Skip
            } else {
                MarketFetchStep::CheckLocal {
                    window_start: self.window().0,
                    window_end: self.window().1,
                }
            }),
    {
        if !self.has_history_provider {
            return MarketFetchStep::Skip;
        }
        if let Some(date) = self.cache_filled_until {
            if self.partition_date.days <= date.days {
                return MarketFetchStep::Skip;
            }
        }
        let (window_start, window_end) = self.cache_fill_window();
        MarketFetchStep::CheckLocal { window_start, window_end }
    }

    /// Kind of rows that the subscription needs.
    pub open spec fn wanted_rows(&self) -> DataType {
        if self.config.resolution == Resolution::Tick {
            DataType::Tick
        } else if self.config.tick_type == TickType::Quote {
            DataType::QuoteBar
        } else {
            DataType::TradeBar
        }
    }

    /// Goes on after the store was looked at: a covered window counts as
    /// filled, any other is asked of the provider, from midnight of its first to
    /// the last second of its last day.
    pub fn after_local_check(&mut self, window_start: Date, window_end: Date, covered: bool) -> (res:
        Option<HistoryRequest>)
        requires
            window_start.on_clock(),
            window_end.on_clock(),
        ensures
            *final(self) == (SubscriptionProducerState {
                cache_filled_until: if covered {
                    Some(window_end)
                } else {
                    old(self).cache_filled_until
                },
                ..*old(self)
            }),
            res == (if covered {
                None
            } else {
                Some(
                    HistoryRequest {
                        symbol: old(self).config.symbol,
                        resolution: old(self).config.resolution,
                        start: DateTime { ns: clock_ns(window_start.days as int, 0) as i64 },
                        end: DateTime { ns: clock_ns(window_end.days as int, 86_399) as i64 },
                        data_type: old(self).wanted_rows(),
                    },
                )
            }),
            res matches Some(request) ==> asks_for_window(
                *old(self),
                request,
                window_start,
                window_end,
            ),
    {
        if covered {
            self.cache_filled_until = Some(window_end);
            return None;
        }
        let data_type = if self.config.resolution.is_tick() {
            DataType::Tick
        } else if self.config.tick_type == TickType::Quote {
            DataType::QuoteBar
        } else {
            DataType::TradeBar
        };
        Some(
            HistoryRequest {
                symbol: self.config.symbol.duplicate(),
                resolution: self.config.resolution,
                start: partition_day_start(window_start),
                end: partition_day_end(window_end),
                data_type,
            },
        )
    }

    /// Date through which fetched daily rows fill a window without a gap.
    pub open spec fn filled_by(
        &self,
        spans: Seq<RowSpan>,
        window_start: Date,
        window_end: Date,
        until: Option<Date>,
    ) -> bool {
        let end = earlier_date(window_end, self.end_partition_date);
        match until {
            Some(last) => {
                &&& window_start.days <= last.days <= end.days
                &&& self.no_gap_through(spans, window_start, window_end, last.days as int)
                &&& last.days < end.days ==> !self.no_gap_through(
                    spans,
                    window_start,
                    window_end,
                    last.days + 1,
                )
            },
            None => window_start.days > end.days || !self.no_gap_through(
                spans,
                window_start,
                window_end,
                window_start.days as int,
            ),
        }
    }

    /// Whether fetched rows cover every date that the cache must hold, from the
    /// start of the window through `last`.
    pub open spec fn no_gap_through(
        &self,
        spans: Seq<RowSpan>,
        window_start: Date,
        window_end: Date,
        last: int,
    ) -> bool {
        forall|d: Date|
            d.days <= last && #[trigger] self.is_cacheable(d, window_start, window_end)
                ==> exists|i: int|
                0 <= i < spans.len()
                    && crate::subscription_reader::coverage::fetched_coverage_date(
                    (#[trigger] spans[i]).time,
                    spans[i].end_time,
                    window_start,
                ) == d
    }

    fn daily_fetched_rows_until(&self, spans: &Vec<RowSpan>, window_start: Date, window_end: Date) -> (res:
        Option<Date>)
        requires
            window_start.in_calendar(),
            self.end_partition_date.days < MAX_DATE_DAYS,
        ensures
            self.filled_by(spans@, window_start, window_end, res),
    {
        let expected = self.expected_cacheable_dates(window_start, window_end);
        let covered = fetched_daily_row_dates(spans, window_start, &expected, &self.exchange_hours);
        let res = contiguous_covered_until(
            window_start,
            window_end,
            self.end_partition_date,
            &expected,
            &covered,
        );
        proof {
            assert forall|last: int|
                crate::subscription_reader::coverage::unbroken_through(
                    window_start,
                    last,
                    expected@,
                    covered@,
                ) == #[trigger] self.no_gap_through(spans@, window_start, window_end, last) by {
                if crate::subscription_reader::coverage::unbroken_through(
                    window_start,
                    last,
                    expected@,
                    covered@,
                ) {
                    assert forall|d: Date|
                        d.days <= last && #[trigger] self.is_cacheable(
                            d,
                            window_start,
                            window_end,
                        ) implies exists|i: int|
                        0 <= i < spans@.len()
                            && crate::subscription_reader::coverage::fetched_coverage_date(
                            (#[trigger] spans@[i]).time,
                            spans@[i].end_time,
                            window_start,
                        ) == d by {
                        assert(expected@.contains(d));
                        assert(covered@.contains(d));
                        assert(fetched_covers(spans@, window_start, expected@, d));
                    }
                }
                if self.no_gap_through(spans@, window_start, window_end, last) {
                    assert forall|d: Date|
                        window_start.days <= d.days <= last && #[trigger] expected@.contains(
                            d,
                        ) implies covered@.contains(d) by {
                        assert(self.is_cacheable(d, window_start, window_end));
                        assert(fetched_covers(spans@, window_start, expected@, d));
                    }
                }
            }
            if let Some(last) = res {
                assert(self.no_gap_through(spans@, window_start, window_end, last.days as int));
                assert(last.days < earlier_date(window_end, self.end_partition_date).days
                    ==> !self.no_gap_through(spans@, window_start, window_end, last.days + 1));
            } else {
                assert(window_start.days > earlier_date(window_end, self.end_partition_date).days
                    || !self.no_gap_through(
                    spans@,
                    window_start,
                    window_end,
                    window_start.days as int,
                ));
            }
        }
        res
    }

    /// Keeps the fetched trade bars that belong to the window, and tells through
    /// which date they fill the cache: the whole window, or for daily bars as
    /// far as they cover it without a gap.
    pub fn select_trade_rows(&self, rows: Vec<TradeBar>, window_start: Date, window_end: Date) -> (res:
        FetchedRows<TradeBar>)
        requires
            window_start.on_clock(),
            window_end.on_clock(),
            self.end_partition_date.days < MAX_DATE_DAYS,
        ensures
            res.rows@ == rows@.filter(
                |row: TradeBar|
                    self.row_in_window(
                        row.symbol.sid,
                        row.time,
                        row.end_time,
                        window_start,
                        window_end,
                    ),
            ),
            if self.config.resolution == Resolution::Daily {
                self.filled_by(trade_spans(res.rows@), window_start, window_end, res.filled_until)
            } else {
                res.filled_until == Some(window_end)
            },
    {
        let mut kept: Vec<TradeBar> = Vec::new();
        let mut spans: Vec<RowSpan> = Vec::new();
        let ghost all = rows@;
        let ghost keep = |row: TradeBar|
            self.row_in_window(row.symbol.sid, row.time, row.end_time, window_start, window_end);
        proof {
            reveal(Seq::filter);
        }
        for row in it: rows
            invariant
                it.seq() == all,
                window_start.on_clock(),
                window_end.on_clock(),
                keep == |row: TradeBar|
                    self.row_in_window(
                        row.symbol.sid,
                        row.time,
                        row.end_time,
                        window_start,
                        window_end,
                    ),
                kept@ =~= all.take(it.index() as int).filter(keep),
                spans@ =~= trade_spans(kept@),
        {
            proof {
                reveal(Seq::filter);
                assert(all.take(it.index() + 1).drop_last() =~= all.take(it.index() as int));
                assert(all.take(it.index() + 1).last() == row);
            }
            if self.trade_bar_belongs_to_window(&row, window_start, window_end) {
                spans.push(
                    RowSpan { sid: row.symbol.sid, time: row.time, end_time: row.end_time },
                );
                kept.push(row);
            }
        }
        assert(all.take(all.len() as int) =~= all);
        let filled_until = if self.config.resolution == Resolution::Daily {
            self.daily_fetched_rows_until(&spans, window_start, window_end)
        } else {
            Some(window_end)
        };
        FetchedRows { rows: kept, filled_until }
    }

    /// As [`Self::select_trade_rows`], for quote bars.
    pub fn select_quote_rows(&self, rows: Vec<QuoteBar>, window_start: Date, window_end: Date) -> (res:
        FetchedRows<QuoteBar>)
        requires
            window_start.on_clock(),
            window_end.on_clock(),
            self.end_partition_date.days < MAX_DATE_DAYS,
        ensures
            res.rows@ == rows@.filter(
                |row: QuoteBar|
                    self.row_in_window(
                        row.symbol.sid,
                        row.time,
                        row.end_time,
                        window_start,
                        window_end,
                    ),
            ),
            if self.config.resolution == Resolution::Daily {
                self.filled_by(quote_spans(res.rows@), window_start, window_end, res.filled_until)
            } else {
                res.filled_until == Some(window_end)
            },
    {
        let mut kept: Vec<QuoteBar> = Vec::new();
        let mut spans: Vec<RowSpan> = Vec::new();
        let ghost all = rows@;
        let ghost keep = |row: QuoteBar|
            self.row_in_window(row.symbol.sid, row.time, row.end_time, window_start, window_end);
        proof {
            reveal(Seq::filter);
        }
        for row in it: rows
            invariant
                it.seq() == all,
                window_start.on_clock(),
                window_end.on_clock(),
                keep == |row: QuoteBar|
                    self.row_in_window(
                        row.symbol.sid,
                        row.time,
                        row.end_time,
                        window_start,
                        window_end,
                    ),
                kept@ =~= all.take(it.index() as int).filter(keep),
                spans@ =~= quote_spans(kept@),
        {
            proof {
                reveal(Seq::filter);
                assert(all.take(it.index() + 1).drop_last() =~= all.take(it.index() as int));
                assert(all.take(it.index() + 1).last() == row);
            }
            if self.quote_bar_belongs_to_window(&row, window_start, window_end) {
                spans.push(
                    RowSpan { sid: row.symbol.sid, time: row.time, end_time: row.end_time },
                );
                kept.push(row);
            }
        }
        assert(all.take(all.len() as int) =~= all);
        let filled_until = if self.config.resolution == Resolution::Daily {
            self.daily_fetched_rows_until(&spans, window_start, window_end)
        } else {
            Some(window_end)
        };
        FetchedRows { rows: kept, filled_until }
    }

    /// Keeps the fetched ticks that belong to the window; they fill all of it.
    pub fn select_ticks(&self, rows: Vec<Tick>, window_start: Date, window_end: Date) -> (res:
        FetchedRows<Tick>)
        requires
            window_start.on_clock(),
            window_end.on_clock(),
        ensures
            res.rows@ == rows@.filter(
                |row: Tick| self.tick_in_window(row, window_start, window_end),
            ),
            res.filled_until == Some(window_end),
    {
        let mut kept: Vec<Tick> = Vec::new();
        let ghost all = rows@;
        let ghost keep = |row: Tick| self.tick_in_window(row, window_start, window_end);
        proof {
            reveal(Seq::filter);
        }
        for row in it: rows
            invariant
                it.seq() == all,
                window_start.on_clock(),
                window_end.on_clock(),
                keep == |row: Tick| self.tick_in_window(row, window_start, window_end),
                kept@ =~= all.take(it.index() as int).filter(keep),
        {
            proof {
                reveal(Seq::filter);
                assert(all.take(it.index() + 1).drop_last() =~= all.take(it.index() as int));
                assert(all.take(it.index() + 1).last() == row);
            }
            if self.tick_belongs_to_window(&row, window_start, window_end) {
                kept.push(row);
            }
        }
        assert(all.take(all.len() as int) =~= all);
        FetchedRows { rows: kept, filled_until: Some(window_end) }
    }

    /// Requests for the data that come with the rows of a crypto future; other
    /// securities have none.
    pub fn derived_requests(&self, base: &HistoryRequest) -> (res: Option<DerivedRequests>)
        ensures
            res == (if self.config.symbol.security_type == SecurityType::CryptoFuture {
                Some(
                    DerivedRequests {
                        contexts: HistoryRequest {
                            data_type: DataType::PerpetualContext,
                            resolution: Resolution::Minute,
                            ..*base
                        },
                        margin_rates: HistoryRequest {
                            data_type: DataType::MarginInterestRate,
                            resolution: Resolution::Hour,
                            ..*base
                        },
                        open_interest: HistoryRequest {
                            data_type: DataType::OpenInterest,
                            resolution: Resolution::Minute,
                            ..*base
                        },
                    },
                )
            } else {
                None
            }),
            res matches Some(derived) ==> are_derived(*base, derived),
    {
        if self.config.symbol.security_type != SecurityType::CryptoFuture {
            return None;
        }
        Some(
            DerivedRequests {
                contexts: HistoryRequest {
                    symbol: base.symbol.duplicate(),
                    resolution: Resolution::Minute,
                    start: base.start,
                    end: base.end,
                    data_type: DataType::PerpetualContext,
                },
                margin_rates: HistoryRequest {
                    symbol: base.symbol.duplicate(),
                    resolution: Resolution::Hour,
                    start: base.start,
                    end: base.end,
                    data_type: DataType::MarginInterestRate,
                },
                open_interest: HistoryRequest {
                    symbol: base.symbol.duplicate(),
                    resolution: Resolution::Minute,
                    start: base.start,
                    end: base.end,
                    data_type: DataType::OpenInterest,
                },
            },
        )
    }

    /// Notes that fetched rows are stored, and turns the prepared trade bars into
    /// points.
    pub fn finish_trade_fetch(
        &mut self,
        prepared: Vec<PreparedTradeBar>,
        valid: &Vec<bool>,
        filled_until: Option<Date>,
    ) -> (res: Vec<SubscriptionDataPoint>)
        requires
            valid@.len() == prepared@.len(),
            forall|i: int|
                0 <= i < prepared@.len() ==> old(self).session_probe_fits(
                    (#[trigger] prepared@[i]).bar.end_time,
                ),
        ensures
            *final(self) == (SubscriptionProducerState {
                cache_filled_until: filled_until,
                ..*old(self)
            }),
            res@ == old(self).arranged(old(self).trade_points(prepared@, valid@)),
            all_wf(res@),
    {
        let points = self.trade_bars_to_points(prepared, valid);
        self.cache_filled_until = filled_until;
        points
    }

    /// Notes that fetched rows are stored, and turns quote bars into points.
    pub fn finish_quote_fetch(
        &mut self,
        fetched: FetchedRows<QuoteBar>,
        window_start: Date,
        window_end: Date,
    ) -> (res: Vec<SubscriptionDataPoint>)
        requires
            window_start.on_clock(),
            window_end.on_clock(),
            forall|i: int|
                0 <= i < fetched.rows@.len() ==> old(self).quote_bar_ready(
                    #[trigger] fetched.rows@[i],
                ),
        ensures
            *final(self) == (SubscriptionProducerState {
                cache_filled_until: fetched.filled_until,
                ..*old(self)
            }),
            res@ == old(self).arranged(
                old(self).quote_points(fetched.rows@, window_start, window_end),
            ),
            all_wf(res@),
    {
        let points = self.quote_bars_to_points(fetched.rows, window_start, window_end);
        self.cache_filled_until = fetched.filled_until;
        points
    }

    /// Notes that fetched ticks are stored, and turns them into points.
    pub fn finish_tick_fetch(&mut self, fetched: FetchedRows<Tick>) -> (res: Vec<
        SubscriptionDataPoint,
    >)
        ensures
            *final(self) == (SubscriptionProducerState {
                cache_filled_until: fetched.filled_until,
                ..*old(self)
            }),
            res@ == fetched.rows@.map_values(|tick: Tick| SubscriptionDataPoint::Tick(tick)),
            all_wf(res@),
    {
        self.cache_filled_until = fetched.filled_until;
        Self::ticks_to_points(fetched.rows)
    }

    /// The query that reads a window back from the store: daily rows with a day
    /// on either side, ticks by their time, other bars by partition and time.
    pub open spec fn stored_query(&self, window_start: Date, window_end: Date) -> QueryParams {
        if self.config.resolution == Resolution::Daily {
            daily_query(self.config.symbol.sid, window_start, window_end)
        } else {
            QueryParams {
                day_start: DateTime { ns: clock_ns(window_start.days as int, 0) as i64 },
                day_end: DateTime { ns: clock_ns(window_end.days as int, 86_399) as i64 },
                limit_bars: self.config.resolution != Resolution::Tick,
                by_time: self.config.resolution == Resolution::Tick,
                sid: self.config.symbol.sid,
            }
        }
    }

    pub fn stored_query_params(&self, window_start: Date, window_end: Date) -> (res: QueryParams)
        requires
            MIN_FEED_DAYS - 1 <= window_start.days <= MAX_FEED_DAYS,
            MIN_FEED_DAYS - 1 <= window_end.days <= MAX_FEED_DAYS,
        ensures
            res == self.stored_query(window_start, window_end),
    {
        if self.config.resolution == Resolution::Daily {
            daily_market_query_params(self.config.symbol.sid, window_start, window_end)
        } else {
            let tick = self.config.resolution.is_tick();
            QueryParams {
                day_start: partition_day_start(window_start),
                day_end: partition_day_end(window_end),
                limit_bars: !tick,
                by_time: tick,
                sid: self.config.symbol.sid,
            }
        }
    }

    /// Whether a loaded point is delivered: not after the end of the run, and
    /// for daily equity bars inside the window, for anything else not before
    /// the start of the run.
    pub open spec fn delivers(
        &self,
        point: SubscriptionDataPoint,
        window_start: Date,
        window_end: Date,
    ) -> bool {
        &&& point.frontier().ns <= self.end.ns
        &&& if is_daily_equity(self.config) {
            &&& point is TradeBar || point is QuoteBar
            &&& window_start.days <= point.frontier().day() <= window_end.days
        } else {
            point.frontier().ns >= self.start.ns
        }
    }

    /// Completes the partition of a window from the stored points, or from the
    /// fetched ones where the store has none. The partition reaches as far as
    /// the cache is filled inside the window, or to the end of the window.
    pub fn finish_market_partition(
        &self,
        stored: Vec<SubscriptionDataPoint>,
        fetched: Vec<SubscriptionDataPoint>,
        window_start: Date,
        window_end: Date,
    ) -> (res: LoadedPartition)
        requires
            all_wf(stored@),
            all_wf(fetched@),
            self.end.day() <= MAX_FEED_DAYS,
        ensures
            res.points@ == (if stored@.len() == 0 {
                fetched@
            } else {
                stored@
            }).filter(
                |point: SubscriptionDataPoint| self.delivers(point, window_start, window_end),
            ),
            res.through_date == (match self.cache_filled_until {
                Some(date) => if window_start.days <= date.days <= window_end.days {
                    date
                } else {
                    window_end
                },
                None => window_end,
            }),
            partition_finished(*self, stored@, fetched@, window_start, window_end, res),
            all_wf(res.points@),
            forall|i: int|
                0 <= i < res.points@.len() ==> on_readable_day(#[trigger] res.points@[i]),
    {
        let points = if stored.len() == 0 {
            fetched
        } else {
            stored
        };
        let daily_equity = self.config.resolution == Resolution::Daily
            && self.config.symbol.security_type == SecurityType::Equity;
        let mut out: Vec<SubscriptionDataPoint> = Vec::new();
        let ghost all = points@;
        let ghost keep = |point: SubscriptionDataPoint|
            self.delivers(point, window_start, window_end);
        proof {
            reveal(Seq::filter);
        }
        for point in it: points
            invariant
                it.seq() == all,
                all_wf(all),
                daily_equity == is_daily_equity(self.config),
                self.end.day() <= MAX_FEED_DAYS,
                keep == |point: SubscriptionDataPoint|
                    self.delivers(point, window_start, window_end),
                out@ =~= all.take(it.index() as int).filter(keep),
                all_wf(out@),
                forall|i: int| 0 <= i < out@.len() ==> on_readable_day(#[trigger] out@[i]),
        {
            proof {
                reveal(Seq::filter);
                assert(all[it.index() as int] == point);
                assert(all.take(it.index() + 1).drop_last() =~= all.take(it.index() as int));
                assert(all.take(it.index() + 1).last() == point);
            }
            let frontier_time = point.frontier_time();
            let bar = match &point {
                SubscriptionDataPoint::TradeBar(_) => true,
                SubscriptionDataPoint::QuoteBar(_) => true,
                _ => false,
            };
            let date = frontier_time.date_utc();
            let wanted = if daily_equity {
                bar && date.days >= window_start.days && date.days <= window_end.days
            } else {
                frontier_time.ns >= self.start.ns
            };
            if frontier_time.ns <= self.end.ns && wanted {
                proof {
                    lemma_day_monotonic(frontier_time, self.end);
                }
                out.push(point);
            }
        }
        assert(all.take(all.len() as int) =~= all);
        let through_date = match self.cache_filled_until {
            Some(date) => if window_start.days <= date.days && date.days <= window_end.days {
                date
            } else {
                window_end
            },
            None => window_end,
        };
        LoadedPartition { points: out, through_date }
    }

    /// Which way the partition at the current date is loaded.
    pub fn partition_kind(&self) -> (res: PartitionKind)
        ensures
            res == (match self.config.data_kind {
                SubscriptionDataKind::Option => PartitionKind::Option,
                SubscriptionDataKind::Market => PartitionKind::Market,
                _ => PartitionKind::Custom,
            }),
    {
        if self.config.data_kind == SubscriptionDataKind::Option {
            return PartitionKind::Option;
        }
        if self.config.data_kind != SubscriptionDataKind::Market {
            return PartitionKind::Custom;
        }
        PartitionKind::Market
    }
}

/// The ways in which a partition is loaded.
#[derive(Clone, Copy, Debug, PartialEq, Eq, Structural)]
pub enum PartitionKind {
    Market,
    Option,
    Custom,
}

/// Time spans of trade bars.
pub open spec fn trade_spans(rows: Seq<TradeBar>) -> Seq<RowSpan> {
    rows.map_values(
        |row: TradeBar| RowSpan { sid: row.symbol.sid, time: row.time, end_time: row.end_time },
    )
}

/// Time spans of quote bars.
pub open spec fn quote_spans(rows: Seq<QuoteBar>) -> Seq<RowSpan> {
    rows.map_values(
        |row: QuoteBar| RowSpan { sid: row.symbol.sid, time: row.time, end_time: row.end_time },
    )
}

/// Dates of the day numbers that the calendar holds.
fn dates_of_days(days: &Vec<i32>) -> (res: Vec<Date>)
    ensures
        forall|d: Date| #[trigger]
            res@.contains(d) <==> (days@.contains(d.days) && d.in_calendar()),
{
    let mut out: Vec<Date> = Vec::new();
    let mut i: usize = 0;
    while i < days.len()
        invariant
            i <= days@.len(),
            forall|d: Date| #[trigger]
                out@.contains(d) <==> (days@.take(i as int).contains(d.days) && d.in_calendar()),
        decreases days.len() - i,
    {
        let ghost before = out@;
        proof {
            assert(days@.take(i + 1) =~= days@.take(i as int).push(days@[i as int]));
            crate::subscription_reader::coverage::lemma_push_contains(
                days@.take(i as int),
                days@[i as int],
            );
        }
        if let Some(date) = date_from_days_since_epoch(days[i]) {
            out.push(date);
            proof {
                crate::subscription_reader::coverage::lemma_push_contains(before, date);
            }
        }
        i = i + 1;
    }
    assert(days@.take(i as int) =~= days@);
    out
}

/// Increasing lists of the same dates are equal.
proof fn lemma_increasing_unique(a: Seq<Date>, b: Seq<Date>)
    requires
        increasing(a),
        increasing(b),
        forall|d: Date| #[trigger] a.contains(d) <==> b.contains(d),
    ensures
        a == b,
    decreases a.len(),
{
    if a.len() == 0 {
        if b.len() > 0 {
            assert(b.contains(b[0]));
            assert(a.contains(b[0]));
        }
        assert(a =~= b);
    } else {
        assert(a.contains(a.last()));
        assert(b.contains(a.last()));
        assert(b.len() > 0);
        assert(b.contains(b.last()));
        assert(a.contains(b.last()));
        let i = choose|i: int| 0 <= i < b.len() && b[i] == a.last();
        let j = choose|j: int| 0 <= j < a.len() && a[j] == b.last();
        if i < b.len() - 1 {
            assert(b[i].days < b[b.len() - 1].days);
            if j < a.len() - 1 {
                assert(a[j].days < a[a.len() - 1].days);
            }
        }
        assert(a.last() == b.last());
        let ah = a.drop_last();
        let bh = b.drop_last();
        assert(increasing(ah)) by {
            assert forall|x: int, y: int| 0 <= x < y < ah.len() implies (#[trigger] ah[x]).days < (
            #[trigger] ah[y]).days by {
                assert(a[x].days < a[y].days);
            }
        }
        assert(increasing(bh)) by {
            assert forall|x: int, y: int| 0 <= x < y < bh.len() implies (#[trigger] bh[x]).days < (
            #[trigger] bh[y]).days by {
                assert(b[x].days < b[y].days);
            }
        }
        assert forall|d: Date| #[trigger] ah.contains(d) <==> bh.contains(d) by {
            if ah.contains(d) {
                let k = choose|k: int| 0 <= k < ah.len() && ah[k] == d;
                assert(a[k] == d);
                assert(a[k].days < a[a.len() - 1].days);
                assert(a.contains(d));
                let m = choose|m: int| 0 <= m < b.len() && b[m] == d;
                assert(bh[m] == d);
            }
            if bh.contains(d) {
                let k = choose|k: int| 0 <= k < bh.len() && bh[k] == d;
                assert(b[k] == d);
                assert(b[k].days < b[b.len() - 1].days);
                assert(b.contains(d));
                assert(a.contains(d));
                let m = choose|m: int| 0 <= m < a.len() && a[m] == d;
                assert(ah[m] == d);
            }
        }
        lemma_increasing_unique(ah, bh);
        assert(a =~= ah.push(a.last()));
        assert(b =~= bh.push(b.last()));
    }
}

/// A stream delivers nothing from outside its period: no point after its end, and
/// none before its start. Of daily equity bars, which become known at the end of
/// a session, the day counts.
pub proof fn law_points_lie_within_the_period(
    state: SubscriptionProducerState,
    point: SubscriptionDataPoint,
)
    requires
        state.dates_wf(),
        state.partition_date.days <= state.window().1.days,
        state.delivers(point, state.window().0, state.window().1),
    ensures
        point.frontier().ns <= state.end.ns,
        if is_daily_equity(state.config) {
            point.frontier().day() >= state.start.day()
        } else {
            point.frontier().ns >= state.start.ns
        },
{
}

/// Ticks are kept in their own table; bars are kept apart by what they are made of.
pub proof fn law_each_kind_of_row_has_its_table(tick_type: TickType, resolution: Resolution)
    ensures
        table_of(Resolution::Tick, tick_type) == MarketTable::Ticks,
        resolution != Resolution::Tick ==> table_of(resolution, TickType::Quote)
            == MarketTable::QuoteBars,
        resolution != Resolution::Tick ==> table_of(resolution, TickType::Trade)
            == MarketTable::TradeBars,
{
}

/// What is asked of a provider is what the table of the subscription holds.
pub proof fn law_provider_is_asked_for_the_kept_rows(state: SubscriptionProducerState)
    ensures
        match table_of(state.config.resolution, state.config.tick_type) {
            MarketTable::Ticks => state.wanted_rows() == DataType::Tick,
            MarketTable::QuoteBars => state.wanted_rows() == DataType::QuoteBar,
            MarketTable::TradeBars => state.wanted_rows() == DataType::TradeBar,
        },
{
}

/// A date is worth caching only within the window and the run, on a trading day of
/// an equity, and not before any row can exist.
pub proof fn law_cacheable_dates(
    state: SubscriptionProducerState,
    date: Date,
    window_start: Date,
    window_end: Date,
)
    ensures
        state.is_cacheable(date, window_start, window_end) <==> {
            &&& is_expected_date(
                date.days as int,
                window_start,
                window_end,
                state.end_partition_date,
                Some(&state.exchange_hours),
                state.config.symbol.security_type,
            )
            &&& state.provider_earliest_date matches Some(first) ==> first.days <= date.days
        },
{
    assert(Date { days: date.days as int as i32 } == date);
}

/// What is stored makes a fetch unnecessary only if nothing that can be fetched is
/// missing: where days are looked at, every expected date has its partition.
pub proof fn law_stored_partitions_that_spare_a_fetch(
    state: SubscriptionProducerState,
    expected: Seq<Date>,
    days: Vec<i32>,
    k: int,
)
    requires
        state.local_window_suffices(expected, LocalWindowRows::PartitionDays(days)),
        0 <= k < expected.len(),
    ensures
        days@.contains(expected[k].days),
{
}

/// Fetched rows fill the cache up to the first date that should have a row and has
/// none: every expected date up to there is covered, and the next one is not. More
/// rows never fill less.
pub proof fn law_cache_is_filled_up_to_the_first_gap(
    state: SubscriptionProducerState,
    spans: Seq<RowSpan>,
    window_start: Date,
    window_end: Date,
    last: Date,
    date: Date,
)
    requires
        state.filled_by(spans, window_start, window_end, Some(last)),
    ensures
        window_start.days <= last.days <= window_end.days,
        last.days <= state.end_partition_date.days,
        state.is_cacheable(date, window_start, window_end) && date.days <= last.days
            ==> exists|i: int|
            0 <= i < spans.len() && fetched_coverage_date(
                (#[trigger] spans[i]).time,
                spans[i].end_time,
                window_start,
            ) == date,
        last.days < window_end.days && last.days < state.end_partition_date.days
            ==> exists|gap: Date| #[trigger]
            state.is_cacheable(gap, window_start, window_end) && gap.days == last.days + 1
                && forall|i: int|
                0 <= i < spans.len() ==> fetched_coverage_date(
                    (#[trigger] spans[i]).time,
                    spans[i].end_time,
                    window_start,
                ) != gap,
{
    if last.days < window_end.days && last.days < state.end_partition_date.days {
        assert(!state.no_gap_through(spans, window_start, window_end, last.days + 1));
        let gap = choose|d: Date|
            d.days <= last.days + 1 && #[trigger] state.is_cacheable(d, window_start, window_end)
                && !(exists|i: int|
                0 <= i < spans.len() && fetched_coverage_date(
                    (#[trigger] spans[i]).time,
                    spans[i].end_time,
                    window_start,
                ) == d);
        assert(gap.days == last.days + 1) by {
            if gap.days <= last.days {
                assert(state.no_gap_through(spans, window_start, window_end, last.days as int));
            }
        }
    }
}

/// The scan of the store for a window is of the subscribed security and reaches over
/// all of the window; daily rows are looked for one day further on either side.
pub proof fn law_scan_reaches_over_the_window(
    state: SubscriptionProducerState,
    window_start: Date,
    window_end: Date,
)
    requires
        MIN_FEED_DAYS - 1 <= window_start.days <= MAX_FEED_DAYS,
        MIN_FEED_DAYS - 1 <= window_end.days <= MAX_FEED_DAYS,
    ensures
        ({
            let query = state.stored_query(window_start, window_end);
            let daily = state.config.resolution == Resolution::Daily;
            let margin = if daily {
                1int
            } else {
                0int
            };
            &&& query.sid == state.config.symbol.sid
            &&& query.day_start.day() == window_start.days - margin
            &&& query.day_start.tod() == 0
            &&& query.day_end.day() == window_end.days + margin
            &&& query.day_end.tod() == 86_399_000_000_000
            &&& query.by_time <==> state.config.resolution == Resolution::Tick
            &&& query.limit_bars <==> !daily && state.config.resolution != Resolution::Tick
        }),
{
    crate::time::law_clock_reads_back(window_start.days as int, 0);
    crate::time::law_clock_reads_back(window_end.days as int, 86_399);
    crate::time::law_clock_reads_back(window_start.days - 1, 0);
    crate::time::law_clock_reads_back(window_end.days + 1, 86_399);
}

/// The span of a bar is that of the bar, row by row.
pub proof fn law_spans_are_those_of_the_bars(
    bars: Seq<TradeBar>,
    quotes: Seq<QuoteBar>,
    i: int,
)
    ensures
        trade_spans(bars).len() == bars.len(),
        quote_spans(quotes).len() == quotes.len(),
        0 <= i < bars.len() ==> trade_spans(bars)[i].time == bars[i].time && trade_spans(
            bars,
        )[i].end_time == bars[i].end_time && trade_spans(bars)[i].sid == bars[i].symbol.sid,
        0 <= i < quotes.len() ==> quote_spans(quotes)[i].time == quotes[i].time && quote_spans(
            quotes,
        )[i].end_time == quotes[i].end_time && quote_spans(quotes)[i].sid == quotes[i].symbol.sid,
{
}

/// A tick belongs to a window if it is of the subscribed security and happened on one
/// of the days of the window.
pub proof fn law_ticks_of_a_window(
    state: SubscriptionProducerState,
    tick: Tick,
    window_start: Date,
    window_end: Date,
)
    requires
        window_start.on_clock(),
        window_end.on_clock(),
    ensures
        state.tick_in_window(tick, window_start, window_end) ==> tick.symbol.sid
            == state.config.symbol.sid && window_start.days <= tick.time.day() <= window_end.days,
        tick.symbol.sid == state.config.symbol.sid && window_start.days <= tick.time.day()
            < window_end.days ==> state.tick_in_window(tick, window_start, window_end),
{
    crate::subscription_reader::window::law_window_holds_its_days(
        tick.time,
        window_start,
        window_end,
    );
}

/// Every point of the period is delivered: one that becomes known between the start and the
/// end of the run, and of daily equity bars one whose day lies in the window.
pub proof fn law_every_point_of_the_period_is_delivered(
    state: SubscriptionProducerState,
    point: SubscriptionDataPoint,
    window_start: Date,
    window_end: Date,
)
    requires
        point.frontier().ns <= state.end.ns,
    ensures
        !(state.config.resolution == Resolution::Daily && state.config.symbol.security_type
            == SecurityType::Equity) && point.frontier().ns >= state.start.ns ==> state.delivers(
            point,
            window_start,
            window_end,
        ),
        state.config.resolution == Resolution::Daily && state.config.symbol.security_type
            == SecurityType::Equity && (point is TradeBar || point is QuoteBar) && window_start.days
            <= point.frontier().day() && point.frontier().day() <= window_end.days
            ==> state.delivers(point, window_start, window_end),
{
}

/// A window counts as filled where the cache reaches over the date that is read.
pub proof fn law_filled_windows_are_not_fetched(state: SubscriptionProducerState)
    ensures
        state.cache_filled_until is None ==> !state.filled_here(),
        state.cache_filled_until matches Some(date) ==> (state.filled_here() <==> date.days
            >= state.partition_date.days),
{
}

/// Whether a request asks for the rows of a window.
pub open spec fn asks_for_window(
    state: SubscriptionProducerState,
    request: HistoryRequest,
    window_start: Date,
    window_end: Date,
) -> bool {
    &&& request.symbol == state.config.symbol
    &&& request.resolution == state.config.resolution
    &&& request.start.ns == clock_ns(window_start.days as int, 0)
    &&& request.end.ns == clock_ns(window_end.days as int, 86_399)
    &&& request.data_type == state.wanted_rows()
}

/// A provider is asked for the subscribed security, at its resolution, from the first
/// instant of the window to the last second of its last day.
pub proof fn law_provider_is_asked_for_the_window(
    state: SubscriptionProducerState,
    request: HistoryRequest,
    window_start: Date,
    window_end: Date,
)
    requires
        asks_for_window(state, request, window_start, window_end),
    ensures
        request.symbol.sid == state.config.symbol.sid,
        request.resolution == state.config.resolution,
        request.start.day() == window_start.days && request.start.tod() == 0,
        request.end.day() == window_end.days && request.end.tod() == 86_399_000_000_000,
        state.config.resolution == Resolution::Tick ==> request.data_type == DataType::Tick,
        state.config.resolution != Resolution::Tick && state.config.tick_type == TickType::Quote
            ==> request.data_type == DataType::QuoteBar,
        state.config.resolution != Resolution::Tick && state.config.tick_type == TickType::Trade
            ==> request.data_type == DataType::TradeBar,
{
    crate::time::law_clock_reads_back(window_start.days as int, 0);
    crate::time::law_clock_reads_back(window_end.days as int, 86_399);
}

/// Whether requests are those for the data that come with the rows of a request.
pub open spec fn are_derived(base: HistoryRequest, derived: DerivedRequests) -> bool {
    &&& derived.contexts == (HistoryRequest {
        data_type: DataType::PerpetualContext,
        resolution: Resolution::Minute,
        ..base
    })
    &&& derived.margin_rates == (HistoryRequest {
        data_type: DataType::MarginInterestRate,
        resolution: Resolution::Hour,
        ..base
    })
    &&& derived.open_interest == (HistoryRequest {
        data_type: DataType::OpenInterest,
        resolution: Resolution::Minute,
        ..base
    })
}

/// What comes with the rows of a crypto future is asked for the same security and the same
/// time: contexts and open interest by the minute, rates by the hour.
pub proof fn law_derived_data_are_of_the_same_time(base: HistoryRequest, derived: DerivedRequests)
    requires
        are_derived(base, derived),
    ensures
        derived.contexts.symbol == base.symbol,
        derived.margin_rates.symbol == base.symbol,
        derived.open_interest.symbol == base.symbol,
        derived.contexts.start == base.start && derived.contexts.end == base.end,
        derived.margin_rates.start == base.start && derived.margin_rates.end == base.end,
        derived.open_interest.start == base.start && derived.open_interest.end == base.end,
        derived.contexts.data_type == DataType::PerpetualContext,
        derived.margin_rates.data_type == DataType::MarginInterestRate,
        derived.open_interest.data_type == DataType::OpenInterest,
        derived.contexts.resolution == derived.open_interest.resolution,
        derived.margin_rates.resolution == Resolution::Hour,
{
}

/// Fetched rows fill nothing only where the first date of the window should have a row and
/// has none, or the window lies after the run.
pub proof fn law_nothing_is_filled_before_the_first_row(
    state: SubscriptionProducerState,
    spans: Seq<RowSpan>,
    window_start: Date,
    window_end: Date,
    i: int,
)
    requires
        state.filled_by(spans, window_start, window_end, None),
        window_start.days <= window_end.days,
        window_start.days <= state.end_partition_date.days,
    ensures
        state.is_cacheable(window_start, window_start, window_end),
        0 <= i < spans.len() ==> fetched_coverage_date(
            spans[i].time,
            spans[i].end_time,
            window_start,
        ) != window_start,
{
    assert(!state.no_gap_through(spans, window_start, window_end, window_start.days as int));
    let d = choose|d: Date|
        d.days <= window_start.days && #[trigger] state.is_cacheable(d, window_start, window_end)
            && !(exists|k: int|
            0 <= k < spans.len() && fetched_coverage_date(
                (#[trigger] spans[k]).time,
                spans[k].end_time,
                window_start,
            ) == d);
    assert(d == window_start);
}

/// What the store holds is judged by what it is: partitions by their days, quote bars by
/// their coverage of every date, trade bars by their coverage from the first to the last.
/// Without an expected date nothing is missing.
pub proof fn law_stored_rows_are_judged_by_kind(
    state: SubscriptionProducerState,
    expected: Seq<Date>,
    days: Vec<i32>,
    spans: Vec<RowSpan>,
)
    ensures
        expected.len() == 0 ==> state.local_window_suffices(
            expected,
            LocalWindowRows::PartitionDays(days),
        ) && state.local_window_suffices(expected, LocalWindowRows::DailyTrades(spans))
            && state.local_window_suffices(expected, LocalWindowRows::DailyQuotes(spans)),
        (forall|i: int| 0 <= i < expected.len() ==> days@.contains((#[trigger] expected[i]).days))
            ==> state.local_window_suffices(expected, LocalWindowRows::PartitionDays(days)),
        expected.len() > 0 ==> state.local_window_suffices(
            expected,
            LocalWindowRows::DailyQuotes(spans),
        ) == quote_rows_suffice(spans@, expected),
        expected.len() > 0 ==> state.local_window_suffices(
            expected,
            LocalWindowRows::DailyTrades(spans),
        ) == trade_rows_suffice(spans@, expected),
{
}

/// What a partition holds and how far it reaches.
pub open spec fn partition_finished(
    state: SubscriptionProducerState,
    stored: Seq<SubscriptionDataPoint>,
    fetched: Seq<SubscriptionDataPoint>,
    window_start: Date,
    window_end: Date,
    loaded: LoadedPartition,
) -> bool {
    let deliver = |point: SubscriptionDataPoint| state.delivers(point, window_start, window_end);
    &&& loaded.points@ == (if stored.len() > 0 {
        stored.filter(deliver)
    } else {
        fetched.filter(deliver)
    })
    &&& match state.cache_filled_until {
        Some(date) if window_start.days <= date.days && date.days <= window_end.days =>
        loaded.through_date == date,
        _ => loaded.through_date == window_end,
    }
}

/// What is stored comes before what was fetched, and either is delivered as it is, in its
/// order: nothing is added, and nothing of the period is left out. A partition reaches to
/// the end of its window, or as far as the cache is filled within it.
pub proof fn law_stored_rows_come_first(
    state: SubscriptionProducerState,
    stored: Seq<SubscriptionDataPoint>,
    fetched: Seq<SubscriptionDataPoint>,
    window_start: Date,
    window_end: Date,
    loaded: LoadedPartition,
    k: int,
)
    requires
        partition_finished(state, stored, fetched, window_start, window_end, loaded),
        window_start.days <= window_end.days,
    ensures
        0 <= k < loaded.points@.len() ==> {
            &&& stored.len() > 0 ==> stored.contains(loaded.points@[k])
            &&& stored.len() == 0 ==> fetched.contains(loaded.points@[k])
            &&& state.delivers(loaded.points@[k], window_start, window_end)
        },
        window_start.days <= loaded.through_date.days <= window_end.days,
        state.cache_filled_until is None ==> loaded.through_date == window_end,
        stored.len() == 0 && fetched.len() == 0 ==> loaded.points@.len() == 0,
{
    let deliver = |point: SubscriptionDataPoint| state.delivers(point, window_start, window_end);
    let source = if stored.len() > 0 {
        stored
    } else {
        fetched
    };
    if 0 <= k < loaded.points@.len() {
        crate::subscription_reader::coverage::lemma_filter_index(source, deliver, k);
    }
    reveal(Seq::filter);
}

} // verus!
