//! Option chains of a subscription.

use crate::decimal::Decimal;
use crate::model::{
    DataType, ExchangeHours, HistoryRequest, OptionChainSubscriptionMetadata, Resolution, TradeBar,
};
use crate::options_service::{last_close, underlying_price_from_bars, OptionChain};
use crate::subscription_data::SubscriptionDataPoint;
use crate::subscription_reader::coverage::equity_daily_frontier;
use crate::subscription_reader::producer::{SubscriptionProducerState, MAX_FEED_DAYS, MIN_FEED_DAYS};
use crate::subscription_reader::window::{
    daily_market_query_params, daily_query, increasing, partition_day_end, partition_day_start,
    QueryParams,
};
use crate::text::{ascii_upper, to_ascii_uppercase};
use crate::time::{clock_ns, Date, DateTime};
use std::sync::Arc;
use vstd::prelude::*;
use vstd::string::*;

verus! {

/// First step of loading an option partition.
pub enum OptionStep {
    /// Nothing is read through a date.
    Empty { through_date: Date },
    /// Read the rows of each of these days, through the end of the window.
    Days { dates: Vec<Date>, through_date: Date },
}

/// Where the end-of-day rows of one date come from.
#[derive(Clone, Copy, Debug, PartialEq, Eq, Structural)]
pub enum EodRowSource {
    /// The store has rows.
    Store,
    /// Ask the provider, and store what it has.
    Provider,
    /// There are none.
    Nothing,
}

/// Decides where end-of-day rows come from once the store was read.
pub fn eod_row_source(stored_rows: usize, has_history_provider: bool) -> (res: EodRowSource)
    ensures
        res == (if stored_rows > 0 {
            EodRowSource::Store
        } else if has_history_provider {
            EodRowSource::Provider
        } else {
            EodRowSource::Nothing
        }),
{
    if stored_rows > 0 {
        return EodRowSource::Store;
    }
    if !has_history_provider {
        return EodRowSource::Nothing;
    }
    EodRowSource::Provider
}

/// How the price of the underlying of a chain is found.
pub struct UnderlyingPriceRequest {
    /// Scan of the store that comes first.
    pub query: QueryParams,
    /// Request to the provider where the store has no bar.
    pub request: HistoryRequest,
}

impl SubscriptionProducerState {
    /// Whether the market of the underlying trades on a date; a chain without
    /// an underlying is read on every date.
    pub open spec fn chain_opens_on(&self, underlying_hours: ExchangeHours, date: Date) -> bool {
        self.config.symbol.underlying is Some ==> underlying_hours.opens_on(date)
    }

    pub fn option_chain_market_is_open(&self, underlying_hours: &ExchangeHours, date: Date) -> (res:
        bool)
        ensures
            res == self.chain_opens_on(*underlying_hours, date),
    {
        if self.config.symbol.underlying.is_none() {
            return true;
        }
        underlying_hours.is_open_on(date)
    }

    /// Decides which days of chains a partition reads: the trading days of the
    /// window. Only daily subscriptions to a chain read any.
    pub fn begin_option_partition(&self, underlying_hours: &ExchangeHours) -> (res: OptionStep)
        requires
            self.dates_wf(),
            self.config.option_chain is Some && self.config.resolution == Resolution::Daily
                ==> self.window_readable(),
        ensures
            if self.config.option_chain is None || self.config.resolution != Resolution::Daily {
                res == (OptionStep::Empty { through_date: self.partition_date })
            } else {
                &&& res matches OptionStep::Days { dates, through_date } && {
                    &&& through_date == self.window().1
                    &&& MIN_FEED_DAYS - 1 <= self.window().0.days
                    &&& MIN_FEED_DAYS - 1 <= through_date.days <= MAX_FEED_DAYS
                    &&& increasing(dates@)
                    &&& forall|d: Date| #[trigger]
                        dates@.contains(d) <==> (self.window().0.days <= d.days
                            <= self.window().1.days && self.chain_opens_on(*underlying_hours, d))
                }
            },
    {
        if self.config.option_chain.is_none() {
            return OptionStep::Empty { through_date: self.partition_date };
        }
        if self.config.resolution != Resolution::Daily {
            return OptionStep::Empty { through_date: self.partition_date };
        }
        let (window_start, window_end) = self.cache_fill_window();
        let mut dates: Vec<Date> = Vec::new();
        let mut date = window_start;
        while date.days <= window_end.days
            invariant
                window_start.days <= date.days,
                date.days <= window_end.days + 1 || date == window_start,
                window_end.days <= MAX_FEED_DAYS,
                increasing(dates@),
                forall|i: int| 0 <= i < dates@.len() ==> (#[trigger] dates@[i]).days < date.days,
                forall|d: Date| #[trigger]
                    dates@.contains(d) <==> (window_start.days <= d.days < date.days
                        && self.chain_opens_on(*underlying_hours, d)),
            decreases window_end.days + 1 - date.days,
        {
            let ghost before = dates@;
            if self.option_chain_market_is_open(underlying_hours, date) {
                proof {
                    crate::subscription_reader::coverage::lemma_push_contains(before, date);
                }
                dates.push(date);
            }
            date = Date { days: date.days + 1 };
        }
        OptionStep::Days { dates, through_date: window_end }
    }

    /// Ticker under which end-of-day rows are stored.
    pub fn option_row_ticker(metadata: &OptionChainSubscriptionMetadata) -> (res: String)
        ensures
            res@ == ascii_upper(metadata.underlying_ticker@),
    {
        to_ascii_uppercase(metadata.underlying_ticker.as_str())
    }

    /// What is asked for the price of the underlying on a date; a chain without
    /// an underlying has no price.
    pub fn underlying_price_request(&self, date: Date) -> (res: Option<UnderlyingPriceRequest>)
        requires
            MIN_FEED_DAYS - 1 <= date.days <= MAX_FEED_DAYS,
        ensures
            res == (match self.config.symbol.underlying {
                Some(underlying) => Some(
                    UnderlyingPriceRequest {
                        query: daily_query(underlying.sid, date, date),
                        request: HistoryRequest {
                            symbol: *underlying,
                            resolution: Resolution::Daily,
                            start: DateTime { ns: clock_ns(date.days as int, 0) as i64 },
                            end: DateTime { ns: clock_ns(date.days as int, 86_399) as i64 },
                            data_type: DataType::TradeBar,
                        },
                    },
                ),
                None => None,
            }),
            is_price_request(*self, date, res),
    {
        match &self.config.symbol.underlying {
            Some(underlying) => Some(
                UnderlyingPriceRequest {
                    query: daily_market_query_params(underlying.sid, date, date),
                    request: HistoryRequest {
                        symbol: underlying.duplicate(),
                        resolution: Resolution::Daily,
                        start: partition_day_start(date),
                        end: partition_day_end(date),
                        data_type: DataType::TradeBar,
                    },
                },
            ),
            None => None,
        }
    }

    /// Price of the underlying from the stored bars, or from the fetched ones
    /// where the store has none; zero if it is unknown.
    pub fn underlying_price_for_option_chain(&self, stored: &Vec<TradeBar>, fetched: &Vec<TradeBar>) -> (res:
        Decimal)
        ensures
            res == (match self.config.symbol.underlying {
                Some(underlying) => last_close(
                    if stored@.len() == 0 {
                        fetched@
                    } else {
                        stored@
                    },
                    underlying.sid,
                ),
                None => Decimal::spec_zero(),
            }),
            is_underlying_price(*self, stored@, fetched@, res),
    {
        if stored.len() == 0 {
            underlying_price_from_bars(&self.config.symbol, fetched)
        } else {
            underlying_price_from_bars(&self.config.symbol, stored)
        }
    }

    /// The point that a chain becomes: known at the close of its date.
    pub fn option_chain_point(
        metadata: &OptionChainSubscriptionMetadata,
        date: Date,
        chain: OptionChain,
    ) -> (res: SubscriptionDataPoint)
        requires
            date.on_clock(),
        ensures
            res.wf(),
            res matches SubscriptionDataPoint::OptionChain {
                canonical_permtick,
                chain: held,
                frontier_time,
            } && {
                &&& canonical_permtick@ == metadata.canonical_permtick@
                &&& *held == chain
                &&& frontier_time.ns == clock_ns(date.days as int, 57_600)
                &&& frontier_time.day() == date.days
            },
            is_chain_point(*metadata, date, chain, res),
    {
        SubscriptionDataPoint::OptionChain {
            canonical_permtick: metadata.canonical_permtick.clone(),
            chain: Arc::new(chain),
            frontier_time: equity_daily_frontier(date),
        }
    }
}

/// A chain is read on the days on which the market of its underlying trades; one without
/// an underlying on every day.
pub proof fn law_chains_are_read_on_trading_days(
    state: SubscriptionProducerState,
    hours: ExchangeHours,
    date: Date,
)
    ensures
        state.config.symbol.underlying is None ==> state.chain_opens_on(hours, date),
        state.config.symbol.underlying is Some ==> (state.chain_opens_on(hours, date)
            <==> hours.open_dates@.contains(date)),
{
}

/// Whether a request asks for the price of the underlying on a date.
pub open spec fn is_price_request(
    state: SubscriptionProducerState,
    date: Date,
    asked: Option<UnderlyingPriceRequest>,
) -> bool {
    match state.config.symbol.underlying {
        None => asked is None,
        Some(underlying) => asked matches Some(asked) && {
            &&& asked.query == daily_query(underlying.sid, date, date)
            &&& asked.request.symbol == *underlying
            &&& asked.request.resolution == Resolution::Daily
            &&& asked.request.data_type == DataType::TradeBar
            &&& asked.request.start.ns == clock_ns(date.days as int, 0) as i64
            &&& asked.request.end.ns == clock_ns(date.days as int, 86_399) as i64
        },
    }
}

/// The price of the underlying is that of the underlying security itself, and it is asked for
/// on the date of the chain: from its first second to its last. The scan of the store reaches
/// one day further on either side.
pub proof fn law_underlying_is_priced_on_the_day(
    state: SubscriptionProducerState,
    date: Date,
    asked: Option<UnderlyingPriceRequest>,
)
    requires
        is_price_request(state, date, asked),
        MIN_FEED_DAYS - 1 <= date.days <= MAX_FEED_DAYS,
    ensures
        asked is Some <==> state.config.symbol.underlying is Some,
        asked matches Some(asked) ==> {
            &&& Some(asked.request.symbol.sid) == (match state.config.symbol.underlying {
                Some(underlying) => Some(underlying.sid),
                None => None,
            })
            &&& asked.query.sid == asked.request.symbol.sid
            &&& asked.request.start.day() == date.days
            &&& asked.request.end.day() == date.days
            &&& asked.request.start.tod() == 0
            &&& asked.request.end.ns - asked.request.start.ns == 86_399_000_000_000
            &&& asked.query.day_start.ns < asked.request.start.ns
            &&& asked.query.day_end.ns > asked.request.end.ns
            &&& asked.request.data_type == DataType::TradeBar
            &&& asked.request.resolution == Resolution::Daily
        },
{
    let days = date.days as int;
    crate::time::law_clock_reads_back(days, 0);
    crate::time::law_clock_reads_back(days, 86_399);
    crate::time::law_clock_reads_back(days - 1, 0);
    crate::time::law_clock_reads_back(days + 1, 86_399);
}

/// Whether a price is that of the underlying of a chain.
pub open spec fn is_underlying_price(
    state: SubscriptionProducerState,
    stored: Seq<TradeBar>,
    fetched: Seq<TradeBar>,
    price: Decimal,
) -> bool {
    match state.config.symbol.underlying {
        None => price == Decimal::spec_zero(),
        Some(underlying) => {
            &&& stored.len() > 0 ==> price == last_close(stored, underlying.sid)
            &&& stored.len() == 0 ==> price == last_close(fetched, underlying.sid)
        },
    }
}

/// The price of the underlying is the close of its last bar, stored bars coming before
/// fetched ones. Without a bar it is zero.
pub proof fn law_underlying_price_is_its_last_close(
    state: SubscriptionProducerState,
    stored: Seq<TradeBar>,
    fetched: Seq<TradeBar>,
    price: Decimal,
    bars: Seq<TradeBar>,
    bar: TradeBar,
)
    requires
        is_underlying_price(state, stored, fetched, price),
        state.config.symbol.underlying matches Some(underlying) ==> bar.symbol.sid
            == underlying.sid,
    ensures
        state.config.symbol.underlying is Some && stored == bars.push(bar) ==> price == bar.close,
        state.config.symbol.underlying is Some && stored.len() == 0 && fetched == bars.push(bar)
            ==> price == bar.close,
        state.config.symbol.underlying is None ==> price == Decimal::spec_zero(),
        stored.len() == 0 && fetched.len() == 0 ==> price == Decimal::spec_zero(),
{
    assert(bars.push(bar).drop_last() =~= bars);
    assert(bars.push(bar).last() == bar);
}

/// Whether a point carries a chain.
pub open spec fn is_chain_point(
    metadata: OptionChainSubscriptionMetadata,
    date: Date,
    chain: OptionChain,
    point: SubscriptionDataPoint,
) -> bool {
    point matches SubscriptionDataPoint::OptionChain {
        canonical_permtick,
        chain: held,
        frontier_time,
    } && canonical_permtick@ == metadata.canonical_permtick@ && *held == chain && frontier_time.ns
        == clock_ns(date.days as int, 57_600)
}

/// A chain is delivered as it was built, under its own ticker, and is known at four in the
/// afternoon of its date and not before.
pub proof fn law_chains_are_known_at_the_close(
    metadata: OptionChainSubscriptionMetadata,
    date: Date,
    chain: OptionChain,
    point: SubscriptionDataPoint,
)
    requires
        is_chain_point(metadata, date, chain, point),
    ensures
        point.frontier().day() == date.days,
        point.frontier().tod() == 16 * 3_600_000_000_000,
        point matches SubscriptionDataPoint::OptionChain { canonical_permtick, chain: held, .. }
            ==> *held == chain && canonical_permtick@ == metadata.canonical_permtick@,
{
    crate::time::law_clock_reads_back(date.days as int, 57_600);
}

} // verus!
