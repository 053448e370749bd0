//! Securities, subscriptions and market data.

use crate::decimal::Decimal;
use crate::name_map::NameMap;
use crate::time::{Date, DateTime};
use vstd::prelude::*;

verus! {

#[derive(Clone, Copy, Debug, PartialEq, Eq, Hash, Structural)]
pub enum SecurityType {
    Base,
    Equity,
    Option,
    Commodity,
    Forex,
    Future,
    Cfd,
    Crypto,
    FutureOption,
    Index,
    IndexOption,
    CryptoFuture,
}

#[derive(Clone, Copy, Debug, PartialEq, Eq, Hash, Structural)]
pub enum Resolution {
    Tick,
    Second,
    Minute,
    Hour,
    Daily,
}

#[derive(Clone, Copy, Debug, PartialEq, Eq, Hash, Structural)]
pub enum TickType {
    Trade,
    Quote,
    OpenInterest,
}

#[derive(Clone, Copy, Debug, PartialEq, Eq, Hash, Structural)]
pub enum DataNormalizationMode {
    Raw,
    Adjusted,
    SplitAdjusted,
    TotalReturn,
    ForwardPanamaCanal,
    BackwardPanamaCanal,
}

/// What a subscription delivers.
#[derive(Clone, Copy, Debug, PartialEq, Eq, Hash, Structural)]
pub enum SubscriptionDataKind {
    Market,
    Option,
    Custom,
    Universe,
}

/// Kind of rows asked of a history provider.
#[derive(Clone, Copy, Debug, PartialEq, Eq, Hash, Structural)]
pub enum DataType {
    TradeBar,
    QuoteBar,
    Tick,
    PerpetualContext,
    MarginInterestRate,
    OpenInterest,
}

impl Resolution {
    pub fn is_tick(self) -> (res: bool)
        ensures
            res == (self == Resolution::Tick),
    {
        self == Resolution::Tick
    }

    /// Nanoseconds covered by one bar; ticks have no period.
    pub open spec fn span(self) -> Option<i64> {
        match self {
            Resolution::Tick => None,
            Resolution::Second => Some(1_000_000_000),
            Resolution::Minute => Some(60_000_000_000),
            Resolution::Hour => Some(3_600_000_000_000),
            Resolution::Daily => Some(86_400_000_000_000),
        }
    }

    /// Nanoseconds covered by one bar; ticks have no period.
    pub fn to_time_span(self) -> (res: Option<i64>)
        ensures
            res == self.span(),
    {
        match self {
            Resolution::Tick => None,
            Resolution::Second => Some(1_000_000_000),
            Resolution::Minute => Some(60_000_000_000),
            Resolution::Hour => Some(3_600_000_000_000),
            Resolution::Daily => Some(86_400_000_000_000),
        }
    }
}

/// A security. `sid` identifies it: two symbols with one `sid` are one security.
pub struct Symbol {
    pub sid: u64,
    pub security_type: SecurityType,
    pub market: String,
    pub value: String,
    pub permtick: String,
    pub underlying: Option<Box<Symbol>>,
}

impl Symbol {
    /// An equal copy.
    pub fn duplicate(&self) -> (res: Symbol)
        ensures
            res == *self,
        decreases *self,
    {
        let underlying = match &self.underlying {
            Some(symbol) => Some(Box::new(symbol.duplicate())),
            None => None,
        };
        Symbol {
            sid: self.sid,
            security_type: self.security_type,
            market: self.market.clone(),
            value: self.value.clone(),
            permtick: self.permtick.clone(),
            underlying,
        }
    }
}

/// Trading sessions of an exchange, as far as a run reads them.
pub struct ExchangeHours {
    /// Local dates on which the market is open at midday.
    pub open_dates: Vec<Date>,
    /// Half-open UTC intervals during which the market is open.
    pub sessions: Vec<(DateTime, DateTime)>,
}

impl ExchangeHours {
    /// Whether the market is open at midday of a local date.
    pub open spec fn opens_on(&self, date: Date) -> bool {
        self.open_dates@.contains(date)
    }

    /// Whether the market is open at an instant.
    pub open spec fn open_at(&self, time: DateTime) -> bool {
        exists|i: int|
            0 <= i < self.sessions@.len() && (#[trigger] self.sessions@[i]).0.ns <= time.ns
                < self.sessions@[i].1.ns
    }

    pub fn is_open_on(&self, date: Date) -> (res: bool)
        ensures
            res == self.opens_on(date),
    {
        let mut i: usize = 0;
        while i < self.open_dates.len()
            invariant
                i <= self.open_dates@.len(),
                forall|j: int| 0 <= j < i ==> self.open_dates@[j] != date,
            decreases self.open_dates.len() - i,
        {
            if self.open_dates[i] == date {
                return true;
            }
            i = i + 1;
        }
        false
    }

    pub fn is_open_at(&self, time: DateTime) -> (res: bool)
        ensures
            res == self.open_at(time),
    {
        let mut i: usize = 0;
        while i < self.sessions.len()
            invariant
                i <= self.sessions@.len(),
                forall|j: int|
                    0 <= j < i ==> !((#[trigger] self.sessions@[j]).0.ns <= time.ns
                        < self.sessions@[j].1.ns),
            decreases self.sessions.len() - i,
        {
            if self.sessions[i].0.ns <= time.ns && time.ns < self.sessions[i].1.ns {
                return true;
            }
            i = i + 1;
        }
        false
    }
}

/// One bar of trades.
pub struct TradeBar {
    pub symbol: Symbol,
    pub time: DateTime,
    pub end_time: DateTime,
    pub open: Decimal,
    pub high: Decimal,
    pub low: Decimal,
    pub close: Decimal,
    pub volume: Decimal,
    /// Nanoseconds that the bar covers.
    pub period: i64,
}

/// Open, high, low and close of one side of a quote.
#[derive(Clone, Copy, Debug, PartialEq, Eq, Structural)]
pub struct Bar {
    pub open: Decimal,
    pub high: Decimal,
    pub low: Decimal,
    pub close: Decimal,
}

/// One bar of quotes.
pub struct QuoteBar {
    pub symbol: Symbol,
    pub time: DateTime,
    pub end_time: DateTime,
    pub bid: Option<Bar>,
    pub ask: Option<Bar>,
    pub last_bid_size: Decimal,
    pub last_ask_size: Decimal,
    /// Nanoseconds that the bar covers.
    pub period: i64,
}

/// One trade, quote or open-interest print.
pub struct Tick {
    pub symbol: Symbol,
    pub time: DateTime,
    pub tick_type: TickType,
    pub value: Decimal,
    pub quantity: Decimal,
    pub bid_price: Decimal,
    pub ask_price: Decimal,
    pub bid_size: Decimal,
    pub ask_size: Decimal,
    pub exchange: Option<String>,
    pub sale_condition: Option<String>,
    pub suspicious: bool,
}

impl TradeBar {
    /// An equal copy.
    pub fn duplicate(&self) -> (res: TradeBar)
        ensures
            res == *self,
    {
        TradeBar {
            symbol: self.symbol.duplicate(),
            time: self.time,
            end_time: self.end_time,
            open: self.open,
            high: self.high,
            low: self.low,
            close: self.close,
            volume: self.volume,
            period: self.period,
        }
    }
}

impl QuoteBar {
    /// An equal copy.
    pub fn duplicate(&self) -> (res: QuoteBar)
        ensures
            res == *self,
    {
        QuoteBar {
            symbol: self.symbol.duplicate(),
            time: self.time,
            end_time: self.end_time,
            bid: self.bid,
            ask: self.ask,
            last_bid_size: self.last_bid_size,
            last_ask_size: self.last_ask_size,
            period: self.period,
        }
    }
}

/// A field of a custom data row. Only text is compared by the engine.
pub enum FieldValue {
    Text(String),
    /// Any other value, as JSON.
    Json(String),
}

/// One row of a custom data source.
pub struct CustomDataPoint {
    pub time: Date,
    pub end_time: Option<DateTime>,
    pub value: Decimal,
    pub fields: NameMap<FieldValue>,
}

/// Row filter of a custom subscription.
pub struct CustomDataQuery {
    pub symbols: Option<Vec<String>>,
    pub string_equals: NameMap<String>,
    pub string_in: NameMap<Vec<String>>,
    pub start_date: Option<Date>,
    pub end_date: Option<Date>,
}

/// Static configuration of a custom subscription.
pub struct CustomDataConfig {
    pub ticker: String,
    pub source_type: String,
    pub resolution: Resolution,
    pub properties: NameMap<String>,
    pub query: CustomDataQuery,
}

/// Custom-data part of a subscription.
pub struct CustomSubscriptionMetadata {
    pub source_type: String,
    pub ticker: String,
    pub config: CustomDataConfig,
    pub dynamic_query: CustomDataQuery,
}

/// Strike and expiry limits of an option chain.
#[derive(Clone, Copy, Debug, PartialEq, Eq, Structural)]
pub struct OptionChainFilterMetadata {
    pub min_strike_rank: i32,
    pub max_strike_rank: i32,
    pub min_expiry_days: i32,
    pub max_expiry_days: i32,
}

/// Option-chain part of a subscription.
pub struct OptionChainSubscriptionMetadata {
    pub canonical_permtick: String,
    pub underlying_ticker: String,
    pub filter: OptionChainFilterMetadata,
}

/// One data subscription. `unique_id` identifies it.
pub struct SubscriptionDataConfig {
    pub unique_id: u64,
    pub symbol: Symbol,
    pub resolution: Resolution,
    pub tick_type: TickType,
    pub data_kind: SubscriptionDataKind,
    pub normalization_mode: DataNormalizationMode,
    pub fill_data_forward: bool,
    pub is_internal_feed: bool,
    pub custom: Option<CustomSubscriptionMetadata>,
    pub option_chain: Option<OptionChainSubscriptionMetadata>,
}

/// A request for historical rows.
pub struct HistoryRequest {
    pub symbol: Symbol,
    pub resolution: Resolution,
    pub start: DateTime,
    pub end: DateTime,
    pub data_type: DataType,
}

/// Bars of each resolution are made of those of the next finer one; ticks have no
/// length.
pub proof fn law_resolutions_build_on_each_other()
    ensures
        Resolution::Tick.span() is None,
        Resolution::Second.span() == Some(1_000_000_000i64),
        Resolution::Minute.span() matches Some(minute) && Resolution::Second.span() matches Some(
            second,
        ) && minute == 60 * second,
        Resolution::Hour.span() matches Some(hour) && Resolution::Minute.span() matches Some(
            minute,
        ) && hour == 60 * minute,
        Resolution::Daily.span() matches Some(day) && Resolution::Hour.span() matches Some(hour)
            && day == 24 * hour,
{
}

} // verus!
