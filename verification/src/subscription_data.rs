//! Data points of a subscription and the time slices they are gathered into.

use crate::model::{CustomDataPoint, FieldValue, QuoteBar, Symbol, Tick, TradeBar};
use crate::name_map::NameMap;
use crate::options_service::OptionChain;
use crate::time::{clock_ns, DateTime};
use std::sync::Arc;
use vstd::prelude::*;

verus! {

/// A single data point emitted by a subscription stream.
pub enum SubscriptionDataPoint {
    TradeBar(TradeBar),
    QuoteBar(QuoteBar),
    Tick(Tick),
    CustomData { symbol: Symbol, ticker: String, point: CustomDataPoint },
    OptionChain { canonical_permtick: String, chain: Arc<OptionChain>, frontier_time: DateTime },
}

impl SubscriptionDataPoint {
    /// A custom row without an end time lies on a day whose midnight is a timestamp.
    pub open spec fn wf(self) -> bool {
        self matches SubscriptionDataPoint::CustomData { point, .. } ==> (point.end_time is None
            ==> point.time.on_clock())
    }

    /// The instant at which the point becomes known: bars when they end, ticks
    /// when they happen, custom rows at their end time or at midnight.
    pub open spec fn frontier(self) -> DateTime {
        match self {
            SubscriptionDataPoint::TradeBar(bar) => bar.end_time,
            SubscriptionDataPoint::QuoteBar(bar) => bar.end_time,
            SubscriptionDataPoint::Tick(tick) => tick.time,
            SubscriptionDataPoint::OptionChain { frontier_time, .. } => frontier_time,
            SubscriptionDataPoint::CustomData { point, .. } => match point.end_time {
                Some(time) => time,
                None => DateTime { ns: clock_ns(point.time.days as int, 0) as i64 },
            },
        }
    }

    pub fn frontier_time(&self) -> (res: DateTime)
        requires
            self.wf(),
        ensures
            res == self.frontier(),
    {
        match self {
            SubscriptionDataPoint::TradeBar(bar) => bar.end_time,
            SubscriptionDataPoint::QuoteBar(bar) => bar.end_time,
            SubscriptionDataPoint::Tick(tick) => tick.time,
            SubscriptionDataPoint::OptionChain { frontier_time, .. } => *frontier_time,
            SubscriptionDataPoint::CustomData { point, .. } => match point.end_time {
                Some(time) => time,
                None => DateTime::at(point.time, 0),
            },
        }
    }

    /// Whether two points hold the same data.
    pub open spec fn same_as(self, other: SubscriptionDataPoint) -> bool {
        match (self, other) {
            (
                SubscriptionDataPoint::CustomData { symbol: s1, ticker: t1, point: p1 },
                SubscriptionDataPoint::CustomData { symbol: s2, ticker: t2, point: p2 },
            ) => s1 == s2 && t1 == t2 && p1.same_as(p2),
            _ => self == other,
        }
    }

    /// A copy that holds the same data.
    pub fn duplicate(&self) -> (res: SubscriptionDataPoint)
        ensures
            self.same_as(res),
            res.frontier() == self.frontier(),
            res.wf() == self.wf(),
    {
        match self {
            SubscriptionDataPoint::TradeBar(bar) => SubscriptionDataPoint::TradeBar(
                bar.duplicate(),
            ),
            SubscriptionDataPoint::QuoteBar(bar) => SubscriptionDataPoint::QuoteBar(
                bar.duplicate(),
            ),
            SubscriptionDataPoint::Tick(tick) => SubscriptionDataPoint::Tick(tick.duplicate()),
            SubscriptionDataPoint::CustomData { symbol, ticker, point } =>
            SubscriptionDataPoint::CustomData {
                symbol: symbol.duplicate(),
                ticker: ticker.clone(),
                point: point.duplicate(),
            },
            SubscriptionDataPoint::OptionChain { canonical_permtick, chain, frontier_time } =>
            SubscriptionDataPoint::OptionChain {
                canonical_permtick: canonical_permtick.clone(),
                chain: chain.clone(),
                frontier_time: *frontier_time,
            },
        }
    }
}

impl Tick {
    /// An equal copy.
    pub fn duplicate(&self) -> (res: Tick)
        ensures
            res == *self,
    {
        Tick {
            symbol: self.symbol.duplicate(),
            time: self.time,
            tick_type: self.tick_type,
            value: self.value,
            quantity: self.quantity,
            bid_price: self.bid_price,
            ask_price: self.ask_price,
            bid_size: self.bid_size,
            ask_size: self.ask_size,
            exchange: copy_text(&self.exchange),
            sale_condition: copy_text(&self.sale_condition),
            suspicious: self.suspicious,
        }
    }
}

fn copy_text(text: &Option<String>) -> (res: Option<String>)
    ensures
        res == *text,
{
    match text {
        Some(text) => Some(text.clone()),
        None => None,
    }
}

impl FieldValue {
    /// An equal copy.
    pub fn duplicate(&self) -> (res: FieldValue)
        ensures
            res == *self,
    {
        match self {
            FieldValue::Text(text) => FieldValue::Text(text.clone()),
            FieldValue::Json(json) => FieldValue::Json(json.clone()),
        }
    }
}

impl CustomDataPoint {
    /// Whether two rows hold the same data.
    pub open spec fn same_as(self, other: CustomDataPoint) -> bool {
        &&& self.time == other.time
        &&& self.end_time == other.end_time
        &&& self.value == other.value
        &&& self.fields.entries@ == other.fields.entries@
    }

    /// A copy that holds the same data.
    pub fn duplicate(&self) -> (res: CustomDataPoint)
        ensures
            self.same_as(res),
    {
        let mut entries: Vec<(String, FieldValue)> = Vec::new();
        let mut i: usize = 0;
        while i < self.fields.entries.len()
            invariant
                i <= self.fields.entries@.len(),
                entries@ == self.fields.entries@.take(i as int),
            decreases self.fields.entries.len() - i,
        {
            let entry = &self.fields.entries[i];
            entries.push((entry.0.clone(), entry.1.duplicate()));
            assert(entries@ =~= self.fields.entries@.take(i + 1));
            i = i + 1;
        }
        assert(self.fields.entries@.take(i as int) =~= self.fields.entries@);
        CustomDataPoint {
            time: self.time,
            end_time: self.end_time,
            value: self.value,
            fields: NameMap { entries },
        }
    }
}

/// A point becomes known when what it reports is over, never before: a bar at its
/// end, a tick when it happens, a custom row at its end time and, without one, at
/// the first instant of its day.
pub proof fn law_points_are_known_when_they_are_over(point: SubscriptionDataPoint)
    requires
        point.wf(),
    ensures
        point matches SubscriptionDataPoint::TradeBar(bar) ==> point.frontier() == bar.end_time,
        point matches SubscriptionDataPoint::QuoteBar(bar) ==> point.frontier() == bar.end_time,
        point matches SubscriptionDataPoint::Tick(tick) ==> point.frontier() == tick.time,
        point matches SubscriptionDataPoint::OptionChain { frontier_time, .. } ==> point.frontier()
            == frontier_time,
        point matches SubscriptionDataPoint::CustomData { point: row, .. } ==> match row.end_time {
            Some(end) => point.frontier() == end,
            None => point.frontier().day() == row.time.days && point.frontier().tod() == 0,
        },
{
    if let SubscriptionDataPoint::CustomData { point: row, .. } = point {
        if row.end_time is None {
            crate::time::law_clock_reads_back(row.time.days as int, 0);
        }
    }
}

} // verus!
