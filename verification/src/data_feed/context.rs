//! State shared by the subscription streams of a run.

use crate::data_feed::market_cache::{
    flushed_all, flushed_through, KeyView, MarketCacheWriteBuffer, MarketFlush,
};
use crate::data_feed::policy::{
    adaptive_policy, tighter, DataFeedOptions, ProviderBackoffPolicy, SubscriptionCachePolicy,
};
use crate::model::{QuoteBar, Resolution, SecurityType, Tick, TickType, TradeBar};
use crate::time::{Date, MAX_DATE_DAYS, MIN_DATE_DAYS};
use vstd::prelude::*;

verus! {

/// Frontier value before the consumer has emitted any slice.
pub const CONSUMER_FRONTIER_UNSET: i64 = i64::MIN;

/// Fewest days that a span of days may count.
pub const MIN_SPAN_DAYS: i64 = -106_751_991_167;

/// State shared by the subscription streams of a run.
pub struct DataFeedContext {
    pub options: DataFeedOptions,
    /// Number of active subscription streams.
    pub active_subscription_count: usize,
    /// Day number of the latest slice that the consumer has emitted.
    pub consumer_frontier_days: i64,
    pub market_cache_writes: MarketCacheWriteBuffer,
}

impl DataFeedContext {
    pub open spec fn wf(&self) -> bool {
        &&& self.consumer_frontier_days == CONSUMER_FRONTIER_UNSET || MIN_DATE_DAYS
            <= self.consumer_frontier_days <= MAX_DATE_DAYS
        &&& self.market_cache_writes.wf()
    }

    /// The date that the consumer has reached.
    pub open spec fn frontier(&self) -> Option<Date> {
        if self.consumer_frontier_days == CONSUMER_FRONTIER_UNSET {
            None
        } else {
            Some(Date { days: self.consumer_frontier_days as i32 })
        }
    }

    /// The limits in force: those of the subscription count, under the configured ceiling.
    pub open spec fn policy(&self) -> SubscriptionCachePolicy {
        tighter(adaptive_policy(self.active_subscription_count as int), self.options.cache_policy)
    }

    /// Latest partition date that a producer may load: the frontier plus the
    /// prefetch horizon. There is none before the first slice, nor where the
    /// sum leaves the calendar.
    pub open spec fn ceiling(&self) -> Option<Date> {
        match self.frontier() {
            Some(reached) => {
                let ceiling = reached.days + self.policy().max_prefetch_ahead_days;
                if MIN_DATE_DAYS <= ceiling <= MAX_DATE_DAYS {
                    Some(Date { days: ceiling as i32 })
                } else {
                    None
                }
            },
            None => None,
        }
    }

    pub fn new() -> (res: DataFeedContext)
        ensures
            res.wf(),
            res.options == DataFeedOptions::spec_default(),
            res.active_subscription_count == 0,
            res.frontier() is None,
    {
        DataFeedContext {
            options: DataFeedOptions::default(),
            active_subscription_count: 0,
            consumer_frontier_days: CONSUMER_FRONTIER_UNSET,
            market_cache_writes: MarketCacheWriteBuffer::new(),
        }
    }

    pub fn with_options(self, options: DataFeedOptions) -> (res: DataFeedContext)
        ensures
            res == (DataFeedContext { options, ..self }),
    {
        DataFeedContext { options, ..self }
    }

    pub fn provider_backoff_policy(&self) -> (res: ProviderBackoffPolicy)
        ensures
            res == self.options.provider_backoff,
    {
        self.options.provider_backoff
    }

    pub fn effective_cache_policy(&self) -> (res: SubscriptionCachePolicy)
        ensures
            res == self.policy(),
    {
        SubscriptionCachePolicy::for_active_subscriptions(self.active_subscription_count).clamp_to(
            &self.options.cache_policy,
        )
    }

    /// Records that the consumer has emitted a slice of `date`, and tells
    /// whether waiting producers are to be woken. The frontier never moves back.
    pub fn observe_consumer_frontier(&mut self, date: Date) -> (wake: bool)
        requires
            old(self).wf(),
            date.in_calendar(),
        ensures
            final(self).wf(),
            wake == (match old(self).frontier() {
                Some(reached) => date.days > reached.days,
                None => true,
            }),
            final(self).frontier() == (if wake {
                Some(date)
            } else {
                old(self).frontier()
            }),
            final(self).frontier() == frontier_after(old(self).frontier(), seq![date]),
            final(self).options == old(self).options,
            final(self).active_subscription_count == old(self).active_subscription_count,
            final(self).market_cache_writes == old(self).market_cache_writes,
    {
        proof {
            reveal_with_fuel(frontier_after, 2);
            assert(seq![date].drop_last() =~= Seq::<Date>::empty());
        }
        let days: i64 = date.days as i64;
        if days > self.consumer_frontier_days {
            self.consumer_frontier_days = days;
            true
        } else {
            false
        }
    }

    /// Sets the frontier before the first slice.
    pub fn seed_consumer_frontier(&mut self, date: Date) -> (wake: bool)
        requires
            old(self).wf(),
            date.in_calendar(),
        ensures
            final(self).wf(),
            wake == (match old(self).frontier() {
                Some(reached) => date.days > reached.days,
                None => true,
            }),
            final(self).frontier() == (if wake {
                Some(date)
            } else {
                old(self).frontier()
            }),
            final(self).frontier() == frontier_after(old(self).frontier(), seq![date]),
            final(self).options == old(self).options,
            final(self).active_subscription_count == old(self).active_subscription_count,
            final(self).market_cache_writes == old(self).market_cache_writes,
    {
        self.observe_consumer_frontier(date)
    }

    pub fn consumer_frontier_date(&self) -> (res: Option<Date>)
        requires
            self.wf(),
        ensures
            res == self.frontier(),
    {
        if self.consumer_frontier_days == CONSUMER_FRONTIER_UNSET {
            return None;
        }
        Some(Date { days: self.consumer_frontier_days as i32 })
    }

    pub fn prefetch_ceiling_date(&self) -> (res: Option<Date>)
        requires
            self.wf(),
            self.policy().max_prefetch_ahead_days >= MIN_SPAN_DAYS,
        ensures
            res == self.ceiling(),
    {
        match self.consumer_frontier_date() {
            Some(reached) => {
                let ahead: i64 = self.effective_cache_policy().max_prefetch_ahead_days;
                let ceiling: i64 = reached.days as i64 + ahead;
                if MIN_DATE_DAYS as i64 <= ceiling && ceiling <= MAX_DATE_DAYS as i64 {
                    Some(Date { days: ceiling as i32 })
                } else {
                    None
                }
            },
            None => None,
        }
    }

    /// Holds fetched trade bars back until the run has passed their date.
    pub fn buffer_trade_bar_cache_write(
        &mut self,
        rows: Vec<TradeBar>,
        security_type: SecurityType,
        market: &str,
        resolution: Resolution,
        tick_type: TickType,
    )
        requires
            old(self).wf(),
        ensures
            final(self).wf(),
            forall|k: KeyView| #[trigger]
                final(self).market_cache_writes.trade_bars.rows(k) == (if k == (KeyView {
                    security_type,
                    market: market@,
                    resolution,
                    tick_type,
                }) {
                    old(self).market_cache_writes.trade_bars.rows(k) + rows@
                } else {
                    old(self).market_cache_writes.trade_bars.rows(k)
                }),
            final(self).market_cache_writes.quote_bars == old(self).market_cache_writes.quote_bars,
            final(self).market_cache_writes.ticks == old(self).market_cache_writes.ticks,
            final(self).options == old(self).options,
            final(self).active_subscription_count == old(self).active_subscription_count,
            final(self).consumer_frontier_days == old(self).consumer_frontier_days,
    {
        let key = MarketCacheWriteBuffer::key(security_type, market, resolution, tick_type);
        self.market_cache_writes.push_trade_bars(rows, key);
    }

    /// Holds fetched quote bars back until the run has passed their date.
    pub fn buffer_quote_bar_cache_write(
        &mut self,
        rows: Vec<QuoteBar>,
        security_type: SecurityType,
        market: &str,
        resolution: Resolution,
        tick_type: TickType,
    )
        requires
            old(self).wf(),
        ensures
            final(self).wf(),
            forall|k: KeyView| #[trigger]
                final(self).market_cache_writes.quote_bars.rows(k) == (if k == (KeyView {
                    security_type,
                    market: market@,
                    resolution,
                    tick_type,
                }) {
                    old(self).market_cache_writes.quote_bars.rows(k) + rows@
                } else {
                    old(self).market_cache_writes.quote_bars.rows(k)
                }),
            final(self).market_cache_writes.trade_bars == old(self).market_cache_writes.trade_bars,
            final(self).market_cache_writes.ticks == old(self).market_cache_writes.ticks,
            final(self).options == old(self).options,
            final(self).active_subscription_count == old(self).active_subscription_count,
            final(self).consumer_frontier_days == old(self).consumer_frontier_days,
    {
        let key = MarketCacheWriteBuffer::key(security_type, market, resolution, tick_type);
        self.market_cache_writes.push_quote_bars(rows, key);
    }

    /// Holds fetched ticks back until the run has passed their date.
    pub fn buffer_tick_cache_write(
        &mut self,
        rows: Vec<Tick>,
        security_type: SecurityType,
        market: &str,
        resolution: Resolution,
        tick_type: TickType,
    )
        requires
            old(self).wf(),
        ensures
            final(self).wf(),
            forall|k: KeyView| #[trigger]
                final(self).market_cache_writes.ticks.rows(k) == (if k == (KeyView {
                    security_type,
                    market: market@,
                    resolution,
                    tick_type,
                }) {
                    old(self).market_cache_writes.ticks.rows(k) + rows@
                } else {
                    old(self).market_cache_writes.ticks.rows(k)
                }),
            final(self).market_cache_writes.trade_bars == old(self).market_cache_writes.trade_bars,
            final(self).market_cache_writes.quote_bars == old(self).market_cache_writes.quote_bars,
            final(self).options == old(self).options,
            final(self).active_subscription_count == old(self).active_subscription_count,
            final(self).consumer_frontier_days == old(self).consumer_frontier_days,
    {
        let key = MarketCacheWriteBuffer::key(security_type, market, resolution, tick_type);
        self.market_cache_writes.push_ticks(rows, key);
    }

    /// Takes out every row that was held back, to be written to the store.
    pub fn flush_market_cache_writes(&mut self) -> (res: MarketFlush)
        requires
            old(self).wf(),
        ensures
            final(self).wf(),
            *final(self) == (DataFeedContext {
                market_cache_writes: final(self).market_cache_writes,
                ..*old(self)
            }),
            flushed_all(old(self).market_cache_writes, final(self).market_cache_writes, res),
    {
        let trade_bars = self.market_cache_writes.drain_trade_bars();
        let quote_bars = self.market_cache_writes.drain_quote_bars();
        let ticks = self.market_cache_writes.drain_ticks();
        MarketFlush { trade_bars, quote_bars, ticks }
    }

    /// Takes out the rows dated on or before a date, to be written to the store.
    pub fn flush_market_cache_writes_through(&mut self, date: Date) -> (res: MarketFlush)
        requires
            old(self).wf(),
        ensures
            final(self).wf(),
            *final(self) == (DataFeedContext {
                market_cache_writes: final(self).market_cache_writes,
                ..*old(self)
            }),
            flushed_through(
                old(self).market_cache_writes,
                final(self).market_cache_writes,
                res,
                date.days as int,
            ),
    {
        let trade_bars = self.market_cache_writes.drain_trade_bars_through(date);
        let quote_bars = self.market_cache_writes.drain_quote_bars_through(date);
        let ticks = self.market_cache_writes.drain_ticks_through(date);
        MarketFlush { trade_bars, quote_bars, ticks }
    }
}

/// The date that the consumer has reached after a series of slices is the
/// latest of them: it is one of the dates, and none is later.
pub open spec fn frontier_after(start: Option<Date>, dates: Seq<Date>) -> Option<Date>
    decreases dates.len(),
{
    if dates.len() == 0 {
        start
    } else {
        let reached = frontier_after(start, dates.drop_last());
        match reached {
            Some(r) => if dates.last().days > r.days {
                Some(dates.last())
            } else {
                reached
            },
            None => Some(dates.last()),
        }
    }
}

/// Whatever dates the consumer observes, in whatever order, the frontier ends
/// at the latest of them and never before where it started.
pub proof fn law_frontier_is_latest_date(start: Option<Date>, dates: Seq<Date>)
    ensures
        start is Some || dates.len() > 0 ==> frontier_after(start, dates) is Some,
        frontier_after(start, dates) matches Some(reached) ==> {
            &&& Some(reached) == start || dates.contains(reached)
            &&& start matches Some(s) ==> s.days <= reached.days
            &&& forall|i: int| 0 <= i < dates.len() ==> (#[trigger] dates[i]).days <= reached.days
        },
    decreases dates.len(),
{
    if dates.len() > 0 {
        let head = dates.drop_last();
        law_frontier_is_latest_date(start, head);
        assert(dates[dates.len() - 1] == dates.last());
        assert forall|d: Date| head.contains(d) implies dates.contains(d) by {
            let i = choose|i: int| 0 <= i < head.len() && head[i] == d;
            assert(dates[i] == d);
        }
        assert forall|i: int| 0 <= i < dates.len() implies ((#[trigger] dates[i]).days
            <= frontier_after(start, dates)->Some_0.days) by {
            if i < head.len() {
                assert(head[i] == dates[i]);
            }
        }
    }
}

/// A producer may read ahead of the consumer by the horizon of the policy, no less and no
/// more; before the first slice there is no limit.
pub proof fn law_horizon_of_a_context(context: DataFeedContext, reached: Date)
    requires
        context.wf(),
    ensures
        context.frontier() is None ==> context.ceiling() is None,
        context.frontier() == Some(reached) && MIN_DATE_DAYS <= reached.days
            + context.policy().max_prefetch_ahead_days <= MAX_DATE_DAYS ==> (
        context.ceiling() matches Some(date) && date.days == reached.days
            + context.policy().max_prefetch_ahead_days),
        context.policy().max_prefetch_ahead_days <= adaptive_policy(
            context.active_subscription_count as int,
        ).max_prefetch_ahead_days,
        context.policy().max_prefetch_ahead_days
            <= context.options.cache_policy.max_prefetch_ahead_days,
        context.policy().channel_capacity <= adaptive_policy(
            context.active_subscription_count as int,
        ).channel_capacity,
        context.policy().channel_capacity <= context.options.cache_policy.channel_capacity,
        context.options.cache_policy.max_prefetch_ahead_days >= adaptive_policy(
            context.active_subscription_count as int,
        ).max_prefetch_ahead_days ==> context.policy().max_prefetch_ahead_days == adaptive_policy(
            context.active_subscription_count as int,
        ).max_prefetch_ahead_days,
{
}

} // verus!
