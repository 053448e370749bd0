//! Producer side of a subscription: buffers loaded points and releases them
//! instant by instant.

use crate::data_feed::context::DataFeedContext;
use crate::data_feed::policy::{ahead_days, SubscriptionCachePolicy};
use crate::decimal::Decimal;
use crate::model::{
    DataNormalizationMode, ExchangeHours, QuoteBar, Resolution, SecurityType,
    SubscriptionDataConfig, SubscriptionDataKind, TradeBar,
};
use crate::normalization::{read_factor_rows, FactorFileEntry};
use crate::subscription_data::SubscriptionDataPoint;
use crate::subscription_reader::coverage::{earlier_date, later_date};
use crate::subscription_reader::ordering::{
    all_buffered_wf, all_wf, buffered_in_order, insert_buffered, lemma_with_buffered, with_buffered,
    BufferedPointState, BufferedSubscriptionPoint,
};
use crate::subscription_reader::window::{
    fill_end, fill_end_date, fill_in_calendar, is_open_equity_date,
    partition_day_end,
};
use crate::time::{clock_ns, Date, DateTime};
use std::collections::VecDeque;
use vstd::prelude::*;

verus! {

/// First day that a feed may read; a scan looks one day further back.
pub const MIN_FEED_DAYS: i32 = -106_749;

/// Last day that a feed may read; a scan looks one day further on.
pub const MAX_FEED_DAYS: i32 = 106_749;

/// Points of a partition, and the date through which it was read.
pub struct LoadedPartition {
    pub points: Vec<SubscriptionDataPoint>,
    pub through_date: Date,
}

/// State of the producer of one subscription.
pub struct SubscriptionProducerState {
    pub config: SubscriptionDataConfig,
    /// Sessions of the subscribed security.
    pub exchange_hours: ExchangeHours,
    pub cache_policy: SubscriptionCachePolicy,
    pub fetch_missing_custom_data: bool,
    pub has_history_provider: bool,
    pub factor_rows: Vec<FactorFileEntry>,
    pub start: DateTime,
    pub end: DateTime,
    pub partition_date: Date,
    pub end_partition_date: Date,
    /// Earliest date for which rows can exist. Dates before it are never
    /// missing from the cache.
    pub provider_earliest_date: Option<Date>,
    pub cache_filled_until: Option<Date>,
    /// Points of the instant that is being released.
    pub pending: VecDeque<BufferedSubscriptionPoint>,
    /// Loaded points of later instants, in order.
    pub prefetched: Vec<BufferedSubscriptionPoint>,
    pub last_emitted_time: Option<DateTime>,
    pub last_emitted_point: Option<SubscriptionDataPoint>,
    pub custom_history_fetched: bool,
    /// Dates on which the custom source is known to have no rows.
    pub custom_empty_dates: Vec<Date>,
    pub exhausted: bool,
}

/// What the producer does next.
pub enum ProducerStep {
    /// Hand this point to the consumer.
    Emit(SubscriptionDataPoint),
    /// Load the partition at the current date.
    Load,
    /// Nothing is left.
    Finished,
}

pub open spec fn is_daily_equity(config: SubscriptionDataConfig) -> bool {
    config.resolution == Resolution::Daily && config.symbol.security_type == SecurityType::Equity
}

/// Whether a point of a known instant is dropped: bars of anything but tick
/// subscriptions are delivered once per instant.
pub open spec fn unique_per_instant(resolution: Resolution, point: SubscriptionDataPoint) -> bool {
    resolution != Resolution::Tick && (point is TradeBar || point is QuoteBar)
}

/// Whether a buffered point has the given instant.
pub open spec fn buffers_instant(points: Seq<BufferedSubscriptionPoint>, time: DateTime) -> bool {
    exists|i: int| 0 <= i < points.len() && (#[trigger] points[i]).frontier() == time
}

/// Buffer contents after staging points in turn. A point that is not later than
/// the last one emitted is dropped, so is a second bar of one instant, and a
/// full buffer takes no more.
pub open spec fn staged(
    prefetched: Seq<BufferedSubscriptionPoint>,
    pending: Seq<BufferedSubscriptionPoint>,
    last: Option<DateTime>,
    resolution: Resolution,
    max_rows: int,
    points: Seq<SubscriptionDataPoint>,
) -> Seq<BufferedSubscriptionPoint>
    decreases points.len(),
{
    if points.len() == 0 {
        prefetched
    } else {
        let point = points[0];
        let rest = points.subrange(1, points.len() as int);
        let stale = last matches Some(time) && point.frontier().ns <= time.ns;
        let repeated = unique_per_instant(resolution, point) && (buffers_instant(
            pending,
            point.frontier(),
        ) || buffers_instant(prefetched, point.frontier()));
        if stale || repeated {
            staged(prefetched, pending, last, resolution, max_rows, rest)
        } else if prefetched.len() >= max_rows {
            prefetched
        } else {
            staged(
                with_buffered(
                    prefetched,
                    BufferedSubscriptionPoint { point, state: BufferedPointState::Loaded },
                ),
                pending,
                last,
                resolution,
                max_rows,
                rest,
            )
        }
    }
}

/// Staging keeps the buffer in order and adds only points later than the last
/// one emitted; what was buffered stays.
pub proof fn lemma_staged(
    prefetched: Seq<BufferedSubscriptionPoint>,
    pending: Seq<BufferedSubscriptionPoint>,
    last: Option<DateTime>,
    resolution: Resolution,
    max_rows: int,
    points: Seq<SubscriptionDataPoint>,
)
    requires
        buffered_in_order(prefetched),
        all_buffered_wf(prefetched),
        all_wf(points),
    ensures
        ({
            let out = staged(prefetched, pending, last, resolution, max_rows, points);
            &&& buffered_in_order(out)
            &&& all_buffered_wf(out)
            &&& (forall|i: int|
                0 <= i < prefetched.len() ==> later_than(
                    last,
                    (#[trigger] prefetched[i]).frontier(),
                )) ==> (forall|i: int|
                0 <= i < out.len() ==> later_than(last, (#[trigger] out[i]).frontier()))
            &&& forall|b: BufferedSubscriptionPoint| #[trigger]
                prefetched.contains(b) ==> out.contains(b)
            &&& forall|i: int|
                0 <= i < out.len() ==> prefetched.contains(#[trigger] out[i]) || points.contains(
                    out[i].point,
                )
            &&& out.len() <= prefetched.len() + points.len()
            &&& prefetched.len() <= max_rows ==> out.len() <= max_rows
        }),
    decreases points.len(),
{
    if points.len() > 0 {
        let point = points[0];
        let rest = points.subrange(1, points.len() as int);
        assert(all_wf(rest)) by {
            assert forall|i: int| 0 <= i < rest.len() implies (#[trigger] rest[i]).wf() by {
                assert(points[i + 1].wf());
            }
        }
        let stale = last matches Some(time) && point.frontier().ns <= time.ns;
        let repeated = unique_per_instant(resolution, point) && (buffers_instant(
            pending,
            point.frontier(),
        ) || buffers_instant(prefetched, point.frontier()));
        assert forall|p: SubscriptionDataPoint| rest.contains(p) implies points.contains(p) by {
            let k = choose|k: int| 0 <= k < rest.len() && rest[k] == p;
            assert(points[k + 1] == p);
        }
        if stale || repeated {
            lemma_staged(prefetched, pending, last, resolution, max_rows, rest);
        } else if prefetched.len() < max_rows {
            let new = BufferedSubscriptionPoint { point, state: BufferedPointState::Loaded };
            lemma_with_buffered(prefetched, new);
            let next = with_buffered(prefetched, new);
            assert forall|b: BufferedSubscriptionPoint| next.contains(b) implies b == new
                || prefetched.contains(b) by {
                let k = choose|k: int| 0 <= k < next.len() && next[k] == b;
                assert(next[k] == new || prefetched.contains(next[k]));
            }
            lemma_staged(next, pending, last, resolution, max_rows, rest);
            if forall|i: int|
                0 <= i < prefetched.len() ==> later_than(
                    last,
                    (#[trigger] prefetched[i]).frontier(),
                ) {
                assert forall|i: int| 0 <= i < next.len() implies later_than(
                    last,
                    (#[trigger] next[i]).frontier(),
                ) by {
                    if next[i] != new {
                        let k = choose|k: int| 0 <= k < prefetched.len() && prefetched[k] == next[i];
                        assert(later_than(last, prefetched[k].frontier()));
                    }
                }
            }
        }
    }
}

pub open spec fn later_than(last: Option<DateTime>, time: DateTime) -> bool {
    last matches Some(l) ==> time.ns > l.ns
}

/// Whether a point becomes known on a readable day.
pub open spec fn on_readable_day(point: SubscriptionDataPoint) -> bool {
    point.frontier().day() <= MAX_FEED_DAYS
}

/// The window of a cache fill: from the current partition date through the end
/// of the interval, within the run and not before any row can exist.
pub open spec fn fill_window(
    partition_date: Date,
    end_partition_date: Date,
    resolution: Resolution,
    intervals: int,
    earliest: Option<Date>,
) -> (Date, Date) {
    let whole = fill_end(partition_date, resolution, intervals);
    let end = if whole > end_partition_date.days {
        end_partition_date
    } else {
        Date { days: whole as i32 }
    };
    let start = match earliest {
        Some(first) => if partition_date.days < first.days {
            earlier_date(first, end)
        } else {
            partition_date
        },
        None => partition_date,
    };
    (start, end)
}

/// The bar that repeats the last one at the next instant: a trade bar at the
/// last close without volume, a quote bar with the same quotes.
pub open spec fn filled_forward(
    last: SubscriptionDataPoint,
    frontier: DateTime,
    period: i64,
) -> Option<SubscriptionDataPoint> {
    let time = DateTime { ns: (frontier.ns - period) as i64 };
    match last {
        SubscriptionDataPoint::TradeBar(bar) => Some(
            SubscriptionDataPoint::TradeBar(
                TradeBar {
                    time,
                    end_time: frontier,
                    open: bar.close,
                    high: bar.close,
                    low: bar.close,
                    volume: Decimal::spec_zero(),
                    period,
                    ..bar
                },
            ),
        ),
        SubscriptionDataPoint::QuoteBar(bar) => Some(
            SubscriptionDataPoint::QuoteBar(
                QuoteBar { time, end_time: frontier, period, ..bar },
            ),
        ),
        _ => None,
    }
}

pub fn fill_forward_point(
    last_point: &SubscriptionDataPoint,
    fill_frontier: DateTime,
    period: i64,
) -> (res: Option<SubscriptionDataPoint>)
    requires
        i64::MIN <= fill_frontier.ns - period <= i64::MAX,
    ensures
        res == filled_forward(*last_point, fill_frontier, period),
{
    let time = DateTime { ns: fill_frontier.ns - period };
    match last_point {
        SubscriptionDataPoint::TradeBar(bar) => {
            let mut fill = bar.duplicate();
            fill.end_time = fill_frontier;
            fill.time = time;
            fill.open = fill.close;
            fill.high = fill.close;
            fill.low = fill.close;
            fill.volume = Decimal::zero();
            fill.period = period;
            Some(SubscriptionDataPoint::TradeBar(fill))
        },
        SubscriptionDataPoint::QuoteBar(bar) => {
            let mut fill = bar.duplicate();
            fill.end_time = fill_frontier;
            fill.time = time;
            fill.period = period;
            Some(SubscriptionDataPoint::QuoteBar(fill))
        },
        _ => None,
    }
}

impl SubscriptionProducerState {
    /// Dates are readable, and reading has not gone back before the start.
    pub open spec fn dates_wf(&self) -> bool {
        &&& self.start.day() <= self.partition_date.days
        &&& MIN_FEED_DAYS <= self.partition_date.days
        &&& MIN_FEED_DAYS <= self.end_partition_date.days <= MAX_FEED_DAYS
        &&& self.partition_date.days <= MAX_FEED_DAYS + 1
    }

    /// Buffered points are valid, in order and later than what was emitted.
    pub open spec fn buffers_wf(&self) -> bool {
        &&& all_buffered_wf(self.pending@)
        &&& all_buffered_wf(self.prefetched@)
        &&& buffered_in_order(self.prefetched@)
        &&& forall|i: int|
            0 <= i < self.prefetched@.len() ==> later_than(
                self.last_emitted_time,
                (#[trigger] self.prefetched@[i]).frontier(),
            )
        &&& self.last_emitted_point matches Some(point) ==> point.wf()
    }

    /// Everything buffered or emitted lies on a readable day.
    pub open spec fn reach_wf(&self) -> bool {
        &&& forall|i: int|
            0 <= i < self.pending@.len() ==> on_readable_day((#[trigger] self.pending@[i]).point)
        &&& forall|i: int|
            0 <= i < self.prefetched@.len() ==> on_readable_day(
                (#[trigger] self.prefetched@[i]).point,
            )
        &&& self.last_emitted_point matches Some(point) ==> on_readable_day(point)
    }

    /// The points being released share one instant, not before what was
    /// emitted, and precede all others.
    pub open spec fn pending_first(&self) -> bool {
        forall|i: int|
            0 <= i < self.pending@.len() ==> {
                &&& (#[trigger] self.pending@[i]).frontier() == self.pending@[0].frontier()
                &&& self.last_emitted_time matches Some(l) ==> l.ns <= self.pending@[i].frontier().ns
                &&& forall|j: int|
                    0 <= j < self.prefetched@.len() ==> self.pending@[i].frontier().ns < (
                    #[trigger] self.prefetched@[j]).frontier().ns
            }
    }

    pub open spec fn wf(&self) -> bool {
        &&& self.dates_wf()
        &&& self.buffers_wf()
        &&& self.reach_wf()
        &&& self.pending_first()
    }

    /// Everything but the buffers and what was emitted is unchanged.
    pub open spec fn same_setup(&self, other: &SubscriptionProducerState) -> bool {
        &&& self.config == other.config
        &&& self.exchange_hours == other.exchange_hours
        &&& self.cache_policy == other.cache_policy
        &&& self.fetch_missing_custom_data == other.fetch_missing_custom_data
        &&& self.has_history_provider == other.has_history_provider
        &&& self.factor_rows == other.factor_rows
        &&& self.start == other.start
        &&& self.end == other.end
        &&& self.end_partition_date == other.end_partition_date
        &&& self.provider_earliest_date == other.provider_earliest_date
        &&& self.custom_history_fetched == other.custom_history_fetched
        &&& self.custom_empty_dates == other.custom_empty_dates
        &&& self.cache_filled_until == other.cache_filled_until
    }

    /// A producer that has read nothing. Rows can exist from the later of the
    /// provider's first date and the security's first date. Factor rows are of
    /// use only where prices are adjusted.
    pub fn new(
        config: SubscriptionDataConfig,
        exchange_hours: ExchangeHours,
        cache_policy: SubscriptionCachePolicy,
        fetch_missing_custom_data: bool,
        has_history_provider: bool,
        provider_floor: Option<Date>,
        symbol_inception: Option<Date>,
        factor_rows: Vec<FactorFileEntry>,
        start: DateTime,
        end: DateTime,
    ) -> (res: SubscriptionProducerState)
        requires
            MIN_FEED_DAYS <= start.day() <= MAX_FEED_DAYS + 1,
            MIN_FEED_DAYS <= end.day() <= MAX_FEED_DAYS,
        ensures
            res.wf(),
            res.config == config,
            res.exchange_hours == exchange_hours,
            res.cache_policy == cache_policy,
            res.fetch_missing_custom_data == fetch_missing_custom_data,
            res.has_history_provider == has_history_provider,
            res.factor_rows@ == (if config.normalization_mode != DataNormalizationMode::Raw
                && config.symbol.security_type == SecurityType::Equity {
                factor_rows@
            } else {
                Seq::empty()
            }),
            res.start == start,
            res.end == end,
            res.partition_date == start.date(),
            res.end_partition_date == end.date(),
            res.provider_earliest_date == (match (provider_floor, symbol_inception) {
                (Some(a), Some(b)) => Some(later_date(a, b)),
                (Some(a), None) => Some(a),
                (None, b) => b,
            }),
            res.cache_filled_until is None,
            res.pending@.len() == 0,
            res.prefetched@.len() == 0,
            res.last_emitted_time is None,
            res.last_emitted_point is None,
            !res.custom_history_fetched,
            res.custom_empty_dates@.len() == 0,
            !res.exhausted,
    {
        let factor_rows = if config.normalization_mode != DataNormalizationMode::Raw {
            read_factor_rows(config.symbol.security_type, factor_rows)
        } else {
            Vec::new()
        };
        let provider_earliest_date = match (provider_floor, symbol_inception) {
            (Some(a), Some(b)) => Some(a.max(b)),
            (Some(a), None) => Some(a),
            (None, b) => b,
        };
        SubscriptionProducerState {
            config,
            exchange_hours,
            cache_policy,
            fetch_missing_custom_data,
            has_history_provider,
            factor_rows,
            start,
            end,
            partition_date: start.date_utc(),
            end_partition_date: end.date_utc(),
            provider_earliest_date,
            cache_filled_until: None,
            pending: VecDeque::new(),
            prefetched: Vec::new(),
            last_emitted_time: None,
            last_emitted_point: None,
            custom_history_fetched: false,
            custom_empty_dates: Vec::new(),
            exhausted: false,
        }
    }

    pub fn should_skip_duplicate_frontier(&self, point: &SubscriptionDataPoint) -> (res: bool)
        ensures
            res == unique_per_instant(self.config.resolution, *point),
    {
        if self.config.resolution.is_tick() {
            return false;
        }
        match point {
            SubscriptionDataPoint::TradeBar(_) => true,
            SubscriptionDataPoint::QuoteBar(_) => true,
            _ => false,
        }
    }

    pub fn has_buffered_frontier(&self, frontier_time: DateTime) -> (res: bool)
        requires
            all_buffered_wf(self.pending@),
            all_buffered_wf(self.prefetched@),
        ensures
            res == (buffers_instant(self.pending@, frontier_time) || buffers_instant(
                self.prefetched@,
                frontier_time,
            )),
    {
        let mut i: usize = 0;
        while i < self.pending.len()
            invariant
                i <= self.pending@.len(),
                all_buffered_wf(self.pending@),
                forall|j: int| 0 <= j < i ==> (#[trigger] self.pending@[j]).frontier()
                    != frontier_time,
            decreases self.pending.len() - i,
        {
            if self.pending[i].frontier_time() == frontier_time {
                return true;
            }
            i = i + 1;
        }
        let mut k: usize = 0;
        while k < self.prefetched.len()
            invariant
                k <= self.prefetched@.len(),
                all_buffered_wf(self.prefetched@),
                forall|j: int| 0 <= j < k ==> (#[trigger] self.prefetched@[j]).frontier()
                    != frontier_time,
            decreases self.prefetched.len() - k,
        {
            if self.prefetched[k].frontier_time() == frontier_time {
                return true;
            }
            k = k + 1;
        }
        false
    }

    /// Buffers loaded points until their turn.
    #[verifier::loop_isolation(false)]
    pub fn stage_loaded_points(&mut self, points: Vec<SubscriptionDataPoint>)
        requires
            old(self).buffers_wf(),
            all_wf(points@),
        ensures
            final(self).buffers_wf(),
            final(self).prefetched@ == staged(
                old(self).prefetched@,
                old(self).pending@,
                old(self).last_emitted_time,
                old(self).config.resolution,
                old(self).cache_policy.max_prefetch_rows as int,
                points@,
            ),
            final(self).same_setup(old(self)),
            final(self).partition_date == old(self).partition_date,
            final(self).pending == old(self).pending,
            final(self).last_emitted_time == old(self).last_emitted_time,
            final(self).last_emitted_point == old(self).last_emitted_point,
            final(self).exhausted == old(self).exhausted,
            old(self).reach_wf() && (forall|i: int|
                0 <= i < points@.len() ==> on_readable_day(#[trigger] points@[i]))
                ==> final(self).reach_wf(),
    {
        let max_rows: usize = self.cache_policy.max_prefetch_rows;
        let ghost all = points@;
        let ghost goal = staged(
            self.prefetched@,
            self.pending@,
            self.last_emitted_time,
            self.config.resolution,
            max_rows as int,
            all,
        );
        proof {
            lemma_staged(
                self.prefetched@,
                self.pending@,
                self.last_emitted_time,
                self.config.resolution,
                max_rows as int,
                all,
            );
            assert(all.subrange(0, all.len() as int) =~= all);
        }
        let ghost mut open = true;
        for point in it: points
            invariant
                it.seq() == all,
                all_wf(all),
                self.buffers_wf(),
                max_rows == self.cache_policy.max_prefetch_rows,
                self.same_setup(old(self)),
                self.partition_date == old(self).partition_date,
                self.pending == old(self).pending,
                self.last_emitted_time == old(self).last_emitted_time,
                self.last_emitted_point == old(self).last_emitted_point,
                self.exhausted == old(self).exhausted,
                open ==> goal == staged(
                    self.prefetched@,
                    self.pending@,
                    self.last_emitted_time,
                    self.config.resolution,
                    max_rows as int,
                    all.subrange(it.index() as int, all.len() as int),
                ),
                !open ==> goal == self.prefetched@ && self.prefetched@.len() >= max_rows,
        {
            let ghost i = it.index() as int;
            let ghost rest = all.subrange(i, all.len() as int);
            proof {
                assert(all[i] == point);
                assert(rest[0] == point);
                assert(rest.subrange(1, rest.len() as int) =~= all.subrange(
                    i + 1,
                    all.len() as int,
                ));
            }
            let frontier_time = point.frontier_time();
            let stale = match self.last_emitted_time {
                Some(last) => frontier_time.ns <= last.ns,
                None => false,
            };
            if !stale && !(self.should_skip_duplicate_frontier(&point)
                && self.has_buffered_frontier(frontier_time)) {
                if self.prefetched.len() >= max_rows {
                    proof {
                        open = false;
                    }
                } else {
                    let new = BufferedSubscriptionPoint::loaded(point);
                    proof {
                        lemma_with_buffered(self.prefetched@, new);
                    }
                    let ghost before = self.prefetched@;
                    insert_buffered(&mut self.prefetched, new);
                    proof {
                        assert forall|k: int| 0 <= k < self.prefetched@.len() implies later_than(
                            self.last_emitted_time,
                            (#[trigger] self.prefetched@[k]).frontier(),
                        ) by {
                            if self.prefetched@[k] != new {
                                let m = choose|m: int|
                                    0 <= m < before.len() && before[m] == self.prefetched@[k];
                                assert(later_than(self.last_emitted_time, before[m].frontier()));
                            }
                        }
                    }
                }
            }
        }
        assert(all.subrange(all.len() as int, all.len() as int) =~= Seq::<
            SubscriptionDataPoint,
        >::empty());
        proof {
            if old(self).reach_wf() && (forall|i: int|
                0 <= i < all.len() ==> on_readable_day(#[trigger] all[i])) {
                assert forall|i: int| 0 <= i < self.prefetched@.len() implies on_readable_day(
                    (#[trigger] self.prefetched@[i]).point,
                ) by {
                    let b = self.prefetched@[i];
                    if old(self).prefetched@.contains(b) {
                        let k = choose|k: int|
                            0 <= k < old(self).prefetched@.len() && old(self).prefetched@[k] == b;
                        assert(on_readable_day(old(self).prefetched@[k].point));
                    } else {
                        let k = choose|k: int| 0 <= k < all.len() && all[k] == b.point;
                        assert(on_readable_day(all[k]));
                    }
                }
            }
        }
    }

    /// Number of intervals that a cache fill spans.
    pub open spec fn intervals(&self) -> int {
        if self.cache_policy.prefetch_intervals == 0 {
            1
        } else {
            self.cache_policy.prefetch_intervals as int
        }
    }

    fn interval_count(&self) -> (res: usize)
        ensures
            res == self.intervals(),
            res >= 1,
    {
        if self.cache_policy.prefetch_intervals == 0 {
            1
        } else {
            self.cache_policy.prefetch_intervals
        }
    }

    /// The window of the cache fill at the current partition date.
    pub open spec fn window(&self) -> (Date, Date) {
        fill_window(
            self.partition_date,
            self.end_partition_date,
            self.config.resolution,
            self.intervals(),
            self.provider_earliest_date,
        )
    }

    /// Whether the window of the cache fill at the current partition date can be
    /// read: its end lies in the calendar and on a readable day, give or take the
    /// day before the first.
    pub open spec fn window_readable(&self) -> bool {
        &&& fill_in_calendar(self.partition_date, self.config.resolution, self.intervals())
        &&& MIN_FEED_DAYS - 1 <= self.window().1.days
    }

    /// Tells whether the window of the cache fill at the current partition date
    /// can be read.
    pub fn can_read_window(&self) -> (res: bool)
        requires
            self.dates_wf(),
        ensures
            res == self.window_readable(),
    {
        match fill_end_date(self.partition_date, self.config.resolution, self.interval_count()) {
            Some(end) => self.end_partition_date.days < end.days || MIN_FEED_DAYS - 1 <= end.days,
            None => false,
        }
    }

    pub fn cache_fill_window(&self) -> (res: (Date, Date))
        requires
            self.dates_wf(),
            self.window_readable(),
        ensures
            res == self.window(),
            MIN_FEED_DAYS - 1 <= res.0.days <= MAX_FEED_DAYS + 1,
            MIN_FEED_DAYS - 1 <= res.1.days <= MAX_FEED_DAYS,
            self.partition_date.days <= self.end_partition_date.days ==> res.0.days
                <= MAX_FEED_DAYS,
    {
        let mut start = self.partition_date;
        let mut end = match fill_end_date(
            start,
            self.config.resolution,
            self.interval_count(),
        ) {
            Some(end) => end,
            None => start,
        };
        if end.days > self.end_partition_date.days {
            end = self.end_partition_date;
        }
        if let Some(earliest) = self.provider_earliest_date {
            if start.days < earliest.days {
                start = earliest.min(end);
            }
        }
        (start, end)
    }

    /// Whether the current date has no session to read: the day of a daily
    /// equity subscription on which the market does not trade.
    pub open spec fn skips_partition(&self) -> bool {
        &&& self.config.data_kind == SubscriptionDataKind::Market
        &&& is_daily_equity(self.config)
        &&& !self.exchange_hours.opens_on(self.partition_date)
    }

    pub fn should_skip_partition_date(&self) -> (res: bool)
        ensures
            res == self.skips_partition(),
    {
        if self.config.data_kind != SubscriptionDataKind::Market || self.config.resolution
            != Resolution::Daily || self.config.symbol.security_type != SecurityType::Equity {
            return false;
        }
        !self.exchange_hours.is_open_on(self.partition_date)
    }

    /// Whether a bar that ends at `end_time` falls into a regular session.
    /// Only intraday equity bars are held to the sessions.
    pub open spec fn regular_bar(&self, end_time: DateTime) -> bool {
        if self.config.resolution == Resolution::Daily || self.config.symbol.security_type
            != SecurityType::Equity {
            true
        } else {
            let period = match self.config.resolution.span() {
                Some(period) => period as int,
                None => 0,
            };
            self.exchange_hours.open_at(DateTime { ns: (end_time.ns - period) as i64 })
        }
    }

    /// Whether the start of an intraday equity bar is a timestamp.
    pub open spec fn session_probe_fits(&self, end_time: DateTime) -> bool {
        self.config.resolution != Resolution::Daily && self.config.symbol.security_type
            == SecurityType::Equity ==> (self.config.resolution.span() matches Some(period)
            ==> end_time.ns - period >= i64::MIN)
    }

    pub fn is_regular_market_bar(&self, end_time: DateTime) -> (res: bool)
        requires
            self.session_probe_fits(end_time),
        ensures
            res == self.regular_bar(end_time),
    {
        if self.config.resolution == Resolution::Daily {
            return true;
        }
        if self.config.symbol.security_type != SecurityType::Equity {
            return true;
        }
        let probe_time = match self.config.resolution.to_time_span() {
            Some(period) => DateTime { ns: end_time.ns - period },
            None => end_time,
        };
        self.exchange_hours.is_open_at(probe_time)
    }

    /// The bar that fills the gap between the last emitted bar and the next
    /// real one: one period after the last, before the next and within the run,
    /// on a trading day and in a session.
    pub open spec fn fill_forward(&self, next_real: DateTime) -> Option<SubscriptionDataPoint> {
        match (self.config.resolution.span(), self.last_emitted_point) {
            (Some(period), Some(last)) => {
                let fill = DateTime { ns: (last.frontier().ns + period) as i64 };
                if !self.config.fill_data_forward || fill.ns >= next_real.ns || fill.ns
                    > self.end.ns || (is_daily_equity(self.config)
                    && !self.exchange_hours.opens_on(fill.date())) || !self.regular_bar(fill) {
                    None
                } else {
                    filled_forward(last, fill, period)
                }
            },
            _ => None,
        }
    }

    /// Stages the bar that fills the gap before the next real bar, if one is due.
    pub fn maybe_stage_fill_forward(&mut self, next_real_frontier: DateTime)
        requires
            old(self).buffers_wf(),
            old(self).reach_wf(),
            old(self).end.day() <= MAX_FEED_DAYS,
        ensures
            final(self).buffers_wf(),
            final(self).reach_wf(),
            final(self).prefetched@ == (match old(self).fill_forward(next_real_frontier) {
                Some(point) => staged(
                    old(self).prefetched@,
                    old(self).pending@,
                    old(self).last_emitted_time,
                    old(self).config.resolution,
                    old(self).cache_policy.max_prefetch_rows as int,
                    seq![point],
                ),
                None => old(self).prefetched@,
            }),
            final(self).same_setup(old(self)),
            final(self).partition_date == old(self).partition_date,
            final(self).pending == old(self).pending,
            final(self).last_emitted_time == old(self).last_emitted_time,
            final(self).last_emitted_point == old(self).last_emitted_point,
            final(self).exhausted == old(self).exhausted,
    {
        if self.config.resolution.is_tick() || !self.config.fill_data_forward {
            return ;
        }
        let period: i64 = match self.config.resolution.to_time_span() {
            Some(period) => period,
            None => {
                return ;
            },
        };
        let fill_point = match &self.last_emitted_point {
            Some(last_point) => {
                let last_time = last_point.frontier_time();
                proof {
                    last_time.lemma_day();
                }
                let fill_frontier = DateTime { ns: last_time.ns + period };
                if fill_frontier.ns >= next_real_frontier.ns || fill_frontier.ns > self.end.ns {
                    return ;
                }
                if self.config.resolution == Resolution::Daily && self.config.symbol.security_type
                    == SecurityType::Equity && !is_open_equity_date(
                    &self.exchange_hours,
                    fill_frontier.date_utc(),
                ) {
                    return ;
                }
                if !self.is_regular_market_bar(fill_frontier) {
                    return ;
                }
                match fill_forward_point(last_point, fill_frontier, period) {
                    Some(point) => point,
                    None => {
                        return ;
                    },
                }
            },
            None => {
                return ;
            },
        };
        let mut points: Vec<SubscriptionDataPoint> = Vec::new();
        points.push(fill_point);
        proof {
            assert(points@ =~= seq![fill_point]);
            lemma_day_monotonic(fill_point.frontier(), self.end);
        }
        self.stage_loaded_points(points);
    }

    /// Releases the earliest instant: all its points become pending. Does
    /// nothing while points are pending; tells whether any are.
    pub fn promote_next_frontier(&mut self) -> (res: bool)
        requires
            old(self).buffers_wf(),
            old(self).reach_wf(),
            old(self).pending_first(),
        ensures
            final(self).buffers_wf(),
            final(self).reach_wf(),
            final(self).pending_first(),
            final(self).same_setup(old(self)),
            final(self).partition_date == old(self).partition_date,
            final(self).last_emitted_time == old(self).last_emitted_time,
            final(self).last_emitted_point == old(self).last_emitted_point,
            final(self).exhausted == old(self).exhausted,
            res == (old(self).pending@.len() > 0 || old(self).prefetched@.len() > 0),
            res == (final(self).pending@.len() > 0),
            old(self).pending@.len() > 0 ==> *final(self) == *old(self),
            old(self).pending@.len() == 0 ==> released(
                old(self).prefetched@,
                final(self).pending@,
                final(self).prefetched@,
            ),
    {
        if self.pending.len() > 0 {
            return true;
        }
        if self.prefetched.len() == 0 {
            assert(self.prefetched@.skip(0) =~= self.prefetched@);
            return false;
        }
        let ghost all = self.prefetched@;
        let frontier_time = self.prefetched[0].frontier_time();
        let mut count: usize = 1;
        while count < self.prefetched.len() && self.prefetched[count].frontier_time()
            == frontier_time
            invariant
                1 <= count <= self.prefetched@.len(),
                self.prefetched@ == all,
                all_buffered_wf(all),
                forall|i: int| 0 <= i < count ==> (#[trigger] all[i]).frontier() == frontier_time,
            decreases self.prefetched.len() - count,
        {
            count = count + 1;
        }
        let mut head: Vec<BufferedSubscriptionPoint> = Vec::new();
        head.append(&mut self.prefetched);
        assert(head@ =~= all);
        let rest = head.split_off(count);
        self.prefetched = rest;
        let ghost first = all.take(count as int);
        assert(head@ =~= first);
        assert(self.prefetched@ =~= all.skip(count as int));
        let ghost start = *self;
        for buffered in it: head
            invariant
                it.seq() == first,
                self.pending@.len() == it.index(),
                *self == (SubscriptionProducerState { pending: self.pending, ..start }),
                forall|i: int|
                    0 <= i < self.pending@.len() ==> (#[trigger] self.pending@[i]) == (
                    BufferedSubscriptionPoint {
                        point: first[i].point,
                        state: BufferedPointState::Emittable,
                    }),
        {
            let mut buffered = buffered;
            buffered.mark_emittable();
            self.pending.push_back(buffered);
        }
        proof {
            assert forall|i: int| 0 <= i < self.pending@.len() implies (
            #[trigger] self.pending@[i]).frontier() == frontier_time
                && self.pending@[i].point.wf() && on_readable_day(self.pending@[i].point)
                && later_than(self.last_emitted_time, frontier_time) by {
                assert(all[i] == first[i]);
                assert(all[i].frontier() == frontier_time);
                assert(later_than(self.last_emitted_time, all[i].frontier()));
            }
            assert forall|j: int| 0 <= j < self.prefetched@.len() implies frontier_time.ns < (
            #[trigger] self.prefetched@[j]).frontier().ns && self.prefetched@[j].point.wf()
                && on_readable_day(self.prefetched@[j].point) && later_than(
                self.last_emitted_time,
                self.prefetched@[j].frontier(),
            ) by {
                assert(self.prefetched@[j] == all[j + count]);
                assert(all[count as int].frontier() != frontier_time);
                assert(all[0].frontier().ns <= all[count as int].frontier().ns);
                assert(all[count as int].frontier().ns <= all[j + count].frontier().ns);
            }
            assert(buffered_in_order(self.prefetched@)) by {
                assert forall|i: int, j: int|
                    0 <= i <= j < self.prefetched@.len() implies (
                #[trigger] self.prefetched@[i]).frontier().ns <= (
                #[trigger] self.prefetched@[j]).frontier().ns by {
                    assert(self.prefetched@[i] == all[i + count]);
                    assert(self.prefetched@[j] == all[j + count]);
                }
            }
        }
        true
    }

    /// Hands out the next pending point and notes it as emitted.
    fn take_pending(&mut self) -> (res: Option<SubscriptionDataPoint>)
        requires
            old(self).pending@.len() > 0,
            old(self).buffers_wf(),
            old(self).reach_wf(),
            old(self).pending_first(),
        ensures
            final(self).buffers_wf(),
            final(self).reach_wf(),
            final(self).pending_first(),
            final(self).same_setup(old(self)),
            final(self).partition_date == old(self).partition_date,
            final(self).exhausted == old(self).exhausted,
            final(self).prefetched == old(self).prefetched,
            res == Some(old(self).pending@[0].point),
            final(self).pending@ == old(self).pending@.skip(1),
            final(self).last_emitted_time == Some(old(self).pending@[0].frontier()),
            final(self).last_emitted_point matches Some(copy) && old(self).pending@[0].point.same_as(copy),
    {
        let ghost all = self.pending@;
        match self.pending.pop_front() {
            Some(buffered) => {
                let frontier_time = buffered.frontier_time();
                let point = buffered.point;
                self.last_emitted_time = Some(frontier_time);
                self.last_emitted_point = Some(point.duplicate());
                proof {
                    assert(self.pending@ =~= all.skip(1));
                    assert(all[0].point == point);
                    assert forall|i: int| 0 <= i < self.pending@.len() implies #[trigger]
                        self.pending@[i] == all[i + 1] by {}
                    assert forall|j: int| 0 <= j < self.prefetched@.len() implies later_than(
                        self.last_emitted_time,
                        (#[trigger] self.prefetched@[j]).frontier(),
                    ) by {
                        assert(all[0].frontier().ns < self.prefetched@[j].frontier().ns);
                    }
                    assert forall|i: int| 0 <= i < self.pending@.len() implies {
                        &&& (#[trigger] self.pending@[i]).frontier()
                            == self.pending@[0].frontier()
                        &&& frontier_time.ns <= self.pending@[i].frontier().ns
                        &&& forall|j: int|
                            0 <= j < self.prefetched@.len() ==> self.pending@[i].frontier().ns < (
                            #[trigger] self.prefetched@[j]).frontier().ns
                        &&& self.pending@[i].point.wf()
                        &&& on_readable_day(self.pending@[i].point)
                    } by {
                        assert(all[i + 1].frontier() == all[0].frontier());
                        assert(all[1].frontier() == all[0].frontier());
                    }
                }
                Some(point)
            },
            None => None,
        }
    }

    /// Moves past the days just read, by at least one day.
    pub fn advance_partition_past(&mut self, through_date: Date)
        requires
            old(self).dates_wf(),
            old(self).partition_date.days <= MAX_FEED_DAYS,
            MIN_FEED_DAYS - 1 <= through_date.days <= MAX_FEED_DAYS,
        ensures
            final(self).dates_wf(),
            *final(self) == (SubscriptionProducerState {
                partition_date: Date {
                    days: if through_date.days >= old(self).partition_date.days {
                        (through_date.days + 1) as i32
                    } else {
                        (old(self).partition_date.days + 1) as i32
                    },
                },
                ..*old(self)
            }),
    {
        let next_date = match through_date.succ_opt() {
            Some(date) => date,
            None => through_date,
        };
        if next_date.days > self.partition_date.days {
            self.partition_date = next_date;
        } else {
            self.partition_date = Date { days: self.partition_date.days + 1 };
        }
    }

    /// Decides what comes next: release a buffered point, load the next
    /// partition that has sessions, or stop after the last one. Points are
    /// released instant by instant: none is earlier than the one before it, and
    /// what was read ahead for later instants stays behind.
    pub fn next_step(&mut self) -> (res: ProducerStep)
        requires
            old(self).wf(),
        ensures
            final(self).wf(),
            final(self).same_setup(old(self)),
            match res {
                ProducerStep::Emit(point) => {
                    &&& !old(self).exhausted
                    &&& !final(self).exhausted
                    &&& final(self).partition_date == old(self).partition_date
                    &&& final(self).last_emitted_time == Some(point.frontier())
                    &&& final(self).last_emitted_point matches Some(copy) && point.same_as(copy)
                    &&& old(self).last_emitted_time matches Some(last) ==> last.ns
                        <= point.frontier().ns
                    &&& old(self).pending@.len() == 0 ==> later_than(
                        old(self).last_emitted_time,
                        point.frontier(),
                    )
                    &&& forall|i: int|
                        0 <= i < final(self).prefetched@.len() ==> point.frontier().ns < (
                        #[trigger] final(self).prefetched@[i]).frontier().ns
                    &&& old(self).pending@.len() > 0 ==> {
                        &&& point == old(self).pending@[0].point
                        &&& final(self).pending@ == old(self).pending@.skip(1)
                        &&& final(self).prefetched == old(self).prefetched
                    }
                    &&& old(self).pending@.len() == 0 ==> {
                        &&& old(self).prefetched@.len() > 0
                        &&& point == old(self).prefetched@[0].point
                        &&& exists|group: Seq<BufferedSubscriptionPoint>|
                            {
                                &&& released(
                                    old(self).prefetched@,
                                    group,
                                    final(self).prefetched@,
                                )
                                &&& final(self).pending@ == #[trigger] group.skip(1)
                            }
                    }
                },
                ProducerStep::Load => {
                    &&& !old(self).exhausted
                    &&& !final(self).exhausted
                    &&& old(self).pending@.len() == 0
                    &&& old(self).prefetched@.len() == 0
                    &&& final(self).pending@.len() == 0
                    &&& final(self).prefetched@.len() == 0
                    &&& final(self).last_emitted_time == old(self).last_emitted_time
                    &&& final(self).last_emitted_point == old(self).last_emitted_point
                    &&& old(self).partition_date.days <= final(self).partition_date.days
                        <= old(self).end_partition_date.days
                    &&& !final(self).skips_partition()
                    &&& old(self).all_skipped(final(self).partition_date.days as int)
                },
                ProducerStep::Finished => {
                    &&& final(self).exhausted
                    &&& final(self).last_emitted_time == old(self).last_emitted_time
                    &&& final(self).last_emitted_point == old(self).last_emitted_point
                    &&& old(self).exhausted ==> *final(self) == *old(self)
                    &&& !old(self).exhausted ==> {
                        &&& old(self).pending@.len() == 0
                        &&& old(self).prefetched@.len() == 0
                        &&& final(self).pending@.len() == 0
                        &&& final(self).prefetched@.len() == 0
                        &&& final(self).partition_date.days > final(self).end_partition_date.days
                        &&& old(self).all_skipped(old(self).end_partition_date.days + 1)
                    }
                },
            },
    {
        if self.exhausted {
            return ProducerStep::Finished;
        }
        if self.promote_next_frontier() {
            let ghost group = self.pending@;
            assert(old(self).pending@.len() == 0 ==> released(
                old(self).prefetched@,
                group,
                self.prefetched@,
            ));
            match self.take_pending() {
                Some(point) => {
                    assert(self.pending@ == group.skip(1));
                    assert(old(self).pending@.len() == 0 ==> group[0].point
                        == old(self).prefetched@[0].point);
                    return ProducerStep::Emit(point);
                },
                None => {},
            }
        }
        while self.partition_date.days <= self.end_partition_date.days
            invariant
                self.wf(),
                self.same_setup(old(self)),
                old(self).wf(),
                !self.exhausted,
                !old(self).exhausted,
                old(self).pending@.len() == 0,
                old(self).prefetched@.len() == 0,
                self.pending@.len() == 0,
                self.prefetched@.len() == 0,
                self.last_emitted_time == old(self).last_emitted_time,
                self.last_emitted_point == old(self).last_emitted_point,
                old(self).partition_date.days <= self.partition_date.days,
                old(self).all_skipped(self.partition_date.days as int),
            decreases self.end_partition_date.days + 1 - self.partition_date.days,
        {
            if !self.should_skip_partition_date() {
                return ProducerStep::Load;
            }
            self.partition_date = Date { days: self.partition_date.days + 1 };
        }
        self.exhausted = true;
        ProducerStep::Finished
    }

    /// Whether the partition at the current date may be loaded under a ceiling:
    /// it lies at or before it, or the consumer waits for this very stream.
    pub open spec fn loads_under(&self, ceiling: Option<Date>, consumer_waits: bool) -> bool {
        consumer_waits || (ceiling matches Some(date) ==> self.partition_date.days <= date.days)
    }

    /// Decides whether the partition at the current date is loaded now, or only
    /// once the consumer has moved on. A stream that the consumer waits for loads
    /// in any case, so that a long gap in the data holds nobody up.
    pub fn may_load(&self, ceiling: Option<Date>, consumer_waits: bool) -> (res: bool)
        ensures
            res == self.loads_under(ceiling, consumer_waits),
    {
        if consumer_waits {
            return true;
        }
        match ceiling {
            Some(date) => self.partition_date.days <= date.days,
            None => true,
        }
    }

    /// Every date from the current one up to, not including, `until` has no
    /// session to read.
    pub open spec fn all_skipped(&self, until: int) -> bool {
        &&& self.partition_date.days < until ==> self.config.data_kind
            == SubscriptionDataKind::Market && is_daily_equity(self.config)
        &&& forall|d: Date|
            self.partition_date.days <= d.days < until ==> !#[trigger] self.exchange_hours.opens_on(
                d,
            )
    }

    /// Earliest instant of some points.
    fn earliest_frontier(points: &Vec<SubscriptionDataPoint>) -> (res: Option<DateTime>)
        requires
            all_wf(points@),
        ensures
            res == earliest(points@),
    {
        if points.len() == 0 {
            return None;
        }
        let mut min = points[0].frontier_time();
        let mut i: usize = 1;
        proof {
            assert(points@.take(1).drop_last() =~= Seq::<SubscriptionDataPoint>::empty());
            assert(earliest(points@.take(1).drop_last()) is None);
            assert(points@.take(1).last() == points@[0]);
        }
        while i < points.len()
            invariant
                1 <= i <= points@.len(),
                all_wf(points@),
                earliest(points@.take(i as int)) == Some(min),
            decreases points.len() - i,
        {
            let time = points[i].frontier_time();
            assert(points@.take(i + 1).drop_last() =~= points@.take(i as int));
            if time.ns < min.ns {
                min = time;
            }
            i = i + 1;
        }
        assert(points@.take(i as int) =~= points@);
        Some(min)
    }

    /// Takes in a loaded partition: fills the gap before it, buffers its points
    /// and moves past the days read. A partition without points yields the
    /// instant up to which the consumer may go on.
    pub fn accept_partition(&mut self, loaded: LoadedPartition) -> (watermark: Option<DateTime>)
        requires
            old(self).wf(),
            old(self).pending@.len() == 0,
            old(self).partition_date.days <= MAX_FEED_DAYS,
            old(self).end.day() <= MAX_FEED_DAYS,
            MIN_FEED_DAYS - 1 <= loaded.through_date.days <= MAX_FEED_DAYS,
            all_wf(loaded.points@),
            forall|i: int|
                0 <= i < loaded.points@.len() ==> on_readable_day(#[trigger] loaded.points@[i]),
        ensures
            final(self).wf(),
            final(self).same_setup(old(self)),
            final(self).pending@.len() == 0,
            final(self).last_emitted_time == old(self).last_emitted_time,
            final(self).last_emitted_point == old(self).last_emitted_point,
            final(self).exhausted == old(self).exhausted,
            final(self).partition_date.days == (if loaded.through_date.days
                >= old(self).partition_date.days {
                loaded.through_date.days + 1
            } else {
                old(self).partition_date.days + 1
            }),
            ({
                let filled = match earliest(loaded.points@) {
                    Some(next) => match old(self).fill_forward(next) {
                        Some(point) => seq![point],
                        None => Seq::empty(),
                    },
                    None => Seq::empty(),
                };
                let policy = old(self).cache_policy.max_prefetch_rows as int;
                let resolution = old(self).config.resolution;
                let last = old(self).last_emitted_time;
                let none = Seq::<BufferedSubscriptionPoint>::empty();
                final(self).prefetched@ == staged(
                    staged(old(self).prefetched@, none, last, resolution, policy, filled),
                    none,
                    last,
                    resolution,
                    policy,
                    loaded.points@,
                )
            }),
            watermark == (if loaded.points@.len() == 0 && old(self).prefetched@.len() == 0 {
                Some(DateTime { ns: clock_ns(loaded.through_date.days as int, 86_399) as i64 })
            } else {
                None
            }),
    {
        assert(self.pending@ =~= Seq::<BufferedSubscriptionPoint>::empty());
        if let Some(next_frontier) = Self::earliest_frontier(&loaded.points) {
            self.maybe_stage_fill_forward(next_frontier);
        }
        let loaded_points: usize = loaded.points.len();
        self.stage_loaded_points(loaded.points);
        let watermark = if loaded_points == 0 && self.pending.len() == 0 && self.prefetched.len()
            == 0 {
            Some(partition_day_end(loaded.through_date))
        } else {
            None
        };
        self.advance_partition_past(loaded.through_date);
        watermark
    }

    /// Stops after the consumer has gone.
    pub fn mark_disconnected(&mut self)
        ensures
            *final(self) == (SubscriptionProducerState { exhausted: true, ..*old(self) }),
    {
        self.exhausted = true;
    }
}

/// Earliest instant of some points.
pub open spec fn earliest(points: Seq<SubscriptionDataPoint>) -> Option<DateTime>
    decreases points.len(),
{
    if points.len() == 0 {
        None
    } else {
        match earliest(points.drop_last()) {
            Some(time) => if points.last().frontier().ns < time.ns {
                Some(points.last().frontier())
            } else {
                Some(time)
            },
            None => Some(points.last().frontier()),
        }
    }
}

/// Whether `pending` holds exactly the earliest points of an ordered buffer,
/// now emittable, and `rest` the others.
pub open spec fn released(
    buffer: Seq<BufferedSubscriptionPoint>,
    pending: Seq<BufferedSubscriptionPoint>,
    rest: Seq<BufferedSubscriptionPoint>,
) -> bool {
    &&& pending.len() + rest.len() == buffer.len()
    &&& buffer.len() > 0 ==> pending.len() > 0
    &&& rest == buffer.skip(pending.len() as int)
    &&& forall|i: int|
        0 <= i < pending.len() ==> (#[trigger] pending[i]) == (BufferedSubscriptionPoint {
            point: buffer[i].point,
            state: BufferedPointState::Emittable,
        }) && buffer[i].frontier() == buffer[0].frontier()
    &&& forall|i: int|
        0 <= i < rest.len() ==> (#[trigger] rest[i]).frontier() != buffer[0].frontier()
}

/// Earlier instants are on no later days.
pub proof fn lemma_day_monotonic(a: DateTime, b: DateTime)
    requires
        a.ns <= b.ns,
    ensures
        a.day() <= b.day(),
{
    vstd::arithmetic::div_mod::lemma_div_is_ordered(
        a.ns as int,
        b.ns as int,
        crate::time::NANOS_PER_DAY as int,
    );
}

/// A producer reads no further ahead of the consumer than the horizon of the
/// policy in force, unless the consumer waits for its stream. The horizon is
/// never wider than the one for the number of active subscriptions.
pub proof fn law_prefetch_stays_within_horizon(
    context: DataFeedContext,
    state: SubscriptionProducerState,
    reached: Date,
)
    requires
        context.wf(),
        context.frontier() == Some(reached),
        context.ceiling() is Some,
        state.loads_under(context.ceiling(), false),
    ensures
        state.partition_date.days <= reached.days + context.policy().max_prefetch_ahead_days,
        state.partition_date.days <= reached.days + ahead_days(
            context.active_subscription_count as int,
        ),
{
}

/// A bar that is filled forward reports that nothing traded. A trade bar is flat
/// at the last close and without volume; a quote bar stands at the last quotes.
/// It is a bar of the same security, spans exactly the period that ends at
/// `frontier`, and nothing but a bar is filled forward.
pub proof fn law_filled_bar_is_flat_at_the_last_close(
    last: SubscriptionDataPoint,
    frontier: DateTime,
    period: i64,
)
    requires
        i64::MIN <= frontier.ns - period <= i64::MAX,
    ensures
        filled_forward(last, frontier, period) is Some <==> last is TradeBar || last is QuoteBar,
        filled_forward(last, frontier, period) matches Some(point) ==> point.frontier() == frontier,
        last matches SubscriptionDataPoint::TradeBar(bar) ==> (
        filled_forward(last, frontier, period) matches Some(SubscriptionDataPoint::TradeBar(fill))
            && {
            &&& fill.open == bar.close
            &&& fill.high == bar.close
            &&& fill.low == bar.close
            &&& fill.close == bar.close
            &&& fill.volume.mantissa == 0
            &&& fill.symbol == bar.symbol
            &&& fill.end_time == frontier
            &&& fill.time.ns + period == frontier.ns
            &&& fill.period == period
        }),
        last matches SubscriptionDataPoint::QuoteBar(bar) ==> (
        filled_forward(last, frontier, period) matches Some(SubscriptionDataPoint::QuoteBar(fill))
            && {
            &&& fill.bid == bar.bid
            &&& fill.ask == bar.ask
            &&& fill.last_bid_size == bar.last_bid_size
            &&& fill.last_ask_size == bar.last_ask_size
            &&& fill.symbol == bar.symbol
            &&& fill.end_time == frontier
            &&& fill.time.ns + period == frontier.ns
            &&& fill.period == period
        }),
{
}

/// A gap is filled one period after the last bar, before the next real one and
/// within the run, and only where the subscription asks for it. An intraday
/// equity bar is filled only while the market is open, a daily equity bar only on
/// a day on which it trades. Where all that holds of a bar, the gap is filled.
pub proof fn law_gap_is_filled_after_the_last_bar(
    state: SubscriptionProducerState,
    next_real: DateTime,
    last: SubscriptionDataPoint,
    period: i64,
)
    requires
        state.last_emitted_point == Some(last),
        state.config.resolution.span() == Some(period),
        i64::MIN <= last.frontier().ns + period <= i64::MAX,
        period >= 0,
    ensures
        ({
            let at = DateTime { ns: (last.frontier().ns + period) as i64 };
            let equity = state.config.symbol.security_type == SecurityType::Equity;
            let daily = state.config.resolution == Resolution::Daily;
            let trades = {
                &&& equity && daily ==> state.exchange_hours.opens_on(at.date())
                &&& equity && !daily ==> state.exchange_hours.open_at(last.frontier())
            };
            let wanted = {
                &&& state.config.fill_data_forward
                &&& at.ns < next_real.ns
                &&& at.ns <= state.end.ns
                &&& trades
            };
            &&& state.fill_forward(next_real) is Some <==> wanted && (last is TradeBar
                || last is QuoteBar)
            &&& state.fill_forward(next_real) matches Some(point) ==> point.frontier() == at
            &&& state.fill_forward(next_real) is Some ==> state.fill_forward(next_real)
                == filled_forward(last, at, period)
        }),
{
    assert(DateTime { ns: (last.frontier().ns + period - period) as i64 } == last.frontier());
}

/// Nothing is filled forward before a first bar, nor between ticks.
pub proof fn law_nothing_to_fill_forward(state: SubscriptionProducerState, next_real: DateTime)
    requires
        state.last_emitted_point is None || state.config.resolution == Resolution::Tick,
    ensures
        state.fill_forward(next_real) is None,
{
}

/// A point that is read is buffered, unless it is not later than what was emitted, is a
/// second bar of one instant, or the buffer is full. What is buffered stays buffered, and a
/// point is buffered unchanged.
pub proof fn law_read_points_are_buffered(
    prefetched: Seq<BufferedSubscriptionPoint>,
    last: Option<DateTime>,
    resolution: Resolution,
    max_rows: int,
    point: SubscriptionDataPoint,
)
    ensures
        ({
            let none = Seq::<BufferedSubscriptionPoint>::empty();
            let out = staged(prefetched, none, last, resolution, max_rows, seq![point]);
            let new = BufferedSubscriptionPoint { point, state: BufferedPointState::Loaded };
            let stale = last matches Some(time) && point.frontier().ns <= time.ns;
            let second = resolution != Resolution::Tick && (point is TradeBar || point is QuoteBar)
                && exists|i: int|
                0 <= i < prefetched.len() && (#[trigger] prefetched[i]).frontier()
                    == point.frontier();
            &&& stale || second || prefetched.len() >= max_rows ==> out == prefetched
            &&& !stale && !second && prefetched.len() < max_rows ==> {
                &&& out.to_multiset() == prefetched.to_multiset().insert(new)
                &&& out.contains(new)
                &&& buffered_in_order(prefetched) ==> buffered_in_order(out)
            }
        }),
{
    let none = Seq::<BufferedSubscriptionPoint>::empty();
    let points = seq![point];
    reveal_with_fuel(staged, 2);
    assert(points.subrange(1, 1).len() == 0);
    assert(points[0] == point);
    lemma_with_buffered(
        prefetched,
        BufferedSubscriptionPoint { point, state: BufferedPointState::Loaded },
    );
}

/// Points are released by whole instants, earliest first: what is released shares the
/// earliest instant of the buffer, what stays is later, and nothing is lost.
pub proof fn law_instants_are_released_whole(
    buffer: Seq<BufferedSubscriptionPoint>,
    pending: Seq<BufferedSubscriptionPoint>,
    rest: Seq<BufferedSubscriptionPoint>,
    i: int,
)
    requires
        released(buffer, pending, rest),
        buffered_in_order(buffer),
        buffer.len() > 0,
        0 <= i < buffer.len(),
    ensures
        pending.len() > 0,
        pending.len() + rest.len() == buffer.len(),
        i < pending.len() <==> buffer[i].frontier() == buffer[0].frontier(),
        i < pending.len() ==> pending[i].point == buffer[i].point,
        i >= pending.len() ==> rest[i - pending.len()] == buffer[i] && buffer[i].frontier().ns
            > buffer[0].frontier().ns,
{
    if i >= pending.len() {
        assert(rest[i - pending.len()] == buffer[i]);
        assert(buffer[0].frontier().ns <= buffer[i].frontier().ns);
    } else {
        assert(pending[i] == (BufferedSubscriptionPoint {
            point: buffer[i].point,
            state: BufferedPointState::Emittable,
        }));
    }
}

/// The window of a cache fill lies within the run and does not start before any row can
/// exist, nor before the date that is read; where rows exist from the start it starts with
/// that date.
pub proof fn law_fill_windows_stay_within_the_run(
    date: Date,
    last: Date,
    resolution: Resolution,
    intervals: int,
    earliest: Option<Date>,
)
    requires
        date.days <= fill_window(date, last, resolution, intervals, earliest).1.days,
        fill_in_calendar(date, resolution, intervals),
    ensures
        ({
            let (start, end) = fill_window(date, last, resolution, intervals, earliest);
            &&& end.days <= last.days
            &&& end.days <= fill_end(date, resolution, intervals)
            &&& end.days == last.days || end.days == fill_end(date, resolution, intervals)
            &&& date.days <= start.days <= end.days
            &&& earliest is None ==> start == date
            &&& earliest matches Some(first) ==> start.days == date.days || start.days == first.days
                || start == end
            &&& earliest matches Some(first) ==> (first.days <= end.days ==> start.days
                >= first.days)
        }),
{
}

/// Only days of daily equity data on which the market does not trade are passed over.
pub proof fn law_trading_days_are_read(state: SubscriptionProducerState)
    ensures
        state.skips_partition() ==> state.config.resolution == Resolution::Daily
            && state.config.symbol.security_type == SecurityType::Equity
            && !state.exchange_hours.opens_on(state.partition_date),
        state.exchange_hours.opens_on(state.partition_date) ==> !state.skips_partition(),
        state.config.resolution != Resolution::Daily ==> !state.skips_partition(),
{
}

/// The earliest of some points is one of them, and none is earlier.
pub proof fn law_earliest_point(points: Seq<SubscriptionDataPoint>, k: int)
    requires
        0 <= k < points.len(),
    ensures
        earliest(points) matches Some(time) && time.ns <= points[k].frontier().ns && exists|i: int|
            0 <= i < points.len() && (#[trigger] points[i]).frontier() == time,
    decreases points.len(),
{
    let head = points.drop_last();
    assert(points[points.len() - 1] == points.last());
    if head.len() > 0 {
        law_earliest_point(head, if k < head.len() {
            k
        } else {
            0
        });
        if k < head.len() {
            assert(head[k] == points[k]);
        }
        let i = choose|i: int|
            0 <= i < head.len() && Some((#[trigger] head[i]).frontier()) == earliest(head);
        assert(points[i] == head[i]);
    }
}

} // verus!
