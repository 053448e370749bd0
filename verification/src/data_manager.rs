//! Drives the data of a run through its subscription streams.

use crate::data_feed::context::{frontier_after, DataFeedContext};
use crate::data_feed::market_cache::{flushed_through, MarketFlush};
use crate::data_feed::policy::SubscriptionCachePolicy;
use crate::model::{Resolution, SubscriptionDataConfig, SubscriptionDataKind};
use crate::runner::live::has_sid;
use crate::slice_synchronizer::SliceSynchronizer;
use crate::subscription_reader::coverage::{lemma_filter_index, lemma_push_contains};
use crate::subscription_reader::fetch::{market_table, table_of, MarketTable};
use crate::subscription_reader::stream::SubscriptionStream;
use crate::time::{Date, DateTime};
use vstd::prelude::*;

verus! {

/// Drives the data of a run.
pub struct DataManager {
    pub context: DataFeedContext,
    /// Ids of the active subscriptions.
    pub active_subscriptions: Vec<u64>,
    pub synchronizer: Option<SliceSynchronizer>,
    pub end: Option<DateTime>,
    pub last_market_cache_flush_date: Option<Date>,
}

/// What follows the emission of a slice.
pub struct SliceFollowUp {
    /// Whether producers that wait for the frontier are woken.
    pub wake: bool,
    /// Rows to be written to the store.
    pub flush: Option<MarketFlush>,
}

/// The streams of a manager.
pub open spec fn streams_of(manager: DataManager) -> Seq<SubscriptionStream> {
    match manager.synchronizer {
        Some(sync) => sync.streams@,
        None => Seq::empty(),
    }
}

/// Whether a stream over a period has only been started, under the limits in
/// force.
pub open spec fn is_fresh(
    stream: SubscriptionStream,
    config: SubscriptionDataConfig,
    window: (DateTime, DateTime),
    policy: SubscriptionCachePolicy,
) -> bool {
    &&& stream.config == config
    &&& stream.start == window.0
    &&& stream.end == window.1
    &&& stream.capacity == policy.slots()
    &&& stream.pending@.len() == 0
    &&& stream.watermark is None
    &&& !stream.exhausted
}

/// Ids with more added, without repetition.
pub open spec fn with_ids(ids: Seq<u64>, configs: Seq<SubscriptionDataConfig>) -> Seq<u64>
    decreases configs.len(),
{
    if configs.len() == 0 {
        ids
    } else {
        let head = with_ids(ids, configs.drop_last());
        if head.contains(configs.last().unique_id) {
            head
        } else {
            head.push(configs.last().unique_id)
        }
    }
}

/// The subscriptions that are not active.
pub open spec fn inactive(
    active: Seq<u64>,
    configs: Seq<SubscriptionDataConfig>,
) -> Seq<SubscriptionDataConfig> {
    configs.filter(|config: SubscriptionDataConfig| !active.contains(config.unique_id))
}

proof fn lemma_with_ids(ids: Seq<u64>, configs: Seq<SubscriptionDataConfig>)
    requires
        ids.no_duplicates(),
    ensures
        with_ids(ids, configs).no_duplicates(),
    decreases configs.len(),
{
    if configs.len() > 0 {
        lemma_with_ids(ids, configs.drop_last());
        lemma_push_contains(
            with_ids(ids, configs.drop_last()),
            configs.last().unique_id,
        );
    }
}

/// Ids with those of some subscriptions added, without repetition.
fn ids_with(ids: Vec<u64>, configs: &Vec<SubscriptionDataConfig>) -> (res: Vec<u64>)
    ensures
        res@ == with_ids(ids@, configs@),
{
    let mut res = ids;
    let mut i: usize = 0;
    assert(configs@.take(0) =~= Seq::<SubscriptionDataConfig>::empty());
    while i < configs.len()
        invariant
            i <= configs@.len(),
            res@ == with_ids(ids@, configs@.take(i as int)),
        decreases configs.len() - i,
    {
        let id: u64 = configs[i].unique_id;
        proof {
            assert(configs@.take(i + 1).drop_last() =~= configs@.take(i as int));
            assert(configs@.take(i + 1).last() == configs@[i as int]);
        }
        if !has_sid(&res, id) {
            res.push(id);
        }
        i = i + 1;
    }
    assert(configs@.take(i as int) =~= configs@);
    res
}

impl DataManager {
    pub open spec fn wf(&self) -> bool {
        &&& self.context.wf()
        &&& self.active_subscriptions@.no_duplicates()
        &&& self.synchronizer matches Some(sync) ==> sync.wf()
    }

    /// A manager without subscriptions.
    pub fn from_context(context: DataFeedContext) -> (res: DataManager)
        requires
            context.wf(),
        ensures
            res.wf(),
            res.context == context,
            res.active_subscriptions@.len() == 0,
            res.synchronizer is None,
            res.end is None,
            res.last_market_cache_flush_date is None,
    {
        DataManager {
            context,
            active_subscriptions: Vec::new(),
            synchronizer: None,
            end: None,
            last_market_cache_flush_date: None,
        }
    }

    pub fn context(&self) -> (res: &DataFeedContext)
        ensures
            *res == self.context,
    {
        &self.context
    }

    /// Starts a stream for each subscription of a period and forgets earlier
    /// ones. The frontier starts at the first date.
    pub fn initialize_feed(
        &mut self,
        configs: Vec<SubscriptionDataConfig>,
        start: DateTime,
        end: DateTime,
    )
        requires
            old(self).wf(),
        ensures
            final(self).wf(),
            final(self).active_subscriptions@ == with_ids(Seq::empty(), configs@),
            final(self).synchronizer matches Some(sync) && sync.end == end && sync.streams@.len()
                == configs@.len() && forall|i: int|
                0 <= i < configs@.len() ==> is_fresh(
                    #[trigger] sync.streams@[i],
                    configs@[i],
                    (start, end),
                    final(self).context.policy(),
                ),
            final(self).end == Some(end),
            final(self).last_market_cache_flush_date is None,
            final(self).context.frontier() == frontier_after(
                old(self).context.frontier(),
                seq![start.date()],
            ),
            final(self).context.options == old(self).context.options,
            final(self).context.active_subscription_count == final(self).active_subscriptions@.len(),
            final(self).context.market_cache_writes == old(self).context.market_cache_writes,
    {
        self.active_subscriptions = Vec::new();
        self.last_market_cache_flush_date = None;
        proof {
            start.lemma_day();
            reveal_with_fuel(frontier_after, 2);
            assert(seq![start.date()].drop_last() =~= Seq::<Date>::empty());
        }
        self.context.seed_consumer_frontier(start.date_utc());
        let ghost all = configs@;
        let ids = ids_with(Vec::new(), &configs);
        proof {
            lemma_with_ids(Seq::empty(), all);
        }
        self.context.active_subscription_count = ids.len();
        let policy = self.context.effective_cache_policy();
        let capacity: usize = policy.channel_capacity();
        let mut streams: Vec<SubscriptionStream> = Vec::new();
        for config in it: configs
            invariant
                it.seq() == all,
                streams@.len() == it.index(),
                capacity == policy.slots(),
                forall|i: int|
                    0 <= i < streams@.len() ==> is_fresh(
                        #[trigger] streams@[i],
                        all[i],
                        (start, end),
                        policy,
                    ),
        {
            let ghost before = streams@;
            assert(all[it.index() as int] == config);
            streams.push(SubscriptionStream::new(config, start, end, capacity));
            assert forall|i: int| 0 <= i < streams@.len() implies is_fresh(
                #[trigger] streams@[i],
                all[i],
                (start, end),
                policy,
            ) by {
                if i < before.len() {
                    assert(streams@[i] == before[i]);
                }
            }
        }
        self.active_subscriptions = ids;
        let sync = SliceSynchronizer::new(streams, end);
        assert(sync.wf()) by {
            assert forall|i: int| 0 <= i < sync.streams@.len() implies (
            #[trigger] sync.streams@[i]).wf() by {
                assert(is_fresh(streams@[i], all[i], (start, end), policy));
            }
        }
        self.synchronizer = Some(sync);
        self.end = Some(end);
    }

    /// Period of a stream that starts while the run is on.
    pub open spec fn window_from(&self, start: DateTime) -> (DateTime, DateTime) {
        (
            start,
            match self.end {
                Some(end) => end,
                None => start,
            },
        )
    }

    /// Period of a stream that starts while the run is on: up to the end of the
    /// run, or only its start where no end is known.
    pub fn stream_window(&self, start: DateTime) -> (res: (DateTime, DateTime))
        ensures
            res == self.window_from(start),
    {
        match self.end {
            Some(end) => (start, end),
            None => (start, start),
        }
    }

    /// Starts a stream for a subscription, unless it is active already. It runs
    /// from `start` to the end of the run.
    pub fn add_subscription(&mut self, config: SubscriptionDataConfig, start: DateTime) -> (added: bool)
        requires
            old(self).wf(),
        ensures
            final(self).wf(),
            added == !old(self).active_subscriptions@.contains(config.unique_id),
            !added ==> *final(self) == *old(self),
            added ==> {
                &&& final(self).active_subscriptions@ == old(self).active_subscriptions@.push(
                    config.unique_id,
                )
                &&& final(self).context.active_subscription_count == final(self).active_subscriptions@.len()
                &&& streams_of(*final(self)).len() == streams_of(*old(self)).len() + 1
                &&& streams_of(*final(self)).drop_last() == streams_of(*old(self))
                &&& is_fresh(
                    streams_of(*final(self)).last(),
                    config,
                    old(self).window_from(start),
                    final(self).context.policy(),
                )
                &&& final(self).synchronizer matches Some(sync) && sync.end == (
                match old(self).synchronizer {
                    Some(held) => held.end,
                    None => old(self).window_from(start).1,
                })
                &&& final(self).end == old(self).end
                &&& final(self).last_market_cache_flush_date == old(self).last_market_cache_flush_date
                &&& final(self).context == (DataFeedContext {
                    active_subscription_count: final(self).context.active_subscription_count,
                    ..old(self).context
                })
            },
    {
        let id: u64 = config.unique_id;
        if has_sid(&self.active_subscriptions, id) {
            return false;
        }
        let ghost before = streams_of(*self);
        let (start, end) = self.stream_window(start);
        proof {
            lemma_push_contains(self.active_subscriptions@, id);
        }
        self.active_subscriptions.push(id);
        self.context.active_subscription_count = self.active_subscriptions.len();
        let capacity: usize = self.context.effective_cache_policy().channel_capacity();
        let stream = SubscriptionStream::new(config, start, end, capacity);
        match self.synchronizer.take() {
            Some(sync) => {
                let mut sync = sync;
                let ghost held = sync.streams@;
                sync.add_stream(stream);
                assert(sync.wf()) by {
                    assert forall|i: int| 0 <= i < sync.streams@.len() implies (
                    #[trigger] sync.streams@[i]).wf() by {
                        if i < held.len() {
                            assert(sync.streams@[i] == held[i]);
                        }
                    }
                }
                assert(sync.streams@.drop_last() =~= held);
                self.synchronizer = Some(sync);
            },
            None => {
                let mut streams: Vec<SubscriptionStream> = Vec::new();
                streams.push(stream);
                assert(streams@.drop_last() =~= Seq::<SubscriptionStream>::empty());
                self.synchronizer = Some(SliceSynchronizer::new(streams, end));
            },
        }
        true
    }

    /// Starts streams for the subscriptions that are not active, in order, and
    /// gives their number. They run from `start` to the end of the run.
    pub fn add_subscriptions(&mut self, configs: Vec<SubscriptionDataConfig>, start: DateTime) -> (started:
        usize)
        requires
            old(self).wf(),
        ensures
            final(self).wf(),
            ({
                let new = inactive(old(self).active_subscriptions@, configs@);
                let before = streams_of(*old(self));
                let after = streams_of(*final(self));
                &&& started == new.len()
                &&& new.len() == 0 ==> *final(self) == *old(self)
                &&& after.len() == before.len() + new.len()
                &&& after.take(before.len() as int) == before
                &&& forall|i: int|
                    0 <= i < new.len() ==> is_fresh(
                        #[trigger] after[before.len() + i],
                        new[i],
                        old(self).window_from(start),
                        final(self).context.policy(),
                    )
                &&& final(self).active_subscriptions@ == with_ids(
                    old(self).active_subscriptions@,
                    new,
                )
                &&& new.len() > 0 ==> final(self).context == (DataFeedContext {
                    active_subscription_count: final(self).active_subscriptions.len(),
                    ..old(self).context
                })
                &&& final(self).end == old(self).end
                &&& final(self).last_market_cache_flush_date == old(self).last_market_cache_flush_date
                &&& new.len() > 0 ==> (final(self).synchronizer matches Some(sync) && sync.end == (
                match old(self).synchronizer {
                    Some(held) => held.end,
                    None => old(self).window_from(start).1,
                }))
            }),
    {
        let ghost active = self.active_subscriptions@;
        let ghost all = configs@;
        let ghost keep = |config: SubscriptionDataConfig| !active.contains(config.unique_id);
        let ghost new = inactive(active, all);
        let mut new_configs: Vec<SubscriptionDataConfig> = Vec::new();
        proof {
            reveal(Seq::filter);
            assert(all.take(0) =~= Seq::<SubscriptionDataConfig>::empty());
        }
        for config in it: configs
            invariant
                it.seq() == all,
                self.active_subscriptions@ == active,
                keep == |config: SubscriptionDataConfig| !active.contains(config.unique_id),
                new_configs@ == all.take(it.index() as int).filter(keep),
        {
            proof {
                let i = it.index() as int;
                reveal(Seq::filter);
                assert(all[i] == config);
                assert(all.take(i + 1).drop_last() =~= all.take(i));
                assert(all.take(i + 1).last() == config);
            }
            if !has_sid(&self.active_subscriptions, config.unique_id) {
                new_configs.push(config);
            }
        }
        assert(all.take(all.len() as int) =~= all);
        let started: usize = new_configs.len();
        if started == 0 {
            assert(streams_of(*self).take(streams_of(*self).len() as int) =~= streams_of(*self));
            return 0;
        }
        let ghost before = streams_of(*self);
        let (from, end) = self.stream_window(start);
        let mut sync = match self.synchronizer.take() {
            Some(sync) => sync,
            None => SliceSynchronizer::new(Vec::new(), end),
        };
        assert(sync.streams@ =~= before);
        let ghost sync_end = sync.end;
        let mut held: Vec<u64> = Vec::new();
        held.append(&mut self.active_subscriptions);
        assert(held@ =~= active);
        let ids = ids_with(held, &new_configs);
        proof {
            lemma_with_ids(active, new);
        }
        self.context.active_subscription_count = ids.len();
        self.active_subscriptions = ids;
        let policy = self.context.effective_cache_policy();
        let capacity: usize = policy.channel_capacity();
        assert(before.take(before.len() as int) =~= before);
        for config in it: new_configs
            invariant
                it.seq() == new,
                sync.wf(),
                sync.end == sync_end,
                capacity == policy.slots(),
                sync.streams@.len() == before.len() + it.index(),
                sync.streams@.take(before.len() as int) == before,
                forall|i: int|
                    0 <= i < it.index() ==> is_fresh(
                        #[trigger] sync.streams@[before.len() + i],
                        new[i],
                        (from, end),
                        policy,
                    ),
        {
            let ghost held = sync.streams@;
            let ghost at = it.index() as int;
            assert(new[at] == config);
            sync.add_stream(SubscriptionStream::new(config, from, end, capacity));
            proof {
                assert(sync.wf()) by {
                    assert forall|i: int| 0 <= i < sync.streams@.len() implies (
                    #[trigger] sync.streams@[i]).wf() by {
                        if i < held.len() {
                            assert(sync.streams@[i] == held[i]);
                        }
                    }
                }
                assert(sync.streams@.take(before.len() as int) =~= held.take(before.len() as int));
                assert forall|i: int| 0 <= i < at + 1 implies is_fresh(
                    #[trigger] sync.streams@[before.len() + i],
                    new[i],
                    (from, end),
                    policy,
                ) by {
                    if i < at {
                        assert(sync.streams@[before.len() + i] == held[before.len() + i]);
                    }
                }
            }
        }
        self.synchronizer = Some(sync);
        started
    }

    /// Ends the streams of a subscription; one that is not active changes nothing.
    pub fn remove_subscription(&mut self, id: u64) -> (removed: bool)
        requires
            old(self).wf(),
        ensures
            final(self).wf(),
            removed == old(self).active_subscriptions@.contains(id),
            !removed ==> *final(self) == *old(self),
            removed ==> {
                &&& final(self).active_subscriptions@ == old(self).active_subscriptions@.filter(
                    |x: u64| x != id,
                )
                &&& final(self).context.active_subscription_count == final(self).active_subscriptions@.len()
                &&& streams_of(*final(self)) == streams_of(*old(self)).filter(
                    |stream: SubscriptionStream| stream.config.unique_id != id,
                )
                &&& forall|i: int|
                    0 <= i < streams_of(*final(self)).len() ==> (
                    #[trigger] streams_of(*final(self))[i]).config.unique_id != id
                &&& match old(self).synchronizer {
                    Some(held) => final(self).synchronizer matches Some(sync) && sync.end
                        == held.end,
                    None => final(self).synchronizer is None,
                }
                &&& final(self).end == old(self).end
                &&& final(self).last_market_cache_flush_date == old(self).last_market_cache_flush_date
                &&& final(self).context == (DataFeedContext {
                    active_subscription_count: final(self).context.active_subscription_count,
                    ..old(self).context
                })
            },
            subscription_removed(*old(self), id, *final(self), removed),
    {
        if !has_sid(&self.active_subscriptions, id) {
            return false;
        }
        let ghost all = self.active_subscriptions@;
        let ghost keep = |x: u64| x != id;
        let mut kept: Vec<u64> = Vec::new();
        let mut i: usize = 0;
        proof {
            reveal(Seq::filter);
            assert(all.take(0).filter(keep) =~= Seq::<u64>::empty());
        }
        while i < self.active_subscriptions.len()
            invariant
                i <= all.len(),
                self.active_subscriptions@ == all,
                all.no_duplicates(),
                keep == |x: u64| x != id,
                kept@ == all.take(i as int).filter(keep),
                kept@.no_duplicates(),
                forall|x: u64| #[trigger] kept@.contains(x) ==> all.take(i as int).contains(x),
            decreases self.active_subscriptions.len() - i,
        {
            let x: u64 = self.active_subscriptions[i];
            proof {
                reveal(Seq::filter);
                assert(all.take(i + 1).drop_last() =~= all.take(i as int));
                assert(all.take(i + 1).last() == x);
                assert(all.take(i + 1) =~= all.take(i as int).push(x));
                lemma_push_contains(all.take(i as int), x);
                lemma_push_contains(kept@, x);
                if all.take(i as int).contains(x) {
                    let k = choose|k: int|
                        0 <= k < all.take(i as int).len() && all.take(i as int)[k] == x;
                    assert(all[k] == all[i as int]);
                }
            }
            if x != id {
                kept.push(x);
            }
            i = i + 1;
        }
        assert(all.take(i as int) =~= all);
        self.active_subscriptions = kept;
        self.context.active_subscription_count = self.active_subscriptions.len();
        match self.synchronizer.take() {
            Some(sync) => {
                let mut sync = sync;
                let ghost held = sync.streams@;
                sync.remove_stream(id);
                assert(sync.wf()) by {
                    assert forall|k: int| 0 <= k < sync.streams@.len() implies (
                    #[trigger] sync.streams@[k]).wf() by {
                        lemma_filter_index(
                            held,
                            |stream: SubscriptionStream| stream.config.unique_id != id,
                            k,
                        );
                    }
                }
                assert forall|k: int| 0 <= k < sync.streams@.len() implies (
                #[trigger] sync.streams@[k]).config.unique_id != id by {
                    lemma_filter_index(
                        held,
                        |stream: SubscriptionStream| stream.config.unique_id != id,
                        k,
                    );
                }
                self.synchronizer = Some(sync);
            },
            None => {
                self.synchronizer = None;
                proof {
                    reveal(Seq::filter);
                    assert(streams_of(*self) =~= Seq::<SubscriptionStream>::empty());
                }
            },
        }
        proof {
            lemma_filtered(all, keep);
            lemma_filtered(
                streams_of(*old(self)),
                |stream: SubscriptionStream| stream.config.unique_id != id,
            );
        }
        true
    }

    /// Follows the emission of a slice: the frontier moves to its date, and the
    /// rows that the run has passed are written, once per date.
    pub fn after_slice(&mut self, time: DateTime) -> (res: SliceFollowUp)
        requires
            old(self).wf(),
        ensures
            final(self).wf(),
            final(self).active_subscriptions == old(self).active_subscriptions,
            final(self).synchronizer == old(self).synchronizer,
            final(self).end == old(self).end,
            final(self).last_market_cache_flush_date == Some(time.date()),
            final(self).context.options == old(self).context.options,
            final(self).context.active_subscription_count == old(
                self,
            ).context.active_subscription_count,
            final(self).context.frontier() == (if res.wake {
                Some(time.date())
            } else {
                old(self).context.frontier()
            }),
            res.wake == (match old(self).context.frontier() {
                Some(reached) => time.day() > reached.days,
                None => true,
            }),
            res.flush is Some <==> old(self).last_market_cache_flush_date != Some(time.date()),
            match res.flush {
                Some(flush) => flushed_through(
                    old(self).context.market_cache_writes,
                    final(self).context.market_cache_writes,
                    flush,
                    time.day(),
                ),
                None => final(self).context.market_cache_writes == old(self).context.market_cache_writes,
            },
    {
        let date = time.date_utc();
        proof {
            time.lemma_day();
        }
        let wake = self.context.observe_consumer_frontier(date);
        let flushed = match self.last_market_cache_flush_date {
            Some(last) => last == date,
            None => false,
        };
        if flushed {
            return SliceFollowUp { wake, flush: None };
        }
        let flush = self.context.flush_market_cache_writes_through(date);
        self.last_market_cache_flush_date = Some(date);
        SliceFollowUp { wake, flush: Some(flush) }
    }
}

/// Whether a subscription needs the partition index of a table.
pub open spec fn needs_index(config: SubscriptionDataConfig, table: MarketTable) -> bool {
    &&& config.data_kind == SubscriptionDataKind::Market
    &&& config.resolution != Resolution::Daily
    &&& table_of(config.resolution, config.tick_type) == table
}

/// Tables whose partition indexes are read before subscriptions start, each
/// once: those of intraday market data.
pub fn market_partition_tables(configs: &Vec<SubscriptionDataConfig>) -> (res: Vec<MarketTable>)
    ensures
        res@.no_duplicates(),
        forall|table: MarketTable| #[trigger]
            res@.contains(table) <==> exists|i: int|
                0 <= i < configs@.len() && needs_index(#[trigger] configs@[i], table),
{
    let mut tables: Vec<MarketTable> = Vec::new();
    let mut i: usize = 0;
    while i < configs.len()
        invariant
            i <= configs@.len(),
            tables@.no_duplicates(),
            forall|table: MarketTable| #[trigger]
                tables@.contains(table) <==> exists|k: int|
                    0 <= k < i && needs_index(#[trigger] configs@[k], table),
        decreases configs.len() - i,
    {
        let config = &configs[i];
        let ghost before = tables@;
        if config.data_kind == SubscriptionDataKind::Market && config.resolution
            != Resolution::Daily {
            let table = market_table(config.resolution, config.tick_type);
            proof {
                lemma_push_contains(before, table);
                assert(needs_index(configs@[i as int], table));
            }
            if !has_table(&tables, table) {
                tables.push(table);
            }
        }
        proof {
            assert forall|table: MarketTable| #[trigger] tables@.contains(table) <==> exists|k: int|
                0 <= k < i + 1 && needs_index(#[trigger] configs@[k], table) by {
                if before.contains(table) {
                    let k = choose|k: int|
                        0 <= k < i && needs_index(#[trigger] configs@[k], table);
                    assert(needs_index(configs@[k], table));
                }
                if exists|k: int| 0 <= k < i + 1 && needs_index(#[trigger] configs@[k], table) {
                    let k = choose|k: int|
                        0 <= k < i + 1 && needs_index(#[trigger] configs@[k], table);
                    if k < i {
                        assert(before.contains(table));
                    }
                }
            }
        }
        i = i + 1;
    }
    tables
}

fn has_table(tables: &Vec<MarketTable>, table: MarketTable) -> (res: bool)
    ensures
        res == tables@.contains(table),
{
    let mut i: usize = 0;
    while i < tables.len()
        invariant
            i <= tables@.len(),
            forall|j: int| 0 <= j < i ==> tables@[j] != table,
        decreases tables.len() - i,
    {
        if tables[i] == table {
            return true;
        }
        i = i + 1;
    }
    false
}

/// Whether the index of custom data is read before subscriptions start.
pub fn needs_custom_index(configs: &Vec<SubscriptionDataConfig>) -> (res: bool)
    ensures
        res == exists|i: int| 0 <= i < configs@.len() && (#[trigger] configs@[i]).custom is Some,
{
    let mut i: usize = 0;
    while i < configs.len()
        invariant
            i <= configs@.len(),
            forall|k: int| 0 <= k < i ==> (#[trigger] configs@[k]).custom is None,
        decreases configs.len() - i,
    {
        if configs[i].custom.is_some() {
            return true;
        }
        i = i + 1;
    }
    false
}

/// A stream that has only been started is of its own subscription and period, holds
/// nothing and is not at its end; its channel has as many slots as the policy allows.
pub proof fn law_fresh_streams_are_empty(
    stream: SubscriptionStream,
    config: SubscriptionDataConfig,
    window: (DateTime, DateTime),
    policy: SubscriptionCachePolicy,
    time: DateTime,
)
    requires
        is_fresh(stream, config, window, policy),
    ensures
        stream.config == config,
        stream.start == window.0,
        stream.end == window.1,
        stream.capacity == policy.slots(),
        stream.front() is None,
        !stream.spec_exhausted(),
        !stream.ready_for(time),
{
}

/// A stream that starts while the run is on runs from its start to the end of the run.
pub proof fn law_added_streams_run_to_the_end(manager: DataManager, start: DateTime)
    ensures
        manager.window_from(start).0 == start,
        manager.end matches Some(end) ==> manager.window_from(start).1 == end,
        manager.end is None ==> manager.window_from(start).1 == start,
{
}

/// The active ids after subscriptions are added are those from before, in their place,
/// and every id of the new ones, once each.
pub proof fn law_added_ids_are_active(
    ids: Seq<u64>,
    configs: Seq<SubscriptionDataConfig>,
    id: u64,
)
    ensures
        with_ids(ids, configs).contains(id) <==> ids.contains(id) || exists|k: int|
            0 <= k < configs.len() && (#[trigger] configs[k]).unique_id == id,
        with_ids(ids, configs).len() >= ids.len(),
        with_ids(ids, configs).take(ids.len() as int) == ids,
        ids.no_duplicates() ==> with_ids(ids, configs).no_duplicates(),
    decreases configs.len(),
{
    if ids.no_duplicates() {
        lemma_with_ids(ids, configs);
    }
    if configs.len() == 0 {
        assert(with_ids(ids, configs).take(ids.len() as int) =~= ids);
    } else {
        let head = configs.drop_last();
        let before = with_ids(ids, head);
        let last = configs.last().unique_id;
        law_added_ids_are_active(ids, head, id);
        lemma_push_contains(before, last);
        assert(configs[configs.len() - 1] == configs.last());
        assert(with_ids(ids, configs).take(ids.len() as int) =~= before.take(ids.len() as int));
        if exists|k: int| 0 <= k < head.len() && (#[trigger] head[k]).unique_id == id {
            let k = choose|k: int| 0 <= k < head.len() && (#[trigger] head[k]).unique_id == id;
            assert(configs[k].unique_id == id);
        }
        if exists|k: int| 0 <= k < configs.len() && (#[trigger] configs[k]).unique_id == id {
            let k = choose|k: int|
                0 <= k < configs.len() && (#[trigger] configs[k]).unique_id == id;
            if k < head.len() {
                assert(head[k].unique_id == id);
            }
        }
    }
}

/// Only subscriptions that are not active are started, each of them, in their order.
pub proof fn law_inactive_subscriptions_are_started(
    active: Seq<u64>,
    configs: Seq<SubscriptionDataConfig>,
    config: SubscriptionDataConfig,
)
    ensures
        inactive(active, configs.push(config)) == (if active.contains(config.unique_id) {
            inactive(active, configs)
        } else {
            inactive(active, configs).push(config)
        }),
        inactive(active, Seq::empty()).len() == 0,
{
    reveal(Seq::filter);
    assert(configs.push(config).drop_last() =~= configs);
}

/// Only intraday market data need a partition index, each kind of row that of its table.
pub proof fn law_indexes_of_intraday_data(config: SubscriptionDataConfig)
    ensures
        config.resolution == Resolution::Daily || config.data_kind != SubscriptionDataKind::Market
            ==> !needs_index(config, MarketTable::TradeBars) && !needs_index(
            config,
            MarketTable::QuoteBars,
        ) && !needs_index(config, MarketTable::Ticks),
        config.data_kind == SubscriptionDataKind::Market && config.resolution == Resolution::Tick
            ==> needs_index(config, MarketTable::Ticks) && !needs_index(
            config,
            MarketTable::TradeBars,
        ),
        config.data_kind == SubscriptionDataKind::Market && config.resolution == Resolution::Minute
            && config.tick_type == crate::model::TickType::Quote ==> needs_index(
            config,
            MarketTable::QuoteBars,
        ) && !needs_index(config, MarketTable::TradeBars),
        config.data_kind == SubscriptionDataKind::Market && config.resolution == Resolution::Minute
            && config.tick_type == crate::model::TickType::Trade ==> needs_index(
            config,
            MarketTable::TradeBars,
        ) && !needs_index(config, MarketTable::QuoteBars),
{
}

/// What the end of a subscription leaves.
pub open spec fn subscription_removed(
    before: DataManager,
    id: u64,
    after: DataManager,
    removed: bool,
) -> bool {
    &&& removed == before.active_subscriptions@.contains(id)
    &&& !removed ==> after == before
    &&& removed ==> {
        &&& forall|x: u64| #[trigger]
            after.active_subscriptions@.contains(x) <==> before.active_subscriptions@.contains(x)
                && x != id
        &&& forall|stream: SubscriptionStream| #[trigger]
            streams_of(after).contains(stream) <==> streams_of(before).contains(stream)
                && stream.config.unique_id != id
        &&& after.context.active_subscription_count == after.active_subscriptions@.len()
        &&& after.active_subscriptions@.len() < before.active_subscriptions@.len()
        &&& after.end == before.end
    }
}

/// A subscription that was ended is not active and has no stream, so that ending it again
/// changes nothing. Every other subscription stays active, and every other stream is kept as
/// it is.
pub proof fn law_only_the_ended_subscription_goes(
    before: DataManager,
    id: u64,
    after: DataManager,
    removed: bool,
    other: u64,
    k: int,
)
    requires
        subscription_removed(before, id, after, removed),
        other != id,
    ensures
        !after.active_subscriptions@.contains(id),
        after.active_subscriptions@.contains(other) == before.active_subscriptions@.contains(other),
        removed && 0 <= k < streams_of(after).len() ==> streams_of(after)[k].config.unique_id != id
            && streams_of(before).contains(streams_of(after)[k]),
        0 <= k < streams_of(before).len() && streams_of(before)[k].config.unique_id != id
            ==> streams_of(after).contains(streams_of(before)[k]),
        removed ==> after.context.active_subscription_count < before.active_subscriptions@.len(),
        !removed ==> after == before,
{
    if removed && 0 <= k < streams_of(after).len() {
        assert(streams_of(after).contains(streams_of(after)[k]));
    }
    if 0 <= k < streams_of(before).len() {
        assert(streams_of(before).contains(streams_of(before)[k]));
    }
}

/// A filter keeps what it is to keep and nothing else, and is shorter where it takes
/// something out.
proof fn lemma_filtered<T>(s: Seq<T>, keep: spec_fn(T) -> bool)
    ensures
        forall|x: T| #[trigger] s.filter(keep).contains(x) <==> s.contains(x) && keep(x),
        s.filter(keep).len() <= s.len(),
        forall|x: T| #[trigger] s.contains(x) && !keep(x) ==> s.filter(keep).len() < s.len(),
    decreases s.len(),
{
    reveal(Seq::filter);
    if s.len() > 0 {
        let head = s.drop_last();
        lemma_filtered(head, keep);
        assert(s =~= head.push(s.last()));
        lemma_push_contains(head, s.last());
        lemma_push_contains(head.filter(keep), s.last());
    }
}

} // verus!
