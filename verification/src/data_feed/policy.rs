//! Limits on prefetching and on provider calls.

use crate::time::Duration;
use vstd::prelude::*;

verus! {

/// Per-subscription limits on prefetching.
///
/// A producer may load partitions up to `max_prefetch_ahead_days` days past the
/// date that the consumer has reached, and hands points over a channel of
/// `channel_capacity` slots. Both shrink as the number of subscriptions grows.
/// `max_prefetch_rows` only guards against pathological partitions.
#[derive(Debug, Clone, Copy, PartialEq, Eq, Structural)]
pub struct SubscriptionCachePolicy {
    /// Number of subscription intervals each stream may load per partition read.
    pub prefetch_intervals: usize,
    /// Rows that a producer may hold in its prefetch buffer.
    pub max_prefetch_rows: usize,
    /// Slots of the channel from producer to consumer.
    pub channel_capacity: usize,
    /// Calendar days that a producer may read ahead of the consumer.
    pub max_prefetch_ahead_days: i64,
}

/// Channel slots for a number of active subscriptions.
pub open spec fn channel_slots(count: int) -> int {
    if count <= 8 {
        4_096
    } else if count <= 32 {
        1_024
    } else if count <= 128 {
        256
    } else {
        64
    }
}

/// Prefetch horizon in days for a number of active subscriptions.
pub open spec fn ahead_days(count: int) -> int {
    if count <= 8 {
        365
    } else if count <= 32 {
        90
    } else if count <= 128 {
        21
    } else if count <= 512 {
        7
    } else {
        3
    }
}

/// Limits for a number of active subscriptions.
pub open spec fn adaptive_policy(count: int) -> SubscriptionCachePolicy {
    SubscriptionCachePolicy {
        prefetch_intervals: 1,
        max_prefetch_rows: 100_000,
        channel_capacity: channel_slots(count) as usize,
        max_prefetch_ahead_days: ahead_days(count) as i64,
    }
}

pub open spec fn smaller(a: int, b: int) -> int {
    if a <= b {
        a
    } else {
        b
    }
}

/// The tighter of two policies, limit by limit.
pub open spec fn tighter(
    a: SubscriptionCachePolicy,
    b: SubscriptionCachePolicy,
) -> SubscriptionCachePolicy {
    SubscriptionCachePolicy {
        prefetch_intervals: smaller(a.prefetch_intervals as int, b.prefetch_intervals as int) as usize,
        max_prefetch_rows: smaller(a.max_prefetch_rows as int, b.max_prefetch_rows as int) as usize,
        channel_capacity: smaller(a.channel_capacity as int, b.channel_capacity as int) as usize,
        max_prefetch_ahead_days: smaller(
            a.max_prefetch_ahead_days as int,
            b.max_prefetch_ahead_days as int,
        ) as i64,
    }
}

impl SubscriptionCachePolicy {
    /// No limit of `self` exceeds that of `other`.
    pub open spec fn within(self, other: SubscriptionCachePolicy) -> bool {
        &&& self.prefetch_intervals <= other.prefetch_intervals
        &&& self.max_prefetch_rows <= other.max_prefetch_rows
        &&& self.channel_capacity <= other.channel_capacity
        &&& self.max_prefetch_ahead_days <= other.max_prefetch_ahead_days
    }

    /// Derives prefetch limits from the number of active subscriptions.
    pub fn for_active_subscriptions(count: usize) -> (res: SubscriptionCachePolicy)
        ensures
            res == adaptive_policy(count as int),
    {
        let (channel_capacity, max_prefetch_ahead_days): (usize, i64) = if count <= 8 {
            (4_096, 365)
        } else if count <= 32 {
            (1_024, 90)
        } else if count <= 128 {
            (256, 21)
        } else if count <= 512 {
            (64, 7)
        } else {
            (64, 3)
        };
        SubscriptionCachePolicy {
            prefetch_intervals: 1,
            max_prefetch_rows: 100_000,
            channel_capacity,
            max_prefetch_ahead_days,
        }
    }

    /// Slots of the channel from producer to consumer.
    pub open spec fn slots(&self) -> usize {
        if self.channel_capacity < 16 {
            16
        } else if self.channel_capacity > 100_000 {
            100_000
        } else {
            self.channel_capacity
        }
    }

    /// Capacity of the channel from producer to consumer, held to `16..=100_000`.
    pub fn channel_capacity(&self) -> (res: usize)
        ensures
            res == self.slots(),
    {
        if self.channel_capacity < 16 {
            16
        } else if self.channel_capacity > 100_000 {
            100_000
        } else {
            self.channel_capacity
        }
    }

    /// The policy held under a ceiling.
    pub fn clamp_to(self, ceiling: &SubscriptionCachePolicy) -> (res: SubscriptionCachePolicy)
        ensures
            res == tighter(self, *ceiling),
    {
        SubscriptionCachePolicy {
            prefetch_intervals: if self.prefetch_intervals <= ceiling.prefetch_intervals {
                self.prefetch_intervals
            } else {
                ceiling.prefetch_intervals
            },
            max_prefetch_rows: if self.max_prefetch_rows <= ceiling.max_prefetch_rows {
                self.max_prefetch_rows
            } else {
                ceiling.max_prefetch_rows
            },
            channel_capacity: if self.channel_capacity <= ceiling.channel_capacity {
                self.channel_capacity
            } else {
                ceiling.channel_capacity
            },
            max_prefetch_ahead_days: if self.max_prefetch_ahead_days
                <= ceiling.max_prefetch_ahead_days {
                self.max_prefetch_ahead_days
            } else {
                ceiling.max_prefetch_ahead_days
            },
        }
    }
}

/// More subscriptions never widen a limit, and every stream may stay at least
/// a few days ahead. The row guard does not depend on the count.
pub proof fn law_policy_shrinks_with_universe(fewer: int, more: int)
    requires
        0 <= fewer <= more,
    ensures
        adaptive_policy(more).within(adaptive_policy(fewer)),
        adaptive_policy(more).max_prefetch_rows == adaptive_policy(fewer).max_prefetch_rows,
        adaptive_policy(more).max_prefetch_ahead_days >= 3,
        adaptive_policy(more).channel_capacity >= 64,
{
}

/// A clamped policy is within both policies, and is the widest such policy.
pub proof fn law_clamp_is_greatest_lower_bound(
    policy: SubscriptionCachePolicy,
    ceiling: SubscriptionCachePolicy,
    other: SubscriptionCachePolicy,
)
    ensures
        tighter(policy, ceiling).within(policy),
        tighter(policy, ceiling).within(ceiling),
        other.within(policy) && other.within(ceiling) ==> other.within(tighter(policy, ceiling)),
        tighter(tighter(policy, ceiling), ceiling) == tighter(policy, ceiling),
{
}

impl Default for SubscriptionCachePolicy {
    fn default() -> (res: SubscriptionCachePolicy)
        ensures
            res == adaptive_policy(1),
    {
        SubscriptionCachePolicy::for_active_subscriptions(1)
    }
}

/// How provider calls are repeated after a transient failure.
#[derive(Debug, Clone, Copy, PartialEq, Eq, Structural)]
pub struct ProviderBackoffPolicy {
    pub max_attempts: usize,
    pub initial_delay: Duration,
    pub max_delay: Duration,
    pub recursive_split_min_days: i64,
}

impl ProviderBackoffPolicy {
    pub open spec fn wf(self) -> bool {
        self.initial_delay.wf() && self.max_delay.wf()
    }

    pub open spec fn spec_default() -> ProviderBackoffPolicy {
        ProviderBackoffPolicy {
            max_attempts: 3,
            initial_delay: Duration { nanos: 250_000_000 },
            max_delay: Duration { nanos: 5_000_000_000 },
            recursive_split_min_days: 2,
        }
    }
}

impl Default for ProviderBackoffPolicy {
    fn default() -> (res: ProviderBackoffPolicy)
        ensures
            res == ProviderBackoffPolicy::spec_default(),
    {
        ProviderBackoffPolicy {
            max_attempts: 3,
            initial_delay: Duration::from_millis(250),
            max_delay: Duration::from_secs(5),
            recursive_split_min_days: 2,
        }
    }
}

/// Options of a data feed.
#[derive(Debug, Clone, Copy, PartialEq, Eq, Structural)]
pub struct DataFeedOptions {
    pub cache_policy: SubscriptionCachePolicy,
    pub fetch_missing_custom_data: bool,
    pub max_concurrent_market_fetches: usize,
    pub max_concurrent_market_appends: usize,
    pub provider_backoff: ProviderBackoffPolicy,
}

impl DataFeedOptions {
    pub open spec fn spec_default() -> DataFeedOptions {
        DataFeedOptions {
            cache_policy: adaptive_policy(1),
            fetch_missing_custom_data: true,
            max_concurrent_market_fetches: 8,
            max_concurrent_market_appends: 2,
            provider_backoff: ProviderBackoffPolicy::spec_default(),
        }
    }
}

impl Default for DataFeedOptions {
    fn default() -> (res: DataFeedOptions)
        ensures
            res == DataFeedOptions::spec_default(),
    {
        DataFeedOptions {
            cache_policy: SubscriptionCachePolicy::default(),
            fetch_missing_custom_data: true,
            max_concurrent_market_fetches: 8,
            max_concurrent_market_appends: 2,
            provider_backoff: ProviderBackoffPolicy::default(),
        }
    }
}

/// How far a stream reads ahead, and how much may be on its way, by the number of
/// streams: a year and thousands of points for a few, a week or less and a few dozen
/// points for hundreds. Each limit steps down where the number of streams passes 8,
/// 32 and 128, and the horizon once more beyond 512.
pub proof fn law_limits_by_number_of_streams(count: int)
    ensures
        count <= 8 <==> adaptive_policy(count).max_prefetch_ahead_days == 365,
        8 < count <= 32 <==> adaptive_policy(count).max_prefetch_ahead_days == 90,
        32 < count <= 128 <==> adaptive_policy(count).max_prefetch_ahead_days == 21,
        128 < count <= 512 <==> adaptive_policy(count).max_prefetch_ahead_days == 7,
        512 < count <==> adaptive_policy(count).max_prefetch_ahead_days == 3,
        count <= 8 <==> adaptive_policy(count).channel_capacity == 4_096,
        8 < count <= 32 <==> adaptive_policy(count).channel_capacity == 1_024,
        32 < count <= 128 <==> adaptive_policy(count).channel_capacity == 256,
        128 < count <==> adaptive_policy(count).channel_capacity == 64,
        adaptive_policy(count).prefetch_intervals == 1,
        adaptive_policy(count).max_prefetch_rows == 100_000,
{
}

/// A channel has at least 16 and at most 100 000 slots, and as many as the policy says
/// in between.
pub proof fn law_channels_are_held_within_limits(policy: SubscriptionCachePolicy)
    ensures
        16 <= policy.slots() <= 100_000,
        16 <= policy.channel_capacity <= 100_000 ==> policy.slots() == policy.channel_capacity,
        policy.channel_capacity < 16 ==> policy.slots() == 16,
        policy.channel_capacity > 100_000 ==> policy.slots() == 100_000,
{
}

/// By default a call is made three times, with waits that start at a quarter of a
/// second and stay within five seconds; missing custom data are fetched.
pub proof fn law_default_options()
    ensures
        DataFeedOptions::spec_default().fetch_missing_custom_data,
        DataFeedOptions::spec_default().max_concurrent_market_fetches == 8,
        DataFeedOptions::spec_default().max_concurrent_market_appends == 2,
        DataFeedOptions::spec_default().cache_policy.max_prefetch_ahead_days == 365,
        DataFeedOptions::spec_default().provider_backoff.max_attempts == 3,
        DataFeedOptions::spec_default().provider_backoff.initial_delay.nanos * 4 == 1_000_000_000,
        DataFeedOptions::spec_default().provider_backoff.max_delay.nanos == 5_000_000_000,
        DataFeedOptions::spec_default().provider_backoff.recursive_split_min_days == 2,
{
}

/// Of two policies each limit is the smaller of the two.
pub proof fn law_each_limit_is_the_smaller(a: SubscriptionCachePolicy, b: SubscriptionCachePolicy)
    ensures
        ({
            let c = tighter(a, b);
            &&& c.channel_capacity <= a.channel_capacity && c.channel_capacity <= b.channel_capacity
            &&& c.channel_capacity == a.channel_capacity || c.channel_capacity
                == b.channel_capacity
            &&& c.max_prefetch_rows <= a.max_prefetch_rows && c.max_prefetch_rows
                <= b.max_prefetch_rows
            &&& c.max_prefetch_rows == a.max_prefetch_rows || c.max_prefetch_rows
                == b.max_prefetch_rows
            &&& c.prefetch_intervals <= a.prefetch_intervals && c.prefetch_intervals
                <= b.prefetch_intervals
            &&& c.prefetch_intervals == a.prefetch_intervals || c.prefetch_intervals
                == b.prefetch_intervals
            &&& c.max_prefetch_ahead_days <= a.max_prefetch_ahead_days
                && c.max_prefetch_ahead_days <= b.max_prefetch_ahead_days
            &&& c.max_prefetch_ahead_days == a.max_prefetch_ahead_days
                || c.max_prefetch_ahead_days == b.max_prefetch_ahead_days
        }),
{
}

} // verus!
