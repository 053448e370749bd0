use lean_engine::data_feed::context::DataFeedContext;
use lean_engine::data_feed::market_cache::{
    flush_chunks, CorporateActionWriteBuffer, MarketCacheWriteBuffer,
    CORPORATE_ACTION_BUFFER_SYMBOLS, MARKET_CACHE_FLUSH_CHUNK_ROWS,
};
use lean_engine::data_feed::policy::{
    DataFeedOptions, ProviderBackoffPolicy, SubscriptionCachePolicy,
};
use lean_engine::data_feed::retry::{
    is_retryable_provider_error, provider_call_label, ProviderRetry, RetryDecision,
};
use lean_engine::decimal::Decimal;
use lean_engine::model::{
    DataType, HistoryRequest, QuoteBar, Resolution, SecurityType, Symbol, Tick, TickType, TradeBar,
};
use lean_engine::time::{Date, DateTime, Duration};

fn date(year: i32, month: u32, day: u32) -> Date {
    Date::from_ymd(year, month, day).unwrap()
}

fn dt(date: Date, hour: i64, minute: i64) -> DateTime {
    DateTime::at(date, hour * 3600 + minute * 60)
}

fn spy() -> Symbol {
    Symbol {
        sid: 1,
        security_type: SecurityType::Equity,
        market: "usa".to_string(),
        value: "SPY".to_string(),
        permtick: "SPY".to_string(),
        underlying: None,
    }
}

fn trade_bar(date: Date) -> TradeBar {
    TradeBar {
        symbol: spy(),
        time: dt(date, 9, 30),
        end_time: dt(date, 10, 30),
        open: Decimal::from_i64(1),
        high: Decimal::from_i64(2),
        low: Decimal::from_i64(1),
        close: Decimal::from_i64(2),
        volume: Decimal::from_i64(100),
        period: 3_600_000_000_000,
    }
}

fn quote_bar(date: Date) -> QuoteBar {
    QuoteBar {
        symbol: spy(),
        time: dt(date, 9, 30),
        end_time: dt(date, 10, 30),
        bid: None,
        ask: None,
        last_bid_size: Decimal::zero(),
        last_ask_size: Decimal::zero(),
        period: 3_600_000_000_000,
    }
}

fn tick(date: Date) -> Tick {
    Tick {
        symbol: spy(),
        time: dt(date, 9, 30),
        tick_type: TickType::Trade,
        value: Decimal::from_i64(1),
        quantity: Decimal::from_i64(1),
        bid_price: Decimal::zero(),
        ask_price: Decimal::zero(),
        bid_size: Decimal::zero(),
        ask_size: Decimal::zero(),
        exchange: None,
        sale_condition: None,
        suspicious: false,
    }
}

#[test]
fn adaptive_policy_scales_channel_down_for_large_universes() {
    let small = SubscriptionCachePolicy::for_active_subscriptions(4);
    let medium = SubscriptionCachePolicy::for_active_subscriptions(64);
    let large = SubscriptionCachePolicy::for_active_subscriptions(512);

    assert!(small.channel_capacity > medium.channel_capacity);
    assert!(medium.channel_capacity > large.channel_capacity);
    // The safety valve stays large so it never truncates a real partition.
    assert_eq!(small.max_prefetch_rows, large.max_prefetch_rows);
    assert!(large.max_prefetch_rows >= 100_000);
}

#[test]
fn adaptive_policy_scales_prefetch_horizon_down_for_large_universes() {
    let small = SubscriptionCachePolicy::for_active_subscriptions(4);
    let medium = SubscriptionCachePolicy::for_active_subscriptions(64);
    let large = SubscriptionCachePolicy::for_active_subscriptions(512);
    let huge = SubscriptionCachePolicy::for_active_subscriptions(2_000);

    assert!(small.max_prefetch_ahead_days > medium.max_prefetch_ahead_days);
    assert!(medium.max_prefetch_ahead_days > large.max_prefetch_ahead_days);
    assert!(large.max_prefetch_ahead_days >= huge.max_prefetch_ahead_days);
    // Even the smallest horizon still lets a stream stay a few days ahead.
    assert!(huge.max_prefetch_ahead_days >= 1);
}

#[test]
fn configured_ceiling_caps_adaptive_policy() {
    let adaptive = SubscriptionCachePolicy::for_active_subscriptions(4);
    let ceiling = SubscriptionCachePolicy {
        prefetch_intervals: 2,
        max_prefetch_rows: 100_000,
        channel_capacity: 48,
        max_prefetch_ahead_days: 5,
    };
    let policy = adaptive.clamp_to(&ceiling);
    assert_eq!(policy.channel_capacity, 48);
    assert_eq!(policy.max_prefetch_ahead_days, 5);
}

#[test]
fn clamping_takes_the_tighter_limit_of_each() {
    let a = SubscriptionCachePolicy {
        prefetch_intervals: 1,
        max_prefetch_rows: 10,
        channel_capacity: 9,
        max_prefetch_ahead_days: 8,
    };
    let b = SubscriptionCachePolicy {
        prefetch_intervals: 5,
        max_prefetch_rows: 2,
        channel_capacity: 3,
        max_prefetch_ahead_days: 4,
    };
    let both = a.clamp_to(&b);
    assert_eq!(both.prefetch_intervals, 1);
    assert_eq!(both.max_prefetch_rows, 2);
    assert_eq!(both.channel_capacity, 3);
    assert_eq!(both.max_prefetch_ahead_days, 4);
}

#[test]
fn prefetch_ceiling_tracks_consumer_frontier() {
    let mut ctx = DataFeedContext::new();
    // No frontier yet: no ceiling (warm-up proceeds unthrottled).
    assert!(ctx.prefetch_ceiling_date().is_none());

    let day = date(2022, 1, 5);
    ctx.observe_consumer_frontier(day);
    let ceiling = ctx.prefetch_ceiling_date().expect("ceiling after frontier");
    // Single subscription: 365-day horizon.
    assert_eq!(ceiling, Date { days: day.days + 365 });

    // Frontier is monotonic: an older date does not move it back.
    ctx.observe_consumer_frontier(date(2022, 1, 1));
    assert_eq!(ctx.consumer_frontier_date(), Some(day));
}

#[test]
fn frontier_notifier_wakes_on_advancing_frontier_only() {
    let mut ctx = DataFeedContext::new();
    let day = date(2022, 1, 5);
    assert!(ctx.observe_consumer_frontier(day));
    assert!(!ctx.observe_consumer_frontier(date(2022, 1, 4)));
    assert!(!ctx.observe_consumer_frontier(day));
    assert!(ctx.seed_consumer_frontier(date(2022, 1, 6)));
}

#[test]
fn options_of_a_context_replace_the_defaults() {
    let options = DataFeedOptions {
        cache_policy: SubscriptionCachePolicy {
            prefetch_intervals: 1,
            max_prefetch_rows: 16,
            channel_capacity: 8,
            max_prefetch_ahead_days: 2,
        },
        ..DataFeedOptions::default()
    };
    let mut ctx = DataFeedContext::new().with_options(options);
    ctx.observe_consumer_frontier(date(2022, 1, 5));
    assert_eq!(ctx.prefetch_ceiling_date(), Some(date(2022, 1, 7)));
    assert_eq!(ctx.effective_cache_policy().max_prefetch_rows, 16);
    assert_eq!(ctx.provider_backoff_policy(), ProviderBackoffPolicy::default());
}

#[test]
fn market_cache_drain_through_flushes_only_mature_trade_rows() {
    let mut buffer = MarketCacheWriteBuffer::new();
    let day1 = date(2022, 1, 3);
    let day2 = date(2022, 1, 4);
    let day3 = date(2022, 1, 5);
    let key = MarketCacheWriteBuffer::key(
        SecurityType::Equity,
        "usa",
        Resolution::Daily,
        TickType::Trade,
    );

    buffer.push_trade_bars(
        vec![trade_bar(day1), trade_bar(day2), trade_bar(day3)],
        key.duplicate(),
    );

    let first_flush = buffer.drain_trade_bars_through(day2);
    assert_eq!(first_flush.len(), 1);
    assert!(first_flush[0].0.matches(&key));
    assert_eq!(first_flush[0].1.len(), 2);
    assert!(first_flush[0]
        .1
        .iter()
        .all(|bar| bar.end_time.date_utc().days <= day2.days));

    let second_flush = buffer.drain_trade_bars_through(day2);
    assert!(second_flush.is_empty());

    let remaining = buffer.drain_trade_bars();
    assert_eq!(remaining.len(), 1);
    assert_eq!(remaining[0].1.len(), 1);
    assert_eq!(remaining[0].1[0].end_time.date_utc(), day3);
}

#[test]
fn market_cache_drain_through_preserves_grouped_keys() {
    let mut buffer = MarketCacheWriteBuffer::new();
    let day = date(2022, 1, 3);
    let daily_key = MarketCacheWriteBuffer::key(
        SecurityType::Equity,
        "usa",
        Resolution::Daily,
        TickType::Trade,
    );
    let minute_key = MarketCacheWriteBuffer::key(
        SecurityType::Equity,
        "usa",
        Resolution::Minute,
        TickType::Trade,
    );

    buffer.push_trade_bars(vec![trade_bar(day)], daily_key.duplicate());
    buffer.push_trade_bars(vec![trade_bar(day)], minute_key.duplicate());

    let flush = buffer.drain_trade_bars_through(day);
    assert_eq!(flush.len(), 2);
    assert!(flush.iter().any(|(key, _)| key.matches(&daily_key)));
    assert!(flush.iter().any(|(key, _)| key.matches(&minute_key)));
    assert!(!daily_key.matches(&minute_key));
}

#[test]
fn a_context_buffers_rows_of_every_kind() {
    let mut ctx = DataFeedContext::new();
    let day1 = date(2022, 1, 3);
    let day2 = date(2022, 1, 4);
    ctx.buffer_trade_bar_cache_write(
        vec![trade_bar(day1)],
        SecurityType::Equity,
        "usa",
        Resolution::Hour,
        TickType::Trade,
    );
    ctx.buffer_quote_bar_cache_write(
        vec![quote_bar(day1), quote_bar(day2)],
        SecurityType::Equity,
        "usa",
        Resolution::Hour,
        TickType::Quote,
    );
    ctx.buffer_tick_cache_write(
        vec![tick(day2)],
        SecurityType::Equity,
        "usa",
        Resolution::Tick,
        TickType::Trade,
    );
    let through = ctx.flush_market_cache_writes_through(day1);
    assert_eq!(through.trade_bars.len(), 1);
    assert_eq!(through.quote_bars[0].1.len(), 1);
    assert!(through.ticks.is_empty());
    assert!(!through.is_empty());
    let rest = ctx.flush_market_cache_writes();
    assert!(rest.trade_bars.is_empty());
    assert_eq!(rest.quote_bars[0].1.len(), 1);
    assert_eq!(rest.ticks[0].1.len(), 1);
    assert!(ctx.flush_market_cache_writes().is_empty());
}

#[test]
fn rows_are_written_in_chunks() {
    assert!(flush_chunks(0).is_empty());
    assert_eq!(flush_chunks(3), vec![(0, 3)]);
    let n = MARKET_CACHE_FLUSH_CHUNK_ROWS;
    assert_eq!(flush_chunks(2 * n), vec![(0, n), (n, 2 * n)]);
    assert_eq!(flush_chunks(n + 1), vec![(0, n), (n, n + 1)]);
}

#[test]
fn corporate_actions_are_written_once_the_buffer_is_full() {
    let mut buffer: CorporateActionWriteBuffer<u32, u32> = CorporateActionWriteBuffer::new();
    assert!(buffer
        .push_factor_file("usa".to_string(), "EMPTY".to_string(), vec![])
        .is_none());
    for i in 0..CORPORATE_ACTION_BUFFER_SYMBOLS - 1 {
        assert!(buffer
            .push_factor_file("usa".to_string(), format!("T{}", i), vec![1])
            .is_none());
    }
    let full = buffer
        .push_factor_file("usa".to_string(), "LAST".to_string(), vec![1])
        .unwrap();
    assert_eq!(full.len(), CORPORATE_ACTION_BUFFER_SYMBOLS);
    assert!(buffer.drain_factor_files().is_empty());
    assert!(buffer
        .push_map_file("usa".to_string(), "SPY".to_string(), vec![7])
        .is_none());
    assert_eq!(buffer.drain_map_files().len(), 1);
    assert!(buffer.drain_map_files().is_empty());
}

#[test]
fn transient_provider_errors_are_retried() {
    assert!(is_retryable_provider_error("HTTP 429 Too Many Requests"));
    assert!(is_retryable_provider_error("Connection reset by peer"));
    assert!(is_retryable_provider_error("request TIMED OUT"));
    assert!(!is_retryable_provider_error("symbol not found"));
    assert!(!is_retryable_provider_error("NotImplemented: quotes unavailable"));
}

#[test]
fn retries_double_their_delay_up_to_the_limit() {
    let policy = ProviderBackoffPolicy {
        max_attempts: 4,
        initial_delay: Duration::from_millis(100),
        max_delay: Duration::from_millis(250),
        ..ProviderBackoffPolicy::default()
    };
    let mut retry = ProviderRetry::start(&policy);
    assert_eq!(
        retry.on_error("timeout"),
        RetryDecision::RetryAfter(Duration::from_millis(100))
    );
    assert_eq!(
        retry.on_error("timeout"),
        RetryDecision::RetryAfter(Duration::from_millis(200))
    );
    assert_eq!(
        retry.on_error("timeout"),
        RetryDecision::RetryAfter(Duration::from_millis(250))
    );
    assert_eq!(retry.on_error("timeout"), RetryDecision::Fail);
    let mut other = ProviderRetry::start(&policy);
    assert_eq!(other.on_error("bad request"), RetryDecision::Fail);
}

#[test]
fn provider_calls_are_labelled() {
    let request = HistoryRequest {
        symbol: spy(),
        resolution: Resolution::Daily,
        start: dt(date(2024, 1, 2), 0, 0),
        end: dt(date(2024, 1, 3), 0, 0),
        data_type: DataType::TradeBar,
    };
    assert_eq!(
        provider_call_label("trade bars", &request),
        "trade bars SPY Daily TradeBar 2024-01-02..2024-01-03"
    );
}
