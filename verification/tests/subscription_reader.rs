use lean_engine::data_feed::context::DataFeedContext;
use lean_engine::data_feed::policy::SubscriptionCachePolicy;
use lean_engine::decimal::Decimal;
use lean_engine::model::{
    CustomDataConfig, CustomDataPoint, CustomDataQuery, CustomSubscriptionMetadata,
    DataNormalizationMode, DataType, ExchangeHours, FieldValue, HistoryRequest, QuoteBar,
    Resolution, SecurityType, SubscriptionDataConfig, SubscriptionDataKind, Symbol, Tick,
    TickType, TradeBar,
};
use lean_engine::name_map::NameMap;
use lean_engine::subscription_data::SubscriptionDataPoint;
use lean_engine::subscription_reader::coverage::{
    contiguous_covered_until, equity_daily_frontier, is_midnight_daily_bar,
    is_session_close_daily_bar, is_source_dated_daily_bar, RowSpan,
};
use lean_engine::subscription_reader::custom::{
    custom_point_matches_query, custom_value_columns, numeric_bounds_hold, BoundOutcome,
    CustomCandidate, CustomFetchOutcome, CustomFetchPlan, CustomPointSource, CustomStep,
};
use lean_engine::subscription_reader::fetch::{
    market_table, LocalWindowProbe, LocalWindowRows, MarketFetchStep, MarketTable, PartitionKind,
};
use lean_engine::subscription_reader::producer::{ProducerStep, SubscriptionProducerState};
use lean_engine::subscription_reader::stream::{
    StreamEvent, StreamNeed, SubscriptionStream, SubscriptionStreamMessage,
};
use lean_engine::subscription_reader::window::{
    add_months_saturating, add_years_saturating, date_from_days_since_epoch, days_in_month,
    days_since_epoch, expected_market_dates, fill_end_date, timestamp_belongs_to_window,
};
use lean_engine::time::{Date, DateTime, MAX_DATE_DAYS, NANOS_PER_DAY};

const MINUTE: i64 = 60_000_000_000;

fn date(year: i32, month: u32, day: u32) -> Date {
    Date::from_ymd(year, month, day).unwrap()
}

fn dt(date: Date, hour: i64, minute: i64) -> DateTime {
    DateTime::at(date, hour * 3600 + minute * 60)
}

fn plus_days(date: Date, days: i32) -> Date {
    Date { days: date.days + days }
}

fn dec(n: i64) -> Decimal {
    Decimal::from_i64(n)
}

fn spy() -> Symbol {
    Symbol {
        sid: 1,
        security_type: SecurityType::Equity,
        market: "usa".to_string(),
        value: "SPY".to_string(),
        permtick: "SPY".to_string(),
        underlying: None,
    }
}

/// Weekdays but for two holidays, with sessions from 14:30 to 21:00.
fn us_equity(first: Date, last: Date) -> ExchangeHours {
    let holidays = [date(2024, 1, 1), date(2024, 1, 15)];
    let mut open_dates = Vec::new();
    let mut sessions = Vec::new();
    for days in first.days..=last.days {
        // Day zero was a Thursday.
        let weekday = (days + 3).rem_euclid(7);
        let day = Date { days };
        if weekday < 5 && !holidays.contains(&day) {
            open_dates.push(day);
            sessions.push((dt(day, 14, 30), dt(day, 21, 0)));
        }
    }
    ExchangeHours {
        open_dates,
        sessions,
    }
}

fn hours() -> ExchangeHours {
    us_equity(date(2017, 1, 1), date(2024, 12, 31))
}

fn trade_bar(day: Date, hour: i64, minute: i64, close: i64) -> TradeBar {
    let time = dt(day, hour, minute);
    TradeBar {
        symbol: spy(),
        time,
        end_time: DateTime { ns: time.ns + MINUTE },
        open: dec(1),
        high: dec(1),
        low: dec(1),
        close: dec(close),
        volume: dec(100),
        period: MINUTE,
    }
}

fn daily_bar_at(time: DateTime, close: i64) -> TradeBar {
    TradeBar {
        symbol: spy(),
        time,
        end_time: DateTime { ns: time.ns + NANOS_PER_DAY },
        open: dec(close),
        high: dec(close),
        low: dec(close),
        close: dec(close),
        volume: dec(100),
        period: NANOS_PER_DAY,
    }
}

fn daily_trade_bar_start_dated(day: Date, close: i64) -> TradeBar {
    daily_bar_at(dt(day, 16, 0), close)
}

fn equity_config(resolution: Resolution) -> SubscriptionDataConfig {
    SubscriptionDataConfig {
        unique_id: 1,
        symbol: spy(),
        resolution,
        tick_type: TickType::Trade,
        data_kind: SubscriptionDataKind::Market,
        normalization_mode: DataNormalizationMode::Raw,
        fill_data_forward: true,
        is_internal_feed: false,
        custom: None,
        option_chain: None,
    }
}

fn policy() -> SubscriptionCachePolicy {
    SubscriptionCachePolicy {
        prefetch_intervals: 1,
        max_prefetch_rows: 16,
        channel_capacity: 16,
        max_prefetch_ahead_days: 365,
    }
}

fn producer(
    config: SubscriptionDataConfig,
    provider: bool,
    provider_floor: Option<Date>,
    start: DateTime,
    end: DateTime,
) -> SubscriptionProducerState {
    SubscriptionProducerState::new(
        config,
        hours(),
        policy(),
        true,
        provider,
        provider_floor,
        None,
        vec![],
        start,
        end,
    )
}

/// What a history provider answers: rows, or a failure.
type Provider = fn(&HistoryRequest) -> Option<Vec<TradeBar>>;

/// Runs a producer of daily trade bars against stored rows and a provider, and
/// returns what it emits.
fn run_market(
    state: &mut SubscriptionProducerState,
    stored: &[TradeBar],
    provider: Option<Provider>,
) -> Vec<SubscriptionDataPoint> {
    let mut out = Vec::new();
    loop {
        match state.next_step() {
            ProducerStep::Emit(point) => out.push(point),
            ProducerStep::Finished => return out,
            ProducerStep::Load => {
                assert_eq!(state.partition_kind(), PartitionKind::Market);
                let (first, last) = state.cache_fill_window();
                let mut fetched = Vec::new();
                if let MarketFetchStep::CheckLocal {
                    window_start,
                    window_end,
                } = state.begin_market_fetch()
                {
                    let spans = stored
                        .iter()
                        .map(|bar| RowSpan {
                            sid: bar.symbol.sid,
                            time: bar.time,
                            end_time: bar.end_time,
                        })
                        .collect();
                    let covered = match state.local_window_probe(window_start, window_end) {
                        LocalWindowProbe::Covered => true,
                        _ => state.has_local_market_window(
                            window_start,
                            window_end,
                            &LocalWindowRows::DailyTrades(spans),
                        ),
                    };
                    let request = state.after_local_check(window_start, window_end, covered);
                    if let (Some(request), Some(provider)) = (request, provider) {
                        if let Some(rows) = provider(&request) {
                            let selected = state.select_trade_rows(rows, window_start, window_end);
                            let prepared =
                                state.prepare_trade_bars(selected.rows, window_start, window_end);
                            let valid = vec![true; prepared.len()];
                            fetched =
                                state.finish_trade_fetch(prepared, &valid, selected.filled_until);
                        }
                    }
                }
                let params = state.stored_query_params(first, last);
                let rows = stored
                    .iter()
                    .filter(|bar| {
                        params.day_start.ns <= bar.time.ns && bar.time.ns <= params.day_end.ns
                    })
                    .map(|bar| bar.duplicate())
                    .collect();
                let prepared = state.prepare_trade_bars(rows, first, last);
                let valid = vec![true; prepared.len()];
                let points = state.trade_bars_to_points(prepared, &valid);
                let loaded = state.finish_market_partition(points, fetched, first, last);
                state.accept_partition(loaded);
            }
        }
    }
}

#[test]
fn cache_fill_window_policy_uses_existing_prefetch_intervals() {
    let daily_start = date(2022, 1, 3);
    assert_eq!(add_years_saturating(daily_start, 1), date(2023, 1, 2));

    let hourly_start = date(2022, 1, 31);
    assert_eq!(add_months_saturating(hourly_start, 1), date(2022, 2, 27));
}

#[test]
fn months_have_their_days() {
    assert_eq!(days_in_month(2024, 2), 29);
    assert_eq!(days_in_month(2023, 2), 28);
    assert_eq!(days_in_month(1900, 2), 28);
    assert_eq!(days_in_month(2000, 2), 29);
    assert_eq!(days_in_month(2024, 12), 31);
    assert_eq!(add_months_saturating(date(2023, 11, 30), 3), date(2024, 2, 28));
    assert_eq!(add_years_saturating(date(2024, 2, 29), 1), date(2025, 2, 27));
}

#[test]
fn expected_market_dates_skips_closed_equity_days() {
    let start = date(2022, 1, 1);
    let end = date(2022, 1, 5);
    let dates = expected_market_dates(start, end, end, Some(&hours()), SecurityType::Equity);

    assert!(!dates.contains(&date(2022, 1, 1)));
    assert!(!dates.contains(&date(2022, 1, 2)));
    assert!(dates.contains(&date(2022, 1, 3)));
}

#[test]
fn other_securities_trade_every_day() {
    let start = date(2022, 1, 1);
    let dates = expected_market_dates(
        start,
        date(2022, 1, 5),
        date(2022, 1, 3),
        None,
        SecurityType::Crypto,
    );
    assert_eq!(dates, vec![start, date(2022, 1, 2), date(2022, 1, 3)]);
}

#[test]
fn expected_cacheable_dates_excludes_dates_before_provider_start() {
    let provider_start = date(2018, 1, 2);
    let window_start = date(2017, 5, 23);
    let window_end = date(2018, 5, 22);
    let state = producer(
        equity_config(Resolution::Daily),
        true,
        Some(provider_start),
        dt(window_start, 0, 0),
        dt(window_end, 23, 59),
    );

    let expected = state.expected_cacheable_dates(window_start, window_end);
    assert!(!expected.is_empty());
    assert!(
        expected.iter().all(|date| date.days >= provider_start.days),
        "expected set must not contain dates before the provider start"
    );
    assert!(!expected.contains(&date(2017, 6, 1)));
    assert!(expected.contains(&date(2018, 1, 3)));
}

#[test]
fn cache_fill_window_start_respects_provider_earliest_date() {
    let provider_start = date(2018, 1, 1);
    let state = producer(
        equity_config(Resolution::Daily),
        true,
        Some(provider_start),
        dt(date(2017, 5, 23), 0, 0),
        dt(date(2019, 1, 1), 23, 59),
    );
    let (window_start, window_end) = state.cache_fill_window();
    assert_eq!(
        window_start, provider_start,
        "window start must be clamped up to the provider earliest date"
    );
    assert!(window_end.days >= window_start.days);
}

#[test]
fn a_cache_fill_ends_in_the_calendar() {
    let start = date(2024, 1, 16);
    let at = |intervals: usize, resolution: Resolution| {
        let mut state = producer(
            equity_config(resolution),
            true,
            None,
            dt(start, 0, 0),
            dt(date(2024, 3, 1), 23, 59),
        );
        state.cache_policy.prefetch_intervals = intervals;
        state
    };
    let last = (MAX_DATE_DAYS - start.days) as usize + 1;
    assert_eq!(
        fill_end_date(start, Resolution::Minute, last),
        Some(Date { days: MAX_DATE_DAYS })
    );
    assert_eq!(fill_end_date(start, Resolution::Minute, last + 1), None);
    assert!(at(last, Resolution::Minute).can_read_window());
    assert!(!at(last + 1, Resolution::Minute).can_read_window());
    assert_eq!(
        at(last, Resolution::Minute).cache_fill_window(),
        (start, date(2024, 3, 1))
    );
    // Years and months beyond the calendar fall back to the start.
    assert_eq!(
        at(1_000_000, Resolution::Daily).cache_fill_window(),
        (start, date(2024, 1, 15))
    );
    assert_eq!(
        at(100_000_000, Resolution::Hour).cache_fill_window(),
        (start, date(2024, 1, 15))
    );
    // The count of years is cut to 32 bits.
    let wrapped = (1usize << 32) + 1;
    assert_eq!(
        fill_end_date(start, Resolution::Daily, wrapped),
        Some(date(2025, 1, 15))
    );
    assert_eq!(
        at(0, Resolution::Hour).cache_fill_window(),
        (start, date(2024, 2, 15))
    );
}

#[test]
fn prefetch_does_not_make_future_frontier_visible() {
    let day = date(2024, 1, 16);
    let bars = [trade_bar(day, 15, 0, 10), trade_bar(day, 15, 1, 11)];
    let mut stream = producer(
        equity_config(Resolution::Minute),
        false,
        None,
        dt(day, 0, 0),
        dt(day, 23, 59),
    );
    stream.stage_loaded_points(
        bars.iter()
            .map(|bar| SubscriptionDataPoint::TradeBar(bar.duplicate()))
            .collect(),
    );
    stream.promote_next_frontier();
    assert_eq!(
        stream.pending.front().unwrap().frontier_time(),
        bars[0].end_time,
        "only the first frontier should be algorithm-visible"
    );
    assert!(
        stream.has_buffered_frontier(bars[1].end_time),
        "the next interval may be cached internally"
    );

    match stream.next_step() {
        ProducerStep::Emit(first) => assert_eq!(first.frontier_time(), bars[0].end_time),
        _ => panic!("the first bar"),
    }
    stream.promote_next_frontier();
    assert_eq!(
        stream.pending.front().unwrap().frontier_time(),
        bars[1].end_time
    );
}

#[test]
fn intraday_local_market_window_uses_partition_index() {
    let day1 = date(2024, 1, 16);
    let day2 = date(2024, 1, 17);
    let day3 = date(2024, 1, 18);
    let stream = producer(
        equity_config(Resolution::Minute),
        false,
        None,
        dt(day1, 0, 0),
        dt(day3, 23, 59),
    );
    assert!(matches!(
        stream.local_window_probe(day1, day2),
        LocalWindowProbe::PartitionDays {
            table: MarketTable::TradeBars,
            ..
        }
    ));
    let partitions = LocalWindowRows::PartitionDays(vec![day1.days, day2.days]);
    assert!(stream.has_local_market_window(day1, day2, &partitions));
    assert!(!stream.has_local_market_window(day1, day3, &partitions));
}

#[test]
fn partial_daily_local_market_window_skips_remote_refetch() {
    let day1 = date(2024, 1, 2);
    let day4 = date(2024, 1, 5);
    let rows = [trade_bar(day1, 16, 0, 10), trade_bar(day4, 16, 0, 11)]
        .iter()
        .map(|bar| RowSpan {
            sid: bar.symbol.sid,
            time: bar.time,
            end_time: bar.end_time,
        })
        .collect();
    let stream = producer(
        equity_config(Resolution::Daily),
        false,
        None,
        dt(day1, 0, 0),
        dt(day4, 23, 59),
    );
    assert!(
        stream.has_local_market_window(day1, day4, &LocalWindowRows::DailyTrades(rows)),
        "partial cached daily history should satisfy the local window check"
    );
}

#[test]
fn fill_forward_stages_missing_non_tick_interval() {
    let day = date(2024, 1, 16);
    let first = trade_bar(day, 15, 0, 10);
    let next_real = trade_bar(day, 15, 2, 12);
    let mut stream = producer(
        equity_config(Resolution::Minute),
        false,
        None,
        dt(day, 0, 0),
        dt(day, 23, 59),
    );
    stream.stage_loaded_points(vec![SubscriptionDataPoint::TradeBar(first.duplicate())]);
    match stream.next_step() {
        ProducerStep::Emit(emitted) => assert_eq!(emitted.frontier_time(), first.end_time),
        _ => panic!("the first bar"),
    }

    stream.maybe_stage_fill_forward(next_real.end_time);
    stream.stage_loaded_points(vec![SubscriptionDataPoint::TradeBar(next_real.duplicate())]);
    match stream.next_step() {
        ProducerStep::Emit(SubscriptionDataPoint::TradeBar(bar)) => {
            assert_eq!(bar.end_time.ns, first.end_time.ns + MINUTE);
            assert_eq!(bar.close, first.close);
            assert_eq!(bar.volume, dec(0));
        }
        _ => panic!("expected fill-forward trade bar"),
    }

    stream.promote_next_frontier();
    assert_eq!(
        stream.pending.front().unwrap().frontier_time(),
        next_real.end_time
    );
}

#[test]
fn daily_stream_loads_start_dated_cache_rows_once() {
    let day = date(2024, 1, 16);
    let bar = daily_trade_bar_start_dated(day, 10);
    let mut stream = producer(
        equity_config(Resolution::Daily),
        false,
        None,
        dt(day, 0, 0),
        dt(plus_days(day, 1), 23, 59),
    );
    let points = run_market(&mut stream, &[bar.duplicate()], None);
    assert_eq!(points.len(), 1);
    assert_eq!(points[0].frontier_time(), bar.time);
}

#[test]
fn inconsistent_bars_and_bars_outside_the_session_are_dropped() {
    let day = date(2024, 1, 16);
    let state = producer(
        equity_config(Resolution::Minute),
        false,
        None,
        dt(day, 0, 0),
        dt(day, 23, 59),
    );
    let rows = vec![
        trade_bar(day, 15, 1, 11),
        trade_bar(day, 15, 0, 10),
        trade_bar(day, 3, 0, 9),
        trade_bar(day, 15, 2, 12),
    ];
    let prepared = state.prepare_trade_bars(rows, day, day);
    let points = state.trade_bars_to_points(prepared, &vec![true, true, true, false]);
    let times: Vec<DateTime> = points.iter().map(|point| point.frontier_time()).collect();
    assert_eq!(times, vec![dt(day, 15, 1), dt(day, 15, 2)]);
}

#[test]
fn a_session_row_displaces_a_source_dated_row_of_its_instant() {
    let day = date(2024, 1, 16);
    let state = producer(
        equity_config(Resolution::Daily),
        false,
        None,
        dt(day, 0, 0),
        dt(day, 23, 59),
    );
    let mut session = daily_bar_at(dt(day, 9, 30), 20);
    session.end_time = dt(day, 16, 0);
    for rows in [
        vec![session.duplicate(), daily_trade_bar_start_dated(day, 10)],
        vec![daily_trade_bar_start_dated(day, 10), session.duplicate()],
    ] {
        let prepared = state.prepare_trade_bars(rows, day, day);
        let points = state.trade_bars_to_points(prepared, &vec![true, true]);
        assert_eq!(points.len(), 1);
        match &points[0] {
            SubscriptionDataPoint::TradeBar(bar) => assert_eq!(bar.close, dec(20)),
            _ => panic!("a bar"),
        }
    }
}

#[test]
fn daily_stream_does_not_emit_previous_source_dated_row_for_next_day() {
    let previous_day = date(2024, 1, 16);
    let next_day = date(2024, 1, 17);
    let bar = daily_trade_bar_start_dated(previous_day, 10);
    let mut stream = producer(
        equity_config(Resolution::Daily),
        false,
        None,
        dt(next_day, 0, 0),
        dt(next_day, 23, 59),
    );
    assert!(
        run_market(&mut stream, &[bar], None).is_empty(),
        "a source-dated daily row belongs to its time date, not the next day in end_time"
    );
}

#[test]
fn daily_stream_batches_cached_window_and_advances_partition() {
    let first_day = date(2024, 1, 16);
    let second_day = date(2024, 1, 17);
    let bars = [
        daily_trade_bar_start_dated(first_day, 10),
        daily_trade_bar_start_dated(second_day, 11),
    ];
    let mut stream = producer(
        equity_config(Resolution::Daily),
        false,
        None,
        dt(first_day, 0, 0),
        dt(second_day, 23, 59),
    );
    let points = run_market(&mut stream, &bars, None);
    assert_eq!(points.len(), 2);
    assert_eq!(points[0].frontier_time(), dt(first_day, 16, 0));
    assert_eq!(points[1].frontier_time(), dt(second_day, 16, 0));
}

#[test]
fn provider_fetch_errors_remain_nonfatal_cache_misses() {
    let day = date(2024, 1, 16);
    let mut stream = producer(
        equity_config(Resolution::Daily),
        true,
        None,
        dt(day, 0, 0),
        dt(day, 23, 59),
    );
    let failing: Provider = |_| None;
    assert!(
        run_market(&mut stream, &[], Some(failing)).is_empty(),
        "missing local data remains an empty stream"
    );
}

#[test]
fn provider_midnight_daily_bar_emits_on_source_session_frontier() {
    let day = date(2024, 1, 2);
    let mut stream = producer(
        equity_config(Resolution::Daily),
        true,
        None,
        dt(day, 0, 0),
        dt(day, 23, 59),
    );
    let one_bar: Provider = |request| {
        assert_eq!(request.data_type, DataType::TradeBar);
        Some(vec![daily_bar_at(dt(date(2024, 1, 2), 0, 0), 100)])
    };
    let points = run_market(&mut stream, &[], Some(one_bar));
    assert_eq!(points.len(), 1);
    assert_eq!(points[0].frontier_time(), dt(day, 16, 0));
}

#[test]
fn daily_stream_moves_closed_end_date_to_source_session() {
    let friday = date(2024, 1, 19);
    let bar = daily_trade_bar_start_dated(friday, 10);
    assert_eq!(bar.end_time.date_utc(), plus_days(friday, 1));
    let mut stream = producer(
        equity_config(Resolution::Daily),
        false,
        None,
        dt(friday, 0, 0),
        dt(friday, 23, 59),
    );
    let points = run_market(&mut stream, &[bar], None);
    assert_eq!(points.len(), 1);
    assert_eq!(points[0].frontier_time().date_utc(), friday);
}

#[test]
fn daily_fill_forward_skips_closed_equity_dates() {
    let friday = date(2024, 1, 19);
    let last = daily_bar_at(dt(plus_days(friday, -1), 16, 0), 10);
    let mut stream = producer(
        equity_config(Resolution::Daily),
        false,
        None,
        dt(friday, 0, 0),
        dt(plus_days(friday, 4), 23, 59),
    );
    let next = DateTime { ns: last.end_time.ns + 4 * NANOS_PER_DAY };
    stream.last_emitted_time = Some(last.end_time);
    stream.last_emitted_point = Some(SubscriptionDataPoint::TradeBar(last));
    stream.maybe_stage_fill_forward(next);
    assert!(stream.prefetched.is_empty());
}

#[test]
fn an_empty_partition_yields_a_watermark() {
    let day = date(2024, 1, 16);
    let mut stream = producer(
        equity_config(Resolution::Minute),
        false,
        None,
        dt(day, 0, 0),
        dt(day, 23, 59),
    );
    assert!(matches!(stream.next_step(), ProducerStep::Load));
    let loaded = stream.finish_market_partition(vec![], vec![], day, day);
    let watermark = stream.accept_partition(loaded);
    assert_eq!(watermark, Some(DateTime::at(day, 86_399)));
    assert!(matches!(stream.next_step(), ProducerStep::Finished));
}

#[test]
fn a_second_bar_of_an_instant_is_dropped_but_not_a_second_tick() {
    let day = date(2024, 1, 16);
    let mut bars = producer(
        equity_config(Resolution::Minute),
        false,
        None,
        dt(day, 0, 0),
        dt(day, 23, 59),
    );
    bars.stage_loaded_points(vec![
        SubscriptionDataPoint::TradeBar(trade_bar(day, 15, 0, 10)),
        SubscriptionDataPoint::TradeBar(trade_bar(day, 15, 0, 99)),
    ]);
    assert_eq!(bars.prefetched.len(), 1);
    let mut ticks = producer(
        equity_config(Resolution::Tick),
        false,
        None,
        dt(day, 0, 0),
        dt(day, 23, 59),
    );
    let tick = |value: i64| {
        SubscriptionDataPoint::Tick(Tick {
            symbol: spy(),
            time: dt(day, 15, 0),
            tick_type: TickType::Trade,
            value: dec(value),
            quantity: dec(1),
            bid_price: dec(0),
            ask_price: dec(0),
            bid_size: dec(0),
            ask_size: dec(0),
            exchange: None,
            sale_condition: None,
            suspicious: false,
        })
    };
    ticks.stage_loaded_points(vec![tick(1), tick(2)]);
    assert_eq!(ticks.prefetched.len(), 2);
}

#[test]
fn daily_bars_are_told_apart() {
    let day = date(2024, 1, 16);
    let next = date(2024, 1, 17);
    assert!(is_midnight_daily_bar(dt(day, 0, 0), dt(next, 0, 0)));
    assert!(!is_midnight_daily_bar(dt(day, 16, 0), dt(next, 16, 0)));
    assert!(is_source_dated_daily_bar(dt(day, 16, 0), dt(next, 16, 0)));
    assert!(!is_source_dated_daily_bar(dt(day, 9, 30), dt(day, 16, 0)));
    assert!(is_session_close_daily_bar(dt(day, 16, 0), dt(day, 16, 0)));
    assert_eq!(equity_daily_frontier(day), dt(day, 16, 0));
}

#[test]
fn coverage_is_counted_without_gaps() {
    let d = |n: u32| date(2024, 1, n);
    let expected = vec![d(2), d(3), d(4), d(5)];
    let covered = vec![d(2), d(3), d(5)];
    assert_eq!(
        contiguous_covered_until(d(1), d(5), d(5), &expected, &covered),
        Some(d(3))
    );
    // A day that is not expected is covered without rows.
    assert_eq!(
        contiguous_covered_until(d(1), d(5), d(5), &expected, &vec![]),
        Some(d(1))
    );
    assert_eq!(
        contiguous_covered_until(d(2), d(5), d(5), &expected, &vec![]),
        None
    );
    assert_eq!(
        contiguous_covered_until(d(1), d(5), d(2), &expected, &covered),
        Some(d(2))
    );
}

#[test]
fn windows_hold_whole_days() {
    let first = date(2024, 1, 16);
    let last = date(2024, 1, 17);
    assert!(timestamp_belongs_to_window(dt(first, 0, 0), first, last));
    assert!(timestamp_belongs_to_window(DateTime::at(last, 86_399), first, last));
    assert!(!timestamp_belongs_to_window(dt(date(2024, 1, 18), 0, 0), first, last));
    assert_eq!(days_since_epoch(dt(first, 5, 0).ns), first.days);
    assert_eq!(days_since_epoch(-1), -1);
    assert_eq!(date_from_days_since_epoch(first.days), Some(first));
    assert_eq!(date_from_days_since_epoch(i32::MAX), None);
}

#[test]
fn tables_follow_resolution_and_tick_type() {
    assert_eq!(market_table(Resolution::Tick, TickType::Quote), MarketTable::Ticks);
    assert_eq!(market_table(Resolution::Minute, TickType::Quote), MarketTable::QuoteBars);
    assert_eq!(market_table(Resolution::Minute, TickType::Trade), MarketTable::TradeBars);
}

#[test]
fn crypto_futures_have_derived_data() {
    let day = date(2024, 1, 16);
    let mut config = equity_config(Resolution::Minute);
    config.symbol.security_type = SecurityType::CryptoFuture;
    let state = producer(config, true, None, dt(day, 0, 0), dt(day, 23, 59));
    let base = HistoryRequest {
        symbol: spy(),
        resolution: Resolution::Minute,
        start: dt(day, 0, 0),
        end: dt(day, 23, 59),
        data_type: DataType::TradeBar,
    };
    let derived = state.derived_requests(&base).unwrap();
    assert_eq!(derived.contexts.data_type, DataType::PerpetualContext);
    assert_eq!(derived.contexts.resolution, Resolution::Minute);
    assert_eq!(derived.margin_rates.data_type, DataType::MarginInterestRate);
    assert_eq!(derived.margin_rates.resolution, Resolution::Hour);
    assert_eq!(derived.open_interest.data_type, DataType::OpenInterest);
    let equity = producer(
        equity_config(Resolution::Minute),
        true,
        None,
        dt(day, 0, 0),
        dt(day, 23, 59),
    );
    assert!(equity.derived_requests(&base).is_none());
}

#[test]
fn quotes_and_ticks_become_points_in_order() {
    let day = date(2024, 1, 16);
    let mut config = equity_config(Resolution::Minute);
    config.tick_type = TickType::Quote;
    let state = producer(config, false, None, dt(day, 0, 0), dt(day, 23, 59));
    let quote = |minute: i64| QuoteBar {
        symbol: spy(),
        time: dt(day, 15, minute),
        end_time: dt(day, 15, minute + 1),
        bid: None,
        ask: None,
        last_bid_size: Decimal::zero(),
        last_ask_size: Decimal::zero(),
        period: MINUTE,
    };
    let points = state.quote_bars_to_points(vec![quote(3), quote(1)], day, day);
    let times: Vec<i64> = points.iter().map(|point| point.frontier_time().ns).collect();
    assert_eq!(times, vec![dt(day, 15, 2).ns, dt(day, 15, 4).ns]);
    let tick = |minute: i64| Tick {
        symbol: spy(),
        time: dt(day, 15, minute),
        tick_type: TickType::Quote,
        value: dec(1),
        quantity: dec(1),
        bid_price: dec(0),
        ask_price: dec(0),
        bid_size: dec(0),
        ask_size: dec(0),
        exchange: None,
        sale_condition: None,
        suspicious: false,
    };
    let points = SubscriptionProducerState::ticks_to_points(vec![tick(2), tick(1)]);
    assert_eq!(points.len(), 2);
}

#[test]
fn a_stream_is_ready_up_to_its_watermark() {
    let day = date(2024, 1, 16);
    let mut stream = SubscriptionStream::new(
        equity_config(Resolution::Minute),
        dt(day, 0, 0),
        dt(day, 23, 59),
        16,
    );
    assert!(matches!(stream.need(), StreamNeed::Message));
    assert!(!stream.is_ready_for(dt(day, 15, 0)));
    stream.handle_message(SubscriptionStreamMessage::Watermark(dt(day, 16, 0)));
    stream.handle_message(SubscriptionStreamMessage::Watermark(dt(day, 15, 30)));
    assert!(stream.is_ready_for(dt(day, 15, 59)));
    assert!(!stream.is_ready_for(dt(day, 16, 0)));
    let point = SubscriptionDataPoint::TradeBar(trade_bar(day, 16, 0, 10));
    assert!(!stream.handle_event(StreamEvent::Message(SubscriptionStreamMessage::Point(point))));
    assert_eq!(stream.front_time(), Some(dt(day, 16, 1)));
    assert!(stream.is_ready_for(dt(day, 20, 0)));
    assert!(stream.peek().is_some());
    assert!(stream.pop_pending().is_some());
    assert!(stream.pop_pending().is_none());
    assert!(!stream.handle_event(StreamEvent::Closed));
    assert!(stream.is_exhausted());
    let mut failed = SubscriptionStream::new(
        equity_config(Resolution::Minute),
        dt(day, 0, 0),
        dt(day, 23, 59),
        16,
    );
    assert!(failed.handle_event(StreamEvent::Failed));
    assert!(failed.is_exhausted());
}

// ---------------------------------------------------------------------------
// Custom data
// ---------------------------------------------------------------------------

fn empty_query() -> CustomDataQuery {
    CustomDataQuery {
        symbols: None,
        string_equals: NameMap::new(),
        string_in: NameMap::new(),
        start_date: None,
        end_date: None,
    }
}

fn custom_point(day: Date, value: i64, symbol: Option<&str>) -> CustomDataPoint {
    let mut fields: NameMap<FieldValue> = NameMap::new();
    if let Some(symbol) = symbol {
        fields.insert("usymbol".to_string(), FieldValue::Text(symbol.to_string()));
    }
    CustomDataPoint {
        time: day,
        end_time: Some(dt(day, 16, 0)),
        value: dec(value),
        fields,
    }
}

fn custom_config() -> SubscriptionDataConfig {
    let mut config = equity_config(Resolution::Daily);
    config.symbol.security_type = SecurityType::Base;
    config.symbol.value = "ALT".to_string();
    config.data_kind = SubscriptionDataKind::Custom;
    config.custom = Some(CustomSubscriptionMetadata {
        source_type: "fixture".to_string(),
        ticker: "ALT".to_string(),
        config: CustomDataConfig {
            ticker: "ALT".to_string(),
            source_type: "fixture".to_string(),
            resolution: Resolution::Daily,
            properties: NameMap::new(),
            query: empty_query(),
        },
        dynamic_query: empty_query(),
    });
    config
}

/// Runs a producer of custom data against stored rows and a source of the full
/// history; returns what it emits and how often the source was asked.
fn run_custom(
    state: &mut SubscriptionProducerState,
    store: &mut Vec<CustomDataPoint>,
    source: Option<fn() -> Vec<CustomDataPoint>>,
    query: &CustomDataQuery,
) -> (Vec<SubscriptionDataPoint>, usize) {
    let mut out = Vec::new();
    let mut calls = 0;
    loop {
        match state.next_step() {
            ProducerStep::Emit(point) => out.push(point),
            ProducerStep::Finished => return (out, calls),
            ProducerStep::Load => {
                assert_eq!(state.partition_kind(), PartitionKind::Custom);
                let (first, last) = match state.begin_custom_partition(&hours(), query) {
                    CustomStep::Scan {
                        window_start,
                        window_end,
                    } => (window_start, window_end),
                    CustomStep::Empty { .. } => panic!("a window to scan"),
                };
                let in_window = |point: &&CustomDataPoint| {
                    first.days <= point.time.days && point.time.days <= last.days
                };
                let stored = store.iter().filter(in_window).count();
                if state.should_fetch_custom(0, stored, Some(true), first, last) {
                    let plan =
                        state.plan_custom_fetch(source.map(|_| true), query, first, last);
                    let outcome = match plan {
                        CustomFetchPlan::FullHistory { .. } => {
                            calls += 1;
                            let rows = state.accept_full_history(source.unwrap()());
                            if rows.is_empty() {
                                CustomFetchOutcome::NoRows
                            } else {
                                store.extend(rows);
                                CustomFetchOutcome::Rows
                            }
                        }
                        CustomFetchPlan::PerDay(_) => panic!("the source has the full history"),
                        CustomFetchPlan::Nothing => CustomFetchOutcome::NoRows,
                    };
                    assert!(!matches!(
                        state.after_custom_fetch(outcome, Some(true), first, last),
                        CustomPointSource::Fetched
                    ));
                }
                let candidates = store
                    .iter()
                    .filter(in_window)
                    .map(|point| CustomCandidate {
                        point: point.duplicate(),
                        bounds: vec![],
                    })
                    .collect();
                let loaded = state.finish_custom_partition(candidates, query, last);
                state.accept_partition(loaded);
            }
        }
    }
}

fn custom_producer(first: Date, last: Date) -> SubscriptionProducerState {
    producer(custom_config(), false, None, dt(first, 0, 0), dt(last, 23, 59))
}

#[test]
fn custom_stream_batches_cached_window_and_advances_partition() {
    let first_day = date(2024, 1, 16);
    let second_day = date(2024, 1, 17);
    let mut store = vec![
        custom_point(first_day, 10, None),
        custom_point(second_day, 11, None),
    ];
    let mut stream = custom_producer(first_day, second_day);
    let (points, _) = run_custom(&mut stream, &mut store, None, &empty_query());
    assert_eq!(points.len(), 2);
    assert_eq!(points[0].frontier_time(), dt(first_day, 16, 0));
    assert_eq!(points[1].frontier_time(), dt(second_day, 16, 0));
}

#[test]
fn producers_stay_within_the_prefetch_horizon() {
    let first = date(2024, 1, 16);
    let mut context = DataFeedContext::new();
    let state = custom_producer(date(2024, 2, 6), date(2024, 3, 1));
    assert!(state.may_load(context.prefetch_ceiling_date(), false));
    context.observe_consumer_frontier(first);
    context.active_subscription_count = 100;
    assert_eq!(context.prefetch_ceiling_date(), Some(date(2024, 2, 6)));
    assert!(state.may_load(context.prefetch_ceiling_date(), false));
    let later = custom_producer(date(2024, 2, 7), date(2024, 3, 1));
    assert!(!later.may_load(context.prefetch_ceiling_date(), false));
    assert!(later.may_load(context.prefetch_ceiling_date(), true));
    context.observe_consumer_frontier(date(2024, 1, 17));
    assert!(later.may_load(context.prefetch_ceiling_date(), false));
}

#[test]
fn days_without_custom_rows_are_asked_for_once() {
    let day = date(2024, 1, 16);
    let mut state = custom_producer(day, day);
    assert!(state.should_fetch_custom(0, 0, Some(false), day, day));
    assert!(!state.should_fetch_custom(0, 1, Some(false), day, day));
    assert!(!state.should_fetch_custom(1, 1, Some(false), day, day));
    assert_eq!(
        state.after_custom_fetch(CustomFetchOutcome::Failed, Some(false), day, day),
        CustomPointSource::Scanned
    );
    assert!(state.should_fetch_custom(0, 0, Some(false), day, day));
    assert_eq!(
        state.after_custom_fetch(CustomFetchOutcome::Rows, Some(false), day, day),
        CustomPointSource::Fetched
    );
    assert_eq!(
        state.after_custom_fetch(CustomFetchOutcome::NoRows, None, day, day),
        CustomPointSource::Scanned
    );
    assert!(!state.should_fetch_custom(0, 0, Some(false), day, day));
}

fn no_history() -> Vec<CustomDataPoint> {
    Vec::new()
}

fn fixture_history() -> Vec<CustomDataPoint> {
    vec![custom_point(date(2024, 1, 16), 42, None)]
}

#[test]
fn custom_stream_uses_cached_iceberg_rows_before_provider() {
    let day = date(2024, 1, 16);
    let mut store = vec![custom_point(day, 10, None)];
    let mut stream = custom_producer(day, day);
    let (points, calls) = run_custom(&mut stream, &mut store, Some(no_history), &empty_query());
    assert_eq!(points.len(), 1);
    assert_eq!(points[0].frontier_time(), dt(day, 16, 0));
    assert_eq!(calls, 0, "a cache hit must not call the custom data provider");
}

#[test]
fn custom_stream_zero_query_matches_still_count_as_cache_hit() {
    let day = date(2024, 1, 16);
    let mut store = vec![custom_point(day, 10, Some("AAPL"))];
    let mut stream = custom_producer(day, day);
    let mut query = empty_query();
    query.symbols = Some(vec!["MSFT".to_string()]);
    let (points, calls) = run_custom(&mut stream, &mut store, Some(no_history), &query);
    assert!(
        points.is_empty(),
        "query selecting zero cached rows should produce no data"
    );
    assert_eq!(
        calls, 0,
        "window coverage must prevent provider fetch even when the query matches no rows"
    );
}

#[test]
fn custom_stream_fetches_provider_history_and_persists_to_iceberg_on_miss() {
    let day = date(2024, 1, 16);
    let mut store = Vec::new();
    let mut stream = custom_producer(day, day);
    let (points, _) = run_custom(&mut stream, &mut store, Some(fixture_history), &empty_query());
    assert_eq!(points[0].frontier_time(), dt(day, 16, 0));
    assert_eq!(store.len(), 1);
    assert_eq!(store[0].value, dec(42));
}

#[test]
fn custom_full_history_source_emits_through_background_channel_once() {
    let day = date(2024, 1, 16);
    let mut store = Vec::new();
    let mut stream = custom_producer(day, day);
    let (points, calls) =
        run_custom(&mut stream, &mut store, Some(fixture_history), &empty_query());
    assert_eq!(points.len(), 1);
    assert_eq!(points[0].frontier_time(), dt(day, 16, 0));
    assert_eq!(store.len(), 1);
    assert_eq!(calls, 1);
}

#[test]
fn custom_points_match_their_query() {
    let day = date(2024, 1, 16);
    let point = custom_point(day, 1, Some("aapl"));
    let mut query = empty_query();
    assert!(custom_point_matches_query(&point, &query, &vec![]));
    let bound = |field: &str, within: Option<bool>| BoundOutcome {
        field: field.to_string(),
        within,
    };
    let inside = vec![bound("usymbol", Some(true)), bound("usymbol", Some(true))];
    assert!(custom_point_matches_query(&point, &query, &inside));
    let outside = vec![bound("usymbol", Some(true)), bound("usymbol", Some(false))];
    assert!(!custom_point_matches_query(&point, &query, &outside));
    let no_number = vec![bound("usymbol", None)];
    assert!(!custom_point_matches_query(&point, &query, &no_number));
    let absent = vec![bound("size", Some(true))];
    assert!(!numeric_bounds_hold(&point, &absent));
    query.symbols = Some(vec!["AAPL".to_string()]);
    assert!(custom_point_matches_query(&point, &query, &vec![]));
    query.symbols = Some(vec![]);
    assert!(!custom_point_matches_query(&point, &query, &vec![]));
    let mut equals = empty_query();
    equals
        .string_equals
        .insert("usymbol".to_string(), "MSFT".to_string());
    assert!(!custom_point_matches_query(&point, &equals, &vec![]));
    let mut missing = empty_query();
    missing
        .string_in
        .insert("side".to_string(), vec!["buy".to_string()]);
    assert!(!custom_point_matches_query(&point, &missing, &vec![]));
    let mut number = custom_point(day, 1, None);
    number
        .fields
        .insert("usymbol".to_string(), FieldValue::Json("5".to_string()));
    assert!(!custom_point_matches_query(&number, &query, &vec![]));
    let mut listed = empty_query();
    listed.string_in.insert(
        "usymbol".to_string(),
        vec!["msft".to_string(), "aapl".to_string()],
    );
    assert!(custom_point_matches_query(&point, &listed, &vec![]));
}

#[test]
fn value_columns_come_from_the_properties() {
    let none: NameMap<String> = NameMap::new();
    assert_eq!(
        custom_value_columns(&none),
        vec!["value", "close", "gdp_nowcast", "atm_ivol", "option_volume", "size"]
    );
    let mut named: NameMap<String> = NameMap::new();
    named.insert("value_column".to_string(), "close".to_string());
    named.insert("value_columns".to_string(), " a, ,b ,".to_string());
    assert_eq!(custom_value_columns(&named), vec!["close", "a", "b"]);
}
