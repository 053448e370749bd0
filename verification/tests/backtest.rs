use lean_engine::decimal::Decimal;
use lean_engine::model::{
    CustomDataConfig, CustomDataQuery, CustomSubscriptionMetadata, DataNormalizationMode,
    OptionChainFilterMetadata, Resolution, SecurityType, SubscriptionDataConfig,
    SubscriptionDataKind, Symbol, TickType, TradeBar,
};
use lean_engine::name_map::NameMap;
use lean_engine::result_handler::ResultHandler;
use lean_engine::runner::backtest::{
    after_delivery, next_backtest_step, next_run_phase, record_slice_results,
    backtest_window, build_backtest_result, first_warmup_step, next_warmup_step,
    resolve_backtest_dates, result_trading_days, slice_has_algorithm_data, slice_has_fill_data,
    warmup_start_from_bar_count, warmup_window, BacktestLoop, BacktestStep, RunOptions, RunPhase,
    StreamCursor, WarmupLength, WarmupStep,
};
use lean_engine::runner::stream_writer::{
    emptied_files, mirrored_files, BacktestStreamWriter, StreamFile,
};
use lean_engine::runner::subscriptions::{
    benchmark_subscription_for_symbol, lean_style_active_subscriptions, option_chain_metadata,
    queries_equal, subscription_requires_stream_replacement, subscriptions_with_benchmark,
    subscriptions_with_option_chains, sync_data_manager_subscriptions, BenchmarkChoice,
};
use lean_engine::slice::Slice;
use lean_engine::time::{Date, DateTime, NANOS_PER_DAY};

fn date(year: i32, month: u32, day: u32) -> Date {
    Date::from_ymd(year, month, day).unwrap()
}

fn dt(year: i32, month: u32, day: u32) -> DateTime {
    DateTime::at(date(year, month, day), 0)
}

fn symbol(sid: u64, security_type: SecurityType, ticker: &str) -> Symbol {
    Symbol {
        sid,
        security_type,
        market: "usa".to_string(),
        value: ticker.to_string(),
        permtick: ticker.to_string(),
        underlying: None,
    }
}

fn empty_query() -> CustomDataQuery {
    CustomDataQuery {
        symbols: None,
        string_equals: NameMap::new(),
        string_in: NameMap::new(),
        start_date: None,
        end_date: None,
    }
}

fn custom_config(id: u64, ticker: &str, resolution: Resolution) -> SubscriptionDataConfig {
    SubscriptionDataConfig {
        unique_id: id,
        symbol: symbol(id, SecurityType::Base, ticker),
        resolution,
        tick_type: TickType::Trade,
        data_kind: SubscriptionDataKind::Custom,
        normalization_mode: DataNormalizationMode::Raw,
        fill_data_forward: false,
        is_internal_feed: false,
        custom: Some(CustomSubscriptionMetadata {
            source_type: "tradealert".to_string(),
            ticker: ticker.to_string(),
            config: CustomDataConfig {
                ticker: ticker.to_string(),
                source_type: "tradealert".to_string(),
                resolution,
                properties: NameMap::new(),
                query: empty_query(),
            },
            dynamic_query: empty_query(),
        }),
        option_chain: None,
    }
}

fn equity_config(id: u64, ticker: &str) -> SubscriptionDataConfig {
    SubscriptionDataConfig {
        unique_id: id,
        symbol: symbol(id, SecurityType::Equity, ticker),
        resolution: Resolution::Daily,
        tick_type: TickType::Trade,
        data_kind: SubscriptionDataKind::Market,
        normalization_mode: DataNormalizationMode::Adjusted,
        fill_data_forward: true,
        is_internal_feed: false,
        custom: None,
        option_chain: None,
    }
}

fn bar(sid: u64, close: i64) -> TradeBar {
    TradeBar {
        symbol: symbol(sid, SecurityType::Equity, "SPY"),
        time: dt(2024, 1, 2),
        end_time: dt(2024, 1, 3),
        open: Decimal::from_i64(1),
        high: Decimal::from_i64(1),
        low: Decimal::from_i64(1),
        close: Decimal::from_i64(close),
        volume: Decimal::from_i64(1),
        period: NANOS_PER_DAY,
    }
}

#[test]
fn active_subscriptions_keep_empty_dynamic_custom_streams() {
    let mut snapshot = custom_config(1, "snapshot", Resolution::Daily);
    snapshot.data_kind = SubscriptionDataKind::Universe;
    let sweeps = custom_config(2, "sweeps", Resolution::Minute);

    let active = lean_style_active_subscriptions(vec![snapshot, sweeps]);

    assert_eq!(active.len(), 2);
    assert!(active.iter().any(|config| {
        config
            .custom
            .as_ref()
            .map(|custom| custom.ticker == "sweeps")
            .unwrap_or(false)
            && config.resolution == Resolution::Minute
    }));
    let active_sweeps = active
        .iter()
        .find(|config| {
            config
                .custom
                .as_ref()
                .map(|custom| custom.ticker == "sweeps")
                .unwrap_or(false)
        })
        .expect("sweeps subscription");
    assert_eq!(
        active_sweeps
            .custom
            .as_ref()
            .expect("custom metadata")
            .dynamic_query
            .symbols,
        Some(Vec::new())
    );
}

#[test]
fn dynamic_custom_query_change_requires_stream_replacement() {
    let previous = custom_config(1, "sweeps", Resolution::Minute);
    let mut current = custom_config(1, "sweeps", Resolution::Minute);
    current
        .custom
        .as_mut()
        .expect("custom metadata")
        .dynamic_query
        .symbols = Some(vec!["NRG".to_string(), "FXI".to_string()]);

    assert!(subscription_requires_stream_replacement(&previous, &current, false));
}

#[test]
fn an_unchanged_query_keeps_its_stream() {
    let previous = custom_config(1, "sweeps", Resolution::Minute);
    let current = custom_config(1, "sweeps", Resolution::Minute);
    assert!(!subscription_requires_stream_replacement(&previous, &current, false));
    assert!(subscription_requires_stream_replacement(&previous, &current, true));
    assert!(!subscription_requires_stream_replacement(
        &equity_config(3, "SPY"),
        &equity_config(3, "SPY"),
        true
    ));
}

#[test]
fn queries_are_compared_by_content() {
    let mut a = empty_query();
    let mut b = empty_query();
    assert!(queries_equal(&a, &b));
    a.string_equals.insert("x".to_string(), "1".to_string());
    a.string_equals.insert("y".to_string(), "2".to_string());
    b.string_equals.insert("y".to_string(), "2".to_string());
    assert!(!queries_equal(&a, &b));
    b.string_equals.insert("x".to_string(), "1".to_string());
    assert!(queries_equal(&a, &b));
    a.start_date = Some(date(2024, 1, 1));
    assert!(!queries_equal(&a, &b));
}

#[test]
fn unset_algorithm_end_date_resolves_to_engine_date() {
    let resolved = resolve_backtest_dates(
        None,
        None,
        dt(2022, 1, 1),
        DateTime { ns: i64::MAX },
        date(2026, 6, 28),
    )
    .unwrap();

    assert_eq!(resolved, (date(2022, 1, 1), date(2026, 6, 28)));
}

#[test]
fn explicit_end_date_and_cli_overrides_are_preserved() {
    let resolved = resolve_backtest_dates(
        Some(date(2023, 1, 1)),
        Some(date(2023, 12, 31)),
        dt(2022, 1, 1),
        dt(2026, 1, 1),
        date(2026, 6, 28),
    )
    .unwrap();

    assert_eq!(resolved, (date(2023, 1, 1), date(2023, 12, 31)));
}

#[test]
fn start_after_end_is_rejected() {
    let error = resolve_backtest_dates(
        Some(date(2024, 1, 2)),
        Some(date(2024, 1, 1)),
        dt(2022, 1, 1),
        DateTime { ns: i64::MAX },
        date(2026, 6, 28),
    )
    .unwrap_err();

    assert!(error.to_string().contains("start date 2024-01-02"));
    assert_eq!(error, "backtest start date 2024-01-02 is after end date 2024-01-01");
}

#[test]
fn a_warmup_starts_with_the_furthest_subscription() {
    let mut internal = equity_config(2, "SPY");
    internal.is_internal_feed = true;
    let configs = vec![equity_config(1, "AAPL"), internal, equity_config(3, "QQQ")];
    let starts = vec![date(2024, 1, 5), date(2023, 1, 1), date(2024, 1, 3)];
    assert_eq!(
        warmup_start_from_bar_count(&configs, &starts),
        Some(date(2024, 1, 3))
    );
    assert_eq!(warmup_start_from_bar_count(&vec![], &vec![]), None);
}

#[test]
fn a_warmup_ends_right_before_the_backtest() {
    let start = dt(2024, 1, 10);
    assert_eq!(
        warmup_window(WarmupLength::Bars(Some(date(2024, 1, 3))), start),
        Some((dt(2024, 1, 3), DateTime { ns: start.ns - 1 }))
    );
    assert_eq!(
        warmup_window(WarmupLength::Span(Some(NANOS_PER_DAY)), start),
        Some((dt(2024, 1, 9), DateTime { ns: start.ns - 1 }))
    );
    assert_eq!(warmup_window(WarmupLength::Span(Some(0)), start), None);
    assert_eq!(warmup_window(WarmupLength::Bars(None), start), None);
    assert_eq!(warmup_window(WarmupLength::Span(None), start), None);
}

#[test]
fn the_framework_sits_out_the_first_slice_after_a_warmup() {
    let mut slice = Slice::new(dt(2024, 1, 3));
    slice.bars.push(bar(1, 10));
    assert!(slice_has_algorithm_data(&slice) && slice_has_fill_data(&slice));
    let mut run = BacktestLoop::new(true);
    let (step, context) = run.begin_slice(&slice).unwrap();
    assert_eq!(step, BacktestStep::StartTradingDay);
    assert!(!context.run_framework);
    let (_, context) = run.begin_slice(&slice).unwrap();
    assert!(context.run_framework);
    assert_eq!(run.market_slices_after_warmup, 2);
    let mut plain = BacktestLoop::new(false);
    assert!(plain.begin_slice(&slice).unwrap().1.run_framework);
    assert!(plain.begin_slice(&Slice::new(dt(2024, 1, 3))).is_none());
}

#[test]
fn a_backtest_slice_goes_through_its_steps() {
    let mut slice = Slice::new(dt(2024, 1, 3));
    slice.bars.push(bar(1, 10));
    let mut run = BacktestLoop::new(false);
    let (mut step, mut context) = run.begin_slice(&slice).unwrap();
    context.universe_changed = true;
    let mut seen = vec![step];
    while step != BacktestStep::Done {
        step = next_backtest_step(step, context, &Ok(()));
        seen.push(step);
    }
    assert_eq!(
        seen,
        vec![
            BacktestStep::StartTradingDay,
            BacktestStep::SelectUniverse,
            BacktestStep::SyncChangedUniverse,
            BacktestStep::AdvanceFrontier,
            BacktestStep::SettleRestingOrders,
            BacktestStep::DeliverData,
            BacktestStep::SyncSubscriptions,
            BacktestStep::FillNewOrders,
            BacktestStep::RunFramework,
            BacktestStep::SyncAfterFramework,
            BacktestStep::FillFrameworkOrders,
            BacktestStep::EndTimeStep,
            BacktestStep::RecordResults,
            BacktestStep::Done,
        ]
    );
}

#[test]
fn a_backtest_goes_through_its_phases() {
    let mut phase = RunPhase::PrepareDataDelivery;
    let options = RunOptions {
        has_warmup_window: false,
        streams_results: true,
    };
    let mut seen = vec![phase];
    while phase != RunPhase::Done {
        phase = next_run_phase(phase, options, &Ok(()));
        seen.push(phase);
    }
    assert_eq!(
        seen,
        vec![
            RunPhase::PrepareDataDelivery,
            RunPhase::FinishWarmup,
            RunPhase::Replay,
            RunPhase::FlushCaches,
            RunPhase::FinishAlgorithm,
            RunPhase::FinishStream,
            RunPhase::FinalizeResults,
            RunPhase::Done,
        ]
    );
    let warmed = RunOptions {
        has_warmup_window: true,
        streams_results: false,
    };
    assert_eq!(
        next_run_phase(RunPhase::PrepareDataDelivery, warmed, &Ok(())),
        RunPhase::ReplayWarmup
    );
    assert_eq!(
        next_run_phase(RunPhase::FinishAlgorithm, warmed, &Ok(())),
        RunPhase::FinalizeResults
    );
}

#[test]
fn an_algorithm_error_ends_the_run() {
    assert_eq!(after_delivery(None, false), Ok(()));
    assert_eq!(
        after_delivery(Some("boom"), false),
        Err("Algorithm runtime error: boom".to_string())
    );
    assert_eq!(
        after_delivery(Some("boom"), true),
        Err("Algorithm runtime error during warm-up: boom".to_string())
    );

    let mut slice = Slice::new(dt(2024, 1, 3));
    slice.bars.push(bar(1, 10));
    let (mut step, context) = BacktestLoop::new(false).begin_slice(&slice).unwrap();
    let delivery = after_delivery(Some("boom"), false);
    let mut seen = Vec::new();
    for _ in 0..20 {
        seen.push(step);
        step = next_backtest_step(step, context, &delivery);
    }
    assert_eq!(
        seen[..6],
        [
            BacktestStep::StartTradingDay,
            BacktestStep::SelectUniverse,
            BacktestStep::AdvanceFrontier,
            BacktestStep::SettleRestingOrders,
            BacktestStep::DeliverData,
            BacktestStep::Failed,
        ]
    );
    assert!(seen[5..].iter().all(|step| *step == BacktestStep::Failed));
    assert_eq!(
        next_warmup_step(WarmupStep::DeliverData, &delivery),
        WarmupStep::Failed
    );
    assert_eq!(
        next_warmup_step(WarmupStep::Failed, &Ok(())),
        WarmupStep::Failed
    );
    let options = RunOptions {
        has_warmup_window: false,
        streams_results: true,
    };
    let failed = next_run_phase(RunPhase::Replay, options, &delivery);
    assert_eq!(failed, RunPhase::Failed);
    assert_eq!(next_run_phase(failed, options, &Ok(())), RunPhase::Failed);
}

#[test]
fn results_are_recorded_by_instant() {
    let mut handler = ResultHandler::new();
    let mut slice = Slice::new(dt(2024, 1, 3));
    slice.bars.push(bar(7, 470));
    let benchmark = equity_config(7, "SPY");
    record_slice_results(&mut handler, &slice, Decimal::from_i64(100_000), Some(&benchmark));
    let other = Slice::new(dt(2024, 1, 2));
    record_slice_results(&mut handler, &other, Decimal::from_i64(99_000), Some(&benchmark));
    record_slice_results(&mut handler, &slice, Decimal::from_i64(101_000), None);
    let values: Vec<String> = handler
        .equity_curve
        .values()
        .iter()
        .map(|value| value.to_text())
        .collect();
    assert_eq!(values, vec!["99000", "101000"]);
    assert_eq!(handler.equity_curve.dates(), vec!["2024-01-02", "2024-01-03"]);
    assert_eq!(handler.equity_curve.times(), vec![dt(2024, 1, 2).ns, dt(2024, 1, 3).ns]);
    assert_eq!(handler.benchmark_curve.dates(), vec!["2024-01-03"]);
    assert!(handler.benchmark_curve.values()[0].equals(Decimal::from_i64(470)));
}

#[test]
fn trading_days_are_at_least_the_days_of_the_curve() {
    let times = vec![
        dt(2024, 1, 2).ns,
        dt(2024, 1, 2).ns + 1,
        dt(2024, 1, 3).ns,
    ];
    assert_eq!(result_trading_days(1, &times), 2);
    assert_eq!(result_trading_days(5, &times), 5);
    assert_eq!(result_trading_days(0, &vec![]), 0);
}

#[test]
fn a_result_holds_its_curves_and_days() {
    let mut handler = ResultHandler::new();
    let cash = Decimal::from_i64(100_000);
    let (start, end) = (date(2024, 1, 1), date(2024, 1, 5));
    let empty = build_backtest_result(&handler, 0, cash, start, end);
    assert_eq!(empty.final_value, cash);
    assert_eq!(empty.trading_days, 0);
    assert!(empty.equity_curve.is_empty() && empty.daily_dates.is_empty());
    handler.record_equity(dt(2024, 1, 3), Decimal::from_i64(101_000));
    handler.record_equity(dt(2024, 1, 2), Decimal::from_i64(99_000));
    handler.record_benchmark(dt(2024, 1, 2), Decimal::from_i64(470));
    let report = build_backtest_result(&handler, 1, cash, start, end);
    assert_eq!(report.final_value, Decimal::from_i64(101_000));
    assert_eq!(report.trading_days, 2);
    assert_eq!(report.starting_cash, cash);
    assert_eq!((report.start_date, report.end_date), (start, end));
    assert_eq!(
        report.equity_curve,
        vec![Decimal::from_i64(99_000), Decimal::from_i64(101_000)]
    );
    assert_eq!(report.daily_dates, vec!["2024-01-02", "2024-01-03"]);
    assert_eq!(report.benchmark_curve, vec![Decimal::from_i64(470)]);
    assert_eq!(report.benchmark_dates, vec!["2024-01-02"]);
}

#[test]
fn statistics_use_a_daily_rate() {
    let mut handler = ResultHandler::new();
    handler.record_equity(dt(2024, 1, 2), Decimal::from_i64(99_000));
    let input = handler.finalize(12, Decimal::from_i64(100_000));
    assert_eq!(input.equity, vec![Decimal::from_i64(99_000)]);
    assert!(input.benchmark.is_empty());
    assert_eq!(input.trading_days, 12);
    assert_eq!(input.starting_cash, Decimal::from_i64(100_000));
    let expected = rust_decimal::Decimal::new(4, 2) / rust_decimal::Decimal::from(252);
    assert_eq!(input.risk_free_rate.to_text(), expected.to_string());
    assert_eq!(input.risk_free_rate.to_text(), "0.0001587301587301587301587302");
}

#[test]
fn a_backtest_covers_its_dates() {
    let (first, last) = backtest_window(date(2024, 1, 1), date(2024, 1, 2));
    assert_eq!(first, dt(2024, 1, 1));
    assert_eq!(last.ns, dt(2024, 1, 3).ns - 1_000_000_000);
}

#[test]
fn a_warmup_slice_goes_through_its_steps() {
    let empty = Slice::new(dt(2024, 1, 3));
    assert_eq!(first_warmup_step(&empty), WarmupStep::Done);
    let mut slice = Slice::new(dt(2024, 1, 3));
    slice.bars.push(bar(7, 470));
    let mut step = first_warmup_step(&slice);
    let mut seen = Vec::new();
    while step != WarmupStep::Done {
        seen.push(step);
        step = next_warmup_step(step, &Ok(()));
    }
    assert_eq!(
        seen,
        vec![
            WarmupStep::AdvanceFrontier,
            WarmupStep::DeliverData,
            WarmupStep::AdvanceFramework,
            WarmupStep::EndTimeStep,
        ]
    );
}

#[test]
fn rows_are_streamed_once() {
    let mut cursor = StreamCursor { streamed: 0 };
    assert_eq!(cursor.advance(3), Some((0, 3)));
    assert_eq!(cursor.advance(3), None);
    assert_eq!(cursor.advance(5), Some((3, 5)));
}

#[test]
fn progress_is_the_share_of_the_days() {
    let mut writer = BacktestStreamWriter::new(date(2024, 1, 1), date(2024, 1, 11));
    let half = writer.progress_fraction(date(2024, 1, 6));
    assert_eq!((half.done, half.total), (5, 10));
    let first = writer.record_progress(date(2024, 1, 6), 0);
    assert!(first.log && first.heartbeat);
    let again = writer.record_progress(date(2024, 1, 6), 1);
    assert!(!again.log && !again.heartbeat);
}

#[test]
fn a_run_starts_with_empty_stream_files() {
    let fresh = emptied_files(false);
    assert_eq!(fresh.len(), 3);
    assert!(!fresh.contains(&StreamFile::Progress));
    let again = emptied_files(true);
    assert_eq!(again.len(), 4);
    for file in mirrored_files() {
        assert!(again.contains(&file));
    }
    let names: Vec<&str> = mirrored_files().into_iter().map(|file| file.name()).collect();
    assert_eq!(
        names,
        vec!["progress.json", "order-events.jsonl", "trades.jsonl", "heartbeat.log"]
    );
}

#[test]
fn the_benchmark_uses_an_existing_subscription() {
    let configs = vec![equity_config(1, "AAPL"), equity_config(2, "SPY")];
    assert!(matches!(
        benchmark_subscription_for_symbol("spy", &configs),
        BenchmarkChoice::Existing(1)
    ));
    match benchmark_subscription_for_symbol(" qqq ", &configs) {
        BenchmarkChoice::NewInternal(ticker) => assert_eq!(ticker, "QQQ"),
        _ => panic!("a new benchmark subscription"),
    }
    assert!(matches!(
        benchmark_subscription_for_symbol("  ", &configs),
        BenchmarkChoice::Nothing
    ));
}

#[test]
fn a_benchmark_is_added_once() {
    let with = subscriptions_with_benchmark(
        vec![equity_config(1, "AAPL")],
        Some(equity_config(2, "SPY")),
    );
    assert_eq!(with.len(), 2);
    let same = subscriptions_with_benchmark(
        vec![equity_config(1, "AAPL")],
        Some(equity_config(1, "AAPL")),
    );
    assert_eq!(same.len(), 1);
    assert_eq!(subscriptions_with_benchmark(vec![equity_config(1, "A")], None).len(), 1);
}

#[test]
fn option_chains_are_subscribed_once() {
    let chains = vec![equity_config(5, "?SPY"), equity_config(5, "?SPY")];
    let all = subscriptions_with_option_chains(vec![equity_config(1, "AAPL")], chains);
    let ids: Vec<u64> = all.iter().map(|config| config.unique_id).collect();
    assert_eq!(ids, vec![1, 5]);
    let filter = OptionChainFilterMetadata {
        min_strike_rank: -2,
        max_strike_rank: 2,
        min_expiry_days: 0,
        max_expiry_days: 30,
    };
    let metadata = option_chain_metadata(&symbol(9, SecurityType::Option, "?SPY"), filter);
    assert_eq!(metadata.canonical_permtick, "?SPY");
    assert_eq!(metadata.underlying_ticker, "SPY");
}

#[test]
fn the_feed_follows_the_subscriptions() {
    let active = vec![
        equity_config(1, "AAPL"),
        custom_config(2, "sweeps", Resolution::Minute),
        equity_config(3, "QQQ"),
    ];
    let mut changed = custom_config(2, "sweeps", Resolution::Minute);
    changed.custom.as_mut().unwrap().dynamic_query.symbols = Some(vec!["NRG".to_string()]);
    let current = vec![equity_config(1, "AAPL"), changed, equity_config(4, "MSFT")];
    let plan = sync_data_manager_subscriptions(&active, &current, &vec![false, false, false]);
    assert_eq!(plan.replaced, vec![1]);
    // A replaced subscription is started again.
    assert_eq!(plan.added, vec![1, 2]);
    assert_eq!(plan.removed, vec![2]);
}
