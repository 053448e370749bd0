use lean_engine::decimal::Decimal;
use lean_engine::history_service::{
    bar_history_columns, custom_history_columns, custom_history_window, custom_points_to_columns,
    date_window, history_count_start, history_end, last_known_close_price,
    last_known_lookback_days, last_known_start, matching_normalization_mode, plan_history_count,
    plan_last_known, select_history, select_last_known, HistoryPlan,
};
use lean_engine::history_subscription::{
    config_from_history_request, get_custom_points, get_quote_bars_for_configs,
    get_ticks_for_configs, get_trade_bars_for_configs, HistoryConfigKind,
};
use lean_engine::model::{
    CustomDataConfig, CustomDataPoint, CustomDataQuery, CustomSubscriptionMetadata,
    DataNormalizationMode, DataType, QuoteBar, Resolution, SecurityType, SubscriptionDataConfig,
    SubscriptionDataKind, Symbol, Tick, TickType, TradeBar,
};
use lean_engine::name_map::NameMap;
use lean_engine::slice::{CustomRow, Slice};
use lean_engine::time::{Date, DateTime, NANOS_PER_DAY};

fn day(year: i32, month: u32, day: u32) -> Date {
    Date::from_ymd(year, month, day).unwrap()
}

fn dt(date: Date, hour: i64, minute: i64) -> DateTime {
    DateTime::at(date, hour * 3600 + minute * 60)
}

fn dec(n: i64) -> Decimal {
    Decimal::from_i64(n)
}

fn symbol(sid: u64) -> Symbol {
    Symbol {
        sid,
        security_type: SecurityType::Equity,
        market: "usa".to_string(),
        value: "SPY".to_string(),
        permtick: "SPY".to_string(),
        underlying: None,
    }
}

fn point(date: Date, end_time: Option<DateTime>, value: i64) -> CustomDataPoint {
    CustomDataPoint {
        time: date,
        end_time,
        value: dec(value),
        fields: NameMap::new(),
    }
}

fn bar(sid: u64, end_time: DateTime, close: i64) -> TradeBar {
    TradeBar {
        symbol: symbol(sid),
        time: DateTime { ns: end_time.ns - NANOS_PER_DAY },
        end_time,
        open: dec(1),
        high: dec(1),
        low: dec(1),
        close: dec(close),
        volume: dec(1),
        period: NANOS_PER_DAY,
    }
}

fn config(
    resolution: Resolution,
    tick_type: TickType,
    mode: DataNormalizationMode,
) -> SubscriptionDataConfig {
    SubscriptionDataConfig {
        unique_id: 1,
        symbol: symbol(1),
        resolution,
        tick_type,
        data_kind: SubscriptionDataKind::Market,
        normalization_mode: mode,
        fill_data_forward: true,
        is_internal_feed: false,
        custom: None,
        option_chain: None,
    }
}

fn custom_config() -> SubscriptionDataConfig {
    let query = || CustomDataQuery {
        symbols: None,
        string_equals: NameMap::new(),
        string_in: NameMap::new(),
        start_date: None,
        end_date: None,
    };
    let mut config = config(Resolution::Daily, TickType::Trade, DataNormalizationMode::Raw);
    config.data_kind = SubscriptionDataKind::Custom;
    config.custom = Some(CustomSubscriptionMetadata {
        source_type: "fred".to_string(),
        ticker: "GDP".to_string(),
        config: CustomDataConfig {
            ticker: "GDP".to_string(),
            source_type: "fred".to_string(),
            resolution: Resolution::Daily,
            properties: NameMap::new(),
            query: query(),
        },
        dynamic_query: query(),
    });
    config
}

#[test]
fn custom_history_count_is_sorted_by_end_time_like_lean() {
    let first = point(day(2024, 9, 27), Some(dt(day(2024, 9, 27), 10, 0)), 1);
    let second = point(day(2024, 9, 30), Some(dt(day(2024, 9, 30), 11, 0)), 2);
    let third = point(day(2024, 10, 1), Some(dt(day(2024, 10, 1), 17, 0)), 3);
    let columns = custom_points_to_columns(&vec![first, second, third]);

    assert_eq!(
        *columns.get("end_time").unwrap(),
        vec![
            "2024-09-27T10:00:00+00:00",
            "2024-09-30T11:00:00+00:00",
            "2024-10-01T17:00:00+00:00"
        ]
    );
    assert_eq!(*columns.get("value").unwrap(), vec!["1", "2", "3"]);
}

#[test]
fn custom_history_keeps_the_last_rows_in_order() {
    let columns = custom_history_columns(
        vec![
            point(day(2024, 10, 1), Some(dt(day(2024, 10, 1), 17, 0)), 3),
            point(day(2024, 9, 27), Some(dt(day(2024, 9, 27), 10, 0)), 1),
            point(day(2024, 9, 30), Some(dt(day(2024, 9, 30), 11, 0)), 2),
        ],
        2,
    );
    assert_eq!(*columns.get("value").unwrap(), vec!["2", "3"]);
    let undated = custom_points_to_columns(&vec![point(day(2024, 10, 1), None, 3)]);
    assert_eq!(*undated.get("time").unwrap(), vec!["2024-10-01"]);
    assert_eq!(*undated.get("end_time").unwrap(), vec!["2024-10-01"]);
}

#[test]
fn bar_history_has_a_column_for_each_field() {
    let columns = bar_history_columns(
        vec![
            bar(1, dt(day(2024, 1, 4), 16, 0), 12),
            bar(1, dt(day(2024, 1, 3), 16, 0), 11),
        ],
        5,
    );
    assert_eq!(*columns.get("close").unwrap(), vec!["11", "12"]);
    assert_eq!(
        *columns.get("time").unwrap(),
        vec!["2024-01-02T16:00:00+00:00", "2024-01-03T16:00:00+00:00"]
    );
    for name in ["end_time", "open", "high", "low", "volume"] {
        assert_eq!(columns.get(name).unwrap().len(), 2);
    }
    assert!(columns.get("value").is_none());
}

#[test]
fn history_ends_now_or_at_the_start_date() {
    let start = dt(day(2024, 1, 2), 0, 0);
    let now = dt(day(2024, 6, 3), 15, 0);
    assert_eq!(history_end(now, start), now);
    assert_eq!(history_end(DateTime { ns: 0 }, start), start);
}

#[test]
fn counted_history_reaches_back_far_enough() {
    let end = dt(day(2024, 6, 3), 0, 0);
    let days = |start: DateTime| (end.ns - start.ns) / NANOS_PER_DAY;
    assert_eq!(days(history_count_start(end, 10, Resolution::Daily)), 61);
    assert_eq!(days(history_count_start(end, 12, Resolution::Hour)), 16);
    assert_eq!(days(history_count_start(end, 780, Resolution::Minute)), 9);
    assert_eq!(
        history_count_start(end, 1_000_000_000, Resolution::Daily),
        DateTime { ns: end.ns - i64::MAX }
    );
    // A count that wraps round reaches one day ahead.
    assert_eq!(
        history_count_start(end, usize::MAX, Resolution::Daily),
        DateTime { ns: end.ns + NANOS_PER_DAY }
    );
}

#[test]
fn counted_history_is_planned() {
    let start_date = dt(day(2024, 1, 2), 0, 0);
    let now = dt(day(2024, 6, 3), 15, 0);
    assert!(matches!(
        plan_history_count(&symbol(1), 0, Resolution::Daily, now, start_date, &vec![]),
        HistoryPlan::Nothing
    ));
    let configs = vec![
        config(
            Resolution::Daily,
            TickType::Trade,
            DataNormalizationMode::SplitAdjusted,
        ),
        custom_config(),
    ];
    match plan_history_count(&symbol(1), 1, Resolution::Daily, now, start_date, &configs) {
        HistoryPlan::Custom { config, end, .. } => {
            assert_eq!(config, 1);
            assert_eq!(end, now);
        }
        _ => panic!("custom history"),
    }
    let configs = vec![config(
        Resolution::Daily,
        TickType::Trade,
        DataNormalizationMode::SplitAdjusted,
    )];
    let fresh = DateTime { ns: 0 };
    match plan_history_count(&symbol(1), 1, Resolution::Daily, fresh, start_date, &configs) {
        HistoryPlan::Bars {
            request,
            normalization,
        } => {
            assert_eq!(request.end, start_date);
            assert_eq!(request.start.ns, start_date.ns - 34 * NANOS_PER_DAY);
            assert_eq!(request.data_type, DataType::TradeBar);
            assert_eq!(normalization, DataNormalizationMode::SplitAdjusted);
        }
        _ => panic!("bar history"),
    }
}

#[test]
fn the_last_known_price_is_searched_in_a_window() {
    assert_eq!(last_known_lookback_days(Resolution::Minute), 7);
    assert_eq!(last_known_lookback_days(Resolution::Hour), 14);
    assert_eq!(last_known_lookback_days(Resolution::Daily), 31);
    let now = dt(day(2024, 6, 3), 15, 0);
    assert_eq!(last_known_start(now, Resolution::Hour), dt(day(2024, 5, 20), 0, 0));
    let (request, mode) =
        plan_last_known(&symbol(1), Resolution::Daily, now, DateTime { ns: 1 }, &vec![]);
    assert_eq!(request.start, dt(day(2024, 5, 3), 0, 0));
    assert_eq!(request.end, now);
    assert_eq!(mode, DataNormalizationMode::Adjusted);
}

#[test]
fn the_last_known_price_has_a_price_and_has_ended() {
    let now = dt(day(2024, 1, 5), 0, 0);
    let bars = || {
        vec![
            bar(1, dt(day(2024, 1, 4), 16, 0), 12),
            bar(1, dt(day(2024, 1, 6), 16, 0), 14),
            bar(1, dt(day(2024, 1, 4), 20, 0), 0),
            bar(1, dt(day(2024, 1, 3), 16, 0), 11),
        ]
    };
    assert_eq!(last_known_close_price(bars(), now), Some(dec(12)));
    assert_eq!(select_last_known(bars(), now).len(), 1);
    assert_eq!(last_known_close_price(vec![], now), None);
    let last = select_history(bars(), 2);
    assert_eq!(last[0].close, dec(0));
    assert_eq!(last[1].close, dec(14));
}

#[test]
fn history_takes_the_normalization_of_the_closest_subscription() {
    let fallback = DataNormalizationMode::Adjusted;
    let daily_quote = || {
        config(
            Resolution::Daily,
            TickType::Quote,
            DataNormalizationMode::Raw,
        )
    };
    let minute_trade = || {
        config(
            Resolution::Minute,
            TickType::Trade,
            DataNormalizationMode::TotalReturn,
        )
    };
    let daily_trade = || {
        config(
            Resolution::Daily,
            TickType::Trade,
            DataNormalizationMode::SplitAdjusted,
        )
    };
    let all = vec![daily_quote(), minute_trade(), daily_trade()];
    assert_eq!(
        matching_normalization_mode(&all, Some(Resolution::Daily), fallback),
        DataNormalizationMode::SplitAdjusted
    );
    let two = vec![minute_trade(), daily_quote()];
    assert_eq!(
        matching_normalization_mode(&two, Some(Resolution::Daily), fallback),
        DataNormalizationMode::Raw
    );
    assert_eq!(
        matching_normalization_mode(&two, Some(Resolution::Hour), fallback),
        DataNormalizationMode::TotalReturn
    );
    let quotes = vec![daily_quote()];
    assert_eq!(
        matching_normalization_mode(&quotes, None, fallback),
        DataNormalizationMode::Raw
    );
    assert_eq!(matching_normalization_mode(&vec![], None, fallback), fallback);
}

#[test]
fn custom_history_needs_a_custom_subscription() {
    let start = day(2024, 1, 2);
    let end = day(2024, 1, 3);
    let window = (dt(start, 0, 0), DateTime::at(end, 86_399));
    assert_eq!(date_window(start, end), window);
    assert_eq!(custom_history_window(&custom_config(), start, end), Ok(window));
    let market = config(Resolution::Daily, TickType::Trade, DataNormalizationMode::Raw);
    assert_eq!(
        custom_history_window(&market, start, end),
        Err("custom history requested for non-custom subscription".to_string())
    );
}

#[test]
fn history_requests_become_subscriptions() {
    let raw = DataNormalizationMode::Raw;
    assert_eq!(
        config_from_history_request(SecurityType::Equity, DataType::QuoteBar, raw),
        (HistoryConfigKind::Equity(raw), TickType::Quote)
    );
    assert_eq!(
        config_from_history_request(SecurityType::Crypto, DataType::TradeBar, raw),
        (HistoryConfigKind::Crypto, TickType::Trade)
    );
}

#[test]
fn rows_of_slices_are_gathered_by_security() {
    let mut first = Slice::new(dt(day(2024, 1, 3), 16, 0));
    first.bars.push(bar(2, dt(day(2024, 1, 3), 16, 0), 20));
    first.bars.push(bar(1, dt(day(2024, 1, 3), 16, 0), 10));
    first.quote_bars.push(QuoteBar {
        symbol: symbol(1),
        time: dt(day(2024, 1, 3), 15, 0),
        end_time: dt(day(2024, 1, 3), 16, 0),
        bid: None,
        ask: None,
        last_bid_size: Decimal::zero(),
        last_ask_size: Decimal::zero(),
        period: 1,
    });
    first.ticks.push(Tick {
        symbol: symbol(3),
        time: dt(day(2024, 1, 3), 15, 0),
        tick_type: TickType::Trade,
        value: dec(1),
        quantity: dec(1),
        bid_price: dec(0),
        ask_price: dec(0),
        bid_size: dec(0),
        ask_size: dec(0),
        exchange: None,
        sale_condition: None,
        suspicious: false,
    });
    first.custom.push(CustomRow {
        symbol: symbol(4),
        ticker: "GDP".to_string(),
        point: point(day(2024, 1, 3), None, 7),
    });
    let copy = |slice: &Slice| {
        let mut other = Slice::new(slice.time);
        other.bars = slice.bars.iter().map(|bar| bar.duplicate()).collect();
        other.quote_bars = slice.quote_bars.iter().map(|bar| bar.duplicate()).collect();
        other.ticks = slice.ticks.iter().map(|tick| tick.duplicate()).collect();
        other
    };
    let bars = get_trade_bars_for_configs(vec![copy(&first)], &vec![1, 2]);
    let sids: Vec<u64> = bars.iter().map(|bar| bar.symbol.sid).collect();
    assert_eq!(sids, vec![1, 2]);
    assert_eq!(get_trade_bars_for_configs(vec![copy(&first)], &vec![2]).len(), 1);
    assert_eq!(get_quote_bars_for_configs(vec![copy(&first)], &vec![1]).len(), 1);
    assert!(get_ticks_for_configs(vec![copy(&first)], &vec![1]).is_empty());
    assert_eq!(get_ticks_for_configs(vec![copy(&first)], &vec![3]).len(), 1);
    assert_eq!(get_custom_points(vec![first], 4).len(), 1);
}
