use lean_engine::data_feed::policy::SubscriptionCachePolicy;
use lean_engine::decimal::Decimal;
use lean_engine::model::{
    DataNormalizationMode, ExchangeHours, OptionChainFilterMetadata,
    OptionChainSubscriptionMetadata, Resolution, SecurityType, SubscriptionDataConfig,
    SubscriptionDataKind, Symbol, TickType, TradeBar,
};
use lean_engine::options_service::{
    build_daily_eod_chain, filter_option_rows, option_contract_data_from_eod,
    option_right_from_row, option_underlying_ticker, select_daily_contracts,
    underlying_price_from_bars, OptionEodBar, OptionPricing, OptionRight,
};
use lean_engine::subscription_reader::options::{eod_row_source, EodRowSource, OptionStep};
use lean_engine::subscription_reader::producer::SubscriptionProducerState;
use lean_engine::time::{Date, DateTime, NANOS_PER_DAY};

fn date(year: i32, month: u32, day: u32) -> Date {
    Date::from_ymd(year, month, day).unwrap()
}

fn dec(n: i64) -> Decimal {
    Decimal::from_i64(n)
}

fn symbol(sid: u64, security_type: SecurityType, ticker: &str) -> Symbol {
    Symbol {
        sid,
        security_type,
        market: "usa".to_string(),
        value: ticker.to_string(),
        permtick: ticker.to_string(),
        underlying: None,
    }
}

fn row(expiration: Date, strike: i64, right: &str) -> OptionEodBar {
    OptionEodBar {
        expiration,
        strike: dec(strike),
        right: right.to_string(),
        close: dec(3),
        volume: 10,
        bid: dec(2),
        bid_size: 5,
        ask: dec(4),
        ask_size: 6,
    }
}

fn filter() -> OptionChainFilterMetadata {
    OptionChainFilterMetadata {
        min_strike_rank: -1,
        max_strike_rank: 1,
        min_expiry_days: 0,
        max_expiry_days: 30,
    }
}

fn pricing() -> OptionPricing {
    OptionPricing {
        theoretical_price: dec(3),
        implied_volatility: dec(1),
        delta: dec(1),
        gamma: dec(0),
        vega: dec(0),
        theta: dec(0),
        rho: dec(0),
    }
}

#[test]
fn option_rights_are_read_from_their_rows() {
    assert_eq!(option_right_from_row("C"), Some(OptionRight::Call));
    assert_eq!(option_right_from_row("put"), Some(OptionRight::Put));
    assert_eq!(option_right_from_row("x"), None);
}

#[test]
fn the_underlying_of_a_chain_is_found() {
    let mut canonical = symbol(9, SecurityType::Option, "?SPY");
    assert_eq!(option_underlying_ticker(&canonical), "SPY");
    canonical.underlying = Some(Box::new(symbol(1, SecurityType::Equity, "QQQ")));
    assert_eq!(option_underlying_ticker(&canonical), "QQQ");
}

#[test]
fn contracts_carry_their_quotes() {
    let data = option_contract_data_from_eod(&row(date(2024, 2, 16), 470, "C"), dec(471));
    assert_eq!(data.last_price, dec(3));
    assert_eq!(data.volume, 10);
    assert_eq!((data.bid_price, data.bid_size), (dec(2), 5));
    assert_eq!((data.ask_price, data.ask_size), (dec(4), 6));
    assert_eq!(data.underlying_last_price, dec(471));
}

#[test]
fn chains_are_filtered_by_strike_and_expiry() {
    let today = date(2024, 1, 16);
    let soon = date(2024, 2, 1);
    let late = date(2024, 3, 15);
    let rows = vec![
        row(soon, 450, "C"),
        row(soon, 460, "C"),
        row(soon, 470, "C"),
        row(soon, 480, "P"),
        row(soon, 490, "C"),
        row(late, 470, "C"),
    ];
    let kept = filter_option_rows(rows, today, dec(471), filter());
    let strikes: Vec<String> = kept.iter().map(|row| row.strike.to_text()).collect();
    assert!(strikes.contains(&"470".to_string()));
    assert!(!strikes.contains(&"450".to_string()));
    assert!(!strikes.contains(&"490".to_string()));
    assert!(kept.iter().all(|row| row.expiration == soon));
}

#[test]
fn a_daily_chain_joins_contracts_and_prices() {
    let today = date(2024, 1, 16);
    let rows = vec![row(date(2024, 2, 1), 470, "C"), row(date(2024, 2, 1), 470, "P")];
    let contracts = select_daily_contracts(Resolution::Daily, filter(), today, rows, dec(471));
    assert_eq!(contracts.len(), 2);
    let canonical = symbol(9, SecurityType::Option, "?SPY");
    let chain =
        build_daily_eod_chain(&canonical, dec(471), &contracts, &vec![pricing(), pricing()])
            .unwrap();
    assert_eq!(chain.contracts.len(), 2);
    assert!(chain.contracts[0].pricing.is_some());
    assert_eq!(chain.underlying_price, dec(471));
    assert!(build_daily_eod_chain(&canonical, dec(471), &vec![], &vec![]).is_none());
    let rows = vec![row(date(2024, 2, 1), 470, "C")];
    assert!(
        select_daily_contracts(Resolution::Minute, filter(), today, rows, dec(471)).is_empty()
    );
}

fn bar(sid: u64, close: i64) -> TradeBar {
    let time = DateTime::at(date(2024, 1, 16), 0);
    TradeBar {
        symbol: symbol(sid, SecurityType::Equity, "SPY"),
        time,
        end_time: DateTime { ns: time.ns + NANOS_PER_DAY },
        open: dec(1),
        high: dec(1),
        low: dec(1),
        close: dec(close),
        volume: dec(1),
        period: NANOS_PER_DAY,
    }
}

fn chain_producer() -> SubscriptionProducerState {
    let mut canonical = symbol(9, SecurityType::Option, "?SPY");
    canonical.underlying = Some(Box::new(symbol(1, SecurityType::Equity, "SPY")));
    let config = SubscriptionDataConfig {
        unique_id: 9,
        symbol: canonical,
        resolution: Resolution::Daily,
        tick_type: TickType::Trade,
        data_kind: SubscriptionDataKind::Option,
        normalization_mode: DataNormalizationMode::Raw,
        fill_data_forward: false,
        is_internal_feed: false,
        custom: None,
        option_chain: Some(OptionChainSubscriptionMetadata {
            canonical_permtick: "?SPY".to_string(),
            underlying_ticker: "SPY".to_string(),
            filter: filter(),
        }),
    };
    SubscriptionProducerState::new(
        config,
        ExchangeHours {
            open_dates: vec![],
            sessions: vec![],
        },
        SubscriptionCachePolicy::default(),
        true,
        true,
        None,
        None,
        vec![],
        DateTime::at(date(2024, 1, 13), 0),
        DateTime::at(date(2024, 1, 17), 86_399),
    )
}

#[test]
fn chains_are_read_on_days_with_sessions() {
    let state = chain_producer();
    let hours = ExchangeHours {
        open_dates: vec![date(2024, 1, 16), date(2024, 1, 17)],
        sessions: vec![],
    };
    assert!(!state.option_chain_market_is_open(&hours, date(2024, 1, 13)));
    assert!(state.option_chain_market_is_open(&hours, date(2024, 1, 16)));
    match state.begin_option_partition(&hours) {
        OptionStep::Days {
            dates,
            through_date,
        } => {
            assert!(dates.iter().all(|day| hours.open_dates.contains(day)));
            assert!(through_date.days >= date(2024, 1, 13).days);
        }
        OptionStep::Empty { .. } => {}
    }
}

#[test]
fn the_underlying_price_comes_from_the_store_first() {
    let state = chain_producer();
    let request = state.underlying_price_request(date(2024, 1, 16)).unwrap();
    assert_eq!(request.query.sid, 1);
    assert_eq!(request.request.symbol.sid, 1);
    assert_eq!(
        state.underlying_price_for_option_chain(&vec![bar(1, 470)], &vec![bar(1, 480)]),
        dec(470)
    );
    assert_eq!(
        state.underlying_price_for_option_chain(&vec![], &vec![bar(1, 480)]),
        dec(480)
    );
    let canonical = chain_producer().config.symbol;
    assert_eq!(underlying_price_from_bars(&canonical, &vec![bar(1, 470)]), dec(470));
    assert!(underlying_price_from_bars(&canonical, &vec![]).is_zero());
}

#[test]
fn end_of_day_rows_come_from_the_store_first() {
    assert_eq!(eod_row_source(3, true), EodRowSource::Store);
    assert_eq!(eod_row_source(0, true), EodRowSource::Provider);
    assert_eq!(eod_row_source(0, false), EodRowSource::Nothing);
}

#[test]
fn a_chain_becomes_a_point() {
    let canonical = symbol(9, SecurityType::Option, "?SPY");
    let rows = vec![row(date(2024, 2, 1), 470, "C")];
    let today = date(2024, 1, 16);
    let contracts = select_daily_contracts(Resolution::Daily, filter(), today, rows, dec(471));
    let chain =
        build_daily_eod_chain(&canonical, dec(471), &contracts, &vec![pricing()]).unwrap();
    let metadata = OptionChainSubscriptionMetadata {
        canonical_permtick: "?SPY".to_string(),
        underlying_ticker: "SPY".to_string(),
        filter: filter(),
    };
    assert_eq!(SubscriptionProducerState::option_row_ticker(&metadata), "SPY");
    let point = SubscriptionProducerState::option_chain_point(&metadata, today, chain);
    assert_eq!(point.frontier_time().date_utc(), today);
}
