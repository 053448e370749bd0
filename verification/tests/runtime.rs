use lean_engine::algorithm_services::{
    apply_custom_universe_changes, apply_slice_security_prices, apply_universe_changes, mid_price,
    register_custom_universe_leverage_metadata, register_universe_changes,
    submit_execution_order_request, ExecutionOrderType, LeverageRow, OrderAction, OrderRequest,
    PriceUpdate, RemovedSecurity, SecurityChanges,
};
use lean_engine::backtest_engine::{BacktestEngine, EngineAction};
use lean_engine::decimal::Decimal;
use lean_engine::model::{Bar, QuoteBar, SecurityType, Symbol, TradeBar};
use lean_engine::name_map::NameMap;
use lean_engine::orders::{Order, OrderStatus};
use lean_engine::research::{
    catalog_config, env_value, indicator_for_upper_name, run_indicator, CatalogSettings,
    IndicatorPlan, ResearchDataProviderConfig, ResearchEngine,
};
use lean_engine::runtime_context::{
    AlgorithmRuntimeContext, EngineAlgorithmServices, RegisteredIndicators,
};
use lean_engine::slice::Slice;
use lean_engine::time::{Date, DateTime, NANOS_PER_DAY};

fn dec(n: i64) -> Decimal {
    Decimal::from_i64(n)
}

fn symbol(sid: u64, security_type: SecurityType, ticker: &str) -> Symbol {
    Symbol {
        sid,
        security_type,
        market: "usa".to_string(),
        value: ticker.to_string(),
        permtick: ticker.to_string(),
        underlying: None,
    }
}

fn spy() -> Symbol {
    symbol(1, SecurityType::Equity, "SPY")
}

fn bar(symbol: Symbol, time: DateTime, close: i64) -> TradeBar {
    TradeBar {
        symbol,
        time,
        end_time: DateTime { ns: time.ns + NANOS_PER_DAY },
        open: dec(1),
        high: dec(1),
        low: dec(1),
        close: dec(close),
        volume: dec(1),
        period: NANOS_PER_DAY,
    }
}

const NOW: DateTime = DateTime { ns: 1_700_000_000_000_000_000 };

#[test]
fn services_share_history_and_runtime_parameters() {
    let mut parameters: NameMap<String> = NameMap::new();
    parameters.insert("existing".to_string(), "value".to_string());
    let mut services = EngineAlgorithmServices::new(NOW, AlgorithmRuntimeContext::new(parameters));

    assert_eq!(services.runtime_parameter("existing"), Some(&"value".to_string()));
    services.set_runtime_parameter("new", "parameter".to_string());
    assert_eq!(
        services.context().runtime_parameters().get("new"),
        Some(&"parameter".to_string())
    );
    assert_eq!(services.time(), NOW);
    services.set_time(DateTime { ns: 5 });
    assert_eq!(services.time(), DateTime { ns: 5 });
}

#[test]
fn runtime_context_advances_registered_indicators() {
    let mut context = AlgorithmRuntimeContext::new(NameMap::new());
    context.registered_indicators.push(RegisteredIndicators {
        sid: 1,
        indicators: vec![77],
    });
    context.registered_indicators.push(RegisteredIndicators {
        sid: 2,
        indicators: vec![78],
    });
    assert_eq!(context.registered_indicators().len(), 2);
    let mut slice = Slice::new(NOW);
    slice.bars.push(bar(spy(), NOW, 1));
    let updates = context.update_registered_indicators(&slice);
    assert_eq!(updates.len(), 1);
    assert_eq!(updates[0], (77, 1));
}

#[test]
fn universe_changes_are_merged() {
    let mut merged = SecurityChanges {
        added: vec![],
        removed: vec![],
    };
    assert!(!merged.has_changes());
    assert!(!apply_universe_changes(
        &mut merged,
        SecurityChanges {
            added: vec![],
            removed: vec![],
        }
    ));
    assert!(apply_universe_changes(
        &mut merged,
        SecurityChanges {
            added: vec![spy()],
            removed: vec![symbol(2, SecurityType::Equity, "QQQ")],
        }
    ));
    assert_eq!(merged.added.len(), 1);
    assert_eq!(merged.removed.len(), 1);
    let removed = |invested: bool, option_underlying: bool| RemovedSecurity {
        symbol: spy(),
        invested,
        option_underlying,
    };
    assert_eq!(
        register_universe_changes(&vec![
            removed(true, false),
            removed(false, false),
            removed(false, true)
        ]),
        vec![1]
    );
}

#[test]
fn leverage_comes_from_the_last_row_of_a_security() {
    let row = |name: Option<&str>, has_leverage: bool| LeverageRow {
        symbol: name.map(|name| name.to_string()),
        has_leverage,
    };
    let mut btc = symbol(3, SecurityType::CryptoFuture, " btc ");
    btc.market = "hyperliquid".to_string();
    let mut other = symbol(4, SecurityType::CryptoFuture, "BTC");
    other.market = "binance".to_string();
    let rows = vec![
        row(Some("BTC"), true),
        row(Some("Btc "), true),
        row(Some("BTC"), false),
        row(None, true),
        row(Some("ETH"), true),
    ];
    assert_eq!(
        register_custom_universe_leverage_metadata(
            &vec![spy(), btc.duplicate(), other],
            "hyperliquid",
            &rows
        ),
        vec![(1, 1)]
    );
    let mut merged = SecurityChanges {
        added: vec![spy()],
        removed: Vec::new(),
    };
    let changes = SecurityChanges {
        added: vec![btc],
        removed: vec![spy()],
    };
    assert_eq!(
        apply_custom_universe_changes(&mut merged, changes, "hyperliquid", &rows),
        vec![(0, 1)]
    );
    assert_eq!(merged.added.iter().map(|symbol| symbol.sid).collect::<Vec<_>>(), vec![1, 3]);
    assert_eq!(merged.removed.iter().map(|symbol| symbol.sid).collect::<Vec<_>>(), vec![1]);
}

#[test]
fn prices_of_a_slice_are_applied() {
    let mut slice = Slice::new(NOW);
    slice.bars.push(bar(spy(), NOW, 470));
    let side = |close: i64| Bar {
        open: dec(1),
        high: dec(1),
        low: dec(1),
        close: dec(close),
    };
    slice.quote_bars.push(QuoteBar {
        symbol: symbol(2, SecurityType::Equity, "QQQ"),
        time: NOW,
        end_time: NOW,
        bid: Some(side(10)),
        ask: Some(side(11)),
        last_bid_size: Decimal::zero(),
        last_ask_size: Decimal::zero(),
        period: 1,
    });
    slice.quote_bars.push(QuoteBar {
        symbol: symbol(3, SecurityType::Equity, "IWM"),
        time: NOW,
        end_time: NOW,
        bid: None,
        ask: None,
        last_bid_size: Decimal::zero(),
        last_ask_size: Decimal::zero(),
        period: 1,
    });
    let updates = apply_slice_security_prices(&slice);
    assert_eq!(updates.len(), 4);
    assert_eq!(
        updates[0],
        PriceUpdate::Trade {
            sid: 1,
            price: dec(470)
        }
    );
    assert_eq!(
        updates[1],
        PriceUpdate::Quote {
            sid: 2,
            bid: dec(10),
            ask: dec(11)
        }
    );
    match updates[2] {
        PriceUpdate::Middle { sid, price } => {
            assert_eq!(sid, 2);
            assert!(price.equals(Decimal::new(105, 1).unwrap()));
        }
        _ => panic!("the middle price"),
    }
    assert!(matches!(updates[3], PriceUpdate::Quote { sid: 3, .. }));
    assert_eq!(mid_price(dec(10), dec(0)), dec(10));
    assert_eq!(mid_price(dec(0), dec(11)), dec(11));
    assert!(mid_price(dec(0), dec(-1)).is_zero());
}

fn request(order_type: ExecutionOrderType) -> OrderRequest {
    OrderRequest {
        symbol: spy(),
        quantity: dec(10),
        order_type,
        limit_price: None,
        order_id: None,
        cancel_open_orders: false,
        post_only: true,
        tag: "entry".to_string(),
    }
}

#[test]
fn execution_requests_become_order_actions() {
    let open = vec![
        Order::market(7, spy(), dec(1), ""),
        Order::market(8, symbol(2, SecurityType::Equity, "QQQ"), dec(1), ""),
    ];
    let mut replace = request(ExecutionOrderType::Market);
    replace.cancel_open_orders = true;
    let actions = submit_execution_order_request(replace, &open);
    assert_eq!(actions.len(), 2);
    match &actions[0] {
        OrderAction::Cancel { order_id, tag } => {
            assert_eq!(*order_id, 7);
            assert_eq!(tag, "entry replace open order");
        }
        _ => panic!("the open order is cancelled first"),
    }
    assert!(matches!(&actions[1], OrderAction::Market { sid: 1, .. }));

    assert!(submit_execution_order_request(request(ExecutionOrderType::Limit), &open).is_empty());
    let mut limit = request(ExecutionOrderType::Limit);
    limit.limit_price = Some(dec(400));
    let actions = submit_execution_order_request(limit, &open);
    assert!(matches!(&actions[0], OrderAction::Limit { post_only: true, .. }));

    assert!(submit_execution_order_request(request(ExecutionOrderType::Update), &open).is_empty());
    let mut update = request(ExecutionOrderType::Update);
    update.order_id = Some(7);
    let actions = submit_execution_order_request(update, &open);
    assert!(matches!(&actions[0], OrderAction::Update { order_id: 7, .. }));

    let on_open = submit_execution_order_request(request(ExecutionOrderType::MarketOnOpen), &open);
    assert!(matches!(&on_open[0], OrderAction::MarketOnOpen { sid: 1, .. }));
    let on_close =
        submit_execution_order_request(request(ExecutionOrderType::MarketOnClose), &open);
    assert!(matches!(&on_close[0], OrderAction::MarketOnClose { sid: 1, .. }));
    assert!(submit_execution_order_request(request(ExecutionOrderType::Cancel), &open).is_empty());
}

#[test]
fn orders_know_when_they_are_done() {
    assert!(OrderStatus::Filled.is_fill() && OrderStatus::PartiallyFilled.is_fill());
    assert!(!OrderStatus::Submitted.is_fill());
    assert!(OrderStatus::Filled.is_closed() && OrderStatus::Invalid.is_closed());
    assert!(!OrderStatus::PartiallyFilled.is_closed());
}

#[test]
fn every_day_of_a_run_is_ended_once() {
    let day = |n: i64| DateTime { ns: n * NANOS_PER_DAY };
    let mut engine = BacktestEngine::new(day(10));
    assert!(!engine.ends_last_day());
    assert_eq!(
        engine.on_slice(day(1), true),
        EngineAction::Process {
            end_previous_day: false
        }
    );
    assert_eq!(engine.on_slice(day(1), false), EngineAction::Skip);
    assert_eq!(
        engine.on_slice(DateTime { ns: day(1).ns + 5 }, true),
        EngineAction::Process {
            end_previous_day: false
        }
    );
    assert_eq!(
        engine.on_slice(day(3), true),
        EngineAction::Process {
            end_previous_day: true
        }
    );
    assert_eq!(engine.on_slice(day(11), true), EngineAction::Stop);
    assert!(engine.ends_last_day());
    assert_eq!(engine.trading_days, 2);
}

#[test]
fn research_sessions_cover_a_year() {
    let today = Date::from_ymd(2024, 6, 3).unwrap();
    let mut engine = ResearchEngine::new(today);
    assert_eq!(engine.end_date(), today);
    assert_eq!(engine.start_date(), Date::from_ymd(2023, 6, 4).unwrap());
    engine.set_start_date(2024, 2, 30);
    assert_eq!(engine.start_date(), Date::from_ymd(2023, 6, 4).unwrap());
    engine.set_start_date(2024, 2, 29);
    engine.set_end_date(2024, 3, 1);
    assert_eq!(engine.start_date(), Date::from_ymd(2024, 2, 29).unwrap());
    assert_eq!(engine.end_date(), Date::from_ymd(2024, 3, 1).unwrap());
}

#[test]
fn research_finds_securities_in_any_case() {
    let today = Date::from_ymd(2024, 6, 3).unwrap();
    let mut engine = ResearchEngine::new(today);
    engine.add_equity("spy", spy());
    assert_eq!(engine.add_option("spy", symbol(2, SecurityType::Equity, "?SPY")), "?SPY");
    engine.add_future("es", symbol(3, SecurityType::Equity, "ES"));
    assert_eq!(engine.symbol_for("Spy").unwrap().sid, 1);
    assert_eq!(engine.symbol_for("?spy").unwrap().sid, 2);
    assert_eq!(engine.symbol_for("qqq").err(), Some("QQQ".to_string()));
    assert_eq!(engine.security_keys(), vec!["SPY", "?SPY", "ES"]);
}

#[test]
fn only_the_catalog_has_history() {
    let today = Date::from_ymd(2024, 6, 3).unwrap();
    let mut engine = ResearchEngine::new(today);
    assert!(engine.reads_catalog());
    assert_eq!(
        engine.history_range(today, today),
        Some((DateTime::at(today, 0), DateTime::at(today, 86_399)))
    );
    engine.set_thetadata_provider("token".to_string());
    assert!(engine.history_range(today, today).is_none());
    engine.set_polygon_provider("key".to_string());
    assert!(!engine.reads_catalog());
    engine.set_data_folder();
    assert!(engine.reads_catalog());
    assert!(matches!(
        ResearchDataProviderConfig::default(),
        ResearchDataProviderConfig::Catalog
    ));
    let bars = || vec![bar(spy(), NOW, 1), bar(spy(), NOW, 2), bar(spy(), NOW, 3)];
    assert_eq!(ResearchEngine::history_count(bars(), 2)[0].close, dec(2));
    assert_eq!(ResearchEngine::last_price(bars()), Some(dec(3)));
    assert_eq!(ResearchEngine::last_price(vec![]), None);
}

#[test]
fn indicators_are_named_in_any_case() {
    assert_eq!(run_indicator("sma", 5), IndicatorPlan::Sma { period: 5 });
    assert_eq!(run_indicator("Ema", 5), IndicatorPlan::Ema { period: 5 });
    assert_eq!(run_indicator("rsi", 5), IndicatorPlan::Rsi { period: 5 });
    assert_eq!(run_indicator("ATR", 5), IndicatorPlan::Atr { period: 5 });
    assert_eq!(
        run_indicator("macd", 12),
        IndicatorPlan::Macd {
            fast: 12,
            slow: 26,
            signal: 6
        }
    );
    assert_eq!(
        indicator_for_upper_name("MACD", 1),
        IndicatorPlan::Macd {
            fast: 1,
            slow: 4,
            signal: 1
        }
    );
    assert_eq!(run_indicator("bollinger", 20), IndicatorPlan::Bollinger { period: 20 });
    assert_eq!(run_indicator("vwap", 5), IndicatorPlan::Unknown);
    let bars = vec![bar(spy(), NOW, 1)];
    assert_eq!(ResearchEngine::indicator("sma", 5, &vec![]), None);
    assert_eq!(
        ResearchEngine::indicator("sma", 5, &bars),
        Some(IndicatorPlan::Sma { period: 5 })
    );
    assert_eq!(ResearchEngine::indicator("macd", usize::MAX, &bars), None);
}

#[test]
fn the_catalog_needs_an_address_and_a_warehouse() {
    assert_eq!(env_value(Some("  ".to_string())), None);
    assert_eq!(env_value(Some(" a ".to_string())), Some("a".to_string()));
    assert_eq!(env_value(None), None);
    let settings = |catalog: Option<&str>, warehouse: Option<&str>, region: Option<&str>| {
        CatalogSettings {
            catalog: catalog.map(|text| text.to_string()),
            warehouse: warehouse.map(|text| text.to_string()),
            sigv4_region: region.map(|text| text.to_string()),
            sigv4_name: None,
            namespace: None,
        }
    };
    match catalog_config(settings(None, Some("w"), None), "market") {
        Err(message) => assert_eq!(
            message,
            "RLEAN_DATA_CATALOG must be set to the REST catalog base URI"
        ),
        Ok(_) => panic!("an address is needed"),
    }
    match catalog_config(settings(Some("u"), None, None), "market") {
        Err(message) => assert_eq!(
            message,
            "RLEAN_DATA_WAREHOUSE must be set to the warehouse identifier"
        ),
        Ok(_) => panic!("a warehouse is needed"),
    }
    match catalog_config(settings(Some("u"), Some("w"), Some("us-east-1")), "market") {
        Ok(config) => {
            assert_eq!(config.namespace, "market");
            let sigv4 = config.sigv4.unwrap();
            assert_eq!(sigv4.region, "us-east-1");
            assert_eq!(sigv4.signing_name, "s3tables");
        }
        Err(_) => panic!("a complete configuration"),
    }
}
