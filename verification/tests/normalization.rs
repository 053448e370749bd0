use lean_engine::decimal::Decimal;
use lean_engine::model::{
    Bar, DataNormalizationMode, QuoteBar, SecurityType, Symbol, TradeBar,
};
use lean_engine::normalization::{
    ensure_corporate_actions_cached, factor_for_entry, has_corporate_actions, normalization_scale,
    normalize_quote_bar, normalize_trade_bar, price_scale_frontier, read_factor_rows,
    read_map_first_date, BarScale, CorporateActionResolution, FactorFileEntry,
};
use lean_engine::time::{Date, DateTime, NANOS_PER_DAY};

fn date(year: i32, month: u32, day: u32) -> Date {
    Date::from_ymd(year, month, day).unwrap()
}

fn dt(date: Date, hour: i64) -> DateTime {
    DateTime::at(date, hour * 3600)
}

fn dec(n: i64) -> Decimal {
    Decimal::from_i64(n)
}

fn equity(ticker: &str) -> Symbol {
    Symbol {
        sid: 1,
        security_type: SecurityType::Equity,
        market: "usa".to_string(),
        value: ticker.to_string(),
        permtick: ticker.to_string(),
        underlying: None,
    }
}

fn daily_bar(ticker: &str, time: DateTime, price: i64) -> TradeBar {
    TradeBar {
        symbol: equity(ticker),
        time,
        end_time: DateTime { ns: time.ns + NANOS_PER_DAY },
        open: dec(price),
        high: dec(price),
        low: dec(price),
        close: dec(price),
        volume: dec(1000),
        period: NANOS_PER_DAY,
    }
}

/// A factor row: prices are multiplied by the product of both factors, volume
/// is divided by the split factor.
fn factor(date: Date, price_factor: i64, split_factor: i64) -> FactorFileEntry {
    FactorFileEntry {
        date,
        adjusted: Some(BarScale {
            price: dec(price_factor * split_factor),
            volume: None,
        }),
        split_adjusted: Some(BarScale {
            price: dec(split_factor),
            volume: None,
        }),
    }
}

#[test]
fn price_scale_frontier_uses_end_time_for_cross_midnight_daily_bar() {
    let day1 = date(2024, 1, 15);
    let day2 = date(2024, 1, 16);
    let time = dt(day1, 20);
    let end_time = dt(day2, 20);
    assert_eq!(price_scale_frontier(time, end_time), day2);
}

#[test]
fn price_scale_frontier_uses_time_for_same_day_bar() {
    let day = date(2024, 1, 15);
    let time = dt(day, 10);
    let end_time = dt(day, 11);
    assert_eq!(price_scale_frontier(time, end_time), day);
}

#[test]
fn price_scale_frontier_of_a_bar_that_ends_at_midnight() {
    let day = date(2024, 1, 15);
    assert_eq!(price_scale_frontier(dt(day, 0), dt(date(2024, 1, 16), 0)), day);
}

#[test]
fn normalize_trade_bar_applies_factor_from_frontier_date() {
    let day0 = date(2024, 1, 14);
    let day1 = date(2024, 1, 15);
    let day2 = date(2024, 1, 16);
    let mut bar = daily_bar("SPY", dt(day1, 20), 100);
    let rows = vec![factor(day0, 1, 1), factor(day1, 2, 1), factor(day2, 4, 1)];
    normalize_trade_bar(&mut bar, DataNormalizationMode::Adjusted, &rows);
    assert!(bar.close.equals(dec(200)));
}

#[test]
fn dpst_reverse_split_scales_pre_split_bar() {
    let split_date = date(2023, 6, 5);
    let pre_split = date(2023, 5, 30);
    let rows = vec![factor(split_date, 1, 1), factor(date(1900, 1, 1), 1, 10)];
    let mut bar = daily_bar("DPST", dt(pre_split, 20), 5);
    normalize_trade_bar(&mut bar, DataNormalizationMode::Adjusted, &rows);
    assert!(
        bar.close.equals(dec(50)),
        "pre-split bar must scale up by the 10x reverse split"
    );

    let mut raw_bar = daily_bar("DPST", dt(pre_split, 20), 5);
    normalize_trade_bar(&mut raw_bar, DataNormalizationMode::Adjusted, &vec![]);
    assert!(
        raw_bar.close.equals(dec(5)),
        "no factor rows leaves the price unadjusted"
    );
}

#[test]
fn raw_prices_stay_raw() {
    let day1 = date(2024, 1, 15);
    let mut bar = daily_bar("SPY", dt(day1, 20), 100);
    normalize_trade_bar(&mut bar, DataNormalizationMode::Raw, &vec![factor(day1, 2, 3)]);
    assert!(bar.close.equals(dec(100)));
}

#[test]
fn splits_scale_prices_and_volume() {
    let day1 = date(2024, 1, 15);
    let row = FactorFileEntry {
        date: day1,
        adjusted: None,
        split_adjusted: Some(BarScale {
            price: Decimal::new(5, 1).unwrap(),
            volume: Some(dec(2)),
        }),
    };
    assert!(normalization_scale(DataNormalizationMode::Adjusted, &row).is_none());
    assert!(normalization_scale(DataNormalizationMode::SplitAdjusted, &row).is_some());
    assert!(normalization_scale(DataNormalizationMode::Raw, &row).is_none());
    let mut bar = daily_bar("SPY", dt(day1, 20), 100);
    normalize_trade_bar(&mut bar, DataNormalizationMode::SplitAdjusted, &vec![row]);
    assert!(bar.open.equals(dec(50)));
    assert!(bar.high.equals(dec(50)));
    assert!(bar.low.equals(dec(50)));
    assert!(bar.close.equals(dec(50)));
    assert!(bar.volume.equals(dec(2000)));
}

#[test]
fn quotes_are_scaled_on_both_sides() {
    let day1 = date(2024, 1, 15);
    let side = Bar {
        open: dec(10),
        high: dec(12),
        low: dec(9),
        close: dec(11),
    };
    let time = dt(day1, 20);
    let mut quote = QuoteBar {
        symbol: equity("SPY"),
        time,
        end_time: DateTime { ns: time.ns + NANOS_PER_DAY },
        bid: Some(side),
        ask: None,
        last_bid_size: Decimal::zero(),
        last_ask_size: Decimal::zero(),
        period: NANOS_PER_DAY,
    };
    normalize_quote_bar(
        &mut quote,
        DataNormalizationMode::Adjusted,
        &vec![factor(day1, 3, 1)],
    );
    let bid = quote.bid.unwrap();
    assert!(bid.open.equals(dec(30)));
    assert!(bid.high.equals(dec(36)));
    assert!(bid.low.equals(dec(27)));
    assert!(bid.close.equals(dec(33)));
    assert!(quote.ask.is_none());
}

#[test]
fn the_latest_factor_before_a_date_applies() {
    let rows = vec![
        factor(date(2024, 1, 1), 1, 1),
        factor(date(2024, 3, 1), 3, 1),
        factor(date(2024, 2, 1), 2, 1),
    ];
    let row = factor_for_entry(&rows, date(2024, 2, 15)).unwrap();
    assert_eq!(row.date, date(2024, 2, 1));
    assert!(factor_for_entry(&vec![], date(2024, 2, 15)).is_none());
}

#[test]
fn only_equities_have_corporate_actions() {
    assert!(has_corporate_actions(SecurityType::Equity));
    assert!(!has_corporate_actions(SecurityType::Crypto));
    let crypto = ensure_corporate_actions_cached(SecurityType::Crypto, None);
    assert!(crypto.factors_available);
    assert!(crypto.factor_rows.is_empty());
    let failed = ensure_corporate_actions_cached(SecurityType::Equity, None);
    assert!(!failed.factors_available);
    let found = ensure_corporate_actions_cached(
        SecurityType::Equity,
        Some(CorporateActionResolution {
            factors_available: true,
            factor_rows: vec![factor(date(2024, 1, 1), 1, 1)],
            map_first_date: Some(date(1998, 1, 2)),
        }),
    );
    assert!(found.factors_available);
    assert_eq!(found.factor_rows.len(), 1);
    assert_eq!(found.map_first_date, Some(date(1998, 1, 2)));
    let rows = vec![factor(date(2024, 1, 1), 1, 1)];
    assert_eq!(read_factor_rows(SecurityType::Equity, rows).len(), 1);
    let rows = vec![factor(date(2024, 1, 1), 1, 1)];
    assert!(read_factor_rows(SecurityType::Forex, rows).is_empty());
}

#[test]
fn the_first_date_of_a_map_file_is_the_earliest() {
    let dates = vec![date(2010, 1, 4), date(1998, 1, 2), date(2050, 12, 31)];
    assert_eq!(
        read_map_first_date(SecurityType::Equity, &dates),
        Some(date(1998, 1, 2))
    );
    assert_eq!(read_map_first_date(SecurityType::Crypto, &dates), None);
    assert_eq!(read_map_first_date(SecurityType::Equity, &vec![]), None);
}
