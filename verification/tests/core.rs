use lean_engine::decimal::Decimal;
use lean_engine::engine_config::EngineConfig;
use lean_engine::model::Resolution;
use lean_engine::name_map::NameMap;
use lean_engine::time::{Date, DateTime, Duration};

fn date(year: i32, month: u32, day: u32) -> Date {
    Date::from_ymd(year, month, day).unwrap()
}

#[test]
fn dates_count_days_since_the_epoch() {
    assert_eq!(date(1970, 1, 1).days, 0);
    assert_eq!(date(2024, 2, 29).days, 19_782);
    assert_eq!(date(1969, 12, 31).days, -1);
    assert_eq!(Date::from_ymd(2023, 2, 29), None);
    assert_eq!(Date::from_ymd(2023, 13, 1), None);
    assert_eq!(Date { days: 19_782 }.ymd(), (2024, 2, 29));
    assert_eq!(Date { days: -1 }.ymd(), (1969, 12, 31));
}

#[test]
fn every_date_gives_its_parts_back() {
    for days in (-800_000..800_000).step_by(997) {
        let (year, month, day) = Date { days }.ymd();
        assert_eq!(Date::from_ymd(year, month, day), Some(Date { days }));
    }
}

#[test]
fn dates_follow_one_another() {
    assert_eq!(date(2023, 12, 31).succ_opt(), Some(date(2024, 1, 1)));
    assert_eq!(date(2024, 3, 1).pred_opt(), Some(date(2024, 2, 29)));
    assert_eq!(date(2024, 1, 1).max(date(2024, 1, 2)), date(2024, 1, 2));
    assert_eq!(date(2024, 1, 1).min(date(2024, 1, 2)), date(2024, 1, 1));
    assert_eq!(date(262_142, 12, 31).days, lean_engine::time::MAX_DATE_DAYS);
    assert_eq!(date(-262_143, 1, 1).days, lean_engine::time::MIN_DATE_DAYS);
    assert_eq!(Date::from_ymd(262_143, 1, 1), None);
    let last = Date { days: lean_engine::time::MAX_DATE_DAYS };
    assert_eq!(last.succ_opt(), None);
    let first = Date { days: lean_engine::time::MIN_DATE_DAYS };
    assert_eq!(first.pred_opt(), None);
}

#[test]
fn dates_and_instants_have_texts() {
    assert_eq!(date(2024, 1, 2).to_text(), "2024-01-02");
    let instant = DateTime::at(date(2024, 9, 27), 10 * 3600);
    assert_eq!(instant.to_rfc3339(), "2024-09-27T10:00:00+00:00");
    assert_eq!(date(-1, 2, 3).to_text(), "-0001-02-03");
    assert_eq!(date(-1234, 2, 3).to_text(), "-1234-02-03");
    assert_eq!(date(12_345, 10, 30).to_text(), "+12345-10-30");
    assert_eq!(date(0, 1, 1).to_text(), "0000-01-01");
    assert_eq!(
        DateTime { ns: instant.ns + 5_000_000 }.to_rfc3339(),
        "2024-09-27T10:00:00.005+00:00"
    );
    assert_eq!(
        DateTime { ns: instant.ns + 61_000_020_000 }.to_rfc3339(),
        "2024-09-27T10:01:01.000020+00:00"
    );
    assert_eq!(DateTime { ns: -1 }.to_rfc3339(), "1969-12-31T23:59:59.999999999+00:00");
}

#[test]
fn instants_fall_on_their_days() {
    let instant = DateTime::at(date(2024, 1, 2), 86_399);
    assert_eq!(instant.date_utc(), date(2024, 1, 2));
    assert_eq!(instant.nanos_of_day(), 86_399_000_000_000);
    assert_eq!(DateTime { ns: -1 }.date_utc(), date(1969, 12, 31));
    assert_eq!(DateTime { ns: i64::MAX }.date_utc(), date(2262, 4, 11));
    assert_eq!(DateTime { ns: i64::MIN }.date_utc(), date(1677, 9, 21));
}

#[test]
fn durations_saturate() {
    assert_eq!(Duration::from_millis(1500).nanos, 1_500_000_000);
    assert_eq!(Duration::from_secs(2).nanos, 2_000_000_000);
    assert_eq!(Duration::from_secs(2).saturating_double(), Duration::from_secs(4));
    let longest = Duration { nanos: lean_engine::time::MAX_DURATION_NANOS };
    assert_eq!(longest.saturating_double(), longest);
    assert_eq!(Duration::from_secs(2).min(Duration::from_secs(1)), Duration::from_secs(1));
}

#[test]
fn decimals_compute_exactly() {
    let a = Decimal::new(105, 1).unwrap();
    let b = Decimal::new(25, 2).unwrap();
    assert_eq!(a.plus(b).to_text(), "10.75");
    assert_eq!(a.minus(b).to_text(), "10.25");
    assert!(a.times(b).equals(Decimal::new(2625, 3).unwrap()));
    assert!(a.half().equals(Decimal::new(525, 2).unwrap()));
    assert!(b.less_than(a));
    assert!(!a.less_than(a));
    assert!(a.neg().less_than(b));
    assert!(a.neg().abs().equals(a));
    assert!(Decimal::zero().is_zero());
    assert!(b.is_positive() && !b.neg().is_positive());
    assert!(Decimal::new(10, 1).unwrap().equals(Decimal::from_i64(1)));
    assert_eq!(Decimal::new(-1050, 2).unwrap().to_text(), "-10.50");
    assert_eq!(Decimal::new(-5, 2).unwrap().to_text(), "-0.05");
    assert_eq!(Decimal::new(0, 2).unwrap().to_text(), "0.00");
    assert_eq!(Decimal::zero().to_text(), "0");
    assert_eq!(Decimal::new(1024, 1).unwrap().half(), Decimal::new(512, 1).unwrap());
    assert_eq!(Decimal::new(-1024, 1).unwrap().half(), Decimal::new(-512, 1).unwrap());
    assert_eq!(Decimal::new(0, 3).unwrap().half(), Decimal::zero());
    assert_eq!(
        Decimal::new(-7_500, 3).unwrap().divided_by(Decimal::new(25, 1).unwrap()),
        Decimal::new(-300, 2).unwrap()
    );
    assert_eq!(
        Decimal::from_i64(1).divided_by(Decimal::from_i64(3)).to_text(),
        "0.3333333333333333333333333333"
    );
    assert!(Decimal::new(1, 29).is_none());
    assert!(Decimal::new(i128::MAX, 0).is_none());
}

#[test]
fn names_map_to_their_latest_values() {
    let mut map: NameMap<u32> = NameMap::new();
    assert!(!map.contains_key("a"));
    map.insert("a".to_string(), 1);
    map.insert("b".to_string(), 2);
    map.insert("a".to_string(), 3);
    assert_eq!(map.get("a"), Some(&3));
    assert_eq!(map.get("b"), Some(&2));
    assert_eq!(map.get("c"), None);
    assert_eq!(map.find("b"), Some(1));
}

#[test]
fn only_bars_have_a_period() {
    assert!(Resolution::Tick.is_tick());
    assert_eq!(Resolution::Tick.to_time_span(), None);
    assert_eq!(Resolution::Second.to_time_span(), Some(1_000_000_000));
    assert_eq!(Resolution::Minute.to_time_span(), Some(60_000_000_000));
    assert_eq!(Resolution::Hour.to_time_span(), Some(3_600_000_000_000));
    assert_eq!(Resolution::Daily.to_time_span(), Some(86_400_000_000_000));
}

#[test]
fn the_default_configuration_uses_every_processor() {
    let config = EngineConfig::default();
    assert_eq!(config.threads, num_cpus::get());
    assert_eq!(config.data_root, "data");
    assert!(config.starting_cash.equals(Decimal::from_i64(100_000)));
    assert_eq!(config.benchmark_symbol, Some("SPY".to_string()));
    assert_eq!(config.max_orders, 10_000);
    assert!(!config.live_mode);
    assert_eq!(EngineConfig::with_threads(3).threads, 3);
}
