use lean_engine::data_feed::context::DataFeedContext;
use lean_engine::data_manager::{market_partition_tables, needs_custom_index, DataManager};
use lean_engine::decimal::Decimal;
use lean_engine::model::{
    DataNormalizationMode, QuoteBar, Resolution, SecurityType, SubscriptionDataConfig,
    SubscriptionDataKind, Symbol, Tick, TickType, TradeBar,
};
use lean_engine::slice::{find_row, put_row, Slice};
use lean_engine::slice_synchronizer::{SliceSynchronizer, SyncStep};
use lean_engine::sorting::{sort_rows, take_last, SortBy};
use lean_engine::subscription_data::SubscriptionDataPoint;
use lean_engine::subscription_reader::fetch::MarketTable;
use lean_engine::subscription_reader::ordering::{insert_point, sort_points};
use lean_engine::subscription_reader::stream::{
    StreamEvent, SubscriptionStream, SubscriptionStreamMessage,
};
use lean_engine::time::{Date, DateTime, NANOS_PER_DAY};
use std::collections::VecDeque;

const MINUTE: i64 = 60_000_000_000;

fn date(year: i32, month: u32, day: u32) -> Date {
    Date::from_ymd(year, month, day).unwrap()
}

fn dt(date: Date, hour: i64, minute: i64) -> DateTime {
    DateTime::at(date, hour * 3600 + minute * 60)
}

fn dec(n: i64) -> Decimal {
    Decimal::from_i64(n)
}

fn symbol(sid: u64) -> Symbol {
    Symbol {
        sid,
        security_type: SecurityType::Equity,
        market: "usa".to_string(),
        value: "SPY".to_string(),
        permtick: "SPY".to_string(),
        underlying: None,
    }
}

fn config(id: u64, resolution: Resolution) -> SubscriptionDataConfig {
    SubscriptionDataConfig {
        unique_id: id,
        symbol: symbol(id),
        resolution,
        tick_type: TickType::Trade,
        data_kind: SubscriptionDataKind::Market,
        normalization_mode: DataNormalizationMode::Raw,
        fill_data_forward: true,
        is_internal_feed: false,
        custom: None,
        option_chain: None,
    }
}

fn bar(sid: u64, end_time: DateTime, close: i64) -> TradeBar {
    TradeBar {
        symbol: symbol(sid),
        time: DateTime { ns: end_time.ns - MINUTE },
        end_time,
        open: dec(1),
        high: dec(1),
        low: dec(1),
        close: dec(close),
        volume: dec(1),
        period: MINUTE,
    }
}

fn bar_point(sid: u64, end_time: DateTime, close: i64) -> SubscriptionDataPoint {
    SubscriptionDataPoint::TradeBar(bar(sid, end_time, close))
}

/// Feeds each stream from its own queue of messages, which closes when empty.
fn run(
    mut sync: SliceSynchronizer,
    mut queues: Vec<VecDeque<SubscriptionStreamMessage>>,
) -> Vec<Slice> {
    let mut out = Vec::new();
    for _ in 0..10_000 {
        match sync.next_step() {
            SyncStep::Emit(slice) => out.push(slice),
            SyncStep::Finished => return out,
            SyncStep::Advance(i) => feed(&mut sync, &mut queues, i),
            SyncStep::AdvanceInTurn(order) => {
                for i in order {
                    feed(&mut sync, &mut queues, i);
                    if sync.streams()[i].peek().is_some() {
                        break;
                    }
                }
            }
        }
    }
    panic!("the run ends");
}

fn feed(
    sync: &mut SliceSynchronizer,
    queues: &mut [VecDeque<SubscriptionStreamMessage>],
    i: usize,
) {
    let event = match queues[i].pop_front() {
        Some(message) => StreamEvent::Message(message),
        None => StreamEvent::Closed,
    };
    sync.streams[i].handle_event(event);
}

fn points(points: Vec<SubscriptionDataPoint>) -> VecDeque<SubscriptionStreamMessage> {
    points
        .into_iter()
        .map(SubscriptionStreamMessage::Point)
        .collect()
}

fn stream(id: u64, day: Date) -> SubscriptionStream {
    SubscriptionStream::new(config(id, Resolution::Minute), dt(day, 0, 0), dt(day, 23, 59), 16)
}

#[test]
fn synchronizer_emits_all_intraday_bars() {
    let day = date(2024, 1, 16);
    let times: Vec<DateTime> = (0..5).map(|minute| dt(day, 15, minute)).collect();
    let sync = SliceSynchronizer::new(
        vec![stream(1, day)],
        dt(day, 23, 59),
    );
    let slices = run(
        sync,
        vec![points(times.iter().map(|time| bar_point(1, *time, 10)).collect())],
    );
    assert_eq!(slices.len(), 5);
    for (slice, time) in slices.iter().zip(times) {
        assert_eq!(slice.time, time);
        assert!(slice.get_bar(1).is_some());
    }
}

#[test]
fn slices_join_the_streams_by_instant() {
    let day = date(2024, 1, 16);
    let sync = SliceSynchronizer::new(
        vec![
            stream(1, day),
            stream(2, day),
        ],
        dt(day, 15, 3),
    );
    let slices = run(
        sync,
        vec![
            points(vec![
                bar_point(1, dt(day, 15, 1), 1),
                bar_point(1, dt(day, 15, 3), 3),
                bar_point(1, dt(day, 15, 4), 4),
            ]),
            points(vec![
                bar_point(2, dt(day, 15, 2), 2),
                bar_point(2, dt(day, 15, 3), 3),
            ]),
        ],
    );
    let seen: Vec<(i64, usize)> = slices
        .iter()
        .map(|slice| ((slice.time.ns - dt(day, 15, 0).ns) / MINUTE, slice.bars.len()))
        .collect();
    // Nothing beyond the end is emitted.
    assert_eq!(seen, vec![(1, 1), (2, 1), (3, 2)]);
}

#[test]
fn a_watermark_lets_the_others_go_on() {
    let day = date(2024, 1, 16);
    let mut sync = SliceSynchronizer::new(
        vec![
            stream(1, day),
            stream(2, day),
        ],
        dt(day, 23, 59),
    );
    sync.streams[0].handle_message(SubscriptionStreamMessage::Point(bar_point(
        1,
        dt(day, 15, 1),
        1,
    )));
    assert!(matches!(sync.next_step(), SyncStep::Advance(1)));
    sync.streams[1].handle_message(SubscriptionStreamMessage::Watermark(dt(day, 23, 0)));
    assert!(matches!(sync.next_step(), SyncStep::Emit(_)));
}

#[test]
fn slices_go_forward_whatever_arrives_between_them() {
    let day = date(2024, 1, 16);
    let end = dt(day, 15, 5);
    let mut sync = SliceSynchronizer::new(vec![stream(1, day), stream(2, day)], end);
    let arrivals = vec![
        (0, SubscriptionStreamMessage::Point(bar_point(1, dt(day, 15, 1), 1))),
        (1, SubscriptionStreamMessage::Watermark(dt(day, 15, 2))),
        (0, SubscriptionStreamMessage::Point(bar_point(1, dt(day, 15, 1), 2))),
        (1, SubscriptionStreamMessage::Point(bar_point(2, dt(day, 15, 3), 3))),
        (0, SubscriptionStreamMessage::Point(bar_point(1, dt(day, 15, 4), 4))),
        (1, SubscriptionStreamMessage::Point(bar_point(2, dt(day, 15, 6), 5))),
    ];
    let mut times: Vec<DateTime> = Vec::new();
    for (index, message) in arrivals {
        sync.streams[index].handle_message(message);
        while let SyncStep::Emit(slice) = sync.next_step() {
            assert!(slice.bars.iter().all(|bar| bar.end_time == slice.time));
            times.push(slice.time);
        }
    }
    assert_eq!(
        times,
        vec![
            dt(day, 15, 1),
            dt(day, 15, 1),
            dt(day, 15, 3),
            dt(day, 15, 4),
        ]
    );
    sync.streams[0].handle_event(StreamEvent::Closed);
    assert!(matches!(sync.next_step(), SyncStep::Finished));
}

#[test]
fn a_removed_stream_emits_nothing_more() {
    let day = date(2024, 1, 16);
    let mut sync = SliceSynchronizer::new(vec![], dt(day, 23, 59));
    sync.add_stream(stream(1, day));
    sync.add_stream(stream(2, day));
    sync.remove_stream(1);
    assert_eq!(sync.streams().len(), 1);
    assert_eq!(sync.streams()[0].config.unique_id, 2);
    let slices = run(sync, vec![points(vec![bar_point(2, dt(day, 15, 1), 1)])]);
    assert_eq!(slices.len(), 1);
}

#[test]
fn a_row_replaces_the_earlier_one_of_its_security() {
    let day = date(2024, 1, 16);
    let mut rows = vec![bar(1, dt(day, 15, 0), 1), bar(2, dt(day, 15, 0), 2)];
    put_row(&mut rows, bar(1, dt(day, 15, 0), 9));
    assert_eq!(rows.len(), 2);
    assert_eq!(find_row(&rows, 1).unwrap().close, dec(9));
    assert_eq!(find_row(&rows, 2).unwrap().close, dec(2));
    assert!(find_row(&rows, 3).is_none());
}

#[test]
fn points_go_to_their_part_of_a_slice() {
    let day = date(2024, 1, 16);
    let mut slice = Slice::new(dt(day, 15, 0));
    bar_point(1, dt(day, 15, 0), 1).add_to_slice(&mut slice);
    SubscriptionDataPoint::QuoteBar(QuoteBar {
        symbol: symbol(1),
        time: dt(day, 14, 59),
        end_time: dt(day, 15, 0),
        bid: None,
        ask: None,
        last_bid_size: Decimal::zero(),
        last_ask_size: Decimal::zero(),
        period: MINUTE,
    })
    .add_to_slice(&mut slice);
    SubscriptionDataPoint::Tick(Tick {
        symbol: symbol(1),
        time: dt(day, 15, 0),
        tick_type: TickType::Trade,
        value: dec(1),
        quantity: dec(1),
        bid_price: dec(0),
        ask_price: dec(0),
        bid_size: dec(0),
        ask_size: dec(0),
        exchange: None,
        sale_condition: None,
        suspicious: false,
    })
    .add_to_slice(&mut slice);
    assert_eq!(slice.bars.len(), 1);
    assert_eq!(slice.quote_bars.len(), 1);
    assert_eq!(slice.ticks.len(), 1);
    assert!(slice.custom.is_empty() && slice.option_chains.is_empty());
}

#[test]
fn points_are_sorted_and_keep_their_order_within_an_instant() {
    let day = date(2024, 1, 16);
    let sorted = sort_points(vec![
        bar_point(1, dt(day, 15, 2), 1),
        bar_point(2, dt(day, 15, 1), 2),
        bar_point(3, dt(day, 15, 1), 3),
    ]);
    let close = |point: &SubscriptionDataPoint| match point {
        SubscriptionDataPoint::TradeBar(bar) => bar.close.to_text(),
        _ => panic!("a bar"),
    };
    let closes: Vec<String> = sorted.iter().map(close).collect();
    assert_eq!(closes, vec!["2", "3", "1"]);
    let mut points = sorted;
    insert_point(&mut points, bar_point(4, dt(day, 15, 1), 4));
    let closes: Vec<String> = points.iter().map(close).collect();
    assert_eq!(closes, vec!["2", "3", "4", "1"]);
}

#[test]
fn rows_are_sorted_by_end_and_security() {
    let day = date(2024, 1, 16);
    let rows = || {
        vec![
            bar(2, dt(day, 15, 1), 1),
            bar(1, dt(day, 15, 1), 2),
            bar(3, dt(day, 15, 0), 3),
        ]
    };
    let sids = |rows: &[TradeBar]| -> Vec<u64> { rows.iter().map(|row| row.symbol.sid).collect() };
    assert_eq!(sids(&sort_rows(rows(), SortBy::End)), vec![3, 2, 1]);
    assert_eq!(sids(&sort_rows(rows(), SortBy::EndAndSecurity)), vec![3, 1, 2]);
    assert_eq!(take_last(vec![1, 2, 3], 2), vec![2, 3]);
    assert_eq!(take_last(vec![1, 2, 3], 5), vec![1, 2, 3]);
}

#[test]
fn a_manager_starts_each_subscription_once() {
    let day = date(2024, 1, 16);
    let mut manager = DataManager::from_context(DataFeedContext::new());
    manager.initialize_feed(
        vec![config(1, Resolution::Minute)],
        dt(day, 0, 0),
        dt(day, 23, 59),
    );
    assert_eq!(manager.context().consumer_frontier_date(), Some(day));
    assert!(!manager.add_subscription(config(1, Resolution::Minute), dt(day, 12, 0)));
    assert!(manager.add_subscription(config(2, Resolution::Minute), dt(day, 12, 0)));
    assert_eq!(
        manager.add_subscriptions(
            vec![
                config(2, Resolution::Minute),
                config(3, Resolution::Minute),
                config(4, Resolution::Minute),
            ],
            dt(day, 12, 0)
        ),
        2
    );
    assert_eq!(manager.active_subscriptions, vec![1, 2, 3, 4]);
    assert_eq!(manager.context().active_subscription_count, 4);
    assert!(manager.remove_subscription(2));
    assert!(!manager.remove_subscription(2));
    assert_eq!(manager.active_subscriptions, vec![1, 3, 4]);
    let sync = manager.synchronizer.as_ref().unwrap();
    let ids: Vec<u64> = sync
        .streams()
        .iter()
        .map(|stream| stream.config.unique_id)
        .collect();
    assert_eq!(ids, vec![1, 3, 4]);
    assert_eq!(sync.end, dt(day, 23, 59));
}

#[test]
fn an_added_stream_runs_from_its_start_to_the_end_of_the_run() {
    let day = date(2024, 1, 16);
    let noon = dt(day, 12, 0);
    let mut manager = DataManager::from_context(DataFeedContext::new());
    assert_eq!(manager.stream_window(noon), (noon, noon));
    assert!(manager.add_subscription(config(9, Resolution::Minute), noon));
    let sync = manager.synchronizer.as_ref().unwrap();
    assert_eq!(sync.end, noon);
    assert_eq!((sync.streams[0].start, sync.streams[0].end), (noon, noon));

    manager.initialize_feed(
        vec![config(1, Resolution::Minute)],
        dt(day, 0, 0),
        dt(day, 23, 59),
    );
    assert_eq!(manager.stream_window(noon), (noon, dt(day, 23, 59)));
    assert!(manager.add_subscription(config(2, Resolution::Minute), noon));
    assert_eq!(
        manager.add_subscriptions(vec![config(3, Resolution::Minute)], noon),
        1
    );
    let sync = manager.synchronizer.as_ref().unwrap();
    assert_eq!(sync.end, dt(day, 23, 59));
    assert_eq!(sync.streams[0].start, dt(day, 0, 0));
    for stream in &sync.streams[1..] {
        assert_eq!((stream.start, stream.end), (noon, dt(day, 23, 59)));
    }
}

#[test]
fn the_channels_of_streams_shrink_with_their_number() {
    let day = date(2024, 1, 16);
    let mut manager = DataManager::from_context(DataFeedContext::new());
    let many = |first: u64, last: u64| {
        (first..=last)
            .map(|id| config(id, Resolution::Minute))
            .collect::<Vec<_>>()
    };
    manager.initialize_feed(many(1, 8), dt(day, 0, 0), dt(day, 23, 59));
    let capacity = |manager: &DataManager| {
        manager.synchronizer.as_ref().unwrap().streams.last().unwrap().capacity
    };
    assert_eq!(capacity(&manager), 4096);
    assert!(manager.add_subscription(config(9, Resolution::Minute), dt(day, 12, 0)));
    assert_eq!(capacity(&manager), 1024);
    assert_eq!(manager.add_subscriptions(many(10, 40), dt(day, 12, 0)), 31);
    assert_eq!(capacity(&manager), 256);
    manager.initialize_feed(many(1, 600), dt(day, 0, 0), dt(day, 23, 59));
    assert_eq!(capacity(&manager), 64);
}

#[test]
fn a_manager_writes_passed_rows_once_per_day() {
    let day = date(2024, 1, 16);
    let next = date(2024, 1, 17);
    let mut manager = DataManager::from_context(DataFeedContext::new());
    manager.context.buffer_trade_bar_cache_write(
        vec![bar(1, dt(day, 15, 0), 1), bar(1, dt(next, 15, 0), 2)],
        SecurityType::Equity,
        "usa",
        Resolution::Minute,
        TickType::Trade,
    );
    let options = manager.context.options;
    let first = manager.after_slice(dt(day, 15, 0));
    assert_eq!(manager.context.options, options);
    assert_eq!(manager.context.active_subscription_count, 0);
    assert!(first.wake);
    assert_eq!(first.flush.unwrap().trade_bars[0].1.len(), 1);
    let again = manager.after_slice(dt(day, 16, 0));
    assert!(!again.wake);
    assert!(again.flush.is_none());
    let second = manager.after_slice(dt(next, 15, 0));
    assert!(second.wake);
    assert_eq!(second.flush.unwrap().trade_bars[0].1.len(), 1);
}

#[test]
fn only_intraday_data_needs_a_partition_index() {
    let mut quotes = config(3, Resolution::Hour);
    quotes.tick_type = TickType::Quote;
    let configs = vec![
        config(1, Resolution::Daily),
        config(2, Resolution::Minute),
        quotes,
        config(4, Resolution::Second),
    ];
    assert_eq!(
        market_partition_tables(&configs),
        vec![MarketTable::TradeBars, MarketTable::QuoteBars]
    );
    assert!(market_partition_tables(&vec![config(1, Resolution::Daily)]).is_empty());
    assert!(!needs_custom_index(&configs));
}

#[test]
fn frontiers_are_the_ends_of_rows() {
    let day = date(2024, 1, 16);
    let point = bar_point(1, dt(day, 15, 0), 1);
    assert_eq!(point.frontier_time(), dt(day, 15, 0));
    assert_eq!(point.duplicate().frontier_time(), dt(day, 15, 0));
    let undated = SubscriptionDataPoint::CustomData {
        symbol: symbol(1),
        ticker: "GDP".to_string(),
        point: lean_engine::model::CustomDataPoint {
            time: day,
            end_time: None,
            value: dec(1),
            fields: lean_engine::name_map::NameMap::new(),
        },
    };
    assert_eq!(undated.frontier_time().date_utc().days, day.days);
    assert!(undated.frontier_time().ns >= day.days as i64 * NANOS_PER_DAY);
}
