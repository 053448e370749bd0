use lean_engine::algorithm_services::{
    submit_execution_order_request, ExecutionOrderType, OrderAction, OrderRequest,
};
use lean_engine::decimal::Decimal;
use lean_engine::live::brokerage::sync_brokerage_state;
use lean_engine::live::transaction_handler::{
    status_message, BrokerageEvent, BrokerageHolding, DispatchAction, LiveBrokerageRouter,
    RouterEffect, StartupAccountSync,
};
use lean_engine::live::worker::{
    handle_submit, poll_account_orders, resolve_engine_order_id, BrokerageRequest,
    BrokerageWorker, SubmitOutcome, WorkerAction, WorkerEvent,
};
use lean_engine::model::{
    CustomDataPoint, DataNormalizationMode, FieldValue, Resolution, SecurityType,
    SubscriptionDataConfig, SubscriptionDataKind, Symbol, TickType,
};
use lean_engine::name_map::NameMap;
use lean_engine::orders::{settle_fill_event_bridge, Order, OrderEvent, OrderStatus, OrderType};
use lean_engine::runner::live::{
    first_shutdown_step, first_slice_step, is_restorable_security_type,
    liquidate_unmanaged_holdings, next_shutdown_step, next_startup_step, open_books,
    process_live_slice_step, rearm_rebalance_for_invalid_insight_orders,
    renotify_restored_securities_with_prices, restore_securities_for_active_insights, should_stop,
    uses_real_routing, InsightSecurity, LiveAction, LiveLoop, SavedAccount, ShutdownStep,
    SliceContext, SliceStep,
    StartupOptions, StartupStep, MAX_INSIGHT_RETRIES,
};
use lean_engine::runner::live_feed::{
    accept_polled_points, custom_point_key, custom_source_for_config, next_nap, next_receive_step,
    resolve_live_corporate_actions, LiveSubscriptionSet, PolledPoint, ReceiveMiss, ReceiveStep,
};
use lean_engine::slice::Slice;
use lean_engine::time::{Date, DateTime, Duration};
use std::collections::HashMap;

const SECOND: u128 = 1_000_000_000;

fn dec(n: i64) -> Decimal {
    Decimal::from_i64(n)
}

fn security(sid: u64, security_type: SecurityType, ticker: &str) -> Symbol {
    Symbol {
        sid,
        security_type,
        market: "usa".to_string(),
        value: ticker.to_string(),
        permtick: ticker.to_string(),
        underlying: None,
    }
}

fn equity(sid: u64, ticker: &str) -> Symbol {
    security(sid, SecurityType::Equity, ticker)
}

fn spy() -> Symbol {
    equity(1, "SPY")
}

fn copy(order: &Order) -> Order {
    Order {
        id: order.id,
        symbol: order.symbol.duplicate(),
        order_type: order.order_type,
        status: order.status,
        quantity: order.quantity,
        filled_quantity: order.filled_quantity,
        average_fill_price: order.average_fill_price,
        limit_price: order.limit_price,
        brokerage_id: order.brokerage_id.clone(),
        tag: order.tag.clone(),
    }
}

fn config(id: u64, symbol: Symbol, kind: SubscriptionDataKind) -> SubscriptionDataConfig {
    SubscriptionDataConfig {
        unique_id: id,
        symbol,
        resolution: Resolution::Minute,
        tick_type: TickType::Trade,
        data_kind: kind,
        normalization_mode: DataNormalizationMode::Raw,
        fill_data_forward: true,
        is_internal_feed: false,
        custom: None,
        option_chain: None,
    }
}

/// A brokerage that hands out ids from 1001 on and shows what was submitted.
struct MockBrokerage {
    submit_should_fail: bool,
    next_brokerage_id: i64,
    account_orders: Vec<Order>,
}

impl MockBrokerage {
    fn new() -> Self {
        Self {
            submit_should_fail: false,
            next_brokerage_id: 1000,
            account_orders: Vec::new(),
        }
    }

    fn place(&mut self, order: &Order) -> SubmitOutcome {
        if self.submit_should_fail {
            return SubmitOutcome::Declined;
        }
        self.next_brokerage_id += 1;
        let id = self.next_brokerage_id.to_string();
        let mut reflected = copy(order);
        reflected.status = OrderStatus::Submitted;
        reflected.brokerage_id = vec![id.clone()];
        self.account_orders.push(reflected);
        SubmitOutcome::Accepted(vec![id])
    }
}

#[test]
fn startup_sync_seeds_cash_holdings_and_open_orders() {
    let sync = StartupAccountSync {
        cash: dec(50000),
        cash_balances: vec![("USD".to_string(), dec(50000))],
        holdings: vec![BrokerageHolding {
            symbol: spy(),
            quantity: dec(10),
            average_price: dec(400),
            market_price: dec(410),
        }],
        open_orders: vec![Order::market(7, spy(), dec(5), "resume")],
    };
    let seed = sync.portfolio_seed();
    assert_eq!(sync.cash, dec(50000));
    assert_eq!(seed.cash, Some(dec(50000)));
    assert_eq!(seed.holdings.len(), 1);
    assert_eq!(seed.holdings[0].sid, 1);
    assert_eq!(seed.holdings[0].quantity, dec(10));
    assert_eq!(seed.holdings[0].average_price, dec(400));
    assert_eq!(seed.holdings[0].market_price, Some(dec(410)));
    assert_eq!(sync.open_orders[0].id, 7);
}

#[test]
fn startup_sync_passes_over_empty_holdings() {
    let sync = StartupAccountSync {
        cash: dec(0),
        cash_balances: vec![],
        holdings: vec![
            BrokerageHolding {
                symbol: spy(),
                quantity: dec(0),
                average_price: dec(1),
                market_price: dec(1),
            },
            BrokerageHolding {
                symbol: equity(2, "QQQ"),
                quantity: dec(3),
                average_price: dec(1),
                market_price: dec(0),
            },
        ],
        open_orders: vec![],
    };
    let seed = sync.portfolio_seed();
    assert_eq!(seed.cash, None);
    assert_eq!(seed.holdings.len(), 1);
    assert_eq!(seed.holdings[0].sid, 2);
    assert_eq!(seed.holdings[0].market_price, None);
}

#[test]
fn resolve_engine_order_id_maps_via_brokerage_id() {
    let mut map: NameMap<i64> = NameMap::new();
    map.insert("BID-1".to_string(), 42_i64);
    let mut order = Order::market(999, spy(), dec(1), "");
    order.brokerage_id = vec!["BID-1".to_string()];
    assert_eq!(resolve_engine_order_id(&order, &map), Some(42));

    // Unknown externally-created order is ignored.
    let unknown = Order::market(5, spy(), dec(1), "");
    assert_eq!(resolve_engine_order_id(&unknown, &map), None);
    // An order that carries the id of one of the engine's is that order.
    let known = Order::market(42, spy(), dec(1), "");
    assert_eq!(resolve_engine_order_id(&known, &map), Some(42));
}

#[test]
fn worker_emits_submitted_then_filled() {
    let mut mock = MockBrokerage::new();
    let mut worker = BrokerageWorker::new();

    let order = Order::market(1, spy(), dec(10), "entry");
    let event = match BrokerageWorker::woken(WorkerEvent::Request(BrokerageRequest::Submit(order))) {
        WorkerAction::Submit(order) => {
            let outcome = mock.place(&order);
            worker.submitted(order.id, outcome)
        }
        _ => panic!("a submission"),
    };
    assert!(
        matches!(event, BrokerageEvent::Submitted { order_id: 1, .. }),
        "expected Submitted event for order 1"
    );

    for order in mock.account_orders.iter_mut() {
        order.status = OrderStatus::Filled;
        order.filled_quantity = dec(10);
        order.average_fill_price = dec(400);
    }
    assert!(worker.poll_due(0));
    let events = worker.polled(&mock.account_orders);
    let filled = events.iter().any(|event| {
        matches!(
            event,
            BrokerageEvent::Status {
                order_id: 1,
                status: OrderStatus::Filled,
                cumulative_filled,
                ..
            } if *cumulative_filled == dec(10)
        )
    });
    assert!(filled, "expected Filled status event for order 1");
    // Nothing new is reported twice.
    assert!(worker.polled(&mock.account_orders).is_empty());
}

#[test]
fn the_worker_polls_once_per_second_and_stops_when_told() {
    let mut worker = BrokerageWorker::new();
    assert!(worker.poll_due(5));
    assert!(!worker.poll_due(5 + SECOND - 1));
    assert!(worker.poll_due(5 + SECOND));
    assert!(matches!(
        BrokerageWorker::woken(WorkerEvent::Timeout),
        WorkerAction::Nothing
    ));
    assert!(matches!(
        BrokerageWorker::woken(WorkerEvent::Disconnected),
        WorkerAction::Exit
    ));
    assert!(matches!(
        BrokerageWorker::woken(WorkerEvent::Request(BrokerageRequest::Stop)),
        WorkerAction::Exit
    ));
    let order = Order::market(1, spy(), dec(1), "");
    assert!(matches!(
        BrokerageWorker::woken(WorkerEvent::Request(BrokerageRequest::Cancel(order))),
        WorkerAction::Cancel(_)
    ));
    let order = Order::market(1, spy(), dec(1), "");
    assert!(matches!(
        BrokerageWorker::woken(WorkerEvent::Request(BrokerageRequest::Update(order))),
        WorkerAction::Update(_)
    ));
}

#[test]
fn submissions_are_reported_as_they_ended() {
    let mut known: NameMap<i64> = NameMap::new();
    match handle_submit(3, SubmitOutcome::Declined, &mut known) {
        BrokerageEvent::Invalid { order_id, message } => {
            assert_eq!(order_id, 3);
            assert_eq!(message, "Brokerage rejected order submission (no reason reported)");
        }
        _ => panic!("a declined order is invalid"),
    }
    match handle_submit(3, SubmitOutcome::Failed("no route".to_string()), &mut known) {
        BrokerageEvent::SubmitFailed { order_id, message } => {
            assert_eq!(order_id, 3);
            assert_eq!(message, "Brokerage order submission failed: no route");
        }
        _ => panic!("a failed submission"),
    }
    assert!(!known.contains_key("A"));
    handle_submit(
        3,
        SubmitOutcome::Accepted(vec!["A".to_string(), "B".to_string()]),
        &mut known,
    );
    assert_eq!(known.get("A"), Some(&3));
    assert_eq!(known.get("B"), Some(&3));
    let mut polled = HashMap::new();
    let mut order = Order::market(0, spy(), dec(1), "");
    order.brokerage_id = vec!["B".to_string()];
    order.status = OrderStatus::Submitted;
    let orders = vec![order];
    assert_eq!(poll_account_orders(&orders, &mut polled, &known).len(), 1);
    assert_eq!(poll_account_orders(&orders, &mut polled, &known).len(), 0);
}

#[test]
fn router_submits_new_order_and_records_brokerage_id() {
    let mut mock = MockBrokerage::new();
    let mut worker = BrokerageWorker::new();
    let mut router = LiveBrokerageRouter::spawn();
    let order = Order::market(1, spy(), dec(10), "entry");

    let actions = router.dispatch_pending_at(vec![(copy(&order), true)], 0);
    assert_eq!(actions.len(), 1);
    let event = match &actions[0] {
        DispatchAction::Submit(order) => {
            let outcome = mock.place(order);
            worker.submitted(order.id, outcome)
        }
        _ => panic!("a new order is submitted"),
    };
    match router.apply_event(event, Some(copy(&order)), DateTime { ns: 5 }, 0) {
        RouterEffect::OrderChanged { order, event } => {
            assert_eq!(order.status, OrderStatus::Submitted);
            assert!(!order.brokerage_id.is_empty(), "brokerage id recorded");
            assert_eq!(event.status, OrderStatus::Submitted);
            assert_eq!(event.message, "Brokerage order submitted");
        }
        _ => panic!("the order changes"),
    }
    // An order is submitted once.
    assert!(matches!(
        router.dispatch_order(order, true, 10),
        DispatchAction::Nothing
    ));
}

#[test]
fn router_poll_detected_fill_updates_portfolio_and_algorithm() {
    let mut mock = MockBrokerage::new();
    let mut worker = BrokerageWorker::new();
    let mut router = LiveBrokerageRouter::spawn();
    let order = Order::market(1, spy(), dec(10), "entry");

    let submitted = match router.dispatch_order(copy(&order), true, 0) {
        DispatchAction::Submit(order) => {
            let outcome = mock.place(&order);
            worker.submitted(order.id, outcome)
        }
        _ => panic!("a new order is submitted"),
    };
    let stored = match router.apply_event(submitted, Some(copy(&order)), DateTime { ns: 5 }, 0) {
        RouterEffect::OrderChanged { order, .. } => order,
        _ => panic!("the order changes"),
    };
    for order in mock.account_orders.iter_mut() {
        order.status = OrderStatus::Filled;
        order.filled_quantity = dec(10);
        order.average_fill_price = dec(400);
    }
    let mut events = worker.polled(&mock.account_orders);
    assert_eq!(events.len(), 1);
    let report = events.pop().unwrap();
    let mut fill = match router.apply_event(report, Some(stored), DateTime { ns: 6 }, 0) {
        RouterEffect::Fill { event } => event,
        _ => panic!("a fill"),
    };
    assert_eq!(fill.status, OrderStatus::Filled);
    assert_eq!(fill.fill_quantity, dec(10));
    let settled =
        LiveBrokerageRouter::settle_fill(&mut fill, &order, dec(1), Ok(()), true).unwrap();
    assert_eq!(settled.sid, 1);
    assert_eq!(settled.quantity, dec(10));
    assert_eq!(settled.price, dec(400));
    assert_eq!(settled.fee, dec(1));
    assert_eq!(fill.order_fee, dec(1));
}

#[test]
fn a_fill_is_settled_once_it_can_be_paid() {
    let order = Order::market(1, spy(), dec(10), "entry");
    let fill = || {
        let mut event =
            OrderEvent::new(1, spy(), DateTime { ns: 6 }, OrderStatus::Filled, String::new());
        event.fill_price = dec(400);
        event.fill_quantity = dec(10);
        event.order_fee = dec(2);
        event
    };
    let mut reported = fill();
    let booked =
        LiveBrokerageRouter::settle_fill(&mut reported, &order, dec(1), Ok(()), true).unwrap();
    assert_eq!((booked.fee, reported.order_fee), (dec(2), dec(2)));
    assert_eq!(reported.status, OrderStatus::Filled);

    let mut unbooked = fill();
    assert!(
        LiveBrokerageRouter::settle_fill(&mut unbooked, &order, dec(1), Ok(()), false).is_none()
    );
    assert_eq!(unbooked.fill_quantity, dec(10));

    let mut refused = fill();
    let short = Err("insufficient buying power".to_string());
    assert!(LiveBrokerageRouter::settle_fill(&mut refused, &order, dec(1), short, true).is_none());
    assert_eq!(refused.status, OrderStatus::Invalid);
    assert_eq!(refused.message, "insufficient buying power");
    assert_eq!(refused.utc_time, DateTime { ns: 6 });
    assert_eq!(refused.fill_quantity, Decimal::zero());
}

#[test]
fn router_submission_failure_marks_order_invalid() {
    let mut mock = MockBrokerage::new();
    mock.submit_should_fail = true;
    let mut worker = BrokerageWorker::new();
    let mut router = LiveBrokerageRouter::spawn();
    let order = Order::market(1, spy(), dec(10), "entry");
    let event = match router.dispatch_order(copy(&order), true, 0) {
        DispatchAction::Submit(order) => {
            let outcome = mock.place(&order);
            worker.submitted(order.id, outcome)
        }
        _ => panic!("a new order is submitted"),
    };
    match router.apply_event(event, Some(order), DateTime { ns: 5 }, 0) {
        RouterEffect::OrderChanged { order, event } => {
            assert_eq!(order.status, OrderStatus::Invalid);
            assert_eq!(event.status, OrderStatus::Invalid);
        }
        _ => panic!("the order changes"),
    }
}

#[test]
fn failed_submissions_are_retried_a_bounded_number_of_times() {
    let mut router = LiveBrokerageRouter::spawn_with_backoff(vec![
        Duration::from_secs(1),
        Duration::from_secs(2),
    ]);
    let order = Order::market(1, spy(), dec(10), "entry");
    let mut now: u128 = 0;
    for wait in [1, 2] {
        assert!(matches!(
            router.dispatch_order(copy(&order), true, now),
            DispatchAction::Submit(_)
        ));
        let failed = BrokerageEvent::SubmitFailed {
            order_id: 1,
            message: "no route".to_string(),
        };
        assert!(matches!(
            router.apply_event(failed, Some(copy(&order)), DateTime { ns: 5 }, now),
            RouterEffect::RetryScheduled
        ));
        assert!(matches!(
            router.dispatch_order(copy(&order), true, now + wait * SECOND - 1),
            DispatchAction::Nothing
        ));
        now += wait * SECOND;
    }
    assert!(matches!(
        router.dispatch_order(copy(&order), true, now),
        DispatchAction::Submit(_)
    ));
    let failed = BrokerageEvent::SubmitFailed {
        order_id: 1,
        message: "no route".to_string(),
    };
    match router.apply_event(failed, Some(order), DateTime { ns: 5 }, now) {
        RouterEffect::OrderChanged { order, event } => {
            assert_eq!(order.status, OrderStatus::Invalid);
            assert_eq!(
                event.message,
                "Brokerage order submission failed after 3 attempts: no route"
            );
        }
        _ => panic!("the order is invalid after the last attempt"),
    }
}

#[test]
fn events_carry_the_fields_of_their_order() {
    let mut router = LiveBrokerageRouter::spawn();
    let mut order = Order::market(1, spy(), dec(10), "entry");
    order.limit_price = Some(dec(401));
    let accepted = BrokerageEvent::Submitted {
        order_id: 1,
        brokerage_ids: vec!["1001".to_string()],
    };
    let stored = match router.apply_event(accepted, Some(copy(&order)), DateTime { ns: 5 }, 0) {
        RouterEffect::OrderChanged { order, event } => {
            let fields = event.order_fields.unwrap();
            assert_eq!(fields.order_type, OrderType::Market);
            assert_eq!(fields.quantity, dec(10));
            assert_eq!(fields.limit_price, Some(dec(401)));
            assert_eq!(fields.brokerage_id, vec!["1001".to_string()]);
            assert_eq!(fields.tag, "entry");
            order
        }
        _ => panic!("the order is submitted"),
    };
    let report = BrokerageEvent::Status {
        order_id: 1,
        symbol: spy(),
        status: OrderStatus::PartiallyFilled,
        fill_price: dec(400),
        cumulative_filled: dec(4),
        commission: None,
    };
    match router.apply_event(report, Some(copy(&stored)), DateTime { ns: 6 }, 0) {
        RouterEffect::Fill { event } => {
            assert_eq!(event.fill_quantity, dec(4));
            assert_eq!(event.order_fields.unwrap().quantity, dec(10));
        }
        _ => panic!("a fill"),
    }
    let declined = BrokerageEvent::Invalid {
        order_id: 1,
        message: "no cash".to_string(),
    };
    match router.apply_event(declined, Some(stored), DateTime { ns: 7 }, 0) {
        RouterEffect::OrderChanged { event, .. } => assert!(event.order_fields.is_none()),
        _ => panic!("the order is refused"),
    }
}

#[test]
fn fills_of_an_order_add_up_to_the_reported_total() {
    let mut router = LiveBrokerageRouter::spawn();
    let order = Order::market(1, spy(), dec(10), "entry");
    let report = |status: OrderStatus, total: Decimal| BrokerageEvent::Status {
        order_id: 1,
        symbol: spy(),
        status,
        fill_price: dec(400),
        cumulative_filled: total,
        commission: None,
    };
    let tenths = |mantissa: i128| Decimal { mantissa, scale: 1 };
    let series = [
        (OrderStatus::PartiallyFilled, tenths(25)),
        (OrderStatus::PartiallyFilled, Decimal { mantissa: 250, scale: 2 }),
        (OrderStatus::PartiallyFilled, dec(7)),
        (OrderStatus::Submitted, dec(9)),
        (OrderStatus::Filled, dec(10)),
        (OrderStatus::Filled, dec(10)),
    ];
    let mut booked = Vec::new();
    for (status, total) in series {
        let event = report(status, total);
        match router.apply_event(event, Some(copy(&order)), DateTime { ns: 5 }, 0) {
            RouterEffect::Fill { event } => booked.push(event.fill_quantity),
            RouterEffect::Publish { .. } => {}
            _ => panic!("the report is published"),
        }
    }
    assert_eq!(booked, vec![tenths(25), tenths(45), dec(3)]);
    let total = booked
        .into_iter()
        .fold(Decimal::zero(), |sum, part| sum.plus(part));
    assert!(total.minus(dec(10)).is_zero());
}

#[test]
fn orders_wait_for_their_market() {
    let mut router = LiveBrokerageRouter::spawn();
    let mut order = Order::market(1, spy(), dec(10), "entry");
    order.order_type = OrderType::MarketOnOpen;
    assert!(matches!(
        router.dispatch_order(copy(&order), false, 0),
        DispatchAction::Deferred
    ));
    match router.dispatch_order(order, true, 1) {
        DispatchAction::Submit(order) => assert_eq!(order.order_type, OrderType::Market),
        _ => panic!("the open market takes the order"),
    }
    // A retry that meets a closed market is held until it opens.
    let mut router = LiveBrokerageRouter::spawn_with_backoff(vec![Duration::from_secs(1)]);
    let order = Order::market(2, spy(), dec(10), "entry");
    router.dispatch_order(copy(&order), true, 0);
    let failed = BrokerageEvent::SubmitFailed {
        order_id: 2,
        message: "closed".to_string(),
    };
    router.apply_event(failed, Some(copy(&order)), DateTime { ns: 5 }, 0);
    match router.dispatch_order(order, false, SECOND) {
        DispatchAction::Held(order) => assert_eq!(order.order_type, OrderType::MarketOnOpen),
        _ => panic!("the order is held"),
    }
}

#[test]
fn cancellations_and_updates_are_forwarded_once() {
    let mut router = LiveBrokerageRouter::spawn();
    let mut order = Order::market(1, spy(), dec(10), "entry");
    order.status = OrderStatus::CancelPending;
    assert!(matches!(
        router.dispatch_order(copy(&order), true, 0),
        DispatchAction::Nothing
    ));
    order.brokerage_id = vec!["A".to_string()];
    assert!(matches!(
        router.dispatch_order(copy(&order), true, 0),
        DispatchAction::Cancel(_)
    ));
    assert!(matches!(
        router.dispatch_order(copy(&order), true, 0),
        DispatchAction::Nothing
    ));
    order.status = OrderStatus::UpdateSubmitted;
    assert!(matches!(
        router.dispatch_order(copy(&order), true, 0),
        DispatchAction::Update(_)
    ));
    assert!(matches!(
        router.dispatch_order(order, true, 0),
        DispatchAction::Nothing
    ));
}

fn status(id: i64, symbol: Symbol, status: OrderStatus, filled: i64) -> BrokerageEvent {
    BrokerageEvent::Status {
        order_id: id,
        symbol,
        status,
        fill_price: dec(400),
        cumulative_filled: dec(filled),
        commission: None,
    }
}

#[test]
fn a_fill_of_another_security_is_refused() {
    let mut router = LiveBrokerageRouter::spawn();
    let mut order = Order::market(1, spy(), dec(10), "entry");
    order.status = OrderStatus::Submitted;
    assert!(matches!(
        router.apply_event(
            status(1, equity(2, "QQQ"), OrderStatus::Filled, 10),
            Some(copy(&order)),
            DateTime { ns: 5 },
            0
        ),
        RouterEffect::Refused
    ));
    assert!(matches!(
        router.apply_event(status(1, spy(), OrderStatus::Filled, 10), None, DateTime { ns: 5 }, 0),
        RouterEffect::Ignored
    ));
}

#[test]
fn fills_are_applied_by_their_increments() {
    let mut router = LiveBrokerageRouter::spawn();
    let mut order = Order::market(1, spy(), dec(10), "entry");
    order.status = OrderStatus::Submitted;
    let mut quantities = Vec::new();
    for (kind, total) in [
        (OrderStatus::PartiallyFilled, 4),
        (OrderStatus::PartiallyFilled, 7),
        (OrderStatus::Filled, 10),
    ] {
        match router.apply_event(
            status(1, spy(), kind, total),
            Some(copy(&order)),
            DateTime { ns: 5 },
            0,
        ) {
            RouterEffect::Fill { event } => quantities.push(event.fill_quantity.to_text()),
            _ => panic!("a fill"),
        }
    }
    assert_eq!(quantities, vec!["4", "3", "3"]);
    // The same report again books nothing.
    match router.apply_event(
        status(1, spy(), OrderStatus::Filled, 10),
        Some(order),
        DateTime { ns: 5 },
        0,
    ) {
        RouterEffect::Publish { event } => assert!(event.fill_quantity.is_zero()),
        _ => panic!("nothing new is filled"),
    }
}

#[test]
fn statuses_have_messages() {
    let mut router = LiveBrokerageRouter::spawn();
    let mut order = Order::market(1, spy(), dec(10), "entry");
    order.status = OrderStatus::Submitted;
    match router.apply_event(
        status(1, spy(), OrderStatus::Canceled, 0),
        Some(copy(&order)),
        DateTime { ns: 5 },
        0,
    ) {
        RouterEffect::Publish { event } => {
            assert_eq!(event.message, status_message(OrderStatus::Canceled))
        }
        _ => panic!("a cancellation is published"),
    }
    assert!(matches!(
        router.apply_event(
            status(1, spy(), OrderStatus::Submitted, 0),
            Some(order),
            DateTime { ns: 5 },
            0
        ),
        RouterEffect::Ignored
    ));
}

#[test]
fn a_fill_without_buying_power_is_refused() {
    let order = Order::market(4, spy(), dec(10), "entry");
    let mut event = OrderEvent::new(
        4,
        spy(),
        DateTime { ns: 5 },
        OrderStatus::Filled,
        String::new(),
    );
    assert_eq!(
        settle_fill_event_bridge(&mut event, Some(&order), dec(2), Ok(())),
        Some(dec(2))
    );
    assert_eq!(event.order_fee, dec(2));
    let refusal = Err("insufficient buying power".to_string());
    assert_eq!(settle_fill_event_bridge(&mut event, Some(&order), dec(2), refusal), None);
    assert_eq!(event.status, OrderStatus::Invalid);
    assert_eq!(event.message, "insufficient buying power");
    // What is no fill stays as it is.
    assert_eq!(settle_fill_event_bridge(&mut event, Some(&order), dec(2), Ok(())), None);
    let mut unknown = OrderEvent::new(
        9,
        spy(),
        DateTime { ns: 5 },
        OrderStatus::Filled,
        String::new(),
    );
    assert_eq!(settle_fill_event_bridge(&mut unknown, None, dec(2), Ok(())), None);
}

#[test]
fn a_run_without_a_brokerage_starts_empty() {
    let state = sync_brokerage_state();
    assert!(state.holdings.is_empty());
    assert!(state.order_events.is_empty());
}

#[test]
fn a_new_market_subscription_is_started_once() {
    let btc = || {
        config(
            1,
            security(1, SecurityType::Crypto, "BTCUSDT"),
            SubscriptionDataKind::Market,
        )
    };
    let mut set = LiveSubscriptionSet::new(false);
    let changes = set.sync(&vec![btc(), btc()], &vec![]);
    assert_eq!(changes.started, vec![0]);
    assert!(changes.ended.is_empty());
    assert_eq!(set.ids, vec![1]);
    assert!(set.sync(&vec![btc()], &vec![]).started.is_empty());
}

#[test]
fn a_live_set_follows_what_is_wanted() {
    let mut set = LiveSubscriptionSet::new(false);
    let first = vec![
        config(1, equity(1, "SPY"), SubscriptionDataKind::Market),
        config(2, equity(2, "QQQ"), SubscriptionDataKind::Market),
    ];
    assert_eq!(set.sync(&first, &vec![]).started, vec![0, 1]);
    let second = vec![
        config(2, equity(2, "QQQ"), SubscriptionDataKind::Market),
        config(3, equity(3, "IWM"), SubscriptionDataKind::Market),
    ];
    let changes = set.sync(&second, &vec![]);
    assert_eq!(changes.ended, vec![1]);
    assert_eq!(changes.started, vec![1]);
    let mut left = set.unsubscribe_all();
    left.sort();
    assert_eq!(left, vec![2, 3]);
    assert!(set.ids.is_empty());
}

#[test]
fn custom_sources_are_found_by_type() {
    let sources = vec!["fred".to_string(), "tradealert".to_string()];
    let market = config(1, spy(), SubscriptionDataKind::Market);
    assert_eq!(custom_source_for_config(&market, &sources), None);
}

#[test]
fn live_items_are_looked_for_in_turn() {
    let first = next_receive_step(ReceiveStep::TryCustom, ReceiveMiss::Timeout, 2);
    assert!(matches!(first, ReceiveStep::TryMarket(0)));
    let second = next_receive_step(first, ReceiveMiss::Timeout, 2);
    assert!(matches!(second, ReceiveStep::TryMarket(1)));
}

fn point(day: i32, value: i64) -> CustomDataPoint {
    let mut fields: NameMap<FieldValue> = NameMap::new();
    fields.insert("symbol".to_string(), FieldValue::Text("SPY".to_string()));
    CustomDataPoint {
        time: Date { days: day },
        end_time: None,
        value: dec(value),
        fields,
    }
}

#[test]
fn polled_points_are_delivered_once() {
    let mut seen: NameMap<bool> = NameMap::new();
    let a = point(19_000, 1);
    let key = custom_point_key(&a, "{}");
    let again = point(19_000, 1);
    assert_eq!(key, custom_point_key(&again, "{}"));
    assert_ne!(key, custom_point_key(&point(19_001, 1), "{}"));
    assert_ne!(key, custom_point_key(&point(19_000, 1), "{\"a\":1}"));
    let mut timed = point(19_000, 1);
    timed.end_time = Some(DateTime { ns: 5 });
    assert_eq!(custom_point_key(&timed, "{}"), "5:{}");
    let fresh = accept_polled_points(
        &mut seen,
        vec![
            PolledPoint {
                point: a,
                key: key.clone(),
                matches_query: true,
            },
            PolledPoint {
                point: again,
                key: key.clone(),
                matches_query: true,
            },
            PolledPoint {
                point: point(19_001, 1),
                key: "other".to_string(),
                matches_query: false,
            },
        ],
    );
    assert_eq!(fresh.len(), 1);
    let later = accept_polled_points(
        &mut seen,
        vec![PolledPoint {
            point: point(19_000, 1),
            key,
            matches_query: true,
        }],
    );
    assert!(later.is_empty());
}

#[test]
fn naps_end_when_the_run_stops() {
    let delay = Duration::from_secs(10);
    assert!(next_nap(false, Duration::from_secs(0), delay).is_some());
    assert!(next_nap(true, Duration::from_secs(0), delay).is_none());
    assert!(next_nap(false, Duration::from_secs(10), delay).is_none());
}

#[test]
fn corporate_actions_are_resolved_for_market_equities() {
    let configs = vec![
        config(1, spy(), SubscriptionDataKind::Market),
        config(2, security(2, SecurityType::Crypto, "BTCUSD"), SubscriptionDataKind::Market),
    ];
    assert!(resolve_live_corporate_actions(&configs).contains(&0));
}

fn insight(symbol: Symbol, last_close: Option<Decimal>) -> InsightSecurity {
    InsightSecurity {
        symbol,
        subscribed: false,
        current_price: dec(0),
        last_close,
    }
}

#[test]
fn restored_insight_registers_security_and_subscription() {
    let ypf = equity(5, "YPF");
    let restored = restore_securities_for_active_insights(&vec![insight(ypf, None)]);
    assert!(
        restored.added.iter().any(|symbol| symbol.sid == 5),
        "restored insight security should be registered"
    );
    // Without a last-known price YPF waits for its first live one.
    assert!(
        restored.pending.iter().any(|symbol| symbol.sid == 5),
        "unseeded security should be tracked for a price-arrival re-notify"
    );
}

#[test]
fn restored_insight_produces_buy_order_submitted_to_brokerage() {
    let restored =
        restore_securities_for_active_insights(&vec![insight(equity(5, "YPF"), Some(dec(20)))]);
    assert!(
        restored.pending.is_empty(),
        "history seed succeeded, nothing should be pending"
    );
    assert_eq!(
        restored.seeded,
        vec![(5, dec(20))],
        "restore should seed the last-known close from history"
    );

    // The execution model asks for the whole target of the seeded security.
    let actions = submit_execution_order_request(
        OrderRequest {
            symbol: equity(5, "YPF"),
            quantity: dec(5000),
            order_type: ExecutionOrderType::Market,
            limit_price: None,
            order_id: None,
            cancel_open_orders: true,
            post_only: false,
            tag: String::new(),
        },
        &vec![],
    );
    assert_eq!(actions.len(), 1, "one order for the restored insight");
    let order = match &actions[0] {
        OrderAction::Market { sid: 5, quantity, tag } => {
            Order::market(1, equity(5, "YPF"), *quantity, tag)
        }
        _ => panic!("a market order"),
    };
    assert!(order.quantity.is_positive());

    // Submit through the router to the brokerage.
    let mut mock = MockBrokerage::new();
    let mut worker = BrokerageWorker::new();
    let mut router = LiveBrokerageRouter::spawn();
    for action in router.dispatch_pending_at(vec![(copy(&order), true)], 0) {
        if let DispatchAction::Submit(sent) = action {
            let outcome = mock.place(&sent);
            let event = worker.submitted(sent.id, outcome);
            match router.apply_event(event, Some(sent), DateTime { ns: 0 }, 0) {
                RouterEffect::OrderChanged { order, .. } => {
                    assert_eq!(order.status, OrderStatus::Submitted);
                    assert_eq!(order.brokerage_id, vec!["1001".to_string()]);
                }
                _ => panic!("the order is submitted"),
            }
        }
    }
    assert_eq!(
        mock.account_orders.len(),
        1,
        "exactly one order submitted to the brokerage"
    );
    assert_eq!(mock.account_orders[0].symbol.sid, 5);
    assert_eq!(mock.account_orders[0].quantity, dec(5000));
}

#[test]
fn restored_insight_without_history_seed_buys_once_live_price_arrives() {
    let restored = restore_securities_for_active_insights(&vec![insight(equity(5, "YPF"), None)]);
    let mut pending = restored.pending;
    assert!(
        pending.iter().any(|symbol| symbol.sid == 5),
        "history seed failed, so YPF must be pending"
    );
    // Price still absent: the re-notify is a no-op and YPF stays pending.
    assert!(renotify_restored_securities_with_prices(&mut pending, Some(&vec![])).is_empty());
    assert!(pending.iter().any(|symbol| symbol.sid == 5));
    // First live price arrives.
    let notified = renotify_restored_securities_with_prices(&mut pending, Some(&vec![5]));
    assert_eq!(notified.len(), 1);
    assert!(
        pending.is_empty(),
        "priced security should leave the pending set"
    );
}

#[test]
fn only_some_securities_can_be_restored() {
    assert!(is_restorable_security_type(SecurityType::Equity));
    assert!(!is_restorable_security_type(SecurityType::Future));
    let restored = restore_securities_for_active_insights(&vec![insight(
        security(6, SecurityType::Future, "ES"),
        None,
    )]);
    assert!(restored.added.is_empty());
}

fn holding(symbol: Symbol, quantity: i64) -> BrokerageHolding {
    BrokerageHolding {
        symbol,
        quantity: dec(quantity),
        average_price: dec(100),
        market_price: dec(100),
    }
}

#[test]
fn nothing_waits_for_prices_that_cannot_come() {
    let mut pending = vec![spy()];
    assert!(renotify_restored_securities_with_prices(&mut pending, None).is_empty());
    assert!(pending.is_empty());
}

#[test]
fn a_saved_account_goes_on_where_it_stopped() {
    let event = |id: i64| {
        OrderEvent::new(id, spy(), DateTime { ns: 0 }, OrderStatus::Submitted, String::new())
    };
    let saved = SavedAccount {
        order_events: vec![event(1)],
        trades: vec![7u8],
        holdings: vec![holding(spy(), 10), holding(equity(2, "QQQ"), 0), holding(equity(3, "IWM"), -4)],
    };
    let books = open_books(Some(saved), vec![event(2)]);
    assert_eq!(books.order_events.len(), 1);
    assert_eq!(books.order_events[0].order_id, 1);
    assert_eq!(books.trades, vec![7]);
    let open: Vec<u64> = books.open_positions.iter().map(|row| row.symbol.sid).collect();
    assert_eq!(open, vec![1, 3]);

    let fresh = open_books::<u8>(None, vec![event(2)]);
    assert_eq!(fresh.order_events[0].order_id, 2);
    assert!(fresh.trades.is_empty() && fresh.open_positions.is_empty());
}

#[test]
fn liquidates_only_unmanaged_holdings() {
    let holdings = vec![holding(equity(1, "AAA"), 7), holding(equity(2, "BBB"), 3)];
    let orders = liquidate_unmanaged_holdings(&holdings, &vec![2], 1);
    assert_eq!(orders.len(), 1, "only A is liquidated");
    assert_eq!(orders[0].symbol.sid, 1);
    assert_eq!(orders[0].quantity, dec(-7), "sell the full A position");
}

#[test]
fn no_liquidation_in_local_paper_mode() {
    // No brokerage: local, no routing.
    assert!(!uses_real_routing(false, false));
    // Paper-fill brokerage: local paper mode, no routing.
    assert!(!uses_real_routing(true, true));
    assert!(uses_real_routing(true, false));
    let options = StartupOptions {
        real_routing: uses_real_routing(true, true),
        has_output_dir: true,
        paper_trading: true,
        can_snapshot: true,
    };
    let mut step = StartupStep::SyncBrokerageState;
    while step != StartupStep::Run {
        assert_ne!(
            step,
            StartupStep::LiquidateUnmanagedHoldings,
            "local paper mode leaves no liquidation orders"
        );
        step = next_startup_step(step, options);
    }
}

fn invalid(id: i64, symbol: Symbol, message: &str) -> OrderEvent {
    OrderEvent::invalid(id, symbol, DateTime { ns: 5 }, message.to_string())
}

#[test]
fn invalid_insight_order_rearms_rebalance_and_is_bounded() {
    let mut budget: HashMap<u64, u32> = HashMap::new();
    let events = vec![invalid(1, equity(5, "YPF"), "Brokerage rejected: cash")];
    let rearmed = rearm_rebalance_for_invalid_insight_orders(&events, &vec![5], &mut budget);
    assert_eq!(budget.get(&5), Some(&1), "one retry consumed");
    assert_eq!(rearmed, vec![5], "the rebalance is re-armed");

    while budget.get(&5).copied().unwrap_or(0) < MAX_INSIGHT_RETRIES {
        rearm_rebalance_for_invalid_insight_orders(&events, &vec![5], &mut budget);
    }
    assert_eq!(budget.get(&5), Some(&MAX_INSIGHT_RETRIES));
    let exhausted = rearm_rebalance_for_invalid_insight_orders(&events, &vec![5], &mut budget);
    assert_eq!(
        budget.get(&5),
        Some(&MAX_INSIGHT_RETRIES),
        "budget stays capped"
    );
    assert!(
        exhausted.is_empty(),
        "exhausted symbol must not re-trigger the rebalance"
    );
}

#[test]
fn invalid_liquidation_order_does_not_rearm_rebalance() {
    let mut budget: HashMap<u64, u32> = HashMap::new();
    let events = vec![invalid(9, equity(1, "AAA"), "Brokerage rejected: restricted")];
    let rearmed = rearm_rebalance_for_invalid_insight_orders(&events, &vec![], &mut budget);
    assert!(
        !budget.contains_key(&1),
        "non-insight symbol consumes no retry budget"
    );
    assert!(
        rearmed.is_empty(),
        "liquidation rejection must not trigger a rebalance"
    );
}

fn startup_steps(options: StartupOptions) -> Vec<StartupStep> {
    let mut step = StartupStep::SyncBrokerageState;
    let mut seen = vec![step];
    while step != StartupStep::Run {
        step = next_startup_step(step, options);
        seen.push(step);
    }
    seen
}

fn place<T: PartialEq>(steps: &[T], step: T) -> usize {
    steps.iter().position(|s| *s == step).unwrap()
}

#[test]
fn live_run_invokes_initialize_prepare_warmup_before_subscribing() {
    let steps = startup_steps(StartupOptions {
        real_routing: false,
        has_output_dir: false,
        paper_trading: true,
        can_snapshot: true,
    });
    assert!(
        place(&steps, StartupStep::InitializeAlgorithm)
            < place(&steps, StartupStep::PrepareDataDelivery)
    );
    assert!(
        place(&steps, StartupStep::PrepareDataDelivery) < place(&steps, StartupStep::FinishWarmup)
    );
    assert!(
        place(&steps, StartupStep::FinishWarmup) < place(&steps, StartupStep::SubscribeMarketData)
    );
}

#[test]
fn live_run_calls_warmup_finished_once_before_first_data() {
    let steps = startup_steps(StartupOptions {
        real_routing: true,
        has_output_dir: true,
        paper_trading: false,
        can_snapshot: true,
    });
    let finished = steps
        .iter()
        .filter(|step| **step == StartupStep::FinishWarmup)
        .count();
    assert_eq!(finished, 1);
}

fn slice_steps(context: SliceContext) -> Vec<SliceStep> {
    let mut slice = Slice::new(DateTime { ns: 0 });
    slice.has_order_books = true;
    let mut step = first_slice_step(&slice);
    let mut seen = vec![step];
    while step != SliceStep::Done {
        step = process_live_slice_step(step, context);
        seen.push(step);
    }
    seen
}

#[test]
fn live_run_delivers_on_data_then_framework_then_end_time_step_per_slice() {
    let steps = slice_steps(SliceContext {
        universe_changed: false,
        has_router: false,
        has_transactions: true,
        has_writer: false,
        can_snapshot: false,
    });
    assert!(place(&steps, SliceStep::DeliverData) < place(&steps, SliceStep::RunFramework));
    assert!(place(&steps, SliceStep::RunFramework) < place(&steps, SliceStep::EndTimeStep));
}

#[test]
fn live_run_processes_order_events_before_on_data() {
    let local = slice_steps(SliceContext {
        universe_changed: false,
        has_router: false,
        has_transactions: true,
        has_writer: false,
        can_snapshot: false,
    });
    assert!(place(&local, SliceStep::ProcessLocalFills) < place(&local, SliceStep::DeliverData));
    let routed = slice_steps(SliceContext {
        universe_changed: false,
        has_router: true,
        has_transactions: true,
        has_writer: true,
        can_snapshot: true,
    });
    assert!(place(&routed, SliceStep::DrainBrokerageEvents) < place(&routed, SliceStep::DeliverData));
    assert!(!routed.contains(&SliceStep::ProcessLocalFills));
}

#[test]
fn live_run_syncs_dynamic_subscriptions_after_universe_changes() {
    let steps = slice_steps(SliceContext {
        universe_changed: true,
        has_router: false,
        has_transactions: true,
        has_writer: false,
        can_snapshot: false,
    });
    assert!(
        place(&steps, SliceStep::SelectUniverse) < place(&steps, SliceStep::SyncChangedUniverse)
    );
}

#[test]
fn live_run_ignores_empty_slices_without_callbacks() {
    let slice = Slice::new(DateTime { ns: 0 });
    assert_eq!(first_slice_step(&slice), SliceStep::Done);
}

#[test]
fn live_run_calls_on_end_of_algorithm_even_when_stopped_by_max_slices() {
    let mut run = LiveLoop::new(Some(1), None);
    let zero = Duration::from_secs(0);
    assert!(matches!(run.next_action(0, zero), LiveAction::Receive));
    run.received(2);
    assert!(matches!(run.next_action(0, zero), LiveAction::ProcessSlice));
    run.processed(1, zero, false);
    let mut actions = 0;
    loop {
        actions += 1;
        assert!(actions < 10);
        match run.next_action(1, zero) {
            LiveAction::Shutdown => break,
            LiveAction::Flush => {
                assert!(!run.flushed(true, 1, zero), "no slice beyond the limit");
            }
            LiveAction::ProcessSlice => panic!("no slice beyond the limit"),
            LiveAction::Receive => panic!("nothing is received beyond the limit"),
        }
    }
}

#[test]
fn live_run_stops_on_algorithm_terminal_status() {
    let mut run = LiveLoop::new(Some(10), None);
    let zero = Duration::from_secs(0);
    run.next_action(0, zero);
    run.received(2);
    assert!(matches!(run.next_action(0, zero), LiveAction::ProcessSlice));
    run.processed(1, zero, true);
    assert!(matches!(run.next_action(1, zero), LiveAction::Shutdown));
}

#[test]
fn live_run_unsubscribes_all_after_finish() {
    for has_router in [true, false] {
        let mut step = first_shutdown_step(has_router);
        let mut steps = vec![step];
        while step != ShutdownStep::Done {
            step = next_shutdown_step(step);
            steps.push(step);
        }
        assert_eq!(steps.contains(&ShutdownStep::StopRouter), has_router);
        let ended = place(&steps, ShutdownStep::FinishAlgorithm);
        assert!(ended < place(&steps, ShutdownStep::UnsubscribeMarketData));
        assert!(ended < place(&steps, ShutdownStep::UnsubscribeCustomData));
    }
}

#[test]
fn a_startup_without_a_directory_records_no_snapshot() {
    let steps = startup_steps(StartupOptions {
        real_routing: false,
        has_output_dir: false,
        paper_trading: true,
        can_snapshot: true,
    });
    assert!(!steps.contains(&StartupStep::RecordSnapshot));
    assert!(!steps.contains(&StartupStep::RestorePaperAccount));
    assert!(!steps.contains(&StartupStep::RestoreInsights));
}

#[test]
fn a_live_run_stops_at_its_limits() {
    let zero = Duration::from_secs(0);
    assert!(should_stop(1, Some(1), zero, None));
    assert!(!should_stop(0, Some(1), zero, None));
    assert!(should_stop(0, None, Duration::from_secs(5), Some(Duration::from_secs(5))));
    assert!(!should_stop(9, None, Duration::from_secs(4), Some(Duration::from_secs(5))));
    assert!(!should_stop(9, None, Duration::from_secs(4), None));
}
