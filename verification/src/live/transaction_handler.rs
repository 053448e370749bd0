//! Routing of live orders to a brokerage.
//!
//! New orders are submitted once, retried a bounded number of times after
//! transient failures, and held while their market is closed. What the
//! brokerage reports is applied to the order it belongs to, never to an order
//! of another security, and fills are applied by their increments.

use crate::decimal::{exact_difference_is_owed, is_difference, pow10, Decimal, MAX_SCALE};
use crate::model::{SecurityType, Symbol};
use crate::orders::{carries_fields, plain_event, Order, OrderEvent, OrderStatus, OrderType};
use crate::text::{nat_text, u64_to_text};
use crate::time::{DateTime, Duration};
use std::collections::{HashMap, HashSet};
use vstd::prelude::*;
use vstd::string::*;

verus! {

broadcast use vstd::std_specs::hash::group_hash_axioms;

/// What the brokerage reported.
pub enum BrokerageEvent {
    /// The order was accepted under these ids.
    Submitted { order_id: i64, brokerage_ids: Vec<String> },
    /// The order was declined.
    Invalid { order_id: i64, message: String },
    /// The submission did not come through; it may be tried again.
    SubmitFailed { order_id: i64, message: String },
    /// State of an order: its status and the signed total that is filled.
    Status {
        order_id: i64,
        symbol: Symbol,
        status: OrderStatus,
        fill_price: Decimal,
        cumulative_filled: Decimal,
        commission: Option<Decimal>,
    },
}

/// What is to be done about an open order.
pub enum DispatchAction {
    /// Nothing, for now.
    Nothing,
    /// Hold the order until its market opens.
    Deferred,
    /// The order became a market-on-open order and is held.
    Held(Order),
    /// Send the order to the brokerage.
    Submit(Order),
    /// Send the cancellation of the order.
    Cancel(Order),
    /// Send the update of the order.
    Update(Order),
}

/// What follows from a brokerage report.
pub enum RouterEffect {
    /// Nothing.
    Ignored,
    /// The report is of another security than the order; it is refused.
    Refused,
    /// The submission is tried again later.
    RetryScheduled,
    /// Store the order and publish the event.
    OrderChanged { order: Order, event: OrderEvent },
    /// Publish the event of a fill, once it is settled.
    Fill { event: OrderEvent },
    /// Publish the event.
    Publish { event: OrderEvent },
}

/// Bookkeeping of the router as a value.
pub struct RouterView {
    pub submitted: Set<i64>,
    pub cancel_forwarded: Set<i64>,
    pub update_forwarded: Set<i64>,
    pub applied_filled: Map<i64, Decimal>,
    pub attempts: Map<i64, u32>,
    pub retry_not_before: Map<i64, u128>,
    pub moo_deferred: Set<i64>,
    pub backoff: Seq<Duration>,
}

/// Routes orders to a brokerage.
pub struct LiveBrokerageRouter {
    /// Orders that are on their way to the brokerage.
    pub submitted_ids: HashSet<i64>,
    pub cancel_forwarded: HashSet<i64>,
    pub update_forwarded: HashSet<i64>,
    /// Signed quantity already applied to the portfolio, by order.
    pub applied_filled: HashMap<i64, Decimal>,
    /// Waits between submissions of one order.
    pub submit_backoff: Vec<Duration>,
    /// Submissions made so far, by order.
    pub submit_attempts: HashMap<i64, u32>,
    /// Earliest instant of the next submission, in nanoseconds, by order.
    pub retry_not_before: HashMap<i64, u128>,
    /// Held orders that were reported as such.
    pub moo_deferred_logged: HashSet<i64>,
}

/// Submissions made of an order.
pub open spec fn attempts_of(state: RouterView, id: i64) -> int {
    if state.attempts.dom().contains(id) {
        state.attempts[id] as int
    } else {
        0
    }
}

/// Quantity of an order that is applied already.
pub open spec fn applied_of(state: RouterView, id: i64) -> Decimal {
    if state.applied_filled.dom().contains(id) {
        state.applied_filled[id]
    } else {
        Decimal::spec_zero()
    }
}

/// Whether a new order may be sent: it is not on its way, and no wait is left.
pub open spec fn may_submit(state: RouterView, id: i64, now: u128) -> bool {
    !state.submitted.contains(id) && (state.retry_not_before.dom().contains(id) ==> now
        >= state.retry_not_before[id])
}

/// Whether a security trades outside the regular session.
pub open spec fn trades_extended_hours(security_type: SecurityType) -> bool {
    security_type == SecurityType::Future || security_type == SecurityType::FutureOption
}

/// Sends or holds a new order. A market-on-open order is held while the
/// market is closed and goes out as a market order once it is open. A retried
/// order whose market has closed meanwhile turns into a held market-on-open order.
pub open spec fn dispatched_new(state: RouterView, order: Order, exchange_open: bool) -> (
    RouterView,
    DispatchAction,
) {
    let id = order.id;
    if order.order_type == OrderType::MarketOnOpen && !exchange_open {
        (
            RouterView { moo_deferred: state.moo_deferred.insert(id), ..state },
            DispatchAction::Deferred,
        )
    } else if order.order_type != OrderType::MarketOnOpen && !exchange_open
        && !trades_extended_hours(order.symbol.security_type) && attempts_of(state, id) > 0 {
        (
            RouterView {
                attempts: state.attempts.remove(id),
                retry_not_before: state.retry_not_before.remove(id),
                ..state
            },
            DispatchAction::Held(Order { order_type: OrderType::MarketOnOpen, ..order }),
        )
    } else {
        let moo = order.order_type == OrderType::MarketOnOpen;
        (
            RouterView {
                moo_deferred: if moo {
                    state.moo_deferred.remove(id)
                } else {
                    state.moo_deferred
                },
                retry_not_before: state.retry_not_before.remove(id),
                submitted: state.submitted.insert(id),
                attempts: state.attempts.insert(id, (attempts_of(state, id) + 1) as u32),
                ..state
            },
            DispatchAction::Submit(
                if moo {
                    Order { order_type: OrderType::Market, ..order }
                } else {
                    order
                },
            ),
        )
    }
}

/// Decides about one open order.
pub open spec fn dispatched(state: RouterView, order: Order, exchange_open: bool, now: u128) -> (
    RouterView,
    DispatchAction,
) {
    let id = order.id;
    if order.status == OrderStatus::New && may_submit(state, id, now) {
        dispatched_new(state, order, exchange_open)
    } else if order.status == OrderStatus::CancelPending && order.brokerage_id@.len() > 0
        && !state.cancel_forwarded.contains(id) {
        (
            RouterView { cancel_forwarded: state.cancel_forwarded.insert(id), ..state },
            DispatchAction::Cancel(order),
        )
    } else if order.status == OrderStatus::UpdateSubmitted && order.brokerage_id@.len() > 0
        && !state.update_forwarded.contains(id) {
        (
            RouterView { update_forwarded: state.update_forwarded.insert(id), ..state },
            DispatchAction::Update(order),
        )
    } else {
        (state, DispatchAction::Nothing)
    }
}

/// The state once the submission of an order is over.
pub open spec fn without_retry(state: RouterView, id: i64) -> RouterView {
    RouterView {
        attempts: state.attempts.remove(id),
        retry_not_before: state.retry_not_before.remove(id),
        moo_deferred: state.moo_deferred.remove(id),
        ..state
    }
}

/// Index of the wait before the next submission of an order.
pub open spec fn wait_index(state: RouterView, id: i64) -> int {
    if attempts_of(state, id) > 0 {
        attempts_of(state, id) - 1
    } else {
        0
    }
}

/// Message of an order whose submissions all failed.
pub open spec fn exhausted_message(attempts: int, message: Seq<char>) -> Seq<char> {
    "Brokerage order submission failed after "@ + nat_text(attempts as nat) + " attempts: "@
        + message
}

/// Name of a status in messages.
pub open spec fn status_name(status: OrderStatus) -> Seq<char> {
    match status {
        OrderStatus::New => "New"@,
        OrderStatus::Submitted => "Submitted"@,
        OrderStatus::PartiallyFilled => "PartiallyFilled"@,
        OrderStatus::Filled => "Filled"@,
        OrderStatus::Canceled => "Canceled"@,
        OrderStatus::Invalid => "Invalid"@,
        OrderStatus::CancelPending => "CancelPending"@,
        OrderStatus::UpdateSubmitted => "UpdateSubmitted"@,
    }
}

/// Message of a status that is no fill.
pub open spec fn message_of(status: OrderStatus) -> Seq<char> {
    match status {
        OrderStatus::Canceled => "Brokerage order canceled"@,
        OrderStatus::Invalid => "Brokerage rejected order"@,
        OrderStatus::Submitted => "Brokerage order submitted"@,
        other => "Brokerage order status "@ + status_name(other),
    }
}

pub fn status_message(status: OrderStatus) -> (res: String)
    ensures
        res@ == message_of(status),
{
    match status {
        OrderStatus::Canceled => "Brokerage order canceled".to_owned(),
        OrderStatus::Invalid => "Brokerage rejected order".to_owned(),
        OrderStatus::Submitted => "Brokerage order submitted".to_owned(),
        OrderStatus::New => "Brokerage order status ".to_owned().concat("New"),
        OrderStatus::PartiallyFilled => "Brokerage order status ".to_owned().concat(
            "PartiallyFilled",
        ),
        OrderStatus::Filled => "Brokerage order status ".to_owned().concat("Filled"),
        OrderStatus::CancelPending => "Brokerage order status ".to_owned().concat("CancelPending"),
        OrderStatus::UpdateSubmitted => "Brokerage order status ".to_owned().concat(
            "UpdateSubmitted",
        ),
    }
}

/// Whether the effect marks an order as refused for a reason.
pub open spec fn invalidated(
    effect: RouterEffect,
    order: Order,
    now: DateTime,
    message: Seq<char>,
) -> bool {
    effect matches RouterEffect::OrderChanged { order: changed, event } && {
        &&& changed == (Order { status: OrderStatus::Invalid, ..order })
        &&& plain_event(event, order.id, order.symbol, now, OrderStatus::Invalid, message)
        &&& event.order_fields is None
    }
}

/// What a report does: the state after it and its effect.
pub open spec fn applied(
    before: RouterView,
    event: BrokerageEvent,
    order: Option<Order>,
    now: DateTime,
    instant: u128,
    after: RouterView,
    effect: RouterEffect,
) -> bool {
    match order {
        None => after == before && effect is Ignored,
        Some(order) => match event {
            BrokerageEvent::Submitted { order_id, brokerage_ids } => {
                if order.status != OrderStatus::New {
                    after == before && effect is Ignored
                } else {
                    &&& after == without_retry(before, order_id)
                    &&& effect matches RouterEffect::OrderChanged { order: changed, event } && {
                        &&& changed == (Order {
                            status: OrderStatus::Submitted,
                            brokerage_id: brokerage_ids,
                            ..order
                        })
                        &&& plain_event(
                            event,
                            order.id,
                            order.symbol,
                            now,
                            OrderStatus::Submitted,
                            "Brokerage order submitted"@,
                        )
                        &&& carries_fields(event, changed)
                    }
                }
            },
            BrokerageEvent::Invalid { order_id, message } => {
                &&& after == without_retry(before, order_id)
                &&& invalidated(effect, order, now, message@)
            },
            BrokerageEvent::SubmitFailed { order_id, message } => {
                let landed = RouterView { submitted: before.submitted.remove(order_id), ..before };
                let index = wait_index(before, order_id);
                if index < before.backoff.len() {
                    &&& after == (RouterView {
                        retry_not_before: landed.retry_not_before.insert(
                            order_id,
                            (instant + before.backoff[index].nanos) as u128,
                        ),
                        ..landed
                    })
                    &&& effect is RetryScheduled
                } else {
                    &&& after == without_retry(landed, order_id)
                    &&& invalidated(
                        effect,
                        order,
                        now,
                        exhausted_message(attempts_of(before, order_id), message@),
                    )
                }
            },
            BrokerageEvent::Status {
                order_id,
                symbol,
                status,
                fill_price,
                cumulative_filled,
                commission,
            } => {
                let delta = cumulative_filled.difference(applied_of(before, order_id));
                let published = match effect {
                    RouterEffect::Fill { event } => Some(event),
                    RouterEffect::Publish { event } => Some(event),
                    _ => None,
                };
                if symbol.sid != order.symbol.sid {
                    after == before && effect is Refused
                } else if order.status == status && !status.fills() {
                    after == before && effect is Ignored
                } else {
                    &&& published matches Some(event) && {
                        &&& event.order_id == order.id
                        &&& event.symbol == order.symbol
                        &&& event.utc_time == now
                        &&& event.status == status
                        &&& carries_fields(event, order)
                        &&& event.fill_price == fill_price
                        &&& event.fill_quantity == delta
                        &&& exact_difference_is_owed(
                            cumulative_filled,
                            applied_of(before, order_id),
                        ) ==> is_difference(
                            delta,
                            cumulative_filled,
                            applied_of(before, order_id),
                        )
                        &&& event.order_fee == (match commission {
                            Some(fee) => fee,
                            None => Decimal::spec_zero(),
                        })
                        &&& event.message@ == (if status.fills() {
                            ""@
                        } else {
                            message_of(status)
                        })
                    }
                    &&& if status.fills() && delta.mantissa != 0 {
                        &&& effect is Fill
                        &&& after == (RouterView {
                            applied_filled: before.applied_filled.insert(
                                order_id,
                                cumulative_filled,
                            ),
                            ..before
                        })
                    } else {
                        &&& effect is Publish
                        &&& after == before
                    }
                }
            },
        },
    }
}

/// Whether the increment that a report carries can be computed, where the report
/// is applied to an order.
pub open spec fn increment_fits(
    state: RouterView,
    event: BrokerageEvent,
    order: Option<Order>,
) -> bool {
    match (event, order) {
        (
            BrokerageEvent::Status { order_id, symbol, status, cumulative_filled, .. },
            Some(order),
        ) => symbol.sid == order.symbol.sid && (order.status != status || status.fills()) ==> {
            &&& cumulative_filled.wf()
            &&& cumulative_filled.difference_fits(applied_of(state, order_id))
        },
        _ => true,
    }
}

/// Fee of a fill: the one that the brokerage reported, else the model's.
pub open spec fn fee_of(event: OrderEvent, model_fee: Decimal) -> Decimal {
    if event.order_fee.mantissa > 0 {
        event.order_fee
    } else {
        model_fee
    }
}

impl LiveBrokerageRouter {
    pub open spec fn view(&self) -> RouterView {
        RouterView {
            submitted: self.submitted_ids@,
            cancel_forwarded: self.cancel_forwarded@,
            update_forwarded: self.update_forwarded@,
            applied_filled: self.applied_filled@,
            attempts: self.submit_attempts@,
            retry_not_before: self.retry_not_before@,
            moo_deferred: self.moo_deferred_logged@,
            backoff: self.submit_backoff@,
        }
    }

    /// No order was sent more often than there are waits plus one, and one that
    /// was sent that often is still on its way.
    pub open spec fn wf(&self) -> bool {
        &&& self.submit_backoff@.len() < u32::MAX
        &&& forall|i: int| 0 <= i < self.submit_backoff@.len() ==> (
        #[trigger] self.submit_backoff@[i]).wf()
        &&& forall|id: i64| #[trigger]
            attempts_of(self@, id) <= self.submit_backoff@.len() + 1
        &&& forall|id: i64| #[trigger]
            attempts_of(self@, id) == self.submit_backoff@.len() + 1
                ==> self.submitted_ids@.contains(id)
        &&& forall|id: i64|
            self.applied_filled@.dom().contains(id) ==> (
            #[trigger] self.applied_filled@[id]).wf()
    }

    /// A router that has sent nothing, with the usual waits of 5 and 15 seconds.
    pub fn spawn() -> (res: LiveBrokerageRouter)
        ensures
            res.wf(),
            res@ == (RouterView {
                submitted: Set::empty(),
                cancel_forwarded: Set::empty(),
                update_forwarded: Set::empty(),
                applied_filled: Map::empty(),
                attempts: Map::empty(),
                retry_not_before: Map::empty(),
                moo_deferred: Set::empty(),
                backoff: seq![
                    Duration { nanos: 5_000_000_000 },
                    Duration { nanos: 15_000_000_000 },
                ],
            }),
    {
        let mut backoff: Vec<Duration> = Vec::new();
        backoff.push(Duration::from_secs(5));
        backoff.push(Duration::from_secs(15));
        assert(backoff@ =~= seq![
            Duration { nanos: 5_000_000_000 },
            Duration { nanos: 15_000_000_000 },
        ]);
        Self::spawn_with_backoff(backoff)
    }

    /// A router that has sent nothing.
    pub fn spawn_with_backoff(submit_backoff: Vec<Duration>) -> (res: LiveBrokerageRouter)
        requires
            submit_backoff@.len() < u32::MAX,
            forall|i: int| 0 <= i < submit_backoff@.len() ==> (#[trigger] submit_backoff@[i]).wf(),
        ensures
            res.wf(),
            res@ == (RouterView {
                submitted: Set::empty(),
                cancel_forwarded: Set::empty(),
                update_forwarded: Set::empty(),
                applied_filled: Map::empty(),
                attempts: Map::empty(),
                retry_not_before: Map::empty(),
                moo_deferred: Set::empty(),
                backoff: submit_backoff@,
            }),
    {
        LiveBrokerageRouter {
            submitted_ids: HashSet::new(),
            cancel_forwarded: HashSet::new(),
            update_forwarded: HashSet::new(),
            applied_filled: HashMap::new(),
            submit_backoff,
            submit_attempts: HashMap::new(),
            retry_not_before: HashMap::new(),
            moo_deferred_logged: HashSet::new(),
        }
    }

    fn attempts(&self, id: i64) -> (res: u32)
        ensures
            res == attempts_of(self@, id),
    {
        match self.submit_attempts.get(&id) {
            Some(n) => *n,
            None => 0,
        }
    }

    /// Sends or holds one new order.
    fn dispatch_new_order(&mut self, order: Order, exchange_open: bool) -> (res: DispatchAction)
        requires
            old(self).wf(),
            !old(self)@.submitted.contains(order.id),
        ensures
            final(self).wf(),
            (final(self)@, res) == dispatched_new(old(self)@, order, exchange_open),
    {
        let order_id: i64 = order.id;
        let moo_exempt = order.symbol.security_type == SecurityType::Future
            || order.symbol.security_type == SecurityType::FutureOption;
        let attempts: u32 = self.attempts(order_id);
        let ghost before = self@;
        if order.order_type == OrderType::MarketOnOpen {
            if !exchange_open {
                self.moo_deferred_logged.insert(order_id);
                proof {
                    assert forall|id: i64| #[trigger] attempts_of(self@, id) == attempts_of(
                        before,
                        id,
                    ) by {}
                }
                return DispatchAction::Deferred;
            }
            self.moo_deferred_logged.remove(&order_id);
        } else if !exchange_open && !moo_exempt && attempts > 0 {
            let mut held = order;
            held.order_type = OrderType::MarketOnOpen;
            self.submit_attempts.remove(&order_id);
            self.retry_not_before.remove(&order_id);
            proof {
                assert forall|id: i64| #[trigger] attempts_of(self@, id) == (if id == order_id {
                    0
                } else {
                    attempts_of(before, id)
                }) by {}
            }
            return DispatchAction::Held(held);
        }
        assert(attempts_of(before, order_id) <= self.submit_backoff@.len());
        self.retry_not_before.remove(&order_id);
        self.submitted_ids.insert(order_id);
        self.submit_attempts.insert(order_id, attempts + 1);
        proof {
            assert forall|id: i64| #[trigger] attempts_of(self@, id) == (if id == order_id {
                attempts + 1
            } else {
                attempts_of(before, id)
            }) by {}
        }
        let mut wire_order = order;
        if wire_order.order_type == OrderType::MarketOnOpen {
            wire_order.order_type = OrderType::Market;
        }
        DispatchAction::Submit(wire_order)
    }

    /// Decides about one open order: new orders are sent when due, pending
    /// cancellations and updates of known orders are forwarded once.
    pub fn dispatch_order(&mut self, order: Order, exchange_open: bool, now: u128) -> (res:
        DispatchAction)
        requires
            old(self).wf(),
        ensures
            final(self).wf(),
            (final(self)@, res) == dispatched(old(self)@, order, exchange_open, now),
    {
        let ghost before = self@;
        match order.status {
            OrderStatus::New => {
                let due = match self.retry_not_before.get(&order.id) {
                    Some(not_before) => now >= *not_before,
                    None => true,
                };
                if !self.submitted_ids.contains(&order.id) && due {
                    return self.dispatch_new_order(order, exchange_open);
                }
                DispatchAction::Nothing
            },
            OrderStatus::CancelPending => {
                if order.brokerage_id.len() > 0 && !self.cancel_forwarded.contains(&order.id) {
                    self.cancel_forwarded.insert(order.id);
                    proof {
                        assert forall|id: i64| #[trigger] attempts_of(self@, id) == attempts_of(
                            before,
                            id,
                        ) by {}
                    }
                    return DispatchAction::Cancel(order);
                }
                DispatchAction::Nothing
            },
            OrderStatus::UpdateSubmitted => {
                if order.brokerage_id.len() > 0 && !self.update_forwarded.contains(&order.id) {
                    self.update_forwarded.insert(order.id);
                    proof {
                        assert forall|id: i64| #[trigger] attempts_of(self@, id) == attempts_of(
                            before,
                            id,
                        ) by {}
                    }
                    return DispatchAction::Update(order);
                }
                DispatchAction::Nothing
            },
            _ => DispatchAction::Nothing,
        }
    }

    /// Decides about all open orders in turn. Each comes with whether its
    /// market is open.
    pub fn dispatch_pending_at(&mut self, orders: Vec<(Order, bool)>, now: u128) -> (res: Vec<
        DispatchAction,
    >)
        requires
            old(self).wf(),
        ensures
            final(self).wf(),
            (final(self)@, res@) == dispatched_all(old(self)@, orders@, now),
    {
        let mut actions: Vec<DispatchAction> = Vec::new();
        let ghost all = orders@;
        assert(all.take(0) =~= Seq::<(Order, bool)>::empty());
        for entry in it: orders
            invariant
                it.seq() == all,
                self.wf(),
                (self@, actions@) == dispatched_all(old(self)@, all.take(it.index() as int), now),
        {
            proof {
                assert(all[it.index() as int] == entry);
                assert(all.take(it.index() + 1).drop_last() =~= all.take(it.index() as int));
                assert(all.take(it.index() + 1).last() == entry);
            }
            let (order, exchange_open) = entry;
            let action = self.dispatch_order(order, exchange_open, now);
            actions.push(action);
        }
        assert(all.take(all.len() as int) =~= all);
        actions
    }

    /// Ends the submission of an order.
    fn clear_retry(&mut self, id: i64)
        requires
            old(self).wf(),
        ensures
            final(self).wf(),
            final(self)@ == without_retry(old(self)@, id),
    {
        let ghost before = self@;
        self.submit_attempts.remove(&id);
        self.retry_not_before.remove(&id);
        self.moo_deferred_logged.remove(&id);
        proof {
            assert forall|x: i64| #[trigger] attempts_of(self@, x) == (if x == id {
                0
            } else {
                attempts_of(before, x)
            }) by {}
        }
    }

    fn invalidate(&mut self, order: Order, order_id: i64, message: String, now: DateTime) -> (res:
        RouterEffect)
        requires
            old(self).wf(),
        ensures
            final(self).wf(),
            final(self)@ == without_retry(old(self)@, order_id),
            invalidated(res, order, now, message@),
    {
        let mut order = order;
        order.status = OrderStatus::Invalid;
        self.clear_retry(order_id);
        let event = OrderEvent::invalid(order.id, order.symbol.duplicate(), now, message);
        RouterEffect::OrderChanged { order, event }
    }

    /// Applies a report of the brokerage to the order it is about, if it is
    /// known. An accepted order leaves the retries; so does a refused one. A
    /// failed submission is tried again after the next wait, and refused when
    /// no wait is left. A status of another security is refused; a fill is
    /// applied by what it adds to the quantity applied before.
    pub fn apply_event(
        &mut self,
        event: BrokerageEvent,
        order: Option<Order>,
        now: DateTime,
        instant: u128,
    ) -> (res: RouterEffect)
        requires
            old(self).wf(),
            increment_fits(old(self)@, event, order),
            instant + crate::time::MAX_DURATION_NANOS <= u128::MAX,
        ensures
            final(self).wf(),
            applied(old(self)@, event, order, now, instant, final(self)@, res),
    {
        let order = match order {
            Some(order) => order,
            None => {
                return RouterEffect::Ignored;
            },
        };
        let ghost before = self@;
        match event {
            BrokerageEvent::Submitted { order_id, brokerage_ids } => {
                if order.status != OrderStatus::New {
                    return RouterEffect::Ignored;
                }
                let mut order = order;
                order.brokerage_id = brokerage_ids;
                order.status = OrderStatus::Submitted;
                self.clear_retry(order_id);
                let mut event = OrderEvent::new(
                    order.id,
                    order.symbol.duplicate(),
                    now,
                    OrderStatus::Submitted,
                    "Brokerage order submitted".to_owned(),
                );
                event.apply_order_fields(&order);
                RouterEffect::OrderChanged { order, event }
            },
            BrokerageEvent::Invalid { order_id, message } => {
                self.invalidate(order, order_id, message, now)
            },
            BrokerageEvent::SubmitFailed { order_id, message } => {
                let attempts: u32 = self.attempts(order_id);
                let index: usize = if attempts > 0 {
                    (attempts - 1) as usize
                } else {
                    0
                };
                if index < self.submit_backoff.len() {
                    self.submitted_ids.remove(&order_id);
                    let delay = self.submit_backoff[index];
                    assert(self.submit_backoff@[index as int].wf());
                    self.retry_not_before.insert(order_id, instant + delay.nanos);
                    proof {
                        assert forall|x: i64| #[trigger] attempts_of(self@, x) == attempts_of(
                            before,
                            x,
                        ) by {}
                    }
                    RouterEffect::RetryScheduled
                } else {
                    let text = u64_to_text(attempts as u64);
                    let reason = "Brokerage order submission failed after ".to_owned().concat(
                        text.as_str(),
                    ).concat(" attempts: ").concat(message.as_str());
                    self.clear_retry(order_id);
                    let ghost cleared = self@;
                    self.submitted_ids.remove(&order_id);
                    proof {
                        assert forall|x: i64| #[trigger] attempts_of(self@, x) == attempts_of(
                            cleared,
                            x,
                        ) by {}
                        assert(attempts_of(self@, order_id) == 0);
                    }
                    let res = self.invalidate(order, order_id, reason, now);
                    proof {
                        let landed = RouterView {
                            submitted: before.submitted.remove(order_id),
                            ..before
                        };
                        assert(self@.attempts =~= landed.attempts.remove(order_id));
                        assert(self@.retry_not_before =~= landed.retry_not_before.remove(
                            order_id,
                        ));
                        assert(self@.moo_deferred =~= landed.moo_deferred.remove(order_id));
                    }
                    res
                }
            },
            BrokerageEvent::Status {
                order_id,
                symbol,
                status,
                fill_price,
                cumulative_filled,
                commission,
            } => {
                if symbol.sid != order.symbol.sid {
                    return RouterEffect::Refused;
                }
                if order.status == status && !status.is_fill() {
                    return RouterEffect::Ignored;
                }
                let previously_applied = match self.applied_filled.get(&order_id) {
                    Some(quantity) => *quantity,
                    None => Decimal::zero(),
                };
                let fill_delta = cumulative_filled.minus(previously_applied);
                let fill = status.is_fill();
                let message = if fill {
                    "".to_owned()
                } else {
                    status_message(status)
                };
                let mut event = OrderEvent::new(
                    order.id,
                    order.symbol.duplicate(),
                    now,
                    status,
                    message,
                );
                event.apply_order_fields(&order);
                event.fill_price = fill_price;
                event.fill_quantity = fill_delta;
                if let Some(fee) = commission {
                    event.order_fee = fee;
                }
                if fill && !fill_delta.is_zero() {
                    self.applied_filled.insert(order_id, cumulative_filled);
                    proof {
                        assert forall|x: i64| #[trigger] attempts_of(self@, x) == attempts_of(
                            before,
                            x,
                        ) by {}
                    }
                    RouterEffect::Fill { event }
                } else {
                    RouterEffect::Publish { event }
                }
            },
        }
    }

    /// Settles a fill: a fee that the brokerage reported is kept, otherwise the
    /// model's fee is charged. Where the account lacks the buying power the event
    /// turns into a refusal of the order. Without a portfolio nothing is booked.
    pub fn settle_fill(
        event: &mut OrderEvent,
        order: &Order,
        model_fee: Decimal,
        buying_power: Result<(), String>,
        has_portfolio: bool,
    ) -> (res: Option<PortfolioFill>)
        ensures
            ({
                let fee = fee_of(*old(event), model_fee);
                match buying_power {
                    Ok(_) => {
                        &&& *final(event) == (OrderEvent { order_fee: fee, ..*old(event) })
                        &&& res == (if has_portfolio {
                            Some(
                                PortfolioFill {
                                    sid: order.symbol.sid,
                                    price: old(event).fill_price,
                                    quantity: old(event).fill_quantity,
                                    fee,
                                },
                            )
                        } else {
                            None
                        })
                    },
                    Err(message) => {
                        &&& plain_event(
                            *final(event),
                            order.id,
                            order.symbol,
                            old(event).utc_time,
                            OrderStatus::Invalid,
                            message@,
                        )
                        &&& final(event).order_fields is None
                        &&& res is None
                    },
                }
            }),
            settled(*old(event), *order, model_fee, buying_power, has_portfolio, *final(event), res),
    {
        let fee = if event.order_fee.is_positive() {
            event.order_fee
        } else {
            model_fee
        };
        if let Err(message) = buying_power {
            let refused = OrderEvent::invalid(
                order.id,
                order.symbol.duplicate(),
                event.utc_time,
                message,
            );
            *event = refused;
            return None;
        }
        event.order_fee = fee;
        if !has_portfolio {
            return None;
        }
        Some(
            PortfolioFill {
                sid: order.symbol.sid,
                price: event.fill_price,
                quantity: event.fill_quantity,
                fee,
            },
        )
    }
}

/// A fill to be booked in the portfolio.
#[derive(Clone, Copy, Debug, PartialEq, Eq, Structural)]
pub struct PortfolioFill {
    pub sid: u64,
    pub price: Decimal,
    pub quantity: Decimal,
    pub fee: Decimal,
}

/// Decides about open orders in turn.
pub open spec fn dispatched_all(state: RouterView, orders: Seq<(Order, bool)>, now: u128) -> (
    RouterView,
    Seq<DispatchAction>,
)
    decreases orders.len(),
{
    if orders.len() == 0 {
        (state, Seq::empty())
    } else {
        let (middle, actions) = dispatched_all(state, orders.drop_last(), now);
        let (after, action) = dispatched(middle, orders.last().0, orders.last().1, now);
        (after, actions.push(action))
    }
}

/// An order that is on its way is not sent again, whatever is decided about the
/// orders around it.
pub proof fn law_no_double_submission(state: RouterView, orders: Seq<(Order, bool)>, now: u128, i: int)
    requires
        0 <= i < orders.len(),
        state.submitted.contains(orders[i].0.id),
    ensures
        !(dispatched_all(state, orders, now).1[i] is Submit),
        dispatched_all(state, orders, now).1.len() == orders.len(),
    decreases orders.len(),
{
    lemma_submitted_stays(state, orders.drop_last(), now, orders[i].0.id);
    let middle = dispatched_all(state, orders.drop_last(), now).0;
    if i < orders.len() - 1 {
        assert(orders.drop_last()[i] == orders[i]);
        law_no_double_submission(state, orders.drop_last(), now, i);
    }
}

proof fn lemma_submitted_stays(state: RouterView, orders: Seq<(Order, bool)>, now: u128, id: i64)
    requires
        state.submitted.contains(id),
    ensures
        dispatched_all(state, orders, now).0.submitted.contains(id),
        dispatched_all(state, orders, now).1.len() == orders.len(),
    decreases orders.len(),
{
    if orders.len() > 0 {
        lemma_submitted_stays(state, orders.drop_last(), now, id);
    }
}

/// An order is sent into a closed market only on its first attempt, or where its
/// market trades extended hours; a market-on-open order never is, and goes out as
/// a market order once its market is open.
pub proof fn law_closed_markets_are_respected(
    state: RouterView,
    order: Order,
    exchange_open: bool,
    now: u128,
)
    requires
        dispatched(state, order, exchange_open, now).1 is Submit,
    ensures
        !exchange_open ==> order.order_type != OrderType::MarketOnOpen && (attempts_of(
            state,
            order.id,
        ) == 0 || trades_extended_hours(order.symbol.security_type)),
        dispatched(state, order, exchange_open, now).1 matches DispatchAction::Submit(sent)
            && sent.order_type != OrderType::MarketOnOpen,
{
}

/// A submission that fails is tried again until the waits are used up, and then
/// the order is refused for good: with `n` waits an order is sent at most `n + 1`
/// times.
pub proof fn law_failed_submissions_end(
    before: RouterView,
    order_id: i64,
    message: String,
    order: Order,
    now: DateTime,
    instant: u128,
    after: RouterView,
    effect: RouterEffect,
)
    requires
        attempts_of(before, order_id) >= 1,
        applied(
            before,
            BrokerageEvent::SubmitFailed { order_id, message },
            Some(order),
            now,
            instant,
            after,
            effect,
        ),
    ensures
        attempts_of(before, order_id) <= before.backoff.len() <==> effect is RetryScheduled,
        attempts_of(before, order_id) > before.backoff.len() ==> (
        effect matches RouterEffect::OrderChanged { order: changed, .. } && changed.status
            == OrderStatus::Invalid),
        !after.submitted.contains(order_id),
{
}

/// A submission that failed, and what followed from it.
pub struct FailedSubmission {
    /// Whether the market was open when the order was sent.
    pub exchange_open: bool,
    /// Instant at which the order was sent, in nanoseconds.
    pub sent: u128,
    /// Instant at which the failure was applied, in nanoseconds.
    pub answered: u128,
    /// Time of the events that follow.
    pub now: DateTime,
    pub message: String,
    pub effect: RouterEffect,
}

/// One round of a submission that fails: the order is sent, and the failure is
/// applied.
pub open spec fn failed_round(
    before: RouterView,
    order: Order,
    failure: FailedSubmission,
    after: RouterView,
) -> bool {
    let (sent, action) = dispatched(before, order, failure.exchange_open, failure.sent);
    &&& action is Submit
    &&& applied(
        sent,
        BrokerageEvent::SubmitFailed { order_id: order.id, message: failure.message },
        Some(order),
        failure.now,
        failure.answered,
        after,
        failure.effect,
    )
}

/// The submissions of one order fail one after the other. `states[i]` is the
/// router before round `i`.
pub open spec fn failed_rounds(
    states: Seq<RouterView>,
    order: Order,
    failures: Seq<FailedSubmission>,
) -> bool {
    &&& states.len() == failures.len() + 1
    &&& forall|i: int|
        0 <= i < failures.len() ==> failed_round(
            states[i],
            order,
            #[trigger] failures[i],
            states[i + 1],
        )
}

proof fn lemma_failed_rounds(
    states: Seq<RouterView>,
    order: Order,
    failures: Seq<FailedSubmission>,
    n: int,
)
    requires
        failed_rounds(states, order, failures),
        attempts_of(states[0], order.id) == 0,
        states[0].backoff.len() < u32::MAX,
        0 <= n < failures.len() <= states[0].backoff.len() + 1,
    ensures
        attempts_of(states[n], order.id) == n,
        states[n].backoff == states[0].backoff,
    decreases n,
{
    if n > 0 {
        lemma_failed_rounds(states, order, failures, n - 1);
        assert(failed_round(states[n - 1], order, failures[n - 1], states[n - 1 + 1]));
    }
}

/// Failed submissions of one order, from the first on. With `b` waits, each of
/// the first `b` failures leaves the order as it is and publishes nothing; the
/// order is sent again once the wait for that failure is over, and not before.
/// The failure after them marks the order as invalid with one event, which names
/// the number of attempts, and the order is not sent again.
pub proof fn law_failures_run_out(
    states: Seq<RouterView>,
    order: Order,
    failures: Seq<FailedSubmission>,
    i: int,
)
    requires
        failed_rounds(states, order, failures),
        attempts_of(states[0], order.id) == 0,
        states[0].backoff.len() < u32::MAX,
        0 <= i < failures.len() <= states[0].backoff.len() + 1,
        i < states[0].backoff.len() ==> failures[i].answered + states[0].backoff[i].nanos
            <= u128::MAX,
    ensures
        i < states[0].backoff.len() ==> {
            let wait = failures[i].answered + states[0].backoff[i].nanos;
            &&& failures[i].effect is RetryScheduled
            &&& forall|now: u128|
                (#[trigger] dispatched(states[i + 1], order, true, now)).1 is Submit <==> now
                    >= wait
            &&& forall|now: u128|
                now < wait ==> (#[trigger] dispatched(states[i + 1], order, false, now)).1 is Nothing
        },
        i == states[0].backoff.len() ==> {
            &&& invalidated(
                failures[i].effect,
                order,
                failures[i].now,
                "Brokerage order submission failed after "@ + nat_text((i + 1) as nat)
                    + " attempts: "@ + failures[i].message@,
            )
            &&& forall|exchange_open: bool, now: u128|
                (#[trigger] dispatched(
                    states[i + 1],
                    Order { status: OrderStatus::Invalid, ..order },
                    exchange_open,
                    now,
                )).1 is Nothing
        },
{
    lemma_failed_rounds(states, order, failures, i);
    assert(failed_round(states[i], order, failures[i], states[i + 1]));
}

/// A report about one security never changes what is booked for an order of
/// another, nor anything else the router knows.
pub proof fn law_fills_stay_with_their_security(
    before: RouterView,
    order_id: i64,
    symbol: Symbol,
    status: OrderStatus,
    fill_price: Decimal,
    cumulative_filled: Decimal,
    commission: Option<Decimal>,
    order: Order,
    now: DateTime,
    instant: u128,
    after: RouterView,
    effect: RouterEffect,
)
    requires
        symbol.sid != order.symbol.sid,
        applied(
            before,
            BrokerageEvent::Status {
                order_id,
                symbol,
                status,
                fill_price,
                cumulative_filled,
                commission,
            },
            Some(order),
            now,
            instant,
            after,
            effect,
        ),
    ensures
        after == before,
        effect is Refused,
{
}

/// A repeated report of the same fill books nothing: once a total is applied, a
/// report of the same total is no further fill.
pub proof fn law_repeated_fill_books_nothing(
    before: RouterView,
    order_id: i64,
    symbol: Symbol,
    status: OrderStatus,
    fill_price: Decimal,
    total: Decimal,
    commission: Option<Decimal>,
    order: Order,
    now: DateTime,
    instant: u128,
    after: RouterView,
    effect: RouterEffect,
)
    requires
        total.wf(),
        applied_of(before, order_id) == total,
        applied(
            before,
            BrokerageEvent::Status {
                order_id,
                symbol,
                status,
                fill_price,
                cumulative_filled: total,
                commission,
            },
            Some(order),
            now,
            instant,
            after,
            effect,
        ),
    ensures
        after == before,
        !(effect is Fill),
{
    let d = total.difference(total);
    let s = total.scale as int;
    assert(total.at_scale(s) == total.mantissa) by {
        vstd::arithmetic::power::lemma_pow0(10);
    }
    assert(exact_difference_is_owed(total, total));
    if effect is Fill {
        assert(is_difference(d, total, total));
        vstd::arithmetic::power::lemma_pow_positive(10, (s - d.scale) as nat);
        assert(d.mantissa == 0) by (nonlinear_arith)
            requires
                d.mantissa * pow10(s - d.scale) == 0,
                pow10(s - d.scale) > 0,
        ;
    }
}

/// A number at a larger scale.
proof fn lemma_at_larger_scale(d: Decimal, small: int, large: int)
    requires
        d.scale <= small <= large,
    ensures
        d.at_scale(large) == d.at_scale(small) * pow10(large - small),
{
    vstd::arithmetic::power::lemma_pow_adds(
        10,
        (small - d.scale) as nat,
        (large - small) as nat,
    );
    assert(d.mantissa * (pow10(small - d.scale) * pow10(large - small)) == d.mantissa * pow10(
        small - d.scale,
    ) * pow10(large - small)) by (nonlinear_arith);
}

/// Sum of some numbers, in units of `10^-scale`.
pub open spec fn sum_at_scale(numbers: Seq<Decimal>, scale: int) -> int
    decreases numbers.len(),
{
    if numbers.len() == 0 {
        0
    } else {
        sum_at_scale(numbers.drop_last(), scale) + numbers.last().at_scale(scale)
    }
}

/// The increments booked for an order add up to the total that the brokerage
/// reports. `totals` are the totals reported in turn, after the one applied
/// first; each increment is the exact difference of two of them; `scale` is at
/// least the scale of each total.
pub proof fn law_increments_add_up(totals: Seq<Decimal>, increments: Seq<Decimal>, scale: int)
    requires
        totals.len() == increments.len() + 1,
        forall|i: int| 0 <= i < totals.len() ==> (#[trigger] totals[i]).scale <= scale,
        forall|i: int|
            0 <= i < increments.len() ==> is_difference(
                #[trigger] increments[i],
                totals[i + 1],
                totals[i],
            ),
    ensures
        sum_at_scale(increments, scale) == totals.last().at_scale(scale) - totals[0].at_scale(
            scale,
        ),
    decreases increments.len(),
{
    if increments.len() > 0 {
        let n = increments.len() - 1;
        let head = totals.drop_last();
        assert forall|i: int| 0 <= i < head.len() implies (#[trigger] head[i]).scale <= scale by {
            assert(totals[i].scale <= scale);
        }
        assert forall|i: int| 0 <= i < increments.drop_last().len() implies is_difference(
            #[trigger] increments.drop_last()[i],
            head[i + 1],
            head[i],
        ) by {
            assert(is_difference(increments[i], totals[i + 1], totals[i]));
        }
        law_increments_add_up(head, increments.drop_last(), scale);
        let a = totals[n + 1];
        let b = totals[n];
        let d = increments[n];
        let s = crate::decimal::larger_scale(a, b);
        assert(is_difference(d, a, b));
        lemma_at_larger_scale(a, s, scale);
        lemma_at_larger_scale(b, s, scale);
        lemma_at_larger_scale(d, s, scale);
        assert(d.at_scale(s) * pow10(scale - s) == a.at_scale(s) * pow10(scale - s) - b.at_scale(s)
            * pow10(scale - s)) by (nonlinear_arith)
            requires
                d.at_scale(s) == a.at_scale(s) - b.at_scale(s),
        ;
        assert(head.last() == b);
        assert(head[0] == totals[0]);
    }
}

/// The number in units of the smallest fraction that a decimal can have.
pub open spec fn units(number: Decimal) -> int {
    number.at_scale(MAX_SCALE as int)
}

/// A report on the state of an order, and what followed from it.
pub struct AppliedReport {
    /// The order when the report came.
    pub order: Order,
    pub symbol: Symbol,
    pub status: OrderStatus,
    pub fill_price: Decimal,
    pub cumulative_filled: Decimal,
    pub commission: Option<Decimal>,
    /// Time of the events that follow.
    pub now: DateTime,
    /// Instant at which the report was applied, in nanoseconds.
    pub instant: u128,
    pub effect: RouterEffect,
}

impl AppliedReport {
    /// Whether the report is one of a fill of the order's own security.
    pub open spec fn counts(self) -> bool {
        self.symbol.sid == self.order.symbol.sid && self.status.fills()
    }

    /// Quantity of the event that is published, if one is.
    pub open spec fn quantity(self) -> Option<Decimal> {
        match self.effect {
            RouterEffect::Fill { event } => Some(event.fill_quantity),
            RouterEffect::Publish { event } => Some(event.fill_quantity),
            _ => None,
        }
    }

    /// Quantity that the report brings into the portfolio.
    pub open spec fn booked(self) -> int {
        match self.effect {
            RouterEffect::Fill { event } => units(event.fill_quantity),
            _ => 0,
        }
    }
}

/// Reports on one order are applied in turn. `states[i]` is the router before
/// report `i`.
pub open spec fn reports_applied(
    states: Seq<RouterView>,
    order_id: i64,
    reports: Seq<AppliedReport>,
) -> bool {
    &&& states.len() == reports.len() + 1
    &&& forall|i: int|
        0 <= i < reports.len() ==> applied(
            states[i],
            BrokerageEvent::Status {
                order_id,
                symbol: (#[trigger] reports[i]).symbol,
                status: reports[i].status,
                fill_price: reports[i].fill_price,
                cumulative_filled: reports[i].cumulative_filled,
                commission: reports[i].commission,
            },
            Some(reports[i].order),
            reports[i].now,
            reports[i].instant,
            states[i + 1],
            reports[i].effect,
        )
}

/// Whether the increment of each fill needs no rounding: a decimal holds the
/// difference between the total and the quantity applied before.
pub open spec fn increments_are_exact(
    states: Seq<RouterView>,
    order_id: i64,
    reports: Seq<AppliedReport>,
) -> bool {
    forall|i: int|
        0 <= i < reports.len() && (#[trigger] reports[i]).counts() ==> {
            let total = reports[i].cumulative_filled;
            let before = applied_of(states[i], order_id);
            &&& total.wf()
            &&& is_difference(total.difference(before), total, before)
        }
}

/// The last total that was reported for a fill, zero before the first.
pub open spec fn reported_total(reports: Seq<AppliedReport>) -> int
    decreases reports.len(),
{
    if reports.len() == 0 {
        0
    } else if reports.last().counts() {
        units(reports.last().cumulative_filled)
    } else {
        reported_total(reports.drop_last())
    }
}

/// What some reports bring into the portfolio together.
pub open spec fn booked_total(reports: Seq<AppliedReport>) -> int
    decreases reports.len(),
{
    if reports.len() == 0 {
        0
    } else {
        booked_total(reports.drop_last()) + reports.last().booked()
    }
}

proof fn lemma_units_of_difference(d: Decimal, a: Decimal, b: Decimal)
    requires
        is_difference(d, a, b),
        a.scale <= MAX_SCALE,
        b.scale <= MAX_SCALE,
    ensures
        units(d) == units(a) - units(b),
        d.mantissa == 0 <==> units(a) == units(b),
{
    let s = crate::decimal::larger_scale(a, b);
    let rest = MAX_SCALE as int - s;
    lemma_at_larger_scale(a, s, MAX_SCALE as int);
    lemma_at_larger_scale(b, s, MAX_SCALE as int);
    lemma_at_larger_scale(d, s, MAX_SCALE as int);
    assert(d.at_scale(s) * pow10(rest) == a.at_scale(s) * pow10(rest) - b.at_scale(s) * pow10(rest))
        by (nonlinear_arith)
        requires
            d.at_scale(s) == a.at_scale(s) - b.at_scale(s),
    ;
    let factor = pow10(MAX_SCALE as int - d.scale);
    vstd::arithmetic::power::lemma_pow_positive(10, (MAX_SCALE as int - d.scale) as nat);
    assert(d.mantissa * factor == 0 <==> d.mantissa == 0) by (nonlinear_arith)
        requires
            factor > 0,
    ;
}

proof fn lemma_report(
    states: Seq<RouterView>,
    order_id: i64,
    reports: Seq<AppliedReport>,
    n: int,
)
    requires
        reports_applied(states, order_id, reports),
        increments_are_exact(states, order_id, reports),
        applied_of(states[0], order_id) == Decimal::spec_zero(),
        0 <= n <= reports.len(),
    ensures
        applied_of(states[n], order_id).scale <= MAX_SCALE,
        units(applied_of(states[n], order_id)) == reported_total(reports.take(n)),
        booked_total(reports.take(n)) == reported_total(reports.take(n)),
    decreases n,
{
    if n > 0 {
        lemma_report(states, order_id, reports, n - 1);
        let report = reports[n - 1];
        assert(reports.take(n).drop_last() =~= reports.take(n - 1));
        assert(reports.take(n).last() == report);
        let before = applied_of(states[n - 1], order_id);
        let after = states[n - 1 + 1];
        if report.counts() {
            lemma_units_of_difference(
                report.cumulative_filled.difference(before),
                report.cumulative_filled,
                before,
            );
        }
    } else {
        assert(reports.take(0) =~= Seq::<AppliedReport>::empty());
        assert(units(Decimal::spec_zero()) == 0) by (nonlinear_arith);
    }
}

/// The fills of one order add up to the total that the brokerage reports, over
/// any series of reports from the first on. Each report of a fill carries the
/// difference between its total and the quantity applied before, and is booked
/// unless that is nothing; a booked report leaves its total as the quantity
/// applied, any other changes nothing. Where no difference needs rounding, the
/// quantities that are booked sum to the last total reported for a fill.
pub proof fn law_fills_add_up_to_the_total(
    states: Seq<RouterView>,
    order_id: i64,
    reports: Seq<AppliedReport>,
)
    requires
        reports_applied(states, order_id, reports),
        applied_of(states[0], order_id) == Decimal::spec_zero(),
    ensures
        forall|i: int|
            0 <= i < reports.len() ==> {
                let report = #[trigger] reports[i];
                let before = applied_of(states[i], order_id);
                let new = report.cumulative_filled.difference(before);
                &&& report.effect is Fill <==> report.counts() && new.mantissa != 0
                &&& report.counts() ==> report.quantity() == Some(new)
                &&& applied_of(states[i + 1], order_id) == (if report.effect is Fill {
                    report.cumulative_filled
                } else {
                    before
                })
            },
        increments_are_exact(states, order_id, reports) ==> {
            &&& booked_total(reports) == reported_total(reports)
            &&& units(applied_of(states.last(), order_id)) == reported_total(reports)
            &&& forall|i: int|
                0 <= i < reports.len() ==> {
                    let report = #[trigger] reports[i];
                    let new = units(report.cumulative_filled) - reported_total(reports.take(i));
                    &&& report.booked() == (if report.counts() {
                        new
                    } else {
                        0
                    })
                    &&& report.effect is Fill <==> report.counts() && new != 0
                }
        },
{
    let n = reports.len() as int;
    if increments_are_exact(states, order_id, reports) {
        lemma_report(states, order_id, reports, n);
        assert(reports.take(n) =~= reports);
        assert forall|i: int| 0 <= i < reports.len() implies ({
            let report = #[trigger] reports[i];
            let new = units(report.cumulative_filled) - reported_total(reports.take(i));
            &&& report.booked() == (if report.counts() {
                new
            } else {
                0
            })
            &&& report.effect is Fill <==> report.counts() && new != 0
        }) by {
            lemma_report(states, order_id, reports, i);
            let report = reports[i];
            let before = applied_of(states[i], order_id);
            if report.counts() {
                lemma_units_of_difference(
                    report.cumulative_filled.difference(before),
                    report.cumulative_filled,
                    before,
                );
            }
        }
    }
}

/// A snapshot never fills twice: a report of a fill with the same total as the
/// report of a fill before it books nothing and leaves the router as it is.
pub proof fn law_repeated_total_books_nothing(
    states: Seq<RouterView>,
    order_id: i64,
    reports: Seq<AppliedReport>,
    i: int,
)
    requires
        reports_applied(states, order_id, reports),
        0 < i < reports.len(),
        reports[i - 1].counts(),
        reports[i].counts(),
        reports[i].cumulative_filled == reports[i - 1].cumulative_filled,
        reports[i].cumulative_filled.wf(),
    ensures
        !(reports[i].effect is Fill),
        states[i + 1] == states[i],
{
    let first = reports[i - 1];
    let again = reports[i];
    let total = again.cumulative_filled;
    assert(states[i - 1 + 1] == states[i]);
    if first.effect is Fill {
        assert(applied_of(states[i], order_id) == total);
        law_repeated_fill_books_nothing(
            states[i],
            order_id,
            again.symbol,
            again.status,
            again.fill_price,
            total,
            again.commission,
            again.order,
            again.now,
            again.instant,
            states[i + 1],
            again.effect,
        );
    }
}

/// A holding that the brokerage reports.
pub struct BrokerageHolding {
    pub symbol: Symbol,
    pub quantity: Decimal,
    pub average_price: Decimal,
    pub market_price: Decimal,
}

/// State of the account when trading starts.
pub struct StartupAccountSync {
    pub cash: Decimal,
    pub cash_balances: Vec<(String, Decimal)>,
    pub holdings: Vec<BrokerageHolding>,
    pub open_orders: Vec<Order>,
}

/// A holding to be set in the portfolio, with its market price where known.
#[derive(Clone, Copy, Debug, PartialEq, Eq, Structural)]
pub struct HoldingSeed {
    pub sid: u64,
    pub quantity: Decimal,
    pub average_price: Decimal,
    pub market_price: Option<Decimal>,
}

/// What the portfolio starts with.
pub struct PortfolioSeed {
    /// Cash to set; a brokerage that reports no balance leaves it as it is.
    pub cash: Option<Decimal>,
    pub holdings: Vec<HoldingSeed>,
}

/// The holdings that are set: those that are not empty.
pub open spec fn seeded(holdings: Seq<BrokerageHolding>) -> Seq<HoldingSeed>
    decreases holdings.len(),
{
    if holdings.len() == 0 {
        Seq::empty()
    } else {
        let head = seeded(holdings.drop_last());
        let holding = holdings.last();
        if holding.quantity.mantissa == 0 {
            head
        } else {
            head.push(
                HoldingSeed {
                    sid: holding.symbol.sid,
                    quantity: holding.quantity,
                    average_price: holding.average_price,
                    market_price: if holding.market_price.mantissa > 0 {
                        Some(holding.market_price)
                    } else {
                        None
                    },
                },
            )
        }
    }
}

impl StartupAccountSync {
    /// What the portfolio starts with.
    pub fn portfolio_seed(&self) -> (res: PortfolioSeed)
        ensures
            res.cash == (if self.cash_balances@.len() > 0 {
                Some(self.cash)
            } else {
                None
            }),
            res.holdings@ == seeded(self.holdings@),
    {
        let cash = if self.cash_balances.len() > 0 {
            Some(self.cash)
        } else {
            None
        };
        let mut holdings: Vec<HoldingSeed> = Vec::new();
        let mut i: usize = 0;
        while i < self.holdings.len()
            invariant
                i <= self.holdings@.len(),
                holdings@ == seeded(self.holdings@.take(i as int)),
            decreases self.holdings.len() - i,
        {
            proof {
                assert(self.holdings@.take(i + 1).drop_last() =~= self.holdings@.take(i as int));
                assert(self.holdings@.take(i + 1).last() == self.holdings@[i as int]);
            }
            let holding = &self.holdings[i];
            if !holding.quantity.is_zero() {
                let market_price = if holding.market_price.is_positive() {
                    Some(holding.market_price)
                } else {
                    None
                };
                holdings.push(
                    HoldingSeed {
                        sid: holding.symbol.sid,
                        quantity: holding.quantity,
                        average_price: holding.average_price,
                        market_price,
                    },
                );
            }
            i = i + 1;
        }
        assert(self.holdings@.take(i as int) =~= self.holdings@);
        PortfolioSeed { cash, holdings }
    }
}

/// What goes to the brokerage is the order that was given. A submission, an update
/// or a cancellation is of the same order, with every field as it was; only a
/// market-on-open order goes out as a market order once its market is open. An
/// order that is held is the order itself, turned into a market-on-open order.
pub proof fn law_the_order_itself_is_sent(
    state: RouterView,
    order: Order,
    exchange_open: bool,
    now: u128,
)
    ensures
        match dispatched(state, order, exchange_open, now).1 {
            DispatchAction::Submit(sent) => {
                &&& order.status == OrderStatus::New
                &&& sent.id == order.id
                &&& sent.symbol == order.symbol
                &&& sent.status == order.status
                &&& sent.quantity == order.quantity
                &&& sent.filled_quantity == order.filled_quantity
                &&& sent.average_fill_price == order.average_fill_price
                &&& sent.limit_price == order.limit_price
                &&& sent.brokerage_id == order.brokerage_id
                &&& sent.tag == order.tag
                &&& order.order_type != OrderType::MarketOnOpen ==> sent.order_type
                    == order.order_type
                &&& order.order_type == OrderType::MarketOnOpen ==> sent.order_type
                    == OrderType::Market && exchange_open
            },
            DispatchAction::Held(held) => {
                &&& order.status == OrderStatus::New
                &&& !exchange_open
                &&& held.id == order.id
                &&& held.symbol == order.symbol
                &&& held.status == order.status
                &&& held.quantity == order.quantity
                &&& held.limit_price == order.limit_price
                &&& held.brokerage_id == order.brokerage_id
                &&& held.tag == order.tag
                &&& held.order_type == OrderType::MarketOnOpen
            },
            DispatchAction::Deferred => order.status == OrderStatus::New && order.order_type
                == OrderType::MarketOnOpen && !exchange_open,
            DispatchAction::Cancel(sent) => sent == order && order.status
                == OrderStatus::CancelPending && order.brokerage_id@.len() > 0,
            DispatchAction::Update(sent) => sent == order && order.status
                == OrderStatus::UpdateSubmitted && order.brokerage_id@.len() > 0,
            DispatchAction::Nothing => true,
        },
{
}

/// A new order is sent at once where its market is open and nothing is in the way,
/// and is then on its way; a first submission is sent into a closed market too,
/// unless the order waits for the open.
pub proof fn law_new_orders_are_sent(state: RouterView, order: Order, exchange_open: bool, now: u128)
    requires
        order.status == OrderStatus::New,
        !state.submitted.contains(order.id),
        !state.retry_not_before.dom().contains(order.id),
        exchange_open || (attempts_of(state, order.id) == 0 && order.order_type
            != OrderType::MarketOnOpen),
        attempts_of(state, order.id) < u32::MAX,
    ensures
        ({
            let (after, action) = dispatched(state, order, exchange_open, now);
            &&& action is Submit
            &&& after.submitted.contains(order.id)
            &&& attempts_of(after, order.id) == attempts_of(state, order.id) + 1
            &&& !(dispatched(after, order, exchange_open, now).1 is Submit)
        }),
{
}

/// Deciding about one order changes nothing that is known of another.
pub proof fn law_orders_are_decided_apart(
    state: RouterView,
    order: Order,
    exchange_open: bool,
    now: u128,
    other: i64,
)
    requires
        other != order.id,
    ensures
        ({
            let after = dispatched(state, order, exchange_open, now).0;
            &&& after.submitted.contains(other) == state.submitted.contains(other)
            &&& after.cancel_forwarded.contains(other) == state.cancel_forwarded.contains(other)
            &&& after.update_forwarded.contains(other) == state.update_forwarded.contains(other)
            &&& after.moo_deferred.contains(other) == state.moo_deferred.contains(other)
            &&& attempts_of(after, other) == attempts_of(state, other)
            &&& after.retry_not_before.dom().contains(other) == state.retry_not_before.dom().contains(
                other,
            )
            &&& state.retry_not_before.dom().contains(other) ==> after.retry_not_before[other]
                == state.retry_not_before[other]
            &&& after.applied_filled == state.applied_filled
            &&& after.backoff == state.backoff
        }),
{
}

/// A cancellation and an update of an order are forwarded once.
pub proof fn law_requests_are_forwarded_once(
    state: RouterView,
    order: Order,
    open_now: bool,
    now: u128,
    open_later: bool,
    later: u128,
)
    ensures
        ({
            let (after, action) = dispatched(state, order, open_now, now);
            &&& action is Cancel ==> !(dispatched(after, order, open_later, later).1 is Cancel)
            &&& action is Update ==> !(dispatched(after, order, open_later, later).1 is Update)
        }),
        order.status == OrderStatus::CancelPending && order.brokerage_id@.len() > 0
            && !state.cancel_forwarded.contains(order.id) ==> dispatched(state, order, open_now, now).1
            is Cancel,
        order.status == OrderStatus::UpdateSubmitted && order.brokerage_id@.len() > 0
            && !state.update_forwarded.contains(order.id) ==> dispatched(state, order, open_now, now).1
            is Update,
{
}

/// An order that the brokerage accepts becomes submitted under the ids it was given,
/// and is otherwise unchanged; its event says so. Where the order is not new the
/// acceptance changes nothing.
pub proof fn law_accepted_orders_are_submitted(
    before: RouterView,
    order_id: i64,
    brokerage_ids: Vec<String>,
    order: Order,
    now: DateTime,
    instant: u128,
    after: RouterView,
    effect: RouterEffect,
)
    requires
        applied(
            before,
            BrokerageEvent::Submitted { order_id, brokerage_ids },
            Some(order),
            now,
            instant,
            after,
            effect,
        ),
    ensures
        order.status != OrderStatus::New ==> after == before && effect is Ignored,
        order.status == OrderStatus::New ==> (effect matches RouterEffect::OrderChanged {
            order: changed,
            event,
        } && {
            &&& changed.status == OrderStatus::Submitted
            &&& changed.brokerage_id == brokerage_ids
            &&& changed.id == order.id
            &&& changed.symbol == order.symbol
            &&& changed.quantity == order.quantity
            &&& changed.limit_price == order.limit_price
            &&& changed.order_type == order.order_type
            &&& changed.tag == order.tag
            &&& event.order_id == order.id
            &&& event.symbol == order.symbol
            &&& event.status == OrderStatus::Submitted
            &&& event.utc_time == now
            &&& event.fill_quantity.mantissa == 0
            &&& event.order_fields matches Some(fields) && fields.quantity == order.quantity
                && fields.limit_price == order.limit_price && fields.order_type == order.order_type
                && fields.brokerage_id@ == brokerage_ids@ && fields.tag == order.tag
            &&& attempts_of(after, order_id) == 0
            &&& !after.retry_not_before.dom().contains(order_id)
            &&& after.applied_filled == before.applied_filled
            &&& after.submitted == before.submitted
        }),
{
}

/// An order that the brokerage declines becomes invalid, for the reason it gave,
/// and is otherwise unchanged; nothing is booked for it and it is not tried again.
pub proof fn law_declined_orders_are_invalid(
    before: RouterView,
    order_id: i64,
    message: String,
    order: Order,
    now: DateTime,
    instant: u128,
    after: RouterView,
    effect: RouterEffect,
)
    requires
        applied(
            before,
            BrokerageEvent::Invalid { order_id, message },
            Some(order),
            now,
            instant,
            after,
            effect,
        ),
    ensures
        effect matches RouterEffect::OrderChanged { order: changed, event } && {
            &&& changed.status == OrderStatus::Invalid
            &&& changed.id == order.id
            &&& changed.symbol == order.symbol
            &&& changed.quantity == order.quantity
            &&& changed.brokerage_id == order.brokerage_id
            &&& event.order_id == order.id
            &&& event.symbol == order.symbol
            &&& event.status == OrderStatus::Invalid
            &&& event.utc_time == now
            &&& event.message@ == message@
            &&& event.fill_quantity.mantissa == 0
            &&& event.order_fee.mantissa == 0
        },
        attempts_of(after, order_id) == 0,
        !after.retry_not_before.dom().contains(order_id),
        after.applied_filled == before.applied_filled,
{
}

/// A report of a fill is published as the brokerage made it: at its price, with its
/// commission, of the order's own security, and without a message. A status that is
/// no fill carries a message and never touches what is booked.
pub proof fn law_reports_are_published_as_made(
    before: RouterView,
    order_id: i64,
    symbol: Symbol,
    status: OrderStatus,
    fill_price: Decimal,
    total: Decimal,
    commission: Option<Decimal>,
    order: Order,
    now: DateTime,
    instant: u128,
    after: RouterView,
    effect: RouterEffect,
)
    requires
        symbol.sid == order.symbol.sid,
        applied(
            before,
            BrokerageEvent::Status {
                order_id,
                symbol,
                status,
                fill_price,
                cumulative_filled: total,
                commission,
            },
            Some(order),
            now,
            instant,
            after,
            effect,
        ),
    ensures
        effect is Ignored <==> order.status == status && status != OrderStatus::Filled && status
            != OrderStatus::PartiallyFilled,
        effect matches RouterEffect::Fill { event } ==> {
            &&& status == OrderStatus::Filled || status == OrderStatus::PartiallyFilled
            &&& event.fill_price == fill_price
            &&& event.status == status
            &&& event.order_id == order.id
            &&& event.symbol == order.symbol
            &&& event.utc_time == now
            &&& event.message@.len() == 0
            &&& commission matches Some(fee) ==> event.order_fee == fee
            &&& commission is None ==> event.order_fee.mantissa == 0
            &&& applied_of(after, order_id) == total
            &&& event.order_fields matches Some(fields) && fields.quantity == order.quantity
                && fields.limit_price == order.limit_price && fields.order_type == order.order_type
        },
        effect matches RouterEffect::Publish { event } ==> {
            &&& event.status == status
            &&& event.order_id == order.id
            &&& event.symbol == order.symbol
            &&& event.fill_price == fill_price
            &&& after == before
            &&& !status.fills() ==> event.message@.len() > 0
        },
        !(effect is Fill) ==> after == before,
{
    reveal_strlit("");
    reveal_strlit("Brokerage order canceled");
    reveal_strlit("Brokerage rejected order");
    reveal_strlit("Brokerage order submitted");
    reveal_strlit("Brokerage order status ");
}

/// Statuses are told apart by their messages.
pub proof fn law_statuses_have_messages_of_their_own(a: OrderStatus, b: OrderStatus)
    requires
        a != b,
    ensures
        status_name(a) != status_name(b),
{
    reveal_strlit("New");
    reveal_strlit("Submitted");
    reveal_strlit("PartiallyFilled");
    reveal_strlit("Filled");
    reveal_strlit("Canceled");
    reveal_strlit("Invalid");
    reveal_strlit("CancelPending");
    reveal_strlit("UpdateSubmitted");
    let x = status_name(a);
    let y = status_name(b);
    if x == y {
        assert(x.len() == y.len());
        assert(x[0] == y[0]);
        assert(x[1] == y[1]);
    }
}

/// The fee of a fill is the one that the brokerage charged, and the model's only
/// where it charged none.
pub proof fn law_brokerage_fees_come_first(event: OrderEvent, model_fee: Decimal)
    ensures
        event.order_fee.mantissa > 0 ==> fee_of(event, model_fee) == event.order_fee,
        event.order_fee.mantissa <= 0 ==> fee_of(event, model_fee) == model_fee,
{
}

/// The portfolio starts with the holdings that the brokerage reports, in their
/// order, as they are; empty ones are left out. A holding added to the report is
/// added to the portfolio and changes none before it.
pub proof fn law_holdings_are_seeded_as_reported(
    holdings: Seq<BrokerageHolding>,
    new: BrokerageHolding,
)
    ensures
        new.quantity.mantissa == 0 ==> seeded(holdings.push(new)) == seeded(holdings),
        new.quantity.mantissa != 0 ==> {
            let after = seeded(holdings.push(new));
            &&& after.len() == seeded(holdings).len() + 1
            &&& after.drop_last() == seeded(holdings)
            &&& after.last().sid == new.symbol.sid
            &&& after.last().quantity == new.quantity
            &&& after.last().average_price == new.average_price
            &&& new.market_price.mantissa > 0 ==> after.last().market_price == Some(
                new.market_price,
            )
            &&& new.market_price.mantissa <= 0 ==> after.last().market_price is None
        },
        seeded(Seq::empty()).len() == 0,
{
    assert(holdings.push(new).drop_last() =~= holdings);
    if new.quantity.mantissa != 0 {
        assert(seeded(holdings.push(new)).drop_last() =~= seeded(holdings));
    }
}

/// Only futures and options on them trade outside the regular session: orders of anything
/// else that failed once are held while their market is closed, and then wait for its
/// open.
pub proof fn law_retries_wait_for_the_market(state: RouterView, order: Order, now: u128)
    requires
        order.status == OrderStatus::New,
        may_submit(state, order.id, now),
        attempts_of(state, order.id) > 0,
        order.order_type != OrderType::MarketOnOpen,
    ensures
        order.symbol.security_type == SecurityType::Future || order.symbol.security_type
            == SecurityType::FutureOption ==> dispatched(state, order, false, now).1 is Submit,
        order.symbol.security_type != SecurityType::Future && order.symbol.security_type
            != SecurityType::FutureOption ==> dispatched(state, order, false, now).1 is Held
            && attempts_of(dispatched(state, order, false, now).0, order.id) == 0,
        dispatched(state, order, true, now).1 is Submit,
{
}

/// An order on its way is not sent again, and one whose wait is not over is not sent yet;
/// nothing else is in the way.
pub proof fn law_what_keeps_an_order_back(state: RouterView, id: i64, now: u128)
    ensures
        state.submitted.contains(id) ==> !may_submit(state, id, now),
        state.retry_not_before.dom().contains(id) && now < state.retry_not_before[id]
            ==> !may_submit(state, id, now),
        !state.submitted.contains(id) && !state.retry_not_before.dom().contains(id) ==> may_submit(
            state,
            id,
            now,
        ),
        !state.submitted.contains(id) && state.retry_not_before.dom().contains(id) && now
            >= state.retry_not_before[id] ==> may_submit(state, id, now),
{
}

/// A status that is no fill says what it is.
pub proof fn law_messages_say_the_status(status: OrderStatus)
    ensures
        message_of(OrderStatus::Canceled) == "Brokerage order canceled"@,
        message_of(OrderStatus::Invalid) == "Brokerage rejected order"@,
        message_of(OrderStatus::Submitted) == "Brokerage order submitted"@,
        status != OrderStatus::Canceled && status != OrderStatus::Invalid && status
            != OrderStatus::Submitted ==> message_of(status) == "Brokerage order status "@
            + status_name(status),
        status_name(OrderStatus::New) == "New"@,
        status_name(OrderStatus::CancelPending) == "CancelPending"@,
        status_name(OrderStatus::UpdateSubmitted) == "UpdateSubmitted"@,
{
}

/// Orders are decided about one after the other, in their order, each after all before it.
pub proof fn law_orders_are_decided_in_turn(
    state: RouterView,
    orders: Seq<(Order, bool)>,
    order: Order,
    open: bool,
    now: u128,
)
    ensures
        ({
            let (middle, actions) = dispatched_all(state, orders, now);
            let (after, action) = dispatched(middle, order, open, now);
            dispatched_all(state, orders.push((order, open)), now) == (after, actions.push(action))
        }),
        dispatched_all(state, Seq::empty(), now) == (state, Seq::<DispatchAction>::empty()),
{
    assert(orders.push((order, open)).drop_last() =~= orders);
}

/// What the settlement of a fill leads to: its event, and what is booked.
pub open spec fn settled(
    before: OrderEvent,
    order: Order,
    model_fee: Decimal,
    buying_power: Result<(), String>,
    has_portfolio: bool,
    after: OrderEvent,
    booked: Option<PortfolioFill>,
) -> bool {
    match buying_power {
        Err(message) => {
            &&& plain_event(
                after,
                order.id,
                order.symbol,
                before.utc_time,
                OrderStatus::Invalid,
                message@,
            )
            &&& booked is None
        },
        Ok(_) => {
            let fee = fee_of(before, model_fee);
            &&& after == (OrderEvent { order_fee: fee, ..before })
            &&& booked == (if has_portfolio {
                Some(
                    PortfolioFill {
                        sid: order.symbol.sid,
                        price: before.fill_price,
                        quantity: before.fill_quantity,
                        fee,
                    },
                )
            } else {
                None
            })
        },
    }
}

/// A fill is booked as it happened: in the security of its order, at its price and over its
/// quantity, with the fee that its event shows. A fill that cannot be paid for is refused,
/// for the reason given, and books nothing.
pub proof fn law_fills_are_booked_as_they_happened(
    before: OrderEvent,
    order: Order,
    model_fee: Decimal,
    buying_power: Result<(), String>,
    has_portfolio: bool,
    after: OrderEvent,
    booked: Option<PortfolioFill>,
)
    requires
        settled(before, order, model_fee, buying_power, has_portfolio, after, booked),
    ensures
        booked is Some <==> has_portfolio && buying_power is Ok,
        booked matches Some(fill) ==> {
            &&& fill.sid == order.symbol.sid
            &&& fill.price == before.fill_price
            &&& fill.quantity == before.fill_quantity
            &&& fill.fee == after.order_fee
        },
        buying_power is Ok ==> {
            &&& after.fill_quantity == before.fill_quantity
            &&& after.fill_price == before.fill_price
            &&& after.status == before.status
            &&& after.order_id == before.order_id
            &&& before.order_fee.mantissa > 0 ==> after.order_fee == before.order_fee
            &&& before.order_fee.mantissa <= 0 ==> after.order_fee == model_fee
        },
        buying_power matches Err(message) ==> {
            &&& after.status == OrderStatus::Invalid
            &&& after.message@ == message@
            &&& after.order_id == order.id
            &&& after.fill_quantity.mantissa == 0
        },
{
}

/// An order that is held for the open is remembered as held until it goes out or its
/// submission is over, and going out ends its wait.
pub proof fn law_held_orders_are_remembered(
    state: RouterView,
    order: Order,
    exchange_open: bool,
    now: u128,
)
    ensures
        ({
            let (after, action) = dispatched(state, order, exchange_open, now);
            &&& action is Deferred ==> after.moo_deferred.contains(order.id)
            &&& action is Deferred ==> attempts_of(after, order.id) == attempts_of(state, order.id)
            &&& action is Submit && order.order_type == OrderType::MarketOnOpen
                ==> !after.moo_deferred.contains(order.id)
            &&& action is Submit || action is Held ==> !after.retry_not_before.dom().contains(
                order.id,
            )
            &&& action is Held ==> attempts_of(after, order.id) == 0
            &&& action is Held || action is Deferred ==> !after.submitted.contains(order.id)
        }),
{
}

/// Once a submission is accepted or declined, nothing of its attempts is kept, and what is
/// known of other orders stays.
pub proof fn law_settled_submissions_are_forgotten(
    before: RouterView,
    event: BrokerageEvent,
    order: Order,
    now: DateTime,
    instant: u128,
    after: RouterView,
    effect: RouterEffect,
    id: i64,
    other: i64,
)
    requires
        applied(before, event, Some(order), now, instant, after, effect),
        order.status == OrderStatus::New,
        (event matches BrokerageEvent::Submitted { order_id, .. } && order_id == id) || (
        event matches BrokerageEvent::Invalid { order_id, .. } && order_id == id),
        other != id,
    ensures
        attempts_of(after, id) == 0,
        !after.retry_not_before.dom().contains(id),
        !after.moo_deferred.contains(id),
        after.submitted == before.submitted,
        attempts_of(after, other) == attempts_of(before, other),
        after.moo_deferred.contains(other) == before.moo_deferred.contains(other),
        after.retry_not_before.dom().contains(other) == before.retry_not_before.dom().contains(
            other,
        ),
        after.applied_filled == before.applied_filled,
{
}

} // verus!
