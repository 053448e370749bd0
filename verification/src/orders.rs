//! Orders, their events and how fills are settled.

use crate::decimal::Decimal;
use crate::model::Symbol;
use crate::time::DateTime;
use vstd::prelude::*;
use vstd::string::*;

verus! {

#[derive(Clone, Copy, Debug, PartialEq, Eq, Structural)]
pub enum OrderStatus {
    New,
    Submitted,
    PartiallyFilled,
    Filled,
    Canceled,
    Invalid,
    CancelPending,
    UpdateSubmitted,
}

#[derive(Clone, Copy, Debug, PartialEq, Eq, Structural)]
pub enum OrderType {
    Market,
    Limit,
    StopMarket,
    StopLimit,
    MarketOnOpen,
    MarketOnClose,
    Update,
    Cancel,
}

impl OrderStatus {
    pub open spec fn fills(self) -> bool {
        self == OrderStatus::Filled || self == OrderStatus::PartiallyFilled
    }

    /// Whether the status reports a fill.
    pub fn is_fill(self) -> (res: bool)
        ensures
            res == self.fills(),
    {
        self == OrderStatus::Filled || self == OrderStatus::PartiallyFilled
    }

    pub open spec fn closed(self) -> bool {
        self == OrderStatus::Filled || self == OrderStatus::Canceled || self
            == OrderStatus::Invalid
    }

    /// Whether nothing more can happen to an order of this status.
    pub fn is_closed(self) -> (res: bool)
        ensures
            res == self.closed(),
    {
        self == OrderStatus::Filled || self == OrderStatus::Canceled || self
            == OrderStatus::Invalid
    }
}

/// An order, known by its id.
pub struct Order {
    pub id: i64,
    pub symbol: Symbol,
    pub order_type: OrderType,
    pub status: OrderStatus,
    pub quantity: Decimal,
    pub filled_quantity: Decimal,
    pub average_fill_price: Decimal,
    pub limit_price: Option<Decimal>,
    pub brokerage_id: Vec<String>,
    pub tag: String,
}

/// Fields of an order that its events carry along.
pub struct OrderFields {
    pub order_type: OrderType,
    pub quantity: Decimal,
    pub filled_quantity: Decimal,
    pub average_fill_price: Decimal,
    pub limit_price: Option<Decimal>,
    pub brokerage_id: Vec<String>,
    pub tag: String,
}

impl OrderFields {
    /// Whether these are the fields of an order.
    pub open spec fn are_of(&self, order: Order) -> bool {
        &&& self.order_type == order.order_type
        &&& self.quantity == order.quantity
        &&& self.filled_quantity == order.filled_quantity
        &&& self.average_fill_price == order.average_fill_price
        &&& self.limit_price == order.limit_price
        &&& self.brokerage_id@ == order.brokerage_id@
        &&& self.tag == order.tag
    }
}

/// Something that happened to an order.
pub struct OrderEvent {
    pub order_id: i64,
    pub symbol: Symbol,
    pub utc_time: DateTime,
    pub status: OrderStatus,
    pub fill_price: Decimal,
    pub fill_quantity: Decimal,
    pub order_fee: Decimal,
    pub message: String,
    /// Fields of the order, where they are known.
    pub order_fields: Option<OrderFields>,
}

/// Whether an event carries the fields of an order.
pub open spec fn carries_fields(event: OrderEvent, order: Order) -> bool {
    event.order_fields matches Some(fields) && fields.are_of(order)
}

impl Order {
    /// A copy of the fields that events carry along.
    pub fn fields(&self) -> (res: OrderFields)
        ensures
            res.are_of(*self),
    {
        let mut brokerage_id: Vec<String> = Vec::new();
        let mut i: usize = 0;
        while i < self.brokerage_id.len()
            invariant
                i <= self.brokerage_id@.len(),
                brokerage_id@ == self.brokerage_id@.take(i as int),
            decreases self.brokerage_id.len() - i,
        {
            brokerage_id.push(self.brokerage_id[i].clone());
            assert(brokerage_id@ =~= self.brokerage_id@.take(i + 1));
            i = i + 1;
        }
        assert(self.brokerage_id@.take(i as int) =~= self.brokerage_id@);
        OrderFields {
            order_type: self.order_type,
            quantity: self.quantity,
            filled_quantity: self.filled_quantity,
            average_fill_price: self.average_fill_price,
            limit_price: self.limit_price,
            brokerage_id,
            tag: self.tag.clone(),
        }
    }

    /// A new market order.
    pub fn market(id: i64, symbol: Symbol, quantity: Decimal, tag: &str) -> (res: Order)
        ensures
            res.id == id,
            res.symbol == symbol,
            res.order_type == OrderType::Market,
            res.status == OrderStatus::New,
            res.quantity == quantity,
            res.filled_quantity == Decimal::spec_zero(),
            res.average_fill_price == Decimal::spec_zero(),
            res.limit_price is None,
            res.brokerage_id@.len() == 0,
            res.tag@ == tag@,
    {
        Order {
            id,
            symbol,
            order_type: OrderType::Market,
            status: OrderStatus::New,
            quantity,
            filled_quantity: Decimal::zero(),
            average_fill_price: Decimal::zero(),
            limit_price: None,
            brokerage_id: Vec::new(),
            tag: tag.to_owned(),
        }
    }
}

/// An event of an order that carries no fill.
pub open spec fn plain_event(
    event: OrderEvent,
    order_id: i64,
    symbol: Symbol,
    utc_time: DateTime,
    status: OrderStatus,
    message: Seq<char>,
) -> bool {
    &&& event.order_id == order_id
    &&& event.symbol == symbol
    &&& event.utc_time == utc_time
    &&& event.status == status
    &&& event.fill_price == Decimal::spec_zero()
    &&& event.fill_quantity == Decimal::spec_zero()
    &&& event.order_fee == Decimal::spec_zero()
    &&& event.message@ == message
}

impl OrderEvent {
    /// An event without a fill.
    pub fn new(
        order_id: i64,
        symbol: Symbol,
        utc_time: DateTime,
        status: OrderStatus,
        message: String,
    ) -> (res: OrderEvent)
        ensures
            plain_event(res, order_id, symbol, utc_time, status, message@),
            res.order_fields is None,
    {
        OrderEvent {
            order_id,
            symbol,
            utc_time,
            status,
            fill_price: Decimal::zero(),
            fill_quantity: Decimal::zero(),
            order_fee: Decimal::zero(),
            message,
            order_fields: None,
        }
    }

    /// Lets the event carry the fields of its order.
    pub fn apply_order_fields(&mut self, order: &Order)
        ensures
            carries_fields(*final(self), *order),
            *final(self) == (OrderEvent {
                order_fields: final(self).order_fields,
                ..*old(self)
            }),
    {
        self.order_fields = Some(order.fields());
    }

    /// The event of an order that was refused.
    pub fn invalid(order_id: i64, symbol: Symbol, utc_time: DateTime, message: String) -> (res:
        OrderEvent)
        ensures
            plain_event(res, order_id, symbol, utc_time, OrderStatus::Invalid, message@),
            res.order_fields is None,
    {
        OrderEvent::new(order_id, symbol, utc_time, OrderStatus::Invalid, message)
    }
}

/// Settles a fill. The fee of the order is charged to the event and returned,
/// unless the account lacks the buying power: then the event turns into a
/// refusal. Events that are no fills, or belong to no known order, stay as they
/// are.
pub fn settle_fill_event_bridge(
    event: &mut OrderEvent,
    order: Option<&Order>,
    fee: Decimal,
    buying_power: Result<(), String>,
) -> (res: Option<Decimal>)
    ensures
        match order {
            Some(order) if old(event).status.fills() => match buying_power {
                Ok(_) => {
                    &&& res == Some(fee)
                    &&& *final(event) == (OrderEvent { order_fee: fee, ..*old(event) })
                },
                Err(message) => {
                    &&& res is None
                    &&& plain_event(
                        *final(event),
                        order.id,
                        order.symbol,
                        old(event).utc_time,
                        OrderStatus::Invalid,
                        message@,
                    )
                    &&& final(event).order_fields is None
                },
            },
            _ => res is None && *final(event) == *old(event),
        },
        bridged(*old(event), order, fee, buying_power, *final(event), res),
{
    if !event.status.is_fill() {
        return None;
    }
    let order = match order {
        Some(order) => order,
        None => {
            return None;
        },
    };
    match buying_power {
        Ok(_) => {
            event.order_fee = fee;
            Some(fee)
        },
        Err(message) => {
            let refused = OrderEvent::invalid(
                order.id,
                order.symbol.duplicate(),
                event.utc_time,
                message,
            );
            *event = refused;
            None
        },
    }
}

/// Only fills fill, and only orders that were filled, canceled or refused are closed.
pub proof fn law_statuses(status: OrderStatus)
    ensures
        status.fills() <==> status == OrderStatus::Filled || status == OrderStatus::PartiallyFilled,
        status.closed() <==> status == OrderStatus::Filled || status == OrderStatus::Canceled
            || status == OrderStatus::Invalid,
        status == OrderStatus::New || status == OrderStatus::Submitted ==> !status.fills()
            && !status.closed(),
{
}

/// An event without a fill is of its own order, security, time and status, says what it is
/// to say and moves neither money nor shares.
pub proof fn law_plain_events_move_nothing(
    event: OrderEvent,
    order_id: i64,
    symbol: Symbol,
    time: DateTime,
    status: OrderStatus,
    message: Seq<char>,
)
    requires
        plain_event(event, order_id, symbol, time, status, message),
    ensures
        event.order_id == order_id,
        event.symbol == symbol,
        event.utc_time == time,
        event.status == status,
        event.message@ == message,
        event.fill_quantity.mantissa == 0,
        event.fill_price.mantissa == 0,
        event.order_fee.mantissa == 0,
{
}

/// The fields that an event carries are those of its order, each of them.
pub proof fn law_events_carry_their_order(event: OrderEvent, order: Order)
    requires
        carries_fields(event, order),
    ensures
        event.order_fields matches Some(fields) && {
            &&& fields.order_type == order.order_type
            &&& fields.quantity == order.quantity
            &&& fields.filled_quantity == order.filled_quantity
            &&& fields.average_fill_price == order.average_fill_price
            &&& fields.limit_price == order.limit_price
            &&& fields.brokerage_id@ == order.brokerage_id@
            &&& fields.tag == order.tag
        },
{
}

/// What the settlement of an event leads to: the event after it, and the fee charged.
pub open spec fn bridged(
    before: OrderEvent,
    order: Option<&Order>,
    fee: Decimal,
    buying_power: Result<(), String>,
    after: OrderEvent,
    charged: Option<Decimal>,
) -> bool {
    if !before.status.fills() || order is None {
        charged is None && after == before
    } else {
        match buying_power {
            Ok(_) => charged == Some(fee) && after == (OrderEvent { order_fee: fee, ..before }),
            Err(message) => charged is None && plain_event(
                after,
                order->Some_0.id,
                order->Some_0.symbol,
                before.utc_time,
                OrderStatus::Invalid,
                message@,
            ),
        }
    }
}

/// The fee of a fill is charged to its event, which otherwise stays as it is; a fill that
/// cannot be paid for turns into a refusal without a fee, and anything else is left alone.
pub proof fn law_fees_are_charged_to_fills(
    before: OrderEvent,
    order: Option<&Order>,
    fee: Decimal,
    buying_power: Result<(), String>,
    after: OrderEvent,
    charged: Option<Decimal>,
)
    requires
        bridged(before, order, fee, buying_power, after, charged),
    ensures
        charged is Some <==> (before.status == OrderStatus::Filled || before.status
            == OrderStatus::PartiallyFilled) && order is Some && buying_power is Ok,
        charged matches Some(amount) ==> amount == fee && after.order_fee == fee
            && after.fill_quantity == before.fill_quantity && after.fill_price == before.fill_price
            && after.status == before.status,
        charged is None && after != before ==> after.status == OrderStatus::Invalid
            && after.order_fee.mantissa == 0 && after.fill_quantity.mantissa == 0,
        before.status != OrderStatus::Filled && before.status != OrderStatus::PartiallyFilled
            ==> after == before,
{
}

} // verus!
