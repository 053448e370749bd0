//! The worker that talks to a brokerage for a live run.

use crate::decimal::Decimal;
use crate::live::transaction_handler::BrokerageEvent;
use crate::name_map::NameMap;
use crate::orders::{Order, OrderStatus};
use crate::text::texts;
use crate::time::Duration;
use std::collections::HashMap;
use vstd::prelude::*;
use vstd::string::*;

verus! {

broadcast use vstd::std_specs::hash::group_hash_axioms;

/// How the brokerage answered a submission.
pub enum SubmitOutcome {
    /// Accepted under these ids.
    Accepted(Vec<String>),
    /// Declined without a reason.
    Declined,
    /// The request did not come through.
    Failed(String),
}

/// The report that a submission leads to, and the ids known afterwards.
pub open spec fn submission_reported(
    order_id: i64,
    outcome: SubmitOutcome,
    before: Map<Seq<char>, i64>,
    after: Map<Seq<char>, i64>,
    report: BrokerageEvent,
) -> bool {
    match outcome {
        SubmitOutcome::Accepted(ids) => {
            &&& report == (BrokerageEvent::Submitted { order_id, brokerage_ids: ids })
            &&& after == with_ids(before, texts(ids@), order_id)
        },
        SubmitOutcome::Declined => {
            &&& report matches BrokerageEvent::Invalid { order_id: id, message } && id == order_id
                && message@ == "Brokerage rejected order submission (no reason reported)"@
            &&& after == before
        },
        SubmitOutcome::Failed(error) => {
            &&& report matches BrokerageEvent::SubmitFailed { order_id: id, message } && id
                == order_id && message@ == "Brokerage order submission failed: "@ + error@
            &&& after == before
        },
    }
}

/// What a submission leads to. The ids of an accepted order are noted, so that
/// later reports find the order.
pub fn handle_submit(
    order_id: i64,
    outcome: SubmitOutcome,
    brokerage_to_engine: &mut NameMap<i64>,
) -> (res: BrokerageEvent)
    requires
        old(brokerage_to_engine).wf(),
    ensures
        final(brokerage_to_engine).wf(),
        submission_reported(
            order_id,
            outcome,
            old(brokerage_to_engine)@,
            final(brokerage_to_engine)@,
            res,
        ),
{
    match outcome {
        SubmitOutcome::Accepted(brokerage_ids) => {
            let ghost id_texts = texts(brokerage_ids@);
            let mut i: usize = 0;
            assert(id_texts.take(0) =~= Seq::<Seq<char>>::empty());
            while i < brokerage_ids.len()
                invariant
                    i <= brokerage_ids@.len(),
                    id_texts == texts(brokerage_ids@),
                    brokerage_to_engine.wf(),
                    brokerage_to_engine@ == with_ids(
                        old(brokerage_to_engine)@,
                        id_texts.take(i as int),
                        order_id,
                    ),
                decreases brokerage_ids.len() - i,
            {
                proof {
                    assert(id_texts.take(i + 1).drop_last() =~= id_texts.take(i as int));
                    assert(id_texts.take(i + 1).last() == brokerage_ids@[i as int]@);
                }
                brokerage_to_engine.insert(brokerage_ids[i].clone(), order_id);
                i = i + 1;
            }
            assert(id_texts.take(i as int) =~= id_texts);
            BrokerageEvent::Submitted { order_id, brokerage_ids }
        },
        SubmitOutcome::Declined => BrokerageEvent::Invalid {
            order_id,
            message: "Brokerage rejected order submission (no reason reported)".to_owned(),
        },
        SubmitOutcome::Failed(error) => BrokerageEvent::SubmitFailed {
            order_id,
            message: "Brokerage order submission failed: ".to_owned().concat(error.as_str()),
        },
    }
}

/// A map with every id of an order added.
pub open spec fn with_ids(map: Map<Seq<char>, i64>, ids: Seq<Seq<char>>, order_id: i64) -> Map<
    Seq<char>,
    i64,
>
    decreases ids.len(),
{
    if ids.len() == 0 {
        map
    } else {
        with_ids(map, ids.drop_last(), order_id).insert(ids.last(), order_id)
    }
}

/// The engine's order behind the first known id.
pub open spec fn first_known(ids: Seq<Seq<char>>, known: Map<Seq<char>, i64>) -> Option<i64>
    decreases ids.len(),
{
    if ids.len() == 0 {
        None
    } else if known.dom().contains(ids[0]) {
        Some(known[ids[0]])
    } else {
        first_known(ids.skip(1), known)
    }
}

/// The engine's order that an account order belongs to: the one behind its
/// first known id, or the one whose id it carries if that is an order of the
/// engine.
pub open spec fn engine_order(order: Order, known: Map<Seq<char>, i64>) -> Option<i64> {
    match first_known(texts(order.brokerage_id@), known) {
        Some(id) => Some(id),
        None => if order.id > 0 && known.values().contains(order.id) {
            Some(order.id)
        } else {
            None
        },
    }
}

pub fn resolve_engine_order_id(order: &Order, brokerage_to_engine: &NameMap<i64>) -> (res: Option<i64>)
    requires
        brokerage_to_engine.wf(),
    ensures
        res == engine_order(*order, brokerage_to_engine@),
{
    let ghost ids = texts(order.brokerage_id@);
    let mut i: usize = 0;
    assert(ids.skip(0) =~= ids);
    while i < order.brokerage_id.len()
        invariant
            i <= order.brokerage_id@.len(),
            ids == texts(order.brokerage_id@),
            brokerage_to_engine.wf(),
            first_known(ids, brokerage_to_engine@) == first_known(
                ids.skip(i as int),
                brokerage_to_engine@,
            ),
        decreases order.brokerage_id.len() - i,
    {
        assert(ids.skip(i as int)[0] == order.brokerage_id@[i as int]@);
        assert(ids.skip(i as int).skip(1) =~= ids.skip(i + 1));
        if let Some(engine_id) = brokerage_to_engine.get(order.brokerage_id[i].as_str()) {
            return Some(*engine_id);
        }
        i = i + 1;
    }
    if order.id > 0 && has_value(brokerage_to_engine, order.id) {
        return Some(order.id);
    }
    None
}

fn has_value(map: &NameMap<i64>, value: i64) -> (res: bool)
    requires
        map.wf(),
    ensures
        res == map@.values().contains(value),
{
    let mut i: usize = 0;
    while i < map.entries.len()
        invariant
            i <= map.entries@.len(),
            map.wf(),
            forall|j: int| 0 <= j < i ==> (#[trigger] map.entries@[j]).1 != value,
        decreases map.entries.len() - i,
    {
        if map.entries[i].1 == value {
            proof {
                map.lemma_entry(i as int);
                let key = map.entries@[i as int].0@;
                assert(map@.dom().contains(key) && map@[key] == value);
            }
            return true;
        }
        i = i + 1;
    }
    proof {
        if map@.values().contains(value) {
            let key = choose|key: Seq<char>| #[trigger] map@.dom().contains(key) && map@[key]
                == value;
            let j = map.index_of(key);
            assert(map.has(key));
            assert(map.entries@[j].0@ == key);
        }
    }
    false
}

/// What is known of an order from earlier polls.
#[derive(Clone, Copy, Debug, PartialEq, Eq, Structural)]
pub struct TrackedBrokerageOrder {
    pub status: Option<OrderStatus>,
    pub filled: Decimal,
}

/// What earlier polls told of an order.
pub open spec fn polled_of(polled: Map<i64, TrackedBrokerageOrder>, id: i64) -> TrackedBrokerageOrder {
    if polled.dom().contains(id) {
        polled[id]
    } else {
        TrackedBrokerageOrder { status: None, filled: Decimal::spec_zero() }
    }
}

/// What one account order of a poll leads to: a report, when the order is one of
/// the engine's and its status or filled quantity has changed.
pub open spec fn polled_one(
    polled: Map<i64, TrackedBrokerageOrder>,
    order: Order,
    known: Map<Seq<char>, i64>,
) -> (Map<i64, TrackedBrokerageOrder>, Option<BrokerageEvent>) {
    match engine_order(order, known) {
        Some(id) if polled_of(polled, id).status != Some(order.status)
            || !order.filled_quantity.same(polled_of(polled, id).filled) => (
            polled.insert(
                id,
                TrackedBrokerageOrder {
                    status: Some(order.status),
                    filled: order.filled_quantity,
                },
            ),
            Some(
                BrokerageEvent::Status {
                    order_id: id,
                    symbol: order.symbol,
                    status: order.status,
                    fill_price: order.average_fill_price,
                    cumulative_filled: order.filled_quantity,
                    commission: None,
                },
            ),
        ),
        _ => (polled, None),
    }
}

/// What a poll leads to: the reports of its account orders, in order.
pub open spec fn polled_all(
    polled: Map<i64, TrackedBrokerageOrder>,
    orders: Seq<Order>,
    known: Map<Seq<char>, i64>,
) -> (Map<i64, TrackedBrokerageOrder>, Seq<BrokerageEvent>)
    decreases orders.len(),
{
    if orders.len() == 0 {
        (polled, Seq::empty())
    } else {
        let (before, events) = polled_all(polled, orders.drop_last(), known);
        let (after, event) = polled_one(before, orders.last(), known);
        match event {
            Some(event) => (after, events.push(event)),
            None => (after, events),
        }
    }
}

/// A poll that finds an account order as the last one did reports nothing of it.
pub proof fn law_unchanged_order_is_not_reported(
    polled: Map<i64, TrackedBrokerageOrder>,
    order: Order,
    known: Map<Seq<char>, i64>,
)
    ensures
        ({
            let after = polled_one(polled, order, known).0;
            polled_one(after, order, known) == (after, None::<BrokerageEvent>)
        }),
{
}

/// Takes in one account order of a poll.
fn poll_account_order(
    account_order: &Order,
    polled: &mut HashMap<i64, TrackedBrokerageOrder>,
    brokerage_to_engine: &NameMap<i64>,
) -> (res: Option<BrokerageEvent>)
    requires
        brokerage_to_engine.wf(),
        account_order.filled_quantity.wf(),
        polled_wf(old(polled)@),
    ensures
        polled_wf(final(polled)@),
        (final(polled)@, res) == polled_one(old(polled)@, *account_order, brokerage_to_engine@),
{
    let engine_order_id: i64 = match resolve_engine_order_id(account_order, brokerage_to_engine) {
        Some(id) => id,
        None => {
            return None;
        },
    };
    let entry = match polled.get(&engine_order_id) {
        Some(entry) => *entry,
        None => TrackedBrokerageOrder { status: None, filled: Decimal::zero() },
    };
    assert(entry == polled_of(polled@, engine_order_id));
    let status_changed = match entry.status {
        Some(status) => status != account_order.status,
        None => true,
    };
    let fill_changed = !account_order.filled_quantity.equals(entry.filled);
    if !status_changed && !fill_changed {
        return None;
    }
    let ghost before = polled@;
    let update = TrackedBrokerageOrder {
        status: Some(account_order.status),
        filled: account_order.filled_quantity,
    };
    polled.insert(engine_order_id, update);
    proof {
        assert forall|id: i64| #[trigger] polled_of(polled@, id) == (if id == engine_order_id {
            update
        } else {
            polled_of(before, id)
        }) by {}
    }
    Some(
        BrokerageEvent::Status {
            order_id: engine_order_id,
            symbol: account_order.symbol.duplicate(),
            status: account_order.status,
            fill_price: account_order.average_fill_price,
            cumulative_filled: account_order.filled_quantity,
            commission: None,
        },
    )
}

/// The quantities known from earlier polls are decimals.
pub open spec fn polled_wf(polled: Map<i64, TrackedBrokerageOrder>) -> bool {
    forall|id: i64| #[trigger] polled_of(polled, id).filled.wf()
}

/// Takes in the account orders of a poll.
pub fn poll_account_orders(
    account_orders: &Vec<Order>,
    polled: &mut HashMap<i64, TrackedBrokerageOrder>,
    brokerage_to_engine: &NameMap<i64>,
) -> (res: Vec<BrokerageEvent>)
    requires
        brokerage_to_engine.wf(),
        polled_wf(old(polled)@),
        forall|i: int|
            0 <= i < account_orders@.len() ==> (
            #[trigger] account_orders@[i]).filled_quantity.wf(),
    ensures
        polled_wf(final(polled)@),
        (final(polled)@, res@) == polled_all(
            old(polled)@,
            account_orders@,
            brokerage_to_engine@,
        ),
{
    let ghost all = account_orders@;
    let ghost start = polled@;
    let mut events: Vec<BrokerageEvent> = Vec::new();
    let mut i: usize = 0;
    assert(all.take(0) =~= Seq::<Order>::empty());
    while i < account_orders.len()
        invariant
            i <= all.len(),
            account_orders@ == all,
            brokerage_to_engine.wf(),
            polled_wf(polled@),
            forall|k: int| 0 <= k < all.len() ==> (#[trigger] all[k]).filled_quantity.wf(),
            (polled@, events@) == polled_all(start, all.take(i as int), brokerage_to_engine@),
        decreases account_orders.len() - i,
    {
        proof {
            assert(all.take(i + 1).drop_last() =~= all.take(i as int));
            assert(all.take(i + 1).last() == all[i as int]);
        }
        if let Some(event) = poll_account_order(&account_orders[i], polled, brokerage_to_engine) {
            events.push(event);
        }
        i = i + 1;
    }
    assert(all.take(i as int) =~= all);
    events
}

/// Time between polls of the account's orders.
pub const POLL_INTERVAL_MILLIS: u64 = 1000;

/// Time that the worker waits for a request.
pub const REQUEST_WAIT_MILLIS: u64 = 100;

/// What the run asks of the worker.
pub enum BrokerageRequest {
    Submit(Order),
    Cancel(Order),
    Update(Order),
    Stop,
}

/// What ends the worker's wait for a request.
pub enum WorkerEvent {
    Request(BrokerageRequest),
    /// No request came in time.
    Timeout,
    /// The run has dropped its end of the channel.
    Disconnected,
}

/// What the worker does next.
pub enum WorkerAction {
    /// Places an order; the answer goes to [`BrokerageWorker::submitted`].
    Submit(Order),
    Cancel(Order),
    Update(Order),
    Nothing,
    Exit,
}

/// Talks to the brokerage on behalf of the run: carries its requests out and
/// polls the account for what became of its orders.
pub struct BrokerageWorker {
    /// What earlier polls told, by order.
    pub polled: HashMap<i64, TrackedBrokerageOrder>,
    /// Orders of the engine by the ids that the brokerage gave them.
    pub brokerage_to_engine: NameMap<i64>,
    /// Instant of the last poll.
    pub last_poll: Option<u128>,
}

impl BrokerageWorker {
    pub open spec fn wf(&self) -> bool {
        self.brokerage_to_engine.wf() && polled_wf(self.polled@)
    }

    /// Whether a poll is due at an instant: none was made, or the last one is
    /// at least a second old.
    pub open spec fn is_due(&self, now: u128) -> bool {
        match self.last_poll {
            Some(last) => now - last >= 1_000_000_000,
            None => true,
        }
    }

    /// A worker that knows of no order and has not polled.
    pub fn new() -> (res: BrokerageWorker)
        ensures
            res.wf(),
            res.polled@ == Map::<i64, TrackedBrokerageOrder>::empty(),
            res.brokerage_to_engine@ == Map::<Seq<char>, i64>::empty(),
            res.last_poll is None,
    {
        BrokerageWorker { polled: HashMap::new(), brokerage_to_engine: NameMap::new(), last_poll: None }
    }

    /// What follows from the end of a wait. The worker exits when it is told to,
    /// or when nobody is left to ask.
    pub fn woken(event: WorkerEvent) -> (res: WorkerAction)
        ensures
            res == (match event {
                WorkerEvent::Request(BrokerageRequest::Submit(order)) => WorkerAction::Submit(order),
                WorkerEvent::Request(BrokerageRequest::Cancel(order)) => WorkerAction::Cancel(order),
                WorkerEvent::Request(BrokerageRequest::Update(order)) => WorkerAction::Update(order),
                WorkerEvent::Request(BrokerageRequest::Stop) => WorkerAction::Exit,
                WorkerEvent::Timeout => WorkerAction::Nothing,
                WorkerEvent::Disconnected => WorkerAction::Exit,
            }),
            follows(event, res),
    {
        match event {
            WorkerEvent::Request(request) => match request {
                BrokerageRequest::Submit(order) => WorkerAction::Submit(order),
                BrokerageRequest::Cancel(order) => WorkerAction::Cancel(order),
                BrokerageRequest::Update(order) => WorkerAction::Update(order),
                BrokerageRequest::Stop => WorkerAction::Exit,
            },
            WorkerEvent::Timeout => WorkerAction::Nothing,
            WorkerEvent::Disconnected => WorkerAction::Exit,
        }
    }

    /// Takes in the answer to a submission and makes the report for the run.
    pub fn submitted(&mut self, order_id: i64, outcome: SubmitOutcome) -> (res: BrokerageEvent)
        requires
            old(self).wf(),
        ensures
            final(self).wf(),
            final(self).polled == old(self).polled,
            final(self).last_poll == old(self).last_poll,
            submission_reported(
                order_id,
                outcome,
                old(self).brokerage_to_engine@,
                final(self).brokerage_to_engine@,
                res,
            ),
    {
        handle_submit(order_id, outcome, &mut self.brokerage_to_engine)
    }

    /// Whether the account is to be polled now; if so, the next poll is counted
    /// from this instant.
    pub fn poll_due(&mut self, now: u128) -> (res: bool)
        requires
            old(self).wf(),
        ensures
            final(self).wf(),
            final(self).polled == old(self).polled,
            final(self).brokerage_to_engine == old(self).brokerage_to_engine,
            res == old(self).is_due(now),
            final(self).last_poll == (if res {
                Some(now)
            } else {
                old(self).last_poll
            }),
    {
        let due = match self.last_poll {
            Some(last) => now >= last && poll_is_due(now - last),
            None => true,
        };
        if due {
            self.last_poll = Some(now);
        }
        due
    }

    /// Takes in the account orders of a poll and makes the reports for the run.
    pub fn polled(&mut self, account_orders: &Vec<Order>) -> (res: Vec<BrokerageEvent>)
        requires
            old(self).wf(),
            forall|i: int|
                0 <= i < account_orders@.len() ==> (
                #[trigger] account_orders@[i]).filled_quantity.wf(),
        ensures
            final(self).wf(),
            final(self).brokerage_to_engine == old(self).brokerage_to_engine,
            final(self).last_poll == old(self).last_poll,
            (final(self).polled@, res@) == polled_all(
                old(self).polled@,
                account_orders@,
                old(self).brokerage_to_engine@,
            ),
    {
        poll_account_orders(account_orders, &mut self.polled, &self.brokerage_to_engine)
    }
}

/// Whether a poll is due that long after the last one.
fn poll_is_due(nanos: u128) -> (res: bool)
    ensures
        res == (nanos >= 1_000_000_000),
{
    nanos >= Duration::from_millis(POLL_INTERVAL_MILLIS).nanos
}

/// Every id that the brokerage gives an order leads back to it, and ids of other
/// orders lead where they did.
pub proof fn law_ids_lead_back_to_their_order(
    map: Map<Seq<char>, i64>,
    ids: Seq<Seq<char>>,
    order_id: i64,
    id: Seq<char>,
)
    ensures
        ids.contains(id) ==> with_ids(map, ids, order_id).dom().contains(id) && with_ids(
            map,
            ids,
            order_id,
        )[id] == order_id,
        !ids.contains(id) ==> (with_ids(map, ids, order_id).dom().contains(id)
            <==> map.dom().contains(id)) && (map.dom().contains(id) ==> with_ids(
            map,
            ids,
            order_id,
        )[id] == map[id]),
    decreases ids.len(),
{
    if ids.len() > 0 {
        let head = ids.drop_last();
        law_ids_lead_back_to_their_order(map, head, order_id, id);
        if ids.contains(id) && id != ids.last() {
            let k = choose|k: int| 0 <= k < ids.len() && ids[k] == id;
            assert(head[k] == id);
        }
        if head.contains(id) {
            let k = choose|k: int| 0 <= k < head.len() && head[k] == id;
            assert(ids[k] == id);
        }
        assert(ids[ids.len() - 1] == ids.last());
    }
}

/// What a submission leads to is reported for the order that was submitted. Only an
/// accepted order makes ids known, and each of them leads to that order.
pub proof fn law_submissions_are_reported_for_their_order(
    order_id: i64,
    outcome: SubmitOutcome,
    before: Map<Seq<char>, i64>,
    after: Map<Seq<char>, i64>,
    report: BrokerageEvent,
    k: int,
)
    requires
        submission_reported(order_id, outcome, before, after, report),
    ensures
        match report {
            BrokerageEvent::Submitted { order_id: id, brokerage_ids } => {
                &&& id == order_id
                &&& outcome == SubmitOutcome::Accepted(brokerage_ids)
                &&& 0 <= k < brokerage_ids@.len() ==> after.dom().contains(brokerage_ids@[k]@)
                    && after[brokerage_ids@[k]@] == order_id
            },
            BrokerageEvent::Invalid { order_id: id, message } => id == order_id && outcome
                is Declined && after == before && message@.len() > 0,
            BrokerageEvent::SubmitFailed { order_id: id, message } => id == order_id && (
            outcome matches SubmitOutcome::Failed(error) && message@.len() > error@.len()
                && message@.subrange(message@.len() - error@.len(), message@.len() as int)
                == error@) && after == before,
            BrokerageEvent::Status { .. } => false,
        },
{
    reveal_strlit("Brokerage rejected order submission (no reason reported)");
    reveal_strlit("Brokerage order submission failed: ");
    if let SubmitOutcome::Accepted(ids) = outcome {
        if 0 <= k < ids@.len() {
            assert(texts(ids@)[k] == ids@[k]@);
            law_ids_lead_back_to_their_order(before, texts(ids@), order_id, ids@[k]@);
        }
    }
    if let SubmitOutcome::Failed(error) = outcome {
        let text = "Brokerage order submission failed: "@ + error@;
        assert(text.subrange(text.len() - error@.len(), text.len() as int) =~= error@);
    }
}

/// An account order belongs to the order of the engine behind the first of its ids
/// that is known. An order of which no id is known belongs to none, unless it carries
/// the id of an order of the engine.
pub proof fn law_account_orders_find_their_order(
    order: Order,
    known: Map<Seq<char>, i64>,
    k: int,
)
    ensures
        0 <= k < order.brokerage_id@.len() && known.dom().contains(order.brokerage_id@[k]@) && (
        forall|j: int|
            0 <= j < k ==> !known.dom().contains((#[trigger] order.brokerage_id@[j])@))
            ==> engine_order(order, known) == Some(known[order.brokerage_id@[k]@]),
        (forall|j: int|
            0 <= j < order.brokerage_id@.len() ==> !known.dom().contains(
                (#[trigger] order.brokerage_id@[j])@,
            )) ==> engine_order(order, known) == (if order.id > 0 && known.values().contains(
            order.id,
        ) {
            Some(order.id)
        } else {
            None
        }),
{
    let ids = texts(order.brokerage_id@);
    if 0 <= k < order.brokerage_id@.len() && known.dom().contains(order.brokerage_id@[k]@) && (
    forall|j: int| 0 <= j < k ==> !known.dom().contains((#[trigger] order.brokerage_id@[j])@)) {
        assert forall|j: int| 0 <= j < k implies !known.dom().contains(#[trigger] ids[j]) by {
            assert(ids[j] == order.brokerage_id@[j]@);
        }
        lemma_first_known(ids, known, k);
    }
    if forall|j: int|
        0 <= j < order.brokerage_id@.len() ==> !known.dom().contains(
            (#[trigger] order.brokerage_id@[j])@,
        ) {
        assert forall|j: int| 0 <= j < ids.len() implies !known.dom().contains(
            #[trigger] ids[j],
        ) by {
            assert(ids[j] == order.brokerage_id@[j]@);
        }
        lemma_none_known(ids, known);
    }
}

proof fn lemma_first_known(ids: Seq<Seq<char>>, known: Map<Seq<char>, i64>, k: int)
    requires
        0 <= k < ids.len(),
        known.dom().contains(ids[k]),
        forall|j: int| 0 <= j < k ==> !known.dom().contains(#[trigger] ids[j]),
    ensures
        first_known(ids, known) == Some(known[ids[k]]),
    decreases ids.len(),
{
    if k > 0 {
        let rest = ids.skip(1);
        assert(!known.dom().contains(ids[0]));
        assert forall|j: int| 0 <= j < k - 1 implies !known.dom().contains(#[trigger] rest[j]) by {
            assert(ids[j + 1] == rest[j]);
        }
        lemma_first_known(rest, known, k - 1);
    }
}

proof fn lemma_none_known(ids: Seq<Seq<char>>, known: Map<Seq<char>, i64>)
    requires
        forall|j: int| 0 <= j < ids.len() ==> !known.dom().contains(#[trigger] ids[j]),
    ensures
        first_known(ids, known) is None,
    decreases ids.len(),
{
    if ids.len() > 0 {
        let rest = ids.skip(1);
        assert(!known.dom().contains(ids[0]));
        assert forall|j: int| 0 <= j < rest.len() implies !known.dom().contains(
            #[trigger] rest[j],
        ) by {
            assert(ids[j + 1] == rest[j]);
        }
        lemma_none_known(rest, known);
    }
}

/// A change of an account order is reported as it is: for the order of the engine that
/// it belongs to, of its own security, with its status, its total and its price. An
/// order that is not the engine's is never reported, and what is known of other orders
/// does not change.
pub proof fn law_changes_are_reported_as_they_are(
    polled: Map<i64, TrackedBrokerageOrder>,
    order: Order,
    known: Map<Seq<char>, i64>,
    other: i64,
)
    ensures
        engine_order(order, known) is None ==> polled_one(polled, order, known) == (
            polled,
            None::<BrokerageEvent>,
        ),
        engine_order(order, known) matches Some(id) ==> {
            let (after, event) = polled_one(polled, order, known);
            let before = polled_of(polled, id);
            &&& event is Some <==> before.status != Some(order.status)
                || !order.filled_quantity.same(before.filled)
            &&& event matches Some(event) ==> (event matches BrokerageEvent::Status {
                order_id,
                symbol,
                status,
                fill_price,
                cumulative_filled,
                commission,
            } && order_id == id && symbol == order.symbol && status == order.status && fill_price
                == order.average_fill_price && cumulative_filled == order.filled_quantity
                && commission is None)
            &&& event is Some ==> polled_of(after, id).status == Some(order.status) && polled_of(
                after,
                id,
            ).filled == order.filled_quantity
            &&& other != id ==> polled_of(after, other) == polled_of(polled, other)
        },
{
}

/// The orders of a poll are looked at one after the other, and their reports come in
/// that order.
pub proof fn law_polls_go_order_by_order(
    polled: Map<i64, TrackedBrokerageOrder>,
    orders: Seq<Order>,
    order: Order,
    known: Map<Seq<char>, i64>,
)
    ensures
        ({
            let (middle, events) = polled_all(polled, orders, known);
            let (after, event) = polled_one(middle, order, known);
            let all = polled_all(polled, orders.push(order), known);
            &&& all.0 == after
            &&& event is None ==> all.1 == events
            &&& event matches Some(event) ==> all.1 == events.push(event)
        }),
        polled_all(polled, Seq::empty(), known).1.len() == 0,
{
    assert(orders.push(order).drop_last() =~= orders);
}

/// The account is polled at once, and then no more than once per second.
pub proof fn law_polls_are_a_second_apart(worker: BrokerageWorker, now: u128)
    ensures
        worker.last_poll is None ==> worker.is_due(now),
        worker.last_poll matches Some(last) ==> (worker.is_due(now) <==> now >= last + 1_000_000_000),
{
}

/// What a worker does once it is woken.
pub open spec fn follows(event: WorkerEvent, action: WorkerAction) -> bool {
    match event {
        WorkerEvent::Timeout => action is Nothing,
        WorkerEvent::Disconnected => action is Exit,
        WorkerEvent::Request(request) => match request {
            BrokerageRequest::Submit(order) => action == WorkerAction::Submit(order),
            BrokerageRequest::Cancel(order) => action == WorkerAction::Cancel(order),
            BrokerageRequest::Update(order) => action == WorkerAction::Update(order),
            BrokerageRequest::Stop => action is Exit,
        },
    }
}

/// A worker sends on nothing but what it is asked for, and the very order that it is asked
/// for. It exits only when it is told to or when nobody is left to ask.
pub proof fn law_workers_do_what_they_are_asked(
    event: WorkerEvent,
    action: WorkerAction,
    order: Order,
)
    requires
        follows(event, action),
    ensures
        action == WorkerAction::Submit(order) <==> event == WorkerEvent::Request(
            BrokerageRequest::Submit(order),
        ),
        action == WorkerAction::Cancel(order) <==> event == WorkerEvent::Request(
            BrokerageRequest::Cancel(order),
        ),
        action == WorkerAction::Update(order) <==> event == WorkerEvent::Request(
            BrokerageRequest::Update(order),
        ),
        action is Exit <==> event is Disconnected || event == WorkerEvent::Request(
            BrokerageRequest::Stop,
        ),
        action is Nothing <==> event is Timeout,
{
}

} // verus!
