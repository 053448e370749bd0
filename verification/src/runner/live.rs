//! Decisions of a live run: what happens at startup, within a slice and when
//! the run stops.

use crate::decimal::{law_negation_mirrors_the_value, value, Decimal};
use crate::live::transaction_handler::BrokerageHolding;
use crate::model::{SecurityType, Symbol};
use crate::orders::{Order, OrderEvent, OrderStatus, OrderType};
use crate::runner::backtest::{has_data, slice_has_algorithm_data};
use crate::slice::Slice;
use crate::subscription_reader::coverage::lemma_push_contains;
use crate::time::Duration;
use std::collections::HashMap;
use vstd::prelude::*;
use vstd::string::*;

verus! {

broadcast use vstd::std_specs::hash::group_hash_axioms;

/// How often the refused orders of one security may bring the framework to
/// rebalance again.
pub const MAX_INSIGHT_RETRIES: u32 = 3;

/// Whether orders go to the brokerage: one is attached that does not fill them
/// itself as paper orders.
pub fn uses_real_routing(has_brokerage: bool, uses_local_paper_fills: bool) -> (res: bool)
    ensures
        res == (has_brokerage && !uses_local_paper_fills),
{
    has_brokerage && !uses_local_paper_fills
}

// ---------------------------------------------------------------------------
// Startup
// ---------------------------------------------------------------------------

/// Steps of the startup of a live run.
#[derive(Clone, Copy, Debug, PartialEq, Eq, Structural)]
pub enum StartupStep {
    SyncBrokerageState,
    InitializeAlgorithm,
    RestoreInsights,
    RestoreInsightSecurities,
    PrepareDataDelivery,
    FinishWarmup,
    ResolveCorporateActions,
    SubscribeMarketData,
    SyncAccount,
    SpawnRouter,
    LiquidateUnmanagedHoldings,
    RestorePaperAccount,
    RecordSnapshot,
    SubscribeCustomData,
    Run,
}

/// What a live run was started with.
#[derive(Clone, Copy, Debug, PartialEq, Eq, Structural)]
pub struct StartupOptions {
    pub real_routing: bool,
    pub has_output_dir: bool,
    pub paper_trading: bool,
    /// Whether an order processor and a portfolio are at hand for snapshots.
    pub can_snapshot: bool,
}

/// The step once the account is set up: a saved one is restored in paper trading.
pub open spec fn step_after_routing(options: StartupOptions) -> StartupStep {
    if options.paper_trading && options.has_output_dir {
        StartupStep::RestorePaperAccount
    } else {
        step_after_restore(options)
    }
}

/// The step once the account is restored: a snapshot is recorded where files are
/// written.
pub open spec fn step_after_restore(options: StartupOptions) -> StartupStep {
    if options.has_output_dir && options.can_snapshot {
        StartupStep::RecordSnapshot
    } else {
        StartupStep::SubscribeCustomData
    }
}

/// The step after another.
pub open spec fn step_after(step: StartupStep, options: StartupOptions) -> StartupStep {
    match step {
        StartupStep::SyncBrokerageState => StartupStep::InitializeAlgorithm,
        StartupStep::InitializeAlgorithm => if options.has_output_dir {
            StartupStep::RestoreInsights
        } else {
            StartupStep::RestoreInsightSecurities
        },
        StartupStep::RestoreInsights => StartupStep::RestoreInsightSecurities,
        StartupStep::RestoreInsightSecurities => StartupStep::PrepareDataDelivery,
        StartupStep::PrepareDataDelivery => StartupStep::FinishWarmup,
        StartupStep::FinishWarmup => StartupStep::ResolveCorporateActions,
        StartupStep::ResolveCorporateActions => StartupStep::SubscribeMarketData,
        StartupStep::SubscribeMarketData => if options.real_routing {
            StartupStep::SyncAccount
        } else {
            step_after_routing(options)
        },
        StartupStep::SyncAccount => StartupStep::SpawnRouter,
        StartupStep::SpawnRouter => StartupStep::LiquidateUnmanagedHoldings,
        StartupStep::LiquidateUnmanagedHoldings => step_after_routing(options),
        StartupStep::RestorePaperAccount => step_after_restore(options),
        StartupStep::RecordSnapshot => StartupStep::SubscribeCustomData,
        StartupStep::SubscribeCustomData => StartupStep::Run,
        StartupStep::Run => StartupStep::Run,
    }
}

/// The step after another. Saved insights are restored before securities and
/// subscriptions are set up; with a real brokerage the account is synced before
/// orders are routed, and only then are holdings without an insight sold.
pub fn next_startup_step(step: StartupStep, options: StartupOptions) -> (res: StartupStep)
    ensures
        res == step_after(step, options),
{
    match step {
        StartupStep::SyncBrokerageState => StartupStep::InitializeAlgorithm,
        StartupStep::InitializeAlgorithm => if options.has_output_dir {
            StartupStep::RestoreInsights
        } else {
            StartupStep::RestoreInsightSecurities
        },
        StartupStep::RestoreInsights => StartupStep::RestoreInsightSecurities,
        StartupStep::RestoreInsightSecurities => StartupStep::PrepareDataDelivery,
        StartupStep::PrepareDataDelivery => StartupStep::FinishWarmup,
        StartupStep::FinishWarmup => StartupStep::ResolveCorporateActions,
        StartupStep::ResolveCorporateActions => StartupStep::SubscribeMarketData,
        StartupStep::SubscribeMarketData => {
            if options.real_routing {
                return StartupStep::SyncAccount;
            }
            after_routing(options)
        },
        StartupStep::SyncAccount => StartupStep::SpawnRouter,
        StartupStep::SpawnRouter => StartupStep::LiquidateUnmanagedHoldings,
        StartupStep::LiquidateUnmanagedHoldings => after_routing(options),
        StartupStep::RestorePaperAccount => after_restore(options),
        StartupStep::RecordSnapshot => StartupStep::SubscribeCustomData,
        StartupStep::SubscribeCustomData => StartupStep::Run,
        StartupStep::Run => StartupStep::Run,
    }
}

fn after_routing(options: StartupOptions) -> (res: StartupStep)
    ensures
        res == step_after_routing(options),
{
    if options.paper_trading && options.has_output_dir {
        return StartupStep::RestorePaperAccount;
    }
    after_restore(options)
}

fn after_restore(options: StartupOptions) -> (res: StartupStep)
    ensures
        res == step_after_restore(options),
{
    if options.has_output_dir && options.can_snapshot {
        StartupStep::RecordSnapshot
    } else {
        StartupStep::SubscribeCustomData
    }
}

/// The step reached after a number of steps.
pub open spec fn startup_at(options: StartupOptions, n: nat) -> StartupStep
    decreases n,
{
    if n == 0 {
        StartupStep::SyncBrokerageState
    } else {
        step_after(startup_at(options, (n - 1) as nat), options)
    }
}

/// Position of a step in the order of the startup.
pub open spec fn startup_rank(step: StartupStep) -> int {
    match step {
        StartupStep::SyncBrokerageState => 0,
        StartupStep::InitializeAlgorithm => 1,
        StartupStep::RestoreInsights => 2,
        StartupStep::RestoreInsightSecurities => 3,
        StartupStep::PrepareDataDelivery => 4,
        StartupStep::FinishWarmup => 5,
        StartupStep::ResolveCorporateActions => 6,
        StartupStep::SubscribeMarketData => 7,
        StartupStep::SyncAccount => 8,
        StartupStep::SpawnRouter => 9,
        StartupStep::LiquidateUnmanagedHoldings => 10,
        StartupStep::RestorePaperAccount => 11,
        StartupStep::RecordSnapshot => 12,
        StartupStep::SubscribeCustomData => 13,
        StartupStep::Run => 14,
    }
}

/// Startup goes through its steps in order, never back, and reaches the run.
pub proof fn law_startup_goes_forward(options: StartupOptions, n: nat)
    ensures
        startup_at(options, n) != StartupStep::Run ==> startup_rank(startup_at(options, n))
            < startup_rank(startup_at(options, n + 1)),
        startup_rank(startup_at(options, n)) >= if n < 14 {
            n as int
        } else {
            14
        },
        startup_at(options, 14) == StartupStep::Run,
    decreases n,
{
    if n > 0 {
        law_startup_goes_forward(options, (n - 1) as nat);
    } else {
        lemma_startup_reaches(options, 14);
    }
    if n == 0 {
        assert(startup_at(options, 1) == StartupStep::InitializeAlgorithm);
    }
}

proof fn lemma_startup_reaches(options: StartupOptions, n: nat)
    ensures
        startup_rank(startup_at(options, n)) >= if n < 14 {
            n as int
        } else {
            14
        },
    decreases n,
{
    if n > 0 {
        lemma_startup_reaches(options, (n - 1) as nat);
    }
}

/// Holdings without an insight are sold exactly when a real brokerage routes
/// orders, right after the account was synced and the router started.
pub proof fn law_liquidation_needs_real_routing(options: StartupOptions, n: nat)
    ensures
        startup_at(options, n + 1) == StartupStep::LiquidateUnmanagedHoldings ==> startup_at(
            options,
            n,
        ) == StartupStep::SpawnRouter,
        startup_at(options, n + 1) == StartupStep::SpawnRouter ==> startup_at(options, n)
            == StartupStep::SyncAccount,
        startup_at(options, n) == StartupStep::SyncAccount ==> options.real_routing,
        startup_at(options, n) == StartupStep::SpawnRouter ==> options.real_routing,
        startup_at(options, n) == StartupStep::LiquidateUnmanagedHoldings ==> options.real_routing,
        options.real_routing ==> startup_at(
            options,
            if options.has_output_dir {
                10
            } else {
                9
            },
        ) == StartupStep::LiquidateUnmanagedHoldings,
    decreases n,
{
    if n > 0 {
        law_liquidation_needs_real_routing(options, (n - 1) as nat);
    } else {
        reveal_with_fuel(startup_at, 11);
        assert(startup_at(options, 1) == StartupStep::InitializeAlgorithm);
    }
}

/// Whether a security of this type can be registered again.
pub open spec fn restorable(security_type: SecurityType) -> bool {
    match security_type {
        SecurityType::Base
        | SecurityType::Equity
        | SecurityType::Forex
        | SecurityType::Crypto
        | SecurityType::CryptoFuture
        | SecurityType::Option => true,
        _ => false,
    }
}

pub fn is_restorable_security_type(security_type: SecurityType) -> (res: bool)
    ensures
        res == restorable(security_type),
{
    match security_type {
        SecurityType::Base
        | SecurityType::Equity
        | SecurityType::Forex
        | SecurityType::Crypto
        | SecurityType::CryptoFuture
        | SecurityType::Option => true,
        _ => false,
    }
}

/// A security that an active insight refers to.
pub struct InsightSecurity {
    pub symbol: Symbol,
    /// Whether the algorithm subscribes to it already.
    pub subscribed: bool,
    /// Its price; zero if it has none.
    pub current_price: Decimal,
    /// Its last known close, if history has one.
    pub last_close: Option<Decimal>,
}

/// What becomes of the securities of restored insights.
pub struct RestoredSecurities {
    /// Securities to register and subscribe to, in order.
    pub added: Vec<Symbol>,
    /// Prices to set.
    pub seeded: Vec<(u64, Decimal)>,
    /// Securities that wait for their first live price.
    pub pending: Vec<Symbol>,
}

/// The same as a value.
pub struct RestoredView {
    pub added: Seq<Symbol>,
    pub seeded: Seq<(u64, Decimal)>,
    pub pending: Seq<Symbol>,
    pub seen: Set<u64>,
}

/// Takes one security of an insight into account. Each security counts once. A
/// security that is not subscribed is added if its type allows it and left out
/// otherwise. One without a price gets its last close, or waits for a price.
pub open spec fn with_insight(state: RestoredView, security: InsightSecurity) -> RestoredView {
    let sid = security.symbol.sid;
    if state.seen.contains(sid) {
        state
    } else if !security.subscribed && !restorable(security.symbol.security_type) {
        RestoredView { seen: state.seen.insert(sid), ..state }
    } else {
        let added = if security.subscribed {
            state.added
        } else {
            state.added.push(security.symbol)
        };
        let seed = security.last_close matches Some(price) && price.mantissa > 0;
        RestoredView {
            added,
            seeded: if security.current_price.mantissa <= 0 && seed {
                state.seeded.push((sid, security.last_close->Some_0))
            } else {
                state.seeded
            },
            pending: if security.current_price.mantissa <= 0 && !seed {
                state.pending.push(security.symbol)
            } else {
                state.pending
            },
            seen: state.seen.insert(sid),
        }
    }
}

pub open spec fn with_insights(securities: Seq<InsightSecurity>) -> RestoredView
    decreases securities.len(),
{
    if securities.len() == 0 {
        RestoredView {
            added: Seq::empty(),
            seeded: Seq::empty(),
            pending: Seq::empty(),
            seen: Set::empty(),
        }
    } else {
        with_insight(with_insights(securities.drop_last()), securities.last())
    }
}

/// Decides how the securities of restored insights are brought back.
pub fn restore_securities_for_active_insights(securities: &Vec<InsightSecurity>) -> (res:
    RestoredSecurities)
    ensures
        ({
            let state = with_insights(securities@);
            &&& res.added@ == state.added
            &&& res.seeded@ == state.seeded
            &&& res.pending@ == state.pending
        }),
{
    let mut added: Vec<Symbol> = Vec::new();
    let mut seeded: Vec<(u64, Decimal)> = Vec::new();
    let mut pending: Vec<Symbol> = Vec::new();
    let mut seen: Vec<u64> = Vec::new();
    let mut i: usize = 0;
    while i < securities.len()
        invariant
            i <= securities@.len(),
            added@ == with_insights(securities@.take(i as int)).added,
            seeded@ == with_insights(securities@.take(i as int)).seeded,
            pending@ == with_insights(securities@.take(i as int)).pending,
            forall|sid: u64| #[trigger]
                seen@.contains(sid) <==> with_insights(
                    securities@.take(i as int),
                ).seen.contains(sid),
        decreases securities.len() - i,
    {
        let security = &securities[i];
        let sid: u64 = security.symbol.sid;
        let ghost before = with_insights(securities@.take(i as int));
        proof {
            assert(securities@.take(i + 1).drop_last() =~= securities@.take(i as int));
            assert(securities@.take(i + 1).last() == securities@[i as int]);
            lemma_push_contains(seen@, sid);
        }
        if !has_sid(&seen, sid) {
            seen.push(sid);
            let keep = if !security.subscribed {
                if is_restorable_security_type(security.symbol.security_type) {
                    added.push(security.symbol.duplicate());
                    true
                } else {
                    false
                }
            } else {
                true
            };
            if keep && !security.current_price.is_positive() {
                let seed = match security.last_close {
                    Some(price) => if price.is_positive() {
                        Some(price)
                    } else {
                        None
                    },
                    None => None,
                };
                match seed {
                    Some(price) => {
                        seeded.push((sid, price));
                    },
                    None => {
                        pending.push(security.symbol.duplicate());
                    },
                }
            }
        }
        i = i + 1;
    }
    assert(securities@.take(i as int) =~= securities@);
    RestoredSecurities { added, seeded, pending }
}

/// What the books of a run start with.
pub struct OpeningBooks<T> {
    pub order_events: Vec<OrderEvent>,
    pub trades: Vec<T>,
    /// Holdings that open a trade at their average price, without a fee.
    pub open_positions: Vec<BrokerageHolding>,
}

/// A paper account as it was saved.
pub struct SavedAccount<T> {
    pub order_events: Vec<OrderEvent>,
    pub trades: Vec<T>,
    pub holdings: Vec<BrokerageHolding>,
}

/// Opens the books of a run. A saved account goes on where it stopped: with its
/// order events, its trades, and an open position for each holding that is not
/// empty. Without one the run starts with the order events that the brokerage
/// reported.
pub fn open_books<T>(saved: Option<SavedAccount<T>>, synced_events: Vec<OrderEvent>) -> (res:
    OpeningBooks<T>)
    ensures
        match saved {
            Some(account) => {
                &&& res.order_events == account.order_events
                &&& res.trades == account.trades
                &&& res.open_positions@ == account.holdings@.filter(
                    |holding: BrokerageHolding| holding.quantity.mantissa != 0,
                )
            },
            None => {
                &&& res.order_events == synced_events
                &&& res.trades@.len() == 0
                &&& res.open_positions@.len() == 0
            },
        },
{
    let account = match saved {
        Some(account) => account,
        None => {
            return OpeningBooks {
                order_events: synced_events,
                trades: Vec::new(),
                open_positions: Vec::new(),
            };
        },
    };
    let mut open_positions: Vec<BrokerageHolding> = Vec::new();
    let ghost all = account.holdings@;
    let ghost open = |holding: BrokerageHolding| holding.quantity.mantissa != 0;
    proof {
        reveal(Seq::filter);
    }
    for holding in it: account.holdings
        invariant
            it.seq() == all,
            open == |holding: BrokerageHolding| holding.quantity.mantissa != 0,
            open_positions@ =~= all.take(it.index() as int).filter(open),
    {
        proof {
            reveal(Seq::filter);
            assert(all.take(it.index() + 1).drop_last() =~= all.take(it.index() as int));
            assert(all.take(it.index() + 1).last() == holding);
        }
        if !holding.quantity.is_zero() {
            open_positions.push(holding);
        }
    }
    assert(all.take(all.len() as int) =~= all);
    OpeningBooks { order_events: account.order_events, trades: account.trades, open_positions }
}

pub fn has_sid(sids: &Vec<u64>, sid: u64) -> (res: bool)
    ensures
        res == sids@.contains(sid),
{
    let mut i: usize = 0;
    while i < sids.len()
        invariant
            i <= sids@.len(),
            forall|j: int| 0 <= j < i ==> sids@[j] != sid,
        decreases sids.len() - i,
    {
        if sids[i] == sid {
            return true;
        }
        i = i + 1;
    }
    false
}

/// Takes the securities that now have a price off the waiting list and returns
/// them, so that the framework is told again. Both keep their order. Nothing
/// waits for a price any more where the algorithm has no prices at all.
pub fn renotify_restored_securities_with_prices(
    pending: &mut Vec<Symbol>,
    priced: Option<&Vec<u64>>,
) -> (res: Vec<Symbol>)
    ensures
        match priced {
            Some(sids) => {
                &&& res@ == old(pending)@.filter(|symbol: Symbol| sids@.contains(symbol.sid))
                &&& final(pending)@ == old(pending)@.filter(
                    |symbol: Symbol| !sids@.contains(symbol.sid),
                )
            },
            None => res@.len() == 0 && final(pending)@.len() == 0,
        },
{
    let priced_sids = match priced {
        Some(sids) => sids,
        None => {
            pending.clear();
            return Vec::new();
        },
    };
    let mut waiting: Vec<Symbol> = Vec::new();
    waiting.append(pending);
    let ghost all = old(pending)@;
    assert(waiting@ =~= all);
    let ghost priced = |symbol: Symbol| priced_sids@.contains(symbol.sid);
    let ghost unpriced = |symbol: Symbol| !priced_sids@.contains(symbol.sid);
    let mut out: Vec<Symbol> = Vec::new();
    let mut rest: Vec<Symbol> = Vec::new();
    proof {
        reveal(Seq::filter);
    }
    for symbol in it: waiting
        invariant
            it.seq() == all,
            priced == |symbol: Symbol| priced_sids@.contains(symbol.sid),
            unpriced == |symbol: Symbol| !priced_sids@.contains(symbol.sid),
            out@ =~= all.take(it.index() as int).filter(priced),
            rest@ =~= all.take(it.index() as int).filter(unpriced),
    {
        proof {
            reveal(Seq::filter);
            assert(all.take(it.index() + 1).drop_last() =~= all.take(it.index() as int));
            assert(all.take(it.index() + 1).last() == symbol);
        }
        if has_sid(priced_sids, symbol.sid) {
            out.push(symbol);
        } else {
            rest.push(symbol);
        }
    }
    assert(all.take(all.len() as int) =~= all);
    *pending = rest;
    out
}

// ---------------------------------------------------------------------------
// Refused orders
// ---------------------------------------------------------------------------

/// Retries used by a security.
pub open spec fn retries_of(budget: Map<u64, u32>, sid: u64) -> int {
    if budget.dom().contains(sid) {
        budget[sid] as int
    } else {
        0
    }
}

/// Retries, the securities seen in this slice and those that rebalance again.
pub struct RearmView {
    pub budget: Map<u64, u32>,
    pub seen: Set<u64>,
    pub rearmed: Seq<u64>,
}

/// Takes one order event into account. Only the first refused order of a
/// security counts. It uses up one retry and brings the framework to rebalance
/// if the security has an active insight and retries left.
pub open spec fn with_event(state: RearmView, event: OrderEvent, insight_sids: Seq<u64>) -> RearmView {
    let sid = event.symbol.sid;
    if event.status != OrderStatus::Invalid || state.seen.contains(sid) {
        state
    } else {
        let seen = state.seen.insert(sid);
        let used = retries_of(state.budget, sid);
        if used >= MAX_INSIGHT_RETRIES {
            RearmView { seen, ..state }
        } else if insight_sids.contains(sid) {
            RearmView {
                seen,
                budget: state.budget.insert(sid, (used + 1) as u32),
                rearmed: state.rearmed.push(sid),
            }
        } else if used == 0 {
            RearmView { seen, budget: state.budget.remove(sid), ..state }
        } else {
            RearmView { seen, ..state }
        }
    }
}

pub open spec fn with_events(budget: Map<u64, u32>, events: Seq<OrderEvent>, insight_sids: Seq<u64>) -> RearmView
    decreases events.len(),
{
    if events.len() == 0 {
        RearmView { budget, seen: Set::empty(), rearmed: Seq::empty() }
    } else {
        with_event(
            with_events(budget, events.drop_last(), insight_sids),
            events.last(),
            insight_sids,
        )
    }
}

/// Decides for which refused orders the framework rebalances again, and keeps
/// count of the retries of each security.
pub fn rearm_rebalance_for_invalid_insight_orders(
    new_events: &Vec<OrderEvent>,
    insight_sids: &Vec<u64>,
    insight_retry_budget: &mut HashMap<u64, u32>,
) -> (res: Vec<u64>)
    ensures
        ({
            let state = with_events(old(insight_retry_budget)@, new_events@, insight_sids@);
            &&& final(insight_retry_budget)@ == state.budget
            &&& res@ == state.rearmed
        }),
{
    let mut seen: Vec<u64> = Vec::new();
    let mut rearmed: Vec<u64> = Vec::new();
    let mut i: usize = 0;
    while i < new_events.len()
        invariant
            i <= new_events@.len(),
            insight_retry_budget@ == with_events(
                old(insight_retry_budget)@,
                new_events@.take(i as int),
                insight_sids@,
            ).budget,
            rearmed@ == with_events(
                old(insight_retry_budget)@,
                new_events@.take(i as int),
                insight_sids@,
            ).rearmed,
            forall|sid: u64| #[trigger]
                seen@.contains(sid) <==> with_events(
                    old(insight_retry_budget)@,
                    new_events@.take(i as int),
                    insight_sids@,
                ).seen.contains(sid),
        decreases new_events.len() - i,
    {
        let event = &new_events[i];
        let sid: u64 = event.symbol.sid;
        proof {
            assert(new_events@.take(i + 1).drop_last() =~= new_events@.take(i as int));
            assert(new_events@.take(i + 1).last() == new_events@[i as int]);
            lemma_push_contains(seen@, sid);
        }
        if event.status == OrderStatus::Invalid && !has_sid(&seen, sid) {
            seen.push(sid);
            let attempts: u32 = match insight_retry_budget.get(&sid) {
                Some(n) => *n,
                None => 0,
            };
            if attempts < MAX_INSIGHT_RETRIES {
                if has_sid(insight_sids, sid) {
                    insight_retry_budget.insert(sid, attempts + 1);
                    rearmed.push(sid);
                } else if attempts == 0 {
                    insight_retry_budget.remove(&sid);
                }
            }
        }
        i = i + 1;
    }
    assert(new_events@.take(i as int) =~= new_events@);
    rearmed
}

/// The retries of a security stay within their limit, one slice uses at most
/// one of them, and a security without an active insight uses none and brings
/// no rebalance.
pub proof fn law_retries_are_bounded(
    budget: Map<u64, u32>,
    events: Seq<OrderEvent>,
    insight_sids: Seq<u64>,
    sid: u64,
)
    requires
        retries_of(budget, sid) <= MAX_INSIGHT_RETRIES,
    ensures
        ({
            let state = with_events(budget, events, insight_sids);
            &&& retries_of(state.budget, sid) <= MAX_INSIGHT_RETRIES
            &&& retries_of(budget, sid) <= retries_of(state.budget, sid) <= retries_of(budget, sid)
                + 1
            &&& state.rearmed.contains(sid) <==> retries_of(state.budget, sid) == retries_of(
                budget,
                sid,
            ) + 1
            &&& !insight_sids.contains(sid) ==> retries_of(state.budget, sid) == retries_of(
                budget,
                sid,
            ) && !state.rearmed.contains(sid)
            &&& retries_of(budget, sid) == MAX_INSIGHT_RETRIES ==> !state.rearmed.contains(sid)
            &&& state.rearmed.no_duplicates()
        }),
    decreases events.len(),
{
    lemma_rearmed(budget, events, insight_sids, sid);
    if events.len() > 0 {
        law_retries_are_bounded(budget, events.drop_last(), insight_sids, sid);
        let state = with_events(budget, events.drop_last(), insight_sids);
        let other = events.last().symbol.sid;
        lemma_push_contains(state.rearmed, other);
        lemma_rearmed(budget, events.drop_last(), insight_sids, other);
        lemma_rearmed(budget, events.drop_last(), insight_sids, sid);
    }
}

proof fn lemma_rearmed(
    budget: Map<u64, u32>,
    events: Seq<OrderEvent>,
    insight_sids: Seq<u64>,
    sid: u64,
)
    ensures
        ({
            let state = with_events(budget, events, insight_sids);
            &&& state.rearmed.contains(sid) ==> state.seen.contains(sid)
            &&& !state.seen.contains(sid) ==> retries_of(state.budget, sid) == retries_of(
                budget,
                sid,
            )
        }),
    decreases events.len(),
{
    if events.len() > 0 {
        lemma_rearmed(budget, events.drop_last(), insight_sids, sid);
        let state = with_events(budget, events.drop_last(), insight_sids);
        lemma_push_contains(state.rearmed, events.last().symbol.sid);
    }
}

// ---------------------------------------------------------------------------
// Holdings without an insight
// ---------------------------------------------------------------------------

/// Whether a synced holding is closed: it is not empty and no active insight
/// covers its security.
pub open spec fn unmanaged(holding: BrokerageHolding, managed: Seq<u64>) -> bool {
    holding.quantity.mantissa != 0 && !managed.contains(holding.symbol.sid)
}

/// The holdings that are closed.
pub open spec fn unmanaged_holdings(holdings: Seq<BrokerageHolding>, managed: Seq<u64>) -> Seq<
    BrokerageHolding,
> {
    holdings.filter(|holding: BrokerageHolding| unmanaged(holding, managed))
}

/// Whether an order closes a holding: a new market order over the opposite
/// quantity.
pub open spec fn closes(order: Order, holding: BrokerageHolding, id: int) -> bool {
    &&& order.id == id
    &&& order.symbol == holding.symbol
    &&& order.order_type == OrderType::Market
    &&& order.status == OrderStatus::New
    &&& order.quantity == holding.quantity.spec_neg()
    &&& order.tag@ == "Liquidate unmanaged holding"@
}

/// Orders that close every holding without an active insight, one each, with
/// consecutive ids.
pub fn liquidate_unmanaged_holdings(
    holdings: &Vec<BrokerageHolding>,
    managed: &Vec<u64>,
    first_order_id: i64,
) -> (res: Vec<Order>)
    requires
        first_order_id + holdings@.len() <= i64::MAX,
        forall|i: int| 0 <= i < holdings@.len() ==> (#[trigger] holdings@[i]).quantity.wf(),
    ensures
        res@.len() == unmanaged_holdings(holdings@, managed@).len(),
        forall|i: int|
            0 <= i < res@.len() ==> closes(
                #[trigger] res@[i],
                unmanaged_holdings(holdings@, managed@)[i],
                first_order_id + i,
            ),
{
    let mut orders: Vec<Order> = Vec::new();
    let mut order_id: i64 = first_order_id;
    let mut i: usize = 0;
    let ghost keep = |holding: BrokerageHolding| unmanaged(holding, managed@);
    proof {
        reveal(Seq::filter);
        assert(holdings@.take(0).filter(keep) =~= Seq::<BrokerageHolding>::empty());
    }
    while i < holdings.len()
        invariant
            i <= holdings@.len(),
            keep == |holding: BrokerageHolding| unmanaged(holding, managed@),
            first_order_id + holdings@.len() <= i64::MAX,
            forall|k: int| 0 <= k < holdings@.len() ==> (#[trigger] holdings@[k]).quantity.wf(),
            orders@.len() <= i,
            order_id == first_order_id + orders@.len(),
            orders@.len() == holdings@.take(i as int).filter(keep).len(),
            forall|k: int|
                0 <= k < orders@.len() ==> closes(
                    #[trigger] orders@[k],
                    holdings@.take(i as int).filter(keep)[k],
                    first_order_id + k,
                ),
        decreases holdings.len() - i,
    {
        let holding = &holdings[i];
        let ghost before = orders@;
        proof {
            reveal(Seq::filter);
            assert(holdings@.take(i + 1).drop_last() =~= holdings@.take(i as int));
            assert(holdings@.take(i + 1).last() == holdings@[i as int]);
            assert(holdings@[i as int].quantity.wf());
        }
        if !holding.quantity.is_zero() && !has_sid(managed, holding.symbol.sid) {
            let order = Order::market(
                order_id,
                holding.symbol.duplicate(),
                holding.quantity.neg(),
                "Liquidate unmanaged holding",
            );
            orders.push(order);
            order_id = order_id + 1;
            proof {
                let old_rows = holdings@.take(i as int).filter(keep);
                assert(holdings@.take(i + 1).filter(keep) == old_rows.push(holdings@[i as int]));
                assert forall|k: int| 0 <= k < orders@.len() implies closes(
                    #[trigger] orders@[k],
                    holdings@.take(i + 1).filter(keep)[k],
                    first_order_id + k,
                ) by {
                    if k < before.len() {
                        assert(orders@[k] == before[k]);
                    }
                }
            }
        } else {
            assert(holdings@.take(i + 1).filter(keep) == holdings@.take(i as int).filter(keep));
        }
        i = i + 1;
    }
    assert(holdings@.take(i as int) =~= holdings@);
    orders
}

// ---------------------------------------------------------------------------
// Slices
// ---------------------------------------------------------------------------

/// Steps of the processing of one live slice.
#[derive(Clone, Copy, Debug, PartialEq, Eq, Structural)]
pub enum SliceStep {
    StartTradingDay,
    SelectUniverse,
    SyncChangedUniverse,
    AdvanceFrontier,
    RenotifyPricedSecurities,
    ProcessLocalFills,
    ProcessWithoutFills,
    DrainBrokerageEvents,
    RearmRebalance,
    AppendEventsAndTrades,
    DeliverData,
    RunFramework,
    DispatchOrders,
    SyncSubscriptions,
    EndTimeStep,
    RecordSnapshot,
    Done,
}

/// What the processing of a slice depends on.
#[derive(Clone, Copy, Debug, PartialEq, Eq, Structural)]
pub struct SliceContext {
    pub universe_changed: bool,
    /// Whether a brokerage routes orders.
    pub has_router: bool,
    pub has_transactions: bool,
    pub has_writer: bool,
    /// Whether an order processor and a portfolio are at hand for snapshots.
    pub can_snapshot: bool,
}

/// The first step of the processing of a slice; a slice without data has none.
pub fn first_slice_step(slice: &Slice) -> (res: SliceStep)
    ensures
        res == (if has_data(*slice) {
            SliceStep::StartTradingDay
        } else {
            SliceStep::Done
        }),
{
    if slice_has_algorithm_data(slice) || slice.option_chains.len() > 0 {
        SliceStep::StartTradingDay
    } else {
        SliceStep::Done
    }
}

/// The step after another.
pub open spec fn slice_step_after(step: SliceStep, context: SliceContext) -> SliceStep {
    match step {
        SliceStep::StartTradingDay => SliceStep::SelectUniverse,
        SliceStep::SelectUniverse => if context.universe_changed {
            SliceStep::SyncChangedUniverse
        } else {
            SliceStep::AdvanceFrontier
        },
        SliceStep::SyncChangedUniverse => SliceStep::AdvanceFrontier,
        SliceStep::AdvanceFrontier => SliceStep::RenotifyPricedSecurities,
        SliceStep::RenotifyPricedSecurities => if context.has_router {
            SliceStep::ProcessWithoutFills
        } else {
            SliceStep::ProcessLocalFills
        },
        SliceStep::ProcessLocalFills => after_rearm(context),
        SliceStep::ProcessWithoutFills => if context.has_transactions {
            SliceStep::DrainBrokerageEvents
        } else {
            SliceStep::RearmRebalance
        },
        SliceStep::DrainBrokerageEvents => SliceStep::RearmRebalance,
        SliceStep::RearmRebalance => after_rearm(context),
        SliceStep::AppendEventsAndTrades => SliceStep::DeliverData,
        SliceStep::DeliverData => SliceStep::RunFramework,
        SliceStep::RunFramework => if context.has_router && context.has_transactions {
            SliceStep::DispatchOrders
        } else {
            SliceStep::SyncSubscriptions
        },
        SliceStep::DispatchOrders => SliceStep::SyncSubscriptions,
        SliceStep::SyncSubscriptions => SliceStep::EndTimeStep,
        SliceStep::EndTimeStep => if context.has_writer && context.can_snapshot {
            SliceStep::RecordSnapshot
        } else {
            SliceStep::Done
        },
        SliceStep::RecordSnapshot => SliceStep::Done,
        SliceStep::Done => SliceStep::Done,
    }
}

/// The step once fills are processed.
pub open spec fn after_rearm(context: SliceContext) -> SliceStep {
    if context.has_writer {
        SliceStep::AppendEventsAndTrades
    } else {
        SliceStep::DeliverData
    }
}

fn step_after_fills(context: SliceContext) -> (res: SliceStep)
    ensures
        res == after_rearm(context),
{
    if context.has_writer {
        SliceStep::AppendEventsAndTrades
    } else {
        SliceStep::DeliverData
    }
}

/// The step after another. Prices are set before fills, fills come before the
/// algorithm sees the data, and new orders are sent after the framework has
/// run. Fills are simulated only where no brokerage routes orders.
pub fn process_live_slice_step(step: SliceStep, context: SliceContext) -> (res: SliceStep)
    ensures
        res == slice_step_after(step, context),
{
    match step {
        SliceStep::StartTradingDay => SliceStep::SelectUniverse,
        SliceStep::SelectUniverse => if context.universe_changed {
            SliceStep::SyncChangedUniverse
        } else {
            SliceStep::AdvanceFrontier
        },
        SliceStep::SyncChangedUniverse => SliceStep::AdvanceFrontier,
        SliceStep::AdvanceFrontier => SliceStep::RenotifyPricedSecurities,
        SliceStep::RenotifyPricedSecurities => if context.has_router {
            SliceStep::ProcessWithoutFills
        } else {
            SliceStep::ProcessLocalFills
        },
        SliceStep::ProcessLocalFills => step_after_fills(context),
        SliceStep::ProcessWithoutFills => if context.has_transactions {
            SliceStep::DrainBrokerageEvents
        } else {
            SliceStep::RearmRebalance
        },
        SliceStep::DrainBrokerageEvents => SliceStep::RearmRebalance,
        SliceStep::RearmRebalance => step_after_fills(context),
        SliceStep::AppendEventsAndTrades => SliceStep::DeliverData,
        SliceStep::DeliverData => SliceStep::RunFramework,
        SliceStep::RunFramework => if context.has_router && context.has_transactions {
            SliceStep::DispatchOrders
        } else {
            SliceStep::SyncSubscriptions
        },
        SliceStep::DispatchOrders => SliceStep::SyncSubscriptions,
        SliceStep::SyncSubscriptions => SliceStep::EndTimeStep,
        SliceStep::EndTimeStep => if context.has_writer && context.can_snapshot {
            SliceStep::RecordSnapshot
        } else {
            SliceStep::Done
        },
        SliceStep::RecordSnapshot => SliceStep::Done,
        SliceStep::Done => SliceStep::Done,
    }
}

/// The step reached after a number of steps.
pub open spec fn slice_step_at(context: SliceContext, n: nat) -> SliceStep
    decreases n,
{
    if n == 0 {
        SliceStep::StartTradingDay
    } else {
        slice_step_after(slice_step_at(context, (n - 1) as nat), context)
    }
}

/// Position of a step in the order of a slice.
pub open spec fn slice_rank(step: SliceStep) -> int {
    match step {
        SliceStep::StartTradingDay => 0,
        SliceStep::SelectUniverse => 1,
        SliceStep::SyncChangedUniverse => 2,
        SliceStep::AdvanceFrontier => 3,
        SliceStep::RenotifyPricedSecurities => 4,
        SliceStep::ProcessLocalFills => 5,
        SliceStep::ProcessWithoutFills => 6,
        SliceStep::DrainBrokerageEvents => 7,
        SliceStep::RearmRebalance => 8,
        SliceStep::AppendEventsAndTrades => 9,
        SliceStep::DeliverData => 10,
        SliceStep::RunFramework => 11,
        SliceStep::DispatchOrders => 12,
        SliceStep::SyncSubscriptions => 13,
        SliceStep::EndTimeStep => 14,
        SliceStep::RecordSnapshot => 15,
        SliceStep::Done => 16,
    }
}

/// A slice goes through its steps in order, never back, and is done in the end.
pub proof fn law_slice_goes_forward(context: SliceContext, n: nat)
    ensures
        slice_step_at(context, n) != SliceStep::Done ==> slice_rank(slice_step_at(context, n))
            < slice_rank(slice_step_at(context, n + 1)),
        slice_rank(slice_step_at(context, n)) >= if n < 16 {
            n as int
        } else {
            16
        },
    decreases n,
{
    if n > 0 {
        law_slice_goes_forward(context, (n - 1) as nat);
    } else {
        assert(slice_step_at(context, 1) == SliceStep::SelectUniverse);
    }
}

/// Fills are simulated only where no brokerage routes orders. Brokerage events
/// are drained, refused orders bring a rebalance and new orders are sent only
/// where one does.
pub proof fn law_no_local_fills_under_real_routing(context: SliceContext, n: nat)
    ensures
        context.has_router ==> slice_step_at(context, n) != SliceStep::ProcessLocalFills,
        !context.has_router ==> slice_step_at(context, n) != SliceStep::ProcessWithoutFills
            && slice_step_at(context, n) != SliceStep::DrainBrokerageEvents && slice_step_at(
            context,
            n,
        ) != SliceStep::RearmRebalance && slice_step_at(context, n) != SliceStep::DispatchOrders,
    decreases n,
{
    if n > 0 {
        law_no_local_fills_under_real_routing(context, (n - 1) as nat);
    }
}

/// Every slice delivers its data, runs the framework and then syncs the
/// subscriptions.
pub proof fn law_every_slice_runs_the_framework(context: SliceContext)
    ensures
        exists|n: nat| #[trigger] slice_step_at(context, n) == SliceStep::RunFramework,
        exists|n: nat| #[trigger] slice_step_at(context, n) == SliceStep::SyncSubscriptions,
{
    let a: nat = if context.universe_changed {
        4
    } else {
        3
    };
    assert(slice_step_at(context, 0) == SliceStep::StartTradingDay);
    assert(slice_step_at(context, 1) == SliceStep::SelectUniverse);
    assert(slice_step_at(context, 2) == slice_step_after(SliceStep::SelectUniverse, context));
    assert(slice_step_at(context, 3) == slice_step_after(slice_step_at(context, 2), context));
    assert(slice_step_at(context, 4) == slice_step_after(slice_step_at(context, 3), context));
    assert(slice_step_at(context, a) == SliceStep::RenotifyPricedSecurities);
    let b: nat = if context.has_router {
        if context.has_transactions {
            a + 3
        } else {
            a + 2
        }
    } else {
        a + 1
    };
    assert(slice_step_at(context, a + 1) == slice_step_after(slice_step_at(context, a), context));
    assert(slice_step_at(context, a + 2) == slice_step_after(
        slice_step_at(context, a + 1),
        context,
    ));
    assert(slice_step_at(context, a + 3) == slice_step_after(
        slice_step_at(context, a + 2),
        context,
    ));
    assert(slice_step_at(context, b) == SliceStep::RearmRebalance || slice_step_at(context, b)
        == SliceStep::ProcessLocalFills);
    let c: nat = if context.has_writer {
        b + 2
    } else {
        b + 1
    };
    assert(slice_step_at(context, b + 1) == slice_step_after(slice_step_at(context, b), context));
    assert(slice_step_at(context, b + 2) == slice_step_after(
        slice_step_at(context, b + 1),
        context,
    ));
    assert(slice_step_at(context, c) == SliceStep::DeliverData);
    assert(slice_step_at(context, c + 1) == SliceStep::RunFramework);
    assert(slice_step_at(context, c + 2) == slice_step_after(SliceStep::RunFramework, context));
    assert(slice_step_at(context, c + 3) == slice_step_after(
        slice_step_at(context, c + 2),
        context,
    ));
}

// ---------------------------------------------------------------------------
// The loop
// ---------------------------------------------------------------------------

/// Whether a run has reached its limits.
pub open spec fn stops(
    slices_processed: usize,
    max_slices: Option<usize>,
    elapsed: Duration,
    max_runtime: Option<Duration>,
) -> bool {
    ||| max_slices matches Some(max) && slices_processed >= max
    ||| max_runtime matches Some(max) && elapsed.nanos >= max.nanos
}

pub fn should_stop(
    slices_processed: usize,
    max_slices: Option<usize>,
    elapsed: Duration,
    max_runtime: Option<Duration>,
) -> (res: bool)
    ensures
        res == stops(slices_processed, max_slices, elapsed, max_runtime),
{
    let enough_slices = match max_slices {
        Some(max) => slices_processed >= max,
        None => false,
    };
    let enough_time = match max_runtime {
        Some(max) => elapsed.nanos >= max.nanos,
        None => false,
    };
    enough_slices || enough_time
}

/// Where a live run is.
#[derive(Clone, Copy, Debug, PartialEq, Eq, Structural)]
pub enum LivePhase {
    /// Waiting for data.
    Receiving,
    /// This many assembled slices are left to process.
    Slices(usize),
    /// Data has ended; one unfinished slice may be left.
    Flushing,
    /// Only the shutdown is left.
    Stopped,
}

/// What a live run does next.
#[derive(Clone, Copy, Debug, PartialEq, Eq, Structural)]
pub enum LiveAction {
    Receive,
    ProcessSlice,
    /// Take what the assembler still holds.
    Flush,
    Shutdown,
}

/// The loop of a live run.
#[derive(Clone, Copy, Debug, PartialEq, Eq, Structural)]
pub struct LiveLoop {
    pub phase: LivePhase,
    pub max_slices: Option<usize>,
    pub max_runtime: Option<Duration>,
}

impl LiveLoop {
    pub fn new(max_slices: Option<usize>, max_runtime: Option<Duration>) -> (res: LiveLoop)
        ensures
            res == (LiveLoop { phase: LivePhase::Receiving, max_slices, max_runtime }),
    {
        LiveLoop { phase: LivePhase::Receiving, max_slices, max_runtime }
    }

    pub open spec fn at_limit(self, slices_processed: usize, elapsed: Duration) -> bool {
        stops(slices_processed, self.max_slices, elapsed, self.max_runtime)
    }

    /// Decides what comes next. Assembled slices are processed, and data is
    /// received until a limit is reached; then the assembler is flushed.
    pub fn next_action(&mut self, slices_processed: usize, elapsed: Duration) -> (res: LiveAction)
        ensures
            ({
                let limit = old(self).at_limit(slices_processed, elapsed);
                let (phase, action) = match old(self).phase {
                    LivePhase::Slices(left) if left > 0 => (
                        LivePhase::Slices(left),
                        LiveAction::ProcessSlice,
                    ),
                    LivePhase::Stopped => (LivePhase::Stopped, LiveAction::Shutdown),
                    LivePhase::Flushing => (LivePhase::Flushing, LiveAction::Flush),
                    _ => if limit {
                        (LivePhase::Flushing, LiveAction::Flush)
                    } else {
                        (LivePhase::Receiving, LiveAction::Receive)
                    },
                };
                &&& *final(self) == (LiveLoop { phase, ..*old(self) })
                &&& res == action
            }),
            loop_turned(
                *old(self),
                old(self).at_limit(slices_processed, elapsed),
                *final(self),
                res,
            ),
    {
        match self.phase {
            LivePhase::Slices(left) => {
                if left > 0 {
                    return LiveAction::ProcessSlice;
                }
            },
            LivePhase::Stopped => {
                return LiveAction::Shutdown;
            },
            LivePhase::Flushing => {
                return LiveAction::Flush;
            },
            LivePhase::Receiving => {},
        }
        if should_stop(slices_processed, self.max_slices, elapsed, self.max_runtime) {
            self.phase = LivePhase::Flushing;
            LiveAction::Flush
        } else {
            self.phase = LivePhase::Receiving;
            LiveAction::Receive
        }
    }

    /// Notes that the assembler was flushed, and tells whether the slice it held
    /// is processed: only within the limits of the run.
    pub fn flushed(&mut self, has_slice: bool, slices_processed: usize, elapsed: Duration) -> (process:
        bool)
        ensures
            *final(self) == (LiveLoop { phase: LivePhase::Stopped, ..*old(self) }),
            process == (has_slice && !old(self).at_limit(slices_processed, elapsed)),
    {
        self.phase = LivePhase::Stopped;
        has_slice && !should_stop(slices_processed, self.max_slices, elapsed, self.max_runtime)
    }

    /// Notes how many slices the received data completed.
    pub fn received(&mut self, slices: usize)
        ensures
            *final(self) == (LiveLoop {
                phase: if slices > 0 {
                    LivePhase::Slices(slices)
                } else {
                    LivePhase::Receiving
                },
                ..*old(self)
            }),
            data_received(*old(self), slices, *final(self)),
    {
        self.phase = if slices > 0 {
            LivePhase::Slices(slices)
        } else {
            LivePhase::Receiving
        };
    }

    /// Notes that a slice was processed. The run stops at once when the
    /// algorithm has ended or failed; at a limit the other slices are dropped.
    pub fn processed(&mut self, slices_processed: usize, elapsed: Duration, algorithm_ended: bool)
        requires
            old(self).phase matches LivePhase::Slices(left) && left > 0,
        ensures
            *final(self) == (LiveLoop {
                phase: if algorithm_ended {
                    LivePhase::Stopped
                } else if old(self).at_limit(slices_processed, elapsed) {
                    LivePhase::Receiving
                } else {
                    LivePhase::Slices((old(self).phase->Slices_0 - 1) as usize)
                },
                ..*old(self)
            }),
            slice_counted(
                *old(self),
                old(self).at_limit(slices_processed, elapsed),
                algorithm_ended,
                *final(self),
            ),
    {
        if algorithm_ended {
            self.phase = LivePhase::Stopped;
            return ;
        }
        if should_stop(slices_processed, self.max_slices, elapsed, self.max_runtime) {
            self.phase = LivePhase::Receiving;
            return ;
        }
        if let LivePhase::Slices(left) = self.phase {
            self.phase = LivePhase::Slices(left - 1);
        }
    }
}

// ---------------------------------------------------------------------------
// Shutdown
// ---------------------------------------------------------------------------

/// Steps of the shutdown of a live run.
#[derive(Clone, Copy, Debug, PartialEq, Eq, Structural)]
pub enum ShutdownStep {
    StopRouter,
    FinishAlgorithm,
    FlushCorporateActions,
    UnsubscribeMarketData,
    UnsubscribeCustomData,
    Done,
}

/// The first step: a router is stopped before the algorithm ends.
pub fn first_shutdown_step(has_router: bool) -> (res: ShutdownStep)
    ensures
        res == (if has_router {
            ShutdownStep::StopRouter
        } else {
            ShutdownStep::FinishAlgorithm
        }),
{
    if has_router {
        ShutdownStep::StopRouter
    } else {
        ShutdownStep::FinishAlgorithm
    }
}

/// The step after another.
pub open spec fn shutdown_step_after(step: ShutdownStep) -> ShutdownStep {
    match step {
        ShutdownStep::StopRouter => ShutdownStep::FinishAlgorithm,
        ShutdownStep::FinishAlgorithm => ShutdownStep::FlushCorporateActions,
        ShutdownStep::FlushCorporateActions => ShutdownStep::UnsubscribeMarketData,
        ShutdownStep::UnsubscribeMarketData => ShutdownStep::UnsubscribeCustomData,
        ShutdownStep::UnsubscribeCustomData => ShutdownStep::Done,
        ShutdownStep::Done => ShutdownStep::Done,
    }
}

/// The step after another. Subscriptions end after the algorithm has.
pub fn next_shutdown_step(step: ShutdownStep) -> (res: ShutdownStep)
    ensures
        res == shutdown_step_after(step),
{
    match step {
        ShutdownStep::StopRouter => ShutdownStep::FinishAlgorithm,
        ShutdownStep::FinishAlgorithm => ShutdownStep::FlushCorporateActions,
        ShutdownStep::FlushCorporateActions => ShutdownStep::UnsubscribeMarketData,
        ShutdownStep::UnsubscribeMarketData => ShutdownStep::UnsubscribeCustomData,
        ShutdownStep::UnsubscribeCustomData => ShutdownStep::Done,
        ShutdownStep::Done => ShutdownStep::Done,
    }
}

/// Whether a step has a place in the order, under the given conditions.
spec fn startup_step_fits(step: StartupStep, options: StartupOptions) -> bool {
    match step {
        StartupStep::SyncBrokerageState => true,
        StartupStep::InitializeAlgorithm => true,
        StartupStep::RestoreInsights => options.has_output_dir,
        StartupStep::RestoreInsightSecurities => true,
        StartupStep::PrepareDataDelivery => true,
        StartupStep::FinishWarmup => true,
        StartupStep::ResolveCorporateActions => true,
        StartupStep::SubscribeMarketData => true,
        StartupStep::SyncAccount => options.real_routing,
        StartupStep::SpawnRouter => options.real_routing,
        StartupStep::LiquidateUnmanagedHoldings => options.real_routing,
        StartupStep::RestorePaperAccount => options.paper_trading && options.has_output_dir,
        StartupStep::RecordSnapshot => options.has_output_dir && options.can_snapshot,
        StartupStep::SubscribeCustomData => true,
        StartupStep::Run => true,
    }
}

proof fn lemma_startup_step_fits(options: StartupOptions, n: nat)
    ensures
        startup_step_fits(startup_at(options, n), options),
        startup_at(options, n + 1) == step_after(startup_at(options, n), options),
    decreases n,
{
    if n > 0 {
        lemma_startup_step_fits(options, (n - 1) as nat);
    }
}

/// A startup takes every step that its options call for, and no other: insights are
/// restored where files are written, the account is synced, the router started and
/// holdings without an insight sold under real routing, a paper account is restored
/// from its files, and a snapshot is recorded where one can be.
pub proof fn law_startup_takes_every_step(options: StartupOptions)
    ensures
        exists|n: nat| #[trigger] startup_at(options, n) == StartupStep::SyncBrokerageState,
        exists|n: nat| #[trigger] startup_at(options, n) == StartupStep::InitializeAlgorithm,
        (exists|n: nat| #[trigger] startup_at(options, n) == StartupStep::RestoreInsights) <==> (options.has_output_dir),
        exists|n: nat| #[trigger] startup_at(options, n) == StartupStep::RestoreInsightSecurities,
        exists|n: nat| #[trigger] startup_at(options, n) == StartupStep::PrepareDataDelivery,
        exists|n: nat| #[trigger] startup_at(options, n) == StartupStep::FinishWarmup,
        exists|n: nat| #[trigger] startup_at(options, n) == StartupStep::ResolveCorporateActions,
        exists|n: nat| #[trigger] startup_at(options, n) == StartupStep::SubscribeMarketData,
        (exists|n: nat| #[trigger] startup_at(options, n) == StartupStep::SyncAccount) <==> (options.real_routing),
        (exists|n: nat| #[trigger] startup_at(options, n) == StartupStep::SpawnRouter) <==> (options.real_routing),
        (exists|n: nat| #[trigger] startup_at(options, n) == StartupStep::LiquidateUnmanagedHoldings) <==> (options.real_routing),
        (exists|n: nat| #[trigger] startup_at(options, n) == StartupStep::RestorePaperAccount) <==> (options.paper_trading && options.has_output_dir),
        (exists|n: nat| #[trigger] startup_at(options, n) == StartupStep::RecordSnapshot) <==> (options.has_output_dir && options.can_snapshot),
        exists|n: nat| #[trigger] startup_at(options, n) == StartupStep::SubscribeCustomData,
        exists|n: nat| #[trigger] startup_at(options, n) == StartupStep::Run,
{
    let at0: nat = 0;
    assert(startup_at(options, at0) == StartupStep::SyncBrokerageState);
    lemma_startup_step_fits(options, at0);
    let at1: nat = at0 + 1;
    assert(startup_at(options, at1) == StartupStep::InitializeAlgorithm);
    lemma_startup_step_fits(options, at1);
    let at2: nat = if options.has_output_dir {
        at1 + 1
    } else {
        at1
    };
    assert(options.has_output_dir ==> startup_at(options, at2) == StartupStep::RestoreInsights);
    lemma_startup_step_fits(options, at2);
    let at3: nat = at2 + 1;
    assert(startup_at(options, at3) == StartupStep::RestoreInsightSecurities);
    lemma_startup_step_fits(options, at3);
    let at4: nat = at3 + 1;
    assert(startup_at(options, at4) == StartupStep::PrepareDataDelivery);
    lemma_startup_step_fits(options, at4);
    let at5: nat = at4 + 1;
    assert(startup_at(options, at5) == StartupStep::FinishWarmup);
    lemma_startup_step_fits(options, at5);
    let at6: nat = at5 + 1;
    assert(startup_at(options, at6) == StartupStep::ResolveCorporateActions);
    lemma_startup_step_fits(options, at6);
    let at7: nat = at6 + 1;
    assert(startup_at(options, at7) == StartupStep::SubscribeMarketData);
    lemma_startup_step_fits(options, at7);
    let at8: nat = if options.real_routing {
        at7 + 1
    } else {
        at7
    };
    assert(options.real_routing ==> startup_at(options, at8) == StartupStep::SyncAccount);
    lemma_startup_step_fits(options, at8);
    let at9: nat = if options.real_routing {
        at8 + 1
    } else {
        at8
    };
    assert(options.real_routing ==> startup_at(options, at9) == StartupStep::SpawnRouter);
    lemma_startup_step_fits(options, at9);
    let at10: nat = if options.real_routing {
        at9 + 1
    } else {
        at9
    };
    assert(options.real_routing ==> startup_at(options, at10) == StartupStep::LiquidateUnmanagedHoldings);
    lemma_startup_step_fits(options, at10);
    let at11: nat = if options.paper_trading && options.has_output_dir {
        at10 + 1
    } else {
        at10
    };
    assert((options.paper_trading && options.has_output_dir) ==> startup_at(options, at11) == StartupStep::RestorePaperAccount);
    lemma_startup_step_fits(options, at11);
    let at12: nat = if options.has_output_dir && options.can_snapshot {
        at11 + 1
    } else {
        at11
    };
    assert((options.has_output_dir && options.can_snapshot) ==> startup_at(options, at12) == StartupStep::RecordSnapshot);
    lemma_startup_step_fits(options, at12);
    let at13: nat = at12 + 1;
    assert(startup_at(options, at13) == StartupStep::SubscribeCustomData);
    lemma_startup_step_fits(options, at13);
    let at14: nat = at13 + 1;
    assert(startup_at(options, at14) == StartupStep::Run);
    if exists|n: nat| #[trigger] startup_at(options, n) == StartupStep::RestoreInsights {
        let n = choose|n: nat| #[trigger] startup_at(options, n) == StartupStep::RestoreInsights;
        lemma_startup_step_fits(options, n);
    }
    if exists|n: nat| #[trigger] startup_at(options, n) == StartupStep::SyncAccount {
        let n = choose|n: nat| #[trigger] startup_at(options, n) == StartupStep::SyncAccount;
        lemma_startup_step_fits(options, n);
    }
    if exists|n: nat| #[trigger] startup_at(options, n) == StartupStep::SpawnRouter {
        let n = choose|n: nat| #[trigger] startup_at(options, n) == StartupStep::SpawnRouter;
        lemma_startup_step_fits(options, n);
    }
    if exists|n: nat| #[trigger] startup_at(options, n) == StartupStep::LiquidateUnmanagedHoldings {
        let n = choose|n: nat| #[trigger] startup_at(options, n) == StartupStep::LiquidateUnmanagedHoldings;
        lemma_startup_step_fits(options, n);
    }
    if exists|n: nat| #[trigger] startup_at(options, n) == StartupStep::RestorePaperAccount {
        let n = choose|n: nat| #[trigger] startup_at(options, n) == StartupStep::RestorePaperAccount;
        lemma_startup_step_fits(options, n);
    }
    if exists|n: nat| #[trigger] startup_at(options, n) == StartupStep::RecordSnapshot {
        let n = choose|n: nat| #[trigger] startup_at(options, n) == StartupStep::RecordSnapshot;
        lemma_startup_step_fits(options, n);
    }
}

/// Whether a step has a place in the order, under the given conditions.
spec fn slice_step_fits(step: SliceStep, context: SliceContext) -> bool {
    match step {
        SliceStep::StartTradingDay => true,
        SliceStep::SelectUniverse => true,
        SliceStep::SyncChangedUniverse => context.universe_changed,
        SliceStep::AdvanceFrontier => true,
        SliceStep::RenotifyPricedSecurities => true,
        SliceStep::ProcessLocalFills => !context.has_router,
        SliceStep::ProcessWithoutFills => context.has_router,
        SliceStep::DrainBrokerageEvents => context.has_router && context.has_transactions,
        SliceStep::RearmRebalance => context.has_router,
        SliceStep::AppendEventsAndTrades => context.has_writer,
        SliceStep::DeliverData => true,
        SliceStep::RunFramework => true,
        SliceStep::DispatchOrders => context.has_router && context.has_transactions,
        SliceStep::SyncSubscriptions => true,
        SliceStep::EndTimeStep => true,
        SliceStep::RecordSnapshot => context.has_writer && context.can_snapshot,
        SliceStep::Done => true,
    }
}

proof fn lemma_slice_step_fits(context: SliceContext, n: nat)
    ensures
        slice_step_fits(slice_step_at(context, n), context),
        slice_step_at(context, n + 1) == slice_step_after(slice_step_at(context, n), context),
    decreases n,
{
    if n > 0 {
        lemma_slice_step_fits(context, (n - 1) as nat);
    }
}

/// A live slice takes every step that its circumstances call for, and no other. Its
/// data are delivered, the framework runs and the subscriptions are synced in any
/// case; fills are simulated without a router and reported by the brokerage with one.
pub proof fn law_slice_takes_every_step(context: SliceContext)
    ensures
        exists|n: nat| #[trigger] slice_step_at(context, n) == SliceStep::StartTradingDay,
        exists|n: nat| #[trigger] slice_step_at(context, n) == SliceStep::SelectUniverse,
        (exists|n: nat| #[trigger] slice_step_at(context, n) == SliceStep::SyncChangedUniverse) <==> (context.universe_changed),
        exists|n: nat| #[trigger] slice_step_at(context, n) == SliceStep::AdvanceFrontier,
        exists|n: nat| #[trigger] slice_step_at(context, n) == SliceStep::RenotifyPricedSecurities,
        (exists|n: nat| #[trigger] slice_step_at(context, n) == SliceStep::ProcessLocalFills) <==> (!context.has_router),
        (exists|n: nat| #[trigger] slice_step_at(context, n) == SliceStep::ProcessWithoutFills) <==> (context.has_router),
        (exists|n: nat| #[trigger] slice_step_at(context, n) == SliceStep::DrainBrokerageEvents) <==> (context.has_router && context.has_transactions),
        (exists|n: nat| #[trigger] slice_step_at(context, n) == SliceStep::RearmRebalance) <==> (context.has_router),
        (exists|n: nat| #[trigger] slice_step_at(context, n) == SliceStep::AppendEventsAndTrades) <==> (context.has_writer),
        exists|n: nat| #[trigger] slice_step_at(context, n) == SliceStep::DeliverData,
        exists|n: nat| #[trigger] slice_step_at(context, n) == SliceStep::RunFramework,
        (exists|n: nat| #[trigger] slice_step_at(context, n) == SliceStep::DispatchOrders) <==> (context.has_router && context.has_transactions),
        exists|n: nat| #[trigger] slice_step_at(context, n) == SliceStep::SyncSubscriptions,
        exists|n: nat| #[trigger] slice_step_at(context, n) == SliceStep::EndTimeStep,
        (exists|n: nat| #[trigger] slice_step_at(context, n) == SliceStep::RecordSnapshot) <==> (context.has_writer && context.can_snapshot),
        exists|n: nat| #[trigger] slice_step_at(context, n) == SliceStep::Done,
{
    let at0: nat = 0;
    assert(slice_step_at(context, at0) == SliceStep::StartTradingDay);
    lemma_slice_step_fits(context, at0);
    let at1: nat = at0 + 1;
    assert(slice_step_at(context, at1) == SliceStep::SelectUniverse);
    lemma_slice_step_fits(context, at1);
    let at2: nat = if context.universe_changed {
        at1 + 1
    } else {
        at1
    };
    assert(context.universe_changed ==> slice_step_at(context, at2) == SliceStep::SyncChangedUniverse);
    lemma_slice_step_fits(context, at2);
    let at3: nat = at2 + 1;
    assert(slice_step_at(context, at3) == SliceStep::AdvanceFrontier);
    lemma_slice_step_fits(context, at3);
    let at4: nat = at3 + 1;
    assert(slice_step_at(context, at4) == SliceStep::RenotifyPricedSecurities);
    lemma_slice_step_fits(context, at4);
    let at5: nat = if !context.has_router {
        at4 + 1
    } else {
        at4
    };
    assert(!context.has_router ==> slice_step_at(context, at5) == SliceStep::ProcessLocalFills);
    lemma_slice_step_fits(context, at5);
    let at6: nat = if context.has_router {
        at5 + 1
    } else {
        at5
    };
    assert(context.has_router ==> slice_step_at(context, at6) == SliceStep::ProcessWithoutFills);
    lemma_slice_step_fits(context, at6);
    let at7: nat = if context.has_router && context.has_transactions {
        at6 + 1
    } else {
        at6
    };
    assert((context.has_router && context.has_transactions) ==> slice_step_at(context, at7) == SliceStep::DrainBrokerageEvents);
    lemma_slice_step_fits(context, at7);
    let at8: nat = if context.has_router {
        at7 + 1
    } else {
        at7
    };
    assert(context.has_router ==> slice_step_at(context, at8) == SliceStep::RearmRebalance);
    lemma_slice_step_fits(context, at8);
    let at9: nat = if context.has_writer {
        at8 + 1
    } else {
        at8
    };
    assert(context.has_writer ==> slice_step_at(context, at9) == SliceStep::AppendEventsAndTrades);
    lemma_slice_step_fits(context, at9);
    let at10: nat = at9 + 1;
    assert(slice_step_at(context, at10) == SliceStep::DeliverData);
    lemma_slice_step_fits(context, at10);
    let at11: nat = at10 + 1;
    assert(slice_step_at(context, at11) == SliceStep::RunFramework);
    lemma_slice_step_fits(context, at11);
    let at12: nat = if context.has_router && context.has_transactions {
        at11 + 1
    } else {
        at11
    };
    assert((context.has_router && context.has_transactions) ==> slice_step_at(context, at12) == SliceStep::DispatchOrders);
    lemma_slice_step_fits(context, at12);
    let at13: nat = at12 + 1;
    assert(slice_step_at(context, at13) == SliceStep::SyncSubscriptions);
    lemma_slice_step_fits(context, at13);
    let at14: nat = at13 + 1;
    assert(slice_step_at(context, at14) == SliceStep::EndTimeStep);
    lemma_slice_step_fits(context, at14);
    let at15: nat = if context.has_writer && context.can_snapshot {
        at14 + 1
    } else {
        at14
    };
    assert((context.has_writer && context.can_snapshot) ==> slice_step_at(context, at15) == SliceStep::RecordSnapshot);
    lemma_slice_step_fits(context, at15);
    let at16: nat = at15 + 1;
    assert(slice_step_at(context, at16) == SliceStep::Done);
    if exists|n: nat| #[trigger] slice_step_at(context, n) == SliceStep::SyncChangedUniverse {
        let n = choose|n: nat| #[trigger] slice_step_at(context, n) == SliceStep::SyncChangedUniverse;
        lemma_slice_step_fits(context, n);
    }
    if exists|n: nat| #[trigger] slice_step_at(context, n) == SliceStep::ProcessLocalFills {
        let n = choose|n: nat| #[trigger] slice_step_at(context, n) == SliceStep::ProcessLocalFills;
        lemma_slice_step_fits(context, n);
    }
    if exists|n: nat| #[trigger] slice_step_at(context, n) == SliceStep::ProcessWithoutFills {
        let n = choose|n: nat| #[trigger] slice_step_at(context, n) == SliceStep::ProcessWithoutFills;
        lemma_slice_step_fits(context, n);
    }
    if exists|n: nat| #[trigger] slice_step_at(context, n) == SliceStep::DrainBrokerageEvents {
        let n = choose|n: nat| #[trigger] slice_step_at(context, n) == SliceStep::DrainBrokerageEvents;
        lemma_slice_step_fits(context, n);
    }
    if exists|n: nat| #[trigger] slice_step_at(context, n) == SliceStep::RearmRebalance {
        let n = choose|n: nat| #[trigger] slice_step_at(context, n) == SliceStep::RearmRebalance;
        lemma_slice_step_fits(context, n);
    }
    if exists|n: nat| #[trigger] slice_step_at(context, n) == SliceStep::AppendEventsAndTrades {
        let n = choose|n: nat| #[trigger] slice_step_at(context, n) == SliceStep::AppendEventsAndTrades;
        lemma_slice_step_fits(context, n);
    }
    if exists|n: nat| #[trigger] slice_step_at(context, n) == SliceStep::DispatchOrders {
        let n = choose|n: nat| #[trigger] slice_step_at(context, n) == SliceStep::DispatchOrders;
        lemma_slice_step_fits(context, n);
    }
    if exists|n: nat| #[trigger] slice_step_at(context, n) == SliceStep::RecordSnapshot {
        let n = choose|n: nat| #[trigger] slice_step_at(context, n) == SliceStep::RecordSnapshot;
        lemma_slice_step_fits(context, n);
    }
}

/// A shutdown ends the algorithm, writes what is held back and unsubscribes, in this
/// order, and is then over.
pub proof fn law_shutdown_takes_every_step()
    ensures
        shutdown_step_after(ShutdownStep::StopRouter) == ShutdownStep::FinishAlgorithm,
        shutdown_step_after(shutdown_step_after(ShutdownStep::StopRouter))
            == ShutdownStep::FlushCorporateActions,
        shutdown_step_after(ShutdownStep::FlushCorporateActions)
            == ShutdownStep::UnsubscribeMarketData,
        shutdown_step_after(shutdown_step_after(ShutdownStep::FlushCorporateActions))
            == ShutdownStep::UnsubscribeCustomData,
        shutdown_step_after(ShutdownStep::UnsubscribeCustomData) == ShutdownStep::Done,
        shutdown_step_after(ShutdownStep::Done) == ShutdownStep::Done,
{
}

/// A run stops at the first limit that it reaches, and goes on below both; one without
/// limits never stops by itself.
pub proof fn law_runs_stop_at_their_limits(
    slices: usize,
    max_slices: Option<usize>,
    elapsed: Duration,
    max_runtime: Option<Duration>,
)
    ensures
        max_slices is None && max_runtime is None ==> !stops(
            slices,
            max_slices,
            elapsed,
            max_runtime,
        ),
        max_slices matches Some(max) && slices >= max ==> stops(
            slices,
            max_slices,
            elapsed,
            max_runtime,
        ),
        max_runtime matches Some(max) && elapsed.nanos >= max.nanos ==> stops(
            slices,
            max_slices,
            elapsed,
            max_runtime,
        ),
        (max_slices matches Some(max) ==> slices < max) && (max_runtime matches Some(max)
            ==> elapsed.nanos < max.nanos) ==> !stops(slices, max_slices, elapsed, max_runtime),
{
}

/// Each security of the insights is brought back once. One that is not subscribed is
/// added, if its type allows it; one without a price is given its last close, and
/// waits for a price where there is none. Securities that are there already, or cannot
/// be brought back, change nothing.
pub proof fn law_insight_securities_are_brought_back(
    securities: Seq<InsightSecurity>,
    security: InsightSecurity,
)
    ensures
        ({
            let before = with_insights(securities);
            let after = with_insights(securities.push(security));
            let sid = security.symbol.sid;
            let known = before.seen.contains(sid);
            let allowed = security.subscribed || restorable(security.symbol.security_type);
            let priced = security.current_price.mantissa > 0;
            let seedable = security.last_close matches Some(price) && price.mantissa > 0;
            &&& after.seen.contains(sid)
            &&& known || !allowed ==> after.added == before.added && after.seeded == before.seeded
                && after.pending == before.pending
            &&& !known && allowed ==> {
                &&& security.subscribed ==> after.added == before.added
                &&& !security.subscribed ==> after.added == before.added.push(security.symbol)
                &&& priced ==> after.seeded == before.seeded && after.pending == before.pending
                &&& !priced && seedable ==> after.seeded == before.seeded.push(
                    (sid, security.last_close->Some_0),
                ) && after.pending == before.pending
                &&& !priced && !seedable ==> after.seeded == before.seeded && after.pending
                    == before.pending.push(security.symbol)
            }
        }),
        with_insights(Seq::empty()).added.len() == 0,
        with_insights(Seq::empty()).seeded.len() == 0,
        with_insights(Seq::empty()).pending.len() == 0,
{
    assert(securities.push(security).drop_last() =~= securities);
}

/// Equities, options, currencies and crypto assets can be registered again; futures
/// and indexes cannot.
pub proof fn law_restorable_types()
    ensures
        restorable(SecurityType::Equity),
        restorable(SecurityType::Option),
        restorable(SecurityType::Forex),
        restorable(SecurityType::Crypto),
        restorable(SecurityType::CryptoFuture),
        !restorable(SecurityType::Future),
        !restorable(SecurityType::FutureOption),
        !restorable(SecurityType::Index),
{
}

/// A refused order brings a rebalance where its security has an active insight and
/// retries are left; only the first refusal of a security in a slice counts, and other
/// events do not.
pub proof fn law_refused_orders_bring_a_rebalance(
    budget: Map<u64, u32>,
    events: Seq<OrderEvent>,
    event: OrderEvent,
    insight_sids: Seq<u64>,
)
    ensures
        ({
            let before = with_events(budget, events, insight_sids);
            let after = with_events(budget, events.push(event), insight_sids);
            let sid = event.symbol.sid;
            let first = event.status == OrderStatus::Invalid && !before.seen.contains(sid);
            &&& !first ==> after == before
            &&& first && insight_sids.contains(sid) && retries_of(before.budget, sid)
                < MAX_INSIGHT_RETRIES ==> after.rearmed == before.rearmed.push(sid) && retries_of(
                after.budget,
                sid,
            ) == retries_of(before.budget, sid) + 1
            &&& first && !(insight_sids.contains(sid) && retries_of(before.budget, sid)
                < MAX_INSIGHT_RETRIES) ==> after.rearmed == before.rearmed && retries_of(
                after.budget,
                sid,
            ) == retries_of(before.budget, sid)
            &&& first ==> after.seen.contains(sid)
        }),
{
    assert(events.push(event).drop_last() =~= events);
}

/// A holding is sold if it is not empty and no insight covers it; what is sold is all
/// of it, and nothing is sold twice.
pub proof fn law_unmanaged_holdings_are_closed(
    holdings: Seq<BrokerageHolding>,
    holding: BrokerageHolding,
    managed: Seq<u64>,
    order: Order,
    id: int,
)
    ensures
        unmanaged_holdings(holdings.push(holding), managed) == (if holding.quantity.mantissa != 0
            && !managed.contains(holding.symbol.sid) {
            unmanaged_holdings(holdings, managed).push(holding)
        } else {
            unmanaged_holdings(holdings, managed)
        }),
        closes(order, holding, id) && holding.quantity.wf() ==> {
            &&& value(order.quantity) + value(holding.quantity) == 0
            &&& order.symbol == holding.symbol
            &&& order.order_type == OrderType::Market
            &&& order.status == OrderStatus::New
            &&& order.id == id
        },
{
    reveal(Seq::filter);
    assert(holdings.push(holding).drop_last() =~= holdings);
    if holding.quantity.wf() {
        law_negation_mirrors_the_value(holding.quantity);
    }
}

/// How a live run goes on.
pub open spec fn loop_turned(
    before: LiveLoop,
    at_limit: bool,
    after: LiveLoop,
    action: LiveAction,
) -> bool {
    &&& after.max_slices == before.max_slices
    &&& after.max_runtime == before.max_runtime
    &&& match before.phase {
        LivePhase::Stopped => action == LiveAction::Shutdown && after.phase == LivePhase::Stopped,
        LivePhase::Flushing => action == LiveAction::Flush && after.phase == LivePhase::Flushing,
        LivePhase::Slices(left) if left > 0 => action == LiveAction::ProcessSlice && after.phase
            == before.phase,
        _ => if at_limit {
            action == LiveAction::Flush && after.phase == LivePhase::Flushing
        } else {
            action == LiveAction::Receive && after.phase == LivePhase::Receiving
        },
    }
}

/// A live run processes the slices it has before it receives more, receives only below its
/// limits, and shuts down once it has stopped and not before.
pub proof fn law_live_run_goes_on_below_its_limits(
    before: LiveLoop,
    at_limit: bool,
    after: LiveLoop,
    action: LiveAction,
)
    requires
        loop_turned(before, at_limit, after, action),
    ensures
        action == LiveAction::Shutdown <==> before.phase == LivePhase::Stopped,
        (before.phase matches LivePhase::Slices(left) && left > 0) <==> action
            == LiveAction::ProcessSlice,
        action == LiveAction::Receive ==> !at_limit,
        before.phase == LivePhase::Receiving && at_limit ==> action == LiveAction::Flush,
        before.phase == LivePhase::Receiving && !at_limit ==> action == LiveAction::Receive,
        after.max_slices == before.max_slices && after.max_runtime == before.max_runtime,
{
}

/// Where a live run is after a slice.
pub open spec fn slice_counted(
    before: LiveLoop,
    at_limit: bool,
    ended: bool,
    after: LiveLoop,
) -> bool {
    &&& after.max_slices == before.max_slices
    &&& after.max_runtime == before.max_runtime
    &&& if ended {
        after.phase == LivePhase::Stopped
    } else if at_limit {
        after.phase == LivePhase::Receiving
    } else {
        before.phase matches LivePhase::Slices(left) && after.phase == LivePhase::Slices(
            (left - 1) as usize,
        )
    }
}

/// A run stops at once when its algorithm has ended; below its limits it goes on with the
/// next slice, and at a limit it processes none any more.
pub proof fn law_live_run_ends_with_its_algorithm(
    before: LiveLoop,
    at_limit: bool,
    ended: bool,
    after: LiveLoop,
    left: usize,
    next: LiveLoop,
    action: LiveAction,
)
    requires
        before.phase == LivePhase::Slices(left),
        left > 0,
        slice_counted(before, at_limit, ended, after),
        loop_turned(after, at_limit, next, action),
    ensures
        ended ==> action == LiveAction::Shutdown,
        !ended && at_limit ==> action == LiveAction::Flush,
        !ended && !at_limit && left > 1 ==> action == LiveAction::ProcessSlice && next.phase
            == LivePhase::Slices((left - 1) as usize),
        !ended && !at_limit && left == 1 ==> action == LiveAction::Receive,
{
}

/// Where a live run is once data were received.
pub open spec fn data_received(before: LiveLoop, slices: usize, after: LiveLoop) -> bool {
    &&& after.max_slices == before.max_slices
    &&& after.max_runtime == before.max_runtime
    &&& slices == 0 ==> after.phase == LivePhase::Receiving
    &&& slices > 0 ==> after.phase == LivePhase::Slices(slices)
}

/// All slices that the data completed are processed before anything else is received.
pub proof fn law_completed_slices_are_processed(
    before: LiveLoop,
    slices: usize,
    after: LiveLoop,
    next: LiveLoop,
    action: LiveAction,
    done: LiveLoop,
)
    requires
        data_received(before, slices, after),
        loop_turned(after, false, next, action),
        slice_counted(next, false, false, done),
    ensures
        slices > 0 ==> action == LiveAction::ProcessSlice,
        slices == 0 ==> action == LiveAction::Receive,
        slices > 0 ==> done.phase == LivePhase::Slices((slices - 1) as usize),
        next.max_slices == before.max_slices && next.max_runtime == before.max_runtime,
{
}

} // verus!
