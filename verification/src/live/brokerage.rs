//! State of a brokerage account.

use crate::decimal::Decimal;
use crate::model::Symbol;
use crate::name_map::NameMap;
use crate::orders::OrderEvent;
use vstd::prelude::*;

verus! {

/// Cash, holdings and recent order events of an account.
pub struct BrokerageSyncState {
    pub cash: NameMap<Decimal>,
    pub holdings: Vec<(Symbol, Decimal)>,
    pub order_events: Vec<OrderEvent>,
}

/// The state that a run starts from. Account data are taken over by the startup
/// sync, so it is empty with or without a brokerage.
pub fn sync_brokerage_state() -> (res: BrokerageSyncState)
    ensures
        res.cash.wf(),
        res.cash@ == Map::<Seq<char>, Decimal>::empty(),
        res.holdings@.len() == 0,
        res.order_events@.len() == 0,
{
    BrokerageSyncState { cash: NameMap::new(), holdings: Vec::new(), order_events: Vec::new() }
}

} // verus!
