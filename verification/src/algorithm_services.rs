//! How slices, universe selections and execution requests act on an algorithm.

use crate::decimal::Decimal;
use crate::model::{QuoteBar, SecurityType, Symbol, TradeBar};
use crate::orders::Order;
use crate::slice::Slice;
use crate::text::{ascii_upper, text_eq, to_ascii_uppercase, trim, trimmed};
use vstd::prelude::*;
use vstd::string::*;

verus! {

/// Securities that a selection adds and removes.
pub struct SecurityChanges {
    pub added: Vec<Symbol>,
    pub removed: Vec<Symbol>,
}

impl SecurityChanges {
    /// Whether anything is added or removed.
    pub fn has_changes(&self) -> (res: bool)
        ensures
            res == (self.added@.len() > 0 || self.removed@.len() > 0),
    {
        self.added.len() > 0 || self.removed.len() > 0
    }
}

/// A security that a selection removes.
pub struct RemovedSecurity {
    pub symbol: Symbol,
    pub invested: bool,
    pub option_underlying: bool,
}

/// Positions of the removed securities that are unsubscribed: those that are
/// neither invested nor the underlying of an option.
pub open spec fn unsubscribed(removed: Seq<RemovedSecurity>) -> Seq<int>
    decreases removed.len(),
{
    if removed.len() == 0 {
        Seq::empty()
    } else {
        let head = unsubscribed(removed.drop_last());
        if !removed.last().invested && !removed.last().option_underlying {
            head.push(removed.len() - 1)
        } else {
            head
        }
    }
}

/// Which removed securities are unsubscribed. Added ones are all subscribed.
pub fn register_universe_changes(removed: &Vec<RemovedSecurity>) -> (res: Vec<usize>)
    ensures
        res@.map_values(|i: usize| i as int) == unsubscribed(removed@),
{
    let mut out: Vec<usize> = Vec::new();
    let mut i: usize = 0;
    let ghost as_int = |i: usize| i as int;
    assert(out@.map_values(as_int) =~= Seq::<int>::empty());
    assert(removed@.take(0) =~= Seq::<RemovedSecurity>::empty());
    while i < removed.len()
        invariant
            i <= removed@.len(),
            as_int == |i: usize| i as int,
            out@.map_values(as_int) == unsubscribed(removed@.take(i as int)),
        decreases removed.len() - i,
    {
        let ghost before = out@;
        proof {
            assert(removed@.take(i + 1).drop_last() =~= removed@.take(i as int));
            assert(removed@.take(i + 1).last() == removed@[i as int]);
        }
        if !removed[i].invested && !removed[i].option_underlying {
            out.push(i);
            assert(out@.map_values(as_int) =~= before.map_values(as_int).push(i as int));
        }
        i = i + 1;
    }
    assert(removed@.take(i as int) =~= removed@);
    out
}

/// Adds the changes of one selection to those of the instant.
pub fn apply_universe_changes(merged: &mut SecurityChanges, changes: SecurityChanges) -> (applied: bool)
    ensures
        applied == (changes.added@.len() > 0 || changes.removed@.len() > 0),
        final(merged).added@ == old(merged).added@ + changes.added@,
        final(merged).removed@ == old(merged).removed@ + changes.removed@,
{
    let mut changes = changes;
    if !changes.has_changes() {
        assert(merged.added@ + changes.added@ =~= merged.added@);
        assert(merged.removed@ + changes.removed@ =~= merged.removed@);
        return false;
    }
    merged.added.append(&mut changes.added);
    merged.removed.append(&mut changes.removed);
    true
}

/// A custom row that may name the leverage of a security.
pub struct LeverageRow {
    /// Text of its field `symbol`, if it has one.
    pub symbol: Option<String>,
    /// Whether its field `max_leverage` is a number.
    pub has_leverage: bool,
}

/// The security that a row names, in capitals and without white space around it.
pub open spec fn row_key(row: LeverageRow) -> Option<Seq<char>> {
    match row.symbol {
        Some(symbol) if row.has_leverage && ascii_upper(trimmed(symbol@)).len() > 0 => Some(
            ascii_upper(trimmed(symbol@)),
        ),
        _ => None,
    }
}

/// Position of the last row that names a security.
pub open spec fn leverage_row(rows: Seq<LeverageRow>, key: Seq<char>) -> Option<int>
    decreases rows.len(),
{
    if rows.len() == 0 {
        None
    } else if row_key(rows.last()) == Some(key) {
        Some(rows.len() - 1)
    } else {
        leverage_row(rows.drop_last(), key)
    }
}

/// Whether a security takes its leverage from custom rows: it is a crypto future
/// of the market that publishes them.
pub open spec fn takes_leverage(symbol: Symbol, market: Seq<char>) -> bool {
    symbol.security_type == SecurityType::CryptoFuture && symbol.market@ == market
}

/// Position of the row that gives the leverage of a security: the last one that
/// names it. Only crypto futures of one market take their leverage from rows.
pub open spec fn leverage_source(
    symbol: Symbol,
    market: Seq<char>,
    rows: Seq<LeverageRow>,
) -> Option<int> {
    if takes_leverage(symbol, market) {
        leverage_row(rows, ascii_upper(trimmed(symbol.value@)))
    } else {
        None
    }
}

fn find_leverage(symbol: &Symbol, market: &str, rows: &Vec<LeverageRow>) -> (res: Option<usize>)
    ensures
        match res {
            Some(i) => leverage_source(*symbol, market@, rows@) == Some(i as int),
            None => leverage_source(*symbol, market@, rows@) is None,
        },
{
    if symbol.security_type != SecurityType::CryptoFuture || !text_eq(
        symbol.market.as_str(),
        market,
    ) {
        return None;
    }
    let bare = trim(symbol.value.as_str());
    let key = to_ascii_uppercase(bare.as_str());
    let mut n: usize = rows.len();
    assert(rows@.take(n as int) =~= rows@);
    while n > 0
        invariant
            n <= rows@.len(),
            takes_leverage(*symbol, market@),
            key@ == ascii_upper(trimmed(symbol.value@)),
            leverage_row(rows@, key@) == leverage_row(rows@.take(n as int), key@),
        decreases n,
    {
        let row = &rows[n - 1];
        proof {
            assert(rows@.take(n as int).last() == rows@[n - 1]);
            assert(rows@.take(n as int).drop_last() =~= rows@.take(n - 1));
        }
        let names = match &row.symbol {
            Some(text) => {
                let bare_text = trim(text.as_str());
                let name = to_ascii_uppercase(bare_text.as_str());
                row.has_leverage && !name.as_str().is_empty() && text_eq(
                    name.as_str(),
                    key.as_str(),
                )
            },
            None => false,
        };
        if names {
            return Some(n - 1);
        }
        n = n - 1;
    }
    None
}

/// Securities, by position, with the positions of the rows that give their
/// leverage.
pub open spec fn leverage_sources(
    symbols: Seq<Symbol>,
    market: Seq<char>,
    rows: Seq<LeverageRow>,
) -> Seq<(int, int)>
    decreases symbols.len(),
{
    if symbols.len() == 0 {
        Seq::empty()
    } else {
        let head = leverage_sources(symbols.drop_last(), market, rows);
        match leverage_source(symbols.last(), market, rows) {
            Some(row) => head.push((symbols.len() - 1, row)),
            None => head,
        }
    }
}

/// Finds the leverage of the securities of a custom universe: for each that has
/// one, its position and that of its row.
pub fn register_custom_universe_leverage_metadata(
    symbols: &Vec<Symbol>,
    market: &str,
    rows: &Vec<LeverageRow>,
) -> (res: Vec<(usize, usize)>)
    ensures
        res@.map_values(|pair: (usize, usize)| (pair.0 as int, pair.1 as int)) == leverage_sources(
            symbols@,
            market@,
            rows@,
        ),
{
    let mut out: Vec<(usize, usize)> = Vec::new();
    let ghost as_ints = |pair: (usize, usize)| (pair.0 as int, pair.1 as int);
    let mut i: usize = 0;
    assert(out@.map_values(as_ints) =~= Seq::<(int, int)>::empty());
    assert(symbols@.take(0) =~= Seq::<Symbol>::empty());
    while i < symbols.len()
        invariant
            i <= symbols@.len(),
            as_ints == |pair: (usize, usize)| (pair.0 as int, pair.1 as int),
            out@.map_values(as_ints) == leverage_sources(
                symbols@.take(i as int),
                market@,
                rows@,
            ),
        decreases symbols.len() - i,
    {
        let ghost before = out@;
        proof {
            assert(symbols@.take(i + 1).drop_last() =~= symbols@.take(i as int));
            assert(symbols@.take(i + 1).last() == symbols@[i as int]);
        }
        if let Some(row) = find_leverage(&symbols[i], market, rows) {
            out.push((i, row));
            assert(out@.map_values(as_ints) =~= before.map_values(as_ints).push(
                (i as int, row as int),
            ));
        }
        i = i + 1;
    }
    assert(symbols@.take(i as int) =~= symbols@);
    out
}

/// Adds the changes of one custom universe to those of the instant, and finds the
/// leverage of the securities that it adds.
pub fn apply_custom_universe_changes(
    merged: &mut SecurityChanges,
    changes: SecurityChanges,
    market: &str,
    rows: &Vec<LeverageRow>,
) -> (res: Vec<(usize, usize)>)
    ensures
        final(merged).added@ == old(merged).added@ + changes.added@,
        final(merged).removed@ == old(merged).removed@ + changes.removed@,
        res@.map_values(|pair: (usize, usize)| (pair.0 as int, pair.1 as int)) == leverage_sources(
            changes.added@,
            market@,
            rows@,
        ),
{
    let leverage = register_custom_universe_leverage_metadata(&changes.added, market, rows);
    apply_universe_changes(merged, changes);
    leverage
}

/// A price to set.
#[derive(Clone, Copy, Debug, PartialEq, Eq, Structural)]
pub enum PriceUpdate {
    /// Price of a security, in its data and in the portfolio.
    Trade { sid: u64, price: Decimal },
    /// Bid and ask of a security.
    Quote { sid: u64, bid: Decimal, ask: Decimal },
    /// Price of a security in the portfolio.
    Middle { sid: u64, price: Decimal },
}

/// Bid and ask of a quote bar; a missing side is zero.
pub open spec fn quote_sides(quote: QuoteBar) -> (Decimal, Decimal) {
    (
        match quote.bid {
            Some(bar) => bar.close,
            None => Decimal::spec_zero(),
        },
        match quote.ask {
            Some(bar) => bar.close,
            None => Decimal::spec_zero(),
        },
    )
}

/// Middle of bid and ask; the positive one where the other is not positive, and
/// zero where neither is.
pub open spec fn middle(bid: Decimal, ask: Decimal) -> Decimal {
    if bid.mantissa > 0 && ask.mantissa > 0 {
        bid.sum(ask).quotient(Decimal { mantissa: 2, scale: 0 })
    } else if bid.mantissa > 0 {
        bid
    } else if ask.mantissa > 0 {
        ask
    } else {
        Decimal::spec_zero()
    }
}

pub fn mid_price(bid: Decimal, ask: Decimal) -> (res: Decimal)
    requires
        bid.wf(),
        ask.wf(),
        bid.sum_fits(ask),
    ensures
        res == middle(bid, ask),
        res.wf(),
{
    if bid.is_positive() && ask.is_positive() {
        bid.plus(ask).half()
    } else if bid.is_positive() {
        bid
    } else if ask.is_positive() {
        ask
    } else {
        Decimal::zero()
    }
}

/// Prices that trade bars set.
pub open spec fn trade_updates(bars: Seq<TradeBar>) -> Seq<PriceUpdate> {
    bars.map_values(|bar: TradeBar| PriceUpdate::Trade { sid: bar.symbol.sid, price: bar.close })
}

/// Prices that quote bars set: bid and ask, and their middle where it is positive.
pub open spec fn quote_updates(quotes: Seq<QuoteBar>) -> Seq<PriceUpdate>
    decreases quotes.len(),
{
    if quotes.len() == 0 {
        Seq::empty()
    } else {
        let head = quote_updates(quotes.drop_last());
        let sid = quotes.last().symbol.sid;
        let (bid, ask) = quote_sides(quotes.last());
        let price = middle(bid, ask);
        let quoted = head.push(PriceUpdate::Quote { sid, bid, ask });
        if price.mantissa > 0 {
            quoted.push(PriceUpdate::Middle { sid, price })
        } else {
            quoted
        }
    }
}

/// Prices that a slice sets, before the algorithm sees it: first those of the
/// trade bars, then those of the quote bars.
pub fn apply_slice_security_prices(slice: &Slice) -> (res: Vec<PriceUpdate>)
    requires
        forall|i: int|
            0 <= i < slice.quote_bars@.len() ==> ({
                let (bid, ask) = quote_sides(#[trigger] slice.quote_bars@[i]);
                bid.wf() && ask.wf() && bid.sum_fits(ask)
            }),
    ensures
        res@ == trade_updates(slice.bars@) + quote_updates(slice.quote_bars@),
{
    let mut out: Vec<PriceUpdate> = Vec::new();
    let mut i: usize = 0;
    while i < slice.bars.len()
        invariant
            i <= slice.bars@.len(),
            out@ =~= trade_updates(slice.bars@.take(i as int)),
        decreases slice.bars.len() - i,
    {
        let bar = &slice.bars[i];
        out.push(PriceUpdate::Trade { sid: bar.symbol.sid, price: bar.close });
        i = i + 1;
    }
    assert(slice.bars@.take(i as int) =~= slice.bars@);
    let ghost trades = out@;
    let mut k: usize = 0;
    assert(slice.quote_bars@.take(0) =~= Seq::<QuoteBar>::empty());
    while k < slice.quote_bars.len()
        invariant
            k <= slice.quote_bars@.len(),
            forall|i: int|
                0 <= i < slice.quote_bars@.len() ==> ({
                    let (bid, ask) = quote_sides(#[trigger] slice.quote_bars@[i]);
                    bid.wf() && ask.wf() && bid.sum_fits(ask)
                }),
            out@ =~= trades + quote_updates(slice.quote_bars@.take(k as int)),
        decreases slice.quote_bars.len() - k,
    {
        let quote = &slice.quote_bars[k];
        proof {
            assert(slice.quote_bars@.take(k + 1).drop_last() =~= slice.quote_bars@.take(k as int));
            assert(slice.quote_bars@.take(k + 1).last() == slice.quote_bars@[k as int]);
        }
        let bid = match quote.bid {
            Some(bar) => bar.close,
            None => Decimal::zero(),
        };
        let ask = match quote.ask {
            Some(bar) => bar.close,
            None => Decimal::zero(),
        };
        assert((bid, ask) == quote_sides(slice.quote_bars@[k as int]));
        let sid: u64 = quote.symbol.sid;
        out.push(PriceUpdate::Quote { sid, bid, ask });
        let price = mid_price(bid, ask);
        if price.is_positive() {
            out.push(PriceUpdate::Middle { sid, price });
        }
        k = k + 1;
    }
    assert(slice.quote_bars@.take(k as int) =~= slice.quote_bars@);
    out
}

#[derive(Clone, Copy, Debug, PartialEq, Eq, Structural)]
pub enum ExecutionOrderType {
    Market,
    Limit,
    MarketOnOpen,
    MarketOnClose,
    Update,
    Cancel,
}

/// What an execution model asks for.
pub struct OrderRequest {
    pub symbol: Symbol,
    pub quantity: Decimal,
    pub order_type: ExecutionOrderType,
    pub limit_price: Option<Decimal>,
    /// Order that an update is about.
    pub order_id: Option<i64>,
    /// Whether open orders of the security are canceled first.
    pub cancel_open_orders: bool,
    pub post_only: bool,
    pub tag: String,
}

/// What is done with the orders of an algorithm.
pub enum OrderAction {
    Update { order_id: i64, quantity: Decimal, limit_price: Option<Decimal>, tag: String },
    Cancel { order_id: i64, tag: String },
    Market { sid: u64, quantity: Decimal, tag: String },
    Limit { sid: u64, quantity: Decimal, limit_price: Decimal, post_only: bool, tag: String },
    MarketOnOpen { sid: u64, quantity: Decimal },
    MarketOnClose { sid: u64, quantity: Decimal },
}

/// The same with the texts as values.
pub enum OrderActionView {
    Update { order_id: i64, quantity: Decimal, limit_price: Option<Decimal>, tag: Seq<char> },
    Cancel { order_id: i64, tag: Seq<char> },
    Market { sid: u64, quantity: Decimal, tag: Seq<char> },
    Limit { sid: u64, quantity: Decimal, limit_price: Decimal, post_only: bool, tag: Seq<char> },
    MarketOnOpen { sid: u64, quantity: Decimal },
    MarketOnClose { sid: u64, quantity: Decimal },
}

impl OrderAction {
    pub open spec fn view(&self) -> OrderActionView {
        match *self {
            OrderAction::Update { order_id, quantity, limit_price, tag } => OrderActionView::Update {
                order_id,
                quantity,
                limit_price,
                tag: tag@,
            },
            OrderAction::Cancel { order_id, tag } => OrderActionView::Cancel { order_id, tag: tag@ },
            OrderAction::Market { sid, quantity, tag } => OrderActionView::Market {
                sid,
                quantity,
                tag: tag@,
            },
            OrderAction::Limit { sid, quantity, limit_price, post_only, tag } =>
            OrderActionView::Limit { sid, quantity, limit_price, post_only, tag: tag@ },
            OrderAction::MarketOnOpen { sid, quantity } => OrderActionView::MarketOnOpen {
                sid,
                quantity,
            },
            OrderAction::MarketOnClose { sid, quantity } => OrderActionView::MarketOnClose {
                sid,
                quantity,
            },
        }
    }
}

/// Actions as values.
pub open spec fn action_views(actions: Seq<OrderAction>) -> Seq<OrderActionView> {
    actions.map_values(|action: OrderAction| action@)
}

/// Cancellations of the open orders of a security.
pub open spec fn cancellations(open_orders: Seq<Order>, sid: u64, tag: Seq<char>) -> Seq<OrderActionView>
    decreases open_orders.len(),
{
    if open_orders.len() == 0 {
        Seq::empty()
    } else {
        let head = cancellations(open_orders.drop_last(), sid, tag);
        if open_orders.last().symbol.sid == sid {
            head.push(OrderActionView::Cancel { order_id: open_orders.last().id, tag })
        } else {
            head
        }
    }
}

/// The order that a request places, if it places one.
pub open spec fn placed(request: OrderRequest) -> Seq<OrderActionView> {
    let sid = request.symbol.sid;
    let quantity = request.quantity;
    match request.order_type {
        ExecutionOrderType::Market => seq![
            OrderActionView::Market { sid, quantity, tag: request.tag@ },
        ],
        ExecutionOrderType::Limit => match request.limit_price {
            Some(limit_price) => seq![
                OrderActionView::Limit {
                    sid,
                    quantity,
                    limit_price,
                    post_only: request.post_only,
                    tag: request.tag@,
                },
            ],
            None => Seq::empty(),
        },
        ExecutionOrderType::MarketOnOpen => seq![OrderActionView::MarketOnOpen { sid, quantity }],
        ExecutionOrderType::MarketOnClose => seq![OrderActionView::MarketOnClose { sid, quantity }],
        _ => Seq::empty(),
    }
}

/// What a request does: an update changes the order it names, and does nothing
/// without one; any other request first cancels the open orders of its security,
/// if it asks for that, and then places its order.
pub open spec fn actions_of(request: OrderRequest, open_orders: Seq<Order>) -> Seq<OrderActionView> {
    if request.order_type == ExecutionOrderType::Update {
        match request.order_id {
            Some(order_id) => seq![
                OrderActionView::Update {
                    order_id,
                    quantity: request.quantity,
                    limit_price: request.limit_price,
                    tag: request.tag@,
                },
            ],
            None => Seq::empty(),
        }
    } else {
        (if request.cancel_open_orders {
            cancellations(open_orders, request.symbol.sid, request.tag@ + " replace open order"@)
        } else {
            Seq::empty()
        }) + placed(request)
    }
}

/// Turns a request of an execution model into actions on orders.
pub fn submit_execution_order_request(request: OrderRequest, open_orders: &Vec<Order>) -> (res: Vec<
    OrderAction,
>)
    ensures
        action_views(res@) == actions_of(request, open_orders@),
{
    let mut out: Vec<OrderAction> = Vec::new();
    let sid: u64 = request.symbol.sid;
    let quantity = request.quantity;
    if request.order_type == ExecutionOrderType::Update {
        if let Some(order_id) = request.order_id {
            out.push(
                OrderAction::Update {
                    order_id,
                    quantity,
                    limit_price: request.limit_price,
                    tag: request.tag,
                },
            );
        }
        assert(action_views(out@) =~= actions_of(request, open_orders@));
        return out;
    }
    let ghost tag = request.tag@ + " replace open order"@;
    assert(action_views(out@) =~= Seq::<OrderActionView>::empty());
    if request.cancel_open_orders {
        let mut i: usize = 0;
        assert(open_orders@.take(0) =~= Seq::<Order>::empty());
        while i < open_orders.len()
            invariant
                i <= open_orders@.len(),
                sid == request.symbol.sid,
                tag == request.tag@ + " replace open order"@,
                action_views(out@) == cancellations(open_orders@.take(i as int), sid, tag),
            decreases open_orders.len() - i,
        {
            let ghost before = out@;
            proof {
                assert(open_orders@.take(i + 1).drop_last() =~= open_orders@.take(i as int));
                assert(open_orders@.take(i + 1).last() == open_orders@[i as int]);
            }
            if open_orders[i].symbol.sid == sid {
                let text = request.tag.clone().concat(" replace open order");
                out.push(OrderAction::Cancel { order_id: open_orders[i].id, tag: text });
                assert(action_views(out@) =~= action_views(before).push(
                    OrderActionView::Cancel { order_id: open_orders@[i as int].id, tag },
                ));
            }
            i = i + 1;
        }
        assert(open_orders@.take(i as int) =~= open_orders@);
    }
    let ghost before = action_views(out@);
    match request.order_type {
        ExecutionOrderType::Market => {
            out.push(OrderAction::Market { sid, quantity, tag: request.tag });
        },
        ExecutionOrderType::Limit => {
            if let Some(limit_price) = request.limit_price {
                out.push(
                    OrderAction::Limit {
                        sid,
                        quantity,
                        limit_price,
                        post_only: request.post_only,
                        tag: request.tag,
                    },
                );
            }
        },
        ExecutionOrderType::MarketOnOpen => {
            out.push(OrderAction::MarketOnOpen { sid, quantity });
        },
        ExecutionOrderType::MarketOnClose => {
            out.push(OrderAction::MarketOnClose { sid, quantity });
        },
        ExecutionOrderType::Cancel | ExecutionOrderType::Update => {},
    }
    assert(action_views(out@) =~= before + placed(request));
    out
}

/// A security that a selection removes is unsubscribed, unless it is held or an option
/// is written on it. The decision about one does not depend on the others.
pub proof fn law_idle_securities_are_unsubscribed(removed: Seq<RemovedSecurity>, k: int)
    requires
        0 <= k < removed.len(),
    ensures
        unsubscribed(removed).contains(k) <==> !removed[k].invested && !removed[k].option_underlying,
        forall|i: int, j: int|
            0 <= i < j < unsubscribed(removed).len() ==> unsubscribed(removed)[i] < unsubscribed(
                removed,
            )[j],
        forall|i: int|
            0 <= i < unsubscribed(removed).len() ==> 0 <= #[trigger] unsubscribed(removed)[i]
                < removed.len(),
    decreases removed.len(),
{
    let head = removed.drop_last();
    let before = unsubscribed(head);
    let out = unsubscribed(removed);
    if head.len() > 0 {
        law_idle_securities_are_unsubscribed(head, if k < head.len() {
            k
        } else {
            0
        });
    }
    assert forall|i: int| 0 <= i < before.len() implies out[i] == before[i] by {}
    if k < head.len() {
        assert(head[k] == removed[k]);
        if before.contains(k) {
            let m = choose|m: int| 0 <= m < before.len() && before[m] == k;
            assert(out[m] == k);
        }
        if out.contains(k) {
            let m = choose|m: int| 0 <= m < out.len() && out[m] == k;
            assert(before[m] == k);
        }
    } else {
        if !removed[k].invested && !removed[k].option_underlying {
            assert(out[out.len() - 1] == k);
        } else if out.contains(k) {
            let m = choose|m: int| 0 <= m < out.len() && out[m] == k;
            assert(before[m] < head.len());
        }
    }
}

/// The middle of two quotes needs both of them to be positive; one alone stands for
/// the price, and without any there is none.
pub proof fn law_middle_of_the_quotes(bid: Decimal, ask: Decimal)
    ensures
        bid.mantissa > 0 && ask.mantissa > 0 ==> middle(bid, ask) == bid.sum(ask).quotient(
            Decimal { mantissa: 2, scale: 0 },
        ),
        bid.mantissa > 0 && ask.mantissa <= 0 ==> middle(bid, ask) == bid,
        bid.mantissa <= 0 && ask.mantissa > 0 ==> middle(bid, ask) == ask,
        bid.mantissa <= 0 && ask.mantissa <= 0 ==> middle(bid, ask).mantissa == 0,
{
}

/// Quotes stand at the close of their sides: the bid at that of the bid, the ask at
/// that of the ask.
pub proof fn law_quotes_stand_at_their_close(quote: QuoteBar)
    ensures
        quote.bid matches Some(bar) ==> quote_sides(quote).0 == bar.close,
        quote.bid is None ==> quote_sides(quote).0.mantissa == 0,
        quote.ask matches Some(bar) ==> quote_sides(quote).1 == bar.close,
        quote.ask is None ==> quote_sides(quote).1.mantissa == 0,
{
}

/// Every bar sets the price of its own security, at its close, in the order of the
/// bars. A quote bar sets its bid and its ask, and a price where it has one.
pub proof fn law_bars_set_the_prices_of_their_security(
    bars: Seq<TradeBar>,
    k: int,
    quotes: Seq<QuoteBar>,
    quote: QuoteBar,
)
    ensures
        trade_updates(bars).len() == bars.len(),
        0 <= k < bars.len() ==> trade_updates(bars)[k] == (PriceUpdate::Trade {
            sid: bars[k].symbol.sid,
            price: bars[k].close,
        }),
        quote_updates(Seq::empty()).len() == 0,
        ({
            let before = quote_updates(quotes);
            let after = quote_updates(quotes.push(quote));
            let (bid, ask) = quote_sides(quote);
            let n = before.len() as int;
            &&& after.len() == n + (if middle(bid, ask).mantissa > 0 {
                2int
            } else {
                1int
            })
            &&& after.take(n) == before
            &&& after[n] == (PriceUpdate::Quote { sid: quote.symbol.sid, bid, ask })
            &&& middle(bid, ask).mantissa > 0 ==> after[n + 1] == (PriceUpdate::Middle {
                sid: quote.symbol.sid,
                price: middle(bid, ask),
            })
        }),
{
    assert(quotes.push(quote).drop_last() =~= quotes);
    let before = quote_updates(quotes);
    let after = quote_updates(quotes.push(quote));
    assert(after.take(before.len() as int) =~= before);
}

/// The open orders of a security are canceled, all of them and no other, in their
/// order.
pub proof fn law_open_orders_of_the_security_are_canceled(
    open_orders: Seq<Order>,
    order: Order,
    sid: u64,
    tag: Seq<char>,
)
    ensures
        cancellations(Seq::empty(), sid, tag).len() == 0,
        order.symbol.sid != sid ==> cancellations(open_orders.push(order), sid, tag)
            == cancellations(open_orders, sid, tag),
        order.symbol.sid == sid ==> {
            let after = cancellations(open_orders.push(order), sid, tag);
            &&& after.drop_last() == cancellations(open_orders, sid, tag)
            &&& after.last() == (OrderActionView::Cancel { order_id: order.id, tag })
        },
{
    assert(open_orders.push(order).drop_last() =~= open_orders);
    if order.symbol.sid == sid {
        assert(cancellations(open_orders.push(order), sid, tag).drop_last() =~= cancellations(
            open_orders,
            sid,
            tag,
        ));
    }
}

/// A request places one order: of its own kind, of its own security and of its own
/// quantity, a limit order at its own limit. An update changes the order it names and
/// touches no other. Nothing is placed by a cancellation, nor by a limit order
/// without a limit.
pub proof fn law_requests_place_what_they_ask_for(request: OrderRequest, open_orders: Seq<Order>)
    ensures
        request.order_type == ExecutionOrderType::Market ==> actions_of(request, open_orders).len()
            > 0 && actions_of(request, open_orders).last() == (OrderActionView::Market {
            sid: request.symbol.sid,
            quantity: request.quantity,
            tag: request.tag@,
        }),
        request.order_type == ExecutionOrderType::Limit && request.limit_price is Some ==> (
        actions_of(request, open_orders).len() > 0 && actions_of(request, open_orders).last()
            == (OrderActionView::Limit {
            sid: request.symbol.sid,
            quantity: request.quantity,
            limit_price: request.limit_price->Some_0,
            post_only: request.post_only,
            tag: request.tag@,
        })),
        request.order_type == ExecutionOrderType::MarketOnOpen ==> actions_of(
            request,
            open_orders,
        ).len() > 0 && actions_of(request, open_orders).last() == (OrderActionView::MarketOnOpen {
            sid: request.symbol.sid,
            quantity: request.quantity,
        }),
        request.order_type == ExecutionOrderType::MarketOnClose ==> actions_of(
            request,
            open_orders,
        ).len() > 0 && actions_of(request, open_orders).last() == (OrderActionView::MarketOnClose {
            sid: request.symbol.sid,
            quantity: request.quantity,
        }),
        request.order_type == ExecutionOrderType::Update ==> match request.order_id {
            Some(order_id) => actions_of(request, open_orders).len() == 1 && actions_of(
                request,
                open_orders,
            )[0] == (OrderActionView::Update {
                order_id,
                quantity: request.quantity,
                limit_price: request.limit_price,
                tag: request.tag@,
            }),
            None => actions_of(request, open_orders).len() == 0,
        },
        request.order_type != ExecutionOrderType::Update && !request.cancel_open_orders
            ==> actions_of(request, open_orders).len() <= 1,
        (request.order_type == ExecutionOrderType::Cancel || (request.order_type
            == ExecutionOrderType::Limit && request.limit_price is None))
            && !request.cancel_open_orders ==> actions_of(request, open_orders).len() == 0,
        request.order_type != ExecutionOrderType::Update && request.cancel_open_orders ==> {
            let canceled = cancellations(
                open_orders,
                request.symbol.sid,
                request.tag@ + " replace open order"@,
            );
            actions_of(request, open_orders).take(canceled.len() as int) == canceled
        },
{
    if request.order_type != ExecutionOrderType::Update && request.cancel_open_orders {
        let canceled = cancellations(
            open_orders,
            request.symbol.sid,
            request.tag@ + " replace open order"@,
        );
        assert(actions_of(request, open_orders).take(canceled.len() as int) =~= canceled);
    }
}

/// The leverage of a security comes from the last row that names it, whatever the
/// case and the white space around the name: a row that names another security, or
/// gives no leverage, changes nothing.
pub proof fn law_last_row_gives_the_leverage(
    rows: Seq<LeverageRow>,
    row: LeverageRow,
    symbol: Symbol,
    market: Seq<char>,
)
    ensures
        !(symbol.security_type == SecurityType::CryptoFuture && symbol.market@ == market)
            ==> leverage_source(symbol, market, rows) is None,
        symbol.security_type == SecurityType::CryptoFuture && symbol.market@ == market ==> {
            let names = row.has_leverage && (row.symbol matches Some(name) && trimmed(name@).len()
                > 0 && ascii_upper(trimmed(name@)) == ascii_upper(trimmed(symbol.value@)));
            leverage_source(symbol, market, rows.push(row)) == (if names {
                Some(rows.len() as int)
            } else {
                leverage_source(symbol, market, rows)
            })
        },
        leverage_source(symbol, market, Seq::empty()) is None,
{
    assert(rows.push(row).drop_last() =~= rows);
}

/// Each security finds its leverage for itself, in the order of the securities.
pub proof fn law_leverage_is_found_one_by_one(
    symbols: Seq<Symbol>,
    symbol: Symbol,
    market: Seq<char>,
    rows: Seq<LeverageRow>,
)
    ensures
        leverage_sources(symbols.push(symbol), market, rows) == (match leverage_source(
            symbol,
            market,
            rows,
        ) {
            Some(row) => leverage_sources(symbols, market, rows).push(
                (symbols.len() as int, row),
            ),
            None => leverage_sources(symbols, market, rows),
        }),
        leverage_sources(Seq::empty(), market, rows).len() == 0,
{
    assert(symbols.push(symbol).drop_last() =~= symbols);
}

} // verus!
