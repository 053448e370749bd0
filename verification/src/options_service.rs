//! Option chains built from end-of-day rows.

use crate::decimal::{law_negation_mirrors_the_value, law_numbers_compare_by_value, value, Decimal};
use crate::model::{OptionChainFilterMetadata, Resolution, Symbol, TradeBar};
use crate::subscription_reader::coverage::lemma_filter_index;
use crate::text::{
    ascii_lower, ascii_upper, lemma_lower_of_upper, lemma_text_before_one_way, same_ignoring_case,
    strip_front, text_before, text_eq, text_less, to_ascii_uppercase, trim_start_matches,
};
use crate::time::Date;
use vstd::prelude::*;
use vstd::string::*;

verus! {

#[derive(Clone, Copy, Debug, PartialEq, Eq, Structural)]
pub enum OptionRight {
    Call,
    Put,
}

/// End-of-day row of one contract.
pub struct OptionEodBar {
    pub expiration: Date,
    pub strike: Decimal,
    pub right: String,
    pub close: Decimal,
    pub volume: i64,
    pub bid: Decimal,
    pub bid_size: i64,
    pub ask: Decimal,
    pub ask_size: i64,
}

/// Model values of one contract.
#[derive(Clone, Copy, Debug, PartialEq, Eq, Structural)]
pub struct OptionPricing {
    pub theoretical_price: Decimal,
    pub implied_volatility: Decimal,
    pub delta: Decimal,
    pub gamma: Decimal,
    pub vega: Decimal,
    pub theta: Decimal,
    pub rho: Decimal,
}

/// Market data of one contract.
#[derive(Clone, Copy, Debug, PartialEq, Eq, Structural)]
pub struct OptionContractData {
    pub last_price: Decimal,
    pub volume: i64,
    pub bid_price: Decimal,
    pub bid_size: i64,
    pub ask_price: Decimal,
    pub ask_size: i64,
    pub underlying_last_price: Decimal,
}

/// One contract of a chain.
#[derive(Clone, Copy, Debug, PartialEq, Eq, Structural)]
pub struct OptionContract {
    pub expiration: Date,
    pub strike: Decimal,
    pub right: OptionRight,
    pub data: OptionContractData,
    pub pricing: Option<OptionPricing>,
}

/// Contracts on one underlying.
pub struct OptionChain {
    pub canonical: Symbol,
    pub underlying_price: Decimal,
    pub contracts: Vec<OptionContract>,
}

/// Ticker of the underlying of a canonical option, in capitals.
pub open spec fn underlying_ticker(canonical: Symbol) -> Seq<char> {
    match canonical.underlying {
        Some(underlying) => ascii_upper(underlying.permtick@),
        None => ascii_upper(strip_front(canonical.permtick@, |c: char| c == '?')),
    }
}

pub fn option_underlying_ticker(canonical: &Symbol) -> (res: String)
    ensures
        res@ == underlying_ticker(*canonical),
{
    match &canonical.underlying {
        Some(underlying) => to_ascii_uppercase(underlying.permtick.as_str()),
        None => {
            let bare = trim_start_matches(canonical.permtick.as_str(), '?');
            to_ascii_uppercase(bare.as_str())
        },
    }
}

/// Close of the last bar of a security; zero if there is none.
pub open spec fn last_close(bars: Seq<TradeBar>, sid: u64) -> Decimal
    decreases bars.len(),
{
    if bars.len() == 0 {
        Decimal::spec_zero()
    } else if bars.last().symbol.sid == sid {
        bars.last().close
    } else {
        last_close(bars.drop_last(), sid)
    }
}

/// Price of the underlying of a canonical option; zero if it is unknown.
pub fn underlying_price_from_bars(canonical: &Symbol, bars: &Vec<TradeBar>) -> (res: Decimal)
    ensures
        res == (match canonical.underlying {
            Some(underlying) => last_close(bars@, underlying.sid),
            None => Decimal::spec_zero(),
        }),
{
    let sid: u64 = match &canonical.underlying {
        Some(underlying) => underlying.sid,
        None => {
            return Decimal::zero();
        },
    };
    let mut n: usize = bars.len();
    assert(bars@.take(n as int) =~= bars@);
    while n > 0
        invariant
            n <= bars@.len(),
            last_close(bars@, sid) == last_close(bars@.take(n as int), sid),
            canonical.underlying matches Some(underlying) && underlying.sid == sid,
        decreases n,
    {
        let ghost head = bars@.take(n as int);
        assert(head.last() == bars@[n - 1]);
        assert(head.drop_last() =~= bars@.take(n - 1));
        if bars[n - 1].symbol.sid == sid {
            return bars[n - 1].close;
        }
        n = n - 1;
    }
    Decimal::zero()
}

/// The right that a row names: `C` or `CALL`, `P` or `PUT`, in any case.
pub open spec fn right_of(text: Seq<char>) -> Option<OptionRight> {
    let upper = ascii_upper(text);
    if upper == "C"@ || upper == "CALL"@ {
        Some(OptionRight::Call)
    } else if upper == "P"@ || upper == "PUT"@ {
        Some(OptionRight::Put)
    } else {
        None
    }
}

pub fn option_right_from_row(value: &str) -> (res: Option<OptionRight>)
    ensures
        res == right_of(value@),
{
    let upper = to_ascii_uppercase(value);
    if text_eq(upper.as_str(), "C") || text_eq(upper.as_str(), "CALL") {
        Some(OptionRight::Call)
    } else if text_eq(upper.as_str(), "P") || text_eq(upper.as_str(), "PUT") {
        Some(OptionRight::Put)
    } else {
        None
    }
}

/// Market data that a row gives a contract.
pub open spec fn contract_data(row: OptionEodBar, underlying_price: Decimal) -> OptionContractData {
    OptionContractData {
        last_price: row.close,
        volume: row.volume,
        bid_price: row.bid,
        bid_size: row.bid_size,
        ask_price: row.ask,
        ask_size: row.ask_size,
        underlying_last_price: underlying_price,
    }
}

pub fn option_contract_data_from_eod(row: &OptionEodBar, underlying_price: Decimal) -> (res:
    OptionContractData)
    ensures
        res == contract_data(*row, underlying_price),
{
    OptionContractData {
        last_price: row.close,
        volume: row.volume,
        bid_price: row.bid,
        bid_size: row.bid_size,
        ask_price: row.ask,
        ask_size: row.ask_size,
        underlying_last_price: underlying_price,
    }
}

/// Whether a row's expiry is within the limits of a filter.
pub open spec fn expiry_allowed(
    row: OptionEodBar,
    date: Date,
    filter: OptionChainFilterMetadata,
) -> bool {
    filter.min_expiry_days <= row.expiration.days - date.days <= filter.max_expiry_days
}

/// Rows by strike, with one more put after those of no higher strike.
pub open spec fn with_strike(rows: Seq<OptionEodBar>, new: OptionEodBar) -> Seq<OptionEodBar>
    decreases rows.len(),
{
    if rows.len() > 0 && new.strike.less(rows.last().strike) {
        with_strike(rows.drop_last(), new).push(rows.last())
    } else {
        rows.push(new)
    }
}

/// Rows in order of their strikes; rows of one strike keep their order.
pub open spec fn by_strike(rows: Seq<OptionEodBar>) -> Seq<OptionEodBar>
    decreases rows.len(),
{
    if rows.len() == 0 {
        Seq::empty()
    } else {
        with_strike(by_strike(rows.drop_last()), rows.last())
    }
}

/// Distance of a strike from a price.
pub open spec fn distance(strike: Decimal, price: Decimal) -> Decimal {
    let d = strike.difference(price);
    if d.mantissa < 0 {
        d.spec_neg()
    } else {
        d
    }
}

/// Index of the first row whose strike is nearest to a price.
pub open spec fn nearest(rows: Seq<OptionEodBar>, price: Decimal) -> int
    decreases rows.len(),
{
    if rows.len() <= 1 {
        0
    } else {
        let head = nearest(rows.drop_last(), price);
        if distance(rows.last().strike, price).less(distance(rows[head].strike, price)) {
            rows.len() - 1
        } else {
            head
        }
    }
}

/// The rows from rank `low` to rank `high`, counted from the row at `center`.
pub open spec fn ranks(rows: Seq<OptionEodBar>, center: int, low: int, high: int) -> Seq<
    OptionEodBar,
>
    decreases rows.len(),
{
    if rows.len() == 0 {
        Seq::empty()
    } else {
        let head = ranks(rows.drop_last(), center, low, high);
        let rank = rows.len() - 1 - center;
        if low <= rank <= high {
            head.push(rows.last())
        } else {
            head
        }
    }
}

/// The rows that a filter admits: of an allowed expiry, by strike, and within
/// the allowed ranks around the strike nearest to the underlying price.
pub open spec fn filtered(
    rows: Seq<OptionEodBar>,
    date: Date,
    underlying_price: Decimal,
    filter: OptionChainFilterMetadata,
) -> Seq<OptionEodBar> {
    let allowed = by_strike(rows.filter(|row: OptionEodBar| expiry_allowed(row, date, filter)));
    ranks(
        allowed,
        nearest(allowed, underlying_price),
        filter.min_strike_rank as int,
        filter.max_strike_rank as int,
    )
}

/// Whether a row can be compared with a price.
pub open spec fn comparable(row: OptionEodBar, price: Decimal) -> bool {
    row.strike.wf() && row.strike.difference_fits(price) && row.expiration.in_calendar()
}

pub open spec fn all_comparable(rows: Seq<OptionEodBar>, price: Decimal) -> bool {
    forall|i: int| 0 <= i < rows.len() ==> comparable(#[trigger] rows[i], price)
}

proof fn lemma_with_strike(rows: Seq<OptionEodBar>, new: OptionEodBar, price: Decimal)
    ensures
        with_strike(rows, new).len() == rows.len() + 1,
        all_comparable(rows, price) && comparable(new, price) ==> all_comparable(
            with_strike(rows, new),
            price,
        ),
    decreases rows.len(),
{
    if rows.len() > 0 && new.strike.less(rows.last().strike) {
        let head = rows.drop_last();
        lemma_with_strike(head, new, price);
        if all_comparable(rows, price) && comparable(new, price) {
            assert forall|i: int| 0 <= i < head.len() implies comparable(
                #[trigger] head[i],
                price,
            ) by {
                assert(rows[i] == head[i]);
            }
            let mid = with_strike(head, new);
            let out = with_strike(rows, new);
            assert(rows[rows.len() - 1] == rows.last());
            assert forall|i: int| 0 <= i < out.len() implies comparable(#[trigger] out[i], price) by {
                if i < mid.len() {
                    assert(mid[i] == out[i]);
                }
            }
        }
    }
}

proof fn lemma_with_strike_at(rows: Seq<OptionEodBar>, new: OptionEodBar, i: int)
    requires
        0 <= i <= rows.len(),
        i == 0 || !new.strike.less(rows[i - 1].strike),
        forall|j: int| i <= j < rows.len() ==> new.strike.less((#[trigger] rows[j]).strike),
    ensures
        with_strike(rows, new) == rows.insert(i, new),
    decreases rows.len() - i,
{
    if i == rows.len() {
        assert(rows.insert(i, new) =~= rows.push(new));
    } else {
        let head = rows.drop_last();
        assert(new.strike.less(rows[rows.len() - 1].strike));
        assert forall|j: int| i <= j < head.len() implies new.strike.less(
            (#[trigger] head[j]).strike,
        ) by {
            assert(rows[j] == head[j]);
        }
        lemma_with_strike_at(head, new, i);
        assert(rows.insert(i, new) =~= head.insert(i, new).push(rows.last()));
    }
}

fn insert_by_strike(rows: &mut Vec<OptionEodBar>, new: OptionEodBar, price: Ghost<Decimal>)
    requires
        all_comparable(old(rows)@, price@),
        comparable(new, price@),
    ensures
        final(rows)@ == with_strike(old(rows)@, new),
{
    let ghost before = rows@;
    let mut i: usize = rows.len();
    while i > 0 && new.strike.less_than(rows[i - 1].strike)
        invariant
            rows@ == before,
            i <= rows@.len(),
            all_comparable(before, price@),
            comparable(new, price@),
            forall|j: int| i <= j < rows@.len() ==> new.strike.less((#[trigger] rows@[j]).strike),
        decreases i,
    {
        i = i - 1;
    }
    proof {
        lemma_with_strike_at(before, new, i as int);
    }
    rows.insert(i, new);
}

/// The rows that a filter admits, by strike.
pub fn filter_option_rows(
    rows: Vec<OptionEodBar>,
    date: Date,
    underlying_price: Decimal,
    filter: OptionChainFilterMetadata,
) -> (res: Vec<OptionEodBar>)
    requires
        underlying_price.wf(),
        date.in_calendar(),
        all_comparable(rows@, underlying_price),
        rows@.len() <= i32::MAX,
    ensures
        res@ == filtered(rows@, date, underlying_price, filter),
        all_comparable(res@, underlying_price),
{
    let ghost all = rows@;
    let ghost keep = |row: OptionEodBar| expiry_allowed(row, date, filter);
    let mut sorted: Vec<OptionEodBar> = Vec::new();
    proof {
        reveal(Seq::filter);
    }
    for row in it: rows
        invariant
            it.seq() == all,
            date.in_calendar(),
            all_comparable(all, underlying_price),
            keep == |row: OptionEodBar| expiry_allowed(row, date, filter),
            sorted@ == by_strike(all.take(it.index() as int).filter(keep)),
            all_comparable(sorted@, underlying_price),
            sorted@.len() <= it.index(),
    {
        let ghost head = all.take(it.index() as int);
        let ghost next = all.take(it.index() + 1);
        proof {
            reveal(Seq::filter);
            assert(all[it.index() as int] == row);
            assert(comparable(all[it.index() as int], underlying_price));
            assert(next.drop_last() =~= head);
            assert(next.last() == row);
        }
        let dte: i32 = row.expiration.days - date.days;
        if dte >= filter.min_expiry_days && dte <= filter.max_expiry_days {
            proof {
                assert(next.filter(keep) == head.filter(keep).push(row));
                assert(head.filter(keep).push(row).drop_last() =~= head.filter(keep));
                lemma_with_strike(sorted@, row, underlying_price);
            }
            insert_by_strike(&mut sorted, row, Ghost(underlying_price));
        }
    }
    assert(all.take(all.len() as int) =~= all);
    let ghost allowed = sorted@;
    let atm_index: usize = nearest_strike(&sorted, underlying_price);
    let mut out: Vec<OptionEodBar> = Vec::new();
    let mut idx: usize = 0;
    for row in it: sorted
        invariant
            it.seq() == allowed,
            idx == it.index(),
            allowed.len() <= i32::MAX,
            atm_index <= allowed.len(),
            all_comparable(allowed, underlying_price),
            out@ == ranks(
                allowed.take(it.index() as int),
                atm_index as int,
                filter.min_strike_rank as int,
                filter.max_strike_rank as int,
            ),
            all_comparable(out@, underlying_price),
    {
        proof {
            assert(allowed[it.index() as int] == row);
            assert(allowed.take(it.index() + 1).drop_last() =~= allowed.take(it.index() as int));
            assert(allowed.take(it.index() + 1).last() == row);
            assert(comparable(allowed[it.index() as int], underlying_price));
        }
        let rank: i32 = idx as i32 - atm_index as i32;
        if rank >= filter.min_strike_rank && rank <= filter.max_strike_rank {
            out.push(row);
        }
        idx = idx + 1;
    }
    assert(allowed.take(allowed.len() as int) =~= allowed);
    out
}

fn strike_distance(strike: Decimal, price: Decimal) -> (res: Decimal)
    requires
        strike.wf(),
        price.wf(),
        strike.difference_fits(price),
    ensures
        res == distance(strike, price),
        res.wf(),
{
    strike.minus(price).abs()
}

fn nearest_strike(rows: &Vec<OptionEodBar>, price: Decimal) -> (res: usize)
    requires
        price.wf(),
        all_comparable(rows@, price),
    ensures
        res == nearest(rows@, price),
        rows@.len() == 0 ==> res == 0,
        rows@.len() > 0 ==> res < rows@.len(),
{
    if rows.len() == 0 {
        return 0;
    }
    assert(comparable(rows@[0], price));
    let mut best: usize = 0;
    let mut best_distance = strike_distance(rows[0].strike, price);
    let mut i: usize = 1;
    while i < rows.len()
        invariant
            1 <= i <= rows@.len(),
            best < i,
            price.wf(),
            all_comparable(rows@, price),
            best == nearest(rows@.take(i as int), price),
            best_distance == distance(rows@[best as int].strike, price),
            best_distance.wf(),
        decreases rows.len() - i,
    {
        assert(comparable(rows@[i as int], price));
        let d = strike_distance(rows[i].strike, price);
        proof {
            assert(rows@.take(i + 1).drop_last() =~= rows@.take(i as int));
            assert(rows@.take(i + 1).last() == rows@[i as int]);
            assert(rows@.take(i + 1)[best as int] == rows@[best as int]);
        }
        if d.less_than(best_distance) {
            best = i;
            best_distance = d;
        }
        i = i + 1;
    }
    assert(rows@.take(i as int) =~= rows@);
    best
}

/// Order of contracts in a chain: by expiry, then strike, then right.
pub open spec fn listed_before(a: OptionEodBar, b: OptionEodBar) -> bool {
    ||| a.expiration.days < b.expiration.days
    ||| a.expiration == b.expiration && a.strike.less(b.strike)
    ||| a.expiration == b.expiration && !a.strike.less(b.strike) && !b.strike.less(a.strike)
        && text_before(a.right@, b.right@)
}

fn is_listed_before(a: &OptionEodBar, b: &OptionEodBar) -> (res: bool)
    requires
        a.strike.wf(),
        b.strike.wf(),
    ensures
        res == listed_before(*a, *b),
{
    if a.expiration.days != b.expiration.days {
        return a.expiration.days < b.expiration.days;
    }
    if a.strike.less_than(b.strike) {
        return true;
    }
    if b.strike.less_than(a.strike) {
        proof {
            assert(!a.strike.less(b.strike));
        }
        return false;
    }
    text_less(a.right.as_str(), b.right.as_str())
}

/// Rows in listing order, with one more put after those it does not precede.
pub open spec fn with_listed(rows: Seq<OptionEodBar>, new: OptionEodBar) -> Seq<OptionEodBar>
    decreases rows.len(),
{
    if rows.len() > 0 && listed_before(new, rows.last()) {
        with_listed(rows.drop_last(), new).push(rows.last())
    } else {
        rows.push(new)
    }
}

/// Rows in listing order; equals keep their order.
pub open spec fn listed(rows: Seq<OptionEodBar>) -> Seq<OptionEodBar>
    decreases rows.len(),
{
    if rows.len() == 0 {
        Seq::empty()
    } else {
        with_listed(listed(rows.drop_last()), rows.last())
    }
}

pub open spec fn strikes_wf(rows: Seq<OptionEodBar>) -> bool {
    forall|i: int| 0 <= i < rows.len() ==> (#[trigger] rows[i]).strike.wf()
}

proof fn lemma_with_listed_at(rows: Seq<OptionEodBar>, new: OptionEodBar, i: int)
    requires
        0 <= i <= rows.len(),
        i == 0 || !listed_before(new, rows[i - 1]),
        forall|j: int| i <= j < rows.len() ==> listed_before(new, #[trigger] rows[j]),
    ensures
        with_listed(rows, new) == rows.insert(i, new),
    decreases rows.len() - i,
{
    if i == rows.len() {
        assert(rows.insert(i, new) =~= rows.push(new));
    } else {
        let head = rows.drop_last();
        assert(listed_before(new, rows[rows.len() - 1]));
        assert forall|j: int| i <= j < head.len() implies listed_before(new, #[trigger] head[j]) by {
            assert(rows[j] == head[j]);
        }
        lemma_with_listed_at(head, new, i);
        assert(rows.insert(i, new) =~= head.insert(i, new).push(rows.last()));
    }
}

fn sort_listed(rows: Vec<OptionEodBar>) -> (res: Vec<OptionEodBar>)
    requires
        strikes_wf(rows@),
    ensures
        res@ == listed(rows@),
        strikes_wf(res@),
{
    let mut out: Vec<OptionEodBar> = Vec::new();
    let ghost all = rows@;
    for row in it: rows
        invariant
            it.seq() == all,
            strikes_wf(all),
            out@ == listed(all.take(it.index() as int)),
            strikes_wf(out@),
    {
        let ghost before = out@;
        proof {
            assert(all[it.index() as int] == row);
            assert(all[it.index() as int].strike.wf());
            assert(all.take(it.index() + 1).drop_last() =~= all.take(it.index() as int));
            assert(all.take(it.index() + 1).last() == row);
        }
        let mut i: usize = out.len();
        while i > 0 && is_listed_before(&row, &out[i - 1])
            invariant
                out@ == before,
                i <= out@.len(),
                strikes_wf(out@),
                row.strike.wf(),
                forall|j: int| i <= j < out@.len() ==> listed_before(row, #[trigger] out@[j]),
            decreases i,
        {
            i = i - 1;
        }
        proof {
            lemma_with_listed_at(before, row, i as int);
        }
        out.insert(i, row);
        assert(strikes_wf(out@)) by {
            assert forall|k: int| 0 <= k < out@.len() implies (#[trigger] out@[k]).strike.wf() by {
                if k < i {
                    assert(before[k].strike.wf());
                } else if k > i {
                    assert(before[k - 1].strike.wf());
                }
            }
        }
    }
    assert(all.take(all.len() as int) =~= all);
    out
}

/// The contracts that rows describe; rows of an unknown right are left out.
pub open spec fn contracts_of(rows: Seq<OptionEodBar>, underlying_price: Decimal) -> Seq<
    OptionContract,
>
    decreases rows.len(),
{
    if rows.len() == 0 {
        Seq::empty()
    } else {
        let head = contracts_of(rows.drop_last(), underlying_price);
        let row = rows.last();
        match right_of(row.right@) {
            Some(right) => head.push(
                OptionContract {
                    expiration: row.expiration,
                    strike: row.strike,
                    right,
                    data: contract_data(row, underlying_price),
                    pricing: None,
                },
            ),
            None => head,
        }
    }
}

/// The contracts of an end-of-day chain: those that the filter admits, in
/// listing order.
pub open spec fn chain_contracts(
    filter: OptionChainFilterMetadata,
    date: Date,
    rows: Seq<OptionEodBar>,
    underlying_price: Decimal,
) -> Seq<OptionContract> {
    contracts_of(listed(filtered(rows, date, underlying_price, filter)), underlying_price)
}

/// Lists the contracts of an end-of-day chain. Only daily chains have any.
pub fn select_daily_contracts(
    resolution: Resolution,
    filter: OptionChainFilterMetadata,
    date: Date,
    rows: Vec<OptionEodBar>,
    underlying_price: Decimal,
) -> (res: Vec<OptionContract>)
    requires
        underlying_price.wf(),
        date.in_calendar(),
        all_comparable(rows@, underlying_price),
        rows@.len() <= i32::MAX,
    ensures
        res@ == (if resolution == Resolution::Daily {
            chain_contracts(filter, date, rows@, underlying_price)
        } else {
            Seq::empty()
        }),
        terms_wf(res@),
{
    if resolution != Resolution::Daily {
        return Vec::new();
    }
    let admitted = filter_option_rows(rows, date, underlying_price, filter);
    assert(strikes_wf(admitted@)) by {
        assert forall|i: int| 0 <= i < admitted@.len() implies (
        #[trigger] admitted@[i]).strike.wf() by {
            assert(comparable(admitted@[i], underlying_price));
        }
    }
    let sorted = sort_listed(admitted);
    let mut contracts: Vec<OptionContract> = Vec::new();
    let mut i: usize = 0;
    while i < sorted.len()
        invariant
            i <= sorted@.len(),
            strikes_wf(sorted@),
            contracts@ == contracts_of(sorted@.take(i as int), underlying_price),
            terms_wf(contracts@),
        decreases sorted.len() - i,
    {
        let row = &sorted[i];
        proof {
            assert(sorted@.take(i + 1).drop_last() =~= sorted@.take(i as int));
            assert(sorted@.take(i + 1).last() == row);
        }
        if let Some(right) = option_right_from_row(row.right.as_str()) {
            contracts.push(
                OptionContract {
                    expiration: row.expiration,
                    strike: row.strike,
                    right,
                    data: option_contract_data_from_eod(row, underlying_price),
                    pricing: None,
                },
            );
        }
        i = i + 1;
    }
    assert(sorted@.take(i as int) =~= sorted@);
    contracts
}

/// A contract with its model values.
pub open spec fn priced(contract: OptionContract, pricing: OptionPricing) -> OptionContract {
    OptionContract { pricing: Some(pricing), ..contract }
}

/// Contracts of a chain with one more; it replaces one of the same terms.
pub open spec fn with_contract(contracts: Seq<OptionContract>, new: OptionContract) -> Seq<
    OptionContract,
>
    decreases contracts.len(),
{
    if contracts.len() == 0 {
        seq![new]
    } else if same_terms(contracts[0], new) {
        contracts.update(0, new)
    } else {
        seq![contracts[0]] + with_contract(contracts.skip(1), new)
    }
}

/// Whether two contracts have the same expiry, strike and right.
pub open spec fn same_terms(a: OptionContract, b: OptionContract) -> bool {
    a.expiration == b.expiration && a.right == b.right && a.strike.same(b.strike)
}

/// The contracts of a chain after pricing: contract and model values are paired
/// in order, and what is left over on either side is dropped.
pub open spec fn assembled(contracts: Seq<OptionContract>, pricing: Seq<OptionPricing>) -> Seq<
    OptionContract,
>
    decreases contracts.len(),
{
    if contracts.len() == 0 {
        Seq::empty()
    } else {
        let head = assembled(contracts.drop_last(), pricing);
        if contracts.len() <= pricing.len() {
            with_contract(head, priced(contracts.last(), pricing[contracts.len() - 1]))
        } else {
            head
        }
    }
}

pub open spec fn terms_wf(contracts: Seq<OptionContract>) -> bool {
    forall|i: int| 0 <= i < contracts.len() ==> (#[trigger] contracts[i]).strike.wf()
}

#[verifier::loop_isolation(false)]
fn add_contract(contracts: &mut Vec<OptionContract>, new: OptionContract)
    requires
        terms_wf(old(contracts)@),
        new.strike.wf(),
    ensures
        final(contracts)@ == with_contract(old(contracts)@, new),
        terms_wf(final(contracts)@),
{
    let ghost before = contracts@;
    let mut i: usize = 0;
    assert(before.take(0) + with_contract(before.skip(0), new) =~= with_contract(before, new)) by {
        assert(before.skip(0) =~= before);
    }
    while i < contracts.len()
        invariant
            i <= contracts@.len(),
            contracts@ == before,
            with_contract(before, new) == before.take(i as int) + with_contract(
                before.skip(i as int),
                new,
            ),
        decreases contracts.len() - i,
    {
        let ghost rest = before.skip(i as int);
        proof {
            assert(rest[0] == before[i as int]);
            assert(rest.skip(1) =~= before.skip(i + 1));
            assert(before[i as int].strike.wf());
        }
        let existing = contracts[i];
        if existing.expiration == new.expiration && existing.right == new.right
            && existing.strike.equals(new.strike) {
            assert(before.take(i as int) + rest.update(0, new) =~= before.update(i as int, new));
            contracts.set(i, new);
            return ;
        }
        assert(before.take(i as int) + (seq![rest[0]] + with_contract(rest.skip(1), new))
            =~= before.take(i + 1) + with_contract(before.skip(i + 1), new));
        i = i + 1;
    }
    assert(before.skip(i as int) =~= Seq::<OptionContract>::empty());
    assert(before.take(i as int) + seq![new] =~= before.push(new));
    contracts.push(new);
}

/// Completes an end-of-day chain from its contracts and their model values; a
/// chain without contracts is none.
pub fn build_daily_eod_chain(
    canonical: &Symbol,
    underlying_price: Decimal,
    contracts: &Vec<OptionContract>,
    pricing: &Vec<OptionPricing>,
) -> (res: Option<OptionChain>)
    requires
        terms_wf(contracts@),
    ensures
        match res {
            Some(chain) => {
                &&& chain.canonical == *canonical
                &&& chain.underlying_price == underlying_price
                &&& chain.contracts@ == assembled(contracts@, pricing@)
                &&& chain.contracts@.len() > 0
            },
            None => assembled(contracts@, pricing@).len() == 0,
        },
{
    let mut out: Vec<OptionContract> = Vec::new();
    let mut i: usize = 0;
    while i < contracts.len()
        invariant
            i <= contracts@.len(),
            terms_wf(contracts@),
            terms_wf(out@),
            out@ == assembled(contracts@.take(i as int), pricing@),
        decreases contracts.len() - i,
    {
        proof {
            assert(contracts@.take(i + 1).drop_last() =~= contracts@.take(i as int));
            assert(contracts@.take(i + 1).last() == contracts@[i as int]);
            assert(contracts@[i as int].strike.wf());
        }
        if i < pricing.len() {
            let contract = contracts[i];
            add_contract(
                &mut out,
                OptionContract {
                    expiration: contract.expiration,
                    strike: contract.strike,
                    right: contract.right,
                    data: contract.data,
                    pricing: Some(pricing[i]),
                },
            );
        }
        i = i + 1;
    }
    assert(contracts@.take(i as int) =~= contracts@);
    if out.len() == 0 {
        None
    } else {
        Some(OptionChain { canonical: canonical.duplicate(), underlying_price, contracts: out })
    }
}

/// Each contract of a chain carries its own model values. Where no two contracts
/// have the same terms and there are model values for each, the chain holds the
/// contracts as they were given, in their order, each with the values at its place.
pub proof fn law_contracts_carry_their_own_pricing(
    contracts: Seq<OptionContract>,
    pricing: Seq<OptionPricing>,
)
    requires
        contracts.len() <= pricing.len(),
        forall|i: int, j: int|
            0 <= i < j < contracts.len() ==> !(contracts[i].expiration == contracts[j].expiration
                && contracts[i].right == contracts[j].right && contracts[i].strike.same(
                contracts[j].strike,
            )),
    ensures
        assembled(contracts, pricing).len() == contracts.len(),
        forall|i: int|
            0 <= i < contracts.len() ==> {
                let out = #[trigger] assembled(contracts, pricing)[i];
                &&& out.expiration == contracts[i].expiration
                &&& out.strike == contracts[i].strike
                &&& out.right == contracts[i].right
                &&& out.data == contracts[i].data
                &&& out.pricing == Some(pricing[i])
            },
    decreases contracts.len(),
{
    if contracts.len() > 0 {
        let head = contracts.drop_last();
        let n = head.len() as int;
        assert forall|i: int, j: int| 0 <= i < j < head.len() implies !(head[i].expiration
            == head[j].expiration && head[i].right == head[j].right && head[i].strike.same(
            head[j].strike,
        )) by {
            assert(contracts[i] == head[i] && contracts[j] == head[j]);
        }
        law_contracts_carry_their_own_pricing(head, pricing);
        let before = assembled(head, pricing);
        let new = priced(contracts.last(), pricing[n]);
        assert forall|i: int| 0 <= i < before.len() implies !same_terms(
            #[trigger] before[i],
            new,
        ) by {
            assert(before[i].strike == head[i].strike);
            assert(head[i] == contracts[i]);
            assert(contracts[n] == contracts.last());
        }
        law_contract_put_in_is_found(before, new);
        assert forall|i: int| 0 <= i < contracts.len() implies ({
            let out = #[trigger] assembled(contracts, pricing)[i];
            &&& out.expiration == contracts[i].expiration
            &&& out.strike == contracts[i].strike
            &&& out.right == contracts[i].right
            &&& out.data == contracts[i].data
            &&& out.pricing == Some(pricing[i])
        }) by {
            if i < n {
                assert(assembled(contracts, pricing)[i] == before[i]);
                assert(head[i] == contracts[i]);
            }
        }
    }
}

/// A contract without model values does not come into the chain.
pub proof fn law_unpriced_contracts_are_left_out(
    contracts: Seq<OptionContract>,
    pricing: Seq<OptionPricing>,
)
    requires
        pricing.len() <= contracts.len(),
    ensures
        assembled(contracts, pricing) == assembled(contracts.take(pricing.len() as int), pricing),
    decreases contracts.len(),
{
    if contracts.len() > pricing.len() {
        law_unpriced_contracts_are_left_out(contracts.drop_last(), pricing);
        assert(contracts.drop_last().take(pricing.len() as int) =~= contracts.take(
            pricing.len() as int,
        ));
    } else {
        assert(contracts.take(pricing.len() as int) =~= contracts);
    }
}

/// A contract whose terms are new comes last; one of known terms takes the place of
/// the one before, and all others stay as they are.
pub proof fn law_contract_put_in_is_found(contracts: Seq<OptionContract>, new: OptionContract)
    ensures
        (forall|i: int| 0 <= i < contracts.len() ==> !same_terms(#[trigger] contracts[i], new))
            ==> with_contract(contracts, new) == contracts.push(new),
        with_contract(contracts, new).contains(new),
        forall|i: int|
            0 <= i < contracts.len() && !same_terms(#[trigger] contracts[i], new)
                ==> with_contract(contracts, new)[i] == contracts[i],
        contracts.len() <= with_contract(contracts, new).len() <= contracts.len() + 1,
    decreases contracts.len(),
{
    let out = with_contract(contracts, new);
    if contracts.len() == 0 {
        assert(out =~= contracts.push(new));
        assert(out[0] == new);
    } else if same_terms(contracts[0], new) {
        assert(out[0] == new);
    } else {
        let rest = contracts.skip(1);
        law_contract_put_in_is_found(rest, new);
        let tail = with_contract(rest, new);
        let w = choose|k: int| 0 <= k < tail.len() && tail[k] == new;
        assert(out[w + 1] == new);
        assert forall|i: int|
            0 <= i < contracts.len() && !same_terms(
                #[trigger] contracts[i],
                new,
            ) implies out[i] == contracts[i] by {
            if i > 0 {
                assert(rest[i - 1] == contracts[i]);
                assert(out[i] == tail[i - 1]);
            }
        }
        if forall|i: int| 0 <= i < contracts.len() ==> !same_terms(#[trigger] contracts[i], new) {
            assert forall|i: int| 0 <= i < rest.len() implies !same_terms(
                #[trigger] rest[i],
                new,
            ) by {
                assert(contracts[i + 1] == rest[i]);
            }
            assert(out =~= contracts.push(new));
        }
    }
}

/// A contract takes every price and size from its own row.
pub proof fn law_contract_data_are_those_of_the_row(row: OptionEodBar, underlying_price: Decimal)
    ensures
        ({
            let data = contract_data(row, underlying_price);
            &&& data.last_price == row.close
            &&& data.volume == row.volume
            &&& data.bid_price == row.bid
            &&& data.bid_size == row.bid_size
            &&& data.ask_price == row.ask
            &&& data.ask_size == row.ask_size
            &&& data.underlying_last_price == underlying_price
        }),
{
}

/// Rows become contracts one by one and in order: where every row names a right,
/// contract `i` has the terms and the data of row `i`, and no model values yet. A
/// row that names none adds nothing.
pub proof fn law_contracts_follow_their_rows(rows: Seq<OptionEodBar>, price: Decimal)
    ensures
        (forall|i: int| 0 <= i < rows.len() ==> right_of((#[trigger] rows[i]).right@) is Some) ==> {
            &&& contracts_of(rows, price).len() == rows.len()
            &&& forall|i: int|
                0 <= i < rows.len() ==> {
                    let contract = #[trigger] contracts_of(rows, price)[i];
                    &&& contract.expiration == rows[i].expiration
                    &&& contract.strike == rows[i].strike
                    &&& Some(contract.right) == right_of(rows[i].right@)
                    &&& contract.data.last_price == rows[i].close
                    &&& contract.data.bid_price == rows[i].bid
                    &&& contract.data.ask_price == rows[i].ask
                    &&& contract.data.underlying_last_price == price
                    &&& contract.pricing is None
                }
        },
        rows.len() > 0 && right_of(rows.last().right@) is None ==> contracts_of(rows, price)
            == contracts_of(rows.drop_last(), price),
        contracts_of(rows, price).len() <= rows.len(),
    decreases rows.len(),
{
    if rows.len() > 0 {
        let head = rows.drop_last();
        law_contracts_follow_their_rows(head, price);
        if forall|i: int| 0 <= i < rows.len() ==> right_of((#[trigger] rows[i]).right@) is Some {
            assert forall|i: int| 0 <= i < head.len() implies right_of(
                (#[trigger] head[i]).right@,
            ) is Some by {
                assert(rows[i] == head[i]);
            }
            assert(rows[rows.len() - 1] == rows.last());
            assert forall|i: int| 0 <= i < rows.len() implies ({
                let contract = #[trigger] contracts_of(rows, price)[i];
                &&& contract.expiration == rows[i].expiration
                &&& contract.strike == rows[i].strike
                &&& Some(contract.right) == right_of(rows[i].right@)
                &&& contract.data.last_price == rows[i].close
                &&& contract.data.bid_price == rows[i].bid
                &&& contract.data.ask_price == rows[i].ask
                &&& contract.data.underlying_last_price == price
                &&& contract.pricing is None
            }) by {
                if i < head.len() {
                    assert(contracts_of(rows, price)[i] == contracts_of(head, price)[i]);
                    assert(rows[i] == head[i]);
                }
            }
        }
    }
}

/// A right is named by its first letter or in full, in any case; nothing else names
/// one.
pub proof fn law_rights_are_named_in_any_case(text: Seq<char>)
    ensures
        right_of(text) == Some(OptionRight::Call) <==> same_ignoring_case(text, "c"@)
            || same_ignoring_case(text, "call"@),
        right_of(text) == Some(OptionRight::Put) <==> same_ignoring_case(text, "p"@)
            || same_ignoring_case(text, "put"@),
{
    reveal_strlit("c");
    reveal_strlit("C");
    reveal_strlit("call");
    reveal_strlit("CALL");
    reveal_strlit("p");
    reveal_strlit("P");
    reveal_strlit("put");
    reveal_strlit("PUT");
    lemma_upper_is(text, "C"@, "c"@);
    lemma_upper_is(text, "CALL"@, "call"@);
    lemma_upper_is(text, "P"@, "p"@);
    lemma_upper_is(text, "PUT"@, "put"@);
    assert("C"@[0] != "P"@[0]);
    assert("CALL"@.len() != "PUT"@.len());
}

proof fn lemma_upper_is(text: Seq<char>, capitals: Seq<char>, small: Seq<char>)
    requires
        ascii_upper(small) =~= capitals,
        ascii_lower(capitals) =~= small,
        ascii_lower(small) =~= small,
        ascii_upper(capitals) =~= capitals,
    ensures
        ascii_upper(text) == capitals <==> same_ignoring_case(text, small),
{
    lemma_lower_of_upper(text);
    if ascii_upper(text) == capitals {
        assert(ascii_lower(text) == ascii_lower(capitals));
    }
    if ascii_lower(text) == ascii_lower(small) {
        crate::text::lemma_upper_of_lower(text);
        crate::text::lemma_upper_of_lower(small);
    }
}

/// The last price of the underlying is the close of its last bar: a bar of another
/// security that follows changes nothing, and without any bar it is zero.
pub proof fn law_last_close_is_that_of_the_last_bar(bars: Seq<TradeBar>, bar: TradeBar, sid: u64)
    ensures
        bar.symbol.sid == sid ==> last_close(bars.push(bar), sid) == bar.close,
        bar.symbol.sid != sid ==> last_close(bars.push(bar), sid) == last_close(bars, sid),
        last_close(Seq::empty(), sid) == Decimal::spec_zero(),
{
    assert(bars.push(bar).drop_last() =~= bars);
}

/// An expiry is admitted within the limits of the filter, both included.
pub proof fn law_expiry_limits_are_inclusive(
    row: OptionEodBar,
    date: Date,
    filter: OptionChainFilterMetadata,
)
    ensures
        expiry_allowed(row, date, filter) <==> date.days + filter.min_expiry_days
            <= row.expiration.days && row.expiration.days <= date.days + filter.max_expiry_days,
{
}

/// Sorting by strike loses no row and adds none, and no row comes before one of a
/// lower strike.
pub proof fn law_rows_are_sorted_by_strike(rows: Seq<OptionEodBar>)
    requires
        strikes_wf(rows),
    ensures
        by_strike(rows).to_multiset() == rows.to_multiset(),
        by_strike(rows).len() == rows.len(),
        strikes_wf(by_strike(rows)),
        forall|i: int, j: int|
            0 <= i < j < by_strike(rows).len() ==> value((#[trigger] by_strike(rows)[i]).strike)
                <= value((#[trigger] by_strike(rows)[j]).strike),
    decreases rows.len(),
{
    if rows.len() > 0 {
        let head = rows.drop_last();
        assert(strikes_wf(head)) by {
            assert forall|i: int| 0 <= i < head.len() implies (#[trigger] head[i]).strike.wf() by {
                assert(rows[i] == head[i]);
            }
        }
        assert(rows[rows.len() - 1] == rows.last());
        law_rows_are_sorted_by_strike(head);
        lemma_with_strike_sorted(by_strike(head), rows.last());
        head.to_multiset_ensures();
        assert(rows =~= head.push(rows.last()));
    } else {
        assert(rows =~= Seq::<OptionEodBar>::empty());
    }
}

proof fn lemma_with_strike_sorted(rows: Seq<OptionEodBar>, new: OptionEodBar)
    requires
        strikes_wf(rows),
        new.strike.wf(),
        forall|i: int, j: int|
            0 <= i < j < rows.len() ==> value((#[trigger] rows[i]).strike) <= value(
                (#[trigger] rows[j]).strike,
            ),
    ensures
        with_strike(rows, new).to_multiset() == rows.to_multiset().insert(new),
        with_strike(rows, new).len() == rows.len() + 1,
        strikes_wf(with_strike(rows, new)),
        forall|i: int, j: int|
            0 <= i < j < with_strike(rows, new).len() ==> value(
                (#[trigger] with_strike(rows, new)[i]).strike,
            ) <= value((#[trigger] with_strike(rows, new)[j]).strike),
        forall|k: int|
            0 <= k < with_strike(rows, new).len() ==> (#[trigger] with_strike(rows, new)[k]) == new
                || rows.contains(with_strike(rows, new)[k]),
    decreases rows.len(),
{
    let out = with_strike(rows, new);
    rows.to_multiset_ensures();
    if rows.len() > 0 {
        assert(rows[rows.len() - 1] == rows.last());
        law_numbers_compare_by_value(new.strike, rows.last().strike);
    }
    if rows.len() > 0 && new.strike.less(rows.last().strike) {
        let head = rows.drop_last();
        assert forall|i: int| 0 <= i < head.len() implies (#[trigger] head[i]).strike.wf() by {
            assert(rows[i] == head[i]);
        }
        lemma_with_strike_sorted(head, new);
        let mid = with_strike(head, new);
        head.to_multiset_ensures();
        mid.to_multiset_ensures();
        assert(rows =~= head.push(rows.last()));
        assert(out.to_multiset() =~= rows.to_multiset().insert(new));
        assert forall|k: int| 0 <= k < out.len() implies (#[trigger] out[k]) == new
            || rows.contains(out[k]) by {
            if k < mid.len() {
                assert(out[k] == mid[k]);
                if mid[k] != new {
                    let m = choose|m: int| 0 <= m < head.len() && head[m] == mid[k];
                    assert(rows[m] == out[k]);
                }
            } else {
                assert(rows[rows.len() - 1] == out[k]);
            }
        }
        assert forall|i: int, j: int| 0 <= i < j < out.len() implies value(
            (#[trigger] out[i]).strike,
        ) <= value((#[trigger] out[j]).strike) by {
            assert(out[i] == mid[i]);
            if j < mid.len() {
                assert(out[j] == mid[j]);
            } else if mid[i] != new {
                let m = choose|m: int| 0 <= m < head.len() && head[m] == mid[i];
                assert(rows[m] == mid[i]);
            }
        }
        assert forall|k: int| 0 <= k < out.len() implies (#[trigger] out[k]).strike.wf() by {
            if k < mid.len() {
                assert(out[k] == mid[k]);
            }
        }
    } else {
        assert forall|i: int, j: int| 0 <= i < j < out.len() implies value(
            (#[trigger] out[i]).strike,
        ) <= value((#[trigger] out[j]).strike) by {
            if j == rows.len() {
                assert(out[i] == rows[i]);
                assert(value(rows[i].strike) <= value(rows.last().strike)) by {
                    if i < rows.len() - 1 {
                        assert(rows[rows.len() - 1] == rows.last());
                    }
                }
            } else {
                assert(out[i] == rows[i] && out[j] == rows[j]);
            }
        }
        assert forall|k: int| 0 <= k < out.len() implies (#[trigger] out[k]) == new
            || rows.contains(out[k]) by {
            if k < rows.len() {
                assert(rows[k] == out[k]);
            }
        }
        assert forall|k: int| 0 <= k < out.len() implies (#[trigger] out[k]).strike.wf() by {
            if k < rows.len() {
                assert(rows[k] == out[k]);
            }
        }
    }
}

/// The ranks that are admitted are the neighbours of the row at the center: a
/// window of the rows that begins `low` places and ends `high` places from it, cut
/// at both ends.
pub proof fn law_ranks_are_a_window(rows: Seq<OptionEodBar>, center: int, low: int, high: int)
    requires
        low <= high,
    ensures
        ({
            let n = rows.len() as int;
            let first = if center + low < 0 {
                0
            } else if center + low > n {
                n
            } else {
                center + low
            };
            let end = if center + high + 1 < first {
                first
            } else if center + high + 1 > n {
                n
            } else {
                center + high + 1
            };
            ranks(rows, center, low, high) == rows.subrange(first, end)
        }),
    decreases rows.len(),
{
    if rows.len() > 0 {
        law_ranks_are_a_window(rows.drop_last(), center, low, high);
        let n = rows.len() as int;
        let first = if center + low < 0 {
            0
        } else if center + low > n {
            n
        } else {
            center + low
        };
        let end = if center + high + 1 < first {
            first
        } else if center + high + 1 > n {
            n
        } else {
            center + high + 1
        };
        assert(ranks(rows, center, low, high) =~= rows.subrange(first, end));
    } else {
        assert(ranks(rows, center, low, high) =~= rows.subrange(0, 0));
    }
}

/// The row at the center has the strike nearest to the price, and is the first of
/// those that are equally near.
pub proof fn law_center_is_nearest_to_the_price(rows: Seq<OptionEodBar>, price: Decimal, j: int)
    requires
        0 <= j < rows.len(),
        forall|i: int| 0 <= i < rows.len() ==> distance((#[trigger] rows[i]).strike, price).wf(),
    ensures
        0 <= nearest(rows, price) < rows.len(),
        value(distance(rows[nearest(rows, price)].strike, price)) <= value(
            distance(rows[j].strike, price),
        ),
        j < nearest(rows, price) ==> value(distance(rows[nearest(rows, price)].strike, price))
            < value(distance(rows[j].strike, price)),
    decreases rows.len(),
{
    if rows.len() > 1 {
        let head = rows.drop_last();
        assert forall|i: int| 0 <= i < head.len() implies distance(
            (#[trigger] head[i]).strike,
            price,
        ).wf() by {
            assert(rows[i] == head[i]);
        }
        let best = nearest(head, price);
        law_center_is_nearest_to_the_price(head, price, 0);
        assert(rows[rows.len() - 1] == rows.last());
        assert(rows[best] == head[best]);
        law_numbers_compare_by_value(
            distance(rows.last().strike, price),
            distance(rows[best].strike, price),
        );
        if j < head.len() {
            law_center_is_nearest_to_the_price(head, price, j);
            assert(rows[j] == head[j]);
        }
    }
}

/// How far a strike is from a price does not depend on which is higher: the distance
/// is the size of the difference, never negative.
pub proof fn law_distance_is_never_negative(strike: Decimal, price: Decimal)
    requires
        strike.difference(price).wf(),
    ensures
        value(distance(strike, price)) >= 0,
        value(distance(strike, price)) == value(strike.difference(price)) || value(
            distance(strike, price),
        ) == -value(strike.difference(price)),
{
    let d = strike.difference(price);
    law_negation_mirrors_the_value(d);
    let p = crate::decimal::pow10(28 - d.scale);
    vstd::arithmetic::power::lemma_pow_positive(10, (28 - d.scale) as nat);
    assert(d.mantissa < 0 ==> d.mantissa * p <= 0) by (nonlinear_arith)
        requires
            p > 0,
    ;
    assert(d.mantissa >= 0 ==> d.mantissa * p >= 0) by (nonlinear_arith)
        requires
            p > 0,
    ;
}

/// A filter admits rows of an allowed expiry only, and each of them stood among the
/// rows.
pub proof fn law_filter_admits_allowed_rows_only(
    rows: Seq<OptionEodBar>,
    date: Date,
    price: Decimal,
    filter: OptionChainFilterMetadata,
    k: int,
)
    requires
        strikes_wf(rows),
        filter.min_strike_rank <= filter.max_strike_rank,
        0 <= k < filtered(rows, date, price, filter).len(),
    ensures
        ({
            let row = filtered(rows, date, price, filter)[k];
            &&& date.days + filter.min_expiry_days <= row.expiration.days <= date.days
                + filter.max_expiry_days
            &&& rows.contains(row)
        }),
        k > 0 ==> value(filtered(rows, date, price, filter)[k - 1].strike) <= value(
            filtered(rows, date, price, filter)[k].strike,
        ),
        filtered(rows, date, price, filter).len() <= filter.max_strike_rank
            - filter.min_strike_rank + 1,
{
    let keep = |row: OptionEodBar| expiry_allowed(row, date, filter);
    let kept = rows.filter(keep);
    assert forall|i: int| 0 <= i < kept.len() implies (#[trigger] kept[i]).strike.wf() by {
        lemma_filter_index(rows, keep, i);
    }
    let sorted = by_strike(kept);
    let center = nearest(sorted, price);
    law_rows_are_sorted_by_strike(kept);
    law_ranks_are_a_window(
        sorted,
        center,
        filter.min_strike_rank as int,
        filter.max_strike_rank as int,
    );
    let out = filtered(rows, date, price, filter);
    let row = out[k];
    sorted.to_multiset_ensures();
    kept.to_multiset_ensures();
    assert(sorted.contains(row)) by {
        assert(exists|m: int| 0 <= m < sorted.len() && sorted[m] == row);
    }
    assert(sorted.to_multiset().count(row) > 0);
    assert(kept.contains(row));
    let m = choose|m: int| 0 <= m < kept.len() && kept[m] == row;
    lemma_filter_index(rows, keep, m);
}

/// A chain lists its contracts by expiry, those of one expiry by strike, and those
/// of one strike by right. No row is lost.
pub proof fn law_chain_is_listed_in_order(rows: Seq<OptionEodBar>, k: int)
    requires
        strikes_wf(rows),
        0 < k < rows.len(),
    ensures
        listed(rows).to_multiset() == rows.to_multiset(),
        listed(rows).len() == rows.len(),
        ({
            let a = listed(rows)[k - 1];
            let b = listed(rows)[k];
            &&& a.expiration.days <= b.expiration.days
            &&& a.expiration == b.expiration ==> value(a.strike) <= value(b.strike)
            &&& a.expiration == b.expiration && value(a.strike) == value(b.strike)
                ==> !text_before(b.right@, a.right@)
        }),
{
    lemma_listed(rows);
    let a = listed(rows)[k - 1];
    let b = listed(rows)[k];
    assert(!listed_before(b, a));
    law_numbers_compare_by_value(a.strike, b.strike);
    law_numbers_compare_by_value(b.strike, a.strike);
}

proof fn lemma_listed(rows: Seq<OptionEodBar>)
    requires
        strikes_wf(rows),
    ensures
        listed(rows).to_multiset() == rows.to_multiset(),
        listed(rows).len() == rows.len(),
        strikes_wf(listed(rows)),
        forall|k: int|
            0 < k < listed(rows).len() ==> !listed_before(
                #[trigger] listed(rows)[k],
                listed(rows)[k - 1],
            ),
    decreases rows.len(),
{
    if rows.len() > 0 {
        let head = rows.drop_last();
        assert forall|i: int| 0 <= i < head.len() implies (#[trigger] head[i]).strike.wf() by {
            assert(rows[i] == head[i]);
        }
        assert(rows[rows.len() - 1] == rows.last());
        lemma_listed(head);
        lemma_with_listed(listed(head), rows.last());
        head.to_multiset_ensures();
        assert(rows =~= head.push(rows.last()));
    } else {
        assert(rows =~= Seq::<OptionEodBar>::empty());
    }
}

proof fn lemma_with_listed(rows: Seq<OptionEodBar>, new: OptionEodBar)
    requires
        strikes_wf(rows),
        new.strike.wf(),
        forall|k: int|
            0 < k < rows.len() ==> !listed_before(#[trigger] rows[k], rows[k - 1]),
    ensures
        with_listed(rows, new).to_multiset() == rows.to_multiset().insert(new),
        with_listed(rows, new).len() == rows.len() + 1,
        strikes_wf(with_listed(rows, new)),
        with_listed(rows, new).last() == new || (rows.len() > 0 && with_listed(rows, new).last()
            == rows.last()),
        forall|k: int|
            0 < k < with_listed(rows, new).len() ==> !listed_before(
                #[trigger] with_listed(rows, new)[k],
                with_listed(rows, new)[k - 1],
            ),
    decreases rows.len(),
{
    let out = with_listed(rows, new);
    rows.to_multiset_ensures();
    if rows.len() > 0 && listed_before(new, rows.last()) {
        let head = rows.drop_last();
        assert forall|i: int| 0 <= i < head.len() implies (#[trigger] head[i]).strike.wf() by {
            assert(rows[i] == head[i]);
        }
        assert forall|k: int| 0 < k < head.len() implies !listed_before(
            #[trigger] head[k],
            head[k - 1],
        ) by {
            assert(!listed_before(rows[k], rows[k - 1]));
        }
        assert(rows[rows.len() - 1].strike.wf());
        lemma_with_listed(head, new);
        let mid = with_listed(head, new);
        mid.to_multiset_ensures();
        head.to_multiset_ensures();
        assert(rows =~= head.push(rows.last()));
        assert(out.to_multiset() =~= rows.to_multiset().insert(new));
        assert forall|k: int| 0 < k < out.len() implies !listed_before(
            #[trigger] out[k],
            out[k - 1],
        ) by {
            if k < mid.len() {
                assert(out[k] == mid[k] && out[k - 1] == mid[k - 1]);
            } else {
                assert(out[k] == rows.last());
                assert(out[k - 1] == mid.last());
                if mid.last() == new {
                    lemma_text_before_one_way(new.right@, rows.last().right@);
                } else {
                    assert(!listed_before(rows[rows.len() - 1], rows[rows.len() - 2]));
                }
            }
        }
        assert forall|k: int| 0 <= k < out.len() implies (#[trigger] out[k]).strike.wf() by {
            if k < mid.len() {
                assert(out[k] == mid[k]);
            }
        }
    } else {
        assert forall|k: int| 0 < k < out.len() implies !listed_before(
            #[trigger] out[k],
            out[k - 1],
        ) by {
            if k < rows.len() {
                assert(out[k] == rows[k] && out[k - 1] == rows[k - 1]);
            } else {
                assert(out[k - 1] == rows.last());
            }
        }
        assert forall|k: int| 0 <= k < out.len() implies (#[trigger] out[k]).strike.wf() by {
            if k < rows.len() {
                assert(rows[k] == out[k]);
            }
        }
    }
}

/// The ticker of a chain is that of its underlying, in capitals; without one it is the
/// chain's own without the mark in front of it.
pub proof fn law_ticker_of_a_chain(canonical: Symbol)
    ensures
        canonical.underlying matches Some(underlying) ==> underlying_ticker(canonical)
            == ascii_upper(underlying.permtick@),
        canonical.underlying is None ==> same_ignoring_case(
            underlying_ticker(canonical),
            strip_front(canonical.permtick@, |c: char| c == '?'),
        ),
{
    lemma_lower_of_upper(strip_front(canonical.permtick@, |c: char| c == '?'));
}

/// A chain lists what its filter admits. Where every row names a right, contract `k` has the
/// terms and the quotes of the row at its place in the listing, a row that stood among those
/// given and whose expiry is allowed.
pub proof fn law_chain_lists_admitted_rows(
    filter: OptionChainFilterMetadata,
    date: Date,
    rows: Seq<OptionEodBar>,
    price: Decimal,
    k: int,
)
    requires
        strikes_wf(rows),
        filter.min_strike_rank <= filter.max_strike_rank,
        forall|i: int| 0 <= i < rows.len() ==> right_of((#[trigger] rows[i]).right@) is Some,
        0 <= k < chain_contracts(filter, date, rows, price).len(),
    ensures
        ({
            let contracts = chain_contracts(filter, date, rows, price);
            let contract = contracts[k];
            &&& contracts.len() == filtered(rows, date, price, filter).len()
            &&& exists|i: int|
                0 <= i < rows.len() && contract.strike == (#[trigger] rows[i]).strike
                    && contract.expiration == rows[i].expiration && Some(contract.right)
                    == right_of(rows[i].right@) && contract.data.bid_price == rows[i].bid
                    && contract.data.ask_price == rows[i].ask && contract.data.last_price
                    == rows[i].close
            &&& date.days + filter.min_expiry_days <= contract.expiration.days <= date.days
                + filter.max_expiry_days
            &&& contract.data.underlying_last_price == price
            &&& contract.pricing is None
            &&& k > 0 ==> contracts[k - 1].expiration.days <= contract.expiration.days
            &&& k > 0 && contracts[k - 1].expiration == contract.expiration ==> value(
                contracts[k - 1].strike,
            ) <= value(contract.strike)
        }),
{
    let admitted = filtered(rows, date, price, filter);
    let order = listed(admitted);
    assert forall|i: int| 0 <= i < admitted.len() implies (#[trigger] admitted[i]).strike.wf()
        && rows.contains(admitted[i]) by {
        law_filter_admits_allowed_rows_only(rows, date, price, filter, i);
        let m = choose|m: int| 0 <= m < rows.len() && rows[m] == admitted[i];
        assert(rows[m].strike.wf());
    }
    assert(strikes_wf(admitted));
    lemma_listed(admitted);
    admitted.to_multiset_ensures();
    order.to_multiset_ensures();
    assert forall|i: int| 0 <= i < order.len() implies admitted.contains(#[trigger] order[i]) by {
        assert(order.contains(order[i]));
        assert(order.to_multiset().count(order[i]) > 0);
    }
    assert forall|i: int| 0 <= i < order.len() implies right_of((#[trigger] order[i]).right@)
        is Some by {
        let m = choose|m: int| 0 <= m < admitted.len() && admitted[m] == order[i];
        assert(rows.contains(admitted[m]));
        let n = choose|n: int| 0 <= n < rows.len() && rows[n] == admitted[m];
        assert(right_of(rows[n].right@) is Some);
    }
    law_contracts_follow_their_rows(order, price);
    let contracts = chain_contracts(filter, date, rows, price);
    assert(contracts == contracts_of(order, price));
    assert(contracts[k].strike == order[k].strike);
    let m = choose|m: int| 0 <= m < admitted.len() && admitted[m] == order[k];
    law_filter_admits_allowed_rows_only(rows, date, price, filter, m);
    let n = choose|n: int| 0 <= n < rows.len() && rows[n] == admitted[m];
    assert(contracts[k].strike == rows[n].strike);
    if k > 0 {
        law_chain_is_listed_in_order(admitted, k);
        assert(contracts[k - 1].strike == order[k - 1].strike);
    }
}

} // verus!
