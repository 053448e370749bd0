//! Data of all subscriptions at one instant.

use crate::model::{CustomDataPoint, QuoteBar, Symbol, Tick, TradeBar};
use crate::options_service::OptionChain;
use crate::subscription_data::SubscriptionDataPoint;
use crate::time::DateTime;
use std::sync::Arc;
use vstd::prelude::*;

verus! {

/// A row of one security.
pub trait OfSecurity: Sized {
    spec fn security(self) -> u64;

    fn sid(&self) -> (res: u64)
        ensures
            res == self.security(),
    ;
}

impl OfSecurity for TradeBar {
    open spec fn security(self) -> u64 {
        self.symbol.sid
    }

    fn sid(&self) -> (res: u64) {
        self.symbol.sid
    }
}

impl OfSecurity for QuoteBar {
    open spec fn security(self) -> u64 {
        self.symbol.sid
    }

    fn sid(&self) -> (res: u64) {
        self.symbol.sid
    }
}

/// Rows with one more; it replaces a row of the same security.
pub open spec fn with_row<T: OfSecurity>(rows: Seq<T>, new: T) -> Seq<T>
    decreases rows.len(),
{
    if rows.len() == 0 {
        seq![new]
    } else if rows[0].security() == new.security() {
        rows.update(0, new)
    } else {
        seq![rows[0]] + with_row(rows.skip(1), new)
    }
}

/// The row of a security.
pub open spec fn row_of<T: OfSecurity>(rows: Seq<T>, sid: u64) -> Option<T>
    decreases rows.len(),
{
    if rows.len() == 0 {
        None
    } else if rows[0].security() == sid {
        Some(rows[0])
    } else {
        row_of(rows.skip(1), sid)
    }
}

/// A row put in is found under its security; others stay as they were.
pub proof fn law_row_put_in_is_found<T: OfSecurity>(rows: Seq<T>, new: T, sid: u64)
    ensures
        row_of(with_row(rows, new), sid) == (if sid == new.security() {
            Some(new)
        } else {
            row_of(rows, sid)
        }),
    decreases rows.len(),
{
    reveal_with_fuel(row_of, 2);
    let out = with_row(rows, new);
    if rows.len() == 0 {
        assert(out.skip(1) =~= Seq::<T>::empty());
    } else if rows[0].security() == new.security() {
        assert(out.skip(1) =~= rows.skip(1));
    } else {
        law_row_put_in_is_found(rows.skip(1), new, sid);
        assert(out.skip(1) =~= with_row(rows.skip(1), new));
    }
}

#[verifier::loop_isolation(false)]
pub fn put_row<T: OfSecurity>(rows: &mut Vec<T>, new: T)
    ensures
        final(rows)@ == with_row(old(rows)@, new),
{
    let ghost before = rows@;
    let sid: u64 = new.sid();
    let mut i: usize = 0;
    assert(before.skip(0) =~= before);
    assert(before.take(0) + with_row(before.skip(0), new) =~= with_row(before, new));
    while i < rows.len()
        invariant
            i <= rows@.len(),
            rows@ == before,
            with_row(before, new) == before.take(i as int) + with_row(before.skip(i as int), new),
        decreases rows.len() - i,
    {
        let ghost rest = before.skip(i as int);
        proof {
            assert(rest[0] == before[i as int]);
            assert(rest.skip(1) =~= before.skip(i + 1));
        }
        if rows[i].sid() == sid {
            assert(before.take(i as int) + rest.update(0, new) =~= before.update(i as int, new));
            rows.set(i, new);
            return ;
        }
        assert(before.take(i as int) + (seq![rest[0]] + with_row(rest.skip(1), new))
            =~= before.take(i + 1) + with_row(before.skip(i + 1), new));
        i = i + 1;
    }
    assert(before.skip(i as int) =~= Seq::<T>::empty());
    assert(before.take(i as int) + seq![new] =~= before.push(new));
    rows.push(new);
}

pub fn find_row<T: OfSecurity>(rows: &Vec<T>, sid: u64) -> (res: Option<&T>)
    ensures
        match res {
            Some(row) => row_of(rows@, sid) == Some(*row),
            None => row_of(rows@, sid) is None,
        },
{
    let mut i: usize = 0;
    assert(rows@.skip(0) =~= rows@);
    while i < rows.len()
        invariant
            i <= rows@.len(),
            row_of(rows@, sid) == row_of(rows@.skip(i as int), sid),
        decreases rows.len() - i,
    {
        assert(rows@.skip(i as int).skip(1) =~= rows@.skip(i + 1));
        if rows[i].sid() == sid {
            return Some(&rows[i]);
        }
        i = i + 1;
    }
    None
}

/// A custom row of a slice.
pub struct CustomRow {
    pub symbol: Symbol,
    pub ticker: String,
    pub point: CustomDataPoint,
}

/// An option chain of a slice.
pub struct ChainRow {
    pub canonical_permtick: String,
    pub chain: Arc<OptionChain>,
}

/// Data of all subscriptions at one instant. A security has at most one trade
/// bar and one quote bar; ticks and custom rows keep the order in which they came.
pub struct Slice {
    pub time: DateTime,
    pub bars: Vec<TradeBar>,
    pub quote_bars: Vec<QuoteBar>,
    pub ticks: Vec<Tick>,
    pub custom: Vec<CustomRow>,
    pub option_chains: Vec<ChainRow>,
    /// Whether order books are at hand.
    pub has_order_books: bool,
    /// Whether contexts of perpetual futures are at hand.
    pub has_perpetual_contexts: bool,
}

/// The data of a slice as a value.
pub struct SliceView {
    pub time: DateTime,
    pub bars: Seq<TradeBar>,
    pub quote_bars: Seq<QuoteBar>,
    pub ticks: Seq<Tick>,
    pub custom: Seq<CustomRow>,
    pub option_chains: Seq<ChainRow>,
    pub has_order_books: bool,
    pub has_perpetual_contexts: bool,
}

impl Slice {
    pub open spec fn view(&self) -> SliceView {
        SliceView {
            time: self.time,
            bars: self.bars@,
            quote_bars: self.quote_bars@,
            ticks: self.ticks@,
            custom: self.custom@,
            option_chains: self.option_chains@,
            has_order_books: self.has_order_books,
            has_perpetual_contexts: self.has_perpetual_contexts,
        }
    }

    pub fn new(time: DateTime) -> (res: Slice)
        ensures
            res@ == empty_slice(time),
    {
        Slice {
            time,
            bars: Vec::new(),
            quote_bars: Vec::new(),
            ticks: Vec::new(),
            custom: Vec::new(),
            option_chains: Vec::new(),
            has_order_books: false,
            has_perpetual_contexts: false,
        }
    }

    pub fn get_bar(&self, sid: u64) -> (res: Option<&TradeBar>)
        ensures
            match res {
                Some(bar) => row_of(self.bars@, sid) == Some(*bar),
                None => row_of(self.bars@, sid) is None,
            },
    {
        find_row(&self.bars, sid)
    }
}

/// A slice without data.
pub open spec fn empty_slice(time: DateTime) -> SliceView {
    SliceView {
        time,
        bars: Seq::empty(),
        quote_bars: Seq::empty(),
        ticks: Seq::empty(),
        custom: Seq::empty(),
        option_chains: Seq::empty(),
        has_order_books: false,
        has_perpetual_contexts: false,
    }
}

/// A slice with one more point.
pub open spec fn with_data(slice: SliceView, point: SubscriptionDataPoint) -> SliceView {
    match point {
        SubscriptionDataPoint::TradeBar(bar) => SliceView {
            bars: with_row(slice.bars, bar),
            ..slice
        },
        SubscriptionDataPoint::QuoteBar(bar) => SliceView {
            quote_bars: with_row(slice.quote_bars, bar),
            ..slice
        },
        SubscriptionDataPoint::Tick(tick) => SliceView { ticks: slice.ticks.push(tick), ..slice },
        SubscriptionDataPoint::CustomData { symbol, ticker, point } => SliceView {
            custom: slice.custom.push(CustomRow { symbol, ticker, point }),
            ..slice
        },
        SubscriptionDataPoint::OptionChain { canonical_permtick, chain, .. } => SliceView {
            option_chains: slice.option_chains.push(ChainRow { canonical_permtick, chain }),
            ..slice
        },
    }
}

/// A slice with points added in turn.
pub open spec fn with_all_data(slice: SliceView, points: Seq<SubscriptionDataPoint>) -> SliceView
    decreases points.len(),
{
    if points.len() == 0 {
        slice
    } else {
        with_data(with_all_data(slice, points.drop_last()), points.last())
    }
}

impl SubscriptionDataPoint {
    /// Adds the point to a slice.
    pub fn add_to_slice(self, slice: &mut Slice)
        ensures
            final(slice)@ == with_data(old(slice)@, self),
    {
        match self {
            SubscriptionDataPoint::TradeBar(bar) => {
                put_row(&mut slice.bars, bar);
            },
            SubscriptionDataPoint::QuoteBar(bar) => {
                put_row(&mut slice.quote_bars, bar);
            },
            SubscriptionDataPoint::Tick(tick) => {
                slice.ticks.push(tick);
            },
            SubscriptionDataPoint::CustomData { symbol, ticker, point } => {
                slice.custom.push(CustomRow { symbol, ticker, point });
            },
            SubscriptionDataPoint::OptionChain { canonical_permtick, chain, .. } => {
                slice.option_chains.push(ChainRow { canonical_permtick, chain });
            },
        }
    }
}

/// Adding a point touches the data of its own kind only. A bar is found under its
/// security afterwards, and the bars of all other securities are as they were; a
/// tick, a custom row or a chain comes last, behind all that were there.
pub proof fn law_added_point_is_in_the_slice(slice: SliceView, point: SubscriptionDataPoint, other: u64)
    ensures
        ({
            let after = with_data(slice, point);
            &&& after.time == slice.time
            &&& after.has_order_books == slice.has_order_books
            &&& after.has_perpetual_contexts == slice.has_perpetual_contexts
            &&& !(point is TradeBar) ==> after.bars == slice.bars
            &&& !(point is QuoteBar) ==> after.quote_bars == slice.quote_bars
            &&& !(point is Tick) ==> after.ticks == slice.ticks
            &&& !(point is CustomData) ==> after.custom == slice.custom
            &&& !(point is OptionChain) ==> after.option_chains == slice.option_chains
            &&& match point {
                SubscriptionDataPoint::TradeBar(bar) => {
                    &&& row_of(after.bars, bar.symbol.sid) == Some(bar)
                    &&& other != bar.symbol.sid ==> row_of(after.bars, other) == row_of(
                        slice.bars,
                        other,
                    )
                },
                SubscriptionDataPoint::QuoteBar(bar) => {
                    &&& row_of(after.quote_bars, bar.symbol.sid) == Some(bar)
                    &&& other != bar.symbol.sid ==> row_of(after.quote_bars, other) == row_of(
                        slice.quote_bars,
                        other,
                    )
                },
                SubscriptionDataPoint::Tick(tick) => {
                    &&& after.ticks.len() == slice.ticks.len() + 1
                    &&& after.ticks.last() == tick
                    &&& after.ticks.drop_last() == slice.ticks
                },
                SubscriptionDataPoint::CustomData { symbol, ticker, point } => {
                    &&& after.custom.len() == slice.custom.len() + 1
                    &&& after.custom.last().symbol == symbol
                    &&& after.custom.last().ticker == ticker
                    &&& after.custom.last().point == point
                    &&& after.custom.drop_last() == slice.custom
                },
                SubscriptionDataPoint::OptionChain { canonical_permtick, chain, .. } => {
                    &&& after.option_chains.len() == slice.option_chains.len() + 1
                    &&& after.option_chains.last().canonical_permtick == canonical_permtick
                    &&& after.option_chains.last().chain == chain
                    &&& after.option_chains.drop_last() == slice.option_chains
                },
            }
        }),
{
    let after = with_data(slice, point);
    match point {
        SubscriptionDataPoint::TradeBar(bar) => {
            law_row_put_in_is_found(slice.bars, bar, bar.symbol.sid);
            law_row_put_in_is_found(slice.bars, bar, other);
        },
        SubscriptionDataPoint::QuoteBar(bar) => {
            law_row_put_in_is_found(slice.quote_bars, bar, bar.symbol.sid);
            law_row_put_in_is_found(slice.quote_bars, bar, other);
        },
        SubscriptionDataPoint::Tick(tick) => {
            assert(after.ticks.drop_last() =~= slice.ticks);
        },
        SubscriptionDataPoint::CustomData { .. } => {
            assert(after.custom.drop_last() =~= slice.custom);
        },
        SubscriptionDataPoint::OptionChain { .. } => {
            assert(after.option_chains.drop_last() =~= slice.option_chains);
        },
    }
}

/// Rows of distinct securities.
pub open spec fn one_row_each<T: OfSecurity>(rows: Seq<T>) -> bool {
    forall|i: int, j: int|
        0 <= i < j < rows.len() ==> (#[trigger] rows[i]).security() != (
        #[trigger] rows[j]).security()
}

/// A row put in leaves one row for each security, takes the place of a row of the
/// same security and comes last where there is none.
pub proof fn law_one_row_per_security<T: OfSecurity>(rows: Seq<T>, new: T)
    requires
        one_row_each(rows),
    ensures
        one_row_each(with_row(rows, new)),
        with_row(rows, new).contains(new),
        row_of(rows, new.security()) is Some ==> with_row(rows, new).len() == rows.len(),
        row_of(rows, new.security()) is None ==> with_row(rows, new) == rows.push(new),
        forall|i: int|
            0 <= i < rows.len() && (#[trigger] rows[i]).security() != new.security()
                ==> with_row(rows, new)[i] == rows[i],
    decreases rows.len(),
{
    let out = with_row(rows, new);
    if rows.len() == 0 {
        assert(out =~= rows.push(new));
        assert(out[0] == new);
    } else if rows[0].security() == new.security() {
        assert(out[0] == new);
    } else {
        let rest = rows.skip(1);
        assert forall|i: int, j: int| 0 <= i < j < rest.len() implies (
        #[trigger] rest[i]).security() != (#[trigger] rest[j]).security() by {
            assert(rows[i + 1].security() != rows[j + 1].security());
        }
        law_one_row_per_security(rest, new);
        let tail = with_row(rest, new);
        let w = choose|k: int| 0 <= k < tail.len() && tail[k] == new;
        assert(out[w + 1] == new);
        assert forall|k: int| 0 <= k < tail.len() implies (#[trigger] tail[k]).security()
            != rows[0].security() by {
            lemma_with_row_member(rest, new, k);
            if tail[k] != new {
                let m = choose|m: int| 0 <= m < rest.len() && rest[m] == tail[k];
                assert(rows[m + 1].security() != rows[0].security());
            }
        }
        assert forall|i: int, j: int| 0 <= i < j < out.len() implies (
        #[trigger] out[i]).security() != (#[trigger] out[j]).security() by {
            if i > 0 {
                assert(tail[i - 1].security() != tail[j - 1].security());
            } else {
                assert(out[j] == tail[j - 1]);
            }
        }
        assert forall|i: int|
            0 <= i < rows.len() && (#[trigger] rows[i]).security()
                != new.security() implies out[i] == rows[i] by {
            if i > 0 {
                assert(rest[i - 1] == rows[i]);
                assert(out[i] == tail[i - 1]);
            }
        }
        if row_of(rest, new.security()) is None {
            assert(out =~= rows.push(new));
        }
    }
}

proof fn lemma_with_row_member<T: OfSecurity>(rows: Seq<T>, new: T, k: int)
    requires
        0 <= k < with_row(rows, new).len(),
    ensures
        with_row(rows, new)[k] == new || rows.contains(with_row(rows, new)[k]),
    decreases rows.len(),
{
    let out = with_row(rows, new);
    if rows.len() > 0 {
        if rows[0].security() == new.security() {
            if k > 0 {
                assert(rows[k] == out[k]);
            }
        } else if k == 0 {
            assert(rows[0] == out[0]);
        } else {
            let rest = rows.skip(1);
            lemma_with_row_member(rest, new, k - 1);
            assert(out[k] == with_row(rest, new)[k - 1]);
            if rest.contains(out[k]) {
                let m = choose|m: int| 0 <= m < rest.len() && rest[m] == out[k];
                assert(rows[m + 1] == out[k]);
            }
        }
    }
}

/// The trade bars of some points.
pub open spec fn trade_bars_among(points: Seq<SubscriptionDataPoint>) -> Seq<TradeBar> {
    points.filter(|p: SubscriptionDataPoint| p is TradeBar).map_values(
        |p: SubscriptionDataPoint| p->TradeBar_0,
    )
}

/// The quote bars of some points.
pub open spec fn quote_bars_among(points: Seq<SubscriptionDataPoint>) -> Seq<QuoteBar> {
    points.filter(|p: SubscriptionDataPoint| p is QuoteBar).map_values(
        |p: SubscriptionDataPoint| p->QuoteBar_0,
    )
}

/// The ticks of some points.
pub open spec fn ticks_among(points: Seq<SubscriptionDataPoint>) -> Seq<Tick> {
    points.filter(|p: SubscriptionDataPoint| p is Tick).map_values(
        |p: SubscriptionDataPoint| p->Tick_0,
    )
}

/// The custom rows of some points.
pub open spec fn custom_rows_among(points: Seq<SubscriptionDataPoint>) -> Seq<CustomRow> {
    points.filter(|p: SubscriptionDataPoint| p is CustomData).map_values(
        |p: SubscriptionDataPoint|
            CustomRow { symbol: p->symbol, ticker: p->ticker, point: p->point },
    )
}

/// The chains of some points.
pub open spec fn chains_among(points: Seq<SubscriptionDataPoint>) -> Seq<ChainRow> {
    points.filter(|p: SubscriptionDataPoint| p is OptionChain).map_values(
        |p: SubscriptionDataPoint|
            ChainRow { canonical_permtick: p->canonical_permtick, chain: p->chain },
    )
}

/// The last row of a security.
pub open spec fn last_of<T: OfSecurity>(rows: Seq<T>, sid: u64) -> Option<T>
    decreases rows.len(),
{
    if rows.len() == 0 {
        None
    } else if rows.last().security() == sid {
        Some(rows.last())
    } else {
        last_of(rows.drop_last(), sid)
    }
}

/// A slice holds all the points that were put into it, and nothing else. Each
/// security has the last of its trade bars and the last of its quote bars, and
/// none where none came; every tick, every custom row and every chain is there, in
/// the order in which they came.
pub proof fn law_slice_holds_every_point(time: DateTime, points: Seq<SubscriptionDataPoint>, sid: u64)
    ensures
        ({
            let slice = with_all_data(empty_slice(time), points);
            &&& slice.time == time
            &&& row_of(slice.bars, sid) == last_of(trade_bars_among(points), sid)
            &&& row_of(slice.quote_bars, sid) == last_of(quote_bars_among(points), sid)
            &&& one_row_each(slice.bars)
            &&& one_row_each(slice.quote_bars)
            &&& slice.ticks == ticks_among(points)
            &&& slice.custom == custom_rows_among(points)
            &&& slice.option_chains == chains_among(points)
            &&& !slice.has_order_books
            &&& !slice.has_perpetual_contexts
        }),
    decreases points.len(),
{
    reveal(Seq::filter);
    let slice = with_all_data(empty_slice(time), points);
    if points.len() > 0 {
        let head = points.drop_last();
        let before = with_all_data(empty_slice(time), head);
        let point = points.last();
        law_slice_holds_every_point(time, head, sid);
        law_added_point_is_in_the_slice(before, point, sid);
        match point {
            SubscriptionDataPoint::TradeBar(bar) => {
                law_one_row_per_security(before.bars, bar);
                assert(trade_bars_among(points) =~= trade_bars_among(head).push(bar));
                assert(trade_bars_among(points).drop_last() =~= trade_bars_among(head));
            },
            SubscriptionDataPoint::QuoteBar(bar) => {
                law_one_row_per_security(before.quote_bars, bar);
                assert(quote_bars_among(points) =~= quote_bars_among(head).push(bar));
                assert(quote_bars_among(points).drop_last() =~= quote_bars_among(head));
            },
            SubscriptionDataPoint::Tick(tick) => {
                assert(ticks_among(points) =~= ticks_among(head).push(tick));
                assert(slice.ticks =~= before.ticks.push(tick));
            },
            SubscriptionDataPoint::CustomData { symbol, ticker, point: row } => {
                let new = CustomRow { symbol, ticker, point: row };
                assert(custom_rows_among(points) =~= custom_rows_among(head).push(new));
                assert(slice.custom =~= before.custom.push(new));
            },
            SubscriptionDataPoint::OptionChain { canonical_permtick, chain, .. } => {
                let new = ChainRow { canonical_permtick, chain };
                assert(chains_among(points) =~= chains_among(head).push(new));
                assert(slice.option_chains =~= before.option_chains.push(new));
            },
        }
    } else {
        assert(ticks_among(points) =~= Seq::<Tick>::empty());
        assert(custom_rows_among(points) =~= Seq::<CustomRow>::empty());
        assert(chains_among(points) =~= Seq::<ChainRow>::empty());
    }
}

} // verus!
