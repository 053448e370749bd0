//! History taken from the same streams that feed a run.

use crate::model::{
    CustomDataPoint, DataNormalizationMode, DataType, QuoteBar, SecurityType, Tick, TickType,
    TradeBar,
};
use crate::runner::live::has_sid;
use crate::slice::{CustomRow, Slice};
use crate::sorting::{sort_rows, sorted, SortBy};
use crate::subscription_reader::coverage::lemma_filter_index;
use vstd::prelude::*;

verus! {

/// Kind of subscription through which history of a security is read.
#[derive(Clone, Copy, Debug, PartialEq, Eq, Structural)]
pub enum HistoryConfigKind {
    /// As an equity, normalized.
    Equity(DataNormalizationMode),
    Option,
    Forex,
    Crypto,
}

/// The subscription of a history request.
pub open spec fn history_kind(
    security_type: SecurityType,
    normalization_mode: DataNormalizationMode,
) -> HistoryConfigKind {
    match security_type {
        SecurityType::Option | SecurityType::IndexOption | SecurityType::FutureOption =>
        HistoryConfigKind::Option,
        SecurityType::Forex | SecurityType::Cfd => HistoryConfigKind::Forex,
        SecurityType::Crypto | SecurityType::CryptoFuture => HistoryConfigKind::Crypto,
        _ => HistoryConfigKind::Equity(normalization_mode),
    }
}

/// Chooses the subscription of a history request, and its tick type: quotes for
/// quote bars, trades for anything else.
pub fn config_from_history_request(
    security_type: SecurityType,
    data_type: DataType,
    normalization_mode: DataNormalizationMode,
) -> (res: (HistoryConfigKind, TickType))
    ensures
        res.0 == history_kind(security_type, normalization_mode),
        res.1 == (if data_type == DataType::QuoteBar {
            TickType::Quote
        } else {
            TickType::Trade
        }),
{
    let kind = match security_type {
        SecurityType::Equity => HistoryConfigKind::Equity(normalization_mode),
        SecurityType::Option | SecurityType::IndexOption | SecurityType::FutureOption =>
        HistoryConfigKind::Option,
        SecurityType::Forex | SecurityType::Cfd => HistoryConfigKind::Forex,
        SecurityType::Crypto | SecurityType::CryptoFuture => HistoryConfigKind::Crypto,
        _ => HistoryConfigKind::Equity(normalization_mode),
    };
    let tick_type = match data_type {
        DataType::QuoteBar => TickType::Quote,
        DataType::Tick => TickType::Trade,
        _ => TickType::Trade,
    };
    (kind, tick_type)
}

/// Trade bars of some securities in slices, slice by slice.
pub open spec fn bars_in(slices: Seq<Slice>, sids: Seq<u64>) -> Seq<TradeBar>
    decreases slices.len(),
{
    if slices.len() == 0 {
        Seq::empty()
    } else {
        bars_in(slices.drop_last(), sids) + slices.last().bars@.filter(
            |bar: TradeBar| sids.contains(bar.symbol.sid),
        )
    }
}

/// Quote bars of some securities in slices, slice by slice.
pub open spec fn quotes_in(slices: Seq<Slice>, sids: Seq<u64>) -> Seq<QuoteBar>
    decreases slices.len(),
{
    if slices.len() == 0 {
        Seq::empty()
    } else {
        quotes_in(slices.drop_last(), sids) + slices.last().quote_bars@.filter(
            |bar: QuoteBar| sids.contains(bar.symbol.sid),
        )
    }
}

/// Ticks of some securities in slices, slice by slice.
pub open spec fn ticks_in(slices: Seq<Slice>, sids: Seq<u64>) -> Seq<Tick>
    decreases slices.len(),
{
    if slices.len() == 0 {
        Seq::empty()
    } else {
        ticks_in(slices.drop_last(), sids) + slices.last().ticks@.filter(
            |tick: Tick| sids.contains(tick.symbol.sid),
        )
    }
}

/// Custom rows of a security in slices, in order.
pub open spec fn custom_in(slices: Seq<Slice>, sid: u64) -> Seq<CustomDataPoint>
    decreases slices.len(),
{
    if slices.len() == 0 {
        Seq::empty()
    } else {
        custom_in(slices.drop_last(), sid) + slices.last().custom@.filter(
            |row: CustomRow| row.symbol.sid == sid,
        ).map_values(|row: CustomRow| row.point)
    }
}

/// Trade bars of the requested securities, by end and security.
pub fn get_trade_bars_for_configs(slices: Vec<Slice>, sids: &Vec<u64>) -> (res: Vec<TradeBar>)
    ensures
        res@ == sorted(bars_in(slices@, sids@), SortBy::EndAndSecurity),
{
    let mut out: Vec<TradeBar> = Vec::new();
    let ghost all = slices@;
    let ghost keep = |bar: TradeBar| sids@.contains(bar.symbol.sid);
    for slice in it: slices
        invariant
            it.seq() == all,
            keep == |bar: TradeBar| sids@.contains(bar.symbol.sid),
            out@ == bars_in(all.take(it.index() as int), sids@),
    {
        let ghost start = out@;
        let ghost bars = slice.bars@;
        proof {
            reveal(Seq::filter);
            assert(all.take(it.index() + 1).drop_last() =~= all.take(it.index() as int));
            assert(all.take(it.index() + 1).last() == slice);
            assert(out@ =~= start + bars.take(0).filter(keep));
        }
        for bar in inner: slice.bars
            invariant
                inner.seq() == bars,
                keep == |bar: TradeBar| sids@.contains(bar.symbol.sid),
                out@ =~= start + bars.take(inner.index() as int).filter(keep),
        {
            proof {
                reveal(Seq::filter);
                assert(bars.take(inner.index() + 1).drop_last() =~= bars.take(
                    inner.index() as int,
                ));
                assert(bars.take(inner.index() + 1).last() == bar);
            }
            if has_sid(sids, bar.symbol.sid) {
                out.push(bar);
            }
        }
        assert(bars.take(bars.len() as int) =~= bars);
    }
    assert(all.take(all.len() as int) =~= all);
    sort_rows(out, SortBy::EndAndSecurity)
}

/// Quote bars of the requested securities, by end and security.
pub fn get_quote_bars_for_configs(slices: Vec<Slice>, sids: &Vec<u64>) -> (res: Vec<QuoteBar>)
    ensures
        res@ == sorted(quotes_in(slices@, sids@), SortBy::EndAndSecurity),
{
    let mut out: Vec<QuoteBar> = Vec::new();
    let ghost all = slices@;
    let ghost keep = |bar: QuoteBar| sids@.contains(bar.symbol.sid);
    for slice in it: slices
        invariant
            it.seq() == all,
            keep == |bar: QuoteBar| sids@.contains(bar.symbol.sid),
            out@ == quotes_in(all.take(it.index() as int), sids@),
    {
        let ghost start = out@;
        let ghost bars = slice.quote_bars@;
        proof {
            reveal(Seq::filter);
            assert(all.take(it.index() + 1).drop_last() =~= all.take(it.index() as int));
            assert(all.take(it.index() + 1).last() == slice);
            assert(out@ =~= start + bars.take(0).filter(keep));
        }
        for bar in inner: slice.quote_bars
            invariant
                inner.seq() == bars,
                keep == |bar: QuoteBar| sids@.contains(bar.symbol.sid),
                out@ =~= start + bars.take(inner.index() as int).filter(keep),
        {
            proof {
                reveal(Seq::filter);
                assert(bars.take(inner.index() + 1).drop_last() =~= bars.take(
                    inner.index() as int,
                ));
                assert(bars.take(inner.index() + 1).last() == bar);
            }
            if has_sid(sids, bar.symbol.sid) {
                out.push(bar);
            }
        }
        assert(bars.take(bars.len() as int) =~= bars);
    }
    assert(all.take(all.len() as int) =~= all);
    sort_rows(out, SortBy::EndAndSecurity)
}

/// Ticks of the requested securities, by time, security and kind.
pub fn get_ticks_for_configs(slices: Vec<Slice>, sids: &Vec<u64>) -> (res: Vec<Tick>)
    ensures
        res@ == sorted(ticks_in(slices@, sids@), SortBy::EndAndSecurity),
{
    let mut out: Vec<Tick> = Vec::new();
    let ghost all = slices@;
    let ghost keep = |tick: Tick| sids@.contains(tick.symbol.sid);
    for slice in it: slices
        invariant
            it.seq() == all,
            keep == |tick: Tick| sids@.contains(tick.symbol.sid),
            out@ == ticks_in(all.take(it.index() as int), sids@),
    {
        let ghost start = out@;
        let ghost ticks = slice.ticks@;
        proof {
            reveal(Seq::filter);
            assert(all.take(it.index() + 1).drop_last() =~= all.take(it.index() as int));
            assert(all.take(it.index() + 1).last() == slice);
            assert(out@ =~= start + ticks.take(0).filter(keep));
        }
        for tick in inner: slice.ticks
            invariant
                inner.seq() == ticks,
                keep == |tick: Tick| sids@.contains(tick.symbol.sid),
                out@ =~= start + ticks.take(inner.index() as int).filter(keep),
        {
            proof {
                reveal(Seq::filter);
                assert(ticks.take(inner.index() + 1).drop_last() =~= ticks.take(
                    inner.index() as int,
                ));
                assert(ticks.take(inner.index() + 1).last() == tick);
            }
            if has_sid(sids, tick.symbol.sid) {
                out.push(tick);
            }
        }
        assert(ticks.take(ticks.len() as int) =~= ticks);
    }
    assert(all.take(all.len() as int) =~= all);
    sort_rows(out, SortBy::EndAndSecurity)
}

/// Custom rows of a security, in the order of the slices.
pub fn get_custom_points(slices: Vec<Slice>, sid: u64) -> (res: Vec<CustomDataPoint>)
    ensures
        res@ == custom_in(slices@, sid),
{
    let mut out: Vec<CustomDataPoint> = Vec::new();
    let ghost all = slices@;
    let ghost keep = |row: CustomRow| row.symbol.sid == sid;
    let ghost point_of = |row: CustomRow| row.point;
    for slice in it: slices
        invariant
            it.seq() == all,
            keep == |row: CustomRow| row.symbol.sid == sid,
            point_of == |row: CustomRow| row.point,
            out@ == custom_in(all.take(it.index() as int), sid),
    {
        let ghost start = out@;
        let ghost rows = slice.custom@;
        proof {
            reveal(Seq::filter);
            assert(all.take(it.index() + 1).drop_last() =~= all.take(it.index() as int));
            assert(all.take(it.index() + 1).last() == slice);
            assert(out@ =~= start + rows.take(0).filter(keep).map_values(point_of));
        }
        for row in inner: slice.custom
            invariant
                inner.seq() == rows,
                keep == |row: CustomRow| row.symbol.sid == sid,
                point_of == |row: CustomRow| row.point,
                out@ =~= start + rows.take(inner.index() as int).filter(keep).map_values(point_of),
        {
            proof {
                reveal(Seq::filter);
                assert(rows.take(inner.index() + 1).drop_last() =~= rows.take(
                    inner.index() as int,
                ));
                assert(rows.take(inner.index() + 1).last() == row);
            }
            if row.symbol.sid == sid {
                out.push(row.point);
            }
        }
        assert(rows.take(rows.len() as int) =~= rows);
    }
    assert(all.take(all.len() as int) =~= all);
    out
}

/// Options, currencies and crypto assets are asked for as what they are; anything else as
/// an equity, under the normalization that is asked for.
pub proof fn law_history_is_asked_by_kind(mode: DataNormalizationMode)
    ensures
        history_kind(SecurityType::Equity, mode) == HistoryConfigKind::Equity(mode),
        history_kind(SecurityType::Option, mode) == HistoryConfigKind::Option,
        history_kind(SecurityType::IndexOption, mode) == HistoryConfigKind::Option,
        history_kind(SecurityType::FutureOption, mode) == HistoryConfigKind::Option,
        history_kind(SecurityType::Forex, mode) == HistoryConfigKind::Forex,
        history_kind(SecurityType::Cfd, mode) == HistoryConfigKind::Forex,
        history_kind(SecurityType::Crypto, mode) == HistoryConfigKind::Crypto,
        history_kind(SecurityType::CryptoFuture, mode) == HistoryConfigKind::Crypto,
        history_kind(SecurityType::Future, mode) == HistoryConfigKind::Equity(mode),
{
}

/// A history gathers the rows of the securities that are asked for from every slice, all
/// of them and no others.
pub proof fn law_history_gathers_every_slice(
    slices: Seq<Slice>,
    i: int,
    bar: TradeBar,
    quote: QuoteBar,
    tick: Tick,
    sids: Seq<u64>,
)
    requires
        0 <= i < slices.len(),
    ensures
        slices[i].bars@.contains(bar) && sids.contains(bar.symbol.sid) ==> bars_in(
            slices,
            sids,
        ).contains(bar),
        slices[i].quote_bars@.contains(quote) && sids.contains(quote.symbol.sid) ==> quotes_in(
            slices,
            sids,
        ).contains(quote),
        slices[i].ticks@.contains(tick) && sids.contains(tick.symbol.sid) ==> ticks_in(
            slices,
            sids,
        ).contains(tick),
    decreases slices.len(),
{
    let head = slices.drop_last();
    let last = slices.last();
    let keep_bar = |bar: TradeBar| sids.contains(bar.symbol.sid);
    let keep_quote = |bar: QuoteBar| sids.contains(bar.symbol.sid);
    let keep_tick = |tick: Tick| sids.contains(tick.symbol.sid);
    if i < head.len() {
        assert(head[i] == slices[i]);
        law_history_gathers_every_slice(head, i, bar, quote, tick, sids);
        lemma_in_front(bars_in(head, sids), last.bars@.filter(keep_bar), bar);
        lemma_in_front(quotes_in(head, sids), last.quote_bars@.filter(keep_quote), quote);
        lemma_in_front(ticks_in(head, sids), last.ticks@.filter(keep_tick), tick);
    } else {
        lemma_kept(last.bars@, keep_bar, bar);
        lemma_kept(last.quote_bars@, keep_quote, quote);
        lemma_kept(last.ticks@, keep_tick, tick);
        lemma_in_front(bars_in(head, sids), last.bars@.filter(keep_bar), bar);
        lemma_in_front(quotes_in(head, sids), last.quote_bars@.filter(keep_quote), quote);
        lemma_in_front(ticks_in(head, sids), last.ticks@.filter(keep_tick), tick);
    }
}

proof fn lemma_in_front<T>(a: Seq<T>, b: Seq<T>, x: T)
    ensures
        (a + b).contains(x) <==> a.contains(x) || b.contains(x),
{
    if a.contains(x) {
        let k = choose|k: int| 0 <= k < a.len() && a[k] == x;
        assert((a + b)[k] == x);
    }
    if b.contains(x) {
        let k = choose|k: int| 0 <= k < b.len() && b[k] == x;
        assert((a + b)[a.len() + k] == x);
    }
    if (a + b).contains(x) {
        let k = choose|k: int| 0 <= k < (a + b).len() && (a + b)[k] == x;
        if k < a.len() {
            assert(a[k] == x);
        } else {
            assert(b[k - a.len()] == x);
        }
    }
}

proof fn lemma_kept<T>(s: Seq<T>, keep: spec_fn(T) -> bool, x: T)
    ensures
        s.contains(x) && keep(x) ==> s.filter(keep).contains(x),
    decreases s.len(),
{
    reveal(Seq::filter);
    if s.len() > 0 && s.contains(x) && keep(x) {
        let head = s.drop_last();
        lemma_kept(head, keep, x);
        if x == s.last() {
            assert(s.filter(keep)[s.filter(keep).len() - 1] == x);
        } else {
            let k = choose|k: int| 0 <= k < s.len() && s[k] == x;
            assert(head[k] == x);
            let m = choose|m: int| 0 <= m < head.filter(keep).len() && head.filter(keep)[m] == x;
            assert(s.filter(keep)[m] == x);
        }
    }
}

/// Nothing comes into a history but rows of the securities that are asked for.
pub proof fn law_history_holds_asked_securities_only(slices: Seq<Slice>, sids: Seq<u64>, k: int)
    ensures
        0 <= k < bars_in(slices, sids).len() ==> sids.contains(bars_in(slices, sids)[k].symbol.sid),
        0 <= k < quotes_in(slices, sids).len() ==> sids.contains(
            quotes_in(slices, sids)[k].symbol.sid,
        ),
        0 <= k < ticks_in(slices, sids).len() ==> sids.contains(
            ticks_in(slices, sids)[k].symbol.sid,
        ),
    decreases slices.len(),
{
    if slices.len() > 0 {
        let head = slices.drop_last();
        let last = slices.last();
        law_history_holds_asked_securities_only(head, sids, k);
        let keep_bar = |bar: TradeBar| sids.contains(bar.symbol.sid);
        let keep_quote = |bar: QuoteBar| sids.contains(bar.symbol.sid);
        let keep_tick = |tick: Tick| sids.contains(tick.symbol.sid);
        let a = bars_in(head, sids).len() as int;
        let b = quotes_in(head, sids).len() as int;
        let c = ticks_in(head, sids).len() as int;
        if a <= k < bars_in(slices, sids).len() {
            lemma_filter_index(last.bars@, keep_bar, k - a);
        }
        if b <= k < quotes_in(slices, sids).len() {
            lemma_filter_index(last.quote_bars@, keep_quote, k - b);
        }
        if c <= k < ticks_in(slices, sids).len() {
            lemma_filter_index(last.ticks@, keep_tick, k - c);
        }
    }
}

/// The custom rows of a security come slice by slice, in the order of each slice.
pub proof fn law_custom_history_follows_the_slices(slices: Seq<Slice>, slice: Slice, sid: u64)
    ensures
        custom_in(slices.push(slice), sid) == custom_in(slices, sid) + slice.custom@.filter(
            |row: CustomRow| row.symbol.sid == sid,
        ).map_values(|row: CustomRow| row.point),
        custom_in(Seq::empty(), sid).len() == 0,
{
    assert(slices.push(slice).drop_last() =~= slices);
}

} // verus!
