//! Fetched rows held back until the run has passed their dates.

use crate::model::{QuoteBar, Resolution, SecurityType, Tick, TickType, TradeBar};
use crate::text::text_eq;
use crate::time::Date;
use vstd::prelude::*;

verus! {

/// Rows written to the store in one append.
pub const MARKET_CACHE_FLUSH_CHUNK_ROWS: usize = 250_000;

/// Symbols whose corporate actions are held before they are written.
pub const CORPORATE_ACTION_BUFFER_SYMBOLS: usize = 512;

/// Table partition that buffered rows belong to.
pub struct MarketCacheKey {
    pub security_type: SecurityType,
    pub market: String,
    pub resolution: Resolution,
    pub tick_type: TickType,
}

/// A [`MarketCacheKey`] as a value.
pub struct KeyView {
    pub security_type: SecurityType,
    pub market: Seq<char>,
    pub resolution: Resolution,
    pub tick_type: TickType,
}

impl MarketCacheKey {
    pub open spec fn view(&self) -> KeyView {
        KeyView {
            security_type: self.security_type,
            market: self.market@,
            resolution: self.resolution,
            tick_type: self.tick_type,
        }
    }

    /// Whether two keys name the same partition.
    pub fn matches(&self, other: &MarketCacheKey) -> (res: bool)
        ensures
            res == (self@ == other@),
    {
        self.security_type == other.security_type && text_eq(
            self.market.as_str(),
            other.market.as_str(),
        ) && self.resolution == other.resolution && self.tick_type == other.tick_type
    }

    /// An equal copy.
    pub fn duplicate(&self) -> (res: MarketCacheKey)
        ensures
            res == *self,
    {
        MarketCacheKey {
            security_type: self.security_type,
            market: self.market.clone(),
            resolution: self.resolution,
            tick_type: self.tick_type,
        }
    }
}

/// A row that is buffered by the date it belongs to.
pub trait MarketRow: Sized {
    /// Day number of the row.
    spec fn row_day(self) -> int;

    fn row_date(&self) -> (res: Date)
        ensures
            res.days == self.row_day(),
    ;
}

impl MarketRow for TradeBar {
    open spec fn row_day(self) -> int {
        self.end_time.day()
    }

    fn row_date(&self) -> (res: Date) {
        self.end_time.date_utc()
    }
}

impl MarketRow for QuoteBar {
    open spec fn row_day(self) -> int {
        self.end_time.day()
    }

    fn row_date(&self) -> (res: Date) {
        self.end_time.date_utc()
    }
}

impl MarketRow for Tick {
    open spec fn row_day(self) -> int {
        self.time.day()
    }

    fn row_date(&self) -> (res: Date) {
        self.time.date_utc()
    }
}

/// Rows of some partitions.
pub open spec fn rows_for<T>(groups: Seq<(MarketCacheKey, Vec<T>)>, key: KeyView) -> Seq<T>
    decreases groups.len(),
{
    if groups.len() == 0 {
        Seq::empty()
    } else if groups.last().0@ == key {
        groups.last().1@
    } else {
        rows_for(groups.drop_last(), key)
    }
}

/// Each partition occurs at most once, and none without rows.
pub open spec fn groups_wf<T>(groups: Seq<(MarketCacheKey, Vec<T>)>) -> bool {
    &&& forall|i: int, j: int|
        0 <= i < j < groups.len() ==> (#[trigger] groups[i]).0@ != (#[trigger] groups[j]).0@
    &&& forall|i: int| 0 <= i < groups.len() ==> (#[trigger] groups[i]).1@.len() > 0
}

/// Whether a partition has rows.
pub open spec fn has_group<T>(groups: Seq<(MarketCacheKey, Vec<T>)>, key: KeyView) -> bool {
    exists|i: int| 0 <= i < groups.len() && (#[trigger] groups[i]).0@ == key
}

proof fn lemma_rows_for_at<T>(groups: Seq<(MarketCacheKey, Vec<T>)>, i: int)
    requires
        groups_wf(groups),
        0 <= i < groups.len(),
    ensures
        rows_for(groups, groups[i].0@) == groups[i].1@,
    decreases groups.len(),
{
    if i < groups.len() - 1 {
        assert(groups[i].0@ != groups[groups.len() - 1].0@);
        let head = groups.drop_last();
        assert(groups_wf(head)) by {
            assert forall|a: int, b: int| 0 <= a < b < head.len() implies (
            #[trigger] head[a]).0@ != (#[trigger] head[b]).0@ by {
                assert(groups[a].0@ != groups[b].0@);
            }
            assert forall|a: int| 0 <= a < head.len() implies (#[trigger] head[a]).1@.len() > 0 by {
                assert(groups[a].1@.len() > 0);
            }
        }
        lemma_rows_for_at(head, i);
        assert(head[i] == groups[i]);
    }
}

proof fn lemma_rows_for_absent<T>(groups: Seq<(MarketCacheKey, Vec<T>)>, key: KeyView)
    requires
        !has_group(groups, key),
    ensures
        rows_for(groups, key) == Seq::<T>::empty(),
    decreases groups.len(),
{
    if groups.len() > 0 {
        assert(groups[groups.len() - 1].0@ != key);
        let head = groups.drop_last();
        assert(!has_group(head, key)) by {
            if has_group(head, key) {
                let i = choose|i: int| 0 <= i < head.len() && (#[trigger] head[i]).0@ == key;
                assert(groups[i].0@ == key);
            }
        }
        lemma_rows_for_absent(head, key);
    }
}

/// The rows dated on or before a day.
pub open spec fn mature<T: MarketRow>(rows: Seq<T>, day: int) -> Seq<T> {
    rows.filter(|row: T| row.row_day() <= day)
}

/// The rows dated after a day.
pub open spec fn immature<T: MarketRow>(rows: Seq<T>, day: int) -> Seq<T> {
    rows.filter(|row: T| row.row_day() > day)
}

/// Rows of one kind, grouped by partition.
pub struct RowGroups<T> {
    pub groups: Vec<(MarketCacheKey, Vec<T>)>,
}

impl<T: MarketRow> RowGroups<T> {
    pub open spec fn wf(&self) -> bool {
        groups_wf(self.groups@)
    }

    /// Rows held for a partition.
    pub open spec fn rows(&self, key: KeyView) -> Seq<T> {
        rows_for(self.groups@, key)
    }

    pub fn new() -> (res: RowGroups<T>)
        ensures
            res.wf(),
            forall|k: KeyView| #[trigger] res.rows(k) == Seq::<T>::empty(),
            res.groups@.len() == 0,
    {
        RowGroups { groups: Vec::new() }
    }

    /// Adds rows to a partition, after those it holds.
    #[verifier::loop_isolation(false)]
    pub fn push(&mut self, rows: Vec<T>, key: MarketCacheKey)
        requires
            old(self).wf(),
        ensures
            final(self).wf(),
            final(self).rows(key@) == old(self).rows(key@) + rows@,
            forall|k: KeyView| k != key@ ==> #[trigger] final(self).rows(k) == old(self).rows(k),
    {
        let mut rows = rows;
        if rows.len() == 0 {
            assert(self.rows(key@) + rows@ =~= self.rows(key@));
            return ;
        }
        let ghost before = self.groups@;
        let ghost added = rows@;
        let mut i: usize = 0;
        while i < self.groups.len()
            invariant
                i <= self.groups@.len(),
                self.groups@ == before,
                rows@ == added,
                groups_wf(before),
                added.len() > 0,
                old(self).groups@ == before,
                forall|j: int| 0 <= j < i ==> (#[trigger] before[j]).0@ != key@,
            decreases self.groups.len() - i,
        {
            if self.groups[i].0.matches(&key) {
                let ghost held = before[i as int].1@;
                let group = &mut self.groups[i];
                group.1.append(&mut rows);
                proof {
                    let after = self.groups@;
                    assert(after.len() == before.len());
                    assert(after[i as int].0 == before[i as int].0);
                    assert(after[i as int].1@ == held + added);
                    assert forall|j: int| 0 <= j < after.len() && j != i implies #[trigger] after[j]
                        == before[j] by {}
                    assert(groups_wf(after)) by {
                        assert forall|a: int, b: int| 0 <= a < b < after.len() implies (
                        #[trigger] after[a]).0@ != (#[trigger] after[b]).0@ by {
                            assert(before[a].0@ != before[b].0@);
                            assert(after[a].0 == before[a].0);
                            assert(after[b].0 == before[b].0);
                        }
                        assert forall|a: int| 0 <= a < after.len() implies (
                        #[trigger] after[a]).1@.len() > 0 by {
                            assert(before[a].1@.len() > 0);
                        }
                    }
                    lemma_rows_for_at(before, i as int);
                    lemma_rows_for_at(after, i as int);
                    assert forall|k: KeyView| k != key@ implies #[trigger] rows_for(after, k)
                        == rows_for(before, k) by {
                        if has_group(before, k) {
                            let m = choose|m: int|
                                0 <= m < before.len() && (#[trigger] before[m]).0@ == k;
                            assert(after[m] == before[m]);
                            lemma_rows_for_at(before, m);
                            lemma_rows_for_at(after, m);
                        } else {
                            if has_group(after, k) {
                                let m = choose|m: int|
                                    0 <= m < after.len() && (#[trigger] after[m]).0@ == k;
                                assert(before[m].0@ == k);
                            }
                            lemma_rows_for_absent(before, k);
                            lemma_rows_for_absent(after, k);
                        }
                    }
                }
                return ;
            }
            i = i + 1;
        }
        proof {
            assert(!has_group(before, key@));
            lemma_rows_for_absent(before, key@);
        }
        self.groups.push((key, rows));
        proof {
            let after = self.groups@;
            assert(after.drop_last() =~= before);
            assert(after.last().0@ == key@);
            assert(rows_for(after, key@) =~= rows_for(before, key@) + added);
        }
    }

    /// Takes everything out.
    pub fn drain(&mut self) -> (res: Vec<(MarketCacheKey, Vec<T>)>)
        requires
            old(self).wf(),
        ensures
            final(self).wf(),
            groups_wf(res@),
            forall|k: KeyView| #[trigger] rows_for(res@, k) == old(self).rows(k),
            forall|k: KeyView| #[trigger] final(self).rows(k) == Seq::<T>::empty(),
    {
        let mut out: Vec<(MarketCacheKey, Vec<T>)> = Vec::new();
        out.append(&mut self.groups);
        assert(out@ =~= old(self).groups@);
        out
    }

    /// Takes out the rows dated on or before `date`; later rows stay.
    pub fn drain_through(&mut self, date: Date) -> (res: Vec<(MarketCacheKey, Vec<T>)>)
        requires
            old(self).wf(),
        ensures
            final(self).wf(),
            groups_wf(res@),
            forall|k: KeyView| #[trigger]
                rows_for(res@, k) == mature(old(self).rows(k), date.days as int),
            forall|k: KeyView| #[trigger]
                final(self).rows(k) == immature(old(self).rows(k), date.days as int),
    {
        let mut held: Vec<(MarketCacheKey, Vec<T>)> = Vec::new();
        held.append(&mut self.groups);
        let ghost all = old(self).groups@;
        assert(held@ =~= all);
        let mut kept: Vec<(MarketCacheKey, Vec<T>)> = Vec::new();
        let mut drained: Vec<(MarketCacheKey, Vec<T>)> = Vec::new();
        let ghost day = date.days as int;
        assert(all.take(0) =~= Seq::<(MarketCacheKey, Vec<T>)>::empty());
        proof {
            reveal(Seq::filter);
        }
        for group in it: held
            invariant
                it.seq() == all,
                groups_wf(all),
                day == date.days,
                groups_wf(kept@),
                groups_wf(drained@),
                forall|k: KeyView| #[trigger]
                    rows_for(kept@, k) == immature(rows_for(all.take(it.index() as int), k), day),
                forall|k: KeyView| #[trigger]
                    rows_for(drained@, k) == mature(rows_for(all.take(it.index() as int), k), day),
                forall|k: KeyView| #[trigger]
                    has_group(kept@, k) ==> has_group(all.take(it.index() as int), k),
                forall|k: KeyView| #[trigger]
                    has_group(drained@, k) ==> has_group(all.take(it.index() as int), k),
        {
            let ghost i = it.index() as int;
            let ghost head = all.take(i);
            let ghost next = all.take(i + 1);
            let ghost key_view = group.0@;
            proof {
                assert(all[i] == group);
                assert(next.drop_last() =~= head);
                assert(next.last() == group);
                assert(!has_group(head, key_view)) by {
                    if has_group(head, key_view) {
                        let m = choose|m: int|
                            0 <= m < head.len() && (#[trigger] head[m]).0@ == key_view;
                        assert(all[m].0@ != all[i].0@);
                    }
                }
                lemma_rows_for_absent(head, key_view);
                assert forall|k: KeyView| #[trigger] has_group(next, k) == (has_group(head, k) || k
                    == key_view) by {
                    if has_group(head, k) {
                        let m = choose|m: int| 0 <= m < head.len() && (#[trigger] head[m]).0@ == k;
                        assert(next[m] == head[m]);
                    }
                    assert(next[i].0@ == key_view);
                    if has_group(next, k) && k != key_view {
                        let m = choose|m: int| 0 <= m < next.len() && (#[trigger] next[m]).0@ == k;
                        assert(head[m] == next[m]);
                    }
                }
            }
            let (key, rows) = group;
            let (flush, keep) = split_rows(rows, date);
            let ghost kept_before = kept@;
            let ghost drained_before = drained@;
            proof {
                assert(!has_group(kept_before, key_view));
                assert(!has_group(drained_before, key_view));
                lemma_rows_for_absent(kept_before, key_view);
                lemma_rows_for_absent(drained_before, key_view);
            }
            if flush.len() > 0 {
                drained.push((key.duplicate(), flush));
                proof {
                    lemma_push_group(drained_before, drained@.last());
                    assert(drained@ =~= drained_before.push(drained@.last()));
                }
            }
            if keep.len() > 0 {
                kept.push((key, keep));
                proof {
                    lemma_push_group(kept_before, kept@.last());
                    assert(kept@ =~= kept_before.push(kept@.last()));
                }
            }
            proof {
                assert forall|k: KeyView| #[trigger] rows_for(kept@, k) == immature(
                    rows_for(next, k),
                    day,
                ) by {
                    if k == key_view {
                        assert(rows_for(next, k) == rows@);
                        if keep@.len() == 0 {
                            assert(keep@ =~= Seq::<T>::empty());
                        }
                    } else {
                        assert(rows_for(next, k) == rows_for(head, k));
                        assert(rows_for(kept_before, k) == immature(rows_for(head, k), day));
                    }
                }
                assert forall|k: KeyView| #[trigger] rows_for(drained@, k) == mature(
                    rows_for(next, k),
                    day,
                ) by {
                    if k == key_view {
                        assert(rows_for(next, k) == rows@);
                        if flush@.len() == 0 {
                            assert(flush@ =~= Seq::<T>::empty());
                        }
                    } else {
                        assert(rows_for(next, k) == rows_for(head, k));
                        assert(rows_for(drained_before, k) == mature(rows_for(head, k), day));
                    }
                }
                assert forall|k: KeyView| #[trigger] has_group(kept@, k) implies has_group(
                    next,
                    k,
                ) by {
                    assert(has_group(next, k) == (has_group(head, k) || k == key_view));
                    if k != key_view {
                        let m = choose|m: int| 0 <= m < kept@.len() && (#[trigger] kept@[m]).0@ == k;
                        assert(kept_before[m] == kept@[m]);
                        assert(has_group(kept_before, k));
                    }
                }
                assert forall|k: KeyView| #[trigger] has_group(drained@, k) implies has_group(
                    next,
                    k,
                ) by {
                    assert(has_group(next, k) == (has_group(head, k) || k == key_view));
                    if k != key_view {
                        let m = choose|m: int|
                            0 <= m < drained@.len() && (#[trigger] drained@[m]).0@ == k;
                        assert(drained_before[m] == drained@[m]);
                        assert(has_group(drained_before, k));
                    }
                }
            }
        }
        assert(all.take(all.len() as int) =~= all);
        self.groups = kept;
        drained
    }
}

proof fn lemma_push_group<T>(
    groups: Seq<(MarketCacheKey, Vec<T>)>,
    group: (MarketCacheKey, Vec<T>),
)
    requires
        groups_wf(groups),
        !has_group(groups, group.0@),
        group.1@.len() > 0,
    ensures
        groups_wf(groups.push(group)),
        forall|k: KeyView| #[trigger]
            rows_for(groups.push(group), k) == (if k == group.0@ {
                group.1@
            } else {
                rows_for(groups, k)
            }),
{
    let after = groups.push(group);
    assert(after.drop_last() =~= groups);
    assert forall|a: int, b: int| 0 <= a < b < after.len() implies (#[trigger] after[a]).0@ != (
    #[trigger] after[b]).0@ by {
        if b < groups.len() {
            assert(groups[a].0@ != groups[b].0@);
        } else {
            assert(groups[a].0@ != group.0@);
        }
    }
}

/// Splits rows into those dated on or before `date` and the later ones.
fn split_rows<T: MarketRow>(rows: Vec<T>, date: Date) -> (res: (Vec<T>, Vec<T>))
    ensures
        res.0@ == mature(rows@, date.days as int),
        res.1@ == immature(rows@, date.days as int),
{
    let mut flush: Vec<T> = Vec::new();
    let mut keep: Vec<T> = Vec::new();
    let ghost all = rows@;
    let ghost day = date.days as int;
    proof {
        reveal(Seq::filter);
        assert(all.take(0) =~= Seq::<T>::empty());
    }
    for row in it: rows
        invariant
            it.seq() == all,
            day == date.days,
            flush@ == mature(all.take(it.index() as int), day),
            keep@ == immature(all.take(it.index() as int), day),
    {
        proof {
            let i = it.index() as int;
            reveal(Seq::filter);
            assert(all[i] == row);
            assert(all.take(i + 1).drop_last() =~= all.take(i));
            assert(all.take(i + 1).last() == row);
        }
        if row.row_date().days <= date.days {
            flush.push(row);
        } else {
            keep.push(row);
        }
    }
    assert(all.take(all.len() as int) =~= all);
    (flush, keep)
}

/// Draining splits a partition: every row is either drained or kept, none is
/// lost or doubled, only later rows are kept, and draining through the same date
/// again finds nothing.
pub proof fn law_drain_through_partitions_rows<T: MarketRow>(rows: Seq<T>, day: int)
    ensures
        mature(rows, day).to_multiset().add(immature(rows, day).to_multiset())
            == rows.to_multiset(),
        mature(immature(rows, day), day) == Seq::<T>::empty(),
        immature(mature(rows, day), day) == Seq::<T>::empty(),
        forall|i: int|
            0 <= i < mature(rows, day).len() ==> (#[trigger] mature(rows, day)[i]).row_day() <= day,
        forall|i: int|
            0 <= i < immature(rows, day).len() ==> (#[trigger] immature(rows, day)[i]).row_day()
                > day,
    decreases rows.len(),
{
    broadcast use vstd::seq_lib::group_to_multiset_ensures;

    reveal(Seq::filter);
    if rows.len() > 0 {
        let head = rows.drop_last();
        let last = rows.last();
        law_drain_through_partitions_rows(head, day);
        assert(rows =~= head.push(last));
        if last.row_day() <= day {
            assert(mature(rows, day) == mature(head, day).push(last));
            assert(immature(rows, day) == immature(head, day));
            let m = mature(head, day);
            assert(m.push(last).drop_last() =~= m);
            assert(mature(rows, day).to_multiset().add(immature(rows, day).to_multiset())
                =~= rows.to_multiset());
        } else {
            assert(immature(rows, day) == immature(head, day).push(last));
            assert(mature(rows, day) == mature(head, day));
            let m = immature(head, day);
            assert(m.push(last).drop_last() =~= m);
            assert(mature(rows, day).to_multiset().add(immature(rows, day).to_multiset())
                =~= rows.to_multiset());
        }
    } else {
        assert(mature(rows, day) =~= rows);
        assert(immature(rows, day) =~= rows);
        assert(rows =~= Seq::<T>::empty());
        assert(mature(rows, day).to_multiset().add(immature(rows, day).to_multiset())
            =~= rows.to_multiset());
    }
}

/// Market rows fetched ahead of the run. They are written only when the run
/// has passed their date, never by their number.
pub struct MarketCacheWriteBuffer {
    pub trade_bars: RowGroups<TradeBar>,
    pub quote_bars: RowGroups<QuoteBar>,
    pub ticks: RowGroups<Tick>,
}

impl MarketCacheWriteBuffer {
    pub open spec fn wf(&self) -> bool {
        self.trade_bars.wf() && self.quote_bars.wf() && self.ticks.wf()
    }

    pub fn new() -> (res: MarketCacheWriteBuffer)
        ensures
            res.wf(),
            forall|k: KeyView| #[trigger] res.trade_bars.rows(k) == Seq::<TradeBar>::empty(),
            forall|k: KeyView| #[trigger] res.quote_bars.rows(k) == Seq::<QuoteBar>::empty(),
            forall|k: KeyView| #[trigger] res.ticks.rows(k) == Seq::<Tick>::empty(),
    {
        MarketCacheWriteBuffer {
            trade_bars: RowGroups::new(),
            quote_bars: RowGroups::new(),
            ticks: RowGroups::new(),
        }
    }

    pub fn key(
        security_type: SecurityType,
        market: &str,
        resolution: Resolution,
        tick_type: TickType,
    ) -> (res: MarketCacheKey)
        ensures
            res@ == (KeyView { security_type, market: market@, resolution, tick_type }),
    {
        MarketCacheKey { security_type, market: market.to_owned(), resolution, tick_type }
    }

    /// Holds trade bars back for their partition, after those it holds.
    pub fn push_trade_bars(&mut self, rows: Vec<TradeBar>, key: MarketCacheKey)
        requires
            old(self).wf(),
        ensures
            final(self).wf(),
            final(self).trade_bars.rows(key@) == old(self).trade_bars.rows(key@) + rows@,
            forall|k: KeyView|
                k != key@ ==> #[trigger] final(self).trade_bars.rows(k) == old(self).trade_bars.rows(k),
            final(self).quote_bars == old(self).quote_bars,
            final(self).ticks == old(self).ticks,
    {
        self.trade_bars.push(rows, key);
    }

    /// Takes all trade bars out.
    pub fn drain_trade_bars(&mut self) -> (res: Vec<(MarketCacheKey, Vec<TradeBar>)>)
        requires
            old(self).wf(),
        ensures
            final(self).wf(),
            groups_wf(res@),
            forall|k: KeyView| #[trigger] rows_for(res@, k) == old(self).trade_bars.rows(k),
            forall|k: KeyView| #[trigger] final(self).trade_bars.rows(k) == Seq::<TradeBar>::empty(),
            final(self).quote_bars == old(self).quote_bars,
            final(self).ticks == old(self).ticks,
    {
        self.trade_bars.drain()
    }

    /// Takes out the trade bars dated on or before `date`.
    pub fn drain_trade_bars_through(&mut self, date: Date) -> (res: Vec<(MarketCacheKey, Vec<TradeBar>)>)
        requires
            old(self).wf(),
        ensures
            final(self).wf(),
            groups_wf(res@),
            forall|k: KeyView| #[trigger]
                rows_for(res@, k) == mature(old(self).trade_bars.rows(k), date.days as int),
            forall|k: KeyView| #[trigger]
                final(self).trade_bars.rows(k) == immature(old(self).trade_bars.rows(k), date.days as int),
            final(self).quote_bars == old(self).quote_bars,
            final(self).ticks == old(self).ticks,
    {
        self.trade_bars.drain_through(date)
    }

    /// Holds quote bars back for their partition, after those it holds.
    pub fn push_quote_bars(&mut self, rows: Vec<QuoteBar>, key: MarketCacheKey)
        requires
            old(self).wf(),
        ensures
            final(self).wf(),
            final(self).quote_bars.rows(key@) == old(self).quote_bars.rows(key@) + rows@,
            forall|k: KeyView|
                k != key@ ==> #[trigger] final(self).quote_bars.rows(k) == old(self).quote_bars.rows(k),
            final(self).trade_bars == old(self).trade_bars,
            final(self).ticks == old(self).ticks,
    {
        self.quote_bars.push(rows, key);
    }

    /// Takes all quote bars out.
    pub fn drain_quote_bars(&mut self) -> (res: Vec<(MarketCacheKey, Vec<QuoteBar>)>)
        requires
            old(self).wf(),
        ensures
            final(self).wf(),
            groups_wf(res@),
            forall|k: KeyView| #[trigger] rows_for(res@, k) == old(self).quote_bars.rows(k),
            forall|k: KeyView| #[trigger] final(self).quote_bars.rows(k) == Seq::<QuoteBar>::empty(),
            final(self).trade_bars == old(self).trade_bars,
            final(self).ticks == old(self).ticks,
    {
        self.quote_bars.drain()
    }

    /// Takes out the quote bars dated on or before `date`.
    pub fn drain_quote_bars_through(&mut self, date: Date) -> (res: Vec<(MarketCacheKey, Vec<QuoteBar>)>)
        requires
            old(self).wf(),
        ensures
            final(self).wf(),
            groups_wf(res@),
            forall|k: KeyView| #[trigger]
                rows_for(res@, k) == mature(old(self).quote_bars.rows(k), date.days as int),
            forall|k: KeyView| #[trigger]
                final(self).quote_bars.rows(k) == immature(old(self).quote_bars.rows(k), date.days as int),
            final(self).trade_bars == old(self).trade_bars,
            final(self).ticks == old(self).ticks,
    {
        self.quote_bars.drain_through(date)
    }

    /// Holds ticks back for their partition, after those it holds.
    pub fn push_ticks(&mut self, rows: Vec<Tick>, key: MarketCacheKey)
        requires
            old(self).wf(),
        ensures
            final(self).wf(),
            final(self).ticks.rows(key@) == old(self).ticks.rows(key@) + rows@,
            forall|k: KeyView|
                k != key@ ==> #[trigger] final(self).ticks.rows(k) == old(self).ticks.rows(k),
            final(self).trade_bars == old(self).trade_bars,
            final(self).quote_bars == old(self).quote_bars,
    {
        self.ticks.push(rows, key);
    }

    /// Takes all ticks out.
    pub fn drain_ticks(&mut self) -> (res: Vec<(MarketCacheKey, Vec<Tick>)>)
        requires
            old(self).wf(),
        ensures
            final(self).wf(),
            groups_wf(res@),
            forall|k: KeyView| #[trigger] rows_for(res@, k) == old(self).ticks.rows(k),
            forall|k: KeyView| #[trigger] final(self).ticks.rows(k) == Seq::<Tick>::empty(),
            final(self).trade_bars == old(self).trade_bars,
            final(self).quote_bars == old(self).quote_bars,
    {
        self.ticks.drain()
    }

    /// Takes out the ticks dated on or before `date`.
    pub fn drain_ticks_through(&mut self, date: Date) -> (res: Vec<(MarketCacheKey, Vec<Tick>)>)
        requires
            old(self).wf(),
        ensures
            final(self).wf(),
            groups_wf(res@),
            forall|k: KeyView| #[trigger]
                rows_for(res@, k) == mature(old(self).ticks.rows(k), date.days as int),
            forall|k: KeyView| #[trigger]
                final(self).ticks.rows(k) == immature(old(self).ticks.rows(k), date.days as int),
            final(self).trade_bars == old(self).trade_bars,
            final(self).quote_bars == old(self).quote_bars,
    {
        self.ticks.drain_through(date)
    }
}

/// Rows to be written to the store.
pub struct MarketFlush {
    pub trade_bars: Vec<(MarketCacheKey, Vec<TradeBar>)>,
    pub quote_bars: Vec<(MarketCacheKey, Vec<QuoteBar>)>,
    pub ticks: Vec<(MarketCacheKey, Vec<Tick>)>,
}

/// Whether a flush took every row dated on or before a day out of a buffer, and
/// nothing else; none of its lists holds a partition without rows.
pub open spec fn flushed_through(
    before: MarketCacheWriteBuffer,
    after: MarketCacheWriteBuffer,
    flush: MarketFlush,
    day: int,
) -> bool {
    &&& groups_wf(flush.trade_bars@)
    &&& groups_wf(flush.quote_bars@)
    &&& groups_wf(flush.ticks@)
    &&& forall|k: KeyView| #[trigger]
        rows_for(flush.trade_bars@, k) == mature(before.trade_bars.rows(k), day)
    &&& forall|k: KeyView| #[trigger]
        rows_for(flush.quote_bars@, k) == mature(before.quote_bars.rows(k), day)
    &&& forall|k: KeyView| #[trigger]
        rows_for(flush.ticks@, k) == mature(before.ticks.rows(k), day)
    &&& forall|k: KeyView| #[trigger]
        after.trade_bars.rows(k) == immature(before.trade_bars.rows(k), day)
    &&& forall|k: KeyView| #[trigger]
        after.quote_bars.rows(k) == immature(before.quote_bars.rows(k), day)
    &&& forall|k: KeyView| #[trigger] after.ticks.rows(k) == immature(before.ticks.rows(k), day)
}

/// Whether a flush took every row out of a buffer.
pub open spec fn flushed_all(
    before: MarketCacheWriteBuffer,
    after: MarketCacheWriteBuffer,
    flush: MarketFlush,
) -> bool {
    &&& groups_wf(flush.trade_bars@)
    &&& groups_wf(flush.quote_bars@)
    &&& groups_wf(flush.ticks@)
    &&& forall|k: KeyView| #[trigger]
        rows_for(flush.trade_bars@, k) == before.trade_bars.rows(k)
    &&& forall|k: KeyView| #[trigger]
        rows_for(flush.quote_bars@, k) == before.quote_bars.rows(k)
    &&& forall|k: KeyView| #[trigger] rows_for(flush.ticks@, k) == before.ticks.rows(k)
    &&& forall|k: KeyView| #[trigger] after.trade_bars.rows(k) == Seq::<TradeBar>::empty()
    &&& forall|k: KeyView| #[trigger] after.quote_bars.rows(k) == Seq::<QuoteBar>::empty()
    &&& forall|k: KeyView| #[trigger] after.ticks.rows(k) == Seq::<Tick>::empty()
}

impl MarketFlush {
    /// Whether there is nothing to write.
    pub fn is_empty(&self) -> (res: bool)
        ensures
            res == (self.trade_bars@.len() == 0 && self.quote_bars@.len() == 0 && self.ticks@.len()
                == 0),
    {
        self.trade_bars.len() == 0 && self.quote_bars.len() == 0 && self.ticks.len() == 0
    }
}

/// Bounds of the appends into which `len` rows are cut: consecutive ranges of
/// [`MARKET_CACHE_FLUSH_CHUNK_ROWS`] rows, the last one shorter.
pub fn flush_chunks(len: usize) -> (res: Vec<(usize, usize)>)
    ensures
        len == 0 ==> res@.len() == 0,
        len > 0 ==> {
            &&& res@.len() > 0
            &&& res@[0].0 == 0
            &&& res@.last().1 == len
        },
        forall|i: int|
            0 <= i < res@.len() ==> (#[trigger] res@[i]).0 == i * MARKET_CACHE_FLUSH_CHUNK_ROWS
                && res@[i].0 < res@[i].1 <= len && (i < res@.len() - 1 ==> res@[i].1 == (i + 1)
                * MARKET_CACHE_FLUSH_CHUNK_ROWS) && res@[i].1 - res@[i].0
                <= MARKET_CACHE_FLUSH_CHUNK_ROWS,
{
    let mut out: Vec<(usize, usize)> = Vec::new();
    let mut start: usize = 0;
    while start < len
        invariant
            start <= len,
            start < len ==> start == out@.len() * MARKET_CACHE_FLUSH_CHUNK_ROWS,
            out@.len() == 0 ==> start == 0,
            out@.len() > 0 ==> out@[0].0 == 0 && out@.last().1 == start,
            forall|i: int|
                0 <= i < out@.len() ==> (#[trigger] out@[i]).0 == i * MARKET_CACHE_FLUSH_CHUNK_ROWS
                    && out@[i].0 < out@[i].1 <= len && ((i < out@.len() - 1 || start < len)
                    ==> out@[i].1 == (i + 1) * MARKET_CACHE_FLUSH_CHUNK_ROWS) && out@[i].1
                    - out@[i].0 <= MARKET_CACHE_FLUSH_CHUNK_ROWS,
        decreases len - start,
    {
        let end: usize = if len - start > MARKET_CACHE_FLUSH_CHUNK_ROWS {
            start + MARKET_CACHE_FLUSH_CHUNK_ROWS
        } else {
            len
        };
        out.push((start, end));
        start = end;
    }
    out
}

/// Factor and map files held until enough symbols have come together. `F` and
/// `M` are the rows of the two kinds of file.
pub struct CorporateActionWriteBuffer<F, M> {
    pub factor_files: Vec<(String, String, Vec<F>)>,
    pub map_files: Vec<(String, String, Vec<M>)>,
}

/// Adds one file to a buffer; a full buffer is handed out and emptied.
fn push_file<T>(
    buffer: &mut Vec<(String, String, Vec<T>)>,
    market: String,
    ticker: String,
    rows: Vec<T>,
) -> (res: Option<Vec<(String, String, Vec<T>)>>)
    requires
        old(buffer)@.len() < CORPORATE_ACTION_BUFFER_SYMBOLS,
    ensures
        final(buffer)@.len() < CORPORATE_ACTION_BUFFER_SYMBOLS,
        pushed_file(old(buffer)@, (market, ticker, rows), final(buffer)@, res),
{
    if rows.len() == 0 {
        return None;
    }
    buffer.push((market, ticker, rows));
    if buffer.len() >= CORPORATE_ACTION_BUFFER_SYMBOLS {
        let mut out: Vec<(String, String, Vec<T>)> = Vec::new();
        out.append(buffer);
        assert(out@ =~= old(buffer)@.push((market, ticker, rows)));
        Some(out)
    } else {
        None
    }
}

/// Outcome of adding a file: one without rows changes nothing; otherwise it is
/// held, or handed out with all the others once the buffer is full.
pub open spec fn pushed_file<T>(
    before: Seq<(String, String, Vec<T>)>,
    file: (String, String, Vec<T>),
    after: Seq<(String, String, Vec<T>)>,
    out: Option<Vec<(String, String, Vec<T>)>>,
) -> bool {
    if file.2@.len() == 0 {
        after == before && out is None
    } else if before.len() + 1 >= CORPORATE_ACTION_BUFFER_SYMBOLS {
        &&& after.len() == 0
        &&& out matches Some(files) && files@ == before.push(file)
    } else {
        after == before.push(file) && out is None
    }
}

impl<F, M> CorporateActionWriteBuffer<F, M> {
    pub open spec fn wf(&self) -> bool {
        self.factor_files@.len() < CORPORATE_ACTION_BUFFER_SYMBOLS && self.map_files@.len()
            < CORPORATE_ACTION_BUFFER_SYMBOLS
    }

    pub fn new() -> (res: CorporateActionWriteBuffer<F, M>)
        ensures
            res.wf(),
            res.factor_files@.len() == 0,
            res.map_files@.len() == 0,
    {
        CorporateActionWriteBuffer { factor_files: Vec::new(), map_files: Vec::new() }
    }

    pub fn push_factor_file(&mut self, market: String, ticker: String, rows: Vec<F>) -> (res: Option<
        Vec<(String, String, Vec<F>)>,
    >)
        requires
            old(self).wf(),
        ensures
            final(self).wf(),
            final(self).map_files == old(self).map_files,
            pushed_file(
                old(self).factor_files@,
                (market, ticker, rows),
                final(self).factor_files@,
                res,
            ),
    {
        push_file(&mut self.factor_files, market, ticker, rows)
    }

    pub fn push_map_file(&mut self, market: String, ticker: String, rows: Vec<M>) -> (res: Option<
        Vec<(String, String, Vec<M>)>,
    >)
        requires
            old(self).wf(),
        ensures
            final(self).wf(),
            final(self).factor_files == old(self).factor_files,
            pushed_file(old(self).map_files@, (market, ticker, rows), final(self).map_files@, res),
    {
        push_file(&mut self.map_files, market, ticker, rows)
    }

    pub fn drain_factor_files(&mut self) -> (res: Vec<(String, String, Vec<F>)>)
        requires
            old(self).wf(),
        ensures
            final(self).wf(),
            res@ == old(self).factor_files@,
            final(self).factor_files@.len() == 0,
            final(self).map_files == old(self).map_files,
    {
        let mut out: Vec<(String, String, Vec<F>)> = Vec::new();
        out.append(&mut self.factor_files);
        assert(out@ =~= old(self).factor_files@);
        out
    }

    pub fn drain_map_files(&mut self) -> (res: Vec<(String, String, Vec<M>)>)
        requires
            old(self).wf(),
        ensures
            final(self).wf(),
            res@ == old(self).map_files@,
            final(self).map_files@.len() == 0,
            final(self).factor_files == old(self).factor_files,
    {
        let mut out: Vec<(String, String, Vec<M>)> = Vec::new();
        out.append(&mut self.map_files);
        assert(out@ =~= old(self).map_files@);
        out
    }
}

/// Flushing through a day takes each row exactly once: a row of that day or before it
/// is written, a row after it stays, partition by partition, and nothing is lost.
pub proof fn law_flush_takes_the_passed_rows(
    before: MarketCacheWriteBuffer,
    after: MarketCacheWriteBuffer,
    flush: MarketFlush,
    day: int,
    key: KeyView,
    bar: TradeBar,
    quote: QuoteBar,
    tick: Tick,
)
    requires
        flushed_through(before, after, flush, day),
        before.trade_bars.rows(key).contains(bar),
        before.quote_bars.rows(key).contains(quote),
        before.ticks.rows(key).contains(tick),
    ensures
        rows_for(flush.trade_bars@, key).contains(bar) <==> bar.end_time.day() <= day,
        after.trade_bars.rows(key).contains(bar) <==> bar.end_time.day() > day,
        rows_for(flush.quote_bars@, key).contains(quote) <==> quote.end_time.day() <= day,
        after.quote_bars.rows(key).contains(quote) <==> quote.end_time.day() > day,
        rows_for(flush.ticks@, key).contains(tick) <==> tick.time.day() <= day,
        after.ticks.rows(key).contains(tick) <==> tick.time.day() > day,
        rows_for(flush.trade_bars@, key).len() + after.trade_bars.rows(key).len()
            == before.trade_bars.rows(key).len(),
{
    lemma_split_rows(before.trade_bars.rows(key), day, bar);
    lemma_split_rows(before.quote_bars.rows(key), day, quote);
    lemma_split_rows(before.ticks.rows(key), day, tick);
}

proof fn lemma_split_rows<T: MarketRow>(rows: Seq<T>, day: int, row: T)
    requires
        rows.contains(row),
    ensures
        mature(rows, day).contains(row) <==> row.row_day() <= day,
        immature(rows, day).contains(row) <==> row.row_day() > day,
        mature(rows, day).len() + immature(rows, day).len() == rows.len(),
    decreases rows.len(),
{
    law_drain_through_partitions_rows(rows, day);
    let early = mature(rows, day);
    let late = immature(rows, day);
    rows.to_multiset_ensures();
    early.to_multiset_ensures();
    late.to_multiset_ensures();
    assert(rows.to_multiset().count(row) > 0);
    assert(early.to_multiset().count(row) + late.to_multiset().count(row)
        == rows.to_multiset().count(row));
    if early.contains(row) {
        let i = choose|i: int| 0 <= i < early.len() && early[i] == row;
        assert(early[i].row_day() <= day);
    }
    if late.contains(row) {
        let i = choose|i: int| 0 <= i < late.len() && late[i] == row;
        assert(late[i].row_day() > day);
    }
    assert(early.to_multiset().len() + late.to_multiset().len() == rows.to_multiset().len()) by {
        assert(early.to_multiset().add(late.to_multiset()) == rows.to_multiset());
    }
}

/// Flushing everything writes every row of every partition and leaves none behind.
pub proof fn law_flush_of_everything(
    before: MarketCacheWriteBuffer,
    after: MarketCacheWriteBuffer,
    flush: MarketFlush,
    key: KeyView,
)
    requires
        flushed_all(before, after, flush),
    ensures
        rows_for(flush.trade_bars@, key) == before.trade_bars.rows(key),
        rows_for(flush.quote_bars@, key) == before.quote_bars.rows(key),
        rows_for(flush.ticks@, key) == before.ticks.rows(key),
        after.trade_bars.rows(key).len() == 0,
        after.quote_bars.rows(key).len() == 0,
        after.ticks.rows(key).len() == 0,
{
}

/// A partition has the rows that were put into it last; partitions do not mix.
pub proof fn law_partitions_do_not_mix<T>(
    groups: Seq<(MarketCacheKey, Vec<T>)>,
    group: (MarketCacheKey, Vec<T>),
    key: KeyView,
)
    ensures
        group.0@ == key ==> rows_for(groups.push(group), key) == group.1@,
        group.0@ != key ==> rows_for(groups.push(group), key) == rows_for(groups, key),
        rows_for(Seq::<(MarketCacheKey, Vec<T>)>::empty(), key).len() == 0,
{
    assert(groups.push(group).drop_last() =~= groups);
}

/// Files are held back until there are enough of them, and then all of them are handed
/// out, in the order in which they came: none is lost and none is held twice.
pub proof fn law_files_are_handed_out_together<T>(
    before: Seq<(String, String, Vec<T>)>,
    file: (String, String, Vec<T>),
    after: Seq<(String, String, Vec<T>)>,
    out: Option<Vec<(String, String, Vec<T>)>>,
)
    requires
        pushed_file(before, file, after, out),
    ensures
        file.2@.len() == 0 ==> out is None && after == before,
        file.2@.len() > 0 ==> match out {
            Some(files) => after.len() == 0 && files@.len() == before.len() + 1 && files@.last()
                == file && files@.drop_last() == before,
            None => after.len() == before.len() + 1 && after.last() == file && after.drop_last()
                == before && after.len() < CORPORATE_ACTION_BUFFER_SYMBOLS,
        },
{
    if file.2@.len() > 0 {
        assert(before.push(file).drop_last() =~= before);
    }
}

} // verus!
