//! Stable sorting of rows by their time.

use crate::model::{CustomDataPoint, QuoteBar, Tick, TickType, TradeBar};
use vstd::prelude::*;

verus! {

/// What rows are ordered by.
#[derive(Clone, Copy, Debug, PartialEq, Eq, Structural)]
pub enum SortBy {
    /// The instant at which a row ends.
    End,
    /// That instant, then the security, then the kind of row.
    EndAndSecurity,
}

/// Rows that can be ordered.
pub trait Sortable: Sized {
    spec fn end_ns(self) -> i64;

    spec fn owner(self) -> u64;

    spec fn kind(self) -> u8;

    /// Instant, security and kind.
    fn sort_parts(&self) -> (res: (i64, u64, u8))
        ensures
            res == (self.end_ns(), self.owner(), self.kind()),
    ;
}

impl Sortable for TradeBar {
    open spec fn end_ns(self) -> i64 {
        self.end_time.ns
    }

    open spec fn owner(self) -> u64 {
        self.symbol.sid
    }

    open spec fn kind(self) -> u8 {
        0
    }

    fn sort_parts(&self) -> (res: (i64, u64, u8)) {
        (self.end_time.ns, self.symbol.sid, 0)
    }
}

impl Sortable for QuoteBar {
    open spec fn end_ns(self) -> i64 {
        self.end_time.ns
    }

    open spec fn owner(self) -> u64 {
        self.symbol.sid
    }

    open spec fn kind(self) -> u8 {
        0
    }

    fn sort_parts(&self) -> (res: (i64, u64, u8)) {
        (self.end_time.ns, self.symbol.sid, 0)
    }
}

/// Order of the kinds of tick.
pub open spec fn tick_kind(tick_type: TickType) -> u8 {
    match tick_type {
        TickType::Trade => 0,
        TickType::Quote => 1,
        TickType::OpenInterest => 2,
    }
}

impl Sortable for Tick {
    open spec fn end_ns(self) -> i64 {
        self.time.ns
    }

    open spec fn owner(self) -> u64 {
        self.symbol.sid
    }

    open spec fn kind(self) -> u8 {
        tick_kind(self.tick_type)
    }

    fn sort_parts(&self) -> (res: (i64, u64, u8)) {
        let kind: u8 = match self.tick_type {
            TickType::Trade => 0,
            TickType::Quote => 1,
            TickType::OpenInterest => 2,
        };
        (self.time.ns, self.symbol.sid, kind)
    }
}

impl Sortable for CustomDataPoint {
    open spec fn end_ns(self) -> i64 {
        match self.end_time {
            Some(time) => time.ns,
            None => 0,
        }
    }

    open spec fn owner(self) -> u64 {
        0
    }

    open spec fn kind(self) -> u8 {
        0
    }

    fn sort_parts(&self) -> (res: (i64, u64, u8)) {
        match self.end_time {
            Some(time) => (time.ns, 0, 0),
            None => (0, 0, 0),
        }
    }
}

/// Whether one row comes strictly before another.
pub open spec fn precedes<T: Sortable>(a: T, b: T, by: SortBy) -> bool {
    ||| a.end_ns() < b.end_ns()
    ||| by == SortBy::EndAndSecurity && a.end_ns() == b.end_ns() && (a.owner() < b.owner() || (
    a.owner() == b.owner() && a.kind() < b.kind()))
}

fn comes_before<T: Sortable>(a: &T, b: &T, by: SortBy) -> (res: bool)
    ensures
        res == precedes(*a, *b, by),
{
    let (at, ao, ak) = a.sort_parts();
    let (bt, bo, bk) = b.sort_parts();
    at < bt || (by == SortBy::EndAndSecurity && at == bt && (ao < bo || (ao == bo && ak < bk)))
}

/// Ordered rows with one more, put after all that it does not precede.
pub open spec fn with_sorted<T: Sortable>(rows: Seq<T>, new: T, by: SortBy) -> Seq<T>
    decreases rows.len(),
{
    if rows.len() > 0 && precedes(new, rows.last(), by) {
        with_sorted(rows.drop_last(), new, by).push(rows.last())
    } else {
        rows.push(new)
    }
}

/// The rows in order; equal ones keep their order.
pub open spec fn sorted<T: Sortable>(rows: Seq<T>, by: SortBy) -> Seq<T>
    decreases rows.len(),
{
    if rows.len() == 0 {
        Seq::empty()
    } else {
        with_sorted(sorted(rows.drop_last(), by), rows.last(), by)
    }
}

/// Whether no row precedes one before it.
pub open spec fn is_sorted<T: Sortable>(rows: Seq<T>, by: SortBy) -> bool {
    forall|i: int, j: int|
        0 <= i < j < rows.len() ==> !precedes(#[trigger] rows[j], #[trigger] rows[i], by)
}

proof fn lemma_with_sorted_at<T: Sortable>(rows: Seq<T>, new: T, by: SortBy, i: int)
    requires
        0 <= i <= rows.len(),
        i == 0 || !precedes(new, rows[i - 1], by),
        forall|j: int| i <= j < rows.len() ==> precedes(new, #[trigger] rows[j], by),
    ensures
        with_sorted(rows, new, by) == rows.insert(i, new),
    decreases rows.len() - i,
{
    if i == rows.len() {
        assert(rows.insert(i, new) =~= rows.push(new));
    } else {
        let head = rows.drop_last();
        assert(precedes(new, rows[rows.len() - 1], by));
        assert forall|j: int| i <= j < head.len() implies precedes(new, #[trigger] head[j], by) by {
            assert(rows[j] == head[j]);
        }
        lemma_with_sorted_at(head, new, by, i);
        assert(rows.insert(i, new) =~= head.insert(i, new).push(rows.last()));
    }
}

proof fn lemma_with_sorted<T: Sortable>(rows: Seq<T>, new: T, by: SortBy)
    requires
        is_sorted(rows, by),
    ensures
        is_sorted(with_sorted(rows, new, by), by),
        with_sorted(rows, new, by).to_multiset() == rows.to_multiset().insert(new),
        with_sorted(rows, new, by).len() == rows.len() + 1,
        forall|i: int|
            0 <= i < with_sorted(rows, new, by).len() ==> (#[trigger] with_sorted(
                rows,
                new,
                by,
            )[i]) == new || rows.contains(with_sorted(rows, new, by)[i]),
    decreases rows.len(),
{
    broadcast use vstd::seq_lib::group_to_multiset_ensures;

    let out = with_sorted(rows, new, by);
    if rows.len() > 0 && precedes(new, rows.last(), by) {
        let head = rows.drop_last();
        let last = rows.last();
        assert(is_sorted(head, by)) by {
            assert forall|i: int, j: int| 0 <= i < j < head.len() implies !precedes(
                #[trigger] head[j],
                #[trigger] head[i],
                by,
            ) by {
                assert(rows[i] == head[i] && rows[j] == head[j]);
            }
        }
        lemma_with_sorted(head, new, by);
        let mid = with_sorted(head, new, by);
        assert(rows =~= head.push(last));
        assert(out.to_multiset() =~= rows.to_multiset().insert(new));
        assert forall|i: int| 0 <= i < out.len() implies (#[trigger] out[i]) == new
            || rows.contains(out[i]) by {
            if i < mid.len() {
                assert(mid[i] == out[i]);
                if mid[i] != new {
                    let k = choose|k: int| 0 <= k < head.len() && head[k] == mid[i];
                    assert(rows[k] == mid[i]);
                }
            } else {
                assert(rows[rows.len() - 1] == out[i]);
            }
        }
        assert forall|i: int, j: int| 0 <= i < j < out.len() implies !precedes(
            #[trigger] out[j],
            #[trigger] out[i],
            by,
        ) by {
            assert(mid[i] == out[i]);
            if j < mid.len() {
                assert(mid[j] == out[j]);
            } else if mid[i] != new {
                let k = choose|k: int| 0 <= k < head.len() && head[k] == mid[i];
                assert(rows[k] == mid[i]);
                assert(rows[rows.len() - 1] == last);
            }
        }
    } else {
        assert forall|i: int| 0 <= i < out.len() implies (#[trigger] out[i]) == new
            || rows.contains(out[i]) by {
            if i < rows.len() {
                assert(rows[i] == out[i]);
            }
        }
        assert forall|i: int, j: int| 0 <= i < j < out.len() implies !precedes(
            #[trigger] out[j],
            #[trigger] out[i],
            by,
        ) by {
            assert(rows[i] == out[i]);
            if j < rows.len() {
                assert(rows[j] == out[j]);
            } else {
                assert(!precedes(new, rows.last(), by));
                if i < rows.len() - 1 {
                    assert(!precedes(rows[rows.len() - 1], rows[i], by));
                }
            }
        }
    }
}

/// Sorting puts the rows in order and loses none.
pub proof fn law_sorted_is_ordered<T: Sortable>(rows: Seq<T>, by: SortBy)
    ensures
        is_sorted(sorted(rows, by), by),
        sorted(rows, by).to_multiset() == rows.to_multiset(),
        sorted(rows, by).len() == rows.len(),
    decreases rows.len(),
{
    broadcast use vstd::seq_lib::group_to_multiset_ensures;

    if rows.len() > 0 {
        let head = rows.drop_last();
        law_sorted_is_ordered(head, by);
        lemma_with_sorted(sorted(head, by), rows.last(), by);
        assert(rows =~= head.push(rows.last()));
    } else {
        assert(sorted(rows, by) =~= rows);
    }
}

/// Sorts rows; equal ones keep their order.
pub fn sort_rows<T: Sortable>(rows: Vec<T>, by: SortBy) -> (res: Vec<T>)
    ensures
        res@ == sorted(rows@, by),
        res@.len() == rows@.len(),
{
    let mut out: Vec<T> = Vec::new();
    let ghost all = rows@;
    for row in it: rows
        invariant
            it.seq() == all,
            out@ == sorted(all.take(it.index() as int), by),
            out@.len() == it.index(),
    {
        let ghost before = out@;
        proof {
            assert(all.take(it.index() + 1).drop_last() =~= all.take(it.index() as int));
            assert(all.take(it.index() + 1).last() == row);
        }
        let mut i: usize = out.len();
        while i > 0 && comes_before(&row, &out[i - 1], by)
            invariant
                out@ == before,
                i <= out@.len(),
                forall|j: int| i <= j < out@.len() ==> precedes(row, #[trigger] out@[j], by),
            decreases i,
        {
            i = i - 1;
        }
        proof {
            lemma_with_sorted_at(before, row, by, i as int);
        }
        out.insert(i, row);
    }
    assert(all.take(all.len() as int) =~= all);
    out
}

/// The last `count` rows, or all of them where there are fewer.
pub open spec fn last_rows<T>(rows: Seq<T>, count: int) -> Seq<T> {
    if rows.len() <= count {
        rows
    } else {
        rows.skip(rows.len() - count)
    }
}

/// A request for the last rows gets as many as it asks for, or all where there
/// are fewer: in order, and none that was left out comes after one of them.
pub proof fn law_last_rows_are_the_latest<T: Sortable>(rows: Seq<T>, by: SortBy, count: int)
    requires
        0 <= count,
    ensures
        ({
            let all = sorted(rows, by);
            let last = last_rows(all, count);
            &&& last.len() == (if rows.len() < count {
                rows.len() as int
            } else {
                count
            })
            &&& is_sorted(last, by)
            &&& last == all.skip(all.len() - last.len())
            &&& forall|i: int, j: int|
                0 <= i < all.len() - last.len() && 0 <= j < last.len() ==> !precedes(
                    #[trigger] last[j],
                    #[trigger] all[i],
                    by,
                )
        }),
{
    law_sorted_is_ordered(rows, by);
    let all = sorted(rows, by);
    let last = last_rows(all, count);
    let dropped = all.len() - last.len();
    assert(last =~= all.skip(dropped));
    assert forall|j: int| 0 <= j < last.len() implies #[trigger] last[j] == all[j + dropped] by {}
}

/// The last of some sorted rows are among the rows.
pub proof fn lemma_last_sorted_row<T: Sortable>(rows: Seq<T>, by: SortBy, count: int, i: int)
    requires
        0 <= count,
        0 <= i < last_rows(sorted(rows, by), count).len(),
    ensures
        rows.contains(last_rows(sorted(rows, by), count)[i]),
{
    broadcast use vstd::seq_lib::group_to_multiset_ensures;

    law_sorted_is_ordered(rows, by);
    let all = sorted(rows, by);
    let row = last_rows(all, count)[i];
    let k = if all.len() <= count {
        i
    } else {
        i + all.len() - count
    };
    assert(all[k] == row);
    assert(all.contains(row));
    assert(rows.to_multiset().count(row) > 0);
}

pub fn take_last<T>(rows: Vec<T>, count: usize) -> (res: Vec<T>)
    ensures
        res@ == last_rows(rows@, count as int),
{
    let mut rows = rows;
    if rows.len() <= count {
        return rows;
    }
    let from: usize = rows.len() - count;
    let ghost all = rows@;
    let res = rows.split_off(from);
    assert(res@ =~= all.skip(from as int));
    res
}

/// Bars and ticks are sorted by the instants at which they are over: no bar comes before
/// one that ends earlier, and no tick before one that happened earlier. Where the
/// security counts too, rows of one instant come by security, and ticks of one security
/// trades first.
pub proof fn law_rows_are_sorted_in_time(
    bars: Seq<TradeBar>,
    quotes: Seq<QuoteBar>,
    ticks: Seq<Tick>,
    points: Seq<CustomDataPoint>,
    by: SortBy,
    i: int,
    j: int,
)
    requires
        0 <= i < j,
    ensures
        j < bars.len() ==> sorted(bars, by)[i].end_time.ns <= sorted(bars, by)[j].end_time.ns,
        j < bars.len() && by == SortBy::EndAndSecurity && sorted(bars, by)[i].end_time == sorted(
            bars,
            by,
        )[j].end_time ==> sorted(bars, by)[i].symbol.sid <= sorted(bars, by)[j].symbol.sid,
        j < quotes.len() ==> sorted(quotes, by)[i].end_time.ns <= sorted(quotes, by)[j].end_time.ns,
        j < quotes.len() && by == SortBy::EndAndSecurity && sorted(quotes, by)[i].end_time
            == sorted(quotes, by)[j].end_time ==> sorted(quotes, by)[i].symbol.sid <= sorted(
            quotes,
            by,
        )[j].symbol.sid,
        j < ticks.len() ==> sorted(ticks, by)[i].time.ns <= sorted(ticks, by)[j].time.ns,
        j < ticks.len() && by == SortBy::EndAndSecurity && sorted(ticks, by)[i].time == sorted(
            ticks,
            by,
        )[j].time ==> {
            let a = sorted(ticks, by)[i];
            let b = sorted(ticks, by)[j];
            &&& a.symbol.sid <= b.symbol.sid
            &&& a.symbol.sid == b.symbol.sid && b.tick_type == TickType::Trade ==> a.tick_type
                == TickType::Trade
            &&& a.symbol.sid == b.symbol.sid && a.tick_type == TickType::OpenInterest
                ==> b.tick_type == TickType::OpenInterest
        },
        j < points.len() ==> {
            let a = sorted(points, by)[i];
            let b = sorted(points, by)[j];
            a.end_time matches Some(x) ==> (b.end_time matches Some(y) ==> x.ns <= y.ns)
        },
{
    law_sorted_is_ordered(bars, by);
    law_sorted_is_ordered(quotes, by);
    law_sorted_is_ordered(ticks, by);
    law_sorted_is_ordered(points, by);
    if j < bars.len() {
        assert(!precedes(sorted(bars, by)[j], sorted(bars, by)[i], by));
    }
    if j < quotes.len() {
        assert(!precedes(sorted(quotes, by)[j], sorted(quotes, by)[i], by));
    }
    if j < ticks.len() {
        assert(!precedes(sorted(ticks, by)[j], sorted(ticks, by)[i], by));
    }
    if j < points.len() {
        assert(!precedes(sorted(points, by)[j], sorted(points, by)[i], by));
    }
}

/// Rows that are equal in the order keep theirs: one more row is put in behind every row
/// that it does not precede and in front of those that it does, and no other row moves.
pub proof fn law_equal_rows_keep_their_order<T: Sortable>(rows: Seq<T>, new: T, by: SortBy)
    ensures
        exists|i: int|
            0 <= i <= rows.len() && sorted(rows.push(new), by) == #[trigger] sorted(rows, by).insert(
                i,
                new,
            ) && (forall|j: int|
                0 <= j < i ==> !precedes(new, #[trigger] sorted(rows, by)[j], by)) && (forall|j: int|
                i <= j < rows.len() ==> precedes(new, #[trigger] sorted(rows, by)[j], by)),
{
    law_sorted_is_ordered(rows, by);
    assert(rows.push(new).drop_last() =~= rows);
    let s = sorted(rows, by);
    let i = lemma_place_of(s, new, by);
    lemma_with_sorted_at(s, new, by, i);
    assert(sorted(rows.push(new), by) == s.insert(i, new));
}

/// The place of a row among sorted ones.
proof fn lemma_place_of<T: Sortable>(rows: Seq<T>, new: T, by: SortBy) -> (i: int)
    requires
        is_sorted(rows, by),
    ensures
        0 <= i <= rows.len(),
        forall|j: int| 0 <= j < i ==> !precedes(new, #[trigger] rows[j], by),
        forall|j: int| i <= j < rows.len() ==> precedes(new, #[trigger] rows[j], by),
    decreases rows.len(),
{
    if rows.len() > 0 && precedes(new, rows.last(), by) {
        let head = rows.drop_last();
        assert(is_sorted(head, by)) by {
            assert forall|a: int, b: int| 0 <= a < b < head.len() implies !precedes(
                #[trigger] head[b],
                #[trigger] head[a],
                by,
            ) by {
                assert(!precedes(rows[b], rows[a], by));
            }
        }
        let i = lemma_place_of(head, new, by);
        assert forall|j: int| i <= j < rows.len() implies precedes(new, #[trigger] rows[j], by) by {
            if j < head.len() {
                assert(head[j] == rows[j]);
            }
        }
        assert forall|j: int| 0 <= j < i implies !precedes(new, #[trigger] rows[j], by) by {
            assert(head[j] == rows[j]);
        }
        i
    } else {
        assert forall|j: int| 0 <= j < rows.len() implies !precedes(
            new,
            #[trigger] rows[j],
            by,
        ) by {
            if j < rows.len() - 1 {
                assert(!precedes(rows[rows.len() - 1], rows[j], by));
            }
        }
        rows.len() as int
    }
}

} // verus!
