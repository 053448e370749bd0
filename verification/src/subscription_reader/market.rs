//! Market data of a subscription: which rows belong to a window and which points
//! they become.

use crate::model::{QuoteBar, Resolution, SecurityType, SubscriptionDataConfig, Tick, TradeBar};
use crate::normalization::{
    is_factor_row, law_mode_decides_the_adjustment, law_quotes_are_scaled_side_by_side,
    normalize_quote_bar, normalize_trade_bar, normalized_quote_bar, normalized_trade_bar,
    quote_bar_scalable, scale_frontier, trade_bar_scalable,
};
use crate::subscription_data::SubscriptionDataPoint;
use crate::subscription_reader::coverage::{
    daily_row_coverage_date, equity_daily_frontier, is_midnight_daily_bar,
    is_session_close_daily_bar, is_source_dated_daily_bar, market_partition_time, midnight_bar,
    partition_time, session_close_bar, source_dated_bar, EQUITY_CLOSE_NS,
};
use crate::subscription_reader::ordering::{
    all_wf, in_order, lemma_sorted_points, sort_points, sorted_points,
};
use crate::subscription_reader::producer::{is_daily_equity, SubscriptionProducerState};
use crate::subscription_reader::window::{in_window, timestamp_belongs_to_window};
use crate::time::{clock_ns, Date, DateTime};
use vstd::prelude::*;

verus! {

/// Time span of a daily equity bar once it ends at the close of its session.
/// A bar dated by its source ends at 16:00 of the date on which it starts; other
/// bars, and bars within one day, keep their span.
pub open spec fn session_span(
    config: SubscriptionDataConfig,
    time: DateTime,
    end_time: DateTime,
    period: i64,
) -> (DateTime, DateTime) {
    let close = DateTime { ns: clock_ns(time.day(), 57_600) as i64 };
    if !is_daily_equity(config) {
        (time, end_time)
    } else if midnight_bar(time, end_time) {
        (DateTime { ns: (close.ns - period) as i64 }, close)
    } else if source_dated_bar(time, end_time) {
        (close, close)
    } else {
        (time, end_time)
    }
}

/// Whether the span can be moved to the close within the range of timestamps.
pub open spec fn span_movable(config: SubscriptionDataConfig, time: DateTime, period: i64) -> bool {
    is_daily_equity(config) ==> time.date().on_clock() && i64::MIN <= clock_ns(time.day(), 57_600)
        - period <= i64::MAX
}

/// A trade bar that was moved to its session and scaled.
pub struct PreparedTradeBar {
    /// Whether it displaces bars of its instant that are not preferred.
    pub preferred: bool,
    pub bar: TradeBar,
}

/// Rows offered for one security and instant, each with whether it is preferred
/// over rows that are not.
pub open spec fn with_daily(
    rows: Seq<(bool, SubscriptionDataPoint)>,
    new: (bool, SubscriptionDataPoint),
) -> Seq<(bool, SubscriptionDataPoint)>
    decreases rows.len(),
{
    if rows.len() == 0 || rows.last().1.frontier().ns < new.1.frontier().ns {
        rows.push(new)
    } else if rows.last().1.frontier().ns > new.1.frontier().ns {
        with_daily(rows.drop_last(), new).push(rows.last())
    } else if rows.last().0 && !new.0 {
        rows
    } else {
        rows.drop_last().push(new)
    }
}

/// One row per instant, in order: the last preferred one, or the last one where
/// none is preferred.
pub open spec fn one_per_instant(rows: Seq<(bool, SubscriptionDataPoint)>) -> Seq<
    (bool, SubscriptionDataPoint),
>
    decreases rows.len(),
{
    if rows.len() == 0 {
        Seq::empty()
    } else {
        with_daily(one_per_instant(rows.drop_last()), rows.last())
    }
}

pub open spec fn points_of(rows: Seq<(bool, SubscriptionDataPoint)>) -> Seq<SubscriptionDataPoint> {
    rows.map_values(|row: (bool, SubscriptionDataPoint)| row.1)
}

pub open spec fn rows_wf(rows: Seq<(bool, SubscriptionDataPoint)>) -> bool {
    forall|i: int| 0 <= i < rows.len() ==> (#[trigger] rows[i]).1.wf()
}

/// Rows of strictly increasing instants.
pub open spec fn strictly_ordered(rows: Seq<(bool, SubscriptionDataPoint)>) -> bool {
    forall|i: int, j: int|
        0 <= i < j < rows.len() ==> (#[trigger] rows[i]).1.frontier().ns < (
        #[trigger] rows[j]).1.frontier().ns
}

/// Whether row `k` is the one kept for its instant: no other row of the instant
/// is preferred over it, and among its equals it is the last.
pub open spec fn kept_for_instant(rows: Seq<(bool, SubscriptionDataPoint)>, k: int) -> bool {
    &&& 0 <= k < rows.len()
    &&& forall|j: int|
        0 <= j < rows.len() && j != k && (#[trigger] rows[j]).1.frontier() == rows[k].1.frontier()
            ==> (rows[k].0 && !rows[j].0) || (rows[k].0 == rows[j].0 && j < k)
}

proof fn lemma_with_daily(
    rows: Seq<(bool, SubscriptionDataPoint)>,
    new: (bool, SubscriptionDataPoint),
)
    requires
        strictly_ordered(rows),
    ensures
        ({
            let out = with_daily(rows, new);
            &&& strictly_ordered(out)
            &&& rows_wf(rows) && new.1.wf() ==> rows_wf(out)
            // every row of another instant stays, and nothing else comes in
            &&& forall|i: int|
                0 <= i < rows.len() && (#[trigger] rows[i]).1.frontier() != new.1.frontier()
                    ==> out.contains(rows[i])
            &&& forall|i: int|
                0 <= i < out.len() ==> (#[trigger] out[i]) == new || rows.contains(out[i])
            // the instant of the new row has exactly one row
            &&& exists|i: int|
                0 <= i < out.len() && (#[trigger] out[i]).1.frontier() == new.1.frontier() && (
                out[i] == new || (rows.contains(out[i]) && out[i].0 && !new.0))
            &&& forall|i: int|
                0 <= i < rows.len() && (#[trigger] rows[i]).1.frontier() == new.1.frontier()
                    && rows[i].0 && !new.0 ==> out.contains(rows[i])
            &&& forall|i: int|
                0 <= i < out.len() && (#[trigger] out[i]).1.frontier() == new.1.frontier()
                    && out[i] != new ==> out[i].0 && !new.0
            &&& forall|i: int|
                0 <= i < out.len() ==> (#[trigger] out[i]).1.frontier().ns <= new.1.frontier().ns
                    || (rows.len() > 0 && out[i].1.frontier().ns <= rows.last().1.frontier().ns)
        }),
    decreases rows.len(),
{
    let out = with_daily(rows, new);
    if rows.len() == 0 || rows.last().1.frontier().ns < new.1.frontier().ns {
        assert(out[rows.len() as int] == new);
        assert forall|i: int| 0 <= i < rows.len() implies #[trigger] rows[i].1.frontier().ns
            < new.1.frontier().ns && out.contains(rows[i]) by {
            assert(out[i] == rows[i]);
            if i < rows.len() - 1 {
                assert(rows[i].1.frontier().ns < rows[rows.len() - 1].1.frontier().ns);
            }
        }
    } else {
        let head = rows.drop_last();
        let last = rows.last();
        assert(rows[rows.len() - 1] == last);
        assert(strictly_ordered(head)) by {
            assert forall|i: int, j: int| 0 <= i < j < head.len() implies (
            #[trigger] head[i]).1.frontier().ns < (#[trigger] head[j]).1.frontier().ns by {
                assert(rows[i] == head[i] && rows[j] == head[j]);
            }
        }
        assert forall|i: int| 0 <= i < head.len() implies (#[trigger] head[i]).1.frontier().ns
            < last.1.frontier().ns by {
            assert(rows[i] == head[i]);
        }
        if last.1.frontier().ns > new.1.frontier().ns {
            lemma_with_daily(head, new);
            let mid = with_daily(head, new);
            assert(out == mid.push(last));
            assert(out[mid.len() as int] == last);
            assert forall|i: int| 0 <= i < mid.len() implies (#[trigger] mid[i]).1.frontier().ns
                < last.1.frontier().ns by {
                if head.len() > 0 {
                    assert(head[head.len() - 1] == head.last());
                }
            }
            assert forall|i: int, j: int| 0 <= i < j < out.len() implies (
            #[trigger] out[i]).1.frontier().ns < (#[trigger] out[j]).1.frontier().ns by {
                if j < mid.len() {
                    assert(mid[i] == out[i] && mid[j] == out[j]);
                } else {
                    assert(mid[i] == out[i]);
                }
            }
            assert forall|x: (bool, SubscriptionDataPoint)| mid.contains(x) implies out.contains(
                x,
            ) by {
                let k = choose|k: int| 0 <= k < mid.len() && mid[k] == x;
                assert(out[k] == x);
            }
            assert forall|x: (bool, SubscriptionDataPoint)| head.contains(x) implies rows.contains(
                x,
            ) by {
                let k = choose|k: int| 0 <= k < head.len() && head[k] == x;
                assert(rows[k] == x);
            }
            assert forall|i: int|
                0 <= i < rows.len() && (#[trigger] rows[i]).1.frontier()
                    != new.1.frontier() implies out.contains(rows[i]) by {
                if i < head.len() {
                    assert(head[i] == rows[i]);
                }
            }
            assert forall|i: int|
                0 <= i < rows.len() && (#[trigger] rows[i]).1.frontier() == new.1.frontier()
                    && rows[i].0 && !new.0 implies out.contains(rows[i]) by {
                if i < head.len() {
                    assert(head[i] == rows[i]);
                }
            }
            assert forall|i: int| 0 <= i < out.len() implies (#[trigger] out[i]) == new
                || rows.contains(out[i]) by {
                if i < mid.len() {
                    assert(mid[i] == out[i]);
                }
            }
            let w = choose|i: int|
                0 <= i < mid.len() && (#[trigger] mid[i]).1.frontier() == new.1.frontier() && (
                mid[i] == new || (head.contains(mid[i]) && mid[i].0 && !new.0));
            assert(out[w] == mid[w]);
            assert forall|i: int|
                0 <= i < out.len() && (#[trigger] out[i]).1.frontier() == new.1.frontier()
                    && out[i] != new implies out[i].0 && !new.0 by {
                if i < mid.len() {
                    assert(mid[i] == out[i]);
                }
            }
            if rows_wf(rows) && new.1.wf() {
                assert(rows_wf(head)) by {
                    assert forall|i: int| 0 <= i < head.len() implies (#[trigger] head[i]).1.wf() by {
                        assert(rows[i] == head[i]);
                    }
                }
                assert forall|i: int| 0 <= i < out.len() implies (#[trigger] out[i]).1.wf() by {
                    if i < mid.len() {
                        assert(mid[i] == out[i]);
                    }
                }
            }
        } else if last.0 && !new.0 {
            assert(out[rows.len() - 1] == last);
            assert(rows.contains(last));
        } else {
            assert(out[head.len() as int] == new);
            assert forall|i: int| 0 <= i < head.len() implies #[trigger] out[i] == rows[i] by {}
            assert forall|i: int|
                0 <= i < rows.len() && (#[trigger] rows[i]).1.frontier()
                    != new.1.frontier() implies out.contains(rows[i]) by {
                assert(i < head.len());
                assert(out[i] == rows[i]);
            }
            assert forall|i: int| 0 <= i < out.len() implies (#[trigger] out[i]) == new
                || rows.contains(out[i]) by {
                if i < head.len() {
                    assert(rows[i] == out[i]);
                }
            }
            assert forall|i: int, j: int| 0 <= i < j < out.len() implies (
            #[trigger] out[i]).1.frontier().ns < (#[trigger] out[j]).1.frontier().ns by {
                assert(head[i] == out[i]);
                if j < head.len() {
                    assert(head[j] == out[j]);
                }
            }
            assert forall|i: int|
                0 <= i < rows.len() && (#[trigger] rows[i]).1.frontier() == new.1.frontier()
                    && rows[i].0 && !new.0 implies out.contains(rows[i]) by {
                if i < head.len() {
                    assert(head[i] == rows[i]);
                }
            }
        }
    }
}

/// The rows kept are in order and one per instant: those that no other row of
/// their instant displaces, and only those.
pub proof fn law_one_row_per_instant(rows: Seq<(bool, SubscriptionDataPoint)>)
    ensures
        strictly_ordered(one_per_instant(rows)),
        rows_wf(rows) ==> rows_wf(one_per_instant(rows)),
        forall|i: int|
            0 <= i < one_per_instant(rows).len() ==> exists|k: int|
                kept_for_instant(rows, k) && #[trigger] rows[k] == #[trigger] one_per_instant(
                    rows,
                )[i],
        forall|k: int|
            kept_for_instant(rows, k) ==> one_per_instant(rows).contains(#[trigger] rows[k]),
    decreases rows.len(),
{
    let out = one_per_instant(rows);
    if rows.len() > 0 {
        let head = rows.drop_last();
        let new = rows.last();
        let n = head.len() as int;
        let before = one_per_instant(head);
        law_one_row_per_instant(head);
        lemma_with_daily(before, new);
        assert(rows[n] == new);
        assert forall|i: int| 0 <= i < head.len() implies #[trigger] head[i] == rows[i] by {}
        if rows_wf(rows) {
            assert(rows_wf(head)) by {
                assert forall|i: int| 0 <= i < head.len() implies (#[trigger] head[i]).1.wf() by {
                    assert(rows[i].1.wf());
                }
            }
        }
        assert forall|i: int| 0 <= i < out.len() implies exists|k: int|
            kept_for_instant(rows, k) && #[trigger] rows[k] == #[trigger] out[i] by {
            if out[i] == new && !(before.contains(out[i]) && out[i].1.frontier()
                != new.1.frontier()) {
                // the new row: nothing preferred over it is there
                assert(kept_for_instant(rows, n)) by {
                    assert forall|j: int|
                        0 <= j < rows.len() && j != n && (#[trigger] rows[j]).1.frontier()
                            == rows[n].1.frontier() implies (rows[n].0 && !rows[j].0) || (rows[n].0
                        == rows[j].0 && j < n) by {
                        if rows[j].0 && !new.0 {
                            lemma_preferred_kept(head, j);
                            let m = choose|m: int|
                                0 <= m < before.len() && (#[trigger] before[m]).1.frontier()
                                    == head[j].1.frontier() && before[m].0;
                            assert(out.contains(before[m]));
                            let q = choose|q: int| 0 <= q < out.len() && out[q] == before[m];
                            assert(out[q].1.frontier() == out[i].1.frontier());
                            if q < i {
                                assert(out[q].1.frontier().ns < out[i].1.frontier().ns);
                            }
                            if i < q {
                                assert(out[i].1.frontier().ns < out[q].1.frontier().ns);
                            }
                            assert(out[q].0);
                        }
                    }
                }
            } else {
                assert(before.contains(out[i]));
                let b = choose|b: int| 0 <= b < before.len() && before[b] == out[i];
                let k = choose|k: int| kept_for_instant(head, k) && #[trigger] head[k] == before[b];
                assert(rows[k] == out[i]);
                assert(kept_for_instant(rows, k)) by {
                    assert forall|j: int|
                        0 <= j < rows.len() && j != k && (#[trigger] rows[j]).1.frontier()
                            == rows[k].1.frontier() implies (rows[k].0 && !rows[j].0) || (rows[k].0
                        == rows[j].0 && j < k) by {
                        if j < n {
                            assert(head[j] == rows[j]);
                        } else {
                            assert(out[i] != new);
                        }
                    }
                }
            }
        }
        assert forall|k: int| kept_for_instant(rows, k) implies out.contains(#[trigger] rows[k]) by {
            if k < n {
                assert(kept_for_instant(head, k)) by {
                    assert forall|j: int|
                        0 <= j < head.len() && j != k && (#[trigger] head[j]).1.frontier()
                            == head[k].1.frontier() implies (head[k].0 && !head[j].0) || (head[k].0
                        == head[j].0 && j < k) by {
                        assert(rows[j] == head[j]);
                    }
                }
                assert(before.contains(head[k]));
                let b = choose|b: int| 0 <= b < before.len() && before[b] == head[k];
                if rows[k].1.frontier() == new.1.frontier() {
                    assert(rows[n].1.frontier() == rows[k].1.frontier());
                }
            } else {
                let w = choose|w: int|
                    0 <= w < out.len() && (#[trigger] out[w]).1.frontier() == new.1.frontier() && (
                    out[w] == new || (before.contains(out[w]) && out[w].0 && !new.0));
                if out[w] != new {
                    let b = choose|b: int| 0 <= b < before.len() && before[b] == out[w];
                    let j = choose|j: int|
                        kept_for_instant(head, j) && #[trigger] head[j] == before[b];
                    assert(rows[j].1.frontier() == rows[n].1.frontier());
                }
            }
        }
    }
}

/// An instant with a preferred row keeps a preferred row.
proof fn lemma_preferred_kept(rows: Seq<(bool, SubscriptionDataPoint)>, j: int)
    requires
        0 <= j < rows.len(),
        rows[j].0,
    ensures
        exists|m: int|
            0 <= m < one_per_instant(rows).len() && (#[trigger] one_per_instant(
                rows,
            )[m]).1.frontier() == rows[j].1.frontier() && one_per_instant(rows)[m].0,
    decreases rows.len(),
{
    let head = rows.drop_last();
    let new = rows.last();
    let before = one_per_instant(head);
    let out = one_per_instant(rows);
    law_one_row_per_instant(head);
    lemma_with_daily(before, new);
    if j == rows.len() - 1 {
        let w = choose|w: int|
            0 <= w < out.len() && (#[trigger] out[w]).1.frontier() == new.1.frontier() && (out[w]
                == new || (before.contains(out[w]) && out[w].0 && !new.0));
        assert(out[w].0);
    } else {
        assert(head[j] == rows[j]);
        lemma_preferred_kept(head, j);
        let m = choose|m: int|
            0 <= m < before.len() && (#[trigger] before[m]).1.frontier() == head[j].1.frontier()
                && before[m].0;
        if new.1.frontier() == before[m].1.frontier() && new.0 {
            let w = choose|w: int|
                0 <= w < out.len() && (#[trigger] out[w]).1.frontier() == new.1.frontier() && (
                out[w] == new || (before.contains(out[w]) && out[w].0 && !new.0));
            assert(out[w].0);
        } else {
            assert(out.contains(before[m]));
            let q = choose|q: int| 0 <= q < out.len() && out[q] == before[m];
            assert(out[q].0);
        }
    }
}

/// Offers a row for its instant.
fn insert_daily(
    rows: &mut Vec<(bool, SubscriptionDataPoint)>,
    prefer: bool,
    point: SubscriptionDataPoint,
)
    requires
        rows_wf(old(rows)@),
        point.wf(),
    ensures
        final(rows)@ == with_daily(old(rows)@, (prefer, point)),
{
    let frontier = point.frontier_time();
    let ghost before = rows@;
    let ghost new = (prefer, point);
    let mut i: usize = rows.len();
    assert(before.take(i as int) =~= before);
    assert(before.skip(i as int) =~= Seq::<(bool, SubscriptionDataPoint)>::empty());
    assert(with_daily(before, new) =~= with_daily(before.take(i as int), new) + before.skip(
        i as int,
    ));
    while i > 0 && rows[i - 1].1.frontier_time().ns > frontier.ns
        invariant
            rows@ == before,
            i <= rows@.len(),
            rows_wf(before),
            new == (prefer, point),
            frontier == point.frontier(),
            with_daily(before, new) == with_daily(before.take(i as int), new) + before.skip(
                i as int,
            ),
        decreases i,
    {
        proof {
            let head = before.take(i as int);
            assert(head.drop_last() =~= before.take(i - 1));
            assert(head.last() == before[i - 1]);
            assert(with_daily(head, new) == with_daily(before.take(i - 1), new).push(
                before[i - 1],
            ));
            assert(with_daily(before.take(i - 1), new).push(before[i - 1]) + before.skip(i as int)
                =~= with_daily(before.take(i - 1), new) + before.skip(i - 1));
        }
        i = i - 1;
    }
    if i > 0 && rows[i - 1].1.frontier_time().ns == frontier.ns {
        assert(before.take(i as int).last() == before[i - 1]);
        if rows[i - 1].0 && !prefer {
            assert(before.take(i as int) + before.skip(i as int) =~= before);
            return ;
        }
        assert(before.take(i as int).drop_last().push(new) + before.skip(i as int)
            =~= before.update(i - 1, new));
        rows.set(i - 1, (prefer, point));
    } else {
        if i > 0 {
            assert(before.take(i as int).last() == before[i - 1]);
        }
        assert(before.take(i as int).push(new) + before.skip(i as int) =~= before.insert(
            i as int,
            new,
        ));
        rows.insert(i, (prefer, point));
    }
}

/// Drops the preferences.
fn into_points(rows: Vec<(bool, SubscriptionDataPoint)>) -> (res: Vec<SubscriptionDataPoint>)
    ensures
        res@ == points_of(rows@),
{
    let mut out: Vec<SubscriptionDataPoint> = Vec::new();
    let ghost all = rows@;
    for row in it: rows
        invariant
            it.seq() == all,
            out@ =~= points_of(all.take(it.index() as int)),
    {
        assert(all.take(it.index() + 1).drop_last() =~= all.take(it.index() as int));
        out.push(row.1);
    }
    assert(all.take(all.len() as int) =~= all);
    out
}


impl SubscriptionProducerState {
    /// Whether a row of the subscribed security belongs to a window: daily rows
    /// by their start or by the date on which they end, other rows by the
    /// instant that places them in a partition.
    pub open spec fn row_in_window(
        &self,
        sid: u64,
        time: DateTime,
        end_time: DateTime,
        window_start: Date,
        window_end: Date,
    ) -> bool {
        &&& sid == self.config.symbol.sid
        &&& if self.config.resolution == Resolution::Daily {
            in_window(time.ns as int, window_start, window_end) || window_start.days
                <= end_time.day() <= window_end.days
        } else {
            in_window(partition_time(time, end_time).ns as int, window_start, window_end)
        }
    }

    fn span_belongs_to_window(
        &self,
        sid: u64,
        time: DateTime,
        end_time: DateTime,
        window_start: Date,
        window_end: Date,
    ) -> (res: bool)
        requires
            window_start.on_clock(),
            window_end.on_clock(),
        ensures
            res == self.row_in_window(sid, time, end_time, window_start, window_end),
    {
        if sid != self.config.symbol.sid {
            return false;
        }
        if self.config.resolution == Resolution::Daily {
            timestamp_belongs_to_window(time, window_start, window_end)
                || self.daily_row_covers_window(time, end_time, window_start, window_end)
        } else {
            timestamp_belongs_to_window(
                market_partition_time(time, end_time),
                window_start,
                window_end,
            )
        }
    }

    /// Whether the date on which a daily row ends lies in a window.
    pub fn daily_row_covers_window(
        &self,
        time: DateTime,
        end_time: DateTime,
        window_start: Date,
        window_end: Date,
    ) -> (res: bool)
        ensures
            res == (window_start.days <= end_time.day() <= window_end.days),
    {
        let coverage_date = if time.date_utc().days != end_time.date_utc().days || (
        time.nanos_of_day() == 0 && end_time.nanos_of_day() == EQUITY_CLOSE_NS) {
            end_time.date_utc()
        } else {
            daily_row_coverage_date(&self.exchange_hours, time, end_time)
        };
        coverage_date.days >= window_start.days && coverage_date.days <= window_end.days
    }

    pub fn trade_bar_belongs_to_window(&self, row: &TradeBar, window_start: Date, window_end: Date) -> (res:
        bool)
        requires
            window_start.on_clock(),
            window_end.on_clock(),
        ensures
            res == self.row_in_window(
                row.symbol.sid,
                row.time,
                row.end_time,
                window_start,
                window_end,
            ),
    {
        self.span_belongs_to_window(row.symbol.sid, row.time, row.end_time, window_start, window_end)
    }

    pub fn quote_bar_belongs_to_window(&self, row: &QuoteBar, window_start: Date, window_end: Date) -> (res:
        bool)
        requires
            window_start.on_clock(),
            window_end.on_clock(),
        ensures
            res == self.row_in_window(
                row.symbol.sid,
                row.time,
                row.end_time,
                window_start,
                window_end,
            ),
    {
        self.span_belongs_to_window(row.symbol.sid, row.time, row.end_time, window_start, window_end)
    }

    /// Whether a tick of the subscribed security happened in a window.
    pub open spec fn tick_in_window(&self, tick: Tick, window_start: Date, window_end: Date) -> bool {
        tick.symbol.sid == self.config.symbol.sid && in_window(
            tick.time.ns as int,
            window_start,
            window_end,
        )
    }

    pub fn tick_belongs_to_window(&self, row: &Tick, window_start: Date, window_end: Date) -> (res:
        bool)
        requires
            window_start.on_clock(),
            window_end.on_clock(),
        ensures
            res == self.tick_in_window(*row, window_start, window_end),
    {
        row.symbol.sid == self.config.symbol.sid && timestamp_belongs_to_window(
            row.time,
            window_start,
            window_end,
        )
    }

    fn normalized_daily_span(&self, time: DateTime, end_time: DateTime, period: i64) -> (res: (
        DateTime,
        DateTime,
    ))
        requires
            span_movable(self.config, time, period),
        ensures
            res == session_span(self.config, time, end_time, period),
    {
        if self.config.resolution != Resolution::Daily || self.config.symbol.security_type
            != SecurityType::Equity || time.date_utc().days == end_time.date_utc().days {
            return (time, end_time);
        }
        if is_midnight_daily_bar(time, end_time) {
            let close = equity_daily_frontier(time.date_utc());
            return (DateTime { ns: close.ns - period }, close);
        }
        if is_source_dated_daily_bar(time, end_time) {
            let close = equity_daily_frontier(time.date_utc());
            return (close, close);
        }
        (time, end_time)
    }

    /// Moves a daily equity bar so that it ends at the close of its session.
    pub fn normalize_daily_trade_bar_frontier(&self, row: &mut TradeBar)
        requires
            span_movable(self.config, old(row).time, old(row).period),
        ensures
            ({
                let span = session_span(
                    self.config,
                    old(row).time,
                    old(row).end_time,
                    old(row).period,
                );
                *final(row) == (TradeBar { time: span.0, end_time: span.1, ..*old(row) })
            }),
    {
        let (time, end_time) = self.normalized_daily_span(row.time, row.end_time, row.period);
        row.time = time;
        row.end_time = end_time;
    }

    /// Moves a daily equity bar so that it ends at the close of its session.
    pub fn normalize_daily_quote_bar_frontier(&self, row: &mut QuoteBar)
        requires
            span_movable(self.config, old(row).time, old(row).period),
        ensures
            ({
                let span = session_span(
                    self.config,
                    old(row).time,
                    old(row).end_time,
                    old(row).period,
                );
                *final(row) == (QuoteBar { time: span.0, end_time: span.1, ..*old(row) })
            }),
    {
        let (time, end_time) = self.normalized_daily_span(row.time, row.end_time, row.period);
        row.time = time;
        row.end_time = end_time;
    }

    /// A trade bar moved to its session and scaled; a daily bar only if it then
    /// belongs to the window.
    pub open spec fn prepared_trade(&self, bar: TradeBar, window_start: Date, window_end: Date) -> Option<
        PreparedTradeBar,
    > {
        let span = session_span(self.config, bar.time, bar.end_time, bar.period);
        let moved = TradeBar { time: span.0, end_time: span.1, ..bar };
        if self.config.resolution == Resolution::Daily && !self.row_in_window(
            moved.symbol.sid,
            moved.time,
            moved.end_time,
            window_start,
            window_end,
        ) {
            None
        } else {
            Some(
                PreparedTradeBar {
                    preferred: session_close_bar(bar.time, bar.end_time),
                    bar: normalized_trade_bar(
                        moved,
                        self.config.normalization_mode,
                        self.factor_rows@,
                    ),
                },
            )
        }
    }

    /// Trade bars moved and scaled one by one.
    pub open spec fn prepared_trades(
        &self,
        bars: Seq<TradeBar>,
        window_start: Date,
        window_end: Date,
    ) -> Seq<PreparedTradeBar>
        decreases bars.len(),
    {
        if bars.len() == 0 {
            Seq::empty()
        } else {
            let head = self.prepared_trades(bars.drop_last(), window_start, window_end);
            match self.prepared_trade(bars.last(), window_start, window_end) {
                Some(row) => head.push(row),
                None => head,
            }
        }
    }

    /// What a prepared trade bar becomes: it is kept only if it is valid and
    /// within a regular session.
    pub open spec fn trade_point(&self, row: PreparedTradeBar, valid: bool) -> Option<
        (bool, SubscriptionDataPoint),
    > {
        if valid && self.regular_bar(row.bar.end_time) {
            Some((row.preferred, SubscriptionDataPoint::TradeBar(row.bar)))
        } else {
            None
        }
    }

    /// What a stored quote bar becomes: moved to its session, kept only if a
    /// daily bar belongs to the window, and scaled.
    pub open spec fn quote_point(&self, bar: QuoteBar, window_start: Date, window_end: Date) -> Option<
        (bool, SubscriptionDataPoint),
    > {
        let span = session_span(self.config, bar.time, bar.end_time, bar.period);
        let moved = QuoteBar { time: span.0, end_time: span.1, ..bar };
        let scaled = normalized_quote_bar(moved, self.config.normalization_mode, self.factor_rows@);
        if self.config.resolution == Resolution::Daily && !self.row_in_window(
            moved.symbol.sid,
            moved.time,
            moved.end_time,
            window_start,
            window_end,
        ) {
            None
        } else {
            Some((session_close_bar(bar.time, bar.end_time), SubscriptionDataPoint::QuoteBar(scaled)))
        }
    }

    /// What prepared trade bars become, one by one.
    pub open spec fn trade_points(&self, rows: Seq<PreparedTradeBar>, valid: Seq<bool>) -> Seq<
        (bool, SubscriptionDataPoint),
    >
        decreases rows.len(),
    {
        if rows.len() == 0 {
            Seq::empty()
        } else {
            let head = self.trade_points(rows.drop_last(), valid);
            match self.trade_point(rows.last(), valid[rows.len() - 1]) {
                Some(row) => head.push(row),
                None => head,
            }
        }
    }

    /// What stored quote bars become, one by one.
    pub open spec fn quote_points(
        &self,
        bars: Seq<QuoteBar>,
        window_start: Date,
        window_end: Date,
    ) -> Seq<(bool, SubscriptionDataPoint)>
        decreases bars.len(),
    {
        if bars.len() == 0 {
            Seq::empty()
        } else {
            let head = self.quote_points(bars.drop_last(), window_start, window_end);
            match self.quote_point(bars.last(), window_start, window_end) {
                Some(row) => head.push(row),
                None => head,
            }
        }
    }

    /// Points in order. Daily equity rows are moreover held to one per instant.
    pub open spec fn arranged(&self, rows: Seq<(bool, SubscriptionDataPoint)>) -> Seq<
        SubscriptionDataPoint,
    > {
        if is_daily_equity(self.config) {
            points_of(one_per_instant(rows))
        } else {
            sorted_points(points_of(rows))
        }
    }

    /// Whether a trade bar can be moved, scaled and placed in a session.
    pub open spec fn trade_bar_ready(&self, bar: TradeBar) -> bool {
        &&& span_movable(self.config, bar.time, bar.period)
        &&& trade_bar_scalable(bar, self.factor_rows@)
        &&& self.session_probe_fits(bar.end_time)
    }

    /// Whether a quote bar can be moved and scaled.
    pub open spec fn quote_bar_ready(&self, bar: QuoteBar) -> bool {
        span_movable(self.config, bar.time, bar.period) && quote_bar_scalable(
            bar,
            self.factor_rows@,
        )
    }

    fn prepare_trade_bar(&self, bar: TradeBar, window_start: Date, window_end: Date) -> (res: Option<
        PreparedTradeBar,
    >)
        requires
            window_start.on_clock(),
            window_end.on_clock(),
            self.trade_bar_ready(bar),
        ensures
            res == self.prepared_trade(bar, window_start, window_end),
            res matches Some(row) ==> self.session_probe_fits(row.bar.end_time),
    {
        let mut bar = bar;
        let preferred = is_session_close_daily_bar(bar.time, bar.end_time);
        self.normalize_daily_trade_bar_frontier(&mut bar);
        if self.config.resolution == Resolution::Daily && !self.trade_bar_belongs_to_window(
            &bar,
            window_start,
            window_end,
        ) {
            return None;
        }
        normalize_trade_bar(&mut bar, self.config.normalization_mode, &self.factor_rows);
        Some(PreparedTradeBar { preferred, bar })
    }

    /// Moves trade bars to their sessions and scales them; daily bars that then
    /// do not belong to the window are dropped.
    pub fn prepare_trade_bars(&self, bars: Vec<TradeBar>, window_start: Date, window_end: Date) -> (res:
        Vec<PreparedTradeBar>)
        requires
            window_start.on_clock(),
            window_end.on_clock(),
            forall|i: int| 0 <= i < bars@.len() ==> self.trade_bar_ready(#[trigger] bars@[i]),
        ensures
            res@ == self.prepared_trades(bars@, window_start, window_end),
            forall|i: int|
                0 <= i < res@.len() ==> self.session_probe_fits((#[trigger] res@[i]).bar.end_time),
    {
        let mut out: Vec<PreparedTradeBar> = Vec::new();
        let ghost all = bars@;
        for bar in it: bars
            invariant
                it.seq() == all,
                window_start.on_clock(),
                window_end.on_clock(),
                forall|i: int| 0 <= i < all.len() ==> self.trade_bar_ready(#[trigger] all[i]),
                out@ =~= self.prepared_trades(
                    all.take(it.index() as int),
                    window_start,
                    window_end,
                ),
                forall|i: int|
                    0 <= i < out@.len() ==> self.session_probe_fits(
                        (#[trigger] out@[i]).bar.end_time,
                    ),
        {
            let ghost i = it.index() as int;
            proof {
                assert(all[i] == bar);
                assert(self.trade_bar_ready(all[i]));
                assert(all.take(i + 1).drop_last() =~= all.take(i));
                assert(all.take(i + 1).last() == bar);
            }
            if let Some(row) = self.prepare_trade_bar(bar, window_start, window_end) {
                out.push(row);
            }
        }
        assert(all.take(all.len() as int) =~= all);
        out
    }

    fn prepare_quote_bar(&self, bar: QuoteBar, window_start: Date, window_end: Date) -> (res: Option<
        (bool, SubscriptionDataPoint),
    >)
        requires
            window_start.on_clock(),
            window_end.on_clock(),
            self.quote_bar_ready(bar),
        ensures
            res == self.quote_point(bar, window_start, window_end),
    {
        let mut bar = bar;
        let prefer_row = is_session_close_daily_bar(bar.time, bar.end_time);
        self.normalize_daily_quote_bar_frontier(&mut bar);
        if self.config.resolution == Resolution::Daily && !self.quote_bar_belongs_to_window(
            &bar,
            window_start,
            window_end,
        ) {
            return None;
        }
        normalize_quote_bar(&mut bar, self.config.normalization_mode, &self.factor_rows);
        Some((prefer_row, SubscriptionDataPoint::QuoteBar(bar)))
    }

    /// Turns prepared trade bars into points, in order. `valid` tells of each bar
    /// whether its prices are consistent.
    pub fn trade_bars_to_points(&self, rows: Vec<PreparedTradeBar>, valid: &Vec<bool>) -> (res: Vec<
        SubscriptionDataPoint,
    >)
        requires
            valid@.len() == rows@.len(),
            forall|i: int|
                0 <= i < rows@.len() ==> self.session_probe_fits((#[trigger] rows@[i]).bar.end_time),
        ensures
            res@ == self.arranged(self.trade_points(rows@, valid@)),
            all_wf(res@),
    {
        let mut daily_rows: Vec<(bool, SubscriptionDataPoint)> = Vec::new();
        let mut out: Vec<SubscriptionDataPoint> = Vec::new();
        let daily_equity = self.config.resolution == Resolution::Daily
            && self.config.symbol.security_type == SecurityType::Equity;
        let ghost all = rows@;
        let mut n: usize = 0;
        for row in it: rows
            invariant
                it.seq() == all,
                n == it.index(),
                valid@.len() == all.len(),
                daily_equity == is_daily_equity(self.config),
                forall|i: int|
                    0 <= i < all.len() ==> self.session_probe_fits((#[trigger] all[i]).bar.end_time),
                rows_wf(daily_rows@),
                all_wf(out@),
                daily_equity ==> daily_rows@ == one_per_instant(
                    self.trade_points(all.take(it.index() as int), valid@),
                ),
                !daily_equity ==> out@ =~= points_of(
                    self.trade_points(all.take(it.index() as int), valid@),
                ),
        {
            let ghost i = it.index() as int;
            proof {
                assert(all[i] == row);
                assert(self.session_probe_fits(all[i].bar.end_time));
                assert(all.take(i + 1).drop_last() =~= all.take(i));
                assert(all.take(i + 1).last() == row);
            }
            let ghost head = self.trade_points(all.take(i), valid@);
            if valid[n] && self.is_regular_market_bar(row.bar.end_time) {
                let preferred = row.preferred;
                let point = SubscriptionDataPoint::TradeBar(row.bar);
                let ghost new = (preferred, point);
                proof {
                    assert(head.push(new).drop_last() =~= head);
                    law_one_row_per_instant(head);
                    lemma_with_daily(one_per_instant(head), new);
                }
                if daily_equity {
                    insert_daily(&mut daily_rows, preferred, point);
                } else {
                    out.push(point);
                }
            }
            assert(n < valid.len());
            n = n + 1;
        }
        assert(all.take(all.len() as int) =~= all);
        if daily_equity {
            let ghost rows = daily_rows@;
            let points = into_points(daily_rows);
            assert(all_wf(points@)) by {
                assert forall|i: int| 0 <= i < points@.len() implies (#[trigger] points@[i]).wf() by {
                    assert(rows[i].1.wf());
                }
            }
            points
        } else {
            sort_points(out)
        }
    }

    /// Turns stored quote bars into points, in order.
    pub fn quote_bars_to_points(&self, bars: Vec<QuoteBar>, window_start: Date, window_end: Date) -> (res:
        Vec<SubscriptionDataPoint>)
        requires
            window_start.on_clock(),
            window_end.on_clock(),
            forall|i: int| 0 <= i < bars@.len() ==> self.quote_bar_ready(#[trigger] bars@[i]),
        ensures
            res@ == self.arranged(self.quote_points(bars@, window_start, window_end)),
            all_wf(res@),
    {
        let mut daily_rows: Vec<(bool, SubscriptionDataPoint)> = Vec::new();
        let mut out: Vec<SubscriptionDataPoint> = Vec::new();
        let daily_equity = self.config.resolution == Resolution::Daily
            && self.config.symbol.security_type == SecurityType::Equity;
        let ghost all = bars@;
        for bar in it: bars
            invariant
                it.seq() == all,
                daily_equity == is_daily_equity(self.config),
                window_start.on_clock(),
                window_end.on_clock(),
                forall|i: int| 0 <= i < all.len() ==> self.quote_bar_ready(#[trigger] all[i]),
                rows_wf(daily_rows@),
                all_wf(out@),
                daily_equity ==> daily_rows@ == one_per_instant(
                    self.quote_points(all.take(it.index() as int), window_start, window_end),
                ),
                !daily_equity ==> out@ =~= points_of(
                    self.quote_points(all.take(it.index() as int), window_start, window_end),
                ),
        {
            let ghost i = it.index() as int;
            proof {
                assert(all[i] == bar);
                assert(self.quote_bar_ready(all[i]));
                assert(all.take(i + 1).drop_last() =~= all.take(i));
                assert(all.take(i + 1).last() == bar);
            }
            let ghost head = self.quote_points(all.take(i), window_start, window_end);
            if let Some((prefer_row, point)) = self.prepare_quote_bar(
                bar,
                window_start,
                window_end,
            ) {
                let ghost row = (prefer_row, point);
                proof {
                    assert(head.push(row).drop_last() =~= head);
                    law_one_row_per_instant(head);
                    lemma_with_daily(one_per_instant(head), row);
                }
                if daily_equity {
                    insert_daily(&mut daily_rows, prefer_row, point);
                } else {
                    out.push(point);
                }
            }
        }
        assert(all.take(all.len() as int) =~= all);
        if daily_equity {
            let ghost rows = daily_rows@;
            let points = into_points(daily_rows);
            assert(all_wf(points@)) by {
                assert forall|i: int| 0 <= i < points@.len() implies (#[trigger] points@[i]).wf() by {
                    assert(rows[i].1.wf());
                }
            }
            points
        } else {
            sort_points(out)
        }
    }

    /// Turns ticks into points, in the order they come.
    pub fn ticks_to_points(ticks: Vec<Tick>) -> (res: Vec<SubscriptionDataPoint>)
        ensures
            res@ == ticks@.map_values(|tick: Tick| SubscriptionDataPoint::Tick(tick)),
            all_wf(res@),
    {
        let mut out: Vec<SubscriptionDataPoint> = Vec::new();
        let ghost all = ticks@;
        for tick in it: ticks
            invariant
                it.seq() == all,
                all_wf(out@),
                out@ =~= all.take(it.index() as int).map_values(
                    |tick: Tick| SubscriptionDataPoint::Tick(tick),
                ),
        {
            assert(all.take(it.index() + 1).drop_last() =~= all.take(it.index() as int));
            out.push(SubscriptionDataPoint::Tick(tick));
        }
        assert(all.take(all.len() as int) =~= all);
        out
    }
}

/// A daily equity bar ends with the session of the day it starts on. A bar from
/// midnight to midnight ends at 16:00 of its first day and keeps its length; a bar
/// from 16:00 to 16:00 stands at the first of the two; a bar that ends with its
/// session, and any bar that is not a daily equity bar, keeps its span.
pub proof fn law_daily_bars_end_with_their_session(
    config: SubscriptionDataConfig,
    time: DateTime,
    end_time: DateTime,
    period: i64,
)
    requires
        span_movable(config, time, period),
    ensures
        ({
            let (start, end) = session_span(config, time, end_time, period);
            let daily_equity = config.resolution == Resolution::Daily
                && config.symbol.security_type == SecurityType::Equity;
            let across = time.day() != end_time.day();
            &&& !daily_equity ==> start == time && end == end_time
            &&& !across ==> start == time && end == end_time
            &&& time.tod() != end_time.tod() ==> start == time && end == end_time
            &&& daily_equity && across && time.tod() == 0 && end_time.tod() == 0 ==> {
                &&& end.day() == time.day()
                &&& end.tod() == 57_600_000_000_000
                &&& start.ns + period == end.ns
            }
            &&& daily_equity && across && time.tod() == 57_600_000_000_000 && end_time.tod()
                == 57_600_000_000_000 ==> {
                &&& end.day() == time.day()
                &&& end.tod() == 57_600_000_000_000
                &&& start == end
            }
        }),
{
    if is_daily_equity(config) {
        crate::time::law_clock_reads_back(time.day(), 57_600);
        crate::time::law_clock_reads_back(time.day(), 0);
        time.lemma_day();
        lemma_close_is_on_clock(time.date());
    }
}

proof fn lemma_close_is_on_clock(date: Date)
    requires
        date.on_clock(),
    ensures
        i64::MIN <= clock_ns(date.days as int, 57_600) <= i64::MAX,
{
}

/// A row belongs to a window only if it is of the subscribed security; a daily row
/// if it starts within the window or ends on one of its days, any other row if the
/// instant that places it in a partition lies within.
pub proof fn law_rows_of_a_window(
    state: SubscriptionProducerState,
    sid: u64,
    time: DateTime,
    end_time: DateTime,
    window_start: Date,
    window_end: Date,
)
    requires
        window_start.on_clock(),
        window_end.on_clock(),
    ensures
        sid != state.config.symbol.sid ==> !state.row_in_window(
            sid,
            time,
            end_time,
            window_start,
            window_end,
        ),
        sid == state.config.symbol.sid && state.config.resolution == Resolution::Daily
            && window_start.days <= end_time.day() <= window_end.days ==> state.row_in_window(
            sid,
            time,
            end_time,
            window_start,
            window_end,
        ),
        state.row_in_window(sid, time, end_time, window_start, window_end) && state.config.resolution
            != Resolution::Daily ==> {
            let at = if time.day() != end_time.day() {
                end_time
            } else {
                time
            };
            window_start.days <= at.day() <= window_end.days
        },
        state.row_in_window(sid, time, end_time, window_start, window_end) && state.config.resolution
            == Resolution::Daily ==> (window_start.days <= time.day() <= window_end.days)
            || (window_start.days <= end_time.day() <= window_end.days),
{
    crate::subscription_reader::window::law_window_holds_its_days(time, window_start, window_end);
    crate::subscription_reader::window::law_window_holds_its_days(
        end_time,
        window_start,
        window_end,
    );
}

/// A stored trade bar is delivered as it was stored, but for its span and its prices:
/// it keeps its security and its length, its span is that of its session, and under
/// raw prices every price and the volume are those of the row. A bar is preferred
/// where it was stored with the span of its session. An intraday bar is never left
/// out, a daily bar only if it does not belong to the window.
pub proof fn law_stored_bars_keep_their_data(
    state: SubscriptionProducerState,
    bar: TradeBar,
    window_start: Date,
    window_end: Date,
)
    ensures
        state.config.resolution != Resolution::Daily ==> state.prepared_trade(
            bar,
            window_start,
            window_end,
        ) is Some,
        state.prepared_trade(bar, window_start, window_end) matches Some(row) ==> {
            let span = session_span(state.config, bar.time, bar.end_time, bar.period);
            &&& row.bar.symbol == bar.symbol
            &&& row.bar.period == bar.period
            &&& row.bar.time == span.0
            &&& row.bar.end_time == span.1
            &&& state.config.normalization_mode
                == crate::model::DataNormalizationMode::Raw ==> {
                &&& row.bar.open == bar.open
                &&& row.bar.high == bar.high
                &&& row.bar.low == bar.low
                &&& row.bar.close == bar.close
                &&& row.bar.volume == bar.volume
            }
            &&& row.preferred <==> !(bar.time.day() != bar.end_time.day() && bar.time.tod()
                == bar.end_time.tod() && (bar.time.tod() == 0 || bar.time.tod()
                == 57_600_000_000_000))
            &&& state.config.resolution == Resolution::Daily ==> row.bar.symbol.sid
                == state.config.symbol.sid
        },
{
}

/// The same of quote bars.
pub proof fn law_stored_quotes_keep_their_data(
    state: SubscriptionProducerState,
    bar: QuoteBar,
    window_start: Date,
    window_end: Date,
)
    ensures
        state.config.resolution != Resolution::Daily ==> state.quote_point(
            bar,
            window_start,
            window_end,
        ) is Some,
        state.quote_point(bar, window_start, window_end) matches Some(row) ==> (
        row.1 matches SubscriptionDataPoint::QuoteBar(out) && {
            let span = session_span(state.config, bar.time, bar.end_time, bar.period);
            &&& out.symbol == bar.symbol
            &&& out.period == bar.period
            &&& out.time == span.0
            &&& out.end_time == span.1
            &&& out.last_bid_size == bar.last_bid_size
            &&& out.last_ask_size == bar.last_ask_size
            &&& out.bid is Some <==> bar.bid is Some
            &&& out.ask is Some <==> bar.ask is Some
            &&& state.config.normalization_mode
                == crate::model::DataNormalizationMode::Raw ==> out.bid == bar.bid && out.ask
                == bar.ask
        }),
{
}

/// A prepared bar is delivered as it is, if it is valid and ends in a regular
/// session, and not at all otherwise. Bars that are neither intraday nor of equities
/// are held to no session.
pub proof fn law_valid_bars_are_delivered(
    state: SubscriptionProducerState,
    row: PreparedTradeBar,
    valid: bool,
)
    ensures
        !valid ==> state.trade_point(row, valid) is None,
        valid && (state.config.resolution == Resolution::Daily
            || state.config.symbol.security_type != SecurityType::Equity) ==> state.trade_point(
            row,
            valid,
        ) is Some,
        state.trade_point(row, valid) matches Some(out) ==> out.0 == row.preferred && out.1
            == SubscriptionDataPoint::TradeBar(row.bar),
        valid && state.config.symbol.security_type == SecurityType::Equity
            && state.config.resolution != Resolution::Daily ==> (
        state.config.resolution.span() matches Some(period) ==> (state.trade_point(row, valid)
            is Some <==> state.exchange_hours.open_at(
            DateTime { ns: (row.bar.end_time.ns - period) as i64 },
        ))),
{
}

/// Rows are turned into points one by one: one more row adds what it becomes behind
/// all before it, and changes none of them.
pub proof fn law_rows_are_read_one_by_one(
    state: SubscriptionProducerState,
    bars: Seq<TradeBar>,
    bar: TradeBar,
    quotes: Seq<QuoteBar>,
    quote: QuoteBar,
    window_start: Date,
    window_end: Date,
)
    ensures
        state.prepared_trades(bars.push(bar), window_start, window_end) == (
        match state.prepared_trade(bar, window_start, window_end) {
            Some(row) => state.prepared_trades(bars, window_start, window_end).push(row),
            None => state.prepared_trades(bars, window_start, window_end),
        }),
        state.prepared_trades(Seq::empty(), window_start, window_end).len() == 0,
        state.quote_points(quotes.push(quote), window_start, window_end) == (
        match state.quote_point(quote, window_start, window_end) {
            Some(row) => state.quote_points(quotes, window_start, window_end).push(row),
            None => state.quote_points(quotes, window_start, window_end),
        }),
        state.quote_points(Seq::empty(), window_start, window_end).len() == 0,
{
    assert(bars.push(bar).drop_last() =~= bars);
    assert(quotes.push(quote).drop_last() =~= quotes);
}

/// The same of prepared bars, each with its own verdict.
pub proof fn law_prepared_bars_are_read_one_by_one(
    state: SubscriptionProducerState,
    rows: Seq<PreparedTradeBar>,
    row: PreparedTradeBar,
    valid: Seq<bool>,
)
    requires
        rows.len() < valid.len(),
    ensures
        state.trade_points(rows.push(row), valid) == (match state.trade_point(
            row,
            valid[rows.len() as int],
        ) {
            Some(point) => state.trade_points(rows, valid).push(point),
            None => state.trade_points(rows, valid),
        }),
        state.trade_points(Seq::empty(), valid).len() == 0,
{
    assert(rows.push(row).drop_last() =~= rows);
}

/// Points are arranged by the instant at which they become known. Daily equity rows
/// come one per instant; of anything else no point is lost.
pub proof fn law_points_are_arranged_in_time(
    state: SubscriptionProducerState,
    rows: Seq<(bool, SubscriptionDataPoint)>,
)
    ensures
        in_order(state.arranged(rows)),
        !is_daily_equity(state.config) ==> state.arranged(rows).to_multiset() == points_of(
            rows,
        ).to_multiset(),
        is_daily_equity(state.config) ==> forall|i: int, j: int|
            0 <= i < j < state.arranged(rows).len() ==> (#[trigger] state.arranged(
                rows,
            )[i]).frontier().ns < (#[trigger] state.arranged(rows)[j]).frontier().ns,
{
    if is_daily_equity(state.config) {
        law_one_row_per_instant(rows);
        let kept = one_per_instant(rows);
        assert forall|i: int, j: int| 0 <= i < j < state.arranged(rows).len() implies (
        #[trigger] state.arranged(rows)[i]).frontier().ns < (#[trigger] state.arranged(
            rows,
        )[j]).frontier().ns by {
            assert(state.arranged(rows)[i] == kept[i].1);
            assert(state.arranged(rows)[j] == kept[j].1);
        }
    } else {
        lemma_sorted_points(points_of(rows));
    }
}

/// Stored bars are brought to the normalization of their subscription, after they were
/// moved to their session: what is delivered is the moved bar, normalized.
pub proof fn law_stored_bars_are_normalized(
    state: SubscriptionProducerState,
    bar: TradeBar,
    quote: QuoteBar,
    window_start: Date,
    window_end: Date,
    i: int,
)
    ensures
        state.prepared_trade(bar, window_start, window_end) matches Some(row) ==> {
            let mode = state.config.normalization_mode;
            let rows = state.factor_rows@;
            let date = scale_frontier(row.bar.time, row.bar.end_time);
            bar.symbol.security_type == SecurityType::Equity && mode
                != crate::model::DataNormalizationMode::Raw && is_factor_row(rows, date, i) ==> (
            (if mode == crate::model::DataNormalizationMode::SplitAdjusted {
                rows[i].split_adjusted
            } else {
                rows[i].adjusted
            }) matches Some(scale) ==> {
                &&& row.bar.open == bar.open.product(scale.price)
                &&& row.bar.high == bar.high.product(scale.price)
                &&& row.bar.low == bar.low.product(scale.price)
                &&& row.bar.close == bar.close.product(scale.price)
            })
        },
        state.quote_point(quote, window_start, window_end) matches Some(row) ==> (
        row.1 matches SubscriptionDataPoint::QuoteBar(out) && {
            let mode = state.config.normalization_mode;
            let rows = state.factor_rows@;
            let date = scale_frontier(out.time, out.end_time);
            quote.symbol.security_type == SecurityType::Equity && mode
                != crate::model::DataNormalizationMode::Raw && is_factor_row(rows, date, i) ==> (
            (if mode == crate::model::DataNormalizationMode::SplitAdjusted {
                rows[i].split_adjusted
            } else {
                rows[i].adjusted
            }) matches Some(scale) ==> {
                &&& quote.bid matches Some(side) ==> (out.bid matches Some(new) && new.close
                    == side.close.product(scale.price) && new.open == side.open.product(scale.price)
                    && new.high == side.high.product(scale.price) && new.low == side.low.product(
                    scale.price,
                ))
                &&& quote.ask matches Some(side) ==> (out.ask matches Some(new) && new.close
                    == side.close.product(scale.price) && new.open == side.open.product(scale.price)
                    && new.high == side.high.product(scale.price) && new.low == side.low.product(
                    scale.price,
                ))
            })
        }),
{
    let span = session_span(state.config, bar.time, bar.end_time, bar.period);
    let moved = TradeBar { time: span.0, end_time: span.1, ..bar };
    law_mode_decides_the_adjustment(
        moved,
        state.config.normalization_mode,
        state.factor_rows@,
        i,
    );
    let reach = session_span(state.config, quote.time, quote.end_time, quote.period);
    let shifted = QuoteBar { time: reach.0, end_time: reach.1, ..quote };
    law_quotes_are_scaled_side_by_side(
        shifted,
        state.config.normalization_mode,
        state.factor_rows@,
        i,
    );
}

} // verus!
