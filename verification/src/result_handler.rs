//! Equity and benchmark curves of a backtest.

use crate::decimal::{Decimal, Price};
use crate::text::texts;
use crate::time::{date_text, day_of, DateTime};
use vstd::prelude::*;

verus! {

/// Values by instant, in order.
pub struct Curve {
    pub points: Vec<(i64, Price)>,
}

/// A curve with a value at an instant; it replaces an earlier value there.
pub open spec fn with_value(points: Seq<(i64, Price)>, time: i64, value: Price) -> Seq<(i64, Price)>
    decreases points.len(),
{
    if points.len() == 0 || points.last().0 < time {
        points.push((time, value))
    } else if points.last().0 == time {
        points.drop_last().push((time, value))
    } else {
        with_value(points.drop_last(), time, value).push(points.last())
    }
}

/// The value at an instant.
pub open spec fn value_at(points: Seq<(i64, Price)>, time: i64) -> Option<Price>
    decreases points.len(),
{
    if points.len() == 0 {
        None
    } else if points.last().0 == time {
        Some(points.last().1)
    } else {
        value_at(points.drop_last(), time)
    }
}

impl Curve {
    /// Instants increase.
    pub open spec fn wf(&self) -> bool {
        forall|i: int, j: int|
            0 <= i < j < self.points@.len() ==> (#[trigger] self.points@[i]).0 < (
            #[trigger] self.points@[j]).0
    }

    pub fn new() -> (res: Curve)
        ensures
            res.wf(),
            res.points@.len() == 0,
    {
        Curve { points: Vec::new() }
    }

    /// Sets the value at an instant.
    #[verifier::loop_isolation(false)]
    pub fn record(&mut self, time: DateTime, value: Price)
        requires
            old(self).wf(),
        ensures
            final(self).wf(),
            final(self).points@ == with_value(old(self).points@, time.ns, value),
    {
        let ghost before = self.points@;
        let new = (time.ns, value);
        proof {
            lemma_with_value(before, time.ns, value);
        }
        let mut i: usize = self.points.len();
        assert(before.take(i as int) =~= before);
        assert(with_value(before.take(i as int), time.ns, value) + before.skip(i as int)
            =~= with_value(before, time.ns, value));
        while i > 0 && self.points[i - 1].0 > time.ns
            invariant
                i <= before.len(),
                self.points@ == before,
                with_value(before, time.ns, value) == with_value(
                    before.take(i as int),
                    time.ns,
                    value,
                ) + before.skip(i as int),
            decreases i,
        {
            proof {
                assert(before.take(i as int).last() == before[i - 1]);
                assert(before.take(i as int).drop_last() =~= before.take(i - 1));
                assert(with_value(before.take(i - 1), time.ns, value).push(before[i - 1])
                    + before.skip(i as int) =~= with_value(before.take(i - 1), time.ns, value)
                    + before.skip(i - 1));
            }
            i = i - 1;
        }
        if i > 0 {
            assert(before.take(i as int).last() == before[i - 1]);
        }
        if i > 0 && self.points[i - 1].0 == time.ns {
            assert(before.take(i as int).drop_last().push(new) + before.skip(i as int)
                =~= before.update(i - 1, new));
            self.points.set(i - 1, new);
        } else {
            assert(before.take(i as int).push(new) + before.skip(i as int) =~= before.insert(
                i as int,
                new,
            ));
            self.points.insert(i, new);
        }
    }

    /// The values in order of their instants.
    pub fn values(&self) -> (res: Vec<Price>)
        ensures
            res@ == self.points@.map_values(|point: (i64, Price)| point.1),
    {
        let mut out: Vec<Price> = Vec::new();
        let mut i: usize = 0;
        let ghost f = |point: (i64, Price)| point.1;
        while i < self.points.len()
            invariant
                i <= self.points@.len(),
                f == |point: (i64, Price)| point.1,
                out@ =~= self.points@.take(i as int).map_values(f),
            decreases self.points.len() - i,
        {
            out.push(self.points[i].1);
            i = i + 1;
        }
        assert(self.points@.take(i as int) =~= self.points@);
        out
    }

    /// The instants in order.
    pub fn times(&self) -> (res: Vec<i64>)
        ensures
            res@ == self.points@.map_values(|point: (i64, Price)| point.0),
    {
        let mut out: Vec<i64> = Vec::new();
        let mut i: usize = 0;
        let ghost f = |point: (i64, Price)| point.0;
        while i < self.points.len()
            invariant
                i <= self.points@.len(),
                f == |point: (i64, Price)| point.0,
                out@ =~= self.points@.take(i as int).map_values(f),
            decreases self.points.len() - i,
        {
            out.push(self.points[i].0);
            i = i + 1;
        }
        assert(self.points@.take(i as int) =~= self.points@);
        out
    }

    /// The dates of the instants, in order.
    pub fn dates(&self) -> (res: Vec<String>)
        ensures
            texts(res@) == self.points@.map_values(
                |point: (i64, Price)| date_text(day_of(point.0 as int)),
            ),
    {
        let mut out: Vec<String> = Vec::new();
        let mut i: usize = 0;
        let ghost f = |point: (i64, Price)| date_text(day_of(point.0 as int));
        assert(texts(out@) =~= self.points@.take(0).map_values(f));
        while i < self.points.len()
            invariant
                i <= self.points@.len(),
                f == |point: (i64, Price)| date_text(day_of(point.0 as int)),
                texts(out@) == self.points@.take(i as int).map_values(f),
            decreases self.points.len() - i,
        {
            let time = DateTime { ns: self.points[i].0 };
            proof {
                time.lemma_day();
            }
            let ghost before = out@;
            let text = time.date_utc().to_text();
            out.push(text);
            proof {
                assert(texts(out@) =~= texts(before).push(text@));
                assert(self.points@.take(i + 1).map_values(f) =~= self.points@.take(
                    i as int,
                ).map_values(f).push(f(self.points@[i as int])));
            }
            i = i + 1;
        }
        assert(self.points@.take(i as int) =~= self.points@);
        out
    }
}

proof fn lemma_with_value(points: Seq<(i64, Price)>, time: i64, value: Price)
    requires
        forall|i: int, j: int|
            0 <= i < j < points.len() ==> (#[trigger] points[i]).0 < (#[trigger] points[j]).0,
    ensures
        forall|i: int, j: int|
            0 <= i < j < with_value(points, time, value).len() ==> (#[trigger] with_value(
                points,
                time,
                value,
            )[i]).0 < (#[trigger] with_value(points, time, value)[j]).0,
        forall|i: int|
            0 <= i < with_value(points, time, value).len() ==> (#[trigger] with_value(
                points,
                time,
                value,
            )[i]).0 <= time || (points.len() > 0 && with_value(points, time, value)[i].0
                <= points.last().0),
    decreases points.len(),
{
    let out = with_value(points, time, value);
    if points.len() == 0 || points.last().0 < time {
        assert forall|i: int, j: int| 0 <= i < j < out.len() implies (#[trigger] out[i]).0 < (
        #[trigger] out[j]).0 by {
            if j == points.len() {
                assert(points[i].0 <= points[points.len() - 1].0);
            }
        }
        assert forall|i: int| 0 <= i < out.len() implies (#[trigger] out[i]).0 <= time by {
            if i < points.len() {
                assert(points[i].0 <= points[points.len() - 1].0);
            }
        }
    } else if points.last().0 == time {
        assert forall|i: int, j: int| 0 <= i < j < out.len() implies (#[trigger] out[i]).0 < (
        #[trigger] out[j]).0 by {
            assert(points[i].0 < points[j].0);
        }
        assert forall|i: int| 0 <= i < out.len() implies (#[trigger] out[i]).0 <= time by {
            if i < points.len() - 1 {
                assert(points[i].0 < points[points.len() - 1].0);
            }
        }
    } else {
        let head = points.drop_last();
        assert forall|i: int, j: int| 0 <= i < j < head.len() implies (#[trigger] head[i]).0 < (
        #[trigger] head[j]).0 by {
            assert(points[i].0 < points[j].0);
        }
        lemma_with_value(head, time, value);
        let mid = with_value(head, time, value);
        assert forall|i: int| 0 <= i < mid.len() implies (#[trigger] mid[i]).0
            < points.last().0 by {
            if head.len() > 0 {
                assert(points[head.len() - 1].0 < points[points.len() - 1].0);
            }
        }
        assert forall|i: int, j: int| 0 <= i < j < out.len() implies (#[trigger] out[i]).0 < (
        #[trigger] out[j]).0 by {
            assert(out[i] == mid[i]);
            if j < mid.len() {
                assert(out[j] == mid[j]);
            }
        }
        assert forall|i: int| 0 <= i < out.len() implies (#[trigger] out[i]).0
            <= points.last().0 by {
            if i < mid.len() {
                assert(out[i] == mid[i]);
            }
        }
    }
}

/// A recorded value is found at its instant, and no other value changes.
pub proof fn law_recorded_value_is_found(
    points: Seq<(i64, Price)>,
    time: i64,
    value: Price,
    other: i64,
)
    requires
        forall|i: int, j: int|
            0 <= i < j < points.len() ==> (#[trigger] points[i]).0 < (#[trigger] points[j]).0,
    ensures
        value_at(with_value(points, time, value), other) == (if other == time {
            Some(value)
        } else {
            value_at(points, other)
        }),
    decreases points.len(),
{
    let out = with_value(points, time, value);
    if points.len() == 0 || points.last().0 < time {
        assert(out.drop_last() =~= points);
    } else if points.last().0 == time {
        assert(out.drop_last() =~= points.drop_last());
    } else {
        let head = points.drop_last();
        assert forall|i: int, j: int| 0 <= i < j < head.len() implies (#[trigger] head[i]).0 < (
        #[trigger] head[j]).0 by {
            assert(points[i].0 < points[j].0);
        }
        law_recorded_value_is_found(head, time, value, other);
        assert(out.drop_last() =~= with_value(head, time, value));
    }
}

/// Accumulates the curves of a backtest.
pub struct ResultHandler {
    pub equity_curve: Curve,
    pub benchmark_curve: Curve,
}

/// What the statistics of a run are computed from, beside its trades.
pub struct StatisticsInput {
    pub equity: Vec<Price>,
    pub benchmark: Vec<Price>,
    pub trading_days: i64,
    pub starting_cash: Price,
    /// Daily rate.
    pub risk_free_rate: Decimal,
}

impl ResultHandler {
    pub open spec fn wf(&self) -> bool {
        self.equity_curve.wf() && self.benchmark_curve.wf()
    }

    pub fn new() -> (res: ResultHandler)
        ensures
            res.wf(),
            res.equity_curve.points@.len() == 0,
            res.benchmark_curve.points@.len() == 0,
    {
        ResultHandler { equity_curve: Curve::new(), benchmark_curve: Curve::new() }
    }

    pub fn record_equity(&mut self, time: DateTime, equity: Price)
        requires
            old(self).wf(),
        ensures
            final(self).wf(),
            final(self).equity_curve.points@ == with_value(
                old(self).equity_curve.points@,
                time.ns,
                equity,
            ),
            final(self).benchmark_curve == old(self).benchmark_curve,
    {
        self.equity_curve.record(time, equity);
    }

    pub fn record_benchmark(&mut self, time: DateTime, price: Price)
        requires
            old(self).wf(),
        ensures
            final(self).wf(),
            final(self).benchmark_curve.points@ == with_value(
                old(self).benchmark_curve.points@,
                time.ns,
                price,
            ),
            final(self).equity_curve == old(self).equity_curve,
    {
        self.benchmark_curve.record(time, price);
    }

    /// Hands over what the statistics of the run are computed from. The risk-free
    /// rate is four percent a year, spread over the trading days of a year.
    pub fn finalize(&self, trading_days: i64, starting_cash: Price) -> (res: StatisticsInput)
        ensures
            res.equity@ == self.equity_curve.points@.map_values(|point: (i64, Price)| point.1),
            res.benchmark@ == self.benchmark_curve.points@.map_values(
                |point: (i64, Price)| point.1,
            ),
            res.trading_days == trading_days,
            res.starting_cash == starting_cash,
            res.risk_free_rate == (Decimal { mantissa: 4, scale: 2 }).quotient(
                Decimal { mantissa: 252, scale: 0 },
            ),
            hands_over(*self, trading_days, starting_cash, res),
    {
        let annual_rate = Decimal { mantissa: 4, scale: 2 };
        let days_of_a_year = Decimal { mantissa: 252, scale: 0 };
        StatisticsInput {
            equity: self.equity_curve.values(),
            benchmark: self.benchmark_curve.values(),
            trading_days,
            starting_cash,
            risk_free_rate: annual_rate.divided_by(days_of_a_year),
        }
    }
}

/// What a run hands over to its statistics.
pub open spec fn hands_over(
    held: ResultHandler,
    trading_days: i64,
    starting_cash: Price,
    input: StatisticsInput,
) -> bool {
    &&& input.equity@ == held.equity_curve.points@.map_values(|point: (i64, Price)| point.1)
    &&& input.benchmark@ == held.benchmark_curve.points@.map_values(|point: (i64, Price)| point.1)
    &&& input.trading_days == trading_days
    &&& input.starting_cash == starting_cash
}

/// The statistics are computed from every recorded value, each curve in the order of its
/// instants and apart from the other.
pub proof fn law_statistics_see_every_value(
    held: ResultHandler,
    trading_days: i64,
    starting_cash: Price,
    input: StatisticsInput,
    k: int,
)
    requires
        hands_over(held, trading_days, starting_cash, input),
    ensures
        input.equity@.len() == held.equity_curve.points@.len(),
        0 <= k < input.equity@.len() ==> input.equity@[k] == held.equity_curve.points@[k].1,
        input.benchmark@.len() == held.benchmark_curve.points@.len(),
        0 <= k < input.benchmark@.len() ==> input.benchmark@[k] == held.benchmark_curve.points@[k].1,
        input.trading_days == trading_days,
        input.starting_cash == starting_cash,
{
}

} // verus!
