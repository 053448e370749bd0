//! Points kept in order of the instant at which they become known.

use crate::subscription_data::SubscriptionDataPoint;
use crate::time::DateTime;
use vstd::prelude::*;

verus! {

#[derive(Clone, Copy, Debug, PartialEq, Eq, Structural)]
pub enum BufferedPointState {
    Loaded,
    Emittable,
}

/// A point held back until its turn.
pub struct BufferedSubscriptionPoint {
    pub point: SubscriptionDataPoint,
    pub state: BufferedPointState,
}

impl BufferedSubscriptionPoint {
    pub open spec fn frontier(self) -> DateTime {
        self.point.frontier()
    }

    pub fn loaded(point: SubscriptionDataPoint) -> (res: BufferedSubscriptionPoint)
        ensures
            res == (BufferedSubscriptionPoint { point, state: BufferedPointState::Loaded }),
    {
        BufferedSubscriptionPoint { point, state: BufferedPointState::Loaded }
    }

    pub fn mark_emittable(&mut self)
        ensures
            *final(self) == (BufferedSubscriptionPoint {
                point: old(self).point,
                state: BufferedPointState::Emittable,
            }),
    {
        self.state = BufferedPointState::Emittable;
    }

    pub fn frontier_time(&self) -> (res: DateTime)
        requires
            self.point.wf(),
        ensures
            res == self.frontier(),
    {
        self.point.frontier_time()
    }
}

pub open spec fn all_wf(points: Seq<SubscriptionDataPoint>) -> bool {
    forall|i: int| 0 <= i < points.len() ==> (#[trigger] points[i]).wf()
}

pub open spec fn all_buffered_wf(points: Seq<BufferedSubscriptionPoint>) -> bool {
    forall|i: int| 0 <= i < points.len() ==> (#[trigger] points[i]).point.wf()
}

/// Points in order of their instants.
pub open spec fn in_order(points: Seq<SubscriptionDataPoint>) -> bool {
    forall|i: int, j: int|
        0 <= i <= j < points.len() ==> (#[trigger] points[i]).frontier().ns <= (
        #[trigger] points[j]).frontier().ns
}

pub open spec fn buffered_in_order(points: Seq<BufferedSubscriptionPoint>) -> bool {
    forall|i: int, j: int|
        0 <= i <= j < points.len() ==> (#[trigger] points[i]).frontier().ns <= (
        #[trigger] points[j]).frontier().ns
}

/// Ordered points with one more put after all that are not later than it.
pub open spec fn with_buffered(
    points: Seq<BufferedSubscriptionPoint>,
    new: BufferedSubscriptionPoint,
) -> Seq<BufferedSubscriptionPoint>
    decreases points.len(),
{
    if points.len() > 0 && points.last().frontier().ns > new.frontier().ns {
        with_buffered(points.drop_last(), new).push(points.last())
    } else {
        points.push(new)
    }
}

/// Ordered points with one more put after all that are not later than it.
pub open spec fn with_point(
    points: Seq<SubscriptionDataPoint>,
    new: SubscriptionDataPoint,
) -> Seq<SubscriptionDataPoint>
    decreases points.len(),
{
    if points.len() > 0 && points.last().frontier().ns > new.frontier().ns {
        with_point(points.drop_last(), new).push(points.last())
    } else {
        points.push(new)
    }
}

/// The points in order of their instants; those of one instant keep their order.
pub open spec fn sorted_points(points: Seq<SubscriptionDataPoint>) -> Seq<SubscriptionDataPoint>
    decreases points.len(),
{
    if points.len() == 0 {
        Seq::empty()
    } else {
        with_point(sorted_points(points.drop_last()), points.last())
    }
}

/// Inserting keeps the order, adds one element and loses none.
pub proof fn lemma_with_buffered(
    points: Seq<BufferedSubscriptionPoint>,
    new: BufferedSubscriptionPoint,
)
    ensures
        with_buffered(points, new).len() == points.len() + 1,
        with_buffered(points, new).to_multiset() == points.to_multiset().insert(new),
        buffered_in_order(points) ==> buffered_in_order(with_buffered(points, new)),
        all_buffered_wf(points) && new.point.wf() ==> all_buffered_wf(with_buffered(points, new)),
        forall|i: int|
            0 <= i < with_buffered(points, new).len() ==> (#[trigger] with_buffered(points, new)[i]
                == new || points.contains(with_buffered(points, new)[i])),
        with_buffered(points, new).contains(new),
        forall|b: BufferedSubscriptionPoint| #[trigger]
            points.contains(b) ==> with_buffered(points, new).contains(b),
    decreases points.len(),
{
    broadcast use vstd::seq_lib::group_to_multiset_ensures;

    let out = with_buffered(points, new);
    if points.len() > 0 && points.last().frontier().ns > new.frontier().ns {
        let head = points.drop_last();
        lemma_with_buffered(head, new);
        let mid = with_buffered(head, new);
        assert(out == mid.push(points.last()));
        assert(points =~= head.push(points.last()));
        crate::subscription_reader::coverage::lemma_push_contains(mid, points.last());
        crate::subscription_reader::coverage::lemma_push_contains(head, points.last());
        assert(out.to_multiset() =~= points.to_multiset().insert(new));
        assert forall|i: int| 0 <= i < out.len() implies (#[trigger] out[i] == new
            || points.contains(out[i])) by {
            if i < mid.len() {
                assert(out[i] == mid[i]);
            }
        }
        if buffered_in_order(points) {
            assert forall|i: int| 0 <= i < mid.len() implies (#[trigger] mid[i]).frontier().ns
                <= points.last().frontier().ns by {
                if mid[i] != new {
                    let k = choose|k: int| 0 <= k < head.len() && head[k] == mid[i];
                    assert(points[k] == mid[i]);
                    assert(points[points.len() - 1] == points.last());
                }
            }
            assert(buffered_in_order(head)) by {
                assert forall|i: int, j: int| 0 <= i <= j < head.len() implies (
                #[trigger] head[i]).frontier().ns <= (#[trigger] head[j]).frontier().ns by {
                    assert(points[i] == head[i] && points[j] == head[j]);
                }
            }
            assert forall|i: int, j: int| 0 <= i <= j < out.len() implies (
            #[trigger] out[i]).frontier().ns <= (#[trigger] out[j]).frontier().ns by {
                if j < mid.len() {
                    assert(out[i] == mid[i] && out[j] == mid[j]);
                } else if i < mid.len() {
                    assert(out[i] == mid[i]);
                }
            }
        }
    } else {
        crate::subscription_reader::coverage::lemma_push_contains(points, new);
        assert forall|i: int| 0 <= i < out.len() implies (#[trigger] out[i] == new
            || points.contains(out[i])) by {
            if i < points.len() {
                assert(out[i] == points[i]);
            }
        }
        if buffered_in_order(points) {
            assert forall|i: int, j: int| 0 <= i <= j < out.len() implies (
            #[trigger] out[i]).frontier().ns <= (#[trigger] out[j]).frontier().ns by {
                if j < points.len() {
                    assert(out[i] == points[i] && out[j] == points[j]);
                } else if i < points.len() {
                    assert(out[i] == points[i]);
                    assert(points[i].frontier().ns <= points[points.len() - 1].frontier().ns);
                }
            }
        }
    }
}

/// Inserting keeps the order, adds one element and loses none.
pub proof fn lemma_with_point(points: Seq<SubscriptionDataPoint>, new: SubscriptionDataPoint)
    ensures
        with_point(points, new).len() == points.len() + 1,
        with_point(points, new).to_multiset() == points.to_multiset().insert(new),
        in_order(points) ==> in_order(with_point(points, new)),
        forall|i: int|
            0 <= i < with_point(points, new).len() ==> (#[trigger] with_point(points, new)[i] == new
                || points.contains(with_point(points, new)[i])),
    decreases points.len(),
{
    broadcast use vstd::seq_lib::group_to_multiset_ensures;

    let out = with_point(points, new);
    if points.len() > 0 && points.last().frontier().ns > new.frontier().ns {
        let head = points.drop_last();
        lemma_with_point(head, new);
        let mid = with_point(head, new);
        assert(points =~= head.push(points.last()));
        assert(out.to_multiset() =~= points.to_multiset().insert(new));
        assert forall|i: int| 0 <= i < out.len() implies (#[trigger] out[i] == new
            || points.contains(out[i])) by {
            if i < mid.len() {
                assert(out[i] == mid[i]);
                if mid[i] != new {
                    let k = choose|k: int| 0 <= k < head.len() && head[k] == mid[i];
                    assert(points[k] == mid[i]);
                }
            } else {
                assert(points[points.len() - 1] == out[i]);
            }
        }
        if in_order(points) {
            assert forall|i: int| 0 <= i < mid.len() implies (#[trigger] mid[i]).frontier().ns
                <= points.last().frontier().ns by {
                if mid[i] != new {
                    let k = choose|k: int| 0 <= k < head.len() && head[k] == mid[i];
                    assert(points[k] == mid[i]);
                    assert(points[points.len() - 1] == points.last());
                }
            }
            assert(in_order(head)) by {
                assert forall|i: int, j: int| 0 <= i <= j < head.len() implies (
                #[trigger] head[i]).frontier().ns <= (#[trigger] head[j]).frontier().ns by {
                    assert(points[i] == head[i] && points[j] == head[j]);
                }
            }
            assert forall|i: int, j: int| 0 <= i <= j < out.len() implies (
            #[trigger] out[i]).frontier().ns <= (#[trigger] out[j]).frontier().ns by {
                if j < mid.len() {
                    assert(out[i] == mid[i] && out[j] == mid[j]);
                } else if i < mid.len() {
                    assert(out[i] == mid[i]);
                }
            }
        }
    } else {
        assert forall|i: int| 0 <= i < out.len() implies (#[trigger] out[i] == new
            || points.contains(out[i])) by {
            if i < points.len() {
                assert(out[i] == points[i]);
            }
        }
        if in_order(points) {
            assert forall|i: int, j: int| 0 <= i <= j < out.len() implies (
            #[trigger] out[i]).frontier().ns <= (#[trigger] out[j]).frontier().ns by {
                if j < points.len() {
                    assert(out[i] == points[i] && out[j] == points[j]);
                } else if i < points.len() {
                    assert(out[i] == points[i]);
                    assert(points[i].frontier().ns <= points[points.len() - 1].frontier().ns);
                }
            }
        }
    }
}

/// Sorting yields the same points, in order.
pub proof fn lemma_sorted_points(points: Seq<SubscriptionDataPoint>)
    ensures
        in_order(sorted_points(points)),
        sorted_points(points).to_multiset() == points.to_multiset(),
        sorted_points(points).len() == points.len(),
    decreases points.len(),
{
    broadcast use vstd::seq_lib::group_to_multiset_ensures;

    if points.len() > 0 {
        let head = points.drop_last();
        lemma_sorted_points(head);
        lemma_with_point(sorted_points(head), points.last());
        assert(points =~= head.push(points.last()));
    } else {
        assert(sorted_points(points) =~= points);
    }
}

/// The insertion position: everything before it is not later, everything from
/// it on is later.
proof fn lemma_with_buffered_at(
    points: Seq<BufferedSubscriptionPoint>,
    new: BufferedSubscriptionPoint,
    i: int,
)
    requires
        0 <= i <= points.len(),
        i == 0 || points[i - 1].frontier().ns <= new.frontier().ns,
        forall|j: int| i <= j < points.len() ==> (#[trigger] points[j]).frontier().ns
            > new.frontier().ns,
    ensures
        with_buffered(points, new) == points.insert(i, new),
    decreases points.len() - i,
{
    if i == points.len() {
        assert(points.insert(i, new) =~= points.push(new));
    } else {
        let head = points.drop_last();
        assert(points[points.len() - 1].frontier().ns > new.frontier().ns);
        assert forall|j: int| i <= j < head.len() implies (#[trigger] head[j]).frontier().ns
            > new.frontier().ns by {
            assert(points[j] == head[j]);
        }
        lemma_with_buffered_at(head, new, i);
        assert(points.insert(i, new) =~= head.insert(i, new).push(points.last()));
    }
}

proof fn lemma_with_point_at(
    points: Seq<SubscriptionDataPoint>,
    new: SubscriptionDataPoint,
    i: int,
)
    requires
        0 <= i <= points.len(),
        i == 0 || points[i - 1].frontier().ns <= new.frontier().ns,
        forall|j: int| i <= j < points.len() ==> (#[trigger] points[j]).frontier().ns
            > new.frontier().ns,
    ensures
        with_point(points, new) == points.insert(i, new),
    decreases points.len() - i,
{
    if i == points.len() {
        assert(points.insert(i, new) =~= points.push(new));
    } else {
        let head = points.drop_last();
        assert(points[points.len() - 1].frontier().ns > new.frontier().ns);
        assert forall|j: int| i <= j < head.len() implies (#[trigger] head[j]).frontier().ns
            > new.frontier().ns by {
            assert(points[j] == head[j]);
        }
        lemma_with_point_at(head, new, i);
        assert(points.insert(i, new) =~= head.insert(i, new).push(points.last()));
    }
}

/// Puts a point after all that are not later than it.
pub fn insert_buffered(
    points: &mut Vec<BufferedSubscriptionPoint>,
    new: BufferedSubscriptionPoint,
)
    requires
        all_buffered_wf(old(points)@),
        new.point.wf(),
    ensures
        final(points)@ == with_buffered(old(points)@, new),
{
    let frontier = new.frontier_time();
    let mut i: usize = points.len();
    let ghost before = points@;
    while i > 0 && points[i - 1].frontier_time().ns > frontier.ns
        invariant
            points@ == before,
            i <= points@.len(),
            all_buffered_wf(points@),
            frontier == new.frontier(),
            forall|j: int| i <= j < points@.len() ==> (#[trigger] points@[j]).frontier().ns
                > frontier.ns,
        decreases i,
    {
        i = i - 1;
    }
    proof {
        lemma_with_buffered_at(before, new, i as int);
    }
    points.insert(i, new);
}

/// Puts a point after all that are not later than it.
pub fn insert_point(points: &mut Vec<SubscriptionDataPoint>, new: SubscriptionDataPoint)
    requires
        all_wf(old(points)@),
        new.wf(),
    ensures
        final(points)@ == with_point(old(points)@, new),
{
    let frontier = new.frontier_time();
    let mut i: usize = points.len();
    let ghost before = points@;
    while i > 0 && points[i - 1].frontier_time().ns > frontier.ns
        invariant
            points@ == before,
            i <= points@.len(),
            all_wf(points@),
            frontier == new.frontier(),
            forall|j: int| i <= j < points@.len() ==> (#[trigger] points@[j]).frontier().ns
                > frontier.ns,
        decreases i,
    {
        i = i - 1;
    }
    proof {
        lemma_with_point_at(before, new, i as int);
    }
    points.insert(i, new);
}

/// Sorts points by their instants, keeping the order of equal ones.
pub fn sort_points(points: Vec<SubscriptionDataPoint>) -> (res: Vec<SubscriptionDataPoint>)
    requires
        all_wf(points@),
    ensures
        res@ == sorted_points(points@),
        all_wf(res@),
{
    let mut out: Vec<SubscriptionDataPoint> = Vec::new();
    let ghost all = points@;
    assert(all.take(0) =~= Seq::<SubscriptionDataPoint>::empty());
    for point in it: points
        invariant
            it.seq() == all,
            all_wf(all),
            all_wf(out@),
            out@ == sorted_points(all.take(it.index() as int)),
    {
        let ghost i = it.index() as int;
        let ghost before = out@;
        proof {
            assert(all[i] == point);
            assert(all.take(i + 1).drop_last() =~= all.take(i));
            assert(all.take(i + 1).last() == point);
            lemma_with_point(before, point);
        }
        insert_point(&mut out, point);
        assert(all_wf(out@)) by {
            assert forall|k: int| 0 <= k < out@.len() implies (#[trigger] out@[k]).wf() by {
                if out@[k] != point {
                    let m = choose|m: int| 0 <= m < before.len() && before[m] == out@[k];
                    assert(before[m].wf());
                }
            }
        }
    }
    assert(all.take(all.len() as int) =~= all);
    out
}

/// Points of one instant keep the order in which they came: one more point is put in behind
/// every point that is not later than it, and no other point moves.
pub proof fn law_points_of_an_instant_keep_their_order(
    points: Seq<SubscriptionDataPoint>,
    new: SubscriptionDataPoint,
)
    ensures
        exists|i: int|
            0 <= i <= points.len() && sorted_points(points.push(new)) == #[trigger] sorted_points(
                points,
            ).insert(i, new) && (forall|j: int|
                0 <= j < i ==> (#[trigger] sorted_points(points)[j]).frontier().ns
                    <= new.frontier().ns) && (forall|j: int|
                i <= j < points.len() ==> (#[trigger] sorted_points(points)[j]).frontier().ns
                    > new.frontier().ns),
{
    lemma_sorted_points(points);
    assert(points.push(new).drop_last() =~= points);
    let s = sorted_points(points);
    let i = lemma_place_in_time(s, new);
    lemma_with_point_at(s, new, i);
    assert(sorted_points(points.push(new)) == s.insert(i, new));
}

/// The place of a point among ordered ones.
proof fn lemma_place_in_time(points: Seq<SubscriptionDataPoint>, new: SubscriptionDataPoint) -> (i:
    int)
    requires
        in_order(points),
    ensures
        0 <= i <= points.len(),
        forall|j: int| 0 <= j < i ==> (#[trigger] points[j]).frontier().ns <= new.frontier().ns,
        forall|j: int|
            i <= j < points.len() ==> (#[trigger] points[j]).frontier().ns > new.frontier().ns,
    decreases points.len(),
{
    if points.len() > 0 && points.last().frontier().ns > new.frontier().ns {
        let head = points.drop_last();
        assert(in_order(head)) by {
            assert forall|a: int, b: int| 0 <= a <= b < head.len() implies (
            #[trigger] head[a]).frontier().ns <= (#[trigger] head[b]).frontier().ns by {
                assert(points[a].frontier().ns <= points[b].frontier().ns);
            }
        }
        let i = lemma_place_in_time(head, new);
        assert forall|j: int| i <= j < points.len() implies (#[trigger] points[j]).frontier().ns
            > new.frontier().ns by {
            if j < head.len() {
                assert(head[j] == points[j]);
            }
        }
        assert forall|j: int| 0 <= j < i implies (#[trigger] points[j]).frontier().ns
            <= new.frontier().ns by {
            assert(head[j] == points[j]);
        }
        i
    } else {
        assert forall|j: int| 0 <= j < points.len() implies (#[trigger] points[j]).frontier().ns
            <= new.frontier().ns by {
            assert(points[j].frontier().ns <= points[points.len() - 1].frontier().ns);
        }
        points.len() as int
    }
}

} // verus!
