//! Merges subscription streams into slices of one instant each.

use crate::slice::{
    empty_slice, last_of, law_slice_holds_every_point, quote_bars_among, row_of, ticks_among,
    trade_bars_among, with_all_data, OfSecurity, Slice, SliceView,
};
use crate::subscription_data::SubscriptionDataPoint;
use crate::subscription_reader::ordering::in_order;
use crate::subscription_reader::stream::{
    received,
    StreamEvent,
    SubscriptionStream,
    SubscriptionStreamMessage,
};
use crate::time::DateTime;
use vstd::prelude::*;

verus! {

/// Synchronizes subscription streams into time-aligned slices.
pub struct SliceSynchronizer {
    pub streams: Vec<SubscriptionStream>,
    pub end: DateTime,
}

/// What the synchronizer does next.
pub enum SyncStep {
    /// Wait for a message on each of these streams in turn, until one has a point.
    AdvanceInTurn(Vec<usize>),
    /// Wait for a message on this stream.
    Advance(usize),
    /// A complete slice.
    Emit(Slice),
    /// Nothing is left within the run.
    Finished,
}

/// Earliest instant at the front of some streams.
pub open spec fn earliest_front(streams: Seq<SubscriptionStream>) -> Option<DateTime>
    decreases streams.len(),
{
    if streams.len() == 0 {
        None
    } else {
        match (earliest_front(streams.drop_last()), streams.last().front()) {
            (Some(a), Some(b)) => if b.ns < a.ns {
                Some(b)
            } else {
                Some(a)
            },
            (None, b) => b,
            (a, None) => a,
        }
    }
}

/// Number of points at the front of a stream that belong to an instant.
pub open spec fn due(points: Seq<SubscriptionDataPoint>, time: DateTime) -> int
    decreases points.len(),
{
    if points.len() > 0 && points[0].frontier() == time {
        1 + due(points.skip(1), time)
    } else {
        0
    }
}

/// The points of all streams that belong to an instant, stream by stream.
pub open spec fn due_points(streams: Seq<SubscriptionStream>, time: DateTime) -> Seq<
    SubscriptionDataPoint,
>
    decreases streams.len(),
{
    if streams.len() == 0 {
        Seq::empty()
    } else {
        due_points(streams.drop_last(), time) + streams.last().pending@.take(
            due(streams.last().pending@, time),
        )
    }
}

/// The stream after the points of an instant were taken.
pub open spec fn taken(before: SubscriptionStream, after: SubscriptionStream, time: DateTime) -> bool {
    &&& after.config == before.config
    &&& after.start == before.start
    &&& after.end == before.end
    &&& after.capacity == before.capacity
    &&& after.watermark == before.watermark
    &&& after.exhausted == before.exhausted
    &&& after.pending@ == before.pending@.skip(due(before.pending@, time))
}

/// Every point that has arrived is later than an instant.
pub open spec fn all_after(streams: Seq<SubscriptionStream>, time: DateTime) -> bool {
    forall|i: int, k: int|
        #![trigger streams[i].pending@[k]]
        0 <= i < streams.len() && 0 <= k < streams[i].pending@.len()
            ==> streams[i].pending@[k].frontier().ns > time.ns
}

/// The points of every stream are in order.
pub open spec fn streams_in_order(streams: Seq<SubscriptionStream>) -> bool {
    forall|i: int| 0 <= i < streams.len() ==> in_order((#[trigger] streams[i]).pending@)
}

proof fn lemma_due(points: Seq<SubscriptionDataPoint>, time: DateTime)
    ensures
        0 <= due(points, time) <= points.len(),
        forall|k: int| 0 <= k < due(points, time) ==> (#[trigger] points[k]).frontier() == time,
        due(points, time) < points.len() ==> points[due(points, time)].frontier() != time,
    decreases points.len(),
{
    if points.len() > 0 && points[0].frontier() == time {
        lemma_due(points.skip(1), time);
        assert forall|k: int| 0 <= k < due(points, time) implies (#[trigger] points[k]).frontier()
            == time by {
            if k > 0 {
                assert(points.skip(1)[k - 1] == points[k]);
            }
        }
    }
}

proof fn lemma_earliest_front(streams: Seq<SubscriptionStream>)
    ensures
        match earliest_front(streams) {
            Some(time) => {
                &&& forall|i: int|
                    0 <= i < streams.len() ==> ((#[trigger] streams[i]).front() matches Some(front)
                        ==> time.ns <= front.ns)
                &&& exists|i: int| 0 <= i < streams.len() && (#[trigger] streams[i]).front()
                    == Some(time)
            },
            None => forall|i: int|
                0 <= i < streams.len() ==> (#[trigger] streams[i]).pending@.len() == 0,
        },
    decreases streams.len(),
{
    if streams.len() > 0 {
        let head = streams.drop_last();
        lemma_earliest_front(head);
        assert forall|i: int| 0 <= i < head.len() implies #[trigger] head[i] == streams[i] by {}
        assert(streams[streams.len() - 1] == streams.last());
        if earliest_front(streams) is Some && earliest_front(head) is Some {
            let i = choose|i: int| 0 <= i < head.len() && (#[trigger] head[i]).front()
                == earliest_front(head);
            assert(streams[i].front() == earliest_front(head));
        }
        assert forall|i: int| 0 <= i < streams.len() implies ({
            let s = #[trigger] streams[i];
            match earliest_front(streams) {
                Some(time) => s.front() matches Some(front) ==> time.ns <= front.ns,
                None => s.pending@.len() == 0,
            }
        }) by {
            if i < head.len() {
                assert(head[i] == streams[i]);
            }
        }
    }
}

/// A slice is emitted only when no stream can still deliver an earlier point,
/// given that a stream delivers points later than its watermark and not before
/// those it has delivered: every stream whose points have all been consumed is
/// either at its end or has promised to deliver later points only.
pub proof fn law_emitted_slice_is_complete(streams: Seq<SubscriptionStream>, time: DateTime, i: int)
    requires
        earliest_front(streams) == Some(time),
        forall|k: int| 0 <= k < streams.len() ==> (#[trigger] streams[k]).ready_for(time),
        0 <= i < streams.len(),
    ensures
        streams[i].exhausted || streams[i].front() is Some || (streams[i].watermark matches Some(w)
            && w.ns > time.ns),
        streams[i].front() matches Some(front) ==> front.ns >= time.ns,
{
    lemma_earliest_front(streams);
    assert(streams[i].ready_for(time));
}

impl SliceSynchronizer {
    pub open spec fn wf(&self) -> bool {
        forall|i: int| 0 <= i < self.streams@.len() ==> (#[trigger] self.streams@[i]).wf()
    }

    pub fn new(streams: Vec<SubscriptionStream>, end: DateTime) -> (res: SliceSynchronizer)
        ensures
            res.streams == streams,
            res.end == end,
    {
        SliceSynchronizer { streams, end }
    }

    pub fn streams(&self) -> (res: &Vec<SubscriptionStream>)
        ensures
            *res == self.streams,
    {
        &self.streams
    }

    pub fn add_stream(&mut self, stream: SubscriptionStream)
        ensures
            final(self).streams@ == old(self).streams@.push(stream),
            final(self).end == old(self).end,
    {
        self.streams.push(stream);
    }

    /// Drops the streams of a subscription; the others keep their order.
    pub fn remove_stream(&mut self, subscription_id: u64)
        ensures
            final(self).streams@ == old(self).streams@.filter(
                |stream: SubscriptionStream| stream.config.unique_id != subscription_id,
            ),
            final(self).end == old(self).end,
    {
        let mut held: Vec<SubscriptionStream> = Vec::new();
        held.append(&mut self.streams);
        let ghost all = old(self).streams@;
        assert(held@ =~= all);
        let ghost keep = |stream: SubscriptionStream| stream.config.unique_id != subscription_id;
        let mut kept: Vec<SubscriptionStream> = Vec::new();
        proof {
            reveal(Seq::filter);
        }
        for stream in it: held
            invariant
                it.seq() == all,
                keep == |stream: SubscriptionStream| stream.config.unique_id != subscription_id,
                kept@ =~= all.take(it.index() as int).filter(keep),
        {
            proof {
                reveal(Seq::filter);
                assert(all.take(it.index() + 1).drop_last() =~= all.take(it.index() as int));
                assert(all.take(it.index() + 1).last() == stream);
            }
            if stream.config.unique_id != subscription_id {
                kept.push(stream);
            }
        }
        assert(all.take(all.len() as int) =~= all);
        self.streams = kept;
    }

    fn candidate(&self) -> (res: Option<DateTime>)
        requires
            self.wf(),
        ensures
            res == earliest_front(self.streams@),
    {
        let mut frontier: Option<DateTime> = None;
        let mut i: usize = 0;
        while i < self.streams.len()
            invariant
                i <= self.streams@.len(),
                self.wf(),
                frontier == earliest_front(self.streams@.take(i as int)),
            decreases self.streams.len() - i,
        {
            proof {
                assert(self.streams@.take(i + 1).drop_last() =~= self.streams@.take(i as int));
                assert(self.streams@.take(i + 1).last() == self.streams@[i as int]);
                assert(self.streams@[i as int].wf());
            }
            if let Some(time) = self.streams[i].front_time() {
                frontier = match frontier {
                    Some(current) => if time.ns < current.ns {
                        Some(time)
                    } else {
                        Some(current)
                    },
                    None => Some(time),
                };
            }
            i = i + 1;
        }
        assert(self.streams@.take(i as int) =~= self.streams@);
        frontier
    }

    fn open_streams(&self) -> (res: Vec<usize>)
        ensures
            forall|i: int|
                0 <= i < res@.len() ==> (#[trigger] res@[i]) < self.streams@.len()
                    && !self.streams@[res@[i] as int].spec_exhausted(),
            forall|i: int, j: int| 0 <= i < j < res@.len() ==> res@[i] < res@[j],
            forall|k: int|
                0 <= k < self.streams@.len() && !(#[trigger] self.streams@[k]).spec_exhausted()
                    ==> res@.contains(k as usize),
    {
        let mut out: Vec<usize> = Vec::new();
        let mut i: usize = 0;
        while i < self.streams.len()
            invariant
                i <= self.streams@.len(),
                forall|k: int|
                    0 <= k < out@.len() ==> (#[trigger] out@[k]) < i
                        && !self.streams@[out@[k] as int].spec_exhausted(),
                forall|a: int, b: int| 0 <= a < b < out@.len() ==> out@[a] < out@[b],
                forall|k: int|
                    0 <= k < i && !(#[trigger] self.streams@[k]).spec_exhausted() ==> out@.contains(
                        k as usize,
                    ),
            decreases self.streams.len() - i,
        {
            let ghost before = out@;
            if !self.streams[i].is_exhausted() {
                proof {
                    crate::subscription_reader::coverage::lemma_push_contains(before, i);
                }
                out.push(i);
            }
            i = i + 1;
        }
        out
    }

    fn first_unready(&self, frontier: DateTime) -> (res: Option<usize>)
        ensures
            match res {
                Some(i) => {
                    &&& i < self.streams@.len()
                    &&& !self.streams@[i as int].ready_for(frontier)
                    &&& forall|k: int| 0 <= k < i ==> (#[trigger] self.streams@[k]).ready_for(frontier)
                },
                None => forall|k: int|
                    0 <= k < self.streams@.len() ==> (#[trigger] self.streams@[k]).ready_for(
                        frontier,
                    ),
            },
    {
        let mut i: usize = 0;
        while i < self.streams.len()
            invariant
                i <= self.streams@.len(),
                forall|k: int| 0 <= k < i ==> (#[trigger] self.streams@[k]).ready_for(frontier),
            decreases self.streams.len() - i,
        {
            if !self.streams[i].is_ready_for(frontier) {
                return Some(i);
            }
            i = i + 1;
        }
        None
    }

    /// Takes the points of an instant off one stream and adds them to a slice.
    #[verifier::loop_isolation(false)]
    fn take_due(&mut self, index: usize, time: DateTime, slice: &mut Slice)
        requires
            old(self).wf(),
            index < old(self).streams@.len(),
        ensures
            final(self).wf(),
            final(self).end == old(self).end,
            final(self).streams@.len() == old(self).streams@.len(),
            forall|k: int|
                0 <= k < old(self).streams@.len() && k != index ==> #[trigger] final(self).streams@[k] == old(self).streams@[k],
            taken(
                old(self).streams@[index as int],
                final(self).streams@[index as int],
                time,
            ),
            final(slice)@ == with_all_data(
                old(slice)@,
                old(self).streams@[index as int].pending@.take(
                    due(old(self).streams@[index as int].pending@, time),
                ),
            ),
    {
        let ghost all = self.streams@[index as int].pending@;
        let ghost start = slice@;
        let ghost total = due(all, time);
        let ghost mut n: int = 0;
        assert(all.skip(0) =~= all);
        assert(all.take(0) =~= Seq::<SubscriptionDataPoint>::empty());
        loop
            invariant
                self.wf(),
                index < self.streams@.len(),
                self.end == old(self).end,
                self.streams@.len() == old(self).streams@.len(),
                forall|k: int|
                    0 <= k < old(self).streams@.len() && k != index ==> #[trigger] self.streams@[k]
                        == old(self).streams@[k],
                0 <= n <= all.len(),
                self.streams@[index as int].pending@ == all.skip(n),
                self.streams@[index as int].config == old(self).streams@[index as int].config,
                self.streams@[index as int].start == old(self).streams@[index as int].start,
                self.streams@[index as int].end == old(self).streams@[index as int].end,
                self.streams@[index as int].capacity == old(self).streams@[index as int].capacity,
                self.streams@[index as int].watermark == old(self).streams@[index as int].watermark,
                self.streams@[index as int].exhausted == old(self).streams@[index as int].exhausted,
                total == n + due(all.skip(n), time),
                slice@ == with_all_data(start, all.take(n)),
            decreases all.len() - n,
        {
            assert(self.streams@[index as int].wf());
            let front = self.streams[index].front_time();
            let ready = match front {
                Some(t) => t == time,
                None => false,
            };
            if !ready {
                assert(due(all.skip(n), time) == 0);
                return ;
            }
            let ghost before = *self;
            let popped = self.streams[index].pop_pending();
            proof {
                assert(all.skip(n)[0] == all[n]);
                assert(all.skip(n).skip(1) =~= all.skip(n + 1));
                assert(all.take(n + 1).drop_last() =~= all.take(n));
                assert(all.take(n + 1).last() == all[n]);
                assert(self.wf()) by {
                    assert forall|i: int| 0 <= i < self.streams@.len() implies (
                    #[trigger] self.streams@[i]).wf() by {
                        if i != index {
                            assert(self.streams@[i] == before.streams@[i]);
                        }
                    }
                }
            }
            if let Some(point) = popped {
                point.add_to_slice(slice);
            }
            proof {
                n = n + 1;
            }
        }
    }

    /// Decides what comes next. The next slice is at the earliest instant at
    /// the front of the streams, once no stream can deliver an earlier point;
    /// it holds every point of that instant, stream by stream.
    pub fn next_step(&mut self) -> (res: SyncStep)
        requires
            old(self).wf(),
        ensures
            final(self).wf(),
            final(self).end == old(self).end,
            final(self).streams@.len() == old(self).streams@.len(),
            match (earliest_front(old(self).streams@), res) {
                (None, SyncStep::AdvanceInTurn(turn)) => {
                    &&& final(self).streams == old(self).streams
                    &&& turn@.len() > 0
                    &&& forall|i: int|
                        0 <= i < turn@.len() ==> (#[trigger] turn@[i]) < old(self).streams@.len()
                            && !old(self).streams@[turn@[i] as int].spec_exhausted()
                    &&& forall|i: int, j: int| 0 <= i < j < turn@.len() ==> turn@[i] < turn@[j]
                    &&& forall|k: int|
                        0 <= k < old(self).streams@.len() && !(#[trigger] old(self).streams@[k]).spec_exhausted() ==> turn@.contains(k as usize)
                },
                (None, SyncStep::Finished) => {
                    &&& final(self).streams == old(self).streams
                    &&& forall|k: int|
                        0 <= k < old(self).streams@.len() ==> (#[trigger] old(self).streams@[k]).spec_exhausted()
                },
                (Some(time), SyncStep::Finished) => {
                    &&& final(self).streams == old(self).streams
                    &&& time.ns > old(self).end.ns
                },
                (Some(time), SyncStep::Advance(i)) => {
                    &&& final(self).streams == old(self).streams
                    &&& time.ns <= old(self).end.ns
                    &&& i < old(self).streams@.len()
                    &&& !old(self).streams@[i as int].ready_for(time)
                    &&& forall|k: int| 0 <= k < i ==> (#[trigger] old(self).streams@[k]).ready_for(time)
                },
                (Some(time), SyncStep::Emit(slice)) => {
                    &&& slice.time == time
                    &&& time.ns <= old(self).end.ns
                    &&& forall|k: int|
                        0 <= k < old(self).streams@.len() ==> (#[trigger] old(self).streams@[k]).ready_for(time)
                    &&& slice@ == with_all_data(
                        empty_slice(time),
                        due_points(old(self).streams@, time),
                    )
                    &&& forall|k: int|
                        0 <= k < old(self).streams@.len() ==> taken(
                            #[trigger] old(self).streams@[k],
                            final(self).streams@[k],
                            time,
                        )
                },
                _ => false,
            },
    {
        let candidate = match self.candidate() {
            Some(time) => time,
            None => {
                let turn = self.open_streams();
                if turn.len() > 0 {
                    return SyncStep::AdvanceInTurn(turn);
                }
                proof {
                    assert forall|k: int| 0 <= k < self.streams@.len() implies (
                    #[trigger] self.streams@[k]).spec_exhausted() by {
                        if !self.streams@[k].spec_exhausted() {
                            assert(turn@.contains(k as usize));
                        }
                    }
                }
                return SyncStep::Finished;
            },
        };
        if candidate.ns > self.end.ns {
            return SyncStep::Finished;
        }
        if let Some(i) = self.first_unready(candidate) {
            return SyncStep::Advance(i);
        }
        let mut slice = Slice::new(candidate);
        let ghost before = self.streams@;
        let n: usize = self.streams.len();
        let mut i: usize = 0;
        assert(before.take(0) =~= Seq::<SubscriptionStream>::empty());
        while i < n
            invariant
                i <= n,
                n == before.len(),
                self.wf(),
                self.end == old(self).end,
                self.streams@.len() == n,
                before == old(self).streams@,
                forall|k: int|
                    0 <= k < i ==> taken(#[trigger] before[k], self.streams@[k], candidate),
                forall|k: int| i <= k < n ==> #[trigger] self.streams@[k] == before[k],
                slice@ == with_all_data(
                    empty_slice(candidate),
                    due_points(before.take(i as int), candidate),
                ),
            decreases n - i,
        {
            let ghost head = due_points(before.take(i as int), candidate);
            let ghost mine = before[i as int].pending@.take(
                due(before[i as int].pending@, candidate),
            );
            let ghost middle = self.streams@;
            self.take_due(i, candidate, &mut slice);
            proof {
                assert(middle[i as int] == before[i as int]);
                lemma_with_all_data(empty_slice(candidate), head, mine);
                assert(before.take(i + 1).drop_last() =~= before.take(i as int));
                assert(before.take(i + 1).last() == before[i as int]);
                assert forall|k: int| 0 <= k < i + 1 implies taken(
                    #[trigger] before[k],
                    self.streams@[k],
                    candidate,
                ) by {
                    if k < i {
                        assert(self.streams@[k] == middle[k]);
                    }
                }
                assert forall|k: int| i + 1 <= k < n implies #[trigger] self.streams@[k]
                    == before[k] by {
                    assert(self.streams@[k] == middle[k]);
                }
            }
            i = i + 1;
        }
        assert(before.take(n as int) =~= before);
        proof {
            lemma_data_keeps_time(empty_slice(candidate), due_points(before, candidate));
            assert(slice@.time == candidate);
        }
        SyncStep::Emit(slice)
    }
}

proof fn lemma_data_keeps_time(slice: SliceView, points: Seq<SubscriptionDataPoint>)
    ensures
        with_all_data(slice, points).time == slice.time,
    decreases points.len(),
{
    if points.len() > 0 {
        lemma_data_keeps_time(slice, points.drop_last());
    }
}

proof fn lemma_with_all_data(
    slice: SliceView,
    a: Seq<SubscriptionDataPoint>,
    b: Seq<SubscriptionDataPoint>,
)
    ensures
        with_all_data(with_all_data(slice, a), b) == with_all_data(slice, a + b),
    decreases b.len(),
{
    if b.len() == 0 {
        assert(a + b =~= a);
    } else {
        lemma_with_all_data(slice, a, b.drop_last());
        assert((a + b).drop_last() =~= a + b.drop_last());
        assert((a + b).last() == b.last());
    }
}

/// No data is seen before its instant: everything that goes into a slice becomes
/// known exactly at the time of the slice, a custom row with an end time at that
/// end time.
pub proof fn law_no_data_before_its_instant(streams: Seq<SubscriptionStream>, time: DateTime, k: int)
    requires
        0 <= k < due_points(streams, time).len(),
    ensures
        due_points(streams, time)[k].frontier() == time,
        due_points(streams, time)[k] matches SubscriptionDataPoint::CustomData { point, .. } ==> (
        point.end_time matches Some(end) ==> end == time),
    decreases streams.len(),
{
    let head = due_points(streams.drop_last(), time);
    let points = streams.last().pending@;
    lemma_due(points, time);
    if k < head.len() {
        law_no_data_before_its_instant(streams.drop_last(), time, k);
        assert(due_points(streams, time)[k] == head[k]);
    } else {
        assert(due_points(streams, time)[k] == points[k - head.len()]);
    }
}

/// Slices move forward. Where every stream holds its points in order and only
/// points later than `last`, the next slice is later than `last`, and what
/// remains after it is later than the slice.
pub proof fn law_slices_move_forward(
    before: Seq<SubscriptionStream>,
    after: Seq<SubscriptionStream>,
    time: DateTime,
    last: DateTime,
)
    requires
        streams_in_order(before),
        all_after(before, last),
        earliest_front(before) == Some(time),
        after.len() == before.len(),
        forall|k: int| 0 <= k < before.len() ==> taken(#[trigger] before[k], after[k], time),
    ensures
        time.ns > last.ns,
        all_after(after, time),
        streams_in_order(after),
{
    lemma_earliest_front(before);
    let w = choose|i: int| 0 <= i < before.len() && (#[trigger] before[i]).front() == Some(time);
    assert(before[w].pending@[0].frontier().ns > last.ns);
    assert forall|i: int, k: int|
        #![trigger after[i].pending@[k]]
        0 <= i < after.len() && 0 <= k < after[i].pending@.len() implies after[i].pending@[k].frontier().ns
        > time.ns by {
        assert(taken(before[i], after[i], time));
        let points = before[i].pending@;
        let d = due(points, time);
        lemma_due(points, time);
        assert(after[i].pending@[k] == points[d + k]);
        assert(in_order(points));
        assert(points[d].frontier() != time);
        assert(before[i].front() is Some);
        assert(points[0].frontier().ns <= points[d].frontier().ns);
        assert(points[d].frontier().ns <= points[d + k].frontier().ns);
    }
    assert forall|i: int| 0 <= i < after.len() implies in_order((#[trigger] after[i]).pending@) by {
        assert(taken(before[i], after[i], time));
        let points = before[i].pending@;
        let d = due(points, time);
        lemma_due(points, time);
        assert(in_order(points));
        assert forall|a: int, b: int| 0 <= a <= b < after[i].pending@.len() implies (
        #[trigger] after[i].pending@[a]).frontier().ns <= (
        #[trigger] after[i].pending@[b]).frontier().ns by {
            assert(after[i].pending@[a] == points[d + a]);
            assert(after[i].pending@[b] == points[d + b]);
        }
    }
}

/// One step of a run.
pub enum RunStep {
    /// The channel of a stream gave something.
    Arrival { stream: usize, event: StreamEvent },
    /// A slice was emitted.
    Emission { time: DateTime },
}

/// Instant of the last point that arrived on a stream.
pub open spec fn delivered(steps: Seq<RunStep>, stream: int) -> Option<DateTime>
    decreases steps.len(),
{
    if steps.len() == 0 {
        None
    } else {
        match steps.last() {
            RunStep::Arrival {
                stream: at,
                event: StreamEvent::Message(SubscriptionStreamMessage::Point(point)),
            } => if at == stream {
                Some(point.frontier())
            } else {
                delivered(steps.drop_last(), stream)
            },
            _ => delivered(steps.drop_last(), stream),
        }
    }
}

/// Instant of the last slice.
pub open spec fn last_emitted(steps: Seq<RunStep>) -> Option<DateTime>
    decreases steps.len(),
{
    if steps.len() == 0 {
        None
    } else {
        match steps.last() {
            RunStep::Emission { time } => Some(time),
            _ => last_emitted(steps.drop_last()),
        }
    }
}

/// What a producer promises: after its end no point comes, none at or before its
/// watermark, and none before one that it has delivered.
pub open spec fn is_promised(
    stream: SubscriptionStream,
    delivered: Option<DateTime>,
    event: StreamEvent,
) -> bool {
    event matches StreamEvent::Message(SubscriptionStreamMessage::Point(point)) ==> {
        &&& !stream.exhausted
        &&& stream.watermark matches Some(watermark) ==> point.frontier().ns > watermark.ns
        &&& delivered matches Some(time) ==> point.frontier().ns >= time.ns
    }
}

/// One step of a run up to `end`: one stream receives what its channel gave, or
/// the slice that is due is emitted, for which no stream is waited for.
pub open spec fn run_step(
    before: Seq<SubscriptionStream>,
    step: RunStep,
    after: Seq<SubscriptionStream>,
    end: DateTime,
) -> bool {
    &&& after.len() == before.len()
    &&& match step {
        RunStep::Arrival { stream, event } => {
            &&& stream < before.len()
            &&& received(before[stream as int], event, after[stream as int])
            &&& forall|k: int|
                0 <= k < before.len() && k != stream ==> #[trigger] after[k] == before[k]
        },
        RunStep::Emission { time } => {
            &&& earliest_front(before) == Some(time)
            &&& time.ns <= end.ns
            &&& forall|k: int| 0 <= k < before.len() ==> (#[trigger] before[k]).ready_for(time)
            &&& forall|k: int|
                0 <= k < before.len() ==> taken(#[trigger] before[k], after[k], time)
        },
    }
}

/// A run up to `end` that starts with nothing waiting on its streams, where every
/// producer keeps its promise. `states[n]` are the streams before step `n`.
pub open spec fn is_run(
    states: Seq<Seq<SubscriptionStream>>,
    steps: Seq<RunStep>,
    end: DateTime,
) -> bool {
    &&& states.len() == steps.len() + 1
    &&& forall|k: int| 0 <= k < states[0].len() ==> (#[trigger] states[0][k]).pending@.len() == 0
    &&& forall|n: int|
        0 <= n < steps.len() ==> run_step(states[n], #[trigger] steps[n], states[n + 1], end)
    &&& forall|n: int|
        0 <= n < steps.len() ==> (#[trigger] steps[n] matches RunStep::Arrival { stream, event }
            ==> is_promised(
            states[n][stream as int],
            delivered(steps.take(n), stream as int),
            event,
        ))
}

/// What holds of each stream throughout a run: its points wait in order, the
/// last of them is the last that was delivered, none is earlier than the last
/// slice, and none to come is.
spec fn keeps_pace(
    stream: SubscriptionStream,
    delivered: Option<DateTime>,
    last: Option<DateTime>,
) -> bool {
    &&& in_order(stream.pending@)
    &&& stream.pending@.len() > 0 ==> delivered == Some(stream.pending@.last().frontier())
    &&& last matches Some(last) ==> {
        &&& forall|k: int|
            0 <= k < stream.pending@.len() ==> (#[trigger] stream.pending@[k]).frontier().ns
                >= last.ns
        &&& {
            ||| stream.exhausted
            ||| stream.watermark matches Some(watermark) && watermark.ns > last.ns
            ||| delivered matches Some(time) && time.ns >= last.ns
        }
    }
}

proof fn lemma_arrival_keeps_pace(
    before: SubscriptionStream,
    event: StreamEvent,
    after: SubscriptionStream,
    seen: Option<DateTime>,
    last: Option<DateTime>,
)
    requires
        keeps_pace(before, seen, last),
        received(before, event, after),
        is_promised(before, seen, event),
    ensures
        keeps_pace(
            after,
            match event {
                StreamEvent::Message(SubscriptionStreamMessage::Point(point)) => Some(
                    point.frontier(),
                ),
                _ => seen,
            },
            last,
        ),
{
    if let StreamEvent::Message(SubscriptionStreamMessage::Point(point)) = event {
        let points = before.pending@;
        assert(after.pending@.last() == point);
        assert forall|i: int, j: int| 0 <= i <= j < after.pending@.len() implies (
        #[trigger] after.pending@[i]).frontier().ns <= (
        #[trigger] after.pending@[j]).frontier().ns by {
            if i < points.len() {
                assert(after.pending@[i] == points[i]);
                assert(points[i].frontier().ns <= points[points.len() - 1].frontier().ns);
            }
            if j < points.len() {
                assert(after.pending@[j] == points[j]);
            }
        }
        if let Some(time) = last {
            assert forall|k: int| 0 <= k < after.pending@.len() implies (
            #[trigger] after.pending@[k]).frontier().ns >= time.ns by {
                if k < points.len() {
                    assert(after.pending@[k] == points[k]);
                }
            }
        }
    }
}

proof fn lemma_emission_keeps_pace(
    before: SubscriptionStream,
    after: SubscriptionStream,
    time: DateTime,
    seen: Option<DateTime>,
    last: Option<DateTime>,
)
    requires
        keeps_pace(before, seen, last),
        before.front() matches Some(front) ==> time.ns <= front.ns,
        before.ready_for(time),
        taken(before, after, time),
    ensures
        keeps_pace(after, seen, Some(time)),
{
    let points = before.pending@;
    let d = due(points, time);
    lemma_due(points, time);
    assert forall|a: int, b: int| 0 <= a <= b < after.pending@.len() implies (
    #[trigger] after.pending@[a]).frontier().ns <= (
    #[trigger] after.pending@[b]).frontier().ns by {
        assert(after.pending@[a] == points[d + a]);
        assert(after.pending@[b] == points[d + b]);
    }
    assert forall|k: int| 0 <= k < after.pending@.len() implies (
    #[trigger] after.pending@[k]).frontier().ns >= time.ns by {
        assert(after.pending@[k] == points[d + k]);
        assert(points[0].frontier().ns <= points[d + k].frontier().ns);
    }
    if points.len() > 0 {
        assert(points[0].frontier().ns <= points[points.len() - 1].frontier().ns);
    }
    if after.pending@.len() > 0 {
        assert(after.pending@.last() == points.last());
    }
}

/// Every stream keeps pace with a run.
spec fn all_keep_pace(streams: Seq<SubscriptionStream>, steps: Seq<RunStep>) -> bool {
    forall|k: int|
        0 <= k < streams.len() ==> keeps_pace(
            #[trigger] streams[k],
            delivered(steps, k),
            last_emitted(steps),
        )
}

proof fn lemma_emission(
    before: Seq<SubscriptionStream>,
    steps: Seq<RunStep>,
    time: DateTime,
    after: Seq<SubscriptionStream>,
    end: DateTime,
)
    requires
        all_keep_pace(before, steps),
        run_step(before, RunStep::Emission { time }, after, end),
    ensures
        all_keep_pace(after, steps.push(RunStep::Emission { time })),
        last_emitted(steps) matches Some(last) ==> last.ns <= time.ns,
{
    let step = RunStep::Emission { time };
    let next = steps.push(step);
    assert(next.drop_last() =~= steps);
    let last = last_emitted(steps);
    lemma_earliest_front(before);
    assert forall|k: int| 0 <= k < after.len() implies keeps_pace(
        #[trigger] after[k],
        delivered(next, k),
        last_emitted(next),
    ) by {
        assert(keeps_pace(before[k], delivered(steps, k), last));
        assert(taken(before[k], after[k], time));
        lemma_emission_keeps_pace(before[k], after[k], time, delivered(steps, k), last);
    }
    let w = choose|i: int| 0 <= i < before.len() && (#[trigger] before[i]).front() == Some(time);
    assert(keeps_pace(before[w], delivered(steps, w), last));
    assert(before[w].pending@[0].frontier() == time);
}

proof fn lemma_arrival(
    before: Seq<SubscriptionStream>,
    steps: Seq<RunStep>,
    stream: usize,
    event: StreamEvent,
    after: Seq<SubscriptionStream>,
    end: DateTime,
)
    requires
        all_keep_pace(before, steps),
        run_step(before, RunStep::Arrival { stream, event }, after, end),
        is_promised(before[stream as int], delivered(steps, stream as int), event),
    ensures
        all_keep_pace(after, steps.push(RunStep::Arrival { stream, event })),
        last_emitted(steps.push(RunStep::Arrival { stream, event })) == last_emitted(steps),
{
    let next = steps.push(RunStep::Arrival { stream, event });
    assert(next.drop_last() =~= steps);
    let last = last_emitted(steps);
    assert forall|k: int| 0 <= k < after.len() implies keeps_pace(
        #[trigger] after[k],
        delivered(next, k),
        last_emitted(next),
    ) by {
        assert(keeps_pace(before[k], delivered(steps, k), last));
        if k == stream {
            lemma_arrival_keeps_pace(before[k], event, after[k], delivered(steps, k), last);
        }
    }
}

proof fn lemma_run(
    states: Seq<Seq<SubscriptionStream>>,
    steps: Seq<RunStep>,
    end: DateTime,
    n: int,
)
    requires
        is_run(states, steps, end),
        0 <= n <= steps.len(),
    ensures
        all_keep_pace(states[n], steps.take(n)),
        forall|a: int|
            0 <= a < n ==> (#[trigger] steps[a] matches RunStep::Emission { time } ==> (
            last_emitted(steps.take(n)) matches Some(last) && time.ns <= last.ns)),
    decreases n,
{
    if n > 0 {
        let head = steps.take(n - 1);
        lemma_run(states, steps, end, n - 1);
        let step = steps[n - 1];
        assert(steps.take(n) =~= head.push(step));
        assert(run_step(states[n - 1], step, states[n - 1 + 1], end));
        match step {
            RunStep::Emission { time } => {
                lemma_emission(states[n - 1], head, time, states[n], end);
            },
            RunStep::Arrival { stream, event } => {
                lemma_arrival(states[n - 1], head, stream, event, states[n], end);
            },
        }
    } else {
        assert(steps.take(0) =~= Seq::<RunStep>::empty());
        assert forall|k: int| 0 <= k < states[0].len() implies keeps_pace(
            #[trigger] states[0][k],
            delivered(steps.take(0), k),
            last_emitted(steps.take(0)),
        ) by {}
    }
}

/// Slices never go back, whatever arrives between them. In a run whose producers
/// keep their promise a later slice is at no earlier instant than one before it,
/// and no slice is after the end of the run; what goes into a slice becomes known
/// at the very instant of the slice.
pub proof fn law_slices_never_go_back(
    states: Seq<Seq<SubscriptionStream>>,
    steps: Seq<RunStep>,
    end: DateTime,
    a: int,
    b: int,
    earlier: DateTime,
    later: DateTime,
)
    requires
        is_run(states, steps, end),
        0 <= a <= b < steps.len(),
        steps[a] == (RunStep::Emission { time: earlier }),
        steps[b] == (RunStep::Emission { time: later }),
    ensures
        earlier.ns <= later.ns <= end.ns,
        forall|k: int|
            0 <= k < due_points(states[b], later).len() ==> (#[trigger] due_points(
                states[b],
                later,
            )[k]).frontier() == later,
{
    lemma_run(states, steps, end, b + 1);
    assert(steps.take(b + 1).last() == steps[b]);
    assert(run_step(states[b], steps[b], states[b + 1], end));
    assert forall|k: int| 0 <= k < due_points(states[b], later).len() implies (
    #[trigger] due_points(states[b], later)[k]).frontier() == later by {
        law_no_data_before_its_instant(states[b], later, k);
    }
}

/// The points of a slice are all the points of its instant. Where every stream
/// holds its points in order and none is before `time`, a point that waits on a
/// stream is taken if and only if it becomes known at `time`, and every other one
/// stays.
pub proof fn law_all_points_of_an_instant_are_taken(
    before: Seq<SubscriptionStream>,
    after: Seq<SubscriptionStream>,
    time: DateTime,
    i: int,
    k: int,
)
    requires
        streams_in_order(before),
        earliest_front(before) == Some(time),
        after.len() == before.len(),
        forall|s: int| 0 <= s < before.len() ==> taken(#[trigger] before[s], after[s], time),
        0 <= i < before.len(),
        0 <= k < before[i].pending@.len(),
    ensures
        before[i].pending@[k].frontier() == time ==> due_points(before, time).contains(
            before[i].pending@[k],
        ),
        before[i].pending@[k].frontier() != time ==> after[i].pending@.contains(
            before[i].pending@[k],
        ),
        forall|p: SubscriptionDataPoint| #[trigger]
            after[i].pending@.contains(p) ==> p.frontier().ns > time.ns,
{
    let points = before[i].pending@;
    let d = due(points, time);
    assert(taken(before[i], after[i], time));
    assert(in_order(points));
    lemma_due(points, time);
    lemma_earliest_front(before);
    assert(before[i].front() is Some);
    assert(points[0].frontier().ns >= time.ns);
    if points[k].frontier() == time {
        if k >= d {
            assert(points[d].frontier().ns <= points[k].frontier().ns);
            assert(points[0].frontier().ns <= points[d].frontier().ns);
        }
        assert(points.take(d)[k] == points[k]);
        lemma_due_of_stream(before, time, i, points[k]);
    } else {
        if k < d {
            assert(points[k].frontier() == time);
        }
        assert(after[i].pending@[k - d] == points[k]);
    }
    assert forall|p: SubscriptionDataPoint| #[trigger]
        after[i].pending@.contains(p) implies p.frontier().ns > time.ns by {
        let m = choose|m: int| 0 <= m < after[i].pending@.len() && after[i].pending@[m] == p;
        assert(after[i].pending@[m] == points[d + m]);
        assert(points[d].frontier().ns <= points[d + m].frontier().ns);
        assert(points[0].frontier().ns <= points[d].frontier().ns);
    }
}

proof fn lemma_due_of_stream(
    streams: Seq<SubscriptionStream>,
    time: DateTime,
    i: int,
    point: SubscriptionDataPoint,
)
    requires
        0 <= i < streams.len(),
        streams[i].pending@.take(due(streams[i].pending@, time)).contains(point),
    ensures
        due_points(streams, time).contains(point),
    decreases streams.len(),
{
    let head = due_points(streams.drop_last(), time);
    let mine = streams.last().pending@.take(due(streams.last().pending@, time));
    let all = due_points(streams, time);
    if i < streams.len() - 1 {
        assert(streams.drop_last()[i] == streams[i]);
        lemma_due_of_stream(streams.drop_last(), time, i, point);
        let m = choose|m: int| 0 <= m < head.len() && head[m] == point;
        assert(all[m] == point);
    } else {
        let m = choose|m: int| 0 <= m < mine.len() && mine[m] == point;
        assert(all[head.len() + m] == point);
    }
}

/// The slice that is emitted is complete and holds nothing else: the trade bar and
/// the quote bar of a security are the last of its bars among the points of the
/// instant, and all the ticks of the instant are there.
pub proof fn law_emitted_slice_holds_its_instant(
    streams: Seq<SubscriptionStream>,
    time: DateTime,
    slice: SliceView,
    sid: u64,
)
    requires
        slice == with_all_data(empty_slice(time), due_points(streams, time)),
    ensures
        slice.time == time,
        row_of(slice.bars, sid) == last_of(trade_bars_among(due_points(streams, time)), sid),
        row_of(slice.quote_bars, sid) == last_of(
            quote_bars_among(due_points(streams, time)),
            sid,
        ),
        slice.ticks == ticks_among(due_points(streams, time)),
        row_of(slice.bars, sid) matches Some(bar) ==> bar.end_time == time && bar.symbol.sid == sid,
        row_of(slice.quote_bars, sid) matches Some(bar) ==> bar.end_time == time && bar.symbol.sid
            == sid,
{
    let points = due_points(streams, time);
    law_slice_holds_every_point(time, points, sid);
    reveal(Seq::filter);
    if let Some(bar) = row_of(slice.bars, sid) {
        lemma_last_of(trade_bars_among(points), sid);
        let m = choose|m: int|
            0 <= m < trade_bars_among(points).len() && trade_bars_among(points)[m] == bar;
        let keep = |p: SubscriptionDataPoint| p is TradeBar;
        crate::subscription_reader::coverage::lemma_filter_index(points, keep, m);
        let j = choose|j: int| 0 <= j < points.len() && points[j] == points.filter(keep)[m];
        law_no_data_before_its_instant(streams, time, j);
    }
    if let Some(bar) = row_of(slice.quote_bars, sid) {
        lemma_last_of(quote_bars_among(points), sid);
        let m = choose|m: int|
            0 <= m < quote_bars_among(points).len() && quote_bars_among(points)[m] == bar;
        let keep = |p: SubscriptionDataPoint| p is QuoteBar;
        crate::subscription_reader::coverage::lemma_filter_index(points, keep, m);
        let j = choose|j: int| 0 <= j < points.len() && points[j] == points.filter(keep)[m];
        law_no_data_before_its_instant(streams, time, j);
    }
}

proof fn lemma_last_of<T: OfSecurity>(rows: Seq<T>, sid: u64)
    ensures
        last_of(rows, sid) matches Some(row) ==> rows.contains(row) && row.security() == sid,
    decreases rows.len(),
{
    if rows.len() > 0 {
        if rows.last().security() == sid {
            assert(rows[rows.len() - 1] == rows.last());
        } else {
            lemma_last_of(rows.drop_last(), sid);
            if let Some(row) = last_of(rows.drop_last(), sid) {
                let m = choose|m: int|
                    0 <= m < rows.drop_last().len() && rows.drop_last()[m] == row;
                assert(rows[m] == row);
            }
        }
    }
}

} // verus!
