//! Consumer side of a subscription: points that have arrived and the instant up
//! to which no more will.

use crate::model::SubscriptionDataConfig;
use crate::subscription_data::SubscriptionDataPoint;
use crate::subscription_reader::ordering::all_wf;
use crate::time::DateTime;
use std::collections::VecDeque;
use vstd::prelude::*;

verus! {

/// What a producer sends.
pub enum SubscriptionStreamMessage {
    Point(SubscriptionDataPoint),
    /// No point up to this instant will follow.
    Watermark(DateTime),
}

/// What the channel from the producer gave.
pub enum StreamEvent {
    Message(SubscriptionStreamMessage),
    /// The producer failed.
    Failed,
    /// The producer has gone.
    Closed,
}

/// What a stream needs before its consumer can go on.
#[derive(Clone, Copy, Debug, PartialEq, Eq, Structural)]
pub enum StreamNeed {
    /// Nothing: there is a point, or none will come.
    Ready,
    /// The next message of the producer.
    Message,
}

/// Points of one subscription that have arrived and are not consumed.
pub struct SubscriptionStream {
    pub config: SubscriptionDataConfig,
    /// Period that the producer of the stream reads.
    pub start: DateTime,
    pub end: DateTime,
    /// Messages that may be on their way from the producer.
    pub capacity: usize,
    pub pending: VecDeque<SubscriptionDataPoint>,
    pub watermark: Option<DateTime>,
    pub exhausted: bool,
}

/// What a stream becomes when its channel gives something: a point joins those
/// that have arrived, a watermark never falls, and after a failure or the end of
/// the channel no more is expected.
pub open spec fn received(
    before: SubscriptionStream,
    event: StreamEvent,
    after: SubscriptionStream,
) -> bool {
    &&& after.config == before.config
    &&& after.start == before.start
    &&& after.end == before.end
    &&& after.capacity == before.capacity
    &&& match event {
        StreamEvent::Message(SubscriptionStreamMessage::Point(point)) => {
            &&& after.pending@ == before.pending@.push(point)
            &&& after.watermark == before.watermark
            &&& after.exhausted == before.exhausted
        },
        StreamEvent::Message(SubscriptionStreamMessage::Watermark(watermark)) => {
            &&& after.pending@ == before.pending@
            &&& after.watermark == SubscriptionStream::raised(before.watermark, watermark)
            &&& after.exhausted == before.exhausted
        },
        _ => {
            &&& after.pending@ == before.pending@
            &&& after.watermark == before.watermark
            &&& after.exhausted
        },
    }
}

impl SubscriptionStream {
    pub open spec fn wf(&self) -> bool {
        all_wf(self.pending@)
    }

    /// A stream of the data of a subscription over a period, through a channel
    /// of some capacity.
    pub fn new(
        config: SubscriptionDataConfig,
        start: DateTime,
        end: DateTime,
        capacity: usize,
    ) -> (res: SubscriptionStream)
        ensures
            res.wf(),
            res.config == config,
            res.start == start,
            res.end == end,
            res.capacity == capacity,
            res.pending@.len() == 0,
            res.watermark is None,
            !res.exhausted,
    {
        SubscriptionStream {
            config,
            start,
            end,
            capacity,
            pending: VecDeque::new(),
            watermark: None,
            exhausted: false,
        }
    }

    /// Instant of the next point.
    pub open spec fn front(&self) -> Option<DateTime> {
        if self.pending@.len() > 0 {
            Some(self.pending@[0].frontier())
        } else {
            None
        }
    }

    pub fn config(&self) -> (res: &SubscriptionDataConfig)
        ensures
            *res == self.config,
    {
        &self.config
    }

    pub fn peek(&self) -> (res: Option<&SubscriptionDataPoint>)
        ensures
            res == (if self.pending@.len() > 0 {
                Some(&self.pending@[0])
            } else {
                None
            }),
    {
        if self.pending.len() > 0 {
            Some(&self.pending[0])
        } else {
            None
        }
    }

    /// Instant of the next point.
    pub fn front_time(&self) -> (res: Option<DateTime>)
        requires
            self.wf(),
        ensures
            res == self.front(),
    {
        if self.pending.len() > 0 {
            assert(self.pending@[0].wf());
            Some(self.pending[0].frontier_time())
        } else {
            None
        }
    }

    pub open spec fn spec_exhausted(&self) -> bool {
        self.exhausted && self.pending@.len() == 0
    }

    pub fn is_exhausted(&self) -> (res: bool)
        ensures
            res == self.spec_exhausted(),
    {
        self.exhausted && self.pending.len() == 0
    }

    /// Whether a slice at `frontier` need not wait for this stream: a point has
    /// arrived, none will come, or none will come up to that instant.
    pub open spec fn ready_for(&self, frontier: DateTime) -> bool {
        ||| self.exhausted
        ||| self.pending@.len() > 0
        ||| self.watermark matches Some(watermark) && watermark.ns > frontier.ns
    }

    pub fn is_ready_for(&self, frontier: DateTime) -> (res: bool)
        ensures
            res == self.ready_for(frontier),
    {
        self.exhausted || self.pending.len() > 0 || match self.watermark {
            Some(watermark) => watermark.ns > frontier.ns,
            None => false,
        }
    }

    /// What the stream needs before its consumer can go on.
    pub fn need(&self) -> (res: StreamNeed)
        ensures
            res == (if self.pending@.len() > 0 || self.exhausted {
                StreamNeed::Ready
            } else {
                StreamNeed::Message
            }),
    {
        if self.pending.len() > 0 || self.exhausted {
            StreamNeed::Ready
        } else {
            StreamNeed::Message
        }
    }

    /// The later of two watermarks.
    pub open spec fn raised(current: Option<DateTime>, watermark: DateTime) -> Option<DateTime> {
        match current {
            Some(time) => if watermark.ns > time.ns {
                Some(watermark)
            } else {
                Some(time)
            },
            None => Some(watermark),
        }
    }

    /// Takes in a message: a point joins those that have arrived, a watermark
    /// never falls.
    pub fn handle_message(&mut self, message: SubscriptionStreamMessage)
        requires
            old(self).wf(),
            message matches SubscriptionStreamMessage::Point(point) ==> point.wf(),
        ensures
            final(self).wf(),
            received(*old(self), StreamEvent::Message(message), *final(self)),
    {
        match message {
            SubscriptionStreamMessage::Point(point) => {
                self.pending.push_back(point);
            },
            SubscriptionStreamMessage::Watermark(watermark) => {
                let raise = match self.watermark {
                    Some(current) => watermark.ns > current.ns,
                    None => true,
                };
                if raise {
                    self.watermark = Some(watermark);
                }
            },
        }
    }

    /// Takes in what the channel gave, and tells whether the producer failed.
    /// After a failure or the end of the channel no more is expected.
    pub fn handle_event(&mut self, event: StreamEvent) -> (failed: bool)
        requires
            old(self).wf(),
            event matches StreamEvent::Message(SubscriptionStreamMessage::Point(point))
                ==> point.wf(),
        ensures
            final(self).wf(),
            failed == (event is Failed),
            received(*old(self), event, *final(self)),
    {
        match event {
            StreamEvent::Message(message) => {
                self.handle_message(message);
                false
            },
            StreamEvent::Failed => {
                self.exhausted = true;
                true
            },
            StreamEvent::Closed => {
                self.exhausted = true;
                false
            },
        }
    }

    pub fn pop_pending(&mut self) -> (res: Option<SubscriptionDataPoint>)
        requires
            old(self).wf(),
        ensures
            final(self).wf(),
            final(self).config == old(self).config,
            final(self).start == old(self).start,
            final(self).end == old(self).end,
            final(self).capacity == old(self).capacity,
            final(self).watermark == old(self).watermark,
            final(self).exhausted == old(self).exhausted,
            if old(self).pending@.len() > 0 {
                &&& res == Some(old(self).pending@[0])
                &&& final(self).pending@ == old(self).pending@.skip(1)
            } else {
                &&& res is None
                &&& final(self).pending@ == old(self).pending@
            },
    {
        let ghost before = self.pending@;
        let res = self.pending.pop_front();
        proof {
            if before.len() > 0 {
                assert(self.pending@ =~= before.skip(1));
                assert forall|i: int| 0 <= i < self.pending@.len() implies (
                #[trigger] self.pending@[i]).wf() by {
                    assert(before[i + 1].wf());
                }
            } else {
                assert(self.pending@ =~= before);
            }
        }
        res
    }
}

/// A point that arrives waits behind all that have arrived; nothing that waits is lost, and
/// a message neither ends nor restarts a stream. The end of the channel, or a failure, ends
/// it and loses nothing that waits.
pub proof fn law_arrivals_wait_in_order(
    before: SubscriptionStream,
    event: StreamEvent,
    after: SubscriptionStream,
)
    requires
        received(before, event, after),
    ensures
        after.config == before.config,
        after.start == before.start,
        after.end == before.end,
        event matches StreamEvent::Message(SubscriptionStreamMessage::Point(point)) ==> {
            &&& after.pending@.len() == before.pending@.len() + 1
            &&& after.pending@.last() == point
            &&& after.pending@.drop_last() == before.pending@
            &&& after.exhausted == before.exhausted
            &&& after.watermark == before.watermark
        },
        event matches StreamEvent::Message(SubscriptionStreamMessage::Watermark(time)) ==> {
            &&& after.pending@ == before.pending@
            &&& after.exhausted == before.exhausted
            &&& after.watermark matches Some(reached) && reached.ns >= time.ns && (reached == time
                || before.watermark == Some(reached))
            &&& before.watermark matches Some(old_time) ==> (after.watermark matches Some(reached)
                && reached.ns >= old_time.ns)
        },
        event is Failed || event is Closed ==> after.exhausted && after.pending@ == before.pending@
            && after.watermark == before.watermark,
{
    if let StreamEvent::Message(SubscriptionStreamMessage::Point(point)) = event {
        assert(after.pending@.drop_last() =~= before.pending@);
    }
}

/// A stream is waited for exactly as long as a point up to the instant may still come:
/// nothing waits on it, it has not ended, and it has not promised to be past the instant.
pub proof fn law_streams_are_waited_for(stream: SubscriptionStream, time: DateTime)
    ensures
        stream.exhausted ==> stream.ready_for(time),
        stream.pending@.len() > 0 ==> stream.ready_for(time),
        !stream.exhausted && stream.pending@.len() == 0 && stream.watermark is None
            ==> !stream.ready_for(time),
        !stream.exhausted && stream.pending@.len() == 0 && (stream.watermark matches Some(w)
            && w.ns <= time.ns) ==> !stream.ready_for(time),
        (stream.watermark matches Some(w) && w.ns > time.ns) ==> stream.ready_for(time),
        stream.spec_exhausted() <==> stream.exhausted && stream.pending@.len() == 0,
        stream.pending@.len() > 0 ==> stream.front() == Some(stream.pending@[0].frontier()),
        stream.pending@.len() == 0 ==> stream.front() is None,
{
}

} // verus!
