//! Interpretation modules: how the frames of one session are read.

use vstd::prelude::*;

use crate::frame::Frame;
use crate::message::PickRule;
use crate::pick::buffer::JitterStats;
use crate::pick::manager::{ChannelKind, ChannelModel, StreamChannel};

verus! {

/// What an interpretation module is, as a mathematical value.
pub enum InterpreterModel {
    Realtime(ChannelModel),
    Strict {
        /// Frames not handed out yet.
        queue: Seq<Frame>,
        /// The number that the next numbered frame must have.
        next_seq: Option<u32>,
        /// Frames dropped as out of order or duplicate.
        dropped: u64,
    },
}

impl InterpreterModel {
    /// The rule that the module implements.
    pub open spec fn rule(self) -> PickRule {
        match self {
            InterpreterModel::Realtime(_) => PickRule::Realtime,
            InterpreterModel::Strict { .. } => PickRule::StrictOrdered,
        }
    }

    pub open spec fn wf(self) -> bool {
        match self {
            InterpreterModel::Realtime(c) => c.wf(),
            InterpreterModel::Strict { .. } => true,
        }
    }

    pub open spec fn can_push(self) -> bool {
        match self {
            InterpreterModel::Realtime(c) => c.can_push(),
            InterpreterModel::Strict { dropped, .. } => dropped < u64::MAX,
        }
    }

    pub open spec fn can_poll(self) -> bool {
        match self {
            InterpreterModel::Realtime(c) => c.can_poll(),
            InterpreterModel::Strict { .. } => true,
        }
    }

    /// The state after a frame was pushed. Under strict order the first numbered frame sets the
    /// count, and any other must have the next number, or it is dropped. A frame numbered zero
    /// carries no number and passes, unless zero is the next number: then it counts like any other.
    pub open spec fn after_push(self, frame: Frame, now: u64) -> InterpreterModel {
        match self {
            InterpreterModel::Realtime(c) => InterpreterModel::Realtime(c.after_push(frame, now)),
            InterpreterModel::Strict { queue, next_seq, dropped } => {
                let seq = frame.header.seq;
                if seq == 0 && next_seq != Some(0u32) {
                    InterpreterModel::Strict { queue: queue.push(frame), next_seq, dropped }
                } else if next_seq is None || next_seq == Some(seq) {
                    InterpreterModel::Strict {
                        queue: queue.push(frame),
                        next_seq: Some(seq.wrapping_add(1)),
                        dropped,
                    }
                } else {
                    InterpreterModel::Strict { queue, next_seq, dropped: (dropped + 1) as u64 }
                }
            },
        }
    }

    /// The frames that a poll hands out.
    pub open spec fn polled(self, now: u64) -> Seq<Frame> {
        match self {
            InterpreterModel::Realtime(c) => c.polled(now),
            InterpreterModel::Strict { queue, .. } => queue,
        }
    }

    /// The state after a poll.
    pub open spec fn after_poll(self, now: u64) -> InterpreterModel {
        match self {
            InterpreterModel::Realtime(c) => InterpreterModel::Realtime(c.after_poll(now)),
            InterpreterModel::Strict { next_seq, dropped, .. } => InterpreterModel::Strict {
                queue: Seq::empty(),
                next_seq,
                dropped,
            },
        }
    }
}

/// Reads the frames that a transport delivers into an order that can be played.
pub trait Interpreter: Sized {
    spec fn model(&self) -> InterpreterModel;

    /// The rule that this module implements.
    fn rule(&self) -> (r: PickRule)
        ensures
            r == self.model().rule(),
    ;

    /// Takes in one frame at the time `now`.
    fn push(&mut self, frame: Frame, now: u64)
        requires
            old(self).model().wf(),
            old(self).model().can_push(),
        ensures
            final(self).model() == old(self).model().after_push(frame, now),
            final(self).model().wf(),
    ;

    /// Hands out the frames that can be used at the time `now`.
    fn poll(&mut self, now: u64) -> (out: Vec<Frame>)
        requires
            old(self).model().wf(),
            old(self).model().can_poll(),
        ensures
            out@ == old(self).model().polled(now),
            final(self).model() == old(self).model().after_poll(now),
            final(self).model().wf(),
    ;
}

/// Reads frames as soon as possible and tolerates losses: the default of live media.
pub struct RealtimePacing {
    channel: StreamChannel,
}

impl RealtimePacing {
    pub fn new(kind: ChannelKind) -> (r: RealtimePacing)
        ensures
            r.model() == InterpreterModel::Realtime(ChannelModel::fresh(kind)),
            r.model().wf(),
    {
        RealtimePacing { channel: StreamChannel::new(kind) }
    }

    /// The channel inside.
    pub closed spec fn channel(&self) -> ChannelModel {
        self.channel@
    }

    /// The counters of the video and the audio track.
    pub fn jitter_stats(&self) -> (r: (JitterStats, JitterStats))
        ensures
            r == (self.channel().video.stats, self.channel().audio.stats),
    {
        self.channel.stats()
    }
}

impl Interpreter for RealtimePacing {
    open spec fn model(&self) -> InterpreterModel {
        InterpreterModel::Realtime(self.channel())
    }

    fn rule(&self) -> (r: PickRule) {
        PickRule::Realtime
    }

    fn push(&mut self, frame: Frame, now: u64) {
        self.channel.push(frame, now);
    }

    fn poll(&mut self, now: u64) -> (out: Vec<Frame>) {
        self.channel.poll(now)
    }
}

/// Reads frames in strict order without losses: the default of files.
pub struct StrictOrdered {
    queue: Vec<Frame>,
    next_seq: Option<u32>,
    dropped: u64,
}

impl StrictOrdered {
    pub fn new() -> (r: StrictOrdered)
        ensures
            r.model() == (InterpreterModel::Strict {
                queue: Seq::empty(),
                next_seq: None,
                dropped: 0,
            }),
    {
        StrictOrdered { queue: Vec::new(), next_seq: None, dropped: 0 }
    }

    /// The number of frames dropped as out of order or duplicate.
    pub fn dropped(&self) -> (r: u64)
        ensures
            self.model() matches InterpreterModel::Strict { dropped, .. } && dropped == r,
    {
        self.dropped
    }
}

impl Default for StrictOrdered {
    fn default() -> (r: Self)
        ensures
            r.model() == (InterpreterModel::Strict {
                queue: Seq::empty(),
                next_seq: None,
                dropped: 0,
            }),
    {
        StrictOrdered::new()
    }
}

impl Interpreter for StrictOrdered {
    closed spec fn model(&self) -> InterpreterModel {
        InterpreterModel::Strict {
            queue: self.queue@,
            next_seq: self.next_seq,
            dropped: self.dropped,
        }
    }

    fn rule(&self) -> (r: PickRule) {
        PickRule::StrictOrdered
    }

    fn push(&mut self, frame: Frame, now: u64) {
        let seq: u32 = frame.header.seq;
        match self.next_seq {
            None => {
                if seq != 0 {
                    self.next_seq = Some(seq.wrapping_add(1));
                }
            },
            Some(next) => {
                if seq == next {
                    self.next_seq = Some(next.wrapping_add(1));
                } else if seq != 0 {
                    self.dropped += 1;
                    return;
                }
            },
        }
        self.queue.push(frame);
    }

    fn poll(&mut self, now: u64) -> (out: Vec<Frame>) {
        let mut out: Vec<Frame> = Vec::new();
        std::mem::swap(&mut out, &mut self.queue);
        out
    }
}

/// The module of one session.
pub enum Adapter {
    Realtime(RealtimePacing),
    Strict(StrictOrdered),
}

impl Interpreter for Adapter {
    open spec fn model(&self) -> InterpreterModel {
        match self {
            Adapter::Realtime(r) => r.model(),
            Adapter::Strict(s) => s.model(),
        }
    }

    fn rule(&self) -> (r: PickRule) {
        match self {
            Adapter::Realtime(r) => r.rule(),
            Adapter::Strict(s) => s.rule(),
        }
    }

    fn push(&mut self, frame: Frame, now: u64) {
        match self {
            Adapter::Realtime(r) => r.push(frame, now),
            Adapter::Strict(s) => s.push(frame, now),
        }
    }

    fn poll(&mut self, now: u64) -> (out: Vec<Frame>) {
        match self {
            Adapter::Realtime(r) => r.poll(now),
            Adapter::Strict(s) => s.poll(now),
        }
    }
}

/// Under strict order a frame out of turn is dropped, counted, and changes nothing else.
pub proof fn law_strict_order_guard(
    queue: Seq<Frame>,
    next: u32,
    dropped: u64,
    frame: Frame,
    now: u64,
)
    requires
        frame.header.seq != 0,
        frame.header.seq != next,
        dropped < u64::MAX,
    ensures
        (InterpreterModel::Strict { queue, next_seq: Some(next), dropped }).after_push(frame, now)
            == (InterpreterModel::Strict {
            queue,
            next_seq: Some(next),
            dropped: (dropped + 1) as u64,
        }),
{
}

/// Under strict order a frame with the next number is never dropped, also where the numbers start
/// over: it passes, and the count goes on.
pub proof fn law_strict_order_goes_on(
    queue: Seq<Frame>,
    next: u32,
    dropped: u64,
    frame: Frame,
    now: u64,
)
    requires
        frame.header.seq == next,
    ensures
        (InterpreterModel::Strict { queue, next_seq: Some(next), dropped }).after_push(frame, now)
            == (InterpreterModel::Strict {
            queue: queue.push(frame),
            next_seq: Some(next.wrapping_add(1)),
            dropped,
        }),
{
}

/// Frames without a number pass under strict order, one after the other.
pub proof fn law_strict_unnumbered_passthrough(
    queue: Seq<Frame>,
    next_seq: Option<u32>,
    dropped: u64,
    frame: Frame,
    now: u64,
)
    requires
        frame.header.seq == 0,
    ensures
        (InterpreterModel::Strict { queue, next_seq, dropped }).after_push(frame, now).polled(now)
            == queue.push(frame),
{
}

/// Under strict order, frames that are numbered one after the other all come out, in that order and
/// each once, also where the numbers start over, whatever number they begin with; a frame with any
/// other number, except none, does not.
pub proof fn law_strict_frame_comes_out(
    pushed_to: &mut StrictOrdered,
    frame: Frame,
    now: u64,
    polled_from: &mut StrictOrdered,
    then: u64,
    out: Vec<Frame>,
)
    requires
        old(pushed_to).model().polled(then).len() == 0,
        call_ensures(<StrictOrdered as Interpreter>::push, (pushed_to, frame, now), ()),
        *old(polled_from) == *final(pushed_to),
        call_ensures(<StrictOrdered as Interpreter>::poll, (polled_from, then), out),
    ensures
        final(polled_from).model().polled(then).len() == 0,
        old(pushed_to).model() matches InterpreterModel::Strict { next_seq, dropped, .. } ==> {
            let seq = frame.header.seq;
            &&& next_seq is None || next_seq == Some(seq) || seq == 0 ==> {
                &&& out@ == seq![frame]
                &&& final(polled_from).model() matches InterpreterModel::Strict {
                    next_seq: after,
                    dropped: d,
                    ..
                } && d == dropped && (seq != 0 || next_seq == Some(0u32) ==> after == Some(
                    seq.wrapping_add(1),
                )) && (seq == 0 && next_seq != Some(0u32) ==> after == next_seq)
            }
            &&& next_seq is Some && next_seq != Some(seq) && seq != 0 && dropped < u64::MAX ==> {
                &&& out@.len() == 0
                &&& final(polled_from).model() matches InterpreterModel::Strict {
                    next_seq: after,
                    dropped: d,
                    ..
                } && d == dropped + 1 && after == next_seq
            }
        },
{
    let m = old(pushed_to).model();
    if m is Strict {
        assert(m->queue.push(frame) =~= seq![frame]);
    }
}

/// A new module for strict order has nothing to hand out, dropped nothing and expects no number; one
/// for live streams has nothing to hand out either.
pub proof fn law_new_modules_are_empty(
    s: StrictOrdered,
    kind: ChannelKind,
    r: RealtimePacing,
    now: u64,
)
    requires
        call_ensures(StrictOrdered::new, (), s),
        call_ensures(RealtimePacing::new, (kind,), r),
    ensures
        s.model() matches InterpreterModel::Strict { queue, next_seq, dropped } && queue.len() == 0
            && next_seq is None && dropped == 0,
        s.model().rule() == PickRule::StrictOrdered,
        r.model() matches InterpreterModel::Realtime(c) && c.kind == kind,
        r.model().rule() == PickRule::Realtime,
        r.model().polled(now).len() == 0,
{
}

} // verus!
