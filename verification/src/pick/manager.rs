//! Streaming channels and the registry of interpretation modules, one for each session.

use vstd::prelude::*;

use crate::frame::{Frame, FrameHeader, TRACK_VIDEO};
use crate::message::{PickRule, ReliabilityProfile};
use crate::pick::buffer::{
    lemma_plus_plus, seq_plus, JitterBuffer, JitterConfig, JitterModel, JitterStats, MILLIS,
};
use crate::pick::interpret::{Adapter, Interpreter, InterpreterModel, RealtimePacing, StrictOrdered};
use crate::table::Table;

verus! {

/// The data path of a streaming channel.
#[derive(Debug, Clone, Copy, PartialEq, Eq, Structural)]
pub enum ChannelKind {
    /// The transport keeps order and loses nothing: frames pass through.
    Lossless,
    /// Frames may be lost or out of order: they go through jitter buffers.
    Lossy,
}

/// The data path that a reliability profile asks for: adaptive transports may lose frames, all
/// others pass through.
pub open spec fn kind_of_profile(profile: ReliabilityProfile) -> ChannelKind {
    match profile {
        ReliabilityProfile::Adaptive => ChannelKind::Lossy,
        _ => ChannelKind::Lossless,
    }
}

/// The data path for a transport with the given reliability profile.
pub fn channel_kind_for_profile(profile: ReliabilityProfile) -> (r: ChannelKind)
    ensures
        r == kind_of_profile(profile),
{
    match profile {
        ReliabilityProfile::Adaptive => ChannelKind::Lossy,
        _ => ChannelKind::Lossless,
    }
}

/// What a streaming channel is, as a mathematical value.
#[verifier::ext_equal]
pub struct ChannelModel {
    pub kind: ChannelKind,
    /// Frames of a lossless channel that were not handed out yet.
    pub queue: Seq<Frame>,
    pub video: JitterModel,
    pub audio: JitterModel,
    /// The next number within the video track.
    pub video_seq: u32,
    /// The next number within the audio track.
    pub audio_seq: u32,
}

/// The frame under another sequence number.
pub open spec fn renumbered(frame: Frame, seq: u32) -> Frame {
    Frame { header: FrameHeader { seq, ..frame.header }, ..frame }
}

/// The settings of the audio track: no resynchronisation, at most 100 milliseconds of waiting.
pub open spec fn audio_config() -> JitterConfig {
    JitterConfig {
        require_keyframe_resync: false,
        max_wait: (100 * MILLIS) as u64,
        ..JitterConfig::standard()
    }
}

impl ChannelModel {
    /// A channel that has seen nothing.
    pub open spec fn fresh(kind: ChannelKind) -> ChannelModel {
        ChannelModel {
            kind,
            queue: Seq::empty(),
            video: JitterModel::fresh(JitterConfig::standard()),
            audio: JitterModel::fresh(audio_config()),
            video_seq: 0,
            audio_seq: 0,
        }
    }

    /// What holds of every channel.
    pub open spec fn wf(self) -> bool {
        &&& self.video.wf()
        &&& self.audio.wf()
        &&& self.video.cfg == JitterConfig::standard()
        &&& self.audio.cfg == audio_config()
    }

    pub open spec fn can_push(self) -> bool {
        self.kind == ChannelKind::Lossy ==> self.video.can_push() && self.audio.can_push()
    }

    pub open spec fn can_poll(self) -> bool {
        self.kind == ChannelKind::Lossy ==> self.video.can_poll() && self.audio.can_poll()
    }

    /// The state after a frame was pushed: a lossless channel appends it; a lossy one numbers it
    /// within its track and hands it to that track's buffer.
    pub open spec fn after_push(self, frame: Frame, now: u64) -> ChannelModel {
        match self.kind {
            ChannelKind::Lossless => ChannelModel { queue: self.queue.push(frame), ..self },
            ChannelKind::Lossy => if frame.header.track == TRACK_VIDEO {
                ChannelModel {
                    video: self.video.after_push(renumbered(frame, self.video_seq), now),
                    video_seq: self.video_seq.wrapping_add(1),
                    ..self
                }
            } else {
                ChannelModel {
                    audio: self.audio.after_push(renumbered(frame, self.audio_seq), now),
                    audio_seq: self.audio_seq.wrapping_add(1),
                    ..self
                }
            },
        }
    }

    /// The frames that a poll hands out: the whole queue, or the video frames and then the audio
    /// frames that can be played.
    pub open spec fn polled(self, now: u64) -> Seq<Frame> {
        match self.kind {
            ChannelKind::Lossless => self.queue,
            ChannelKind::Lossy => self.video.polled(now) + self.audio.polled(now),
        }
    }

    /// The state after a poll.
    pub open spec fn after_poll(self, now: u64) -> ChannelModel {
        match self.kind {
            ChannelKind::Lossless => ChannelModel { queue: Seq::empty(), ..self },
            ChannelKind::Lossy => ChannelModel {
                video: self.video.after_poll(now),
                audio: self.audio.after_poll(now),
                ..self
            },
        }
    }
}

/// A streaming channel: passes frames through, or smooths them in two jitter buffers.
pub struct StreamChannel {
    kind: ChannelKind,
    lossless_queue: Vec<Frame>,
    video: JitterBuffer,
    audio: JitterBuffer,
    video_seq: u32,
    audio_seq: u32,
}

impl View for StreamChannel {
    type V = ChannelModel;

    closed spec fn view(&self) -> ChannelModel {
        ChannelModel {
            kind: self.kind,
            queue: self.lossless_queue@,
            video: self.video@,
            audio: self.audio@,
            video_seq: self.video_seq,
            audio_seq: self.audio_seq,
        }
    }
}

impl StreamChannel {
    /// A new channel for the negotiated data path.
    pub fn new(kind: ChannelKind) -> (r: StreamChannel)
        ensures
            r@ == ChannelModel::fresh(kind),
            r@.wf(),
    {
        let std = JitterConfig::default();
        StreamChannel {
            kind,
            lossless_queue: Vec::new(),
            video: JitterBuffer::new(std),
            audio: JitterBuffer::new(
                JitterConfig {
                    require_keyframe_resync: false,
                    max_wait: 100 * MILLIS,
                    min_wait: 10 * MILLIS,
                    adaptive: true,
                    capacity: std.capacity,
                },
            ),
            video_seq: 0,
            audio_seq: 0,
        }
    }

    /// Takes in one frame.
    pub fn push(&mut self, frame: Frame, now: u64)
        requires
            old(self)@.wf(),
            old(self)@.can_push(),
        ensures
            final(self)@ == old(self)@.after_push(frame, now),
            final(self)@.wf(),
    {
        match self.kind {
            ChannelKind::Lossless => {
                self.lossless_queue.push(frame);
            },
            ChannelKind::Lossy => {
                let mut frame = frame;
                if frame.header.track == TRACK_VIDEO {
                    frame.header.seq = self.video_seq;
                    self.video_seq = self.video_seq.wrapping_add(1);
                    self.video.push(frame, now);
                } else {
                    frame.header.seq = self.audio_seq;
                    self.audio_seq = self.audio_seq.wrapping_add(1);
                    self.audio.push(frame, now);
                }
            },
        }
    }

    /// Hands out the frames that can be played now.
    pub fn poll(&mut self, now: u64) -> (out: Vec<Frame>)
        requires
            old(self)@.wf(),
            old(self)@.can_poll(),
        ensures
            out@ == old(self)@.polled(now),
            final(self)@ == old(self)@.after_poll(now),
            final(self)@.wf(),
    {
        match self.kind {
            ChannelKind::Lossless => {
                let mut out: Vec<Frame> = Vec::new();
                std::mem::swap(&mut out, &mut self.lossless_queue);
                out
            },
            ChannelKind::Lossy => {
                let mut out = self.video.poll(now);
                let mut audio = self.audio.poll(now);
                out.append(&mut audio);
                out
            },
        }
    }

    /// The counters of the video and the audio track.
    pub fn stats(&self) -> (r: (JitterStats, JitterStats))
        ensures
            r == (self@.video.stats, self@.audio.stats),
    {
        (self.video.stats(), self.audio.stats())
    }
}

/// The interpretation modules of all sessions.
pub struct InterpretRegistry {
    interpreters: Table<String, Adapter>,
}

impl View for InterpretRegistry {
    type V = Map<Seq<char>, Adapter>;

    closed spec fn view(&self) -> Map<Seq<char>, Adapter> {
        self.interpreters@
    }
}

impl Default for InterpretRegistry {
    fn default() -> (r: Self)
        ensures
            r.wf(),
            r@ == Map::<Seq<char>, Adapter>::empty(),
    {
        InterpretRegistry { interpreters: Table::new() }
    }
}

/// The module that a session starts with.
pub open spec fn fresh_module(rule: PickRule, kind: ChannelKind) -> InterpreterModel {
    match rule {
        PickRule::StrictOrdered => InterpreterModel::Strict {
            queue: Seq::empty(),
            next_seq: None,
            dropped: 0,
        },
        PickRule::Realtime => InterpreterModel::Realtime(ChannelModel::fresh(kind)),
    }
}

impl InterpretRegistry {
    pub closed spec fn wf(&self) -> bool {
        self.interpreters.wf()
    }

    /// The module of a session. The first call loads it by the negotiated rule; later calls return
    /// the same module, whatever rule they name.
    pub fn adapter(&mut self, session_id: &str, rule: PickRule, kind: ChannelKind) -> (r:
        &mut Adapter)
        requires
            old(self).wf(),
        ensures
            final(self).wf(),
            old(self)@.dom().contains(session_id@) ==> *r == old(self)@[session_id@],
            !old(self)@.dom().contains(session_id@) ==> r.model() == fresh_module(rule, kind)
                && r.model().wf(),
            final(self)@ == old(self)@.insert(session_id@, *final(r)),
    {
        let key: String = session_id.to_owned();
        if !self.interpreters.contains(&key) {
            let fresh: Adapter = match rule {
                PickRule::StrictOrdered => Adapter::Strict(StrictOrdered::new()),
                PickRule::Realtime => Adapter::Realtime(RealtimePacing::new(kind)),
            };
            let _ = self.interpreters.insert(session_id.to_owned(), fresh);
        }
        let ghost m = self.interpreters@;
        proof {
            assert forall|a: Adapter| #[trigger] m.insert(session_id@, a) == old(self)@.insert(
                session_id@,
                a,
            ) by {
                assert(m.insert(session_id@, a) =~= old(self)@.insert(session_id@, a));
            }
        }
        self.interpreters.get_mut(&key).unwrap()
    }

    /// Drops the module of a session; other sessions keep theirs.
    pub fn remove(&mut self, session_id: &str)
        requires
            old(self).wf(),
        ensures
            final(self).wf(),
            final(self)@ == old(self)@.remove(session_id@),
    {
        let _ = self.interpreters.remove(&session_id.to_owned());
    }

    /// The number of sessions with a module.
    pub fn len(&self) -> (r: usize)
        requires
            self.wf(),
        ensures
            r == self@.dom().len(),
    {
        self.interpreters.len()
    }

    /// Whether no session has a module.
    pub fn is_empty(&self) -> (r: bool)
        requires
            self.wf(),
        ensures
            r == (self@.dom().len() == 0),
    {
        self.interpreters.len() == 0
    }
}

/// A lossless channel hands out every frame once, in the order of arrival.
pub proof fn law_lossless_passthrough(m: ChannelModel, frame: Frame, now: u64, then: u64)
    requires
        m.kind == ChannelKind::Lossless,
    ensures
        m.after_push(frame, now).polled(then) == m.polled(then).push(frame),
        m.after_poll(then).polled(then).len() == 0,
{
}

/// The tracks of a lossy channel do not disturb each other: a video frame leaves the audio
/// buffer as it is, and the other way round.
pub proof fn law_tracks_independent(m: ChannelModel, frame: Frame, now: u64)
    requires
        m.kind == ChannelKind::Lossy,
    ensures
        frame.header.track == TRACK_VIDEO ==> m.after_push(frame, now).audio == m.audio,
        frame.header.track != TRACK_VIDEO ==> m.after_push(frame, now).video == m.video,
{
}

/// What a push in turn and a poll come to on one track.
#[verifier::opaque]
spec fn turn(m: JitterModel, frame: Frame, now: u64, then: u64) -> (Seq<Frame>, JitterModel) {
    (m.after_push(frame, now).polled(then), m.after_push(frame, now).after_poll(then))
}

/// What a poll comes to on one track.
#[verifier::opaque]
spec fn idle(m: JitterModel, then: u64) -> (Seq<Frame>, JitterModel) {
    (m.polled(then), m.after_poll(then))
}

proof fn lemma_turn(m: JitterModel, frame: Frame, now: u64, then: u64)
    requires
        m.caught_up(),
        m.next_seq is None || m.next_seq == Some(frame.header.seq),
    ensures
        ({
            let (out, post) = turn(m, frame, now, then);
            &&& out == seq![frame]
            &&& post.caught_up()
            &&& post.wf()
            &&& post.next_seq == Some(seq_plus(frame.header.seq, 1))
            &&& post.cfg == m.cfg
            &&& post.stats.dropped_stale == m.stats.dropped_stale
        }),
{
    reveal(turn);
    m.lemma_in_turn(frame, now, then);
    lemma_caught_up_wf(m.after_push(frame, now).after_poll(then));
}

proof fn lemma_idle(m: JitterModel, then: u64)
    requires
        m.caught_up(),
    ensures
        ({
            let (out, post) = idle(m, then);
            &&& out.len() == 0
            &&& post.caught_up()
            &&& post.wf()
            &&& post.next_seq == m.next_seq
            &&& post.cfg == m.cfg
            &&& post.stats.dropped_stale == m.stats.dropped_stale
        }),
{
    reveal(idle);
    m.lemma_idle_poll(then);
    lemma_caught_up_wf(m.after_poll(then));
}

proof fn lemma_next_number(x: u32)
    ensures
        x.wrapping_add(1) == seq_plus(x, 1),
{
}

proof fn lemma_steps(m: ChannelModel, frame: Frame, now: u64, then: u64)
    requires
        m.kind == ChannelKind::Lossy,
    ensures
        ({
            let post = m.after_push(frame, now).after_poll(then);
            let out = m.after_push(frame, now).polled(then);
            &&& post.kind == m.kind
            &&& frame.header.track == TRACK_VIDEO ==> {
                let f = renumbered(frame, m.video_seq);
                &&& out == turn(m.video, f, now, then).0 + idle(m.audio, then).0
                &&& post.video == turn(m.video, f, now, then).1
                &&& post.audio == idle(m.audio, then).1
                &&& post.video_seq == m.video_seq.wrapping_add(1)
                &&& post.audio_seq == m.audio_seq
            }
            &&& frame.header.track != TRACK_VIDEO ==> {
                let f = renumbered(frame, m.audio_seq);
                &&& out == idle(m.video, then).0 + turn(m.audio, f, now, then).0
                &&& post.video == idle(m.video, then).1
                &&& post.audio == turn(m.audio, f, now, then).1
                &&& post.video_seq == m.video_seq
                &&& post.audio_seq == m.audio_seq.wrapping_add(1)
            }
        }),
{
    reveal(turn);
    reveal(idle);
    let mid = m.after_push(frame, now);
    if frame.header.track == TRACK_VIDEO {
        let f = renumbered(frame, m.video_seq);
        assert(mid.kind == m.kind && mid.video == m.video.after_push(f, now) && mid.audio
            == m.audio);
    } else {
        let f = renumbered(frame, m.audio_seq);
        assert(mid.kind == m.kind && mid.audio == m.audio.after_push(f, now) && mid.video
            == m.video);
    }
}

proof fn lemma_caught_up_wf(m: JitterModel)
    requires
        m.caught_up(),
    ensures
        m.wf(),
{
    reveal(JitterModel::caught_up);
}

pub(crate) proof fn lemma_fresh_caught_up(cfg: JitterConfig)
    requires
        cfg.capacity > 0,
    ensures
        JitterModel::fresh(cfg).caught_up(),
        JitterModel::fresh(cfg).next_seq is None,
{
    reveal(JitterModel::caught_up);
}

impl ChannelModel {
    /// Whether all that came over a lossy channel was handed out, and each track goes on counting
    /// where it is.
    pub open spec fn in_step(self) -> bool {
        &&& self.kind == ChannelKind::Lossy
        &&& self.wf()
        &&& self.video.caught_up()
        &&& self.audio.caught_up()
        &&& self.video.next_seq is None || self.video.next_seq == Some(self.video_seq)
        &&& self.audio.next_seq is None || self.audio.next_seq == Some(self.audio_seq)
    }

    proof fn lemma_in_step(self, frame: Frame, now: u64, then: u64)
        requires
            self.in_step(),
        ensures
            ({
                let m = self.after_push(frame, now);
                let out = m.polled(then);
                &&& out.len() == 1
                &&& same_but_number(out[0], frame)
                &&& out[0].header.seq == (if frame.header.track == TRACK_VIDEO {
                    self.video_seq
                } else {
                    self.audio_seq
                })
                &&& m.after_poll(then).in_step()
                &&& m.after_poll(then).video_seq == (if frame.header.track == TRACK_VIDEO {
                    seq_plus(self.video_seq, 1)
                } else {
                    self.video_seq
                })
                &&& m.after_poll(then).audio_seq == (if frame.header.track == TRACK_VIDEO {
                    self.audio_seq
                } else {
                    seq_plus(self.audio_seq, 1)
                })
                &&& m.after_poll(then).video.stats.dropped_stale == self.video.stats.dropped_stale
                &&& m.after_poll(then).audio.stats.dropped_stale == self.audio.stats.dropped_stale
            }),
    {
        lemma_steps(self, frame, now, then);
        lemma_next_number(self.video_seq);
        lemma_next_number(self.audio_seq);
        let out = self.after_push(frame, now).polled(then);
        if frame.header.track == TRACK_VIDEO {
            let f = renumbered(frame, self.video_seq);
            lemma_turn(self.video, f, now, then);
            lemma_idle(self.audio, then);
            assert(out =~= seq![f]);
        } else {
            let f = renumbered(frame, self.audio_seq);
            lemma_turn(self.audio, f, now, then);
            lemma_idle(self.video, then);
            assert(out =~= seq![f]);
        }
    }
}

pub(crate) proof fn lemma_in_step(m: ChannelModel, frame: Frame, now: u64, then: u64)
    requires
        m.in_step(),
    ensures
        m.after_push(frame, now).polled(then).len() == 1,
        same_but_number(m.after_push(frame, now).polled(then)[0], frame),
        m.after_push(frame, now).after_poll(then).in_step(),
{
    m.lemma_in_step(frame, now, then);
}

/// Whether two frames are the same but for their number.
pub open spec fn same_but_number(a: Frame, b: Frame) -> bool {
    &&& a.payload@ == b.payload@
    &&& a.header.track == b.header.track
    &&& a.header.codec == b.header.codec
    &&& a.header.flags == b.header.flags
    &&& a.header.pts == b.header.pts
}

/// Frames of a lossy channel come out as they come in: a channel that handed out all it got hands
/// out the next frame at once, audio as well as video, unchanged but for its number, and is again
/// such a channel. Nothing that arrived is dropped as late.
pub proof fn law_lossy_frame_comes_out(
    pushed_to: &mut StreamChannel,
    frame: Frame,
    now: u64,
    polled_from: &mut StreamChannel,
    then: u64,
    out: Vec<Frame>,
)
    requires
        old(pushed_to)@.in_step(),
        call_ensures(StreamChannel::push, (pushed_to, frame, now), ()),
        *old(polled_from) == *final(pushed_to),
        call_ensures(StreamChannel::poll, (polled_from, then), out),
    ensures
        out@.len() == 1,
        same_but_number(out@[0], frame),
        final(polled_from)@.in_step(),
        final(polled_from)@.video.stats.dropped_stale == old(pushed_to)@.video.stats.dropped_stale,
        final(polled_from)@.audio.stats.dropped_stale == old(pushed_to)@.audio.stats.dropped_stale,
{
    old(pushed_to)@.lemma_in_step(frame, now, then);
}

/// A new channel has nothing to hand out; a lossy one is ready for the first frame of each track.
pub proof fn law_new_channel_is_ready(
    kind: ChannelKind,
    r: StreamChannel,
    c: &mut StreamChannel,
    now: u64,
    out: Vec<Frame>,
)
    requires
        call_ensures(StreamChannel::new, (kind,), r),
        *old(c) == r,
        call_ensures(StreamChannel::poll, (c, now), out),
    ensures
        out@.len() == 0,
        kind == ChannelKind::Lossy ==> r@.in_step(),
{
    lemma_fresh_caught_up(JitterConfig::standard());
    lemma_fresh_caught_up(audio_config());
}

/// A frame and when it arrived.
pub struct Arrival {
    pub frame: Frame,
    pub now: u64,
}

/// A new channel after frames arrived, with a poll after each.
pub open spec fn after_arrivals(kind: ChannelKind, arrivals: Seq<Arrival>) -> ChannelModel
    decreases arrivals.len(),
{
    if arrivals.len() == 0 {
        ChannelModel::fresh(kind)
    } else {
        let a = arrivals.last();
        after_arrivals(kind, arrivals.drop_last()).after_push(a.frame, a.now).after_poll(a.now)
    }
}

/// What the poll after the last of some arrivals hands out.
pub open spec fn handed_at(kind: ChannelKind, arrivals: Seq<Arrival>) -> Seq<Frame> {
    let a = arrivals.last();
    after_arrivals(kind, arrivals.drop_last()).after_push(a.frame, a.now).polled(a.now)
}

/// How many frames of the video track, or of the others, arrived.
pub open spec fn count_of(video: bool, arrivals: Seq<Arrival>) -> nat
    decreases arrivals.len(),
{
    if arrivals.len() == 0 {
        0
    } else {
        count_of(video, arrivals.drop_last()) + (if (arrivals.last().frame.header.track
            == TRACK_VIDEO) == video {
            1nat
        } else {
            0nat
        })
    }
}

/// Over the whole life of a channel that is polled after each frame, each poll hands out exactly the
/// frame that just arrived, over either path. Over a lossy one it has the next number of its track,
/// which counts the frames of that track.
pub proof fn law_every_arrival_comes_out(kind: ChannelKind, arrivals: Seq<Arrival>)
    requires
        arrivals.len() > 0,
    ensures
        handed_at(kind, arrivals).len() == 1,
        same_but_number(handed_at(kind, arrivals)[0], arrivals.last().frame),
        kind == ChannelKind::Lossy ==> handed_at(kind, arrivals)[0].header.seq == seq_plus(
            0,
            count_of(
                arrivals.last().frame.header.track == TRACK_VIDEO,
                arrivals.drop_last(),
            ) as int,
        ),
        kind == ChannelKind::Lossless ==> handed_at(kind, arrivals)[0] == arrivals.last().frame,
{
    let earlier = arrivals.drop_last();
    let a = arrivals.last();
    lemma_arrivals(kind, earlier);
    let m = after_arrivals(kind, earlier);
    if kind == ChannelKind::Lossy {
        m.lemma_in_step(a.frame, a.now, a.now);
    } else {
        assert(m.queue.push(a.frame) =~= seq![a.frame]);
    }
}

proof fn lemma_arrivals(kind: ChannelKind, arrivals: Seq<Arrival>)
    ensures
        after_arrivals(kind, arrivals).kind == kind,
        kind == ChannelKind::Lossless ==> after_arrivals(kind, arrivals).queue.len() == 0,
        kind == ChannelKind::Lossy ==> {
            let m = after_arrivals(kind, arrivals);
            &&& m.in_step()
            &&& m.video_seq == seq_plus(0, count_of(true, arrivals) as int)
            &&& m.audio_seq == seq_plus(0, count_of(false, arrivals) as int)
        },
    decreases arrivals.len(),
{
    if arrivals.len() == 0 {
        lemma_fresh_caught_up(JitterConfig::standard());
        lemma_fresh_caught_up(audio_config());
    } else {
        let earlier = arrivals.drop_last();
        let a = arrivals.last();
        lemma_arrivals(kind, earlier);
        if kind == ChannelKind::Lossy {
            let m = after_arrivals(kind, earlier);
            m.lemma_in_step(a.frame, a.now, a.now);
            lemma_plus_plus(0, count_of(true, earlier) as int, 1);
            lemma_plus_plus(0, count_of(false, earlier) as int, 1);
        } else {
            let m = after_arrivals(kind, earlier);
            assert(after_arrivals(kind, arrivals) == m.after_push(a.frame, a.now).after_poll(a.now));
        }
    }
}

/// A transport that adapts may lose frames, and no other does.
pub proof fn law_adaptive_transports_are_lossy(profile: ReliabilityProfile, r: ChannelKind)
    requires
        call_ensures(channel_kind_for_profile, (profile,), r),
    ensures
        r == ChannelKind::Lossy <==> profile == ReliabilityProfile::Adaptive,
{
}

/// The module of a new session reads by the rule that was settled, over the path that was settled,
/// and has nothing to hand out yet; a session that is known keeps its module.
pub proof fn law_session_gets_its_module(
    reg: &mut InterpretRegistry,
    session_id: &str,
    rule: PickRule,
    kind: ChannelKind,
    r: &mut Adapter,
    other: Seq<char>,
    now: u64,
)
    requires
        call_ensures(InterpretRegistry::adapter, (reg, session_id, rule, kind), r),
        other != session_id@,
    ensures
        !old(reg)@.dom().contains(session_id@) ==> {
            &&& old(r).model().rule() == rule
            &&& old(r).model().polled(now).len() == 0
            &&& old(r).model() matches InterpreterModel::Realtime(c) ==> c.kind == kind
        },
        old(reg)@.dom().contains(session_id@) ==> *old(r) == old(reg)@[session_id@],
        final(reg)@.dom().contains(session_id@),
        final(reg)@[session_id@] == *final(r),
        final(reg)@.dom().contains(other) == old(reg)@.dom().contains(other),
        old(reg)@.dom().contains(other) ==> final(reg)@[other] == old(reg)@[other],
{
}

/// Ending one session leaves the modules of the others.
pub proof fn law_ended_session_drops_its_module(
    reg: &mut InterpretRegistry,
    session_id: &str,
    other: Seq<char>,
)
    requires
        call_ensures(InterpretRegistry::remove, (reg, session_id), ()),
        other != session_id@,
    ensures
        !final(reg)@.dom().contains(session_id@),
        final(reg)@.dom().contains(other) == old(reg)@.dom().contains(other),
        old(reg)@.dom().contains(other) ==> final(reg)@[other] == old(reg)@[other],
{
}

/// A new channel holds pictures back for a fifth of a second at most and waits for a key frame after
/// a loss; sound it holds back for a tenth of a second at most, and never waits for a key frame.
pub proof fn law_sound_waits_less_than_pictures(kind: ChannelKind, c: StreamChannel)
    requires
        call_ensures(StreamChannel::new, (kind,), c),
    ensures
        c@.video.cfg.max_wait == 200_000_000,
        c@.audio.cfg.max_wait == 100_000_000,
        c@.video.cfg.min_wait == 10_000_000,
        c@.audio.cfg.min_wait == 10_000_000,
        c@.video.cfg.adaptive && c@.audio.cfg.adaptive,
        c@.video.cfg.capacity == 512,
        c@.audio.cfg.capacity == 512,
        c@.video.cfg.require_keyframe_resync,
        !c@.audio.cfg.require_keyframe_resync,
{
}

} // verus!
