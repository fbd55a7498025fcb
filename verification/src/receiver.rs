//! Receiving a stream: where to watch it, what is counted, and when it ends.

use vstd::prelude::*;

use crate::channel::message::opt_view;
use crate::error::Error;
use crate::frame::Frame;
use crate::message::PickRule;
use crate::pick::buffer::{JitterConfig, JitterStats};
use crate::pick::interpret::{
    Adapter, Interpreter, InterpreterModel, RealtimePacing, StrictOrdered,
};
use crate::pick::manager::{
    audio_config, fresh_module, lemma_fresh_caught_up, lemma_in_step, same_but_number, ChannelKind, ChannelModel,
};
use crate::text::{begins_with, join2, join3, starts_with};

verus! {

/// What is counted about a stream that is being received.
#[derive(Debug)]
pub struct ReceiveStats {
    pub running: bool,
    pub received: u64,
    pub decoded_video: u64,
    pub audio_blocks: u64,
    pub audio_blocks_in: u64,
    pub dropped: u64,
    pub paced_dropped: u64,
    pub paced_reanchors: u64,
    pub paced_held: u64,
    pub error: Option<String>,
}

/// What is counted, as a mathematical value.
pub struct StatsModel {
    pub running: bool,
    pub received: u64,
    pub decoded_video: u64,
    pub audio_blocks: u64,
    pub audio_blocks_in: u64,
    pub dropped: u64,
    pub paced_dropped: u64,
    pub paced_reanchors: u64,
    pub paced_held: u64,
    pub error: Option<Seq<char>>,
}

impl View for ReceiveStats {
    type V = StatsModel;

    open spec fn view(&self) -> StatsModel {
        StatsModel {
            running: self.running,
            received: self.received,
            decoded_video: self.decoded_video,
            audio_blocks: self.audio_blocks,
            audio_blocks_in: self.audio_blocks_in,
            dropped: self.dropped,
            paced_dropped: self.paced_dropped,
            paced_reanchors: self.paced_reanchors,
            paced_held: self.paced_held,
            error: opt_view(self.error),
        }
    }
}

impl StatsModel {
    /// Nothing counted yet, and not running.
    pub open spec fn zero() -> StatsModel {
        StatsModel {
            running: false,
            received: 0,
            decoded_video: 0,
            audio_blocks: 0,
            audio_blocks_in: 0,
            dropped: 0,
            paced_dropped: 0,
            paced_reanchors: 0,
            paced_held: 0,
            error: None,
        }
    }
}

impl Default for ReceiveStats {
    fn default() -> (r: Self)
        ensures
            r@ == StatsModel::zero(),
    {
        ReceiveStats {
            running: false,
            received: 0,
            decoded_video: 0,
            audio_blocks: 0,
            audio_blocks_in: 0,
            dropped: 0,
            paced_dropped: 0,
            paced_reanchors: 0,
            paced_held: 0,
            error: None,
        }
    }
}

impl Clone for ReceiveStats {
    fn clone(&self) -> (r: Self)
        ensures
            r == *self,
    {
        ReceiveStats {
            running: self.running,
            received: self.received,
            decoded_video: self.decoded_video,
            audio_blocks: self.audio_blocks,
            audio_blocks_in: self.audio_blocks_in,
            dropped: self.dropped,
            paced_dropped: self.paced_dropped,
            paced_reanchors: self.paced_reanchors,
            paced_held: self.paced_held,
            error: match &self.error {
                Some(e) => Some(e.clone()),
                None => None,
            },
        }
    }
}

/// A relay of this node that can pull a stream which cannot be watched directly.
#[derive(Debug)]
pub struct LocalProxy {
    /// Where the stream can then be watched.
    pub ws_base: String,
}

/// How a stream is to be received: how its transport treats what gets lost.
pub open spec fn kind_of_url(url: Seq<char>) -> ChannelKind {
    if begins_with(url, "srt://"@) {
        ChannelKind::Lossy
    } else {
        ChannelKind::Lossless
    }
}

/// Whether frames may get lost on the way from the given address: over SRT they may, over a
/// WebSocket or QUIC they may not.
pub fn channel_kind_for_url(relay_url: &str) -> (r: ChannelKind)
    ensures
        r == kind_of_url(relay_url@),
{
    if starts_with(relay_url, "srt://") {
        ChannelKind::Lossy
    } else {
        ChannelKind::Lossless
    }
}

/// How far the attempt to watch a stream has come.
#[derive(Debug)]
pub enum WatchState {
    /// The stream is being watched where it is.
    Direct,
    /// The relay of this node is being asked to pull the stream.
    Proxying { direct_error: String },
    /// The stream is being watched at the relay of this node.
    ViaProxy { direct_error: String },
    Connected,
    Failed { error: Error },
}

/// What is to be done next.
#[derive(Debug)]
pub enum WatchAction {
    /// Watch the stream at this address.
    Watch { url: String },
    /// Have the relay of this node pull the stream from this address.
    StartProxy { url: String },
    Nothing,
}

/// What is to be done next, as a mathematical value.
pub enum WatchActionModel {
    Watch { url: Seq<char> },
    StartProxy { url: Seq<char> },
    Nothing,
}

impl View for WatchAction {
    type V = WatchActionModel;

    open spec fn view(&self) -> WatchActionModel {
        match self {
            WatchAction::Watch { url } => WatchActionModel::Watch { url: url@ },
            WatchAction::StartProxy { url } => WatchActionModel::StartProxy { url: url@ },
            WatchAction::Nothing => WatchActionModel::Nothing,
        }
    }
}

/// What follows from the outcome of an attempt: a stream that cannot be watched directly is pulled
/// by the relay of this node, if there is one, and watched there; the error tells both reasons.
pub open spec fn watch_stepped(
    state: WatchState,
    relay_url: Seq<char>,
    proxy_base: Option<Seq<char>>,
    outcome: Result<(), Seq<char>>,
    next: WatchState,
    action: WatchActionModel,
) -> bool {
    match (state, outcome) {
        (WatchState::Direct, Ok(())) => next is Connected && action is Nothing,
        (WatchState::Direct, Err(e)) => if proxy_base is Some {
            &&& next matches WatchState::Proxying { direct_error } && direct_error@ == e
            &&& action == (WatchActionModel::StartProxy { url: relay_url })
        } else {
            &&& next matches WatchState::Failed { error: Error::Link(t) } && t@ == e
            &&& action is Nothing
        },
        (WatchState::Proxying { direct_error }, Ok(())) => {
            &&& next matches WatchState::ViaProxy { direct_error: d } && d@ == direct_error@
            &&& action == (match proxy_base {
                Some(base) => WatchActionModel::Watch { url: base },
                None => WatchActionModel::Nothing,
            })
        },
        (WatchState::Proxying { direct_error }, Err(e)) => {
            &&& next matches WatchState::Failed { error: Error::Link(t) } && t@ == "直连失败: "@
                + direct_error@ + "；本机代理失败: "@ + e
            &&& action is Nothing
        },
        (WatchState::ViaProxy { .. }, Ok(())) => next is Connected && action is Nothing,
        (WatchState::ViaProxy { direct_error }, Err(e)) => {
            &&& next matches WatchState::Failed { error: Error::Link(t) } && t@ == "直连失败: "@
                + direct_error@ + "；代理建立后观看失败: "@ + e
            &&& action is Nothing
        },
        _ => next == state && action is Nothing,
    }
}

/// The view of the outcome of an attempt.
pub open spec fn outcome_view(r: Result<(), String>) -> Result<(), Seq<char>> {
    match r {
        Ok(()) => Ok(()),
        Err(e) => Err(e@),
    }
}

/// The address at which the relay of this node is watched.
pub open spec fn proxy_view(p: Option<&LocalProxy>) -> Option<Seq<char>> {
    match p {
        Some(x) => Some(x.ws_base@),
        None => None,
    }
}

fn two_reasons(direct: &str, words: &str, reason: &str) -> (r: Error)
    ensures
        r matches Error::Link(t) && t@ == "直连失败: "@ + direct@ + words@ + reason@,
{
    let a: String = join3("直连失败: ", direct, words);
    Error::Link(join2(a.as_str(), reason))
}

/// Takes in the outcome of an attempt to watch a stream.
pub fn watch_step(
    state: WatchState,
    relay_url: &str,
    proxy: Option<&LocalProxy>,
    outcome: Result<(), String>,
) -> (r: (WatchState, WatchAction))
    ensures
        watch_stepped(
            state,
            relay_url@,
            proxy_view(proxy),
            outcome_view(outcome),
            r.0,
            r.1@,
        ),
{
    match (state, outcome) {
        (WatchState::Direct, Ok(())) => (WatchState::Connected, WatchAction::Nothing),
        (WatchState::Direct, Err(e)) => match proxy {
            Some(_) => (
                WatchState::Proxying { direct_error: e },
                WatchAction::StartProxy { url: relay_url.to_owned() },
            ),
            None => (WatchState::Failed { error: Error::Link(e) }, WatchAction::Nothing),
        },
        (WatchState::Proxying { direct_error }, Ok(())) => {
            let action: WatchAction = match proxy {
                Some(p) => WatchAction::Watch { url: p.ws_base.clone() },
                None => WatchAction::Nothing,
            };
            (WatchState::ViaProxy { direct_error }, action)
        },
        (WatchState::Proxying { direct_error }, Err(e)) => (
            WatchState::Failed {
                error: two_reasons(direct_error.as_str(), "；本机代理失败: ", e.as_str()),
            },
            WatchAction::Nothing,
        ),
        (WatchState::ViaProxy { .. }, Ok(())) => (WatchState::Connected, WatchAction::Nothing),
        (WatchState::ViaProxy { direct_error }, Err(e)) => (
            WatchState::Failed {
                error: two_reasons(
                    direct_error.as_str(),
                    "；代理建立后观看失败: ",
                    e.as_str(),
                ),
            },
            WatchAction::Nothing,
        ),
        (s, _) => (s, WatchAction::Nothing),
    }
}

/// A stream that can be watched where it is, is: the relay of this node is not asked.
pub proof fn law_direct_connection_wins(
    relay_url: Seq<char>,
    proxy_base: Option<Seq<char>>,
    next: WatchState,
    action: WatchActionModel,
)
    requires
        watch_stepped(WatchState::Direct, relay_url, proxy_base, Ok(()), next, action),
    ensures
        next is Connected,
        action is Nothing,
{
}

/// A stream that cannot be watched where it is comes by way of this node's relay: the relay pulls
/// it from there, it is watched at the relay, and when that fails too, both reasons are told.
pub proof fn law_relay_is_the_way_round(
    relay_url: Seq<char>,
    base: Seq<char>,
    reason: Seq<char>,
    first: WatchState,
    pulled: WatchActionModel,
    second: WatchState,
    watched: WatchActionModel,
    outcome: Result<(), Seq<char>>,
    last: WatchState,
    done: WatchActionModel,
)
    requires
        watch_stepped(WatchState::Direct, relay_url, Some(base), Err(reason), first, pulled),
        watch_stepped(first, relay_url, Some(base), Ok(()), second, watched),
        watch_stepped(second, relay_url, Some(base), outcome, last, done),
    ensures
        pulled == (WatchActionModel::StartProxy { url: relay_url }),
        watched == (WatchActionModel::Watch { url: base }),
        done is Nothing,
        match outcome {
            Ok(()) => last is Connected,
            Err(e) => last matches WatchState::Failed { error } && error.text() == "直连失败: "@
                + reason + "；代理建立后观看失败: "@ + e,
        },
{
}

/// Without a relay of its own, a node reports why the stream could not be watched, and nothing
/// else.
pub proof fn law_no_proxy_reports_direct_error(
    relay_url: Seq<char>,
    reason: Seq<char>,
    next: WatchState,
    action: WatchActionModel,
)
    requires
        watch_stepped(WatchState::Direct, relay_url, None, Err(reason), next, action),
    ensures
        next matches WatchState::Failed { error } && error.text() == reason,
        action is Nothing,
{
}

/// How often what was counted is handed on while a stream is being received.
pub const SYNC_INTERVAL_NS: u64 = 100_000_000;

/// What arrives while a stream is being received.
pub enum Packet {
    Media(Frame),
    Control,
    /// The other side closed the connection.
    Closed,
    /// The connection broke.
    Broken,
}

/// What follows from a packet.
pub struct ReceiveStep {
    /// The frames that can be used now.
    pub frames: Vec<Frame>,
    /// Whether what was counted is to be handed on.
    pub sync: bool,
    /// Whether receiving is over.
    pub ended: bool,
}

/// A stream that is being received: its frames are read by the rule that was settled for it.
pub struct ReceiveLoop {
    pub adapter: Adapter,
    pub received: u64,
    pub running: bool,
    pub stopped: bool,
    /// When what was counted was last handed on, in nanoseconds.
    pub last_sync: u64,
}

impl ReceiveLoop {
    /// Begins to receive a stream over a connection that stands.
    pub fn new(relay_url: &str, rule: PickRule, now: u64) -> (r: ReceiveLoop)
        ensures
            r.adapter.model() == fresh_module(rule, kind_of_url(relay_url@)),
            r.adapter.model().wf(),
            r.received == 0,
            r.running,
            !r.stopped,
            r.last_sync == now,
    {
        let adapter: Adapter = match rule {
            PickRule::StrictOrdered => Adapter::Strict(StrictOrdered::new()),
            PickRule::Realtime => Adapter::Realtime(
                RealtimePacing::new(channel_kind_for_url(relay_url)),
            ),
        };
        ReceiveLoop { adapter, received: 0, running: true, stopped: false, last_sync: now }
    }

    /// Asks for the end: the next packet is not taken in any more.
    pub fn stop(&mut self)
        ensures
            *final(self) == (ReceiveLoop { stopped: true, ..*old(self) }),
    {
        self.stopped = true;
    }

    /// Whether one more packet can be counted.
    pub open spec fn can_take(&self, packet: Packet, now: u64) -> bool {
        packet is Media && !self.stopped ==> {
            &&& self.adapter.model().can_push()
            &&& self.adapter.model().after_push(packet->Media_0, now).can_poll()
        }
    }

    /// Whether there is room to count one more packet, whatever it is.
    pub fn has_room(&self) -> (r: bool)
        requires
            self.adapter.model().wf(),
        ensures
            r == module_roomy(self.adapter.model()),
            r ==> forall|packet: Packet, now: u64| #[trigger] self.can_take(packet, now),
    {
        match &self.adapter {
            Adapter::Realtime(r) => {
                let (video, audio) = r.jitter_stats();
                track_has_room(video) && track_has_room(audio)
            },
            Adapter::Strict(s) => s.dropped() < u64::MAX,
        }
    }

    /// Takes in a packet. A frame is read at once, and what can be used is handed out.
    pub fn on_packet(&mut self, packet: Packet, now: u64) -> (r: ReceiveStep)
        requires
            old(self).adapter.model().wf(),
            old(self).can_take(packet, now),
        ensures
            final(self).adapter.model().wf(),
            packet_taken(*old(self), *final(self), packet, now, r),
    {
        if self.stopped {
            self.running = false;
            return ReceiveStep { frames: Vec::new(), sync: true, ended: true };
        }
        let mut frames: Vec<Frame> = Vec::new();
        let mut ended: bool = false;
        match packet {
            Packet::Media(frame) => {
                self.received = self.received.wrapping_add(1);
                self.adapter.push(frame, now);
                frames = self.adapter.poll(now);
            },
            Packet::Control => {},
            Packet::Closed | Packet::Broken => {
                ended = true;
            },
        }
        if ended {
            self.running = false;
            return ReceiveStep { frames, sync: true, ended: true };
        }
        let sync: bool = now >= self.last_sync && now - self.last_sync >= SYNC_INTERVAL_NS;
        if sync {
            self.last_sync = now;
        }
        ReceiveStep { frames, sync, ended: false }
    }
}

/// Whether the counters of a track have room for one more frame and what follows from it.
pub open spec fn track_roomy(s: JitterStats) -> bool {
    &&& s.received < u64::MAX
    &&& s.dropped_resync < u64::MAX
    &&& s.dropped_stale < u64::MAX
    &&& s.emitted + JitterConfig::standard().capacity <= u64::MAX
    &&& s.dropped_out_of_window + u32::MAX <= u64::MAX
}

/// Whether the counters of a module have room for one more frame and what follows from it.
pub open spec fn module_roomy(m: InterpreterModel) -> bool {
    match m {
        InterpreterModel::Realtime(c) => track_roomy(c.video.stats) && track_roomy(c.audio.stats),
        InterpreterModel::Strict { dropped, .. } => dropped < u64::MAX,
    }
}

fn track_has_room(s: JitterStats) -> (r: bool)
    ensures
        r == track_roomy(s),
{
    s.received < u64::MAX && s.dropped_resync < u64::MAX && s.dropped_stale < u64::MAX && s.emitted
        <= u64::MAX - 512 && s.dropped_out_of_window <= u64::MAX - u32::MAX as u64
}

/// What taking in a packet does.
pub open spec fn packet_taken(
    pre: ReceiveLoop,
    post: ReceiveLoop,
    packet: Packet,
    now: u64,
    r: ReceiveStep,
) -> bool {
    let over = pre.stopped || packet is Closed || packet is Broken;
    &&& r.ended == over
    &&& post.running == (pre.running && !over)
    &&& post.stopped == pre.stopped
    &&& r.sync == (over || now - pre.last_sync >= SYNC_INTERVAL_NS)
    &&& post.last_sync == (if r.sync && !over {
        now
    } else {
        pre.last_sync
    })
    &&& if packet is Media && !pre.stopped {
        let m = pre.adapter.model().after_push(packet->Media_0, now);
        &&& post.received == pre.received.wrapping_add(1)
        &&& r.frames@ == m.polled(now)
        &&& post.adapter.model() == m.after_poll(now)
    } else {
        &&& post.received == pre.received
        &&& r.frames@.len() == 0
        &&& post.adapter == pre.adapter
    }
}

/// What the playback of a stream counts.
#[derive(Debug, Clone, Copy, PartialEq, Eq, Structural)]
pub struct PlaybackStats {
    pub video_frames_out: u64,
    pub audio_blocks_out: u64,
    pub audio_blocks_in: u64,
    pub dropped_push: u64,
    pub paced_dropped: u64,
    pub paced_reanchors: u64,
    pub paced_held: u64,
}

impl StatsModel {
    /// What is known after the playback told its counts.
    pub open spec fn with_playback(self, p: PlaybackStats) -> StatsModel {
        StatsModel {
            running: true,
            decoded_video: p.video_frames_out,
            audio_blocks: p.audio_blocks_out,
            audio_blocks_in: p.audio_blocks_in,
            dropped: p.dropped_push,
            paced_dropped: p.paced_dropped,
            paced_reanchors: p.paced_reanchors,
            paced_held: p.paced_held,
            ..self
        }
    }

    /// What is known after receiving failed.
    pub open spec fn failed(self, reason: Seq<char>) -> StatsModel {
        StatsModel { running: false, error: Some(reason), ..self }
    }
}

/// A stream that is received for somebody: what is told about it.
pub struct Receiver {
    stats: ReceiveStats,
    stopped: bool,
}

impl View for Receiver {
    type V = StatsModel;

    closed spec fn view(&self) -> StatsModel {
        self.stats@
    }
}

impl Receiver {
    /// Whether the end was asked for.
    pub closed spec fn is_stopped(&self) -> bool {
        self.stopped
    }

    /// Nothing was received yet.
    pub fn new() -> (r: Receiver)
        ensures
            r@ == StatsModel::zero(),
            !r.is_stopped(),
    {
        Receiver { stats: ReceiveStats::default(), stopped: false }
    }

    /// What is told, together with the number of frames that arrived.
    pub fn stats(&self, received: u64) -> (r: ReceiveStats)
        ensures
            r@ == (StatsModel { received, ..self@ }),
    {
        let mut r = self.stats.clone();
        r.received = received;
        r
    }

    /// Whether the end was asked for.
    pub fn stopping(&self) -> (r: bool)
        ensures
            r == self.is_stopped(),
    {
        self.stopped
    }

    /// Asks for the end.
    pub fn stop(&mut self)
        ensures
            final(self)@ == old(self)@,
            final(self).is_stopped(),
    {
        self.stopped = true;
    }

    /// The connection stands: the stream counts as running before its first frame.
    pub fn connected(&mut self)
        ensures
            final(self)@ == (StatsModel { running: true, ..old(self)@ }),
            final(self).is_stopped() == old(self).is_stopped(),
    {
        self.stats.running = true;
    }

    /// The stream cannot be watched.
    pub fn connect_failed(&mut self, e: &Error)
        ensures
            final(self)@ == old(self)@.failed(e.text()),
            final(self).is_stopped() == old(self).is_stopped(),
    {
        self.stats.error = Some(e.to_user_string());
        self.stats.running = false;
    }

    /// The stream cannot be played.
    pub fn playback_failed(&mut self, reason: &str)
        ensures
            final(self)@ == old(self)@.failed("播放会话打开失败: "@ + reason@),
            final(self).is_stopped() == old(self).is_stopped(),
    {
        self.stats.error = Some(join2("播放会话打开失败: ", reason));
        self.stats.running = false;
    }

    /// Takes over what the playback counted.
    pub fn sync(&mut self, p: PlaybackStats)
        ensures
            final(self)@ == old(self)@.with_playback(p),
            final(self).is_stopped() == old(self).is_stopped(),
    {
        self.stats.decoded_video = p.video_frames_out;
        self.stats.audio_blocks = p.audio_blocks_out;
        self.stats.audio_blocks_in = p.audio_blocks_in;
        self.stats.dropped = p.dropped_push;
        self.stats.paced_dropped = p.paced_dropped;
        self.stats.paced_reanchors = p.paced_reanchors;
        self.stats.paced_held = p.paced_held;
        self.stats.running = true;
    }

    /// Counts a picture that was decoded outside.
    pub fn note_decoded_video(&mut self)
        requires
            old(self)@.decoded_video < u64::MAX,
        ensures
            final(self)@ == (StatsModel {
                decoded_video: (old(self)@.decoded_video + 1) as u64,
                running: true,
                ..old(self)@
            }),
            final(self).is_stopped() == old(self).is_stopped(),
    {
        self.stats.decoded_video = self.stats.decoded_video + 1;
        self.stats.running = true;
    }

    /// Counts a frame that nobody took.
    pub fn note_dropped(&mut self)
        requires
            old(self)@.dropped < u64::MAX,
        ensures
            final(self)@ == (StatsModel {
                dropped: (old(self)@.dropped + 1) as u64,
                ..old(self)@
            }),
            final(self).is_stopped() == old(self).is_stopped(),
    {
        self.stats.dropped = self.stats.dropped + 1;
    }

    /// Receiving is over.
    pub fn finished(&mut self)
        ensures
            final(self)@ == (StatsModel { running: false, ..old(self)@ }),
            final(self).is_stopped() == old(self).is_stopped(),
    {
        self.stats.running = false;
    }
}

/// A stream over a transport that loses nothing comes out frame by frame as it came in: each frame
/// at once, unchanged.
pub proof fn law_lossless_stream_passes_through(
    pre: ReceiveLoop,
    post: ReceiveLoop,
    c: ChannelModel,
    frame: Frame,
    now: u64,
    r: ReceiveStep,
)
    requires
        pre.adapter.model() == InterpreterModel::Realtime(c),
        c.kind == ChannelKind::Lossless,
        c.queue.len() == 0,
        !pre.stopped,
        packet_taken(pre, post, Packet::Media(frame), now, r),
    ensures
        r.frames@ == seq![frame],
        post.adapter.model() matches InterpreterModel::Realtime(d) && d.kind
            == ChannelKind::Lossless && d.queue.len() == 0,
{
    assert(c.queue.push(frame) =~= seq![frame]);
}

/// Frames may get lost over SRT, and over nothing else.
pub proof fn law_only_srt_loses_frames(url: &str, rest: Seq<char>, r: ChannelKind)
    requires
        call_ensures(channel_kind_for_url, (url,), r),
    ensures
        url@ == "srt://"@ + rest ==> r == ChannelKind::Lossy,
        url@ == "ws://"@ + rest || url@ == "wss://"@ + rest || url@ == "quic://"@ + rest ==> r
            == ChannelKind::Lossless,
{
    reveal_strlit("srt://");
    reveal_strlit("ws://");
    reveal_strlit("wss://");
    reveal_strlit("quic://");
    if url@ == "srt://"@ + rest {
        assert(url@.take(6) =~= "srt://"@);
    }
    if url@ == "ws://"@ + rest {
        assert(url@[0] == 'w');
    }
    if url@ == "wss://"@ + rest {
        assert(url@[0] == 'w');
    }
    if url@ == "quic://"@ + rest {
        assert(url@[0] == 'q');
    }
    if begins_with(url@, "srt://"@) {
        assert(url@[0] == "srt://"@[0]);
    }
}

impl ReceiveLoop {
    /// Whether all that arrived of a live stream was handed out.
    pub open spec fn keeps_up(&self) -> bool {
        self.adapter.model() matches InterpreterModel::Realtime(c) && match c.kind {
            ChannelKind::Lossless => c.queue.len() == 0,
            ChannelKind::Lossy => c.in_step(),
        }
    }
}

/// A live stream comes out frame by frame: each frame that arrives is counted and handed out at
/// once, over any transport and on any track, the same but for its number, until the end is asked
/// for.
pub proof fn law_live_frame_is_handed_out(
    rx: &mut ReceiveLoop,
    frame: Frame,
    now: u64,
    r: ReceiveStep,
)
    requires
        old(rx).keeps_up(),
        !old(rx).stopped,
        old(rx).received < u64::MAX,
        call_ensures(ReceiveLoop::on_packet, (rx, Packet::Media(frame), now), r),
    ensures
        r.frames@.len() == 1,
        same_but_number(r.frames@[0], frame),
        !r.ended,
        final(rx).received == old(rx).received + 1,
        final(rx).keeps_up(),
        final(rx).running == old(rx).running,
{
    let m = old(rx).adapter.model();
    if m is Realtime {
        let c = m->Realtime_0;
        if c.kind == ChannelKind::Lossless {
            assert(c.queue.push(frame) =~= seq![frame]);
        } else {
            lemma_in_step(c, frame, now, now);
        }
    }
}

/// Receiving begins with a stream that runs and of which nothing has arrived; a live one keeps up
/// from then on.
pub proof fn law_receiving_begins(relay_url: &str, rule: PickRule, now: u64, r: ReceiveLoop)
    requires
        call_ensures(ReceiveLoop::new, (relay_url, rule, now), r),
    ensures
        r.received == 0,
        r.running,
        !r.stopped,
        r.adapter.model().rule() == rule,
        rule == PickRule::Realtime ==> r.keeps_up(),
{
    lemma_fresh_caught_up(JitterConfig::standard());
    lemma_fresh_caught_up(audio_config());
}

/// Receiving ends when the connection does or when the end was asked for, and not before; nothing
/// is handed out then, what was counted is handed on, and the stream no longer runs.
pub proof fn law_receiving_ends(rx: &mut ReceiveLoop, packet: Packet, now: u64, r: ReceiveStep)
    requires
        call_ensures(ReceiveLoop::on_packet, (rx, packet, now), r),
    ensures
        r.ended <==> old(rx).stopped || packet is Closed || packet is Broken,
        r.ended ==> r.frames@.len() == 0 && r.sync && !final(rx).running,
        !r.ended ==> final(rx).running == old(rx).running,
        !(packet is Media) ==> r.frames@.len() == 0 && final(rx).received == old(rx).received,
{
}

/// What was counted is handed on at most every tenth of a second while a stream runs, and once that
/// much time is over.
pub proof fn law_counts_are_handed_on(rx: &mut ReceiveLoop, packet: Packet, now: u64, r: ReceiveStep)
    requires
        call_ensures(ReceiveLoop::on_packet, (rx, packet, now), r),
        !r.ended,
    ensures
        r.sync <==> now >= old(rx).last_sync + 100_000_000,
        r.sync ==> final(rx).last_sync == now,
        !r.sync ==> final(rx).last_sync == old(rx).last_sync,
{
}

/// Asking a loop for the end is remembered, and nothing else changes.
pub proof fn law_end_is_remembered(rx: &mut ReceiveLoop, r: &mut Receiver, asked: bool)
    requires
        call_ensures(ReceiveLoop::stop, (rx,), ()),
        call_ensures(Receiver::stop, (r,), ()),
        call_ensures(Receiver::stopping, (&*final(r),), asked),
    ensures
        final(rx).stopped,
        final(rx).received == old(rx).received,
        final(rx).adapter == old(rx).adapter,
        asked,
        final(r)@ == old(r)@,
{
}

/// A new account of a stream: not running, no error, nothing counted.
pub proof fn law_new_account_is_blank(r: Receiver, received: u64, shown: ReceiveStats, asked: bool)
    requires
        call_ensures(Receiver::new, (), r),
        call_ensures(Receiver::stats, (&r, received), shown),
        call_ensures(Receiver::stopping, (&r,), asked),
    ensures
        !shown.running,
        shown.error is None,
        shown.received == received,
        shown.decoded_video == 0,
        shown.dropped == 0,
        shown.audio_blocks == 0,
        !asked,
{
}

/// What is shown of a stream follows what happened to it: it runs while it is connected, a failure
/// ends it and is told in words, and what the playback counted is shown under its name, together
/// with the number of frames that arrived.
pub proof fn law_account_tells_what_happened(
    r: &mut Receiver,
    received: u64,
    e: &Error,
    reason: &str,
    p: PlaybackStats,
    shown: ReceiveStats,
)
    requires
        call_ensures(Receiver::stats, (&*final(r), received), shown),
    ensures
        call_ensures(Receiver::connected, (r,), ()) ==> shown.running,
        call_ensures(Receiver::finished, (r,), ()) ==> !shown.running,
        call_ensures(Receiver::connect_failed, (r, e), ()) ==> !shown.running && shown.error is Some
            && shown.error->0@ == e.text(),
        call_ensures(Receiver::playback_failed, (r, reason), ()) ==> !shown.running
            && shown.error is Some && shown.error->0@ == "播放会话打开失败: "@ + reason@,
        call_ensures(Receiver::sync, (r, p), ()) ==> {
            &&& shown.running
            &&& shown.decoded_video == p.video_frames_out
            &&& shown.audio_blocks == p.audio_blocks_out
            &&& shown.audio_blocks_in == p.audio_blocks_in
            &&& shown.dropped == p.dropped_push
            &&& shown.paced_dropped == p.paced_dropped
            &&& shown.paced_reanchors == p.paced_reanchors
            &&& shown.paced_held == p.paced_held
        },
        call_ensures(Receiver::note_decoded_video, (r,), ()) && old(r)@.decoded_video < u64::MAX
            ==> shown.decoded_video == old(r)@.decoded_video + 1 && shown.running,
        call_ensures(Receiver::note_dropped, (r,), ()) && old(r)@.dropped < u64::MAX
            ==> shown.dropped == old(r)@.dropped + 1,
        shown.received == received,
{
}

/// However an attempt to watch a stream goes, it comes to an end: after at most two failures and a
/// pull it is connected or has failed, and a failure tells every reason there was.
pub proof fn law_watching_is_settled(
    relay_url: &str,
    proxy: Option<&LocalProxy>,
    direct: String,
    state: WatchState,
    why: String,
    r: (WatchState, WatchAction),
)
    requires
        state matches WatchState::Proxying { direct_error } && direct_error@ == direct@,
        call_ensures(watch_step, (state, relay_url, proxy, Err::<(), String>(why)), r),
    ensures
        r.1 is Nothing,
        r.0 matches WatchState::Failed { error } && error.text() == "直连失败: "@ + direct@
            + "；本机代理失败: "@ + why@,
{
}

/// Watching goes the direct way first; then, if there is a relay here, that relay pulls the stream
/// from where it is, and it is watched at that relay's own address.
pub proof fn law_watching_takes_its_way(
    relay_url: &str,
    proxy: &LocalProxy,
    why: String,
    first: (WatchState, WatchAction),
    second: (WatchState, WatchAction),
    third: (WatchState, WatchAction),
    direct: (WatchState, WatchAction),
)
    requires
        call_ensures(
            watch_step,
            (WatchState::Direct, relay_url, Some(proxy), Ok::<(), String>(())),
            direct,
        ),
        call_ensures(
            watch_step,
            (WatchState::Direct, relay_url, Some(proxy), Err::<(), String>(why)),
            first,
        ),
        call_ensures(watch_step, (first.0, relay_url, Some(proxy), Ok::<(), String>(())), second),
        call_ensures(watch_step, (second.0, relay_url, Some(proxy), Ok::<(), String>(())), third),
    ensures
        direct.0 is Connected,
        direct.1 is Nothing,
        first.1 matches WatchAction::StartProxy { url } && url@ == relay_url@,
        second.1 matches WatchAction::Watch { url } && url@ == proxy.ws_base@,
        third.0 is Connected,
        third.1 is Nothing,
{
    assert(first.1@ is StartProxy);
    assert(second.1@ is Watch);
}

} // verus!
