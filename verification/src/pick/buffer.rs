//! Jitter buffer of one track: absorbs network jitter and hands frames out in sequence order.
//!
//! Time is given by the caller in nanoseconds of one monotonic clock.

use vstd::prelude::*;

use crate::frame::Frame;

verus! {

/// Nanoseconds in a millisecond.
pub const MILLIS: u64 = 1_000_000;

/// The size of the sequence number space.
pub open spec fn seq_space() -> int {
    0x1_0000_0000
}

/// `a` comes before `b`: it lags behind by at most half of the sequence space.
pub open spec fn before(a: u32, b: u32) -> bool {
    (a - b) % seq_space() >= 0x8000_0000
}

/// The sequence number `k` steps after `seq`.
pub open spec fn seq_plus(seq: u32, k: int) -> u32 {
    ((seq + k) % seq_space()) as u32
}

/// How many steps lead from `a` to `b`.
pub open spec fn seq_dist(a: u32, b: u32) -> int {
    (b - a) % seq_space()
}

/// Sequence order that survives the wrap of the counter: true exactly when `a` lags behind `b`
/// by no more than half of the sequence space.
pub fn seq_lt(a: u32, b: u32) -> (r: bool)
    ensures
        r == before(a, b),
{
    a.wrapping_sub(b) >= 0x8000_0000
}

/// The moving average after one more sample, with weight one eighth.
pub open spec fn ewma_spec(cur: u64, sample: u64) -> int {
    if sample >= cur {
        cur + (sample - cur) / 8
    } else {
        cur - (cur - sample) / 8
    }
}

/// Moving average with weight one eighth: `cur` is the old value, `sample` the new one.
pub fn ewma(cur: u64, sample: u64) -> (r: u64)
    ensures
        r == ewma_spec(cur, sample),
{
    if sample >= cur {
        cur + (sample - cur) / 8
    } else {
        cur - (cur - sample) / 8
    }
}

/// The moving average lies between the old value and the sample.
pub proof fn law_ewma_between(cur: u64, sample: u64)
    ensures
        cur <= sample ==> cur <= ewma_spec(cur, sample) <= sample,
        sample <= cur ==> sample <= ewma_spec(cur, sample) <= cur,
{
}

/// No sequence number comes before itself.
pub proof fn law_before_irreflexive(a: u32)
    ensures
        !before(a, a),
{
}

/// Of two different sequence numbers exactly one comes before the other, unless they are
/// exactly half of the sequence space apart.
pub proof fn law_before_asymmetric(a: u32, b: u32)
    requires
        a != b,
        (a - b) % seq_space() != 0x8000_0000,
    ensures
        before(a, b) != before(b, a),
{
}

pub(crate) proof fn lemma_plus_plus(a: u32, i: int, j: int)
    ensures
        seq_plus(seq_plus(a, i), j) == seq_plus(a, i + j),
{
}

proof fn lemma_dist_of_plus(a: u32, i: int, j: int)
    requires
        0 <= j - i < seq_space(),
    ensures
        seq_dist(seq_plus(a, i), seq_plus(a, j)) == j - i,
{
}

proof fn lemma_plus_of_dist(a: u32, b: u32)
    ensures
        0 <= seq_dist(a, b) < seq_space(),
        seq_plus(a, seq_dist(a, b)) == b,
{
}

proof fn lemma_before_is_dist(a: u32, b: u32)
    ensures
        before(b, a) <==> seq_dist(a, b) >= 0x8000_0000,
{
}

proof fn lemma_dist_injective(a: u32, b: u32, c: u32)
    requires
        seq_dist(a, b) == seq_dist(a, c),
    ensures
        b == c,
{
    lemma_plus_of_dist(a, b);
    lemma_plus_of_dist(a, c);
}

/// The next number of a run, given that it is not behind `first`.
proof fn lemma_run_step(first: u32, skipped: int, start: u32, k: int, cur: u32)
    requires
        0 <= skipped <= u32::MAX,
        0 <= k,
        start == seq_plus(first, skipped),
        cur == seq_plus(start, k),
        k == 0 || skipped + k <= 0x8000_0000,
        !before(cur, first),
    ensures
        skipped + k + 1 <= 0x8000_0000,
        seq_dist(start, cur) == k,
        seq_plus(cur, 1) == seq_plus(start, k + 1),
{
    lemma_plus_plus(first, skipped, k);
    lemma_plus_plus(start, k, 1);
    lemma_dist_of_plus(first, skipped, skipped + k);
    lemma_dist_of_plus(first, 0, skipped + k);
    assert(seq_plus(first, 0) == first);
    lemma_before_is_dist(first, cur);
}

/// Settings of a jitter buffer; times are in nanoseconds.
#[derive(Debug, Clone, Copy)]
pub struct JitterConfig {
    /// Number of ring slots: the bound on the frames held.
    pub capacity: usize,
    /// Upper bound of the time a hole is waited for.
    pub max_wait: u64,
    /// Lower bound of that time, used when it adapts.
    pub min_wait: u64,
    /// Whether the waiting time follows the measured jitter.
    pub adaptive: bool,
    /// Whether a lost frame makes the track wait for the next key frame.
    pub require_keyframe_resync: bool,
}

impl Default for JitterConfig {
    fn default() -> (r: Self)
        ensures
            r == JitterConfig::standard(),
    {
        JitterConfig {
            capacity: 512,
            max_wait: 200 * MILLIS,
            min_wait: 10 * MILLIS,
            adaptive: true,
            require_keyframe_resync: true,
        }
    }
}

impl JitterConfig {
    /// The default settings: 512 slots, between 10 and 200 milliseconds of waiting.
    pub open spec fn standard() -> JitterConfig {
        JitterConfig {
            capacity: 512,
            max_wait: (200 * MILLIS) as u64,
            min_wait: (10 * MILLIS) as u64,
            adaptive: true,
            require_keyframe_resync: true,
        }
    }

    /// Settings a buffer can work with: there is a slot, and the waiting bounds are in order.
    pub open spec fn usable(self) -> bool {
        &&& self.capacity > 0
        &&& self.adaptive ==> self.min_wait <= self.max_wait
    }
}

/// Counters of a jitter buffer.
#[derive(Debug, Clone, Copy, PartialEq, Eq, Structural)]
pub struct JitterStats {
    /// Frames pushed.
    pub received: u64,
    /// Frames handed out.
    pub emitted: u64,
    /// Sequence numbers given up after the waiting time.
    pub dropped_out_of_window: u64,
    /// Frames dropped while waiting for a key frame.
    pub dropped_resync: u64,
    /// Frames dropped as late or duplicate.
    pub dropped_stale: u64,
}

impl Default for JitterStats {
    fn default() -> (r: Self)
        ensures
            r == JitterStats::zero(),
    {
        JitterStats {
            received: 0,
            emitted: 0,
            dropped_out_of_window: 0,
            dropped_resync: 0,
            dropped_stale: 0,
        }
    }
}

impl JitterStats {
    /// All counters at zero.
    pub open spec fn zero() -> JitterStats {
        JitterStats {
            received: 0,
            emitted: 0,
            dropped_out_of_window: 0,
            dropped_resync: 0,
            dropped_stale: 0,
        }
    }
}

/// What a jitter buffer is, as a mathematical value.
#[verifier::ext_equal]
pub struct JitterModel {
    pub cfg: JitterConfig,
    /// The ring: a frame with the number `s` lives in slot `s % capacity`.
    pub slots: Seq<Option<Frame>>,
    /// The next sequence number to hand out.
    pub next_seq: Option<u32>,
    /// The highest sequence number that arrived.
    pub highest_seq: Option<u32>,
    /// When the cursor last moved.
    pub last_progress: Option<u64>,
    /// Whether only a key frame can restart the track.
    pub awaiting_keyframe: bool,
    pub avg_interval: Option<u64>,
    pub jitter_est: u64,
    pub last_arrival: Option<u64>,
    pub stats: JitterStats,
}

/// `a - b`, or zero when that is negative.
pub open spec fn elapsed(now: u64, then: u64) -> u64 {
    if now >= then {
        (now - then) as u64
    } else {
        0
    }
}

impl JitterModel {
    /// The waiting time for a hole: four times the measured jitter within the bounds, or the
    /// upper bound when the buffer does not adapt.
    pub open spec fn wait(self) -> int {
        if !self.cfg.adaptive {
            self.cfg.max_wait as int
        } else if self.jitter_est * 4 < self.cfg.min_wait {
            self.cfg.min_wait as int
        } else if self.jitter_est * 4 > self.cfg.max_wait {
            self.cfg.max_wait as int
        } else {
            self.jitter_est * 4
        }
    }

    /// The slot of a sequence number.
    pub open spec fn slot_of(self, seq: u32) -> int {
        seq as int % self.cfg.capacity as int
    }

    /// Whether the frame with this number is in the ring.
    pub open spec fn holds(self, seq: u32) -> bool {
        self.slots[self.slot_of(seq)] matches Some(f) && f.header.seq == seq
    }

    /// Whether the cursor stood still for longer than the waiting time.
    pub open spec fn overdue(self, now: u64) -> bool {
        self.last_progress matches Some(t) && elapsed(now, t) > self.wait()
    }

    /// Whether `seq` lies beyond everything that arrived.
    pub open spec fn past_all(self, seq: u32) -> bool {
        self.highest_seq matches Some(h) && before(h, seq)
    }

    /// The state after the arrival statistics have seen a frame at `now`.
    pub open spec fn after_arrival(self, now: u64) -> JitterModel {
        let stats = JitterStats { received: (self.stats.received + 1) as u64, ..self.stats };
        match self.last_arrival {
            None => JitterModel { last_arrival: Some(now), stats, ..self },
            Some(last) => {
                let interval = elapsed(now, last);
                let avg = match self.avg_interval {
                    Some(a) => ewma_spec(a, interval) as u64,
                    None => interval,
                };
                let dev = if interval >= avg {
                    (interval - avg) as u64
                } else {
                    (avg - interval) as u64
                };
                JitterModel {
                    avg_interval: Some(avg),
                    jitter_est: ewma_spec(self.jitter_est, dev) as u64,
                    last_arrival: Some(now),
                    stats,
                    ..self
                }
            },
        }
    }

    /// The state after one more frame was dropped as late or duplicate.
    pub open spec fn stale(self) -> JitterModel {
        JitterModel {
            stats: JitterStats { dropped_stale: (self.stats.dropped_stale + 1) as u64, ..self.stats },
            ..self
        }
    }

    /// The state after `frame` went to its slot. A slot that is taken keeps the later of the two
    /// frames, and the other one counts as stale.
    pub open spec fn placed(self, frame: Frame) -> JitterModel {
        let i = self.slot_of(frame.header.seq);
        match self.slots[i] {
            None => JitterModel { slots: self.slots.update(i, Some(frame)), ..self },
            Some(f) => if before(f.header.seq, frame.header.seq) {
                JitterModel { slots: self.slots.update(i, Some(frame)), ..self.stale() }
            } else {
                self.stale()
            },
        }
    }

    /// Whether the cursor already went past `seq`.
    pub open spec fn late(self, seq: u32) -> bool {
        self.next_seq matches Some(n) && before(seq, n)
    }

    /// A ring without frames.
    pub open spec fn blank(self) -> Seq<Option<Frame>> {
        Seq::new(self.slots.len(), |i: int| None::<Frame>)
    }

    /// The state after `frame` was pushed at `now`.
    ///
    /// A key frame that is not late empties the ring and becomes the cursor. Other frames are
    /// dropped while a key frame is awaited and when they are late; the first frame of all sets
    /// the cursor.
    pub open spec fn after_push(self, frame: Frame, now: u64) -> JitterModel {
        let m = self.after_arrival(now);
        let seq = frame.header.seq;
        if frame.header.keyframe() {
            if m.late(seq) {
                m.stale()
            } else {
                JitterModel {
                    slots: m.blank().update(m.slot_of(seq), Some(frame)),
                    next_seq: Some(seq),
                    highest_seq: Some(seq),
                    awaiting_keyframe: false,
                    last_progress: Some(now),
                    ..m
                }
            }
        } else if m.awaiting_keyframe {
            JitterModel {
                stats: JitterStats { dropped_resync: (m.stats.dropped_resync + 1) as u64, ..m.stats },
                ..m
            }
        } else if m.late(seq) {
            m.stale()
        } else {
            let highest = match m.highest_seq {
                Some(h) => if before(h, seq) {
                    seq
                } else {
                    h
                },
                None => seq,
            };
            let cursor = if m.next_seq is None {
                JitterModel { next_seq: Some(seq), last_progress: Some(now), ..m }
            } else {
                m
            };
            JitterModel { highest_seq: Some(highest), ..cursor }.placed(frame)
        }
    }

    /// How many holes in a row, at most `limit`, start at `seq`: numbers that have not arrived
    /// but are not beyond everything that arrived.
    pub open spec fn holes(self, seq: u32, limit: nat) -> nat
        decreases limit,
    {
        if limit == 0 || self.holds(seq) || self.past_all(seq) {
            0
        } else {
            1 + self.holes(seq_plus(seq, 1), (limit - 1) as nat)
        }
    }

    /// The most holes one poll gives up: one on a track that then waits for a key frame, else
    /// the number of slots (in 32 bits).
    pub open spec fn hole_limit(self) -> nat {
        let slots = self.cfg.capacity as u32;
        if self.cfg.require_keyframe_resync && slots > 1 {
            1
        } else {
            slots as nat
        }
    }

    /// How many holes a poll at `now` gives up: none before the waiting time is over.
    pub open spec fn skipped(self, now: u64) -> nat {
        if self.awaiting_keyframe || self.next_seq is None || !self.overdue(now) {
            0
        } else {
            self.holes(self.next_seq->0, self.hole_limit())
        }
    }

    /// The frames with consecutive numbers, at most `limit`, that start at `seq`.
    pub open spec fn run(self, seq: u32, limit: nat) -> Seq<Frame>
        decreases limit,
    {
        if limit == 0 || !self.holds(seq) {
            Seq::empty()
        } else {
            seq![self.slots[self.slot_of(seq)]->0] + self.run(
                seq_plus(seq, 1),
                (limit - 1) as nat,
            )
        }
    }

    /// Where a poll at `now` starts to hand out frames.
    pub open spec fn start(self, now: u64) -> u32 {
        seq_plus(self.next_seq->0, self.skipped(now) as int)
    }

    /// Whether a poll at `now` gives up a frame that the track cannot do without.
    pub open spec fn loses_sync(self, now: u64) -> bool {
        self.cfg.require_keyframe_resync && self.skipped(now) > 0
    }

    /// The frames that a poll at `now` hands out: none while a key frame is awaited or gets
    /// awaited, else the run of consecutive frames behind the holes it gives up.
    pub open spec fn polled(self, now: u64) -> Seq<Frame> {
        if self.awaiting_keyframe || self.next_seq is None || self.loses_sync(now) {
            Seq::empty()
        } else {
            self.run(self.start(now), self.slots.len())
        }
    }

    /// The ring without the `n` frames that start at `seq`.
    pub open spec fn without(self, seq: u32, n: nat) -> Seq<Option<Frame>> {
        Seq::new(
            self.slots.len(),
            |i: int|
                match self.slots[i] {
                    Some(f) => if seq_dist(seq, f.header.seq) < n {
                        None
                    } else {
                        Some(f)
                    },
                    None => None,
                },
        )
    }

    /// The state after a poll at `now`.
    pub open spec fn after_poll(self, now: u64) -> JitterModel {
        if self.awaiting_keyframe || self.next_seq is None {
            self
        } else {
            let n = self.polled(now).len();
            JitterModel {
                slots: self.without(self.start(now), n),
                next_seq: Some(seq_plus(self.start(now), n as int)),
                last_progress: if n > 0 {
                    Some(now)
                } else {
                    self.last_progress
                },
                awaiting_keyframe: self.loses_sync(now),
                stats: JitterStats {
                    emitted: (self.stats.emitted + n) as u64,
                    dropped_out_of_window: (self.stats.dropped_out_of_window + self.skipped(
                        now,
                    )) as u64,
                    ..self.stats
                },
                ..self
            }
        }
    }

    /// What holds of every buffer: the ring has the configured size, each frame lives in its own
    /// slot and is not behind the cursor, and a cursor has a time of progress.
    pub open spec fn wf(self) -> bool {
        &&& self.slots.len() == (if self.cfg.capacity == 0 {
            1
        } else {
            self.cfg.capacity as nat
        })
        &&& self.next_seq is Some <==> self.last_progress is Some
        &&& self.next_seq is Some <==> self.highest_seq is Some
        &&& forall|i: int|
            0 <= i < self.slots.len() ==> (#[trigger] self.slots[i] matches Some(f) ==> {
                &&& self.next_seq is Some
                &&& self.slot_of(f.header.seq) == i
                &&& !before(f.header.seq, self.next_seq->0)
            })
    }

    /// Whether one more frame can be counted.
    pub open spec fn can_push(self) -> bool {
        &&& self.stats.received < u64::MAX
        &&& self.stats.dropped_resync < u64::MAX
        &&& self.stats.dropped_stale < u64::MAX
    }

    /// Whether one more poll can be counted.
    pub open spec fn can_poll(self) -> bool {
        &&& self.stats.emitted + self.slots.len() <= u64::MAX
        &&& self.stats.dropped_out_of_window + u32::MAX <= u64::MAX
    }
}

/// Jitter buffer of one track.
pub struct JitterBuffer {
    cfg: JitterConfig,
    slots: Vec<Option<Frame>>,
    next_seq: Option<u32>,
    highest_seq: Option<u32>,
    last_progress: Option<u64>,
    awaiting_keyframe: bool,
    avg_interval: Option<u64>,
    jitter_est: u64,
    last_arrival: Option<u64>,
    pub stats: JitterStats,
}

impl View for JitterBuffer {
    type V = JitterModel;

    closed spec fn view(&self) -> JitterModel {
        JitterModel {
            cfg: self.cfg,
            slots: self.slots@,
            next_seq: self.next_seq,
            highest_seq: self.highest_seq,
            last_progress: self.last_progress,
            awaiting_keyframe: self.awaiting_keyframe,
            avg_interval: self.avg_interval,
            jitter_est: self.jitter_est,
            last_arrival: self.last_arrival,
            stats: self.stats,
        }
    }
}

impl JitterModel {
    /// A buffer that has seen nothing.
    pub open spec fn fresh(cfg: JitterConfig) -> JitterModel {
        JitterModel {
            cfg,
            slots: Seq::new(
                if cfg.capacity == 0 {
                    1
                } else {
                    cfg.capacity as nat
                },
                |i: int| None::<Frame>,
            ),
            next_seq: None,
            highest_seq: None,
            last_progress: None,
            awaiting_keyframe: false,
            avg_interval: None,
            jitter_est: 0,
            last_arrival: None,
            stats: JitterStats::zero(),
        }
    }
}

/// The number of slots that hold a frame.
pub open spec fn occupied(slots: Seq<Option<Frame>>) -> nat
    decreases slots.len(),
{
    if slots.len() == 0 {
        0
    } else {
        occupied(slots.drop_last()) + (if slots.last() is Some {
            1nat
        } else {
            0nat
        })
    }
}

fn blank_slots(n: usize) -> (r: Vec<Option<Frame>>)
    ensures
        r@ == Seq::new(n as nat, |i: int| None::<Frame>),
{
    let mut r: Vec<Option<Frame>> = Vec::new();
    let mut i: usize = 0;
    while i < n
        invariant
            i <= n,
            r@ == Seq::new(i as nat, |k: int| None::<Frame>),
        decreases n - i,
    {
        r.push(None);
        i += 1;
        assert(r@ == Seq::new(i as nat, |k: int| None::<Frame>));
    }
    r
}

impl JitterBuffer {
    /// An empty buffer with at least one slot.
    pub fn new(cfg: JitterConfig) -> (r: JitterBuffer)
        ensures
            r@ == JitterModel::fresh(cfg),
            r@.wf(),
    {
        let n: usize = if cfg.capacity == 0 {
            1
        } else {
            cfg.capacity
        };
        JitterBuffer {
            cfg,
            slots: blank_slots(n),
            next_seq: None,
            highest_seq: None,
            last_progress: None,
            awaiting_keyframe: false,
            avg_interval: None,
            jitter_est: 0,
            last_arrival: None,
            stats: JitterStats::default(),
        }
    }

    /// The counters.
    pub fn stats(&self) -> (r: JitterStats)
        ensures
            r == self@.stats,
    {
        self.stats
    }

    /// Whether only a key frame can restart the track.
    pub fn awaiting_keyframe(&self) -> (r: bool)
        ensures
            r == self@.awaiting_keyframe,
    {
        self.awaiting_keyframe
    }

    /// The number of ring slots.
    pub fn slot_count(&self) -> (r: usize)
        ensures
            r == self@.slots.len(),
    {
        self.slots.len()
    }

    /// The number of frames that wait in the ring.
    pub fn held(&self) -> (r: usize)
        ensures
            r == occupied(self@.slots),
            r <= self@.slots.len(),
    {
        let mut n: usize = 0;
        let mut i: usize = 0;
        assert(self.slots@.take(0) =~= Seq::<Option<Frame>>::empty());
        while i < self.slots.len()
            invariant
                i <= self.slots@.len(),
                n <= i,
                n == occupied(self.slots@.take(i as int)),
            decreases self.slots.len() - i,
        {
            proof {
                let next = self.slots@.take(i as int + 1);
                assert(next.drop_last() =~= self.slots@.take(i as int));
                assert(next.last() == self.slots@[i as int]);
            }
            if self.slots[i].is_some() {
                n += 1;
            }
            i += 1;
        }
        assert(self.slots@.take(self.slots@.len() as int) =~= self.slots@);
        n
    }

    /// The waiting time for a hole that is in force now.
    pub fn effective_wait(&self) -> (r: u64)
        requires
            self@.cfg.adaptive ==> self@.cfg.min_wait <= self@.cfg.max_wait,
        ensures
            r == self@.wait(),
    {
        if !self.cfg.adaptive {
            return self.cfg.max_wait;
        }
        let base: u128 = self.jitter_est as u128 * 4;
        if base < self.cfg.min_wait as u128 {
            self.cfg.min_wait
        } else if base > self.cfg.max_wait as u128 {
            self.cfg.max_wait
        } else {
            base as u64
        }
    }

    fn index_of(&self, seq: u32) -> (r: usize)
        requires
            self@.cfg.capacity > 0,
        ensures
            r == self@.slot_of(seq),
            r < self@.cfg.capacity,
    {
        seq as usize % self.cfg.capacity
    }

    fn ready(&self, seq: u32) -> (r: bool)
        requires
            self@.cfg.capacity > 0,
            self@.slots.len() == self@.cfg.capacity,
        ensures
            r == self@.holds(seq),
    {
        match &self.slots[self.index_of(seq)] {
            Some(f) => f.header.seq == seq,
            None => false,
        }
    }

    fn is_overdue(&self, now: u64) -> (r: bool)
        requires
            self@.cfg.usable(),
        ensures
            r == self@.overdue(now),
    {
        match self.last_progress {
            Some(t) => now.saturating_sub(t) > self.effective_wait(),
            None => false,
        }
    }

    fn is_past_all(&self, seq: u32) -> (r: bool)
        ensures
            r == self@.past_all(seq),
    {
        match self.highest_seq {
            Some(h) => seq_lt(h, seq),
            None => false,
        }
    }

    fn note_arrival(&mut self, now: u64)
        requires
            old(self)@.can_push(),
        ensures
            final(self)@ == old(self)@.after_arrival(now),
    {
        self.stats.received += 1;
        if let Some(last) = self.last_arrival {
            let interval: u64 = now.saturating_sub(last);
            let avg: u64 = match self.avg_interval {
                Some(a) => ewma(a, interval),
                None => interval,
            };
            self.avg_interval = Some(avg);
            let dev: u64 = if interval >= avg {
                interval - avg
            } else {
                avg - interval
            };
            self.jitter_est = ewma(self.jitter_est, dev);
        }
        self.last_arrival = Some(now);
    }

    fn place(&mut self, frame: Frame)
        requires
            old(self)@.cfg.capacity > 0,
            old(self)@.slots.len() == old(self)@.cfg.capacity,
            old(self)@.stats.dropped_stale < u64::MAX,
        ensures
            final(self)@ == old(self)@.placed(frame),
    {
        let seq: u32 = frame.header.seq;
        let idx: usize = self.index_of(seq);
        if let Some(existing) = &self.slots[idx] {
            let older: bool = seq_lt(existing.header.seq, seq);
            self.stats.dropped_stale += 1;
            if !older {
                return;
            }
        }
        self.slots.set(idx, Some(frame));
    }

    /// Takes in one frame at the time `now`.
    pub fn push(&mut self, frame: Frame, now: u64)
        requires
            old(self)@.wf(),
            old(self)@.cfg.capacity > 0,
            old(self)@.can_push(),
        ensures
            final(self)@ == old(self)@.after_push(frame, now),
            final(self)@.wf(),
    {
        self.note_arrival(now);
        let seq: u32 = frame.header.seq;
        let late: bool = match self.next_seq {
            Some(next) => seq_lt(seq, next),
            None => false,
        };
        if frame.header.is_keyframe() {
            if late {
                self.stats.dropped_stale += 1;
                return;
            }
            let n: usize = self.slots.len();
            self.slots = blank_slots(n);
            self.next_seq = Some(seq);
            self.highest_seq = Some(seq);
            self.awaiting_keyframe = false;
            self.last_progress = Some(now);
            self.place(frame);
            return;
        }
        if self.awaiting_keyframe {
            self.stats.dropped_resync += 1;
            return;
        }
        if late {
            self.stats.dropped_stale += 1;
            return;
        }
        if self.next_seq.is_none() {
            self.next_seq = Some(seq);
            self.last_progress = Some(now);
        }
        self.highest_seq = Some(
            match self.highest_seq {
                Some(h) => if seq_lt(h, seq) {
                    seq
                } else {
                    h
                },
                None => seq,
            },
        );
        self.place(frame);
    }

    /// Hands out the frames that can be played at the time `now`: the consecutive frames at the
    /// cursor, behind the holes whose waiting time is over.
    pub fn poll(&mut self, now: u64) -> (out: Vec<Frame>)
        requires
            old(self)@.wf(),
            old(self)@.next_seq is Some && !old(self)@.awaiting_keyframe
                ==> old(self)@.cfg.usable(),
            old(self)@.can_poll(),
        ensures
            out@ == old(self)@.polled(now),
            final(self)@ == old(self)@.after_poll(now),
            final(self)@.wf(),
    {
        let ghost m = self@;
        if self.awaiting_keyframe {
            return Vec::new();
        }
        let first: u32 = match self.next_seq {
            Some(n) => n,
            None => {
                return Vec::new();
            },
        };
        let skipped: u32 = self.skip_holes(first, now);
        let start: u32 = first.wrapping_add(skipped);
        assert(start == m.start(now));
        self.next_seq = Some(start);
        self.stats.dropped_out_of_window += skipped as u64;
        proof {
            m.lemma_skipped_are_holes(now);
        }
        if self.cfg.require_keyframe_resync && skipped > 0 {
            self.awaiting_keyframe = true;
            assert(self@.slots =~= m.without(start, 0));
            assert(self@ =~= m.after_poll(now));
            proof {
                m.lemma_poll_wf(now);
            }
            return Vec::new();
        }
        assert(self@ =~= m.emitting(start, 0, now, skipped as nat)) by {
            assert(m.slots =~= m.without(start, 0));
        }
        let out = self.emit_run(Ghost(m), first, skipped, now);
        proof {
            assert(self@ =~= m.after_poll(now));
            m.lemma_poll_wf(now);
        }
        out
    }

    /// Hands out the consecutive frames behind the `skipped` numbers after `first`; `m` is the
    /// buffer before the poll.
    #[verifier::spinoff_prover]
    #[verifier::rlimit(50)]
    fn emit_run(&mut self, Ghost(m): Ghost<JitterModel>, first: u32, skipped: u32, now: u64) -> (out:
        Vec<Frame>)
        requires
            m.wf(),
            m.cfg.usable(),
            m.can_poll(),
            m.next_seq == Some(first),
            old(self)@ == m.emitting(seq_plus(first, skipped as int), 0, now, skipped as nat),
        ensures
            out@ == m.run(seq_plus(first, skipped as int), m.slots.len()),
            final(self)@ == m.emitting(
                seq_plus(first, skipped as int),
                out@.len(),
                now,
                skipped as nat,
            ),
    {
        let start: u32 = first.wrapping_add(skipped);
        let mut out: Vec<Frame> = Vec::new();
        let mut cur: u32 = start;
        let ghost mut k: nat = 0;
        assert(m.slots =~= m.without(start, 0));
        assert(Seq::<Frame>::empty() + m.run(start, m.slots.len()) =~= m.run(start, m.slots.len()));
        while self.ready(cur)
            invariant
                m.wf(),
                m.cfg.usable(),
                m.can_poll(),
                m.next_seq == Some(first),
                start == seq_plus(first, skipped as int),
                self@ == m.emitting(start, k, now, skipped as nat),
                k == 0 || skipped + k <= 0x8000_0000,
                cur == seq_plus(start, k as int),
                out@.len() == k,
                k + occupied(self@.slots) == occupied(m.slots),
                k <= m.slots.len(),
                out@ + m.run(cur, (m.slots.len() - k) as nat) == m.run(start, m.slots.len()),
            decreases occupied(self@.slots),
        {
            proof {
                m.lemma_emit_step(start, k, cur, first, skipped, now);
            }
            let ghost tail = m.run(seq_plus(cur, 1), (m.slots.len() - k - 1) as nat);
            let frame: Frame = self.take(cur, now);
            assert(out@ + (seq![frame] + tail) =~= out@.push(frame) + tail);
            out.push(frame);
            cur = cur.wrapping_add(1);
            proof {
                k = k + 1;
            }
        }
        proof {
            m.lemma_emit_end(start, k, cur, now, skipped as nat);
            assert(out@ + m.run(cur, (m.slots.len() - k) as nat) =~= out@);
        }
        out
    }

    /// Takes the frame at the cursor out of the ring and moves the cursor on.
    fn take(&mut self, cur: u32, now: u64) -> (frame: Frame)
        requires
            old(self)@.cfg.capacity > 0,
            old(self)@.slots.len() == old(self)@.cfg.capacity,
            old(self)@.holds(cur),
            old(self)@.stats.emitted < u64::MAX,
        ensures
            Some(frame) == old(self)@.slots[old(self)@.slot_of(cur)],
            final(self)@ == (JitterModel {
                slots: old(self)@.slots.update(old(self)@.slot_of(cur), None),
                next_seq: Some(seq_plus(cur, 1)),
                last_progress: Some(now),
                stats: JitterStats {
                    emitted: (old(self)@.stats.emitted + 1) as u64,
                    ..old(self)@.stats
                },
                ..old(self)@
            }),
    {
        let idx: usize = self.index_of(cur);
        let mut taken: Option<Frame> = None;
        std::mem::swap(&mut taken, &mut self.slots[idx]);
        self.next_seq = Some(cur.wrapping_add(1));
        self.last_progress = Some(now);
        self.stats.emitted += 1;
        taken.unwrap()
    }

    /// The number of holes that a poll at `now` gives up.
    fn skip_holes(&self, first: u32, now: u64) -> (skipped: u32)
        requires
            self@.wf(),
            self@.cfg.usable(),
            self@.next_seq == Some(first),
            !self@.awaiting_keyframe,
        ensures
            skipped == self@.skipped(now),
    {
        if !self.is_overdue(now) {
            return 0;
        }
        let slots: u32 = self.cfg.capacity as u32;
        let limit: u32 = if self.cfg.require_keyframe_resync && slots > 1 {
            1
        } else {
            slots
        };
        let mut cur: u32 = first;
        let mut skipped: u32 = 0;
        while skipped < limit && !self.ready(cur) && !self.is_past_all(cur)
            invariant
                self@.wf(),
                self@.cfg.usable(),
                skipped <= limit,
                cur == seq_plus(first, skipped as int),
                self@.holes(first, limit as nat) == skipped + self@.holes(
                    cur,
                    (limit - skipped) as nat,
                ),
            decreases limit - skipped,
        {
            cur = cur.wrapping_add(1);
            skipped += 1;
        }
        skipped
    }
}

proof fn lemma_occupied_bound(slots: Seq<Option<Frame>>)
    ensures
        occupied(slots) <= slots.len(),
    decreases slots.len(),
{
    if slots.len() > 0 {
        lemma_occupied_bound(slots.drop_last());
    }
}

proof fn lemma_occupied_clear(slots: Seq<Option<Frame>>, i: int)
    requires
        0 <= i < slots.len(),
        slots[i] is Some,
    ensures
        occupied(slots.update(i, None)) + 1 == occupied(slots),
    decreases slots.len(),
{
    let after = slots.update(i, None);
    if i == slots.len() - 1 {
        assert(after.drop_last() =~= slots.drop_last());
    } else {
        assert(after.drop_last() =~= slots.drop_last().update(i, None));
        lemma_occupied_clear(slots.drop_last(), i);
    }
}

impl JitterModel {
    proof fn lemma_holes_absent(self, seq: u32, limit: nat, i: int)
        requires
            0 <= i < self.holes(seq, limit),
        ensures
            !self.holds(seq_plus(seq, i)),
            !self.past_all(seq_plus(seq, i)),
        decreases limit,
    {
        if i > 0 {
            self.lemma_holes_absent(seq_plus(seq, 1), (limit - 1) as nat, i - 1);
            assert(seq_plus(seq_plus(seq, 1), i - 1) == seq_plus(seq, i));
        } else {
            assert(seq_plus(seq, 0) == seq);
        }
    }

    proof fn lemma_holes_bound(self, seq: u32, limit: nat)
        ensures
            self.holes(seq, limit) <= limit,
        decreases limit,
    {
        if limit > 0 {
            self.lemma_holes_bound(seq_plus(seq, 1), (limit - 1) as nat);
        }
    }

    /// None of the numbers that a poll gives up is in the ring.
    proof fn lemma_skipped_are_holes(self, now: u64)
        requires
            self.next_seq is Some,
        ensures
            self.skipped(now) <= u32::MAX,
            forall|i: int|
                0 <= i < self.skipped(now) ==> !self.holds(#[trigger] seq_plus(self.next_seq->0, i)),
    {
        self.lemma_holes_bound(self.next_seq->0, self.hole_limit());
        assert forall|i: int| 0 <= i < self.skipped(now) implies !self.holds(
            #[trigger] seq_plus(self.next_seq->0, i),
        ) by {
            self.lemma_holes_absent(self.next_seq->0, self.hole_limit(), i);
        }
    }

    proof fn lemma_run(self, seq: u32, limit: nat, i: int)
        requires
            0 <= i < self.run(seq, limit).len(),
        ensures
            self.holds(seq_plus(seq, i)),
            self.run(seq, limit)[i] == self.slots[self.slot_of(seq_plus(seq, i))]->0,
            self.run(seq, limit)[i].header.seq == seq_plus(seq, i),
        decreases limit,
    {
        assert(seq_plus(seq, 0) == seq);
        if i > 0 {
            self.lemma_run(seq_plus(seq, 1), (limit - 1) as nat, i - 1);
            assert(seq_plus(seq_plus(seq, 1), i - 1) == seq_plus(seq, i));
        }
    }

    /// One more frame leaves the ring in the middle of a poll.
    proof fn lemma_emit_step(
        self,
        start: u32,
        k: nat,
        cur: u32,
        first: u32,
        skipped: u32,
        now: u64,
    )
        requires
            self.wf(),
            self.cfg.capacity > 0,
            self.can_poll(),
            self.next_seq == Some(first),
            start == seq_plus(first, skipped as int),
            cur == seq_plus(start, k as int),
            k == 0 || skipped + k <= 0x8000_0000,
            k + occupied(self.without(start, k)) == occupied(self.slots),
            self.emitting(start, k, now, skipped as nat).holds(cur),
        ensures
            self.slots[self.slot_of(cur)] == self.without(start, k)[self.slot_of(cur)],
            k + 1 <= self.slots.len(),
            skipped + k + 1 <= 0x8000_0000,
            self.run(cur, (self.slots.len() - k) as nat) == seq![
                self.slots[self.slot_of(cur)]->0,
            ] + self.run(seq_plus(cur, 1), (self.slots.len() - k - 1) as nat),
            seq_plus(cur, 1) == seq_plus(start, k as int + 1),
            k + 1 + occupied(self.without(start, k + 1)) == occupied(self.slots),
            occupied(self.without(start, k + 1)) < occupied(self.without(start, k)),
            self.emitting(start, k + 1, now, skipped as nat) == (JitterModel {
                slots: self.without(start, k).update(self.slot_of(cur), None),
                next_seq: Some(seq_plus(cur, 1)),
                last_progress: Some(now),
                stats: JitterStats {
                    emitted: (self.stats.emitted + k + 1) as u64,
                    dropped_out_of_window: (self.stats.dropped_out_of_window + skipped) as u64,
                    ..self.stats
                },
                ..self
            }),
    {
        let idx = self.slot_of(cur);
        let f = self.slots[idx]->0;
        assert(0 <= idx < self.slots.len());
        assert(self.without(start, k)[idx] == Some(f));
        assert(f.header.seq == cur);
        assert(!before(cur, first));
        assert(self.holds(cur));
        lemma_run_step(first, skipped as int, start, k as int, cur);
        self.lemma_without_next(start, k, cur);
        lemma_occupied_clear(self.without(start, k), idx);
        lemma_occupied_bound(self.slots);
    }

    /// A number that is not in the ring in the middle of a poll was not in it before, unless it
    /// left with this poll.
    proof fn lemma_emit_end(self, start: u32, k: nat, cur: u32, now: u64, skipped: nat)
        requires
            self.wf(),
            self.cfg.capacity > 0,
            cur == seq_plus(start, k as int),
            k <= 0x8000_0000,
            !self.emitting(start, k, now, skipped).holds(cur),
        ensures
            !self.holds(cur),
    {
        let i = self.slot_of(cur);
        assert(0 <= i < self.slots.len());
        assert(seq_plus(start, 0) == start);
        lemma_dist_of_plus(start, 0, k as int);
        if self.holds(cur) {
            assert(self.without(start, k)[i] == self.slots[i]);
        }
    }

    proof fn lemma_without_next(self, start: u32, k: nat, cur: u32)
        requires
            self.wf(),
            self.cfg.capacity > 0,
            self.holds(cur),
            seq_dist(start, cur) == k,
        ensures
            self.without(start, k).update(self.slot_of(cur), None) =~= self.without(start, k + 1),
    {
        let idx = self.slot_of(cur);
        assert(0 <= idx < self.slots.len());
        let a = self.without(start, k).update(idx, None);
        let b = self.without(start, k + 1);
        assert forall|j: int| 0 <= j < self.slots.len() implies #[trigger] a[j] == b[j] by {
            if self.slots[j] is Some {
                let g = self.slots[j]->0;
                assert(self.slot_of(g.header.seq) == j);
                if seq_dist(start, g.header.seq) == k {
                    lemma_dist_injective(start, g.header.seq, cur);
                }
            }
        }
    }

    /// Frames that stay in the ring after `s` holes and `n` frames went are ahead of the cursor.
    proof fn lemma_kept_ahead(self, s: int, n: nat, i: int)
        requires
            self.wf(),
            self.cfg.capacity > 0,
            self.next_seq is Some,
            0 <= s <= u32::MAX,
            forall|j: int| 0 <= j < s ==> !self.holds(#[trigger] seq_plus(self.next_seq->0, j)),
            0 <= i < self.slots.len(),
            self.without(seq_plus(self.next_seq->0, s), n)[i] is Some,
        ensures
            self.slots[i] is Some,
            self.without(seq_plus(self.next_seq->0, s), n)[i] == self.slots[i],
            !before(
                self.slots[i]->0.header.seq,
                seq_plus(seq_plus(self.next_seq->0, s), n as int),
            ),
    {
        let first = self.next_seq->0;
        let f = self.slots[i]->0;
        let e = seq_dist(first, f.header.seq);
        assert(self.slot_of(f.header.seq) == i);
        assert(self.holds(f.header.seq));
        lemma_plus_of_dist(first, f.header.seq);
        assert(e >= s);
        lemma_dist_of_plus(first, s, e);
        lemma_plus_plus(first, s, n as int);
        lemma_dist_of_plus(first, s + n, e);
        lemma_before_is_dist(first, f.header.seq);
        lemma_before_is_dist(seq_plus(first, s + n), f.header.seq);
    }

    /// The state in the middle of a poll: `k` frames from `start` on are out.
    spec fn emitting(self, start: u32, k: nat, now: u64, skipped: nat) -> JitterModel {
        JitterModel {
            slots: self.without(start, k),
            next_seq: Some(seq_plus(start, k as int)),
            last_progress: if k > 0 {
                Some(now)
            } else {
                self.last_progress
            },
            stats: JitterStats {
                emitted: (self.stats.emitted + k) as u64,
                dropped_out_of_window: (self.stats.dropped_out_of_window + skipped) as u64,
                ..self.stats
            },
            ..self
        }
    }

    /// A poll keeps the buffer well-formed.
    proof fn lemma_poll_wf(self, now: u64)
        requires
            self.wf(),
            self.next_seq is Some ==> self.cfg.capacity > 0,
        ensures
            self.after_poll(now).wf(),
    {
        if !self.awaiting_keyframe && self.next_seq is Some {
            let post = self.after_poll(now);
            let s = self.skipped(now);
            let n = self.polled(now).len();
            self.lemma_skipped_are_holes(now);
            assert(post.slots =~= self.without(seq_plus(self.next_seq->0, s as int), n));
            assert forall|i: int| 0 <= i < post.slots.len() implies (
            #[trigger] post.slots[i] matches Some(f) ==> {
                &&& post.next_seq is Some
                &&& post.slot_of(f.header.seq) == i
                &&& !before(f.header.seq, post.next_seq->0)
            }) by {
                if post.slots[i] is Some {
                    self.lemma_kept_ahead(s as int, n, i);
                }
            }
        }
    }
}

proof fn lemma_run_span(m: JitterModel, now: u64)
    requires
        m.wf(),
        m.cfg.capacity > 0,
    ensures
        m.polled(now).len() > 0 ==> m.skipped(now) + m.polled(now).len() <= 0x8000_0000,
{
    let n = m.polled(now).len();
    if n > 0 {
        m.lemma_skipped_are_holes(now);
        lemma_run_offsets(m, now, n);
    }
}

proof fn lemma_run_offsets(m: JitterModel, now: u64, n: nat)
    requires
        m.wf(),
        m.cfg.capacity > 0,
        n <= m.polled(now).len(),
        m.skipped(now) <= u32::MAX,
    ensures
        n > 0 ==> m.skipped(now) + n <= 0x8000_0000,
    decreases n,
{
    if n > 0 {
        lemma_run_offsets(m, now, (n - 1) as nat);
        let i = n - 1;
        m.lemma_run(m.start(now), m.slots.len(), i);
        let seq = seq_plus(m.start(now), i);
        assert(m.slots[m.slot_of(seq)] is Some);
        assert(0 <= m.slot_of(seq) < m.slots.len());
        assert(!before(seq, m.next_seq->0));
        lemma_run_step(m.next_seq->0, m.skipped(now) as int, m.start(now), i, seq);
    }
}

/// A poll hands frames out in sequence order without gaps: the first one is where the poll
/// starts, and each further one has the next number.
pub proof fn law_poll_consecutive(m: JitterModel, now: u64, i: int)
    requires
        0 <= i < m.polled(now).len(),
    ensures
        m.polled(now)[i].header.seq == seq_plus(m.start(now), i),
{
    m.lemma_run(m.start(now), m.slots.len(), i);
}

/// A poll hands out only frames that were pushed and kept.
pub proof fn law_poll_only_held(m: JitterModel, now: u64, i: int)
    requires
        m.wf(),
        m.cfg.capacity > 0,
        0 <= i < m.polled(now).len(),
    ensures
        m.slots.contains(Some(m.polled(now)[i])),
{
    m.lemma_run(m.start(now), m.slots.len(), i);
    let j = m.slot_of(seq_plus(m.start(now), i));
    assert(m.slots[j] == Some(m.polled(now)[i]));
}

/// No frame behind the cursor is handed out.
pub proof fn law_poll_not_behind_cursor(m: JitterModel, now: u64, i: int)
    requires
        m.wf(),
        m.cfg.capacity > 0,
        0 <= i < m.polled(now).len(),
    ensures
        m.next_seq is Some,
        !before(m.polled(now)[i].header.seq, m.next_seq->0),
{
    m.lemma_run(m.start(now), m.slots.len(), i);
    let j = m.slot_of(seq_plus(m.start(now), i));
    assert(m.slots[j] is Some);
    assert(0 <= j < m.slots.len());
}

/// A number that was handed out is late from then on: a second frame with it is dropped.
pub proof fn law_emitted_once(m: JitterModel, now: u64, i: int)
    requires
        m.wf(),
        m.cfg.capacity > 0,
        0 <= i < m.polled(now).len(),
    ensures
        m.after_poll(now).late(m.polled(now)[i].header.seq),
{
    let n = m.polled(now).len();
    lemma_run_span(m, now);
    law_poll_consecutive(m, now, i);
    lemma_earlier(m.start(now), i, n as int);
    assert(m.after_poll(now).next_seq == Some(seq_plus(m.start(now), n as int)));
}

proof fn lemma_earlier(start: u32, i: int, n: int)
    requires
        0 <= i < n <= 0x8000_0000,
    ensures
        before(seq_plus(start, i), seq_plus(start, n)),
{
}

/// While a key frame is awaited nothing is handed out, and only a key frame ends the wait.
pub proof fn law_resync_needs_keyframe(m: JitterModel, frame: Frame, now: u64)
    requires
        m.awaiting_keyframe,
    ensures
        m.polled(now).len() == 0,
        m.after_poll(now) == m,
        m.after_push(frame, now).awaiting_keyframe <==> !frame.header.keyframe() || m.late(
            frame.header.seq,
        ),
{
}

/// The ring never grows: whatever is pushed and polled, the buffer has the slots it was made
/// with, and holds at most one frame in each.
pub proof fn law_memory_bounded(m: JitterModel, frame: Frame, now: u64)
    requires
        m.wf(),
        m.cfg.capacity > 0,
    ensures
        m.after_push(frame, now).slots.len() == m.slots.len(),
        m.after_poll(now).slots.len() == m.slots.len(),
        occupied(m.slots) <= m.slots.len(),
{
    lemma_occupied_bound(m.slots);
}

/// A push never moves the cursor back.
pub proof fn law_push_cursor_forward(m: JitterModel, frame: Frame, now: u64)
    requires
        m.next_seq is Some,
    ensures
        m.after_push(frame, now).next_seq is Some,
        !before(m.after_push(frame, now).next_seq->0, m.next_seq->0),
{
}

/// A hole is waited for: before the waiting time is over, a poll gives up nothing.
pub proof fn law_hole_waited_for(m: JitterModel, now: u64)
    requires
        !m.overdue(now),
    ensures
        m.skipped(now) == 0,
        m.next_seq is Some && !m.awaiting_keyframe && !m.holds(m.next_seq->0) ==> m.polled(now).len()
            == 0,
{
    if m.next_seq is Some {
        assert(seq_plus(m.next_seq->0, 0) == m.next_seq->0);
    }
}

/// What a poll does to the counters: the frames handed out and the numbers given up are added,
/// and the other counters stay.
pub proof fn law_poll_counts(m: JitterModel, now: u64)
    requires
        m.wf(),
        m.cfg.capacity > 0,
        m.can_poll(),
    ensures
        m.after_poll(now).stats.emitted == m.stats.emitted + m.polled(now).len(),
        m.after_poll(now).stats.dropped_out_of_window == m.stats.dropped_out_of_window
            + m.skipped(now),
        m.after_poll(now).stats.received == m.stats.received,
        m.after_poll(now).stats.dropped_resync == m.stats.dropped_resync,
        m.after_poll(now).stats.dropped_stale == m.stats.dropped_stale,
{
    if m.next_seq is Some && !m.awaiting_keyframe {
        m.lemma_skipped_are_holes(now);
        m.lemma_taken_out(now, m.polled(now).len());
    }
}

/// What a push does to the counters: the frame is received, and at most one of the two counters
/// of dropped frames goes up; nothing is handed out or given up.
pub proof fn law_push_counts(m: JitterModel, frame: Frame, now: u64)
    requires
        m.can_push(),
    ensures
        m.after_push(frame, now).stats.received == m.stats.received + 1,
        m.after_push(frame, now).stats.emitted == m.stats.emitted,
        m.after_push(frame, now).stats.dropped_out_of_window == m.stats.dropped_out_of_window,
        m.stats.dropped_resync + m.stats.dropped_stale <= m.after_push(
            frame,
            now,
        ).stats.dropped_resync + m.after_push(frame, now).stats.dropped_stale
            <= m.stats.dropped_resync + m.stats.dropped_stale + 1,
{
}

/// A poll that handed out something has handed out all there is: a second one at the same time
/// hands out nothing and changes nothing.
pub proof fn law_poll_again_gives_nothing(m: JitterModel, now: u64)
    requires
        m.wf(),
        m.cfg.capacity > 0,
        m.can_poll(),
        m.polled(now).len() > 0,
    ensures
        m.after_poll(now).polled(now).len() == 0,
        m.after_poll(now).after_poll(now) == m.after_poll(now),
{
    let n = m.polled(now).len();
    let post = m.after_poll(now);
    let next = post.next_seq->0;
    assert(!post.overdue(now));
    assert(post.skipped(now) == 0);
    assert(seq_plus(next, 0) == next);
    m.lemma_taken_out(now, n);
    lemma_occupied_bound(m.slots);
    if n == m.slots.len() {
        lemma_none_occupied(post.slots, post.slot_of(next));
    } else {
        m.lemma_run_ends(m.start(now), m.slots.len());
        if post.holds(next) {
            assert(post.slots[post.slot_of(next)] == m.slots[m.slot_of(next)]);
        }
    }
    assert(!post.holds(next));
    assert(post.without(next, 0) =~= post.slots);
}

/// What a poll gives up is bounded: one number on a track that then waits for a key frame, else
/// as many as there are slots.
pub proof fn law_given_up_bounded(m: JitterModel, now: u64)
    ensures
        m.cfg.require_keyframe_resync ==> m.skipped(now) <= 1,
        m.skipped(now) <= m.cfg.capacity,
{
    let c = m.cfg.capacity;
    assert((c as u32) as usize <= c) by (bit_vector);
    if m.next_seq is Some {
        m.lemma_holes_bound(m.next_seq->0, m.hole_limit());
    }
}

/// Only holes are given up: the `i`-th number that a poll gives up is not in the ring, and is not
/// beyond everything that arrived.
pub proof fn law_only_holes_given_up(m: JitterModel, now: u64, i: int)
    requires
        0 <= i < m.skipped(now),
    ensures
        m.next_seq is Some,
        !m.holds(seq_plus(m.next_seq->0, i)),
        !m.past_all(seq_plus(m.next_seq->0, i)),
{
    m.lemma_holes_absent(m.next_seq->0, m.hole_limit(), i);
}

/// How often `x` occurs in `s`.
pub open spec fn times<A>(s: Seq<A>, x: A) -> nat
    decreases s.len(),
{
    if s.len() == 0 {
        0
    } else {
        times(s.drop_last(), x) + (if s.last() == x {
            1nat
        } else {
            0nat
        })
    }
}

proof fn lemma_times_update<A>(s: Seq<A>, i: int, y: A, x: A)
    requires
        0 <= i < s.len(),
    ensures
        times(s.update(i, y), x) + (if s[i] == x {
            1nat
        } else {
            0nat
        }) == times(s, x) + (if y == x {
            1nat
        } else {
            0nat
        }),
    decreases s.len(),
{
    let after = s.update(i, y);
    if i == s.len() - 1 {
        assert(after.drop_last() =~= s.drop_last());
    } else {
        assert(after.drop_last() =~= s.drop_last().update(i, y));
        lemma_times_update(s.drop_last(), i, y, x);
    }
}

proof fn lemma_times_push<A>(s: Seq<A>, y: A, x: A)
    ensures
        times(s.push(y), x) == times(s, x) + (if y == x {
            1nat
        } else {
            0nat
        }),
{
    assert(s.push(y).drop_last() =~= s);
}

proof fn lemma_times_join<A>(a: Seq<A>, b: Seq<A>, x: A)
    ensures
        times(a + b, x) == times(a, x) + times(b, x),
    decreases b.len(),
{
    if b.len() == 0 {
        assert(a + b =~= a);
    } else {
        assert((a + b).drop_last() =~= a + b.drop_last());
        lemma_times_join(a, b.drop_last(), x);
    }
}

proof fn lemma_times_absent<A>(s: Seq<A>, x: A)
    requires
        forall|i: int| 0 <= i < s.len() ==> s[i] != x,
    ensures
        times(s, x) == 0,
    decreases s.len(),
{
    if s.len() > 0 {
        lemma_times_absent(s.drop_last(), x);
    }
}

proof fn lemma_none_occupied(slots: Seq<Option<Frame>>, i: int)
    requires
        occupied(slots) == 0,
        0 <= i < slots.len(),
    ensures
        slots[i] is None,
{
    if slots[i] is Some {
        lemma_occupied_clear(slots, i);
    }
}

proof fn lemma_blank_occupied(slots: Seq<Option<Frame>>)
    requires
        forall|i: int| 0 <= i < slots.len() ==> slots[i] is None,
    ensures
        occupied(slots) == 0,
    decreases slots.len(),
{
    if slots.len() > 0 {
        lemma_blank_occupied(slots.drop_last());
    }
}

proof fn lemma_occupied_set(slots: Seq<Option<Frame>>, i: int, frame: Frame)
    requires
        0 <= i < slots.len(),
    ensures
        occupied(slots.update(i, Some(frame))) == occupied(slots) + (if slots[i] is Some {
            0nat
        } else {
            1nat
        }),
    decreases slots.len(),
{
    let after = slots.update(i, Some(frame));
    if i == slots.len() - 1 {
        assert(after.drop_last() =~= slots.drop_last());
    } else {
        assert(after.drop_last() =~= slots.drop_last().update(i, Some(frame)));
        lemma_occupied_set(slots.drop_last(), i, frame);
    }
}

impl JitterModel {
    /// A run that is shorter than its limit ends before a number that is not in the ring.
    proof fn lemma_run_ends(self, seq: u32, limit: nat)
        ensures
            self.run(seq, limit).len() <= limit,
            self.run(seq, limit).len() < limit ==> !self.holds(
                seq_plus(seq, self.run(seq, limit).len() as int),
            ),
        decreases limit,
    {
        assert(seq_plus(seq, 0) == seq);
        if limit > 0 && self.holds(seq) {
            let next = seq_plus(seq, 1);
            let n = self.run(next, (limit - 1) as nat).len();
            self.lemma_run_ends(next, (limit - 1) as nat);
            lemma_plus_plus(seq, 1, n as int);
        }
    }

    /// The first `k` frames of a poll leave the ring, each of them once.
    proof fn lemma_taken_out(self, now: u64, k: nat)
        requires
            self.wf(),
            self.cfg.capacity > 0,
            k <= self.polled(now).len(),
        ensures
            self.polled(now).len() <= self.slots.len(),
            k + occupied(self.without(self.start(now), k)) == occupied(self.slots),
            forall|f: Frame|
                #![trigger times(self.polled(now).take(k as int), f)]
                times(self.polled(now).take(k as int), f) + times(
                    self.without(self.start(now), k),
                    Some(f),
                ) == times(self.slots, Some(f)),
        decreases k,
    {
        let start = self.start(now);
        let out = self.polled(now);
        self.lemma_run_ends(start, self.slots.len());
        if k == 0 {
            assert(self.without(start, 0) =~= self.slots);
            assert(out.take(0) =~= Seq::<Frame>::empty());
        } else {
            let j = (k - 1) as nat;
            self.lemma_taken_out(now, j);
            self.lemma_skipped_are_holes(now);
            self.lemma_run(start, self.slots.len(), j as int);
            lemma_run_span(self, now);
            let cur = seq_plus(start, j as int);
            let idx = self.slot_of(cur);
            lemma_dist_of_plus(start, 0, j as int);
            assert(seq_plus(start, 0) == start);
            self.lemma_without_next(start, j, cur);
            let before_it = self.without(start, j);
            assert(0 <= idx < self.slots.len());
            assert(before_it[idx] == Some(out[j as int]));
            lemma_occupied_clear(before_it, idx);
            assert(out.take(k as int) =~= out.take(j as int).push(out[j as int]));
            assert forall|f: Frame|
                #![trigger times(out.take(k as int), f)]
                times(out.take(k as int), f) + times(self.without(start, k), Some(f)) == times(
                    self.slots,
                    Some(f),
                ) by {
                lemma_times_push(out.take(j as int), out[j as int], f);
                lemma_times_update(before_it, idx, None, Some(f));
                assert(times(out.take(j as int), f) + times(before_it, Some(f)) == times(
                    self.slots,
                    Some(f),
                ));
            }
        }
    }

    /// A push keeps the buffer well-formed, and adds the frame at most once.
    proof fn lemma_push_adds(self, frame: Frame, now: u64)
        requires
            self.wf(),
            self.cfg.capacity > 0,
            self.can_push(),
        ensures
            self.after_push(frame, now).wf(),
            self.after_push(frame, now).cfg == self.cfg,
            occupied(self.after_push(frame, now).slots) + self.after_push(
                frame,
                now,
            ).stats.dropped_resync + self.after_push(frame, now).stats.dropped_stale <= occupied(
                self.slots,
            ) + self.stats.dropped_resync + self.stats.dropped_stale + 1,
            forall|f: Frame|
                #![trigger times(self.slots, Some(f))]
                times(self.after_push(frame, now).slots, Some(f)) <= times(self.slots, Some(f)) + (
                if f == frame {
                    1nat
                } else {
                    0nat
                }),
    {
        let i = self.slot_of(frame.header.seq);
        assert(0 <= i < self.slots.len());
        let blank = self.blank();
        lemma_blank_occupied(blank);
        lemma_occupied_set(blank, i, frame);
        lemma_occupied_set(self.slots, i, frame);
        assert forall|f: Frame|
            #![trigger times(self.slots, Some(f))]
            times(self.after_push(frame, now).slots, Some(f)) <= times(self.slots, Some(f)) + (
            if f == frame {
                1nat
            } else {
                0nat
            }) by {
            lemma_times_absent(blank, Some(f));
            lemma_times_update(blank, i, Some(frame), Some(f));
            lemma_times_update(self.slots, i, Some(frame), Some(f));
        }
    }
}

/// One call on a jitter buffer.
pub enum JitterCall {
    Push { frame: Frame, now: u64 },
    Poll { now: u64 },
}

/// The buffer after these calls on a new one.
pub open spec fn after_calls(cfg: JitterConfig, calls: Seq<JitterCall>) -> JitterModel
    decreases calls.len(),
{
    if calls.len() == 0 {
        JitterModel::fresh(cfg)
    } else {
        let m = after_calls(cfg, calls.drop_last());
        match calls.last() {
            JitterCall::Push { frame, now } => m.after_push(frame, now),
            JitterCall::Poll { now } => m.after_poll(now),
        }
    }
}

/// The frames that these calls push.
pub open spec fn pushed(calls: Seq<JitterCall>) -> Seq<Frame>
    decreases calls.len(),
{
    if calls.len() == 0 {
        Seq::empty()
    } else {
        match calls.last() {
            JitterCall::Push { frame, .. } => pushed(calls.drop_last()).push(frame),
            JitterCall::Poll { .. } => pushed(calls.drop_last()),
        }
    }
}

/// The frames that these calls on a new buffer hand out.
pub open spec fn handed_out(cfg: JitterConfig, calls: Seq<JitterCall>) -> Seq<Frame>
    decreases calls.len(),
{
    if calls.len() == 0 {
        Seq::empty()
    } else {
        let earlier = handed_out(cfg, calls.drop_last());
        match calls.last() {
            JitterCall::Push { .. } => earlier,
            JitterCall::Poll { now } => earlier + after_calls(cfg, calls.drop_last()).polled(now),
        }
    }
}

/// Whether the counters can hold what these calls add to them.
pub open spec fn countable(cfg: JitterConfig, calls: Seq<JitterCall>) -> bool
    decreases calls.len(),
{
    calls.len() == 0 || {
        let m = after_calls(cfg, calls.drop_last());
        &&& countable(cfg, calls.drop_last())
        &&& match calls.last() {
            JitterCall::Push { .. } => m.can_push(),
            JitterCall::Poll { .. } => m.can_poll(),
        }
    }
}

/// Over any history of a buffer every push is counted, every frame handed out is counted, and no
/// frame is counted twice: the frames that were handed out, were dropped or are held are no more
/// than those received. No more frames are held than there are slots.
pub proof fn law_counters_over_history(cfg: JitterConfig, calls: Seq<JitterCall>)
    requires
        cfg.capacity > 0,
        countable(cfg, calls),
    ensures
        after_calls(cfg, calls).wf(),
        after_calls(cfg, calls).cfg == cfg,
        after_calls(cfg, calls).stats.received == pushed(calls).len(),
        after_calls(cfg, calls).stats.emitted == handed_out(cfg, calls).len(),
        after_calls(cfg, calls).stats.emitted + after_calls(cfg, calls).stats.dropped_resync
            + after_calls(cfg, calls).stats.dropped_stale + occupied(after_calls(cfg, calls).slots)
            <= after_calls(cfg, calls).stats.received,
        occupied(after_calls(cfg, calls).slots) <= cfg.capacity,
    decreases calls.len(),
{
    let post = after_calls(cfg, calls);
    if calls.len() == 0 {
        lemma_blank_occupied(post.slots);
    } else {
        law_counters_over_history(cfg, calls.drop_last());
        let m = after_calls(cfg, calls.drop_last());
        match calls.last() {
            JitterCall::Push { frame, now } => {
                m.lemma_push_adds(frame, now);
                law_push_counts(m, frame, now);
            },
            JitterCall::Poll { now } => {
                m.lemma_poll_wf(now);
                law_poll_counts(m, now);
                lemma_poll_takes(m, now);
            },
        }
    }
    lemma_occupied_bound(post.slots);
}

proof fn lemma_poll_takes(m: JitterModel, now: u64)
    requires
        m.wf(),
        m.cfg.capacity > 0,
    ensures
        m.polled(now).len() + occupied(m.after_poll(now).slots) == occupied(m.slots),
        forall|f: Frame|
            #![trigger times(m.polled(now), f)]
            times(m.polled(now), f) + times(m.after_poll(now).slots, Some(f)) == times(
                m.slots,
                Some(f),
            ),
{
    let n = m.polled(now).len();
    m.lemma_taken_out(now, n);
    assert(m.polled(now).take(n as int) =~= m.polled(now));
}

/// Over any history of a buffer a frame is handed out at most as often as it was pushed: what
/// comes out was pushed, and each push comes out once at most.
pub proof fn law_handed_out_was_pushed(cfg: JitterConfig, calls: Seq<JitterCall>, f: Frame)
    requires
        cfg.capacity > 0,
        countable(cfg, calls),
    ensures
        times(handed_out(cfg, calls), f) + times(after_calls(cfg, calls).slots, Some(f)) <= times(
            pushed(calls),
            f,
        ),
    decreases calls.len(),
{
    if calls.len() == 0 {
        lemma_times_absent(after_calls(cfg, calls).slots, Some(f));
    } else {
        let earlier = calls.drop_last();
        law_handed_out_was_pushed(cfg, earlier, f);
        law_counters_over_history(cfg, earlier);
        let m = after_calls(cfg, earlier);
        match calls.last() {
            JitterCall::Push { frame, now } => {
                m.lemma_push_adds(frame, now);
                lemma_times_push(pushed(earlier), frame, f);
            },
            JitterCall::Poll { now } => {
                lemma_poll_takes(m, now);
                lemma_times_join(handed_out(cfg, earlier), m.polled(now), f);
            },
        }
    }
}

/// The waiting time stays within the configured bounds.
pub proof fn law_wait_within_bounds(m: JitterModel)
    requires
        m.cfg.adaptive ==> m.cfg.min_wait <= m.cfg.max_wait,
    ensures
        m.wait() <= m.cfg.max_wait,
        m.cfg.adaptive ==> m.cfg.min_wait <= m.wait(),
{
}

impl JitterModel {
    /// Whether nothing is held and nothing is missing: all that arrived was handed out.
    #[verifier::opaque]
    pub open spec fn caught_up(self) -> bool {
        &&& self.wf()
        &&& self.cfg.capacity > 0
        &&& !self.awaiting_keyframe
        &&& forall|i: int| 0 <= i < self.slots.len() ==> (#[trigger] self.slots[i]) is None
        &&& self.next_seq matches Some(n) ==> self.highest_seq == Some(seq_plus(n, -1))
    }

    pub(crate) proof fn lemma_idle_poll(self, now: u64)
        requires
            self.caught_up(),
        ensures
            self.polled(now).len() == 0,
            self.after_poll(now).caught_up(),
            self.after_poll(now).next_seq == self.next_seq,
            self.after_poll(now).cfg == self.cfg,
            self.after_poll(now).stats.dropped_stale == self.stats.dropped_stale,
    {
        reveal(JitterModel::caught_up);
        if self.next_seq is Some {
            let n = self.next_seq->0;
            assert(0 <= self.slot_of(n) < self.slots.len());
            assert(!self.holds(n));
            assert(self.past_all(n));
            assert(self.skipped(now) == 0);
            assert(seq_plus(n, 0) == n);
            assert(self.without(n, 0) =~= self.slots);
            self.lemma_poll_wf(now);
        }
    }

    pub(crate) proof fn lemma_in_turn(self, frame: Frame, now: u64, then: u64)
        requires
            self.caught_up(),
            self.next_seq is None || self.next_seq == Some(frame.header.seq),
        ensures
            self.after_push(frame, now).polled(then) == seq![frame],
            self.after_push(frame, now).after_poll(then).caught_up(),
            self.after_push(frame, now).after_poll(then).next_seq == Some(
                seq_plus(frame.header.seq, 1),
            ),
            self.after_push(frame, now).after_poll(then).cfg == self.cfg,
            self.after_push(frame, now).after_poll(then).stats.dropped_stale
                == self.stats.dropped_stale,
            self.after_push(frame, now).stats.dropped_resync == self.stats.dropped_resync,
            self.after_push(frame, now).stats.dropped_stale == self.stats.dropped_stale,
            self.after_push(frame, now).after_poll(then).stats.dropped_out_of_window
                == self.stats.dropped_out_of_window,
    {
        reveal(JitterModel::caught_up);
        let seq = frame.header.seq;
        let m = self.after_push(frame, now);
        let i = self.slot_of(seq);
        assert(0 <= i < self.slots.len());
        assert(!before(seq, seq));
        if self.next_seq is Some {
            assert(before(seq_plus(seq, -1), seq));
        }
        assert(m.wf());
        assert(m.highest_seq == Some(seq));
        assert(m.slots[i] == Some(frame));
        assert(forall|j: int| 0 <= j < m.slots.len() && j != i ==> (#[trigger] m.slots[j]) is None);
        assert(m.holds(seq));
        assert(m.skipped(then) == 0);
        assert(seq_plus(seq, 0) == seq);
        let next = seq_plus(seq, 1);
        assert(next != seq);
        assert(!m.holds(next)) by {
            assert(0 <= m.slot_of(next) < m.slots.len());
        }
        let len = m.slots.len();
        assert(m.run(next, (len - 1) as nat) =~= Seq::<Frame>::empty());
        assert(m.run(seq, len) =~= seq![frame]);
        let post = m.after_poll(then);
        assert(seq_dist(seq, seq) == 0);
        assert(post.slots[i] is None);
        m.lemma_poll_wf(then);
        assert(seq_plus(next, -1) == seq);
    }
}

/// A buffer that is caught up hands out a frame in turn at once, as it came, whatever the times:
/// nothing that arrives in order is dropped or held back.
pub proof fn law_frame_in_turn_comes_out(
    pushed_to: &mut JitterBuffer,
    frame: Frame,
    now: u64,
    polled_from: &mut JitterBuffer,
    then: u64,
    out: Vec<Frame>,
)
    requires
        old(pushed_to)@.caught_up(),
        old(pushed_to)@.next_seq is None || old(pushed_to)@.next_seq == Some(frame.header.seq),
        call_ensures(JitterBuffer::push, (pushed_to, frame, now), ()),
        *old(polled_from) == *final(pushed_to),
        call_ensures(JitterBuffer::poll, (polled_from, then), out),
    ensures
        out@ == seq![frame],
        final(polled_from)@.caught_up(),
        final(polled_from)@.next_seq == Some(seq_plus(frame.header.seq, 1)),
        final(polled_from)@.stats.dropped_resync == old(pushed_to)@.stats.dropped_resync,
        final(polled_from)@.stats.dropped_stale == old(pushed_to)@.stats.dropped_stale,
{
    old(pushed_to)@.lemma_in_turn(frame, now, then);
}

/// A new buffer is caught up, waits for no particular number, and has counted nothing.
pub proof fn law_new_buffer_is_caught_up(cfg: JitterConfig, r: JitterBuffer)
    requires
        cfg.capacity > 0,
        call_ensures(JitterBuffer::new, (cfg,), r),
    ensures
        r@.caught_up(),
        r@.next_seq is None,
        r@.stats.received == 0,
        r@.stats.emitted == 0,
        r@.stats.dropped_out_of_window == 0,
        r@.stats.dropped_resync == 0,
        r@.stats.dropped_stale == 0,
        r@.cfg == cfg,
{
    reveal(JitterModel::caught_up);
}

/// A frame that comes too early is kept: unless it is late, waits for a key frame or finds its slot
/// taken, it is held after the push, and so is everything that was held before, except that a key
/// frame makes all older frames void.
pub proof fn law_early_frame_is_kept(
    b: &mut JitterBuffer,
    frame: Frame,
    now: u64,
    other: u32,
)
    requires
        old(b)@.wf(),
        old(b)@.cfg.capacity > 0,
        !frame.header.keyframe(),
        !old(b)@.awaiting_keyframe,
        !old(b)@.late(frame.header.seq),
        old(b)@.slots[old(b)@.slot_of(frame.header.seq)] is None,
        call_ensures(JitterBuffer::push, (b, frame, now), ()),
    ensures
        final(b)@.holds(frame.header.seq),
        final(b)@.slots.contains(Some(frame)),
        old(b)@.holds(other) ==> final(b)@.holds(other),
        old(b)@.next_seq is Some ==> final(b)@.next_seq == old(b)@.next_seq,
        final(b)@.stats.dropped_stale == old(b)@.stats.dropped_stale,
        final(b)@.stats.dropped_resync == old(b)@.stats.dropped_resync,
{
    let m = old(b)@;
    let i = m.slot_of(frame.header.seq);
    assert(0 <= i < m.slots.len());
    assert(final(b)@.slots[i] == Some(frame));
    assert(0 <= m.slot_of(other) < m.slots.len());
}

/// A poll hands out all that can be played: it begins with the frame at the cursor, and stops only
/// before a number that is not held.
pub proof fn law_ready_frames_come_out(b: &mut JitterBuffer, now: u64, out: Vec<Frame>, k: nat)
    requires
        old(b)@.wf(),
        old(b)@.cfg.capacity > 0,
        !old(b)@.awaiting_keyframe,
        old(b)@.next_seq is Some,
        k < old(b)@.slots.len(),
        forall|j: int| 0 <= j <= k ==> old(b)@.holds(#[trigger] seq_plus(old(b)@.next_seq->0, j)),
        call_ensures(JitterBuffer::poll, (b, now), out),
    ensures
        out@.len() > k,
        out@[k as int].header.seq == seq_plus(old(b)@.next_seq->0, k as int),
        out@[k as int] == old(b)@.slots[old(b)@.slot_of(out@[k as int].header.seq)]->0,
{
    let m = old(b)@;
    let n = m.next_seq->0;
    assert(seq_plus(n, 0) == n);
    assert(m.holds(n));
    assert(m.skipped(now) == 0);
    m.lemma_run_reaches(n, m.slots.len(), k);
    m.lemma_run(n, m.slots.len(), k as int);
}

impl JitterModel {
    proof fn lemma_run_reaches(self, seq: u32, limit: nat, k: nat)
        requires
            k < limit,
            forall|j: int| 0 <= j <= k ==> self.holds(#[trigger] seq_plus(seq, j)),
        ensures
            self.run(seq, limit).len() > k,
        decreases k,
    {
        assert(seq_plus(seq, 0) == seq);
        assert(self.holds(seq_plus(seq, 0)));
        if k > 0 {
            let next = seq_plus(seq, 1);
            assert forall|j: int| 0 <= j <= k - 1 implies self.holds(
                #[trigger] seq_plus(next, j),
            ) by {
                lemma_plus_plus(seq, 1, j);
                assert(self.holds(seq_plus(seq, j + 1)));
            }
            self.lemma_run_reaches(next, (limit - 1) as nat, (k - 1) as nat);
        }
    }
}

/// A hole is not waited for without end: once the waiting time is over, a poll gives it up. A track
/// that needs its key frames then waits for the next one; any other goes on behind the hole.
pub proof fn law_overdue_hole_is_given_up(b: &mut JitterBuffer, now: u64, out: Vec<Frame>)
    requires
        old(b)@.wf(),
        0 < old(b)@.cfg.capacity <= u32::MAX,
        !old(b)@.awaiting_keyframe,
        old(b)@.next_seq is Some,
        !old(b)@.holds(old(b)@.next_seq->0),
        old(b)@.overdue(now),
        !old(b)@.past_all(old(b)@.next_seq->0),
        call_ensures(JitterBuffer::poll, (b, now), out),
    ensures
        old(b)@.cfg.require_keyframe_resync ==> final(b)@.awaiting_keyframe && out@.len() == 0,
        !old(b)@.cfg.require_keyframe_resync ==> {
            &&& !final(b)@.awaiting_keyframe
            &&& old(b)@.cfg.capacity > 1 && old(b)@.holds(seq_plus(old(b)@.next_seq->0, 1))
                ==> out@.len() > 0 && out@[0].header.seq == seq_plus(old(b)@.next_seq->0, 1)
        },
{
    let m = old(b)@;
    let n = m.next_seq->0;
    let limit = m.hole_limit();
    assert(limit > 0);
    assert(m.holes(n, limit) >= 1);
    assert(m.skipped(now) >= 1);
    if !m.cfg.require_keyframe_resync && m.cfg.capacity > 1 && m.holds(seq_plus(n, 1)) {
        assert(m.holes(seq_plus(n, 1), (limit - 1) as nat) == 0);
        assert(m.skipped(now) == 1);
        let start = m.start(now);
        assert(start == seq_plus(n, 1));
        let len = m.slots.len();
        assert(len > 0);
        assert(m.run(start, len).len() > 0);
        m.lemma_run(start, len, 0);
        assert(seq_plus(start, 0) == start);
    }
}

/// A key frame that is not late gets a track going, whatever was held or missing: it ends the wait
/// for one, and the next poll begins with it.
pub proof fn law_key_frame_gets_a_track_going(
    pushed_to: &mut JitterBuffer,
    frame: Frame,
    now: u64,
    polled_from: &mut JitterBuffer,
    then: u64,
    out: Vec<Frame>,
)
    requires
        old(pushed_to)@.wf(),
        old(pushed_to)@.cfg.capacity > 0,
        frame.header.keyframe(),
        !old(pushed_to)@.late(frame.header.seq),
        call_ensures(JitterBuffer::push, (pushed_to, frame, now), ()),
        *old(polled_from) == *final(pushed_to),
        call_ensures(JitterBuffer::poll, (polled_from, then), out),
    ensures
        !final(pushed_to)@.awaiting_keyframe,
        out@.len() > 0,
        out@[0] == frame,
{
    let m = final(pushed_to)@;
    let seq = frame.header.seq;
    assert(0 <= m.slot_of(seq) < m.slots.len());
    assert(m.holds(seq));
    assert(m.skipped(then) == 0);
    assert(seq_plus(seq, 0) == seq);
    m.lemma_run_reaches_first(seq);
    m.lemma_run(seq, m.slots.len(), 0);
}

impl JitterModel {
    proof fn lemma_run_reaches_first(self, seq: u32)
        requires
            self.holds(seq),
            self.slots.len() > 0,
        ensures
            self.run(seq, self.slots.len()).len() > 0,
    {
    }
}

/// A late frame changes nothing but the counters and the arrival statistics: what is held and what
/// comes next stay, and it is counted as stale.
pub proof fn law_late_frame_is_dropped(b: &mut JitterBuffer, frame: Frame, now: u64)
    requires
        old(b)@.late(frame.header.seq),
        frame.header.keyframe() || !old(b)@.awaiting_keyframe,
        old(b)@.stats.dropped_stale < u64::MAX,
        call_ensures(JitterBuffer::push, (b, frame, now), ()),
    ensures
        final(b)@.slots == old(b)@.slots,
        final(b)@.next_seq == old(b)@.next_seq,
        final(b)@.highest_seq == old(b)@.highest_seq,
        final(b)@.awaiting_keyframe == old(b)@.awaiting_keyframe,
        final(b)@.stats.dropped_stale == old(b)@.stats.dropped_stale + 1,
{
}

/// The waiting time follows the jitter: it is the upper bound where it is fixed; where it adapts, it
/// is the lower bound without jitter, and does not get shorter when the jitter grows.
pub proof fn law_wait_follows_jitter(calm: &JitterBuffer, r: u64, rough: &JitterBuffer, q: u64)
    requires
        calm@.cfg == rough@.cfg,
        calm@.cfg.min_wait <= calm@.cfg.max_wait,
        calm@.jitter_est <= rough@.jitter_est,
        call_ensures(JitterBuffer::effective_wait, (calm,), r),
        call_ensures(JitterBuffer::effective_wait, (rough,), q),
    ensures
        r <= q,
        !calm@.cfg.adaptive ==> r == calm@.cfg.max_wait,
        calm@.cfg.adaptive && calm@.jitter_est == 0 ==> r == calm@.cfg.min_wait,
        calm@.cfg.adaptive && calm@.cfg.min_wait <= 4 * calm@.jitter_est <= calm@.cfg.max_wait
            ==> r == 4 * calm@.jitter_est,
{
}

/// Frames that arrive at equal distances are not jitter: the estimate does not grow.
pub proof fn law_steady_arrival_is_no_jitter(b: &mut JitterBuffer, frame: Frame, now: u64)
    requires
        old(b)@.last_arrival is Some,
        now >= old(b)@.last_arrival->0,
        old(b)@.avg_interval is None || old(b)@.avg_interval == Some(
            (now - old(b)@.last_arrival->0) as u64,
        ),
        call_ensures(JitterBuffer::push, (b, frame, now), ()),
    ensures
        final(b)@.jitter_est <= old(b)@.jitter_est,
        final(b)@.last_arrival == Some(now),
        final(b)@.avg_interval == Some((now - old(b)@.last_arrival->0) as u64),
{
}

/// The settings that nobody chose: half a thousand slots, waiting between a hundredth and a fifth of
/// a second, as the jitter asks, and key frames are needed after a loss.
pub proof fn law_standard_settings(r: JitterConfig)
    requires
        call_ensures(<JitterConfig as Default>::default, (), r),
    ensures
        r.capacity == 512,
        r.max_wait == 20 * r.min_wait,
        r.min_wait == 10_000_000,
        r.adaptive,
        r.require_keyframe_resync,
{
}

/// A sequence number comes before those that follow it by less than half of all numbers, past the
/// wrap of the counter too, and they do not come before it.
pub proof fn law_later_number_comes_later(a: u32, k: u32, b: u32, ab: bool, ba: bool)
    requires
        b == a.wrapping_add(k),
        call_ensures(seq_lt, (a, b), ab),
        call_ensures(seq_lt, (b, a), ba),
    ensures
        0 < k < 0x8000_0000 ==> ab && !ba,
        k == 0 ==> !ab && !ba,
{
}

/// A moving average goes towards its sample, never past it, and by an eighth of the way at most.
pub proof fn law_average_moves_an_eighth(cur: u64, sample: u64, r: u64)
    requires
        call_ensures(ewma, (cur, sample), r),
    ensures
        sample >= cur ==> cur <= r <= sample && 8 * (r - cur) <= sample - cur < 8 * (r - cur) + 8,
        sample < cur ==> sample <= r <= cur && 8 * (cur - r) <= cur - sample < 8 * (cur - r) + 8,
{
}

/// A frame whose place in the ring is free is kept there; when another frame has the place, the later
/// of the two is kept and the other one is counted as dropped.
pub proof fn law_later_frame_keeps_the_place(b: &mut JitterBuffer, frame: Frame, now: u64, next: u32)
    requires
        old(b)@.wf(),
        old(b)@.cfg.capacity > 0,
        old(b)@.can_push(),
        call_ensures(JitterBuffer::push, (b, frame, now), ()),
        frame.header.flags & 1 == 0,
        !old(b)@.awaiting_keyframe,
        old(b)@.next_seq == Some(next),
        !before(frame.header.seq, next),
    ensures
        ({
            let i = frame.header.seq as int % old(b)@.slots.len() as int;
            let kept = old(b)@.slots[i];
            &&& final(b)@.stats.received == old(b)@.stats.received + 1
            &&& kept is None ==> final(b)@.slots[i] == Some(frame) && final(b)@.stats.dropped_stale
                == old(b)@.stats.dropped_stale
            &&& kept matches Some(f) ==> final(b)@.stats.dropped_stale
                == old(b)@.stats.dropped_stale + 1 && final(b)@.slots[i] == Some(
                if before(f.header.seq, frame.header.seq) {
                    frame
                } else {
                    f
                },
            )
            &&& forall|j: int|
                0 <= j < old(b)@.slots.len() && j != i ==> final(b)@.slots[j] == old(b)@.slots[j]
            &&& final(b)@.next_seq == Some(next)
        }),
{
}

} // verus!
