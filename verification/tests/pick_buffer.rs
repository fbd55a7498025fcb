use stross_kernel::frame::{
    Frame, CODEC_AAC, CODEC_H264, FLAG_KEYFRAME, TRACK_AUDIO, TRACK_VIDEO,
};
use stross_kernel::pick::buffer::{ewma, seq_lt, JitterBuffer, JitterConfig};

const MS: u64 = 1_000_000;

fn frame(seq: u32, keyframe: bool) -> Frame {
    Frame::with_seq(
        TRACK_VIDEO,
        CODEC_H264,
        if keyframe { FLAG_KEYFRAME } else { 0 },
        0,
        seq,
        vec![0x41, 0x00, 0x01],
    )
}

fn audio_frame(seq: u32) -> Frame {
    Frame::with_seq(TRACK_AUDIO, CODEC_AAC, 0, 0, seq, vec![0xFF, 0xF1, 0x50])
}

fn t0() -> u64 {
    1_000_000 * MS
}

fn seqs(out: &[Frame]) -> Vec<u32> {
    out.iter().map(|f| f.header.seq).collect()
}

fn adaptive() -> JitterConfig {
    JitterConfig {
        adaptive: true,
        max_wait: 200 * MS,
        min_wait: 10 * MS,
        ..JitterConfig::default()
    }
}

#[test]
fn ordered_stream_emits_in_order() {
    let mut jb = JitterBuffer::new(JitterConfig::default());
    let now = t0();
    for i in 0..5 {
        jb.push(frame(i, i == 0), now);
    }
    let out = jb.poll(now);
    assert_eq!(seqs(&out), vec![0, 1, 2, 3, 4]);
    assert_eq!(jb.stats.emitted, 5);
}

#[test]
fn out_of_order_frames_waited_then_emitted() {
    let mut jb = JitterBuffer::new(JitterConfig::default());
    let now = t0();
    jb.push(frame(0, true), now);
    jb.push(frame(2, false), now);
    jb.push(frame(3, false), now);
    assert_eq!(jb.poll(now).len(), 1);
    jb.push(frame(1, false), now);
    let out = jb.poll(now);
    assert_eq!(seqs(&out), vec![1, 2, 3]);
}

#[test]
fn hole_timeout_skips_and_video_resyncs_on_keyframe() {
    let mut jb = JitterBuffer::new(JitterConfig::default());
    let now = t0();
    jb.push(frame(0, true), now);
    jb.push(frame(2, false), now);
    assert_eq!(jb.poll(now).len(), 1);
    let later = now + JitterConfig::default().max_wait + 10 * MS;
    assert!(jb.poll(later).is_empty(), "nothing but a key frame comes out");
    assert_eq!(jb.stats.dropped_out_of_window, 1);
    jb.push(frame(2, false), later);
    assert_eq!(jb.stats.dropped_resync, 1);
    jb.push(frame(10, true), later);
    let out = jb.poll(later);
    assert_eq!(seqs(&out), vec![10]);
    assert!(!jb.awaiting_keyframe());
}

#[test]
fn audio_track_skips_hole_without_resync() {
    let mut jb = JitterBuffer::new(JitterConfig {
        require_keyframe_resync: false,
        ..JitterConfig::default()
    });
    let now = t0();
    jb.push(audio_frame(0), now);
    jb.push(audio_frame(2), now);
    assert_eq!(jb.poll(now).len(), 1);
    let later = now + JitterConfig::default().max_wait + 10 * MS;
    let out = jb.poll(later);
    assert_eq!(seqs(&out), vec![2], "sound goes on behind the hole");
    assert!(!jb.awaiting_keyframe());
}

#[test]
fn stale_duplicate_frames_dropped() {
    let mut jb = JitterBuffer::new(JitterConfig::default());
    let now = t0();
    jb.push(frame(0, true), now);
    jb.push(frame(0, false), now);
    assert_eq!(jb.stats.dropped_stale, 1);
    let out = jb.poll(now);
    assert_eq!(out.len(), 1);
    jb.push(frame(0, false), now);
    assert_eq!(jb.stats.dropped_stale, 2);
    assert!(jb.poll(now).is_empty());
}

#[test]
fn memory_bounded_regardless_of_push_count() {
    let mut jb = JitterBuffer::new(JitterConfig {
        capacity: 8,
        ..JitterConfig::default()
    });
    let now = t0();
    jb.push(frame(0, true), now);
    for i in 1..10_000 {
        jb.push(frame(i, false), now);
    }
    assert_eq!(jb.slot_count(), 8, "the ring does not grow");
    assert!(jb.held() <= 8, "no more frames than slots");
}

#[test]
fn adaptive_wait_tracks_low_jitter() {
    let mut jb = JitterBuffer::new(adaptive());
    let mut t = t0();
    for i in 0..20 {
        jb.push(frame(i, i == 0), t);
        t += 33 * MS;
    }
    assert!(jb.effective_wait() <= 60 * MS);
}

#[test]
fn adaptive_wait_expands_under_high_jitter() {
    let mut jb = JitterBuffer::new(adaptive());
    let mut t = t0();
    for i in 0..20 {
        jb.push(frame(i, i == 0), t);
        t += if i % 2 == 0 { 5 * MS } else { 61 * MS };
    }
    assert!(jb.effective_wait() >= 80 * MS);
}

#[test]
fn seq_lt_respects_u32_wraparound() {
    assert!(seq_lt(5, 6), "5 is behind 6");
    assert!(!seq_lt(6, 5), "6 is not behind 5");
    assert!(seq_lt(u32::MAX, 0), "the largest number is behind zero");
    assert!(!seq_lt(0, u32::MAX), "zero is not behind the largest number");
    assert!(seq_lt(1, 1 << 30), "within half of the space");
    assert!(!seq_lt(1 << 30, 1), "within half of the space");
}

#[test]
fn emits_sequentially_across_wraparound() {
    let mut jb = JitterBuffer::new(JitterConfig::default());
    let now = t0();
    let start = u32::MAX - 3;
    jb.push(frame(start, true), now);
    for i in 1..=6 {
        jb.push(frame(start.wrapping_add(i), false), now);
    }
    let out = jb.poll(now);
    assert_eq!(
        seqs(&out),
        vec![u32::MAX - 3, u32::MAX - 2, u32::MAX - 1, u32::MAX, 0, 1, 2]
    );
    assert_eq!(jb.stats.emitted, 7);
}

#[test]
fn late_frame_before_wrap_dropped_as_stale() {
    let mut jb = JitterBuffer::new(JitterConfig::default());
    let now = t0();
    jb.push(frame(u32::MAX - 1, true), now);
    jb.push(frame(u32::MAX, false), now);
    jb.push(frame(0, false), now);
    jb.push(frame(1, false), now);
    assert_eq!(jb.poll(now).len(), 4);
    jb.push(frame(u32::MAX - 2, false), now);
    assert_eq!(jb.stats.dropped_stale, 1);
    assert!(jb.poll(now).is_empty());
}

#[test]
fn stale_keyframe_before_wrap_does_not_resync() {
    let mut jb = JitterBuffer::new(JitterConfig::default());
    let now = t0();
    jb.push(frame(u32::MAX - 1, true), now);
    jb.push(frame(u32::MAX, false), now);
    jb.push(frame(0, false), now);
    jb.push(frame(1, false), now);
    assert_eq!(jb.poll(now).len(), 4);
    jb.push(frame(u32::MAX - 2, true), now);
    assert_eq!(jb.stats.dropped_stale, 1);
    assert_eq!(jb.stats.emitted, 4);
    assert!(jb.poll(now).is_empty());
}

#[test]
fn hole_across_wraparound_times_out_and_resyncs() {
    let mut jb = JitterBuffer::new(JitterConfig::default());
    let now = t0();
    jb.push(frame(u32::MAX - 1, true), now);
    jb.push(frame(0, false), now);
    assert_eq!(jb.poll(now).len(), 1);
    let later = now + JitterConfig::default().max_wait + 10 * MS;
    assert!(jb.poll(later).is_empty());
    assert_eq!(jb.stats.dropped_out_of_window, 1);
    jb.push(frame(5, true), later);
    let out = jb.poll(later);
    assert_eq!(seqs(&out), vec![5]);
}

#[test]
fn adaptive_window_gap_waited_then_emitted() {
    let mut jb = JitterBuffer::new(adaptive());
    let now = t0();
    jb.push(frame(0, true), now);
    let mut t = now + 33 * MS;
    for i in 1..6 {
        jb.push(frame(i, false), t);
        t += 33 * MS;
    }
    let wait = jb.effective_wait();
    assert!(jb.poll(now + wait / 2).len() <= 6);
    jb.push(frame(6, false), t);
    let out = jb.poll(t);
    assert_eq!(seqs(&out), vec![6]);
}

#[test]
fn averages_move_by_an_eighth() {
    assert_eq!(ewma(800, 1600), 900);
    assert_eq!(ewma(1600, 800), 1500);
    assert_eq!(ewma(5, 5), 5);
}

#[test]
fn a_second_poll_at_the_same_time_gives_nothing() {
    let mut jb = JitterBuffer::new(JitterConfig { capacity: 3, ..JitterConfig::default() });
    let now = t0();
    for i in 0..3 {
        jb.push(frame(i, i == 0), now);
    }
    assert_eq!(jb.held(), 3);
    assert_eq!(seqs(&jb.poll(now)), vec![0, 1, 2]);
    let stats = jb.stats();
    assert!(jb.poll(now).is_empty());
    assert_eq!(jb.stats(), stats);
    assert_eq!(jb.held(), 0);
}

#[test]
fn every_frame_is_counted_once() {
    let mut jb = JitterBuffer::new(JitterConfig::default());
    let now = t0();
    let late = now + JitterConfig::default().max_wait + 1;
    jb.push(frame(5, true), now);
    jb.push(frame(4, false), now);
    jb.push(frame(6, false), now);
    jb.push(frame(6, false), now);
    jb.push(frame(8, false), now);
    let mut out = jb.poll(now);
    assert!(jb.poll(late).is_empty());
    jb.push(frame(9, false), late);
    jb.push(frame(12, true), late);
    out.extend(jb.poll(late));
    assert_eq!(seqs(&out), vec![5, 6, 12]);
    let s = jb.stats();
    assert_eq!(s.received, 7);
    assert_eq!(s.emitted, 3);
    assert_eq!(s.dropped_out_of_window, 1);
    assert_eq!(s.dropped_resync, 1);
    assert_eq!(s.dropped_stale, 2);
    assert_eq!(jb.held(), 0);
}

#[test]
fn no_more_holes_than_slots_are_given_up() {
    let mut jb = JitterBuffer::new(JitterConfig {
        capacity: 4,
        require_keyframe_resync: false,
        ..JitterConfig::default()
    });
    let now = t0();
    let late = now + JitterConfig::default().max_wait + 1;
    jb.push(audio_frame(0), now);
    assert_eq!(jb.poll(now).len(), 1);
    jb.push(audio_frame(7), now);
    assert!(jb.poll(late).is_empty());
    assert_eq!(jb.stats().dropped_out_of_window, 4);
    assert_eq!(seqs(&jb.poll(late)), vec![7]);
    assert_eq!(jb.stats().dropped_out_of_window, 6);
}
