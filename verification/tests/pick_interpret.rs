use stross_kernel::frame::{Frame, CODEC_H264, FLAG_KEYFRAME, TRACK_VIDEO};
use stross_kernel::message::PickRule;
use stross_kernel::pick::interpret::{Interpreter, RealtimePacing, StrictOrdered};
use stross_kernel::pick::manager::ChannelKind;

fn frame(seq: u32) -> Frame {
    Frame::with_seq(
        TRACK_VIDEO,
        CODEC_H264,
        if seq == 0 { FLAG_KEYFRAME } else { 0 },
        seq,
        seq,
        vec![0x41, 0x00, 0x01],
    )
}

#[test]
fn realtime_pacing_forwards_in_order() {
    let mut a = RealtimePacing::new(ChannelKind::Lossless);
    assert_eq!(a.rule(), PickRule::Realtime);
    let t = 1000;
    for i in 0..3 {
        a.push(frame(i), t);
    }
    let out = a.poll(t);
    assert_eq!(out.len(), 3);
    let seqs: Vec<u32> = out.iter().map(|f| f.header.seq).collect();
    assert_eq!(seqs, vec![0, 1, 2]);
}

#[test]
fn strict_ordered_passthrough_and_seq_guard() {
    let mut a = StrictOrdered::new();
    assert_eq!(a.rule(), PickRule::StrictOrdered);
    let t = 1000;
    for _ in 0..3 {
        a.push(frame(0), t);
    }
    assert_eq!(a.poll(t).len(), 3);
    a.push(frame(1), t);
    a.push(frame(2), t);
    assert_eq!(a.poll(t).len(), 2);
    a.push(frame(1), t);
    a.push(frame(3), t);
    assert_eq!(a.poll(t).len(), 1, "number 1 passes");
    assert_eq!(a.dropped(), 1, "number 3 is out of order");
}

#[test]
fn two_profiles_run_independently() {
    let mut rt = RealtimePacing::new(ChannelKind::Lossy);
    let mut so = StrictOrdered::new();
    let t = 1000;
    rt.push(frame(0), t);
    rt.push(frame(1), t);
    so.push(frame(0), t);
    so.push(frame(0), t);
    assert_eq!(rt.poll(t).len(), 2);
    assert_eq!(so.poll(t).len(), 2);
}

#[test]
fn strict_order_goes_on_over_the_wrap() {
    let mut a = StrictOrdered::new();
    for seq in [u32::MAX, 0, 1] {
        a.push(frame(seq), 1000);
    }
    assert_eq!(a.dropped(), 0);
    let seqs: Vec<u32> = a.poll(1000).iter().map(|f| f.header.seq).collect();
    assert_eq!(seqs, vec![u32::MAX, 0, 1]);
    a.push(frame(1), 1000);
    assert_eq!(a.dropped(), 1, "number 1 came already");
}
