use stross_kernel::frame::{
    Frame, CODEC_AAC, CODEC_H264, FLAG_KEYFRAME, TRACK_AUDIO, TRACK_VIDEO,
};
use stross_kernel::message::{PickRule, ReliabilityProfile};
use stross_kernel::pick::interpret::Interpreter;
use stross_kernel::pick::manager::{
    channel_kind_for_profile, ChannelKind, InterpretRegistry, StreamChannel,
};

fn frame(track: u8, seq: u32, keyframe: bool) -> Frame {
    Frame::with_seq(
        track,
        if track == TRACK_VIDEO { CODEC_H264 } else { CODEC_AAC },
        if keyframe { FLAG_KEYFRAME } else { 0 },
        0,
        seq,
        vec![0x41, 0x00, 0x01],
    )
}

#[test]
fn lossless_channel_passthrough_in_order() {
    let mut ch = StreamChannel::new(ChannelKind::Lossless);
    let now = 1000;
    for _ in 0..3 {
        ch.push(frame(TRACK_VIDEO, 0, false), now);
    }
    let out = ch.poll(now);
    assert_eq!(out.len(), 3);
}

#[test]
fn lossy_channel_routes_by_track() {
    let mut ch = StreamChannel::new(ChannelKind::Lossy);
    let now = 1000;
    ch.push(frame(TRACK_VIDEO, 0, true), now);
    ch.push(frame(TRACK_AUDIO, 0, false), now);
    let out = ch.poll(now);
    assert_eq!(out.len(), 2);
}

#[test]
fn manager_loads_adapter_by_rule() {
    let mut m = InterpretRegistry::default();
    assert!(m.is_empty());
    m.adapter("sess-1", PickRule::Realtime, ChannelKind::Lossy)
        .push(frame(TRACK_AUDIO, 0, false), 1000);
    m.adapter("sess-2", PickRule::StrictOrdered, ChannelKind::Lossless)
        .push(frame(TRACK_AUDIO, 0, false), 1000);
    assert_eq!(m.len(), 2);
    assert_eq!(
        m.adapter("sess-1", PickRule::Realtime, ChannelKind::Lossy).rule(),
        PickRule::Realtime
    );
    assert_eq!(
        m.adapter("sess-2", PickRule::StrictOrdered, ChannelKind::Lossless).rule(),
        PickRule::StrictOrdered
    );
    m.remove("sess-1");
    assert_eq!(m.len(), 1);
    assert!(
        m.adapter("sess-2", PickRule::StrictOrdered, ChannelKind::Lossless).rule()
            == PickRule::StrictOrdered
    );
}

#[test]
fn manager_lifecycle() {
    let mut m = InterpretRegistry::default();
    assert!(m.is_empty());
    m.adapter("sess-1", PickRule::Realtime, ChannelKind::Lossy)
        .push(frame(TRACK_AUDIO, 0, false), 1000);
    m.adapter("sess-2", PickRule::Realtime, ChannelKind::Lossless);
    assert_eq!(m.len(), 2);
    m.remove("sess-1");
    assert_eq!(m.len(), 1);
    assert!(
        m.adapter("sess-2", PickRule::Realtime, ChannelKind::Lossless).rule()
            == PickRule::Realtime
    );
}

#[test]
fn adaptive_transports_may_lose_frames() {
    assert_eq!(channel_kind_for_profile(ReliabilityProfile::Adaptive), ChannelKind::Lossy);
    assert_eq!(channel_kind_for_profile(ReliabilityProfile::Lossless), ChannelKind::Lossless);
}
