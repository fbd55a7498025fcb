use stross_kernel::error::{Error, WatchError};
use stross_kernel::frame::{Frame, CODEC_H264, FLAG_KEYFRAME, TRACK_VIDEO};
use stross_kernel::message::PickRule;
use stross_kernel::receiver::{
    channel_kind_for_url, watch_step, LocalProxy, Packet, PlaybackStats, ReceiveLoop, Receiver,
    WatchAction, WatchState,
};
use stross_kernel::pick::manager::ChannelKind;

const MS: u64 = 1_000_000;

fn failed(state: WatchState) -> String {
    match state {
        WatchState::Failed { error } => error.to_user_string(),
        other => panic!("unexpected {other:?}"),
    }
}

fn key_frame(pts: u32) -> Frame {
    Frame::new(TRACK_VIDEO, CODEC_H264, FLAG_KEYFRAME, pts, vec![0x65])
}

#[test]
fn direct_connect_wins() {
    let base = "ws://127.0.0.1:18777";
    let (state, action) = watch_step(WatchState::Direct, base, None, Ok(()));
    assert!(matches!(state, WatchState::Connected));
    assert!(matches!(action, WatchAction::Nothing));
    let mut rx = ReceiveLoop::new(base, PickRule::Realtime, 0);
    let step = rx.on_packet(Packet::Media(key_frame(0)), MS);
    assert_eq!(step.frames.len(), 1);
    assert!(step.frames[0].header.is_keyframe());
}

#[test]
fn fallback_proxy_path_reports_clearly() {
    let proxy = LocalProxy { ws_base: "ws://127.0.0.1:18777".to_string() };
    let (state, action) = watch_step(
        WatchState::Direct,
        "ws://127.0.0.1:1",
        Some(&proxy),
        Err("connection refused".to_string()),
    );
    assert!(matches!(state, WatchState::Proxying { .. }));
    assert!(matches!(action, WatchAction::StartProxy { url } if url == "ws://127.0.0.1:1"));
    let (state, action) = watch_step(state, "ws://127.0.0.1:1", Some(&proxy), Ok(()));
    assert!(matches!(action, WatchAction::Watch { url } if url == "ws://127.0.0.1:18777"));
    let (state, _) = watch_step(
        state,
        "ws://127.0.0.1:1",
        Some(&proxy),
        Err("no such stream".to_string()),
    );
    let err = failed(state);
    assert!(err.contains("直连失败") && err.contains("代理"), "{err}");
}

#[test]
fn no_local_proxy_reports_direct_error() {
    let (state, _) = watch_step(
        WatchState::Direct,
        "ws://127.0.0.1:1",
        None,
        Err("connection refused".to_string()),
    );
    let err = failed(state);
    assert!(!err.contains("代理"), "{err}");
    assert!(err.contains("connection refused"));
}

#[test]
fn the_address_tells_whether_frames_may_be_lost() {
    assert_eq!(channel_kind_for_url("ws://192.168.1.5:18777"), ChannelKind::Lossless);
    assert_eq!(channel_kind_for_url("srt://192.168.1.5:18780"), ChannelKind::Lossy);
    assert_eq!(channel_kind_for_url("quic://192.168.1.5:18781"), ChannelKind::Lossless);
}

#[test]
fn receiving_ends_with_the_connection() {
    let mut rx = ReceiveLoop::new("ws://192.168.1.5:18777", PickRule::Realtime, 0);
    assert!(!rx.on_packet(Packet::Control, MS).ended);
    assert_eq!(rx.on_packet(Packet::Media(key_frame(1)), 2 * MS).frames.len(), 1);
    assert_eq!(rx.received, 1);
    let end = rx.on_packet(Packet::Closed, 3 * MS);
    assert!(end.ended && end.frames.is_empty());
    assert!(!rx.running);
}

#[test]
fn a_stopped_loop_takes_nothing() {
    let mut rx = ReceiveLoop::new("ws://192.168.1.5:18777", PickRule::Realtime, 0);
    rx.stop();
    let step = rx.on_packet(Packet::Media(key_frame(1)), MS);
    assert!(step.ended && step.frames.is_empty());
    assert_eq!(rx.received, 0);
}

#[test]
fn statistics_follow_the_player() {
    let mut r = Receiver::new();
    assert!(!r.stopping());
    r.connected();
    assert!(r.stats(0).running);
    r.sync(PlaybackStats {
        video_frames_out: 3,
        audio_blocks_out: 4,
        audio_blocks_in: 5,
        dropped_push: 6,
        paced_dropped: 7,
        paced_reanchors: 8,
        paced_held: 9,
    });
    let s = r.stats(11);
    assert_eq!(s.received, 11);
    assert_eq!(
        (s.decoded_video, s.audio_blocks, s.audio_blocks_in, s.dropped),
        (3, 4, 5, 6)
    );
    assert_eq!((s.paced_dropped, s.paced_reanchors, s.paced_held), (7, 8, 9));
    r.note_decoded_video();
    r.note_dropped();
    assert_eq!((r.stats(11).decoded_video, r.stats(11).dropped), (4, 7));
    r.stop();
    assert!(r.stopping());
    r.finished();
    assert!(!r.stats(11).running);
}

#[test]
fn failures_are_kept() {
    let mut r = Receiver::new();
    r.connect_failed(&Error::Link("no route".to_string()));
    let s = r.stats(0);
    assert!(!s.running);
    assert_eq!(s.error.as_deref(), Some("no route"));
}

#[test]
fn texts_of_watch_errors() {
    assert_eq!(
        WatchError::InvalidUrl("x".to_string()).to_user_string(),
        "无法解析中继地址: x"
    );
    assert_eq!(WatchError::Connect("x".to_string()).to_user_string(), "连接中继失败: x");
    assert_eq!(
        WatchError::SendWatch("x".to_string()).to_user_string(),
        "发送 Watch 请求失败: x"
    );
    assert_eq!(WatchError::Rejected("x".to_string()).to_user_string(), "中继拒绝: x");
    assert_eq!(WatchError::WaitReady("x".to_string()).to_user_string(), "等待中继就绪失败: x");
    assert_eq!(WatchError::Closed.to_user_string(), "中继连接已关闭");
}

#[test]
fn a_new_stream_has_room() {
    for url in ["ws://192.168.1.5:18777", "srt://192.168.1.5:18780"] {
        assert!(ReceiveLoop::new(url, PickRule::Realtime, 0).has_room());
        assert!(ReceiveLoop::new(url, PickRule::StrictOrdered, 0).has_room());
    }
}
