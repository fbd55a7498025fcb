use stross_kernel::endpoint_driver::{
    drive, media_config, resolve_push_url, resolve_watcher_base, DriverAction,
};
use stross_kernel::engine::{engine_begin, engine_step, EngineAction, EngineEvent, EngineState};
use stross_kernel::error::{Error, RelayOpError};
use stross_kernel::kernel::auth::{AuthError, PinAuthPolicy};
use stross_kernel::kernel::data_plane::{RelayDataPlane, RelayHandle, RelayState};
use stross_kernel::kernel::endpoint::mounts::{FileMeta, FileOffer, SeedEndpoint};
use stross_kernel::kernel::graph::CapabilityDescriptor;
use stross_kernel::kernel::streams::{auto_push_url, Quality, StreamConfig, VideoSource};
use stross_kernel::kernel::Kernel;
use stross_kernel::message::{
    Delivery, EndpointId, EndpointStrategy, MediaKind, PickRule, ReliabilityProfile, SubscribeCtx,
    TargetKind, Visibility,
};
use stross_kernel::platform::Platform;

type Node = Kernel<PinAuthPolicy, RelayDataPlane>;

const NOW: u64 = 1_700_000_000;

fn seed(kind: MediaKind, name: &str) -> SeedEndpoint {
    SeedEndpoint {
        id: EndpointId::new(kind, 0),
        name: name.to_string(),
        target: TargetKind::Live,
        transport_profile: ReliabilityProfile::Lossy,
        strategy: EndpointStrategy::passthrough(PickRule::Realtime),
        probe: Ok(()),
    }
}

fn ctx(delivery: Delivery) -> SubscribeCtx {
    SubscribeCtx {
        subscriber: "dev-phone".to_string(),
        delivery,
        stream_id: "sess-1".to_string(),
        transport_profile: ReliabilityProfile::Lossy,
        strategy: EndpointStrategy::passthrough(PickRule::Realtime),
        relay_addr: Some("ws://192.168.1.5:9000".to_string()),
        share_token: Some("tok".to_string()),
    }
}

fn anchored() -> Node {
    let mut k: Node = Kernel::new(Platform::Desktop);
    let plane = RelayDataPlane::new(RelayHandle {
        port: 18777,
        srt_port: None,
        quic_port: None,
        state: RelayState::default(),
    });
    k.complete_relay(18777, None, None, "pico", plane);
    k
}

fn config(stream_id: &str) -> StreamConfig {
    StreamConfig {
        stream_id: stream_id.to_string(),
        title: "屏幕".to_string(),
        video: Some(VideoSource::Screen),
        quality: Quality::Medium,
        audio: false,
        duration_secs: None,
        share_token: None,
    }
}

#[test]
fn a_push_with_its_own_relay() {
    let (s, a) = engine_begin(None, 18777, true);
    assert!(matches!(a, EngineAction::Bind { port: 18777 }));
    let (s, a) = engine_step(s, EngineEvent::BindFailed { error: "taken".to_string() });
    assert!(matches!(a, EngineAction::Bind { port: 0 }));
    let (s, a) = engine_step(
        s,
        EngineEvent::Bound { port: 40000, srt_port: Some(40001), quic_port: None },
    );
    assert!(matches!(a, EngineAction::Connect { url } if url == auto_push_url(40000, Some(40001), None, true)));
    let (s, a) = engine_step(s, EngineEvent::Connected);
    assert!(matches!(a, EngineAction::StartCapture));
    let (s, a) = engine_step(s, EngineEvent::CaptureStarted);
    assert!(matches!(a, EngineAction::Nothing));
    assert!(matches!(s, EngineState::Running { relay_port: Some(40000) }));
}

#[test]
fn a_failed_capture_is_undone() {
    let (s, a) = engine_begin(Some("ws://192.168.1.5:9000/ws/push".to_string()), 0, false);
    assert!(matches!(a, EngineAction::Connect { url } if url == "ws://192.168.1.5:9000/ws/push"));
    let (s, _) = engine_step(s, EngineEvent::Connected);
    let (s, a) = engine_step(s, EngineEvent::CaptureFailed { error: "no camera".to_string() });
    assert!(matches!(a, EngineAction::Undo { stop_relay: false }));
    assert!(matches!(s, EngineState::Failed { error } if error == "no camera"));
    let (s, _) = engine_begin(None, 0, false);
    let (s, _) = engine_step(s, EngineEvent::BindFailed { error: "one".to_string() });
    let (s, _) = engine_step(s, EngineEvent::BindFailed { error: "two".to_string() });
    assert!(matches!(s, EngineState::Failed { error } if error == "two"));
}

#[test]
fn pushes_run_until_they_are_stopped() {
    let mut k = anchored();
    let mut cfg = config("");
    assert!(matches!(
        k.prepare_stream(&mut cfg, None),
        Err(Error::Message(t)) if t == "采集后端未初始化"
    ));
    k.set_backend(CapabilityDescriptor::unknown());
    let url = k.prepare_stream(&mut cfg, None).unwrap();
    assert!(url.is_some());
    assert!(k.control.has_session(&cfg.stream_id));
    assert!(!k.stream_status().running);
    let started = k.complete_stream(&cfg, None, NOW).unwrap();
    assert_eq!(started.stream_id, cfg.stream_id);
    assert_eq!(started.relay_port, 18777);
    let status = k.stream_status();
    assert!(status.running);
    assert_eq!(status.started_at, Some(NOW));
    assert_eq!(status.title.as_deref(), Some("屏幕"));
    assert!(matches!(
        k.complete_stream(&cfg, None, NOW),
        Err(Error::Message(t)) if t == "该流已在推流中"
    ));
    let stopped = k.stop_stream();
    assert_eq!(stopped.len(), 1);
    assert!(!k.stream_status().running);
}

#[test]
fn subscriptions_drive_endpoints() {
    let mut k: Node = Kernel::new(Platform::Desktop);
    let file = EndpointId::new(MediaKind::File, 0);
    assert!(matches!(drive(&k, file, &ctx(Delivery::Pull)), DriverAction::Nothing));
    let offer = FileOffer {
        path: "/tmp/备注.txt".to_string(),
        file_name: Some("备注.txt".to_string()),
        meta: Ok(FileMeta { is_file: true, size: 3 }),
        probe: Ok(()),
    };
    assert!(k
        .publish_file_endpoint(&offer, Visibility::Public, Delivery::Pull, NOW)
        .is_ok());
    assert!(matches!(drive(&k, file, &ctx(Delivery::Pull)), DriverAction::NoAddress));
    match drive(&k, file, &ctx(Delivery::Push)) {
        DriverAction::PushFile { path, options } => {
            assert_eq!(path, "/tmp/备注.txt");
            assert_eq!(options.push_url, "ws://192.168.1.5:9000/ws/push");
            assert_eq!(options.title, "文件 备注.txt");
            assert_eq!(options.share_token.as_deref(), Some("tok"));
            assert_eq!(options.watcher_base.as_deref(), Some("ws://192.168.1.5:9000"));
        }
        other => panic!("unexpected {other:?}"),
    }
    k.seed_endpoint(seed(MediaKind::SystemAudio, "系统声音"), NOW);
    assert!(matches!(
        drive(&k, EndpointId::new(MediaKind::SystemAudio, 0), &ctx(Delivery::Pull)),
        DriverAction::Unsupported
    ));
}

#[test]
fn fetched_data_stays_here() {
    let mut k = anchored();
    k.seed_endpoint(seed(MediaKind::Mic, "麦克风"), NOW);
    match drive(&k, EndpointId::new(MediaKind::Mic, 0), &ctx(Delivery::Pull)) {
        DriverAction::PushMedia { config, relay_url } => {
            assert!(relay_url.is_none());
            assert!(config.share_token.is_none());
            assert!(config.audio && config.video.is_none());
            assert_eq!(config.title, "麦克风");
        }
        other => panic!("unexpected {other:?}"),
    }
    assert_eq!(
        resolve_push_url(&k, &ctx(Delivery::Pull)).as_deref(),
        Some("ws://127.0.0.1:18777/ws/push")
    );
    assert_eq!(
        resolve_watcher_base(&k, &ctx(Delivery::Both)).as_deref(),
        Some("ws://127.0.0.1:18777")
    );
}

#[test]
fn screens_are_captured_as_pictures() {
    let c = media_config("屏幕".to_string(), MediaKind::Screen, "s".to_string(), None);
    assert_eq!(c.video, Some(VideoSource::Screen));
    assert!(!c.audio);
    assert_eq!(c.quality, Quality::Medium);
}

#[test]
fn texts_of_errors() {
    assert_eq!(Error::Message("x".to_string()).to_user_string(), "x");
    assert_eq!(Error::SessionNotFound("s1".to_string()).to_user_string(), "会话 s1 不存在");
    assert_eq!(
        Error::from(AuthError::CodeRequired).to_user_string(),
        "会话需要访问码（PIN），请先 authorize"
    );
    assert_eq!(Error::from(AuthError::CodeMismatch).to_user_string(), "访问码错误");
    assert_eq!(Error::DataPlane("x".to_string()).to_user_string(), "数据面操作失败: x");
    assert_eq!(Error::Internal("x".to_string()).to_user_string(), "x");
    assert_eq!(
        RelayOpError::ProxyExists("s1".to_string()).to_user_string(),
        "本地已有代理流 s1"
    );
    assert_eq!(
        RelayOpError::StreamExists("s1".to_string()).to_user_string(),
        "本地已有流 s1（推流或代理）"
    );
}
