use stross_kernel::control::{
    classify, handle_request, is_event, push_reply, read_message, CtrlMessage, CtrlPayload, CtrlRequest, CtrlResponse,
    CtrlStep, Effect, DEFAULT_CTRL_PORT, DEFAULT_TOKEN_TTL_SECS,
};
use stross_kernel::error::Error;
use stross_kernel::kernel::auth::PinAuthPolicy;
use stross_kernel::kernel::data_plane::RelayDataPlane;
use stross_kernel::kernel::endpoint::mounts::{FileMeta, FileOffer, SeedEndpoint};
use stross_kernel::kernel::graph::CapabilityDescriptor;
use stross_kernel::kernel::streams::{Quality, StreamConfig};
use stross_kernel::kernel::Kernel;
use stross_kernel::message::{
    Delivery, EndpointId, EndpointStrategy, MediaKind, PickRule, ReliabilityProfile, TargetKind,
    Visibility,
};
use stross_kernel::negotiator::server::{PendingEntry, ShareNegotiator, WaitEnd};
use stross_kernel::negotiator::trust::TrustStore;
use stross_kernel::platform::Platform;

type Node = Kernel<PinAuthPolicy, RelayDataPlane>;

const NOW: u64 = 1_700_000_000;

fn node() -> Node {
    let mut k: Node = Kernel::new(Platform::Desktop);
    k.seed_endpoint(
        SeedEndpoint {
            id: EndpointId::new(MediaKind::Mic, 0),
            name: "麦克风".to_string(),
            target: TargetKind::Live,
            transport_profile: ReliabilityProfile::Lossy,
            strategy: EndpointStrategy::passthrough(PickRule::Realtime),
            probe: Ok(()),
        },
        NOW,
    );
    k
}

fn ask(k: &mut Node, n: &mut Option<ShareNegotiator>, req: CtrlRequest) -> (CtrlResponse, Effect) {
    match handle_request(k, n, req, "0.1.0", 12, NOW) {
        CtrlStep::Reply { response, effect } => (response, effect),
        CtrlStep::StartEngine { .. } => panic!("nothing is to be started"),
    }
}

fn done(r: CtrlResponse) -> CtrlPayload {
    match r {
        CtrlResponse::Done { payload } => payload,
        CtrlResponse::Failed { message } => panic!("{message}"),
    }
}

fn failed(r: CtrlResponse) -> String {
    match r {
        CtrlResponse::Failed { message } => message,
        CtrlResponse::Done { .. } => panic!("an error was expected"),
    }
}

fn create(k: &mut Node, title: &str) -> String {
    let req = CtrlRequest::CreateSession {
        title: title.to_string(),
        sinks: vec!["phone".to_string()],
    };
    match done(ask(k, &mut None, req).0) {
        CtrlPayload::SessionCreated { session_id, title: t } => {
            assert_eq!(t, title);
            session_id
        }
        _ => panic!("a session was expected"),
    }
}

#[test]
fn sessions_are_created_listed_and_removed() {
    let mut k = node();
    let a = create(&mut k, "one");
    let b = create(&mut k, "two");
    assert_ne!(a, b);
    match done(ask(&mut k, &mut None, CtrlRequest::ListSessions).0) {
        CtrlPayload::Sessions(v) => {
            assert_eq!(v.len(), 2);
            assert!(v[0].session_id < v[1].session_id);
            assert_eq!(v[0].source, "local");
            assert_eq!(v[0].sinks, vec!["phone".to_string()]);
            assert!(!v[0].requires_pin);
        }
        _ => panic!("a list was expected"),
    }
    let auth = CtrlRequest::Authorize { session_id: a.clone(), access_code: None };
    assert!(matches!(done(ask(&mut k, &mut None, auth).0), CtrlPayload::Authorized { .. }));
    let down = CtrlRequest::Teardown { session_id: a.clone() };
    assert!(matches!(done(ask(&mut k, &mut None, down).0), CtrlPayload::TornDown { .. }));
    let again = CtrlRequest::Teardown { session_id: a.clone() };
    assert_eq!(failed(ask(&mut k, &mut None, again).0), format!("会话 {a} 不存在"));
    let nobody = CtrlRequest::CreateSession { title: String::new(), sinks: vec![] };
    assert_eq!(
        failed(ask(&mut k, &mut None, nobody).0),
        "会话至少需要一个接收端（sinks）"
    );
}

#[test]
fn tokens_are_issued_for_sessions() {
    let mut k = node();
    let a = create(&mut k, "one");
    let req = CtrlRequest::ShareToken { session_id: a.clone(), ttl_secs: DEFAULT_TOKEN_TTL_SECS };
    match done(ask(&mut k, &mut None, req).0) {
        CtrlPayload::Token(v) => {
            assert_eq!(v.stream_id, a);
            assert_eq!(v.expires_at, NOW + 300);
            assert_eq!(v.media, vec![MediaKind::Mic]);
            assert_eq!(v.pin.len(), 6);
        }
        _ => panic!("a token was expected"),
    }
    let gone = CtrlRequest::ShareToken { session_id: "nope".to_string(), ttl_secs: 1 };
    assert_eq!(failed(ask(&mut k, &mut None, gone).0), "会话 nope 不存在");
}

#[test]
fn the_node_tells_how_it_is_doing() {
    let mut k = node();
    create(&mut k, "one");
    match done(ask(&mut k, &mut None, CtrlRequest::Status).0) {
        CtrlPayload::Status(v) => {
            assert_eq!(v.version, "0.1.0");
            assert_eq!(v.platform, "desktop");
            assert_eq!(v.uptime_secs, 12);
            assert_eq!(v.relay_port, 18777);
            assert!(!v.streaming && v.stream_id.is_none());
            assert_eq!(v.sessions, 1);
        }
        _ => panic!("a status was expected"),
    }
    assert_eq!(DEFAULT_CTRL_PORT, 18778);
}

#[test]
fn endpoints_are_announced_on_request() {
    let mut k = node();
    let mic = EndpointId::new(MediaKind::Mic, 0);
    let publish = || CtrlRequest::EndpointPublish {
        endpoint_id: mic,
        visibility: Visibility::Public,
        delivery: Delivery::Pull,
        transports: None,
        codecs: None,
    };
    match done(ask(&mut k, &mut None, publish()).0) {
        CtrlPayload::Manifest(m) => assert!(m.published),
        _ => panic!("a manifest was expected"),
    }
    assert_eq!(failed(ask(&mut k, &mut None, publish()).0), "端点已通告: mic:0");
    match done(ask(&mut k, &mut None, CtrlRequest::EndpointList).0) {
        CtrlPayload::Endpoints(v) => assert_eq!(v.len(), 1),
        _ => panic!("a list was expected"),
    }
    let bad = CtrlRequest::EndpointUnpublish { endpoint_id: "nope".to_string() };
    assert_eq!(failed(ask(&mut k, &mut None, bad).0), "非法端点标识: nope");
    let off = CtrlRequest::EndpointUnpublish { endpoint_id: "mic:0".to_string() };
    let (r, effect) = ask(&mut k, &mut None, off);
    assert!(matches!(done(r), CtrlPayload::Unpublished(id) if id == mic));
    assert!(matches!(effect, Effect::Withdraw { action: Some(_), engine: None }));
}

#[test]
fn files_are_shared_on_request() {
    let mut k = node();
    let req = CtrlRequest::EndpointPublishFile {
        offer: FileOffer {
            path: "/tmp/a.txt".to_string(),
            file_name: Some("a.txt".to_string()),
            meta: Ok(FileMeta { is_file: true, size: 7 }),
            probe: Ok(()),
        },
        visibility: Visibility::Public,
        delivery: Delivery::Pull,
    };
    match done(ask(&mut k, &mut None, req).0) {
        CtrlPayload::FilePublished(v) => {
            assert_eq!(v.endpoint_id, EndpointId::new(MediaKind::File, 0));
            assert_eq!(v.name, "a.txt");
            assert_eq!(v.size, 7);
        }
        _ => panic!("a file was expected"),
    }
}

#[test]
fn waiting_requests_are_answered_on_request() {
    let mut k = node();
    let off = "凭证协商服务未启动（serve 未启用协商端点）";
    assert_eq!(failed(ask(&mut k, &mut None, CtrlRequest::NegotiatorPending).0), off);
    let mut neg = ShareNegotiator::new(TrustStore::load(None), 0);
    neg.hold(
        "n1".to_string(),
        PendingEntry {
            device_id: "dev-a".to_string(),
            device_name: "手机A".to_string(),
            endpoint_id: None,
            strategy_id: None,
            delivery_mode: None,
            relay_addr: None,
            share_token: None,
        },
    );
    let mut n = Some(neg);
    match done(ask(&mut k, &mut n, CtrlRequest::NegotiatorPending).0) {
        CtrlPayload::Pending(v) => assert_eq!(v.len(), 1),
        _ => panic!("a list was expected"),
    }
    let answer = |allow| CtrlRequest::NegotiatorRespond {
        req_id: "n1".to_string(),
        allow,
        remember: false,
    };
    let (r, effect) = ask(&mut k, &mut n, answer(false));
    assert!(matches!(done(r), CtrlPayload::Answered(v) if v.denied && v.stream_id.is_none()));
    assert!(matches!(
        effect,
        Effect::Answer { end: WaitEnd::Refused(_), share: None, .. }
    ));
    assert_eq!(
        failed(ask(&mut k, &mut n, answer(true)).0),
        "挂起请求不存在或已处理: n1"
    );
}

#[test]
fn pushes_are_started_on_request() {
    let mut k = node();
    let config = StreamConfig {
        stream_id: "push-1".to_string(),
        title: "t".to_string(),
        video: None,
        quality: Quality::Medium,
        audio: true,
        duration_secs: None,
        share_token: None,
    };
    k.set_backend(CapabilityDescriptor::unknown());
    let req = CtrlRequest::StartStream { config, relay_url: None };
    let (config, push_url) = match handle_request(&mut k, &mut None, req, "0.1.0", 0, NOW) {
        CtrlStep::StartEngine { config, push_url } => (config, push_url),
        CtrlStep::Reply { .. } => panic!("a push is to be started"),
    };
    assert!(push_url.is_none());
    assert_eq!(config.stream_id, "push-1");
    assert_eq!(failed(push_reply(&mut k, &config, Err("boom".to_string()), NOW)), "boom");
    match done(push_reply(&mut k, &config, Ok(Some(40000)), NOW)) {
        CtrlPayload::Started(s) => assert_eq!(s.relay_port, 40000),
        _ => panic!("a running push was expected"),
    }
    let (r, effect) = ask(&mut k, &mut None, CtrlRequest::StopStream);
    assert!(matches!(done(r), CtrlPayload::Stopped));
    assert!(matches!(effect, Effect::StopEngines(v) if v.len() == 1));
}

#[test]
fn replies_and_events_are_told_apart() {
    assert!(matches!(classify(Some("ok"), None), CtrlMessage::Done));
    assert!(matches!(classify(Some("err"), Some("no")), CtrlMessage::Failed(t) if t == "no"));
    assert!(matches!(classify(Some("stream_started"), None), CtrlMessage::Event));
    assert!(matches!(classify(None, None), CtrlMessage::Event));
}

#[test]
fn messages_are_read_as_json() {
    let ok = r#"{"rsp":"ok","payload":{"sessions":1}}"#;
    assert!(matches!(read_message(ok), Ok(CtrlMessage::Done)));
    assert!(matches!(is_event(ok), Ok(false)));
    let err = r#"{"rsp":"err","message":"会话 a 不存在"}"#;
    assert!(matches!(read_message(err), Ok(CtrlMessage::Failed(t)) if t == "会话 a 不存在"));
    let silent = r#"{"message":7,"rsp":"err"}"#;
    assert!(matches!(read_message(silent), Ok(CtrlMessage::Failed(t)) if t == "未知错误"));
    let event = r#"{"type":"streamStarted","session_id":"a"}"#;
    assert!(matches!(read_message(event), Ok(CtrlMessage::Event)));
    assert!(matches!(is_event(event), Ok(true)));
    let odd = r#"{"rsp":1}"#;
    assert!(matches!(read_message(odd), Ok(CtrlMessage::Event)));
    assert!(matches!(is_event(odd), Ok(false)));
    assert!(matches!(read_message("{"), Err(Error::Internal(_))));
    assert!(matches!(is_event("no json"), Err(Error::Internal(_))));
    assert_eq!(failed(CtrlResponse::malformed("expected value")), "非法请求: expected value");
}
