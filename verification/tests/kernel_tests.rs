use stross_kernel::error::Error;
use stross_kernel::kernel::anchor::{AnchorStart, MdnsAction};
use stross_kernel::kernel::auth::{AuthPolicy, PinAuthPolicy};
use stross_kernel::kernel::data_plane::{RelayDataPlane, RelayHandle, RelayState};
use stross_kernel::kernel::graph::{CapabilityDescriptor, CapabilityKind, NodeInfo, NodeRole};
use stross_kernel::kernel::session::{Router, SessionPrefs};
use stross_kernel::kernel::session_api::{pin_of, ShareToken, TOKEN_VERSION};
use stross_kernel::kernel::streams::CaptureStatus;
use stross_kernel::kernel::Kernel;
use stross_kernel::message::{
    CodecId, Delivery, EndpointId, MediaKind, ReliabilityProfile, RoutePath, TransportId,
};
use stross_kernel::negotiator::trust::DeviceIdentity;
use stross_kernel::platform::Platform;
use stross_kernel::receiver::ReceiveStats;

type Node = Kernel<PinAuthPolicy, RelayDataPlane>;

const NOW: u64 = 1_700_000_000;

fn desktop() -> Node {
    Kernel::new(Platform::Desktop)
}

fn node(id: &str) -> NodeInfo {
    NodeInfo {
        node_id: id.to_string(),
        name: id.to_string(),
        roles: vec![NodeRole::Sender],
        caps: vec![],
        addrs: vec![],
    }
}

fn to(names: &[&str]) -> Vec<String> {
    names.iter().map(|n| n.to_string()).collect()
}

fn with_code(code: &str, title: &str) -> SessionPrefs {
    SessionPrefs {
        profile: ReliabilityProfile::Lossy,
        preferred_transport: None,
        access_code: Some(code.to_string()),
        title: title.to_string(),
    }
}

fn relay(port: u16) -> RelayDataPlane {
    RelayDataPlane::new(RelayHandle {
        port,
        srt_port: None,
        quic_port: None,
        state: RelayState::default(),
    })
}

fn receiving(received: u64) -> ReceiveStats {
    ReceiveStats {
        running: true,
        received,
        ..ReceiveStats::default()
    }
}

#[test]
fn app_info_and_sources_never_panic() {
    let kernel = desktop();
    let info = kernel.app_info("0.1.0", false, vec![]);
    assert_eq!(info.platform, "desktop");
    assert!(kernel.endpoint_catalog().is_empty());
}

#[test]
fn capture_status_requires_backend() {
    let kernel = desktop();
    let st = kernel.capture_status(CaptureStatus { started: false, error: None });
    assert!(!st.active);
    assert!(!st.started);
}

#[test]
fn set_backend_then_query() {
    let mut kernel: Node = Kernel::new(Platform::Android);
    kernel.set_backend(CapabilityDescriptor::unknown());
    let st = kernel.capture_status(CaptureStatus { started: false, error: None });
    assert!(!st.active);
}

#[test]
fn graph_upsert_and_capability() {
    let mut k = desktop();
    k.upsert_node(node("a"));
    k.upsert_node(node("b"));
    assert_eq!(k.nodes().len(), 2);
    k.register_capability("a", CapabilityDescriptor::unknown());
    k.register_capability("a", CapabilityDescriptor::unknown());
    let a = k.nodes().into_iter().find(|n| n.node_id == "a").unwrap();
    assert_eq!(a.caps.len(), 1);
}

#[test]
fn create_session_requires_sinks() {
    let mut k = desktop();
    let r = k.control.build_session("sess-a", "a", &vec![], &SessionPrefs::default());
    assert!(matches!(&r, Err(Error::Message(t)) if t == "会话至少需要一个接收端（sinks）"));
    assert_eq!(k.control.sessions.len(), 0);
}

#[test]
fn ensure_session_with_id_is_idempotent() {
    let mut k = desktop();
    let prefs = SessionPrefs::default();
    let s1 = k
        .control
        .ensure_session_with_id("ep-screen-ly-rt-x", "local", &to(&["local"]), &prefs)
        .unwrap();
    assert_eq!(s1.id, "ep-screen-ly-rt-x");
    let s2 = k
        .control
        .ensure_session_with_id("ep-screen-ly-rt-x", "local", &to(&["local"]), &prefs)
        .unwrap();
    assert_eq!(s2.id, s1.id);
    assert_eq!(k.control.sessions.len(), 1);
    let s3 = k
        .control
        .ensure_session_with_id("ep-mic-ly-rt-y", "local", &to(&["local"]), &prefs)
        .unwrap();
    assert_ne!(s3.id, s1.id);
    assert_eq!(k.control.sessions.len(), 2);
}

#[test]
fn session_lifecycle() {
    let mut k = desktop();
    let s = k
        .control
        .build_session("sess-a", "a", &to(&["b"]), &SessionPrefs::default())
        .unwrap();
    assert!(matches!(&s.path, RoutePath::Direct { node } if node == "b"));
    assert_eq!(k.control.sessions.get(&s.id).unwrap().id, s.id);

    let m = k
        .control
        .build_session("sess-m", "a", &to(&["b", "c"]), &SessionPrefs::default())
        .unwrap();
    assert!(matches!(m.path, RoutePath::Mesh { .. }));

    k.control.sessions.require_authorized(&s.id).unwrap();
    let mut updated = k.control.sessions.get(&s.id).unwrap();
    updated.path = RoutePath::ViaRelay { node: "relay-1".to_string() };
    k.control.sessions.insert(updated);
    assert!(matches!(
        k.control.sessions.get(&s.id).unwrap().path,
        RoutePath::ViaRelay { node } if node == "relay-1"
    ));

    k.control.teardown(&s.id).unwrap();
    assert!(k.control.sessions.get(&s.id).is_none());
}

#[test]
fn route_unknown_session_fails() {
    let mut k = desktop();
    assert!(k.control.sessions.require_authorized("nope").is_err());
    assert!(k.control.teardown("nope").is_err());
    let r = k.control.sessions.route("nope", RoutePath::Direct { node: "b".to_string() });
    assert!(matches!(r, Err(Error::SessionNotFound(id)) if id == "nope"));
}

#[test]
fn negotiate_picks_transport_and_codec() {
    let mut k = desktop();
    k.upsert_node(NodeInfo {
        node_id: "a".to_string(),
        name: "a".to_string(),
        roles: vec![NodeRole::Sender],
        caps: vec![CapabilityDescriptor {
            kind: CapabilityKind::Source,
            media: vec![MediaKind::Screen],
            codecs: vec![CodecId::H264, CodecId::Aac],
            transports: vec![TransportId::Ws],
            max_width: Some(1920),
            max_height: Some(1080),
            preferred_profile: ReliabilityProfile::Lossy,
        }],
        addrs: vec![],
    });
    let s = k
        .control
        .build_session("sess-n1", "a", &to(&["b"]), &SessionPrefs::default())
        .unwrap();
    assert_eq!(s.negotiated.transport, TransportId::Ws);
    assert_eq!(s.negotiated.codec, CodecId::H264);
    let prefs = SessionPrefs {
        profile: ReliabilityProfile::Lossy,
        preferred_transport: Some(TransportId::WebRtc),
        access_code: None,
        title: String::new(),
    };
    let s2 = k
        .control
        .build_session("sess-n2", "a", &to(&["b"]), &prefs)
        .unwrap();
    assert_eq!(s2.negotiated.transport, TransportId::Ws);
}

#[test]
fn pin_gates_control_operations() {
    let mut k = desktop();
    let s = k
        .control
        .build_session("sess-pin", "a", &to(&["b"]), &with_code("1234", ""))
        .unwrap();
    assert!(s.requires_pin);
    assert!(matches!(
        k.control.sessions.require_authorized(&s.id),
        Err(Error::PinRequired)
    ));
    assert!(k.control.teardown(&s.id).is_err());
    assert!(k.control.auth.authorize(&s.id, Some("9999")).is_err());
    assert!(k.control.sessions.require_authorized(&s.id).is_err());
    assert!(k.control.auth.authorize(&s.id, Some("1234")).is_ok());
    k.control.sessions.mark_authorized(&s.id).unwrap();
    assert!(k.control.sessions.require_authorized(&s.id).is_ok());
    assert!(k.control.teardown(&s.id).is_ok());
    assert!(k.control.auth.authorize("nope", Some("1234")).is_ok());
    assert!(k.control.sessions.mark_authorized("nope").is_err());
}

#[test]
fn authorizing_opens_a_session() {
    let mut k = desktop();
    let s = k
        .control
        .build_session("sess-pin", "a", &to(&["b"]), &with_code("1234", ""))
        .unwrap();
    assert!(matches!(k.control.authorize(&s.id, None), Err(Error::PinRequired)));
    assert!(matches!(k.control.authorize(&s.id, Some("9999")), Err(Error::PinMismatch)));
    k.control.authorize(&s.id, Some("1234")).unwrap();
    let path = RoutePath::ViaRelay { node: "relay-1".to_string() };
    k.control.sessions.route(&s.id, path).unwrap();
    assert!(matches!(
        k.control.authorize("nope", Some("1234")),
        Err(Error::SessionNotFound(_))
    ));
}

#[test]
fn force_teardown_cleans_pin_session_without_auth() {
    let mut k = desktop();
    let s = k
        .control
        .build_session("sess-f", "a", &to(&["b"]), &with_code("8888", "受保护会话"))
        .unwrap();
    assert!(s.requires_pin);
    assert!(k.control.teardown(&s.id).is_err());
    assert!(k.control.sessions.get(&s.id).is_some());
    assert!(k.control.force_teardown(&s.id).is_ok());
    assert!(k.control.sessions.get(&s.id).is_none());
}

#[test]
fn no_pin_session_stays_open() {
    let mut k = desktop();
    let s = k
        .control
        .build_session("sess-open", "a", &to(&["b"]), &SessionPrefs::default())
        .unwrap();
    assert!(!s.requires_pin);
    assert!(k.control.sessions.require_authorized(&s.id).is_ok());
}

fn copy(t: &ShareToken) -> ShareToken {
    ShareToken {
        v: t.v,
        stream_id: t.stream_id.clone(),
        pin: t.pin.clone(),
        expires_at: t.expires_at,
        media: t.media.clone(),
    }
}

#[test]
fn share_token_lifecycle() {
    let mut k = desktop();
    let s = k
        .control
        .build_session("sess-tok", "a", &to(&["b"]), &SessionPrefs::default())
        .unwrap();
    assert!(k
        .control
        .create_share_token("nope", vec![MediaKind::Mic], 60, NOW)
        .is_err());

    let token = k
        .control
        .create_share_token(&s.id, vec![MediaKind::Mic], 60, NOW)
        .unwrap();
    assert_eq!(token.stream_id, s.id);
    assert_eq!(token.v, TOKEN_VERSION);
    assert!(token.pin.len() == 6 && token.pin.chars().all(|c| c.is_ascii_digit()));
    assert_eq!(token.expires_at, NOW.saturating_add(60));
    assert!(k.verify_share_token(&token, NOW).is_ok());

    let mut forged = copy(&token);
    forged.pin = if token.pin == "000000" { "000001" } else { "000000" }.to_string();
    assert!(k.verify_share_token(&forged, NOW).is_err());

    let mut forged2 = copy(&token);
    forged2.stream_id = "sess-other".to_string();
    assert!(matches!(
        k.verify_share_token(&forged2, NOW),
        Err(Error::Token(t)) if t == "凭证无效：会话 sess-other 未签发凭证"
    ));

    let token2 = k
        .control
        .create_share_token(&s.id, vec![MediaKind::Mic], 60, NOW)
        .unwrap();
    assert!(k.verify_share_token(&token2, NOW).is_ok());
    assert!(k.verify_share_token(&token, NOW).is_err(), "the older token is void");

    let expired = k
        .control
        .create_share_token(&s.id, vec![MediaKind::Mic], 0, NOW)
        .unwrap();
    assert!(matches!(
        k.verify_share_token(&expired, NOW),
        Err(Error::Token(t)) if t == "凭证已过期"
    ));
}

#[test]
fn access_codes_are_six_digits() {
    assert_eq!(pin_of(0), "000000");
    assert_eq!(pin_of(42), "000042");
    assert_eq!(pin_of(999_999), "999999");
}

#[test]
fn tokens_of_unknown_sessions_bring_a_session() {
    let mut k = desktop();
    let view = k
        .control
        .issue_share_token_for("手机".to_string(), vec![MediaKind::Mic, MediaKind::File], None, NOW)
        .unwrap();
    assert!(k.control.has_session(&view.stream_id));
    assert_eq!(view.expires_at, NOW + 600);
    let text = format!("1:{}:{}:{}:mic,file", view.stream_id, view.pin, view.expires_at);
    assert_eq!(view.token, text);
}

#[test]
fn active_share_register_query_and_stop() {
    let mut k = desktop();
    let mic = EndpointId::new(MediaKind::Mic, 0);
    let check = k.note_share_active(mic, "sess-1", Delivery::Pull, NOW);
    assert_eq!(check.stream_id, "sess-1");
    let got = k.active_share_by_endpoint(mic).expect("the share is known");
    assert_eq!(got.0, "sess-1");
    assert_eq!(got.1, Delivery::Pull);

    k.stop_endpoint_share(mic, NOW);
    assert!(k.active_share_by_endpoint(mic).is_none());
    assert!(k.stop_endpoint_share(mic, NOW).is_none());
    assert!(k
        .stop_endpoint_share(EndpointId::new(MediaKind::Screen, 0), NOW)
        .is_none());
}

#[test]
fn teardown_clears_share_token() {
    let mut k = desktop();
    let s = k
        .control
        .build_session("sess-td", "a", &to(&["b"]), &SessionPrefs::default())
        .unwrap();
    let t = k
        .control
        .create_share_token(&s.id, vec![MediaKind::Mic], 60, NOW)
        .unwrap();
    assert!(k.verify_share_token(&t, NOW).is_ok());
    k.control.teardown(&s.id).unwrap();
    assert!(k.verify_share_token(&t, NOW).is_err());
}

#[test]
fn discovery_manifest_gated_by_discoverable() {
    let mut k = desktop();
    k.set_identity(DeviceIdentity {
        device_id: "node-gated".to_string(),
        device_name: "pico".to_string(),
    });
    let (info, action) = k.complete_relay(18777, None, None, "pico", relay(18777));
    assert_eq!(info.port, 18777);
    assert!(matches!(action, MdnsAction::Nothing));
    assert!(k.discovery_manifest().is_none());
    assert!(matches!(k.set_discoverable(true), MdnsAction::Start { .. }));
    let m = k.discovery_manifest().expect("the node can be found now");
    assert_eq!(m.node_id, "node-gated");
    assert!(m.relay_port > 0);
    k.note_announced(true);
    assert!(matches!(k.set_discoverable(false), MdnsAction::Stop));
    assert!(k.discovery_manifest().is_none());
}

#[test]
fn a_running_relay_is_kept() {
    let mut k = desktop();
    assert!(matches!(
        k.start_relay_fixed(18777, 18780, 18781, "pico"),
        AnchorStart::Bind(p) if p.port == 18777 && p.srt_port == 18780 && p.quic_port == 18781
    ));
    k.complete_relay(18777, Some(18780), None, "pico", relay(18777));
    assert!(matches!(
        k.start_relay_fixed(9999, 0, 0, "pico"),
        AnchorStart::Running(info) if info.port == 18777
    ));
    assert_eq!(k.relay_ports(), Some((18777, Some(18780), None)));
}

#[test]
fn multi_link_receive_independent_start_stop() {
    let mut kernel = desktop();
    kernel.note_receive_link("link-a", "stream-a");
    kernel.note_receive_link("link-b", "stream-b");
    kernel.update_receive_stats("link-a", receiving(1));
    kernel.update_receive_stats("link-b", receiving(1));

    let links = kernel.receive_links();
    assert_eq!(links.len(), 2);
    assert!(links.iter().all(|l| l.stats.running));

    assert!(kernel.stop_receive_link("link-a"));
    let links = kernel.receive_links();
    assert_eq!(links.len(), 1);
    assert_eq!(links[0].link_id, "link-b");
    assert!(links[0].stats.running);
    kernel.update_receive_stats("link-b", receiving(2));
    assert!(kernel.receive_links()[0].stats.received >= 2);

    assert!(kernel.stop_receive_link("link-b"));
    assert!(kernel.receive_links().is_empty());
    assert!(!kernel.stop_receive_link("link-b"));
}

#[test]
fn legacy_main_slot_keeps_stop_old_semantics() {
    let mut kernel = desktop();
    kernel.note_receive_link("extra", "legacy-1");
    kernel.update_receive_stats("extra", receiving(1));

    kernel.note_receive_link("main", "legacy-1");
    kernel.update_receive_stats("main", receiving(5));
    kernel.note_receive_link("main", "legacy-2");
    let links = kernel.receive_links();
    assert_eq!(links.len(), 2);
    let main_stats = links.iter().find(|l| l.link_id == "main").unwrap();
    assert_eq!(main_stats.stats.received, 0);

    assert!(kernel.stop_receive());
    let links = kernel.receive_links();
    assert_eq!(links.len(), 1);
    assert_eq!(links[0].link_id, "extra");
    kernel.stop_receive_link("extra");
    assert!(kernel.receive_links().is_empty());
}

#[test]
fn id_roundtrips_and_is_hashable() {
    let mut k = desktop();
    let prefs = SessionPrefs::default();
    let a = k.control.ensure_session_with_id("sess-1", "a", &to(&["b"]), &prefs).unwrap();
    let b = k.control.ensure_session_with_id("sess-1", "a", &to(&["b"]), &prefs).unwrap();
    let c = k.control.ensure_session_with_id("sess-2", "a", &to(&["b"]), &prefs).unwrap();
    assert_eq!(a.id, b.id);
    assert_ne!(a.id, c.id);
    assert_eq!(a.id.as_str(), "sess-1");
    assert!(k.control.has_session("sess-1") && !k.control.has_session("k"));
}

#[test]
fn an_ability_is_told_by_its_media() {
    let mut k = desktop();
    k.upsert_node(node("a"));
    let screen = |codec| {
        let mut d = CapabilityDescriptor::unknown();
        d.media.push(MediaKind::Screen);
        d.codecs.push(codec);
        d
    };
    k.register_capability("a", screen(CodecId::H264));
    k.register_capability("a", screen(CodecId::Aac));
    let a = k.nodes().into_iter().find(|n| n.node_id == "a").unwrap();
    assert_eq!(a.caps.len(), 1);
    assert_eq!(a.caps[0].codecs, vec![CodecId::H264]);
    k.register_capability("a", CapabilityDescriptor::unknown());
    let a = k.nodes().into_iter().find(|n| n.node_id == "a").unwrap();
    assert_eq!(a.caps.len(), 2);
}

#[test]
fn a_session_without_sinks_goes_by_the_relay() {
    assert!(matches!(
        Router::default_path(&vec![]),
        RoutePath::ViaRelay { node } if node == "local"
    ));
    assert!(matches!(
        Router::default_path(&vec!["b".to_string()]),
        RoutePath::Direct { node } if node == "b"
    ));
    assert!(matches!(
        Router::default_path(&vec!["b".to_string(), "c".to_string()]),
        RoutePath::Mesh { nodes } if nodes.len() == 2
    ));
}
