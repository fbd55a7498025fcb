use stross_kernel::error::Error;
use stross_kernel::kernel::auth::PinAuthPolicy;
use stross_kernel::kernel::data_plane::{RelayDataPlane, RelayHandle, RelayState};
use stross_kernel::kernel::endpoint::mounts::SeedEndpoint;
use stross_kernel::kernel::endpoint_api::Published;
use stross_kernel::kernel::Kernel;
use stross_kernel::message::{
    Delivery, EndpointId, EndpointStrategy, MediaKind, PickRule, ReliabilityProfile,
    SerializeRule, TargetKind, TransportId, Visibility,
};
use stross_kernel::negotiator::client::{request_url, HANDSHAKE_TIMEOUT_SECS};
use stross_kernel::negotiator::dto::{ShareGrant, ShareRequest};
use stross_kernel::negotiator::grant::{
    checked_strategy, policy_decision, Decision, DEFAULT_GRANT_TTL_SECS,
};
use stross_kernel::negotiator::server::{
    handle_discovery, handle_endpoints, wait_end, HttpReply, PendingEntry, ReplyBody, RequestStep,
    ShareNegotiator, WaitEnd, DEFAULT_NEGOTIATOR_PORT, PENDING_TIMEOUT_SECS,
};
use stross_kernel::negotiator::trust::{
    is_placeholder_name, load_or_create_identity, new_device_id, DeviceIdentity, TrustStore,
};
use stross_kernel::platform::Platform;
use stross_kernel::stream_id::derive_stream_id;

type Node = Kernel<PinAuthPolicy, RelayDataPlane>;

const NOW: u64 = 1_700_000_000;

fn live(kind: MediaKind, name: &str, probe: Result<(), String>) -> SeedEndpoint {
    SeedEndpoint {
        id: EndpointId::new(kind, 0),
        name: name.to_string(),
        target: TargetKind::Live,
        transport_profile: ReliabilityProfile::Lossy,
        strategy: EndpointStrategy::passthrough(PickRule::Realtime),
        probe,
    }
}

fn desktop_kernel() -> Node {
    let mut k = Kernel::new(Platform::Desktop);
    k.seed_endpoint(live(MediaKind::Screen, "屏幕", Ok(())), NOW);
    k.seed_endpoint(live(MediaKind::Mic, "麦克风", Ok(())), NOW);
    k.seed_endpoint(live(MediaKind::SystemAudio, "系统声音", Ok(())), NOW);
    k
}

fn screen() -> EndpointId {
    EndpointId::new(MediaKind::Screen, 0)
}

fn mic() -> EndpointId {
    EndpointId::new(MediaKind::Mic, 0)
}

fn system_audio() -> EndpointId {
    EndpointId::new(MediaKind::SystemAudio, 0)
}

fn announce(k: &mut Node, id: EndpointId, visibility: Visibility, delivery: Delivery) -> Published {
    match k.publish_endpoint(id, visibility, delivery, None, None, NOW) {
        Ok(p) => p,
        Err(e) => panic!("{e:?}"),
    }
}

fn fresh() -> ShareNegotiator {
    ShareNegotiator::new(TrustStore::load(None), 0)
}

fn entry(device_id: &str, name: &str, endpoint_id: Option<EndpointId>, mode: Option<Delivery>) -> PendingEntry {
    PendingEntry {
        device_id: device_id.to_string(),
        device_name: name.to_string(),
        endpoint_id,
        strategy_id: None,
        delivery_mode: mode,
        relay_addr: None,
        share_token: None,
    }
}

fn request(device_id: &str, endpoint_id: Option<EndpointId>, media: Vec<MediaKind>) -> ShareRequest {
    ShareRequest {
        device_id: device_id.to_string(),
        device_name: "申请方".to_string(),
        endpoint_id,
        strategy_id: None,
        delivery_mode: None,
        relay_addr: None,
        share_token: None,
        media,
    }
}

fn refused(step: RequestStep) -> (u16, String) {
    match step {
        RequestStep::Reply(HttpReply { status, body: ReplyBody::Error(e) }, None) => (status, e.error),
        _ => panic!("the request was not refused"),
    }
}

fn granted(step: RequestStep) -> ShareGrant {
    match step {
        RequestStep::Reply(HttpReply { status: 200, body: ReplyBody::Grant(g) }, _) => g,
        _ => panic!("the request was not granted"),
    }
}

#[test]
fn identity_persists_and_stable() {
    let random = vec![0x5a; 16];
    let a = load_or_create_identity(None, "电脑", Some(&random), NOW, 7);
    assert!(a.changed, "a new identity is to be kept");
    let kept = DeviceIdentity {
        device_id: a.identity.device_id.clone(),
        device_name: a.identity.device_name.clone(),
    };
    let b = load_or_create_identity(Some(kept), "电脑", Some(&vec![0x11; 16]), NOW + 9, 8);
    assert!(!b.changed);
    assert_eq!(a.identity.device_id, b.identity.device_id);
    assert_eq!(a.identity.device_name, b.identity.device_name);
    assert!(!a.identity.device_id.is_empty());
}

#[test]
fn placeholder_names_are_replaced() {
    assert!(is_placeholder_name("localhost"));
    assert!(!is_placeholder_name("电脑"));
    let kept = DeviceIdentity {
        device_id: "dev-1".to_string(),
        device_name: "localhost".to_string(),
    };
    let settled = load_or_create_identity(Some(kept), "电脑", None, NOW, 7);
    assert_eq!(settled.identity.device_id, "dev-1");
    assert_eq!(settled.identity.device_name, "电脑");
    assert!(settled.changed);
}

#[test]
fn trust_store_persists() {
    let mut s = TrustStore::load(None);
    assert!(!s.is_trusted("dev-x"));
    s.remember("dev-x", "手机A", NOW);
    assert!(s.is_trusted("dev-x"));
    assert_eq!(s.trusted_name("dev-x").as_deref(), Some("手机A"));
    let again = TrustStore::load(Some(s.entries()));
    assert!(again.is_trusted("dev-x"));
    assert_eq!(again.trusted_name("dev-x").as_deref(), Some("手机A"));
    assert_eq!(again.len(), 1);
}

#[test]
fn new_device_id_unique_and_hex() {
    let a = new_device_id(Some(&vec![0xab; 16]), NOW, 7);
    let b = new_device_id(Some(&vec![0xac; 16]), NOW, 7);
    assert_ne!(a, b);
    assert!(a.len() >= 16);
    assert_eq!(a, "ab".repeat(16));
    let c = new_device_id(None, NOW, 7);
    let d = new_device_id(None, NOW + 1, 7);
    assert_ne!(c, d);
    assert!(c.len() >= 16);
}

#[test]
fn unknown_device_pends_and_allow_grants() {
    let mut app = desktop_kernel();
    let mut neg = fresh();
    assert!(!neg.store.is_trusted("dev-phone-1"));
    neg.hold("n1".to_string(), entry("dev-phone-1", "手机A", None, None));

    let grant = neg.respond(&mut app, "n1", true, true, NOW).result.unwrap().unwrap();
    assert!(!grant.view.token.is_empty());
    assert!(!grant.view.stream_id.is_empty());
    assert!(grant.view.expires_at > NOW);
    assert_eq!(grant.view.expires_at, NOW + DEFAULT_GRANT_TTL_SECS);
    assert!(neg.store.is_trusted("dev-phone-1"));
}

#[test]
fn trusted_device_auto_grants() {
    let mut store = TrustStore::load(None);
    store.remember("dev-phone-2", "手机B", NOW);
    let mut app = desktop_kernel();
    let neg = ShareNegotiator::new(store, 0);
    let grant = neg
        .grant(&mut app, "dev-phone-2", "手机B", None, &None, None, NOW)
        .expect("a trusted device is granted");
    assert!(grant.trusted);
}

#[test]
fn deny_returns_error() {
    let mut app = desktop_kernel();
    let mut neg = fresh();
    neg.hold("n3".to_string(), entry("dev-3", "手机C", None, None));
    let out = neg.respond(&mut app, "n3", false, false, NOW);
    assert!(matches!(wait_end(&out.result), WaitEnd::Refused(t) if t == "用户拒绝"));
    assert!(out.share.is_none());
    assert!(!neg.store.is_trusted("dev-3"));
}

#[test]
fn a_request_is_answered_once() {
    let mut app = desktop_kernel();
    let mut neg = fresh();
    neg.hold("n3".to_string(), entry("dev-3", "手机C", None, None));
    assert_eq!(neg.pending_len(), 1);
    assert!(neg.respond(&mut app, "n3", true, false, NOW).result.is_ok());
    assert_eq!(neg.pending_len(), 0);
    let again = neg.respond(&mut app, "n3", true, false, NOW);
    assert_eq!(again.result.unwrap_err(), "挂起请求不存在或已处理: n3");
}

#[test]
fn endpoint_public_grant_carries_delivery_and_transports() {
    let mut app = desktop_kernel();
    announce(&mut app, mic(), Visibility::Public, Delivery::Pull);
    let neg = fresh();
    let grant = neg
        .grant(&mut app, "dev-phone", "手机A", Some(mic()), &None, None, NOW)
        .expect("a public endpoint is granted");
    assert_eq!(grant.delivery, Some(Delivery::Pull));
    let transports = grant.transports.expect("the transports are listed");
    assert_eq!(transports[0], TransportId::Quic);
    assert!(grant.relay.is_none());
}

#[test]
fn endpoint_delivery_both_granted_as_pull_subscription_driven() {
    let mut app = desktop_kernel();
    announce(&mut app, system_audio(), Visibility::Public, Delivery::Both);
    let neg = fresh();
    let grant = neg
        .grant(
            &mut app,
            "dev-phone",
            "手机A",
            Some(system_audio()),
            &None,
            Some(Delivery::Push),
            NOW,
        )
        .unwrap();
    assert_eq!(grant.delivery, Some(Delivery::Pull));
    let grant = neg
        .grant(&mut app, "dev-phone", "手机A", Some(system_audio()), &None, None, NOW)
        .unwrap();
    assert_eq!(grant.delivery, Some(Delivery::Pull));
}

#[test]
fn pull_reuse_same_stream_for_second_subscriber() {
    let mut app = desktop_kernel();
    announce(&mut app, mic(), Visibility::Public, Delivery::Pull);
    let neg = fresh();
    let g1 = neg
        .grant(&mut app, "dev-a", "设备A", Some(mic()), &None, None, NOW)
        .unwrap();
    let sid1 = g1.view.stream_id;
    assert!(!sid1.is_empty());
    app.note_share_active(mic(), &sid1, Delivery::Pull, NOW);
    let g2 = neg
        .grant(&mut app, "dev-b", "设备B", Some(mic()), &None, None, NOW)
        .unwrap();
    assert_eq!(g2.view.stream_id, sid1);
    assert_eq!(g2.delivery, Some(Delivery::Pull));
}

#[test]
fn endpoint_grant_stream_id_is_derived_and_session_exists() {
    let mut app = desktop_kernel();
    announce(&mut app, mic(), Visibility::Public, Delivery::Pull);
    let neg = fresh();
    let g1 = neg
        .grant(&mut app, "dev-a", "设备A", Some(mic()), &None, None, NOW)
        .unwrap();
    let m = app.endpoint_manifest(mic()).unwrap();
    let expected = derive_stream_id(
        EndpointId::new(m.kind, m.endpoint_id),
        m.transport_profile,
        m.pick_rule,
    );
    assert_eq!(g1.view.stream_id, expected);
    assert!(g1.view.token.is_empty());
    assert!(app.control.has_session(&expected));
    let g2 = neg
        .grant(&mut app, "dev-b", "设备B", Some(mic()), &None, None, NOW)
        .unwrap();
    assert_eq!(g2.view.stream_id, expected);
    assert_eq!(app.control.sessions.len(), 1);
}

#[test]
fn push_declared_endpoint_still_reuses_as_pull() {
    let mut app = desktop_kernel();
    announce(&mut app, mic(), Visibility::Public, Delivery::Push);
    let neg = fresh();
    let g1 = neg
        .grant(&mut app, "dev-a", "设备A", Some(mic()), &None, Some(Delivery::Push), NOW)
        .unwrap();
    assert_eq!(g1.delivery, Some(Delivery::Pull));
    let sid1 = g1.view.stream_id;
    app.note_share_active(mic(), &sid1, Delivery::Pull, NOW);
    let g2 = neg
        .grant(&mut app, "dev-b", "设备B", Some(mic()), &None, None, NOW)
        .unwrap();
    assert_eq!(g2.view.stream_id, sid1);
    assert_eq!(g2.delivery, Some(Delivery::Pull));
}

#[test]
fn confirm_subscription_fires_pull_share() {
    let mut app = desktop_kernel();
    let rec = EndpointId::new(MediaKind::File, 0);
    app.seed_endpoint(
        SeedEndpoint {
            id: rec,
            name: "记录".to_string(),
            target: TargetKind::Determined,
            transport_profile: ReliabilityProfile::Lossless,
            strategy: EndpointStrategy::passthrough(PickRule::StrictOrdered),
            probe: Ok(()),
        },
        NOW,
    );
    let m = announce(&mut app, rec, Visibility::Public, Delivery::Pull).manifest;
    let mut neg = fresh();
    neg.hold(
        "np1".to_string(),
        entry(
            "dev-sub",
            "订阅方",
            Some(EndpointId::new(m.kind, m.endpoint_id)),
            Some(Delivery::Pull),
        ),
    );
    let out = neg.respond(&mut app, "np1", true, false, NOW);
    let grant = out.result.unwrap().expect("the subscription is granted");
    assert_eq!(grant.delivery, Some(Delivery::Pull));
    let start = out.share.expect("the endpoint starts to share");
    assert!(start.known);
    assert_eq!(start.ctx.subscriber, "dev-sub");
    assert_eq!(start.ctx.delivery, Delivery::Pull);
    assert_eq!(start.ctx.stream_id, grant.view.stream_id);
    assert!(start.ctx.relay_addr.is_none());
    assert!(start.ctx.share_token.is_none());
}

#[test]
fn policy_decision_respects_visibility() {
    let mut store = TrustStore::load(None);
    let mut app = desktop_kernel();

    announce(&mut app, mic(), Visibility::Public, Delivery::Pull);
    let m = app.endpoint_manifest(mic()).unwrap();
    assert_eq!(policy_decision(&store, Some(&m), "stranger"), Decision::Grant);

    announce(&mut app, screen(), Visibility::Confirm, Delivery::Pull);
    let m = app.endpoint_manifest(screen()).unwrap();
    assert_eq!(policy_decision(&store, Some(&m), "dev-trusted"), Decision::Pending);
    store.remember("dev-trusted", "可信设备", NOW);
    assert_eq!(policy_decision(&store, Some(&m), "dev-trusted"), Decision::Grant);

    announce(
        &mut app,
        system_audio(),
        Visibility::Private { nodes: vec!["dev-ok".to_string()] },
        Delivery::Pull,
    );
    let m = app.endpoint_manifest(system_audio()).unwrap();
    assert_eq!(policy_decision(&store, Some(&m), "dev-ok"), Decision::Grant);
    assert_eq!(
        policy_decision(&store, Some(&m), "dev-no"),
        Decision::Reject("请求方不在该端点的白名单内")
    );

    assert_eq!(policy_decision(&store, None, "dev-trusted"), Decision::Grant);
    assert_eq!(policy_decision(&store, None, "stranger"), Decision::Pending);
}

#[test]
fn endpoint_unknown_and_private_directory_rules() {
    let app = desktop_kernel();
    assert!(app.endpoint_manifest(EndpointId::new(MediaKind::Service, 99)).is_none());
    let endpoints = app.endpoint_catalog();
    assert_eq!(endpoints.len(), 3);
    assert!(endpoints.iter().all(|e| !e.published));
    assert!(endpoints.iter().all(|e| e.available));
}

#[test]
fn unavailable_endpoint_rejected_by_publish_and_subscribe() {
    let mut app: Node = Kernel::new(Platform::Desktop);
    app.seed_endpoint(live(MediaKind::Screen, "屏幕", Err("无图形会话".to_string())), NOW);
    match app.publish_endpoint(screen(), Visibility::Public, Delivery::Pull, None, None, NOW) {
        Ok(_) => panic!("an endpoint that cannot be used is refused"),
        Err(e) => assert!(e.to_user_string().contains("无图形会话")),
    }
    let mut neg = fresh();
    let req = request("dev-x", Some(screen()), vec![MediaKind::Screen]);
    let (code, text) = refused(neg.handle_request(&mut app, &req, NOW));
    assert_eq!(code, 404);
    assert!(text.contains("无图形会话"));
}

#[test]
fn requests_that_cannot_be_considered() {
    let mut app = desktop_kernel();
    let mut neg = fresh();
    let gone = request("dev-x", Some(EndpointId::new(MediaKind::Service, 99)), vec![]);
    assert_eq!(
        refused(neg.handle_request(&mut app, &gone, NOW)),
        (404, "端点不存在或已取消公开".to_string())
    );
    let nothing = request("dev-x", None, vec![]);
    assert_eq!(
        refused(neg.handle_request(&mut app, &nothing, NOW)),
        (400, "media 不能为空".to_string())
    );
    let unannounced = request("dev-x", Some(mic()), vec![]);
    assert_eq!(
        refused(neg.handle_request(&mut app, &unannounced, NOW)),
        (404, "端点不存在或已取消公开".to_string())
    );
    announce(&mut app, mic(), Visibility::Private { nodes: vec![] }, Delivery::Pull);
    let private = request("dev-x", Some(mic()), vec![]);
    assert_eq!(
        refused(neg.handle_request(&mut app, &private, NOW)),
        (403, "请求方不在该端点的白名单内".to_string())
    );
}

#[test]
fn remembered_devices_are_granted_next_time() {
    let mut app = desktop_kernel();
    let mut neg = fresh();
    let req = request("dev-x", None, vec![MediaKind::Mic]);
    let shown = match neg.handle_request(&mut app, &req, NOW) {
        RequestStep::Wait(p) => p,
        _ => panic!("a stranger has to wait"),
    };
    assert_eq!(shown.device_id, "dev-x");
    assert_eq!(shown.device_name, "申请方");
    assert_eq!(shown.media, vec!["mic".to_string()]);
    let listed = neg.pending_requests(&app);
    assert_eq!(listed.len(), 1);
    assert_eq!(listed[0].id, shown.id);
    assert!(neg.respond(&mut app, &shown.id, true, true, NOW).result.is_ok());
    let g = granted(neg.handle_request(&mut app, &req, NOW + 1));
    assert!(g.trusted);
}

#[test]
fn waiting_requests_have_names_of_their_own() {
    let mut app = desktop_kernel();
    let mut neg = fresh();
    let req = request("dev-x", None, vec![MediaKind::Mic]);
    let mut names = Vec::new();
    for _ in 0..3 {
        match neg.handle_request(&mut app, &req, NOW) {
            RequestStep::Wait(p) => names.push(p.id),
            _ => panic!("a stranger has to wait"),
        }
    }
    assert_eq!(neg.pending_len(), 3);
    assert!(names[0] != names[1] && names[1] != names[2] && names[0] != names[2]);
}

#[test]
fn how_waiting_ends() {
    let mut app = desktop_kernel();
    let mut neg = fresh();
    let req = request("dev-x", None, vec![MediaKind::Mic]);
    let id = match neg.handle_request(&mut app, &req, NOW) {
        RequestStep::Wait(p) => p.id,
        _ => panic!("a stranger has to wait"),
    };
    let late = neg.settle(&id, WaitEnd::TimedOut);
    assert_eq!(late.status, 504);
    assert!(matches!(late.body, ReplyBody::Error(e) if e.error == "等待用户确认超时"));
    assert_eq!(neg.pending_len(), 0);
    let no = neg.settle(&id, WaitEnd::Refused("用户拒绝".to_string()));
    assert_eq!(no.status, 403);
    let lost = neg.settle(&id, WaitEnd::Lost);
    assert_eq!(lost.status, 500);
    assert!(matches!(lost.body, ReplyBody::Error(e) if e.error == "内部错误"));
    assert!(matches!(wait_end(&Err("x".to_string())), WaitEnd::Lost));
    assert!(HANDSHAKE_TIMEOUT_SECS > PENDING_TIMEOUT_SECS);
}

#[test]
fn unpacked_strategies_only() {
    let mut app = desktop_kernel();
    announce(&mut app, mic(), Visibility::Public, Delivery::Pull);
    let mut m = app.endpoint_manifest(mic()).unwrap();
    assert_eq!(checked_strategy(&m, None).unwrap().strategy_id, "default");
    m.strategies = vec![EndpointStrategy {
        strategy_id: "chunked".to_string(),
        serialize: SerializeRule::Chunked,
        pick: PickRule::StrictOrdered,
    }];
    assert!(checked_strategy(&m, None).is_err());
}

#[test]
fn private_endpoints_are_not_listed() {
    let mut app = desktop_kernel();
    app.set_identity(DeviceIdentity {
        device_id: "node-pc".to_string(),
        device_name: "电脑".to_string(),
    });
    announce(&mut app, mic(), Visibility::Public, Delivery::Pull);
    announce(
        &mut app,
        screen(),
        Visibility::Private { nodes: vec!["dev-ok".to_string()] },
        Delivery::Pull,
    );
    let dir = handle_endpoints(&app);
    assert_eq!(dir.node.node_id, "node-pc");
    assert_eq!(dir.node.node_name, "电脑");
    assert_eq!(dir.endpoints.len(), 1);
    assert_eq!(dir.endpoints[0].kind, MediaKind::Mic);
}

#[test]
fn only_discoverable_nodes_answer() {
    let mut app = desktop_kernel();
    let (status, body) = handle_discovery(&app);
    assert_eq!(status, 404);
    assert_eq!(body.err().unwrap().error, "本节点未锚定中继");
    app.set_identity(DeviceIdentity {
        device_id: "node-pc".to_string(),
        device_name: "电脑".to_string(),
    });
    let plane = RelayDataPlane::new(RelayHandle {
        port: 18777,
        srt_port: None,
        quic_port: None,
        state: RelayState::default(),
    });
    app.complete_relay(18777, None, None, "pico", plane);
    app.set_discoverable(true);
    let (status, body) = handle_discovery(&app);
    assert_eq!(status, 200);
    assert_eq!(body.ok().unwrap().relay_port, 18777);
}

#[test]
fn where_requests_go() {
    assert_eq!(DEFAULT_NEGOTIATOR_PORT, 18779);
    assert_eq!(
        request_url("192.168.1.5", DEFAULT_NEGOTIATOR_PORT),
        "http://192.168.1.5:18779/api/negotiator/request"
    );
}

#[test]
fn unknown_endpoints_cannot_be_announced() {
    let mut app = desktop_kernel();
    let gone = EndpointId::new(MediaKind::Service, 99);
    assert!(matches!(
        app.publish_endpoint(gone, Visibility::Public, Delivery::Pull, None, None, NOW),
        Err(Error::Message(t)) if t == "端点不存在: service:99"
    ));
}

#[test]
fn a_subscriber_names_the_granted_stream_itself() {
    let mut pc = desktop_kernel();
    pc.set_identity(DeviceIdentity {
        device_id: "node-pc".to_string(),
        device_name: "电脑".to_string(),
    });
    announce(&mut pc, mic(), Visibility::Public, Delivery::Pull);
    let mut phone: Node = Kernel::new(Platform::Android);
    phone.register_remote_directory(&handle_endpoints(&pc), "192.168.1.5");
    let spec = phone.resolve("node-pc", mic(), None).expect("the microphone of the other node");
    let mut n = fresh();
    let g = granted(n.handle_request(&mut pc, &request("phone", Some(mic()), vec![]), NOW));
    assert_eq!(g.view.stream_id, spec.stream_id);
    assert!(pc.control.has_session(&spec.stream_id));
}

#[test]
fn numbers_of_waiting_requests_start_over_after_the_last_one() {
    let mut k = desktop_kernel();
    let mut n = fresh();
    k.next_pending = u64::MAX;
    match n.handle_request(&mut k, &request("a", None, vec![MediaKind::Mic]), NOW) {
        RequestStep::Wait(p) => assert_eq!(p.id, "n18446744073709551615"),
        _ => panic!("the request waits"),
    }
    match n.handle_request(&mut k, &request("b", None, vec![MediaKind::Mic]), NOW) {
        RequestStep::Wait(p) => assert_eq!(p.id, "n0"),
        _ => panic!("the request waits"),
    }
    assert_eq!(n.pending_len(), 2);
}

#[test]
fn a_known_device_keeps_its_name() {
    let mut s = TrustStore::load(None);
    s.remember("d", "A", NOW);
    s.remember("d", "B", NOW + 5);
    assert_eq!(s.trusted_name("d").as_deref(), Some("A"));
    assert_eq!(s.len(), 1);
    assert_eq!(s.entries()[0].1.added_at, NOW + 5);
}

#[test]
fn names_differ_under_one_kernel() {
    let mut k = desktop_kernel();
    let mut wait = |n: &mut ShareNegotiator, device: &str| {
        match n.handle_request(&mut k, &request(device, None, vec![MediaKind::Mic]), NOW) {
            RequestStep::Wait(p) => p.id,
            _ => panic!("a stranger has to wait"),
        }
    };
    let mut first = fresh();
    let mut second = fresh();
    let a = wait(&mut first, "dev-a");
    let b = wait(&mut second, "dev-b");
    let mut third = fresh();
    let c = wait(&mut third, "dev-c");
    assert_eq!(vec![a.as_str(), b.as_str(), c.as_str()], vec!["n1", "n2", "n3"]);
    let out = second.respond(&mut k, &a, true, true, NOW);
    assert!(out.result.is_err(), "the answer is meant for another request");
    assert!(!second.store.is_trusted("dev-b"));
    assert!(second.respond(&mut k, &b, true, true, NOW).result.is_ok());
    assert!(second.store.is_trusted("dev-b"));
    assert_eq!(k.new_pending_id(), 4);
}

#[test]
fn a_second_answer_comes_too_late() {
    let mut k = desktop_kernel();
    let mut n = fresh();
    let id = match n.handle_request(&mut k, &request("a", None, vec![MediaKind::Mic]), NOW) {
        RequestStep::Wait(p) => p.id,
        _ => panic!("a stranger has to wait"),
    };
    assert!(n.respond(&mut k, &id, false, false, NOW).result.unwrap().is_none());
    let late = n.respond(&mut k, &id, true, true, NOW + 30);
    assert!(late.result.is_err());
    assert!(late.share.is_none());
    assert!(n.store.is_empty());
}
