use stross_kernel::error::Error;
use stross_kernel::kernel::auth::PinAuthPolicy;
use stross_kernel::kernel::data_plane::{RelayDataPlane, RelayHandle, RelayState};
use stross_kernel::kernel::endpoint::manifest::{EndpointDir, EndpointManifest, EndpointNode};
use stross_kernel::kernel::endpoint::mounts::SeedEndpoint;
use stross_kernel::kernel::endpoint_api::{KernelEvent, RelayEvent};
use stross_kernel::kernel::subscribe_service::{
    link_id_of, link_id_text, media_watch_url, serialize_name,
};
use stross_kernel::kernel::Kernel;
use stross_kernel::message::{
    Delivery, EndpointClass, EndpointId, EndpointState, EndpointStrategy, MediaKind, PickRule,
    ReliabilityProfile, SerializeRule, SubscribeSpec, TargetKind, Visibility,
};
use stross_kernel::negotiator::trust::DeviceIdentity;
use stross_kernel::platform::Platform;
use stross_kernel::receiver::ReceiveStats;
use stross_kernel::stream_id::derive_stream_id;

type Node = Kernel<PinAuthPolicy, RelayDataPlane>;

const NOW: u64 = 1_700_000_000;

fn desktop() -> Node {
    Kernel::new(Platform::Desktop)
}

fn mic_id() -> EndpointId {
    EndpointId::new(MediaKind::Mic, 0)
}

fn mic(probe: Result<(), String>) -> SeedEndpoint {
    SeedEndpoint {
        id: mic_id(),
        name: "麦克风".to_string(),
        target: TargetKind::Live,
        transport_profile: ReliabilityProfile::Lossy,
        strategy: EndpointStrategy::passthrough(PickRule::Realtime),
        probe,
    }
}

fn pc() -> DeviceIdentity {
    DeviceIdentity {
        device_id: "node-pc".to_string(),
        device_name: "电脑".to_string(),
    }
}

fn spec_for_mic() -> SubscribeSpec {
    SubscribeSpec {
        node_id: "node-phone".to_string(),
        kind: MediaKind::Mic,
        endpoint_id: 0,
        strategy_id: None,
        strategy: EndpointStrategy::passthrough(PickRule::Realtime),
        delivery: Delivery::Pull,
        stream_id: "sess-1".to_string(),
        relay_url: Some("ws://192.168.1.5:18777".to_string()),
    }
}

fn relay() -> RelayDataPlane {
    RelayDataPlane::new(RelayHandle {
        port: 18777,
        srt_port: None,
        quic_port: None,
        state: RelayState::default(),
    })
}

#[test]
fn publish_unpublish_roundtrip() {
    let mut k = desktop();
    k.seed_endpoint(mic(Ok(())), NOW);
    assert!(k.registry.has_endpoint(mic_id()));
    let handle = match k.publish(mic_id(), Visibility::Public, NOW) {
        Ok(h) => h,
        Err(e) => panic!("{e:?}"),
    };
    let m = k.endpoint_manifest(mic_id()).expect("the endpoint is listed");
    assert!(m.published);
    assert_eq!(m.delivery, Delivery::Pull);
    assert_eq!(
        handle.stream_id,
        derive_stream_id(mic_id(), m.transport_profile, m.pick_rule)
    );
    assert!(k.active().is_empty());
    assert!(k.unpublish(&handle.stream_id, NOW).result.is_ok());
    assert!(!k.endpoint_manifest(mic_id()).unwrap().published);
    assert!(k.unpublish(&handle.stream_id, NOW).result.is_err());
}

#[test]
fn publish_rejects_unavailable_endpoint() {
    let mut k = desktop();
    k.seed_endpoint(mic(Err("无采集设备".to_string())), NOW);
    assert!(k.registry.has_endpoint(mic_id()));
    match k.publish(mic_id(), Visibility::Public, NOW) {
        Ok(_) => panic!("an endpoint that cannot be used is refused"),
        Err(e) => assert!(e.to_user_string().contains("不可挂载")),
    }
}

#[test]
fn on_subscribed_registers_active_share() {
    let mut k = desktop();
    k.seed_endpoint(mic(Ok(())), NOW);
    k.note_endpoint_subscribed(mic_id(), "dev-phone", NOW);
    let (_, share) = k.on_subscribed(mic_id(), "sess-1", Delivery::Pull, NOW);
    assert!(share, "the endpoint is there to share");
    let active = k.active();
    assert_eq!(active.len(), 1);
    assert_eq!(active[0].stream_id, "sess-1");
    assert_eq!(active[0].endpoint_id, mic_id());
    assert_eq!(active[0].delivery, Delivery::Pull);
    assert_eq!(active[0].subscriber_nodes, vec!["dev-phone".to_string()]);
    k.stop(mic_id(), NOW);
    assert!(k.active().is_empty());
    assert!(k.stop(mic_id(), NOW).is_none());
}

#[test]
fn reap_if_unwatched_without_data_plane_is_noop() {
    let mut k = desktop();
    assert!(k.reap_if_unwatched("sess-x", NOW).is_none());
}

#[test]
fn seeded_endpoint_class_is_audio() {
    let mut k = desktop();
    k.seed_endpoint(mic(Ok(())), NOW);
    let m = k.endpoint_manifest(mic_id()).unwrap();
    assert_eq!(EndpointClass::from_kind(m.kind), EndpointClass::Audio);
}

#[test]
fn unwatched_shares_end() {
    let mut k = desktop();
    k.seed_endpoint(mic(Ok(())), NOW);
    k.complete_relay(18777, None, None, "pico", relay());
    k.note_share_active(mic_id(), "sess-1", Delivery::Pull, NOW);
    let out = k.on_relay_event(
        RelayEvent::WatchersChanged { stream_id: "sess-1".to_string(), watchers: 0 },
        NOW,
    );
    assert!(matches!(
        &out.event,
        KernelEvent::WatchersChanged { session_id, watchers: 0 } if session_id == "sess-1"
    ));
    assert!(out.recheck, "whether anybody watches is looked at again later");
    assert!(k.active_share_by_stream("sess-1").is_some());
    let out = k.on_relay_event(
        RelayEvent::StreamEnded { stream_id: "sess-1".to_string() },
        NOW,
    );
    assert!(matches!(&out.event, KernelEvent::StreamEnded { session_id } if session_id == "sess-1"));
    assert!(k.active_share_by_stream("sess-1").is_none());
}

#[test]
fn resolve_builds_subscribe_spec_for_self() {
    let mut k = desktop();
    k.set_identity(pc());
    k.seed_endpoint(mic(Ok(())), NOW);
    let spec = k.resolve("node-pc", mic_id(), None).expect("the local microphone");
    assert_eq!(spec.kind, MediaKind::Mic);
    assert_eq!(spec.endpoint_id, 0);
    assert_eq!(spec.node_id, "node-pc");
    assert_eq!(spec.delivery, Delivery::Pull);
    assert_eq!(spec.strategy.pick, PickRule::Realtime);
    assert_eq!(spec.strategy_id, None);
    let m = k.endpoint_manifest(mic_id()).unwrap();
    assert_eq!(
        spec.stream_id,
        derive_stream_id(mic_id(), m.transport_profile, m.pick_rule)
    );
    assert!(spec.relay_url.is_none());
    let spec2 = k
        .resolve("node-pc", mic_id(), Some("default"))
        .expect("the default strategy by name");
    assert_eq!(spec2.strategy_id.as_deref(), Some("default"));
    assert!(k
        .resolve("node-pc", EndpointId::new(MediaKind::Service, 99), None)
        .is_none());
    k.complete_relay(18777, None, None, "pico", relay());
    let spec3 = k.resolve("node-pc", mic_id(), None).unwrap();
    assert_eq!(spec3.relay_url.as_deref(), Some("ws://127.0.0.1:18777"));
}

#[test]
fn resolve_builds_subscribe_spec_for_remote() {
    let mut k = desktop();
    k.set_identity(pc());
    let dir = EndpointDir {
        node: EndpointNode {
            node_id: "node-phone".to_string(),
            node_name: "手机A".to_string(),
        },
        endpoints: vec![EndpointManifest {
            endpoint_id: 0,
            kind: MediaKind::Screen,
            name: "屏幕".to_string(),
            available: true,
            last_error: None,
            published: true,
            visibility: Visibility::Public,
            delivery: Delivery::Pull,
            transports: vec![],
            transport_profile: ReliabilityProfile::Lossy,
            pick_rule: PickRule::Realtime,
            strategies: vec![EndpointStrategy::passthrough(PickRule::Realtime)],
            codecs: vec![],
            state: EndpointState::Idle,
            subscribers: 0,
            updated_at: 0,
        }],
    };
    k.register_remote_directory(&dir, "192.168.1.5:18779");
    let spec = k
        .resolve("node-phone", EndpointId::new(MediaKind::Screen, 0), None)
        .expect("the screen of the phone");
    assert_eq!(spec.kind, MediaKind::Screen);
    assert_eq!(spec.node_id, "node-phone");
    assert!(spec.relay_url.is_none());
}

#[test]
fn subscribe_allocates_link_and_invokes_sink() {
    let mut k = desktop();
    let link = k.subscribe(&spec_for_mic());
    assert_eq!(link, 1);
    assert!(k.links().is_empty());
    assert!(!k.unsubscribe(link), "nothing was running");
    assert_eq!(k.subscribe(&spec_for_mic()), 2);
}

#[test]
fn running_links_are_listed_in_order() {
    let mut k = desktop();
    let first = k.subscribe(&spec_for_mic());
    let second = k.subscribe(&spec_for_mic());
    for link in [second, first] {
        let name = link_id_text(link);
        k.note_receive_link(&name, "sess-1");
        k.update_receive_stats(&name, ReceiveStats { running: true, ..ReceiveStats::default() });
    }
    let links = k.links();
    assert_eq!(links.iter().map(|l| l.link_id).collect::<Vec<u32>>(), vec![first, second]);
    assert_eq!(links[0].node_id, "");
    assert_eq!(links[0].endpoint_id, EndpointId::new(MediaKind::Service, 0));
    assert_eq!(links[0].stream_id, "sess-1");
    assert!(links[0].running);
    assert!(k.unsubscribe(first));
    assert_eq!(k.links().len(), 1);
}

#[test]
fn links_have_names() {
    assert_eq!(link_id_text(0), "main");
    assert_eq!(link_id_of(link_id_text(0).as_str()), 0);
    for n in [1, 7, 4_294_967_295] {
        assert_eq!(link_id_of(link_id_text(n).as_str()), n);
    }
}

#[test]
fn watching_needs_a_relay_and_plain_frames() {
    let mut spec = spec_for_mic();
    assert_eq!(media_watch_url(&spec).unwrap(), "ws://192.168.1.5:18777");
    spec.relay_url = None;
    assert!(matches!(
        media_watch_url(&spec),
        Err(Error::Message(t)) if t == "媒体订阅端点缺公开方中继地址（pull 未锚定）"
    ));
    let mut cut = spec_for_mic();
    cut.strategy.serialize = SerializeRule::Chunked;
    assert!(matches!(
        media_watch_url(&cut),
        Err(Error::Message(t)) if t == "内核不支持序列化规则 Chunked（数据契约不匹配，订阅拒绝）"
    ));
    assert_eq!(serialize_name(SerializeRule::Passthrough), "Passthrough");
}

#[test]
fn stream_names_tell_endpoints_apart() {
    let rt = derive_stream_id(mic_id(), ReliabilityProfile::Lossy, PickRule::Realtime);
    assert_eq!(
        rt,
        derive_stream_id(mic_id(), ReliabilityProfile::Lossy, PickRule::Realtime)
    );
    assert_ne!(
        rt,
        derive_stream_id(mic_id(), ReliabilityProfile::Lossless, PickRule::Realtime)
    );
    assert_ne!(
        rt,
        derive_stream_id(
            EndpointId::new(MediaKind::Mic, 1),
            ReliabilityProfile::Lossy,
            PickRule::Realtime
        )
    );
    assert_eq!(rt, "ep-mic-ly-rt-0");
}

#[test]
fn a_stream_nobody_watches_is_reaped() {
    let mut k = desktop();
    k.seed_endpoint(mic(Ok(())), NOW);
    let mut state = RelayState::default();
    state.authorize_stream("sess-1");
    assert!(state.is_authorized("sess-1"));
    assert_eq!(state.streams(), vec!["sess-1".to_string()]);
    k.complete_relay(
        18777,
        None,
        None,
        "pico",
        RelayDataPlane::new(RelayHandle { port: 18777, srt_port: None, quic_port: None, state }),
    );
    k.note_share_active(mic_id(), "sess-1", Delivery::Pull, NOW);
    assert!(k.reap_if_unwatched("sess-1", NOW).is_none(), "it does not run yet");
    let plane = k.control.data_plane.as_mut().unwrap();
    plane.set_watchers("sess-1", Some(2));
    plane.set_watchers("sess-2", Some(0));
    assert_eq!(plane.authorized(), vec!["sess-1".to_string()]);
    assert!(k.reap_if_unwatched("sess-1", NOW).is_none(), "two watch it");
    assert!(k.reap_if_unwatched("sess-2", NOW).is_none(), "it may not come in");
    k.control.data_plane.as_mut().unwrap().set_watchers("sess-1", Some(0));
    assert!(k.reap_if_unwatched("sess-1", NOW).is_some());
    assert!(k.active_share_by_stream("sess-1").is_none());
}
