use stross_kernel::discovery::aggregate::{note_answers, parse_base, sort_devices, RelayPortsInfo};
use stross_kernel::discovery::info::RoleId;
use stross_kernel::frame::{Frame, CODEC_H264, FLAG_KEYFRAME, TRACK_VIDEO};
use stross_kernel::kernel::anchor::MdnsAction;
use stross_kernel::kernel::auth::PinAuthPolicy;
use stross_kernel::kernel::data_plane::{RelayDataPlane, RelayHandle, RelayState};
use stross_kernel::kernel::endpoint::mounts::SeedEndpoint;
use stross_kernel::kernel::endpoint::subscribe_generate::{
    SubscribeEndpoint, SubscribeEndpointFactory,
};
use stross_kernel::kernel::graph::{CapabilityDescriptor, NodeInfo, NodeRole};
use stross_kernel::kernel::session::SessionPrefs;
use stross_kernel::kernel::streams::DEFAULT_PORT;
use stross_kernel::kernel::{Kernel, SHARE_IDLE_DELAY_MS, SHARE_STOP_DELAY_MS};
use stross_kernel::message::{
    CodecId, Delivery, EndpointClass, EndpointId, EndpointStrategy, MediaKind, PickRule,
    ReliabilityProfile, SubscribeSpec, TargetKind, TransportId, Visibility,
};
use stross_kernel::negotiator::server::{no_such_endpoint, ReplyBody};
use stross_kernel::negotiator::trust::DeviceIdentity;
use stross_kernel::pick::interpret::{Interpreter, RealtimePacing};
use stross_kernel::pick::manager::ChannelKind;
use stross_kernel::platform::Platform;
use stross_kernel::stream_id::derive_stream_id;

type Node = Kernel<PinAuthPolicy, RelayDataPlane>;

const NOW: u64 = 1_700_000_000;

fn phone() -> Node {
    Kernel::with_auth(Platform::Android, PinAuthPolicy::default())
}

fn mic_id() -> EndpointId {
    EndpointId::new(MediaKind::Mic, 0)
}

fn mic() -> SeedEndpoint {
    SeedEndpoint {
        id: mic_id(),
        name: "麦克风".to_string(),
        target: TargetKind::Live,
        transport_profile: ReliabilityProfile::Lossy,
        strategy: EndpointStrategy::passthrough(PickRule::Realtime),
        probe: Ok(()),
    }
}

fn relay() -> RelayDataPlane {
    RelayDataPlane::new(RelayHandle {
        port: 18777,
        srt_port: None,
        quic_port: None,
        state: RelayState::default(),
    })
}

fn subscription(kind: MediaKind) -> SubscribeSpec {
    SubscribeSpec {
        node_id: "node-b".to_string(),
        kind,
        endpoint_id: 3,
        strategy_id: None,
        strategy: EndpointStrategy::passthrough(PickRule::Realtime),
        delivery: Delivery::Pull,
        stream_id: "s".to_string(),
        relay_url: None,
    }
}

#[test]
fn a_new_node_knows_nothing() {
    let k = phone();
    assert_eq!(k.platform_str(), "android");
    assert!(k.node_identity().is_none());
    assert!(!k.has_data_plane());
    assert!(!k.discoverable());
    assert_eq!(k.stream_relay_port(), DEFAULT_PORT);
    assert_eq!(k.receive_status().received, 0);
    assert!(!k.receive_status().running);
    assert_eq!(k.receive_status_of("other").received, 0);
    assert_eq!(k.registry.node_ids(), vec![String::new()]);
    assert!(k.local_catalog().endpoints.is_empty());
    assert!(k.published_endpoints().is_empty());
    let any = Node::relay_fallback();
    assert_eq!((any.port, any.srt_port, any.quic_port), (0, 0, 0));
}

#[test]
fn a_data_plane_is_told_about_sessions() {
    let mut k = phone();
    k.attach_data_plane(relay());
    assert!(k.has_data_plane());
    let prefs = SessionPrefs::default();
    let to = vec!["local".to_string()];
    assert!(k.control.build_session("s1", "local", &to, &prefs).is_ok());
    let plane = k.control.data_plane.as_ref().unwrap();
    assert_eq!(plane.authorized(), vec!["s1".to_string()]);
    assert!(k.control.force_teardown("s1").is_ok());
    assert!(k.control.data_plane.as_ref().unwrap().authorized().is_empty());
    let mut state = RelayState::default();
    state.authorize_stream("a");
    state.authorize_stream("b");
    state.revoke_stream("a");
    assert_eq!(state.streams(), vec!["b".to_string()]);
    assert_eq!(state.watchers("b"), None);
}

#[test]
fn transport_and_codec_are_settled_by_the_source() {
    let mut k = phone();
    let any = SessionPrefs::default();
    let plain = k.control.negotiate("nobody", &any);
    assert_eq!(plain.transport, TransportId::Ws);
    assert_eq!(plain.codec, CodecId::H264);
    let mut cap = CapabilityDescriptor::unknown();
    cap.transports = vec![TransportId::Srt, TransportId::WebRtc];
    cap.codecs = vec![CodecId::Aac];
    k.upsert_node(NodeInfo {
        node_id: "cam".to_string(),
        name: "cam".to_string(),
        roles: vec![NodeRole::Sender],
        caps: vec![cap],
        addrs: vec![],
    });
    let settled = k.control.negotiate("cam", &any);
    assert_eq!(settled.transport, TransportId::WebRtc);
    assert_eq!(settled.codec, CodecId::Aac);
    let srt = SessionPrefs { preferred_transport: Some(TransportId::Srt), ..SessionPrefs::default() };
    assert_eq!(k.control.negotiate("cam", &srt).transport, TransportId::Srt);
    let quic = SessionPrefs { preferred_transport: Some(TransportId::Quic), ..SessionPrefs::default() };
    assert_eq!(k.control.negotiate("cam", &quic).transport, TransportId::WebRtc);
    assert_eq!(k.control.negotiate("nobody", &quic).transport, TransportId::Quic);
}

#[test]
fn shares_wait_as_long_as_they_are_told() {
    let mut k = phone();
    k.seed_endpoint(mic(), NOW);
    assert_eq!(k.share_stop_delay_ms, SHARE_STOP_DELAY_MS);
    let check = k.note_share_active(mic_id(), "s", Delivery::Pull, NOW);
    assert_eq!(check.delay_ms, SHARE_IDLE_DELAY_MS);
    k.set_share_lifecycle_delays(7, 11);
    let check = k.note_share_active(mic_id(), "s", Delivery::Pull, NOW);
    assert_eq!(check.delay_ms, 11);
    assert_eq!(k.share_stop_delay_ms, 7);
}

#[test]
fn the_last_subscriber_ends_the_share() {
    let mut k = phone();
    k.seed_endpoint(mic(), NOW);
    assert!(k.can_count_subscriber(mic_id()));
    k.note_endpoint_subscribed(mic_id(), "a", NOW);
    k.note_endpoint_subscribed(mic_id(), "b", NOW);
    k.note_endpoint_subscribed(mic_id(), "b", NOW);
    assert_eq!(k.registry.subscriber_count(mic_id()), 2);
    k.note_share_active(mic_id(), "s", Delivery::Pull, NOW);
    assert_eq!(k.registry.manifest(mic_id()).unwrap().subscribers, 2);
    assert_eq!(k.endpoint_id_of_stream("s"), Some(mic_id()));
    assert_eq!(k.note_endpoint_unsubscribed(mic_id(), "a", NOW).0, 1);
    assert!(k.active_share_by_stream("s").is_some());
    assert_eq!(k.note_endpoint_unsubscribed(mic_id(), "b", NOW).0, 0);
    assert!(k.active_share_by_stream("s").is_none());
    assert_eq!(k.endpoint_id_of_stream("s"), None);
    k.note_endpoint_subscribed(mic_id(), "c", NOW);
    k.registry.clear_subscribers(mic_id());
    assert_eq!(k.registry.subscriber_count(mic_id()), 0);
}

#[test]
fn announced_endpoints_are_known_by_their_stream() {
    let mut k = phone();
    k.seed_endpoint(mic(), NOW);
    let sid = derive_stream_id(mic_id(), ReliabilityProfile::Lossy, PickRule::Realtime);
    assert_eq!(k.endpoint_id_of_stream(&sid), None);
    assert!(k.publish(mic_id(), Visibility::Public, NOW).is_ok());
    assert_eq!(k.endpoint_id_of_stream(&sid), Some(mic_id()));
    assert_eq!(k.published_endpoints().len(), 1);
    assert_eq!(k.local_catalog().endpoints.len(), 1);
    assert!(k.unpublish_endpoint(mic_id(), NOW).result.is_ok());
    assert!(k.published_endpoints().is_empty());
    assert_eq!(
        k.registry.stream_profile("local", mic_id()),
        Some((ReliabilityProfile::Lossy, PickRule::Realtime))
    );
    assert_eq!(k.registry.stream_profile("elsewhere", mic_id()), None);
    assert_eq!(k.registry_nodes().len(), 1);
    assert!(k.can_publish_file());
    assert_eq!(k.registry.free_file_id(), Some(0));
}

#[test]
fn receiving_ends_are_built_for_their_family() {
    let mut k = phone();
    match k.subscribe_via_endpoint(&subscription(MediaKind::File), None, "/tmp/t") {
        Ok(SubscribeEndpoint::File { id, out_dir, .. }) => {
            assert_eq!(id, EndpointId::new(MediaKind::File, 3));
            assert_eq!(out_dir, "/tmp/t");
        }
        other => panic!("{other:?}"),
    }
    match k.subscribe_via_endpoint(&subscription(MediaKind::File), Some("/d"), "/tmp/t") {
        Ok(SubscribeEndpoint::File { out_dir, .. }) => assert_eq!(out_dir, "/d"),
        other => panic!("{other:?}"),
    }
    match k.subscribe_via_endpoint(&subscription(MediaKind::Screen), None, "/tmp/t") {
        Ok(SubscribeEndpoint::Media { kind, .. }) => assert_eq!(kind, MediaKind::Screen),
        other => panic!("{other:?}"),
    }
    match k.subscribe_via_endpoint(&subscription(MediaKind::Service), None, "/tmp/t") {
        Ok(e) => panic!("{e:?}"),
        Err(e) => assert!(e.to_user_string().contains("service:3")),
    }
    let class = EndpointClass::from_kind(MediaKind::Service);
    k.register_subscribe_factory(class, SubscribeEndpointFactory::Registered(9));
    match k.subscribe_via_endpoint(&subscription(MediaKind::Service), None, "/tmp/t") {
        Ok(SubscribeEndpoint::Registered { factory }) => assert_eq!(factory, 9),
        other => panic!("{other:?}"),
    }
}

#[test]
fn pictures_decoded_outside_are_counted() {
    let mut k = phone();
    k.note_android_decoded_frame();
    assert_eq!(k.receive_status().decoded_video, 0, "nothing is received yet");
    k.note_receive_link("main", "s");
    k.note_receive_link("side", "t");
    assert!(k.can_count_decoded(""));
    k.note_android_decoded_frame();
    k.note_android_decoded_frame_on("");
    k.note_android_decoded_frame_on("side");
    assert_eq!(k.receive_status().decoded_video, 2);
    assert!(k.receive_status().running);
    assert_eq!(k.receive_status_of("side").decoded_video, 1);
}

#[test]
fn the_relay_is_a_way_round() {
    let mut k = phone();
    assert!(k.local_proxy().is_none());
    k.complete_relay(18777, None, None, "pico", relay());
    assert_eq!(k.local_proxy().unwrap().ws_base, "ws://127.0.0.1:18777");
}

#[test]
fn announcements_follow_the_wish_to_be_found() {
    let mut k = phone();
    assert!(matches!(k.set_discoverable(true), MdnsAction::Nothing));
    assert!(k.discoverable());
    k.set_identity(DeviceIdentity {
        device_id: "0123456789abcdef".to_string(),
        device_name: "手机".to_string(),
    });
    match k.complete_relay(18777, None, None, "pico", relay()).1 {
        MdnsAction::Start { instance, hostname, port, info } => {
            assert_eq!(instance, "stross-01234567-18777");
            assert_eq!(hostname, "pico");
            assert_eq!(port, 18777);
            assert_eq!(info.roles, vec![RoleId::Sender, RoleId::Viewer, RoleId::Relay]);
        }
        _ => panic!("the relay is to be announced"),
    }
    k.note_announced(true);
    assert!(matches!(k.apply_discoverable(), MdnsAction::Refresh { .. }));
    assert!(matches!(k.set_discoverable(false), MdnsAction::Stop));
    assert_eq!(k.mdns_info("pico").name, "pico");
    k.register_local_node("pico");
    assert_eq!(k.nodes().len(), 1);
    assert_eq!(k.node_identity().unwrap().device_name, "手机");
}

#[test]
fn answers_of_a_relay_are_noted() {
    let mut d = parse_base("http://192.168.1.9:18777").expect("an address");
    assert!(!d.online);
    note_answers(&mut d, None, None);
    assert!(!d.online);
    note_answers(
        &mut d,
        Some(RelayPortsInfo { srt_port: Some(9000), quic_port: None }),
        Some(vec![]),
    );
    assert!(d.online);
    assert_eq!(d.srt_port, Some(9000));
    assert_eq!(d.quic_port, None);
    let other = parse_base("http://192.168.1.8:18777").expect("an address");
    let sorted = sort_devices(vec![d, other]);
    assert_eq!(sorted.len(), 2);
    assert!(sorted[0].name <= sorted[1].name);
}

#[test]
fn what_is_read_live_is_counted() {
    let mut a = RealtimePacing::new(ChannelKind::Lossy);
    a.push(Frame::with_seq(TRACK_VIDEO, CODEC_H264, FLAG_KEYFRAME, 0, 0, vec![1]), 1000);
    assert_eq!(a.poll(1000).len(), 1);
    let (video, audio) = a.jitter_stats();
    assert_eq!(video.received, 1);
    assert_eq!(video.emitted, 1);
    assert_eq!(audio.received, 0);
}

#[test]
fn an_unknown_endpoint_is_not_found() {
    let r = no_such_endpoint();
    assert_eq!(r.status, 404);
    match r.body {
        ReplyBody::Error(e) => assert_eq!(e.error, "端点不存在或已取消公开"),
        ReplyBody::Grant(_) => panic!("nothing is granted"),
    }
}

#[test]
fn session_numbers_start_over_after_the_last_one() {
    let mut k = phone();
    k.control.next_id = u64::MAX;
    let first = k
        .control
        .issue_share_token_for("t".to_string(), vec![MediaKind::Mic], None, NOW)
        .expect("a token");
    assert_eq!(first.stream_id, "sess-ffffffffffffffff");
    assert_eq!(first.expires_at, NOW + 600);
    let second = k
        .control
        .issue_share_token_for("t".to_string(), vec![MediaKind::Mic], Some(5), NOW)
        .expect("a token");
    assert_eq!(second.stream_id, "sess-0");
    assert_eq!(second.expires_at, NOW + 5);
}
