use stross_kernel::error::Error;
use stross_kernel::kernel::endpoint::mounts::{EndpointRegistry, FileMeta, FileOffer, SeedEndpoint};
use stross_kernel::message::{
    CodecId, Delivery, EndpointClass, EndpointId, EndpointRef, EndpointState, EndpointStrategy,
    MediaKind, PickRule, ReliabilityProfile, TargetKind, TransportId, Visibility,
};

const NOW: u64 = 1_700_000_000;

fn screen_probed(probe: Result<(), String>) -> SeedEndpoint {
    SeedEndpoint {
        id: EndpointId::new(MediaKind::Screen, 0),
        name: "屏幕".to_string(),
        target: TargetKind::Live,
        transport_profile: ReliabilityProfile::Lossy,
        strategy: EndpointStrategy::passthrough(PickRule::Realtime),
        probe,
    }
}

fn screen() -> SeedEndpoint {
    screen_probed(Ok(()))
}

fn mic() -> SeedEndpoint {
    SeedEndpoint {
        id: EndpointId::new(MediaKind::Mic, 0),
        name: "录音".to_string(),
        target: TargetKind::Live,
        transport_profile: ReliabilityProfile::Lossy,
        strategy: EndpointStrategy::passthrough(PickRule::Realtime),
        probe: Ok(()),
    }
}

fn ref_of(kind: MediaKind, id: u32) -> EndpointRef {
    EndpointRef::new("", EndpointId::new(kind, id))
}

fn named(text: &str) -> EndpointRef {
    EndpointRef::new("", EndpointId::parse(text).unwrap())
}

fn transports_of(target: TargetKind) -> Vec<TransportId> {
    EndpointRegistry::default_transports(target)
        .iter()
        .map(|t| t.transport)
        .collect()
}

fn message(e: Error) -> String {
    match e {
        Error::Message(t) => t,
        other => panic!("unexpected error {other:?}"),
    }
}

fn note_file(size: u64) -> FileOffer {
    FileOffer {
        path: "/tmp/stross-reg/备注.txt".to_string(),
        file_name: Some("备注.txt".to_string()),
        meta: Ok(FileMeta { is_file: true, size }),
        probe: Ok(()),
    }
}

fn seeding(r: &mut EndpointRegistry, r2: &mut EndpointRegistry, key: &EndpointRef) {
    assert!(r.seed(screen(), NOW));
    let m = r.manifest(key).unwrap();
    assert!(m.available);
    assert!(m.last_error.is_none());
    assert!(!m.published, "not announced yet");
    let reason = "无图形会话（DISPLAY / WAYLAND_DISPLAY 均未设置）";
    assert!(r2.seed(screen_probed(Err(reason.to_string())), NOW));
    let m2 = r2.manifest(key).unwrap();
    assert!(!m2.available);
    assert_eq!(m2.last_error.as_deref(), Some(reason));
    let refused = r2.publish(key, Visibility::Public, Delivery::Pull, vec![], vec![], NOW);
    assert!(refused.is_err());
}

#[test]
fn mod_seed_loads_and_marks_availability() {
    let mut r = EndpointRegistry::new();
    let mut r2 = EndpointRegistry::new();
    seeding(&mut r, &mut r2, &ref_of(MediaKind::Screen, 0));
}

#[test]
fn endpoint_seed_loads_and_marks_availability() {
    let mut r = EndpointRegistry::new();
    let mut r2 = EndpointRegistry::new();
    seeding(&mut r, &mut r2, &named("screen:0"));
}

fn announcing(key: &EndpointRef, unknown: &EndpointRef) {
    let mut r = EndpointRegistry::new();
    assert!(r.seed(screen(), NOW));
    assert!(!r.seed(screen(), NOW), "a second registration changes nothing");

    let m = r
        .publish(
            key,
            Visibility::Public,
            Delivery::Pull,
            EndpointRegistry::default_transports(TargetKind::Live),
            vec![CodecId::H264],
            NOW,
        )
        .unwrap();
    assert_eq!(m.endpoint_id, 0);
    assert_eq!(m.kind, MediaKind::Screen);
    assert_eq!(EndpointId::new(m.kind, m.endpoint_id).to_text(), "screen:0");
    assert!(m.published);
    assert_eq!(m.state, EndpointState::Idle);
    assert_eq!(m.subscribers, 0);
    assert_eq!(m.transports[0].transport, TransportId::Quic);
    assert_eq!(m.transport_profile, ReliabilityProfile::Lossy);
    assert_eq!(m.pick_rule, PickRule::Realtime);

    assert!(r
        .publish(key, Visibility::Public, Delivery::Pull, vec![], vec![], NOW)
        .is_err());
    assert!(r
        .publish(unknown, Visibility::Public, Delivery::Pull, vec![], vec![], NOW)
        .is_err());

    assert!(r.set_state(key, EndpointState::Active, 2, NOW));
    let m = r.manifest(key).unwrap();
    assert_eq!(m.state, EndpointState::Active);
    assert_eq!(m.subscribers, 2);
    assert!(!r.set_state(unknown, EndpointState::Active, 0, NOW));

    assert!(r.summaries().iter().any(|e| e.published && e.available));

    assert!(r.unpublish(key, NOW).is_ok());
    assert!(r.unpublish(key, NOW).is_err());
    assert!(!r.manifest(key).unwrap().published);
    assert!(r
        .publish(key, Visibility::Public, Delivery::Pull, vec![], vec![], NOW)
        .is_ok());
}

#[test]
fn mod_publish_one_to_one_state_and_unpublish() {
    announcing(&ref_of(MediaKind::Screen, 0), &ref_of(MediaKind::Service, 99));
}

#[test]
fn endpoint_publish_one_to_one_state_and_unpublish() {
    announcing(&named("screen:0"), &named("service:99"));
}

#[test]
fn mod_default_transports_by_target() {
    assert_eq!(
        transports_of(TargetKind::Live),
        vec![TransportId::Quic, TransportId::Srt, TransportId::Ws]
    );
    assert_eq!(
        transports_of(TargetKind::Determined),
        vec![TransportId::Quic, TransportId::Ws]
    );
}

#[test]
fn endpoint_default_transports_by_target() {
    assert_eq!(
        transports_of(TargetKind::Live),
        vec![TransportId::Quic, TransportId::Srt, TransportId::Ws]
    );
    assert_eq!(
        transports_of(TargetKind::Determined),
        vec![TransportId::Quic, TransportId::Ws]
    );
}

#[test]
fn mod_publish_file_registers_source_and_unpublish_clears() {
    let size = b"hello stross".len() as u64;
    let mut r = EndpointRegistry::new();
    let m = r
        .publish_file(&note_file(size), Visibility::Public, Delivery::Pull, "", NOW)
        .expect("a readable file can be shared");
    assert_eq!(m.kind, MediaKind::File);
    assert_eq!(m.name, "备注.txt");
    assert_eq!(m.endpoint_id, 0);
    assert!(m.available);
    assert_eq!(m.transports.len(), 2);
    assert_eq!(m.transports[0].transport, TransportId::Quic);
    assert_eq!(m.transport_profile, ReliabilityProfile::Lossless);
    assert_eq!(m.pick_rule, PickRule::StrictOrdered);
    let key = ref_of(m.kind, m.endpoint_id);
    let src = r.file_source(&key).expect("the file is known");
    assert_eq!(src.name, "备注.txt");
    assert_eq!(src.size, size);
    let m2 = r
        .publish_file(&note_file(size), Visibility::Public, Delivery::Pull, "", NOW)
        .unwrap();
    assert_ne!(m.endpoint_id, m2.endpoint_id);
    assert_eq!(m2.endpoint_id, 1);
    assert!(r.summaries().iter().any(|e| e.kind == MediaKind::File));
    r.unpublish(&key, NOW).unwrap();
    assert!(r.file_source(&key).is_none());
    assert!(!r.manifest(&key).unwrap().published);
    r.unpublish(&ref_of(m2.kind, m2.endpoint_id), NOW).unwrap();
}

fn subscribing(key: &EndpointRef, unknown: &EndpointRef) {
    let mut fired = 0;
    let mut r = EndpointRegistry::new();
    r.seed(mic(), NOW);
    r.publish(key, Visibility::Confirm, Delivery::Push, vec![], vec![], NOW)
        .unwrap();
    if r.on_subscribed(key) {
        fired += 1;
    }
    assert_eq!(fired, 1);
    if r.on_subscribed(unknown) {
        fired += 1;
    }
    assert_eq!(fired, 1);
}

#[test]
fn mod_on_subscribed_calls_endpoint_share_outside_lock() {
    subscribing(&ref_of(MediaKind::Mic, 0), &ref_of(MediaKind::Service, 99));
}

#[test]
fn endpoint_on_subscribed_calls_endpoint_share_outside_lock() {
    subscribing(&named("mic:0"), &named("service:99"));
}

#[test]
fn refusals_name_the_endpoint() {
    let mut r = EndpointRegistry::new();
    let key = EndpointRef::new("node-pc", EndpointId::new(MediaKind::Screen, 0));
    let gone = r.publish(&key, Visibility::Public, Delivery::Pull, vec![], vec![], NOW);
    assert_eq!(message(gone.unwrap_err()), "端点不存在: screen:0");
    assert_eq!(message(r.unpublish(&key, NOW).unwrap_err()), "端点不存在: screen:0");
    r.seed_with_owner(screen_probed(Err("no display".to_string())), "node-pc", NOW);
    let broken = r.publish(&key, Visibility::Public, Delivery::Pull, vec![], vec![], NOW);
    assert_eq!(
        message(broken.unwrap_err()),
        "端点不可挂载（no display）: screen:0"
    );
    assert_eq!(message(r.unpublish(&key, NOW).unwrap_err()), "端点未通告: screen:0");

    let mut ok = EndpointRegistry::new();
    ok.seed_with_owner(screen(), "node-pc", NOW);
    ok.publish(&key, Visibility::Public, Delivery::Pull, vec![], vec![], NOW).unwrap();
    let again = ok.publish(&key, Visibility::Public, Delivery::Pull, vec![], vec![], NOW);
    assert_eq!(message(again.unwrap_err()), "端点已通告: screen:0");
}

#[test]
fn only_readable_files_are_shared() {
    let mut r = EndpointRegistry::new();
    let mut gone = note_file(1);
    gone.meta = Err("No such file".to_string());
    let e = r.publish_file(&gone, Visibility::Public, Delivery::Pull, "", NOW);
    assert_eq!(
        message(e.unwrap_err()),
        "文件不可读 /tmp/stross-reg/备注.txt: No such file"
    );
    let mut dir = note_file(1);
    dir.meta = Ok(FileMeta { is_file: false, size: 4096 });
    let e = r.publish_file(&dir, Visibility::Public, Delivery::Pull, "", NOW);
    assert_eq!(message(e.unwrap_err()), "不是普通文件: /tmp/stross-reg/备注.txt");
    assert!(r.manifests().is_empty());
    assert_eq!(r.free_file_id(""), Some(0));
}

#[test]
fn subscribers_are_counted_once_each() {
    let mut r = EndpointRegistry::new();
    r.seed(mic(), NOW);
    let key = ref_of(MediaKind::Mic, 0);
    r.note_subscriber(&key, "phone", NOW + 1);
    r.note_subscriber(&key, "tablet", NOW + 2);
    r.note_subscriber(&key, "phone", NOW + 3);
    let m = r.manifest(&key).unwrap();
    assert_eq!(m.subscribers, 2);
    assert_eq!(m.updated_at, NOW + 3);
    let mut nodes = r.subscriber_nodes(&key).unwrap();
    nodes.sort();
    assert_eq!(nodes, vec!["phone", "tablet"]);
    assert_eq!(r.note_unsubscriber(&key, "phone", NOW + 4), 1);
    assert_eq!(r.note_unsubscriber(&key, "tablet", NOW + 5), 0);
    assert_eq!(r.manifest(&key).unwrap().subscribers, 0);
    assert_eq!(r.note_unsubscriber(&ref_of(MediaKind::File, 7), "phone", NOW), 0);
}

#[test]
fn listings_follow_kind_and_number() {
    let mut r = EndpointRegistry::new();
    r.publish_file(&note_file(1), Visibility::Public, Delivery::Pull, "", NOW).unwrap();
    r.seed(mic(), NOW);
    r.seed(screen(), NOW);
    r.publish_file(&note_file(2), Visibility::Public, Delivery::Pull, "", NOW).unwrap();
    let order: Vec<(MediaKind, u32)> = r.manifests().iter().map(|m| (m.kind, m.endpoint_id)).collect();
    assert_eq!(
        order,
        vec![
            (MediaKind::Screen, 0),
            (MediaKind::Mic, 0),
            (MediaKind::File, 0),
            (MediaKind::File, 1)
        ]
    );
    let announced: Vec<MediaKind> = r.published_manifests().iter().map(|m| m.kind).collect();
    assert_eq!(announced, vec![MediaKind::File, MediaKind::File]);
    assert!(r.manifests_of(Some("node-pc")).is_empty());
}

#[test]
fn endpoints_have_one_name_each() {
    for kind in [
        MediaKind::Screen,
        MediaKind::Window,
        MediaKind::Camera,
        MediaKind::Mic,
        MediaKind::SystemAudio,
        MediaKind::File,
        MediaKind::Clipboard,
        MediaKind::Input,
        MediaKind::Service,
    ] {
        let id = EndpointId::new(kind, 4_294_967_295);
        assert_eq!(EndpointId::parse(id.to_text().as_str()), Some(id));
    }
    assert_eq!(EndpointId::new(MediaKind::SystemAudio, 12).to_text(), "systemAudio:12");
    assert_eq!(EndpointId::parse("screen"), None);
    assert_eq!(EndpointId::parse("screen:x"), None);
    assert_eq!(EndpointId::parse("screen:4294967296"), None);
    assert_eq!(EndpointId::parse("nope:0"), None);
}

#[test]
fn kinds_belong_to_families() {
    assert_eq!(EndpointClass::from_kind(MediaKind::Screen), EndpointClass::Graph);
    assert_eq!(EndpointClass::from_kind(MediaKind::Camera), EndpointClass::Graph);
    assert_eq!(EndpointClass::from_kind(MediaKind::SystemAudio), EndpointClass::Audio);
    assert_eq!(EndpointClass::from_kind(MediaKind::File), EndpointClass::File);
}

#[test]
fn a_withdrawn_endpoint_has_no_subscribers() {
    let mut r = EndpointRegistry::new();
    r.seed(mic(), NOW);
    let key = ref_of(MediaKind::Mic, 0);
    let publish = |r: &mut EndpointRegistry| {
        r.publish(&key, Visibility::Public, Delivery::Pull, vec![], vec![], NOW).map(|_| ())
    };
    publish(&mut r).unwrap();
    r.note_subscriber(&key, "phone", NOW);
    r.unpublish(&key, NOW).unwrap();
    assert_eq!(r.manifest(&key).unwrap().subscribers, 0);
    assert_eq!(r.subscriber_nodes(&key), Some(vec![]));
    assert!(r.file_source(&key).is_none());
    assert!(r.unpublish(&key, NOW).is_err());
    publish(&mut r).unwrap();
    assert!(r.manifest(&key).unwrap().published);
}
