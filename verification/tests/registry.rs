use stross_kernel::kernel::endpoint::manifest::{EndpointDir, EndpointManifest, EndpointNode};
use stross_kernel::kernel::endpoint::mounts::{EndpointRegistry, SeedEndpoint};
use stross_kernel::kernel::endpoint::registry::UnifiedRegistry;
use stross_kernel::kernel::endpoint::subscribe_generate::{
    SubscribeEndpoint, SubscribeEndpointFactory,
};
use stross_kernel::message::{
    CodecId, Delivery, EndpointClass, EndpointId, EndpointState, EndpointStrategy, MediaKind,
    PickRule, ReliabilityProfile, SerializeRule, SubscribeSpec, TargetKind, Visibility,
};

const NOW: u64 = 1_700_000_000;

fn screen() -> SeedEndpoint {
    SeedEndpoint {
        id: EndpointId::new(MediaKind::Screen, 0),
        name: "屏幕".to_string(),
        target: TargetKind::Live,
        transport_profile: ReliabilityProfile::Lossy,
        strategy: EndpointStrategy::passthrough(PickRule::Realtime),
        probe: Ok(()),
    }
}

fn local_file() -> SeedEndpoint {
    SeedEndpoint {
        id: EndpointId::new(MediaKind::File, 0),
        name: "本地.txt".to_string(),
        target: TargetKind::Determined,
        transport_profile: ReliabilityProfile::Lossless,
        strategy: EndpointStrategy::passthrough(PickRule::StrictOrdered),
        probe: Err("No such file".to_string()),
    }
}

fn remote_dir(node_id: &str, name: &str) -> EndpointDir {
    EndpointDir {
        node: EndpointNode {
            node_id: node_id.to_string(),
            node_name: name.to_string(),
        },
        endpoints: vec![
            EndpointManifest {
                endpoint_id: 0,
                kind: MediaKind::Screen,
                name: "屏幕".to_string(),
                available: true,
                last_error: None,
                published: true,
                visibility: Visibility::Public,
                delivery: Delivery::Pull,
                transports: EndpointRegistry::default_transports(TargetKind::Live),
                transport_profile: ReliabilityProfile::Lossy,
                pick_rule: PickRule::Realtime,
                strategies: vec![EndpointStrategy::passthrough(PickRule::Realtime)],
                codecs: vec![CodecId::H264],
                state: EndpointState::Idle,
                subscribers: 0,
                updated_at: NOW,
            },
            EndpointManifest {
                endpoint_id: 0,
                kind: MediaKind::File,
                name: "notes.txt".to_string(),
                available: true,
                last_error: None,
                published: true,
                visibility: Visibility::Public,
                delivery: Delivery::Pull,
                transports: EndpointRegistry::default_transports(TargetKind::Determined),
                transport_profile: ReliabilityProfile::Lossless,
                pick_rule: PickRule::StrictOrdered,
                strategies: vec![EndpointStrategy::passthrough(PickRule::StrictOrdered)],
                codecs: vec![],
                state: EndpointState::Idle,
                subscribers: 0,
                updated_at: NOW,
            },
        ],
    }
}

fn spec(kind: MediaKind, strategy_id: Option<&str>, strategy: EndpointStrategy, stream: &str) -> SubscribeSpec {
    SubscribeSpec {
        node_id: "node-phone".to_string(),
        kind,
        endpoint_id: 0,
        strategy_id: strategy_id.map(str::to_string),
        strategy,
        delivery: Delivery::Pull,
        stream_id: stream.to_string(),
        relay_url: Some("ws://192.168.1.5:18777".to_string()),
    }
}

fn kind_of(ep: &SubscribeEndpoint) -> MediaKind {
    match ep {
        SubscribeEndpoint::File { id, .. } => id.kind,
        SubscribeEndpoint::Media { kind, .. } => *kind,
        SubscribeEndpoint::Registered { .. } => unreachable!(),
    }
}

fn three_layers(screen_id: EndpointId, file_id: EndpointId, unknown: EndpointId) {
    let mut reg = UnifiedRegistry::new();
    reg.set_self_node("node-pc", "电脑");
    assert!(reg.seed(screen(), NOW));
    assert!(reg.seed(local_file(), NOW));

    let s = reg.resolve_strategy("node-pc", screen_id, None).expect("the local screen");
    assert_eq!(s.strategy_id, "default");
    assert_eq!(s.pick, PickRule::Realtime);
    assert_eq!(s.serialize, SerializeRule::Passthrough);
    let fs = reg
        .resolve_strategy("node-pc", file_id, Some("default"))
        .expect("the local file");
    assert_eq!(fs.pick, PickRule::StrictOrdered);
    assert!(reg.resolve_strategy("node-pc", unknown, None).is_none());

    reg.register_remote_directory(&remote_dir("node-phone", "手机A"), "192.168.1.5:18779");
    let s = reg
        .resolve_strategy("node-phone", screen_id, None)
        .expect("the screen of the phone");
    assert_eq!(s.pick, PickRule::Realtime);
    let f = reg
        .resolve_strategy("node-phone", file_id, Some("default"))
        .expect("the file of the phone");
    assert_eq!(f.pick, PickRule::StrictOrdered);
    assert!(reg.resolve_strategy("node-phone", screen_id, Some("nope")).is_none());

    let self_ids: Vec<EndpointId> = reg.node_endpoints("node-pc").iter().map(|e| e.id).collect();
    assert_eq!(self_ids.len(), 2);
    assert_eq!(reg.node_endpoints("node-phone").len(), 2);
    assert!(
        reg.entry_of("node-phone", reg.node_endpoints("node-phone")[0].id).is_some(),
        "the endpoints of the phone belong to it"
    );

    let nodes = reg.node_registrations();
    assert_eq!(nodes.len(), 2);
    let self_node = nodes.iter().find(|n| n.is_self).expect("this node is listed");
    assert_eq!(self_node.node_id, "node-pc");
    assert!(self_node.endpoints.contains(&screen_id));
    let phone = nodes.iter().find(|n| n.node_id == "node-phone").expect("the phone is listed");
    assert!(!phone.is_self);
    assert_eq!(phone.endpoints.len(), 2);

    let ep = reg
        .generate_subscribe_endpoint(
            &spec(MediaKind::File, Some("default"), f, "sess-1"),
            Some("/tmp/stross-recv"),
            "/tmp",
        )
        .expect("files can be received");
    assert_eq!(kind_of(&ep), MediaKind::File);
    assert_eq!(EndpointClass::from_kind(kind_of(&ep)), EndpointClass::File);
    let media_ep = reg
        .generate_subscribe_endpoint(&spec(MediaKind::Screen, None, s, "sess-2"), None, "/tmp")
        .expect("screens can be received");
    assert_eq!(kind_of(&media_ep), MediaKind::Screen);
    assert_eq!(EndpointClass::from_kind(kind_of(&media_ep)), EndpointClass::Graph);
}

#[test]
fn registry_unified_registry_three_layer_lookup() {
    three_layers(
        EndpointId::new(MediaKind::Screen, 0),
        EndpointId::new(MediaKind::File, 0),
        EndpointId::new(MediaKind::Service, 99),
    );
}

#[test]
fn endpoint_unified_registry_three_layer_lookup() {
    three_layers(
        EndpointId::parse("screen:0").unwrap(),
        EndpointId::parse("file:0").unwrap(),
        EndpointId::parse("service:99").unwrap(),
    );
}

fn derived_default(id: EndpointId) {
    let mut reg = UnifiedRegistry::new();
    reg.set_self_node("node-pc", "电脑");
    let mut dir = remote_dir("node-old", "旧对端");
    dir.endpoints[0].strategies = vec![];
    dir.endpoints[0].pick_rule = PickRule::Realtime;
    reg.register_remote_directory(&dir, "192.168.1.9:18779");
    let s = reg.resolve_strategy("node-old", id, None).expect("a strategy is derived");
    assert_eq!(s.strategy_id, "default");
    assert_eq!(s.pick, PickRule::Realtime);
    assert_eq!(s.serialize, SerializeRule::Passthrough);
}

#[test]
fn registry_unified_registry_remote_without_strategies_derives_default() {
    derived_default(EndpointId::new(MediaKind::Screen, 0));
}

#[test]
fn endpoint_unified_registry_remote_without_strategies_derives_default() {
    derived_default(EndpointId::parse("screen:0").unwrap());
}

#[test]
fn endpoints_follow_a_late_identity() {
    let mut reg = UnifiedRegistry::new();
    assert!(reg.seed(screen(), NOW));
    assert_eq!(reg.self_node_id(), "");
    reg.set_self_node("node-pc", "电脑");
    assert!(reg.has_endpoint(EndpointId::new(MediaKind::Screen, 0)));
    assert_eq!(reg.node_endpoints("node-pc").len(), 1);
    assert!(reg.is_self_node("node-pc"));
    assert!(reg.is_self_node("local"));
    assert!(!reg.is_self_node("node-phone"));
}

#[test]
fn a_newer_directory_replaces_the_older_one() {
    let mut reg = UnifiedRegistry::new();
    reg.set_self_node("node-pc", "电脑");
    reg.register_remote_directory(&remote_dir("node-phone", "手机A"), "192.168.1.5:18779");
    let mut smaller = remote_dir("node-phone", "手机B");
    smaller.endpoints.pop();
    smaller.endpoints[0].strategies[0].strategy_id = "newer".to_string();
    let file = EndpointId::new(MediaKind::File, 0);
    let screen = EndpointId::new(MediaKind::Screen, 0);
    assert!(reg.resolve_strategy("node-phone", file, None).is_some());
    reg.register_remote_directory(&smaller, "192.168.1.6:18779");
    assert!(reg.resolve_strategy("node-phone", file, None).is_none());
    let s = reg.resolve_strategy("node-phone", screen, None).unwrap();
    assert_eq!(s.strategy_id, "newer");
    assert_eq!(reg.node_endpoints("node-phone").len(), 1);
    let nodes = reg.node_registrations();
    let phone = nodes.iter().find(|n| n.node_id == "node-phone").unwrap();
    assert_eq!(phone.name, "手机B");
    assert_eq!(phone.addr, "192.168.1.6:18779");
    assert!(!phone.endpoints.contains(&EndpointId::new(MediaKind::File, 0)));
}

#[test]
fn registered_builders_take_precedence() {
    let mut reg = UnifiedRegistry::new();
    let s = || EndpointStrategy::passthrough(PickRule::Realtime);
    let input = spec(MediaKind::Input, None, s(), "sess-3");
    assert!(reg.generate_subscribe_endpoint(&input, None, "/tmp").is_none());
    reg.register_subscribe_factory(EndpointClass::Input, SubscribeEndpointFactory::Registered(7));
    match reg.generate_subscribe_endpoint(&input, None, "/tmp") {
        Some(SubscribeEndpoint::Registered { factory }) => assert_eq!(factory, 7),
        other => panic!("unexpected {other:?}"),
    }
    let file = spec(MediaKind::File, None, s(), "sess-4");
    match reg.generate_subscribe_endpoint(&file, None, "/tmp") {
        Some(SubscribeEndpoint::File { out_dir, name, .. }) => {
            assert_eq!(out_dir, "/tmp");
            assert_eq!(name, "file");
        }
        other => panic!("unexpected {other:?}"),
    }
}

#[test]
fn an_identity_is_taken_once() {
    let mut reg = UnifiedRegistry::new();
    assert!(reg.seed(screen(), NOW));
    reg.register_remote_directory(&remote_dir("node-phone", "手机A"), "192.168.1.5:18779");
    reg.set_self_node("node-pc", "电脑");
    reg.set_self_node("node-pc", "电脑");
    assert_eq!(reg.self_node_id(), "node-pc");
    assert_eq!(reg.node_endpoints("node-pc").len(), 1);
    assert_eq!(reg.node_endpoints("node-phone").len(), 2);
}
