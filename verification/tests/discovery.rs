use stross_kernel::discovery::addr::{ipv4_same_subnet, IpAddr, Ipv4, Ipv6};
use stross_kernel::discovery::aggregate::{
    add_typed, device_at, discovery_url, finish_scan, host_probe_ms, merge_found, needs_host_scan,
    parse_base, scan_hosts, scan_probe_ms, scan_subnets, to_views, trim_slashes, Answers, Found,
    RelayPortsInfo, ScannedDevice, StreamInfo, DISCOVERY_PORT, SCAN_CONCURRENCY,
};
use stross_kernel::discovery::info::{
    DiscoveryInfo, DiscoveryResp, RoleId, DISCOVERY_INFO_VERSION,
};
use stross_kernel::discovery::mdns::{
    broadcast_addrs, select_reachable_ip_from, Browse, BrowseEvent, Discovery,
};
use stross_kernel::message::{MediaKind, TransportId};

fn v4(text: &str) -> Ipv4 {
    let p: Vec<u8> = text.split('.').map(|n| n.parse().unwrap()).collect();
    Ipv4::new(p[0], p[1], p[2], p[3])
}

fn groups(text: &str) -> Vec<u128> {
    text.split(':')
        .filter(|g| !g.is_empty())
        .map(|g| u128::from_str_radix(g, 16).unwrap())
        .collect()
}

fn v6(text: &str) -> Ipv6 {
    let (head, tail) = text.split_once("::").unwrap();
    let (head, tail) = (groups(head), groups(tail));
    let zeros = vec![0u128; 8 - head.len() - tail.len()];
    let all = [head, zeros, tail].concat();
    Ipv6 { bits: all.iter().fold(0u128, |bits, g| (bits << 16) | g) }
}

fn addr(text: &str) -> IpAddr {
    if text.contains(':') {
        IpAddr::V6(v6(text))
    } else {
        IpAddr::V4(v4(text))
    }
}

fn ips(texts: &[&str]) -> Vec<IpAddr> {
    texts.iter().map(|t| addr(t)).collect()
}

fn texts(list: &[&str]) -> Vec<String> {
    list.iter().map(|t| t.to_string()).collect()
}

fn info(name: &str) -> DiscoveryInfo {
    DiscoveryInfo {
        v: DISCOVERY_INFO_VERSION,
        name: name.to_string(),
        roles: vec![RoleId::Sender],
        media: vec![MediaKind::Screen],
        transports: vec![TransportId::Ws],
        codecs: vec![],
        endpoints: vec![],
    }
}

fn found(instance: &str, ip: &str, port: u16) -> Found {
    Found {
        instance: instance.to_string(),
        ip: addr(ip),
        ip_text: ip.to_string(),
        port,
        info: Some(info("电脑")),
    }
}

fn silent(n: usize) -> Vec<Answers> {
    (0..n).map(|_| Answers { ports: None, streams: None }).collect()
}

fn scanned(found: Vec<Found>, self_ips: &[&str]) -> Vec<ScannedDevice> {
    let candidates = merge_found(found, &texts(self_ips));
    let n = candidates.len();
    finish_scan(candidates, silent(n))
}

fn no_stream() -> StreamInfo {
    StreamInfo {
        stream_id: "s1".to_string(),
        title: "t".to_string(),
        video: None,
        audio: None,
        started_at: 1,
        watchers: 2,
    }
}

#[test]
fn aggregate_scan_empty_never_panics() {
    assert!(scanned(vec![], &[]).is_empty());
}

#[test]
fn devices_scan_empty_never_panics() {
    assert!(scanned(vec![], &[]).is_empty());
}

#[test]
fn aggregate_scan_dedupes_by_instance_preferring_ipv4() {
    let out = scanned(
        vec![found("pc-1", "192.168.11.61", 18777), found("pc-1", "fe80::1", 18777)],
        &["192.168.11.61"],
    );
    assert_eq!(out.len(), 1);
    assert_eq!(out[0].ip, "192.168.11.61");
    assert!(out[0].is_self);
}

#[test]
fn devices_scan_dedupes_by_instance_preferring_ipv4() {
    let out = scanned(
        vec![found("pc-1", "192.168.11.61", 18777), found("pc-1", "fe80::1", 18777)],
        &["192.168.11.61"],
    );
    assert_eq!(out.len(), 1);
    assert_eq!(out[0].ip, "192.168.11.61");
    assert!(out[0].is_self);
}

#[test]
fn aggregate_stream_info_maps_to_view() {
    let v = to_views(&vec![no_stream()]);
    assert_eq!(v[0].watchers, 2);
    assert!(!v[0].video);
}

#[test]
fn devices_stream_info_maps_to_view() {
    let v = to_views(&vec![no_stream()]);
    assert_eq!(v[0].watchers, 2);
    assert!(!v[0].video);
}

#[test]
fn scan_subnets_dedups_and_filters_unroutable() {
    let out = scan_subnets(&ips(&[
        "192.168.11.61",
        "192.168.11.60",
        "10.159.157.104",
        "198.18.0.5",
        "169.254.3.4",
        "127.0.0.1",
        "fe80::1",
    ]));
    assert_eq!(out, vec![Ipv4::new(10, 159, 157, 0), Ipv4::new(192, 168, 11, 0)]);
}

#[test]
fn scan_hosts_enumerates_24_net_single_subnet() {
    let out = scan_hosts(&ips(&["192.168.11.61"]));
    assert_eq!(out.len(), 254);
    assert_eq!(out[0], Ipv4::new(192, 168, 11, 1));
    assert_eq!(out[253], Ipv4::new(192, 168, 11, 254));
    assert!(!out.contains(&Ipv4::new(192, 168, 11, 0)));
}

#[test]
fn scan_hosts_dedups_across_subnets() {
    assert_eq!(scan_hosts(&ips(&["192.168.11.61", "192.168.11.2"])).len(), 254);
}

#[test]
fn scan_hosts_empty_when_no_usable_public_ipv4() {
    assert!(scan_hosts(&ips(&["127.0.0.1", "198.18.0.5", "fe80::1"])).is_empty());
}

#[test]
fn broadcast_all_ips_when_multiple() {
    let all = ips(&["192.168.1.10", "10.0.0.5"]);
    assert_eq!(broadcast_addrs(&all), all);
}

#[test]
fn broadcast_single_ip_passthrough() {
    let all = ips(&["192.168.1.10"]);
    assert_eq!(broadcast_addrs(&all), all);
}

#[test]
fn broadcast_empty_falls_back_to_loopback() {
    assert_eq!(broadcast_addrs(&vec![]), ips(&["127.0.0.1"]));
}

#[test]
fn broadcast_filters_link_local() {
    let all = ips(&[
        "192.168.1.10",
        "169.254.3.4",
        "fe80::835:6e70:4ba6:eb01",
        "240e:3a8:4c9f:2401:abcd::1",
    ]);
    assert_eq!(
        broadcast_addrs(&all),
        ips(&["192.168.1.10", "240e:3a8:4c9f:2401:abcd::1"])
    );
}

#[test]
fn broadcast_all_fe80_falls_back_to_original() {
    let all = ips(&["fe80::1"]);
    assert_eq!(broadcast_addrs(&all), all);
}

#[test]
fn same_subnet_matches_third_octet() {
    assert!(ipv4_same_subnet(v4("192.168.2.32"), v4("192.168.2.6")));
    assert!(!ipv4_same_subnet(v4("192.168.2.32"), v4("10.159.157.104")));
    assert!(!ipv4_same_subnet(v4("192.168.2.32"), v4("192.168.3.1")));
}

#[test]
fn select_prefers_same_subnet_over_other_v4() {
    let candidates = ips(&["10.159.157.104", "172.30.242.158", "192.168.2.6"]);
    assert_eq!(
        select_reachable_ip_from(&ips(&["192.168.2.32"]), &candidates),
        Some(addr("192.168.2.6"))
    );
}

#[test]
fn select_multihomed_prefers_first_subnet_match() {
    let candidates = ips(&["192.168.2.6", "10.159.157.104"]);
    assert_eq!(
        select_reachable_ip_from(&ips(&["192.168.2.32", "10.159.157.104"]), &candidates),
        Some(addr("192.168.2.6"))
    );
}

#[test]
fn select_falls_back_to_first_v4_when_no_same_subnet() {
    let candidates = ips(&["10.0.0.5", "fe80::1"]);
    assert_eq!(
        select_reachable_ip_from(&ips(&["10.0.0.99"]), &candidates),
        Some(addr("10.0.0.5"))
    );
}

#[test]
fn select_accepts_v6_only_fallback() {
    let candidates = ips(&["fd00::1"]);
    assert_eq!(
        select_reachable_ip_from(&ips(&["192.168.1.1"]), &candidates),
        Some(addr("fd00::1"))
    );
}

#[test]
fn nothing_to_select_from() {
    assert_eq!(select_reachable_ip_from(&ips(&["192.168.1.1"]), &vec![]), None);
}

#[test]
fn addresses_as_text() {
    assert_eq!(Ipv4::new(192, 168, 0, 9).to_text(), "192.168.0.9");
    assert!(addr("169.254.0.1").is_link_local());
    assert!(addr("febf::1").is_link_local());
    assert!(!addr("fec0::1").is_link_local());
    assert!(addr("0.0.0.0").is_unspecified());
    assert!(addr("::").is_unspecified());
}

#[test]
fn services_are_gathered_by_name() {
    let mut b = Browse::new();
    let txt = vec![("name".to_string(), "电脑".to_string())];
    b.on_event(BrowseEvent::Resolved {
        fullname: "pc-1._stross._tcp.local.".to_string(),
        port: 18777,
        txt: vec![],
        addrs: ips(&["10.159.157.104"]),
    });
    b.on_event(BrowseEvent::Other);
    b.on_event(BrowseEvent::Resolved {
        fullname: "pc-1._stross._tcp.local.".to_string(),
        port: 18777,
        txt: txt.clone(),
        addrs: ips(&["192.168.2.6"]),
    });
    b.on_event(BrowseEvent::Resolved {
        fullname: "gone._stross._tcp.local.".to_string(),
        port: 1,
        txt: vec![],
        addrs: ips(&["192.168.2.7"]),
    });
    b.on_event(BrowseEvent::Removed("gone._stross._tcp.local.".to_string()));
    let out = b.finish(&ips(&["192.168.2.32"]));
    assert_eq!(out.len(), 1);
    assert_eq!(out[0].ip, addr("192.168.2.6"));
    assert_eq!(out[0].port, 18777);
    assert_eq!(out[0].txt, txt);
}

#[test]
fn a_service_is_announced_until_it_stops() {
    let (mut d, record) = Discovery::start("pc-1", &ips(&["192.168.2.6", "fe80::1"]), 18777, "pico");
    assert_eq!(record.instance, "pc-1");
    assert_eq!(record.port, 18777);
    assert_eq!(record.addrs, ips(&["192.168.2.6"]));
    let again = d.redefine().expect("a running service can be described anew");
    assert_eq!(again.fullname, record.fullname);
    assert_eq!(d.stop(), Some(record.fullname));
    assert_eq!(d.stop(), None);
    assert!(d.redefine().is_none());
}

#[test]
fn answers_are_noted_at_their_device() {
    let candidates = merge_found(
        vec![found("b", "192.168.11.7", 18777), found("a", "192.168.11.8", 18777)],
        &texts(&["192.168.11.61"]),
    );
    let answers = candidates
        .iter()
        .map(|c| {
            if c.probe_ip == "192.168.11.8" {
                Answers {
                    ports: Some(RelayPortsInfo { srt_port: Some(18780), quic_port: None }),
                    streams: Some(vec![no_stream()]),
                }
            } else {
                Answers { ports: None, streams: None }
            }
        })
        .collect();
    let out = finish_scan(candidates, answers);
    assert_eq!(out.len(), 2);
    assert!(!out[0].online && out[0].streams.is_empty());
    assert_eq!(out[1].ip, "192.168.11.8");
    assert!(out[1].online);
    assert_eq!(out[1].srt_port, Some(18780));
    assert_eq!(out[1].streams.len(), 1);
}

#[test]
fn probing_takes_bounded_time() {
    assert_eq!(scan_probe_ms(5), 100);
    assert_eq!(scan_probe_ms(900), 900);
    assert_eq!(host_probe_ms(5), 5);
    assert_eq!(host_probe_ms(900), 300);
    assert_eq!(SCAN_CONCURRENCY, 64);
    assert_eq!(discovery_url("192.168.11.7"), format!("http://192.168.11.7:{DISCOVERY_PORT}/api/discovery"));
}

#[test]
fn hosts_are_probed_when_nobody_else_was_found() {
    assert!(needs_host_scan(&vec![]));
    let own = scanned(vec![found("pc-1", "192.168.11.61", 18777)], &["192.168.11.61"]);
    assert!(needs_host_scan(&own));
    let other = scanned(vec![found("pc-1", "192.168.11.7", 18777)], &["192.168.11.61"]);
    assert!(!needs_host_scan(&other));
}

#[test]
fn an_answering_host_is_a_device() {
    let resp = DiscoveryResp {
        node_id: "node-pc".to_string(),
        name: "电脑".to_string(),
        relay_port: 18777,
        srt_port: Some(18780),
        quic_port: None,
        roles: vec![RoleId::Relay],
        media: vec![MediaKind::Screen],
        transports: vec![TransportId::Ws],
        endpoints: vec![],
    };
    let d = device_at("192.168.11.7", &texts(&["192.168.11.7"]), resp);
    assert_eq!(d.name, "电脑");
    assert_eq!((d.ip.as_str(), d.port), ("192.168.11.7", 18777));
    assert!(d.is_self && !d.online);
    assert_eq!(d.srt_port, Some(18780));
}

#[test]
fn typed_addresses_are_added_once() {
    assert_eq!(trim_slashes("http://a:1///"), "http://a:1");
    let d = parse_base("http://192.168.11.7:18777").expect("an address with a port");
    assert_eq!((d.ip.as_str(), d.port), ("192.168.11.7", 18777));
    assert!(parse_base("192.168.11.7").is_none());
    assert!(parse_base("http://192.168.11.7:port").is_none());
    let typed = vec![
        parse_base("http://192.168.11.7:18777").unwrap(),
        parse_base("http://192.168.11.7:18777").unwrap(),
        parse_base("http://192.168.11.8:18777").unwrap(),
    ];
    let devices = scanned(vec![found("pc-1", "192.168.11.8", 18777)], &[]);
    let all = add_typed(devices, typed);
    assert_eq!(all.len(), 2);
}

#[test]
fn this_node_is_listed_first_and_the_others_by_name() {
    let mut a = found("a", "192.168.11.7", 18777);
    let mut b = found("b", "192.168.11.8", 18777);
    a.info = Some(info("beta"));
    b.info = Some(info("alpha"));
    let mut own = found("c", "192.168.11.61", 18777);
    own.info = Some(info("zeta"));
    let out = scanned(vec![a, b, own], &["192.168.11.61"]);
    let names: Vec<&str> = out.iter().map(|d| d.name.as_str()).collect();
    assert_eq!(names, vec!["zeta", "alpha", "beta"]);
}

#[test]
fn this_machine_is_told_by_the_settled_address() {
    let out = scanned(
        vec![found("pc-1", "2001:db8::1", 18777), found("pc-1", "192.168.11.61", 18777)],
        &["192.168.11.61"],
    );
    assert_eq!(out.len(), 1);
    assert_eq!(out[0].ip, "192.168.11.61");
    assert!(out[0].is_self);
}
