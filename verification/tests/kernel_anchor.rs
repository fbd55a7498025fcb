use stross_kernel::kernel::anchor::relay_mdns_instance;

#[test]
fn relay_mdns_instance_unique_per_node_same_port() {
    let a = relay_mdns_instance(Some("0123456789abcdef0123456789abcdef"), 8777);
    let b = relay_mdns_instance(Some("fedcba9876543210fedcba9876543210"), 8777);
    assert_ne!(a, b, "two devices with one port have different names");
    assert!(
        a.starts_with("stross-01234567-8777"),
        "the name begins with the device: {a}"
    );
}

#[test]
fn relay_mdns_instance_same_node_stable() {
    let id = "deadbeefcafe0123deadbeefcafe0123";
    assert_eq!(
        relay_mdns_instance(Some(id), 8777),
        relay_mdns_instance(Some(id), 8777)
    );
    assert_ne!(
        relay_mdns_instance(Some(id), 8777),
        relay_mdns_instance(Some(id), 33462)
    );
}

#[test]
fn relay_mdns_instance_fallback_without_identity() {
    assert_eq!(relay_mdns_instance(None, 8777), "sender-8777");
    assert_eq!(relay_mdns_instance(Some(""), 8777), "sender-8777");
}

#[test]
fn short_ids_give_different_names_at_one_port() {
    assert_eq!(relay_mdns_instance(Some("a"), 8777), "stross-a-8777");
    assert_ne!(relay_mdns_instance(Some("a"), 8777), relay_mdns_instance(Some("a-"), 8777));
    assert_ne!(relay_mdns_instance(Some("a"), 8777), relay_mdns_instance(Some("b"), 8777));
}
