use fluxsyncd::config::{hostname_or, runs_mdns, DaemonConfig, NameCandidate};
use fluxsyncd::discovery::{
    advert_of, host_name, is_valid_hex_id, resolve_service, service_properties, DiscoveryEvent,
    ServiceRecord, DISCOVERY_RETRY, SERVICE_TYPE,
};
use fluxsyncd::net::{IpAddr, SocketAddr};

#[test]
fn fs037_hex_id_validation() {
    assert!(is_valid_hex_id(&"a".repeat(64)));
    assert!(is_valid_hex_id(&"0123456789abcdef".repeat(4)));
    assert!(!is_valid_hex_id("garbage"));
    assert!(!is_valid_hex_id(""));
    assert!(!is_valid_hex_id(&"a".repeat(63)));
    assert!(!is_valid_hex_id(&format!("{}g", "a".repeat(63))));
    assert!(!is_valid_hex_id(&" ".repeat(64)));
}

#[test]
fn upper_case_ids_are_valid() {
    assert!(is_valid_hex_id(&"AF".repeat(32)));
    assert!(!is_valid_hex_id(&"\u{e9}".repeat(32)));
}

fn record() -> ServiceRecord {
    ServiceRecord {
        peer_id: Some("ab".repeat(32)),
        static_pub: Some("cd".repeat(32)),
        pair_pin: Some("123456".to_string()),
        ip: Some(IpAddr::V4(0xC0A8_012A)),
        port: 4242,
        fullname: "Galaxy S21._fluxsync._udp.local.".to_string(),
    }
}

#[test]
fn announcement_of_another_device_is_understood() {
    match resolve_service(&"ff".repeat(32), record()) {
        Some(DiscoveryEvent::Resolved { peer_id_hex, static_pub_hex, name, addr, pair_pin }) => {
            assert_eq!(peer_id_hex, "ab".repeat(32));
            assert_eq!(static_pub_hex, "cd".repeat(32));
            assert_eq!(name, "Galaxy S21");
            assert_eq!(addr, SocketAddr::new(IpAddr::V4(0xC0A8_012A), 4242));
            assert_eq!(pair_pin, Some("123456".to_string()));
        }
        other => panic!("{other:?}"),
    }
}

#[test]
fn announcements_that_lack_something_are_ignored() {
    assert!(resolve_service(&"ab".repeat(32), record()).is_none(), "its own");
    let own = "ff".repeat(32);
    assert!(resolve_service(&own, ServiceRecord { peer_id: None, ..record() }).is_none());
    assert!(resolve_service(&own, ServiceRecord { static_pub: None, ..record() }).is_none());
    assert!(resolve_service(&own, ServiceRecord { ip: None, ..record() }).is_none());
    let bad = Some("zz".repeat(32));
    assert!(resolve_service(&own, ServiceRecord { peer_id: bad.clone(), ..record() }).is_none());
    assert!(resolve_service(&own, ServiceRecord { static_pub: bad, ..record() }).is_none());
    for pin in ["12345", "1234567", "12345a", ""] {
        let r = ServiceRecord { pair_pin: Some(pin.to_string()), ..record() };
        assert!(matches!(
            resolve_service(&own, r),
            Some(DiscoveryEvent::Resolved { pair_pin: None, .. })
        ));
    }
}

#[test]
fn own_announcement_has_its_properties() {
    let p = service_properties("id", "key", &Some("654321".to_string()));
    let pairs: Vec<(&str, &str)> = p.iter().map(|x| (x.key.as_str(), x.value.as_str())).collect();
    assert_eq!(pairs, vec![("peer_id", "id"), ("static_pub", "key"), ("pair_pin", "654321")]);
    assert_eq!(service_properties("id", "key", &None).len(), 2);
    assert_eq!(host_name("box"), "box.local.");
    assert_eq!(SERVICE_TYPE, "_fluxsync._udp.local.");
    assert_eq!(DISCOVERY_RETRY, 2_000);
    let addr = SocketAddr::new(IpAddr::V4(1), 2);
    let a = advert_of("i".to_string(), "k".to_string(), "n".to_string(), addr, None);
    assert_eq!(a.addrs, vec![addr]);
}

fn candidate(name: &str, is_ip: bool) -> NameCandidate {
    NameCandidate { name: name.to_string(), is_ip }
}

#[test]
fn first_usable_name_is_taken() {
    let names = vec![candidate("", false), candidate("192.168.1.4", true), candidate("box", false)];
    assert_eq!(hostname_or(&names, "this device"), "box");
    assert_eq!(hostname_or(&Vec::new(), "this device"), "this device");
}

#[test]
fn usual_setup() {
    let c = DaemonConfig::new(7, "/run/x".to_string(), &vec![candidate("box", false)]);
    assert_eq!(c.peer_name_self, "box");
    assert_eq!(c.udp_bind, "0.0.0.0");
    assert!(c.lan_only_handshakes && c.charge_override && !c.disable_mdns && !c.start_on);
    assert!(c.keystore_dir.is_none() && c.test_pair.is_none());
    assert!(runs_mdns(false, false) && !runs_mdns(true, false) && !runs_mdns(false, true));
}
