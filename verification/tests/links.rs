use fwos::ip::IpAddr;
use fwos::json::{encode, parse};
use fwos::links::{
    add_addr, addr_cidr, addr_dev, capture_ipv4, find_root_qdisc, has_live_address, iface_cidrs, list_ethernet,
    live_address, remove_route, require_in_fwd, root_qdisc, run_ip, same_root, traffic_nic_names, wheel_gid,
    wireguard_listen_port, Link, RootQdisc,
};

const ADDRESSES: &str = "\
1: lo    inet 127.0.0.1/8 scope host lo
2: enp1s0    inet 192.168.1.1/24 brd 192.168.1.255 scope global enp1s0
2: enp1s0    inet6 fe80::1/64 scope link
3: enp1s0.10@enp1s0    inet 10.0.0.1/8 scope global enp1s0.10
2: enp1s0    inet 192.168.1.1/24 scope global enp1s0
4: bare";

fn owned(words: &[&str]) -> Vec<String> {
    words.iter().map(|w| w.to_string()).collect()
}

#[test]
fn address_lines_are_read() {
    assert_eq!(addr_dev("3: enp1s0.10@enp1s0    inet 10.0.0.1/8"), "enp1s0.10");
    assert_eq!(addr_dev("3:"), "");
    assert_eq!(addr_cidr("2: enp1s0    inet6 fe80::1/64 scope link"), Some("fe80::1/64".into()));
    assert_eq!(addr_cidr("2: enp1s0    inet"), None);
    assert_eq!(addr_cidr("4: bare"), None);
    assert_eq!(
        iface_cidrs(ADDRESSES),
        owned(&["127.0.0.1/8", "192.168.1.1/24", "fe80::1/64", "10.0.0.1/8"])
    );
    assert_eq!(
        list_ethernet(&owned(&["enp2s0", "enp1s0"]), ADDRESSES),
        vec![
            ("enp2s0".to_string(), Vec::new()),
            ("enp1s0".to_string(), owned(&["192.168.1.1/24", "fe80::1/64"])),
        ]
    );
}

#[test]
fn ipv4_addresses_are_captured_with_their_gateway() {
    let shown = "2: enp1s0    inet 192.168.1.1/24 brd 192.168.1.255\n2: enp1s0    inet6 fe80::1/64";
    let route = "default via 192.168.1.254 dev enp1s0";
    assert_eq!(
        capture_ipv4("enp1s0", shown, route),
        (owned(&["192.168.1.1/24"]), Some("192.168.1.254".into()))
    );
    assert_eq!(capture_ipv4("enp2s0", shown, route).1, None);
    assert_eq!(capture_ipv4("enp1s0", "", "default dev enp1s0"), (Vec::new(), None));
}

#[test]
fn traffic_nics_are_real_ethernet() {
    let link = |name: &str, framing: &str, kind: Option<&str>| Link {
        ifname: name.into(),
        link_type: framing.into(),
        info_kind: kind.map(String::from),
    };
    let links = vec![
        link("lo", "loopback", None),
        link("enp1s0", "ether", None),
        link("f0mgmt", "ether", Some("veth")),
        link("enp2s0", "ether", None),
    ];
    assert_eq!(traffic_nic_names(&links), owned(&["enp1s0", "enp2s0"]));
}

const LIVE: &[u8] = br#"[{"addr_info":[{"local":"192.168.1.1","prefixlen":24},{"local":"fd00:0::1","prefixlen":64}]},{}]"#;

#[test]
fn live_addresses_are_found_in_any_notation() {
    assert_eq!(live_address("enp1s0", "192.168.1.1/24", LIVE), Ok(true));
    assert_eq!(live_address("enp1s0", "192.168.1.1/25", LIVE), Ok(false));
    assert_eq!(live_address("enp1s0", "fd00::1/64", LIVE), Ok(true));
    assert_eq!(live_address("enp1s0", "fd00::1/64", b"{}"), Ok(false));
    for bad in ["192.168.1.1", "x/24", "192.168.1.1/256"] {
        assert_eq!(
            live_address("enp1s0", bad, LIVE),
            Err("invalid address prefix on enp1s0".into())
        );
    }
    let e = live_address("enp1s0", "10.0.0.1/8", b"[").unwrap_err();
    assert!(e.starts_with("decode addresses on enp1s0: EOF while parsing"));
    assert!(has_live_address(&parse(LIVE).unwrap(), IpAddr::V4(0xc0a80101), 24));
}

#[test]
fn the_root_queue_is_found() {
    let shown = br#"[{"kind":"x"},{"kind":"fq_codel","root":true,"options":{"limit":10240}},{"kind":"fq","root":true}]"#;
    let found = root_qdisc("enp1s0", shown).unwrap().unwrap();
    assert_eq!(found.kind, "fq_codel");
    assert_eq!(encode(&found.options), r#"{"limit":10240}"#);
    let same = root_qdisc("enp1s0", shown).unwrap();
    assert!(same_root(&Some(found), &same));
    let other = root_qdisc("enp1s0", br#"[{"kind":"fq_codel","root":true,"options":{"limit":1}}]"#).unwrap();
    assert!(!same_root(&same, &other));
    assert!(!same_root(&same, &None) && same_root(&None, &None));
    let low = root_qdisc("enp1s0", br#"[{"kind":"red","root":true,"options":{"probability":0.0}}]"#).unwrap();
    let negative = root_qdisc("enp1s0", br#"[{"kind":"red","root":true,"options":{"probability":-0.0}}]"#).unwrap();
    assert!(same_root(&low, &negative));
    assert!(find_root_qdisc(&parse(br#"[{"root":true},{"kind":"fq","root":true}]"#).unwrap()).is_none());
    assert!(find_root_qdisc(&parse(b"{}").unwrap()).is_none());
    let e = root_qdisc("enp1s0", b"").unwrap_err();
    assert!(e.starts_with("decode qdisc on enp1s0: EOF"));
    let absent: Option<RootQdisc> = root_qdisc("enp1s0", b"[]").unwrap();
    assert!(absent.is_none());
}

#[test]
fn small_values_are_read() {
    assert_eq!(wireguard_listen_port("51820\n"), Some(51820));
    assert_eq!(wireguard_listen_port("65536"), None);
    assert_eq!(wireguard_listen_port(""), None);
    assert_eq!(wheel_gid("root:x:0:\nwheel:x:998:alice\n"), Some(998));
    assert_eq!(wheel_gid("root:x:0:\n"), None);
    assert_eq!(wheel_gid("wheel:x\n"), None);
}

#[test]
fn outcomes_of_ip_are_told() {
    let args = owned(&["link", "set", "x", "up"]);
    assert_eq!(run_ip(&args, true, "noise"), Ok(()));
    assert_eq!(
        run_ip(&args, false, " Cannot find device \n"),
        Err("ip link set x up failed: Cannot find device".into())
    );
    assert_eq!(add_addr("x", "10.0.0.1/8", false, "RTNETLINK answers: File exists"), Ok(()));
    assert_eq!(add_addr("x", "10.0.0.1/8", false, "Error: ipv4: Address already assigned."), Ok(()));
    assert_eq!(add_addr("x", "10.0.0.1/8", true, ""), Ok(()));
    assert_eq!(
        add_addr("x", "10.0.0.1/8", false, "no\n"),
        Err("ip addr add 10.0.0.1/8 dev x failed: no".into())
    );
    assert_eq!(remove_route(Ok(())), Ok(()));
    assert_eq!(remove_route(Err("RTNETLINK answers: No such process".into())), Ok(()));
    assert_eq!(remove_route(Err("denied".into())), Err("denied".into()));
    assert_eq!(require_in_fwd("x", true), Ok(()));
    assert_eq!(
        require_in_fwd("x", false),
        Err("Traffic NIC x is missing from fwd; Network startup preparation is incomplete".into())
    );
}
