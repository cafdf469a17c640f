use fwos::desired::{DesiredState, Iface, Qdisc, StaticRoute, Wg};
use fwos::json::parse;
use fwos::lan::{
    desired_addresses, kea_dhcp6_conf, lan_host_cidr, merge_lan_prefix_addr, pd_lan_addr, pd_pool, pd_subnet64,
    service_prefix, set_lan_services_ready, wait_lan_services, Look, Observed,
};
use fwos::opt::{
    apply_opt, lock_unopted, opt_allowed, parse_opt, recover_incomplete_bootstrap, refresh_bootstrap_exposure,
    suspend_opt, teardown_opt, Exposed, FirstBootOpt,
};
use fwos::startup::{
    claim_traffic_nic, ensure_netns, make_pair, move_link, set_up_netns, setup_outcome, setup_plumbing, with_netns,
    PlumbStep, Space, LOCK_SCRIPT,
};
use fwos::steps::{
    apply, program_lan_services, program_qdiscs, program_routes, program_vlans, program_wg,
    remove_lan_service_configs, remove_stale_routes, wants_capture, Step, KEA4_CONF, KEA6_CONF, UNBOUND_CONF,
};

fn iface(name: &str, role: &str, addresses: &[&str]) -> Iface {
    Iface {
        name: name.into(),
        placement: String::new(),
        role: Some(role.into()),
        addresses: addresses.iter().map(|a| a.to_string()).collect(),
        vlan: None,
        parent: None,
        dhcp: false,
    }
}

fn state() -> DesiredState {
    DesiredState {
        interfaces: vec![iface("enp1s0", "lan", &[]), iface("enp2s0", "wan", &["192.0.2.1/24"])],
        ui_exposure: vec!["enp1s0".into()],
        ..DesiredState::default()
    }
}

fn route(to: &str, via: &str, dev: Option<&str>) -> StaticRoute {
    StaticRoute {
        to: to.into(),
        via: via.into(),
        dev: dev.map(String::from),
    }
}

/// Writes a step as one line.
fn line(step: &Step) -> String {
    match step {
        Step::RequireLink(n) => format!("require {n}"),
        Step::Ip(a) => format!("ip {}", a.join(" ")),
        Step::IpUnlessLink(n, a) => format!("unless {n}: ip {}", a.join(" ")),
        Step::IpIfLink(n, a) => format!("if {n}: ip {}", a.join(" ")),
        Step::RemoveRoute(a) => format!("remove ip {}", a.join(" ")),
        Step::AddAddress(d, c) => format!("address {c} on {d}"),
        Step::Wg(a, i) => format!("wg {} < {i}", a.join(" ")),
        Step::Tc(a) => format!("tc {}", a.join(" ")),
        Step::MakeDir(p, l) => format!("mkdir {p} ({l})"),
        Step::Write(p, l, _) => format!("write {p} ({l})"),
        Step::Remove(p) => format!("remove {p}"),
        Step::Sysctl(n, f, k, v) => format!("sysctl {n} {f} {k} {v}"),
        Step::LockIfPresent(n) => format!("lock {n}"),
        Step::LockTrafficNics => "lock nics".into(),
        Step::ApplyOpt => "apply opt".into(),
        Step::StopDhcp => "stop dhcp".into(),
        Step::Dhcp(n) => format!("dhcp {n}"),
        Step::Publish(n, w) => format!("publish {n} {w}"),
        Step::SuspendOpt => "suspend opt".into(),
        Step::DiscardOpt => "discard opt".into(),
        Step::Nft(s) => format!("nft {}", s.lines().next().unwrap_or("")),
        Step::Fail(e) => format!("fail {e}"),
    }
}

fn lines(steps: &[Step]) -> Vec<String> {
    steps.iter().map(line).collect()
}

#[test]
fn the_lan_gets_its_address() {
    let mut s = state();
    s.lan_prefix = Some("192.168.7.0/24".into());
    assert_eq!(service_prefix(&s).as_deref(), Some("192.168.7.0/24"));
    merge_lan_prefix_addr(&mut s);
    merge_lan_prefix_addr(&mut s);
    assert_eq!(s.interfaces[0].addresses, ["192.168.7.1/24"]);
    assert_eq!(s.interfaces[1].addresses, ["192.0.2.1/24"]);
    let mut s = state();
    s.interfaces[0].addresses = vec!["192.168.7.1/16".into()];
    s.dhcp_pool = Some("192.168.7.100 - 192.168.7.200".into());
    assert_eq!(service_prefix(&s).as_deref(), Some("192.168.7.0/24"));
    merge_lan_prefix_addr(&mut s);
    assert_eq!(s.interfaces[0].addresses, ["192.168.7.1/16"]);
    assert_eq!(lan_host_cidr("10.0.0.9/8").as_deref(), Some("10.0.0.9/8"));
    assert_eq!(lan_host_cidr("10.0.0.0").as_deref(), Some("10.0.0.1/24"));
    assert_eq!(lan_host_cidr("fd00::/64"), None);
    let mut s = state();
    merge_lan_prefix_addr(&mut s);
    assert!(s.interfaces[0].addresses.is_empty());
}

#[test]
fn addresses_of_a_state_are_listed() {
    let mut s = state();
    s.wireguard.push(tunnel("wg0", None));
    s.wan_pd = Some("2001:db8:1::/48".into());
    assert_eq!(
        desired_addresses(&s),
        [
            ("enp2s0".to_string(), "192.0.2.1/24".to_string()),
            ("wg0".to_string(), "10.9.0.1/24".to_string()),
            ("enp1s0".to_string(), "2001:db8:1::1/64".to_string()),
        ]
    );
    assert_eq!(pd_lan_addr("2001:db8:1::/48").as_deref(), Some("2001:db8:1::1/64"));
    assert_eq!(pd_subnet64("2001:db8:1::/48").as_deref(), Some("2001:db8:1::/64"));
    assert_eq!(pd_pool("2001:db8:1::/48"), Some(("2001:db8:1::100".into(), "2001:db8:1::1ff".into())));
    assert_eq!(pd_pool("192.0.2.0/24"), None);
    assert_eq!(pd_subnet64("2001:db8::/65"), None);
    assert!(kea_dhcp6_conf("enp1s0", "2001:db8:1::/64", "a", "b").contains("{ \"pool\": \"a - b\" }"));
}

#[test]
fn the_services_are_ready_when_the_marker_says_so() {
    let wanted = || Some("g".to_string());
    let marker = |g: &str| Observed::Marker(g.into());
    assert_eq!(set_lan_services_ready(wanted(), Ok(()), marker("g")), Ok(wanted()));
    assert_eq!(set_lan_services_ready(wanted(), Err("sync".into()), marker("g")), Ok(wanted()));
    assert_eq!(set_lan_services_ready(None, Err("sync".into()), Observed::NoMarker), Ok(None));
    assert_eq!(set_lan_services_ready(wanted(), Err("sync".into()), marker("old")), Err("sync".into()));
    assert_eq!(
        set_lan_services_ready(None, Ok(()), marker("old")),
        Err("LAN service readiness did not reach requested state".into())
    );
    assert_eq!(
        set_lan_services_ready(None, Ok(()), Observed::Unreadable("io".into())),
        Err("inspect LAN service readiness: io".into())
    );
    assert_eq!(wait_lan_services(Look::Missing, "g", false), None);
    assert_eq!(wait_lan_services(Look::Found("old ok".into()), "g", false), None);
    assert_eq!(wait_lan_services(Look::Found("g ok\n".into()), "g", true), Some(Ok(())));
    assert_eq!(
        wait_lan_services(Look::Found("g kea".into()), "g", false),
        Some(Err("Host LAN service reconciliation failed: kea".into()))
    );
    assert_eq!(
        wait_lan_services(Look::Unreadable("io".into()), "g", false),
        Some(Err("read Host LAN service result: io".into()))
    );
}

fn tunnel(name: &str, port: Option<u16>) -> Wg {
    Wg {
        name: name.into(),
        private_key: "k".into(),
        listen_port: port,
        addresses: vec!["10.9.0.1/24".into()],
    }
}

#[test]
fn links_routes_and_queues_are_programmed() {
    let mut s = state();
    s.interfaces.push(Iface { vlan: Some(10), ..iface("enp1s0.10", "lan", &["10.1.0.1/24"]) });
    s.interfaces.push(Iface { vlan: Some(7), parent: Some("enp2s0".into()), ..iface("guest", "lan", &[]) });
    assert_eq!(
        lines(&program_vlans(&s)),
        [
            "unless enp1s0.10: ip link add link enp1s0 name enp1s0.10 type vlan id 10",
            "ip link set enp1s0.10 up",
            "address 10.1.0.1/24 on enp1s0.10",
            "unless guest: ip link add link enp2s0 name guest type vlan id 7",
            "ip link set guest up",
        ]
    );
    s.wireguard = vec![tunnel("wg0", Some(51820)), tunnel("wg1", None)];
    assert_eq!(
        lines(&program_wg(&s)),
        [
            "unless wg0: ip link add wg0 type wireguard",
            "wg set wg0 private-key /dev/stdin listen-port 51820 < k",
            "ip link set wg0 up",
            "address 10.9.0.1/24 on wg0",
            "unless wg1: ip link add wg1 type wireguard",
            "wg set wg1 private-key /dev/stdin < k",
            "ip link set wg1 up",
            "address 10.9.0.1/24 on wg1",
        ]
    );
    s.routes = vec![
        route("10.0.0.0/8", "192.0.2.2", None),
        route("fd00::/8", "fe80::2", Some("enp2s0")),
    ];
    assert_eq!(
        lines(&program_routes(&s)),
        [
            "ip -4 route replace 10.0.0.0/8 via 192.0.2.2",
            "ip -6 route replace fd00::/8 via fe80::2 dev enp2s0",
        ]
    );
    let mut next = state();
    next.routes = vec![route("10.0.0.0/8", "192.0.2.9", None)];
    assert_eq!(
        lines(&remove_stale_routes(&s, &next)),
        ["remove ip -6 route del fd00::/8 via fe80::2 dev enp2s0"]
    );
    s.qdiscs = vec![Qdisc { dev: "enp2s0".into(), kind: "cake".into() }];
    assert_eq!(lines(&program_qdiscs(&s)), ["tc qdisc replace dev enp2s0 root cake"]);
}

#[test]
fn lan_services_are_programmed() {
    let gone = ["remove /var/lib/fwos/kea/kea-dhcp4.conf", "remove /var/lib/fwos/kea/kea-dhcp6.conf", "remove /var/lib/fwos/unbound/unbound.conf"];
    assert_eq!(lines(&remove_lan_service_configs()), gone);
    let mut s = state();
    assert_eq!(lines(&program_lan_services(&s, true)), gone);
    assert!(program_lan_services(&s, false).is_empty());
    s.lan_prefix = Some("192.168.7.0/24".into());
    assert_eq!(lines(&program_lan_services(&s, false)), ["address 192.168.7.1/24 on enp1s0"]);
    s.dhcp_pool = Some("192.168.7.100-192.168.7.200".into());
    s.wan_pd = Some("2001:db8:1::/48".into());
    let steps = program_lan_services(&s, true);
    assert_eq!(
        lines(&steps),
        [
            "address 192.168.7.1/24 on enp1s0",
            "address 2001:db8:1::1/64 on enp1s0",
            "mkdir /var/lib/fwos/kea (kea)",
            "mkdir /var/lib/fwos/unbound (unbound)",
            "write /var/lib/fwos/kea/kea-dhcp4.conf (kea-dhcp4)",
            "write /var/lib/fwos/kea/kea-dhcp6.conf (kea-dhcp6)",
            "write /var/lib/fwos/unbound/unbound.conf (unbound)",
        ]
    );
    for (step, text) in [
        (4, "\"pools\": [ { \"pool\": \"192.168.7.100 - 192.168.7.200\" } ]"),
        (5, "\"subnet\": \"2001:db8:1::/64\""),
        (6, "access-control: 192.168.7.0/24 allow\n"),
    ] {
        match &steps[step] {
            Step::Write(path, _, written) => {
                assert_eq!(path, [KEA4_CONF, KEA6_CONF, UNBOUND_CONF][step - 4]);
                assert!(written.contains(text));
            }
            _ => panic!("expected a file"),
        }
    }
    s.lan_prefix = Some("fd00::/64".into());
    assert_eq!(lines(&program_lan_services(&s, true)), ["fail lan_prefix has no v4 host"]);
}

#[test]
fn a_state_is_applied_in_order() {
    let mut s = state();
    s.interfaces.push(Iface { vlan: Some(10), ..iface("enp1s0.10", "lan", &[]) });
    assert!(wants_capture(&s, "enp1s0"));
    assert!(!wants_capture(&s, "enp2s0"));
    assert!(!wants_capture(&s, "enp1s0.10"));
    let found = vec![Some(vec!["192.168.1.9/24".to_string()]), None, None];
    let steps = apply(&mut s, &found, true, false).unwrap();
    assert_eq!(s.interfaces[0].addresses, ["192.168.1.9/24"]);
    let told = lines(&steps);
    assert_eq!(told[0], "discard opt");
    assert_eq!(
        told[1..6],
        [
            "require enp1s0",
            "ip link set enp1s0 up",
            "address 192.168.1.9/24 on enp1s0",
            "address 192.168.1.9/24 on enp1s0",
            "require enp2s0",
        ]
    );
    assert_eq!(told.last().map(String::as_str), Some("nft flush ruleset"));
    match steps.last() {
        Some(Step::Nft(rules)) => assert!(!rules.contains("    drop\n")),
        _ => panic!("expected the rules last"),
    }
    let mut s = state();
    let steps = apply(&mut s, &vec![None, None], false, true).unwrap();
    assert_eq!(line(&steps[0]), "suspend opt");
    assert!(matches!(steps.last(), Some(Step::Nft(rules)) if rules.contains("policy drop;\n    drop\n")));
    let mut bad = DesiredState::default();
    assert_eq!(apply(&mut bad, &Vec::new(), true, false).unwrap_err(), "need at least one WAN");
}

fn choice(nic: &str, mode: &str, cidr: Option<&str>) -> FirstBootOpt {
    FirstBootOpt {
        nic: nic.into(),
        mode: mode.into(),
        cidr: cidr.map(String::from),
    }
}

#[test]
fn a_choice_is_put_in_place() {
    let nics = vec!["enp1s0".to_string(), "enp2s0".to_string()];
    assert_eq!(
        lines(&apply_opt(&choice("enp1s0", "static", Some("10.0.0.1/8")), &None, &nics)),
        ["require enp1s0", "ip link set enp1s0 up", "address 10.0.0.1/8 on enp1s0", "publish enp1s0 false"]
    );
    assert_eq!(
        lines(&apply_opt(&choice("enp1s0", "slaac", None), &Some(choice("enp1s0", "slaac", None)), &nics)),
        [
            "require enp1s0",
            "ip link set enp1s0 up",
            "sysctl enp1s0 ipv6 accept_ra 2",
            "sysctl enp1s0 ipv6 autoconf 1",
            "publish enp1s0 true",
        ]
    );
    let told = lines(&apply_opt(&choice("enp1s0", "dhcp", None), &Some(choice("enp2s0", "slaac", None)), &nics));
    assert_eq!(told[..3], ["stop dhcp", "sysctl enp2s0 ipv6 accept_ra 0", "sysctl enp2s0 ipv6 autoconf 0"]);
    assert_eq!(told[told.len() - 2..], ["dhcp enp1s0", "publish enp1s0 false"]);
    assert_eq!(
        lines(&apply_opt(&choice("lo", "dhcp", None), &None, &nics)),
        ["fail lo is not a Traffic NIC"]
    );
    let third = |o: FirstBootOpt| lines(&apply_opt(&o, &None, &nics))[2].clone();
    assert_eq!(third(choice("enp1s0", "static", None)), "fail static opt needs a cidr");
    assert_eq!(third(choice("enp1s0", "magic", None)), "fail unknown opt mode magic");
}

#[test]
fn a_choice_is_taken_back() {
    assert_eq!(
        lines(&lock_unopted("x")),
        [
            "sysctl x ipv6 accept_ra 0",
            "sysctl x ipv6 autoconf 0",
            "sysctl x ipv4 rp_filter 2",
            "ip addr flush dev x",
        ]
    );
    let told = lines(&teardown_opt(&choice("x", "static", None)));
    assert_eq!(told, ["stop dhcp", "lock x", "nft destroy table ip fwos-first-boot"]);
    assert_eq!(lines(&suspend_opt(&None, false)), ["nft destroy table inet fwos-first-boot"]);
    let told = lines(&suspend_opt(&Some(choice("x", "static", None)), true));
    assert_eq!(
        told[told.len() - 2..],
        ["nft destroy table inet fwos-first-boot", "remove /var/lib/fwos/first-boot-opt.json"]
    );
    assert_eq!(opt_allowed(false), Ok(()));
    assert_eq!(opt_allowed(true), Err("already bootstrapped".into()));
}

#[test]
fn choices_are_read() {
    let read = |raw: &str| parse_opt(&parse(raw.as_bytes()).unwrap());
    assert_eq!(read(r#"{"mode":"dhcp"}"#).unwrap_err(), "missing nic");
    assert_eq!(read(r#"{"nic":"x","mode":"y"}"#).unwrap_err(), "mode must be static, dhcp, or slaac");
    assert_eq!(read(r#"{"nic":"x","mode":"static","cidr":" "}"#).unwrap_err(), "static opt needs a cidr");
    let o = read(r#"{"nic":" x ","mode":"static","cidr":" 10.0.0.1/8 "}"#).unwrap();
    assert_eq!((o.nic.as_str(), o.mode.as_str(), o.cidr.as_deref()), ("x", "static", Some("10.0.0.1/8")));
    assert!(read(r#"{"nic":"x","mode":"dhcp","cidr":""}"#).unwrap().cidr.is_none());
}

#[test]
fn exposure_follows_the_addresses() {
    let seen = |addresses: &[&str]| {
        Some(("x".to_string(), addresses.iter().map(|a| a.to_string()).collect::<Vec<String>>()))
    };
    let mut observed = None;
    assert!(refresh_bootstrap_exposure(&mut observed, false, seen(&["10.0.0.2/8", "10.0.0.1/8"])));
    assert_eq!(observed.as_ref().map(|e| e.addresses.join(" ")), Some("10.0.0.1 10.0.0.2".into()));
    assert!(!refresh_bootstrap_exposure(
        &mut observed,
        false,
        seen(&["10.0.0.1/8", "8.8.8.8/8", "fe80::1/64", "10.0.0.2/8"])
    ));
    assert!(refresh_bootstrap_exposure(&mut observed, false, seen(&["10.0.0.1/8"])));
    assert!(!refresh_bootstrap_exposure(&mut observed, false, None));
    assert!(observed.is_none());
    observed = Some(Exposed { nic: "x".into(), addresses: Vec::new() });
    assert!(!refresh_bootstrap_exposure(&mut observed, true, seen(&[])));
    assert!(observed.is_none());
}

#[test]
fn an_incomplete_bootstrap_is_undone() {
    assert!(recover_incomplete_bootstrap(true, &Some(vec!["v".into()]), true).is_empty());
    let told = lines(&recover_incomplete_bootstrap(false, &None, true));
    assert_eq!(told.len(), 7);
    assert_eq!(told[0], "remove /var/lib/fwos/desired.toml");
    assert_eq!(told[6], "remove /var/lib/fwos/bootstrap-attempt.json");
    let told = lines(&recover_incomplete_bootstrap(false, &Some(vec!["v".into()]), true));
    assert_eq!(
        told[..5],
        [
            "stop dhcp",
            "if v: ip link delete dev v",
            "lock nics",
            "nft flush ruleset",
            "nft table ip fwos-pull {",
        ]
    );
    assert_eq!(told.last().map(String::as_str), Some("apply opt"));
    let told = lines(&recover_incomplete_bootstrap(false, &Some(Vec::new()), false));
    assert_eq!(told.last().map(String::as_str), Some("nft destroy table ip fwos-first-boot"));
}

#[test]
fn namespaces_are_set_up() {
    let c = ensure_netns("fwd");
    assert_eq!(c.args, ["netns", "add", "fwd"]);
    assert_eq!(setup_outcome(&c, true, "exit status: 0"), Ok(()));
    assert_eq!(
        setup_outcome(&c, false, "exit status: 1"),
        Err("ip netns add fwd failed (exit status: 1)".into())
    );
    let all = set_up_netns("mgmt");
    assert_eq!(all.len(), 3);
    assert_eq!(all[0].args, ["netns", "exec", "mgmt", "ip", "link", "set", "lo", "up"]);
    assert_eq!(all[0].starting, "bring up lo in mgmt");
    assert_eq!(all[1].failing, "enable ip_forward in mgmt failed");
    assert_eq!(all[2].args[3..], ["sh", "-c", LOCK_SCRIPT]);
    assert_eq!(
        setup_outcome(&all[2], false, "exit status: 2"),
        Err("lock autoconf in mgmt failed (exit status: 2)".into())
    );
}

#[test]
fn the_plumbing_joins_the_namespaces() {
    let (add, place) = make_pair("a", "b");
    assert_eq!(add.join(" "), "link add a type veth peer name b");
    assert_eq!(place.join(" "), "link set b netns /run/netns/mgmt");
    let told: Vec<String> = setup_plumbing()
        .iter()
        .map(|p| match p {
            PlumbStep::Pair(s, n, m) => format!("{s:?} pair {n} {m}"),
            PlumbStep::Do(s, step) => format!("{s:?} {}", line(step)),
            PlumbStep::Forward(s) => format!("{s:?} forward"),
        })
        .collect();
    assert_eq!(
        told,
        [
            "Fwd pair f0mgmt m1mgmt",
            "Fwd address 169.254.127.5/30 on f0mgmt",
            "Fwd address fd53:1:1::5/64 on f0mgmt",
            "Fwd ip link set f0mgmt up",
            "Mgmt address 169.254.127.6/30 on m1mgmt",
            "Mgmt address fd53:1:1::6/64 on m1mgmt",
            "Mgmt ip link set m1mgmt up",
            "Host pair h0mgmt m0mgmt",
            "Host address 169.254.127.1/30 on h0mgmt",
            "Host ip link set h0mgmt up",
            "Mgmt address 169.254.127.2/30 on m0mgmt",
            "Mgmt ip link set m0mgmt up",
            "Host ip route replace default via 169.254.127.2",
            "Mgmt ip route replace default via 169.254.127.5",
            "Mgmt forward",
            "Fwd forward",
            "Fwd sysctl all ipv4 rp_filter 2",
            "Fwd sysctl default ipv4 rp_filter 2",
            "Fwd sysctl f0mgmt ipv4 rp_filter 2",
            "Fwd ip route replace 169.254.127.0/30 via 169.254.127.6 dev f0mgmt",
        ]
    );
    assert_ne!(Space::Host, Space::Fwd);
    assert_eq!(move_link("x", "/proc/1/fd/3").join(" "), "link set x netns /proc/1/fd/3");
    let told = lines(&claim_traffic_nic("x"));
    assert_eq!(told.len(), 5);
    assert_eq!(told.last().map(String::as_str), Some("ip link set x up"));
    assert_eq!(with_netns(Ok(()), Ok(())), Ok(()));
    assert_eq!(with_netns(Err("w".into()), Err("b".into())), Err("w".into()));
    assert_eq!(with_netns(Ok(()), Err("b".into())), Err("b".into()));
}
