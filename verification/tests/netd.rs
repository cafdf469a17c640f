use fwos::commands::{classify, handle_cmd, Received, Work};
use fwos::desired::{DesiredState, Iface, Qdisc, StaticRoute};
use fwos::exposure::{expose_allowed, ui_exposure};
use fwos::json::{parse, Json};
use fwos::lan::{
    kea_dhcp4_conf, kea_dhcp6_conf, parse_lan_services_result, unbound_conf, wait_lan_services, Look,
};
use fwos::nft::{first_boot_nft, nft_rules_with_recovery_guard};
use fwos::opt::parse_opt;
use fwos::policy::{lan_l2, validate};

fn document(raw: &str) -> Json {
    parse(raw.as_bytes()).unwrap()
}

#[test]
fn network_restoration_is_a_netd_operation_and_requires_bootstrap() {
    match handle_cmd(&document(r#"{"op": "restore_previous"}"#), false, false) {
        Work::Reply(reply) => {
            assert_eq!(reply.text_member("outcome"), Some("rejected"));
            assert_eq!(
                reply.text_member("error"),
                Some("complete Bootstrap before restoring Desired state")
            );
        }
        _ => panic!("expected a reply"),
    }
}

#[test]
fn complete_desired_rejects_off_link_next_hop_before_apply() {
    let mut state = wan_lan();
    state.routes = vec![
        StaticRoute {
            to: "198.51.100.0/24".into(),
            via: "192.0.2.2".into(),
            dev: Some("enp2s0".into()),
        },
        StaticRoute {
            to: "203.0.113.0/24".into(),
            via: "192.0.3.2".into(),
            dev: Some("enp2s0".into()),
        },
    ];
    assert!(validate(&state).unwrap_err().contains("on-link"));
}

#[test]
fn complete_desired_rejects_unsupported_qdisc_before_apply() {
    let mut state = wan_lan();
    state.routes.push(StaticRoute {
        to: "198.51.100.0/24".into(),
        via: "192.0.2.2".into(),
        dev: Some("enp2s0".into()),
    });
    state.qdiscs.push(Qdisc {
        dev: "enp2s0".into(),
        kind: "entirely_bogus".into(),
    });
    assert!(validate(&state).unwrap_err().contains("unsupported qdisc"));
}

#[test]
fn complete_desired_accepts_supported_qdisc_and_on_link_next_hop() {
    let mut state = wan_lan();
    state.routes.push(StaticRoute {
        to: "198.51.100.0/24".into(),
        via: "192.0.2.2".into(),
        dev: Some("enp2s0".into()),
    });
    state.qdiscs.push(Qdisc {
        dev: "enp2s0".into(),
        kind: "fq_codel".into(),
    });
    assert!(validate(&state).is_ok());
}

#[test]
fn complete_desired_requires_interface_for_ipv6_link_local_next_hop() {
    let mut state = wan_lan();
    state.interfaces[1].addresses.push("fe80::1/64".into());
    state.routes.push(StaticRoute {
        to: "2001:db8:100::/64".into(),
        via: "fe80::2".into(),
        dev: None,
    });
    assert!(validate(&state).unwrap_err().contains("interface"));
}

#[test]
fn complete_desired_rejects_next_hop_reachable_only_by_live_dhcp_address() {
    let mut state = wan_lan();
    state.interfaces[1].name = "lo".into();
    state.interfaces[1].addresses.clear();
    state.interfaces[1].dhcp = true;
    state.routes.push(StaticRoute {
        to: "198.51.100.0/24".into(),
        via: "127.0.0.2".into(),
        dev: Some("lo".into()),
    });
    assert!(validate(&state).unwrap_err().contains("configured on-link"));
}

#[test]
fn cmd_json_is_not_empty_desired() {
    let v = document(r#"{"op":"list"}"#);
    assert!(v.text_member("op").is_some());
    // A command is never taken for a state, though there is an owner.
    assert!(!matches!(classify(Ok(v), true), Received::Bare(_)));
}

#[test]
fn parse_opt_requires_cidr_for_static() {
    let v = document(r#"{"op":"opt","nic":"enp1s0","mode":"static"}"#);
    assert!(parse_opt(&v).is_err());
    let v = document(r#"{"op":"opt","nic":"enp1s0","mode":"static","cidr":"10.0.2.15/24"}"#);
    let opt = parse_opt(&v).unwrap();
    assert_eq!(opt.nic, "enp1s0");
    assert_eq!(opt.cidr.as_deref(), Some("10.0.2.15/24"));
}

#[test]
fn first_boot_nft_dnats_https_on_the_opted_nic() {
    let rules = first_boot_nft("enp1s0", &["10.0.2.15".into()]);
    assert!(rules.contains("iifname \"enp1s0\""));
    assert!(rules.contains("ip daddr 10.0.2.15 tcp dport 443 dnat ip to 169.254.127.6"));
    assert!(!rules.contains("flush ruleset"));
    let v6 = first_boot_nft("enp1s0", &["fd53:1:1::9".into()]);
    assert!(v6.contains("ip6 daddr fd53:1:1::9 tcp dport 443 dnat ip6 to fd53:1:1::6"));
    assert!(v6.contains("chain forward"));
    assert!(!v6.contains("dnat to fd53"));
}

#[test]
fn expose_allowed_is_private_or_link_local() {
    assert!(expose_allowed("10.0.2.15"));
    assert!(expose_allowed("192.168.1.1"));
    assert!(expose_allowed("169.254.1.1"));
    assert!(!expose_allowed("169.254.127.6"));
    assert!(!expose_allowed("8.8.8.8"));
    assert!(!expose_allowed("100.64.0.1"));
    assert!(!expose_allowed("2001:db8::1"));
    assert!(expose_allowed("fd53:1:1::9"));
    assert!(expose_allowed("fe80::1"));
}

fn iface(name: &str, role: &str, addrs: &[&str]) -> Iface {
    Iface {
        name: name.into(),
        placement: String::new(),
        role: Some(role.into()),
        addresses: addrs.iter().map(|s| (*s).to_string()).collect(),
        vlan: None,
        parent: None,
        dhcp: false,
    }
}

fn vlan_iface(name: &str, role: &str, parent: &str, vid: u16, addrs: &[&str]) -> Iface {
    Iface {
        name: name.into(),
        placement: String::new(),
        role: Some(role.into()),
        addresses: addrs.iter().map(|s| (*s).to_string()).collect(),
        vlan: Some(vid),
        parent: Some(parent.into()),
        dhcp: false,
    }
}

fn wan_lan() -> DesiredState {
    DesiredState {
        interfaces: vec![
            iface("enp1s0", "lan", &["10.0.2.15/24", "192.168.1.1/24"]),
            iface("enp2s0", "wan", &["192.0.2.1/24"]),
        ],
        ui_exposure: vec!["enp1s0".into()],
        lan_prefix: Some("192.168.1.0/24".into()),
        dhcp_pool: Some("192.168.1.100-192.168.1.200".into()),
        ..DesiredState::default()
    }
}

#[test]
fn ui_exposure_is_lan_not_wan() {
    let state = wan_lan();
    let exp = ui_exposure(&state);
    assert_eq!(exp.len(), 1);
    assert_eq!(exp[0].0, "enp1s0");
    assert!(!exp.iter().any(|(n, _)| n == "enp2s0"));
    assert!(validate(&state).is_ok());
}

#[test]
fn reject_placement_mgmt() {
    let mut state = wan_lan();
    state.interfaces[0].placement = "mgmt".into();
    let err = validate(&state).unwrap_err();
    assert!(err.contains("placement=mgmt"), "{err}");
}

#[test]
fn reject_empty_ui_exposure() {
    let mut state = wan_lan();
    state.ui_exposure.clear();
    let err = validate(&state).unwrap_err();
    assert!(err.contains("ui_exposure"), "{err}");
}

#[test]
fn reject_wan_in_ui_exposure() {
    let mut state = wan_lan();
    state.ui_exposure = vec!["enp2s0".into()];
    let err = validate(&state).unwrap_err();
    assert!(err.contains("WAN"), "{err}");
}

#[test]
fn require_wan_and_lan() {
    let mut state = wan_lan();
    state.interfaces.retain(|i| i.role.as_deref() != Some("lan"));
    let err = validate(&state).unwrap_err();
    assert!(err.to_ascii_lowercase().contains("lan"), "{err}");
    let mut state = wan_lan();
    state.interfaces.retain(|i| i.role.as_deref() != Some("wan"));
    let err = validate(&state).unwrap_err();
    assert!(err.to_ascii_lowercase().contains("wan"), "{err}");
}

#[test]
fn reject_wan_and_lan_same_parent_and_tag() {
    let state = DesiredState {
        interfaces: vec![
            iface("enp1s0", "wan", &["192.0.2.1/24"]),
            iface("enp1s0", "lan", &["192.168.1.1/24"]),
        ],
        ui_exposure: vec!["enp1s0".into()],
        ..DesiredState::default()
    };
    let err = validate(&state).unwrap_err();
    assert!(err.contains("parent") && err.contains("tag"), "{err}");
}

#[test]
fn reject_wan_and_lan_same_parent_and_vid() {
    let state = DesiredState {
        interfaces: vec![
            vlan_iface("enp1s0.100", "wan", "enp1s0", 100, &["192.0.2.1/24"]),
            vlan_iface("lan100", "lan", "enp1s0", 100, &["192.168.1.1/24"]),
        ],
        ui_exposure: vec!["lan100".into()],
        ..DesiredState::default()
    };
    let err = validate(&state).unwrap_err();
    assert!(err.contains("parent") && err.contains("tag"), "{err}");
}

fn assert_one_nic_lan_only(state: &DesiredState, lan: &str, wan: &str) {
    assert!(validate(state).is_ok());
    let exp = ui_exposure(state);
    assert_eq!(exp.len(), 1);
    assert_eq!(exp[0].0, lan);
    assert!(!exp.iter().any(|(n, _)| n == wan));
}

#[test]
fn one_nic_wan_untagged_lan_tagged() {
    let state = DesiredState {
        interfaces: vec![
            iface("enp1s0", "wan", &["192.0.2.1/24"]),
            vlan_iface("enp1s0.42", "lan", "enp1s0", 42, &["192.168.1.1/24"]),
        ],
        ui_exposure: vec!["enp1s0.42".into()],
        lan_prefix: Some("192.168.1.0/24".into()),
        ..DesiredState::default()
    };
    assert_one_nic_lan_only(&state, "enp1s0.42", "enp1s0");
}

#[test]
fn one_nic_wan_tagged_lan_untagged() {
    let state = DesiredState {
        interfaces: vec![
            vlan_iface("enp1s0.100", "wan", "enp1s0", 100, &["192.0.2.1/24"]),
            iface("enp1s0", "lan", &["192.168.1.1/24"]),
        ],
        ui_exposure: vec!["enp1s0".into()],
        lan_prefix: Some("192.168.1.0/24".into()),
        ..DesiredState::default()
    };
    assert_one_nic_lan_only(&state, "enp1s0", "enp1s0.100");
}

#[test]
fn one_nic_both_tagged() {
    let state = DesiredState {
        interfaces: vec![
            iface("enp1s0", "unused", &[]),
            vlan_iface("enp1s0.100", "wan", "enp1s0", 100, &["192.0.2.1/24"]),
            vlan_iface("enp1s0.200", "lan", "enp1s0", 200, &["192.168.1.1/24"]),
        ],
        ui_exposure: vec!["enp1s0.200".into()],
        lan_prefix: Some("192.168.1.0/24".into()),
        ..DesiredState::default()
    };
    assert_one_nic_lan_only(&state, "enp1s0.200", "enp1s0.100");
    assert!(!ui_exposure(&state).iter().any(|(n, _)| n == "enp1s0"));
}

#[test]
fn extra_unused_nics_are_not_wans() {
    let state = DesiredState {
        interfaces: vec![
            iface("enp1s0", "lan", &["192.168.1.1/24"]),
            iface("enp2s0", "wan", &["192.0.2.1/24"]),
            iface("enp3s0", "unused", &[]),
        ],
        ui_exposure: vec!["enp1s0".into()],
        ..DesiredState::default()
    };
    assert!(validate(&state).is_ok());
    let wans: Vec<_> = state
        .interfaces
        .iter()
        .filter(|i| i.role.as_deref() == Some("wan"))
        .map(|i| i.name.as_str())
        .collect();
    assert_eq!(wans, vec!["enp2s0"]);
    let exp = ui_exposure(&state);
    assert!(!exp.iter().any(|(n, _)| n == "enp3s0"));
}

#[test]
fn kea_and_unbound_bind_the_lan_l2_not_dummy() {
    let state = wan_lan();
    let lan = lan_l2(&state).unwrap();
    assert_eq!(lan.name, "enp1s0");
    assert_ne!(lan.name, "lan0");
    let kea4 = kea_dhcp4_conf(
        &lan.name,
        "192.168.1.0/24",
        "192.168.1.100",
        "192.168.1.200",
        "192.168.1.1",
    );
    assert!(kea4.contains("\"interfaces\": [ \"enp1s0\" ]"), "{kea4}");
    assert!(kea4.contains("\"interface\": \"enp1s0\""), "{kea4}");
    assert!(kea4.contains("\"service-sockets-require-all\": true"), "{kea4}");
    assert!(!kea4.contains("lan0"), "{kea4}");
    let kea6 = kea_dhcp6_conf(&lan.name, "2001:db8::/64", "2001:db8::100", "2001:db8::1ff");
    assert!(kea6.contains("enp1s0"), "{kea6}");
    assert!(kea6.contains("\"service-sockets-require-all\": true"), "{kea6}");
    assert!(!kea6.contains("lan0"), "{kea6}");
    let unbound = unbound_conf("192.168.1.1", "192.168.1.0/24");
    assert!(unbound.contains("interface: 192.168.1.1"), "{unbound}");
}

#[test]
fn stick_json_with_ui_exposure_on_lan_vlan_is_valid() {
    let state = DesiredState {
        interfaces: vec![
            iface("enp1s0", "stick", &[]),
            vlan_iface("enp1s0.10", "wan", "enp1s0", 10, &["192.0.2.1/24"]),
            vlan_iface("enp1s0.20", "lan", "enp1s0", 20, &["192.168.1.1/24"]),
        ],
        ui_exposure: vec!["enp1s0.20".into()],
        lan_prefix: Some("192.168.1.0/24".into()),
        dhcp_pool: Some("192.168.1.100-192.168.1.200".into()),
        ..DesiredState::default()
    };
    assert!(validate(&state).is_ok());
    let exp = ui_exposure(&state);
    assert_eq!(exp[0].0, "enp1s0.20");
    let kea4 = kea_dhcp4_conf(
        "enp1s0.20",
        "192.168.1.0/24",
        "192.168.1.100",
        "192.168.1.200",
        "192.168.1.1",
    );
    assert!(kea4.contains("enp1s0.20"));
    assert!(!kea4.contains("lan0"));
}

fn wan_lan_mgmt() -> DesiredState {
    DesiredState {
        interfaces: vec![
            iface("enp1s0", "lan", &["192.168.1.1/24"]),
            iface("enp2s0", "wan", &["192.0.2.1/24"]),
            iface("enp3s0", "mgmt", &["10.0.2.15/24"]),
        ],
        ui_exposure: vec!["enp3s0".into()],
        lan_prefix: Some("192.168.1.0/24".into()),
        dhcp_pool: Some("192.168.1.100-192.168.1.200".into()),
        ..DesiredState::default()
    }
}

#[test]
fn accept_role_mgmt_oob_only_exposure() {
    let state = wan_lan_mgmt();
    assert!(validate(&state).is_ok(), "{:?}", validate(&state).err());
    let exp = ui_exposure(&state);
    assert_eq!(exp.len(), 1);
    assert_eq!(exp[0].0, "enp3s0");
    assert!(!exp.iter().any(|(n, _)| n == "enp1s0"));
    assert!(!exp.iter().any(|(n, _)| n == "enp2s0"));
}

#[test]
fn accept_role_mgmt_and_lan_in_exposure() {
    let mut state = wan_lan_mgmt();
    state.ui_exposure = vec!["enp3s0".into(), "enp1s0".into()];
    assert!(validate(&state).is_ok(), "{:?}", validate(&state).err());
    let exp = ui_exposure(&state);
    assert!(exp.iter().any(|(n, _)| n == "enp3s0"));
    assert!(exp.iter().any(|(n, _)| n == "enp1s0"));
}

#[test]
fn reject_placement_mgmt_even_with_role_mgmt() {
    let mut state = wan_lan_mgmt();
    state.interfaces[2].placement = "mgmt".into();
    let err = validate(&state).unwrap_err();
    assert!(err.contains("placement=mgmt"), "{err}");
}

#[test]
fn reject_wan_on_mgmt_parent() {
    let state = DesiredState {
        interfaces: vec![
            iface("enp1s0", "lan", &["192.168.1.1/24"]),
            iface("enp3s0", "mgmt", &["10.0.2.15/24"]),
            iface("enp3s0", "wan", &["192.0.2.1/24"]),
        ],
        ui_exposure: vec!["enp3s0".into()],
        ..DesiredState::default()
    };
    let err = validate(&state).unwrap_err();
    assert!(err.to_ascii_lowercase().contains("parent"), "{err}");
}

#[test]
fn reject_lan_vlan_on_mgmt_parent() {
    let state = DesiredState {
        interfaces: vec![
            iface("enp2s0", "wan", &["192.0.2.1/24"]),
            iface("enp3s0", "mgmt", &["10.0.2.15/24"]),
            vlan_iface("enp3s0.20", "lan", "enp3s0", 20, &["192.168.1.1/24"]),
        ],
        ui_exposure: vec!["enp3s0".into()],
        ..DesiredState::default()
    };
    let err = validate(&state).unwrap_err();
    assert!(err.to_ascii_lowercase().contains("parent"), "{err}");
}

#[test]
fn reject_wan_vlan_on_mgmt_parent() {
    let state = DesiredState {
        interfaces: vec![
            iface("enp1s0", "lan", &["192.168.1.1/24"]),
            iface("enp3s0", "mgmt", &["10.0.2.15/24"]),
            vlan_iface("enp3s0.10", "wan", "enp3s0", 10, &["192.0.2.1/24"]),
        ],
        ui_exposure: vec!["enp3s0".into()],
        ..DesiredState::default()
    };
    let err = validate(&state).unwrap_err();
    assert!(err.to_ascii_lowercase().contains("parent"), "{err}");
}

#[test]
fn reject_mgmt_without_on_link_prefix() {
    let mut state = wan_lan_mgmt();
    state.interfaces[2].addresses.clear();
    let err = validate(&state).unwrap_err();
    assert!(
        err.to_ascii_lowercase().contains("static")
            || err.to_ascii_lowercase().contains("prefix")
            || err.to_ascii_lowercase().contains("address"),
        "{err}"
    );
}

#[test]
fn reject_mgmt_dhcp() {
    let mut state = wan_lan_mgmt();
    state.interfaces[2].dhcp = true;
    let err = validate(&state).unwrap_err();
    assert!(
        err.to_ascii_lowercase().contains("dhcp") || err.to_ascii_lowercase().contains("static"),
        "{err}"
    );
}

#[test]
fn reject_mgmt_vlan() {
    let state = DesiredState {
        interfaces: vec![
            iface("enp1s0", "lan", &["192.168.1.1/24"]),
            iface("enp2s0", "wan", &["192.0.2.1/24"]),
            vlan_iface("enp3s0.9", "mgmt", "enp3s0", 9, &["10.0.2.15/24"]),
        ],
        ui_exposure: vec!["enp3s0.9".into()],
        ..DesiredState::default()
    };
    let err = validate(&state).unwrap_err();
    assert!(
        err.to_ascii_lowercase().contains("parent") || err.to_ascii_lowercase().contains("vlan"),
        "{err}"
    );
}

#[test]
fn reject_mgmt_missing_from_ui_exposure() {
    let mut state = wan_lan_mgmt();
    state.ui_exposure = vec!["enp1s0".into()];
    let err = validate(&state).unwrap_err();
    assert!(
        err.to_ascii_lowercase().contains("ui_exposure")
            || err.to_ascii_lowercase().contains("management"),
        "{err}"
    );
}

#[test]
fn still_require_wan_and_lan_when_mgmt_exists() {
    let mut state = wan_lan_mgmt();
    state.interfaces.retain(|i| i.role.as_deref() != Some("lan"));
    let err = validate(&state).unwrap_err();
    assert!(err.to_ascii_lowercase().contains("lan"), "{err}");
}

#[test]
fn kea_and_unbound_stay_on_lan_not_mgmt() {
    let state = wan_lan_mgmt();
    let lan = lan_l2(&state).unwrap();
    assert_eq!(lan.name, "enp1s0");
    assert_ne!(lan.name, "enp3s0");
    let kea4 = kea_dhcp4_conf(
        &lan.name,
        "192.168.1.0/24",
        "192.168.1.100",
        "192.168.1.200",
        "192.168.1.1",
    );
    assert!(kea4.contains("\"interfaces\": [ \"enp1s0\" ]"), "{kea4}");
    assert!(!kea4.contains("enp3s0"), "{kea4}");
    let unbound = unbound_conf("192.168.1.1", "192.168.1.0/24");
    assert!(unbound.contains("interface: 192.168.1.1"), "{unbound}");
    assert!(!unbound.contains("10.0.2.15"), "{unbound}");
}

#[test]
fn nft_does_not_forward_mgmt_to_wan_or_lan() {
    let state = wan_lan_mgmt();
    let rules = nft_rules_with_recovery_guard(&state, false);
    let iif_drop = rules
        .find("iifname \"enp3s0\" drop")
        .expect(&format!("mgmt iif drop missing in {rules}"));
    let oif_drop = rules
        .find("oifname \"enp3s0\" drop")
        .expect(&format!("mgmt oif drop missing in {rules}"));
    let wan_fwd = rules
        .find("oifname \"enp2s0\" accept")
        .expect(&format!("WAN forward missing in {rules}"));
    assert!(
        iif_drop < wan_fwd && oif_drop < wan_fwd,
        "Management NIC drop must precede WAN forward:\n{rules}"
    );
    assert!(
        !rules.contains("iifname \"enp3s0\" oifname \"enp2s0\" accept"),
        "{rules}"
    );
    assert!(
        !rules.contains("iifname \"enp3s0\" oifname \"enp1s0\" accept"),
        "{rules}"
    );
    assert!(
        rules.contains("iifname \"enp3s0\" ip daddr 10.0.2.15 tcp dport 443 dnat"),
        "UI DNAT on the Management NIC:\n{rules}"
    );
    assert!(
        rules.contains("iifname \"enp3s0\" oifname \"f0mgmt\" tcp dport 443 accept"),
        "HTTPS to the UI veth is not LAN/WAN forward:\n{rules}"
    );
}

#[test]
fn host_service_result_requires_the_current_generation() {
    assert!(parse_lan_services_result("old ok\n", "current").is_none());
    assert!(parse_lan_services_result("current ok\n", "current")
        .unwrap()
        .is_ok());
    assert!(
        parse_lan_services_result("current failed:fwos-kea-dhcp4\n", "current")
            .unwrap()
            .is_err()
    );
}

#[test]
fn missing_host_service_result_times_out_without_acceptance() {
    let error = wait_lan_services(Look::Found(String::new()), "current", true)
        .expect("the wait is over")
        .expect_err("no current-generation acknowledgement");
    assert!(error.contains("timed out"), "{error}");
}
