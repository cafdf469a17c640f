use fwos::desired::{DesiredState, Iface};
use fwos::lan::{kea_dhcp4_conf, kea_dhcp6_conf, unbound_conf};
use fwos::nft::{first_boot_nft, host_pull_nft, lockdown_nft, nft_rules_with_recovery_guard, program_first_boot_nft};

fn iface(name: &str, role: &str, addresses: &[&str]) -> Iface {
    Iface {
        name: name.into(),
        placement: String::new(),
        role: Some(role.into()),
        addresses: addresses.iter().map(|a| a.to_string()).collect(),
        vlan: None,
        parent: None,
        dhcp: false,
    }
}

fn state() -> DesiredState {
    DesiredState {
        interfaces: vec![
            iface("enp1s0", "lan", &["192.168.1.1/24", "fd00::1/64", "8.8.8.8/32", "192.168.1.1/16"]),
            iface("enp2s0", "wan", &["192.0.2.1/24"]),
            iface("enp3s0", "mgmt", &["10.0.2.15/24"]),
            iface("enp4s0", "lan", &[]),
        ],
        nft_extra: vec!["tcp dport 22 drop".into()],
        ui_exposure: vec!["enp1s0".into(), "enp2s0".into(), "enp3s0".into(), "enp4s0".into(), "x".into()],
        ..DesiredState::default()
    }
}

const PULL: &str = "table ip fwos-pull {\n  chain postrouting {\n    type nat hook postrouting priority srcnat; policy accept;\n    ip saddr 169.254.127.0/30 masquerade\n  }\n}\n";

const RULES: &str = "\
table inet fwos {
  chain input {
    type filter hook input priority filter; policy accept;
    iifname \"lo\" accept
    tcp dport 22 drop
    iifname \"enp2s0\" ct state established,related accept
    iifname \"enp2s0\" drop
  }
  chain forward {
    type filter hook forward priority filter; policy drop;
    ct state established,related accept
    iifname \"f0mgmt\" accept
    iifname \"enp1s0\" oifname \"f0mgmt\" tcp dport 443 accept
    iifname \"enp3s0\" oifname \"f0mgmt\" tcp dport 443 accept
    iifname \"enp4s0\" oifname \"f0mgmt\" tcp dport 443 accept
    iifname \"enp3s0\" drop
    oifname \"enp3s0\" drop
    oifname \"enp2s0\" accept
  }
  chain prerouting {
    type nat hook prerouting priority dstnat; policy accept;
    iifname \"enp1s0\" ip daddr 192.168.1.1 tcp dport 443 dnat ip to 169.254.127.6
    iifname \"enp1s0\" ip6 daddr fd00::1 tcp dport 443 dnat ip6 to fd53:1:1::6
    iifname \"enp3s0\" ip daddr 10.0.2.15 tcp dport 443 dnat ip to 169.254.127.6
    iifname \"enp4s0\" tcp dport 443 dnat ip to 169.254.127.6
  }
  chain postrouting {
    type nat hook postrouting priority srcnat; policy accept;
    oifname \"enp2s0\" masquerade
  }
}
";

#[test]
fn the_rules_of_a_state_are_written_out() {
    assert_eq!(host_pull_nft(), PULL);
    let rules = nft_rules_with_recovery_guard(&state(), false);
    assert_eq!(rules, format!("flush ruleset\n{PULL}{RULES}"));
}

#[test]
fn the_guard_adds_one_rule() {
    let open = nft_rules_with_recovery_guard(&state(), false);
    let guarded = nft_rules_with_recovery_guard(&state(), true);
    let policy = "hook forward priority filter; policy drop;\n";
    assert_eq!(guarded, open.replace(policy, &format!("{policy}    drop\n")));
}

#[test]
fn chains_without_rules_are_left_out() {
    let mut s = state();
    s.ui_exposure = Vec::new();
    s.interfaces[1].addresses = vec!["fd01::1/64".into()];
    let rules = nft_rules_with_recovery_guard(&s, false);
    assert!(!rules.contains("chain prerouting"));
    assert_eq!(rules.matches("masquerade").count(), 1);
}

#[test]
fn without_a_record_nothing_comes_in() {
    assert_eq!(
        lockdown_nft(),
        format!("flush ruleset\n{PULL}table inet fwos-recovery {{\n  chain input {{\n    type filter hook input priority filter; policy drop;\n    iifname \"lo\" accept\n  }}\n  chain forward {{\n    type filter hook forward priority filter; policy drop;\n  }}\n}}\n")
    );
}

const CLOSED: &str = "\
table inet fwos-first-boot {
  chain forward {
    type filter hook forward priority filter; policy accept;
    oifname \"f0mgmt\" tcp dport 443 drop
  }
}
";

#[test]
fn the_first_boot_rules_are_written_out() {
    assert_eq!(first_boot_nft("", &[]), CLOSED);
    let closed = program_first_boot_nft("x", &["8.8.8.8/32".to_string()]);
    assert_eq!(
        closed,
        format!("destroy table ip fwos-first-boot\ndestroy table ip6 fwos-first-boot\ndestroy table inet fwos-first-boot\n{CLOSED}")
    );
    let open = first_boot_nft("x", &["10.0.0.1".to_string(), "fd00::1".to_string()]);
    assert_eq!(
        open,
        "\
table inet fwos-first-boot {
  chain forward {
    type filter hook forward priority filter; policy accept;
    iifname \"x\" oifname \"f0mgmt\" tcp dport 443 ct status dnat ct original ip daddr 10.0.0.1 accept
    iifname \"x\" oifname \"f0mgmt\" tcp dport 443 ct status dnat ct original ip6 daddr fd00::1 accept
    oifname \"f0mgmt\" tcp dport 443 drop
  }
}
table ip fwos-first-boot {
  chain prerouting {
    type nat hook prerouting priority dstnat; policy accept;
    iifname \"x\" ip daddr 10.0.0.1 tcp dport 443 dnat ip to 169.254.127.6
  }
  chain forward {
    type filter hook forward priority filter; policy accept;
    iifname \"x\" oifname \"f0mgmt\" tcp dport 443 accept
  }
}
table ip6 fwos-first-boot {
  chain prerouting {
    type nat hook prerouting priority dstnat; policy accept;
    iifname \"x\" ip6 daddr fd00::1 tcp dport 443 dnat ip6 to fd53:1:1::6
  }
  chain forward {
    type filter hook forward priority filter; policy accept;
    iifname \"x\" oifname \"f0mgmt\" tcp dport 443 accept
  }
}
"
    );
}

#[test]
fn the_services_are_written_out() {
    assert_eq!(
        kea_dhcp4_conf("d", "192.168.1.0/24", "a", "b", "192.168.1.1"),
        r#"{
  "Dhcp4": {
    "interfaces-config": { "interfaces": [ "d" ], "re-detect": true, "service-sockets-require-all": true },
    "lease-database": { "type": "memfile", "persist": false, "name": "/tmp/dhcp4.leases" },
    "valid-lifetime": 3600,
    "subnet4": [ {
      "id": 1,
      "subnet": "192.168.1.0/24",
      "interface": "d",
      "pools": [ { "pool": "a - b" } ],
      "option-data": [
        { "name": "routers", "data": "192.168.1.1" },
        { "name": "domain-name-servers", "data": "192.168.1.1" }
      ]
    } ],
    "loggers": [ { "name": "kea-dhcp4", "severity": "INFO", "output-options": [ { "output": "stdout" } ] } ]
  }
}
"#
    );
    assert_eq!(
        kea_dhcp6_conf("d", "fd00::/64", "a", "b"),
        r#"{
  "Dhcp6": {
    "interfaces-config": { "interfaces": [ "d" ], "re-detect": true, "service-sockets-require-all": true },
    "lease-database": { "type": "memfile", "persist": false, "name": "/tmp/dhcp6.leases" },
    "server-id": { "type": "LLT", "persist": false },
    "subnet6": [ {
      "id": 1,
      "subnet": "fd00::/64",
      "interface": "d",
      "pools": [ { "pool": "a - b" } ]
    } ],
    "loggers": [ { "name": "kea-dhcp6", "severity": "INFO", "output-options": [ { "output": "stdout" } ] } ]
  }
}
"#
    );
    assert_eq!(
        unbound_conf("192.168.1.1", "192.168.1.0/24"),
        "server:\n  interface: 192.168.1.1\n  port: 53\n  access-control: 192.168.1.0/24 allow\n  access-control: 127.0.0.0/8 allow\n  do-daemonize: no\n  username: \"\"\n  chroot: \"\"\n  directory: \"/tmp\"\n  pidfile: \"/tmp/unbound.pid\"\n  use-syslog: no\n  logfile: /dev/null\n"
    );
}
