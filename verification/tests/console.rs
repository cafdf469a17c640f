use fwos::console::{
    admin_handle, admin_login, apply_desired, apply_source, handle, idle, list_from_netd, netd_opt, nics_key,
    opt_outcome, parse_nic_list, print_admin_status, print_status, run, session_command, take_line, ui_reachable,
    ui_url, update_client, write_cmd, AdminCommand, AdminFacts, BootCommand, Console, Idle, LoginAnswer, Nic,
    NicList, ADMIN_HELP, HELP,
};
use fwos::identity::{Assurance, AuthenticationResult, Challenge};
use fwos::ip::{read, IpAddr};
use fwos::json::{encode, parse, Json};

fn addr(s: &str) -> IpAddr {
    read(s).unwrap()
}

fn say(c: AdminCommand) -> String {
    match c {
        AdminCommand::Say(s) => s,
        _ => panic!("expected words"),
    }
}

fn asked(c: AdminCommand) -> (String, String) {
    match c {
        AdminCommand::Ask(socket, v) => (socket.to_string(), encode(&v)),
        _ => panic!("expected a request"),
    }
}

fn facts(desired: &str, update: &str) -> AdminFacts {
    AdminFacts {
        hostname: None,
        desired: parse(desired.as_bytes()).unwrap(),
        bootstrapped: false,
        fwd: false,
        mgmt: false,
        netd: false,
        update: parse(update.as_bytes()).unwrap(),
    }
}

#[test]
fn bootstrap_help_lists_ephemeral() {
    let s = match handle("help").unwrap() {
        BootCommand::Say(s) => s,
        _ => panic!("expected words"),
    };
    assert_eq!(s, HELP);
    assert!(s.contains("static"));
    assert!(s.contains("dhcp"));
    assert!(s.contains("slaac"));
}

#[test]
fn admin_rejects_shell_and_ephemeral() {
    let s = say(admin_handle("echo SHELL_RAN"));
    assert!(s.contains("unknown command"));
    assert!(!s.lines().any(|l| l.trim() == "SHELL_RAN"));

    let s = say(admin_handle("static enp0s2 192.168.9.9/24"));
    assert!(s.contains("unknown command"));
    assert!(!s.contains("192.168.9.9"));
}

#[test]
fn admin_status_is_not_bootstrap_console() {
    let s = print_admin_status(&facts("null", "null"));
    assert!(s.contains("FWOS Appliance CLI"));
    assert!(!s.contains("FWOS Bootstrap console"));
    assert!(!s.contains("ephemeral"));
    assert!(!s.contains("Reach the UI"));
}

#[test]
fn admin_logout_leaves_session() {
    assert!(matches!(admin_handle("logout"), AdminCommand::Logout));
}

#[test]
fn admin_help_lists_apply_show_update() {
    let s = say(admin_handle("help"));
    assert_eq!(s, ADMIN_HELP);
    assert!(s.contains("apply"));
    assert!(s.contains("show"));
    assert!(s.contains("update <image>"));
    assert!(s.contains("reboot"));
    assert!(s.contains("rollback"));
}

#[test]
fn admin_status_reports_fwd_mgmt_netd() {
    let s = print_admin_status(&facts("null", "null"));
    assert!(s.contains("fwd:"));
    assert!(s.contains("mgmt:"));
    assert!(s.contains("netd:"));
}

#[test]
fn admin_reboot_is_a_host_update_socket_client() {
    let (socket, body) = asked(admin_handle("reboot"));
    assert!(!body.contains("unknown command"));
    assert!(socket.contains("update.sock"));
    assert_eq!(body, r#"{"op":"reboot"}"#);
}

#[test]
fn admin_rollback_is_a_host_update_socket_client() {
    let (socket, body) = asked(admin_handle("rollback"));
    assert!(!body.contains("unknown command"));
    assert!(socket.contains("update.sock"));
    assert_eq!(body, r#"{"op":"rollback"}"#);
}

#[test]
fn admin_update_without_image_prints_usage() {
    let s = say(admin_handle("update"));
    assert!(s.contains("usage: update <image>"));
    assert!(!s.contains("update.sock"));
}

#[test]
fn admin_apply_is_a_netd_client() {
    let rest = match admin_handle(r#"apply {"wireguard":[]}"#) {
        AdminCommand::Apply(s) => s,
        _ => panic!("expected an apply"),
    };
    assert!(!apply_source(&rest, false));
    let (socket, body) = apply_desired(&rest).unwrap();
    assert!(!body.contains("unknown command"));
    assert!(socket.contains("netd.sock"));
    assert_eq!(body, r#"{"wireguard":[]}"#);
}

#[test]
fn admin_show_round_trips_toml_on_var() {
    match admin_handle("show") {
        AdminCommand::Show(path) => {
            assert!(!path.contains("unknown command"));
            assert!(path.contains("/var/lib/fwos/desired.toml"));
        }
        _ => panic!("expected a file"),
    }
}

#[test]
fn admin_update_is_a_host_update_socket_client() {
    let (socket, body) = asked(admin_handle("update 10.0.2.2:5000/fwos:next"));
    assert!(!body.contains("unknown command"));
    assert!(socket.contains("update.sock"));
    assert_eq!(body, r#"{"image":"10.0.2.2:5000/fwos:next","op":"stage"}"#);
}

#[test]
fn bootstrap_update_hits_the_host_update_socket() {
    match handle("update 10.0.2.2:5000/fwos:next").unwrap() {
        BootCommand::Ask(socket, v) => {
            assert!(!encode(&v).contains("unknown command"));
            assert!(socket.contains("update.sock"));
        }
        _ => panic!("expected a request"),
    }
}

#[test]
fn nics_key_changes_when_addresses_change() {
    let a = vec![Nic {
        name: "enp0s2".into(),
        addrs: vec![addr("10.0.2.15")],
    }];
    let b = vec![Nic {
        name: "enp0s2".into(),
        addrs: vec![addr("10.0.2.15"), addr("192.168.200.50")],
    }];
    assert_eq!(nics_key(&a), nics_key(&a));
    assert_ne!(nics_key(&a), nics_key(&b));
    assert!(nics_key(&vec![]).is_empty());
    assert_eq!(nics_key(&b), "enp0s2=10.0.2.15,192.168.200.50");
}

#[test]
fn the_console_follows_the_owner() {
    assert_eq!(run(false), Console::Bootstrap);
    assert_eq!(run(true), Console::Admin);
    assert_eq!(idle(true, "a", "a"), Idle::Switch);
    assert_eq!(idle(false, "a", "b"), Idle::Show);
    assert_eq!(idle(false, "a", ""), Idle::Wait);
    assert_eq!(idle(false, "", "a"), Idle::Show);
    assert_eq!(idle(false, "a", "a"), Idle::Wait);
}

#[test]
fn lines_are_taken_one_by_one() {
    let mut acc = b"one\r\ntwo\nthree\rfo".to_vec();
    assert_eq!(take_line(&mut acc).as_deref(), Some("one"));
    assert_eq!(take_line(&mut acc).as_deref(), Some("two"));
    assert_eq!(take_line(&mut acc).as_deref(), Some("three"));
    assert_eq!(take_line(&mut acc), None);
    assert_eq!(acc, b"fo");
    let mut acc = b"\xffx\n".to_vec();
    assert_eq!(take_line(&mut acc).as_deref(), Some("\u{fffd}x"));
    assert!(acc.is_empty());
}

fn choice(line: &str) -> String {
    match handle(line).unwrap() {
        BootCommand::Choose(v) => encode(&v),
        _ => panic!("expected a choice"),
    }
}

#[test]
fn the_bootstrap_console_makes_choices() {
    assert_eq!(
        choice("static enp1s0 10.0.0.1/24"),
        r#"{"cidr":"10.0.0.1/24","mode":"static","nic":"enp1s0","op":"opt"}"#
    );
    assert_eq!(choice(" dhcp\tenp1s0 "), r#"{"mode":"dhcp","nic":"enp1s0","op":"opt"}"#);
    assert_eq!(choice("slaac enp1s0"), r#"{"mode":"slaac","nic":"enp1s0","op":"opt"}"#);
    assert_eq!(encode(&netd_opt("dhcp", "a", None)), r#"{"mode":"dhcp","nic":"a","op":"opt"}"#);
    let bad = |l: &str| match handle(l) {
        Err(e) => e,
        Ok(_) => panic!("expected an error"),
    };
    assert_eq!(bad("static enp1s0"), "usage: static <nic> <cidr>");
    assert_eq!(bad("dhcp"), "usage: dhcp <nic>");
    assert_eq!(bad("slaac"), "usage: slaac <nic>");
    assert_eq!(
        bad("apply {}"),
        "Bootstrap console sets ephemeral addressing, not Desired state"
    );
    assert!(matches!(handle("").unwrap(), BootCommand::Status));
    assert!(matches!(handle("status").unwrap(), BootCommand::Status));
    assert!(matches!(handle("ls").unwrap(), BootCommand::Say(s) if s == "unknown command\n"));
    assert!(matches!(handle("update").unwrap(), BootCommand::Say(s) if s == "usage: update <image>\n"));
    assert_eq!(opt_outcome(&parse(br#"{"ok":true}"#).unwrap()), Ok(()));
    assert_eq!(opt_outcome(&parse(br#"{"error":"no"}"#).unwrap()), Err("no".into()));
    assert_eq!(opt_outcome(&Json::Null), Err("opt failed".into()));
    assert!(update_client("").is_err());
}

#[test]
fn nics_are_read_from_a_reply() {
    let v = parse(
        br#"{"ok":true,"nics":[{"name":"enp1s0","addresses":["10.0.0.1/24","10.0.0.1/8","x",1,"fe80::1/64"]},{"addresses":[]},{"name":"enp2s0"}],"opt":{"nic":"enp1s0"}}"#,
    )
    .unwrap();
    let l = parse_nic_list(&v);
    assert_eq!(l.nics.len(), 2);
    assert_eq!(l.nics[0].addrs, vec![addr("10.0.0.1"), addr("fe80::1")]);
    assert_eq!(l.nics[1].name, "enp2s0");
    assert!(l.nics[1].addrs.is_empty());
    assert_eq!(l.opted.as_deref(), Some("enp1s0"));
    assert_eq!(
        print_status(&l),
        "FWOS Bootstrap console\nNICs:\n  enp1s0  10.0.0.1 fe80::1\n  enp2s0\nReach the UI:\n  https://10.0.0.1/\n  https://[fe80::1%enp1s0]/\n"
    );
    let unchosen = NicList { opted: Some("enp2s0".into()), ..l };
    assert!(print_status(&unchosen).ends_with("  (set ephemeral addressing: static, dhcp, or slaac)\n"));
    let none = list_from_netd(&None);
    assert_eq!(
        print_status(&none),
        "FWOS Bootstrap console\nNICs:\n  (none)\nReach the UI:\n  (set ephemeral addressing: static, dhcp, or slaac)\n"
    );
    let refused = parse(br#"{"ok":false,"nics":[{"name":"x"}]}"#).unwrap();
    assert!(list_from_netd(&Some(refused)).nics.is_empty());
    assert_eq!(list_from_netd(&Some(v)).nics.len(), 2);
}

#[test]
fn the_web_interface_is_reached_at_private_addresses() {
    assert!(ui_reachable(addr("192.168.1.1")));
    assert!(ui_reachable(addr("169.254.127.6")));
    assert!(!ui_reachable(addr("127.0.0.1")));
    assert!(!ui_reachable(addr("100.64.0.1")));
    assert!(!ui_reachable(addr("8.8.8.8")));
    assert!(!ui_reachable(addr("::1")));
    assert!(ui_reachable(addr("fd53::1")));
    assert!(!ui_reachable(addr("2001:db8::1")));
    assert_eq!(ui_url("a", addr("fd53::1")).as_deref(), Some("https://[fd53::1]/"));
    assert_eq!(ui_url("a", addr("8.8.8.8")), None);
}

#[test]
fn administrators_enter_and_leave() {
    assert!(matches!(
        admin_login(&AuthenticationResult::Denied, true),
        LoginAnswer::Say("login failed\n")
    ));
    let challenge = AuthenticationResult::Challenge(Challenge {
        source: "local".into(),
        required_assurance: Assurance::MultiFactor,
    });
    assert!(matches!(
        admin_login(&challenge, true),
        LoginAnswer::Say("additional authentication required; console login unavailable\n")
    ));
    assert!(matches!(session_command(false, "reboot"), AdminCommand::Expired));
    assert!(matches!(session_command(true, ""), AdminCommand::Status));
    assert_eq!(say(admin_handle("apply")), "usage: apply <json|toml|path>\n");
    assert!(apply_source("/etc/x", false));
    assert!(apply_source("x.toml", true));
}

#[test]
fn a_state_is_sent_as_json() {
    let (_, body) = apply_desired("hostname = \"fw\"\nrevision = 3\nui_exposure = []\n").unwrap();
    assert_eq!(body, r#"{"hostname":"fw","revision":3,"ui_exposure":[]}"#);
    let (_, body) = apply_desired("  {not json").unwrap();
    assert_eq!(body, "  {not json");
    assert!(apply_desired("a = ").unwrap_err().starts_with("parse TOML Desired state: "));
    assert_eq!(write_cmd(&Ok("a".into())), "a\n");
    assert_eq!(write_cmd(&Ok("a\n".into())), "a\n");
    assert_eq!(write_cmd(&Err("no".into())), "no\n");
}

#[test]
fn the_admin_console_shows_the_appliance() {
    let mut f = facts(
        r#"{"hostname":"fw","interfaces":[{"name":"enp1s0","role":"lan"},{"role":""}],"ui_exposure":["enp1s0",1]}"#,
        r#"{"booted":"q/a","staged":"","rollback":"q/b"}"#,
    );
    f.bootstrapped = true;
    f.fwd = true;
    f.netd = true;
    assert_eq!(
        print_admin_status(&f),
        "FWOS Appliance CLI\nhostname: fw\nbootstrapped\nNICs:\n  enp1s0  lan\n  ?\nUI exposure: enp1s0\nfwd: yes\nmgmt: no\nnetd: running\nbooted: q/a\nrollback: q/b\n"
    );
    f.hostname = Some(" kept \n".into());
    assert!(print_admin_status(&f).contains("hostname: kept\n"));
}
