use fwos::commands::{classify, handle_cmd, received, reply_line, Received, Work};
use fwos::desired::{DesiredState, Iface, Qdisc, StaticRoute, Wg};
use fwos::footprint::{service_files, survey, Answer, Findings, RollbackFootprint, Task, Undo};
use fwos::identity::Principal;
use fwos::journal::{ApplyAttribution, ApplyOperation, ApplyPhase};
use fwos::json::{encode, parse, Json};
use fwos::links::RootQdisc;
use fwos::opt::FirstBootOpt;
use fwos::policy::validate;
use fwos::reports::{
    apply_confirmation_status, error_reply, get_desired, list_nics_reply, ok_reply, outcome_reply,
    review_projection, state_value, was_draft_accepted,
};

fn iface(name: &str, role: &str, addresses: &[&str]) -> Iface {
    Iface {
        name: name.into(),
        placement: String::new(),
        role: Some(role.into()),
        addresses: addresses.iter().map(|a| a.to_string()).collect(),
        vlan: None,
        parent: None,
        dhcp: false,
    }
}

const KEY: &str = "AAAAAAAAAAAAAAAAAAAAAAAAAAAAAAAAAAAAAAAAAAA=";

fn state(revision: u64) -> DesiredState {
    DesiredState {
        revision,
        interfaces: vec![iface("enp1s0", "lan", &[]), iface("enp2s0", "wan", &[])],
        wireguard: vec![Wg {
            name: "wg0".into(),
            private_key: KEY.into(),
            listen_port: Some(51820),
            addresses: Vec::new(),
        }],
        ui_exposure: vec!["enp1s0".into()],
        apply_confirmation: true,
        ..DesiredState::default()
    }
}

fn who(subject: &str) -> Principal {
    Principal {
        source: "local".into(),
        subject: subject.into(),
        username: "alice".into(),
    }
}

#[test]
fn wireguard_keys_are_decoded() {
    assert_eq!(validate(&state(1)), Ok(()));
    for key in ["AAAA", "not base64!", "AAAAAAAAAAAAAAAAAAAAAAAAAAAAAAAAAAAAAAAAAAA", ""] {
        let mut s = state(1);
        s.wireguard[0].private_key = key.into();
        assert_eq!(validate(&s), Err("WireGuard wg0 has an invalid private key".into()), "{key}");
    }
}

#[test]
fn states_are_refused() {
    let told = |change: &dyn Fn(&mut DesiredState)| {
        let mut s = state(1);
        s.interfaces[1].addresses = vec!["192.0.2.1/24".into(), "fd00::1/64".into()];
        assert_eq!(validate(&s), Ok(()));
        change(&mut s);
        validate(&s).unwrap_err()
    };
    let route = |to: &str, via: &str, dev: Option<&str>| StaticRoute {
        to: to.into(),
        via: via.into(),
        dev: dev.map(String::from),
    };
    let routed = |to: &str, via: &str, dev: Option<&str>| told(&|s| s.routes = vec![route(to, via, dev)]);
    assert_eq!(routed("10.0.0.0", "192.0.2.2", None), "route destination 10.0.0.0 must be a CIDR prefix");
    assert_eq!(routed("x/8", "192.0.2.2", None), "invalid route destination x/8");
    assert_eq!(routed("10.0.0.0/33", "192.0.2.2", None), "invalid route destination 10.0.0.0/33");
    assert_eq!(
        routed("10.0.0.1/8", "192.0.2.2", None),
        "invalid or duplicate route destination 10.0.0.1/8"
    );
    assert_eq!(
        told(&|s| s.routes = vec![
            route("fd01::/16", "fd00::2", None),
            route("10.0.0.0/8", "192.0.2.2", None),
            route("fd01:0::/16", "fd00::3", None),
        ]),
        "invalid or duplicate route destination fd01:0::/16"
    );
    assert_eq!(routed("10.0.0.0/8", "x", None), "invalid route next hop x");
    for via in ["fd00::2", "0.0.0.0", "224.0.0.1"] {
        assert_eq!(
            routed("10.0.0.0/8", via, None),
            "route 10.0.0.0/8 needs a usable next hop of the same IP family"
        );
    }
    assert_eq!(
        routed("fd01::/16", "fe80::2", None),
        "route fd01::/16 needs an interface for a link-local next hop"
    );
    assert_eq!(
        routed("10.0.0.0/8", "192.0.2.2", Some("x")),
        "route 10.0.0.0/8 uses unknown interface x"
    );
    assert_eq!(
        routed("10.0.0.0/8", "192.0.2.1", None),
        "route 10.0.0.0/8 next hop 192.0.2.1 needs a configured on-link interface address"
    );
    assert_eq!(told(&|s| s.interfaces[0].role = Some("x".into())), "unknown role x");
    assert_eq!(told(&|s| s.ui_exposure = vec!["x".into()]), "ui_exposure x is not an interface");
    assert_eq!(told(&|s| s.lan_prefix = Some("x".into())), "invalid lan_prefix IPv4 CIDR");
    assert_eq!(told(&|s| s.wireguard[0].name = "a b".into()), "invalid interface name a b");
    assert_eq!(
        told(&|s| s.qdiscs = vec![Qdisc { dev: "x".into(), kind: "fq".into() }]),
        "unsupported qdisc fq on x"
    );
}

#[test]
fn replies_are_short() {
    assert_eq!(encode(&ok_reply()), r#"{"ok":true}"#);
    assert_eq!(encode(&error_reply("x")), r#"{"error":"x","ok":false}"#);
    assert_eq!(encode(&outcome_reply(&Ok(()))), r#"{"ok":true}"#);
    assert_eq!(encode(&outcome_reply(&Err("x".into()))), r#"{"error":"x","ok":false}"#);
    assert_eq!(reply_line(&ok_reply()), "{\"ok\":true}\n");
}

#[test]
fn nics_are_listed() {
    let nics = vec![("enp1s0".to_string(), vec!["10.0.0.1/8".to_string()])];
    assert_eq!(
        encode(&list_nics_reply(&nics, &None)),
        r#"{"nics":[{"addresses":["10.0.0.1/8"],"name":"enp1s0"}],"ok":true,"opt":null}"#
    );
    let o = FirstBootOpt { nic: "enp1s0".into(), mode: "dhcp".into(), cidr: None };
    assert_eq!(
        encode(&list_nics_reply(&Vec::new(), &Some(o))),
        r#"{"nics":[],"ok":true,"opt":{"mode":"dhcp","nic":"enp1s0"}}"#
    );
}

#[test]
fn a_review_does_not_show_keys() {
    let shown = encode(&review_projection(&state(3)));
    assert!(!shown.contains(KEY));
    assert!(shown.contains(r#""wireguard":[{"addresses":[],"listen_port":51820,"name":"wg0"}]"#));
    assert!(encode(&state_value(&state(3))).contains(KEY));
    let reply = get_desired(&Ok(state(3)));
    assert_eq!(reply.natural_member("revision"), Some(3));
    assert_eq!(reply.bool_member("ok"), Some(true));
    assert_eq!(encode(&get_desired(&Err("gone".into()))), r#"{"error":"gone","ok":false}"#);
}

fn pending() -> ApplyOperation {
    ApplyOperation {
        phase: ApplyPhase::PendingConfirmation,
        accepted: state(3),
        previous_accepted: None,
        previous_attribution: None,
        proposed: Some(state(4)),
        confirmation_id: Some("t".into()),
        applying: Some(who("s")),
        draft_version: None,
        deadline_boot_ns: Some(1),
        expires_at_unix_ms: Some(2),
    }
}

fn made(revision: u64) -> ApplyAttribution {
    ApplyAttribution {
        revision,
        applying: Some(who("s")),
        confirming: None,
        draft_version: Some("d".into()),
    }
}

#[test]
fn a_pending_change_is_shown() {
    let status = apply_confirmation_status(&Ok(state(3)), &Ok(Some(pending())), Some(made(3)));
    assert_eq!(status.bool_member("enabled"), Some(true));
    assert_eq!(status.natural_member("accepted_revision"), Some(3));
    let shown = status.get("pending").unwrap();
    assert_eq!(shown.natural_member("revision"), Some(4));
    assert_eq!(shown.text_member("confirmation_id"), Some("t"));
    assert_eq!(shown.natural_member("base_revision"), Some(3));
    assert_eq!(status.get("last_accepted").unwrap().natural_member("revision"), Some(3));
    assert!(!encode(&status).contains(KEY));
    let status = apply_confirmation_status(&Ok(state(3)), &Ok(None), Some(made(2)));
    assert!(matches!(status.get("pending"), Some(Json::Null)));
    assert!(matches!(status.get("last_accepted"), Some(Json::Null)));
    let told = |j: Json| j.text_member("error").unwrap().to_string();
    assert_eq!(told(apply_confirmation_status(&Err("a".into()), &Err("p".into()), None)), "a");
    assert_eq!(told(apply_confirmation_status(&Ok(state(3)), &Err("p".into()), None)), "p");
    let nameless = ApplyOperation { proposed: None, ..pending() };
    assert_eq!(
        told(apply_confirmation_status(&Ok(state(3)), &Ok(Some(nameless)), None)),
        "pending Apply revision is missing"
    );
}

#[test]
fn a_draft_belongs_to_its_owner() {
    let request = parse(br#"{"revision":3,"draft_version":"d"}"#).unwrap();
    let ask = |owner: &str, made: Option<ApplyAttribution>| {
        was_draft_accepted(&request, &Some(who(owner)), false, &Ok(state(3)), made).bool_member("accepted")
    };
    assert_eq!(ask("s", Some(made(3))), Some(true));
    assert_eq!(ask("other", Some(made(3))), Some(false));
    assert_eq!(ask("s", Some(made(2))), Some(false));
    assert_eq!(ask("s", None), Some(false));
    let told = |raw: &str, owner: Option<Principal>, recovering: bool, accepted: Result<DesiredState, String>| {
        was_draft_accepted(&parse(raw.as_bytes()).unwrap(), &owner, recovering, &accepted, None)
            .text_member("error")
            .unwrap()
            .to_string()
    };
    let whole = r#"{"revision":3,"draft_version":"d"}"#;
    assert_eq!(
        told(whole, Some(who("s")), true, Ok(state(3))),
        "Accepted Desired state is unavailable during recovery"
    );
    assert_eq!(told("{}", Some(who("s")), false, Ok(state(3))), "Accepted revision is required");
    assert_eq!(told(r#"{"revision":3}"#, Some(who("s")), false, Ok(state(3))), "draft version is required");
    assert_eq!(told(whole, None, false, Ok(state(3))), "draft owner is required");
    assert_eq!(told(whole, Some(who("s")), false, Err("gone".into())), "gone");
}

#[test]
fn what_is_received_is_sorted() {
    assert!(matches!(received(b"", true), Received::Nothing));
    assert!(matches!(received(br#"{"op":"list"}"#, false), Received::Command(_)));
    assert!(matches!(received(br#"{"op":1}"#, true), Received::Bare(_)));
    match received(br#"{"revision":1}"#, false) {
        Received::Reply(j) => assert_eq!(
            encode(&j),
            r#"{"error":"complete Bootstrap before applying Desired state","ok":false}"#
        ),
        _ => panic!("expected a reply"),
    }
    match received(b"{", true) {
        Received::Reply(j) => assert!(j.text_member("error").unwrap().starts_with("EOF while parsing an object")),
        _ => panic!("expected a reply"),
    }
    match classify(Err("bad".into()), true) {
        Received::Reply(j) => assert_eq!(encode(&j), r#"{"error":"bad","ok":false}"#),
        _ => panic!("expected a reply"),
    }
}

#[test]
fn commands_are_sorted() {
    let work = |raw: &str, owned: bool, recovering: bool| handle_cmd(&parse(raw.as_bytes()).unwrap(), owned, recovering);
    let told = |raw: &str, owned: bool, recovering: bool| match work(raw, owned, recovering) {
        Work::Reply(j) => j.text_member("error").unwrap().to_string(),
        _ => panic!("expected a reply"),
    };
    assert!(matches!(work(r#"{"op":"list"}"#, false, false), Work::List));
    assert!(matches!(
        work(r#"{"op":"opt","nic":"x","mode":"dhcp"}"#, false, false),
        Work::Choose(o) if o.nic == "x" && o.mode == "dhcp"
    ));
    assert_eq!(told(r#"{"op":"opt"}"#, false, false), "missing nic");
    assert_eq!(told(r#"{"op":"opt","nic":"x","mode":"dhcp"}"#, true, false), "already bootstrapped");
    assert!(matches!(work(r#"{"op":"bootstrap_apply"}"#, false, false), Work::Bootstrap));
    assert!(matches!(work(r#"{"op":"get_desired"}"#, true, false), Work::Desired));
    assert_eq!(
        told(r#"{"op":"get_desired"}"#, true, true),
        "the previous Desired state apply needs recovery before Accepted state is available"
    );
    assert!(matches!(work(r#"{"op":"get_apply_confirmation"}"#, true, true), Work::Confirmation));
    assert!(matches!(work(r#"{"op":"was_draft_accepted"}"#, true, false), Work::Draft));
    assert!(matches!(work(r#"{"op":"confirm_apply"}"#, true, false), Work::Confirm));
    assert!(matches!(work(r#"{"op":"restore_previous"}"#, true, false), Work::Restore));
    assert_eq!(
        told(r#"{"op":"apply_desired"}"#, false, false),
        "complete Bootstrap before applying Desired state"
    );
    assert_eq!(told(r#"{"op":"apply_desired"}"#, true, false), "base_revision is required");
    match work(r#"{"op":"apply_desired","base_revision":3,"desired":{"a":1},"draft_version":"d"}"#, true, false) {
        Work::Apply(desired, base, draft) => {
            assert_eq!(encode(&desired), r#"{"a":1}"#);
            assert_eq!((base, draft.as_deref()), (3, Some("d")));
        }
        _ => panic!("expected an apply"),
    }
    assert!(matches!(
        work(r#"{"op":"apply_desired","base_revision":3}"#, true, false),
        Work::Apply(Json::Null, 3, None)
    ));
    assert_eq!(told(r#"{"op":"fly"}"#, true, false), "unknown op fly");
}

fn next_state() -> DesiredState {
    let mut s = state(2);
    s.interfaces[0].addresses = vec!["10.0.0.1/8".into()];
    s.interfaces.push(Iface { vlan: Some(7), ..iface("enp1s0.7", "lan", &[]) });
    s.qdiscs.push(Qdisc { dev: "enp1s0".into(), kind: "fq".into() });
    s.routes.push(StaticRoute { to: "x".into(), via: "y".into(), dev: None });
    s
}

fn root(kind: &str) -> RootQdisc {
    RootQdisc { kind: kind.into(), options: Json::Null }
}

fn footprint() -> RollbackFootprint {
    let s = survey(&state(1), &next_state());
    assert_eq!(s.addresses, [("enp1s0".to_string(), "10.0.0.1/8".to_string())]);
    assert_eq!(s.links, ["enp1s0.7", "wg0"]);
    assert_eq!(s.tunnels, ["wg0"]);
    assert_eq!(s.qdiscs, [("enp1s0".to_string(), true)]);
    RollbackFootprint::capture(
        &s,
        &Findings {
            fresh: vec![true],
            missing: vec![true, false],
            ports: vec![Some(51820)],
            roots: vec![Some(Some(root("fq_codel")))],
            files: vec![("a".into(), Some(b"x".to_vec())), ("b".into(), None)],
        },
    )
}

#[test]
fn only_what_an_apply_adds_is_undone() {
    let f = footprint();
    assert_eq!(f.addresses, [("enp1s0".to_string(), "10.0.0.1/8".to_string())]);
    assert_eq!(f.links, ["enp1s0.7"]);
    assert_eq!(f.ports, [("wg0".to_string(), 51820)]);
    assert!(f.qdiscs.len() == 1 && f.qdiscs[0].2);
    let s = survey(&next_state(), &next_state());
    assert!(s.addresses.is_empty());
    assert_eq!(s.qdiscs, [("enp1s0".to_string(), false)]);
    assert_eq!(
        service_files(),
        [
            "/var/lib/fwos/kea/kea-dhcp4.conf",
            "/var/lib/fwos/kea/kea-dhcp6.conf",
            "/var/lib/fwos/unbound/unbound.conf"
        ]
    );
}

fn told(task: &Task) -> String {
    match task {
        Task::InspectAddress(d, c) => format!("address {c} on {d}?"),
        Task::InspectLink(n) => format!("link {n}?"),
        Task::InspectPort(n) => format!("port of {n}?"),
        Task::InspectQdisc(d) => format!("qdisc on {d}?"),
        Task::Ip(a) => format!("ip {}", a.join(" ")),
        Task::Wg(a) => format!("wg {}", a.join(" ")),
        Task::Tc(a) => format!("tc {}", a.join(" ")),
        Task::Restore(p, c) => format!("restore {p} {}", c.is_some()),
        Task::Finished => "finished".into(),
    }
}

fn undone(answers: Vec<Answer>) -> (Vec<String>, Vec<String>) {
    let mut u = Undo::begin(footprint());
    let mut tasks = vec![told(&u.task())];
    for a in answers {
        u = u.next(a);
        tasks.push(told(&u.task()));
    }
    (tasks, u.failures)
}

#[test]
fn everything_tentative_is_taken_back() {
    let (tasks, failures) = undone(vec![
        Answer::Present(Ok(true)),
        Answer::Outcome(Ok(())),
        Answer::Present(Ok(true)),
        Answer::Outcome(Ok(())),
        Answer::Port(Ok(1)),
        Answer::Outcome(Ok(())),
        Answer::Port(Ok(51820)),
        Answer::Root(Ok(Some(root("fq")))),
        Answer::Outcome(Ok(())),
        Answer::Root(Ok(Some(root("fq_codel")))),
        Answer::Outcome(Ok(())),
        Answer::Outcome(Ok(())),
    ]);
    assert_eq!(
        tasks,
        [
            "address 10.0.0.1/8 on enp1s0?",
            "ip addr del 10.0.0.1/8 dev enp1s0",
            "link enp1s0.7?",
            "ip link delete dev enp1s0.7",
            "port of wg0?",
            "wg set wg0 listen-port 51820",
            "port of wg0?",
            "qdisc on enp1s0?",
            "tc qdisc replace dev enp1s0 root fq_codel",
            "qdisc on enp1s0?",
            "restore a true",
            "restore b false",
            "finished",
        ]
    );
    assert!(failures.is_empty());
}

#[test]
fn what_is_gone_is_left_alone() {
    let (tasks, failures) = undone(vec![
        Answer::Present(Ok(false)),
        Answer::Present(Ok(false)),
        Answer::Port(Ok(51820)),
        Answer::Root(Ok(Some(root("fq_codel")))),
        Answer::Outcome(Ok(())),
        Answer::Outcome(Ok(())),
    ]);
    assert_eq!(tasks.len(), 7);
    assert_eq!(tasks.last().map(String::as_str), Some("finished"));
    assert!(failures.is_empty());
}

#[test]
fn failures_do_not_stop_the_undoing() {
    let e = || Err("e".to_string());
    let (tasks, failures) = undone(vec![
        Answer::Present(Err("e".into())),
        Answer::Present(Ok(true)),
        Answer::Outcome(e()),
        Answer::Port(Ok(1)),
        Answer::Outcome(e()),
        Answer::Port(Ok(1)),
        Answer::Root(Ok(None)),
        Answer::Outcome(e()),
        Answer::Root(Err("e".into())),
        Answer::Outcome(e()),
        Answer::Outcome(e()),
    ]);
    assert_eq!(tasks.last().map(String::as_str), Some("finished"));
    assert_eq!(
        failures,
        [
            "inspect tentative address on enp1s0: e",
            "remove tentative link enp1s0.7: e",
            "restore WireGuard listen port on wg0: e",
            "WireGuard listen port on wg0 was not restored",
            "restore qdisc on enp1s0: e",
            "verify restored qdisc on enp1s0: e",
            "e",
            "e",
        ]
    );
}
