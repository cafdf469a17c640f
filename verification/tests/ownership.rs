use fwos::bootstrap::{
    bootstrap_apply, bootstrap_reply, BootstrapFailure, OwnAction, OwnEvent, Ownership, OwnershipFacts,
};
use fwos::desired::{DesiredState, Iface};
use fwos::json::encode;

fn iface(name: &str, role: &str, vlan: Option<u16>, parent: Option<&str>) -> Iface {
    Iface {
        name: name.into(),
        placement: String::new(),
        role: Some(role.into()),
        addresses: Vec::new(),
        vlan,
        parent: parent.map(str::to_string),
        dhcp: false,
    }
}

fn state() -> DesiredState {
    DesiredState {
        interfaces: vec![
            iface("enp1s0", "lan", None, None),
            iface("enp2s0.7", "wan", Some(7), Some("enp2s0")),
        ],
        ui_exposure: vec!["enp1s0".into()],
        hostname: Some("fw".into()),
        ..DesiredState::default()
    }
}

fn facts() -> OwnershipFacts {
    OwnershipFacts {
        admin_subject: Some("s1".into()),
        desired: Some(Ok(state())),
        subject: Some("s1".into()),
        hostname: Some("fw".into()),
    }
}

fn ok() -> OwnEvent {
    OwnEvent::Outcome(Ok(()))
}

fn failed(e: &str) -> OwnEvent {
    OwnEvent::Outcome(Err(e.into()))
}

fn begun() -> Ownership {
    let (o, action) = bootstrap_apply(facts(), false);
    assert!(matches!(action, OwnAction::WriteAttempt(v) if v == vec!["enp2s0.7".to_string()]));
    o.unwrap()
}

/// The attempt with its mark about to be written.
fn marking() -> Ownership {
    let (o, action) = begun().next(ok());
    assert!(matches!(action, OwnAction::Apply));
    let (o, action) = o.next(OwnEvent::Applied(state().interfaces, Ok(())));
    assert!(matches!(action, OwnAction::Persist));
    let (o, action) = o.next(ok());
    assert!(matches!(action, OwnAction::Recheck));
    let (o, action) = o.next(OwnEvent::Found(Some("s1".into()), Some("fw".into())));
    assert!(matches!(action, OwnAction::WriteMarker));
    o
}

fn over(action: OwnAction) -> Result<(), BootstrapFailure> {
    match action {
        OwnAction::Done(r) => r,
        _ => panic!("expected the end"),
    }
}

/// What is told where the mark is not there and the attempt is undone.
fn incomplete(o: Ownership, action: OwnAction) -> String {
    assert!(matches!(action, OwnAction::Ask));
    let (o, action) = o.next(OwnEvent::Answer(false));
    assert!(matches!(action, OwnAction::Recover));
    match over(o.next(ok()).1) {
        Err(BootstrapFailure::Incomplete(e)) => e,
        _ => panic!("expected an attempt that is undone"),
    }
}

#[test]
fn ownership_is_taken_step_by_step() {
    let (o, action) = marking().next(ok());
    assert!(matches!(action, OwnAction::Publish));
    let (o, action) = o.next(ok());
    assert!(matches!(action, OwnAction::SetReady));
    let (o, action) = o.next(ok());
    assert!(matches!(action, OwnAction::CleanUp));
    let r = over(o.next(ok()).1);
    assert_eq!(encode(&bootstrap_reply(&r)), r#"{"ok":true}"#);
}

#[test]
fn an_owner_stays() {
    let (o, action) = bootstrap_apply(facts(), true);
    assert!(o.is_none());
    let r = over(action);
    assert_eq!(
        encode(&bootstrap_reply(&r)),
        r#"{"bootstrapped":true,"error":"already bootstrapped","next_action":"sign in to review and repair configuration","ok":false}"#
    );
}

#[test]
fn requests_for_ownership_are_refused() {
    let refused = |f| {
        let (o, action) = bootstrap_apply(f, false);
        incomplete(o.unwrap(), action)
    };
    assert_eq!(
        refused(OwnershipFacts { admin_subject: None, ..facts() }),
        "missing Bootstrap administrator binding"
    );
    assert_eq!(
        refused(OwnershipFacts { desired: None, ..facts() }),
        "missing Bootstrap Desired state"
    );
    assert_eq!(
        refused(OwnershipFacts { desired: Some(Err("bad".into())), ..facts() }),
        "invalid Bootstrap Desired state: bad"
    );
    assert_eq!(
        refused(OwnershipFacts { desired: Some(Ok(DesiredState::default())), ..facts() }),
        "need at least one WAN"
    );
    assert_eq!(
        refused(OwnershipFacts { subject: Some("s2".into()), ..facts() }),
        "Bootstrap administrator changed before apply"
    );
    let nameless = DesiredState { hostname: None, ..state() };
    assert_eq!(
        refused(OwnershipFacts { desired: Some(Ok(nameless)), ..facts() }),
        "missing Bootstrap hostname"
    );
    assert_eq!(
        refused(OwnershipFacts { hostname: None, ..facts() }),
        "Bootstrap hostname is not durable"
    );
}

#[test]
fn changes_during_the_attempt_undo_it() {
    let rechecked = |s: Option<&str>, h: Option<&str>| {
        let (o, _) = begun().next(ok());
        let (o, _) = o.next(OwnEvent::Applied(state().interfaces, Ok(())));
        let (o, _) = o.next(ok());
        let (o, action) = o.next(OwnEvent::Found(s.map(str::to_string), h.map(str::to_string)));
        incomplete(o, action)
    };
    assert_eq!(rechecked(Some("s2"), Some("fw")), "Bootstrap administrator changed during apply");
    assert_eq!(rechecked(None, Some("fw")), "Bootstrap administrator changed during apply");
    assert_eq!(rechecked(Some("s1"), Some("other")), "Bootstrap hostname changed during apply");
    assert_eq!(rechecked(Some("s1"), None), "Bootstrap hostname changed during apply");
}

#[test]
fn failures_before_the_mark_undo_the_attempt() {
    let (o, action) = begun().next(failed("disk"));
    assert_eq!(incomplete(o, action), "disk");
    let (o, _) = begun().next(ok());
    let (o, action) = o.next(OwnEvent::Applied(Vec::new(), Err("nft".into())));
    assert_eq!(incomplete(o, action), "nft");
    let (o, action) = begun().next(failed("disk"));
    assert!(matches!(action, OwnAction::Ask));
    let (o, _) = o.next(OwnEvent::Answer(false));
    let r = over(o.next(failed("nft")).1);
    assert_eq!(
        encode(&bootstrap_reply(&r)),
        r#"{"bootstrapped":false,"error":"disk; Bootstrap recovery failed: nft","ok":false}"#
    );
}

#[test]
fn an_uncertain_mark_is_looked_at() {
    let (o, action) = marking().next(failed("fsync"));
    assert!(matches!(action, OwnAction::ProbeMarker));
    let (_, action) = o.next(OwnEvent::Answer(true));
    assert!(matches!(action, OwnAction::Publish));

    let (o, _) = marking().next(failed("fsync"));
    let (o, action) = o.next(OwnEvent::Answer(false));
    assert!(matches!(action, OwnAction::RemoveMarker));
    let (o, action) = o.next(ok());
    assert_eq!(incomplete(o, action), "Bootstrap marker was not durable: fsync");

    let (o, _) = marking().next(failed("fsync"));
    let (o, _) = o.next(OwnEvent::Answer(false));
    let r = over(o.next(failed("io")).1);
    assert_eq!(
        encode(&bootstrap_reply(&r)),
        r#"{"bootstrapped":null,"error":"Bootstrap marker durability is uncertain: fsync; cleanup: io","next_action":"do not retry; reboot and check Appliance status or console","ok":false,"outcome":"indeterminate"}"#
    );
}

#[test]
fn failures_after_the_mark_keep_the_owner() {
    let (o, _) = marking().next(ok());
    let (o, action) = o.next(failed("kea"));
    assert!(matches!(action, OwnAction::Ask));
    match over(o.next(OwnEvent::Answer(true)).1) {
        Err(BootstrapFailure::Owned(e)) => assert_eq!(e, "Bootstrap ownership is recorded; kea"),
        _ => panic!("expected an owner"),
    }
}

#[test]
fn an_attempt_does_not_go_on_out_of_turn() {
    match over(begun().next(OwnEvent::Answer(true)).1) {
        Err(BootstrapFailure::Indeterminate(e)) => assert_eq!(e, "Bootstrap was continued out of turn"),
        _ => panic!("expected that it cannot be told"),
    }
}
