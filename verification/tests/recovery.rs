use fwos::desired::{DesiredState, Iface};
use fwos::identity::Principal;
use fwos::journal::{
    accepted_attribution, accepted_desired, apply_busy, boot_time_ns, expire_pending_confirmation,
    operation_requires_recovery, pending_expired, pending_operation, read_recovery_target, recovery_pending,
    ApplyAttribution, ApplyOperation, ApplyPhase, Expiry, Journal, StateFile,
};
use fwos::json::{encode, parse, Json};
use fwos::recovery::{
    confirm_apply, only_reopen, recover_interrupted_apply, recovered, require_recovery_guard,
    restore_previous_request, start_up, ConfirmAction, Confirmation, Finish, FinishAction, PreviousFile,
    RecoveryStep, Restore, RestoreFacts, StartStep,
};

fn iface(name: &str, role: &str) -> Iface {
    Iface {
        name: name.into(),
        placement: String::new(),
        role: Some(role.into()),
        addresses: Vec::new(),
        vlan: None,
        parent: None,
        dhcp: false,
    }
}

fn state(revision: u64) -> DesiredState {
    DesiredState {
        revision,
        interfaces: vec![iface("enp1s0", "lan"), iface("enp2s0", "wan")],
        ui_exposure: vec!["enp1s0".into()],
        ..DesiredState::default()
    }
}

fn operation(phase: ApplyPhase) -> ApplyOperation {
    ApplyOperation {
        phase,
        accepted: state(4),
        previous_accepted: None,
        previous_attribution: None,
        proposed: Some(state(5)),
        confirmation_id: Some("t".into()),
        applying: Some(who("alice")),
        draft_version: Some("d".into()),
        deadline_boot_ns: Some(100),
        expires_at_unix_ms: Some(7),
    }
}

fn who(username: &str) -> Principal {
    Principal {
        source: "local".into(),
        subject: format!("s-{username}"),
        username: username.into(),
    }
}

fn pending() -> Journal {
    Journal::Found(operation(ApplyPhase::PendingConfirmation))
}

#[test]
fn a_record_says_what_is_to_be_done() {
    let applying = Journal::Found(operation(ApplyPhase::Applying));
    let accepted = Journal::Found(operation(ApplyPhase::Accepted));
    let unreadable = Journal::Unreadable("io".into());
    let garbled = Journal::Undecodable("eof".into());
    assert!(operation_requires_recovery(&applying));
    assert!(!operation_requires_recovery(&accepted));
    assert!(!operation_requires_recovery(&pending()));
    assert!(!operation_requires_recovery(&Journal::Absent));
    assert!(operation_requires_recovery(&unreadable));
    assert!(operation_requires_recovery(&garbled));
    assert!(recovery_pending(true, &Journal::Absent, false));
    assert!(recovery_pending(false, &Journal::Absent, true));
    assert!(!recovery_pending(false, &pending(), false));
    assert!(apply_busy(false, &pending(), false));
    assert!(!apply_busy(false, &accepted, false));
    assert!(apply_busy(false, &garbled, false));
    assert!(pending_operation(Journal::Absent).unwrap().is_none());
    assert_eq!(pending_operation(unreadable).map(|_| ()).unwrap_err(), "read Apply confirmation: io");
    assert_eq!(pending_operation(garbled).map(|_| ()).unwrap_err(), "parse Apply confirmation: eof");
    assert_eq!(pending_operation(pending()).unwrap().unwrap().accepted.revision, 4);
}

#[test]
fn the_accepted_state_has_a_revision() {
    assert_eq!(accepted_desired(StateFile::Found(state(0))).unwrap().revision, 1);
    assert_eq!(accepted_desired(StateFile::Found(state(3))).unwrap().revision, 3);
    assert_eq!(
        accepted_desired(StateFile::Unreadable("io".into())).unwrap_err(),
        "read Accepted Desired state: io"
    );
    assert_eq!(
        accepted_desired(StateFile::Undecodable("eof".into())).unwrap_err(),
        "parse Accepted Desired state: eof"
    );
    let made = ApplyAttribution { revision: 3, applying: None, confirming: None, draft_version: None };
    assert!(accepted_attribution(Some(made), 4).is_none());
}

#[test]
fn changes_expire() {
    let op = operation(ApplyPhase::PendingConfirmation);
    assert_eq!(pending_expired(&op, Ok(99)), Ok(false));
    assert_eq!(pending_expired(&op, Ok(100)), Ok(true));
    assert_eq!(pending_expired(&op, Err("clock".into())), Err("clock".into()));
    let timeless = ApplyOperation { deadline_boot_ns: None, ..op };
    assert_eq!(pending_expired(&timeless, Ok(0)), Err("pending Apply deadline is missing".into()));
    assert_eq!(expire_pending_confirmation(&pending(), Ok(99)), Expiry::Leave);
    assert_eq!(expire_pending_confirmation(&pending(), Ok(100)), Expiry::Recover);
    assert_eq!(expire_pending_confirmation(&pending(), Err("clock".into())), Expiry::Recover);
    assert_eq!(expire_pending_confirmation(&Journal::Absent, Ok(0)), Expiry::Leave);
    assert_eq!(expire_pending_confirmation(&Journal::Unreadable("io".into()), Ok(0)), Expiry::Guard);
    assert_eq!(boot_time_ns(2, 5), 2_000_000_005);
    assert_eq!(boot_time_ns(u64::MAX, 0), u64::MAX);
}

#[test]
fn a_recovery_knows_what_to_go_back_to() {
    let none = || StateFile::Unreadable("none".into());
    let t = read_recovery_target(pending(), none()).unwrap();
    assert!(!t.legacy);
    assert_eq!(t.operation.accepted.revision, 4);
    let t = read_recovery_target(Journal::Absent, StateFile::Found(state(2))).unwrap();
    assert!(t.legacy);
    assert_eq!(t.operation.accepted.revision, 2);
    let bad = |j, f| read_recovery_target(j, f).map(|_| ()).unwrap_err();
    assert_eq!(
        bad(Journal::Found(operation(ApplyPhase::Accepted)), none()),
        "apply operation is already Accepted; reboot to finish an indeterminate commit"
    );
    assert_eq!(bad(Journal::Unreadable("io".into()), none()), "read in-flight apply operation: io");
    assert_eq!(bad(Journal::Undecodable("eof".into()), none()), "parse in-flight apply operation: eof");
    assert_eq!(bad(Journal::Absent, none()), "read legacy in-flight Accepted recovery target: none");
    assert_eq!(
        bad(Journal::Absent, StateFile::Undecodable("x".into())),
        "parse legacy in-flight Accepted recovery target: x"
    );
}

#[test]
fn forwarding_is_stopped_one_way_or_another() {
    let scripts = require_recovery_guard(&read_recovery_target(pending(), StateFile::Found(state(1))));
    assert_eq!(scripts.len(), 2);
    assert!(scripts[0].contains("enp1s0"));
    assert!(scripts[1].contains("table inet fwos-recovery {"));
    assert_eq!(require_recovery_guard(&Err("gone".into())), scripts[1..].to_vec());
}

#[test]
fn going_back_ends_with_forwarding() {
    assert_eq!(
        recover_interrupted_apply(false, true),
        vec![RecoveryStep::Suspend, RecoveryStep::Apply, RecoveryStep::Prune, RecoveryStep::Persist, RecoveryStep::RestorePredecessor, RecoveryStep::RestoreAttribution, RecoveryStep::Publish, RecoveryStep::Finish]
    );
    assert_eq!(recover_interrupted_apply(true, false), vec![RecoveryStep::Suspend, RecoveryStep::Apply, RecoveryStep::Persist, RecoveryStep::Publish, RecoveryStep::Finish]);
    assert!(only_reopen(true, false, false));
    assert!(!only_reopen(true, true, false));
    let (f, action) = Finish::begin(false);
    assert!(matches!(action, FinishAction::RemoveRecord));
    let (f, action) = f.next(Ok(()), "");
    assert!(matches!(action, FinishAction::Open));
    assert!(matches!(f.next(Ok(()), "").1, FinishAction::Done(Ok(()))));
    let (f, _) = Finish::begin(false);
    let (f, action) = f.next(Err("io".into()), "");
    assert!(matches!(action, FinishAction::RequireGuard));
    match f.next(Ok(()), "Ok(())").1 {
        FinishAction::Done(Err(e)) => {
            assert_eq!(e, "complete interrupted apply recovery: io; guard: Ok(())")
        }
        _ => panic!("expected a failure"),
    }
    let (f, action) = Finish::begin(true);
    assert!(matches!(action, FinishAction::Open));
    let (f, action) = f.next(Err("nft".into()), "");
    assert!(matches!(action, FinishAction::RequireGuard));
    match f.next(Err("x".into()), "Err(\"x\")").1 {
        FinishAction::Done(Err(e)) => assert_eq!(e, "reopen restored forwarding: nft; guard: Err(\"x\")"),
        _ => panic!("expected a failure"),
    }
}

#[test]
fn the_start_depends_on_what_was_left_behind() {
    let accepted = Journal::Found(operation(ApplyPhase::Accepted));
    assert_eq!(start_up(true, &pending(), false, true), vec![StartStep::Guard, StartStep::HostPull, StartStep::RecoverApply]);
    assert_eq!(start_up(true, &Journal::Absent, true, true), vec![StartStep::Guard, StartStep::HostPull, StartStep::RecoverApply]);
    assert_eq!(
        start_up(true, &accepted, false, true),
        vec![StartStep::HostPull, StartStep::ApplyAccepted, StartStep::StartServices, StartStep::RemoveRecord]
    );
    assert_eq!(
        start_up(true, &Journal::Absent, false, true),
        vec![StartStep::HostPull, StartStep::ApplyAccepted, StartStep::StartServices]
    );
    for has_state in [false, true] {
        assert_eq!(
            start_up(false, &Journal::Absent, false, has_state),
            vec![StartStep::HostPull, StartStep::RecoverBootstrap, StartStep::FirstBoot]
        );
    }
    assert_eq!(
        start_up(true, &Journal::Absent, false, false),
        vec![StartStep::HostPull, StartStep::FirstBoot]
    );
}

fn confirm(raw: &str, by: Option<Principal>, recovering: bool, j: Journal, now: u64) -> Result<(Confirmation, ConfirmAction), Json> {
    confirm_apply(&parse(raw.as_bytes()).unwrap(), by, recovering, j, Ok(now))
}

fn refused(raw: &str, by: Option<Principal>, recovering: bool, j: Journal) -> String {
    match confirm(raw, by, recovering, j, 0) {
        Err(j) => j.text_member("error").unwrap().to_string(),
        Ok(_) => panic!("expected a refusal"),
    }
}

const REQUEST: &str = r#"{"revision":5,"confirmation_id":"t"}"#;

#[test]
fn confirmations_are_refused() {
    let bob = || Some(who("bob"));
    assert_eq!(refused("{}", bob(), false, pending()), "pending revision is required");
    assert_eq!(refused(r#"{"revision":5}"#, bob(), false, pending()), "Apply confirmation ID is required");
    assert_eq!(refused(REQUEST, None, false, pending()), "current administrator identity is required");
    assert_eq!(refused(REQUEST, bob(), true, pending()), "Apply recovery is in progress");
    assert_eq!(refused(REQUEST, bob(), false, Journal::Absent), "no Apply confirmation is pending");
    assert_eq!(
        refused(REQUEST, bob(), false, Journal::Unreadable("io".into())),
        "read Apply confirmation: io"
    );
    assert_eq!(
        refused(r#"{"revision":6,"confirmation_id":"t"}"#, bob(), false, pending()),
        "pending Apply operation changed"
    );
    assert_eq!(
        refused(r#"{"revision":5,"confirmation_id":"u"}"#, bob(), false, pending()),
        "pending Apply operation changed"
    );
}

#[test]
fn a_change_is_confirmed() {
    let (c, action) = confirm(REQUEST, Some(who("bob")), false, pending(), 99).ok().unwrap();
    assert!(matches!(action, ConfirmAction::WriteAttribution));
    let made = c.attribution();
    assert_eq!(made.revision, 5);
    assert_eq!(made.applying.unwrap().username, "alice");
    assert_eq!(made.confirming.unwrap().username, "bob");
    assert_eq!(c.record().phase, ApplyPhase::Accepted);
    assert!(c.record().proposed.is_none());
    let (c, action) = c.next(Ok(()));
    assert!(matches!(action, ConfirmAction::PersistProposed));
    let (c, action) = c.next(Ok(()));
    assert!(matches!(action, ConfirmAction::RetainAccepted));
    let (c, action) = c.next(Ok(()));
    assert!(matches!(action, ConfirmAction::WriteRecord));
    let (c, action) = c.next(Ok(()));
    assert!(matches!(action, ConfirmAction::RemoveRecord));
    match c.next(Err("io".into())).1 {
        ConfirmAction::Reply(j) => assert_eq!(
            encode(&j),
            r#"{"applying":{"source":"local","subject":"s-alice","username":"alice"},"confirming":{"source":"local","subject":"s-bob","username":"bob"},"ok":true,"outcome":"accepted","revision":5,"status":"accepted"}"#
        ),
        _ => panic!("expected a reply"),
    }
}

#[test]
fn a_change_that_cannot_be_confirmed_is_gone_back_from() {
    let (c, action) = confirm(REQUEST, Some(who("bob")), false, pending(), 100).ok().unwrap();
    assert!(matches!(action, ConfirmAction::Recover));
    match c.next(Ok(())).1 {
        ConfirmAction::Reply(j) => assert_eq!(
            encode(&j),
            r#"{"error":"Apply confirmation expired","ok":false,"outcome":"rejected","restoration":"restored"}"#
        ),
        _ => panic!("expected a reply"),
    }
    let (c, _) = confirm(REQUEST, Some(who("bob")), false, pending(), 0).ok().unwrap();
    let (c, action) = c.next(Err("full".into()));
    assert!(matches!(action, ConfirmAction::Recover));
    match c.next(Err("stuck".into())).1 {
        ConfirmAction::Reply(j) => assert_eq!(
            encode(&j),
            r#"{"error":"full","ok":false,"outcome":"failed","recovery_error":"stuck","restoration":"required"}"#
        ),
        _ => panic!("expected a reply"),
    }
    let nameless = ApplyOperation { proposed: None, ..operation(ApplyPhase::PendingConfirmation) };
    let (c, action) = confirm(REQUEST, Some(who("bob")), false, Journal::Found(nameless), 0).ok().unwrap();
    assert!(matches!(action, ConfirmAction::RequireGuard));
    match c.next(Ok(())).1 {
        ConfirmAction::Reply(j) => assert_eq!(j.text_member("error"), Some("pending Apply revision is missing")),
        _ => panic!("expected a reply"),
    }
}

fn known(previous: PreviousFile) -> RestoreFacts {
    RestoreFacts {
        bootstrapped: true,
        recovering: false,
        pending: false,
        accepted: Ok(state(4)),
        previous,
    }
}

#[test]
fn the_state_before_is_restored() {
    match restore_previous_request(known(PreviousFile::Found(state(3)))) {
        Restore::Apply(s, base) => assert_eq!((s.revision, base), (3, 4)),
        _ => panic!("expected an apply"),
    }
    let recovering = RestoreFacts { recovering: true, ..known(PreviousFile::Missing) };
    assert!(matches!(restore_previous_request(recovering), Restore::Recover));
    let said = |f| match restore_previous_request(f) {
        Restore::Reply(j) => j.text_member("error").unwrap().to_string(),
        _ => panic!("expected a reply"),
    };
    assert_eq!(
        said(RestoreFacts { bootstrapped: false, ..known(PreviousFile::Missing) }),
        "complete Bootstrap before restoring Desired state"
    );
    assert_eq!(
        said(RestoreFacts { pending: true, ..known(PreviousFile::Missing) }),
        "Apply confirmation is pending"
    );
    assert_eq!(
        said(RestoreFacts { accepted: Err("gone".into()), ..known(PreviousFile::Missing) }),
        "gone"
    );
    assert_eq!(said(known(PreviousFile::Missing)), "no previous Accepted network revision is available");
    assert_eq!(
        said(known(PreviousFile::Unreadable("io".into()))),
        "read previous Accepted network revision: io"
    );
    assert_eq!(
        said(known(PreviousFile::Undecodable("x".into()))),
        "parse previous Accepted network revision: x"
    );
    for revision in [0, 4, 5] {
        assert_eq!(
            said(known(PreviousFile::Found(state(revision)))),
            "previous Accepted network revision is not older than the current revision"
        );
    }
    assert_eq!(
        encode(&recovered(Ok(4))),
        r#"{"ok":true,"outcome":"restored","restoration":"restored","revision":4}"#
    );
    assert_eq!(
        encode(&recovered(Err("x".into()))),
        r#"{"error":"x","ok":false,"outcome":"failed","restoration":"required"}"#
    );
}
