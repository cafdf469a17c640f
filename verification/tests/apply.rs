use fwos::apply::{apply_desired_request, Action, ApplyRequest, Attempt, Event, Stage, Written};
use fwos::desired::{DesiredState, Iface};
use fwos::footprint::RollbackFootprint;
use fwos::identity::Principal;
use fwos::journal::{ApplyIntent, ApplyPhase};
use fwos::json::{encode, Json};

fn iface(name: &str, role: &str) -> Iface {
    Iface {
        name: name.into(),
        placement: String::new(),
        role: Some(role.into()),
        addresses: Vec::new(),
        vlan: None,
        parent: None,
        dhcp: false,
    }
}

fn state(revision: u64, confirmation: bool) -> DesiredState {
    DesiredState {
        revision,
        interfaces: vec![iface("enp1s0", "lan"), iface("enp2s0", "wan")],
        ui_exposure: vec!["enp1s0".into()],
        apply_confirmation: confirmation,
        ..DesiredState::default()
    }
}

fn actor() -> Principal {
    Principal {
        source: "local".into(),
        subject: "s1".into(),
        username: "alice".into(),
    }
}

fn request(confirmation: bool, intent: ApplyIntent) -> ApplyRequest {
    ApplyRequest {
        busy: false,
        accepted: Ok(state(4, confirmation)),
        base_revision: Some(4),
        proposed: Ok(state(9, false)),
        actor: Some(actor()),
        draft_version: Some("d1".into()),
        intent,
    }
}

fn refusal(q: ApplyRequest) -> String {
    match apply_desired_request(q, false) {
        Err(j) => encode(&j),
        Ok(_) => panic!("expected a refusal"),
    }
}

fn begun(q: ApplyRequest) -> Attempt {
    match apply_desired_request(q, false) {
        Ok((a, Action::CheckRules(rules))) => {
            assert!(rules.starts_with("flush ruleset\n"));
            a
        }
        _ => panic!("expected an attempt"),
    }
}

fn ok() -> Event {
    Event::Outcome(Ok(()))
}

fn nothing() -> RollbackFootprint {
    RollbackFootprint {
        addresses: Vec::new(),
        links: Vec::new(),
        ports: Vec::new(),
        qdiscs: Vec::new(),
        files: Vec::new(),
    }
}

/// What is done where everything succeeds.
fn success(action: &Action) -> Event {
    match action {
        Action::Capture => Event::Captured(Ok(nothing())),
        Action::ReadKept => Event::Kept(Ok(Some(b"old".to_vec())), Ok(None), true),
        Action::WriteRecord(_) | Action::RemoveRecord => Event::Written(Written::Done),
        Action::SetReady(ready) => Event::Ready(Ok(if *ready { Some("g".into()) } else { None })),
        Action::ApplyProposed => Event::Applied(state(0, false).interfaces, Ok(())),
        Action::ApplyCurrent => Event::Applied(Vec::new(), Ok(())),
        Action::MakeToken => Event::Token(Ok("t".into())),
        Action::ReadClock => Event::Clock(Ok((10, 20))),
        Action::Undo => Event::Undone(Vec::new()),
        Action::RequireGuard => Event::Guarded(Ok(()), "Ok(())".into()),
        _ => ok(),
    }
}

/// Goes on while all succeeds, up to a stage or to the reply.
fn go_on(a: Attempt, action: Action, until: Stage) -> (Attempt, Action) {
    let (mut a, mut action) = (a, action);
    let mut steps = 0;
    while a.stage != until && !matches!(action, Action::Reply(..)) {
        let e = success(&action);
        (a, action) = a.next(e);
        steps += 1;
        assert!(steps < 50);
    }
    (a, action)
}

fn up_to(confirmation: bool, until: Stage) -> (Attempt, Action) {
    let a = begun(request(confirmation, ApplyIntent::Ordinary));
    go_on(a, Action::CheckRules(String::new()), until)
}

fn reply(action: Action) -> (Json, bool) {
    match action {
        Action::Reply(j, broken) => (j, broken),
        _ => panic!("expected a reply"),
    }
}

/// The reply where an event comes at a stage and all else succeeds.
fn ended(confirmation: bool, at: Stage, e: Event) -> (Json, bool) {
    let (a, _) = up_to(confirmation, at);
    let (a, action) = a.next(e);
    reply(go_on(a, action, Stage::Done).1)
}

#[test]
fn requests_are_refused_before_anything_is_done() {
    let q = || request(false, ApplyIntent::Ordinary);
    assert_eq!(
        refusal(ApplyRequest { busy: true, ..q() }),
        r#"{"error":"another Desired state apply or recovery is in progress","ok":false,"outcome":"busy"}"#
    );
    assert_eq!(
        refusal(ApplyRequest { accepted: Err("gone".into()), ..q() }),
        r#"{"error":"gone","ok":false,"outcome":"failed"}"#
    );
    assert_eq!(
        refusal(ApplyRequest { base_revision: Some(3), ..q() }),
        r#"{"error":"Accepted Desired state changed; reload before applying","ok":false,"outcome":"rejected","revision":4}"#
    );
    assert_eq!(
        refusal(ApplyRequest { proposed: Err("bad".into()), ..q() }),
        r#"{"error":"invalid complete Desired state: bad","ok":false,"outcome":"rejected","revision":4}"#
    );
    assert_eq!(
        refusal(ApplyRequest { proposed: Ok(DesiredState::default()), ..q() }),
        r#"{"error":"need at least one WAN","ok":false,"outcome":"rejected","revision":4}"#
    );
    begun(ApplyRequest { base_revision: None, ..q() });
}

#[test]
fn an_apply_is_accepted() {
    let (a, action) = up_to(false, Stage::Done);
    assert_eq!(a.proposed.revision, 5);
    let (j, broken) = reply(action);
    assert!(!broken);
    assert_eq!(
        encode(&j),
        r#"{"accepted":true,"applied":true,"applying":{"source":"local","subject":"s1","username":"alice"},"base_revision":4,"ok":true,"outcome":"accepted","predecessor_revision":4,"revision":5,"status":"accepted"}"#
    );
}

#[test]
fn an_apply_waits_to_be_confirmed() {
    let (a, action) = up_to(true, Stage::Deferring);
    assert!(matches!(action, Action::WriteRecord(ApplyPhase::PendingConfirmation)));
    let record = a.record(ApplyPhase::PendingConfirmation);
    assert_eq!(record.accepted.revision, 4);
    assert_eq!(record.proposed.map(|s| s.revision), Some(5));
    assert_eq!(record.confirmation_id.as_deref(), Some("t"));
    assert_eq!(record.deadline_boot_ns, Some(10 + 120_000_000_000));
    assert_eq!(record.expires_at_unix_ms, Some(20 + 120_000));
    assert_eq!(record.previous_accepted.as_deref(), Some(b"old".as_slice()));
    let (j, _) = reply(a.next(Event::Written(Written::Done)).1);
    assert_eq!(j.text_member("outcome"), Some("pending_confirmation"));
    assert_eq!(j.bool_member("accepted"), Some(false));
    assert_eq!(j.natural_member("expires_at_unix_ms"), Some(20 + 120_000));
    // What was restored in a recovery does not wait.
    let a = begun(request(true, ApplyIntent::RecoveryRestore));
    let (j, _) = reply(go_on(a, Action::CheckRules(String::new()), Stage::Done).1);
    assert_eq!(j.text_member("outcome"), Some("accepted"));
}

#[test]
fn the_record_comes_before_anything_is_touched() {
    let (a, action) = up_to(false, Stage::Journaling);
    assert!(matches!(action, Action::WriteRecord(ApplyPhase::Applying)));
    let record = a.record(ApplyPhase::Applying);
    assert_eq!(record.phase, ApplyPhase::Applying);
    assert_eq!(record.accepted.revision, 4);
    assert!(record.confirmation_id.is_none());
    let made = a.made_by();
    assert_eq!(made.revision, 5);
    assert_eq!(made.draft_version.as_deref(), Some("d1"));
}

#[test]
fn failures_before_the_record_leave_the_state() {
    let (j, broken) = ended(false, Stage::Checking, Event::Outcome(Err("bad rules".into())));
    assert_eq!((j.text_member("outcome"), broken), (Some("rejected"), false));
    let (j, _) = ended(false, Stage::Capturing, Event::Captured(Err("ip".into())));
    assert_eq!(
        encode(&j),
        r#"{"error":"could not inspect live network before apply: ip","ok":false,"outcome":"failed","restoration":"unchanged","revision":4}"#
    );
    let (j, _) = ended(false, Stage::Keeping, Event::Kept(Err("io".into()), Ok(None), false));
    assert_eq!(j.text_member("error"), Some("read retained predecessor: io"));
    let (j, _) = ended(false, Stage::Keeping, Event::Kept(Ok(None), Err("io".into()), false));
    assert_eq!(j.text_member("error"), Some("read prior Apply actors: io"));
    let (j, _) = ended(false, Stage::Journaling, Event::Written(Written::Unencoded("x".into())));
    assert_eq!(j.text_member("error"), Some("encode apply operation: x"));
    let (j, _) = ended(false, Stage::Journaling, Event::Written(Written::Failed("io".into(), false)));
    assert_eq!(j.text_member("restoration"), Some("unchanged"));
    let (j, _) = ended(false, Stage::Journaling, Event::Written(Written::Failed("io".into(), true)));
    assert_eq!(j.text_member("restoration"), Some("required"));
    assert_eq!(j.text_member("recovery_error"), Some("forwarding guard: Ok(())"));
}

#[test]
fn the_last_revision_is_not_passed() {
    let mut q = request(false, ApplyIntent::Ordinary);
    q.accepted = Ok(state(u64::MAX, false));
    q.base_revision = None;
    let (j, _) = reply(go_on(begun(q), Action::CheckRules(String::new()), Stage::Done).1);
    assert_eq!(encode(&j), r#"{"error":"revision limit reached","ok":false,"outcome":"rejected"}"#);
}

#[test]
fn services_that_cannot_be_suspended_are_put_back() {
    let (a, _) = up_to(false, Stage::Suspending);
    let (a, action) = a.next(Event::Ready(Err("stuck".into())));
    assert!(matches!(action, Action::SetReady(true)));
    let (a, action) = a.next(Event::Ready(Ok(Some("g".into()))));
    assert!(matches!(action, Action::RemoveRecord));
    let (j, _) = reply(a.next(Event::Written(Written::Failed("io".into(), false))).1);
    assert_eq!(
        encode(&j),
        r#"{"cleanup_error":"io","error":"could not suspend LAN service activation: stuck","ok":false,"outcome":"failed","restoration":"unchanged","revision":4}"#
    );
    let (a, _) = up_to(false, Stage::Suspending);
    let (a, _) = a.next(Event::Ready(Err("stuck".into())));
    let (a, action) = a.next(Event::Ready(Err("again".into())));
    assert!(matches!(action, Action::RequireGuard));
    let (j, _) = reply(a.next(Event::Guarded(Err("nft".into()), "Err".into())).1);
    assert_eq!(
        j.text_member("recovery_error"),
        Some("restore LAN service readiness: again; block forwarding: nft")
    );
}

#[test]
fn failures_after_the_record_are_gone_back_from() {
    for stage in [
        Stage::Pruning,
        Stage::Waiting,
        Stage::Persisting,
        Stage::Retaining,
        Stage::Attributing,
    ] {
        let (a, _) = up_to(false, stage);
        let (a, action) = a.next(Event::Outcome(Err("broken".into())));
        assert!(matches!(action, Action::RequireGuard), "{stage:?}");
        let (j, broken) = reply(go_on(a, action, Stage::Done).1);
        assert!(!broken);
        assert_eq!(
            encode(&j),
            r#"{"accepted":false,"applied":false,"error":"broken","ok":false,"outcome":"failed","restoration":"restored","revision":4,"status":"restored"}"#,
            "{stage:?}"
        );
    }
    let (j, _) = ended(false, Stage::Publishing, Event::Ready(Ok(None)));
    assert_eq!(j.text_member("error"), Some("LAN service generation was not published"));
    let (j, _) = ended(true, Stage::Naming, Event::Token(Err("no entropy".into())));
    assert_eq!(j.text_member("error"), Some("no entropy"));
    let (j, _) = ended(true, Stage::Timing, Event::Clock(Err("no clock".into())));
    assert_eq!(j.text_member("error"), Some("no clock"));
    let (j, _) = ended(true, Stage::Deferring, Event::Written(Written::Failed("io".into(), true)));
    assert_eq!(j.text_member("error"), Some("retain pending Apply confirmation: io"));
    let (j, _) = ended(true, Stage::Deferring, Event::Written(Written::Unencoded("x".into())));
    assert_eq!(
        j.text_member("error"),
        Some("retain pending Apply confirmation: encode pending Apply confirmation: x")
    );
}

#[test]
fn going_back_tries_everything_and_tells_what_failed() {
    let (a, _) = up_to(false, Stage::Applying);
    let (a, action) = a.next(Event::Applied(Vec::new(), Err("nft".into())));
    assert!(matches!(action, Action::RequireGuard));
    let (a, action) = a.next(Event::Guarded(Err("g".into()), "Err".into()));
    assert!(matches!(action, Action::SetReady(false)));
    let (a, action) = a.next(Event::Ready(Err("s".into())));
    assert!(matches!(action, Action::ApplyCurrent));
    let (a, action) = a.next(Event::Applied(Vec::new(), Err("a".into())));
    assert!(matches!(action, Action::PruneProposed));
    let (a, action) = a.next(Event::Outcome(Err("r".into())));
    assert!(matches!(action, Action::Undo));
    let (a, action) = a.next(Event::Undone(vec!["u".into()]));
    assert!(matches!(action, Action::PersistCurrent));
    let (a, action) = a.next(Event::Outcome(Err("p".into())));
    assert!(matches!(action, Action::RestorePredecessor));
    let (a, action) = a.next(Event::Outcome(Err("q".into())));
    assert!(matches!(action, Action::RestoreAttribution));
    let (j, broken) = reply(a.next(Event::Outcome(Err("t".into()))).1);
    assert!(broken);
    assert_eq!(
        encode(&j),
        r#"{"accepted":false,"applied":false,"error":"nft","ok":false,"outcome":"failed","recovery_error":"block forwarding during recovery: g; suspend tentative LAN services: s; restore live Accepted state: a; remove tentative routes: r; u; restore durable Accepted state: p; restore retained predecessor: q; restore prior Apply actors: t","restoration":"failed","revision":4,"status":"recovery_required"}"#
    );
}

#[test]
fn services_come_back_before_forwarding() {
    let (a, _) = up_to(false, Stage::Pruning);
    let (a, action) = a.next(Event::Outcome(Err("x".into())));
    let (a, action) = go_on(a, action, Stage::Restarting);
    assert!(matches!(action, Action::SetReady(true)));
    let (b, action) = a.next(Event::Ready(Ok(Some("g".into()))));
    assert!(matches!(action, Action::Wait(g) if g == "g"));
    let (b, action) = b.next(ok());
    assert!(matches!(action, Action::FinishRecovery));
    let (_, broken) = reply(b.next(Event::Outcome(Err("open".into()))).1);
    assert!(broken);
    let (j, broken) = ended(false, Stage::Pruning, Event::Outcome(Err("x".into())));
    assert!(!broken);
    assert_eq!(j.text_member("restoration"), Some("restored"));
}

#[test]
fn an_acceptance_that_cannot_be_told_stops_forwarding() {
    let (a, _) = up_to(false, Stage::Accepting);
    let (a, action) = a.next(Event::Written(Written::Failed("io".into(), false)));
    assert!(matches!(action, Action::RequireGuard));
    let (j, _) = reply(a.next(Event::Guarded(Ok(()), "Ok(())".into())).1);
    assert_eq!(
        encode(&j),
        r#"{"error":"durably accept Desired state: io; reboot to resolve the operation","ok":false,"outcome":"indeterminate","recovery_error":"forwarding guard: Ok(())","restoration":"required"}"#
    );
    let (j, _) = ended(false, Stage::Accepting, Event::Written(Written::Unencoded("x".into())));
    assert_eq!(j.text_member("error"), Some("encode Accepted apply operation: x"));
    // A record that stays behind does not undo the acceptance.
    let (j, _) = ended(false, Stage::Cleaning, Event::Written(Written::Failed("io".into(), true)));
    assert_eq!(j.text_member("outcome"), Some("accepted"));
}

#[test]
fn an_attempt_stays_where_an_event_does_not_fit() {
    let (a, _) = up_to(false, Stage::Capturing);
    let (a, action) = a.next(ok());
    assert_eq!(a.stage, Stage::Capturing);
    let (j, broken) = reply(action);
    assert!(matches!(j, Json::Null) && broken);
}
