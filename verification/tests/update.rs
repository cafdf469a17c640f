use fwos::json::{encode, parse, Json};
use fwos::update::{
    allow_insecure_local_registry, assess_health, bootc_images, bootc_outcome, handle_request, health_report,
    image_ref, local_registry_host, pending_is_this_boot, read_pending, reply_ok, run_health,
    should_auto_rollback, ApplianceHealth, HealthAction, HealthFacts, Images, Request, Update, UpdateAction,
    UpdateEvent,
};

fn request(op: &str, image: &str) -> Request {
    Request {
        op: op.into(),
        image: image.into(),
    }
}

fn images(booted: &str, staged: &str, rollback: &str) -> Images {
    Images {
        booted: booted.into(),
        staged: staged.into(),
        rollback: rollback.into(),
    }
}

fn reply(action: UpdateAction) -> (String, bool) {
    match action {
        UpdateAction::Reply(v, reboot) => (encode(&v), reboot),
        _ => panic!("expected a reply"),
    }
}

fn done(u: Update, what: Result<(), String>) -> (Update, UpdateAction) {
    u.next(UpdateEvent::Outcome(what))
}

#[test]
fn local_ip_registry_is_marked_insecure() {
    assert_eq!(
        local_registry_host("10.0.2.2:46481/fwos:next").as_deref(),
        Some("10.0.2.2:46481")
    );
    assert_eq!(
        local_registry_host("localhost:5000/fwos:next").as_deref(),
        Some("localhost:5000")
    );
    assert_eq!(local_registry_host("quay.io/fwos:next"), None);
}

#[test]
fn status_op_reports_bootc_deployments() {
    let (u, action) = handle_request(request("status", ""), false);
    assert!(matches!(action, UpdateAction::ReadImages));
    let (_, action) = u.next(UpdateEvent::Images(images("", "", "")));
    let (s, _) = reply(action);
    assert!(s.contains("\"ok\":true") || s.contains("\"ok\": true"));
    assert!(s.contains("booted"));
    assert!(s.contains("staged"));
    assert!(s.contains("rollback"));
    assert!(!s.contains("unknown op"));
}

#[test]
fn reboot_op_without_admin_is_refused() {
    let (s, reboot) = reply(handle_request(request("reboot", ""), false).1);
    assert!(!s.contains("unknown op"));
    let l = s.to_ascii_lowercase();
    assert!(l.contains("admin") || l.contains("refus"));
    assert!(!s.contains("\"ok\":true") && !s.contains("\"ok\": true"));
    assert!(!reboot);
}

#[test]
fn rollback_op_without_admin_is_refused() {
    let (s, _) = reply(handle_request(request("rollback", ""), false).1);
    assert!(!s.contains("unknown op"));
    let l = s.to_ascii_lowercase();
    assert!(l.contains("admin") || l.contains("refus"));
    assert!(!s.contains("\"ok\":true") && !s.contains("\"ok\": true"));
}

#[test]
fn appliance_health_is_target_netns_and_netd_not_desired_state() {
    assert_eq!(assess_health(true, true, true, true), ApplianceHealth::Healthy);
    assert_eq!(
        assess_health(false, true, true, true),
        ApplianceHealth::DefaultTargetNotReached
    );
    assert_eq!(
        assess_health(true, false, true, true),
        ApplianceHealth::FwdMissing
    );
    assert_eq!(
        assess_health(true, true, false, true),
        ApplianceHealth::MgmtMissing
    );
    assert_eq!(
        assess_health(true, true, true, false),
        ApplianceHealth::NetdNotRunning
    );
}

#[test]
fn auto_rollback_only_after_host_update_boot_with_a_rollback_target() {
    assert!(!should_auto_rollback(
        false,
        true,
        ApplianceHealth::NetdNotRunning
    ));
    assert!(!should_auto_rollback(
        true,
        false,
        ApplianceHealth::NetdNotRunning
    ));
    assert!(!should_auto_rollback(true, true, ApplianceHealth::Healthy));
    assert!(should_auto_rollback(
        true,
        true,
        ApplianceHealth::NetdNotRunning
    ));
    assert!(should_auto_rollback(
        true,
        true,
        ApplianceHealth::FwdMissing
    ));
    assert!(should_auto_rollback(
        true,
        true,
        ApplianceHealth::DefaultTargetNotReached
    ));
}

#[test]
fn pending_matches_booted_image_refs() {
    assert!(pending_is_this_boot(
        "10.0.2.2:5000/fwos:next",
        "10.0.2.2:5000/fwos:next"
    ));
    assert!(pending_is_this_boot(
        "docker://10.0.2.2:5000/fwos:next",
        "10.0.2.2:5000/fwos:next"
    ));
    assert!(pending_is_this_boot(
        "10.0.2.2:5000/fwos:next",
        "10.0.2.2:5000/fwos:next@sha256:abc"
    ));
    assert!(!pending_is_this_boot(
        "10.0.2.2:5000/fwos:next",
        "10.0.2.2:5000/fwos:dev"
    ));
    assert!(!pending_is_this_boot("", "10.0.2.2:5000/fwos:next"));
    assert!(!pending_is_this_boot("10.0.2.2:5000/fwos:next", ""));
}

#[test]
fn bracketed_registries_are_read_without_brackets() {
    assert_eq!(
        local_registry_host("docker://[fd53::1]:5000/fwos").as_deref(),
        Some("[fd53::1]:5000")
    );
    assert_eq!(local_registry_host("127.0.0.1").as_deref(), Some("127.0.0.1"));
    assert_eq!(local_registry_host("/fwos"), None);
    assert_eq!(local_registry_host(""), None);
    assert_eq!(
        allow_insecure_local_registry("localhost/fwos").as_deref(),
        Some("[[registry]]\nlocation = \"localhost\"\ninsecure = true\n")
    );
    assert_eq!(allow_insecure_local_registry("quay.io/fwos"), None);
}

#[test]
fn staging_notes_the_image_before_and_after() {
    let (u, action) = handle_request(request("stage", "quay.io/fwos:next"), true);
    assert!(matches!(action, UpdateAction::WritePending(s) if s == "quay.io/fwos:next"));
    let (u, action) = done(u, Ok(()));
    assert!(matches!(action, UpdateAction::Switch(s) if s == "quay.io/fwos:next"));
    let (u, action) = done(u, Ok(()));
    assert!(matches!(action, UpdateAction::ReadImages));
    let (u, action) = u.next(UpdateEvent::Images(images("a", "b@sha256:1", "c")));
    assert!(matches!(action, UpdateAction::WritePending(s) if s == "b@sha256:1"));
    let (_, action) = done(u, Err("disk full".into()));
    let (s, reboot) = reply(action);
    assert_eq!(
        s,
        r#"{"booted":"a","ok":true,"reboot_required":true,"rollback":"c","staged":"b@sha256:1"}"#
    );
    assert!(!reboot);
}

#[test]
fn failed_staging_takes_the_note_away() {
    let (u, _) = handle_request(request("stage", "x"), true);
    let (u, _) = done(u, Ok(()));
    let (u, action) = done(u, Err("bootc switch failed: no".into()));
    assert!(matches!(action, UpdateAction::ClearPending));
    let (_, action) = done(u, Ok(()));
    assert_eq!(reply(action).0, r#"{"error":"bootc switch failed: no","ok":false}"#);
}

#[test]
fn staging_stops_where_the_image_cannot_be_noted() {
    let (u, _) = handle_request(request("stage", "x"), true);
    let (_, action) = done(u, Err("write: full".into()));
    assert_eq!(reply(action).0, r#"{"error":"write: full","ok":false}"#);
    let (s, _) = reply(handle_request(request("stage", ""), true).1);
    assert_eq!(s, r#"{"error":"Host image required","ok":false}"#);
    let (s, _) = reply(handle_request(request("stage", "x"), false).1);
    assert_eq!(
        s,
        r#"{"error":"Host update refused until an admin exists","ok":false}"#
    );
    let (s, _) = reply(handle_request(request("dance", ""), true).1);
    assert_eq!(s, r#"{"error":"unknown op dance","ok":false}"#);
}

#[test]
fn rolling_back_forgets_the_image_that_was_tried() {
    let (u, action) = handle_request(request("rollback", ""), true);
    assert!(matches!(action, UpdateAction::RollBack));
    let (u, action) = done(u, Ok(()));
    assert!(matches!(action, UpdateAction::ClearPending));
    let (u, action) = done(u, Ok(()));
    assert!(matches!(action, UpdateAction::ReadImages));
    let (_, action) = u.next(UpdateEvent::Images(images("a", "", "b")));
    assert_eq!(
        reply(action).0,
        r#"{"booted":"a","ok":true,"reboot_required":true,"rollback":"b","staged":""}"#
    );
    let (u, _) = handle_request(request("rollback", ""), true);
    let (_, action) = done(u, Err("no".into()));
    assert_eq!(reply(action).0, r#"{"error":"no","ok":false}"#);
}

#[test]
fn only_a_request_to_reboot_reboots() {
    let (s, reboot) = reply(handle_request(request("reboot", ""), true).1);
    assert_eq!(s, r#"{"ok":true,"rebooting":true}"#);
    assert!(reboot);
    assert!(reply_ok(&parse(s.as_bytes()).unwrap()));
    assert!(!reply_ok(&Json::Null));
}

#[test]
fn images_are_found_at_every_place_of_a_report() {
    let nested = parse(
        br#"{"status":{"booted":{"image":{"image":{"image":"q/a"}}},"staged":{"image":{"image":"q/b"}},"rollback":null}}"#,
    )
    .unwrap();
    let found = bootc_images(&nested);
    assert_eq!(found.booted, "q/a");
    assert_eq!(found.staged, "q/b");
    assert_eq!(found.rollback, "");
    let flat = parse(br#"{"booted":{"image":{"image":{"image":"q/c"}}},"staged":{"image":{"image":"q/d"}}}"#).unwrap();
    assert_eq!(image_ref(&flat, "booted"), "q/c");
    assert_eq!(image_ref(&flat, "staged"), "q/d");
    assert_eq!(image_ref(&Json::Null, "booted"), "");
}

#[test]
fn failures_of_bootc_are_told() {
    assert_eq!(bootc_outcome("switch", true, "x", "y"), Ok(()));
    assert_eq!(
        bootc_outcome("switch", false, " out \n", "\terr\n"),
        Err("bootc switch failed: out err".into())
    );
}

fn seen(booted: &str, rollback: &str, netd: bool, late: bool) -> HealthFacts {
    HealthFacts {
        booted: booted.into(),
        rollback: rollback.into(),
        default_target: true,
        fwd: true,
        mgmt: true,
        netd,
        late,
    }
}

#[test]
fn health_is_watched_until_it_is_settled() {
    assert_eq!(run_health("", &seen("a", "b", false, true)), HealthAction::Leave);
    assert_eq!(run_health("a", &seen("c", "b", false, true)), HealthAction::Leave);
    assert_eq!(run_health("a", &seen("a", "b", true, false)), HealthAction::Accept);
    assert_eq!(run_health("a", &seen("a", "b", false, false)), HealthAction::Again);
    assert_eq!(run_health("a", &seen("", "b", true, false)), HealthAction::Again);
    assert_eq!(
        run_health("a", &seen("a", "b", false, true)),
        HealthAction::RollBack(ApplianceHealth::NetdNotRunning)
    );
    assert_eq!(run_health("a", &seen("a", "", false, true)), HealthAction::GiveUp);
    assert_eq!(run_health("a", &seen("", "b", true, true)), HealthAction::Leave);
}

#[test]
fn health_is_reported() {
    assert_eq!(
        health_report(HealthAction::RollBack(ApplianceHealth::FwdMissing)).as_deref(),
        Some("appliance health failed (fwd missing); rolling back")
    );
    assert_eq!(
        health_report(HealthAction::Accept).as_deref(),
        Some("appliance health ok")
    );
    assert_eq!(health_report(HealthAction::GiveUp), None);
    assert_eq!(ApplianceHealth::Healthy.as_str(), "ok");
    assert_eq!(ApplianceHealth::MgmtMissing.as_str(), "mgmt missing");
    assert_eq!(
        ApplianceHealth::DefaultTargetNotReached.as_str(),
        "default target not reached"
    );
    assert_eq!(ApplianceHealth::NetdNotRunning.as_str(), "netd not running");
    assert_eq!(read_pending(&Some(" x\n".into())), "x");
    assert_eq!(read_pending(&None), "");
}
