use fwos::bootstrap::{desired_value, valid_hostname, validate_bootstrap, Bootstrap};
use fwos::commands::{classify, handle_cmd, Received, Work};
use fwos::desired::Iface;
use fwos::http::{body_bytes, write_response, Content, HttpRequest, HttpResponse};
use fwos::identity::{
    authenticate, Assurance, Authentication, AuthenticationResult, Challenge, IdentityConfiguration, LocalAccount,
    Source, SourceKind,
};
use fwos::ip::IpAddr;
use fwos::json::{encode, parse, Json};
use fwos::web::{
    bootstrap, bootstrap_response, dispatch, file_name, list_nics, login, logout, mime, netd_apply, netd_cmd,
    refuse_login, same_origin_json, session_token, setup_request, show_bind, static_response, status_json, status_response,
    takes_turns, wildcard_bind_addrs, BindAddr, Route, Sessions,
};

#[test]
fn ui_listens_wildcard_so_dnat_lands() {
    let addrs = wildcard_bind_addrs();
    assert!(addrs.iter().any(|a| a.ip == IpAddr::V4(0)));
    assert!(addrs.iter().any(|a| a.ip == IpAddr::V6(0)));
}

fn texts(v: Option<&Json>) -> Vec<String> {
    match v.and_then(|x| x.as_list()) {
        Some(l) => l.iter().map(|x| x.as_str().unwrap().to_string()).collect(),
        None => Vec::new(),
    }
}

fn text(v: &Json, key: &str) -> String {
    v.text_member(key).unwrap_or("").to_string()
}

fn boot_iface(v: &Json) -> Iface {
    Iface {
        name: v.text_member("name").unwrap().to_string(),
        placement: text(v, "placement"),
        role: v.text_member("role").map(str::to_string),
        addresses: texts(v.get("addresses")),
        vlan: v.natural_member("vlan").map(|n| n as u16),
        parent: v.text_member("parent").map(str::to_string),
        dhcp: v.bool_member("dhcp").unwrap_or(false),
    }
}

fn parse_boot(raw: &str) -> Bootstrap {
    let v = parse(raw.as_bytes()).unwrap();
    Bootstrap {
        hostname: v.text_member("hostname").unwrap().to_string(),
        admin: v.text_member("admin").unwrap().to_string(),
        password: v.text_member("password").unwrap().to_string(),
        interfaces: match v.get("interfaces").and_then(|x| x.as_list()) {
            Some(l) => l.iter().map(boot_iface).collect(),
            None => Vec::new(),
        },
        ui_exposure: texts(v.get("ui_exposure")),
        lan_prefix: text(&v, "lan_prefix"),
        dhcp_pool: text(&v, "dhcp_pool"),
        wan_pd: text(&v, "wan_pd"),
    }
}

#[test]
fn bootstrap_accepts_wan_lan_ui_exposure() {
    let req = parse_boot(
        r#"{"hostname":"fwos-box","admin":"alice","password":"secret12","interfaces":[{"name":"enp1s0","role":"lan","addresses":["192.168.1.1/24"]},{"name":"enp2s0","role":"wan","addresses":["192.0.2.1/24"]}],"ui_exposure":["enp1s0"],"lan_prefix":"192.168.1.0/24"}"#,
    );
    assert!(validate_bootstrap(&req).is_ok());
}

#[test]
fn bootstrap_rejects_placement_mgmt() {
    let req = parse_boot(
        r#"{"hostname":"fwos-box","admin":"alice","password":"secret12","interfaces":[{"name":"enp1s0","placement":"mgmt"},{"name":"enp2s0","role":"wan","addresses":["192.0.2.1/24"]}],"lan_prefix":"192.168.1.0/24"}"#,
    );
    let err = validate_bootstrap(&req).unwrap_err();
    assert!(err.contains("placement=mgmt"), "{err}");
}

#[test]
fn bootstrap_rejects_wan_in_exposure_and_empty_set() {
    let req = parse_boot(
        r#"{"hostname":"fwos-box","admin":"alice","password":"secret12","interfaces":[{"name":"enp1s0","role":"lan"},{"name":"enp2s0","role":"wan"}],"ui_exposure":["enp2s0"]}"#,
    );
    let err = validate_bootstrap(&req).unwrap_err();
    assert!(err.contains("WAN"), "{err}");
    let req = parse_boot(
        r#"{"hostname":"fwos-box","admin":"alice","password":"secret12","interfaces":[{"name":"enp1s0","role":"lan"},{"name":"enp2s0","role":"wan"}]}"#,
    );
    let err = validate_bootstrap(&req).unwrap_err();
    assert!(err.contains("ui_exposure"), "{err}");
}

#[test]
fn bootstrap_rejects_wan_lan_same_parent_tag() {
    let req = parse_boot(
        r#"{"hostname":"fwos-box","admin":"alice","password":"secret12","interfaces":[{"name":"enp1s0","role":"wan"},{"name":"enp1s0","role":"lan"}],"ui_exposure":["enp1s0"]}"#,
    );
    let err = validate_bootstrap(&req).unwrap_err();
    assert!(err.contains("parent") && err.contains("tag"), "{err}");
}

#[test]
fn bootstrap_rejects_wan_lan_same_parent_vid() {
    let req = parse_boot(
        r#"{"hostname":"fwos-box","admin":"alice","password":"secret12","interfaces":[{"name":"enp1s0.100","role":"wan","parent":"enp1s0","vlan":100},{"name":"lan100","role":"lan","parent":"enp1s0","vlan":100}],"ui_exposure":["lan100"]}"#,
    );
    let err = validate_bootstrap(&req).unwrap_err();
    assert!(err.contains("parent") && err.contains("tag"), "{err}");
}

#[test]
fn bootstrap_one_nic_wan_untagged_lan_tagged() {
    let req = parse_boot(
        r#"{"hostname":"fwos-box","admin":"alice","password":"secret12","interfaces":[{"name":"enp1s0","role":"wan","addresses":["192.0.2.1/24"]},{"name":"enp1s0.42","role":"lan","parent":"enp1s0","vlan":42,"addresses":["192.168.1.1/24"]}],"ui_exposure":["enp1s0.42"],"lan_prefix":"192.168.1.0/24"}"#,
    );
    assert!(validate_bootstrap(&req).is_ok());
}

#[test]
fn bootstrap_one_nic_wan_tagged_lan_untagged() {
    let req = parse_boot(
        r#"{"hostname":"fwos-box","admin":"alice","password":"secret12","interfaces":[{"name":"enp1s0.100","role":"wan","parent":"enp1s0","vlan":100,"addresses":["192.0.2.1/24"]},{"name":"enp1s0","role":"lan","addresses":["192.168.1.1/24"]}],"ui_exposure":["enp1s0"],"lan_prefix":"192.168.1.0/24"}"#,
    );
    assert!(validate_bootstrap(&req).is_ok());
}

#[test]
fn bootstrap_one_nic_both_tagged() {
    let req = parse_boot(
        r#"{"hostname":"fwos-box","admin":"alice","password":"secret12","interfaces":[{"name":"enp1s0","role":"unused"},{"name":"enp1s0.100","role":"wan","parent":"enp1s0","vlan":100,"addresses":["192.0.2.1/24"]},{"name":"enp1s0.200","role":"lan","parent":"enp1s0","vlan":200,"addresses":["192.168.1.1/24"]}],"ui_exposure":["enp1s0.200"],"lan_prefix":"192.168.1.0/24"}"#,
    );
    assert!(validate_bootstrap(&req).is_ok());
}

#[test]
fn bootstrap_one_nic_rejects_wan_in_exposure() {
    let req = parse_boot(
        r#"{"hostname":"fwos-box","admin":"alice","password":"secret12","interfaces":[{"name":"enp1s0","role":"wan","addresses":["192.0.2.1/24"]},{"name":"enp1s0.42","role":"lan","parent":"enp1s0","vlan":42}],"ui_exposure":["enp1s0"]}"#,
    );
    let err = validate_bootstrap(&req).unwrap_err();
    assert!(err.contains("WAN"), "{err}");
}

#[test]
fn bootstrap_accepts_role_mgmt_oob_only() {
    let req = parse_boot(
        r#"{"hostname":"fwos-box","admin":"alice","password":"secret12","interfaces":[{"name":"enp1s0","role":"lan","addresses":["192.168.1.1/24"]},{"name":"enp2s0","role":"wan","addresses":["192.0.2.1/24"]},{"name":"enp3s0","role":"mgmt","addresses":["10.0.2.15/24"]}],"ui_exposure":["enp3s0"],"lan_prefix":"192.168.1.0/24"}"#,
    );
    assert!(
        validate_bootstrap(&req).is_ok(),
        "{:?}",
        validate_bootstrap(&req).err()
    );
}

#[test]
fn bootstrap_accepts_mgmt_and_optional_lan_exposure() {
    let req = parse_boot(
        r#"{"hostname":"fwos-box","admin":"alice","password":"secret12","interfaces":[{"name":"enp1s0","role":"lan"},{"name":"enp2s0","role":"wan"},{"name":"enp3s0","role":"mgmt","addresses":["10.0.2.15/24"]}],"ui_exposure":["enp3s0","enp1s0"]}"#,
    );
    assert!(
        validate_bootstrap(&req).is_ok(),
        "{:?}",
        validate_bootstrap(&req).err()
    );
}

#[test]
fn bootstrap_rejects_wan_on_mgmt_parent() {
    let req = parse_boot(
        r#"{"hostname":"fwos-box","admin":"alice","password":"secret12","interfaces":[{"name":"enp1s0","role":"lan"},{"name":"enp3s0","role":"mgmt","addresses":["10.0.2.15/24"]},{"name":"enp3s0","role":"wan","addresses":["192.0.2.1/24"]}],"ui_exposure":["enp3s0"]}"#,
    );
    let err = validate_bootstrap(&req).unwrap_err();
    assert!(err.to_ascii_lowercase().contains("parent"), "{err}");
}

#[test]
fn bootstrap_rejects_lan_vlan_on_mgmt_parent() {
    let req = parse_boot(
        r#"{"hostname":"fwos-box","admin":"alice","password":"secret12","interfaces":[{"name":"enp2s0","role":"wan"},{"name":"enp3s0","role":"mgmt","addresses":["10.0.2.15/24"]},{"name":"enp3s0.20","role":"lan","parent":"enp3s0","vlan":20}],"ui_exposure":["enp3s0"]}"#,
    );
    let err = validate_bootstrap(&req).unwrap_err();
    assert!(err.to_ascii_lowercase().contains("parent"), "{err}");
}

#[test]
fn bootstrap_rejects_mgmt_without_prefix() {
    let req = parse_boot(
        r#"{"hostname":"fwos-box","admin":"alice","password":"secret12","interfaces":[{"name":"enp1s0","role":"lan"},{"name":"enp2s0","role":"wan"},{"name":"enp3s0","role":"mgmt"}],"ui_exposure":["enp3s0"]}"#,
    );
    let err = validate_bootstrap(&req).unwrap_err();
    assert!(
        err.to_ascii_lowercase().contains("static")
            || err.to_ascii_lowercase().contains("prefix")
            || err.to_ascii_lowercase().contains("address"),
        "{err}"
    );
}

#[test]
fn bootstrap_rejects_mgmt_missing_from_exposure() {
    let req = parse_boot(
        r#"{"hostname":"fwos-box","admin":"alice","password":"secret12","interfaces":[{"name":"enp1s0","role":"lan"},{"name":"enp2s0","role":"wan"},{"name":"enp3s0","role":"mgmt","addresses":["10.0.2.15/24"]}],"ui_exposure":["enp1s0"]}"#,
    );
    let err = validate_bootstrap(&req).unwrap_err();
    assert!(
        err.to_ascii_lowercase().contains("ui_exposure")
            || err.to_ascii_lowercase().contains("management"),
        "{err}"
    );
}

fn http(method: &str, path: &str, headers: &[(&str, &str)]) -> HttpRequest {
    HttpRequest {
        method: method.into(),
        path: path.into(),
        body: Vec::new(),
        headers: headers
            .iter()
            .map(|(n, v)| (n.to_string(), v.to_string()))
            .collect(),
    }
}

fn answered(r: Route) -> HttpResponse {
    match r {
        Route::Respond(x) => x,
        _ => panic!("expected a response"),
    }
}

fn body(r: &HttpResponse) -> String {
    String::from_utf8(body_bytes(&r.content)).unwrap()
}

#[test]
fn ui_has_no_host_update_route() {
    let mut req = http("POST", "/api/update", &[("content-type", "application/json")]);
    req.body = b"{\"image\":\"10.0.2.2:5000/fwos:next\"}".to_vec();
    let resp = answered(dispatch(&req, false, false));
    assert_eq!(resp.status, 404);
    let body = body(&resp);
    assert!(!body.contains("update.sock"));
    assert!(!body.contains("bootc"));
}

#[test]
fn pages_and_calls_are_routed() {
    assert!(matches!(dispatch(&http("GET", "/", &[]), true, false), Route::File("index.html")));
    assert!(matches!(
        dispatch(&http("GET", "/index.html?x=1", &[]), true, false),
        Route::File("index.html")
    ));
    assert!(matches!(dispatch(&http("GET", "/app.js", &[]), true, false), Route::File("app.js")));
    let missing = answered(dispatch(&http("GET", "/other", &[]), true, false));
    assert_eq!((missing.status, body(&missing).as_str()), (404, "not found"));
    assert_eq!(missing.ctype, "text/plain; charset=utf-8");
    let call = answered(dispatch(&http("GET", "/api/other", &[]), false, false));
    assert_eq!((call.status, body(&call).as_str()), (404, r#"{"error":"not found","ok":false}"#));
    let method = answered(dispatch(&http("PUT", "/", &[]), true, false));
    assert_eq!((method.status, body(&method).as_str()), (405, "method not allowed"));
    assert!(matches!(dispatch(&http("GET", "/api/status", &[]), false, false), Route::Status));
    assert!(matches!(dispatch(&http("GET", "/api/status", &[]), true, true), Route::Status));
    let json = [("content-type", "application/json")];
    assert!(matches!(dispatch(&http("POST", "/api/login", &json), true, false), Route::Login));
    assert!(matches!(dispatch(&http("POST", "/api/bootstrap", &json), true, false), Route::Bootstrap));
    assert!(matches!(dispatch(&http("POST", "/api/logout", &json), true, true), Route::Logout));
}

#[test]
fn calls_ask_for_a_login() {
    let r = answered(dispatch(&http("GET", "/api/status", &[]), true, false));
    assert_eq!(r.status, 401);
    assert_eq!(body(&r), r#"{"bootstrapped":true,"error":"sign in required","ok":false}"#);
    let json = [("content-type", "application/json")];
    let r = answered(dispatch(&http("POST", "/api/logout", &json), false, false));
    assert_eq!(r.status, 401);
    assert_eq!(body(&r), r#"{"bootstrapped":false,"error":"sign in required","ok":false}"#);
}

#[test]
fn changes_come_from_a_page_of_the_appliance() {
    let q = |h: &[(&str, &str)]| same_origin_json(&http("POST", "/api/login", h));
    assert!(q(&[("content-type", "Application/JSON; charset=utf-8")]));
    assert!(!q(&[]));
    assert!(!q(&[("content-type", "text/plain")]));
    let json = ("content-type", "application/json");
    assert!(q(&[json, ("origin", "https://fw"), ("host", "fw")]));
    assert!(!q(&[json, ("origin", "http://fw"), ("host", "fw")]));
    assert!(!q(&[json, ("origin", "https://fw")]));
    assert!(!q(&[json, ("sec-fetch-site", "cross-site")]));
    assert!(q(&[json, ("sec-fetch-site", "same-origin")]));
    let r = answered(dispatch(&http("POST", "/api/login", &[]), true, true));
    assert_eq!(r.status, 403);
    assert_eq!(body(&r), r#"{"error":"same-origin JSON required","ok":false}"#);
}

const TOKEN: &str = "00112233445566778899aabbccddeeff00112233445566778899AABBCCDDEEFF";

#[test]
fn the_token_is_that_of_the_only_cookie_with_one() {
    let q = |c: &str| session_token(&http("GET", "/", &[("cookie", c)]));
    assert_eq!(q(&format!("a=b; __Host-fwos={TOKEN}")).as_deref(), Some(TOKEN));
    assert_eq!(q(&format!("__Host-fwos={TOKEN}; __Host-fwos={TOKEN}")), None);
    assert_eq!(q(&format!("__Host-fwos={TOKEN}; __Host-fwos=x")).as_deref(), Some(TOKEN));
    assert_eq!(q("__Host-fwos=xyz"), None);
    assert_eq!(q(&format!("fwos={TOKEN}")), None);
    assert_eq!(session_token(&http("GET", "/", &[])), None);
}

fn configuration() -> IdentityConfiguration {
    IdentityConfiguration {
        version: 1,
        sources: vec![Source { id: "local".into(), kind: SourceKind::LocalPassword }],
        required_assurance: Assurance::Password,
        accounts: vec![LocalAccount {
            subject: "s1".into(),
            source: "local".into(),
            username: "alice".into(),
            password_hash: "hash".into(),
            credential_version: 1,
            administrator: true,
        }],
    }
}

fn authenticated() -> AuthenticationResult {
    let c = configuration();
    authenticate(true, Some(&c), "local", "alice", "secret12", Some("nobody"), Some("hash"))
}

fn alice() -> Authentication {
    match authenticated() {
        AuthenticationResult::Authenticated(a) => a,
        _ => panic!("expected an authentication"),
    }
}

#[test]
fn a_session_lasts_until_it_expires() {
    let mut sessions = Sessions::new();
    let r = login(&mut sessions, &None, authenticated(), true, Ok(TOKEN.into()), 1000);
    assert_eq!(r.status, 200);
    assert_eq!(
        body(&r),
        r#"{"ok":true,"principal":{"source":"local","subject":"s1","username":"alice"}}"#
    );
    assert_eq!(
        r.headers,
        vec![(
            "Set-Cookie".to_string(),
            format!("__Host-fwos={TOKEN}; Path=/; Secure; HttpOnly; SameSite=Strict; Max-Age=1800")
        )]
    );
    let token = Some(TOKEN.to_string());
    assert_eq!(
        sessions.authenticated(&token, 1_800_999).unwrap().who().username,
        "alice"
    );
    assert!(sessions.authenticated(&None, 1000).is_none());
    assert!(sessions.authenticated(&Some("x".into()), 1000).is_none());
    assert!(sessions.authenticated(&token, 1_801_000).is_none());
    assert!(sessions.authenticated(&token, 1000).is_none());
}

#[test]
fn a_login_ends_the_session_before() {
    let mut sessions = Sessions::new();
    login(&mut sessions, &None, authenticated(), true, Ok("a".into()), 0);
    login(&mut sessions, &Some("a".into()), authenticated(), true, Ok("b".into()), 0);
    assert!(sessions.authenticated(&Some("a".into()), 0).is_none());
    assert!(sessions.authenticated(&Some("b".into()), 0).is_some());
    let r = logout(&mut sessions, &Some("b".into()));
    assert_eq!(r.status, 200);
    assert_eq!(body(&r), r#"{"ok":true}"#);
    assert_eq!(
        r.headers[0].1,
        "__Host-fwos=; Path=/; Secure; HttpOnly; SameSite=Strict; Max-Age=0"
    );
    assert!(sessions.authenticated(&Some("b".into()), 0).is_none());
}

#[test]
fn logins_are_refused() {
    let mut sessions = Sessions::new();
    let mut try_login = |result, authorized, token| {
        let r = login(&mut sessions, &None, result, authorized, token, 0);
        (r.status, body(&r))
    };
    let t = || Ok(TOKEN.to_string());
    assert_eq!(
        try_login(AuthenticationResult::Denied, true, t()),
        (401, r#"{"error":"login failed","ok":false}"#.to_string())
    );
    assert_eq!(try_login(authenticated(), false, t()).0, 401);
    assert_eq!(
        try_login(authenticated(), true, Err("no entropy".into())),
        (503, r#"{"error":"login unavailable","ok":false}"#.to_string())
    );
    let challenge = AuthenticationResult::Challenge(Challenge {
        source: "local".into(),
        required_assurance: Assurance::MultiFactor,
    });
    assert_eq!(
        try_login(challenge, true, t()),
        (
            403,
            r#"{"challenge":{"required_assurance":"multi_factor","source":"local"},"error":"additional authentication required","ok":false}"#
                .to_string()
        )
    );
    assert!(sessions.authenticated(&Some(TOKEN.into()), 0).is_none());
    assert_eq!(refuse_login(false, false).unwrap().status, 400);
    assert_eq!(refuse_login(true, true).unwrap().status, 429);
    assert!(refuse_login(true, false).is_none());
}

#[test]
fn sessions_are_limited() {
    let mut sessions = Sessions::new();
    for i in 0..1024 {
        let r = login(&mut sessions, &None, authenticated(), true, Ok(format!("t{i}")), 0);
        assert_eq!(r.status, 200);
    }
    let r = login(&mut sessions, &None, authenticated(), true, Ok("more".into()), 0);
    assert_eq!(r.status, 503);
    assert_eq!(body(&r), r#"{"error":"session capacity reached","ok":false}"#);
    let r = login(&mut sessions, &Some("t0".into()), authenticated(), true, Ok("more".into()), 0);
    assert_eq!(r.status, 200);
    let r = login(&mut sessions, &None, authenticated(), true, Ok("late".into()), 1_800_000);
    assert_eq!(r.status, 200);
}

#[test]
fn hostnames_are_checked() {
    assert!(valid_hostname("fwos-box"));
    assert!(valid_hostname("a.b"));
    assert!(!valid_hostname(""));
    assert!(!valid_hostname("-a"));
    assert!(!valid_hostname("a-"));
    assert!(!valid_hostname(".a"));
    assert!(!valid_hostname("a_b"));
    assert!(!valid_hostname("\u{e9}"));
    assert!(valid_hostname(&"a".repeat(253)));
    assert!(!valid_hostname(&"a".repeat(254)));
}

const FORM: &str = r#"{"hostname":" fwos-box ","admin":" alice ","password":"secret12","interfaces":[{"name":"enp1s0","role":"lan","addresses":["192.168.1.1/24"]},{"name":"enp2s0","role":"wan","dhcp":true},{"name":"enp2s0.7","role":"unused","parent":"enp2s0","vlan":7,"placement":"fwd"}],"ui_exposure":["enp1s0"],"lan_prefix":" 192.168.1.0/24 ","dhcp_pool":" "}"#;

#[test]
fn a_form_becomes_a_state() {
    let form = parse_boot(FORM);
    assert_eq!(
        encode(&desired_value(&form)),
        r#"{"hostname":"fwos-box","interfaces":[{"addresses":["192.168.1.1/24"],"name":"enp1s0","role":"lan"},{"dhcp":true,"name":"enp2s0","role":"wan"},{"name":"enp2s0.7","parent":"enp2s0","placement":"fwd","role":"unused","vlan":7}],"lan_prefix":"192.168.1.0/24","ui_exposure":["enp1s0"]}"#
    );
    match bootstrap(false, Ok(form)) {
        Ok(s) => assert_eq!((s.hostname.as_str(), s.admin.as_str()), ("fwos-box", "alice")),
        Err(_) => panic!("expected a set-up"),
    }
}

fn refused(bootstrapped: bool, form: Result<Bootstrap, String>) -> (u16, String) {
    match bootstrap(bootstrapped, form) {
        Ok(_) => panic!("expected a refusal"),
        Err(r) => (r.status, body(&r)),
    }
}

#[test]
fn forms_are_refused() {
    let said = |s: &str| format!("{{\"error\":\"{s}\",\"ok\":false}}");
    assert_eq!(refused(true, Ok(parse_boot(FORM))), (409, said("already bootstrapped")));
    assert_eq!(refused(false, Err("EOF".into())), (400, said("EOF")));
    let mut form = parse_boot(FORM);
    form.hostname = "-".into();
    assert_eq!(refused(false, Ok(form)), (400, said("invalid hostname")));
    let mut form = parse_boot(FORM);
    form.admin = "0".into();
    assert_eq!(refused(false, Ok(form)), (400, said("invalid admin")));
    let mut form = parse_boot(FORM);
    form.password = "".into();
    assert_eq!(
        refused(false, Ok(form)),
        (400, said("password must contain 1\u{2013}1024 bytes without ASCII control characters"))
    );
    let mut form = parse_boot(FORM);
    form.interfaces.clear();
    assert_eq!(refused(false, Ok(form)), (400, said("missing interfaces")));
    let mut form = parse_boot(FORM);
    form.interfaces[0].name = " ".into();
    assert_eq!(refused(false, Ok(form)), (400, said("missing NIC name")));
    let mut form = parse_boot(FORM);
    form.interfaces[0].placement = "host".into();
    assert_eq!(
        refused(false, Ok(form)),
        (400, said("placement is not a contract; use roles and ui_exposure"))
    );
    let mut form = parse_boot(FORM);
    form.interfaces[0].role = Some("dmz".into());
    assert_eq!(refused(false, Ok(form)), (400, said("unknown role dmz")));
}

#[test]
fn ownership_is_stamped_at_the_word_of_the_daemon() {
    let r = bootstrap_response(Ok(netd_apply(br#"{"ok":true}"#)));
    assert!(r.stamp);
    assert_eq!((r.status, body(&r).as_str()), (200, r#"{"ok":true}"#));
    let r = bootstrap_response(Ok(netd_apply(br#"{"ok":false,"error":"no"}"#)));
    assert!(!r.stamp);
    assert_eq!((r.status, body(&r).as_str()), (502, r#"{"error":"no","ok":false}"#));
    let r = bootstrap_response(Ok(netd_apply(b"panic\xff")));
    assert_eq!((r.status, body(&r).as_str()), (502, "{\"error\":\"panic\u{fffd}\",\"ok\":false}"));
    let r = bootstrap_response(Err("connect: refused".into()));
    assert!(!r.stamp);
    assert_eq!(body(&r), r#"{"error":"connect: refused","ok":false}"#);
    assert!(netd_cmd(b"{").unwrap_err().starts_with("parse netd reply: "));
    assert_eq!(encode(&netd_cmd(br#"{"ok":true}"#).unwrap()), r#"{"ok":true}"#);
}

#[test]
fn the_status_shows_the_state() {
    let desired = parse(
        br#"{"hostname":"fw","lan_prefix":"192.168.1.0/24","ui_exposure":["enp1s0"],"interfaces":[{"name":"enp1s0","role":"lan","addresses":["192.168.1.1/24"],"dhcp":false,"secret":1},{"name":"enp2s0","dhcp":true,"vlan":7,"parent":"x"}]}"#,
    )
    .unwrap();
    let nics = list_nics(&Some(parse(br#"{"nics":[{"name":"enp1s0"}]}"#).unwrap()));
    let s = status_json(true, &Some(" \n".into()), nics, &desired);
    assert_eq!(
        encode(&s),
        r#"{"bootstrapped":true,"dhcp_pool":null,"hostname":"fw","interfaces":[{"addresses":["192.168.1.1/24"],"name":"enp1s0","role":"lan"},{"dhcp":true,"name":"enp2s0","parent":"x","vlan":7}],"lan_prefix":"192.168.1.0/24","nics":[{"name":"enp1s0"}],"ui_exposure":["enp1s0"],"wan_pd":null}"#
    );
    let s = status_json(false, &Some("kept\n".into()), list_nics(&None), &desired);
    assert_eq!(s.text_member("hostname"), Some("kept"));
    let s = status_json(false, &None, list_nics(&Some(Json::Null)), &Json::Null);
    assert_eq!(
        encode(&s),
        r#"{"bootstrapped":false,"dhcp_pool":null,"hostname":null,"interfaces":[],"lan_prefix":null,"nics":[],"ui_exposure":[],"wan_pd":null}"#
    );
    let r = status_response(parse(br#"{"a":1}"#).unwrap(), &Some(alice()));
    assert_eq!(
        body(&r),
        r#"{"a":1,"principal":{"source":"local","subject":"s1","username":"alice"}}"#
    );
    assert_eq!(body(&status_response(parse(br#"{"a":1}"#).unwrap(), &None)), r#"{"a":1}"#);
}

#[test]
fn files_are_sent_as_what_they_are() {
    assert_eq!(mime("app.js"), "application/javascript; charset=utf-8");
    assert_eq!(mime("index.html"), "text/html; charset=utf-8");
    assert!(file_name("index.html"));
    assert!(!file_name("../key.pem"));
    assert!(!file_name("a/b"));
    assert!(!file_name("a\\b"));
    let r = static_response("app.js", Some(b"x".to_vec()));
    assert_eq!((r.status, r.ctype, body(&r).as_str()), (200, "application/javascript; charset=utf-8", "x"));
    assert_eq!(static_response("app.js", None).status, 404);
}

#[test]
fn a_response_is_written_whole() {
    let r = HttpResponse {
        status: 409,
        ctype: "text/plain",
        content: Content::Bytes(b"abc".to_vec()),
        stamp: false,
        headers: vec![("A".into(), "b".into())],
    };
    assert_eq!(
        write_response(&r, 3),
        "HTTP/1.1 409 Conflict\r\nContent-Type: text/plain\r\nContent-Length: 3\r\nConnection: close\r\nCache-Control: no-store\r\nX-Content-Type-Options: nosniff\r\nContent-Security-Policy: default-src 'self'; style-src 'self' 'unsafe-inline'; frame-ancestors 'none'; base-uri 'none'\r\nA: b\r\n\r\n"
    );
    for (status, phrase) in [
        (200, "OK"),
        (400, "Bad Request"),
        (401, "Unauthorized"),
        (403, "Forbidden"),
        (404, "Not Found"),
        (405, "Method Not Allowed"),
        (415, "Unsupported Media Type"),
        (429, "Too Many Requests"),
        (502, "Bad Gateway"),
        (503, "Service Unavailable"),
        (500, "Error"),
    ] {
        let r = HttpResponse { status, ..static_response("x", None) };
        assert!(write_response(&r, 0).starts_with(&format!("HTTP/1.1 {status} {phrase}\r\n")));
    }
}

#[test]
fn set_up_is_understood_by_the_network_daemon() {
    let request = setup_request("s1", Json::object().with("revision", Json::Natural(0)));
    assert_eq!(
        encode(&request),
        r#"{"admin_subject":"s1","desired":{"revision":0},"op":"bootstrap_apply"}"#
    );
    match classify(Ok(request), false) {
        Received::Command(v) => {
            assert!(matches!(handle_cmd(&v, false, false), Work::Bootstrap));
            assert_eq!(v.text_member("admin_subject"), Some("s1"));
            assert_eq!(v.get("desired").unwrap().natural_member("revision"), Some(0));
        }
        _ => panic!("not a command"),
    }
}

#[test]
fn one_set_up_is_served_at_a_time() {
    assert!(takes_turns(&http("POST", "/api/bootstrap?again", &[])));
    assert!(!takes_turns(&http("GET", "/api/bootstrap", &[])));
    assert!(!takes_turns(&http("POST", "/api/login", &[])));
}

#[test]
fn addresses_to_listen_at_are_shown() {
    let shown: Vec<String> = wildcard_bind_addrs().iter().map(show_bind).collect();
    assert_eq!(shown, vec!["0.0.0.0:443", "[::]:443"]);
    let scoped = BindAddr { ip: IpAddr::V6(0xfe80 << 112 | 1), scope: 3 };
    assert_eq!(show_bind(&scoped), "[fe80::1%3]:443");
}
