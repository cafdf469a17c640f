use fwos::identity::{
    authenticate, authorize_administrator, authorized_in, change_local_administrator_password,
    create_first_administrator, create_local_administrator, expected_hash, list_local_administrators,
    random_token, remove_local_administrator, tentative_first_administrator_exists,
    tentative_first_administrator_subject, valid_password, valid_username, AccountError, Assurance, Authentication,
    AuthenticationResult, IdentityConfiguration, LocalAccount, Source, SourceKind, Stored, LOCAL_SOURCE,
    MAX_PASSWORD_BYTES,
};

fn account(subject: &str, username: &str) -> LocalAccount {
    LocalAccount {
        subject: subject.into(),
        source: LOCAL_SOURCE.into(),
        username: username.into(),
        password_hash: format!("$y${username}"),
        credential_version: 1,
        administrator: true,
    }
}

fn configuration(accounts: Vec<LocalAccount>) -> IdentityConfiguration {
    IdentityConfiguration {
        version: 1,
        sources: vec![Source { id: LOCAL_SOURCE.into(), kind: SourceKind::LocalPassword }],
        required_assurance: Assurance::Password,
        accounts,
    }
}

fn two() -> IdentityConfiguration {
    configuration(vec![account("s1", "alice"), account("s2", "bob")])
}

fn log_in(c: &IdentityConfiguration, username: &str) -> AuthenticationResult {
    let hash = expected_hash(true, Some(c), LOCAL_SOURCE, username, "pw", Some("$y$nobody"));
    authenticate(true, Some(c), LOCAL_SOURCE, username, "pw", Some("$y$nobody"), hash.as_deref())
}

fn who(c: &IdentityConfiguration, username: &str) -> Authentication {
    match log_in(c, username) {
        AuthenticationResult::Authenticated(a) => a,
        _ => panic!("expected an authentication"),
    }
}

#[test]
fn usernames_and_passwords_are_checked() {
    assert!(valid_username("alice"));
    assert!(valid_username("_a-1"));
    assert!(!valid_username(""));
    assert!(!valid_username("1a"));
    assert!(!valid_username("Alice"));
    assert!(valid_password("x"));
    assert!(!valid_password(""));
    assert!(!valid_password("a\nb"));
    assert!(!valid_password("a\u{7f}"));
    assert!(valid_password(&"a".repeat(MAX_PASSWORD_BYTES)));
    assert!(!valid_password(&"a".repeat(MAX_PASSWORD_BYTES + 1)));
    assert!(!valid_password(&"\u{e9}".repeat(256)));
}

#[test]
fn the_first_administrator_is_created_once() {
    let make = |bootstrapped, name: &str, subject, hash| {
        create_first_administrator(bootstrapped, name, "secret", subject, hash)
    };
    let c = make(false, "alice", Ok("s1".into()), Ok("$y$h".into())).unwrap();
    assert_eq!(c.accounts.len(), 1);
    assert_eq!(c.accounts[0].username, "alice");
    assert_eq!(c.accounts[0].credential_version, 1);
    assert!(c.accounts[0].administrator);
    let c = IdentityConfiguration::read(Stored::Decoded(c));
    assert_eq!(tentative_first_administrator_subject(&c).as_deref(), Some("s1"));
    assert!(tentative_first_administrator_exists(&c));
    assert!(!tentative_first_administrator_exists(&Err("no".into())));
    assert_eq!(
        make(true, "alice", Ok("s".into()), Ok("h".into())).unwrap_err(),
        "already bootstrapped"
    );
    assert_eq!(
        make(false, "", Ok("s".into()), Ok("h".into())).unwrap_err(),
        "invalid administrator credentials"
    );
    assert_eq!(make(false, "a", Err("no entropy".into()), Ok("h".into())).unwrap_err(), "no entropy");
    assert_eq!(make(false, "a", Ok("s".into()), Err("no hash".into())).unwrap_err(), "no hash");
}

#[test]
fn configurations_are_checked_when_read() {
    let read = |c| IdentityConfiguration::read(c).map(|_| ()).unwrap_err();
    assert_eq!(read(Stored::Unavailable), "Identity configuration unavailable");
    assert_eq!(read(Stored::Invalid), "Identity configuration invalid");
    let mut c = two();
    c.version = 2;
    assert_eq!(read(Stored::Decoded(c)), "unsupported Identity configuration version");
    let mut c = two();
    c.sources.push(Source { id: LOCAL_SOURCE.into(), kind: SourceKind::LocalPassword });
    assert_eq!(read(Stored::Decoded(c)), "invalid Authentication sources");
    let mut c = two();
    c.accounts[1].username = "alice".into();
    assert_eq!(read(Stored::Decoded(c)), "invalid local accounts");
    let mut c = two();
    c.accounts[1].password_hash = "$1$x".into();
    assert_eq!(read(Stored::Decoded(c)), "invalid local accounts");
    assert!(IdentityConfiguration::read(Stored::Decoded(two())).is_ok());
}

#[test]
fn authentication_checks_the_password() {
    let c = two();
    let a = who(&c, "alice");
    assert_eq!(a.who().subject, "s1");
    assert!(authorized_in(&c, &a));
    let denied = |r| matches!(r, AuthenticationResult::Denied);
    assert!(denied(authenticate(true, Some(&c), "local", "alice", "pw", Some("n"), Some("$y$bob"))));
    assert!(denied(authenticate(true, Some(&c), "local", "alice", "pw", Some("n"), None)));
    assert!(denied(authenticate(true, Some(&c), "ldap", "alice", "pw", Some("n"), Some("$y$alice"))));
    assert!(denied(authenticate(false, Some(&c), "local", "alice", "pw", Some("n"), Some("$y$alice"))));
    assert!(denied(authenticate(true, None, "local", "alice", "pw", Some("n"), Some("$y$alice"))));
    assert!(denied(authenticate(true, Some(&c), "local", "alice", "", Some("n"), Some("$y$alice"))));
    // Nobody is authenticated by the hash that belongs to nobody.
    assert_eq!(
        expected_hash(true, Some(&c), "local", "carol", "pw", Some("$y$nobody")).as_deref(),
        Some("$y$nobody")
    );
    assert!(denied(log_in(&c, "carol")));
}

#[test]
fn more_assurance_is_asked_for() {
    let mut c = two();
    c.required_assurance = Assurance::MultiFactor;
    match log_in(&c, "alice") {
        AuthenticationResult::Challenge(x) => {
            assert_eq!(x.source, "local");
            assert_eq!(x.required_assurance, Assurance::MultiFactor);
        }
        _ => panic!("expected a challenge"),
    }
    assert!(!authorized_in(&c, &who(&two(), "alice")));
}

#[test]
fn a_changed_password_ends_sessions() {
    let c = two();
    let alice = who(&c, "alice");
    let bob = who(&c, "bob");
    let c = change_local_administrator_password(true, Ok(c), &bob, "alice", "new", Ok("$y$new".into())).unwrap();
    assert_eq!(c.accounts[0].credential_version, 2);
    assert_eq!(c.accounts[0].password_hash, "$y$new");
    assert!(!authorized_in(&c, &alice));
    assert!(authorized_in(&c, &bob));
    assert!(authorize_administrator(true, &Ok(c), &bob));
    assert!(!authorize_administrator(false, &Ok(two()), &bob));
    assert!(!authorize_administrator(true, &Err("gone".into()), &bob));
}

#[test]
fn administrators_are_removed_but_for_the_last() {
    let c = two();
    let alice = who(&c, "alice");
    let c = remove_local_administrator(true, Ok(c), &alice, "bob").unwrap();
    assert_eq!(c.accounts.len(), 1);
    assert_eq!(
        remove_local_administrator(true, Ok(c), &alice, "alice").map(|_| ()),
        Err(AccountError::LastAdministrator)
    );
    assert_eq!(
        remove_local_administrator(true, Ok(two()), &alice, "carol").map(|_| ()),
        Err(AccountError::NotFound)
    );
    let c = two();
    let bob = who(&c, "bob");
    let c = remove_local_administrator(true, Ok(c), &alice, "bob").unwrap();
    assert!(!authorized_in(&c, &bob));
}

#[test]
fn a_created_administrator_is_removed_without_a_trace() {
    let c = two();
    let before = format!("{c:?}");
    let alice = who(&c, "alice");
    let c = create_local_administrator(true, Ok(c), &alice, "carol", "pw", Ok("s3".into()), Ok("$y$c".into())).unwrap();
    assert_ne!(format!("{c:?}"), before);
    let c = remove_local_administrator(true, Ok(c), &alice, "carol").unwrap();
    assert_eq!(format!("{c:?}"), before);
}

#[test]
fn a_name_made_again_grants_nothing_back() {
    let c = two();
    let alice = who(&c, "alice");
    let bob = who(&c, "bob");
    let c = remove_local_administrator(true, Ok(c), &alice, "bob").unwrap();
    let c = create_local_administrator(true, Ok(c), &alice, "bob", "pw", Ok("s3".into()), Ok("$y$bob".into())).unwrap();
    assert!(!authorized_in(&c, &bob));
    assert!(authorized_in(&c, &who(&c, "bob")));
}

#[test]
fn administrators_are_created() {
    let c = two();
    let alice = who(&c, "alice");
    let c = create_local_administrator(true, Ok(c), &alice, "carol", "pw", Ok("s3".into()), Ok("$y$c".into())).unwrap();
    assert!(authorized_in(&c, &who(&c, "carol")));
    assert_eq!(
        list_local_administrators(true, Ok(c), &alice).unwrap(),
        vec!["alice", "bob", "carol"]
    );
    let create = |bootstrapped, c, name: &str, pw: &str, subject, hash| {
        create_local_administrator(bootstrapped, c, &alice, name, pw, subject, hash).map(|_| ())
    };
    let ok = || Ok::<String, String>("x".into());
    assert_eq!(create(true, Ok(two()), "bob", "pw", ok(), ok()), Err(AccountError::AlreadyExists));
    assert_eq!(create(true, Ok(two()), "", "pw", ok(), ok()), Err(AccountError::InvalidCredentials));
    assert_eq!(create(true, Ok(two()), "carol", "", ok(), ok()), Err(AccountError::InvalidCredentials));
    assert_eq!(create(false, Ok(two()), "carol", "pw", ok(), ok()), Err(AccountError::Forbidden));
    assert_eq!(create(true, Err("gone".into()), "carol", "pw", ok(), ok()), Err(AccountError::Storage));
    assert_eq!(create(true, Ok(two()), "carol", "pw", Err("no".into()), ok()), Err(AccountError::Storage));
    let stranger = configuration(vec![account("s9", "bob")]);
    assert_eq!(create(true, Ok(stranger), "carol", "pw", ok(), ok()), Err(AccountError::Forbidden));
}

#[test]
fn passwords_are_changed_for_those_who_are_there() {
    let c = two();
    let alice = who(&c, "alice");
    let change = |c, name: &str, pw: &str, hash| {
        change_local_administrator_password(true, c, &alice, name, pw, hash).map(|_| ())
    };
    assert_eq!(change(Ok(two()), "carol", "pw", Ok("h".into())), Err(AccountError::NotFound));
    assert_eq!(change(Ok(two()), "bob", "", Ok("h".into())), Err(AccountError::InvalidCredentials));
    assert_eq!(change(Ok(two()), "bob", "pw", Err("no".into())), Err(AccountError::Storage));
    let mut c = two();
    c.accounts[1].credential_version = u64::MAX;
    assert_eq!(change(Ok(c), "bob", "pw", Ok("h".into())), Err(AccountError::Storage));
}

#[test]
fn tokens_are_hexadecimal() {
    assert_eq!(random_token(&[0, 15, 16, 255]), "000f10ff");
    assert_eq!(random_token(&[]), "");
}
